use crate::op::{tag_of, OpKind};
use crate::Word;
use vstd::prelude::*;

verus! {

/// The two ways a token can be malformed.
#[derive(Clone, Copy, Debug, PartialEq, Eq, Structural)]
pub enum AsmError {
    ExpectedNum,
    InvalidOp,
}

/// An assembler error together with the token it concerns.
#[derive(Clone, Debug)]
pub struct TaggedAsmError {
    pub kind: AsmError,
    pub word: String,
}

/// The whitespace-separated tokens of a text, in order.
pub uninterp spec fn ws_tokens(s: Seq<char>) -> Seq<Seq<char>>;

/// Relies on `str::split_whitespace`: the tokens of `s`, as owned strings.
#[verifier::external_body]
fn split_ws(s: &str) -> (r: Vec<String>)
    ensures
        r@.len() == ws_tokens(s@).len(),
        forall|i: int| 0 <= i < r@.len() ==> #[trigger] r@[i]@ == ws_tokens(s@)[i],
{
    s.split_whitespace().map(String::from).collect()
}

/// The value of a digit character in bases up to 36; 36 for any other
/// character.
pub open spec fn digit_value(c: char) -> int {
    if '0' <= c && c <= '9' {
        c as int - '0' as int
    } else if 'a' <= c && c <= 'z' {
        c as int - 'a' as int + 10
    } else if 'A' <= c && c <= 'Z' {
        c as int - 'A' as int + 10
    } else {
        36
    }
}

/// The number that a sequence of digits denotes, most significant first.
pub open spec fn digits_value(d: Seq<char>, radix: int) -> int
    decreases d.len(),
{
    if d.len() == 0 {
        0
    } else {
        digits_value(d.drop_last(), radix) * radix + digit_value(d.last())
    }
}

/// What parsing `s` as an unsigned 128-bit number in `radix` gives: an
/// optional `+`, then one or more digits, and a value that fits.
pub open spec fn radix_parse(s: Seq<char>, radix: int) -> Option<u128> {
    let d = if s.len() > 0 && s[0] == '+' { s.skip(1) } else { s };
    if d.len() > 0 && (forall|i: int| 0 <= i < d.len() ==> #[trigger] digit_value(d[i]) < radix)
        && digits_value(d, radix) <= u128::MAX {
        Some(digits_value(d, radix) as u128)
    } else {
        None
    }
}

/// `s` begins with `0x`.
pub open spec fn has_0x(s: Seq<char>) -> bool {
    s.len() >= 2 && s[0] == '0' && s[1] == 'x'
}

/// Relies on `<u128 as FromStr>::from_str`, which parses in base ten.
#[verifier::external_body]
fn parse_decimal(s: &str) -> (r: Option<u128>)
    ensures
        r == radix_parse(s@, 10),
{
    s.parse::<u128>().ok()
}

/// Relies on `u128::from_str_radix` in base sixteen.
#[verifier::external_body]
fn parse_hex(s: &str) -> (r: Option<u128>)
    ensures
        r == radix_parse(s@, 16),
{
    u128::from_str_radix(s, 16).ok()
}

/// Relies on `str::strip_prefix` with the pattern `"0x"`: the rest of `s`
/// after one leading `0x`, if it has one.
#[verifier::external_body]
fn after_0x(s: &str) -> (r: Option<&str>)
    ensures
        match r {
            Some(t) => has_0x(s@) && t@ == s@.skip(2),
            None => !has_0x(s@),
        },
{
    s.strip_prefix("0x")
}

/// A number token: decimal, or hexadecimal after `0x`.
pub open spec fn num_of(s: Seq<char>) -> Option<Word> {
    match radix_parse(s, 10) {
        Some(n) => Some(n),
        None => if has_0x(s) {
            radix_parse(s.skip(2), 16)
        } else {
            None
        },
    }
}

/// The instruction kind that a mnemonic names.
pub open spec fn mnemonic_kind(s: Seq<char>) -> Option<OpKind> {
    if s == "push"@ { Some(OpKind::Push) }
    else if s == "pop"@ { Some(OpKind::Pop) }
    else if s == "dup"@ { Some(OpKind::Dup) }
    else if s == "add"@ { Some(OpKind::Add) }
    else if s == "dif"@ { Some(OpKind::Dif) }
    else if s == "mul"@ { Some(OpKind::Mul) }
    else if s == "div"@ { Some(OpKind::Div) }
    else if s == "rem"@ { Some(OpKind::Rem) }
    else if s == "and"@ { Some(OpKind::And) }
    else if s == "or"@ { Some(OpKind::Or) }
    else if s == "xor"@ { Some(OpKind::Xor) }
    else if s == "shr"@ { Some(OpKind::Shr) }
    else if s == "shl"@ { Some(OpKind::Shl) }
    else if s == "beq"@ { Some(OpKind::Beq) }
    else if s == "bne"@ { Some(OpKind::Bne) }
    else if s == "bgt"@ { Some(OpKind::Bgt) }
    else if s == "blt"@ { Some(OpKind::Blt) }
    else if s == "fun"@ { Some(OpKind::Fun) }
    else if s == "call"@ { Some(OpKind::Call) }
    else if s == "ret"@ { Some(OpKind::Ret) }
    else if s == "loop"@ { Some(OpKind::Loop) }
    else if s == "iter"@ { Some(OpKind::Iter) }
    else if s == "exe"@ { Some(OpKind::Exe) }
    else if s == "sto"@ { Some(OpKind::Sto) }
    else if s == "lod"@ { Some(OpKind::Lod) }
    else if s == "len"@ { Some(OpKind::Len) }
    else { None }
}

fn same_text(a: &str, b: &str) -> (r: bool)
    ensures
        r == (a@ == b@),
{
    a.to_owned() == b.to_owned()
}

fn parse_num(input: &str) -> (r: Result<Word, AsmError>)
    ensures
        match num_of(input@) {
            Some(n) => r == Ok::<Word, AsmError>(n),
            None => r == Err::<Word, AsmError>(AsmError::ExpectedNum),
        },
{
    if let Some(n) = parse_decimal(input) {
        return Ok(n);
    }
    if let Some(digits) = after_0x(input) {
        if let Some(n) = parse_hex(digits) {
            return Ok(n);
        }
    }
    Err(AsmError::ExpectedNum)
}

fn parse_op(input: &str) -> (r: Result<Word, AsmError>)
    ensures
        match mnemonic_kind(input@) {
            Some(k) => r == Ok::<Word, AsmError>(tag_of(k) as Word),
            None => r == Err::<Word, AsmError>(AsmError::InvalidOp),
        },
{
    let op = if same_text(input, "push") { OpKind::Push }
    else if same_text(input, "pop") { OpKind::Pop }
    else if same_text(input, "dup") { OpKind::Dup }
    else if same_text(input, "add") { OpKind::Add }
    else if same_text(input, "dif") { OpKind::Dif }
    else if same_text(input, "mul") { OpKind::Mul }
    else if same_text(input, "div") { OpKind::Div }
    else if same_text(input, "rem") { OpKind::Rem }
    else if same_text(input, "and") { OpKind::And }
    else if same_text(input, "or") { OpKind::Or }
    else if same_text(input, "xor") { OpKind::Xor }
    else if same_text(input, "shr") { OpKind::Shr }
    else if same_text(input, "shl") { OpKind::Shl }
    else if same_text(input, "beq") { OpKind::Beq }
    else if same_text(input, "bne") { OpKind::Bne }
    else if same_text(input, "bgt") { OpKind::Bgt }
    else if same_text(input, "blt") { OpKind::Blt }
    else if same_text(input, "fun") { OpKind::Fun }
    else if same_text(input, "call") { OpKind::Call }
    else if same_text(input, "ret") { OpKind::Ret }
    else if same_text(input, "loop") { OpKind::Loop }
    else if same_text(input, "iter") { OpKind::Iter }
    else if same_text(input, "exe") { OpKind::Exe }
    else if same_text(input, "sto") { OpKind::Sto }
    else if same_text(input, "lod") { OpKind::Lod }
    else if same_text(input, "len") { OpKind::Len }
    else { return Err(AsmError::InvalidOp) };
    Ok(op.tag() as Word)
}

/// The words assembled from the first `n` tokens, and the mnemonic (its tag
/// and its token) that still waits for its number; or the first error.
pub open spec fn asm_prefix(toks: Seq<Seq<char>>, n: nat) -> Result<
    (Seq<Word>, Option<(Word, Seq<char>)>),
    (AsmError, Seq<char>),
>
    decreases n,
{
    if n == 0 {
        Ok((Seq::empty(), None))
    } else {
        match asm_prefix(toks, (n - 1) as nat) {
            Err(e) => Err(e),
            Ok((out, pending)) => {
                let t = toks[n - 1];
                match pending {
                    Some((op, _)) => match num_of(t) {
                        Some(num) => Ok((out.push((op << 64u128) | num), None)),
                        None => Err((AsmError::ExpectedNum, t)),
                    },
                    None => match mnemonic_kind(t) {
                        Some(k) => Ok((out, Some((tag_of(k) as Word, t)))),
                        None => match num_of(t) {
                            Some(num) => Ok((out.push(num), None)),
                            None => Err((AsmError::InvalidOp, t)),
                        },
                    },
                }
            },
        }
    }
}

/// What assembling a token sequence gives: the words, or the error kind and
/// the offending token. A mnemonic left without its number is an
/// `ExpectedNum` error on that mnemonic.
pub open spec fn assemble_spec(toks: Seq<Seq<char>>) -> Result<Seq<Word>, (AsmError, Seq<char>)> {
    match asm_prefix(toks, toks.len()) {
        Err(e) => Err(e),
        Ok((out, Some((_, w)))) => Err((AsmError::ExpectedNum, w)),
        Ok((out, None)) => Ok(out),
    }
}

proof fn lemma_asm_err(toks: Seq<Seq<char>>, i: nat, n: nat)
    requires
        i <= n,
        asm_prefix(toks, i) is Err,
    ensures
        asm_prefix(toks, n) == asm_prefix(toks, i),
    decreases n - i,
{
    if i < n {
        lemma_asm_err(toks, i + 1, n);
    }
}

/// The view of a mnemonic waiting for its number.
pub open spec fn pending_view(p: Option<(Word, String)>) -> Option<(Word, Seq<char>)> {
    match p {
        Some((op, w)) => Some((op, w@)),
        None => None,
    }
}

/// The texts of a sequence of tokens.
pub open spec fn texts(toks: Seq<String>) -> Seq<Seq<char>> {
    toks.map_values(|t: String| t@)
}

/// Assembles a sequence of tokens into words. Each mnemonic takes the
/// number after it as its immediate operand; a number with no mnemonic
/// before it is a literal word.
pub fn assemble_tokens(toks: &Vec<String>) -> (r: Result<Vec<Word>, TaggedAsmError>)
    ensures
        match assemble_spec(texts(toks@)) {
            Ok(out) => r matches Ok(v) && v@ == out,
            Err((k, w)) => r matches Err(e) && e.kind == k && e.word@ == w,
        },
{
    let ghost t = texts(toks@);
    let mut last: Option<(Word, String)> = None;
    let mut output: Vec<Word> = Vec::new();
    let mut i: usize = 0;
    while i < toks.len()
        invariant
            i <= toks@.len(),
            t == texts(toks@),
            asm_prefix(t, i as nat) == Ok::<_, (AsmError, Seq<char>)>((output@, pending_view(last))),
        decreases toks@.len() - i,
    {
        let part = toks[i].as_str();
        assert(part@ == t[i as int]);
        match last {
            Some((op, _)) => {
                let num = match parse_num(part) {
                    Ok(n) => n,
                    Err(kind) => {
                        proof {
                            lemma_asm_err(t, (i + 1) as nat, t.len());
                        }
                        return Err(TaggedAsmError { kind, word: toks[i].clone() });
                    },
                };
                output.push((op << 64u128) | num);
                last = None;
            },
            None => {
                match parse_op(part) {
                    Ok(op) => {
                        last = Some((op, toks[i].clone()));
                    },
                    Err(_) => {
                        match parse_num(part) {
                            Ok(n) => output.push(n),
                            Err(_) => {
                                proof {
                                    lemma_asm_err(t, (i + 1) as nat, t.len());
                                }
                                return Err(
                                    TaggedAsmError { kind: AsmError::InvalidOp, word: toks[i].clone() },
                                );
                            },
                        }
                    },
                }
            },
        }
        i = i + 1;
    }
    match last {
        Some((_, w)) => Err(TaggedAsmError { kind: AsmError::ExpectedNum, word: w }),
        None => Ok(output),
    }
}

/// Assembles whitespace-separated mnemonics and numbers into words, as
/// `assemble_tokens` does with the text's tokens.
pub fn assemble(input: &str) -> (r: Result<Vec<Word>, TaggedAsmError>)
    ensures
        match assemble_spec(ws_tokens(input@)) {
            Ok(out) => r matches Ok(v) && v@ == out,
            Err((k, w)) => r matches Err(e) && e.kind == k && e.word@ == w,
        },
{
    let toks = split_ws(input);
    assert(texts(toks@) =~= ws_tokens(input@));
    assemble_tokens(&toks)
}

/// The message for an assembler error.
pub open spec fn asm_message(kind: AsmError, word: Seq<char>) -> Seq<char> {
    "[Assembler] Error parsing token: "@ + match kind {
        AsmError::ExpectedNum => "Expected number, found "@,
        AsmError::InvalidOp => "Expected opcode, found "@,
    } + word
}

impl TaggedAsmError {
    /// A human-readable description of the error and its token.
    pub fn message(&self) -> (r: String)
        ensures
            r@ == asm_message(self.kind, self.word@),
    {
        let mut s = String::from_str("[Assembler] Error parsing token: ");
        match self.kind {
            AsmError::ExpectedNum => s.append("Expected number, found "),
            AsmError::InvalidOp => s.append("Expected opcode, found "),
        }
        s.append(self.word.as_str());
        s
    }
}

} // verus!
