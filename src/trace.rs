use crate::machine::Phase;
use crate::op::OpKind;
use crate::util::{error_text, Error};
use crate::Word;
use vstd::prelude::*;

verus! {

/// The character of a decimal digit.
pub open spec fn digit_char(d: nat) -> char {
    if d == 0 { '0' }
    else if d == 1 { '1' }
    else if d == 2 { '2' }
    else if d == 3 { '3' }
    else if d == 4 { '4' }
    else if d == 5 { '5' }
    else if d == 6 { '6' }
    else if d == 7 { '7' }
    else if d == 8 { '8' }
    else { '9' }
}

/// The decimal numeral of `n`: its digits, most significant first, with no
/// sign and no leading zeros.
pub open spec fn dec_text(n: nat) -> Seq<char>
    decreases n,
{
    if n < 10 {
        seq![digit_char(n)]
    } else {
        dec_text(n / 10) + seq![digit_char(n % 10)]
    }
}

/// Relies on the `Display` form of `u128`, through `ToString::to_string`:
/// its decimal numeral.
#[verifier::external_body]
fn decimal(w: Word) -> (r: String)
    ensures
        r@ == dec_text(w as nat),
{
    w.to_string()
}

/// The numerals of a stack's words, separated by `", "`.
pub open spec fn items_text(s: Seq<Word>) -> Seq<char>
    decreases s.len(),
{
    if s.len() == 0 {
        Seq::empty()
    } else if s.len() == 1 {
        dec_text(s[0] as nat)
    } else {
        items_text(s.drop_last()) + ", "@ + dec_text(s.last() as nat)
    }
}

/// A stack as a bracketed list, bottom first: `[1, 2, 3]`.
pub open spec fn stack_text(s: Seq<Word>) -> Seq<char> {
    "["@ + items_text(s) + "]"@
}

pub open spec fn phase_text(p: Phase) -> Seq<char> {
    match p {
        Phase::Warmup => "Warmup"@,
        Phase::Recital => "Recital"@,
    }
}

pub open spec fn kind_text(k: OpKind) -> Seq<char> {
    match k {
        OpKind::Push => "Push"@,
        OpKind::Pop => "Pop"@,
        OpKind::Dup => "Dup"@,
        OpKind::Add => "Add"@,
        OpKind::Dif => "Dif"@,
        OpKind::Mul => "Mul"@,
        OpKind::Div => "Div"@,
        OpKind::Rem => "Rem"@,
        OpKind::And => "And"@,
        OpKind::Or => "Or"@,
        OpKind::Xor => "Xor"@,
        OpKind::Shr => "Shr"@,
        OpKind::Shl => "Shl"@,
        OpKind::Beq => "Beq"@,
        OpKind::Bne => "Bne"@,
        OpKind::Bgt => "Bgt"@,
        OpKind::Blt => "Blt"@,
        OpKind::Fun => "Fun"@,
        OpKind::Call => "Call"@,
        OpKind::Ret => "Ret"@,
        OpKind::Loop => "Loop"@,
        OpKind::Iter => "Iter"@,
        OpKind::Exe => "Exe"@,
        OpKind::Sto => "Sto"@,
        OpKind::Lod => "Lod"@,
        OpKind::Len => "Len"@,
        OpKind::LAST => "LAST"@,
    }
}

fn phase_name(p: Phase) -> (r: &'static str)
    ensures
        r@ == phase_text(p),
{
    match p {
        Phase::Warmup => "Warmup",
        Phase::Recital => "Recital",
    }
}

fn kind_name(k: OpKind) -> (r: &'static str)
    ensures
        r@ == kind_text(k),
{
    match k {
        OpKind::Push => "Push",
        OpKind::Pop => "Pop",
        OpKind::Dup => "Dup",
        OpKind::Add => "Add",
        OpKind::Dif => "Dif",
        OpKind::Mul => "Mul",
        OpKind::Div => "Div",
        OpKind::Rem => "Rem",
        OpKind::And => "And",
        OpKind::Or => "Or",
        OpKind::Xor => "Xor",
        OpKind::Shr => "Shr",
        OpKind::Shl => "Shl",
        OpKind::Beq => "Beq",
        OpKind::Bne => "Bne",
        OpKind::Bgt => "Bgt",
        OpKind::Blt => "Blt",
        OpKind::Fun => "Fun",
        OpKind::Call => "Call",
        OpKind::Ret => "Ret",
        OpKind::Loop => "Loop",
        OpKind::Iter => "Iter",
        OpKind::Exe => "Exe",
        OpKind::Sto => "Sto",
        OpKind::Lod => "Lod",
        OpKind::Len => "Len",
        OpKind::LAST => "LAST",
    }
}

/// The line that names a decoded instruction: `[Warmup] 0: Fun 0`.
pub open spec fn decoded_line(phase: Phase, ip: Word, kind: OpKind, var: u64) -> Seq<char> {
    "["@ + phase_text(phase) + "] "@ + dec_text(ip as nat) + ": "@ + kind_text(kind) + " "@
        + dec_text(var as nat) + "\n"@
}

/// The line for a literal pushed from the instruction stream.
pub open spec fn literal_line(ip: Word, num: Word) -> Seq<char> {
    "[Recital] "@ + dec_text(ip as nat) + ": "@ + dec_text(num as nat) + " added to stack\n"@
}

/// A labelled stack line.
pub open spec fn stack_line(label: Seq<char>, s: Seq<Word>) -> Seq<char> {
    label + stack_text(s) + "\n"@
}

/// The line that ends a run: the final stack after a normal end, the error
/// otherwise.
pub open spec fn end_line(e: Error, s: Seq<Word>) -> Seq<char> {
    if e == Error::EndReached {
        stack_line("[BRAVO] Final stack: "@, s)
    } else {
        "[CLAM] "@ + error_text(e) + "\n"@
    }
}

/// `after` begins with `before`: the trace only grows.
pub open spec fn extends(before: Seq<char>, after: Seq<char>) -> bool {
    before.len() <= after.len() && after.subrange(0, before.len() as int) == before
}

pub proof fn lemma_extends_append(a: Seq<char>, b: Seq<char>)
    ensures
        extends(a, a + b),
        extends(a, a),
{
    assert((a + b).subrange(0, a.len() as int) =~= a);
    assert(a.subrange(0, a.len() as int) =~= a);
}

pub proof fn lemma_extends_trans(a: Seq<char>, b: Seq<char>, c: Seq<char>)
    requires
        extends(a, b),
        extends(b, c),
    ensures
        extends(a, c),
{
    assert(c.subrange(0, a.len() as int) =~= b.subrange(0, a.len() as int));
}

pub fn trace_decoded(log: &mut String, phase: Phase, ip: Word, kind: OpKind, var: u64)
    ensures
        final(log)@ == old(log)@ + decoded_line(phase, ip, kind, var),
{
    log.append("[");
    log.append(phase_name(phase));
    log.append("] ");
    let a = decimal(ip);
    log.append(a.as_str());
    log.append(": ");
    log.append(kind_name(kind));
    log.append(" ");
    let b = decimal(var as Word);
    log.append(b.as_str());
    log.append("\n");
    assert(final(log)@ =~= old(log)@ + decoded_line(phase, ip, kind, var));
}

pub fn trace_literal(log: &mut String, ip: Word, num: Word)
    ensures
        final(log)@ == old(log)@ + literal_line(ip, num),
{
    log.append("[Recital] ");
    let a = decimal(ip);
    log.append(a.as_str());
    log.append(": ");
    let b = decimal(num);
    log.append(b.as_str());
    log.append(" added to stack\n");
    assert(final(log)@ =~= old(log)@ + literal_line(ip, num));
}

pub fn trace_stack(log: &mut String, label: &str, stack: &Vec<Word>)
    ensures
        final(log)@ == old(log)@ + stack_line(label@, stack@),
{
    let ghost start = log@;
    log.append(label);
    log.append("[");
    let mut i: usize = 0;
    assert(stack@.subrange(0, 0) =~= Seq::<Word>::empty());
    assert(log@ =~= start + label@ + "["@ + items_text(stack@.subrange(0, 0)));
    while i < stack.len()
        invariant
            i <= stack@.len(),
            log@ == start + label@ + "["@ + items_text(stack@.subrange(0, i as int)),
        decreases stack@.len() - i,
    {
        let ghost before = stack@.subrange(0, i as int);
        let ghost after = stack@.subrange(0, i as int + 1);
        assert(after.drop_last() =~= before);
        if i > 0 {
            log.append(", ");
        }
        let d = decimal(stack[i]);
        log.append(d.as_str());
        i = i + 1;
        if i == 1 {
            assert(log@ =~= start + label@ + "["@ + items_text(after));
        } else {
            assert(log@ =~= start + label@ + "["@ + items_text(after));
        }
    }
    assert(stack@.subrange(0, stack@.len() as int) =~= stack@);
    assert(items_text(stack@.subrange(0, stack@.len() as int)) == items_text(stack@));
    log.append("]");
    log.append("\n");
    assert(log@ =~= start + stack_line(label@, stack@));
}

pub fn trace_end(log: &mut String, e: Error, stack: &Vec<Word>)
    ensures
        final(log)@ == old(log)@ + end_line(e, stack@),
{
    if e == Error::EndReached {
        trace_stack(log, "[BRAVO] Final stack: ", stack);
    } else {
        log.append("[CLAM] ");
        log.append(e.message());
        log.append("\n");
        assert(final(log)@ =~= old(log)@ + end_line(e, stack@));
    }
}

} // verus!
