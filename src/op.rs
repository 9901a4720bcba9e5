use crate::Word;
use vstd::prelude::*;

verus! {

/// The fixed set of instruction kinds. `LAST` is a terminal marker that is
/// never a valid instruction.
#[derive(Clone, Copy, Debug, PartialEq, Eq, Structural)]
pub enum OpKind {
    // program stack
    Push,
    Pop,
    Dup,
    // arithmetic
    Add,
    Dif,
    Mul,
    Div,
    Rem,
    // bitwise
    And,
    Or,
    Xor,
    Shr,
    Shl,
    // conditional calls
    Beq,
    Bne,
    Bgt,
    Blt,
    /// Begin a function definition
    Fun,
    Call,
    Ret,
    /// Begin a loop
    Loop,
    /// Iterate the loop
    Iter,
    /// End of the scanning pass, or end of execution
    Exe,
    // memory
    Sto,
    Lod,
    /// Length of the current stack frame
    Len,
    LAST,
}

/// The numeric tag of each kind, in declaration order.
pub open spec fn tag_of(k: OpKind) -> u64 {
    match k {
        OpKind::Push => 0,
        OpKind::Pop => 1,
        OpKind::Dup => 2,
        OpKind::Add => 3,
        OpKind::Dif => 4,
        OpKind::Mul => 5,
        OpKind::Div => 6,
        OpKind::Rem => 7,
        OpKind::And => 8,
        OpKind::Or => 9,
        OpKind::Xor => 10,
        OpKind::Shr => 11,
        OpKind::Shl => 12,
        OpKind::Beq => 13,
        OpKind::Bne => 14,
        OpKind::Bgt => 15,
        OpKind::Blt => 16,
        OpKind::Fun => 17,
        OpKind::Call => 18,
        OpKind::Ret => 19,
        OpKind::Loop => 20,
        OpKind::Iter => 21,
        OpKind::Exe => 22,
        OpKind::Sto => 23,
        OpKind::Lod => 24,
        OpKind::Len => 25,
        OpKind::LAST => 26,
    }
}

/// The kind that a tag names; tags past `Len` name no instruction.
pub open spec fn kind_of_tag(t: u64) -> Option<OpKind> {
    if t == 0 { Some(OpKind::Push) }
    else if t == 1 { Some(OpKind::Pop) }
    else if t == 2 { Some(OpKind::Dup) }
    else if t == 3 { Some(OpKind::Add) }
    else if t == 4 { Some(OpKind::Dif) }
    else if t == 5 { Some(OpKind::Mul) }
    else if t == 6 { Some(OpKind::Div) }
    else if t == 7 { Some(OpKind::Rem) }
    else if t == 8 { Some(OpKind::And) }
    else if t == 9 { Some(OpKind::Or) }
    else if t == 10 { Some(OpKind::Xor) }
    else if t == 11 { Some(OpKind::Shr) }
    else if t == 12 { Some(OpKind::Shl) }
    else if t == 13 { Some(OpKind::Beq) }
    else if t == 14 { Some(OpKind::Bne) }
    else if t == 15 { Some(OpKind::Bgt) }
    else if t == 16 { Some(OpKind::Blt) }
    else if t == 17 { Some(OpKind::Fun) }
    else if t == 18 { Some(OpKind::Call) }
    else if t == 19 { Some(OpKind::Ret) }
    else if t == 20 { Some(OpKind::Loop) }
    else if t == 21 { Some(OpKind::Iter) }
    else if t == 22 { Some(OpKind::Exe) }
    else if t == 23 { Some(OpKind::Sto) }
    else if t == 24 { Some(OpKind::Lod) }
    else if t == 25 { Some(OpKind::Len) }
    else { None }
}

impl OpKind {
    /// The numeric tag of this kind.
    pub fn tag(&self) -> (r: u64)
        ensures
            r == tag_of(*self),
    {
        match self {
            OpKind::Push => 0,
            OpKind::Pop => 1,
            OpKind::Dup => 2,
            OpKind::Add => 3,
            OpKind::Dif => 4,
            OpKind::Mul => 5,
            OpKind::Div => 6,
            OpKind::Rem => 7,
            OpKind::And => 8,
            OpKind::Or => 9,
            OpKind::Xor => 10,
            OpKind::Shr => 11,
            OpKind::Shl => 12,
            OpKind::Beq => 13,
            OpKind::Bne => 14,
            OpKind::Bgt => 15,
            OpKind::Blt => 16,
            OpKind::Fun => 17,
            OpKind::Call => 18,
            OpKind::Ret => 19,
            OpKind::Loop => 20,
            OpKind::Iter => 21,
            OpKind::Exe => 22,
            OpKind::Sto => 23,
            OpKind::Lod => 24,
            OpKind::Len => 25,
            OpKind::LAST => 26,
        }
    }

    /// The kind with the given tag, if any.
    pub fn from_tag(t: u64) -> (r: Option<OpKind>)
        ensures
            r == kind_of_tag(t),
    {
        match t {
            0 => Some(OpKind::Push),
            1 => Some(OpKind::Pop),
            2 => Some(OpKind::Dup),
            3 => Some(OpKind::Add),
            4 => Some(OpKind::Dif),
            5 => Some(OpKind::Mul),
            6 => Some(OpKind::Div),
            7 => Some(OpKind::Rem),
            8 => Some(OpKind::And),
            9 => Some(OpKind::Or),
            10 => Some(OpKind::Xor),
            11 => Some(OpKind::Shr),
            12 => Some(OpKind::Shl),
            13 => Some(OpKind::Beq),
            14 => Some(OpKind::Bne),
            15 => Some(OpKind::Bgt),
            16 => Some(OpKind::Blt),
            17 => Some(OpKind::Fun),
            18 => Some(OpKind::Call),
            19 => Some(OpKind::Ret),
            20 => Some(OpKind::Loop),
            21 => Some(OpKind::Iter),
            22 => Some(OpKind::Exe),
            23 => Some(OpKind::Sto),
            24 => Some(OpKind::Lod),
            25 => Some(OpKind::Len),
            _ => None,
        }
    }
}

/// A decoded instruction: its raw tag, its kind and its immediate operand.
#[derive(Clone, Copy, Debug, PartialEq, Eq, Structural)]
pub struct Op {
    pub op: u64,
    pub kind: OpKind,
    pub var: u64,
}

/// The word that holds `kind` in its high half and `var` in its low half.
pub open spec fn encode_spec(kind: OpKind, var: u64) -> Word {
    ((tag_of(kind) as u128) << 64u128) | (var as u128)
}

/// Decoding keeps only the low 32 bits of the immediate operand; words
/// whose high half is no known tag do not decode.
pub open spec fn decode_spec(w: Word) -> Option<Op> {
    let top = (w >> 64u128) as u64;
    match kind_of_tag(top) {
        Some(kind) => Some(Op { op: top, kind, var: (w & 0xFFFF_FFFFu128) as u64 }),
        None => None,
    }
}

impl Op {
    /// Packs a kind and an immediate operand into one word.
    pub fn new(kind: OpKind, var: u64) -> (r: Word)
        ensures
            r == encode_spec(kind, var),
    {
        let top = (kind.tag() as u128) << 64u128;
        let bottom = var as u128;
        top | bottom
    }

    /// Unpacks a word into an instruction; fails on an unknown tag.
    pub fn decode(value: &Word) -> (r: Result<Op, ()>)
        ensures
            r matches Ok(op) ==> decode_spec(*value) == Some(op),
            r is Err <==> decode_spec(*value) is None,
    {
        let top = *value >> 64u128;
        let bottom = *value & 0xFFFF_FFFFu128;
        match OpKind::from_tag(top as u64) {
            Some(kind) => Ok(Op { kind, op: top as u64, var: bottom as u64 }),
            None => Err(()),
        }
    }
}

/// Decoding an encoded instruction gives back its kind and tag, and its
/// immediate operand reduced to the low 32 bits; an operand that fits in
/// 32 bits comes back unchanged.
pub proof fn lemma_round_trip(kind: OpKind, var: u64)
    requires
        kind != OpKind::LAST,
    ensures
        decode_spec(encode_spec(kind, var)) == Some(
            Op { op: tag_of(kind), kind, var: var & 0xFFFF_FFFFu64 },
        ),
        var <= 0xFFFF_FFFFu64 ==> decode_spec(encode_spec(kind, var)) == Some(
            Op { op: tag_of(kind), kind, var },
        ),
{
    let t = tag_of(kind);
    let w = encode_spec(kind, var);
    assert(((((t as u128) << 64u128) | (var as u128)) >> 64u128) as u64 == t) by (bit_vector);
    assert(((((t as u128) << 64u128) | (var as u128)) & 0xFFFF_FFFFu128) as u64
        == var & 0xFFFF_FFFFu64) by (bit_vector);
    assert(var <= 0xFFFF_FFFFu64 ==> var & 0xFFFF_FFFFu64 == var) by (bit_vector);
}

} // verus!
