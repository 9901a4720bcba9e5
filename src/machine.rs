use crate::assembler::{asm_message, assemble, assemble_spec, ws_tokens};
use crate::op::{decode_spec, Op, OpKind};
use crate::util::{abs_diff, abs_sub, CResult, Error};
use crate::trace::{
    end_line, extends, lemma_extends_append, lemma_extends_trans, trace_decoded, trace_end,
    trace_literal, trace_stack,
};
use crate::Word;
use vstd::prelude::*;

verus! {

/// Number of words of linear memory.
pub const MEM_WORDS: usize = 1024;

/// The two phases of execution: a scanning pass that records where functions
/// start, then execution proper.
#[derive(Clone, Copy, Debug, PartialEq, Eq, Structural)]
pub enum Phase {
    Warmup,
    Recital,
}

/// The abstract state of a machine: everything but its trace.
pub struct MachineState {
    pub ip: Word,
    pub ebp: Word,
    pub phase: Phase,
    pub cstack: Seq<Word>,
    pub pstack: Seq<Word>,
    pub fstack: Seq<Word>,
    pub instructions: Seq<Word>,
    pub mem: Seq<Word>,
}

/// What an operation leads to: the next state and its result. An
/// instruction that fails leaves the state as it found it, but for `ip`,
/// which the step has already moved past it, and for what the outcome says
/// otherwise.
pub struct Outcome {
    pub state: MachineState,
    pub res: Result<(), Error>,
}

/// Success, ending in `s`.
pub open spec fn done(s: MachineState) -> Outcome {
    Outcome { state: s, res: Ok(()) }
}

/// Failure with `e`.
pub open spec fn fail(s: MachineState, e: Error) -> Outcome {
    Outcome { state: s, res: Err(e) }
}

/// A machine ends in `after` with result `r` as the outcome `o` says.
pub open spec fn settles(o: Outcome, r: CResult, after: MachineState) -> bool {
    &&& r == o.res
    &&& after == o.state
}

/// Addition that stops at the largest word.
pub open spec fn sat_add(a: Word, b: Word) -> Word {
    if a + b > Word::MAX { Word::MAX } else { (a + b) as Word }
}

/// Multiplication that stops at the largest word.
pub open spec fn sat_mul(a: Word, b: Word) -> Word {
    if a * b > Word::MAX { Word::MAX } else { (a * b) as Word }
}

/// The two-operand operations, applied to the top `a` and the word `b` below it.
pub open spec fn bin_apply(kind: OpKind, a: Word, b: Word) -> Word {
    match kind {
        OpKind::Add => sat_add(a, b),
        OpKind::Dif => abs_diff(a, b),
        OpKind::Mul => sat_mul(a, b),
        OpKind::And => a & b,
        OpKind::Or => a | b,
        OpKind::Xor => a ^ b,
        _ => 0,
    }
}

/// `n` rounds of: pop `a`, pop `b`, push `bin_apply(kind, a, b)`; `None` when
/// the stack runs out.
pub open spec fn bin_rounds(s: Seq<Word>, kind: OpKind, n: nat) -> Option<Seq<Word>>
    decreases n,
{
    if n == 0 {
        Some(s)
    } else {
        match bin_rounds(s, kind, (n - 1) as nat) {
            Some(t) => if t.len() >= 2 {
                Some(t.subrange(0, t.len() - 2).push(bin_apply(kind, t.last(), t[t.len() - 2])))
            } else {
                None
            },
            None => None,
        }
    }
}

/// Division, Euclidean remainder and shifts of `x` by `y`. A zero divisor
/// gives the largest word; a shift by 128 or more gives zero.
pub open spec fn arith(kind: OpKind, x: Word, y: Word) -> Word {
    match kind {
        OpKind::Div => if y == 0 { Word::MAX } else { x / y },
        OpKind::Rem => if y == 0 { Word::MAX } else { x % y },
        OpKind::Shl => if y >= 128 { 0 } else { x << y },
        OpKind::Shr => if y >= 128 { 0 } else { x >> y },
        _ => 0,
    }
}

/// Whether a compared pair asks for the branch.
pub open spec fn branch_test(kind: OpKind, a: Word, b: Word) -> bool {
    match kind {
        OpKind::Beq => a != b,
        OpKind::Bne => a == b,
        _ => a <= b,
    }
}

/// `n` rounds of: pop `a`, pop `b`, push `a` back, noting whether any pair
/// asks for the branch.
pub open spec fn cmp_rounds(s: Seq<Word>, kind: OpKind, n: nat) -> Option<(Seq<Word>, bool)>
    decreases n,
{
    if n == 0 {
        Some((s, false))
    } else {
        match cmp_rounds(s, kind, (n - 1) as nat) {
            Some((t, f)) => if t.len() >= 2 {
                Some(
                    (
                        t.subrange(0, t.len() - 2).push(t.last()),
                        f || branch_test(kind, t.last(), t[t.len() - 2]),
                    ),
                )
            } else {
                None
            },
            None => None,
        }
    }
}

/// The top of a stack, or zero for an empty one.
pub open spec fn top_or_zero(s: Seq<Word>) -> Word {
    if s.len() > 0 { s.last() } else { 0 }
}

/// A call of function number `index`: the return address and a frame marker
/// go on the call stack, and execution moves to the function's start.
pub open spec fn call_spec(s: MachineState, index: Word) -> Outcome {
    if index < s.fstack.len() && s.fstack[index as int] < s.instructions.len() {
        done(
            MachineState {
                ip: s.fstack[index as int],
                cstack: s.cstack.push(s.ip).push((s.cstack.len() + 1) as Word),
                ..s
            },
        )
    } else {
        fail(s, Error::BadCall)
    }
}

/// One instruction of the scanning pass; `at` is the address it was read
/// from, and `s.ip` already points past it. A `Fun` records its own address.
pub open spec fn warmup_spec(s: MachineState, op: Op, at: Word) -> Outcome {
    match op.kind {
        OpKind::Fun => done(MachineState { fstack: s.fstack.push(at), ..s }),
        OpKind::Exe => if s.fstack.len() > 0 {
            done(MachineState { phase: Phase::Recital, ip: s.fstack.last(), ..s })
        } else {
            fail(MachineState { phase: Phase::Recital, ..s }, Error::StackUnderflow)
        },
        OpKind::Push => done(MachineState { ip: (s.ip + op.var) as Word, ..s }),
        _ => done(s),
    }
}

/// One instruction of execution proper; `s.ip` already points past it.
/// Most kinds repeat their effect `var` times. `Iter` counts a loop entry
/// down without moving `ip`, and `Len` fails with `StackUnderflow` when the
/// frame base lies above the top of the stack.
pub open spec fn recital_spec(s: MachineState, op: Op) -> Outcome {
    let var = op.var;
    let p = s.pstack;
    let c = s.cstack;
    match op.kind {
        OpKind::Push => if s.ip + var <= s.instructions.len() {
            done(
                MachineState {
                    pstack: p + s.instructions.subrange(s.ip as int, s.ip + var),
                    ip: (s.ip + var) as Word,
                    ..s
                },
            )
        } else {
            fail(s, Error::StackUnderflow)
        },
        OpKind::Pop => if p.len() >= var {
            done(MachineState { pstack: p.subrange(0, p.len() - var), ..s })
        } else {
            fail(s, Error::StackUnderflow)
        },
        OpKind::Dup => done(
            MachineState { pstack: p + Seq::new(var as nat, |i: int| top_or_zero(p)), ..s },
        ),
        OpKind::Add | OpKind::Dif | OpKind::Mul | OpKind::And | OpKind::Or | OpKind::Xor => {
            match bin_rounds(p, op.kind, var as nat) {
                Some(q) => done(MachineState { pstack: q, ..s }),
                None => fail(s, Error::StackUnderflow),
            }
        },
        OpKind::Div | OpKind::Rem | OpKind::Shl | OpKind::Shr => if var == 0 {
            if p.len() >= 2 {
                done(
                    MachineState {
                        pstack: p.subrange(0, p.len() - 2).push(
                            arith(op.kind, p[p.len() - 2], p.last()),
                        ),
                        ..s
                    },
                )
            } else {
                fail(s, Error::StackUnderflow)
            }
        } else {
            if p.len() >= 1 {
                done(
                    MachineState {
                        pstack: p.drop_last().push(arith(op.kind, p.last(), var as Word)),
                        ..s
                    },
                )
            } else {
                fail(s, Error::StackUnderflow)
            }
        },
        OpKind::Beq | OpKind::Bne | OpKind::Bgt | OpKind::Blt => {
            match cmp_rounds(p, op.kind, var as nat) {
                Some((q, f)) => if q.len() >= 1 {
                    if f {
                        call_spec(
                            MachineState { pstack: q.drop_last(), ip: (s.ip + 1) as Word, ..s },
                            var as Word,
                        )
                    } else {
                        done(MachineState { pstack: q.drop_last(), ..s })
                    }
                } else {
                    fail(s, Error::StackUnderflow)
                },
                None => fail(s, Error::StackUnderflow),
            }
        },
        OpKind::Call => call_spec(s, var as Word),
        OpKind::Ret => if c.len() >= 2 {
            done(
                MachineState {
                    ebp: c.last(),
                    ip: c[c.len() - 2],
                    cstack: c.subrange(0, c.len() - 2),
                    ..s
                },
            )
        } else {
            fail(s, Error::StackUnderflow)
        },
        OpKind::Loop => done(MachineState { cstack: c.push(s.ip).push(var as Word), ..s }),
        OpKind::Iter => if c.len() >= 2 {
            let counter = c.last();
            let address = c[c.len() - 2];
            let rest = c.subrange(0, c.len() - 2);
            if counter > 1 {
                done(
                    MachineState { cstack: rest.push(address).push((counter - 1) as Word), ..s },
                )
            } else {
                done(MachineState { cstack: rest, ..s })
            }
        } else {
            fail(s, Error::StackUnderflow)
        },
        OpKind::Exe => fail(MachineState { phase: Phase::Recital, ..s }, Error::EndReached),
        OpKind::Sto => if p.len() >= 1 {
            if var < s.mem.len() {
                done(MachineState { pstack: p.drop_last(), mem: s.mem.update(var as int, p.last()), ..s })
            } else {
                fail(s, Error::WriteOob)
            }
        } else {
            fail(s, Error::StackUnderflow)
        },
        OpKind::Lod => if var < s.mem.len() {
            done(MachineState { pstack: p.push(s.mem[var as int]), ..s })
        } else {
            fail(s, Error::WriteOob)
        },
        OpKind::Len => if s.ebp <= p.len() {
            done(MachineState { pstack: p.push((p.len() - s.ebp) as Word), ..s })
        } else {
            fail(s, Error::StackUnderflow)
        },
        OpKind::Fun | OpKind::LAST => done(s),
    }
}

/// One step: fetch and decode the word at `ip`, move `ip` past it, and
/// dispatch on the phase.
pub open spec fn step_spec(s: MachineState) -> Outcome {
    if s.ip >= s.instructions.len() {
        fail(s, Error::NoExec)
    } else {
        match decode_spec(s.instructions[s.ip as int]) {
            None => fail(s, Error::IllegalOp),
            Some(op) => {
                let t = MachineState { ip: (s.ip + 1) as Word, ..s };
                match s.phase {
                    Phase::Warmup => warmup_spec(t, op, s.ip),
                    Phase::Recital => recital_spec(t, op),
                }
            },
        }
    }
}

/// Up to `n` steps, stopping at the first error.
pub open spec fn steps_spec(s: MachineState, n: nat) -> Outcome
    decreases n,
{
    if n == 0 {
        done(s)
    } else {
        let o = steps_spec(s, (n - 1) as nat);
        if o.res is Err {
            o
        } else {
            step_spec(o.state)
        }
    }
}

/// The machine: its registers, its three stacks, its program, its memory,
/// and a human-readable trace of what it did.
pub struct Machine {
    pub ip: Word,
    pub ebp: Word,
    pub phase: Phase,
    pub log: String,
    pub cstack: Vec<Word>,
    pub pstack: Vec<Word>,
    pub fstack: Vec<Word>,
    pub instructions: Vec<Word>,
    pub mem: Vec<Word>,
}

impl View for Machine {
    type V = MachineState;

    open spec fn view(&self) -> MachineState {
        MachineState {
            ip: self.ip,
            ebp: self.ebp,
            phase: self.phase,
            cstack: self.cstack@,
            pstack: self.pstack@,
            fstack: self.fstack@,
            instructions: self.instructions@,
            mem: self.mem@,
        }
    }
}

/// The state of a fresh machine: no program, empty stacks, zeroed memory.
pub open spec fn initial_state() -> MachineState {
    MachineState {
        ip: 0,
        ebp: 0,
        phase: Phase::Warmup,
        cstack: Seq::empty(),
        pstack: Seq::empty(),
        fstack: Seq::empty(),
        instructions: Seq::empty(),
        mem: Seq::new(MEM_WORDS as nat, |i: int| 0),
    }
}

/// A fresh machine with `words` installed as its program.
pub open spec fn loaded(words: Seq<Word>) -> MachineState {
    MachineState { instructions: words, ..initial_state() }
}

impl Machine {
    /// A fresh machine, in the scanning phase, with 1024 words of zeroed memory.
    pub fn new() -> (r: Self)
        ensures
            r@ == initial_state(),
            r.log@ == Seq::<char>::empty(),
    {
        let m = Machine {
            ip: 0,
            ebp: 0,
            phase: Phase::Warmup,
            log: String::new(),
            cstack: Vec::new(),
            pstack: Vec::new(),
            fstack: Vec::new(),
            instructions: Vec::new(),
            mem: vec![0; MEM_WORDS],
        };
        assert(m.mem@ =~= initial_state().mem);
        m
    }

    /// Installs a program, replacing any earlier one.
    pub fn read(&mut self, src: Vec<Word>)
        ensures
            final(self)@ == (MachineState { instructions: src@, ..old(self)@ }),
            final(self).log@ == old(self).log@,
    {
        self.instructions = src;
    }

    fn memset(&mut self, address: Word, val: Word) -> (r: CResult)
        ensures
            address < old(self).mem@.len() ==> r is Ok && final(self)@ == (MachineState {
                mem: old(self).mem@.update(address as int, val),
                ..old(self)@
            }),
            address >= old(self).mem@.len() ==> r == Err::<(), Error>(Error::WriteOob)
                && final(self)@ == old(self)@,
            final(self).log@ == old(self).log@,
    {
        if address >= self.mem.len() as Word {
            return Err(Error::WriteOob);
        }
        self.mem.set(address as usize, val);
        Ok(())
    }

    fn memget(&self, address: Word) -> (r: Result<Word, Error>)
        ensures
            address < self.mem@.len() ==> r == Ok::<Word, Error>(self.mem@[address as int]),
            address >= self.mem@.len() ==> r == Err::<Word, Error>(Error::WriteOob),
    {
        if address >= self.mem.len() as Word {
            return Err(Error::WriteOob);
        }
        Ok(self.mem[address as usize])
    }

    fn c_pop(&mut self) -> (r: Result<Word, Error>)
        ensures
            old(self).cstack@.len() > 0 ==> r == Ok::<Word, Error>(old(self).cstack@.last())
                && final(self)@ == (MachineState {
                cstack: old(self).cstack@.drop_last(),
                ..old(self)@
            }),
            old(self).cstack@.len() == 0 ==> r == Err::<Word, Error>(Error::StackUnderflow)
                && final(self)@ == old(self)@,
            final(self).log@ == old(self).log@,
    {
        match self.cstack.pop() {
            Some(i) => Ok(i),
            None => Err(Error::StackUnderflow),
        }
    }

    fn p_pop(&mut self) -> (r: Result<Word, Error>)
        ensures
            old(self).pstack@.len() > 0 ==> r == Ok::<Word, Error>(old(self).pstack@.last())
                && final(self)@ == (MachineState {
                pstack: old(self).pstack@.drop_last(),
                ..old(self)@
            }),
            old(self).pstack@.len() == 0 ==> r == Err::<Word, Error>(Error::StackUnderflow)
                && final(self)@ == old(self)@,
            final(self).log@ == old(self).log@,
    {
        match self.pstack.pop() {
            Some(i) => Ok(i),
            None => Err(Error::StackUnderflow),
        }
    }

    fn p_peak(&self) -> (r: Result<Word, Error>)
        ensures
            self.pstack@.len() > 0 ==> r == Ok::<Word, Error>(self.pstack@.last()),
            self.pstack@.len() == 0 ==> r == Err::<Word, Error>(Error::StackUnderflow),
    {
        let n = self.pstack.len();
        if n == 0 {
            Err(Error::StackUnderflow)
        } else {
            Ok(self.pstack[n - 1])
        }
    }

    fn call(&mut self, index: Word) -> (r: CResult)
        ensures
            settles(call_spec(old(self)@, index), r, final(self)@),
            final(self).log@ == old(self).log@,
    {
        if index >= self.fstack.len() as Word {
            return Err(Error::BadCall);
        }
        let address = self.fstack[index as usize];
        if address >= self.instructions.len() as Word {
            return Err(Error::BadCall);
        }
        self.cstack.push(self.ip);
        let depth = self.cstack.len() as Word;
        self.cstack.push(depth);
        self.ip = address;
        Ok(())
    }

    fn _return(&mut self) -> (r: CResult)
        ensures
            settles(recital_spec(old(self)@, Op { op: 19, kind: OpKind::Ret, var: 0 }), r, final(self)@),
            final(self).log@ == old(self).log@,
    {
        let ghost c = self.cstack@;
        if self.cstack.len() < 2 {
            return Err(Error::StackUnderflow);
        }
        let ebp = self.c_pop()?;
        let ip = self.c_pop()?;
        assert(self.cstack@ =~= c.subrange(0, c.len() - 2));
        self.ip = ip;
        self.ebp = ebp;
        Ok(())
    }
}

/// Rounds of a two-operand operation take one word off the stack each, and
/// fail only for want of operands.
pub proof fn lemma_bin_rounds_shape(s: Seq<Word>, kind: OpKind, n: nat)
    ensures
        bin_rounds(s, kind, n) is Some <==> (n == 0 || s.len() >= n + 1),
        bin_rounds(s, kind, n) matches Some(t) ==> t.len() == s.len() - n,
    decreases n,
{
    if n > 0 {
        lemma_bin_rounds_shape(s, kind, (n - 1) as nat);
    }
}

/// Rounds of a comparison take one word off the stack each, and fail only
/// for want of operands.
pub proof fn lemma_cmp_rounds_shape(s: Seq<Word>, kind: OpKind, n: nat)
    ensures
        cmp_rounds(s, kind, n) is Some <==> (n == 0 || s.len() >= n + 1),
        cmp_rounds(s, kind, n) matches Some((t, f)) ==> t.len() == s.len() - n,
    decreases n,
{
    if n > 0 {
        lemma_cmp_rounds_shape(s, kind, (n - 1) as nat);
    }
}


fn apply_bin(kind: OpKind, a: Word, b: Word) -> (r: Word)
    ensures
        r == bin_apply(kind, a, b),
{
    match kind {
        OpKind::Add => a.saturating_add(b),
        OpKind::Dif => abs_sub(a, b),
        OpKind::Mul => match a.checked_mul(b) {
            Some(x) => x,
            None => Word::MAX,
        },
        OpKind::And => a & b,
        OpKind::Or => a | b,
        OpKind::Xor => a ^ b,
        _ => 0,
    }
}

fn apply_arith(kind: OpKind, x: Word, y: Word) -> (r: Word)
    ensures
        r == arith(kind, x, y),
{
    match kind {
        OpKind::Div => match x.checked_div(y) {
            Some(q) => q,
            None => Word::MAX,
        },
        OpKind::Rem => match x.checked_rem_euclid(y) {
            Some(q) => q,
            None => Word::MAX,
        },
        OpKind::Shl => if y >= 128 { 0 } else { x << y },
        OpKind::Shr => if y >= 128 { 0 } else { x >> y },
        _ => 0,
    }
}

fn test_branch(kind: OpKind, a: Word, b: Word) -> (r: bool)
    ensures
        r == branch_test(kind, a, b),
{
    match kind {
        OpKind::Beq => a != b,
        OpKind::Bne => a == b,
        _ => a <= b,
    }
}

impl Machine {
    /// `n` rounds of a two-operand operation on the program stack; with too
    /// few operands nothing changes.
    fn bin_op(&mut self, kind: OpKind, n: u64) -> (r: CResult)
        ensures
            match bin_rounds(old(self).pstack@, kind, n as nat) {
                Some(q) => r is Ok && final(self)@ == (MachineState { pstack: q, ..old(self)@ }),
                None => r == Err::<(), Error>(Error::StackUnderflow) && final(self)@ == old(self)@,
            },
            final(self).log@ == old(self).log@,
    {
        let ghost s0 = self@;
        let ghost log0 = self.log@;
        proof {
            lemma_bin_rounds_shape(s0.pstack, kind, n as nat);
        }
        if n > 0 && (self.pstack.len() as u128) < n as u128 + 1 {
            return Err(Error::StackUnderflow);
        }
        let mut i: u64 = 0;
        while i < n
            invariant
                i <= n,
                n == 0 || s0.pstack.len() >= n + 1,
                bin_rounds(s0.pstack, kind, i as nat) == Some(self.pstack@),
                self@ == (MachineState { pstack: self.pstack@, ..s0 }),
                self.log@ == log0,
                s0 == old(self)@,
                log0 == old(self).log@,
            decreases n - i,
        {
            proof {
                lemma_bin_rounds_shape(s0.pstack, kind, i as nat);
            }
            let ghost p = self.pstack@;
            let a = self.pstack.pop().unwrap();
            let b = self.pstack.pop().unwrap();
            self.pstack.push(apply_bin(kind, a, b));
            assert(self.pstack@ =~= p.subrange(0, p.len() - 2).push(bin_apply(kind, p.last(), p[p.len() - 2])));
            i = i + 1;
        }
        Ok(())
    }

    /// `n` rounds of comparing the two top words, keeping the upper one;
    /// returns whether any pair asks for the branch. With too few operands
    /// nothing changes.
    fn cmp_op(&mut self, kind: OpKind, n: u64) -> (r: Result<bool, Error>)
        ensures
            match cmp_rounds(old(self).pstack@, kind, n as nat) {
                Some((q, f)) => r == Ok::<bool, Error>(f) && final(self)@ == (MachineState {
                    pstack: q,
                    ..old(self)@
                }),
                None => r == Err::<bool, Error>(Error::StackUnderflow) && final(self)@ == old(self)@,
            },
            final(self).log@ == old(self).log@,
    {
        let ghost s0 = self@;
        let ghost log0 = self.log@;
        proof {
            lemma_cmp_rounds_shape(s0.pstack, kind, n as nat);
        }
        if n > 0 && (self.pstack.len() as u128) < n as u128 + 1 {
            return Err(Error::StackUnderflow);
        }
        let mut should_branch = false;
        let mut i: u64 = 0;
        while i < n
            invariant
                i <= n,
                n == 0 || s0.pstack.len() >= n + 1,
                cmp_rounds(s0.pstack, kind, i as nat) == Some((self.pstack@, should_branch)),
                self@ == (MachineState { pstack: self.pstack@, ..s0 }),
                self.log@ == log0,
                s0 == old(self)@,
                log0 == old(self).log@,
            decreases n - i,
        {
            proof {
                lemma_cmp_rounds_shape(s0.pstack, kind, i as nat);
            }
            let ghost p = self.pstack@;
            let a = self.pstack.pop().unwrap();
            let b = self.pstack.pop().unwrap();
            let t = test_branch(kind, a, b);
            should_branch = should_branch || t;
            self.pstack.push(a);
            assert(self.pstack@ =~= p.subrange(0, p.len() - 2).push(p.last()));
            i = i + 1;
        }
        Ok(should_branch)
    }

    /// Pushes the `n` words that follow in the instruction stream, each with
    /// its trace line.
    fn push_literals(&mut self, n: u64) -> (r: CResult)
        requires
            old(self).ip <= old(self).instructions@.len(),
        ensures
            settles(
                recital_spec(old(self)@, Op { op: 0, kind: OpKind::Push, var: n }),
                r,
                final(self)@,
            ),
            extends(old(self).log@, final(self).log@),
    {
        let ghost s0 = self@;
        let ghost log0 = self.log@;
        proof {
            lemma_extends_append(log0, Seq::empty());
        }
        let len = self.instructions.len();
        if self.ip + n as Word > len as Word {
            return Err(Error::StackUnderflow);
        }
        let mut i: u64 = 0;
        assert(s0.pstack + s0.instructions.subrange(s0.ip as int, s0.ip as int) =~= s0.pstack);
        while i < n
            invariant
                i <= n,
                s0.ip + n <= s0.instructions.len(),
                s0.instructions.len() <= usize::MAX,
                self@ == (MachineState {
                    ip: (s0.ip + i) as Word,
                    pstack: s0.pstack + s0.instructions.subrange(s0.ip as int, s0.ip + i),
                    ..s0
                }),
                extends(log0, self.log@),
                s0 == old(self)@,
                log0 == old(self).log@,
            decreases n - i,
        {
            let num = self.instructions[self.ip as usize];
            let ghost l = self.log@;
            trace_literal(&mut self.log, self.ip, num);
            proof {
                lemma_extends_append(l, self.log@.subrange(l.len() as int, self.log@.len() as int));
                assert(l + self.log@.subrange(l.len() as int, self.log@.len() as int) =~= self.log@);
                lemma_extends_trans(log0, l, self.log@);
            }
            self.pstack.push(num);
            self.ip = self.ip + 1;
            i = i + 1;
            assert(s0.pstack + s0.instructions.subrange(s0.ip as int, s0.ip + i) =~= (s0.pstack
                + s0.instructions.subrange(s0.ip as int, s0.ip + i - 1)).push(num));
        }
        Ok(())
    }

    /// Pops and discards `n` words; with fewer on the stack nothing changes.
    fn pop_n(&mut self, n: u64) -> (r: CResult)
        ensures
            settles(
                recital_spec(old(self)@, Op { op: 1, kind: OpKind::Pop, var: n }),
                r,
                final(self)@,
            ),
            final(self).log@ == old(self).log@,
    {
        let ghost s0 = self@;
        let ghost log0 = self.log@;
        if (self.pstack.len() as u128) < n as u128 {
            return Err(Error::StackUnderflow);
        }
        assert(s0.pstack.subrange(0, s0.pstack.len() as int) =~= s0.pstack);
        let mut i: u64 = 0;
        while i < n
            invariant
                i <= n,
                n <= s0.pstack.len(),
                self@ == (MachineState { pstack: s0.pstack.subrange(0, s0.pstack.len() - i), ..s0 }),
                self.log@ == log0,
                s0 == old(self)@,
                log0 == old(self).log@,
            decreases n - i,
        {
            self.pstack.pop();
            i = i + 1;
            assert(self.pstack@ =~= s0.pstack.subrange(0, s0.pstack.len() - i));
        }
        Ok(())
    }

    /// Pushes `n` copies of the top word, or of zero on an empty stack.
    fn dup_n(&mut self, n: u64)
        ensures
            final(self)@ == recital_spec(old(self)@, Op { op: 2, kind: OpKind::Dup, var: n }).state,
            final(self).log@ == old(self).log@,
    {
        let ghost s0 = self@;
        let ghost log0 = self.log@;
        let d = match self.p_peak() {
            Ok(x) => x,
            Err(_) => 0,
        };
        assert(s0.pstack + Seq::new(0, |j: int| top_or_zero(s0.pstack)) =~= s0.pstack);
        let mut i: u64 = 0;
        while i < n
            invariant
                i <= n,
                d == top_or_zero(s0.pstack),
                self@ == (MachineState {
                    pstack: s0.pstack + Seq::new(i as nat, |j: int| top_or_zero(s0.pstack)),
                    ..s0
                }),
                self.log@ == log0,
                s0 == old(self)@,
                log0 == old(self).log@,
            decreases n - i,
        {
            self.pstack.push(d);
            i = i + 1;
            assert(self.pstack@ =~= s0.pstack + Seq::new(i as nat, |j: int| top_or_zero(s0.pstack)));
        }
    }
}

impl Machine {
    /// Executes one decoded instruction in the execution phase; `ip` already
    /// points past it. A successful instruction ends its trace with the
    /// program stack.
    pub fn step_recital(&mut self, instr: Op) -> (r: CResult)
        requires
            old(self).ip <= old(self).instructions@.len(),
        ensures
            settles(recital_spec(old(self)@, instr), r, final(self)@),
            extends(old(self).log@, final(self).log@),
    {
        let ghost s0 = self@;
        let ghost log0 = self.log@;
        proof {
            lemma_extends_append(log0, Seq::empty());
        }
        let var = instr.var;
        match instr.kind {
            OpKind::Push => {
                self.push_literals(var)?;
            },
            OpKind::Pop => {
                self.pop_n(var)?;
            },
            OpKind::Dup => {
                self.dup_n(var);
            },
            OpKind::Add | OpKind::Dif | OpKind::Mul | OpKind::And | OpKind::Or | OpKind::Xor => {
                self.bin_op(instr.kind, var)?;
            },
            OpKind::Div | OpKind::Rem | OpKind::Shl | OpKind::Shr => {
                if var == 0 {
                    if self.pstack.len() < 2 {
                        return Err(Error::StackUnderflow);
                    }
                    let a = self.p_pop()?;
                    let b = self.p_pop()?;
                    self.pstack.push(apply_arith(instr.kind, b, a));
                    assert(self.pstack@ =~= s0.pstack.subrange(0, s0.pstack.len() - 2).push(
                        arith(instr.kind, s0.pstack[s0.pstack.len() - 2], s0.pstack.last()),
                    ));
                } else {
                    let top = self.p_pop()?;
                    self.pstack.push(apply_arith(instr.kind, top, var as Word));
                }
            },
            OpKind::Beq | OpKind::Bne | OpKind::Bgt | OpKind::Blt => {
                let should_branch = self.cmp_op(instr.kind, var)?;
                // the last compared word goes too
                self.p_pop()?;
                if should_branch {
                    // ip is within the program, whose length is a usize
                    let _ = self.instructions.len();
                    self.ip = self.ip + 1;
                    self.call(var as Word)?;
                }
            },
            OpKind::Fun => {},
            OpKind::Call => {
                self.call(var as Word)?;
            },
            OpKind::Ret => {
                self._return()?;
            },
            OpKind::Loop => {
                self.cstack.push(self.ip);
                self.cstack.push(var as Word);
            },
            OpKind::Iter => {
                let ghost c = self.cstack@;
                if self.cstack.len() < 2 {
                    return Err(Error::StackUnderflow);
                }
                let counter = self.c_pop()?;
                let address = self.c_pop()?;
                assert(self.cstack@ =~= c.subrange(0, c.len() - 2));
                // the entry is counted down; ip stays where it is
                if counter.saturating_sub(1) != 0 {
                    self.cstack.push(address);
                    self.cstack.push(counter - 1);
                }
            },
            OpKind::Exe => {
                // the normal end of the program
                self.phase = Phase::Recital;
                return Err(Error::EndReached);
            },
            OpKind::Sto => {
                if self.pstack.len() == 0 {
                    return Err(Error::StackUnderflow);
                }
                if var as Word >= self.mem.len() as Word {
                    return Err(Error::WriteOob);
                }
                let word = self.p_pop()?;
                self.memset(var as Word, word)?;
            },
            OpKind::Lod => {
                let word = self.memget(var as Word)?;
                self.pstack.push(word);
            },
            OpKind::Len => {
                let len = self.pstack.len() as Word;
                // a frame base above the top of the stack is an underflow
                if self.ebp > len {
                    return Err(Error::StackUnderflow);
                }
                self.pstack.push(len - self.ebp);
            },
            OpKind::LAST => {},
        }
        let ghost l = self.log@;
        trace_stack(&mut self.log, "[STACK]:     ", &self.pstack);
        proof {
            lemma_extends_append(l, self.log@.subrange(l.len() as int, self.log@.len() as int));
            assert(l + self.log@.subrange(l.len() as int, self.log@.len() as int) =~= self.log@);
            lemma_extends_trans(log0, l, self.log@);
        }
        Ok(())
    }

    /// Handles one decoded instruction in the scanning phase: records where
    /// functions start, steps over pushed literals, and at `Exe` moves to
    /// execution at the last recorded function. `ip` already points past the
    /// instruction.
    pub fn step_warmup(&mut self, instr: Op) -> (r: CResult)
        requires
            1 <= old(self).ip <= old(self).instructions@.len(),
        ensures
            settles(
                warmup_spec(old(self)@, instr, (old(self).ip - 1) as Word),
                r,
                final(self)@,
            ),
            final(self).log@ == old(self).log@,
    {
        match instr.kind {
            OpKind::Fun => {
                self.fstack.push(self.ip - 1);
            },
            OpKind::Exe => {
                self.phase = Phase::Recital;
                let n = self.fstack.len();
                if n == 0 {
                    return Err(Error::StackUnderflow);
                }
                self.ip = self.fstack[n - 1];
            },
            OpKind::Push => {
                // ip is within the program, whose length is a usize
                let _ = self.instructions.len();
                self.ip = self.ip + instr.var as Word;
            },
            _ => {},
        }
        Ok(())
    }

    /// Fetches and decodes the word at `ip`, moves `ip` past it, and handles
    /// the instruction according to the phase. A decoded instruction adds
    /// its line to the trace.
    pub fn step(&mut self) -> (r: CResult)
        ensures
            settles(step_spec(old(self)@), r, final(self)@),
            extends(old(self).log@, final(self).log@),
    {
        let ghost log0 = self.log@;
        proof {
            lemma_extends_append(log0, Seq::empty());
        }
        if self.ip >= self.instructions.len() as Word {
            return Err(Error::NoExec);
        }
        let instr = match Op::decode(&self.instructions[self.ip as usize]) {
            Ok(i) => i,
            Err(_) => return Err(Error::IllegalOp),
        };
        trace_decoded(&mut self.log, self.phase, self.ip, instr.kind, instr.var);
        let ghost l2 = self.log@;
        proof {
            lemma_extends_append(log0, l2.subrange(log0.len() as int, l2.len() as int));
            assert(log0 + l2.subrange(log0.len() as int, l2.len() as int) =~= l2);
        }
        self.ip = self.ip + 1;
        let r = match self.phase {
            Phase::Warmup => self.step_warmup(instr),
            Phase::Recital => self.step_recital(instr),
        };
        proof {
            lemma_extends_append(l2, Seq::empty());
            lemma_extends_trans(log0, l2, self.log@);
        }
        r
    }

    /// Runs up to `n` steps, stopping at the first error.
    pub fn steps(&mut self, n: usize) -> (r: CResult)
        ensures
            settles(steps_spec(old(self)@, n as nat), r, final(self)@),
            extends(old(self).log@, final(self).log@),
    {
        let ghost log0 = self.log@;
        proof {
            lemma_extends_append(log0, Seq::empty());
        }
        let mut i: usize = 0;
        while i < n
            invariant
                i <= n,
                steps_spec(old(self)@, i as nat) == done(self@),
                extends(log0, self.log@),
                log0 == old(self).log@,
            decreases n - i,
        {
            let ghost l = self.log@;
            let r = self.step();
            proof {
                lemma_extends_trans(log0, l, self.log@);
            }
            i = i + 1;
            if r.is_err() {
                proof {
                    lemma_steps_stop(old(self)@, i as nat, n as nat);
                }
                return r;
            }
        }
        Ok(())
    }

    /// Steps until the program ends or fails, and returns the trace: one
    /// line per instruction and per stack change, then the final stack or
    /// the error. Execution stops with `ExecLimit` after `u64::MAX` steps.
    pub fn run(&mut self) -> (r: String)
        ensures
            r@ == final(self).log@,
            run_ends(old(self)@, old(self).log@, final(self)@, r@),
    {
        let ghost log0 = self.log@;
        proof {
            lemma_extends_append(log0, Seq::empty());
        }
        let mut i: u64 = 0;
        while i < u64::MAX
            invariant
                steps_spec(old(self)@, i as nat) == done(self@),
                extends(log0, self.log@),
                log0 == old(self).log@,
            decreases u64::MAX - i,
        {
            let ghost l = self.log@;
            let r = self.step();
            let ghost l2 = self.log@;
            proof {
                lemma_extends_trans(log0, l, l2);
            }
            i = i + 1;
            match r {
                Ok(()) => {},
                Err(e) => {
                    trace_end(&mut self.log, e, &self.pstack);
                    assert(run_stop(old(self)@, log0, self@, self.log@, i as nat, l2, e));
                    return self.log.clone();
                },
            }
        }
        let ghost l = self.log@;
        trace_end(&mut self.log, Error::ExecLimit, &self.pstack);
        assert(run_stop(old(self)@, log0, self@, self.log@, u64::MAX as nat, l, Error::ExecLimit));
        self.log.clone()
    }
}

/// A run from `s`, whose trace began as `log0`, stops after `n` steps in
/// `after` with the trace `r`: the trace so far, `l`, then the line for the
/// stopping error `e`. It stops at the first failing step, or with
/// `ExecLimit` after `u64::MAX` steps that all succeeded.
pub open spec fn run_stop(
    s: MachineState,
    log0: Seq<char>,
    after: MachineState,
    r: Seq<char>,
    n: nat,
    l: Seq<char>,
    e: Error,
) -> bool {
    &&& extends(log0, l)
    &&& r == l + end_line(e, after.pstack)
    &&& after == steps_spec(s, n).state
    &&& n <= u64::MAX
    &&& {
        ||| 1 <= n && steps_spec(s, (n - 1) as nat).res is Ok && steps_spec(s, n).res == Err::<
            (),
            Error,
        >(e)
        ||| n == u64::MAX && steps_spec(s, n).res is Ok && e == Error::ExecLimit
    }
}

/// Some run from `s` with trace `log0` stops in `after` with trace `r`.
pub open spec fn run_ends(s: MachineState, log0: Seq<char>, after: MachineState, r: Seq<char>) -> bool {
    exists|n: nat, l: Seq<char>, e: Error| #[trigger] run_stop(s, log0, after, r, n, l, e)
}

/// Once a run of steps has failed, further steps change nothing.
proof fn lemma_steps_stop(s: MachineState, i: nat, n: nat)
    requires
        i <= n,
        steps_spec(s, i).res is Err,
    ensures
        steps_spec(s, n) == steps_spec(s, i),
    decreases n - i,
{
    if i < n {
        lemma_steps_stop(s, i + 1, n);
    }
}

/// Assembles a program, runs it on a fresh machine, and returns the trace;
/// or returns the assembler's message when the text does not assemble.
pub fn interpret(program: &str) -> (r: String)
    ensures
        match assemble_spec(ws_tokens(program@)) {
            Err((k, w)) => r@ == asm_message(k, w),
            Ok(words) => exists|after: MachineState| #[trigger]
                run_ends(
                    loaded(words),
                    Seq::empty(),
                    after,
                    r@,
                ),
        },
{
    let mut m = Machine::new();
    let words = match assemble(program) {
        Ok(p) => p,
        Err(e) => return e.message(),
    };
    m.read(words);
    let r = m.run();
    assert(run_ends(
        loaded(assemble_spec(ws_tokens(program@))->Ok_0),
        Seq::empty(),
        m@,
        r@,
    ));
    r
}

} // verus!
