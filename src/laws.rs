use crate::machine::{
    arith, bin_apply, lemma_bin_rounds_shape, lemma_cmp_rounds_shape, recital_spec, step_spec, steps_spec, MachineState, Phase,
};
use crate::op::{decode_spec, Op, OpKind};
use crate::util::Error;
use crate::Word;
use vstd::prelude::*;

verus! {

/// A step of the scanning phase, whether it succeeds or fails, leaves the
/// program stack, the call stack, the base pointer, the memory and the
/// program as they were, and at most records the current address in the
/// function table. While it stays in the scanning phase it moves `ip`
/// forward.
pub proof fn lemma_warmup_preserves_data(s: MachineState)
    requires
        s.phase == Phase::Warmup,
        s.instructions.len() <= usize::MAX,
    ensures
        ({
            let o = step_spec(s);
            &&& o.state.pstack == s.pstack
            &&& o.state.cstack == s.cstack
            &&& o.state.mem == s.mem
            &&& o.state.instructions == s.instructions
            &&& o.state.ebp == s.ebp
            &&& o.state.fstack == s.fstack || o.state.fstack == s.fstack.push(s.ip)
            &&& o.res is Ok && o.state.phase == Phase::Warmup ==> o.state.ip > s.ip
        }),
{
    if s.ip < s.instructions.len() {
        if let Some(op) = decode_spec(s.instructions[s.ip as int]) {
            assert(s.ip + 1 + op.var <= Word::MAX);
        }
    }
}

/// The word at address `a` is an instruction of kind `k`.
pub open spec fn kind_at(s: MachineState, a: Word, k: OpKind) -> bool {
    a < s.instructions.len() && (decode_spec(s.instructions[a as int]) matches Some(op) && op.kind == k)
}

/// The function table of the scanning phase: each entry is the address of a
/// `Fun` instruction that lies before `ip`, in increasing order.
pub open spec fn funs_recorded(s: MachineState) -> bool {
    &&& forall|j: int| 0 <= j < s.fstack.len() ==> {
        &&& #[trigger] s.fstack[j] < s.ip
        &&& kind_at(s, s.fstack[j], OpKind::Fun)
    }
    &&& forall|j: int, k: int| 0 <= j < k < s.fstack.len() ==> s.fstack[j] < s.fstack[k]
}

/// Scanning keeps the function table as `funs_recorded` describes it, and a
/// `Fun` that the scan passes becomes the table's last entry.
pub proof fn lemma_warmup_records_funs(s: MachineState)
    requires
        s.phase == Phase::Warmup,
        s.instructions.len() <= usize::MAX,
        funs_recorded(s),
    ensures
        ({
            let o = step_spec(s);
            o.res is Ok && o.state.phase == Phase::Warmup ==> funs_recorded(o.state)
        }),
        ({
            let o = step_spec(s);
            kind_at(s, s.ip, OpKind::Fun) ==> o.res is Ok && o.state.fstack.last() == s.ip
                && o.state.fstack == s.fstack.push(s.ip)
        }),
{
    let o = step_spec(s);
    if o.res is Ok && o.state.phase == Phase::Warmup {
        let t = o.state;
        lemma_warmup_preserves_data(s);
        assert(t.ip > s.ip);
        assert forall|j: int| 0 <= j < t.fstack.len() implies {
            &&& #[trigger] t.fstack[j] < t.ip
            &&& kind_at(t, t.fstack[j], OpKind::Fun)
        } by {
            if j < s.fstack.len() {
                assert(t.fstack[j] == s.fstack[j]);
            }
        }
        assert forall|j: int, k: int| 0 <= j < k < t.fstack.len() implies t.fstack[j]
            < t.fstack[k] by {
            if k < s.fstack.len() {
                assert(t.fstack[k] == s.fstack[k]);
            }
            assert(t.fstack[j] == s.fstack[j]);
        }
    }
}

/// The step that leaves the scanning phase (an `Exe` met while scanning)
/// starts execution at the last `Fun` recorded, which is the latest of the
/// recorded functions and lies before the `Exe`; without any recorded
/// function it fails with `StackUnderflow`.
pub proof fn lemma_recital_starts_at_last_fun(s: MachineState)
    requires
        s.phase == Phase::Warmup,
        funs_recorded(s),
        kind_at(s, s.ip, OpKind::Exe),
    ensures
        ({
            let o = step_spec(s);
            &&& s.fstack.len() == 0 ==> o.res == Err::<(), Error>(Error::StackUnderflow)
            &&& s.fstack.len() > 0 ==> {
                &&& o.res is Ok
                &&& o.state.phase == Phase::Recital
                &&& o.state.ip == s.fstack.last()
                &&& o.state.ip < s.ip
                &&& kind_at(s, o.state.ip, OpKind::Fun)
                &&& forall|j: int| 0 <= j < s.fstack.len() ==> s.fstack[j] <= o.state.ip
            }
        }),
{
    if s.fstack.len() > 0 {
        let n = s.fstack.len() - 1;
        assert(s.fstack[n] < s.ip);
        assert forall|j: int| 0 <= j < s.fstack.len() implies s.fstack[j] <= s.fstack.last() by {
            if j < n {
                assert(s.fstack[j] < s.fstack[n]);
            }
        }
    }
}

/// Division and remainder never fault on a zero divisor: they push the
/// largest word. They fail only when the stack holds too few operands.
pub proof fn lemma_div_rem_total(s: MachineState, op: Op)
    requires
        op.kind == OpKind::Div || op.kind == OpKind::Rem,
    ensures
        ({
            let o = recital_spec(s, op);
            let need: int = if op.var == 0 { 2 } else { 1 };
            &&& o.res is Ok <==> s.pstack.len() >= need
            &&& o.res is Err ==> o.res == Err::<(), Error>(Error::StackUnderflow)
            &&& op.var == 0 && s.pstack.len() >= 2 && s.pstack.last() == 0
                ==> o.state.pstack.last() == Word::MAX
        }),
        forall|x: Word| #[trigger] arith(op.kind, x, 0) == Word::MAX,
{
}

/// Addition and multiplication saturate at the largest word instead of
/// overflowing, and their rounds fail only for want of operands.
pub proof fn lemma_add_mul_saturate(s: MachineState, op: Op, a: Word, b: Word)
    requires
        op.kind == OpKind::Add || op.kind == OpKind::Mul,
    ensures
        op.kind == OpKind::Add ==> bin_apply(op.kind, a, b) as int == if a + b > Word::MAX {
            Word::MAX as int
        } else {
            a + b
        },
        op.kind == OpKind::Mul ==> bin_apply(op.kind, a, b) as int == if a * b > Word::MAX {
            Word::MAX as int
        } else {
            a * b
        },
        recital_spec(s, op).res is Ok <==> (op.var == 0 || s.pstack.len() >= op.var + 1),
        recital_spec(s, op).res is Err ==> recital_spec(s, op).res == Err::<(), Error>(
            Error::StackUnderflow,
        ),
{
    lemma_bin_rounds_shape(s.pstack, op.kind, op.var as nat);
}

/// Popping an empty program stack, or taking a frame or loop entry from a
/// call stack with fewer than two words, is `StackUnderflow`, and leaves the
/// machine as it was; `Dup` on an empty stack instead pushes zeros.
pub proof fn lemma_underflow_reported(s: MachineState, op: Op)
    requires
        op.var >= 1,
    ensures
        s.pstack.len() == 0 && (op.kind == OpKind::Pop || op.kind == OpKind::Add || op.kind
            == OpKind::Dif || op.kind == OpKind::Mul || op.kind == OpKind::And || op.kind
            == OpKind::Or || op.kind == OpKind::Xor || op.kind == OpKind::Div || op.kind
            == OpKind::Rem || op.kind == OpKind::Shl || op.kind == OpKind::Shr || op.kind
            == OpKind::Beq || op.kind == OpKind::Bne || op.kind == OpKind::Bgt || op.kind
            == OpKind::Blt || op.kind == OpKind::Sto) ==> recital_spec(s, op).res == Err::<
            (),
            Error,
        >(Error::StackUnderflow) && recital_spec(s, op).state == s,
        s.cstack.len() < 2 && (op.kind == OpKind::Ret || op.kind == OpKind::Iter)
            ==> recital_spec(s, op).res == Err::<(), Error>(Error::StackUnderflow)
            && recital_spec(s, op).state == s,
        s.pstack.len() == 0 && op.kind == OpKind::Dup ==> recital_spec(s, op).res is Ok
            && recital_spec(s, op).state.pstack == Seq::new(op.var as nat, |i: int| 0 as Word),
{
    if s.pstack.len() == 0 {
        lemma_bin_rounds_shape(s.pstack, op.kind, op.var as nat);
        lemma_cmp_rounds_shape(s.pstack, op.kind, op.var as nat);
        if op.kind == OpKind::Dup {
            assert(recital_spec(s, op).state.pstack =~= Seq::new(op.var as nat, |i: int| 0 as Word));
        }
    }
}

/// A word stored at an address comes back from a load at the same address;
/// an address past the memory fails with `WriteOob` for both, leaving the
/// machine as it was.
pub proof fn lemma_memory_round_trip(s: MachineState, addr: u64, v: Word)
    requires
        s.pstack.len() > 0,
        s.pstack.last() == v,
    ensures
        ({
            let sto = Op { op: 23, kind: OpKind::Sto, var: addr };
            let lod = Op { op: 24, kind: OpKind::Lod, var: addr };
            let o1 = recital_spec(s, sto);
            let o2 = recital_spec(o1.state, lod);
            &&& addr < s.mem.len() ==> o1.res is Ok && o2.res is Ok && o2.state.pstack.last() == v
                && o2.state.pstack == s.pstack
            &&& addr >= s.mem.len() ==> o1.res == Err::<(), Error>(Error::WriteOob) && o1.state == s
                && recital_spec(s, lod).res == Err::<(), Error>(Error::WriteOob)
                && recital_spec(s, lod).state == s
        }),
{
    let sto = Op { op: 23, kind: OpKind::Sto, var: addr };
    let o1 = recital_spec(s, sto);
    if addr < s.mem.len() {
        assert(o1.state.pstack.push(v) =~= s.pstack);
    }
}

/// The address that the scan is at after `k` steps from `s0`.
pub open spec fn scan_ip(s0: MachineState, k: nat) -> Word {
    steps_spec(s0, k).state.ip
}

/// The first `n` steps from `s0` all succeed and stay in the scanning phase.
pub open spec fn scanning_for(s0: MachineState, n: nat) -> bool {
    forall|k: nat| k <= n ==> (#[trigger] steps_spec(s0, k)).res is Ok && steps_spec(s0, k).state.phase
        == Phase::Warmup
}

/// Scanning from an empty function table: after `n` steps the table holds
/// the `Fun` addresses passed, the last one being the latest of them.
proof fn lemma_scan_table(s0: MachineState, n: nat)
    requires
        s0.fstack.len() == 0,
        s0.instructions.len() <= usize::MAX,
        scanning_for(s0, n),
    ensures
        ({
            let t = steps_spec(s0, n).state;
            &&& t.instructions == s0.instructions
            &&& funs_recorded(t)
            &&& forall|k: nat| k < n ==> scan_ip(s0, k) < t.ip
            &&& forall|k: nat| k < n && #[trigger] kind_at(s0, scan_ip(s0, k), OpKind::Fun) ==> t.fstack.len() > 0
                && scan_ip(s0, k) <= t.fstack.last()
            &&& t.fstack.len() > 0 ==> exists|k: nat| k < n && #[trigger] kind_at(s0, scan_ip(s0, k), OpKind::Fun)
                && scan_ip(s0, k) == t.fstack.last()
        }),
    decreases n,
{
    if n > 0 {
        let m = (n - 1) as nat;
        assert(scanning_for(s0, m));
        lemma_scan_table(s0, m);
        let t0 = steps_spec(s0, m).state;
        assert(steps_spec(s0, m).res is Ok && t0.phase == Phase::Warmup);
        assert(steps_spec(s0, n) == step_spec(t0));
        lemma_warmup_preserves_data(t0);
        lemma_warmup_records_funs(t0);
        let t = steps_spec(s0, n).state;
        assert(steps_spec(s0, n).res is Ok && t.phase == Phase::Warmup);
        assert forall|k: nat| k < n implies scan_ip(s0, k) < t.ip by {
            if k < m {
                assert(scan_ip(s0, k) < t0.ip);
            }
        }
        if kind_at(s0, t0.ip, OpKind::Fun) {
            assert(kind_at(t0, t0.ip, OpKind::Fun));
            assert(t.fstack.last() == t0.ip);
            assert(kind_at(s0, scan_ip(s0, m), OpKind::Fun) && scan_ip(s0, m) == t.fstack.last());
            assert forall|k: nat| k < n && #[trigger] kind_at(s0, scan_ip(s0, k), OpKind::Fun)
                implies t.fstack.len() > 0 && scan_ip(s0, k) <= t.fstack.last() by {
                if k < m {
                    assert(scan_ip(s0, k) < t0.ip);
                }
            }
        } else {
            if t.fstack != t0.fstack {
                assert(t.fstack == t0.fstack.push(t0.ip));
                assert(kind_at(t0, t0.ip, OpKind::Fun)) by {
                    if t0.ip < t0.instructions.len() {
                        if let Some(op) = decode_spec(t0.instructions[t0.ip as int]) {
                            assert(op.kind == OpKind::Fun);
                        }
                    }
                }
            }
            assert(t.fstack == t0.fstack);
            assert forall|k: nat| k < n && #[trigger] kind_at(s0, scan_ip(s0, k), OpKind::Fun)
                implies t.fstack.len() > 0 && scan_ip(s0, k) <= t.fstack.last() by {
                if k == m {
                    assert(kind_at(s0, t0.ip, OpKind::Fun));
                }
            }
        }
    }
}

/// Scanning a program from an empty function table, the `Exe` that ends the
/// scan starts execution at the address of the last `Fun` that the scan
/// passed before it; with no such `Fun` it fails with `StackUnderflow`.
pub proof fn lemma_recital_entry_from_scan(s0: MachineState, n: nat)
    requires
        s0.fstack.len() == 0,
        s0.instructions.len() <= usize::MAX,
        scanning_for(s0, n),
        kind_at(s0, scan_ip(s0, n), OpKind::Exe),
    ensures
        ({
            let o = step_spec(steps_spec(s0, n).state);
            &&& (forall|k: nat| k < n ==> !#[trigger] kind_at(s0, scan_ip(s0, k), OpKind::Fun))
                ==> o.res == Err::<(), Error>(Error::StackUnderflow)
            &&& (exists|k: nat| k < n && #[trigger] kind_at(s0, scan_ip(s0, k), OpKind::Fun)) ==> {
                &&& o.res is Ok
                &&& o.state.phase == Phase::Recital
                &&& o.state.ip < scan_ip(s0, n)
                &&& exists|k: nat| k < n && #[trigger] kind_at(s0, scan_ip(s0, k), OpKind::Fun)
                    && o.state.ip == scan_ip(s0, k)
                &&& forall|k: nat| k < n && #[trigger] kind_at(s0, scan_ip(s0, k), OpKind::Fun)
                    ==> scan_ip(s0, k) <= o.state.ip
            }
        }),
{
    lemma_scan_table(s0, n);
    let t = steps_spec(s0, n).state;
    assert(kind_at(t, t.ip, OpKind::Exe));
    lemma_recital_starts_at_last_fun(t);
}

} // verus!
