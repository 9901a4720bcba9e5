use rh24::{interpret, Error, Machine, Op, OpKind, Phase};

fn op(kind: OpKind, var: u64) -> Op {
    Op { op: kind.tag(), kind, var }
}

fn recital(pstack: Vec<u128>) -> Machine {
    let mut m = Machine::new();
    m.phase = Phase::Recital;
    m.pstack = pstack;
    m
}

fn run_to_end(m: &mut Machine) -> Error {
    for _ in 0..10_000 {
        if let Err(e) = m.step() {
            return e;
        }
    }
    panic!("program did not stop");
}

fn scenario_a() -> Vec<u128> {
    vec![
        Op::new(OpKind::Fun, 0),
        Op::new(OpKind::Push, 2),
        15,
        30,
        Op::new(OpKind::Dif, 1),
        Op::new(OpKind::Ret, 0),
        Op::new(OpKind::Fun, 0),
        Op::new(OpKind::Push, 2),
        16,
        4,
        Op::new(OpKind::Dif, 1),
        Op::new(OpKind::Call, 0),
        Op::new(OpKind::Add, 1),
        Op::new(OpKind::Exe, 0),
    ]
}

#[test]
fn new_machine_is_empty() {
    let m = Machine::new();
    assert_eq!(m.ip, 0);
    assert_eq!(m.ebp, 0);
    assert_eq!(m.phase, Phase::Warmup);
    assert!(m.pstack.is_empty() && m.cstack.is_empty() && m.fstack.is_empty());
    assert!(m.instructions.is_empty());
    assert_eq!(m.mem, vec![0u128; 1024]);
}

#[test]
fn read_replaces_the_program() {
    let mut m = Machine::new();
    m.read(vec![1, 2, 3]);
    m.read(vec![4]);
    assert_eq!(m.instructions, vec![4]);
}

#[test]
fn scenario_a_ends_with_27() {
    let mut m = Machine::new();
    m.read(scenario_a());
    assert_eq!(run_to_end(&mut m), Error::EndReached);
    assert_eq!(m.pstack, vec![27]);
    assert_eq!(m.fstack, vec![0, 6]);
    assert_eq!(m.ebp, 1);
    assert!(m.cstack.is_empty());
}

#[test]
fn scenario_a_run_trace() {
    let mut m = Machine::new();
    m.read(scenario_a());
    let log = m.run();
    assert!(log.ends_with("[BRAVO] Final stack: [27]\n"));
    assert!(log.starts_with("[Warmup] 0: Fun 0\n"));
}

#[test]
fn scenario_b_push_without_exe_is_noexec() {
    let mut m = Machine::new();
    m.read(vec![Op::new(OpKind::Push, 1), 5]);
    assert_eq!(m.step(), Ok(()));
    assert_eq!(m.ip, 2);
    assert_eq!(m.step(), Err(Error::NoExec));
    assert!(m.pstack.is_empty());
    let mut m = Machine::new();
    m.read(vec![Op::new(OpKind::Push, 1), 5]);
    assert!(m.run().ends_with(
        "[CLAM] No exe instruction found. Are you trying to execute a library?\n"
    ));
}

#[test]
fn exe_without_function_is_underflow() {
    let mut m = Machine::new();
    m.read(vec![Op::new(OpKind::Exe, 0)]);
    assert_eq!(m.step(), Err(Error::StackUnderflow));
}

#[test]
fn illegal_tag_is_illegal_op() {
    let mut m = Machine::new();
    m.read(vec![30u128 << 64]);
    assert_eq!(m.step(), Err(Error::IllegalOp));
}

#[test]
fn warmup_leaves_data_alone() {
    let mut m = Machine::new();
    m.read(scenario_a());
    m.pstack = vec![9];
    m.cstack = vec![8];
    m.mem[3] = 7;
    for _ in 0..9 {
        assert_eq!(m.phase, Phase::Warmup);
        m.step().unwrap();
    }
    assert_eq!(m.pstack, vec![9]);
    assert_eq!(m.cstack, vec![8]);
    assert_eq!(m.mem[3], 7);
    assert_eq!(m.fstack, vec![0, 6]);
}

#[test]
fn recital_starts_at_last_fun() {
    let mut m = Machine::new();
    m.read(scenario_a());
    for _ in 0..9 {
        m.step().unwrap();
    }
    assert_eq!(m.phase, Phase::Warmup);
    m.step().unwrap();
    assert_eq!(m.phase, Phase::Recital);
    assert_eq!(m.ip, 6);
}

#[test]
fn warmup_skips_pushed_literals() {
    // the literal 17 << 64 decodes as Fun but is data
    let mut m = Machine::new();
    m.read(vec![
        Op::new(OpKind::Fun, 0),
        Op::new(OpKind::Push, 1),
        Op::new(OpKind::Fun, 0),
        Op::new(OpKind::Exe, 0),
    ]);
    m.steps(3).unwrap();
    assert_eq!(m.fstack, vec![0]);
    assert_eq!(m.ip, 0);
    assert_eq!(m.phase, Phase::Recital);
}

#[test]
fn steps_stops_at_first_error() {
    let mut m = Machine::new();
    m.read(scenario_a());
    assert_eq!(m.steps(100), Err(Error::EndReached));
    assert_eq!(m.pstack, vec![27]);
    let mut m = Machine::new();
    m.read(scenario_a());
    assert_eq!(m.steps(3), Ok(()));
    assert_eq!(m.ip, 5);
}

#[test]
fn div_and_rem_by_zero_give_max() {
    let mut m = recital(vec![10, 0]);
    m.step_recital(op(OpKind::Div, 0)).unwrap();
    assert_eq!(m.pstack, vec![u128::MAX]);
    let mut m = recital(vec![10, 0]);
    m.step_recital(op(OpKind::Rem, 0)).unwrap();
    assert_eq!(m.pstack, vec![u128::MAX]);
}

#[test]
fn div_and_rem_values() {
    let mut m = recital(vec![17, 5]);
    m.step_recital(op(OpKind::Div, 0)).unwrap();
    assert_eq!(m.pstack, vec![3]);
    let mut m = recital(vec![17, 5]);
    m.step_recital(op(OpKind::Rem, 0)).unwrap();
    assert_eq!(m.pstack, vec![2]);
    let mut m = recital(vec![17]);
    m.step_recital(op(OpKind::Div, 4)).unwrap();
    assert_eq!(m.pstack, vec![4]);
}

#[test]
fn add_and_mul_saturate() {
    let mut m = recital(vec![u128::MAX, 5]);
    m.step_recital(op(OpKind::Add, 1)).unwrap();
    assert_eq!(m.pstack, vec![u128::MAX]);
    let mut m = recital(vec![u128::MAX / 2, 3]);
    m.step_recital(op(OpKind::Mul, 1)).unwrap();
    assert_eq!(m.pstack, vec![u128::MAX]);
    let mut m = recital(vec![1, 2, 3]);
    m.step_recital(op(OpKind::Add, 2)).unwrap();
    assert_eq!(m.pstack, vec![6]);
    let mut m = recital(vec![6, 7]);
    m.step_recital(op(OpKind::Mul, 1)).unwrap();
    assert_eq!(m.pstack, vec![42]);
}

#[test]
fn bitwise_and_shifts() {
    let mut m = recital(vec![0b1100, 0b1010]);
    m.step_recital(op(OpKind::And, 1)).unwrap();
    assert_eq!(m.pstack, vec![0b1000]);
    let mut m = recital(vec![0b1100, 0b1010]);
    m.step_recital(op(OpKind::Or, 1)).unwrap();
    assert_eq!(m.pstack, vec![0b1110]);
    let mut m = recital(vec![0b1100, 0b1010]);
    m.step_recital(op(OpKind::Xor, 1)).unwrap();
    assert_eq!(m.pstack, vec![0b0110]);
    let mut m = recital(vec![3, 4]);
    m.step_recital(op(OpKind::Shl, 0)).unwrap();
    assert_eq!(m.pstack, vec![48]);
    let mut m = recital(vec![48]);
    m.step_recital(op(OpKind::Shr, 4)).unwrap();
    assert_eq!(m.pstack, vec![3]);
    let mut m = recital(vec![1, 200]);
    m.step_recital(op(OpKind::Shl, 0)).unwrap();
    assert_eq!(m.pstack, vec![0]);
}

#[test]
fn underflow_is_reported() {
    for kind in [OpKind::Pop, OpKind::Add, OpKind::Dif, OpKind::Mul, OpKind::Div, OpKind::Sto, OpKind::Beq] {
        let mut m = recital(vec![]);
        assert_eq!(m.step_recital(op(kind, 1)), Err(Error::StackUnderflow));
    }
    let mut m = recital(vec![1]);
    assert_eq!(m.step_recital(op(OpKind::Add, 1)), Err(Error::StackUnderflow));
    let mut m = recital(vec![]);
    assert_eq!(m.step_recital(op(OpKind::Ret, 0)), Err(Error::StackUnderflow));
    let mut m = recital(vec![]);
    m.cstack = vec![1];
    assert_eq!(m.step_recital(op(OpKind::Iter, 0)), Err(Error::StackUnderflow));
}

#[test]
fn dup_on_empty_pushes_zero() {
    let mut m = recital(vec![]);
    m.step_recital(op(OpKind::Dup, 3)).unwrap();
    assert_eq!(m.pstack, vec![0, 0, 0]);
    let mut m = recital(vec![4]);
    m.step_recital(op(OpKind::Dup, 2)).unwrap();
    assert_eq!(m.pstack, vec![4, 4, 4]);
}

#[test]
fn pop_discards() {
    let mut m = recital(vec![1, 2, 3]);
    m.step_recital(op(OpKind::Pop, 2)).unwrap();
    assert_eq!(m.pstack, vec![1]);
}

#[test]
fn memory_round_trip() {
    let mut m = recital(vec![99]);
    m.step_recital(op(OpKind::Sto, 1023)).unwrap();
    assert!(m.pstack.is_empty());
    assert_eq!(m.mem[1023], 99);
    m.step_recital(op(OpKind::Lod, 1023)).unwrap();
    assert_eq!(m.pstack, vec![99]);
}

#[test]
fn memory_out_of_bounds() {
    let mut m = recital(vec![99]);
    assert_eq!(m.step_recital(op(OpKind::Sto, 1024)), Err(Error::WriteOob));
    let mut m = recital(vec![]);
    assert_eq!(m.step_recital(op(OpKind::Lod, 1024)), Err(Error::WriteOob));
}

#[test]
fn call_and_return_link_through_call_stack() {
    let mut m = recital(vec![]);
    m.instructions = vec![0; 10];
    m.fstack = vec![3];
    m.ip = 7;
    m.step_recital(op(OpKind::Call, 0)).unwrap();
    assert_eq!(m.ip, 3);
    assert_eq!(m.cstack, vec![7, 1]);
    m.step_recital(op(OpKind::Ret, 0)).unwrap();
    assert_eq!(m.ip, 7);
    assert_eq!(m.ebp, 1);
    assert!(m.cstack.is_empty());
    assert_eq!(m.step_recital(op(OpKind::Call, 1)), Err(Error::BadCall));
    m.fstack = vec![10];
    assert_eq!(m.step_recital(op(OpKind::Call, 0)), Err(Error::BadCall));
}

#[test]
fn compare_branches_call_function() {
    let mut m = recital(vec![5, 6]);
    m.instructions = vec![0; 10];
    m.fstack = vec![2, 4];
    m.ip = 5;
    m.step_recital(op(OpKind::Beq, 1)).unwrap();
    assert!(m.pstack.is_empty());
    assert_eq!(m.ip, 4);
    assert_eq!(m.cstack, vec![6, 1]);
    let mut m = recital(vec![5, 5]);
    m.instructions = vec![0; 10];
    m.fstack = vec![2, 4];
    m.ip = 5;
    m.step_recital(op(OpKind::Beq, 1)).unwrap();
    assert_eq!(m.ip, 5);
    assert!(m.cstack.is_empty());
}

#[test]
fn loop_and_iter_count_down() {
    let mut m = recital(vec![]);
    m.ip = 4;
    m.step_recital(op(OpKind::Loop, 2)).unwrap();
    assert_eq!(m.cstack, vec![4, 2]);
    m.step_recital(op(OpKind::Iter, 0)).unwrap();
    assert_eq!(m.cstack, vec![4, 1]);
    m.step_recital(op(OpKind::Iter, 0)).unwrap();
    assert!(m.cstack.is_empty());
    assert_eq!(m.ip, 4);
}

#[test]
fn len_is_frame_relative() {
    let mut m = recital(vec![1, 2, 3]);
    m.ebp = 1;
    m.step_recital(op(OpKind::Len, 0)).unwrap();
    assert_eq!(m.pstack, vec![1, 2, 3, 2]);
    let mut m = recital(vec![]);
    m.ebp = 1;
    assert_eq!(m.step_recital(op(OpKind::Len, 0)), Err(Error::StackUnderflow));
}

#[test]
fn push_reads_literals() {
    let mut m = recital(vec![]);
    m.instructions = vec![0, 11, 12];
    m.ip = 1;
    m.step_recital(op(OpKind::Push, 2)).unwrap();
    assert_eq!(m.pstack, vec![11, 12]);
    assert_eq!(m.ip, 3);
    assert_eq!(m.step_recital(op(OpKind::Push, 1)), Err(Error::StackUnderflow));
}

#[test]
fn exe_in_recital_ends_program() {
    let mut m = recital(vec![1]);
    assert_eq!(m.step_recital(op(OpKind::Exe, 0)), Err(Error::EndReached));
    assert_eq!(m.pstack, vec![1]);
}

#[test]
fn interpret_text_program() {
    let out = interpret("fun 0 push 2 16 4 dif 1 exe 0");
    assert!(out.ends_with("[BRAVO] Final stack: [12]\n"));
    assert_eq!(
        interpret("push 3 add"),
        "[Assembler] Error parsing token: Expected number, found add"
    );
}

#[test]
fn error_messages() {
    assert_eq!(Error::EndReached.message(), "Successfully terminated");
    assert_eq!(Error::WriteOob.to_string(), "Memory write out of bounds");
}

#[test]
fn failing_steps_leave_state() {
    let mut m = Machine::new();
    m.read(vec![Op::new(OpKind::Push, 1), 5]);
    assert_eq!(m.steps(2), Err(Error::NoExec));
    assert!(m.pstack.is_empty() && m.cstack.is_empty() && m.fstack.is_empty());
    assert_eq!(m.ip, 2);
    let mut m = Machine::new();
    m.read(vec![Op::new(OpKind::Exe, 0)]);
    m.pstack = vec![3];
    assert_eq!(m.step(), Err(Error::StackUnderflow));
    assert_eq!(m.pstack, vec![3]);
    assert!(m.cstack.is_empty());
    let mut m = Machine::new();
    m.read(vec![30u128 << 64]);
    assert_eq!(m.step(), Err(Error::IllegalOp));
    assert_eq!(m.ip, 0);
    assert_eq!(m.log, "");
}

#[test]
fn failing_instructions_change_nothing() {
    let mut m = recital(vec![5]);
    m.instructions = vec![0; 4];
    m.fstack = vec![9];
    m.cstack = vec![1];
    m.ip = 2;
    assert_eq!(m.step_recital(op(OpKind::Call, 0)), Err(Error::BadCall));
    assert_eq!(m.ip, 2);
    assert_eq!(m.cstack, vec![1]);
    assert_eq!(m.step_recital(op(OpKind::Ret, 0)), Err(Error::StackUnderflow));
    assert_eq!(m.ip, 2);
    assert_eq!(m.ebp, 0);
    assert_eq!(m.cstack, vec![1]);
    assert_eq!(m.step_recital(op(OpKind::Add, 1)), Err(Error::StackUnderflow));
    assert_eq!(m.pstack, vec![5]);
    assert_eq!(m.step_recital(op(OpKind::Sto, 2000)), Err(Error::WriteOob));
    assert_eq!(m.pstack, vec![5]);
    assert_eq!(m.mem, vec![0u128; 1024]);
    let mut m = recital(vec![1, 2]);
    assert_eq!(m.step_recital(op(OpKind::Pop, 3)), Err(Error::StackUnderflow));
    assert_eq!(m.pstack, vec![1, 2]);
}

#[test]
fn trace_lines() {
    let mut m = Machine::new();
    m.read(vec![Op::new(OpKind::Fun, 0), Op::new(OpKind::Push, 2), 16, 4, Op::new(OpKind::Exe, 0)]);
    let log = m.run();
    assert_eq!(
        log,
        "[Warmup] 0: Fun 0\n[Warmup] 1: Push 2\n[Warmup] 4: Exe 0\n\
         [Recital] 0: Fun 0\n[STACK]:     []\n\
         [Recital] 1: Push 2\n[Recital] 2: 16 added to stack\n[Recital] 3: 4 added to stack\n\
         [STACK]:     [16, 4]\n\
         [Recital] 4: Exe 0\n[BRAVO] Final stack: [16, 4]\n"
    );
}

#[test]
fn interpret_scenario_a_text() {
    let out = interpret("fun 0 push 2 15 30 dif 1 ret 0 fun 0 push 2 16 4 dif 1 call 0 add 1 exe 0");
    assert!(out.ends_with("[BRAVO] Final stack: [27]\n"));
    let out = interpret("push 1 5");
    assert!(out.ends_with("[CLAM] No exe instruction found. Are you trying to execute a library?\n"));
}
