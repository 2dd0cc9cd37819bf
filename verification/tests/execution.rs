use miden_vm::advice::AdviceSet;
use miden_vm::advice::ProgramInputs;
use miden_vm::errors::ExecutionError;
use miden_vm::field::Felt;
use miden_vm::process::execute;
use miden_vm::process::execute_iter;
use miden_vm::process::Process;
use miden_vm::program::CodeBlock;
use miden_vm::program::OpBatch;
use miden_vm::program::Operation;
use miden_vm::program::Script;
use miden_vm::memory::Memory;
use miden_vm::trace::ExecutionTrace;

fn felts(values: &[u64]) -> Vec<Felt> {
    values.iter().map(|&v| Felt::new(v)).collect()
}

fn span(ops: Vec<Operation>) -> CodeBlock {
    CodeBlock::Span { op_batches: vec![OpBatch::new(ops)] }
}

fn join(first: CodeBlock, second: CodeBlock) -> CodeBlock {
    CodeBlock::Join { first: Box::new(first), second: Box::new(second) }
}

fn split(on_true: CodeBlock, on_false: CodeBlock) -> CodeBlock {
    CodeBlock::Split { on_true: Box::new(on_true), on_false: Box::new(on_false) }
}

fn loop_block(body: CodeBlock) -> CodeBlock {
    CodeBlock::Loop { body: Box::new(body) }
}

fn run(block: CodeBlock, stack: &[u64], tape: &[u64]) -> ExecutionTrace {
    let script = Script::new(block);
    let inputs = ProgramInputs::new(felts(stack), felts(tape), Vec::new());
    execute(&script, inputs).expect("execution failed")
}

fn run_err(block: CodeBlock, stack: &[u64], tape: &[u64]) -> ExecutionError {
    let script = Script::new(block);
    let inputs = ProgramInputs::new(felts(stack), felts(tape), Vec::new());
    match execute(&script, inputs) {
        Ok(_) => panic!("execution unexpectedly succeeded"),
        Err(e) => e,
    }
}

/// The sixteen top-segment stack values of row `step`, as machine words.
fn stack_row(trace: &ExecutionTrace, step: usize) -> Vec<u64> {
    let mut row = Vec::new();
    trace.read_row_into(step, &mut row);
    row[1..17].iter().map(|f| f.as_u64()).collect()
}

fn top(trace: &ExecutionTrace, count: usize) -> Vec<u64> {
    let step = trace.clk_final();
    stack_row(trace, step)[..count].to_vec()
}

#[test]
fn span_arithmetic() {
    let program = span(vec![
        Operation::Add,
        Operation::Push(Felt::new(5)),
        Operation::Mul,
        Operation::Push(Felt::new(7)),
    ]);
    let trace = run(program, &[1, 2], &[]);
    assert_eq!(trace.clk_final(), 6);
    assert_eq!(trace.length(), 64);
    assert_eq!(trace.width(), 17);
    let row = stack_row(&trace, 6);
    assert_eq!(row[0], 7);
    assert_eq!(row[1], 15);
    assert!(row[2..].iter().all(|&v| v == 0));
}

#[test]
fn nested_join() {
    let program = join(
        span(vec![Operation::Add]),
        join(
            span(vec![]),
            span(vec![
                Operation::Push(Felt::new(5)),
                Operation::Mul,
                Operation::Push(Felt::new(7)),
            ]),
        ),
    );
    let trace = run(program, &[1, 2], &[]);
    assert_eq!(trace.clk_final(), 14);
    assert_eq!(trace.length(), 64);
    assert_eq!(trace.width(), 17);
    assert_eq!(top(&trace, 3), vec![7, 15, 0]);
}

fn conditional_program() -> CodeBlock {
    join(
        span(vec![Operation::Read]),
        join(
            split(
                span(vec![Operation::Add, Operation::Push(Felt::new(3))]),
                span(vec![
                    Operation::Push(Felt::new(7)),
                    Operation::Add,
                    Operation::Push(Felt::new(8)),
                ]),
            ),
            span(vec![Operation::Mul]),
        ),
    )
}

#[test]
fn split_true_branch() {
    let trace = run(conditional_program(), &[5, 3], &[1]);
    assert_eq!(trace.clk_final(), 16);
    assert_eq!(top(&trace, 2), vec![24, 0]);
}

#[test]
fn split_false_branch() {
    let trace = run(conditional_program(), &[5, 3], &[0]);
    assert_eq!(trace.clk_final(), 17);
    assert_eq!(top(&trace, 3), vec![80, 5, 0]);
}

#[test]
fn split_false_branch_first_input_on_top() {
    let trace = run(conditional_program(), &[3, 5], &[0]);
    assert_eq!(top(&trace, 3), vec![96, 3, 0]);
}

fn loop_program() -> CodeBlock {
    join(
        span(vec![Operation::Mul, Operation::Read]),
        loop_block(span(vec![Operation::Dup, Operation::Mul, Operation::Read])),
    )
}

#[test]
fn loop_zero_iterations() {
    let trace = run(loop_program(), &[5, 3], &[0]);
    assert_eq!(trace.clk_final(), 8);
    assert_eq!(trace.length(), 64);
    assert_eq!(trace.width(), 17);
    assert_eq!(top(&trace, 2), vec![15, 0]);
}

#[test]
fn loop_one_iteration() {
    let trace = run(loop_program(), &[5, 3], &[1, 0]);
    assert_eq!(trace.clk_final(), 13);
    assert_eq!(trace.width(), 18);
    assert_eq!(top(&trace, 2), vec![225, 0]);
}

#[test]
fn loop_five_iterations() {
    let trace = run(loop_program(), &[5, 3], &[1, 1, 1, 1, 1, 0]);
    assert_eq!(trace.clk_final(), 37);
    assert_eq!(trace.width(), 18);
    // 15^32 reduced modulo the field prime.
    assert_eq!(top(&trace, 2), vec![5802589740229209991, 0]);
}

#[test]
fn execute_is_deterministic() {
    let a = run(conditional_program(), &[5, 3], &[1]);
    let b = run(conditional_program(), &[5, 3], &[1]);
    assert_eq!(a.length(), b.length());
    assert_eq!(a.width(), b.width());
    assert_eq!(a.clk_final(), b.clk_final());
    let mut ra = Vec::new();
    let mut rb = Vec::new();
    for step in 0..a.length() {
        a.read_row_into(step, &mut ra);
        b.read_row_into(step, &mut rb);
        assert_eq!(ra, rb, "rows differ at step {step}");
    }
}

#[test]
fn iterator_steps_one_cycle_at_a_time() {
    let script = Script::new(span(vec![Operation::Push(Felt::new(4)), Operation::Add]));
    let inputs = ProgramInputs::new(felts(&[1]), Vec::new(), Vec::new());
    let mut it = execute_iter(&script, inputs);
    let mut expected_clk: usize = 0;
    while let Some(item) = it.next() {
        let state = item.expect("unexpected error state");
        assert_eq!(state.clk, expected_clk);
        expected_clk += 1;
    }
    // start, push, add, end: four cycles, so states for cycles 0 through 4.
    assert_eq!(expected_clk, 5);
}

#[test]
fn iterator_agrees_with_trace_on_the_stack() {
    let script = Script::new(conditional_program());
    let inputs = ProgramInputs::new(felts(&[5, 3]), felts(&[1]), Vec::new());
    let mut it = execute_iter(&script, inputs);
    let trace = run(conditional_program(), &[5, 3], &[1]);
    let mut clk = 0usize;
    while let Some(item) = it.next() {
        let state = item.expect("unexpected error state");
        let row = stack_row(&trace, clk);
        for (i, v) in state.stack.iter().take(16).enumerate() {
            assert_eq!(v.as_u64(), row[i], "mismatch at cycle {clk} slot {i}");
        }
        clk += 1;
    }
}

#[test]
fn overflow_spills_show_in_reconstructed_states() {
    let init: Vec<u64> = (1..=16).collect();
    let script = Script::new(span(vec![Operation::Push(Felt::new(17))]));
    let inputs = ProgramInputs::new(felts(&init), Vec::new(), Vec::new());
    let mut it = execute_iter(&script, inputs);

    let state0 = it.next().unwrap().unwrap();
    let expected0: Vec<u64> = (1..=16).rev().collect();
    assert_eq!(state0.stack.iter().map(|f| f.as_u64()).collect::<Vec<_>>(), expected0);

    let state1 = it.next().unwrap().unwrap();
    assert_eq!(state1.stack.len(), 16);

    let state2 = it.next().unwrap().unwrap();
    let mut expected2: Vec<u64> = vec![17];
    expected2.extend((2..=16).rev());
    expected2.push(1);
    assert_eq!(state2.stack.iter().map(|f| f.as_u64()).collect::<Vec<_>>(), expected2);
}

#[test]
fn memory_store_and_load() {
    let program = span(vec![
        Operation::StoreW(7),
        Operation::Push(Felt::new(9)),
        Operation::LoadW(7),
    ]);
    let script = Script::new(program);
    let inputs = ProgramInputs::new(felts(&[1, 2, 3, 4]), Vec::new(), Vec::new());
    let mut it = execute_iter(&script, inputs);
    let mut last = None;
    while let Some(item) = it.next() {
        last = Some(item.expect("unexpected error state"));
    }
    let state = last.unwrap();
    // The load overwrites the top four slots, the pushed 9 among them; the
    // deepest initial value sits below them.
    let stack: Vec<u64> = state.stack.iter().map(|f| f.as_u64()).collect();
    assert_eq!(&stack[..5], &[4, 3, 2, 1, 1]);
    assert_eq!(state.memory.len(), 1);
    assert_eq!(state.memory[0].0, 7);
    let word: Vec<u64> = state.memory[0].1.iter().map(|f| f.as_u64()).collect();
    assert_eq!(word, vec![4, 3, 2, 1]);
}

#[test]
fn memory_is_invisible_before_its_write() {
    let program = span(vec![Operation::StoreW(3)]);
    let script = Script::new(program);
    let inputs = ProgramInputs::new(felts(&[1, 2, 3, 4]), Vec::new(), Vec::new());
    let mut it = execute_iter(&script, inputs);
    let state0 = it.next().unwrap().unwrap();
    assert!(state0.memory.is_empty());
    let state1 = it.next().unwrap().unwrap();
    assert!(state1.memory.is_empty());
    let state2 = it.next().unwrap().unwrap();
    assert_eq!(state2.memory.len(), 1);
}

#[test]
fn fmp_update_and_add() {
    let program = span(vec![
        Operation::Push(Felt::new(5)),
        Operation::FmpUpdate,
        Operation::Push(Felt::new(0)),
        Operation::FmpAdd,
    ]);
    let script = Script::new(program);
    let inputs = ProgramInputs::new(Vec::new(), Vec::new(), Vec::new());
    let mut it = execute_iter(&script, inputs);
    let mut states = Vec::new();
    while let Some(item) = it.next() {
        states.push(item.expect("unexpected error state"));
    }
    assert_eq!(states[2].fmp.as_u64(), 1073741824);
    assert_eq!(states[3].fmp.as_u64(), 1073741829);
    let last = states.last().unwrap();
    assert_eq!(last.stack[0].as_u64(), 1073741829);
}

#[test]
fn advice_set_lookup() {
    let mut root = [0u8; 32];
    root[0] = 7;
    let leaf = [Felt::new(10), Felt::new(11), Felt::new(12), Felt::new(13)];
    let set = AdviceSet::new(root, vec![leaf]);
    let program = span(vec![Operation::MTreeGet(root, 0)]);
    let script = Script::new(program);
    let inputs = ProgramInputs::new(felts(&[1, 2, 3, 4]), Vec::new(), vec![set]);
    let trace = execute(&script, inputs).expect("execution failed");
    assert_eq!(top(&trace, 4), vec![10, 11, 12, 13]);
}

#[test]
fn proxy_blocks_cannot_be_executed() {
    let mut hash = [0u8; 32];
    hash[0] = 3;
    let e = run_err(CodeBlock::Proxy { hash }, &[], &[]);
    match e {
        ExecutionError::UnexecutableCodeBlock(h) => assert_eq!(h, hash),
        other => panic!("wrong error: {other:?}"),
    }
}

#[test]
fn non_binary_split_predicate_fails() {
    let program = split(span(vec![Operation::Noop]), span(vec![Operation::Noop]));
    let e = run_err(program, &[5], &[]);
    match e {
        ExecutionError::NotBinaryValue(v) => assert_eq!(v.as_u64(), 5),
        other => panic!("wrong error: {other:?}"),
    }
}

#[test]
fn non_binary_loop_predicate_fails() {
    let program = loop_block(span(vec![Operation::Noop]));
    let e = run_err(program, &[3], &[]);
    match e {
        ExecutionError::NotBinaryValue(v) => assert_eq!(v.as_u64(), 3),
        other => panic!("wrong error: {other:?}"),
    }
}

#[test]
fn stack_underflow_fails() {
    let e = run_err(span(vec![Operation::Add]), &[1], &[]);
    assert!(matches!(e, ExecutionError::StackUnderflow(_, _)));
}

#[test]
fn division_by_zero_fails() {
    let e = run_err(span(vec![Operation::Inv]), &[0], &[]);
    match e {
        ExecutionError::DivideByZero(clk) => assert_eq!(clk, 1),
        other => panic!("wrong error: {other:?}"),
    }
}

#[test]
fn failed_assertion_reports_its_cycle() {
    let e = run_err(span(vec![Operation::Assert]), &[2], &[]);
    assert!(matches!(e, ExecutionError::FailedAssertion(1)));
    let trace = run(span(vec![Operation::Assert]), &[1], &[]);
    assert_eq!(top(&trace, 1), vec![0]);
}

#[test]
fn reading_past_the_tape_fails() {
    let e = run_err(span(vec![Operation::Read, Operation::Read]), &[], &[9]);
    assert!(matches!(e, ExecutionError::EmptyAdviceTape(2)));
}

#[test]
fn missing_advice_set_fails() {
    let mut root = [0u8; 32];
    root[0] = 9;
    let e = run_err(span(vec![Operation::MTreeGet(root, 0)]), &[1, 2, 3, 4], &[]);
    match e {
        ExecutionError::AdviceSetNotFound(r) => assert_eq!(r, root),
        other => panic!("wrong error: {other:?}"),
    }
}

#[test]
fn advice_set_lookup_out_of_bounds_fails() {
    let mut root = [0u8; 32];
    root[0] = 7;
    let leaf = [Felt::new(1), Felt::new(2), Felt::new(3), Felt::new(4)];
    let set = AdviceSet::new(root, vec![leaf]);
    let script = Script::new(span(vec![Operation::MTreeGet(root, 5)]));
    let inputs = ProgramInputs::new(felts(&[1, 2, 3, 4]), Vec::new(), vec![set]);
    match execute(&script, inputs) {
        Err(ExecutionError::AdviceSetLookupFailed(_)) => {},
        Err(other) => panic!("wrong error: {other:?}"),
        Ok(_) => panic!("execution unexpectedly succeeded"),
    }
}

#[test]
fn invalid_fmp_value_fails() {
    let program = span(vec![Operation::Push(Felt::new(1 << 32)), Operation::FmpUpdate]);
    let e = run_err(program, &[], &[]);
    match e {
        ExecutionError::InvalidFmpValue(old, new) => {
            assert_eq!(old.as_u64(), 1073741824);
            assert_eq!(new.as_u64(), 1073741824 + (1u64 << 32));
        },
        other => panic!("wrong error: {other:?}"),
    }
}

#[test]
fn not_u32_value_fails() {
    let e = run_err(span(vec![Operation::U32Assert]), &[1 << 32], &[]);
    match e {
        ExecutionError::NotU32Value(v) => assert_eq!(v.as_u64(), 1u64 << 32),
        other => panic!("wrong error: {other:?}"),
    }
    let trace = run(span(vec![Operation::U32Assert]), &[7], &[]);
    assert_eq!(top(&trace, 1), vec![7]);
}

#[test]
fn iterator_yields_the_error_once_then_ends() {
    let script = Script::new(span(vec![Operation::Inv]));
    let inputs = ProgramInputs::new(felts(&[0]), Vec::new(), Vec::new());
    let mut it = execute_iter(&script, inputs);
    let mut states = 0;
    let mut errors = 0;
    // The sequence is finite: states, then the error exactly once, then
    // nothing.
    for _ in 0..10 {
        match it.next() {
            Some(Ok(_)) => {
                assert_eq!(errors, 0);
                states += 1;
            },
            Some(Err(e)) => {
                assert!(matches!(e, ExecutionError::DivideByZero(1)));
                errors += 1;
            },
            None => {},
        }
    }
    assert_eq!(errors, 1);
    // The failing Inv advanced nothing past the start cycle.
    assert_eq!(states, 2);
    assert!(it.next().is_none());
}

#[test]
fn trace_overflow_columns_hold_the_spilled_elements() {
    let init: Vec<u64> = (1..=16).collect();
    let trace = run(span(vec![Operation::Push(Felt::new(17))]), &init, &[]);
    // One slot spilled at most: seventeen fixed columns plus one.
    assert_eq!(trace.width(), 18);
    let mut row = Vec::new();
    // Before the push nothing is spilled.
    trace.read_row_into(1, &mut row);
    assert_eq!(row.len(), 18);
    assert_eq!(row[17].as_u64(), 0);
    // From the push on, the deepest initial value sits in the overflow
    // column.
    trace.read_row_into(2, &mut row);
    assert_eq!(row[1].as_u64(), 17);
    assert_eq!(row[17].as_u64(), 1);
    trace.read_row_into(3, &mut row);
    assert_eq!(row[17].as_u64(), 1);
}

#[test]
fn swap_and_neg_and_dup() {
    let program = span(vec![Operation::Swap, Operation::Neg, Operation::Dup, Operation::Add]);
    let trace = run(program, &[9, 4], &[]);
    // swap: [9, 4]; neg: [-9, 4]; dup: [-9, -9, 4]; add: [-18, 4].
    let p = miden_vm::field::FELT_MODULUS;
    assert_eq!(top(&trace, 2), vec![p - 18, 4]);
}

#[test]
fn process_builds_at_cycle_zero() {
    let inputs = ProgramInputs::from_public(felts(&[1, 2]));
    let process = Process::new(inputs);
    let trace = ExecutionTrace::new(process);
    assert_eq!(trace.clk_final(), 0);
    assert_eq!(trace.length(), 64);
    assert_eq!(stack_row(&trace, 0)[..2], [2, 1]);
}

#[test]
fn memory_read_returns_the_latest_write_at_or_before_the_step() {
    let w = |a: u64, b: u64, c: u64, d: u64| {
        [Felt::new(a), Felt::new(b), Felt::new(c), Felt::new(d)]
    };
    let mut m = Memory::new();
    m.write(5, 2, w(1, 2, 3, 4));
    m.write(5, 6, w(9, 9, 9, 9));
    m.write(8, 4, w(7, 7, 7, 7));
    // Before any write to the address: the zero word.
    assert_eq!(m.read(5, 1), w(0, 0, 0, 0));
    // At and after the first write, up to the second.
    assert_eq!(m.read(5, 2), w(1, 2, 3, 4));
    assert_eq!(m.read(5, 5), w(1, 2, 3, 4));
    // From the second write on.
    assert_eq!(m.read(5, 6), w(9, 9, 9, 9));
    assert_eq!(m.read(5, 100), w(9, 9, 9, 9));
    // Other addresses are independent; unwritten ones read as zero.
    assert_eq!(m.read(8, 4), w(7, 7, 7, 7));
    assert_eq!(m.read(1, 100), w(0, 0, 0, 0));
    // The sorted per-step view lists written addresses only.
    let values = m.get_values_at(0, u64::MAX, 4);
    assert_eq!(values.len(), 2);
    assert_eq!(values[0].0, 5);
    assert_eq!(values[1].0, 8);
    let early = m.get_values_at(0, u64::MAX, 1);
    assert!(early.is_empty());
}
