use miden_vm::field::Felt;
use miden_vm::overflow::OverflowTable;

fn slice_to_felts(values: &[i32]) -> Vec<Felt> {
    values.iter().map(|&v| Felt::new(v as u64)).collect()
}

fn assert_step(overflow: &OverflowTable, expected: &[i32], step: usize) {
    let mut values = Vec::new();
    overflow.append_state_into(step, &mut values);
    assert_eq!(slice_to_felts(expected), values);
}

#[test]
fn test_overflow_trace() {
    let mut overflow = OverflowTable::new(true);
    overflow.push(0, Felt::new(1));
    overflow.push(1, Felt::new(2));
    overflow.push(2, Felt::new(3));
    overflow.push(3, Felt::new(4));
    overflow.pop(4);
    overflow.pop(5);
    overflow.pop(5);
    overflow.push(6, Felt::new(5));

    assert_step(&overflow, &[1, 2], 1);
    assert_step(&overflow, &[1, 2, 3], 2);
    assert_step(&overflow, &[1, 2, 3, 4], 3);
    assert_step(&overflow, &[1, 2, 3], 4);
    assert_step(&overflow, &[1], 5);
    assert_step(&overflow, &[1, 5], 6);
}

#[test]
fn overflow_snapshot_before_first_mutation_is_empty() {
    let mut overflow = OverflowTable::new(true);
    overflow.push(3, Felt::new(9));
    let mut values = Vec::new();
    overflow.append_state_into(2, &mut values);
    assert!(values.is_empty());
}

#[test]
fn overflow_without_capture_records_nothing() {
    let mut overflow = OverflowTable::new(false);
    overflow.push(0, Felt::new(1));
    overflow.push(1, Felt::new(2));
    let mut values = Vec::new();
    overflow.append_state_into(1, &mut values);
    assert!(values.is_empty());
}

#[test]
fn overflow_pop_on_empty_returns_none() {
    let mut overflow = OverflowTable::new(true);
    assert!(overflow.pop(0).is_none());
    assert_eq!(overflow.active_len(), 0);
}

#[test]
fn overflow_append_into_takes_a_prefix() {
    let mut overflow = OverflowTable::new(false);
    overflow.push(0, Felt::new(7));
    overflow.push(0, Felt::new(8));
    overflow.push(0, Felt::new(9));
    let mut values = Vec::new();
    overflow.append_into(2, &mut values);
    assert_eq!(values, slice_to_felts(&[7, 8]));
}
