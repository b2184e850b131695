use eel_parser::{
    needs_right_operand, while_continues, BinaryOperator, Memory, BUFFER_SIZE, MAX_WHILE_EVALUATIONS,
};

#[test]
fn unwritten_slots_read_as_zero() {
    let m: Memory<f64> = Memory::new(0.0);
    assert_eq!(m.read_megabuf(0, 1), 0.0);
    assert_eq!(m.read_gmegabuf(1), 0.0);
}

#[test]
fn megabuf_is_isolated_per_pool_and_from_gmegabuf() {
    let mut m: Memory<f64> = Memory::new(0.0);
    m.write_megabuf(1, 0, 1.2);
    assert_eq!(m.read_megabuf(1, 0), 1.2);
    assert_eq!(m.read_megabuf(2, 0), 0.0);
    assert_eq!(m.read_gmegabuf(0), 0.0);
    m.write_gmegabuf(0, 3.5);
    assert_eq!(m.read_gmegabuf(0), 3.5);
    assert_eq!(m.read_megabuf(1, 0), 1.2);
    assert_eq!(m.read_megabuf(2, 0), 0.0);
}

#[test]
fn buffer_index_bounds() {
    let mut m: Memory<f64> = Memory::new(0.0);
    m.write_megabuf(0, 8388607, 10.0);
    assert_eq!(m.read_megabuf(0, 8388607), 10.0);
    m.write_megabuf(0, 8388608, 10.0);
    assert_eq!(m.read_megabuf(0, 8388608), 0.0);
    m.write_gmegabuf(8388607, 10.0);
    assert_eq!(m.read_gmegabuf(8388607), 10.0);
    m.write_gmegabuf(8388608, 10.0);
    assert_eq!(m.read_gmegabuf(8388608), 0.0);
    m.write_megabuf(0, -2, 20.0);
    assert_eq!(m.read_megabuf(0, -2), 0.0);
    assert_eq!(BUFFER_SIZE, 1 << 23);
}

#[test]
fn adjacent_slots_do_not_collide() {
    let mut m: Memory<f64> = Memory::new(0.0);
    m.write_megabuf(0, 99, 10.0);
    m.write_megabuf(0, 100, 1.0);
    assert_eq!(m.read_megabuf(0, 99), 10.0);
    assert_eq!(m.read_megabuf(0, 100), 1.0);
    m.write_megabuf(0, 100, 2.0);
    assert_eq!(m.read_megabuf(0, 100), 2.0);
}

#[test]
fn while_stops_at_the_cap() {
    let mut evaluations: u64 = 0;
    loop {
        evaluations += 1;
        if !while_continues(evaluations, true) {
            break;
        }
    }
    assert_eq!(evaluations, 1048576);
    assert_eq!(MAX_WHILE_EVALUATIONS, 1048576);
}

#[test]
fn while_stops_when_the_condition_is_false() {
    assert!(!while_continues(10, false));
    assert!(while_continues(10, true));
    assert!(!while_continues(MAX_WHILE_EVALUATIONS, true));
}

#[test]
fn logical_operators_short_circuit() {
    assert!(!needs_right_operand(BinaryOperator::And, false));
    assert!(needs_right_operand(BinaryOperator::And, true));
    assert!(!needs_right_operand(BinaryOperator::Or, true));
    assert!(needs_right_operand(BinaryOperator::Or, false));
    assert!(needs_right_operand(BinaryOperator::BitOr, false));
    assert!(needs_right_operand(BinaryOperator::Add, true));
}
