//! Budgets and nesting.

use mcpg_markdown_convert::{Budget, ConvertCx, Limits};

fn cx_limits() -> Limits {
    Limits {
        max_expanded_bytes: 100,
        max_embedded_documents: 2,
        max_depth: 2,
        ..Limits::default()
    }
}

#[test]
fn expanded_bytes_accumulate_across_the_tree() {
    let mut b = Budget::new(cx_limits());
    assert!(b.charge_expanded(60).is_ok());
    // The second charge alone fits; the running total does not.
    let err = b.charge_expanded(60).unwrap_err();
    assert_eq!(err.code(), "limit_exceeded");
}

#[test]
fn embedded_slots_are_capped() {
    let mut b = Budget::new(cx_limits());
    assert!(b.charge_embedded().is_ok());
    assert!(b.charge_embedded().is_ok());
    assert!(b.charge_embedded().is_err());
}

#[test]
fn descend_stops_at_max_depth() {
    let mut b = Budget::new(cx_limits());
    let mut cx = ConvertCx::new(&mut b);
    let mut d1 = cx.descend().expect("depth 1");
    let mut d2 = d1.descend().expect("depth 2");
    assert_eq!(d2.depth(), 2);
    assert!(d2.descend().is_err());
}

#[test]
fn budget_is_shared_not_per_level() {
    let mut b = Budget::new(cx_limits());
    let mut cx = ConvertCx::new(&mut b);
    let mut child = cx.descend().unwrap();
    child.charge_expanded(100).unwrap();
    // The parent sees the child's spend — the point of sharing.
    assert!(cx.charge_expanded(1).is_err());
}

#[test]
fn input_size_is_checked_against_the_ceiling() {
    let b = Budget::new(Limits {
        max_input_bytes: 10,
        ..Limits::default()
    });
    assert!(b.check_input_size(10).is_ok());
    assert!(b.check_input_size(11).is_err());
}
