//! The pre-flop quiz scenario: parsing, answers and description.

use poker_kata::preflop::{Context, StackSize};

#[test]
fn parses_a_scenario_line() {
    let ctx = Context::from_str("early, A, 8, s, r, s").unwrap();
    assert_eq!(ctx.get_expected_action(), "raise");
    assert_eq!(ctx.describe(), "early pos, A8 suited, short stack");
}

#[test]
fn parses_without_spaces() {
    let ctx = Context::from_str("late,K,Q,o,c,d").unwrap();
    assert_eq!(ctx.get_expected_action(), "call");
    assert_eq!(ctx.describe(), "late pos, KQ offsuit, deep stack");
}

#[test]
fn rejects_wrong_field_count() {
    assert!(Context::from_str("early, A, 8, s, r").is_err());
    assert!(Context::from_str("early, A, 8, s, r, s, x").is_err());
    assert!(Context::from_str("").is_err());
}

#[test]
fn rejects_bad_fields() {
    assert!(Context::from_str("nowhere, A, 8, s, r, s").is_err());
    assert!(Context::from_str("early, Z, 8, s, r, s").is_err());
    assert!(Context::from_str("early, A, 8, x, r, s").is_err());
    assert!(Context::from_str("early, A, 8, s, q, s").is_err());
    assert!(Context::from_str("early, A, 8, s, r, z").is_err());
}

#[test]
fn assess_accepts_the_expected_action() {
    let ctx = Context::from_str("middle, T, T, o, f, m").unwrap();
    assert!(ctx.assess("f"));
    assert!(ctx.assess(" f "));
    assert!(!ctx.assess("r"));
    assert!(!ctx.assess("nonsense"));
    assert_eq!(ctx.get_expected_action(), "fold");
}

#[test]
fn stack_size_notation_round_trip() {
    assert_eq!(StackSize::from_str("s").unwrap(), StackSize::Short);
    assert_eq!(StackSize::from_str("m").unwrap(), StackSize::Medium);
    assert_eq!(StackSize::from_str("d").unwrap(), StackSize::Deep);
    assert_eq!(StackSize::from_str("a").unwrap(), StackSize::Any);
    assert!(StackSize::from_str("x").is_err());
    assert_eq!(StackSize::Medium.word(), "medium");
    assert_eq!(StackSize::Any.word(), "any");
}
