//! Tests of the evaluator, the renderer, value computation and the
//! top-level roll functions, with an in-memory recording adapter.

use dice_expr::ArithmeticKind;
use dice_expr::BinaryOperator;
use dice_expr::Expr;
use dice_expr::MemoryRecorder;
use dice_expr::RejectingRecorder;
use dice_expr::RollError;
use dice_expr::parse_text;
use dice_expr::roll;
use dice_expr::roll_twice;

fn bracket(rolls: &[u32]) -> String {
    let mut out = String::from("[");
    for (i, r) in rolls.iter().enumerate() {
        if i > 0 {
            out.push_str(", ");
        }
        out.push_str(&r.to_string());
    }
    out.push(']');
    out
}

fn shapes_match(a: &Expr<Vec<u32>>, b: &Expr<Vec<u32>>) -> bool {
    match (a, b) {
        (Expr::Dices(ra), Expr::Dices(rb)) => ra.len() == rb.len(),
        (Expr::Integer(na), Expr::Integer(nb)) => na == nb,
        (Expr::UnOp { op: oa, exp: ea }, Expr::UnOp { op: ob, exp: eb }) => {
            oa == ob && shapes_match(ea, eb)
        }
        (
            Expr::BinOp {
                lhs: la,
                op: oa,
                rhs: ra,
            },
            Expr::BinOp {
                lhs: lb,
                op: ob,
                rhs: rb,
            },
        ) => oa == ob && shapes_match(la, lb) && shapes_match(ra, rb),
        _ => false,
    }
}

#[test]
fn dice_eval_yields_count_values_in_range() {
    let exp = parse_text("5d6").unwrap();
    let mut rec = MemoryRecorder::new();
    let ast = exp.eval(7, 1234, &mut rec).unwrap();
    match &ast {
        Expr::Dices(rolls) => {
            assert_eq!(rolls.len(), 5);
            for r in rolls {
                assert!((1..=6).contains(r));
            }
            assert_eq!(rec.log.len(), 5);
            for (i, entry) in rec.log.iter().enumerate() {
                assert_eq!(entry.user_id, 7);
                assert_eq!(entry.sides, 6);
                assert_eq!(entry.timestamp, 1234);
                assert_eq!(entry.result, rolls[i]);
            }
        }
        _ => panic!("expected a dice node"),
    }
}

#[test]
fn rerolling_gives_fresh_but_isomorphic_trees() {
    let exp = parse_text("1d3 + (3d4 * 2d20)").unwrap();
    let mut rec = MemoryRecorder::new();
    let first = exp.eval(1, 0, &mut rec).unwrap();
    let second = exp.eval(1, 0, &mut rec).unwrap();
    assert!(shapes_match(&first, &second));
    // Six dice per evaluation, recorded in roll order.
    assert_eq!(rec.log.len(), 12);
}

#[test]
fn value_of_a_literal_is_the_literal() {
    assert_eq!(Expr::<Vec<u32>>::Integer(0).value(), Ok(0));
    assert_eq!(Expr::<Vec<u32>>::Integer(5).value(), Ok(5));
    assert_eq!(
        Expr::<Vec<u32>>::Integer(u32::MAX).value(),
        Ok(i64::from(u32::MAX))
    );
}

#[test]
fn one_die_renders_as_its_single_roll() {
    for _ in 0..50 {
        let mut rec = MemoryRecorder::new();
        let out = roll("1d6", 1, 0, &mut rec).unwrap();
        match &out.rolled {
            Expr::Dices(rolls) => {
                assert_eq!(rolls.len(), 1);
                let x = rolls[0];
                assert!((1..=6).contains(&x));
                assert_eq!(out.display, format!("[{x}]"));
                assert_eq!(out.total, i64::from(x));
            }
            _ => panic!("expected a dice node"),
        }
    }
}

#[test]
fn full_expression_rolls_render_and_total() {
    let mut rec = MemoryRecorder::new();
    let out = roll("1d3 + (3d4 * 2d20)", 42, 99, &mut rec).unwrap();
    match &out.rolled {
        Expr::BinOp { lhs, op, rhs } => {
            assert_eq!(*op, BinaryOperator::Add);
            let a = match &**lhs {
                Expr::Dices(a) => a,
                _ => panic!("expected dice on the left"),
            };
            let (b, c) = match &**rhs {
                Expr::BinOp { lhs, op, rhs } => {
                    assert_eq!(*op, BinaryOperator::Multiply);
                    match (&**lhs, &**rhs) {
                        (Expr::Dices(b), Expr::Dices(c)) => (b, c),
                        _ => panic!("expected dice under the product"),
                    }
                }
                _ => panic!("expected a product on the right"),
            };
            assert_eq!(a.len(), 1);
            assert_eq!(b.len(), 3);
            assert_eq!(c.len(), 2);
            assert!(a.iter().all(|r| (1..=3).contains(r)));
            assert!(b.iter().all(|r| (1..=4).contains(r)));
            assert!(c.iter().all(|r| (1..=20).contains(r)));
            let expected = format!("{} + {} * {}", bracket(a), bracket(b), bracket(c));
            assert_eq!(out.display, expected);
            let sum = |v: &Vec<u32>| v.iter().map(|x| i64::from(*x)).sum::<i64>();
            assert_eq!(out.total, sum(a) + sum(b) * sum(c));
            assert_eq!(rec.log.len(), 6);
        }
        _ => panic!("expected a sum at the top"),
    }
}

#[test]
fn division_and_modulo_by_zero_are_typed_errors() {
    let mut rec = MemoryRecorder::new();
    assert_eq!(
        roll("5 / 0", 1, 0, &mut rec).unwrap_err(),
        RollError::ArithmeticError {
            kind: ArithmeticKind::DivisionByZero
        }
    );
    assert_eq!(
        roll("5 % 0", 1, 0, &mut rec).unwrap_err(),
        RollError::ArithmeticError {
            kind: ArithmeticKind::DivisionByZero
        }
    );
}

#[test]
fn division_truncates_toward_zero() {
    let mut rec = MemoryRecorder::new();
    assert_eq!(roll("-7 / 2", 1, 0, &mut rec).unwrap().total, -3);
    assert_eq!(roll("-7 % 2", 1, 0, &mut rec).unwrap().total, -1);
    assert_eq!(roll("7 / (-2)", 1, 0, &mut rec).unwrap().total, -3);
    assert_eq!(roll("7 % (-2)", 1, 0, &mut rec).unwrap().total, 1);
    assert_eq!(roll("7 / 2", 1, 0, &mut rec).unwrap().total, 3);
}

#[test]
fn value_overflow_is_a_typed_error() {
    let mut rec = MemoryRecorder::new();
    assert_eq!(
        roll("4294967295 * 4294967295 * 4294967295", 1, 0, &mut rec).unwrap_err(),
        RollError::ArithmeticError {
            kind: ArithmeticKind::Overflow
        }
    );
}

#[test]
fn zero_faces_fails_before_any_sampling() {
    let mut rec = MemoryRecorder::new();
    assert_eq!(
        roll("2d0", 1, 0, &mut rec).unwrap_err(),
        RollError::InvalidDice
    );
    assert_eq!(rec.log.len(), 0);
    assert_eq!(
        roll("1d6 + 2d0", 1, 0, &mut rec).unwrap_err(),
        RollError::InvalidDice
    );
    assert_eq!(rec.log.len(), 0);
}

#[test]
fn zero_count_renders_as_empty_brackets() {
    let mut rec = MemoryRecorder::new();
    let out = roll("0d6 + 2", 1, 0, &mut rec).unwrap();
    assert_eq!(out.display, "[] + 2");
    assert_eq!(out.total, 2);
    assert_eq!(rec.log.len(), 0);
}

#[test]
fn unary_minus_evaluates_before_addition() {
    let mut rec = MemoryRecorder::new();
    let out = roll("-2 + 3", 1, 0, &mut rec).unwrap();
    assert_eq!(out.total, 1);
    assert_eq!(out.display, "- 2 + 3");
}

#[test]
fn precedence_shows_in_totals() {
    let mut rec = MemoryRecorder::new();
    assert_eq!(roll("2 + 3 * 4", 1, 0, &mut rec).unwrap().total, 14);
    assert_eq!(roll("(2 + 3) * 4", 1, 0, &mut rec).unwrap().total, 20);
    assert_eq!(roll("10 - 3 - 4", 1, 0, &mut rec).unwrap().total, 3);
    assert_eq!(roll("100 / 10 / 5", 1, 0, &mut rec).unwrap().total, 2);
    assert_eq!(roll("-2 * 3", 1, 0, &mut rec).unwrap().total, -6);
}

#[test]
fn roll_twice_repeats_with_isomorphic_outcomes() {
    let mut rec = MemoryRecorder::new();
    let outs = roll_twice("2d8 + 1", 4, 9, 55, &mut rec).unwrap();
    assert_eq!(outs.len(), 4);
    for out in &outs {
        assert!(shapes_match(&outs[0].rolled, &out.rolled));
        match &out.rolled {
            Expr::BinOp { lhs, .. } => match &**lhs {
                Expr::Dices(rolls) => {
                    assert_eq!(rolls.len(), 2);
                    let sum: i64 = rolls.iter().map(|x| i64::from(*x)).sum();
                    assert_eq!(out.total, sum + 1);
                }
                _ => panic!("expected dice on the left"),
            },
            _ => panic!("expected a sum"),
        }
    }
    assert_eq!(rec.log.len(), 8);
}

#[test]
fn roll_twice_propagates_parse_errors() {
    let mut rec = MemoryRecorder::new();
    assert_eq!(
        roll_twice("1d", 2, 1, 0, &mut rec).unwrap_err(),
        RollError::GrammarError { at: 2 }
    );
    assert_eq!(
        roll_twice("2d0", 2, 1, 0, &mut rec).unwrap_err(),
        RollError::InvalidDice
    );
}

#[test]
fn recording_failures_never_invalidate_the_roll() {
    let mut rec = RejectingRecorder::new();
    let out = roll("3d6", 1, 0, &mut rec).unwrap();
    match &out.rolled {
        Expr::Dices(rolls) => {
            assert_eq!(rolls.len(), 3);
            for r in rolls {
                assert!((1..=6).contains(r));
            }
        }
        _ => panic!("expected a dice node"),
    }
    assert_eq!(rec.attempts, 3);
}

#[test]
fn samples_vary_and_stay_in_range() {
    let mut rec = MemoryRecorder::new();
    let mut seen = Vec::new();
    for _ in 0..200 {
        let out = roll("1d20", 1, 0, &mut rec).unwrap();
        assert!((1..=20).contains(&out.total));
        seen.push(out.total);
    }
    let first = seen[0];
    assert!(
        seen.iter().any(|v| *v != first),
        "two hundred d20 rolls all came out identical"
    );
}
