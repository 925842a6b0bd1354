//! Tests of the tokenizer and the parser: token shapes and positions,
//! precedence, associativity, and every parse-time error.

use dice_expr::ArithmeticKind;
use dice_expr::BinaryOperator;
use dice_expr::Calculator;
use dice_expr::Dices;
use dice_expr::Expr;
use dice_expr::RollError;
use dice_expr::TokenKind;
use dice_expr::UnaryOperator;
use dice_expr::parse_expr;
use dice_expr::parse_text;

fn lit(n: u32) -> Expr<Dices> {
    Expr::Integer(n)
}

fn dice(n: u32, m: u32) -> Expr<Dices> {
    Expr::Dices(Dices {
        nb_dices: n,
        nb_faces: m,
    })
}

fn bin(l: Expr<Dices>, op: BinaryOperator, r: Expr<Dices>) -> Expr<Dices> {
    Expr::BinOp {
        lhs: Box::new(l),
        op,
        rhs: Box::new(r),
    }
}

fn neg(e: Expr<Dices>) -> Expr<Dices> {
    Expr::UnOp {
        op: UnaryOperator::Minus,
        exp: Box::new(e),
    }
}

#[test]
fn tokens_of_a_full_expression() {
    let ts = Calculator::parse("1d3 + (3d4 * 2d20)").unwrap();
    let kinds: Vec<TokenKind> = ts.iter().map(|t| t.kind).collect();
    assert_eq!(
        kinds,
        vec![
            TokenKind::Dice(1, 3),
            TokenKind::Add,
            TokenKind::OpenParen,
            TokenKind::Dice(3, 4),
            TokenKind::Multiply,
            TokenKind::Dice(2, 20),
            TokenKind::CloseParen,
            TokenKind::End,
        ]
    );
    let ats: Vec<usize> = ts.iter().map(|t| t.at).collect();
    assert_eq!(ats, vec![0, 4, 6, 7, 11, 13, 17, 18]);
}

#[test]
fn tokens_skip_whitespace() {
    let ts = Calculator::parse(" 12 \t+\n7 ").unwrap();
    let kinds: Vec<TokenKind> = ts.iter().map(|t| t.kind).collect();
    assert_eq!(
        kinds,
        vec![
            TokenKind::Integer(12),
            TokenKind::Add,
            TokenKind::Integer(7),
            TokenKind::End,
        ]
    );
    assert_eq!(ts[0].at, 1);
    assert_eq!(ts[1].at, 5);
    assert_eq!(ts[2].at, 7);
    assert_eq!(ts[3].at, 9);
}

#[test]
fn parse_precedence_multiplication_binds_tighter() {
    let e = parse_text("2 + 3 * 4").unwrap();
    assert_eq!(
        e,
        bin(
            lit(2),
            BinaryOperator::Add,
            bin(lit(3), BinaryOperator::Multiply, lit(4)),
        )
    );
}

#[test]
fn parse_parentheses_override_precedence() {
    let e = parse_text("(2 + 3) * 4").unwrap();
    assert_eq!(
        e,
        bin(
            bin(lit(2), BinaryOperator::Add, lit(3)),
            BinaryOperator::Multiply,
            lit(4),
        )
    );
}

#[test]
fn parse_binary_operators_associate_left() {
    let e = parse_text("10 - 3 - 4").unwrap();
    assert_eq!(
        e,
        bin(
            bin(lit(10), BinaryOperator::Substract, lit(3)),
            BinaryOperator::Substract,
            lit(4),
        )
    );
}

#[test]
fn parse_unary_minus_binds_tighter_than_binary() {
    let e = parse_text("-2 * 3").unwrap();
    assert_eq!(
        e,
        bin(neg(lit(2)), BinaryOperator::Multiply, lit(3))
    );
}

#[test]
fn parse_dice_literal() {
    assert_eq!(parse_text("3d6").unwrap(), dice(3, 6));
    assert_eq!(parse_text("0d6").unwrap(), dice(0, 6));
    assert_eq!(parse_text("2d0").unwrap(), dice(2, 0));
}

#[test]
fn parse_all_five_operators() {
    for (text, op) in [
        ("1 + 2", BinaryOperator::Add),
        ("1 - 2", BinaryOperator::Substract),
        ("1 * 2", BinaryOperator::Multiply),
        ("1 / 2", BinaryOperator::Divide),
        ("1 % 2", BinaryOperator::Modulo),
    ] {
        assert_eq!(parse_text(text).unwrap(), bin(lit(1), op, lit(2)));
    }
}

#[test]
fn malformed_inputs_surface_grammar_errors() {
    assert_eq!(parse_text("1d"), Err(RollError::GrammarError { at: 2 }));
    assert_eq!(parse_text("+ 2"), Err(RollError::GrammarError { at: 0 }));
    assert_eq!(parse_text("(1+2"), Err(RollError::GrammarError { at: 4 }));
    assert_eq!(parse_text(""), Err(RollError::GrammarError { at: 0 }));
    assert_eq!(parse_text("--2"), Err(RollError::GrammarError { at: 1 }));
    assert_eq!(parse_text("2 + -3"), Err(RollError::GrammarError { at: 4 }));
    assert_eq!(parse_text("1 2"), Err(RollError::GrammarError { at: 2 }));
    assert_eq!(parse_text("1 d6"), Err(RollError::GrammarError { at: 2 }));
    assert_eq!(parse_text("1d 6"), Err(RollError::GrammarError { at: 2 }));
    assert_eq!(parse_text("a + 1"), Err(RollError::GrammarError { at: 0 }));
}

#[test]
fn numeral_overflow_surfaces_parse_errors() {
    assert_eq!(parse_text("4294967295").unwrap(), lit(4294967295));
    assert_eq!(
        parse_text("4294967296"),
        Err(RollError::ParseError { at: 0 })
    );
    assert_eq!(
        parse_text("2d4294967296"),
        Err(RollError::ParseError { at: 2 })
    );
    assert_eq!(
        parse_text("99999999999999999999d6"),
        Err(RollError::ParseError { at: 0 })
    );
    assert_eq!(
        parse_text("1 + 123456789012"),
        Err(RollError::ParseError { at: 4 })
    );
}

#[test]
fn parse_expr_accepts_a_token_run() {
    let ts = Calculator::parse("1d6 * 2").unwrap();
    let e = parse_expr(&ts).unwrap();
    assert_eq!(e, bin(dice(1, 6), BinaryOperator::Multiply, lit(2)));
}

#[test]
fn arithmetic_kind_values_are_distinct() {
    assert_ne!(ArithmeticKind::DivisionByZero, ArithmeticKind::Overflow);
}
