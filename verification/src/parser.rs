//! The parser: from the token run to a symbolic expression tree.
//!
//! The grammar is `expr := unary_minus? primary (binop primary)*` with
//! `primary := dice | integer | "(" expr ")"`.  Binding powers, weakest
//! first: `+` and `-`; then `*`, `/` and `%`; unary minus binds tighter than
//! every binary operator and applies to the first primary of an expression.
//! All binary operators associate to the left.  The whole input must be one
//! `expr`: a token left over after it is a grammar error.

use vstd::prelude::*;

use crate::ast::{BinaryOperator, Dices, Expr, UnaryOperator};
use crate::errors::RollError;
use crate::lexer::{Calculator, Token, TokenKind, spec_tokens};

verus! {

/// The token kinds of the tighter-binding binary operators.
pub open spec fn is_mul_kind(k: TokenKind) -> bool {
    k is Multiply || k is Divide || k is Modulo
}

/// The token kinds of the weaker-binding binary operators.
pub open spec fn is_add_kind(k: TokenKind) -> bool {
    k is Add || k is Subtract
}

/// The operator denoted by a binary-operator token.
pub open spec fn binop_of(k: TokenKind) -> BinaryOperator
    recommends
        is_mul_kind(k) || is_add_kind(k),
{
    match k {
        TokenKind::Add => BinaryOperator::Add,
        TokenKind::Subtract => BinaryOperator::Substract,
        TokenKind::Multiply => BinaryOperator::Multiply,
        TokenKind::Divide => BinaryOperator::Divide,
        _ => BinaryOperator::Modulo,
    }
}

/// The suffix a sub-parse left over.  Every sub-parse that succeeds consumes
/// at least one token, so its leftover is shorter than what it was given;
/// the fallback to the empty sequence only makes that shape explicit for the
/// termination checker and is never taken.
pub open spec fn advance(ts: Seq<Token>, rest: Seq<Token>) -> Seq<Token> {
    if rest.len() < ts.len() {
        rest
    } else {
        Seq::empty()
    }
}

/// Parse one primary: a dice literal, an integer, or a parenthesized
/// expression.  Returns the result and the leftover suffix.
pub open spec fn spec_primary(ts: Seq<Token>) -> (Result<Expr<Dices>, RollError>, Seq<Token>)
    decreases ts.len(), 0int,
{
    if ts.len() == 0 {
        (Err(RollError::GrammarError { at: 0 }), ts)
    } else {
        let t = ts[0];
        match t.kind {
            TokenKind::Integer(n) => (Ok(Expr::Integer(n)), ts.skip(1)),
            TokenKind::Dice(n, m) => (
                Ok(Expr::Dices(Dices { nb_dices: n, nb_faces: m })),
                ts.skip(1),
            ),
            TokenKind::OpenParen => {
                let (r, rest) = spec_expr(ts.skip(1));
                match r {
                    Ok(e) => if rest.len() > 0 && rest[0].kind is CloseParen {
                        (Ok(e), rest.skip(1))
                    } else {
                        (
                            Err(
                                RollError::GrammarError {
                                    at: if rest.len() > 0 {
                                        rest[0].at
                                    } else {
                                        0
                                    },
                                },
                            ),
                            rest,
                        )
                    },
                    Err(er) => (Err(er), rest),
                }
            },
            _ => (Err(RollError::GrammarError { at: t.at }), ts),
        }
    }
}

/// Fold a chain of `*`, `/`, `%` primaries onto `acc`, left-associatively.
pub open spec fn spec_term_tail(acc: Expr<Dices>, ts: Seq<Token>) -> (
    Result<Expr<Dices>, RollError>,
    Seq<Token>,
)
    decreases ts.len(), 1int,
{
    if ts.len() > 0 && is_mul_kind(ts[0].kind) {
        let op = binop_of(ts[0].kind);
        let (r, rest) = spec_primary(ts.skip(1));
        match r {
            Ok(p) => spec_term_tail(
                Expr::BinOp { lhs: Box::new(acc), op, rhs: Box::new(p) },
                advance(ts, rest),
            ),
            Err(e) => (Err(e), rest),
        }
    } else {
        (Ok(acc), ts)
    }
}

/// Fold a chain of `+`, `-` terms onto `acc`, left-associatively; each term
/// is a primary followed by its `*`, `/`, `%` chain.
pub open spec fn spec_expr_tail(acc: Expr<Dices>, ts: Seq<Token>) -> (
    Result<Expr<Dices>, RollError>,
    Seq<Token>,
)
    decreases ts.len(), 2int,
{
    if ts.len() > 0 && is_add_kind(ts[0].kind) {
        let op = binop_of(ts[0].kind);
        let (r, rest) = spec_primary(ts.skip(1));
        match r {
            Ok(p) => {
                let (r2, rest2) = spec_term_tail(p, advance(ts, rest));
                match r2 {
                    Ok(t) => spec_expr_tail(
                        Expr::BinOp { lhs: Box::new(acc), op, rhs: Box::new(t) },
                        advance(ts, rest2),
                    ),
                    Err(e) => (Err(e), rest2),
                }
            },
            Err(e) => (Err(e), rest),
        }
    } else {
        (Ok(acc), ts)
    }
}

/// Parse one full expression: an optional unary minus on the first primary,
/// then the operator chains, with `*`, `/`, `%` binding tighter than `+`,
/// `-` and everything associating to the left.
pub open spec fn spec_expr(ts: Seq<Token>) -> (Result<Expr<Dices>, RollError>, Seq<Token>)
    decreases ts.len(), 3int,
{
    if ts.len() > 0 && ts[0].kind is Subtract {
        let (r, rest) = spec_primary(ts.skip(1));
        match r {
            Ok(p) => {
                let lead = Expr::UnOp { op: UnaryOperator::Minus, exp: Box::new(p) };
                let (r2, rest2) = spec_term_tail(lead, advance(ts, rest));
                match r2 {
                    Ok(t) => spec_expr_tail(t, advance(ts, rest2)),
                    Err(e) => (Err(e), rest2),
                }
            },
            Err(e) => (Err(e), rest),
        }
    } else {
        let (r, rest) = spec_primary(ts);
        match r {
            Ok(p) => {
                let (r2, rest2) = spec_term_tail(p, advance(ts, rest));
                match r2 {
                    Ok(t) => spec_expr_tail(t, advance(ts, rest2)),
                    Err(e) => (Err(e), rest2),
                }
            },
            Err(e) => (Err(e), rest),
        }
    }
}

/// Parse a whole token run: one expression, then the end-of-input marker.
pub open spec fn spec_parse(ts: Seq<Token>) -> Result<Expr<Dices>, RollError> {
    let (r, rest) = spec_expr(ts);
    match r {
        Ok(e) => if rest.len() > 0 && rest[0].kind is End {
            Ok(e)
        } else if rest.len() > 0 {
            Err(RollError::GrammarError { at: rest[0].at })
        } else {
            Err(RollError::GrammarError { at: 0 })
        },
        Err(er) => Err(er),
    }
}

/// Tokenizing and parsing a raw input string, as one function.
pub open spec fn spec_parse_text(s: Seq<char>) -> Result<Expr<Dices>, RollError> {
    match spec_tokens(s, 0) {
        Ok(ts) => spec_parse(ts),
        Err(e) => Err(e),
    }
}

fn parse_primary(ts: &Vec<Token>, pos: usize) -> (r: (Result<Expr<Dices>, RollError>, usize))
    requires
        pos <= ts@.len(),
    ensures
        pos <= r.1 <= ts@.len(),
        r.0 is Ok ==> r.1 > pos,
        ({
            let (sr, srest) = spec_primary(ts@.skip(pos as int));
            r.0 == sr && srest == ts@.skip(r.1 as int)
        }),
    decreases ts@.len() - pos, 0int,
{
    let ghost suf = ts@.skip(pos as int);
    if pos >= ts.len() {
        (Err(RollError::GrammarError { at: 0 }), pos)
    } else {
        let t = ts[pos];
        proof {
            assert(suf[0] == ts@[pos as int]);
        }
        match t.kind {
            TokenKind::Integer(n) => {
                proof {
                    assert(suf.skip(1) =~= ts@.skip(pos + 1));
                }
                (Ok(Expr::Integer(n)), pos + 1)
            },
            TokenKind::Dice(n, m) => {
                proof {
                    assert(suf.skip(1) =~= ts@.skip(pos + 1));
                }
                (Ok(Expr::Dices(Dices { nb_dices: n, nb_faces: m })), pos + 1)
            },
            TokenKind::OpenParen => {
                proof {
                    assert(suf.skip(1) =~= ts@.skip(pos + 1));
                }
                let (r, rest) = parse_expr_at(ts, pos + 1);
                match r {
                    Ok(e) => {
                        if rest < ts.len() {
                            let nt = ts[rest];
                            proof {
                                assert(ts@.skip(rest as int)[0] == ts@[rest as int]);
                            }
                            match nt.kind {
                                TokenKind::CloseParen => {
                                    proof {
                                        assert(ts@.skip(rest as int).skip(1) =~= ts@.skip(
                                            rest + 1));
                                    }
                                    (Ok(e), rest + 1)
                                },
                                _ => (Err(RollError::GrammarError { at: nt.at }), rest),
                            }
                        } else {
                            (Err(RollError::GrammarError { at: 0 }), rest)
                        }
                    },
                    Err(e) => (Err(e), rest),
                }
            },
            _ => (Err(RollError::GrammarError { at: t.at }), pos),
        }
    }
}

fn parse_term_tail(ts: &Vec<Token>, acc: Expr<Dices>, pos: usize) -> (r: (
    Result<Expr<Dices>, RollError>,
    usize,
))
    requires
        pos <= ts@.len(),
    ensures
        pos <= r.1 <= ts@.len(),
        ({
            let (sr, srest) = spec_term_tail(acc, ts@.skip(pos as int));
            r.0 == sr && srest == ts@.skip(r.1 as int)
        }),
    decreases ts@.len() - pos, 1int,
{
    let ghost suf = ts@.skip(pos as int);
    if pos < ts.len() {
        let t = ts[pos];
        proof {
            assert(suf[0] == ts@[pos as int]);
        }
        let op_opt: Option<BinaryOperator> = match t.kind {
            TokenKind::Multiply => Some(BinaryOperator::Multiply),
            TokenKind::Divide => Some(BinaryOperator::Divide),
            TokenKind::Modulo => Some(BinaryOperator::Modulo),
            _ => None,
        };
        if let Some(op) = op_opt {
            proof {
                assert(suf.skip(1) =~= ts@.skip(pos + 1));
            }
            let (pr, prest) = parse_primary(ts, pos + 1);
            match pr {
                Ok(p) => {
                    proof {
                        assert(advance(suf, ts@.skip(prest as int)) == ts@.skip(prest as int));
                    }
                    let nacc = Expr::BinOp { lhs: Box::new(acc), op, rhs: Box::new(p) };
                    parse_term_tail(ts, nacc, prest)
                },
                Err(e) => (Err(e), prest),
            }
        } else {
            (Ok(acc), pos)
        }
    } else {
        (Ok(acc), pos)
    }
}

fn parse_expr_tail(ts: &Vec<Token>, acc: Expr<Dices>, pos: usize) -> (r: (
    Result<Expr<Dices>, RollError>,
    usize,
))
    requires
        pos <= ts@.len(),
    ensures
        pos <= r.1 <= ts@.len(),
        ({
            let (sr, srest) = spec_expr_tail(acc, ts@.skip(pos as int));
            r.0 == sr && srest == ts@.skip(r.1 as int)
        }),
    decreases ts@.len() - pos, 2int,
{
    let ghost suf = ts@.skip(pos as int);
    if pos < ts.len() {
        let t = ts[pos];
        proof {
            assert(suf[0] == ts@[pos as int]);
        }
        let op_opt: Option<BinaryOperator> = match t.kind {
            TokenKind::Add => Some(BinaryOperator::Add),
            TokenKind::Subtract => Some(BinaryOperator::Substract),
            _ => None,
        };
        if let Some(op) = op_opt {
            proof {
                assert(suf.skip(1) =~= ts@.skip(pos + 1));
            }
            let (pr, prest) = parse_primary(ts, pos + 1);
            match pr {
                Ok(p) => {
                    proof {
                        assert(advance(suf, ts@.skip(prest as int)) == ts@.skip(prest as int));
                    }
                    let (tr, trest) = parse_term_tail(ts, p, prest);
                    match tr {
                        Ok(tt) => {
                            proof {
                                assert(advance(suf, ts@.skip(trest as int)) == ts@.skip(
                                    trest as int));
                            }
                            let nacc = Expr::BinOp { lhs: Box::new(acc), op, rhs: Box::new(tt) };
                            parse_expr_tail(ts, nacc, trest)
                        },
                        Err(e) => (Err(e), trest),
                    }
                },
                Err(e) => (Err(e), prest),
            }
        } else {
            (Ok(acc), pos)
        }
    } else {
        (Ok(acc), pos)
    }
}

fn parse_expr_at(ts: &Vec<Token>, pos: usize) -> (r: (Result<Expr<Dices>, RollError>, usize))
    requires
        pos <= ts@.len(),
    ensures
        pos <= r.1 <= ts@.len(),
        ({
            let (sr, srest) = spec_expr(ts@.skip(pos as int));
            r.0 == sr && srest == ts@.skip(r.1 as int)
        }),
    decreases ts@.len() - pos, 3int,
{
    let ghost suf = ts@.skip(pos as int);
    let minus: bool = if pos < ts.len() {
        let k = ts[pos].kind;
        proof {
            assert(suf[0] == ts@[pos as int]);
        }
        match k {
            TokenKind::Subtract => true,
            _ => false,
        }
    } else {
        false
    };
    if minus {
        proof {
            assert(suf.skip(1) =~= ts@.skip(pos + 1));
        }
        let (pr, prest) = parse_primary(ts, pos + 1);
        match pr {
            Ok(p) => {
                let lead = Expr::UnOp { op: UnaryOperator::Minus, exp: Box::new(p) };
                proof {
                    assert(advance(suf, ts@.skip(prest as int)) == ts@.skip(prest as int));
                }
                let (tr, trest) = parse_term_tail(ts, lead, prest);
                match tr {
                    Ok(tt) => {
                        proof {
                            assert(advance(suf, ts@.skip(trest as int)) == ts@.skip(trest as int));
                        }
                        parse_expr_tail(ts, tt, trest)
                    },
                    Err(e) => (Err(e), trest),
                }
            },
            Err(e) => (Err(e), prest),
        }
    } else {
        let (pr, prest) = parse_primary(ts, pos);
        match pr {
            Ok(p) => {
                proof {
                    assert(advance(suf, ts@.skip(prest as int)) == ts@.skip(prest as int));
                }
                let (tr, trest) = parse_term_tail(ts, p, prest);
                match tr {
                    Ok(tt) => {
                        proof {
                            assert(advance(suf, ts@.skip(trest as int)) == ts@.skip(trest as int));
                        }
                        parse_expr_tail(ts, tt, trest)
                    },
                    Err(e) => (Err(e), trest),
                }
            },
            Err(e) => (Err(e), prest),
        }
    }
}

/// Parse a token run into a symbolic expression tree: one full expression
/// followed by the end-of-input marker.
pub fn parse_expr(tokens: &Vec<Token>) -> (r: Result<Expr<Dices>, RollError>)
    ensures
        r == spec_parse(tokens@),
{
    proof {
        assert(tokens@.skip(0) =~= tokens@);
    }
    let (er, erest) = parse_expr_at(tokens, 0);
    match er {
        Ok(e) => {
            if erest < tokens.len() {
                let t = tokens[erest];
                proof {
                    assert(tokens@.skip(erest as int)[0] == tokens@[erest as int]);
                }
                match t.kind {
                    TokenKind::End => Ok(e),
                    _ => Err(RollError::GrammarError { at: t.at }),
                }
            } else {
                Err(RollError::GrammarError { at: 0 })
            }
        },
        Err(e) => Err(e),
    }
}

/// Tokenize and parse a raw dice-roll expression string.
pub fn parse_text(input: &str) -> (r: Result<Expr<Dices>, RollError>)
    ensures
        r == spec_parse_text(input@),
{
    let tokens = match Calculator::parse(input) {
        Ok(ts) => ts,
        Err(e) => {
            return Err(e);
        },
    };
    parse_expr(&tokens)
}

} // verus!
