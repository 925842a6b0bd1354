//! The two-phase abstract syntax tree of dice-roll expressions.
//!
//! An `Expr<Dices>` is a symbolic tree as produced by the parser: every dice
//! node still holds an unresolved `(count, faces)` spec.  An `Expr<Vec<u32>>`
//! is a concrete tree as produced by the evaluator: every dice node holds the
//! face values that were actually rolled, in roll order.

use vstd::prelude::*;

verus! {

/// The unary operators of the expression language.
#[derive(Debug, Clone, Copy, PartialEq, Eq, Structural)]
pub enum UnaryOperator {
    Minus,
}

/// The binary operators of the expression language.
#[derive(Debug, Clone, Copy, PartialEq, Eq, Structural)]
pub enum BinaryOperator {
    Add,
    Substract,
    Multiply,
    Divide,
    Modulo,
}

/// A symbolic dice request: roll `nb_dices` independent dice with `nb_faces`
/// faces each.  `nb_dices == 0` is allowed (it rolls nothing); `nb_faces == 0`
/// is invalid and is rejected by the evaluator before any sampling.
#[derive(Debug, Clone, Copy, PartialEq, Eq, Structural)]
pub struct Dices {
    pub nb_dices: u32,
    pub nb_faces: u32,
}

/// An expression tree, parameterized by the dice payload `T`:
/// `Dices` before evaluation, `Vec<u32>` (one rolled value per die) after.
#[derive(Debug, PartialEq, Eq)]
pub enum Expr<T> {
    Dices(T),
    Integer(u32),
    UnOp { op: UnaryOperator, exp: Box<Expr<T>> },
    BinOp { lhs: Box<Expr<T>>, op: BinaryOperator, rhs: Box<Expr<T>> },
}

/// Every dice node of the symbolic tree has at least one face, so each die
/// can be sampled from the non-empty range `[1, faces]`.
pub open spec fn dices_valid(e: Expr<Dices>) -> bool
    decreases e,
{
    match e {
        Expr::Dices(d) => d.nb_faces >= 1,
        Expr::Integer(_) => true,
        Expr::UnOp { exp, .. } => dices_valid(*exp),
        Expr::BinOp { lhs, rhs, .. } => dices_valid(*lhs) && dices_valid(*rhs),
    }
}

/// The concrete tree `c` is a possible outcome of evaluating the symbolic
/// tree `s`: same tree structure, same operators, same integer literals, and
/// every dice node with spec `NdM` carries exactly `N` values, each in
/// `[1, M]`, in roll order.
pub open spec fn rolled_from(c: Expr<Vec<u32>>, s: Expr<Dices>) -> bool
    decreases s,
{
    match (c, s) {
        (Expr::Dices(rolls), Expr::Dices(d)) => rolls@.len() == d.nb_dices && (forall|i: int|
            0 <= i < rolls@.len() ==> 1 <= #[trigger] rolls@[i] <= d.nb_faces),
        (Expr::Integer(cn), Expr::Integer(sn)) => cn == sn,
        (Expr::UnOp { op: co, exp: ce }, Expr::UnOp { op: so, exp: se }) => co == so
            && rolled_from(*ce, *se),
        (Expr::BinOp { lhs: cl, op: co, rhs: cr }, Expr::BinOp { lhs: sl, op: so, rhs: sr }) => co
            == so && rolled_from(*cl, *sl) && rolled_from(*cr, *sr),
        _ => false,
    }
}

/// Two concrete trees are structurally isomorphic: same tree structure, same
/// operators, same integer literals, and the same number of rolls at every
/// dice node -- though not necessarily the same rolled values.
pub open spec fn same_shape(a: Expr<Vec<u32>>, b: Expr<Vec<u32>>) -> bool
    decreases a,
{
    match (a, b) {
        (Expr::Dices(ra), Expr::Dices(rb)) => ra@.len() == rb@.len(),
        (Expr::Integer(na), Expr::Integer(nb)) => na == nb,
        (Expr::UnOp { op: oa, exp: ea }, Expr::UnOp { op: ob, exp: eb }) => oa == ob
            && same_shape(*ea, *eb),
        (Expr::BinOp { lhs: la, op: oa, rhs: ra }, Expr::BinOp { lhs: lb, op: ob, rhs: rb }) => oa
            == ob && same_shape(*la, *lb) && same_shape(*ra, *rb),
        _ => false,
    }
}

/// Re-evaluating one symbolic tree several times always yields structurally
/// isomorphic concrete trees: any two outcomes of the same symbolic tree have
/// the same shape, even though the rolled values are independent.
pub proof fn lemma_rerolls_isomorphic(c1: Expr<Vec<u32>>, c2: Expr<Vec<u32>>, s: Expr<Dices>)
    requires
        rolled_from(c1, s),
        rolled_from(c2, s),
    ensures
        same_shape(c1, c2),
    decreases s,
{
    match (c1, c2, s) {
        (
            Expr::UnOp { exp: e1, .. },
            Expr::UnOp { exp: e2, .. },
            Expr::UnOp { exp: se, .. },
        ) => {
            lemma_rerolls_isomorphic(*e1, *e2, *se);
        },
        (
            Expr::BinOp { lhs: l1, rhs: r1, .. },
            Expr::BinOp { lhs: l2, rhs: r2, .. },
            Expr::BinOp { lhs: sl, rhs: sr, .. },
        ) => {
            lemma_rerolls_isomorphic(*l1, *l2, *sl);
            lemma_rerolls_isomorphic(*r1, *r2, *sr);
        },
        _ => {},
    }
}

} // verus!
