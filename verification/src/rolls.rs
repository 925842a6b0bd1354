//! The top of the engine: one call from raw text to rolled dice, display
//! string and total.
//!
//! `roll` parses the input, evaluates it once (recording every die through
//! the given adapter) and returns the concrete tree with its display string
//! and total.  `roll_twice` evaluates the same parsed tree several times:
//! each evaluation draws fresh, independent samples, and all outcomes are
//! structurally isomorphic.

use vstd::prelude::*;

use crate::ast::{Dices, Expr, dices_valid, lemma_rerolls_isomorphic, rolled_from, same_shape};
use crate::errors::RollError;
use crate::eval::roll_records;
use crate::parser::{parse_text, spec_parse_text};
use crate::record::{RollRecorder, lemma_prefix_refl, lemma_prefix_trans};
use crate::render::spec_render;
use crate::value::{lemma_value_error_is_arithmetic, spec_value};

verus! {

/// What a successful dice-roll submission returns.
#[derive(Debug)]
pub struct RollOutput {
    /// The concrete tree, with every dice node replaced by its rolls.
    pub rolled: Expr<Vec<u32>>,
    /// The display string of the concrete tree.
    pub display: String,
    /// The total value of the concrete tree.
    pub total: i64,
}

/// What `roll` promises of one output, given the parsed symbolic tree `s`:
/// the concrete tree was rolled from `s`, the display string renders it,
/// and the total is its value.
pub open spec fn output_ok(out: RollOutput, s: Expr<Dices>) -> bool {
    &&& rolled_from(out.rolled, s)
    &&& out.display@ == spec_render(out.rolled)
    &&& spec_value(out.rolled) == Ok::<i64, RollError>(out.total)
}

/// Submit one dice-roll expression: parse it, roll it once, and fold the
/// outcome into a display string and a total.  Parse failures, a zero-faces
/// dice spec (rejected before any sampling or recording), and arithmetic
/// failures on the rolled values are each surfaced as their typed error.
pub fn roll<R: RollRecorder>(input: &str, user_id: u64, timestamp: i64, recorder: &mut R) -> (r:
    Result<RollOutput, RollError>)
    ensures
        old(recorder).records().is_prefix_of(final(recorder).records()),
        spec_parse_text(input@) is Err ==> r == Err::<RollOutput, RollError>(
            spec_parse_text(input@)->Err_0,
        ) && *final(recorder) == *old(recorder),
        spec_parse_text(input@) matches Ok(s) ==> {
            &&& !dices_valid(s) ==> r == Err::<RollOutput, RollError>(RollError::InvalidDice)
                && *final(recorder) == *old(recorder)
            &&& (dices_valid(s) && r is Ok) ==> output_ok(r->Ok_0, s) && (old(
                recorder,
            ).infallible() ==> final(recorder).records() == old(recorder).records()
                + roll_records(r->Ok_0.rolled, s, user_id, timestamp))
            &&& (dices_valid(s) && r is Err) ==> exists|c: Expr<Vec<u32>>|
                rolled_from(c, s) && spec_value(c) == Err::<i64, RollError>(r->Err_0) && (old(
                    recorder,
                ).infallible() ==> final(recorder).records() == old(recorder).records()
                    + roll_records(c, s, user_id, timestamp))
        },
{
    let exp = match parse_text(input) {
        Ok(e) => e,
        Err(e) => {
            proof {
                lemma_prefix_refl(old(recorder).records());
            }
            return Err(e);
        },
    };
    let ast = match exp.eval(user_id, timestamp, recorder) {
        Ok(a) => a,
        Err(e) => {
            return Err(e);
        },
    };
    let total = match ast.value() {
        Ok(t) => t,
        Err(e) => {
            proof {
                assert(rolled_from(ast, exp) && spec_value(ast) == Err::<i64, RollError>(e));
            }
            return Err(e);
        },
    };
    let display = ast.render();
    Ok(RollOutput { rolled: ast, display, total })
}

/// The concatenated record sequences of a run of outputs, in order: what a
/// recorder that never fails has appended after evaluating the same symbolic
/// tree once per output.
pub open spec fn outputs_records(
    outs: Seq<RollOutput>,
    s: Expr<Dices>,
    user_id: u64,
    timestamp: i64,
) -> Seq<crate::record::Roll>
    decreases outs.len(),
{
    if outs.len() == 0 {
        Seq::empty()
    } else {
        outputs_records(outs.drop_last(), s, user_id, timestamp) + roll_records(
            outs.last().rolled,
            s,
            user_id,
            timestamp,
        )
    }
}

/// Submit one dice-roll expression and evaluate it `count` times: the same
/// symbolic tree is re-rolled with fresh, independent samples each time, so
/// all outcomes have the same shape, while each carries its own rolls,
/// display string and total.  The first arithmetic failure aborts the run.
pub fn roll_twice<R: RollRecorder>(
    input: &str,
    count: u32,
    user_id: u64,
    timestamp: i64,
    recorder: &mut R,
) -> (r: Result<Vec<RollOutput>, RollError>)
    ensures
        old(recorder).records().is_prefix_of(final(recorder).records()),
        spec_parse_text(input@) is Err ==> r == Err::<Vec<RollOutput>, RollError>(
            spec_parse_text(input@)->Err_0,
        ),
        spec_parse_text(input@) matches Ok(s) ==> {
            &&& !dices_valid(s) ==> r == Err::<Vec<RollOutput>, RollError>(RollError::InvalidDice)
            &&& (dices_valid(s) && r is Ok) ==> r->Ok_0@.len() == count && (forall|i: int|
                0 <= i < r->Ok_0@.len() ==> output_ok(#[trigger] r->Ok_0@[i], s)) && (forall|
                a: int,
                b: int,
            |
                0 <= a < r->Ok_0@.len() && 0 <= b < r->Ok_0@.len() ==> #[trigger] same_shape(
                    r->Ok_0@[a].rolled,
                    r->Ok_0@[b].rolled,
                ))
            &&& (dices_valid(s) && r is Ok && old(recorder).infallible()) ==> final(
                recorder
            ).records() == old(recorder).records() + outputs_records(
                r->Ok_0@,
                s,
                user_id,
                timestamp,
            )
            &&& (dices_valid(s) && r is Err) ==> r->Err_0 is ArithmeticError && (exists|
                c: Expr<Vec<u32>>,
            | rolled_from(c, s) && spec_value(c) == Err::<i64, RollError>(r->Err_0))
        },
{
    let exp = match parse_text(input) {
        Ok(e) => e,
        Err(e) => {
            proof {
                lemma_prefix_refl(old(recorder).records());
            }
            return Err(e);
        },
    };
    if !exp.check_valid() {
        proof {
            lemma_prefix_refl(old(recorder).records());
        }
        return Err(RollError::InvalidDice);
    }
    let mut outs: Vec<RollOutput> = Vec::new();
    let mut i: u32 = 0;
    proof {
        lemma_prefix_refl(old(recorder).records());
        if old(recorder).infallible() {
            assert(old(recorder).records() + outputs_records(outs@, exp, user_id, timestamp)
                =~= old(recorder).records());
        }
    }
    while i < count
        invariant
            i <= count,
            outs@.len() == i,
            spec_parse_text(input@) == Ok::<Expr<Dices>, RollError>(exp),
            dices_valid(exp),
            forall|t: int| 0 <= t < i ==> output_ok(#[trigger] outs@[t], exp),
            forall|a: int, b: int|
                0 <= a < i && 0 <= b < i ==> #[trigger] same_shape(
                    outs@[a].rolled,
                    outs@[b].rolled,
                ),
            old(recorder).records().is_prefix_of(recorder.records()),
            old(recorder).infallible() ==> recorder.infallible() && recorder.records() == old(
                recorder
            ).records() + outputs_records(outs@, exp, user_id, timestamp),
        decreases count - i,
    {
        let ghost mid = recorder.records();
        // The tree was checked valid above, so this evaluation cannot fail.
        let ast = match exp.eval(user_id, timestamp, recorder) {
            Ok(a) => a,
            Err(e) => {
                proof {
                    assert(false);
                }
                return Err(e);
            },
        };
        proof {
            lemma_prefix_trans(old(recorder).records(), mid, recorder.records());
        }
        let total = match ast.value() {
            Ok(t) => t,
            Err(e) => {
                proof {
                    lemma_value_error_is_arithmetic(ast);
                    assert(rolled_from(ast, exp) && spec_value(ast) == Err::<i64, RollError>(e));
                }
                return Err(e);
            },
        };
        let display = ast.render();
        let ghost outs_before = outs@;
        outs.push(RollOutput { rolled: ast, display, total });
        proof {
            let n = outs@.len();
            assert(outs@[n - 1].rolled == ast);
            if old(recorder).infallible() {
                assert(outs@.drop_last() =~= outs_before);
                assert(outs@.last().rolled == ast);
                assert(recorder.records() =~= old(recorder).records() + (outputs_records(
                    outs_before,
                    exp,
                    user_id,
                    timestamp,
                ) + roll_records(ast, exp, user_id, timestamp)));
                assert(recorder.records() =~= old(recorder).records() + outputs_records(
                    outs@,
                    exp,
                    user_id,
                    timestamp,
                ));
            }
            assert forall|a: int, b: int| 0 <= a < n && 0 <= b < n implies #[trigger] same_shape(
                outs@[a].rolled,
                outs@[b].rolled,
            ) by {
                lemma_rerolls_isomorphic(outs@[a].rolled, outs@[b].rolled, exp);
            }
        }
        i = i + 1;
    }
    Ok(outs)
}

} // verus!
