//! The evaluator: from a symbolic tree to a concrete (rolled) tree.
//!
//! Evaluation walks the tree in post-order, left to right.  Every dice node
//! `NdM` is replaced by `N` values sampled independently and uniformly from
//! `[1, M]`, and each sampled value is handed to the session recording
//! adapter the moment it is drawn, in roll order.  A dice spec with zero
//! faces is rejected before any sampling.  A recording failure is never
//! fatal: the roll stands and evaluation continues.  Re-evaluating the same
//! symbolic tree draws fresh, independent samples each time.

use rand::Rng;
use vstd::prelude::*;

use crate::ast::{Dices, Expr, dices_valid, rolled_from};
use crate::errors::RollError;
use crate::record::{Roll, RollRecorder, lemma_prefix_push, lemma_prefix_trans};

verus! {

/// The records that evaluating `s` into `c` hands to the recording adapter:
/// one per individual die, in roll order (post-order, left to right).
pub open spec fn roll_records(
    c: Expr<Vec<u32>>,
    s: Expr<Dices>,
    user_id: u64,
    timestamp: i64,
) -> Seq<Roll>
    decreases s,
{
    match (c, s) {
        (Expr::Dices(rolls), Expr::Dices(d)) => Seq::new(
            rolls@.len(),
            |i: int| Roll { user_id, result: rolls@[i], sides: d.nb_faces, timestamp },
        ),
        (Expr::UnOp { exp: ce, .. }, Expr::UnOp { exp: se, .. }) => roll_records(
            *ce,
            *se,
            user_id,
            timestamp,
        ),
        (Expr::BinOp { lhs: cl, rhs: cr, .. }, Expr::BinOp { lhs: sl, rhs: sr, .. }) => roll_records(
            *cl,
            *sl,
            user_id,
            timestamp,
        ) + roll_records(*cr, *sr, user_id, timestamp),
        _ => Seq::empty(),
    }
}

/// Relies on `rand::thread_rng` and `rand::Rng::gen_range`: a uniform,
/// independently drawn sample from the closed range `1..=faces`.  The range
/// is non-empty because `faces >= 1`, so `gen_range` cannot panic, and its
/// result always lies within the range.
#[verifier::external_body]
fn sample_roll(faces: u32) -> (r: u32)
    requires
        faces >= 1,
    ensures
        1 <= r <= faces,
{
    rand::thread_rng().gen_range(1..=faces)
}

impl Expr<Dices> {
    /// Whether every dice node of this tree has at least one face.
    pub fn check_valid(&self) -> (b: bool)
        ensures
            b == dices_valid(*self),
        decreases *self,
    {
        match self {
            Expr::Dices(d) => d.nb_faces >= 1,
            Expr::Integer(_) => true,
            Expr::UnOp { exp, .. } => exp.check_valid(),
            Expr::BinOp { lhs, rhs, .. } => lhs.check_valid() && rhs.check_valid(),
        }
    }

    /// Roll every dice node of a valid tree, handing each sampled value to
    /// the recorder as it is drawn.
    fn roll_tree<R: RollRecorder>(&self, user_id: u64, timestamp: i64, recorder: &mut R) -> (c:
        Expr<Vec<u32>>)
        requires
            dices_valid(*self),
        ensures
            rolled_from(c, *self),
            old(recorder).records().is_prefix_of(final(recorder).records()),
            old(recorder).infallible() ==> final(recorder).infallible() && final(recorder).records() == old(recorder).records() + roll_records(c, *self, user_id, timestamp),
        decreases *self,
    {
        match self {
            Expr::Dices(d) => {
                let mut rolls: Vec<u32> = Vec::new();
                let mut k: u32 = 0;
                proof {
                    assert(d.nb_faces >= 1);
                }
                while k < d.nb_dices
                    invariant
                        d.nb_faces >= 1,
                        k <= d.nb_dices,
                        rolls@.len() == k,
                        forall|i: int| 0 <= i < k ==> 1 <= #[trigger] rolls@[i] <= d.nb_faces,
                        old(recorder).records().is_prefix_of(recorder.records()),
                        old(recorder).infallible() ==> recorder.infallible() && recorder.records()
                            == old(recorder).records() + Seq::new(
                            rolls@.len(),
                            |i: int|
                                Roll {
                                    user_id,
                                    result: rolls@[i],
                                    sides: d.nb_faces,
                                    timestamp,
                                },
                        ),
                    decreases d.nb_dices - k,
                {
                    let ghost prev_records = recorder.records();
                    let v = sample_roll(d.nb_faces);
                    rolls.push(v);
                    let entry = Roll { user_id, result: v, sides: d.nb_faces, timestamp };
                    let _ = recorder.record(entry);
                    proof {
                        lemma_prefix_push(prev_records, entry);
                        if recorder.records() == prev_records.push(entry) {
                            lemma_prefix_trans(
                                old(recorder).records(),
                                prev_records,
                                recorder.records(),
                            );
                        }
                        if old(recorder).infallible() {
                            assert(recorder.records() == prev_records.push(entry));
                            assert(old(recorder).records() + Seq::new(
                                rolls@.len(),
                                |i: int|
                                    Roll {
                                        user_id,
                                        result: rolls@[i],
                                        sides: d.nb_faces,
                                        timestamp,
                                    },
                            ) =~= prev_records.push(entry));
                        }
                    }
                    k = k + 1;
                }
                proof {
                    let c = Expr::<Vec<u32>>::Dices(rolls);
                    assert(roll_records(c, *self, user_id, timestamp) =~= Seq::new(
                        rolls@.len(),
                        |i: int|
                            Roll { user_id, result: rolls@[i], sides: d.nb_faces, timestamp },
                    ));
                }
                Expr::Dices(rolls)
            },
            Expr::Integer(n) => {
                proof {
                    assert(old(recorder).records().is_prefix_of(recorder.records()));
                    if old(recorder).infallible() {
                        assert(old(recorder).records() + Seq::<Roll>::empty() =~= old(recorder).records());
                    }
                }
                Expr::Integer(*n)
            },
            Expr::UnOp { op, exp } => {
                let ce = exp.roll_tree(user_id, timestamp, recorder);
                Expr::UnOp { op: *op, exp: Box::new(ce) }
            },
            Expr::BinOp { lhs, op, rhs } => {
                let cl = lhs.roll_tree(user_id, timestamp, recorder);
                let ghost mid = recorder.records();
                let cr = rhs.roll_tree(user_id, timestamp, recorder);
                proof {
                    lemma_prefix_trans(
                        old(recorder).records(),
                        mid,
                        recorder.records(),
                    );
                    if old(recorder).infallible() {
                        assert(old(recorder).records() + (roll_records(
                            cl,
                            **lhs,
                            user_id,
                            timestamp,
                        ) + roll_records(cr, **rhs, user_id, timestamp)) =~= (old(recorder).records() + roll_records(cl, **lhs, user_id, timestamp)) + roll_records(
                            cr,
                            **rhs,
                            user_id,
                            timestamp,
                        ));
                    }
                }
                Expr::BinOp { lhs: Box::new(cl), op: *op, rhs: Box::new(cr) }
            },
        }
    }

    /// Evaluate the symbolic tree.  Every dice spec is checked first: a
    /// zero-faces spec surfaces `InvalidDice` before any die is sampled and
    /// before anything is recorded.  On a valid tree, the result is a
    /// concrete tree rolled from this one, and one record per die has been
    /// handed to the recorder, in roll order.
    pub fn eval<R: RollRecorder>(&self, user_id: u64, timestamp: i64, recorder: &mut R) -> (r:
        Result<Expr<Vec<u32>>, RollError>)
        ensures
            r is Ok <==> dices_valid(*self),
            r is Ok ==> rolled_from(r->Ok_0, *self),
            !dices_valid(*self) ==> r == Err::<Expr<Vec<u32>>, RollError>(RollError::InvalidDice)
                && *final(recorder) == *old(recorder),
            old(recorder).records().is_prefix_of(final(recorder).records()),
            dices_valid(*self) && old(recorder).infallible() ==> final(recorder).infallible()
                && final(recorder).records() == old(recorder).records() + roll_records(
                r->Ok_0,
                *self,
                user_id,
                timestamp,
            ),
    {
        if !self.check_valid() {
            proof {
                assert(recorder.records() =~= recorder.records().subrange(
                    0,
                    recorder.records().len() as int,
                ));
            }
            return Err(RollError::InvalidDice);
        }
        Ok(self.roll_tree(user_id, timestamp, recorder))
    }
}

/// Evaluating a single dice node `NdM` with `M >= 1` yields exactly `N`
/// values, each in `[1, M]`.
pub proof fn lemma_dice_outcome(c: Expr<Vec<u32>>, d: Dices)
    requires
        rolled_from(c, Expr::Dices(d)),
    ensures
        c is Dices,
        c->Dices_0@.len() == d.nb_dices,
        forall|i: int| 0 <= i < c->Dices_0@.len() ==> 1 <= #[trigger] c->Dices_0@[i] <= d.nb_faces,
{
}

} // verus!
