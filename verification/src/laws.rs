//! Cross-component laws: facts that tie the evaluator, the renderer and the
//! value computation together.

use vstd::prelude::*;

use crate::ast::{Dices, Expr, rolled_from};
use crate::eval::lemma_dice_outcome;
use crate::errors::RollError;
use crate::render::{dec_str, spec_render};
use crate::value::{spec_value, sum_rolls};

verus! {

/// A single die `1dM` always comes out as one bracketed roll `[x]` with `x`
/// in `[1, M]`, rendering as `[` then the digits of `x` then `]`, and its
/// value is exactly `x`.
pub proof fn lemma_single_die(c: Expr<Vec<u32>>, faces: u32)
    requires
        rolled_from(c, Expr::Dices(Dices { nb_dices: 1, nb_faces: faces })),
    ensures
        c is Dices,
        c->Dices_0@.len() == 1,
        1 <= c->Dices_0@[0] <= faces,
        spec_render(c) == seq!['['] + dec_str(c->Dices_0@[0] as int) + seq![']'],
        spec_value(c) == Ok::<i64, RollError>(c->Dices_0@[0] as i64),
{
    lemma_dice_outcome(c, Dices { nb_dices: 1, nb_faces: faces });
    let rolls = c->Dices_0;
    assert(rolls@.len() == 1);
    assert(rolls@.drop_last() =~= Seq::<u32>::empty());
    assert(sum_rolls(Seq::<u32>::empty()) == 0);
    assert(sum_rolls(rolls@) == rolls@[0]);
}

} // verus!
