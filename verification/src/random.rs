//! The one source of chance in the game.

use vstd::prelude::*;
use rand::seq::SliceRandom;
use crate::tile::Tile;

verus! {

/// Picks one tile of the pool at random.
///
/// This is `rand::seq::SliceRandom::choose` on the pool as a slice, drawing
/// from the generator that `rand::thread_rng` hands out. Trusted, not proved:
/// the answer is `None` exactly when the pool is empty, and otherwise it is a
/// copy of one of the pool's tiles. Which tile it is differs from call to
/// call, and nothing is claimed about it. `rand::thread_rng` panics where the
/// operating system cannot seed the generator; no contract can rule that out.
#[verifier::external_body]
pub(crate) fn choose_tile(pool: &Vec<Tile>) -> (chosen: Option<Tile>)
    ensures
        chosen is None <==> pool@.len() == 0,
        chosen matches Some(t) ==> pool@.contains(t),
{
    let mut rng = rand::thread_rng();
    pool.choose(&mut rng).copied()
}

} // verus!
