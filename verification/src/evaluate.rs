use vstd::prelude::*;
use rand::prelude::IndexedRandom;

verus! {

/// `IndexedRandom::choose` over the thread-local generator `rand::rng()`: `None` for an empty
/// list, otherwise one of its elements. Which element comes back rests on chance and is not
/// stated; creating the generator panics only if the operating system's random source fails.
#[verifier::external_body]
fn choose_move(moves: &Vec<u16>) -> (r: Option<u16>)
    ensures
        moves@.len() == 0 <==> r is None,
        r matches Some(m) ==> moves@.contains(m),
{
    moves.as_slice().choose(&mut rand::rng()).copied()
}

/// A random mover: picks one of the legal moves at random.
pub fn evaluate(legal_moves: &Vec<u16>) -> (mv: u16)
    requires
        legal_moves@.len() > 0,
    ensures
        legal_moves@.contains(mv),
{
    match choose_move(legal_moves) {
        Some(mv) => mv,
        None => legal_moves[0],
    }
}

} // verus!
