use vstd::prelude::*;
use arrayvec::ArrayVec;

verus! {

#[verifier::external_type_specification]
#[verifier::external_body]
#[verifier::reject_recursive_types(T)]
pub struct ExArrayVec<T, const CAP: usize>(ArrayVec<T, CAP>);

/// The moves held by a move list, in order.
pub uninterp spec fn move_list(v: ArrayVec<u16, 256>) -> Seq<u16>;

/// The moves held by a principal-variation buffer, in order.
pub uninterp spec fn pv_line(v: ArrayVec<u16, 255>) -> Seq<u16>;

/// The (move, score) pairs held by a scored move list, in order.
pub uninterp spec fn scored_list(v: ArrayVec<(u16, i16), 256>) -> Seq<(u16, i16)>;

/// `ArrayVec::new`: an empty list.
#[verifier::external_body]
pub fn moves_new() -> (v: ArrayVec<u16, 256>)
    ensures
        move_list(v) == Seq::<u16>::empty(),
{
    ArrayVec::new()
}

/// `ArrayVec::push`: appends; it panics on a full list, which `requires` rules out.
#[verifier::external_body]
pub fn moves_push(v: &mut ArrayVec<u16, 256>, mv: u16)
    requires
        move_list(*old(v)).len() < 256,
    ensures
        move_list(*final(v)) == move_list(*old(v)).push(mv),
{
    v.push(mv)
}

/// `ArrayVec::len`: the number of moves, never above the capacity.
#[verifier::external_body]
pub fn moves_len(v: &ArrayVec<u16, 256>) -> (n: usize)
    ensures
        n == move_list(*v).len(),
        n <= 256,
{
    v.len()
}

/// Indexing through the slice that an `ArrayVec` derefs to.
#[verifier::external_body]
pub fn moves_get(v: &ArrayVec<u16, 256>, i: usize) -> (mv: u16)
    requires
        i < move_list(*v).len(),
    ensures
        mv == move_list(*v)[i as int],
{
    v[i]
}

/// `ArrayVec::new`: an empty line.
#[verifier::external_body]
pub fn pv_new() -> (v: ArrayVec<u16, 255>)
    ensures
        pv_line(v) == Seq::<u16>::empty(),
{
    ArrayVec::new()
}

/// `ArrayVec::clear`: removes every move.
#[verifier::external_body]
pub fn pv_clear(v: &mut ArrayVec<u16, 255>)
    ensures
        pv_line(*final(v)) == Seq::<u16>::empty(),
{
    v.clear()
}

/// `ArrayVec::push`: appends; it panics on a full line, which `requires` rules out.
#[verifier::external_body]
pub fn pv_push(v: &mut ArrayVec<u16, 255>, mv: u16)
    requires
        pv_line(*old(v)).len() < 255,
    ensures
        pv_line(*final(v)) == pv_line(*old(v)).push(mv),
{
    v.push(mv)
}

/// `ArrayVec::len`: the number of moves, never above the capacity.
#[verifier::external_body]
pub fn pv_len(v: &ArrayVec<u16, 255>) -> (n: usize)
    ensures
        n == pv_line(*v).len(),
        n <= 255,
{
    v.len()
}

/// Indexing through the slice that an `ArrayVec` derefs to.
#[verifier::external_body]
pub fn pv_get(v: &ArrayVec<u16, 255>, i: usize) -> (mv: u16)
    requires
        i < pv_line(*v).len(),
    ensures
        mv == pv_line(*v)[i as int],
{
    v[i]
}

/// `ArrayVec::clone`: a copy holding the same moves.
#[verifier::external_body]
pub fn pv_clone(v: &ArrayVec<u16, 255>) -> (c: ArrayVec<u16, 255>)
    ensures
        pv_line(c) == pv_line(*v),
{
    v.clone()
}

/// `ArrayVec::new`: an empty list.
#[verifier::external_body]
pub fn scored_new() -> (v: ArrayVec<(u16, i16), 256>)
    ensures
        scored_list(v) == Seq::<(u16, i16)>::empty(),
{
    ArrayVec::new()
}

/// `ArrayVec::push`: appends; it panics on a full list, which `requires` rules out.
#[verifier::external_body]
pub fn scored_push(v: &mut ArrayVec<(u16, i16), 256>, item: (u16, i16))
    requires
        scored_list(*old(v)).len() < 256,
    ensures
        scored_list(*final(v)) == scored_list(*old(v)).push(item),
{
    v.push(item)
}

/// `ArrayVec::len`: the number of entries, never above the capacity.
#[verifier::external_body]
pub fn scored_len(v: &ArrayVec<(u16, i16), 256>) -> (n: usize)
    ensures
        n == scored_list(*v).len(),
        n <= 256,
{
    v.len()
}

/// Indexing through the slice that an `ArrayVec` derefs to.
#[verifier::external_body]
pub fn scored_get(v: &ArrayVec<(u16, i16), 256>, i: usize) -> (item: (u16, i16))
    requires
        i < scored_list(*v).len(),
    ensures
        item == scored_list(*v)[i as int],
{
    v[i]
}

/// `<[T]>::sort_unstable_by_key` with the key `Reverse(score)`: the same entries, highest score
/// first. The sort is unstable, so the order among equal scores is not stated.
#[verifier::external_body]
pub fn sort_by_score_desc(v: &mut ArrayVec<(u16, i16), 256>)
    ensures
        scored_list(*final(v)).to_multiset() == scored_list(*old(v)).to_multiset(),
        scored_list(*final(v)).len() == scored_list(*old(v)).len(),
        forall|i: int, j: int|
            0 <= i < j < scored_list(*final(v)).len() ==> scored_list(*final(v))[i].1
                >= scored_list(*final(v))[j].1,
{
    v.sort_unstable_by_key(|&(_, score)| std::cmp::Reverse(score));
}

} // verus!
