use vstd::prelude::*;
use crate::engine::eval_heuristics::TT_AGE_FACTOR;
use crate::engine::search::TT;
use crate::engine::search_heuristics::MATE_THRESHOLD;
use std::sync::atomic::{AtomicU64, Ordering};

verus! {

// tt slot is (full 64-bit zobrist key, packed data word).
// packed data schema (from msb to lsb):
// score: 16 bits
// depth: 6 bits (maxes out at 64)
// flag: 2 bits (0 = exact, 1 = lower_bound, 2 = upper_bound)
// best move: 16 bits
// age: 8 bits (real move number this entry was written on, wraps at 256)
pub const TT_EXACT_FLAG: u8 = 0;
pub const TT_LOWERB_FLAG: u8 = 1;
pub const TT_UPPERB_FLAG: u8 = 2;

/// How many moves old an entry written at `entry_age` is at `current_age` (ages wrap at 256).
pub open spec fn age_gap(entry_age: u8, current_age: u8) -> int {
    (current_age as int - entry_age as int + 256) % 256
}

/// Higher is more relevant. depth alone when age matches (age_diff == 0); penalized per move
/// of staleness otherwise.
pub fn relevance_score(depth: u8, entry_age: u8, current_age: u8) -> (r: i16)
    ensures
        r == depth as int - TT_AGE_FACTOR as int * age_gap(entry_age, current_age),
{
    let gap: u8 = current_age.wrapping_sub(entry_age);
    depth as i16 - (gap as i16) * TT_AGE_FACTOR
}

/// Converts a root-relative mate score into a ply-independent (from this node) score before
/// storing in the tt: mate scores move `ply` away from zero, other scores stay.
pub fn to_tt_score(score: i16, ply: u8) -> (r: i16)
    requires
        score > MATE_THRESHOLD ==> score + ply <= i16::MAX,
        score < -MATE_THRESHOLD ==> score - ply >= i16::MIN,
    ensures
        r == (if score > MATE_THRESHOLD {
            score + ply
        } else if score < -MATE_THRESHOLD {
            score - ply
        } else {
            score as int
        }),
{
    if score > MATE_THRESHOLD {
        score + ply as i16
    } else if score < -MATE_THRESHOLD {
        score - ply as i16
    } else {
        score
    }
}

/// A stored score read back at `ply`: mate scores move `ply` towards zero, other scores stay.
pub open spec fn score_from_tt(score: i16, ply: u8) -> int {
    if score > MATE_THRESHOLD {
        score - ply
    } else if score < -MATE_THRESHOLD {
        score + ply
    } else {
        score as int
    }
}

/// Converts a ply-independent (from this node) mate score retrieved from the tt back into a
/// root-relative score: mate scores move `ply` towards zero, other scores stay.
pub fn from_tt_score(score: i16, ply: u8) -> (r: i16)
    ensures
        r == score_from_tt(score, ply),
{
    if score > MATE_THRESHOLD {
        score - ply as i16
    } else if score < -MATE_THRESHOLD {
        score + ply as i16
    } else {
        score
    }
}

/// Storing a score and reading it back at the same ply gives the score that was stored.
pub proof fn law_tt_score_roundtrip(score: i16, ply: u8)
    requires
        score > MATE_THRESHOLD ==> score + ply <= i16::MAX,
        score < -MATE_THRESHOLD ==> score - ply >= i16::MIN,
    ensures
        ({
            let stored: int = if score > MATE_THRESHOLD {
                score + ply
            } else if score < -MATE_THRESHOLD {
                score - ply
            } else {
                score as int
            };
            (if stored > MATE_THRESHOLD {
                stored - ply
            } else if stored < -MATE_THRESHOLD {
                stored + ply
            } else {
                stored
            }) == score
        }),
{
}

/// The packed data word of a table entry.
pub open spec fn tt_word(score: i16, depth: u8, flag: u8, best_move: u16, age: u8) -> u64 {
    ((score as u16 as u64) << 32u64) | ((depth as u64) << 26u64) | ((flag as u64) << 24u64) | ((
    best_move as u64) << 8u64) | (age as u64)
}

/// The fields (score, depth, flag, best move, age) read back from a packed data word.
pub open spec fn tt_fields(v: u64) -> (i16, u8, u8, u16, u8) {
    (
        (v >> 32u64) as i16,
        ((v >> 26u64) as u8) & 0x3F,
        ((v >> 24u64) as u8) & 0x3,
        (v >> 8u64) as u16,
        v as u8,
    )
}

pub fn encode_tt_entry(score: i16, depth: u8, flag: u8, best_move: u16, age: u8) -> (r: u64)
    ensures
        r == tt_word(score, depth, flag, best_move, age),
{
    let mut result: u64 = 0;

    result |= (score as u16 as u64) << 32;
    result |= (depth as u64) << 26;
    result |= (flag as u64) << 24;
    result |= (best_move as u64) << 8;
    result |= age as u64;
    proof {
        let s: u64 = score as u16 as u64;
        let d: u64 = depth as u64;
        let f: u64 = flag as u64;
        let m: u64 = best_move as u64;
        let a: u64 = age as u64;
        assert(0u64 | (s << 32u64) == s << 32u64) by (bit_vector);
    }

    return result;
}

pub fn decode_tt_entry(entry_value: u64) -> (r: (i16, u8, u8, u16, u8))
    ensures
        r == tt_fields(entry_value),
        r.1 < 64,
        r.2 < 4,
{
    let score: i16 = (entry_value >> 32) as i16;
    let depth: u8 = ((entry_value >> 26) as u8) & 0x3F;
    let flag: u8 = ((entry_value >> 24) as u8) & 0x3;
    let best_move: u16 = (entry_value >> 8) as u16;
    let age: u8 = entry_value as u8;
    proof {
        let d: u8 = (entry_value >> 26u64) as u8;
        let f: u8 = (entry_value >> 24u64) as u8;
        assert(d & 0x3F < 64 && f & 0x3 < 4) by (bit_vector);
    }

    return (score, depth, flag, best_move, age);
}

/// Decoding an encoded entry gives back every field, as long as the depth fits its six bits
/// and the flag its two.
pub proof fn law_tt_entry_roundtrip(score: i16, depth: u8, flag: u8, best_move: u16, age: u8)
    requires
        depth < 64,
        flag < 4,
    ensures
        tt_fields(tt_word(score, depth, flag, best_move, age)) == (score, depth, flag, best_move, age),
{
    let v: u64 = tt_word(score, depth, flag, best_move, age);
    assert((v >> 32u64) as i16 == score && ((v >> 26u64) as u8) & 0x3F == depth && ((v >> 24u64)
        as u8) & 0x3 == flag && (v >> 8u64) as u16 == best_move && v as u8 == age) by (bit_vector)
        requires
            v == ((score as u16 as u64) << 32u64) | ((depth as u64) << 26u64) | ((flag as u64)
                << 24u64) | ((best_move as u64) << 8u64) | (age as u64),
            depth < 64,
            flag < 4,
    ;
}


/// An entry of depth `depth`, flag `flag` and age `age` is stored over the data word
/// `existing`: when the existing entry's relevance (its depth less its staleness penalty) is
/// below `depth`, or equal to it while the new entry is exact and the existing one is not.
pub open spec fn tt_replaces(existing: u64, depth: u8, flag: u8, age: u8) -> bool {
    let old = tt_fields(existing);
    let relevance: int = old.1 as int - TT_AGE_FACTOR as int * age_gap(old.4, age);
    relevance < depth as int || (relevance == depth as int && flag == TT_EXACT_FLAG && old.2
        != TT_EXACT_FLAG)
}

/// Whether `update_tt` overwrites a slot holding the data word `existing_data`.
pub fn tt_should_replace(existing_data: u64, depth: u8, flag: u8, age: u8) -> (r: bool)
    ensures
        r == tt_replaces(existing_data, depth, flag, age),
{
    let existing_entry: (i16, u8, u8, u16, u8) = decode_tt_entry(existing_data);
    let existing_relevance: i16 = relevance_score(existing_entry.1, existing_entry.4, age);

    if existing_relevance > depth as i16 {
        false
    } else if existing_relevance == depth as i16 {
        // if the existing entry is not exact but ours is
        flag == 0 && existing_entry.2 != 0
    } else {
        true
    }
}

/// The slot that a key maps to.
pub open spec fn slot_of(tt: &TT, zobrist_key: u64) -> int {
    zobrist_key as int % tt.slot_count() as int
}

fn slot_index(tt: &TT, zobrist_key: u64) -> (idx: usize)
    requires
        tt.slot_count() > 0,
    ensures
        idx == slot_of(tt, zobrist_key),
        idx < tt.slot_count(),
{
    let n: usize = tt.entries.len();
    (zobrist_key % (n as u64)) as usize
}

/// Reads the key and the data word of a slot; other searches may write the table at any time,
/// so nothing is known of what comes back.
fn load_slot(tt: &TT, idx: usize) -> (u64, u64)
    requires
        idx < tt.slot_count(),
{
    let slot: &(AtomicU64, AtomicU64) = &tt.entries[idx];
    let key: u64 = slot.0.load(Ordering::Relaxed);
    let data: u64 = slot.1.load(Ordering::Relaxed);
    (key, data)
}

fn store_slot(tt: &TT, idx: usize, key: u64, data: u64)
    requires
        idx < tt.slot_count(),
{
    let slot: &(AtomicU64, AtomicU64) = &tt.entries[idx];
    slot.0.store(key, Ordering::Relaxed);
    slot.1.store(data, Ordering::Relaxed);
}

/// Writes an entry for `zobrist_key` into its slot when `tt_replaces` says the slot's current
/// data word should give way. Returns the data word it found in the slot and, when it wrote,
/// the (key, data word) pair it stored. The table is shared with other searches, so what the
/// slot holds afterwards is not stated.
pub fn update_tt(
    tt: &mut TT,
    zobrist_key: u64,
    score: i16,
    depth: u8,
    flag: u8,
    best_move: u16,
    age: u8,
) -> (r: (u64, Option<(u64, u64)>))
    requires
        old(tt).slot_count() > 0,
    ensures
        *final(tt) == *old(tt),
        r.1 == (if tt_replaces(r.0, depth, flag, age) {
            Some((zobrist_key, tt_word(score, depth, flag, best_move, age)))
        } else {
            None::<(u64, u64)>
        }),
{
    let zobrist_index: usize = slot_index(tt, zobrist_key);
    let entry_value: u64 = encode_tt_entry(score, depth, flag, best_move, age);

    let existing_data: u64 = load_slot(tt, zobrist_index).1;
    if tt_should_replace(existing_data, depth, flag, age) {
        store_slot(tt, zobrist_index, zobrist_key, entry_value);
        (existing_data, Some((zobrist_key, entry_value)))
    } else {
        (existing_data, None)
    }
}

/// Staleness costs a stored entry its place: an entry from an earlier move (at least one
/// move old at `age`) gives way to a new entry of its own depth, and to a deeper one; an
/// entry from the current move gives way to a deeper entry but never to a shallower one; each
/// move of age costs an entry TT_AGE_FACTOR plies of depth, so an entry `g` moves old keeps
/// its place against a new entry exactly as a fresh entry `TT_AGE_FACTOR * g` plies shallower
/// would.
pub proof fn law_stale_entries_give_way(existing: u64, depth: u8, flag: u8, age: u8)
    ensures
        ({
            let old = tt_fields(existing);
            let g = age_gap(old.4, age);
            &&& (g >= 1 && old.1 <= depth) ==> tt_replaces(existing, depth, flag, age)
            &&& (g == 0 && old.1 < depth) ==> tt_replaces(existing, depth, flag, age)
            &&& (g == 0 && old.1 > depth) ==> !tt_replaces(existing, depth, flag, age)
            &&& forall|fresh: u64|
                #![trigger tt_replaces(fresh, depth, flag, age)]
                (tt_fields(fresh).4 == age && tt_fields(fresh).2 == old.2 && tt_fields(fresh).1
                    == old.1 - TT_AGE_FACTOR * g) ==> tt_replaces(fresh, depth, flag, age)
                    == tt_replaces(existing, depth, flag, age)
        }),
{
}

/// What a slot read gives: the stored key and the decoded fields of the stored data word.
pub open spec fn slot_read(key: u64, data: u64) -> (u64, i16, u8, u8, u16, u8) {
    let f = tt_fields(data);
    (key, f.0, f.1, f.2, f.3, f.4)
}

/// Reads the slot of `zobrist_key`: the stored key and the decoded stored entry, whatever
/// other searches last wrote there.
pub fn retrieve_tt(tt: &mut TT, zobrist_key: u64) -> (r: (u64, i16, u8, u8, u16, u8))
    requires
        old(tt).slot_count() > 0,
    ensures
        *final(tt) == *old(tt),
        exists|key: u64, data: u64| r == slot_read(key, data),
        r.2 < 64,
        r.3 < 4,
{
    let zobrist_index: usize = slot_index(tt, zobrist_key);
    let (stored_key, tt_value): (u64, u64) = load_slot(tt, zobrist_index);
    let (score, depth, flag, best_move, age): (i16, u8, u8, u16, u8) = decode_tt_entry(tt_value);
    proof {
        assert((stored_key, score, depth, flag, best_move, age) == slot_read(stored_key, tt_value));
    }
    return (stored_key, score, depth, flag, best_move, age);
}

/// returns None if zobrist keys don't match.
pub fn retrieve_tt_or_none(tt: &mut TT, zobrist_key: u64) -> (r: Option<(u64, i16, u8, u8, u16, u8)>)
    requires
        old(tt).slot_count() > 0,
    ensures
        *final(tt) == *old(tt),
        exists|key: u64, data: u64|
            r == (if key == zobrist_key {
                Some(slot_read(key, data))
            } else {
                None
            }),
        r matches Some(e) ==> e.0 == zobrist_key && e.2 < 64 && e.3 < 4,
{
    let tt_entry: (u64, i16, u8, u8, u16, u8) = retrieve_tt(tt, zobrist_key);
    entry_for_key(tt_entry, zobrist_key)
}

/// A slot read `e` is a hit for `zobrist_key` exactly when its stored key is that key.
pub fn entry_for_key(e: (u64, i16, u8, u8, u16, u8), zobrist_key: u64) -> (r: Option<
    (u64, i16, u8, u8, u16, u8),
>)
    ensures
        r == (if e.0 == zobrist_key {
            Some(e)
        } else {
            None
        }),
{
    if e.0 != zobrist_key {
        None
    } else {
        Some(e)
    }
}

/// Replacement favours depth and freshness: a deeper new entry replaces a stored one whenever
/// a shallower one would, and a staler stored entry (same depth and flag, at least as many
/// moves old) gives way whenever a fresher one would.
pub proof fn law_replacement_prefers_deep_and_fresh(
    existing: u64,
    staler: u64,
    depth: u8,
    deeper: u8,
    flag: u8,
    age: u8,
)
    requires
        depth <= deeper,
    ensures
        tt_replaces(existing, depth, flag, age) ==> tt_replaces(existing, deeper, flag, age),
        (tt_fields(staler).1 == tt_fields(existing).1 && tt_fields(staler).2 == tt_fields(
            existing,
        ).2 && age_gap(tt_fields(staler).4, age) >= age_gap(tt_fields(existing).4, age)
            && tt_replaces(existing, depth, flag, age)) ==> tt_replaces(staler, depth, flag, age),
{
}

} // verus!
