use vstd::prelude::*;
use arrayvec::ArrayVec;
use crate::engine::board::{Board, piece_on};
use crate::engine::eval_heuristics::PIECE_VALUES;
use crate::engine::lists::{
    move_list, scored_list, moves_new, moves_push, moves_len, moves_get, scored_new, scored_push,
    scored_len, scored_get, sort_by_score_desc,
};
use crate::engine::search_heuristics::VICTIM_WEIGHT;
use crate::engine::utils::is_capture;
use crate::engine::utils::moves::capture_flag;

verus! {

broadcast use vstd::seq_lib::group_to_multiset_ensures;

/// A legal move as move ordering reads it: its from and to squares and its move-type flag, as
/// the move encoding decodes them, and whether playing it gives check.
#[derive(PartialEq, Eq, Structural, Clone, Copy, Debug)]
pub struct MoveInfo {
    pub from: u8,
    pub to: u8,
    pub flag: u8,
    pub gives_check: bool,
}

/// How `reorder_moves` files the move at index `j`: 0 the move to front, 1 a capture, 2 a
/// quiet move that gives check, 3 the first killer, 4 the second killer, 5 any other quiet
/// move.
pub open spec fn move_class(
    moves: Seq<u16>,
    decoded: Seq<MoveInfo>,
    best: Option<u16>,
    killers: [Option<u16>; 2],
    j: int,
) -> int {
    if best == Some(moves[j]) {
        0
    } else if capture_flag(decoded[j].flag) {
        1
    } else if decoded[j].gives_check {
        2
    } else if killers[0] == Some(moves[j]) {
        3
    } else if killers[1] == Some(moves[j]) {
        4
    } else {
        5
    }
}

/// MVV-LVA: `VICTIM_WEIGHT * value(victim) - value(aggressor)` of a capture decoded as
/// `[from, to, flag]`; an en-passant capture counts pawn takes pawn.
pub open spec fn capture_score(board: &Board, d: MoveInfo) -> int {
    if (1u64 << (d.to as u64)) == board.en_passant {
        VICTIM_WEIGHT * PIECE_VALUES[0] - PIECE_VALUES[0]
    } else {
        VICTIM_WEIGHT * PIECE_VALUES[piece_on(board, d.to as u64).unwrap() as int]
            - PIECE_VALUES[piece_on(board, d.from as u64).unwrap() as int]
    }
}

/// The captures among the first `n` moves, in list order, each with its MVV-LVA score.
pub open spec fn capture_entries(
    board: &Board,
    moves: Seq<u16>,
    decoded: Seq<MoveInfo>,
    best: Option<u16>,
    killers: [Option<u16>; 2],
    n: int,
) -> Seq<(u16, i16)>
    decreases n,
{
    if n <= 0 {
        Seq::empty()
    } else {
        let prev = capture_entries(board, moves, decoded, best, killers, n - 1);
        if move_class(moves, decoded, best, killers, n - 1) == 1 {
            prev.push((moves[n - 1], capture_score(board, decoded[n - 1]) as i16))
        } else {
            prev
        }
    }
}

/// The quiet moves among the first `n` that are neither moved to front, nor checks, nor
/// killers, in list order.
pub open spec fn quiet_moves(
    moves: Seq<u16>,
    decoded: Seq<MoveInfo>,
    best: Option<u16>,
    killers: [Option<u16>; 2],
    n: int,
) -> Seq<u16>
    decreases n,
{
    if n <= 0 {
        Seq::empty()
    } else {
        let prev = quiet_moves(moves, decoded, best, killers, n - 1);
        if move_class(moves, decoded, best, killers, n - 1) == 5 {
            prev.push(moves[n - 1])
        } else {
            prev
        }
    }
}

/// How many of the first `n` moves fall in class `c`.
pub open spec fn class_count(
    moves: Seq<u16>,
    decoded: Seq<MoveInfo>,
    best: Option<u16>,
    killers: [Option<u16>; 2],
    c: int,
    n: int,
) -> nat
    decreases n,
{
    if n <= 0 {
        0
    } else {
        class_count(moves, decoded, best, killers, c, n - 1) + (if move_class(
            moves,
            decoded,
            best,
            killers,
            n - 1,
        ) == c {
            1nat
        } else {
            0nat
        })
    }
}

/// The requested front move, when it is in the list.
pub open spec fn front_part(moves: Seq<u16>, best: Option<u16>) -> Seq<u16> {
    match best {
        Some(b) => if moves.contains(b) {
            seq![b]
        } else {
            Seq::empty()
        },
        None => Seq::empty(),
    }
}

/// A killer is placed when it is in the list and not already placed.
pub open spec fn killer_pick(moves: Seq<u16>, placed: Seq<u16>, k: Option<u16>) -> Seq<u16> {
    match k {
        Some(m) => if moves.contains(m) && !placed.contains(m) {
            seq![m]
        } else {
            Seq::empty()
        },
        None => Seq::empty(),
    }
}

/// The killers placed after the moves in `placed`, primary first.
pub open spec fn killer_part(moves: Seq<u16>, placed: Seq<u16>, killers: [Option<u16>; 2]) -> Seq<
    u16,
> {
    let k0 = killer_pick(moves, placed, killers[0]);
    k0 + killer_pick(moves, placed + k0, killers[1])
}

/// The moves of a scored list.
pub open spec fn moves_of(cs: Seq<(u16, i16)>) -> Seq<u16> {
    cs.map_values(|p: (u16, i16)| p.0)
}

/// Highest score first.
pub open spec fn by_score_desc(cs: Seq<(u16, i16)>) -> bool {
    forall|i: int, j: int| 0 <= i < j < cs.len() ==> cs[i].1 >= cs[j].1
}

/// The list `reorder_moves` builds once the captures are ordered as `cs`.
pub open spec fn reordered(
    moves: Seq<u16>,
    decoded: Seq<MoveInfo>,
    best: Option<u16>,
    killers: [Option<u16>; 2],
    cs: Seq<(u16, i16)>,
) -> Seq<u16> {
    let placed = front_part(moves, best) + moves_of(cs) + class_moves(
        moves,
        decoded,
        best,
        killers,
        2,
        moves.len() as int,
    );
    placed + killer_part(moves, placed, killers) + quiet_moves(
        moves,
        decoded,
        best,
        killers,
        moves.len() as int,
    )
}

proof fn lemma_class_counts(
    board: &Board,
    moves: Seq<u16>,
    decoded: Seq<MoveInfo>,
    best: Option<u16>,
    killers: [Option<u16>; 2],
    n: int,
)
    requires
        0 <= n,
    ensures
        capture_entries(board, moves, decoded, best, killers, n).len() == class_count(
            moves,
            decoded,
            best,
            killers,
            1,
            n,
        ),
        class_moves(moves, decoded, best, killers, 2, n).len() == class_count(
            moves,
            decoded,
            best,
            killers,
            2,
            n,
        ),
        quiet_moves(moves, decoded, best, killers, n).len() == class_count(
            moves,
            decoded,
            best,
            killers,
            5,
            n,
        ),
        class_count(moves, decoded, best, killers, 0, n) + class_count(moves, decoded, best, killers, 1, n)
            + class_count(moves, decoded, best, killers, 2, n) + class_count(moves, decoded, best, killers, 3, n)
            + class_count(moves, decoded, best, killers, 4, n) + class_count(moves, decoded, best, killers, 5, n)
            == n,
    decreases n,
{
    if n > 0 {
        lemma_class_counts(board, moves, decoded, best, killers, n - 1);
    }
}

proof fn lemma_class_witness(
    moves: Seq<u16>,
    decoded: Seq<MoveInfo>,
    best: Option<u16>,
    killers: [Option<u16>; 2],
    c: int,
    n: int,
    j: int,
)
    requires
        0 <= j < n,
        move_class(moves, decoded, best, killers, j) == c,
    ensures
        class_count(moves, decoded, best, killers, c, n) >= 1,
    decreases n,
{
    if j < n - 1 {
        lemma_class_witness(moves, decoded, best, killers, c, n - 1, j);
    }
}

proof fn lemma_entries_of_class(
    board: &Board,
    moves: Seq<u16>,
    decoded: Seq<MoveInfo>,
    best: Option<u16>,
    killers: [Option<u16>; 2],
    n: int,
    j: int,
)
    requires
        0 <= j < n,
        move_class(moves, decoded, best, killers, j) == 1,
    ensures
        capture_entries(board, moves, decoded, best, killers, n).contains(
            (moves[j], capture_score(board, decoded[j]) as i16),
        ),
    decreases n,
{
    if j < n - 1 {
        lemma_entries_of_class(board, moves, decoded, best, killers, n - 1, j);
        let prev = capture_entries(board, moves, decoded, best, killers, n - 1);
        let e = (moves[j], capture_score(board, decoded[j]) as i16);
        let k: int = choose|k: int| 0 <= k < prev.len() && prev[k] == e;
        if move_class(moves, decoded, best, killers, n - 1) == 1 {
            assert(prev.push((moves[n - 1], capture_score(board, decoded[n - 1]) as i16))[k] == e);
        }
    } else {
        let prev = capture_entries(board, moves, decoded, best, killers, n - 1);
        let e = (moves[j], capture_score(board, decoded[j]) as i16);
        assert(prev.push(e)[prev.len() as int] == e);
    }
}

/// Whether `mv` is in the list.
fn moves_contains(v: &ArrayVec<u16, 256>, mv: u16) -> (r: bool)
    ensures
        r == move_list(*v).contains(mv),
{
    let n: usize = moves_len(v);
    let mut i: usize = 0;
    while i < n
        invariant
            n == move_list(*v).len(),
            i <= n,
            forall|j: int| 0 <= j < i ==> move_list(*v)[j] != mv,
        decreases n - i,
    {
        if moves_get(v, i) == mv {
            return true;
        }
        i = i + 1;
    }
    false
}

/// The score `reorder_moves` gives a capture decoded as `d`.
fn mvv_lva(board: &Board, d: MoveInfo) -> (score: i16)
    requires
        d.from < 64,
        d.to < 64,
        (1u64 << (d.to as u64)) != board.en_passant ==> piece_on(board, d.from as u64) is Some
            && piece_on(board, d.to as u64) is Some,
    ensures
        score == capture_score(board, d),
{
    let from_sqi: u8 = d.from;
    let to_sqi: u8 = d.to;
    let aggressor_type: u8;
    let victim_type: u8;
    if 1u64 << to_sqi == board.en_passant {
        aggressor_type = 0;
        victim_type = 0;
    } else {
        aggressor_type = board.piece_type_at(from_sqi).unwrap();
        victim_type = board.piece_type_at(to_sqi).unwrap();  // unwrap should be safe since there must be a piece there during a capture.
    }
    let aggressor_score: i16 = PIECE_VALUES[aggressor_type as usize];
    let victim_score: i16 = VICTIM_WEIGHT * PIECE_VALUES[victim_type as usize];
    victim_score - aggressor_score
}

/// Every capture of the list can be scored: its squares are on the board and, unless it
/// takes en passant, both of them hold a piece.
pub open spec fn captures_scorable(
    board: &Board,
    moves: Seq<u16>,
    decoded: Seq<MoveInfo>,
    best: Option<u16>,
    killers: [Option<u16>; 2],
) -> bool {
    forall|j: int|
        0 <= j < moves.len() && #[trigger] move_class(moves, decoded, best, killers, j) == 1 ==> {
            &&& decoded[j].from < 64
            &&& decoded[j].to < 64
            &&& (1u64 << (decoded[j].to as u64)) != board.en_passant ==> piece_on(
                board,
                decoded[j].from as u64,
            ) is Some && piece_on(board, decoded[j].to as u64) is Some
        }
}

/// Orders `legal_moves` in place: the requested front move, then captures (best MVV-LVA
/// first), then quiet moves that give check, then killer moves, then the rest in the order
/// given. `decoded[i]` describes `legal_moves[i]` (its squares, move-type flag and whether it
/// gives check). A best_move/killer not actually legal here (killers are ply-indexed, so can
/// carry over from a different position sharing this ply) is silently skipped.
pub fn reorder_moves(
    board: &Board,
    legal_moves: &mut ArrayVec<u16, 256>,
    decoded: &Vec<MoveInfo>,
    best_move: Option<u16>,
    killer_moves: [Option<u16>; 2],
)
    requires
        decoded@.len() == move_list(*old(legal_moves)).len(),
        captures_scorable(board, move_list(*old(legal_moves)), decoded@, best_move, killer_moves),
    ensures
        exists|cs: Seq<(u16, i16)>|
            cs.to_multiset() == capture_entries(
                board,
                move_list(*old(legal_moves)),
                decoded@,
                best_move,
                killer_moves,
                move_list(*old(legal_moves)).len() as int,
            ).to_multiset() && by_score_desc(cs) && move_list(*final(legal_moves)) == reordered(
                move_list(*old(legal_moves)),
                decoded@,
                best_move,
                killer_moves,
                cs,
            ),
{
    let ghost lm: Seq<u16> = move_list(*legal_moves);
    let ghost dm: Seq<MoveInfo> = decoded@;
    let n: usize = moves_len(legal_moves);
    let mut ordered: ArrayVec<u16, 256> = moves_new();
    let mut captures: ArrayVec<(u16, i16), 256> = scored_new();
    let mut checks: ArrayVec<u16, 256> = moves_new();
    let mut rest: ArrayVec<u16, 256> = moves_new();

    if let Some(mv) = best_move {
        if moves_contains(legal_moves, mv) {
            moves_push(&mut ordered, mv);
        }
    }
    assert(move_list(ordered) == front_part(lm, best_move));

    let mut i: usize = 0;
    while i < n
        invariant
            lm == move_list(*legal_moves),
            dm == decoded@,
            n == lm.len(),
            dm.len() == n,
            i <= n,
            n <= 256,
            captures_scorable(board, lm, dm, best_move, killer_moves),
            move_list(ordered) == front_part(lm, best_move),
            scored_list(captures) == capture_entries(board, lm, dm, best_move, killer_moves, i as int),
            move_list(checks) == class_moves(lm, dm, best_move, killer_moves, 2, i as int),
            move_list(rest) == quiet_moves(lm, dm, best_move, killer_moves, i as int),
        decreases n - i,
    {
        proof {
            lemma_class_counts(board, lm, dm, best_move, killer_moves, i as int);
        }
        let mv: u16 = moves_get(legal_moves, i);
        let d: MoveInfo = decoded[i];
        if Some(mv) == best_move {
        } else if is_capture(d.flag) {
            assert(move_class(lm, dm, best_move, killer_moves, i as int) == 1);
            let score: i16 = mvv_lva(board, d);
            scored_push(&mut captures, (mv, score));
        } else if d.gives_check {
            moves_push(&mut checks, mv);
        } else if !(killer_moves[0] == Some(mv) || killer_moves[1] == Some(mv)) {
            moves_push(&mut rest, mv);
        }
        i = i + 1;
    }

    // MVV-LVA: capture_score = k * value(victim) - value(aggressor), sorted descending.
    let ghost unsorted: Seq<(u16, i16)> = scored_list(captures);
    sort_by_score_desc(&mut captures);
    let ghost cs: Seq<(u16, i16)> = scored_list(captures);
    let ghost chk: Seq<u16> = move_list(checks);
    assert(by_score_desc(cs));
    assert(cs.to_multiset() == capture_entries(board, lm, dm, best_move, killer_moves, n as int).to_multiset());
    proof {
        lemma_class_counts(board, lm, dm, best_move, killer_moves, n as int);
        if front_part(lm, best_move).len() == 1 {
            let b: u16 = best_move.unwrap();
            let jb: int = choose|j: int| 0 <= j < lm.len() && lm[j] == b;
            lemma_class_witness(lm, dm, best_move, killer_moves, 0, n as int, jb);
        }
    }

    let nc: usize = scored_len(&captures);
    let mut j: usize = 0;
    while j < nc
        invariant
            nc == cs.len(),
            cs == scored_list(captures),
            j <= nc,
            front_part(lm, best_move).len() + nc <= n,
            n <= 256,
            move_list(ordered) == front_part(lm, best_move) + moves_of(cs).take(j as int),
        decreases nc - j,
    {
        let item: (u16, i16) = scored_get(&captures, j);
        moves_push(&mut ordered, item.0);
        assert(moves_of(cs).take(j as int + 1) == moves_of(cs).take(j as int).push(item.0));
        j = j + 1;
    }
    assert(moves_of(cs).take(nc as int) == moves_of(cs));

    let nk: usize = moves_len(&checks);
    let ghost before_checks: Seq<u16> = move_list(ordered);
    let mut q: usize = 0;
    while q < nk
        invariant
            nk == chk.len(),
            chk == move_list(checks),
            q <= nk,
            before_checks.len() + nk <= 256,
            move_list(ordered) == before_checks + chk.take(q as int),
        decreases nk - q,
    {
        let mv: u16 = moves_get(&checks, q);
        moves_push(&mut ordered, mv);
        assert(chk.take(q as int + 1) == chk.take(q as int).push(mv));
        q = q + 1;
    }
    assert(chk.take(nk as int) == chk);
    let ghost placed: Seq<u16> = move_list(ordered);
    assert(placed == front_part(lm, best_move) + moves_of(cs) + chk);

    for k in 0..2usize
        invariant
            lm == move_list(*legal_moves),
            dm == decoded@,
            n == lm.len(),
            n <= 256,
            placed == front_part(lm, best_move) + moves_of(cs) + chk,
            chk == class_moves(lm, dm, best_move, killer_moves, 2, n as int),
            cs.to_multiset() == unsorted.to_multiset(),
            unsorted == capture_entries(board, lm, dm, best_move, killer_moves, n as int),
            move_list(ordered) == placed + (if k == 0 {
                Seq::<u16>::empty()
            } else if k == 1 {
                killer_pick(lm, placed, killer_moves[0])
            } else {
                killer_part(lm, placed, killer_moves)
            }),
            class_count(lm, dm, best_move, killer_moves, 0, n as int) >= front_part(
                lm,
                best_move,
            ).len(),
            class_count(lm, dm, best_move, killer_moves, 1, n as int) == cs.len(),
            class_count(lm, dm, best_move, killer_moves, 2, n as int) == chk.len(),
            k >= 1 ==> class_count(lm, dm, best_move, killer_moves, 3, n as int) >= killer_pick(
                lm,
                placed,
                killer_moves[0],
            ).len(),
            k >= 2 ==> class_count(lm, dm, best_move, killer_moves, 4, n as int) >= killer_pick(
                lm,
                placed + killer_pick(lm, placed, killer_moves[0]),
                killer_moves[1],
            ).len(),
            class_count(lm, dm, best_move, killer_moves, 0, n as int) + class_count(lm, dm, best_move, killer_moves, 1, n as int)
                + class_count(lm, dm, best_move, killer_moves, 2, n as int) + class_count(lm, dm, best_move, killer_moves, 3, n as int)
                + class_count(lm, dm, best_move, killer_moves, 4, n as int) + class_count(lm, dm, best_move, killer_moves, 5, n as int)
                == n,
    {
        let killer: Option<u16> = killer_moves[k];
        if let Some(mv) = killer {
            if moves_contains(legal_moves, mv) && !moves_contains(&ordered, mv) {
                proof {
                    let jm: int = choose|jj: int| 0 <= jj < lm.len() && lm[jj] == mv;
                    let fl = front_part(lm, best_move).len();
                    assert(best_move != Some(mv)) by {
                        if best_move == Some(mv) {
                            assert(front_part(lm, best_move)[0] == mv);
                            assert(move_list(ordered)[0] == mv);
                        }
                    }
                    if move_class(lm, dm, best_move, killer_moves, jm) == 1 {
                        lemma_entries_of_class(board, lm, dm, best_move, killer_moves, n as int, jm);
                        let e = (lm[jm], capture_score(board, dm[jm]) as i16);
                        assert(unsorted.contains(e));
                        assert(unsorted.to_multiset().count(e) > 0);
                        assert(cs.to_multiset().count(e) > 0);
                        assert(cs.contains(e));
                        let q: int = choose|q: int| 0 <= q < cs.len() && cs[q] == e;
                        assert(moves_of(cs)[q] == mv);
                        assert(placed[fl + q] == mv);
                        assert(move_list(ordered)[fl + q] == mv);
                    }
                    if move_class(lm, dm, best_move, killer_moves, jm) == 2 {
                        lemma_class_moves_contains(lm, dm, best_move, killer_moves, 2, n as int, mv);
                        let q: int = choose|q: int| 0 <= q < chk.len() && chk[q] == mv;
                        assert(placed[fl + cs.len() + q] == mv);
                        assert(move_list(ordered)[fl + cs.len() + q] == mv);
                    }
                    if k == 1 {
                        assert(killer_moves[0] != Some(mv)) by {
                            if killer_moves[0] == Some(mv) {
                                if !placed.contains(mv) {
                                    assert(killer_pick(lm, placed, killer_moves[0]) == seq![mv]);
                                    assert(move_list(ordered)[placed.len() as int] == mv);
                                } else {
                                    let q: int = choose|q: int| 0 <= q < placed.len() && placed[q] == mv;
                                    assert(move_list(ordered)[q] == mv);
                                }
                            }
                        }
                        assert(move_class(lm, dm, best_move, killer_moves, jm) == 4);
                        lemma_class_witness(lm, dm, best_move, killer_moves, 4, n as int, jm);
                    } else {
                        assert(move_class(lm, dm, best_move, killer_moves, jm) == 3);
                        lemma_class_witness(lm, dm, best_move, killer_moves, 3, n as int, jm);
                    }
                }
                moves_push(&mut ordered, mv);
            }
        }
        proof {
            if k == 0 {
                assert(move_list(ordered) == placed + killer_pick(lm, placed, killer_moves[0]));
            } else {
                assert(move_list(ordered) == placed + killer_part(lm, placed, killer_moves));
            }
        }
    }

    let nr: usize = moves_len(&rest);
    proof {
        lemma_class_counts(board, lm, dm, best_move, killer_moves, n as int);
    }
    let ghost before_rest: Seq<u16> = move_list(ordered);
    let mut r: usize = 0;
    while r < nr
        invariant
            nr == move_list(rest).len(),
            r <= nr,
            before_rest.len() + nr <= 256,
            move_list(ordered) == before_rest + move_list(rest).take(r as int),
        decreases nr - r,
    {
        let mv: u16 = moves_get(&rest, r);
        moves_push(&mut ordered, mv);
        assert(move_list(rest).take(r as int + 1) == move_list(rest).take(r as int).push(mv));
        r = r + 1;
    }
    assert(move_list(rest).take(nr as int) == move_list(rest));
    assert(move_list(ordered) == reordered(lm, dm, best_move, killer_moves, cs));
    assert(by_score_desc(cs));
    assert(cs.to_multiset() == capture_entries(board, lm, dm, best_move, killer_moves, n as int).to_multiset());

    *legal_moves = ordered;
    assert(move_list(*legal_moves) == reordered(lm, dm, best_move, killer_moves, cs));
}

/// The moves of class `c` among the first `n`, in list order.
pub open spec fn class_moves(
    moves: Seq<u16>,
    decoded: Seq<MoveInfo>,
    best: Option<u16>,
    killers: [Option<u16>; 2],
    c: int,
    n: int,
) -> Seq<u16>
    decreases n,
{
    if n <= 0 {
        Seq::empty()
    } else {
        let prev = class_moves(moves, decoded, best, killers, c, n - 1);
        if move_class(moves, decoded, best, killers, n - 1) == c {
            prev.push(moves[n - 1])
        } else {
            prev
        }
    }
}

proof fn lemma_class_moves_contains(
    moves: Seq<u16>,
    decoded: Seq<MoveInfo>,
    best: Option<u16>,
    killers: [Option<u16>; 2],
    c: int,
    n: int,
    x: u16,
)
    requires
        0 <= n <= moves.len(),
    ensures
        class_moves(moves, decoded, best, killers, c, n).contains(x) <==> exists|j: int|
            0 <= j < n && move_class(moves, decoded, best, killers, j) == c && moves[j] == x,
    decreases n,
{
    if n > 0 {
        lemma_class_moves_contains(moves, decoded, best, killers, c, n - 1, x);
        let prev = class_moves(moves, decoded, best, killers, c, n - 1);
        if move_class(moves, decoded, best, killers, n - 1) == c {
            let cur = prev.push(moves[n - 1]);
            if cur.contains(x) {
                let k: int = choose|k: int| 0 <= k < cur.len() && cur[k] == x;
                if k < prev.len() {
                    assert(prev[k] == x);
                }
            }
            if exists|j: int|
                0 <= j < n && move_class(moves, decoded, best, killers, j) == c && moves[j] == x {
                let j: int = choose|j: int|
                    0 <= j < n && move_class(moves, decoded, best, killers, j) == c && moves[j]
                        == x;
                if j < n - 1 {
                    let k: int = choose|k: int| 0 <= k < prev.len() && prev[k] == x;
                    assert(cur[k] == x);
                } else {
                    assert(cur[prev.len() as int] == x);
                }
            }
        }
    }
}

/// A class whose every member is the move `t` (the move to front, a killer) holds it once or
/// not at all on a list without repeated moves.
proof fn lemma_single_class(
    moves: Seq<u16>,
    decoded: Seq<MoveInfo>,
    best: Option<u16>,
    killers: [Option<u16>; 2],
    c: int,
    t: u16,
    n: int,
)
    requires
        moves.no_duplicates(),
        0 <= n <= moves.len(),
        forall|j: int|
            0 <= j < moves.len() && #[trigger] move_class(moves, decoded, best, killers, j) == c
                ==> moves[j] == t,
    ensures
        class_moves(moves, decoded, best, killers, c, n) == (if exists|j: int|
            0 <= j < n && #[trigger] move_class(moves, decoded, best, killers, j) == c {
            seq![t]
        } else {
            Seq::<u16>::empty()
        }),
    decreases n,
{
    if n > 0 {
        lemma_single_class(moves, decoded, best, killers, c, t, n - 1);
        if move_class(moves, decoded, best, killers, n - 1) == c {
            if exists|j: int| 0 <= j < n - 1 && #[trigger] move_class(moves, decoded, best, killers, j) == c {
                let j: int = choose|j: int|
                    0 <= j < n - 1 && #[trigger] move_class(moves, decoded, best, killers, j) == c;
                assert(moves[j] == moves[n - 1]);
            }
            assert(Seq::<u16>::empty().push(t) =~= seq![t]);
        } else {
            if exists|j: int| 0 <= j < n && #[trigger] move_class(moves, decoded, best, killers, j) == c {
                let j: int = choose|j: int|
                    0 <= j < n && #[trigger] move_class(moves, decoded, best, killers, j) == c;
                assert(j < n - 1);
            }
        }
    }
}

proof fn lemma_partition(
    moves: Seq<u16>,
    decoded: Seq<MoveInfo>,
    best: Option<u16>,
    killers: [Option<u16>; 2],
    n: int,
)
    requires
        0 <= n <= moves.len(),
    ensures
        moves.subrange(0, n).to_multiset() =~= class_moves(moves, decoded, best, killers, 0, n).to_multiset().add(
            class_moves(moves, decoded, best, killers, 1, n).to_multiset(),
        ).add(class_moves(moves, decoded, best, killers, 2, n).to_multiset()).add(
            class_moves(moves, decoded, best, killers, 3, n).to_multiset(),
        ).add(class_moves(moves, decoded, best, killers, 4, n).to_multiset()).add(
            class_moves(moves, decoded, best, killers, 5, n).to_multiset(),
        ),
    decreases n,
{
    if n == 0 {
        assert(moves.subrange(0, 0) =~= Seq::<u16>::empty());
    } else {
        lemma_partition(moves, decoded, best, killers, n - 1);
        assert(moves.subrange(0, n) =~= moves.subrange(0, n - 1).push(moves[n - 1]));
    }
}

proof fn lemma_quiet_class(
    moves: Seq<u16>,
    decoded: Seq<MoveInfo>,
    best: Option<u16>,
    killers: [Option<u16>; 2],
    n: int,
)
    ensures
        quiet_moves(moves, decoded, best, killers, n) == class_moves(moves, decoded, best, killers, 5, n),
    decreases n,
{
    if n > 0 {
        lemma_quiet_class(moves, decoded, best, killers, n - 1);
    }
}

proof fn lemma_capture_class(
    board: &Board,
    moves: Seq<u16>,
    decoded: Seq<MoveInfo>,
    best: Option<u16>,
    killers: [Option<u16>; 2],
    n: int,
)
    ensures
        moves_of(capture_entries(board, moves, decoded, best, killers, n)) == class_moves(
            moves,
            decoded,
            best,
            killers,
            1,
            n,
        ),
    decreases n,
{
    if n > 0 {
        lemma_capture_class(board, moves, decoded, best, killers, n - 1);
        let prev = capture_entries(board, moves, decoded, best, killers, n - 1);
        if move_class(moves, decoded, best, killers, n - 1) == 1 {
            let e = (moves[n - 1], capture_score(board, decoded[n - 1]) as i16);
            assert(moves_of(prev.push(e)) =~= moves_of(prev).push(e.0));
        }
    }
}

proof fn lemma_moves_of_permutation(a: Seq<(u16, i16)>, b: Seq<(u16, i16)>)
    requires
        a.to_multiset() == b.to_multiset(),
    ensures
        moves_of(a).to_multiset() =~= moves_of(b).to_multiset(),
    decreases a.len(),
{
    if a.len() == 0 {
        assert(b.to_multiset().len() == b.len());
        assert(b.len() == 0);
        assert(moves_of(a) =~= Seq::<u16>::empty());
        assert(moves_of(b) =~= Seq::<u16>::empty());
    } else {
        let x = a.last();
        let a1 = a.drop_last();
        assert(a =~= a1.push(x));
        assert(a.to_multiset().count(x) > 0);
        assert(b.contains(x));
        let i: int = choose|i: int| 0 <= i < b.len() && b[i] == x;
        let b1 = b.remove(i);
        assert(a1.to_multiset() =~= b1.to_multiset());
        lemma_moves_of_permutation(a1, b1);
        assert(moves_of(a) =~= moves_of(a1).push(x.0));
        assert(moves_of(b).remove(i) =~= moves_of(b1));
        assert(moves_of(b)[i] == x.0);
    }
}

/// Reordering only reorders: on a list without repeated moves, the reordered list (with its
/// captures in any order of the same entries) holds exactly the moves it was given, each once.
pub proof fn law_reorder_is_permutation(
    board: &Board,
    moves: Seq<u16>,
    decoded: Seq<MoveInfo>,
    best: Option<u16>,
    killers: [Option<u16>; 2],
    cs: Seq<(u16, i16)>,
)
    requires
        moves.no_duplicates(),
        cs.to_multiset() == capture_entries(
            board,
            moves,
            decoded,
            best,
            killers,
            moves.len() as int,
        ).to_multiset(),
    ensures
        reordered(moves, decoded, best, killers, cs).to_multiset() == moves.to_multiset(),
{
    let n: int = moves.len() as int;
    let c0 = class_moves(moves, decoded, best, killers, 0, n);
    let c1 = class_moves(moves, decoded, best, killers, 1, n);
    let c2 = class_moves(moves, decoded, best, killers, 2, n);
    let c3 = class_moves(moves, decoded, best, killers, 3, n);
    let c4 = class_moves(moves, decoded, best, killers, 4, n);
    let c5 = class_moves(moves, decoded, best, killers, 5, n);
    lemma_partition(moves, decoded, best, killers, n);
    assert(moves.subrange(0, n) =~= moves);
    lemma_quiet_class(moves, decoded, best, killers, n);
    lemma_capture_class(board, moves, decoded, best, killers, n);
    lemma_moves_of_permutation(cs, capture_entries(board, moves, decoded, best, killers, n));
    let front = front_part(moves, best);
    let caps = moves_of(cs);
    let placed = front + caps + c2;
    let k0 = killer_pick(moves, placed, killers[0]);
    let k1 = killer_pick(moves, placed + k0, killers[1]);

    // the move to front
    let tb: u16 = match best {
        Some(b) => b,
        None => 0u16,
    };
    assert forall|j: int|
        0 <= j < moves.len() && #[trigger] move_class(moves, decoded, best, killers, j) == 0
            implies moves[j] == tb by {}
    lemma_single_class(moves, decoded, best, killers, 0, tb, n);
    assert(front == c0) by {
        if best is Some && moves.contains(tb) {
            let j: int = choose|j: int| 0 <= j < moves.len() && moves[j] == tb;
            assert(move_class(moves, decoded, best, killers, j) == 0);
        }
    }

    // a move is placed before the killers exactly when it is the move to front, a capture or a
    // quiet check
    assert forall|m: u16| moves.contains(m) implies (placed.contains(m) <==> (best == Some(m)
        || (exists|j: int|
        0 <= j < n && move_class(moves, decoded, best, killers, j) == 1 && moves[j] == m)
        || (exists|j: int|
        0 <= j < n && move_class(moves, decoded, best, killers, j) == 2 && moves[j] == m))) by {
        lemma_class_moves_contains(moves, decoded, best, killers, 1, n, m);
        lemma_class_moves_contains(moves, decoded, best, killers, 2, n, m);
        assert(caps.contains(m) <==> caps.to_multiset().count(m) > 0);
        assert(c1.contains(m) <==> c1.to_multiset().count(m) > 0);
        if placed.contains(m) {
            let q: int = choose|q: int| 0 <= q < placed.len() && placed[q] == m;
            if front.len() <= q < front.len() + caps.len() {
                assert(caps[q - front.len()] == m);
            } else if q >= front.len() + caps.len() {
                assert(c2[q - front.len() - caps.len()] == m);
            }
        }
        if best == Some(m) {
            assert(placed[0] == m);
        }
        if caps.contains(m) {
            let q: int = choose|q: int| 0 <= q < caps.len() && caps[q] == m;
            assert(placed[front.len() + q] == m);
        }
        if c2.contains(m) {
            let q: int = choose|q: int| 0 <= q < c2.len() && c2[q] == m;
            assert(placed[front.len() + caps.len() + q] == m);
        }
    }

    // the first killer
    let t0: u16 = match killers[0] {
        Some(m) => m,
        None => 0u16,
    };
    assert forall|j: int|
        0 <= j < moves.len() && #[trigger] move_class(moves, decoded, best, killers, j) == 3
            implies moves[j] == t0 by {}
    lemma_single_class(moves, decoded, best, killers, 3, t0, n);
    assert(k0 == c3) by {
        if killers[0] is Some && moves.contains(t0) {
            let j: int = choose|j: int| 0 <= j < moves.len() && moves[j] == t0;
            if exists|i: int|
                0 <= i < n && move_class(moves, decoded, best, killers, i) == 1 && moves[i] == t0 {
                let i: int = choose|i: int|
                    0 <= i < n && move_class(moves, decoded, best, killers, i) == 1 && moves[i]
                        == t0;
                assert(i == j);
            }
            if exists|i: int|
                0 <= i < n && move_class(moves, decoded, best, killers, i) == 2 && moves[i] == t0 {
                let i: int = choose|i: int|
                    0 <= i < n && move_class(moves, decoded, best, killers, i) == 2 && moves[i]
                        == t0;
                assert(i == j);
            }
            assert((move_class(moves, decoded, best, killers, j) == 3) == !placed.contains(t0));
        }
        if exists|j: int| 0 <= j < n && #[trigger] move_class(moves, decoded, best, killers, j) == 3 {
            let j: int = choose|j: int|
                0 <= j < n && #[trigger] move_class(moves, decoded, best, killers, j) == 3;
            assert(moves.contains(moves[j]));
        }
    }

    // the second killer
    let t1: u16 = match killers[1] {
        Some(m) => m,
        None => 0u16,
    };
    assert forall|j: int|
        0 <= j < moves.len() && #[trigger] move_class(moves, decoded, best, killers, j) == 4
            implies moves[j] == t1 by {}
    lemma_single_class(moves, decoded, best, killers, 4, t1, n);
    assert(k1 == c4) by {
        if killers[1] is Some && moves.contains(t1) {
            let j: int = choose|j: int| 0 <= j < moves.len() && moves[j] == t1;
            if exists|i: int|
                0 <= i < n && move_class(moves, decoded, best, killers, i) == 1 && moves[i] == t1 {
                let i: int = choose|i: int|
                    0 <= i < n && move_class(moves, decoded, best, killers, i) == 1 && moves[i]
                        == t1;
                assert(i == j);
            }
            if exists|i: int|
                0 <= i < n && move_class(moves, decoded, best, killers, i) == 2 && moves[i] == t1 {
                let i: int = choose|i: int|
                    0 <= i < n && move_class(moves, decoded, best, killers, i) == 2 && moves[i]
                        == t1;
                assert(i == j);
            }
            assert((placed + k0).contains(t1) <==> placed.contains(t1) || k0.contains(t1)) by {
                if (placed + k0).contains(t1) {
                    let q: int = choose|q: int| 0 <= q < (placed + k0).len() && (placed + k0)[q] == t1;
                    if q >= placed.len() {
                        assert(k0[q - placed.len()] == t1);
                    }
                }
                if placed.contains(t1) {
                    let q: int = choose|q: int| 0 <= q < placed.len() && placed[q] == t1;
                    assert((placed + k0)[q] == t1);
                }
                if k0.contains(t1) {
                    let q: int = choose|q: int| 0 <= q < k0.len() && k0[q] == t1;
                    assert((placed + k0)[placed.len() + q] == t1);
                }
            }
            assert(k0.contains(t1) <==> (killers[0] == Some(t1) && best != Some(t1)
                && !capture_flag(decoded[j].flag) && !decoded[j].gives_check)) by {
                if killers[0] == Some(t1) && best != Some(t1) && !capture_flag(decoded[j].flag)
                    && !decoded[j].gives_check {
                    assert(move_class(moves, decoded, best, killers, j) == 3);
                    assert(k0 == seq![t1]);
                    assert(k0[0] == t1);
                }
                if k0.contains(t1) {
                    assert(exists|i: int| 0 <= i < n && #[trigger] move_class(moves, decoded, best, killers, i) == 3);
                    let i: int = choose|i: int|
                        0 <= i < n && #[trigger] move_class(moves, decoded, best, killers, i) == 3;
                    assert(k0 == seq![t0]);
                    assert(t0 == t1);
                    assert(moves[i] == t1);
                    assert(i == j);
                }
            }
            assert((move_class(moves, decoded, best, killers, j) == 4) == !(placed + k0).contains(
                t1,
            ));
        }
        if exists|j: int| 0 <= j < n && #[trigger] move_class(moves, decoded, best, killers, j) == 4 {
            let j: int = choose|j: int|
                0 <= j < n && #[trigger] move_class(moves, decoded, best, killers, j) == 4;
            assert(moves.contains(moves[j]));
        }
    }

    vstd::seq_lib::lemma_multiset_commutative(front, caps);
    vstd::seq_lib::lemma_multiset_commutative(front + caps, c2);
    vstd::seq_lib::lemma_multiset_commutative(placed, k0);
    vstd::seq_lib::lemma_multiset_commutative(placed + k0, k1);
    vstd::seq_lib::lemma_multiset_commutative(placed + k0 + k1, c5);
    assert(killer_part(moves, placed, killers) == k0 + k1);
    assert(reordered(moves, decoded, best, killers, cs) == placed + k0 + k1 + c5) by {
        assert(placed + (k0 + k1) + c5 =~= placed + k0 + k1 + c5);
    }
    assert(reordered(moves, decoded, best, killers, cs).to_multiset() =~= moves.to_multiset());
}

} // verus!
