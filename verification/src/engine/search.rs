use vstd::prelude::*;
use std::sync::Arc;
use std::sync::atomic::{AtomicBool, AtomicU64, Ordering};
use arrayvec::ArrayVec;
use crate::engine::lists::{pv_line, pv_new, pv_clear, pv_push, pv_clone, pv_len, pv_get};
use crate::engine::search_heuristics::{
    MATE_THRESHOLD, NMP_MIN_DEPTH, NMP_REDUCTION, RFP_MARGIN_BASE, RFP_MARGIN_PER_DEPTH,
    RFP_MAX_DEPTH,
};
use crate::engine::utils::moves::capture_flag;
use crate::engine::utils::is_capture;
use crate::engine::utils::ttable::{
    TT_EXACT_FLAG, TT_LOWERB_FLAG, TT_UPPERB_FLAG, score_from_tt, from_tt_score,
    retrieve_tt_or_none,
};

verus! {

/// Flags that the UCI front end uses to steer running searches.
pub struct SearchState {
    pub stop: AtomicBool,
    pub ponder: AtomicBool,
}

impl SearchState {
    pub fn new() -> (s: Self) {
        Self { stop: AtomicBool::new(false), ponder: AtomicBool::new(false) }
    }
}

impl Default for SearchState {
    fn default() -> (s: Self) {
        Self::new()
    }
}

// bound on line length - matches negamax's depth/ply type (u8), so pv can't overflow.
pub const MAX_PV_LEN: usize = 255;

// incrementally-published "best confirmed answer so far" at the root, valid even mid-search.
pub struct RootBest {
    pub best_move: u16,
    pub best_score: i16,
    pub best_depth: u8,  // depth this result actually came from, may lag the nominal search depth
    pub pv: ArrayVec<u16, MAX_PV_LEN>,  // may be shorter than best_depth - early returns truncate it
}

impl RootBest {
    pub fn new(fallback_move: u16) -> (b: Self)
        ensures
            b.best_move == fallback_move,
            b.best_score == -i16::MAX,
            b.best_depth == 0,
            pv_line(b.pv) == Seq::<u16>::empty(),
    {
        Self { best_move: fallback_move, best_score: -i16::MAX, best_depth: 0, pv: pv_new() }
    }

    /// Root only: a table hit at the root skips the moves loop, so its move is published here.
    /// One ply deeper can be stale - only this move is trustworthy, not a line.
    pub fn publish_tt_hit(&mut self, mv: u16, score: i16, depth: u8)
        ensures
            final(self).best_move == mv,
            final(self).best_score == score,
            final(self).best_depth == depth,
            pv_line(final(self).pv) == seq![mv],
    {
        self.best_move = mv;
        self.best_score = score;
        self.best_depth = depth;
        pv_clear(&mut self.pv);
        pv_push(&mut self.pv, mv);
        assert(pv_line(self.pv) =~= seq![mv]);
    }

    /// Root only: publish every move (not just new incumbents) - either `movei` is the
    /// previously-published move getting its re-evaluation, or the local best already beats
    /// the stored score outright. Returns whether anything was published.
    pub fn publish_root_move(
        &mut self,
        movei: u16,
        best_move: u16,
        best_eval: i16,
        depth: u8,
        pv: &ArrayVec<u16, MAX_PV_LEN>,
    ) -> (published: bool)
        ensures
            published == (movei == old(self).best_move || best_eval > old(self).best_score),
            published ==> final(self).best_move == best_move && final(self).best_score == best_eval
                && final(self).best_depth == depth && pv_line(final(self).pv) == pv_line(*pv),
            !published ==> *final(self) == *old(self),
    {
        if movei == self.best_move || best_eval > self.best_score {
            self.best_move = best_move;
            self.best_score = best_eval;
            self.best_depth = depth;
            self.pv = pv_clone(pv);
            true
        } else {
            false
        }
    }
}

// each slot is (full zobrist key, packed data) - full key avoids false hits from a truncated tag.
// Clones share the same slots.
#[derive(Clone)]
pub struct TT {
    pub entries: Arc<Vec<(AtomicU64, AtomicU64)>>,
}

impl TT {
    /// Number of slots.
    pub open spec fn slot_count(&self) -> nat {
        (*self.entries)@.len()
    }

    /// A table of `size_mb` MiB: one 16-byte slot per `size_mb * 2^20 / 16` bytes, all zero.
    pub fn new(size_mb: usize) -> (tt: Self)
        requires
            size_mb * 1048576 <= usize::MAX,
        ensures
            tt.slot_count() == size_mb * 1048576 / 16,
    {
        assert(1usize << 20usize == 1048576usize) by (bit_vector);
        let no_entries: usize = (size_mb * (1usize << 20)) / 16;
        let mut entry_vec: Vec<(AtomicU64, AtomicU64)> = Vec::new();
        while entry_vec.len() < no_entries
            invariant
                entry_vec@.len() <= no_entries,
            decreases no_entries - entry_vec@.len(),
        {
            entry_vec.push((AtomicU64::new(0), AtomicU64::new(0)));
        }
        Self { entries: Arc::new(entry_vec) }
    }

    // zeroes every slot in place, visible to all clones immediately.
    pub fn clear(&self) {
        let n: usize = self.entries.len();
        let mut i: usize = 0;
        while i < n
            invariant
                n == self.slot_count(),
                i <= n,
            decreases n - i,
        {
            let slot: &(AtomicU64, AtomicU64) = &self.entries[i];
            slot.0.store(0, Ordering::Relaxed);
            slot.1.store(0, Ordering::Relaxed);
            i = i + 1;
        }
    }
}


/// Two killer moves (quiet, cutoff-causing) per ply, primary first. 255 slots, not 256 - ply 0
/// (root) has no siblings so is never stored.
pub struct KillerTable([[Option<u16>; 2]; 255]);

/// A killer slot is sound: an empty primary means an empty secondary, and the two killers
/// differ.
pub open spec fn killer_slot_ok(slot: (Option<u16>, Option<u16>)) -> bool {
    &&& slot.0 is None ==> slot.1 is None
    &&& slot.0 is Some ==> slot.0 != slot.1
}

/// The slot that `store` fills when it records `mv` over `slot`.
pub open spec fn killer_slot_after(slot: (Option<u16>, Option<u16>), mv: u16) -> (
    Option<u16>,
    Option<u16>,
) {
    if slot.0 == Some(mv) {
        slot
    } else {
        (Some(mv), slot.0)
    }
}

impl KillerTable {
    /// The killer slots of plies 1..=255, primary and secondary.
    pub closed spec fn slots(&self) -> Seq<(Option<u16>, Option<u16>)> {
        Seq::new(255, |i: int| (self.0[i][0], self.0[i][1]))
    }

    /// Every table has a slot for each of the plies 1..=255.
    pub proof fn lemma_slot_count(&self)
        ensures
            self.slots().len() == 255,
    {
    }

    #[verifier::type_invariant]
    closed spec fn slots_ok(&self) -> bool {
        forall|i: int| 0 <= i < 255 ==> #[trigger] killer_slot_ok((self.0[i][0], self.0[i][1]))
    }

    pub fn new() -> (k: Self)
        ensures
            k.slots().len() == 255,
            forall|i: int| 0 <= i < 255 ==> #[trigger] k.slots()[i] == (None::<u16>, None::<u16>),
    {
        Self([[None; 2]; 255])
    }

    // both killers at this ply (primary first). empty for ply == 0.
    pub fn get(&self, ply: u8) -> (k: [Option<u16>; 2])
        ensures
            self.slots().len() == 255,
            ply == 0 ==> k[0] is None && k[1] is None,
            ply > 0 ==> (k[0], k[1]) == self.slots()[ply - 1],
            killer_slot_ok((k[0], k[1])),
    {
        proof {
            use_type_invariant(self);
        }
        if ply == 0 {
            [None, None]
        } else {
            let k: [Option<u16>; 2] = self.0[(ply - 1) as usize];
            assert(killer_slot_ok((self.0[ply - 1][0], self.0[ply - 1][1])));
            k
        }
    }

    // shifts primary killer to secondary. no-op for ply 0 or an already-primary move.
    pub fn store(&mut self, ply: u8, mv: u16)
        ensures
            old(self).slots().len() == 255,
            final(self).slots().len() == 255,
            ply == 0 ==> final(self).slots() == old(self).slots(),
            ply > 0 ==> final(self).slots() == old(self).slots().update(
                ply - 1,
                killer_slot_after(old(self).slots()[ply - 1], mv),
            ),
    {
        proof {
            use_type_invariant(&*self);
        }
        if ply == 0 {
            return ;
        }
        let i: usize = (ply - 1) as usize;
        let mut slot: [Option<u16>; 2] = self.0[i];
        if slot[0] != Some(mv) {
            slot[1] = slot[0];
            slot[0] = Some(mv);
        }
        proof {
            assert(killer_slot_ok((self.0[i as int][0], self.0[i as int][1])));
            assert(killer_slot_ok((slot[0], slot[1])));
        }
        let mut table: [[Option<u16>; 2]; 255] = self.0;
        table[i] = slot;
        self.0 = table;
        proof {
            assert(self.slots() =~= old(self).slots().update(
                ply - 1,
                killer_slot_after(old(self).slots()[ply - 1], mv),
            ));
        }
    }
}

impl Default for KillerTable {
    fn default() -> (k: Self)
        ensures
            forall|i: int| 0 <= i < 255 ==> #[trigger] k.slots()[i] == (None::<u16>, None::<u16>),
    {
        Self::new()
    }
}

// ---------------------------------------------------------------------------------------------
// negamax, one decision at a time. Scores are always from the perspective of whoever is to move
// at the node; a call that makes a real move negates the child score and swaps (alpha, beta) to
// (-beta, -alpha), a call that doesn't (check extension, quiescence dispatch) does neither.
// ---------------------------------------------------------------------------------------------

/// The score of a finished game for the side to move: checkmate is bad for the mover,
/// discounted by ply to prefer faster mates; a draw is 0.
pub fn terminal_score(ply: u8, draw: bool) -> (s: i16)
    ensures
        s == (if draw {
            0
        } else {
            ply - 10000
        }),
{
    if draw {
        0
    } else {
        ply as i16 - 10000
    }
}

/// What a transposition-table lookup decides for a node.
#[derive(PartialEq, Eq, Structural, Clone, Copy, Debug)]
pub enum TtProbe {
    /// The stored result settles the node: return this score and move at once.
    Cutoff { score: i16, mv: u16 },
    /// Search the node, trying the stored move first when there is one.
    Search { tt_move: Option<u16> },
}

/// A stored bound settles the node: an exact score always, a lower bound that reaches beta,
/// an upper bound that stays at or below alpha.
pub open spec fn tt_bound_settles(flag: u8, score: int, alpha: int, beta: int) -> bool {
    ||| flag == TT_EXACT_FLAG
    ||| flag == TT_LOWERB_FLAG && score >= beta
    ||| flag == TT_UPPERB_FLAG && score <= alpha
}

/// The decision for a table entry `(key, score, depth, flag, move, age)` found for the node, or
/// none: a skipped table (`skip_tt`) counts as none; an entry searched at least as deep whose
/// bound settles the node cuts it off; any other entry only contributes its move.
pub open spec fn tt_decision(
    entry: Option<(u64, i16, u8, u8, u16, u8)>,
    skip_tt: bool,
    depth: u8,
    alpha: i16,
    beta: i16,
    ply: u8,
) -> TtProbe {
    match entry {
        Some(e) => if skip_tt {
            TtProbe::Search { tt_move: None }
        } else if e.2 >= depth && tt_bound_settles(e.3, score_from_tt(e.1, ply), alpha as int, beta as int) {
            TtProbe::Cutoff { score: score_from_tt(e.1, ply) as i16, mv: e.4 }
        } else {
            TtProbe::Search { tt_move: Some(e.4) }
        },
        None => TtProbe::Search { tt_move: None },
    }
}

/// Decides what a table entry found for the node means for it (see `tt_decision`).
pub fn tt_probe(
    entry: Option<(u64, i16, u8, u8, u16, u8)>,
    skip_tt: bool,
    depth: u8,
    alpha: i16,
    beta: i16,
    ply: u8,
) -> (r: TtProbe)
    ensures
        r == tt_decision(entry, skip_tt, depth, alpha, beta, ply),
{
    match entry {
        Some(e) => {
            if skip_tt {
                return TtProbe::Search { tt_move: None };
            }
            if e.2 >= depth {
                let tt_score: i16 = from_tt_score(e.1, ply);
                let settles: bool = if e.3 == TT_EXACT_FLAG {
                    true
                } else if e.3 == TT_LOWERB_FLAG {
                    tt_score >= beta
                } else if e.3 == TT_UPPERB_FLAG {
                    tt_score <= alpha
                } else {
                    false
                };
                if settles {
                    return TtProbe::Cutoff { score: tt_score, mv: e.4 };
                }
            }
            TtProbe::Search { tt_move: Some(e.4) }
        },
        None => TtProbe::Search { tt_move: None },
    }
}

/// The position has already occurred twice.
pub open spec fn repeated(repetitions: u32) -> bool {
    repetitions >= 2
}

/// A table entry cuts a node off only as its bound allows, and always when it does: a cutoff
/// comes from an entry of the node's key that is not skipped and was searched at least as
/// deep, with that entry's move and its score read back at this ply; a lower bound cuts off
/// only at or above beta, an upper bound only at or below alpha, and only an exact entry cuts
/// off with a score strictly inside the window. An exact entry deep enough always cuts off, as
/// does a lower bound reaching beta or an upper bound at or below alpha; otherwise the entry's
/// move is searched first.
pub proof fn law_tt_cutoff_respects_bounds(
    entry: Option<(u64, i16, u8, u8, u16, u8)>,
    skip_tt: bool,
    depth: u8,
    alpha: i16,
    beta: i16,
    ply: u8,
)
    ensures
        ({
            let r = tt_decision(entry, skip_tt, depth, alpha, beta, ply);
            let e = entry.unwrap();
            &&& r is Cutoff ==> {
                &&& entry is Some && !skip_tt
                &&& e.2 >= depth
                &&& r->mv == e.4
                &&& r->score == score_from_tt(e.1, ply)
                &&& e.3 == TT_LOWERB_FLAG ==> r->score >= beta
                &&& e.3 == TT_UPPERB_FLAG ==> r->score <= alpha
                &&& alpha < r->score < beta ==> e.3 == TT_EXACT_FLAG
                &&& e.3 == TT_EXACT_FLAG || e.3 == TT_LOWERB_FLAG || e.3
                    == TT_UPPERB_FLAG
            }
            &&& (entry is Some && !skip_tt && e.2 >= depth && (e.3 == TT_EXACT_FLAG
                || (e.3 == TT_LOWERB_FLAG && score_from_tt(e.1, ply) >= beta) || (
            e.3 == TT_UPPERB_FLAG && score_from_tt(e.1, ply) <= alpha))) ==> r is Cutoff
            &&& r is Search ==> r->tt_move == (if entry is Some && !skip_tt {
                Some(e.4)
            } else {
                None
            })
        }),
{
}

/// Looks the node up in the table and decides (see `tt_decision`); the table is skipped when
/// the position has already occurred twice (`repetitions >= 2`), which reduces threefold
/// repetitions in won positions. At the root (`ply == 0`) a cutoff is published into `best`
/// before returning, since a root hit skips the moves loop and `best` would otherwise never
/// hear about it.
pub fn probe_node(
    tt: &mut TT,
    zobrist_key: u64,
    repetitions: u32,
    depth: u8,
    alpha: i16,
    beta: i16,
    ply: u8,
    best: &mut RootBest,
) -> (r: TtProbe)
    requires
        old(tt).slot_count() > 0,
    ensures
        *final(tt) == *old(tt),
        exists|e: Option<(u64, i16, u8, u8, u16, u8)>|
            (e matches Some(x) ==> x.0 == zobrist_key) && r == #[trigger] tt_decision(
                e,
                repeated(repetitions),
                depth,
                alpha,
                beta,
                ply,
            ),
        repetitions >= 2 ==> r == (TtProbe::Search { tt_move: None }),
        r matches TtProbe::Cutoff { score, mv } ==> (ply == 0 ==> final(best).best_move == mv
            && final(best).best_score == score && final(best).best_depth == depth && pv_line(
            final(best).pv,
        ) == seq![mv]),
        !(ply == 0 && r is Cutoff) ==> *final(best) == *old(best),
{
    let skip_tt: bool = repetitions >= 2;
    let entry: Option<(u64, i16, u8, u8, u16, u8)> = retrieve_tt_or_none(tt, zobrist_key);
    let r: TtProbe = tt_probe(entry, skip_tt, depth, alpha, beta, ply);
    assert(r == tt_decision(entry, repeated(repetitions), depth, alpha, beta, ply));
    if ply == 0 {
        if let TtProbe::Cutoff { score, mv } = r {
            best.publish_tt_hit(mv, score, depth);
        }
    }
    r
}

/// What a node at depth 0 does.
#[derive(PartialEq, Eq, Structural, Clone, Copy, Debug)]
pub enum LeafStep {
    /// In check: search one more ply at the same node (no move made, no negation).
    Extend,
    /// Return this static score.
    StandPat(i16),
    /// Search the captures (quiescence), with this static score as a floor.
    Quiesce(i16),
}

/// The depth-0 decision: a side in check is extended; otherwise the static evaluation
/// `stand_pat` is returned when it already reaches beta or the quiescence budget is spent, and
/// the captures are searched on top of it otherwise.
pub fn leaf_step(in_check: bool, stand_pat: i16, beta: i16, qdepth: u8) -> (r: LeafStep)
    ensures
        r == (if in_check {
            LeafStep::Extend
        } else if stand_pat >= beta || qdepth == 0 {
            LeafStep::StandPat(stand_pat)
        } else {
            LeafStep::Quiesce(stand_pat)
        }),
{
    if in_check {
        LeafStep::Extend
    } else if stand_pat >= beta {
        LeafStep::StandPat(stand_pat)
    } else if qdepth == 0 {
        LeafStep::StandPat(stand_pat)
    } else {
        LeafStep::Quiesce(stand_pat)
    }
}

/// Combines a capture search with its stand-pat score: stand-pat is a floor, as a quiet
/// position is never worse than not capturing, and its move is the null move 0.
pub fn quiescence_result(q_eval: i16, q_move: u16, stand_pat: i16) -> (r: (i16, u16))
    ensures
        r == (if q_eval > stand_pat {
            (q_eval, q_move)
        } else {
            (stand_pat, 0u16)
        }),
        r.0 >= stand_pat,
        r.0 >= q_eval,
{
    if q_eval > stand_pat {
        (q_eval, q_move)
    } else {
        (stand_pat, 0)
    }
}

/// Whether reverse futility pruning may be tried: low depth, non-mate beta, not in check.
pub fn rfp_applies(depth: u8, beta: i16, in_check: bool) -> (r: bool)
    ensures
        r == (depth <= RFP_MAX_DEPTH && beta > -MATE_THRESHOLD && !in_check),
{
    depth <= RFP_MAX_DEPTH && beta > -MATE_THRESHOLD && !in_check
}

/// The reverse-futility margin at `depth`.
pub open spec fn rfp_margin(depth: int) -> int {
    RFP_MARGIN_BASE + depth * RFP_MARGIN_PER_DEPTH
}

/// Reverse futility pruning: the static evaluation clears beta by the depth's margin, so the
/// node is cut without searching further.
pub fn rfp_cuts(static_eval: i16, depth: u8, beta: i16) -> (r: bool)
    requires
        depth <= RFP_MAX_DEPTH,
    ensures
        r == (static_eval - rfp_margin(depth as int) >= beta),
{
    let margin: i16 = RFP_MARGIN_BASE + (depth as i16 * RFP_MARGIN_PER_DEPTH);
    static_eval as i32 - margin as i32 >= beta as i32
}

/// Whether null move pruning may be tried: allowed here, high depth, non-mate beta, a piece
/// besides king and pawns (no null move in zugzwang), not in check.
pub fn nmp_applies(allow_null: bool, depth: u8, beta: i16, has_pieces: bool, in_check: bool) -> (r:
    bool)
    ensures
        r == (allow_null && depth >= NMP_MIN_DEPTH && beta < MATE_THRESHOLD && has_pieces
            && !in_check),
{
    allow_null && depth >= NMP_MIN_DEPTH && beta < MATE_THRESHOLD && has_pieces && !in_check
}

/// The reduced null-window search after passing: depth `depth - 1 - NMP_REDUCTION`, window
/// `(-beta, -beta + 1)`.
pub fn null_move_search(depth: u8, beta: i16) -> (r: (u8, i16, i16))
    requires
        depth >= NMP_MIN_DEPTH,
        beta > -i16::MAX,
    ensures
        r == ((depth - 1 - NMP_REDUCTION) as u8, -beta as i16, (-beta + 1) as i16),
{
    (depth - 1 - NMP_REDUCTION, -beta, -beta + 1)
}

/// What the null-move search decides.
#[derive(PartialEq, Eq, Structural, Clone, Copy, Debug)]
pub enum NullOutcome {
    /// A stop signal cut the search short: propagate the incompletion.
    Abort,
    /// Passing still fails high: prune the subtree with this score.
    Cutoff(i16),
    /// Search the moves.
    Continue,
}

/// Reads the null-move search's result `score` (from the opponent's side).
pub fn null_move_outcome(completed: bool, score: i16, beta: i16) -> (r: NullOutcome)
    requires
        score > i16::MIN,
    ensures
        r == (if !completed {
            NullOutcome::Abort
        } else if -score >= beta {
            NullOutcome::Cutoff((-score) as i16)
        } else {
            NullOutcome::Continue
        }),
{
    if !completed {
        NullOutcome::Abort
    } else if -score >= beta {
        NullOutcome::Cutoff(-score)
    } else {
        NullOutcome::Continue
    }
}

/// The move to order first: at the root the incumbent best move, so that it is re-evaluated
/// first each depth (the table is not reliable enough for this); elsewhere the table's move.
pub fn front_move(ply: u8, root_move: u16, tt_move: Option<u16>) -> (r: Option<u16>)
    ensures
        r == (if ply == 0 {
            Some(root_move)
        } else {
            tt_move
        }),
{
    if ply == 0 {
        Some(root_move)
    } else {
        tt_move
    }
}

/// Quiescence searches captures only: a quiet move (decoded flag `flag`) is skipped there.
pub fn skips_move(quiescence: bool, flag: u8) -> (r: bool)
    ensures
        r == (quiescence && !capture_flag(flag)),
{
    quiescence && !is_capture(flag)
}

/// The best (score, move) after the moves of `h` were scored in turn, from
/// `(-i16::MAX, first)`: a move replaces the best only when it scores strictly higher.
pub open spec fn best_of(first: u16, h: Seq<(u16, i16)>) -> (i16, u16)
    decreases h.len(),
{
    if h.len() == 0 {
        ((-i16::MAX) as i16, first)
    } else {
        let prev = best_of(first, h.drop_last());
        if h.last().1 > prev.0 {
            (h.last().1, h.last().0)
        } else {
            prev
        }
    }
}

/// The table flag of a searched node: a beta cutoff is a lower bound (fail high), a best
/// score that never beat alpha an upper bound (fail low), anything else exact.
pub open spec fn node_flag(cutoff: bool, best_eval: int, alpha_orig: int) -> u8 {
    if cutoff {
        TT_LOWERB_FLAG
    } else if best_eval <= alpha_orig {
        TT_UPPERB_FLAG
    } else {
        TT_EXACT_FLAG
    }
}

/// The abstract state of a node's moves loop.
pub struct MoveLoopView {
    /// The window the node was called with.
    pub alpha_orig: int,
    pub beta: int,
    /// The node's first legal move, the best move until one scores above -i16::MAX.
    pub first_move: u16,
    /// The moves scored so far, with their scores, in order.
    pub scored: Seq<(u16, i16)>,
    pub alpha: int,
    pub best_eval: int,
    pub best_move: u16,
    pub cutoff: bool,
}

/// A node's moves loop: the raised alpha, the best score and move so far, and whether beta
/// was reached.
pub struct MoveLoop {
    alpha: i16,
    alpha_orig: i16,
    beta: i16,
    best_eval: i16,
    best_move: u16,
    cutoff: bool,
    first_move: Ghost<u16>,
    scored: Ghost<Seq<(u16, i16)>>,
}

impl View for MoveLoop {
    type V = MoveLoopView;

    closed spec fn view(&self) -> MoveLoopView {
        MoveLoopView {
            alpha_orig: self.alpha_orig as int,
            beta: self.beta as int,
            first_move: self.first_move@,
            scored: self.scored@,
            alpha: self.alpha as int,
            best_eval: self.best_eval as int,
            best_move: self.best_move,
            cutoff: self.cutoff,
        }
    }
}

/// The loop state is consistent: the best is `best_of` the scored moves, alpha is the larger
/// of the starting alpha and the best score, and the loop is cut off exactly when a scored
/// move brought alpha to beta.
pub open spec fn loop_consistent(v: MoveLoopView) -> bool {
    &&& v.alpha_orig >= -i16::MAX
    &&& v.beta >= -i16::MAX
    &&& forall|i: int| 0 <= i < v.scored.len() ==> #[trigger] v.scored[i].1 >= -i16::MAX
    &&& (v.best_eval as i16, v.best_move) == best_of(v.first_move, v.scored)
    &&& -i16::MAX <= v.best_eval <= i16::MAX
    &&& v.alpha == (if v.best_eval > v.alpha_orig {
        v.best_eval
    } else {
        v.alpha_orig
    })
    &&& v.cutoff == (v.scored.len() > 0 && v.alpha >= v.beta)
}

proof fn lemma_best_of_range(first: u16, h: Seq<(u16, i16)>)
    ensures
        best_of(first, h).0 >= -i16::MAX,
    decreases h.len(),
{
    if h.len() > 0 {
        lemma_best_of_range(first, h.drop_last());
    }
}

impl MoveLoop {
    #[verifier::type_invariant]
    closed spec fn consistent(&self) -> bool {
        loop_consistent(self@)
    }

    /// A loop over a node's moves, called with the window `(alpha, beta)`; `first_move` is the
    /// node's first legal move.
    pub fn new(alpha: i16, beta: i16, first_move: u16) -> (l: Self)
        requires
            alpha >= -i16::MAX,
            beta >= -i16::MAX,
        ensures
            l@ == (MoveLoopView {
                alpha_orig: alpha as int,
                beta: beta as int,
                first_move,
                scored: Seq::empty(),
                alpha: alpha as int,
                best_eval: -i16::MAX as int,
                best_move: first_move,
                cutoff: false,
            }),
            loop_consistent(l@),
    {
        MoveLoop {
            alpha,
            alpha_orig: alpha,
            beta,
            best_eval: -i16::MAX,
            best_move: first_move,
            cutoff: false,
            first_move: Ghost(first_move),
            scored: Ghost(Seq::empty()),
        }
    }

    pub fn alpha(&self) -> (a: i16)
        ensures
            a == self@.alpha,
    {
        self.alpha
    }

    pub fn beta(&self) -> (b: i16)
        ensures
            b == self@.beta,
    {
        self.beta
    }

    pub fn best_eval(&self) -> (e: i16)
        ensures
            e == self@.best_eval,
    {
        self.best_eval
    }

    pub fn best_move(&self) -> (m: u16)
        ensures
            m == self@.best_move,
    {
        self.best_move
    }

    pub fn cutoff(&self) -> (c: bool)
        ensures
            c == self@.cutoff,
    {
        self.cutoff
    }

    /// The child's window for the next move (principal variation search): the full window
    /// `(-beta, -alpha)` for the first move and in quiescence, else the null window
    /// `(-alpha - 1, -alpha)` that only tests whether the move beats alpha.
    pub fn child_window(&self, first: bool, quiescence: bool) -> (w: (i16, i16))
        ensures
            w == (if first || quiescence {
                ((-self@.beta) as i16, (-self@.alpha) as i16)
            } else {
                ((-self@.alpha - 1) as i16, (-self@.alpha) as i16)
            }),
    {
        proof {
            use_type_invariant(self);
        }
        if first || quiescence {
            (-self.beta, -self.alpha)
        } else {
            (-self.alpha - 1, -self.alpha)
        }
    }

    /// A null-window probe that scored `probe` (from the child's side) beat alpha, so the move
    /// needs its real score from a full-window search.
    pub fn needs_research(&self, probe: i16) -> (r: bool)
        requires
            probe > i16::MIN,
        ensures
            r == (-probe > self@.alpha),
    {
        -probe > self.alpha
    }

    /// Scores `mv` at `eval` (from this node's side): a strictly better score makes it the
    /// best move (the returned `improved`), alpha rises to the best score, and the loop is cut
    /// off once alpha reaches beta.
    pub fn record(&mut self, mv: u16, eval: i16) -> (improved: bool)
        requires
            !old(self)@.cutoff,
            eval >= -i16::MAX,
        ensures
            improved == (eval > old(self)@.best_eval),
            final(self)@.alpha_orig == old(self)@.alpha_orig,
            final(self)@.beta == old(self)@.beta,
            final(self)@.first_move == old(self)@.first_move,
            final(self)@.scored == old(self)@.scored.push((mv, eval)),
            final(self)@.best_eval == (if improved {
                eval as int
            } else {
                old(self)@.best_eval
            }),
            final(self)@.best_move == (if improved {
                mv
            } else {
                old(self)@.best_move
            }),
            final(self)@.alpha == (if final(self)@.best_eval > old(self)@.alpha {
                final(self)@.best_eval
            } else {
                old(self)@.alpha
            }),
            final(self)@.cutoff == (final(self)@.alpha >= final(self)@.beta),
            loop_consistent(final(self)@),
    {
        proof {
            use_type_invariant(&*self);
        }
        let improved: bool = eval > self.best_eval;
        let ghost scored: Seq<(u16, i16)> = self.scored@.push((mv, eval));
        proof {
            assert(scored.drop_last() =~= self.scored@);
            lemma_best_of_range(self.first_move@, self.scored@);
        }
        let best_eval: i16 = if improved {
            eval
        } else {
            self.best_eval
        };
        let best_move: u16 = if improved {
            mv
        } else {
            self.best_move
        };
        let alpha: i16 = if best_eval > self.alpha {
            best_eval
        } else {
            self.alpha
        };
        *self = MoveLoop {
            alpha,
            alpha_orig: self.alpha_orig,
            beta: self.beta,
            best_eval,
            best_move,
            cutoff: alpha >= self.beta,
            first_move: self.first_move,
            scored: Ghost(scored),
        };
        improved
    }

    /// The table flag for the node's result (see `node_flag`).
    pub fn tt_flag(&self) -> (f: u8)
        ensures
            f == node_flag(self@.cutoff, self@.best_eval, self@.alpha_orig),
            loop_consistent(self@),
    {
        proof {
            use_type_invariant(self);
        }
        if self.cutoff {
            TT_LOWERB_FLAG
        } else if self.best_eval <= self.alpha_orig {
            TT_UPPERB_FLAG
        } else {
            TT_EXACT_FLAG
        }
    }
}

/// The best score after any sequence of scored moves is at least every one of their scores,
/// and, once above -i16::MAX, it is the score of the first move that reached it.
pub proof fn law_best_is_first_maximum(first: u16, h: Seq<(u16, i16)>)
    ensures
        forall|i: int| 0 <= i < h.len() ==> #[trigger] h[i].1 <= best_of(first, h).0,
        best_of(first, h).0 > -i16::MAX ==> exists|i: int|
            0 <= i < h.len() && h[i] == (best_of(first, h).1, best_of(first, h).0) && forall|
                j: int,
            |
                0 <= j < i ==> #[trigger] h[j].1 < best_of(first, h).0,
        best_of(first, h).0 == -i16::MAX ==> best_of(first, h).1 == first,
    decreases h.len(),
{
    if h.len() > 0 {
        let p = h.drop_last();
        law_best_is_first_maximum(first, p);
        lemma_best_of_range(first, p);
        let prev = best_of(first, p);
        assert forall|i: int| 0 <= i < h.len() implies #[trigger] h[i].1 <= best_of(first, h).0 by {
            if i < h.len() - 1 {
                assert(h[i] == p[i]);
            }
        }
        if h.last().1 > prev.0 {
            if prev.0 > -i16::MAX {
                let k = choose|k: int|
                    0 <= k < p.len() && p[k] == (prev.1, prev.0) && forall|j: int|
                        0 <= j < k ==> #[trigger] p[j].1 < prev.0;
                assert(h[k] == p[k]);
            }
            assert forall|j: int| 0 <= j < h.len() - 1 implies #[trigger] h[j].1 < best_of(
                first,
                h,
            ).0 by {
                assert(h[j] == p[j]);
            }
            assert(h[h.len() - 1] == (best_of(first, h).1, best_of(first, h).0));
        } else if prev.0 > -i16::MAX {
            let k = choose|k: int|
                0 <= k < p.len() && p[k] == (prev.1, prev.0) && forall|j: int|
                    0 <= j < k ==> #[trigger] p[j].1 < prev.0;
            assert(h[k] == p[k]);
            assert forall|j: int| 0 <= j < k implies #[trigger] h[j].1 < best_of(first, h).0 by {
                assert(h[j] == p[j]);
            }
        }
    }
}

/// In a consistent loop over a proper window (`alpha_orig < beta`), the table flag classifies
/// the best score against the window it started with: a lower bound exactly when it reached beta, an
/// upper bound exactly when it never beat alpha, exact exactly when it landed strictly
/// inside.
pub proof fn law_flag_classifies(v: MoveLoopView)
    requires
        loop_consistent(v),
        v.alpha_orig < v.beta,
    ensures
        (node_flag(v.cutoff, v.best_eval, v.alpha_orig) == TT_LOWERB_FLAG) == (v.best_eval
            >= v.beta),
        (node_flag(v.cutoff, v.best_eval, v.alpha_orig) == TT_UPPERB_FLAG) == (v.best_eval
            <= v.alpha_orig),
        (node_flag(v.cutoff, v.best_eval, v.alpha_orig) == TT_EXACT_FLAG) == (v.alpha_orig
            < v.best_eval < v.beta),
{
    if v.scored.len() == 0 {
        assert(v.best_eval == -i16::MAX);
    }
}

/// A loop's alpha never falls below the alpha it started from and never below its best score.
pub proof fn law_alpha_bounds(v: MoveLoopView)
    requires
        loop_consistent(v),
    ensures
        v.alpha >= v.alpha_orig,
        v.alpha >= v.best_eval,
        v.alpha == v.alpha_orig || v.alpha == v.best_eval,
{
}

/// A cutoff move that is quiet and gives no check becomes a killer at its ply.
pub fn note_cutoff_move(killers: &mut KillerTable, ply: u8, mv: u16, capture: bool, gives_check: bool)
    ensures
        (!capture && !gives_check && ply > 0) ==> final(killers).slots() == old(killers).slots().update(
            ply - 1,
            killer_slot_after(old(killers).slots()[ply - 1], mv),
        ),
        (capture || gives_check || ply == 0) ==> final(killers).slots() == old(killers).slots(),
{
    if !capture && !gives_check {
        killers.store(ply, mv);
    }
}

/// Makes `pv` the line `mv` followed by the child's line.
pub fn splice_pv(pv: &mut ArrayVec<u16, MAX_PV_LEN>, mv: u16, child: &ArrayVec<u16, MAX_PV_LEN>)
    requires
        pv_line(*child).len() < MAX_PV_LEN,
    ensures
        pv_line(*final(pv)) == seq![mv] + pv_line(*child),
{
    pv_clear(pv);
    pv_push(pv, mv);
    let n: usize = pv_len(child);
    let mut i: usize = 0;
    while i < n
        invariant
            n == pv_line(*child).len(),
            n < MAX_PV_LEN,
            i <= n,
            pv_line(*pv) == seq![mv] + pv_line(*child).subrange(0, i as int),
        decreases n - i,
    {
        let m: u16 = pv_get(child, i);
        pv_push(pv, m);
        proof {
            assert(pv_line(*child).subrange(0, i + 1) =~= pv_line(*child).subrange(0, i as int).push(m));
        }
        i = i + 1;
    }
    assert(pv_line(*child).subrange(0, n as int) =~= pv_line(*child));
}

/// Storing a killer puts it first in its slot, keeps the slot sound, and storing the same
/// move again changes nothing.
pub proof fn law_killer_store(slot: (Option<u16>, Option<u16>), mv: u16)
    requires
        killer_slot_ok(slot),
    ensures
        killer_slot_after(slot, mv).0 == Some(mv),
        killer_slot_ok(killer_slot_after(slot, mv)),
        killer_slot_after(killer_slot_after(slot, mv), mv) == killer_slot_after(slot, mv),
        slot.0 != Some(mv) ==> killer_slot_after(slot, mv).1 == slot.0,
{
}

// ---------------------------------------------------------------------------------------------
// iterative deepening at the root
// ---------------------------------------------------------------------------------------------

/// The age stamped on table entries during a search: half the number of moves played, wrapped
/// to a byte.
pub fn search_age(moves_played: usize) -> (a: u8)
    ensures
        a == (moves_played / 2) % 256,
{
    ((moves_played / 2) % 256) as u8
}

/// A mate proven within the fully-searched depth `d` (not check extension or quiescence) is
/// trustworthy - every root move was compared at this depth, nothing deeper can improve it -
/// so the search stops.
pub fn mate_proven(best_score: i16, d: u8) -> (r: bool)
    requires
        best_score > i16::MIN,
    ensures
        ({
            let a: int = if best_score < 0 {
                -best_score
            } else {
                best_score as int
            };
            r == (a > MATE_THRESHOLD && 10000 - a <= d)
        }),
{
    let a: i16 = if best_score < 0 {
        -best_score
    } else {
        best_score
    };
    a > MATE_THRESHOLD && 10000 - a <= d as i16
}

/// Of several searches' results, the one that reached the greatest depth; among equals the
/// last, as `Iterator::max_by_key` picks. `None` when there are none.
pub fn deepest_result(depths: &Vec<u8>) -> (r: Option<usize>)
    ensures
        depths@.len() == 0 <==> r is None,
        r matches Some(i) ==> {
            &&& i < depths@.len()
            &&& forall|j: int| 0 <= j < depths@.len() ==> #[trigger] depths@[j] <= depths@[i as int]
            &&& forall|j: int| i < j < depths@.len() ==> #[trigger] depths@[j] < depths@[i as int]
        },
{
    let n: usize = depths.len();
    if n == 0 {
        return None;
    }
    let mut best: usize = 0;
    let mut j: usize = 1;
    while j < n
        invariant
            n == depths@.len(),
            1 <= j <= n,
            best < j,
            forall|k: int| 0 <= k < j ==> #[trigger] depths@[k] <= depths@[best as int],
            forall|k: int| best < k < j ==> #[trigger] depths@[k] < depths@[best as int],
        decreases n - j,
    {
        if depths[j] >= depths[best] {
            best = j;
        }
        j = j + 1;
    }
    Some(best)
}

/// The reply to ponder on alongside the chosen move: the second move of its line, when
/// pondering is enabled and the line has one.
pub fn ponder_move(best: &RootBest, ponder_enabled: bool) -> (r: Option<u16>)
    ensures
        r == (if ponder_enabled && pv_line(best.pv).len() > 1 {
            Some(pv_line(best.pv)[1])
        } else {
            None
        }),
{
    if ponder_enabled && pv_len(&best.pv) > 1 {
        Some(pv_get(&best.pv, 1))
    } else {
        None
    }
}

} // verus!
