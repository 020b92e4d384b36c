//! Alpha-beta search in negamax form with a quiescence search at the
//! horizon, a transposition table, and move ordering by captures and killer
//! moves.

use vstd::prelude::*;
use std::collections::HashMap;
use crate::board::{Board, Piece, Side, lemma_kings_stay_single};
use crate::eval::{eval, eval_spec};
use crate::game::{
    GameState, Situation, lemma_made_situation, lemma_make_undo_exact, lemma_same_situation,
};
use crate::movegen::{all_fit, in_check, legal_moves};
use crate::moves::{MAX_GAME_PLY, Move, MoveResult};
use crate::zobrist::ZobristHasher;

verus! {

broadcast use vstd::std_specs::hash::group_hash_axioms;

/// No score is larger than this, or smaller than its negative.
pub const INFINITY: i32 = 1_000_000;

/// The score of giving mate at once.
pub const MATE: i32 = 200_000;

/// How many plies the quiescence search may go beyond the horizon.
pub const QUIESCENCE_PLIES: usize = 15;

/// What a stored score says of the true one.
#[derive(Clone, Copy, PartialEq, Eq, Structural, Debug)]
pub enum TransitionTableFlag {
    /// The score is the true one.
    Exact,
    /// The true score is at least the stored one.
    LowerBound,
    /// The true score is at most the stored one.
    UpperBound,
}

/// An entry of the transposition table.
#[derive(Clone, Copy, Debug)]
pub struct TableEntry {
    pub score: i32,
    pub depth: usize,
    pub flag: TransitionTableFlag,
}

/// A score within the bounds.
pub open spec fn in_range(score: int) -> bool {
    -INFINITY <= score <= INFINITY
}

/// A score seen from the other point of view where Black is to move: from
/// White's to the mover's, or back.
pub open spec fn from_side_spec(side: Side, score: i32) -> i32 {
    match side {
        Side::White => score,
        Side::Black => (-score) as i32,
    }
}

#[verifier::when_used_as_spec(from_side_spec)]
pub fn from_side(side: Side, score: i32) -> (r: i32)
    requires
        in_range(score as int),
    ensures
        r == from_side_spec(side, score),
        in_range(r as int),
{
    match side {
        Side::White => score,
        Side::Black => -score,
    }
}

/// The score of a position without legal moves, for the side to move: mate
/// counts the less the later it comes, stalemate is a draw.
pub open spec fn terminal_score(in_check: bool, ply: int) -> int {
    if in_check {
        -MATE + ply
    } else {
        0
    }
}

impl TableEntry {
    /// The entry may stand for a search at `ply` with the window from
    /// `alpha` to `beta`: it was stored deeper than `ply`, and is exact, or
    /// a lower bound that reaches `beta`, or an upper bound that does not
    /// exceed `alpha`.
    pub open spec fn usable_spec(&self, ply: usize, alpha: i32, beta: i32) -> bool {
        self.depth > ply && (self.flag == TransitionTableFlag::Exact || (self.flag
            == TransitionTableFlag::LowerBound && self.score >= beta) || (self.flag
            == TransitionTableFlag::UpperBound && self.score <= alpha))
    }

    #[verifier::when_used_as_spec(usable_spec)]
    pub fn usable(&self, ply: usize, alpha: i32, beta: i32) -> (r: bool)
        ensures
            r == self.usable_spec(ply, alpha, beta),
    {
        self.depth > ply && (self.flag == TransitionTableFlag::Exact || (self.flag
            == TransitionTableFlag::LowerBound && self.score >= beta) || (self.flag
            == TransitionTableFlag::UpperBound && self.score <= alpha))
    }
}

/// The flag of the entry that a finished node stores: a score that beat
/// `beta` is a lower bound, one that rose above the `alpha` it started with
/// is exact, any other an upper bound.
pub open spec fn flag_for_spec(score: i32, alpha_at_entry: i32, beta: i32) -> TransitionTableFlag {
    if score >= beta {
        TransitionTableFlag::LowerBound
    } else if score > alpha_at_entry {
        TransitionTableFlag::Exact
    } else {
        TransitionTableFlag::UpperBound
    }
}

#[verifier::when_used_as_spec(flag_for_spec)]
pub fn flag_for(score: i32, alpha_at_entry: i32, beta: i32) -> (flag: TransitionTableFlag)
    ensures
        flag == flag_for_spec(score, alpha_at_entry, beta),
{
    if score >= beta {
        TransitionTableFlag::LowerBound
    } else if score > alpha_at_entry {
        TransitionTableFlag::Exact
    } else {
        TransitionTableFlag::UpperBound
    }
}

/// Where a move of priority `key` goes into moves that are in order, from
/// place `at` on: behind the moves of the same or a higher priority.
pub open spec fn insertion_point(
    sorted: Seq<Move>,
    key: int,
    ply: int,
    killer_list: [[Move; 1024]; 2],
    at: int,
) -> int
    decreases sorted.len() - at,
{
    if 0 <= at < sorted.len() && sorted[at].prio_spec(ply, killer_list) >= key {
        insertion_point(sorted, key, ply, killer_list, at + 1)
    } else {
        at
    }
}

/// The first `n` of the moves in the order of their priorities, highest
/// first, moves of the same priority in the order in which they came.
pub open spec fn sorted_upto(moves: Seq<Move>, ply: int, killer_list: [[Move; 1024]; 2], n: int) -> Seq<
    Move,
>
    decreases n,
{
    if n <= 0 {
        Seq::empty()
    } else {
        let before = sorted_upto(moves, ply, killer_list, n - 1);
        before.insert(
            insertion_point(before, moves[n - 1].prio_spec(ply, killer_list), ply, killer_list, 0),
            moves[n - 1],
        )
    }
}

/// The moves in the order of their priorities, highest first, moves of the
/// same priority in the order in which they came.
pub open spec fn sorted_moves(moves: Seq<Move>, ply: int, killer_list: [[Move; 1024]; 2]) -> Seq<Move> {
    sorted_upto(moves, ply, killer_list, moves.len() as int)
}

/// The killer moves `new` are the killer moves `old` with `m` recorded as
/// the newest of `ply`.
pub open spec fn killers_with(
    old_list: [[Move; 1024]; 2],
    m: Move,
    ply: int,
    new_list: [[Move; 1024]; 2],
) -> bool {
    &&& new_list[0][ply] == m
    &&& new_list[1][ply] == if old_list[0][ply] != m {
        old_list[0][ply]
    } else {
        old_list[1][ply]
    }
    &&& forall|i: int, other: int|
        0 <= i < 2 && 0 <= other < 1024 && other != ply ==> #[trigger] new_list[i][other]
            == old_list[i][other]
}

/// The killer moves after `m` is recorded as the newest of `ply`.
pub open spec fn killers_after(old_list: [[Move; 1024]; 2], m: Move, ply: int) -> [[Move; 1024]; 2] {
    choose|new_list: [[Move; 1024]; 2]| killers_with(old_list, m, ply, new_list)
}

/// Recording a killer move has one outcome.
pub proof fn lemma_killers_after(
    old_list: [[Move; 1024]; 2],
    m: Move,
    ply: int,
    new_list: [[Move; 1024]; 2],
)
    requires
        0 <= ply < 1024,
        killers_with(old_list, m, ply, new_list),
    ensures
        new_list == killers_after(old_list, m, ply),
{
    let other = killers_after(old_list, m, ply);
    assert(killers_with(old_list, m, ply, other));
    assert forall|i: int| 0 <= i < 2 implies new_list[i] == other[i] by {
        assert forall|j: int| 0 <= j < 1024 implies new_list[i][j] == other[i][j] by {
            if j != ply {
                assert(new_list[i][j] == old_list[i][j]);
                assert(other[i][j] == old_list[i][j]);
            }
        }
        assert(new_list[i]@ =~= other[i]@);
    }
    assert(new_list@ =~= other@);
}

/// The moves are in the order of their priorities, highest first.
pub open spec fn ordered(moves: Seq<Move>, ply: int, killer_list: [[Move; 1024]; 2]) -> bool {
    forall|i: int, j: int|
        0 <= i < j < moves.len() ==> moves[i].prio_spec(ply, killer_list) >= moves[j].prio_spec(
            ply,
            killer_list,
        )
}

/// Two sequences with the same elements, each as often, have the same
/// length and hold the same values.
pub proof fn lemma_same_elements<A>(a: Seq<A>, b: Seq<A>)
    requires
        a.to_multiset() == b.to_multiset(),
    ensures
        a.len() == b.len(),
        forall|x: A| a.contains(x) == b.contains(x),
{
    a.to_multiset_ensures();
    b.to_multiset_ensures();
    assert forall|x: A| a.contains(x) == b.contains(x) by {
        vstd::seq_lib::to_multiset_contains(a, x);
        vstd::seq_lib::to_multiset_contains(b, x);
    }
}

/// Every move of the sequence is one of the legal moves of the board.
pub open spec fn all_listed(b: Board, moves: Seq<Move>) -> bool {
    forall|i: int| 0 <= i < moves.len() ==> legal_moves(b).contains(#[trigger] moves[i])
}

/// Moves that are the legal moves in another order are legal moves, and
/// fit the board as the legal moves do.
pub proof fn lemma_reordered_fit(b: Board, moves: Seq<Move>)
    requires
        moves.to_multiset() == legal_moves(b).to_multiset(),
        all_fit(b, legal_moves(b)),
    ensures
        all_fit(b, moves),
        all_listed(b, moves),
        moves.len() == legal_moves(b).len(),
{
    lemma_same_elements(moves, legal_moves(b));
    assert forall|i: int| 0 <= i < moves.len() implies (#[trigger] moves[i]).side
        == b.side_to_move && b.applicable(moves[i]) && legal_moves(b).contains(moves[i]) by {
        assert(moves.contains(moves[i]));
        assert(legal_moves(b).contains(moves[i]));
        let j = choose|j: int| 0 <= j < legal_moves(b).len() && legal_moves(b)[j] == moves[i];
        assert(legal_moves(b)[j].side == b.side_to_move);
    }
}

/// The searcher: transposition table, killer moves, and the best move and
/// principal variation of the last search.
pub struct SearchAsync {
    pub tt: HashMap<u64, TableEntry>,
    /// For each slot and ply a move that refuted a sibling.
    pub killer_list: [[Move; 1024]; 2],
    pub best_move: Move,
    pub pv_list: Vec<Move>,
}

impl SearchAsync {
    /// What the searcher knows, as a value.
    pub open spec fn state(&self) -> SearchState {
        SearchState { tt: self.tt@, killer_list: self.killer_list, best_move: self.best_move }
    }

    /// Every stored score is within the bounds.
    pub open spec fn wf(&self) -> bool {
        forall|key: u64| #[trigger] self.tt@.contains_key(key) ==> in_range(self.tt@[key].score as int)
    }

    /// A searcher that knows nothing yet.
    pub fn new() -> (s: Self)
        ensures
            s.wf(),
            s.tt@ == Map::<u64, TableEntry>::empty(),
            s.best_move == Move::null(),
            s.pv_list@ == Seq::<Move>::empty(),
            forall|i: int, ply: int|
                0 <= i < 2 && 0 <= ply < 1024 ==> #[trigger] s.killer_list[i][ply] == Move::null(),
    {
        Self {
            tt: HashMap::with_capacity(1_000_000),
            killer_list: [[Move::null();1024];2],
            best_move: Move::null(),
            pv_list: Vec::new(),
        }
    }

    /// Records `m` as the newest killer move of `ply`. The move that was
    /// newest becomes the second, unless it is `m` itself.
    pub fn store_killer(&mut self, m: &Move, ply: usize)
        requires
            ply < MAX_GAME_PLY,
            old(self).wf(),
        ensures
            final(self).wf(),
            final(self).tt == old(self).tt,
            final(self).best_move == old(self).best_move,
            final(self).pv_list == old(self).pv_list,
            final(self).killer_list == killers_after(old(self).killer_list, *m, ply as int),
            final(self).killer_list[0][ply as int] == *m,
            final(self).killer_list[1][ply as int] == if old(self).killer_list[0][ply as int]
                != *m {
                old(self).killer_list[0][ply as int]
            } else {
                old(self).killer_list[1][ply as int]
            },
            forall|i: int, other: int|
                0 <= i < 2 && 0 <= other < 1024 && other != ply
                    ==> #[trigger] final(self).killer_list[i][other] == old(
                    self,
                ).killer_list[i][other],
    {
        let first_killer = self.killer_list[0][ply];
        let mut first = self.killer_list[0];
        if first_killer != *m {
            let mut second = self.killer_list[1];
            second[ply] = first_killer;
            self.killer_list[1] = second;
        }
        first[ply] = *m;
        self.killer_list[0] = first;
        proof {
            lemma_killers_after(old(self).killer_list, *m, ply as int, self.killer_list);
        }
    }

    /// Puts the moves in the order of their priorities at `ply`, highest
    /// first. Moves of the same priority keep their order.
    pub fn order_moves(&self, moves: &mut Vec<Move>, ply: usize)
        requires
            ply < MAX_GAME_PLY,
        ensures
            final(moves)@ == sorted_moves(old(moves)@, ply as int, self.killer_list),
            final(moves)@.to_multiset() == old(moves)@.to_multiset(),
            ordered(final(moves)@, ply as int, self.killer_list),
    {
        let mut sorted: Vec<Move> = Vec::new();
        let mut keys: Vec<u32> = Vec::new();
        let mut k: usize = 0;
        let n = moves.len();
        assert(moves@.subrange(0, 0) =~= Seq::<Move>::empty());
        while k < n
            invariant
                k <= n,
                n == moves@.len(),
                moves@ == old(moves)@,
                ply < MAX_GAME_PLY,
                keys@.len() == sorted@.len(),
                sorted@.len() == k,
                forall|i: int|
                    0 <= i < k ==> #[trigger] keys@[i] == sorted@[i].prio_spec(
                        ply as int,
                        self.killer_list,
                    ),
                forall|i: int, j: int| 0 <= i < j < k ==> keys@[i] >= keys@[j],
                sorted@.to_multiset() == moves@.subrange(0, k as int).to_multiset(),
                sorted@ == sorted_upto(moves@, ply as int, self.killer_list, k as int),
            decreases n - k,
        {
            let m = moves[k];
            let key = m.prio(ply, &self.killer_list);
            let mut at: usize = 0;
            while at < sorted.len() && keys[at] >= key
                invariant
                    at <= sorted@.len(),
                    keys@.len() == sorted@.len(),
                    forall|i: int| 0 <= i < at ==> keys@[i] >= key,
                    forall|i: int|
                        0 <= i < sorted@.len() ==> #[trigger] keys@[i] == sorted@[i].prio_spec(
                            ply as int,
                            self.killer_list,
                        ),
                    insertion_point(sorted@, key as int, ply as int, self.killer_list, 0)
                        == insertion_point(
                        sorted@,
                        key as int,
                        ply as int,
                        self.killer_list,
                        at as int,
                    ),
                decreases sorted@.len() - at,
            {
                at += 1;
            }
            proof {
                assert(moves@.subrange(0, k + 1) =~= moves@.subrange(0, k as int).push(m));
                vstd::seq_lib::to_multiset_build(moves@.subrange(0, k as int), m);
                vstd::seq_lib::to_multiset_insert(sorted@, at as int, m);
            }
            sorted.insert(at, m);
            keys.insert(at, key);
            k += 1;
        }
        assert(moves@.subrange(0, n as int) =~= moves@);
        assert forall|i: int, j: int| 0 <= i < j < sorted@.len() implies sorted@[i].prio_spec(
            ply as int,
            self.killer_list,
        ) >= sorted@[j].prio_spec(ply as int, self.killer_list) by {
            assert(keys@[i] >= keys@[j]);
        }
        *moves = sorted;
    }
}


/// What the searcher knows, as a value: the transposition table, the
/// killer moves and the best move.
pub ghost struct SearchState {
    pub tt: Map<u64, TableEntry>,
    pub killer_list: [[Move; 1024]; 2],
    pub best_move: Move,
}

/// What a search hands back: the score, what the searcher knows after it,
/// and the principal variation.
pub ghost struct Outcome {
    pub score: i32,
    pub state: SearchState,
    pub pv: Seq<Move>,
}

/// The state with a score stored for a key.
pub open spec fn stored(
    state: SearchState,
    key: u64,
    score: i32,
    depth: usize,
    flag: TransitionTableFlag,
) -> SearchState {
    SearchState { tt: state.tt.insert(key, TableEntry { score, depth, flag }), ..state }
}

/// The score that the table holds for a key, where it may stand for a
/// search at `ply` with the given window.
pub open spec fn probed(state: SearchState, key: u64, ply: usize, alpha: i32, beta: i32) -> Option<
    i32,
> {
    if state.tt.contains_key(key) && state.tt[key].usable(ply, alpha, beta) {
        Some(state.tt[key].score)
    } else {
        None
    }
}

/// The legal moves of a situation in the order in which a node at `ply`
/// tries them.
pub open spec fn ordered_replies(situation: Situation, ply: int, state: SearchState) -> Seq<Move> {
    sorted_moves(legal_moves(situation.board), ply, state.killer_list)
}

/// The ply at which the quiescence search that starts at `ply` stops.
pub open spec fn quiescence_horizon(ply: usize) -> usize {
    if ply + QUIESCENCE_PLIES < MAX_GAME_PLY - 1 {
        (ply + QUIESCENCE_PLIES) as usize
    } else {
        (MAX_GAME_PLY - 1) as usize
    }
}

/// The quiescence search: the score of a mate or a draw where the game
/// has ended; else the static evaluation at the horizon; else beta where
/// the static evaluation reaches it; else the outcome of trying the
/// captures and promotions, or all moves when in check, with alpha raised
/// to the static evaluation.
pub open spec fn qsearch_spec(
    state: SearchState,
    hasher: ZobristHasher,
    situation: Situation,
    moves: Seq<Move>,
    horizon: usize,
    ply: usize,
    in_check: bool,
    alpha: i32,
    beta: i32,
    pv: Seq<Move>,
) -> Outcome
    decreases horizon - ply, 1int, 0int,
{
    let stand_pat = from_side(situation.board.side_to_move, eval_spec(situation.board) as i32);
    match situation.move_result(moves.len(), in_check) {
        Some(MoveResult::Checkmate) => Outcome { score: (-MATE + ply) as i32, state, pv },
        Some(MoveResult::Draw(_)) => Outcome { score: 0, state, pv },
        _ => if ply >= horizon {
            Outcome { score: stand_pat, state, pv }
        } else if stand_pat >= beta {
            Outcome { score: beta, state, pv }
        } else {
            let raised = if alpha < stand_pat {
                stand_pat
            } else {
                alpha
            };
            qsearch_moves(
                state,
                hasher,
                situation,
                moves,
                0,
                horizon,
                ply,
                in_check,
                raised,
                beta,
                pv,
                stand_pat,
                raised,
            )
        },
    }
}

/// The quiescence search from move `i` of a node on: each capture or
/// promotion, or each move when in check, is made and searched with the
/// window turned round; a score that reaches beta ends the node with
/// beta; a score above alpha raises alpha and gives the principal
/// variation; at the end alpha is stored and returned.
pub open spec fn qsearch_moves(
    state: SearchState,
    hasher: ZobristHasher,
    situation: Situation,
    moves: Seq<Move>,
    i: int,
    horizon: usize,
    ply: usize,
    in_check: bool,
    alpha: i32,
    beta: i32,
    pv: Seq<Move>,
    stand_pat: i32,
    alpha_at_entry: i32,
) -> Outcome
    decreases horizon - ply, 0int, moves.len() - i,
{
    if i < 0 || i >= moves.len() || ply >= horizon {
        Outcome {
            score: alpha,
            state: stored(
                state,
                situation.pos_hash,
                alpha,
                ply,
                flag_for(stand_pat, alpha_at_entry, beta),
            ),
            pv,
        }
    } else {
        let m = moves[i];
        if in_check || m.is_capture() || m.is_promotion() {
            let child = situation.after(hasher, m);
            let below = qsearch_spec(
                state,
                hasher,
                child,
                ordered_replies(child, ply + 1, state),
                horizon,
                (ply + 1) as usize,
                crate::movegen::in_check(child.board),
                (-beta) as i32,
                (-alpha) as i32,
                Seq::empty(),
            );
            let score = (-below.score) as i32;
            if score >= beta {
                Outcome { score: beta, state: below.state, pv }
            } else if score > alpha {
                qsearch_moves(
                    below.state,
                    hasher,
                    situation,
                    moves,
                    i + 1,
                    horizon,
                    ply,
                    in_check,
                    score,
                    beta,
                    seq![m] + below.pv,
                    stand_pat,
                    alpha_at_entry,
                )
            } else {
                qsearch_moves(
                    below.state,
                    hasher,
                    situation,
                    moves,
                    i + 1,
                    horizon,
                    ply,
                    in_check,
                    alpha,
                    beta,
                    pv,
                    stand_pat,
                    alpha_at_entry,
                )
            }
        } else {
            qsearch_moves(
                state,
                hasher,
                situation,
                moves,
                i + 1,
                horizon,
                ply,
                in_check,
                alpha,
                beta,
                pv,
                stand_pat,
                alpha_at_entry,
            )
        }
    }
}

/// The depth that is left at a node: one more where the side to move is in
/// check or has a single reply.
pub open spec fn extended_depth(depth_remaining: usize, n_moves: nat, in_check: bool) -> usize {
    if (in_check || n_moves == 1) && depth_remaining < usize::MAX {
        (depth_remaining + 1) as usize
    } else {
        depth_remaining
    }
}

/// The search: the quiescence search where no depth is left; the score of
/// mate or stalemate where no move is legal; a score from the table where
/// one may stand for this node; else the outcome of trying the moves in
/// their order.
pub open spec fn negamax_spec(
    state: SearchState,
    hasher: ZobristHasher,
    situation: Situation,
    moves: Seq<Move>,
    depth_remaining: usize,
    ply: usize,
    in_check: bool,
    alpha: i32,
    beta: i32,
    pv: Seq<Move>,
) -> Outcome
    decreases MAX_GAME_PLY - ply, 1int, 0int,
{
    let depth = extended_depth(depth_remaining, moves.len(), in_check);
    if depth == 0 || ply >= MAX_GAME_PLY - 1 {
        qsearch_spec(
            state,
            hasher,
            situation,
            moves,
            quiescence_horizon(ply),
            ply,
            in_check,
            alpha,
            beta,
            pv,
        )
    } else if moves.len() == 0 {
        Outcome { score: terminal_score(in_check, ply as int) as i32, state, pv }
    } else {
        match probed(state, situation.pos_hash, ply, alpha, beta) {
            Some(score) => Outcome { score, state, pv },
            None => negamax_moves(
                state,
                hasher,
                situation,
                moves,
                0,
                depth,
                ply,
                alpha,
                beta,
                pv,
                alpha,
            ),
        }
    }
}

/// The search from move `i` of a node on: each move is made and searched
/// one ply less deep with the window turned round; a score that reaches
/// beta ends the node with beta, the move kept as a killer move if it
/// captures nothing, and beta stored as a lower bound; a score above alpha
/// raises alpha, gives the principal variation and, at ply 1, the best
/// move; at the end alpha is stored, as exact if it was raised and as an
/// upper bound if not, and returned.
pub open spec fn negamax_moves(
    state: SearchState,
    hasher: ZobristHasher,
    situation: Situation,
    moves: Seq<Move>,
    i: int,
    depth: usize,
    ply: usize,
    alpha: i32,
    beta: i32,
    pv: Seq<Move>,
    alpha_at_entry: i32,
) -> Outcome
    decreases MAX_GAME_PLY - ply, 0int, moves.len() - i,
{
    if i < 0 || i >= moves.len() || ply >= MAX_GAME_PLY - 1 || depth == 0 {
        Outcome {
            score: alpha,
            state: stored(
                state,
                situation.pos_hash,
                alpha,
                ply,
                flag_for(alpha, alpha_at_entry, beta),
            ),
            pv,
        }
    } else {
        let m = moves[i];
        let child = situation.after(hasher, m);
        let below = negamax_spec(
            state,
            hasher,
            child,
            ordered_replies(child, ply + 1, state),
            (depth - 1) as usize,
            (ply + 1) as usize,
            crate::movegen::in_check(child.board),
            (-beta) as i32,
            (-alpha) as i32,
            Seq::empty(),
        );
        let score = (-below.score) as i32;
        if score >= beta {
            let remembered = if !m.is_capture() {
                SearchState {
                    killer_list: killers_after(below.state.killer_list, m, ply as int),
                    ..below.state
                }
            } else {
                below.state
            };
            Outcome {
                score: beta,
                state: stored(
                    remembered,
                    situation.pos_hash,
                    beta,
                    ply,
                    TransitionTableFlag::LowerBound,
                ),
                pv,
            }
        } else if score > alpha {
            let improved = if ply == 1 {
                SearchState { best_move: m, ..below.state }
            } else {
                below.state
            };
            negamax_moves(
                improved,
                hasher,
                situation,
                moves,
                i + 1,
                depth,
                ply,
                score,
                beta,
                seq![m] + below.pv,
                alpha_at_entry,
            )
        } else {
            negamax_moves(
                below.state,
                hasher,
                situation,
                moves,
                i + 1,
                depth,
                ply,
                alpha,
                beta,
                pv,
                alpha_at_entry,
            )
        }
    }
}

/// The search from the root: the table is cleared, the legal moves are put
/// in order, the first of them is taken as the best move until a better
/// one is found, and the position is searched with the widest window.
pub open spec fn root_search(
    killer_list: [[Move; 1024]; 2],
    hasher: ZobristHasher,
    situation: Situation,
    depth: usize,
) -> Outcome {
    let cleared = SearchState { tt: Map::empty(), killer_list, best_move: Move::null() };
    let moves = ordered_replies(situation, 1, cleared);
    let state = SearchState {
        best_move: if moves.len() > 0 {
            moves[0]
        } else {
            Move::null()
        },
        ..cleared
    };
    negamax_spec(
        state,
        hasher,
        situation,
        moves,
        depth,
        1,
        in_check(situation.board),
        (-INFINITY) as i32,
        INFINITY,
        Seq::empty(),
    )
}

/// A move made, a search below it that leaves the game as it found it, and
/// the move taken back: the game is as it was.
pub proof fn lemma_child_round_trip<'a>(
    before: GameState<'a>,
    m: Move,
    made: GameState<'a>,
    returned: GameState<'a>,
    after: GameState<'a>,
)
    requires
        before.wf(),
        before.board.applicable(m),
        before.made(m, &made),
        returned.same_as(&made),
        before.headroom(1),
        returned.restored(m, before.saved_spec(), &after),
    ensures
        after.same_as(&before),
{
    assert(before.made(m, &returned));
    lemma_make_undo_exact(before, m, returned, after);
}

/// Being the same game carries over.
pub proof fn lemma_same_transitive<'a>(a: GameState<'a>, b: GameState<'a>, c: GameState<'a>)
    requires
        a.same_as(&b),
        b.same_as(&c),
    ensures
        a.same_as(&c),
{
    assert forall|key: u64| a.occurrences(key) == c.occurrences(key) by {
        assert(a.occurrences(key) == b.occurrences(key));
        assert(b.occurrences(key) == c.occurrences(key));
    }
}

/// After a move that fits the board was made, each side has at most one
/// king, as before.
pub proof fn lemma_made_kings<'a>(before: GameState<'a>, m: Move, made: GameState<'a>)
    requires
        before.board.kings_single(),
        before.board.applicable(m),
        before.made(m, &made),
    ensures
        made.board.kings_single(),
{
    lemma_kings_stay_single(before.board, m);
    let after = before.board.after_move(m);
    assert forall|side: Side, s: int, t: int|
        crate::bits::in_bb(made.board.bb(Piece::King, side), s) && crate::bits::in_bb(
            made.board.bb(Piece::King, side),
            t,
        ) implies s == t by {
        assert(made.board.bb(Piece::King, side) == after.bb(Piece::King, side));
    }
}

/// What a made move leaves of the room in the counters.
pub proof fn lemma_headroom_after<'a>(before: GameState<'a>, m: Move, made: GameState<'a>, n: int)
    requires
        before.made(m, &made),
        before.headroom(n),
        n >= 1,
    ensures
        made.headroom(n - 1),
{
    assert forall|key: u64| #[trigger] made.occurrences(key) + (n - 1) <= usize::MAX by {
        assert(before.occurrences(key) + n <= usize::MAX);
    }
}

/// The same game has the same room in its counters.
pub proof fn lemma_headroom_same<'a>(a: GameState<'a>, b: GameState<'a>, n: int)
    requires
        a.same_as(&b),
        b.headroom(n),
    ensures
        a.headroom(n),
{
    assert forall|key: u64| #[trigger] a.occurrences(key) + n <= usize::MAX by {
        assert(b.occurrences(key) + n <= usize::MAX);
    }
}

/// Replaces the principal variation by `m` followed by the variation of the
/// node below.
pub fn set_pv(pv: &mut Vec<Move>, m: Move, child: &mut Vec<Move>)
    ensures
        final(pv)@ == seq![m] + old(child)@,
        final(child)@ == Seq::<Move>::empty(),
{
    pv.clear();
    pv.push(m);
    pv.append(child);
    assert(pv@ =~= seq![m] + old(child)@);
}

impl SearchAsync {
    /// Stores a score for the position with the given key.
    fn store(&mut self, key: u64, score: i32, depth: usize, flag: TransitionTableFlag)
        requires
            old(self).wf(),
            in_range(score as int),
        ensures
            final(self).wf(),
            final(self).tt@ == old(self).tt@.insert(key, TableEntry { score, depth, flag }),
            final(self).killer_list == old(self).killer_list,
            final(self).best_move == old(self).best_move,
            final(self).pv_list == old(self).pv_list,
    {
        self.tt.insert(key, TableEntry { score, depth, flag });
    }

    /// The score that the table holds for the position with the given key,
    /// where it may stand for a search at `ply` with the given window.
    fn probe(&self, key: u64, ply: usize, alpha: i32, beta: i32) -> (res: Option<i32>)
        requires
            self.wf(),
        ensures
            res matches Some(score) ==> in_range(score as int) && self.tt@.contains_key(key)
                && self.tt@[key].score == score && self.tt@[key].usable(ply, alpha, beta),
            res is None ==> !(self.tt@.contains_key(key) && self.tt@[key].usable(ply, alpha, beta)),
    {
        match self.tt.get(&key) {
            Some(entry) => {
                if entry.usable(ply, alpha, beta) {
                    Some(entry.score)
                } else {
                    None
                }
            },
            None => None,
        }
    }

    /// Searches captures and promotions, and all replies to a check, until
    /// the position is quiet or `horizon` is reached. The score is that of
    /// the side to move, within the window from `alpha` to `beta`.
    pub fn qsearch(
        &mut self,
        game: &mut GameState,
        legal_moves: &Vec<Move>,
        horizon: usize,
        ply: usize,
        in_check: bool,
        alpha: i32,
        beta: i32,
        pv: &mut Vec<Move>,
    ) -> (score: i32)
        requires
            old(self).wf(),
            old(game).wf(),
            old(game).board.kings_single(),
            legal_moves@.to_multiset() == crate::movegen::legal_moves(
                old(game).board,
            ).to_multiset(),
            in_check == crate::movegen::in_check(old(game).board),
            1 <= ply <= horizon < MAX_GAME_PLY,
            in_range(alpha as int),
            in_range(beta as int),
            old(game).headroom(MAX_GAME_PLY - ply),
        ensures
            final(self).wf(),
            final(self).best_move == old(self).best_move,
            final(game).wf(),
            final(game).same_as(old(game)),
            in_range(score as int),
            legal_moves@.len() == 0 ==> score == terminal_score(in_check, ply as int),
            final(pv)@ == old(pv)@ || (final(pv)@.len() > 0 && legal_moves@.contains(
                final(pv)@[0],
            )),
            (Outcome { score, state: final(self).state(), pv: final(pv)@ }) == qsearch_spec(
                old(self).state(),
                old(game).zobrist_hasher,
                old(game).situation(),
                legal_moves@,
                horizon,
                ply,
                in_check,
                alpha,
                beta,
                old(pv)@,
            ),
        decreases horizon - ply,
    {
        let ghost start = *game;
        let ghost hasher = game.zobrist_hasher;
        let ghost here = game.situation();
        proof {
            crate::movegen::lemma_legal_moves_fit(game.board);
            lemma_reordered_fit(game.board, legal_moves@);
        }
        let stand_pat = from_side(game.board.side_to_move, eval(game));
        match game.get_move_result(legal_moves, in_check) {
            Some(MoveResult::Checkmate) => {
                return -MATE + ply as i32;
            },
            Some(MoveResult::Draw(_)) => {
                return 0;
            },
            _ => {},
        }
        if ply >= horizon {
            return stand_pat;
        }
        if stand_pat >= beta {
            return beta;
        }
        let mut raised = alpha;
        if raised < stand_pat {
            raised = stand_pat;
        }
        let old_alpha = raised;
        let saved = game.save();
        let mut i: usize = 0;
        while i < legal_moves.len()
            invariant
                self.wf(),
                self.best_move == old(self).best_move,
                game.wf(),
                game.same_as(&start),
                game.situation() == here,
                here == start.situation(),
                here == old(game).situation(),
                hasher == old(game).zobrist_hasher,
                game.zobrist_hasher == hasher,
                start == *old(game),
                start.wf(),
                start.board.kings_single(),
                start.headroom(MAX_GAME_PLY - ply),
                saved == start.saved_spec(),
                all_fit(start.board, legal_moves@),
                all_listed(start.board, legal_moves@),
                1 <= ply < horizon < MAX_GAME_PLY,
                in_range(raised as int),
                in_range(beta as int),
                pv@ == old(pv)@ || (pv@.len() > 0 && legal_moves@.contains(pv@[0])),
                qsearch_moves(
                    self.state(),
                    hasher,
                    here,
                    legal_moves@,
                    i as int,
                    horizon,
                    ply,
                    in_check,
                    raised,
                    beta,
                    pv@,
                    stand_pat,
                    old_alpha,
                ) == qsearch_spec(
                    old(self).state(),
                    hasher,
                    here,
                    legal_moves@,
                    horizon,
                    ply,
                    in_check,
                    alpha,
                    beta,
                    old(pv)@,
                ),
            decreases legal_moves@.len() - i,
        {
            let m = legal_moves[i];
            if in_check || m.is_capture() || m.is_promotion() {
                let mut node_pv: Vec<Move> = Vec::new();
                let ghost before = *game;
                let ghost knowing = self.state();
                proof {
                    lemma_headroom_same(before, start, MAX_GAME_PLY - ply);
                    lemma_headroom_weaker(before, MAX_GAME_PLY - ply, 1);
                    assert(before.board.applicable(m));
                    assert(crate::movegen::legal_moves(before.board).contains(m));
                }
                game.update_board_with_move(&m);
                let ghost made = *game;
                proof {
                    lemma_headroom_after(before, m, made, MAX_GAME_PLY - ply);
                    lemma_made_kings(before, m, made);
                    lemma_made_situation(before, m, made);
                }
                let (mut replies, reply_check) = game.get_legal_moves();
                self.order_moves(&mut replies, ply + 1);
                assert(replies@ == ordered_replies(here.after(hasher, m), ply + 1, knowing));
                let score = -self.qsearch(
                    game,
                    &replies,
                    horizon,
                    ply + 1,
                    reply_check,
                    -beta,
                    -raised,
                    &mut node_pv,
                );
                let ghost below = qsearch_spec(
                    knowing,
                    hasher,
                    here.after(hasher, m),
                    ordered_replies(here.after(hasher, m), ply + 1, knowing),
                    horizon,
                    (ply + 1) as usize,
                    crate::movegen::in_check(here.after(hasher, m).board),
                    (-beta) as i32,
                    (-raised) as i32,
                    Seq::empty(),
                );
                assert(below.score == -score && below.state == self.state() && below.pv
                    == node_pv@);
                let ghost returned = *game;
                game.undo(&m, &saved);
                proof {
                    lemma_child_round_trip(before, m, made, returned, *game);
                    lemma_same_transitive(*game, before, start);
                    lemma_same_situation(*game, start);
                }
                if score >= beta {
                    return beta;
                }
                if score > raised {
                    raised = score;
                    set_pv(pv, m, &mut node_pv);
                }
            }
            i += 1;
        }
        self.store(game.pos_hash, raised, ply, flag_for(stand_pat, old_alpha, beta));
        raised
    }

    /// Searches the position `depth_remaining` plies deep, one more where
    /// the side to move is in check or has a single reply, and goes on with
    /// the quiescence search from there. The score is that of the side to
    /// move: the beta it was given where a move reaches it, else the alpha
    /// it was given or the best score above it. At ply 1 the move that
    /// raised alpha last is kept as the best move.
    pub fn negamax(
        &mut self,
        game: &mut GameState,
        legal_moves: &Vec<Move>,
        depth_remaining: usize,
        ply: usize,
        in_check: bool,
        alpha: i32,
        beta: i32,
        pv: &mut Vec<Move>,
    ) -> (score: i32)
        requires
            old(self).wf(),
            old(game).wf(),
            old(game).board.kings_single(),
            legal_moves@.to_multiset() == crate::movegen::legal_moves(
                old(game).board,
            ).to_multiset(),
            in_check == crate::movegen::in_check(old(game).board),
            1 <= ply < MAX_GAME_PLY,
            in_range(alpha as int),
            in_range(beta as int),
            old(game).headroom(MAX_GAME_PLY - ply),
        ensures
            final(self).wf(),
            final(self).best_move == old(self).best_move || (ply == 1 && legal_moves@.contains(
                final(self).best_move,
            )),
            final(game).wf(),
            final(game).same_as(old(game)),
            in_range(score as int),
            legal_moves@.len() == 0 ==> score == terminal_score(in_check, ply as int),
            final(pv)@ == old(pv)@ || (final(pv)@.len() > 0 && legal_moves@.contains(
                final(pv)@[0],
            )),
            (Outcome { score, state: final(self).state(), pv: final(pv)@ }) == negamax_spec(
                old(self).state(),
                old(game).zobrist_hasher,
                old(game).situation(),
                legal_moves@,
                depth_remaining,
                ply,
                in_check,
                alpha,
                beta,
                old(pv)@,
            ),
        decreases MAX_GAME_PLY - ply,
    {
        let ghost start = *game;
        let ghost hasher = game.zobrist_hasher;
        let ghost here = game.situation();
        proof {
            crate::movegen::lemma_legal_moves_fit(game.board);
            lemma_reordered_fit(game.board, legal_moves@);
        }
        let mut depth = depth_remaining;
        if (in_check || legal_moves.len() == 1) && depth < usize::MAX {
            depth += 1;
        }
        if depth == 0 || ply >= MAX_GAME_PLY - 1 {
            let horizon = if ply + QUIESCENCE_PLIES < MAX_GAME_PLY - 1 {
                ply + QUIESCENCE_PLIES
            } else {
                MAX_GAME_PLY - 1
            };
            return self.qsearch(game, legal_moves, horizon, ply, in_check, alpha, beta, pv);
        }
        if legal_moves.len() == 0 {
            return if in_check {
                -MATE + ply as i32
            } else {
                0
            };
        }
        match self.probe(game.pos_hash, ply, alpha, beta) {
            Some(score) => {
                return score;
            },
            None => {},
        }
        let mut raised = alpha;
        let saved = game.save();
        let mut i: usize = 0;
        while i < legal_moves.len()
            invariant
                self.wf(),
                self.best_move == old(self).best_move || (ply == 1 && legal_moves@.contains(
                    self.best_move,
                )),
                game.wf(),
                game.same_as(&start),
                start == *old(game),
                start.wf(),
                start.board.kings_single(),
                start.headroom(MAX_GAME_PLY - ply),
                saved == start.saved_spec(),
                all_fit(start.board, legal_moves@),
                all_listed(start.board, legal_moves@),
                1 <= ply < MAX_GAME_PLY - 1,
                depth >= 1,
                depth == extended_depth(depth_remaining, legal_moves@.len(), in_check),
                in_range(raised as int),
                in_range(beta as int),
                game.situation() == here,
                here == start.situation(),
                here == old(game).situation(),
                hasher == old(game).zobrist_hasher,
                game.zobrist_hasher == hasher,
                negamax_moves(
                    self.state(),
                    hasher,
                    here,
                    legal_moves@,
                    i as int,
                    depth,
                    ply,
                    raised,
                    beta,
                    pv@,
                    alpha,
                ) == negamax_spec(
                    old(self).state(),
                    hasher,
                    here,
                    legal_moves@,
                    depth_remaining,
                    ply,
                    in_check,
                    alpha,
                    beta,
                    old(pv)@,
                ),
                pv@ == old(pv)@ || (pv@.len() > 0 && legal_moves@.contains(pv@[0])),
            decreases legal_moves@.len() - i,
        {
            let m = legal_moves[i];
            let mut node_pv: Vec<Move> = Vec::new();
            let ghost before = *game;
            let ghost knowing = self.state();
            proof {
                lemma_headroom_same(before, start, MAX_GAME_PLY - ply);
                lemma_headroom_weaker(before, MAX_GAME_PLY - ply, 1);
                assert(before.board.applicable(m));
                assert(crate::movegen::legal_moves(before.board).contains(m));
            }
            game.update_board_with_move(&m);
            let ghost made = *game;
            proof {
                lemma_headroom_after(before, m, made, MAX_GAME_PLY - ply);
                lemma_made_kings(before, m, made);
                lemma_made_situation(before, m, made);
            }
            let (mut replies, reply_check) = game.get_legal_moves();
            self.order_moves(&mut replies, ply + 1);
            assert(replies@ == ordered_replies(here.after(hasher, m), ply + 1, knowing));
            let score = -self.negamax(
                game,
                &replies,
                depth - 1,
                ply + 1,
                reply_check,
                -beta,
                -raised,
                &mut node_pv,
            );
            let ghost below = negamax_spec(
                knowing,
                hasher,
                here.after(hasher, m),
                ordered_replies(here.after(hasher, m), ply + 1, knowing),
                (depth - 1) as usize,
                (ply + 1) as usize,
                crate::movegen::in_check(here.after(hasher, m).board),
                (-beta) as i32,
                (-raised) as i32,
                Seq::empty(),
            );
            assert(below.score == -score && below.state == self.state() && below.pv == node_pv@);
            let ghost returned = *game;
            game.undo(&m, &saved);
            proof {
                lemma_child_round_trip(before, m, made, returned, *game);
                lemma_same_transitive(*game, before, start);
                lemma_same_situation(*game, start);
            }
            if score >= beta {
                if !m.is_capture() {
                    self.store_killer(&m, ply);
                }
                self.store(game.pos_hash, beta, ply, TransitionTableFlag::LowerBound);
                return beta;
            }
            if score > raised {
                raised = score;
                set_pv(pv, m, &mut node_pv);
                if ply == 1 {
                    self.best_move = m;
                }
            }
            i += 1;
        }
        self.store(game.pos_hash, raised, ply, flag_for(raised, alpha, beta));
        raised
    }

    /// Searches the position `depth` plies deep and returns the score, seen
    /// from White's side, the best move, and the line of play that the
    /// search expects. The game is left as it was found. Where the side to
    /// move has a legal move, the best move is one of them, and the line
    /// of play, if it is not empty, begins with one of them; where it has
    /// none, the score is that of the mate or of the stalemate.
    pub fn find_best_legal_move(&mut self, game: &mut GameState, depth: usize) -> (res: (
        i32,
        Move,
        Vec<Move>,
    ))
        requires
            old(self).wf(),
            old(game).wf(),
            old(game).board.kings_single(),
            old(game).headroom(MAX_GAME_PLY as int),
        ensures
            final(self).wf(),
            final(game).wf(),
            final(game).same_as(old(game)),
            in_range(res.0 as int),
            res.1 == final(self).best_move,
            crate::movegen::legal_moves(old(game).board).len() > 0 ==> crate::movegen::legal_moves(
                old(game).board,
            ).contains(res.1),
            crate::movegen::legal_moves(old(game).board).len() == 0 ==> res.1 == Move::null()
                && res.0 == from_side(
                old(game).board.side_to_move,
                terminal_score(crate::movegen::in_check(old(game).board), 1) as i32,
            ),
            crate::rules::playable(old(game).board) && crate::movegen::legal_moves(
                old(game).board,
            ).len() > 0 ==> crate::rules::legal(old(game).board, res.1),
            res.2@.len() > 0 ==> crate::movegen::legal_moves(old(game).board).contains(res.2@[0]),
            ({
                let found = root_search(
                    old(self).killer_list,
                    old(game).zobrist_hasher,
                    old(game).situation(),
                    depth,
                );
                &&& res.0 == from_side(old(game).board.side_to_move, found.score)
                &&& res.1 == found.state.best_move
                &&& res.2@ == found.pv
                &&& final(self).state() == found.state
            }),
    {
        proof {
            if crate::rules::playable(game.board) {
                assert forall|m: Move|
                    crate::movegen::legal_moves(game.board).contains(m) implies #[trigger] crate::rules::legal(
                    game.board,
                    m,
                ) by {
                    crate::rules::lemma_generator_is_exact(game.board, m);
                }
            }
        }
        let (mut legal_moves_opposite, in_check) = game.get_legal_moves();
        self.tt.clear();
        self.order_moves(&mut legal_moves_opposite, 1);
        proof {
            lemma_same_elements(legal_moves_opposite@, crate::movegen::legal_moves(game.board));
        }
        self.best_move = if legal_moves_opposite.len() > 0 {
            legal_moves_opposite[0]
        } else {
            Move::null()
        };
        assert(legal_moves_opposite@.len() > 0 ==> legal_moves_opposite@.contains(self.best_move));
        let mut root_pv: Vec<Move> = Vec::new();
        proof {
            lemma_headroom_weaker(*game, MAX_GAME_PLY as int, MAX_GAME_PLY - 1);
        }
        let score = self.negamax(
            game,
            &legal_moves_opposite,
            depth,
            1,
            in_check,
            -INFINITY,
            INFINITY,
            &mut root_pv,
        );
        (from_side(game.board.side_to_move, score), self.best_move, root_pv)
    }
}

/// Room for more half moves is room for fewer.
pub proof fn lemma_headroom_weaker<'a>(game: GameState<'a>, n: int, less: int)
    requires
        game.headroom(n),
        less <= n,
    ensures
        game.headroom(less),
{
    assert forall|key: u64| #[trigger] game.occurrences(key) + less <= usize::MAX by {
        assert(game.occurrences(key) + n <= usize::MAX);
    }
}

} // verus!
