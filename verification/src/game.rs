//! A game in progress: the board with its move counters, its Zobrist key
//! and the count of how often each position has come up, and the generator
//! of legal moves.

use vstd::prelude::*;
use std::collections::HashMap;
use crate::board::{Board, Piece, Side};
use crate::magic::MagicBitboard;
use crate::move_bitboards::{
    MoveBitboards, bishop_attacks, king_mask, knight_mask, pawn_capture_mask, queen_attacks,
    rook_attacks,
};
use crate::moves::{DrawReason, Move, MoveResult};
use crate::zobrist::ZobristHasher;

verus! {

broadcast use vstd::std_specs::hash::group_hash_axioms;

/// The squares that a piece of `side` on `sq` attacks when the squares in
/// `occ` are occupied.
pub open spec fn attack_set(piece: Piece, side: Side, sq: int, occ: u64) -> u64 {
    match piece {
        Piece::Pawn => pawn_capture_mask(side, sq),
        Piece::Knight => knight_mask(sq),
        Piece::Bishop => bishop_attacks(sq, occ),
        Piece::Rook => rook_attacks(sq, occ),
        Piece::Queen => queen_attacks(sq, occ),
        Piece::King => king_mask(sq),
    }
}

/// What of a game's state a move does not let one find again: kept before a
/// move is made and handed back when it is undone.
#[derive(Clone, Copy, Debug)]
pub struct Saved {
    pub castling_right_long: [bool; 2],
    pub castling_right_short: [bool; 2],
    pub half_move_of_last_capture: usize,
    pub en_passant_square: usize,
    pub threefold_repetition: bool,
}

/// What a game has come to, as a value: the board, the counters, the
/// repetition flag, the key, and how often each key has come up.
pub ghost struct Situation {
    pub board: Board,
    pub half_move_number: usize,
    pub move_number: usize,
    pub half_move_of_last_capture: usize,
    pub threefold_repetition: bool,
    pub pos_hash: u64,
    pub counts: Map<u64, usize>,
}

impl Situation {
    /// How often the position with the given key has come up.
    pub open spec fn count(self, key: u64) -> usize {
        if self.counts.contains_key(key) {
            self.counts[key]
        } else {
            0
        }
    }

    /// The situation after move `m`, with keys from `hasher`. The count of
    /// the new key goes up by one; only a count at the limit of `usize`,
    /// which no game that takes a move holds, stays.
    pub open spec fn after(self, hasher: ZobristHasher, m: Move) -> Situation {
        let board = Board {
            side_to_move: self.board.side_to_move.opposite(),
            ..self.board.after_move(m)
        };
        let key = hasher.hash_spec(board);
        let half = (self.half_move_number + 1) as usize;
        let seen = self.count(key);
        let now = if seen < usize::MAX {
            (seen + 1) as usize
        } else {
            seen
        };
        Situation {
            board,
            half_move_number: half,
            move_number: if half % 2 != 0 {
                (self.move_number + 1) as usize
            } else {
                self.move_number
            },
            half_move_of_last_capture: if m.is_capture() {
                half
            } else {
                self.half_move_of_last_capture
            },
            threefold_repetition: self.threefold_repetition || now == 3,
            pos_hash: key,
            counts: self.counts.insert(key, now),
        }
    }

    /// Number of full moves since the last capture.
    pub open spec fn moves_since_capture(self) -> int {
        if self.half_move_number >= self.half_move_of_last_capture {
            (self.half_move_number - self.half_move_of_last_capture) / 2
        } else {
            0
        }
    }

    /// What the last move has led to, given the number of legal replies
    /// and whether the side to move is in check.
    pub open spec fn move_result(self, n_replies: nat, in_check: bool) -> Option<MoveResult> {
        if n_replies == 0 && in_check {
            Some(MoveResult::Checkmate)
        } else if n_replies == 0 {
            Some(MoveResult::Draw(DrawReason::Stalemate))
        } else if self.threefold_repetition {
            Some(MoveResult::Draw(DrawReason::ThreeFoldRepetition))
        } else if self.moves_since_capture() >= 50 {
            Some(MoveResult::Draw(DrawReason::FiftyMoveRule))
        } else if in_check {
            Some(MoveResult::Check)
        } else {
            None
        }
    }
}

/// A game in progress.
#[derive(Clone)]
pub struct GameState<'a> {
    pub pl_moves: &'a MoveBitboards,
    pub magics: &'a MagicBitboard,
    pub board: Board,
    /// The squares that each side occupies.
    pub occupation_boards: [u64; 2],
    /// The squares that any piece occupies.
    pub comp_occupation_board: u64,
    /// Number of the next half move, from 1.
    pub half_move_number: usize,
    /// Number of the current move, from 1.
    pub move_number: usize,
    /// Number of the half move that was the last capture.
    pub half_move_of_last_capture: usize,
    /// A position has come up for the third time since the flag was last
    /// cleared.
    pub threefold_repetition: bool,
    /// The Zobrist key of the board.
    pub pos_hash: u64,
    /// How often each key has come up as the result of a move.
    pub position_occurance_counter: HashMap<u64, usize>,
    pub zobrist_hasher: ZobristHasher,
}

impl<'a> GameState<'a> {
    /// The tables are sound, the occupancies and the key are those of the
    /// board, the en-passant square is on the board, and the counter holds
    /// no zero.
    pub open spec fn wf(&self) -> bool {
        &&& self.pl_moves.wf()
        &&& self.magics.wf()
        &&& self.zobrist_hasher.wf()
        &&& self.occupation_boards[0] == self.board.occupancy(Side::White)
        &&& self.occupation_boards[1] == self.board.occupancy(Side::Black)
        &&& self.comp_occupation_board == self.board.all_occupancy()
        &&& self.board.en_passant_square < 64
        &&& self.pos_hash == self.zobrist_hasher.hash_spec(self.board)
        &&& forall|key: u64| #[trigger]
            self.position_occurance_counter@.contains_key(key)
                ==> self.position_occurance_counter@[key] >= 1
    }

    /// How often the position with the given key has come up as the result
    /// of a move.
    pub open spec fn occurrences(&self, key: u64) -> nat {
        if self.position_occurance_counter@.contains_key(key) {
            self.position_occurance_counter@[key] as nat
        } else {
            0
        }
    }

    /// A game at the starting position.
    pub fn new(pl_moves: &'a MoveBitboards, magics: &'a MagicBitboard) -> (gs: Self)
        requires
            pl_moves.wf(),
            magics.wf(),
        ensures
            gs.wf(),
            gs.board == Board::start(),
            crate::rules::sound(gs.board),
            gs.pl_moves == pl_moves,
            gs.magics == magics,
            gs.half_move_number == 1,
            gs.move_number == 1,
            gs.half_move_of_last_capture == 0,
            !gs.threefold_repetition,
            forall|key: u64| gs.occurrences(key) == 0,
    {
        proof {
            crate::rules::lemma_start_is_sound();
        }
        Self::from_board(pl_moves, magics, Board::default())
    }

    /// A game that starts at the given board.
    pub fn from_board(pl_moves: &'a MoveBitboards, magics: &'a MagicBitboard, board: Board) -> (gs:
        Self)
        requires
            pl_moves.wf(),
            magics.wf(),
            board.en_passant_square < 64,
        ensures
            gs.wf(),
            gs.board == board,
            gs.pl_moves == pl_moves,
            gs.magics == magics,
            gs.half_move_number == 1,
            gs.move_number == 1,
            gs.half_move_of_last_capture == 0,
            !gs.threefold_repetition,
            forall|key: u64| gs.occurrences(key) == 0,
    {
        let zobrist_hasher = ZobristHasher::new();
        let pos_hash = zobrist_hasher.hash(&board);
        let mut gs = Self {
            pl_moves,
            magics,
            board,
            occupation_boards: [0u64; 2],
            comp_occupation_board: 0u64,
            half_move_number: 1,
            move_number: 1,
            half_move_of_last_capture: 0,
            threefold_repetition: false,
            pos_hash,
            position_occurance_counter: HashMap::with_capacity(100),
            zobrist_hasher,
        };
        gs.update_occupation_boards();
        gs
    }

    /// Recomputes the occupancies from the board.
    pub fn update_occupation_boards(&mut self)
        ensures
            final(self).occupation_boards[0] == old(self).board.occupancy(Side::White),
            final(self).occupation_boards[1] == old(self).board.occupancy(Side::Black),
            final(self).comp_occupation_board == old(self).board.all_occupancy(),
            final(self).pl_moves == old(self).pl_moves,
            final(self).magics == old(self).magics,
            final(self).board == old(self).board,
            final(self).half_move_number == old(self).half_move_number,
            final(self).move_number == old(self).move_number,
            final(self).half_move_of_last_capture == old(self).half_move_of_last_capture,
            final(self).threefold_repetition == old(self).threefold_repetition,
            final(self).pos_hash == old(self).pos_hash,
            final(self).position_occurance_counter == old(self).position_occurance_counter,
            final(self).zobrist_hasher == old(self).zobrist_hasher,
    {
        let white = self.board.occupation_board(Side::White);
        let black = self.board.occupation_board(Side::Black);
        self.occupation_boards[0] = white;
        self.occupation_boards[1] = black;
        self.comp_occupation_board = white | black;
    }

    /// The squares that a sliding piece on `square` attacks on this board.
    pub fn slider_moves(&self, piece: Piece, square: usize) -> (res: u64)
        requires
            self.wf(),
            square < 64,
            piece.is_slider(),
        ensures
            res == attack_set(piece, Side::White, square as int, self.board.all_occupancy()),
    {
        self.slider_attacks(piece, square, self.comp_occupation_board)
    }

    /// The squares that a sliding piece on `square` attacks when the squares
    /// in `occ` are occupied.
    pub fn slider_attacks(&self, piece: Piece, square: usize, occ: u64) -> (res: u64)
        requires
            self.wf(),
            square < 64,
            piece.is_slider(),
        ensures
            res == attack_set(piece, Side::White, square as int, occ),
    {
        match piece {
            Piece::Rook => self.magics.get_rook_moves(square, occ),
            Piece::Bishop => self.magics.get_bishop_moves(square, occ),
            _ => self.magics.get_bishop_moves(square, occ) | self.magics.get_rook_moves(
                square,
                occ,
            ),
        }
    }

    /// The squares that a piece of `side` on `square` attacks when the
    /// squares in `occ` are occupied.
    pub fn piece_attacks(&self, piece: Piece, side: Side, square: usize, occ: u64) -> (res: u64)
        requires
            self.wf(),
            square < 64,
        ensures
            res == attack_set(piece, side, square as int, occ),
    {
        if piece.is_slider() {
            self.slider_attacks(piece, square, occ)
        } else {
            match piece {
                Piece::Pawn => self.pl_moves.pawn_captures(side, square),
                _ => self.pl_moves.pseudo_moves(piece, side, square),
            }
        }
    }

    /// The state `post` is what making move `m` makes of the state `self`:
    /// the board after the move with the other side to move, the counters
    /// moved on, the key of the new board, and that key counted once more.
    pub open spec fn made(&self, m: Move, post: &GameState<'a>) -> bool {
        let key = post.pos_hash;
        &&& post.pl_moves == self.pl_moves
        &&& post.magics == self.magics
        &&& post.zobrist_hasher == self.zobrist_hasher
        &&& post.board == (Board {
            side_to_move: self.board.side_to_move.opposite(),
            ..self.board.after_move(m)
        })
        &&& post.half_move_number == self.half_move_number + 1
        &&& post.move_number == if post.half_move_number % 2 != 0 {
            self.move_number + 1
        } else {
            self.move_number as int
        }
        &&& post.half_move_of_last_capture == if m.is_capture() {
            post.half_move_number
        } else {
            self.half_move_of_last_capture
        }
        &&& key == self.zobrist_hasher.hash_spec(post.board)
        &&& post.occurrences(key) == self.occurrences(key) + 1
        &&& forall|other: u64| other != key ==> post.occurrences(other) == self.occurrences(other)
        &&& post.threefold_repetition == (self.threefold_repetition || post.occurrences(key) == 3)
    }

    /// The state `post` is what taking move `m` back makes of the state
    /// `self`, with the castling rights, the half move of the last capture
    /// and the en-passant square that the caller saved: the board before
    /// the move, the counters moved back, the key of the state left counted
    /// once less, the key of the board reached, and the repetition flag
    /// cleared.
    pub open spec fn unmade(
        &self,
        m: Move,
        long: [bool; 2],
        short: [bool; 2],
        last_capture: usize,
        en_passant_square: usize,
        post: &GameState<'a>,
    ) -> bool {
        let key = self.pos_hash;
        &&& post.pl_moves == self.pl_moves
        &&& post.magics == self.magics
        &&& post.zobrist_hasher == self.zobrist_hasher
        &&& post.board == self.board.before_move(m, long, short, en_passant_square)
        &&& post.half_move_number == self.half_move_number - 1
        &&& post.move_number == if post.half_move_number % 2 == 0 {
            self.move_number - 1
        } else {
            self.move_number as int
        }
        &&& post.half_move_of_last_capture == last_capture
        &&& post.pos_hash == self.zobrist_hasher.hash_spec(post.board)
        &&& post.occurrences(key) == if self.occurrences(key) > 0 {
            self.occurrences(key) - 1
        } else {
            0
        }
        &&& forall|other: u64| other != key ==> post.occurrences(other) == self.occurrences(other)
        &&& !post.threefold_repetition
    }

    /// Makes move `m`, which is one of the legal moves, and looks at what
    /// follows from it: the result of the move and the legal replies.
    pub fn make_move(&mut self, m: &Move) -> (res: (Option<MoveResult>, Vec<Move>))
        requires
            old(self).wf(),
            crate::movegen::legal_moves(old(self).board).contains(*m),
            old(self).headroom(1),
        ensures
            final(self).wf(),
            old(self).made(*m, final(self)),
            crate::rules::sound(old(self).board) ==> crate::rules::sound(final(self).board),
            res.1@ == crate::movegen::legal_moves(final(self).board),
            res.0 == final(self).move_result_spec(
                res.1@.len(),
                crate::movegen::in_check(final(self).board),
            ),
    {
        self.update_board_with_move(m);
        let (legal_moves_opposite, in_check) = self.get_legal_moves();
        let move_result = self.get_move_result(&legal_moves_opposite, in_check);
        (move_result, legal_moves_opposite)
    }

    /// Makes move `m`, which is one of the legal moves, without looking at
    /// what follows from it.
    pub fn update_board_with_move(&mut self, m: &Move)
        requires
            old(self).wf(),
            crate::movegen::legal_moves(old(self).board).contains(*m),
            old(self).headroom(1),
        ensures
            final(self).wf(),
            old(self).made(*m, final(self)),
            crate::rules::sound(old(self).board) ==> crate::rules::sound(final(self).board),
    {
        proof {
            crate::movegen::lemma_legal_moves_wf(self.board);
            let all = crate::movegen::legal_moves(self.board);
            let i = choose|i: int| 0 <= i < all.len() && all[i] == *m;
            assert(all[i].wf());
            crate::board::lemma_after_move_frame(self.board, *m);
            if crate::rules::sound(self.board) {
                crate::rules::lemma_generator_is_exact(self.board, *m);
                crate::rules::lemma_legal_keeps_sound(self.board, *m);
            }
            assert(self.occurrences(self.zobrist_hasher.hash_spec(
                Board { side_to_move: self.board.side_to_move.opposite(), ..self.board.after_move(*m) },
            )) + 1 <= usize::MAX);
        }
        self.board.make_move(m);
        self.update_occupation_boards();
        self.half_move_number += 1;
        if self.half_move_number % 2 != 0 {
            self.move_number += 1;
        }
        if m.is_capture() {
            self.half_move_of_last_capture = self.half_move_number;
        }
        self.board.side_to_move = self.board.side_to_move.opposite();
        self.pos_hash = self.zobrist_hasher.hash(&self.board);
        let key = self.pos_hash;
        let seen: usize = match self.position_occurance_counter.get(&key) {
            Some(count) => *count,
            None => 0,
        };
        let n_occurances: usize = seen + 1;
        self.position_occurance_counter.insert(key, n_occurances);
        if n_occurances == 3 {
            self.threefold_repetition = true;
        }
    }

    /// Takes move `m` back. The caller hands in the castling rights, the
    /// half move of the last capture and the en-passant square as they were
    /// before the move.
    pub fn update_board_undo_move(
        &mut self,
        m: &Move,
        castling_right_long: &[bool; 2],
        castling_right_short: &[bool; 2],
        half_move_of_last_capture: usize,
        en_passant_square: usize,
    )
        requires
            old(self).wf(),
            m.wf(),
            old(self).half_move_number >= 1,
            old(self).half_move_number % 2 == 1 ==> old(self).move_number >= 1,
            en_passant_square < 64,
        ensures
            final(self).wf(),
            old(self).unmade(
                *m,
                *castling_right_long,
                *castling_right_short,
                half_move_of_last_capture,
                en_passant_square,
                final(self),
            ),
    {
        proof {
            crate::board::lemma_before_move_frame(
                self.board,
                *m,
                *castling_right_long,
                *castling_right_short,
                en_passant_square,
            );
        }
        self.board.undo_move(m, castling_right_long, castling_right_short, en_passant_square);
        self.update_occupation_boards();
        self.half_move_number -= 1;
        if self.half_move_number % 2 == 0 {
            self.move_number -= 1;
        }
        self.half_move_of_last_capture = half_move_of_last_capture;
        let key = self.pos_hash;
        let seen: usize = match self.position_occurance_counter.get(&key) {
            Some(count) => *count,
            None => 0,
        };
        if seen > 1 {
            self.position_occurance_counter.insert(key, seen - 1);
        } else if seen == 1 {
            self.position_occurance_counter.remove(&key);
        }
        self.pos_hash = self.zobrist_hasher.hash(&self.board);
        self.threefold_repetition = false;
    }

    /// What the game has come to, as a value.
    pub open spec fn situation(&self) -> Situation {
        Situation {
            board: self.board,
            half_move_number: self.half_move_number,
            move_number: self.move_number,
            half_move_of_last_capture: self.half_move_of_last_capture,
            threefold_repetition: self.threefold_repetition,
            pos_hash: self.pos_hash,
            counts: self.position_occurance_counter@,
        }
    }

    /// The counters leave room for `n` more half moves.
    pub open spec fn headroom(&self, n: int) -> bool {
        &&& self.half_move_number + n <= usize::MAX
        &&& self.move_number + n <= usize::MAX
        &&& forall|key: u64| #[trigger] self.occurrences(key) + n <= usize::MAX
    }

    /// What has to be kept of this state before a move is made.
    pub open spec fn saved_spec(&self) -> Saved {
        Saved {
            castling_right_long: self.board.castling_right_long,
            castling_right_short: self.board.castling_right_short,
            half_move_of_last_capture: self.half_move_of_last_capture,
            en_passant_square: self.board.en_passant_square,
            threefold_repetition: self.threefold_repetition,
        }
    }

    /// The two states are the same game at the same point: the same board,
    /// counters, flag and key, and every key counted as often.
    pub open spec fn same_as(&self, other: &GameState<'a>) -> bool {
        &&& self.pl_moves == other.pl_moves
        &&& self.magics == other.magics
        &&& self.zobrist_hasher == other.zobrist_hasher
        &&& self.board == other.board
        &&& self.half_move_number == other.half_move_number
        &&& self.move_number == other.move_number
        &&& self.half_move_of_last_capture == other.half_move_of_last_capture
        &&& self.threefold_repetition == other.threefold_repetition
        &&& self.pos_hash == other.pos_hash
        &&& forall|key: u64| self.occurrences(key) == other.occurrences(key)
    }

    /// The state `post` is what taking move `m` back and restoring what was
    /// kept makes of the state `self`.
    pub open spec fn restored(&self, m: Move, saved: Saved, post: &GameState<'a>) -> bool {
        let key = self.pos_hash;
        &&& post.pl_moves == self.pl_moves
        &&& post.magics == self.magics
        &&& post.zobrist_hasher == self.zobrist_hasher
        &&& post.board == self.board.before_move(
            m,
            saved.castling_right_long,
            saved.castling_right_short,
            saved.en_passant_square,
        )
        &&& post.half_move_number == self.half_move_number - 1
        &&& post.move_number == if post.half_move_number % 2 == 0 {
            self.move_number - 1
        } else {
            self.move_number as int
        }
        &&& post.half_move_of_last_capture == saved.half_move_of_last_capture
        &&& post.pos_hash == self.zobrist_hasher.hash_spec(post.board)
        &&& post.occurrences(key) == if self.occurrences(key) > 0 {
            self.occurrences(key) - 1
        } else {
            0
        }
        &&& forall|other: u64| other != key ==> post.occurrences(other) == self.occurrences(other)
        &&& post.threefold_repetition == saved.threefold_repetition
    }

    /// Keeps what a move does not let one find again.
    pub fn save(&self) -> (saved: Saved)
        ensures
            saved == self.saved_spec(),
    {
        Saved {
            castling_right_long: self.board.castling_right_long,
            castling_right_short: self.board.castling_right_short,
            half_move_of_last_capture: self.half_move_of_last_capture,
            en_passant_square: self.board.en_passant_square,
            threefold_repetition: self.threefold_repetition,
        }
    }

    /// Takes move `m` back and restores what was kept before it was made,
    /// the repetition flag included.
    pub fn undo(&mut self, m: &Move, saved: &Saved)
        requires
            old(self).wf(),
            m.wf(),
            old(self).half_move_number >= 1,
            old(self).half_move_number % 2 == 1 ==> old(self).move_number >= 1,
            saved.en_passant_square < 64,
        ensures
            final(self).wf(),
            old(self).restored(*m, *saved, final(self)),
    {
        self.update_board_undo_move(
            m,
            &saved.castling_right_long,
            &saved.castling_right_short,
            saved.half_move_of_last_capture,
            saved.en_passant_square,
        );
        self.threefold_repetition = saved.threefold_repetition;
    }

    /// Number of full moves since the last capture.
    pub open spec fn moves_since_capture(&self) -> int {
        self.situation().moves_since_capture()
    }

    /// What the last move has led to, given the legal replies and whether
    /// the side to move is in check.
    pub open spec fn move_result_spec(&self, n_replies: nat, in_check: bool) -> Option<MoveResult> {
        self.situation().move_result(n_replies, in_check)
    }

    /// What the last move has led to: checkmate or stalemate where there is
    /// no legal reply, else a draw by repetition or by fifty or more moves
    /// without a capture, else check, else nothing.
    pub fn get_move_result(&self, legal_moves_opposite: &Vec<Move>, in_check: bool) -> (res: Option<
        MoveResult,
    >)
        ensures
            res == self.move_result_spec(legal_moves_opposite@.len(), in_check),
    {
        let has_legal_moves = legal_moves_opposite.len() != 0;
        let moves_since_last_capture = if self.half_move_number
            >= self.half_move_of_last_capture {
            (self.half_move_number - self.half_move_of_last_capture) / 2
        } else {
            0
        };
        if !has_legal_moves {
            if in_check {
                Some(MoveResult::Checkmate)
            } else {
                Some(MoveResult::Draw(DrawReason::Stalemate))
            }
        } else if self.threefold_repetition {
            Some(MoveResult::Draw(DrawReason::ThreeFoldRepetition))
        } else if moves_since_last_capture >= 50 {
            Some(MoveResult::Draw(DrawReason::FiftyMoveRule))
        } else if in_check {
            Some(MoveResult::Check)
        } else {
            None
        }
    }
}

/// Make and undo: a move that fits the board, made and then taken back with
/// the castling rights, the half move of the last capture and the
/// en-passant square of before, leaves the board, the counters, the key and
/// the count of every key as they were, and the repetition flag cleared.
pub proof fn lemma_make_undo_round_trip<'a>(
    before: GameState<'a>,
    m: Move,
    between: GameState<'a>,
    after: GameState<'a>,
)
    requires
        before.wf(),
        before.board.applicable(m),
        before.made(m, &between),
        between.unmade(
            m,
            before.board.castling_right_long,
            before.board.castling_right_short,
            before.half_move_of_last_capture,
            before.board.en_passant_square,
            &after,
        ),
    ensures
        after.board == before.board,
        after.half_move_number == before.half_move_number,
        after.move_number == before.move_number,
        after.half_move_of_last_capture == before.half_move_of_last_capture,
        after.pos_hash == before.pos_hash,
        forall|key: u64| after.occurrences(key) == before.occurrences(key),
        !after.threefold_repetition,
{
    crate::board::lemma_board_round_trip(before.board, m);
    assert forall|key: u64| after.occurrences(key) == before.occurrences(key) by {
        if key == between.pos_hash {
        } else {
        }
    }
}

/// Make and undo, exactly: a move that fits the board, made and then taken
/// back with what was kept before, leaves the game as it was, the
/// repetition flag included.
pub proof fn lemma_make_undo_exact<'a>(
    before: GameState<'a>,
    m: Move,
    between: GameState<'a>,
    after: GameState<'a>,
)
    requires
        before.wf(),
        before.board.applicable(m),
        before.made(m, &between),
        between.restored(m, before.saved_spec(), &after),
    ensures
        after.same_as(&before),
        after.wf() ==> after.situation() == before.situation(),
{
    crate::board::lemma_board_round_trip(before.board, m);
    assert forall|key: u64| after.occurrences(key) == before.occurrences(key) by {
        if key == between.pos_hash {
        } else {
        }
    }
    if after.wf() {
        lemma_same_situation(after, before);
    }
}

/// Hash determinism: two games that hash with the same numbers and whose
/// boards hold the same pieces, side to move, castling rights and
/// en-passant square have the same key, however each was reached.
pub proof fn lemma_key_ignores_history<'a>(a: GameState<'a>, b: GameState<'a>)
    requires
        a.wf(),
        b.wf(),
        a.zobrist_hasher == b.zobrist_hasher,
        forall|piece: Piece, side: Side| a.board.bb(piece, side) == b.board.bb(piece, side),
        a.board.side_to_move == b.board.side_to_move,
        a.board.castling_right_long@ == b.board.castling_right_long@,
        a.board.castling_right_short@ == b.board.castling_right_short@,
        a.board.en_passant_square == b.board.en_passant_square,
    ensures
        a.pos_hash == b.pos_hash,
{
    crate::zobrist::lemma_hash_determinism(a.zobrist_hasher, a.board, b.board);
}

/// Threefold repetition: a move counts the position that it reaches once
/// more and no other; made while the flag is clear it sets the flag exactly
/// when that position has then come up three times; and where the side to
/// move has a reply the result of the move is then the draw by repetition,
/// and is no such draw otherwise.
pub proof fn lemma_threefold_on_third_occurrence<'a>(
    before: GameState<'a>,
    m: Move,
    after: GameState<'a>,
    n_replies: nat,
    in_check: bool,
)
    requires
        before.made(m, &after),
        !before.threefold_repetition,
        n_replies > 0,
    ensures
        after.pos_hash == after.zobrist_hasher.hash_spec(after.board),
        after.occurrences(after.pos_hash) == before.occurrences(after.pos_hash) + 1,
        forall|key: u64| key != after.pos_hash ==> after.occurrences(key) == before.occurrences(key),
        after.threefold_repetition == (before.occurrences(after.pos_hash) + 1 == 3),
        after.move_result_spec(n_replies, in_check) == Some(
            MoveResult::Draw(DrawReason::ThreeFoldRepetition),
        ) <==> before.occurrences(after.pos_hash) + 1 == 3,
{
}


/// Two games that are the same game at the same point have come to the
/// same situation.
pub proof fn lemma_same_situation<'a>(a: GameState<'a>, b: GameState<'a>)
    requires
        a.wf(),
        b.wf(),
        a.same_as(&b),
    ensures
        a.situation() == b.situation(),
{
    let ma = a.position_occurance_counter@;
    let mb = b.position_occurance_counter@;
    assert forall|key: u64| #[trigger] ma.contains_key(key) == mb.contains_key(key) by {
        assert(a.occurrences(key) == b.occurrences(key));
    }
    assert forall|key: u64| ma.contains_key(key) implies #[trigger] ma[key] == mb[key] by {
        assert(a.occurrences(key) == b.occurrences(key));
    }
    assert(ma.dom() =~= mb.dom());
    assert(ma =~= mb);
}

/// The situation after a move is made is the one that the move leads to.
pub proof fn lemma_made_situation<'a>(before: GameState<'a>, m: Move, after: GameState<'a>)
    requires
        before.wf(),
        after.wf(),
        before.made(m, &after),
    ensures
        after.situation() == before.situation().after(before.zobrist_hasher, m),
{
    let target = before.situation().after(before.zobrist_hasher, m);
    let ma = after.position_occurance_counter@;
    let mb = before.position_occurance_counter@;
    assert(after.pos_hash == target.pos_hash);
    assert forall|key: u64| #[trigger]
        ma.contains_key(key) == target.counts.contains_key(key) by {
        assert(after.occurrences(key) == if key == after.pos_hash {
            if before.occurrences(key) < usize::MAX {
                before.occurrences(key) + 1
            } else {
                before.occurrences(key)
            }
        } else {
            before.occurrences(key)
        });
        if key != after.pos_hash {
            assert(target.counts.contains_key(key) == mb.contains_key(key));
        }
    }
    assert forall|key: u64| ma.contains_key(key) implies #[trigger] ma[key]
        == target.counts[key] by {
        assert(after.occurrences(key) == if key == after.pos_hash {
            if before.occurrences(key) < usize::MAX {
                before.occurrences(key) + 1
            } else {
                before.occurrences(key)
            }
        } else {
            before.occurrences(key)
        });
        assert(ma.contains_key(key) == target.counts.contains_key(key));
    }
    assert(ma.dom() =~= target.counts.dom());
    assert(ma =~= target.counts);
}


/// After a move the position reached is counted: its key has come up at
/// least once, the other side is to move, and the half move counter has
/// moved on by one.
pub proof fn lemma_made_is_counted<'a>(before: GameState<'a>, m: Move, after: GameState<'a>)
    requires
        before.made(m, &after),
    ensures
        after.occurrences(after.pos_hash) >= 1,
        after.board.side_to_move == before.board.side_to_move.opposite(),
        after.half_move_number == before.half_move_number + 1,
{
}

} // verus!
