//! Zobrist keys: a position is hashed by XOR-ing one random number for
//! every piece on its square, for the side to move, for the castling rights
//! and for the file of the en-passant square.

use vstd::prelude::*;
use crate::bits::{in_bb, test_bit};
use crate::board::{Board, Piece, Side};
use crate::move_bitboards::{file, file_of};
use crate::random::random_u64;

verus! {

/// Number of (side, piece, square) triples.
pub const N_PIECE_KEYS: usize = 768;

/// The side of the `k`-th piece key.
pub open spec fn key_side(k: int) -> Side {
    if k < 384 {
        Side::White
    } else {
        Side::Black
    }
}

/// The piece of the `k`-th piece key.
pub open spec fn key_piece(k: int) -> Piece {
    Piece::of_index((k / 64) % 6)
}

/// The number that stands for the four castling rights together.
pub open spec fn castling_index(board: Board) -> int {
    (if board.castling_right_long[0] {
        1int
    } else {
        0int
    }) + (if board.castling_right_long[1] {
        2int
    } else {
        0int
    }) + (if board.castling_right_short[0] {
        4int
    } else {
        0int
    }) + (if board.castling_right_short[1] {
        8int
    } else {
        0int
    })
}

#[derive(Debug, Clone)]
pub struct ZobristHasher {
    /// One number for each side, piece and square.
    pub rands: Vec<u64>,
    pub black_to_move_rand: u64,
    /// One number for each combination of the four castling rights.
    pub castling_rands: [u64; 16],
    /// One number for each file of the en-passant square.
    pub ep_file_rands: [u64; 8],
}

impl ZobristHasher {
    /// There is a number for every side, piece and square.
    pub open spec fn wf(&self) -> bool {
        self.rands@.len() == N_PIECE_KEYS
    }

    /// The XOR of `start` with the keys of all pieces that stand on the
    /// board, among the first `k` (side, piece, square) triples.
    pub open spec fn pieces_key(&self, board: Board, start: u64, k: int) -> u64
        decreases k,
    {
        if k <= 0 {
            start
        } else {
            let before = self.pieces_key(board, start, k - 1);
            if in_bb(board.bb(key_piece(k - 1), key_side(k - 1)), (k - 1) % 64) {
                before ^ self.rands@[k - 1]
            } else {
                before
            }
        }
    }

    /// The key of a position: the XOR of the number for black to move, if
    /// black is to move, of the numbers of all pieces on their squares, of
    /// the number of the castling rights, and of the number of the
    /// en-passant file, if an en-passant square is set.
    pub open spec fn hash_spec(&self, board: Board) -> u64 {
        let side_key = if board.side_to_move == Side::Black {
            self.black_to_move_rand
        } else {
            0
        };
        let with_pieces = self.pieces_key(board, side_key, 768);
        let with_castling = with_pieces ^ self.castling_rands[castling_index(board)];
        if board.en_passant_square != 0 {
            with_castling ^ self.ep_file_rands[file_of(board.en_passant_square as int)]
        } else {
            with_castling
        }
    }

    /// A hasher with fresh random numbers.
    pub fn new() -> (h: Self)
        ensures
            h.wf(),
    {
        let mut rands: Vec<u64> = Vec::new();
        let mut i: usize = 0;
        while i < N_PIECE_KEYS
            invariant
                i <= N_PIECE_KEYS,
                rands@.len() == i,
            decreases N_PIECE_KEYS - i,
        {
            rands.push(random_u64());
            i += 1;
        }
        let black_to_move_rand = random_u64();
        let mut castling_rands = [0u64; 16];
        let mut j: usize = 0;
        while j < 16
            invariant
                j <= 16,
            decreases 16 - j,
        {
            castling_rands[j] = random_u64();
            j += 1;
        }
        let mut ep_file_rands = [0u64; 8];
        let mut f: usize = 0;
        while f < 8
            invariant
                f <= 8,
            decreases 8 - f,
        {
            ep_file_rands[f] = random_u64();
            f += 1;
        }
        ZobristHasher { rands, black_to_move_rand, castling_rands, ep_file_rands }
    }

    /// The key of a position.
    pub fn hash(&self, board: &Board) -> (key: u64)
        requires
            self.wf(),
        ensures
            key == self.hash_spec(*board),
    {
        let ghost side_key: u64 = if board.side_to_move == Side::Black {
            self.black_to_move_rand
        } else {
            0
        };
        let mut key: u64 = match board.side_to_move {
            Side::Black => self.black_to_move_rand,
            Side::White => 0,
        };
        let mut group: usize = 0;
        while group < 12
            invariant
                self.wf(),
                group <= 12,
                key == self.pieces_key(*board, side_key, group * 64),
            decreases 12 - group,
        {
            let side = if group < 6 {
                Side::White
            } else {
                Side::Black
            };
            let piece = Piece::from_index(group % 6);
            let piece_bb = board.piece_bb(piece, side);
            let mut square: usize = 0;
            while square < 64
                invariant
                    self.wf(),
                    group < 12,
                    square <= 64,
                    side == key_side(group * 64),
                    side == (if group < 6 {
                        Side::White
                    } else {
                        Side::Black
                    }),
                    piece == Piece::of_index((group % 6) as int),
                    piece_bb == board.bb(piece, side),
                    key == self.pieces_key(*board, side_key, group * 64 + square),
                decreases 64 - square,
            {
                let k = group * 64 + square;
                assert(key_side(k as int) == side);
                assert((k as int / 64) % 6 == group % 6);
                assert(k as int % 64 == square);
                if test_bit(piece_bb, square) {
                    key = key ^ self.rands[k];
                }
                square += 1;
            }
            group += 1;
        }
        let mut castling: usize = 0;
        if board.castling_right_long[0] {
            castling += 1;
        }
        if board.castling_right_long[1] {
            castling += 2;
        }
        if board.castling_right_short[0] {
            castling += 4;
        }
        if board.castling_right_short[1] {
            castling += 8;
        }
        key = key ^ self.castling_rands[castling];
        if board.en_passant_square != 0 {
            key = key ^ self.ep_file_rands[file(board.en_passant_square)];
        }
        key
    }
}

/// Hash determinism: the key depends on nothing but the pieces, the side to
/// move, the castling rights and the en-passant square. Two boards that
/// agree on these have the same key under one hasher.
pub proof fn lemma_hash_determinism(hasher: ZobristHasher, a: Board, b: Board)
    requires
        forall|piece: Piece, side: Side| a.bb(piece, side) == b.bb(piece, side),
        a.side_to_move == b.side_to_move,
        a.castling_right_long@ == b.castling_right_long@,
        a.castling_right_short@ == b.castling_right_short@,
        a.en_passant_square == b.en_passant_square,
    ensures
        hasher.hash_spec(a) == hasher.hash_spec(b),
{
    assert(a.castling_right_long@ =~= b.castling_right_long@);
    assert(a.castling_right_short@ =~= b.castling_right_short@);
    assert(a.castling_right_long == b.castling_right_long);
    assert(a.castling_right_short == b.castling_right_short);
    crate::board::lemma_board_equal(a, b);
}

} // verus!
