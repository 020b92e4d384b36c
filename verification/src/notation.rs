//! Moves in algebraic notation.

use vstd::prelude::*;
use crate::bits::{in_bb, test_bit};
use crate::board::{Board, Piece, Side};
use crate::move_bitboards::{file, file_of, rank, rank_of};
use crate::moves::{Move, MoveType};

verus! {

/// Appends a character: `String::push`.
#[verifier::external_body]
fn push_char(s: &mut String, c: char)
    ensures
        final(s)@ == old(s)@.push(c),
{
    s.push(c);
}

/// Whether two strings hold the same characters: `==` on `str`.
#[verifier::external_body]
fn same_text(a: &str, b: &str) -> (r: bool)
    ensures
        r == (a@ == b@),
{
    a == b
}

/// The letter of a file. File 0 is the h-file.
pub open spec fn file_letter_spec(f: int) -> char {
    if f == 0 {
        'h'
    } else if f == 1 {
        'g'
    } else if f == 2 {
        'f'
    } else if f == 3 {
        'e'
    } else if f == 4 {
        'd'
    } else if f == 5 {
        'c'
    } else if f == 6 {
        'b'
    } else {
        'a'
    }
}

/// The digit of a rank. Rank 0 is the first rank.
pub open spec fn rank_digit_spec(r: int) -> char {
    if r == 0 {
        '1'
    } else if r == 1 {
        '2'
    } else if r == 2 {
        '3'
    } else if r == 3 {
        '4'
    } else if r == 4 {
        '5'
    } else if r == 5 {
        '6'
    } else if r == 6 {
        '7'
    } else {
        '8'
    }
}

/// The name of a square: the letter of its file and the digit of its rank.
pub open spec fn square_name(idx: int) -> Seq<char> {
    seq![file_letter_spec(file_of(idx)), rank_digit_spec(rank_of(idx))]
}

/// The letter of a piece in notation; a pawn has none.
pub open spec fn piece_letter(piece: Piece) -> Seq<char> {
    match piece {
        Piece::Pawn => Seq::empty(),
        Piece::Knight => seq!['N'],
        Piece::Bishop => seq!['B'],
        Piece::Rook => seq!['R'],
        Piece::Queen => seq!['Q'],
        Piece::King => seq!['K'],
    }
}

/// Number of moves among the first `n` of `moves` that take a piece of the
/// kind of `m` to the target square of `m`.
pub open spec fn rivals(m: Move, moves: Seq<Move>, n: int) -> int
    decreases n,
{
    if n <= 0 {
        0
    } else {
        rivals(m, moves, n - 1) + if moves[n - 1].piece == m.piece && moves[n - 1].to_square
            == m.to_square {
            1int
        } else {
            0int
        }
    }
}

/// What tells the moving piece from others of its kind that can reach the
/// same square: the letter of its file where there is one other, the name
/// of its square where there are more. Pawns and kings need none.
pub open spec fn origin_hint(m: Move, moves: Seq<Move>) -> Seq<char> {
    let n = rivals(m, moves, moves.len() as int);
    if m.piece == Piece::Pawn || m.piece == Piece::King {
        Seq::empty()
    } else if n == 2 {
        seq![file_letter_spec(file_of(m.from_square as int))]
    } else if n > 2 {
        square_name(m.from_square as int)
    } else {
        Seq::empty()
    }
}

/// The move without its promotion.
pub open spec fn move_text(m: Move, moves: Seq<Move>) -> Seq<char> {
    let to = square_name(m.to_square as int);
    let symbol = piece_letter(m.piece) + origin_hint(m, moves);
    if m.is_quiet() {
        symbol + to
    } else if m.is_capture() {
        if m.piece == Piece::Pawn {
            seq![file_letter_spec(file_of(m.from_square as int)), 'x'] + to
        } else {
            symbol + seq!['x'] + to
        }
    } else if m.move_type == MoveType::CastleShort {
        seq!['0', '-', '0']
    } else {
        seq!['0', '-', '0', '-', '0']
    }
}

/// The move in algebraic notation, told from the other moves in `moves`:
/// the piece's letter, what tells it from its rivals, an `x` for a
/// capture, the target square, and `=` with the new piece's letter for a
/// promotion; `0-0` and `0-0-0` for castling.
pub open spec fn algebraic(m: Move, moves: Seq<Move>) -> Seq<char> {
    match m.promoted_spec() {
        Some(piece) => move_text(m, moves) + seq!['='] + piece_letter(piece),
        None => move_text(m, moves),
    }
}

/// The letter of a file.
pub fn file_letter(f: usize) -> (c: char)
    ensures
        c == file_letter_spec(f as int),
{
    if f == 0 {
        'h'
    } else if f == 1 {
        'g'
    } else if f == 2 {
        'f'
    } else if f == 3 {
        'e'
    } else if f == 4 {
        'd'
    } else if f == 5 {
        'c'
    } else if f == 6 {
        'b'
    } else {
        'a'
    }
}

/// The digit of a rank.
pub fn rank_digit(r: usize) -> (c: char)
    ensures
        c == rank_digit_spec(r as int),
{
    if r == 0 {
        '1'
    } else if r == 1 {
        '2'
    } else if r == 2 {
        '3'
    } else if r == 3 {
        '4'
    } else if r == 4 {
        '5'
    } else if r == 5 {
        '6'
    } else if r == 6 {
        '7'
    } else {
        '8'
    }
}

/// The name of a square.
pub fn idx_to_square(idx: usize) -> (s: String)
    ensures
        s@ == square_name(idx as int),
{
    let mut s = String::new();
    push_char(&mut s, file_letter(file(idx)));
    push_char(&mut s, rank_digit(rank(idx)));
    assert(s@ =~= square_name(idx as int));
    s
}

/// Appends the letter of a piece.
fn push_piece_letter(s: &mut String, piece: Piece)
    ensures
        final(s)@ == old(s)@ + piece_letter(piece),
{
    match piece {
        Piece::Pawn => {},
        Piece::Knight => push_char(s, 'N'),
        Piece::Bishop => push_char(s, 'B'),
        Piece::Rook => push_char(s, 'R'),
        Piece::Queen => push_char(s, 'Q'),
        Piece::King => push_char(s, 'K'),
    }
    assert(s@ =~= old(s)@ + piece_letter(piece));
}

impl Side {
    /// The side that a word names: `white` or `black`.
    pub fn from_str(string: &str) -> (side: Side)
        requires
            string@ == "white"@ || string@ == "black"@,
        ensures
            side == if string@ == "white"@ {
                Side::White
            } else {
                Side::Black
            },
    {
        if same_text(string, "white") {
            Side::White
        } else {
            Side::Black
        }
    }
}

impl Move {
    /// The move in algebraic notation, with nothing to tell it from.
    pub fn to_algebraic(&self) -> (s: String)
        ensures
            s@ == algebraic(*self, Seq::empty()),
    {
        let none: Vec<Move> = Vec::new();
        self.to_algebraic_with_state(&none)
    }

    /// The move in algebraic notation, told from the other legal moves.
    pub fn to_algebraic_with_state(&self, legal_moves: &Vec<Move>) -> (s: String)
        ensures
            s@ == algebraic(*self, legal_moves@),
    {
        let mut text = String::new();
        let ghost hint = origin_hint(*self, legal_moves@);
        let mut n: usize = 0;
        let mut i: usize = 0;
        while i < legal_moves.len()
            invariant
                i <= legal_moves@.len(),
                n == rivals(*self, legal_moves@, i as int),
                n <= i,
            decreases legal_moves@.len() - i,
        {
            if legal_moves[i].piece == self.piece && legal_moves[i].to_square == self.to_square {
                n += 1;
            }
            i += 1;
        }
        let ambiguous = self.piece != Piece::Pawn && self.piece != Piece::King;
        if self.is_quiet() || self.is_capture() {
            if self.is_capture() && self.piece == Piece::Pawn {
                push_char(&mut text, file_letter(file(self.from_square)));
            } else {
                push_piece_letter(&mut text, self.piece);
                if ambiguous && n == 2 {
                    push_char(&mut text, file_letter(file(self.from_square)));
                } else if ambiguous && n > 2 {
                    push_char(&mut text, file_letter(file(self.from_square)));
                    push_char(&mut text, rank_digit(rank(self.from_square)));
                }
                assert(text@ =~= piece_letter(self.piece) + hint);
            }
            if self.is_capture() {
                push_char(&mut text, 'x');
            }
            push_char(&mut text, file_letter(file(self.to_square)));
            push_char(&mut text, rank_digit(rank(self.to_square)));
            assert(text@ =~= move_text(*self, legal_moves@));
        } else {
            match self.move_type {
                MoveType::CastleShort => {
                    push_char(&mut text, '0');
                    push_char(&mut text, '-');
                    push_char(&mut text, '0');
                },
                _ => {
                    push_char(&mut text, '0');
                    push_char(&mut text, '-');
                    push_char(&mut text, '0');
                    push_char(&mut text, '-');
                    push_char(&mut text, '0');
                },
            }
            assert(text@ =~= move_text(*self, legal_moves@));
        }
        match self.promoted() {
            Some(piece) => {
                push_char(&mut text, '=');
                push_piece_letter(&mut text, piece);
                assert(text@ =~= move_text(*self, legal_moves@) + seq!['='] + piece_letter(piece));
            },
            None => {},
        }
        text
    }
}


/// The figure that stands for a piece of a side on a printed board.
pub open spec fn piece_glyph(piece: Piece, side: Side) -> Seq<char> {
    match side {
        Side::White => match piece {
            Piece::Pawn => "♟︎"@,
            Piece::Knight => "♞"@,
            Piece::Bishop => "♝"@,
            Piece::Rook => "♜"@,
            Piece::Queen => "♛"@,
            Piece::King => "♚"@,
        },
        Side::Black => match piece {
            Piece::Pawn => "♙"@,
            Piece::Knight => "♘"@,
            Piece::Bishop => "♗"@,
            Piece::Rook => "♖"@,
            Piece::Queen => "♕"@,
            Piece::King => "♔"@,
        },
    }
}

impl Piece {
    /// The figure that stands for the piece of `side` on a printed board.
    pub fn ascii(&self, side: Side) -> (glyph: &'static str)
        ensures
            glyph@ == piece_glyph(*self, side),
    {
        match side {
            Side::White => match self {
                Piece::Pawn => "♟︎",
                Piece::Knight => "♞",
                Piece::Bishop => "♝",
                Piece::Rook => "♜",
                Piece::Queen => "♛",
                Piece::King => "♚",
            },
            Side::Black => match self {
                Piece::Pawn => "♙",
                Piece::Knight => "♘",
                Piece::Bishop => "♗",
                Piece::Rook => "♖",
                Piece::Queen => "♕",
                Piece::King => "♔",
            },
        }
    }
}

/// The side of the `k`-th (piece, side) pair: White before Black for each
/// piece.
pub open spec fn pair_side(k: int) -> Side {
    if k % 2 == 0 {
        Side::White
    } else {
        Side::Black
    }
}

/// What is printed for square `sq` if the first `k` (piece, side) pairs are
/// looked at: the figure of the first pair that has a piece there, in red
/// for Black, or a dot.
pub open spec fn cell_text(board: Board, sq: int, k: int) -> Seq<char>
    decreases k,
{
    if k <= 0 {
        "."@
    } else {
        let piece = Piece::of_index((12 - k) / 2);
        let side = pair_side(12 - k);
        if in_bb(board.bb(piece, side), sq) {
            match side {
                Side::White => piece_glyph(piece, side),
                Side::Black => "\x1b[31m"@ + piece_glyph(piece, side) + "\x1b[0m"@,
            }
        } else {
            cell_text(board, sq, k - 1)
        }
    }
}

/// The first `n` cells of the printed row `j`, the eighth rank being row
/// 0 and the a-file coming first, with a blank between cells.
pub open spec fn cells_text(board: Board, j: int, n: int) -> Seq<char>
    decreases n,
{
    if n <= 0 {
        Seq::empty()
    } else {
        cells_text(board, j, n - 1) + cell_text(board, 63 - (8 * j + (n - 1)), 12) + if n - 1
            != 7 {
            " "@
        } else {
            Seq::empty()
        }
    }
}

/// The row that is printed in place `n` when `play_side` plays up the
/// board: White sees the eighth rank first, Black the first.
pub open spec fn printed_row(play_side: Side, n: int) -> int {
    match play_side {
        Side::White => n,
        Side::Black => 7 - n,
    }
}

/// The printed row in place `n`: the digit of the rank, two blanks, the
/// cells, and a line break unless it is the row of the first rank seen
/// from White or of the eighth seen from Black.
pub open spec fn row_text(board: Board, play_side: Side, n: int) -> Seq<char> {
    let j = printed_row(play_side, n);
    seq![crate::notation::rank_digit_spec(7 - j)] + "  "@ + cells_text(board, j, 8) + if (play_side
        == Side::White && j != 7) || (play_side == Side::Black && j != 0) {
        "\n"@
    } else {
        Seq::empty()
    }
}

/// The first `n` printed rows.
pub open spec fn rows_text(board: Board, play_side: Side, n: int) -> Seq<char>
    decreases n,
{
    if n <= 0 {
        Seq::empty()
    } else {
        rows_text(board, play_side, n - 1) + row_text(board, play_side, n - 1)
    }
}

/// The letters of the first `n` files under the board, from the a-file,
/// each followed by a blank.
pub open spec fn files_text(n: int) -> Seq<char>
    decreases n,
{
    if n <= 0 {
        Seq::empty()
    } else {
        files_text(n - 1) + seq![file_letter_spec(7 - (n - 1)), ' ']
    }
}

/// The printed board: eight rows, an empty line, and the letters of the
/// files.
pub open spec fn board_text(board: Board, play_side: Side) -> Seq<char> {
    rows_text(board, play_side, 8) + "\n\n   "@ + files_text(8) + "\n"@
}

/// Appends what is printed for square `sq`.
fn push_cell(text: &mut String, board: &Board, sq: usize)
    requires
        sq < 64,
    ensures
        final(text)@ == old(text)@ + cell_text(*board, sq as int, 12),
{
    let mut k: usize = 0;
    while k < 12
        invariant
            k <= 12,
            sq < 64,
            text@ == old(text)@,
            cell_text(*board, sq as int, 12) == cell_text(*board, sq as int, 12 - k),
        decreases 12 - k,
    {
        let piece = Piece::from_index(k / 2);
        let side = if k % 2 == 0 {
            Side::White
        } else {
            Side::Black
        };
        if test_bit(board.piece_bb(piece, side), sq) {
            match side {
                Side::White => {
                    text.append(piece.ascii(side));
                },
                Side::Black => {
                    text.append("\x1b[31m");
                    text.append(piece.ascii(side));
                    text.append("\x1b[0m");
                    assert(text@ =~= old(text)@ + ("\x1b[31m"@ + piece_glyph(piece, side)
                        + "\x1b[0m"@));
                },
            }
            return ;
        }
        k += 1;
    }
    text.append(".");
}

impl Board {
    /// The board as text for a terminal, seen from the side that plays up
    /// the board. Black's pieces are printed in red.
    pub fn to_ascii(&self, play_side: Side) -> (text: String)
        ensures
            text@ == board_text(*self, play_side),
    {
        let mut text = String::new();
        let mut n: usize = 0;
        assert(text@ =~= rows_text(*self, play_side, 0));
        while n < 8
            invariant
                n <= 8,
                text@ == rows_text(*self, play_side, n as int),
            decreases 8 - n,
        {
            let ghost before = text@;
            let j = match play_side {
                Side::White => n,
                Side::Black => 7 - n,
            };
            push_char(&mut text, rank_digit(7 - j));
            text.append("  ");
            let ghost head = text@;
            let mut i: usize = 0;
            assert(text@ =~= head + cells_text(*self, j as int, 0));
            while i < 8
                invariant
                    i <= 8,
                    j < 8,
                    text@ == head + cells_text(*self, j as int, i as int),
                decreases 8 - i,
            {
                let ghost row = cells_text(*self, j as int, i as int);
                push_cell(&mut text, self, 63 - (8 * j + i));
                if i != 7 {
                    text.append(" ");
                }
                assert(text@ =~= head + (row + cell_text(*self, 63 - (8 * j + i), 12) + if i
                    != 7 {
                    " "@
                } else {
                    Seq::empty()
                }));
                i += 1;
            }
            let last = match play_side {
                Side::White => j == 7,
                Side::Black => j == 0,
            };
            if !last {
                text.append("\n");
            }
            assert(text@ =~= before + row_text(*self, play_side, n as int));
            n += 1;
        }
        text.append("\n\n   ");
        let ghost head = text@;
        let mut f: usize = 0;
        assert(text@ =~= head + files_text(0));
        while f < 8
            invariant
                f <= 8,
                text@ == head + files_text(f as int),
            decreases 8 - f,
        {
            let ghost letters = files_text(f as int);
            push_char(&mut text, file_letter(7 - f));
            push_char(&mut text, ' ');
            assert(text@ =~= head + (letters + seq![file_letter_spec(7 - f), ' ']));
            f += 1;
        }
        text.append("\n");
        assert(text@ =~= board_text(*self, play_side));
        text
    }
}

} // verus!
