//! Board geometry and the attack tables that depend on it alone: pawn,
//! knight and king masks, the eight rays from every square, and the blocker
//! masks of the sliding pieces.
//!
//! Square `s` lies on file `s % 8` and rank `s / 8`. File 0 is the h-file,
//! so "west" is the direction of growing file numbers.

use vstd::prelude::*;
use crate::bits::{
    highest_square, in_bb, lemma_bb_and, lemma_bb_not, lemma_bb_or, lemma_bb_zero,
    lemma_extensional, lemma_is_mask_of, lemma_mask_of, lowest_square, mask_of, square_bit,
};
use crate::board::{Piece, Side};

verus! {

pub const FILE_MASKS: [u64; 8] = [
    0x0101_0101_0101_0101,
    0x0202_0202_0202_0202,
    0x0404_0404_0404_0404,
    0x0808_0808_0808_0808,
    0x1010_1010_1010_1010,
    0x2020_2020_2020_2020,
    0x4040_4040_4040_4040,
    0x8080_8080_8080_8080,
];

pub const RANK_MASKS: [u64; 8] = [
    0x0000_0000_0000_00ff,
    0x0000_0000_0000_ff00,
    0x0000_0000_00ff_0000,
    0x0000_0000_ff00_0000,
    0x0000_00ff_0000_0000,
    0x0000_ff00_0000_0000,
    0x00ff_0000_0000_0000,
    0xff00_0000_0000_0000,
];

/// Squares that lie on no edge of the board.
pub const INNER_MASK: u64 = 0x007e_7e7e_7e7e_7e00;

/// The file of a square, from 0 for the h-file to 7 for the a-file.
pub open spec fn file_of(sq: int) -> int {
    sq % 8
}

/// The rank of a square, from 0 for the first rank to 7 for the eighth.
pub open spec fn rank_of(sq: int) -> int {
    sq / 8
}

/// The number is a square of the board.
pub open spec fn on_board(sq: int) -> bool {
    0 <= sq < 64
}

/// The file of a square.
pub fn file(square: usize) -> (r: usize)
    ensures
        r == file_of(square as int),
        r < 8,
{
    square % 8
}

/// The rank of a square.
pub fn rank(square: usize) -> (r: usize)
    ensures
        r == rank_of(square as int),
{
    square / 8
}

#[derive(PartialEq, Eq, Structural, Debug, Copy, Clone)]
pub enum RayDirection {
    North,
    East,
    South,
    West,
    NorthEast,
    SouthEast,
    SouthWest,
    NorthWest,
}

impl RayDirection {
    pub const N_DIRECTIONS: usize = 8;

    pub const BISHOP_DIRECTIONS: [RayDirection; 4] = [
        RayDirection::NorthEast,
        RayDirection::SouthEast,
        RayDirection::SouthWest,
        RayDirection::NorthWest,
    ];

    pub const ROOK_DIRECTIONS: [RayDirection; 4] = [
        RayDirection::North,
        RayDirection::East,
        RayDirection::South,
        RayDirection::West,
    ];

    /// The number that stands for the direction where tables are indexed
    /// by direction.
    pub open spec fn index_spec(self) -> int {
        match self {
            RayDirection::North => 0,
            RayDirection::East => 1,
            RayDirection::South => 2,
            RayDirection::West => 3,
            RayDirection::NorthEast => 4,
            RayDirection::SouthEast => 5,
            RayDirection::SouthWest => 6,
            RayDirection::NorthWest => 7,
        }
    }

    /// The direction that a number below eight stands for.
    pub open spec fn of_index(i: int) -> RayDirection {
        if i == 0 {
            RayDirection::North
        } else if i == 1 {
            RayDirection::East
        } else if i == 2 {
            RayDirection::South
        } else if i == 3 {
            RayDirection::West
        } else if i == 4 {
            RayDirection::NorthEast
        } else if i == 5 {
            RayDirection::SouthEast
        } else if i == 6 {
            RayDirection::SouthWest
        } else {
            RayDirection::NorthWest
        }
    }

    /// Change of file by one step in this direction.
    pub open spec fn file_step(self) -> int {
        match self {
            RayDirection::North => 0,
            RayDirection::East => -1,
            RayDirection::South => 0,
            RayDirection::West => 1,
            RayDirection::NorthEast => -1,
            RayDirection::SouthEast => -1,
            RayDirection::SouthWest => 1,
            RayDirection::NorthWest => 1,
        }
    }

    /// Change of rank by one step in this direction.
    pub open spec fn rank_step(self) -> int {
        match self {
            RayDirection::North => 1,
            RayDirection::East => 0,
            RayDirection::South => -1,
            RayDirection::West => 0,
            RayDirection::NorthEast => 1,
            RayDirection::SouthEast => -1,
            RayDirection::SouthWest => -1,
            RayDirection::NorthWest => 1,
        }
    }

    /// Whether square numbers grow along this direction.
    pub open spec fn ascending(self) -> bool {
        8 * self.rank_step() + self.file_step() > 0
    }

    /// The direction is one of a bishop.
    pub open spec fn is_diagonal(self) -> bool {
        self.file_step() != 0 && self.rank_step() != 0
    }

    /// The direction that leads back.
    pub open spec fn reverse(self) -> RayDirection {
        match self {
            RayDirection::North => RayDirection::South,
            RayDirection::East => RayDirection::West,
            RayDirection::South => RayDirection::North,
            RayDirection::West => RayDirection::East,
            RayDirection::NorthEast => RayDirection::SouthWest,
            RayDirection::SouthEast => RayDirection::NorthWest,
            RayDirection::SouthWest => RayDirection::NorthEast,
            RayDirection::NorthWest => RayDirection::SouthEast,
        }
    }

    /// The number that stands for the direction.
    pub fn index(self) -> (r: usize)
        ensures
            r == self.index_spec(),
            r < 8,
            RayDirection::of_index(r as int) == self,
    {
        match self {
            RayDirection::North => 0,
            RayDirection::East => 1,
            RayDirection::South => 2,
            RayDirection::West => 3,
            RayDirection::NorthEast => 4,
            RayDirection::SouthEast => 5,
            RayDirection::SouthWest => 6,
            RayDirection::NorthWest => 7,
        }
    }

    /// The direction with the given number.
    pub fn from_index(i: usize) -> (r: RayDirection)
        requires
            i < 8,
        ensures
            r == RayDirection::of_index(i as int),
            r.index_spec() == i,
    {
        if i == 0 {
            RayDirection::North
        } else if i == 1 {
            RayDirection::East
        } else if i == 2 {
            RayDirection::South
        } else if i == 3 {
            RayDirection::West
        } else if i == 4 {
            RayDirection::NorthEast
        } else if i == 5 {
            RayDirection::SouthEast
        } else if i == 6 {
            RayDirection::SouthWest
        } else {
            RayDirection::NorthWest
        }
    }

    /// Whether square numbers grow along this direction.
    pub fn is_ascending(self) -> (r: bool)
        ensures
            r == self.ascending(),
    {
        match self {
            RayDirection::North | RayDirection::West | RayDirection::NorthEast
            | RayDirection::NorthWest => true,
            _ => false,
        }
    }

    /// Change of file and of rank by one step in this direction.
    fn steps(self) -> (r: (i8, i8))
        ensures
            r.0 == self.file_step(),
            r.1 == self.rank_step(),
    {
        match self {
            RayDirection::North => (0, 1),
            RayDirection::East => (-1, 0),
            RayDirection::South => (0, -1),
            RayDirection::West => (1, 0),
            RayDirection::NorthEast => (-1, 1),
            RayDirection::SouthEast => (-1, -1),
            RayDirection::SouthWest => (1, -1),
            RayDirection::NorthWest => (1, 1),
        }
    }
}

/// Number of steps from `s` to `t` in direction `dir`, meaningful where `t`
/// lies on the line through `s` in that direction.
pub open spec fn ray_distance(dir: RayDirection, s: int, t: int) -> int {
    if dir.rank_step() == 1 {
        rank_of(t) - rank_of(s)
    } else if dir.rank_step() == -1 {
        rank_of(s) - rank_of(t)
    } else if dir.file_step() == 1 {
        file_of(t) - file_of(s)
    } else {
        file_of(s) - file_of(t)
    }
}

/// The coordinate reached from `from` by `k` steps of size `step`, which is
/// -1, 0 or 1.
pub open spec fn stepped(from: int, step: int, k: int) -> int {
    if step == 0 {
        from
    } else if step == 1 {
        from + k
    } else {
        from - k
    }
}

/// Square `t` is reached from square `s` by one or more steps in direction
/// `dir`.
pub open spec fn on_ray(dir: RayDirection, s: int, t: int) -> bool {
    let k = ray_distance(dir, s, t);
    &&& on_board(s)
    &&& on_board(t)
    &&& k >= 1
    &&& file_of(t) == stepped(file_of(s), dir.file_step(), k)
    &&& rank_of(t) == stepped(rank_of(s), dir.rank_step(), k)
}

/// Square `u` lies strictly between `s` and `t` on the ray from `s` in
/// direction `dir`.
pub open spec fn between(dir: RayDirection, s: int, t: int, u: int) -> bool {
    on_ray(dir, s, u) && on_ray(dir, u, t)
}

/// A slider on `s` sees `t` along `dir`: `t` is on the ray and no square
/// strictly between the two is occupied.
pub open spec fn sees_along(dir: RayDirection, s: int, occ: u64, t: int) -> bool {
    on_ray(dir, s, t) && forall|u: int| #[trigger] between(dir, s, t, u) ==> !in_bb(occ, u)
}

/// A bishop on `s` reaches `t` on an empty board.
pub open spec fn bishop_reach(s: int, t: int) -> bool {
    on_ray(RayDirection::NorthEast, s, t) || on_ray(RayDirection::SouthEast, s, t) || on_ray(
        RayDirection::SouthWest,
        s,
        t,
    ) || on_ray(RayDirection::NorthWest, s, t)
}

/// A rook on `s` reaches `t` on an empty board.
pub open spec fn rook_reach(s: int, t: int) -> bool {
    on_ray(RayDirection::North, s, t) || on_ray(RayDirection::East, s, t) || on_ray(
        RayDirection::South,
        s,
        t,
    ) || on_ray(RayDirection::West, s, t)
}

/// A bishop on `s` attacks `t` when the squares in `occ` are occupied.
pub open spec fn bishop_sees(s: int, occ: u64, t: int) -> bool {
    sees_along(RayDirection::NorthEast, s, occ, t) || sees_along(
        RayDirection::SouthEast,
        s,
        occ,
        t,
    ) || sees_along(RayDirection::SouthWest, s, occ, t) || sees_along(
        RayDirection::NorthWest,
        s,
        occ,
        t,
    )
}

/// A rook on `s` attacks `t` when the squares in `occ` are occupied.
pub open spec fn rook_sees(s: int, occ: u64, t: int) -> bool {
    sees_along(RayDirection::North, s, occ, t) || sees_along(RayDirection::East, s, occ, t)
        || sees_along(RayDirection::South, s, occ, t) || sees_along(
        RayDirection::West,
        s,
        occ,
        t,
    )
}

/// The distance between two numbers.
pub open spec fn abs_diff(a: int, b: int) -> int {
    if a >= b {
        a - b
    } else {
        b - a
    }
}

/// A knight on `s` attacks `t`.
pub open spec fn knight_reach(s: int, t: int) -> bool {
    let df = abs_diff(file_of(s), file_of(t));
    let dr = abs_diff(rank_of(s), rank_of(t));
    on_board(s) && on_board(t) && ((df == 1 && dr == 2) || (df == 2 && dr == 1))
}

/// A king on `s` attacks `t`.
pub open spec fn king_reach(s: int, t: int) -> bool {
    let df = abs_diff(file_of(s), file_of(t));
    let dr = abs_diff(rank_of(s), rank_of(t));
    on_board(s) && on_board(t) && s != t && df <= 1 && dr <= 1
}

/// Rank change of a pawn's advance.
pub open spec fn pawn_forward(side: Side) -> int {
    match side {
        Side::White => 1,
        Side::Black => -1,
    }
}

/// Rank on which the pawns of a side start.
pub open spec fn pawn_home_rank(side: Side) -> int {
    match side {
        Side::White => 1,
        Side::Black => 6,
    }
}

/// A pawn of `side` on `s` may advance to `t` on an empty board: one step,
/// or two from its home rank.
pub open spec fn pawn_push_reach(side: Side, s: int, t: int) -> bool {
    &&& on_board(s)
    &&& on_board(t)
    &&& file_of(t) == file_of(s)
    &&& (rank_of(t) == rank_of(s) + pawn_forward(side) || (rank_of(s) == pawn_home_rank(side)
        && rank_of(t) == rank_of(s) + 2 * pawn_forward(side)))
}

/// A pawn of `side` on `s` attacks `t`.
pub open spec fn pawn_capture_reach(side: Side, s: int, t: int) -> bool {
    &&& on_board(s)
    &&& on_board(t)
    &&& abs_diff(file_of(s), file_of(t)) == 1
    &&& rank_of(t) == rank_of(s) + pawn_forward(side)
}

/// A square that is not the last one of a rook's line from `s`.
pub open spec fn rook_inner(s: int, t: int) -> bool {
    &&& (file_of(t) == file_of(s) ==> 1 <= rank_of(t) <= 6)
    &&& (rank_of(t) == rank_of(s) ==> 1 <= file_of(t) <= 6)
}

/// A square on no edge of the board.
pub open spec fn inner_square(t: int) -> bool {
    1 <= file_of(t) <= 6 && 1 <= rank_of(t) <= 6
}

/// The squares of the ray from `s` in direction `dir`.
pub open spec fn ray_mask(dir: RayDirection, s: int) -> u64 {
    mask_of(|t: int| on_ray(dir, s, t))
}

/// The squares that a knight on `s` attacks.
pub open spec fn knight_mask(s: int) -> u64 {
    mask_of(|t: int| knight_reach(s, t))
}

/// The squares that a king on `s` attacks.
pub open spec fn king_mask(s: int) -> u64 {
    mask_of(|t: int| king_reach(s, t))
}

/// The squares to which a pawn of `side` on `s` advances on an empty
/// board.
pub open spec fn pawn_push_mask(side: Side, s: int) -> u64 {
    mask_of(|t: int| pawn_push_reach(side, s, t))
}

/// The squares that a pawn of `side` on `s` attacks.
pub open spec fn pawn_capture_mask(side: Side, s: int) -> u64 {
    mask_of(|t: int| pawn_capture_reach(side, s, t))
}

/// The squares that a bishop on `s` reaches on an empty board.
pub open spec fn bishop_ray_mask(s: int) -> u64 {
    mask_of(|t: int| bishop_reach(s, t))
}

/// The squares that a rook on `s` reaches on an empty board.
pub open spec fn rook_ray_mask(s: int) -> u64 {
    mask_of(|t: int| rook_reach(s, t))
}

/// The squares that a queen on `s` reaches on an empty board.
pub open spec fn queen_ray_mask(s: int) -> u64 {
    mask_of(|t: int| bishop_reach(s, t) || rook_reach(s, t))
}

/// The squares on which a piece may block a bishop on `s`: its rays
/// without the squares on the edge.
pub open spec fn bishop_blocker_mask(s: int) -> u64 {
    mask_of(|t: int| bishop_reach(s, t) && inner_square(t))
}

/// The squares on which a piece may block a rook on `s`: its rays
/// without the last square of each.
pub open spec fn rook_blocker_mask(s: int) -> u64 {
    mask_of(|t: int| rook_reach(s, t) && rook_inner(s, t))
}

/// The squares on which a piece may block a queen on `s`.
pub open spec fn queen_blocker_mask(s: int) -> u64 {
    mask_of(
        |t: int|
            (bishop_reach(s, t) && inner_square(t)) || (rook_reach(s, t) && rook_inner(s, t)),
    )
}

/// Squares that a bishop on `s` attacks when the squares in `occ` are
/// occupied. The first occupied square in each direction is attacked.
pub open spec fn bishop_attacks(s: int, occ: u64) -> u64 {
    mask_of(|t: int| bishop_sees(s, occ, t))
}

/// Squares that a rook on `s` attacks when the squares in `occ` are occupied.
pub open spec fn rook_attacks(s: int, occ: u64) -> u64 {
    mask_of(|t: int| rook_sees(s, occ, t))
}

/// Squares that a queen on `s` attacks when the squares in `occ` are occupied.
pub open spec fn queen_attacks(s: int, occ: u64) -> u64 {
    bishop_attacks(s, occ) | rook_attacks(s, occ)
}

/// The bitboard `acc` with the square on file `f` and rank `r` added, if
/// there is such a square.
fn with_square(acc: u64, f: isize, r: isize) -> (res: u64)
    requires
        -8 <= f < 16,
        -8 <= r < 16,
    ensures
        forall|t: int|
            #[trigger] in_bb(res, t) == (in_bb(acc, t) || (on_board(t) && file_of(t) == f
                && rank_of(t) == r)),
{
    if 0 <= f && f < 8 && 0 <= r && r < 8 {
        let sq: usize = (8 * r + f) as usize;
        let bit = square_bit(sq);
        proof {
            lemma_bb_or(acc, bit);
        }
        acc | bit
    } else {
        acc
    }
}


/// A square beyond a square of a ray is a square of the ray.
pub proof fn lemma_ray_transitive(dir: RayDirection, s: int, u: int, t: int)
    requires
        on_ray(dir, s, u),
        on_ray(dir, u, t),
    ensures
        on_ray(dir, s, t),
{
}

/// Two squares on one ray from `s` are equal or one lies beyond the other.
pub proof fn lemma_ray_trichotomy(dir: RayDirection, s: int, a: int, b: int)
    requires
        on_ray(dir, s, a),
        on_ray(dir, s, b),
    ensures
        a == b || on_ray(dir, a, b) || on_ray(dir, b, a),
{
}

/// Square numbers grow along an ascending direction and fall along the others.
pub proof fn lemma_ray_order(dir: RayDirection, a: int, b: int)
    requires
        on_ray(dir, a, b),
    ensures
        dir.ascending() ==> a < b,
        !dir.ascending() ==> a > b,
{
}

/// A ray read backwards is the ray in the reverse direction.
pub proof fn lemma_ray_reverse(dir: RayDirection, s: int, t: int)
    ensures
        on_ray(dir, s, t) == on_ray(dir.reverse(), t, s),
{
}

/// The ray mask holds the squares of the ray.
pub proof fn lemma_ray_mask(dir: RayDirection, s: int)
    ensures
        forall|t: int| #[trigger] in_bb(ray_mask(dir, s), t) == on_ray(dir, s, t),
{
    lemma_mask_of(|t: int| on_ray(dir, s, t));
}

/// The inner mask holds the squares on no edge.
pub proof fn lemma_inner_mask()
    ensures
        forall|t: int| 0 <= t < 64 ==> #[trigger] in_bb(INNER_MASK, t) == inner_square(t),
{
    assert forall|t: int| 0 <= t < 64 implies #[trigger] in_bb(INNER_MASK, t) == inner_square(
        t,
    ) by {
        let i = t as u64;
        assert(i < 64 ==> (((0x007e_7e7e_7e7e_7e00u64 >> i) & 1 == 1) <==> (1 <= i % 8 && i % 8
            <= 6 && 1 <= i / 8 && i / 8 <= 6))) by (bit_vector);
    }
}

/// The squares of the ray from `square` in direction `dir`.
fn ray_squares(dir: RayDirection, square: usize) -> (res: u64)
    requires
        square < 64,
    ensures
        res == ray_mask(dir, square as int),
{
    let (df, dr) = dir.steps();
    let f0: i8 = file(square) as i8;
    let r0: i8 = rank(square) as i8;
    let mut f: i8 = f0 + df;
    let mut r: i8 = r0 + dr;
    let mut k: i8 = 1;
    let mut bb: u64 = 0;
    proof {
        lemma_bb_zero();
    }
    while 0 <= f && f < 8 && 0 <= r && r < 8
        invariant
            square < 64,
            f0 == file_of(square as int),
            r0 == rank_of(square as int),
            df == dir.file_step(),
            dr == dir.rank_step(),
            1 <= k <= 8,
            f == stepped(f0 as int, df as int, k as int),
            r == stepped(r0 as int, dr as int, k as int),
            forall|t: int|
                #[trigger] in_bb(bb, t) == (on_ray(dir, square as int, t) && ray_distance(
                    dir,
                    square as int,
                    t,
                ) < k),
        decreases 8 - k,
    {
        bb = with_square(bb, f as isize, r as isize);
        f = f + df;
        r = r + dr;
        k = k + 1;
    }
    proof {
        lemma_is_mask_of(bb, |t: int| on_ray(dir, square as int, t));
    }
    bb
}

/// The squares a knight on `square` attacks.
fn init_knight_moves(square: usize) -> (res: u64)
    requires
        square < 64,
    ensures
        res == knight_mask(square as int),
{
    let f: isize = file(square) as isize;
    let r: isize = rank(square) as isize;
    proof {
        lemma_bb_zero();
    }
    let mut bb: u64 = 0;
    bb = with_square(bb, f + 1, r + 2);
    bb = with_square(bb, f - 1, r + 2);
    bb = with_square(bb, f + 1, r - 2);
    bb = with_square(bb, f - 1, r - 2);
    bb = with_square(bb, f + 2, r + 1);
    bb = with_square(bb, f + 2, r - 1);
    bb = with_square(bb, f - 2, r + 1);
    bb = with_square(bb, f - 2, r - 1);
    proof {
        lemma_is_mask_of(bb, |t: int| knight_reach(square as int, t));
    }
    bb
}

/// The squares a king on `square` attacks.
fn init_king_moves(square: usize) -> (res: u64)
    requires
        square < 64,
    ensures
        res == king_mask(square as int),
{
    let f: isize = file(square) as isize;
    let r: isize = rank(square) as isize;
    proof {
        lemma_bb_zero();
    }
    let mut bb: u64 = 0;
    bb = with_square(bb, f + 1, r);
    bb = with_square(bb, f - 1, r);
    bb = with_square(bb, f, r + 1);
    bb = with_square(bb, f, r - 1);
    bb = with_square(bb, f + 1, r + 1);
    bb = with_square(bb, f - 1, r + 1);
    bb = with_square(bb, f + 1, r - 1);
    bb = with_square(bb, f - 1, r - 1);
    proof {
        lemma_is_mask_of(bb, |t: int| king_reach(square as int, t));
    }
    bb
}

/// The advance mask and the capture mask of a pawn of `side` on `square`.
fn init_pawn_moves(side: Side, square: usize) -> (res: (u64, u64))
    requires
        square < 64,
    ensures
        res.0 == pawn_push_mask(side, square as int),
        res.1 == pawn_capture_mask(side, square as int),
{
    let f: isize = file(square) as isize;
    let r: isize = rank(square) as isize;
    let (forward, home): (isize, isize) = match side {
        Side::White => (1, 1),
        Side::Black => (-1, 6),
    };
    proof {
        lemma_bb_zero();
    }
    let mut push: u64 = 0;
    push = with_square(push, f, r + forward);
    if r == home {
        push = with_square(push, f, r + 2 * forward);
    }
    let mut capture: u64 = 0;
    capture = with_square(capture, f + 1, r + forward);
    capture = with_square(capture, f - 1, r + forward);
    proof {
        lemma_is_mask_of(push, |t: int| pawn_push_reach(side, square as int, t));
        lemma_is_mask_of(capture, |t: int| pawn_capture_reach(side, square as int, t));
    }
    (push, capture)
}


/// The blocker mask of a bishop on `square`, from its four rays together.
fn init_bishop_moves(square: usize, comp: u64) -> (res: u64)
    requires
        square < 64,
        comp == bishop_ray_mask(square as int),
    ensures
        res == bishop_blocker_mask(square as int),
{
    let res = comp & INNER_MASK;
    proof {
        lemma_mask_of(|t: int| bishop_reach(square as int, t));
        lemma_inner_mask();
        lemma_bb_and(comp, INNER_MASK);
        lemma_is_mask_of(res, |t: int| bishop_reach(square as int, t) && inner_square(t));
    }
    res
}

/// The blocker mask of a rook on `square`, from its four rays together: the
/// last square of each line is left out.
fn init_rook_moves(square: usize, comp: u64) -> (res: u64)
    requires
        square < 64,
        comp == rook_ray_mask(square as int),
    ensures
        res == rook_blocker_mask(square as int),
{
    let f = file(square);
    let r = rank(square);
    let b0 = square_bit(f);
    let b1 = square_bit(56 + f);
    let b2 = square_bit(8 * r + 7);
    let b3 = square_bit(8 * r);
    let m0 = comp & !b0;
    let m1 = m0 & !b1;
    let m2 = m1 & !b2;
    let res = m2 & !b3;
    proof {
        lemma_mask_of(|t: int| rook_reach(square as int, t));
        lemma_bb_not(b0);
        lemma_bb_not(b1);
        lemma_bb_not(b2);
        lemma_bb_not(b3);
        lemma_bb_and(comp, !b0);
        lemma_bb_and(m0, !b1);
        lemma_bb_and(m1, !b2);
        lemma_bb_and(m2, !b3);
        lemma_is_mask_of(res, |t: int| rook_reach(square as int, t) && rook_inner(square as int, t));
    }
    res
}

/// The blocker mask of a queen on `square`.
fn init_queen_moves(square: usize, bishop_mask: u64, rook_mask: u64) -> (res: u64)
    requires
        square < 64,
        bishop_mask == bishop_blocker_mask(square as int),
        rook_mask == rook_blocker_mask(square as int),
    ensures
        res == queen_blocker_mask(square as int),
{
    let res = rook_mask | bishop_mask;
    proof {
        let s = square as int;
        lemma_mask_of(|t: int| bishop_reach(s, t) && inner_square(t));
        lemma_mask_of(|t: int| rook_reach(s, t) && rook_inner(s, t));
        lemma_bb_or(rook_mask, bishop_mask);
        lemma_is_mask_of(
            res,
            |t: int|
                (bishop_reach(s, t) && inner_square(t)) || (rook_reach(s, t) && rook_inner(s, t)),
        );
    }
    res
}

/// The union of four rays.
fn join_rays(a: u64, b: u64, c: u64, d: u64) -> (res: u64)
    ensures
        res == a | b | c | d,
        forall|t: int|
            #[trigger] in_bb(res, t) == (in_bb(a, t) || in_bb(b, t) || in_bb(c, t) || in_bb(d, t)),
{
    proof {
        lemma_bb_or(a, b);
        lemma_bb_or(a | b, c);
        lemma_bb_or(a | b | c, d);
    }
    a | b | c | d
}

/// Attack tables that depend on the geometry of the board alone.
pub struct MoveBitboards {
    /// Advance masks of a pawn, by side and square.
    pub pawn_moves: [[u64; 64]; 2],
    /// Capture masks of a pawn, by side and square.
    pub pawn_capture_moves: [[u64; 64]; 2],
    pub knight_moves: [u64; 64],
    pub king_moves: [u64; 64],
    /// Blocker masks for the magic lookup: the rays without the squares
    /// behind which nothing can stand.
    pub rook_masks: [u64; 64],
    pub bishop_masks: [u64; 64],
    pub queen_masks: [u64; 64],
    /// The ray from each square in each direction, up to the edge.
    pub rays: [[u64; 64]; 8],
    /// All rays of a bishop, a rook and a queen from each square.
    pub comp_rays: [[u64; 64]; 3],
}

impl MoveBitboards {
    /// Every entry for square `s` is the mask that the geometry prescribes.
    pub open spec fn wf_at(&self, s: int) -> bool {
        &&& self.pawn_moves[0][s] == pawn_push_mask(Side::White, s)
        &&& self.pawn_moves[1][s] == pawn_push_mask(Side::Black, s)
        &&& self.pawn_capture_moves[0][s] == pawn_capture_mask(Side::White, s)
        &&& self.pawn_capture_moves[1][s] == pawn_capture_mask(Side::Black, s)
        &&& self.knight_moves[s] == knight_mask(s)
        &&& self.king_moves[s] == king_mask(s)
        &&& self.rook_masks[s] == rook_blocker_mask(s)
        &&& self.bishop_masks[s] == bishop_blocker_mask(s)
        &&& self.queen_masks[s] == queen_blocker_mask(s)
        &&& self.rays[0][s] == ray_mask(RayDirection::North, s)
        &&& self.rays[1][s] == ray_mask(RayDirection::East, s)
        &&& self.rays[2][s] == ray_mask(RayDirection::South, s)
        &&& self.rays[3][s] == ray_mask(RayDirection::West, s)
        &&& self.rays[4][s] == ray_mask(RayDirection::NorthEast, s)
        &&& self.rays[5][s] == ray_mask(RayDirection::SouthEast, s)
        &&& self.rays[6][s] == ray_mask(RayDirection::SouthWest, s)
        &&& self.rays[7][s] == ray_mask(RayDirection::NorthWest, s)
        &&& self.comp_rays[0][s] == bishop_ray_mask(s)
        &&& self.comp_rays[1][s] == rook_ray_mask(s)
        &&& self.comp_rays[2][s] == queen_ray_mask(s)
    }

    /// Every table holds, for every square, the mask that the geometry
    /// prescribes.
    pub open spec fn wf(&self) -> bool {
        forall|s: int| 0 <= s < 64 ==> #[trigger] self.wf_at(s)
    }

    /// The mask that [`MoveBitboards::pseudo_moves`] reads for a piece of
    /// `side` on `square`.
    pub open spec fn pseudo_mask(piece: Piece, side: Side, square: int) -> u64 {
        match piece {
            Piece::Pawn => pawn_push_mask(side, square),
            Piece::Knight => knight_mask(square),
            Piece::Bishop => bishop_blocker_mask(square),
            Piece::Rook => rook_blocker_mask(square),
            Piece::Queen => queen_blocker_mask(square),
            Piece::King => king_mask(square),
        }
    }

    /// The table entry for a piece of `side` on `square`: the advance mask
    /// of a pawn, the attack mask of a knight or king, the blocker mask of a
    /// slider.
    pub fn pseudo_moves(&self, piece: Piece, side: Side, square: usize) -> (res: u64)
        requires
            self.wf(),
            square < 64,
        ensures
            res == Self::pseudo_mask(piece, side, square as int),
    {
        assert(self.wf_at(square as int));
        match piece {
            Piece::Pawn => self.pawn_moves[side.index()][square],
            Piece::Knight => self.knight_moves[square],
            Piece::Bishop => self.bishop_masks[square],
            Piece::Rook => self.rook_masks[square],
            Piece::Queen => self.queen_masks[square],
            Piece::King => self.king_moves[square],
        }
    }

    /// The capture mask of a pawn of `side` on `square`.
    pub fn pawn_captures(&self, side: Side, square: usize) -> (res: u64)
        requires
            self.wf(),
            square < 64,
        ensures
            res == pawn_capture_mask(side, square as int),
    {
        assert(self.wf_at(square as int));
        self.pawn_capture_moves[side.index()][square]
    }

    /// The ray from `square` in direction `dir`.
    pub fn ray(&self, dir: RayDirection, square: usize) -> (res: u64)
        requires
            self.wf(),
            square < 64,
        ensures
            res == ray_mask(dir, square as int),
    {
        assert(self.wf_at(square as int));
        self.rays[dir.index()][square]
    }

    /// The blocker mask of a sliding piece on `square`.
    pub fn get_piece_blocker_mask(&self, piece: Piece, square: usize) -> (res: u64)
        requires
            self.wf(),
            square < 64,
            piece.is_slider(),
        ensures
            res == Self::pseudo_mask(piece, Side::White, square as int),
    {
        assert(self.wf_at(square as int));
        match piece {
            Piece::Rook => self.rook_masks[square],
            Piece::Bishop => self.bishop_masks[square],
            _ => self.queen_masks[square],
        }
    }

    /// All rays of a sliding piece, one entry for each square.
    pub fn get_comp_rays(&self, piece: Piece) -> (res: &[u64; 64])
        requires
            piece.is_slider(),
        ensures
            *res == self.comp_rays[piece.index_spec() - 2],
    {
        &self.comp_rays[piece.index() - Piece::SLIDER_START_VALUE]
    }

    /// The squares that a slider on `square` sees along `dir` when the
    /// squares in `blocker_mask` are occupied: the ray up to and including
    /// the nearest occupied square.
    pub fn ray_attacks(&self, dir: RayDirection, square: usize, blocker_mask: u64) -> (res: u64)
        requires
            self.wf(),
            square < 64,
        ensures
            forall|t: int|
                #[trigger] in_bb(res, t) == sees_along(dir, square as int, blocker_mask, t),
    {
        let ray = self.ray(dir, square);
        let blockers = ray & blocker_mask;
        proof {
            lemma_ray_mask(dir, square as int);
            lemma_bb_and(ray, blocker_mask);
        }
        if blockers != 0 {
            let nearest = if dir.is_ascending() {
                lowest_square(blockers)
            } else {
                highest_square(blockers)
            };
            let beyond = self.ray(dir, nearest);
            let res = ray & !beyond;
            proof {
                let s = square as int;
                let n = nearest as int;
                lemma_ray_mask(dir, n);
                lemma_bb_not(beyond);
                lemma_bb_and(ray, !beyond);
                assert forall|t: int| #[trigger]
                    in_bb(res, t) == sees_along(dir, s, blocker_mask, t) by {
                    if on_ray(dir, s, t) {
                        if on_ray(dir, n, t) {
                            assert(between(dir, s, t, n));
                        } else {
                            lemma_ray_trichotomy(dir, s, t, n);
                            assert forall|u: int| #[trigger] between(dir, s, t, u) implies !in_bb(
                                blocker_mask,
                                u,
                            ) by {
                                if in_bb(blocker_mask, u) {
                                    assert(in_bb(blockers, u));
                                    if t != n {
                                        lemma_ray_transitive(dir, u, t, n);
                                    }
                                    lemma_ray_order(dir, u, n);
                                }
                            }
                        }
                    }
                }
            }
            res
        } else {
            proof {
                lemma_bb_zero();
                let s = square as int;
                assert forall|t: int| #[trigger]
                    in_bb(ray, t) == sees_along(dir, s, blocker_mask, t) by {
                    if on_ray(dir, s, t) {
                        assert forall|u: int| #[trigger] between(dir, s, t, u) implies !in_bb(
                            blocker_mask,
                            u,
                        ) by {
                            assert(in_bb(blockers, u) == (in_bb(ray, u) && in_bb(blocker_mask, u)));
                        }
                    }
                }
            }
            ray
        }
    }

    /// The squares that a bishop on `square` attacks when the squares in
    /// `blocker_mask` are occupied, found by walking the four diagonals.
    pub fn get_bishop_rays(&self, square: usize, blocker_mask: u64) -> (res: u64)
        requires
            self.wf(),
            square < 64,
        ensures
            res == bishop_attacks(square as int, blocker_mask),
    {
        let a = self.ray_attacks(RayDirection::NorthEast, square, blocker_mask);
        let b = self.ray_attacks(RayDirection::SouthEast, square, blocker_mask);
        let c = self.ray_attacks(RayDirection::SouthWest, square, blocker_mask);
        let d = self.ray_attacks(RayDirection::NorthWest, square, blocker_mask);
        let res = join_rays(a, b, c, d);
        proof {
            lemma_is_mask_of(res, |t: int| bishop_sees(square as int, blocker_mask, t));
        }
        res
    }

    /// The squares that a rook on `square` attacks when the squares in
    /// `blocker_mask` are occupied, found by walking the four lines.
    pub fn get_rook_rays(&self, square: usize, blocker_mask: u64) -> (res: u64)
        requires
            self.wf(),
            square < 64,
        ensures
            res == rook_attacks(square as int, blocker_mask),
    {
        let a = self.ray_attacks(RayDirection::North, square, blocker_mask);
        let b = self.ray_attacks(RayDirection::East, square, blocker_mask);
        let c = self.ray_attacks(RayDirection::South, square, blocker_mask);
        let d = self.ray_attacks(RayDirection::West, square, blocker_mask);
        let res = join_rays(a, b, c, d);
        proof {
            lemma_is_mask_of(res, |t: int| rook_sees(square as int, blocker_mask, t));
        }
        res
    }

    /// Builds every table.
    pub fn init_legal_moves() -> (res: Self)
        ensures
            res.wf(),
    {
        let mut pawn_w = [0u64; 64];
        let mut pawn_b = [0u64; 64];
        let mut capture_w = [0u64; 64];
        let mut capture_b = [0u64; 64];
        let mut knight = [0u64; 64];
        let mut king = [0u64; 64];
        let mut rook_masks = [0u64; 64];
        let mut bishop_masks = [0u64; 64];
        let mut queen_masks = [0u64; 64];
        let mut north = [0u64; 64];
        let mut east = [0u64; 64];
        let mut south = [0u64; 64];
        let mut west = [0u64; 64];
        let mut north_east = [0u64; 64];
        let mut south_east = [0u64; 64];
        let mut south_west = [0u64; 64];
        let mut north_west = [0u64; 64];
        let mut comp_bishop = [0u64; 64];
        let mut comp_rook = [0u64; 64];
        let mut comp_queen = [0u64; 64];

        let mut square: usize = 0;
        while square < 64
            invariant
                square <= 64,
                forall|s: int| 0 <= s < square ==> #[trigger] pawn_w[s] == pawn_push_mask(Side::White, s),
                forall|s: int| 0 <= s < square ==> #[trigger] pawn_b[s] == pawn_push_mask(Side::Black, s),
                forall|s: int| 0 <= s < square ==> #[trigger] capture_w[s] == pawn_capture_mask(Side::White, s),
                forall|s: int| 0 <= s < square ==> #[trigger] capture_b[s] == pawn_capture_mask(Side::Black, s),
                forall|s: int| 0 <= s < square ==> #[trigger] knight[s] == knight_mask(s),
                forall|s: int| 0 <= s < square ==> #[trigger] king[s] == king_mask(s),
                forall|s: int| 0 <= s < square ==> #[trigger] rook_masks[s] == rook_blocker_mask(s),
                forall|s: int| 0 <= s < square ==> #[trigger] bishop_masks[s] == bishop_blocker_mask(s),
                forall|s: int| 0 <= s < square ==> #[trigger] queen_masks[s] == queen_blocker_mask(s),
                forall|s: int| 0 <= s < square ==> #[trigger] north[s] == ray_mask(RayDirection::North, s),
                forall|s: int| 0 <= s < square ==> #[trigger] east[s] == ray_mask(RayDirection::East, s),
                forall|s: int| 0 <= s < square ==> #[trigger] south[s] == ray_mask(RayDirection::South, s),
                forall|s: int| 0 <= s < square ==> #[trigger] west[s] == ray_mask(RayDirection::West, s),
                forall|s: int| 0 <= s < square ==> #[trigger] north_east[s] == ray_mask(RayDirection::NorthEast, s),
                forall|s: int| 0 <= s < square ==> #[trigger] south_east[s] == ray_mask(RayDirection::SouthEast, s),
                forall|s: int| 0 <= s < square ==> #[trigger] south_west[s] == ray_mask(RayDirection::SouthWest, s),
                forall|s: int| 0 <= s < square ==> #[trigger] north_west[s] == ray_mask(RayDirection::NorthWest, s),
                forall|s: int| 0 <= s < square ==> #[trigger] comp_bishop[s] == bishop_ray_mask(s),
                forall|s: int| 0 <= s < square ==> #[trigger] comp_rook[s] == rook_ray_mask(s),
                forall|s: int| 0 <= s < square ==> #[trigger] comp_queen[s] == queen_ray_mask(s),
            decreases 64 - square,
        {
            let (push_w, cap_w) = init_pawn_moves(Side::White, square);
            let (push_b, cap_b) = init_pawn_moves(Side::Black, square);
            pawn_w[square] = push_w;
            pawn_b[square] = push_b;
            capture_w[square] = cap_w;
            capture_b[square] = cap_b;
            knight[square] = init_knight_moves(square);
            king[square] = init_king_moves(square);

            let n = ray_squares(RayDirection::North, square);
            let e = ray_squares(RayDirection::East, square);
            let s = ray_squares(RayDirection::South, square);
            let w = ray_squares(RayDirection::West, square);
            let ne = ray_squares(RayDirection::NorthEast, square);
            let se = ray_squares(RayDirection::SouthEast, square);
            let sw = ray_squares(RayDirection::SouthWest, square);
            let nw = ray_squares(RayDirection::NorthWest, square);
            let bishop_comp = join_rays(ne, se, sw, nw);
            let rook_comp = join_rays(n, e, s, w);
            let queen_comp = bishop_comp | rook_comp;
            proof {
                let sq = square as int;
                lemma_ray_mask(RayDirection::North, sq);
                lemma_ray_mask(RayDirection::East, sq);
                lemma_ray_mask(RayDirection::South, sq);
                lemma_ray_mask(RayDirection::West, sq);
                lemma_ray_mask(RayDirection::NorthEast, sq);
                lemma_ray_mask(RayDirection::SouthEast, sq);
                lemma_ray_mask(RayDirection::SouthWest, sq);
                lemma_ray_mask(RayDirection::NorthWest, sq);
                lemma_is_mask_of(bishop_comp, |t: int| bishop_reach(sq, t));
                lemma_is_mask_of(rook_comp, |t: int| rook_reach(sq, t));
                lemma_mask_of(|t: int| bishop_reach(sq, t));
                lemma_mask_of(|t: int| rook_reach(sq, t));
                lemma_bb_or(bishop_comp, rook_comp);
                lemma_is_mask_of(queen_comp, |t: int| bishop_reach(sq, t) || rook_reach(sq, t));
            }
            let bishop_mask = init_bishop_moves(square, bishop_comp);
            let rook_mask = init_rook_moves(square, rook_comp);
            let queen_mask = init_queen_moves(square, bishop_mask, rook_mask);

            north[square] = n;
            east[square] = e;
            south[square] = s;
            west[square] = w;
            north_east[square] = ne;
            south_east[square] = se;
            south_west[square] = sw;
            north_west[square] = nw;
            comp_bishop[square] = bishop_comp;
            comp_rook[square] = rook_comp;
            comp_queen[square] = queen_comp;
            bishop_masks[square] = bishop_mask;
            rook_masks[square] = rook_mask;
            queen_masks[square] = queen_mask;

            square += 1;
        }

        let res = MoveBitboards {
            pawn_moves: [pawn_w, pawn_b],
            pawn_capture_moves: [capture_w, capture_b],
            knight_moves: knight,
            king_moves: king,
            rook_masks,
            bishop_masks,
            queen_masks,
            rays: [north, east, south, west, north_east, south_east, south_west, north_west],
            comp_rays: [comp_bishop, comp_rook, comp_queen],
        };
        proof {
            assert forall|s: int| 0 <= s < 64 implies #[trigger] res.wf_at(s) by {
                assert(res.rays[0] == north);
            }
        }
        res
    }
}


/// The bishop's attack set holds the squares that it sees.
pub proof fn lemma_bishop_attacks(s: int, occ: u64)
    ensures
        forall|t: int| #[trigger] in_bb(bishop_attacks(s, occ), t) == bishop_sees(s, occ, t),
{
    lemma_mask_of(|t: int| bishop_sees(s, occ, t));
}

/// The rook's attack set holds the squares that it sees.
pub proof fn lemma_rook_attacks(s: int, occ: u64)
    ensures
        forall|t: int| #[trigger] in_bb(rook_attacks(s, occ), t) == rook_sees(s, occ, t),
{
    lemma_mask_of(|t: int| rook_sees(s, occ, t));
}

/// The queen's attack set holds the squares that it sees as a bishop or
/// as a rook.
pub proof fn lemma_queen_attacks(s: int, occ: u64)
    ensures
        forall|t: int|
            #[trigger] in_bb(queen_attacks(s, occ), t) == (bishop_sees(s, occ, t) || rook_sees(
                s,
                occ,
                t,
            )),
{
    lemma_bishop_attacks(s, occ);
    lemma_rook_attacks(s, occ);
    lemma_bb_or(bishop_attacks(s, occ), rook_attacks(s, occ));
}

/// Seeing along a ray is symmetric: `s` sees `t` along `dir` exactly when
/// `t` sees `s` along the reverse direction, whatever stands on `s` and `t`.
pub proof fn lemma_sees_along_symmetric(dir: RayDirection, s: int, t: int, occ: u64)
    ensures
        sees_along(dir, s, occ, t) == sees_along(dir.reverse(), t, occ, s),
{
    lemma_ray_reverse(dir, s, t);
    if on_ray(dir, s, t) {
        assert forall|u: int| #[trigger]
            between(dir, s, t, u) == between(dir.reverse(), t, s, u) by {
            lemma_ray_reverse(dir, s, u);
            lemma_ray_reverse(dir, u, t);
        }
        if sees_along(dir, s, occ, t) {
            assert forall|u: int| #[trigger] between(dir.reverse(), t, s, u) implies !in_bb(
                occ,
                u,
            ) by {
                assert(between(dir, s, t, u));
            }
        }
        if sees_along(dir.reverse(), t, occ, s) {
            assert forall|u: int| #[trigger] between(dir, s, t, u) implies !in_bb(occ, u) by {
                assert(between(dir.reverse(), t, s, u));
            }
        }
    }
}

/// Attack symmetry of the bishop: with the same occupied squares, a bishop
/// on `s` attacks `t` exactly when a bishop on `t` attacks `s`. Only the
/// squares strictly between the two count, so what stands on `s` and on `t`
/// makes no difference.
pub proof fn lemma_bishop_attack_symmetric(s: int, t: int, occ: u64)
    requires
        on_board(s),
        on_board(t),
    ensures
        in_bb(bishop_attacks(s, occ), t) == in_bb(bishop_attacks(t, occ), s),
{
    lemma_bishop_attacks(s, occ);
    lemma_bishop_attacks(t, occ);
    lemma_sees_along_symmetric(RayDirection::NorthEast, s, t, occ);
    lemma_sees_along_symmetric(RayDirection::SouthEast, s, t, occ);
    lemma_sees_along_symmetric(RayDirection::SouthWest, s, t, occ);
    lemma_sees_along_symmetric(RayDirection::NorthWest, s, t, occ);
}

/// Attack symmetry of the rook.
pub proof fn lemma_rook_attack_symmetric(s: int, t: int, occ: u64)
    requires
        on_board(s),
        on_board(t),
    ensures
        in_bb(rook_attacks(s, occ), t) == in_bb(rook_attacks(t, occ), s),
{
    lemma_rook_attacks(s, occ);
    lemma_rook_attacks(t, occ);
    lemma_sees_along_symmetric(RayDirection::North, s, t, occ);
    lemma_sees_along_symmetric(RayDirection::East, s, t, occ);
    lemma_sees_along_symmetric(RayDirection::South, s, t, occ);
    lemma_sees_along_symmetric(RayDirection::West, s, t, occ);
}

/// What a slider sees along a ray depends only on the occupied squares of
/// that ray that are not its last: two occupancies that agree on the
/// squares strictly inside every line give the same view.
pub proof fn lemma_sees_along_same(dir: RayDirection, s: int, occ1: u64, occ2: u64, t: int)
    requires
        forall|u: int|
            on_ray(dir, s, u) && (exists|v: int| on_ray(dir, u, v)) ==> in_bb(occ1, u) == in_bb(
                occ2,
                u,
            ),
    ensures
        sees_along(dir, s, occ1, t) == sees_along(dir, s, occ2, t),
{
    if on_ray(dir, s, t) {
        assert forall|u: int| #[trigger] between(dir, s, t, u) implies in_bb(occ1, u) == in_bb(
            occ2,
            u,
        ) by {
            assert(on_ray(dir, u, t));
        }
    }
}

/// Only the blockers inside the bishop's blocker mask matter.
pub proof fn lemma_bishop_attacks_masked(s: int, occ: u64)
    requires
        on_board(s),
    ensures
        bishop_attacks(s, occ & bishop_blocker_mask(s)) == bishop_attacks(s, occ),
{
    let m = bishop_blocker_mask(s);
    lemma_mask_of(|t: int| bishop_reach(s, t) && inner_square(t));
    lemma_bb_and(occ, m);
    lemma_bishop_attacks(s, occ);
    lemma_bishop_attacks(s, occ & m);
    assert forall|t: int| 0 <= t < 64 implies in_bb(bishop_attacks(s, occ & m), t) == in_bb(
        bishop_attacks(s, occ),
        t,
    ) by {
        lemma_sees_along_same(RayDirection::NorthEast, s, occ & m, occ, t);
        lemma_sees_along_same(RayDirection::SouthEast, s, occ & m, occ, t);
        lemma_sees_along_same(RayDirection::SouthWest, s, occ & m, occ, t);
        lemma_sees_along_same(RayDirection::NorthWest, s, occ & m, occ, t);
    }
    lemma_extensional(bishop_attacks(s, occ & m), bishop_attacks(s, occ));
}

/// Only the blockers inside the rook's blocker mask matter.
pub proof fn lemma_rook_attacks_masked(s: int, occ: u64)
    requires
        on_board(s),
    ensures
        rook_attacks(s, occ & rook_blocker_mask(s)) == rook_attacks(s, occ),
{
    let m = rook_blocker_mask(s);
    lemma_mask_of(|t: int| rook_reach(s, t) && rook_inner(s, t));
    lemma_bb_and(occ, m);
    lemma_rook_attacks(s, occ);
    lemma_rook_attacks(s, occ & m);
    assert forall|t: int| 0 <= t < 64 implies in_bb(rook_attacks(s, occ & m), t) == in_bb(
        rook_attacks(s, occ),
        t,
    ) by {
        lemma_sees_along_same(RayDirection::North, s, occ & m, occ, t);
        lemma_sees_along_same(RayDirection::East, s, occ & m, occ, t);
        lemma_sees_along_same(RayDirection::South, s, occ & m, occ, t);
        lemma_sees_along_same(RayDirection::West, s, occ & m, occ, t);
    }
    lemma_extensional(rook_attacks(s, occ & m), rook_attacks(s, occ));
}

} // verus!
