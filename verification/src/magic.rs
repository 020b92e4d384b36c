//! The magic-bitboard oracle: sliding attacks by one multiplication, one
//! shift and one table read.
//!
//! For each square the blockers inside the blocker mask are hashed into a
//! table by `(blockers * magic) >> (64 - bits)`. A table is only ever built
//! from a multiplier that sends no two sets of blockers to the same slot, so
//! that every read returns what walking the rays would return.

use vstd::prelude::*;
use crate::board::Piece;
use crate::move_bitboards::{
    MoveBitboards, bishop_attacks, bishop_blocker_mask, file, file_of, lemma_bishop_attacks_masked,
    lemma_rook_attacks_masked, rank, rank_of, rook_attacks, rook_blocker_mask,
};
use crate::random::random_u64;

verus! {

/// Multipliers found once and kept, so that start-up need not search.
pub const PRECOMP_ROOK_MAGICS: [u64; 64] = [
    36037800344256544,
    18014699425783808,
    612507141653135490,
    180149585766776960,
    9367522452253967440,
    1224983496725373696,
    4683814535262110208,
    144126200376230433,
    2379167241225650193,
    141012542431234,
    576601558536429568,
    5584604309795934208,
    9278822955159418880,
    563018773611544,
    422508817940608,
    3518438291013888,
    3518986966810624,
    8092968805298341970,
    141287512875016,
    108227678435282944,
    2307112395455072257,
    4756083781126980608,
    324351532416402961,
    1441154079790273092,
    36169674093903872,
    234398289005380224,
    35186520621184,
    180231948173050242,
    2319406606129299712,
    2759018022366611468,
    285885924901376,
    5718018812302337,
    143211397906528,
    2534531085123584,
    425030022340608,
    1556910620823552,
    72202731728668672,
    147070718289380353,
    11817463048833073442,
    869335480108323072,
    648845452124520448,
    9385607195078443012,
    1971012052779028,
    10971912467835912224,
    146648739894788640,
    1153484506234224656,
    6352332849544429576,
    144115473842569220,
    2342435873439629824,
    2377971041252245632,
    292734388104336512,
    1153211777825112192,
    292879184332062976,
    9288682888497408,
    649098922857499648,
    9223381951992562176,
    9268478951647367425,
    126241601142923521,
    2328431583863832713,
    87965239871493,
    4630544876231200811,
    18296199905281537,
    13873057185728823427,
    4543598766867458,
];

pub const PRECOMP_BISHOP_MAGICS: [u64; 64] = [
    325407081031270657,
    153135587946152352,
    1235121311739805696,
    9875273726504208384,
    3127829380923981954,
    9578954033758208,
    432917397851340816,
    577025912086463012,
    10394312372512104608,
    8967900660225,
    1134722105352192,
    4613829965284352,
    9108553007122,
    153123642000016384,
    18024947088098304,
    4510197839299778,
    9010772709740806,
    3118560251544576,
    7066147987151400980,
    1306189061865619456,
    9391412647615794200,
    1162491692473975808,
    81223124108189698,
    4683884633430163841,
    9027283058955008,
    1139094215723008,
    16142046755679635472,
    290271338700832,
    13837037193442377744,
    56297196651299329,
    151183352660992,
    9251521218163642624,
    4516813648957504,
    4611829126906515584,
    6341420299485971460,
    10088345192190443616,
    4649968831463493888,
    466198301114624,
    36596146243700744,
    5428301810237504,
    2326391920001028096,
    6918098171613683713,
    9223653614978368000,
    4684871574359140608,
    142979629319170,
    698093160976355393,
    20363264588251280,
    2306970577765664260,
    1129766788796545,
    285875775012864,
    1297126861244203392,
    162129587692773461,
    703962592387072,
    9512732779751161888,
    2542075245760720,
    2254001020207109,
    563500800823312,
    2305849614890436096,
    288934339579219008,
    206162760192,
    2342022547243024640,
    289365243984347648,
    72274233530597888,
    1443651139441673472,
];

/// How many random multipliers are tried for one square before the search
/// gives up.
pub const MAX_MAGIC_ATTEMPTS: u64 = 0x1_0000_0000;

/// Every square of `b` is a square of `mask`.
pub open spec fn subset_of(b: u64, mask: u64) -> bool {
    b & mask == b
}

/// Number of index bits of a rook's table: the number of squares in its
/// blocker mask.
pub open spec fn rook_bits(s: int) -> int {
    10 + (if file_of(s) == 0 || file_of(s) == 7 {
        1int
    } else {
        0int
    }) + (if rank_of(s) == 0 || rank_of(s) == 7 {
        1int
    } else {
        0int
    })
}

/// Number of index bits of a bishop's table.
pub open spec fn bishop_bits(s: int) -> int {
    let f = file_of(s);
    let r = rank_of(s);
    if (f == 0 || f == 7) && (r == 0 || r == 7) {
        6
    } else if f <= 1 || f >= 6 || r <= 1 || r >= 6 {
        5
    } else if f == 2 || f == 5 || r == 2 || r == 5 {
        7
    } else {
        9
    }
}

/// Number of index bits of the table of a bishop (`bishop` true) or a rook.
pub open spec fn slider_bits(bishop: bool, s: int) -> int {
    if bishop {
        bishop_bits(s)
    } else {
        rook_bits(s)
    }
}

/// The blocker mask of a bishop (`bishop` true) or a rook.
pub open spec fn slider_mask(bishop: bool, s: int) -> u64 {
    if bishop {
        bishop_blocker_mask(s)
    } else {
        rook_blocker_mask(s)
    }
}

/// What a bishop (`bishop` true) or a rook on `s` attacks.
pub open spec fn slider_attacks(bishop: bool, s: int, occ: u64) -> u64 {
    if bishop {
        bishop_attacks(s, occ)
    } else {
        rook_attacks(s, occ)
    }
}

/// The table slot of a set of blockers.
pub open spec fn magic_index_spec(magic: u64, blockers: u64, bits: int) -> int {
    (vstd::wrapping::u64_specs::wrapping_mul(blockers, magic) >> ((64 - bits) as u64)) as int
}

/// No two sets of blockers inside `mask` share a slot.
pub open spec fn collision_free(magic: u64, mask: u64, bits: int) -> bool {
    forall|a: u64, b: u64|
        #![trigger magic_index_spec(magic, a, bits), magic_index_spec(magic, b, bits)]
        subset_of(a, mask) && subset_of(b, mask) && magic_index_spec(magic, a, bits)
            == magic_index_spec(magic, b, bits) ==> a == b
}

/// `table` answers every set of blockers inside the mask of square `s` with
/// the squares that the slider attacks.
pub open spec fn table_answers(bishop: bool, s: int, magic: u64, table: Seq<u64>) -> bool {
    &&& table.len() == (1u64 << (slider_bits(bishop, s) as u64))
    &&& forall|b: u64| #[trigger]
        subset_of(b, slider_mask(bishop, s)) ==> table[magic_index_spec(
            magic,
            b,
            slider_bits(bishop, s),
        )] == slider_attacks(bishop, s, b)
}

/// The successor of a subset of `mask` among the subsets of `mask`, taken as
/// numbers: nothing lies between the two.
proof fn lemma_next_subset(sub: u64, mask: u64, b: u64)
    by (bit_vector)
    requires
        sub & mask == sub,
        sub != mask,
    ensures
        (sub.wrapping_sub(mask) & mask) & mask == (sub.wrapping_sub(mask) & mask),
        (sub.wrapping_sub(mask) & mask) > sub,
        b & mask == b && b > sub ==> b >= (sub.wrapping_sub(mask) & mask),
{
}

/// A set of squares inside a mask is, as a number, at most the mask.
proof fn lemma_subset_bound(b: u64, mask: u64)
    by (bit_vector)
    requires
        b & mask == b,
    ensures
        b <= mask,
{
}

/// The empty set is inside every mask.
proof fn lemma_empty_subset(mask: u64)
    by (bit_vector)
    ensures
        0u64 & mask == 0u64,
{
}

/// Number of index bits of a rook's table on `square`.
fn rook_index_bits(square: usize) -> (r: usize)
    requires
        square < 64,
    ensures
        r == rook_bits(square as int),
        10 <= r <= 12,
{
    let f = file(square);
    let rk = rank(square);
    let mut bits: usize = 10;
    if f == 0 || f == 7 {
        bits += 1;
    }
    if rk == 0 || rk == 7 {
        bits += 1;
    }
    bits
}

/// Number of index bits of a bishop's table on `square`.
fn bishop_index_bits(square: usize) -> (r: usize)
    requires
        square < 64,
    ensures
        r == bishop_bits(square as int),
        5 <= r <= 9,
{
    let f = file(square);
    let rk = rank(square);
    if (f == 0 || f == 7) && (rk == 0 || rk == 7) {
        6
    } else if f <= 1 || f >= 6 || rk <= 1 || rk >= 6 {
        5
    } else if f == 2 || f == 5 || rk == 2 || rk == 5 {
        7
    } else {
        9
    }
}

/// A vector of `len` entries, each `value`.
fn filled<T: Copy>(value: T, len: usize) -> (v: Vec<T>)
    ensures
        v@.len() == len,
        forall|i: int| 0 <= i < len ==> v@[i] == value,
{
    let mut v: Vec<T> = Vec::new();
    let mut i: usize = 0;
    while i < len
        invariant
            i <= len,
            v@.len() == i,
            forall|j: int| 0 <= j < i ==> v@[j] == value,
        decreases len - i,
    {
        v.push(value);
        i += 1;
    }
    v
}

pub struct MagicBitboard {
    pub rook_magics: [u64; 64],
    pub bishop_magics: [u64; 64],
    /// Blocker masks, by square.
    pub rook_masks: [u64; 64],
    pub bishop_masks: [u64; 64],
    /// Attack tables, by square and slot.
    pub rook_table: Vec<Vec<u64>>,
    pub bishop_table: Vec<Vec<u64>>,
}

impl MagicBitboard {
    /// The entries for square `s` are its blocker masks and tables that
    /// answer every set of blockers inside them.
    pub open spec fn wf_at(&self, s: int) -> bool {
        &&& self.rook_masks[s] == rook_blocker_mask(s)
        &&& self.bishop_masks[s] == bishop_blocker_mask(s)
        &&& table_answers(false, s, self.rook_magics[s], self.rook_table@[s]@)
        &&& table_answers(true, s, self.bishop_magics[s], self.bishop_table@[s]@)
    }

    /// The masks are the blocker masks and every table answers every set of
    /// blockers inside its mask.
    pub open spec fn wf(&self) -> bool {
        &&& self.rook_table@.len() == 64
        &&& self.bishop_table@.len() == 64
        &&& forall|s: int| 0 <= s < 64 ==> #[trigger] self.wf_at(s)
    }

    /// The slot of `blockers` in a table of `2^bits` slots.
    pub fn magic_index(magic: u64, blockers: u64, bits: usize) -> (r: usize)
        requires
            1 <= bits <= 12,
        ensures
            r == magic_index_spec(magic, blockers, bits as int),
            r < (1u64 << (bits as u64)),
            r < 4096,
    {
        let product = blockers.wrapping_mul(magic);
        let shift: u64 = (64 - bits) as u64;
        let b: u64 = bits as u64;
        let idx: u64 = product >> shift;
        proof {
            assert(1 <= b <= 12 && shift == 64 - b ==> (product >> shift) < (1u64 << b) && (product
                >> shift) < 4096) by (bit_vector);
        }
        idx as usize
    }

    /// Number of slots of the table of a bishop or rook on `square`.
    fn table_size(piece: Piece, square: usize) -> (size: usize)
        requires
            square < 64,
        ensures
            size == (1u64 << (slider_bits(piece == Piece::Bishop, square as int) as u64)),
            size <= 4096,
    {
        let bits = if piece == Piece::Bishop {
            bishop_index_bits(square)
        } else {
            rook_index_bits(square)
        };
        let size: usize = 1usize << bits;
        assert(size == (1u64 << (bits as u64)) && size <= 4096) by (bit_vector)
            requires
                size == 1usize << bits,
                5 <= bits <= 12,
        ;
        size
    }

    /// Fills `table` with the attack table of one square for the multiplier
    /// `magic`, or finds that `magic` sends two sets of blockers to one
    /// slot. A slot counts as filled where its stamp is the number of this
    /// attempt, so that one pair of buffers serves many attempts.
    pub fn try_magic(
        pl_moves: &MoveBitboards,
        piece: Piece,
        square: usize,
        magic: u64,
        table: &mut Vec<u64>,
        stamps: &mut Vec<u64>,
        attempt: u64,
    ) -> (ok: bool)
        requires
            pl_moves.wf(),
            square < 64,
            piece == Piece::Bishop || piece == Piece::Rook,
            old(table)@.len() == (1u64 << (slider_bits(piece == Piece::Bishop, square as int)
                as u64)),
            old(stamps)@.len() == old(table)@.len(),
            forall|i: int| 0 <= i < old(stamps)@.len() ==> old(stamps)@[i] < attempt,
        ensures
            final(table)@.len() == old(table)@.len(),
            final(stamps)@.len() == old(stamps)@.len(),
            forall|i: int| 0 <= i < final(stamps)@.len() ==> final(stamps)@[i] <= attempt,
            ok == collision_free(
                magic,
                slider_mask(piece == Piece::Bishop, square as int),
                slider_bits(piece == Piece::Bishop, square as int),
            ),
            ok ==> table_answers(piece == Piece::Bishop, square as int, magic, final(table)@),
    {
        let bishop = piece == Piece::Bishop;
        let mask = pl_moves.get_piece_blocker_mask(piece, square);
        let bits = if bishop {
            bishop_index_bits(square)
        } else {
            rook_index_bits(square)
        };
        let ghost size = table@.len();
        let ghost mut owner: Seq<u64> = Seq::new(size, |i: int| 0u64);
        let ghost s = square as int;
        let ghost b = bits as int;
        let mut sub: u64 = 0;
        let mut done = false;
        proof {
            lemma_empty_subset(mask);
        }
        while !done
            invariant
                pl_moves.wf(),
                square < 64,
                s == square as int,
                b == bits as int,
                5 <= bits <= 12,
                bishop == (piece == Piece::Bishop),
                !bishop ==> piece == Piece::Rook,
                mask == slider_mask(bishop, s),
                b == slider_bits(bishop, s),
                size == (1u64 << (bits as u64)),
                table@.len() == size,
                stamps@.len() == size,
                size == old(table)@.len(),
                size == old(stamps)@.len(),
                owner.len() == size,
                subset_of(sub, mask),
                forall|i: int| 0 <= i < size ==> stamps@[i] <= attempt,
                forall|i: int|
                    0 <= i < size && #[trigger] stamps@[i] == attempt ==> {
                        &&& subset_of(owner[i], mask)
                        &&& magic_index_spec(magic, owner[i], b) == i
                        &&& table@[i] == slider_attacks(bishop, s, owner[i])
                        &&& (done || owner[i] < sub)
                    },
                forall|x: u64|
                    subset_of(x, mask) && (done || x < sub) ==> 0 <= #[trigger] magic_index_spec(
                        magic,
                        x,
                        b,
                    ) < size && stamps@[magic_index_spec(magic, x, b)] == attempt
                        && owner[magic_index_spec(magic, x, b)] == x,
            decreases
                    (if done {
                        0
                    } else {
                        mask - sub + 1
                    }),
        {
            let i = Self::magic_index(magic, sub, bits);
            if stamps[i] == attempt {
                proof {
                    let a = owner[i as int];
                    assert(subset_of(a, mask) && subset_of(sub, mask));
                    assert(magic_index_spec(magic, a, b) == magic_index_spec(magic, sub, b));
                    assert(a != sub);
                }
                return false;
            }
            let attacks = if bishop {
                pl_moves.get_bishop_rays(square, sub)
            } else {
                pl_moves.get_rook_rays(square, sub)
            };
            table.set(i, attacks);
            stamps.set(i, attempt);
            proof {
                owner = owner.update(i as int, sub);
            }
            if sub == mask {
                done = true;
                proof {
                    assert forall|x: u64| subset_of(x, mask) implies x <= mask by {
                        lemma_subset_bound(x, mask);
                    }
                }
            } else {
                proof {
                    assert forall|x: u64|
                        subset_of(x, mask) && x < (sub.wrapping_sub(mask) & mask) implies x
                            <= sub by {
                        lemma_next_subset(sub, mask, x);
                    }
                    lemma_next_subset(sub, mask, 0);
                    lemma_subset_bound(sub.wrapping_sub(mask) & mask, mask);
                }
                sub = sub.wrapping_sub(mask) & mask;
            }
        }
        proof {
            assert forall|x: u64, y: u64|
                #![trigger magic_index_spec(magic, x, b), magic_index_spec(magic, y, b)]
                subset_of(x, mask) && subset_of(y, mask) && magic_index_spec(magic, x, b)
                    == magic_index_spec(magic, y, b) implies x == y by {
                assert(owner[magic_index_spec(magic, x, b)] == x);
                assert(owner[magic_index_spec(magic, y, b)] == y);
            }
        }
        true
    }

    /// Builds the attack table of one square for the multiplier `magic`, or
    /// finds that `magic` sends two sets of blockers to one slot.
    pub fn square_table(pl_moves: &MoveBitboards, piece: Piece, square: usize, magic: u64) -> (res:
        Option<Vec<u64>>)
        requires
            pl_moves.wf(),
            square < 64,
            piece == Piece::Bishop || piece == Piece::Rook,
        ensures
            res.is_some() == collision_free(
                magic,
                slider_mask(piece == Piece::Bishop, square as int),
                slider_bits(piece == Piece::Bishop, square as int),
            ),
            res matches Some(t) ==> table_answers(
                piece == Piece::Bishop,
                square as int,
                magic,
                t@,
            ),
    {
        let size = Self::table_size(piece, square);
        let mut table: Vec<u64> = filled(0u64, size);
        let mut stamps: Vec<u64> = filled(0u64, size);
        if Self::try_magic(pl_moves, piece, square, magic, &mut table, &mut stamps, 1) {
            Some(table)
        } else {
            None
        }
    }

    /// Builds the attack tables of all squares for the given multipliers,
    /// or finds that one of them sends two sets of blockers to one slot.
    pub fn init_move_table(pl_moves: &MoveBitboards, piece: Piece, magics: &[u64; 64]) -> (res:
        Option<Vec<Vec<u64>>>)
        requires
            pl_moves.wf(),
            piece == Piece::Bishop || piece == Piece::Rook,
        ensures
            res.is_some() == (forall|s: int|
                0 <= s < 64 ==> collision_free(
                    #[trigger] magics[s],
                    slider_mask(piece == Piece::Bishop, s),
                    slider_bits(piece == Piece::Bishop, s),
                )),
            res matches Some(t) ==> t@.len() == 64 && forall|s: int|
                0 <= s < 64 ==> table_answers(
                    piece == Piece::Bishop,
                    s,
                    magics[s],
                    (#[trigger] t@[s])@,
                ),
    {
        let mut tables: Vec<Vec<u64>> = Vec::new();
        let mut square: usize = 0;
        while square < 64
            invariant
                pl_moves.wf(),
                piece == Piece::Bishop || piece == Piece::Rook,
                square <= 64,
                tables@.len() == square,
                forall|s: int|
                    0 <= s < square ==> collision_free(
                        #[trigger] magics[s],
                        slider_mask(piece == Piece::Bishop, s),
                        slider_bits(piece == Piece::Bishop, s),
                    ),
                forall|s: int|
                    0 <= s < square ==> table_answers(
                        piece == Piece::Bishop,
                        s,
                        magics[s],
                        (#[trigger] tables@[s])@,
                    ),
            decreases 64 - square,
        {
            match Self::square_table(pl_moves, piece, square, magics[square]) {
                Some(table) => {
                    tables.push(table);
                },
                None => {
                    assert(!collision_free(
                        magics[square as int],
                        slider_mask(piece == Piece::Bishop, square as int),
                        slider_bits(piece == Piece::Bishop, square as int),
                    ));
                    return None;
                },
            }
            square += 1;
        }
        Some(tables)
    }

    /// Searches multipliers for all squares: sparse random candidates are
    /// tried until one sends no two sets of blockers to one slot, and the
    /// table that was filled for it is kept. Gives up where
    /// [`MAX_MAGIC_ATTEMPTS`] candidates have failed for one square.
    pub fn compute_magics(pl_moves: &MoveBitboards, piece: Piece) -> (res: Option<
        ([u64; 64], Vec<Vec<u64>>),
    >)
        requires
            pl_moves.wf(),
            piece == Piece::Bishop || piece == Piece::Rook,
        ensures
            res matches Some((magics, t)) ==> t@.len() == 64 && forall|s: int|
                0 <= s < 64 ==> table_answers(
                    piece == Piece::Bishop,
                    s,
                    magics[s],
                    (#[trigger] t@[s])@,
                ),
            res matches Some((magics, t)) ==> forall|s: int|
                0 <= s < 64 ==> collision_free(
                    #[trigger] magics[s],
                    slider_mask(piece == Piece::Bishop, s),
                    slider_bits(piece == Piece::Bishop, s),
                ),
    {
        let mut magics = [0u64; 64];
        let mut tables: Vec<Vec<u64>> = Vec::new();
        let mut square: usize = 0;
        while square < 64
            invariant
                pl_moves.wf(),
                piece == Piece::Bishop || piece == Piece::Rook,
                square <= 64,
                tables@.len() == square,
                forall|s: int|
                    0 <= s < square ==> table_answers(
                        piece == Piece::Bishop,
                        s,
                        magics[s],
                        (#[trigger] tables@[s])@,
                    ),
                forall|s: int|
                    0 <= s < square ==> collision_free(
                        #[trigger] magics[s],
                        slider_mask(piece == Piece::Bishop, s),
                        slider_bits(piece == Piece::Bishop, s),
                    ),
            decreases 64 - square,
        {
            let size = Self::table_size(piece, square);
            let mut table: Vec<u64> = filled(0u64, size);
            let mut stamps: Vec<u64> = filled(0u64, size);
            let mut attempts: u64 = 0;
            let mut found = false;
            let mut magic: u64 = 0;
            while !found && attempts < MAX_MAGIC_ATTEMPTS
                invariant
                    pl_moves.wf(),
                    piece == Piece::Bishop || piece == Piece::Rook,
                    square < 64,
                    attempts <= MAX_MAGIC_ATTEMPTS,
                    table@.len() == size,
                    stamps@.len() == size,
                    size == (1u64 << (slider_bits(piece == Piece::Bishop, square as int) as u64)),
                    forall|i: int| 0 <= i < stamps@.len() ==> stamps@[i] <= attempts,
                    found ==> table_answers(piece == Piece::Bishop, square as int, magic, table@),
                    found ==> collision_free(
                        magic,
                        slider_mask(piece == Piece::Bishop, square as int),
                        slider_bits(piece == Piece::Bishop, square as int),
                    ),
                decreases MAX_MAGIC_ATTEMPTS - attempts,
            {
                magic = random_u64() & random_u64() & random_u64();
                attempts += 1;
                found = Self::try_magic(
                    pl_moves,
                    piece,
                    square,
                    magic,
                    &mut table,
                    &mut stamps,
                    attempts,
                );
            }
            if found {
                magics[square] = magic;
                tables.push(table);
            } else {
                return None;
            }
            square += 1;
        }
        Some((magics, tables))
    }

    /// Builds the oracle from the given multipliers. Fails exactly where one
    /// of them sends two sets of blockers of its square to one slot.
    pub fn from_magics(
        pl_moves: &MoveBitboards,
        rook_magics: [u64; 64],
        bishop_magics: [u64; 64],
    ) -> (res: Option<Self>)
        requires
            pl_moves.wf(),
        ensures
            res.is_some() == ((forall|s: int|
                0 <= s < 64 ==> collision_free(
                    #[trigger] rook_magics[s],
                    rook_blocker_mask(s),
                    rook_bits(s),
                )) && (forall|s: int|
                0 <= s < 64 ==> collision_free(
                    #[trigger] bishop_magics[s],
                    bishop_blocker_mask(s),
                    bishop_bits(s),
                ))),
            res matches Some(m) ==> m.wf() && m.rook_magics == rook_magics && m.bishop_magics
                == bishop_magics,
    {
        let bishop_table = match Self::init_move_table(pl_moves, Piece::Bishop, &bishop_magics) {
            Some(t) => t,
            None => {
                return None;
            },
        };
        let rook_table = match Self::init_move_table(pl_moves, Piece::Rook, &rook_magics) {
            Some(t) => t,
            None => {
                return None;
            },
        };
        let res = Self {
            rook_magics,
            bishop_magics,
            rook_masks: pl_moves.rook_masks,
            bishop_masks: pl_moves.bishop_masks,
            rook_table,
            bishop_table,
        };
        proof {
            assert forall|s: int| 0 <= s < 64 implies #[trigger] res.wf_at(s) by {
                assert(pl_moves.wf_at(s));
                assert(table_answers(false, s, rook_magics[s], rook_table@[s]@));
                assert(table_answers(true, s, bishop_magics[s], bishop_table@[s]@));
            }
        }
        Some(res)
    }

    /// Builds the oracle by searching multipliers at random: every
    /// multiplier of the result sends no two sets of blockers of its square
    /// to one slot, and every table answers with the squares attacked.
    /// `None` where the search gave up on a square.
    pub fn init(pl_moves: &MoveBitboards) -> (res: Option<Self>)
        requires
            pl_moves.wf(),
        ensures
            res matches Some(m) ==> m.wf(),
            res matches Some(m) ==> forall|s: int|
                0 <= s < 64 ==> collision_free(
                    #[trigger] m.rook_magics[s],
                    rook_blocker_mask(s),
                    rook_bits(s),
                ),
            res matches Some(m) ==> forall|s: int|
                0 <= s < 64 ==> collision_free(
                    #[trigger] m.bishop_magics[s],
                    bishop_blocker_mask(s),
                    bishop_bits(s),
                ),
    {
        let (bishop_magics, bishop_table) = match Self::compute_magics(pl_moves, Piece::Bishop) {
            Some(found) => found,
            None => {
                return None;
            },
        };
        let (rook_magics, rook_table) = match Self::compute_magics(pl_moves, Piece::Rook) {
            Some(found) => found,
            None => {
                return None;
            },
        };
        let res = Self {
            rook_magics,
            bishop_magics,
            rook_masks: pl_moves.rook_masks,
            bishop_masks: pl_moves.bishop_masks,
            rook_table,
            bishop_table,
        };
        proof {
            assert forall|s: int| 0 <= s < 64 implies #[trigger] res.wf_at(s) by {
                assert(pl_moves.wf_at(s));
                assert(table_answers(false, s, rook_magics[s], rook_table@[s]@));
                assert(table_answers(true, s, bishop_magics[s], bishop_table@[s]@));
            }
        }
        Some(res)
    }

    /// Builds the oracle from the multipliers that are kept in this file.
    /// `None` exactly where one of them is not collision-free.
    pub fn init_precomputed(pl_moves: &MoveBitboards) -> (res: Option<Self>)
        requires
            pl_moves.wf(),
        ensures
            res.is_some() == ((forall|s: int|
                0 <= s < 64 ==> collision_free(
                    #[trigger] PRECOMP_ROOK_MAGICS[s],
                    rook_blocker_mask(s),
                    rook_bits(s),
                )) && (forall|s: int|
                0 <= s < 64 ==> collision_free(
                    #[trigger] PRECOMP_BISHOP_MAGICS[s],
                    bishop_blocker_mask(s),
                    bishop_bits(s),
                ))),
            res matches Some(m) ==> m.wf(),
    {
        Self::from_magics(pl_moves, PRECOMP_ROOK_MAGICS, PRECOMP_BISHOP_MAGICS)
    }

    /// The squares that a rook on `square` attacks when the squares in
    /// `blockers` are occupied.
    pub fn get_rook_moves(&self, square: usize, blockers: u64) -> (res: u64)
        requires
            self.wf(),
            square < 64,
        ensures
            res == rook_attacks(square as int, blockers),
    {
        let mask = self.rook_masks[square];
        let relevant = blockers & mask;
        proof {
            lemma_masked_subset(blockers, mask);
            lemma_rook_attacks_masked(square as int, blockers);
            assert(self.wf_at(square as int));
            assert(subset_of(relevant, slider_mask(false, square as int)));
        }
        let index = Self::magic_index(self.rook_magics[square], relevant, rook_index_bits(square));
        self.rook_table[square][index]
    }

    /// The squares that a bishop on `square` attacks when the squares in
    /// `blockers` are occupied.
    pub fn get_bishop_moves(&self, square: usize, blockers: u64) -> (res: u64)
        requires
            self.wf(),
            square < 64,
        ensures
            res == bishop_attacks(square as int, blockers),
    {
        let mask = self.bishop_masks[square];
        let relevant = blockers & mask;
        proof {
            lemma_masked_subset(blockers, mask);
            lemma_bishop_attacks_masked(square as int, blockers);
            assert(self.wf_at(square as int));
            assert(subset_of(relevant, slider_mask(true, square as int)));
        }
        let index = Self::magic_index(
            self.bishop_magics[square],
            relevant,
            bishop_index_bits(square),
        );
        self.bishop_table[square][index]
    }
}

/// What is left of a set of squares inside a mask is inside the mask.
proof fn lemma_masked_subset(b: u64, mask: u64)
    by (bit_vector)
    ensures
        (b & mask) & mask == b & mask,
{
}


/// Magic correctness: for every square and every set of occupied squares,
/// the slot that the multiplier of the square gives for the blockers inside
/// the mask holds the squares that walking the rays finds, for the bishop
/// and for the rook.
pub proof fn lemma_magic_lookup(magics: MagicBitboard, s: int, occ: u64)
    requires
        magics.wf(),
        0 <= s < 64,
    ensures
        magics.bishop_table@[s]@[magic_index_spec(
            magics.bishop_magics[s],
            occ & bishop_blocker_mask(s),
            bishop_bits(s),
        )] == bishop_attacks(s, occ),
        magics.rook_table@[s]@[magic_index_spec(
            magics.rook_magics[s],
            occ & rook_blocker_mask(s),
            rook_bits(s),
        )] == rook_attacks(s, occ),
{
    assert(magics.wf_at(s));
    lemma_masked_subset(occ, bishop_blocker_mask(s));
    lemma_masked_subset(occ, rook_blocker_mask(s));
    assert(subset_of(occ & bishop_blocker_mask(s), slider_mask(true, s)));
    assert(subset_of(occ & rook_blocker_mask(s), slider_mask(false, s)));
    lemma_bishop_attacks_masked(s, occ);
    lemma_rook_attacks_masked(s, occ);
}


/// Length of the multipliers as bytes: 128 numbers of eight bytes.
pub const MAGIC_BYTES: usize = 1024;

/// The `i`-th number in a sequence of bytes that holds 64-bit numbers with
/// the low byte first.
pub open spec fn word_at(bytes: Seq<u8>, i: int) -> u64 {
    vstd::bytes::spec_u64_from_le_bytes(bytes.subrange(8 * i, 8 * i + 8))
}

/// The bytes hold the multipliers: those of the rook for the squares in
/// their order, then those of the bishop, each as eight bytes with the low
/// byte first.
pub open spec fn bytes_hold(bytes: Seq<u8>, rook_magics: [u64; 64], bishop_magics: [u64; 64]) -> bool {
    &&& bytes.len() == MAGIC_BYTES
    &&& forall|i: int|
        0 <= i < 64 ==> #[trigger] bytes.subrange(8 * i, 8 * i + 8)
            == vstd::bytes::spec_u64_to_le_bytes(rook_magics[i])
    &&& forall|i: int|
        0 <= i < 64 ==> #[trigger] bytes.subrange(8 * (64 + i), 8 * (64 + i) + 8)
            == vstd::bytes::spec_u64_to_le_bytes(bishop_magics[i])
}

/// Reads the multipliers from bytes: 64 numbers for the rook, then 64 for
/// the bishop, each of eight bytes with the low byte first. `None` where
/// the bytes are not 1024.
pub fn magics_from_bytes(bytes: &[u8]) -> (res: Option<([u64; 64], [u64; 64])>)
    ensures
        res.is_some() == (bytes@.len() == MAGIC_BYTES),
        res matches Some((rook_magics, bishop_magics)) ==> forall|i: int|
            0 <= i < 64 ==> #[trigger] rook_magics[i] == word_at(bytes@, i) && bishop_magics[i]
                == word_at(bytes@, 64 + i),
{
    if bytes.len() != MAGIC_BYTES {
        return None;
    }
    let mut rook_magics = [0u64; 64];
    let mut bishop_magics = [0u64; 64];
    let mut i: usize = 0;
    while i < 64
        invariant
            i <= 64,
            bytes@.len() == MAGIC_BYTES,
            forall|j: int| 0 <= j < i ==> #[trigger] rook_magics[j] == word_at(bytes@, j),
            forall|j: int| 0 <= j < i ==> #[trigger] bishop_magics[j] == word_at(bytes@, 64 + j),
        decreases 64 - i,
    {
        rook_magics[i] = vstd::bytes::u64_from_le_bytes(
            vstd::slice::slice_subrange(bytes, 8 * i, 8 * i + 8),
        );
        bishop_magics[i] = vstd::bytes::u64_from_le_bytes(
            vstd::slice::slice_subrange(bytes, 8 * (64 + i), 8 * (64 + i) + 8),
        );
        i += 1;
    }
    Some((rook_magics, bishop_magics))
}

/// Writes the multipliers as bytes: those of the rook, then those of the
/// bishop, each as eight bytes with the low byte first.
pub fn magics_to_bytes(rook_magics: &[u64; 64], bishop_magics: &[u64; 64]) -> (bytes: Vec<u8>)
    ensures
        bytes_hold(bytes@, *rook_magics, *bishop_magics),
{
    let mut bytes: Vec<u8> = Vec::new();
    let mut i: usize = 0;
    while i < 128
        invariant
            i <= 128,
            bytes@.len() == 8 * i,
            forall|j: int|
                0 <= j < i && j < 64 ==> #[trigger] bytes@.subrange(8 * j, 8 * j + 8)
                    == vstd::bytes::spec_u64_to_le_bytes(rook_magics[j]),
            forall|j: int|
                0 <= j < 64 && 64 + j < i ==> #[trigger] bytes@.subrange(
                    8 * (64 + j),
                    8 * (64 + j) + 8,
                ) == vstd::bytes::spec_u64_to_le_bytes(bishop_magics[j]),
        decreases 128 - i,
    {
        let word = if i < 64 {
            rook_magics[i]
        } else {
            bishop_magics[i - 64]
        };
        let mut chunk = vstd::bytes::u64_to_le_bytes(word);
        let ghost before = bytes@;
        let ghost added = chunk@;
        bytes.append(&mut chunk);
        proof {
            assert(bytes@ == before + added);
            assert(bytes@.subrange(8 * i, 8 * i + 8) =~= added);
            assert forall|j: int| 0 <= j < i && j < 64 implies #[trigger] bytes@.subrange(
                8 * j,
                8 * j + 8,
            ) == vstd::bytes::spec_u64_to_le_bytes(rook_magics[j]) by {
                assert(bytes@.subrange(8 * j, 8 * j + 8) =~= before.subrange(8 * j, 8 * j + 8));
            }
            assert forall|j: int| 0 <= j < 64 && 64 + j < i implies #[trigger] bytes@.subrange(
                8 * (64 + j),
                8 * (64 + j) + 8,
            ) == vstd::bytes::spec_u64_to_le_bytes(bishop_magics[j]) by {
                assert(bytes@.subrange(8 * (64 + j), 8 * (64 + j) + 8) =~= before.subrange(
                    8 * (64 + j),
                    8 * (64 + j) + 8,
                ));
            }
        }
        i += 1;
    }
    bytes
}

/// What is written is what is read: bytes that hold the multipliers give
/// them back, number for number.
pub proof fn lemma_magic_bytes_round_trip(
    bytes: Seq<u8>,
    rook_magics: [u64; 64],
    bishop_magics: [u64; 64],
)
    requires
        bytes_hold(bytes, rook_magics, bishop_magics),
    ensures
        forall|i: int|
            0 <= i < 64 ==> #[trigger] word_at(bytes, i) == rook_magics[i] && word_at(
                bytes,
                64 + i,
            ) == bishop_magics[i],
{
    vstd::bytes::lemma_auto_spec_u64_to_from_le_bytes();
    assert forall|i: int| 0 <= i < 64 implies #[trigger] word_at(bytes, i) == rook_magics[i]
        && word_at(bytes, 64 + i) == bishop_magics[i] by {
        assert(bytes.subrange(8 * i, 8 * i + 8) == vstd::bytes::spec_u64_to_le_bytes(
            rook_magics[i],
        ));
        assert(bytes.subrange(8 * (64 + i), 8 * (64 + i) + 8)
            == vstd::bytes::spec_u64_to_le_bytes(bishop_magics[i]));
    }
}

} // verus!
