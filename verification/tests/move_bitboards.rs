use pawndropper::board::{Piece, Side};
use pawndropper::magic::{
    magics_from_bytes, magics_to_bytes, MagicBitboard, PRECOMP_BISHOP_MAGICS, PRECOMP_ROOK_MAGICS,
};
use pawndropper::move_bitboards::{MoveBitboards, RayDirection};

#[test]
fn test_moves() {
    let legal_moves = MoveBitboards::init_legal_moves();

    // king moves
    assert_eq!(legal_moves.king_moves[0], 770);
    assert_eq!(legal_moves.king_moves[7], 49216);
    assert_eq!(legal_moves.king_moves[35], 30872694685696);

    // knight moves
    assert_eq!(legal_moves.knight_moves[0], 132096);
    assert_eq!(legal_moves.knight_moves[36], 11333767002587136);
    assert_eq!(legal_moves.knight_moves[23], 275414786112);
    assert_eq!(legal_moves.knight_moves[60], 19184278881435648);

    // pawn moves
    assert_eq!(legal_moves.pawn_moves[Side::White as usize][8], 16842752);
    assert_eq!(legal_moves.pawn_moves[Side::White as usize][23], 2147483648);
    assert_eq!(
        legal_moves.pawn_moves[Side::White as usize][51],
        576460752303423488
    );
    assert_eq!(
        legal_moves.pawn_moves[Side::White as usize][40],
        281474976710656
    );
    assert_eq!(legal_moves.pawn_moves[Side::Black as usize][40], 4294967296);
    assert_eq!(
        legal_moves.pawn_moves[Side::Black as usize][50],
        4415226380288
    );
    assert_eq!(legal_moves.pawn_moves[Side::Black as usize][10], 4);

    assert_eq!(
        legal_moves.pawn_capture_moves[Side::White as usize][8],
        131072
    );
    assert_eq!(
        legal_moves.pawn_capture_moves[Side::White as usize][9],
        327680
    );
    assert_eq!(legal_moves.pawn_capture_moves[Side::Black as usize][8], 2);
    assert_eq!(legal_moves.pawn_capture_moves[Side::Black as usize][9], 5);

    // blocker masks
    // rook
    assert_eq!(legal_moves.rook_masks[28], 4521262379438080);
    assert_eq!(legal_moves.rook_masks[0], 282578800148862);
    assert_eq!(legal_moves.rook_masks[63], 9115426935197958144);

    // bishop
    assert_eq!(legal_moves.bishop_masks[43], 5629586008178688);
    assert_eq!(legal_moves.bishop_masks[2], 275415828992);

    // queen
    assert_eq!(legal_moves.queen_masks[36], 23705944086286848);

    // Rays
    assert_eq!(
        legal_moves.rays[RayDirection::North as usize][10],
        289360691352305664
    );
    assert_eq!(legal_moves.rays[RayDirection::South as usize][10], 4);
    assert_eq!(legal_moves.rays[RayDirection::East as usize][10], 768);
    assert_eq!(legal_moves.rays[RayDirection::West as usize][10], 63488);

    assert_eq!(
        legal_moves.rays[RayDirection::NorthEast as usize][10],
        16908288
    );
    assert_eq!(legal_moves.rays[RayDirection::SouthEast as usize][10], 2);
    assert_eq!(legal_moves.rays[RayDirection::SouthWest as usize][10], 8);
    assert_eq!(
        legal_moves.rays[RayDirection::NorthWest as usize][10],
        36099303471054848
    );
}

#[test]
fn precomputed_magics_are_collision_free() {
    let tables = MoveBitboards::init_legal_moves();
    assert!(MagicBitboard::init_precomputed(&tables).is_some());
}

#[test]
fn magic_lookup_equals_ray_walk() {
    let tables = MoveBitboards::init_legal_moves();
    let magics = MagicBitboard::init_precomputed(&tables).unwrap();
    let mut occ: u64 = 0x9e37_79b9_7f4a_7c15;
    for square in 0..64usize {
        for _ in 0..200 {
            occ ^= occ << 13;
            occ ^= occ >> 7;
            occ ^= occ << 17;
            assert_eq!(
                magics.get_bishop_moves(square, occ),
                tables.get_bishop_rays(square, occ)
            );
            assert_eq!(
                magics.get_rook_moves(square, occ),
                tables.get_rook_rays(square, occ)
            );
        }
    }
}

#[test]
fn rook_attacks_stop_at_first_blocker() {
    let tables = MoveBitboards::init_legal_moves();
    // Rook on square 0, blockers on squares 3 and 24.
    let occ: u64 = (1 << 3) | (1 << 24) | (1 << 40);
    let expected: u64 = (1 << 1) | (1 << 2) | (1 << 3) | (1 << 8) | (1 << 16) | (1 << 24);
    assert_eq!(tables.get_rook_rays(0, occ), expected);
}

#[test]
fn bishop_attack_is_symmetric() {
    let tables = MoveBitboards::init_legal_moves();
    let occ: u64 = (1 << 27) | (1 << 45) | (1 << 9);
    for s in 0..64usize {
        for t in 0..64usize {
            let st = tables.get_bishop_rays(s, occ) & (1u64 << t) != 0;
            let ts = tables.get_bishop_rays(t, occ) & (1u64 << s) != 0;
            assert_eq!(st, ts);
        }
    }
}

#[test]
fn random_magics_answer_like_ray_walk() {
    let tables = MoveBitboards::init_legal_moves();
    let magics = MagicBitboard::init(&tables).unwrap();
    let occ: u64 = 0x0040_2010_0804_0201 | (1 << 35) | (1 << 28);
    for square in 0..64usize {
        assert_eq!(
            magics.get_bishop_moves(square, occ),
            tables.get_bishop_rays(square, occ)
        );
        assert_eq!(
            magics.get_rook_moves(square, occ),
            tables.get_rook_rays(square, occ)
        );
        // The multipliers that were found send no two sets of blockers to
        // one slot, and the tables are the ones that they give.
        let rook = MagicBitboard::square_table(&tables, Piece::Rook, square, magics.rook_magics[square]);
        assert_eq!(rook.as_ref(), Some(&magics.rook_table[square]));
        let bishop =
            MagicBitboard::square_table(&tables, Piece::Bishop, square, magics.bishop_magics[square]);
        assert_eq!(bishop.as_ref(), Some(&magics.bishop_table[square]));
    }
    let (found, found_tables) = MagicBitboard::compute_magics(&tables, Piece::Bishop).unwrap();
    assert_eq!(found_tables.len(), 64);
    assert_eq!(
        MagicBitboard::init_move_table(&tables, Piece::Bishop, &found),
        Some(found_tables)
    );
}

#[test]
fn colliding_magics_are_refused() {
    let tables = MoveBitboards::init_legal_moves();
    // The multiplier 0 sends every set of blockers to slot 0.
    assert!(MagicBitboard::square_table(&tables, Piece::Rook, 0, 0).is_none());
    assert!(MagicBitboard::square_table(&tables, Piece::Bishop, 27, 0).is_none());
    let table = MagicBitboard::square_table(&tables, Piece::Rook, 0, PRECOMP_ROOK_MAGICS[0]);
    assert_eq!(table.map(|t| t.len()), Some(4096));
    let table = MagicBitboard::square_table(&tables, Piece::Bishop, 27, PRECOMP_BISHOP_MAGICS[27]);
    assert_eq!(table.map(|t| t.len()), Some(512));
    let mut rooks = PRECOMP_ROOK_MAGICS;
    rooks[17] = 0;
    assert!(MagicBitboard::from_magics(&tables, rooks, PRECOMP_BISHOP_MAGICS).is_none());
    assert!(MagicBitboard::from_magics(&tables, PRECOMP_ROOK_MAGICS, PRECOMP_BISHOP_MAGICS).is_some());
    assert!(MagicBitboard::init_move_table(&tables, Piece::Bishop, &[0u64; 64]).is_none());
}

#[test]
fn buffers_serve_many_attempts() {
    let tables = MoveBitboards::init_legal_moves();
    let mut table = vec![0u64; 32];
    let mut stamps = vec![0u64; 32];
    assert!(!MagicBitboard::try_magic(&tables, Piece::Bishop, 9, 0, &mut table, &mut stamps, 1));
    assert!(!MagicBitboard::try_magic(&tables, Piece::Bishop, 9, 1, &mut table, &mut stamps, 2));
    assert!(MagicBitboard::try_magic(
        &tables,
        Piece::Bishop,
        9,
        PRECOMP_BISHOP_MAGICS[9],
        &mut table,
        &mut stamps,
        3
    ));
    let blockers: u64 = 1 << 18;
    let slot = MagicBitboard::magic_index(PRECOMP_BISHOP_MAGICS[9], blockers, 5);
    assert_eq!(table[slot], tables.get_bishop_rays(9, blockers));
    assert_eq!(stamps.iter().filter(|s| **s == 3).count(), 32);
}

#[test]
fn magics_are_read_from_bytes_low_byte_first() {
    let mut bytes = vec![0u8; 1024];
    bytes[0] = 0x34;
    bytes[1] = 0x12;
    bytes[8 * 63 + 7] = 0x80;
    bytes[512] = 0xff;
    bytes[1023] = 0x01;
    let (rooks, bishops) = magics_from_bytes(&bytes).unwrap();
    assert_eq!(rooks[0], 0x1234);
    assert_eq!(rooks[1], 0);
    assert_eq!(rooks[63], 0x8000_0000_0000_0000);
    assert_eq!(bishops[0], 0xff);
    assert_eq!(bishops[63], 0x0100_0000_0000_0000);
    assert!(magics_from_bytes(&bytes[..1023]).is_none());
    assert!(magics_from_bytes(&[]).is_none());
    bytes.push(0);
    assert!(magics_from_bytes(&bytes).is_none());
}

#[test]
fn magics_written_are_magics_read() {
    let bytes = magics_to_bytes(&PRECOMP_ROOK_MAGICS, &PRECOMP_BISHOP_MAGICS);
    assert_eq!(bytes.len(), 1024);
    assert_eq!(bytes[..8], PRECOMP_ROOK_MAGICS[0].to_le_bytes());
    assert_eq!(bytes[512..520], PRECOMP_BISHOP_MAGICS[0].to_le_bytes());
    let (rooks, bishops) = magics_from_bytes(&bytes).unwrap();
    assert_eq!(rooks, PRECOMP_ROOK_MAGICS);
    assert_eq!(bishops, PRECOMP_BISHOP_MAGICS);
    let tables = MoveBitboards::init_legal_moves();
    assert!(MagicBitboard::from_magics(&tables, rooks, bishops).is_some());
}
