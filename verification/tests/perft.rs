use pawndropper::board::{Board, Side};
use pawndropper::game::GameState;
use pawndropper::magic::MagicBitboard;
use pawndropper::move_bitboards::MoveBitboards;

fn count_leaves(game: &mut GameState, depth: usize) -> u64 {
    let (moves, _) = game.get_legal_moves();
    if depth == 1 {
        return moves.len() as u64;
    }
    let saved = game.save();
    let mut total = 0;
    for m in &moves {
        game.update_board_with_move(m);
        total += count_leaves(game, depth - 1);
        game.undo(m, &saved);
    }
    total
}

#[test]
fn perft_depth_1_to_3() {
    let tables = MoveBitboards::init_legal_moves();
    let magics = MagicBitboard::init_precomputed(&tables).unwrap();
    let mut game = GameState::new(&tables, &magics);
    assert_eq!(count_leaves(&mut game, 1), 20);
    assert_eq!(count_leaves(&mut game, 2), 400);
    assert_eq!(count_leaves(&mut game, 3), 8902);
}

#[test]
fn perft_depth_4() {
    let tables = MoveBitboards::init_legal_moves();
    let magics = MagicBitboard::init_precomputed(&tables).unwrap();
    let mut game = GameState::new(&tables, &magics);
    assert_eq!(count_leaves(&mut game, 4), 197281);
}

#[test]
fn perft_depth_5() {
    let tables = MoveBitboards::init_legal_moves();
    let magics = MagicBitboard::init_precomputed(&tables).unwrap();
    let mut game = GameState::new(&tables, &magics);
    assert_eq!(count_leaves(&mut game, 5), 4865609);
}


/// The board of a position in Forsyth-Edwards notation.
fn from_fen(fen: &str) -> Board {
    let fields: Vec<&str> = fen.split(' ').collect();
    let mut board = Board {
        pawns: [0, 0],
        knights: [0, 0],
        bishops: [0, 0],
        rooks: [0, 0],
        queens: [0, 0],
        king: [0, 0],
        side_to_move: if fields[1] == "w" { Side::White } else { Side::Black },
        castling_right_long: [fields[2].contains('Q'), fields[2].contains('q')],
        castling_right_short: [fields[2].contains('K'), fields[2].contains('k')],
        en_passant_square: 0,
    };
    let mut rank = 7usize;
    let mut file = 0usize;
    for c in fields[0].chars() {
        if c == '/' {
            rank -= 1;
            file = 0;
        } else if let Some(skip) = c.to_digit(10) {
            file += skip as usize;
        } else {
            let side = if c.is_ascii_uppercase() { 0 } else { 1 };
            let bit = 1u64 << (8 * rank + (7 - file));
            match c.to_ascii_lowercase() {
                'p' => board.pawns[side] |= bit,
                'n' => board.knights[side] |= bit,
                'b' => board.bishops[side] |= bit,
                'r' => board.rooks[side] |= bit,
                'q' => board.queens[side] |= bit,
                _ => board.king[side] |= bit,
            }
            file += 1;
        }
    }
    if fields[3] != "-" {
        let bytes = fields[3].as_bytes();
        let file = (bytes[0] - b'a') as usize;
        let rank = (bytes[1] - b'1') as usize;
        board.en_passant_square = 8 * rank + (7 - file);
    }
    board
}

fn perft(fen: &str, depth: usize) -> u64 {
    let tables = MoveBitboards::init_legal_moves();
    let magics = MagicBitboard::init_precomputed(&tables).unwrap();
    let mut game = GameState::from_board(&tables, &magics, from_fen(fen));
    count_leaves(&mut game, depth)
}

#[test]
fn perft_with_castling_pins_and_promotions() {
    let fen = "r3k2r/p1ppqpb1/bn2pnp1/3PN3/1p2P3/2N2Q1p/PPPBBPPP/R3K2R w KQkq -";
    assert_eq!(perft(fen, 1), 48);
    assert_eq!(perft(fen, 2), 2039);
    assert_eq!(perft(fen, 3), 97862);
}

#[test]
fn perft_with_en_passant_along_the_kings_rank() {
    let fen = "8/2p5/3p4/KP5r/1R3p1k/8/4P1P1/8 w - -";
    assert_eq!(perft(fen, 1), 14);
    assert_eq!(perft(fen, 2), 191);
    assert_eq!(perft(fen, 3), 2812);
    assert_eq!(perft(fen, 4), 43238);
}

#[test]
fn perft_with_promotions_out_of_check() {
    let fen = "r3k2r/Pppp1ppp/1b3nbN/nP6/BBP1P3/q4N2/Pp1P2PP/R2Q1RK1 w kq -";
    assert_eq!(perft(fen, 1), 6);
    assert_eq!(perft(fen, 2), 264);
    assert_eq!(perft(fen, 3), 9467);
}

#[test]
fn perft_of_a_middlegame() {
    let fen = "rnbq1k1r/pp1Pbppp/2p5/8/2B5/8/PPP1NnPP/RNBQK2R w KQ -";
    assert_eq!(perft(fen, 1), 44);
    assert_eq!(perft(fen, 2), 1486);
    assert_eq!(perft(fen, 3), 62379);
}

#[test]
fn perft_of_a_quiet_position() {
    let fen = "r4rk1/1pp1qppp/p1np1n2/2b1p1B1/2B1P1b1/P1NP1N2/1PP1QPPP/R4RK1 w - -";
    assert_eq!(perft(fen, 1), 46);
    assert_eq!(perft(fen, 2), 2079);
    assert_eq!(perft(fen, 3), 89890);
}
