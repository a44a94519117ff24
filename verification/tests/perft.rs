use chessai::chess_engine::perft::{perft, perft_checked};
use chessai::chess_engine::zobrist::Zobrist;
use chessai::chess_engine::ChessState;
use std::sync::Arc;

fn counts(fen: &str, depth: u32) -> [u64; 6] {
    let zobrist = Arc::new(Zobrist::init());
    let mut state = ChessState::from_fen(fen, &zobrist).unwrap();
    let before = state.hash;
    let counts = perft(&mut state, None, depth);
    assert_eq!(state.hash, before);
    assert_eq!(state.unmove_stack.len(), 0);
    counts
}

#[test]
fn perft_of_depth_zero_counts_the_position_itself() {
    assert_eq!(counts("rnbqkbnr/pppppppp/8/8/8/8/PPPPPPPP/RNBQKBNR w KQkq - 0 1", 0), [1, 0, 0, 0, 0, 0]);
}

#[test]
fn perft_starting_position() {
    let fen = "rnbqkbnr/pppppppp/8/8/8/8/PPPPPPPP/RNBQKBNR w KQkq - 0 1";
    assert_eq!(counts(fen, 1), [20, 0, 0, 0, 0, 0]);
    assert_eq!(counts(fen, 2), [400, 0, 0, 0, 0, 0]);
    assert_eq!(counts(fen, 3), [8902, 34, 0, 0, 0, 0]);
    assert_eq!(counts(fen, 4), [197281, 1576, 0, 0, 0, 0]);
    assert_eq!(counts(fen, 5), [4865609, 82719, 258, 0, 0, 0]);
}

#[test]
fn perft_middlegame_with_all_kinds_of_moves() {
    let fen = "r3k2r/p1ppqpb1/bn2pnp1/3PN3/1p2P3/2N2Q1p/PPPBBPPP/R3K2R w KQkq - 0 1";
    assert_eq!(counts(fen, 1), [48, 8, 0, 2, 0, 0]);
    assert_eq!(counts(fen, 2), [2039, 351, 1, 91, 0, 0]);
    assert_eq!(counts(fen, 3), [97862, 17102, 45, 3162, 0, 0]);
    assert_eq!(counts(fen, 4), [4085603, 757163, 1929, 128013, 15172, 0]);
}

#[test]
fn perft_rook_endgame() {
    let fen = "8/2p5/3p4/KP5r/1R3p1k/8/4P1P1/8 w - - 0 1";
    assert_eq!(counts(fen, 1), [14, 1, 0, 0, 0, 0]);
    assert_eq!(counts(fen, 2), [191, 14, 0, 0, 0, 0]);
    assert_eq!(counts(fen, 3), [2812, 209, 2, 0, 0, 0]);
    assert_eq!(counts(fen, 4), [43238, 3348, 123, 0, 0, 0]);
    assert_eq!(counts(fen, 5), [674624, 52051, 1165, 0, 0, 0]);
}

#[test]
fn perft_promotions_and_discovered_checks() {
    let fen = "rnbq1k1r/pp1Pbppp/2p5/8/2B5/8/PPP1NnPP/RNBQK2R w KQ - 1 8";
    assert_eq!(counts(fen, 1)[0], 44);
    assert_eq!(counts(fen, 2)[0], 1486);
    assert_eq!(counts(fen, 3)[0], 62379);
    assert_eq!(counts(fen, 4)[0], 2103487);
}

#[test]
fn perft_promotions_on_both_sides() {
    let fen = "r3k2r/Pppp1ppp/1b3nbN/nP6/BBP1P3/q4N2/Pp1P2PP/R2Q1RK1 w kq - 0 1";
    assert_eq!(counts(fen, 1), [6, 0, 0, 0, 0, 0]);
    assert_eq!(counts(fen, 2), [264, 87, 0, 6, 48, 0]);
    assert_eq!(counts(fen, 3), [9467, 1021, 4, 0, 120, 0]);
    assert_eq!(counts(fen, 4), [422333, 131393, 0, 7795, 60032, 0]);
}

#[test]
fn perft_checked_counts_what_perft_counts() {
    let zobrist = Arc::new(Zobrist::init());
    for fen in [
        "rnbqkbnr/pppppppp/8/8/8/8/PPPPPPPP/RNBQKBNR w KQkq - 0 1",
        "r3k2r/p1ppqpb1/bn2pnp1/3PN3/1p2P3/2N2Q1p/PPPBBPPP/R3K2R w KQkq - 0 1",
        "7k/5Q2/6K1/8/8/8/8/8 b - - 0 1",
    ] {
        let mut state = ChessState::from_fen(fen, &zobrist).unwrap();
        for depth in 0..4 {
            let counts = perft(&mut state, None, depth);
            assert_eq!(perft_checked(&mut state, None, depth), Some(counts));
            assert_eq!(state.unmove_stack.len(), 0);
        }
    }
    let mut state =
        ChessState::from_fen("rnbqkbnr/pppppppp/8/8/8/8/PPPPPPPP/RNBQKBNR w KQkq - 0 1", &zobrist).unwrap();
    assert_eq!(perft_checked(&mut state, None, 3), Some([8902, 34, 0, 0, 0, 0]));
    let m = state.get_move("e2e4").unwrap();
    assert_eq!(perft_checked(&mut state, Some(&m), 0), Some([1, 0, 0, 0, 0, 0]));
    // a side without moves has no positions below it
    let mut state = ChessState::from_fen("7k/5Q2/6K1/8/8/8/8/8 b - - 0 1", &zobrist).unwrap();
    assert_eq!(perft_checked(&mut state, None, 1000), Some([0, 0, 0, 0, 0, 0]));
}
