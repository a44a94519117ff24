use chessai::chess_engine::zobrist::Zobrist;
use chessai::chess_engine::ChessState;
use std::sync::Arc;

#[test]
fn startpos_pos_test() {
    let zobrist = Arc::new(Zobrist::init());
    let mut state =
        ChessState::from_fen("rnbqkbnr/pppppppp/8/8/8/8/PPPPPPPP/RNBQKBNR w KQkq - 0 1", &zobrist).unwrap();
    let hash = state.hash;
    let moves = state.gen_moves();
    assert_eq!(moves.len(), 20);
    assert_eq!(state.hash, hash);
    assert_eq!(state.hash, Zobrist::calc_hash(&state));
}

#[test]
fn the_hash_tells_positions_apart_by_each_of_their_parts() {
    let zobrist = Arc::new(Zobrist::init());
    let hash = |fen: &str| ChessState::from_fen(fen, &zobrist).unwrap().hash;
    let with_target = hash("r3k2r/pppp1ppp/8/8/3Pp3/8/PPP1PPPP/R3K2R b KQkq d3 0 3");
    // the en-passant target
    assert_ne!(with_target, hash("r3k2r/pppp1ppp/8/8/3Pp3/8/PPP1PPPP/R3K2R b KQkq - 0 3"));
    assert_eq!(
        with_target ^ hash("r3k2r/pppp1ppp/8/8/3Pp3/8/PPP1PPPP/R3K2R b KQkq - 0 3"),
        zobrist.en_passant[3]
    );
    // the side to move
    assert_eq!(
        hash("r3k2r/pppp1ppp/8/8/3Pp3/8/PPP1PPPP/R3K2R b KQkq - 0 3")
            ^ hash("r3k2r/pppp1ppp/8/8/3Pp3/8/PPP1PPPP/R3K2R w KQkq - 0 3"),
        zobrist.black_to_move
    );
    // a castling right
    assert_eq!(
        hash("r3k2r/pppp1ppp/8/8/3Pp3/8/PPP1PPPP/R3K2R w KQkq - 0 3")
            ^ hash("r3k2r/pppp1ppp/8/8/3Pp3/8/PPP1PPPP/R3K2R w Qkq - 0 3"),
        zobrist.king_castle.white
    );
    // the clocks are no part of it
    assert_eq!(with_target, hash("r3k2r/pppp1ppp/8/8/3Pp3/8/PPP1PPPP/R3K2R b KQkq d3 7 30"));
}

#[test]
fn en_passant_target_test() {
    let zobrist = Arc::new(Zobrist::init());
    let mut state =
        ChessState::from_fen("r3k2r/pppp1ppp/8/8/3Pp3/8/PPP1PPPP/R3K2R b KQkq d3 0 3", &zobrist).unwrap();
    let hash = state.hash;
    let moves = state.gen_moves();
    assert_eq!(moves.len(), 26);
    assert_eq!(state.hash, hash);
    assert_eq!(
        state.hash,
        ChessState::from_fen("r3k2r/pppp1ppp/8/8/3Pp3/8/PPP1PPPP/R3K2R b KQkq d3 0 3", &zobrist).unwrap().hash
    );
    assert_eq!(state.hash, Zobrist::calc_hash(&state));
}
