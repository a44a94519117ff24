use chessai::chess_engine::gen_moves::Move;
use chessai::chess_engine::zobrist::Zobrist;
use chessai::chess_engine::{ChessState, Piece, PieceColor, PieceType};
use std::sync::Arc;

fn state(fen: &str) -> ChessState {
    let zobrist = Arc::new(Zobrist::init());
    ChessState::from_fen(fen, &zobrist).unwrap()
}

fn texts(moves: &[Move]) -> Vec<String> {
    moves.iter().map(|m| m.to_string()).collect()
}

#[test]
fn a_pawn_promotes_in_four_ways() {
    let mut s = state("1n2k3/P7/8/8/8/8/8/4K3 w - - 0 1");
    let moves = s.gen_moves();
    let pawn: Vec<Move> = moves.iter().filter(|m| m.piece_type == PieceType::Pawn).cloned().collect();
    assert_eq!(texts(&pawn), ["a7a8r", "a7a8n", "a7a8b", "a7a8q", "a7b8r", "a7b8n", "a7b8b", "a7b8q"]);
    assert!(pawn[..4].iter().all(|m| m.capture.is_none()));
    assert!(pawn[4..].iter().all(|m| m.capture == Some(PieceType::Knight)));
    let m = s.get_move("a7b8n").unwrap();
    s.make_move(&m);
    assert_eq!(s.pieces[57], Some(Piece { c: PieceColor::White, t: PieceType::Knight }));
    assert_eq!(s.pieces[48], None);
    assert_eq!(s.halfmove_clock, 0);
    s.unmake_last_move();
    assert_eq!(s.pieces[57], Some(Piece { c: PieceColor::Black, t: PieceType::Knight }));
    assert_eq!(s.pieces[48], Some(Piece { c: PieceColor::White, t: PieceType::Pawn }));
    // Black promotes on the first rank
    let mut s = state("4k3/8/8/8/8/8/7p/4K3 b - - 0 1");
    let moves = s.gen_moves();
    let pawn: Vec<Move> = moves.iter().filter(|m| m.piece_type == PieceType::Pawn).cloned().collect();
    assert_eq!(texts(&pawn), ["h2h1r", "h2h1n", "h2h1b", "h2h1q"]);
}

#[test]
fn a_pawn_moves_one_or_two_squares_ahead() {
    let mut s = state("4k3/8/8/8/8/2n5/1PPP4/4K3 w - - 0 1");
    let moves = s.gen_moves();
    let pawn: Vec<Move> = moves.iter().filter(|m| m.piece_type == PieceType::Pawn).cloned().collect();
    // b2: ahead, two ahead, takes c3; c2: blocked; d2: ahead, two ahead, takes c3
    assert_eq!(texts(&pawn), ["b2b3", "b2b4", "b2c3", "d2d3", "d2d4", "d2c3"]);
    assert_eq!(pawn[1].new_en_passant_target, Some(17));
    assert_eq!(pawn[0].new_en_passant_target, None);
    assert_eq!(pawn[2].capture, Some(PieceType::Knight));
    // a pawn that has moved goes one square only
    let mut s = state("4k3/8/8/8/8/1P6/8/4K3 w - - 0 1");
    let moves = s.gen_moves();
    let pawn: Vec<Move> = moves.iter().filter(|m| m.piece_type == PieceType::Pawn).cloned().collect();
    assert_eq!(texts(&pawn), ["b3b4"]);
    // nor does it jump
    let mut s = state("4k3/8/8/8/8/1n6/1P6/4K3 w - - 0 1");
    assert!(s.gen_moves().iter().all(|m| m.piece_type != PieceType::Pawn));
    let mut s = state("4k3/8/8/8/1n6/8/1P6/4K3 w - - 0 1");
    let moves = s.gen_moves();
    let pawn: Vec<Move> = moves.iter().filter(|m| m.piece_type == PieceType::Pawn).cloned().collect();
    assert_eq!(texts(&pawn), ["b2b3"]);
}

#[test]
fn the_en_passant_target_is_set_where_a_pawn_can_capture_to_it() {
    let mut s = state("4k3/8/8/8/2p5/8/1P1P4/4K3 w - - 0 1");
    let m = s.get_move("b2b4").unwrap();
    assert_eq!(m.new_en_passant_target, Some(17));
    s.make_move(&m);
    assert_eq!(s.en_passant_target, Some(17));
    let capture = s.get_move("c4b3").unwrap();
    assert!(capture.en_passant);
    assert_eq!(capture.capture, Some(PieceType::Pawn));
    s.make_move(&capture);
    assert_eq!(s.pieces[17], Some(Piece { c: PieceColor::Black, t: PieceType::Pawn }));
    assert_eq!(s.pieces[25], None);
    assert_eq!(s.pieces[26], None);
    assert_eq!(s.en_passant_target, None);
    s.unmake_last_move();
    assert_eq!(s.pieces[17], None);
    assert_eq!(s.pieces[25], Some(Piece { c: PieceColor::White, t: PieceType::Pawn }));
    assert_eq!(s.pieces[26], Some(Piece { c: PieceColor::Black, t: PieceType::Pawn }));
    assert_eq!(s.en_passant_target, Some(17));
    s.unmake_last_move();
    assert_eq!(s.en_passant_target, None);
    // no pawn beside the square that the pawn comes to
    let mut s = state("4k3/8/8/8/4p3/8/1P6/4K3 w - - 0 1");
    let m = s.get_move("b2b4").unwrap();
    assert_eq!(m.new_en_passant_target, Some(17));
    s.make_move(&m);
    assert_eq!(s.en_passant_target, None);
    // the target lasts one move
    let mut s = state("4k3/8/8/8/2p5/8/1P1P4/4K3 w - - 0 1");
    for text in ["b2b4", "e8e7", "e1e2"] {
        let m = s.get_move(text).unwrap();
        s.make_move(&m);
    }
    assert_eq!(s.en_passant_target, None);
    assert_eq!(s.get_move("c4b3"), None);
}

#[test]
fn pieces_move_along_their_lines() {
    let count = |fen: &str, t: PieceType| {
        let mut s = state(fen);
        s.gen_moves().iter().filter(|m| m.piece_type == t).count()
    };
    assert_eq!(count("4k3/8/8/8/3R4/8/8/4K3 w - - 0 1", PieceType::Rook), 14);
    assert_eq!(count("4k3/8/8/8/3B4/8/8/4K3 w - - 0 1", PieceType::Bishop), 13);
    assert_eq!(count("4k3/8/8/8/3Q4/8/8/4K3 w - - 0 1", PieceType::Queen), 27);
    assert_eq!(count("4k3/8/8/8/3N4/8/8/4K3 w - - 0 1", PieceType::Knight), 8);
    assert_eq!(count("4k3/8/8/8/8/8/8/N3K3 w - - 0 1", PieceType::Knight), 2);
    assert_eq!(count("4k3/8/8/8/3K4/8/8/8 w - - 0 1", PieceType::King), 8);
    assert_eq!(count("4k3/8/8/8/8/8/8/K7 w - - 0 1", PieceType::King), 3);
    // a rook stops before its own piece and on the other side's
    let mut s = state("4k3/8/8/3p4/8/8/3R1P2/4K3 w - - 0 1");
    let rook: Vec<Move> = s.gen_moves().into_iter().filter(|m| m.piece_type == PieceType::Rook).collect();
    assert_eq!(texts(&rook), ["d2d1", "d2c2", "d2b2", "d2a2", "d2e2", "d2d3", "d2d4", "d2d5"]);
    assert_eq!(rook[7].capture, Some(PieceType::Pawn));
    assert!(rook[..7].iter().all(|m| m.capture.is_none()));
}

#[test]
fn moves_come_square_by_square_and_castling_last() {
    let mut s = state("4k3/8/8/8/8/8/P7/R3K2R w KQ - 0 1");
    let moves = s.gen_pseudo_legal_moves();
    let from: Vec<u8> = moves.iter().map(|m| m.from).collect();
    let mut sorted = from[..from.len() - 2].to_vec();
    sorted.sort();
    assert_eq!(from[..from.len() - 2], sorted[..]);
    assert!(moves[moves.len() - 2].castle_queen);
    assert!(moves[moves.len() - 1].castle_king);
    assert_eq!(texts(&moves[moves.len() - 2..]), ["e1c1", "e1g1"]);
}

#[test]
fn a_state_without_moves() {
    let mut mated = state("4R1k1/5ppp/8/8/8/8/8/6K1 b - - 0 1");
    assert!(mated.gen_moves().is_empty());
    assert!(!mated.gen_pseudo_legal_moves().is_empty());
    assert!(mated.check.get(PieceColor::Black));
    let mut stalemated = state("7k/5Q2/6K1/8/8/8/8/8 b - - 0 1");
    assert!(stalemated.gen_moves().is_empty());
    assert!(!stalemated.check.get(PieceColor::Black));
    assert_eq!(stalemated.get_move("h8h7"), None);
    assert_eq!(stalemated.get_move(""), None);
    assert_eq!(stalemated.get_move("no such move"), None);
}
