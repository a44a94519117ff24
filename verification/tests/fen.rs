use chessai::chess_engine::fen::FenError;
use chessai::chess_engine::zobrist::Zobrist;
use chessai::chess_engine::{ChessState, Piece, PieceColor, PieceColorArray, PieceType};
use std::sync::Arc;

fn parse(fen: &str) -> Result<ChessState, FenError> {
    let zobrist = Arc::new(Zobrist::init());
    ChessState::parse(fen, &zobrist)
}

fn message(fen: &str) -> String {
    let zobrist = Arc::new(Zobrist::init());
    match ChessState::from_fen(fen, &zobrist) {
        Ok(_) => String::from("no error"),
        Err(e) => e,
    }
}

#[test]
fn the_starting_position_from_its_notation() {
    let s = parse("rnbqkbnr/pppppppp/8/8/8/8/PPPPPPPP/RNBQKBNR w KQkq - 0 1").unwrap();
    assert_eq!(s.pieces[0], Some(Piece { c: PieceColor::White, t: PieceType::Rook }));
    assert_eq!(s.pieces[3], Some(Piece { c: PieceColor::White, t: PieceType::Queen }));
    assert_eq!(s.pieces[4], Some(Piece { c: PieceColor::White, t: PieceType::King }));
    assert_eq!(s.pieces[12], Some(Piece { c: PieceColor::White, t: PieceType::Pawn }));
    assert_eq!(s.pieces[28], None);
    assert_eq!(s.pieces[52], Some(Piece { c: PieceColor::Black, t: PieceType::Pawn }));
    assert_eq!(s.pieces[57], Some(Piece { c: PieceColor::Black, t: PieceType::Knight }));
    assert_eq!(s.pieces[58], Some(Piece { c: PieceColor::Black, t: PieceType::Bishop }));
    assert_eq!(s.pieces[60], Some(Piece { c: PieceColor::Black, t: PieceType::King }));
    assert_eq!(s.turn, PieceColor::White);
    assert_eq!(s.king_castle, PieceColorArray { white: true, black: true });
    assert_eq!(s.queen_castle, PieceColorArray { white: true, black: true });
    assert_eq!(s.en_passant_target, None);
    assert_eq!(s.halfmove_clock, 0);
    assert_eq!(s.move_clock, 1);
    assert_eq!(s.king_pos, PieceColorArray { white: 4, black: 60 });
    assert_eq!(s.check, PieceColorArray { white: false, black: false });
    assert_eq!(s.unmove_stack.len(), 0);
    assert!(!s.is_draw_by_repetition);
    assert_eq!(s.hash, Zobrist::calc_hash(&s));
}

#[test]
fn the_starting_position_without_notation() {
    let zobrist = Arc::new(Zobrist::init());
    let made = ChessState::new(&zobrist);
    let read = ChessState::from_fen("rnbqkbnr/pppppppp/8/8/8/8/PPPPPPPP/RNBQKBNR w KQkq - 0 1", &zobrist).unwrap();
    assert_eq!(made.pieces, read.pieces);
    assert_eq!(made.turn, read.turn);
    assert_eq!(made.king_castle, read.king_castle);
    assert_eq!(made.queen_castle, read.queen_castle);
    assert_eq!(made.en_passant_target, read.en_passant_target);
    assert_eq!(made.halfmove_clock, read.halfmove_clock);
    assert_eq!(made.move_clock, read.move_clock);
    assert_eq!(made.king_pos, read.king_pos);
    assert_eq!(made.check, read.check);
    assert_eq!(made.hash, read.hash);
    assert_eq!(made.position_counter, read.position_counter);
}

#[test]
fn fields_of_a_position() {
    let s = parse("r3k2r/pppp1ppp/8/8/3Pp3/8/PPP1PPPP/R3K2R b Kq d3 17 +42").unwrap();
    assert_eq!(s.turn, PieceColor::Black);
    assert_eq!(s.king_castle, PieceColorArray { white: true, black: false });
    assert_eq!(s.queen_castle, PieceColorArray { white: false, black: true });
    assert_eq!(s.en_passant_target, Some(19));
    assert_eq!(s.halfmove_clock, 17);
    assert_eq!(s.move_clock, 42);
    assert_eq!(s.pieces[27], Some(Piece { c: PieceColor::White, t: PieceType::Pawn }));
    assert_eq!(s.pieces[28], Some(Piece { c: PieceColor::Black, t: PieceType::Pawn }));
}

#[test]
fn a_target_that_no_pawn_can_capture_to_is_dropped() {
    // no black pawn beside d4
    let s = parse("r3k2r/pppp1ppp/8/4p3/3P4/8/PPP1PPPP/R3K2R b KQkq d3 0 3").unwrap();
    assert_eq!(s.en_passant_target, None);
    let with = parse("r3k2r/pppp1ppp/8/8/3Pp3/8/PPP1PPPP/R3K2R b KQkq d3 0 3").unwrap();
    let without = parse("r3k2r/pppp1ppp/8/8/3Pp3/8/PPP1PPPP/R3K2R b KQkq - 0 3").unwrap();
    assert_eq!(with.en_passant_target, Some(19));
    assert_eq!(without.en_passant_target, None);
    // no pawn stands behind the target
    let s = parse("r3k2r/pppp1ppp/8/8/4p3/8/PPP1PPPP/R3K2R b KQkq d3 0 3").unwrap();
    assert_eq!(s.en_passant_target, None);
    // the target is on the first rank
    let s = parse("r3k2r/pppp1ppp/8/8/3Pp3/8/PPP1PPPP/R3K2R w KQkq a1 0 3").unwrap();
    assert_eq!(s.en_passant_target, None);
    let s = parse("r3k2r/pppp1ppp/8/8/3Pp3/8/PPP1PPPP/R3K2R b KQkq h8 0 3").unwrap();
    assert_eq!(s.en_passant_target, None);
}

#[test]
fn a_right_without_king_and_rook_at_home_is_dropped() {
    let s = parse("4k2r/8/8/8/8/8/8/R3K3 w KQkq - 0 1").unwrap();
    assert_eq!(s.king_castle, PieceColorArray { white: false, black: true });
    assert_eq!(s.queen_castle, PieceColorArray { white: true, black: false });
    let s = parse("r3k2r/8/8/8/8/8/8/R4K1R w KQkq - 0 1").unwrap();
    assert_eq!(s.king_castle, PieceColorArray { white: false, black: true });
    assert_eq!(s.queen_castle, PieceColorArray { white: false, black: true });
}

#[test]
fn rights_after_a_dash_are_not_read() {
    let s = parse("r3k2r/8/8/8/8/8/8/R3K2R w K-Qx - 0 1").unwrap();
    assert_eq!(s.king_castle, PieceColorArray { white: true, black: false });
    assert_eq!(s.queen_castle, PieceColorArray { white: false, black: false });
    let s = parse("r3k2r/8/8/8/8/8/8/R3K2R w  - 0 1").unwrap();
    assert_eq!(s.king_castle, PieceColorArray { white: false, black: false });
}

#[test]
fn a_board_in_part() {
    let s = parse("4k3/8 w - - 0 1").unwrap();
    assert_eq!(s.pieces[60], Some(Piece { c: PieceColor::Black, t: PieceType::King }));
    assert_eq!(s.king_pos.get(PieceColor::Black), 60);
    assert_eq!(s.king_pos.get(PieceColor::White), 0);
    assert!(s.pieces.iter().filter(|p| p.is_some()).count() == 1);
}

#[test]
fn the_wrong_number_of_fields() {
    assert_eq!(parse("").err(), Some(FenError::Spaces));
    assert_eq!(parse("8/8/8/8/8/8/8/8").err(), Some(FenError::Spaces));
    assert_eq!(parse("8/8/8/8/8/8/8/8 w - - 0").err(), Some(FenError::Spaces));
    assert_eq!(parse("8/8/8/8/8/8/8/8 w - - 0 1 ").err(), Some(FenError::Spaces));
    assert_eq!(parse("8/8/8/8/8/8/8/8 w - - 0 1 x").err(), Some(FenError::Spaces));
    assert_eq!(parse("8/8/8/8/8/8/8/8  w - - 0 1").err(), Some(FenError::Spaces));
    assert_eq!(message("8/8/8/8/8/8/8/8 w - - 0"), "Invalid amount of spaces");
}

#[test]
fn a_character_that_the_board_does_not_know() {
    assert_eq!(parse("8/8/8/8/8/8/8/7x w - - 0 1").err(), Some(FenError::BoardCharacter('x')));
    assert_eq!(parse("9/8/8/8/8/8/8/8 w - - 0 1").err(), Some(FenError::BoardCharacter('9')));
    assert_eq!(parse("0/8/8/8/8/8/8/8 w - - 0 1").err(), Some(FenError::BoardCharacter('0')));
    assert_eq!(parse("8/8/8/8/8/8/8/\u{e9}7 w - - 0 1").err(), Some(FenError::BoardCharacter('\u{e9}')));
    assert_eq!(message("8/8/8/8/8/8/8/7x w - - 0 1"), "Invalid character x in board");
}

#[test]
fn a_character_that_leads_off_the_board() {
    assert_eq!(parse("ppppppppp/8/8/8/8/8/8/8 w - - 0 1").err(), Some(FenError::BoardCharacter('p')));
    assert_eq!(parse("7pp/8/8/8/8/8/8/8 w - - 0 1").err(), Some(FenError::BoardCharacter('p')));
    assert_eq!(parse("71K/8/8/8/8/8/8/8 w - - 0 1").err(), Some(FenError::BoardCharacter('K')));
    assert_eq!(parse("72/8/8/8/8/8/8/8 w - - 0 1").err(), Some(FenError::BoardCharacter('2')));
    assert_eq!(parse("8/8/8/8/8/8/8/8/8 w - - 0 1").err(), Some(FenError::BoardCharacter('/')));
    assert!(parse("71/8/8/8/8/8/8/8 w - - 0 1").is_ok());
}

#[test]
fn a_side_to_move_that_there_is_not() {
    assert_eq!(parse("8/8/8/8/8/8/8/8 x - - 0 1").err(), Some(FenError::ActiveColor));
    assert_eq!(parse("8/8/8/8/8/8/8/8 W - - 0 1").err(), Some(FenError::ActiveColor));
    assert_eq!(parse("8/8/8/8/8/8/8/8 wb - - 0 1").err(), Some(FenError::ActiveColor));
    assert_eq!(message("8/8/8/8/8/8/8/8 white - - 0 1"), "Invalid active color");
}

#[test]
fn a_character_that_is_no_castling_right() {
    assert_eq!(parse("8/8/8/8/8/8/8/8 w KQxq - 0 1").err(), Some(FenError::CastlingCharacter('x')));
    assert_eq!(parse("8/8/8/8/8/8/8/8 w A - 0 1").err(), Some(FenError::CastlingCharacter('A')));
    assert_eq!(message("8/8/8/8/8/8/8/8 w KQxq - 0 1"), "Invalid character x in castling rights");
}

#[test]
fn a_target_that_is_no_square() {
    assert_eq!(parse("8/8/8/8/8/8/8/8 w - e9 0 1").err(), Some(FenError::EnPassant));
    assert_eq!(parse("8/8/8/8/8/8/8/8 w - i3 0 1").err(), Some(FenError::EnPassant));
    assert_eq!(parse("8/8/8/8/8/8/8/8 w - e 0 1").err(), Some(FenError::EnPassant));
    assert_eq!(parse("8/8/8/8/8/8/8/8 w - e33 0 1").err(), Some(FenError::EnPassant));
    assert_eq!(parse("8/8/8/8/8/8/8/8 w - x 0 1").err(), Some(FenError::EnPassant));
    assert_eq!(parse("8/8/8/8/8/8/8/8 w - E3 0 1").err(), Some(FenError::EnPassant));
    assert_eq!(message("8/8/8/8/8/8/8/8 w - e9 0 1"), "Invalid en passant target");
}

#[test]
fn clocks_that_are_no_numbers_up_to_255() {
    assert_eq!(parse("8/8/8/8/8/8/8/8 w - - x 1").err(), Some(FenError::HalfmoveClock));
    assert_eq!(parse("8/8/8/8/8/8/8/8 w - - 256 1").err(), Some(FenError::HalfmoveClock));
    assert_eq!(parse("8/8/8/8/8/8/8/8 w - - -1 1").err(), Some(FenError::HalfmoveClock));
    assert_eq!(parse("8/8/8/8/8/8/8/8 w - - + 1").err(), Some(FenError::HalfmoveClock));
    assert_eq!(parse("8/8/8/8/8/8/8/8 w - - 1x 1").err(), Some(FenError::HalfmoveClock));
    assert_eq!(parse("8/8/8/8/8/8/8/8 w - - 0 x").err(), Some(FenError::MoveClock));
    assert_eq!(parse("8/8/8/8/8/8/8/8 w - - 0 1000").err(), Some(FenError::MoveClock));
    assert_eq!(parse("8/8/8/8/8/8/8/8 w - - 0 2560").err(), Some(FenError::MoveClock));
    assert_eq!(message("8/8/8/8/8/8/8/8 w - - x 1"), "Invalid halfmove clock");
    assert_eq!(message("8/8/8/8/8/8/8/8 w - - 0 x"), "Invalid move clock");
    let s = parse("8/8/8/8/8/8/8/8 w - - 255 0000255").unwrap();
    assert_eq!(s.halfmove_clock, 255);
    assert_eq!(s.move_clock, 255);
}

#[test]
fn the_first_field_at_fault_is_named() {
    assert_eq!(parse("8/8/8/8/8/8/8/7x x x x x x").err(), Some(FenError::BoardCharacter('x')));
    assert_eq!(parse("8/8/8/8/8/8/8/8 x x x x x").err(), Some(FenError::ActiveColor));
    assert_eq!(parse("8/8/8/8/8/8/8/8 w x x x x").err(), Some(FenError::CastlingCharacter('x')));
    assert_eq!(parse("8/8/8/8/8/8/8/8 w - x x x").err(), Some(FenError::EnPassant));
    assert_eq!(parse("8/8/8/8/8/8/8/8 w - - x x").err(), Some(FenError::HalfmoveClock));
}

#[test]
fn diagnostics_in_words() {
    assert_eq!(FenError::Spaces.to_string(), "Invalid amount of spaces");
    assert_eq!(FenError::BoardCharacter('?').to_string(), "Invalid character ? in board");
    assert_eq!(FenError::ActiveColor.to_string(), "Invalid active color");
    assert_eq!(FenError::CastlingCharacter('z').to_string(), "Invalid character z in castling rights");
    assert_eq!(FenError::EnPassant.to_string(), "Invalid en passant target");
    assert_eq!(FenError::HalfmoveClock.to_string(), "Invalid halfmove clock");
    assert_eq!(FenError::MoveClock.to_string(), "Invalid move clock");
}
