use super::display::push_char;
use super::zobrist::Zobrist;
use super::{
    attacked, si, ChessState, ChessStateView, Piece, PieceColor, PieceColorArray, PieceType,
};
use std::collections::HashMap;
use std::sync::Arc;
use vstd::prelude::*;
use vstd::string::*;

verus! {

/// Why a text is no position in Forsyth-Edwards notation.
#[derive(Clone, Copy, PartialEq, Eq, Debug)]
pub enum FenError {
    /// The text does not consist of six fields with one space between each two.
    Spaces,
    /// The character has no meaning in the board field, or leads off the board.
    BoardCharacter(char),
    /// The second field is neither `w` nor `b`.
    ActiveColor,
    /// The character has no meaning in the field of the castling rights.
    CastlingCharacter(char),
    /// The fourth field is neither `-` nor a square.
    EnPassant,
    /// The fifth field is no number up to 255.
    HalfmoveClock,
    /// The sixth field is no number up to 255.
    MoveClock,
}

impl FenError {
    /// The diagnostic in words.
    pub open spec fn text(self) -> Seq<char> {
        match self {
            FenError::Spaces => "Invalid amount of spaces"@,
            FenError::BoardCharacter(c) => "Invalid character "@.push(c) + " in board"@,
            FenError::ActiveColor => "Invalid active color"@,
            FenError::CastlingCharacter(c) => "Invalid character "@.push(c) + " in castling rights"@,
            FenError::EnPassant => "Invalid en passant target"@,
            FenError::HalfmoveClock => "Invalid halfmove clock"@,
            FenError::MoveClock => "Invalid move clock"@,
        }
    }

    /// The diagnostic in words.
    pub fn to_string(&self) -> (s: String)
        ensures
            s@ == self.text(),
    {
        match self {
            FenError::Spaces => String::from_str("Invalid amount of spaces"),
            FenError::BoardCharacter(c) => {
                let mut s = String::from_str("Invalid character ");
                push_char(&mut s, *c);
                s.append(" in board");
                s
            },
            FenError::ActiveColor => String::from_str("Invalid active color"),
            FenError::CastlingCharacter(c) => {
                let mut s = String::from_str("Invalid character ");
                push_char(&mut s, *c);
                s.append(" in castling rights");
                s
            },
            FenError::EnPassant => String::from_str("Invalid en passant target"),
            FenError::HalfmoveClock => String::from_str("Invalid halfmove clock"),
            FenError::MoveClock => String::from_str("Invalid move clock"),
        }
    }
}

/// The place of the first space of `s` at or after `from`; the length of `s` if
/// there is none.
pub open spec fn first_space(s: Seq<char>, from: int) -> int
    decreases s.len() - from,
{
    if from >= s.len() {
        s.len() as int
    } else if s[from] == ' ' {
        from
    } else {
        first_space(s, from + 1)
    }
}

/// Where field `k` of `s` starts, the fields being what the spaces part: past
/// the end of `s` if there is no such field.
pub open spec fn field_start(s: Seq<char>, k: int) -> int
    decreases k, 0int,
{
    if k <= 0 {
        0
    } else {
        field_end(s, k - 1) + 1
    }
}

/// Where field `k` of `s` ends: at the next space, or at the end of `s`.
pub open spec fn field_end(s: Seq<char>, k: int) -> int
    decreases k, 1int,
{
    if k < 0 {
        -1
    } else if field_start(s, k) > s.len() {
        field_start(s, k)
    } else {
        first_space(s, field_start(s, k))
    }
}

/// Field `k` of `s`.
pub open spec fn field(s: Seq<char>, k: int) -> Seq<char> {
    s.subrange(field_start(s, k), field_end(s, k))
}

/// Whether `s` has exactly six fields.
pub open spec fn six_fields(s: Seq<char>) -> bool {
    field_end(s, 5) == s.len()
}

/// The piece that a letter of the board field stands for.
pub open spec fn piece_of_char(c: char) -> Option<Piece> {
    if c == 'r' {
        Some(Piece { c: PieceColor::Black, t: PieceType::Rook })
    } else if c == 'n' {
        Some(Piece { c: PieceColor::Black, t: PieceType::Knight })
    } else if c == 'b' {
        Some(Piece { c: PieceColor::Black, t: PieceType::Bishop })
    } else if c == 'q' {
        Some(Piece { c: PieceColor::Black, t: PieceType::Queen })
    } else if c == 'k' {
        Some(Piece { c: PieceColor::Black, t: PieceType::King })
    } else if c == 'p' {
        Some(Piece { c: PieceColor::Black, t: PieceType::Pawn })
    } else if c == 'R' {
        Some(Piece { c: PieceColor::White, t: PieceType::Rook })
    } else if c == 'N' {
        Some(Piece { c: PieceColor::White, t: PieceType::Knight })
    } else if c == 'B' {
        Some(Piece { c: PieceColor::White, t: PieceType::Bishop })
    } else if c == 'Q' {
        Some(Piece { c: PieceColor::White, t: PieceType::Queen })
    } else if c == 'K' {
        Some(Piece { c: PieceColor::White, t: PieceType::King })
    } else if c == 'P' {
        Some(Piece { c: PieceColor::White, t: PieceType::Pawn })
    } else {
        None
    }
}

/// The value of a decimal digit, if `c` is one.
pub open spec fn digit_of(c: char) -> Option<int> {
    if '0' <= c <= '9' {
        Some(c as int - '0' as int)
    } else {
        None
    }
}

/// A board that is being filled from the board field: the pieces put so far,
/// the square of the king put last for each colour, and the file and rank where
/// the next piece goes.
pub struct Placement {
    pub pieces: Seq<Option<Piece>>,
    pub king_pos: PieceColorArray<u8>,
    pub file: int,
    pub rank: int,
}

/// The empty board, before the first character: the next piece goes to the
/// first file of the eighth rank.
pub open spec fn empty_placement() -> Placement {
    Placement {
        pieces: Seq::new(64, |i: int| None),
        king_pos: PieceColorArray { white: 0, black: 0 },
        file: 0,
        rank: 7,
    }
}

/// The placement after one more character of the board field: a letter puts
/// its piece and moves on by one file, a digit from 1 to 8 moves on by as many
/// files, a slash goes to the first file of the rank below. `None` if the
/// character is none of these or leads off the board.
pub open spec fn place_char(p: Placement, c: char) -> Option<Placement> {
    if c == '/' {
        if p.rank > 0 {
            Some(Placement { file: 0, rank: p.rank - 1, ..p })
        } else {
            None
        }
    } else if '1' <= c <= '8' {
        if p.file + digit_of(c)->0 <= 8 {
            Some(Placement { file: p.file + digit_of(c)->0, ..p })
        } else {
            None
        }
    } else {
        match piece_of_char(c) {
            Some(piece) => if p.file < 8 {
                let square = 8 * p.rank + p.file;
                Some(
                    Placement {
                        pieces: p.pieces.update(square, Some(piece)),
                        king_pos: if piece.t == PieceType::King {
                            p.king_pos.with(piece.c, square as u8)
                        } else {
                            p.king_pos
                        },
                        file: p.file + 1,
                        rank: p.rank,
                    },
                )
            } else {
                None
            },
            None => None,
        }
    }
}

/// The placement after the first `n` characters of the board field, or the
/// first character that `place_char` refuses.
pub open spec fn placement(board: Seq<char>, n: int) -> Result<Placement, char>
    decreases n,
{
    if n <= 0 {
        Ok(empty_placement())
    } else {
        match placement(board, n - 1) {
            Ok(p) => match place_char(p, board[n - 1]) {
                Some(q) => Ok(q),
                None => Err(board[n - 1]),
            },
            Err(c) => Err(c),
        }
    }
}

/// Whether a king of colour `c` stands on the board.
pub open spec fn has_king(pieces: Seq<Option<Piece>>, c: PieceColor) -> bool {
    exists|i: int| 0 <= i < 64 && #[trigger] pieces[i] == Some(Piece { c, t: PieceType::King })
}

/// Whether `square` lies where a placement has still to come: on the rank of
/// the next piece at or after its file, or on a rank below.
pub open spec fn to_come(p: Placement, square: int) -> bool {
    square / 8 < p.rank || (square / 8 == p.rank && square % 8 >= p.file)
}

/// While the board field is read, no square is filled twice, and the king's
/// square held for a colour is that of a king of the colour as soon as one has
/// been put.
pub proof fn lemma_placement_kings(board: Seq<char>, n: int)
    requires
        0 <= n,
        placement(board, n) is Ok,
    ensures
        ({
            let p = placement(board, n)->Ok_0;
            &&& p.pieces.len() == 64
            &&& 0 <= p.file <= 8
            &&& 0 <= p.rank <= 7
            &&& p.king_pos.white < 64
            &&& p.king_pos.black < 64
            &&& forall|i: int| 0 <= i < 64 && to_come(p, i) ==> (#[trigger] p.pieces[i]) is None
            &&& has_king(p.pieces, PieceColor::White) ==> p.pieces[p.king_pos.white as int] == Some(
                Piece { c: PieceColor::White, t: PieceType::King },
            )
            &&& has_king(p.pieces, PieceColor::Black) ==> p.pieces[p.king_pos.black as int] == Some(
                Piece { c: PieceColor::Black, t: PieceType::King },
            )
        }),
    decreases n,
{
    if n > 0 {
        lemma_placement_kings(board, n - 1);
        let before = placement(board, n - 1)->Ok_0;
        let after = placement(board, n)->Ok_0;
        let c = board[n - 1];
        if c != '/' && !('1' <= c <= '8') {
            let piece = piece_of_char(c)->0;
            let square = 8 * before.rank + before.file;
            assert(to_come(before, square));
            assert forall|i: int| 0 <= i < 64 && to_come(after, i) implies (
            #[trigger] after.pieces[i]) is None by {
                assert(to_come(before, i));
            }
            assert forall|colour: PieceColor| has_king(after.pieces, colour) implies after.pieces[after.king_pos.at(
                colour,
            ) as int] == Some(Piece { c: colour, t: PieceType::King }) by {
                let king = Some(Piece { c: colour, t: PieceType::King });
                let i = choose|i: int| 0 <= i < 64 && #[trigger] after.pieces[i] == king;
                if Some(piece) == king {
                    assert(after.king_pos.at(colour) == square);
                } else {
                    assert(i != square);
                    assert(before.pieces[i] == king);
                    assert(has_king(before.pieces, colour));
                    let held = before.king_pos.at(colour) as int;
                    assert(before.pieces[square] is None);
                    assert(held != square);
                    assert(after.king_pos.at(colour) == held);
                }
            }
            assert(has_king(after.pieces, PieceColor::White) ==> after.pieces[after.king_pos.at(
                PieceColor::White,
            ) as int] == Some(Piece { c: PieceColor::White, t: PieceType::King }));
            assert(has_king(after.pieces, PieceColor::Black) ==> after.pieces[after.king_pos.at(
                PieceColor::Black,
            ) as int] == Some(Piece { c: PieceColor::Black, t: PieceType::King }));
        } else {
            assert forall|i: int| 0 <= i < 64 && to_come(after, i) implies (
            #[trigger] after.pieces[i]) is None by {
                assert(to_come(before, i));
            }
        }
    } else {
        assert(!has_king(empty_placement().pieces, PieceColor::White));
        assert(!has_king(empty_placement().pieces, PieceColor::Black));
    }
}

/// The side to move that the second field names.
pub open spec fn active_color(f: Seq<char>) -> Option<PieceColor> {
    if f == seq!['w'] {
        Some(PieceColor::White)
    } else if f == seq!['b'] {
        Some(PieceColor::Black)
    } else {
        None
    }
}

/// The castling rights read so far: those on the queen's side, those on the
/// king's side, and whether a `-` has ended the reading.
pub struct RightsRead {
    pub queen: PieceColorArray<bool>,
    pub king: PieceColorArray<bool>,
    pub ended: bool,
}

/// The rights after the first `n` characters of the third field, or the first
/// character that is none of `K`, `Q`, `k`, `q` and `-`. Nothing after a `-` is
/// read.
pub open spec fn rights_read(f: Seq<char>, n: int) -> Result<RightsRead, char>
    decreases n,
{
    if n <= 0 {
        Ok(
            RightsRead {
                queen: PieceColorArray { white: false, black: false },
                king: PieceColorArray { white: false, black: false },
                ended: false,
            },
        )
    } else {
        match rights_read(f, n - 1) {
            Ok(r) => {
                let c = f[n - 1];
                if r.ended {
                    Ok(r)
                } else if c == '-' {
                    Ok(RightsRead { ended: true, ..r })
                } else if c == 'K' {
                    Ok(RightsRead { king: r.king.with(PieceColor::White, true), ..r })
                } else if c == 'Q' {
                    Ok(RightsRead { queen: r.queen.with(PieceColor::White, true), ..r })
                } else if c == 'k' {
                    Ok(RightsRead { king: r.king.with(PieceColor::Black, true), ..r })
                } else if c == 'q' {
                    Ok(RightsRead { queen: r.queen.with(PieceColor::Black, true), ..r })
                } else {
                    Err(c)
                }
            },
            Err(c) => Err(c),
        }
    }
}

/// The en-passant target that the fourth field names: none for `-`, the square
/// for a file letter and a rank digit. `Err` for anything else.
pub open spec fn target_named(f: Seq<char>) -> Result<Option<u8>, ()> {
    if f == seq!['-'] {
        Ok(None)
    } else if f.len() == 2 && 'a' <= f[0] <= 'h' && '1' <= f[1] <= '8' {
        Ok(Some((8 * (f[1] as int - '1' as int) + (f[0] as int - 'a' as int)) as u8))
    } else {
        Err(())
    }
}

/// The number that the first `n` digits of `f` from `from` on write.
pub open spec fn digits_value(f: Seq<char>, from: int, n: int) -> int
    decreases n,
{
    if n <= 0 {
        0
    } else {
        10 * digits_value(f, from, n - 1) + digit_of(f[from + n - 1])->0
    }
}

/// Whether the characters of `f` from `from` on are digits, and at least one.
pub open spec fn all_digits(f: Seq<char>, from: int) -> bool {
    from < f.len() && forall|i: int| from <= i < f.len() ==> digit_of(#[trigger] f[i]) is Some
}

/// The number up to 255 that a clock field writes: digits, with or without a
/// `+` before them.
pub open spec fn clock_value(f: Seq<char>) -> Option<u8> {
    let from: int = if f.len() > 0 && f[0] == '+' {
        1
    } else {
        0
    };
    if all_digits(f, from) && digits_value(f, from, f.len() - from) <= 255 {
        Some(digits_value(f, from, f.len() - from) as u8)
    } else {
        None
    }
}

/// What the six fields say, before it is made a state.
pub struct FenFields {
    pub pieces: Seq<Option<Piece>>,
    pub king_pos: PieceColorArray<u8>,
    pub turn: PieceColor,
    pub queen_castle: PieceColorArray<bool>,
    pub king_castle: PieceColorArray<bool>,
    pub en_passant_target: Option<u8>,
    pub halfmove_clock: u8,
    pub move_clock: u8,
}

/// The six fields of `s` read one after the other, or the first that is at fault.
pub open spec fn fen_fields(s: Seq<char>) -> Result<FenFields, FenError> {
    if !six_fields(s) {
        Err(FenError::Spaces)
    } else {
        match placement(field(s, 0), field(s, 0).len() as int) {
            Err(c) => Err(FenError::BoardCharacter(c)),
            Ok(p) => match active_color(field(s, 1)) {
                None => Err(FenError::ActiveColor),
                Some(turn) => match rights_read(field(s, 2), field(s, 2).len() as int) {
                    Err(c) => Err(FenError::CastlingCharacter(c)),
                    Ok(rights) => match target_named(field(s, 3)) {
                        Err(_) => Err(FenError::EnPassant),
                        Ok(en_passant_target) => match clock_value(field(s, 4)) {
                            None => Err(FenError::HalfmoveClock),
                            Some(halfmove_clock) => match clock_value(field(s, 5)) {
                                None => Err(FenError::MoveClock),
                                Some(move_clock) => Ok(
                                    FenFields {
                                        pieces: p.pieces,
                                        king_pos: p.king_pos,
                                        turn,
                                        queen_castle: rights.queen,
                                        king_castle: rights.king,
                                        en_passant_target,
                                        halfmove_clock,
                                        move_clock,
                                    },
                                ),
                            },
                        },
                    },
                },
            },
        }
    }
}

/// The state that the fields describe, with the keys `zobrist`. A castling
/// right is granted only where king and rook stand on their home squares, and
/// the en-passant target is kept only where it can be captured to. The hash is
/// that of the position, the check flags say whether each king's square is
/// attacked, and nothing stands on the undo stack. The position counts as having
/// occurred twice: what came before it is not known, and so a first return to
/// it is taken for the third occurrence.
pub open spec fn state_of(f: FenFields, zobrist: Zobrist) -> ChessStateView {
    let placed = ChessStateView {
        pieces: f.pieces,
        turn: f.turn,
        king_castle: f.king_castle,
        queen_castle: f.queen_castle,
        en_passant_target: None,
        halfmove_clock: f.halfmove_clock as u128,
        move_clock: f.move_clock as u128,
        check: PieceColorArray {
            white: attacked(f.pieces, f.king_pos.white, PieceColor::Black),
            black: attacked(f.pieces, f.king_pos.black, PieceColor::White),
        },
        king_pos: f.king_pos,
        hash: 0,
        unmove_stack: Seq::empty(),
        position_counter: Map::empty(),
        is_draw_by_repetition: false,
        zobrist,
    };
    let backed = ChessStateView {
        queen_castle: PieceColorArray {
            white: f.queen_castle.white && home(f.pieces, PieceColor::White, 0),
            black: f.queen_castle.black && home(f.pieces, PieceColor::Black, 0),
        },
        king_castle: PieceColorArray {
            white: f.king_castle.white && home(f.pieces, PieceColor::White, 7),
            black: f.king_castle.black && home(f.pieces, PieceColor::Black, 7),
        },
        en_passant_target: if f.en_passant_target is Some && placed.can_capture_to(
            f.en_passant_target->0,
        ) {
            f.en_passant_target
        } else {
            None
        },
        ..placed
    };
    ChessStateView {
        hash: backed.full_hash(),
        position_counter: Map::empty().insert(backed.full_hash(), 2u128),
        ..backed
    }
}

/// The type of the piece that starts the game on file `f` of the back rank.
pub open spec fn back_rank_type(f: int) -> PieceType {
    if f == 0 || f == 7 {
        PieceType::Rook
    } else if f == 1 || f == 6 {
        PieceType::Knight
    } else if f == 2 || f == 5 {
        PieceType::Bishop
    } else if f == 3 {
        PieceType::Queen
    } else {
        PieceType::King
    }
}

/// What stands on `square` when the game starts.
pub open spec fn start_cell(square: int) -> Option<Piece> {
    if square / 8 == 0 {
        Some(Piece { c: PieceColor::White, t: back_rank_type(square % 8) })
    } else if square / 8 == 1 {
        Some(Piece { c: PieceColor::White, t: PieceType::Pawn })
    } else if square / 8 == 6 {
        Some(Piece { c: PieceColor::Black, t: PieceType::Pawn })
    } else if square / 8 == 7 {
        Some(Piece { c: PieceColor::Black, t: back_rank_type(square % 8) })
    } else {
        None
    }
}

/// What the fields of the position say in which the game starts.
pub open spec fn start_fields() -> FenFields {
    FenFields {
        pieces: Seq::new(64, |i: int| start_cell(i)),
        king_pos: PieceColorArray { white: 4, black: 60 },
        turn: PieceColor::White,
        queen_castle: PieceColorArray { white: true, black: true },
        king_castle: PieceColorArray { white: true, black: true },
        en_passant_target: None,
        halfmove_clock: 0,
        move_clock: 1,
    }
}

/// Whether the king of `c` stands on its home square and a rook of `c` in the
/// corner of file `rook_file`.
pub open spec fn home(pieces: Seq<Option<Piece>>, c: PieceColor, rook_file: int) -> bool {
    let o = c.back_rank() as int;
    pieces[o + 4] == Some(Piece { c, t: PieceType::King }) && pieces[o + rook_file] == Some(
        Piece { c, t: PieceType::Rook },
    )
}

/// The state that a text in Forsyth-Edwards notation describes, or why it
/// describes none.
pub open spec fn parse_fen(s: Seq<char>, zobrist: Zobrist) -> Result<ChessStateView, FenError> {
    match fen_fields(s) {
        Ok(f) => Ok(state_of(f, zobrist)),
        Err(e) => Err(e),
    }
}

/// In the state that a text describes, the king's square held for each colour
/// is that of a king of the colour, if the text puts a king of each colour on
/// the board.
pub proof fn lemma_fen_kings(s: Seq<char>, zobrist: Zobrist)
    requires
        parse_fen(s, zobrist) is Ok,
        has_king(parse_fen(s, zobrist)->Ok_0.pieces, PieceColor::White),
        has_king(parse_fen(s, zobrist)->Ok_0.pieces, PieceColor::Black),
    ensures
        parse_fen(s, zobrist)->Ok_0.kings_placed(),
{
    lemma_placement_kings(field(s, 0), field(s, 0).len() as int);
}

/// The place of the first space of `fen` at or after `from`.
fn next_space(fen: &str, len: usize, from: usize) -> (r: usize)
    requires
        len == fen@.len(),
        from <= len,
    ensures
        r == first_space(fen@, from as int),
        from <= r <= len,
{
    let mut i = from;
    while i < len && fen.get_char(i) != ' '
        invariant
            len == fen@.len(),
            from <= i <= len,
            first_space(fen@, from as int) == first_space(fen@, i as int),
        decreases len - i,
    {
        i += 1;
    }
    i
}

/// The piece that a letter of the board field stands for.
fn piece_of(c: char) -> (r: Option<Piece>)
    ensures
        r == piece_of_char(c),
{
    match c {
        'r' => Some(Piece { c: PieceColor::Black, t: PieceType::Rook }),
        'n' => Some(Piece { c: PieceColor::Black, t: PieceType::Knight }),
        'b' => Some(Piece { c: PieceColor::Black, t: PieceType::Bishop }),
        'q' => Some(Piece { c: PieceColor::Black, t: PieceType::Queen }),
        'k' => Some(Piece { c: PieceColor::Black, t: PieceType::King }),
        'p' => Some(Piece { c: PieceColor::Black, t: PieceType::Pawn }),
        'R' => Some(Piece { c: PieceColor::White, t: PieceType::Rook }),
        'N' => Some(Piece { c: PieceColor::White, t: PieceType::Knight }),
        'B' => Some(Piece { c: PieceColor::White, t: PieceType::Bishop }),
        'Q' => Some(Piece { c: PieceColor::White, t: PieceType::Queen }),
        'K' => Some(Piece { c: PieceColor::White, t: PieceType::King }),
        'P' => Some(Piece { c: PieceColor::White, t: PieceType::Pawn }),
        _ => None,
    }
}

/// The value of a decimal digit.
fn digit(c: char) -> (r: Option<u8>)
    ensures
        match r {
            Some(d) => digit_of(c) == Some(d as int),
            None => digit_of(c) is None,
        },
{
    match c {
        '0' => Some(0),
        '1' => Some(1),
        '2' => Some(2),
        '3' => Some(3),
        '4' => Some(4),
        '5' => Some(5),
        '6' => Some(6),
        '7' => Some(7),
        '8' => Some(8),
        '9' => Some(9),
        _ => None,
    }
}

/// The place of a file letter among `a` to `h`.
fn file_of(c: char) -> (r: Option<u8>)
    ensures
        match r {
            Some(f) => 'a' <= c <= 'h' && f == c as int - 'a' as int,
            None => !('a' <= c <= 'h'),
        },
{
    match c {
        'a' => Some(0),
        'b' => Some(1),
        'c' => Some(2),
        'd' => Some(3),
        'e' => Some(4),
        'f' => Some(5),
        'g' => Some(6),
        'h' => Some(7),
        _ => None,
    }
}

/// Reads the board field, which stands in `fen` from `start` to `end`.
fn read_board(fen: &str, start: usize, end: usize) -> (r: Result<
    ([Option<Piece>; 64], PieceColorArray<u8>),
    char,
>)
    requires
        start <= end <= fen@.len(),
    ensures
        match placement(fen@.subrange(start as int, end as int), end - start) {
            Ok(p) => r is Ok && r->Ok_0.0@ == p.pieces && r->Ok_0.1 == p.king_pos
                && p.king_pos.white < 64 && p.king_pos.black < 64,
            Err(c) => r == Err::<([Option<Piece>; 64], PieceColorArray<u8>), char>(c),
        },
{
    let ghost board = fen@.subrange(start as int, end as int);
    let mut pieces: [Option<Piece>; 64] = [None; 64];
    let mut king_pos = PieceColorArray { white: 0u8, black: 0u8 };
    let mut f: u8 = 0;
    let mut r: u8 = 7;
    let mut i = start;
    assert(pieces@ =~= empty_placement().pieces);
    while i < end
        invariant
            start <= i <= end <= fen@.len(),
            board == fen@.subrange(start as int, end as int),
            f <= 8,
            r <= 7,
            king_pos.white < 64,
            king_pos.black < 64,
            placement(board, i - start) == Ok::<Placement, char>(
                Placement { pieces: pieces@, king_pos, file: f as int, rank: r as int },
            ),
        decreases end - i,
    {
        let c = fen.get_char(i);
        assert(board[i - start] == c);
        let ghost before = Placement { pieces: pieces@, king_pos, file: f as int, rank: r as int };
        proof {
            if place_char(before, c) is None {
                lemma_placement_fails(board, i - start + 1, end - start);
            }
        }
        if c == '/' {
            if r == 0 {
                return Err(c);
            }
            r -= 1;
            f = 0;
        } else if c >= '1' && c <= '8' {
            let d = match digit(c) {
                Some(d) => d,
                None => {
                    return Err(c);
                },
            };
            if f + d > 8 {
                return Err(c);
            }
            f += d;
        } else {
            let piece = match piece_of(c) {
                Some(p) => p,
                None => {
                    return Err(c);
                },
            };
            if f >= 8 {
                return Err(c);
            }
            let square = si(f, r);
            pieces[square as usize] = Some(piece);
            if piece.t == PieceType::King {
                king_pos.set(piece.c, square);
            }
            f += 1;
        }
        assert(place_char(before, c) == Some(
            Placement { pieces: pieces@, king_pos, file: f as int, rank: r as int },
        ));
        i += 1;
    }
    Ok((pieces, king_pos))
}

/// Once a character has been refused, the reading has failed for good.
proof fn lemma_placement_fails(board: Seq<char>, n: int, m: int)
    requires
        0 <= n <= m,
        placement(board, n) is Err,
    ensures
        placement(board, m) == placement(board, n),
    decreases m - n,
{
    if n < m {
        lemma_placement_fails(board, n, m - 1);
    }
}

/// Reads the field of the side to move.
fn read_color(fen: &str, start: usize, end: usize) -> (r: Option<PieceColor>)
    requires
        start <= end <= fen@.len(),
    ensures
        r == active_color(fen@.subrange(start as int, end as int)),
{
    let ghost f = fen@.subrange(start as int, end as int);
    assert(seq!['w'].len() == 1 && seq!['b'].len() == 1);
    assert(seq!['w'][0] == 'w' && seq!['b'][0] == 'b');
    if end - start != 1 {
        return None;
    }
    let c = fen.get_char(start);
    assert(f[0] == c);
    if c == 'w' {
        assert(f =~= seq!['w']);
        Some(PieceColor::White)
    } else if c == 'b' {
        assert(f =~= seq!['b']);
        Some(PieceColor::Black)
    } else {
        None
    }
}

/// Reads the field of the castling rights.
fn read_rights(fen: &str, start: usize, end: usize) -> (r: Result<
    (PieceColorArray<bool>, PieceColorArray<bool>),
    char,
>)
    requires
        start <= end <= fen@.len(),
    ensures
        match rights_read(fen@.subrange(start as int, end as int), end - start) {
            Ok(rights) => r == Ok::<(PieceColorArray<bool>, PieceColorArray<bool>), char>(
                (rights.queen, rights.king),
            ),
            Err(c) => r == Err::<(PieceColorArray<bool>, PieceColorArray<bool>), char>(c),
        },
{
    let ghost f = fen@.subrange(start as int, end as int);
    let mut queen = PieceColorArray { white: false, black: false };
    let mut king = PieceColorArray { white: false, black: false };
    let mut ended = false;
    let mut i = start;
    while i < end
        invariant
            start <= i <= end <= fen@.len(),
            f == fen@.subrange(start as int, end as int),
            rights_read(f, i - start) == Ok::<RightsRead, char>(RightsRead { queen, king, ended }),
        decreases end - i,
    {
        let c = fen.get_char(i);
        assert(f[i - start] == c);
        proof {
            if rights_read(f, i - start + 1) is Err {
                lemma_rights_fail(f, i - start + 1, end - start);
            }
        }
        if !ended {
            match c {
                '-' => {
                    ended = true;
                },
                'K' => {
                    king.set(PieceColor::White, true);
                },
                'Q' => {
                    queen.set(PieceColor::White, true);
                },
                'k' => {
                    king.set(PieceColor::Black, true);
                },
                'q' => {
                    queen.set(PieceColor::Black, true);
                },
                _ => {
                    return Err(c);
                },
            }
        }
        i += 1;
    }
    Ok((queen, king))
}

/// Once a character has been refused, the reading has failed for good.
proof fn lemma_rights_fail(f: Seq<char>, n: int, m: int)
    requires
        0 <= n <= m,
        rights_read(f, n) is Err,
    ensures
        rights_read(f, m) == rights_read(f, n),
    decreases m - n,
{
    if n < m {
        lemma_rights_fail(f, n, m - 1);
    }
}

/// Reads the field of the en-passant target.
fn read_target(fen: &str, start: usize, end: usize) -> (r: Result<Option<u8>, ()>)
    requires
        start <= end <= fen@.len(),
    ensures
        r == target_named(fen@.subrange(start as int, end as int)),
        r is Ok && r->Ok_0 is Some ==> r->Ok_0->0 < 64,
{
    let ghost f = fen@.subrange(start as int, end as int);
    assert(seq!['-'].len() == 1 && seq!['-'][0] == '-');
    if end - start == 1 {
        let c = fen.get_char(start);
        assert(f[0] == c);
        if c == '-' {
            assert(f =~= seq!['-']);
            return Ok(None);
        }
        return Err(());
    }
    if end - start != 2 {
        return Err(());
    }
    let c0 = fen.get_char(start);
    let c1 = fen.get_char(start + 1);
    assert(f[0] == c0 && f[1] == c1);
    let file = match file_of(c0) {
        Some(file) => file,
        None => {
            return Err(());
        },
    };
    if c1 >= '1' && c1 <= '8' {
        match digit(c1) {
            Some(d) => Ok(Some(si(file, d - 1))),
            None => Err(()),
        }
    } else {
        Err(())
    }
}

/// Reads a clock field.
fn read_clock(fen: &str, start: usize, end: usize) -> (r: Option<u8>)
    requires
        start <= end <= fen@.len(),
    ensures
        r == clock_value(fen@.subrange(start as int, end as int)),
{
    let ghost f = fen@.subrange(start as int, end as int);
    let mut from = start;
    if start < end && fen.get_char(start) == '+' {
        from = start + 1;
    }
    assert(start < end ==> f[0] == fen@[start as int]);
    let ghost skip = from - start;
    assert(skip == (if f.len() > 0 && f[0] == '+' {
        1int
    } else {
        0int
    }));
    if from >= end {
        return None;
    }
    let mut value: u8 = 0;
    let mut i = from;
    while i < end
        invariant
            from <= i <= end <= fen@.len(),
            start <= from,
            skip == from - start,
            skip == (if f.len() > 0 && f[0] == '+' {
                1int
            } else {
                0int
            }),
            f == fen@.subrange(start as int, end as int),
            forall|j: int| skip <= j < i - start ==> digit_of(#[trigger] f[j]) is Some,
            value == digits_value(f, skip, i - from),
        decreases end - i,
    {
        let c = fen.get_char(i);
        assert(f[i - start] == c);
        let d = match digit(c) {
            Some(d) => d,
            None => {
                assert(!all_digits(f, skip));
                return None;
            },
        };
        proof {
            if all_digits(f, skip) {
                lemma_digits_grow(f, skip, i - from + 1, end - from);
            }
        }
        if value > 25 || (value == 25 && d > 5) {
            return None;
        }
        value = value * 10 + d;
        i += 1;
    }
    Some(value)
}

/// More digits do not write a smaller number.
proof fn lemma_digits_grow(f: Seq<char>, from: int, n: int, m: int)
    requires
        0 <= n <= m,
        0 <= from,
        from + m <= f.len(),
        all_digits(f, from),
    ensures
        0 <= digits_value(f, from, n) <= digits_value(f, from, m),
    decreases m,
{
    if n < m {
        lemma_digits_grow(f, from, n, m - 1);
        assert(digit_of(f[from + m - 1]) is Some);
    } else if n > 0 {
        lemma_digits_grow(f, from, n - 1, m - 1);
        assert(digit_of(f[from + m - 1]) is Some);
    }
}

impl ChessState {
    /// Whether the en-passant target `t` can be captured to.
    fn target_open(&self, t: u8) -> (r: bool)
        requires
            t < 64,
        ensures
            r == self@.can_capture_to(t),
    {
        let (behind, rank): (u8, u8) = match self.turn {
            PieceColor::White => {
                if t < 8 {
                    return false;
                }
                (t - 8, 4)
            },
            PieceColor::Black => {
                if t >= 56 {
                    return false;
                }
                (t + 8, 3)
            },
        };
        let pawn = Piece { c: self.turn, t: PieceType::Pawn };
        let theirs = Piece { c: self.turn.opposite(), t: PieceType::Pawn };
        behind / 8 == rank && self.pieces[t as usize].is_none() && (match self.pieces[behind as usize] {
            Some(p) => p.c == theirs.c && p.t == theirs.t,
            None => false,
        }) && (self.finds_piece(behind, -1, pawn) || self.finds_piece(behind, 1, pawn))
    }

    /// Whether the king of `c` stands on its home square and a rook of `c` in
    /// the corner of file `rook_file`.
    fn at_home(&self, c: PieceColor, rook_file: u8) -> (r: bool)
        requires
            rook_file < 8,
        ensures
            r == home(self.pieces@, c, rook_file as int),
    {
        let o = c.back_rank();
        (match self.pieces[(o + 4) as usize] {
            Some(p) => p.c == c && p.t == PieceType::King,
            None => false,
        }) && (match self.pieces[(o + rook_file) as usize] {
            Some(p) => p.c == c && p.t == PieceType::Rook,
            None => false,
        })
    }

    /// Makes a state of what the fields of a position say.
    fn assemble(
        pieces: [Option<Piece>; 64],
        king_pos: PieceColorArray<u8>,
        turn: PieceColor,
        queen_castle: PieceColorArray<bool>,
        king_castle: PieceColorArray<bool>,
        en_passant_target: Option<u8>,
        halfmove_clock: u8,
        move_clock: u8,
        zobrist: &Arc<Zobrist>,
    ) -> (s: ChessState)
        requires
            zobrist.wf(),
            king_pos.white < 64,
            king_pos.black < 64,
            en_passant_target is Some ==> en_passant_target->0 < 64,
        ensures
            s@ == state_of(
                FenFields {
                    pieces: pieces@,
                    king_pos,
                    turn,
                    queen_castle,
                    king_castle,
                    en_passant_target,
                    halfmove_clock,
                    move_clock,
                },
                **zobrist,
            ),
            s@.wf(),
    {
        let mut s = ChessState {
            pieces,
            turn,
            king_castle,
            queen_castle,
            en_passant_target: None,
            halfmove_clock: halfmove_clock as u128,
            move_clock: move_clock as u128,
            check: PieceColorArray { white: false, black: false },
            king_pos,
            hash: 0,
            unmove_stack: Vec::new(),
            position_counter: HashMap::new(),
            is_draw_by_repetition: false,
            zobrist: zobrist.clone(),
        };
        let ghost fields = FenFields {
            pieces: pieces@,
            king_pos,
            turn,
            queen_castle,
            king_castle,
            en_passant_target,
            halfmove_clock,
            move_clock,
        };
        // A right to castle needs king and rook at home
        s.queen_castle = PieceColorArray {
            white: queen_castle.white && s.at_home(PieceColor::White, 0),
            black: queen_castle.black && s.at_home(PieceColor::Black, 0),
        };
        s.king_castle = PieceColorArray {
            white: king_castle.white && s.at_home(PieceColor::White, 7),
            black: king_castle.black && s.at_home(PieceColor::Black, 7),
        };
        // Check if en passant is possible
        if let Some(t) = en_passant_target {
            if s.target_open(t) {
                s.en_passant_target = en_passant_target;
            }
        }
        s.update_check();
        s.hash = Zobrist::calc_hash(&s);
        s.position_counter.insert(s.hash, 2);
        assert(s@.position_counter =~= Map::<u64, u128>::empty().insert(s.hash, 2u128));
        assert(s@.unmove_stack =~= Seq::<super::make_move::Unmove>::empty());
        assert(s@ == state_of(fields, **zobrist));
        assert(s@.inv());
        s
    }

    /// The state in which the game starts, with the keys `zobrist`.
    pub fn new(zobrist: &Arc<Zobrist>) -> (s: ChessState)
        requires
            zobrist.wf(),
        ensures
            s@ == state_of(start_fields(), **zobrist),
            s@.wf(),
    {
        let mut pieces: [Option<Piece>; 64] = [None; 64];
        let mut f: u8 = 0;
        while f < 8
            invariant
                f <= 8,
                forall|i: int|
                    0 <= i < 64 ==> pieces@[i] == if i % 8 < f {
                        start_cell(i)
                    } else {
                        None
                    },
            decreases 8 - f,
        {
            let t = match f {
                0 | 7 => PieceType::Rook,
                1 | 6 => PieceType::Knight,
                2 | 5 => PieceType::Bishop,
                3 => PieceType::Queen,
                _ => PieceType::King,
            };
            pieces[f as usize] = Some(Piece { c: PieceColor::White, t });
            pieces[(8 + f) as usize] = Some(Piece { c: PieceColor::White, t: PieceType::Pawn });
            pieces[(48 + f) as usize] = Some(Piece { c: PieceColor::Black, t: PieceType::Pawn });
            pieces[(56 + f) as usize] = Some(Piece { c: PieceColor::Black, t });
            f += 1;
        }
        assert(pieces@ =~= start_fields().pieces);
        ChessState::assemble(
            pieces,
            PieceColorArray { white: 4, black: 60 },
            PieceColor::White,
            PieceColorArray { white: true, black: true },
            PieceColorArray { white: true, black: true },
            None,
            0,
            1,
            zobrist,
        )
    }

    /// The state that `fen` describes, or the field that is at fault.
    pub fn parse(fen: &str, zobrist: &Arc<Zobrist>) -> (r: Result<ChessState, FenError>)
        requires
            zobrist.wf(),
        ensures
            match parse_fen(fen@, **zobrist) {
                Ok(v) => r is Ok && r->Ok_0@ == v && v.wf(),
                Err(e) => r is Err && r->Err_0 == e,
            },
    {
        let n = fen.unicode_len();
        let ghost s = fen@;
        assert(field_start(s, 0) == 0);
        let e0 = next_space(fen, n, 0);
        assert(field_end(s, 0) == e0);
        assert(field_start(s, 1) == e0 + 1);
        if e0 >= n {
            proof {
                lemma_no_more_fields(s, 1, 5);
            }
            return Err(FenError::Spaces);
        }
        let e1 = next_space(fen, n, e0 + 1);
        assert(field_end(s, 1) == e1);
        assert(field_start(s, 2) == e1 + 1);
        if e1 >= n {
            proof {
                lemma_no_more_fields(s, 2, 5);
            }
            return Err(FenError::Spaces);
        }
        let e2 = next_space(fen, n, e1 + 1);
        assert(field_end(s, 2) == e2);
        assert(field_start(s, 3) == e2 + 1);
        if e2 >= n {
            proof {
                lemma_no_more_fields(s, 3, 5);
            }
            return Err(FenError::Spaces);
        }
        let e3 = next_space(fen, n, e2 + 1);
        assert(field_end(s, 3) == e3);
        assert(field_start(s, 4) == e3 + 1);
        if e3 >= n {
            proof {
                lemma_no_more_fields(s, 4, 5);
            }
            return Err(FenError::Spaces);
        }
        let e4 = next_space(fen, n, e3 + 1);
        assert(field_end(s, 4) == e4);
        assert(field_start(s, 5) == e4 + 1);
        if e4 >= n {
            proof {
                lemma_no_more_fields(s, 5, 5);
            }
            return Err(FenError::Spaces);
        }
        let e5 = next_space(fen, n, e4 + 1);
        assert(field_end(s, 5) == e5);
        if e5 != n {
            return Err(FenError::Spaces);
        }
        let (pieces, king_pos) = match read_board(fen, 0, e0) {
            Ok(p) => p,
            Err(c) => {
                return Err(FenError::BoardCharacter(c));
            },
        };
        let turn = match read_color(fen, e0 + 1, e1) {
            Some(turn) => turn,
            None => {
                return Err(FenError::ActiveColor);
            },
        };
        let (queen_castle, king_castle) = match read_rights(fen, e1 + 1, e2) {
            Ok(r) => r,
            Err(c) => {
                return Err(FenError::CastlingCharacter(c));
            },
        };
        let en_passant_target = match read_target(fen, e2 + 1, e3) {
            Ok(t) => t,
            Err(_) => {
                return Err(FenError::EnPassant);
            },
        };
        let halfmove_clock = match read_clock(fen, e3 + 1, e4) {
            Some(x) => x,
            None => {
                return Err(FenError::HalfmoveClock);
            },
        };
        let move_clock = match read_clock(fen, e4 + 1, e5) {
            Some(x) => x,
            None => {
                return Err(FenError::MoveClock);
            },
        };
        Ok(
            ChessState::assemble(
                pieces,
                king_pos,
                turn,
                queen_castle,
                king_castle,
                en_passant_target,
                halfmove_clock,
                move_clock,
                zobrist,
            ),
        )
    }

    /// The state that `fen` describes, or a diagnostic in words.
    pub fn from_fen(fen: &str, zobrist: &Arc<Zobrist>) -> (r: Result<ChessState, String>)
        requires
            zobrist.wf(),
        ensures
            match parse_fen(fen@, **zobrist) {
                Ok(v) => r is Ok && r->Ok_0@ == v && v.wf(),
                Err(e) => r is Err && r->Err_0@ == e.text(),
            },
    {
        match ChessState::parse(fen, zobrist) {
            Ok(s) => Ok(s),
            Err(e) => Err(e.to_string()),
        }
    }
}

/// Where one field is missing, those after it are missing too.
proof fn lemma_no_more_fields(s: Seq<char>, k: int, m: int)
    requires
        1 <= k <= m,
        field_start(s, k) > s.len(),
    ensures
        field_end(s, m) > s.len(),
    decreases m - k,
{
    if k < m {
        lemma_no_more_fields(s, k, m - 1);
    }
}

} // verus!
