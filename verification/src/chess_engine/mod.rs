use self::display::move_text;
use self::gen_moves::Move;
use self::make_move::Unmove;
use self::zobrist::Zobrist;
use std::collections::HashMap;
use std::sync::Arc;
use vstd::prelude::*;
use vstd::string::*;

pub mod book;
pub mod display;
pub mod distinct;
pub mod fen;
pub mod gen_moves;
pub mod make_move;
pub mod perft;
pub mod search;
pub mod sort;
pub mod static_eval;
pub mod transposition_table;
pub mod zobrist;

verus! {

/// The 10x12 board: for each of its 120 cells the square that lies there, or -1
/// where the cell is off the 8x8 board.
pub const MAILBOX: [i8; 120] = [
    -1, -1, -1, -1, -1, -1, -1, -1, -1, -1,
    -1, -1, -1, -1, -1, -1, -1, -1, -1, -1,
    -1,  0,  1,  2,  3,  4,  5,  6,  7, -1,
    -1,  8,  9, 10, 11, 12, 13, 14, 15, -1,
    -1, 16, 17, 18, 19, 20, 21, 22, 23, -1,
    -1, 24, 25, 26, 27, 28, 29, 30, 31, -1,
    -1, 32, 33, 34, 35, 36, 37, 38, 39, -1,
    -1, 40, 41, 42, 43, 44, 45, 46, 47, -1,
    -1, 48, 49, 50, 51, 52, 53, 54, 55, -1,
    -1, 56, 57, 58, 59, 60, 61, 62, 63, -1,
    -1, -1, -1, -1, -1, -1, -1, -1, -1, -1,
    -1, -1, -1, -1, -1, -1, -1, -1, -1, -1,
];

/// For each square its cell on the 10x12 board.
pub const MAILBOX64: [u8; 64] = [
    21, 22, 23, 24, 25, 26, 27, 28,
    31, 32, 33, 34, 35, 36, 37, 38,
    41, 42, 43, 44, 45, 46, 47, 48,
    51, 52, 53, 54, 55, 56, 57, 58,
    61, 62, 63, 64, 65, 66, 67, 68,
    71, 72, 73, 74, 75, 76, 77, 78,
    81, 82, 83, 84, 85, 86, 87, 88,
    91, 92, 93, 94, 95, 96, 97, 98,
];

/// The cell of a square on the 10x12 board: two rows and one column of margin.
pub open spec fn cell_of(square: int) -> int {
    21 + 10 * (square / 8) + square % 8
}

/// The square that a cell of the 10x12 board holds, if it lies on the 8x8 board.
pub open spec fn square_of(cell: int) -> Option<u8> {
    if 1 <= cell % 10 <= 8 && 2 <= cell / 10 <= 9 {
        Some((8 * (cell / 10 - 2) + (cell % 10 - 1)) as u8)
    } else {
        None
    }
}

/// The square reached from `from` by one step of `offset` cells, if there is one.
pub open spec fn step(from: u8, offset: i8) -> Option<u8> {
    square_of(cell_of(from as int) + offset)
}

/// `MAILBOX64` holds for each square its cell.
pub proof fn lemma_mailbox64(square: int)
    requires
        0 <= square < 64,
    ensures
        MAILBOX64@[square] == cell_of(square),
{
}

/// `MAILBOX` holds for each cell its square, or -1 off the board.
pub proof fn lemma_mailbox(cell: int)
    requires
        0 <= cell < 120,
    ensures
        MAILBOX@[cell] < 64,
        match square_of(cell) {
            Some(s) => MAILBOX@[cell] == s,
            None => MAILBOX@[cell] == -1,
        },
{
}

/// The square reached from `from` by one step of `offset` cells on the 10x12
/// board, if the step does not lead off the 8x8 board.
pub fn with_offset(from: u8, offset: i8) -> (r: Option<u8>)
    requires
        from < 64,
        -21 <= offset <= 21,
    ensures
        r == step(from, offset),
        r is Some ==> r->0 < 64,
{
    proof {
        lemma_mailbox64(from as int);
    }
    let cell: i8 = MAILBOX64[from as usize] as i8 + offset;
    proof {
        lemma_mailbox(cell as int);
    }
    let to: i8 = MAILBOX[cell as usize];
    if to < 0 {
        None
    } else {
        Some(to as u8)
    }
}

/// The square of a file and a rank, both counted from 0.
pub fn si(f: u8, r: u8) -> (s: u8)
    requires
        f < 8,
        r < 8,
    ensures
        s == 8 * r + f,
        s < 64,
{
    8 * r + f
}

/// The file and the rank of a square, both counted from 0.
pub fn fr(si: u8) -> (p: (u8, u8))
    ensures
        p.0 == si % 8,
        p.1 == si / 8,
{
    assert(si & 7 == si % 8) by (bit_vector);
    assert(si >> 3 == si / 8) by (bit_vector);
    (si & 7, si >> 3)
}

/// The colour of a piece, and of the side that plays it.
#[derive(Clone, Copy, PartialEq, Eq, Structural, Debug, Hash)]
pub enum PieceColor {
    White,
    Black,
}

impl PieceColor {
    /// The other colour.
    pub open spec fn spec_opposite(&self) -> PieceColor {
        match self {
            PieceColor::White => PieceColor::Black,
            PieceColor::Black => PieceColor::White,
        }
    }

    /// The other colour.
    #[verifier::when_used_as_spec(spec_opposite)]
    pub fn opposite(&self) -> (r: PieceColor)
        ensures
            r == self.spec_opposite(),
    {
        match self {
            PieceColor::White => PieceColor::Black,
            PieceColor::Black => PieceColor::White,
        }
    }

    /// 0 for White, 1 for Black.
    pub open spec fn index(self) -> int {
        match self {
            PieceColor::White => 0,
            PieceColor::Black => 1,
        }
    }

    /// The first square of the colour's back rank.
    pub open spec fn spec_back_rank(&self) -> u8 {
        match self {
            PieceColor::White => 0,
            PieceColor::Black => 56,
        }
    }

    /// The first square of the colour's back rank.
    #[verifier::when_used_as_spec(spec_back_rank)]
    pub fn back_rank(&self) -> (r: u8)
        ensures
            r == self.spec_back_rank(),
    {
        match self {
            PieceColor::White => 0,
            PieceColor::Black => 56,
        }
    }
}

/// The type of a piece.
#[derive(Clone, Copy, PartialEq, Eq, Structural, Debug)]
pub enum PieceType {
    Rook,
    Knight,
    Bishop,
    Queen,
    King,
    Pawn,
}

impl PieceType {
    /// The place of the type in the order Rook, Knight, Bishop, Queen, King, Pawn.
    pub fn as_index(&self) -> (i: usize)
        ensures
            i == self.index(),
    {
        match self {
            PieceType::Rook => 0,
            PieceType::Knight => 1,
            PieceType::Bishop => 2,
            PieceType::Queen => 3,
            PieceType::King => 4,
            PieceType::Pawn => 5,
        }
    }

    /// The place of the type in the order Rook, Knight, Bishop, Queen, King, Pawn.
    pub open spec fn index(self) -> int {
        match self {
            PieceType::Rook => 0,
            PieceType::Knight => 1,
            PieceType::Bishop => 2,
            PieceType::Queen => 3,
            PieceType::King => 4,
            PieceType::Pawn => 5,
        }
    }
}

/// A piece: its colour and its type.
#[derive(Clone, Copy, PartialEq, Eq, Structural, Debug)]
pub struct Piece {
    pub c: PieceColor,
    pub t: PieceType,
}

/// A pair of values, one for each colour.
#[derive(Clone, Copy, PartialEq, Eq, Debug)]
pub struct PieceColorArray<T> {
    pub white: T,
    pub black: T,
}

impl<T> PieceColorArray<T> {
    /// The value for colour `c`.
    pub open spec fn at(self, c: PieceColor) -> T {
        match c {
            PieceColor::White => self.white,
            PieceColor::Black => self.black,
        }
    }

    /// The pair with `v` for colour `c` and the other value as it is.
    pub open spec fn with(self, c: PieceColor, v: T) -> PieceColorArray<T> {
        match c {
            PieceColor::White => PieceColorArray { white: v, black: self.black },
            PieceColor::Black => PieceColorArray { white: self.white, black: v },
        }
    }

    /// Puts `v` for colour `c`.
    pub fn set(&mut self, c: PieceColor, v: T)
        ensures
            *final(self) == old(self).with(c, v),
    {
        match c {
            PieceColor::White => {
                self.white = v;
            },
            PieceColor::Black => {
                self.black = v;
            },
        }
    }
}

impl<T: Copy> PieceColorArray<T> {
    /// The value for colour `c`.
    pub fn get(&self, c: PieceColor) -> (v: T)
        ensures
            v == self.at(c),
    {
        match c {
            PieceColor::White => self.white,
            PieceColor::Black => self.black,
        }
    }
}

/// A position with its history: the board, the clocks and rights, the hash, the
/// moves that led here and how often each position has occurred.
#[derive(Clone)]
pub struct ChessState {
    pub pieces: [Option<Piece>; 64],
    pub turn: PieceColor,
    pub king_castle: PieceColorArray<bool>,
    pub queen_castle: PieceColorArray<bool>,
    pub en_passant_target: Option<u8>,
    pub halfmove_clock: u128,
    pub move_clock: u128,
    pub check: PieceColorArray<bool>,
    pub king_pos: PieceColorArray<u8>,
    pub hash: u64,
    pub unmove_stack: Vec<Unmove>,
    pub position_counter: HashMap<u64, u128>,
    pub is_draw_by_repetition: bool,
    pub zobrist: Arc<Zobrist>,
}

/// A `ChessState` as a mathematical value.
pub struct ChessStateView {
    pub pieces: Seq<Option<Piece>>,
    pub turn: PieceColor,
    pub king_castle: PieceColorArray<bool>,
    pub queen_castle: PieceColorArray<bool>,
    pub en_passant_target: Option<u8>,
    pub halfmove_clock: u128,
    pub move_clock: u128,
    pub check: PieceColorArray<bool>,
    pub king_pos: PieceColorArray<u8>,
    pub hash: u64,
    pub unmove_stack: Seq<Unmove>,
    pub position_counter: Map<u64, u128>,
    pub is_draw_by_repetition: bool,
    pub zobrist: Zobrist,
}

impl View for ChessState {
    type V = ChessStateView;

    open spec fn view(&self) -> ChessStateView {
        ChessStateView {
            pieces: self.pieces@,
            turn: self.turn,
            king_castle: self.king_castle,
            queen_castle: self.queen_castle,
            en_passant_target: self.en_passant_target,
            halfmove_clock: self.halfmove_clock,
            move_clock: self.move_clock,
            check: self.check,
            king_pos: self.king_pos,
            hash: self.hash,
            unmove_stack: self.unmove_stack@,
            position_counter: self.position_counter@,
            is_draw_by_repetition: self.is_draw_by_repetition,
            zobrist: *self.zobrist,
        }
    }
}

/// Whether a step of `offset` can be taken from `from` at all: both in range.
pub open spec fn can_step(from: u8, offset: i8) -> bool {
    from < 64 && -21 <= offset <= 21 && offset != 0
}

/// How far a ray from `from` along `offset` can still run: what `ray_attack`
/// and the like count down.
pub open spec fn ray_room(from: u8, offset: i8) -> int {
    if offset > 0 {
        63 - from
    } else {
        from as int
    }
}

/// A step leads to a square further along: up for a positive offset, down for a
/// negative one.
pub proof fn lemma_step_moves_on(from: u8, offset: i8)
    requires
        can_step(from, offset),
        step(from, offset) is Some,
    ensures
        step(from, offset)->0 < 64,
        0 <= ray_room(step(from, offset)->0, offset) < ray_room(from, offset),
{
}

/// Whether the first piece met from `from` along `offset` is one of `attacker`'s
/// that attacks along this line: a queen, a `slider` (rook or bishop), or a king
/// if it is met at the first step (`first`).
pub open spec fn ray_attack(
    pieces: Seq<Option<Piece>>,
    from: u8,
    offset: i8,
    attacker: PieceColor,
    slider: PieceType,
    first: bool,
) -> bool
    decreases ray_room(from, offset),
{
    if !can_step(from, offset) {
        false
    } else {
        match step(from, offset) {
            None => false,
            Some(to) => match pieces[to as int] {
                Some(p) => p.c == attacker && (p.t == slider || p.t == PieceType::Queen || (p.t
                    == PieceType::King && first)),
                None => ray_attack(pieces, to, offset, attacker, slider, false),
            },
        }
    }
}

/// Whether one step of `offset` from `from` leads to the piece `p`.
pub open spec fn piece_at_step(pieces: Seq<Option<Piece>>, from: u8, offset: i8, p: Piece) -> bool {
    step(from, offset) is Some && pieces[step(from, offset)->0 as int] == Some(p)
}

/// The direction, on the 10x12 board, from a square towards the side from which
/// `attacker`'s pawns come.
pub open spec fn pawn_origin(attacker: PieceColor) -> i8 {
    match attacker {
        PieceColor::White => -10i8,
        PieceColor::Black => 10i8,
    }
}

/// Whether a piece of colour `attacker` attacks `square`: a rook or queen along a
/// rank or file, a bishop or queen along a diagonal, with only empty squares
/// between; a king next to it; a knight a knight's move away; a pawn on one of
/// the two squares from which it captures to `square`.
pub open spec fn attacked(pieces: Seq<Option<Piece>>, square: u8, attacker: PieceColor) -> bool {
    ||| exists|i: int|
        0 <= i < 4 && ray_attack(
            pieces,
            square,
            #[trigger] PieceType::Rook.spec_offsets()[i],
            attacker,
            PieceType::Rook,
            true,
        )
    ||| exists|i: int|
        0 <= i < 4 && ray_attack(
            pieces,
            square,
            #[trigger] PieceType::Bishop.spec_offsets()[i],
            attacker,
            PieceType::Bishop,
            true,
        )
    ||| exists|i: int|
        0 <= i < 8 && piece_at_step(
            pieces,
            square,
            #[trigger] PieceType::Knight.spec_offsets()[i],
            Piece { c: attacker, t: PieceType::Knight },
        )
    ||| piece_at_step(
        pieces,
        square,
        (pawn_origin(attacker) + 1) as i8,
        Piece { c: attacker, t: PieceType::Pawn },
    )
    ||| piece_at_step(
        pieces,
        square,
        (pawn_origin(attacker) - 1) as i8,
        Piece { c: attacker, t: PieceType::Pawn },
    )
}

/// The first of the moves `ms`, from place `i` on, that `text` writes in
/// coordinates.
pub open spec fn first_written(ms: Seq<Move>, text: Seq<char>, i: int) -> Option<Move>
    decreases ms.len() - i,
{
    if i < 0 || i >= ms.len() {
        None
    } else if move_text(ms[i]) == text {
        Some(ms[i])
    } else {
        first_written(ms, text, i + 1)
    }
}

/// The first of the moves that a text writes is one of the moves, and the text
/// writes it.
pub proof fn lemma_first_written(ms: Seq<Move>, text: Seq<char>, i: int)
    requires
        0 <= i,
    ensures
        first_written(ms, text, i) is Some ==> ms.contains(first_written(ms, text, i)->0)
            && move_text(first_written(ms, text, i)->0) == text,
    decreases ms.len() - i,
{
    if i < ms.len() && move_text(ms[i]) != text {
        lemma_first_written(ms, text, i + 1);
    }
}

impl ChessState {
    /// The legal move that `m` writes in coordinates, if there is one: the first
    /// such in the order of `gen_moves`.
    pub fn get_move(&mut self, m: &str) -> (r: Option<Move>)
        requires
            old(self)@.wf(),
        ensures
            r == first_written(old(self)@.legal_moves(), m@, 0),
            final(self)@ == old(self)@,
    {
        let moves = self.gen_moves();
        let wanted = String::from_str(m);
        let mut i: usize = 0;
        while i < moves.len()
            invariant
                i <= moves@.len(),
                self@ == old(self)@,
                self@.inv(),
                moves@ == self@.legal_moves(),
                wanted@ == m@,
                first_written(moves@, m@, 0) == first_written(moves@, m@, i as int),
            decreases moves@.len() - i,
        {
            proof {
                self@.lemma_legal_moves_applicable(i as int);
            }
            let mv = moves[i];
            if mv.to_string() == wanted {
                return Some(mv);
            }
            i += 1;
        }
        None
    }

    /// Follows the ray from `square` along `offset` to the first piece.
    fn scan_ray(&self, square: u8, offset: i8, attacker: PieceColor, slider: PieceType) -> (r: bool)
        requires
            can_step(square, offset),
        ensures
            r == ray_attack(self.pieces@, square, offset, attacker, slider, true),
    {
        let mut slid = false;
        let mut to = square;
        loop
            invariant
                can_step(to, offset),
                ray_attack(self.pieces@, square, offset, attacker, slider, true) == ray_attack(
                    self.pieces@,
                    to,
                    offset,
                    attacker,
                    slider,
                    !slid,
                ),
            decreases ray_room(to, offset),
        {
            proof {
                if step(to, offset) is Some {
                    lemma_step_moves_on(to, offset);
                }
            }
            to =
            match with_offset(to, offset) {
                Some(n) => n,
                None => {
                    return false;
                },
            };
            match self.pieces[to as usize] {
                Some(p) => {
                    return p.c == attacker && (p.t == slider || p.t == PieceType::Queen || (p.t
                        == PieceType::King && !slid));
                },
                None => {},
            }
            slid = true;
        }
    }

    /// Whether one step of `offset` from `square` leads to the piece `p`.
    pub fn finds_piece(&self, square: u8, offset: i8, p: Piece) -> (r: bool)
        requires
            square < 64,
            -21 <= offset <= 21,
        ensures
            r == piece_at_step(self.pieces@, square, offset, p),
    {
        match with_offset(square, offset) {
            Some(to) => match self.pieces[to as usize] {
                Some(q) => q.c == p.c && q.t == p.t,
                None => false,
            },
            None => false,
        }
    }

    /// Whether a piece of colour `attacker` attacks `square`.
    pub fn is_square_attacked_by(&self, square: u8, attacker: PieceColor) -> (r: bool)
        requires
            square < 64,
        ensures
            r == attacked(self.pieces@, square, attacker),
    {
        // Orthogonally, by a rook, a queen or a king
        let rook = PieceType::Rook.offsets();
        let mut i: usize = 0;
        while i < rook.len()
            invariant
                i <= 4,
                square < 64,
                rook@ == PieceType::Rook.spec_offsets(),
                forall|j: int|
                    0 <= j < i ==> !ray_attack(
                        self.pieces@,
                        square,
                        #[trigger] PieceType::Rook.spec_offsets()[j],
                        attacker,
                        PieceType::Rook,
                        true,
                    ),
            decreases 4 - i,
        {
            if self.scan_ray(square, rook[i], attacker, PieceType::Rook) {
                return true;
            }
            i += 1;
        }
        // Diagonally, by a bishop, a queen or a king
        let bishop = PieceType::Bishop.offsets();
        let mut i: usize = 0;
        while i < bishop.len()
            invariant
                i <= 4,
                square < 64,
                bishop@ == PieceType::Bishop.spec_offsets(),
                forall|j: int|
                    0 <= j < i ==> !ray_attack(
                        self.pieces@,
                        square,
                        #[trigger] PieceType::Bishop.spec_offsets()[j],
                        attacker,
                        PieceType::Bishop,
                        true,
                    ),
            decreases 4 - i,
        {
            if self.scan_ray(square, bishop[i], attacker, PieceType::Bishop) {
                return true;
            }
            i += 1;
        }
        // By a knight
        let knight = PieceType::Knight.offsets();
        let mut i: usize = 0;
        while i < knight.len()
            invariant
                i <= 8,
                square < 64,
                knight@ == PieceType::Knight.spec_offsets(),
                forall|j: int|
                    0 <= j < i ==> !piece_at_step(
                        self.pieces@,
                        square,
                        #[trigger] PieceType::Knight.spec_offsets()[j],
                        Piece { c: attacker, t: PieceType::Knight },
                    ),
            decreases 8 - i,
        {
            if self.finds_piece(square, knight[i], Piece { c: attacker, t: PieceType::Knight }) {
                return true;
            }
            i += 1;
        }
        // By a pawn
        let backward: i8 = match attacker {
            PieceColor::White => -10,
            PieceColor::Black => 10,
        };
        let pawn = Piece { c: attacker, t: PieceType::Pawn };
        self.finds_piece(square, backward + 1, pawn) || self.finds_piece(square, backward - 1, pawn)
    }

    /// Sets both check flags from the board: whether each king's square is
    /// attacked by the other side.
    pub fn update_check(&mut self)
        requires
            old(self).king_pos.white < 64,
            old(self).king_pos.black < 64,
        ensures
            final(self).check == (PieceColorArray {
                white: attacked(old(self).pieces@, old(self).king_pos.white, PieceColor::Black),
                black: attacked(old(self).pieces@, old(self).king_pos.black, PieceColor::White),
            }),
            final(self)@ == (ChessStateView { check: final(self).check, ..old(self)@ }),
    {
        let white = self.is_square_attacked_by(self.king_pos.get(PieceColor::White), PieceColor::Black);
        let black = self.is_square_attacked_by(self.king_pos.get(PieceColor::Black), PieceColor::White);
        self.check.set(PieceColor::White, white);
        self.check.set(PieceColor::Black, black);
    }
}

} // verus!
