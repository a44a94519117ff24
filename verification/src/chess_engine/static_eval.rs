use super::gen_moves::Move;
use super::{ChessState, ChessStateView, Piece, PieceColor, PieceType};
use rand::Rng;
use vstd::prelude::*;

verus! {

/// What a square is worth to a pawn in the middlegame, seen from Black's side: the eighth rank first.
pub const PAWN_VALUES_MIDDLEGAME: [i32; 64] = [
       0,    0,    0,    0,    0,    0,    0,    0,
      98,  134,   61,   95,   68,  126,   34,  -11,
      -6,    7,   26,   31,   65,   56,   25,  -20,
     -14,   13,    6,   21,   23,   12,   17,  -23,
     -27,   -2,   -5,   12,   17,    6,   10,  -25,
     -26,   -4,   -4,  -10,    3,    3,   33,  -12,
     -35,   -1,  -20,  -23,  -15,   24,   38,  -22,
       0,    0,    0,    0,    0,    0,    0,    0,
];

/// What a square is worth to a pawn in the endgame, seen from Black's side: the eighth rank first.
pub const PAWN_VALUES_ENDGAME: [i32; 64] = [
       0,    0,    0,    0,    0,    0,    0,    0,
     178,  173,  158,  134,  147,  132,  165,  187,
      94,  100,   85,   67,   56,   53,   82,   84,
      32,   24,   13,    5,   -2,    4,   17,   17,
      13,    9,   -3,   -7,   -7,   -8,    3,   -1,
       4,    7,   -6,    1,    0,   -5,   -1,   -8,
      13,    8,    8,   10,   13,    0,    2,   -7,
       0,    0,    0,    0,    0,    0,    0,    0,
];

/// What a square is worth to a knight in the middlegame, seen from Black's side: the eighth rank first.
pub const KNIGHT_VALUES_MIDDLEGAME: [i32; 64] = [
    -167,  -89,  -34,  -49,   61,  -97,  -15, -107,
     -73,  -41,   72,   36,   23,   62,    7,  -17,
     -47,   60,   37,   65,   84,  129,   73,   44,
      -9,   17,   19,   53,   37,   69,   18,   22,
     -13,    4,   16,   13,   28,   19,   21,   -8,
     -23,   -9,   12,   10,   19,   17,   25,  -16,
     -29,  -53,  -12,   -3,   -1,   18,  -14,  -19,
    -105,  -21,  -58,  -33,  -17,  -28,  -19,  -23,
];

/// What a square is worth to a knight in the endgame, seen from Black's side: the eighth rank first.
pub const KNIGHT_VALUES_ENDGAME: [i32; 64] = [
     -58,  -38,  -13,  -28,  -31,  -27,  -63,  -99,
     -25,   -8,  -25,   -2,   -9,  -25,  -24,  -52,
     -24,  -20,   10,    9,   -1,   -9,  -19,  -41,
     -17,    3,   22,   22,   22,   11,    8,  -18,
     -18,   -6,   16,   25,   16,   17,    4,  -18,
     -23,   -3,   -1,   15,   10,   -3,  -20,  -22,
     -42,  -20,  -10,   -5,   -2,  -20,  -23,  -44,
     -29,  -51,  -23,  -15,  -22,  -18,  -50,  -64,
];

/// What a square is worth to a bishop in the middlegame, seen from Black's side: the eighth rank first.
pub const BISHOP_VALUES_MIDDLEGAME: [i32; 64] = [
     -29,    4,  -82,  -37,  -25,  -42,    7,   -8,
     -26,   16,  -18,  -13,   30,   59,   18,  -47,
     -16,   37,   43,   40,   35,   50,   37,   -2,
      -4,    5,   19,   50,   37,   37,    7,   -2,
      -6,   13,   13,   26,   34,   12,   10,    4,
       0,   15,   15,   15,   14,   27,   18,   10,
       4,   15,   16,    0,    7,   21,   33,    1,
     -33,   -3,  -14,  -21,  -13,  -12,  -39,  -21,
];

/// What a square is worth to a bishop in the endgame, seen from Black's side: the eighth rank first.
pub const BISHOP_VALUES_ENDGAME: [i32; 64] = [
     -14,  -21,  -11,   -8,   -7,   -9,  -17,  -24,
      -8,   -4,    7,  -12,   -3,  -13,   -4,  -14,
       2,   -8,    0,   -1,   -2,    6,    0,    4,
      -3,    9,   12,    9,   14,   10,    3,    2,
      -6,    3,   13,   19,    7,   10,   -3,   -9,
     -12,   -3,    8,   10,   13,    3,   -7,  -15,
     -14,  -18,   -7,   -1,    4,   -9,  -15,  -27,
     -23,   -9,  -23,   -5,   -9,  -16,   -5,  -17,
];

/// What a square is worth to a rook in the middlegame, seen from Black's side: the eighth rank first.
pub const ROOK_VALUES_MIDDLEGAME: [i32; 64] = [
      32,   42,   32,   51,   63,    9,   31,   43,
      27,   32,   58,   62,   80,   67,   26,   44,
      -5,   19,   26,   36,   17,   45,   61,   16,
     -24,  -11,    7,   26,   24,   35,   -8,  -20,
     -36,  -26,  -12,   -1,    9,   -7,    6,  -23,
     -45,  -25,  -16,  -17,    3,    0,   -5,  -33,
     -44,  -16,  -20,   -9,   -1,   11,   -6,  -71,
     -19,  -13,    1,   17,   16,    7,  -37,  -26,
];

/// What a square is worth to a rook in the endgame, seen from Black's side: the eighth rank first.
pub const ROOK_VALUES_ENDGAME: [i32; 64] = [
      13,   10,   18,   15,   12,   12,    8,    5,
      11,   13,   13,   11,   -3,    3,    8,    3,
       7,    7,    7,    5,    4,   -3,   -5,   -3,
       4,    3,   13,    1,    2,    1,   -1,    2,
       3,    5,    8,    4,   -5,   -6,   -8,  -11,
      -4,    0,   -5,   -1,   -7,  -12,   -8,  -16,
      -6,   -6,    0,    2,   -9,   -9,  -11,   -3,
      -9,    2,    3,   -1,   -5,  -13,    4,  -20,
];

/// What a square is worth to a queen in the middlegame, seen from Black's side: the eighth rank first.
pub const QUEEN_VALUES_MIDDLEGAME: [i32; 64] = [
     -28,    0,   29,   12,   59,   44,   43,   45,
     -24,  -39,   -5,    1,  -16,   57,   28,   54,
     -13,  -17,    7,    8,   29,   56,   47,   57,
     -27,  -27,  -16,  -16,   -1,   17,   -2,    1,
      -9,  -26,   -9,  -10,   -2,   -4,    3,   -3,
     -14,    2,  -11,   -2,   -5,    2,   14,    5,
     -35,   -8,   11,    2,    8,   15,   -3,    1,
      -1,  -18,   -9,   10,  -15,  -25,  -31,  -50,
];

/// What a square is worth to a queen in the endgame, seen from Black's side: the eighth rank first.
pub const QUEEN_VALUES_ENDGAME: [i32; 64] = [
      -9,   22,   22,   27,   27,   19,   10,   20,
     -17,   20,   32,   41,   58,   25,   30,    0,
     -20,    6,    9,   49,   47,   35,   19,    9,
       3,   22,   24,   45,   57,   40,   57,   36,
     -18,   28,   19,   47,   31,   34,   39,   23,
     -16,  -27,   15,    6,    9,   17,   10,    5,
     -22,  -23,  -30,  -16,  -16,  -23,  -36,  -32,
     -33,  -28,  -22,  -43,   -5,  -32,  -20,  -41,
];

/// What a square is worth to the king in the middlegame, seen from Black's side: the eighth rank first.
pub const KING_VALUES_MIDDLEGAME: [i32; 64] = [
     -65,   23,   16,  -15,  -56,  -34,    2,   13,
      29,   -1,  -20,   -7,   -8,   -4,  -38,  -29,
      -9,   24,    2,  -16,  -20,    6,   22,  -22,
     -17,  -20,  -12,  -27,  -30,  -25,  -14,  -36,
     -49,   -1,  -27,  -39,  -46,  -44,  -33,  -51,
     -14,  -14,  -22,  -46,  -44,  -30,  -15,  -27,
       1,    7,   -8,  -64,  -43,  -16,    9,    8,
     -15,   36,   12,  -54,    8,  -28,   24,   14,
];

/// What a square is worth to the king in the endgame, seen from Black's side: the eighth rank first.
pub const KING_VALUES_ENDGAME: [i32; 64] = [
     -74,  -35,  -18,  -18,  -11,   15,    4,  -17,
     -12,   17,   14,   17,   17,   38,   23,   11,
      10,   17,   23,   15,   20,   45,   44,   13,
      -8,   22,   24,   27,   26,   33,   26,    3,
     -18,   -4,   21,   24,   27,   23,    9,  -11,
     -19,   -3,   11,   21,   23,   16,    7,   -9,
     -27,  -11,    4,   13,   14,    4,   -5,  -17,
     -53,  -34,  -21,  -11,  -28,  -14,  -24,  -43,
];

/// What a capture is worth for the ordering of moves, by the type of the piece
/// that captures (row) and of the piece captured (column), both in the order
/// rook, knight, bishop, queen, king, pawn: the more the victim is worth and the
/// less the attacker, the more.
pub const LVA_MVV: [[i32; 6]; 6] = [
    [420, 220, 320, 520, 620, 120],
    [440, 240, 340, 540, 640, 140],
    [430, 230, 330, 530, 630, 130],
    [410, 210, 310, 510, 610, 110],
    [400, 200, 300, 500, 600, 100],
    [450, 250, 350, 550, 650, 150],
];

/// The square that mirrors `square` across the middle of the board.
pub open spec fn mirrored(square: int) -> int {
    8 * (7 - square / 8) + square % 8
}

/// The table of what the squares are worth to a piece of type `t`.
pub open spec fn square_values(t: PieceType, endgame: bool) -> Seq<i32> {
    if endgame {
        match t {
            PieceType::Pawn => PAWN_VALUES_ENDGAME@,
            PieceType::Knight => KNIGHT_VALUES_ENDGAME@,
            PieceType::Bishop => BISHOP_VALUES_ENDGAME@,
            PieceType::Rook => ROOK_VALUES_ENDGAME@,
            PieceType::Queen => QUEEN_VALUES_ENDGAME@,
            PieceType::King => KING_VALUES_ENDGAME@,
        }
    } else {
        match t {
            PieceType::Pawn => PAWN_VALUES_MIDDLEGAME@,
            PieceType::Knight => KNIGHT_VALUES_MIDDLEGAME@,
            PieceType::Bishop => BISHOP_VALUES_MIDDLEGAME@,
            PieceType::Rook => ROOK_VALUES_MIDDLEGAME@,
            PieceType::Queen => QUEEN_VALUES_MIDDLEGAME@,
            PieceType::King => KING_VALUES_MIDDLEGAME@,
        }
    }
}

impl PieceType {
    /// The material value in centipawns.
    pub open spec fn spec_mat_value(self, endgame: bool) -> int {
        if endgame {
            match self {
                PieceType::Pawn => 94,
                PieceType::Knight => 281,
                PieceType::Bishop => 297,
                PieceType::Rook => 512,
                PieceType::Queen => 936,
                PieceType::King => 0,
            }
        } else {
            match self {
                PieceType::Pawn => 82,
                PieceType::Knight => 337,
                PieceType::Bishop => 365,
                PieceType::Rook => 477,
                PieceType::Queen => 1025,
                PieceType::King => 0,
            }
        }
    }

    /// What the piece adds to the weight of the middlegame.
    pub open spec fn spec_middlegame_weight(self) -> int {
        match self {
            PieceType::Pawn => 0,
            PieceType::Knight => 1,
            PieceType::Bishop => 1,
            PieceType::Rook => 2,
            PieceType::Queen => 4,
            PieceType::King => 0,
        }
    }

    /// The material value in centipawns, for the endgame or for the middlegame.
    pub fn mat_value<const IS_ENDGAME: bool>(&self) -> (v: i32)
        ensures
            v == self.spec_mat_value(IS_ENDGAME),
    {
        if IS_ENDGAME {
            match self {
                PieceType::Pawn => 94,
                PieceType::Knight => 281,
                PieceType::Bishop => 297,
                PieceType::Rook => 512,
                PieceType::Queen => 936,
                PieceType::King => 0,
            }
        } else {
            match self {
                PieceType::Pawn => 82,
                PieceType::Knight => 337,
                PieceType::Bishop => 365,
                PieceType::Rook => 477,
                PieceType::Queen => 1025,
                PieceType::King => 0,
            }
        }
    }

    /// What the piece adds to the weight of the middlegame.
    pub fn middlegame_weight(&self) -> (w: i32)
        ensures
            w == self.spec_middlegame_weight(),
    {
        match self {
            PieceType::Pawn => 0,
            PieceType::Knight => 1,
            PieceType::Bishop => 1,
            PieceType::Rook => 2,
            PieceType::Queen => 4,
            PieceType::King => 0,
        }
    }
}

impl Piece {
    /// What `square` is worth to the piece: the entry of its table, read for
    /// White at the square mirrored across the middle of the board.
    pub open spec fn spec_pos_value(self, endgame: bool, square: int) -> int {
        square_values(self.t, endgame)[match self.c {
            PieceColor::White => mirrored(square),
            PieceColor::Black => square,
        }] as int
    }

    /// What the piece on `square` is worth: its material and its square.
    pub open spec fn value_on(self, endgame: bool, square: int) -> int {
        self.t.spec_mat_value(endgame) + self.spec_pos_value(endgame, square)
    }

    /// What `square` is worth to the piece, in the endgame or in the middlegame.
    pub fn pos_value<const IS_ENDGAME: bool>(&self, square: usize) -> (v: i32)
        requires
            square < 64,
        ensures
            v == self.spec_pos_value(IS_ENDGAME, square as int),
            -200 <= v <= 200,
    {
        assert(square < 64 ==> (square ^ 56) == 8 * (7 - square / 8) + square % 8) by (bit_vector);
        let square = match self.c {
            PieceColor::White => square ^ 56,
            PieceColor::Black => square,
        };
        if IS_ENDGAME {
            match self.t {
                PieceType::Pawn => PAWN_VALUES_ENDGAME[square],
                PieceType::Knight => KNIGHT_VALUES_ENDGAME[square],
                PieceType::Bishop => BISHOP_VALUES_ENDGAME[square],
                PieceType::Rook => ROOK_VALUES_ENDGAME[square],
                PieceType::Queen => QUEEN_VALUES_ENDGAME[square],
                PieceType::King => KING_VALUES_ENDGAME[square],
            }
        } else {
            match self.t {
                PieceType::Pawn => PAWN_VALUES_MIDDLEGAME[square],
                PieceType::Knight => KNIGHT_VALUES_MIDDLEGAME[square],
                PieceType::Bishop => BISHOP_VALUES_MIDDLEGAME[square],
                PieceType::Rook => ROOK_VALUES_MIDDLEGAME[square],
                PieceType::Queen => QUEEN_VALUES_MIDDLEGAME[square],
                PieceType::King => KING_VALUES_MIDDLEGAME[square],
            }
        }
    }
}

/// What the pieces of colour `c` on the squares below `n` are worth together.
pub open spec fn side_value(pieces: Seq<Option<Piece>>, c: PieceColor, endgame: bool, n: int) -> int
    decreases n,
{
    if n <= 0 {
        0
    } else {
        side_value(pieces, c, endgame, n - 1) + match pieces[n - 1] {
            Some(p) => if p.c == c {
                p.value_on(endgame, n - 1)
            } else {
                0
            },
            None => 0,
        }
    }
}

/// What the pieces on the squares below `n` add to the weight of the middlegame.
pub open spec fn middlegame_weight(pieces: Seq<Option<Piece>>, n: int) -> int
    decreases n,
{
    if n <= 0 {
        0
    } else {
        middlegame_weight(pieces, n - 1) + match pieces[n - 1] {
            Some(p) => p.t.spec_middlegame_weight(),
            None => 0,
        }
    }
}

/// `a` divided by `d`, rounded towards zero.
pub open spec fn toward_zero(a: int, d: int) -> int {
    if a >= 0 {
        a / d
    } else {
        -((-a) / d)
    }
}

impl ChessStateView {
    /// The score of the position for the side to move: what its pieces are worth
    /// less what the other side's are worth, once by the middlegame values and
    /// once by the endgame values, the two weighed by how much of the middlegame
    /// is left on the board, out of 24.
    pub open spec fn static_eval(self) -> int {
        let us = self.turn;
        let them = self.turn.opposite();
        let middlegame = side_value(self.pieces, us, false, 64) - side_value(
            self.pieces,
            them,
            false,
            64,
        );
        let endgame = side_value(self.pieces, us, true, 64) - side_value(self.pieces, them, true, 64);
        let weight = middlegame_weight(self.pieces, 64);
        let phase = if weight < 24 {
            weight
        } else {
            24
        };
        toward_zero(middlegame * phase + endgame * (24 - phase), 24)
    }
}

/// The largest score that `ChessState::static_eval` gives, and the negative of
/// the smallest.
pub const MAX_STATIC_EVAL: i32 = 100_000;

impl ChessState {
    /// The score of the position for the side to move.
    pub fn static_eval(&self) -> (score: i32)
        ensures
            score == self@.static_eval(),
            -MAX_STATIC_EVAL <= score <= MAX_STATIC_EVAL,
    {
        let mut middlegame_white: i32 = 0;
        let mut middlegame_black: i32 = 0;
        let mut endgame_white: i32 = 0;
        let mut endgame_black: i32 = 0;
        let mut is_middlegame: i32 = 0;
        let mut square: usize = 0;
        while square < 64
            invariant
                square <= 64,
                middlegame_white == side_value(self.pieces@, PieceColor::White, false, square as int),
                middlegame_black == side_value(self.pieces@, PieceColor::Black, false, square as int),
                endgame_white == side_value(self.pieces@, PieceColor::White, true, square as int),
                endgame_black == side_value(self.pieces@, PieceColor::Black, true, square as int),
                is_middlegame == middlegame_weight(self.pieces@, square as int),
                -200 * square <= middlegame_white <= 1225 * square,
                -200 * square <= middlegame_black <= 1225 * square,
                -200 * square <= endgame_white <= 1225 * square,
                -200 * square <= endgame_black <= 1225 * square,
                0 <= is_middlegame <= 4 * square,
            decreases 64 - square,
        {
            if let Some(piece) = self.pieces[square] {
                let middlegame = piece.t.mat_value::<false>() + piece.pos_value::<false>(square);
                let endgame = piece.t.mat_value::<true>() + piece.pos_value::<true>(square);
                match piece.c {
                    PieceColor::White => {
                        middlegame_white += middlegame;
                        endgame_white += endgame;
                    },
                    PieceColor::Black => {
                        middlegame_black += middlegame;
                        endgame_black += endgame;
                    },
                }
                is_middlegame += piece.t.middlegame_weight();
            }
            square += 1;
        }
        let (middlegame_score, endgame_score) = match self.turn {
            PieceColor::White => (
                middlegame_white - middlegame_black,
                endgame_white - endgame_black,
            ),
            PieceColor::Black => (
                middlegame_black - middlegame_white,
                endgame_black - endgame_white,
            ),
        };
        if is_middlegame > 24 {
            is_middlegame = 24;
        }
        let is_endgame = 24 - is_middlegame;
        assert(-91200 * is_middlegame <= middlegame_score * is_middlegame <= 91200 * is_middlegame)
            by (nonlinear_arith)
            requires
                -91200 <= middlegame_score <= 91200,
                0 <= is_middlegame,
        ;
        assert(-91200 * is_endgame <= endgame_score * is_endgame <= 91200 * is_endgame)
            by (nonlinear_arith)
            requires
                -91200 <= endgame_score <= 91200,
                0 <= is_endgame,
        ;
        (middlegame_score * is_middlegame + endgame_score * is_endgame) / 24
    }
}

/// `rand::thread_rng().gen_range(low..=high)`: a number from `low` to `high`,
/// both included, drawn by the thread's generator.
#[verifier::external_body]
fn jitter(low: i32, high: i32) -> (j: i32)
    requires
        low <= high,
    ensures
        low <= j <= high,
{
    rand::thread_rng().gen_range(low..=high)
}

/// How far the random part of a move's score goes, up and down.
pub const JITTER: i32 = 10;

impl Move {
    /// What the move is worth for the ordering of moves, before the random part:
    /// the entry of `LVA_MVV` if it captures, and the middlegame value of the
    /// piece it promotes to if it promotes.
    pub open spec fn ordering_value(self) -> int {
        (match self.capture {
            Some(t) => LVA_MVV@[self.piece_type.index()]@[t.index()] as int,
            None => 0,
        }) + (match self.promote_to {
            Some(t) => t.spec_mat_value(false),
            None => 0,
        })
    }

    /// What the move is worth for the ordering of moves, with `jitter` for the
    /// random part.
    pub fn ordering_score(&self, jitter: i32) -> (v: i32)
        requires
            -10 <= jitter <= 10,
        ensures
            v == jitter + self.ordering_value(),
            -10 <= v <= 1700,
    {
        let mut v = jitter;

        if let Some(t) = self.capture {
            v += LVA_MVV[self.piece_type.as_index()][t.as_index()];
        }

        if let Some(t) = self.promote_to {
            v += t.mat_value::<false>();
        }

        v
    }

    /// What the move is worth for the ordering of moves: `ordering_value` and a
    /// random number from -10 to 10.
    pub fn static_eval(&self) -> (v: i32)
        ensures
            -10 <= v - self.ordering_value() <= 10,
    {
        self.ordering_score(jitter(-JITTER, JITTER))
    }
}

} // verus!
