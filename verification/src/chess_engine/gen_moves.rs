use super::make_move::board_after;
use super::{
    attacked, can_step, cell_of, lemma_step_moves_on, pawn_origin, piece_at_step, ray_attack,
    ray_room, square_of, step, with_offset, ChessState, ChessStateView, Piece, PieceColor, PieceType,
};
use vstd::prelude::*;
use vstd::std_specs::cmp::PartialEqSpecImpl;

verus! {

impl PieceType {
    /// Whether the piece goes on along a line until something stands in its way.
    pub open spec fn spec_is_sliding(&self) -> bool {
        self == PieceType::Rook || self == PieceType::Bishop || self == PieceType::Queen
    }

    /// Whether the piece goes on along a line until something stands in its way.
    #[verifier::when_used_as_spec(spec_is_sliding)]
    pub fn is_sliding(&self) -> (r: bool)
        ensures
            r == self.spec_is_sliding(),
    {
        match self {
            PieceType::Rook => true,
            PieceType::Knight => false,
            PieceType::Bishop => true,
            PieceType::Queen => true,
            PieceType::King => false,
            _ => false,
        }
    }

    /// The steps of the piece on the 10x12 board; a pawn has none here.
    pub open spec fn spec_offsets(self) -> Seq<i8> {
        match self {
            PieceType::Rook => seq![-10i8, -1i8, 1i8, 10i8],
            PieceType::Knight => seq![-21i8, -19i8, -12i8, -8i8, 8i8, 12i8, 19i8, 21i8],
            PieceType::Bishop => seq![-11i8, -9i8, 9i8, 11i8],
            PieceType::Queen | PieceType::King => seq![-11i8, -10i8, -9i8, -1i8, 1i8, 9i8, 10i8, 11i8],
            PieceType::Pawn => seq![],
        }
    }

    /// The steps of the piece on the 10x12 board; a pawn has none here.
    pub fn offsets(&self) -> (r: &'static [i8])
        ensures
            r@ == self.spec_offsets(),
            forall|i: int| 0 <= i < r@.len() ==> -21 <= #[trigger] r@[i] <= 21 && r@[i] != 0,
    {
        match self {
            PieceType::Rook => {
                let r: &'static [i8] = &[-10, -1, 1, 10];
                assert(r@ =~= self.spec_offsets());
                r
            },
            PieceType::Knight => {
                let r: &'static [i8] = &[-21, -19, -12, -8, 8, 12, 19, 21];
                assert(r@ =~= self.spec_offsets());
                r
            },
            PieceType::Bishop => {
                let r: &'static [i8] = &[-11, -9, 9, 11];
                assert(r@ =~= self.spec_offsets());
                r
            },
            PieceType::Queen | PieceType::King => {
                let r: &'static [i8] = &[-11, -10, -9, -1, 1, 9, 10, 11];
                assert(r@ =~= self.spec_offsets());
                r
            },
            _ => {
                let r: &'static [i8] = &[];
                assert(r@ =~= self.spec_offsets());
                r
            },
        }
    }
}

/// A move. Two moves are `==` when they agree in `from`, `to` and `promote_to`:
/// that is enough to tell the moves of one position apart.
#[derive(Clone, Copy, Eq, Debug)]
pub struct Move {
    pub piece_type: PieceType,
    pub from: u8,
    pub to: u8,
    pub promote_to: Option<PieceType>,
    pub new_en_passant_target: Option<u8>,
    pub castle_king: bool,
    pub castle_queen: bool,
    pub en_passant: bool,
    pub capture: Option<PieceType>,
}

impl Default for Move {
    fn default() -> (m: Move)
        ensures
            m == Move::blank(),
    {
        Move {
            from: 0,
            to: 0,
            promote_to: None,
            new_en_passant_target: None,
            castle_king: false,
            castle_queen: false,
            en_passant: false,
            piece_type: PieceType::Rook,
            capture: None,
        }
    }
}

impl PartialEq for Move {
    fn eq(&self, other: &Self) -> (r: bool) {
        self.from == other.from && self.to == other.to && match (self.promote_to, other.promote_to) {
            (None, None) => true,
            (Some(a), Some(b)) => a == b,
            _ => false,
        }
    }
}

impl PartialEqSpecImpl for Move {
    open spec fn obeys_eq_spec() -> bool {
        true
    }

    open spec fn eq_spec(&self, other: &Self) -> bool {
        self.from == other.from && self.to == other.to && self.promote_to == other.promote_to
    }
}

impl Move {
    /// The move that `default` gives: a rook from square 0 to square 0, nothing else set.
    pub open spec fn blank() -> Move {
        Move {
            piece_type: PieceType::Rook,
            from: 0,
            to: 0,
            promote_to: None,
            new_en_passant_target: None,
            castle_king: false,
            castle_queen: false,
            en_passant: false,
            capture: None,
        }
    }

    /// Whether two moves agree in `from`, `to` and `promote_to`.
    pub open spec fn same_move(self, other: Move) -> bool {
        self.from == other.from && self.to == other.to && self.promote_to == other.promote_to
    }
}

/// The step of a pawn of `turn` towards the other side, on the 10x12 board.
pub open spec fn pawn_forward(turn: PieceColor) -> i8 {
    match turn {
        PieceColor::White => 10i8,
        PieceColor::Black => -10i8,
    }
}

/// The rank on which a pawn of `turn` promotes.
pub open spec fn last_rank(turn: PieceColor) -> int {
    match turn {
        PieceColor::White => 7,
        PieceColor::Black => 0,
    }
}

/// The rank on which the pawns of `turn` start.
pub open spec fn pawn_rank(turn: PieceColor) -> int {
    match turn {
        PieceColor::White => 1,
        PieceColor::Black => 6,
    }
}

/// The rank on which a pawn of `turn` stands after its double step.
pub open spec fn double_step_rank(turn: PieceColor) -> int {
    match turn {
        PieceColor::White => 3,
        PieceColor::Black => 4,
    }
}

/// The moves by which a pawn arrives on `to`: one for each piece it can promote
/// to, in the order rook, knight, bishop, queen, if `to` is on the last rank,
/// else one move.
pub open spec fn pawn_arrivals(turn: PieceColor, from: u8, to: u8, capture: Option<PieceType>) -> Seq<
    Move,
> {
    let m = Move { piece_type: PieceType::Pawn, from, to, capture, ..Move::blank() };
    if to as int / 8 == last_rank(turn) {
        seq![
            Move { promote_to: Some(PieceType::Rook), ..m },
            Move { promote_to: Some(PieceType::Knight), ..m },
            Move { promote_to: Some(PieceType::Bishop), ..m },
            Move { promote_to: Some(PieceType::Queen), ..m },
        ]
    } else {
        seq![m]
    }
}

/// The double step of a pawn on `from` over the empty square `to`, if the pawn
/// stands on its starting rank and the square behind `to` is empty too.
pub open spec fn pawn_double(pieces: Seq<Option<Piece>>, turn: PieceColor, from: u8, to: u8) -> Seq<
    Move,
> {
    if from as int / 8 == pawn_rank(turn) && step(to, pawn_forward(turn)) is Some
        && pieces[step(to, pawn_forward(turn))->0 as int] is None {
        seq![
            Move {
                piece_type: PieceType::Pawn,
                from,
                to: step(to, pawn_forward(turn))->0,
                new_en_passant_target: Some(to),
                ..Move::blank()
            },
        ]
    } else {
        seq![]
    }
}

/// The capture by a pawn on `from` to the square `offset` beside `to`, the
/// square ahead of it, if a piece of the other side stands there.
pub open spec fn pawn_capture(
    pieces: Seq<Option<Piece>>,
    turn: PieceColor,
    from: u8,
    to: u8,
    offset: i8,
) -> Seq<Move> {
    match step(to, offset) {
        Some(t) => match pieces[t as int] {
            Some(p) => if p.c != turn {
                pawn_arrivals(turn, from, t, Some(p.t))
            } else {
                seq![]
            },
            None => seq![],
        },
        None => seq![],
    }
}

/// The en-passant capture by a pawn on `from`, if the target is the square
/// `offset` beside `to`, the square ahead of the pawn.
pub open spec fn pawn_en_passant(target: Option<u8>, from: u8, to: u8, offset: i8) -> Seq<Move> {
    if target is Some && step(to, offset) == target {
        seq![
            Move {
                piece_type: PieceType::Pawn,
                from,
                to: target->0,
                capture: Some(PieceType::Pawn),
                en_passant: true,
                ..Move::blank()
            },
        ]
    } else {
        seq![]
    }
}

/// The advances of a pawn on `from` to `to`, the square ahead of it, and beyond:
/// none unless `to` is empty.
pub open spec fn pawn_advances(pieces: Seq<Option<Piece>>, turn: PieceColor, from: u8, to: u8) -> Seq<
    Move,
> {
    if pieces[to as int] is None {
        pawn_arrivals(turn, from, to, None) + pawn_double(pieces, turn, from, to)
    } else {
        seq![]
    }
}

/// `a + (b + c)` is `(a + b) + c`.
pub proof fn lemma_concat_assoc(a: Seq<Move>, b: Seq<Move>, c: Seq<Move>)
    ensures
        a + (b + c) == (a + b) + c,
{
    assert(a + (b + c) =~= (a + b) + c);
}

/// The moves of a pawn of the side to move on `from`: the advances, the capture
/// to the right and to the left, the en-passant capture to the right and to the
/// left.
pub open spec fn pawn_moves(s: ChessStateView, from: u8) -> Seq<Move> {
    match step(from, pawn_forward(s.turn)) {
        Some(to) => {
            pawn_advances(s.pieces, s.turn, from, to) + pawn_capture(s.pieces, s.turn, from, to, 1i8) + pawn_capture(
                s.pieces,
                s.turn,
                from,
                to,
                -1i8,
            ) + pawn_en_passant(s.en_passant_target, from, to, 1i8) + pawn_en_passant(
                s.en_passant_target,
                from,
                to,
                -1i8,
            )
        },
        None => seq![],
    }
}

/// The moves of a piece of type `t` on `from` along `offset`, beyond the square
/// `cur` that it has reached: to each empty square in turn, as far as the piece
/// slides, and to the first occupied square if a piece of the other side stands
/// there.
pub open spec fn ray_moves(
    pieces: Seq<Option<Piece>>,
    turn: PieceColor,
    t: PieceType,
    from: u8,
    cur: u8,
    offset: i8,
) -> Seq<Move>
    decreases ray_room(cur, offset),
{
    if !can_step(cur, offset) {
        seq![]
    } else {
        match step(cur, offset) {
            None => seq![],
            Some(to) => match pieces[to as int] {
                Some(other) => if other.c != turn {
                    seq![Move { piece_type: t, from, to, capture: Some(other.t), ..Move::blank() }]
                } else {
                    seq![]
                },
                None => seq![Move { piece_type: t, from, to, ..Move::blank() }] + (
                if t.spec_is_sliding() {
                    ray_moves(pieces, turn, t, from, to, offset)
                } else {
                    seq![]
                }),
            },
        }
    }
}

/// The moves of a piece of type `t` on `from` along the first `k` of its offsets.
pub open spec fn piece_moves(
    pieces: Seq<Option<Piece>>,
    turn: PieceColor,
    t: PieceType,
    from: u8,
    k: int,
) -> Seq<Move>
    decreases k,
{
    if k <= 0 {
        seq![]
    } else {
        piece_moves(pieces, turn, t, from, k - 1) + ray_moves(
            pieces,
            turn,
            t,
            from,
            from,
            t.spec_offsets()[k - 1],
        )
    }
}

/// The moves of what stands on `from`: none unless it is a piece of the side to
/// move.
pub open spec fn square_moves(s: ChessStateView, from: u8) -> Seq<Move> {
    match s.pieces[from as int] {
        Some(p) => if p.c != s.turn {
            seq![]
        } else if p.t == PieceType::Pawn {
            pawn_moves(s, from)
        } else {
            piece_moves(s.pieces, s.turn, p.t, from, p.t.spec_offsets().len() as int)
        },
        None => seq![],
    }
}

/// The moves of what stands on the squares below `n`, square by square.
pub open spec fn moves_upto(s: ChessStateView, n: int) -> Seq<Move>
    decreases n,
{
    if n <= 0 {
        seq![]
    } else {
        moves_upto(s, n - 1) + square_moves(s, (n - 1) as u8)
    }
}

/// Castling on the queen's side, if the side to move has the right, is not in
/// check, the three squares between king and rook are empty and the two that the
/// king crosses and reaches are not attacked.
pub open spec fn queen_castling(s: ChessStateView) -> Seq<Move> {
    let o = s.turn.back_rank();
    if s.queen_castle.at(s.turn) && !s.check.at(s.turn) && s.pieces[o + 1] is None && s.pieces[o
        + 2] is None && s.pieces[o + 3] is None && !attacked(
        s.pieces,
        (o + 2) as u8,
        s.turn.opposite(),
    ) && !attacked(s.pieces, (o + 3) as u8, s.turn.opposite()) {
        seq![
            Move {
                piece_type: PieceType::King,
                from: (o + 4) as u8,
                to: (o + 2) as u8,
                castle_queen: true,
                ..Move::blank()
            },
        ]
    } else {
        seq![]
    }
}

/// Castling on the king's side, under the like conditions.
pub open spec fn king_castling(s: ChessStateView) -> Seq<Move> {
    let o = s.turn.back_rank();
    if s.king_castle.at(s.turn) && !s.check.at(s.turn) && s.pieces[o + 6] is None && s.pieces[o
        + 5] is None && !attacked(s.pieces, (o + 6) as u8, s.turn.opposite()) && !attacked(
        s.pieces,
        (o + 5) as u8,
        s.turn.opposite(),
    ) {
        seq![
            Move {
                piece_type: PieceType::King,
                from: (o + 4) as u8,
                to: (o + 6) as u8,
                castle_king: true,
                ..Move::blank()
            },
        ]
    } else {
        seq![]
    }
}

/// Whether a piece on `cur` that steps along `offset` comes to `to`: at the next
/// square, or, if it slides, beyond it over empty squares.
pub open spec fn travels(pieces: Seq<Option<Piece>>, sliding: bool, cur: u8, offset: i8, to: u8) -> bool
    decreases ray_room(cur, offset),
{
    if !can_step(cur, offset) {
        false
    } else {
        match step(cur, offset) {
            None => false,
            Some(n) => n == to || (sliding && pieces[n as int] is None && travels(
                pieces,
                sliding,
                n,
                offset,
                to,
            )),
        }
    }
}

/// A step can be taken back.
pub proof fn lemma_step_back(a: u8, d: i8)
    requires
        can_step(a, d),
        step(a, d) is Some,
    ensures
        can_step(step(a, d)->0, (-d) as i8),
        step(step(a, d)->0, (-d) as i8) == Some(a),
{
}

/// A piece that slides from `x` to the empty square `n` comes to the square
/// after it too.
pub proof fn lemma_travels_on(pieces: Seq<Option<Piece>>, x: u8, e: i8, n: u8, a: u8)
    requires
        travels(pieces, true, x, e, n),
        pieces[n as int] is None,
        can_step(n, e),
        step(n, e) == Some(a),
    ensures
        travels(pieces, true, x, e, a),
    decreases ray_room(x, e),
{
    let y = step(x, e)->0;
    lemma_step_moves_on(x, e);
    if y != n {
        lemma_travels_on(pieces, y, e, n, a);
    } else {
        assert(travels(pieces, true, n, e, a));
    }
}

/// Where a piece slides from `a` to `b`, a piece slides from `b` to `a` the
/// other way.
pub proof fn lemma_travels_back(pieces: Seq<Option<Piece>>, a: u8, d: i8, b: u8)
    requires
        travels(pieces, true, a, d, b),
    ensures
        travels(pieces, true, b, (-d) as i8, a),
    decreases ray_room(a, d),
{
    let n = step(a, d)->0;
    lemma_step_moves_on(a, d);
    lemma_step_back(a, d);
    if n != b {
        lemma_travels_back(pieces, n, d, b);
        lemma_travels_on(pieces, b, (-d) as i8, n, a);
    }
}

/// Where a piece would slide from `x` to the square `a` on which the piece `p`
/// stands, `p` is the first piece met from `x` along the line.
pub proof fn lemma_ray_attack_meets(
    pieces: Seq<Option<Piece>>,
    x: u8,
    e: i8,
    a: u8,
    p: Piece,
    attacker: PieceColor,
    slider: PieceType,
    first: bool,
)
    requires
        travels(pieces, true, x, e, a),
        pieces[a as int] == Some(p),
    ensures
        ray_attack(pieces, x, e, attacker, slider, first) == (p.c == attacker && (p.t == slider
            || p.t == PieceType::Queen || (p.t == PieceType::King && first && step(x, e) == Some(
            a,
        )))),
    decreases ray_room(x, e),
{
    let y = step(x, e)->0;
    lemma_step_moves_on(x, e);
    if y != a {
        lemma_ray_attack_meets(pieces, y, e, a, p, attacker, slider, false);
    }
}

/// The cell of the square that a step leads to is the cell of the square it
/// starts from and the offset.
pub proof fn lemma_step_cell(a: u8, d: i8)
    requires
        a < 64,
        step(a, d) is Some,
    ensures
        step(a, d)->0 < 64,
        cell_of(step(a, d)->0 as int) == cell_of(a as int) + d,
        square_of(cell_of(a as int)) == Some(a),
{
}

/// A pawn attacks the two squares diagonally ahead of it.
pub proof fn lemma_pawn_attacks(pieces: Seq<Option<Piece>>, turn: PieceColor, from: u8, to: u8)
    requires
        from < 64,
        pieces[from as int] == Some(Piece { c: turn, t: PieceType::Pawn }),
        step(from, pawn_forward(turn)) is Some,
        step(step(from, pawn_forward(turn))->0, 1i8) == Some(to) || step(
            step(from, pawn_forward(turn))->0,
            -1i8,
        ) == Some(to),
    ensures
        attacked(pieces, to, turn),
{
    let pawn = Piece { c: turn, t: PieceType::Pawn };
    let forward = pawn_forward(turn);
    let ahead = step(from, forward)->0;
    lemma_step_cell(from, forward);
    if step(ahead, 1i8) == Some(to) {
        lemma_step_cell(ahead, 1i8);
        let back = (pawn_origin(turn) - 1) as i8;
        assert(cell_of(to as int) + back == cell_of(from as int));
        assert(step(to, back) == Some(from));
        assert(piece_at_step(pieces, to, back, pawn));
    } else {
        lemma_step_cell(ahead, -1i8);
        let back = (pawn_origin(turn) + 1) as i8;
        assert(cell_of(to as int) + back == cell_of(from as int));
        assert(step(to, back) == Some(from));
        assert(piece_at_step(pieces, to, back, pawn));
    }
}

impl ChessStateView {
    /// A move of a piece other than a pawn goes to a square that the piece
    /// attacks.
    pub proof fn lemma_piece_attacks_target(self, m: Move)
        requires
            self.pieces.len() == 64,
            self.pseudo_legal(m),
            !m.castle_queen,
            !m.castle_king,
            m.piece_type != PieceType::Pawn,
        ensures
            attacked(self.pieces, m.to, self.turn),
    {
        let t = m.piece_type;
        let i = choose|i: int|
            0 <= i < t.spec_offsets().len() && travels(
                self.pieces,
                t.spec_is_sliding(),
                m.from,
                #[trigger] t.spec_offsets()[i],
                m.to,
            );
        let d = t.spec_offsets()[i];
        let back = (-d) as i8;
        let p = Piece { c: self.turn, t };
        let straight = d == 1 || d == -1 || d == 10 || d == -10;
        let slider = if straight {
            PieceType::Rook
        } else {
            PieceType::Bishop
        };
        if t == PieceType::Knight {
            lemma_step_back(m.from, d);
            assert(piece_at_step(self.pieces, m.to, back, p));
            let j = 7 - i;
            assert(PieceType::Knight.spec_offsets()[j] == back);
        } else {
            if t.spec_is_sliding() {
                lemma_travels_back(self.pieces, m.from, d, m.to);
            } else {
                lemma_step_back(m.from, d);
            }
            lemma_ray_attack_meets(self.pieces, m.to, back, m.from, p, self.turn, slider, true);
            assert(ray_attack(self.pieces, m.to, back, self.turn, slider, true));
            if straight {
                let j: int = if back == -10 {
                    0
                } else if back == -1 {
                    1
                } else if back == 1 {
                    2
                } else {
                    3
                };
                assert(PieceType::Rook.spec_offsets()[j] == back);
            } else {
                let j: int = if back == -11 {
                    0
                } else if back == -9 {
                    1
                } else if back == 9 {
                    2
                } else {
                    3
                };
                assert(PieceType::Bishop.spec_offsets()[j] == back);
            }
        }
    }

    /// A capture by a pawn goes to a square that the pawn attacks.
    pub proof fn lemma_pawn_attacks_target(self, m: Move)
        requires
            self.pieces.len() == 64,
            self.pseudo_legal(m),
            !m.castle_queen,
            !m.castle_king,
            m.piece_type == PieceType::Pawn,
            m.capture is Some,
        ensures
            attacked(self.pieces, m.to, self.turn),
    {
        let ahead = step(m.from, pawn_forward(self.turn))->0;
        assert(self.pawn_geometry(m));
        assert(self.applicable(m));
        assert(step(ahead, 1i8) == Some(m.to) || step(ahead, -1i8) == Some(m.to));
        lemma_pawn_attacks(self.pieces, self.turn, m.from, m.to);
    }

    /// Every move that the generator gives, but for the advances of the pawns and
    /// for castling, goes to a square that the side to move attacks.
    pub proof fn lemma_moves_go_where_pieces_attack(self, m: Move)
        requires
            self.inv(),
            self.pseudo_legal_moves().contains(m),
            !m.castle_queen,
            !m.castle_king,
            m.piece_type == PieceType::Pawn ==> m.capture is Some,
        ensures
            attacked(self.pieces, m.to, self.turn),
    {
        self.lemma_pseudo_legal_exact(m);
        if m.piece_type == PieceType::Pawn {
            self.lemma_pawn_attacks_target(m);
        } else {
            self.lemma_piece_attacks_target(m);
        }
    }

    /// Whether a pawn's move obeys how pawns move: one square ahead to an empty
    /// square; two squares ahead from the starting rank over an empty square to
    /// an empty square, naming the square passed as the new en-passant target; or
    /// one square diagonally ahead with a capture, en passant only to the
    /// en-passant target. It promotes if and only if it arrives on the last rank,
    /// and then to a rook, a knight, a bishop or a queen.
    pub open spec fn pawn_geometry(self, m: Move) -> bool {
        let forward = pawn_forward(self.turn);
        let ahead = step(m.from, forward);
        &&& ahead is Some
        &&& {
            ||| m.to == ahead->0 && self.pieces[m.to as int] is None && m.capture is None
            ||| {
                &&& m.from as int / 8 == pawn_rank(self.turn)
                &&& self.pieces[ahead->0 as int] is None
                &&& step(ahead->0, forward) == Some(m.to)
                &&& self.pieces[m.to as int] is None
                &&& m.new_en_passant_target == ahead
            }
            ||| (step(ahead->0, 1i8) == Some(m.to) || step(ahead->0, -1i8) == Some(m.to))
                && m.capture is Some
        }
        &&& m.en_passant ==> self.en_passant_target == Some(m.to)
        &&& m.promote_to is Some <==> m.to as int / 8 == last_rank(self.turn)
        &&& m.promote_to is Some ==> {
            ||| m.promote_to == Some(PieceType::Rook)
            ||| m.promote_to == Some(PieceType::Knight)
            ||| m.promote_to == Some(PieceType::Bishop)
            ||| m.promote_to == Some(PieceType::Queen)
        }
    }

    /// Whether `m` obeys how its piece moves. A castling move: the right is
    /// granted, the king is not in check and neither crosses nor reaches an
    /// attacked square. A pawn's move: `pawn_geometry`. Any other: the piece comes
    /// from `from` to `to` along one of its offsets.
    pub open spec fn geometric(self, m: Move) -> bool {
        let o = self.turn.back_rank();
        let enemy = self.turn.opposite();
        if m.castle_queen {
            &&& self.queen_castle.at(self.turn)
            &&& !self.check.at(self.turn)
            &&& !attacked(self.pieces, (o + 2) as u8, enemy)
            &&& !attacked(self.pieces, (o + 3) as u8, enemy)
        } else if m.castle_king {
            &&& self.king_castle.at(self.turn)
            &&& !self.check.at(self.turn)
            &&& !attacked(self.pieces, (o + 5) as u8, enemy)
            &&& !attacked(self.pieces, (o + 6) as u8, enemy)
        } else if m.piece_type == PieceType::Pawn {
            self.pawn_geometry(m)
        } else {
            exists|i: int|
                0 <= i < m.piece_type.spec_offsets().len() && travels(
                    self.pieces,
                    m.piece_type.spec_is_sliding(),
                    m.from,
                    #[trigger] m.piece_type.spec_offsets()[i],
                    m.to,
                )
        }
    }

    /// Whether `m` is a move of this state that obeys how the pieces move.
    pub open spec fn pseudo_legal(self, m: Move) -> bool {
        self.applicable(m) && self.geometric(m)
    }

    /// Whether every move of `ms` is `pseudo_legal`.
    pub open spec fn all_pseudo_legal(self, ms: Seq<Move>) -> bool {
        forall|i: int| 0 <= i < ms.len() ==> self.pseudo_legal(#[trigger] ms[i])
    }

    /// Two lists of such moves put together are a list of such moves.
    pub proof fn lemma_all_concat(self, a: Seq<Move>, b: Seq<Move>)
        requires
            self.all_pseudo_legal(a),
            self.all_pseudo_legal(b),
        ensures
            self.all_pseudo_legal(a + b),
    {
        assert forall|i: int| 0 <= i < (a + b).len() implies self.pseudo_legal(
            #[trigger] (a + b)[i],
        ) by {
            if i < a.len() {
                assert((a + b)[i] == a[i]);
            } else {
                assert((a + b)[i] == b[i - a.len()]);
            }
        }
    }

    /// The moves by which a pawn arrives are `pseudo_legal` if one of them is
    /// but for the promotion.
    pub proof fn lemma_arrivals(self, from: u8, to: u8, capture: Option<PieceType>)
        requires
            self.pieces.len() == 64,
            from < 64,
            to < 64,
            self.pieces[from as int] == Some(Piece { c: self.turn, t: PieceType::Pawn }),
            match self.pieces[to as int] {
                Some(q) => q.c != self.turn && capture == Some(q.t),
                None => capture is None,
            },
            step(from, pawn_forward(self.turn)) is Some,
            ({
                let ahead = step(from, pawn_forward(self.turn))->0;
                ||| to == ahead && capture is None
                ||| (step(ahead, 1i8) == Some(to) || step(ahead, -1i8) == Some(to)) && capture is Some
            }),
        ensures
            self.all_pseudo_legal(pawn_arrivals(self.turn, from, to, capture)),
    {
        let ms = pawn_arrivals(self.turn, from, to, capture);
        assert forall|i: int| 0 <= i < ms.len() implies self.pseudo_legal(#[trigger] ms[i]) by {
            let m = ms[i];
            assert(m.from == from && m.to == to && m.capture == capture);
            assert(self.applicable(m));
            assert(self.pawn_geometry(m));
        }
    }

    /// The moves of a pawn of the side to move are `pseudo_legal`.
    pub proof fn lemma_pawn_moves(self, from: u8)
        requires
            self.inv(),
            from < 64,
            self.pieces[from as int] == Some(Piece { c: self.turn, t: PieceType::Pawn }),
        ensures
            self.all_pseudo_legal(pawn_moves(self, from)),
    {
        let turn = self.turn;
        let forward = pawn_forward(turn);
        match step(from, forward) {
            Some(to) => {
                let a = pawn_advances(self.pieces, turn, from, to);
                let c1 = pawn_capture(self.pieces, turn, from, to, 1i8);
                let c2 = pawn_capture(self.pieces, turn, from, to, -1i8);
                let e1 = pawn_en_passant(self.en_passant_target, from, to, 1i8);
                let e2 = pawn_en_passant(self.en_passant_target, from, to, -1i8);
                assert(self.all_pseudo_legal(a)) by {
                    if self.pieces[to as int] is None {
                        self.lemma_arrivals(from, to, None);
                        let d = pawn_double(self.pieces, turn, from, to);
                        assert(self.all_pseudo_legal(d)) by {
                            if d.len() > 0 {
                                let m = d[0];
                                assert(m.to as int / 8 != last_rank(turn));
                                assert(self.applicable(m));
                                assert(self.pawn_geometry(m));
                            }
                        }
                        self.lemma_all_concat(pawn_arrivals(turn, from, to, None), d);
                    }
                }
                assert(self.all_pseudo_legal(c1)) by {
                    self.lemma_pawn_capture(from, to, 1i8);
                }
                assert(self.all_pseudo_legal(c2)) by {
                    self.lemma_pawn_capture(from, to, -1i8);
                }
                assert(self.all_pseudo_legal(e1)) by {
                    self.lemma_pawn_en_passant(from, to, 1i8);
                }
                assert(self.all_pseudo_legal(e2)) by {
                    self.lemma_pawn_en_passant(from, to, -1i8);
                }
                self.lemma_all_concat(a, c1);
                self.lemma_all_concat(a + c1, c2);
                self.lemma_all_concat(a + c1 + c2, e1);
                self.lemma_all_concat(a + c1 + c2 + e1, e2);
            },
            None => {},
        }
    }

    /// The captures of a pawn to one side are `pseudo_legal`.
    pub proof fn lemma_pawn_capture(self, from: u8, to: u8, offset: i8)
        requires
            self.pieces.len() == 64,
            from < 64,
            self.pieces[from as int] == Some(Piece { c: self.turn, t: PieceType::Pawn }),
            step(from, pawn_forward(self.turn)) == Some(to),
            offset == 1 || offset == -1,
        ensures
            self.all_pseudo_legal(pawn_capture(self.pieces, self.turn, from, to, offset)),
    {
        match step(to, offset) {
            Some(t) => {
                match self.pieces[t as int] {
                    Some(p) => {
                        if p.c != self.turn {
                            self.lemma_arrivals(from, t, Some(p.t));
                        }
                    },
                    None => {},
                }
            },
            None => {},
        }
    }

    /// The en-passant capture of a pawn to one side is `pseudo_legal`.
    pub proof fn lemma_pawn_en_passant(self, from: u8, to: u8, offset: i8)
        requires
            self.inv(),
            from < 64,
            self.pieces[from as int] == Some(Piece { c: self.turn, t: PieceType::Pawn }),
            step(from, pawn_forward(self.turn)) == Some(to),
            offset == 1 || offset == -1,
        ensures
            self.all_pseudo_legal(pawn_en_passant(self.en_passant_target, from, to, offset)),
    {
        let ms = pawn_en_passant(self.en_passant_target, from, to, offset);
        if ms.len() > 0 {
            let m = ms[0];
            let t = self.en_passant_target->0;
            assert(self.can_capture_to(t));
            assert(m.to as int / 8 != last_rank(self.turn));
            assert(self.applicable(m));
            assert(self.pawn_geometry(m));
        }
    }

    /// The moves along one ray are moves of the piece on `from` that come to
    /// their square from `cur` along `offset`.
    pub proof fn lemma_ray_moves(self, t: PieceType, from: u8, cur: u8, offset: i8, i: int)
        requires
            self.pieces.len() == 64,
            from < 64,
            self.pieces[from as int] == Some(Piece { c: self.turn, t }),
            t != PieceType::Pawn,
            0 <= i < ray_moves(self.pieces, self.turn, t, from, cur, offset).len(),
        ensures
            ({
                let m = ray_moves(self.pieces, self.turn, t, from, cur, offset)[i];
                &&& self.applicable(m)
                &&& m.piece_type == t
                &&& m.from == from
                &&& !m.castle_queen
                &&& !m.castle_king
                &&& travels(self.pieces, t.spec_is_sliding(), cur, offset, m.to)
            }),
        decreases ray_room(cur, offset),
    {
        let to = step(cur, offset)->0;
        lemma_step_moves_on(cur, offset);
        if self.pieces[to as int] is None && i > 0 {
            self.lemma_ray_moves(t, from, to, offset, i - 1);
        }
    }

    /// The moves of a piece other than a pawn along its first `k` offsets are
    /// `pseudo_legal`.
    pub proof fn lemma_piece_moves(self, t: PieceType, from: u8, k: int)
        requires
            self.pieces.len() == 64,
            from < 64,
            self.pieces[from as int] == Some(Piece { c: self.turn, t }),
            t != PieceType::Pawn,
            0 <= k <= t.spec_offsets().len(),
        ensures
            self.all_pseudo_legal(piece_moves(self.pieces, self.turn, t, from, k)),
        decreases k,
    {
        if k > 0 {
            self.lemma_piece_moves(t, from, k - 1);
            let offset = t.spec_offsets()[k - 1];
            let ray = ray_moves(self.pieces, self.turn, t, from, from, offset);
            assert forall|i: int| 0 <= i < ray.len() implies self.pseudo_legal(#[trigger] ray[i]) by {
                self.lemma_ray_moves(t, from, from, offset, i);
                let m = ray[i];
                assert(travels(
                    self.pieces,
                    m.piece_type.spec_is_sliding(),
                    m.from,
                    m.piece_type.spec_offsets()[k - 1],
                    m.to,
                ));
            }
            self.lemma_all_concat(piece_moves(self.pieces, self.turn, t, from, k - 1), ray);
        }
    }

    /// The moves of the pieces on the squares below `n` are `pseudo_legal`.
    pub proof fn lemma_moves_upto(self, n: int)
        requires
            self.inv(),
            0 <= n <= 64,
        ensures
            self.all_pseudo_legal(moves_upto(self, n)),
        decreases n,
    {
        if n > 0 {
            self.lemma_moves_upto(n - 1);
            let from = (n - 1) as u8;
            assert(self.all_pseudo_legal(square_moves(self, from))) by {
                match self.pieces[from as int] {
                    Some(p) => {
                        if p.c == self.turn {
                            if p.t == PieceType::Pawn {
                                self.lemma_pawn_moves(from);
                            } else {
                                self.lemma_piece_moves(p.t, from, p.t.spec_offsets().len() as int);
                            }
                        }
                    },
                    None => {},
                }
            }
            self.lemma_all_concat(moves_upto(self, n - 1), square_moves(self, from));
        }
    }

    /// Every move that the generator gives can be played and obeys how its piece
    /// moves.
    pub proof fn lemma_pseudo_legal_moves(self)
        requires
            self.inv(),
        ensures
            self.all_pseudo_legal(self.pseudo_legal_moves()),
    {
        self.lemma_moves_upto(64);
        let q = queen_castling(self);
        let k = king_castling(self);
        assert(self.all_pseudo_legal(q)) by {
            if q.len() > 0 {
                assert(self.rights_backed(self.turn));
                assert(self.applicable(q[0]));
            }
        }
        assert(self.all_pseudo_legal(k)) by {
            if k.len() > 0 {
                assert(self.rights_backed(self.turn));
                assert(self.applicable(k[0]));
            }
        }
        self.lemma_all_concat(moves_upto(self, 64), q);
        self.lemma_all_concat(moves_upto(self, 64) + q, k);
    }

    /// What is in one of two lists is in the two put together.
    pub proof fn lemma_in_concat(a: Seq<Move>, b: Seq<Move>, m: Move)
        requires
            a.contains(m) || b.contains(m),
        ensures
            (a + b).contains(m),
    {
        if a.contains(m) {
            let i = choose|i: int| 0 <= i < a.len() && a[i] == m;
            assert((a + b)[i] == m);
        } else {
            let i = choose|i: int| 0 <= i < b.len() && b[i] == m;
            assert((a + b)[a.len() + i] == m);
        }
    }

    /// A move to a square that the piece comes to along a ray is among the moves
    /// along that ray.
    pub proof fn lemma_ray_moves_complete(self, m: Move, cur: u8, offset: i8)
        requires
            self.pieces.len() == 64,
            self.applicable(m),
            !m.castle_queen,
            !m.castle_king,
            m.piece_type != PieceType::Pawn,
            travels(self.pieces, m.piece_type.spec_is_sliding(), cur, offset, m.to),
        ensures
            ray_moves(self.pieces, self.turn, m.piece_type, m.from, cur, offset).contains(m),
        decreases ray_room(cur, offset),
    {
        let next = step(cur, offset)->0;
        let moves = ray_moves(self.pieces, self.turn, m.piece_type, m.from, cur, offset);
        lemma_step_moves_on(cur, offset);
        if next == m.to {
            assert(moves[0] == m);
        } else {
            self.lemma_ray_moves_complete(m, next, offset);
            let rest = ray_moves(self.pieces, self.turn, m.piece_type, m.from, next, offset);
            Self::lemma_in_concat(
                seq![Move { piece_type: m.piece_type, from: m.from, to: next, ..Move::blank() }],
                rest,
                m,
            );
        }
    }

    /// The moves along one of the first `k` offsets are among the moves along the
    /// first `k` offsets.
    pub proof fn lemma_piece_moves_complete(self, m: Move, i: int, k: int)
        requires
            0 <= i < k <= m.piece_type.spec_offsets().len(),
            ray_moves(
                self.pieces,
                self.turn,
                m.piece_type,
                m.from,
                m.from,
                m.piece_type.spec_offsets()[i],
            ).contains(m),
        ensures
            piece_moves(self.pieces, self.turn, m.piece_type, m.from, k).contains(m),
        decreases k,
    {
        if i < k - 1 {
            self.lemma_piece_moves_complete(m, i, k - 1);
        }
        Self::lemma_in_concat(
            piece_moves(self.pieces, self.turn, m.piece_type, m.from, k - 1),
            ray_moves(
                self.pieces,
                self.turn,
                m.piece_type,
                m.from,
                m.from,
                m.piece_type.spec_offsets()[k - 1],
            ),
            m,
        );
    }

    /// A move that is among the moves of its square is among the moves of the
    /// squares below `n`, if its square is.
    pub proof fn lemma_moves_upto_complete(self, m: Move, n: int)
        requires
            0 <= m.from < n <= 64,
            square_moves(self, m.from).contains(m),
        ensures
            moves_upto(self, n).contains(m),
        decreases n,
    {
        if m.from < n - 1 {
            self.lemma_moves_upto_complete(m, n - 1);
        }
        Self::lemma_in_concat(moves_upto(self, n - 1), square_moves(self, (n - 1) as u8), m);
    }

    /// A pawn's move that arrives on `m.to` is among the moves by which a pawn
    /// arrives there.
    pub proof fn lemma_arrivals_complete(self, m: Move)
        requires
            self.applicable(m),
            self.pawn_geometry(m),
            m.piece_type == PieceType::Pawn,
            !m.castle_queen,
            !m.castle_king,
            !m.en_passant,
            m.new_en_passant_target is None,
        ensures
            pawn_arrivals(self.turn, m.from, m.to, m.capture).contains(m),
    {
        let a = pawn_arrivals(self.turn, m.from, m.to, m.capture);
        match m.promote_to {
            Some(PieceType::Rook) => {
                assert(a[0] == m);
            },
            Some(PieceType::Knight) => {
                assert(a[1] == m);
            },
            Some(PieceType::Bishop) => {
                assert(a[2] == m);
            },
            Some(PieceType::Queen) => {
                assert(a[3] == m);
            },
            _ => {
                assert(a[0] == m);
            },
        }
    }

    /// A pawn's move that obeys how pawns move is among the moves of its pawn.
    pub proof fn lemma_pawn_moves_complete(self, m: Move)
        requires
            self.inv(),
            self.applicable(m),
            self.pawn_geometry(m),
            m.piece_type == PieceType::Pawn,
            !m.castle_queen,
            !m.castle_king,
        ensures
            pawn_moves(self, m.from).contains(m),
    {
        let turn = self.turn;
        let from = m.from;
        let to = step(from, pawn_forward(turn))->0;
        let a = pawn_advances(self.pieces, turn, from, to);
        let c1 = pawn_capture(self.pieces, turn, from, to, 1i8);
        let c2 = pawn_capture(self.pieces, turn, from, to, -1i8);
        let e1 = pawn_en_passant(self.en_passant_target, from, to, 1i8);
        let e2 = pawn_en_passant(self.en_passant_target, from, to, -1i8);
        if m.en_passant {
            if step(to, 1i8) == Some(m.to) {
                assert(e1[0] == m);
            } else {
                assert(e2[0] == m);
            }
        } else if m.capture is Some {
            self.lemma_arrivals_complete(m);
        } else if m.new_en_passant_target is Some {
            let d = pawn_double(self.pieces, turn, from, to);
            assert(d[0] == m);
            Self::lemma_in_concat(pawn_arrivals(turn, from, to, None), d, m);
        } else {
            self.lemma_arrivals_complete(m);
            Self::lemma_in_concat(
                pawn_arrivals(turn, from, to, None),
                pawn_double(self.pieces, turn, from, to),
                m,
            );
        }
        assert(a.contains(m) || c1.contains(m) || c2.contains(m) || e1.contains(m) || e2.contains(m));
        if a.contains(m) || c1.contains(m) {
            Self::lemma_in_concat(a, c1, m);
        }
        if (a + c1).contains(m) || c2.contains(m) {
            Self::lemma_in_concat(a + c1, c2, m);
        }
        if (a + c1 + c2).contains(m) || e1.contains(m) {
            Self::lemma_in_concat(a + c1 + c2, e1, m);
        }
        Self::lemma_in_concat(a + c1 + c2 + e1, e2, m);
    }

    /// Every move of the side to move that obeys how its piece moves is among the
    /// moves that the generator gives.
    pub proof fn lemma_pseudo_legal_complete(self, m: Move)
        requires
            self.inv(),
            self.pseudo_legal(m),
        ensures
            self.pseudo_legal_moves().contains(m),
    {
        let upto = moves_upto(self, 64);
        let q = queen_castling(self);
        let k = king_castling(self);
        if m.castle_queen {
            assert(q[0] == m);
        } else if m.castle_king {
            assert(k[0] == m);
        } else {
            if m.piece_type == PieceType::Pawn {
                self.lemma_pawn_moves_complete(m);
            } else {
                let i = choose|i: int|
                    0 <= i < m.piece_type.spec_offsets().len() && travels(
                        self.pieces,
                        m.piece_type.spec_is_sliding(),
                        m.from,
                        #[trigger] m.piece_type.spec_offsets()[i],
                        m.to,
                    );
                self.lemma_ray_moves_complete(m, m.from, m.piece_type.spec_offsets()[i]);
                self.lemma_piece_moves_complete(m, i, m.piece_type.spec_offsets().len() as int);
            }
            self.lemma_moves_upto_complete(m, 64);
        }
        if upto.contains(m) || q.contains(m) {
            Self::lemma_in_concat(upto, q, m);
        }
        Self::lemma_in_concat(upto + q, k, m);
    }

    /// The moves that obey how the pieces move, whether or not they leave the
    /// mover's king attacked: those of the pieces of the side to move, square by
    /// square, then castling on the queen's side and on the king's side.
    pub open spec fn pseudo_legal_moves(self) -> Seq<Move> {
        moves_upto(self, 64) + queen_castling(self) + king_castling(self)
    }
}

impl ChessStateView {
    /// Whether `m` leaves the king of the side that plays it unattacked.
    pub open spec fn leaves_king_safe(self, m: Move) -> bool {
        !self.make(m).check.at(self.turn)
    }

    /// Those of the first `n` moves of `ms` that leave the mover's king
    /// unattacked, in their order.
    pub open spec fn legal_among(self, ms: Seq<Move>, n: int) -> Seq<Move>
        decreases n,
    {
        if n <= 0 {
            seq![]
        } else if self.leaves_king_safe(ms[n - 1]) {
            self.legal_among(ms, n - 1).push(ms[n - 1])
        } else {
            self.legal_among(ms, n - 1)
        }
    }

    /// The legal moves: the pseudo-legal moves that leave the mover's king
    /// unattacked, in the order in which the generator gives them.
    pub open spec fn legal_moves(self) -> Seq<Move> {
        self.legal_among(self.pseudo_legal_moves(), self.pseudo_legal_moves().len() as int)
    }

    /// Each of the moves kept is one of the first `n` and leaves the king safe.
    pub proof fn lemma_legal_among(self, ms: Seq<Move>, n: int, i: int)
        requires
            0 <= n <= ms.len(),
            0 <= i < self.legal_among(ms, n).len(),
        ensures
            self.leaves_king_safe(self.legal_among(ms, n)[i]),
            exists|j: int| 0 <= j < n && #[trigger] ms[j] == self.legal_among(ms, n)[i],
        decreases n,
    {
        if n > 0 {
            let prev = self.legal_among(ms, n - 1);
            if i < prev.len() {
                self.lemma_legal_among(ms, n - 1, i);
                let j = choose|j: int| 0 <= j < n - 1 && #[trigger] ms[j] == prev[i];
                assert(ms[j] == self.legal_among(ms, n)[i]);
            } else {
                assert(ms[n - 1] == self.legal_among(ms, n)[i]);
            }
        }
    }

    /// Whether `m` is a legal move: it obeys how its piece moves and leaves the
    /// mover's king unattacked.
    pub open spec fn legal(self, m: Move) -> bool {
        self.pseudo_legal(m) && self.leaves_king_safe(m)
    }

    /// Where none of the first `n` moves leaves the king safe, none is kept.
    pub proof fn lemma_none_legal(self, ms: Seq<Move>, n: int)
        requires
            0 <= n <= ms.len(),
            forall|j: int| 0 <= j < n ==> !self.leaves_king_safe(#[trigger] ms[j]),
        ensures
            self.legal_among(ms, n).len() == 0,
        decreases n,
    {
        if n > 0 {
            self.lemma_none_legal(ms, n - 1);
        }
    }

    /// One of the first `n` moves that leaves the king safe is among those kept.
    pub proof fn lemma_legal_among_keeps(self, ms: Seq<Move>, n: int, j: int)
        requires
            0 <= j < n <= ms.len(),
            self.leaves_king_safe(ms[j]),
        ensures
            self.legal_among(ms, n).contains(ms[j]),
        decreases n,
    {
        let prev = self.legal_among(ms, n - 1);
        if j < n - 1 {
            self.lemma_legal_among_keeps(ms, n - 1, j);
            if self.leaves_king_safe(ms[n - 1]) {
                let i = choose|i: int| 0 <= i < prev.len() && prev[i] == ms[j];
                assert(prev.push(ms[n - 1])[i] == ms[j]);
            }
        } else {
            assert(prev.push(ms[n - 1])[prev.len() as int] == ms[j]);
        }
    }

    /// The legal moves are the moves of the side to move that obey how their
    /// piece moves and leave the mover's king unattacked: these and no others.
    pub proof fn lemma_legal_moves_exact(self, m: Move)
        requires
            self.inv(),
        ensures
            self.legal_moves().contains(m) <==> self.legal(m),
    {
        let ms = self.pseudo_legal_moves();
        if self.legal_moves().contains(m) {
            let i = choose|i: int| 0 <= i < self.legal_moves().len() && self.legal_moves()[i] == m;
            self.lemma_legal_moves_sound(i);
            self.lemma_legal_among(ms, ms.len() as int, i);
        }
        if self.legal(m) {
            self.lemma_pseudo_legal_complete(m);
            let j = choose|j: int| 0 <= j < ms.len() && ms[j] == m;
            self.lemma_legal_among_keeps(ms, ms.len() as int, j);
        }
    }

    /// The moves that the generator gives are the moves of the side to move that
    /// obey how their piece moves: these and no others.
    pub proof fn lemma_pseudo_legal_exact(self, m: Move)
        requires
            self.inv(),
        ensures
            self.pseudo_legal_moves().contains(m) <==> self.pseudo_legal(m),
    {
        let ms = self.pseudo_legal_moves();
        if ms.contains(m) {
            self.lemma_pseudo_legal_moves();
            let i = choose|i: int| 0 <= i < ms.len() && ms[i] == m;
            assert(self.pseudo_legal(ms[i]));
        }
        if self.pseudo_legal(m) {
            self.lemma_pseudo_legal_complete(m);
        }
    }

    /// Every legal move can be played.
    pub proof fn lemma_legal_moves_applicable(self, i: int)
        requires
            self.inv(),
            0 <= i < self.legal_moves().len(),
        ensures
            self.applicable(self.legal_moves()[i]),
            self.legal_moves()[i].from < 64,
            self.legal_moves()[i].to < 64,
    {
        self.lemma_legal_moves_sound(i);
    }

    /// Every legal move is a move of the side to move that obeys how its piece
    /// moves, and after it no piece of the other side attacks the mover's king.
    pub proof fn lemma_legal_moves_sound(self, i: int)
        requires
            self.inv(),
            0 <= i < self.legal_moves().len(),
        ensures
            self.pseudo_legal(self.legal_moves()[i]),
            !attacked(
                board_after(self.pieces, self.turn, self.legal_moves()[i]),
                self.king_pos_after(self.legal_moves()[i]).at(self.turn),
                self.turn.opposite(),
            ),
    {
        let ms = self.pseudo_legal_moves();
        self.lemma_pseudo_legal_moves();
        self.lemma_legal_among(ms, ms.len() as int, i);
    }
}

impl ChessState {
    /// Appends the moves by which a pawn arrives on `to`.
    fn push_pawn_arrivals(&self, from: u8, to: u8, capture: Option<PieceType>, moves: &mut Vec<Move>)
        ensures
            final(moves)@ == old(moves)@ + pawn_arrivals(self.turn, from, to, capture),
    {
        let m = Move { piece_type: PieceType::Pawn, from, to, capture, ..Move::default() };
        let last: u8 = match self.turn {
            PieceColor::White => 7,
            PieceColor::Black => 0,
        };
        if to / 8 == last {
            moves.push(Move { promote_to: Some(PieceType::Rook), ..m });
            moves.push(Move { promote_to: Some(PieceType::Knight), ..m });
            moves.push(Move { promote_to: Some(PieceType::Bishop), ..m });
            moves.push(Move { promote_to: Some(PieceType::Queen), ..m });
        } else {
            moves.push(m);
        }
        assert(moves@ =~= old(moves)@ + pawn_arrivals(self.turn, from, to, capture));
    }

    /// Appends the capture by a pawn on `from` to the square `offset` beside `to`.
    fn push_pawn_capture(&self, from: u8, to: u8, offset: i8, moves: &mut Vec<Move>)
        requires
            to < 64,
            -1 <= offset <= 1,
        ensures
            final(moves)@ == old(moves)@ + pawn_capture(self.pieces@, self.turn, from, to, offset),
    {
        if let Some(t) = with_offset(to, offset) {
            if let Some(p) = self.pieces[t as usize] {
                if p.c != self.turn {
                    self.push_pawn_arrivals(from, t, Some(p.t), moves);
                    return ;
                }
            }
        }
        assert(moves@ =~= old(moves)@ + pawn_capture(self.pieces@, self.turn, from, to, offset));
    }

    /// Appends the en-passant capture by a pawn on `from` to the square `offset`
    /// beside `to`.
    fn push_pawn_en_passant(&self, from: u8, to: u8, offset: i8, moves: &mut Vec<Move>)
        requires
            to < 64,
            -1 <= offset <= 1,
        ensures
            final(moves)@ == old(moves)@ + pawn_en_passant(self.en_passant_target, from, to, offset),
    {
        if let Some(en_passant_target) = self.en_passant_target {
            if let Some(t) = with_offset(to, offset) {
                if t == en_passant_target {
                    moves.push(
                        Move {
                            piece_type: PieceType::Pawn,
                            from,
                            to: en_passant_target,
                            capture: Some(PieceType::Pawn),
                            en_passant: true,
                            ..Move::default()
                        },
                    );
                    assert(moves@ =~= old(moves)@ + pawn_en_passant(
                        self.en_passant_target,
                        from,
                        to,
                        offset,
                    ));
                    return ;
                }
            }
        }
        assert(moves@ =~= old(moves)@ + pawn_en_passant(self.en_passant_target, from, to, offset));
    }

    /// Appends the moves of the pawn on `from`.
    fn gen_pawn_moves(&self, from: u8, moves: &mut Vec<Move>)
        requires
            from < 64,
        ensures
            final(moves)@ == old(moves)@ + pawn_moves(self@, from),
    {
        let forward: i8 = match self.turn {
            PieceColor::White => 10,
            PieceColor::Black => -10,
        };
        let to = match with_offset(from, forward) {
            Some(to) => to,
            None => {
                assert(moves@ =~= old(moves)@ + pawn_moves(self@, from));
                return ;
            },
        };

        self.push_pawn_advances(from, to, moves);
        let ghost a = pawn_advances(self.pieces@, self.turn, from, to);
        let ghost c1 = pawn_capture(self.pieces@, self.turn, from, to, 1i8);
        let ghost c2 = pawn_capture(self.pieces@, self.turn, from, to, -1i8);
        let ghost e1 = pawn_en_passant(self.en_passant_target, from, to, 1i8);
        let ghost e2 = pawn_en_passant(self.en_passant_target, from, to, -1i8);

        // Capture
        self.push_pawn_capture(from, to, 1, moves);
        self.push_pawn_capture(from, to, -1, moves);

        // En passant
        self.push_pawn_en_passant(from, to, 1, moves);
        self.push_pawn_en_passant(from, to, -1, moves);
        proof {
            lemma_concat_assoc(old(moves)@, a, c1);
            lemma_concat_assoc(old(moves)@, a + c1, c2);
            lemma_concat_assoc(old(moves)@, a + c1 + c2, e1);
            lemma_concat_assoc(old(moves)@, a + c1 + c2 + e1, e2);
        }
    }

    /// Appends the advances of a pawn on `from` to `to`, the square ahead of it,
    /// and beyond.
    fn push_pawn_advances(&self, from: u8, to: u8, moves: &mut Vec<Move>)
        requires
            to < 64,
        ensures
            final(moves)@ == old(moves)@ + pawn_advances(self.pieces@, self.turn, from, to),
    {
        let forward: i8 = match self.turn {
            PieceColor::White => 10,
            PieceColor::Black => -10,
        };
        if self.pieces[to as usize].is_none() {
            self.push_pawn_arrivals(from, to, None, moves);
            let ghost single = moves@;
            let start: u8 = match self.turn {
                PieceColor::White => 1,
                PieceColor::Black => 6,
            };
            if from / 8 == start {
                if let Some(to2) = with_offset(to, forward) {
                    if self.pieces[to2 as usize].is_none() {
                        moves.push(
                            Move {
                                piece_type: PieceType::Pawn,
                                from,
                                to: to2,
                                new_en_passant_target: Some(to),
                                ..Move::default()
                            },
                        );
                    }
                }
            }
            assert(moves@ =~= single + pawn_double(self.pieces@, self.turn, from, to));
            proof {
                lemma_concat_assoc(
                    old(moves)@,
                    pawn_arrivals(self.turn, from, to, None),
                    pawn_double(self.pieces@, self.turn, from, to),
                );
            }
        } else {
            assert(moves@ =~= old(moves)@ + pawn_advances(self.pieces@, self.turn, from, to));
        }
    }

    /// Appends the moves of the piece `p` on `from` along `offset`.
    fn gen_ray_moves(&self, p: Piece, from: u8, offset: i8, moves: &mut Vec<Move>)
        requires
            can_step(from, offset),
        ensures
            final(moves)@ == old(moves)@ + ray_moves(self.pieces@, self.turn, p.t, from, from, offset),
    {
        let mut to = from;
        loop
            invariant_except_break
                can_step(to, offset),
                moves@ + ray_moves(self.pieces@, self.turn, p.t, from, to, offset) =~= old(moves)@
                    + ray_moves(self.pieces@, self.turn, p.t, from, from, offset),
            ensures
                moves@ == old(moves)@ + ray_moves(self.pieces@, self.turn, p.t, from, from, offset),
            decreases ray_room(to, offset),
        {
            let ghost reached = to;
            let ghost pushed = moves@;
            proof {
                if step(to, offset) is Some {
                    lemma_step_moves_on(to, offset);
                }
            }
            to =
            match with_offset(to, offset) {
                Some(n) => n,
                None => {
                    assert(pushed + Seq::<Move>::empty() =~= pushed);
                    break ;
                },
            };

            if let Some(other) = self.pieces[to as usize] {
                if other.c != self.turn {
                    moves.push(
                        Move { piece_type: p.t, from, to, capture: Some(other.t), ..Move::default() },
                    );
                }
                assert(moves@ =~= pushed + ray_moves(
                    self.pieces@,
                    self.turn,
                    p.t,
                    from,
                    reached,
                    offset,
                ));
                break ;
            }
            moves.push(Move { piece_type: p.t, from, to, ..Move::default() });

            if !p.t.is_sliding() {
                assert(moves@ =~= pushed + ray_moves(
                    self.pieces@,
                    self.turn,
                    p.t,
                    from,
                    reached,
                    offset,
                ));
                break ;
            }
            assert(moves@ + ray_moves(self.pieces@, self.turn, p.t, from, to, offset) =~= pushed
                + ray_moves(self.pieces@, self.turn, p.t, from, reached, offset));
        }
    }

    /// Appends the moves of the piece `p` on `from`, ray by ray.
    fn gen_non_pawn_moves(&self, p: Piece, from: u8, moves: &mut Vec<Move>)
        requires
            from < 64,
        ensures
            final(moves)@ == old(moves)@ + piece_moves(
                self.pieces@,
                self.turn,
                p.t,
                from,
                p.t.spec_offsets().len() as int,
            ),
    {
        let offsets = p.t.offsets();
        let mut k: usize = 0;
        assert(moves@ =~= old(moves)@ + piece_moves(self.pieces@, self.turn, p.t, from, 0));
        while k < offsets.len()
            invariant
                k <= offsets@.len(),
                from < 64,
                offsets@ == p.t.spec_offsets(),
                forall|i: int| 0 <= i < offsets@.len() ==> -21 <= #[trigger] offsets@[i] <= 21 && offsets@[i] != 0,
                moves@ == old(moves)@ + piece_moves(self.pieces@, self.turn, p.t, from, k as int),
            decreases offsets@.len() - k,
        {
            self.gen_ray_moves(p, from, offsets[k], moves);
            k += 1;
            assert(moves@ =~= old(moves)@ + piece_moves(self.pieces@, self.turn, p.t, from, k as int));
        }
    }

    /// Appends the castling moves of the side to move.
    fn gen_castling_moves(&self, moves: &mut Vec<Move>)
        ensures
            final(moves)@ == old(moves)@ + queen_castling(self@) + king_castling(self@),
    {
        let turn = self.turn;
        let offset: u8 = turn.back_rank();

        if self.queen_castle.get(turn) && !self.check.get(turn) && self.pieces[(1 + offset) as usize].is_none()
            && self.pieces[(2 + offset) as usize].is_none() && self.pieces[(3 + offset) as usize].is_none()
            && !self.is_square_attacked_by(2 + offset, turn.opposite())
            && !self.is_square_attacked_by(3 + offset, turn.opposite()) {
            moves.push(
                Move {
                    piece_type: PieceType::King,
                    from: 4 + offset,
                    to: 2 + offset,
                    castle_queen: true,
                    ..Move::default()
                },
            );
        }
        assert(moves@ =~= old(moves)@ + queen_castling(self@));

        if self.king_castle.get(turn) && !self.check.get(turn) && self.pieces[(6 + offset) as usize].is_none()
            && self.pieces[(5 + offset) as usize].is_none() && !self.is_square_attacked_by(
            6 + offset,
            turn.opposite(),
        ) && !self.is_square_attacked_by(5 + offset, turn.opposite()) {
            moves.push(
                Move {
                    piece_type: PieceType::King,
                    castle_king: true,
                    from: 4 + offset,
                    to: 6 + offset,
                    ..Move::default()
                },
            );
        }
        assert(moves@ =~= old(moves)@ + queen_castling(self@) + king_castling(self@));
    }

    /// The moves that obey how the pieces move, each once; some may leave the
    /// mover's own king attacked.
    pub fn gen_pseudo_legal_moves(&mut self) -> (moves: Vec<Move>)
        ensures
            moves@ == old(self)@.pseudo_legal_moves(),
            moves@.no_duplicates(),
            old(self)@.inv() ==> forall|m: Move| moves@.contains(m) <==> old(self)@.pseudo_legal(m),
            *final(self) == *old(self),
    {
        proof {
            old(self)@.lemma_pseudo_legal_distinct();
            if old(self)@.inv() {
                assert forall|m: Move|
                    old(self)@.pseudo_legal_moves().contains(m) <==> old(self)@.pseudo_legal(m) by {
                    old(self)@.lemma_pseudo_legal_exact(m);
                }
            }
        }
        let mut moves = Vec::<Move>::new();
        let mut from: u8 = 0;
        while from < 64
            invariant
                from <= 64,
                *self == *old(self),
                moves@ == moves_upto(self@, from as int),
            decreases 64 - from,
        {
            let ghost pushed = moves@;
            if let Some(p) = self.pieces[from as usize] {
                if p.c == self.turn {
                    match p.t {
                        PieceType::Pawn => self.gen_pawn_moves(from, &mut moves),
                        _ => self.gen_non_pawn_moves(p, from, &mut moves),
                    }
                }
            }
            assert(moves@ =~= pushed + square_moves(self@, from));
            from += 1;
        }
        self.gen_castling_moves(&mut moves);
        moves
    }

    /// The legal moves, each once: each pseudo-legal move is played, kept if it
    /// leaves the mover's king unattacked, and taken back.
    pub fn gen_moves(&mut self) -> (moves: Vec<Move>)
        requires
            old(self)@.wf(),
        ensures
            moves@ == old(self)@.legal_moves(),
            moves@.no_duplicates(),
            forall|m: Move| moves@.contains(m) <==> old(self)@.legal(m),
            final(self)@ == old(self)@,
    {
        proof {
            old(self)@.lemma_legal_distinct();
            assert forall|m: Move| old(self)@.legal_moves().contains(m) <==> old(self)@.legal(m) by {
                old(self)@.lemma_legal_moves_exact(m);
            }
        }
        let pseudo = self.gen_pseudo_legal_moves();
        let mut moves = Vec::<Move>::new();
        let mut i: usize = 0;
        proof {
            self@.lemma_pseudo_legal_moves();
        }
        while i < pseudo.len()
            invariant
                i <= pseudo@.len(),
                self@ == old(self)@,
                self@.wf(),
                pseudo@ == self@.pseudo_legal_moves(),
                self@.all_pseudo_legal(pseudo@),
                moves@ == self@.legal_among(pseudo@, i as int),
            decreases pseudo@.len() - i,
        {
            let m = pseudo[i];
            let turn = self.turn;
            proof {
                self@.lemma_unmake_make(m);
            }
            // Play the move, see whether the king is left in check, take it back
            self.make_move(&m);
            let legal = !self.check.get(turn);
            self.unmake_last_move();
            if legal {
                moves.push(m);
            }
            i += 1;
        }
        moves
    }
}

} // verus!
