use super::gen_moves::{
    king_castling, moves_upto, travels, pawn_advances, pawn_arrivals, pawn_capture, pawn_double,
    pawn_en_passant, pawn_forward, pawn_moves, piece_moves, queen_castling, ray_moves, square_moves,
    Move,
};
use super::{can_step, lemma_step_moves_on, ray_room, step, ChessStateView, Piece, PieceColor, PieceType};
use vstd::prelude::*;

verus! {

/// Whether every move of `ms` is one that `p` holds of.
pub open spec fn all_are(ms: Seq<Move>, p: spec_fn(Move) -> bool) -> bool {
    forall|i: int| 0 <= i < ms.len() ==> p(#[trigger] ms[i])
}

/// What holds of the moves of two lists holds of the moves of the two put
/// together.
pub proof fn lemma_all_are_concat(a: Seq<Move>, b: Seq<Move>, p: spec_fn(Move) -> bool)
    requires
        all_are(a, p),
        all_are(b, p),
    ensures
        all_are(a + b, p),
{
    assert forall|i: int| 0 <= i < (a + b).len() implies p(#[trigger] (a + b)[i]) by {
        if i < a.len() {
            assert((a + b)[i] == a[i]);
        } else {
            assert((a + b)[i] == b[i - a.len()]);
        }
    }
}

/// Two lists without a move twice, put together, are without a move twice if
/// something holds of every move of the one and of no move of the other.
pub proof fn lemma_distinct_concat(a: Seq<Move>, b: Seq<Move>, p: spec_fn(Move) -> bool)
    requires
        a.no_duplicates(),
        b.no_duplicates(),
        all_are(a, p),
        all_are(b, |m: Move| !p(m)),
    ensures
        (a + b).no_duplicates(),
{
    assert forall|i: int, j: int| 0 <= i < (a + b).len() && 0 <= j < (a + b).len() && i != j implies (
    a + b)[i] != (a + b)[j] by {
        if i < a.len() && j >= a.len() {
            assert(p(a[i]));
            assert(!p(b[j - a.len()]));
        } else if j < a.len() && i >= a.len() {
            assert(p(a[j]));
            assert(!p(b[i - a.len()]));
        }
    }
}

/// Whether `to` lies from `from` in the direction of `offset`: for a step along
/// a rank, a file or a diagonal, anywhere along that line on its side of `from`;
/// for any other step, at the end of the step.
pub open spec fn lies_along(from: u8, offset: i8, to: u8) -> bool {
    let files = to as int % 8 - from as int % 8;
    let ranks = to as int / 8 - from as int / 8;
    if offset == 1 {
        ranks == 0 && files > 0
    } else if offset == -1 {
        ranks == 0 && files < 0
    } else if offset == 10 {
        files == 0 && ranks > 0
    } else if offset == -10 {
        files == 0 && ranks < 0
    } else if offset == 11 {
        files == ranks && ranks > 0
    } else if offset == -11 {
        files == ranks && ranks < 0
    } else if offset == 9 {
        files == -ranks && ranks > 0
    } else if offset == -9 {
        files == -ranks && ranks < 0
    } else {
        step(from, offset) == Some(to)
    }
}

/// Whether `offset` is a step along a rank, a file or a diagonal.
pub open spec fn straight(offset: i8) -> bool {
    offset == 1 || offset == -1 || offset == 10 || offset == -10 || offset == 11 || offset == -11
        || offset == 9 || offset == -9
}

/// One step leads to a square that lies along its offset, and what lies along
/// the offset from there lies along it from here.
pub proof fn lemma_step_lies_along(from: u8, offset: i8, to: u8)
    requires
        can_step(from, offset),
        step(from, offset) is Some,
    ensures
        lies_along(from, offset, step(from, offset)->0),
        straight(offset) && lies_along(step(from, offset)->0, offset, to) ==> lies_along(
            from,
            offset,
            to,
        ),
        lies_along(step(from, offset)->0, offset, to) ==> to != step(from, offset)->0,
{
}

/// No square lies along two offsets of one piece.
pub proof fn lemma_one_direction(from: u8, a: i8, b: i8, to: u8)
    requires
        from < 64,
        to < 64,
        lies_along(from, a, to),
        lies_along(from, b, to),
        straight(a) == straight(b),
        -21 <= a <= 21,
        -21 <= b <= 21,
    ensures
        a == b,
{
}

/// The offsets of a piece are all different.
pub proof fn lemma_offsets_differ(t: PieceType, i: int, j: int)
    requires
        0 <= i < j < t.spec_offsets().len(),
    ensures
        t.spec_offsets()[i] != t.spec_offsets()[j],
        can_step(0, t.spec_offsets()[i]),
        can_step(0, t.spec_offsets()[j]),
        straight(t.spec_offsets()[i]) == straight(t.spec_offsets()[j]),
{
}

/// A piece that slides does so along ranks, files or diagonals.
pub proof fn lemma_sliders_go_straight(t: PieceType, i: int)
    requires
        0 <= i < t.spec_offsets().len(),
        t.spec_is_sliding(),
    ensures
        straight(t.spec_offsets()[i]),
{
}

/// Whether `m` is a plain move of the piece of type `t` on `from`: no castling,
/// no promotion, no double step, no en-passant capture.
pub open spec fn plain(t: PieceType, from: u8, m: Move) -> bool {
    m.piece_type == t && m.from == from && !m.castle_queen && !m.castle_king && !m.en_passant
        && m.promote_to is None && m.new_en_passant_target is None && m.to < 64
}

/// The moves along one ray are plain moves to squares that lie along the ray
/// beyond `cur`, and none stands twice.
pub proof fn lemma_ray_distinct(
    pieces: Seq<Option<Piece>>,
    turn: PieceColor,
    t: PieceType,
    from: u8,
    cur: u8,
    offset: i8,
)
    requires
        t.spec_is_sliding() ==> straight(offset),
    ensures
        ray_moves(pieces, turn, t, from, cur, offset).no_duplicates(),
        all_are(
            ray_moves(pieces, turn, t, from, cur, offset),
            |m: Move| plain(t, from, m) && lies_along(cur, offset, m.to),
        ),
    decreases ray_room(cur, offset),
{
    let ms = ray_moves(pieces, turn, t, from, cur, offset);
    if can_step(cur, offset) && step(cur, offset) is Some {
        let to = step(cur, offset)->0;
        lemma_step_moves_on(cur, offset);
        if pieces[to as int] is None && t.spec_is_sliding() {
            let rest = ray_moves(pieces, turn, t, from, to, offset);
            lemma_ray_distinct(pieces, turn, t, from, to, offset);
            let first = seq![Move { piece_type: t, from, to, ..Move::blank() }];
            assert(ms == first + rest);
            assert forall|i: int| 0 <= i < ms.len() implies plain(t, from, #[trigger] ms[i])
                && lies_along(cur, offset, ms[i].to) by {
                lemma_step_lies_along(cur, offset, ms[i].to);
                if i > 0 {
                    assert(ms[i] == rest[i - 1]);
                    assert(plain(t, from, rest[i - 1]) && lies_along(to, offset, rest[i - 1].to));
                    assert(straight(offset));
                }
            }
            assert forall|i: int, j: int| 0 <= i < ms.len() && 0 <= j < ms.len() && i != j implies ms[i]
                != ms[j] by {
                if i > 0 && j > 0 {
                    assert(rest[i - 1] != rest[j - 1]);
                } else if i == 0 {
                    assert(ms[j] == rest[j - 1]);
                    assert(plain(t, from, rest[j - 1]) && lies_along(to, offset, rest[j - 1].to));
                    lemma_step_lies_along(cur, offset, rest[j - 1].to);
                } else {
                    assert(ms[i] == rest[i - 1]);
                    assert(plain(t, from, rest[i - 1]) && lies_along(to, offset, rest[i - 1].to));
                    lemma_step_lies_along(cur, offset, rest[i - 1].to);
                }
            }
        } else {
            assert forall|i: int| 0 <= i < ms.len() implies plain(t, from, #[trigger] ms[i])
                && lies_along(cur, offset, ms[i].to) by {
                lemma_step_lies_along(cur, offset, ms[i].to);
            }
        }
    }
}

/// Whether `m` is a plain move of the piece of type `t` on `from` to a square
/// that lies along one of the first `k` offsets of the piece.
pub open spec fn along_one_of(t: PieceType, from: u8, k: int, m: Move) -> bool {
    plain(t, from, m) && exists|j: int|
        0 <= j < k && lies_along(from, #[trigger] t.spec_offsets()[j], m.to)
}

/// The moves of a piece along its first `k` offsets are plain moves to squares
/// along these offsets, and none stands twice.
pub proof fn lemma_piece_distinct(
    pieces: Seq<Option<Piece>>,
    turn: PieceColor,
    t: PieceType,
    from: u8,
    k: int,
)
    requires
        from < 64,
        0 <= k <= t.spec_offsets().len(),
    ensures
        piece_moves(pieces, turn, t, from, k).no_duplicates(),
        all_are(piece_moves(pieces, turn, t, from, k), |m: Move| along_one_of(t, from, k, m)),
    decreases k,
{
    if k > 0 {
        let before = piece_moves(pieces, turn, t, from, k - 1);
        let offset = t.spec_offsets()[k - 1];
        let ray = ray_moves(pieces, turn, t, from, from, offset);
        lemma_piece_distinct(pieces, turn, t, from, k - 1);
        if t.spec_is_sliding() {
            lemma_sliders_go_straight(t, k - 1);
        }
        lemma_ray_distinct(pieces, turn, t, from, from, offset);
        let earlier = |m: Move| along_one_of(t, from, k - 1, m);
        assert forall|i: int| 0 <= i < ray.len() implies !earlier(#[trigger] ray[i]) by {
            let m = ray[i];
            assert(plain(t, from, m) && lies_along(from, offset, m.to));
            if along_one_of(t, from, k - 1, m) {
                let j = choose|j: int|
                    0 <= j < k - 1 && lies_along(from, #[trigger] t.spec_offsets()[j], m.to);
                lemma_offsets_differ(t, j, k - 1);
                lemma_one_direction(from, t.spec_offsets()[j], offset, m.to);
            }
        }
        lemma_distinct_concat(before, ray, earlier);
        let now = |m: Move| along_one_of(t, from, k, m);
        assert forall|i: int| 0 <= i < before.len() implies now(#[trigger] before[i]) by {
            let m = before[i];
            assert(earlier(m));
            let j = choose|j: int|
                0 <= j < k - 1 && lies_along(from, #[trigger] t.spec_offsets()[j], m.to);
            assert(lies_along(from, t.spec_offsets()[j], m.to));
        }
        assert forall|i: int| 0 <= i < ray.len() implies now(#[trigger] ray[i]) by {
            let m = ray[i];
            assert(plain(t, from, m) && lies_along(from, offset, m.to));
            assert(lies_along(from, t.spec_offsets()[k - 1], m.to));
        }
        lemma_all_are_concat(before, ray, now);
    }
}

/// Whether `m` is a move from `from` that is no castling.
pub open spec fn leaves(from: u8, m: Move) -> bool {
    m.from == from && !m.castle_queen && !m.castle_king
}

/// The moves by which a pawn arrives are moves of one capture without a double
/// step and without en passant, and none stands twice.
pub proof fn lemma_arrivals_distinct(
    turn: PieceColor,
    from: u8,
    to: u8,
    capture: Option<PieceType>,
)
    ensures
        pawn_arrivals(turn, from, to, capture).no_duplicates(),
        all_are(
            pawn_arrivals(turn, from, to, capture),
            |m: Move|
                leaves(from, m) && m.to == to && m.capture == capture && !m.en_passant
                    && m.new_en_passant_target is None,
        ),
{
}

/// The moves of a pawn leave its square, and none stands twice.
pub proof fn lemma_pawn_distinct(s: ChessStateView, from: u8)
    requires
        from < 64,
    ensures
        pawn_moves(s, from).no_duplicates(),
        all_are(pawn_moves(s, from), |m: Move| leaves(from, m)),
{
    let turn = s.turn;
    let out = |m: Move| leaves(from, m);
    match step(from, pawn_forward(turn)) {
        Some(to) => {
            let a = pawn_advances(s.pieces, turn, from, to);
            let c1 = pawn_capture(s.pieces, turn, from, to, 1i8);
            let c2 = pawn_capture(s.pieces, turn, from, to, -1i8);
            let e1 = pawn_en_passant(s.en_passant_target, from, to, 1i8);
            let e2 = pawn_en_passant(s.en_passant_target, from, to, -1i8);
            let quiet = |m: Move| leaves(from, m) && m.capture is None && !m.en_passant;
            let right = |m: Move| leaves(from, m) && !m.en_passant && step(to, 1i8) == Some(m.to);
            let left = |m: Move| leaves(from, m) && !m.en_passant && step(to, -1i8) == Some(m.to);
            let plainly = |m: Move| leaves(from, m) && !m.en_passant;
            // the advances
            assert(a.no_duplicates() && all_are(a, quiet)) by {
                if s.pieces[to as int] is None {
                    let one = pawn_arrivals(turn, from, to, None);
                    let two = pawn_double(s.pieces, turn, from, to);
                    lemma_arrivals_distinct(turn, from, to, None);
                    let single = |m: Move| m.new_en_passant_target is None;
                    assert(all_are(one, single));
                    assert(all_are(two, |m: Move| !single(m)));
                    lemma_distinct_concat(one, two, single);
                    assert(all_are(one, quiet));
                    assert(all_are(two, quiet));
                    lemma_all_are_concat(one, two, quiet);
                }
            }
            // the captures
            assert(c1.no_duplicates() && all_are(c1, right) && all_are(c1, |m: Move| !quiet(m))) by {
                if c1.len() > 0 {
                    let t = step(to, 1i8)->0;
                    lemma_arrivals_distinct(turn, from, t, Some(s.pieces[t as int]->0.t));
                }
            }
            assert(c2.no_duplicates() && all_are(c2, left) && all_are(c2, |m: Move| !quiet(m))) by {
                if c2.len() > 0 {
                    let t = step(to, -1i8)->0;
                    lemma_arrivals_distinct(turn, from, t, Some(s.pieces[t as int]->0.t));
                }
            }
            lemma_distinct_concat(a, c1, quiet);
            let not_left = |m: Move| !left(m);
            assert(all_are(a, not_left));
            assert(all_are(c1, not_left));
            lemma_all_are_concat(a, c1, not_left);
            assert(all_are(c2, |m: Move| !not_left(m)));
            lemma_distinct_concat(a + c1, c2, not_left);
            assert(all_are(a, plainly) && all_are(c1, plainly) && all_are(c2, plainly));
            lemma_all_are_concat(a, c1, plainly);
            lemma_all_are_concat(a + c1, c2, plainly);
            // the en-passant captures
            assert(all_are(e1, |m: Move| !plainly(m)));
            assert(all_are(e2, |m: Move| !plainly(m)));
            lemma_distinct_concat(a + c1 + c2, e1, plainly);
            let not_second = |m: Move| plainly(m) || step(to, 1i8) == Some(m.to);
            assert(all_are(a + c1 + c2, not_second));
            assert(all_are(e1, not_second));
            lemma_all_are_concat(a + c1 + c2, e1, not_second);
            assert(all_are(e2, |m: Move| !not_second(m)));
            lemma_distinct_concat(a + c1 + c2 + e1, e2, not_second);
            // all of them leave the square
            assert(all_are(a, out) && all_are(c1, out) && all_are(c2, out) && all_are(e1, out)
                && all_are(e2, out));
            lemma_all_are_concat(a, c1, out);
            lemma_all_are_concat(a + c1, c2, out);
            lemma_all_are_concat(a + c1 + c2, e1, out);
            lemma_all_are_concat(a + c1 + c2 + e1, e2, out);
        },
        None => {},
    }
}

/// The moves of what stands on a square leave that square, and none stands
/// twice.
pub proof fn lemma_square_distinct(s: ChessStateView, from: u8)
    requires
        from < 64,
    ensures
        square_moves(s, from).no_duplicates(),
        all_are(square_moves(s, from), |m: Move| leaves(from, m)),
{
    match s.pieces[from as int] {
        Some(p) => {
            if p.c == s.turn {
                if p.t == PieceType::Pawn {
                    lemma_pawn_distinct(s, from);
                } else {
                    let k = p.t.spec_offsets().len() as int;
                    lemma_piece_distinct(s.pieces, s.turn, p.t, from, k);
                    let ms = piece_moves(s.pieces, s.turn, p.t, from, k);
                    assert forall|i: int| 0 <= i < ms.len() implies leaves(from, #[trigger] ms[i]) by {
                        assert(along_one_of(p.t, from, k, ms[i]));
                    }
                }
            }
        },
        None => {},
    }
}

/// The moves of what stands on the squares below `n` leave these squares, and
/// none stands twice.
pub proof fn lemma_upto_distinct(s: ChessStateView, n: int)
    requires
        0 <= n <= 64,
    ensures
        moves_upto(s, n).no_duplicates(),
        all_are(moves_upto(s, n), |m: Move| m.from < n && !m.castle_queen && !m.castle_king),
    decreases n,
{
    if n > 0 {
        let before = moves_upto(s, n - 1);
        let here = square_moves(s, (n - 1) as u8);
        lemma_upto_distinct(s, n - 1);
        lemma_square_distinct(s, (n - 1) as u8);
        let below = |m: Move| m.from < n - 1 && !m.castle_queen && !m.castle_king;
        assert forall|i: int| 0 <= i < here.len() implies !below(#[trigger] here[i]) by {
            assert(leaves((n - 1) as u8, here[i]));
        }
        lemma_distinct_concat(before, here, below);
        let now = |m: Move| m.from < n && !m.castle_queen && !m.castle_king;
        assert forall|i: int| 0 <= i < before.len() implies now(#[trigger] before[i]) by {
            assert(below(before[i]));
        }
        assert forall|i: int| 0 <= i < here.len() implies now(#[trigger] here[i]) by {
            assert(leaves((n - 1) as u8, here[i]));
        }
        lemma_all_are_concat(before, here, now);
    }
}

/// A king's step does not lead two files along its rank.
pub proof fn lemma_king_steps_near(from: u8, i: int, to: u8)
    requires
        from < 64,
        0 <= i < PieceType::King.spec_offsets().len(),
        step(from, PieceType::King.spec_offsets()[i]) == Some(to),
    ensures
        to != from + 2,
        to + 2 != from,
{
}

impl ChessStateView {
    /// No move of the king other than castling goes where castling goes.
    pub proof fn lemma_castling_is_no_step(self, castles: Move, other: Move)
        requires
            self.pieces.len() == 64,
            self.applicable(castles),
            castles.castle_queen || castles.castle_king,
            self.applicable(other),
            self.geometric(other),
            !other.castle_queen,
            !other.castle_king,
            castles.from == other.from,
        ensures
            castles.to != other.to,
    {
        assert(other.piece_type == PieceType::King);
        let i = choose|i: int|
            0 <= i < PieceType::King.spec_offsets().len() && travels(
                self.pieces,
                false,
                other.from,
                #[trigger] PieceType::King.spec_offsets()[i],
                other.to,
            );
        lemma_king_steps_near(other.from, i, other.to);
    }

    /// Two castling moves between the same squares are one move.
    pub proof fn lemma_castling_identified(self, a: Move, b: Move)
        requires
            self.applicable(a),
            self.applicable(b),
            a.castle_queen || a.castle_king,
            b.castle_queen || b.castle_king,
            a.same_move(b),
        ensures
            a == b,
    {
    }

    /// Two moves of a pawn between the same squares with the same promotion are
    /// one move.
    pub proof fn lemma_pawn_identified(self, a: Move, b: Move)
        requires
            self.inv(),
            self.applicable(a),
            self.applicable(b),
            self.pawn_geometry(a),
            self.pawn_geometry(b),
            !a.castle_queen && !a.castle_king && !b.castle_queen && !b.castle_king,
            a.piece_type == PieceType::Pawn,
            a.same_move(b),
        ensures
            a == b,
    {
        if a.en_passant != b.en_passant {
            assert(self.can_capture_to(a.to));
        }
    }

    /// Two moves of a piece other than a pawn between the same squares are one
    /// move.
    pub proof fn lemma_piece_identified(self, a: Move, b: Move)
        requires
            self.applicable(a),
            self.applicable(b),
            !a.castle_queen && !a.castle_king && !b.castle_queen && !b.castle_king,
            a.piece_type != PieceType::Pawn,
            a.same_move(b),
        ensures
            a == b,
    {
    }

    /// Among the moves of a state that obey how the pieces move, a move is known
    /// by the square it leaves, the square it enters and the piece it promotes to.
    pub proof fn lemma_moves_identified(self, a: Move, b: Move)
        requires
            self.inv(),
            self.pseudo_legal(a),
            self.pseudo_legal(b),
            a.same_move(b),
        ensures
            a == b,
    {
        let a_castles = a.castle_queen || a.castle_king;
        let b_castles = b.castle_queen || b.castle_king;
        if a_castles && b_castles {
            self.lemma_castling_identified(a, b);
        } else if a_castles {
            self.lemma_castling_is_no_step(a, b);
        } else if b_castles {
            self.lemma_castling_is_no_step(b, a);
        } else if a.piece_type == PieceType::Pawn {
            self.lemma_pawn_identified(a, b);
        } else {
            self.lemma_piece_identified(a, b);
        }
    }

    /// The generator gives no move twice.
    pub proof fn lemma_pseudo_legal_distinct(self)
        ensures
            self.pseudo_legal_moves().no_duplicates(),
    {
        let upto = moves_upto(self, 64);
        let q = queen_castling(self);
        let k = king_castling(self);
        lemma_upto_distinct(self, 64);
        let plain = |m: Move| !m.castle_queen && !m.castle_king;
        assert forall|i: int| 0 <= i < upto.len() implies plain(#[trigger] upto[i]) by {
            let below = |m: Move| m.from < 64 && !m.castle_queen && !m.castle_king;
            assert(below(upto[i]));
        }
        assert(all_are(q, |m: Move| !plain(m)));
        lemma_distinct_concat(upto, q, plain);
        let queens = |m: Move| !m.castle_king;
        assert(all_are(upto, queens));
        assert(all_are(q, queens));
        lemma_all_are_concat(upto, q, queens);
        assert(all_are(k, |m: Move| !queens(m)));
        lemma_distinct_concat(upto + q, k, queens);
    }

    /// Among the moves kept none stands twice, if none stands twice among those
    /// they are kept from.
    pub proof fn lemma_legal_among_distinct(self, ms: Seq<Move>, n: int)
        requires
            0 <= n <= ms.len(),
            ms.no_duplicates(),
        ensures
            self.legal_among(ms, n).no_duplicates(),
        decreases n,
    {
        if n > 0 {
            self.lemma_legal_among_distinct(ms, n - 1);
            let prev = self.legal_among(ms, n - 1);
            if self.leaves_king_safe(ms[n - 1]) {
                assert forall|i: int| 0 <= i < prev.len() implies prev[i] != ms[n - 1] by {
                    self.lemma_legal_among(ms, n - 1, i);
                    let j = choose|j: int| 0 <= j < n - 1 && #[trigger] ms[j] == prev[i];
                    assert(ms[j] != ms[n - 1]);
                }
            }
        }
    }

    /// No legal move is given twice: there are as many legal moves as the list
    /// of them is long.
    pub proof fn lemma_legal_distinct(self)
        ensures
            self.legal_moves().no_duplicates(),
    {
        self.lemma_pseudo_legal_distinct();
        self.lemma_legal_among_distinct(
            self.pseudo_legal_moves(),
            self.pseudo_legal_moves().len() as int,
        );
    }
}

} // verus!
