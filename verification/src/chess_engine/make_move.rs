use super::gen_moves::{double_step_rank, pawn_rank, Move};
use super::zobrist::Zobrist;
use super::{
    attacked, piece_at_step, step, ChessState, ChessStateView, Piece, PieceColor, PieceColorArray,
    PieceType,
};
use vstd::prelude::*;

verus! {

/// What `unmake_last_move` needs to take one move back: the parts of the state
/// that the move overwrote, and the parts of the move that say how the board changed.
#[derive(Clone, Copy, Debug)]
pub struct Unmove {
    pub old_en_passant_target: Option<u8>,
    pub old_halfmove_clock: u128,
    pub castle_queen: bool,
    pub castle_king: bool,
    pub old_check: PieceColorArray<bool>,
    pub old_queen_castle: PieceColorArray<bool>,
    pub old_king_castle: PieceColorArray<bool>,
    pub old_king_pos: u8,
    pub piece_type: PieceType,
    pub from: u8,
    pub to: u8,
    pub captured: Option<PieceType>,
    pub old_hash: u64,
    pub en_passant: bool,
}

/// The square of the pawn that an en-passant capture to `to` takes: one rank
/// behind `to`, seen from the side that captures.
pub open spec fn victim_square(mover: PieceColor, to: u8) -> int {
    match mover {
        PieceColor::White => to - 8,
        PieceColor::Black => to + 8,
    }
}

/// Whether a pawn `pawn` stands directly left or right of `square`.
pub open spec fn pawn_beside(pieces: Seq<Option<Piece>>, square: u8, pawn: Piece) -> bool {
    piece_at_step(pieces, square, -1i8, pawn) || piece_at_step(pieces, square, 1i8, pawn)
}

/// How often the position with hash `h` is counted.
pub open spec fn count_of(counter: Map<u64, u128>, h: u64) -> int {
    if counter.contains_key(h) {
        counter[h] as int
    } else {
        0
    }
}

/// Whether castling on the queen's side, for `turn`, fits the board: king and
/// rook at home, nothing between them.
pub open spec fn queen_side_open(pieces: Seq<Option<Piece>>, turn: PieceColor) -> bool {
    let o = turn.back_rank() as int;
    &&& pieces[o] == Some(Piece { c: turn, t: PieceType::Rook })
    &&& pieces[o + 1] is None
    &&& pieces[o + 2] is None
    &&& pieces[o + 3] is None
    &&& pieces[o + 4] == Some(Piece { c: turn, t: PieceType::King })
}

/// Whether castling on the king's side, for `turn`, fits the board.
pub open spec fn king_side_open(pieces: Seq<Option<Piece>>, turn: PieceColor) -> bool {
    let o = turn.back_rank() as int;
    &&& pieces[o + 4] == Some(Piece { c: turn, t: PieceType::King })
    &&& pieces[o + 5] is None
    &&& pieces[o + 6] is None
    &&& pieces[o + 7] == Some(Piece { c: turn, t: PieceType::Rook })
}

/// The board after the side `turn` has played `m`.
pub open spec fn board_after(pieces: Seq<Option<Piece>>, turn: PieceColor, m: Move) -> Seq<
    Option<Piece>,
> {
    let o = turn.back_rank() as int;
    let king = Some(Piece { c: turn, t: PieceType::King });
    let rook = Some(Piece { c: turn, t: PieceType::Rook });
    if m.castle_queen {
        pieces.update(o, None).update(o + 2, king).update(o + 3, rook).update(o + 4, None)
    } else if m.castle_king {
        pieces.update(o + 4, None).update(o + 5, rook).update(o + 6, king).update(o + 7, None)
    } else {
        let moved = pieces.update(m.to as int, pieces[m.from as int]).update(m.from as int, None);
        let taken = if m.en_passant {
            moved.update(victim_square(turn, m.to), None)
        } else {
            moved
        };
        match m.promote_to {
            Some(t) => taken.update(m.to as int, Some(Piece { c: turn, t })),
            None => taken,
        }
    }
}

/// The board before the side `mover` played the move that `u` records.
pub open spec fn board_before(pieces: Seq<Option<Piece>>, mover: PieceColor, u: Unmove) -> Seq<
    Option<Piece>,
> {
    let o = mover.back_rank() as int;
    let king = Some(Piece { c: mover, t: PieceType::King });
    let rook = Some(Piece { c: mover, t: PieceType::Rook });
    let uncastled = if u.castle_queen {
        pieces.update(o, rook).update(o + 2, None).update(o + 3, None).update(o + 4, king)
    } else if u.castle_king {
        pieces.update(o + 4, king).update(o + 5, None).update(o + 6, None).update(o + 7, rook)
    } else {
        pieces
    };
    let restored = if u.en_passant {
        uncastled.update(
            victim_square(mover, u.to),
            Some(Piece { c: mover.opposite(), t: PieceType::Pawn }),
        ).update(u.to as int, None)
    } else {
        uncastled.update(
            u.to as int,
            match u.captured {
                Some(t) => Some(Piece { c: mover.opposite(), t }),
                None => None,
            },
        )
    };
    restored.update(u.from as int, Some(Piece { c: mover, t: u.piece_type }))
}

/// Whether `m` takes from `c` a castling right that rests on the back-rank
/// squares `a` and `b`, counted from the first square of the rank: a castling
/// move takes both rights of the side that castles, any other move takes a right
/// whose king's or rook's home square it leaves or enters.
pub open spec fn takes_right(turn: PieceColor, m: Move, c: PieceColor, a: int, b: int) -> bool {
    if m.castle_queen || m.castle_king {
        c == turn
    } else {
        let o = c.back_rank() as int;
        m.from == o + a || m.from == o + b || m.to == o + a || m.to == o + b
    }
}

impl ChessStateView {
    /// Whether `m` can be played here and taken back: it moves a piece of the
    /// side to move, says truly what it captures, and a castling or en-passant
    /// move finds the board as it needs it. Every move that the generator gives
    /// for this state is such a move.
    pub open spec fn applicable(self, m: Move) -> bool {
        let turn = self.turn;
        let o = turn.back_rank();
        &&& m.from < 64
        &&& m.to < 64
        &&& if m.castle_queen {
            &&& !m.castle_king
            &&& m.new_en_passant_target is None
            &&& m.piece_type == PieceType::King
            &&& m.from == o + 4
            &&& m.to == o + 2
            &&& m.capture is None
            &&& m.promote_to is None
            &&& !m.en_passant
            &&& queen_side_open(self.pieces, turn)
        } else if m.castle_king {
            &&& m.new_en_passant_target is None
            &&& m.piece_type == PieceType::King
            &&& m.from == o + 4
            &&& m.to == o + 6
            &&& m.capture is None
            &&& m.promote_to is None
            &&& !m.en_passant
            &&& king_side_open(self.pieces, turn)
        } else {
            &&& m.from != m.to
            &&& self.pieces[m.from as int] == Some(Piece { c: turn, t: m.piece_type })
            &&& m.promote_to is Some ==> m.piece_type == PieceType::Pawn
            &&& m.new_en_passant_target is Some ==> {
                let t = m.new_en_passant_target->0;
                &&& m.piece_type == PieceType::Pawn
                &&& !m.en_passant
                &&& m.promote_to is None
                &&& t < 64
                &&& t as int == victim_square(turn, m.to)
                &&& m.from as int == victim_square(turn, t)
                &&& m.from as int / 8 == pawn_rank(turn)
                &&& m.capture is None
                &&& self.pieces[t as int] is None
            }
            &&& if m.en_passant {
                &&& m.piece_type == PieceType::Pawn
                &&& m.capture == Some(PieceType::Pawn)
                &&& m.promote_to is None
                &&& self.pieces[m.to as int] is None
                &&& 0 <= victim_square(turn, m.to) < 64
                &&& self.pieces[victim_square(turn, m.to)] == Some(
                    Piece { c: turn.opposite(), t: PieceType::Pawn },
                )
            } else {
                match self.pieces[m.to as int] {
                    Some(q) => q.c != turn && m.capture == Some(q.t),
                    None => m.capture is None,
                }
            }
        }
    }

    /// The en-passant target after `m`: the one that `m` names, but only if a
    /// pawn of the other side stands beside the square that `m` moves to.
    pub open spec fn en_passant_after(self, m: Move) -> Option<u8> {
        if m.new_en_passant_target is Some && pawn_beside(
            self.pieces,
            m.to,
            Piece { c: self.turn.opposite(), t: PieceType::Pawn },
        ) {
            m.new_en_passant_target
        } else {
            None
        }
    }

    /// The rights to castle on the queen's side after `m`.
    pub open spec fn queen_castle_after(self, m: Move) -> PieceColorArray<bool> {
        PieceColorArray {
            white: self.queen_castle.white && !takes_right(self.turn, m, PieceColor::White, 0, 4),
            black: self.queen_castle.black && !takes_right(self.turn, m, PieceColor::Black, 0, 4),
        }
    }

    /// The rights to castle on the king's side after `m`.
    pub open spec fn king_castle_after(self, m: Move) -> PieceColorArray<bool> {
        PieceColorArray {
            white: self.king_castle.white && !takes_right(self.turn, m, PieceColor::White, 4, 7),
            black: self.king_castle.black && !takes_right(self.turn, m, PieceColor::Black, 4, 7),
        }
    }

    /// Where the kings stand after `m`.
    pub open spec fn king_pos_after(self, m: Move) -> PieceColorArray<u8> {
        let o = self.turn.back_rank();
        if m.castle_queen {
            self.king_pos.with(self.turn, (o + 2) as u8)
        } else if m.castle_king {
            self.king_pos.with(self.turn, (o + 6) as u8)
        } else if m.piece_type == PieceType::King {
            self.king_pos.with(self.turn, m.to)
        } else {
            self.king_pos
        }
    }

    /// What is pushed on the undo stack when `m` is played here.
    pub open spec fn snapshot(self, m: Move) -> Unmove {
        Unmove {
            old_en_passant_target: self.en_passant_target,
            old_halfmove_clock: self.halfmove_clock,
            castle_queen: m.castle_queen,
            castle_king: m.castle_king,
            old_check: self.check,
            old_queen_castle: self.queen_castle,
            old_king_castle: self.king_castle,
            old_king_pos: self.king_pos.at(self.turn),
            piece_type: m.piece_type,
            from: m.from,
            to: m.to,
            captured: m.capture,
            old_hash: self.hash,
            en_passant: m.en_passant,
        }
    }

    /// The hash of the position computed from scratch.
    pub open spec fn full_hash(self) -> u64 {
        self.zobrist.full_hash(
            self.pieces,
            self.turn,
            self.queen_castle,
            self.king_castle,
            self.en_passant_target,
        )
    }

    /// The state after `m` has been played.
    pub open spec fn make(self, m: Move) -> ChessStateView {
        let pieces = board_after(self.pieces, self.turn, m);
        let turn = self.turn.opposite();
        let queen_castle = self.queen_castle_after(m);
        let king_castle = self.king_castle_after(m);
        let en_passant_target = self.en_passant_after(m);
        let king_pos = self.king_pos_after(m);
        let hash = self.zobrist.full_hash(pieces, turn, queen_castle, king_castle, en_passant_target);
        let count = (count_of(self.position_counter, hash) + 1) as u128;
        ChessStateView {
            pieces,
            turn,
            king_castle,
            queen_castle,
            en_passant_target,
            halfmove_clock: if m.piece_type == PieceType::Pawn || m.capture is Some {
                0
            } else {
                (self.halfmove_clock + 1) as u128
            },
            move_clock: if self.turn == PieceColor::Black {
                (self.move_clock + 1) as u128
            } else {
                self.move_clock
            },
            check: PieceColorArray {
                white: attacked(pieces, king_pos.white, PieceColor::Black),
                black: attacked(pieces, king_pos.black, PieceColor::White),
            },
            king_pos,
            hash,
            unmove_stack: self.unmove_stack.push(self.snapshot(m)),
            position_counter: self.position_counter.insert(hash, count),
            is_draw_by_repetition: count >= 3,
            zobrist: self.zobrist,
        }
    }

    /// The state before the last move was played, as the top of the undo stack
    /// records it.
    pub open spec fn unmake(self) -> ChessStateView {
        let u = self.unmove_stack.last();
        let turn = self.turn.opposite();
        let count = count_of(self.position_counter, self.hash);
        let position_counter = if count <= 1 {
            self.position_counter.remove(self.hash)
        } else {
            self.position_counter.insert(self.hash, (count - 1) as u128)
        };
        ChessStateView {
            pieces: board_before(self.pieces, turn, u),
            turn,
            king_castle: u.old_king_castle,
            queen_castle: u.old_queen_castle,
            en_passant_target: u.old_en_passant_target,
            halfmove_clock: u.old_halfmove_clock,
            move_clock: if turn == PieceColor::Black {
                (self.move_clock - 1) as u128
            } else {
                self.move_clock
            },
            check: u.old_check,
            king_pos: self.king_pos.with(turn, u.old_king_pos),
            hash: u.old_hash,
            unmove_stack: self.unmove_stack.drop_last(),
            position_counter,
            is_draw_by_repetition: count_of(position_counter, u.old_hash) >= 3,
            zobrist: self.zobrist,
        }
    }

    /// Whether the en-passant target `t` can be captured to: it is empty, a pawn
    /// of the other side stands one rank behind it, where its double step has
    /// brought it, and a pawn of the side to move stands beside that pawn.
    pub open spec fn can_capture_to(self, t: u8) -> bool {
        let behind = victim_square(self.turn, t);
        &&& t < 64
        &&& behind / 8 == double_step_rank(self.turn.opposite())
        &&& self.pieces[t as int] is None
        &&& 0 <= behind < 64
        &&& self.pieces[behind] == Some(Piece { c: self.turn.opposite(), t: PieceType::Pawn })
        &&& pawn_beside(self.pieces, behind as u8, Piece { c: self.turn, t: PieceType::Pawn })
    }

    /// Whether the castling rights of `c` rest on the board: for each right that
    /// is granted, king and rook stand on their home squares.
    pub open spec fn rights_backed(self, c: PieceColor) -> bool {
        let o = c.back_rank() as int;
        let king = Some(Piece { c, t: PieceType::King });
        let rook = Some(Piece { c, t: PieceType::Rook });
        &&& self.queen_castle.at(c) ==> self.pieces[o + 4] == king && self.pieces[o] == rook
        &&& self.king_castle.at(c) ==> self.pieces[o + 4] == king && self.pieces[o + 7] == rook
    }

    /// What holds of a state by itself, whatever its history.
    pub open spec fn inv(self) -> bool {
        &&& self.pieces.len() == 64
        &&& self.zobrist.wf()
        &&& self.king_pos.white < 64
        &&& self.king_pos.black < 64
        &&& self.hash == self.full_hash()
        &&& self.check.white == attacked(self.pieces, self.king_pos.white, PieceColor::Black)
        &&& self.check.black == attacked(self.pieces, self.king_pos.black, PieceColor::White)
        &&& self.en_passant_target is Some ==> self.can_capture_to(self.en_passant_target->0)
        &&& self.rights_backed(PieceColor::White)
        &&& self.rights_backed(PieceColor::Black)
        &&& self.unmove_stack.len() <= usize::MAX
        &&& self.halfmove_clock <= 255 + self.unmove_stack.len()
        &&& self.move_clock <= 255 + self.unmove_stack.len()
        &&& self.position_counter.contains_key(self.hash)
        &&& forall|h: u64| #[trigger]
            self.position_counter.contains_key(h) ==> 1 <= self.position_counter[h]
                <= self.unmove_stack.len() + 2
        &&& self.is_draw_by_repetition == (count_of(self.position_counter, self.hash) >= 3)
    }

    /// What the top of the undo stack must hold for the last move to be taken back.
    pub open spec fn undo_ok(self) -> bool {
        let u = self.unmove_stack.last();
        let mover = self.turn.opposite();
        &&& u.from < 64
        &&& u.to < 64
        &&& u.en_passant ==> 0 <= victim_square(mover, u.to) < 64
        &&& mover == PieceColor::Black ==> self.move_clock >= 1
    }

    /// A well-formed state: `inv` holds of it and of every state that taking
    /// moves back leads to.
    pub open spec fn wf(self) -> bool
        decreases self.unmove_stack.len(),
    {
        &&& self.inv()
        &&& self.unmove_stack.len() > 0 ==> self.undo_ok() && self.unmake().wf()
    }

    /// Playing a move and taking it back leaves the state as it was: board, side
    /// to move, rights, en-passant target, clocks, check flags, king squares,
    /// hash, undo stack and position counts.
    pub proof fn lemma_unmake_make(self, m: Move)
        requires
            self.inv(),
            self.applicable(m),
        ensures
            self.make(m).unmake() == self,
    {
        let after = self.make(m);
        let back = after.unmake();
        assert(after.unmove_stack.last() == self.snapshot(m));
        assert(back.unmove_stack =~= self.unmove_stack);
        assert(back.position_counter =~= self.position_counter);
        assert(back.pieces =~= self.pieces);
        assert(back.king_pos == self.king_pos);
    }
}

impl ChessStateView {
    /// A piece of the side that does not move stays where it is, unless the move
    /// captures it.
    pub proof fn lemma_other_side_stays(self, m: Move, q: int, p: Piece)
        requires
            self.pieces.len() == 64,
            self.applicable(m),
            0 <= q < 64,
            self.pieces[q] == Some(p),
            p.c != self.turn,
            q != m.to,
            m.en_passant ==> q != victim_square(self.turn, m.to),
        ensures
            board_after(self.pieces, self.turn, m)[q] == Some(p),
    {
    }

    /// The en-passant target that a move leaves is one that a pawn of the side
    /// then to move can capture to.
    pub proof fn lemma_en_passant_kept(self, m: Move)
        requires
            self.pieces.len() == 64,
            self.applicable(m),
            self.en_passant_after(m) is Some,
        ensures
            self.make(m).can_capture_to(self.en_passant_after(m)->0),
    {
        let pawn = Piece { c: self.turn.opposite(), t: PieceType::Pawn };
        let after = board_after(self.pieces, self.turn, m);
        let t = m.new_en_passant_target->0;
        assert(after[t as int] is None);
        assert(after[m.to as int] == Some(Piece { c: self.turn, t: PieceType::Pawn }));
        assert(victim_square(self.turn.opposite(), t) == m.to);
        if piece_at_step(self.pieces, m.to, -1i8, pawn) {
            let q = step(m.to, -1i8)->0 as int;
            assert(q == m.to - 1);
            self.lemma_other_side_stays(m, q, pawn);
            assert(piece_at_step(after, m.to, -1i8, pawn));
        } else {
            let q = step(m.to, 1i8)->0 as int;
            assert(q == m.to + 1);
            self.lemma_other_side_stays(m, q, pawn);
            assert(piece_at_step(after, m.to, 1i8, pawn));
        }
        assert(pawn_beside(after, m.to, pawn));
    }

    /// A castling right that a move leaves still rests on the board.
    pub proof fn lemma_rights_kept(self, m: Move, c: PieceColor)
        requires
            self.pieces.len() == 64,
            self.applicable(m),
            self.rights_backed(c),
        ensures
            self.make(m).rights_backed(c),
    {
        let o = c.back_rank() as int;
        let after = board_after(self.pieces, self.turn, m);
        if self.queen_castle_after(m).at(c) {
            assert(after[o + 4] == self.pieces[o + 4]);
            assert(after[o] == self.pieces[o]);
        }
        if self.king_castle_after(m).at(c) {
            assert(after[o + 4] == self.pieces[o + 4]);
            assert(after[o + 7] == self.pieces[o + 7]);
        }
    }

    /// Whether the king's square that the state holds for each colour is a
    /// square on which a king of that colour stands.
    pub open spec fn kings_placed(self) -> bool {
        &&& self.pieces[self.king_pos.white as int] == Some(
            Piece { c: PieceColor::White, t: PieceType::King },
        )
        &&& self.pieces[self.king_pos.black as int] == Some(
            Piece { c: PieceColor::Black, t: PieceType::King },
        )
    }

    /// A move that does not capture a king leaves both kings on the squares that
    /// the state holds for them.
    pub proof fn lemma_make_keeps_kings(self, m: Move)
        requires
            self.inv(),
            self.applicable(m),
            self.kings_placed(),
            m.capture != Some(PieceType::King),
        ensures
            self.make(m).kings_placed(),
    {
    }

    /// The state after the moves `ms` have been played one after the other.
    pub open spec fn make_all(self, ms: Seq<Move>) -> ChessStateView
        decreases ms.len(),
    {
        if ms.len() == 0 {
            self
        } else {
            self.make(ms[0]).make_all(ms.drop_first())
        }
    }

    /// Whether the moves `ms` can be played one after the other: each in the
    /// state that those before it lead to, with a place for it on the undo stack.
    pub open spec fn playable(self, ms: Seq<Move>) -> bool
        decreases ms.len(),
    {
        ms.len() == 0 || (self.applicable(ms[0]) && self.unmove_stack.len() < usize::MAX
            && self.make(ms[0]).playable(ms.drop_first()))
    }

    /// The state after `n` moves have been taken back.
    pub open spec fn unmake_times(self, n: nat) -> ChessStateView
        decreases n,
    {
        if n == 0 {
            self
        } else {
            self.unmake_times((n - 1) as nat).unmake()
        }
    }

    /// In a well-formed state, and in every state that taking moves back leads
    /// to, the hash is the hash of the position from scratch, and each check flag
    /// says whether that king's square is attacked.
    pub proof fn lemma_hash_from_scratch(self, n: nat)
        requires
            self.wf(),
            n <= self.unmove_stack.len(),
        ensures
            self.unmake_times(n).wf(),
            self.unmake_times(n).unmove_stack.len() == self.unmove_stack.len() - n,
            self.unmake_times(n).hash == self.unmake_times(n).full_hash(),
            self.unmake_times(n).check.white == attacked(
                self.unmake_times(n).pieces,
                self.unmake_times(n).king_pos.white,
                PieceColor::Black,
            ),
            self.unmake_times(n).check.black == attacked(
                self.unmake_times(n).pieces,
                self.unmake_times(n).king_pos.black,
                PieceColor::White,
            ),
        decreases n,
    {
        if n > 0 {
            self.lemma_hash_from_scratch((n - 1) as nat);
            let before = self.unmake_times((n - 1) as nat);
            assert(before.unmake().wf());
        }
        assert(self.unmake_times(n).inv());
    }

    /// Playing moves one after the other and taking as many back leaves the
    /// state as it was, and every state on the way is well-formed.
    pub proof fn lemma_unmake_all(self, ms: Seq<Move>)
        requires
            self.wf(),
            self.playable(ms),
        ensures
            self.make_all(ms).wf(),
            self.make_all(ms).unmake_times(ms.len()) == self,
        decreases ms.len(),
    {
        if ms.len() > 0 {
            let next = self.make(ms[0]);
            self.lemma_make_wf(ms[0]);
            self.lemma_unmake_make(ms[0]);
            next.lemma_unmake_all(ms.drop_first());
        }
    }

    /// Playing a move in a well-formed state whose undo stack can take it gives a
    /// well-formed state.
    pub proof fn lemma_make_wf(self, m: Move)
        requires
            self.wf(),
            self.applicable(m),
            self.unmove_stack.len() < usize::MAX,
        ensures
            self.make(m).wf(),
    {
        let after = self.make(m);
        self.lemma_unmake_make(m);
        assert(after.unmove_stack.last() == self.snapshot(m));
        assert(after.pieces.len() == 64);
        if after.en_passant_target is Some {
            self.lemma_en_passant_kept(m);
        }
        self.lemma_rights_kept(m, PieceColor::White);
        self.lemma_rights_kept(m, PieceColor::Black);
        assert(after.king_pos.white < 64 && after.king_pos.black < 64);
        assert(after.hash == after.full_hash());
        assert forall|h: u64| #[trigger] after.position_counter.contains_key(h) implies 1
            <= after.position_counter[h] <= after.unmove_stack.len() + 2 by {
            if h != after.hash {
                assert(self.position_counter.contains_key(h));
            }
        }
        assert(after.inv());
        assert(after.undo_ok());
    }
}

/// Whether `m`, played by `turn`, takes from `c` the castling right that rests
/// on the squares `a` and `b` of `c`'s back rank.
pub fn takes_right_of(turn: PieceColor, m: &Move, c: PieceColor, a: u8, b: u8) -> (r: bool)
    requires
        a < 8,
        b < 8,
    ensures
        r == takes_right(turn, *m, c, a as int, b as int),
{
    if m.castle_queen || m.castle_king {
        c == turn
    } else {
        let o = c.back_rank();
        m.from == o + a || m.from == o + b || m.to == o + a || m.to == o + b
    }
}

impl ChessState {
    /// The en-passant target that the state has after `m`.
    pub fn next_en_passant_target(&self, m: &Move) -> (r: Option<u8>)
        requires
            m.to < 64,
        ensures
            r == self@.en_passant_after(*m),
    {
        // Only set the target if an enemy pawn is ready to capture to it
        let pawn = Piece { c: self.turn.opposite(), t: PieceType::Pawn };
        if m.new_en_passant_target.is_some() && (self.finds_piece(m.to, -1, pawn)
            || self.finds_piece(m.to, 1, pawn)) {
            m.new_en_passant_target
        } else {
            None
        }
    }

    /// Counts the position that the state is in once more, and flags the draw once
    /// it has been counted three times.
    fn increment_current_position_counter_and_update_draw_by_repetition(&mut self)
        requires
            count_of(old(self).position_counter@, old(self).hash) < u128::MAX,
        ensures
            final(self).position_counter@ == old(self).position_counter@.insert(
                old(self).hash,
                (count_of(old(self).position_counter@, old(self).hash) + 1) as u128,
            ),
            final(self).is_draw_by_repetition == (count_of(
                old(self).position_counter@,
                old(self).hash,
            ) + 1 >= 3),
            final(self)@ == (ChessStateView {
                position_counter: final(self).position_counter@,
                is_draw_by_repetition: final(self).is_draw_by_repetition,
                ..old(self)@
            }),
    {
        let count: u128 = match self.position_counter.get(&self.hash) {
            Some(c) => *c,
            None => 0,
        };
        self.position_counter.insert(self.hash, count + 1);
        self.is_draw_by_repetition = count + 1 >= 3;
    }

    /// Counts the position that the state is in once less.
    fn decrement_current_position_counter(&mut self)
        ensures
            final(self).position_counter@ == (if count_of(
                old(self).position_counter@,
                old(self).hash,
            ) <= 1 {
                old(self).position_counter@.remove(old(self).hash)
            } else {
                old(self).position_counter@.insert(
                    old(self).hash,
                    (count_of(old(self).position_counter@, old(self).hash) - 1) as u128,
                )
            }),
            final(self)@ == (ChessStateView {
                position_counter: final(self).position_counter@,
                ..old(self)@
            }),
    {
        let count: u128 = match self.position_counter.get(&self.hash) {
            Some(c) => *c,
            None => 0,
        };
        if count <= 1 {
            self.position_counter.remove(&self.hash);
        } else {
            self.position_counter.insert(self.hash, count - 1);
        }
    }

    /// Moves the pieces of `m` on the board, and the king's square with the king.
    fn move_pieces(&mut self, m: &Move)
        requires
            old(self)@.applicable(*m),
        ensures
            final(self).pieces@ == board_after(old(self).pieces@, old(self).turn, *m),
            final(self).king_pos == old(self)@.king_pos_after(*m),
            final(self)@ == (ChessStateView {
                pieces: final(self).pieces@,
                king_pos: final(self).king_pos,
                ..old(self)@
            }),
    {
        let turn = self.turn;
        let offset = turn.back_rank();
        if m.castle_queen {
            self.pieces[offset as usize] = None;
            self.pieces[(2 + offset) as usize] = Some(Piece { c: turn, t: PieceType::King });
            self.pieces[(3 + offset) as usize] = Some(Piece { c: turn, t: PieceType::Rook });
            self.pieces[(4 + offset) as usize] = None;
            self.king_pos.set(turn, 2 + offset);
        } else if m.castle_king {
            self.pieces[(4 + offset) as usize] = None;
            self.pieces[(5 + offset) as usize] = Some(Piece { c: turn, t: PieceType::Rook });
            self.pieces[(6 + offset) as usize] = Some(Piece { c: turn, t: PieceType::King });
            self.pieces[(7 + offset) as usize] = None;
            self.king_pos.set(turn, 6 + offset);
        } else {
            if m.piece_type == PieceType::King {
                self.king_pos.set(turn, m.to);
            }
            self.pieces[m.to as usize] = self.pieces[m.from as usize];
            self.pieces[m.from as usize] = None;

            if m.en_passant {
                let victim: u8 = match turn {
                    PieceColor::White => m.to - 8,
                    PieceColor::Black => m.to + 8,
                };
                self.pieces[victim as usize] = None;
            }
            if let Some(t) = m.promote_to {
                self.pieces[m.to as usize] = Some(Piece { c: turn, t });
            }
        }
        assert(self.pieces@ =~= board_after(old(self).pieces@, old(self).turn, *m));
    }

    /// Plays `m`: pushes what is needed to take it back, updates the hash, the
    /// en-passant target, the clocks, the board, the castling rights and the king's
    /// square, passes the turn, recomputes both check flags and counts the new
    /// position.
    pub fn make_move(&mut self, m: &Move)
        requires
            old(self)@.wf(),
            old(self)@.applicable(*m),
        ensures
            final(self)@ == old(self)@.make(*m),
            final(self)@.wf(),
    {
        let ghost before = self@;
        self.play(m);
        proof {
            // the stack has the move on it, so there was room for it
            assert(self.unmove_stack.len() == before.unmove_stack.len() + 1);
            before.lemma_make_wf(*m);
        }
    }

    /// The steps of `make_move`, one after the other.
    fn play(&mut self, m: &Move)
        requires
            old(self)@.inv(),
            old(self)@.applicable(*m),
        ensures
            final(self)@ == old(self)@.make(*m),
    {
        let turn = self.turn;
        self.record(m);
        self.move_pieces(m);
        self.turn = turn.opposite();
        self.update_check();
        self.increment_current_position_counter_and_update_draw_by_repetition();
    }

    /// The first steps of `make_move`: pushes what is needed to take `m` back,
    /// and updates the hash, the en-passant target, the clocks and the castling
    /// rights.
    fn record(&mut self, m: &Move)
        requires
            old(self)@.inv(),
            old(self)@.applicable(*m),
        ensures
            final(self)@ == (ChessStateView {
                unmove_stack: old(self)@.unmove_stack.push(old(self)@.snapshot(*m)),
                hash: old(self)@.make(*m).hash,
                en_passant_target: old(self)@.en_passant_after(*m),
                halfmove_clock: old(self)@.make(*m).halfmove_clock,
                move_clock: old(self)@.make(*m).move_clock,
                queen_castle: old(self)@.queen_castle_after(*m),
                king_castle: old(self)@.king_castle_after(*m),
                ..old(self)@
            }),
    {
        let turn = self.turn;
        self.unmove_stack.push(
            Unmove {
                old_en_passant_target: self.en_passant_target,
                old_halfmove_clock: self.halfmove_clock,
                castle_queen: m.castle_queen,
                castle_king: m.castle_king,
                old_check: self.check,
                old_queen_castle: self.queen_castle,
                old_king_castle: self.king_castle,
                old_king_pos: self.king_pos.get(turn),
                piece_type: m.piece_type,
                from: m.from,
                to: m.to,
                captured: m.capture,
                old_hash: self.hash,
                en_passant: m.en_passant,
            },
        );

        let hash = Zobrist::inc_update(self.hash, self, m);
        let en_passant_target = self.next_en_passant_target(m);
        self.hash = hash;
        self.en_passant_target = en_passant_target;

        if m.piece_type == PieceType::Pawn || m.capture.is_some() {
            self.halfmove_clock = 0;
        } else {
            self.halfmove_clock += 1;
        }

        if turn == PieceColor::Black {
            self.move_clock += 1;
        }

        self.queen_castle = PieceColorArray {
            white: self.queen_castle.white && !takes_right_of(turn, m, PieceColor::White, 0, 4),
            black: self.queen_castle.black && !takes_right_of(turn, m, PieceColor::Black, 0, 4),
        };
        self.king_castle = PieceColorArray {
            white: self.king_castle.white && !takes_right_of(turn, m, PieceColor::White, 4, 7),
            black: self.king_castle.black && !takes_right_of(turn, m, PieceColor::Black, 4, 7),
        };
    }

    /// Takes the last move back, from what the top of the undo stack holds.
    pub fn unmake_last_move(&mut self)
        requires
            old(self)@.wf(),
            old(self).unmove_stack.len() > 0,
        ensures
            final(self)@ == old(self)@.unmake(),
            final(self)@.wf(),
    {
        let ghost before = self@;
        self.decrement_current_position_counter();

        self.turn = self.turn.opposite();
        let turn = self.turn;

        let unmove = match self.unmove_stack.pop() {
            Some(u) => u,
            None => {
                return ;
            },
        };
        self.en_passant_target = unmove.old_en_passant_target;
        self.halfmove_clock = unmove.old_halfmove_clock;
        self.check = unmove.old_check;
        self.queen_castle = unmove.old_queen_castle;
        self.king_castle = unmove.old_king_castle;
        self.king_pos.set(turn, unmove.old_king_pos);
        self.hash = unmove.old_hash;
        self.is_draw_by_repetition = match self.position_counter.get(&unmove.old_hash) {
            Some(c) => *c >= 3,
            None => false,
        };

        if turn == PieceColor::Black {
            self.move_clock -= 1;
        }

        let offset = turn.back_rank();
        if unmove.castle_queen {
            self.pieces[offset as usize] = Some(Piece { c: turn, t: PieceType::Rook });
            self.pieces[(2 + offset) as usize] = None;
            self.pieces[(3 + offset) as usize] = None;
            self.pieces[(4 + offset) as usize] = Some(Piece { c: turn, t: PieceType::King });
        } else if unmove.castle_king {
            self.pieces[(4 + offset) as usize] = Some(Piece { c: turn, t: PieceType::King });
            self.pieces[(5 + offset) as usize] = None;
            self.pieces[(6 + offset) as usize] = None;
            self.pieces[(7 + offset) as usize] = Some(Piece { c: turn, t: PieceType::Rook });
        }

        if unmove.en_passant {
            let victim: u8 = match turn {
                PieceColor::White => unmove.to - 8,
                PieceColor::Black => unmove.to + 8,
            };
            self.pieces[victim as usize] = Some(
                Piece { c: turn.opposite(), t: PieceType::Pawn },
            );
            self.pieces[unmove.to as usize] = None;
        } else {
            self.pieces[unmove.to as usize] =
            match unmove.captured {
                Some(t) => Some(Piece { c: turn.opposite(), t }),
                None => None,
            };
        }

        self.pieces[unmove.from as usize] = Some(Piece { c: turn, t: unmove.piece_type });
        assert(self@.pieces =~= before.unmake().pieces);
        assert(self@.unmove_stack =~= before.unmake().unmove_stack);
    }
}

impl ChessState {
    /// Whether the piece `p` stands on `square`.
    fn holds(&self, square: u8, p: Piece) -> (r: bool)
        requires
            square < 64,
        ensures
            r == (self.pieces@[square as int] == Some(p)),
    {
        match self.pieces[square as usize] {
            Some(q) => q.c == p.c && q.t == p.t,
            None => false,
        }
    }

    /// Whether `square` is empty.
    fn free(&self, square: u8) -> (r: bool)
        requires
            square < 64,
        ensures
            r == (self.pieces@[square as int] is None),
    {
        self.pieces[square as usize].is_none()
    }

    /// Whether `m` can be played in this state and taken back.
    pub fn accepts(&self, m: &Move) -> (r: bool)
        ensures
            r == self@.applicable(*m),
    {
        if m.from >= 64 || m.to >= 64 {
            return false;
        }
        let turn = self.turn;
        let o = turn.back_rank();
        let king = Piece { c: turn, t: PieceType::King };
        let rook = Piece { c: turn, t: PieceType::Rook };
        if m.castle_queen {
            !m.castle_king && m.new_en_passant_target.is_none() && m.piece_type == PieceType::King
                && m.from == o + 4 && m.to == o + 2 && m.capture.is_none()
                && m.promote_to.is_none() && !m.en_passant && self.holds(o, rook) && self.free(o + 1)
                && self.free(o + 2) && self.free(o + 3) && self.holds(o + 4, king)
        } else if m.castle_king {
            m.new_en_passant_target.is_none() && m.piece_type == PieceType::King && m.from == o + 4
                && m.to == o + 6 && m.capture.is_none() && m.promote_to.is_none() && !m.en_passant
                && self.holds(o + 4, king) && self.free(o + 5) && self.free(o + 6) && self.holds(
                o + 7,
                rook,
            )
        } else {
            if m.from == m.to || !self.holds(m.from, Piece { c: turn, t: m.piece_type }) {
                return false;
            }
            if m.promote_to.is_some() && m.piece_type != PieceType::Pawn {
                return false;
            }
            if let Some(t) = m.new_en_passant_target {
                let fits = match turn {
                    PieceColor::White => m.to >= 8 && t == m.to - 8 && t >= 8 && m.from == t - 8
                        && m.from / 8 == 1,
                    PieceColor::Black => m.to < 56 && t == m.to + 8 && t < 56 && m.from == t + 8
                        && m.from / 8 == 6,
                };
                if !(fits && m.piece_type == PieceType::Pawn && !m.en_passant
                    && m.promote_to.is_none() && m.capture.is_none() && self.free(t)) {
                    return false;
                }
            }
            if m.en_passant {
                let in_range = match turn {
                    PieceColor::White => m.to >= 8,
                    PieceColor::Black => m.to < 56,
                };
                if !in_range {
                    return false;
                }
                let victim: u8 = match turn {
                    PieceColor::White => m.to - 8,
                    PieceColor::Black => m.to + 8,
                };
                m.piece_type == PieceType::Pawn && (match m.capture {
                    Some(t) => t == PieceType::Pawn,
                    None => false,
                }) && m.promote_to.is_none() && self.free(m.to) && self.holds(
                    victim,
                    Piece { c: turn.opposite(), t: PieceType::Pawn },
                )
            } else {
                match self.pieces[m.to as usize] {
                    Some(q) => q.c != turn && (match m.capture {
                        Some(t) => t == q.t,
                        None => false,
                    }),
                    None => m.capture.is_none(),
                }
            }
        }
    }
}

} // verus!
