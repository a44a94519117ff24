use super::gen_moves::Move;
use super::make_move::{board_after, takes_right, takes_right_of, victim_square};
use super::{ChessState, ChessStateView, Piece, PieceColor, PieceColorArray, PieceType};
use vstd::prelude::*;

verus! {

/// The random keys of the position hash: one for each colour, piece type and
/// square; one for Black to move; one for each castling right; one for each
/// file of an en-passant target.
pub struct Zobrist {
    /// 768 keys, that of a piece on a square at `Zobrist::piece_index`.
    pub piece: Vec<u64>,
    pub black_to_move: u64,
    pub queen_castle: PieceColorArray<u64>,
    pub king_castle: PieceColorArray<u64>,
    pub en_passant: [u64; 8],
}

/// `rand::random::<u64>()`: a number drawn by the thread's generator. Nothing is
/// claimed of it.
#[verifier::external_body]
fn random_key() -> (k: u64) {
    rand::random::<u64>()
}

impl Zobrist {
    /// Whether there is a key for each piece on each square.
    pub open spec fn wf(&self) -> bool {
        self.piece@.len() == 768
    }

    /// Where the key of piece `p` on square `sq` stands in `piece`.
    pub open spec fn piece_index(p: Piece, sq: int) -> int {
        (p.c.index() * 6 + p.t.index()) * 64 + sq
    }

    /// The key of piece `p` on square `sq`.
    pub open spec fn piece_key(&self, p: Piece, sq: int) -> u64 {
        self.piece@[Self::piece_index(p, sq)]
    }

    /// What a square adds to the hash: the key of the piece on it, 0 if it is empty.
    pub open spec fn cell_key(&self, cell: Option<Piece>, sq: int) -> u64 {
        match cell {
            Some(p) => self.piece_key(p, sq),
            None => 0,
        }
    }

    /// The xor of what the squares below `n` add to the hash.
    pub open spec fn board_hash(&self, pieces: Seq<Option<Piece>>, n: int) -> u64
        decreases n,
    {
        if n <= 0 {
            0
        } else {
            self.board_hash(pieces, n - 1) ^ self.cell_key(pieces[n - 1], n - 1)
        }
    }

    /// What a castling right adds to the hash: its key if it is granted.
    pub open spec fn right_key(granted: bool, key: u64) -> u64 {
        if granted {
            key
        } else {
            0
        }
    }

    /// The xor of the keys of the castling rights that are granted.
    pub open spec fn rights_hash(
        &self,
        queen_castle: PieceColorArray<bool>,
        king_castle: PieceColorArray<bool>,
    ) -> u64 {
        Self::right_key(queen_castle.white, self.queen_castle.white) ^ Self::right_key(
            king_castle.white,
            self.king_castle.white,
        ) ^ Self::right_key(queen_castle.black, self.queen_castle.black) ^ Self::right_key(
            king_castle.black,
            self.king_castle.black,
        )
    }

    /// The key of the file of the en-passant target, 0 if there is none.
    pub open spec fn en_passant_hash(&self, target: Option<u8>) -> u64 {
        match target {
            Some(t) => self.en_passant@[t as int % 8],
            None => 0,
        }
    }

    /// The key for Black to move if Black is to move, else 0.
    pub open spec fn turn_hash(&self, turn: PieceColor) -> u64 {
        match turn {
            PieceColor::White => 0,
            PieceColor::Black => self.black_to_move,
        }
    }

    /// The hash of a position from scratch: the xor of the keys of the pieces on
    /// their squares, of the castling rights that are granted, of the file of the
    /// en-passant target if there is one, and of Black to move if it is.
    pub open spec fn full_hash(
        &self,
        pieces: Seq<Option<Piece>>,
        turn: PieceColor,
        queen_castle: PieceColorArray<bool>,
        king_castle: PieceColorArray<bool>,
        en_passant_target: Option<u8>,
    ) -> u64 {
        self.board_hash(pieces, 64) ^ self.rights_hash(queen_castle, king_castle)
            ^ self.en_passant_hash(en_passant_target) ^ self.turn_hash(turn)
    }

    /// What playing `m` changes in the hash of the board: the xor of the keys of
    /// the moving piece on the square it leaves and of the piece that then stands
    /// on the square it enters, of the captured piece on its square, and for
    /// castling of king and rook on the squares they leave and enter.
    pub open spec fn board_delta(&self, turn: PieceColor, m: Move) -> u64 {
        let o = turn.back_rank() as int;
        let king = Piece { c: turn, t: PieceType::King };
        let rook = Piece { c: turn, t: PieceType::Rook };
        if m.castle_queen {
            self.piece_key(king, o + 4) ^ self.piece_key(king, o + 2) ^ self.piece_key(rook, o)
                ^ self.piece_key(rook, o + 3)
        } else if m.castle_king {
            self.piece_key(king, o + 4) ^ self.piece_key(king, o + 6) ^ self.piece_key(rook, o + 7)
                ^ self.piece_key(rook, o + 5)
        } else {
            let placed = match m.promote_to {
                Some(t) => t,
                None => m.piece_type,
            };
            let d = self.piece_key(Piece { c: turn, t: m.piece_type }, m.from as int)
                ^ self.piece_key(Piece { c: turn, t: placed }, m.to as int);
            match m.capture {
                Some(t) => d ^ self.piece_key(
                    Piece { c: turn.opposite(), t },
                    if m.en_passant {
                        victim_square(turn, m.to)
                    } else {
                        m.to as int
                    },
                ),
                None => d,
            }
        }
    }

    /// What playing `m` changes in the hash of the castling rights: the xor of
    /// the keys of the rights that were granted and that `m` takes.
    pub open spec fn rights_delta(
        &self,
        queen_castle: PieceColorArray<bool>,
        king_castle: PieceColorArray<bool>,
        turn: PieceColor,
        m: Move,
    ) -> u64 {
        Self::right_key(
            queen_castle.white && takes_right(turn, m, PieceColor::White, 0, 4),
            self.queen_castle.white,
        ) ^ Self::right_key(
            king_castle.white && takes_right(turn, m, PieceColor::White, 4, 7),
            self.king_castle.white,
        ) ^ Self::right_key(
            queen_castle.black && takes_right(turn, m, PieceColor::Black, 0, 4),
            self.queen_castle.black,
        ) ^ Self::right_key(
            king_castle.black && takes_right(turn, m, PieceColor::Black, 4, 7),
            self.king_castle.black,
        )
    }

    /// Putting `cell` on square `i` changes the hash of the board by the key of
    /// what stood there and the key of what stands there now.
    pub proof fn lemma_board_hash_update(
        &self,
        pieces: Seq<Option<Piece>>,
        i: int,
        cell: Option<Piece>,
        n: int,
    )
        requires
            0 <= i < pieces.len(),
            0 <= n <= pieces.len(),
        ensures
            self.board_hash(pieces.update(i, cell), n) == if n <= i {
                self.board_hash(pieces, n)
            } else {
                self.board_hash(pieces, n) ^ self.cell_key(pieces[i], i) ^ self.cell_key(cell, i)
            },
        decreases n,
    {
        if n > 0 {
            self.lemma_board_hash_update(pieces, i, cell, n - 1);
            let x = self.board_hash(pieces, n - 1);
            let a = self.cell_key(pieces[i], i);
            let b = self.cell_key(cell, i);
            let c = self.cell_key(pieces[n - 1], n - 1);
            if n - 1 == i {
                assert((x ^ a) ^ a ^ b == x ^ b) by (bit_vector);
            } else if n - 1 > i {
                assert((x ^ a ^ b) ^ c == (x ^ c) ^ a ^ b) by (bit_vector);
            }
        }
    }

    /// The hash of the board after `m` is the hash before it, changed by
    /// `board_delta`.
    pub proof fn lemma_board_delta(&self, s: ChessStateView, m: Move)
        requires
            s.pieces.len() == 64,
            s.applicable(m),
        ensures
            self.board_hash(board_after(s.pieces, s.turn, m), 64) == self.board_hash(s.pieces, 64)
                ^ self.board_delta(s.turn, m),
    {
        let p = s.pieces;
        let turn = s.turn;
        let o = turn.back_rank() as int;
        let b = self.board_hash(p, 64);
        let king = Piece { c: turn, t: PieceType::King };
        let rook = Piece { c: turn, t: PieceType::Rook };
        if m.castle_queen {
            let p1 = p.update(o, None);
            let p2 = p1.update(o + 2, Some(king));
            let p3 = p2.update(o + 3, Some(rook));
            self.lemma_board_hash_update(p, o, None, 64);
            self.lemma_board_hash_update(p1, o + 2, Some(king), 64);
            self.lemma_board_hash_update(p2, o + 3, Some(rook), 64);
            self.lemma_board_hash_update(p3, o + 4, None, 64);
            let r0 = self.piece_key(rook, o);
            let k2 = self.piece_key(king, o + 2);
            let r3 = self.piece_key(rook, o + 3);
            let k4 = self.piece_key(king, o + 4);
            assert(((((b ^ r0 ^ 0) ^ 0 ^ k2) ^ 0 ^ r3) ^ k4 ^ 0) == b ^ (k4 ^ k2 ^ r0 ^ r3))
                by (bit_vector);
        } else if m.castle_king {
            let p1 = p.update(o + 4, None);
            let p2 = p1.update(o + 5, Some(rook));
            let p3 = p2.update(o + 6, Some(king));
            self.lemma_board_hash_update(p, o + 4, None, 64);
            self.lemma_board_hash_update(p1, o + 5, Some(rook), 64);
            self.lemma_board_hash_update(p2, o + 6, Some(king), 64);
            self.lemma_board_hash_update(p3, o + 7, None, 64);
            let k4 = self.piece_key(king, o + 4);
            let r5 = self.piece_key(rook, o + 5);
            let k6 = self.piece_key(king, o + 6);
            let r7 = self.piece_key(rook, o + 7);
            assert(((((b ^ k4 ^ 0) ^ 0 ^ r5) ^ 0 ^ k6) ^ r7 ^ 0) == b ^ (k4 ^ k6 ^ r7 ^ r5))
                by (bit_vector);
        } else {
            let from = m.from as int;
            let to = m.to as int;
            let mover = Piece { c: turn, t: m.piece_type };
            let p1 = p.update(to, Some(mover));
            let p2 = p1.update(from, None);
            self.lemma_board_hash_update(p, to, Some(mover), 64);
            self.lemma_board_hash_update(p1, from, None, 64);
            let left = self.piece_key(mover, from);
            let came = self.piece_key(mover, to);
            let stood = self.cell_key(p[to], to);
            if m.en_passant {
                let v = victim_square(turn, m.to);
                self.lemma_board_hash_update(p2, v, None, 64);
                let taken = self.piece_key(Piece { c: turn.opposite(), t: PieceType::Pawn }, v);
                assert((((b ^ 0 ^ came) ^ left ^ 0) ^ taken ^ 0) == b ^ ((left ^ came) ^ taken))
                    by (bit_vector);
            } else {
                match m.promote_to {
                    Some(t) => {
                        let promoted = Piece { c: turn, t };
                        self.lemma_board_hash_update(p2, to, Some(promoted), 64);
                        let now = self.piece_key(promoted, to);
                        assert((((b ^ stood ^ came) ^ left ^ 0) ^ came ^ now) == b ^ ((left ^ now)
                            ^ stood)) by (bit_vector);
                        assert((((b ^ 0 ^ came) ^ left ^ 0) ^ came ^ now) == b ^ (left ^ now))
                            by (bit_vector);
                    },
                    None => {
                        assert(((b ^ stood ^ came) ^ left ^ 0) == b ^ ((left ^ came) ^ stood))
                            by (bit_vector);
                        assert(((b ^ 0 ^ came) ^ left ^ 0) == b ^ (left ^ came)) by (bit_vector);
                    },
                }
            }
        }
    }

    /// The hash of the castling rights after `m` is the hash before it, changed
    /// by `rights_delta`.
    pub proof fn lemma_rights_delta(&self, s: ChessStateView, m: Move)
        ensures
            self.rights_hash(s.queen_castle_after(m), s.king_castle_after(m)) == self.rights_hash(
                s.queen_castle,
                s.king_castle,
            ) ^ self.rights_delta(s.queen_castle, s.king_castle, s.turn, m),
    {
        let a = self.queen_castle.white;
        let b = self.king_castle.white;
        let c = self.queen_castle.black;
        let d = self.king_castle.black;
        assert(a ^ a == 0 && a ^ 0 == a && 0 ^ a == a) by (bit_vector);
        assert(b ^ b == 0 && b ^ 0 == b && 0 ^ b == b) by (bit_vector);
        assert(c ^ c == 0 && c ^ 0 == c && 0 ^ c == c) by (bit_vector);
        assert(d ^ d == 0 && d ^ 0 == d && 0 ^ d == d) by (bit_vector);
        let a0 = Self::right_key(s.queen_castle.white, a);
        let b0 = Self::right_key(s.king_castle.white, b);
        let c0 = Self::right_key(s.queen_castle.black, c);
        let d0 = Self::right_key(s.king_castle.black, d);
        let a1 = Self::right_key(s.queen_castle_after(m).white, a);
        let b1 = Self::right_key(s.king_castle_after(m).white, b);
        let c1 = Self::right_key(s.queen_castle_after(m).black, c);
        let d1 = Self::right_key(s.king_castle_after(m).black, d);
        let da = Self::right_key(
            s.queen_castle.white && takes_right(s.turn, m, PieceColor::White, 0, 4),
            a,
        );
        let db = Self::right_key(
            s.king_castle.white && takes_right(s.turn, m, PieceColor::White, 4, 7),
            b,
        );
        let dc = Self::right_key(
            s.queen_castle.black && takes_right(s.turn, m, PieceColor::Black, 0, 4),
            c,
        );
        let dd = Self::right_key(
            s.king_castle.black && takes_right(s.turn, m, PieceColor::Black, 4, 7),
            d,
        );
        assert(0u64 ^ 0 == 0) by (bit_vector);
        assert(a1 == a0 ^ da);
        assert(b1 == b0 ^ db);
        assert(c1 == c0 ^ dc);
        assert(d1 == d0 ^ dd);
        assert((a0 ^ da) ^ (b0 ^ db) ^ (c0 ^ dc) ^ (d0 ^ dd) == (a0 ^ b0 ^ c0 ^ d0) ^ (da ^ db ^ dc
            ^ dd)) by (bit_vector);
    }

    /// The hash of the state after `m`, from the hash before it and the changes.
    pub proof fn lemma_hash_after(&self, s: ChessStateView, m: Move)
        requires
            s.pieces.len() == 64,
            s.applicable(m),
            *self == s.zobrist,
        ensures
            s.make(m).hash == s.full_hash() ^ self.black_to_move ^ self.board_delta(s.turn, m)
                ^ self.rights_delta(s.queen_castle, s.king_castle, s.turn, m) ^ (
            self.en_passant_hash(s.en_passant_target) ^ self.en_passant_hash(s.en_passant_after(m))),
    {
        self.lemma_board_delta(s, m);
        self.lemma_rights_delta(s, m);
        let b = self.board_hash(s.pieces, 64);
        let r = self.rights_hash(s.queen_castle, s.king_castle);
        let e = self.en_passant_hash(s.en_passant_target);
        let t = self.turn_hash(s.turn);
        let k = self.black_to_move;
        let bd = self.board_delta(s.turn, m);
        let rd = self.rights_delta(s.queen_castle, s.king_castle, s.turn, m);
        let e1 = self.en_passant_hash(s.en_passant_after(m));
        let t1 = self.turn_hash(s.turn.opposite());
        assert(k ^ k == 0 && k ^ 0 == k && 0 ^ k == k) by (bit_vector);
        assert(t1 == t ^ k);
        assert((b ^ bd) ^ (r ^ rd) ^ e1 ^ (t ^ k) == (b ^ r ^ e ^ t) ^ k ^ bd ^ rd ^ (e ^ e1))
            by (bit_vector);
    }

    /// The key of piece `p` on square `sq`.
    pub fn key_of(&self, p: Piece, sq: u8) -> (k: u64)
        requires
            self.wf(),
            sq < 64,
        ensures
            k == self.piece_key(p, sq as int),
    {
        let c: usize = match p.c {
            PieceColor::White => 0,
            PieceColor::Black => 1,
        };
        let t: usize = match p.t {
            PieceType::Rook => 0,
            PieceType::Knight => 1,
            PieceType::Bishop => 2,
            PieceType::Queen => 3,
            PieceType::King => 4,
            PieceType::Pawn => 5,
        };
        self.piece[(c * 6 + t) * 64 + sq as usize]
    }

    /// `key` if the right is granted, else 0.
    fn right_key_of(granted: bool, key: u64) -> (k: u64)
        ensures
            k == Self::right_key(granted, key),
    {
        if granted {
            key
        } else {
            0
        }
    }

    /// The key of the file of an en-passant target, 0 if there is none.
    fn en_passant_key_of(&self, target: Option<u8>) -> (k: u64)
        ensures
            k == self.en_passant_hash(target),
    {
        match target {
            Some(t) => self.en_passant[(t % 8) as usize],
            None => 0,
        }
    }

    /// The hash of the state's position from scratch.
    pub fn calc_hash(state: &ChessState) -> (h: u64)
        requires
            state.zobrist.wf(),
        ensures
            h == state@.full_hash(),
    {
        let z: &Zobrist = &state.zobrist;
        let mut board: u64 = 0;
        let mut sq: u8 = 0;
        while sq < 64
            invariant
                sq <= 64,
                z.wf(),
                board == z.board_hash(state.pieces@, sq as int),
            decreases 64 - sq,
        {
            match state.pieces[sq as usize] {
                Some(p) => {
                    board ^= z.key_of(p, sq);
                },
                None => {
                    assert(board ^ 0 == board) by (bit_vector);
                },
            }
            sq += 1;
        }
        let rights = Self::right_key_of(state.queen_castle.white, z.queen_castle.white)
            ^ Self::right_key_of(state.king_castle.white, z.king_castle.white)
            ^ Self::right_key_of(state.queen_castle.black, z.queen_castle.black)
            ^ Self::right_key_of(state.king_castle.black, z.king_castle.black);
        let turn = match state.turn {
            PieceColor::White => 0,
            PieceColor::Black => z.black_to_move,
        };
        board ^ rights ^ z.en_passant_key_of(state.en_passant_target) ^ turn
    }

    /// The xor of the keys that `m` changes on the board.
    fn board_delta_of(&self, state: &ChessState, m: &Move) -> (d: u64)
        requires
            self.wf(),
            state@.applicable(*m),
        ensures
            d == self.board_delta(state.turn, *m),
    {
        let turn = state.turn;
        let o = turn.back_rank();
        let king = Piece { c: turn, t: PieceType::King };
        let rook = Piece { c: turn, t: PieceType::Rook };
        if m.castle_queen {
            self.key_of(king, o + 4) ^ self.key_of(king, o + 2) ^ self.key_of(rook, o)
                ^ self.key_of(rook, o + 3)
        } else if m.castle_king {
            self.key_of(king, o + 4) ^ self.key_of(king, o + 6) ^ self.key_of(rook, o + 7)
                ^ self.key_of(rook, o + 5)
        } else {
            let placed = match m.promote_to {
                Some(t) => t,
                None => m.piece_type,
            };
            let d = self.key_of(Piece { c: turn, t: m.piece_type }, m.from) ^ self.key_of(
                Piece { c: turn, t: placed },
                m.to,
            );
            match m.capture {
                Some(t) => {
                    let at: u8 = if m.en_passant {
                        match turn {
                            PieceColor::White => m.to - 8,
                            PieceColor::Black => m.to + 8,
                        }
                    } else {
                        m.to
                    };
                    d ^ self.key_of(Piece { c: turn.opposite(), t }, at)
                },
                None => d,
            }
        }
    }

    /// The xor of the keys of the castling rights that `m` takes.
    fn rights_delta_of(&self, state: &ChessState, m: &Move) -> (d: u64)
        ensures
            d == self.rights_delta(state.queen_castle, state.king_castle, state.turn, *m),
    {
        let turn = state.turn;
        Self::right_key_of(
            state.queen_castle.white && takes_right_of(turn, m, PieceColor::White, 0, 4),
            self.queen_castle.white,
        ) ^ Self::right_key_of(
            state.king_castle.white && takes_right_of(turn, m, PieceColor::White, 4, 7),
            self.king_castle.white,
        ) ^ Self::right_key_of(
            state.queen_castle.black && takes_right_of(turn, m, PieceColor::Black, 0, 4),
            self.queen_castle.black,
        ) ^ Self::right_key_of(
            state.king_castle.black && takes_right_of(turn, m, PieceColor::Black, 4, 7),
            self.king_castle.black,
        )
    }

    /// The hash after `m`, from the hash before it: the key for Black to move is
    /// toggled, the keys of what `m` changes on the board and of the castling
    /// rights that it takes are xored in, the key of the old en-passant file goes
    /// out and that of the new one comes in.
    pub fn inc_update(hash: u64, state: &ChessState, m: &Move) -> (h: u64)
        requires
            state.zobrist.wf(),
            state@.applicable(*m),
            hash == state@.full_hash(),
        ensures
            h == state@.make(*m).hash,
            h == state@.make(*m).full_hash(),
    {
        let z: &Zobrist = &state.zobrist;
        proof {
            z.lemma_hash_after(state@, *m);
        }
        let board = z.board_delta_of(state, m);
        let rights = z.rights_delta_of(state, m);
        let en_passant = z.en_passant_key_of(state.en_passant_target) ^ z.en_passant_key_of(
            state.next_en_passant_target(m),
        );
        hash ^ z.black_to_move ^ board ^ rights ^ en_passant
    }

    /// Draws every key anew.
    pub fn init() -> (z: Zobrist)
        ensures
            z.wf(),
    {
        let mut piece: Vec<u64> = Vec::new();
        let mut i: usize = 0;
        while i < 768
            invariant
                i <= 768,
                piece@.len() == i,
            decreases 768 - i,
        {
            piece.push(random_key());
            i += 1;
        }
        let mut en_passant: [u64; 8] = [0; 8];
        let mut file: usize = 0;
        while file < 8
            invariant
                file <= 8,
            decreases 8 - file,
        {
            en_passant[file] = random_key();
            file += 1;
        }
        Zobrist {
            piece,
            black_to_move: random_key(),
            queen_castle: PieceColorArray { white: random_key(), black: random_key() },
            king_castle: PieceColorArray { white: random_key(), black: random_key() },
            en_passant,
        }
    }
}

} // verus!
