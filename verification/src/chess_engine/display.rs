use super::gen_moves::Move;
use super::{fr, si, ChessState, ChessStateView, Piece, PieceColor, PieceType};
use vstd::prelude::*;
use vstd::string::*;

verus! {

/// The letter of a file, `a` to `h`.
pub open spec fn file_char(f: int) -> char {
    ('a' as int + f) as char
}

/// The digit of a rank, `1` to `8`.
pub open spec fn rank_char(r: int) -> char {
    ('1' as int + r) as char
}

/// A square in algebraic coordinates: the letter of its file, the digit of its rank.
pub open spec fn square_text(i: u8) -> Seq<char> {
    seq![file_char(i as int % 8), rank_char(i as int / 8)]
}

/// The lower-case letter of a piece type.
pub open spec fn type_char(t: PieceType) -> char {
    match t {
        PieceType::Rook => 'r',
        PieceType::Knight => 'n',
        PieceType::Bishop => 'b',
        PieceType::Queen => 'q',
        PieceType::King => 'k',
        PieceType::Pawn => 'p',
    }
}

/// The letter of a piece: upper case for White, lower case for Black.
pub open spec fn piece_char(p: Piece) -> char {
    match p.c {
        PieceColor::White => match p.t {
            PieceType::Rook => 'R',
            PieceType::Knight => 'N',
            PieceType::Bishop => 'B',
            PieceType::Queen => 'Q',
            PieceType::King => 'K',
            PieceType::Pawn => 'P',
        },
        PieceColor::Black => type_char(p.t),
    }
}

/// What is printed for a square of the board: the letter of its piece, `+` if it
/// is empty.
pub open spec fn cell_char(cell: Option<Piece>) -> char {
    match cell {
        Some(p) => piece_char(p),
        None => '+',
    }
}

/// A move in coordinates: the square it leaves, the square it enters, and the
/// letter of the piece it promotes to, if any.
pub open spec fn move_text(m: Move) -> Seq<char> {
    square_text(m.from) + square_text(m.to) + match m.promote_to {
        Some(t) => seq![type_char(t)],
        None => seq![],
    }
}

/// The letter of a file as a text.
fn file_str(f: u8) -> (s: &'static str)
    requires
        f < 8,
    ensures
        s@ == seq![file_char(f as int)],
{
    proof {
        reveal_strlit("a");
        reveal_strlit("b");
        reveal_strlit("c");
        reveal_strlit("d");
        reveal_strlit("e");
        reveal_strlit("f");
        reveal_strlit("g");
        reveal_strlit("h");
    }
    let s = match f {
        0 => "a",
        1 => "b",
        2 => "c",
        3 => "d",
        4 => "e",
        5 => "f",
        6 => "g",
        _ => "h",
    };
    assert(s@ =~= seq![file_char(f as int)]);
    s
}

/// The digit of a rank as a text.
fn rank_str(r: u8) -> (s: &'static str)
    requires
        r < 8,
    ensures
        s@ == seq![rank_char(r as int)],
{
    proof {
        reveal_strlit("1");
        reveal_strlit("2");
        reveal_strlit("3");
        reveal_strlit("4");
        reveal_strlit("5");
        reveal_strlit("6");
        reveal_strlit("7");
        reveal_strlit("8");
    }
    let s = match r {
        0 => "1",
        1 => "2",
        2 => "3",
        3 => "4",
        4 => "5",
        5 => "6",
        6 => "7",
        _ => "8",
    };
    assert(s@ =~= seq![rank_char(r as int)]);
    s
}

/// A square in algebraic coordinates.
pub fn format_square(i: u8) -> (s: String)
    requires
        i < 64,
    ensures
        s@ == square_text(i),
{
    let (fi, ri) = fr(i);
    let mut s = String::from_str(file_str(fi));
    s.append(rank_str(ri));
    assert(s@ =~= square_text(i));
    s
}

impl PieceType {
    /// The lower-case letter of the piece type.
    pub fn to_string(&self) -> (s: String)
        ensures
            s@ == seq![type_char(*self)],
    {
        proof {
            reveal_strlit("r");
            reveal_strlit("n");
            reveal_strlit("b");
            reveal_strlit("q");
            reveal_strlit("k");
            reveal_strlit("p");
        }
        let s = String::from_str(
            match self {
                PieceType::Rook => "r",
                PieceType::Knight => "n",
                PieceType::Bishop => "b",
                PieceType::Queen => "q",
                PieceType::King => "k",
                PieceType::Pawn => "p",
            },
        );
        assert(s@ =~= seq![type_char(*self)]);
        s
    }
}

impl Piece {
    /// The letter of the piece: upper case for White, lower case for Black.
    pub fn to_string(&self) -> (s: String)
        ensures
            s@ == seq![piece_char(*self)],
    {
        match self.c {
            PieceColor::White => {
                proof {
                    reveal_strlit("R");
                    reveal_strlit("N");
                    reveal_strlit("B");
                    reveal_strlit("Q");
                    reveal_strlit("K");
                    reveal_strlit("P");
                }
                let s = String::from_str(
                    match self.t {
                        PieceType::Rook => "R",
                        PieceType::Knight => "N",
                        PieceType::Bishop => "B",
                        PieceType::Queen => "Q",
                        PieceType::King => "K",
                        PieceType::Pawn => "P",
                    },
                );
                assert(s@ =~= seq![piece_char(*self)]);
                s
            },
            PieceColor::Black => self.t.to_string(),
        }
    }
}

/// What is printed for the square of file `f` and rank `r`.
pub fn piece_at(s: &ChessState, f: u8, r: u8) -> (t: String)
    requires
        f < 8,
        r < 8,
    ensures
        t@ == seq![cell_char(s.pieces@[8 * r + f])],
{
    match s.pieces[si(f, r) as usize] {
        Some(p) => p.to_string(),
        None => {
            proof {
                reveal_strlit("+");
            }
            let t = String::from_str("+");
            assert(t@ =~= seq![cell_char(None)]);
            t
        },
    }
}

impl Move {
    /// The move in coordinates, such as `e2e4` or `e7e8q`.
    pub fn to_string(&self) -> (s: String)
        requires
            self.from < 64,
            self.to < 64,
        ensures
            s@ == move_text(*self),
    {
        let mut s = format_square(self.from);
        let to = format_square(self.to);
        s.append(to.as_str());
        if let Some(t) = self.promote_to {
            let p = t.to_string();
            s.append(p.as_str());
        }
        assert(s@ =~= move_text(*self));
        s
    }
}

/// `String::push`: the string with the character appended.
#[verifier::external_body]
pub(crate) fn push_char(s: &mut String, c: char)
    ensures
        final(s)@ == old(s)@.push(c),
{
    s.push(c)
}

/// The moves in coordinates, each followed by a space.
pub open spec fn moves_text(moves: Seq<Move>, n: int) -> Seq<char>
    decreases n,
{
    if n <= 0 {
        seq![]
    } else {
        moves_text(moves, n - 1) + move_text(moves[n - 1]).push(' ')
    }
}

/// The moves in coordinates, each followed by a space.
pub fn fmt_moves(moves: &[Move]) -> (s: String)
    requires
        forall|i: int| 0 <= i < moves@.len() ==> moves@[i].from < 64 && moves@[i].to < 64,
    ensures
        s@ == moves_text(moves@, moves@.len() as int),
{
    let mut s = String::new();
    let mut i: usize = 0;
    while i < moves.len()
        invariant
            i <= moves@.len(),
            forall|i: int| 0 <= i < moves@.len() ==> moves@[i].from < 64 && moves@[i].to < 64,
            s@ == moves_text(moves@, i as int),
        decreases moves@.len() - i,
    {
        let ghost before = s@;
        let m = moves[i].to_string();
        s.append(m.as_str());
        push_char(&mut s, ' ');
        assert(s@ =~= before + move_text(moves@[i as int]).push(' '));
        i += 1;
    }
    s
}

/// The decimal digit of a number below 10.
pub open spec fn digit_char(d: int) -> char {
    ('0' as int + d) as char
}

/// A number in decimal digits.
pub open spec fn decimal_text(n: nat) -> Seq<char>
    decreases n,
{
    if n < 10 {
        seq![digit_char(n as int)]
    } else {
        decimal_text(n / 10).push(digit_char(n as int % 10))
    }
}

/// A number in decimal digits.
pub fn decimal(n: u128) -> (s: String)
    ensures
        s@ == decimal_text(n as nat),
    decreases n,
{
    let d = match n % 10 {
        0 => '0',
        1 => '1',
        2 => '2',
        3 => '3',
        4 => '4',
        5 => '5',
        6 => '6',
        7 => '7',
        8 => '8',
        _ => '9',
    };
    assert(d == digit_char(n as int % 10));
    let mut s = if n < 10 {
        String::new()
    } else {
        decimal(n / 10)
    };
    push_char(&mut s, d);
    assert(n < 10 ==> s@ =~= seq![digit_char(n as int)]);
    s
}

/// The squares of the ranks from `rank` up to the eighth, the eighth first, each
/// rank as eight characters and a line feed.
pub open spec fn ranks_text(pieces: Seq<Option<Piece>>, rank: int) -> Seq<char>
    decreases 8 - rank,
{
    if rank >= 8 {
        seq![]
    } else {
        ranks_text(pieces, rank + 1) + Seq::new(8, |f: int| cell_char(pieces[8 * rank + f])).push(
            '\n',
        )
    }
}

/// The line that names a castling right, if it is granted.
pub open spec fn right_text(granted: bool, line: Seq<char>) -> Seq<char> {
    if granted {
        line
    } else {
        seq![]
    }
}

impl ChessStateView {
    /// The state in words: the board, the eighth rank first, then a line each for
    /// the side to move, for each castling right that is granted, for the
    /// en-passant target if there is one, for the two clocks and for the square of
    /// each king.
    pub open spec fn text(self) -> Seq<char> {
        ranks_text(self.pieces, 0) + "Active color: "@ + (match self.turn {
            PieceColor::White => "White\n"@,
            PieceColor::Black => "Black\n"@,
        }) + right_text(self.king_castle.white, "White can castle short\n"@) + right_text(
            self.queen_castle.white,
            "White can castle long\n"@,
        ) + right_text(self.king_castle.black, "Black can castle short\n"@) + right_text(
            self.queen_castle.black,
            "Black can castle long\n"@,
        ) + (match self.en_passant_target {
            Some(t) => "En passant target: "@ + decimal_text(t as nat).push('\n'),
            None => seq![],
        }) + "Halfmove count: "@ + decimal_text(self.halfmove_clock as nat).push('\n')
            + "Move count: "@ + decimal_text(self.move_clock as nat).push('\n')
            + "White king pos: "@ + square_text(self.king_pos.white).push('\n')
            + "Black king pos: "@ + square_text(self.king_pos.black)
    }
}

impl ChessState {
    /// The state in words.
    pub fn to_string(&self) -> (s: String)
        requires
            self.king_pos.white < 64,
            self.king_pos.black < 64,
        ensures
            s@ == self@.text(),
    {
        let mut s = String::new();
        let mut r: u8 = 8;
        while r > 0
            invariant
                r <= 8,
                s@ == ranks_text(self.pieces@, r as int),
            decreases r,
        {
            r -= 1;
            let ghost above = s@;
            let mut f: u8 = 0;
            while f < 8
                invariant
                    f <= 8,
                    r < 8,
                    s@ == above + Seq::new(f as nat, |f: int| cell_char(self.pieces@[8 * r + f])),
                decreases 8 - f,
            {
                let ghost before = s@;
                let c = piece_at(self, f, r);
                s.append(c.as_str());
                assert(s@ =~= above + Seq::new(
                    (f + 1) as nat,
                    |f: int| cell_char(self.pieces@[8 * r + f]),
                ));
                f += 1;
            }
            push_char(&mut s, '\n');
        }
        s.append("Active color: ");
        match self.turn {
            PieceColor::White => s.append("White\n"),
            PieceColor::Black => s.append("Black\n"),
        }
        let ghost a = s@;
        if self.king_castle.white {
            s.append("White can castle short\n");
        }
        assert(s@ =~= a + right_text(self.king_castle.white, "White can castle short\n"@));
        let ghost a = s@;
        if self.queen_castle.white {
            s.append("White can castle long\n");
        }
        assert(s@ =~= a + right_text(self.queen_castle.white, "White can castle long\n"@));
        let ghost a = s@;
        if self.king_castle.black {
            s.append("Black can castle short\n");
        }
        assert(s@ =~= a + right_text(self.king_castle.black, "Black can castle short\n"@));
        let ghost a = s@;
        if self.queen_castle.black {
            s.append("Black can castle long\n");
        }
        assert(s@ =~= a + right_text(self.queen_castle.black, "Black can castle long\n"@));
        let ghost a = s@;
        if let Some(x) = self.en_passant_target {
            s.append("En passant target: ");
            let n = decimal(x as u128);
            s.append(n.as_str());
            push_char(&mut s, '\n');
            assert(s@ =~= a + ("En passant target: "@ + decimal_text(x as nat).push('\n')));
        } else {
            assert(s@ =~= a + Seq::<char>::empty());
        }
        let ghost a = s@;
        s.append("Halfmove count: ");
        let n = decimal(self.halfmove_clock);
        s.append(n.as_str());
        push_char(&mut s, '\n');
        assert(s@ =~= a + "Halfmove count: "@ + decimal_text(self.halfmove_clock as nat).push('\n'));
        let ghost a = s@;
        s.append("Move count: ");
        let n = decimal(self.move_clock);
        s.append(n.as_str());
        push_char(&mut s, '\n');
        assert(s@ =~= a + "Move count: "@ + decimal_text(self.move_clock as nat).push('\n'));
        let ghost a = s@;
        s.append("White king pos: ");
        let w = format_square(self.king_pos.white);
        s.append(w.as_str());
        push_char(&mut s, '\n');
        assert(s@ =~= a + "White king pos: "@ + square_text(self.king_pos.white).push('\n'));
        let ghost a = s@;
        s.append("Black king pos: ");
        let b = format_square(self.king_pos.black);
        s.append(b.as_str());
        assert(s@ =~= a + "Black king pos: "@ + square_text(self.king_pos.black));
        s
    }
}

} // verus!
