use super::display::move_text;
use super::gen_moves::Move;
use super::sort::{comes_before, orders_all, sort_order};
use super::{first_written, lemma_first_written, ChessState, PieceType};
use byteorder::{BigEndian, ByteOrder};
use vstd::prelude::*;
use vstd::slice::*;
use vstd::string::*;

verus! {

/// The number that bytes write, the first byte the most significant.
pub open spec fn big_endian(bytes: Seq<u8>) -> nat
    decreases bytes.len(),
{
    if bytes.len() == 0 {
        0
    } else {
        big_endian(bytes.drop_last()) * 256 + bytes.last() as nat
    }
}

/// `byteorder::BigEndian::read_u64`: the first eight bytes of `buf` as one
/// number, the first byte the most significant.
#[verifier::external_body]
fn read_u64(buf: &[u8]) -> (r: u64)
    requires
        buf@.len() >= 8,
    ensures
        r == big_endian(buf@.subrange(0, 8)),
{
    BigEndian::read_u64(buf)
}

/// `byteorder::BigEndian::read_u16`: the first two bytes of `buf` as one number,
/// the first byte the most significant.
#[verifier::external_body]
fn read_u16(buf: &[u8]) -> (r: u16)
    requires
        buf@.len() >= 2,
    ensures
        r == big_endian(buf@.subrange(0, 2)),
{
    BigEndian::read_u16(buf)
}

/// Why bytes are no opening book.
#[derive(Clone, Copy, PartialEq, Eq, Structural, Debug)]
pub enum BookError {
    /// The bytes end after the key of a record and before the end of its move.
    Truncated,
    /// The move of a record names a promotion piece that there is not.
    InvalidPiece,
}

/// The piece that a promotion code of a book move stands for: none for 0,
/// knight, bishop, rook and queen for 1 to 4. `None` for a code above 4.
pub open spec fn promotion_of(code: int) -> Option<Option<PieceType>> {
    if code == 0 {
        Some(None)
    } else if code == 1 {
        Some(Some(PieceType::Knight))
    } else if code == 2 {
        Some(Some(PieceType::Bishop))
    } else if code == 3 {
        Some(Some(PieceType::Rook))
    } else if code == 4 {
        Some(Some(PieceType::Queen))
    } else {
        None
    }
}

/// The move that 16 bits of a book record encode: from the lowest bit on, three
/// bits each for the file and the rank of the square it enters and for the file
/// and the rank of the square it leaves, then three bits for the promotion.
/// `None` if the promotion code stands for no piece.
pub open spec fn book_move(code: u16) -> Option<Move> {
    match promotion_of(code as int / 4096 % 8) {
        Some(promote_to) => Some(
            Move {
                from: (8 * (code as int / 512 % 8) + code as int / 64 % 8) as u8,
                to: (8 * (code as int / 8 % 8) + code as int % 8) as u8,
                promote_to,
                ..Move::blank()
            },
        ),
        None => None,
    }
}

/// The records that the bytes hold from place `at` on, each a key and a move
/// code, or what is wrong with them. A record is 16 bytes long: eight bytes of
/// key, two of move, six that are not read. Fewer than eight bytes left end the
/// book; eight or nine are an error; the six bytes of the last record may be
/// missing.
pub open spec fn records(bytes: Seq<u8>, at: int) -> Result<Seq<(u64, u16)>, BookError>
    decreases bytes.len() - at,
{
    if at < 0 || bytes.len() - at < 8 {
        Ok(seq![])
    } else if bytes.len() - at < 10 {
        Err(BookError::Truncated)
    } else {
        let key = big_endian(bytes.subrange(at, at + 8)) as u64;
        let code = big_endian(bytes.subrange(at + 8, at + 10)) as u16;
        if book_move(code) is None {
            Err(BookError::InvalidPiece)
        } else if bytes.len() - at < 16 {
            Ok(seq![(key, code)])
        } else {
            match records(bytes, at + 16) {
                Ok(rest) => Ok(seq![(key, code)] + rest),
                Err(e) => Err(e),
            }
        }
    }
}

/// A move of the opening book: the hash of the position and the move in
/// coordinates.
#[derive(Clone, Debug)]
pub struct BookEntry {
    pub key: u64,
    pub move_: String,
}

impl BookEntry {
    /// Whether the entry is that of a record with the key `record.0` and the
    /// move code `record.1`.
    pub open spec fn is_of(self, record: (u64, u16)) -> bool {
        self.key == record.0 && book_move(record.1) is Some && self.move_@ == move_text(
            book_move(record.1)->0,
        )
    }

    /// The entry of a record with the key `key` and the move code `move_`.
    pub fn new(key: u64, move_: u16) -> (entry: BookEntry)
        requires
            book_move(move_) is Some,
        ensures
            entry.is_of((key, move_)),
    {
        assert(move_ & 7 == move_ % 8) by (bit_vector);
        assert((move_ >> 3) & 7 == move_ / 8 % 8) by (bit_vector);
        assert((move_ >> 6) & 7 == move_ / 64 % 8) by (bit_vector);
        assert((move_ >> 9) & 7 == move_ / 512 % 8) by (bit_vector);
        assert((move_ >> 12) & 7 == move_ / 4096 % 8) by (bit_vector);
        let to_file = (move_ & 7) as u8;
        let to_row = ((move_ >> 3) & 7) as u8;
        let from_file = ((move_ >> 6) & 7) as u8;
        let from_row = ((move_ >> 9) & 7) as u8;
        let promote_to = match (move_ >> 12) & 7 {
            1 => Some(PieceType::Knight),
            2 => Some(PieceType::Bishop),
            3 => Some(PieceType::Rook),
            4 => Some(PieceType::Queen),
            _ => None,
        };
        let m = Move {
            from: from_row * 8 + from_file,
            to: to_row * 8 + to_file,
            promote_to,
            ..Move::default()
        };
        BookEntry { key, move_: m.to_string() }
    }
}

/// Whether the keys of the entries do not fall from one place to the next.
pub open spec fn sorted_by_key(entries: Seq<BookEntry>) -> bool {
    forall|i: int, j: int| 0 <= i <= j < entries.len() ==> entries[i].key <= entries[j].key
}

/// The keys of the records as keys to order them by.
pub open spec fn record_keys(rs: Seq<(u64, u16)>) -> Seq<i128> {
    Seq::new(rs.len(), |k: int| rs[k].0 as i128)
}

/// Whether `entries` are the entries of the records `rs`, one for one, put in
/// the order of their keys, those of one key in the order of their records.
pub open spec fn arranges(entries: Seq<BookEntry>, rs: Seq<(u64, u16)>) -> bool {
    exists|order: Seq<usize>| #[trigger]
        orders_all(record_keys(rs), order) && entries.len() == rs.len() && forall|k: int|
            0 <= k < entries.len() ==> (#[trigger] entries[k]).is_of(rs[order[k] as int])
}

/// The place of the first of the entries, from place `i` on, that has the key
/// `key`.
pub open spec fn first_with_key(entries: Seq<BookEntry>, key: u64, i: int) -> Option<int>
    decreases entries.len() - i,
{
    if i < 0 || i >= entries.len() {
        None
    } else if entries[i].key == key {
        Some(i)
    } else {
        first_with_key(entries, key, i + 1)
    }
}

/// Entries with another key can be passed over.
pub proof fn lemma_first_with_key_skips(entries: Seq<BookEntry>, key: u64, i: int, j: int)
    requires
        0 <= i <= j <= entries.len(),
        forall|k: int| i <= k < j ==> entries[k].key != key,
    ensures
        first_with_key(entries, key, i) == first_with_key(entries, key, j),
    decreases j - i,
{
    if i < j {
        lemma_first_with_key_skips(entries, key, i + 1, j);
    }
}

/// An opening book: moves to play in known positions, found by the hash of the
/// position. The entries stand in the order of their keys.
pub struct Book {
    pub entries: Vec<BookEntry>,
}

/// The keys of the entries as keys to order them by.
pub open spec fn entry_keys(entries: Seq<BookEntry>) -> Seq<i128> {
    Seq::new(entries.len(), |k: int| entries[k].key as i128)
}

/// Whether two entries have the same key and the same move.
pub open spec fn same_entry(a: BookEntry, b: BookEntry) -> bool {
    a.key == b.key && a.move_@ == b.move_@
}

/// Whether `sorted` holds the entries of `entries` in the order of their keys,
/// the least first, entries of one key in the order in which they stand in
/// `entries`.
pub open spec fn sorts_entries(sorted: Seq<BookEntry>, entries: Seq<BookEntry>) -> bool {
    exists|order: Seq<usize>| #[trigger]
        orders_all(entry_keys(entries), order) && sorted.len() == entries.len() && forall|k: int|
            0 <= k < sorted.len() ==> same_entry(#[trigger] sorted[k], entries[order[k] as int])
}

/// Orders the entries by their keys, the least first: the same entries, and
/// entries of one key in the order in which they stood.
pub fn sort_entries(entries: Vec<BookEntry>) -> (sorted: Vec<BookEntry>)
    ensures
        sorts_entries(sorted@, entries@),
        sorted_by_key(sorted@),
        sorted@.len() == entries@.len(),
{
    let mut keys: Vec<i128> = Vec::new();
    let mut k: usize = 0;
    while k < entries.len()
        invariant
            k <= entries@.len(),
            keys@.len() == k,
            forall|i: int| 0 <= i < k ==> #[trigger] keys@[i] == entries@[i].key as i128,
        decreases entries@.len() - k,
    {
        keys.push(entries[k].key as i128);
        k += 1;
    }
    assert(keys@ =~= entry_keys(entries@));
    let order = sort_order(&keys);
    let mut sorted: Vec<BookEntry> = Vec::new();
    let mut k: usize = 0;
    while k < order.len()
        invariant
            k <= order@.len(),
            orders_all(keys@, order@),
            keys@ == entry_keys(entries@),
            sorted@.len() == k,
            forall|i: int| 0 <= i < k ==> same_entry(#[trigger] sorted@[i], entries@[order@[i] as int]),
        decreases order@.len() - k,
    {
        let entry = &entries[order[k]];
        sorted.push(BookEntry { key: entry.key, move_: entry.move_.clone() });
        k += 1;
    }
    proof {
        assert forall|i: int, j: int| 0 <= i <= j < sorted@.len() implies sorted@[i].key
            <= sorted@[j].key by {
            assert(same_entry(sorted@[i], entries@[order@[i] as int]));
            assert(same_entry(sorted@[j], entries@[order@[j] as int]));
            if i < j {
                assert(comes_before(keys@, order@[i] as int, order@[j] as int));
            }
        }
    }
    sorted
}

/// The promotion code of a move code stands for a piece.
fn promotes_rightly(code: u16) -> (r: bool)
    ensures
        r == (book_move(code) is Some),
{
    assert((code >> 12) & 7 == code / 4096 % 8) by (bit_vector);
    (code >> 12) & 7 <= 4
}

/// The entries of the records that the bytes hold, in their order.
pub fn read_records(bytes: &[u8]) -> (r: Result<Vec<BookEntry>, BookError>)
    ensures
        match records(bytes@, 0) {
            Ok(rs) => r is Ok && r->Ok_0@.len() == rs.len() && forall|k: int|
                0 <= k < rs.len() ==> (#[trigger] r->Ok_0@[k]).is_of(rs[k]),
            Err(e) => r == Err::<Vec<BookEntry>, BookError>(e),
        },
{
    let mut entries: Vec<BookEntry> = Vec::new();
    let len = bytes.len();
    let mut at: usize = 0;
    let ghost mut read: Seq<(u64, u16)> = seq![];
    assert(read + records(bytes@, 0)->Ok_0 =~= records(bytes@, 0)->Ok_0);
    loop
        invariant_except_break
            at <= len,
            len == bytes@.len(),
            entries@.len() == read.len(),
            forall|k: int| 0 <= k < read.len() ==> (#[trigger] entries@[k]).is_of(read[k]),
            match records(bytes@, at as int) {
                Ok(rest) => records(bytes@, 0) == Ok::<Seq<(u64, u16)>, BookError>(read + rest),
                Err(e) => records(bytes@, 0) == Err::<Seq<(u64, u16)>, BookError>(e),
            },
        ensures
            records(bytes@, 0) == Ok::<Seq<(u64, u16)>, BookError>(read),
            entries@.len() == read.len(),
            forall|k: int| 0 <= k < read.len() ==> (#[trigger] entries@[k]).is_of(read[k]),
        decreases len - at,
    {
        if len - at < 8 {
            assert(read + Seq::<(u64, u16)>::empty() =~= read);
            break ;
        }
        if len - at < 10 {
            return Err(BookError::Truncated);
        }
        let key = read_u64(slice_subrange(bytes, at, at + 8));
        let move_ = read_u16(slice_subrange(bytes, at + 8, at + 10));
        assert(bytes@.subrange(at as int, at + 8).subrange(0, 8) =~= bytes@.subrange(
            at as int,
            at + 8,
        ));
        assert(bytes@.subrange(at + 8, at + 10).subrange(0, 2) =~= bytes@.subrange(at + 8, at + 10));
        if !promotes_rightly(move_) {
            return Err(BookError::InvalidPiece);
        }
        entries.push(BookEntry::new(key, move_));
        proof {
            if len - at >= 16 {
                match records(bytes@, at + 16) {
                    Ok(rest) => {
                        assert(read.push((key, move_)) + rest =~= read + (seq![(key, move_)] + rest));
                    },
                    Err(e) => {},
                }
            } else {
                assert(read.push((key, move_)) =~= read + seq![(key, move_)]);
            }
            read = read.push((key, move_));
        }
        if len - at < 16 {
            break ;
        }
        at += 16;
    }
    Ok(entries)
}

impl Book {
    /// Whether the entries stand in the order of their keys.
    pub open spec fn wf(&self) -> bool {
        sorted_by_key(self.entries@)
    }

    /// The move that the book holds for the position with the hash `key`: that of
    /// the first entry with this key.
    pub open spec fn lookup(&self, key: u64) -> Option<Seq<char>> {
        match first_with_key(self.entries@, key, 0) {
            Some(i) => Some(self.entries@[i].move_@),
            None => None,
        }
    }

    /// The book that the bytes of a book file hold, its entries put in the order
    /// of their keys.
    pub fn from_bytes(bytes: &[u8]) -> (r: Result<Book, BookError>)
        ensures
            match records(bytes@, 0) {
                Ok(rs) => r is Ok && r->Ok_0.wf() && arranges(r->Ok_0.entries@, rs),
                Err(e) => r is Err && r->Err_0 == e,
            },
    {
        match read_records(bytes) {
            Ok(read) => {
                let ghost unsorted = read@;
                let ghost rs = records(bytes@, 0)->Ok_0;
                let entries = sort_entries(read);
                proof {
                    assert(entry_keys(unsorted) =~= record_keys(rs));
                    let order = choose|order: Seq<usize>| #[trigger]
                        orders_all(entry_keys(unsorted), order) && entries@.len() == unsorted.len()
                            && forall|k: int|
                            0 <= k < entries@.len() ==> same_entry(
                                #[trigger] entries@[k],
                                unsorted[order[k] as int],
                            );
                    assert forall|k: int| 0 <= k < entries@.len() implies (#[trigger] entries@[k]).is_of(
                        rs[order[k] as int],
                    ) by {
                        assert(same_entry(entries@[k], unsorted[order[k] as int]));
                        assert(unsorted[order[k] as int].is_of(rs[order[k] as int]));
                    }
                    assert(orders_all(record_keys(rs), order));
                }
                Ok(Book { entries })
            },
            Err(e) => Err(e),
        }
    }

    /// The move that the book holds for the position with the hash `key`.
    pub fn get(&self, key: u64) -> (r: Option<String>)
        requires
            self.wf(),
        ensures
            match self.lookup(key) {
                Some(text) => r is Some && r->0@ == text,
                None => r is None,
            },
    {
        let mut low: usize = 0;
        let mut high: usize = self.entries.len();
        while low < high
            invariant
                low <= high <= self.entries@.len(),
                self.wf(),
                forall|i: int| 0 <= i < low ==> self.entries@[i].key < key,
                forall|i: int| high <= i < self.entries@.len() ==> self.entries@[i].key >= key,
            decreases high - low,
        {
            let mid = low + (high - low) / 2;
            if self.entries[mid].key < key {
                low = mid + 1;
            } else {
                high = mid;
            }
        }
        proof {
            lemma_first_with_key_skips(self.entries@, key, 0, low as int);
            if low < self.entries@.len() && self.entries@[low as int].key != key {
                lemma_first_with_key_skips(self.entries@, key, low as int, self.entries@.len() as int);
            }
        }
        if low < self.entries.len() && self.entries[low].key == key {
            Some(self.entries[low].move_.clone())
        } else {
            None
        }
    }
}

impl ChessState {
    /// The legal move that the book holds for the position: the first legal move
    /// that the book's move writes. `None` if the book holds none for the
    /// position. A book whose move for the position is not legal in it is not a
    /// book for this game: such a book is left out.
    pub fn find_book_move(&mut self, book: &Book) -> (r: Option<Move>)
        requires
            old(self)@.wf(),
            book.wf(),
            book.lookup(old(self).hash) is Some ==> first_written(
                old(self)@.legal_moves(),
                book.lookup(old(self).hash)->0,
                0,
            ) is Some,
        ensures
            final(self)@ == old(self)@,
            r is Some <==> book.lookup(old(self).hash) is Some,
            r == match book.lookup(old(self).hash) {
                Some(text) => first_written(old(self)@.legal_moves(), text, 0),
                None => None,
            },
            r is Some ==> old(self)@.legal(r->0) && move_text(r->0) == book.lookup(
                old(self).hash,
            )->0,
    {
        match book.get(self.hash) {
            Some(book_move) => {
                proof {
                    lemma_first_written(self@.legal_moves(), book_move@, 0);
                    assert forall|m: Move| self@.legal_moves().contains(m) implies self@.legal(m) by {
                        self@.lemma_legal_moves_exact(m);
                    }
                }
                self.get_move(book_move.as_str())
            },
            None => None,
        }
    }
}

} // verus!
