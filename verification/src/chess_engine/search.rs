use super::gen_moves::Move;
use super::make_move::{board_after, victim_square};
use super::sort::{comes_before, holds_place, orders_all, sort_order};
use super::static_eval::MAX_STATIC_EVAL;
use super::transposition_table::{
    lookup, stored, TranspositionEntry, TranspositionEntryType, TranspositionTable,
};
use super::{ChessState, ChessStateView, Piece, PieceColor};
use std::time::{Duration, Instant};
use vstd::prelude::*;

verus! {

/// The score of a side that is mated, negated; no score is beyond it.
pub const CHECKMATE_EVAL: i32 = 1000000;

/// The deepest search that `ChessState::eval` makes.
pub const MAX_DEPTH: u32 = 200;

/// How far below the stand-pat score the bound may lie before a quiescence node
/// is given up: the value of a queen.
pub const DELTA: i32 = 900;

/// How many of the squares below `n` hold a piece.
pub open spec fn piece_count(pieces: Seq<Option<Piece>>, n: int) -> int
    decreases n,
{
    if n <= 0 {
        0
    } else {
        piece_count(pieces, n - 1) + if pieces[n - 1] is Some {
            1int
        } else {
            0int
        }
    }
}

/// 1 for a piece, 0 for an empty square.
pub open spec fn occupied(cell: Option<Piece>) -> int {
    if cell is Some {
        1
    } else {
        0
    }
}

/// There are no more pieces than squares.
pub proof fn lemma_piece_count_bounds(pieces: Seq<Option<Piece>>, n: int)
    requires
        0 <= n,
    ensures
        0 <= piece_count(pieces, n) <= n,
    decreases n,
{
    if n > 0 {
        lemma_piece_count_bounds(pieces, n - 1);
    }
}

/// Putting `cell` on square `i` changes the number of pieces by what it adds
/// less what stood there.
pub proof fn lemma_piece_count_update(
    pieces: Seq<Option<Piece>>,
    i: int,
    cell: Option<Piece>,
    n: int,
)
    requires
        0 <= i < pieces.len(),
        0 <= n <= pieces.len(),
    ensures
        piece_count(pieces.update(i, cell), n) == if n <= i {
            piece_count(pieces, n)
        } else {
            piece_count(pieces, n) - occupied(pieces[i]) + occupied(cell)
        },
    decreases n,
{
    if n > 0 {
        lemma_piece_count_update(pieces, i, cell, n - 1);
    }
}

/// A capture leaves one piece fewer on the board.
pub proof fn lemma_capture_takes_piece(s: ChessStateView, m: Move)
    requires
        s.pieces.len() == 64,
        s.applicable(m),
        m.capture is Some,
    ensures
        piece_count(board_after(s.pieces, s.turn, m), 64) == piece_count(s.pieces, 64) - 1,
{
    let p = s.pieces;
    let turn = s.turn;
    let from = m.from as int;
    let to = m.to as int;
    let p1 = p.update(to, p[from]);
    let p2 = p1.update(from, None);
    lemma_piece_count_update(p, to, p[from], 64);
    lemma_piece_count_update(p1, from, None, 64);
    if m.en_passant {
        lemma_piece_count_update(p2, victim_square(turn, m.to), None, 64);
    } else {
        match m.promote_to {
            Some(t) => {
                lemma_piece_count_update(p2, to, Some(Piece { c: turn, t }), 64);
            },
            None => {},
        }
    }
}

/// Whether the scores of `pairs` do not fall from one place to the next.
pub open spec fn ascending(pairs: Seq<(i32, Move)>) -> bool {
    forall|i: int, j: int| 0 <= i <= j < pairs.len() ==> pairs[i].0 <= pairs[j].0
}

/// The scores of the pairs as keys to order them by.
pub open spec fn score_keys(pairs: Seq<(i32, Move)>) -> Seq<i128> {
    Seq::new(pairs.len(), |k: int| pairs[k].0 as i128)
}

/// Whether `sorted` holds the pairs of `pairs` in the order of their scores, the
/// least first, pairs of one score in the order in which they stand in `pairs`.
pub open spec fn sorts(sorted: Seq<(i32, Move)>, pairs: Seq<(i32, Move)>) -> bool {
    exists|order: Seq<usize>| #[trigger]
        orders_all(score_keys(pairs), order) && sorted.len() == pairs.len() && forall|k: int|
            0 <= k < sorted.len() ==> #[trigger] sorted[k] == pairs[order[k] as int]
}

/// Orders the moves by their scores, the least first: the same pairs, and pairs
/// of one score in the order in which they stood.
pub fn sort_by_score(pairs: Vec<(i32, Move)>) -> (sorted: Vec<(i32, Move)>)
    ensures
        sorts(sorted@, pairs@),
        ascending(sorted@),
        sorted@.len() == pairs@.len(),
        forall|i: int| 0 <= i < sorted@.len() ==> pairs@.contains(#[trigger] sorted@[i]),
        forall|j: int| 0 <= j < pairs@.len() ==> sorted@.contains(#[trigger] pairs@[j]),
{
    let mut keys: Vec<i128> = Vec::new();
    let mut k: usize = 0;
    while k < pairs.len()
        invariant
            k <= pairs@.len(),
            keys@.len() == k,
            forall|i: int| 0 <= i < k ==> #[trigger] keys@[i] == pairs@[i].0 as i128,
        decreases pairs@.len() - k,
    {
        keys.push(pairs[k].0 as i128);
        k += 1;
    }
    assert(keys@ =~= score_keys(pairs@));
    let order = sort_order(&keys);
    let mut sorted: Vec<(i32, Move)> = Vec::new();
    let mut k: usize = 0;
    while k < order.len()
        invariant
            k <= order@.len(),
            orders_all(keys@, order@),
            keys@ == score_keys(pairs@),
            sorted@.len() == k,
            forall|i: int| 0 <= i < k ==> #[trigger] sorted@[i] == pairs@[order@[i] as int],
        decreases order@.len() - k,
    {
        sorted.push(pairs[order[k]]);
        k += 1;
    }
    proof {
        assert forall|i: int, j: int| 0 <= i <= j < sorted@.len() implies sorted@[i].0
            <= sorted@[j].0 by {
            if i < j {
                assert(comes_before(keys@, order@[i] as int, order@[j] as int));
            }
        }
        assert forall|i: int| 0 <= i < sorted@.len() implies pairs@.contains(
            #[trigger] sorted@[i],
        ) by {
            assert(pairs@[order@[i] as int] == sorted@[i]);
        }
        assert forall|j: int| 0 <= j < pairs@.len() implies sorted@.contains(
            #[trigger] pairs@[j],
        ) by {
            assert(holds_place(order@, j));
            let k = choose|k: int| 0 <= k < order@.len() && #[trigger] order@[k] == j;
            assert(sorted@[k] == pairs@[j]);
        }
    }
    sorted
}

/// The type of a node of the search tree: it decides with which window the
/// moves below it are searched, and whether only captures are.
#[derive(Clone, Copy, PartialEq, Eq, Structural, Debug)]
pub enum NodeType {
    Root,
    PV,
    Cut,
    Quiesce,
}

/// `std::time::Instant`, a time on the monotonic clock: nothing is known of its
/// inside.
#[verifier::external_type_specification]
#[verifier::external_body]
pub struct ExInstant(Instant);

/// `Instant::now()`: the time on the monotonic clock. Nothing is claimed of it.
#[verifier::external_body]
fn now() -> (t: Instant) {
    Instant::now()
}

/// `Instant::elapsed`: how long ago `start` was on the monotonic clock. Nothing
/// is claimed of it.
#[verifier::external_body]
fn elapsed(start: &Instant) -> (d: Duration) {
    start.elapsed()
}

/// `Duration::as_nanos`: a span of time as a number of nanoseconds. Nothing is
/// claimed of it.
#[verifier::external_body]
fn nanos_of(d: &Duration) -> (n: u128) {
    d.as_nanos()
}

/// Whether every score stored in the table lies between the two mate scores.
pub open spec fn scores_bounded(entries: Seq<Option<TranspositionEntry>>) -> bool {
    forall|i: int|
        0 <= i < entries.len() && (#[trigger] entries[i]) is Some ==> -CHECKMATE_EVAL
            <= entries[i]->0.score <= CHECKMATE_EVAL
}

/// What a look into the table says to a node: the score to return at once, if
/// there is one, the window to search with, and the move to try first.
pub struct Probe {
    pub cutoff: Option<i32>,
    pub alpha: i32,
    pub beta: i32,
    pub best_move: Option<Move>,
}

/// What the entry found for a position says to a node that searches `depth_left`
/// deep with the window from `alpha` to `beta`. An entry searched at least as
/// deep is used: an exact score is returned, a lower bound raises `alpha`, an
/// upper bound lowers `beta`, and if the window is empty then, the entry's score
/// is returned. The entry's move is always tried first.
pub open spec fn spec_probe(
    entry: Option<TranspositionEntry>,
    depth_left: i32,
    alpha: i32,
    beta: i32,
) -> Probe {
    match entry {
        None => Probe { cutoff: None, alpha, beta, best_move: None },
        Some(e) => {
            if e.depth >= depth_left {
                let raised = if e.entry_type == TranspositionEntryType::LowerBound && e.score
                    > alpha {
                    e.score
                } else {
                    alpha
                };
                let lowered = if e.entry_type == TranspositionEntryType::UpperBound && e.score
                    < beta {
                    e.score
                } else {
                    beta
                };
                Probe {
                    cutoff: if e.entry_type == TranspositionEntryType::Exact || raised >= lowered {
                        Some(e.score)
                    } else {
                        None
                    },
                    alpha: raised,
                    beta: lowered,
                    best_move: e.best_move,
                }
            } else {
                Probe { cutoff: None, alpha, beta, best_move: e.best_move }
            }
        },
    }
}

/// What the entry found for a position says to a node: `spec_probe`.
pub fn probe(entry: Option<TranspositionEntry>, depth_left: i32, alpha: i32, beta: i32) -> (p: Probe)
    ensures
        p == spec_probe(entry, depth_left, alpha, beta),
{
    match entry {
        None => Probe { cutoff: None, alpha, beta, best_move: None },
        Some(e) => {
            let mut alpha = alpha;
            let mut beta = beta;
            let mut cutoff = None;
            if e.depth >= depth_left {
                match e.entry_type {
                    TranspositionEntryType::Exact => {
                        cutoff = Some(e.score);
                    },
                    TranspositionEntryType::LowerBound => {
                        if e.score > alpha {
                            alpha = e.score;
                        }
                    },
                    TranspositionEntryType::UpperBound => {
                        if e.score < beta {
                            beta = e.score;
                        }
                    },
                }
                if alpha >= beta {
                    cutoff = Some(e.score);
                }
            }
            Probe { cutoff, alpha, beta, best_move: e.best_move }
        },
    }
}

/// What the static score says to a quiescence node.
#[derive(Clone, Copy, PartialEq, Eq, Structural, Debug)]
pub enum StandPat {
    /// The node returns this score.
    Return(i32),
    /// The node searches on with this lower bound.
    Continue(i32),
}

/// What the static score `stand_pat` says to a quiescence node with the window
/// from `alpha` to `beta`: at or above `beta` it is returned; more than `DELTA`
/// below `alpha`, `alpha` is returned; else the search goes on with the greater
/// of `alpha` and `stand_pat` as lower bound.
pub open spec fn spec_stand_pat(stand_pat: i32, alpha: i32, beta: i32) -> StandPat {
    if stand_pat >= beta {
        StandPat::Return(stand_pat)
    } else if stand_pat + DELTA < alpha {
        StandPat::Return(alpha)
    } else if stand_pat > alpha {
        StandPat::Continue(stand_pat)
    } else {
        StandPat::Continue(alpha)
    }
}

/// What the static score says to a quiescence node: `spec_stand_pat`.
pub fn stand_pat_step(stand_pat: i32, alpha: i32, beta: i32) -> (r: StandPat)
    requires
        -MAX_STATIC_EVAL <= stand_pat <= MAX_STATIC_EVAL,
    ensures
        r == spec_stand_pat(stand_pat, alpha, beta),
{
    if stand_pat >= beta {
        StandPat::Return(stand_pat)
    } else if stand_pat + DELTA < alpha {
        // Delta pruning
        StandPat::Return(alpha)
    } else if stand_pat > alpha {
        StandPat::Continue(stand_pat)
    } else {
        StandPat::Continue(alpha)
    }
}

/// What sort of bound the score `alpha` of a node is, that started with the
/// lower bound `start_alpha` and ends with the upper bound `beta`: an upper
/// bound if no move raised it, a lower bound if a move reached `beta`, else
/// exact.
pub open spec fn spec_entry_type(alpha: i32, start_alpha: i32, beta: i32) -> TranspositionEntryType {
    if alpha <= start_alpha {
        TranspositionEntryType::UpperBound
    } else if alpha >= beta {
        TranspositionEntryType::LowerBound
    } else {
        TranspositionEntryType::Exact
    }
}

/// What sort of bound the score of a node is: `spec_entry_type`.
pub fn entry_type_of(alpha: i32, start_alpha: i32, beta: i32) -> (t: TranspositionEntryType)
    ensures
        t == spec_entry_type(alpha, start_alpha, beta),
{
    if alpha <= start_alpha {
        TranspositionEntryType::UpperBound
    } else if alpha >= beta {
        TranspositionEntryType::LowerBound
    } else {
        TranspositionEntryType::Exact
    }
}

/// The score of a side that has no legal move, `ply` plies below the root:
/// mated if it is in check, and the sooner the worse; else stalemate.
pub open spec fn spec_no_move_score(in_check: bool, ply: u32) -> int {
    if in_check {
        -CHECKMATE_EVAL + ply
    } else {
        0
    }
}

/// The score of a side that has no legal move: `spec_no_move_score`.
pub fn no_move_score(in_check: bool, ply: u32) -> (score: i32)
    requires
        ply <= CHECKMATE_EVAL,
    ensures
        score == spec_no_move_score(in_check, ply),
{
    if in_check {
        -CHECKMATE_EVAL + ply as i32
    } else {
        0
    }
}

/// A side that is mated sooner scores less, and so the side that mates sooner
/// scores more.
pub proof fn lemma_sooner_mate_scores_less(sooner: u32, later: u32)
    requires
        sooner < later <= CHECKMATE_EVAL,
    ensures
        spec_no_move_score(true, sooner) < spec_no_move_score(true, later) <= 0,
        -spec_no_move_score(true, sooner) > -spec_no_move_score(true, later),
{
}

/// The window with which a move is searched first, in a node with the window
/// from `alpha` to `beta`: the whole window, turned round, if the move is
/// searched as the principal variation (`pv`) or in quiescence; else the empty
/// window just above `alpha`, turned round.
pub open spec fn spec_child_window(full: bool, alpha: i32, beta: i32) -> (int, int) {
    if full {
        (-beta, -alpha)
    } else {
        (-alpha - 1, -alpha)
    }
}

/// The window with which a move is searched first: `spec_child_window`.
pub fn child_window(full: bool, alpha: i32, beta: i32) -> (w: (i32, i32))
    requires
        -CHECKMATE_EVAL <= alpha < beta <= CHECKMATE_EVAL,
    ensures
        w.0 == spec_child_window(full, alpha, beta).0,
        w.1 == spec_child_window(full, alpha, beta).1,
        -CHECKMATE_EVAL <= w.0 < w.1 <= CHECKMATE_EVAL,
{
    if full {
        (-beta, -alpha)
    } else {
        (-alpha - 1, -alpha)
    }
}

/// Whether a move searched with the empty window must be searched again with
/// the whole window: its score fell strictly between `alpha` and `beta`.
pub fn needs_research(score: i32, alpha: i32, beta: i32) -> (r: bool)
    ensures
        r == (alpha < score < beta),
{
    score > alpha && score < beta
}

/// How many plies a search can still go down: the pieces that can be captured,
/// in quiescence; above it, the depth that is left and then quiescence.
pub open spec fn plies_ahead(node_type: NodeType, depth_left: i32, pieces: Seq<Option<Piece>>) -> int {
    if node_type == NodeType::Quiesce {
        piece_count(pieces, 64)
    } else {
        depth_left + 65
    }
}

/// Whether a node searches captures only: it is a quiescence node, or a node
/// above quiescence with no depth left, which is the quiescence node of the same
/// position.
pub open spec fn in_quiescence(node_type: NodeType, depth_left: i32) -> bool {
    node_type == NodeType::Quiesce || depth_left == 0
}

/// The depth under which a node stores its score: the depth that is left, and -1
/// for a node above quiescence with no depth left.
pub open spec fn depth_searched(node_type: NodeType, depth_left: i32) -> i32 {
    if node_type != NodeType::Quiesce && depth_left == 0 {
        -1i32
    } else {
        depth_left
    }
}

/// What the table says to a node that does not return on its static score: the
/// probe of the entry for the position's hash, with the window from `alpha` to
/// `beta`, `alpha` raised to the static score in quiescence.
pub open spec fn node_probe(
    s: ChessStateView,
    entries: Seq<Option<TranspositionEntry>>,
    node_type: NodeType,
    alpha: i32,
    beta: i32,
    depth_left: i32,
) -> Probe {
    let raised = if in_quiescence(node_type, depth_left) {
        spec_stand_pat(s.static_eval() as i32, alpha, beta)->Continue_0
    } else {
        alpha
    };
    spec_probe(lookup(entries, s.hash), depth_searched(node_type, depth_left), raised, beta)
}

/// The score that a node returns before it tries a move, if it does: 0 for a
/// position that is drawn by the fifty-move rule or by repetition; what the
/// static score says in quiescence, by `spec_stand_pat`; the score of an entry
/// of the table that ends the search, by `spec_probe`.
pub open spec fn early_score(
    s: ChessStateView,
    entries: Seq<Option<TranspositionEntry>>,
    node_type: NodeType,
    alpha: i32,
    beta: i32,
    depth_left: i32,
) -> Option<int> {
    if s.halfmove_clock >= 50 || s.is_draw_by_repetition {
        Some(0)
    } else {
        let stand = spec_stand_pat(s.static_eval() as i32, alpha, beta);
        if in_quiescence(node_type, depth_left) && stand is Return {
            Some(stand->Return_0 as int)
        } else {
            match node_probe(s, entries, node_type, alpha, beta, depth_left).cutoff {
                Some(score) => Some(score as int),
                None => None,
            }
        }
    }
}

/// The entry that a node stores for the position with the hash `key`: its score,
/// what sort of bound the score is for a node that began with the lower bound
/// `start_alpha` and ends with the upper bound `upper`, the depth and the best
/// move.
pub open spec fn spec_entry(
    key: u64,
    score: i32,
    start_alpha: i32,
    upper: i32,
    depth: i32,
    best_move: Option<Move>,
) -> TranspositionEntry {
    TranspositionEntry {
        key,
        entry_type: spec_entry_type(score, start_alpha, upper),
        depth,
        score,
        best_move,
    }
}

/// The entry that a node stores: `spec_entry`.
pub fn entry_for(
    key: u64,
    score: i32,
    start_alpha: i32,
    upper: i32,
    depth: i32,
    best_move: Option<Move>,
) -> (entry: TranspositionEntry)
    ensures
        entry == spec_entry(key, score, start_alpha, upper, depth, best_move),
{
    TranspositionEntry {
        key,
        entry_type: entry_type_of(score, start_alpha, upper),
        depth,
        score,
        best_move,
    }
}

/// Where a node stands after a move has been searched: its lower bound, the best
/// move so far, and whether the search of the node is cut off.
pub struct Progress {
    pub lower: i32,
    pub best_move: Option<Move>,
    pub cutoff: bool,
}

/// Where a node with the bounds `lower` and `upper` and the best move
/// `best_move` stands after the move `m` has scored `score`: a score above the
/// lower bound becomes the lower bound and `m` the best move; the node is cut off
/// once the lower bound has reached the upper bound.
pub open spec fn spec_advance(
    score: i32,
    m: Move,
    lower: i32,
    upper: i32,
    best_move: Option<Move>,
) -> Progress {
    if score > lower {
        Progress { lower: score, best_move: Some(m), cutoff: score >= upper }
    } else {
        Progress { lower, best_move, cutoff: lower >= upper }
    }
}

/// Where a node stands after a move has been searched: `spec_advance`.
pub fn advance(score: i32, m: Move, lower: i32, upper: i32, best_move: Option<Move>) -> (p: Progress)
    ensures
        p == spec_advance(score, m, lower, upper, best_move),
{
    let mut lower = lower;
    let mut best_move = best_move;
    if score > lower {
        lower = score;
        best_move = Some(m);
    }
    Progress { lower, best_move, cutoff: lower >= upper }
}

/// The type of the node below a move: a quiescence node below a quiescence node;
/// above quiescence a node of the principal variation below the first move of
/// such a node (`pv`), else a cut node.
pub open spec fn spec_child_type(node_type: NodeType, pv: bool) -> NodeType {
    if node_type == NodeType::Quiesce {
        NodeType::Quiesce
    } else if pv {
        NodeType::PV
    } else {
        NodeType::Cut
    }
}

/// The type of the node below a move: `spec_child_type`.
pub fn child_type(node_type: NodeType, pv: bool) -> (t: NodeType)
    ensures
        t == spec_child_type(node_type, pv),
{
    if node_type == NodeType::Quiesce {
        NodeType::Quiesce
    } else if pv {
        NodeType::PV
    } else {
        NodeType::Cut
    }
}

/// Whether the table `after` holds what a node has stored that searched the
/// state `s` to the end and returns `score`; `before` is the table that the node
/// found. The entry for the position's hash has that hash for its key, the depth
/// of the node and `score`, which is no less than the lower bound that the node
/// began with after its probe. It says what sort of bound `score` is. Its move is
/// a legal move if a move has raised the lower bound, else the move that the
/// probe gave.
pub open spec fn node_stored(
    s: ChessStateView,
    before: Seq<Option<TranspositionEntry>>,
    after: Seq<Option<TranspositionEntry>>,
    node_type: NodeType,
    alpha: i32,
    beta: i32,
    depth_left: i32,
    score: i32,
) -> bool {
    let probed = node_probe(s, before, node_type, alpha, beta, depth_left);
    let found = lookup(after, s.hash);
    &&& found is Some
    &&& probed.alpha <= score
    &&& found->0 == spec_entry(
        s.hash,
        score,
        alpha,
        probed.beta,
        depth_searched(node_type, depth_left),
        found->0.best_move,
    )
    &&& if score > probed.alpha {
        found->0.best_move is Some && s.legal_moves().contains(found->0.best_move->0)
    } else {
        found->0.best_move == probed.best_move
    }
}

/// Whether `ordered` is an order in which a node may search the moves `moves`:
/// every move of `moves`, but in quiescence only the captures, stands in it
/// with a score, and nothing else; the scores do not fall; the move `first`
/// has the score `CHECKMATE_EVAL`, any other its `ordering_value` and a number
/// from -10 to 10.
pub open spec fn orders(
    ordered: Seq<(i32, Move)>,
    moves: Seq<Move>,
    captures_only: bool,
    first: Option<Move>,
) -> bool {
    &&& ascending(ordered)
    &&& forall|i: int|
        0 <= i < ordered.len() ==> {
            let p = #[trigger] ordered[i];
            &&& moves.contains(p.1)
            &&& captures_only ==> p.1.capture is Some
            &&& if first is Some && first->0.same_move(p.1) {
                p.0 == CHECKMATE_EVAL
            } else {
                -10 <= p.0 - p.1.ordering_value() <= 10
            }
        }
    &&& forall|j: int|
        0 <= j < moves.len() && (captures_only ==> (#[trigger] moves[j]).capture is Some)
            ==> exists|i: int| 0 <= i < ordered.len() && (#[trigger] ordered[i]).1 == moves[j]
}

/// Those of the first `n` moves that a node searches: all, but in quiescence
/// only the captures.
pub open spec fn kept_moves(moves: Seq<Move>, captures_only: bool, n: int) -> Seq<Move>
    decreases n,
{
    if n <= 0 {
        seq![]
    } else if !captures_only || moves[n - 1].capture is Some {
        kept_moves(moves, captures_only, n - 1).push(moves[n - 1])
    } else {
        kept_moves(moves, captures_only, n - 1)
    }
}

/// Whether `scored` gives each move that a node searches its score, the moves
/// in the order of `moves`: the move `first` has the score `CHECKMATE_EVAL`,
/// any other its `ordering_value` and a number from -10 to 10.
pub open spec fn scores(
    scored: Seq<(i32, Move)>,
    moves: Seq<Move>,
    captures_only: bool,
    first: Option<Move>,
) -> bool {
    let kept = kept_moves(moves, captures_only, moves.len() as int);
    &&& scored.len() == kept.len()
    &&& forall|k: int|
        0 <= k < scored.len() ==> {
            let p = #[trigger] scored[k];
            &&& p.1 == kept[k]
            &&& if first is Some && first->0.same_move(p.1) {
                p.0 == CHECKMATE_EVAL
            } else {
                -10 <= p.0 - p.1.ordering_value() <= 10
            }
        }
}

/// Gives each move its score and orders the moves by it, moves of one score in
/// the order of `moves`; in quiescence only the captures are kept.
pub fn order_moves(moves: &Vec<Move>, captures_only: bool, first: Option<Move>) -> (ordered: Vec<
    (i32, Move),
>)
    ensures
        orders(ordered@, moves@, captures_only, first),
        exists|scored: Seq<(i32, Move)>| #[trigger]
            scores(scored, moves@, captures_only, first) && sorts(ordered@, scored),
{
    let mut pairs: Vec<(i32, Move)> = Vec::new();
    let mut j: usize = 0;
    while j < moves.len()
        invariant
            j <= moves@.len(),
            pairs@.len() == kept_moves(moves@, captures_only, j as int).len(),
            forall|i: int|
                0 <= i < pairs@.len() ==> {
                    let p = #[trigger] pairs@[i];
                    &&& p.1 == kept_moves(moves@, captures_only, j as int)[i]
                    &&& moves@.contains(p.1)
                    &&& captures_only ==> p.1.capture is Some
                    &&& if first is Some && first->0.same_move(p.1) {
                        p.0 == CHECKMATE_EVAL
                    } else {
                        -10 <= p.0 - p.1.ordering_value() <= 10
                    }
                },
            forall|k: int|
                0 <= k < j && (captures_only ==> (#[trigger] moves@[k]).capture is Some)
                    ==> exists|i: int| 0 <= i < pairs@.len() && (#[trigger] pairs@[i]).1 == moves@[k],
        decreases moves@.len() - j,
    {
        let m = moves[j];
        let ghost before = pairs@;
        if !captures_only || m.capture.is_some() {
            let is_first = match first {
                Some(b) => b == m,
                None => false,
            };
            let score = if is_first {
                CHECKMATE_EVAL
            } else {
                m.static_eval()
            };
            pairs.push((score, m));
            assert(pairs@[pairs@.len() - 1].1 == moves@[j as int]);
        }
        assert forall|k: int|
            0 <= k < j + 1 && (captures_only ==> (#[trigger] moves@[k]).capture is Some) implies exists|
            i: int,
        | 0 <= i < pairs@.len() && (#[trigger] pairs@[i]).1 == moves@[k] by {
            if k < j {
                let i = choose|i: int| 0 <= i < before.len() && (#[trigger] before[i]).1 == moves@[k];
                assert(pairs@[i].1 == moves@[k]);
            } else {
                assert(pairs@[pairs@.len() - 1].1 == moves@[k]);
            }
        }
        j += 1;
    }
    let ghost scored = pairs@;
    let ordered = sort_by_score(pairs);
    assert(scores(scored, moves@, captures_only, first));
    assert forall|j: int|
        0 <= j < moves@.len() && (captures_only ==> (#[trigger] moves@[j]).capture is Some) implies exists|
        i: int,
    | 0 <= i < ordered@.len() && (#[trigger] ordered@[i]).1 == moves@[j] by {
        let k = choose|k: int| 0 <= k < scored.len() && (#[trigger] scored[k]).1 == moves@[j];
        assert(ordered@.contains(scored[k]));
        let i = choose|i: int| 0 <= i < ordered@.len() && ordered@[i] == scored[k];
        assert(ordered@[i].1 == moves@[j]);
    }
    assert forall|i: int| 0 <= i < ordered@.len() implies {
        let p = #[trigger] ordered@[i];
        &&& moves@.contains(p.1)
        &&& captures_only ==> p.1.capture is Some
        &&& if first is Some && first->0.same_move(p.1) {
            p.0 == CHECKMATE_EVAL
        } else {
            -10 <= p.0 - p.1.ordering_value() <= 10
        }
    } by {
        assert(scored.contains(ordered@[i]));
        let k = choose|k: int| 0 <= k < scored.len() && scored[k] == ordered@[i];
        assert(scored[k] == ordered@[i]);
    }
    ordered
}

/// The line that the table holds for a state, `depth` moves at most: the move
/// stored for the state's hash, then the line for the state after that move. It
/// ends where no entry or no move is stored, or where the move stored cannot be
/// played in the state.
pub open spec fn best_line_of(
    s: ChessStateView,
    entries: Seq<Option<TranspositionEntry>>,
    depth: nat,
) -> Seq<Move>
    decreases depth,
{
    if depth == 0 {
        seq![]
    } else {
        match lookup(entries, s.hash) {
            Some(e) => match e.best_move {
                Some(m) => if s.applicable(m) {
                    seq![m] + best_line_of(s.make(m), entries, (depth - 1) as nat)
                } else {
                    seq![]
                },
                None => seq![],
            },
            None => seq![],
        }
    }
}

/// The nanoseconds of the longest search: those of a year.
pub const MAX_SEARCH_NANOS: u128 = 31_536_000_000_000_000;

/// A search with its deadline: when it began, and how many nanoseconds it may
/// last.
pub struct Search {
    pub start: Instant,
    pub max_nanos: u128,
}

impl Search {
    /// How long a search may last that is given `max_nanos` nanoseconds: as long
    /// as it is given, and a year if it is given nothing.
    pub open spec fn limit_of(max_nanos: Option<u128>) -> u128 {
        match max_nanos {
            Some(n) => n,
            None => MAX_SEARCH_NANOS,
        }
    }

    /// A search that begins now and may last `max_nanos` nanoseconds, or a year
    /// if no time is given.
    pub fn lasting(max_nanos: Option<u128>) -> (search: Search)
        ensures
            search.max_nanos == Self::limit_of(max_nanos),
    {
        Search {
            start: now(),
            max_nanos: match max_nanos {
                Some(n) => n,
                None => MAX_SEARCH_NANOS,
            },
        }
    }

    /// Whether a search that began `elapsed` nanoseconds ago has reached its
    /// deadline: it has lasted as long as it may.
    pub fn is_over(&self, elapsed: u128) -> (r: bool)
        ensures
            r == (elapsed >= self.max_nanos),
    {
        elapsed >= self.max_nanos
    }

    /// Appends to `line` the line that the table holds for the state.
    fn extend_line(
        &self,
        state: &mut ChessState,
        table: &TranspositionTable,
        depth: u32,
        line: &mut Vec<Move>,
    )
        requires
            old(state)@.wf(),
            table.wf(),
        ensures
            final(state)@ == old(state)@,
            final(line)@ == old(line)@ + best_line_of(old(state)@, table.entries@, depth as nat),
        decreases depth,
    {
        if depth > 0 {
            if let Some(t) = table.get(state.hash) {
                if let Some(m) = t.best_move {
                    if state.accepts(&m) {
                        proof {
                            state@.lemma_unmake_make(m);
                        }
                        line.push(m);
                        state.make_move(&m);
                        self.extend_line(state, table, depth - 1, line);
                        state.unmake_last_move();
                        assert(line@ =~= old(line)@ + best_line_of(
                            old(state)@,
                            table.entries@,
                            depth as nat,
                        ));
                        return ;
                    }
                }
            }
        }
        assert(line@ =~= old(line)@ + best_line_of(old(state)@, table.entries@, depth as nat));
    }

    /// The line that the table holds for the state, `depth` moves at most.
    pub fn best_line(&self, state: &mut ChessState, table: &TranspositionTable, depth: u32) -> (moves:
        Vec<Move>)
        requires
            old(state)@.wf(),
            table.wf(),
        ensures
            final(state)@ == old(state)@,
            moves@ == best_line_of(old(state)@, table.entries@, depth as nat),
    {
        let mut moves = Vec::new();
        self.extend_line(state, table, depth, &mut moves);
        assert(moves@ =~= best_line_of(old(state)@, table.entries@, depth as nat));
        moves
    }

    /// Whether the deadline is reached: the clock is read, and the search is over
    /// by `is_over` if it began as long ago as it may last. A search that may last
    /// no time is over whatever the clock says.
    pub fn out_of_time(&self) -> (r: bool)
        ensures
            self.max_nanos == 0 ==> r,
    {
        let since = elapsed(&self.start);
        self.is_over(nanos_of(&since))
    }

    /// Plays `m`, searches the position below it and takes `m` back. `None` if
    /// `m` leaves the mover's own king attacked; else the score of `m` for the
    /// mover. The position is searched with the whole window, as a node of the
    /// principal variation, if the node is one and `m` is its first move (`pv`),
    /// and in quiescence; else with the empty window above `alpha`, and once more
    /// with the whole window if its score falls strictly between `alpha` and
    /// `beta`. Where the node below returns before it tries a move, the score is
    /// its `early_score`, negated, and the table is left as it was.
    pub fn try_move(
        &self,
        node_type: NodeType,
        state: &mut ChessState,
        table: &mut TranspositionTable,
        m: &Move,
        pv: bool,
        alpha: i32,
        beta: i32,
        depth_left: i32,
        ply: u32,
    ) -> (score: Option<i32>)
        requires
            old(state)@.wf(),
            old(state)@.applicable(*m),
            old(table).wf(),
            scores_bounded(old(table).entries@),
            -CHECKMATE_EVAL <= alpha < beta <= CHECKMATE_EVAL,
            node_type != NodeType::Quiesce ==> 1 <= depth_left <= MAX_DEPTH,
            node_type == NodeType::Quiesce ==> m.capture is Some && piece_count(
                old(state)@.pieces,
                64,
            ) - 66 <= depth_left <= 0,
            ply + plies_ahead(node_type, depth_left, old(state)@.pieces) <= CHECKMATE_EVAL,
        ensures
            final(state)@ == old(state)@,
            final(table).wf(),
            final(table).entries@.len() == old(table).entries@.len(),
            scores_bounded(final(table).entries@),
            score is None <==> !old(state)@.leaves_king_safe(*m),
            score is None ==> final(table).entries@ == old(table).entries@,
            score is Some ==> -CHECKMATE_EVAL <= score->0 <= CHECKMATE_EVAL,
            ({
                let full = node_type == NodeType::Quiesce || pv;
                let first = early_score(
                    old(state)@.make(*m),
                    old(table).entries@,
                    spec_child_type(node_type, pv),
                    spec_child_window(full, alpha, beta).0 as i32,
                    spec_child_window(full, alpha, beta).1 as i32,
                    (depth_left - 1) as i32,
                );
                let again = early_score(
                    old(state)@.make(*m),
                    old(table).entries@,
                    NodeType::PV,
                    (-beta) as i32,
                    (-alpha) as i32,
                    (depth_left - 1) as i32,
                );
                score is Some && first is Some ==> if full || !(alpha < -first->0 < beta) {
                    score->0 == -first->0 && final(table).entries@ == old(table).entries@
                } else {
                    again is Some ==> score->0 == -again->0 && final(table).entries@ == old(
                        table,
                    ).entries@
                }
            }),
        decreases plies_ahead(node_type, depth_left, old(state)@.pieces), 0int,
    {
        let quiesce = node_type == NodeType::Quiesce;
        let mover = state.turn;
        proof {
            lemma_piece_count_bounds(state@.pieces, 64);
            state@.lemma_unmake_make(*m);
            if quiesce {
                lemma_capture_takes_piece(state@, *m);
            }
        }
        state.make_move(m);
        if state.check.get(mover) {
            state.unmake_last_move();
            return None;
        }
        let full = quiesce || pv;
        let below = child_type(node_type, pv);
        let window = child_window(full, alpha, beta);
        proof {
            lemma_piece_count_bounds(state@.pieces, 64);
            assert(state@.pieces == board_after(old(state)@.pieces, old(state)@.turn, *m));
        }
        let mut score = -self.search(below, state, table, window.0, window.1, depth_left - 1, ply + 1);
        if !full && needs_research(score, alpha, beta) {
            let window = child_window(true, alpha, beta);
            score =
            -self.search(NodeType::PV, state, table, window.0, window.1, depth_left - 1, ply + 1);
        }
        state.unmake_last_move();
        Some(score)
    }

    /// The score of the position for the side to move, from a search of
    /// `depth_left` plies and of the captures below them, with the window from
    /// `alpha` to `beta`.
    ///
    /// Where the node returns before it tries a move, the score is `early_score`
    /// and the table is left as it was. A node with depth left and without a
    /// move to try returns the score of mate or stalemate and leaves the table as
    /// it was. A quiescence node without a capture to try returns the lower bound
    /// that its probe left and stores it. Any other node returns 0 if the
    /// deadline has come, as it has at once for a search that may last no time;
    /// the score of mate or stalemate if it has depth left and no move was legal;
    /// or else a score that it has stored as `node_stored` says. Whatever the clock and the table say, the state is left as it was
    /// found, every move played having been taken back, and the score lies
    /// between the two mate scores.
    pub fn search(
        &self,
        node_type: NodeType,
        state: &mut ChessState,
        table: &mut TranspositionTable,
        alpha: i32,
        beta: i32,
        depth_left: i32,
        ply: u32,
    ) -> (score: i32)
        requires
            old(state)@.wf(),
            old(table).wf(),
            scores_bounded(old(table).entries@),
            -CHECKMATE_EVAL <= alpha < beta <= CHECKMATE_EVAL,
            node_type != NodeType::Quiesce ==> 0 <= depth_left <= MAX_DEPTH,
            node_type == NodeType::Quiesce ==> piece_count(old(state)@.pieces, 64) - 66 <= depth_left
                <= 0,
            ply + plies_ahead(node_type, depth_left, old(state)@.pieces) <= CHECKMATE_EVAL,
        ensures
            final(state)@ == old(state)@,
            final(table).wf(),
            final(table).entries@.len() == old(table).entries@.len(),
            scores_bounded(final(table).entries@),
            -CHECKMATE_EVAL <= score <= CHECKMATE_EVAL,
            early_score(old(state)@, old(table).entries@, node_type, alpha, beta, depth_left)
                is Some ==> score == early_score(
                old(state)@,
                old(table).entries@,
                node_type,
                alpha,
                beta,
                depth_left,
            )->0 && final(table).entries@ == old(table).entries@,
            early_score(old(state)@, old(table).entries@, node_type, alpha, beta, depth_left)
                is None && !in_quiescence(node_type, depth_left) && old(
                state,
            )@.pseudo_legal_moves().len() == 0 ==> score == spec_no_move_score(
                old(state)@.check.at(old(state)@.turn),
                ply,
            ) && final(table).entries@ == old(table).entries@,
            early_score(old(state)@, old(table).entries@, node_type, alpha, beta, depth_left)
                is None && !in_quiescence(node_type, depth_left) && old(state)@.legal_moves().len()
                == 0 ==> (score == 0 || score == spec_no_move_score(
                old(state)@.check.at(old(state)@.turn),
                ply,
            )) && final(table).entries@ == old(table).entries@,
            early_score(old(state)@, old(table).entries@, node_type, alpha, beta, depth_left)
                is None && in_quiescence(node_type, depth_left) && kept_moves(
                old(state)@.pseudo_legal_moves(),
                true,
                old(state)@.pseudo_legal_moves().len() as int,
            ).len() == 0 ==> {
                let probed = node_probe(
                    old(state)@,
                    old(table).entries@,
                    node_type,
                    alpha,
                    beta,
                    depth_left,
                );
                &&& score == probed.alpha
                &&& final(table).entries@ == stored(
                    old(table).entries@,
                    old(state)@.hash,
                    spec_entry(
                        old(state)@.hash,
                        probed.alpha,
                        alpha,
                        probed.beta,
                        depth_searched(node_type, depth_left),
                        probed.best_move,
                    ),
                )
            },
            early_score(old(state)@, old(table).entries@, node_type, alpha, beta, depth_left)
                is None && self.max_nanos == 0 && kept_moves(
                old(state)@.pseudo_legal_moves(),
                in_quiescence(node_type, depth_left),
                old(state)@.pseudo_legal_moves().len() as int,
            ).len() > 0 ==> score == 0 && final(table).entries@ == old(table).entries@,
            early_score(old(state)@, old(table).entries@, node_type, alpha, beta, depth_left)
                is None ==> {
                ||| score == 0
                ||| !in_quiescence(node_type, depth_left) && old(state)@.legal_moves().len() == 0
                    && score == spec_no_move_score(old(state)@.check.at(old(state)@.turn), ply)
                ||| node_stored(
                    old(state)@,
                    old(table).entries@,
                    final(table).entries@,
                    node_type,
                    alpha,
                    beta,
                    depth_left,
                    score,
                )
            },
        decreases plies_ahead(node_type, depth_left, old(state)@.pieces), 1int,
    {
        proof {
            lemma_piece_count_bounds(state@.pieces, 64);
        }
        if state.halfmove_clock >= 50 || state.is_draw_by_repetition {
            return 0;
        }
        let quiesce = node_type == NodeType::Quiesce;
        if !quiesce && depth_left == 0 {
            return self.search(NodeType::Quiesce, state, table, alpha, beta, depth_left - 1, ply + 1);
        }
        let mut lower = alpha;

        if quiesce {
            match stand_pat_step(state.static_eval(), alpha, beta) {
                StandPat::Return(score) => {
                    return score;
                },
                StandPat::Continue(raised) => {
                    lower = raised;
                },
            }
        }
        let found = table.get(state.hash);
        let probed = probe(found, depth_left, lower, beta);
        if let Some(score) = probed.cutoff {
            return score;
        }
        lower = probed.alpha;
        let upper = probed.beta;
        let mut best_move = probed.best_move;

        let moves = state.gen_pseudo_legal_moves();
        let ordered = order_moves(&moves, quiesce, best_move);
        proof {
            state@.lemma_pseudo_legal_moves();
            assert(probed == node_probe(
                old(state)@,
                old(table).entries@,
                node_type,
                alpha,
                beta,
                depth_left,
            ));
            let scored = choose|scored: Seq<(i32, Move)>| #[trigger]
                scores(scored, moves@, quiesce, best_move) && sorts(ordered@, scored);
            assert(ordered@.len() == scored.len());
            assert(scored.len() == kept_moves(moves@, quiesce, moves@.len() as int).len());
            if !quiesce {
                lemma_all_kept(moves@, moves@.len() as int);
            }
        }

        let mut had_legal_move = false;
        let mut pv = node_type == NodeType::PV || node_type == NodeType::Root;
        let mut i = ordered.len();
        while i > 0
            invariant_except_break
                lower < upper,
            invariant
                early_score(old(state)@, old(table).entries@, node_type, alpha, beta, depth_left)
                    is None,
                probed == node_probe(
                    old(state)@,
                    old(table).entries@,
                    node_type,
                    alpha,
                    beta,
                    depth_left,
                ),
                upper == probed.beta,
                probed.alpha <= lower,
                lower == probed.alpha ==> best_move == probed.best_move,
                lower > probed.alpha ==> best_move is Some && state@.legal_moves().contains(
                    best_move->0,
                ),
                had_legal_move ==> state@.legal_moves().len() > 0,
                had_legal_move ==> ordered@.len() > 0,
                !had_legal_move ==> table.entries@ == old(table).entries@,
                !had_legal_move ==> lower == probed.alpha,
                !had_legal_move ==> forall|j: int|
                    i <= j < ordered@.len() ==> !state@.leaves_king_safe((#[trigger] ordered@[j]).1),
                moves@ == old(state)@.pseudo_legal_moves(),
                self.max_nanos == 0 ==> i == ordered@.len() && !had_legal_move,
                ordered@.len() == 0 <==> kept_moves(moves@, quiesce, moves@.len() as int).len() == 0,
                ordered@.len() > 0 ==> kept_moves(moves@, quiesce, moves@.len() as int).len() > 0,
                !quiesce ==> kept_moves(moves@, quiesce, moves@.len() as int).len() == moves@.len(),
                i <= ordered@.len(),
                state@ == old(state)@,
                state@.wf(),
                quiesce == (node_type == NodeType::Quiesce),
                !in_quiescence(node_type, depth_left) == !quiesce,
                table.wf(),
                table.entries@.len() == old(table).entries@.len(),
                scores_bounded(table.entries@),
                -CHECKMATE_EVAL <= lower <= CHECKMATE_EVAL,
                upper <= CHECKMATE_EVAL,
                state@.all_pseudo_legal(moves@),
                orders(ordered@, moves@, quiesce, probed.best_move),
                !quiesce ==> 1 <= depth_left <= MAX_DEPTH,
                quiesce ==> piece_count(state@.pieces, 64) - 66 <= depth_left <= 0,
                ply + plies_ahead(node_type, depth_left, state@.pieces) <= CHECKMATE_EVAL,
            ensures
                early_score(old(state)@, old(table).entries@, node_type, alpha, beta, depth_left)
                    is None,
                probed == node_probe(
                    old(state)@,
                    old(table).entries@,
                    node_type,
                    alpha,
                    beta,
                    depth_left,
                ),
                upper == probed.beta,
                probed.alpha <= lower,
                lower == probed.alpha ==> best_move == probed.best_move,
                lower > probed.alpha ==> best_move is Some && state@.legal_moves().contains(
                    best_move->0,
                ),
                had_legal_move ==> state@.legal_moves().len() > 0,
                had_legal_move ==> ordered@.len() > 0,
                !had_legal_move ==> table.entries@ == old(table).entries@,
                !had_legal_move ==> lower == probed.alpha,
                !had_legal_move ==> forall|j: int|
                    0 <= j < ordered@.len() ==> !state@.leaves_king_safe((#[trigger] ordered@[j]).1),
                self.max_nanos == 0 ==> ordered@.len() == 0,
                state@ == old(state)@,
                table.wf(),
                table.entries@.len() == old(table).entries@.len(),
                scores_bounded(table.entries@),
                -CHECKMATE_EVAL <= lower <= CHECKMATE_EVAL,
            decreases i,
        {
            i -= 1;
            let m = ordered[i].1;
            if self.out_of_time() {
                return 0;
            }
            proof {
                let p = ordered@[i as int];
                assert(moves@.contains(p.1));
                let k = choose|k: int| 0 <= k < moves@.len() && moves@[k] == m;
                assert(state@.pseudo_legal(moves@[k]));
            }
            let score = match self.try_move(node_type, state, table, &m, pv, lower, upper, depth_left, ply) {
                Some(score) => score,
                None => {
                    // Skip illegal moves
                    continue ;
                },
            };
            had_legal_move = true;
            pv = false;
            proof {
                state@.lemma_legal_moves_exact(m);
            }

            let progress = advance(score, m, lower, upper, best_move);
            lower = progress.lower;
            best_move = progress.best_move;
            if progress.cutoff {
                break ;
            }
        }

        if !quiesce && !had_legal_move {
            // Without a legal move the side to move is mated or stalemated
            proof {
                assert forall|j: int| 0 <= j < moves@.len() implies !state@.leaves_king_safe(
                    #[trigger] moves@[j],
                ) by {
                    let k = choose|k: int| 0 <= k < ordered@.len() && (#[trigger] ordered@[k]).1 == moves@[j];
                    assert(!state@.leaves_king_safe(ordered@[k].1));
                }
                state@.lemma_none_legal(moves@, moves@.len() as int);
            }
            return no_move_score(state.check.get(state.turn), ply);
        }
        table.set(state.hash, entry_for(state.hash, lower, alpha, upper, depth_left, best_move));
        lower
    }
}

/// Above quiescence a node keeps every move.
pub proof fn lemma_all_kept(moves: Seq<Move>, n: int)
    requires
        0 <= n <= moves.len(),
    ensures
        kept_moves(moves, false, n).len() == n,
    decreases n,
{
    if n > 0 {
        lemma_all_kept(moves, n - 1);
    }
}

/// A score for the side `turn` as White sees it: the score for White, its
/// negative for Black.
pub open spec fn as_white_sees(turn: PieceColor, score: int) -> int {
    match turn {
        PieceColor::White => score,
        PieceColor::Black => -score,
    }
}

/// 1 for White, -1 for Black: what turns a score for the side into a score as
/// White sees it.
pub open spec fn spec_turn_mult(turn: PieceColor) -> int {
    match turn {
        PieceColor::White => 1,
        PieceColor::Black => -1,
    }
}

/// 1 for White, -1 for Black.
pub fn turn_mult(turn: PieceColor) -> (mult: i32)
    ensures
        mult == spec_turn_mult(turn),
{
    match turn {
        PieceColor::White => 1,
        PieceColor::Black => -1,
    }
}

/// The place of the last of the greatest scores among the first `n` moves.
pub open spec fn last_greatest(scored: Seq<(Move, i32)>, n: int) -> int
    decreases n,
{
    if n <= 1 {
        0
    } else if scored[n - 1].1 >= scored[last_greatest(scored, n - 1)].1 {
        n - 1
    } else {
        last_greatest(scored, n - 1)
    }
}

/// The last of the greatest scores stands among the scores, and none is greater.
pub proof fn lemma_last_greatest(scored: Seq<(Move, i32)>, n: int)
    requires
        1 <= n <= scored.len(),
    ensures
        0 <= last_greatest(scored, n) < n,
        forall|i: int| 0 <= i < n ==> (#[trigger] scored[i]).1 <= scored[last_greatest(scored, n)].1,
    decreases n,
{
    if n > 1 {
        lemma_last_greatest(scored, n - 1);
    }
}

/// The best move of the side `turn` and its score as White sees it, where
/// `scored` holds each legal move with its score for that side: the last of the
/// moves of greatest score. A side without a move is mated if it is in check,
/// and has no move and the score 0 if it is not.
pub open spec fn spec_best_of(turn: PieceColor, in_check: bool, scored: Seq<(Move, i32)>) -> (
    Option<Move>,
    int,
) {
    if scored.len() == 0 {
        (
            None,
            if in_check {
                as_white_sees(turn, -CHECKMATE_EVAL as int)
            } else {
                0
            },
        )
    } else {
        let best = scored[last_greatest(scored, scored.len() as int)];
        (Some(best.0), as_white_sees(turn, best.1 as int))
    }
}

/// The best move of the side `turn` and its score as White sees it:
/// `spec_best_of`.
pub fn best_of(turn: PieceColor, in_check: bool, scored: &Vec<(Move, i32)>) -> (r: (
    Option<Move>,
    i32,
))
    requires
        forall|i: int| 0 <= i < scored@.len() ==> (#[trigger] scored@[i]).1 > i32::MIN,
    ensures
        r.0 == spec_best_of(turn, in_check, scored@).0,
        r.1 == spec_best_of(turn, in_check, scored@).1,
        r.0 is Some <==> scored@.len() > 0,
        forall|i: int|
            0 <= i < scored@.len() ==> (#[trigger] scored@[i]).1 <= scored@[last_greatest(
                scored@,
                scored@.len() as int,
            )].1,
{
    proof {
        if scored@.len() > 0 {
            lemma_last_greatest(scored@, scored@.len() as int);
        }
    }
    if scored.len() == 0 {
        return (
            None,
            if in_check {
                match turn {
                    PieceColor::White => -CHECKMATE_EVAL,
                    PieceColor::Black => CHECKMATE_EVAL,
                }
            } else {
                0
            },
        );
    }
    let mut at: usize = 0;
    let mut i: usize = 1;
    while i < scored.len()
        invariant
            at < i <= scored@.len(),
            at == last_greatest(scored@, i as int),
        decreases scored@.len() - i,
    {
        if scored[i].1 >= scored[at].1 {
            at = i;
        }
        i += 1;
    }
    (
        Some(scored[at].0),
        match turn {
            PieceColor::White => scored[at].1,
            PieceColor::Black => -scored[at].1,
        },
    )
}

/// How deep `ChessState::eval` searches at most: `max_depth` plies, but no
/// more than `MAX_DEPTH`, and `MAX_DEPTH` if no depth is given.
pub open spec fn depth_limit(max_depth: Option<u32>) -> u32 {
    match max_depth {
        Some(d) => if d < MAX_DEPTH {
            d
        } else {
            MAX_DEPTH
        },
        None => MAX_DEPTH,
    }
}

/// Whether `score` is what a finished search of the root `s` to the depth
/// `depth` gives that finds the table `before` and leaves the table `after`:
/// the `early_score` of the root, the table left as it was, if it has one; else
/// the score of mate or stalemate if the side to move has no legal move, or a
/// score that the root has stored as `node_stored` says, or 0.
pub open spec fn root_searched(
    s: ChessStateView,
    before: Seq<Option<TranspositionEntry>>,
    after: Seq<Option<TranspositionEntry>>,
    depth: u32,
    score: i32,
) -> bool {
    let early = early_score(
        s,
        before,
        NodeType::Root,
        (-CHECKMATE_EVAL) as i32,
        CHECKMATE_EVAL,
        depth as i32,
    );
    if early is Some {
        score == early->0 && after == before
    } else {
        ||| score == 0
        ||| s.legal_moves().len() == 0 && score == spec_no_move_score(s.check.at(s.turn), 0)
        ||| node_stored(
            s,
            before,
            after,
            NodeType::Root,
            (-CHECKMATE_EVAL) as i32,
            CHECKMATE_EVAL,
            depth as i32,
            score,
        )
    }
}

/// Whether `score` and `line` are what one of the searches of `ChessState::eval`
/// gives: the score of a finished search of the root to a depth from 1 to
/// `limit`, and the line that the table holds for the root after that search.
pub open spec fn from_a_search(s: ChessStateView, limit: u32, score: i32, line: Seq<Move>) -> bool {
    exists|depth: u32, before: Seq<Option<TranspositionEntry>>, after: Seq<Option<TranspositionEntry>>|
        1 <= depth <= limit && #[trigger] root_searched(s, before, after, depth, score) && line
            == best_line_of(s, after, depth as nat)
}

/// What is kept of a search that has given the score `res` and the line `line`,
/// where `best` was the best so far: the search, unless the deadline was reached
/// when it ended (`over`); then it does not count, and `best` stays.
pub fn keep(over: bool, best: (i32, Vec<Move>), res: i32, line: Vec<Move>) -> (r: (i32, Vec<Move>))
    ensures
        r == if over {
            best
        } else {
            (res, line)
        },
{
    if over {
        best
    } else {
        (res, line)
    }
}

impl ChessState {
    /// The score of the position for the side to move and the line that goes
    /// with it, from searches one ply deeper each time, from 1 ply up to
    /// `depth_limit(max_depth)` plies, and for no longer than `max_duration`: what
    /// `eval_within` gives for the nanoseconds of `max_duration`.
    pub fn eval(
        &mut self,
        table: &mut TranspositionTable,
        max_depth: Option<u32>,
        max_duration: Option<Duration>,
    ) -> (best: (i32, Vec<Move>))
        requires
            old(self)@.wf(),
            old(table).wf(),
            scores_bounded(old(table).entries@),
        ensures
            final(self)@ == old(self)@,
            final(table).wf(),
            final(table).entries@.len() == old(table).entries@.len(),
            scores_bounded(final(table).entries@),
            -CHECKMATE_EVAL <= best.0 <= CHECKMATE_EVAL,
            best.1@.len() <= depth_limit(max_depth),
            (best.0 == old(self)@.static_eval() && best.1@.len() == 0) || from_a_search(
                old(self)@,
                depth_limit(max_depth),
                best.0,
                best.1@,
            ),
            max_depth == Some(0u32) ==> best.0 == old(self)@.static_eval() && best.1@.len() == 0
                && final(table).entries@ == old(table).entries@,
            old(self)@.halfmove_clock >= 50 || old(self)@.is_draw_by_repetition ==> best.0 == 0 || (
            best.0 == old(self)@.static_eval() && best.1@.len() == 0),
    {
        let max_nanos = match max_duration {
            Some(d) => Some(nanos_of(&d)),
            None => None,
        };
        self.eval_within(table, max_depth, max_nanos)
    }

    /// The score of the position for the side to move and the line that goes
    /// with it, from searches one ply deeper each time, from 1 ply up to
    /// `depth_limit(max_depth)` plies, and for no longer than `max_nanos`
    /// nanoseconds, or a year if no time is given.
    ///
    /// With `max_depth` 0, and with no time at all, it is the static score and no
    /// line, and the table is left as it was. A search that the deadline has cut
    /// short does not count, by `keep`, and ends the searching. So the result is
    /// the static score and no line if the first search is cut short, and else the
    /// score of a finished search and the line that the table held after it, as
    /// `from_a_search` says. A position that is drawn by the fifty-move rule or by
    /// repetition scores 0 in every search. Whatever the clock and the table say,
    /// the state is left as it was found.
    pub fn eval_within(
        &mut self,
        table: &mut TranspositionTable,
        max_depth: Option<u32>,
        max_nanos: Option<u128>,
    ) -> (best: (i32, Vec<Move>))
        requires
            old(self)@.wf(),
            old(table).wf(),
            scores_bounded(old(table).entries@),
        ensures
            final(self)@ == old(self)@,
            final(table).wf(),
            final(table).entries@.len() == old(table).entries@.len(),
            scores_bounded(final(table).entries@),
            -CHECKMATE_EVAL <= best.0 <= CHECKMATE_EVAL,
            best.1@.len() <= depth_limit(max_depth),
            (best.0 == old(self)@.static_eval() && best.1@.len() == 0) || from_a_search(
                old(self)@,
                depth_limit(max_depth),
                best.0,
                best.1@,
            ),
            max_depth == Some(0u32) || max_nanos == Some(0u128) ==> best.0 == old(
                self,
            )@.static_eval() && best.1@.len() == 0 && final(table).entries@ == old(
                table,
            ).entries@,
            old(self)@.halfmove_clock >= 50 || old(self)@.is_draw_by_repetition ==> best.0 == 0 || (
            best.0 == old(self)@.static_eval() && best.1@.len() == 0),
    {
        let max_depth = match max_depth {
            Some(d) => if d < MAX_DEPTH {
                d
            } else {
                MAX_DEPTH
            },
            None => MAX_DEPTH,
        };
        let mut best_res = (self.static_eval(), Vec::new());
        if max_depth == 0 {
            return best_res;
        }
        let search = Search::lasting(max_nanos);

        let mut depth: u32 = 1;
        let alpha = -CHECKMATE_EVAL;
        let beta = CHECKMATE_EVAL;
        while depth <= max_depth
            invariant
                1 <= depth <= max_depth + 1,
                max_depth <= MAX_DEPTH,
                self@ == old(self)@,
                self@.wf(),
                table.wf(),
                table.entries@.len() == old(table).entries@.len(),
                scores_bounded(table.entries@),
                search.max_nanos == Search::limit_of(max_nanos),
                max_nanos == Some(0u128) ==> depth == 1 && table.entries@ == old(table).entries@
                    && best_res.0 == self@.static_eval(),
                -CHECKMATE_EVAL <= best_res.0 <= CHECKMATE_EVAL,
                best_res.1@.len() < depth,
                (best_res.0 == self@.static_eval() && best_res.1@.len() == 0) || from_a_search(
                    self@,
                    max_depth,
                    best_res.0,
                    best_res.1@,
                ),
                self@.halfmove_clock >= 50 || self@.is_draw_by_repetition ==> best_res.0 == 0 || (
                best_res.0 == self@.static_eval() && best_res.1@.len() == 0),
                alpha == -CHECKMATE_EVAL,
                beta == CHECKMATE_EVAL,
            decreases max_depth + 1 - depth,
        {
            let ghost before = table.entries@;
            proof {
                lemma_all_kept(
                    self@.pseudo_legal_moves(),
                    self@.pseudo_legal_moves().len() as int,
                );
            }
            let res = search.search(NodeType::Root, self, table, alpha, beta, depth as i32, 0);
            let over = search.out_of_time();
            let line = if over {
                Vec::new()
            } else {
                search.best_line(self, table, depth)
            };
            proof {
                lemma_best_line_len(self@, table.entries@, depth as nat);
                if !over {
                    assert(root_searched(self@, before, table.entries@, depth, res));
                }
            }
            best_res = keep(over, best_res, res, line);
            if over {
                break ;
            }
            proof {
                assert(root_searched(self@, before, table.entries@, depth, best_res.0));
                assert(best_res.1@ == best_line_of(self@, table.entries@, depth as nat));
                assert(from_a_search(self@, max_depth, best_res.0, best_res.1@));
            }
            depth += 1;
        }
        best_res
    }
}

/// The line for `depth` moves has no more than `depth` moves.
pub proof fn lemma_best_line_len(
    s: ChessStateView,
    entries: Seq<Option<TranspositionEntry>>,
    depth: nat,
)
    ensures
        best_line_of(s, entries, depth).len() <= depth,
    decreases depth,
{
    if depth > 0 {
        match lookup(entries, s.hash) {
            Some(e) => match e.best_move {
                Some(m) => {
                    lemma_best_line_len(s.make(m), entries, (depth - 1) as nat);
                },
                None => {},
            },
            None => {},
        }
    }
}

} // verus!
