use super::gen_moves::Move;
use super::{ChessState, ChessStateView};
use vstd::prelude::*;

verus! {

/// What a position reached by the move `m` adds to each of the six tallies: to
/// the first, that of the positions, 1; to the next four 1 if `m` is a capture,
/// an en-passant capture, a castling, a promotion; to the last, that of the
/// checks, nothing. `tally` counts from 0.
pub open spec fn leaf_count(m: Option<Move>, tally: int) -> nat {
    if tally == 0 {
        1
    } else {
        match m {
            Some(m) => if (tally == 1 && m.capture is Some) || (tally == 2 && m.en_passant) || (tally
                == 3 && (m.castle_king || m.castle_queen)) || (tally == 4 && m.promote_to is Some) {
                1
            } else {
                0
            },
            None => 0,
        }
    }
}

/// What the positions that lie `depth` legal moves below the state `s` add to
/// the tally `tally`; `m` is the move that has led to `s`.
pub open spec fn perft_count(s: ChessStateView, m: Option<Move>, depth: nat, tally: int) -> nat
    decreases depth, 1int, 0int,
{
    if depth == 0 {
        leaf_count(m, tally)
    } else {
        perft_over(s, s.legal_moves(), s.legal_moves().len(), depth, tally)
    }
}

/// What the positions that lie `depth` legal moves below `s`, and below one of
/// the first `n` of the moves `ms`, add to the tally `tally`.
pub open spec fn perft_over(s: ChessStateView, ms: Seq<Move>, n: nat, depth: nat, tally: int) -> nat
    decreases depth, 0int, n,
{
    if n == 0 || depth == 0 {
        0
    } else {
        perft_over(s, ms, (n - 1) as nat, depth, tally) + perft_count(
            s.make(ms[n - 1]),
            Some(ms[n - 1]),
            (depth - 1) as nat,
            tally,
        )
    }
}

/// No tally is greater than that of the positions.
pub proof fn lemma_tallies_below_nodes(s: ChessStateView, m: Option<Move>, depth: nat, tally: int)
    ensures
        perft_count(s, m, depth, tally) <= perft_count(s, m, depth, 0),
    decreases depth, 1int, 0int,
{
    if depth > 0 {
        lemma_tallies_over_below_nodes(s, s.legal_moves(), s.legal_moves().len(), depth, tally);
    }
}

/// Below a list of moves, too, no tally is greater than that of the positions.
pub proof fn lemma_tallies_over_below_nodes(
    s: ChessStateView,
    ms: Seq<Move>,
    n: nat,
    depth: nat,
    tally: int,
)
    ensures
        perft_over(s, ms, n, depth, tally) <= perft_over(s, ms, n, depth, 0),
    decreases depth, 0int, n,
{
    if n > 0 && depth > 0 {
        lemma_tallies_over_below_nodes(s, ms, (n - 1) as nat, depth, tally);
        lemma_tallies_below_nodes(s.make(ms[n - 1]), Some(ms[n - 1]), (depth - 1) as nat, tally);
    }
}

/// Below more moves lie no fewer positions.
pub proof fn lemma_perft_over_grows(
    s: ChessStateView,
    ms: Seq<Move>,
    n: nat,
    m: nat,
    depth: nat,
    tally: int,
)
    requires
        n <= m,
    ensures
        perft_over(s, ms, n, depth, tally) <= perft_over(s, ms, m, depth, tally),
    decreases m,
{
    if n < m && depth > 0 {
        lemma_perft_over_grows(s, ms, n, (m - 1) as nat, depth, tally);
    }
}

/// The sums of the tallies, one by one.
fn add_counts(a: &[u64; 6], b: &[u64; 6]) -> (sum: [u64; 6])
    requires
        forall|tally: int| 0 <= tally < 6 ==> a@[tally] + b@[tally] <= u64::MAX,
    ensures
        forall|tally: int| 0 <= tally < 6 ==> sum@[tally] == a@[tally] + b@[tally],
{
    [a[0] + b[0], a[1] + b[1], a[2] + b[2], a[3] + b[3], a[4] + b[4], a[5] + b[5]]
}

/// The move that led to a state, if one did.
pub open spec fn last_move(m: Option<&Move>) -> Option<Move> {
    match m {
        Some(m) => Some(*m),
        None => None,
    }
}

/// Plays `m`, counts the positions that lie `depth - 1` legal moves below the
/// state reached, and takes `m` back.
fn perft_below(state: &mut ChessState, m: &Move, depth: u32) -> (counts: Option<[u64; 6]>)
    requires
        depth > 0,
        old(state)@.wf(),
        old(state)@.applicable(*m),
    ensures
        final(state)@ == old(state)@,
        counts is Some <==> perft_count(old(state)@.make(*m), Some(*m), (depth - 1) as nat, 0)
            <= u64::MAX,
        counts is Some ==> forall|tally: int|
            0 <= tally < 6 ==> counts->0@[tally] == perft_count(
                old(state)@.make(*m),
                Some(*m),
                (depth - 1) as nat,
                tally,
            ),
    decreases depth, 0int, 0int,
{
    proof {
        old(state)@.lemma_unmake_make(*m);
    }
    state.make_move(m);
    let below = perft_checked(state, Some(m), depth - 1);
    state.unmake_last_move();
    below
}

/// Counts the positions that lie `depth` legal moves below the state, and of
/// them the captures, the en-passant captures, the castlings and the promotions
/// that the last move to them was; `m` is the move that led to the state. The
/// sixth count, that of the checks, stays 0. `None` if there are more positions
/// than 64 bits can count.
pub fn perft_checked(state: &mut ChessState, m: Option<&Move>, depth: u32) -> (counts: Option<
    [u64; 6],
>)
    requires
        old(state)@.wf(),
    ensures
        final(state)@ == old(state)@,
        counts is Some <==> perft_count(old(state)@, last_move(m), depth as nat, 0) <= u64::MAX,
        counts is Some ==> forall|tally: int|
            0 <= tally < 6 ==> counts->0@[tally] == perft_count(
                old(state)@,
                last_move(m),
                depth as nat,
                tally,
            ),
    decreases depth, 1int, 0int,
{
    proof {
        if depth > 0 {
            assert forall|tally: int| 0 <= tally < 6 implies perft_count(
                old(state)@,
                last_move(m),
                depth as nat,
                tally,
            ) == perft_over(
                old(state)@,
                old(state)@.legal_moves(),
                old(state)@.legal_moves().len(),
                depth as nat,
                tally,
            ) by {}
        }
    }
    if depth == 0 {
        return Some(
            match m {
                Some(m) => [
                    1,
                    if m.capture.is_some() {
                        1
                    } else {
                        0
                    },
                    if m.en_passant {
                        1
                    } else {
                        0
                    },
                    if m.castle_king || m.castle_queen {
                        1
                    } else {
                        0
                    },
                    if m.promote_to.is_some() {
                        1
                    } else {
                        0
                    },
                    0,
                ],
                None => [1, 0, 0, 0, 0, 0],
            },
        );
    }
    let moves = state.gen_moves();
    perft_moves(state, &moves, depth)
}

/// Counts the positions that lie `depth` legal moves below the state, whose
/// legal moves are `moves`. `None` if there are more positions than 64 bits can
/// count.
fn perft_moves(state: &mut ChessState, moves: &Vec<Move>, depth: u32) -> (counts: Option<[u64; 6]>)
    requires
        depth > 0,
        old(state)@.wf(),
        moves@ == old(state)@.legal_moves(),
    ensures
        final(state)@ == old(state)@,
        counts is Some <==> perft_over(
            old(state)@,
            moves@,
            moves@.len(),
            depth as nat,
            0,
        ) <= u64::MAX,
        counts is Some ==> forall|tally: int|
            0 <= tally < 6 ==> counts->0@[tally] == perft_over(
                old(state)@,
                moves@,
                moves@.len(),
                depth as nat,
                tally,
            ),
    decreases depth, 0int, 2int,
{
    let mut total: [u64; 6] = [0; 6];
    let mut i: usize = 0;
    while i < moves.len()
        invariant
            i <= moves@.len(),
            depth > 0,
            state@ == old(state)@,
            state@.wf(),
            moves@ == state@.legal_moves(),
            forall|tally: int|
                0 <= tally < 6 ==> total@[tally] == perft_over(
                    state@,
                    moves@,
                    i as nat,
                    depth as nat,
                    tally,
                ),
        decreases moves@.len() - i,
    {
        let mv = moves[i];
        let ghost before = total@;
        proof {
            state@.lemma_legal_moves_applicable(i as int);
            lemma_perft_over_grows(state@, moves@, (i + 1) as nat, moves@.len(), depth as nat, 0);
            assert forall|tally: int| 0 <= tally < 6 implies (#[trigger] total@[tally]) <= total@[0] by {
                lemma_tallies_over_below_nodes(state@, moves@, i as nat, depth as nat, tally);
            }
            assert(perft_over(state@, moves@, (i + 1) as nat, depth as nat, 0) == perft_over(
                state@,
                moves@,
                i as nat,
                depth as nat,
                0,
            ) + perft_count(state@.make(mv), Some(mv), (depth - 1) as nat, 0));
        }
        total =
        match perft_add(state, &mv, depth, &total) {
            Some(sum) => sum,
            None => {
                return None;
            },
        };
        proof {
            assert forall|tally: int| 0 <= tally < 6 implies total@[tally] == perft_over(
                state@,
                moves@,
                (i + 1) as nat,
                depth as nat,
                tally,
            ) by {
                assert(total@[tally] == before[tally] + perft_count(
                    state@.make(mv),
                    Some(mv),
                    (depth - 1) as nat,
                    tally,
                ));
                assert(perft_over(state@, moves@, (i + 1) as nat, depth as nat, tally)
                    == perft_over(state@, moves@, i as nat, depth as nat, tally) + perft_count(
                    state@.make(mv),
                    Some(mv),
                    (depth - 1) as nat,
                    tally,
                ));
            }
        }
        i += 1;
    }
    assert(total@[0] == perft_over(state@, moves@, moves@.len(), depth as nat, 0));
    Some(total)
}

/// Adds to the tallies `total` those of the positions that lie `depth - 1` legal
/// moves below the state that `m` leads to. `None` if there are more positions
/// than 64 bits can count.
fn perft_add(state: &mut ChessState, m: &Move, depth: u32, total: &[u64; 6]) -> (sum: Option<
    [u64; 6],
>)
    requires
        depth > 0,
        old(state)@.wf(),
        old(state)@.applicable(*m),
        forall|tally: int| 0 <= tally < 6 ==> (#[trigger] total@[tally]) <= total@[0],
    ensures
        final(state)@ == old(state)@,
        sum is Some <==> total@[0] + perft_count(
            old(state)@.make(*m),
            Some(*m),
            (depth - 1) as nat,
            0,
        ) <= u64::MAX,
        sum is Some ==> forall|tally: int|
            0 <= tally < 6 ==> sum->0@[tally] == total@[tally] + perft_count(
                old(state)@.make(*m),
                Some(*m),
                (depth - 1) as nat,
                tally,
            ),
    decreases depth, 0int, 1int,
{
    let below = match perft_below(state, m, depth) {
        Some(below) => below,
        None => {
            return None;
        },
    };
    if below[0] > u64::MAX - total[0] {
        return None;
    }
    proof {
        assert forall|tally: int| 0 <= tally < 6 implies total@[tally] + below@[tally]
            <= u64::MAX by {
            lemma_tallies_below_nodes(
                old(state)@.make(*m),
                Some(*m),
                (depth - 1) as nat,
                tally,
            );
        }
    }
    Some(add_counts(total, &below))
}

/// Counts the positions that lie `depth` legal moves below the state, and of
/// them the captures, the en-passant captures, the castlings and the promotions
/// that the last move to them was; `m` is the move that led to the state. The
/// sixth count, that of the checks, stays 0.
pub fn perft(state: &mut ChessState, m: Option<&Move>, depth: u32) -> (counts: [u64; 6])
    requires
        old(state)@.wf(),
        perft_count(old(state)@, last_move(m), depth as nat, 0) <= u64::MAX,
    ensures
        final(state)@ == old(state)@,
        forall|tally: int|
            0 <= tally < 6 ==> counts@[tally] == perft_count(
                old(state)@,
                last_move(m),
                depth as nat,
                tally,
            ),
{
    match perft_checked(state, m, depth) {
        Some(counts) => counts,
        None => unreached(),
    }
}

} // verus!
