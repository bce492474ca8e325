//! Perft: exhaustive move-tree node counting to a bounded depth, with a
//! per-depth tally of the legal moves seen at each tree level.

use vstd::prelude::*;
use crate::moves::Move;
use crate::moves::apply_move;
use crate::moves::make_move;
use crate::moves::move_ok;
use crate::moves::lemma_apply_move_wf;
use crate::movegen::generate_legal_moves;
use crate::movegen::legal_moves_spec;
use crate::movegen::lemma_filter_legal;
use crate::movegen::lemma_legal_moves_len;
use crate::movegen::lemma_pseudo_moves_ok;
use crate::movegen::pseudo_moves_spec;
use crate::attacks::moves_ok;
use crate::state::GameState;
use crate::state::StateModel;
use crate::state::wf_state;

verus! {

/// The perft count: a position at depth 0 is one node; otherwise the counts
/// of the positions after each legal move, at one less depth, are summed.
pub open spec fn perft_spec(m: StateModel, n: nat) -> nat
    decreases n, 0int,
{
    if n == 0 {
        1
    } else {
        perft_list(m, legal_moves_spec(m), (n - 1) as nat)
    }
}

/// The sum of the perft counts at depth `k` of the positions reached from
/// `m` by each move of `ms`.
pub open spec fn perft_list(m: StateModel, ms: Seq<Move>, k: nat) -> nat
    decreases k, ms.len() + 1,
{
    if ms.len() == 0 {
        0
    } else {
        perft_spec(apply_move(m, ms.first()), k) + perft_list(m, ms.drop_first(), k)
    }
}

/// The total number of legal moves generated at relative depth `d` across
/// the whole traversal rooted at `m`: at depth 0 the legal-move count of `m`
/// itself, deeper the sums over the successor positions.
pub open spec fn level_moves_spec(m: StateModel, d: nat) -> nat
    decreases d, 0int,
{
    if d == 0 {
        legal_moves_spec(m).len()
    } else {
        level_moves_list(m, legal_moves_spec(m), (d - 1) as nat)
    }
}

/// The sum of the level tallies at relative depth `d` of the positions
/// reached from `m` by each move of `ms`.
pub open spec fn level_moves_list(m: StateModel, ms: Seq<Move>, d: nat) -> nat
    decreases d, ms.len() + 1,
{
    if ms.len() == 0 {
        0
    } else {
        level_moves_spec(apply_move(m, ms.first()), d) + level_moves_list(m, ms.drop_first(), d)
    }
}

/// The results buffer holds `-1` for a level never visited; visiting it the
/// first time starts the tally at zero.
pub open spec fn norm_cell(v: int) -> int {
    if v == -1 {
        0
    } else {
        v
    }
}

/// Appending a move to the list adds the count of its successor position.
proof fn lemma_perft_list_push(m: StateModel, ms: Seq<Move>, mv: Move, k: nat)
    ensures
        perft_list(m, ms.push(mv), k) == perft_list(m, ms, k) + perft_spec(apply_move(m, mv), k),
    decreases ms.len(),
{
    assert(ms.push(mv).len() == ms.len() + 1);
    if ms.len() == 0 {
        assert(ms.push(mv).first() == mv);
        assert(ms.push(mv).drop_first() =~= Seq::<Move>::empty());
        assert(perft_list(m, ms.push(mv), k) == perft_spec(apply_move(m, mv), k) + perft_list(
            m,
            Seq::<Move>::empty(),
            k,
        ));
        assert(perft_list(m, Seq::<Move>::empty(), k) == 0);
        assert(perft_list(m, ms, k) == 0);
    } else {
        assert(ms.push(mv).first() == ms.first());
        assert(ms.push(mv).drop_first() =~= ms.drop_first().push(mv));
        lemma_perft_list_push(m, ms.drop_first(), mv, k);
        assert(perft_list(m, ms.push(mv), k) == perft_spec(apply_move(m, ms.first()), k)
            + perft_list(m, ms.drop_first().push(mv), k));
        assert(perft_list(m, ms, k) == perft_spec(apply_move(m, ms.first()), k) + perft_list(
            m,
            ms.drop_first(),
            k,
        ));
    }
}

/// Appending a move to the list adds the tally of its successor position.
proof fn lemma_level_list_push(m: StateModel, ms: Seq<Move>, mv: Move, d: nat)
    ensures
        level_moves_list(m, ms.push(mv), d) == level_moves_list(m, ms, d) + level_moves_spec(
            apply_move(m, mv),
            d,
        ),
    decreases ms.len(),
{
    assert(ms.push(mv).len() == ms.len() + 1);
    if ms.len() == 0 {
        assert(ms.push(mv).first() == mv);
        assert(ms.push(mv).drop_first() =~= Seq::<Move>::empty());
        assert(level_moves_list(m, ms.push(mv), d) == level_moves_spec(apply_move(m, mv), d)
            + level_moves_list(m, Seq::<Move>::empty(), d));
        assert(level_moves_list(m, Seq::<Move>::empty(), d) == 0);
        assert(level_moves_list(m, ms, d) == 0);
    } else {
        assert(ms.push(mv).first() == ms.first());
        assert(ms.push(mv).drop_first() =~= ms.drop_first().push(mv));
        lemma_level_list_push(m, ms.drop_first(), mv, d);
        assert(level_moves_list(m, ms.push(mv), d) == level_moves_spec(
            apply_move(m, ms.first()),
            d,
        ) + level_moves_list(m, ms.drop_first().push(mv), d));
        assert(level_moves_list(m, ms, d) == level_moves_spec(apply_move(m, ms.first()), d)
            + level_moves_list(m, ms.drop_first(), d));
    }
}

/// A prefix of the move list never counts more than the whole list.
proof fn lemma_perft_list_prefix(m: StateModel, ms: Seq<Move>, j: int, k: nat)
    requires
        0 <= j <= ms.len(),
    ensures
        perft_list(m, ms.take(j), k) <= perft_list(m, ms, k),
    decreases ms.len() - j,
{
    if j == ms.len() {
        assert(ms.take(j) =~= ms);
    } else {
        assert(ms.take(j + 1) =~= ms.take(j).push(ms[j]));
        lemma_perft_list_push(m, ms.take(j), ms[j], k);
        lemma_perft_list_prefix(m, ms, j + 1, k);
    }
}

/// A prefix of the move list never tallies more than the whole list.
proof fn lemma_level_list_prefix(m: StateModel, ms: Seq<Move>, j: int, d: nat)
    requires
        0 <= j <= ms.len(),
    ensures
        level_moves_list(m, ms.take(j), d) <= level_moves_list(m, ms, d),
    decreases ms.len() - j,
{
    if j == ms.len() {
        assert(ms.take(j) =~= ms);
    } else {
        assert(ms.take(j + 1) =~= ms.take(j).push(ms[j]));
        lemma_level_list_push(m, ms.take(j), ms[j], d);
        lemma_level_list_prefix(m, ms, j + 1, d);
    }
}

/// Where the traversal visits no node at a depth, it tallies no move there.
proof fn lemma_no_nodes_no_moves(m: StateModel, d: nat)
    ensures
        perft_spec(m, d) == 0 ==> level_moves_spec(m, d) == 0,
    decreases d, 0int,
{
    if d > 0 {
        lemma_no_nodes_no_moves_list(m, legal_moves_spec(m), (d - 1) as nat);
    }
}

/// The list form of `lemma_no_nodes_no_moves`.
proof fn lemma_no_nodes_no_moves_list(m: StateModel, ms: Seq<Move>, d: nat)
    ensures
        perft_list(m, ms, d) == 0 ==> level_moves_list(m, ms, d) == 0,
    decreases d, ms.len() + 1,
{
    if ms.len() > 0 {
        lemma_no_nodes_no_moves(apply_move(m, ms.first()), d);
        lemma_no_nodes_no_moves_list(m, ms.drop_first(), d);
    }
}

/// The recursive perft worker. Returns the number of positions reachable in
/// exactly `n` moves, and adds, for each tree level visited, the number of
/// legal moves generated there into `results[level]` (a cell holding `-1`
/// counts as empty and is started at zero on first touch). Cells outside the
/// visited levels keep their values.
pub fn perft_imp(
    results: &mut [isize; 8],
    game_state: &Box<GameState>,
    n: usize,
    level: usize,
) -> (count: usize)
    requires
        wf_state(game_state@),
        1 <= level,
        level + n <= 8,
        perft_spec(game_state@, n as nat) <= usize::MAX,
        forall|l: int|
            level <= l < level + n ==> old(results)@[l] == -1 || #[trigger] old(results)@[l] >= 0,
        forall|l: int|
            level <= l < level + n ==> norm_cell(#[trigger] old(results)@[l] as int)
                + level_moves_spec(game_state@, (l - level) as nat) <= isize::MAX,
    ensures
        count == perft_spec(game_state@, n as nat),
        forall|l: int|
            0 <= l < 8 && !(level <= l < level + n) ==> final(results)@[l] == old(results)@[l],
        forall|l: int|
            level <= l < level + n ==> final(results)@[l] as int == (if perft_spec(
                game_state@,
                (l - level) as nat,
            ) == 0 {
                old(results)@[l] as int
            } else {
                norm_cell(old(results)@[l] as int) + level_moves_spec(
                    game_state@,
                    (l - level) as nat,
                )
            }),
    decreases n,
{
    if n == 0 {
        return 1;
    }

    let ghost m = game_state@;
    let ghost entry: Seq<isize> = results@;

    let mut count: usize = 0;
    let moves = generate_legal_moves(game_state);
    let ghost ms = moves@;
    proof {
        lemma_pseudo_moves_ok(m);
        lemma_filter_legal(m, pseudo_moves_spec(m));
        assert(moves_ok(m, ms));
        assert(perft_spec(m, n as nat) == perft_list(m, ms, (n - 1) as nat));
    }

    let mut i: usize = 0;
    while i < moves.len()
        invariant
            wf_state(m),
            game_state@ == m,
            1 <= level,
            level + n <= 8,
            1 <= n,
            moves@ == ms,
            ms == legal_moves_spec(m),
            moves_ok(m, ms),
            i <= ms.len(),
            perft_spec(m, n as nat) <= usize::MAX,
            perft_spec(m, n as nat) == perft_list(m, ms, (n - 1) as nat),
            count == perft_list(m, ms.take(i as int), (n - 1) as nat),
            entry == old(results)@,
            forall|l: int|
                level <= l < level + n ==> entry[l] == -1 || #[trigger] entry[l] >= 0,
            forall|l: int|
                level <= l < level + n ==> norm_cell(#[trigger] entry[l] as int)
                    + level_moves_spec(m, (l - level) as nat) <= isize::MAX,
            forall|l: int|
                0 <= l < 8 && !(level + 1 <= l < level + n) ==> results@[l] == entry[l],
            forall|l: int|
                level + 1 <= l < level + n ==> results@[l] as int == (if perft_list(
                    m,
                    ms.take(i as int),
                    (l - level - 1) as nat,
                ) == 0 {
                    entry[l] as int
                } else {
                    norm_cell(entry[l] as int) + level_moves_list(
                        m,
                        ms.take(i as int),
                        (l - level - 1) as nat,
                    )
                }),
        decreases ms.len() - i,
    {
        let mv = moves[i];
        let ghost before: Seq<isize> = results@;
        let mut tmp_game_state: Box<GameState> = Box::new(**game_state);
        proof {
            assert(move_ok(m, mv));
        }
        make_move(&mut tmp_game_state, mv);
        let ghost m2 = apply_move(m, mv);
        proof {
            lemma_apply_move_wf(m, mv);
            assert(ms.take(i as int + 1) =~= ms.take(i as int).push(mv));
            lemma_perft_list_push(m, ms.take(i as int), mv, (n - 1) as nat);
            lemma_perft_list_prefix(m, ms, i as int + 1, (n - 1) as nat);
            // The successor's count and tallies are bounded by this node's.
            assert(perft_spec(m2, (n - 1) as nat) <= perft_spec(m, n as nat));
            assert forall|l: int|
                level + 1 <= l < level + n implies norm_cell(#[trigger] results@[l] as int)
                + level_moves_spec(m2, (l - level - 1) as nat) <= isize::MAX by {
                let d = (l - level - 1) as nat;
                lemma_level_list_push(m, ms.take(i as int), mv, d);
                lemma_level_list_prefix(m, ms, i as int + 1, d);
                assert(level_moves_spec(m2, d) <= level_moves_list(m, ms, d));
                if perft_list(m, ms.take(i as int), d) == 0 {
                    lemma_no_nodes_no_moves_list(m, ms.take(i as int), d);
                }
            }
        }
        let c = perft_imp(results, &tmp_game_state, n - 1, level + 1);
        proof {
            assert(perft_list(m, ms.take(i as int + 1), (n - 1) as nat) <= perft_list(
                m,
                ms,
                (n - 1) as nat,
            ));
        }
        count = count + c;
        proof {
            assert forall|l: int|
                level + 1 <= l < level + n implies results@[l] as int == (if perft_list(
                m,
                ms.take(i as int + 1),
                (l - level - 1) as nat,
            ) == 0 {
                entry[l] as int
            } else {
                norm_cell(entry[l] as int) + level_moves_list(
                    m,
                    ms.take(i as int + 1),
                    (l - level - 1) as nat,
                )
            }) by {
                let d = (l - level - 1) as nat;
                lemma_perft_list_push(m, ms.take(i as int), mv, d);
                lemma_level_list_push(m, ms.take(i as int), mv, d);
                if perft_spec(m2, d) == 0 {
                    lemma_no_nodes_no_moves(m2, d);
                } else {
                    if perft_list(m, ms.take(i as int), d) == 0 {
                        lemma_no_nodes_no_moves_list(m, ms.take(i as int), d);
                    }
                }
            }
        }
        i = i + 1;
    }

    proof {
        assert(ms.take(ms.len() as int) =~= ms);
    }

    // Tally the legal moves generated at this level.
    let here = results[level];
    if here == -1 {
        results[level] = 0;
    }
    let cur = results[level];
    proof {
        assert(results@[level as int] == norm_cell(entry[level as int] as int));
        assert(level_moves_spec(m, 0) == ms.len());
    }
    results[level] = cur + moves.len() as isize;

    proof {
        assert(results@[level as int] as int == norm_cell(entry[level as int] as int)
            + level_moves_spec(m, 0));
        assert(perft_spec(m, 0) == 1);
        assert forall|l: int|
            level <= l < level + n implies results@[l] as int == (if perft_spec(
            m,
            (l - level) as nat,
        ) == 0 {
            entry[l] as int
        } else {
            norm_cell(entry[l] as int) + level_moves_spec(m, (l - level) as nat)
        }) by {
            if l > level {
                let d1 = (l - level) as nat;
                assert(perft_spec(m, d1) == perft_list(m, ms, (d1 - 1) as nat));
                assert(level_moves_spec(m, d1) == level_moves_list(m, ms, (d1 - 1) as nat));
            }
        }
    }
    count
}

/// Count the move tree below the position to depth `n` (at most 7): the
/// return value is the number of leaf positions at that depth, and
/// `results[1..=n]` accumulates, per tree level, the number of legal moves
/// generated there across the whole traversal (a cell holding `-1` counts as
/// empty). `results[0]` and the cells beyond `n` are left untouched.
pub fn perft(results: &mut [isize; 8], game_state: &Box<GameState>, n: usize) -> (count: usize)
    requires
        wf_state(game_state@),
        n <= 7,
        perft_spec(game_state@, n as nat) <= usize::MAX,
        forall|l: int| 1 <= l < 1 + n ==> old(results)@[l] == -1 || #[trigger] old(results)@[l] >= 0,
        forall|l: int|
            1 <= l < 1 + n ==> norm_cell(#[trigger] old(results)@[l] as int) + level_moves_spec(
                game_state@,
                (l - 1) as nat,
            ) <= isize::MAX,
    ensures
        count == perft_spec(game_state@, n as nat),
        forall|l: int|
            0 <= l < 8 && !(1 <= l < 1 + n) ==> final(results)@[l] == old(results)@[l],
        forall|l: int|
            1 <= l < 1 + n ==> final(results)@[l] as int == (if perft_spec(
                game_state@,
                (l - 1) as nat,
            ) == 0 {
                old(results)@[l] as int
            } else {
                norm_cell(old(results)@[l] as int) + level_moves_spec(game_state@, (l - 1) as nat)
            }),
{
    perft_imp(results, game_state, n, 1)
}

/// A crude bound on the node count at depth `n`: no position has more than
/// 4096 legal moves, so the tree branches at most 4096 ways per ply.
pub open spec fn perft_bound(n: nat) -> nat
    decreases n,
{
    if n == 0 {
        1
    } else {
        4096 * perft_bound((n - 1) as nat)
    }
}

proof fn lemma_perft_spec_bound(m: StateModel, n: nat)
    ensures
        perft_spec(m, n) <= perft_bound(n),
    decreases n, 0int,
{
    if n > 0 {
        let ms = legal_moves_spec(m);
        lemma_legal_moves_len(m);
        lemma_perft_list_bound(m, ms, (n - 1) as nat);
        assert(ms.len() * perft_bound((n - 1) as nat) <= 4096 * perft_bound((n - 1) as nat))
            by (nonlinear_arith)
            requires
                ms.len() <= 4096,
        ;
    }
}

proof fn lemma_perft_list_bound(m: StateModel, ms: Seq<Move>, k: nat)
    ensures
        perft_list(m, ms, k) <= ms.len() * perft_bound(k),
    decreases k, ms.len() + 1,
{
    if ms.len() > 0 {
        lemma_perft_spec_bound(apply_move(m, ms.first()), k);
        lemma_perft_list_bound(m, ms.drop_first(), k);
        assert(perft_bound(k) + (ms.len() - 1) * perft_bound(k) == ms.len() * perft_bound(k))
            by (nonlinear_arith);
    }
}

proof fn lemma_level_spec_bound(m: StateModel, d: nat)
    ensures
        level_moves_spec(m, d) <= 4096 * perft_bound(d),
    decreases d, 0int,
{
    lemma_legal_moves_len(m);
    if d > 0 {
        let ms = legal_moves_spec(m);
        lemma_level_list_bound(m, ms, (d - 1) as nat);
        assert(ms.len() * (4096 * perft_bound((d - 1) as nat)) <= 4096 * (4096 * perft_bound(
            (d - 1) as nat,
        ))) by (nonlinear_arith)
            requires
                ms.len() <= 4096,
        ;
    }
}

proof fn lemma_level_list_bound(m: StateModel, ms: Seq<Move>, d: nat)
    ensures
        level_moves_list(m, ms, d) <= ms.len() * (4096 * perft_bound(d)),
    decreases d, ms.len() + 1,
{
    if ms.len() > 0 {
        lemma_level_spec_bound(apply_move(m, ms.first()), d);
        lemma_level_list_bound(m, ms.drop_first(), d);
        assert((4096 * perft_bound(d)) + (ms.len() - 1) * (4096 * perft_bound(d)) == ms.len() * (
        4096 * perft_bound(d))) by (nonlinear_arith);
    }
}

/// Concrete bounds for shallow searches: to depth five, both the node count
/// and every level tally stay below 2^60, so they fit the machine words the
/// counters use. This discharges the overflow preconditions of `perft` for
/// any position.
pub proof fn lemma_perft_depth_bound(m: StateModel, n: nat)
    requires
        n <= 5,
    ensures
        perft_spec(m, n) <= 0x1000000000000000,
        forall|d: nat| d < n ==> #[trigger] level_moves_spec(m, d) <= 0x1000000000000000,
{
    lemma_perft_spec_bound(m, n);
    assert(perft_bound(0) == 1);
    assert(perft_bound(1) == 4096);
    assert(perft_bound(2) == 0x1000000);
    assert(perft_bound(3) == 0x1000000000);
    assert(perft_bound(4) == 0x1000000000000);
    assert(perft_bound(5) == 0x1000000000000000);
    assert(perft_bound(n) <= 0x1000000000000000);
    assert forall|d: nat| d < n implies #[trigger] level_moves_spec(m, d)
        <= 0x1000000000000000 by {
        lemma_level_spec_bound(m, d);
        assert(perft_bound(d) <= 0x1000000000000);
    }
}

} // verus!
