//! The search agent: speculative move generation over the rules engine,
//! the hand-tuned static evaluation, and negamax with alpha-beta pruning.

use vstd::prelude::*;
use vstd::math::max;
use crate::action::Action;
use crate::player::{Player, PlayerV};
use crate::resources::ResourceKind;
use crate::state::{lemma_player_in_bounds, lemma_run_conserves, pick_three_candidates, pick_two_kinds, visible_pairs, State, StateV, COIN_BUDGET, MAX_NOBELS, SCORE_GOAL};
use crate::cards::Nobel;
use crate::sums::{lemma_sum_by_nonneg, lemma_sum_by_push, lemma_sum_by_ub, sum_by};

verus! {

/// The `Purchase` candidates, one per visible slot, in window order.
pub open spec fn purchase_candidates(st: StateV) -> Seq<Action> {
    visible_pairs(st.decks).map_values(
        |p: (usize, usize)| Action::Purchase { deck: p.0, card: p.1 },
    )
}

/// The `PurchaseReserved` candidates, one per reserve entry.
pub open spec fn reserved_candidates(st: StateV) -> Seq<Action> {
    Seq::new(st.acting().reserved.len(), |i: int| Action::PurchaseReserved { index: i as usize })
}

/// The `PickThree` candidates: the fixed triple list.
pub open spec fn pick_three_actions() -> Seq<Action> {
    pick_three_candidates().map_values(
        |t: (ResourceKind, ResourceKind, ResourceKind)|
            Action::PickThree { one: t.0, two: t.1, three: t.2 },
    )
}

/// The `PickTwo` candidates: the kinds with four bank coins.
pub open spec fn pick_two_actions(st: StateV) -> Seq<Action> {
    pick_two_kinds(st.coins).map_values(|c: ResourceKind| Action::PickTwo { color: c })
}

/// The `Reserve` candidates, one per visible slot, in window order.
pub open spec fn reserve_candidates(st: StateV) -> Seq<Action> {
    visible_pairs(st.decks).map_values(
        |p: (usize, usize)| Action::Reserve { deck: p.0, card: p.1 },
    )
}

/// Every action the generator tries, in its fixed order: purchases, then
/// reserved purchases, then three-coin picks, then two-coin takes, then
/// reserves.  The order is material to alpha-beta's node counts and to
/// tie-breaking, not to correctness.
pub open spec fn move_candidates(st: StateV) -> Seq<Action> {
    purchase_candidates(st) + reserved_candidates(st) + pick_three_actions() + pick_two_actions(
        st,
    ) + reserve_candidates(st)
}

/// Legality from `st`, as a predicate value.
pub open spec fn f_legal(st: StateV) -> spec_fn(Action) -> bool {
    |a: Action| st.action_legal(a)
}

/// The legal moves from `st`, in generation order.
pub open spec fn legal_moves(st: StateV) -> Seq<Action> {
    move_candidates(st).filter(f_legal(st))
}

/// The action of a generated (state, action) pair.
pub open spec fn f_snd() -> spec_fn((State, Action)) -> Action {
    |pr: (State, Action)| pr.1
}

/// Filtering one more element keeps it exactly when the predicate holds.
proof fn lemma_filter_push<T>(s: Seq<T>, x: T, pred: spec_fn(T) -> bool)
    ensures
        s.push(x).filter(pred) == (if pred(x) {
            s.filter(pred).push(x)
        } else {
            s.filter(pred)
        }),
{
    reveal(Seq::filter);
    assert(s.push(x).drop_last() =~= s);
    assert(s.push(x).last() == x);
    assert(s.push(x).len() == s.len() + 1);
}

/// Clones `state`, attempts `a` on the clone, and appends the pair on
/// success; trial by application keeps generation and rules in agreement.
fn try_move(state: &State, a: Action, r: &mut Vec<(State, Action)>)
    requires
        state@.wf(),
    ensures
        state@.action_legal(a) ==> final(r)@.len() == old(r)@.len() + 1 && final(r)@
            == old(r)@.push(final(r)@.last()) && final(r)@.last().1 == a
            && final(r)@.last().0@ == state@.apply_action(a) && final(r)@.last().0@.wf(),
        !state@.action_legal(a) ==> final(r)@ == old(r)@,
{
    let mut s = state.clone();
    match s.run(a) {
        Ok(()) => {
            r.push((s, a));
        },
        Err(_) => {},
    }
}

/// All legal `(resulting state, action)` pairs from `state`, found by
/// cloning and speculatively applying every candidate, in the fixed
/// generation order.
pub fn moves(state: &State) -> (r: Vec<(State, Action)>)
    requires
        state@.wf(),
    ensures
        r@.map_values(f_snd()) == legal_moves(state@),
        forall|i: int|
            0 <= i < r@.len() ==> state@.action_legal(#[trigger] r@[i].1) && r@[i].0@
                == state@.apply_action(r@[i].1) && r@[i].0@.wf(),
{
    let ghost stv = state@;
    let mut r: Vec<(State, Action)> = Vec::new();
    let ghost mut done: Seq<Action> = Seq::empty();
    proof {
        assert(done.filter(f_legal(stv)) =~= Seq::<Action>::empty());
        assert(r@.map_values(f_snd()) =~= Seq::<Action>::empty());
    }

    let cs = state.card_iter();
    let n1 = cs.len();
    let mut i: usize = 0;
    proof {
        assert(done =~= purchase_candidates(stv).take(0));
    }
    while i < n1
        invariant
            i <= n1,
            n1 == cs@.len(),
            cs@ == visible_pairs(stv.decks),
            stv == state@,
            state@.wf(),
            done == purchase_candidates(stv).take(i as int),
            r@.map_values(f_snd()) == done.filter(f_legal(stv)),
            forall|j: int|
                0 <= j < r@.len() ==> stv.action_legal(#[trigger] r@[j].1) && r@[j].0@
                    == stv.apply_action(r@[j].1) && r@[j].0@.wf(),
        decreases n1 - i,
    {
        let deck = cs[i].0;
        let card = cs[i].1;
        let a = Action::Purchase { deck, card };
        proof {
            assert(purchase_candidates(stv)[i as int] == a);
        }
        try_move(state, a, &mut r);
        proof {
            lemma_filter_push(done, a, f_legal(stv));
            assert(purchase_candidates(stv).take(i + 1) =~= done.push(a));
            done = done.push(a);
            assert(r@.map_values(f_snd()) =~= done.filter(f_legal(stv)));
        }
        i = i + 1;
    }
    proof {
        assert(purchase_candidates(stv).take(n1 as int) =~= purchase_candidates(stv));
    }

    let t = state.turn;
    let n2 = state.players[t].reserved.len();
    let mut i: usize = 0;
    proof {
        assert(reserved_candidates(stv).take(0) =~= Seq::<Action>::empty());
    }
    while i < n2
        invariant
            i <= n2,
            t == stv.turn,
            n2 == stv.acting().reserved.len(),
            stv == state@,
            state@.wf(),
            done == purchase_candidates(stv) + reserved_candidates(stv).take(i as int),
            r@.map_values(f_snd()) == done.filter(f_legal(stv)),
            forall|j: int|
                0 <= j < r@.len() ==> stv.action_legal(#[trigger] r@[j].1) && r@[j].0@
                    == stv.apply_action(r@[j].1) && r@[j].0@.wf(),
        decreases n2 - i,
    {
        let a = Action::PurchaseReserved { index: i };
        proof {
            assert(reserved_candidates(stv)[i as int] == a);
            assert(purchase_candidates(stv) + reserved_candidates(stv).take(i + 1) =~= done.push(
                a,
            ));
        }
        try_move(state, a, &mut r);
        proof {
            lemma_filter_push(done, a, f_legal(stv));
            done = done.push(a);
            assert(r@.map_values(f_snd()) =~= done.filter(f_legal(stv)));
        }
        i = i + 1;
    }
    proof {
        assert(reserved_candidates(stv).take(n2 as int) =~= reserved_candidates(stv));
        assert(done == purchase_candidates(stv) + reserved_candidates(stv));
    }

    let ts = state.pick_three_iter();
    let n3 = ts.len();
    let mut i: usize = 0;
    while i < n3
        invariant
            i <= n3,
            n3 == ts@.len(),
            ts@ == pick_three_candidates(),
            stv == state@,
            state@.wf(),
            done == purchase_candidates(stv) + reserved_candidates(stv)
                + pick_three_actions().take(i as int),
            r@.map_values(f_snd()) == done.filter(f_legal(stv)),
            forall|j: int|
                0 <= j < r@.len() ==> stv.action_legal(#[trigger] r@[j].1) && r@[j].0@
                    == stv.apply_action(r@[j].1) && r@[j].0@.wf(),
        decreases n3 - i,
    {
        let trip = ts[i];
        let a = Action::PickThree { one: trip.0, two: trip.1, three: trip.2 };
        proof {
            assert(pick_three_actions()[i as int] == a);
            assert(purchase_candidates(stv) + reserved_candidates(stv)
                + pick_three_actions().take(i + 1) =~= done.push(a));
        }
        try_move(state, a, &mut r);
        proof {
            lemma_filter_push(done, a, f_legal(stv));
            done = done.push(a);
            assert(r@.map_values(f_snd()) =~= done.filter(f_legal(stv)));
        }
        i = i + 1;
    }
    proof {
        assert(pick_three_actions().take(n3 as int) =~= pick_three_actions());
    }

    let ks = state.pick_two_iter();
    let n4 = ks.len();
    let mut i: usize = 0;
    while i < n4
        invariant
            i <= n4,
            n4 == ks@.len(),
            ks@ == pick_two_kinds(stv.coins),
            stv == state@,
            state@.wf(),
            done == purchase_candidates(stv) + reserved_candidates(stv) + pick_three_actions()
                + pick_two_actions(stv).take(i as int),
            r@.map_values(f_snd()) == done.filter(f_legal(stv)),
            forall|j: int|
                0 <= j < r@.len() ==> stv.action_legal(#[trigger] r@[j].1) && r@[j].0@
                    == stv.apply_action(r@[j].1) && r@[j].0@.wf(),
        decreases n4 - i,
    {
        let a = Action::PickTwo { color: ks[i] };
        proof {
            assert(pick_two_actions(stv)[i as int] == a);
            assert(purchase_candidates(stv) + reserved_candidates(stv) + pick_three_actions()
                + pick_two_actions(stv).take(i + 1) =~= done.push(a));
        }
        try_move(state, a, &mut r);
        proof {
            lemma_filter_push(done, a, f_legal(stv));
            done = done.push(a);
            assert(r@.map_values(f_snd()) =~= done.filter(f_legal(stv)));
        }
        i = i + 1;
    }
    proof {
        assert(pick_two_actions(stv).take(n4 as int) =~= pick_two_actions(stv));
    }

    let mut i: usize = 0;
    while i < n1
        invariant
            i <= n1,
            n1 == cs@.len(),
            cs@ == visible_pairs(stv.decks),
            stv == state@,
            state@.wf(),
            done == purchase_candidates(stv) + reserved_candidates(stv) + pick_three_actions()
                + pick_two_actions(stv) + reserve_candidates(stv).take(i as int),
            r@.map_values(f_snd()) == done.filter(f_legal(stv)),
            forall|j: int|
                0 <= j < r@.len() ==> stv.action_legal(#[trigger] r@[j].1) && r@[j].0@
                    == stv.apply_action(r@[j].1) && r@[j].0@.wf(),
        decreases n1 - i,
    {
        let deck = cs[i].0;
        let card = cs[i].1;
        let a = Action::Reserve { deck, card };
        proof {
            assert(reserve_candidates(stv)[i as int] == a);
            assert(purchase_candidates(stv) + reserved_candidates(stv) + pick_three_actions()
                + pick_two_actions(stv) + reserve_candidates(stv).take(i + 1) =~= done.push(a));
        }
        try_move(state, a, &mut r);
        proof {
            lemma_filter_push(done, a, f_legal(stv));
            done = done.push(a);
            assert(r@.map_values(f_snd()) =~= done.filter(f_legal(stv)));
        }
        i = i + 1;
    }
    proof {
        assert(reserve_candidates(stv).take(n1 as int) =~= reserve_candidates(stv));
        assert(done == move_candidates(stv));
    }
    r
}

/// Two to the power `e`.
pub open spec fn two_pow(e: nat) -> int
    decreases e,
{
    if e == 0 {
        1
    } else {
        2 * two_pow((e - 1) as nat)
    }
}

/// Powers of two are positive.
proof fn lemma_two_pow_pos(e: nat)
    ensures
        two_pow(e) >= 1,
    decreases e,
{
    if e > 0 {
        lemma_two_pow_pos((e - 1) as nat);
    }
}

/// Powers of two grow with the exponent.
proof fn lemma_two_pow_mono(a: nat, b: nat)
    requires
        a <= b,
    ensures
        two_pow(a) <= two_pow(b),
    decreases b,
{
    lemma_two_pow_pos(a);
    if a < b {
        lemma_two_pow_mono(a, (b - 1) as nat);
        lemma_two_pow_pos((b - 1) as nat);
    }
}

/// Computes two to the power `e`.
fn pow2_i32(e: u8) -> (r: i32)
    requires
        e <= 27,
    ensures
        r as int == two_pow(e as nat),
{
    proof {
        assert(two_pow(27) == 134217728) by {
            reveal_with_fuel(two_pow, 28);
        }
    }
    let mut r: i32 = 1;
    let mut i: u8 = 0;
    while i < e
        invariant
            i <= e,
            e <= 27,
            r as int == two_pow(i as nat),
        decreases e - i,
    {
        proof {
            assert(two_pow(27) == 134217728) by {
                reveal_with_fuel(two_pow, 28);
            }
            lemma_two_pow_mono((i + 1) as nat, 27);
            lemma_two_pow_pos(i as nat);
            assert(2 * two_pow(i as nat) == two_pow((i + 1) as nat));
            assert(r * 2 <= 134217728);
        }
        r = r * 2;
        i = i + 1;
    }
    r
}

/// How far `p`'s permanent production still is from affording nobel `n`,
/// summed over the kinds.
pub open spec fn nobel_gap(p: PlayerV, n: Nobel) -> int {
    max(n.cost.cnt(ResourceKind::Red) - p.immortal.cnt(ResourceKind::Red), 0) + max(
        n.cost.cnt(ResourceKind::Blue) - p.immortal.cnt(ResourceKind::Blue),
        0,
    ) + max(n.cost.cnt(ResourceKind::Green) - p.immortal.cnt(ResourceKind::Green), 0) + max(
        n.cost.cnt(ResourceKind::White) - p.immortal.cnt(ResourceKind::White),
        0,
    ) + max(n.cost.cnt(ResourceKind::Black) - p.immortal.cnt(ResourceKind::Black), 0)
}

/// The nobel attraction bonus: a halving ladder that grows sharply as the
/// distance to affording the nobel shrinks.
pub open spec fn gap_bonus(d: int) -> int {
    if d <= 0 {
        1000
    } else if d == 1 {
        500
    } else if d == 2 {
        250
    } else if d == 3 {
        125
    } else if d == 4 {
        62
    } else if d == 5 {
        31
    } else if d == 6 {
        15
    } else if d == 7 {
        7
    } else if d == 8 {
        3
    } else if d == 9 {
        1
    } else {
        0
    }
}

/// The bonus nobel `n` contributes to `p`'s evaluation.
pub open spec fn f_nobel_bonus(p: PlayerV) -> spec_fn(Nobel) -> int {
    |n: Nobel| gap_bonus(nobel_gap(p, n))
}

/// One player's static evaluation: coins weigh a little, permanent
/// production a lot, the score exponentially, plus the nobel bonuses.
pub open spec fn player_heuristic_spec(st: StateV, p: PlayerV) -> int {
    p.mortal.total() * 3 + p.wilds * 4 + p.immortal.total() * 100 + two_pow(p.score as nat) * 10
        + sum_by(st.nobels, f_nobel_bonus(p))
}

/// The static evaluation of a non-terminal state from seat 0's
/// perspective: seat 0's value minus seat 1's.
pub open spec fn heuristic_spec(st: StateV) -> int {
    player_heuristic_spec(st, st.players[0]) - player_heuristic_spec(st, st.players[1])
}

/// Computes one player's static evaluation.
pub fn player_heuristic(state: &State, player: &Player) -> (r: i32)
    requires
        player@.score <= 20,
        player@.mortal.total() <= 5 * COIN_BUDGET,
        player@.immortal.total() <= 5 * COIN_BUDGET,
        player@.wilds <= COIN_BUDGET,
        state@.nobels.len() <= MAX_NOBELS,
        forall|i: int|
            0 <= i < state@.nobels.len() ==> (#[trigger] state@.nobels[i]).cost.total()
                <= COIN_BUDGET,
    ensures
        r as int == player_heuristic_spec(state@, player@),
        0 <= r <= 700_000_000,
{
    let m = player.mortal.sum();
    let im = player.immortal.sum();
    let w = player.wilds as i32;
    let tp = pow2_i32(player.score);
    proof {
        lemma_two_pow_mono(player@.score as nat, 20);
        assert(two_pow(20) == 1048576) by {
            reveal_with_fuel(two_pow, 21);
        }
    }
    let nn = state.nobels.len();
    let mut nb: i32 = 0;
    let mut i: usize = 0;
    proof {
        assert(state@.nobels.take(0) =~= Seq::<Nobel>::empty());
    }
    while i < nn
        invariant
            i <= nn,
            nn == state@.nobels.len(),
            nn <= MAX_NOBELS,
            nb as int == sum_by(state@.nobels.take(i as int), f_nobel_bonus(player@)),
            0 <= nb <= 1000 * i,
            forall|l: int|
                0 <= l < state@.nobels.len() ==> (#[trigger] state@.nobels[l]).cost.total()
                    <= COIN_BUDGET,
            player@ == player.view(),
        decreases nn - i,
    {
        let n = &state.nobels[i];
        proof {
            assert(state@.nobels[i as int].cost.total() <= COIN_BUDGET);
        }
        let mut g: usize = 0;
        let cv = n.cost.get(ResourceKind::Red);
        let iv = player.immortal.get(ResourceKind::Red);
        if cv > iv {
            g = g + (cv - iv);
        }
        let cv = n.cost.get(ResourceKind::Blue);
        let iv = player.immortal.get(ResourceKind::Blue);
        if cv > iv {
            g = g + (cv - iv);
        }
        let cv = n.cost.get(ResourceKind::Green);
        let iv = player.immortal.get(ResourceKind::Green);
        if cv > iv {
            g = g + (cv - iv);
        }
        let cv = n.cost.get(ResourceKind::White);
        let iv = player.immortal.get(ResourceKind::White);
        if cv > iv {
            g = g + (cv - iv);
        }
        let cv = n.cost.get(ResourceKind::Black);
        let iv = player.immortal.get(ResourceKind::Black);
        if cv > iv {
            g = g + (cv - iv);
        }
        proof {
            assert(g as int == nobel_gap(player@, state@.nobels[i as int]));
        }
        let b: i32 = if g == 0 {
            1000
        } else if g == 1 {
            500
        } else if g == 2 {
            250
        } else if g == 3 {
            125
        } else if g == 4 {
            62
        } else if g == 5 {
            31
        } else if g == 6 {
            15
        } else if g == 7 {
            7
        } else if g == 8 {
            3
        } else if g == 9 {
            1
        } else {
            0
        };
        proof {
            assert(state@.nobels.take(i + 1) =~= state@.nobels.take(i as int).push(
                state@.nobels[i as int],
            ));
            lemma_sum_by_push(state@.nobels.take(i as int), state@.nobels[i as int], f_nobel_bonus(player@));
        }
        nb = nb + b;
        i = i + 1;
    }
    proof {
        assert(state@.nobels.take(nn as int) =~= state@.nobels);
        lemma_two_pow_mono(player@.score as nat, 20);
        assert(two_pow(20) == 1048576) by {
            reveal_with_fuel(two_pow, 21);
        }
        lemma_two_pow_pos(player@.score as nat);
        assert(nb <= 100_000);
    }
    m * 3 + w * 4 + im * 100 + tp * 10 + nb
}

/// Computes the static evaluation from seat 0's perspective.  Its
/// magnitude stays strictly below the terminal sentinel, so a decided
/// game always dominates any heuristic value.
pub fn heuristic(state: &State) -> (r: i32)
    requires
        state@.wf(),
        state@.players.len() >= 2,
        state@.players[0].score <= 20,
        state@.players[1].score <= 20,
    ensures
        r as int == heuristic_spec(state@),
        -1_000_000_000 < r < 1_000_000_000,
{
    proof {
        lemma_player_in_bounds(state@, 0);
        lemma_player_in_bounds(state@, 1);
        assert(state@.players[0].mortal.cnt(ResourceKind::Red) <= COIN_BUDGET);
        assert(state@.players[0].mortal.cnt(ResourceKind::Blue) <= COIN_BUDGET);
        assert(state@.players[0].mortal.cnt(ResourceKind::Green) <= COIN_BUDGET);
        assert(state@.players[0].mortal.cnt(ResourceKind::White) <= COIN_BUDGET);
        assert(state@.players[0].mortal.cnt(ResourceKind::Black) <= COIN_BUDGET);
        assert(state@.players[1].mortal.cnt(ResourceKind::Red) <= COIN_BUDGET);
        assert(state@.players[1].mortal.cnt(ResourceKind::Blue) <= COIN_BUDGET);
        assert(state@.players[1].mortal.cnt(ResourceKind::Green) <= COIN_BUDGET);
        assert(state@.players[1].mortal.cnt(ResourceKind::White) <= COIN_BUDGET);
        assert(state@.players[1].mortal.cnt(ResourceKind::Black) <= COIN_BUDGET);
        assert(state@.players[0].immortal.cnt(ResourceKind::Red) <= COIN_BUDGET);
        assert(state@.players[0].immortal.cnt(ResourceKind::Blue) <= COIN_BUDGET);
        assert(state@.players[0].immortal.cnt(ResourceKind::Green) <= COIN_BUDGET);
        assert(state@.players[0].immortal.cnt(ResourceKind::White) <= COIN_BUDGET);
        assert(state@.players[0].immortal.cnt(ResourceKind::Black) <= COIN_BUDGET);
        assert(state@.players[1].immortal.cnt(ResourceKind::Red) <= COIN_BUDGET);
        assert(state@.players[1].immortal.cnt(ResourceKind::Blue) <= COIN_BUDGET);
        assert(state@.players[1].immortal.cnt(ResourceKind::Green) <= COIN_BUDGET);
        assert(state@.players[1].immortal.cnt(ResourceKind::White) <= COIN_BUDGET);
        assert(state@.players[1].immortal.cnt(ResourceKind::Black) <= COIN_BUDGET);
    }
    let a = player_heuristic(state, &state.players[0]);
    let b = player_heuristic(state, &state.players[1]);
    a - b
}

/// Termination measure of the negamax recursion: the depth budget is
/// consumed on seat 0's plies and the turn pointer walks to the next
/// seat-0 ply in between.
pub open spec fn search_measure(depth: int, turn: int, n: int) -> int {
    if turn == 0 && depth <= 0 {
        0
    } else {
        n * (max(depth, 0) + 1) + (n - turn)
    }
}

/// One search ply strictly shrinks the measure and keeps it at zero or
/// above.
proof fn lemma_measure_step(depth: int, turn: int, n: int)
    requires
        1 <= n,
        0 <= turn < n,
        !(turn == 0 && depth <= 0),
    ensures
        ({
            let nd = if depth > 0 {
                depth - 1
            } else {
                depth
            };
            let nt = if turn + 1 == n {
                0
            } else {
                turn + 1
            };
            0 <= search_measure(nd, nt, n) < search_measure(depth, turn, n)
        }),
{
    let nd = if depth > 0 {
        depth - 1
    } else {
        depth
    };
    let nt = if turn + 1 == n {
        0
    } else {
        turn + 1
    };
    if depth > 0 {
        assert(n * (depth + 1) == n * depth + n) by (nonlinear_arith);
        assert(n * depth >= n) by (nonlinear_arith)
            requires
                n >= 1,
                depth >= 1,
        ;
    } else {
        assert(n * (max(depth, 0) + 1) == n) by (nonlinear_arith)
            requires
                depth <= 0,
        ;
    }
}

/// The search context in which the negamax value is defined: the turn
/// pointer addresses a player and the seat count fits the index type.
pub open spec fn nm_ctx(st: StateV) -> bool {
    st.turn < st.players.len() && st.players.len() <= usize::MAX
}

/// An exhausted depth budget informs no further decision, so it stops
/// counting down instead of sinking without bound.
pub open spec fn next_depth(depth: int) -> int {
    if depth > 0 {
        depth - 1
    } else {
        depth
    }
}

/// The exact negamax value of a position under a depth budget: the
/// sentinel of a decided game, the heuristic at the horizon, and
/// otherwise the best negated child value over the legal moves.
pub open spec fn negamax(st: StateV, depth: int) -> int
    decreases search_measure(depth, st.turn as int, st.players.len() as int), 1int, 0int,
        when nm_ctx(st)
{
    if st.finished() {
        if st.is_winner(0) {
            1_000_000_000
        } else {
            -1_000_000_000
        }
    } else if st.turn == 0 && depth <= 0 {
        heuristic_spec(st)
    } else {
        best_of(st, legal_moves(st), depth)
    }
}

/// The best negated child value over `acts` from `st`, or the floor
/// `-1_000_000_001` when `acts` is empty.
pub open spec fn best_of(st: StateV, acts: Seq<Action>, depth: int) -> int
    decreases search_measure(depth, st.turn as int, st.players.len() as int), 0int, acts.len(),
        when nm_ctx(st) && !(st.turn == 0 && depth <= 0)
        via best_of_decreases
{
    if acts.len() == 0 {
        -1_000_000_001
    } else {
        let v = -negamax(st.apply_action(acts[0]), next_depth(depth));
        let rest = best_of(st, acts.skip(1), depth);
        if v >= rest {
            v
        } else {
            rest
        }
    }
}

#[via_fn]
proof fn best_of_decreases(st: StateV, acts: Seq<Action>, depth: int) {
    if acts.len() > 0 {
        let child = st.apply_action(acts[0]);
        assert(child.turn == st.next_turn());
        assert(child.players.len() == st.players.len());
        lemma_measure_step(depth, st.turn as int, st.players.len() as int);
    }
}

/// The value a move contributes to its position: the negated negamax
/// value of the position it leads to.
pub open spec fn move_value(st: StateV, a: Action, depth: int) -> int {
    -negamax(st.apply_action(a), next_depth(depth))
}

/// `a` is the first legal move in generation order attaining the best
/// value: every earlier move is strictly worse, so ties break towards
/// the front, as the strict-greater comparison of the search demands.
pub open spec fn first_best_action(st: StateV, depth: int, a: Action) -> bool {
    let acts = legal_moves(st);
    exists|j: int|
        0 <= j < acts.len() && acts[j] == a && #[trigger] move_value(st, acts[j], depth)
            == best_of(st, acts, depth) && (forall|l: int|
            0 <= l < j ==> #[trigger] move_value(st, acts[l], depth) < best_of(st, acts, depth))
}

/// One player's static evaluation stays within the sentinel's magnitude.
proof fn lemma_player_heuristic_spec_bounds(st: StateV, i: int)
    requires
        st.wf(),
        0 <= i < st.players.len(),
        st.players[i].score <= 20,
    ensures
        0 <= player_heuristic_spec(st, st.players[i]) <= 700_000_000,
{
    let p = st.players[i];
    lemma_player_in_bounds(st, i);
    assert(p.mortal.cnt(ResourceKind::Red) <= COIN_BUDGET);
    assert(p.mortal.cnt(ResourceKind::Blue) <= COIN_BUDGET);
    assert(p.mortal.cnt(ResourceKind::Green) <= COIN_BUDGET);
    assert(p.mortal.cnt(ResourceKind::White) <= COIN_BUDGET);
    assert(p.mortal.cnt(ResourceKind::Black) <= COIN_BUDGET);
    assert(p.immortal.cnt(ResourceKind::Red) <= COIN_BUDGET);
    assert(p.immortal.cnt(ResourceKind::Blue) <= COIN_BUDGET);
    assert(p.immortal.cnt(ResourceKind::Green) <= COIN_BUDGET);
    assert(p.immortal.cnt(ResourceKind::White) <= COIN_BUDGET);
    assert(p.immortal.cnt(ResourceKind::Black) <= COIN_BUDGET);
    lemma_two_pow_mono(p.score as nat, 20);
    lemma_two_pow_pos(p.score as nat);
    assert(two_pow(20) == 1048576) by {
        reveal_with_fuel(two_pow, 21);
    }
    assert(forall|j: int|
        0 <= j < st.nobels.len() ==> #[trigger] f_nobel_bonus(p)(st.nobels[j]) <= 1000);
    lemma_sum_by_ub(st.nobels, f_nobel_bonus(p), 1000);
    assert(forall|j: int|
        0 <= j < st.nobels.len() ==> #[trigger] f_nobel_bonus(p)(st.nobels[j]) >= 0);
    lemma_sum_by_nonneg(st.nobels, f_nobel_bonus(p));
    assert(1000 * st.nobels.len() <= 1000 * MAX_NOBELS) by (nonlinear_arith)
        requires
            st.nobels.len() <= MAX_NOBELS,
    ;
}

/// The static evaluation's magnitude stays strictly below the terminal
/// sentinel.
proof fn lemma_heuristic_spec_bounds(st: StateV)
    requires
        st.wf(),
        st.players.len() >= 2,
        st.players[0].score <= 20,
        st.players[1].score <= 20,
    ensures
        -1_000_000_000 < heuristic_spec(st) < 1_000_000_000,
{
    lemma_player_heuristic_spec_bounds(st, 0);
    lemma_player_heuristic_spec_bounds(st, 1);
}

/// The negamax value stays within the search's score range.
proof fn lemma_negamax_bounds(st: StateV, depth: int)
    requires
        st.wf(),
        st.players.len() >= 2,
    ensures
        -1_000_000_001 <= negamax(st, depth) <= 1_000_000_001,
    decreases search_measure(depth, st.turn as int, st.players.len() as int), 1int, 0int,
{
    if st.finished() {
    } else if st.turn == 0 && depth <= 0 {
        assert(!(st.players[0].score > SCORE_GOAL));
        assert(!(st.players[1].score > SCORE_GOAL));
        lemma_heuristic_spec_bounds(st);
    } else {
        assert forall|j: int|
            0 <= j < legal_moves(st).len() implies st.action_legal(
            #[trigger] legal_moves(st)[j],
        ) by {
            move_candidates(st).lemma_filter_pred(f_legal(st), j);
        }
        lemma_best_of_bounds(st, legal_moves(st), depth);
    }
}

/// Every best-of value over legal moves stays within the score range.
proof fn lemma_best_of_bounds(st: StateV, acts: Seq<Action>, depth: int)
    requires
        st.wf(),
        st.players.len() >= 2,
        !(st.turn == 0 && depth <= 0),
        forall|j: int| 0 <= j < acts.len() ==> st.action_legal(#[trigger] acts[j]),
    ensures
        -1_000_000_001 <= best_of(st, acts, depth) <= 1_000_000_001,
    decreases search_measure(depth, st.turn as int, st.players.len() as int), 0int, acts.len(),
{
    if acts.len() > 0 {
        assert(st.action_legal(acts[0]));
        lemma_run_conserves(st, acts[0]);
        let child = st.apply_action(acts[0]);
        assert(child.turn == st.next_turn());
        assert(child.players.len() == st.players.len());
        lemma_measure_step(depth, st.turn as int, st.players.len() as int);
        lemma_negamax_bounds(child, next_depth(depth));
        assert(forall|j: int|
            0 <= j < acts.skip(1).len() ==> st.action_legal(#[trigger] acts.skip(1)[j]));
        lemma_best_of_bounds(st, acts.skip(1), depth);
    }
}

/// Appending a move to the list takes the better of the old best and the
/// new move's value.
proof fn lemma_best_of_snoc(st: StateV, acts: Seq<Action>, a: Action, depth: int)
    requires
        nm_ctx(st),
        !(st.turn == 0 && depth <= 0),
    ensures
        best_of(st, acts.push(a), depth) == (if move_value(st, a, depth) >= best_of(
            st,
            acts,
            depth,
        ) {
            move_value(st, a, depth)
        } else {
            best_of(st, acts, depth)
        }),
    decreases acts.len(),
{
    let mv_a = move_value(st, a, depth);
    if acts.len() == 0 {
        assert(acts.push(a)[0] == a);
        assert(acts.push(a).skip(1) =~= Seq::<Action>::empty());
        assert(best_of(st, acts, depth) == -1_000_000_001);
        assert(best_of(st, Seq::<Action>::empty(), depth) == -1_000_000_001);
        assert(best_of(st, acts.push(a), depth) == (if mv_a >= -1_000_000_001 {
            mv_a
        } else {
            -1_000_000_001
        }));
    } else {
        assert(acts.push(a)[0] == acts[0]);
        assert(acts.push(a).skip(1) =~= acts.skip(1).push(a));
        lemma_best_of_snoc(st, acts.skip(1), a, depth);
        let v0 = move_value(st, acts[0], depth);
        let rest = best_of(st, acts.skip(1), depth);
        assert(best_of(st, acts, depth) == (if v0 >= rest {
            v0
        } else {
            rest
        }));
        assert(best_of(st, acts.skip(1).push(a), depth) == (if mv_a >= rest {
            mv_a
        } else {
            rest
        }));
        assert(best_of(st, acts.push(a), depth) == (if v0 >= best_of(
            st,
            acts.skip(1).push(a),
            depth,
        ) {
            v0
        } else {
            best_of(st, acts.skip(1).push(a), depth)
        }));
    }
}

/// A prefix's best never exceeds the whole list's best.
proof fn lemma_best_of_take_le(st: StateV, acts: Seq<Action>, i: int, depth: int)
    requires
        nm_ctx(st),
        !(st.turn == 0 && depth <= 0),
        0 <= i <= acts.len(),
    ensures
        best_of(st, acts.take(i), depth) <= best_of(st, acts, depth),
    decreases acts.len() - i,
{
    if i == acts.len() {
        assert(acts.take(i) =~= acts);
    } else {
        assert(acts.take(i + 1) =~= acts.take(i).push(acts[i]));
        lemma_best_of_snoc(st, acts.take(i), acts[i], depth);
        lemma_best_of_take_le(st, acts, i + 1, depth);
    }
}

/// Each move's value is at most the list's best.
proof fn lemma_best_of_elem_le(st: StateV, acts: Seq<Action>, l: int, depth: int)
    requires
        nm_ctx(st),
        !(st.turn == 0 && depth <= 0),
        0 <= l < acts.len(),
    ensures
        move_value(st, acts[l], depth) <= best_of(st, acts, depth),
    decreases l,
{
    if l > 0 {
        assert(acts.skip(1)[l - 1] == acts[l]);
        lemma_best_of_elem_le(st, acts.skip(1), l - 1, depth);
    }
}

/// Negamax with alpha-beta pruning.  Returns a score from the current
/// mover's perspective together with the action achieving it.  A decided
/// game returns the sentinel signed by whether seat 0 won; at the
/// horizon the heuristic decides; elsewhere the result is window-exact:
/// a true value inside `(alpha, beta)` is returned exactly, together
/// with the first action in generation order attaining it (strict
/// improvement only, so earlier moves win ties), while values at or
/// beyond a window edge are bounded on the right side of that edge.
/// The returned action is always legal, so a searcher never emits a
/// rejected move.
pub fn max_score(state: State, depth: i32, alpha: i32, beta: i32) -> (r: (i32, Action))
    requires
        state@.wf(),
        state@.players.len() >= 2,
        -1_000_000 <= depth <= 1_000_000,
        -2_000_000_001 <= alpha <= 2_000_000_001,
        -2_000_000_001 <= beta <= 2_000_000_001,
        alpha < beta,
    ensures
        -1_000_000_001 <= r.0 <= 1_000_000_001,
        state@.action_legal(r.1),
        state@.finished() ==> r.1 == Action::Skip && (r.0 == 1_000_000_000 || r.0
            == -1_000_000_000) && (r.0 == 1_000_000_000 <==> state@.is_winner(0)),
        !state@.finished() && state@.turn == 0 && depth <= 0 ==> r.0 as int == heuristic_spec(
            state@,
        ) && r.1 == Action::Skip,
        negamax(state@, depth as int) <= alpha ==> r.0 <= alpha,
        negamax(state@, depth as int) >= beta ==> r.0 >= beta,
        alpha < negamax(state@, depth as int) < beta ==> r.0 as int == negamax(
            state@,
            depth as int,
        ),
        alpha < negamax(state@, depth as int) < beta && !state@.finished() && !(state@.turn == 0
            && depth <= 0) ==> (negamax(state@, depth as int) == -1_000_000_001 ==> r.1
            == Action::Skip) && (negamax(state@, depth as int) > -1_000_000_001
            ==> first_best_action(state@, depth as int, r.1)),
        !state@.finished() && !(state@.turn == 0 && depth <= 0) && legal_moves(state@).len() == 0
            ==> r.0 == -1_000_000_001 && r.1 == Action::Skip,
    decreases search_measure(depth as int, state@.turn as int, state@.players.len() as int),
{
    if state.is_finished() {
        let w = state.winner();
        if w == 0 {
            proof {
                assert(negamax(state@, depth as int) == 1_000_000_000);
            }
            return (1_000_000_000, Action::Skip);
        } else {
            proof {
                assert(!state@.is_winner(0)) by {
                    assert(state@.is_winner(w as int));
                    assert(state@.players[0].score < state@.players[w as int].score);
                }
                assert(negamax(state@, depth as int) == -1_000_000_000);
            }
            return (-1_000_000_000, Action::Skip);
        }
    }
    if state.turn == 0 && depth <= 0 {
        proof {
            assert(!(state@.players[0].score > SCORE_GOAL));
            assert(!(state@.players[1].score > SCORE_GOAL));
        }
        let h = heuristic(&state);
        proof {
            assert(negamax(state@, depth as int) == heuristic_spec(state@));
        }
        return (h, Action::Skip);
    }
    let ghost acts = legal_moves(state@);
    let mut mv = moves(&state);
    proof {
        assert(mv@.map_values(f_snd()).len() == mv@.len());
        assert(forall|j: int|
            0 <= j < mv@.len() ==> #[trigger] mv@[j].1 == mv@.map_values(f_snd())[j]);
        assert(nm_ctx(state@));
        assert(acts.take(0) =~= Seq::<Action>::empty());
        assert(best_of(state@, acts.take(0), depth as int) == -1_000_000_001);
    }
    let mut best: (i32, Action) = (-1_000_000_001, Action::Skip);
    let mut cur_alpha = alpha;
    let mut pruned = false;
    let ghost mut i: int = 0;
    while mv.len() > 0 && !pruned
        invariant
            state@.wf(),
            state@.players.len() >= 2,
            -1_000_000 <= depth <= 1_000_000,
            !(state@.turn == 0 && depth <= 0),
            !state@.finished(),
            -2_000_000_001 <= alpha <= 2_000_000_001,
            -2_000_000_001 <= beta <= 2_000_000_001,
            alpha < beta,
            acts == legal_moves(state@),
            0 <= i <= acts.len(),
            mv@.len() == acts.len() - i,
            forall|j: int|
                0 <= j < mv@.len() ==> #[trigger] mv@[j].1 == acts[i + j]
                    && state@.action_legal(acts[i + j]) && mv@[j].0@ == state@.apply_action(
                    acts[i + j],
                ) && mv@[j].0@.wf(),
            -1_000_000_001 <= best.0 <= 1_000_000_001,
            state@.action_legal(best.1),
            alpha <= cur_alpha <= 2_000_000_001,
            !pruned ==> cur_alpha < beta,
            !pruned ==> cur_alpha as int <= (if best.0 > alpha {
                best.0 as int
            } else {
                alpha as int
            }),
            best.0 == -1_000_000_001 || cur_alpha >= best.0,
            best.0 == -1_000_000_001 ==> best.1 == Action::Skip && cur_alpha == alpha,
            !pruned ==> best.0 as int <= (if best_of(state@, acts.take(i), depth as int)
                > alpha {
                best_of(state@, acts.take(i), depth as int)
            } else {
                alpha as int
            }),
            !pruned ==> (best_of(state@, acts.take(i), depth as int) >= beta ==> best.0 >= beta),
            !pruned ==> (alpha < best_of(state@, acts.take(i), depth as int) < beta ==> best.0
                as int == best_of(state@, acts.take(i), depth as int)),
            !pruned ==> (alpha < best.0 < beta && best.0 > -1_000_000_001 ==> exists|j: int|
                0 <= j < i && #[trigger] move_value(state@, acts[j], depth as int) == best.0
                    && best.1 == acts[j] && (forall|l: int|
                    0 <= l < j ==> #[trigger] move_value(state@, acts[l], depth as int)
                        < best.0)),
            pruned ==> best.0 >= beta && best_of(state@, acts.take(i), depth as int) >= beta,
            i == 0 ==> best.0 == -1_000_000_001 && best.1 == Action::Skip && !pruned,
        decreases 2 * mv@.len() + (if pruned {
            0int
        } else {
            1int
        }),
    {
        let ghost u_pre = best_of(state@, acts.take(i), depth as int);
        let ghost b0 = best.0;
        let ghost a0 = cur_alpha;
        let pair = mv.remove(0);
        let st = pair.0;
        let ac = pair.1;
        proof {
            assert(ac == acts[i]);
            assert(st@ == state@.apply_action(acts[i]));
            lemma_run_conserves(state@, ac);
            assert(st@.turn == state@.next_turn());
            assert(st@.players.len() == state@.players.len());
            lemma_measure_step(depth as int, state@.turn as int, state@.players.len() as int);
        }
        let nd = if depth > 0 {
            depth - 1
        } else {
            depth
        };
        let child = max_score(st, nd, -beta, -cur_alpha);
        let score = -child.0;
        let ghost u = move_value(state@, acts[i], depth as int);
        proof {
            assert(nd as int == next_depth(depth as int));
            assert(u == -negamax(st@, nd as int));
            lemma_negamax_bounds(st@, nd as int);
            assert(u >= beta ==> score >= beta);
            assert(u <= cur_alpha ==> score <= cur_alpha);
            assert(cur_alpha < u < beta ==> score as int == u);
            assert(acts.take(i + 1) =~= acts.take(i).push(acts[i]));
            lemma_best_of_snoc(state@, acts.take(i), acts[i], depth as int);
            assert(best_of(state@, acts.take(i + 1), depth as int) == (if u >= u_pre {
                u
            } else {
                u_pre
            }));
        }
        if best.0 < score {
            best = (score, ac);
            if cur_alpha < score {
                cur_alpha = score;
            }
            if score >= beta {
                pruned = true;
            }
        }
        proof {
            let u_new = best_of(state@, acts.take(i + 1), depth as int);
            if !pruned {
                assert(best.0 as int <= (if u_new > alpha {
                    u_new
                } else {
                    alpha as int
                })) by {
                    if best.0 > b0 {
                        if u <= a0 {
                            assert(score <= a0);
                        }
                    }
                }
                assert(u_new >= beta ==> best.0 >= beta) by {
                    if u_new >= beta {
                        if u >= beta {
                            assert(score >= beta);
                            assert(score <= b0 || pruned);
                        } else {
                            assert(u_pre >= beta);
                        }
                    }
                }
                assert(alpha < u_new < beta ==> best.0 as int == u_new) by {
                    if alpha < u_new < beta {
                        assert(u_pre < beta && u < beta) by {
                            if u_pre >= beta {
                                assert(b0 >= beta);
                                assert(best.0 >= beta);
                            }
                            if u >= beta {
                                assert(score >= beta);
                                assert(score <= b0);
                                assert(b0 >= beta);
                                assert(best.0 >= beta);
                            }
                        }
                        if u <= a0 {
                            assert(score <= a0);
                            assert(u_new == u_pre || u_new == u);
                            if u_new == u && u_pre < u {
                                assert(u > alpha);
                                assert(a0 as int <= (if b0 > alpha {
                                    b0 as int
                                } else {
                                    alpha as int
                                }));
                                assert(b0 as int <= (if u_pre > alpha {
                                    u_pre
                                } else {
                                    alpha as int
                                }));
                                assert(false);
                            }
                        } else {
                            assert(score as int == u);
                        }
                    }
                }
            }
            if pruned {
                assert(best.0 >= beta);
                assert(u_new >= beta) by {
                    assert(score >= beta);
                    assert(score as int <= (if u > cur_alpha {
                        u
                    } else {
                        cur_alpha as int
                    })) by {
                        if u <= a0 {
                            assert(score <= a0);
                        } else if u < beta {
                            assert(score as int == u);
                        } else {
                            assert(u >= beta);
                        }
                    }
                    assert(u >= beta);
                }
            }
            if !pruned && alpha < best.0 < beta && best.0 > -1_000_000_001 {
                if best.0 > b0 {
                    assert(u > a0 && score as int == u) by {
                        if u <= a0 {
                            assert(score <= a0);
                            assert(a0 as int <= (if b0 > alpha {
                                b0 as int
                            } else {
                                alpha as int
                            }));
                            assert(false);
                        }
                        if u >= beta {
                            assert(score >= beta);
                            assert(false);
                        }
                    }
                    assert(u_pre < score) by {
                        if u_pre >= beta {
                            assert(b0 >= beta);
                            assert(false);
                        }
                        if alpha < u_pre {
                            assert(b0 as int == u_pre);
                        }
                    }
                    assert forall|l: int| 0 <= l < i implies #[trigger] move_value(
                        state@,
                        acts[l],
                        depth as int,
                    ) < best.0 by {
                        assert(acts.take(i)[l] == acts[l]);
                        lemma_best_of_elem_le(state@, acts.take(i), l, depth as int);
                    }
                    assert(move_value(state@, acts[i], depth as int) == best.0 && best.1
                        == acts[i]);
                } else {
                    assert(exists|j: int|
                        0 <= j < i && #[trigger] move_value(state@, acts[j], depth as int)
                            == best.0 && best.1 == acts[j] && (forall|l: int|
                            0 <= l < j ==> #[trigger] move_value(state@, acts[l], depth as int)
                                < best.0));
                }
            }
            i = i + 1;
        }
    }
    proof {
        let t_val = negamax(state@, depth as int);
        assert(t_val == best_of(state@, acts, depth as int));
        if pruned {
            lemma_best_of_take_le(state@, acts, i, depth as int);
            assert(t_val >= beta);
        } else {
            assert(i == acts.len());
            assert(acts.take(i) =~= acts);
        }
    }
    best
}

/// The whole agent policy: a fixed-depth alpha-beta search with a full
/// window from the given position.  On a decided game it skips; else it
/// plays the first legal move in generation order attaining the exact
/// depth-four negamax value, or skips when no move is legal.
pub fn logic(state: State) -> (a: Action)
    requires
        state@.wf(),
        state@.players.len() >= 2,
    ensures
        state@.action_legal(a),
        state@.finished() ==> a == Action::Skip,
        !state@.finished() ==> (negamax(state@, 4) == -1_000_000_001 ==> a == Action::Skip) && (
        negamax(state@, 4) > -1_000_000_001 ==> first_best_action(state@, 4, a)),
{
    proof {
        lemma_negamax_bounds(state@, 4);
    }
    let (_, ac) = max_score(state, 4, -2_000_000_000, 2_000_000_000);
    ac
}

} // verus!
