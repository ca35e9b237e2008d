//! An executable well-formedness check, for callers that receive a state
//! from outside (deserialized from a host, say) and must establish the
//! engine's invariants before acting on it.

use vstd::prelude::*;
use crate::cards::Card;
use crate::resources::{ResourceKind, ResourceMap};
use crate::state::{card_ok, f_card_adds, f_card_score, f_deck_adds, f_deck_score, f_immortal, f_mortal, f_reserved_adds, f_reserved_score, f_score, f_wilds, State, COIN_BUDGET, MAX_NOBELS};
use crate::sums::{lemma_sum_by_nonneg, lemma_sum_by_push, sum_by};

verus! {

/// An integer clamped from above at the count type's limit, the value a
/// saturating accumulation computes.
pub open spec fn sat_of(s: int) -> int {
    if s > usize::MAX {
        usize::MAX as int
    } else {
        s
    }
}

/// Saturating sum of a map's five counts.
fn sat_map_total(m: &ResourceMap) -> (r: usize)
    ensures
        r as int == sat_of(m.total()),
{
    let r = m.get(ResourceKind::Red).saturating_add(m.get(ResourceKind::Blue)).saturating_add(
        m.get(ResourceKind::Green),
    ).saturating_add(m.get(ResourceKind::White)).saturating_add(m.get(ResourceKind::Black));
    r
}

/// Saturating sum of the production of kind `k` over a card list.
fn sat_cards_adds(d: &Vec<Card>, k: ResourceKind) -> (r: usize)
    ensures
        r as int == sat_of(sum_by(d@, f_card_adds(k))),
{
    let n = d.len();
    let mut acc: usize = 0;
    let mut i: usize = 0;
    proof {
        assert(d@.take(0) =~= Seq::<Card>::empty());
    }
    while i < n
        invariant
            i <= n,
            n == d@.len(),
            acc as int == sat_of(sum_by(d@.take(i as int), f_card_adds(k))),
        decreases n - i,
    {
        proof {
            assert(d@.take(i + 1) =~= d@.take(i as int).push(d@[i as int]));
            lemma_sum_by_push(d@.take(i as int), d@[i as int], f_card_adds(k));
            assert(forall|j: int|
                0 <= j < d@.take(i as int).len() ==> #[trigger] f_card_adds(k)(
                    d@.take(i as int)[j],
                ) >= 0);
            lemma_sum_by_nonneg(d@.take(i as int), f_card_adds(k));
        }
        let v = d[i].adds.get(k);
        acc = acc.saturating_add(v);
        i = i + 1;
    }
    proof {
        assert(d@.take(n as int) =~= d@);
    }
    acc
}

/// Saturating sum of the score over a card list.
fn sat_cards_score(d: &Vec<Card>) -> (r: usize)
    ensures
        r as int == sat_of(sum_by(d@, f_card_score())),
{
    let n = d.len();
    let mut acc: usize = 0;
    let mut i: usize = 0;
    proof {
        assert(d@.take(0) =~= Seq::<Card>::empty());
    }
    while i < n
        invariant
            i <= n,
            n == d@.len(),
            acc as int == sat_of(sum_by(d@.take(i as int), f_card_score())),
        decreases n - i,
    {
        proof {
            assert(d@.take(i + 1) =~= d@.take(i as int).push(d@[i as int]));
            lemma_sum_by_push(d@.take(i as int), d@[i as int], f_card_score());
            assert(forall|j: int|
                0 <= j < d@.take(i as int).len() ==> #[trigger] f_card_score()(
                    d@.take(i as int)[j],
                ) >= 0);
            lemma_sum_by_nonneg(d@.take(i as int), f_card_score());
        }
        let v = d[i].score as usize;
        acc = acc.saturating_add(v);
        i = i + 1;
    }
    proof {
        assert(d@.take(n as int) =~= d@);
    }
    acc
}

impl State {
    /// Saturating sum of players' spendable coins of kind `k`.
    fn sat_mortal(&self, k: ResourceKind) -> (r: usize)
        ensures
            r as int == sat_of(sum_by(self@.players, f_mortal(k))),
    {
        let n = self.players.len();
        let mut acc: usize = 0;
        let mut i: usize = 0;
        proof {
            assert(self@.players.take(0) =~= Seq::<crate::player::PlayerV>::empty());
        }
        while i < n
            invariant
                i <= n,
                n == self@.players.len(),
                acc as int == sat_of(sum_by(self@.players.take(i as int), f_mortal(k))),
            decreases n - i,
        {
            proof {
                assert(self@.players.take(i + 1) =~= self@.players.take(i as int).push(
                    self@.players[i as int],
                ));
                lemma_sum_by_push(self@.players.take(i as int), self@.players[i as int], f_mortal(k));
                assert(forall|j: int|
                    0 <= j < self@.players.take(i as int).len() ==> #[trigger] f_mortal(k)(
                        self@.players.take(i as int)[j],
                    ) >= 0);
                lemma_sum_by_nonneg(self@.players.take(i as int), f_mortal(k));
            }
            let v = self.players[i].mortal.get(k);
            acc = acc.saturating_add(v);
            i = i + 1;
        }
        proof {
            assert(self@.players.take(n as int) =~= self@.players);
        }
        acc
    }

    /// Saturating sum of players' wild coins.
    fn sat_wilds(&self) -> (r: usize)
        ensures
            r as int == sat_of(sum_by(self@.players, f_wilds())),
    {
        let n = self.players.len();
        let mut acc: usize = 0;
        let mut i: usize = 0;
        proof {
            assert(self@.players.take(0) =~= Seq::<crate::player::PlayerV>::empty());
        }
        while i < n
            invariant
                i <= n,
                n == self@.players.len(),
                acc as int == sat_of(sum_by(self@.players.take(i as int), f_wilds())),
            decreases n - i,
        {
            proof {
                assert(self@.players.take(i + 1) =~= self@.players.take(i as int).push(
                    self@.players[i as int],
                ));
                lemma_sum_by_push(self@.players.take(i as int), self@.players[i as int], f_wilds());
                assert(forall|j: int|
                    0 <= j < self@.players.take(i as int).len() ==> #[trigger] f_wilds()(
                        self@.players.take(i as int)[j],
                    ) >= 0);
                lemma_sum_by_nonneg(self@.players.take(i as int), f_wilds());
            }
            let v = self.players[i].wilds;
            acc = acc.saturating_add(v);
            i = i + 1;
        }
        proof {
            assert(self@.players.take(n as int) =~= self@.players);
        }
        acc
    }

    /// Saturating sum of players' permanent production of kind `k`.
    fn sat_immortal(&self, k: ResourceKind) -> (r: usize)
        ensures
            r as int == sat_of(sum_by(self@.players, f_immortal(k))),
    {
        let n = self.players.len();
        let mut acc: usize = 0;
        let mut i: usize = 0;
        proof {
            assert(self@.players.take(0) =~= Seq::<crate::player::PlayerV>::empty());
        }
        while i < n
            invariant
                i <= n,
                n == self@.players.len(),
                acc as int == sat_of(sum_by(self@.players.take(i as int), f_immortal(k))),
            decreases n - i,
        {
            proof {
                assert(self@.players.take(i + 1) =~= self@.players.take(i as int).push(
                    self@.players[i as int],
                ));
                lemma_sum_by_push(self@.players.take(i as int), self@.players[i as int], f_immortal(k));
                assert(forall|j: int|
                    0 <= j < self@.players.take(i as int).len() ==> #[trigger] f_immortal(k)(
                        self@.players.take(i as int)[j],
                    ) >= 0);
                lemma_sum_by_nonneg(self@.players.take(i as int), f_immortal(k));
            }
            let v = self.players[i].immortal.get(k);
            acc = acc.saturating_add(v);
            i = i + 1;
        }
        proof {
            assert(self@.players.take(n as int) =~= self@.players);
        }
        acc
    }

    /// Saturating sum of players' scores.
    fn sat_scores(&self) -> (r: usize)
        ensures
            r as int == sat_of(sum_by(self@.players, f_score())),
    {
        let n = self.players.len();
        let mut acc: usize = 0;
        let mut i: usize = 0;
        proof {
            assert(self@.players.take(0) =~= Seq::<crate::player::PlayerV>::empty());
        }
        while i < n
            invariant
                i <= n,
                n == self@.players.len(),
                acc as int == sat_of(sum_by(self@.players.take(i as int), f_score())),
            decreases n - i,
        {
            proof {
                assert(self@.players.take(i + 1) =~= self@.players.take(i as int).push(
                    self@.players[i as int],
                ));
                lemma_sum_by_push(self@.players.take(i as int), self@.players[i as int], f_score());
                assert(forall|j: int|
                    0 <= j < self@.players.take(i as int).len() ==> #[trigger] f_score()(
                        self@.players.take(i as int)[j],
                    ) >= 0);
                lemma_sum_by_nonneg(self@.players.take(i as int), f_score());
            }
            let v = self.players[i].score as usize;
            acc = acc.saturating_add(v);
            i = i + 1;
        }
        proof {
            assert(self@.players.take(n as int) =~= self@.players);
        }
        acc
    }

    /// Saturating sum of the deck-held production of kind `k`.
    fn sat_decks_adds(&self, k: ResourceKind) -> (r: usize)
        ensures
            r as int == sat_of(sum_by(self@.decks, f_deck_adds(k))),
    {
        let n = self.decks.len();
        let mut acc: usize = 0;
        let mut i: usize = 0;
        proof {
            assert(self@.decks.take(0) =~= Seq::<Seq<Card>>::empty());
        }
        while i < n
            invariant
                i <= n,
                n == self@.decks.len(),
                self@.decks == self.decks@.map_values(|d: Vec<Card>| d@),
                acc as int == sat_of(sum_by(self@.decks.take(i as int), f_deck_adds(k))),
            decreases n - i,
        {
            proof {
                assert(self@.decks.take(i + 1) =~= self@.decks.take(i as int).push(
                    self@.decks[i as int],
                ));
                lemma_sum_by_push(self@.decks.take(i as int), self@.decks[i as int], f_deck_adds(k));
                assert forall|j: int|
                    0 <= j < self@.decks.take(i as int).len() implies #[trigger] f_deck_adds(k)(
                    self@.decks.take(i as int)[j],
                ) >= 0 by {
                    assert(forall|l: int|
                        0 <= l < self@.decks.take(i as int)[j].len() ==> #[trigger] f_card_adds(k)(
                            self@.decks.take(i as int)[j][l],
                        ) >= 0);
                    lemma_sum_by_nonneg(self@.decks.take(i as int)[j], f_card_adds(k));
                }
                lemma_sum_by_nonneg(self@.decks.take(i as int), f_deck_adds(k));
                assert(forall|l: int|
                    0 <= l < self@.decks[i as int].len() ==> #[trigger] f_card_adds(k)(
                        self@.decks[i as int][l],
                    ) >= 0);
                lemma_sum_by_nonneg(self@.decks[i as int], f_card_adds(k));
            }
            let v = sat_cards_adds(&self.decks[i], k);
            acc = acc.saturating_add(v);
            i = i + 1;
        }
        proof {
            assert(self@.decks.take(n as int) =~= self@.decks);
        }
        acc
    }

    /// Saturating sum of the deck-held score.
    fn sat_decks_score(&self) -> (r: usize)
        ensures
            r as int == sat_of(sum_by(self@.decks, f_deck_score())),
    {
        let n = self.decks.len();
        let mut acc: usize = 0;
        let mut i: usize = 0;
        proof {
            assert(self@.decks.take(0) =~= Seq::<Seq<Card>>::empty());
        }
        while i < n
            invariant
                i <= n,
                n == self@.decks.len(),
                self@.decks == self.decks@.map_values(|d: Vec<Card>| d@),
                acc as int == sat_of(sum_by(self@.decks.take(i as int), f_deck_score())),
            decreases n - i,
        {
            proof {
                assert(self@.decks.take(i + 1) =~= self@.decks.take(i as int).push(
                    self@.decks[i as int],
                ));
                lemma_sum_by_push(self@.decks.take(i as int), self@.decks[i as int], f_deck_score());
                assert forall|j: int|
                    0 <= j < self@.decks.take(i as int).len() implies #[trigger] f_deck_score()(
                    self@.decks.take(i as int)[j],
                ) >= 0 by {
                    assert(forall|l: int|
                        0 <= l < self@.decks.take(i as int)[j].len() ==> #[trigger] f_card_score()(
                            self@.decks.take(i as int)[j][l],
                        ) >= 0);
                    lemma_sum_by_nonneg(self@.decks.take(i as int)[j], f_card_score());
                }
                lemma_sum_by_nonneg(self@.decks.take(i as int), f_deck_score());
                assert(forall|l: int|
                    0 <= l < self@.decks[i as int].len() ==> #[trigger] f_card_score()(
                        self@.decks[i as int][l],
                    ) >= 0);
                lemma_sum_by_nonneg(self@.decks[i as int], f_card_score());
            }
            let v = sat_cards_score(&self.decks[i]);
            acc = acc.saturating_add(v);
            i = i + 1;
        }
        proof {
            assert(self@.decks.take(n as int) =~= self@.decks);
        }
        acc
    }

    /// Saturating sum of the reserve-held production of kind `k`.
    fn sat_reserved_adds(&self, k: ResourceKind) -> (r: usize)
        ensures
            r as int == sat_of(sum_by(self@.players, f_reserved_adds(k))),
    {
        let n = self.players.len();
        let mut acc: usize = 0;
        let mut i: usize = 0;
        proof {
            assert(self@.players.take(0) =~= Seq::<crate::player::PlayerV>::empty());
        }
        while i < n
            invariant
                i <= n,
                n == self@.players.len(),
                acc as int == sat_of(sum_by(self@.players.take(i as int), f_reserved_adds(k))),
            decreases n - i,
        {
            proof {
                assert(self@.players.take(i + 1) =~= self@.players.take(i as int).push(
                    self@.players[i as int],
                ));
                lemma_sum_by_push(self@.players.take(i as int), self@.players[i as int], f_reserved_adds(k));
                assert forall|j: int|
                    0 <= j < self@.players.take(i as int).len() implies #[trigger] f_reserved_adds(
                    k,
                )(self@.players.take(i as int)[j]) >= 0 by {
                    assert(forall|l: int|
                        0 <= l < self@.players.take(i as int)[j].reserved.len()
                            ==> #[trigger] f_card_adds(k)(
                            self@.players.take(i as int)[j].reserved[l],
                        ) >= 0);
                    lemma_sum_by_nonneg(self@.players.take(i as int)[j].reserved, f_card_adds(k));
                }
                lemma_sum_by_nonneg(self@.players.take(i as int), f_reserved_adds(k));
                assert(forall|l: int|
                    0 <= l < self@.players[i as int].reserved.len() ==> #[trigger] f_card_adds(k)(
                        self@.players[i as int].reserved[l],
                    ) >= 0);
                lemma_sum_by_nonneg(self@.players[i as int].reserved, f_card_adds(k));
            }
            let v = sat_cards_adds(&self.players[i].reserved, k);
            acc = acc.saturating_add(v);
            i = i + 1;
        }
        proof {
            assert(self@.players.take(n as int) =~= self@.players);
        }
        acc
    }

    /// Saturating sum of the reserve-held score.
    fn sat_reserved_score(&self) -> (r: usize)
        ensures
            r as int == sat_of(sum_by(self@.players, f_reserved_score())),
    {
        let n = self.players.len();
        let mut acc: usize = 0;
        let mut i: usize = 0;
        proof {
            assert(self@.players.take(0) =~= Seq::<crate::player::PlayerV>::empty());
        }
        while i < n
            invariant
                i <= n,
                n == self@.players.len(),
                acc as int == sat_of(sum_by(self@.players.take(i as int), f_reserved_score())),
            decreases n - i,
        {
            proof {
                assert(self@.players.take(i + 1) =~= self@.players.take(i as int).push(
                    self@.players[i as int],
                ));
                lemma_sum_by_push(self@.players.take(i as int), self@.players[i as int], f_reserved_score());
                assert forall|j: int|
                    0 <= j < self@.players.take(i as int).len()
                        implies #[trigger] f_reserved_score()(self@.players.take(i as int)[j])
                    >= 0 by {
                    assert(forall|l: int|
                        0 <= l < self@.players.take(i as int)[j].reserved.len()
                            ==> #[trigger] f_card_score()(
                            self@.players.take(i as int)[j].reserved[l],
                        ) >= 0);
                    lemma_sum_by_nonneg(self@.players.take(i as int)[j].reserved, f_card_score());
                }
                lemma_sum_by_nonneg(self@.players.take(i as int), f_reserved_score());
                assert(forall|l: int|
                    0 <= l < self@.players[i as int].reserved.len() ==> #[trigger] f_card_score()(
                        self@.players[i as int].reserved[l],
                    ) >= 0);
                lemma_sum_by_nonneg(self@.players[i as int].reserved, f_card_score());
            }
            let v = sat_cards_score(&self.players[i].reserved);
            acc = acc.saturating_add(v);
            i = i + 1;
        }
        proof {
            assert(self@.players.take(n as int) =~= self@.players);
        }
        acc
    }

    /// Checks the budgets tied to kind `k`.
    fn kind_budgets_ok(&self, k: ResourceKind) -> (b: bool)
        ensures
            b == (self@.coin_total(k) <= COIN_BUDGET && self@.production_total(k) <= COIN_BUDGET),
    {
        proof {
            assert(forall|j: int|
                0 <= j < self@.players.len() ==> #[trigger] f_mortal(k)(self@.players[j]) >= 0);
            lemma_sum_by_nonneg(self@.players, f_mortal(k));
            assert(forall|j: int|
                0 <= j < self@.players.len() ==> #[trigger] f_immortal(k)(self@.players[j]) >= 0);
            lemma_sum_by_nonneg(self@.players, f_immortal(k));
            crate::state::lemma_adds_sums_nonneg(self@, k);
        }
        let coins = self.coins.get(k).saturating_add(self.sat_mortal(k));
        if coins > COIN_BUDGET {
            return false;
        }
        let prod = self.sat_immortal(k).saturating_add(self.sat_decks_adds(k)).saturating_add(
            self.sat_reserved_adds(k),
        );
        prod <= COIN_BUDGET && coins <= COIN_BUDGET
    }

    /// Checks every well-formedness condition of the state: a valid turn
    /// pointer and every conserved total within its budget.  Callers that
    /// build a state from untrusted input run this before acting on it.
    pub fn check_wf(&self) -> (b: bool)
        ensures
            b == self@.wf(),
    {
        if self.players.len() == 0 {
            return false;
        }
        if self.turn >= self.players.len() {
            return false;
        }
        if !self.kind_budgets_ok(ResourceKind::Red) {
            return false;
        }
        if !self.kind_budgets_ok(ResourceKind::Blue) {
            return false;
        }
        if !self.kind_budgets_ok(ResourceKind::Green) {
            return false;
        }
        if !self.kind_budgets_ok(ResourceKind::White) {
            return false;
        }
        if !self.kind_budgets_ok(ResourceKind::Black) {
            return false;
        }
        proof {
            assert(forall|j: int|
                0 <= j < self@.players.len() ==> #[trigger] f_wilds()(self@.players[j]) >= 0);
            lemma_sum_by_nonneg(self@.players, f_wilds());
        }
        let wilds = self.wilds.saturating_add(self.sat_wilds());
        if wilds > COIN_BUDGET {
            return false;
        }
        proof {
            assert(forall|j: int|
                0 <= j < self@.players.len() ==> #[trigger] f_score()(self@.players[j]) >= 0);
            lemma_sum_by_nonneg(self@.players, f_score());
            crate::state::lemma_score_sums_nonneg(self@);
        }
        let score = self.sat_scores().saturating_add(self.sat_decks_score()).saturating_add(
            self.sat_reserved_score(),
        );
        if score > u8::MAX as usize {
            return false;
        }
        if self.nobels.len() > MAX_NOBELS {
            return false;
        }
        let nn = self.nobels.len();
        let mut i: usize = 0;
        while i < nn
            invariant
                i <= nn,
                nn == self@.nobels.len(),
                forall|j: int|
                    0 <= j < i ==> (#[trigger] self@.nobels[j]).cost.total() <= COIN_BUDGET,
            decreases nn - i,
        {
            if sat_map_total(&self.nobels[i].cost) > COIN_BUDGET {
                return false;
            }
            i = i + 1;
        }
        let nd = self.decks.len();
        let mut i: usize = 0;
        while i < nd
            invariant
                i <= nd,
                nd == self@.decks.len(),
                self@.decks == self.decks@.map_values(|d: Vec<Card>| d@),
                forall|x: int, y: int|
                    0 <= x < i && 0 <= y < self@.decks[x].len() ==> card_ok(
                        #[trigger] self@.decks[x][y],
                    ),
            decreases nd - i,
        {
            let dl = self.decks[i].len();
            let mut j: usize = 0;
            while j < dl
                invariant
                    j <= dl,
                    i < nd,
                    nd == self@.decks.len(),
                    dl == self@.decks[i as int].len(),
                    self@.decks == self.decks@.map_values(|d: Vec<Card>| d@),
                    forall|y: int|
                        0 <= y < j ==> card_ok(#[trigger] self@.decks[i as int][y]),
                decreases dl - j,
            {
                if sat_map_total(&self.decks[i][j].cost) > COIN_BUDGET {
                    return false;
                }
                j = j + 1;
            }
            i = i + 1;
        }
        let np = self.players.len();
        let mut i: usize = 0;
        while i < np
            invariant
                i <= np,
                np == self@.players.len(),
                forall|x: int, y: int|
                    0 <= x < i && 0 <= y < self@.players[x].reserved.len() ==> card_ok(
                        #[trigger] self@.players[x].reserved[y],
                    ),
            decreases np - i,
        {
            let rl = self.players[i].reserved.len();
            let mut j: usize = 0;
            while j < rl
                invariant
                    j <= rl,
                    i < np,
                    np == self@.players.len(),
                    rl == self@.players[i as int].reserved.len(),
                    forall|y: int|
                        0 <= y < j ==> card_ok(#[trigger] self@.players[i as int].reserved[y]),
                decreases rl - j,
            {
                if sat_map_total(&self.players[i].reserved[j].cost) > COIN_BUDGET {
                    return false;
                }
                j = j + 1;
            }
            i = i + 1;
        }
        true
    }
}

} // verus!
