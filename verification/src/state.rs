//! The rules engine: the authoritative game state, the single validated
//! transition entry point, and the read-only enumeration helpers the move
//! generator builds on.

use vstd::prelude::*;
use crate::action::{Action, ActionError};
use crate::cards::{Card, Nobel};
use crate::player::{Player, PlayerV};
use crate::resources::{ResourceKind, ResourceMap};
use crate::sums::{lemma_sum_by_bound, lemma_sum_by_nonneg, lemma_sum_by_push, lemma_sum_by_remove, lemma_sum_by_update, sum_by};

verus! {

/// Number of face-up cards per deck; only these are addressable.
pub const MAX_DECK_SHOW: usize = 4;

/// Generous cap on every conserved resource total.  It keeps all the
/// engine's arithmetic far away from machine limits while allowing any
/// realistic game setup.
pub const COIN_BUDGET: usize = 1_000_000;

/// Cap on the number of nobel tiles a game is set up with.
pub const MAX_NOBELS: usize = 100;

/// Winning a round requires a score above this threshold.
pub const SCORE_GOAL: u8 = 14;

/// The authoritative game state: three decks, the players in turn order,
/// the shared coin and wild banks, the rotating turn index and the nobel
/// tiles of the nobel-aware ruleset (empty in the plain ruleset).
pub struct State {
    pub decks: Vec<Vec<Card>>,
    pub players: Vec<Player>,
    pub coins: ResourceMap,
    pub wilds: usize,
    pub turn: usize,
    pub nobels: Vec<Nobel>,
}

/// The mathematical model of a `State`.
#[verifier::ext_equal]
pub struct StateV {
    pub decks: Seq<Seq<Card>>,
    pub players: Seq<PlayerV>,
    pub coins: ResourceMap,
    pub wilds: usize,
    pub turn: usize,
    pub nobels: Seq<Nobel>,
}

impl View for State {
    type V = StateV;

    open spec fn view(&self) -> StateV {
        StateV {
            decks: self.decks@.map_values(|d: Vec<Card>| d@),
            players: self.players@.map_values(|p: Player| p@),
            coins: self.coins,
            wilds: self.wilds,
            turn: self.turn,
            nobels: self.nobels@,
        }
    }
}

/// The spendable coins of kind `k` a player holds.
pub open spec fn f_mortal(k: ResourceKind) -> spec_fn(PlayerV) -> int {
    |p: PlayerV| p.mortal.cnt(k)
}

/// The wild coins a player holds.
pub open spec fn f_wilds() -> spec_fn(PlayerV) -> int {
    |p: PlayerV| p.wilds as int
}

/// The permanent production of kind `k` a player holds.
pub open spec fn f_immortal(k: ResourceKind) -> spec_fn(PlayerV) -> int {
    |p: PlayerV| p.immortal.cnt(k)
}

/// A player's score.
pub open spec fn f_score() -> spec_fn(PlayerV) -> int {
    |p: PlayerV| p.score as int
}

/// The production of kind `k` a card grants.
pub open spec fn f_card_adds(k: ResourceKind) -> spec_fn(Card) -> int {
    |c: Card| c.adds.cnt(k)
}

/// A card's score reward.
pub open spec fn f_card_score() -> spec_fn(Card) -> int {
    |c: Card| c.score as int
}

/// The production of kind `k` granted by all cards of a deck.
pub open spec fn f_deck_adds(k: ResourceKind) -> spec_fn(Seq<Card>) -> int {
    |d: Seq<Card>| sum_by(d, f_card_adds(k))
}

/// The score carried by all cards of a deck.
pub open spec fn f_deck_score() -> spec_fn(Seq<Card>) -> int {
    |d: Seq<Card>| sum_by(d, f_card_score())
}

/// The production of kind `k` granted by a player's reserved cards.
pub open spec fn f_reserved_adds(k: ResourceKind) -> spec_fn(PlayerV) -> int {
    |p: PlayerV| sum_by(p.reserved, f_card_adds(k))
}

/// The score carried by a player's reserved cards.
pub open spec fn f_reserved_score() -> spec_fn(PlayerV) -> int {
    |p: PlayerV| sum_by(p.reserved, f_card_score())
}

/// A card whose cost stays within the engine's budget.
pub open spec fn card_ok(c: Card) -> bool {
    c.cost.total() <= COIN_BUDGET
}

impl StateV {
    /// The player whose turn it is.
    pub open spec fn acting(self) -> PlayerV {
        self.players[self.turn as int]
    }

    /// Coins of kind `k` in the bank and in players' spendable holdings
    /// together.  Conserved by every transition.
    pub open spec fn coin_total(self, k: ResourceKind) -> int {
        self.coins.cnt(k) + sum_by(self.players, f_mortal(k))
    }

    /// Wild coins in the bank and in players' holdings together.
    /// Conserved by every transition.
    pub open spec fn wild_total(self) -> int {
        self.wilds + sum_by(self.players, f_wilds())
    }

    /// Production of kind `k` already granted plus the production still
    /// waiting inside decks and reserves.  Conserved by every transition.
    pub open spec fn production_total(self, k: ResourceKind) -> int {
        sum_by(self.players, f_immortal(k)) + sum_by(self.decks, f_deck_adds(k)) + sum_by(
            self.players,
            f_reserved_adds(k),
        )
    }

    /// Score already awarded plus the score still waiting inside decks and
    /// reserves.  Conserved by every transition.
    pub open spec fn score_total(self) -> int {
        sum_by(self.players, f_score()) + sum_by(self.decks, f_deck_score()) + sum_by(
            self.players,
            f_reserved_score(),
        )
    }

    /// Every card still in play has a budget-bounded cost.
    pub open spec fn cards_ok(self) -> bool {
        &&& forall|i: int, j: int|
            0 <= i < self.decks.len() && 0 <= j < self.decks[i].len() ==> card_ok(
                #[trigger] self.decks[i][j],
            )
        &&& forall|i: int, j: int|
            0 <= i < self.players.len() && 0 <= j < self.players[i].reserved.len() ==> card_ok(
                #[trigger] self.players[i].reserved[j],
            )
    }

    /// Well-formedness: the turn pointer addresses a player, and every
    /// conserved total stays within the engine's budget.  The score budget
    /// is the score type's limit.  All counts are unsigned, so none can be
    /// negative; these caps bound them from above, which keeps all of the
    /// engine's arithmetic free of overflow.
    pub open spec fn wf(self) -> bool {
        &&& self.players.len() >= 1
        &&& self.players.len() <= usize::MAX
        &&& self.turn < self.players.len()
        &&& forall|k: ResourceKind| #[trigger] self.coin_total(k) <= COIN_BUDGET
        &&& self.wild_total() <= COIN_BUDGET
        &&& forall|k: ResourceKind| #[trigger] self.production_total(k) <= COIN_BUDGET
        &&& self.score_total() <= u8::MAX
        &&& self.nobels.len() <= MAX_NOBELS
        &&& forall|i: int|
            0 <= i < self.nobels.len() ==> (#[trigger] self.nobels[i]).cost.total() <= COIN_BUDGET
        &&& self.cards_ok()
    }

    /// The turn index after one successful action: strict round-robin.
    pub open spec fn next_turn(self) -> usize {
        if self.turn + 1 == self.players.len() {
            0
        } else {
            (self.turn + 1) as usize
        }
    }

    /// A three-coin pick needs three pairwise-distinct kinds, each with at
    /// least one coin in the bank.
    pub open spec fn pick_three_legal(self, one: ResourceKind, two: ResourceKind, three: ResourceKind) -> bool {
        &&& one != two
        &&& one != three
        &&& two != three
        &&& self.coins.cnt(one) >= 1
        &&& self.coins.cnt(two) >= 1
        &&& self.coins.cnt(three) >= 1
    }

    /// A two-coin take needs at least four coins of the kind in the bank,
    /// so at least two remain.
    pub open spec fn pick_two_legal(self, color: ResourceKind) -> bool {
        self.coins.cnt(color) >= 4
    }

    /// A deck/slot pair addresses a card of the visible window.
    pub open spec fn slot_valid(self, deck: usize, card: usize) -> bool {
        &&& deck < self.decks.len()
        &&& card < MAX_DECK_SHOW
        &&& card < self.decks[deck as int].len()
    }

    /// A purchase needs a visible card the acting player can settle.
    pub open spec fn purchase_legal(self, deck: usize, card: usize) -> bool {
        &&& self.slot_valid(deck, card)
        &&& self.acting().can_purchase_spec(self.decks[deck as int][card as int].cost)
    }

    /// A reserved purchase needs an existing reserve entry the acting
    /// player can settle.
    pub open spec fn purchase_reserved_legal(self, index: usize) -> bool {
        &&& index < self.acting().reserved.len()
        &&& self.acting().can_purchase_spec(self.acting().reserved[index as int].cost)
    }

    /// Whether `a` is legal here.  `Skip` always is.
    pub open spec fn action_legal(self, a: Action) -> bool {
        match a {
            Action::PickThree { one, two, three } => self.pick_three_legal(one, two, three),
            Action::PickTwo { color } => self.pick_two_legal(color),
            Action::Purchase { deck, card } => self.purchase_legal(deck, card),
            Action::PurchaseReserved { index } => self.purchase_reserved_legal(index),
            Action::Reserve { deck, card } => self.slot_valid(deck, card),
            Action::Skip => true,
        }
    }

    /// The first precondition of `a` that fails here, in the order the
    /// engine checks them; `None` exactly when `a` is legal.
    pub open spec fn action_check(self, a: Action) -> Option<ActionError> {
        match a {
            Action::PickThree { one, two, three } => if one == two || one == three || two
                == three {
                Some(ActionError::DuplicatePick)
            } else if self.coins.cnt(one) == 0 {
                Some(ActionError::NoCoin { kind: one })
            } else if self.coins.cnt(two) == 0 {
                Some(ActionError::NoCoin { kind: two })
            } else if self.coins.cnt(three) == 0 {
                Some(ActionError::NoCoin { kind: three })
            } else {
                None
            },
            Action::PickTwo { color } => if self.coins.cnt(color) < 4 {
                Some(ActionError::NotEnoughRemaining { kind: color })
            } else {
                None
            },
            Action::Purchase { deck, card } => if deck >= self.decks.len() {
                Some(ActionError::InvalidDeck)
            } else if card >= MAX_DECK_SHOW {
                Some(ActionError::NotVisible)
            } else if card >= self.decks[deck as int].len() {
                Some(ActionError::InvalidCard)
            } else if !self.acting().can_purchase_spec(
                self.decks[deck as int][card as int].cost,
            ) {
                Some(ActionError::NotEnoughResources)
            } else {
                None
            },
            Action::PurchaseReserved { index } => if index >= self.acting().reserved.len() {
                Some(ActionError::InvalidReservedIndex)
            } else if !self.acting().can_purchase_spec(
                self.acting().reserved[index as int].cost,
            ) {
                Some(ActionError::NotEnoughResources)
            } else {
                None
            },
            Action::Reserve { deck, card } => if deck >= self.decks.len() {
                Some(ActionError::InvalidDeck)
            } else if card >= MAX_DECK_SHOW {
                Some(ActionError::NotVisible)
            } else if card >= self.decks[deck as int].len() {
                Some(ActionError::InvalidCard)
            } else {
                None
            },
            Action::Skip => None,
        }
    }

    /// The exact result `run` returns for `a` on this state.
    pub open spec fn run_result(self, a: Action) -> Result<(), ActionError> {
        match self.action_check(a) {
            Option::None => Result::Ok(()),
            Option::Some(e) => Result::Err(e),
        }
    }

    /// State after a legal three-coin pick: one coin of each kind moves
    /// from the bank to the acting player.
    pub open spec fn apply_pick_three(self, one: ResourceKind, two: ResourceKind, three: ResourceKind) -> StateV {
        let p = self.acting();
        let p2 = PlayerV {
            mortal: p.mortal.spec_add(one, 1).spec_add(two, 1).spec_add(three, 1),
            ..p
        };
        StateV {
            coins: self.coins.spec_add(one, -1).spec_add(two, -1).spec_add(three, -1),
            players: self.players.update(self.turn as int, p2),
            turn: self.next_turn(),
            ..self
        }
    }

    /// State after a legal two-coin take.
    pub open spec fn apply_pick_two(self, color: ResourceKind) -> StateV {
        let p = self.acting();
        let p2 = PlayerV { mortal: p.mortal.spec_add(color, 2), ..p };
        StateV {
            coins: self.coins.spec_add(color, -2),
            players: self.players.update(self.turn as int, p2),
            turn: self.next_turn(),
            ..self
        }
    }

    /// The acting player after settling `c` and receiving it: production
    /// grows by the card's grant and the score by its reward.
    pub open spec fn receive_card(p: PlayerV, c: Card) -> PlayerV {
        let pp = p.after_purchase(c.cost);
        PlayerV {
            immortal: pp.immortal.spec_plus(c.adds),
            score: (pp.score + c.score) as u8,
            ..pp
        }
    }

    /// State after a legal purchase of a visible card.
    pub open spec fn apply_purchase(self, deck: usize, card: usize) -> StateV {
        let c = self.decks[deck as int][card as int];
        let p = self.acting();
        StateV {
            decks: self.decks.update(deck as int, self.decks[deck as int].remove(card as int)),
            players: self.players.update(self.turn as int, Self::receive_card(p, c)),
            coins: p.coins_after_pay(c.cost, self.coins),
            wilds: (self.wilds + p.total_short(c.cost)) as usize,
            turn: self.next_turn(),
            nobels: self.nobels,
        }
    }

    /// State after a legal purchase out of the acting player's reserve.
    pub open spec fn apply_purchase_reserved(self, index: usize) -> StateV {
        let p = self.acting();
        let c = p.reserved[index as int];
        let pr = PlayerV { reserved: p.reserved.remove(index as int), ..p };
        StateV {
            players: self.players.update(self.turn as int, Self::receive_card(pr, c)),
            coins: pr.coins_after_pay(c.cost, self.coins),
            wilds: (self.wilds + pr.total_short(c.cost)) as usize,
            turn: self.next_turn(),
            ..self
        }
    }

    /// State after a legal reserve: the card moves from the deck into the
    /// acting player's reserve without payment.
    pub open spec fn apply_reserve(self, deck: usize, card: usize) -> StateV {
        let c = self.decks[deck as int][card as int];
        let p = self.acting();
        let p2 = PlayerV { reserved: p.reserved.push(c), ..p };
        StateV {
            decks: self.decks.update(deck as int, self.decks[deck as int].remove(card as int)),
            players: self.players.update(self.turn as int, p2),
            turn: self.next_turn(),
            ..self
        }
    }

    /// State after a legal `a`: the single transition function all of
    /// `run`'s success cases follow.
    pub open spec fn apply_action(self, a: Action) -> StateV {
        match a {
            Action::PickThree { one, two, three } => self.apply_pick_three(one, two, three),
            Action::PickTwo { color } => self.apply_pick_two(color),
            Action::Purchase { deck, card } => self.apply_purchase(deck, card),
            Action::PurchaseReserved { index } => self.apply_purchase_reserved(index),
            Action::Reserve { deck, card } => self.apply_reserve(deck, card),
            Action::Skip => StateV { turn: self.next_turn(), ..self },
        }
    }

    /// The game ends at the top of a round once someone has passed the
    /// score goal, so every player gets the same number of turns.
    pub open spec fn finished(self) -> bool {
        self.turn == 0 && exists|i: int|
            0 <= i < self.players.len() && #[trigger] self.players[i].score > SCORE_GOAL
    }

    /// `w` is the winner: the first index carrying the maximum score.
    pub open spec fn is_winner(self, w: int) -> bool {
        &&& 0 <= w < self.players.len()
        &&& forall|i: int|
            0 <= i < self.players.len() ==> #[trigger] self.players[i].score
                <= self.players[w].score
        &&& forall|i: int| 0 <= i < w ==> #[trigger] self.players[i].score < self.players[w].score
    }
}

/// The visible `(deck, slot)` pairs contributed by deck `i` of length
/// `len`: slots `0` up to the window size or the deck's end.
pub open spec fn visible_in_deck(len: int, i: usize) -> Seq<(usize, usize)> {
    Seq::new(
        (if len < MAX_DECK_SHOW { len } else { MAX_DECK_SHOW as int }) as nat,
        |j: int| (i, j as usize),
    )
}

/// All addressable `(deck, slot)` pairs, deck by deck in order.
pub open spec fn visible_pairs(decks: Seq<Seq<Card>>) -> Seq<(usize, usize)>
    decreases decks.len(),
{
    if decks.len() == 0 {
        Seq::empty()
    } else {
        visible_pairs(decks.drop_last()) + visible_in_deck(
            decks.last().len() as int,
            (decks.len() - 1) as usize,
        )
    }
}

/// The resource kinds eligible for a two-coin take, in declaration order.
pub open spec fn pick_two_kinds(coins: ResourceMap) -> Seq<ResourceKind> {
    let s = Seq::<ResourceKind>::empty();
    let s = if coins.cnt(ResourceKind::Red) >= 4 {
        s.push(ResourceKind::Red)
    } else {
        s
    };
    let s = if coins.cnt(ResourceKind::Blue) >= 4 {
        s.push(ResourceKind::Blue)
    } else {
        s
    };
    let s = if coins.cnt(ResourceKind::Green) >= 4 {
        s.push(ResourceKind::Green)
    } else {
        s
    };
    let s = if coins.cnt(ResourceKind::White) >= 4 {
        s.push(ResourceKind::White)
    } else {
        s
    };
    let s = if coins.cnt(ResourceKind::Black) >= 4 {
        s.push(ResourceKind::Black)
    } else {
        s
    };
    s
}

/// The ten pairwise-distinct triples of colored kinds eligible for a
/// three-coin pick, in their fixed enumeration order.
pub open spec fn pick_three_candidates() -> Seq<(ResourceKind, ResourceKind, ResourceKind)> {
    seq![
        (ResourceKind::Red, ResourceKind::Green, ResourceKind::Blue),
        (ResourceKind::Red, ResourceKind::Green, ResourceKind::White),
        (ResourceKind::Red, ResourceKind::Green, ResourceKind::Black),
        (ResourceKind::Red, ResourceKind::Blue, ResourceKind::White),
        (ResourceKind::Red, ResourceKind::Blue, ResourceKind::Black),
        (ResourceKind::Red, ResourceKind::White, ResourceKind::Black),
        (ResourceKind::Green, ResourceKind::Blue, ResourceKind::White),
        (ResourceKind::Green, ResourceKind::Blue, ResourceKind::Black),
        (ResourceKind::Green, ResourceKind::White, ResourceKind::Black),
        (ResourceKind::Blue, ResourceKind::Black, ResourceKind::White),
    ]
}

/// How every conserved sum reacts to replacing the player at seat `t`.
proof fn lemma_players_update_sums(ps: Seq<PlayerV>, t: int, p2: PlayerV)
    requires
        0 <= t < ps.len(),
    ensures
        forall|k: ResourceKind| #[trigger] sum_by(ps.update(t, p2), f_mortal(k)) == sum_by(
            ps,
            f_mortal(k),
        ) - ps[t].mortal.cnt(k) + p2.mortal.cnt(k),
        sum_by(ps.update(t, p2), f_wilds()) == sum_by(ps, f_wilds()) - ps[t].wilds + p2.wilds,
        forall|k: ResourceKind| #[trigger] sum_by(ps.update(t, p2), f_immortal(k)) == sum_by(
            ps,
            f_immortal(k),
        ) - ps[t].immortal.cnt(k) + p2.immortal.cnt(k),
        sum_by(ps.update(t, p2), f_score()) == sum_by(ps, f_score()) - ps[t].score + p2.score,
        forall|k: ResourceKind| #[trigger] sum_by(ps.update(t, p2), f_reserved_adds(k)) == sum_by(
            ps,
            f_reserved_adds(k),
        ) - sum_by(ps[t].reserved, f_card_adds(k)) + sum_by(p2.reserved, f_card_adds(k)),
        sum_by(ps.update(t, p2), f_reserved_score()) == sum_by(ps, f_reserved_score()) - sum_by(
            ps[t].reserved,
            f_card_score(),
        ) + sum_by(p2.reserved, f_card_score()),
{
    assert forall|k: ResourceKind| #[trigger] sum_by(ps.update(t, p2), f_mortal(k)) == sum_by(
        ps,
        f_mortal(k),
    ) - ps[t].mortal.cnt(k) + p2.mortal.cnt(k) by {
        lemma_sum_by_update(ps, t, p2, f_mortal(k));
    }
    lemma_sum_by_update(ps, t, p2, f_wilds());
    assert forall|k: ResourceKind| #[trigger] sum_by(ps.update(t, p2), f_immortal(k)) == sum_by(
        ps,
        f_immortal(k),
    ) - ps[t].immortal.cnt(k) + p2.immortal.cnt(k) by {
        lemma_sum_by_update(ps, t, p2, f_immortal(k));
    }
    lemma_sum_by_update(ps, t, p2, f_score());
    assert forall|k: ResourceKind| #[trigger] sum_by(ps.update(t, p2), f_reserved_adds(k))
        == sum_by(ps, f_reserved_adds(k)) - sum_by(ps[t].reserved, f_card_adds(k)) + sum_by(
        p2.reserved,
        f_card_adds(k),
    ) by {
        lemma_sum_by_update(ps, t, p2, f_reserved_adds(k));
    }
    lemma_sum_by_update(ps, t, p2, f_reserved_score());
}

/// Budget bounds on one player's holdings, read off the conserved totals.
pub proof fn lemma_player_in_bounds(st: StateV, i: int)
    requires
        st.wf(),
        0 <= i < st.players.len(),
    ensures
        forall|k: ResourceKind| st.coins.cnt(k) + #[trigger] st.players[i].mortal.cnt(k)
            <= COIN_BUDGET,
        st.wilds + st.players[i].wilds <= COIN_BUDGET,
        forall|k: ResourceKind| #[trigger] st.players[i].immortal.cnt(k) <= COIN_BUDGET,
{
    assert forall|k: ResourceKind| st.coins.cnt(k) + #[trigger] st.players[i].mortal.cnt(k)
        <= COIN_BUDGET by {
        assert(forall|j: int|
            0 <= j < st.players.len() ==> #[trigger] f_mortal(k)(st.players[j]) >= 0);
        lemma_sum_by_bound(st.players, i, f_mortal(k));
        assert(st.coin_total(k) <= COIN_BUDGET);
    }
    assert(forall|j: int| 0 <= j < st.players.len() ==> #[trigger] f_wilds()(st.players[j]) >= 0);
    lemma_sum_by_bound(st.players, i, f_wilds());
    assert(st.wild_total() <= COIN_BUDGET);
    assert forall|k: ResourceKind| #[trigger] st.players[i].immortal.cnt(k) <= COIN_BUDGET by {
        assert(forall|j: int|
            0 <= j < st.players.len() ==> #[trigger] f_immortal(k)(st.players[j]) >= 0);
        lemma_sum_by_bound(st.players, i, f_immortal(k));
        assert(forall|j: int|
            0 <= j < st.decks.len() ==> #[trigger] f_deck_adds(k)(st.decks[j]) >= 0) by {
            assert forall|j: int|
                0 <= j < st.decks.len() implies #[trigger] f_deck_adds(k)(st.decks[j]) >= 0 by {
                assert(forall|l: int|
                    0 <= l < st.decks[j].len() ==> #[trigger] f_card_adds(k)(st.decks[j][l]) >= 0);
                lemma_sum_by_nonneg(st.decks[j], f_card_adds(k));
            }
        }
        lemma_sum_by_nonneg(st.decks, f_deck_adds(k));
        assert(forall|j: int|
            0 <= j < st.players.len() ==> #[trigger] f_reserved_adds(k)(st.players[j]) >= 0) by {
            assert forall|j: int|
                0 <= j < st.players.len() implies #[trigger] f_reserved_adds(k)(st.players[j])
                >= 0 by {
                assert(forall|l: int|
                    0 <= l < st.players[j].reserved.len() ==> #[trigger] f_card_adds(k)(
                        st.players[j].reserved[l],
                    ) >= 0);
                lemma_sum_by_nonneg(st.players[j].reserved, f_card_adds(k));
            }
        }
        lemma_sum_by_nonneg(st.players, f_reserved_adds(k));
        assert(st.production_total(k) <= COIN_BUDGET);
    }
}

/// Non-negativity of every production sum of a state.
pub proof fn lemma_adds_sums_nonneg(st: StateV, k: ResourceKind)
    ensures
        forall|l: int| 0 <= l < st.decks.len() ==> #[trigger] f_deck_adds(k)(st.decks[l]) >= 0,
        sum_by(st.decks, f_deck_adds(k)) >= 0,
        forall|l: int|
            0 <= l < st.players.len() ==> #[trigger] f_reserved_adds(k)(st.players[l]) >= 0,
        sum_by(st.players, f_reserved_adds(k)) >= 0,
        sum_by(st.players, f_immortal(k)) >= 0,
{
    assert forall|l: int|
        0 <= l < st.decks.len() implies #[trigger] f_deck_adds(k)(st.decks[l]) >= 0 by {
        assert(forall|j: int|
            0 <= j < st.decks[l].len() ==> #[trigger] f_card_adds(k)(st.decks[l][j]) >= 0);
        lemma_sum_by_nonneg(st.decks[l], f_card_adds(k));
    }
    lemma_sum_by_nonneg(st.decks, f_deck_adds(k));
    assert forall|l: int|
        0 <= l < st.players.len() implies #[trigger] f_reserved_adds(k)(st.players[l]) >= 0 by {
        assert(forall|j: int|
            0 <= j < st.players[l].reserved.len() ==> #[trigger] f_card_adds(k)(
                st.players[l].reserved[j],
            ) >= 0);
        lemma_sum_by_nonneg(st.players[l].reserved, f_card_adds(k));
    }
    lemma_sum_by_nonneg(st.players, f_reserved_adds(k));
    assert(forall|l: int| 0 <= l < st.players.len() ==> #[trigger] f_immortal(k)(st.players[l]) >= 0);
    lemma_sum_by_nonneg(st.players, f_immortal(k));
}

/// Non-negativity of every score sum of a state.
pub proof fn lemma_score_sums_nonneg(st: StateV)
    ensures
        forall|l: int| 0 <= l < st.decks.len() ==> #[trigger] f_deck_score()(st.decks[l]) >= 0,
        sum_by(st.decks, f_deck_score()) >= 0,
        forall|l: int|
            0 <= l < st.players.len() ==> #[trigger] f_reserved_score()(st.players[l]) >= 0,
        sum_by(st.players, f_reserved_score()) >= 0,
        sum_by(st.players, f_score()) >= 0,
{
    assert forall|l: int|
        0 <= l < st.decks.len() implies #[trigger] f_deck_score()(st.decks[l]) >= 0 by {
        assert(forall|j: int|
            0 <= j < st.decks[l].len() ==> #[trigger] f_card_score()(st.decks[l][j]) >= 0);
        lemma_sum_by_nonneg(st.decks[l], f_card_score());
    }
    lemma_sum_by_nonneg(st.decks, f_deck_score());
    assert forall|l: int|
        0 <= l < st.players.len() implies #[trigger] f_reserved_score()(st.players[l]) >= 0 by {
        assert(forall|j: int|
            0 <= j < st.players[l].reserved.len() ==> #[trigger] f_card_score()(
                st.players[l].reserved[j],
            ) >= 0);
        lemma_sum_by_nonneg(st.players[l].reserved, f_card_score());
    }
    lemma_sum_by_nonneg(st.players, f_reserved_score());
    assert(forall|l: int| 0 <= l < st.players.len() ==> #[trigger] f_score()(st.players[l]) >= 0);
    lemma_sum_by_nonneg(st.players, f_score());
}

/// Budget bounds on one visible card of a deck.
proof fn lemma_deck_card_bounds(st: StateV, d: int, j: int)
    requires
        st.wf(),
        0 <= d < st.decks.len(),
        0 <= j < st.decks[d].len(),
    ensures
        forall|k: ResourceKind| #[trigger] st.decks[d][j].adds.cnt(k) + sum_by(
            st.players,
            f_immortal(k),
        ) <= COIN_BUDGET,
        st.decks[d][j].score + sum_by(st.players, f_score()) <= u8::MAX,
{
    let c = st.decks[d][j];
    assert forall|k: ResourceKind| #[trigger] c.adds.cnt(k) + sum_by(st.players, f_immortal(k))
        <= COIN_BUDGET by {
        lemma_adds_sums_nonneg(st, k);
        assert(forall|l: int|
            0 <= l < st.decks[d].len() ==> #[trigger] f_card_adds(k)(st.decks[d][l]) >= 0);
        lemma_sum_by_bound(st.decks[d], j, f_card_adds(k));
        lemma_sum_by_bound(st.decks, d, f_deck_adds(k));
        assert(st.production_total(k) <= COIN_BUDGET);
    }
    lemma_score_sums_nonneg(st);
    assert(forall|l: int|
        0 <= l < st.decks[d].len() ==> #[trigger] f_card_score()(st.decks[d][l]) >= 0);
    lemma_sum_by_bound(st.decks[d], j, f_card_score());
    lemma_sum_by_bound(st.decks, d, f_deck_score());
    assert(st.score_total() <= u8::MAX);
}

/// Budget bounds on one reserved card of a player.
proof fn lemma_reserved_card_bounds(st: StateV, i: int, j: int)
    requires
        st.wf(),
        0 <= i < st.players.len(),
        0 <= j < st.players[i].reserved.len(),
    ensures
        forall|k: ResourceKind| #[trigger] st.players[i].reserved[j].adds.cnt(k) + sum_by(
            st.players,
            f_immortal(k),
        ) <= COIN_BUDGET,
        st.players[i].reserved[j].score + sum_by(st.players, f_score()) <= u8::MAX,
{
    let c = st.players[i].reserved[j];
    assert forall|k: ResourceKind| #[trigger] c.adds.cnt(k) + sum_by(st.players, f_immortal(k))
        <= COIN_BUDGET by {
        lemma_adds_sums_nonneg(st, k);
        assert(forall|l: int|
            0 <= l < st.players[i].reserved.len() ==> #[trigger] f_card_adds(k)(
                st.players[i].reserved[l],
            ) >= 0);
        lemma_sum_by_bound(st.players[i].reserved, j, f_card_adds(k));
        lemma_sum_by_bound(st.players, i, f_reserved_adds(k));
        assert(st.production_total(k) <= COIN_BUDGET);
    }
    lemma_score_sums_nonneg(st);
    assert(forall|l: int|
        0 <= l < st.players[i].reserved.len() ==> #[trigger] f_card_score()(
            st.players[i].reserved[l],
        ) >= 0);
    lemma_sum_by_bound(st.players[i].reserved, j, f_card_score());
    lemma_sum_by_bound(st.players, i, f_reserved_score());
    assert(st.score_total() <= u8::MAX);
}

/// The settlement arithmetic of a purchase, spelled out per kind.
proof fn lemma_settlement_cnt(pre: StateV, p: PlayerV, cost: ResourceMap)
    requires
        pre.wf(),
        p.mortal == pre.acting().mortal,
        p.immortal == pre.acting().immortal,
        p.wilds == pre.acting().wilds,
        cost.total() <= COIN_BUDGET,
        p.can_purchase_spec(cost),
    ensures
        forall|k: ResourceKind| #[trigger] p.after_purchase(cost).mortal.cnt(k) == p.mortal.cnt(k)
            - p.paid(cost, k),
        forall|k: ResourceKind| #[trigger] p.coins_after_pay(cost, pre.coins).cnt(k)
            == pre.coins.cnt(k) + p.paid(cost, k),
        p.after_purchase(cost).wilds == p.wilds - p.total_short(cost),
        p.after_purchase(cost).immortal == p.immortal,
        p.after_purchase(cost).score == p.score,
        p.after_purchase(cost).reserved == p.reserved,
        p.after_purchase(cost).name == p.name,
        0 <= p.total_short(cost) <= p.wilds,
        forall|k: ResourceKind| 0 <= #[trigger] p.paid(cost, k) <= p.mortal.cnt(k),
{
    lemma_player_in_bounds(pre, pre.turn as int);
}

/// Conservation (and with it well-formedness) through a legal purchase of
/// a visible card.
#[verifier::rlimit(100)]
proof fn lemma_purchase_preserves(pre: StateV, deck: usize, card: usize)
    requires
        pre.wf(),
        pre.purchase_legal(deck, card),
    ensures
        forall|k: ResourceKind| #[trigger] pre.apply_purchase(deck, card).coin_total(k)
            == pre.coin_total(k),
        pre.apply_purchase(deck, card).wild_total() == pre.wild_total(),
        forall|k: ResourceKind| #[trigger] pre.apply_purchase(deck, card).production_total(k)
            == pre.production_total(k),
        pre.apply_purchase(deck, card).score_total() == pre.score_total(),
        pre.apply_purchase(deck, card).wf(),
{
    let post = pre.apply_purchase(deck, card);
    let t = pre.turn as int;
    let p = pre.acting();
    let c = pre.decks[deck as int][card as int];
    let pp = p.after_purchase(c.cost);
    let p2 = post.players[t];
    lemma_player_in_bounds(pre, t);
    lemma_deck_card_bounds(pre, deck as int, card as int);
    lemma_settlement_cnt(pre, p, c.cost);
    assert(post.players == pre.players.update(t, p2));
    assert(post.decks == pre.decks.update(
        deck as int,
        pre.decks[deck as int].remove(card as int),
    ));
    assert(p2.reserved == p.reserved);
    assert forall|k: ResourceKind| #[trigger] post.coin_total(k) == pre.coin_total(k) by {
        lemma_sum_by_update(pre.players, t, p2, f_mortal(k));
    }
    lemma_sum_by_update(pre.players, t, p2, f_wilds());
    assert(post.wild_total() == pre.wild_total());
    assert forall|k: ResourceKind| #[trigger] post.production_total(k) == pre.production_total(
        k,
    ) by {
        lemma_sum_by_update(pre.players, t, p2, f_immortal(k));
        lemma_sum_by_update(pre.players, t, p2, f_reserved_adds(k));
        lemma_sum_by_update(
            pre.decks,
            deck as int,
            pre.decks[deck as int].remove(card as int),
            f_deck_adds(k),
        );
        lemma_sum_by_remove(pre.decks[deck as int], card as int, f_card_adds(k));
        lemma_adds_sums_nonneg(pre, k);
        assert(p.immortal.cnt(k) <= COIN_BUDGET);
        assert(c.adds.cnt(k) <= COIN_BUDGET);
        assert(p2.immortal.cnt(k) == p.immortal.cnt(k) + c.adds.cnt(k));
    }
    lemma_sum_by_update(pre.players, t, p2, f_score());
    lemma_sum_by_update(pre.players, t, p2, f_reserved_score());
    lemma_sum_by_update(
        pre.decks,
        deck as int,
        pre.decks[deck as int].remove(card as int),
        f_deck_score(),
    );
    lemma_sum_by_remove(pre.decks[deck as int], card as int, f_card_score());
    lemma_score_sums_nonneg(pre);
    lemma_sum_by_bound(pre.players, t, f_score());
    assert(p.score + c.score <= u8::MAX);
    assert(p2.score == p.score + c.score);
    assert(post.score_total() == pre.score_total());
    assert(post.cards_ok()) by {
        pre.decks[deck as int].remove_ensures(card as int);
        assert(forall|i: int|
            0 <= i < post.players.len() ==> #[trigger] post.players[i].reserved
                == pre.players[i].reserved);
        assert forall|i: int, j: int|
            0 <= i < post.decks.len() && 0 <= j < post.decks[i].len() implies card_ok(
            #[trigger] post.decks[i][j],
        ) by {
            if i == deck as int {
                if j < card as int {
                    assert(post.decks[i][j] == pre.decks[i][j]);
                } else {
                    assert(post.decks[i][j] == pre.decks[i][j + 1]);
                }
            } else {
                assert(post.decks[i] == pre.decks[i]);
            }
        }
    }
    assert(post.nobels == pre.nobels);
    assert(forall|i: int|
        0 <= i < post.nobels.len() ==> (#[trigger] post.nobels[i]).cost.total() <= COIN_BUDGET);
    assert(post.wf());
}

/// Conservation (and with it well-formedness) through a legal purchase
/// out of the acting player's reserve.
#[verifier::rlimit(100)]
proof fn lemma_purchase_reserved_preserves(pre: StateV, index: usize)
    requires
        pre.wf(),
        pre.purchase_reserved_legal(index),
    ensures
        forall|k: ResourceKind| #[trigger] pre.apply_purchase_reserved(index).coin_total(k)
            == pre.coin_total(k),
        pre.apply_purchase_reserved(index).wild_total() == pre.wild_total(),
        forall|k: ResourceKind| #[trigger] pre.apply_purchase_reserved(index).production_total(k)
            == pre.production_total(k),
        pre.apply_purchase_reserved(index).score_total() == pre.score_total(),
        pre.apply_purchase_reserved(index).wf(),
{
    let post = pre.apply_purchase_reserved(index);
    let t = pre.turn as int;
    let p = pre.acting();
    let c = p.reserved[index as int];
    let pr = PlayerV { reserved: p.reserved.remove(index as int), ..p };
    let p2 = post.players[t];
    lemma_player_in_bounds(pre, t);
    lemma_reserved_card_bounds(pre, t, index as int);
    lemma_settlement_cnt(pre, pr, c.cost);
    assert(post.players == pre.players.update(t, p2));
    assert(post.decks == pre.decks);
    assert(p2.reserved == p.reserved.remove(index as int));
    assert forall|k: ResourceKind| #[trigger] post.coin_total(k) == pre.coin_total(k) by {
        lemma_sum_by_update(pre.players, t, p2, f_mortal(k));
    }
    lemma_sum_by_update(pre.players, t, p2, f_wilds());
    assert(post.wild_total() == pre.wild_total());
    assert forall|k: ResourceKind| #[trigger] post.production_total(k) == pre.production_total(
        k,
    ) by {
        lemma_sum_by_update(pre.players, t, p2, f_immortal(k));
        lemma_sum_by_update(pre.players, t, p2, f_reserved_adds(k));
        lemma_sum_by_remove(p.reserved, index as int, f_card_adds(k));
        lemma_adds_sums_nonneg(pre, k);
        assert(p.immortal.cnt(k) <= COIN_BUDGET);
        assert(c.adds.cnt(k) <= COIN_BUDGET);
        assert(p2.immortal.cnt(k) == p.immortal.cnt(k) + c.adds.cnt(k));
    }
    lemma_sum_by_update(pre.players, t, p2, f_score());
    lemma_sum_by_update(pre.players, t, p2, f_reserved_score());
    lemma_sum_by_remove(p.reserved, index as int, f_card_score());
    lemma_score_sums_nonneg(pre);
    lemma_sum_by_bound(pre.players, t, f_score());
    assert(p.score + c.score <= u8::MAX);
    assert(p2.score == p.score + c.score);
    assert(post.score_total() == pre.score_total());
    assert(post.cards_ok()) by {
        p.reserved.remove_ensures(index as int);
        assert forall|i: int, j: int|
            0 <= i < post.players.len() && 0 <= j < post.players[i].reserved.len() implies card_ok(
            #[trigger] post.players[i].reserved[j],
        ) by {
            if i == t {
                if j < index as int {
                    assert(post.players[i].reserved[j] == pre.players[i].reserved[j]);
                } else {
                    assert(post.players[i].reserved[j] == pre.players[i].reserved[j + 1]);
                }
            } else {
                assert(post.players[i] == pre.players[i]);
            }
        }
    }
    assert(post.nobels == pre.nobels);
    assert(forall|i: int|
        0 <= i < post.nobels.len() ==> (#[trigger] post.nobels[i]).cost.total() <= COIN_BUDGET);
    assert(post.wf());
}

/// Conservation (and with it well-formedness) through a legal reserve.
#[verifier::rlimit(100)]
proof fn lemma_reserve_preserves(pre: StateV, deck: usize, card: usize)
    requires
        pre.wf(),
        pre.slot_valid(deck, card),
    ensures
        forall|k: ResourceKind| #[trigger] pre.apply_reserve(deck, card).coin_total(k)
            == pre.coin_total(k),
        pre.apply_reserve(deck, card).wild_total() == pre.wild_total(),
        forall|k: ResourceKind| #[trigger] pre.apply_reserve(deck, card).production_total(k)
            == pre.production_total(k),
        pre.apply_reserve(deck, card).score_total() == pre.score_total(),
        pre.apply_reserve(deck, card).wf(),
{
    let post = pre.apply_reserve(deck, card);
    let t = pre.turn as int;
    let p = pre.acting();
    let c = pre.decks[deck as int][card as int];
    let p2 = post.players[t];
    lemma_player_in_bounds(pre, t);
    assert(post.players == pre.players.update(t, p2));
    assert(post.decks == pre.decks.update(
        deck as int,
        pre.decks[deck as int].remove(card as int),
    ));
    assert(p2.reserved == p.reserved.push(c));
    assert(p2.mortal == p.mortal);
    assert(p2.immortal == p.immortal);
    assert forall|k: ResourceKind| #[trigger] post.coin_total(k) == pre.coin_total(k) by {
        lemma_sum_by_update(pre.players, t, p2, f_mortal(k));
    }
    lemma_sum_by_update(pre.players, t, p2, f_wilds());
    assert(post.wild_total() == pre.wild_total());
    assert forall|k: ResourceKind| #[trigger] post.production_total(k) == pre.production_total(
        k,
    ) by {
        lemma_sum_by_update(pre.players, t, p2, f_immortal(k));
        lemma_sum_by_update(pre.players, t, p2, f_reserved_adds(k));
        lemma_sum_by_update(
            pre.decks,
            deck as int,
            pre.decks[deck as int].remove(card as int),
            f_deck_adds(k),
        );
        lemma_sum_by_remove(pre.decks[deck as int], card as int, f_card_adds(k));
        lemma_sum_by_push(p.reserved, c, f_card_adds(k));
    }
    lemma_sum_by_update(pre.players, t, p2, f_score());
    lemma_sum_by_update(pre.players, t, p2, f_reserved_score());
    lemma_sum_by_update(
        pre.decks,
        deck as int,
        pre.decks[deck as int].remove(card as int),
        f_deck_score(),
    );
    lemma_sum_by_remove(pre.decks[deck as int], card as int, f_card_score());
    lemma_sum_by_push(p.reserved, c, f_card_score());
    assert(post.score_total() == pre.score_total());
    assert(post.cards_ok()) by {
        pre.decks[deck as int].remove_ensures(card as int);
        assert forall|i: int, j: int|
            0 <= i < post.decks.len() && 0 <= j < post.decks[i].len() implies card_ok(
            #[trigger] post.decks[i][j],
        ) by {
            if i == deck as int {
                if j < card as int {
                    assert(post.decks[i][j] == pre.decks[i][j]);
                } else {
                    assert(post.decks[i][j] == pre.decks[i][j + 1]);
                }
            } else {
                assert(post.decks[i] == pre.decks[i]);
            }
        }
        assert forall|i: int, j: int|
            0 <= i < post.players.len() && 0 <= j < post.players[i].reserved.len() implies card_ok(
            #[trigger] post.players[i].reserved[j],
        ) by {
            if i == t {
                if j < p.reserved.len() {
                    assert(post.players[i].reserved[j] == pre.players[i].reserved[j]);
                } else {
                    assert(post.players[i].reserved[j] == c);
                }
            } else {
                assert(post.players[i] == pre.players[i]);
            }
        }
    }
    assert(post.nobels == pre.nobels);
    assert(forall|i: int|
        0 <= i < post.nobels.len() ==> (#[trigger] post.nobels[i]).cost.total() <= COIN_BUDGET);
    assert(post.wf());
}

/// Conservation (and with it well-formedness) through a legal three-coin
/// pick.
#[verifier::rlimit(50)]
proof fn lemma_pick_three_preserves(pre: StateV, one: ResourceKind, two: ResourceKind, three: ResourceKind)
    requires
        pre.wf(),
        pre.pick_three_legal(one, two, three),
    ensures
        forall|k: ResourceKind| #[trigger] pre.apply_pick_three(one, two, three).coin_total(k)
            == pre.coin_total(k),
        pre.apply_pick_three(one, two, three).wild_total() == pre.wild_total(),
        forall|k: ResourceKind| #[trigger] pre.apply_pick_three(
            one,
            two,
            three,
        ).production_total(k) == pre.production_total(k),
        pre.apply_pick_three(one, two, three).score_total() == pre.score_total(),
        pre.apply_pick_three(one, two, three).wf(),
{
    let post = pre.apply_pick_three(one, two, three);
    let t = pre.turn as int;
    let p = pre.acting();
    let p2 = post.players[t];
    lemma_player_in_bounds(pre, t);
    let c1 = pre.coins.spec_add(one, -1);
    let c2 = c1.spec_add(two, -1);
    ResourceMap::lemma_spec_add_cnt(pre.coins, one, -1);
    ResourceMap::lemma_spec_add_cnt(c1, two, -1);
    ResourceMap::lemma_spec_add_cnt(c2, three, -1);
    let m1 = p.mortal.spec_add(one, 1);
    let m2 = m1.spec_add(two, 1);
    ResourceMap::lemma_spec_add_cnt(p.mortal, one, 1);
    ResourceMap::lemma_spec_add_cnt(m1, two, 1);
    ResourceMap::lemma_spec_add_cnt(m2, three, 1);
    assert(post.players == pre.players.update(t, p2));
    assert(p2.immortal == p.immortal);
    assert(p2.reserved == p.reserved);
    assert(p2.wilds == p.wilds);
    assert(p2.score == p.score);
    assert forall|k: ResourceKind| #[trigger] post.coin_total(k) == pre.coin_total(k) by {
        lemma_sum_by_update(pre.players, t, p2, f_mortal(k));
        assert(post.coins.cnt(k) + p2.mortal.cnt(k) == pre.coins.cnt(k) + p.mortal.cnt(k));
    }
    assert forall|k: ResourceKind| #[trigger] post.production_total(k) == pre.production_total(
        k,
    ) by {
        lemma_sum_by_update(pre.players, t, p2, f_immortal(k));
        lemma_sum_by_update(pre.players, t, p2, f_reserved_adds(k));
    }
    lemma_sum_by_update(pre.players, t, p2, f_wilds());
    lemma_sum_by_update(pre.players, t, p2, f_score());
    lemma_sum_by_update(pre.players, t, p2, f_reserved_score());
    assert(post.wild_total() == pre.wild_total());
    assert(post.score_total() == pre.score_total());
    assert(post.cards_ok()) by {
        assert(forall|i: int|
            0 <= i < post.players.len() ==> #[trigger] post.players[i].reserved
                == pre.players[i].reserved);
    }
    assert(post.nobels == pre.nobels);
    assert(forall|i: int|
        0 <= i < post.nobels.len() ==> (#[trigger] post.nobels[i]).cost.total() <= COIN_BUDGET);
    assert(post.wf());
}

/// Conservation (and with it well-formedness) through a legal two-coin
/// take.
#[verifier::rlimit(50)]
proof fn lemma_pick_two_preserves(pre: StateV, color: ResourceKind)
    requires
        pre.wf(),
        pre.pick_two_legal(color),
    ensures
        forall|k: ResourceKind| #[trigger] pre.apply_pick_two(color).coin_total(k)
            == pre.coin_total(k),
        pre.apply_pick_two(color).wild_total() == pre.wild_total(),
        forall|k: ResourceKind| #[trigger] pre.apply_pick_two(color).production_total(k)
            == pre.production_total(k),
        pre.apply_pick_two(color).score_total() == pre.score_total(),
        pre.apply_pick_two(color).wf(),
{
    let post = pre.apply_pick_two(color);
    let t = pre.turn as int;
    let p = pre.acting();
    let p2 = post.players[t];
    lemma_player_in_bounds(pre, t);
    assert(post.players == pre.players.update(t, p2));
    lemma_players_update_sums(pre.players, t, p2);
    assert forall|k: ResourceKind| #[trigger] post.coin_total(k) == pre.coin_total(k) by {
        lemma_sum_by_update(pre.players, t, p2, f_mortal(k));
        assert(post.coins.cnt(k) + p2.mortal.cnt(k) == pre.coins.cnt(k) + p.mortal.cnt(k));
    }
    assert forall|k: ResourceKind| #[trigger] post.production_total(k) == pre.production_total(
        k,
    ) by {
        lemma_sum_by_update(pre.players, t, p2, f_immortal(k));
        lemma_sum_by_update(pre.players, t, p2, f_reserved_adds(k));
        assert(p2.immortal == p.immortal);
        assert(p2.reserved == p.reserved);
    }
    assert(post.cards_ok()) by {
        assert(forall|i: int|
            0 <= i < post.players.len() ==> #[trigger] post.players[i].reserved
                == pre.players[i].reserved);
    }
    assert(post.nobels == pre.nobels);
    assert(forall|i: int|
        0 <= i < post.nobels.len() ==> (#[trigger] post.nobels[i]).cost.total() <= COIN_BUDGET);
    assert(post.wf());
}

/// The conservation law: no legal transition creates or destroys coins,
/// wild coins, production or score.  For every resource kind, the coins
/// in the bank plus the players' spendable coins stay constant, and so do
/// the wild total, the production total and the score total; on top of
/// that, a well-formed state stays well-formed, so the law carries over
/// any sequence of successful transitions by induction.
pub proof fn lemma_run_conserves(pre: StateV, a: Action)
    requires
        pre.wf(),
        pre.action_legal(a),
    ensures
        forall|k: ResourceKind| #[trigger] pre.apply_action(a).coin_total(k) == pre.coin_total(k),
        pre.apply_action(a).wild_total() == pre.wild_total(),
        forall|k: ResourceKind| #[trigger] pre.apply_action(a).production_total(k)
            == pre.production_total(k),
        pre.apply_action(a).score_total() == pre.score_total(),
        pre.apply_action(a).players.len() == pre.players.len(),
        pre.apply_action(a).nobels == pre.nobels,
        pre.apply_action(a).wf(),
{
    match a {
        Action::PickThree { one, two, three } => lemma_pick_three_preserves(pre, one, two, three),
        Action::PickTwo { color } => lemma_pick_two_preserves(pre, color),
        Action::Purchase { deck, card } => lemma_purchase_preserves(pre, deck, card),
        Action::PurchaseReserved { index } => lemma_purchase_reserved_preserves(pre, index),
        Action::Reserve { deck, card } => lemma_reserve_preserves(pre, deck, card),
        Action::Skip => {
            let post = pre.apply_action(a);
            assert(post.players == pre.players);
            assert(forall|k: ResourceKind| #[trigger] post.coin_total(k) == pre.coin_total(k));
            assert(forall|k: ResourceKind| #[trigger] post.production_total(k)
                == pre.production_total(k));
            assert(post.wild_total() == pre.wild_total());
            assert(post.score_total() == pre.score_total());
            assert(post.wf());
        },
    }
}

impl StateV {
    /// The state after applying a whole sequence of actions in order.
    pub open spec fn apply_all(self, acts: Seq<Action>) -> StateV
        decreases acts.len(),
    {
        if acts.len() == 0 {
            self
        } else {
            self.apply_action(acts[0]).apply_all(acts.skip(1))
        }
    }

    /// Every action of the sequence is legal when its turn comes.
    pub open spec fn all_legal(self, acts: Seq<Action>) -> bool
        decreases acts.len(),
    {
        acts.len() == 0 || (self.action_legal(acts[0]) && self.apply_action(acts[0]).all_legal(
            acts.skip(1),
        ))
    }
}

/// The conservation law over whole games: across any sequence of
/// successful transitions, every coin total, the wild total, every
/// production total and the score total equal their starting values, and
/// the state stays well-formed.
pub proof fn lemma_sequence_conserves(pre: StateV, acts: Seq<Action>)
    requires
        pre.wf(),
        pre.all_legal(acts),
    ensures
        forall|k: ResourceKind| #[trigger] pre.apply_all(acts).coin_total(k) == pre.coin_total(k),
        pre.apply_all(acts).wild_total() == pre.wild_total(),
        forall|k: ResourceKind| #[trigger] pre.apply_all(acts).production_total(k)
            == pre.production_total(k),
        pre.apply_all(acts).score_total() == pre.score_total(),
        pre.apply_all(acts).wf(),
    decreases acts.len(),
{
    if acts.len() > 0 {
        lemma_run_conserves(pre, acts[0]);
        lemma_sequence_conserves(pre.apply_action(acts[0]), acts.skip(1));
    }
}

/// Affordability equivalence: with a valid deck/slot address, a purchase
/// is legal exactly when the acting player can settle the card's cost —
/// so `can_purchase` answers precisely whether `run` would accept the
/// purchase, and `Player::purchase` succeeds under exactly the same
/// condition.
pub proof fn lemma_affordability_equivalence(st: StateV, deck: usize, card: usize)
    requires
        st.slot_valid(deck, card),
    ensures
        st.action_legal(Action::Purchase { deck, card }) <==> st.acting().can_purchase_spec(
            st.decks[deck as int][card as int].cost,
        ),
{
}

/// The same equivalence for a purchase out of the reserve: with a valid
/// reserve index, legality is exactly the acting player's affordability
/// of that card's cost.
pub proof fn lemma_affordability_equivalence_reserved(st: StateV, index: usize)
    requires
        index < st.acting().reserved.len(),
    ensures
        st.action_legal(Action::PurchaseReserved { index }) <==> st.acting().can_purchase_spec(
            st.acting().reserved[index as int].cost,
        ),
{
}

/// Non-negativity: no resource count, wild count or score of any state
/// the engine can represent is negative — the counters are unsigned, and
/// Verus checks every subtraction in the engine, so this holds after
/// successful and failed transitions alike.
pub proof fn lemma_counts_nonnegative(st: StateV)
    ensures
        forall|k: ResourceKind| #[trigger] st.coins.cnt(k) >= 0,
        st.wilds >= 0,
        forall|i: int, k: ResourceKind|
            0 <= i < st.players.len() ==> #[trigger] st.players[i].mortal.cnt(k) >= 0,
        forall|i: int, k: ResourceKind|
            0 <= i < st.players.len() ==> #[trigger] st.players[i].immortal.cnt(k) >= 0,
        forall|i: int| 0 <= i < st.players.len() ==> (#[trigger] st.players[i]).wilds >= 0,
        forall|i: int| 0 <= i < st.players.len() ==> (#[trigger] st.players[i]).score >= 0,
{
}

impl Clone for State {
    /// A deep copy with the same model.  The move generator explores by
    /// cloning and speculatively applying; branches never share state.
    fn clone(&self) -> (r: Self)
        ensures
            r@ == self@,
    {
        let mut decks: Vec<Vec<Card>> = Vec::new();
        let nd = self.decks.len();
        let mut x: usize = 0;
        while x < nd
            invariant
                x <= nd,
                nd == self.decks@.len(),
                decks@.len() == x,
                forall|i: int| 0 <= i < x ==> #[trigger] decks@[i]@ == self.decks@[i]@,
            decreases nd - x,
        {
            let dl = self.decks[x].len();
            let mut d: Vec<Card> = Vec::new();
            let mut y: usize = 0;
            while y < dl
                invariant
                    y <= dl,
                    x < nd,
                    nd == self.decks@.len(),
                    dl == self.decks@[x as int]@.len(),
                    d@ == self.decks@[x as int]@.subrange(0, y as int),
                decreases dl - y,
            {
                d.push(self.decks[x][y]);
                proof {
                    assert(d@ =~= self.decks@[x as int]@.subrange(0, y + 1));
                }
                y = y + 1;
            }
            proof {
                assert(d@ =~= self.decks@[x as int]@);
            }
            decks.push(d);
            x = x + 1;
        }
        let mut players: Vec<Player> = Vec::new();
        let np = self.players.len();
        let mut i: usize = 0;
        while i < np
            invariant
                i <= np,
                np == self.players@.len(),
                players@.len() == i,
                forall|j: int| 0 <= j < i ==> #[trigger] players@[j]@ == self.players@[j]@,
            decreases np - i,
        {
            players.push(self.players[i].clone());
            i = i + 1;
        }
        let mut nobels: Vec<Nobel> = Vec::new();
        let nn = self.nobels.len();
        let mut i: usize = 0;
        while i < nn
            invariant
                i <= nn,
                nn == self.nobels@.len(),
                nobels@ == self.nobels@.subrange(0, i as int),
            decreases nn - i,
        {
            nobels.push(self.nobels[i]);
            proof {
                assert(nobels@ =~= self.nobels@.subrange(0, i + 1));
            }
            i = i + 1;
        }
        let r = State {
            decks,
            players,
            coins: self.coins,
            wilds: self.wilds,
            turn: self.turn,
            nobels,
        };
        proof {
            assert(r.nobels@ =~= self.nobels@);
            assert(r@.decks =~~= self@.decks);
            assert(r@.players =~= self@.players);
            assert(r@ =~~= self@);
        }
        r
    }
}

impl State {
    /// Advances the rotating turn pointer by one seat.
    pub fn change_player(&mut self)
        requires
            old(self)@.turn < old(self)@.players.len(),
        ensures
            final(self)@ == (StateV { turn: old(self)@.next_turn(), ..old(self)@ }),
    {
        let n = self.players.len();
        self.turn = self.turn + 1;
        if self.turn == n {
            self.turn = 0;
        }
        assert(self@ =~~= (StateV { turn: old(self)@.next_turn(), ..old(self)@ }));
    }

    /// Whether the game has ended: the turn pointer has wrapped back to
    /// the first seat and someone's score is above the goal.
    pub fn is_finished(&self) -> (r: bool)
        ensures
            r == self@.finished(),
    {
        if self.turn != 0 {
            return false;
        }
        let n = self.players.len();
        let mut i: usize = 0;
        while i < n
            invariant
                i <= n,
                n == self@.players.len(),
                self@.turn == 0,
                forall|j: int| 0 <= j < i ==> !(#[trigger] self@.players[j].score > SCORE_GOAL),
            decreases n - i,
        {
            if self.players[i].score > SCORE_GOAL {
                assert(self@.players[i as int].score > SCORE_GOAL);
                return true;
            }
            i = i + 1;
        }
        false
    }

    /// Validates and applies a three-coin pick.
    fn run_pick_three(&mut self, one: ResourceKind, two: ResourceKind, three: ResourceKind) -> (r:
        Result<(), ActionError>)
        requires
            old(self)@.wf(),
        ensures
            r is Ok <==> old(self)@.pick_three_legal(one, two, three),
            r == old(self)@.run_result(Action::PickThree { one, two, three }),
            r is Ok ==> final(self)@ == old(self)@.apply_pick_three(one, two, three),
            r is Err ==> final(self)@ == old(self)@,
    {
        if one == two || one == three || two == three {
            return Err(ActionError::DuplicatePick);
        }
        if self.coins.get(one) == 0 {
            return Err(ActionError::NoCoin { kind: one });
        }
        if self.coins.get(two) == 0 {
            return Err(ActionError::NoCoin { kind: two });
        }
        if self.coins.get(three) == 0 {
            return Err(ActionError::NoCoin { kind: three });
        }
        let ghost pre = self@;
        proof {
            lemma_player_in_bounds(pre, pre.turn as int);
        }
        let t = self.turn;
        let v = self.coins.get(one);
        self.coins.set(one, v - 1);
        let v = self.coins.get(two);
        self.coins.set(two, v - 1);
        let v = self.coins.get(three);
        self.coins.set(three, v - 1);
        proof {
            assert(self@.players == pre.players);
            assert(self@.players[t as int].mortal.cnt(one) + 3 <= usize::MAX);
            assert(self@.players[t as int].mortal.cnt(two) + 3 <= usize::MAX);
            assert(self@.players[t as int].mortal.cnt(three) + 3 <= usize::MAX);
        }
        {
            let p = &mut self.players[t];
            let v = p.mortal.get(one);
            p.mortal.set(one, v + 1);
            let v = p.mortal.get(two);
            p.mortal.set(two, v + 1);
            let v = p.mortal.get(three);
            p.mortal.set(three, v + 1);
        }
        self.change_player();
        proof {
            let p2 = pre.apply_pick_three(one, two, three).players[pre.turn as int];
            assert(self@.players =~= pre.players.update(pre.turn as int, p2));
            assert(self@ =~~= pre.apply_pick_three(one, two, three));
        }
        Ok(())
    }

    /// Validates and applies a two-coin take.
    fn run_pick_two(&mut self, color: ResourceKind) -> (r: Result<(), ActionError>)
        requires
            old(self)@.wf(),
        ensures
            r is Ok <==> old(self)@.pick_two_legal(color),
            r == old(self)@.run_result(Action::PickTwo { color }),
            r is Ok ==> final(self)@ == old(self)@.apply_pick_two(color),
            r is Err ==> final(self)@ == old(self)@,
    {
        if self.coins.get(color) < 4 {
            return Err(ActionError::NotEnoughRemaining { kind: color });
        }
        let ghost pre = self@;
        proof {
            lemma_player_in_bounds(pre, pre.turn as int);
        }
        let t = self.turn;
        let v = self.coins.get(color);
        self.coins.set(color, v - 2);
        proof {
            assert(self@.players == pre.players);
            assert(self@.players[t as int].mortal.cnt(color) + 2 <= usize::MAX);
        }
        {
            let p = &mut self.players[t];
            let v = p.mortal.get(color);
            p.mortal.set(color, v + 2);
        }
        self.change_player();
        proof {
            let p2 = pre.apply_pick_two(color).players[pre.turn as int];
            assert(self@.players =~= pre.players.update(pre.turn as int, p2));
            assert(self@ =~~= pre.apply_pick_two(color));
        }
        Ok(())
    }

    /// Validates and applies a purchase of a visible card.
    fn run_purchase(&mut self, deck: usize, card: usize) -> (r: Result<(), ActionError>)
        requires
            old(self)@.wf(),
        ensures
            r is Ok <==> old(self)@.purchase_legal(deck, card),
            r == old(self)@.run_result(Action::Purchase { deck, card }),
            r is Ok ==> final(self)@ == old(self)@.apply_purchase(deck, card),
            r is Err ==> final(self)@ == old(self)@,
    {
        if deck >= self.decks.len() {
            return Err(ActionError::InvalidDeck);
        }
        if card >= MAX_DECK_SHOW {
            return Err(ActionError::NotVisible);
        }
        if card >= self.decks[deck].len() {
            return Err(ActionError::InvalidCard);
        }
        let ghost pre = self@;
        let t = self.turn;
        let c = self.decks[deck][card];
        proof {
            assert(c == pre.decks[deck as int][card as int]);
            assert(card_ok(c));
        }
        if !self.players[t].can_purchase(&c.cost) {
            return Err(ActionError::NotEnoughResources);
        }
        proof {
            lemma_player_in_bounds(pre, t as int);
            lemma_deck_card_bounds(pre, deck as int, card as int);
            lemma_settlement_cnt(pre, pre.acting(), c.cost);
            lemma_score_sums_nonneg(pre);
            lemma_sum_by_bound(pre.players, t as int, f_score());
            assert(pre.acting().score + c.score <= u8::MAX);
            assert forall|k: ResourceKind| pre.acting().immortal.cnt(k) + #[trigger] c.adds.cnt(k)
                <= usize::MAX by {
                lemma_adds_sums_nonneg(pre, k);
            }
        }
        {
            let p = &mut self.players[t];
            let res = p.purchase(&c.cost, &mut self.coins, &mut self.wilds);
            match res {
                Ok(()) => {},
                Err(_) => {
                    proof {
                        assert(false);
                    }
                    return Err(ActionError::NotEnoughResources);
                },
            }
            p.immortal.add(&c.adds);
            let s = p.score;
            p.score = s + c.score;
        }
        let _removed = self.decks[deck].remove(card);
        self.change_player();
        proof {
            assert(self@.players =~= pre.players.update(
                t as int,
                StateV::receive_card(pre.acting(), c),
            ));
            assert(self@.decks =~= pre.decks.update(
                deck as int,
                pre.decks[deck as int].remove(card as int),
            ));
            assert(self@ =~~= pre.apply_purchase(deck, card));
        }
        Ok(())
    }

    /// Validates and applies a purchase out of the acting player's
    /// reserve.
    fn run_purchase_reserved(&mut self, index: usize) -> (r: Result<(), ActionError>)
        requires
            old(self)@.wf(),
        ensures
            r is Ok <==> old(self)@.purchase_reserved_legal(index),
            r == old(self)@.run_result(Action::PurchaseReserved { index }),
            r is Ok ==> final(self)@ == old(self)@.apply_purchase_reserved(index),
            r is Err ==> final(self)@ == old(self)@,
    {
        let ghost pre = self@;
        let t = self.turn;
        if index >= self.players[t].reserved.len() {
            return Err(ActionError::InvalidReservedIndex);
        }
        let c = self.players[t].reserved[index];
        proof {
            assert(c == pre.acting().reserved[index as int]);
            assert(card_ok(c));
        }
        if !self.players[t].can_purchase(&c.cost) {
            return Err(ActionError::NotEnoughResources);
        }
        let ghost pr = (PlayerV {
            reserved: pre.acting().reserved.remove(index as int),
            ..pre.acting()
        });
        proof {
            lemma_player_in_bounds(pre, t as int);
            lemma_reserved_card_bounds(pre, t as int, index as int);
            lemma_settlement_cnt(pre, pr, c.cost);
            lemma_score_sums_nonneg(pre);
            lemma_sum_by_bound(pre.players, t as int, f_score());
            assert(pre.acting().score + c.score <= u8::MAX);
            assert forall|k: ResourceKind| pre.acting().immortal.cnt(k) + #[trigger] c.adds.cnt(k)
                <= usize::MAX by {
                lemma_adds_sums_nonneg(pre, k);
            }
        }
        {
            let p = &mut self.players[t];
            let c2 = p.reserved.remove(index);
            proof {
                assert(c2 == c);
                assert(p@ == pr);
            }
            let res = p.purchase(&c2.cost, &mut self.coins, &mut self.wilds);
            match res {
                Ok(()) => {},
                Err(_) => {
                    proof {
                        assert(false);
                    }
                    return Err(ActionError::NotEnoughResources);
                },
            }
            p.immortal.add(&c2.adds);
            let s = p.score;
            p.score = s + c2.score;
        }
        self.change_player();
        proof {
            assert(self@.players =~= pre.players.update(
                t as int,
                StateV::receive_card(pr, c),
            ));
            assert(self@ =~~= pre.apply_purchase_reserved(index));
        }
        Ok(())
    }

    /// Validates and applies a reserve of a visible card.
    fn run_reserve(&mut self, deck: usize, card: usize) -> (r: Result<(), ActionError>)
        requires
            old(self)@.wf(),
        ensures
            r is Ok <==> old(self)@.slot_valid(deck, card),
            r == old(self)@.run_result(Action::Reserve { deck, card }),
            r is Ok ==> final(self)@ == old(self)@.apply_reserve(deck, card),
            r is Err ==> final(self)@ == old(self)@,
    {
        if deck >= self.decks.len() {
            return Err(ActionError::InvalidDeck);
        }
        if card >= MAX_DECK_SHOW {
            return Err(ActionError::NotVisible);
        }
        if card >= self.decks[deck].len() {
            return Err(ActionError::InvalidCard);
        }
        let ghost pre = self@;
        let t = self.turn;
        let c = self.decks[deck].remove(card);
        proof {
            assert(c == pre.decks[deck as int][card as int]);
        }
        self.players[t].reserved.push(c);
        self.change_player();
        proof {
            let p2 = (PlayerV { reserved: pre.acting().reserved.push(c), ..pre.acting() });
            assert(self@.players =~= pre.players.update(t as int, p2));
            assert(self@.decks =~= pre.decks.update(
                deck as int,
                pre.decks[deck as int].remove(card as int),
            ));
            assert(self@ =~~= pre.apply_reserve(deck, card));
        }
        Ok(())
    }

    /// The single validated transition entry point.  A legal action is
    /// applied in full and the turn advances by one seat; an illegal one
    /// is rejected with the first failing precondition and the state is
    /// left untouched.
    pub fn run(&mut self, action: Action) -> (r: Result<(), ActionError>)
        requires
            old(self)@.wf(),
        ensures
            r is Ok <==> old(self)@.action_legal(action),
            r == old(self)@.run_result(action),
            r is Ok ==> final(self)@ == old(self)@.apply_action(action),
            r is Err ==> final(self)@ == old(self)@,
            final(self)@.wf(),
            r is Ok ==> final(self)@.turn as int == (old(self)@.turn + 1) % (
            old(self)@.players.len() as int),
            final(self)@.players.len() == old(self)@.players.len(),
            final(self)@.nobels == old(self)@.nobels,
    {
        let ghost pre = self@;
        let r = match action {
            Action::PickThree { one, two, three } => self.run_pick_three(one, two, three),
            Action::PickTwo { color } => self.run_pick_two(color),
            Action::Purchase { deck, card } => self.run_purchase(deck, card),
            Action::PurchaseReserved { index } => self.run_purchase_reserved(index),
            Action::Reserve { deck, card } => self.run_reserve(deck, card),
            Action::Skip => {
                self.change_player();
                Ok(())
            },
        };
        proof {
            if r is Ok {
                lemma_run_conserves(pre, action);
                let n = pre.players.len() as int;
                if pre.turn + 1 == n {
                    vstd::arithmetic::div_mod::lemma_mod_self_0(n);
                } else {
                    vstd::arithmetic::div_mod::lemma_small_mod((pre.turn + 1) as nat, n as nat);
                }
            }
        }
        r
    }

    /// All `(deck, slot)` pairs a `Purchase` or `Reserve` may address.
    pub fn card_iter(&self) -> (r: Vec<(usize, usize)>)
        ensures
            r@ == visible_pairs(self@.decks),
    {
        let mut r: Vec<(usize, usize)> = Vec::new();
        let nd = self.decks.len();
        proof {
            assert(self@.decks.take(0) =~= Seq::<Seq<Card>>::empty());
        }
        let mut x: usize = 0;
        while x < nd
            invariant
                x <= nd,
                nd == self@.decks.len(),
                self@.decks == self.decks@.map_values(|d: Vec<Card>| d@),
                r@ == visible_pairs(self@.decks.take(x as int)),
            decreases nd - x,
        {
            let dl = self.decks[x].len();
            let m = if dl < MAX_DECK_SHOW {
                dl
            } else {
                MAX_DECK_SHOW
            };
            let ghost r0 = r@;
            let mut y: usize = 0;
            while y < m
                invariant
                    y <= m,
                    x < nd,
                    nd == self@.decks.len(),
                    m as int == (if self@.decks[x as int].len() < MAX_DECK_SHOW {
                        self@.decks[x as int].len() as int
                    } else {
                        MAX_DECK_SHOW as int
                    }),
                    r@ == r0 + Seq::new(y as nat, |j: int| (x, j as usize)),
                decreases m - y,
            {
                r.push((x, y));
                proof {
                    assert(r@ =~= r0 + Seq::new((y + 1) as nat, |j: int| (x, j as usize)));
                }
                y = y + 1;
            }
            proof {
                assert(self@.decks.take(x + 1).drop_last() =~= self@.decks.take(x as int));
                assert(self@.decks.take(x + 1).last() == self@.decks[x as int]);
                assert(Seq::new(m as nat, |j: int| (x, j as usize)) =~= visible_in_deck(
                    self@.decks[x as int].len() as int,
                    x,
                ));
                assert(r@ =~= visible_pairs(self@.decks.take(x + 1)));
            }
            x = x + 1;
        }
        proof {
            assert(self@.decks.take(nd as int) =~= self@.decks);
        }
        r
    }

    /// The kinds a `PickTwo` may take: bank count at least four.
    pub fn pick_two_iter(&self) -> (r: Vec<ResourceKind>)
        ensures
            r@ == pick_two_kinds(self.coins),
    {
        let mut r: Vec<ResourceKind> = Vec::new();
        if self.coins.get(ResourceKind::Red) >= 4 {
            r.push(ResourceKind::Red);
        }
        if self.coins.get(ResourceKind::Blue) >= 4 {
            r.push(ResourceKind::Blue);
        }
        if self.coins.get(ResourceKind::Green) >= 4 {
            r.push(ResourceKind::Green);
        }
        if self.coins.get(ResourceKind::White) >= 4 {
            r.push(ResourceKind::White);
        }
        if self.coins.get(ResourceKind::Black) >= 4 {
            r.push(ResourceKind::Black);
        }
        proof {
            assert(r@ =~= pick_two_kinds(self.coins));
        }
        r
    }

    /// The fixed list of triples a `PickThree` may name.
    pub fn pick_three_iter(&self) -> (r: Vec<(ResourceKind, ResourceKind, ResourceKind)>)
        ensures
            r@ == pick_three_candidates(),
    {
        let mut r: Vec<(ResourceKind, ResourceKind, ResourceKind)> = Vec::new();
        r.push((ResourceKind::Red, ResourceKind::Green, ResourceKind::Blue));
        r.push((ResourceKind::Red, ResourceKind::Green, ResourceKind::White));
        r.push((ResourceKind::Red, ResourceKind::Green, ResourceKind::Black));
        r.push((ResourceKind::Red, ResourceKind::Blue, ResourceKind::White));
        r.push((ResourceKind::Red, ResourceKind::Blue, ResourceKind::Black));
        r.push((ResourceKind::Red, ResourceKind::White, ResourceKind::Black));
        r.push((ResourceKind::Green, ResourceKind::Blue, ResourceKind::White));
        r.push((ResourceKind::Green, ResourceKind::Blue, ResourceKind::Black));
        r.push((ResourceKind::Green, ResourceKind::White, ResourceKind::Black));
        r.push((ResourceKind::Blue, ResourceKind::Black, ResourceKind::White));
        proof {
            assert(r@ =~= pick_three_candidates());
        }
        r
    }

    /// The winning seat: the first index with the strictly highest score.
    pub fn winner(&self) -> (w: usize)
        requires
            self@.players.len() >= 1,
        ensures
            self@.is_winner(w as int),
    {
        let n = self.players.len();
        let mut best: usize = 0;
        let mut i: usize = 1;
        while i < n
            invariant
                1 <= i <= n,
                best < i,
                n == self@.players.len(),
                forall|j: int|
                    0 <= j < i ==> #[trigger] self@.players[j].score
                        <= self@.players[best as int].score,
                forall|j: int|
                    0 <= j < best ==> #[trigger] self@.players[j].score
                        < self@.players[best as int].score,
            decreases n - i,
        {
            if self.players[i].score > self.players[best].score {
                best = i;
            }
            i = i + 1;
        }
        best
    }
}

} // verus!
