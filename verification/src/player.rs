//! Per-agent holdings and the purchase-settlement logic: spendable coins,
//! card-granted permanent production, wild coins, score and the reserve.

use vstd::prelude::*;
use vstd::math::{max, min};
use crate::action::ActionError;
use crate::cards::Card;
use crate::resources::{ResourceKind, ResourceMap};

verus! {

/// One player's mutable holdings.  `mortal` coins return to the bank when
/// spent; `immortal` production only ever grows; `wilds` settle any kind.
pub struct Player {
    pub mortal: ResourceMap,
    pub immortal: ResourceMap,
    pub score: u8,
    pub reserved: Vec<Card>,
    pub wilds: usize,
    pub display_name: String,
}

/// The mathematical model of a `Player`.
#[verifier::ext_equal]
pub struct PlayerV {
    pub mortal: ResourceMap,
    pub immortal: ResourceMap,
    pub score: u8,
    pub reserved: Seq<Card>,
    pub wilds: usize,
    pub name: Seq<char>,
}

impl View for Player {
    type V = PlayerV;

    open spec fn view(&self) -> PlayerV {
        PlayerV {
            mortal: self.mortal,
            immortal: self.immortal,
            score: self.score,
            reserved: self.reserved@,
            wilds: self.wilds,
            name: self.display_name@,
        }
    }
}

impl PlayerV {
    /// Coins of kind `k` still owed after permanent production is counted.
    pub open spec fn need(self, cost: ResourceMap, k: ResourceKind) -> int {
        max(cost.cnt(k) - self.immortal.cnt(k), 0)
    }

    /// Spendable coins of kind `k` handed to the bank on settlement.
    pub open spec fn paid(self, cost: ResourceMap, k: ResourceKind) -> int {
        min(self.need(cost, k), self.mortal.cnt(k))
    }

    /// Wild coins needed to cover kind `k` beyond spendable coins.
    pub open spec fn short(self, cost: ResourceMap, k: ResourceKind) -> int {
        max(self.need(cost, k) - self.mortal.cnt(k), 0)
    }

    /// Wild coins needed to settle the whole cost.
    pub open spec fn total_short(self, cost: ResourceMap) -> int {
        self.short(cost, ResourceKind::Red) + self.short(cost, ResourceKind::Blue) + self.short(
            cost,
            ResourceKind::Green,
        ) + self.short(cost, ResourceKind::White) + self.short(cost, ResourceKind::Black)
    }

    /// Whether the player can settle `cost`; exactly when settlement
    /// succeeds.
    pub open spec fn can_purchase_spec(self, cost: ResourceMap) -> bool {
        self.total_short(cost) <= self.wilds
    }

    /// Spendable coins after settling `cost`.
    pub open spec fn mortal_after_pay(self, cost: ResourceMap) -> ResourceMap {
        ResourceMap {
            red: (self.mortal.cnt(ResourceKind::Red) - self.paid(cost, ResourceKind::Red)) as usize,
            blue: (self.mortal.cnt(ResourceKind::Blue) - self.paid(
                cost,
                ResourceKind::Blue,
            )) as usize,
            green: (self.mortal.cnt(ResourceKind::Green) - self.paid(
                cost,
                ResourceKind::Green,
            )) as usize,
            white: (self.mortal.cnt(ResourceKind::White) - self.paid(
                cost,
                ResourceKind::White,
            )) as usize,
            black: (self.mortal.cnt(ResourceKind::Black) - self.paid(
                cost,
                ResourceKind::Black,
            )) as usize,
        }
    }

    /// The player after settling `cost`: spendable coins and wilds are
    /// consumed; production, score, reserve and name are untouched.
    pub open spec fn after_purchase(self, cost: ResourceMap) -> PlayerV {
        PlayerV {
            mortal: self.mortal_after_pay(cost),
            wilds: (self.wilds - self.total_short(cost)) as usize,
            ..self
        }
    }

    /// The bank's coins after this player settles `cost`: the spendable
    /// coins spent per kind are credited back.
    pub open spec fn coins_after_pay(self, cost: ResourceMap, coins: ResourceMap) -> ResourceMap {
        ResourceMap {
            red: (coins.cnt(ResourceKind::Red) + self.paid(cost, ResourceKind::Red)) as usize,
            blue: (coins.cnt(ResourceKind::Blue) + self.paid(cost, ResourceKind::Blue)) as usize,
            green: (coins.cnt(ResourceKind::Green) + self.paid(cost, ResourceKind::Green)) as usize,
            white: (coins.cnt(ResourceKind::White) + self.paid(cost, ResourceKind::White)) as usize,
            black: (coins.cnt(ResourceKind::Black) + self.paid(cost, ResourceKind::Black)) as usize,
        }
    }
}

impl Clone for Player {
    /// A deep copy with the same model; search branches clone the acting
    /// state before speculative application.
    fn clone(&self) -> (r: Self)
        ensures
            r@ == self@,
    {
        let mut reserved: Vec<Card> = Vec::new();
        let n = self.reserved.len();
        let mut i: usize = 0;
        while i < n
            invariant
                i <= n,
                n == self.reserved@.len(),
                reserved@ == self.reserved@.subrange(0, i as int),
            decreases n - i,
        {
            reserved.push(self.reserved[i]);
            proof {
                assert(reserved@ =~= self.reserved@.subrange(0, i + 1));
            }
            i = i + 1;
        }
        let r = Player {
            mortal: self.mortal,
            immortal: self.immortal,
            score: self.score,
            reserved,
            wilds: self.wilds,
            display_name: self.display_name.clone(),
        };
        proof {
            assert(r.reserved@ =~= self.reserved@);
            assert(r@ =~= self@);
        }
        r
    }
}

impl Player {
    /// A fresh player with empty holdings.
    pub fn new(name: &str) -> (p: Player)
        ensures
            p@ == (PlayerV {
                mortal: ResourceMap::zero(),
                immortal: ResourceMap::zero(),
                score: 0,
                reserved: Seq::empty(),
                wilds: 0,
                name: name@,
            }),
    {
        let p = Player {
            mortal: ResourceMap::new(),
            immortal: ResourceMap::new(),
            score: 0,
            reserved: Vec::new(),
            wilds: 0,
            display_name: name.to_owned(),
        };
        assert(p@ =~= (PlayerV {
            mortal: ResourceMap::zero(),
            immortal: ResourceMap::zero(),
            score: 0,
            reserved: Seq::empty(),
            wilds: 0,
            name: name@,
        }));
        p
    }

    /// Wild coins needed for kind `k` of `cost` beyond this player's
    /// production and spendable coins.
    fn shortfall(&self, cost: &ResourceMap, k: ResourceKind) -> (s: usize)
        ensures
            s as int == self@.short(*cost, k),
    {
        let c = cost.get(k);
        let im = self.immortal.get(k);
        let nd = if c > im {
            c - im
        } else {
            0
        };
        let mo = self.mortal.get(k);
        if nd > mo {
            nd - mo
        } else {
            0
        }
    }

    /// Whether this player can settle `cost`.  True exactly when
    /// `purchase` with the same cost succeeds.
    pub fn can_purchase(&self, cost: &ResourceMap) -> (b: bool)
        requires
            cost.total() <= usize::MAX,
        ensures
            b == self@.can_purchase_spec(*cost),
    {
        let s = self.shortfall(cost, ResourceKind::Red) + self.shortfall(cost, ResourceKind::Blue)
            + self.shortfall(cost, ResourceKind::Green) + self.shortfall(
            cost,
            ResourceKind::White,
        ) + self.shortfall(cost, ResourceKind::Black);
        s <= self.wilds
    }

    /// Moves the spendable coins owed for kind `k` from this player to the
    /// bank.
    fn pay_kind(&mut self, cost: &ResourceMap, state_coins: &mut ResourceMap, k: ResourceKind)
        requires
            old(state_coins).cnt(k) + old(self)@.mortal.cnt(k) <= usize::MAX,
        ensures
            final(self).mortal == old(self).mortal.spec_set(
                k,
                old(self)@.mortal.cnt(k) - old(self)@.paid(*cost, k),
            ),
            final(self).immortal == old(self).immortal,
            final(self).score == old(self).score,
            final(self).reserved == old(self).reserved,
            final(self).wilds == old(self).wilds,
            final(self).display_name == old(self).display_name,
            *final(state_coins) == old(state_coins).spec_set(
                k,
                old(state_coins).cnt(k) + old(self)@.paid(*cost, k),
            ),
    {
        let c = cost.get(k);
        let im = self.immortal.get(k);
        let nd = if c > im {
            c - im
        } else {
            0
        };
        let mo = self.mortal.get(k);
        let p = if nd > mo {
            mo
        } else {
            nd
        };
        self.mortal.set(k, mo - p);
        let bank = state_coins.get(k);
        state_coins.set(k, bank + p);
    }

    /// Settles `cost` against this player's holdings, crediting spent
    /// spendable coins to the bank and spent wilds to the wild bank.
    /// All-or-nothing: on failure nothing is touched.  Succeeds if and
    /// only if `can_purchase` holds of the cost.
    pub fn purchase(&mut self, cost: &ResourceMap, state_coins: &mut ResourceMap, state_wilds: &mut usize) -> (r:
        Result<(), ActionError>)
        requires
            cost.total() <= usize::MAX,
            forall|k: ResourceKind| #![trigger old(state_coins).cnt(k)] old(state_coins).cnt(k)
                + old(self)@.mortal.cnt(k) <= usize::MAX,
            *old(state_wilds) + old(self)@.wilds <= usize::MAX,
        ensures
            r is Ok <==> old(self)@.can_purchase_spec(*cost),
            r is Ok ==> final(self)@ == old(self)@.after_purchase(*cost) && *final(state_coins)
                == old(self)@.coins_after_pay(*cost, *old(state_coins)) && *final(state_wilds)
                == *old(state_wilds) + old(self)@.total_short(*cost),
            r is Err ==> final(self)@ == old(self)@ && *final(state_coins) == *old(state_coins)
                && *final(state_wilds) == *old(state_wilds) && r == Result::<(), ActionError>::Err(
                ActionError::NotEnoughResources,
            ),
    {
        let total = self.shortfall(cost, ResourceKind::Red) + self.shortfall(
            cost,
            ResourceKind::Blue,
        ) + self.shortfall(cost, ResourceKind::Green) + self.shortfall(cost, ResourceKind::White)
            + self.shortfall(cost, ResourceKind::Black);
        if total > self.wilds {
            return Err(ActionError::NotEnoughResources);
        }
        let ghost p0 = self@;
        let ghost coins0 = *state_coins;
        self.pay_kind(cost, state_coins, ResourceKind::Red);
        proof {
            assert(state_coins.cnt(ResourceKind::Blue) == coins0.cnt(ResourceKind::Blue));
        }
        self.pay_kind(cost, state_coins, ResourceKind::Blue);
        proof {
            assert(state_coins.cnt(ResourceKind::Green) == coins0.cnt(ResourceKind::Green));
        }
        self.pay_kind(cost, state_coins, ResourceKind::Green);
        proof {
            assert(state_coins.cnt(ResourceKind::White) == coins0.cnt(ResourceKind::White));
        }
        self.pay_kind(cost, state_coins, ResourceKind::White);
        proof {
            assert(state_coins.cnt(ResourceKind::Black) == coins0.cnt(ResourceKind::Black));
        }
        self.pay_kind(cost, state_coins, ResourceKind::Black);
        self.wilds = self.wilds - total;
        *state_wilds = *state_wilds + total;
        proof {
            assert(self@ =~= p0.after_purchase(*cost));
            assert(*state_coins =~= p0.coins_after_pay(*cost, coins0));
        }
        Ok(())
    }
}

} // verus!
