use game_def::{Action, ActionError, Card, Player, ResourceKind, ResourceMap, State};

fn rm(red: usize, blue: usize, green: usize, white: usize, black: usize) -> ResourceMap {
    ResourceMap { red, blue, green, white, black }
}

fn two_player_state(coins: ResourceMap, wilds: usize) -> State {
    State {
        decks: vec![],
        players: vec![Player::new("alice"), Player::new("bob")],
        coins,
        wilds,
        turn: 0,
        nobels: vec![],
    }
}

fn assert_states_equal(a: &State, b: &State) {
    assert_eq!(a.coins, b.coins);
    assert_eq!(a.wilds, b.wilds);
    assert_eq!(a.turn, b.turn);
    assert_eq!(a.decks.len(), b.decks.len());
    for (da, db) in a.decks.iter().zip(b.decks.iter()) {
        assert_eq!(da, db);
    }
    assert_eq!(a.players.len(), b.players.len());
    for (pa, pb) in a.players.iter().zip(b.players.iter()) {
        assert_eq!(pa.mortal, pb.mortal);
        assert_eq!(pa.immortal, pb.immortal);
        assert_eq!(pa.score, pb.score);
        assert_eq!(pa.wilds, pb.wilds);
        assert_eq!(pa.reserved, pb.reserved);
        assert_eq!(pa.display_name, pb.display_name);
    }
    assert_eq!(a.nobels.len(), b.nobels.len());
    for (na, nb) in a.nobels.iter().zip(b.nobels.iter()) {
        assert_eq!(na.cost, nb.cost);
        assert_eq!(na.score, nb.score);
    }
}

#[test]
fn resource_kind_from_code() {
    assert_eq!(ResourceKind::from_code("g"), ResourceKind::Green);
    assert_eq!(ResourceKind::from_code("r"), ResourceKind::Red);
    assert_eq!(ResourceKind::from_code("w"), ResourceKind::White);
    assert_eq!(ResourceKind::from_code("k"), ResourceKind::Black);
    assert_eq!(ResourceKind::from_code("u"), ResourceKind::Blue);
}

#[test]
fn resource_map_from_code() {
    assert_eq!(ResourceMap::from_code("1w+2u+1g"), rm(0, 2, 1, 1, 0));
    assert_eq!(ResourceMap::from_code("4r+4g"), rm(4, 0, 4, 0, 0));
    assert_eq!(ResourceMap::from_code("3g"), rm(0, 0, 3, 0, 0));
    assert_eq!(ResourceMap::from_code("7r+3k"), rm(7, 0, 0, 0, 3));
    assert_eq!(ResourceMap::from_code("3k+3r+3w"), rm(3, 0, 0, 3, 3));
}

#[test]
fn try_from_code_accepts_exactly_the_mini_language() {
    assert_eq!(ResourceMap::try_from_code("4r"), Some(rm(4, 0, 0, 0, 0)));
    assert_eq!(
        ResourceMap::try_from_code("1w+2u+1g"),
        Some(rm(0, 2, 1, 1, 0))
    );
    assert_eq!(ResourceMap::try_from_code(""), None);
    assert_eq!(ResourceMap::try_from_code("4"), None);
    assert_eq!(ResourceMap::try_from_code("x"), None);
    assert_eq!(ResourceMap::try_from_code("r4"), None);
    assert_eq!(ResourceMap::try_from_code("4r+"), None);
    assert_eq!(ResourceMap::try_from_code("4r+4"), None);
    assert_eq!(ResourceMap::try_from_code("44r"), None);
    assert_eq!(ResourceMap::try_from_code("4r-4g"), None);
}

#[test]
fn resource_map_new_add_sum() {
    let mut m = ResourceMap::new();
    assert_eq!(m, rm(0, 0, 0, 0, 0));
    assert_eq!(m.sum(), 0);
    m.add(&rm(1, 2, 3, 4, 5));
    m.add(&rm(1, 0, 0, 0, 1));
    assert_eq!(m, rm(2, 2, 3, 4, 6));
    assert_eq!(m.sum(), 17);
    assert_eq!(m.get(ResourceKind::Black), 6);
}

#[test]
fn card_new_produces_one_unit() {
    let c = Card::new(ResourceKind::Blue, 2, rm(1, 0, 0, 0, 3));
    assert_eq!(c.cost, rm(1, 0, 0, 0, 3));
    assert_eq!(c.score, 2);
    assert_eq!(c.adds, rm(0, 1, 0, 0, 0));
}

#[test]
fn player_new_is_empty() {
    let p = Player::new("carol");
    assert_eq!(p.mortal, rm(0, 0, 0, 0, 0));
    assert_eq!(p.immortal, rm(0, 0, 0, 0, 0));
    assert_eq!(p.score, 0);
    assert_eq!(p.wilds, 0);
    assert!(p.reserved.is_empty());
    assert_eq!(p.display_name, "carol");
}

#[test]
fn pick_two_success_and_failure() {
    // bank {Red:4}: PickTwo Red succeeds, bank drops to 2, player gains 2
    let mut s = two_player_state(rm(4, 0, 0, 0, 0), 0);
    let before = s.clone();
    assert!(s.run(Action::PickTwo { color: ResourceKind::Red }).is_ok());
    assert_eq!(s.coins, rm(2, 0, 0, 0, 0));
    assert_eq!(s.players[0].mortal, rm(2, 0, 0, 0, 0));
    assert_eq!(s.turn, 1);
    assert_eq!(before.coins, rm(4, 0, 0, 0, 0));

    // bank {Red:3}: the same action fails and nothing changes
    let mut s = two_player_state(rm(3, 0, 0, 0, 0), 0);
    let before = s.clone();
    let r = s.run(Action::PickTwo { color: ResourceKind::Red });
    assert_eq!(r, Err(ActionError::NotEnoughRemaining { kind: ResourceKind::Red }));
    assert_states_equal(&s, &before);
}

#[test]
fn pick_three_duplicate_always_fails() {
    for coins in [rm(0, 0, 0, 0, 0), rm(7, 7, 7, 7, 7), rm(1, 1, 1, 1, 1)] {
        let mut s = two_player_state(coins, 0);
        let before = s.clone();
        let r = s.run(Action::PickThree {
            one: ResourceKind::Red,
            two: ResourceKind::Red,
            three: ResourceKind::Green,
        });
        assert_eq!(r, Err(ActionError::DuplicatePick));
        assert_states_equal(&s, &before);
    }
}

#[test]
fn pick_three_moves_coins() {
    let mut s = two_player_state(rm(2, 2, 2, 0, 0), 0);
    let r = s.run(Action::PickThree {
        one: ResourceKind::Red,
        two: ResourceKind::Blue,
        three: ResourceKind::Green,
    });
    assert!(r.is_ok());
    assert_eq!(s.coins, rm(1, 1, 1, 0, 0));
    assert_eq!(s.players[0].mortal, rm(1, 1, 1, 0, 0));
    assert_eq!(s.turn, 1);
}

#[test]
fn pick_three_exhausted_kind() {
    let mut s = two_player_state(rm(1, 0, 1, 0, 0), 0);
    let before = s.clone();
    let r = s.run(Action::PickThree {
        one: ResourceKind::Red,
        two: ResourceKind::Blue,
        three: ResourceKind::Green,
    });
    assert_eq!(r, Err(ActionError::NoCoin { kind: ResourceKind::Blue }));
    assert_states_equal(&s, &before);
}

#[test]
fn purchase_settles_and_awards() {
    // card costs 2r+1u; buyer has 1 red production, 1 red coin, 2 wilds
    let card = Card::new(ResourceKind::Green, 3, rm(2, 1, 0, 0, 0));
    let mut s = two_player_state(rm(0, 0, 0, 0, 0), 0);
    s.decks = vec![vec![card]];
    s.players[0].immortal = rm(1, 0, 0, 0, 0);
    s.players[0].mortal = rm(1, 0, 0, 0, 0);
    s.players[0].wilds = 2;
    let r = s.run(Action::Purchase { deck: 0, card: 0 });
    assert!(r.is_ok());
    // red: needs 2-1=1, paid with the red coin; blue: needs 1, paid with a wild
    assert_eq!(s.players[0].mortal, rm(0, 0, 0, 0, 0));
    assert_eq!(s.players[0].wilds, 1);
    assert_eq!(s.coins, rm(1, 0, 0, 0, 0));
    assert_eq!(s.wilds, 1);
    assert_eq!(s.players[0].immortal, rm(1, 0, 1, 0, 0));
    assert_eq!(s.players[0].score, 3);
    assert!(s.decks[0].is_empty());
    assert_eq!(s.turn, 1);
}

#[test]
fn purchase_error_order() {
    let card = Card::new(ResourceKind::Green, 0, rm(9, 0, 0, 0, 0));
    let mut s = two_player_state(rm(0, 0, 0, 0, 0), 0);
    s.decks = vec![vec![card], vec![]];
    let before = s.clone();
    assert_eq!(
        s.run(Action::Purchase { deck: 5, card: 0 }),
        Err(ActionError::InvalidDeck)
    );
    assert_eq!(
        s.run(Action::Purchase { deck: 0, card: 4 }),
        Err(ActionError::NotVisible)
    );
    assert_eq!(
        s.run(Action::Purchase { deck: 0, card: 1 }),
        Err(ActionError::InvalidCard)
    );
    assert_eq!(
        s.run(Action::Purchase { deck: 0, card: 0 }),
        Err(ActionError::NotEnoughResources)
    );
    assert_states_equal(&s, &before);
}

#[test]
fn reserve_moves_card_without_payment() {
    let card = Card::new(ResourceKind::Black, 1, rm(9, 9, 9, 9, 9));
    let mut s = two_player_state(rm(0, 0, 0, 0, 0), 0);
    s.decks = vec![vec![card]];
    let r = s.run(Action::Reserve { deck: 0, card: 0 });
    assert!(r.is_ok());
    assert!(s.decks[0].is_empty());
    assert_eq!(s.players[0].reserved.len(), 1);
    assert_eq!(s.players[0].reserved[0], card);
    assert_eq!(s.players[0].score, 0);
    assert_eq!(s.turn, 1);
}

#[test]
fn purchase_reserved_consumes_entry() {
    let card = Card::new(ResourceKind::White, 2, rm(0, 0, 1, 0, 0));
    let mut s = two_player_state(rm(0, 0, 0, 0, 0), 0);
    s.players[0].reserved = vec![card];
    s.players[0].mortal = rm(0, 0, 1, 0, 0);
    let r = s.run(Action::PurchaseReserved { index: 0 });
    assert!(r.is_ok());
    assert!(s.players[0].reserved.is_empty());
    assert_eq!(s.players[0].immortal, rm(0, 0, 0, 1, 0));
    assert_eq!(s.players[0].score, 2);
    assert_eq!(s.coins, rm(0, 0, 1, 0, 0));
    assert_eq!(s.turn, 1);
}

#[test]
fn purchase_reserved_errors() {
    let mut s = two_player_state(rm(0, 0, 0, 0, 0), 0);
    let before = s.clone();
    assert_eq!(
        s.run(Action::PurchaseReserved { index: 0 }),
        Err(ActionError::InvalidReservedIndex)
    );
    assert_states_equal(&s, &before);
    let card = Card::new(ResourceKind::White, 0, rm(5, 0, 0, 0, 0));
    s.players[0].reserved = vec![card];
    assert_eq!(
        s.run(Action::PurchaseReserved { index: 0 }),
        Err(ActionError::NotEnoughResources)
    );
}

#[test]
fn skip_only_rotates() {
    let mut s = two_player_state(rm(1, 1, 1, 1, 1), 3);
    assert!(s.run(Action::Skip).is_ok());
    assert_eq!(s.turn, 1);
    assert_eq!(s.coins, rm(1, 1, 1, 1, 1));
    assert!(s.run(Action::Skip).is_ok());
    assert_eq!(s.turn, 0);
}

#[test]
fn turn_rotation_wraps_round_robin() {
    let mut s = two_player_state(rm(16, 4, 4, 4, 4), 0);
    s.players.push(Player::new("carla"));
    for expected in [1usize, 2, 0, 1] {
        assert!(s.run(Action::PickTwo { color: ResourceKind::Red }).is_ok());
        assert_eq!(s.turn, expected);
    }
}

#[test]
fn affordability_matches_purchase_outcome() {
    // several (player, cost) pairs: can_purchase agrees with settlement
    let costs = [
        rm(0, 0, 0, 0, 0),
        rm(1, 0, 0, 0, 0),
        rm(2, 1, 0, 0, 0),
        rm(0, 0, 5, 0, 0),
        rm(1, 1, 1, 1, 1),
    ];
    let mut player = Player::new("dora");
    player.mortal = rm(1, 0, 1, 0, 0);
    player.immortal = rm(0, 1, 0, 0, 0);
    player.wilds = 2;
    for cost in costs {
        let can = player.can_purchase(&cost);
        let mut p2 = player.clone();
        let mut coins = ResourceMap::new();
        let mut wilds = 0usize;
        let ok = p2.purchase(&cost, &mut coins, &mut wilds).is_ok();
        assert_eq!(can, ok, "cost {cost:?}");
    }
}

#[test]
fn affordability_decides_run_purchase() {
    // with a valid deck/slot address, run accepts a purchase exactly
    // when can_purchase affirms the card's cost
    for cost in [rm(1, 0, 0, 0, 0), rm(5, 0, 0, 0, 0)] {
        let card = Card::new(ResourceKind::Green, 1, cost);
        let mut s = two_player_state(rm(0, 0, 0, 0, 0), 0);
        s.decks = vec![vec![card]];
        s.players[0].mortal = rm(1, 0, 0, 0, 0);
        let can = s.players[0].can_purchase(&cost);
        let r = s.run(Action::Purchase { deck: 0, card: 0 });
        assert_eq!(can, r.is_ok());
        if !can {
            assert_eq!(r, Err(ActionError::NotEnoughResources));
        }
    }
}

#[test]
fn finished_and_winner_first_max() {
    let mut s = two_player_state(rm(0, 0, 0, 0, 0), 0);
    s.players[0].score = 15;
    s.players[1].score = 15;
    assert!(s.is_finished());
    assert_eq!(s.winner(), 0);
    s.turn = 1;
    assert!(!s.is_finished());
    s.turn = 0;
    s.players[0].score = 14;
    s.players[1].score = 14;
    assert!(!s.is_finished());
    s.players[1].score = 16;
    assert!(s.is_finished());
    assert_eq!(s.winner(), 1);
}

#[test]
fn conservation_across_a_sequence() {
    let card = Card::new(ResourceKind::Green, 1, rm(1, 1, 0, 0, 0));
    let mut s = two_player_state(rm(7, 7, 7, 7, 7), 5);
    s.decks = vec![vec![card]];
    let totals = |s: &State| -> (usize, usize, usize, usize, usize, usize) {
        let all = |f: fn(&ResourceMap) -> usize, bank: usize| -> usize {
            bank + s.players.iter().map(|p| f(&p.mortal)).sum::<usize>()
        };
        (
            all(|m| m.red, s.coins.red),
            all(|m| m.blue, s.coins.blue),
            all(|m| m.green, s.coins.green),
            all(|m| m.white, s.coins.white),
            s.wilds + s.players.iter().map(|p| p.wilds).sum::<usize>(),
            all(|m| m.black, s.coins.black),
        )
    };
    let before = totals(&s);
    assert!(s
        .run(Action::PickThree {
            one: ResourceKind::Red,
            two: ResourceKind::Blue,
            three: ResourceKind::Green,
        })
        .is_ok());
    assert!(s
        .run(Action::PickThree {
            one: ResourceKind::Red,
            two: ResourceKind::Blue,
            three: ResourceKind::White,
        })
        .is_ok());
    assert!(s
        .run(Action::PickThree {
            one: ResourceKind::Red,
            two: ResourceKind::Blue,
            three: ResourceKind::Black,
        })
        .is_ok());
    assert!(s.run(Action::Purchase { deck: 0, card: 0 }).is_ok());
    let after = totals(&s);
    assert_eq!(before, after);
}

#[test]
fn enumeration_helpers() {
    let c = Card::new(ResourceKind::Red, 0, rm(0, 0, 0, 0, 0));
    let mut s = two_player_state(rm(4, 0, 3, 4, 0), 0);
    s.decks = vec![vec![c; 6], vec![c; 2], vec![]];
    let pairs = s.card_iter();
    assert_eq!(pairs, vec![(0, 0), (0, 1), (0, 2), (0, 3), (1, 0), (1, 1)]);
    let kinds = s.pick_two_iter();
    assert_eq!(kinds, vec![ResourceKind::Red, ResourceKind::White]);
    let triples = s.pick_three_iter();
    assert_eq!(triples.len(), 10);
    assert_eq!(
        triples[0],
        (ResourceKind::Red, ResourceKind::Green, ResourceKind::Blue)
    );
    assert_eq!(
        triples[9],
        (ResourceKind::Blue, ResourceKind::Black, ResourceKind::White)
    );
    for (a, b, c) in triples {
        assert!(a != b && a != c && b != c);
    }
}

#[test]
fn clone_is_deep() {
    let card = Card::new(ResourceKind::Red, 1, rm(0, 0, 0, 0, 0));
    let mut s = two_player_state(rm(7, 7, 7, 7, 7), 5);
    s.decks = vec![vec![card]];
    let mut t = s.clone();
    assert_states_equal(&s, &t);
    assert!(t.run(Action::Purchase { deck: 0, card: 0 }).is_ok());
    assert_eq!(s.decks[0].len(), 1);
    assert_eq!(s.turn, 0);
}

#[test]
fn check_wf_accepts_and_rejects() {
    let s = two_player_state(rm(7, 7, 7, 7, 7), 5);
    assert!(s.check_wf());

    let mut bad = s.clone();
    bad.turn = 2;
    assert!(!bad.check_wf());

    let mut bad = s.clone();
    bad.players.clear();
    assert!(!bad.check_wf());

    let mut bad = s.clone();
    bad.coins.red = 2_000_000;
    assert!(!bad.check_wf());

    let mut bad = s.clone();
    bad.players[0].score = 200;
    bad.players[1].score = 100;
    assert!(!bad.check_wf());
}
