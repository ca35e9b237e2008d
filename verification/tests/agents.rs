use game_def::search::{heuristic, logic as search_logic, max_score, moves};
use game_def::policy::logic as policy_logic;
use game_def::{Action, Card, Nobel, Player, ResourceKind, ResourceMap, State};

fn rm(red: usize, blue: usize, green: usize, white: usize, black: usize) -> ResourceMap {
    ResourceMap { red, blue, green, white, black }
}

fn two_player_state(coins: ResourceMap, wilds: usize) -> State {
    State {
        decks: vec![],
        players: vec![Player::new("alice"), Player::new("bob")],
        coins,
        wilds,
        turn: 0,
        nobels: vec![],
    }
}

/// Plain minimax over the same move generator and evaluation, with no
/// pruning: the reference the alpha-beta search must agree with.
fn minimax(state: State, depth: i32) -> (i32, Action) {
    if state.is_finished() {
        if state.winner() == 0 {
            return (1_000_000_000, Action::Skip);
        } else {
            return (-1_000_000_000, Action::Skip);
        }
    }
    if state.turn == 0 && depth <= 0 {
        return (heuristic(&state), Action::Skip);
    }
    let mut best = (-1_000_000_001, Action::Skip);
    for (st, ac) in moves(&state) {
        let score = -minimax(st, depth - 1).0;
        if best.0 < score {
            best = (score, ac);
        }
    }
    best
}

#[test]
fn moves_enumerates_in_fixed_order() {
    let cheap = Card::new(ResourceKind::Green, 1, rm(0, 0, 0, 0, 0));
    let mut s = two_player_state(rm(4, 1, 1, 1, 0), 0);
    s.decks = vec![vec![cheap]];
    s.players[0].reserved = vec![cheap];
    let mv = moves(&s);
    let actions: Vec<Action> = mv.iter().map(|p| p.1).collect();
    let mut expected = vec![
        Action::Purchase { deck: 0, card: 0 },
        Action::PurchaseReserved { index: 0 },
    ];
    // triples over {Red, Blue, Green, White} with a coin present
    expected.push(Action::PickThree {
        one: ResourceKind::Red,
        two: ResourceKind::Green,
        three: ResourceKind::Blue,
    });
    expected.push(Action::PickThree {
        one: ResourceKind::Red,
        two: ResourceKind::Green,
        three: ResourceKind::White,
    });
    expected.push(Action::PickThree {
        one: ResourceKind::Red,
        two: ResourceKind::Blue,
        three: ResourceKind::White,
    });
    expected.push(Action::PickThree {
        one: ResourceKind::Green,
        two: ResourceKind::Blue,
        three: ResourceKind::White,
    });
    expected.push(Action::PickTwo { color: ResourceKind::Red });
    expected.push(Action::Reserve { deck: 0, card: 0 });
    assert_eq!(actions, expected);
    // every generated state reflects its action: spot-check the first
    assert!(mv[0].0.decks[0].is_empty());
    assert_eq!(mv[0].0.turn, 1);
}

#[test]
fn heuristic_exact_value() {
    let mut s = two_player_state(rm(0, 0, 0, 0, 0), 0);
    s.players[0].mortal = rm(1, 0, 0, 0, 0);
    s.players[0].score = 1;
    // seat 0: 1*3 + 2^1*10 = 23; seat 1: 2^0*10 = 10
    assert_eq!(heuristic(&s), 13);

    s.players[1].immortal = rm(0, 0, 1, 0, 0);
    s.players[1].wilds = 2;
    // seat 1 now: 2*4 + 1*100 + 10 = 118
    assert_eq!(heuristic(&s), 23 - 118);
}

#[test]
fn heuristic_nobel_attraction() {
    let mut s = two_player_state(rm(0, 0, 0, 0, 0), 0);
    s.nobels = vec![Nobel { cost: rm(4, 0, 4, 0, 0), score: 3 }];
    // both seats: distance 8 to the nobel, bonus 3; they cancel out
    assert_eq!(heuristic(&s), 0);
    s.players[0].immortal = rm(4, 0, 3, 0, 0);
    // seat 0: 7*100 production, distance 1 so bonus 500; seat 1 bonus 3
    assert_eq!(heuristic(&s), (700 + 10 + 500) - (10 + 3));
}

#[test]
fn higher_score_evaluates_higher() {
    let mut a = two_player_state(rm(0, 0, 0, 0, 0), 0);
    a.players[0].score = 3;
    let mut b = a.clone();
    b.players[0].score = 4;
    assert!(heuristic(&b) > heuristic(&a));
}

#[test]
fn max_score_terminal_sentinels() {
    let mut s = two_player_state(rm(0, 0, 0, 0, 0), 0);
    s.players[0].score = 15;
    assert!(s.is_finished());
    let (v, a) = max_score(s, 4, -2_000_000_000, 2_000_000_000);
    assert_eq!(v, 1_000_000_000);
    assert_eq!(a, Action::Skip);

    let mut s = two_player_state(rm(0, 0, 0, 0, 0), 0);
    s.players[1].score = 16;
    let (v, a) = max_score(s, 4, -2_000_000_000, 2_000_000_000);
    assert_eq!(v, -1_000_000_000);
    assert_eq!(a, Action::Skip);
}

#[test]
fn max_score_horizon_returns_heuristic() {
    let mut s = two_player_state(rm(0, 0, 0, 0, 0), 0);
    s.players[0].mortal = rm(1, 1, 0, 0, 0);
    let h = heuristic(&s);
    let (v, a) = max_score(s, 0, -2_000_000_000, 2_000_000_000);
    assert_eq!(v, h);
    assert_eq!(a, Action::Skip);
}

#[test]
fn alpha_beta_matches_exhaustive_minimax() {
    // a two-ply tree with real choices: both seats may take two coins of
    // either of two kinds, or buy the one affordable card
    let card = Card::new(ResourceKind::Green, 1, rm(0, 0, 0, 0, 0));
    let mut s = two_player_state(rm(4, 4, 0, 0, 0), 0);
    s.decks = vec![vec![card]];
    let (ev, ea) = minimax(s.clone(), 2);
    let (av, aa) = max_score(s, 2, -2_000_000_000, 2_000_000_000);
    assert_eq!(av, ev);
    assert_eq!(aa, ea);
}

#[test]
fn alpha_beta_matches_minimax_deeper() {
    let card = Card::new(ResourceKind::Black, 2, rm(2, 0, 0, 0, 0));
    let mut s = two_player_state(rm(5, 4, 4, 0, 0), 2);
    s.decks = vec![vec![card]];
    let (ev, ea) = minimax(s.clone(), 4);
    let (av, aa) = max_score(s, 4, -2_000_000_000, 2_000_000_000);
    assert_eq!(av, ev);
    assert_eq!(aa, ea);
}

#[test]
fn max_score_no_moves_returns_floor() {
    // seat 1 to act, nothing in the bank or decks: no move is legal, the
    // game is not decided and seat 0's horizon test does not apply
    let mut s = two_player_state(rm(0, 0, 0, 0, 0), 0);
    s.turn = 1;
    assert!(moves(&s).is_empty());
    let (v, a) = max_score(s, 4, -2_000_000_000, 2_000_000_000);
    assert_eq!(v, -1_000_000_001);
    assert_eq!(a, Action::Skip);
}

#[test]
fn search_logic_returns_legal_action() {
    let mut s = two_player_state(rm(4, 4, 4, 4, 4), 5);
    let card = Card::new(ResourceKind::Red, 0, rm(1, 0, 0, 0, 0));
    s.decks = vec![vec![card]];
    let a = search_logic(s.clone());
    assert!(s.run(a).is_ok());
}

#[test]
fn policy_takes_first_legal_action() {
    // only a two-coin red take is legal: decks empty, three kinds short
    let s = two_player_state(rm(4, 0, 0, 0, 0), 0);
    assert_eq!(policy_logic(&s), Action::PickTwo { color: ResourceKind::Red });

    // nothing legal at all: the policy falls back to Skip
    let s = two_player_state(rm(0, 0, 0, 0, 0), 0);
    assert_eq!(policy_logic(&s), Action::Skip);

    // an affordable visible card beats the coin take in the fixed order
    let card = Card::new(ResourceKind::Green, 1, rm(0, 0, 0, 0, 0));
    let mut s = two_player_state(rm(4, 0, 0, 0, 0), 0);
    s.decks = vec![vec![card]];
    assert_eq!(policy_logic(&s), Action::Purchase { deck: 0, card: 0 });
}

#[test]
fn full_match_conserves_until_finished() {
    let free = |c: ResourceKind| Card::new(c, 5, rm(0, 0, 0, 0, 0));
    let mut s = two_player_state(rm(7, 7, 7, 7, 7), 5);
    s.decks = vec![vec![
        free(ResourceKind::Red),
        free(ResourceKind::Blue),
        free(ResourceKind::Green),
        free(ResourceKind::White),
        free(ResourceKind::Black),
        free(ResourceKind::Red),
        free(ResourceKind::Blue),
        free(ResourceKind::Green),
    ]];
    let coin_total = |s: &State| -> usize {
        s.coins.red + s.coins.blue + s.coins.green + s.coins.white + s.coins.black
            + s.players.iter().map(|p| p.mortal.red + p.mortal.blue + p.mortal.green
                + p.mortal.white + p.mortal.black).sum::<usize>()
    };
    let wild_total = |s: &State| -> usize {
        s.wilds + s.players.iter().map(|p| p.wilds).sum::<usize>()
    };
    let coins0 = coin_total(&s);
    let wilds0 = wild_total(&s);
    let mut plies = 0;
    while !s.is_finished() {
        let a = policy_logic(&s);
        assert!(s.run(a).is_ok());
        assert_eq!(coin_total(&s), coins0);
        assert_eq!(wild_total(&s), wilds0);
        plies += 1;
        assert!(plies < 100, "match did not terminate");
    }
    // both players grabbed free five-point cards; the first to pass the
    // goal decides the round, and the higher score wins
    let w = s.winner();
    assert!(s.players[w].score > 14);
}

#[test]
fn search_never_emits_rejected_move() {
    // play a short scripted match between the two agents
    let card0 = Card::new(ResourceKind::Red, 1, rm(0, 2, 0, 0, 0));
    let card1 = Card::new(ResourceKind::Blue, 2, rm(2, 0, 0, 0, 0));
    let mut s = two_player_state(rm(7, 7, 7, 7, 7), 5);
    s.decks = vec![vec![card0, card1]];
    for _ in 0..6 {
        let a = if s.turn == 0 {
            search_logic(s.clone())
        } else {
            policy_logic(&s)
        };
        assert!(s.run(a).is_ok(), "agent move was rejected");
    }
}
