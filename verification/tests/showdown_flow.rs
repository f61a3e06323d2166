use mental_poker::cards::card_id_to_rank_suit;
use mental_poker::registry::{Contract, Game};
use mental_poker::state::GameState;
use mental_poker::types::{
    AccountId, BetAmount, CardValueBuf, GameError, GameId, MaskedCardBuf, ParamsBuf, Phase,
    PublicKeyBuf, RevealTokenBuf,
};
use poker::{Card, Evaluator, Rank, Suit};

fn acct(name: &str) -> AccountId {
    AccountId { bytes: name.as_bytes().to_vec() }
}

fn pk(tag: u8) -> PublicKeyBuf {
    PublicKeyBuf { buf: vec![tag, 1, 2, 3] }
}

fn card_values() -> Vec<CardValueBuf> {
    (0..52).map(|i| CardValueBuf { buf: vec![i as u8, 0xCA] }).collect()
}

fn value_of(card_id: u8) -> CardValueBuf {
    CardValueBuf { buf: vec![card_id, 0xCA] }
}

fn masked_deck(tag: u8) -> Vec<MaskedCardBuf> {
    (0..52).map(|i| MaskedCardBuf { buf: vec![tag, i as u8] }).collect()
}

fn get_state_mut<'a>(c: &'a mut Contract, id: GameId) -> &'a mut GameState {
    for e in c.games.iter_mut() {
        if e.id == id {
            match &mut e.game {
                Game::InProgress(st) => return st,
                Game::WaitingForPlayers(_) => panic!("game is still a lobby"),
            }
        }
    }
    panic!("game not found");
}

fn get_state<'a>(c: &'a Contract, id: GameId) -> &'a GameState {
    for e in c.games.iter() {
        if e.id == id {
            match &e.game {
                Game::InProgress(st) => return st,
                Game::WaitingForPlayers(_) => panic!("game is still a lobby"),
            }
        }
    }
    panic!("game not found");
}

/// A two-player game frozen at SHOWDOWN with a full token matrix and the
/// stakes 20 (alice) vs 30 (bob).
fn game_at_showdown() -> (Contract, GameId) {
    let mut c = Contract::init(ParamsBuf { buf: vec![7] }, card_values()).unwrap();
    let id = c.create_game(acct("alice"), pk(0), true, [1u8; 32], 1).unwrap();
    c.join_game(id, acct("bob"), pk(1), true).unwrap();
    c.start_game(id, acct("alice"), Some(pk(9)), 2).unwrap();
    {
        let st = get_state_mut(&mut c, id);
        st.balances = vec![100, 100];
    }
    c.init_deck(id, acct("alice"), masked_deck(1), 3).unwrap();
    let st = get_state_mut(&mut c, id);
    st.phase = Phase::SHOWDOWN;
    st.bets = vec![BetAmount::In(20), BetAmount::In(30)];
    st.revealed_players = vec![true, true];
    for card in 0..52 {
        for seat in 0..2 {
            st.reveal_tokens_with_proofs[card][seat] =
                Some(RevealTokenBuf { buf: vec![card as u8, seat as u8] });
        }
    }
    (c, id)
}

fn to_poker_card(id: u8) -> Card {
    let (rank_idx, suit_idx) = card_id_to_rank_suit(id);
    let rank = match rank_idx {
        0 => Rank::Two,
        1 => Rank::Three,
        2 => Rank::Four,
        3 => Rank::Five,
        4 => Rank::Six,
        5 => Rank::Seven,
        6 => Rank::Eight,
        7 => Rank::Nine,
        8 => Rank::Ten,
        9 => Rank::Jack,
        10 => Rank::Queen,
        11 => Rank::King,
        _ => Rank::Ace,
    };
    let suit = match suit_idx {
        0 => Suit::Spades,
        1 => Suit::Hearts,
        2 => Suit::Diamonds,
        _ => Suit::Clubs,
    };
    Card::new(rank, suit)
}

#[test]
fn showdown_gate_requires_every_token() {
    let (mut c, id) = game_at_showdown();
    // with the full matrix the needed slots are listed: five community
    // cards after the four hole cards, then each seat's two hole cards
    let slots = c.showdown_slots(id).unwrap();
    assert_eq!(slots, vec![4, 5, 6, 7, 8, 0, 1, 2, 3]);
    // removing any one token slot makes recovery impossible
    get_state_mut(&mut c, id).reveal_tokens_with_proofs[5][1] = None;
    assert_eq!(c.showdown_slots(id), Err(GameError::StateError));
    // a folded seat's hole cards are not needed
    let st = get_state_mut(&mut c, id);
    st.reveal_tokens_with_proofs[5][1] = Some(RevealTokenBuf { buf: vec![5, 1] });
    st.bets = vec![BetAmount::In(20), BetAmount::Folded(30)];
    let slots = c.showdown_slots(id).unwrap();
    assert_eq!(slots, vec![4, 5, 6, 7, 8, 0, 1]);
}

#[test]
fn showdown_slots_wrong_phase() {
    let (mut c, id) = game_at_showdown();
    get_state_mut(&mut c, id).phase = Phase::SHUFFLE;
    assert_eq!(c.showdown_slots(id), Err(GameError::StateError));
}

#[test]
fn showdown_hands_map_the_bijection() {
    let (c, id) = game_at_showdown();
    // board: Qs Js Ts 2h 3d; alice holds As Ks, bob holds 2c 4h
    let values = vec![
        value_of(10),
        value_of(9),
        value_of(8),
        value_of(13),
        value_of(27),
        value_of(12),
        value_of(11),
        value_of(39),
        value_of(15),
    ];
    let hands = c.showdown_hands(id, &values).unwrap();
    assert_eq!(hands.len(), 2);
    assert_eq!(hands[0].seat, 0);
    assert_eq!(hands[0].cards, vec![12, 11, 10, 9, 8, 13, 27]);
    assert_eq!(hands[1].seat, 1);
    assert_eq!(hands[1].cards, vec![39, 15, 10, 9, 8, 13, 27]);
}

#[test]
fn showdown_hands_reject_unknown_value() {
    let (c, id) = game_at_showdown();
    let mut values: Vec<CardValueBuf> = (0..9).map(|i| value_of(i)).collect();
    values[3] = CardValueBuf { buf: vec![0xFF, 0xFF] };
    assert_eq!(c.showdown_hands(id, &values), Err(GameError::CryptoVerificationError));
    // and a wrong number of values is malformed
    let few: Vec<CardValueBuf> = (0..4).map(|i| value_of(i)).collect();
    assert_eq!(c.showdown_hands(id, &few), Err(GameError::ValidationError));
}

#[test]
fn showdown_pays_best_hand_and_restarts() {
    let (mut c, id) = game_at_showdown();
    let values = vec![
        value_of(10),
        value_of(9),
        value_of(8),
        value_of(13),
        value_of(27),
        value_of(12),
        value_of(11),
        value_of(39),
        value_of(15),
    ];
    let hands = c.showdown_hands(id, &values).unwrap();
    // score the hands with the external evaluator and collect its verdicts
    let evaluator = Evaluator::new();
    let evals: Vec<_> = hands
        .iter()
        .map(|h| {
            let cards: Vec<Card> = h.cards.iter().map(|&cid| to_poker_card(cid)).collect();
            evaluator.evaluate(&cards).unwrap()
        })
        .collect();
    let beats: Vec<Vec<bool>> = (0..evals.len())
        .map(|i| (0..evals.len()).map(|j| evals[i].is_better_than(evals[j])).collect())
        .collect();
    // a royal flush beats a pair of twos
    assert!(beats[0][1] && !beats[1][0]);
    let winner = c.showdown(id, acct("alice"), &beats, 99).unwrap();
    assert_eq!(winner, 0);
    let st = get_state(&c, id);
    assert_eq!(st.balances, vec![130, 70]);
    assert_eq!(st.balances.iter().sum::<u128>(), 200);
    assert!(matches!(st.phase, Phase::SHUFFLE));
    assert_eq!(st.dealer, 1);
    assert_eq!(st.turn, 1);
    assert_eq!(st.ante, 0);
    assert_eq!(st.bets, vec![BetAmount::In(0), BetAmount::In(0)]);
    assert!(st.reveal_tokens_with_proofs.iter().all(|row| row.iter().all(|t| t.is_none())));
    assert_eq!(st.last_modified, 99);
}

#[test]
fn showdown_rejects_bad_matrix_and_outsiders() {
    let (mut c, id) = game_at_showdown();
    let beats = vec![vec![false]];
    assert_eq!(c.showdown(id, acct("alice"), &beats, 99), Err(GameError::ValidationError));
    let square = vec![vec![false, false], vec![false, false]];
    assert_eq!(c.showdown(id, acct("eve"), &square, 99), Err(GameError::AuthorizationError));
    // outside SHOWDOWN nothing settles
    get_state_mut(&mut c, id).phase = Phase::BET3;
    assert_eq!(c.showdown(id, acct("alice"), &square, 99), Err(GameError::StateError));
}

#[test]
fn first_maximal_hand_wins_ties() {
    let (mut c, id) = game_at_showdown();
    // identical strength: neither hand beats the other, the first wins
    let beats = vec![vec![false, false], vec![false, false]];
    let winner = c.showdown(id, acct("alice"), &beats, 99).unwrap();
    assert_eq!(winner, 0);
    let st = get_state(&c, id);
    assert_eq!(st.balances, vec![130, 70]);
}
