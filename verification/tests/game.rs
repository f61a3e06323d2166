use mental_poker::registry::{Contract, Game, GameEntry};
use mental_poker::state::GameState;
use mental_poker::types::{
    AccountId, BetAmount, CardValueBuf, GameError, GameId, MaskedCardBuf, ParamsBuf, Phase,
    PublicKeyBuf, RevealTokenBuf, DECK_SIZE,
};

fn acct(name: &str) -> AccountId {
    AccountId { bytes: name.as_bytes().to_vec() }
}

fn pk(tag: u8) -> PublicKeyBuf {
    PublicKeyBuf { buf: vec![tag, 1, 2, 3] }
}

fn card_values() -> Vec<CardValueBuf> {
    (0..52).map(|i| CardValueBuf { buf: vec![i as u8, 0xCA] }).collect()
}

fn masked_deck(tag: u8) -> Vec<MaskedCardBuf> {
    (0..52).map(|i| MaskedCardBuf { buf: vec![tag, i as u8] }).collect()
}

fn token(tag: u8) -> RevealTokenBuf {
    RevealTokenBuf { buf: vec![tag, 0xEE] }
}

fn new_contract() -> Contract {
    Contract::init(ParamsBuf { buf: vec![7, 7, 7] }, card_values()).unwrap()
}

fn seed() -> [u8; 32] {
    [42u8; 32]
}

fn get_state<'a>(c: &'a Contract, id: GameId) -> &'a GameState {
    for e in c.games.iter() {
        if e.id == id {
            match &e.game {
                Game::InProgress(st) => return st,
                Game::WaitingForPlayers(_) => panic!("game is still a lobby"),
            }
        }
    }
    panic!("game not found");
}

fn get_state_mut<'a>(c: &'a mut Contract, id: GameId) -> &'a mut GameState {
    for e in c.games.iter_mut() {
        if e.id == id {
            match &mut e.game {
                Game::InProgress(st) => return st,
                Game::WaitingForPlayers(_) => panic!("game is still a lobby"),
            }
        }
    }
    panic!("game not found");
}

/// A started four-player game with the deck initialized, every seat's deal
/// tokens supplied, and 100 chips per seat: the table sits at BLIND.
fn four_player_game_at_blind() -> (Contract, GameId) {
    let mut c = new_contract();
    let id = c.create_game(acct("alice"), pk(0), true, seed(), 10).unwrap();
    c.join_game(id, acct("bob"), pk(1), true).unwrap();
    c.join_game(id, acct("carol"), pk(2), true).unwrap();
    c.join_game(id, acct("dave"), pk(3), true).unwrap();
    c.start_game(id, acct("alice"), Some(pk(9)), 20).unwrap();
    get_state_mut(&mut c, id).balances = vec![100, 100, 100, 100];
    c.init_deck(id, acct("alice"), masked_deck(1), 30).unwrap();
    // every seat shuffles once, in turn order starting at the dealer
    c.shuffle_deck(id, acct("alice"), masked_deck(2), true, 31).unwrap();
    c.shuffle_deck(id, acct("bob"), masked_deck(3), true, 32).unwrap();
    c.shuffle_deck(id, acct("carol"), masked_deck(4), true, 33).unwrap();
    c.shuffle_deck(id, acct("dave"), masked_deck(5), true, 34).unwrap();
    assert!(matches!(get_state(&c, id).phase, Phase::DEAL));
    c.deal(id, acct("alice"), vec![2, 3], vec![token(0), token(1)], true, 40).unwrap();
    c.deal(id, acct("bob"), vec![0, 1], vec![token(2), token(3)], true, 41).unwrap();
    c.deal(id, acct("carol"), vec![6, 7], vec![token(4), token(5)], true, 42).unwrap();
    c.deal(id, acct("dave"), vec![4, 5], vec![token(6), token(7)], true, 43).unwrap();
    assert!(matches!(get_state(&c, id).phase, Phase::BLIND));
    assert_eq!(get_state(&c, id).turn, 1);
    (c, id)
}

#[test]
fn create_game_allocates_lobby() {
    let mut c = new_contract();
    let id = c.create_game(acct("alice"), pk(0), true, seed(), 100).unwrap();
    assert!(id.d0 < 10 && id.d1 < 10 && id.d2 < 10 && id.d3 < 10);
    assert_eq!(c.games.len(), 1);
    match &c.games[0].game {
        Game::WaitingForPlayers(l) => {
            assert_eq!(l.id, id);
            assert_eq!(l.player_account_ids.len(), 1);
            assert_eq!(l.player_account_ids[0].bytes, b"alice".to_vec());
            assert_eq!(l.player_game_pubkeys[0].buf, pk(0).buf);
            assert_eq!(l.created_at, 100);
        },
        _ => panic!("expected a lobby"),
    }
}

#[test]
fn create_game_bad_proof_rejected() {
    let mut c = new_contract();
    let r = c.create_game(acct("mallory"), pk(0), false, seed(), 100);
    assert_eq!(r, Err(GameError::AuthorizationError));
    assert_eq!(c.games.len(), 0);
}

#[test]
fn get_params_returns_genesis_bytes() {
    let c = new_contract();
    assert_eq!(c.get_params().buf, vec![7, 7, 7]);
}

#[test]
fn init_rejects_wrong_table() {
    assert_eq!(
        Contract::init(ParamsBuf { buf: vec![] }, vec![]).err(),
        Some(GameError::ValidationError)
    );
    let mut dup = card_values();
    dup[51] = dup[0].clone();
    assert_eq!(
        Contract::init(ParamsBuf { buf: vec![] }, dup).err(),
        Some(GameError::ValidationError)
    );
}

#[test]
fn join_unknown_game_not_found() {
    let mut c = new_contract();
    let bad = GameId { d0: 1, d1: 2, d2: 3, d3: 4 };
    assert_eq!(c.join_game(bad, acct("bob"), pk(1), true), Err(GameError::NotFoundError));
}

#[test]
fn join_twice_is_duplicate() {
    let mut c = new_contract();
    let id = c.create_game(acct("alice"), pk(0), true, seed(), 1).unwrap();
    c.join_game(id, acct("bob"), pk(1), true).unwrap();
    assert_eq!(c.join_game(id, acct("bob"), pk(1), true), Err(GameError::DuplicateError));
}

#[test]
fn join_bad_proof_rejected() {
    let mut c = new_contract();
    let id = c.create_game(acct("alice"), pk(0), true, seed(), 1).unwrap();
    assert_eq!(c.join_game(id, acct("bob"), pk(1), false), Err(GameError::AuthorizationError));
    match &c.games[0].game {
        Game::WaitingForPlayers(l) => assert_eq!(l.player_account_ids.len(), 1),
        _ => panic!("expected a lobby"),
    }
}

#[test]
fn join_after_start_is_state_error() {
    let mut c = new_contract();
    let id = c.create_game(acct("alice"), pk(0), true, seed(), 1).unwrap();
    c.join_game(id, acct("bob"), pk(1), true).unwrap();
    c.start_game(id, acct("alice"), Some(pk(9)), 2).unwrap();
    assert_eq!(c.join_game(id, acct("carol"), pk(2), true), Err(GameError::StateError));
}

#[test]
fn only_creator_starts() {
    let mut c = new_contract();
    let id = c.create_game(acct("alice"), pk(0), true, seed(), 1).unwrap();
    c.join_game(id, acct("bob"), pk(1), true).unwrap();
    assert_eq!(
        c.start_game(id, acct("bob"), Some(pk(9)), 2),
        Err(GameError::AuthorizationError)
    );
}

#[test]
fn start_without_aggregate_key_fails() {
    let mut c = new_contract();
    let id = c.create_game(acct("alice"), pk(0), true, seed(), 1).unwrap();
    assert_eq!(c.start_game(id, acct("alice"), None, 2), Err(GameError::CryptoVerificationError));
}

#[test]
fn start_initializes_state() {
    let mut c = new_contract();
    let id = c.create_game(acct("alice"), pk(0), true, seed(), 1).unwrap();
    c.join_game(id, acct("bob"), pk(1), true).unwrap();
    c.start_game(id, acct("alice"), Some(pk(9)), 5).unwrap();
    let st = get_state(&c, id);
    assert!(matches!(st.phase, Phase::SHUFFLE));
    assert_eq!(st.turn, 0);
    assert_eq!(st.dealer, 0);
    assert_eq!(st.ante, 0);
    assert_eq!(st.balances, vec![0, 0]);
    assert_eq!(st.deck.len(), 0);
    assert_eq!(st.reveal_tokens_with_proofs.len(), DECK_SIZE);
    assert_eq!(st.last_modified, 5);
    assert_eq!(c.get_aggregate_pubkey(id).unwrap().buf, pk(9).buf);
}

#[test]
fn aggregate_pubkey_of_lobby_is_state_error() {
    let mut c = new_contract();
    let id = c.create_game(acct("alice"), pk(0), true, seed(), 1).unwrap();
    assert_eq!(c.get_aggregate_pubkey(id), Err(GameError::StateError));
}

#[test]
fn init_deck_validations() {
    let mut c = new_contract();
    let id = c.create_game(acct("alice"), pk(0), true, seed(), 1).unwrap();
    c.join_game(id, acct("bob"), pk(1), true).unwrap();
    c.start_game(id, acct("alice"), Some(pk(9)), 2).unwrap();
    assert_eq!(
        c.init_deck(id, acct("bob"), masked_deck(1), 3),
        Err(GameError::AuthorizationError)
    );
    assert_eq!(
        c.init_deck(id, acct("alice"), vec![MaskedCardBuf { buf: vec![1] }], 3),
        Err(GameError::ValidationError)
    );
    c.init_deck(id, acct("alice"), masked_deck(1), 3).unwrap();
    // a second initialization is refused: the deck is no longer empty
    assert_eq!(c.init_deck(id, acct("alice"), masked_deck(2), 4), Err(GameError::StateError));
}

#[test]
fn shuffle_order_and_verdicts_enforced() {
    let mut c = new_contract();
    let id = c.create_game(acct("alice"), pk(0), true, seed(), 1).unwrap();
    c.join_game(id, acct("bob"), pk(1), true).unwrap();
    c.start_game(id, acct("alice"), Some(pk(9)), 2).unwrap();
    c.init_deck(id, acct("alice"), masked_deck(1), 3).unwrap();
    // not bob's turn yet
    assert_eq!(
        c.shuffle_deck(id, acct("bob"), masked_deck(2), true, 4),
        Err(GameError::AuthorizationError)
    );
    // non-player
    assert_eq!(
        c.shuffle_deck(id, acct("eve"), masked_deck(2), true, 4),
        Err(GameError::AuthorizationError)
    );
    // a failed shuffle proof rejects the deck
    assert_eq!(
        c.shuffle_deck(id, acct("alice"), masked_deck(2), false, 4),
        Err(GameError::CryptoVerificationError)
    );
    // wrong replacement deck size
    assert_eq!(
        c.shuffle_deck(id, acct("alice"), vec![MaskedCardBuf { buf: vec![9] }], true, 4),
        Err(GameError::ValidationError)
    );
    c.shuffle_deck(id, acct("alice"), masked_deck(2), true, 5).unwrap();
    assert_eq!(get_state(&c, id).deck[0].buf, vec![2, 0]);
    assert_eq!(get_state(&c, id).turn, 1);
    assert!(matches!(get_state(&c, id).phase, Phase::SHUFFLE));
    c.shuffle_deck(id, acct("bob"), masked_deck(3), true, 6).unwrap();
    // the turn wrapped to the dealer: dealing begins
    assert!(matches!(get_state(&c, id).phase, Phase::DEAL));
}

#[test]
fn deal_twice_is_duplicate() {
    let mut c = new_contract();
    let id = c.create_game(acct("alice"), pk(0), true, seed(), 1).unwrap();
    c.join_game(id, acct("bob"), pk(1), true).unwrap();
    c.start_game(id, acct("alice"), Some(pk(9)), 2).unwrap();
    c.init_deck(id, acct("alice"), masked_deck(1), 3).unwrap();
    c.shuffle_deck(id, acct("alice"), masked_deck(2), true, 4).unwrap();
    c.shuffle_deck(id, acct("bob"), masked_deck(3), true, 5).unwrap();
    c.deal(id, acct("alice"), vec![2, 3], vec![token(1), token(2)], true, 6).unwrap();
    assert_eq!(
        c.deal(id, acct("alice"), vec![2, 3], vec![token(1), token(2)], true, 7),
        Err(GameError::DuplicateError)
    );
    // token stored where the caller said
    let st = get_state(&c, id);
    assert_eq!(st.reveal_tokens_with_proofs[2][0].as_ref().unwrap().buf, token(1).buf);
    assert!(st.reveal_tokens_with_proofs[2][1].is_none());
}

#[test]
fn deal_validations() {
    let mut c = new_contract();
    let id = c.create_game(acct("alice"), pk(0), true, seed(), 1).unwrap();
    c.join_game(id, acct("bob"), pk(1), true).unwrap();
    c.start_game(id, acct("alice"), Some(pk(9)), 2).unwrap();
    c.init_deck(id, acct("alice"), masked_deck(1), 3).unwrap();
    // wrong phase
    assert_eq!(
        c.deal(id, acct("alice"), vec![], vec![], true, 4),
        Err(GameError::StateError)
    );
    c.shuffle_deck(id, acct("alice"), masked_deck(2), true, 4).unwrap();
    c.shuffle_deck(id, acct("bob"), masked_deck(3), true, 5).unwrap();
    // mismatched lengths
    assert_eq!(
        c.deal(id, acct("alice"), vec![2], vec![], true, 6),
        Err(GameError::ValidationError)
    );
    // card index out of range
    assert_eq!(
        c.deal(id, acct("alice"), vec![52], vec![token(1)], true, 6),
        Err(GameError::ValidationError)
    );
    // bad token proofs
    assert_eq!(
        c.deal(id, acct("alice"), vec![2], vec![token(1)], false, 6),
        Err(GameError::CryptoVerificationError)
    );
}

#[test]
fn blind_round_reaches_betting() {
    // four seats, 100 chips each, dealer 0, little/big blind 5/10
    let (mut c, id) = four_player_game_at_blind();
    c.blind(id, acct("bob"), 50).unwrap();
    {
        let st = get_state(&c, id);
        assert_eq!(st.bets[1], BetAmount::In(5));
        assert_eq!(st.ante, 5);
        assert_eq!(st.turn, 2);
        assert!(matches!(st.phase, Phase::BLIND));
    }
    c.blind(id, acct("carol"), 51).unwrap();
    {
        // the turn reached dealer + 3: betting opens
        let st = get_state(&c, id);
        assert_eq!(st.bets[2], BetAmount::In(10));
        assert_eq!(st.ante, 10);
        assert_eq!(st.turn, 3);
        assert!(matches!(st.phase, Phase::BET0));
    }
    // dave calls, alice calls, bob completes to 10, then everyone checks
    c.bet(id, acct("dave"), true, false, false, false, None, 52).unwrap();
    assert_eq!(get_state(&c, id).bets[3], BetAmount::In(10));
    c.bet(id, acct("alice"), true, false, false, false, None, 53).unwrap();
    c.bet(id, acct("bob"), true, false, false, false, None, 54).unwrap();
    {
        let st = get_state(&c, id);
        assert_eq!(st.bets, vec![
            BetAmount::In(10),
            BetAmount::In(10),
            BetAmount::In(10),
            BetAmount::In(10),
        ]);
        assert!(matches!(st.phase, Phase::BET0));
    }
    c.bet(id, acct("carol"), false, true, false, false, None, 55).unwrap();
    c.bet(id, acct("dave"), false, true, false, false, None, 56).unwrap();
    c.bet(id, acct("alice"), false, true, false, false, None, 57).unwrap();
    assert!(matches!(get_state(&c, id).phase, Phase::BET0));
    c.bet(id, acct("bob"), false, true, false, false, None, 58).unwrap();
    // every seat still in has checked: the flop opens
    assert!(matches!(get_state(&c, id).phase, Phase::FLOP));
    // no chips moved during betting
    assert_eq!(get_state(&c, id).balances.iter().sum::<u128>(), 400);
}

#[test]
fn blind_short_stack_goes_all_in() {
    let (mut c, id) = four_player_game_at_blind();
    get_state_mut(&mut c, id).balances = vec![100, 3, 100, 100];
    c.blind(id, acct("bob"), 50).unwrap();
    let st = get_state(&c, id);
    assert_eq!(st.bets[1], BetAmount::AllIn);
    assert_eq!(st.ante, 3);
}

#[test]
fn blind_wrong_turn_rejected() {
    let (mut c, id) = four_player_game_at_blind();
    assert_eq!(c.blind(id, acct("carol"), 50), Err(GameError::AuthorizationError));
    assert_eq!(c.blind(id, acct("eve"), 50), Err(GameError::AuthorizationError));
}

fn game_at_bet0() -> (Contract, GameId) {
    let (mut c, id) = four_player_game_at_blind();
    c.blind(id, acct("bob"), 50).unwrap();
    c.blind(id, acct("carol"), 51).unwrap();
    (c, id)
}

#[test]
fn bet_flag_combinations_validated() {
    let (mut c, id) = game_at_bet0();
    // two actions at once
    assert_eq!(
        c.bet(id, acct("dave"), true, true, false, false, None, 60),
        Err(GameError::ValidationError)
    );
    // no action at all
    assert_eq!(
        c.bet(id, acct("dave"), false, false, false, false, None, 60),
        Err(GameError::ValidationError)
    );
    // a call together with a raise amount
    assert_eq!(
        c.bet(id, acct("dave"), true, false, false, false, Some(20), 60),
        Err(GameError::ValidationError)
    );
}

#[test]
fn bet_preconditions_enforced() {
    let (mut c, id) = game_at_bet0();
    // dave has In(0) != ante 10: cannot check
    assert_eq!(
        c.bet(id, acct("dave"), false, true, false, false, None, 60),
        Err(GameError::StateError)
    );
    // raise must exceed the ante
    assert_eq!(
        c.bet(id, acct("dave"), false, false, false, false, Some(10), 60),
        Err(GameError::ValidationError)
    );
    // raise cannot exceed the balance
    assert_eq!(
        c.bet(id, acct("dave"), false, false, false, false, Some(101), 60),
        Err(GameError::ValidationError)
    );
    // a proper raise moves the ante
    c.bet(id, acct("dave"), false, false, false, false, Some(40), 61).unwrap();
    let st = get_state(&c, id);
    assert_eq!(st.ante, 40);
    assert_eq!(st.bets[3], BetAmount::In(40));
    assert_eq!(st.turn, 0);
}

#[test]
fn bet_in_shuffle_phase_rejected() {
    let mut c = new_contract();
    let id = c.create_game(acct("alice"), pk(0), true, seed(), 1).unwrap();
    c.join_game(id, acct("bob"), pk(1), true).unwrap();
    c.start_game(id, acct("alice"), Some(pk(9)), 2).unwrap();
    assert_eq!(
        c.bet(id, acct("alice"), true, false, false, false, None, 3),
        Err(GameError::StateError)
    );
}

#[test]
fn folding_down_to_one_pays_the_pot() {
    let (mut c, id) = game_at_bet0();
    let before: u128 = get_state(&c, id).balances.iter().sum();
    // dave folds: three seats remain, play continues
    c.bet(id, acct("dave"), false, false, false, true, None, 60).unwrap();
    {
        let st = get_state(&c, id);
        assert_eq!(st.bets[3], BetAmount::Folded(0));
        assert!(matches!(st.phase, Phase::BET0));
        assert_eq!(st.turn, 0);
    }
    // alice folds: two remain
    c.bet(id, acct("alice"), false, false, false, true, None, 61).unwrap();
    assert!(matches!(get_state(&c, id).phase, Phase::BET0));
    assert_eq!(get_state(&c, id).turn, 1);
    // bob folds: only carol remains and immediately wins the pot
    c.bet(id, acct("bob"), false, false, false, true, None, 62).unwrap();
    let st = get_state(&c, id);
    assert!(matches!(st.phase, Phase::SHUFFLE));
    // carol collects bob's little blind; folded zero-stakes pay nothing
    assert_eq!(st.balances, vec![100, 95, 105, 100]);
    assert_eq!(st.balances.iter().sum::<u128>(), before);
    assert_eq!(st.bets, vec![
        BetAmount::In(0),
        BetAmount::In(0),
        BetAmount::In(0),
        BetAmount::In(0),
    ]);
}

#[test]
fn transfer_pot_conserves_chips() {
    let mut c = new_contract();
    let id = c.create_game(acct("alice"), pk(0), true, seed(), 1).unwrap();
    c.join_game(id, acct("bob"), pk(1), true).unwrap();
    c.join_game(id, acct("carol"), pk(2), true).unwrap();
    c.join_game(id, acct("dave"), pk(3), true).unwrap();
    c.start_game(id, acct("alice"), Some(pk(9)), 2).unwrap();
    let st = get_state_mut(&mut c, id);
    st.balances = vec![50, 30, 40, 20];
    st.bets = vec![
        BetAmount::In(10),
        BetAmount::AllIn,
        BetAmount::Folded(5),
        BetAmount::In(0),
    ];
    st.transfer_pot(0);
    assert_eq!(st.balances, vec![85, 0, 35, 20]);
    assert_eq!(st.balances.iter().sum::<u128>(), 140);
}

#[test]
fn next_in_player_skips_folded_seats() {
    let mut c = new_contract();
    let id = c.create_game(acct("alice"), pk(0), true, seed(), 1).unwrap();
    c.join_game(id, acct("bob"), pk(1), true).unwrap();
    c.join_game(id, acct("carol"), pk(2), true).unwrap();
    c.join_game(id, acct("dave"), pk(3), true).unwrap();
    c.start_game(id, acct("alice"), Some(pk(9)), 2).unwrap();
    let st = get_state_mut(&mut c, id);
    st.bets = vec![
        BetAmount::In(0),
        BetAmount::Folded(0),
        BetAmount::In(0),
        BetAmount::Folded(0),
    ];
    st.turn = 0;
    assert_eq!(st.next_in_player(), Some(2));
    st.turn = 2;
    assert_eq!(st.next_in_player(), Some(0));
    assert_eq!(st.num_players_in(), 2);
    // a full cycle from seat 0 visits each non-folded seat exactly once
    st.turn = 0;
    let first = st.next_in_player().unwrap();
    st.turn = first;
    let second = st.next_in_player().unwrap();
    assert_eq!((first, second), (2, 0));
    st.bets = vec![
        BetAmount::Folded(0),
        BetAmount::Folded(0),
        BetAmount::Folded(0),
        BetAmount::Folded(0),
    ];
    assert_eq!(st.next_in_player(), None);
}

#[test]
fn reveal_flow_through_flop() {
    let (mut c, id) = game_at_bet0();
    // everyone calls up to the ante and checks to end BET0
    c.bet(id, acct("dave"), true, false, false, false, None, 60).unwrap();
    c.bet(id, acct("alice"), true, false, false, false, None, 61).unwrap();
    c.bet(id, acct("bob"), true, false, false, false, None, 62).unwrap();
    c.bet(id, acct("carol"), false, true, false, false, None, 63).unwrap();
    c.bet(id, acct("dave"), false, true, false, false, None, 64).unwrap();
    c.bet(id, acct("alice"), false, true, false, false, None, 65).unwrap();
    c.bet(id, acct("bob"), false, true, false, false, None, 66).unwrap();
    assert!(matches!(get_state(&c, id).phase, Phase::FLOP));
    // flop: three community cards at slots 8, 9, 10 (after 2 * 4 hole cards)
    assert_eq!(
        c.reveal_cards(id, acct("alice"), vec![8], vec![token(1)], true, 70),
        Err(GameError::ValidationError)
    );
    c.reveal_cards(id, acct("alice"), vec![8, 9, 10], vec![token(1), token(2), token(3)], true, 70)
        .unwrap();
    assert_eq!(
        c.reveal_cards(
            id,
            acct("alice"),
            vec![8, 9, 10],
            vec![token(1), token(2), token(3)],
            true,
            71,
        ),
        Err(GameError::DuplicateError)
    );
    c.reveal_cards(id, acct("bob"), vec![8, 9, 10], vec![token(4), token(5), token(6)], true, 72)
        .unwrap();
    c.reveal_cards(id, acct("carol"), vec![8, 9, 10], vec![token(7), token(8), token(9)], true, 73)
        .unwrap();
    assert!(matches!(get_state(&c, id).phase, Phase::FLOP));
    c.reveal_cards(id, acct("dave"), vec![8, 9, 10], vec![token(10), token(11), token(12)], true, 74)
        .unwrap();
    // all four revealed: betting resumes at the dealer
    let st = get_state(&c, id);
    assert!(matches!(st.phase, Phase::BET1));
    assert_eq!(st.turn, 0);
    assert!(st.revealed_players.iter().all(|f| !f));
    assert_eq!(st.reveal_tokens_with_proofs[8][0].as_ref().unwrap().buf, token(1).buf);
}

#[test]
fn lobby_and_state_are_kept_apart() {
    let mut c = new_contract();
    let id = c.create_game(acct("alice"), pk(0), true, seed(), 1).unwrap();
    // in-progress actions on a lobby are state errors
    assert_eq!(c.init_deck(id, acct("alice"), masked_deck(1), 2), Err(GameError::StateError));
    assert_eq!(
        c.shuffle_deck(id, acct("alice"), masked_deck(1), true, 2),
        Err(GameError::StateError)
    );
    assert_eq!(c.blind(id, acct("alice"), 2), Err(GameError::StateError));
    assert_eq!(c.deal(id, acct("alice"), vec![], vec![], true, 2), Err(GameError::StateError));
}

#[test]
fn last_modified_follows_successful_actions() {
    let (mut c, id) = four_player_game_at_blind();
    assert_eq!(get_state(&c, id).last_modified, 43);
    c.blind(id, acct("bob"), 99).unwrap();
    assert_eq!(get_state(&c, id).last_modified, 99);
    // a failed action leaves the record untouched
    let _ = c.blind(id, acct("bob"), 123);
    assert_eq!(get_state(&c, id).last_modified, 99);
}

#[test]
fn game_entry_holds_matching_id() {
    let mut c = new_contract();
    let id = c.create_game(acct("alice"), pk(0), true, seed(), 1).unwrap();
    let entry: &GameEntry = &c.games[0];
    assert_eq!(entry.id, id);
}

#[test]
fn all_in_lifts_ante_and_fold_records_balance() {
    let (mut c, id) = game_at_bet0();
    // dave goes all-in: the ante rises to his whole balance
    c.bet(id, acct("dave"), false, false, true, false, None, 60).unwrap();
    {
        let st = get_state(&c, id);
        assert_eq!(st.bets[3], BetAmount::AllIn);
        assert_eq!(st.ante, 100);
        assert_eq!(st.turn, 0);
    }
    // dave cannot act twice in a row; and once all-in, a later fold (his
    // next turn) records his full balance on the table
    c.bet(id, acct("alice"), false, false, false, true, None, 61).unwrap();
    c.bet(id, acct("bob"), false, false, false, true, None, 62).unwrap();
    // carol and dave remain; carol calls the raised ante
    c.bet(id, acct("carol"), true, false, false, false, None, 63).unwrap();
    {
        let st = get_state(&c, id);
        assert_eq!(st.bets[2], BetAmount::In(100));
        assert_eq!(st.turn, 3);
    }
    // dave checks (all-in seats may check); carol checks: the flop opens
    c.bet(id, acct("dave"), false, true, false, false, None, 64).unwrap();
    c.bet(id, acct("carol"), false, true, false, false, None, 65).unwrap();
    assert!(matches!(get_state(&c, id).phase, Phase::FLOP));
}

#[test]
fn state_getters_report_the_table() {
    let (c, id) = four_player_game_at_blind();
    let st = get_state(&c, id);
    assert_eq!(st.num_cards(), DECK_SIZE);
    assert_eq!(st.num_players_exec(), 4);
    assert_eq!(st.player_account_id(2).bytes, b"carol".to_vec());
    assert_eq!(st.player_index(&acct("dave")), Some(3));
    assert_eq!(st.player_index(&acct("eve")), None);
    assert_eq!(st.num_checks(), 0);
    assert!(st.player_can_call());
    assert!(!st.player_can_raise() || st.balances[st.turn] > st.ante);
}
