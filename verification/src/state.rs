use vstd::prelude::*;
use crate::types::{
    AccountId, Balance, BetAmount, GameId, MaskedCardBuf, ParamsBuf, Phase, PublicKeyBuf,
    RevealTokenBuf, DECK_SIZE, copy_bytes,
};
use crate::chips::{stake_of, sum_balances};
use crate::lobby::{find_seat, first_seat};

verus! {

/// The live record of one in-progress game.
pub struct GameState {
    pub id: GameId,
    /// The host account of each player; the index is the seat, fixed for the
    /// game's lifetime.
    pub player_account_ids: Vec<AccountId>,
    /// Current phase of the game.
    pub phase: Phase,
    /// Seat whose action is currently required (meaningful only in
    /// turn-ordered phases).
    pub turn: usize,
    /// Seat of the current dealer; advances by one each completed round.
    pub dealer: usize,
    /// Per seat: has it supplied every reveal token it owes for the current
    /// reveal step.
    pub revealed_players: Vec<bool>,
    /// Per seat: its bet state this round.
    pub bets: Vec<BetAmount>,
    /// The amount every non-folded, non-all-in seat must match to stay in.
    pub ante: Balance,
    /// Per seat: has it checked this betting sub-round.
    pub checks: Vec<bool>,
    /// Per seat: its chip balance.  The total over all seats is conserved.
    pub balances: Vec<Balance>,
    /// Last successful modification (milliseconds), for staleness eviction.
    pub last_modified: u64,
    /// Public parameters of the protocol, copied from the genesis record.
    pub pp: ParamsBuf,
    /// The protocol public key of each seat.
    pub player_game_pubkeys: Vec<PublicKeyBuf>,
    /// The aggregate public key all cards are masked under.
    pub aggregate_pubkey: PublicKeyBuf,
    /// The masked deck; empty until the creator seeds it, then always
    /// `DECK_SIZE` cards, replaced wholesale by verified shuffles.
    pub deck: Vec<MaskedCardBuf>,
    /// `reveal_tokens_with_proofs[card][seat]` is the reveal token seat has
    /// supplied for card, if any.  A card can be unmasked only once every
    /// seat's slot for it is populated.
    pub reveal_tokens_with_proofs: Vec<Vec<Option<RevealTokenBuf>>>,
}

/// Number of seats whose bet state is not folded, among the first `k`.
pub open spec fn count_in_upto(bets: Seq<BetAmount>, k: int) -> int
    decreases k,
{
    if k <= 0 {
        0
    } else {
        count_in_upto(bets, k - 1) + if bets[k - 1] is Folded {
            0int
        } else {
            1int
        }
    }
}

/// Number of non-folded seats.
pub open spec fn count_in(bets: Seq<BetAmount>) -> int {
    count_in_upto(bets, bets.len() as int)
}

/// Number of set flags among the first `k`.
pub open spec fn count_true_upto(flags: Seq<bool>, k: int) -> int
    decreases k,
{
    if k <= 0 {
        0
    } else {
        count_true_upto(flags, k - 1) + if flags[k - 1] {
            1int
        } else {
            0int
        }
    }
}

/// Number of set flags.
pub open spec fn count_true(flags: Seq<bool>) -> int {
    count_true_upto(flags, flags.len() as int)
}

/// Legal single transitions of the phase graph.  A betting phase may
/// short-circuit to SHUFFLE when all but one seat folds; SHOWDOWN returns to
/// SHUFFLE when the pot is settled and a new round begins.
pub open spec fn phase_edge(a: Phase, b: Phase) -> bool {
    ||| (a == Phase::SHUFFLE && b == Phase::DEAL)
    ||| (a == Phase::DEAL && b == Phase::BLIND)
    ||| (a == Phase::BLIND && b == Phase::BET0)
    ||| (a == Phase::BET0 && b == Phase::FLOP)
    ||| (a == Phase::FLOP && b == Phase::BET1)
    ||| (a == Phase::BET1 && b == Phase::TURN)
    ||| (a == Phase::TURN && b == Phase::BET2)
    ||| (a == Phase::BET2 && b == Phase::RIVER)
    ||| (a == Phase::RIVER && b == Phase::BET3)
    ||| (a == Phase::BET3 && b == Phase::SHOWDOWN_REVEAL)
    ||| (a == Phase::SHOWDOWN_REVEAL && b == Phase::SHOWDOWN)
    ||| (a == Phase::SHOWDOWN && b == Phase::SHUFFLE)
    ||| (a == Phase::BET0 && b == Phase::SHUFFLE)
    ||| (a == Phase::BET1 && b == Phase::SHUFFLE)
    ||| (a == Phase::BET2 && b == Phase::SHUFFLE)
    ||| (a == Phase::BET3 && b == Phase::SHUFFLE)
}

/// A call leaves the phase alone or moves along one edge of the graph: no
/// action skips a phase.
pub open spec fn phase_ok(a: Phase, b: Phase) -> bool {
    a == b || phase_edge(a, b)
}

impl GameState {
    pub open spec fn num_players(self) -> int {
        self.player_account_ids@.len() as int
    }

    /// The token a seat has supplied for a card, if any.
    pub open spec fn token_at(self, card: int, seat: int) -> Option<RevealTokenBuf> {
        self.reveal_tokens_with_proofs@[card]@[seat]
    }

    /// Structural well-formedness: every per-seat list has one slot per
    /// seat, the turn and dealer are seats, the deck is unseeded or full,
    /// and the token matrix always has a slot per (card, seat).
    pub open spec fn shape_ok(self) -> bool {
        let n = self.num_players();
        &&& n >= 1
        &&& self.revealed_players@.len() == n
        &&& self.bets@.len() == n
        &&& self.checks@.len() == n
        &&& self.balances@.len() == n
        &&& self.player_game_pubkeys@.len() == n
        &&& (self.turn as int) < n
        &&& (self.dealer as int) < n
        &&& (self.deck@.len() == 0 || self.deck@.len() == DECK_SIZE)
        &&& (self.phase != Phase::SHUFFLE ==> self.deck@.len() == DECK_SIZE)
        &&& self.reveal_tokens_with_proofs@.len() == DECK_SIZE
        &&& forall|c: int|
            0 <= c < DECK_SIZE ==> #[trigger] self.reveal_tokens_with_proofs@[c]@.len() == n
    }

    /// No seat has staked more than its balance.
    pub open spec fn stakes_ok(self) -> bool {
        forall|i: int|
            0 <= i < self.num_players() ==> stake_of(
                #[trigger] self.bets@[i],
                self.balances@[i],
            ) <= self.balances@[i]
    }

    /// Well-formedness: the shape above, no seat staking more than its
    /// balance, the total of all balances fitting a `Balance`, and check
    /// flags held only by non-folded seats.
    pub open spec fn wf(self) -> bool {
        let n = self.num_players();
        &&& self.shape_ok()
        &&& self.stakes_ok()
        &&& sum_balances(self.balances@) <= Balance::MAX
        &&& forall|i: int| 0 <= i < n && #[trigger] self.checks@[i] ==> !(self.bets@[i] is Folded)
    }

    /// Seat of the given account, if it plays in this game.
    pub fn player_index(&self, account_id: &AccountId) -> (r: Option<usize>)
        ensures
            match r {
                Some(i) => first_seat(self.player_account_ids@, account_id@) == Some(i as int),
                None => first_seat(self.player_account_ids@, account_id@) is None,
            },
    {
        find_seat(&self.player_account_ids, account_id)
    }

    /// The account sitting at a seat.
    pub fn player_account_id(&self, player_index: usize) -> (r: AccountId)
        requires
            player_index < self.player_account_ids@.len(),
        ensures
            r@ == self.player_account_ids@[player_index as int]@,
    {
        AccountId { bytes: copy_bytes(&self.player_account_ids[player_index].bytes) }
    }

    pub fn num_players_exec(&self) -> (r: usize)
        ensures
            r == self.num_players(),
    {
        self.player_account_ids.len()
    }

    /// How many cards the protocol configuration deals with.
    pub fn num_cards(&self) -> (r: usize)
        ensures
            r == DECK_SIZE,
    {
        DECK_SIZE
    }

    /// Replace the deck wholesale (only ever after a verified shuffle or the
    /// initial seeding).
    pub fn set_deck(&mut self, deck: Vec<MaskedCardBuf>)
        ensures
            *final(self) == (GameState { deck, ..*old(self) }),
    {
        self.deck = deck;
    }

    /// Clear the token matrix to one empty slot per (card, seat).
    pub fn reset_reveal_tokens(&mut self)
        requires
            old(self).shape_ok(),
        ensures
            *final(self) == (GameState {
                reveal_tokens_with_proofs: final(self).reveal_tokens_with_proofs,
                ..*old(self)
            }),
            final(self).reveal_tokens_with_proofs@.len() == DECK_SIZE,
            forall|c: int|
                0 <= c < DECK_SIZE ==> (#[trigger] final(self).reveal_tokens_with_proofs@[c])@
                    =~= Seq::<Option<RevealTokenBuf>>::new(
                    old(self).num_players() as nat,
                    |j: int| None,
                ),
    {
        let n = self.player_account_ids.len();
        self.reveal_tokens_with_proofs = make_token_matrix(DECK_SIZE, n);
    }

    /// Store the token a seat supplies for one card.
    pub fn set_reveal_token(&mut self, card_idx: usize, player_idx: usize, token: RevealTokenBuf)
        requires
            old(self).shape_ok(),
            card_idx < DECK_SIZE,
            player_idx < old(self).num_players(),
        ensures
            *final(self) == (GameState {
                reveal_tokens_with_proofs: final(self).reveal_tokens_with_proofs,
                ..*old(self)
            }),
            final(self).reveal_tokens_with_proofs@.len() == DECK_SIZE,
            forall|c: int, p: int|
                0 <= c < DECK_SIZE && 0 <= p < old(self).num_players() && !(c == card_idx && p
                    == player_idx) ==> final(self).token_at(c, p) == old(self).token_at(c, p),
            final(self).token_at(card_idx as int, player_idx as int) == Some(token),
            forall|c: int|
                0 <= c < DECK_SIZE ==> #[trigger] final(self).reveal_tokens_with_proofs@[c]@.len()
                    == old(self).reveal_tokens_with_proofs@[c]@.len(),
    {
        let mut row: Vec<Option<RevealTokenBuf>> = Vec::new();
        self.reveal_tokens_with_proofs.set_and_swap(card_idx, &mut row);
        row.set(player_idx, Some(token));
        self.reveal_tokens_with_proofs.set_and_swap(card_idx, &mut row);
        proof {
            assert(self.reveal_tokens_with_proofs@ =~= old(
                self,
            ).reveal_tokens_with_proofs@.update(
                card_idx as int,
                self.reveal_tokens_with_proofs@[card_idx as int],
            ));
        }
    }

    /// Record that a seat has supplied everything it owes this step.
    pub fn set_revealed_player(&mut self, player_idx: usize)
        requires
            player_idx < old(self).revealed_players@.len(),
        ensures
            *final(self) == (GameState { revealed_players: final(self).revealed_players, ..*old(self) }),
            final(self).revealed_players@ == old(self).revealed_players@.update(
                player_idx as int,
                true,
            ),
    {
        self.revealed_players.set(player_idx, true);
    }

    /// Clear every seat's revealed flag for the next step.
    pub fn reset_revealed_players(&mut self)
        ensures
            *final(self) == (GameState { revealed_players: final(self).revealed_players, ..*old(self) }),
            final(self).revealed_players@ =~= Seq::<bool>::new(
                old(self).num_players() as nat,
                |j: int| false,
            ),
    {
        let n = self.player_account_ids.len();
        self.revealed_players = make_bool_vec(n);
    }

    /// Has every seat supplied what it owes for the current step?
    pub fn all_players_revealed(&self) -> (r: bool)
        ensures
            r == (forall|i: int| 0 <= i < self.revealed_players@.len()
                ==> #[trigger] self.revealed_players@[i]),
    {
        let n = self.revealed_players.len();
        let mut i: usize = 0;
        while i < n
            invariant
                n == self.revealed_players@.len(),
                0 <= i <= n,
                forall|k: int| 0 <= k < i ==> #[trigger] self.revealed_players@[k],
            decreases n - i,
        {
            if !self.revealed_players[i] {
                return false;
            }
            i = i + 1;
        }
        true
    }

    /// Clear every check flag for the next betting sub-round.
    pub fn reset_checks(&mut self)
        ensures
            *final(self) == (GameState { checks: final(self).checks, ..*old(self) }),
            final(self).checks@ =~= Seq::<bool>::new(old(self).num_players() as nat, |j: int| false),
    {
        let n = self.player_account_ids.len();
        self.checks = make_bool_vec(n);
    }

    pub fn set_player_checked(&mut self, player_idx: usize)
        requires
            player_idx < old(self).checks@.len(),
        ensures
            *final(self) == (GameState { checks: final(self).checks, ..*old(self) }),
            final(self).checks@ == old(self).checks@.update(player_idx as int, true),
    {
        self.checks.set(player_idx, true);
    }

    pub fn unset_player_checked(&mut self, player_idx: usize)
        requires
            player_idx < old(self).checks@.len(),
        ensures
            *final(self) == (GameState { checks: final(self).checks, ..*old(self) }),
            final(self).checks@ == old(self).checks@.update(player_idx as int, false),
    {
        self.checks.set(player_idx, false);
    }

    /// Is the seat folded?
    pub fn player_is_folded(&self, i: usize) -> (r: bool)
        requires
            i < self.bets@.len(),
        ensures
            r == (self.bets@[i as int] is Folded),
    {
        match self.bets[i] {
            BetAmount::Folded(_) => true,
            _ => false,
        }
    }

    /// Number of seats still in the round.
    pub fn num_players_in(&self) -> (r: usize)
        ensures
            r == count_in(self.bets@),
    {
        let n = self.bets.len();
        let mut i: usize = 0;
        let mut c: usize = 0;
        while i < n
            invariant
                n == self.bets@.len(),
                0 <= i <= n,
                c == count_in_upto(self.bets@, i as int),
                c <= i,
            decreases n - i,
        {
            if !self.player_is_folded(i) {
                c = c + 1;
            }
            i = i + 1;
        }
        c
    }

    /// Number of seats that have checked this sub-round.
    pub fn num_players_checked(&self) -> (r: usize)
        ensures
            r == count_true(self.checks@),
    {
        let n = self.checks.len();
        let mut i: usize = 0;
        let mut c: usize = 0;
        while i < n
            invariant
                n == self.checks@.len(),
                0 <= i <= n,
                c == count_true_upto(self.checks@, i as int),
                c <= i,
            decreases n - i,
        {
            if self.checks[i] {
                c = c + 1;
            }
            i = i + 1;
        }
        c
    }

    /// Number of seats that have checked this sub-round.
    pub fn num_checks(&self) -> (r: usize)
        ensures
            r == count_true(self.checks@),
    {
        self.num_players_checked()
    }

    /// The betting sub-round is over when every seat still in has checked.
    pub fn enough_players_checked(&self) -> (r: bool)
        ensures
            r == (count_in(self.bets@) == count_true(self.checks@)),
    {
        self.num_players_in() == self.num_players_checked()
    }

    /// Reset every bet to `In(0)` for a new round.
    pub fn reset_bets(&mut self)
        ensures
            *final(self) == (GameState { bets: final(self).bets, ..*old(self) }),
            final(self).bets@ =~= Seq::<BetAmount>::new(
                old(self).num_players() as nat,
                |j: int| BetAmount::In(0),
            ),
    {
        let n = self.player_account_ids.len();
        self.bets = make_bets_vec(n);
    }

    /// Fold the seat, leaving its stake on the table.
    pub fn set_folded_player(&mut self, player_idx: usize)
        requires
            old(self).shape_ok(),
            player_idx < old(self).num_players(),
            !(old(self).bets@[player_idx as int] is Folded),
        ensures
            *final(self) == (GameState { bets: final(self).bets, ..*old(self) }),
            final(self).bets@ == old(self).bets@.update(
                player_idx as int,
                BetAmount::Folded(
                    stake_of(
                        old(self).bets@[player_idx as int],
                        old(self).balances@[player_idx as int],
                    ) as Balance,
                ),
            ),
    {
        let amt: Balance = match self.bets[player_idx] {
            BetAmount::In(a) => a,
            BetAmount::AllIn => self.balances[player_idx],
            BetAmount::Folded(a) => a,
        };
        self.bets.set(player_idx, BetAmount::Folded(amt));
    }

    /// Reset the whole per-round state: bets, checks, revealed flags, token
    /// matrix and ante; the turn returns to the dealer.
    pub fn new_round(&mut self)
        requires
            old(self).shape_ok(),
            sum_balances(old(self).balances@) <= Balance::MAX,
        ensures
            final(self).id == old(self).id,
            final(self).player_account_ids@ == old(self).player_account_ids@,
            final(self).phase == old(self).phase,
            final(self).turn == old(self).dealer,
            final(self).dealer == old(self).dealer,
            final(self).ante == 0,
            final(self).balances@ == old(self).balances@,
            final(self).last_modified == old(self).last_modified,
            final(self).pp == old(self).pp,
            final(self).player_game_pubkeys@ == old(self).player_game_pubkeys@,
            final(self).aggregate_pubkey == old(self).aggregate_pubkey,
            final(self).deck@ == old(self).deck@,
            final(self).bets@ =~= Seq::<BetAmount>::new(
                old(self).num_players() as nat,
                |j: int| BetAmount::In(0),
            ),
            final(self).checks@ =~= Seq::<bool>::new(old(self).num_players() as nat, |j: int| false),
            final(self).revealed_players@ =~= Seq::<bool>::new(
                old(self).num_players() as nat,
                |j: int| false,
            ),
            forall|c: int, p: int|
                0 <= c < DECK_SIZE && 0 <= p < old(self).num_players()
                    ==> #[trigger] final(self).token_at(c, p) is None,
            final(self).wf(),
    {
        self.reset_bets();
        self.reset_checks();
        self.reset_revealed_players();
        self.reset_reveal_tokens();
        self.ante = 0;
        self.turn = self.dealer;
        proof {
            crate::chips::lemma_sum_nonneg(self.balances@);
        }
    }
}

/// A vector of `n` cleared flags.
pub fn make_bool_vec(n: usize) -> (r: Vec<bool>)
    ensures
        r@ =~= Seq::<bool>::new(n as nat, |j: int| false),
{
    let mut r: Vec<bool> = Vec::new();
    let mut i: usize = 0;
    while i < n
        invariant
            0 <= i <= n,
            r@ =~= Seq::<bool>::new(i as nat, |j: int| false),
        decreases n - i,
    {
        r.push(false);
        i = i + 1;
    }
    r
}

/// A vector of `n` fresh `In(0)` bets.
pub fn make_bets_vec(n: usize) -> (r: Vec<BetAmount>)
    ensures
        r@ =~= Seq::<BetAmount>::new(n as nat, |j: int| BetAmount::In(0)),
{
    let mut r: Vec<BetAmount> = Vec::new();
    let mut i: usize = 0;
    while i < n
        invariant
            0 <= i <= n,
            r@ =~= Seq::<BetAmount>::new(i as nat, |j: int| BetAmount::In(0)),
        decreases n - i,
    {
        r.push(BetAmount::In(0));
        i = i + 1;
    }
    r
}

/// A vector of `n` zero balances.
pub fn make_balances_vec(n: usize) -> (r: Vec<Balance>)
    ensures
        r@ =~= Seq::<Balance>::new(n as nat, |j: int| 0 as Balance),
{
    let mut r: Vec<Balance> = Vec::new();
    let mut i: usize = 0;
    while i < n
        invariant
            0 <= i <= n,
            r@ =~= Seq::<Balance>::new(i as nat, |j: int| 0 as Balance),
        decreases n - i,
    {
        r.push(0);
        i = i + 1;
    }
    r
}

/// One token row: an empty slot per seat.
pub fn make_token_row(n: usize) -> (r: Vec<Option<RevealTokenBuf>>)
    ensures
        r@ =~= Seq::<Option<RevealTokenBuf>>::new(n as nat, |j: int| None),
{
    let mut r: Vec<Option<RevealTokenBuf>> = Vec::new();
    let mut i: usize = 0;
    while i < n
        invariant
            0 <= i <= n,
            r@ =~= Seq::<Option<RevealTokenBuf>>::new(i as nat, |j: int| None),
        decreases n - i,
    {
        r.push(None);
        i = i + 1;
    }
    r
}

/// The empty token matrix: `rows` cards by `n` seats.
pub fn make_token_matrix(rows: usize, n: usize) -> (r: Vec<Vec<Option<RevealTokenBuf>>>)
    ensures
        r@.len() == rows,
        forall|c: int|
            0 <= c < rows ==> (#[trigger] r@[c])@ =~= Seq::<Option<RevealTokenBuf>>::new(
                n as nat,
                |j: int| None,
            ),
{
    let mut r: Vec<Vec<Option<RevealTokenBuf>>> = Vec::new();
    let mut i: usize = 0;
    while i < rows
        invariant
            0 <= i <= rows,
            r@.len() == i,
            forall|c: int|
                0 <= c < i ==> (#[trigger] r@[c])@ =~= Seq::<Option<RevealTokenBuf>>::new(
                    n as nat,
                    |j: int| None,
                ),
        decreases rows - i,
    {
        r.push(make_token_row(n));
        i = i + 1;
    }
    r
}


impl GameState {
    /// A fresh game over these seats: SHUFFLE phase, the dealer and turn at
    /// seat 0, empty stakes and balances, no deck yet, an empty token
    /// matrix.
    pub fn new(
        id: GameId,
        player_account_ids: Vec<AccountId>,
        player_game_pubkeys: Vec<PublicKeyBuf>,
        pp: ParamsBuf,
        aggregate_pubkey: PublicKeyBuf,
        now: u64,
    ) -> (r: GameState)
        requires
            player_account_ids@.len() >= 1,
            player_game_pubkeys@.len() == player_account_ids@.len(),
        ensures
            r.wf(),
            r.id == id,
            r.player_account_ids@ == player_account_ids@,
            r.phase == Phase::SHUFFLE,
            r.turn == 0,
            r.dealer == 0,
            r.ante == 0,
            r.last_modified == now,
            r.pp == pp,
            r.player_game_pubkeys@ == player_game_pubkeys@,
            r.aggregate_pubkey == aggregate_pubkey,
            r.deck@.len() == 0,
            r.bets@ =~= Seq::<BetAmount>::new(
                player_account_ids@.len() as nat,
                |j: int| BetAmount::In(0),
            ),
            r.checks@ =~= Seq::<bool>::new(player_account_ids@.len() as nat, |j: int| false),
            r.revealed_players@ =~= Seq::<bool>::new(
                player_account_ids@.len() as nat,
                |j: int| false,
            ),
            r.balances@ =~= Seq::<Balance>::new(
                player_account_ids@.len() as nat,
                |j: int| 0 as Balance,
            ),
            forall|c: int, p: int|
                0 <= c < DECK_SIZE && 0 <= p < player_account_ids@.len()
                    ==> #[trigger] r.token_at(c, p) is None,
    {
        let n = player_account_ids.len();
        let r = GameState {
            id,
            player_account_ids,
            phase: Phase::SHUFFLE,
            turn: 0,
            dealer: 0,
            revealed_players: make_bool_vec(n),
            bets: make_bets_vec(n),
            ante: 0,
            checks: make_bool_vec(n),
            balances: make_balances_vec(n),
            last_modified: now,
            pp,
            player_game_pubkeys,
            aggregate_pubkey,
            deck: Vec::new(),
            reveal_tokens_with_proofs: make_token_matrix(DECK_SIZE, n),
        };
        proof {
            crate::chips::lemma_sum_zero(r.balances@);
        }
        r
    }
}

} // verus!
