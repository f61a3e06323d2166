use vstd::prelude::*;
use crate::types::{GameError, Phase, RevealTokenBuf, wrap1, DECK_SIZE};
use crate::state::{phase_ok, GameState};
use crate::betting::next_in;

verus! {

/// Every seat's flag is set.
pub open spec fn all_true(flags: Seq<bool>) -> bool {
    forall|i: int| 0 <= i < flags.len() ==> #[trigger] flags[i]
}

/// How many cards a seat owes tokens for in each reveal phase: the three
/// flop cards, one turn card, one river card, or its own two hole cards at
/// the showdown reveal.
pub open spec fn required_reveal_count(p: Phase) -> int {
    match p {
        Phase::FLOP => 3,
        Phase::TURN => 1,
        Phase::RIVER => 1,
        Phase::SHOWDOWN_REVEAL => 2,
        _ => 0,
    }
}

/// Phases in which `reveal` is a legal action.
pub open spec fn is_reveal_phase(p: Phase) -> bool {
    p == Phase::FLOP || p == Phase::TURN || p == Phase::RIVER || p == Phase::SHOWDOWN_REVEAL
}

/// The phase a completed reveal step advances to.
pub open spec fn reveal_next_phase(p: Phase) -> Phase {
    match p {
        Phase::FLOP => Phase::BET1,
        Phase::TURN => Phase::BET2,
        Phase::RIVER => Phase::BET3,
        Phase::SHOWDOWN_REVEAL => Phase::SHOWDOWN,
        _ => p,
    }
}

/// Index of the last occurrence of `c` in `idxs`, or -1.
pub open spec fn last_pos(idxs: Seq<usize>, c: usize) -> int
    decreases idxs.len(),
{
    if idxs.len() == 0 {
        -1
    } else if idxs.last() == c {
        idxs.len() - 1
    } else {
        last_pos(idxs.drop_last(), c)
    }
}

/// The token matrix after a seat supplies tokens for the listed cards: its
/// own row takes each supplied token (the last one when a card is listed
/// twice), every other row is untouched.
pub open spec fn tokens_stored(
    pre: GameState,
    post: GameState,
    player: int,
    idxs: Seq<usize>,
    toks: Seq<RevealTokenBuf>,
) -> bool {
    &&& forall|c: int, q: int|
        0 <= c < DECK_SIZE && 0 <= q < pre.num_players() && q != player
            ==> #[trigger] post.token_at(c, q) == pre.token_at(c, q)
    &&& forall|c: int|
        0 <= c < DECK_SIZE ==> #[trigger] post.token_at(c, player) == (if last_pos(
            idxs,
            c as usize,
        ) >= 0 {
            Some(toks[last_pos(idxs, c as usize)])
        } else {
            pre.token_at(c, player)
        })
}

impl GameState {
    /// Store one seat's supplied tokens, in list order.
    fn store_tokens(&mut self, player: usize, card_indices: &Vec<usize>, tokens: Vec<RevealTokenBuf>)
        requires
            old(self).shape_ok(),
            player < old(self).num_players(),
            card_indices@.len() == tokens@.len(),
            forall|k: int| 0 <= k < card_indices@.len() ==> #[trigger] card_indices@[k] < DECK_SIZE,
        ensures
            final(self).shape_ok(),
            *final(self) == (GameState {
                reveal_tokens_with_proofs: final(self).reveal_tokens_with_proofs,
                ..*old(self)
            }),
            tokens_stored(*old(self), *final(self), player as int, card_indices@, tokens@),
    {
        let ghost toks = tokens@;
        let ghost idxs = card_indices@;
        let len = card_indices.len();
        let mut tokens = tokens;
        let mut k: usize = 0;
        while k < len
            invariant
                self.shape_ok(),
                player < self.num_players(),
                len == idxs.len() == toks.len(),
                0 <= k <= len,
                idxs == card_indices@,
                forall|j: int| 0 <= j < len ==> #[trigger] idxs[j] < DECK_SIZE,
                tokens@ == toks.subrange(k as int, len as int),
                *self == (GameState {
                    reveal_tokens_with_proofs: self.reveal_tokens_with_proofs,
                    ..*old(self)
                }),
                forall|c: int, q: int|
                    0 <= c < DECK_SIZE && 0 <= q < self.num_players() && q != player
                        ==> #[trigger] self.token_at(c, q) == old(self).token_at(c, q),
                forall|c: int|
                    0 <= c < DECK_SIZE ==> #[trigger] self.token_at(c, player as int) == (
                    if last_pos(idxs.take(k as int), c as usize) >= 0 {
                        Some(toks[last_pos(idxs.take(k as int), c as usize)])
                    } else {
                        old(self).token_at(c, player as int)
                    }),
            decreases len - k,
        {
            let idx = card_indices[k];
            let t = tokens.remove(0);
            proof {
                assert(t == toks[k as int]);
            }
            self.set_reveal_token(idx, player, t);
            proof {
                assert(idxs.take(k as int + 1).drop_last() =~= idxs.take(k as int));
                assert(idxs.take(k as int + 1).last() == idxs[k as int]);
                assert forall|c: int| 0 <= c < DECK_SIZE implies #[trigger] self.token_at(
                    c,
                    player as int,
                ) == (if last_pos(idxs.take(k as int + 1), c as usize) >= 0 {
                    Some(toks[last_pos(idxs.take(k as int + 1), c as usize)])
                } else {
                    old(self).token_at(c, player as int)
                }) by {
                    if c == idxs[k as int] as int {
                        assert(last_pos(idxs.take(k as int + 1), c as usize) == k as int);
                    } else {
                        assert(last_pos(idxs.take(k as int + 1), c as usize) == last_pos(
                            idxs.take(k as int),
                            c as usize,
                        ));
                    }
                }
            }
            k = k + 1;
        }
        proof {
            assert(idxs.take(len as int) =~= idxs);
        }
    }

    /// Effect of a successful `deal`: tokens stored, the seat's flag set,
    /// and once every seat has dealt, the blind phase opens with the turn
    /// one past the dealer.
    pub open spec fn deal_post(
        pre: GameState,
        post: GameState,
        player: int,
        idxs: Seq<usize>,
        toks: Seq<RevealTokenBuf>,
    ) -> bool {
        let flags = pre.revealed_players@.update(player, true);
        &&& tokens_stored(pre, post, player, idxs, toks)
        &&& if all_true(flags) {
            &&& post.phase == Phase::BLIND
            &&& post.turn == wrap1(pre.dealer as int, pre.num_players())
            &&& post.revealed_players@ == Seq::<bool>::new(pre.num_players() as nat, |i: int| false)
        } else {
            &&& post.phase == pre.phase
            &&& post.turn == pre.turn
            &&& post.revealed_players@ == flags
        }
        &&& post.id == pre.id
        &&& post.player_account_ids@ == pre.player_account_ids@
        &&& post.dealer == pre.dealer
        &&& post.bets@ == pre.bets@
        &&& post.ante == pre.ante
        &&& post.checks@ == pre.checks@
        &&& post.balances@ == pre.balances@
        &&& post.pp == pre.pp
        &&& post.player_game_pubkeys@ == pre.player_game_pubkeys@
        &&& post.aggregate_pubkey == pre.aggregate_pubkey
        &&& post.deck@ == pre.deck@
    }

    /// Deal-phase token collection: the seat supplies reveal tokens for the
    /// listed cards (every hole card but its own two), any seat order, once
    /// per seat.  `proofs_ok` is the crypto collaborator's verdict on the
    /// supplied token proofs.
    pub fn apply_deal(
        &mut self,
        player: usize,
        card_indices: &Vec<usize>,
        tokens: Vec<RevealTokenBuf>,
        proofs_ok: bool,
    ) -> (r: Result<(), GameError>)
        requires
            old(self).wf(),
            old(self).phase == Phase::DEAL,
            player < old(self).num_players(),
        ensures
            final(self).wf(),
            phase_ok(old(self).phase, final(self).phase),
            final(self).balances@ == old(self).balances@,
            old(self).revealed_players@[player as int] ==> r == Err::<(), GameError>(
                GameError::DuplicateError,
            ) && *final(self) == *old(self),
            !old(self).revealed_players@[player as int] && card_indices@.len() != tokens@.len()
                ==> r == Err::<(), GameError>(GameError::ValidationError) && *final(self) == *old(
                self,
            ),
            !old(self).revealed_players@[player as int] && card_indices@.len() == tokens@.len()
                && !(forall|k: int|
                0 <= k < card_indices@.len() ==> #[trigger] card_indices@[k] < DECK_SIZE) ==> r
                == Err::<(), GameError>(GameError::ValidationError) && *final(self) == *old(self),
            !old(self).revealed_players@[player as int] && card_indices@.len() == tokens@.len() && (
            forall|k: int| 0 <= k < card_indices@.len() ==> #[trigger] card_indices@[k] < DECK_SIZE)
                && !proofs_ok ==> r == Err::<(), GameError>(GameError::CryptoVerificationError)
                && *final(self) == *old(self),
            !old(self).revealed_players@[player as int] && card_indices@.len() == tokens@.len() && (
            forall|k: int| 0 <= k < card_indices@.len() ==> #[trigger] card_indices@[k] < DECK_SIZE)
                && proofs_ok ==> r is Ok && GameState::deal_post(
                *old(self),
                *final(self),
                player as int,
                card_indices@,
                tokens@,
            ),
    {
        if self.revealed_players[player] {
            return Err(GameError::DuplicateError);
        }
        if card_indices.len() != tokens.len() {
            return Err(GameError::ValidationError);
        }
        if !indices_in_range(card_indices) {
            return Err(GameError::ValidationError);
        }
        if !proofs_ok {
            return Err(GameError::CryptoVerificationError);
        }
        self.store_tokens(player, card_indices, tokens);
        let ghost mid = *self;
        self.set_revealed_player(player);
        if self.all_players_revealed() {
            self.phase = Phase::BLIND;
            let n = self.num_players_exec();
            self.turn = crate::types::wrap_next(self.dealer, n);
            self.reset_revealed_players();
        }
        proof {
            lemma_tokens_stored_carry(
                *old(self),
                mid,
                *self,
                player as int,
                card_indices@,
                tokens@,
            );
        }
        Ok(())
    }

    /// Effect of a successful `reveal`: tokens stored, the seat's flag set;
    /// once every seat has revealed, the phase advances — to the next
    /// betting sub-round with the turn back at the dealer (skipping it when
    /// folded), or to SHOWDOWN after the showdown reveal.
    pub open spec fn reveal_post(
        pre: GameState,
        post: GameState,
        player: int,
        idxs: Seq<usize>,
        toks: Seq<RevealTokenBuf>,
    ) -> bool {
        let flags = pre.revealed_players@.update(player, true);
        let nph = reveal_next_phase(pre.phase);
        &&& tokens_stored(pre, post, player, idxs, toks)
        &&& if all_true(flags) {
            &&& post.phase == nph
            &&& if nph == Phase::SHOWDOWN {
                post.revealed_players@ == flags && post.turn == pre.turn
            } else {
                &&& post.revealed_players@ == Seq::new(pre.num_players() as nat, |i: int| false)
                &&& if !(pre.bets@[pre.dealer as int] is Folded) {
                    post.turn == pre.dealer
                } else {
                    match next_in(pre.bets@, pre.dealer as int) {
                        Some(t) => post.turn == t,
                        None => false,
                    }
                }
            }
        } else {
            &&& post.phase == pre.phase
            &&& post.turn == pre.turn
            &&& post.revealed_players@ == flags
        }
        &&& post.id == pre.id
        &&& post.player_account_ids@ == pre.player_account_ids@
        &&& post.dealer == pre.dealer
        &&& post.bets@ == pre.bets@
        &&& post.ante == pre.ante
        &&& post.checks@ == pre.checks@
        &&& post.balances@ == pre.balances@
        &&& post.pp == pre.pp
        &&& post.player_game_pubkeys@ == pre.player_game_pubkeys@
        &&& post.aggregate_pubkey == pre.aggregate_pubkey
        &&& post.deck@ == pre.deck@
    }

    /// The deadlocked corner: the step completes, the next phase needs a
    /// turn seat, and no non-folded seat exists.  Unreachable in a game that
    /// reached a reveal phase, but it must fail safely, not crash.
    pub open spec fn reveal_deadlock(pre: GameState, player: int) -> bool {
        let flags = pre.revealed_players@.update(player, true);
        &&& all_true(flags)
        &&& reveal_next_phase(pre.phase) != Phase::SHOWDOWN
        &&& pre.bets@[pre.dealer as int] is Folded
        &&& next_in(pre.bets@, pre.dealer as int) is None
    }

    /// Reveal-phase token collection: the seat supplies exactly the number
    /// of tokens its phase owes (3 flop / 1 turn / 1 river / its 2 hole
    /// cards), any seat order, once per seat per step.  `proofs_ok` is the
    /// crypto collaborator's verdict on the supplied token proofs.
    pub fn apply_reveal(
        &mut self,
        player: usize,
        card_indices: &Vec<usize>,
        tokens: Vec<RevealTokenBuf>,
        proofs_ok: bool,
    ) -> (r: Result<(), GameError>)
        requires
            old(self).wf(),
            is_reveal_phase(old(self).phase),
            player < old(self).num_players(),
        ensures
            final(self).wf(),
            phase_ok(old(self).phase, final(self).phase),
            final(self).balances@ == old(self).balances@,
            old(self).revealed_players@[player as int] ==> r == Err::<(), GameError>(
                GameError::DuplicateError,
            ) && *final(self) == *old(self),
            !old(self).revealed_players@[player as int] && !(card_indices@.len()
                == required_reveal_count(old(self).phase) && tokens@.len()
                == required_reveal_count(old(self).phase)) ==> r == Err::<(), GameError>(
                GameError::ValidationError,
            ) && *final(self) == *old(self),
            !old(self).revealed_players@[player as int] && card_indices@.len()
                == required_reveal_count(old(self).phase) && tokens@.len()
                == required_reveal_count(old(self).phase) && !(forall|k: int|
                0 <= k < card_indices@.len() ==> #[trigger] card_indices@[k] < DECK_SIZE) ==> r
                == Err::<(), GameError>(GameError::ValidationError) && *final(self) == *old(self),
            !old(self).revealed_players@[player as int] && card_indices@.len()
                == required_reveal_count(old(self).phase) && tokens@.len()
                == required_reveal_count(old(self).phase) && (forall|k: int|
                0 <= k < card_indices@.len() ==> #[trigger] card_indices@[k] < DECK_SIZE)
                && !proofs_ok ==> r == Err::<(), GameError>(GameError::CryptoVerificationError)
                && *final(self) == *old(self),
            !old(self).revealed_players@[player as int] && card_indices@.len()
                == required_reveal_count(old(self).phase) && tokens@.len()
                == required_reveal_count(old(self).phase) && (forall|k: int|
                0 <= k < card_indices@.len() ==> #[trigger] card_indices@[k] < DECK_SIZE)
                && proofs_ok && GameState::reveal_deadlock(*old(self), player as int) ==> r
                == Err::<(), GameError>(GameError::StateError) && *final(self) == *old(self),
            !old(self).revealed_players@[player as int] && card_indices@.len()
                == required_reveal_count(old(self).phase) && tokens@.len()
                == required_reveal_count(old(self).phase) && (forall|k: int|
                0 <= k < card_indices@.len() ==> #[trigger] card_indices@[k] < DECK_SIZE)
                && proofs_ok && !GameState::reveal_deadlock(*old(self), player as int) ==> r is Ok
                && GameState::reveal_post(
                *old(self),
                *final(self),
                player as int,
                card_indices@,
                tokens@,
            ),
    {
        if self.revealed_players[player] {
            return Err(GameError::DuplicateError);
        }
        let num_cards: usize = match self.phase {
            Phase::FLOP => 3,
            Phase::TURN => 1,
            Phase::RIVER => 1,
            _ => 2,
        };
        if !(card_indices.len() == num_cards && tokens.len() == num_cards) {
            return Err(GameError::ValidationError);
        }
        if !indices_in_range(card_indices) {
            return Err(GameError::ValidationError);
        }
        if !proofs_ok {
            return Err(GameError::CryptoVerificationError);
        }
        // decide the turn seat for a completed non-showdown step before
        // mutating anything, so a deadlocked table fails cleanly
        let will_complete = self.all_but_revealed(player);
        let next_phase: Phase = match self.phase {
            Phase::FLOP => Phase::BET1,
            Phase::TURN => Phase::BET2,
            Phase::RIVER => Phase::BET3,
            _ => Phase::SHOWDOWN,
        };
        let mut turn_target: usize = self.turn;
        if will_complete {
            match next_phase {
                Phase::SHOWDOWN => {},
                _ => {
                    if !self.player_is_folded(self.dealer) {
                        turn_target = self.dealer;
                    } else {
                        let saved_turn = self.turn;
                        self.turn = self.dealer;
                        let nxt = self.next_in_player();
                        self.turn = saved_turn;
                        match nxt {
                            Some(t) => {
                                turn_target = t;
                            },
                            None => {
                                return Err(GameError::StateError);
                            },
                        }
                    }
                },
            }
        }
        self.store_tokens(player, card_indices, tokens);
        let ghost mid = *self;
        self.set_revealed_player(player);
        if will_complete {
            self.phase = next_phase;
            match next_phase {
                Phase::SHOWDOWN => {},
                _ => {
                    self.turn = turn_target;
                    self.reset_revealed_players();
                },
            }
        }
        proof {
            lemma_tokens_stored_carry(
                *old(self),
                mid,
                *self,
                player as int,
                card_indices@,
                tokens@,
            );
        }
        Ok(())
    }

    /// Would setting this seat's flag complete the step?
    fn all_but_revealed(&self, player: usize) -> (r: bool)
        requires
            player < self.revealed_players@.len(),
        ensures
            r == all_true(self.revealed_players@.update(player as int, true)),
    {
        let n = self.revealed_players.len();
        let mut i: usize = 0;
        while i < n
            invariant
                n == self.revealed_players@.len(),
                player < n,
                0 <= i <= n,
                forall|j: int|
                    0 <= j < i ==> #[trigger] self.revealed_players@.update(
                        player as int,
                        true,
                    )[j],
            decreases n - i,
        {
            if i != player && !self.revealed_players[i] {
                proof {
                    assert(!self.revealed_players@.update(player as int, true)[i as int]);
                }
                return false;
            }
            i = i + 1;
        }
        true
    }
}


/// Are all listed card indices inside the deck?
pub fn indices_in_range(card_indices: &Vec<usize>) -> (r: bool)
    ensures
        r == (forall|k: int| 0 <= k < card_indices@.len() ==> #[trigger] card_indices@[k]
            < DECK_SIZE),
{
    let len = card_indices.len();
    let mut k: usize = 0;
    while k < len
        invariant
            len == card_indices@.len(),
            0 <= k <= len,
            forall|j: int| 0 <= j < k ==> #[trigger] card_indices@[j] < DECK_SIZE,
        decreases len - k,
    {
        if card_indices[k] >= DECK_SIZE {
            return false;
        }
        k = k + 1;
    }
    true
}

/// Stored tokens survive later mutations that leave the matrix alone.
pub proof fn lemma_tokens_stored_carry(
    pre: GameState,
    mid: GameState,
    post: GameState,
    player: int,
    idxs: Seq<usize>,
    toks: Seq<RevealTokenBuf>,
)
    requires
        tokens_stored(pre, mid, player, idxs, toks),
        post.reveal_tokens_with_proofs@ == mid.reveal_tokens_with_proofs@,
        post.player_account_ids@ == pre.player_account_ids@,
        mid.player_account_ids@ == pre.player_account_ids@,
    ensures
        tokens_stored(pre, post, player, idxs, toks),
{
    assert forall|c: int, q: int|
        0 <= c < DECK_SIZE && 0 <= q < pre.num_players() && q != player implies #[trigger] post.token_at(
        c,
        q,
    ) == pre.token_at(c, q) by {
        assert(mid.token_at(c, q) == pre.token_at(c, q));
        assert(post.token_at(c, q) == mid.token_at(c, q));
    }
    assert forall|c: int| 0 <= c < DECK_SIZE implies #[trigger] post.token_at(c, player) == (
    if last_pos(idxs, c as usize) >= 0 {
        Some(toks[last_pos(idxs, c as usize)])
    } else {
        pre.token_at(c, player)
    }) by {
        assert(mid.token_at(c, player) == (if last_pos(idxs, c as usize) >= 0 {
            Some(toks[last_pos(idxs, c as usize)])
        } else {
            pre.token_at(c, player)
        }));
        assert(post.token_at(c, player) == mid.token_at(c, player));
    }
}

} // verus!
