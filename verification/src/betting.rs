use vstd::prelude::*;
use crate::types::{
    Balance, BetAmount, GameError, Phase, seat_plus, wrap1, BIG_BLIND_AMOUNT,
    LITTLE_BLIND_AMOUNT,
};
use crate::chips::{lemma_sum_pair, lemma_sum_update, stake_of, sum_balances};
use crate::state::{count_in, count_in_upto, count_true, count_true_upto, GameState};

verus! {

/// The turn seat may check when its bet already matches the ante, or it is
/// all-in.
pub open spec fn can_check(s: GameState) -> bool {
    match s.bets@[s.turn as int] {
        BetAmount::In(a) => a == s.ante,
        BetAmount::AllIn => true,
        BetAmount::Folded(_) => false,
    }
}

/// The turn seat may call when it is in and can cover the ante.
pub open spec fn can_call(s: GameState) -> bool {
    match s.bets@[s.turn as int] {
        BetAmount::In(_) => s.balances@[s.turn as int] >= s.ante,
        BetAmount::AllIn => false,
        BetAmount::Folded(_) => false,
    }
}

/// The turn seat may go all-in unless it already is, or has folded.
pub open spec fn can_all_in(s: GameState) -> bool {
    match s.bets@[s.turn as int] {
        BetAmount::AllIn => false,
        BetAmount::In(_) => true,
        BetAmount::Folded(_) => false,
    }
}

/// The turn seat may fold unless it already has.
pub open spec fn can_fold(s: GameState) -> bool {
    !(s.bets@[s.turn as int] is Folded)
}

/// The turn seat may raise when it is in and holds more than the ante.
pub open spec fn can_raise(s: GameState) -> bool {
    match s.bets@[s.turn as int] {
        BetAmount::AllIn => false,
        BetAmount::In(_) => s.balances@[s.turn as int] > s.ante,
        BetAmount::Folded(_) => false,
    }
}

/// First non-folded seat strictly after `cur` in cyclic seat order, probing
/// at most `fuel` seats.
pub open spec fn next_in_rec(bets: Seq<BetAmount>, cur: int, fuel: nat) -> Option<int>
    decreases fuel,
{
    if fuel == 0 {
        None
    } else {
        let i = wrap1(cur, bets.len() as int);
        if !(bets[i] is Folded) {
            Some(i)
        } else {
            next_in_rec(bets, i, (fuel - 1) as nat)
        }
    }
}

/// First non-folded seat strictly after `cur`, wrapping, probing every seat
/// once; `None` when every seat has folded.
pub open spec fn next_in(bets: Seq<BetAmount>, cur: int) -> Option<int> {
    next_in_rec(bets, cur, bets.len())
}

/// Whatever `next_in` returns is a real, non-folded seat.
pub proof fn lemma_next_in_rec_range(bets: Seq<BetAmount>, cur: int, fuel: nat)
    requires
        bets.len() >= 1,
        0 <= cur < bets.len(),
    ensures
        match next_in_rec(bets, cur, fuel) {
            Some(i) => 0 <= i < bets.len() && !(bets[i] is Folded),
            None => true,
        },
    decreases fuel,
{
    if fuel > 0 {
        let i = wrap1(cur, bets.len() as int);
        if bets[i] is Folded {
            lemma_next_in_rec_range(bets, i, (fuel - 1) as nat);
        }
    }
}

/// Cyclic distance: how many single steps take `cur` to `target`.
pub open spec fn cyc_dist(cur: int, target: int, n: int) -> int {
    if target > cur {
        target - cur
    } else {
        target - cur + n
    }
}

pub proof fn lemma_next_in_rec_finds(bets: Seq<BetAmount>, cur: int, fuel: nat, target: int)
    requires
        bets.len() >= 1,
        0 <= cur < bets.len(),
        0 <= target < bets.len(),
        !(bets[target] is Folded),
        cyc_dist(cur, target, bets.len() as int) <= fuel,
    ensures
        next_in_rec(bets, cur, fuel) is Some,
    decreases fuel,
{
    let n = bets.len() as int;
    let i = wrap1(cur, n);
    if bets[i] is Folded {
        assert(i != target);
        assert(cyc_dist(i, target, n) == cyc_dist(cur, target, n) - 1);
        lemma_next_in_rec_finds(bets, i, (fuel - 1) as nat, target);
    }
}

/// While any seat is still in, there is always a next seat to act.
pub proof fn lemma_next_in_exists(bets: Seq<BetAmount>, cur: int)
    requires
        bets.len() >= 1,
        0 <= cur < bets.len(),
        exists|t: int| 0 <= t < bets.len() && !(#[trigger] bets[t] is Folded),
    ensures
        next_in(bets, cur) is Some,
{
    let t = choose|t: int| 0 <= t < bets.len() && !(#[trigger] bets[t] is Folded);
    assert(cyc_dist(cur, t, bets.len() as int) <= bets.len());
    lemma_next_in_rec_finds(bets, cur, bets.len(), t);
}

/// A positive count of seats still in yields a witness seat.
pub proof fn lemma_count_in_witness(bets: Seq<BetAmount>, k: int)
    requires
        0 < k <= bets.len(),
        count_in_upto(bets, k) > 0,
    ensures
        exists|t: int| 0 <= t < k && !(#[trigger] bets[t] is Folded),
    decreases k,
{
    if bets[k - 1] is Folded {
        assert(count_in_upto(bets, k) == count_in_upto(bets, k - 1));
        assert(count_in_upto(bets, 0) == 0);
        lemma_count_in_witness(bets, k - 1);
    }
}

/// Chips the winner collects: every other seat's stake.
pub open spec fn pot_upto(
    bets: Seq<BetAmount>,
    bals: Seq<Balance>,
    winner: int,
    k: int,
) -> int
    decreases k,
{
    if k <= 0 {
        0
    } else {
        pot_upto(bets, bals, winner, k - 1) + if k - 1 == winner {
            0int
        } else {
            stake_of(bets[k - 1], bals[k - 1])
        }
    }
}

pub open spec fn pot_total(bets: Seq<BetAmount>, bals: Seq<Balance>, winner: int) -> int {
    pot_upto(bets, bals, winner, bets.len() as int)
}

/// Balances after the pot moves to `winner`: every other seat loses exactly
/// its stake, the winner gains their total.
pub open spec fn settled_balances(
    bets: Seq<BetAmount>,
    bals: Seq<Balance>,
    winner: int,
) -> Seq<Balance> {
    Seq::new(
        bals.len(),
        |i: int|
            if i == winner {
                (bals[winner] + pot_total(bets, bals, winner)) as Balance
            } else {
                (bals[i] - stake_of(bets[i], bals[i])) as Balance
            },
    )
}

impl GameState {
    pub fn player_can_check(&self) -> (r: bool)
        requires
            self.shape_ok(),
        ensures
            r == can_check(*self),
    {
        let player_idx = self.turn;
        match self.bets[player_idx] {
            BetAmount::In(amt) => amt == self.ante,
            BetAmount::AllIn => true,
            BetAmount::Folded(_) => false,
        }
    }

    pub fn player_can_call(&self) -> (r: bool)
        requires
            self.shape_ok(),
        ensures
            r == can_call(*self),
    {
        let player_idx = self.turn;
        match self.bets[player_idx] {
            BetAmount::In(_) => self.balances[player_idx] >= self.ante,
            BetAmount::AllIn => false,
            BetAmount::Folded(_) => false,
        }
    }

    pub fn player_can_all_in(&self) -> (r: bool)
        requires
            self.shape_ok(),
        ensures
            r == can_all_in(*self),
    {
        let player_idx = self.turn;
        match self.bets[player_idx] {
            BetAmount::AllIn => false,
            BetAmount::In(_) => true,
            BetAmount::Folded(_) => false,
        }
    }

    pub fn player_can_fold(&self) -> (r: bool)
        requires
            self.shape_ok(),
        ensures
            r == can_fold(*self),
    {
        let player_idx = self.turn;
        match self.bets[player_idx] {
            BetAmount::AllIn => true,
            BetAmount::In(_) => true,
            BetAmount::Folded(_) => false,
        }
    }

    pub fn player_can_raise(&self) -> (r: bool)
        requires
            self.shape_ok(),
        ensures
            r == can_raise(*self),
    {
        let player_idx = self.turn;
        match self.bets[player_idx] {
            BetAmount::AllIn => false,
            BetAmount::In(_) => self.balances[player_idx] > self.ante,
            BetAmount::Folded(_) => false,
        }
    }

    /// The next seat to act: the first non-folded seat strictly after the
    /// turn, wrapping, or `None` when every seat has folded.
    pub fn next_in_player(&self) -> (r: Option<usize>)
        requires
            self.shape_ok(),
        ensures
            match r {
                Some(i) => next_in(self.bets@, self.turn as int) == Some(i as int) && i
                    < self.num_players() && !(self.bets@[i as int] is Folded),
                None => next_in(self.bets@, self.turn as int) is None,
            },
    {
        let n = self.num_players_exec();
        let mut count: usize = 0;
        let mut i: usize = crate::types::wrap_next(self.turn, n);
        loop
            invariant
                self.shape_ok(),
                n == self.num_players(),
                count < n,
                i < n,
                0 <= prev_probe(self.bets@, self.turn as int, count as nat) < n,
                i == wrap1(prev_probe(self.bets@, self.turn as int, count as nat), n as int),
                next_in(self.bets@, self.turn as int) == next_in_rec(
                    self.bets@,
                    prev_probe(self.bets@, self.turn as int, count as nat),
                    (n - count) as nat,
                ),
            decreases n - count,
        {
            if !self.player_is_folded(i) {
                proof {
                    assert(next_in_rec(
                        self.bets@,
                        prev_probe(self.bets@, self.turn as int, count as nat),
                        (n - count) as nat,
                    ) == Some(i as int));
                }
                return Some(i);
            }
            count = count + 1;
            proof {
                assert(prev_probe(self.bets@, self.turn as int, count as nat) == i);
            }
            if count == n {
                return None;
            }
            i = crate::types::wrap_next(i, n);
        }
    }

    /// Move every other seat's stake to the winner.  The total over all
    /// balances is conserved; afterwards the bets still record the stakes
    /// already collected, so the caller must reset them before the state is
    /// well-formed again.
    ///
    /// This is a single conservative redistribution, not a side-pot
    /// algorithm: all-in stakes are paid in full to the one designated
    /// winner, a known simplification appropriate only to
    /// heads-up-to-showdown resolution.
    pub fn transfer_pot(&mut self, winner: usize)
        requires
            old(self).wf(),
            winner < old(self).num_players(),
        ensures
            *final(self) == (GameState { balances: final(self).balances, ..*old(self) }),
            final(self).balances@ =~= settled_balances(
                old(self).bets@,
                old(self).balances@,
                winner as int,
            ),
            sum_balances(final(self).balances@) == sum_balances(old(self).balances@),
    {
        let n = self.balances.len();
        let mut i: usize = 0;
        while i < n
            invariant
                old(self).wf(),
                winner < n,
                n == old(self).num_players(),
                *self == (GameState { balances: self.balances, ..*old(self) }),
                self.balances@.len() == n,
                0 <= i <= n,
                forall|k: int| i <= k < n && k != winner ==> self.balances@[k] == old(
                    self,
                ).balances@[k],
                forall|k: int|
                    0 <= k < i && k != winner ==> self.balances@[k] == old(self).balances@[k]
                        - stake_of(old(self).bets@[k], old(self).balances@[k]),
                self.balances@[winner as int] == old(self).balances@[winner as int] + pot_upto(
                    old(self).bets@,
                    old(self).balances@,
                    winner as int,
                    i as int,
                ),
                sum_balances(self.balances@) == sum_balances(old(self).balances@),
            decreases n - i,
        {
            if i != winner {
                let amt: Balance = match self.bets[i] {
                    BetAmount::In(a) => a,
                    BetAmount::AllIn => self.balances[i],
                    BetAmount::Folded(a) => a,
                };
                proof {
                    assert(amt == stake_of(old(self).bets@[i as int], old(self).balances@[i as int]));
                    lemma_sum_pair(self.balances@, winner as int, i as int);
                }
                let bw = self.balances[winner];
                let ghost pre = self.balances@;
                self.balances.set(winner, bw + amt);
                proof {
                    lemma_sum_update(pre, winner as int, (bw + amt) as Balance);
                }
                let bl = self.balances[i];
                let ghost mid = self.balances@;
                self.balances.set(i, bl - amt);
                proof {
                    lemma_sum_update(mid, i as int, (bl - amt) as Balance);
                }
            }
            i = i + 1;
        }
        assert(self.balances@ =~= settled_balances(
            old(self).bets@,
            old(self).balances@,
            winner as int,
        ));
    }
}

/// The probe sequence of `next_in_rec`: the seat examined at step `k`.
pub open spec fn prev_probe(bets: Seq<BetAmount>, start: int, k: nat) -> int
    decreases k,
{
    if k == 0 {
        start
    } else {
        wrap1(prev_probe(bets, start, (k - 1) as nat), bets.len() as int)
    }
}

} // verus!

verus! {

/// A single wagering action; exactly one must be requested per call.
#[derive(Clone, Copy, PartialEq, Eq, Structural, Debug)]
pub enum BetAction {
    Call,
    Check,
    AllIn,
    Fold,
    Raise(Balance),
}

/// Decode the one requested action from the call's flags; `None` when the
/// combination is ambiguous or empty.
pub open spec fn parse_action(
    call: bool,
    check: bool,
    all_in: bool,
    fold: bool,
    raise: Option<Balance>,
) -> Option<BetAction> {
    if call && !check && !all_in && !fold && raise is None {
        Some(BetAction::Call)
    } else if !call && check && !all_in && !fold && raise is None {
        Some(BetAction::Check)
    } else if !call && !check && all_in && !fold && raise is None {
        Some(BetAction::AllIn)
    } else if !call && !check && !all_in && fold && raise is None {
        Some(BetAction::Fold)
    } else if !call && !check && !all_in && !fold && raise is Some {
        Some(BetAction::Raise(raise->0))
    } else {
        None
    }
}

/// May the turn seat take this action in its current bet state?
pub open spec fn action_allowed(s: GameState, a: BetAction) -> bool {
    match a {
        BetAction::Call => can_call(s),
        BetAction::Check => can_check(s),
        BetAction::AllIn => can_all_in(s),
        BetAction::Fold => can_fold(s),
        BetAction::Raise(amt) => can_raise(s) && amt > s.ante && amt
            <= s.balances@[s.turn as int],
    }
}

/// The error a disallowed action draws: a raise of an unacceptable amount is
/// a validation failure, every other refusal reflects the seat's bet state.
pub open spec fn action_error(s: GameState, a: BetAction) -> GameError {
    match a {
        BetAction::Raise(amt) => if !can_raise(s) {
            GameError::StateError
        } else {
            GameError::ValidationError
        },
        _ => GameError::StateError,
    }
}

/// Bets after the turn seat's action is applied.
pub open spec fn bets_after(s: GameState, a: BetAction) -> Seq<BetAmount> {
    let p = s.turn as int;
    match a {
        BetAction::Call => s.bets@.update(p, BetAmount::In(s.ante)),
        BetAction::Check => s.bets@,
        BetAction::AllIn => s.bets@.update(p, BetAmount::AllIn),
        BetAction::Fold => s.bets@.update(
            p,
            BetAmount::Folded(stake_of(s.bets@[p], s.balances@[p]) as Balance),
        ),
        BetAction::Raise(amt) => s.bets@.update(p, BetAmount::In(amt)),
    }
}

/// Ante after the action: a raise sets it, an all-in lifts it to the seat's
/// balance when that exceeds it.
pub open spec fn ante_after(s: GameState, a: BetAction) -> Balance {
    match a {
        BetAction::AllIn => if s.balances@[s.turn as int] > s.ante {
            s.balances@[s.turn as int]
        } else {
            s.ante
        },
        BetAction::Raise(amt) => amt,
        _ => s.ante,
    }
}

/// Check flags after the action but before the sub-round bookkeeping: a
/// check records itself, a fold clears itself, everything else resets the
/// whole sub-round.
pub open spec fn checks_after(s: GameState, a: BetAction) -> Seq<bool> {
    let p = s.turn as int;
    match a {
        BetAction::Check => s.checks@.update(p, true),
        BetAction::Fold => s.checks@.update(p, false),
        _ => Seq::new(s.checks@.len(), |i: int| false),
    }
}

/// The phase a finished betting sub-round advances to.
pub open spec fn next_bet_phase(p: Phase) -> Phase {
    match p {
        Phase::BET0 => Phase::FLOP,
        Phase::BET1 => Phase::TURN,
        Phase::BET2 => Phase::RIVER,
        Phase::BET3 => Phase::SHOWDOWN_REVEAL,
        _ => p,
    }
}

pub open spec fn is_bet_phase(p: Phase) -> bool {
    p == Phase::BET0 || p == Phase::BET1 || p == Phase::BET2 || p == Phase::BET3
}

/// Full effect of one legal bet action.  After the action: if one seat
/// remains it immediately wins the pot and the round resets to SHUFFLE; if
/// every seat still in has checked, the sub-round ends and the phase
/// advances; otherwise the turn moves to the next non-folded seat.
pub open spec fn bet_post(pre: GameState, post: GameState, a: BetAction) -> bool {
    let n = pre.num_players();
    let mbets = bets_after(pre, a);
    let mante = ante_after(pre, a);
    let mchecks = checks_after(pre, a);
    &&& post.id == pre.id
    &&& post.player_account_ids@ == pre.player_account_ids@
    &&& post.dealer == pre.dealer
    &&& post.pp == pre.pp
    &&& post.player_game_pubkeys@ == pre.player_game_pubkeys@
    &&& post.aggregate_pubkey == pre.aggregate_pubkey
    &&& post.deck@ == pre.deck@
    &&& post.reveal_tokens_with_proofs@ == pre.reveal_tokens_with_proofs@
    &&& post.ante == mante
    &&& if count_in(mbets) == 1 {
        match next_in(mbets, pre.turn as int) {
            Some(w) => {
                &&& post.balances@ == settled_balances(mbets, pre.balances@, w)
                &&& post.phase == Phase::SHUFFLE
                &&& post.bets@ == Seq::new(n as nat, |i: int| BetAmount::In(0))
                &&& post.checks@ == Seq::new(n as nat, |i: int| false)
                &&& post.revealed_players@ == Seq::new(n as nat, |i: int| false)
                &&& post.turn == pre.turn
            },
            None => false,
        }
    } else if count_in(mbets) == count_true(mchecks) {
        &&& post.balances@ == pre.balances@
        &&& post.phase == next_bet_phase(pre.phase)
        &&& post.bets@ == mbets
        &&& post.checks@ == Seq::new(n as nat, |i: int| false)
        &&& post.revealed_players@ == pre.revealed_players@
        &&& post.turn == pre.turn
    } else {
        match next_in(mbets, pre.turn as int) {
            Some(t) => {
                &&& post.balances@ == pre.balances@
                &&& post.phase == pre.phase
                &&& post.bets@ == mbets
                &&& post.checks@ == mchecks
                &&& post.revealed_players@ == pre.revealed_players@
                &&& post.turn == t
            },
            None => false,
        }
    }
}


/// Full effect of posting a blind: the turn seat stakes the little blind
/// (one past the dealer) or the big blind, going all-in when it cannot
/// cover it; the ante becomes the amount staked; the turn advances; when it
/// reaches three seats past the dealer, betting opens.
pub open spec fn blind_post(pre: GameState, post: GameState) -> bool {
    let n = pre.num_players();
    let p = pre.turn as int;
    let amt: Balance = if wrap1(pre.dealer as int, n) == p {
        LITTLE_BLIND_AMOUNT
    } else {
        BIG_BLIND_AMOUNT
    };
    let allin = pre.balances@[p] < amt;
    &&& post.bets@ == pre.bets@.update(
        p,
        if allin {
            BetAmount::AllIn
        } else {
            BetAmount::In(amt)
        },
    )
    &&& post.ante == if allin {
        pre.balances@[p]
    } else {
        amt
    }
    &&& post.turn == wrap1(p, n)
    &&& post.phase == (if wrap1(p, n) == seat_plus(pre.dealer as int, 3, n) {
        Phase::BET0
    } else {
        Phase::BLIND
    })
    &&& post.id == pre.id
    &&& post.player_account_ids@ == pre.player_account_ids@
    &&& post.dealer == pre.dealer
    &&& post.balances@ == pre.balances@
    &&& post.checks@ == pre.checks@
    &&& post.revealed_players@ == pre.revealed_players@
    &&& post.reveal_tokens_with_proofs@ == pre.reveal_tokens_with_proofs@
    &&& post.deck@ == pre.deck@
    &&& post.pp == pre.pp
    &&& post.player_game_pubkeys@ == pre.player_game_pubkeys@
    &&& post.aggregate_pubkey == pre.aggregate_pubkey
}

impl GameState {
    /// Executable phase advance for a finished betting sub-round.
    pub fn next_bet_phase_exec(&self) -> (r: Phase)
        ensures
            r == next_bet_phase(self.phase),
    {
        match self.phase {
            Phase::BET0 => Phase::FLOP,
            Phase::BET1 => Phase::TURN,
            Phase::BET2 => Phase::RIVER,
            Phase::BET3 => Phase::SHOWDOWN_REVEAL,
            _ => self.phase,
        }
    }

    /// Post a blind for the turn seat (called only in the BLIND phase, with
    /// the turn already validated).
    pub fn apply_blind(&mut self)
        requires
            old(self).wf(),
            old(self).phase == Phase::BLIND,
        ensures
            final(self).wf(),
            blind_post(*old(self), *final(self)),
            crate::state::phase_ok(old(self).phase, final(self).phase),
            sum_balances(final(self).balances@) == sum_balances(old(self).balances@),
    {
        let n = self.num_players_exec();
        let p = self.turn;
        let little = crate::types::wrap_next(self.dealer, n);
        let amt: Balance = if p == little {
            LITTLE_BLIND_AMOUNT
        } else {
            BIG_BLIND_AMOUNT
        };
        if self.balances[p] < amt {
            let b = self.balances[p];
            self.bets.set(p, BetAmount::AllIn);
            self.ante = b;
        } else {
            self.bets.set(p, BetAmount::In(amt));
            self.ante = amt;
        }
        self.turn = crate::types::wrap_next(p, n);
        let d1 = crate::types::wrap_next(self.dealer, n);
        let d2 = crate::types::wrap_next(d1, n);
        let d3 = crate::types::wrap_next(d2, n);
        proof {
            assert(seat_plus(self.dealer as int, 0, n as int) == self.dealer as int);
            assert(seat_plus(self.dealer as int, 1, n as int) == wrap1(
                seat_plus(self.dealer as int, 0, n as int),
                n as int,
            ));
            assert(seat_plus(self.dealer as int, 2, n as int) == wrap1(
                seat_plus(self.dealer as int, 1, n as int),
                n as int,
            ));
            assert(seat_plus(self.dealer as int, 3, n as int) == wrap1(
                seat_plus(self.dealer as int, 2, n as int),
                n as int,
            ));
        }
        if self.turn == d3 {
            self.phase = Phase::BET0;
        }
    }

    /// Apply one betting action for the turn seat (called only in a betting
    /// phase, with the turn already validated).  Exactly one action must be
    /// requested; the seat's own bet state decides whether it is legal; then
    /// the sub-round bookkeeping of `bet_post` runs.
    pub fn apply_bet(
        &mut self,
        call: bool,
        check: bool,
        all_in: bool,
        fold: bool,
        raise: Option<Balance>,
    ) -> (r: Result<(), GameError>)
        requires
            old(self).wf(),
            is_bet_phase(old(self).phase),
        ensures
            match parse_action(call, check, all_in, fold, raise) {
                None => r == Err::<(), GameError>(GameError::ValidationError) && *final(self)
                    == *old(self),
                Some(a) => if action_allowed(*old(self), a) {
                    &&& r is Ok
                    &&& bet_post(*old(self), *final(self), a)
                    &&& final(self).wf()
                    &&& sum_balances(final(self).balances@) == sum_balances(old(self).balances@)
                    &&& crate::state::phase_ok(old(self).phase, final(self).phase)
                } else {
                    r == Err::<(), GameError>(action_error(*old(self), a)) && *final(self)
                        == *old(self)
                },
            },
    {
        let action: BetAction;
        if call && !check && !all_in && !fold && raise.is_none() {
            action = BetAction::Call;
        } else if !call && check && !all_in && !fold && raise.is_none() {
            action = BetAction::Check;
        } else if !call && !check && all_in && !fold && raise.is_none() {
            action = BetAction::AllIn;
        } else if !call && !check && !all_in && fold && raise.is_none() {
            action = BetAction::Fold;
        } else if !call && !check && !all_in && !fold && raise.is_some() {
            action = match raise {
                Some(amt) => BetAction::Raise(amt),
                None => BetAction::Call,
            };
        } else {
            return Err(GameError::ValidationError);
        }
        proof {
            assert(parse_action(call, check, all_in, fold, raise) == Some(action));
        }
        let p = self.turn;
        match action {
            BetAction::Call => {
                if !self.player_can_call() {
                    return Err(GameError::StateError);
                }
            },
            BetAction::Check => {
                if !self.player_can_check() {
                    return Err(GameError::StateError);
                }
            },
            BetAction::AllIn => {
                if !self.player_can_all_in() {
                    return Err(GameError::StateError);
                }
            },
            BetAction::Fold => {
                if !self.player_can_fold() {
                    return Err(GameError::StateError);
                }
            },
            BetAction::Raise(amt) => {
                if !self.player_can_raise() {
                    return Err(GameError::StateError);
                }
                if !(amt > self.ante && amt <= self.balances[p]) {
                    return Err(GameError::ValidationError);
                }
            },
        }
        proof {
            assert(action_allowed(*self, action));
        }
        match action {
            BetAction::Call => {
                let ante = self.ante;
                self.bets.set(p, BetAmount::In(ante));
                self.reset_checks();
            },
            BetAction::Check => {
                self.set_player_checked(p);
            },
            BetAction::AllIn => {
                let b = self.balances[p];
                self.bets.set(p, BetAmount::AllIn);
                if b > self.ante {
                    self.ante = b;
                }
                self.reset_checks();
            },
            BetAction::Fold => {
                self.set_folded_player(p);
                self.unset_player_checked(p);
            },
            BetAction::Raise(amt) => {
                self.bets.set(p, BetAmount::In(amt));
                self.ante = amt;
                self.reset_checks();
            },
        }
        proof {
            assert(self.bets@ =~= bets_after(*old(self), action));
            assert(self.checks@ =~= checks_after(*old(self), action));
            assert(self.ante == ante_after(*old(self), action));
            assert(self.wf()) by {
                assert forall|i: int|
                    0 <= i < self.num_players() && #[trigger] self.checks@[i] implies !(
                self.bets@[i] is Folded) by {}
            }
        }
        let ni = self.num_players_in();
        if ni == 1 {
            proof {
                lemma_count_in_witness(self.bets@, self.num_players());
                lemma_next_in_exists(self.bets@, self.turn as int);
            }
            let w = self.next_in_player().unwrap();
            self.transfer_pot(w);
            self.phase = Phase::SHUFFLE;
            self.reset_bets();
            self.reset_checks();
            self.reset_revealed_players();
            proof {
                crate::chips::lemma_sum_nonneg(self.balances@);
            }
        } else if self.enough_players_checked() {
            let ph = self.next_bet_phase_exec();
            self.phase = ph;
            self.reset_checks();
        } else {
            proof {
                if count_in(self.bets@) == 0 {
                    lemma_count_in_zero(self.bets@, self.num_players());
                    lemma_count_true_zero(self.checks@, self.num_players());
                    assert(false);
                }
                lemma_count_in_witness(self.bets@, self.num_players());
                lemma_next_in_exists(self.bets@, self.turn as int);
            }
            let t = self.next_in_player().unwrap();
            self.turn = t;
        }
        Ok(())
    }
}

/// A zero count of seats still in means every seat has folded.
pub proof fn lemma_count_in_zero(bets: Seq<BetAmount>, k: int)
    requires
        0 <= k <= bets.len(),
        count_in_upto(bets, k) == 0,
    ensures
        forall|i: int| 0 <= i < k ==> (#[trigger] bets[i]) is Folded,
    decreases k,
{
    if k > 0 {
        lemma_count_in_pos_le(bets, k - 1);
        lemma_count_in_zero(bets, k - 1);
    }
}

/// Counts of seats still in never go negative.
pub proof fn lemma_count_in_pos_le(bets: Seq<BetAmount>, k: int)
    requires
        0 <= k <= bets.len(),
    ensures
        0 <= count_in_upto(bets, k) <= k,
    decreases k,
{
    if k > 0 {
        lemma_count_in_pos_le(bets, k - 1);
    }
}

/// With no seat folded-out of the check set, no check flags means a zero
/// count of checks.
pub proof fn lemma_count_true_zero(flags: Seq<bool>, k: int)
    requires
        0 <= k <= flags.len(),
        forall|i: int| 0 <= i < k ==> !(#[trigger] flags[i]),
    ensures
        count_true_upto(flags, k) == 0,
    decreases k,
{
    if k > 0 {
        lemma_count_true_zero(flags, k - 1);
    }
}


/// The result of a successful probe is the nearest non-folded seat: any
/// other non-folded seat lies at least as many steps ahead.
pub proof fn lemma_next_in_rec_first(bets: Seq<BetAmount>, cur: int, fuel: nat, y: int)
    requires
        bets.len() >= 1,
        0 <= cur < bets.len(),
        next_in_rec(bets, cur, fuel) == Some(y),
    ensures
        0 <= y < bets.len(),
        !(bets[y] is Folded),
        1 <= cyc_dist(cur, y, bets.len() as int) <= fuel,
        forall|t: int|
            0 <= t < bets.len() && !(#[trigger] bets[t] is Folded) ==> cyc_dist(
                cur,
                t,
                bets.len() as int,
            ) >= cyc_dist(cur, y, bets.len() as int),
    decreases fuel,
{
    let n = bets.len() as int;
    let i = wrap1(cur, n);
    if !(bets[i] is Folded) {
        assert(y == i);
        assert(cyc_dist(cur, y, n) == 1);
    } else {
        lemma_next_in_rec_first(bets, i, (fuel - 1) as nat, y);
        assert forall|t: int|
            0 <= t < n && !(#[trigger] bets[t] is Folded) implies cyc_dist(cur, t, n)
            >= cyc_dist(cur, y, n) by {
            assert(t != i);
            assert(cyc_dist(cur, t, n) == cyc_dist(i, t, n) + 1);
            assert(cyc_dist(cur, y, n) == cyc_dist(i, y, n) + 1);
        }
    }
}

/// Turn order skips no seat still in: every non-folded seat strictly nearer
/// than the next seat to act would have been chosen instead, so there is
/// none.
pub proof fn lemma_next_in_skips_no_active(bets: Seq<BetAmount>, cur: int, y: int)
    requires
        bets.len() >= 1,
        0 <= cur < bets.len(),
        next_in(bets, cur) == Some(y),
    ensures
        !(bets[y] is Folded),
        forall|t: int|
            0 <= t < bets.len() && !(#[trigger] bets[t] is Folded) && t != y ==> cyc_dist(
                cur,
                t,
                bets.len() as int,
            ) > cyc_dist(cur, y, bets.len() as int),
{
    lemma_next_in_rec_first(bets, cur, bets.len(), y);
    assert forall|t: int|
        0 <= t < bets.len() && !(#[trigger] bets[t] is Folded) && t != y implies cyc_dist(
        cur,
        t,
        bets.len() as int,
    ) > cyc_dist(cur, y, bets.len() as int) by {
        let n = bets.len() as int;
        assert(cyc_dist(cur, t, n) >= cyc_dist(cur, y, n));
        if cyc_dist(cur, t, n) == cyc_dist(cur, y, n) {
            assert(t == y);
        }
    }
}

/// Turn order is injective over the seats still in: two distinct non-folded
/// seats never share their next seat to act.  Together with the two lemmas
/// above this makes the successor a cyclic permutation of the non-folded
/// seats: repeated application visits every one exactly once per full
/// cycle.
pub proof fn lemma_next_in_injective(bets: Seq<BetAmount>, x1: int, x2: int)
    requires
        bets.len() >= 1,
        0 <= x1 < bets.len(),
        0 <= x2 < bets.len(),
        x1 != x2,
        !(bets[x1] is Folded),
        !(bets[x2] is Folded),
    ensures
        next_in(bets, x1) != next_in(bets, x2),
{
    let n = bets.len() as int;
    lemma_next_in_exists(bets, x1);
    lemma_next_in_exists(bets, x2);
    let y1 = next_in(bets, x1)->0;
    let y2 = next_in(bets, x2)->0;
    if y1 == y2 {
        let y = y1;
        lemma_next_in_rec_first(bets, x1, bets.len(), y);
        lemma_next_in_rec_first(bets, x2, bets.len(), y);
        let d1 = cyc_dist(x1, y, n);
        let d2 = cyc_dist(x2, y, n);
        assert(d1 != d2);
        if d1 > d2 {
            assert(cyc_dist(x1, x2, n) == d1 - d2);
            assert(cyc_dist(x1, x2, n) >= d1);
            assert(false);
        } else {
            assert(cyc_dist(x2, x1, n) == d2 - d1);
            assert(cyc_dist(x2, x1, n) >= d2);
            assert(false);
        }
    }
}

} // verus!
