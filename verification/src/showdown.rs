use vstd::prelude::*;
use crate::types::{BetAmount, GameError, Phase, wrap1, DECK_SIZE};
use crate::chips::sum_balances;
use crate::state::{count_in, GameState};
use crate::betting::settled_balances;

verus! {

/// Every seat's token slot for this card is populated: only then can the
/// card's plaintext be recovered.  Removing any one slot breaks it.
pub open spec fn card_recoverable(s: GameState, c: int) -> bool {
    forall|q: int| 0 <= q < s.num_players() ==> (#[trigger] s.token_at(c, q)) is Some
}

/// The five community card slots: right after the two hole cards per seat.
pub open spec fn community_slots(n: int) -> Seq<usize> {
    seq![
        (2 * n) as usize,
        (2 * n + 1) as usize,
        (2 * n + 2) as usize,
        (2 * n + 3) as usize,
        (2 * n + 4) as usize,
    ]
}

/// The hole-card slots of every non-folded seat among the first `upto`, in
/// seat order.
pub open spec fn hole_slots(bets: Seq<BetAmount>, upto: int) -> Seq<usize>
    decreases upto,
{
    if upto <= 0 {
        Seq::empty()
    } else {
        hole_slots(bets, upto - 1) + if bets[upto - 1] is Folded {
            Seq::empty()
        } else {
            seq![(2 * (upto - 1)) as usize, (2 * (upto - 1) + 1) as usize]
        }
    }
}

/// The non-folded seats among the first `upto`, in seat order.
pub open spec fn in_seats(bets: Seq<BetAmount>, upto: int) -> Seq<usize>
    decreases upto,
{
    if upto <= 0 {
        Seq::empty()
    } else {
        in_seats(bets, upto - 1) + if bets[upto - 1] is Folded {
            Seq::empty()
        } else {
            seq![(upto - 1) as usize]
        }
    }
}

/// Every deck slot whose plaintext the showdown needs, in the order the
/// caller must recover them: the five community cards, then each non-folded
/// seat's two hole cards in seat order.
pub open spec fn showdown_slots_spec(s: GameState) -> Seq<usize> {
    community_slots(s.num_players()) + hole_slots(s.bets@, s.num_players())
}

/// The showdown may proceed: the table is at SHOWDOWN, the deck holds slots
/// for every needed card, and every needed card is recoverable.
pub open spec fn showdown_ready(s: GameState) -> bool {
    &&& s.phase == Phase::SHOWDOWN
    &&& 2 * s.num_players() + 5 <= DECK_SIZE
    &&& forall|k: int|
        0 <= k < showdown_slots_spec(s).len() ==> card_recoverable(
            s,
            #[trigger] showdown_slots_spec(s)[k] as int,
        )
}

/// First maximal hand under the pairwise verdicts, by iteration order: start
/// at hand 0 and move only when a later hand strictly beats the incumbent.
pub open spec fn argmax_beats(beats: Seq<Seq<bool>>, k: int) -> int
    decreases k,
{
    if k <= 1 {
        0
    } else {
        let w = argmax_beats(beats, k - 1);
        if beats[k - 1][w] {
            k - 1
        } else {
            w
        }
    }
}

pub proof fn lemma_argmax_range(beats: Seq<Seq<bool>>, k: int)
    requires
        k >= 1,
    ensures
        0 <= argmax_beats(beats, k) < k,
    decreases k,
{
    if k > 1 {
        lemma_argmax_range(beats, k - 1);
    }
}

pub proof fn lemma_in_seats_len(bets: Seq<BetAmount>, upto: int)
    requires
        0 <= upto <= bets.len(),
        bets.len() <= usize::MAX,
    ensures
        in_seats(bets, upto).len() == crate::state::count_in_upto(bets, upto),
        forall|j: int|
            0 <= j < in_seats(bets, upto).len() ==> (#[trigger] in_seats(bets, upto)[j] as int)
                < upto && !(bets[in_seats(bets, upto)[j] as int] is Folded),
    decreases upto,
{
    if upto > 0 {
        lemma_in_seats_len(bets, upto - 1);
        let prev = in_seats(bets, upto - 1);
        let cur = in_seats(bets, upto);
        assert forall|j: int|
            0 <= j < cur.len() implies (#[trigger] cur[j] as int) < upto && !(bets[cur[j] as int]
            is Folded) by {
            if bets[upto - 1] is Folded {
                assert(cur =~= prev);
            } else {
                assert(cur =~= prev.push((upto - 1) as usize));
            }
        }
    }
}

impl GameState {
    /// List the deck slots the showdown needs, in recovery order, after
    /// checking the reveal gate: every needed card must hold a token from
    /// every seat.
    pub fn showdown_slots(&self) -> (r: Result<Vec<usize>, GameError>)
        requires
            self.wf(),
        ensures
            match r {
                Ok(v) => showdown_ready(*self) && v@ == showdown_slots_spec(*self),
                Err(e) => !showdown_ready(*self) && e == GameError::StateError,
            },
    {
        let n = self.num_players_exec();
        if !matches!(self.phase, Phase::SHOWDOWN) {
            return Err(GameError::StateError);
        }
        if n > (DECK_SIZE - 5) / 2 {
            proof {
                assert(2 * self.num_players() + 5 > DECK_SIZE);
            }
            return Err(GameError::StateError);
        }
        let mut v: Vec<usize> = Vec::new();
        v.push(2 * n);
        v.push(2 * n + 1);
        v.push(2 * n + 2);
        v.push(2 * n + 3);
        v.push(2 * n + 4);
        proof {
            assert(v@ =~= community_slots(self.num_players()));
        }
        let mut s: usize = 0;
        while s < n
            invariant
                n == self.num_players(),
                2 * n + 5 <= DECK_SIZE,
                n == self.bets@.len(),
                0 <= s <= n,
                v@ == community_slots(n as int) + hole_slots(self.bets@, s as int),
                forall|j: int| 0 <= j < v@.len() ==> #[trigger] v@[j] < DECK_SIZE,
            decreases n - s,
        {
            if !self.player_is_folded(s) {
                v.push(2 * s);
                v.push(2 * s + 1);
            }
            proof {
                assert(v@ =~= community_slots(n as int) + hole_slots(self.bets@, s as int + 1));
            }
            s = s + 1;
        }
        // the reveal gate: refuse unless every needed slot's column is full
        let len = v.len();
        let mut k: usize = 0;
        while k < len
            invariant
                self.wf(),
                len == v@.len(),
                v@ == showdown_slots_spec(*self),
                forall|j: int| 0 <= j < len ==> #[trigger] v@[j] < DECK_SIZE,
                0 <= k <= len,
                forall|j: int|
                    0 <= j < k ==> card_recoverable(*self, #[trigger] v@[j] as int),
            decreases len - k,
        {
            let c = v[k];
            let mut q: usize = 0;
            let n2 = self.num_players_exec();
            while q < n2
                invariant
                    self.wf(),
                    n2 == self.num_players(),
                    c < DECK_SIZE,
                    0 <= q <= n2,
                    k < len,
                    len == v@.len(),
                    v@ == showdown_slots_spec(*self),
                    c == v@[k as int],
                    forall|p: int| 0 <= p < q ==> (#[trigger] self.token_at(c as int, p)) is Some,
                decreases n2 - q,
            {
                let row = &self.reveal_tokens_with_proofs[c];
                if row[q].is_none() {
                    proof {
                        assert(self.token_at(c as int, q as int) is None);
                        assert(!card_recoverable(*self, c as int));
                        assert(showdown_slots_spec(*self)[k as int] == c);
                        assert(!showdown_ready(*self));
                    }
                    return Err(GameError::StateError);
                }
                q = q + 1;
            }
            k = k + 1;
        }
        Ok(v)
    }

    /// Settle the showdown.  `beats[i][j]` is the hand evaluator's verdict
    /// "hand of the i-th non-folded seat strictly beats the j-th".  The
    /// first maximal hand in seat order wins the pot; the dealer advances
    /// and a new round begins at SHUFFLE.
    ///
    /// Ties are not split: the first maximal hand encountered takes the
    /// whole pot, and multi-way all-ins pay the single winner in full (no
    /// side pots).  Both are deliberate, documented simplifications.
    pub fn apply_showdown(&mut self, beats: &Vec<Vec<bool>>) -> (r: Result<usize, GameError>)
        requires
            old(self).wf(),
        ensures
            final(self).wf(),
            crate::state::phase_ok(old(self).phase, final(self).phase),
            sum_balances(final(self).balances@) == sum_balances(old(self).balances@),
            !showdown_ready(*old(self)) ==> r == Err::<usize, GameError>(GameError::StateError)
                && *final(self) == *old(self),
            showdown_ready(*old(self)) && count_in(old(self).bets@) == 0 ==> r == Err::<
                usize,
                GameError,
            >(GameError::StateError) && *final(self) == *old(self),
            showdown_ready(*old(self)) && count_in(old(self).bets@) > 0 && !(beats@.len()
                == count_in(old(self).bets@) && (forall|i: int|
                0 <= i < beats@.len() ==> (#[trigger] beats@[i])@.len() == beats@.len())) ==> r
                == Err::<usize, GameError>(GameError::ValidationError) && *final(self) == *old(
                self,
            ),
            showdown_ready(*old(self)) && count_in(old(self).bets@) > 0 && beats@.len() == count_in(
                old(self).bets@,
            ) && (forall|i: int|
                0 <= i < beats@.len() ==> (#[trigger] beats@[i])@.len() == beats@.len()) ==> {
                let m = count_in(old(self).bets@);
                let seats = in_seats(old(self).bets@, old(self).num_players());
                let wpos = argmax_beats(
                    Seq::new(m as nat, |i: int| beats@[i]@),
                    m,
                );
                let winner = seats[wpos] as int;
                &&& r == Ok::<usize, GameError>(seats[wpos])
                &&& final(self).balances@ =~= settled_balances(
                    old(self).bets@,
                    old(self).balances@,
                    winner,
                )
                &&& final(self).phase == Phase::SHUFFLE
                &&& final(self).dealer == wrap1(old(self).dealer as int, old(self).num_players())
                &&& final(self).turn == final(self).dealer
                &&& final(self).ante == 0
                &&& final(self).bets@ =~= Seq::new(
                    old(self).num_players() as nat,
                    |i: int| BetAmount::In(0),
                )
                &&& forall|c: int, p: int|
                    0 <= c < DECK_SIZE && 0 <= p < old(self).num_players()
                        ==> #[trigger] final(self).token_at(c, p) is None
                &&& final(self).id == old(self).id
                &&& final(self).player_account_ids@ == old(self).player_account_ids@
                &&& final(self).pp == old(self).pp
                &&& final(self).player_game_pubkeys@ == old(self).player_game_pubkeys@
                &&& final(self).aggregate_pubkey == old(self).aggregate_pubkey
                &&& final(self).deck@ == old(self).deck@
                &&& final(self).checks@ =~= Seq::<bool>::new(
                    old(self).num_players() as nat,
                    |i: int| false,
                )
                &&& final(self).revealed_players@ =~= Seq::<bool>::new(
                    old(self).num_players() as nat,
                    |i: int| false,
                )
            },
    {
        match self.showdown_slots() {
            Ok(_) => {},
            Err(e) => {
                return Err(e);
            },
        }
        let n = self.num_players_exec();
        // the non-folded seats, in seat order
        let mut seats: Vec<usize> = Vec::new();
        let mut s: usize = 0;
        while s < n
            invariant
                n == self.num_players(),
                n == self.bets@.len(),
                0 <= s <= n,
                seats@ == in_seats(self.bets@, s as int),
            decreases n - s,
        {
            if !self.player_is_folded(s) {
                seats.push(s);
            }
            proof {
                assert(seats@ =~= in_seats(self.bets@, s as int + 1));
            }
            s = s + 1;
        }
        proof {
            lemma_in_seats_len(self.bets@, n as int);
        }
        let m = seats.len();
        if m == 0 {
            return Err(GameError::StateError);
        }
        if beats.len() != m {
            return Err(GameError::ValidationError);
        }
        if !rows_square(beats, m) {
            return Err(GameError::ValidationError);
        }
        let ghost bm = Seq::new(m as nat, |i: int| beats@[i]@);
        // reduce: keep the incumbent unless a later hand strictly beats it
        let mut w: usize = 0;
        let mut k: usize = 1;
        while k < m
            invariant
                m == beats@.len(),
                forall|j: int| 0 <= j < m ==> (#[trigger] beats@[j])@.len() == m,
                bm == Seq::new(m as nat, |i: int| beats@[i]@),
                1 <= k <= m,
                w < m,
                w as int == argmax_beats(bm, k as int),
            decreases m - k,
        {
            if beats[k][w] {
                w = k;
            }
            k = k + 1;
        }
        let winner = seats[w];
        proof {
            assert(!(self.bets@[winner as int] is Folded));
        }
        self.transfer_pot(winner);
        self.phase = Phase::SHUFFLE;
        let d = crate::types::wrap_next(self.dealer, n);
        self.dealer = d;
        self.new_round();
        Ok(winner)
    }
}


/// Does every row of the verdict matrix have the expected width?
pub fn rows_square(beats: &Vec<Vec<bool>>, m: usize) -> (r: bool)
    ensures
        r == (forall|i: int| 0 <= i < beats@.len() ==> (#[trigger] beats@[i])@.len() == m),
{
    let len = beats.len();
    let mut i: usize = 0;
    while i < len
        invariant
            len == beats@.len(),
            0 <= i <= len,
            forall|j: int| 0 <= j < i ==> (#[trigger] beats@[j])@.len() == m,
        decreases len - i,
    {
        if beats[i].len() != m {
            return false;
        }
        i = i + 1;
    }
    true
}


/// One seat's showdown hand: its two hole cards then the five community
/// cards, as card identifiers under the genesis bijection.
#[derive(Clone, Debug, PartialEq, Eq)]
pub struct SeatHand {
    pub seat: usize,
    pub cards: Vec<u8>,
}

/// Each non-folded seat owes exactly two hole-card slots.
pub proof fn lemma_hole_slots_len(bets: Seq<BetAmount>, upto: int)
    requires
        0 <= upto <= bets.len(),
    ensures
        hole_slots(bets, upto).len() == 2 * crate::state::count_in_upto(bets, upto),
    decreases upto,
{
    if upto > 0 {
        lemma_hole_slots_len(bets, upto - 1);
    }
}

} // verus!
