use vstd::prelude::*;
use crate::types::{AccountId, GameId, PublicKeyBuf, copy_bytes};

verus! {

/// First index whose account bytes equal `a`, scanning from `k`.
pub open spec fn first_seat_from(ids: Seq<AccountId>, a: Seq<u8>, k: int) -> Option<int>
    decreases ids.len() - k,
{
    if k < 0 || k >= ids.len() {
        None
    } else if ids[k]@ == a {
        Some(k)
    } else {
        first_seat_from(ids, a, k + 1)
    }
}

/// Seat of the account with bytes `a`, if it sits at the table.
pub open spec fn first_seat(ids: Seq<AccountId>, a: Seq<u8>) -> Option<int> {
    first_seat_from(ids, a, 0)
}

pub proof fn lemma_first_seat_from(ids: Seq<AccountId>, a: Seq<u8>, k: int)
    requires
        0 <= k <= ids.len(),
    ensures
        match first_seat_from(ids, a, k) {
            Some(i) => k <= i < ids.len() && ids[i]@ == a && forall|j: int|
                k <= j < i ==> ids[j]@ != a,
            None => forall|j: int| k <= j < ids.len() ==> ids[j]@ != a,
        },
    decreases ids.len() - k,
{
    if k < ids.len() && ids[k]@ != a {
        lemma_first_seat_from(ids, a, k + 1);
    }
}

/// What `first_seat` finds: the matching seat with no earlier match, or a
/// guarantee that no seat matches.
pub proof fn lemma_first_seat(ids: Seq<AccountId>, a: Seq<u8>)
    ensures
        match first_seat(ids, a) {
            Some(i) => 0 <= i < ids.len() && ids[i]@ == a && forall|j: int|
                0 <= j < i ==> ids[j]@ != a,
            None => forall|j: int| 0 <= j < ids.len() ==> ids[j]@ != a,
        },
{
    lemma_first_seat_from(ids, a, 0);
}

/// Find the seat of account `a`, scanning in seat order.
pub fn find_seat(ids: &Vec<AccountId>, a: &AccountId) -> (r: Option<usize>)
    ensures
        match r {
            Some(i) => first_seat(ids@, a@) == Some(i as int),
            None => first_seat(ids@, a@) is None,
        },
{
    let n = ids.len();
    let mut k: usize = 0;
    while k < n
        invariant
            n == ids@.len(),
            0 <= k <= n,
            first_seat(ids@, a@) == first_seat_from(ids@, a@, k as int),
        decreases n - k,
    {
        if crate::types::bytes_eq(&ids[k].bytes, &a.bytes) {
            assert(ids@[k as int]@ == a@);
            return Some(k);
        }
        k = k + 1;
    }
    None
}

/// Pre-game recruitment record: the ordered players and their protocol
/// public keys, co-indexed; seat 0 is the creator.
pub struct GameLobby {
    /// The identifier players use to join this game.
    pub id: GameId,
    /// The host account of each player, in seat order; index 0 is the creator.
    pub player_account_ids: Vec<AccountId>,
    /// The protocol public key of each player, co-indexed with the accounts.
    pub player_game_pubkeys: Vec<PublicKeyBuf>,
    /// Creation time (milliseconds), used to detect stale lobbies.
    pub created_at: u64,
}

impl GameLobby {
    /// The two player lists are always the same length and never empty.
    pub open spec fn wf(self) -> bool {
        &&& self.player_account_ids@.len() >= 1
        &&& self.player_game_pubkeys@.len() == self.player_account_ids@.len()
    }

    pub fn new(
        id: GameId,
        player_account_ids: Vec<AccountId>,
        player_game_pubkeys: Vec<PublicKeyBuf>,
        created_at: u64,
    ) -> (r: GameLobby)
        requires
            player_account_ids@.len() >= 1,
            player_game_pubkeys@.len() == player_account_ids@.len(),
        ensures
            r.wf(),
            r.id == id,
            r.player_account_ids@ == player_account_ids@,
            r.player_game_pubkeys@ == player_game_pubkeys@,
            r.created_at == created_at,
    {
        GameLobby { id, player_account_ids, player_game_pubkeys, created_at }
    }

    /// The creator's account: seat 0.
    pub fn creator(&self) -> (r: AccountId)
        requires
            self.wf(),
        ensures
            r@ == self.player_account_ids@[0]@,
    {
        AccountId { bytes: copy_bytes(&self.player_account_ids[0].bytes) }
    }

    pub fn num_players(&self) -> (r: usize)
        ensures
            r == self.player_account_ids@.len(),
    {
        self.player_account_ids.len()
    }

    /// Append a recruit and its key; only ever called after the join checks
    /// passed.
    pub fn add_player(&mut self, account_id: AccountId, game_pubkey: PublicKeyBuf)
        requires
            old(self).wf(),
        ensures
            final(self).wf(),
            final(self).id == old(self).id,
            final(self).created_at == old(self).created_at,
            final(self).player_account_ids@ == old(self).player_account_ids@.push(account_id),
            final(self).player_game_pubkeys@ == old(self).player_game_pubkeys@.push(game_pubkey),
    {
        self.player_account_ids.push(account_id);
        self.player_game_pubkeys.push(game_pubkey);
    }
}

} // verus!
