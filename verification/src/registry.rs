use vstd::prelude::*;
use crate::types::{
    AccountId, Balance, BetAmount, CardValueBuf, GameError, GameId, MaskedCardBuf, ParamsBuf, Phase,
    PublicKeyBuf, RevealTokenBuf, copy_bytes, DECK_SIZE, GAME_STALE_MS, LOBBY_STALE_MS,
};
use crate::lobby::{first_seat, GameLobby};
use crate::state::GameState;
use crate::cards::values_distinct;

verus! {

/// A stored game: still recruiting, or live.
pub enum Game {
    WaitingForPlayers(GameLobby),
    InProgress(GameState),
}

/// One slot of the registry.
pub struct GameEntry {
    pub id: GameId,
    pub game: Game,
}

/// The registry and genesis records: every live game, the trusted-setup
/// parameters, and the fixed table from card values to card identifiers.
pub struct Contract {
    pub games: Vec<GameEntry>,
    pub trusted_setup_params: ParamsBuf,
    pub card_mapping: Vec<CardValueBuf>,
}

/// First registry slot holding `id`, scanning from `k`.
pub open spec fn find_idx_from(games: Seq<GameEntry>, id: GameId, k: int) -> Option<int>
    decreases games.len() - k,
{
    if k < 0 || k >= games.len() {
        None
    } else if games[k].id == id {
        Some(k)
    } else {
        find_idx_from(games, id, k + 1)
    }
}

/// Registry slot holding `id`, if any.
pub open spec fn find_idx(games: Seq<GameEntry>, id: GameId) -> Option<int> {
    find_idx_from(games, id, 0)
}

/// The game stored under `id`, if any.
pub open spec fn lookup(games: Seq<GameEntry>, id: GameId) -> Option<Game> {
    match find_idx(games, id) {
        Some(i) => Some(games[i].game),
        None => None,
    }
}

/// The registry after storing `g` under `id`: the existing slot is replaced,
/// or a new slot is appended.
pub open spec fn upsert(games: Seq<GameEntry>, id: GameId, g: Game) -> Seq<GameEntry> {
    match find_idx(games, id) {
        Some(i) => games.update(i, GameEntry { id, game: g }),
        None => games.push(GameEntry { id, game: g }),
    }
}

/// Is this record past its staleness window at time `now`?  Stale records
/// count as free slots for identifier generation.
pub open spec fn is_stale(g: Game, now: u64) -> bool {
    match g {
        Game::WaitingForPlayers(l) => now as int - l.created_at as int > LOBBY_STALE_MS as int,
        Game::InProgress(s) => now as int - s.last_modified as int > GAME_STALE_MS as int,
    }
}

pub open spec fn game_wf(g: Game) -> bool {
    match g {
        Game::WaitingForPlayers(l) => l.wf(),
        Game::InProgress(s) => s.wf(),
    }
}

/// The identifier a stored game carries inside its record.
pub open spec fn game_id_of(g: Game) -> GameId {
    match g {
        Game::WaitingForPlayers(l) => l.id,
        Game::InProgress(s) => s.id,
    }
}

pub open spec fn entry_wf(e: GameEntry) -> bool {
    game_wf(e.game) && game_id_of(e.game) == e.id
}

impl Contract {
    /// Well-formedness: identifiers are unique, every stored game is
    /// well-formed and carries its own slot's identifier, and the genesis
    /// card table is a bijection.
    pub open spec fn wf(self) -> bool {
        &&& forall|i: int, j: int|
            0 <= i < j < self.games@.len() ==> (#[trigger] self.games@[i]).id != (
            #[trigger] self.games@[j]).id
        &&& forall|i: int| 0 <= i < self.games@.len() ==> entry_wf(#[trigger] self.games@[i])
        &&& values_distinct(self.card_mapping@)
        &&& self.card_mapping@.len() <= DECK_SIZE
    }

    /// Find the registry slot holding `id`.
    fn find_game_index(&self, id: GameId) -> (r: Option<usize>)
        ensures
            match r {
                Some(i) => find_idx(self.games@, id) == Some(i as int) && i < self.games@.len(),
                None => find_idx(self.games@, id) is None,
            },
    {
        let n = self.games.len();
        let mut k: usize = 0;
        while k < n
            invariant
                n == self.games@.len(),
                0 <= k <= n,
                find_idx(self.games@, id) == find_idx_from(self.games@, id, k as int),
            decreases n - k,
        {
            if self.games[k].id == id {
                return Some(k);
            }
            k = k + 1;
        }
        None
    }
}

/// What `find_idx` finds: the slot with the identifier and no earlier one,
/// or a guarantee that no slot holds it.
pub proof fn lemma_find_idx_from(games: Seq<GameEntry>, id: GameId, k: int)
    requires
        0 <= k <= games.len(),
    ensures
        match find_idx_from(games, id, k) {
            Some(i) => k <= i < games.len() && games[i].id == id && forall|j: int|
                k <= j < i ==> (#[trigger] games[j]).id != id,
            None => forall|j: int| k <= j < games.len() ==> (#[trigger] games[j]).id != id,
        },
    decreases games.len() - k,
{
    if k < games.len() && games[k].id != id {
        lemma_find_idx_from(games, id, k + 1);
    }
}

pub proof fn lemma_find_idx(games: Seq<GameEntry>, id: GameId)
    ensures
        match find_idx(games, id) {
            Some(i) => 0 <= i < games.len() && games[i].id == id && forall|j: int|
                0 <= j < i ==> (#[trigger] games[j]).id != id,
            None => forall|j: int| 0 <= j < games.len() ==> (#[trigger] games[j]).id != id,
        },
{
    lemma_find_idx_from(games, id, 0);
}

/// Two registries whose slots carry the same identifiers are scanned alike.
pub proof fn lemma_find_idx_same_ids(a: Seq<GameEntry>, b: Seq<GameEntry>, id: GameId, k: int)
    requires
        a.len() == b.len(),
        0 <= k <= a.len(),
        forall|j: int| 0 <= j < a.len() ==> (#[trigger] a[j]).id == b[j].id,
    ensures
        find_idx_from(a, id, k) == find_idx_from(b, id, k),
    decreases a.len() - k,
{
    if k < a.len() {
        lemma_find_idx_same_ids(a, b, id, k + 1);
    }
}

/// After `upsert(games, id, g)`: `id` maps to `g`, every other identifier
/// maps as before, and uniqueness of identifiers is preserved.
pub proof fn lemma_upsert(games: Seq<GameEntry>, id: GameId, g: Game)
    requires
        forall|i: int, j: int|
            0 <= i < j < games.len() ==> (#[trigger] games[i]).id != (#[trigger] games[j]).id,
    ensures
        lookup(upsert(games, id, g), id) == Some(g),
        forall|other: GameId|
            other != id ==> #[trigger] lookup(upsert(games, id, g), other) == lookup(
                games,
                other,
            ),
        forall|i: int, j: int|
            0 <= i < j < upsert(games, id, g).len() ==> (#[trigger] upsert(games, id, g)[i]).id
                != (#[trigger] upsert(games, id, g)[j]).id,
        upsert(games, id, g).len() == games.len() || upsert(games, id, g).len() == games.len()
            + 1,
        forall|i: int|
            0 <= i < upsert(games, id, g).len() && (#[trigger] upsert(games, id, g)[i]).id != id
                ==> upsert(games, id, g)[i] == games[i],
        forall|i: int|
            0 <= i < upsert(games, id, g).len() && (#[trigger] upsert(games, id, g)[i]).id == id
                ==> upsert(games, id, g)[i] == (GameEntry { id, game: g }),
{
    lemma_find_idx(games, id);
    let u = upsert(games, id, g);
    match find_idx(games, id) {
        Some(i) => {
            assert(u == games.update(i, GameEntry { id, game: g }));
            assert forall|j: int| 0 <= j < u.len() implies (#[trigger] u[j]).id == games[j].id by {}
            lemma_find_idx_same_ids(u, games, id, 0);
            lemma_find_idx(u, id);
            assert(find_idx(u, id) == find_idx(games, id));
            assert forall|other: GameId| other != id implies #[trigger] lookup(u, other)
                == lookup(games, other) by {
                lemma_find_idx_same_ids(u, games, other, 0);
                lemma_find_idx(u, other);
                lemma_find_idx(games, other);
                match find_idx(games, other) {
                    Some(x) => {
                        assert(games[x].id == other);
                        assert(x != i);
                        assert(u[x] == games[x]);
                    },
                    None => {},
                }
            }
        },
        None => {
            assert(u == games.push(GameEntry { id, game: g }));
            lemma_find_idx(u, id);
            match find_idx(u, id) {
                Some(x) => {
                    assert(u[x].id == id);
                    if x < games.len() {
                        assert(games[x].id == id);
                        assert(false);
                    }
                    assert(x == games.len());
                    assert(u[x].game == g);
                },
                None => {
                    assert(u[games.len() as int].id == id);
                    assert(false);
                },
            }
            assert forall|other: GameId| other != id implies #[trigger] lookup(u, other)
                == lookup(games, other) by {
                lemma_find_push(games, GameEntry { id, game: g }, other, 0);
                lemma_find_idx(u, other);
                lemma_find_idx(games, other);
            }
        },
    }
}

/// Pushing an entry with a different identifier does not change a scan.
pub proof fn lemma_find_push(games: Seq<GameEntry>, e: GameEntry, other: GameId, k: int)
    requires
        e.id != other,
        0 <= k <= games.len(),
    ensures
        find_idx_from(games.push(e), other, k) == find_idx_from(games, other, k),
    decreases games.len() - k,
{
    let u = games.push(e);
    if k < games.len() {
        assert(u[k] == games[k]);
        lemma_find_push(games, e, other, k + 1);
    } else {
        assert(u[k].id != other);
        assert(find_idx_from(u, other, k + 1) is None);
        assert(find_idx_from(games, other, k) is None);
    }
}


/// All four digits of the identifier are decimal digits.
pub open spec fn id_digits_ok(id: GameId) -> bool {
    id.d0 < 10 && id.d1 < 10 && id.d2 < 10 && id.d3 < 10
}

/// The identifier can be handed out: no record under it, or only a stale
/// one, which counts as free and is overwritten.
pub open spec fn id_free(games: Seq<GameEntry>, id: GameId, now: u64) -> bool {
    match lookup(games, id) {
        None => true,
        Some(g) => is_stale(g, now),
    }
}

/// The `i`-th four-digit identifier, counting 0000 to 9999.
pub open spec fn id_of_num(i: int) -> GameId {
    GameId {
        d0: ((i / 1000) % 10) as u8,
        d1: ((i / 100) % 10) as u8,
        d2: ((i / 10) % 10) as u8,
        d3: (i % 10) as u8,
    }
}

impl Contract {
    /// Is the identifier free (absent, or held only by a stale record)?
    fn id_free_exec(&self, id: GameId, now: u64) -> (r: bool)
        ensures
            r == id_free(self.games@, id, now),
    {
        match self.find_game_index(id) {
            None => true,
            Some(i) => {
                match &self.games[i].game {
                    Game::WaitingForPlayers(l) => now > l.created_at && now - l.created_at
                        > LOBBY_STALE_MS,
                    Game::InProgress(st) => now > st.last_modified && now - st.last_modified
                        > GAME_STALE_MS,
                }
            },
        }
    }

    /// Draw a fresh identifier: four random decimal digits, retried while
    /// they collide with a live game; after a bounded number of draws, sweep
    /// the whole identifier space.  `None` only when every identifier is
    /// held by a live game.
    pub fn generate_game_id(&self, seed: [u8; 32], now: u64) -> (r: Option<GameId>)
        ensures
            match r {
                Some(id) => id_digits_ok(id) && id_free(self.games@, id, now),
                None => forall|i: int|
                    0 <= i < 10000 ==> !id_free(self.games@, #[trigger] id_of_num(i), now),
            },
    {
        let mut rng = crate::rng::rng_from_seed(seed);
        let mut tries: usize = 0;
        while tries < 32
            invariant
                0 <= tries <= 32,
            decreases 32 - tries,
        {
            let id = GameId {
                d0: crate::rng::gen_digit(&mut rng),
                d1: crate::rng::gen_digit(&mut rng),
                d2: crate::rng::gen_digit(&mut rng),
                d3: crate::rng::gen_digit(&mut rng),
            };
            if self.id_free_exec(id, now) {
                return Some(id);
            }
            tries = tries + 1;
        }
        let mut i: usize = 0;
        while i < 10000
            invariant
                0 <= i <= 10000,
                forall|j: int|
                    0 <= j < i ==> !id_free(self.games@, #[trigger] id_of_num(j), now),
            decreases 10000 - i,
        {
            let id = GameId {
                d0: ((i / 1000) % 10) as u8,
                d1: ((i / 100) % 10) as u8,
                d2: ((i / 10) % 10) as u8,
                d3: (i % 10) as u8,
            };
            proof {
                assert(id == id_of_num(i as int));
            }
            if self.id_free_exec(id, now) {
                return Some(id);
            }
            i = i + 1;
        }
        None
    }

    /// Store `g` under `id`, replacing any record already there.
    fn store_game(&mut self, id: GameId, g: Game)
        requires
            old(self).wf(),
            game_wf(g),
            game_id_of(g) == id,
        ensures
            final(self).wf(),
            final(self).trusted_setup_params@ == old(self).trusted_setup_params@,
            final(self).card_mapping@ == old(self).card_mapping@,
            final(self).games@ == upsert(old(self).games@, id, g),
            lookup(final(self).games@, id) == Some(g),
            forall|other: GameId|
                other != id ==> #[trigger] lookup(final(self).games@, other) == lookup(
                    old(self).games@,
                    other,
                ),
    {
        let ghost old_games = self.games@;
        let entry = GameEntry { id, game: g };
        match self.find_game_index(id) {
            Some(i) => {
                self.games.set(i, entry);
            },
            None => {
                self.games.push(entry);
            },
        }
        proof {
            lemma_upsert(old_games, id, g);
            let u = upsert(old_games, id, g);
            assert(self.games@ == u);
            assert forall|i: int| 0 <= i < u.len() implies entry_wf(#[trigger] u[i]) by {
                if u[i].id == id {
                    assert(u[i] == (GameEntry { id, game: g }));
                } else {
                    assert(u[i] == old_games[i]);
                }
            }
        }
    }

    /// Genesis: install the trusted-setup parameters and the fixed table of
    /// card values, checked to be a full deck of pairwise-distinct values.
    pub fn init(trusted_setup_params: ParamsBuf, card_values: Vec<CardValueBuf>) -> (r: Result<
        Contract,
        GameError,
    >)
        ensures
            match r {
                Ok(c) => {
                    &&& card_values@.len() == DECK_SIZE
                    &&& values_distinct(card_values@)
                    &&& c.wf()
                    &&& c.games@.len() == 0
                    &&& c.trusted_setup_params@ == trusted_setup_params@
                    &&& c.card_mapping@ == card_values@
                },
                Err(e) => e == GameError::ValidationError && !(card_values@.len() == DECK_SIZE
                    && values_distinct(card_values@)),
            },
    {
        if card_values.len() != DECK_SIZE {
            return Err(GameError::ValidationError);
        }
        if !crate::cards::check_values_distinct(&card_values) {
            return Err(GameError::ValidationError);
        }
        Ok(Contract { games: Vec::new(), trusted_setup_params, card_mapping: card_values })
    }

    /// The trusted-setup parameters, as stored at genesis.
    pub fn get_params(&self) -> (r: ParamsBuf)
        ensures
            r@ == self.trusted_setup_params@,
    {
        ParamsBuf { buf: copy_bytes(&self.trusted_setup_params.buf) }
    }

    /// The aggregate public key of a live game.
    pub fn get_aggregate_pubkey(&self, game_id: GameId) -> (r: Result<PublicKeyBuf, GameError>)
        ensures
            match lookup(self.games@, game_id) {
                None => r == Err::<PublicKeyBuf, GameError>(GameError::NotFoundError),
                Some(Game::WaitingForPlayers(_)) => r == Err::<PublicKeyBuf, GameError>(
                    GameError::StateError,
                ),
                Some(Game::InProgress(st)) => match r {
                    Ok(k) => k@ == st.aggregate_pubkey@,
                    Err(_) => false,
                },
            },
    {
        let i = match self.find_game_index(game_id) {
            Some(i) => i,
            None => {
                return Err(GameError::NotFoundError);
            },
        };
        match &self.games[i].game {
            Game::WaitingForPlayers(_) => Err(GameError::StateError),
            Game::InProgress(st) => Ok(PublicKeyBuf { buf: copy_bytes(&st.aggregate_pubkey.buf) }),
        }
    }
}


impl Contract {
    /// Take a registry slot's record out, leaving a placeholder.
    fn take_entry(&mut self, idx: usize) -> (e: GameEntry)
        requires
            idx < old(self).games@.len(),
        ensures
            e == old(self).games@[idx as int],
            final(self).games@ == old(self).games@.update(
                idx as int,
                final(self).games@[idx as int],
            ),
            final(self).games@.len() == old(self).games@.len(),
            final(self).trusted_setup_params == old(self).trusted_setup_params,
            final(self).card_mapping@ == old(self).card_mapping@,
    {
        let placeholder = GameEntry {
            id: GameId { d0: 0, d1: 0, d2: 0, d3: 0 },
            game: Game::WaitingForPlayers(
                GameLobby {
                    id: GameId { d0: 0, d1: 0, d2: 0, d3: 0 },
                    player_account_ids: Vec::new(),
                    player_game_pubkeys: Vec::new(),
                    created_at: 0,
                },
            ),
        };
        let mut e = placeholder;
        self.games.set_and_swap(idx, &mut e);
        e
    }

    /// Put a record back into its slot.
    fn put_entry(&mut self, idx: usize, e: GameEntry)
        requires
            idx < old(self).games@.len(),
        ensures
            final(self).games@ == old(self).games@.update(idx as int, e),
            final(self).trusted_setup_params == old(self).trusted_setup_params,
            final(self).card_mapping@ == old(self).card_mapping@,
    {
        self.games.set(idx, e);
    }

    /// Open a new game: after the host verifies the caller's key-ownership
    /// proof (binding the protocol key to the caller), allocate a fresh
    /// identifier and store a lobby holding only the caller.  On any failure
    /// nothing is allocated and nothing stored.
    pub fn create_game(
        &mut self,
        caller: AccountId,
        creator_pk: PublicKeyBuf,
        key_proof_ok: bool,
        seed: [u8; 32],
        now: u64,
    ) -> (r: Result<GameId, GameError>)
        requires
            old(self).wf(),
        ensures
            final(self).wf(),
            final(self).trusted_setup_params@ == old(self).trusted_setup_params@,
            final(self).card_mapping@ == old(self).card_mapping@,
            !key_proof_ok ==> r == Err::<GameId, GameError>(GameError::AuthorizationError)
                && final(self).games@ == old(self).games@,
            key_proof_ok ==> match r {
                Ok(id) => {
                    &&& id_digits_ok(id)
                    &&& id_free(old(self).games@, id, now)
                    &&& match lookup(final(self).games@, id) {
                        Some(Game::WaitingForPlayers(l)) => {
                            &&& l.id == id
                            &&& l.player_account_ids@.len() == 1
                            &&& l.player_account_ids@[0]@ == caller@
                            &&& l.player_game_pubkeys@.len() == 1
                            &&& l.player_game_pubkeys@[0]@ == creator_pk@
                            &&& l.created_at == now
                        },
                        _ => false,
                    }
                    &&& forall|other: GameId|
                        other != id ==> #[trigger] lookup(final(self).games@, other) == lookup(
                            old(self).games@,
                            other,
                        )
                },
                Err(e) => {
                    &&& e == GameError::StateError
                    &&& final(self).games@ == old(self).games@
                    &&& forall|i: int|
                        0 <= i < 10000 ==> !id_free(old(self).games@, #[trigger] id_of_num(i), now)
                },
            },
    {
        if !key_proof_ok {
            return Err(GameError::AuthorizationError);
        }
        let id = match self.generate_game_id(seed, now) {
            Some(id) => id,
            None => {
                return Err(GameError::StateError);
            },
        };
        let mut ids: Vec<AccountId> = Vec::new();
        ids.push(caller);
        let mut pks: Vec<PublicKeyBuf> = Vec::new();
        pks.push(creator_pk);
        let lobby = GameLobby::new(id, ids, pks, now);
        self.store_game(id, Game::WaitingForPlayers(lobby));
        Ok(id)
    }

    /// Join a lobby: the game must exist and still be recruiting, the caller
    /// must not already sit in it, and the host must have verified the
    /// caller's key-ownership proof; then the caller is appended.
    pub fn join_game(
        &mut self,
        game_id: GameId,
        caller: AccountId,
        pk: PublicKeyBuf,
        key_proof_ok: bool,
    ) -> (r: Result<(), GameError>)
        requires
            old(self).wf(),
        ensures
            final(self).wf(),
            final(self).trusted_setup_params@ == old(self).trusted_setup_params@,
            final(self).card_mapping@ == old(self).card_mapping@,
            match lookup(old(self).games@, game_id) {
                None => r == Err::<(), GameError>(GameError::NotFoundError) && final(self).games@
                    == old(self).games@,
                Some(Game::InProgress(_)) => r == Err::<(), GameError>(GameError::StateError)
                    && final(self).games@ == old(self).games@,
                Some(Game::WaitingForPlayers(l)) => {
                    if first_seat(l.player_account_ids@, caller@) is Some {
                        r == Err::<(), GameError>(GameError::DuplicateError) && final(self).games@
                            == old(self).games@
                    } else if !key_proof_ok {
                        r == Err::<(), GameError>(GameError::AuthorizationError)
                            && final(self).games@ == old(self).games@
                    } else {
                        &&& r is Ok
                        &&& match lookup(final(self).games@, game_id) {
                            Some(Game::WaitingForPlayers(l2)) => {
                                &&& l2.id == l.id
                                &&& l2.created_at == l.created_at
                                &&& l2.player_account_ids@ == l.player_account_ids@.push(caller)
                                &&& l2.player_game_pubkeys@ == l.player_game_pubkeys@.push(pk)
                            },
                            _ => false,
                        }
                        &&& forall|other: GameId|
                            other != game_id ==> #[trigger] lookup(final(self).games@, other)
                                == lookup(old(self).games@, other)
                    }
                },
            },
    {
        let idx = match self.find_game_index(game_id) {
            Some(i) => i,
            None => {
                return Err(GameError::NotFoundError);
            },
        };
        let ghost old_games = self.games@;
        proof {
            lemma_find_idx(old_games, game_id);
        }
        let entry = self.take_entry(idx);
        match entry.game {
            Game::InProgress(st) => {
                self.put_entry(idx, GameEntry { id: game_id, game: Game::InProgress(st) });
                proof {
                    assert(self.games@ =~= old_games);
                }
                Err(GameError::StateError)
            },
            Game::WaitingForPlayers(mut l) => {
                match crate::lobby::find_seat(&l.player_account_ids, &caller) {
                    Some(_) => {
                        self.put_entry(
                            idx,
                            GameEntry { id: game_id, game: Game::WaitingForPlayers(l) },
                        );
                        proof {
                            assert(self.games@ =~= old_games);
                        }
                        Err(GameError::DuplicateError)
                    },
                    None => {
                        if !key_proof_ok {
                            self.put_entry(
                                idx,
                                GameEntry { id: game_id, game: Game::WaitingForPlayers(l) },
                            );
                            proof {
                                assert(self.games@ =~= old_games);
                            }
                            return Err(GameError::AuthorizationError);
                        }
                        l.add_player(caller, pk);
                        self.put_entry(
                            idx,
                            GameEntry { id: game_id, game: Game::WaitingForPlayers(l) },
                        );
                        proof {
                            assert(self.games@ =~= upsert(
                                old_games,
                                game_id,
                                Game::WaitingForPlayers(l),
                            ));
                            lemma_upsert(old_games, game_id, Game::WaitingForPlayers(l));
                            let u = self.games@;
                            assert forall|i: int| 0 <= i < u.len() implies entry_wf(
                                #[trigger] u[i],
                            ) by {
                                if u[i].id == game_id {
                                    assert(u[i] == (GameEntry {
                                        id: game_id,
                                        game: Game::WaitingForPlayers(l),
                                    }));
                                } else {
                                    assert(u[i] == old_games[i]);
                                }
                            }
                        }
                        Ok(())
                    },
                }
            },
        }
    }

    /// Start the game: only the lobby's creator may, and only once the host
    /// computed the aggregate public key over all seats' keys and
    /// identities.  The lobby becomes a live game at SHUFFLE with seat 0
    /// dealing.
    pub fn start_game(
        &mut self,
        game_id: GameId,
        caller: AccountId,
        aggregate_pubkey: Option<PublicKeyBuf>,
        now: u64,
    ) -> (r: Result<(), GameError>)
        requires
            old(self).wf(),
        ensures
            final(self).wf(),
            final(self).trusted_setup_params@ == old(self).trusted_setup_params@,
            final(self).card_mapping@ == old(self).card_mapping@,
            match lookup(old(self).games@, game_id) {
                None => r == Err::<(), GameError>(GameError::NotFoundError) && final(self).games@
                    == old(self).games@,
                Some(Game::InProgress(_)) => r == Err::<(), GameError>(GameError::StateError)
                    && final(self).games@ == old(self).games@,
                Some(Game::WaitingForPlayers(l)) => {
                    if l.player_account_ids@[0]@ != caller@ {
                        r == Err::<(), GameError>(GameError::AuthorizationError)
                            && final(self).games@ == old(self).games@
                    } else if aggregate_pubkey is None {
                        r == Err::<(), GameError>(GameError::CryptoVerificationError)
                            && final(self).games@ == old(self).games@
                    } else {
                        &&& r is Ok
                        &&& match lookup(final(self).games@, game_id) {
                            Some(Game::InProgress(st)) => {
                                &&& st.id == game_id
                                &&& st.player_account_ids@ == l.player_account_ids@
                                &&& st.player_game_pubkeys@ == l.player_game_pubkeys@
                                &&& st.phase == Phase::SHUFFLE
                                &&& st.turn == 0
                                &&& st.dealer == 0
                                &&& st.ante == 0
                                &&& st.last_modified == now
                                &&& st.pp@ == old(self).trusted_setup_params@
                                &&& st.aggregate_pubkey == aggregate_pubkey->0
                                &&& st.deck@.len() == 0
                                &&& st.balances@ =~= Seq::<Balance>::new(
                                    l.player_account_ids@.len() as nat,
                                    |j: int| 0 as Balance,
                                )
                                &&& st.bets@ =~= Seq::<BetAmount>::new(
                                    l.player_account_ids@.len() as nat,
                                    |j: int| BetAmount::In(0),
                                )
                            },
                            _ => false,
                        }
                        &&& forall|other: GameId|
                            other != game_id ==> #[trigger] lookup(final(self).games@, other)
                                == lookup(old(self).games@, other)
                    }
                },
            },
    {
        let idx = match self.find_game_index(game_id) {
            Some(i) => i,
            None => {
                return Err(GameError::NotFoundError);
            },
        };
        let ghost old_games = self.games@;
        proof {
            lemma_find_idx(old_games, game_id);
        }
        let entry = self.take_entry(idx);
        match entry.game {
            Game::InProgress(st) => {
                self.put_entry(idx, GameEntry { id: game_id, game: Game::InProgress(st) });
                proof {
                    assert(self.games@ =~= old_games);
                }
                Err(GameError::StateError)
            },
            Game::WaitingForPlayers(l) => {
                if !crate::types::bytes_eq(&l.player_account_ids[0].bytes, &caller.bytes) {
                    self.put_entry(
                        idx,
                        GameEntry { id: game_id, game: Game::WaitingForPlayers(l) },
                    );
                    proof {
                        assert(self.games@ =~= old_games);
                    }
                    return Err(GameError::AuthorizationError);
                }
                let agg = match aggregate_pubkey {
                    Some(a) => a,
                    None => {
                        self.put_entry(
                            idx,
                            GameEntry { id: game_id, game: Game::WaitingForPlayers(l) },
                        );
                        proof {
                            assert(self.games@ =~= old_games);
                        }
                        return Err(GameError::CryptoVerificationError);
                    },
                };
                let pp = ParamsBuf { buf: copy_bytes(&self.trusted_setup_params.buf) };
                let GameLobby { id: _, player_account_ids, player_game_pubkeys, created_at: _ } = l;
                let st = GameState::new(
                    game_id,
                    player_account_ids,
                    player_game_pubkeys,
                    pp,
                    agg,
                    now,
                );
                self.put_entry(idx, GameEntry { id: game_id, game: Game::InProgress(st) });
                proof {
                    assert(self.games@ =~= upsert(old_games, game_id, Game::InProgress(st)));
                    lemma_upsert(old_games, game_id, Game::InProgress(st));
                    let u = self.games@;
                    assert forall|i: int| 0 <= i < u.len() implies entry_wf(#[trigger] u[i]) by {
                        if u[i].id == game_id {
                            assert(u[i] == (GameEntry {
                                id: game_id,
                                game: Game::InProgress(st),
                            }));
                        } else {
                            assert(u[i] == old_games[i]);
                        }
                    }
                }
                Ok(())
            },
        }
    }
}


impl Contract {
    /// Seed the initial masked deck: only the creator, only once (the deck
    /// must still be empty), and only with a full deck.  The round state
    /// resets and the turn returns to the dealer; the phase is untouched.
    pub fn init_deck(
        &mut self,
        game_id: GameId,
        caller: AccountId,
        deck: Vec<MaskedCardBuf>,
        now: u64,
    ) -> (r: Result<(), GameError>)
        requires
            old(self).wf(),
        ensures
            final(self).wf(),
            final(self).trusted_setup_params@ == old(self).trusted_setup_params@,
            final(self).card_mapping@ == old(self).card_mapping@,
            match lookup(old(self).games@, game_id) {
                None => r == Err::<(), GameError>(GameError::NotFoundError) && final(self).games@
                    == old(self).games@,
                Some(Game::WaitingForPlayers(_)) => r == Err::<(), GameError>(
                    GameError::StateError,
                ) && final(self).games@ == old(self).games@,
                Some(Game::InProgress(st)) => {
                    if st.player_account_ids@[0]@ != caller@ {
                        r == Err::<(), GameError>(GameError::AuthorizationError)
                            && final(self).games@ == old(self).games@
                    } else if st.deck@.len() != 0 {
                        r == Err::<(), GameError>(GameError::StateError) && final(self).games@
                            == old(self).games@
                    } else if deck@.len() != DECK_SIZE {
                        r == Err::<(), GameError>(GameError::ValidationError) && final(self).games@
                            == old(self).games@
                    } else {
                        &&& r is Ok
                        &&& match lookup(final(self).games@, game_id) {
                            Some(Game::InProgress(st2)) => {
                                &&& st2.id == st.id
                                &&& st2.player_account_ids@ == st.player_account_ids@
                                &&& st2.phase == st.phase
                                &&& crate::state::phase_ok(st.phase, st2.phase)
                                &&& st2.turn == st.dealer
                                &&& st2.dealer == st.dealer
                                &&& st2.ante == 0
                                &&& st2.balances@ == st.balances@
                                &&& st2.last_modified == now
                                &&& st2.deck@ == deck@
                                &&& st2.bets@ =~= Seq::<BetAmount>::new(
                                    st.num_players() as nat,
                                    |j: int| BetAmount::In(0),
                                )
                                &&& st2.checks@ =~= Seq::<bool>::new(
                                    st.num_players() as nat,
                                    |j: int| false,
                                )
                                &&& st2.revealed_players@ =~= Seq::<bool>::new(
                                    st.num_players() as nat,
                                    |j: int| false,
                                )
                                &&& forall|c: int, p: int|
                                    0 <= c < DECK_SIZE && 0 <= p < st.num_players()
                                        ==> #[trigger] st2.token_at(c, p) is None
                            },
                            _ => false,
                        }
                        &&& forall|other: GameId|
                            other != game_id ==> #[trigger] lookup(final(self).games@, other)
                                == lookup(old(self).games@, other)
                    }
                },
            },
    {
        let idx = match self.find_game_index(game_id) {
            Some(i) => i,
            None => {
                return Err(GameError::NotFoundError);
            },
        };
        let ghost old_games = self.games@;
        proof {
            lemma_find_idx(old_games, game_id);
        }
        let entry = self.take_entry(idx);
        match entry.game {
            Game::WaitingForPlayers(l) => {
                self.put_entry(idx, GameEntry { id: game_id, game: Game::WaitingForPlayers(l) });
                proof {
                    assert(self.games@ =~= old_games);
                }
                Err(GameError::StateError)
            },
            Game::InProgress(mut st) => {
                if !crate::types::bytes_eq(&st.player_account_ids[0].bytes, &caller.bytes) {
                    self.put_entry(idx, GameEntry { id: game_id, game: Game::InProgress(st) });
                    proof {
                        assert(self.games@ =~= old_games);
                    }
                    return Err(GameError::AuthorizationError);
                }
                if st.deck.len() != 0 {
                    self.put_entry(idx, GameEntry { id: game_id, game: Game::InProgress(st) });
                    proof {
                        assert(self.games@ =~= old_games);
                    }
                    return Err(GameError::StateError);
                }
                if deck.len() != DECK_SIZE {
                    self.put_entry(idx, GameEntry { id: game_id, game: Game::InProgress(st) });
                    proof {
                        assert(self.games@ =~= old_games);
                    }
                    return Err(GameError::ValidationError);
                }
                st.new_round();
                let ghost mid = st;
                st.set_deck(deck);
                st.last_modified = now;
                proof {
                    assert(st.reveal_tokens_with_proofs@ == mid.reveal_tokens_with_proofs@);
                    assert forall|c: int, p: int|
                        0 <= c < DECK_SIZE && 0 <= p < mid.num_players() implies #[trigger] st.token_at(
                        c,
                        p,
                    ) is None by {
                        assert(mid.token_at(c, p) is None);
                    }
                }
                self.put_entry(idx, GameEntry { id: game_id, game: Game::InProgress(st) });
                proof {
                    self.lemma_commit(old_games, game_id, st);
                }
                Ok(())
            },
        }
    }

    /// Prove the registry facts after a mutated live game is written back.
    proof fn lemma_commit(&self, old_games: Seq<GameEntry>, game_id: GameId, st: GameState)
        requires
            forall|i: int, j: int|
                0 <= i < j < old_games.len() ==> (#[trigger] old_games[i]).id != (
                #[trigger] old_games[j]).id,
            forall|i: int| 0 <= i < old_games.len() ==> entry_wf(#[trigger] old_games[i]),
            self.games@ =~= upsert(old_games, game_id, Game::InProgress(st)),
            st.wf(),
            st.id == game_id,
        ensures
            forall|i: int, j: int|
                0 <= i < j < self.games@.len() ==> (#[trigger] self.games@[i]).id != (
                #[trigger] self.games@[j]).id,
            forall|i: int| 0 <= i < self.games@.len() ==> entry_wf(#[trigger] self.games@[i]),
            lookup(self.games@, game_id) == Some(Game::InProgress(st)),
            forall|other: GameId|
                other != game_id ==> #[trigger] lookup(self.games@, other) == lookup(
                    old_games,
                    other,
                ),
    {
        lemma_upsert(old_games, game_id, Game::InProgress(st));
        lemma_find_idx(old_games, game_id);
        let g = Game::InProgress(st);
        let u = self.games@;
        assert forall|i: int| 0 <= i < u.len() implies entry_wf(#[trigger] u[i]) by {
            match find_idx(old_games, game_id) {
                Some(x) => {
                    assert(u == old_games.update(x, GameEntry { id: game_id, game: g }));
                    if i == x {
                        assert(u[i] == (GameEntry { id: game_id, game: g }));
                    } else {
                        assert(u[i] == old_games[i]);
                    }
                },
                None => {
                    assert(u == old_games.push(GameEntry { id: game_id, game: g }));
                    if i == old_games.len() {
                        assert(u[i] == (GameEntry { id: game_id, game: g }));
                    } else {
                        assert(u[i] == old_games[i]);
                    }
                },
            }
        }
    }

    /// Replace the deck with a verified shuffle: only the seat whose turn it
    /// is, only in the SHUFFLE phase, only with a full replacement deck, and
    /// only when the host verified the shuffle proof against the previous
    /// deck, the new deck and the aggregate key.  The token matrix resets;
    /// when the turn wraps back to the dealer, dealing begins.
    pub fn shuffle_deck(
        &mut self,
        game_id: GameId,
        caller: AccountId,
        new_deck: Vec<MaskedCardBuf>,
        shuffle_proof_ok: bool,
        now: u64,
    ) -> (r: Result<(), GameError>)
        requires
            old(self).wf(),
        ensures
            final(self).wf(),
            final(self).trusted_setup_params@ == old(self).trusted_setup_params@,
            final(self).card_mapping@ == old(self).card_mapping@,
            match lookup(old(self).games@, game_id) {
                None => r == Err::<(), GameError>(GameError::NotFoundError) && final(self).games@
                    == old(self).games@,
                Some(Game::WaitingForPlayers(_)) => r == Err::<(), GameError>(
                    GameError::StateError,
                ) && final(self).games@ == old(self).games@,
                Some(Game::InProgress(st)) => match first_seat(st.player_account_ids@, caller@) {
                    None => r == Err::<(), GameError>(GameError::AuthorizationError)
                        && final(self).games@ == old(self).games@,
                    Some(p) => {
                        if st.turn as int != p {
                            r == Err::<(), GameError>(GameError::AuthorizationError)
                                && final(self).games@ == old(self).games@
                        } else if st.phase != Phase::SHUFFLE {
                            r == Err::<(), GameError>(GameError::StateError) && final(self).games@
                                == old(self).games@
                        } else if st.deck@.len() != DECK_SIZE {
                            r == Err::<(), GameError>(GameError::StateError) && final(self).games@
                                == old(self).games@
                        } else if new_deck@.len() != DECK_SIZE {
                            r == Err::<(), GameError>(GameError::ValidationError)
                                && final(self).games@ == old(self).games@
                        } else if !shuffle_proof_ok {
                            r == Err::<(), GameError>(GameError::CryptoVerificationError)
                                && final(self).games@ == old(self).games@
                        } else {
                            &&& r is Ok
                            &&& match lookup(final(self).games@, game_id) {
                                Some(Game::InProgress(st2)) => {
                                    &&& st2.id == st.id
                                    &&& st2.player_account_ids@ == st.player_account_ids@
                                    &&& crate::state::phase_ok(st.phase, st2.phase)
                                    &&& st2.deck@ == new_deck@
                                    &&& st2.turn == crate::types::wrap1(
                                        st.turn as int,
                                        st.num_players(),
                                    )
                                    &&& st2.phase == (if crate::types::wrap1(
                                        st.turn as int,
                                        st.num_players(),
                                    ) == st.dealer as int {
                                        Phase::DEAL
                                    } else {
                                        Phase::SHUFFLE
                                    })
                                    &&& st2.dealer == st.dealer
                                    &&& st2.ante == st.ante
                                    &&& st2.bets@ == st.bets@
                                    &&& st2.checks@ == st.checks@
                                    &&& st2.revealed_players@ == st.revealed_players@
                                    &&& st2.balances@ == st.balances@
                                    &&& st2.last_modified == now
                                    &&& forall|c: int, p2: int|
                                        0 <= c < DECK_SIZE && 0 <= p2 < st.num_players()
                                            ==> #[trigger] st2.token_at(c, p2) is None
                                },
                                _ => false,
                            }
                            &&& forall|other: GameId|
                                other != game_id ==> #[trigger] lookup(final(self).games@, other)
                                    == lookup(old(self).games@, other)
                        }
                    },
                },
            },
    {
        let idx = match self.find_game_index(game_id) {
            Some(i) => i,
            None => {
                return Err(GameError::NotFoundError);
            },
        };
        let ghost old_games = self.games@;
        proof {
            lemma_find_idx(old_games, game_id);
        }
        let entry = self.take_entry(idx);
        match entry.game {
            Game::WaitingForPlayers(l) => {
                self.put_entry(idx, GameEntry { id: game_id, game: Game::WaitingForPlayers(l) });
                proof {
                    assert(self.games@ =~= old_games);
                }
                Err(GameError::StateError)
            },
            Game::InProgress(mut st) => {
                let p = match st.player_index(&caller) {
                    Some(p) => p,
                    None => {
                        self.put_entry(idx, GameEntry { id: game_id, game: Game::InProgress(st) });
                        proof {
                            assert(self.games@ =~= old_games);
                        }
                        return Err(GameError::AuthorizationError);
                    },
                };
                if st.turn != p {
                    self.put_entry(idx, GameEntry { id: game_id, game: Game::InProgress(st) });
                    proof {
                        assert(self.games@ =~= old_games);
                    }
                    return Err(GameError::AuthorizationError);
                }
                if !matches!(st.phase, Phase::SHUFFLE) {
                    self.put_entry(idx, GameEntry { id: game_id, game: Game::InProgress(st) });
                    proof {
                        assert(self.games@ =~= old_games);
                    }
                    return Err(GameError::StateError);
                }
                if st.deck.len() != DECK_SIZE {
                    self.put_entry(idx, GameEntry { id: game_id, game: Game::InProgress(st) });
                    proof {
                        assert(self.games@ =~= old_games);
                    }
                    return Err(GameError::StateError);
                }
                if new_deck.len() != DECK_SIZE {
                    self.put_entry(idx, GameEntry { id: game_id, game: Game::InProgress(st) });
                    proof {
                        assert(self.games@ =~= old_games);
                    }
                    return Err(GameError::ValidationError);
                }
                if !shuffle_proof_ok {
                    self.put_entry(idx, GameEntry { id: game_id, game: Game::InProgress(st) });
                    proof {
                        assert(self.games@ =~= old_games);
                    }
                    return Err(GameError::CryptoVerificationError);
                }
                st.set_deck(new_deck);
                st.reset_reveal_tokens();
                let ghost mid = st;
                let n = st.num_players_exec();
                let t2 = crate::types::wrap_next(st.turn, n);
                st.turn = t2;
                if st.turn == st.dealer {
                    st.phase = Phase::DEAL;
                }
                st.last_modified = now;
                proof {
                    assert(st.reveal_tokens_with_proofs@ == mid.reveal_tokens_with_proofs@);
                    assert forall|c: int, p2: int|
                        0 <= c < DECK_SIZE && 0 <= p2 < mid.num_players() implies #[trigger] st.token_at(
                        c,
                        p2,
                    ) is None by {
                        assert(mid.reveal_tokens_with_proofs@[c]@ =~= Seq::<
                            Option<RevealTokenBuf>,
                        >::new(mid.num_players() as nat, |j: int| None));
                    }
                }
                self.put_entry(idx, GameEntry { id: game_id, game: Game::InProgress(st) });
                proof {
                    self.lemma_commit(old_games, game_id, st);
                }
                Ok(())
            },
        }
    }
}


impl Contract {
    /// Post a blind: only in the BLIND phase, only the seat whose turn it
    /// is.  The seat stakes the little or big blind (or goes all-in), the
    /// ante follows, and betting opens once the turn reaches three seats
    /// past the dealer.
    pub fn blind(&mut self, game_id: GameId, caller: AccountId, now: u64) -> (r: Result<
        (),
        GameError,
    >)
        requires
            old(self).wf(),
        ensures
            final(self).wf(),
            final(self).trusted_setup_params@ == old(self).trusted_setup_params@,
            final(self).card_mapping@ == old(self).card_mapping@,
            match lookup(old(self).games@, game_id) {
                None => r == Err::<(), GameError>(GameError::NotFoundError) && final(self).games@
                    == old(self).games@,
                Some(Game::WaitingForPlayers(_)) => r == Err::<(), GameError>(
                    GameError::StateError,
                ) && final(self).games@ == old(self).games@,
                Some(Game::InProgress(st)) => {
                    if st.phase != Phase::BLIND {
                        r == Err::<(), GameError>(GameError::StateError) && final(self).games@
                            == old(self).games@
                    } else {
                        match first_seat(st.player_account_ids@, caller@) {
                            None => r == Err::<(), GameError>(GameError::AuthorizationError)
                                && final(self).games@ == old(self).games@,
                            Some(p) => {
                                if st.turn as int != p {
                                    r == Err::<(), GameError>(GameError::AuthorizationError)
                                        && final(self).games@ == old(self).games@
                                } else {
                                    &&& r is Ok
                                    &&& match lookup(final(self).games@, game_id) {
                                        Some(Game::InProgress(st2)) => crate::betting::blind_post(
                                            st,
                                            st2,
                                        ) && st2.last_modified == now,
                                        _ => false,
                                    }
                                    &&& forall|other: GameId|
                                        other != game_id ==> #[trigger] lookup(
                                            final(self).games@,
                                            other,
                                        ) == lookup(old(self).games@, other)
                                }
                            },
                        }
                    }
                },
            },
    {
        let idx = match self.find_game_index(game_id) {
            Some(i) => i,
            None => {
                return Err(GameError::NotFoundError);
            },
        };
        let ghost old_games = self.games@;
        proof {
            lemma_find_idx(old_games, game_id);
        }
        let entry = self.take_entry(idx);
        match entry.game {
            Game::WaitingForPlayers(l) => {
                self.put_entry(idx, GameEntry { id: game_id, game: Game::WaitingForPlayers(l) });
                proof {
                    assert(self.games@ =~= old_games);
                }
                Err(GameError::StateError)
            },
            Game::InProgress(mut st) => {
                if !matches!(st.phase, Phase::BLIND) {
                    self.put_entry(idx, GameEntry { id: game_id, game: Game::InProgress(st) });
                    proof {
                        assert(self.games@ =~= old_games);
                    }
                    return Err(GameError::StateError);
                }
                let p = match st.player_index(&caller) {
                    Some(p) => p,
                    None => {
                        self.put_entry(idx, GameEntry { id: game_id, game: Game::InProgress(st) });
                        proof {
                            assert(self.games@ =~= old_games);
                        }
                        return Err(GameError::AuthorizationError);
                    },
                };
                if st.turn != p {
                    self.put_entry(idx, GameEntry { id: game_id, game: Game::InProgress(st) });
                    proof {
                        assert(self.games@ =~= old_games);
                    }
                    return Err(GameError::AuthorizationError);
                }
                let ghost st0 = st;
                st.apply_blind();
                let ghost mid = st;
                st.last_modified = now;
                proof {
                    assert(crate::betting::blind_post(st0, st)) by {
                        assert(crate::betting::blind_post(st0, mid));
                    }
                }
                self.put_entry(idx, GameEntry { id: game_id, game: Game::InProgress(st) });
                proof {
                    self.lemma_commit(old_games, game_id, st);
                }
                Ok(())
            },
        }
    }

    /// Place one bet action: only in a betting phase, only the seat whose
    /// turn it is, exactly one of call / check / all-in / fold / raise.  The
    /// rest of the sub-round bookkeeping — immediate win, phase advance or
    /// turn advance — follows `bet_post`.
    pub fn bet(
        &mut self,
        game_id: GameId,
        caller: AccountId,
        call: bool,
        check: bool,
        all_in: bool,
        fold: bool,
        raise: Option<Balance>,
        now: u64,
    ) -> (r: Result<(), GameError>)
        requires
            old(self).wf(),
        ensures
            final(self).wf(),
            final(self).trusted_setup_params@ == old(self).trusted_setup_params@,
            final(self).card_mapping@ == old(self).card_mapping@,
            match lookup(old(self).games@, game_id) {
                None => r == Err::<(), GameError>(GameError::NotFoundError) && final(self).games@
                    == old(self).games@,
                Some(Game::WaitingForPlayers(_)) => r == Err::<(), GameError>(
                    GameError::StateError,
                ) && final(self).games@ == old(self).games@,
                Some(Game::InProgress(st)) => {
                    if !crate::betting::is_bet_phase(st.phase) {
                        r == Err::<(), GameError>(GameError::StateError) && final(self).games@
                            == old(self).games@
                    } else {
                        match first_seat(st.player_account_ids@, caller@) {
                            None => r == Err::<(), GameError>(GameError::AuthorizationError)
                                && final(self).games@ == old(self).games@,
                            Some(p) => {
                                if st.turn as int != p {
                                    r == Err::<(), GameError>(GameError::AuthorizationError)
                                        && final(self).games@ == old(self).games@
                                } else {
                                    match crate::betting::parse_action(
                                        call,
                                        check,
                                        all_in,
                                        fold,
                                        raise,
                                    ) {
                                        None => r == Err::<(), GameError>(
                                            GameError::ValidationError,
                                        ) && final(self).games@ == old(self).games@,
                                        Some(a) => {
                                            if crate::betting::action_allowed(st, a) {
                                                &&& r is Ok
                                                &&& match lookup(final(self).games@, game_id) {
                                                    Some(Game::InProgress(st2)) => {
                                                        &&& crate::betting::bet_post(st, st2, a)
                                                        &&& st2.last_modified == now
                                                        &&& crate::chips::sum_balances(
                                                            st2.balances@,
                                                        ) == crate::chips::sum_balances(
                                                            st.balances@,
                                                        )
                                                        &&& crate::state::phase_ok(
                                                            st.phase,
                                                            st2.phase,
                                                        )
                                                    },
                                                    _ => false,
                                                }
                                                &&& forall|other: GameId|
                                                    other != game_id ==> #[trigger] lookup(
                                                        final(self).games@,
                                                        other,
                                                    ) == lookup(old(self).games@, other)
                                            } else {
                                                r == Err::<(), GameError>(
                                                    crate::betting::action_error(st, a),
                                                ) && final(self).games@ == old(self).games@
                                            }
                                        },
                                    }
                                }
                            },
                        }
                    }
                },
            },
    {
        let idx = match self.find_game_index(game_id) {
            Some(i) => i,
            None => {
                return Err(GameError::NotFoundError);
            },
        };
        let ghost old_games = self.games@;
        proof {
            lemma_find_idx(old_games, game_id);
        }
        let entry = self.take_entry(idx);
        match entry.game {
            Game::WaitingForPlayers(l) => {
                self.put_entry(idx, GameEntry { id: game_id, game: Game::WaitingForPlayers(l) });
                proof {
                    assert(self.games@ =~= old_games);
                }
                Err(GameError::StateError)
            },
            Game::InProgress(mut st) => {
                let bet_phase = match st.phase {
                    Phase::BET0 => true,
                    Phase::BET1 => true,
                    Phase::BET2 => true,
                    Phase::BET3 => true,
                    _ => false,
                };
                if !bet_phase {
                    self.put_entry(idx, GameEntry { id: game_id, game: Game::InProgress(st) });
                    proof {
                        assert(self.games@ =~= old_games);
                    }
                    return Err(GameError::StateError);
                }
                let p = match st.player_index(&caller) {
                    Some(p) => p,
                    None => {
                        self.put_entry(idx, GameEntry { id: game_id, game: Game::InProgress(st) });
                        proof {
                            assert(self.games@ =~= old_games);
                        }
                        return Err(GameError::AuthorizationError);
                    },
                };
                if st.turn != p {
                    self.put_entry(idx, GameEntry { id: game_id, game: Game::InProgress(st) });
                    proof {
                        assert(self.games@ =~= old_games);
                    }
                    return Err(GameError::AuthorizationError);
                }
                let ghost st0 = st;
                match st.apply_bet(call, check, all_in, fold, raise) {
                    Err(e) => {
                        self.put_entry(idx, GameEntry { id: game_id, game: Game::InProgress(st) });
                        proof {
                            assert(self.games@ =~= old_games);
                        }
                        Err(e)
                    },
                    Ok(_) => {
                        let ghost mid = st;
                        st.last_modified = now;
                        proof {
                            let a = crate::betting::parse_action(
                                call,
                                check,
                                all_in,
                                fold,
                                raise,
                            )->0;
                            assert(crate::betting::bet_post(st0, st, a)) by {
                                assert(crate::betting::bet_post(st0, mid, a));
                            }
                        }
                        self.put_entry(idx, GameEntry { id: game_id, game: Game::InProgress(st) });
                        proof {
                            self.lemma_commit(old_games, game_id, st);
                        }
                        Ok(())
                    },
                }
            },
        }
    }
}


impl Contract {
    /// Deal-phase token collection: a player supplies reveal tokens for the
    /// listed cards, in any seat order, once per seat; the host has already
    /// verified the token proofs (`proofs_ok`).  When the last seat deals,
    /// blinds open one past the dealer.
    pub fn deal(
        &mut self,
        game_id: GameId,
        caller: AccountId,
        card_indices: Vec<usize>,
        reveal_tokens_with_proofs: Vec<RevealTokenBuf>,
        proofs_ok: bool,
        now: u64,
    ) -> (r: Result<(), GameError>)
        requires
            old(self).wf(),
        ensures
            final(self).wf(),
            final(self).trusted_setup_params@ == old(self).trusted_setup_params@,
            final(self).card_mapping@ == old(self).card_mapping@,
            match lookup(old(self).games@, game_id) {
                None => r == Err::<(), GameError>(GameError::NotFoundError) && final(self).games@
                    == old(self).games@,
                Some(Game::WaitingForPlayers(_)) => r == Err::<(), GameError>(
                    GameError::StateError,
                ) && final(self).games@ == old(self).games@,
                Some(Game::InProgress(st)) => {
                    if st.phase != Phase::DEAL {
                        r == Err::<(), GameError>(GameError::StateError) && final(self).games@
                            == old(self).games@
                    } else {
                        match first_seat(st.player_account_ids@, caller@) {
                            None => r == Err::<(), GameError>(GameError::AuthorizationError)
                                && final(self).games@ == old(self).games@,
                            Some(p) => {
                                if st.revealed_players@[p] {
                                    r == Err::<(), GameError>(GameError::DuplicateError)
                                        && final(self).games@ == old(self).games@
                                } else if card_indices@.len()
                                    != reveal_tokens_with_proofs@.len() {
                                    r == Err::<(), GameError>(GameError::ValidationError)
                                        && final(self).games@ == old(self).games@
                                } else if !(forall|k: int|
                                    0 <= k < card_indices@.len()
                                        ==> #[trigger] card_indices@[k] < DECK_SIZE) {
                                    r == Err::<(), GameError>(GameError::ValidationError)
                                        && final(self).games@ == old(self).games@
                                } else if !proofs_ok {
                                    r == Err::<(), GameError>(GameError::CryptoVerificationError)
                                        && final(self).games@ == old(self).games@
                                } else {
                                    &&& r is Ok
                                    &&& match lookup(final(self).games@, game_id) {
                                        Some(Game::InProgress(st2)) => {
                                            &&& GameState::deal_post(
                                                st,
                                                st2,
                                                p,
                                                card_indices@,
                                                reveal_tokens_with_proofs@,
                                            )
                                            &&& st2.last_modified == now
                                        },
                                        _ => false,
                                    }
                                    &&& forall|other: GameId|
                                        other != game_id ==> #[trigger] lookup(
                                            final(self).games@,
                                            other,
                                        ) == lookup(old(self).games@, other)
                                }
                            },
                        }
                    }
                },
            },
    {
        let idx = match self.find_game_index(game_id) {
            Some(i) => i,
            None => {
                return Err(GameError::NotFoundError);
            },
        };
        let ghost old_games = self.games@;
        proof {
            lemma_find_idx(old_games, game_id);
        }
        let entry = self.take_entry(idx);
        match entry.game {
            Game::WaitingForPlayers(l) => {
                self.put_entry(idx, GameEntry { id: game_id, game: Game::WaitingForPlayers(l) });
                proof {
                    assert(self.games@ =~= old_games);
                }
                Err(GameError::StateError)
            },
            Game::InProgress(mut st) => {
                if !matches!(st.phase, Phase::DEAL) {
                    self.put_entry(idx, GameEntry { id: game_id, game: Game::InProgress(st) });
                    proof {
                        assert(self.games@ =~= old_games);
                    }
                    return Err(GameError::StateError);
                }
                let p = match st.player_index(&caller) {
                    Some(p) => p,
                    None => {
                        self.put_entry(idx, GameEntry { id: game_id, game: Game::InProgress(st) });
                        proof {
                            assert(self.games@ =~= old_games);
                        }
                        return Err(GameError::AuthorizationError);
                    },
                };
                proof {
                    crate::lobby::lemma_first_seat(st.player_account_ids@, caller@);
                }
                let ghost st0 = st;
                match st.apply_deal(p, &card_indices, reveal_tokens_with_proofs, proofs_ok) {
                    Err(e) => {
                        self.put_entry(idx, GameEntry { id: game_id, game: Game::InProgress(st) });
                        proof {
                            assert(self.games@ =~= old_games);
                        }
                        Err(e)
                    },
                    Ok(_) => {
                        let ghost mid = st;
                        st.last_modified = now;
                        proof {
                            assert(GameState::deal_post(
                                st0,
                                st,
                                p as int,
                                card_indices@,
                                reveal_tokens_with_proofs@,
                            )) by {
                                assert(GameState::deal_post(
                                    st0,
                                    mid,
                                    p as int,
                                    card_indices@,
                                    reveal_tokens_with_proofs@,
                                ));
                                crate::tokens::lemma_tokens_stored_carry(
                                    st0,
                                    mid,
                                    st,
                                    p as int,
                                    card_indices@,
                                    reveal_tokens_with_proofs@,
                                );
                            }
                        }
                        self.put_entry(idx, GameEntry { id: game_id, game: Game::InProgress(st) });
                        proof {
                            self.lemma_commit(old_games, game_id, st);
                        }
                        Ok(())
                    },
                }
            },
        }
    }

    /// Reveal-phase token collection: a player supplies exactly the tokens
    /// its phase owes (flop, turn, river or its own hole cards), once per
    /// seat per step; the host has already verified the proofs.  When the
    /// last seat reveals, the phase advances per `reveal_post`.
    pub fn reveal_cards(
        &mut self,
        game_id: GameId,
        caller: AccountId,
        card_indices: Vec<usize>,
        reveal_tokens_with_proofs: Vec<RevealTokenBuf>,
        proofs_ok: bool,
        now: u64,
    ) -> (r: Result<(), GameError>)
        requires
            old(self).wf(),
        ensures
            final(self).wf(),
            final(self).trusted_setup_params@ == old(self).trusted_setup_params@,
            final(self).card_mapping@ == old(self).card_mapping@,
            match lookup(old(self).games@, game_id) {
                None => r == Err::<(), GameError>(GameError::NotFoundError) && final(self).games@
                    == old(self).games@,
                Some(Game::WaitingForPlayers(_)) => r == Err::<(), GameError>(
                    GameError::StateError,
                ) && final(self).games@ == old(self).games@,
                Some(Game::InProgress(st)) => {
                    match first_seat(st.player_account_ids@, caller@) {
                        None => r == Err::<(), GameError>(GameError::AuthorizationError)
                            && final(self).games@ == old(self).games@,
                        Some(p) => {
                            if !crate::tokens::is_reveal_phase(st.phase) {
                                r == Err::<(), GameError>(GameError::StateError)
                                    && final(self).games@ == old(self).games@
                            } else if st.revealed_players@[p] {
                                r == Err::<(), GameError>(GameError::DuplicateError)
                                    && final(self).games@ == old(self).games@
                            } else if !(card_indices@.len() == crate::tokens::required_reveal_count(
                                st.phase,
                            ) && reveal_tokens_with_proofs@.len()
                                == crate::tokens::required_reveal_count(st.phase)) {
                                r == Err::<(), GameError>(GameError::ValidationError)
                                    && final(self).games@ == old(self).games@
                            } else if !(forall|k: int|
                                0 <= k < card_indices@.len() ==> #[trigger] card_indices@[k]
                                    < DECK_SIZE) {
                                r == Err::<(), GameError>(GameError::ValidationError)
                                    && final(self).games@ == old(self).games@
                            } else if !proofs_ok {
                                r == Err::<(), GameError>(GameError::CryptoVerificationError)
                                    && final(self).games@ == old(self).games@
                            } else if GameState::reveal_deadlock(st, p) {
                                r == Err::<(), GameError>(GameError::StateError)
                                    && final(self).games@ == old(self).games@
                            } else {
                                &&& r is Ok
                                &&& match lookup(final(self).games@, game_id) {
                                    Some(Game::InProgress(st2)) => {
                                        &&& GameState::reveal_post(
                                            st,
                                            st2,
                                            p,
                                            card_indices@,
                                            reveal_tokens_with_proofs@,
                                        )
                                        &&& st2.last_modified == now
                                    },
                                    _ => false,
                                }
                                &&& forall|other: GameId|
                                    other != game_id ==> #[trigger] lookup(
                                        final(self).games@,
                                        other,
                                    ) == lookup(old(self).games@, other)
                            }
                        },
                    }
                },
            },
    {
        let idx = match self.find_game_index(game_id) {
            Some(i) => i,
            None => {
                return Err(GameError::NotFoundError);
            },
        };
        let ghost old_games = self.games@;
        proof {
            lemma_find_idx(old_games, game_id);
        }
        let entry = self.take_entry(idx);
        match entry.game {
            Game::WaitingForPlayers(l) => {
                self.put_entry(idx, GameEntry { id: game_id, game: Game::WaitingForPlayers(l) });
                proof {
                    assert(self.games@ =~= old_games);
                }
                Err(GameError::StateError)
            },
            Game::InProgress(mut st) => {
                let p = match st.player_index(&caller) {
                    Some(p) => p,
                    None => {
                        self.put_entry(idx, GameEntry { id: game_id, game: Game::InProgress(st) });
                        proof {
                            assert(self.games@ =~= old_games);
                        }
                        return Err(GameError::AuthorizationError);
                    },
                };
                let reveal_phase = match st.phase {
                    Phase::FLOP => true,
                    Phase::TURN => true,
                    Phase::RIVER => true,
                    Phase::SHOWDOWN_REVEAL => true,
                    _ => false,
                };
                if !reveal_phase {
                    self.put_entry(idx, GameEntry { id: game_id, game: Game::InProgress(st) });
                    proof {
                        assert(self.games@ =~= old_games);
                    }
                    return Err(GameError::StateError);
                }
                proof {
                    crate::lobby::lemma_first_seat(st.player_account_ids@, caller@);
                }
                let ghost st0 = st;
                match st.apply_reveal(p, &card_indices, reveal_tokens_with_proofs, proofs_ok) {
                    Err(e) => {
                        self.put_entry(idx, GameEntry { id: game_id, game: Game::InProgress(st) });
                        proof {
                            assert(self.games@ =~= old_games);
                        }
                        Err(e)
                    },
                    Ok(_) => {
                        let ghost mid = st;
                        st.last_modified = now;
                        proof {
                            assert(GameState::reveal_post(
                                st0,
                                st,
                                p as int,
                                card_indices@,
                                reveal_tokens_with_proofs@,
                            )) by {
                                assert(GameState::reveal_post(
                                    st0,
                                    mid,
                                    p as int,
                                    card_indices@,
                                    reveal_tokens_with_proofs@,
                                ));
                                crate::tokens::lemma_tokens_stored_carry(
                                    st0,
                                    mid,
                                    st,
                                    p as int,
                                    card_indices@,
                                    reveal_tokens_with_proofs@,
                                );
                            }
                        }
                        self.put_entry(idx, GameEntry { id: game_id, game: Game::InProgress(st) });
                        proof {
                            self.lemma_commit(old_games, game_id, st);
                        }
                        Ok(())
                    },
                }
            },
        }
    }
}


impl Contract {
    /// List the deck slots whose plaintexts the showdown needs, in recovery
    /// order, after checking the reveal gate.
    pub fn showdown_slots(&self, game_id: GameId) -> (r: Result<Vec<usize>, GameError>)
        requires
            self.wf(),
        ensures
            match lookup(self.games@, game_id) {
                None => r == Err::<Vec<usize>, GameError>(GameError::NotFoundError),
                Some(Game::WaitingForPlayers(_)) => r == Err::<Vec<usize>, GameError>(
                    GameError::StateError,
                ),
                Some(Game::InProgress(st)) => match r {
                    Ok(v) => crate::showdown::showdown_ready(st) && v@
                        == crate::showdown::showdown_slots_spec(st),
                    Err(e) => e == GameError::StateError && !crate::showdown::showdown_ready(st),
                },
            },
    {
        let i = match self.find_game_index(game_id) {
            Some(i) => i,
            None => {
                return Err(GameError::NotFoundError);
            },
        };
        match &self.games[i].game {
            Game::WaitingForPlayers(_) => Err(GameError::StateError),
            Game::InProgress(st) => st.showdown_slots(),
        }
    }

    /// Build each non-folded seat's seven-card hand from the recovered
    /// plaintext card values, supplied in the order `showdown_slots` lists
    /// the slots.  Each value is mapped through the genesis bijection; a
    /// value outside the table means the recovery was bad.
    #[verifier::loop_isolation(false)]
    pub fn showdown_hands(&self, game_id: GameId, card_values: &Vec<CardValueBuf>) -> (r: Result<
        Vec<crate::showdown::SeatHand>,
        GameError,
    >)
        requires
            self.wf(),
        ensures
            match lookup(self.games@, game_id) {
                None => r == Err::<Vec<crate::showdown::SeatHand>, GameError>(
                    GameError::NotFoundError,
                ),
                Some(Game::WaitingForPlayers(_)) => r == Err::<
                    Vec<crate::showdown::SeatHand>,
                    GameError,
                >(GameError::StateError),
                Some(Game::InProgress(st)) => {
                    let seats = crate::showdown::in_seats(st.bets@, st.num_players());
                    let m = seats.len() as int;
                    if !crate::showdown::showdown_ready(st) {
                        r == Err::<Vec<crate::showdown::SeatHand>, GameError>(
                            GameError::StateError,
                        )
                    } else if card_values@.len() != 5 + 2 * m {
                        r == Err::<Vec<crate::showdown::SeatHand>, GameError>(
                            GameError::ValidationError,
                        )
                    } else if exists|k: int|
                        0 <= k < card_values@.len() && crate::cards::first_value_pos(
                            self.card_mapping@,
                            (#[trigger] card_values@[k])@,
                        ) is None {
                        r == Err::<Vec<crate::showdown::SeatHand>, GameError>(
                            GameError::CryptoVerificationError,
                        )
                    } else {
                        match r {
                            Ok(hands) => {
                                &&& hands@.len() == m
                                &&& forall|j: int|
                                    0 <= j < m ==> {
                                        let h = #[trigger] hands@[j];
                                        &&& h.seat == seats[j]
                                        &&& h.cards@.len() == 7
                                        &&& crate::cards::first_value_pos(
                                            self.card_mapping@,
                                            card_values@[5 + 2 * j]@,
                                        ) == Some(h.cards@[0] as int)
                                        &&& crate::cards::first_value_pos(
                                            self.card_mapping@,
                                            card_values@[5 + 2 * j + 1]@,
                                        ) == Some(h.cards@[1] as int)
                                        &&& forall|c: int|
                                            0 <= c < 5 ==> crate::cards::first_value_pos(
                                                self.card_mapping@,
                                                card_values@[c]@,
                                            ) == Some((#[trigger] h.cards@[2 + c]) as int)
                                    }
                            },
                            Err(_) => false,
                        }
                    }
                },
            },
    {
        let i = match self.find_game_index(game_id) {
            Some(i) => i,
            None => {
                return Err(GameError::NotFoundError);
            },
        };
        let st = match &self.games[i].game {
            Game::WaitingForPlayers(_) => {
                return Err(GameError::StateError);
            },
            Game::InProgress(st) => st,
        };
        let slots = match st.showdown_slots() {
            Ok(v) => v,
            Err(_) => {
                return Err(GameError::StateError);
            },
        };
        let n = st.num_players_exec();
        let mut seats: Vec<usize> = Vec::new();
        let mut s: usize = 0;
        while s < n
            invariant
                n == st.num_players(),
                n == st.bets@.len(),
                0 <= s <= n,
                seats@ == crate::showdown::in_seats(st.bets@, s as int),
            decreases n - s,
        {
            if !st.player_is_folded(s) {
                seats.push(s);
            }
            proof {
                assert(seats@ =~= crate::showdown::in_seats(st.bets@, s as int + 1));
            }
            s = s + 1;
        }
        let m = seats.len();
        proof {
            crate::showdown::lemma_in_seats_len(st.bets@, n as int);
            crate::showdown::lemma_hole_slots_len(st.bets@, n as int);
            assert(slots@.len() == 5 + 2 * m);
        }
        if card_values.len() != slots.len() {
            return Err(GameError::ValidationError);
        }
        // map every recovered value through the genesis table
        let len = card_values.len();
        let mut mapped: Vec<u8> = Vec::new();
        let mut k: usize = 0;
        while k < len
            invariant
                self.wf(),
                len == card_values@.len(),
                0 <= k <= len,
                mapped@.len() == k,
                forall|j: int|
                    0 <= j < k ==> crate::cards::first_value_pos(
                        self.card_mapping@,
                        (#[trigger] card_values@[j])@,
                    ) == Some(mapped@[j] as int),
            decreases len - k,
        {
            match crate::cards::find_card_value(&self.card_mapping, &card_values[k]) {
                Some(ci) => {
                    mapped.push(ci as u8);
                },
                None => {
                    return Err(GameError::CryptoVerificationError);
                },
            }
            k = k + 1;
        }
        let mut hands: Vec<crate::showdown::SeatHand> = Vec::new();
        let mut j: usize = 0;
        while j < m
            invariant
                self.wf(),
                m == seats@.len(),
                len == card_values@.len(),
                len == 5 + 2 * m,
                mapped@.len() == len,
                forall|q: int|
                    0 <= q < len ==> crate::cards::first_value_pos(
                        self.card_mapping@,
                        (#[trigger] card_values@[q])@,
                    ) == Some(mapped@[q] as int),
                0 <= j <= m,
                hands@.len() == j,
                forall|q: int|
                    0 <= q < j ==> {
                        let h = #[trigger] hands@[q];
                        &&& h.seat == seats@[q]
                        &&& h.cards@.len() == 7
                        &&& crate::cards::first_value_pos(
                            self.card_mapping@,
                            card_values@[5 + 2 * q]@,
                        ) == Some(h.cards@[0] as int)
                        &&& crate::cards::first_value_pos(
                            self.card_mapping@,
                            card_values@[5 + 2 * q + 1]@,
                        ) == Some(h.cards@[1] as int)
                        &&& forall|c: int|
                            0 <= c < 5 ==> crate::cards::first_value_pos(
                                self.card_mapping@,
                                card_values@[c]@,
                            ) == Some((#[trigger] h.cards@[2 + c]) as int)
                    },
            decreases m - j,
        {
            let mut cards: Vec<u8> = Vec::new();
            cards.push(mapped[5 + 2 * j]);
            cards.push(mapped[5 + 2 * j + 1]);
            cards.push(mapped[0]);
            cards.push(mapped[1]);
            cards.push(mapped[2]);
            cards.push(mapped[3]);
            cards.push(mapped[4]);
            hands.push(crate::showdown::SeatHand { seat: seats[j], cards });
            j = j + 1;
        }
        Ok(hands)
    }

    /// Settle the showdown: only a player may, only at SHOWDOWN with every
    /// needed card recoverable.  `beats` holds the hand evaluator's pairwise
    /// verdicts over the non-folded seats' hands in seat order; the first
    /// maximal hand wins the pot, the dealer advances and a new round begins.
    pub fn showdown(
        &mut self,
        game_id: GameId,
        caller: AccountId,
        beats: &Vec<Vec<bool>>,
        now: u64,
    ) -> (r: Result<usize, GameError>)
        requires
            old(self).wf(),
        ensures
            final(self).wf(),
            final(self).trusted_setup_params@ == old(self).trusted_setup_params@,
            final(self).card_mapping@ == old(self).card_mapping@,
            match lookup(old(self).games@, game_id) {
                None => r == Err::<usize, GameError>(GameError::NotFoundError)
                    && final(self).games@ == old(self).games@,
                Some(Game::WaitingForPlayers(_)) => r == Err::<usize, GameError>(
                    GameError::StateError,
                ) && final(self).games@ == old(self).games@,
                Some(Game::InProgress(st)) => {
                    if first_seat(st.player_account_ids@, caller@) is None {
                        r == Err::<usize, GameError>(GameError::AuthorizationError)
                            && final(self).games@ == old(self).games@
                    } else if !crate::showdown::showdown_ready(st) || crate::state::count_in(
                        st.bets@,
                    ) == 0 {
                        r == Err::<usize, GameError>(GameError::StateError) && final(self).games@
                            == old(self).games@
                    } else if !(beats@.len() == crate::state::count_in(st.bets@) && (forall|i: int|
                        0 <= i < beats@.len() ==> (#[trigger] beats@[i])@.len()
                            == beats@.len())) {
                        r == Err::<usize, GameError>(GameError::ValidationError)
                            && final(self).games@ == old(self).games@
                    } else {
                        let m = crate::state::count_in(st.bets@);
                        let seats = crate::showdown::in_seats(st.bets@, st.num_players());
                        let wpos = crate::showdown::argmax_beats(
                            Seq::new(m as nat, |i: int| beats@[i]@),
                            m,
                        );
                        let winner = seats[wpos] as int;
                        &&& r == Ok::<usize, GameError>(seats[wpos])
                        &&& match lookup(final(self).games@, game_id) {
                            Some(Game::InProgress(st2)) => {
                                &&& st2.balances@ =~= crate::betting::settled_balances(
                                    st.bets@,
                                    st.balances@,
                                    winner,
                                )
                                &&& st2.phase == Phase::SHUFFLE
                                &&& st2.dealer == crate::types::wrap1(
                                    st.dealer as int,
                                    st.num_players(),
                                )
                                &&& st2.turn == st2.dealer
                                &&& st2.ante == 0
                                &&& st2.last_modified == now
                                &&& st2.id == st.id
                                &&& st2.player_account_ids@ == st.player_account_ids@
                                &&& st2.deck@ == st.deck@
                                &&& st2.bets@ =~= Seq::<BetAmount>::new(
                                    st.num_players() as nat,
                                    |i: int| BetAmount::In(0),
                                )
                                &&& crate::chips::sum_balances(st2.balances@)
                                    == crate::chips::sum_balances(st.balances@)
                                &&& forall|c: int, p: int|
                                    0 <= c < DECK_SIZE && 0 <= p < st.num_players()
                                        ==> #[trigger] st2.token_at(c, p) is None
                            },
                            _ => false,
                        }
                        &&& forall|other: GameId|
                            other != game_id ==> #[trigger] lookup(final(self).games@, other)
                                == lookup(old(self).games@, other)
                    }
                },
            },
    {
        let idx = match self.find_game_index(game_id) {
            Some(i) => i,
            None => {
                return Err(GameError::NotFoundError);
            },
        };
        let ghost old_games = self.games@;
        proof {
            lemma_find_idx(old_games, game_id);
        }
        let entry = self.take_entry(idx);
        match entry.game {
            Game::WaitingForPlayers(l) => {
                self.put_entry(idx, GameEntry { id: game_id, game: Game::WaitingForPlayers(l) });
                proof {
                    assert(self.games@ =~= old_games);
                }
                Err(GameError::StateError)
            },
            Game::InProgress(mut st) => {
                match st.player_index(&caller) {
                    Some(_) => {},
                    None => {
                        self.put_entry(idx, GameEntry { id: game_id, game: Game::InProgress(st) });
                        proof {
                            assert(self.games@ =~= old_games);
                        }
                        return Err(GameError::AuthorizationError);
                    },
                };
                let ghost st0 = st;
                proof {
                    crate::betting::lemma_count_in_pos_le(st0.bets@, st0.num_players());
                }
                match st.apply_showdown(beats) {
                    Err(e) => {
                        self.put_entry(idx, GameEntry { id: game_id, game: Game::InProgress(st) });
                        proof {
                            assert(self.games@ =~= old_games);
                        }
                        Err(e)
                    },
                    Ok(winner) => {
                        let ghost mid = st;
                        st.last_modified = now;
                        proof {
                            assert(st.reveal_tokens_with_proofs@
                                == mid.reveal_tokens_with_proofs@);
                            assert forall|c: int, p: int|
                                0 <= c < DECK_SIZE && 0 <= p
                                    < st0.num_players() implies #[trigger] st.token_at(
                                c,
                                p,
                            ) is None by {
                                assert(mid.token_at(c, p) is None);
                            }
                        }
                        self.put_entry(idx, GameEntry { id: game_id, game: Game::InProgress(st) });
                        proof {
                            self.lemma_commit(old_games, game_id, st);
                        }
                        Ok(winner)
                    },
                }
            },
        }
    }
}


impl Default for Contract {
    /// An empty registry with no genesis records; real deployments go
    /// through `init` instead.
    fn default() -> (r: Contract)
        ensures
            r.wf(),
            r.games@.len() == 0,
            r.trusted_setup_params@.len() == 0,
            r.card_mapping@.len() == 0,
    {
        Contract {
            games: Vec::new(),
            trusted_setup_params: ParamsBuf { buf: Vec::new() },
            card_mapping: Vec::new(),
        }
    }
}

} // verus!
