use vstd::prelude::*;

verus! {

/// Chip amounts.  Balances are conserved in total across all transfers.
pub type Balance = u128;

/// Number of cards in a full deck.
pub const DECK_SIZE: usize = 52;

/// Stake the seat one past the dealer must post when the blind phase opens.
pub const LITTLE_BLIND_AMOUNT: Balance = 5;

/// Stake the seat two past the dealer must post.
pub const BIG_BLIND_AMOUNT: Balance = 10;

/// A lobby older than this (milliseconds) counts as stale and may be evicted.
pub const LOBBY_STALE_MS: u64 = 20 * 60 * 1000;

/// An in-progress game unmodified for longer than this (milliseconds) counts
/// as stale and may be evicted.
pub const GAME_STALE_MS: u64 = 3600 * 1000;

/// Fixed-width game identifier: four decimal digits drawn from secure
/// randomness, unique among live games at any instant.
#[derive(Clone, Copy, PartialEq, Eq, Structural, Debug)]
pub struct GameId {
    pub d0: u8,
    pub d1: u8,
    pub d2: u8,
    pub d3: u8,
}

/// A participant identity as the host environment reports it (an account
/// name, kept as raw bytes).
#[derive(Clone, Debug, PartialEq, Eq)]
pub struct AccountId {
    pub bytes: Vec<u8>,
}

impl View for AccountId {
    type V = Seq<u8>;

    open spec fn view(&self) -> Seq<u8> {
        self.bytes@
    }
}

/// Serialized public parameters of the card protocol (opaque to the game
/// logic; produced once by the trusted setup).
#[derive(Clone, Debug, PartialEq, Eq)]
pub struct ParamsBuf {
    pub buf: Vec<u8>,
}

impl View for ParamsBuf {
    type V = Seq<u8>;

    open spec fn view(&self) -> Seq<u8> {
        self.buf@
    }
}

/// A serialized protocol public key (opaque to the game logic).
#[derive(Clone, Debug, PartialEq, Eq)]
pub struct PublicKeyBuf {
    pub buf: Vec<u8>,
}

impl View for PublicKeyBuf {
    type V = Seq<u8>;

    open spec fn view(&self) -> Seq<u8> {
        self.buf@
    }
}

/// A serialized masked (encrypted) card (opaque to the game logic).
#[derive(Clone, Debug, PartialEq, Eq)]
pub struct MaskedCardBuf {
    pub buf: Vec<u8>,
}

impl View for MaskedCardBuf {
    type V = Seq<u8>;

    open spec fn view(&self) -> Seq<u8> {
        self.buf@
    }
}

/// A serialized reveal token together with its proof (opaque to the game
/// logic; one per card per seat).
#[derive(Clone, Debug, PartialEq, Eq)]
pub struct RevealTokenBuf {
    pub buf: Vec<u8>,
}

impl View for RevealTokenBuf {
    type V = Seq<u8>;

    open spec fn view(&self) -> Seq<u8> {
        self.buf@
    }
}

/// A serialized plaintext card value: one of the 52 group elements fixed at
/// genesis (opaque to the game logic, compared only for equality).
#[derive(Clone, Debug, PartialEq, Eq)]
pub struct CardValueBuf {
    pub buf: Vec<u8>,
}

impl View for CardValueBuf {
    type V = Seq<u8>;

    open spec fn view(&self) -> Seq<u8> {
        self.buf@
    }
}

/// Everything that can go wrong with a call.  Every failure aborts the whole
/// step: the caller observes the error and no state was mutated.
#[derive(Clone, Copy, PartialEq, Eq, Structural, Debug)]
pub enum GameError {
    /// Wrong caller for a creator- or turn-restricted action, or a
    /// key-ownership proof that does not verify.
    AuthorizationError,
    /// Action invalid for the current phase or bet state.
    StateError,
    /// Unknown game identifier.
    NotFoundError,
    /// Already joined, or already revealed this step.
    DuplicateError,
    /// Malformed action combination, wrong card count, wrong deck size.
    ValidationError,
    /// A shuffle or reveal proof failed verification, or a card value could
    /// not be recovered.
    CryptoVerificationError,
}

/// The game lifecycle phases; see the transition graph on `phase_edge`.
#[allow(non_camel_case_types)]
#[derive(Clone, Copy, PartialEq, Eq, Structural, Debug)]
pub enum Phase {
    SHUFFLE,
    DEAL,
    BLIND,
    BET0,
    FLOP,
    BET1,
    TURN,
    BET2,
    RIVER,
    BET3,
    SHOWDOWN_REVEAL,
    SHOWDOWN,
}

/// Per-seat bet state during a round.
#[derive(Clone, Copy, PartialEq, Eq, Structural, Debug)]
pub enum BetAmount {
    /// The seat is all-in: its whole balance is staked.
    AllIn,
    /// The seat has bet the given amount, is not all-in and has not folded.
    In(Balance),
    /// The seat folded with the given amount still on the table.
    Folded(Balance),
}

/// Compare two byte strings for equality.
pub fn bytes_eq(a: &Vec<u8>, b: &Vec<u8>) -> (r: bool)
    ensures
        r == (a@ == b@),
{
    if a.len() != b.len() {
        assert(a@ != b@);
        return false;
    }
    let n = a.len();
    let mut i: usize = 0;
    while i < n
        invariant
            n == a@.len() == b@.len(),
            0 <= i <= n,
            forall|k: int| 0 <= k < i ==> a@[k] == b@[k],
        decreases n - i,
    {
        if a[i] != b[i] {
            assert(a@ != b@);
            return false;
        }
        i = i + 1;
    }
    assert(a@ =~= b@);
    true
}

/// Copy a byte string.
pub fn copy_bytes(v: &Vec<u8>) -> (r: Vec<u8>)
    ensures
        r@ == v@,
{
    let n = v.len();
    let mut r: Vec<u8> = Vec::new();
    let mut i: usize = 0;
    while i < n
        invariant
            n == v@.len(),
            0 <= i <= n,
            r@ == v@.subrange(0, i as int),
        decreases n - i,
    {
        r.push(v[i]);
        assert(r@ =~= v@.subrange(0, i as int + 1));
        i = i + 1;
    }
    assert(r@ =~= v@);
    r
}

/// The seat after `s` at a table of `n` seats, wrapping around.
pub open spec fn wrap1(s: int, n: int) -> int {
    if s + 1 >= n {
        0
    } else {
        s + 1
    }
}

/// The seat `k` steps past `s`, wrapping around.
pub open spec fn seat_plus(s: int, k: nat, n: int) -> int
    decreases k,
{
    if k == 0 {
        s
    } else {
        wrap1(seat_plus(s, (k - 1) as nat, n), n)
    }
}

/// The seat after `s`, executable form.
pub fn wrap_next(s: usize, n: usize) -> (r: usize)
    requires
        n >= 1,
        s < n,
    ensures
        r == wrap1(s as int, n as int),
        r < n,
{
    if s + 1 == n {
        0
    } else {
        s + 1
    }
}

} // verus!
