use vstd::prelude::*;
use crate::types::{Balance, BetAmount};

verus! {

/// Total number of chips held across all seats.
pub open spec fn sum_balances(s: Seq<Balance>) -> int
    decreases s.len(),
{
    if s.len() == 0 {
        0
    } else {
        sum_balances(s.drop_last()) + s.last()
    }
}

/// The amount a seat has staked on the table: its recorded bet, or its whole
/// balance when it is all-in.
pub open spec fn stake_of(b: BetAmount, bal: Balance) -> int {
    match b {
        BetAmount::AllIn => bal as int,
        BetAmount::In(a) => a as int,
        BetAmount::Folded(a) => a as int,
    }
}

/// A table of empty stacks holds no chips.
pub proof fn lemma_sum_zero(s: Seq<Balance>)
    requires
        forall|i: int| 0 <= i < s.len() ==> s[i] == 0,
    ensures
        sum_balances(s) == 0,
    decreases s.len(),
{
    if s.len() > 0 {
        lemma_sum_zero(s.drop_last());
    }
}

pub proof fn lemma_sum_nonneg(s: Seq<Balance>)
    ensures
        sum_balances(s) >= 0,
    decreases s.len(),
{
    if s.len() > 0 {
        lemma_sum_nonneg(s.drop_last());
    }
}

/// One seat's balance never exceeds the total.
pub proof fn lemma_sum_single(s: Seq<Balance>, i: int)
    requires
        0 <= i < s.len(),
    ensures
        s[i] <= sum_balances(s),
    decreases s.len(),
{
    if i == s.len() - 1 {
        lemma_sum_nonneg(s.drop_last());
    } else {
        lemma_sum_single(s.drop_last(), i);
    }
}

/// Two distinct seats' balances together never exceed the total.
pub proof fn lemma_sum_pair(s: Seq<Balance>, i: int, j: int)
    requires
        0 <= i < s.len(),
        0 <= j < s.len(),
        i != j,
    ensures
        s[i] + s[j] <= sum_balances(s),
    decreases s.len(),
{
    let lo = if i < j { i } else { j };
    let hi = if i < j { j } else { i };
    if hi == s.len() - 1 {
        lemma_sum_single(s.drop_last(), lo);
    } else {
        lemma_sum_pair(s.drop_last(), lo, hi);
    }
}

/// Replacing one seat's balance shifts the total by the difference.
pub proof fn lemma_sum_update(s: Seq<Balance>, i: int, v: Balance)
    requires
        0 <= i < s.len(),
    ensures
        sum_balances(s.update(i, v)) == sum_balances(s) - s[i] + v,
    decreases s.len(),
{
    let t = s.update(i, v);
    if i == s.len() - 1 {
        assert(t.drop_last() =~= s.drop_last());
    } else {
        assert(t.drop_last() =~= s.drop_last().update(i, v));
        lemma_sum_update(s.drop_last(), i, v);
    }
}

} // verus!
