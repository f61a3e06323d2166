use vstd::prelude::*;
use crate::types::{bytes_eq, CardValueBuf};

verus! {

/// First position of value bytes `v` in the genesis table, scanning from `k`.
pub open spec fn first_value_from(m: Seq<CardValueBuf>, v: Seq<u8>, k: int) -> Option<int>
    decreases m.len() - k,
{
    if k < 0 || k >= m.len() {
        None
    } else if m[k]@ == v {
        Some(k)
    } else {
        first_value_from(m, v, k + 1)
    }
}

/// Position of value bytes `v` in the genesis table, if present.
pub open spec fn first_value_pos(m: Seq<CardValueBuf>, v: Seq<u8>) -> Option<int> {
    first_value_from(m, v, 0)
}

/// Look a recovered card value up in the genesis table.
pub fn find_card_value(mapping: &Vec<CardValueBuf>, v: &CardValueBuf) -> (r: Option<usize>)
    ensures
        match r {
            Some(i) => first_value_pos(mapping@, v@) == Some(i as int) && i < mapping@.len(),
            None => first_value_pos(mapping@, v@) is None,
        },
{
    let n = mapping.len();
    let mut k: usize = 0;
    while k < n
        invariant
            n == mapping@.len(),
            0 <= k <= n,
            first_value_pos(mapping@, v@) == first_value_from(mapping@, v@, k as int),
        decreases n - k,
    {
        if bytes_eq(&mapping[k].buf, &v.buf) {
            return Some(k);
        }
        k = k + 1;
    }
    None
}

/// The genesis table is a bijection: no two card values share their bytes.
pub open spec fn values_distinct(m: Seq<CardValueBuf>) -> bool {
    forall|i: int, j: int| 0 <= i < j < m.len() ==> (#[trigger] m[i])@ != (#[trigger] m[j])@
}

/// Check that the genesis card values are pairwise distinct.
pub fn check_values_distinct(mapping: &Vec<CardValueBuf>) -> (r: bool)
    ensures
        r == values_distinct(mapping@),
{
    let n = mapping.len();
    let mut i: usize = 0;
    while i < n
        invariant
            n == mapping@.len(),
            0 <= i <= n,
            forall|a: int, b: int|
                0 <= a < b < n && a < i ==> (#[trigger] mapping@[a])@ != (#[trigger] mapping@[b])@,
        decreases n - i,
    {
        let mut j: usize = i + 1;
        while j < n
            invariant
                n == mapping@.len(),
                0 <= i < n,
                i < j <= n,
                forall|a: int, b: int|
                    0 <= a < b < n && a < i ==> (#[trigger] mapping@[a])@ != (
                    #[trigger] mapping@[b])@,
                forall|b: int| i < b < j ==> (#[trigger] mapping@[b])@ != mapping@[i as int]@,
            decreases n - j,
        {
            if bytes_eq(&mapping[i].buf, &mapping[j].buf) {
                return false;
            }
            j = j + 1;
        }
        i = i + 1;
    }
    true
}

/// The fixed bijection from a card identifier to its rank and suit indices
/// (thirteen ranks, two through ace; four suits).
pub fn card_id_to_rank_suit(id: u8) -> (r: (u8, u8))
    requires
        id < 52,
    ensures
        r.0 == id % 13,
        r.1 == id / 13,
        r.0 < 13,
        r.1 < 4,
{
    (id % 13, id / 13)
}

} // verus!
