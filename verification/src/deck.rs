//! The draw deck: a flat multiset of catalog indices, each index repeated as
//! many times as the catalog says copies of that kind exist. Uniform draws on
//! the deck then sample kinds weighted by their multiplicities.

use vstd::prelude::*;
use crate::tile::TileCatalog;

verus! {

/// How many times `v` occurs in `s`.
pub open spec fn occ(s: Seq<usize>, v: usize) -> nat
    decreases s.len(),
{
    if s.len() == 0 {
        0
    } else {
        occ(s.drop_last(), v) + (if s.last() == v {
            1nat
        } else {
            0nat
        })
    }
}

pub proof fn lemma_occ_push(s: Seq<usize>, x: usize, v: usize)
    ensures
        occ(s.push(x), v) == occ(s, v) + (if x == v {
            1nat
        } else {
            0nat
        }),
{
    assert(s.push(x).drop_last() =~= s);
}

/// The total number of physical copies over the catalog index range
/// `[lo, hi)`.
pub open spec fn sum_counts(c: TileCatalog, lo: int, hi: int) -> nat
    decreases hi - lo,
{
    if lo >= hi {
        0
    } else {
        sum_counts(c, lo, hi - 1) + c.spec_at(hi - 1).count as nat
    }
}

/// The first catalog index in `[lo, hi)` with a positive copy count — the
/// kind the river walk is seeded with; `hi` if the whole range is empty.
pub open spec fn first_positive(c: TileCatalog, lo: int, hi: int) -> int
    decreases hi - lo,
{
    if lo >= hi {
        hi
    } else if c.spec_at(lo).count > 0 {
        lo
    } else {
        first_positive(c, lo + 1, hi)
    }
}

/// Build the deck over the catalog range `[lo, hi)`: each index `i` in the
/// range appears exactly `count(i)` times, the entries come in nondecreasing
/// index order starting with the first positive-count kind, and the deck's
/// length is the total copy count of the range.
pub fn build_draw_deck(catalog: &TileCatalog, lo: usize, hi: usize) -> (deck: Vec<usize>)
    requires
        lo <= hi <= catalog.spec_len(),
    ensures
        deck@.len() == sum_counts(*catalog, lo as int, hi as int),
        forall|v: usize| lo <= v < hi ==> occ(deck@, v) == catalog.spec_at(v as int).count as nat,
        forall|k: int| 0 <= k < deck@.len() ==> lo <= #[trigger] deck@[k] < hi,
        forall|k: int|
            0 <= k < deck@.len() ==> catalog.spec_at(#[trigger] deck@[k] as int).count > 0,
        forall|k1: int, k2: int|
            0 <= k1 <= k2 < deck@.len() ==> #[trigger] deck@[k1] <= #[trigger] deck@[k2],
        deck@.len() > 0 ==> deck@[0] as int == first_positive(*catalog, lo as int, hi as int),
{
    let mut deck: Vec<usize> = Vec::new();
    let mut i = lo;
    while i < hi
        invariant
            lo <= i <= hi <= catalog.spec_len(),
            deck@.len() == sum_counts(*catalog, lo as int, i as int),
            forall|v: usize| lo <= v < i ==> occ(deck@, v) == catalog.spec_at(v as int).count as nat,
            forall|v: usize| i <= v ==> occ(deck@, v) == 0,
            forall|k: int| 0 <= k < deck@.len() ==> lo <= #[trigger] deck@[k] < i,
            forall|k: int|
                0 <= k < deck@.len() ==> catalog.spec_at(#[trigger] deck@[k] as int).count > 0,
            forall|k1: int, k2: int|
                0 <= k1 <= k2 < deck@.len() ==> #[trigger] deck@[k1] <= #[trigger] deck@[k2],
            deck@.len() > 0 ==> deck@[0] as int == first_positive(
                *catalog,
                lo as int,
                hi as int,
            ),
            deck@.len() == 0 ==> first_positive(*catalog, lo as int, hi as int)
                == first_positive(*catalog, i as int, hi as int),
        decreases hi - i,
    {
        let count = catalog.specs[i].count;
        let mut j: u32 = 0;
        while j < count
            invariant
                lo <= i < hi <= catalog.spec_len(),
                j <= count,
                count == catalog.spec_at(i as int).count,
                deck@.len() == sum_counts(*catalog, lo as int, i as int) + j as nat,
                occ(deck@, i) == j as nat,
                forall|v: usize|
                    lo <= v < i ==> occ(deck@, v) == catalog.spec_at(v as int).count as nat,
                forall|v: usize| i < v ==> occ(deck@, v) == 0,
                forall|k: int| 0 <= k < deck@.len() ==> lo <= #[trigger] deck@[k] <= i,
                forall|k: int|
                    0 <= k < deck@.len() ==> catalog.spec_at(#[trigger] deck@[k] as int).count > 0,
                forall|k1: int, k2: int|
                    0 <= k1 <= k2 < deck@.len() ==> #[trigger] deck@[k1] <= #[trigger] deck@[k2],
                deck@.len() > 0 ==> deck@[0] as int == first_positive(
                    *catalog,
                    lo as int,
                    hi as int,
                ),
                deck@.len() == 0 ==> first_positive(*catalog, lo as int, hi as int)
                    == first_positive(*catalog, i as int, hi as int),
            decreases count - j,
        {
            proof {
                let ghost before = deck@;
                assert forall|v: usize| true implies occ(before.push(i), v) == occ(before, v) + (
                if i == v {
                    1nat
                } else {
                    0nat
                }) by {
                    lemma_occ_push(before, i, v);
                }
            }
            deck.push(i);
            j += 1;
        }
        i += 1;
    }
    proof {
        assert forall|v: usize| lo <= v < hi implies occ(deck@, v) == catalog.spec_at(
            v as int,
        ).count as nat by {}
    }
    deck
}

} // verus!
