//! The radius filter: which records lie within a given distance of the
//! search point.
//!
//! The spherical distance itself is floating-point work that the caller
//! performs; the caller hands one distance key per record.  A distance key
//! is any order-preserving integer encoding of the distances (a greater key
//! means a greater distance, an equal key an equal distance), so comparing
//! keys decides exactly what comparing distances would.  The filter keeps
//! each record whose key is at most the radius key, in input order.

use vstd::prelude::*;

use crate::wca::Competition;

verus! {

/// The pairs `(index, key)` of the records whose distance key is at most
/// the radius key, in input order.
pub open spec fn within_selection(keys: Seq<u64>, radius_key: u64) -> Seq<(usize, u64)>
    decreases keys.len(),
{
    if keys.len() == 0 {
        Seq::empty()
    } else {
        let prefix = within_selection(keys.drop_last(), radius_key);
        if keys.last() <= radius_key {
            prefix.push((((keys.len() - 1) as usize), keys.last()))
        } else {
            prefix
        }
    }
}

/// A pair is selected exactly when it indexes a record whose key is within
/// the radius key.
pub proof fn lemma_within_selection_characterized(keys: Seq<u64>, radius_key: u64)
    requires
        keys.len() <= usize::MAX,
    ensures
        forall|p: (usize, u64)| #[trigger]
            within_selection(keys, radius_key).contains(p) <==> (p.0 < keys.len() && keys[p.0 as int]
                == p.1 && p.1 <= radius_key),
    decreases keys.len(),
{
    if keys.len() > 0 {
        lemma_within_selection_characterized(keys.drop_last(), radius_key);
        let prefix = within_selection(keys.drop_last(), radius_key);
        let last = (((keys.len() - 1) as usize), keys.last());
        assert forall|p: (usize, u64)|
            #[trigger] within_selection(keys, radius_key).contains(p) implies (p.0 < keys.len()
            && keys[p.0 as int] == p.1 && p.1 <= radius_key) by {
            if keys.last() <= radius_key {
                assert(within_selection(keys, radius_key) == prefix.push(last));
                if p == last {
                } else {
                    assert(prefix.contains(p));
                    assert(keys.drop_last()[p.0 as int] == keys[p.0 as int]);
                }
            } else {
                assert(keys.drop_last()[p.0 as int] == keys[p.0 as int]);
            }
        }
        assert forall|p: (usize, u64)|
            (p.0 < keys.len() && keys[p.0 as int] == p.1 && p.1
                <= radius_key) implies #[trigger] within_selection(keys, radius_key).contains(
            p,
        ) by {
            if p.0 + 1 == keys.len() {
                assert(p == last);
                assert(within_selection(keys, radius_key) == prefix.push(last));
                assert(prefix.push(last)[prefix.len() as int] == last);
            } else {
                assert(keys.drop_last()[p.0 as int] == keys[p.0 as int]);
                assert(prefix.contains(p));
                if keys.last() <= radius_key {
                    let j = choose|j: int| 0 <= j < prefix.len() && prefix[j] == p;
                    assert(prefix.push(last)[j] == p);
                }
            }
        }
    }
}

/// Enlarging the radius never removes a selected record: the selection for
/// a smaller radius key is contained in the selection for a larger one.
pub proof fn lemma_within_selection_monotonic(keys: Seq<u64>, smaller: u64, larger: u64)
    requires
        keys.len() <= usize::MAX,
        smaller <= larger,
    ensures
        forall|p: (usize, u64)| #[trigger]
            within_selection(keys, smaller).contains(p) ==> within_selection(
                keys,
                larger,
            ).contains(p),
{
    lemma_within_selection_characterized(keys, smaller);
    lemma_within_selection_characterized(keys, larger);
}

/// When no key lies below the radius key, exactly the records whose key
/// equals it are selected, in both directions: with the key of distance
/// zero as radius, the records at distance exactly zero and no others
/// remain.
pub proof fn lemma_within_selection_floor(keys: Seq<u64>, radius_key: u64)
    requires
        keys.len() <= usize::MAX,
        forall|i: int| 0 <= i < keys.len() ==> #[trigger] keys[i] >= radius_key,
    ensures
        forall|p: (usize, u64)| #[trigger]
            within_selection(keys, radius_key).contains(p) ==> p.1 == radius_key,
        forall|i: int|
            0 <= i < keys.len() && #[trigger] keys[i] == radius_key ==> within_selection(
                keys,
                radius_key,
            ).contains(((i as usize), radius_key)),
{
    lemma_within_selection_characterized(keys, radius_key);
}

/// Pairs each record within the radius with its distance key, in input
/// order.  `distance_keys` holds one key per record; `radius_key` is the
/// key of the radius.  The result is exactly [`within_selection`] on the
/// keys: the pairs `(index, key)` of the records whose key is at most the
/// radius key.
pub fn find_competitions_within_distance(
    competitions: &Vec<Competition>,
    distance_keys: &Vec<u64>,
    radius_key: u64,
) -> (r: Vec<(usize, u64)>)
    requires
        distance_keys@.len() == competitions@.len(),
    ensures
        r@ == within_selection(distance_keys@, radius_key),
{
    let mut r: Vec<(usize, u64)> = Vec::new();
    let n = distance_keys.len();
    let mut i: usize = 0;
    proof {
        assert(distance_keys@.subrange(0, 0) =~= Seq::<u64>::empty());
    }
    while i < n
        invariant
            i <= n,
            n == distance_keys@.len(),
            r@ == within_selection(distance_keys@.subrange(0, i as int), radius_key),
        decreases n - i,
    {
        let key = distance_keys[i];
        proof {
            let sub = distance_keys@.subrange(0, i + 1);
            assert(sub.drop_last() =~= distance_keys@.subrange(0, i as int));
            assert(sub.last() == distance_keys@[i as int]);
        }
        if key <= radius_key {
            r.push((i, key));
        }
        i += 1;
    }
    proof {
        assert(distance_keys@.subrange(0, n as int) =~= distance_keys@);
    }
    r
}

} // verus!
