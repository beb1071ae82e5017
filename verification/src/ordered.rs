//! Maps keyed by actor ids, walked in ascending order of the ids.
use std::collections::BTreeMap;
use vstd::prelude::*;
use vstd::std_specs::cmp::OrdSpec;
use vstd::std_specs::iter::IteratorSpec;

verus! {

broadcast use {vstd::std_specs::btree::group_btree_axioms, vstd::laws_cmp::group_laws_cmp};

/// Whether ids go up strictly.
pub open spec fn ascending(ids: Seq<usize>) -> bool {
    forall|i: int, j: int| 0 <= i < j < ids.len() ==> ids[i] < ids[j]
}

/// Whether `ids` are the keys of a map, each once and in ascending order.
pub open spec fn lists_keys<V>(ids: Seq<usize>, map: Map<usize, V>) -> bool {
    &&& ascending(ids)
    &&& ids.to_set() == map.dom()
}

/// The order in which a map is walked is that of the numbers.
proof fn lemma_increasing(ids: Seq<usize>)
    requires
        vstd::std_specs::btree::increasing_seq(ids),
    ensures
        ascending(ids),
{
    assert forall|i: int, j: int| 0 <= i < j < ids.len() implies ids[i] < ids[j] by {
        assert(ids[i].cmp_spec(&ids[j]) is Less);
    }
}

/// The keys of a map in ascending order.
pub fn keys_in_order<V>(map: &BTreeMap<usize, V>) -> (ids: Vec<usize>)
    ensures
        lists_keys(ids@, map@),
{
    let mut ids: Vec<usize> = Vec::new();
    let entries = map.iter();
    let ghost all = entries.remaining();
    let ghost keys = all.map_values(|kv: (&usize, &V)| *kv.0);
    for entry in it: entries
        invariant
            it.seq() == all,
            keys == all.map_values(|kv: (&usize, &V)| *kv.0),
            ids@ == keys.take(it.index() as int),
    {
        ids.push(*entry.0);
        proof {
            assert(keys.take(it.index() + 1) =~= keys.take(it.index() as int).push(
                keys[it.index() as int],
            ));
        }
    }
    proof {
        assert(keys.take(keys.len() as int) =~= keys);
        lemma_increasing(keys);
        assert forall|k: usize| ids@.contains(k) implies map@.contains_key(k) by {
            let i = choose|i: int| 0 <= i < ids@.len() && ids@[i] == k;
            assert(map@.contains_key(*all[i].0));
        }
        assert forall|k: usize| map@.contains_key(k) implies ids@.contains(k) by {
            assert(all.contains((&k, &map@[k])));
            let i = choose|i: int| 0 <= i < all.len() && all[i] == (&k, &map@[k]);
            assert(ids@[i] == k);
        }
        assert(ids@.to_set() =~= map@.dom());
    }
    ids
}

/// A set of ids below `n` has at most `n` members, and all of them are there
/// as soon as it has `n`.
pub proof fn lemma_ids_below(ids: Set<usize>, n: nat)
    requires
        ids.finite(),
        forall|id: usize| #[trigger] ids.contains(id) ==> id < n,
    ensures
        ids.len() <= n,
        ids.len() == n ==> forall|id: usize| id < n ==> #[trigger] ids.contains(id),
    decreases n,
{
    if n == 0 {
        assert(ids =~= Set::<usize>::empty());
    } else if n - 1 <= usize::MAX {
        let top: usize = (n - 1) as usize;
        let rest = ids.remove(top);
        assert forall|id: usize| #[trigger] rest.contains(id) implies id < n - 1 by {
            assert(ids.contains(id));
        }
        lemma_ids_below(rest, (n - 1) as nat);
        if ids.len() == n {
            assert(ids.contains(top));
            assert forall|id: usize| id < n implies #[trigger] ids.contains(id) by {
                if id != top {
                    assert(rest.contains(id));
                }
            }
        }
    } else {
        assert forall|id: usize| #[trigger] ids.contains(id) implies id < n - 1 by {}
        lemma_ids_below(ids, (n - 1) as nat);
    }
}

/// There is only one way to list the keys of a map in ascending order.
pub proof fn listing_is_unique<V>(a: Seq<usize>, b: Seq<usize>, map: Map<usize, V>)
    requires
        lists_keys(a, map),
        lists_keys(b, map),
    ensures
        a == b,
{
    lemma_ascending_determined(a, b);
}

proof fn lemma_ascending_determined(a: Seq<usize>, b: Seq<usize>)
    requires
        ascending(a),
        ascending(b),
        a.to_set() == b.to_set(),
    ensures
        a == b,
    decreases a.len(),
{
    if a.len() == 0 {
        if b.len() > 0 {
            assert(b.to_set().contains(b[0]));
            assert(a.to_set().contains(b[0]));
        }
        assert(a =~= b);
    } else {
        assert(a.to_set().contains(a.last()));
        assert(b.to_set().contains(a.last()));
        let j = choose|j: int| 0 <= j < b.len() && b[j] == a.last();
        assert(b.to_set().contains(b.last()));
        assert(a.to_set().contains(b.last()));
        let i = choose|i: int| 0 <= i < a.len() && a[i] == b.last();
        assert(a.last() == b.last());
        let x = a.drop_last();
        let y = b.drop_last();
        assert forall|k: usize| #[trigger] x.to_set().contains(k) <==> y.to_set().contains(k) by {
            if x.to_set().contains(k) {
                let p = choose|p: int| 0 <= p < x.len() && x[p] == k;
                assert(a[p] == k);
                assert(a.to_set().contains(k));
                assert(b.to_set().contains(k));
                let q = choose|q: int| 0 <= q < b.len() && b[q] == k;
                assert(y[q] == k);
            }
            if y.to_set().contains(k) {
                let p = choose|p: int| 0 <= p < y.len() && y[p] == k;
                assert(b[p] == k);
                assert(b.to_set().contains(k));
                assert(a.to_set().contains(k));
                let q = choose|q: int| 0 <= q < a.len() && a[q] == k;
                assert(x[q] == k);
            }
        }
        assert(x.to_set() =~= y.to_set());
        lemma_ascending_determined(x, y);
        assert(a =~= x.push(a.last()));
        assert(b =~= y.push(b.last()));
    }
}

/// A listing of a map's keys names every key of the map, no other, each once,
/// and smaller ones first.
pub proof fn listings_name_every_key<V>(ids: Seq<usize>, map: Map<usize, V>, id: usize)
    requires
        lists_keys(ids, map),
    ensures
        map.contains_key(id) <==> exists|i: int| 0 <= i < ids.len() && (#[trigger] ids[i]) == id,
        forall|i: int, j: int| 0 <= i < j < ids.len() ==> ids[i] < ids[j],
        ids.len() == map.len(),
{
    assert(map.dom().contains(id) <==> ids.to_set().contains(id));
    assert(ids.to_set().contains(id) <==> ids.contains(id));
    assert(ids.no_duplicates());
    ids.unique_seq_to_set();
}

} // verus!
