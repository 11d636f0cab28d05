//! The keys of a map, in the order in which the map is walked.
use vstd::prelude::*;
use vstd::std_specs::cmp::OrdSpec;
use vstd::std_specs::iter::IteratorSpec;

use std::collections::BTreeMap;

verus! {

/// Whether every key is above those before it.
pub open spec fn ascends(keys: Seq<u32>) -> bool {
    forall|i: int, j: int| 0 <= i < j < keys.len() ==> keys[i] < keys[j]
}

/// The members of `keys`, each of them once, from the lowest to the highest.
pub open spec fn in_order(keys: Set<u32>) -> Seq<u32> {
    choose|s: Seq<u32>| ascends(s) && #[trigger] s.to_set() == keys
}

/// There is an ascending sequence of any members below `bound`.
proof fn lemma_order_exists(keys: Set<u32>, bound: nat) -> (s: Seq<u32>)
    requires
        forall|key: u32| #[trigger] keys.contains(key) ==> key < bound,
    ensures
        ascends(s),
        s.to_set() == keys,
    decreases bound,
{
    if bound == 0 {
        assert(seq![].to_set() =~= keys);
        seq![]
    } else {
        let top = (bound - 1) as u32;
        if bound - 1 == top && keys.contains(top) {
            let rest = lemma_order_exists(keys.remove(top), (bound - 1) as nat);
            let s = rest.push(top);
            assert forall|i: int| 0 <= i < rest.len() implies #[trigger] rest[i] < top by {
                assert(rest.to_set().contains(rest[i]));
            }
            assert forall|key: u32| s.to_set().contains(key) == keys.contains(key) by {
                if keys.contains(key) && key != top {
                    assert(rest.to_set().contains(key));
                    assert(s[rest.index_of(key)] == key);
                } else if key == top {
                    assert(s[rest.len() as int] == top);
                } else if s.to_set().contains(key) {
                    let i = s.index_of(key);
                    assert(rest[i] == key);
                    assert(rest.to_set().contains(key));
                }
            }
            assert(s.to_set() =~= keys);
            s
        } else {
            lemma_order_exists(keys, (bound - 1) as nat)
        }
    }
}

/// An ascending sequence is the only one of its members.
proof fn lemma_order_is_unique(s: Seq<u32>, t: Seq<u32>)
    requires
        ascends(s),
        ascends(t),
        s.to_set() == t.to_set(),
    ensures
        s == t,
    decreases s.len(),
{
    if s.len() == 0 {
        if t.len() > 0 {
            assert(t.to_set().contains(t[0]));
        }
    } else {
        assert(s.to_set().contains(s.last()));
        let i = t.index_of(s.last());
        assert(t.to_set().contains(t.last()));
        let j = s.index_of(t.last());
        assert(s.last() == t.last());
        let front = s.drop_last();
        let other = t.drop_last();
        assert forall|key: u32| front.to_set().contains(key) == other.to_set().contains(key) by {
            if front.to_set().contains(key) {
                assert(s[front.index_of(key)] == key);
                assert(t.to_set().contains(key));
                assert(other[t.index_of(key)] == key);
            }
            if other.to_set().contains(key) {
                assert(t[other.index_of(key)] == key);
                assert(s.to_set().contains(key));
                assert(front[s.index_of(key)] == key);
            }
        }
        assert(front.to_set() =~= other.to_set());
        lemma_order_is_unique(front, other);
        assert(s =~= front.push(s.last()));
        assert(t =~= other.push(t.last()));
    }
}

/// [`in_order`] ascends and has the members of the set.
pub proof fn lemma_in_order(keys: Set<u32>)
    ensures
        ascends(in_order(keys)),
        in_order(keys).to_set() == keys,
        in_order(keys).no_duplicates(),
        forall|key: u32| in_order(keys).contains(key) <==> #[trigger] keys.contains(key),
{
    let s = lemma_order_exists(keys, 0x1_0000_0000);
    let t = in_order(keys);
    assert(t.to_set() == keys);
    assert forall|key: u32| t.contains(key) <==> #[trigger] keys.contains(key) by {
        assert(t.to_set().contains(key) <==> t.contains(key));
    }
}

/// An ascending sequence is its members in order.
pub proof fn lemma_ascending_is_in_order(s: Seq<u32>)
    requires
        ascends(s),
    ensures
        in_order(s.to_set()) == s,
{
    lemma_in_order(s.to_set());
    lemma_order_is_unique(s, in_order(s.to_set()));
}

/// The keys of the map, from the lowest to the highest.
pub fn keys_of<V>(map: &BTreeMap<u32, V>) -> (r: Vec<u32>)
    ensures
        ascends(r@),
        r@.to_set() == map@.dom(),
        r@ == in_order(map@.dom()),
{
    broadcast use vstd::std_specs::btree::group_btree_axioms;
    broadcast use vstd::laws_cmp::group_laws_cmp;

    let entries = map.iter();
    let ghost all = entries.remaining();
    let ghost keys = all.map_values(|kv: (&u32, &V)| *kv.0);
    let mut r: Vec<u32> = Vec::new();
    for entry in it: entries
        invariant
            it.seq() == all,
            keys == all.map_values(|kv: (&u32, &V)| *kv.0),
            r@ == keys.take(it.index()),
    {
        assert(keys[it.index()] == *entry.0);
        r.push(*entry.0);
        assert(r@ =~= keys.take(it.index() + 1));
    }
    assert(r@ =~= keys);
    proof {
        assert forall|i: int, j: int| 0 <= i < j < keys.len() implies keys[i] < keys[j] by {
            assert(keys[i].cmp_spec(&keys[j]) is Less);
        }
        assert forall|key: u32| keys.to_set().contains(key) == map@.contains_key(key) by {
            if keys.to_set().contains(key) {
                let i = keys.index_of(key);
                assert(map@.contains_key(*all[i].0));
            }
            if map@.contains_key(key) {
                let i = all.index_of((&key, &map@[key]));
                assert(keys[i] == key);
            }
        }
        assert(keys.to_set() =~= map@.dom());
        lemma_ascending_is_in_order(keys);
    }
    r
}

} // verus!
