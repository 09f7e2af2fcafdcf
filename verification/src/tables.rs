//! Lookups in the tables keyed by asset id.

use std::collections::HashMap;
use std::collections::HashSet;
use vstd::prelude::*;
use vstd::std_specs::iter::IteratorSpec;

verus! {

/// The id of an authored asset.
pub type AssetId = u32;

/// The value stored under a key.
pub fn lookup<'a, V>(table: &'a HashMap<u32, V>, key: u32) -> (r: Option<&'a V>)
    ensures
        r is Some <==> table@.dom().contains(key),
        r matches Some(v) ==> *v == table@[key],
{
    broadcast use vstd::std_specs::hash::group_hash_axioms;

    table.get(&key)
}

/// The value stored under an entity.
pub fn lookup_entity<'a, V>(table: &'a HashMap<u64, V>, key: u64) -> (r: Option<&'a V>)
    ensures
        r is Some <==> table@.dom().contains(key),
        r matches Some(v) ==> *v == table@[key],
{
    broadcast use vstd::std_specs::hash::group_hash_axioms;

    table.get(&key)
}

/// Whether a set holds an id.
pub fn holds(set: &HashSet<u32>, key: u32) -> (r: bool)
    ensures
        r == set@.contains(key),
{
    broadcast use vstd::std_specs::hash::group_hash_axioms;

    set.contains(&key)
}

/// A list of all the keys of a table, each of them once.
pub open spec fn lists_keys(order: Seq<u32>, keys: Set<u32>) -> bool {
    order.no_duplicates() && order.to_set() == keys
}

/// The keys of a table, in the order in which it is walked.
pub fn keys_of<V>(table: &HashMap<u32, V>) -> (r: Vec<u32>)
    ensures
        lists_keys(r@, table@.dom()),
{
    broadcast use vstd::std_specs::hash::group_hash_axioms;

    let mut out: Vec<u32> = Vec::new();
    let ghost all = vstd::std_specs::hash::spec_keys_iter(table).remaining();
    for key in it: table.keys()
        invariant
            it.seq() == all,
            out@.len() == it.index(),
            forall|i: int| 0 <= i < out@.len() ==> #[trigger] out@[i] == *all[i],
    {
        out.push(*key);
    }
    assert(out@ =~= all.unref());
    out
}

/// Append a value to the list stored under a key, starting one where there is
/// none.
pub fn append_under(table: &mut HashMap<u32, Vec<usize>>, key: u32, value: usize)
    ensures
        final(table)@.dom() == old(table)@.dom().insert(key),
        final(table)@[key]@ == if old(table)@.dom().contains(key) {
            old(table)@[key]@.push(value)
        } else {
            seq![value]
        },
        forall|k: u32|
            k != key && #[trigger] old(table)@.dom().contains(k) ==> final(table)@[k] == old(
                table,
            )@[k],
{
    broadcast use vstd::std_specs::hash::group_hash_axioms;

    let ghost was = table@;
    let mut list: Vec<usize> = match table.remove(&key) {
        Some(l) => l,
        None => Vec::new(),
    };
    list.push(value);
    assert(list@ =~= if was.dom().contains(key) {
        was[key]@.push(value)
    } else {
        seq![value]
    });
    table.insert(key, list);
    assert(table@.dom() =~= was.dom().insert(key));
}

/// A copy of a list.
pub fn copied<T: Copy>(list: &Vec<T>) -> (r: Vec<T>)
    ensures
        r@ == list@,
{
    let mut out: Vec<T> = Vec::new();
    let mut i: usize = 0;
    while i < list.len()
        invariant
            i <= list@.len(),
            out@ == list@.subrange(0, i as int),
        decreases list@.len() - i,
    {
        out.push(list[i]);
        i = i + 1;
        assert(out@ =~= list@.subrange(0, i as int));
    }
    assert(out@ =~= list@);
    out
}

/// A copy of a set.
pub fn copied_set(set: &HashSet<u32>) -> (r: HashSet<u32>)
    ensures
        r@ == set@,
{
    broadcast use vstd::std_specs::hash::group_hash_axioms;

    let mut out: HashSet<u32> = HashSet::new();
    for id in it: set.iter()
        invariant
            it.seq().unref().to_set() == set@,
            out@ == it.seq().unref().subrange(0, it.index() as int).to_set(),
            it.index() == it.seq().len() ==> out@ == set@,
    {
        broadcast use vstd::std_specs::hash::group_hash_axioms;

        let ghost all = it.seq().unref();
        let ghost k = it.index() as int;
        out.insert(*id);
        proof {
            let head = all.subrange(0, k);
            let next = all.subrange(0, k + 1);
            assert(next =~= head.push(*id));
            if k + 1 == all.len() {
                assert(next =~= all);
            }
            assert(out@ =~= next.to_set()) by {
                assert forall|x: u32| out@.contains(x) <==> next.to_set().contains(x) by {
                    if head.contains(x) {
                        let i = choose|i: int| 0 <= i < head.len() && head[i] == x;
                        assert(next[i] == x);
                    }
                    assert(next[k] == *id);
                    if next.contains(x) && x != *id {
                        let i = choose|i: int| 0 <= i < next.len() && next[i] == x;
                        assert(head[i] == x);
                    }
                }
            }
        }
    }
    out
}

} // verus!
