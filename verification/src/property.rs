use vstd::prelude::*;
use crate::value::Value;

verus! {

/// An own-property key of an arguments object: a stringified numeric index,
/// the `length` name, the `callee` name, or the well-known iterator symbol.
#[derive(Clone, Copy, Debug, PartialEq, Eq, Structural)]
pub enum PropertyKey {
    Index(u64),
    Length,
    Callee,
    IterSym,
}

/// A property descriptor: either a data triple or an accessor pair. The
/// accessor fields hold function references; the only accessor pair this
/// subsystem ever installs is the shared poison function on both sides, whose
/// invocation fails with a type error.
#[derive(Clone, Copy, Debug, PartialEq, Eq, Structural)]
pub enum Property {
    Data { value: Value, writable: bool, enumerable: bool, configurable: bool },
    Accessor { get: u64, set: u64, enumerable: bool, configurable: bool },
}

/// The own-property table of an object, keyed by `PropertyKey`, folded into a
/// map. Later entries win, though every table this crate builds keeps its keys
/// distinct (see `distinct_keys`).
pub open spec fn props_map(s: Seq<(PropertyKey, Property)>) -> Map<PropertyKey, Property>
    decreases s.len(),
{
    if s.len() == 0 {
        Map::empty()
    } else {
        props_map(s.drop_last()).insert(s.last().0, s.last().1)
    }
}

/// No two entries of the table share a key.
pub open spec fn distinct_keys(s: Seq<(PropertyKey, Property)>) -> bool {
    forall|i: int, j: int| 0 <= i < j < s.len() ==> s[i].0 != s[j].0
}

pub proof fn lemma_props_map_push(s: Seq<(PropertyKey, Property)>, k: PropertyKey, p: Property)
    ensures
        props_map(s.push((k, p))) == props_map(s).insert(k, p),
{
    assert(s.push((k, p)).drop_last() =~= s);
    assert(s.push((k, p)).last() == (k, p));
}

/// Every entry of a distinct-keyed table is in the folded map.
pub proof fn lemma_props_map_contains(s: Seq<(PropertyKey, Property)>, i: int)
    requires
        distinct_keys(s),
        0 <= i < s.len(),
    ensures
        props_map(s).contains_pair(s[i].0, s[i].1),
    decreases s.len(),
{
    if i == s.len() - 1 {
    } else {
        lemma_props_map_contains(s.drop_last(), i);
        assert(s.drop_last()[i] == s[i]);
        assert(s[i].0 != s.last().0);
    }
}

/// The folded map's domain is exactly the set of keys in the table.
pub proof fn lemma_props_map_dom(s: Seq<(PropertyKey, Property)>, k: PropertyKey)
    ensures
        props_map(s).dom().contains(k) <==> exists|i: int| 0 <= i < s.len() && s[i].0 == k,
    decreases s.len(),
{
    if s.len() > 0 {
        lemma_props_map_dom(s.drop_last(), k);
        if s.last().0 == k {
            assert(s[s.len() - 1].0 == k);
        } else if exists|i: int| 0 <= i < s.drop_last().len() && s.drop_last()[i].0 == k {
            let i = choose|i: int| 0 <= i < s.drop_last().len() && s.drop_last()[i].0 == k;
            assert(s[i].0 == k);
        } else if exists|i: int| 0 <= i < s.len() && s[i].0 == k {
            let i = choose|i: int| 0 <= i < s.len() && s[i].0 == k;
            assert(s.drop_last()[i].0 == k);
        }
    }
}

/// Updating the value stored at position `i` of a distinct-keyed table folds
/// to an insert on the map.
pub proof fn lemma_props_map_update(s: Seq<(PropertyKey, Property)>, i: int, p: Property)
    requires
        distinct_keys(s),
        0 <= i < s.len(),
    ensures
        props_map(s.update(i, (s[i].0, p))) == props_map(s).insert(s[i].0, p),
    decreases s.len(),
{
    let t = s.update(i, (s[i].0, p));
    if i == s.len() - 1 {
        assert(t.drop_last() =~= s.drop_last());
        assert(t.last() == (s[i].0, p));
    } else {
        assert(t.drop_last() =~= s.drop_last().update(i, (s[i].0, p)));
        assert(s.drop_last()[i] == s[i]);
        lemma_props_map_update(s.drop_last(), i, p);
        assert(t.last() == s.last());
        // the two inserts touch different keys, so they commute
        assert(s[i].0 != s.last().0);
        assert(props_map(s.drop_last()).insert(s[i].0, p).insert(s.last().0, s.last().1) =~= props_map(
            s.drop_last(),
        ).insert(s.last().0, s.last().1).insert(s[i].0, p));
    }
}

} // verus!
