use vstd::prelude::*;
use crate::name_table::NameTable;

verus! {

/// The prefix of the formal-name sequence that the mapper scans: scanning
/// stops at the argument count `len` (formals beyond the argument count have
/// no property to alias) and naturally at the end of the list.
pub open spec fn scanned_prefix(names: Seq<u64>, len: nat) -> Seq<u64> {
    if len < names.len() {
        names.take(len as int)
    } else {
        names
    }
}

/// Position `p` holds the last occurrence, within the scanned prefix `s`, of
/// the name standing there. These are exactly the property indices that stay
/// aliased: duplicate names collapse to one live alias at the highest index.
pub open spec fn aliased_at(s: Seq<u64>, p: int) -> bool {
    &&& 0 <= p < s.len()
    &&& forall|q: int| p < q < s.len() ==> s[q] != s[p]
}

/// The position of the first occurrence of `name` in `s` (meaningful only
/// when `s` contains `name`).
pub open spec fn first_occurrence(s: Seq<u64>, name: u64) -> int
    decreases s.len(),
{
    if s.len() == 0 {
        0
    } else if s.drop_last().contains(name) {
        first_occurrence(s.drop_last(), name)
    } else {
        s.len() - 1
    }
}

/// How many distinct names precede the first occurrence of `name`: the rank
/// that fixes the binding index assigned when the name is first declared
/// (environments store one slot per first declaration, in declaration order).
pub open spec fn binding_rank(s: Seq<u64>, name: u64) -> nat {
    s.take(first_occurrence(s, name)).to_set().len()
}

/// The environment binding index that the alias at property index `p`
/// addresses: the caller-supplied base offset plus the rank of the first
/// occurrence of the name standing at `p`.
pub open spec fn alias_binding(s: Seq<u64>, base: int, p: int) -> int {
    base + binding_rank(s, s[p])
}

/// The mapper's working table after scanning all of `s`: one entry per
/// distinct name, holding the binding index fixed at the name's first
/// occurrence and the position of its latest occurrence so far.
pub open spec fn scan_table(s: Seq<u64>, base: int) -> Map<u64, (int, int)>
    decreases s.len(),
{
    if s.len() == 0 {
        Map::empty()
    } else {
        let prev = scan_table(s.drop_last(), base);
        let name = s.last();
        let k = s.len() - 1;
        if prev.dom().contains(name) {
            prev.insert(name, (prev[name].0, k))
        } else {
            prev.insert(name, (base + prev.dom().len(), k))
        }
    }
}

/// What `compute_parameter_map` returns: pairs `(binding index, property
/// index)`, one per distinct name of the scanned prefix; each property index
/// is the last occurrence of its name, each aliased position is covered, and
/// the binding index is fixed by the name's first occurrence.
pub open spec fn mapper_post(prefix: Seq<u64>, base: int, r: Seq<(u64, u64)>) -> bool {
    &&& forall|j: int|
        0 <= j < r.len() ==> aliased_at(prefix, (#[trigger] r[j]).1 as int) && r[j].0 as int
            == alias_binding(prefix, base, r[j].1 as int)
    &&& forall|p: int| #[trigger] aliased_at(prefix, p) ==> exists|j: int|
        0 <= j < r.len() && (#[trigger] r[j]).1 as int == p
    &&& forall|j1: int, j2: int| 0 <= j1 < j2 < r.len() ==> r[j1].1 != r[j2].1
}

pub proof fn lemma_first_occurrence(s: Seq<u64>, name: u64)
    requires
        s.contains(name),
    ensures
        ({
            let f = first_occurrence(s, name);
            &&& 0 <= f < s.len()
            &&& s[f] == name
            &&& forall|i: int| 0 <= i < f ==> s[i] != name
        }),
    decreases s.len(),
{
    if s.drop_last().contains(name) {
        lemma_first_occurrence(s.drop_last(), name);
        let f = first_occurrence(s.drop_last(), name);
        assert(s.drop_last()[f] == name);
        assert(s[f] == name);
        assert forall|i: int| 0 <= i < f implies s[i] != name by {
            assert(s.drop_last()[i] == s[i]);
        }
    } else {
        let w = choose|w: int| 0 <= w < s.len() && s[w] == name;
        if w < s.len() - 1 {
            assert(s.drop_last()[w] == name);
        }
        assert forall|i: int| 0 <= i < s.len() - 1 implies s[i] != name by {
            if s[i] == name {
                assert(s.drop_last()[i] == name);
            }
        }
    }
}

/// Taking at most `len - 1` elements commutes with dropping the last one.
proof fn lemma_take_of_drop_last(s: Seq<u64>, k: int)
    requires
        0 <= k <= s.len() - 1,
    ensures
        s.take(k) =~= s.drop_last().take(k),
{
}

/// A name's binding rank lies strictly below the number of distinct names:
/// the names before a first occurrence never include the name itself, so the
/// environment needs only one slot per distinct name above the base offset.
pub proof fn lemma_binding_rank_below_distinct(s: Seq<u64>, name: u64)
    requires
        s.contains(name),
    ensures
        binding_rank(s, name) < s.to_set().len(),
{
    broadcast use vstd::set::group_set_axioms, vstd::seq_lib::seq_to_set_is_finite;

    lemma_first_occurrence(s, name);
    let f = first_occurrence(s, name);
    let before = s.take(f).to_set();
    assert(before.finite());
    assert(s.to_set().finite());
    assert(!before.contains(name)) by {
        if s.take(f).contains(name) {
            let i = choose|i: int| 0 <= i < s.take(f).len() && s.take(f)[i] == name;
            assert(s[i] == name);
        }
    }
    assert(before.insert(name).subset_of(s.to_set())) by {
        assert forall|x: u64| before.insert(name).contains(x) implies s.to_set().contains(x) by {
            if x != name {
                let i = choose|i: int| 0 <= i < s.take(f).len() && s.take(f)[i] == x;
                assert(s[i] == x);
            }
        }
    }
    vstd::set_lib::lemma_len_subset(before.insert(name), s.to_set());
    assert(before.insert(name).len() == before.len() + 1);
}

/// Two different names never share a last occurrence.
pub proof fn lemma_aliased_at_unique(s: Seq<u64>, p1: int, p2: int)
    requires
        aliased_at(s, p1),
        aliased_at(s, p2),
        s[p1] == s[p2],
    ensures
        p1 == p2,
{
}

/// The scan table holds one entry per distinct name of `s`; its recorded
/// position is the name's last occurrence and its binding index is `base`
/// plus the rank of the name's first occurrence.
pub proof fn lemma_scan_table(s: Seq<u64>, base: int)
    ensures
        scan_table(s, base).dom() == s.to_set(),
        forall|name: u64| #[trigger] s.to_set().contains(name) ==> {
            let e = scan_table(s, base)[name];
            &&& aliased_at(s, e.1)
            &&& s[e.1] == name
            &&& e.0 == base + binding_rank(s, name)
        },
    decreases s.len(),
{
    broadcast use vstd::set::group_set_axioms, vstd::seq_lib::seq_to_set_is_finite;

    if s.len() == 0 {
        assert(scan_table(s, base).dom() =~= s.to_set());
    } else {
        let prev = s.drop_last();
        let x = s.last();
        let n = s.len() as int;
        lemma_scan_table(prev, base);
        assert(s[n - 1] == x);
        assert forall|y: u64| s.to_set().contains(y) <==> prev.to_set().contains(y) || y == x by {
            if s.contains(y) {
                let i = choose|i: int| 0 <= i < s.len() && s[i] == y;
                if i < n - 1 {
                    assert(prev[i] == y);
                }
            }
            if prev.contains(y) {
                let i = choose|i: int| 0 <= i < prev.len() && prev[i] == y;
                assert(s[i] == y);
            }
        }
        assert(scan_table(s, base).dom() =~= s.to_set());
        assert forall|name: u64| #[trigger] s.to_set().contains(name) implies {
            let e = scan_table(s, base)[name];
            &&& aliased_at(s, e.1)
            &&& s[e.1] == name
            &&& e.0 == base + binding_rank(s, name)
        } by {
            let e = scan_table(s, base)[name];
            if name == x {
                assert(e.1 == n - 1);
                assert(aliased_at(s, n - 1));
                if prev.to_set().contains(name) {
                    // binding fixed at the earlier first occurrence
                    assert(e.0 == scan_table(prev, base)[name].0);
                    assert(first_occurrence(s, name) == first_occurrence(prev, name));
                    lemma_first_occurrence(prev, name);
                    lemma_take_of_drop_last(s, first_occurrence(prev, name));
                } else {
                    // name first occurs at the very end: rank is the number of
                    // distinct names before it
                    assert(e.0 == base + prev.to_set().len());
                    assert(first_occurrence(s, name) == n - 1);
                    assert(s.take(n - 1) =~= prev);
                }
            } else {
                assert(prev.to_set().contains(name));
                let ep = scan_table(prev, base)[name];
                assert(e == ep);
                assert(prev[ep.1] == name);
                assert(s[ep.1] == name);
                assert(aliased_at(s, ep.1)) by {
                    assert forall|q: int| ep.1 < q < n implies s[q] != name by {
                        if q < n - 1 {
                            assert(prev[q] == s[q]);
                        }
                    }
                }
                assert(first_occurrence(s, name) == first_occurrence(prev, name));
                lemma_first_occurrence(prev, name);
                lemma_take_of_drop_last(s, first_occurrence(prev, name));
            }
        }
    }
}

/// The exec table's contents agree with the ideal scan table.
spec fn table_matches(c: Map<u64, (u64, u64)>, t: Map<u64, (int, int)>) -> bool {
    &&& c.dom() == t.dom()
    &&& forall|name: u64| #[trigger] t.dom().contains(name) ==> c[name].0 as int == t[name].0
        && c[name].1 as int == t[name].1
}

/// Scans the formal names left to right, stopping at the argument count, and
/// returns the set of aliases to install: `(binding index, property index)`
/// pairs, one per distinct name scanned, in no particular order.
///
/// Binding indices are assigned in first-occurrence order starting at the
/// caller-supplied `base` offset; the property index recorded for a name is
/// its last occurrence before the scan stopped.
pub fn compute_parameter_map(formals: &Vec<u64>, len: usize, base: u64) -> (r: Vec<(u64, u64)>)
    requires
        base + scanned_prefix(formals@, len as nat).len() <= u64::MAX,
    ensures
        mapper_post(scanned_prefix(formals@, len as nat), base as int, r@),
{
    broadcast use vstd::set::group_set_axioms, vstd::seq_lib::seq_to_set_is_finite;

    let ghost prefix = scanned_prefix(formals@, len as nat);
    let m: usize = if len < formals.len() {
        len
    } else {
        formals.len()
    };
    assert(prefix =~= formals@.take(m as int));
    let mut table = NameTable::new();
    let mut k: usize = 0;
    while k < m
        invariant
            k <= m,
            m <= formals@.len(),
            prefix == formals@.take(m as int),
            prefix.len() == m,
            base + m <= u64::MAX,
            table_matches(table.contents(), scan_table(prefix.take(k as int), base as int)),
        decreases m - k,
    {
        let ghost done = prefix.take(k as int);
        let ghost next = prefix.take(k as int + 1);
        proof {
            assert(next.drop_last() =~= done);
            assert(next.last() == prefix[k as int]);
            assert(formals@[k as int] == prefix[k as int]);
            lemma_scan_table(done, base as int);
            done.lemma_cardinality_of_set();
        }
        let name = formals[k];
        let entry = match table.lookup(name) {
            Some(e) => (e.0, k as u64),
            None => (table.len() as u64 + base, k as u64),
        };
        table.insert(name, entry);
        proof {
            let t0 = scan_table(done, base as int);
            let t1 = scan_table(next, base as int);
            assert(t1 == if t0.dom().contains(name) {
                t0.insert(name, (t0[name].0, k as int))
            } else {
                t0.insert(name, (base as int + t0.dom().len(), k as int))
            });
            assert(t1.dom() =~= t0.dom().insert(name));
            assert(table.contents().dom() =~= t1.dom());
        }
        k += 1;
    }
    assert(prefix.take(m as int) =~= prefix);
    let ghost scan = scan_table(prefix, base as int);
    proof {
        lemma_scan_table(prefix, base as int);
    }
    let pairs = table.entries();
    let mut r: Vec<(u64, u64)> = Vec::new();
    let mut j: usize = 0;
    while j < pairs.len()
        invariant
            j <= pairs@.len(),
            r@.len() == j,
            forall|i: int| 0 <= i < j ==> #[trigger] r@[i] == (pairs@[i].1.0, pairs@[i].1.1),
            table_matches(table.contents(), scan),
            scan == scan_table(prefix, base as int),
            forall|i: int|
                0 <= i < pairs@.len() ==> table.contents().contains_pair(
                    (#[trigger] pairs@[i]).0,
                    pairs@[i].1,
                ),
            forall|i1: int, i2: int| 0 <= i1 < i2 < pairs@.len() ==> pairs@[i1].0 != pairs@[i2].0,
            forall|name: u64| #[trigger] table.contents().dom().contains(name) ==> exists|i: int|
                0 <= i < pairs@.len() && pairs@[i].0 == name,
        decreases pairs@.len() - j,
    {
        let (_name, entry) = pairs[j];
        r.push((entry.0, entry.1));
        j += 1;
    }
    proof {
        assert forall|i: int| 0 <= i < r@.len() implies aliased_at(prefix, (#[trigger] r@[i]).1 as int)
            && r@[i].0 as int == alias_binding(prefix, base as int, r@[i].1 as int) by {
            let name = pairs@[i].0;
            assert(table.contents().contains_pair(name, pairs@[i].1));
            assert(scan.dom().contains(name));
            assert(prefix.to_set().contains(name));
            let e = scan[name];
            assert(r@[i].1 as int == e.1);
            assert(r@[i].0 as int == e.0);
            assert(prefix[e.1] == name);
        }
        assert forall|p: int| #[trigger] aliased_at(prefix, p) implies exists|j2: int|
            0 <= j2 < r@.len() && (#[trigger] r@[j2]).1 as int == p by {
            let name = prefix[p];
            assert(prefix.to_set().contains(name));
            assert(table.contents().dom().contains(name));
            let i = choose|i: int| 0 <= i < pairs@.len() && pairs@[i].0 == name;
            assert(table.contents().contains_pair(name, pairs@[i].1));
            let e = scan[name];
            assert(pairs@[i].1 == table.contents()[name]);
            assert(aliased_at(prefix, e.1) && prefix[e.1] == name);
            lemma_aliased_at_unique(prefix, p, e.1);
            assert(r@[i].1 as int == e.1);
            assert(r@[i] == (pairs@[i].1.0, pairs@[i].1.1));
        }
        assert forall|j1: int, j2: int| 0 <= j1 < j2 < r@.len() implies r@[j1].1 != r@[j2].1 by {
            let n1 = pairs@[j1].0;
            let n2 = pairs@[j2].0;
            assert(n1 != n2);
            assert(table.contents().contains_pair(n1, pairs@[j1].1));
            assert(table.contents().contains_pair(n2, pairs@[j2].1));
            assert(prefix.to_set().contains(n1));
            assert(prefix.to_set().contains(n2));
            if r@[j1].1 == r@[j2].1 {
                let p = r@[j1].1 as int;
                assert(prefix[scan[n1].1] == n1);
                assert(prefix[scan[n2].1] == n2);
                assert(r@[j1].1 as int == scan[n1].1);
                assert(r@[j2].1 as int == scan[n2].1);
            }
        }
    }
    r
}

} // verus!
