use vstd::prelude::*;

verus! {

/// The parameter-binding mapper's working table: for each formal name seen so
/// far (names are interned symbols), the binding index assigned at its first
/// occurrence and the formal position of its latest occurrence.
///
/// The table is a hash map of the hosting runtime's preferred flavour; its
/// contents are visible to the verifier only through `name_table_view`.
#[verifier::external_body]
pub struct NameTable {
    inner: rustc_hash::FxHashMap<u64, (u64, u64)>,
}

/// The contents of a `NameTable`: name symbol to (binding index, formal
/// position) pair.
pub uninterp spec fn name_table_view(t: NameTable) -> Map<u64, (u64, u64)>;

impl NameTable {
    /// The table's contents, as seen in contracts.
    pub open spec fn contents(self) -> Map<u64, (u64, u64)> {
        name_table_view(self)
    }

    /// Relies on `FxHashMap::default`: a freshly built map is empty.
    #[verifier::external_body]
    pub fn new() -> (t: NameTable)
        ensures
            (t.contents() == Map::<u64, (u64, u64)>::empty()),
    {
        NameTable { inner: rustc_hash::FxHashMap::default() }
    }

    /// Relies on `HashMap::len`: the number of entries held.
    #[verifier::external_body]
    pub fn len(&self) -> (n: usize)
        ensures
            n == name_table_view(*self).dom().len(),
    {
        self.inner.len()
    }

    /// Relies on `HashMap::get`: the value stored under `name`, if any.
    #[verifier::external_body]
    pub fn lookup(&self, name: u64) -> (r: Option<(u64, u64)>)
        ensures
            r == if name_table_view(*self).dom().contains(name) {
                Some(name_table_view(*self)[name])
            } else {
                None::<(u64, u64)>
            },
    {
        self.inner.get(&name).copied()
    }

    /// Relies on `HashMap::insert`: stores `entry` under `name`, replacing any
    /// earlier entry for the same name and leaving the rest unchanged.
    #[verifier::external_body]
    pub fn insert(&mut self, name: u64, entry: (u64, u64))
        ensures
            final(self).contents() == old(self).contents().insert(name, entry),
    {
        self.inner.insert(name, entry);
    }

    /// Relies on `HashMap::iter`: visits every entry exactly once (in no
    /// stated order), so the collected vector lists each stored pair once and
    /// leaves no stored name out.
    #[verifier::external_body]
    pub fn entries(&self) -> (r: Vec<(u64, (u64, u64))>)
        ensures
            r@.len() == name_table_view(*self).dom().len(),
            forall|j: int|
                0 <= j < r@.len() ==> name_table_view(*self).contains_pair(#[trigger] r@[j].0, r@[j].1),
            forall|j1: int, j2: int| 0 <= j1 < j2 < r@.len() ==> r@[j1].0 != r@[j2].0,
            forall|name: u64|
                name_table_view(*self).dom().contains(name) ==> exists|j: int|
                    0 <= j < r@.len() && (#[trigger] r@[j]).0 == name,
    {
        self.inner.iter().map(|(k, v)| (*k, *v)).collect()
    }
}

} // verus!
