//! Interned symbol names.
//!
//! Function names and other names are interned once per module. IR
//! structures reference symbols by [`SymbolId`] and never copy strings.

use vstd::prelude::*;

use crate::id::SymbolId;

verus! {

/// Interning table for symbol names. Entry `i` holds the name of
/// `SymbolId(i)`.
#[derive(Debug, Clone, PartialEq, Eq, Default)]
pub struct SymbolStore {
    /// Interned names, indexed by symbol id.
    pub names: Vec<String>,
}

/// Effect of interning `name` into the table `old`, giving `new` and
/// `id`: an existing entry is reused (the first one), otherwise `name` is
/// appended.
pub open spec fn symbol_interned(old: Seq<Seq<char>>, name: Seq<char>, new: Seq<Seq<char>>, id: SymbolId) -> bool {
    &&& (exists|j: int| 0 <= j < old.len() && old[j] == name) ==> {
        &&& new == old
        &&& exists|j: int| SymbolStore::first_index_of(old, name, j) && id.0 == j as u32
    }
    &&& (forall|j: int| 0 <= j < old.len() ==> old[j] != name) ==> {
        &&& new == old.push(name)
        &&& id.0 == old.len() as u32
    }
}

/// Interning is idempotent: interning a name a second time returns the same
/// id and leaves the table unchanged.
pub proof fn law_symbol_intern_idempotent(
    old: Seq<Seq<char>>,
    name: Seq<char>,
    mid: Seq<Seq<char>>,
    first: SymbolId,
    new: Seq<Seq<char>>,
    second: SymbolId,
)
    requires
        symbol_interned(old, name, mid, first),
        symbol_interned(mid, name, new, second),
    ensures
        new == mid,
        second == first,
{
    if exists|j: int| 0 <= j < old.len() && old[j] == name {
        let j = choose|j: int| SymbolStore::first_index_of(old, name, j) && first.0 == j as u32;
        assert(mid[j] == name);
        let k = choose|k: int| SymbolStore::first_index_of(mid, name, k) && second.0 == k as u32;
        assert(j == k);
    } else {
        assert(mid[old.len() as int] == name);
        let k = choose|k: int| SymbolStore::first_index_of(mid, name, k) && second.0 == k as u32;
        assert(k == old.len());
    }
}

/// `new` keeps every entry of `old` at its index.
pub open spec fn symbols_extend(old: Seq<Seq<char>>, new: Seq<Seq<char>>) -> bool {
    &&& old.len() <= new.len()
    &&& forall|j: int| 0 <= j < old.len() ==> #[trigger] new[j] == old[j]
}

/// After interning into a table of fewer than `u32::MAX` names, the id
/// names `name` and the table keeps every earlier entry.
pub proof fn lemma_symbol_interned(old: Seq<Seq<char>>, name: Seq<char>, new: Seq<Seq<char>>, id: SymbolId)
    requires
        symbol_interned(old, name, new, id),
        old.len() < u32::MAX,
    ensures
        (id.0 as int) < new.len(),
        new[id.0 as int] == name,
        new.len() >= old.len(),
        forall|j: int| 0 <= j < old.len() ==> new[j] == old[j],
{
    if exists|j: int| 0 <= j < old.len() && old[j] == name {
        let j = choose|j: int| SymbolStore::first_index_of(old, name, j) && id.0 == j as u32;
        assert(id.0 == j);
    }
}

impl SymbolStore {
    /// The names as character sequences.
    pub open spec fn view_names(&self) -> Seq<Seq<char>> {
        self.names@.map_values(|s: String| s@)
    }

    /// `name` is stored at index `i`, and nowhere before.
    pub open spec fn first_index_of(names: Seq<Seq<char>>, name: Seq<char>, i: int) -> bool {
        &&& 0 <= i < names.len()
        &&& names[i] == name
        &&& forall|j: int| 0 <= j < i ==> names[j] != name
    }

    /// Creates an empty store.
    pub fn new() -> (r: Self)
        ensures
            r.names@.len() == 0,
    {
        SymbolStore { names: Vec::new() }
    }

    /// Index of the first entry equal to `name`.
    fn find(&self, name: &str) -> (r: Option<usize>)
        ensures
            r matches Some(i) ==> Self::first_index_of(self.view_names(), name@, i as int),
            r is None ==> forall|j: int| 0 <= j < self.names@.len() ==> self.view_names()[j] != name@,
    {
        let owned = name.to_owned();
        let mut i: usize = 0;
        while i < self.names.len()
            invariant
                i <= self.names@.len(),
                owned@ == name@,
                forall|j: int| 0 <= j < i ==> self.view_names()[j] != name@,
            decreases self.names@.len() - i,
        {
            if self.names[i] == owned {
                return Some(i);
            }
            i = i + 1;
        }
        None
    }

    /// Interns `name`, returning its canonical [`SymbolId`]: the existing
    /// entry when the name is already present, a new entry otherwise.
    pub fn intern(&mut self, name: &str) -> (r: SymbolId)
        ensures
            symbol_interned(old(self).view_names(), name@, final(self).view_names(), r),
            final(self).names@.len() == final(self).view_names().len(),
            symbols_extend(old(self).view_names(), final(self).view_names()),
            final(self).names@.len() <= u32::MAX ==> (r.0 as int) < final(self).names@.len()
                && final(self).view_names()[r.0 as int] == name@,
    {
        match self.find(name) {
            Some(i) => SymbolId::new(#[verifier::truncate] (i as u32)),
            None => {
                let id = SymbolId::new(#[verifier::truncate] (self.names.len() as u32));
                self.names.push(name.to_owned());
                proof {
                    assert(self.view_names() =~= old(self).view_names().push(name@));
                }
                id
            },
        }
    }

    /// Returns the interned ID for `name` if it already exists.
    pub fn resolve(&self, name: &str) -> (r: Option<SymbolId>)
        ensures
            r matches Some(id) ==> exists|j: int|
                Self::first_index_of(self.view_names(), name@, j) && id.0 == j as u32,
            r is None ==> forall|j: int| 0 <= j < self.names@.len() ==> self.view_names()[j] != name@,
    {
        match self.find(name) {
            Some(i) => Some(SymbolId::new(#[verifier::truncate] (i as u32))),
            None => None,
        }
    }

    /// Returns the name for `id`, or `None` if the ID is invalid.
    pub fn name(&self, id: SymbolId) -> (r: Option<&str>)
        ensures
            (id.0 as int) < self.names@.len() ==> (r matches Some(s) && s@ == self.view_names()[id.0 as int]),
            (id.0 as int) >= self.names@.len() ==> r is None,
    {
        if id.index() < self.names.len() {
            Some(self.names[id.index()].as_str())
        } else {
            None
        }
    }

    /// Number of interned symbols.
    pub fn len(&self) -> (r: usize)
        ensures
            r == self.names@.len(),
    {
        self.names.len()
    }

    /// Returns true if no symbols are interned.
    pub fn is_empty(&self) -> (r: bool)
        ensures
            r == (self.names@.len() == 0),
    {
        self.names.len() == 0
    }
}

} // verus!

verus! {

impl SymbolStore {
    /// True when `id` names an interned symbol equal to `name`.
    pub fn name_is(&self, id: SymbolId, name: &str) -> (r: bool)
        ensures
            r == ((id.0 as int) < self.names@.len() && self.view_names()[id.0 as int] == name@),
    {
        if id.index() < self.names.len() {
            let owned = name.to_owned();
            self.names[id.index()] == owned
        } else {
            false
        }
    }
}

} // verus!
