//! Interned symbol names.

use vstd::prelude::*;

verus! {

/// Identifier of an interned symbol: its index in the table, as 16 bits.
#[derive(Debug, Clone, Copy, PartialEq, Eq, PartialOrd, Ord, Hash, Structural)]
pub struct SymbolId(u16);

impl SymbolId {
    /// The identifier with the given index.
    pub fn new(value: u16) -> (id: Self)
        ensures
            id.as_inner_spec() == value,
    {
        SymbolId(value)
    }

    /// The index of the identifier.
    pub closed spec fn as_inner_spec(self) -> u16 {
        self.0
    }

    /// The index of the identifier.
    pub fn as_inner(self) -> (value: u16)
        ensures
            value == self.as_inner_spec(),
    {
        self.0
    }

    /// The index of the identifier, widened.
    pub fn as_usize(self) -> (value: usize)
        ensures
            value == self.as_inner_spec() as usize,
    {
        self.0 as usize
    }
}

/// Table of interned symbol names; the index of a name is its [`SymbolId`].
pub struct SymbolTable {
    symbols: Vec<String>,
}

impl View for SymbolTable {
    /// The names, in the order they were interned.
    type V = Seq<Seq<char>>;

    closed spec fn view(&self) -> Seq<Seq<char>> {
        self.symbols@.map_values(|s: String| s@)
    }
}

/// No name occurs twice.
pub open spec fn distinct_names(names: Seq<Seq<char>>) -> bool {
    forall|i: int, j: int| 0 <= i < j < names.len() ==> names[i] != names[j]
}

impl SymbolTable {
    /// No name occurs twice in the table.
    pub closed spec fn wf(&self) -> bool {
        distinct_names(self@)
    }

    /// A well-formed table holds no name twice.
    pub proof fn lemma_wf(&self)
        requires
            self.wf(),
        ensures
            distinct_names(self@),
    {
    }

    /// An empty table.
    pub fn new() -> (table: Self)
        ensures
            table.wf(),
            table@ == Seq::<Seq<char>>::empty(),
    {
        let table = SymbolTable { symbols: Vec::new() };
        assert(table@ =~= Seq::<Seq<char>>::empty());
        table
    }

    /// The identifier of `name_query`, if it has been interned.
    pub fn resolve(&self, name_query: &str) -> (id: Option<SymbolId>)
        ensures
            match id {
                Some(id) => exists|i: int|
                    {
                        &&& 0 <= i < self@.len()
                        &&& self@[i] == name_query@
                        &&& id.as_inner_spec() == i as u16
                        &&& forall|k: int| 0 <= k < i ==> self@[k] != name_query@
                    },
                None => forall|i: int| 0 <= i < self@.len() ==> self@[i] != name_query@,
            },
    {
        let query = name_query.to_owned();
        let n = self.symbols.len();
        let mut i: usize = 0;
        while i < n
            invariant
                0 <= i <= n,
                n == self.symbols@.len(),
                query@ == name_query@,
                forall|k: int| 0 <= k < i ==> self@[k] != name_query@,
            decreases n - i,
        {
            if self.symbols[i] == query {
                proof {
                    assert(self@[i as int] == self.symbols@[i as int]@);
                }
                return Some(SymbolId(i as u16));
            }
            i += 1;
        }
        None
    }

    /// Intern `name`: its existing identifier if it is in the table, else a
    /// new identifier for it, appended to the table. Identifiers are the
    /// index truncated to 16 bits.
    pub fn intern(&mut self, name: &str) -> (id: SymbolId)
        requires
            old(self).wf(),
        ensures
            final(self).wf(),
            old(self)@.contains(name@) ==> final(self)@ == old(self)@ && exists|i: int|
                {
                    &&& 0 <= i < old(self)@.len()
                    &&& old(self)@[i] == name@
                    &&& id.as_inner_spec() == i as u16
                    &&& forall|k: int| 0 <= k < i ==> old(self)@[k] != name@
                },
            !old(self)@.contains(name@) ==> final(self)@ == old(self)@.push(name@) && id.as_inner_spec() == old(self)@.len() as u16,
    {
        match self.resolve(name) {
            Some(symbol) => {
                symbol
            },
            None => {
                let next_index = self.symbols.len();
                let ghost before = self@;
                self.symbols.push(name.to_owned());
                proof {
                    assert(self@ =~= before.push(name@));
                }
                SymbolId(next_index as u16)
            },
        }
    }

    /// Add `name` as a new symbol: its identifier if it was not in the table,
    /// `None`, with the table unchanged, if it was.
    pub fn insert_unique(&mut self, name: &str) -> (id: Option<SymbolId>)
        requires
            old(self).wf(),
        ensures
            final(self).wf(),
            old(self)@.contains(name@) ==> id is None && final(self)@ == old(self)@,
            !old(self)@.contains(name@) ==> final(self)@ == old(self)@.push(name@) && (id matches Some(
                i,
            ) && i.as_inner_spec() == old(self)@.len() as u16),
    {
        match self.resolve(name) {
            Some(_) => None,
            None => {
                let next_index = self.symbols.len();
                let ghost before = self@;
                self.symbols.push(name.to_owned());
                proof {
                    assert(self@ =~= before.push(name@));
                }
                Some(SymbolId(next_index as u16))
            },
        }
    }

    /// Whether the table is empty.
    pub fn is_empty(&self) -> (b: bool)
        ensures
            b == (self@.len() == 0),
    {
        self.symbols.len() == 0
    }

    /// Number of interned names.
    pub fn len(&self) -> (n: usize)
        ensures
            n == self@.len(),
    {
        self.symbols.len()
    }

    /// Every name with its identifier, in interning order.
    pub fn iter(&self) -> (entries: Vec<(SymbolId, &str)>)
        ensures
            entries@.len() == self@.len(),
            forall|i: int|
                0 <= i < entries@.len() ==> (#[trigger] entries@[i]).0.as_inner_spec() == i as u16
                    && entries@[i].1@ == self@[i],
    {
        let mut entries: Vec<(SymbolId, &str)> = Vec::new();
        let n = self.symbols.len();
        let mut i: usize = 0;
        while i < n
            invariant
                0 <= i <= n,
                n == self.symbols@.len(),
                entries@.len() == i,
                forall|k: int|
                    0 <= k < i ==> (#[trigger] entries@[k]).0.as_inner_spec() == k as u16
                        && entries@[k].1@ == self@[k],
            decreases n - i,
        {
            entries.push((SymbolId(i as u16), self.symbols[i].as_str()));
            i += 1;
        }
        entries
    }
}

impl Default for SymbolTable {
    /// An empty table.
    fn default() -> (table: Self)
        ensures
            table.wf(),
            table@ == Seq::<Seq<char>>::empty(),
    {
        Self::new()
    }
}

/// The names after interning `name` into `names`.
pub open spec fn interned(names: Seq<Seq<char>>, name: Seq<char>) -> Seq<Seq<char>> {
    if names.contains(name) {
        names
    } else {
        names.push(name)
    }
}

/// Interning keeps names distinct and leaves the name in the table.
pub proof fn lemma_intern_keeps_distinct(names: Seq<Seq<char>>, name: Seq<char>)
    requires
        distinct_names(names),
    ensures
        distinct_names(interned(names, name)),
        interned(names, name).contains(name),
{
    if !names.contains(name) {
        assert(interned(names, name)[names.len() as int] == name);
    }
}

/// Interning the same name twice changes nothing the second time.
pub proof fn lemma_intern_idempotent(names: Seq<Seq<char>>, name: Seq<char>)
    ensures
        interned(interned(names, name), name) == interned(names, name),
{
    if !names.contains(name) {
        assert(interned(names, name)[names.len() as int] == name);
    }
}

/// In a table without duplicates a name has a single index.
pub proof fn lemma_index_unique(names: Seq<Seq<char>>, name: Seq<char>, i: int, j: int)
    requires
        distinct_names(names),
        0 <= i < names.len(),
        0 <= j < names.len(),
        names[i] == name,
        names[j] == name,
    ensures
        i == j,
{
}

} // verus!
