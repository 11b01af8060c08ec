//! A table of unique names: the players, events or sites of an archive.
//!
//! A name is looked up before it is entered, so no name is entered twice.
//! The identity of a name is its place in the table, counted from one.

use vstd::prelude::*;

verus! {

/// The largest number of rows that a table holds: identities are `i32`.
pub const MAX_ROWS: usize = 0x7fff_ffff;

/// A table of unique names.
pub struct NameTable {
    names: Vec<String>,
}

/// The texts of a list of names, in order.
pub open spec fn name_texts(names: Seq<String>) -> Seq<Seq<char>> {
    Seq::new(names.len(), |i: int| names[i]@)
}

/// Whether no name occurs twice in `names`.
pub open spec fn distinct(names: Seq<Seq<char>>) -> bool {
    forall|i: int, j: int| 0 <= i < j < names.len() ==> names[i] != names[j]
}

/// Whether `names` can be the rows of a table.
pub open spec fn table_wf(names: Seq<Seq<char>>) -> bool {
    distinct(names) && names.len() <= MAX_ROWS
}

/// The identity that `name` has in `names`, or will have once entered.
pub open spec fn id_of(names: Seq<Seq<char>>, name: Seq<char>) -> int {
    if names.contains(name) {
        names.index_of(name) + 1
    } else {
        (names.len() + 1) as int
    }
}

/// The rows of a table after `name` was looked up and, if absent, entered.
pub open spec fn with_name(names: Seq<Seq<char>>, name: Seq<char>) -> Seq<Seq<char>> {
    if names.contains(name) {
        names
    } else {
        names.push(name)
    }
}

/// Looking a name up leaves a table a table, keeps every row in its place,
/// and gives the name the identity under which it is then found.
pub proof fn lemma_with_name(names: Seq<Seq<char>>, name: Seq<char>)
    requires
        distinct(names),
    ensures
        distinct(with_name(names, name)),
        names.len() <= with_name(names, name).len() <= names.len() + 1,
        forall|i: int| 0 <= i < names.len() ==> with_name(names, name)[i] == names[i],
        1 <= id_of(names, name) <= with_name(names, name).len(),
        with_name(names, name)[id_of(names, name) - 1] == name,
        id_of(with_name(names, name), name) == id_of(names, name),
{
    let after = with_name(names, name);
    if names.contains(name) {
        let at = names.index_of(name);
        assert(names[at] == name);
    } else {
        assert forall|i: int, j: int| 0 <= i < j < after.len() implies after[i] != after[j] by {
            if j == names.len() {
                assert(names[i] != name);
            }
        }
        assert(after[names.len() as int] == name);
        assert(after.contains(name));
        lemma_id_is_place(after, name, names.len() as int);
    }
}

/// In a table the identity of a name is one more than its place.
pub proof fn lemma_id_is_place(names: Seq<Seq<char>>, name: Seq<char>, at: int)
    requires
        distinct(names),
        0 <= at < names.len(),
        names[at] == name,
    ensures
        names.contains(name),
        id_of(names, name) == at + 1,
{
    assert(names.contains(name));
    let found = names.index_of(name);
    assert(names[found] == name);
    if found < at {
        assert(names[found] != names[at]);
    } else if at < found {
        assert(names[at] != names[found]);
    }
}

/// Identities last: a name that has a row keeps its row and its identity,
/// whatever is looked up or entered after it.
pub proof fn law_identity_lasts(names: Seq<Seq<char>>, name: Seq<char>, other: Seq<char>)
    requires
        distinct(names),
        names.contains(name),
    ensures
        with_name(names, other).contains(name),
        id_of(with_name(names, other), name) == id_of(names, name),
{
    let at = names.index_of(name);
    assert(names[at] == name);
    lemma_with_name(names, other);
    let after = with_name(names, other);
    assert(after[at] == name);
    lemma_id_is_place(after, name, at);
}

impl View for NameTable {
    type V = Seq<Seq<char>>;

    closed spec fn view(&self) -> Seq<Seq<char>> {
        name_texts(self.names@)
    }
}

impl NameTable {
    /// Whether the table is well formed: no name twice, and room for
    /// identities.
    pub open spec fn wf(&self) -> bool {
        table_wf(self@)
    }

    /// A table without rows.
    pub fn new() -> (r: NameTable)
        ensures
            r@ == Seq::<Seq<char>>::empty(),
            r.wf(),
    {
        let r = NameTable { names: Vec::new() };
        assert(r@ =~= Seq::<Seq<char>>::empty());
        r
    }

    /// A table whose first row is the empty name, which stands for
    /// "unspecified".
    pub fn with_sentinel() -> (r: NameTable)
        ensures
            r@ == seq![Seq::<char>::empty()],
            r.wf(),
    {
        let mut names: Vec<String> = Vec::new();
        names.push(String::new());
        let r = NameTable { names };
        assert(r@ =~= seq![Seq::<char>::empty()]);
        r
    }

    /// The number of rows.
    pub fn len(&self) -> (r: usize)
        ensures
            r == self@.len(),
    {
        self.names.len()
    }

    /// The name with identity `id`, if there is one.
    pub fn name(&self, id: i32) -> (r: Option<&String>)
        ensures
            match r {
                Some(name) => 1 <= id <= self@.len() && name@ == self@[id - 1],
                None => !(1 <= id <= self@.len()),
            },
    {
        if id >= 1 && (id as usize) <= self.names.len() {
            let name = &self.names[(id - 1) as usize];
            assert(self@[id - 1] == name@);
            Some(name)
        } else {
            None
        }
    }

    /// The identity of `name`, if it has a row.
    pub fn lookup(&self, name: &String) -> (r: Option<i32>)
        requires
            self.wf(),
        ensures
            match r {
                Some(id) => self@.contains(name@) && id == id_of(self@, name@),
                None => !self@.contains(name@),
            },
    {
        let mut i: usize = 0;
        while i < self.names.len()
            invariant
                i <= self.names@.len(),
                self.wf(),
                forall|j: int| 0 <= j < i ==> self@[j] != name@,
            decreases self.names@.len() - i,
        {
            if self.names[i] == *name {
                proof {
                    assert(self@[i as int] == name@);
                    lemma_id_is_place(self@, name@, i as int);
                }
                return Some((i + 1) as i32);
            }
            i += 1;
        }
        None
    }

    /// Looks `name` up and enters it if it is absent; either way returns its
    /// identity. `None`, with the table unchanged, where the name is absent
    /// and the table is full.
    pub fn get_or_create(&mut self, name: &String) -> (r: Option<i32>)
        requires
            old(self).wf(),
        ensures
            final(self).wf(),
            match r {
                Some(id) => final(self)@ == with_name(old(self)@, name@) && id == id_of(
                    old(self)@,
                    name@,
                ),
                None => {
                    &&& final(self)@ == old(self)@
                    &&& !old(self)@.contains(name@)
                    &&& old(self)@.len() == MAX_ROWS
                },
            },
    {
        match self.lookup(name) {
            Some(id) => Some(id),
            None => {
                if self.names.len() >= MAX_ROWS {
                    return None;
                }
                proof {
                    lemma_with_name(self@, name@);
                }
                let ghost before = self@;
                self.names.push(name.clone());
                assert(self@ =~= before.push(name@));
                Some(self.names.len() as i32)
            },
        }
    }
}

} // verus!
