//! Sessions: one pool of connections for every archive on disk, and the
//! settings of its connections.
//!
//! The registry is owned by whoever needs it and handed to every operation.
//! It is meant to sit behind one lock, held for the time of a lookup or an
//! entry and never across the use of a pool. What a pool is, and how one is
//! built, is the caller's affair: the registry keeps what the caller's
//! builder returns.

use vstd::prelude::*;
use vstd::string::StringExecFns;

use crate::decimal::{decimal, decimal_text};

verus! {

/// The largest number of connections that a pool lends out at a time.
pub const POOL_SIZE: u32 = 16;

/// The settings that every connection is given when it is acquired.
#[derive(Clone, Copy, Debug, PartialEq, Eq, Structural)]
pub struct ConnectionOptions {
    /// Whether writes are logged ahead, so that readers are not held up by
    /// a writer.
    pub enable_wal: bool,
    /// Whether references between tables are enforced.
    pub enable_foreign_keys: bool,
    /// How long, in milliseconds, a connection waits for a lock before it
    /// gives up; `None` to give up at once.
    pub busy_timeout: Option<u128>,
}

/// The statements that put `options` into effect, in the order in which
/// they are run.
pub open spec fn statements_of(options: ConnectionOptions) -> Seq<Seq<char>> {
    (if options.enable_wal {
        seq!["PRAGMA journal_mode = WAL; PRAGMA synchronous = NORMAL;"@]
    } else {
        Seq::empty()
    }) + (if options.enable_foreign_keys {
        seq!["PRAGMA foreign_keys = ON;"@]
    } else {
        Seq::empty()
    }) + (match options.busy_timeout {
        Some(ms) => seq!["PRAGMA busy_timeout = "@ + decimal_text(ms as nat) + ";"@],
        None => Seq::empty(),
    })
}

/// The texts of a list of statements, in order.
pub open spec fn statement_texts(statements: Seq<String>) -> Seq<Seq<char>> {
    Seq::new(statements.len(), |i: int| statements[i]@)
}

impl ConnectionOptions {
    /// The settings of the connections to an archive: writes logged ahead,
    /// references enforced, and half a minute of patience for a lock.
    pub fn standard() -> (r: ConnectionOptions)
        ensures
            r == (ConnectionOptions {
                enable_wal: true,
                enable_foreign_keys: true,
                busy_timeout: Some(30_000u128),
            }),
    {
        ConnectionOptions {
            enable_wal: true,
            enable_foreign_keys: true,
            busy_timeout: Some(30_000),
        }
    }

    /// The statements to run on a connection when it is acquired.
    pub fn statements(&self) -> (r: Vec<String>)
        ensures
            statement_texts(r@) == statements_of(*self),
    {
        let mut out: Vec<String> = Vec::new();
        let ghost mut texts: Seq<Seq<char>> = Seq::empty();
        assert(statement_texts(out@) =~= texts);
        if self.enable_wal {
            out.push(String::from_str("PRAGMA journal_mode = WAL; PRAGMA synchronous = NORMAL;"));
            proof {
                texts = texts.push("PRAGMA journal_mode = WAL; PRAGMA synchronous = NORMAL;"@);
            }
            assert(statement_texts(out@) =~= texts);
        }
        if self.enable_foreign_keys {
            out.push(String::from_str("PRAGMA foreign_keys = ON;"));
            proof {
                texts = texts.push("PRAGMA foreign_keys = ON;"@);
            }
            assert(statement_texts(out@) =~= texts);
        }
        if let Some(ms) = self.busy_timeout {
            let mut statement = String::from_str("PRAGMA busy_timeout = ");
            let number = decimal(ms);
            statement.append(number.as_str());
            statement.append(";");
            proof {
                texts = texts.push(statement@);
            }
            out.push(statement);
            assert(statement_texts(out@) =~= texts);
        }
        assert(texts =~= statements_of(*self));
        out
    }
}

/// A pool with the path of the archive it serves.
struct Entry<P> {
    path: String,
    pool: P,
}

/// The pools of the archives that are open, by the path of the archive.
pub struct Registry<P> {
    entries: Vec<Entry<P>>,
}

impl<P> Registry<P> {
    /// Whether the entry at place `i` serves `path`.
    spec fn serves(&self, i: int, path: Seq<char>) -> bool {
        0 <= i < self.entries@.len() && self.entries@[i].path@ == path
    }

    /// The pools by path.
    pub closed spec fn view(&self) -> Map<Seq<char>, P> {
        Map::new(
            |path: Seq<char>| exists|i: int| self.serves(i, path),
            |path: Seq<char>| self.entries@[choose|i: int| self.serves(i, path)].pool,
        )
    }

    /// Whether the registry is well formed: no path has two pools.
    pub closed spec fn wf(&self) -> bool {
        forall|i: int, j: int|
            0 <= i < j < self.entries@.len() ==> self.entries@[i].path@ != self.entries@[j].path@
    }

    /// In a well-formed registry a path is served by one entry only.
    proof fn lemma_served_by(&self, i: int, path: Seq<char>)
        requires
            self.wf(),
            self.serves(i, path),
        ensures
            self@.contains_key(path),
            self@[path] == self.entries@[i].pool,
    {
        let chosen = choose|k: int| self.serves(k, path);
        assert(self.serves(chosen, path));
        if chosen < i {
            assert(self.entries@[chosen].path@ != self.entries@[i].path@);
        } else if i < chosen {
            assert(self.entries@[i].path@ != self.entries@[chosen].path@);
        }
    }

    /// A registry without pools.
    pub fn new() -> (r: Registry<P>)
        ensures
            r.wf(),
            r@ == Map::<Seq<char>, P>::empty(),
    {
        let r = Registry { entries: Vec::new() };
        assert(r@ =~= Map::<Seq<char>, P>::empty());
        r
    }

    /// The place of the entry that serves `path`, if there is one.
    fn find(&self, path: &String) -> (r: Option<usize>)
        requires
            self.wf(),
        ensures
            match r {
                Some(i) => self.serves(i as int, path@) && self@.contains_key(path@) && self@[path@]
                    == self.entries@[i as int].pool,
                None => !self@.contains_key(path@) && forall|i: int| !self.serves(i, path@),
            },
    {
        let mut i: usize = 0;
        while i < self.entries.len()
            invariant
                i <= self.entries@.len(),
                self.wf(),
                forall|j: int| 0 <= j < i ==> self.entries@[j].path@ != path@,
            decreases self.entries@.len() - i,
        {
            if self.entries[i].path == *path {
                proof {
                    self.lemma_served_by(i as int, path@);
                }
                return Some(i);
            }
            i += 1;
        }
        None
    }

    /// The pool of the archive at `path`, if one is kept.
    pub fn get(&self, path: &String) -> (r: Option<&P>)
        requires
            self.wf(),
        ensures
            match r {
                Some(pool) => self@.contains_key(path@) && *pool == self@[path@],
                None => !self@.contains_key(path@),
            },
    {
        match self.find(path) {
            Some(i) => Some(&self.entries[i].pool),
            None => None,
        }
    }

    /// Keeps `pool` as the pool of the archive at `path`.
    pub fn insert(&mut self, path: &String, pool: P)
        requires
            old(self).wf(),
            !old(self)@.contains_key(path@),
        ensures
            final(self).wf(),
            final(self)@ == old(self)@.insert(path@, pool),
    {
        let _ = self.append(path, pool);
    }

    /// Adds an entry for `path` and returns its place.
    fn append(&mut self, path: &String, pool: P) -> (at: usize)
        requires
            old(self).wf(),
            !old(self)@.contains_key(path@),
        ensures
            final(self).wf(),
            final(self)@ == old(self)@.insert(path@, pool),
            final(self).serves(at as int, path@),
            final(self).entries@[at as int].pool == pool,
    {
        let ghost before = *self;
        proof {
            assert forall|i: int| 0 <= i < self.entries@.len() implies self.entries@[i].path@
                != path@ by {
                if self.entries@[i].path@ == path@ {
                    self.lemma_served_by(i, path@);
                }
            }
        }
        self.entries.push(Entry { path: path.clone(), pool });
        proof {
            let after = *self;
            let n = before.entries@.len() as int;
            assert(after.wf());
            assert forall|k: Seq<char>|
                after@.contains_key(k) == before@.insert(path@, pool).contains_key(k) by {
                if after@.contains_key(k) {
                    let i = choose|i: int| after.serves(i, k);
                    if i < n {
                        assert(before.serves(i, k));
                    }
                }
                if before@.contains_key(k) {
                    let i = choose|i: int| before.serves(i, k);
                    assert(after.serves(i, k));
                }
                if k == path@ {
                    assert(after.serves(n, k));
                }
            }
            assert forall|k: Seq<char>| after@.contains_key(k) implies after@[k] == before@.insert(
                path@,
                pool,
            )[k] by {
                let i = choose|i: int| after.serves(i, k);
                after.lemma_served_by(i, k);
                if i < n {
                    assert(before.serves(i, k));
                    before.lemma_served_by(i, k);
                }
            }
            assert(after@ =~= before@.insert(path@, pool));
        }
        self.entries.len() - 1
    }

    /// The pool of the archive at `path`: the one that is kept, or else the
    /// one that `build` makes for the path, which is then kept. Where
    /// `build` fails, its error is handed on and nothing is kept. A pool
    /// that is kept is never built again.
    pub fn get_or_create<E, F: FnOnce(&String) -> Result<P, E>>(
        &mut self,
        path: &String,
        build: F,
    ) -> (r: Result<&P, E>)
        requires
            old(self).wf(),
            !old(self)@.contains_key(path@) ==> build.requires((path,)),
        ensures
            final(self).wf(),
            match r {
                Ok(pool) => {
                    &&& final(self)@.contains_key(path@)
                    &&& final(self)@[path@] == *pool
                    &&& if old(self)@.contains_key(path@) {
                        final(self)@ == old(self)@
                    } else {
                        build.ensures((path,), Ok(*pool)) && final(self)@ == old(self)@.insert(
                            path@,
                            *pool,
                        )
                    }
                },
                Err(e) => {
                    &&& !old(self)@.contains_key(path@)
                    &&& build.ensures((path,), Err(e))
                    &&& final(self)@ == old(self)@
                },
            },
    {
        let at = match self.find(path) {
            Some(at) => at,
            None => {
                let pool = match build(path) {
                    Ok(pool) => pool,
                    Err(e) => { return Err(e); },
                };
                self.append(path, pool)
            },
        };
        Ok(&self.entries[at].pool)
    }

    /// Forgets the pool of the archive at `path`, and hands it back if one
    /// was kept. An archive is to be forgotten before its file is deleted,
    /// so that no pool outlives the file it serves.
    pub fn remove(&mut self, path: &String) -> (r: Option<P>)
        requires
            old(self).wf(),
        ensures
            final(self).wf(),
            final(self)@ == old(self)@.remove(path@),
            match r {
                Some(pool) => old(self)@.contains_key(path@) && pool == old(self)@[path@],
                None => !old(self)@.contains_key(path@),
            },
    {
        let ghost before = *self;
        match self.find(path) {
            None => {
                assert(self@ =~= before@.remove(path@));
                None
            },
            Some(at) => {
                let entry = self.entries.remove(at);
                proof {
                    let after = *self;
                    assert(after.wf()) by {
                        assert forall|i: int, j: int| 0 <= i < j < after.entries@.len() implies
                            after.entries@[i].path@ != after.entries@[j].path@ by {
                            let a = if i < at { i } else { i + 1 };
                            let b = if j < at { j } else { j + 1 };
                            assert(before.entries@[a].path@ != before.entries@[b].path@);
                        }
                    }
                    assert forall|k: Seq<char>|
                        after@.contains_key(k) == before@.remove(path@).contains_key(k) by {
                        if after@.contains_key(k) {
                            let i = choose|i: int| after.serves(i, k);
                            let a = if i < at { i } else { i + 1 };
                            assert(before.serves(a, k));
                            if k == path@ {
                                assert(before.entries@[a].path@
                                    != before.entries@[at as int].path@);
                            }
                        }
                        if before@.contains_key(k) && k != path@ {
                            let i = choose|i: int| before.serves(i, k);
                            let a = if i < at { i } else { i - 1 };
                            assert(after.serves(a, k));
                        }
                    }
                    assert forall|k: Seq<char>| after@.contains_key(k) implies after@[k]
                        == before@.remove(path@)[k] by {
                        let i = choose|i: int| after.serves(i, k);
                        let a = if i < at { i } else { i + 1 };
                        after.lemma_served_by(i, k);
                        assert(before.serves(a, k));
                        before.lemma_served_by(a, k);
                    }
                    assert(after@ =~= before@.remove(path@));
                }
                Some(entry.pool)
            },
        }
    }
}

} // verus!
