//! A pool for variables, assigning variables with the same name the same index.

use crate::lowering::{lemma_position, lemma_position_hit, lemma_position_miss, position};
use vstd::prelude::*;

verus! {

/// A pool for variables, assigning variables with the same name the same index.
#[derive(Debug)]
pub struct Pool {
    /// The names met so far, each with its index.
    pub pool: Vec<(String, u32)>,
    /// The index that the next new name or hole gets.
    pub next_index: u32,
}

/// The names of a pool with their indices, each name as its characters.
pub open spec fn entries_view(pool: Seq<(String, u32)>) -> Seq<(Seq<char>, u32)> {
    pool.map_values(|e: (String, u32)| (e.0@, e.1))
}

/// The names of a pool, without their indices.
pub open spec fn keys(entries: Seq<(Seq<char>, u32)>) -> Seq<Seq<char>> {
    entries.map_values(|e: (Seq<char>, u32)| e.0)
}

/// The index under which a name stands in a pool, if it is there.
pub open spec fn lookup(entries: Seq<(Seq<char>, u32)>, key: Seq<char>) -> Option<u32> {
    let at = position(keys(entries), key);
    if at < entries.len() {
        Some(entries[at as int].1)
    } else {
        None
    }
}

impl Pool {
    /// The names of the pool with their indices.
    pub open spec fn entries(&self) -> Seq<(Seq<char>, u32)> {
        entries_view(self.pool@)
    }

    /// A pool without names.
    pub fn new() -> (pool: Pool)
        ensures
            pool.entries() == Seq::<(Seq<char>, u32)>::empty(),
            pool.next_index == 0,
    {
        let pool = Pool { pool: Vec::new(), next_index: 0 };
        assert(pool.entries() =~= Seq::empty());
        pool
    }

    /// The index of a name: the one it has in the pool, or the next index, with
    /// which it is then put into the pool.
    pub fn intern(&mut self, key: String) -> (r: u32)
        requires
            old(self).next_index < u32::MAX,
        ensures
            match lookup(old(self).entries(), key@) {
                Some(n) => r == n && final(self).entries() == old(self).entries()
                    && final(self).next_index == old(self).next_index,
                None => r == old(self).next_index
                    && final(self).entries() == old(self).entries().push((key@, r))
                    && final(self).next_index == r + 1,
            },
    {
        let ghost names = keys(self.entries());
        let mut i: usize = 0;
        assert(names.subrange(0, names.len() as int) =~= names);
        proof {
            lemma_position(names, key@);
        }
        while i < self.pool.len()
            invariant
                i <= self.pool.len(),
                self.pool == old(self).pool,
                self.next_index == old(self).next_index,
                names == keys(self.entries()),
                position(names, key@) == i + position(
                    names.subrange(i as int, names.len() as int),
                    key@,
                ),
            decreases self.pool.len() - i,
        {
            assert(names[i as int] == self.pool@[i as int].0@);
            if self.pool[i].0 == key {
                proof {
                    lemma_position_hit(names, key@, i as int);
                    assert(self.entries()[i as int].1 == self.pool@[i as int].1);
                }
                return self.pool[i].1;
            }
            proof {
                lemma_position_miss(names, key@, i as int);
            }
            i += 1;
        }
        let n = self.next_index;
        let ghost before = self.entries();
        let ghost text = key@;
        self.pool.push((key, n));
        self.next_index = n + 1;
        assert(self.entries() =~= before.push((text, n)));
        n
    }

    /// The next index, for a hole: no name gets it.
    pub fn intern_dummy(&mut self) -> (r: u32)
        requires
            old(self).next_index < u32::MAX,
        ensures
            r == old(self).next_index,
            final(self).next_index == r + 1,
            final(self).pool == old(self).pool,
    {
        let n = self.next_index;
        self.next_index = n + 1;
        n
    }
}

} // verus!
