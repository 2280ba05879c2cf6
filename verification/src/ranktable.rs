use vstd::prelude::*;

use crate::perm::eq_bytes;

verus! {

/// An immutable permutation-rank table: it maps the label sequence of a
/// piece permutation (each label a small integer) to that permutation's
/// dense rank.  It is built once, from precomputed data handed in by the
/// caller, and only read afterwards; when a key was inserted twice, the
/// earliest entry wins.
pub struct RankTable {
    entries: Vec<(Vec<u8>, usize)>,
}

/// First-match lookup in an association list of label sequences.
pub open spec fn assoc_find(v: Seq<(Seq<u8>, usize)>, key: Seq<u8>) -> Option<usize>
    decreases v.len(),
{
    if v.len() == 0 {
        None
    } else if v[0].0 == key {
        Some(v[0].1)
    } else {
        assoc_find(v.skip(1), key)
    }
}

impl RankTable {
    /// The table's contents as an association list, oldest entry first.
    pub closed spec fn entries_view(self) -> Seq<(Seq<u8>, usize)> {
        self.entries@.map(|i: int, e: (Vec<u8>, usize)| (e.0@, e.1))
    }

    /// The rank stored for a key, if any.
    pub open spec fn find(self, key: Seq<u8>) -> Option<usize> {
        assoc_find(self.entries_view(), key)
    }

    /// An empty table: no key has a rank.
    pub fn new() -> (r: RankTable)
        ensures
            r.entries_view() == Seq::<(Seq<u8>, usize)>::empty(),
    {
        let r = RankTable { entries: Vec::new() };
        proof {
            assert(r.entries_view() =~= Seq::<(Seq<u8>, usize)>::empty());
        }
        r
    }

    /// Adds one key with its rank; an existing entry for the same key
    /// keeps precedence.
    pub fn insert(&mut self, key: Vec<u8>, rank: usize)
        ensures
            final(self).entries_view() == old(self).entries_view().push((key@, rank)),
    {
        let ghost oldview = self.entries_view();
        self.entries.push((key, rank));
        proof {
            assert(self.entries_view() =~= oldview.push((key@, rank)));
        }
    }

    /// How many entries the table holds.
    pub fn len(&self) -> (r: usize)
        ensures
            r == self.entries_view().len(),
    {
        self.entries.len()
    }

    /// Looks a key up, returning its stored rank if the table has it.
    pub fn lookup(&self, key: &Vec<u8>) -> (r: Option<usize>)
        ensures
            r == self.find(key@),
    {
        let n = self.entries.len();
        let mut i: usize = 0;
        proof {
            assert(self.entries_view().skip(0) =~= self.entries_view());
        }
        while i < n
            invariant
                n == self.entries@.len(),
                i <= n,
                assoc_find(self.entries_view(), key@) == assoc_find(
                    self.entries_view().skip(i as int),
                    key@,
                ),
            decreases n - i,
        {
            let ghost rest = self.entries_view().skip(i as int);
            proof {
                assert(rest[0] == self.entries_view()[i as int]);
                assert(rest.skip(1) =~= self.entries_view().skip(i + 1));
            }
            if eq_bytes(&self.entries[i].0, key) {
                return Some(self.entries[i].1);
            }
            i += 1;
        }
        proof {
            assert(self.entries_view().skip(n as int) =~= Seq::<(Seq<u8>, usize)>::empty());
        }
        None
    }
}

} // verus!
