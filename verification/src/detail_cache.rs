//! Memoized item-metadata lookup. The cache itself is plain data keyed by a
//! content signature; the network query that fills it on a miss is made by
//! the caller, which hands the fetched result in. A failed query is handed
//! in as `None` and leaves the cache unchanged: the item stays unknown for
//! this cycle only and is retried on the next one.

use vstd::prelude::*;

use crate::item::Detail;

verus! {

/// First entry of the cache holding the key, if any.
pub open spec fn spec_lookup(entries: Seq<(String, Detail)>, key: Seq<char>) -> Option<Detail>
    decreases entries.len(),
{
    if entries.len() == 0 {
        None
    } else if entries[0].0@ == key {
        Some(entries[0].1)
    } else {
        spec_lookup(entries.drop_first(), key)
    }
}

/// Memoized item metadata, keyed by a content signature.
pub struct DetailCache {
    pub entries: Vec<(String, Detail)>,
}

impl DetailCache {
    pub fn new() -> (c: DetailCache)
        ensures
            c.entries@ =~= Seq::<(String, Detail)>::empty(),
    {
        DetailCache { entries: Vec::new() }
    }

    pub fn lookup(&self, key: &String) -> (r: Option<Detail>)
        ensures
            r == spec_lookup(self.entries@, key@),
    {
        let mut i: usize = 0;
        proof {
            assert(self.entries@.skip(0) =~= self.entries@);
        }
        while i < self.entries.len()
            invariant
                i <= self.entries@.len(),
                spec_lookup(self.entries@, key@) == spec_lookup(
                    self.entries@.skip(i as int),
                    key@,
                ),
            decreases self.entries@.len() - i,
        {
            proof {
                assert(self.entries@.skip(i as int)[0] == self.entries@[i as int]);
                assert(self.entries@.skip(i as int).drop_first() =~= self.entries@.skip(i + 1));
            }
            if self.entries[i].0 == *key {
                return Some(self.entries[i].1.clone());
            }
            i += 1;
        }
        None
    }

    /// Return the cached entry for the key if present; otherwise store the
    /// freshly fetched metadata, if the fetch succeeded, and return it.
    pub fn get_detail(&mut self, key: &String, fetched: Option<Detail>) -> (r: Option<Detail>)
        ensures
            (match spec_lookup(old(self).entries@, key@) {
                Some(d) => r == Some(d) && final(self).entries@ == old(self).entries@,
                None => r == fetched && (match fetched {
                    Some(d) => {
                        &&& final(self).entries@.len() == old(self).entries@.len() + 1
                        &&& final(self).entries@.drop_last() == old(self).entries@
                        &&& final(self).entries@.last().0@ == key@
                        &&& final(self).entries@.last().1 == d
                    },
                    None => final(self).entries@ == old(self).entries@,
                }),
            }),
    {
        let cached = self.lookup(key);
        match cached {
            Some(d) => Some(d),
            None => {
                match fetched {
                    Some(d) => {
                        let r = Some(d.clone());
                        self.entries.push((key.clone(), d));
                        proof {
                            assert(self.entries@.drop_last() =~= old(self).entries@);
                        }
                        r
                    },
                    None => None,
                }
            },
        }
    }
}

} // verus!
