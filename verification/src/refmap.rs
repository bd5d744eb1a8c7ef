//! The reference map of one peer: an unordered mapping from reference
//! name to object identifier, held as a vector of entries with
//! pairwise-distinct names and abstracted to a mathematical map from
//! name bytes to identifier bytes.

use vstd::prelude::*;

use crate::bytes::bytes_eq;

verus! {

/// One reference: a name pointing to an object identifier, both held
/// as their wire bytes.
#[derive(Debug, Clone)]
pub struct RefEntry {
    pub name: Vec<u8>,
    pub id: Vec<u8>,
}

/// No two entries carry the same name.
pub open spec fn ref_entries_wf(s: Seq<RefEntry>) -> bool {
    forall|i: int, j: int| 0 <= i < j < s.len() ==> s[i].name@ != s[j].name@
}

/// Some entry carries the name `n`.
pub open spec fn ref_entries_has(s: Seq<RefEntry>, n: Seq<u8>) -> bool {
    exists|i: int| 0 <= i < s.len() && s[i].name@ == n
}

/// Some entry points at the identifier `v`.
pub open spec fn ref_entries_has_value(s: Seq<RefEntry>, v: Seq<u8>) -> bool {
    exists|i: int| 0 <= i < s.len() && s[i].id@ == v
}

/// The mathematical map an entry list denotes.
pub open spec fn ref_entries_map(s: Seq<RefEntry>) -> Map<Seq<u8>, Seq<u8>> {
    Map::new(
        |n: Seq<u8>| ref_entries_has(s, n),
        |n: Seq<u8>| s[choose|i: int| 0 <= i < s.len() && s[i].name@ == n].id@,
    )
}

/// With distinct names, the entry index a name denotes is the one any
/// witness gives.
proof fn lemma_ref_witness_unique(s: Seq<RefEntry>, n: Seq<u8>, i: int)
    requires
        ref_entries_wf(s),
        0 <= i < s.len(),
        s[i].name@ == n,
    ensures
        ref_entries_has(s, n),
        (choose|j: int| 0 <= j < s.len() && s[j].name@ == n) == i,
{
    assert(ref_entries_has(s, n)) by {
        assert(0 <= i < s.len() && s[i].name@ == n);
    }
    let j = choose|j: int| 0 <= j < s.len() && s[j].name@ == n;
    if i < j {
        assert(s[i].name@ != s[j].name@);
    } else if j < i {
        assert(s[j].name@ != s[i].name@);
    }
}

/// Replacing the entry that already carries `e.name` makes the map
/// insert of `e`.
proof fn lemma_ref_entries_update(s: Seq<RefEntry>, i: int, e: RefEntry)
    requires
        ref_entries_wf(s),
        0 <= i < s.len(),
        s[i].name@ == e.name@,
    ensures
        ref_entries_wf(s.update(i, e)),
        ref_entries_map(s.update(i, e)) == ref_entries_map(s).insert(e.name@, e.id@),
{
    let t = s.update(i, e);
    assert forall|a: int, b: int| 0 <= a < b < t.len() implies t[a].name@ != t[b].name@ by {
        assert(s[a].name@ != s[b].name@);
    }
    assert forall|n: Seq<u8>| ref_entries_has(t, n) implies ref_entries_has(s, n) by {
        let k = choose|k: int| 0 <= k < t.len() && t[k].name@ == n;
        if k == i {
            assert(s[i].name@ == n);
        } else {
            assert(s[k].name@ == n);
        }
    }
    assert forall|n: Seq<u8>| ref_entries_has(s, n) implies ref_entries_has(t, n) by {
        let k = choose|k: int| 0 <= k < s.len() && s[k].name@ == n;
        if k == i {
            assert(t[i].name@ == n);
        } else {
            assert(t[k].name@ == n);
        }
    }
    assert forall|n: Seq<u8>| ref_entries_has(t, n) implies ref_entries_map(t)[n]
        == ref_entries_map(s).insert(e.name@, e.id@)[n] by {
        if n == e.name@ {
            lemma_ref_witness_unique(t, n, i);
        } else {
            let k = choose|k: int| 0 <= k < s.len() && s[k].name@ == n;
            assert(k != i);
            lemma_ref_witness_unique(t, n, k);
        }
    }
    assert(ref_entries_map(t) =~= ref_entries_map(s).insert(e.name@, e.id@));
}

/// Appending an entry for a name not yet carried makes the map insert
/// of that entry.
proof fn lemma_ref_entries_push(s: Seq<RefEntry>, e: RefEntry)
    requires
        ref_entries_wf(s),
        !ref_entries_has(s, e.name@),
    ensures
        ref_entries_wf(s.push(e)),
        ref_entries_map(s.push(e)) == ref_entries_map(s).insert(e.name@, e.id@),
{
    let t = s.push(e);
    assert forall|a: int, b: int| 0 <= a < b < t.len() implies t[a].name@ != t[b].name@ by {
        if b == s.len() as int {
            if t[a].name@ == e.name@ {
                assert(s[a].name@ == e.name@);
                assert(ref_entries_has(s, e.name@)) by {
                    assert(0 <= a < s.len() && s[a].name@ == e.name@);
                }
            }
        } else {
            assert(s[a].name@ != s[b].name@);
        }
    }
    assert forall|n: Seq<u8>| ref_entries_has(t, n) implies ref_entries_map(t)[n]
        == ref_entries_map(s).insert(e.name@, e.id@)[n] by {
        if n == e.name@ {
            lemma_ref_witness_unique(t, n, s.len() as int);
        } else {
            let k = choose|k: int| 0 <= k < t.len() && t[k].name@ == n;
            assert(k < s.len());
            assert(s[k].name@ == n);
            lemma_ref_witness_unique(t, n, k);
        }
    }
    assert forall|n: Seq<u8>| ref_entries_has(s, n) implies ref_entries_has(t, n) by {
        let k = choose|k: int| 0 <= k < s.len() && s[k].name@ == n;
        assert(t[k].name@ == n);
    }
    assert forall|n: Seq<u8>| ref_entries_has(t, n) && n != e.name@ implies ref_entries_has(
        s,
        n,
    ) by {
        let k = choose|k: int| 0 <= k < t.len() && t[k].name@ == n;
        assert(k < s.len());
        assert(s[k].name@ == n);
    }
    assert(ref_entries_has(t, e.name@)) by {
        assert(t[s.len() as int].name@ == e.name@);
    }
    assert(ref_entries_map(t) =~= ref_entries_map(s).insert(e.name@, e.id@));
}

/// A reference map: unique names, unordered, read-only after parsing.
#[derive(Debug, Clone)]
pub struct RefMap {
    pub entries: Vec<RefEntry>,
}

impl View for RefMap {
    type V = Map<Seq<u8>, Seq<u8>>;

    open spec fn view(&self) -> Map<Seq<u8>, Seq<u8>> {
        ref_entries_map(self.entries@)
    }
}

impl RefMap {
    /// No two entries carry the same name.
    pub open spec fn wf(self) -> bool {
        ref_entries_wf(self.entries@)
    }

    /// An empty reference map.
    pub fn new() -> (r: RefMap)
        ensures
            r.wf(),
            r@ == Map::<Seq<u8>, Seq<u8>>::empty(),
            r.entries@.len() == 0,
    {
        let r = RefMap { entries: Vec::new() };
        proof {
            assert(r@ =~= Map::<Seq<u8>, Seq<u8>>::empty());
        }
        r
    }

    /// The number of references held.
    pub fn len(&self) -> (r: usize)
        ensures
            r == self.entries@.len(),
            (r == 0) == (self@ =~= Map::<Seq<u8>, Seq<u8>>::empty()),
    {
        proof {
            if self.entries@.len() == 0 {
                assert(self@ =~= Map::<Seq<u8>, Seq<u8>>::empty());
            } else {
                assert(ref_entries_has(self.entries@, self.entries@[0].name@)) by {
                    assert(self.entries@[0].name@ == self.entries@[0].name@);
                }
                assert(self@.dom().contains(self.entries@[0].name@));
            }
        }
        self.entries.len()
    }

    fn find(&self, n: &Vec<u8>) -> (r: Option<usize>)
        ensures
            match r {
                Some(i) => i < self.entries@.len() && self.entries@[i as int].name@ == n@,
                None => !ref_entries_has(self.entries@, n@),
            },
    {
        let mut i: usize = 0;
        while i < self.entries.len()
            invariant
                i <= self.entries@.len(),
                forall|j: int| 0 <= j < i ==> self.entries@[j].name@ != n@,
            decreases self.entries@.len() - i,
        {
            if bytes_eq(&self.entries[i].name, n) {
                return Some(i);
            }
            i += 1;
        }
        None
    }

    /// The identifier `n` points at, if the map holds `n`.
    pub fn get(&self, n: &Vec<u8>) -> (r: Option<&Vec<u8>>)
        requires
            self.wf(),
        ensures
            match r {
                Some(v) => self@.dom().contains(n@) && self@[n@] == v@,
                None => !self@.dom().contains(n@),
            },
    {
        match self.find(n) {
            Some(i) => {
                proof {
                    lemma_ref_witness_unique(self.entries@, n@, i as int);
                }
                Some(&self.entries[i].id)
            },
            None => None,
        }
    }

    /// Whether some reference points at the identifier `v`.
    pub fn has_value(&self, v: &Vec<u8>) -> (r: bool)
        ensures
            r == ref_entries_has_value(self.entries@, v@),
    {
        let mut i: usize = 0;
        while i < self.entries.len()
            invariant
                i <= self.entries@.len(),
                forall|j: int| 0 <= j < i ==> self.entries@[j].id@ != v@,
            decreases self.entries@.len() - i,
        {
            if bytes_eq(&self.entries[i].id, v) {
                proof {
                    assert(0 <= i < self.entries@.len() && self.entries@[i as int].id@ == v@);
                }
                return true;
            }
            i += 1;
        }
        false
    }

    /// Points `n` at `v`, replacing an earlier entry for the same
    /// name.
    pub fn insert(&mut self, n: Vec<u8>, v: Vec<u8>)
        requires
            old(self).wf(),
        ensures
            final(self).wf(),
            final(self)@ == old(self)@.insert(n@, v@),
    {
        let found = self.find(&n);
        match found {
            Some(i) => {
                proof {
                    lemma_ref_entries_update(self.entries@, i as int, RefEntry { name: n, id: v });
                }
                self.entries.set(i, RefEntry { name: n, id: v });
            },
            None => {
                proof {
                    lemma_ref_entries_push(self.entries@, RefEntry { name: n, id: v });
                }
                self.entries.push(RefEntry { name: n, id: v });
            },
        }
    }
}

} // verus!
