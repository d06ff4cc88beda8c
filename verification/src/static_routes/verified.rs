//! Memory of stored pairs that were found consistent.
//!
//! What identifies a file pins its bytes: publication replaces files, and an edit in
//! place moves their change times. A pair that is still the same files need not be
//! checked again.

use crate::text::{copy_bytes, same_bytes};
use vstd::prelude::*;

verus! {

/// What pins the bytes of a file.
#[derive(Clone, Copy, Debug, PartialEq, Eq, Structural)]
pub struct Identity {
    pub device: u64,
    pub inode: u64,
    pub length: u64,
    pub changed: i64,
    pub changed_nsec: i64,
    pub modified: i64,
    pub modified_nsec: i64,
}

/// How many pairs are remembered.
pub const CAPACITY: usize = 4096;

struct Entry<P> {
    path: Vec<u8>,
    page: Identity,
    metadata: Identity,
    parts: P,
}

/// A remembered pair: its two files, and the response that they describe.
pub type Remembered<P> = (Identity, Identity, P);

/// The pairs that were found consistent, by the paths of their pages.
pub struct VerifiedPairs<P> {
    entries: Vec<Entry<P>>,
}

spec fn found<P>(entries: Seq<Entry<P>>, path: Seq<u8>) -> Option<Remembered<P>>
    decreases entries.len(),
{
    if entries.len() == 0 {
        None
    } else if entries.last().path@ == path {
        Some((entries.last().page, entries.last().metadata, entries.last().parts))
    } else {
        found(entries.drop_last(), path)
    }
}

spec fn unique<P>(entries: Seq<Entry<P>>) -> bool {
    forall|i: int, j: int|
        0 <= i < j < entries.len() ==> (#[trigger] entries[i]).path@ != (#[trigger] entries[j]).path@
}

proof fn lemma_found_at<P>(entries: Seq<Entry<P>>, path: Seq<u8>, i: int)
    requires
        unique(entries),
        0 <= i < entries.len(),
        entries[i].path@ == path,
    ensures
        found(entries, path) == Some((entries[i].page, entries[i].metadata, entries[i].parts)),
    decreases entries.len(),
{
    if i < entries.len() - 1 {
        assert(entries[i].path@ != entries[entries.len() - 1].path@);
        let shorter = entries.drop_last();
        assert forall|a: int, b: int| 0 <= a < b < shorter.len() implies (
        #[trigger] shorter[a]).path@ != (#[trigger] shorter[b]).path@ by {
            assert(entries[a].path@ != entries[b].path@);
        }
        lemma_found_at(shorter, path, i);
    }
}

proof fn lemma_found_none<P>(entries: Seq<Entry<P>>, path: Seq<u8>)
    requires
        forall|i: int| 0 <= i < entries.len() ==> (#[trigger] entries[i]).path@ != path,
    ensures
        found(entries, path) is None,
    decreases entries.len(),
{
    if entries.len() > 0 {
        assert(entries[entries.len() - 1].path@ != path);
        assert forall|i: int| 0 <= i < entries.drop_last().len() implies (
        #[trigger] entries.drop_last()[i]).path@ != path by {
            assert(entries[i].path@ != path);
        }
        lemma_found_none(entries.drop_last(), path);
    }
}

proof fn lemma_found_replaced<P>(before: Seq<Entry<P>>, after: Seq<Entry<P>>, at: int, path: Seq<u8>)
    requires
        0 <= at < before.len(),
        after.len() == before.len(),
        forall|i: int| 0 <= i < before.len() && i != at ==> #[trigger] after[i] == before[i],
        after[at].path@ == before[at].path@,
        before[at].path@ != path,
    ensures
        found(after, path) == found(before, path),
    decreases before.len(),
{
    let last: int = before.len() - 1;
    if at == last {
        assert(after.drop_last() =~= before.drop_last());
    } else {
        assert(after[last] == before[last]);
        assert forall|i: int| 0 <= i < before.drop_last().len() && i
            != at implies #[trigger] after.drop_last()[i] == before.drop_last()[i] by {
            assert(after[i] == before[i]);
        }
        lemma_found_replaced(before.drop_last(), after.drop_last(), at, path);
    }
}

impl<P> VerifiedPairs<P> {
    /// The pair that is remembered for a path.
    pub closed spec fn remembered(self, path: Seq<u8>) -> Option<Remembered<P>> {
        found(self.entries@, path)
    }

    /// How many pairs are remembered.
    pub closed spec fn count(self) -> nat {
        self.entries@.len()
    }

    #[verifier::type_invariant]
    spec fn well_formed(self) -> bool {
        unique(self.entries@) && self.entries@.len() <= CAPACITY
    }

    /// Nothing is remembered.
    pub fn new() -> (pairs: VerifiedPairs<P>)
        ensures
            pairs.count() == 0,
            forall|path: Seq<u8>| #[trigger] pairs.remembered(path) is None,
    {
        VerifiedPairs { entries: Vec::new() }
    }

    fn position(&self, path: &[u8]) -> (index: Option<usize>)
        ensures
            match index {
                Some(i) => i < self.entries@.len() && self.entries@[i as int].path@ == path@,
                None => forall|i: int|
                    0 <= i < self.entries@.len() ==> (#[trigger] self.entries@[i]).path@ != path@,
            },
    {
        let mut i: usize = 0;
        while i < self.entries.len()
            invariant
                i <= self.entries.len(),
                forall|j: int| 0 <= j < i ==> (#[trigger] self.entries@[j]).path@ != path@,
            decreases self.entries.len() - i,
        {
            if same_bytes(self.entries[i].path.as_slice(), path) {
                return Some(i);
            }
            i = i + 1;
        }
        None
    }

    /// The response of a pair that is still the same two files.
    pub fn lookup(&self, path: &[u8], page: Identity, metadata: Identity) -> (parts: Option<&P>)
        ensures
            match parts {
                Some(parts) => self.remembered(path@) == Some((page, metadata, *parts)),
                None => self.remembered(path@) matches Some((p, m, _)) ==> p != page || m
                    != metadata,
            },
            self.count() <= CAPACITY,
    {
        proof {
            use_type_invariant(self);
        }
        match self.position(path) {
            None => {
                proof {
                    lemma_found_none(self.entries@, path@);
                }
                None
            },
            Some(i) => {
                proof {
                    lemma_found_at(self.entries@, path@, i as int);
                }
                let entry = &self.entries[i];
                if entry.page == page && entry.metadata == metadata {
                    Some(&entry.parts)
                } else {
                    None
                }
            },
        }
    }

    /// Remembers a pair, in place of what was remembered for its path. Where there is
    /// no room for another path, everything else is forgotten.
    pub fn remember(&mut self, path: &[u8], page: Identity, metadata: Identity, parts: P)
        ensures
            final(self).remembered(path@) == Some((page, metadata, parts)),
            final(self).count() <= CAPACITY,
            final(self).count() == (if old(self).remembered(path@) is Some {
                old(self).count()
            } else if old(self).count() == CAPACITY {
                1
            } else {
                old(self).count() + 1
            }),
            forall|other: Seq<u8>|
                other != path@ ==> #[trigger] final(self).remembered(other) == (if old(
                    self,
                ).remembered(path@) is None && old(self).count() == CAPACITY {
                    None
                } else {
                    old(self).remembered(other)
                }),
    {
        proof {
            use_type_invariant(&*self);
        }
        let at = self.position(path);
        let mut entries: Vec<Entry<P>> = Vec::new();
        std::mem::swap(&mut entries, &mut self.entries);
        let ghost before = entries@;
        let entry = Entry { path: copy_bytes(path), page, metadata, parts };
        match at {
            Some(i) => {
                proof {
                    lemma_found_at(before, path@, i as int);
                }
                entries.set(i, entry);
                proof {
                    assert forall|a: int, b: int| 0 <= a < b < entries@.len() implies (
                    #[trigger] entries@[a]).path@ != (#[trigger] entries@[b]).path@ by {
                        assert(before[a].path@ != before[b].path@);
                    }
                    lemma_found_at(entries@, path@, i as int);
                    assert forall|other: Seq<u8>| other != path@ implies #[trigger] found(
                        entries@,
                        other,
                    ) == found(before, other) by {
                        lemma_found_replaced(before, entries@, i as int, other);
                    }
                }
            },
            None => {
                proof {
                    lemma_found_none(before, path@);
                }
                if entries.len() >= CAPACITY {
                    entries.clear();
                }
                let ghost kept = entries@;
                entries.push(entry);
                proof {
                    assert(entries@.drop_last() =~= kept);
                    assert forall|a: int, b: int| 0 <= a < b < entries@.len() implies (
                    #[trigger] entries@[a]).path@ != (#[trigger] entries@[b]).path@ by {
                        assert(entries@[a] == before[a]);
                        if b < kept.len() {
                            assert(entries@[b] == before[b]);
                        }
                    }
                    assert forall|other: Seq<u8>| other != path@ implies #[trigger] found(
                        entries@,
                        other,
                    ) == (if before.len() == CAPACITY {
                        None
                    } else {
                        found(before, other)
                    }) by {
                        assert(found(entries@, other) == found(kept, other));
                        if before.len() == CAPACITY {
                            assert(kept.len() == 0);
                        } else {
                            assert(kept =~= before);
                        }
                    }
                }
            },
        }
        self.entries = entries;
    }
}

// ---------------------------------------------------------------------------
// Laws
// ---------------------------------------------------------------------------
/// What is remembered of a pair is found again as long as both files are the same, and not
/// for any other files.
pub proof fn remembered_pairs_are_found<P>(
    pairs: &mut VerifiedPairs<P>,
    path: &[u8],
    page: Identity,
    metadata: Identity,
    parts: P,
    asked_page: Identity,
    asked_metadata: Identity,
    found: Option<&P>,
)
    requires
        call_ensures(VerifiedPairs::<P>::remember, (pairs, path, page, metadata, parts), ()),
        call_ensures(
            VerifiedPairs::<P>::lookup,
            (final(pairs), path, asked_page, asked_metadata),
            found,
        ),
    ensures
        asked_page == page && asked_metadata == metadata ==> (found matches Some(p) && *p == parts),
        asked_page != page || asked_metadata != metadata ==> found is None,
{
}

} // verus!
