//! Process-wide, memory-bounded cache of per-split footer bytes.
//!
//! The cache is keyed by split id and holds at most one entry per id;
//! the bytes resident never exceed the configured capacity, and `put`
//! evicts the oldest entries to stay under it (a size-bounded policy).
//! It is best-effort: a miss never fails, and on a race between two
//! fetches of the same footer the last `put` wins, which is harmless
//! because a split's footer is deterministic for its id.

use vstd::prelude::*;

verus! {

/// One cached footer: at most one entry per split id lives in the cache.
/// Entries are never mutated in place; a re-fetch overwrites the slot.
pub struct FooterCacheEntry {
    pub split_id: String,
    pub footer: Vec<u8>,
}

/// No two entries share a split id.
pub open spec fn unique_ids(entries: Seq<FooterCacheEntry>) -> bool {
    forall|i: int, j: int|
        0 <= i < j < entries.len() ==> entries[i].split_id@ != entries[j].split_id@
}

/// Sum of the footer lengths of a sequence of entries.
pub open spec fn entries_bytes(entries: Seq<FooterCacheEntry>) -> int
    decreases entries.len(),
{
    if entries.len() == 0 {
        0
    } else {
        entries_bytes(entries.drop_last()) + entries.last().footer@.len()
    }
}

proof fn lemma_entries_bytes_nonneg(entries: Seq<FooterCacheEntry>)
    ensures
        entries_bytes(entries) >= 0,
    decreases entries.len(),
{
    if entries.len() > 0 {
        lemma_entries_bytes_nonneg(entries.drop_last());
    }
}

proof fn lemma_entries_bytes_push(entries: Seq<FooterCacheEntry>, e: FooterCacheEntry)
    ensures
        entries_bytes(entries.push(e)) == entries_bytes(entries) + e.footer@.len(),
{
    assert(entries.push(e).drop_last() =~= entries);
    assert(entries.push(e).last() == e);
}

proof fn lemma_entries_bytes_remove(entries: Seq<FooterCacheEntry>, i: int)
    requires
        0 <= i < entries.len(),
    ensures
        entries_bytes(entries.remove(i)) == entries_bytes(entries) - entries[i].footer@.len(),
    decreases entries.len(),
{
    if i == entries.len() - 1 {
        assert(entries.remove(i) =~= entries.drop_last());
    } else {
        assert(entries.remove(i).drop_last() =~= entries.drop_last().remove(i));
        assert(entries.remove(i).last() == entries.last());
        lemma_entries_bytes_remove(entries.drop_last(), i);
    }
}

/// Two entries of an id-unique sequence that carry the same split id
/// stand at the same index.
proof fn lemma_unique_ids_agree(s: Seq<FooterCacheEntry>, a: int, b: int)
    requires
        unique_ids(s),
        0 <= a < s.len(),
        0 <= b < s.len(),
        s[a].split_id@ == s[b].split_id@,
    ensures
        a == b,
{
    if a < b {
        assert(s[a].split_id@ != s[b].split_id@);
    } else if b < a {
        assert(s[b].split_id@ != s[a].split_id@);
    }
}

proof fn lemma_unique_after_remove(s: Seq<FooterCacheEntry>, i: int)
    requires
        unique_ids(s),
        0 <= i < s.len(),
    ensures
        unique_ids(s.remove(i)),
{
    assert forall|a: int, b: int| 0 <= a < b < s.remove(i).len() implies s.remove(i)[a].split_id@
        != s.remove(i)[b].split_id@ by {
        let a0: int = if a < i { a } else { a + 1 };
        let b0: int = if b < i { b } else { b + 1 };
        assert(s.remove(i)[a] == s[a0]);
        assert(s.remove(i)[b] == s[b0]);
    }
}

/// Memory-bounded cache of footer bytes, keyed by split id.
pub struct FooterCache {
    capacity_bytes: usize,
    used_bytes: usize,
    entries: Vec<FooterCacheEntry>,
}

/// Every entry of `s` is cached in `c` under its own id with its own
/// bytes: the notion of "no observer sees a corrupted entry".
pub open spec fn entries_preserved_in(s: Seq<FooterCacheEntry>, c: FooterCache) -> bool {
    forall|k: int|
        0 <= k < s.len() ==> c.contains_split(#[trigger] s[k].split_id@) && c.footer_for(
            s[k].split_id@,
        ) == s[k].footer@
}

proof fn lemma_preserved_after_remove(s: Seq<FooterCacheEntry>, i: int, c: FooterCache)
    requires
        entries_preserved_in(s, c),
        0 <= i < s.len(),
    ensures
        entries_preserved_in(s.remove(i), c),
{
    assert forall|k: int| 0 <= k < s.remove(i).len() implies c.contains_split(
        #[trigger] s.remove(i)[k].split_id@,
    ) && c.footer_for(s.remove(i)[k].split_id@) == s.remove(i)[k].footer@ by {
        if k < i {
            assert(s.remove(i)[k] == s[k]);
        } else {
            assert(s.remove(i)[k] == s[k + 1]);
        }
    }
}

impl FooterCache {
    /// The cached entries, oldest first.
    pub closed spec fn view(&self) -> Seq<FooterCacheEntry> {
        self.entries@
    }

    /// The capacity the cache was configured with.
    pub closed spec fn spec_capacity(&self) -> usize {
        self.capacity_bytes
    }

    /// The bytes currently resident, for contracts.
    pub closed spec fn spec_used(&self) -> usize {
        self.used_bytes
    }

    /// Whether a footer is cached for this split id.
    pub open spec fn contains_split(&self, split_id: Seq<char>) -> bool {
        exists|i: int| 0 <= i < self@.len() && self@[i].split_id@ == split_id
    }

    /// The cached footer bytes for this split id.
    pub open spec fn footer_for(&self, split_id: Seq<char>) -> Seq<u8> {
        self@[choose|i: int| 0 <= i < self@.len() && self@[i].split_id@ == split_id].footer@
    }

    /// The internal invariant: at most one entry per split id, the byte
    /// counter is the sum of the cached footer lengths, and that sum
    /// never exceeds the configured capacity.
    pub open spec fn wf(&self) -> bool {
        &&& unique_ids(self@)
        &&& self.spec_used() == entries_bytes(self@)
        &&& entries_bytes(self@) <= self.spec_capacity()
    }

    /// A fresh, empty cache bounded by `capacity_bytes`.
    pub fn with_capacity_in_bytes(capacity_bytes: usize) -> (cache: FooterCache)
        ensures
            cache.wf(),
            cache@ =~= Seq::<FooterCacheEntry>::empty(),
            cache.spec_capacity() == capacity_bytes,
    {
        FooterCache { capacity_bytes, used_bytes: 0, entries: Vec::new() }
    }

    /// An entry of the cache is cached under its id with its bytes.
    proof fn lemma_member_footer(&self, j: int)
        requires
            unique_ids(self@),
            0 <= j < self@.len(),
        ensures
            self.contains_split(self@[j].split_id@),
            self.footer_for(self@[j].split_id@) == self@[j].footer@,
    {
        let id = self@[j].split_id@;
        assert(self.contains_split(id));
        let w = choose|i: int| 0 <= i < self@.len() && self@[i].split_id@ == id;
        lemma_unique_ids_agree(self@, w, j);
    }

    /// Index of the entry for `split_id`, if one is cached.
    fn find(&self, split_id: &String) -> (r: Option<usize>)
        ensures
            (match r {
                Some(i) => 0 <= i < self@.len() && self@[i as int].split_id@ == split_id@,
                None => !self.contains_split(split_id@),
            }),
    {
        let mut i: usize = 0;
        while i < self.entries.len()
            invariant
                0 <= i <= self@.len(),
                forall|j: int| 0 <= j < i ==> self@[j].split_id@ != split_id@,
            decreases self@.len() - i,
        {
            if self.entries[i].split_id.eq(split_id) {
                return Some(i);
            }
            i = i + 1;
        }
        None
    }

    /// Look a footer up; a miss is an ordinary outcome, never an error.
    /// On a hit the returned bytes are exactly the bytes last `put` for
    /// this split id, and the cache itself is untouched.
    pub fn get(&self, split_id: &String) -> (r: Option<Vec<u8>>)
        requires
            self.wf(),
        ensures
            r is Some <==> self.contains_split(split_id@),
            (match r {
                Some(footer) => footer@ == self.footer_for(split_id@),
                None => true,
            }),
    {
        match self.find(split_id) {
            Some(i) => {
                proof {
                    self.lemma_member_footer(i as int);
                }
                Some(self.entries[i].footer.clone())
            },
            None => None,
        }
    }

    /// Insert a footer, evicting the oldest entries as needed to respect
    /// the capacity bound. A footer larger than the whole capacity is not
    /// cached at all and the cache is left unchanged. Any previous entry
    /// for the same split id is replaced (last writer wins). Every split
    /// id cached afterwards other than `split_id` was already cached with
    /// the same bytes before, so an observer never sees a corrupted entry.
    pub fn put(&mut self, split_id: String, footer: Vec<u8>)
        requires
            old(self).wf(),
        ensures
            final(self).wf(),
            final(self).spec_capacity() == old(self).spec_capacity(),
            footer@.len() <= old(self).spec_capacity() ==> {
                &&& final(self).contains_split(split_id@)
                &&& final(self).footer_for(split_id@) == footer@
            },
            footer@.len() > old(self).spec_capacity() ==> *final(self) == *old(self),
            forall|id2: Seq<char>|
                #[trigger] final(self).contains_split(id2) && id2 != split_id@ ==> old(
                    self,
                ).contains_split(id2) && final(self).footer_for(id2) == old(self).footer_for(id2),
    {
        if footer.len() > self.capacity_bytes {
            return ;
        }
        proof {
            lemma_preserved_in_self(*old(self));
        }
        match self.find(&split_id) {
            Some(i) => {
                proof {
                    lemma_entries_bytes_remove(self@, i as int);
                    lemma_entries_bytes_nonneg(self@.remove(i as int));
                    lemma_unique_after_remove(self@, i as int);
                    lemma_preserved_after_remove(self@, i as int, *old(self));
                    lemma_absent_after_remove(self@, i as int, split_id@);
                }
                let removed_len = self.entries[i].footer.len();
                self.entries.remove(i);
                self.used_bytes = self.used_bytes - removed_len;
            },
            None => {},
        }
        while self.used_bytes > self.capacity_bytes - footer.len()
            invariant
                self.wf(),
                footer@.len() <= self.spec_capacity(),
                self.spec_capacity() == old(self).spec_capacity(),
                !self.contains_split(split_id@),
                entries_preserved_in(self@, *old(self)),
            decreases self@.len(),
        {
            proof {
                if self@.len() == 0 {
                    assert(entries_bytes(self@) == 0);
                }
                lemma_entries_bytes_remove(self@, 0);
                lemma_entries_bytes_nonneg(self@.remove(0));
                lemma_unique_after_remove(self@, 0);
                lemma_preserved_after_remove(self@, 0, *old(self));
                lemma_absent_still_after_remove(self@, 0, split_id@);
            }
            let evicted_len = self.entries[0].footer.len();
            self.entries.remove(0);
            self.used_bytes = self.used_bytes - evicted_len;
        }
        proof {
            lemma_entries_bytes_nonneg(self@);
        }
        let ghost before_push = *self;
        let footer_len = footer.len();
        proof {
            lemma_entries_bytes_push(self@, FooterCacheEntry { split_id: split_id, footer: footer });
        }
        self.entries.push(FooterCacheEntry { split_id, footer });
        self.used_bytes = self.used_bytes + footer_len;
        proof {
            let n = self@.len() - 1;
            assert forall|a: int, b: int| 0 <= a < b < self@.len() implies self@[a].split_id@
                != self@[b].split_id@ by {
                if b < n {
                    assert(self@[a] == before_push@[a]);
                    assert(self@[b] == before_push@[b]);
                } else {
                    assert(self@[a] == before_push@[a]);
                    assert(before_push@[a].split_id@ != split_id@) by {
                        if before_push.contains_split(split_id@) {
                        }
                        assert(0 <= a < before_push@.len());
                    }
                }
            }
            self.lemma_member_footer(n);
            assert forall|id2: Seq<char>|
                #[trigger] self.contains_split(id2) && id2 != split_id@ implies old(
                self,
            ).contains_split(id2) && self.footer_for(id2) == old(self).footer_for(id2) by {
                let k = choose|k: int| 0 <= k < self@.len() && self@[k].split_id@ == id2;
                assert(k < n);
                assert(self@[k] == before_push@[k]);
                assert(entries_preserved_in(before_push@, *old(self)));
                assert(old(self).contains_split(before_push@[k].split_id@) && old(
                    self,
                ).footer_for(before_push@[k].split_id@) == before_push@[k].footer@);
                self.lemma_member_footer(k);
            }
        }
    }
}

/// Every entry of a well-formed cache is preserved in itself.
proof fn lemma_preserved_in_self(c: FooterCache)
    requires
        unique_ids(c@),
    ensures
        entries_preserved_in(c@, c),
{
    assert forall|k: int| 0 <= k < c@.len() implies c.contains_split(#[trigger] c@[k].split_id@)
        && c.footer_for(c@[k].split_id@) == c@[k].footer@ by {
        c.lemma_member_footer(k);
    }
}

/// After removing the one entry that carries `id` from an id-unique
/// sequence, no entry carries `id`.
proof fn lemma_absent_after_remove(s: Seq<FooterCacheEntry>, i: int, id: Seq<char>)
    requires
        unique_ids(s),
        0 <= i < s.len(),
        s[i].split_id@ == id,
    ensures
        forall|k: int| 0 <= k < s.remove(i).len() ==> s.remove(i)[k].split_id@ != id,
{
    assert forall|k: int| 0 <= k < s.remove(i).len() implies s.remove(i)[k].split_id@ != id by {
        let k0: int = if k < i { k } else { k + 1 };
        assert(s.remove(i)[k] == s[k0]);
        lemma_unique_ids_agree(s, i, i);
        if s[k0].split_id@ == id {
            lemma_unique_ids_agree(s, k0, i);
        }
    }
}

/// Removing an entry cannot introduce an id that was absent.
proof fn lemma_absent_still_after_remove(s: Seq<FooterCacheEntry>, i: int, id: Seq<char>)
    requires
        0 <= i < s.len(),
        forall|k: int| 0 <= k < s.len() ==> s[k].split_id@ != id,
    ensures
        forall|k: int| 0 <= k < s.remove(i).len() ==> s.remove(i)[k].split_id@ != id,
{
    assert forall|k: int| 0 <= k < s.remove(i).len() implies s.remove(i)[k].split_id@ != id by {
        let k0: int = if k < i { k } else { k + 1 };
        assert(s.remove(i)[k] == s[k0]);
    }
}

} // verus!
