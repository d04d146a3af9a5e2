//! The model of the object-storage handle the leaf engine runs against.
//!
//! Storage is a set of named immutable objects supporting one operation,
//! a byte-range read, which fails on a missing object or an out-of-range
//! request. The handle also counts the range reads issued, so that a
//! contract (and a test) can say that a cached footer is served without
//! a new storage fetch.

use vstd::prelude::*;

use crate::index_model::SplitIndex;

verus! {

/// One immutable object: a split. Its bytes live under `name`; `index` is
/// the queryable index those bytes denote, decoding them being the
/// single-node engine's capability.
pub struct SplitObject {
    pub name: String,
    pub bytes: Vec<u8>,
    pub index: SplitIndex,
}

/// A storage handle over a set of immutable objects.
pub struct StorageModel {
    pub uri: String,
    pub objects: Vec<SplitObject>,
    pub fetch_count: u64,
}

impl StorageModel {
    /// Whether an object of this name is stored.
    pub open spec fn contains_object(&self, name: Seq<char>) -> bool {
        exists|i: int| 0 <= i < self.objects@.len() && self.objects@[i].name@ == name
    }

    /// The index of the first object of this name.
    pub open spec fn spec_object_at(&self, name: Seq<char>) -> int {
        choose|i: int|
            0 <= i < self.objects@.len() && self.objects@[i].name@ == name && forall|j: int|
                0 <= j < i ==> self.objects@[j].name@ != name
    }

    /// The bytes of the first object of this name.
    pub open spec fn object_bytes(&self, name: Seq<char>) -> Seq<u8> {
        self.objects@[self.spec_object_at(name)].bytes@
    }

    /// Find the first object of this name.
    pub fn find_object(&self, name: &String) -> (r: Option<usize>)
        ensures
            r is Some <==> self.contains_object(name@),
            (match r {
                Some(i) => i == self.spec_object_at(name@) && 0 <= i < self.objects@.len()
                    && self.objects@[i as int].name@ == name@,
                None => true,
            }),
    {
        let mut i: usize = 0;
        while i < self.objects.len()
            invariant
                0 <= i <= self.objects@.len(),
                forall|j: int| 0 <= j < i ==> self.objects@[j].name@ != name@,
            decreases self.objects@.len() - i,
        {
            if self.objects[i].name.eq(name) {
                proof {
                    let w = self.spec_object_at(name@);
                    assert(0 <= w < self.objects@.len() && self.objects@[w].name@ == name@
                        && forall|j: int| 0 <= j < w ==> self.objects@[j].name@ != name@) by {
                        assert(0 <= i < self.objects@.len() && self.objects@[i as int].name@
                            == name@ && forall|j: int|
                            0 <= j < i ==> self.objects@[j].name@ != name@);
                    }
                    if w < i as int {
                        assert(self.objects@[w].name@ != name@);
                    }
                    if (i as int) < w {
                        assert(self.objects@[i as int].name@ != name@);
                    }
                }
                return Some(i);
            }
            i = i + 1;
        }
        None
    }

    /// Whether a range read of `[start, end)` against the object of this
    /// name would succeed.
    pub open spec fn range_ok(&self, name: Seq<char>, start: u64, end: u64) -> bool {
        &&& self.contains_object(name)
        &&& start <= end
        &&& end <= self.object_bytes(name).len()
    }

    /// One byte-range read: the suspension point of every footer fetch.
    /// It returns the bytes `[start, end)` of the named object, fails on
    /// a missing object or a range that leaves it, leaves every object
    /// untouched, and counts one fetch either way.
    pub fn get_byte_range(&mut self, name: &String, start: u64, end: u64) -> (r: Option<Vec<u8>>)
        requires
            old(self).fetch_count < u64::MAX,
        ensures
            final(self).uri == old(self).uri,
            final(self).objects == old(self).objects,
            final(self).fetch_count == old(self).fetch_count + 1,
            r is Some <==> old(self).range_ok(name@, start, end),
            (match r {
                Some(bytes) => bytes@ == old(self).object_bytes(name@).subrange(
                    start as int,
                    end as int,
                ),
                None => true,
            }),
    {
        self.fetch_count = self.fetch_count + 1;
        match self.find_object(name) {
            Some(i) => {
                let object_len = self.objects[i].bytes.len();
                if start <= end && end <= object_len as u64 {
                    let mut out: Vec<u8> = Vec::new();
                    let mut k: usize = start as usize;
                    while k < end as usize
                        invariant
                            start <= k <= end,
                            end <= self.objects@[i as int].bytes@.len(),
                            0 <= i < self.objects@.len(),
                            out@ == self.objects@[i as int].bytes@.subrange(
                                start as int,
                                k as int,
                            ),
                        decreases end - k,
                    {
                        let b = self.objects[i].bytes[k];
                        out.push(b);
                        proof {
                            assert(out@ =~= self.objects@[i as int].bytes@.subrange(
                                start as int,
                                k as int + 1,
                            ));
                        }
                        k = k + 1;
                    }
                    Some(out)
                } else {
                    None
                }
            },
            None => None,
        }
    }
}

} // verus!
