//! The in-memory model of one split's queryable index.
//!
//! A split object in storage denotes an immutable single-node index:
//! a schema and a list of segments, each segment carrying the posting
//! lists of its (field, term) pairs. Interpreting the raw index bytes is
//! the single-node engine's capability and out of this engine's scope;
//! the model carries the denoted index next to the bytes so the leaf
//! logic over it can be stated and checked exactly.
//!
//! Fields are addressed by name at the request boundary and by ordinal
//! (their index in the schema) inside a split; terms are addressed by an
//! opaque term id, the query builder's capability having resolved the
//! request's text beforehand.

use vstd::prelude::*;

verus! {

/// One schema entry: a field name and whether the field is stored as a
/// fast-access (columnar) field.
pub struct FieldEntry {
    pub name: String,
    pub fast: bool,
}

/// The schema of one split: the fields, addressed by ordinal.
pub struct Schema {
    pub fields: Vec<FieldEntry>,
}

impl Schema {
    /// The ordinal of the first field carrying this name, if any.
    pub open spec fn spec_get_field(&self, name: Seq<char>) -> Option<int> {
        if exists|i: int| 0 <= i < self.fields@.len() && self.fields@[i].name@ == name {
            Some(
                choose|i: int|
                    0 <= i < self.fields@.len() && self.fields@[i].name@ == name && forall|j: int|
                        0 <= j < i ==> self.fields@[j].name@ != name,
            )
        } else {
            None
        }
    }

    /// Whether some field carries this name.
    pub open spec fn spec_has_field(&self, name: Seq<char>) -> bool {
        exists|i: int| 0 <= i < self.fields@.len() && self.fields@[i].name@ == name
    }

    /// Look a field up by name, returning its ordinal.
    pub fn get_field(&self, name: &String) -> (r: Option<usize>)
        ensures
            r is Some <==> self.spec_has_field(name@),
            (match r {
                Some(i) => 0 <= i < self.fields@.len() && self.fields@[i as int].name@ == name@
                    && forall|j: int| 0 <= j < i ==> self.fields@[j].name@ != name@,
                None => true,
            }),
    {
        let mut i: usize = 0;
        while i < self.fields.len()
            invariant
                0 <= i <= self.fields@.len(),
                forall|j: int| 0 <= j < i ==> self.fields@[j].name@ != name@,
            decreases self.fields@.len() - i,
        {
            if self.fields[i].name.eq(name) {
                return Some(i);
            }
            i = i + 1;
        }
        None
    }

    /// Whether the field at this ordinal is a fast field.
    pub fn is_fast(&self, field: usize) -> (r: bool)
        requires
            0 <= field < self.fields@.len(),
        ensures
            r == self.fields@[field as int].fast,
    {
        self.fields[field].fast
    }
}

/// One document's entry in a posting list: the document id within its
/// segment and the score the engine's scorer assigned to the match.
#[derive(PartialEq, Eq, Structural, Clone, Copy, Debug)]
pub struct DocEntry {
    pub doc_id: u64,
    pub score: u64,
}

/// The posting list of one (field, term) pair inside one segment.
pub struct PostingList {
    pub field: u64,
    pub term: u64,
    pub docs: Vec<DocEntry>,
}

/// One immutable segment of a split.
pub struct Segment {
    pub postings: Vec<PostingList>,
}

/// The docs of the first posting list of `(field, term)` in a sequence of
/// posting lists; an absent pair has an empty posting list, which is a
/// valid outcome, not an error.
pub open spec fn find_posting(postings: Seq<PostingList>, field: u64, term: u64) -> Seq<DocEntry>
    decreases postings.len(),
{
    if postings.len() == 0 {
        Seq::empty()
    } else if postings[0].field == field && postings[0].term == term {
        postings[0].docs@
    } else {
        find_posting(postings.drop_first(), field, term)
    }
}

impl Segment {
    /// The docs this segment's posting list holds for `(field, term)`.
    pub open spec fn spec_posting(&self, field: u64, term: u64) -> Seq<DocEntry> {
        find_posting(self.postings@, field, term)
    }

    /// Look the posting list of `(field, term)` up; an absent pair reads
    /// as an empty posting list.
    pub fn posting(&self, field: u64, term: u64) -> (docs: &[DocEntry])
        ensures
            docs@ == self.spec_posting(field, term),
    {
        let mut i: usize = 0;
        proof {
            assert(self.postings@.skip(0) =~= self.postings@);
        }
        while i < self.postings.len()
            invariant
                0 <= i <= self.postings@.len(),
                find_posting(self.postings@.skip(i as int), field, term) == find_posting(
                    self.postings@,
                    field,
                    term,
                ),
            decreases self.postings@.len() - i,
        {
            if self.postings[i].field == field && self.postings[i].term == term {
                proof {
                    assert(self.postings@.skip(i as int)[0] == self.postings@[i as int]);
                }
                return self.postings[i].docs.as_slice();
            }
            proof {
                assert(self.postings@.skip(i as int).drop_first() =~= self.postings@.skip(
                    i as int + 1,
                ));
                assert(self.postings@.skip(i as int)[0] == self.postings@[i as int]);
            }
            i = i + 1;
        }
        proof {
            assert(self.postings@.skip(self.postings@.len() as int) =~= Seq::<
                PostingList,
            >::empty());
        }
        &[]
    }
}

/// The queryable content of one split: its schema and its segments.
pub struct SplitIndex {
    pub schema: Schema,
    pub segments: Vec<Segment>,
}

/// One term of the incoming request, still addressed by field name: the
/// schema can legitimately vary per split, so names are resolved against
/// each split's own schema.
pub struct RequestTerm {
    pub field_name: String,
    pub term: u64,
    pub position_needed: bool,
}

/// A leaf search request: the query terms, the fast fields the collector
/// will touch, and how many ranked hits the caller wants back.
pub struct SearchRequest {
    pub terms: Vec<RequestTerm>,
    pub fast_field_names: Vec<String>,
    pub max_hits: usize,
}

/// One query term resolved against a split's schema: the field ordinal,
/// the term id, and whether positional data must be warmed with it.
#[derive(PartialEq, Eq, Structural, Clone, Copy, Debug)]
pub struct ResolvedTerm {
    pub field: u64,
    pub term: u64,
    pub position_needed: bool,
}

/// A request translated into a schema-bound query for one split.
pub struct Query {
    pub terms: Vec<ResolvedTerm>,
}

} // verus!
