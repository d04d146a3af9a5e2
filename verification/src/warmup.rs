//! The warmup engine.
//!
//! The single-node engine cannot fetch data lazily mid-scan, so before
//! the CPU-bound phase starts everything the query and the collector will
//! touch must be resident: the posting list of every (query term, segment)
//! pair, and the whole column of every requested fast field in every
//! segment. The prefetches within one warmup all run concurrently in the
//! scheduler; what the engine guarantees is the set of data resident when
//! the call completes, which is what [`ResidencySet`] records. Prefetching
//! a datum already resident is harmless, so warming is idempotent.

use vstd::prelude::*;

use crate::error::SearchError;
use crate::index_model::{Query, ResolvedTerm, Schema, SplitIndex};

verus! {

/// One datum made resident by warmup: the posting list of a (field, term)
/// pair in one segment (with or without positions), or the column of one
/// fast field in one segment.
#[derive(PartialEq, Eq, Structural, Clone, Copy, Debug)]
pub enum ResidentItem {
    Posting { segment: usize, field: u64, term: u64, positions: bool },
    Column { segment: usize, field: u64 },
}

/// The set of data resident in memory for one split execution: the
/// per-execution cache every prefetch lands in. Fetching a datum twice
/// leaves the set unchanged.
pub struct ResidencySet {
    items: Vec<ResidentItem>,
}

impl ResidencySet {
    /// The resident data, as a set.
    pub closed spec fn view(&self) -> Set<ResidentItem> {
        Set::new(|it: ResidentItem| self.items@.contains(it))
    }

    /// An empty residency: nothing prefetched yet.
    pub fn new() -> (r: ResidencySet)
        ensures
            r@ =~= Set::<ResidentItem>::empty(),
    {
        let r = ResidencySet { items: Vec::new() };
        proof {
            assert forall|it: ResidentItem| !r@.contains(it) by {
                assert(!r.items@.contains(it));
            }
        }
        r
    }

    /// Whether this datum is resident.
    pub fn contains(&self, item: ResidentItem) -> (r: bool)
        ensures
            r == self@.contains(item),
    {
        let mut i: usize = 0;
        while i < self.items.len()
            invariant
                0 <= i <= self.items@.len(),
                forall|j: int| 0 <= j < i ==> self.items@[j] != item,
            decreases self.items@.len() - i,
        {
            if self.items[i] == item {
                assert(self.items@.contains(item));
                return true;
            }
            i = i + 1;
        }
        proof {
            if self.items@.contains(item) {
                let j = choose|j: int| 0 <= j < self.items@.len() && self.items@[j] == item;
            }
        }
        false
    }

    /// Make one datum resident; a datum already resident stays as it is.
    pub fn insert(&mut self, item: ResidentItem)
        ensures
            final(self)@ =~= old(self)@.insert(item),
    {
        if !self.contains(item) {
            self.items.push(item);
            proof {
                assert forall|it: ResidentItem|
                    self@.contains(it) <==> old(self)@.insert(item).contains(it) by {
                    if self.items@.contains(it) {
                        let j = choose|j: int|
                            0 <= j < self.items@.len() && self.items@[j] == it;
                        if j < self.items@.len() - 1 {
                            assert(old(self).items@[j] == it);
                            assert(old(self).items@.contains(it));
                        }
                    }
                    if old(self).items@.contains(it) {
                        let j = choose|j: int|
                            0 <= j < old(self).items@.len() && old(self).items@[j] == it;
                        assert(self.items@[j] == it);
                        assert(self.items@.contains(it));
                    }
                    if it == item {
                        assert(self.items@.last() == item);
                        assert(self.items@.contains(it));
                    }
                }
            }
        }
    }
}

/// The posting-list datum that one resolved term needs in one segment.
pub open spec fn posting_item(t: ResolvedTerm, segment: int) -> ResidentItem {
    ResidentItem::Posting {
        segment: segment as usize,
        field: t.field,
        term: t.term,
        positions: t.position_needed,
    }
}

/// Everything term warmup must make resident: one posting list per
/// (query term, segment) pair.
pub open spec fn term_warmup_set(terms: Seq<ResolvedTerm>, n_segments: int) -> Set<ResidentItem> {
    Set::new(
        |it: ResidentItem|
            exists|t: int, s: int|
                0 <= t < terms.len() && 0 <= s < n_segments && it == #[trigger] posting_item(terms[t], s),
    )
}

/// The posting-list data of one term in the segments below `s_bound`.
pub open spec fn term_segments_set(t: ResolvedTerm, s_bound: int) -> Set<ResidentItem> {
    Set::new(|it: ResidentItem| exists|s: int| 0 <= s < s_bound && it == #[trigger] posting_item(t, s))
}

/// The column datum of one fast field in one segment.
pub open spec fn column_item(field: u64, segment: int) -> ResidentItem {
    ResidentItem::Column { segment: segment as usize, field }
}

/// Everything column warmup must make resident: the whole column of every
/// requested fast field in every segment.
pub open spec fn column_warmup_set(fields: Seq<u64>, n_segments: int) -> Set<ResidentItem> {
    Set::new(
        |it: ResidentItem|
            exists|f: int, s: int|
                0 <= f < fields.len() && 0 <= s < n_segments && it == #[trigger] column_item(fields[f], s),
    )
}

/// The column data of one field in the segments below `s_bound`.
pub open spec fn field_segments_set(field: u64, s_bound: int) -> Set<ResidentItem> {
    Set::new(|it: ResidentItem| exists|s: int| 0 <= s < s_bound && it == #[trigger] column_item(field, s))
}

/// Term warmup: for every (query term, segment) pair, prefetch the pair's
/// posting list. A term absent from a segment has an empty posting list
/// and warms vacuously, so term warmup never fails. On return exactly the
/// needed posting lists have been added to the residency.
pub fn warm_up_terms(ix: &SplitIndex, query: &Query, resident: &mut ResidencySet)
    ensures
        final(resident)@ =~= old(resident)@.union(
            term_warmup_set(query.terms@, ix.segments@.len() as int),
        ),
{
    let ghost base = resident@;
    let n_segments = ix.segments.len();
    let mut t: usize = 0;
    proof {
        assert(base.union(term_warmup_set(query.terms@.take(0), n_segments as int)) =~= base);
    }
    while t < query.terms.len()
        invariant
            0 <= t <= query.terms@.len(),
            n_segments == ix.segments@.len(),
            resident@ =~= base.union(term_warmup_set(query.terms@.take(t as int), n_segments as int)),
        decreases query.terms@.len() - t,
    {
        let term = query.terms[t];
        let ghost outer = resident@;
        let mut s: usize = 0;
        proof {
            assert(outer.union(term_segments_set(term, 0)) =~= outer);
        }
        while s < n_segments
            invariant
                0 <= s <= n_segments,
                0 <= t < query.terms@.len(),
                term == query.terms@[t as int],
                n_segments == ix.segments@.len(),
                resident@ =~= outer.union(term_segments_set(term, s as int)),
            decreases n_segments - s,
        {
            resident.insert(
                ResidentItem::Posting {
                    segment: s,
                    field: term.field,
                    term: term.term,
                    positions: term.position_needed,
                },
            );
            proof {
                assert(outer.union(term_segments_set(term, s as int)).insert(
                    posting_item(term, s as int),
                ) =~= outer.union(term_segments_set(term, s as int + 1)));
            }
            s = s + 1;
        }
        proof {
            assert(base.union(term_warmup_set(query.terms@.take(t as int), n_segments as int))
                .union(term_segments_set(term, n_segments as int)) =~= base.union(
                term_warmup_set(query.terms@.take(t as int + 1), n_segments as int),
            )) by {
                let before = term_warmup_set(query.terms@.take(t as int), n_segments as int);
                let after = term_warmup_set(query.terms@.take(t as int + 1), n_segments as int);
                assert forall|it: ResidentItem| after.contains(it) implies before.contains(it)
                    || term_segments_set(term, n_segments as int).contains(it) by {
                    let (t0, s0): (int, int) = choose|t0: int, s0: int|
                        0 <= t0 < query.terms@.take(t as int + 1).len() && 0 <= s0 < n_segments
                            && it == #[trigger] posting_item(query.terms@.take(t as int + 1)[t0], s0);
                    if t0 < t as int {
                        assert(query.terms@.take(t as int)[t0] == query.terms@.take(
                            t as int + 1,
                        )[t0]);
                    } else {
                        assert(query.terms@.take(t as int + 1)[t0] == term);
                    }
                }
                assert forall|it: ResidentItem| before.contains(it) implies after.contains(
                    it,
                ) by {
                    let (t0, s0): (int, int) = choose|t0: int, s0: int|
                        0 <= t0 < query.terms@.take(t as int).len() && 0 <= s0 < n_segments && it
                            == #[trigger] posting_item(query.terms@.take(t as int)[t0], s0);
                    assert(query.terms@.take(t as int + 1)[t0] == query.terms@.take(
                        t as int,
                    )[t0]);
                }
                assert forall|it: ResidentItem|
                    term_segments_set(term, n_segments as int).contains(it) implies after.contains(
                    it,
                ) by {
                    let s0 = choose|s0: int|
                        0 <= s0 < n_segments && it == posting_item(term, s0);
                    assert(query.terms@.take(t as int + 1)[t as int] == term);
                }
            }
        }
        t = t + 1;
    }
    proof {
        assert(query.terms@.take(query.terms@.len() as int) =~= query.terms@);
    }
}

/// Whether every requested fast-field name denotes a field of the schema
/// that is flagged fast.
pub open spec fn fast_fields_ok(schema: Schema, names: Seq<String>) -> bool {
    forall|k: int|
        0 <= k < names.len() ==> schema.spec_has_field(#[trigger] names[k]@) && {
            let ord = schema.spec_get_field(names[k]@)->Some_0;
            schema.fields@[ord].fast
        }
}

/// The ordinal of a requested fast field, as the field id used inside the
/// split.
pub open spec fn resolved_field(schema: Schema, name: String) -> u64 {
    schema.spec_get_field(name@)->Some_0 as u64
}

/// The field ids of the requested fast fields.
pub open spec fn resolved_fields(schema: Schema, names: Seq<String>) -> Seq<u64> {
    names.map(|k: int, n: String| resolved_field(schema, n))
}

/// The schema error that column warmup reports: the verdict on the first
/// requested name that is absent from the schema or not fast. A missing
/// field and a non-columnar field fail distinctly, and both errors name
/// the field.
pub open spec fn spec_fastfield_error(schema: Schema, names: Seq<String>) -> SearchError
    decreases names.len(),
{
    if names.len() == 0 {
        SearchError::Merge
    } else if !schema.spec_has_field(names[0]@) {
        SearchError::SchemaFieldMissing { field_name: names[0] }
    } else if !schema.fields@[schema.spec_get_field(names[0]@)->Some_0].fast {
        SearchError::SchemaFieldNotFast { field_name: names[0] }
    } else {
        spec_fastfield_error(schema, names.drop_first())
    }
}

proof fn lemma_fastfield_error_at(schema: Schema, names: Seq<String>, i: int)
    requires
        0 <= i < names.len(),
        forall|j: int|
            0 <= j < i ==> schema.spec_has_field(#[trigger] names[j]@)
                && schema.fields@[schema.spec_get_field(names[j]@)->Some_0].fast,
        !(schema.spec_has_field(names[i]@)
            && schema.fields@[schema.spec_get_field(names[i]@)->Some_0].fast),
    ensures
        spec_fastfield_error(schema, names) == (if !schema.spec_has_field(names[i]@) {
            SearchError::SchemaFieldMissing { field_name: names[i] }
        } else {
            SearchError::SchemaFieldNotFast { field_name: names[i] }
        }),
    decreases i,
{
    if i == 0 {
    } else {
        assert forall|j: int| 0 <= j < i - 1 implies schema.spec_has_field(
            #[trigger] names.drop_first()[j]@,
        ) && schema.fields@[schema.spec_get_field(names.drop_first()[j]@)->Some_0].fast by {
            assert(names.drop_first()[j] == names[j + 1]);
        }
        assert(names.drop_first()[i - 1] == names[i]);
        lemma_fastfield_error_at(schema, names.drop_first(), i - 1);
    }
}

/// Column warmup. Every requested field name is first checked against the
/// split's schema: a name absent from the schema fails with a schema
/// error naming it, and so does, distinctly, a field that exists but is
/// not fast — in both cases before anything is prefetched, so the
/// residency is untouched. When all names check out, the whole column of
/// every requested field is prefetched in every segment, and on return
/// exactly those columns have been added to the residency.
pub fn warm_up_fastfields(
    ix: &SplitIndex,
    fast_field_names: &Vec<String>,
    resident: &mut ResidencySet,
) -> (r: Result<(), SearchError>)
    ensures
        r is Ok <==> fast_fields_ok(ix.schema, fast_field_names@),
        (match r {
            Ok(_) => final(resident)@ =~= old(resident)@.union(
                column_warmup_set(
                    resolved_fields(ix.schema, fast_field_names@),
                    ix.segments@.len() as int,
                ),
            ),
            Err(e) => final(resident)@ == old(resident)@ && e == spec_fastfield_error(
                ix.schema,
                fast_field_names@,
            ),
        }),
{
    let ghost base = resident@;
    let mut fields: Vec<u64> = Vec::new();
    let mut k: usize = 0;
    while k < fast_field_names.len()
        invariant
            0 <= k <= fast_field_names@.len(),
            fields@.len() == k,
            forall|j: int|
                0 <= j < k ==> ix.schema.spec_has_field(#[trigger] fast_field_names@[j]@)
                    && ix.schema.fields@[ix.schema.spec_get_field(
                    fast_field_names@[j]@,
                )->Some_0].fast,
            forall|j: int|
                0 <= j < k ==> fields@[j] == resolved_field(ix.schema, fast_field_names@[j]),
            resident@ == base,
        decreases fast_field_names@.len() - k,
    {
        let name = &fast_field_names[k];
        match ix.schema.get_field(name) {
            None => {
                proof {
                    lemma_fastfield_error_at(ix.schema, fast_field_names@, k as int);
                }
                return Err(SearchError::SchemaFieldMissing { field_name: name.clone() });
            },
            Some(ord) => {
                proof {
                    let w = ix.schema.spec_get_field(name@)->Some_0;
                    if w < ord as int {
                        assert(ix.schema.fields@[w].name@ != name@);
                    }
                    if (ord as int) < w {
                        assert(ix.schema.fields@[ord as int].name@ != name@);
                    }
                }
                if !ix.schema.is_fast(ord) {
                    proof {
                        lemma_fastfield_error_at(ix.schema, fast_field_names@, k as int);
                    }
                    return Err(SearchError::SchemaFieldNotFast { field_name: name.clone() });
                }
                fields.push(ord as u64);
            },
        }
        k = k + 1;
    }
    let ghost resolved = resolved_fields(ix.schema, fast_field_names@);
    proof {
        assert(fields@ =~= resolved);
    }
    let n_segments = ix.segments.len();
    let mut f: usize = 0;
    proof {
        assert(base.union(column_warmup_set(fields@.take(0), n_segments as int)) =~= base);
    }
    while f < fields.len()
        invariant
            0 <= f <= fields@.len(),
            n_segments == ix.segments@.len(),
            resident@ =~= base.union(column_warmup_set(fields@.take(f as int), n_segments as int)),
        decreases fields@.len() - f,
    {
        let field = fields[f];
        let ghost outer = resident@;
        let mut s: usize = 0;
        proof {
            assert(outer.union(field_segments_set(field, 0)) =~= outer);
        }
        while s < n_segments
            invariant
                0 <= s <= n_segments,
                0 <= f < fields@.len(),
                field == fields@[f as int],
                n_segments == ix.segments@.len(),
                resident@ =~= outer.union(field_segments_set(field, s as int)),
            decreases n_segments - s,
        {
            resident.insert(ResidentItem::Column { segment: s, field });
            proof {
                assert(outer.union(field_segments_set(field, s as int)).insert(
                    column_item(field, s as int),
                ) =~= outer.union(field_segments_set(field, s as int + 1)));
            }
            s = s + 1;
        }
        proof {
            assert(base.union(column_warmup_set(fields@.take(f as int), n_segments as int)).union(
                field_segments_set(field, n_segments as int),
            ) =~= base.union(column_warmup_set(fields@.take(f as int + 1), n_segments as int)))
                by {
                let before = column_warmup_set(fields@.take(f as int), n_segments as int);
                let after = column_warmup_set(fields@.take(f as int + 1), n_segments as int);
                assert forall|it: ResidentItem| after.contains(it) implies before.contains(it)
                    || field_segments_set(field, n_segments as int).contains(it) by {
                    let (f0, s0): (int, int) = choose|f0: int, s0: int|
                        0 <= f0 < fields@.take(f as int + 1).len() && 0 <= s0 < n_segments && it
                            == #[trigger] column_item(fields@.take(f as int + 1)[f0], s0);
                    if f0 < f as int {
                        assert(fields@.take(f as int)[f0] == fields@.take(f as int + 1)[f0]);
                    } else {
                        assert(fields@.take(f as int + 1)[f0] == field);
                    }
                }
                assert forall|it: ResidentItem| before.contains(it) implies after.contains(
                    it,
                ) by {
                    let (f0, s0): (int, int) = choose|f0: int, s0: int|
                        0 <= f0 < fields@.take(f as int).len() && 0 <= s0 < n_segments && it
                            == #[trigger] column_item(fields@.take(f as int)[f0], s0);
                    assert(fields@.take(f as int + 1)[f0] == fields@.take(f as int)[f0]);
                }
                assert forall|it: ResidentItem|
                    field_segments_set(field, n_segments as int).contains(it) implies after
                    .contains(it) by {
                    let s0 = choose|s0: int| 0 <= s0 < n_segments && it == column_item(field, s0);
                    assert(fields@.take(f as int + 1)[f as int] == field);
                }
            }
        }
        f = f + 1;
    }
    proof {
        assert(fields@.take(fields@.len() as int) =~= fields@);
    }
    Ok(())
}

/// Warmup for one split execution: term warmup, then column warmup. The
/// prefetch passes are independent and the scheduler runs them
/// concurrently; what holds on completion is their combined residency.
/// Term warmup cannot fail; a schema error from column warmup fails the
/// whole warmup with the posting lists already resident but no column
/// added.
pub fn warmup(
    ix: &SplitIndex,
    query: &Query,
    fast_field_names: &Vec<String>,
    resident: &mut ResidencySet,
) -> (r: Result<(), SearchError>)
    ensures
        r is Ok <==> fast_fields_ok(ix.schema, fast_field_names@),
        (match r {
            Ok(_) => final(resident)@ =~= old(resident)@.union(
                term_warmup_set(query.terms@, ix.segments@.len() as int),
            ).union(
                column_warmup_set(
                    resolved_fields(ix.schema, fast_field_names@),
                    ix.segments@.len() as int,
                ),
            ),
            Err(e) => final(resident)@ =~= old(resident)@.union(
                term_warmup_set(query.terms@, ix.segments@.len() as int),
            ) && e == spec_fastfield_error(ix.schema, fast_field_names@),
        }),
{
    warm_up_terms(ix, query, resident);
    warm_up_fastfields(ix, fast_field_names, resident)
}

/// Warming is idempotent and tolerates an interleaved sibling: starting
/// from any residency, warming a needed set, then any other set a
/// concurrent call warms, then the needed set again, leaves exactly the
/// union of the three — never partial data — and the needed set is fully
/// resident afterwards. In particular warming the same field of the same
/// split twice is the same as warming it once.
pub proof fn lemma_warmup_idempotent(
    base: Set<ResidentItem>,
    needed: Set<ResidentItem>,
    sibling: Set<ResidentItem>,
)
    ensures
        base.union(needed).union(needed) =~= base.union(needed),
        base.union(needed).union(sibling).union(needed) =~= base.union(needed).union(sibling),
        needed.subset_of(base.union(needed)),
        needed.subset_of(base.union(needed).union(sibling)),
        base.union(needed).union(sibling) =~= base.union(sibling).union(needed),
{
}

} // verus!
