//! The leaf step of a search: per-split execution and the fan-out merge.
//!
//! One split's execution is admission-gated warmup followed by CPU-bound
//! collection: reserve a memory cushion, open the split through the
//! footer cache, translate the request against the split's own schema,
//! warm every posting list and column the execution will touch, release
//! the cushion (the data is resident, there is no further fetch risk),
//! and collect the matching documents. The fan-out runs one execution per
//! requested split, never lets one split's failure abort its siblings,
//! and merges the successful partial results into one ranked response
//! with every failed split recorded as a retryable error.

use vstd::prelude::*;

use crate::admission::MemoryController;
use crate::error::{SearchError, SplitSearchError};
use crate::footer_cache::FooterCache;
use crate::index_model::{DocEntry, Query, RequestTerm, Schema, SearchRequest, SplitIndex};
use crate::storage::StorageModel;
use crate::warmup::warmup;

verus! {

broadcast use vstd::seq_lib::group_to_multiset_ensures;

/// What identifies one split to the leaf engine: its id and the byte
/// range `[split_footer_start, split_footer_end)` its footer occupies in
/// its backing object.
#[derive(Debug)]
pub struct SplitIdAndFooterOffsets {
    pub split_id: String,
    pub split_footer_start: u64,
    pub split_footer_end: u64,
}

/// One ranked hit of one split's partial result.
#[derive(Debug)]
pub struct PartialHit {
    pub split_id: String,
    pub segment_ord: u64,
    pub doc_id: u64,
    pub score: u64,
}

/// The output of the leaf step: the merged partial results of the
/// successful splits, and one retryable [`SplitSearchError`] per split
/// that failed.
#[derive(Debug)]
pub struct LeafSearchResponse {
    pub num_hits: u64,
    pub partial_hits: Vec<PartialHit>,
    pub failed_splits: Vec<SplitSearchError>,
}

/// The engine's configured admission-control parameters: the cushion one
/// warmup commits and the committed-memory threshold above which no new
/// split may start warming up.
#[derive(Debug)]
pub struct LeafSearchConfig {
    pub memory_cushion: u64,
    pub memory_threshold: u64,
}

/// The storage object a split lives in: `<split_id>.split`.
pub open spec fn spec_split_object_name(split_id: Seq<char>) -> Seq<char> {
    split_id + ".split"@
}

/// Build the object name a split's bytes live under.
pub fn split_object_name(split_id: &String) -> (name: String)
    ensures
        name@ == spec_split_object_name(split_id@),
{
    let mut name = split_id.clone();
    name.append(".split");
    name
}

/// Whether the footer range read for this split would succeed against
/// this storage.
pub open spec fn footer_fetch_ok(storage: StorageModel, split: SplitIdAndFooterOffsets) -> bool {
    storage.range_ok(
        spec_split_object_name(split.split_id@),
        split.split_footer_start,
        split.split_footer_end,
    )
}

/// The footer bytes of this split, as storage holds them.
pub open spec fn spec_footer(storage: StorageModel, split: SplitIdAndFooterOffsets) -> Seq<u8> {
    storage.object_bytes(spec_split_object_name(split.split_id@)).subrange(
        split.split_footer_start as int,
        split.split_footer_end as int,
    )
}

/// A footer cache entry for this split, if present, holds exactly what a
/// fetch from storage would return. This is the engine's running
/// invariant: footers are deterministic per split id, so any cached entry
/// agrees with storage, and a hit can stand in for a fetch.
pub open spec fn cache_agrees(
    cache: FooterCache,
    storage: StorageModel,
    split: SplitIdAndFooterOffsets,
) -> bool {
    cache.contains_split(split.split_id@) ==> footer_fetch_ok(storage, split)
        && cache.footer_for(split.split_id@) == spec_footer(storage, split)
}

/// The error a failed footer resolution reports: it names the storage
/// location and the split id.
pub open spec fn spec_storage_error(
    storage: StorageModel,
    split: SplitIdAndFooterOffsets,
) -> SearchError {
    SearchError::StorageFetch { storage_uri: storage.uri, split_id: split.split_id }
}

/// Resolve a split's footer: serve it from the cache when present, else
/// fetch exactly the footer byte range from storage and populate the
/// cache. A cache hit issues no storage fetch at all; a miss issues
/// exactly one. The cache stays well-formed, entries of other splits are
/// never corrupted, and on a successful fetch the footer (when it fits
/// the cache capacity at all) is cached for the next open of the same
/// split.
pub fn get_split_footer_from_cache_or_fetch(
    storage: &mut StorageModel,
    cache: &mut FooterCache,
    split: &SplitIdAndFooterOffsets,
) -> (r: Result<Vec<u8>, SearchError>)
    requires
        old(cache).wf(),
        old(storage).fetch_count < u64::MAX,
    ensures
        final(cache).wf(),
        final(cache).spec_capacity() == old(cache).spec_capacity(),
        final(storage).uri == old(storage).uri,
        final(storage).objects == old(storage).objects,
        old(cache).contains_split(split.split_id@) ==> {
            &&& final(storage).fetch_count == old(storage).fetch_count
            &&& *final(cache) == *old(cache)
            &&& (r matches Ok(footer) && footer@ == old(cache).footer_for(split.split_id@))
        },
        !old(cache).contains_split(split.split_id@) ==> {
            &&& final(storage).fetch_count == old(storage).fetch_count + 1
            &&& (r is Ok <==> footer_fetch_ok(*old(storage), *split))
            &&& (match r {
                Ok(footer) => {
                    &&& footer@ == spec_footer(*old(storage), *split)
                    &&& (spec_footer(*old(storage), *split).len() <= old(cache).spec_capacity()
                        ==> final(cache).contains_split(split.split_id@)
                            && final(cache).footer_for(split.split_id@) == spec_footer(
                            *old(storage),
                            *split,
                        ))
                },
                Err(e) => e == spec_storage_error(*old(storage), *split) && *final(cache)
                    == *old(cache),
            })
        },
        forall|id2: Seq<char>|
            #[trigger] final(cache).contains_split(id2) && id2 != split.split_id@
                ==> old(cache).contains_split(id2) && final(cache).footer_for(id2)
                    == old(cache).footer_for(id2),
        final(cache).contains_split(split.split_id@) && !old(cache).contains_split(
            split.split_id@,
        ) ==> final(cache).footer_for(split.split_id@) == spec_footer(*old(storage), *split),
{
    match cache.get(&split.split_id) {
        Some(footer) => Ok(footer),
        None => {
            let split_file = split_object_name(&split.split_id);
            match storage.get_byte_range(
                &split_file,
                split.split_footer_start,
                split.split_footer_end,
            ) {
                Some(footer) => {
                    let footer_for_cache = footer.clone();
                    cache.put(split.split_id.clone(), footer_for_cache);
                    Ok(footer)
                },
                None => Err(
                    SearchError::StorageFetch {
                        storage_uri: storage.uri.clone(),
                        split_id: split.split_id.clone(),
                    },
                ),
            }
        },
    }
}

/// A handle on one split's queryable index: the footer bytes that
/// describe its bundle, and where the denoted index stands in storage.
/// The handle is built fresh for every leaf execution and dropped at its
/// end; it is never cached across requests.
#[derive(Debug)]
pub struct QueryableIndexHandle {
    pub footer: Vec<u8>,
    pub object_index: usize,
}

/// Open one split's index: resolve the footer through the cache, then
/// bind the handle to the split's object. Any failure carries the split
/// id (and the storage location), and aborts only this split's
/// execution, never a sibling's.
pub fn open_index(
    storage: &mut StorageModel,
    cache: &mut FooterCache,
    split: &SplitIdAndFooterOffsets,
) -> (r: Result<QueryableIndexHandle, SearchError>)
    requires
        old(cache).wf(),
        old(storage).fetch_count < u64::MAX,
        cache_agrees(*old(cache), *old(storage), *split),
    ensures
        final(cache).wf(),
        final(cache).spec_capacity() == old(cache).spec_capacity(),
        final(storage).uri == old(storage).uri,
        final(storage).objects == old(storage).objects,
        old(cache).contains_split(split.split_id@) ==> final(storage).fetch_count == old(
            storage,
        ).fetch_count,
        !old(cache).contains_split(split.split_id@) ==> final(storage).fetch_count == old(
            storage,
        ).fetch_count + 1,
        r is Ok <==> footer_fetch_ok(*old(storage), *split),
        (match r {
            Ok(handle) => {
                &&& handle.footer@ == spec_footer(*old(storage), *split)
                &&& handle.object_index == old(storage).spec_object_at(
                    spec_split_object_name(split.split_id@),
                )
                &&& 0 <= handle.object_index < old(storage).objects@.len()
                &&& old(storage).objects@[handle.object_index as int].name@
                    == spec_split_object_name(split.split_id@)
            },
            Err(e) => e == spec_storage_error(*old(storage), *split),
        }),
        cache_agrees(*final(cache), *final(storage), *split),
        forall|id2: Seq<char>|
            #[trigger] final(cache).contains_split(id2) && id2 != split.split_id@
                ==> old(cache).contains_split(id2) && final(cache).footer_for(id2)
                    == old(cache).footer_for(id2),
{
    let footer = match get_split_footer_from_cache_or_fetch(storage, cache, split) {
        Ok(footer) => footer,
        Err(e) => {
            return Err(e);
        },
    };
    let split_file = split_object_name(&split.split_id);
    match storage.find_object(&split_file) {
        Some(object_index) => Ok(QueryableIndexHandle { footer, object_index }),
        None => Err(
            SearchError::StorageFetch {
                storage_uri: storage.uri.clone(),
                split_id: split.split_id.clone(),
            },
        ),
    }
}

/// The request's terms resolved against one split's schema. A term whose
/// field name the schema lacks is dropped, not an error: schemas can
/// legitimately vary slightly per split, and query construction tolerates
/// the difference.
pub open spec fn resolve_terms(schema: Schema, terms: Seq<RequestTerm>) -> Seq<
    crate::index_model::ResolvedTerm,
>
    decreases terms.len(),
{
    if terms.len() == 0 {
        Seq::empty()
    } else {
        resolve_terms(schema, terms.drop_last()) + (if schema.spec_has_field(
            terms.last().field_name@,
        ) {
            seq![
                crate::index_model::ResolvedTerm {
                    field: schema.spec_get_field(terms.last().field_name@)->Some_0 as u64,
                    term: terms.last().term,
                    position_needed: terms.last().position_needed,
                },
            ]
        } else {
            Seq::empty()
        })
    }
}

/// Translate the request into a query bound to this split's schema: the
/// index-configuration capability of the engine.
pub fn build_query(schema: &Schema, request: &SearchRequest) -> (q: Query)
    ensures
        q.terms@ == resolve_terms(*schema, request.terms@),
{
    let mut terms: Vec<crate::index_model::ResolvedTerm> = Vec::new();
    let mut k: usize = 0;
    proof {
        assert(request.terms@.take(0) =~= Seq::<RequestTerm>::empty());
    }
    while k < request.terms.len()
        invariant
            0 <= k <= request.terms@.len(),
            terms@ == resolve_terms(*schema, request.terms@.take(k as int)),
        decreases request.terms@.len() - k,
    {
        let t = &request.terms[k];
        let ghost before = terms@;
        match schema.get_field(&t.field_name) {
            Some(ord) => {
                proof {
                    let w = schema.spec_get_field(t.field_name@)->Some_0;
                    if w < ord as int {
                        assert(schema.fields@[w].name@ != t.field_name@);
                    }
                    if (ord as int) < w {
                        assert(schema.fields@[ord as int].name@ != t.field_name@);
                    }
                }
                terms.push(
                    crate::index_model::ResolvedTerm {
                        field: ord as u64,
                        term: t.term,
                        position_needed: t.position_needed,
                    },
                );
            },
            None => {},
        }
        proof {
            let taken = request.terms@.take(k as int + 1);
            assert(taken.drop_last() =~= request.terms@.take(k as int));
            assert(taken.last() == request.terms@[k as int]);
            if schema.spec_has_field(request.terms@[k as int].field_name@) {
                assert(terms@ =~= resolve_terms(*schema, taken));
            } else {
                assert(terms@ =~= resolve_terms(*schema, taken));
            }
        }
        k = k + 1;
    }
    proof {
        assert(request.terms@.take(request.terms@.len() as int) =~= request.terms@);
    }
    Query { terms }
}

/// The partial hit one matching posting entry yields.
pub open spec fn spec_hit(split_id: String, segment_ord: int, e: DocEntry) -> PartialHit {
    PartialHit { split_id, segment_ord: segment_ord as u64, doc_id: e.doc_id, score: e.score }
}

/// Whether a document of a segment is already among the collected hits.
pub open spec fn hits_contain_doc(hits: Seq<PartialHit>, segment_ord: int, doc_id: u64) -> bool {
    exists|j: int|
        0 <= j < hits.len() && hits[j].segment_ord == segment_ord as u64 && hits[j].doc_id
            == doc_id
}

/// Collect one posting entry: a document not yet collected joins the
/// hits with the score its posting entry carries; a document already
/// collected (it matched an earlier query term) keeps its first score.
pub open spec fn collect_entry(
    hits: Seq<PartialHit>,
    split_id: String,
    segment_ord: int,
    e: DocEntry,
) -> Seq<PartialHit> {
    if hits_contain_doc(hits, segment_ord, e.doc_id) {
        hits
    } else {
        hits.push(spec_hit(split_id, segment_ord, e))
    }
}

/// Collect a whole posting list, in order.
pub open spec fn collect_entries(
    hits: Seq<PartialHit>,
    split_id: String,
    segment_ord: int,
    docs: Seq<DocEntry>,
) -> Seq<PartialHit>
    decreases docs.len(),
{
    if docs.len() == 0 {
        hits
    } else {
        collect_entries(
            collect_entry(hits, split_id, segment_ord, docs[0]),
            split_id,
            segment_ord,
            docs.drop_first(),
        )
    }
}

/// Collect the posting lists of all query terms against one segment.
pub open spec fn collect_terms(
    hits: Seq<PartialHit>,
    split_id: String,
    segment: crate::index_model::Segment,
    segment_ord: int,
    terms: Seq<crate::index_model::ResolvedTerm>,
) -> Seq<PartialHit>
    decreases terms.len(),
{
    if terms.len() == 0 {
        hits
    } else {
        collect_terms(
            collect_entries(
                hits,
                split_id,
                segment_ord,
                segment.spec_posting(terms[0].field, terms[0].term),
            ),
            split_id,
            segment,
            segment_ord,
            terms.drop_first(),
        )
    }
}

/// Collect all segments of a split, in segment order.
pub open spec fn collect_segments(
    hits: Seq<PartialHit>,
    split_id: String,
    segments: Seq<crate::index_model::Segment>,
    terms: Seq<crate::index_model::ResolvedTerm>,
    s: int,
) -> Seq<PartialHit>
    decreases segments.len() - s,
{
    if s < 0 || s >= segments.len() {
        hits
    } else {
        collect_segments(
            collect_terms(hits, split_id, segments[s], s, terms),
            split_id,
            segments,
            terms,
            s + 1,
        )
    }
}

/// The matching documents of one split for a query: every document that
/// some query term's posting list names, once each, in segment order,
/// posting order within a segment.
pub open spec fn split_hits(
    ix: SplitIndex,
    split_id: String,
    terms: Seq<crate::index_model::ResolvedTerm>,
) -> Seq<PartialHit> {
    collect_segments(Seq::empty(), split_id, ix.segments@, terms, 0)
}

/// Whether this document of this segment is already collected.
fn hits_contain(hits: &Vec<PartialHit>, segment_ord: u64, doc_id: u64) -> (r: bool)
    ensures
        r == hits_contain_doc(hits@, segment_ord as int, doc_id),
{
    let mut j: usize = 0;
    while j < hits.len()
        invariant
            0 <= j <= hits@.len(),
            forall|i: int|
                0 <= i < j ==> !(hits@[i].segment_ord == segment_ord && hits@[i].doc_id == doc_id),
        decreases hits@.len() - j,
    {
        if hits[j].segment_ord == segment_ord && hits[j].doc_id == doc_id {
            return true;
        }
        j = j + 1;
    }
    false
}

/// The CPU-bound execution over one split: walk every query term's
/// posting list in every segment and collect each matching document once.
/// This stands for handing query and collector to the single-node engine;
/// it is a total function of the resident data, so it can never leave the
/// caller hanging.
pub fn collect_hits(ix: &SplitIndex, split_id: &String, query: &Query) -> (hits: Vec<PartialHit>)
    ensures
        hits@ == split_hits(*ix, *split_id, query.terms@),
{
    let mut hits: Vec<PartialHit> = Vec::new();
    let ghost target = split_hits(*ix, *split_id, query.terms@);
    let mut s: usize = 0;
    while s < ix.segments.len()
        invariant
            0 <= s <= ix.segments@.len(),
            collect_segments(hits@, *split_id, ix.segments@, query.terms@, s as int) == target,
        decreases ix.segments@.len() - s,
    {
        let segment = &ix.segments[s];
        let ghost seg_base = hits@;
        let mut t: usize = 0;
        proof {
            assert(query.terms@.skip(0) =~= query.terms@);
        }
        while t < query.terms.len()
            invariant
                0 <= t <= query.terms@.len(),
                0 <= s < ix.segments@.len(),
                segment == &ix.segments@[s as int],
                collect_terms(
                    hits@,
                    *split_id,
                    ix.segments@[s as int],
                    s as int,
                    query.terms@.skip(t as int),
                ) == collect_terms(seg_base, *split_id, ix.segments@[s as int], s as int, query.terms@),
            decreases query.terms@.len() - t,
        {
            let term = query.terms[t];
            let docs = segment.posting(term.field, term.term);
            let ghost term_base = hits@;
            let mut e: usize = 0;
            proof {
                assert(docs@.skip(0) =~= docs@);
            }
            while e < docs.len()
                invariant
                    0 <= e <= docs@.len(),
                    collect_entries(hits@, *split_id, s as int, docs@.skip(e as int))
                        == collect_entries(term_base, *split_id, s as int, docs@),
                decreases docs@.len() - e,
            {
                let entry = docs[e];
                let ghost before_entry = hits@;
                proof {
                    assert(docs@.skip(e as int)[0] == docs@[e as int]);
                    assert(docs@.skip(e as int).drop_first() =~= docs@.skip(e as int + 1));
                }
                if !hits_contain(&hits, s as u64, entry.doc_id) {
                    hits.push(
                        PartialHit {
                            split_id: split_id.clone(),
                            segment_ord: s as u64,
                            doc_id: entry.doc_id,
                            score: entry.score,
                        },
                    );
                    proof {
                        assert(hits@ =~= collect_entry(before_entry, *split_id, s as int, entry));
                    }
                }
                e = e + 1;
            }
            proof {
                assert(docs@.skip(docs@.len() as int) =~= Seq::<DocEntry>::empty());
                assert(query.terms@.skip(t as int)[0] == query.terms@[t as int]);
                assert(query.terms@.skip(t as int).drop_first() =~= query.terms@.skip(t as int + 1));
            }
            t = t + 1;
        }
        proof {
            assert(query.terms@.skip(query.terms@.len() as int) =~= Seq::<
                crate::index_model::ResolvedTerm,
            >::empty());
        }
        s = s + 1;
    }
    hits
}

/// The index a split's object denotes.
pub open spec fn split_index_of(storage: StorageModel, split: SplitIdAndFooterOffsets) -> SplitIndex {
    storage.objects@[storage.spec_object_at(spec_split_object_name(split.split_id@))].index
}

/// Whether one split's whole leaf execution succeeds against this
/// storage: its footer range read succeeds, and every fast field the
/// collector asks for exists in the split's schema and is columnar.
pub open spec fn split_ok(
    storage: StorageModel,
    split: SplitIdAndFooterOffsets,
    request: SearchRequest,
) -> bool {
    &&& footer_fetch_ok(storage, split)
    &&& crate::warmup::fast_fields_ok(split_index_of(storage, split).schema, request.fast_field_names@)
}

/// The error a failing split reports: a storage error when its footer
/// cannot be read, else the schema error of its column warmup.
pub open spec fn spec_split_error(
    storage: StorageModel,
    split: SplitIdAndFooterOffsets,
    request: SearchRequest,
) -> SearchError {
    if !footer_fetch_ok(storage, split) {
        spec_storage_error(storage, split)
    } else {
        crate::warmup::spec_fastfield_error(
            split_index_of(storage, split).schema,
            request.fast_field_names@,
        )
    }
}

/// The hits a successful split execution returns.
pub open spec fn spec_split_hits(
    storage: StorageModel,
    split: SplitIdAndFooterOffsets,
    request: SearchRequest,
) -> Seq<PartialHit> {
    split_hits(
        split_index_of(storage, split),
        split.split_id,
        resolve_terms(split_index_of(storage, split).schema, request.terms@),
    )
}

/// Apply a leaf search on a single split.
///
/// The sequence is: commit the configured memory cushion (the caller only
/// schedules this execution once the admission gate is open), open the
/// index through the footer cache, build the split-bound query and
/// collector, warm up everything they will touch, release the cushion —
/// the data is resident, so the fetch risk is over, and the engine
/// deliberately does not track the CPU phase's real footprint — and
/// collect. The cushion is released on every path, success or error, so a
/// failed split can never starve the admission gate. Every error is
/// tagged with the split id.
pub fn leaf_search_single_split(
    request: &SearchRequest,
    storage: &mut StorageModel,
    cache: &mut FooterCache,
    controller: &mut MemoryController,
    split: &SplitIdAndFooterOffsets,
    config: &LeafSearchConfig,
) -> (r: Result<LeafSearchResponse, SearchError>)
    requires
        old(cache).wf(),
        cache_agrees(*old(cache), *old(storage), *split),
        old(storage).fetch_count < u64::MAX,
        old(controller).committed() + config.memory_cushion <= u64::MAX,
        old(controller).admits(config.memory_threshold),
    ensures
        final(cache).wf(),
        final(cache).spec_capacity() == old(cache).spec_capacity(),
        final(storage).uri == old(storage).uri,
        final(storage).objects == old(storage).objects,
        final(storage).fetch_count <= old(storage).fetch_count + 1,
        final(controller).committed() == old(controller).committed(),
        r is Ok <==> split_ok(*old(storage), *split, *request),
        (match r {
            Ok(resp) => {
                &&& resp.partial_hits@ == spec_split_hits(*old(storage), *split, *request)
                &&& resp.num_hits == spec_split_hits(*old(storage), *split, *request).len()
                &&& resp.failed_splits@.len() == 0
            },
            Err(e) => e == spec_split_error(*old(storage), *split, *request),
        }),
        cache_agrees(*final(cache), *final(storage), *split),
        forall|id2: Seq<char>|
            #[trigger] final(cache).contains_split(id2) && id2 != split.split_id@
                ==> old(cache).contains_split(id2) && final(cache).footer_for(id2)
                    == old(cache).footer_for(id2),
{
    let reservation = match controller.try_reserve(
        config.memory_cushion,
        config.memory_threshold,
    ) {
        Some(reservation) => reservation,
        None => unreached(),
    };
    let handle = match open_index(storage, cache, split) {
        Ok(handle) => handle,
        Err(e) => {
            controller.release(reservation);
            return Err(e);
        },
    };
    let ix = &storage.objects[handle.object_index].index;
    let query = build_query(&ix.schema, request);
    let mut resident = crate::warmup::ResidencySet::new();
    match warmup(ix, &query, &request.fast_field_names, &mut resident) {
        Ok(_) => {},
        Err(e) => {
            controller.release(reservation);
            return Err(e);
        },
    }
    controller.release(reservation);
    let hits = collect_hits(ix, &split.split_id, &query);
    let num_hits = hits.len();
    Ok(
        LeafSearchResponse {
            num_hits: num_hits as u64,
            partial_hits: hits,
            failed_splits: Vec::new(),
        },
    )
}

/// Hits ranked best first: scores never increase along the sequence.
pub open spec fn sorted_desc(hits: Seq<PartialHit>) -> bool {
    forall|i: int, j: int| 0 <= i < j < hits.len() ==> hits[i].score >= hits[j].score
}

proof fn lemma_insert_to_multiset(s: Seq<PartialHit>, i: int, x: PartialHit)
    requires
        0 <= i <= s.len(),
    ensures
        s.insert(i, x).to_multiset() =~= s.to_multiset().insert(x),
{
    let t = s.insert(i, x);
    assert(t[i] == x);
    assert(t.remove(i) =~= s);
    assert(t.remove(i).to_multiset() =~= t.to_multiset().remove(x));
    assert(t.contains(x));
    assert(t.to_multiset().count(x) > 0);
    assert forall|y: PartialHit| t.to_multiset().count(y) == s.to_multiset().insert(x).count(
        y,
    ) by {
        assert(s.to_multiset() == t.to_multiset().remove(x));
    }
}

/// Insert one hit into a best-first sequence, keeping it best-first.
fn sorted_insert(hits: &mut Vec<PartialHit>, hit: PartialHit)
    requires
        sorted_desc(old(hits)@),
    ensures
        sorted_desc(final(hits)@),
        final(hits)@.to_multiset() == old(hits)@.to_multiset().insert(hit),
        final(hits)@.len() == old(hits)@.len() + 1,
{
    let mut i: usize = 0;
    while i < hits.len() && hits[i].score >= hit.score
        invariant
            0 <= i <= hits@.len(),
            forall|j: int| 0 <= j < i ==> hits@[j].score >= hit.score,
            *hits == *old(hits),
        decreases hits@.len() - i,
    {
        i = i + 1;
    }
    proof {
        lemma_insert_to_multiset(hits@, i as int, hit);
        assert forall|a: int, b: int|
            0 <= a < b < hits@.insert(i as int, hit).len() implies hits@.insert(
            i as int,
            hit,
        )[a].score >= hits@.insert(i as int, hit)[b].score by {
            let t = hits@.insert(i as int, hit);
            if a < i {
                assert(t[a] == hits@[a]);
            } else if a == i {
                assert(t[a] == hit);
            } else {
                assert(t[a] == hits@[a - 1]);
            }
            if b < i {
                assert(t[b] == hits@[b]);
            } else if b == i {
                assert(t[b] == hit);
            } else {
                assert(t[b] == hits@[b - 1]);
            }
        }
    }
    hits.insert(i, hit);
}

/// The hit count of a merged set of partial responses: the saturating sum
/// of the per-split counts.
pub open spec fn sum_num_hits(responses: Seq<LeafSearchResponse>) -> u64
    decreases responses.len(),
{
    if responses.len() == 0 {
        0u64
    } else {
        sum_num_hits(responses.drop_last()).saturating_add(responses.last().num_hits)
    }
}

/// All hits of a set of partial responses, in response order.
pub open spec fn responses_hits(responses: Seq<LeafSearchResponse>) -> Seq<PartialHit>
    decreases responses.len(),
{
    if responses.len() == 0 {
        Seq::empty()
    } else {
        responses_hits(responses.drop_last()) + responses.last().partial_hits@
    }
}

/// Merge the partial responses of the successful splits into one: total
/// hit count is the (saturating) sum of the per-split counts, and the
/// merged hit list is the best `max_hits` of all per-split hits, ranked
/// by score — the compute-bound top-k fold the CPU pool runs.
pub fn merge_partial_responses(max_hits: usize, responses: Vec<LeafSearchResponse>) -> (merged:
    LeafSearchResponse)
    ensures
        merged.num_hits == sum_num_hits(responses@),
        merged.failed_splits@.len() == 0,
        exists|s: Seq<PartialHit>|
            {
                &&& #[trigger] sorted_desc(s)
                &&& s.to_multiset() == responses_hits(responses@).to_multiset()
                &&& s.len() == responses_hits(responses@).len()
                &&& merged.partial_hits@ == s.take(
                    if max_hits <= s.len() {
                        max_hits as int
                    } else {
                        s.len() as int
                    },
                )
            },
{
    let ghost orig = responses@;
    let mut responses = responses;
    let n_responses = responses.len();
    let mut num_hits: u64 = 0;
    let mut all_hits: Vec<PartialHit> = Vec::new();
    let mut k: usize = 0;
    proof {
        assert(orig.take(0) =~= Seq::<LeafSearchResponse>::empty());
        assert(responses_hits(orig.take(0)).to_multiset() =~= Seq::<
            PartialHit,
        >::empty().to_multiset());
    }
    while responses.len() > 0
        invariant
            responses@ == orig.skip(k as int),
            0 <= k <= orig.len(),
            k + responses@.len() == n_responses,
            num_hits == sum_num_hits(orig.take(k as int)),
            sorted_desc(all_hits@),
            all_hits@.to_multiset() == responses_hits(orig.take(k as int)).to_multiset(),
            all_hits@.len() == responses_hits(orig.take(k as int)).len(),
        decreases responses@.len(),
    {
        let resp = responses.remove(0);
        proof {
            assert(orig.skip(k as int)[0] == orig[k as int]);
            assert(orig.skip(k as int).remove(0) =~= orig.skip(k as int + 1));
        }
        num_hits = num_hits.saturating_add(resp.num_hits);
        let ghost seg_base_ms = all_hits@.to_multiset();
        let ghost resp_hits = resp.partial_hits@;
        let mut hits = resp.partial_hits;
        let n_hits = hits.len();
        let mut e: usize = 0;
        proof {
            assert(resp_hits.take(0) =~= Seq::<PartialHit>::empty());
            assert(all_hits@.to_multiset().len() == all_hits@.len());
            assert forall|y: PartialHit|
                seg_base_ms.add(resp_hits.take(0).to_multiset()).count(y) == seg_base_ms.count(
                    y,
                ) by {
                assert(!resp_hits.take(0).contains(y));
                assert(resp_hits.take(0).to_multiset().count(y) == 0);
            }
            assert(seg_base_ms.add(resp_hits.take(0).to_multiset()) =~= seg_base_ms);
        }
        while hits.len() > 0
            invariant
                hits@ == resp_hits.skip(e as int),
                0 <= e <= resp_hits.len(),
                e + hits@.len() == n_hits,
                sorted_desc(all_hits@),
                all_hits@.to_multiset() == seg_base_ms.add(resp_hits.take(e as int).to_multiset()),
                all_hits@.len() == seg_base_ms.len() + e,
            decreases hits@.len(),
        {
            proof {
                assert(resp_hits.skip(e as int).len() > 0);
                assert(0 <= e < resp_hits.len());
            }
            let h = hits.remove(0);
            proof {
                assert(resp_hits.skip(e as int)[0] == resp_hits[e as int]);
                assert(resp_hits.skip(e as int).remove(0) =~= resp_hits.skip(e as int + 1));
                assert(resp_hits.take(e as int).push(resp_hits[e as int]) =~= resp_hits.take(
                    e as int + 1,
                ));
                assert(resp_hits.take(e as int).push(resp_hits[e as int]).to_multiset()
                    =~= resp_hits.take(e as int).to_multiset().insert(resp_hits[e as int]));
                assert(resp_hits.take(e as int + 1).to_multiset() == resp_hits.take(
                    e as int,
                ).to_multiset().insert(resp_hits[e as int]));
            }
            sorted_insert(&mut all_hits, h);
            proof {
                assert forall|y: PartialHit|
                    all_hits@.to_multiset().count(y) == seg_base_ms.add(
                        resp_hits.take(e as int + 1).to_multiset(),
                    ).count(y) by {
                    assert(all_hits@.to_multiset() == seg_base_ms.add(
                        resp_hits.take(e as int).to_multiset(),
                    ).insert(h));
                }
                assert(all_hits@.to_multiset() =~= seg_base_ms.add(
                    resp_hits.take(e as int + 1).to_multiset(),
                ));
            }
            e = e + 1;
        }
        proof {
            assert(resp_hits.skip(resp_hits.len() as int) =~= Seq::<PartialHit>::empty());
            assert(resp_hits.take(resp_hits.len() as int) =~= resp_hits);
            assert(orig.take(k as int + 1).drop_last() =~= orig.take(k as int));
            assert(orig.take(k as int + 1).last() == orig[k as int]);
            vstd::seq_lib::lemma_multiset_commutative(
                responses_hits(orig.take(k as int)),
                orig[k as int].partial_hits@,
            );
        }
        k = k + 1;
    }
    proof {
        assert(orig.take(orig.len() as int) =~= orig);
    }
    let ghost full = all_hits@;
    let keep = if max_hits <= all_hits.len() {
        max_hits
    } else {
        all_hits.len()
    };
    all_hits.truncate(keep);
    proof {
        assert(all_hits@ =~= full.take(
            if max_hits <= full.len() {
                max_hits as int
            } else {
                full.len() as int
            },
        ));
    }
    LeafSearchResponse { num_hits, partial_hits: all_hits, failed_splits: Vec::new() }
}

proof fn first_match_exists(objects: Seq<crate::storage::SplitObject>, name: Seq<char>, i: int)
    requires
        0 <= i < objects.len(),
        objects[i].name@ == name,
    ensures
        exists|w: int|
            0 <= w < objects.len() && (#[trigger] objects[w]).name@ == name && (forall|j: int|
                0 <= j < w ==> objects[j].name@ != name),
    decreases i,
{
    if forall|j: int| 0 <= j < i ==> (#[trigger] objects[j]).name@ != name {
        assert(0 <= i < objects.len() && objects[i].name@ == name && (forall|j: int|
            0 <= j < i ==> objects[j].name@ != name));
    } else {
        let j = choose|j: int| 0 <= j < i && (#[trigger] objects[j]).name@ == name;
        first_match_exists(objects, name, j);
    }
}

/// The verdicts and results of one split depend only on the objects and
/// the location of the storage, never on its fetch counter: issuing a
/// fetch changes no outcome.
pub proof fn lemma_split_outcome_congruent(
    s1: StorageModel,
    s2: StorageModel,
    split: SplitIdAndFooterOffsets,
    request: SearchRequest,
)
    requires
        s1.objects == s2.objects,
        s1.uri == s2.uri,
    ensures
        footer_fetch_ok(s1, split) == footer_fetch_ok(s2, split),
        footer_fetch_ok(s1, split) ==> spec_footer(s1, split) == spec_footer(s2, split),
        footer_fetch_ok(s1, split) ==> split_index_of(s1, split) == split_index_of(s2, split),
        split_ok(s1, split, request) == split_ok(s2, split, request),
        spec_split_error(s1, split, request) == spec_split_error(s2, split, request),
        footer_fetch_ok(s1, split) ==> spec_split_hits(s1, split, request) == spec_split_hits(
            s2,
            split,
            request,
        ),
{
    let name = spec_split_object_name(split.split_id@);
    if s1.contains_object(name) {
        let i = choose|i: int|
            0 <= i < s1.objects@.len() && (#[trigger] s1.objects@[i]).name@ == name;
        first_match_exists(s1.objects@, name, i);
        let w1 = s1.spec_object_at(name);
        let w2 = s2.spec_object_at(name);
        assert(0 <= w1 < s1.objects@.len() && s1.objects@[w1].name@ == name && (forall|j: int|
            0 <= j < w1 ==> s1.objects@[j].name@ != name));
        assert(0 <= w2 < s2.objects@.len() && s2.objects@[w2].name@ == name && (forall|j: int|
            0 <= j < w2 ==> s2.objects@[j].name@ != name));
        if w1 < w2 {
            assert(s2.objects@[w1].name@ != name);
        }
        if w2 < w1 {
            assert(s1.objects@[w2].name@ != name);
        }
        assert(w1 == w2);
    }
}

/// The splits of a fan-out that fail, in request order.
pub open spec fn failing_splits(
    storage: StorageModel,
    splits: Seq<SplitIdAndFooterOffsets>,
    request: SearchRequest,
) -> Seq<SplitIdAndFooterOffsets>
    decreases splits.len(),
{
    if splits.len() == 0 {
        Seq::empty()
    } else {
        failing_splits(storage, splits.drop_last(), request) + (if split_ok(
            storage,
            splits.last(),
            request,
        ) {
            Seq::empty()
        } else {
            seq![splits.last()]
        })
    }
}

/// The per-split hit counts of the splits that succeed, in request order.
pub open spec fn success_nums(
    storage: StorageModel,
    splits: Seq<SplitIdAndFooterOffsets>,
    request: SearchRequest,
) -> Seq<u64>
    decreases splits.len(),
{
    if splits.len() == 0 {
        Seq::empty()
    } else {
        success_nums(storage, splits.drop_last(), request) + (if split_ok(
            storage,
            splits.last(),
            request,
        ) {
            seq![spec_split_hits(storage, splits.last(), request).len() as u64]
        } else {
            Seq::empty()
        })
    }
}

/// All hits of the splits that succeed, in request order.
pub open spec fn success_hits(
    storage: StorageModel,
    splits: Seq<SplitIdAndFooterOffsets>,
    request: SearchRequest,
) -> Seq<PartialHit>
    decreases splits.len(),
{
    if splits.len() == 0 {
        Seq::empty()
    } else {
        success_hits(storage, splits.drop_last(), request) + (if split_ok(
            storage,
            splits.last(),
            request,
        ) {
            spec_split_hits(storage, splits.last(), request)
        } else {
            Seq::empty()
        })
    }
}

/// The saturating sum of a sequence of counts.
pub open spec fn sat_sum(nums: Seq<u64>) -> u64
    decreases nums.len(),
{
    if nums.len() == 0 {
        0u64
    } else {
        sat_sum(nums.drop_last()).saturating_add(nums.last())
    }
}

/// Every split of a fan-out either contributes to the merged result or
/// stands in the failure list, never both and never neither: with N
/// requested splits of which K fail, exactly N − K contribute their hit
/// counts and exactly K are recorded as failures.
pub proof fn lemma_outcome_partition(
    storage: StorageModel,
    splits: Seq<SplitIdAndFooterOffsets>,
    request: SearchRequest,
)
    ensures
        success_nums(storage, splits, request).len() + failing_splits(storage, splits, request).len()
            == splits.len(),
    decreases splits.len(),
{
    if splits.len() > 0 {
        lemma_outcome_partition(storage, splits.drop_last(), request);
    }
}

/// Two requested splits that carry the same split id name the same footer
/// range: a split's footer is deterministic for its id.
pub open spec fn splits_consistent(splits: Seq<SplitIdAndFooterOffsets>) -> bool {
    forall|i: int, j: int|
        0 <= i < splits.len() && 0 <= j < splits.len() && (#[trigger] splits[i]).split_id@
            == (#[trigger] splits[j]).split_id@ ==> splits[i].split_footer_start
            == splits[j].split_footer_start && splits[i].split_footer_end
            == splits[j].split_footer_end
}

/// The leaf step of a search.
///
/// Runs one per-split execution for every requested split — concurrently
/// in the scheduler, bounded only by the admission controller — waits for
/// every outcome, and partitions them: the successful partial responses
/// are merged into one ranked response, and every failed split is
/// recorded in the failure list with its error message and
/// `retryable_error` set, in request order. One split's failure never
/// aborts its siblings, nothing is retried here, and the result ranks
/// hits by score, not by split order. The merged response reports the sum
/// of the per-split hit counts, the best `max_hits` hits overall, and one
/// failure entry per failing split.
#[verifier::rlimit(100)]
pub fn leaf_search(
    request: &SearchRequest,
    storage: &mut StorageModel,
    cache: &mut FooterCache,
    controller: &mut MemoryController,
    splits: &Vec<SplitIdAndFooterOffsets>,
    config: &LeafSearchConfig,
) -> (r: Result<LeafSearchResponse, SearchError>)
    requires
        old(cache).wf(),
        forall|i: int|
            0 <= i < splits@.len() ==> cache_agrees(
                *old(cache),
                *old(storage),
                #[trigger] splits@[i],
            ),
        splits_consistent(splits@),
        old(storage).fetch_count + splits@.len() <= u64::MAX,
        old(controller).committed() + config.memory_cushion <= u64::MAX,
        old(controller).admits(config.memory_threshold),
    ensures
        r is Ok,
        final(cache).wf(),
        final(storage).uri == old(storage).uri,
        final(storage).objects == old(storage).objects,
        final(storage).fetch_count <= old(storage).fetch_count + splits@.len(),
        final(controller).committed() == old(controller).committed(),
        (match r {
            Ok(resp) => {
                &&& resp.num_hits == sat_sum(success_nums(*old(storage), splits@, *request))
                &&& exists|s: Seq<PartialHit>|
                    {
                        &&& #[trigger] sorted_desc(s)
                        &&& s.to_multiset() == success_hits(
                            *old(storage),
                            splits@,
                            *request,
                        ).to_multiset()
                        &&& s.len() == success_hits(*old(storage), splits@, *request).len()
                        &&& resp.partial_hits@ == s.take(
                            if request.max_hits <= s.len() {
                                request.max_hits as int
                            } else {
                                s.len() as int
                            },
                        )
                    }
                &&& resp.failed_splits@.len() == failing_splits(
                    *old(storage),
                    splits@,
                    *request,
                ).len()
                &&& forall|k: int|
                    0 <= k < resp.failed_splits@.len() ==> {
                        let failed = failing_splits(*old(storage), splits@, *request);
                        &&& (#[trigger] resp.failed_splits@[k]).split_id == failed[k].split_id
                        &&& resp.failed_splits@[k].retryable_error == true
                        &&& resp.failed_splits@[k].error@ == crate::error::error_message(
                            spec_split_error(*old(storage), failed[k], *request),
                        )
                    }
            },
            Err(_) => false,
        }),
{
    let ghost storage0 = *old(storage);
    let mut responses: Vec<LeafSearchResponse> = Vec::new();
    let mut failed: Vec<SplitSearchError> = Vec::new();
    let mut i: usize = 0;
    proof {
        assert(splits@.take(0) =~= Seq::<SplitIdAndFooterOffsets>::empty());
    }
    while i < splits.len()
        invariant
            0 <= i <= splits@.len(),
            cache.wf(),
            storage.uri == storage0.uri,
            storage.objects == storage0.objects,
            storage.fetch_count <= storage0.fetch_count + i,
            storage0.fetch_count + splits@.len() <= u64::MAX,
            controller.committed() == old(controller).committed(),
            old(controller).committed() + config.memory_cushion <= u64::MAX,
            old(controller).admits(config.memory_threshold),
            splits_consistent(splits@),
            forall|j: int|
                0 <= j < splits@.len() ==> cache_agrees(*cache, *storage, #[trigger] splits@[j]),
            sum_num_hits(responses@) == sat_sum(success_nums(storage0, splits@.take(i as int), *request)),
            responses_hits(responses@) == success_hits(storage0, splits@.take(i as int), *request),
            failed@.len() == failing_splits(storage0, splits@.take(i as int), *request).len(),
            forall|k: int|
                0 <= k < failed@.len() ==> {
                    let failing = failing_splits(storage0, splits@.take(i as int), *request);
                    &&& (#[trigger] failed@[k]).split_id == failing[k].split_id
                    &&& failed@[k].retryable_error == true
                    &&& failed@[k].error@ == crate::error::error_message(
                        spec_split_error(storage0, failing[k], *request),
                    )
                },
        decreases splits@.len() - i,
    {
        let split = &splits[i];
        let ghost pre_storage = *storage;
        let ghost pre_cache = *cache;
        proof {
            lemma_split_outcome_congruent(pre_storage, storage0, *split, *request);
        }
        let outcome = leaf_search_single_split(request, storage, cache, controller, split, config);
        proof {
            lemma_split_outcome_congruent(*storage, storage0, *split, *request);
            assert forall|j: int|
                0 <= j < splits@.len() implies cache_agrees(
                *cache,
                *storage,
                #[trigger] splits@[j],
            ) by {
                let other = splits@[j];
                if other.split_id@ == split.split_id@ {
                    assert(cache_agrees(*cache, *storage, *split));
                } else {
                    if cache.contains_split(other.split_id@) {
                        assert(pre_cache.contains_split(other.split_id@));
                        assert(cache_agrees(pre_cache, pre_storage, other));
                        lemma_split_outcome_congruent(pre_storage, *storage, other, *request);
                    }
                }
            }
            assert(splits@.take(i as int + 1).drop_last() =~= splits@.take(i as int));
            assert(splits@.take(i as int + 1).last() == splits@[i as int]);
        }
        let ghost prev_responses = responses@;
        let ghost prev_failed = failed@;
        match outcome {
            Ok(resp) => {
                responses.push(resp);
                proof {
                    assert(responses@.drop_last() =~= prev_responses);
                    assert(responses_hits(responses@) =~= success_hits(
                        storage0,
                        splits@.take(i as int + 1),
                        *request,
                    ));
                    let nums = success_nums(storage0, splits@.take(i as int + 1), *request);
                    assert(nums.drop_last() =~= success_nums(
                        storage0,
                        splits@.take(i as int),
                        *request,
                    ));
                }
            },
            Err(err) => {
                let entry = SplitSearchError {
                    split_id: split.split_id.clone(),
                    error: err.describe(),
                    retryable_error: true,
                };
                failed.push(entry);
                proof {
                    assert(failed@.drop_last() =~= prev_failed);
                    assert(success_nums(storage0, splits@.take(i as int + 1), *request)
                        =~= success_nums(storage0, splits@.take(i as int), *request));
                    assert(success_hits(storage0, splits@.take(i as int + 1), *request)
                        =~= success_hits(storage0, splits@.take(i as int), *request));
                    let failing = failing_splits(storage0, splits@.take(i as int + 1), *request);
                    assert(failing.drop_last() =~= failing_splits(
                        storage0,
                        splits@.take(i as int),
                        *request,
                    ));
                    assert(failing.last() == splits@[i as int]);
                }
            },
        }
        i = i + 1;
    }
    proof {
        assert(splits@.take(splits@.len() as int) =~= splits@);
    }
    let mut merged = merge_partial_responses(request.max_hits, responses);
    merged.failed_splits = failed;
    Ok(merged)
}

} // verus!
