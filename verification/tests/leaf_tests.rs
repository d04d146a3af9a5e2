use quickwit_leaf::admission::MemoryController;
use quickwit_leaf::error::SearchError;
use quickwit_leaf::footer_cache::FooterCache;
use quickwit_leaf::index_model::{
    DocEntry, FieldEntry, PostingList, RequestTerm, Schema, SearchRequest, Segment, SplitIndex,
};
use quickwit_leaf::leaf::{
    get_split_footer_from_cache_or_fetch, leaf_search, leaf_search_single_split, open_index,
    split_object_name, LeafSearchConfig, SplitIdAndFooterOffsets,
};
use quickwit_leaf::storage::{SplitObject, StorageModel};

fn one_field_schema(name: &str, fast: bool) -> Schema {
    Schema { fields: vec![FieldEntry { name: name.to_string(), fast }] }
}

fn posting(field: u64, term: u64, docs: Vec<(u64, u64)>) -> PostingList {
    PostingList {
        field,
        term,
        docs: docs.into_iter().map(|(doc_id, score)| DocEntry { doc_id, score }).collect(),
    }
}

/// A split whose one segment holds one posting list for (field 0, term 7).
fn split_index(docs: Vec<(u64, u64)>) -> SplitIndex {
    SplitIndex {
        schema: one_field_schema("body", true),
        segments: vec![Segment { postings: vec![posting(0, 7, docs)] }],
    }
}

fn split_object(split_id: &str, footer_len: usize, index: SplitIndex) -> SplitObject {
    SplitObject {
        name: format!("{}.split", split_id),
        bytes: vec![1u8; footer_len],
        index,
    }
}

fn descriptor(split_id: &str, start: u64, end: u64) -> SplitIdAndFooterOffsets {
    SplitIdAndFooterOffsets {
        split_id: split_id.to_string(),
        split_footer_start: start,
        split_footer_end: end,
    }
}

fn request_term7(fast_fields: Vec<&str>) -> SearchRequest {
    SearchRequest {
        terms: vec![RequestTerm { field_name: "body".to_string(), term: 7, position_needed: false }],
        fast_field_names: fast_fields.into_iter().map(|s| s.to_string()).collect(),
        max_hits: 10,
    }
}

fn config() -> LeafSearchConfig {
    LeafSearchConfig { memory_cushion: 1_000, memory_threshold: 10_000 }
}

#[test]
fn test_split_object_name() {
    assert_eq!(split_object_name(&"abc".to_string()), "abc.split");
}

#[test]
fn test_storage_get_byte_range() {
    let mut storage = StorageModel {
        uri: "ram://test".to_string(),
        objects: vec![SplitObject {
            name: "a.split".to_string(),
            bytes: vec![10, 20, 30, 40],
            index: split_index(vec![]),
        }],
        fetch_count: 0,
    };
    let bytes = storage.get_byte_range(&"a.split".to_string(), 1, 3).unwrap();
    assert_eq!(bytes, vec![20, 30]);
    assert_eq!(storage.fetch_count, 1);
    // out of range
    assert!(storage.get_byte_range(&"a.split".to_string(), 1, 5).is_none());
    // missing object
    assert!(storage.get_byte_range(&"b.split".to_string(), 0, 1).is_none());
    assert_eq!(storage.fetch_count, 3);
}

#[test]
fn test_footer_cache_roundtrip_and_eviction() {
    let mut cache = FooterCache::with_capacity_in_bytes(8);
    cache.put("a".to_string(), vec![1, 2, 3, 4]);
    cache.put("b".to_string(), vec![5, 6, 7, 8]);
    assert_eq!(cache.get(&"a".to_string()), Some(vec![1, 2, 3, 4]));
    assert_eq!(cache.get(&"b".to_string()), Some(vec![5, 6, 7, 8]));
    // a third entry exceeds the capacity: the oldest entry leaves
    cache.put("c".to_string(), vec![9, 9]);
    assert_eq!(cache.get(&"a".to_string()), None);
    assert_eq!(cache.get(&"c".to_string()), Some(vec![9, 9]));
    // an entry larger than the whole capacity is not cached at all
    cache.put("d".to_string(), vec![0; 9]);
    assert_eq!(cache.get(&"d".to_string()), None);
    // same key overwrites, last writer wins
    cache.put("c".to_string(), vec![1]);
    assert_eq!(cache.get(&"c".to_string()), Some(vec![1]));
}

#[test]
fn test_footer_cached_no_refetch() {
    let mut storage = StorageModel {
        uri: "ram://test".to_string(),
        objects: vec![split_object("s", 16, split_index(vec![(1, 5)]))],
        fetch_count: 0,
    };
    let mut cache = FooterCache::with_capacity_in_bytes(1_000);
    let split = descriptor("s", 4, 12);
    let first = get_split_footer_from_cache_or_fetch(&mut storage, &mut cache, &split).unwrap();
    assert_eq!(storage.fetch_count, 1);
    assert_eq!(first.len(), 8);
    // a second open for the same split within capacity issues no new fetch
    let second = get_split_footer_from_cache_or_fetch(&mut storage, &mut cache, &split).unwrap();
    assert_eq!(storage.fetch_count, 1);
    assert_eq!(second, first);
    // and a full open also resolves the footer without a new fetch
    let handle = open_index(&mut storage, &mut cache, &split).unwrap();
    assert_eq!(storage.fetch_count, 1);
    assert_eq!(handle.footer, first);
}

#[test]
fn test_footer_fetch_error_names_location_and_split() {
    let mut storage =
        StorageModel { uri: "ram://test".to_string(), objects: vec![], fetch_count: 0 };
    let mut cache = FooterCache::with_capacity_in_bytes(1_000);
    let split = descriptor("lost", 0, 8);
    let err = get_split_footer_from_cache_or_fetch(&mut storage, &mut cache, &split).unwrap_err();
    match &err {
        SearchError::StorageFetch { storage_uri, split_id } => {
            assert_eq!(storage_uri, "ram://test");
            assert_eq!(split_id, "lost");
        },
        other => panic!("expected a storage fetch error, got {:?}", other),
    }
    let msg = err.describe();
    assert_eq!(
        msg,
        "failed to fetch hotcache and footer from ram://test for split `lost`"
    );
}

#[test]
fn test_admission_controller_gate() {
    let mut controller = MemoryController::new();
    // threshold below one cushion still admits while nothing is committed
    let reservation = controller.try_reserve(100, 50).unwrap();
    assert_eq!(controller.committed_bytes(), 100);
    // over the threshold: new admissions are refused
    assert!(controller.try_reserve(100, 50).is_none());
    // releasing the in-flight reservation unblocks new admissions
    controller.release(reservation);
    assert_eq!(controller.committed_bytes(), 0);
    assert!(controller.try_reserve(100, 50).is_some());
}

#[test]
fn test_admission_zero_threshold_single_file() {
    let mut controller = MemoryController::new();
    let first = controller.try_reserve(64, 0).unwrap();
    // with the threshold at zero, admissions are serialised
    assert!(controller.try_reserve(64, 0).is_none());
    controller.release(first);
    let second = controller.try_reserve(64, 0);
    assert!(second.is_some());
    assert_eq!(second.unwrap().cushion_bytes(), 64);
}

#[test]
fn test_single_split_execution() {
    let mut storage = StorageModel {
        uri: "ram://test".to_string(),
        objects: vec![split_object("s", 16, split_index(vec![(1, 5), (2, 9)]))],
        fetch_count: 0,
    };
    let mut cache = FooterCache::with_capacity_in_bytes(1_000);
    let mut controller = MemoryController::new();
    let split = descriptor("s", 0, 16);
    let request = request_term7(vec!["body"]);
    let resp = leaf_search_single_split(
        &request,
        &mut storage,
        &mut cache,
        &mut controller,
        &split,
        &config(),
    )
    .unwrap();
    assert_eq!(resp.num_hits, 2);
    assert_eq!(resp.partial_hits.len(), 2);
    assert_eq!(resp.partial_hits[0].split_id, "s");
    assert_eq!(resp.partial_hits[0].doc_id, 1);
    assert_eq!(resp.partial_hits[0].score, 5);
    assert_eq!(resp.partial_hits[1].doc_id, 2);
    // the cushion is back to zero whatever happened
    assert_eq!(controller.committed_bytes(), 0);
}

#[test]
fn test_warmup_missing_field_fails_naming_it() {
    let mut storage = StorageModel {
        uri: "ram://test".to_string(),
        objects: vec![split_object("s", 16, split_index(vec![(1, 5)]))],
        fetch_count: 0,
    };
    let mut cache = FooterCache::with_capacity_in_bytes(1_000);
    let mut controller = MemoryController::new();
    let split = descriptor("s", 0, 16);
    let request = request_term7(vec!["nosuchfield"]);
    let err = leaf_search_single_split(
        &request,
        &mut storage,
        &mut cache,
        &mut controller,
        &split,
        &config(),
    )
    .unwrap_err();
    assert_eq!(
        err,
        SearchError::SchemaFieldMissing { field_name: "nosuchfield".to_string() }
    );
    assert_eq!(controller.committed_bytes(), 0);
}

#[test]
fn test_warmup_non_fast_field_fails_distinctly() {
    let mut storage = StorageModel {
        uri: "ram://test".to_string(),
        objects: vec![split_object(
            "s",
            16,
            SplitIndex {
                schema: one_field_schema("body", false),
                segments: vec![Segment { postings: vec![posting(0, 7, vec![(1, 5)])] }],
            },
        )],
        fetch_count: 0,
    };
    let mut cache = FooterCache::with_capacity_in_bytes(1_000);
    let mut controller = MemoryController::new();
    let split = descriptor("s", 0, 16);
    let request = request_term7(vec!["body"]);
    let err = leaf_search_single_split(
        &request,
        &mut storage,
        &mut cache,
        &mut controller,
        &split,
        &config(),
    )
    .unwrap_err();
    assert_eq!(err, SearchError::SchemaFieldNotFast { field_name: "body".to_string() });
}

#[test]
fn test_leaf_search_three_splits_one_storage_failure() {
    // split a: 5 matching docs; split b: 3; split c: its storage object is gone
    let a_docs = vec![(1, 50), (2, 40), (3, 30), (4, 20), (5, 10)];
    let b_docs = vec![(1, 45), (2, 35), (3, 25)];
    let mut storage = StorageModel {
        uri: "ram://test".to_string(),
        objects: vec![
            split_object("a", 16, split_index(a_docs)),
            split_object("b", 16, split_index(b_docs)),
        ],
        fetch_count: 0,
    };
    let mut cache = FooterCache::with_capacity_in_bytes(1_000);
    let mut controller = MemoryController::new();
    let splits = vec![descriptor("a", 0, 16), descriptor("b", 0, 16), descriptor("c", 0, 16)];
    let request = request_term7(vec!["body"]);
    let resp = leaf_search(
        &request,
        &mut storage,
        &mut cache,
        &mut controller,
        &splits,
        &config(),
    )
    .unwrap();
    assert_eq!(resp.num_hits, 8);
    assert_eq!(resp.partial_hits.len(), 8);
    // ranked by score, not by split order
    let scores: Vec<u64> = resp.partial_hits.iter().map(|h| h.score).collect();
    assert_eq!(scores, vec![50, 45, 40, 35, 30, 25, 20, 10]);
    assert_eq!(resp.partial_hits[0].split_id, "a");
    assert_eq!(resp.partial_hits[1].split_id, "b");
    // exactly the failing split is recorded, retryable
    assert_eq!(resp.failed_splits.len(), 1);
    assert_eq!(resp.failed_splits[0].split_id, "c");
    assert!(resp.failed_splits[0].retryable_error);
    assert_eq!(
        resp.failed_splits[0].error,
        "failed to fetch hotcache and footer from ram://test for split `c`"
    );
    assert_eq!(controller.committed_bytes(), 0);
}

#[test]
fn test_leaf_search_truncates_to_max_hits() {
    let mut storage = StorageModel {
        uri: "ram://test".to_string(),
        objects: vec![split_object("a", 16, split_index(vec![(1, 9), (2, 7), (3, 8)]))],
        fetch_count: 0,
    };
    let mut cache = FooterCache::with_capacity_in_bytes(1_000);
    let mut controller = MemoryController::new();
    let splits = vec![descriptor("a", 0, 16)];
    let mut request = request_term7(vec![]);
    request.max_hits = 2;
    let resp = leaf_search(
        &request,
        &mut storage,
        &mut cache,
        &mut controller,
        &splits,
        &config(),
    )
    .unwrap();
    // the total count reports every match; the hit list keeps the best two
    assert_eq!(resp.num_hits, 3);
    let scores: Vec<u64> = resp.partial_hits.iter().map(|h| h.score).collect();
    assert_eq!(scores, vec![9, 8]);
}

#[test]
fn test_leaf_search_term_absent_returns_zero_hits() {
    // the query term is absent from any posting list: warmup succeeds
    // (empty posting lists are valid), execution returns zero hits
    let mut storage = StorageModel {
        uri: "ram://test".to_string(),
        objects: vec![split_object("s", 16, split_index(vec![]))],
        fetch_count: 0,
    };
    let mut cache = FooterCache::with_capacity_in_bytes(1_000);
    let mut controller = MemoryController::new();
    let splits = vec![descriptor("s", 0, 16)];
    let mut request = request_term7(vec!["body"]);
    request.terms[0].term = 999;
    let resp = leaf_search(
        &request,
        &mut storage,
        &mut cache,
        &mut controller,
        &splits,
        &config(),
    )
    .unwrap();
    assert_eq!(resp.num_hits, 0);
    assert_eq!(resp.partial_hits.len(), 0);
    assert_eq!(resp.failed_splits.len(), 0);
}

#[test]
fn test_leaf_search_all_splits_failing() {
    let mut storage =
        StorageModel { uri: "ram://test".to_string(), objects: vec![], fetch_count: 0 };
    let mut cache = FooterCache::with_capacity_in_bytes(1_000);
    let mut controller = MemoryController::new();
    let splits = vec![descriptor("x", 0, 16), descriptor("y", 0, 16)];
    let request = request_term7(vec![]);
    let resp = leaf_search(
        &request,
        &mut storage,
        &mut cache,
        &mut controller,
        &splits,
        &config(),
    )
    .unwrap();
    assert_eq!(resp.num_hits, 0);
    assert_eq!(resp.failed_splits.len(), 2);
    assert!(resp.failed_splits.iter().all(|f| f.retryable_error));
    assert_eq!(resp.failed_splits[0].split_id, "x");
    assert_eq!(resp.failed_splits[1].split_id, "y");
}

#[test]
fn test_leaf_search_no_splits() {
    let mut storage =
        StorageModel { uri: "ram://test".to_string(), objects: vec![], fetch_count: 0 };
    let mut cache = FooterCache::with_capacity_in_bytes(1_000);
    let mut controller = MemoryController::new();
    let splits = vec![];
    let request = request_term7(vec![]);
    let resp = leaf_search(
        &request,
        &mut storage,
        &mut cache,
        &mut controller,
        &splits,
        &config(),
    )
    .unwrap();
    assert_eq!(resp.num_hits, 0);
    assert_eq!(resp.partial_hits.len(), 0);
    assert_eq!(resp.failed_splits.len(), 0);
}

#[test]
fn test_duplicate_doc_across_terms_counted_once() {
    // doc 1 matches both query terms: it is collected once, with the
    // score of the first term's posting that lists it
    let index = SplitIndex {
        schema: one_field_schema("body", true),
        segments: vec![Segment {
            postings: vec![
                posting(0, 7, vec![(1, 5), (2, 3)]),
                posting(0, 8, vec![(1, 6), (9, 1)]),
            ],
        }],
    };
    let mut storage = StorageModel {
        uri: "ram://test".to_string(),
        objects: vec![split_object("s", 16, index)],
        fetch_count: 0,
    };
    let mut cache = FooterCache::with_capacity_in_bytes(1_000);
    let mut controller = MemoryController::new();
    let splits = vec![descriptor("s", 0, 16)];
    let request = SearchRequest {
        terms: vec![
            RequestTerm { field_name: "body".to_string(), term: 7, position_needed: false },
            RequestTerm { field_name: "body".to_string(), term: 8, position_needed: true },
        ],
        fast_field_names: vec![],
        max_hits: 10,
    };
    let resp = leaf_search(
        &request,
        &mut storage,
        &mut cache,
        &mut controller,
        &splits,
        &config(),
    )
    .unwrap();
    assert_eq!(resp.num_hits, 3);
    let mut docs: Vec<u64> = resp.partial_hits.iter().map(|h| h.doc_id).collect();
    docs.sort();
    assert_eq!(docs, vec![1, 2, 9]);
}

#[test]
fn test_term_on_unknown_field_is_dropped_not_an_error() {
    // schemas legitimately vary per split: a term on a field this split
    // lacks is skipped by query construction
    let mut storage = StorageModel {
        uri: "ram://test".to_string(),
        objects: vec![split_object("s", 16, split_index(vec![(1, 5)]))],
        fetch_count: 0,
    };
    let mut cache = FooterCache::with_capacity_in_bytes(1_000);
    let mut controller = MemoryController::new();
    let splits = vec![descriptor("s", 0, 16)];
    let request = SearchRequest {
        terms: vec![RequestTerm {
            field_name: "elsewhere".to_string(),
            term: 7,
            position_needed: false,
        }],
        fast_field_names: vec![],
        max_hits: 10,
    };
    let resp = leaf_search(
        &request,
        &mut storage,
        &mut cache,
        &mut controller,
        &splits,
        &config(),
    )
    .unwrap();
    assert_eq!(resp.failed_splits.len(), 0);
    assert_eq!(resp.num_hits, 0);
}

#[test]
fn test_error_descriptions() {
    assert_eq!(
        SearchError::SchemaFieldMissing { field_name: "f".to_string() }.describe(),
        "couldn't get field named `f` from schema"
    );
    assert_eq!(
        SearchError::SchemaFieldNotFast { field_name: "f".to_string() }.describe(),
        "field `f` is not a fast field"
    );
    assert_eq!(
        SearchError::Warmup { split_id: "s".to_string() }.describe(),
        "warmup failed for split `s`"
    );
    assert_eq!(
        SearchError::ExecutionPanic { split_id: "s".to_string() }.describe(),
        "leaf search panicked. split=s"
    );
    assert_eq!(SearchError::Merge.describe(), "failed to merge split search responses");
}

#[test]
fn test_footer_exactly_at_capacity_is_cached() {
    let mut cache = FooterCache::with_capacity_in_bytes(4);
    cache.put("a".to_string(), vec![1, 2, 3, 4]);
    assert_eq!(cache.get(&"a".to_string()), Some(vec![1, 2, 3, 4]));
}

#[test]
fn test_empty_footer_range_is_valid() {
    let mut storage = StorageModel {
        uri: "ram://test".to_string(),
        objects: vec![split_object("s", 16, split_index(vec![(3, 1)]))],
        fetch_count: 0,
    };
    let mut cache = FooterCache::with_capacity_in_bytes(64);
    let split = descriptor("s", 16, 16);
    let footer = get_split_footer_from_cache_or_fetch(&mut storage, &mut cache, &split).unwrap();
    assert_eq!(footer, Vec::<u8>::new());
}

#[test]
fn test_hits_carry_segment_ordinals() {
    let index = SplitIndex {
        schema: one_field_schema("body", true),
        segments: vec![
            Segment { postings: vec![posting(0, 7, vec![(1, 4)])] },
            Segment { postings: vec![posting(0, 7, vec![(1, 6)])] },
        ],
    };
    let mut storage = StorageModel {
        uri: "ram://test".to_string(),
        objects: vec![split_object("s", 16, index)],
        fetch_count: 0,
    };
    let mut cache = FooterCache::with_capacity_in_bytes(64);
    let mut controller = MemoryController::new();
    let splits = vec![descriptor("s", 0, 16)];
    let resp = leaf_search(
        &request_term7(vec![]),
        &mut storage,
        &mut cache,
        &mut controller,
        &splits,
        &config(),
    )
    .unwrap();
    // the same doc id in two segments is two distinct hits
    assert_eq!(resp.num_hits, 2);
    assert_eq!(resp.partial_hits[0].segment_ord, 1);
    assert_eq!(resp.partial_hits[0].score, 6);
    assert_eq!(resp.partial_hits[1].segment_ord, 0);
    assert_eq!(resp.partial_hits[1].score, 4);
}
