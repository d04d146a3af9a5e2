use quickwit_leaf::error::SearchError;
use quickwit_leaf::index_model::{
    DocEntry, FieldEntry, PostingList, Query, ResolvedTerm, Schema, Segment, SplitIndex,
};
use quickwit_leaf::warmup::{warm_up_fastfields, warm_up_terms, warmup, ResidencySet, ResidentItem};

fn two_segment_index() -> SplitIndex {
    let segment = || Segment {
        postings: vec![PostingList { field: 0, term: 7, docs: vec![DocEntry { doc_id: 1, score: 2 }] }],
    };
    SplitIndex {
        schema: Schema {
            fields: vec![
                FieldEntry { name: "body".to_string(), fast: false },
                FieldEntry { name: "ts".to_string(), fast: true },
            ],
        },
        segments: vec![segment(), segment()],
    }
}

fn term7_query() -> Query {
    Query { terms: vec![ResolvedTerm { field: 0, term: 7, position_needed: true }] }
}

#[test]
fn test_term_warmup_covers_every_segment() {
    let ix = two_segment_index();
    let mut resident = ResidencySet::new();
    warm_up_terms(&ix, &term7_query(), &mut resident);
    for segment in 0..2 {
        assert!(resident.contains(ResidentItem::Posting {
            segment,
            field: 0,
            term: 7,
            positions: true,
        }));
    }
    assert!(!resident.contains(ResidentItem::Column { segment: 0, field: 1 }));
}

#[test]
fn test_column_warmup_covers_every_segment() {
    let ix = two_segment_index();
    let mut resident = ResidencySet::new();
    let names = vec!["ts".to_string()];
    warm_up_fastfields(&ix, &names, &mut resident).unwrap();
    for segment in 0..2 {
        assert!(resident.contains(ResidentItem::Column { segment, field: 1 }));
    }
}

#[test]
fn test_warming_twice_is_warming_once() {
    // two calls warming the same field on the same split: both complete
    // with the full column resident and nothing corrupted
    let ix = two_segment_index();
    let names = vec!["ts".to_string()];
    let mut resident = ResidencySet::new();
    warmup(&ix, &term7_query(), &names, &mut resident).unwrap();
    warmup(&ix, &term7_query(), &names, &mut resident).unwrap();
    for segment in 0..2 {
        assert!(resident.contains(ResidentItem::Column { segment, field: 1 }));
        assert!(resident.contains(ResidentItem::Posting {
            segment,
            field: 0,
            term: 7,
            positions: true,
        }));
    }
}

#[test]
fn test_warmup_missing_field_error() {
    let ix = two_segment_index();
    let mut resident = ResidencySet::new();
    let names = vec!["ts".to_string(), "ghost".to_string()];
    let err = warm_up_fastfields(&ix, &names, &mut resident).unwrap_err();
    assert_eq!(err, SearchError::SchemaFieldMissing { field_name: "ghost".to_string() });
    // validation happens before any prefetch: nothing became resident
    assert!(!resident.contains(ResidentItem::Column { segment: 0, field: 1 }));
}

#[test]
fn test_warmup_non_fast_field_error() {
    let ix = two_segment_index();
    let mut resident = ResidencySet::new();
    let names = vec!["body".to_string()];
    let err = warm_up_fastfields(&ix, &names, &mut resident).unwrap_err();
    assert_eq!(err, SearchError::SchemaFieldNotFast { field_name: "body".to_string() });
}

#[test]
fn test_warmup_on_zero_segment_split() {
    let ix = SplitIndex {
        schema: Schema { fields: vec![FieldEntry { name: "ts".to_string(), fast: true }] },
        segments: vec![],
    };
    let mut resident = ResidencySet::new();
    warmup(&ix, &Query { terms: vec![] }, &vec!["ts".to_string()], &mut resident).unwrap();
    assert!(!resident.contains(ResidentItem::Column { segment: 0, field: 0 }));
}
