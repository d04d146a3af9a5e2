//! Error taxonomy of the leaf engine.
//!
//! Every per-split error is caught at the executor boundary and turned
//! into a [`SplitSearchError`] entry of the merged response; only a
//! failure of the merge step itself is fatal to the whole call.

use vstd::prelude::*;

verus! {

/// An error raised while searching one split.
#[derive(Debug, Clone, PartialEq, Eq)]
pub enum SearchError {
    /// A byte-range read against object storage failed: the object is
    /// missing or the requested range lies outside it. Carries the
    /// storage location and the split id for diagnosability.
    StorageFetch { storage_uri: String, split_id: String },
    /// A field requested for column warmup is absent from the split's
    /// schema. Carries the offending field name.
    SchemaFieldMissing { field_name: String },
    /// A field requested for column warmup exists but is not a
    /// fast-access (columnar) field. Carries the offending field name.
    SchemaFieldNotFast { field_name: String },
    /// A term or column prefetch failed during warmup.
    Warmup { split_id: String },
    /// The CPU-bound execution task aborted abnormally.
    ExecutionPanic { split_id: String },
    /// Combining the partial results failed.
    Merge,
}

/// The description [`SearchError::describe`] returns: every message
/// carries the split id or field name its variant holds.
pub open spec fn error_message(e: SearchError) -> Seq<char> {
    match e {
        SearchError::StorageFetch { storage_uri, split_id } =>
            "failed to fetch hotcache and footer from "@ + storage_uri@ + " for split `"@
                + split_id@ + "`"@,
        SearchError::SchemaFieldMissing { field_name } => "couldn't get field named `"@
            + field_name@ + "` from schema"@,
        SearchError::SchemaFieldNotFast { field_name } => "field `"@ + field_name@
            + "` is not a fast field"@,
        SearchError::Warmup { split_id } => "warmup failed for split `"@ + split_id@ + "`"@,
        SearchError::ExecutionPanic { split_id } => "leaf search panicked. split="@ + split_id@,
        SearchError::Merge => "failed to merge split search responses"@,
    }
}

impl SearchError {
    /// A short human-readable description; it always carries the split id
    /// or field name held by the variant, so operators can tell which
    /// split or field misbehaved.
    pub fn describe(&self) -> (msg: String)
        ensures
            msg@ == error_message(*self),
    {
        match self {
            SearchError::StorageFetch { storage_uri, split_id } => {
                let mut msg = "failed to fetch hotcache and footer from ".to_owned();
                msg.append(storage_uri.as_str());
                msg.append(" for split `");
                msg.append(split_id.as_str());
                msg.append("`");
                msg
            },
            SearchError::SchemaFieldMissing { field_name } => {
                let mut msg = "couldn't get field named `".to_owned();
                msg.append(field_name.as_str());
                msg.append("` from schema");
                msg
            },
            SearchError::SchemaFieldNotFast { field_name } => {
                let mut msg = "field `".to_owned();
                msg.append(field_name.as_str());
                msg.append("` is not a fast field");
                msg
            },
            SearchError::Warmup { split_id } => {
                let mut msg = "warmup failed for split `".to_owned();
                msg.append(split_id.as_str());
                msg.append("`");
                msg
            },
            SearchError::ExecutionPanic { split_id } => {
                let mut msg = "leaf search panicked. split=".to_owned();
                msg.append(split_id.as_str());
                msg
            },
            SearchError::Merge => "failed to merge split search responses".to_owned(),
        }
    }
}

/// The record kept in the merged response for one split whose execution
/// failed. This engine never distinguishes transient from permanent
/// failures, so `retryable_error` is always set.
#[derive(Debug, Clone, PartialEq, Eq)]
pub struct SplitSearchError {
    pub split_id: String,
    pub error: String,
    pub retryable_error: bool,
}

} // verus!
