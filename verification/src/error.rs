//! The errors of the store: a stable code and a message for people.
use crate::json;
use crate::json::{Json, JsonView};
use crate::table::copy_record_opt;
use crate::text;
use crate::text::owned;
use vstd::prelude::*;

verus! {

/// What went wrong, as callers tell errors apart.
#[derive(Clone, Copy, PartialEq, Eq, Structural, Debug)]
pub enum ErrorCode {
    ArtifactBusy,
    ArtifactWriteFailed,
    ChangesetChanged,
    ChangesetConflict,
    ChangesetCorrupt,
    ChangesetFrozen,
    ChangesetNotFound,
    ChangesetReplayConflict,
    ChangesetReplayHashMismatch,
    ChangesetReplayInvalid,
    ChangesetReplayNotStarted,
    ChangesetRollbackConflict,
    ChangesetScopeMismatch,
    ChangesetSparseUnsupported,
    ChangesetSyncLimit,
    ChangesetSyncUnsupported,
    CheckpointCreateFailed,
    CheckpointExists,
    CheckpointInvalid,
    CheckpointNameInvalid,
    CheckpointNotFound,
    CheckpointPathInvalid,
    CorruptStore,
    DatabaseBusy,
    DatabaseError,
    EntityConflict,
    GraphIndexCapacityExceeded,
    GraphNodeNotFound,
    IncompatibleSearchIndex,
    IngestIntegrationRequired,
    IngestJobNotFound,
    InvalidAgentContext,
    InvalidConfidence,
    InvalidDiscussion,
    InvalidFeedback,
    InvalidIngestState,
    InvalidIngestStatus,
    InvalidInput,
    InvalidLimit,
    InvalidOffset,
    InvalidProvenance,
    InvalidQuery,
    InvalidSemanticRelation,
    InvalidSlug,
    InvalidSpan,
    InvalidStorePath,
    InvalidWeight,
    IoError,
    JsonError,
    PageInUse,
    PageNotFound,
    SemanticRelationNotFound,
    SourceDiffTooLarge,
    SourceInUse,
    SourceNotFound,
    SourceSummaryMissing,
    SpanNotFound,
    StagingError,
    StaleSpan,
    StoreHookUnavailable,
    StoreMigrationFailed,
    StoreNotFound,
    SyncBaselineMismatch,
    SyncBaselineMissing,
    SyncChecksumMismatch,
    SyncReceiptInvalid,
    SyncResolutionIncomplete,
    SyncResolutionInvalid,
    SyncResolutionStale,
    SyncStateExists,
    SyncStateInvalid,
    SystemTimeError,
    UnsupportedStoreVersion,
}

/// An error of the store.
pub struct AppError {
    pub code: ErrorCode,
    pub message: String,
    /// What the error is about, for callers that act on it.
    pub details: Option<Json>,
}

/// What an error says.
#[verifier::ext_equal]
pub struct AppErrorView {
    pub code: ErrorCode,
    pub message: Seq<char>,
    pub details: Option<JsonView>,
}

impl View for AppError {
    type V = AppErrorView;

    open spec fn view(&self) -> AppErrorView {
        AppErrorView {
            code: self.code,
            message: self.message@,
            details: text::opt_view(self.details),
        }
    }
}

/// The error with this code and message.
pub open spec fn app_error(code: ErrorCode, message: Seq<char>) -> AppErrorView {
    AppErrorView { code, message, details: None }
}

/// The details that name an entity of the store.
pub open spec fn entity_details(entity: Seq<char>, identifier: JsonView) -> JsonView {
    JsonView::Object(
        seq![
            json::entry("entity_type"@, JsonView::Text(entity)),
            json::entry("identifier"@, identifier),
        ],
    )
}

/// The error with this code and message about an entity.
pub open spec fn entity_error(
    code: ErrorCode,
    message: Seq<char>,
    entity: Seq<char>,
    identifier: JsonView,
) -> AppErrorView {
    AppErrorView { code, message, details: Some(entity_details(entity, identifier)) }
}

/// What a result says: the view of its value, or of its error.
pub open spec fn outcome<T: View>(result: Result<T, AppError>) -> Result<T::V, AppErrorView> {
    match result {
        Ok(value) => Ok(value@),
        Err(error) => Err(error@),
    }
}

/// What a result says, where its value speaks for itself.
pub open spec fn value_outcome<T>(result: Result<T, AppError>) -> Result<T, AppErrorView> {
    match result {
        Ok(value) => Ok(value),
        Err(error) => Err(error@),
    }
}

/// A refusal with this code and message.
pub open spec fn refused<T>(code: ErrorCode, message: Seq<char>) -> Result<T, AppErrorView> {
    Err(app_error(code, message))
}

impl ErrorCode {
    /// The text by which the code is known outside the library.
    pub open spec fn text(self) -> Seq<char> {
        match self {
            ErrorCode::ArtifactBusy => "artifact_busy"@,
            ErrorCode::ArtifactWriteFailed => "artifact_write_failed"@,
            ErrorCode::ChangesetChanged => "changeset_changed"@,
            ErrorCode::ChangesetConflict => "changeset_conflict"@,
            ErrorCode::ChangesetCorrupt => "changeset_corrupt"@,
            ErrorCode::ChangesetFrozen => "changeset_frozen"@,
            ErrorCode::ChangesetNotFound => "changeset_not_found"@,
            ErrorCode::ChangesetReplayConflict => "changeset_replay_conflict"@,
            ErrorCode::ChangesetReplayHashMismatch => "changeset_replay_hash_mismatch"@,
            ErrorCode::ChangesetReplayInvalid => "changeset_replay_invalid"@,
            ErrorCode::ChangesetReplayNotStarted => "changeset_replay_not_started"@,
            ErrorCode::ChangesetRollbackConflict => "changeset_rollback_conflict"@,
            ErrorCode::ChangesetScopeMismatch => "changeset_scope_mismatch"@,
            ErrorCode::ChangesetSparseUnsupported => "changeset_sparse_unsupported"@,
            ErrorCode::ChangesetSyncLimit => "changeset_sync_limit"@,
            ErrorCode::ChangesetSyncUnsupported => "changeset_sync_unsupported"@,
            ErrorCode::CheckpointCreateFailed => "checkpoint_create_failed"@,
            ErrorCode::CheckpointExists => "checkpoint_exists"@,
            ErrorCode::CheckpointInvalid => "checkpoint_invalid"@,
            ErrorCode::CheckpointNameInvalid => "checkpoint_name_invalid"@,
            ErrorCode::CheckpointNotFound => "checkpoint_not_found"@,
            ErrorCode::CheckpointPathInvalid => "checkpoint_path_invalid"@,
            ErrorCode::CorruptStore => "corrupt_store"@,
            ErrorCode::DatabaseBusy => "database_busy"@,
            ErrorCode::DatabaseError => "database_error"@,
            ErrorCode::EntityConflict => "entity_conflict"@,
            ErrorCode::GraphIndexCapacityExceeded => "graph_index_capacity_exceeded"@,
            ErrorCode::GraphNodeNotFound => "graph_node_not_found"@,
            ErrorCode::IncompatibleSearchIndex => "incompatible_search_index"@,
            ErrorCode::IngestIntegrationRequired => "ingest_integration_required"@,
            ErrorCode::IngestJobNotFound => "ingest_job_not_found"@,
            ErrorCode::InvalidAgentContext => "invalid_agent_context"@,
            ErrorCode::InvalidConfidence => "invalid_confidence"@,
            ErrorCode::InvalidDiscussion => "invalid_discussion"@,
            ErrorCode::InvalidFeedback => "invalid_feedback"@,
            ErrorCode::InvalidIngestState => "invalid_ingest_state"@,
            ErrorCode::InvalidIngestStatus => "invalid_ingest_status"@,
            ErrorCode::InvalidInput => "invalid_input"@,
            ErrorCode::InvalidLimit => "invalid_limit"@,
            ErrorCode::InvalidOffset => "invalid_offset"@,
            ErrorCode::InvalidProvenance => "invalid_provenance"@,
            ErrorCode::InvalidQuery => "invalid_query"@,
            ErrorCode::InvalidSemanticRelation => "invalid_semantic_relation"@,
            ErrorCode::InvalidSlug => "invalid_slug"@,
            ErrorCode::InvalidSpan => "invalid_span"@,
            ErrorCode::InvalidStorePath => "invalid_store_path"@,
            ErrorCode::InvalidWeight => "invalid_weight"@,
            ErrorCode::IoError => "io_error"@,
            ErrorCode::JsonError => "json_error"@,
            ErrorCode::PageInUse => "page_in_use"@,
            ErrorCode::PageNotFound => "page_not_found"@,
            ErrorCode::SemanticRelationNotFound => "semantic_relation_not_found"@,
            ErrorCode::SourceDiffTooLarge => "source_diff_too_large"@,
            ErrorCode::SourceInUse => "source_in_use"@,
            ErrorCode::SourceNotFound => "source_not_found"@,
            ErrorCode::SourceSummaryMissing => "source_summary_missing"@,
            ErrorCode::SpanNotFound => "span_not_found"@,
            ErrorCode::StagingError => "staging_error"@,
            ErrorCode::StaleSpan => "stale_span"@,
            ErrorCode::StoreHookUnavailable => "store_hook_unavailable"@,
            ErrorCode::StoreMigrationFailed => "store_migration_failed"@,
            ErrorCode::StoreNotFound => "store_not_found"@,
            ErrorCode::SyncBaselineMismatch => "sync_baseline_mismatch"@,
            ErrorCode::SyncBaselineMissing => "sync_baseline_missing"@,
            ErrorCode::SyncChecksumMismatch => "sync_checksum_mismatch"@,
            ErrorCode::SyncReceiptInvalid => "sync_receipt_invalid"@,
            ErrorCode::SyncResolutionIncomplete => "sync_resolution_incomplete"@,
            ErrorCode::SyncResolutionInvalid => "sync_resolution_invalid"@,
            ErrorCode::SyncResolutionStale => "sync_resolution_stale"@,
            ErrorCode::SyncStateExists => "sync_state_exists"@,
            ErrorCode::SyncStateInvalid => "sync_state_invalid"@,
            ErrorCode::SystemTimeError => "system_time_error"@,
            ErrorCode::UnsupportedStoreVersion => "unsupported_store_version"@,
        }
    }

    pub fn as_str(self) -> (r: &'static str)
        ensures
            r@ == self.text(),
    {
        match self {
            ErrorCode::ArtifactBusy => "artifact_busy",
            ErrorCode::ArtifactWriteFailed => "artifact_write_failed",
            ErrorCode::ChangesetChanged => "changeset_changed",
            ErrorCode::ChangesetConflict => "changeset_conflict",
            ErrorCode::ChangesetCorrupt => "changeset_corrupt",
            ErrorCode::ChangesetFrozen => "changeset_frozen",
            ErrorCode::ChangesetNotFound => "changeset_not_found",
            ErrorCode::ChangesetReplayConflict => "changeset_replay_conflict",
            ErrorCode::ChangesetReplayHashMismatch => "changeset_replay_hash_mismatch",
            ErrorCode::ChangesetReplayInvalid => "changeset_replay_invalid",
            ErrorCode::ChangesetReplayNotStarted => "changeset_replay_not_started",
            ErrorCode::ChangesetRollbackConflict => "changeset_rollback_conflict",
            ErrorCode::ChangesetScopeMismatch => "changeset_scope_mismatch",
            ErrorCode::ChangesetSparseUnsupported => "changeset_sparse_unsupported",
            ErrorCode::ChangesetSyncLimit => "changeset_sync_limit",
            ErrorCode::ChangesetSyncUnsupported => "changeset_sync_unsupported",
            ErrorCode::CheckpointCreateFailed => "checkpoint_create_failed",
            ErrorCode::CheckpointExists => "checkpoint_exists",
            ErrorCode::CheckpointInvalid => "checkpoint_invalid",
            ErrorCode::CheckpointNameInvalid => "checkpoint_name_invalid",
            ErrorCode::CheckpointNotFound => "checkpoint_not_found",
            ErrorCode::CheckpointPathInvalid => "checkpoint_path_invalid",
            ErrorCode::CorruptStore => "corrupt_store",
            ErrorCode::DatabaseBusy => "database_busy",
            ErrorCode::DatabaseError => "database_error",
            ErrorCode::EntityConflict => "entity_conflict",
            ErrorCode::GraphIndexCapacityExceeded => "graph_index_capacity_exceeded",
            ErrorCode::GraphNodeNotFound => "graph_node_not_found",
            ErrorCode::IncompatibleSearchIndex => "incompatible_search_index",
            ErrorCode::IngestIntegrationRequired => "ingest_integration_required",
            ErrorCode::IngestJobNotFound => "ingest_job_not_found",
            ErrorCode::InvalidAgentContext => "invalid_agent_context",
            ErrorCode::InvalidConfidence => "invalid_confidence",
            ErrorCode::InvalidDiscussion => "invalid_discussion",
            ErrorCode::InvalidFeedback => "invalid_feedback",
            ErrorCode::InvalidIngestState => "invalid_ingest_state",
            ErrorCode::InvalidIngestStatus => "invalid_ingest_status",
            ErrorCode::InvalidInput => "invalid_input",
            ErrorCode::InvalidLimit => "invalid_limit",
            ErrorCode::InvalidOffset => "invalid_offset",
            ErrorCode::InvalidProvenance => "invalid_provenance",
            ErrorCode::InvalidQuery => "invalid_query",
            ErrorCode::InvalidSemanticRelation => "invalid_semantic_relation",
            ErrorCode::InvalidSlug => "invalid_slug",
            ErrorCode::InvalidSpan => "invalid_span",
            ErrorCode::InvalidStorePath => "invalid_store_path",
            ErrorCode::InvalidWeight => "invalid_weight",
            ErrorCode::IoError => "io_error",
            ErrorCode::JsonError => "json_error",
            ErrorCode::PageInUse => "page_in_use",
            ErrorCode::PageNotFound => "page_not_found",
            ErrorCode::SemanticRelationNotFound => "semantic_relation_not_found",
            ErrorCode::SourceDiffTooLarge => "source_diff_too_large",
            ErrorCode::SourceInUse => "source_in_use",
            ErrorCode::SourceNotFound => "source_not_found",
            ErrorCode::SourceSummaryMissing => "source_summary_missing",
            ErrorCode::SpanNotFound => "span_not_found",
            ErrorCode::StagingError => "staging_error",
            ErrorCode::StaleSpan => "stale_span",
            ErrorCode::StoreHookUnavailable => "store_hook_unavailable",
            ErrorCode::StoreMigrationFailed => "store_migration_failed",
            ErrorCode::StoreNotFound => "store_not_found",
            ErrorCode::SyncBaselineMismatch => "sync_baseline_mismatch",
            ErrorCode::SyncBaselineMissing => "sync_baseline_missing",
            ErrorCode::SyncChecksumMismatch => "sync_checksum_mismatch",
            ErrorCode::SyncReceiptInvalid => "sync_receipt_invalid",
            ErrorCode::SyncResolutionIncomplete => "sync_resolution_incomplete",
            ErrorCode::SyncResolutionInvalid => "sync_resolution_invalid",
            ErrorCode::SyncResolutionStale => "sync_resolution_stale",
            ErrorCode::SyncStateExists => "sync_state_exists",
            ErrorCode::SyncStateInvalid => "sync_state_invalid",
            ErrorCode::SystemTimeError => "system_time_error",
            ErrorCode::UnsupportedStoreVersion => "unsupported_store_version",
        }
    }
}

impl AppError {
    pub fn new(code: ErrorCode, message: &str) -> (r: AppError)
        ensures
            r@ == app_error(code, message@),
    {
        AppError { code, message: owned(message), details: None }
    }

    /// The same error once more.
    pub fn duplicate(&self) -> (r: AppError)
        ensures
            r@ == self@,
    {
        AppError {
            code: self.code,
            message: owned(self.message.as_str()),
            details: copy_record_opt(&self.details),
        }
    }

    /// An error about an entity of the store.
    pub fn about(code: ErrorCode, message: &str, entity: &str, identifier: Json) -> (r: AppError)
        ensures
            r@ == entity_error(code, message@, entity@, identifier@),
    {
        let ghost named = identifier@;
        let mut entries: Vec<(String, Json)> = Vec::new();
        entries.push((owned("entity_type"), Json::text(entity)));
        entries.push((owned("identifier"), identifier));
        proof {
            json::lemma_object_view(entries);
            assert(json::entry_views(entries@) =~= entity_details(entity@, named)->Object_0);
        }
        AppError { code, message: owned(message), details: Some(Json::Object(entries)) }
    }
}

} // verus!
