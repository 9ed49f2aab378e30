//! The versions of the format of a store: how an old store is brought up to date, and what
//! a store has to hold to be opened.
use crate::discussion_book;
use crate::discussion_book::DiscussionBook;
use crate::error;
use crate::error::{AppError, AppErrorView, ErrorCode};
use crate::hooks;
use crate::hooks::HookFiles;
use crate::json;
use crate::json::{Json, JsonView};
use crate::pages;
use crate::pages::quote;
use crate::rows::{
    ChangesetRow, FeedbackKey, FeedbackRow, IngestRow, OperationRow, PageRow, PathLog, RelationRow,
    SourceRow, SpanRow, TagRow, WeightRow,
};
use crate::store;
use crate::store::{Store, StoreView};
use crate::sync_file::USER_VERSION;
use crate::table::{Pair, PairView, Record, Table, Triple};
use crate::text;
use crate::text::{
    decimal_text, join2, join4, join5, lower_hex, owned, parse_i64, same_text, split, trim,
};
use vstd::prelude::*;

verus! {

// ---------------------------------------------------------------------------
// Versions
// ---------------------------------------------------------------------------

/// The version in a store's metadata. Where there is none the store is new.
pub open spec fn marked_version(raw: Option<Seq<char>>) -> Result<int, AppErrorView> {
    match raw {
        None => Ok(0),
        Some(value) => match text::reads_as(text::trimmed(value)) {
            Some(n) => if i32::MIN <= n <= i32::MAX {
                Ok(n)
            } else {
                bad_marker(value)
            },
            None => bad_marker(value),
        },
    }
}

pub open spec fn bad_marker<T>(value: Seq<char>) -> Result<T, AppErrorView> {
    error::refused(
        ErrorCode::UnsupportedStoreVersion,
        "schema version marker is not an integer: "@ + pages::quoted(value),
    )
}

/// The version in a store's metadata. A marker that is no version stops everything: no
/// version is guessed.
pub fn read_schema_version(raw: Option<&str>) -> (r: Result<i32, AppError>)
    ensures
        match marked_version(text::opt_view(raw)) {
            Ok(n) => r matches Ok(got) && got == n,
            Err(e) => r matches Err(got) && got@ == e,
        },
{
    match raw {
        None => Ok(0),
        Some(value) => {
            let small = trim(value);
            match parse_i64(small.as_str()) {
                Some(n) if i32::MIN as i64 <= n && n <= i32::MAX as i64 => Ok(n as i32),
                _ => Err(
                    AppError::new(
                        ErrorCode::UnsupportedStoreVersion,
                        join2(
                            "schema version marker is not an integer: ",
                            quote(value).as_str(),
                        ).as_str(),
                    ),
                ),
            }
        },
    }
}

/// The rungs of the ladder from one version of the format to the next.
#[derive(Clone, Copy, PartialEq, Eq, Structural)]
pub enum Migration {
    SearchIndex,
    IngestWorkflow,
    CompoundWiki,
    PageProvenance,
    SourcePathRevisions,
    RetrievalWeighting,
    Changesets,
    ExternalGraph,
    Tags,
    TemporalMemory,
    AgentState,
    TodoFeatures,
    StructuredSpanIndex,
    AgentTracking,
    Discussions,
}

/// The place of a rung.
pub open spec fn rung(step: Migration) -> int {
    match step {
        Migration::SearchIndex => 0,
        Migration::IngestWorkflow => 1,
        Migration::CompoundWiki => 2,
        Migration::PageProvenance => 3,
        Migration::SourcePathRevisions => 4,
        Migration::RetrievalWeighting => 5,
        Migration::Changesets => 6,
        Migration::ExternalGraph => 7,
        Migration::Tags => 8,
        Migration::TemporalMemory => 9,
        Migration::AgentState => 10,
        Migration::TodoFeatures => 11,
        Migration::StructuredSpanIndex => 12,
        Migration::AgentTracking => 13,
        Migration::Discussions => 14,
    }
}

/// The version that a rung leads to.
pub open spec fn leads_to(step: Migration) -> int {
    match step {
        Migration::SearchIndex => 4,
        Migration::IngestWorkflow => 5,
        Migration::CompoundWiki => 6,
        Migration::PageProvenance => 7,
        Migration::SourcePathRevisions => 8,
        Migration::RetrievalWeighting => 9,
        Migration::Changesets => 10,
        Migration::ExternalGraph => 12,
        Migration::Tags => 13,
        Migration::TemporalMemory => 14,
        Migration::AgentState => 15,
        Migration::TodoFeatures => 16,
        Migration::StructuredSpanIndex => 17,
        Migration::AgentTracking => 18,
        Migration::Discussions => 19,
    }
}

/// The version that the refusal of a rung names.
pub open spec fn named_target(step: Migration) -> int {
    match step {
        Migration::SearchIndex => 4,
        Migration::Tags => 13,
        Migration::TodoFeatures => 16,
        Migration::StructuredSpanIndex => 17,
        _ => USER_VERSION as int,
    }
}

/// A version from which a rung can be climbed.
pub open spec fn starts_at(step: Migration, version: int) -> bool {
    match step {
        Migration::SearchIndex => 1 <= version <= 3,
        Migration::ExternalGraph => version == 10 || version == 11,
        _ => version == leads_to(step) - 1,
    }
}

/// The rung that a version calls for.
pub open spec fn wanted(version: int) -> Option<Migration> {
    if version < 4 {
        Some(Migration::SearchIndex)
    } else if version == 4 {
        Some(Migration::IngestWorkflow)
    } else if version == 5 {
        Some(Migration::CompoundWiki)
    } else if version == 6 {
        Some(Migration::PageProvenance)
    } else if version == 7 {
        Some(Migration::SourcePathRevisions)
    } else if version == 8 {
        Some(Migration::RetrievalWeighting)
    } else if version == 9 {
        Some(Migration::Changesets)
    } else if version == 10 || version == 11 {
        Some(Migration::ExternalGraph)
    } else if version == 12 {
        Some(Migration::Tags)
    } else if version == 13 {
        Some(Migration::TemporalMemory)
    } else if version == 14 {
        Some(Migration::AgentState)
    } else if version == 15 {
        Some(Migration::TodoFeatures)
    } else if version == 16 {
        Some(Migration::StructuredSpanIndex)
    } else if version == 17 {
        Some(Migration::AgentTracking)
    } else if version == 18 {
        Some(Migration::Discussions)
    } else {
        None
    }
}

/// What to do next to a store that is being opened.
#[derive(Clone, Copy, PartialEq, Eq, Structural)]
pub enum LadderStep {
    /// Lay out a new store.
    Bootstrap,
    /// Climb a rung, and look at the version again.
    Migrate(Migration),
    /// Check what the store holds.
    Validate,
}

pub open spec fn unknown_version<T>(version: int) -> Result<T, AppErrorView> {
    error::refused(
        ErrorCode::UnsupportedStoreVersion,
        "wiki database version "@ + text::decimal(version)
            + " is not supported by this lwc build (expected "@ + text::decimal(
            USER_VERSION as int,
        ) + ")"@,
    )
}

pub open spec fn no_schema<T>() -> Result<T, AppErrorView> {
    error::refused(
        ErrorCode::UnsupportedStoreVersion,
        "wiki database has no recognized schema; run `lwc init` in a new directory"@,
    )
}

/// What a version calls for. `climbed` is the rung that was climbed last: the ladder is only
/// climbed upwards.
pub open spec fn next_step(version: int, allow_create: bool, climbed: Option<Migration>) -> Result<
    LadderStep,
    AppErrorView,
> {
    if climbed is None && version == 0 {
        if allow_create {
            Ok(LadderStep::Bootstrap)
        } else {
            no_schema()
        }
    } else if climbed is None && !(1 <= version <= USER_VERSION) {
        unknown_version(version)
    } else {
        match wanted(version) {
            Some(step) if climbed is None || rung(step) > rung(climbed->0) => Ok(
                LadderStep::Migrate(step),
            ),
            _ => if version == USER_VERSION {
                Ok(LadderStep::Validate)
            } else {
                unknown_version(version)
            },
        }
    }
}

fn version_error(version: i32) -> (r: AppError)
    ensures
        Err::<LadderStep, AppErrorView>(r@) == unknown_version::<LadderStep>(version as int),
{
    AppError::new(
        ErrorCode::UnsupportedStoreVersion,
        join5(
            "wiki database version ",
            decimal_text(version as i64).as_str(),
            " is not supported by this lwc build (expected ",
            decimal_text(USER_VERSION).as_str(),
            ")",
        ).as_str(),
    )
}

fn no_schema_error() -> (r: AppError)
    ensures
        Err::<LadderStep, AppErrorView>(r@) == no_schema::<LadderStep>(),
{
    AppError::new(
        ErrorCode::UnsupportedStoreVersion,
        "wiki database has no recognized schema; run `lwc init` in a new directory",
    )
}

fn place(step: Migration) -> (r: i32)
    ensures
        r == rung(step),
{
    match step {
        Migration::SearchIndex => 0,
        Migration::IngestWorkflow => 1,
        Migration::CompoundWiki => 2,
        Migration::PageProvenance => 3,
        Migration::SourcePathRevisions => 4,
        Migration::RetrievalWeighting => 5,
        Migration::Changesets => 6,
        Migration::ExternalGraph => 7,
        Migration::Tags => 8,
        Migration::TemporalMemory => 9,
        Migration::AgentState => 10,
        Migration::TodoFeatures => 11,
        Migration::StructuredSpanIndex => 12,
        Migration::AgentTracking => 13,
        Migration::Discussions => 14,
    }
}

fn rung_for(version: i32) -> (r: Option<Migration>)
    ensures
        r == wanted(version as int),
{
    if version < 4 {
        Some(Migration::SearchIndex)
    } else if version == 4 {
        Some(Migration::IngestWorkflow)
    } else if version == 5 {
        Some(Migration::CompoundWiki)
    } else if version == 6 {
        Some(Migration::PageProvenance)
    } else if version == 7 {
        Some(Migration::SourcePathRevisions)
    } else if version == 8 {
        Some(Migration::RetrievalWeighting)
    } else if version == 9 {
        Some(Migration::Changesets)
    } else if version == 10 || version == 11 {
        Some(Migration::ExternalGraph)
    } else if version == 12 {
        Some(Migration::Tags)
    } else if version == 13 {
        Some(Migration::TemporalMemory)
    } else if version == 14 {
        Some(Migration::AgentState)
    } else if version == 15 {
        Some(Migration::TodoFeatures)
    } else if version == 16 {
        Some(Migration::StructuredSpanIndex)
    } else if version == 17 {
        Some(Migration::AgentTracking)
    } else if version == 18 {
        Some(Migration::Discussions)
    } else {
        None
    }
}

/// What a store that is being opened calls for next. `climbed` is the rung that was climbed
/// last, if one was.
pub fn prepare_store(version: i32, allow_create: bool, climbed: Option<Migration>) -> (r: Result<
    LadderStep,
    AppError,
>)
    ensures
        match next_step(version as int, allow_create, climbed) {
            Ok(step) => r matches Ok(got) && got == step,
            Err(e) => r matches Err(got) && got@ == e,
        },
{
    if climbed.is_none() {
        if version == 0 {
            return if allow_create {
                Ok(LadderStep::Bootstrap)
            } else {
                Err(no_schema_error())
            };
        }
        if version < 1 || version as i64 > USER_VERSION {
            return Err(version_error(version));
        }
    }
    let higher = match rung_for(version) {
        Some(step) => match climbed {
            Some(last) => if place(step) > place(last) {
                Some(step)
            } else {
                None
            },
            None => Some(step),
        },
        None => None,
    };
    match higher {
        Some(step) => Ok(LadderStep::Migrate(step)),
        None => if version as i64 == USER_VERSION {
            Ok(LadderStep::Validate)
        } else {
            Err(version_error(version))
        },
    }
}

/// What a rung finds once it holds the store: it may have been climbed already, by another
/// process.
pub open spec fn rung_state(step: Migration, current: int) -> Result<bool, AppErrorView> {
    if leads_to(step) <= current <= USER_VERSION {
        Ok(false)
    } else if starts_at(step, current) {
        Ok(true)
    } else {
        error::refused(
            ErrorCode::UnsupportedStoreVersion,
            "cannot migrate wiki database version "@ + text::decimal(current) + " to "@
                + text::decimal(named_target(step)),
        )
    }
}

fn target_of(step: Migration) -> (r: i64)
    ensures
        r == leads_to(step),
{
    match step {
        Migration::SearchIndex => 4,
        Migration::IngestWorkflow => 5,
        Migration::CompoundWiki => 6,
        Migration::PageProvenance => 7,
        Migration::SourcePathRevisions => 8,
        Migration::RetrievalWeighting => 9,
        Migration::Changesets => 10,
        Migration::ExternalGraph => 12,
        Migration::Tags => 13,
        Migration::TemporalMemory => 14,
        Migration::AgentState => 15,
        Migration::TodoFeatures => 16,
        Migration::StructuredSpanIndex => 17,
        Migration::AgentTracking => 18,
        Migration::Discussions => 19,
    }
}

/// The version that a rung writes down once it was climbed.
pub fn migrated_version(step: Migration) -> (r: i64)
    ensures
        r == leads_to(step),
{
    target_of(step)
}

/// Whether a rung is still to be climbed, with the version that it finds once it holds the
/// store.
pub fn check_rung(step: Migration, current: i32) -> (r: Result<bool, AppError>)
    ensures
        error::value_outcome(r) == rung_state(step, current as int),
{
    let target = target_of(step);
    if target <= current as i64 && current as i64 <= USER_VERSION {
        return Ok(false);
    }
    let starts = match step {
        Migration::SearchIndex => 1 <= current && current <= 3,
        Migration::ExternalGraph => current == 10 || current == 11,
        _ => current as i64 == target - 1,
    };
    if starts {
        return Ok(true);
    }
    let named: i64 = match step {
        Migration::SearchIndex => 4,
        Migration::Tags => 13,
        Migration::TodoFeatures => 16,
        Migration::StructuredSpanIndex => 17,
        _ => USER_VERSION,
    };
    Err(
        AppError::new(
            ErrorCode::UnsupportedStoreVersion,
            join4(
                "cannot migrate wiki database version ",
                decimal_text(current as i64).as_str(),
                " to ",
                decimal_text(named).as_str(),
            ).as_str(),
        ),
    )
}

/// Every store of a known version is brought up to date: each rung starts where the one
/// before it ended, and the last one ends at the version of this library.
pub proof fn law_ladder_reaches_the_top(version: int, climbed: Option<Migration>)
    requires
        1 <= version <= USER_VERSION,
        climbed is Some ==> version == leads_to(climbed->0),
    ensures
        version == USER_VERSION ==> next_step(version, false, climbed) == Ok::<
            LadderStep,
            AppErrorView,
        >(LadderStep::Validate),
        version < USER_VERSION ==> {
            &&& next_step(version, false, climbed) matches Ok(LadderStep::Migrate(step))
            &&& rung_state(step, version) == Ok::<bool, AppErrorView>(true)
            &&& version < leads_to(step) <= USER_VERSION
        },
{
}

// ---------------------------------------------------------------------------
// What a store holds
// ---------------------------------------------------------------------------

/// The tables of a database, and their columns.
pub struct SchemaShape {
    pub tables: Table<String, bool>,
    /// Columns by table and name.
    pub columns: Table<Pair, bool>,
}

#[verifier::ext_equal]
pub struct SchemaShapeView {
    pub tables: Map<Seq<char>, bool>,
    pub columns: Map<PairView, bool>,
}

impl View for SchemaShape {
    type V = SchemaShapeView;

    open spec fn view(&self) -> SchemaShapeView {
        SchemaShapeView { tables: self.tables@, columns: self.columns@ }
    }
}

/// What each table has to hold: its name and its columns.
pub open spec fn needed_columns() -> Seq<Seq<char>> {
    seq![
        "meta key value"@,
        "sources id content_hash title origin content structural_navigation created_at"@,
        "pages slug title kind summary body structural_navigation created_at updated_at"@,
        "page_sources page_slug source_id"@,
        "page_provenance page_slug provenance"@,
        "tags name autoload autoload_priority autoload_limit autoload_max_chars reason updated_at"@,
        "page_tags tag_name page_slug priority reason created_at updated_at"@,
        "links from_slug to_slug"@,
        "operations action target detail_json created_at"@,
        "ingest_jobs source_id status attempts analysis last_error no_derived_pages_reason updated_at"@,
        "source_path_revisions tracked_path revision source_id observed_at"@,
        "retrieval_weights target_type target_identifier provenance weight reason updated_at"@,
        "retrieval_feedback query_fingerprint target_type target_identifier provenance signal reason updated_at"@,
        "changesets id name status base_revision base_operation_id begin_operation_id pre_commit_checkpoint post_revision created_at committed_at rolled_back_at"@,
        "search_fts rowid doc_type identifier title_terms path_terms summary_terms body_terms"@,
        "search_spans span_id span_type document_type document_identifier parent_identifier ordinal byte_start byte_end content_fingerprint segmenter_version active"@,
        "span_fts rowid span_id span_type document_type document_identifier title_terms path_terms heading_terms body_terms"@,
        "semantic_relations id relation_type from_identifier to_identifier confidence provenance reason source_ids_json created_at updated_at"@,
        "memory_events id request_id fingerprint event_type context occurred_at recorded_at valid_from valid_until pinned logical_bytes"@,
        "memory_fragments event_id kind ordinal value"@,
        "memory_changes event_id ordinal subject before_value after_value reason"@,
        "memory_evidence event_id ordinal reference excerpt"@,
        "memory_relations event_id ordinal relation_type target_event_id basis"@,
        "memory_feedback id event_id signal reason created_at"@,
        "memory_hint_state candidate_key hint_type last_emitted_at next_eligible_at"@,
        "memory_state id record_attempts inserted_events idempotent_replays feedback_useful feedback_not_useful age_evictions capacity_evictions event_count logical_bytes"@,
        "memory_fts rowid event_id event_type context_terms content_terms"@,
        "todo_items id request_id fingerprint title cue detail state result cancel_reason revision created_at updated_at closed_at parent_id target_at"@,
        "todo_tags todo_id tag_name"@,
        "todo_fts rowid todo_id title_terms tag_terms cue_terms detail_terms"@,
        "plans id request_id fingerprint title objective done_when state result completion_evidence done_when_checked abandoned_reason revision created_at updated_at closed_at"@,
        "plan_tags plan_id tag_name"@,
        "plan_constraints plan_id ordinal value"@,
        "plan_steps plan_id step_id ordinal title status verify result blocker created_revision updated_revision created_at updated_at"@,
        "plan_history id plan_id revision action reason step_id result created_at"@,
        "plan_fts rowid plan_id title_terms tag_terms objective_terms constraint_terms step_terms"@,
    ]
}

fn column_lines() -> (r: Vec<&'static str>)
    ensures
        text::views(r@) == needed_columns(),
{
    let list = vec![
        "meta key value",
        "sources id content_hash title origin content structural_navigation created_at",
        "pages slug title kind summary body structural_navigation created_at updated_at",
        "page_sources page_slug source_id",
        "page_provenance page_slug provenance",
        "tags name autoload autoload_priority autoload_limit autoload_max_chars reason updated_at",
        "page_tags tag_name page_slug priority reason created_at updated_at",
        "links from_slug to_slug",
        "operations action target detail_json created_at",
        "ingest_jobs source_id status attempts analysis last_error no_derived_pages_reason updated_at",
        "source_path_revisions tracked_path revision source_id observed_at",
        "retrieval_weights target_type target_identifier provenance weight reason updated_at",
        "retrieval_feedback query_fingerprint target_type target_identifier provenance signal reason updated_at",
        "changesets id name status base_revision base_operation_id begin_operation_id pre_commit_checkpoint post_revision created_at committed_at rolled_back_at",
        "search_fts rowid doc_type identifier title_terms path_terms summary_terms body_terms",
        "search_spans span_id span_type document_type document_identifier parent_identifier ordinal byte_start byte_end content_fingerprint segmenter_version active",
        "span_fts rowid span_id span_type document_type document_identifier title_terms path_terms heading_terms body_terms",
        "semantic_relations id relation_type from_identifier to_identifier confidence provenance reason source_ids_json created_at updated_at",
        "memory_events id request_id fingerprint event_type context occurred_at recorded_at valid_from valid_until pinned logical_bytes",
        "memory_fragments event_id kind ordinal value",
        "memory_changes event_id ordinal subject before_value after_value reason",
        "memory_evidence event_id ordinal reference excerpt",
        "memory_relations event_id ordinal relation_type target_event_id basis",
        "memory_feedback id event_id signal reason created_at",
        "memory_hint_state candidate_key hint_type last_emitted_at next_eligible_at",
        "memory_state id record_attempts inserted_events idempotent_replays feedback_useful feedback_not_useful age_evictions capacity_evictions event_count logical_bytes",
        "memory_fts rowid event_id event_type context_terms content_terms",
        "todo_items id request_id fingerprint title cue detail state result cancel_reason revision created_at updated_at closed_at parent_id target_at",
        "todo_tags todo_id tag_name",
        "todo_fts rowid todo_id title_terms tag_terms cue_terms detail_terms",
        "plans id request_id fingerprint title objective done_when state result completion_evidence done_when_checked abandoned_reason revision created_at updated_at closed_at",
        "plan_tags plan_id tag_name",
        "plan_constraints plan_id ordinal value",
        "plan_steps plan_id step_id ordinal title status verify result blocker created_revision updated_revision created_at updated_at",
        "plan_history id plan_id revision action reason step_id result created_at",
        "plan_fts rowid plan_id title_terms tag_terms objective_terms constraint_terms step_terms",
    ];
    assert(text::views(list@) =~= needed_columns());
    list
}

/// What is missing of a table.
pub open spec fn missing_of(shape: SchemaShapeView, words: Seq<Seq<char>>, count: nat) -> Option<
    Seq<char>,
>
    decreases count,
{
    if count == 0 || count > words.len() {
        None
    } else {
        match missing_of(shape, words, (count - 1) as nat) {
            Some(message) => Some(message),
            None => if count == 1 {
                if shape.tables.dom().contains(words[0]) {
                    None
                } else {
                    Some("no such table: "@ + words[0])
                }
            } else if shape.columns.dom().contains(
                PairView { first: words[0], second: words[count - 1] },
            ) {
                None
            } else {
                Some("no such column: "@ + words[count - 1])
            },
        }
    }
}

/// What is missing of the first tables.
pub open spec fn missing(shape: SchemaShapeView, lines: Seq<Seq<char>>, count: nat) -> Option<
    Seq<char>,
>
    decreases count,
{
    if count == 0 || count > lines.len() {
        None
    } else {
        match missing(shape, lines, (count - 1) as nat) {
            Some(message) => Some(message),
            None => {
                let words = text::split_on(lines[count - 1], ' ');
                missing_of(shape, words, words.len())
            },
        }
    }
}

proof fn lemma_missing_of_stays(
    shape: SchemaShapeView,
    words: Seq<Seq<char>>,
    count: nat,
    more: nat,
)
    requires
        0 < count <= more <= words.len(),
        missing_of(shape, words, count) is Some,
    ensures
        missing_of(shape, words, more) == missing_of(shape, words, count),
    decreases more - count,
{
    if count < more {
        lemma_missing_of_stays(shape, words, count, (more - 1) as nat);
    }
}

proof fn lemma_missing_stays(shape: SchemaShapeView, lines: Seq<Seq<char>>, count: nat, more: nat)
    requires
        0 < count <= more <= lines.len(),
        missing(shape, lines, count) is Some,
    ensures
        missing(shape, lines, more) == missing(shape, lines, count),
    decreases more - count,
{
    if count < more {
        lemma_missing_stays(shape, lines, count, (more - 1) as nat);
    }
}

fn find_missing_of(shape: &SchemaShape, line: &str) -> (r: Option<String>)
    ensures
        text::opt_text(r) == missing_of(
            shape@,
            text::split_on(line@, ' '),
            text::split_on(line@, ' ').len(),
        ),
{
    let words = split(line, ' ');
    let ghost all = text::views(words@);
    let mut i: usize = 0;
    while i < words.len()
        invariant
            i <= words@.len() == all.len(),
            all == text::views(words@),
            missing_of(shape@, all, i as nat) is None,
        decreases words@.len() - i,
    {
        assert(all[i as int] == words@[i as int]@);
        assert(all[0] == words@[0]@);
        let fault: Option<String> = if i == 0 {
            if shape.tables.has(&words[0]) {
                None
            } else {
                Some(join2("no such table: ", words[0].as_str()))
            }
        } else {
            let key = Pair { first: owned(words[0].as_str()), second: owned(words[i].as_str()) };
            if shape.columns.has(&key) {
                None
            } else {
                Some(join2("no such column: ", words[i].as_str()))
            }
        };
        if fault.is_some() {
            proof {
                lemma_missing_of_stays(shape@, all, (i + 1) as nat, all.len());
            }
            return fault;
        }
        i += 1;
    }
    None
}

fn find_missing(shape: &SchemaShape) -> (r: Option<String>)
    ensures
        text::opt_text(r) == missing(shape@, needed_columns(), needed_columns().len()),
{
    let lines = column_lines();
    let ghost all = text::views(lines@);
    let mut i: usize = 0;
    while i < lines.len()
        invariant
            i <= lines@.len() == all.len(),
            all == text::views(lines@),
            missing(shape@, all, i as nat) is None,
        decreases lines@.len() - i,
    {
        assert(all[i as int] == lines@[i as int]@);
        let fault = find_missing_of(shape, lines[i]);
        if fault.is_some() {
            proof {
                lemma_missing_stays(shape@, all, (i + 1) as nat, all.len());
            }
            return fault;
        }
        i += 1;
    }
    None
}

/// The tables without which a store cannot be read.
pub open spec fn essential_tables() -> Seq<Seq<char>> {
    seq![
        "meta"@,
        "sources"@,
        "pages"@,
        "page_sources"@,
        "page_provenance"@,
        "links"@,
        "operations"@,
        "ingest_jobs"@,
        "source_path_revisions"@,
        "retrieval_weights"@,
        "retrieval_feedback"@,
        "changesets"@,
        "search_fts"@,
        "search_spans"@,
        "span_fts"@,
        "semantic_relations"@,
        "memory_events"@,
        "memory_fragments"@,
        "memory_changes"@,
        "memory_evidence"@,
        "memory_relations"@,
        "memory_feedback"@,
        "memory_hint_state"@,
        "memory_state"@,
        "memory_fts"@,
        "todo_items"@,
        "todo_tags"@,
        "todo_fts"@,
        "plans"@,
        "plan_tags"@,
        "plan_constraints"@,
        "plan_steps"@,
        "plan_history"@,
        "plan_fts"@,
    ]
}

/// All tables without which a store cannot be read are there.
pub open spec fn has_essentials(shape: SchemaShapeView) -> bool {
    forall|i: int|
        0 <= i < essential_tables().len() ==> shape.tables.dom().contains(
            #[trigger] essential_tables()[i],
        )
}

fn check_essentials(shape: &SchemaShape) -> (r: bool)
    ensures
        r == has_essentials(shape@),
{
    let list = vec![
        "meta",
        "sources",
        "pages",
        "page_sources",
        "page_provenance",
        "links",
        "operations",
        "ingest_jobs",
        "source_path_revisions",
        "retrieval_weights",
        "retrieval_feedback",
        "changesets",
        "search_fts",
        "search_spans",
        "span_fts",
        "semantic_relations",
        "memory_events",
        "memory_fragments",
        "memory_changes",
        "memory_evidence",
        "memory_relations",
        "memory_feedback",
        "memory_hint_state",
        "memory_state",
        "memory_fts",
        "todo_items",
        "todo_tags",
        "todo_fts",
        "plans",
        "plan_tags",
        "plan_constraints",
        "plan_steps",
        "plan_history",
        "plan_fts",
    ];
    let ghost all = essential_tables();
    assert(text::views(list@) =~= all);
    let mut i: usize = 0;
    while i < list.len()
        invariant
            i <= list@.len() == all.len(),
            all == text::views(list@),
            all == essential_tables(),
            forall|j: int| 0 <= j < i ==> shape@.tables.dom().contains(#[trigger] all[j]),
        decreases list@.len() - i,
    {
        assert(all[i as int] == list@[i as int]@);
        if !shape.tables.has(&owned(list[i])) {
            assert(!shape@.tables.dom().contains(essential_tables()[i as int]));
            return false;
        }
        i += 1;
    }
    true
}

/// A value of the metadata that identifies a store.
pub open spec fn is_mark(value: Option<Seq<char>>) -> bool {
    value is Some && text::is_lower_hex(value->0, 64)
}

/// What a missing value is called.
pub open spec fn or_said(value: Option<Seq<char>>, otherwise: Seq<char>) -> Seq<char> {
    match value {
        Some(t) => t,
        None => otherwise,
    }
}

/// Whether a store can be worked with.
pub open spec fn store_check(
    shape: SchemaShapeView,
    meta: Map<Seq<char>, Seq<char>>,
    tokenizer: Seq<char>,
) -> Result<(), AppErrorView> {
    let format = value_under(meta, "format_version"@);
    let used = value_under(meta, "tokenizer"@);
    match missing(shape, needed_columns(), needed_columns().len()) {
        Some(fault) => error::refused(
            ErrorCode::CorruptStore,
            "wiki database schema is incomplete: "@ + fault,
        ),
        None => if format != Some(text::decimal(USER_VERSION as int)) {
            error::refused(
                ErrorCode::CorruptStore,
                "wiki format metadata is "@ + pages::quoted(or_said(format, "missing"@))
                    + "; expected "@ + text::decimal(USER_VERSION as int),
            )
        } else if used != Some(tokenizer) {
            error::refused(
                ErrorCode::IncompatibleSearchIndex,
                "wiki search index uses tokenizer "@ + pages::quoted(or_said(used, "unknown"@))
                    + "; expected "@ + tokenizer,
            )
        } else if !is_mark(value_under(meta, "store_id"@)) {
            error::refused(ErrorCode::CorruptStore, "wiki store_id is missing or invalid"@)
        } else if !is_mark(value_under(meta, "store_revision"@)) {
            error::refused(ErrorCode::CorruptStore, "wiki store_revision is missing or invalid"@)
        } else {
            Ok(())
        },
    }
}

pub open spec fn value_under(meta: Map<Seq<char>, Seq<char>>, key: Seq<char>) -> Option<
    Seq<char>,
> {
    if meta.dom().contains(key) {
        Some(meta[key])
    } else {
        None
    }
}

/// Whether a store can be read.
pub open spec fn read_check(
    shape: SchemaShapeView,
    meta: Map<Seq<char>, Seq<char>>,
    tokenizer: Seq<char>,
) -> Result<(), AppErrorView> {
    if !has_essentials(shape) {
        error::refused(ErrorCode::CorruptStore, "wiki database schema is incomplete"@)
    } else if value_under(meta, "format_version"@) != Some(text::decimal(USER_VERSION as int)) {
        error::refused(
            ErrorCode::CorruptStore,
            "wiki format metadata does not match the store version"@,
        )
    } else if value_under(meta, "tokenizer"@) != Some(tokenizer) {
        error::refused(
            ErrorCode::IncompatibleSearchIndex,
            "wiki search tokenizer is incompatible"@,
        )
    } else if !is_mark(value_under(meta, "store_id"@)) || !is_mark(
        value_under(meta, "store_revision"@),
    ) {
        error::refused(
            ErrorCode::CorruptStore,
            "wiki store identity metadata is missing or invalid"@,
        )
    } else {
        Ok(())
    }
}

fn has_mark(meta: &Table<String, String>, key: &str) -> (r: bool)
    ensures
        r == is_mark(value_under(meta@, key@)),
{
    match meta.get(&owned(key)) {
        Some(value) => lower_hex(value.as_str(), 64),
        None => false,
    }
}

fn has_value(meta: &Table<String, String>, key: &str, wanted: &str) -> (r: bool)
    ensures
        r == (value_under(meta@, key@) == Some(wanted@)),
{
    match meta.get(&owned(key)) {
        Some(value) => same_text(value.as_str(), wanted),
        None => false,
    }
}

fn value_or(meta: &Table<String, String>, key: &str, otherwise: &str) -> (r: String)
    ensures
        r@ == or_said(value_under(meta@, key@), otherwise@),
{
    match meta.get(&owned(key)) {
        Some(value) => owned(value.as_str()),
        None => owned(otherwise),
    }
}

/// Checks that a store can be worked with. `tokenizer` is the one that this build uses.
pub fn validate_store(shape: &SchemaShape, meta: &Table<String, String>, tokenizer: &str) -> (r:
    Result<(), AppError>)
    ensures
        error::value_outcome(r) == store_check(shape@, meta@, tokenizer@),
{
    if let Some(fault) = find_missing(shape) {
        return Err(
            AppError::new(
                ErrorCode::CorruptStore,
                join2("wiki database schema is incomplete: ", fault.as_str()).as_str(),
            ),
        );
    }
    let expected = decimal_text(USER_VERSION);
    if !has_value(meta, "format_version", expected.as_str()) {
        let found = value_or(meta, "format_version", "missing");
        return Err(
            AppError::new(
                ErrorCode::CorruptStore,
                join4(
                    "wiki format metadata is ",
                    quote(found.as_str()).as_str(),
                    "; expected ",
                    expected.as_str(),
                ).as_str(),
            ),
        );
    }
    if !has_value(meta, "tokenizer", tokenizer) {
        let found = value_or(meta, "tokenizer", "unknown");
        return Err(
            AppError::new(
                ErrorCode::IncompatibleSearchIndex,
                join4(
                    "wiki search index uses tokenizer ",
                    quote(found.as_str()).as_str(),
                    "; expected ",
                    tokenizer,
                ).as_str(),
            ),
        );
    }
    if !has_mark(meta, "store_id") {
        return Err(
            AppError::new(ErrorCode::CorruptStore, "wiki store_id is missing or invalid"),
        );
    }
    if !has_mark(meta, "store_revision") {
        return Err(
            AppError::new(ErrorCode::CorruptStore, "wiki store_revision is missing or invalid"),
        );
    }
    Ok(())
}

/// Checks that a store can be read.
pub fn validate_store_read_only(
    shape: &SchemaShape,
    meta: &Table<String, String>,
    tokenizer: &str,
) -> (r: Result<(), AppError>)
    ensures
        error::value_outcome(r) == read_check(shape@, meta@, tokenizer@),
{
    if !check_essentials(shape) {
        return Err(AppError::new(ErrorCode::CorruptStore, "wiki database schema is incomplete"));
    }
    let expected = decimal_text(USER_VERSION);
    if !has_value(meta, "format_version", expected.as_str()) {
        return Err(
            AppError::new(
                ErrorCode::CorruptStore,
                "wiki format metadata does not match the store version",
            ),
        );
    }
    if !has_value(meta, "tokenizer", tokenizer) {
        return Err(
            AppError::new(
                ErrorCode::IncompatibleSearchIndex,
                "wiki search tokenizer is incompatible",
            ),
        );
    }
    if !has_mark(meta, "store_id") || !has_mark(meta, "store_revision") {
        return Err(
            AppError::new(
                ErrorCode::CorruptStore,
                "wiki store identity metadata is missing or invalid",
            ),
        );
    }
    Ok(())
}

/// Whether a store of this version can be read as it is.
pub open spec fn readable(
    version: int,
    shape: SchemaShapeView,
    meta: Map<Seq<char>, Seq<char>>,
    tokenizer: Seq<char>,
) -> Result<(), AppErrorView> {
    if version == 0 {
        no_schema()
    } else if version != USER_VERSION {
        unknown_version(version)
    } else {
        read_check(shape, meta, tokenizer)
    }
}

/// Checks that a store can be read as it is: nothing is migrated.
pub fn prepare_store_read_only(
    version: i32,
    shape: &SchemaShape,
    meta: &Table<String, String>,
    tokenizer: &str,
) -> (r: Result<(), AppError>)
    ensures
        error::value_outcome(r) == readable(version as int, shape@, meta@, tokenizer@),
{
    if version == 0 {
        return Err(no_schema_error());
    }
    if version as i64 != USER_VERSION {
        return Err(version_error(version));
    }
    validate_store_read_only(shape, meta, tokenizer)
}

// ---------------------------------------------------------------------------
// Opening
// ---------------------------------------------------------------------------

/// A database as it was found: the version in its header, its tables, and their rows.
pub struct FoundStore {
    pub version: i32,
    pub shape: SchemaShape,
    pub store: Store,
}

#[verifier::ext_equal]
pub struct FoundStoreView {
    pub version: int,
    pub shape: SchemaShapeView,
    pub store: StoreView,
}

impl View for FoundStore {
    type V = FoundStoreView;

    open spec fn view(&self) -> FoundStoreView {
        FoundStoreView { version: self.version as int, shape: self.shape@, store: self.store@ }
    }
}

/// What a new store starts with.
pub struct FreshStore {
    pub store_id: String,
    pub store_revision: String,
    pub schema: String,
    pub purpose: String,
}

#[verifier::ext_equal]
pub struct FreshStoreView {
    pub store_id: Seq<char>,
    pub store_revision: Seq<char>,
    pub schema: Seq<char>,
    pub purpose: Seq<char>,
}

impl View for FreshStore {
    type V = FreshStoreView;

    open spec fn view(&self) -> FreshStoreView {
        FreshStoreView {
            store_id: self.store_id@,
            store_revision: self.store_revision@,
            schema: self.schema@,
            purpose: self.purpose@,
        }
    }
}

pub open spec fn not_found<T>(database: Seq<char>) -> Result<T, AppErrorView> {
    error::refused(ErrorCode::StoreNotFound, "wiki database not found: "@ + database)
}

/// A store under the name by which it was opened.
pub open spec fn under_name(store: StoreView, scope: Seq<char>, database: Seq<char>) -> StoreView {
    StoreView { scope, database, ..store }
}

/// Opening a store to work with it, once its ladder was climbed.
pub open spec fn opened(
    scope: Seq<char>,
    database: Seq<char>,
    found: Option<FoundStoreView>,
    tokenizer: Seq<char>,
) -> Result<StoreView, AppErrorView> {
    match found {
        None => not_found(database),
        Some(found) => if found.version == 0 {
            no_schema()
        } else if found.version != USER_VERSION {
            unknown_version(found.version)
        } else {
            match store_check(found.shape, found.store.meta, tokenizer) {
                Err(e) => Err(e),
                Ok(_) => Ok(under_name(found.store, scope, database)),
            }
        },
    }
}

/// Opening a store to read it.
pub open spec fn opened_to_read(
    scope: Seq<char>,
    database: Seq<char>,
    found: Option<FoundStoreView>,
    tokenizer: Seq<char>,
) -> Result<StoreView, AppErrorView> {
    match found {
        None => not_found(database),
        Some(found) => match readable(found.version, found.shape, found.store.meta, tokenizer) {
            Err(e) => Err(e),
            Ok(_) => Ok(under_name(found.store, scope, database)),
        },
    }
}

/// A store that was just laid out.
pub open spec fn blank_store(
    scope: Seq<char>,
    database: Seq<char>,
    fresh: FreshStoreView,
    tokenizer: Seq<char>,
) -> StoreView {
    StoreView {
        scope,
        database,
        meta: Map::empty().insert("format_version"@, text::decimal(USER_VERSION as int)).insert(
            "tokenizer"@,
            tokenizer,
        ).insert("store_id"@, fresh.store_id).insert(
            "store_revision"@,
            fresh.store_revision,
        ).insert("schema"@, fresh.schema).insert("purpose"@, fresh.purpose),
        sources: Map::empty(),
        source_sequence: 0,
        ingest_jobs: Map::empty(),
        paths: Map::empty(),
        pages: Map::empty(),
        tags: Map::empty(),
        operations: Seq::empty(),
        operation_sequence: 0,
        weights: Map::empty(),
        feedback: Map::empty(),
        relations: Map::empty(),
        spans: Map::empty(),
        changesets: Map::empty(),
        discussions: discussion_book::BookView {
            discussions: Map::empty(),
            revisions: Map::empty(),
            bindings: Map::empty(),
        },
    }
}

/// What the log says of a new store.
pub open spec fn init_detail(tokenizer: Seq<char>) -> JsonView {
    JsonView::Object(
        seq![
            json::entry("tokenizer"@, JsonView::Text(tokenizer)),
            json::entry("user_version"@, JsonView::Int(USER_VERSION as int)),
        ],
    )
}

/// A new store with its first entry in the log.
pub open spec fn initialized(
    scope: Seq<char>,
    database: Seq<char>,
    fresh: FreshStoreView,
    tokenizer: Seq<char>,
    now: Seq<char>,
    revision: Seq<char>,
) -> Result<StoreView, AppErrorView> {
    store::recorded(
        blank_store(scope, database, fresh, tokenizer),
        "init"@,
        "wiki"@,
        init_detail(tokenizer),
        now,
        revision,
    )
}

/// How a store is opened to be read.
pub enum ReadOpening {
    Ready(Store),
    /// The store has an older format: it is migrated and opened to be worked with.
    Migrate,
}

/// How far the opening of a store is.
pub struct OpenProgress {
    pub done: usize,
    pub total: usize,
    pub phase: String,
}

fn lay_out(scope: &str, database: &str, fresh: &FreshStore, tokenizer: &str) -> (r: Store)
    ensures
        r@ == blank_store(scope@, database@, fresh@, tokenizer@),
{
    let mut meta: Table<String, String> = Table::new();
    meta.put(owned("format_version"), decimal_text(USER_VERSION));
    meta.put(owned("tokenizer"), owned(tokenizer));
    meta.put(owned("store_id"), owned(fresh.store_id.as_str()));
    meta.put(owned("store_revision"), owned(fresh.store_revision.as_str()));
    meta.put(owned("schema"), owned(fresh.schema.as_str()));
    meta.put(owned("purpose"), owned(fresh.purpose.as_str()));
    let operations: Vec<OperationRow> = Vec::new();
    assert(text::views(operations@) =~= Seq::empty());
    let sources: Table<i64, SourceRow> = Table::new();
    let ingest_jobs: Table<i64, IngestRow> = Table::new();
    let paths: Table<String, PathLog> = Table::new();
    let pages: Table<String, PageRow> = Table::new();
    let tags: Table<String, TagRow> = Table::new();
    let weights: Table<Triple, WeightRow> = Table::new();
    let feedback: Table<FeedbackKey, FeedbackRow> = Table::new();
    let relations: Table<String, RelationRow> = Table::new();
    let spans: Table<String, SpanRow> = Table::new();
    let changesets: Table<String, ChangesetRow> = Table::new();
    let discussions = DiscussionBook {
        discussions: Table::new(),
        revisions: Table::new(),
        bindings: Table::new(),
    };
    Store {
        scope: owned(scope),
        database: owned(database),
        meta,
        sources,
        source_sequence: 0,
        ingest_jobs,
        paths,
        pages,
        tags,
        operations,
        operation_sequence: 0,
        weights,
        feedback,
        relations,
        spans,
        changesets,
        discussions,
    }
}

impl Store {
    /// Opens a store to work with it, or lays out a new one where none was found.
    pub fn initialize(
        scope: &str,
        database: &str,
        found: Option<FoundStore>,
        fresh: &FreshStore,
        tokenizer: &str,
        now: &str,
        revision: &str,
    ) -> (r: Result<(Store, bool), AppError>)
        ensures
            match found {
                Some(known) => match opened(scope@, database@, Some(known@), tokenizer@) {
                    Ok(store) => r matches Ok(pair) && pair.0@ == store && !pair.1,
                    Err(e) => r matches Err(got) && got@ == e,
                },
                None => match initialized(
                    scope@,
                    database@,
                    fresh@,
                    tokenizer@,
                    now@,
                    revision@,
                ) {
                    Ok(store) => r matches Ok(pair) && pair.0@ == store && pair.1,
                    Err(e) => r matches Err(got) && got@ == e,
                },
            },
    {
        match found {
            Some(known) => match Store::open(scope, database, Some(known), tokenizer) {
                Ok(store) => Ok((store, false)),
                Err(e) => Err(e),
            },
            None => {
                let mut store = lay_out(scope, database, fresh, tokenizer);
                let detail = Json::object2(
                    "tokenizer",
                    Json::text(tokenizer),
                    "user_version",
                    Json::Int(USER_VERSION),
                );
                assert(detail@ == init_detail(tokenizer@));
                match store.record_operation("init", "wiki", detail, now, revision) {
                    Ok(()) => Ok((store, true)),
                    Err(e) => Err(e),
                }
            },
        }
    }

    /// Opens a store to work with it. Its ladder was climbed before.
    pub fn open(scope: &str, database: &str, found: Option<FoundStore>, tokenizer: &str) -> (r:
        Result<Store, AppError>)
        ensures
            error::outcome(r) == opened(scope@, database@, text::opt_view(found), tokenizer@),
    {
        match found {
            None => Err(
                AppError::new(
                    ErrorCode::StoreNotFound,
                    join2("wiki database not found: ", database).as_str(),
                ),
            ),
            Some(known) => {
                if known.version == 0 {
                    return Err(no_schema_error());
                }
                if known.version as i64 != USER_VERSION {
                    return Err(version_error(known.version));
                }
                if let Err(e) = validate_store(&known.shape, &known.store.meta, tokenizer) {
                    return Err(e);
                }
                let mut store = known.store;
                store.scope = owned(scope);
                store.database = owned(database);
                Ok(store)
            },
        }
    }

    /// Opens a store as [`Store::open`] does, and says how far it is before its graph is
    /// looked at.
    pub fn open_with_migration_progress(
        scope: &str,
        database: &str,
        found: Option<FoundStore>,
        tokenizer: &str,
    ) -> (r: Result<(Store, OpenProgress), AppError>)
        ensures
            match opened(scope@, database@, text::opt_view(found), tokenizer@) {
                Ok(store) => {
                    &&& r matches Ok(pair)
                    &&& pair.0@ == store
                    &&& pair.1.done == 1 && pair.1.total == 1
                    &&& pair.1.phase@ == "projecting"@
                },
                Err(e) => r matches Err(got) && got@ == e,
            },
    {
        match Store::open(scope, database, found, tokenizer) {
            Ok(store) => Ok(
                (store, OpenProgress { done: 1, total: 1, phase: owned("projecting") }),
            ),
            Err(e) => Err(e),
        }
    }

    /// Opens a store to read it. Nothing is migrated.
    pub fn open_read_only(
        scope: &str,
        database: &str,
        found: Option<FoundStore>,
        tokenizer: &str,
    ) -> (r: Result<Store, AppError>)
        ensures
            error::outcome(r) == opened_to_read(
                scope@,
                database@,
                text::opt_view(found),
                tokenizer@,
            ),
    {
        match found {
            None => Err(
                AppError::new(
                    ErrorCode::StoreNotFound,
                    join2("wiki database not found: ", database).as_str(),
                ),
            ),
            Some(known) => {
                let checked = prepare_store_read_only(
                    known.version,
                    &known.shape,
                    &known.store.meta,
                    tokenizer,
                );
                if let Err(e) = checked {
                    return Err(e);
                }
                let mut store = known.store;
                store.scope = owned(scope);
                store.database = owned(database);
                Ok(store)
            },
        }
    }

    /// Opens a store to read it, or says that it has to be migrated first.
    pub fn open_for_read(
        scope: &str,
        database: &str,
        found: Option<FoundStore>,
        tokenizer: &str,
    ) -> (r: Result<ReadOpening, AppError>)
        ensures
            match opened_to_read(scope@, database@, text::opt_view(found), tokenizer@) {
                Ok(store) => r matches Ok(ReadOpening::Ready(got)) && got@ == store,
                Err(e) => if e.code == ErrorCode::UnsupportedStoreVersion {
                    r matches Ok(ReadOpening::Migrate)
                } else {
                    r matches Err(got) && got@ == e
                },
            },
    {
        match Store::open_read_only(scope, database, found, tokenizer) {
            Ok(store) => Ok(ReadOpening::Ready(store)),
            Err(e) => {
                if e.code == ErrorCode::UnsupportedStoreVersion {
                    Ok(ReadOpening::Migrate)
                } else {
                    Err(e)
                }
            },
        }
    }

    /// Opens a store for a hook, which takes it only as it lies there. Whatever speaks
    /// against it, the hook learns that the store is not available.
    pub fn open_for_hook(
        scope: &str,
        database: &str,
        files: &HookFiles,
        found: Option<FoundStore>,
        tokenizer: &str,
    ) -> (r: Result<Store, AppError>)
        ensures
            match (
                hooks::access(files@),
                opened_to_read(scope@, database@, text::opt_view(found), tokenizer@),
            ) {
                (Some(_), Ok(store)) => r matches Ok(got) && got@ == store,
                _ => r matches Err(got) && got@ == hooks::unavailable(),
            },
    {
        if let Err(e) = hooks::hook_access(files) {
            return Err(e);
        }
        match Store::open_read_only(scope, database, found, tokenizer) {
            Ok(store) => Ok(store),
            Err(_) => Err(hooks::store_hook_unavailable()),
        }
    }
}

/// A new store can be opened: it passes every check of its metadata.
pub proof fn law_new_store_opens(
    scope: Seq<char>,
    database: Seq<char>,
    fresh: FreshStoreView,
    tokenizer: Seq<char>,
    now: Seq<char>,
    revision: Seq<char>,
    shape: SchemaShapeView,
)
    requires
        text::is_lower_hex(fresh.store_id, 64),
        text::is_lower_hex(revision, 64),
        missing(shape, needed_columns(), needed_columns().len()) is None,
    ensures
        initialized(scope, database, fresh, tokenizer, now, revision) matches Ok(store) && opened(
            scope,
            database,
            Some(FoundStoreView { version: USER_VERSION as int, shape, store }),
            tokenizer,
        ) == Ok::<StoreView, AppErrorView>(store),
{
    reveal_strlit("format_version");
    reveal_strlit("tokenizer");
    reveal_strlit("store_id");
    reveal_strlit("store_revision");
    reveal_strlit("schema");
    reveal_strlit("purpose");
    reveal_strlit("changeset_frozen");
    assert("format_version"@.len() == 14);
    assert("tokenizer"@.len() == 9);
    assert("store_id"@.len() == 8);
    assert("schema"@.len() == 6);
    assert("purpose"@.len() == 7);
    assert("changeset_frozen"@.len() == 16);
    assert("store_revision"@[0] == 's' && "format_version"@[0] == 'f');
}

} // verus!
