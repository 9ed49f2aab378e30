//! The store: its tables, the log of its operations, and what stands in its
//! metadata.
use crate::digest;
use crate::digest::hash_content;
use crate::discussion_book::{BookView, DiscussionBook};
use crate::error;
use crate::error::{AppError, AppErrorView, ErrorCode};
use crate::json;
use crate::json::{Json, JsonView};
use crate::rows::{
    ChangesetRow, ChangesetView, FeedbackKey, FeedbackKeyView, FeedbackRow, FeedbackView,
    IngestRow, IngestView, OperationRow, OperationView, PageRow, PageView, PathLog,
    PathRevisionView, RelationRow, RelationView, SourceRow, SourceView, SpanRow, SpanView, TagRow,
    TagView, WeightRow, WeightView,
};
use crate::table::{copy_records, same_records, Record, Table, Triple, TripleView};
use crate::text;
use crate::text::{owned, same_text};
use vstd::prelude::*;

verus! {

/// The key under which a changeset that is being committed is marked.
pub const CHANGESET_FREEZE_KEY: &'static str = "changeset_frozen";

/// A Wiki store. What belongs to a page, a tag or a tracked path stands with it.
pub struct Store {
    pub scope: String,
    pub database: String,
    pub meta: Table<String, String>,
    pub sources: Table<i64, SourceRow>,
    /// The highest source identifier that was ever given out.
    pub source_sequence: i64,
    pub ingest_jobs: Table<i64, IngestRow>,
    /// The sources observed at each tracked path.
    pub paths: Table<String, PathLog>,
    pub pages: Table<String, PageRow>,
    pub tags: Table<String, TagRow>,
    /// The log of operations, the oldest first.
    pub operations: Vec<OperationRow>,
    /// The highest operation identifier that was ever given out.
    pub operation_sequence: i64,
    /// The weights by target type, target and provenance.
    pub weights: Table<Triple, WeightRow>,
    pub feedback: Table<FeedbackKey, FeedbackRow>,
    pub relations: Table<String, RelationRow>,
    pub spans: Table<String, SpanRow>,
    pub changesets: Table<String, ChangesetRow>,
    pub discussions: DiscussionBook,
}

#[verifier::ext_equal]
pub struct StoreView {
    pub scope: Seq<char>,
    pub database: Seq<char>,
    pub meta: Map<Seq<char>, Seq<char>>,
    pub sources: Map<i64, SourceView>,
    pub source_sequence: i64,
    pub ingest_jobs: Map<i64, IngestView>,
    pub paths: Map<Seq<char>, Seq<PathRevisionView>>,
    pub pages: Map<Seq<char>, PageView>,
    pub tags: Map<Seq<char>, TagView>,
    pub operations: Seq<OperationView>,
    pub operation_sequence: i64,
    pub weights: Map<TripleView, WeightView>,
    pub feedback: Map<FeedbackKeyView, FeedbackView>,
    pub relations: Map<Seq<char>, RelationView>,
    pub spans: Map<Seq<char>, SpanView>,
    pub changesets: Map<Seq<char>, ChangesetView>,
    pub discussions: BookView,
}

impl View for Store {
    type V = StoreView;

    open spec fn view(&self) -> StoreView {
        StoreView {
            scope: self.scope@,
            database: self.database@,
            meta: self.meta@,
            sources: self.sources@,
            source_sequence: self.source_sequence,
            ingest_jobs: self.ingest_jobs@,
            paths: self.paths@,
            pages: self.pages@,
            tags: self.tags@,
            operations: text::views(self.operations@),
            operation_sequence: self.operation_sequence,
            weights: self.weights@,
            feedback: self.feedback@,
            relations: self.relations@,
            spans: self.spans@,
            changesets: self.changesets@,
            discussions: self.discussions@,
        }
    }
}

impl Record for Store {
    fn duplicate(&self) -> (r: Self) {
        Store {
            scope: owned(self.scope.as_str()),
            database: owned(self.database.as_str()),
            meta: self.meta.copy(),
            sources: self.sources.copy(),
            source_sequence: self.source_sequence,
            ingest_jobs: self.ingest_jobs.copy(),
            paths: self.paths.copy(),
            pages: self.pages.copy(),
            tags: self.tags.copy(),
            operations: copy_records(&self.operations),
            operation_sequence: self.operation_sequence,
            weights: self.weights.copy(),
            feedback: self.feedback.copy(),
            relations: self.relations.copy(),
            spans: self.spans.copy(),
            changesets: self.changesets.copy(),
            discussions: self.discussions.duplicate(),
        }
    }

    fn same(&self, other: &Self) -> (r: bool) {
        same_text(self.scope.as_str(), other.scope.as_str())
            && same_text(self.database.as_str(), other.database.as_str())
            && self.meta.equals(&other.meta)
            && self.sources.equals(&other.sources)
            && self.source_sequence == other.source_sequence
            && self.ingest_jobs.equals(&other.ingest_jobs)
            && self.paths.equals(&other.paths)
            && self.pages.equals(&other.pages)
            && self.tags.equals(&other.tags)
            && same_records(&self.operations, &other.operations)
            && self.operation_sequence == other.operation_sequence
            && self.weights.equals(&other.weights)
            && self.feedback.equals(&other.feedback)
            && self.relations.equals(&other.relations)
            && self.spans.equals(&other.spans)
            && self.changesets.equals(&other.changesets)
            && self.discussions.same(&other.discussions)
    }
}


/// A method came to `goal`: the store is as it says, or the error is its error and
/// the store is as it was.
pub open spec fn settled<T>(
    before: StoreView,
    after: StoreView,
    r: Result<T, AppError>,
    goal: Result<StoreView, AppErrorView>,
) -> bool {
    match goal {
        Ok(next) => r is Ok && after == next,
        Err(e) => (r matches Err(got) && got@ == e) && after == before,
    }
}

// ---------------------------------------------------------------------------
// The log of operations
// ---------------------------------------------------------------------------

/// The store is frozen: a changeset is being committed.
pub open spec fn is_frozen(store: StoreView) -> bool {
    store.meta.dom().contains("changeset_frozen"@)
}

/// The entry that the next operation makes in the log.
pub open spec fn next_operation(
    store: StoreView,
    action: Seq<char>,
    target: Seq<char>,
    detail: JsonView,
    now: Seq<char>,
) -> OperationView {
    OperationView {
        id: (store.operation_sequence + 1) as i64,
        action,
        target,
        detail,
        created_at: now,
    }
}

/// The store after an operation was written down. The revision is fresh with each
/// operation.
pub open spec fn recorded(
    store: StoreView,
    action: Seq<char>,
    target: Seq<char>,
    detail: JsonView,
    now: Seq<char>,
    revision: Seq<char>,
) -> Result<StoreView, AppErrorView> {
    if is_frozen(store) {
        error::refused(
            ErrorCode::ChangesetFrozen,
            "changeset is frozen for commit; retry commit or discard it instead of staging more writes"@,
        )
    } else if store.operation_sequence >= i64::MAX {
        error::refused(ErrorCode::DatabaseError, "operation identifiers are exhausted"@)
    } else if !store.meta.dom().contains("store_revision"@) {
        error::refused(ErrorCode::CorruptStore, "wiki store_revision metadata is missing"@)
    } else {
        Ok(
            StoreView {
                operations: store.operations.push(
                    next_operation(store, action, target, detail, now),
                ),
                operation_sequence: (store.operation_sequence + 1) as i64,
                meta: store.meta.insert("store_revision"@, revision),
                ..store
            },
        )
    }
}

/// The identifier of the newest operation, or 0.
pub open spec fn last_operation_id(store: StoreView) -> i64 {
    if store.operations.len() == 0 {
        0
    } else {
        store.operations.last().id
    }
}

/// The operations with identifiers above `id`, the oldest first.
pub open spec fn operations_after(operations: Seq<OperationView>, id: i64) -> Seq<OperationView>
    decreases operations.len(),
{
    if operations.len() == 0 {
        Seq::empty()
    } else {
        let head = operations_after(operations.drop_last(), id);
        if operations.last().id > id {
            head.push(operations.last())
        } else {
            head
        }
    }
}

/// The newest operations, the newest first.
pub open spec fn newest<T>(list: Seq<T>, limit: nat) -> Seq<T> {
    Seq::new(
        if limit < list.len() {
            limit
        } else {
            list.len()
        },
        |i: int| list[list.len() - 1 - i],
    )
}

/// What a store is known by.
pub struct StoreIdentity {
    pub store_id: String,
    pub revision: String,
    pub operation_id: i64,
}

#[verifier::ext_equal]
pub struct IdentityView {
    pub store_id: Seq<char>,
    pub revision: Seq<char>,
    pub operation_id: i64,
}

impl View for StoreIdentity {
    type V = IdentityView;

    open spec fn view(&self) -> IdentityView {
        IdentityView {
            store_id: self.store_id@,
            revision: self.revision@,
            operation_id: self.operation_id,
        }
    }
}

/// What a store is known by; `code` and `subject` say how a gap is reported.
pub open spec fn identity_of(
    store: StoreView,
    code: ErrorCode,
    subject: Seq<char>,
) -> Result<IdentityView, AppErrorView> {
    if !store.meta.dom().contains("store_id"@) {
        error::refused(code, subject + " store_id metadata is missing"@)
    } else if !store.meta.dom().contains("store_revision"@) {
        error::refused(code, subject + " store_revision metadata is missing"@)
    } else {
        Ok(
            IdentityView {
                store_id: store.meta["store_id"@],
                revision: store.meta["store_revision"@],
                operation_id: last_operation_id(store),
            },
        )
    }
}

/// What a live store is known by.
pub open spec fn live_identity(store: StoreView) -> Result<IdentityView, AppErrorView> {
    identity_of(store, ErrorCode::CorruptStore, "wiki"@)
}

/// What a draft is known by.
pub open spec fn draft_identity(store: StoreView) -> Result<IdentityView, AppErrorView> {
    identity_of(store, ErrorCode::ChangesetCorrupt, "draft"@)
}

/// The value under a key of the metadata.
pub open spec fn meta_value(store: StoreView, key: Seq<char>) -> Option<Seq<char>> {
    if store.meta.dom().contains(key) {
        Some(store.meta[key])
    } else {
        None
    }
}

/// The digest of a value of the metadata.
pub open spec fn meta_mark(store: StoreView, key: Seq<char>) -> Result<Seq<char>, AppErrorView> {
    match meta_value(store, key) {
        Some(value) => Ok(digest::text_digest(value)),
        None => Err(no_rows()),
    }
}

/// The error of a query that has to give a row and gives none.
pub open spec fn no_rows() -> AppErrorView {
    error::app_error(ErrorCode::DatabaseError, "Query returned no rows"@)
}

/// The error of a query that has to give a row and gives none.
pub fn no_rows_error() -> (r: AppError)
    ensures
        r@ == no_rows(),
{
    AppError::new(ErrorCode::DatabaseError, "Query returned no rows")
}

/// The error of a statement that would leave a reference without its target.
pub open spec fn broken_reference() -> AppErrorView {
    error::app_error(ErrorCode::DatabaseError, "FOREIGN KEY constraint failed"@)
}

/// The error of a statement that would leave a reference without its target.
pub fn broken_reference_error() -> (r: AppError)
    ensures
        r@ == broken_reference(),
{
    AppError::new(ErrorCode::DatabaseError, "FOREIGN KEY constraint failed")
}

/// The schema or the purpose, set to a new text.
pub open spec fn meta_set(
    store: StoreView,
    action: Seq<char>,
    key: Seq<char>,
    value: Seq<char>,
    now: Seq<char>,
    revision: Seq<char>,
) -> Result<StoreView, AppErrorView> {
    recorded(
        StoreView { meta: store.meta.insert(key, value), ..store },
        action,
        key,
        JsonView::Object(Seq::empty()),
        now,
        revision,
    )
}

/// The schema of a store.
pub struct SchemaResponse {
    pub scope: String,
    pub database: String,
    pub schema: Option<String>,
}

/// The purpose of a store.
pub struct PurposeResponse {
    pub scope: String,
    pub database: String,
    pub purpose: Option<String>,
}

/// What is shown is the schema of `store`.
pub open spec fn shows_schema(shown: SchemaResponse, store: StoreView) -> bool {
    &&& shown.scope@ == store.scope
    &&& shown.database@ == store.database
    &&& text::opt_text(shown.schema) == meta_value(store, "schema"@)
}

/// What is shown is the purpose of `store`.
pub open spec fn shows_purpose(shown: PurposeResponse, store: StoreView) -> bool {
    &&& shown.scope@ == store.scope
    &&& shown.database@ == store.database
    &&& text::opt_text(shown.purpose) == meta_value(store, "purpose"@)
}

/// The newest operations of a store.
pub struct LogResponse {
    pub scope: String,
    pub database: String,
    pub operations: Vec<OperationRow>,
}

impl Store {
    /// Whether a changeset is being committed.
    pub fn frozen(&self) -> (r: bool)
        ensures
            r == is_frozen(self@),
    {
        self.meta.has(&owned(CHANGESET_FREEZE_KEY))
    }

    /// The value under a key of the metadata.
    pub fn meta_text(&self, key: &str) -> (r: Option<String>)
        ensures
            text::opt_text(r) == meta_value(self@, key@),
    {
        match self.meta.get(&owned(key)) {
            Some(value) => Some(owned(value.as_str())),
            None => None,
        }
    }

    /// Writes an operation down in the log and gives the store a new revision.
    pub fn record_operation(
        &mut self,
        action: &str,
        target: &str,
        detail: Json,
        now: &str,
        revision: &str,
    ) -> (r: Result<(), AppError>)
        ensures
            settled(
                old(self)@,
                final(self)@,
                r,
                recorded(old(self)@, action@, target@, detail@, now@, revision@),
            ),
    {
        if self.frozen() {
            return Err(
                AppError::new(
                    ErrorCode::ChangesetFrozen,
                    "changeset is frozen for commit; retry commit or discard it instead of staging more writes",
                ),
            );
        }
        if self.operation_sequence >= i64::MAX {
            return Err(
                AppError::new(ErrorCode::DatabaseError, "operation identifiers are exhausted"),
            );
        }
        if !self.meta.has(&owned("store_revision")) {
            return Err(
                AppError::new(
                    ErrorCode::CorruptStore,
                    "wiki store_revision metadata is missing",
                ),
            );
        }
        let id: i64 = self.operation_sequence + 1;
        let row = OperationRow {
            id,
            action: owned(action),
            target: owned(target),
            detail,
            created_at: owned(now),
        };
        proof {
            text::lemma_views_push(self.operations@, row);
        }
        self.operations.push(row);
        self.operation_sequence = id;
        self.meta.put(owned("store_revision"), owned(revision));
        Ok(())
    }

    /// The identifier of the newest operation, or 0.
    pub fn newest_operation(&self) -> (r: i64)
        ensures
            r == last_operation_id(self@),
    {
        let n = self.operations.len();
        if n == 0 {
            0
        } else {
            self.operations[n - 1].id
        }
    }

    /// What a store is known by; `code` and `subject` say how a gap is reported.
    pub fn identify(&self, code: ErrorCode, subject: &str) -> (r: Result<StoreIdentity, AppError>)
        ensures
            error::outcome(r) == identity_of(self@, code, subject@),
    {
        let store_id = match self.meta_text("store_id") {
            Some(value) => value,
            None => {
                return Err(
                    AppError::new(
                        code,
                        text::join2(subject, " store_id metadata is missing").as_str(),
                    ),
                );
            },
        };
        let revision = match self.meta_text("store_revision") {
            Some(value) => value,
            None => {
                return Err(
                    AppError::new(
                        code,
                        text::join2(subject, " store_revision metadata is missing").as_str(),
                    ),
                );
            },
        };
        Ok(StoreIdentity { store_id, revision, operation_id: self.newest_operation() })
    }

    /// What the store is known by.
    pub fn identity(&self) -> (r: Result<StoreIdentity, AppError>)
        ensures
            error::outcome(r) == live_identity(self@),
    {
        self.identify(ErrorCode::CorruptStore, "wiki")
    }

    /// The digest of a value of the metadata.
    pub fn meta_fingerprint(&self, key: &str) -> (r: Result<String, AppError>)
        ensures
            error::outcome(r) == meta_mark(self@, key@),
    {
        match self.meta_text(key) {
            Some(value) => Ok(hash_content(value.as_str())),
            None => Err(no_rows_error()),
        }
    }

    /// How the changes of a draft are kept.
    pub fn changeset_storage_kind(&self) -> (r: Option<String>)
        ensures
            text::opt_text(r) == meta_value(self@, "changeset_storage"@),
    {
        self.meta_text("changeset_storage")
    }

    /// Sets the schema or the purpose.
    fn set_meta(&mut self, action: &str, key: &str, value: &str, now: &str, revision: &str) -> (r:
        Result<(), AppError>)
        ensures
            settled(
                old(self)@,
                final(self)@,
                r,
                meta_set(old(self)@, action@, key@, value@, now@, revision@),
            ),
    {
        let before = self.meta_text(key);
        self.meta.put(owned(key), owned(value));
        let detail = Json::empty_object();
        match self.record_operation(action, key, detail, now, revision) {
            Ok(()) => Ok(()),
            Err(e) => {
                match before {
                    Some(text) => {
                        self.meta.put(owned(key), text);
                    },
                    None => {
                        self.meta.remove(&owned(key));
                    },
                }
                assert(self@.meta =~= old(self)@.meta);
                Err(e)
            },
        }
    }

    /// Sets the schema.
    pub fn schema_set(&mut self, schema: &str, now: &str, revision: &str) -> (r: Result<
        SchemaResponse,
        AppError,
    >)
        ensures
            settled(
                old(self)@,
                final(self)@,
                r,
                meta_set(old(self)@, "schema_set"@, "schema"@, schema@, now@, revision@),
            ),
            r matches Ok(shown) ==> shows_schema(shown, final(self)@),
    {
        match self.set_meta("schema_set", "schema", schema, now, revision) {
            Ok(()) => Ok(self.schema_show()),
            Err(e) => Err(e),
        }
    }

    /// The schema.
    pub fn schema_show(&self) -> (r: SchemaResponse)
        ensures
            shows_schema(r, self@),
    {
        SchemaResponse {
            scope: owned(self.scope.as_str()),
            database: owned(self.database.as_str()),
            schema: self.meta_text("schema"),
        }
    }

    /// Sets the purpose.
    pub fn purpose_set(&mut self, purpose: &str, now: &str, revision: &str) -> (r: Result<
        PurposeResponse,
        AppError,
    >)
        ensures
            settled(
                old(self)@,
                final(self)@,
                r,
                meta_set(old(self)@, "purpose_set"@, "purpose"@, purpose@, now@, revision@),
            ),
            r matches Ok(shown) ==> shows_purpose(shown, final(self)@),
    {
        match self.set_meta("purpose_set", "purpose", purpose, now, revision) {
            Ok(()) => Ok(self.purpose_show()),
            Err(e) => Err(e),
        }
    }

    /// The purpose.
    pub fn purpose_show(&self) -> (r: PurposeResponse)
        ensures
            shows_purpose(r, self@),
    {
        PurposeResponse {
            scope: owned(self.scope.as_str()),
            database: owned(self.database.as_str()),
            purpose: self.meta_text("purpose"),
        }
    }

    /// Writes a search down in the log.
    pub fn record_search(&mut self, query: &str, limit: usize, now: &str, revision: &str) -> (r:
        Result<(), AppError>)
        ensures
            settled(
                old(self)@,
                final(self)@,
                r,
                recorded(
                    old(self)@,
                    "search"@,
                    query@,
                    JsonView::Object(seq![json::entry("limit"@, json::count_view(limit as nat))]),
                    now@,
                    revision@,
                ),
            ),
    {
        let detail = Json::object1("limit", Json::count(limit));
        self.record_operation("search", query, detail, now, revision)
    }

    /// Writes a lint down in the log.
    pub fn record_lint(&mut self, issues: usize, now: &str, revision: &str) -> (r: Result<
        (),
        AppError,
    >)
        ensures
            settled(
                old(self)@,
                final(self)@,
                r,
                recorded(
                    old(self)@,
                    "lint"@,
                    "wiki"@,
                    JsonView::Object(seq![json::entry("issues"@, json::count_view(issues as nat))]),
                    now@,
                    revision@,
                ),
            ),
    {
        let detail = Json::object1("issues", Json::count(issues));
        self.record_operation("lint", "wiki", detail, now, revision)
    }

    /// The newest operations, the newest first.
    pub fn load_operations(&self, limit: usize) -> (r: Vec<OperationRow>)
        ensures
            text::views(r@) == newest(self@.operations, limit as nat),
    {
        let n = self.operations.len();
        let mut out: Vec<OperationRow> = Vec::new();
        let mut i: usize = 0;
        while i < n && i < limit
            invariant
                n == self.operations@.len(),
                i <= n,
                i <= limit,
                out@.len() == i,
                forall|j: int|
                    0 <= j < i ==> (#[trigger] out@[j])@ == self.operations@[n - 1 - j]@,
            decreases n - i,
        {
            out.push(self.operations[n - 1 - i].duplicate());
            i += 1;
        }
        assert(text::views(out@) =~= newest(self@.operations, limit as nat));
        out
    }

    /// The newest operations of the store.
    pub fn log(&self, limit: usize) -> (r: LogResponse)
        ensures
            r.scope@ == self@.scope,
            r.database@ == self@.database,
            text::views(r.operations@) == newest(self@.operations, limit as nat),
    {
        LogResponse {
            scope: owned(self.scope.as_str()),
            database: owned(self.database.as_str()),
            operations: self.load_operations(limit),
        }
    }
}

} // verus!
