//! The ingestion of sources: a job for each source, from pending over analysis and
//! generation to completion.
use crate::error;
use crate::error::{AppError, AppErrorView, ErrorCode};
use crate::json;
use crate::json::{Json, JsonView};
use crate::markdown;
use crate::markdown::ascii_lower_text;
use crate::pages;
use crate::pages::{encode_optional, PageSummary, PageSummaryView};
use crate::paging;
use crate::paging::{copy_page, effective_offset};
use crate::rows::{IngestRow, IngestView};
use crate::sources;
use crate::sources::{
    window_source, SourceRecord, SourceRecordView, SourceWindow, SourceWindowView,
};
use crate::spans;
use crate::store;
use crate::store::{Store, StoreView};
use crate::table;
use crate::table::Record;
use crate::text;
use crate::text::{copy_opt, decimal_text, join2, join3, join4, owned, same_opt, same_text, trim};
use vstd::prelude::*;

verus! {

/// A job, as a list shows it.
pub struct IngestJobSummary {
    pub source_id: i64,
    pub status: String,
    pub attempts: i64,
    pub last_error: Option<String>,
    pub no_derived_pages_reason: Option<String>,
    pub updated_at: String,
}

#[verifier::ext_equal]
pub struct JobView {
    pub source_id: i64,
    pub status: Seq<char>,
    pub attempts: i64,
    pub last_error: Option<Seq<char>>,
    pub no_derived_pages_reason: Option<Seq<char>>,
    pub updated_at: Seq<char>,
}

impl View for IngestJobSummary {
    type V = JobView;

    open spec fn view(&self) -> JobView {
        JobView {
            source_id: self.source_id,
            status: self.status@,
            attempts: self.attempts,
            last_error: text::opt_text(self.last_error),
            no_derived_pages_reason: text::opt_text(self.no_derived_pages_reason),
            updated_at: self.updated_at@,
        }
    }
}

impl Record for IngestJobSummary {
    fn duplicate(&self) -> (r: Self) {
        IngestJobSummary {
            source_id: self.source_id,
            status: owned(self.status.as_str()),
            attempts: self.attempts,
            last_error: copy_opt(&self.last_error),
            no_derived_pages_reason: copy_opt(&self.no_derived_pages_reason),
            updated_at: owned(self.updated_at.as_str()),
        }
    }

    fn same(&self, other: &Self) -> (r: bool) {
        self.source_id == other.source_id
            && same_text(self.status.as_str(), other.status.as_str())
            && self.attempts == other.attempts
            && same_opt(&self.last_error, &other.last_error)
            && same_opt(&self.no_derived_pages_reason, &other.no_derived_pages_reason)
            && same_text(self.updated_at.as_str(), other.updated_at.as_str())
    }
}

/// A job to work on, with (a part of) its source.
pub struct IngestWork {
    pub source: SourceRecord,
    pub source_window: SourceWindow,
    pub status: String,
    pub attempts: i64,
    pub analysis: Option<String>,
}

#[verifier::ext_equal]
pub struct WorkView {
    pub source: SourceRecordView,
    pub source_window: SourceWindowView,
    pub status: Seq<char>,
    pub attempts: i64,
    pub analysis: Option<Seq<char>>,
}

impl View for IngestWork {
    type V = WorkView;

    open spec fn view(&self) -> WorkView {
        WorkView {
            source: self.source@,
            source_window: self.source_window@,
            status: self.status@,
            attempts: self.attempts,
            analysis: text::opt_text(self.analysis),
        }
    }
}

/// What is needed to work on a job.
pub struct IngestPacket {
    pub scope: String,
    pub database: String,
    pub job: Option<IngestWork>,
    pub schema: Option<String>,
    pub purpose: Option<String>,
    pub pages: Vec<PageSummary>,
}

#[verifier::ext_equal]
pub struct PacketView {
    pub scope: Seq<char>,
    pub database: Seq<char>,
    pub job: Option<WorkView>,
    pub schema: Option<Seq<char>>,
    pub purpose: Option<Seq<char>>,
    pub pages: Seq<PageSummaryView>,
}

impl View for IngestPacket {
    type V = PacketView;

    open spec fn view(&self) -> PacketView {
        PacketView {
            scope: self.scope@,
            database: self.database@,
            job: text::opt_view(self.job),
            schema: text::opt_text(self.schema),
            purpose: text::opt_text(self.purpose),
            pages: text::views(self.pages@),
        }
    }
}

/// How a source was taken up by the pages.
pub struct IngestIntegration {
    pub source_summary_pages: usize,
    pub derived_pages: usize,
    pub no_derived_pages_reason: Option<String>,
}

#[verifier::ext_equal]
pub struct IntegrationView {
    pub source_summary_pages: usize,
    pub derived_pages: usize,
    pub no_derived_pages_reason: Option<Seq<char>>,
}

impl View for IngestIntegration {
    type V = IntegrationView;

    open spec fn view(&self) -> IntegrationView {
        IntegrationView {
            source_summary_pages: self.source_summary_pages,
            derived_pages: self.derived_pages,
            no_derived_pages_reason: text::opt_text(self.no_derived_pages_reason),
        }
    }
}

/// A job after it was changed.
pub struct IngestMutationResponse {
    pub scope: String,
    pub database: String,
    pub job: IngestJobSummary,
    pub integration: Option<IngestIntegration>,
}

#[verifier::ext_equal]
pub struct MutationView {
    pub scope: Seq<char>,
    pub database: Seq<char>,
    pub job: JobView,
    pub integration: Option<IntegrationView>,
}

impl View for IngestMutationResponse {
    type V = MutationView;

    open spec fn view(&self) -> MutationView {
        MutationView {
            scope: self.scope@,
            database: self.database@,
            job: self.job@,
            integration: text::opt_view(self.integration),
        }
    }
}

/// A page of the list of jobs.
pub struct IngestListResponse {
    pub scope: String,
    pub database: String,
    pub jobs: Vec<IngestJobSummary>,
    pub limit: usize,
    pub offset: usize,
    pub has_more: bool,
}

pub open spec fn job_of(id: i64, job: IngestView) -> JobView {
    JobView {
        source_id: id,
        status: job.status,
        attempts: job.attempts,
        last_error: job.last_error,
        no_derived_pages_reason: job.no_derived_pages_reason,
        updated_at: job.updated_at,
    }
}

fn show_job(id: i64, job: &IngestRow) -> (r: IngestJobSummary)
    ensures
        r@ == job_of(id, job@),
{
    IngestJobSummary {
        source_id: id,
        status: owned(job.status.as_str()),
        attempts: job.attempts,
        last_error: copy_opt(&job.last_error),
        no_derived_pages_reason: copy_opt(&job.no_derived_pages_reason),
        updated_at: owned(job.updated_at.as_str()),
    }
}

// ---------------------------------------------------------------------------
// Listing
// ---------------------------------------------------------------------------

pub open spec fn is_status(status: Seq<char>) -> bool {
    status == "pending"@ || status == "analyzing"@ || status == "generating"@ || status
        == "completed"@ || status == "failed"@
}

pub open spec fn status_checked(status: Seq<char>) -> Result<(), AppErrorView> {
    if is_status(status) {
        Ok(())
    } else {
        error::refused(
            ErrorCode::InvalidIngestStatus,
            "unsupported ingest status: "@ + status,
        )
    }
}

/// Checks the status of a job.
pub fn validate_ingest_status(status: &str) -> (r: Result<(), AppError>)
    ensures
        error::outcome(r) == status_checked(status@),
{
    if same_text(status, "pending") || same_text(status, "analyzing") || same_text(
        status,
        "generating",
    ) || same_text(status, "completed") || same_text(status, "failed") {
        Ok(())
    } else {
        Err(
            AppError::new(
                ErrorCode::InvalidIngestStatus,
                join2("unsupported ingest status: ", status).as_str(),
            ),
        )
    }
}

/// The jobs with a status among the first `count` of a list of sources.
pub open spec fn jobs_among(
    jobs: Map<i64, IngestView>,
    ids: Seq<i64>,
    status: Option<Seq<char>>,
    count: nat,
) -> Seq<JobView>
    decreases count,
{
    if count == 0 || count > ids.len() {
        Seq::empty()
    } else {
        let head = jobs_among(jobs, ids, status, (count - 1) as nat);
        let id = ids[count - 1];
        if status is None || status == Some(jobs[id].status) {
            head.push(job_of(id, jobs[id]))
        } else {
            head
        }
    }
}

/// The jobs with a status, in the order of their sources.
pub open spec fn jobs_with(store: StoreView, status: Option<Seq<char>>) -> Seq<JobView> {
    let ids = table::ordered::<i64>(store.ingest_jobs.dom());
    jobs_among(store.ingest_jobs, ids, status, ids.len())
}

pub open spec fn opt_str(s: Option<&str>) -> Option<Seq<char>> {
    match s {
        Some(s) => Some(s@),
        None => None,
    }
}

impl Store {
    fn list_jobs(&self, status: Option<&str>) -> (r: Vec<IngestJobSummary>)
        ensures
            text::views(r@) == jobs_with(self@, opt_str(status)),
    {
        let n = self.ingest_jobs.len();
        let ghost keys = self.ingest_jobs.keys();
        proof {
            table::lemma_ordered_is::<i64>(keys, self@.ingest_jobs.dom());
        }
        let mut out: Vec<IngestJobSummary> = Vec::new();
        assert(text::views(out@) =~= Seq::empty());
        let mut i: usize = 0;
        while i < n
            invariant
                i <= n == keys.len(),
                keys == self.ingest_jobs.keys(),
                text::views(out@) == jobs_among(
                    self@.ingest_jobs,
                    keys,
                    opt_str(status),
                    i as nat,
                ),
            decreases n - i,
        {
            let id = *self.ingest_jobs.key_at(i);
            let job = self.ingest_jobs.value_at(i);
            let wanted = match status {
                Some(status) => same_text(status, job.status.as_str()),
                None => true,
            };
            if wanted {
                let one = show_job(id, job);
                proof {
                    text::lemma_views_push(out@, one);
                }
                out.push(one);
            }
            i += 1;
        }
        out
    }

    /// A page of the list of jobs, of one status or of all.
    pub fn ingest_list(&self, status: Option<&str>, limit: usize, offset: usize) -> (r: Result<
        IngestListResponse,
        AppError,
    >)
        ensures
            match status {
                Some(status) => match status_checked(status@) {
                    Err(e) => r matches Err(got) && got@ == e,
                    Ok(_) => r is Ok,
                },
                None => r is Ok,
            },
            r matches Ok(got) ==> {
                let all = jobs_with(self@, opt_str(status));
                &&& got.scope@ == self@.scope
                &&& got.database@ == self@.database
                &&& text::views(got.jobs@) == paging::page_of(
                    all,
                    paging::query_offset(offset),
                    limit as nat,
                )
                &&& got.limit == limit
                &&& got.offset == offset
                &&& got.has_more == (paging::query_offset(offset) + limit < all.len())
            },
    {
        if let Some(status) = status {
            if let Err(e) = validate_ingest_status(status) {
                return Err(e);
            }
        }
        let all = self.list_jobs(status);
        assert(text::views(all@).len() == all@.len());
        let from = effective_offset(offset);
        let has_more = from < all.len() && limit < all.len() - from;
        Ok(
            IngestListResponse {
                scope: owned(self.scope.as_str()),
                database: owned(self.database.as_str()),
                jobs: copy_page(&all, from, limit),
                limit,
                offset,
                has_more,
            },
        )
    }
}

// ---------------------------------------------------------------------------
// Packets
// ---------------------------------------------------------------------------

/// There is no job for a source.
pub open spec fn job_missing(id: i64) -> AppErrorView {
    error::app_error(
        ErrorCode::IngestJobNotFound,
        "ingest job not found for source "@ + text::decimal(id as int),
    )
}

fn job_missing_error(id: i64) -> (r: AppError)
    ensures
        r@ == job_missing(id),
{
    AppError::new(
        ErrorCode::IngestJobNotFound,
        join2("ingest job not found for source ", decimal_text(id).as_str()).as_str(),
    )
}

/// A job to work on, with the start of its source.
pub open spec fn work_on(store: StoreView, id: i64, max: Option<usize>) -> Result<
    WorkView,
    AppErrorView,
> {
    if !store.ingest_jobs.dom().contains(id) {
        Err(job_missing(id))
    } else {
        let job = store.ingest_jobs[id];
        match sources::shown_source(store, id) {
            Err(e) => Err(e),
            Ok(source) => match sources::windowed(source, 0, max) {
                Err(e) => Err(e),
                Ok(part) => Ok(
                    WorkView {
                        source: part.source,
                        source_window: part.window,
                        status: job.status,
                        attempts: job.attempts,
                        analysis: job.analysis,
                    },
                ),
            },
        }
    }
}

/// What is needed to work on a job, where there is one.
pub open spec fn packet(
    store: StoreView,
    id: Option<i64>,
    context_limit: usize,
    max: Option<usize>,
) -> Result<PacketView, AppErrorView> {
    let job: Result<Option<WorkView>, AppErrorView> = match id {
        None => Ok(None),
        Some(id) => match work_on(store, id, max) {
            Err(e) => Err(e),
            Ok(work) => Ok(Some(work)),
        },
    };
    match job {
        Err(e) => Err(e),
        Ok(job) => Ok(
            PacketView {
                scope: store.scope,
                database: store.database,
                job,
                schema: store::meta_value(store, "schema"@),
                purpose: store::meta_value(store, "purpose"@),
                pages: paging::page_of(pages::summaries(store), 0, context_limit as nat),
            },
        ),
    }
}

impl Store {
    fn load_ingest_work(&self, id: i64, max: Option<usize>) -> (r: Result<IngestWork, AppError>)
        ensures
            error::outcome(r) == work_on(self@, id, max),
    {
        let job = match self.ingest_jobs.get(&id) {
            Some(job) => job,
            None => {
                return Err(job_missing_error(id));
            },
        };
        let source = match self.load_source(id) {
            Ok(source) => source,
            Err(e) => {
                return Err(e);
            },
        };
        match window_source(source, 0, max) {
            Err(e) => Err(e),
            Ok(part) => Ok(
                IngestWork {
                    source: part.source,
                    source_window: part.window,
                    status: owned(job.status.as_str()),
                    attempts: job.attempts,
                    analysis: copy_opt(&job.analysis),
                },
            ),
        }
    }

    fn ingest_packet(&self, id: Option<i64>, context_limit: usize, max: Option<usize>) -> (r: Result<
        IngestPacket,
        AppError,
    >)
        ensures
            error::outcome(r) == packet(self@, id, context_limit, max),
    {
        let job = match id {
            None => None,
            Some(id) => match self.load_ingest_work(id, max) {
                Ok(work) => Some(work),
                Err(e) => {
                    return Err(e);
                },
            },
        };
        let all = self.list_summaries();
        Ok(
            IngestPacket {
                scope: owned(self.scope.as_str()),
                database: owned(self.database.as_str()),
                job,
                schema: self.meta_text("schema"),
                purpose: self.meta_text("purpose"),
                pages: copy_page(&all, 0, context_limit),
            },
        )
    }

    /// A job after it was changed.
    fn ingest_mutation_response(&self, id: i64, integration: Option<IngestIntegration>) -> (r: Result<
        IngestMutationResponse,
        AppError,
    >)
        ensures
            error::outcome(r) == mutation(self@, id, text::opt_view(integration)),
    {
        match self.ingest_jobs.get(&id) {
            None => Err(job_missing_error(id)),
            Some(job) => Ok(
                IngestMutationResponse {
                    scope: owned(self.scope.as_str()),
                    database: owned(self.database.as_str()),
                    job: show_job(id, job),
                    integration,
                },
            ),
        }
    }
}

/// A job after it was changed.
pub open spec fn mutation(store: StoreView, id: i64, integration: Option<IntegrationView>) -> Result<
    MutationView,
    AppErrorView,
> {
    if !store.ingest_jobs.dom().contains(id) {
        Err(job_missing(id))
    } else {
        Ok(
            MutationView {
                scope: store.scope,
                database: store.database,
                job: job_of(id, store.ingest_jobs[id]),
                integration,
            },
        )
    }
}

// ---------------------------------------------------------------------------
// The life of a job
// ---------------------------------------------------------------------------

/// A list of alternatives.
pub open spec fn alternatives(list: Seq<Seq<char>>) -> Seq<char>
    decreases list.len(),
{
    if list.len() == 0 {
        Seq::empty()
    } else if list.len() == 1 {
        list[0]
    } else {
        alternatives(list.drop_last()) + " or "@ + list.last()
    }
}

/// The job of a source is in one of some states.
pub open spec fn state_required(store: StoreView, id: i64, allowed: Seq<Seq<char>>) -> Result<
    (),
    AppErrorView,
> {
    if !store.ingest_jobs.dom().contains(id) {
        Err(job_missing(id))
    } else if allowed.contains(store.ingest_jobs[id].status) {
        Ok(())
    } else {
        error::refused(
            ErrorCode::InvalidIngestState,
            "source "@ + text::decimal(id as int) + " is "@ + (store.ingest_jobs[id].status
                + "; expected "@ + alternatives(allowed)),
        )
    }
}

fn write_alternatives(list: &Vec<&str>) -> (r: String)
    ensures
        r@ == alternatives(text::views(list@)),
{
    let ghost all = text::views(list@);
    if list.len() == 0 {
        let none = owned("");
        proof {
            reveal_strlit("");
            assert(none@ =~= Seq::<char>::empty());
        }
        return none;
    }
    let mut out = owned(list[0]);
    let mut i: usize = 1;
    assert(all.take(1).len() == 1 && all.take(1)[0] == all[0]);
    while i < list.len()
        invariant
            1 <= i <= list@.len() == all.len(),
            all == text::views(list@),
            out@ == alternatives(all.take(i as int)),
        decreases list@.len() - i,
    {
        assert(all.take(i + 1).drop_last() =~= all.take(i as int));
        assert(all.take(i + 1).last() == list@[i as int]@);
        out = join3(out.as_str(), " or ", list[i]);
        i += 1;
    }
    assert(all.take(i as int) =~= all);
    out
}

fn is_among(wanted: &str, list: &Vec<&str>) -> (r: bool)
    ensures
        r == text::views(list@).contains(wanted@),
{
    let ghost all = text::views(list@);
    let mut i: usize = 0;
    while i < list.len()
        invariant
            i <= list@.len() == all.len(),
            all == text::views(list@),
            forall|k: int| 0 <= k < i ==> #[trigger] all[k] != wanted@,
        decreases list@.len() - i,
    {
        assert(all[i as int] == list@[i as int]@);
        if same_text(list[i], wanted) {
            return true;
        }
        i += 1;
    }
    false
}

fn require_ingest_state(live: &Store, id: i64, allowed: Vec<&str>) -> (r: Result<(), AppError>)
    ensures
        error::outcome(r) == state_required(live@, id, text::views(allowed@)),
{
    let job = match live.ingest_jobs.get(&id) {
        Some(job) => job,
        None => {
            return Err(job_missing_error(id));
        },
    };
    if is_among(job.status.as_str(), &allowed) {
        return Ok(());
    }
    let rest = join3(
        job.status.as_str(),
        "; expected ",
        write_alternatives(&allowed).as_str(),
    );
    Err(
        AppError::new(
            ErrorCode::InvalidIngestState,
            join4("source ", decimal_text(id).as_str(), " is ", rest.as_str()).as_str(),
        ),
    )
}

/// The store with the job of a source, and the operation that changed it.
pub open spec fn job_changed(
    store: StoreView,
    id: i64,
    job: IngestView,
    action: Seq<char>,
    detail: JsonView,
    now: Seq<char>,
    revision: Seq<char>,
) -> Result<StoreView, AppErrorView> {
    store::recorded(
        StoreView { ingest_jobs: store.ingest_jobs.insert(id, job), ..store },
        action,
        text::decimal(id as int),
        detail,
        now,
        revision,
    )
}

/// A note without content.
pub open spec fn no_note() -> JsonView {
    JsonView::Object(Seq::empty())
}

/// A pending job, taken up.
pub open spec fn claimed(store: StoreView, id: i64, now: Seq<char>, revision: Seq<char>) -> Result<
    StoreView,
    AppErrorView,
> {
    if !store.ingest_jobs.dom().contains(id) || store.ingest_jobs[id].status != "pending"@ {
        error::refused(
            ErrorCode::InvalidIngestState,
            "source "@ + text::decimal(id as int) + " is not pending"@,
        )
    } else if store.ingest_jobs[id].attempts >= i64::MAX {
        error::refused(ErrorCode::DatabaseError, "ingest attempts are exhausted"@)
    } else {
        job_changed(
            store,
            id,
            IngestView {
                status: "analyzing"@,
                attempts: (store.ingest_jobs[id].attempts + 1) as i64,
                last_error: None,
                updated_at: now,
                ..store.ingest_jobs[id]
            },
            "ingest_claim"@,
            no_note(),
            now,
            revision,
        )
    }
}

/// The first of a list of sources whose job is pending.
pub open spec fn first_pending(jobs: Map<i64, IngestView>, ids: Seq<i64>) -> Option<i64>
    decreases ids.len(),
{
    if ids.len() == 0 {
        None
    } else if jobs[ids[0]].status == "pending"@ {
        Some(ids[0])
    } else {
        first_pending(jobs, ids.drop_first())
    }
}

/// The source whose job is next.
pub open spec fn next_pending(store: StoreView) -> Option<i64> {
    first_pending(store.ingest_jobs, table::ordered::<i64>(store.ingest_jobs.dom()))
}

/// The next job, taken up, where there is one.
pub open spec fn next_claimed(store: StoreView, now: Seq<char>, revision: Seq<char>) -> Result<
    StoreView,
    AppErrorView,
> {
    match next_pending(store) {
        None => Ok(store),
        Some(id) => claimed(store, id, now, revision),
    }
}

/// The job of a source, taken up where it is pending.
pub open spec fn claim_goal(store: StoreView, id: i64, now: Seq<char>, revision: Seq<char>) -> Result<
    StoreView,
    AppErrorView,
> {
    match state_required(store, id, seq!["pending"@]) {
        Err(e) => Err(e),
        Ok(_) => claimed(store, id, now, revision),
    }
}

/// What an analysis comes to.
pub open spec fn analyze_goal(
    store: StoreView,
    id: i64,
    analysis: Seq<char>,
    now: Seq<char>,
    revision: Seq<char>,
) -> Result<StoreView, AppErrorView> {
    match state_required(store, id, seq!["analyzing"@]) {
        Err(e) => Err(e),
        Ok(_) => job_changed(
            store,
            id,
            IngestView {
                status: "generating"@,
                analysis: Some(analysis),
                last_error: None,
                updated_at: now,
                ..store.ingest_jobs[id]
            },
            "ingest_analyze"@,
            no_note(),
            now,
            revision,
        ),
    }
}

/// What a failure comes to.
pub open spec fn fail_goal(
    store: StoreView,
    id: i64,
    message: Seq<char>,
    now: Seq<char>,
    revision: Seq<char>,
) -> Result<StoreView, AppErrorView> {
    match state_required(store, id, seq!["analyzing"@, "generating"@]) {
        Err(e) => Err(e),
        Ok(_) => job_changed(
            store,
            id,
            IngestView {
                status: "failed"@,
                last_error: Some(message),
                updated_at: now,
                ..store.ingest_jobs[id]
            },
            "ingest_fail"@,
            JsonView::Object(seq![json::entry("message"@, JsonView::Text(message))]),
            now,
            revision,
        ),
    }
}

/// What trying again comes to.
pub open spec fn retry_goal(store: StoreView, id: i64, now: Seq<char>, revision: Seq<char>) -> Result<
    StoreView,
    AppErrorView,
> {
    match state_required(store, id, seq!["analyzing"@, "generating"@, "failed"@]) {
        Err(e) => Err(e),
        Ok(_) => job_changed(
            store,
            id,
            IngestView {
                status: "pending"@,
                last_error: None,
                updated_at: now,
                ..store.ingest_jobs[id]
            },
            "ingest_retry"@,
            no_note(),
            now,
            revision,
        ),
    }
}

/// A page is of the kind that sums up a source.
pub open spec fn sums_up(kind: Option<Seq<char>>) -> bool {
    match kind {
        Some(kind) => markdown::ascii_lowered(kind) == "source"@,
        None => false,
    }
}

/// How many of the first `count` pages sum up a source.
pub open spec fn summing_up(store: StoreView, slugs: Seq<Seq<char>>, count: nat) -> nat
    decreases count,
{
    if count == 0 || count > slugs.len() {
        0
    } else {
        summing_up(store, slugs, (count - 1) as nat) + (if sums_up(
            store.pages[slugs[count - 1]].kind,
        ) {
            1nat
        } else {
            0nat
        })
    }
}

/// How many pages cite a source and sum it up.
pub open spec fn summary_count(store: StoreView, id: i64) -> nat {
    let slugs = text::sorted(sources::citing(store, id));
    summing_up(store, slugs, slugs.len())
}

/// How many pages cite a source and do not sum it up.
pub open spec fn derived_count(store: StoreView, id: i64) -> nat {
    let slugs = text::sorted(sources::citing(store, id));
    (slugs.len() - summing_up(store, slugs, slugs.len())) as nat
}

/// A reason that says something, without the white space around it.
pub open spec fn stated_reason(reason: Option<Seq<char>>) -> Option<Seq<char>> {
    match reason {
        Some(reason) => if text::trimmed(reason).len() == 0 {
            None
        } else {
            Some(text::trimmed(reason))
        },
        None => None,
    }
}

/// What stands in the way of completing a job.
pub open spec fn completion_refusal(store: StoreView, id: i64, reason: Option<Seq<char>>) -> Option<
    AppErrorView,
> {
    if summary_count(store, id) == 0 {
        Some(
            error::app_error(
                ErrorCode::SourceSummaryMissing,
                "source "@ + text::decimal(id as int)
                    + " needs at least one cited page with kind `source` before completion"@,
            ),
        )
    } else if derived_count(store, id) == 0 && stated_reason(reason) is None {
        Some(
            error::app_error(
                ErrorCode::IngestIntegrationRequired,
                "source "@ + text::decimal(id as int)
                    + " needs at least one cited non-source page; if no shared knowledge changes, retry with --no-derived-pages-reason"@,
            ),
        )
    } else if derived_count(store, id) > 0 && stated_reason(reason) is Some {
        Some(
            error::app_error(
                ErrorCode::InvalidInput,
                "--no-derived-pages-reason is only valid when no non-source page cites this source"@,
            ),
        )
    } else {
        None
    }
}

/// What the log says of a completed job.
pub open spec fn completion_note(store: StoreView, id: i64, reason: Option<Seq<char>>) -> JsonView {
    JsonView::Object(
        seq![
            json::entry("derived_pages"@, json::count_view(derived_count(store, id))),
            json::entry(
                "no_derived_pages_reason"@,
                spans::optional_text_json(stated_reason(reason)),
            ),
            json::entry("source_summary_pages"@, json::count_view(summary_count(store, id))),
        ],
    )
}

/// What completing a job comes to.
pub open spec fn complete_goal(
    store: StoreView,
    id: i64,
    reason: Option<Seq<char>>,
    now: Seq<char>,
    revision: Seq<char>,
) -> Result<StoreView, AppErrorView> {
    match state_required(store, id, seq!["generating"@]) {
        Err(e) => Err(e),
        Ok(_) => match completion_refusal(store, id, reason) {
            Some(e) => Err(e),
            None => job_changed(
                store,
                id,
                IngestView {
                    status: "completed"@,
                    last_error: None,
                    no_derived_pages_reason: stated_reason(reason),
                    updated_at: now,
                    ..store.ingest_jobs[id]
                },
                "ingest_complete"@,
                completion_note(store, id, reason),
                now,
                revision,
            ),
        },
    }
}

/// A change of a job is told as it was made, or refused without a trace.
pub open spec fn told(
    before: StoreView,
    after: StoreView,
    id: i64,
    r: Result<IngestMutationResponse, AppError>,
    goal: Result<StoreView, AppErrorView>,
) -> bool {
    match goal {
        Ok(next) => after == next && error::outcome(r) == mutation(next, id, None),
        Err(e) => (r matches Err(got) && got@ == e) && after == before,
    }
}

fn state_reason(reason: Option<&str>) -> (r: Option<String>)
    ensures
        text::opt_text(r) == stated_reason(opt_str(reason)),
{
    match reason {
        Some(reason) => {
            let kept = trim(reason);
            if text::chars_of(kept.as_str()).len() == 0 {
                None
            } else {
                Some(kept)
            }
        },
        None => None,
    }
}

fn sums_up_kind(kind: &Option<String>) -> (r: bool)
    ensures
        r == sums_up(text::opt_text(*kind)),
{
    match kind {
        Some(kind) => same_text(ascii_lower_text(kind.as_str()).as_str(), "source"),
        None => false,
    }
}

impl Store {
    /// Changes the job of a source.
    fn change_job(
        &mut self,
        id: i64,
        job: IngestRow,
        action: &str,
        detail: Json,
        now: &str,
        revision: &str,
    ) -> (r: Result<(), AppError>)
        ensures
            store::settled(
                old(self)@,
                final(self)@,
                r,
                job_changed(old(self)@, id, job@, action@, detail@, now@, revision@),
            ),
    {
        let mut next = self.duplicate();
        next.ingest_jobs.put(id, job);
        match next.record_operation(action, decimal_text(id).as_str(), detail, now, revision) {
            Ok(_) => {
                *self = next;
                Ok(())
            },
            Err(e) => Err(e),
        }
    }

    fn claim_ingest_job(&mut self, id: i64, now: &str, revision: &str) -> (r: Result<(), AppError>)
        ensures
            store::settled(
                old(self)@,
                final(self)@,
                r,
                claimed(old(self)@, id, now@, revision@),
            ),
    {
        let refused = AppError::new(
            ErrorCode::InvalidIngestState,
            join3("source ", decimal_text(id).as_str(), " is not pending").as_str(),
        );
        let job = match self.ingest_jobs.get(&id) {
            Some(job) => job.duplicate(),
            None => {
                return Err(refused);
            },
        };
        if !same_text(job.status.as_str(), "pending") {
            return Err(refused);
        }
        if job.attempts >= i64::MAX {
            return Err(AppError::new(ErrorCode::DatabaseError, "ingest attempts are exhausted"));
        }
        let mut job = job;
        job.status = owned("analyzing");
        job.attempts = job.attempts + 1;
        job.last_error = None;
        job.updated_at = owned(now);
        self.change_job(id, job, "ingest_claim", Json::empty_object(), now, revision)
    }

    fn find_pending(&self) -> (r: Option<i64>)
        ensures
            r == next_pending(self@),
    {
        let n = self.ingest_jobs.len();
        let ghost keys = self.ingest_jobs.keys();
        proof {
            table::lemma_ordered_is::<i64>(keys, self@.ingest_jobs.dom());
            assert(keys.skip(0) =~= keys);
        }
        let mut i: usize = 0;
        while i < n
            invariant
                i <= n == keys.len(),
                keys == self.ingest_jobs.keys(),
                first_pending(self@.ingest_jobs, keys) == first_pending(
                    self@.ingest_jobs,
                    keys.skip(i as int),
                ),
            decreases n - i,
        {
            assert(keys.skip(i as int)[0] == keys[i as int]);
            assert(keys.skip(i as int).drop_first() =~= keys.skip(i + 1));
            if same_text(self.ingest_jobs.value_at(i).status.as_str(), "pending") {
                return Some(*self.ingest_jobs.key_at(i));
            }
            i += 1;
        }
        None
    }

    /// Takes the next pending job up, and gives what is needed to work on it.
    pub fn ingest_next(
        &mut self,
        context_limit: usize,
        source_max_chars: Option<usize>,
        now: &str,
        revision: &str,
    ) -> (r: Result<IngestPacket, AppError>)
        ensures
            match next_claimed(old(self)@, now@, revision@) {
                Ok(next) => final(self)@ == next && error::outcome(r) == packet(
                    next,
                    next_pending(old(self)@),
                    context_limit,
                    source_max_chars,
                ),
                Err(e) => (r matches Err(got) && got@ == e) && final(self)@ == old(self)@,
            },
    {
        let id = self.find_pending();
        if let Some(id) = id {
            if let Err(e) = self.claim_ingest_job(id, now, revision) {
                return Err(e);
            }
        }
        self.ingest_packet(id, context_limit, source_max_chars)
    }

    /// Takes the pending job of a source up, and gives what is needed to work on it.
    pub fn ingest_claim(
        &mut self,
        source_id: i64,
        context_limit: usize,
        source_max_chars: Option<usize>,
        now: &str,
        revision: &str,
    ) -> (r: Result<IngestPacket, AppError>)
        ensures
            match claim_goal(old(self)@, source_id, now@, revision@) {
                Ok(next) => final(self)@ == next && error::outcome(r) == packet(
                    next,
                    Some(source_id),
                    context_limit,
                    source_max_chars,
                ),
                Err(e) => (r matches Err(got) && got@ == e) && final(self)@ == old(self)@,
            },
    {
        let allowed: Vec<&str> = vec!["pending"];
        assert(text::views(allowed@) =~= seq!["pending"@]);
        if let Err(e) = require_ingest_state(self, source_id, allowed) {
            return Err(e);
        }
        if let Err(e) = self.claim_ingest_job(source_id, now, revision) {
            return Err(e);
        }
        self.ingest_packet(Some(source_id), context_limit, source_max_chars)
    }

    /// Keeps the analysis of a source.
    pub fn ingest_analyze(&mut self, source_id: i64, analysis: &str, now: &str, revision: &str) -> (r:
        Result<IngestMutationResponse, AppError>)
        ensures
            told(
                old(self)@,
                final(self)@,
                source_id,
                r,
                analyze_goal(old(self)@, source_id, analysis@, now@, revision@),
            ),
    {
        let allowed: Vec<&str> = vec!["analyzing"];
        assert(text::views(allowed@) =~= seq!["analyzing"@]);
        if let Err(e) = require_ingest_state(self, source_id, allowed) {
            return Err(e);
        }
        let mut job = match self.ingest_jobs.get(&source_id) {
            Some(job) => job.duplicate(),
            None => {
                return Err(job_missing_error(source_id));
            },
        };
        job.status = owned("generating");
        job.analysis = Some(owned(analysis));
        job.last_error = None;
        job.updated_at = owned(now);
        if let Err(e) = self.change_job(
            source_id,
            job,
            "ingest_analyze",
            Json::empty_object(),
            now,
            revision,
        ) {
            return Err(e);
        }
        self.ingest_mutation_response(source_id, None)
    }

    /// Marks the job of a source as failed.
    pub fn ingest_fail(&mut self, source_id: i64, message: &str, now: &str, revision: &str) -> (r:
        Result<IngestMutationResponse, AppError>)
        ensures
            told(
                old(self)@,
                final(self)@,
                source_id,
                r,
                fail_goal(old(self)@, source_id, message@, now@, revision@),
            ),
    {
        let allowed: Vec<&str> = vec!["analyzing", "generating"];
        assert(text::views(allowed@) =~= seq!["analyzing"@, "generating"@]);
        if let Err(e) = require_ingest_state(self, source_id, allowed) {
            return Err(e);
        }
        let mut job = match self.ingest_jobs.get(&source_id) {
            Some(job) => job.duplicate(),
            None => {
                return Err(job_missing_error(source_id));
            },
        };
        job.status = owned("failed");
        job.last_error = Some(owned(message));
        job.updated_at = owned(now);
        if let Err(e) = self.change_job(
            source_id,
            job,
            "ingest_fail",
            Json::object1("message", Json::text(message)),
            now,
            revision,
        ) {
            return Err(e);
        }
        self.ingest_mutation_response(source_id, None)
    }

    /// Makes the job of a source pending again.
    pub fn ingest_retry(&mut self, source_id: i64, now: &str, revision: &str) -> (r: Result<
        IngestMutationResponse,
        AppError,
    >)
        ensures
            told(
                old(self)@,
                final(self)@,
                source_id,
                r,
                retry_goal(old(self)@, source_id, now@, revision@),
            ),
    {
        let allowed: Vec<&str> = vec!["analyzing", "generating", "failed"];
        assert(text::views(allowed@) =~= seq!["analyzing"@, "generating"@, "failed"@]);
        if let Err(e) = require_ingest_state(self, source_id, allowed) {
            return Err(e);
        }
        let mut job = match self.ingest_jobs.get(&source_id) {
            Some(job) => job.duplicate(),
            None => {
                return Err(job_missing_error(source_id));
            },
        };
        job.status = owned("pending");
        job.last_error = None;
        job.updated_at = owned(now);
        if let Err(e) = self.change_job(
            source_id,
            job,
            "ingest_retry",
            Json::empty_object(),
            now,
            revision,
        ) {
            return Err(e);
        }
        self.ingest_mutation_response(source_id, None)
    }

    /// How many pages that cite a source sum it up, and how many do not.
    fn count_citing(&self, id: i64) -> (r: (usize, usize))
        ensures
            r.0 == summary_count(self@, id),
            r.1 == derived_count(self@, id),
    {
        let slugs = self.citing_pages(id);
        let ghost all = text::views(slugs@);
        proof {
            assert forall|k: int| 0 <= k < all.len() implies self@.pages.dom().contains(
                #[trigger] all[k],
            ) by {
                assert(all.to_set().contains(all[k]));
            }
        }
        let mut found: usize = 0;
        let mut i: usize = 0;
        while i < slugs.len()
            invariant
                i <= slugs@.len() == all.len(),
                all == text::views(slugs@),
                found <= i,
                found == summing_up(self@, all, i as nat),
                forall|k: int|
                    0 <= k < all.len() ==> self@.pages.dom().contains(#[trigger] all[k]),
            decreases slugs@.len() - i,
        {
            assert(all[i as int] == slugs@[i as int]@);
            if let Some(page) = self.pages.get(&slugs[i]) {
                if sums_up_kind(&page.kind) {
                    found += 1;
                }
            }
            i += 1;
        }
        (found, slugs.len() - found)
    }

    /// Completes the job of a source.
    pub fn ingest_complete(
        &mut self,
        source_id: i64,
        no_derived_pages_reason: Option<&str>,
        now: &str,
        revision: &str,
    ) -> (r: Result<IngestMutationResponse, AppError>)
        ensures
            match complete_goal(
                old(self)@,
                source_id,
                opt_str(no_derived_pages_reason),
                now@,
                revision@,
            ) {
                Ok(next) => final(self)@ == next && error::outcome(r) == mutation(
                    next,
                    source_id,
                    Some(
                        IntegrationView {
                            source_summary_pages: summary_count(old(self)@, source_id) as usize,
                            derived_pages: derived_count(old(self)@, source_id) as usize,
                            no_derived_pages_reason: stated_reason(
                                opt_str(no_derived_pages_reason),
                            ),
                        },
                    ),
                ),
                Err(e) => (r matches Err(got) && got@ == e) && final(self)@ == old(self)@,
            },
    {
        let allowed: Vec<&str> = vec!["generating"];
        assert(text::views(allowed@) =~= seq!["generating"@]);
        if let Err(e) = require_ingest_state(self, source_id, allowed) {
            return Err(e);
        }
        let (summaries, derived) = self.count_citing(source_id);
        let reason = state_reason(no_derived_pages_reason);
        let label = decimal_text(source_id);
        if summaries == 0 {
            return Err(
                AppError::new(
                    ErrorCode::SourceSummaryMissing,
                    join3(
                        "source ",
                        label.as_str(),
                        " needs at least one cited page with kind `source` before completion",
                    ).as_str(),
                ),
            );
        }
        if derived == 0 && reason.is_none() {
            return Err(
                AppError::new(
                    ErrorCode::IngestIntegrationRequired,
                    join3(
                        "source ",
                        label.as_str(),
                        " needs at least one cited non-source page; if no shared knowledge changes, retry with --no-derived-pages-reason",
                    ).as_str(),
                ),
            );
        }
        if derived > 0 && reason.is_some() {
            return Err(
                AppError::new(
                    ErrorCode::InvalidInput,
                    "--no-derived-pages-reason is only valid when no non-source page cites this source",
                ),
            );
        }
        let mut job = match self.ingest_jobs.get(&source_id) {
            Some(job) => job.duplicate(),
            None => {
                return Err(job_missing_error(source_id));
            },
        };
        job.status = owned("completed");
        job.last_error = None;
        job.no_derived_pages_reason = copy_opt(&reason);
        job.updated_at = owned(now);
        let ghost note = completion_note(self@, source_id, opt_str(no_derived_pages_reason));
        let mut entries: Vec<(String, Json)> = Vec::new();
        entries.push((owned("derived_pages"), Json::count(derived)));
        entries.push((owned("no_derived_pages_reason"), encode_optional(&reason)));
        entries.push((owned("source_summary_pages"), Json::count(summaries)));
        assert(json::entry_views(entries@) =~= note->Object_0);
        let detail = Json::object(entries);
        if let Err(e) = self.change_job(source_id, job, "ingest_complete", detail, now, revision) {
            return Err(e);
        }
        self.ingest_mutation_response(
            source_id,
            Some(
                IngestIntegration {
                    source_summary_pages: summaries,
                    derived_pages: derived,
                    no_derived_pages_reason: reason,
                },
            ),
        )
    }
}

// ---------------------------------------------------------------------------
// Laws
// ---------------------------------------------------------------------------

/// The life of a job: it is taken up only from pending, and is then analysed; its
/// analysis is kept only then, and its pages are generated; it is completed only from
/// there, with a page that sums its source up and with either another page that cites it
/// or a reason for none. It fails only while it is worked on, and is tried again only
/// from there or after it failed.
pub proof fn law_job_steps(
    store: StoreView,
    id: i64,
    analysis: Seq<char>,
    message: Seq<char>,
    reason: Option<Seq<char>>,
    now: Seq<char>,
    revision: Seq<char>,
)
    ensures
        claim_goal(store, id, now, revision) matches Ok(next) ==> store.ingest_jobs[id].status
            == "pending"@ && next.ingest_jobs[id].status == "analyzing"@
            && next.ingest_jobs[id].attempts == store.ingest_jobs[id].attempts + 1,
        analyze_goal(store, id, analysis, now, revision) matches Ok(next) ==> {
            &&& store.ingest_jobs[id].status == "analyzing"@
            &&& next.ingest_jobs[id].status == "generating"@
            &&& next.ingest_jobs[id].analysis == Some(analysis)
        },
        complete_goal(store, id, reason, now, revision) matches Ok(next) ==> {
            &&& store.ingest_jobs[id].status == "generating"@
            &&& next.ingest_jobs[id].status == "completed"@
            &&& summary_count(store, id) > 0
            &&& (derived_count(store, id) > 0) != (next.ingest_jobs[id].no_derived_pages_reason
                is Some)
        },
        fail_goal(store, id, message, now, revision) matches Ok(next) ==> {
            &&& store.ingest_jobs[id].status == "analyzing"@ || store.ingest_jobs[id].status
                == "generating"@
            &&& next.ingest_jobs[id].status == "failed"@
            &&& next.ingest_jobs[id].last_error == Some(message)
        },
        retry_goal(store, id, now, revision) matches Ok(next) ==> {
            &&& store.ingest_jobs[id].status == "analyzing"@ || store.ingest_jobs[id].status
                == "generating"@ || store.ingest_jobs[id].status == "failed"@
            &&& next.ingest_jobs[id].status == "pending"@
        },
{
}

/// A step of one job leaves the sources, the pages and the other jobs as they are.
pub proof fn law_job_steps_are_local(
    store: StoreView,
    id: i64,
    job: IngestView,
    action: Seq<char>,
    detail: JsonView,
    now: Seq<char>,
    revision: Seq<char>,
)
    ensures
        job_changed(store, id, job, action, detail, now, revision) matches Ok(next) ==> {
            &&& next.sources == store.sources
            &&& next.pages == store.pages
            &&& next.tags == store.tags
            &&& next.paths == store.paths
            &&& next.ingest_jobs.remove(id) == store.ingest_jobs.remove(id)
        },
{
    if let Ok(next) = job_changed(store, id, job, action, detail, now, revision) {
        assert(next.ingest_jobs.remove(id) =~= store.ingest_jobs.remove(id));
    }
}

} // verus!
