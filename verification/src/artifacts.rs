//! What of a store is written out as files: all of it, or what changed since a point of
//! its log.
use crate::changesets::operations_since;
use crate::error;
use crate::error::{AppError, AppErrorView, ErrorCode};
use crate::json::{Json, JsonView};
use crate::pages;
use crate::pages::{provenance_from_parts, PageSummary, PageSummaryView};
use crate::paging;
use crate::paging::copy_page;
use crate::rows::{OperationRow, OperationView};
use crate::store;
use crate::store::{Store, StoreView};
use crate::table;
use crate::table::{copy_records, same_records, Record, Table};
use crate::text;
use crate::text::{
    copy_opt, copy_texts, decimal_text, join3, owned, parse_i64, same_opt, same_text, same_texts,
    sorted_texts,
};
use vstd::prelude::*;

verus! {

// ---------------------------------------------------------------------------
// Pages and sources as files
// ---------------------------------------------------------------------------

/// A source to write out.
pub struct ArtifactSource {
    pub id: String,
    pub title: Option<String>,
    pub origin: String,
    pub content: String,
}

#[verifier::ext_equal]
pub struct ArtifactSourceView {
    pub id: Seq<char>,
    pub title: Option<Seq<char>>,
    pub origin: Seq<char>,
    pub content: Seq<char>,
}

impl View for ArtifactSource {
    type V = ArtifactSourceView;

    open spec fn view(&self) -> ArtifactSourceView {
        ArtifactSourceView {
            id: self.id@,
            title: text::opt_text(self.title),
            origin: self.origin@,
            content: self.content@,
        }
    }
}

impl Record for ArtifactSource {
    fn duplicate(&self) -> (r: Self) {
        ArtifactSource {
            id: owned(self.id.as_str()),
            title: copy_opt(&self.title),
            origin: owned(self.origin.as_str()),
            content: owned(self.content.as_str()),
        }
    }

    fn same(&self, other: &Self) -> (r: bool) {
        same_text(self.id.as_str(), other.id.as_str())
            && same_opt(&self.title, &other.title)
            && same_text(self.origin.as_str(), other.origin.as_str())
            && same_text(self.content.as_str(), other.content.as_str())
    }
}

/// A source that a page cites, by what its file is named after.
pub struct Citation {
    pub id: i64,
    pub origin: String,
}

#[verifier::ext_equal]
pub struct CitationView {
    pub id: i64,
    pub origin: Seq<char>,
}

impl View for Citation {
    type V = CitationView;

    open spec fn view(&self) -> CitationView {
        CitationView {
            id: self.id,
            origin: self.origin@,
        }
    }
}

impl Record for Citation {
    fn duplicate(&self) -> (r: Self) {
        Citation {
            id: self.id,
            origin: owned(self.origin.as_str()),
        }
    }

    fn same(&self, other: &Self) -> (r: bool) {
        self.id == other.id
            && same_text(self.origin.as_str(), other.origin.as_str())
    }
}

/// A page to write out.
pub struct ArtifactPage {
    pub slug: String,
    pub title: String,
    pub kind: Option<String>,
    pub summary: Option<String>,
    pub body: String,
    pub citations: Vec<Citation>,
    pub provenance: Vec<String>,
    pub created: String,
    pub updated: String,
}

#[verifier::ext_equal]
pub struct ArtifactPageView {
    pub slug: Seq<char>,
    pub title: Seq<char>,
    pub kind: Option<Seq<char>>,
    pub summary: Option<Seq<char>>,
    pub body: Seq<char>,
    pub citations: Seq<CitationView>,
    pub provenance: Seq<Seq<char>>,
    pub created: Seq<char>,
    pub updated: Seq<char>,
}

impl View for ArtifactPage {
    type V = ArtifactPageView;

    open spec fn view(&self) -> ArtifactPageView {
        ArtifactPageView {
            slug: self.slug@,
            title: self.title@,
            kind: text::opt_text(self.kind),
            summary: text::opt_text(self.summary),
            body: self.body@,
            citations: text::views(self.citations@),
            provenance: text::views(self.provenance@),
            created: self.created@,
            updated: self.updated@,
        }
    }
}

impl Record for ArtifactPage {
    fn duplicate(&self) -> (r: Self) {
        ArtifactPage {
            slug: owned(self.slug.as_str()),
            title: owned(self.title.as_str()),
            kind: copy_opt(&self.kind),
            summary: copy_opt(&self.summary),
            body: owned(self.body.as_str()),
            citations: copy_records(&self.citations),
            provenance: copy_texts(&self.provenance),
            created: owned(self.created.as_str()),
            updated: owned(self.updated.as_str()),
        }
    }

    fn same(&self, other: &Self) -> (r: bool) {
        same_text(self.slug.as_str(), other.slug.as_str())
            && same_text(self.title.as_str(), other.title.as_str())
            && same_opt(&self.kind, &other.kind)
            && same_opt(&self.summary, &other.summary)
            && same_text(self.body.as_str(), other.body.as_str())
            && same_records(&self.citations, &other.citations)
            && same_texts(&self.provenance, &other.provenance)
            && same_text(self.created.as_str(), other.created.as_str())
            && same_text(self.updated.as_str(), other.updated.as_str())
    }
}

/// What to do to the files of a store.
pub enum ArtifactStep {
    Page(ArtifactPage),
    RemovePage(String),
    Source(ArtifactSource),
    RemoveSource(String),
    Text { path: String, content: String },
}

#[verifier::ext_equal]
pub enum ArtifactStepView {
    Page(ArtifactPageView),
    RemovePage(Seq<char>),
    Source(ArtifactSourceView),
    RemoveSource(Seq<char>),
    Text { path: Seq<char>, content: Seq<char> },
}

impl View for ArtifactStep {
    type V = ArtifactStepView;

    open spec fn view(&self) -> ArtifactStepView {
        match self {
            ArtifactStep::Page(page) => ArtifactStepView::Page(page@),
            ArtifactStep::RemovePage(slug) => ArtifactStepView::RemovePage(slug@),
            ArtifactStep::Source(source) => ArtifactStepView::Source(source@),
            ArtifactStep::RemoveSource(id) => ArtifactStepView::RemoveSource(id@),
            ArtifactStep::Text { path, content } => ArtifactStepView::Text {
                path: path@,
                content: content@,
            },
        }
    }
}

/// The schema and the purpose of a store that has none.
pub struct Defaults {
    pub schema: String,
    pub purpose: String,
}

#[verifier::ext_equal]
pub struct DefaultsView {
    pub schema: Seq<char>,
    pub purpose: Seq<char>,
}

impl View for Defaults {
    type V = DefaultsView;

    open spec fn view(&self) -> DefaultsView {
        DefaultsView {
            schema: self.schema@,
            purpose: self.purpose@,
        }
    }
}

/// The cited ones among the first `count` sources that are there.
pub open spec fn citations_among(store: StoreView, ids: Seq<i64>, count: nat) -> Seq<CitationView>
    decreases count,
{
    if count == 0 || count > ids.len() {
        Seq::empty()
    } else {
        let head = citations_among(store, ids, (count - 1) as nat);
        let id = ids[count - 1];
        if store.sources.dom().contains(id) {
            head.push(CitationView { id, origin: store.sources[id].origin })
        } else {
            head
        }
    }
}

/// A page to write out.
pub open spec fn artifact_page(store: StoreView, slug: Seq<char>) -> Option<ArtifactPageView> {
    if store.pages.dom().contains(slug) {
        let page = store.pages[slug];
        Some(
            ArtifactPageView {
                slug,
                title: page.title,
                kind: page.kind,
                summary: page.summary,
                body: page.body,
                citations: citations_among(store, page.source_ids, page.source_ids.len()),
                provenance: pages::shown_provenance(page.source_ids.len() > 0, page.provenance),
                created: page.created_at,
                updated: page.updated_at,
            },
        )
    } else {
        None
    }
}

/// A source to write out, with or without its content.
pub open spec fn artifact_source(store: StoreView, id: i64, whole: bool) -> Option<
    ArtifactSourceView,
> {
    if store.sources.dom().contains(id) {
        let source = store.sources[id];
        Some(
            ArtifactSourceView {
                id: text::decimal(id as int),
                title: source.title,
                origin: source.origin,
                content: if whole {
                    source.content
                } else {
                    ""@
                },
            },
        )
    } else {
        None
    }
}

pub open spec fn or_default(value: Option<Seq<char>>, fallback: Seq<char>) -> Seq<char> {
    match value {
        Some(value) => value,
        None => fallback,
    }
}

impl Store {
    fn list_citations(&self, ids: &Vec<i64>) -> (r: Vec<Citation>)
        ensures
            text::views(r@) == citations_among(self@, ids@, ids@.len()),
    {
        let mut out: Vec<Citation> = Vec::new();
        assert(text::views(out@) =~= Seq::empty());
        let mut i: usize = 0;
        while i < ids.len()
            invariant
                i <= ids@.len(),
                text::views(out@) == citations_among(self@, ids@, i as nat),
            decreases ids@.len() - i,
        {
            if let Some(source) = self.sources.get(&ids[i]) {
                let one = Citation { id: ids[i], origin: owned(source.origin.as_str()) };
                proof {
                    text::lemma_views_push(out@, one);
                }
                out.push(one);
            }
            i += 1;
        }
        out
    }

    /// A page to write out.
    pub fn load_artifact_page(&self, slug: &str) -> (r: Option<ArtifactPage>)
        ensures
            text::opt_view(r) == artifact_page(self@, slug@),
    {
        let page = match self.pages.get(&owned(slug)) {
            Some(page) => page,
            None => {
                return None;
            },
        };
        Some(
            ArtifactPage {
                slug: owned(slug),
                title: owned(page.title.as_str()),
                kind: copy_opt(&page.kind),
                summary: copy_opt(&page.summary),
                body: owned(page.body.as_str()),
                citations: self.list_citations(&page.source_ids),
                provenance: provenance_from_parts(page.source_ids.len() > 0, &page.provenance),
                created: owned(page.created_at.as_str()),
                updated: owned(page.updated_at.as_str()),
            },
        )
    }

    /// A source to write out, with or without its content.
    pub fn load_artifact_source(&self, id: i64, whole: bool) -> (r: Option<ArtifactSource>)
        ensures
            text::opt_view(r) == artifact_source(self@, id, whole),
    {
        match self.sources.get(&id) {
            Some(source) => Some(
                ArtifactSource {
                    id: decimal_text(id),
                    title: copy_opt(&source.title),
                    origin: owned(source.origin.as_str()),
                    content: if whole {
                        owned(source.content.as_str())
                    } else {
                        owned("")
                    },
                },
            ),
            None => None,
        }
    }

    fn meta_or(&self, key: &str, fallback: &str) -> (r: String)
        ensures
            r@ == or_default(store::meta_value(self@, key@), fallback@),
    {
        match self.meta_text(key) {
            Some(value) => value,
            None => owned(fallback),
        }
    }
}

// ---------------------------------------------------------------------------
// The whole store
// ---------------------------------------------------------------------------

/// A store to write out.
pub struct ArtifactSnapshot {
    pub schema: String,
    pub purpose: String,
    pub sources: Vec<ArtifactSource>,
    pub pages: Vec<ArtifactPage>,
    pub operations: Vec<OperationRow>,
}

#[verifier::ext_equal]
pub struct ArtifactSnapshotView {
    pub schema: Seq<char>,
    pub purpose: Seq<char>,
    pub sources: Seq<ArtifactSourceView>,
    pub pages: Seq<ArtifactPageView>,
    pub operations: Seq<OperationView>,
}

impl View for ArtifactSnapshot {
    type V = ArtifactSnapshotView;

    open spec fn view(&self) -> ArtifactSnapshotView {
        ArtifactSnapshotView {
            schema: self.schema@,
            purpose: self.purpose@,
            sources: text::views(self.sources@),
            pages: text::views(self.pages@),
            operations: text::views(self.operations@),
        }
    }
}

/// A store to write out, and the point of its log that is reached then.
pub struct MaterializePlan {
    pub scope: String,
    pub database: String,
    pub snapshot: ArtifactSnapshot,
    pub include_raw_sources: bool,
    pub cursor: i64,
}

#[verifier::ext_equal]
pub struct MaterializePlanView {
    pub scope: Seq<char>,
    pub database: Seq<char>,
    pub snapshot: ArtifactSnapshotView,
    pub include_raw_sources: bool,
    pub cursor: i64,
}

impl View for MaterializePlan {
    type V = MaterializePlanView;

    open spec fn view(&self) -> MaterializePlanView {
        MaterializePlanView {
            scope: self.scope@,
            database: self.database@,
            snapshot: self.snapshot@,
            include_raw_sources: self.include_raw_sources,
            cursor: self.cursor,
        }
    }
}

/// A store to write out, with or without the content of its sources.
pub open spec fn artifact_snapshot(store: StoreView, whole: bool, defaults: DefaultsView) ->
    ArtifactSnapshotView {
    ArtifactSnapshotView {
        schema: or_default(store::meta_value(store, "schema"@), defaults.schema),
        purpose: or_default(store::meta_value(store, "purpose"@), defaults.purpose),
        sources: table::ordered::<i64>(store.sources.dom()).map_values(
            |id: i64| artifact_source(store, id, whole)->0,
        ),
        pages: table::ordered::<String>(store.pages.dom()).map_values(
            |slug: Seq<char>| artifact_page(store, slug)->0,
        ),
        operations: store.operations,
    }
}

pub open spec fn materialized(store: StoreView, whole: bool, defaults: DefaultsView) ->
    MaterializePlanView {
    MaterializePlanView {
        scope: store.scope,
        database: store.database,
        snapshot: artifact_snapshot(store, whole, defaults),
        include_raw_sources: whole,
        cursor: store::last_operation_id(store),
    }
}

impl Store {
    fn list_artifact_sources(&self, whole: bool) -> (r: Vec<ArtifactSource>)
        ensures
            text::views(r@) == table::ordered::<i64>(self@.sources.dom()).map_values(
                |id: i64| artifact_source(self@, id, whole)->0,
            ),
    {
        let n = self.sources.len();
        let ghost keys = self.sources.keys();
        let ghost goal = table::ordered::<i64>(self@.sources.dom()).map_values(
            |id: i64| artifact_source(self@, id, whole)->0,
        );
        proof {
            table::lemma_ordered_is::<i64>(keys, self@.sources.dom());
        }
        let mut out: Vec<ArtifactSource> = Vec::new();
        let mut i: usize = 0;
        while i < n
            invariant
                i <= n == keys.len() == goal.len(),
                keys == self.sources.keys(),
                text::views(out@) =~= goal.take(i as int),
            decreases n - i,
        {
            let id = *self.sources.key_at(i);
            if let Some(one) = self.load_artifact_source(id, whole) {
                proof {
                    assert(one@ == goal[i as int]);
                    text::lemma_views_push(out@, one);
                    assert(goal.take(i + 1) =~= goal.take(i as int).push(goal[i as int]));
                }
                out.push(one);
            }
            i += 1;
        }
        assert(goal.take(n as int) =~= goal);
        out
    }

    fn list_artifact_pages(&self) -> (r: Vec<ArtifactPage>)
        ensures
            text::views(r@) == table::ordered::<String>(self@.pages.dom()).map_values(
                |slug: Seq<char>| artifact_page(self@, slug)->0,
            ),
    {
        let n = self.pages.len();
        let ghost keys = self.pages.keys();
        let ghost goal = table::ordered::<String>(self@.pages.dom()).map_values(
            |slug: Seq<char>| artifact_page(self@, slug)->0,
        );
        proof {
            table::lemma_ordered_is::<String>(keys, self@.pages.dom());
        }
        let mut out: Vec<ArtifactPage> = Vec::new();
        let mut i: usize = 0;
        while i < n
            invariant
                i <= n == keys.len() == goal.len(),
                keys == self.pages.keys(),
                text::views(out@) =~= goal.take(i as int),
            decreases n - i,
        {
            let slug = self.pages.key_at(i);
            if let Some(one) = self.load_artifact_page(slug.as_str()) {
                proof {
                    assert(one@ == goal[i as int]);
                    text::lemma_views_push(out@, one);
                    assert(goal.take(i + 1) =~= goal.take(i as int).push(goal[i as int]));
                }
                out.push(one);
            }
            i += 1;
        }
        assert(goal.take(n as int) =~= goal);
        out
    }

    /// The store to write out, with or without the content of its sources.
    pub fn artifact_snapshot(&self, whole: bool, defaults: &Defaults) -> (r: ArtifactSnapshot)
        ensures
            r@ == artifact_snapshot(self@, whole, defaults@),
    {
        ArtifactSnapshot {
            schema: self.meta_or("schema", defaults.schema.as_str()),
            purpose: self.meta_or("purpose", defaults.purpose.as_str()),
            sources: self.list_artifact_sources(whole),
            pages: self.list_artifact_pages(),
            operations: copy_records(&self.operations),
        }
    }

    fn plan_all(&self, whole: bool, defaults: &Defaults) -> (r: MaterializePlan)
        ensures
            r@ == materialized(self@, whole, defaults@),
    {
        MaterializePlan {
            scope: owned(self.scope.as_str()),
            database: owned(self.database.as_str()),
            snapshot: self.artifact_snapshot(whole, defaults),
            include_raw_sources: whole,
            cursor: self.newest_operation(),
        }
    }

    /// Writes the store out, with the content of its sources.
    pub fn materialize(&self, defaults: &Defaults) -> (r: MaterializePlan)
        ensures
            r@ == materialized(self@, true, defaults@),
    {
        self.plan_all(true, defaults)
    }

    /// Writes the store out, without the content of its sources.
    pub fn materialize_wiki(&self, defaults: &Defaults) -> (r: MaterializePlan)
        ensures
            r@ == materialized(self@, false, defaults@),
    {
        self.plan_all(false, defaults)
    }
}

// ---------------------------------------------------------------------------
// What changed
// ---------------------------------------------------------------------------

/// What an operation does to the files.
pub open spec fn step_for(
    store: StoreView,
    op: OperationView,
    whole: bool,
    defaults: DefaultsView,
) -> Option<ArtifactStepView> {
    if op.action == "page_put"@ {
        match artifact_page(store, op.target) {
            Some(page) => Some(ArtifactStepView::Page(page)),
            None => None,
        }
    } else if op.action == "page_remove"@ {
        Some(ArtifactStepView::RemovePage(op.target))
    } else if op.action == "source_add"@ {
        if !whole {
            None
        } else {
            match op.detail.int_at("source_id"@) {
                Some(id) => match artifact_source(store, id, true) {
                    Some(source) => Some(ArtifactStepView::Source(source)),
                    None => None,
                },
                None => None,
            }
        }
    } else if op.action == "source_remove"@ {
        if whole {
            Some(ArtifactStepView::RemoveSource(op.target))
        } else {
            None
        }
    } else if op.action == "schema_set"@ {
        Some(
            ArtifactStepView::Text {
                path: "schema.md"@,
                content: or_default(store::meta_value(store, "schema"@), defaults.schema),
            },
        )
    } else if op.action == "purpose_set"@ {
        Some(
            ArtifactStepView::Text {
                path: "purpose.md"@,
                content: or_default(store::meta_value(store, "purpose"@), defaults.purpose),
            },
        )
    } else {
        None
    }
}

/// What the first `count` operations do to the files.
pub open spec fn steps_for(
    store: StoreView,
    operations: Seq<OperationView>,
    whole: bool,
    defaults: DefaultsView,
    count: nat,
) -> Seq<ArtifactStepView>
    decreases count,
{
    if count == 0 || count > operations.len() {
        Seq::empty()
    } else {
        let head = steps_for(store, operations, whole, defaults, (count - 1) as nat);
        match step_for(store, operations[count - 1], whole, defaults) {
            Some(step) => head.push(step),
            None => head,
        }
    }
}

/// What changed since a point of the log, and the point that is reached then.
pub struct IncrementalPlan {
    pub steps: Vec<ArtifactStep>,
    /// The operations to append to the written log.
    pub operations: Vec<OperationRow>,
    pub cursor: i64,
}

#[verifier::ext_equal]
pub struct IncrementalPlanView {
    pub steps: Seq<ArtifactStepView>,
    pub operations: Seq<OperationView>,
    pub cursor: i64,
}

impl View for IncrementalPlan {
    type V = IncrementalPlanView;

    open spec fn view(&self) -> IncrementalPlanView {
        IncrementalPlanView {
            steps: text::views(self.steps@),
            operations: text::views(self.operations@),
            cursor: self.cursor,
        }
    }
}

/// What changed since a point of the log; nothing where the log has not grown.
pub open spec fn increment(store: StoreView, cursor: i64, whole: bool, defaults: DefaultsView) -> Option<
    IncrementalPlanView,
> {
    let operations = store::operations_after(store.operations, cursor);
    if operations.len() == 0 {
        None
    } else {
        Some(
            IncrementalPlanView {
                steps: steps_for(store, operations, whole, defaults, operations.len()),
                operations,
                cursor: operations.last().id,
            },
        )
    }
}

impl Store {
    fn plan_step(&self, op: &OperationRow, whole: bool, defaults: &Defaults) -> (r: Option<
        ArtifactStep,
    >)
        ensures
            text::opt_view(r) == step_for(self@, op@, whole, defaults@),
    {
        let action = op.action.as_str();
        if same_text(action, "page_put") {
            return match self.load_artifact_page(op.target.as_str()) {
                Some(page) => Some(ArtifactStep::Page(page)),
                None => None,
            };
        }
        if same_text(action, "page_remove") {
            return Some(ArtifactStep::RemovePage(owned(op.target.as_str())));
        }
        if same_text(action, "source_add") {
            if !whole {
                return None;
            }
            return match op.detail.int_at("source_id") {
                Some(id) => match self.load_artifact_source(id, true) {
                    Some(source) => Some(ArtifactStep::Source(source)),
                    None => None,
                },
                None => None,
            };
        }
        if same_text(action, "source_remove") {
            if !whole {
                return None;
            }
            return Some(ArtifactStep::RemoveSource(owned(op.target.as_str())));
        }
        if same_text(action, "schema_set") {
            return Some(
                ArtifactStep::Text {
                    path: owned("schema.md"),
                    content: self.meta_or("schema", defaults.schema.as_str()),
                },
            );
        }
        if same_text(action, "purpose_set") {
            return Some(
                ArtifactStep::Text {
                    path: owned("purpose.md"),
                    content: self.meta_or("purpose", defaults.purpose.as_str()),
                },
            );
        }
        None
    }

    /// What changed since a point of the log; nothing where the log has not grown.
    pub fn materialize_incremental(
        &self,
        cursor: i64,
        include_raw_sources: bool,
        defaults: &Defaults,
    ) -> (r: Option<IncrementalPlan>)
        ensures
            text::opt_view(r) == increment(self@, cursor, include_raw_sources, defaults@),
    {
        let operations = operations_since(&self.operations, cursor);
        let ghost all = text::views(operations@);
        let n = operations.len();
        if n == 0 {
            return None;
        }
        let mut steps: Vec<ArtifactStep> = Vec::new();
        assert(text::views(steps@) =~= Seq::empty());
        let mut i: usize = 0;
        while i < n
            invariant
                i <= n == operations@.len() == all.len(),
                all == text::views(operations@),
                text::views(steps@) == steps_for(
                    self@,
                    all,
                    include_raw_sources,
                    defaults@,
                    i as nat,
                ),
            decreases n - i,
        {
            assert(all[i as int] == operations@[i as int]@);
            if let Some(step) = self.plan_step(&operations[i], include_raw_sources, defaults) {
                proof {
                    text::lemma_views_push(steps@, step);
                }
                steps.push(step);
            }
            i += 1;
        }
        assert(all.last() == operations@[n - 1]@);
        let cursor = operations[n - 1].id;
        Some(IncrementalPlan { steps, operations, cursor })
    }
}

/// The files that were written, each once and in order.
pub fn written_files(files: &Vec<String>) -> (r: Vec<String>)
    ensures
        text::views(r@) == text::sorted(text::views(files@).to_set()),
{
    sorted_texts(files)
}

// ---------------------------------------------------------------------------
// What a synchronisation selected
// ---------------------------------------------------------------------------

/// What of a store a synchronisation wants written out.
#[verifier::ext_equal]
pub enum SelectionView {
    Full,
    Exact(Seq<ArtifactStepView>),
}

/// What of a store a synchronisation wants written out.
pub enum SyncPlan {
    /// All of it.
    Full,
    /// What changed since the last time, and then these.
    Exact(Vec<ArtifactStep>),
}

impl View for SyncPlan {
    type V = SelectionView;

    open spec fn view(&self) -> SelectionView {
        match self {
            SyncPlan::Full => SelectionView::Full,
            SyncPlan::Exact(steps) => SelectionView::Exact(text::views(steps@)),
        }
    }
}

pub open spec fn bad_receipt(message: Seq<char>) -> AppErrorView {
    error::app_error(ErrorCode::SyncReceiptInvalid, message)
}

fn bad_receipt_error(message: &str) -> (r: AppError)
    ensures
        r@ == bad_receipt(message@),
{
    AppError::new(ErrorCode::SyncReceiptInvalid, message)
}

/// The identifiers among the first `count` values.
pub open spec fn names_among(items: Seq<JsonView>, count: nat) -> Option<Seq<Seq<char>>>
    decreases count,
{
    if count == 0 || count > items.len() {
        Some(Seq::empty())
    } else {
        match names_among(items, (count - 1) as nat) {
            None => None,
            Some(head) => match items[count - 1] {
                JsonView::Text(name) => Some(head.push(name)),
                _ => None,
            },
        }
    }
}

proof fn lemma_names_stop(items: Seq<JsonView>, count: nat, more: nat)
    requires
        count <= more <= items.len(),
        names_among(items, count) is None,
    ensures
        names_among(items, more) is None,
    decreases more,
{
    if count < more {
        lemma_names_stop(items, count, (more - 1) as nat);
    }
}

/// The identifiers of a kind that a publication affected.
pub open spec fn selected(affected: JsonView, kind: Seq<char>) -> Result<
    Seq<Seq<char>>,
    AppErrorView,
> {
    match affected.get(kind) {
        None => Ok(Seq::empty()),
        Some(JsonView::Array(items)) => match names_among(items, items.len()) {
            Some(names) => Ok(names),
            None => Err(
                bad_receipt(
                    "Sync "@ + kind + " selection contains a non-text identifier"@,
                ),
            ),
        },
        Some(_) => Err(bad_receipt("Sync "@ + kind + " selection is not an array"@)),
    }
}

/// The source that a document of a publication is, where it is one.
pub open spec fn source_in(document: JsonView) -> Result<Option<Seq<char>>, AppErrorView> {
    match document {
        JsonView::Array(pair) => if pair.len() != 2 {
            Err(bad_receipt("Sync graph-document selection is malformed"@))
        } else if pair[0] == JsonView::Text("source"@) {
            match pair[1] {
                JsonView::Text(id) => if text::reads_as_i64(id) is Some {
                    Ok(Some(id))
                } else {
                    Err(bad_receipt("Sync source projection identifier is not numeric"@))
                },
                _ => Err(bad_receipt("Sync source projection identifier is not text"@)),
            }
        } else {
            Ok(None)
        },
        _ => Err(bad_receipt("Sync graph-document selection is malformed"@)),
    }
}

/// The sources among the first `count` documents of a publication.
pub open spec fn sources_among(documents: Seq<JsonView>, count: nat) -> Result<
    Set<Seq<char>>,
    AppErrorView,
>
    decreases count,
{
    if count == 0 || count > documents.len() {
        Ok(Set::empty())
    } else {
        match sources_among(documents, (count - 1) as nat) {
            Err(e) => Err(e),
            Ok(head) => match source_in(documents[count - 1]) {
                Err(e) => Err(e),
                Ok(Some(id)) => Ok(head.insert(id)),
                Ok(None) => Ok(head),
            },
        }
    }
}

proof fn lemma_sources_stop(documents: Seq<JsonView>, count: nat, more: nat)
    requires
        count <= more <= documents.len(),
        sources_among(documents, count) is Err,
    ensures
        sources_among(documents, more) == sources_among(documents, count),
    decreases more,
{
    if count < more {
        lemma_sources_stop(documents, count, (more - 1) as nat);
    }
}

/// What is done to the file of a page: written where the page is there, and removed
/// otherwise.
pub open spec fn page_step(store: StoreView, slug: Seq<char>) -> ArtifactStepView {
    match artifact_page(store, slug) {
        Some(page) => ArtifactStepView::Page(page),
        None => ArtifactStepView::RemovePage(slug),
    }
}

/// What is done to the file of a source: written where the source is there, and removed
/// otherwise.
pub open spec fn source_step(store: StoreView, name: Seq<char>) -> ArtifactStepView {
    match artifact_source(store, text::reads_as_i64(name)->0 as i64, true) {
        Some(source) => ArtifactStepView::Source(source),
        None => ArtifactStepView::RemoveSource(name),
    }
}

/// What is done to the file of a piece of metadata.
pub open spec fn meta_step(store: StoreView, key: Seq<char>, defaults: DefaultsView) -> Option<
    ArtifactStepView,
> {
    if key == "schema"@ {
        Some(
            ArtifactStepView::Text {
                path: "schema.md"@,
                content: or_default(store::meta_value(store, "schema"@), defaults.schema),
            },
        )
    } else if key == "purpose"@ {
        Some(
            ArtifactStepView::Text {
                path: "purpose.md"@,
                content: or_default(store::meta_value(store, "purpose"@), defaults.purpose),
            },
        )
    } else {
        None
    }
}

/// What is done to the files of the first `count` pieces of metadata.
pub open spec fn meta_steps(
    store: StoreView,
    keys: Seq<Seq<char>>,
    defaults: DefaultsView,
    count: nat,
) -> Option<Seq<ArtifactStepView>>
    decreases count,
{
    if count == 0 || count > keys.len() {
        Some(Seq::empty())
    } else {
        match meta_steps(store, keys, defaults, (count - 1) as nat) {
            None => None,
            Some(head) => match meta_step(store, keys[count - 1], defaults) {
                Some(step) => Some(head.push(step)),
                None => None,
            },
        }
    }
}

proof fn lemma_meta_stop(
    store: StoreView,
    keys: Seq<Seq<char>>,
    defaults: DefaultsView,
    count: nat,
    more: nat,
)
    requires
        count <= more <= keys.len(),
        meta_steps(store, keys, defaults, count) is None,
    ensures
        meta_steps(store, keys, defaults, more) is None,
    decreases more,
{
    if count < more {
        lemma_meta_stop(store, keys, defaults, count, (more - 1) as nat);
    }
}

/// What an exact publication wants written out.
pub open spec fn exact_selection(
    store: StoreView,
    publication: JsonView,
    affected: JsonView,
    defaults: DefaultsView,
) -> Result<SelectionView, AppErrorView> {
    match publication.array_at("affected_graph_documents"@) {
        None => Err(bad_receipt("exact Sync publication has no graph-document selection"@)),
        Some(documents) => match sources_among(documents, documents.len()) {
            Err(e) => Err(e),
            Ok(names) => match selected(affected, "page"@) {
                Err(e) => Err(e),
                Ok(slugs) => match selected(affected, "meta"@) {
                    Err(e) => Err(e),
                    Ok(keys) => match meta_steps(store, keys, defaults, keys.len()) {
                        None => Err(
                            bad_receipt("Sync meta selection contains an unsupported key"@),
                        ),
                        Some(metas) => Ok(
                            SelectionView::Exact(
                                slugs.map_values(|slug: Seq<char>| page_step(store, slug))
                                    + table::ordered::<String>(names).map_values(
                                    |name: Seq<char>| source_step(store, name),
                                ) + metas,
                            ),
                        ),
                    },
                },
            },
        },
    }
}

/// What a publication wants written out.
pub open spec fn selection(store: StoreView, publication: JsonView, defaults: DefaultsView) -> Result<
    SelectionView,
    AppErrorView,
> {
    if publication.text_at("derived_selection"@) == Some("full"@) {
        Ok(SelectionView::Full)
    } else if publication.text_at("derived_selection"@) == Some("exact"@) {
        match publication.get("affected"@) {
            Some(JsonView::Object(entries)) => exact_selection(
                store,
                publication,
                JsonView::Object(entries),
                defaults,
            ),
            _ => Err(bad_receipt("exact Sync publication has no affected-object map"@)),
        }
    } else {
        Err(bad_receipt("Sync publication has no valid derived selection"@))
    }
}

fn read_selected(affected: &Json, kind: &str) -> (r: Result<Vec<String>, AppError>)
    ensures
        match selected(affected@, kind@) {
            Ok(names) => r matches Ok(got) && text::views(got@) == names,
            Err(e) => r matches Err(got) && got@ == e,
        },
{
    let mut out: Vec<String> = Vec::new();
    assert(text::views(out@) =~= Seq::empty());
    let items = match affected.get(kind) {
        None => {
            return Ok(out);
        },
        Some(Json::Array(items)) => items,
        Some(_) => {
            return Err(
                bad_receipt_error(join3("Sync ", kind, " selection is not an array").as_str()),
            );
        },
    };
    proof {
        crate::json::lemma_array_view(*items);
    }
    let ghost all = text::views(items@);
    let mut i: usize = 0;
    while i < items.len()
        invariant
            i <= items@.len() == all.len(),
            all == text::views(items@),
            names_among(all, i as nat) == Some(text::views(out@)),
        decreases items@.len() - i,
    {
        assert(all[i as int] == items@[i as int]@);
        match &items[i] {
            Json::Text(name) => {
                let one = owned(name.as_str());
                proof {
                    text::lemma_views_push(out@, one);
                }
                out.push(one);
            },
            _ => {
                proof {
                    lemma_names_stop(all, (i + 1) as nat, all.len());
                }
                return Err(
                    bad_receipt_error(
                        join3("Sync ", kind, " selection contains a non-text identifier").as_str(),
                    ),
                );
            },
        }
        i += 1;
    }
    Ok(out)
}

fn read_source(document: &Json) -> (r: Result<Option<String>, AppError>)
    ensures
        match source_in(document@) {
            Ok(id) => r matches Ok(got) && text::opt_text(got) == id,
            Err(e) => r matches Err(got) && got@ == e,
        },
{
    let pair = match document {
        Json::Array(pair) => pair,
        _ => {
            return Err(bad_receipt_error("Sync graph-document selection is malformed"));
        },
    };
    proof {
        crate::json::lemma_array_view(*pair);
    }
    if pair.len() != 2 {
        return Err(bad_receipt_error("Sync graph-document selection is malformed"));
    }
    assert(document@->Array_0[0] == pair@[0]@ && document@->Array_0[1] == pair@[1]@);
    let wanted = match &pair[0] {
        Json::Text(kind) => same_text(kind.as_str(), "source"),
        _ => false,
    };
    if !wanted {
        return Ok(None);
    }
    match &pair[1] {
        Json::Text(id) => {
            if parse_i64(id.as_str()).is_some() {
                Ok(Some(owned(id.as_str())))
            } else {
                Err(bad_receipt_error("Sync source projection identifier is not numeric"))
            }
        },
        _ => Err(bad_receipt_error("Sync source projection identifier is not text")),
    }
}

fn read_sources(documents: &Vec<Json>) -> (r: Result<Table<String, bool>, AppError>)
    ensures
        match sources_among(text::views(documents@), documents@.len()) {
            Ok(names) => r matches Ok(got) && got@.dom() == names,
            Err(e) => r matches Err(got) && got@ == e,
        },
{
    let ghost all = text::views(documents@);
    let mut marks: Table<String, bool> = Table::new();
    let mut i: usize = 0;
    while i < documents.len()
        invariant
            i <= documents@.len() == all.len(),
            all == text::views(documents@),
            sources_among(all, i as nat) == Ok::<Set<Seq<char>>, AppErrorView>(marks@.dom()),
        decreases documents@.len() - i,
    {
        assert(all[i as int] == documents@[i as int]@);
        match read_source(&documents[i]) {
            Err(e) => {
                proof {
                    lemma_sources_stop(all, (i + 1) as nat, all.len());
                }
                return Err(e);
            },
            Ok(Some(id)) => {
                marks.put(id, true);
            },
            Ok(None) => {},
        }
        i += 1;
    }
    Ok(marks)
}

fn push_step(steps: &mut Vec<ArtifactStep>, step: ArtifactStep)
    ensures
        text::views(final(steps)@) == text::views(old(steps)@).push(step@),
{
    proof {
        text::lemma_views_push(steps@, step);
    }
    steps.push(step);
}

impl Store {
    fn push_page_steps(&self, steps: &mut Vec<ArtifactStep>, slugs: &Vec<String>)
        ensures
            text::views(final(steps)@) == text::views(old(steps)@) + text::views(
                slugs@,
            ).map_values(|slug: Seq<char>| page_step(self@, slug)),
    {
        let ghost start = text::views(steps@);
        let ghost goal = text::views(slugs@).map_values(
            |slug: Seq<char>| page_step(self@, slug),
        );
        let mut i: usize = 0;
        assert(start + goal.take(0) =~= start);
        while i < slugs.len()
            invariant
                i <= slugs@.len() == goal.len(),
                goal == text::views(slugs@).map_values(|slug: Seq<char>| page_step(self@, slug)),
                text::views(steps@) =~= start + goal.take(i as int),
            decreases slugs@.len() - i,
        {
            assert(goal[i as int] == page_step(self@, slugs@[i as int]@));
            assert(goal.take(i + 1) =~= goal.take(i as int).push(goal[i as int]));
            let step = match self.load_artifact_page(slugs[i].as_str()) {
                Some(page) => ArtifactStep::Page(page),
                None => ArtifactStep::RemovePage(owned(slugs[i].as_str())),
            };
            push_step(steps, step);
            i += 1;
        }
        assert(goal.take(i as int) =~= goal);
    }

    fn push_source_steps(&self, steps: &mut Vec<ArtifactStep>, names: &Table<String, bool>)
        requires
            forall|name: Seq<char>| #[trigger]
                names@.dom().contains(name) ==> text::reads_as_i64(name) is Some,
        ensures
            text::views(final(steps)@) == text::views(old(steps)@) + table::ordered::<String>(
                names@.dom(),
            ).map_values(|name: Seq<char>| source_step(self@, name)),
    {
        let ghost start = text::views(steps@);
        let ghost goal = table::ordered::<String>(names@.dom()).map_values(
            |name: Seq<char>| source_step(self@, name),
        );
        let n = names.len();
        let ghost keys = names.keys();
        proof {
            table::lemma_ordered_is::<String>(keys, names@.dom());
        }
        let mut i: usize = 0;
        assert(start + goal.take(0) =~= start);
        while i < n
            invariant
                i <= n == keys.len() == goal.len(),
                keys == names.keys(),
                goal == keys.map_values(|name: Seq<char>| source_step(self@, name)),
                text::views(steps@) =~= start + goal.take(i as int),
            decreases n - i,
        {
            let name = names.key_at(i);
            assert(names@.dom().contains(name@));
            assert(goal[i as int] == source_step(self@, name@));
            assert(goal.take(i + 1) =~= goal.take(i as int).push(goal[i as int]));
            let found = match parse_i64(name.as_str()) {
                Some(id) => self.load_artifact_source(id, true),
                None => None,
            };
            let step = match found {
                Some(source) => ArtifactStep::Source(source),
                None => ArtifactStep::RemoveSource(owned(name.as_str())),
            };
            push_step(steps, step);
            i += 1;
        }
        assert(goal.take(n as int) =~= goal);
    }

    fn plan_meta(&self, key: &str, defaults: &Defaults) -> (r: Option<ArtifactStep>)
        ensures
            text::opt_view(r) == meta_step(self@, key@, defaults@),
    {
        if same_text(key, "schema") {
            return Some(
                ArtifactStep::Text {
                    path: owned("schema.md"),
                    content: self.meta_or("schema", defaults.schema.as_str()),
                },
            );
        }
        if same_text(key, "purpose") {
            return Some(
                ArtifactStep::Text {
                    path: owned("purpose.md"),
                    content: self.meta_or("purpose", defaults.purpose.as_str()),
                },
            );
        }
        None
    }

    fn push_meta_steps(
        &self,
        steps: &mut Vec<ArtifactStep>,
        keys: &Vec<String>,
        defaults: &Defaults,
    ) -> (r: bool)
        ensures
            match meta_steps(self@, text::views(keys@), defaults@, keys@.len()) {
                Some(more) => r && text::views(final(steps)@) == text::views(old(steps)@) + more,
                None => !r,
            },
    {
        let ghost start = text::views(steps@);
        let ghost all = text::views(keys@);
        let mut i: usize = 0;
        assert(start + Seq::<ArtifactStepView>::empty() =~= start);
        while i < keys.len()
            invariant
                i <= keys@.len() == all.len(),
                all == text::views(keys@),
                meta_steps(self@, all, defaults@, i as nat) is Some,
                text::views(steps@) =~= start + meta_steps(self@, all, defaults@, i as nat)->0,
            decreases keys@.len() - i,
        {
            assert(all[i as int] == keys@[i as int]@);
            match self.plan_meta(keys[i].as_str(), defaults) {
                Some(step) => push_step(steps, step),
                None => {
                    proof {
                        lemma_meta_stop(self@, all, defaults@, (i + 1) as nat, all.len());
                    }
                    return false;
                },
            }
            i += 1;
        }
        true
    }

    fn select_exact(&self, publication: &Json, affected: &Json, defaults: &Defaults) -> (r: Result<
        SyncPlan,
        AppError,
    >)
        ensures
            error::outcome(r) == exact_selection(self@, publication@, affected@, defaults@),
    {
        let documents = match publication.array_at("affected_graph_documents") {
            Some(documents) => documents,
            None => {
                return Err(
                    bad_receipt_error("exact Sync publication has no graph-document selection"),
                );
            },
        };
        let ghost all = text::views(documents@);
        assert(all.len() == documents@.len());
        let names = match read_sources(documents) {
            Ok(names) => names,
            Err(e) => {
                return Err(e);
            },
        };
        proof {
            lemma_sources_numeric(all, all.len());
        }
        let slugs = match read_selected(affected, "page") {
            Ok(slugs) => slugs,
            Err(e) => {
                return Err(e);
            },
        };
        let keys = match read_selected(affected, "meta") {
            Ok(keys) => keys,
            Err(e) => {
                return Err(e);
            },
        };
        assert(text::views(keys@).len() == keys@.len());
        let mut steps: Vec<ArtifactStep> = Vec::new();
        assert(text::views(steps@) =~= Seq::empty());
        let ghost pages = text::views(slugs@).map_values(
            |slug: Seq<char>| page_step(self@, slug),
        );
        self.push_page_steps(&mut steps, &slugs);
        assert(text::views(steps@) =~= pages);
        self.push_source_steps(&mut steps, &names);
        if !self.push_meta_steps(&mut steps, &keys, defaults) {
            return Err(bad_receipt_error("Sync meta selection contains an unsupported key"));
        }
        Ok(SyncPlan::Exact(steps))
    }

    /// What a publication wants written out.
    pub fn materialize_sync_selection(&self, publication: &Json, defaults: &Defaults) -> (r: Result<
        SyncPlan,
        AppError,
    >)
        ensures
            error::outcome(r) == selection(self@, publication@, defaults@),
    {
        let exact = match publication.text_at("derived_selection") {
            Some(kind) => {
                if same_text(kind.as_str(), "full") {
                    return Ok(SyncPlan::Full);
                }
                same_text(kind.as_str(), "exact")
            },
            None => false,
        };
        if !exact {
            return Err(bad_receipt_error("Sync publication has no valid derived selection"));
        }
        match publication.get("affected") {
            Some(affected) => {
                let mapped = match affected {
                    Json::Object(_) => true,
                    _ => false,
                };
                if mapped {
                    self.select_exact(publication, affected, defaults)
                } else {
                    Err(bad_receipt_error("exact Sync publication has no affected-object map"))
                }
            },
            None => Err(bad_receipt_error("exact Sync publication has no affected-object map")),
        }
    }
}

proof fn lemma_sources_numeric(documents: Seq<JsonView>, count: nat)
    ensures
        sources_among(documents, count) matches Ok(names) ==> forall|name: Seq<char>| #[trigger]
            names.contains(name) ==> text::reads_as_i64(name) is Some,
    decreases count,
{
    if count > 0 && count <= documents.len() {
        lemma_sources_numeric(documents, (count - 1) as nat);
    }
}

// ---------------------------------------------------------------------------
// A glance at the store
// ---------------------------------------------------------------------------

/// A glance at a store.
pub struct ContextStore {
    pub scope: String,
    pub database: String,
    pub schema: Option<String>,
    pub purpose: Option<String>,
    pub pages: Vec<PageSummary>,
    pub recent_operations: Vec<OperationRow>,
}

#[verifier::ext_equal]
pub struct ContextView {
    pub scope: Seq<char>,
    pub database: Seq<char>,
    pub schema: Option<Seq<char>>,
    pub purpose: Option<Seq<char>>,
    pub pages: Seq<PageSummaryView>,
    pub recent_operations: Seq<OperationView>,
}

impl View for ContextStore {
    type V = ContextView;

    open spec fn view(&self) -> ContextView {
        ContextView {
            scope: self.scope@,
            database: self.database@,
            schema: text::opt_text(self.schema),
            purpose: text::opt_text(self.purpose),
            pages: text::views(self.pages@),
            recent_operations: text::views(self.recent_operations@),
        }
    }
}

/// A glance at a store.
pub open spec fn context(store: StoreView, limit: nat) -> ContextView {
    ContextView {
        scope: store.scope,
        database: store.database,
        schema: store::meta_value(store, "schema"@),
        purpose: store::meta_value(store, "purpose"@),
        pages: paging::page_of(pages::summaries(store), 0, limit),
        recent_operations: store::newest(store.operations, limit),
    }
}

impl Store {
    /// A glance at the store.
    pub fn context_store(&self, limit: usize) -> (r: ContextStore)
        ensures
            r@ == context(self@, limit as nat),
    {
        let all = self.list_summaries();
        ContextStore {
            scope: owned(self.scope.as_str()),
            database: owned(self.database.as_str()),
            schema: self.meta_text("schema"),
            purpose: self.meta_text("purpose"),
            pages: copy_page(&all, 0, limit),
            recent_operations: self.load_operations(limit),
        }
    }
}

// ---------------------------------------------------------------------------
// Laws
// ---------------------------------------------------------------------------

proof fn lemma_metas_alike(
    a: StoreView,
    b: StoreView,
    keys: Seq<Seq<char>>,
    defaults: DefaultsView,
    count: nat,
)
    requires
        store::meta_value(a, "schema"@) == store::meta_value(b, "schema"@),
        store::meta_value(a, "purpose"@) == store::meta_value(b, "purpose"@),
    ensures
        meta_steps(a, keys, defaults, count) == meta_steps(b, keys, defaults, count),
    decreases count,
{
    if count > 0 && count <= keys.len() {
        lemma_metas_alike(a, b, keys, defaults, (count - 1) as nat);
    }
}

proof fn lemma_citations_alike(a: StoreView, b: StoreView, ids: Seq<i64>, count: nat)
    requires
        a.sources == b.sources,
    ensures
        citations_among(a, ids, count) == citations_among(b, ids, count),
    decreases count,
{
    if count > 0 && count <= ids.len() {
        lemma_citations_alike(a, b, ids, (count - 1) as nat);
    }
}

/// What a publication wants written out rests on the pages, the sources, the schema and the
/// purpose of the store alone: not on its log, nor on how far the files followed it. So the
/// same publication can be written out once more, at any later time, with the same outcome.
pub proof fn law_selection_can_be_repeated(
    a: StoreView,
    b: StoreView,
    publication: JsonView,
    defaults: DefaultsView,
)
    requires
        a.pages == b.pages,
        a.sources == b.sources,
        store::meta_value(a, "schema"@) == store::meta_value(b, "schema"@),
        store::meta_value(a, "purpose"@) == store::meta_value(b, "purpose"@),
    ensures
        selection(a, publication, defaults) == selection(b, publication, defaults),
{
    assert forall|slug: Seq<char>| page_step(a, slug) == #[trigger] page_step(b, slug) by {
        if a.pages.dom().contains(slug) {
            let ids = a.pages[slug].source_ids;
            lemma_citations_alike(a, b, ids, ids.len());
        }
    }
    if let Some(JsonView::Object(entries)) = publication.get("affected"@) {
        let affected = JsonView::Object(entries);
        if let Some(documents) = publication.array_at("affected_graph_documents"@) {
            if let Ok(names) = sources_among(documents, documents.len()) {
                if let Ok(slugs) = selected(affected, "page"@) {
                    if let Ok(keys) = selected(affected, "meta"@) {
                        lemma_metas_alike(a, b, keys, defaults, keys.len());
                        assert(slugs.map_values(|slug: Seq<char>| page_step(a, slug))
                            =~= slugs.map_values(|slug: Seq<char>| page_step(b, slug)));
                        let listed = table::ordered::<String>(names);
                        assert(listed.map_values(|name: Seq<char>| source_step(a, name))
                            =~= listed.map_values(|name: Seq<char>| source_step(b, name)));
                    }
                }
            }
        }
    }
}

/// After the files follow the log up to some point, nothing is left to do until the log
/// grows: from the point that was reached there is no further plan.
pub proof fn law_increment_reaches_the_end(
    store: StoreView,
    cursor: i64,
    whole: bool,
    defaults: DefaultsView,
)
    requires
        forall|i: int, j: int|
            0 <= i < j < store.operations.len() ==> store.operations[i].id
                < store.operations[j].id,
    ensures
        increment(store, cursor, whole, defaults) matches Some(plan) ==> increment(
            store,
            plan.cursor,
            whole,
            defaults,
        ) is None,
{
    let all = store.operations;
    lemma_after_last(all, cursor);
    let after = store::operations_after(all, cursor);
    if after.len() > 0 {
        lemma_nothing_after(all, after.last().id);
    }
}

/// The last operation after a point is the last of all.
proof fn lemma_after_last(operations: Seq<OperationView>, id: i64)
    requires
        forall|i: int, j: int|
            0 <= i < j < operations.len() ==> operations[i].id < operations[j].id,
    ensures
        store::operations_after(operations, id).len() > 0 ==> operations.len() > 0
            && store::operations_after(operations, id).last() == operations.last(),
    decreases operations.len(),
{
    if operations.len() > 0 {
        lemma_after_last(operations.drop_last(), id);
        let head = operations.drop_last();
        if operations.last().id <= id && store::operations_after(head, id).len() > 0 {
            lemma_members_after(head, id);
            assert(head.last().id > id);
        }
    }
}

proof fn lemma_members_after(operations: Seq<OperationView>, id: i64)
    ensures
        forall|k: int|
            0 <= k < store::operations_after(operations, id).len() ==> (
            #[trigger] store::operations_after(operations, id)[k]).id > id,
    decreases operations.len(),
{
    if operations.len() > 0 {
        lemma_members_after(operations.drop_last(), id);
    }
}

proof fn lemma_nothing_after(operations: Seq<OperationView>, id: i64)
    requires
        forall|k: int| 0 <= k < operations.len() ==> (#[trigger] operations[k]).id <= id,
    ensures
        store::operations_after(operations, id).len() == 0,
    decreases operations.len(),
{
    if operations.len() > 0 {
        lemma_nothing_after(operations.drop_last(), id);
    }
}

} // verus!
