//! Looking after a store: its search index, its write-ahead log, and its graph of pages.
use crate::error;
use crate::error::{AppError, AppErrorView, ErrorCode};
use crate::json;
use crate::json::{Json, JsonView};
use crate::indexing;
use crate::indexing::IndexEntry;
use crate::spans::{Segments, SegmentsView};
use crate::store;
use crate::store::{Store, StoreView};
use crate::table;
use crate::table::{copy_ids, same_ids, Pair, Record, Table};
use crate::text;
use crate::text::{copy_opt, copy_texts, join2, owned, same_opt, same_text, same_texts, sorted_texts};
use vstd::prelude::*;

verus! {

// ---------------------------------------------------------------------------
// The search index
// ---------------------------------------------------------------------------

/// What building the index anew came to.
pub struct ReindexResponse {
    pub scope: String,
    pub database: String,
    pub sources: usize,
    pub pages: usize,
    /// What the index holds: everything that it held before is gone.
    pub entries: Vec<IndexEntry>,
}

/// The store after its index was built anew: every source and every page is cut as the
/// segmenter cuts it now, and that is written down.
pub open spec fn reindexed(
    store: StoreView,
    segments: SegmentsView,
    now: Seq<char>,
    revision: Seq<char>,
) -> Result<StoreView, AppErrorView> {
    match indexing::all_cut(store, segments) {
        Err(e) => Err(e),
        Ok(next) => store::recorded(
            next,
            "reindex"@,
            "search_fts"@,
            JsonView::Object(
                seq![
                    json::entry("pages"@, json::count_view(store.pages.dom().len())),
                    json::entry("sources"@, json::count_view(store.sources.dom().len())),
                ],
            ),
            now,
            revision,
        ),
    }
}

/// What making the log small came to.
pub struct CompactResponse {
    pub scope: String,
    pub database: String,
    pub busy: bool,
    pub log_frames: i64,
    pub checkpointed_frames: i64,
    pub before_bytes: u64,
    pub after_bytes: u64,
}

/// The store after its log was made small.
pub open spec fn compacted(
    store: StoreView,
    before_bytes: u64,
    now: Seq<char>,
    revision: Seq<char>,
) -> Result<StoreView, AppErrorView> {
    store::recorded(
        store,
        "maintenance_compact"@,
        "wiki.db"@,
        JsonView::Object(
            seq![json::entry("wal_before_bytes"@, json::count_view(before_bytes as nat))],
        ),
        now,
        revision,
    )
}

/// What a checkpoint of the log answered.
pub struct WalCheckpoint {
    pub busy: i64,
    pub log_frames: i64,
    pub checkpointed_frames: i64,
}

impl Store {
    /// Builds the index anew: cuts every source and every page as the segmenter cuts it now,
    /// gives the one entry that each has, and writes that down. `places` holds the leaf and
    /// the parent of the origin of each source.
    pub fn reindex(
        &mut self,
        segments: &Segments,
        places: &Table<i64, Pair>,
        now: &str,
        revision: &str,
    ) -> (r: Result<ReindexResponse, AppError>)
        ensures
            store::settled(
                old(self)@,
                final(self)@,
                r,
                reindexed(old(self)@, segments@, now@, revision@),
            ),
            r matches Ok(done) ==> {
                &&& done.scope@ == old(self)@.scope
                &&& done.database@ == old(self)@.database
                &&& done.sources == old(self)@.sources.dom().len()
                &&& done.pages == old(self)@.pages.dom().len()
                &&& text::views(done.entries@) == indexing::all_entries(old(self)@, places@)
                &&& done.entries@.len() == done.sources + done.pages
            },
    {
        let entries = self.index_entries(places);
        let sources = self.sources.len();
        let pages = self.pages.len();
        proof {
            indexing::law_index_covers_everything(self@, places@);
            assert(text::views(entries@).len() == entries@.len());
            indexing::lemma_all_cut(self@, segments@);
        }
        let mut next = self.duplicate();
        if let Err(e) = next.cut_all(segments) {
            return Err(e);
        }
        let detail = Json::object2("pages", Json::count(pages), "sources", Json::count(sources));
        if let Err(e) = next.record_operation("reindex", "search_fts", detail, now, revision) {
            return Err(e);
        }
        *self = next;
        Ok(
            ReindexResponse {
                scope: owned(self.scope.as_str()),
                database: owned(self.database.as_str()),
                sources,
                pages,
                entries,
            },
        )
    }

    /// Writes down that the log is about to be made small. `before_bytes` is its size.
    pub fn compact(&mut self, before_bytes: u64, now: &str, revision: &str) -> (r: Result<
        (),
        AppError,
    >)
        ensures
            store::settled(
                old(self)@,
                final(self)@,
                r,
                compacted(old(self)@, before_bytes, now@, revision@),
            ),
    {
        let detail = Json::object1("wal_before_bytes", Json::wide_count(before_bytes as u128));
        self.record_operation("maintenance_compact", "wiki.db", detail, now, revision)
    }

    /// What making the log small came to.
    pub fn compacted(&self, before_bytes: u64, checkpoint: &WalCheckpoint, after_bytes: u64) -> (r:
        CompactResponse)
        ensures
            r.scope@ == self@.scope,
            r.database@ == self@.database,
            r.busy == (checkpoint.busy != 0),
            r.log_frames == checkpoint.log_frames,
            r.checkpointed_frames == checkpoint.checkpointed_frames,
            r.before_bytes == before_bytes,
            r.after_bytes == after_bytes,
    {
        CompactResponse {
            scope: owned(self.scope.as_str()),
            database: owned(self.database.as_str()),
            busy: checkpoint.busy != 0,
            log_frames: checkpoint.log_frames,
            checkpointed_frames: checkpoint.checkpointed_frames,
            before_bytes,
            after_bytes,
        }
    }
}

/// Whether a checkpoint of the log went through: nobody was in its way.
pub fn try_checkpoint_wal(answer: Option<&WalCheckpoint>) -> (r: bool)
    ensures
        r == (answer is Some && answer->0.busy == 0),
{
    match answer {
        Some(answer) => answer.busy == 0,
        None => false,
    }
}

// ---------------------------------------------------------------------------
// The graph of pages
// ---------------------------------------------------------------------------

/// A page as the graph sees it.
pub struct GraphPage {
    pub slug: String,
    pub title: String,
    pub kind: Option<String>,
    pub source_ids: Vec<i64>,
    pub outlinks: Vec<String>,
}

#[verifier::ext_equal]
pub struct GraphPageView {
    pub slug: Seq<char>,
    pub title: Seq<char>,
    pub kind: Option<Seq<char>>,
    pub source_ids: Seq<i64>,
    pub outlinks: Seq<Seq<char>>,
}

impl View for GraphPage {
    type V = GraphPageView;

    open spec fn view(&self) -> GraphPageView {
        GraphPageView {
            slug: self.slug@,
            title: self.title@,
            kind: text::opt_text(self.kind),
            source_ids: self.source_ids@,
            outlinks: text::views(self.outlinks@),
        }
    }
}

impl Record for GraphPage {
    fn duplicate(&self) -> (r: Self) {
        GraphPage {
            slug: owned(self.slug.as_str()),
            title: owned(self.title.as_str()),
            kind: copy_opt(&self.kind),
            source_ids: copy_ids(&self.source_ids),
            outlinks: copy_texts(&self.outlinks),
        }
    }

    fn same(&self, other: &Self) -> (r: bool) {
        same_text(self.slug.as_str(), other.slug.as_str())
            && same_text(self.title.as_str(), other.title.as_str())
            && same_opt(&self.kind, &other.kind)
            && same_ids(&self.source_ids, &other.source_ids)
            && same_texts(&self.outlinks, &other.outlinks)
    }
}

/// The pages as the graph sees them. What a page cites and what it links to are in order.
pub open spec fn graph_page(store: StoreView, slug: Seq<char>) -> GraphPageView {
    let page = store.pages[slug];
    GraphPageView {
        slug,
        title: page.title,
        kind: page.kind,
        source_ids: table::ordered::<i64>(page.source_ids.to_set()),
        outlinks: text::sorted(page.links.to_set()),
    }
}

/// The pages as the graph sees them, in the order of their slugs.
pub open spec fn graph_pages(store: StoreView) -> Seq<GraphPageView> {
    table::ordered::<String>(store.pages.dom()).map_values(
        |slug: Seq<char>| graph_page(store, slug),
    )
}

/// The place of a page among the pages of the graph.
pub open spec fn is_place_of(pages: Seq<GraphPageView>, slug: Seq<char>, at: int) -> bool {
    0 <= at < pages.len() && pages[at].slug == slug
}

/// A page to start from, and all pages that may be related to it.
pub struct GraphNeighbourhood {
    pub scope: String,
    pub database: String,
    /// Where the page stands among the pages.
    pub seed: usize,
    pub pages: Vec<GraphPage>,
    pub limit: usize,
}

fn order_ids(list: &Vec<i64>) -> (r: Vec<i64>)
    ensures
        r@ == table::ordered::<i64>(list@.to_set()),
{
    let mut known: Table<i64, bool> = Table::new();
    let mut i: usize = 0;
    while i < list.len()
        invariant
            i <= list@.len(),
            known@.dom() =~= list@.take(i as int).to_set(),
        decreases list@.len() - i,
    {
        let ghost was = known@.dom();
        known.put(list[i], true);
        proof {
            table::lemma_take_more(list@, i as int);
            assert(known@.dom() =~= was.insert(list@[i as int]));
            assert forall|x: i64| known@.dom().contains(x) == list@.take(
                i + 1,
            ).to_set().contains(x) by {
                assert(was.contains(x) == list@.take(i as int).to_set().contains(x));
                assert(list@.take(i as int).to_set().contains(x) == list@.take(
                    i as int,
                ).contains(x));
            }
        }
        i += 1;
    }
    let n = known.len();
    let ghost keys = known.keys();
    proof {
        assert(list@.take(list@.len() as int) =~= list@);
        table::lemma_ordered_is::<i64>(keys, list@.to_set());
    }
    let mut out: Vec<i64> = Vec::new();
    let mut k: usize = 0;
    while k < n
        invariant
            k <= n == keys.len(),
            keys == known.keys(),
            out@.len() == k,
            forall|j: int| 0 <= j < k ==> #[trigger] out@[j] == keys[j],
        decreases n - k,
    {
        out.push(*known.key_at(k));
        k += 1;
    }
    assert(out@ =~= keys);
    out
}

impl Store {
    /// The pages as the graph sees them, in the order of their slugs.
    pub fn load_graph_pages(&self) -> (r: Vec<GraphPage>)
        ensures
            text::views(r@) == graph_pages(self@),
    {
        let n = self.pages.len();
        let ghost keys = self.pages.keys();
        proof {
            table::lemma_ordered_is::<String>(keys, self@.pages.dom());
        }
        let mut out: Vec<GraphPage> = Vec::new();
        let mut i: usize = 0;
        while i < n
            invariant
                i <= n == keys.len(),
                keys == self.pages.keys(),
                out@.len() == i,
                forall|j: int| 0 <= j < i ==> (#[trigger] out@[j])@ == graph_page(self@, keys[j]),
            decreases n - i,
        {
            let slug = self.pages.key_at(i);
            let page = self.pages.value_at(i);
            let one = GraphPage {
                slug: owned(slug.as_str()),
                title: owned(page.title.as_str()),
                kind: copy_opt(&page.kind),
                source_ids: order_ids(&page.source_ids),
                outlinks: sorted_texts(&page.links),
            };
            assert(one@ == graph_page(self@, slug@));
            out.push(one);
            i += 1;
        }
        assert(text::views(out@) =~= graph_pages(self@));
        out
    }

    /// A page to start from, and all pages that may be related to it.
    pub fn graph_related(&self, slug: &str, limit: usize) -> (r: Result<
        GraphNeighbourhood,
        AppError,
    >)
        ensures
            if self@.pages.dom().contains(slug@) {
                &&& r matches Ok(found)
                &&& found.scope@ == self@.scope
                &&& found.database@ == self@.database
                &&& text::views(found.pages@) == graph_pages(self@)
                &&& is_place_of(graph_pages(self@), slug@, found.seed as int)
                &&& found.limit == limit
            } else {
                r matches Err(e) && e@ == error::app_error(
                    ErrorCode::PageNotFound,
                    "page not found: "@ + slug@,
                )
            },
    {
        let pages = self.load_graph_pages();
        let ghost all = graph_pages(self@);
        let ghost keys = table::ordered::<String>(self@.pages.dom());
        let n = self.pages.len();
        proof {
            table::lemma_ordered_is::<String>(self.pages.keys(), self@.pages.dom());
            assert(all.len() == keys.len());
            assert(all.len() == pages@.len());
        }
        let mut i: usize = 0;
        while i < pages.len()
            invariant
                i <= pages@.len() == all.len(),
                all == text::views(pages@),
                forall|j: int| 0 <= j < i ==> (#[trigger] all[j]).slug != slug@,
            decreases pages@.len() - i,
        {
            assert(all[i as int] == pages@[i as int]@);
            if same_text(pages[i].slug.as_str(), slug) {
                assert(all[i as int].slug == keys[i as int]);
                assert(keys.to_set().contains(keys[i as int]));
                return Ok(
                    GraphNeighbourhood {
                        scope: owned(self.scope.as_str()),
                        database: owned(self.database.as_str()),
                        seed: i,
                        pages,
                        limit,
                    },
                );
            }
            i += 1;
        }
        proof {
            if self@.pages.dom().contains(slug@) {
                assert(keys.to_set().contains(slug@));
                let at = keys.index_of(slug@);
                assert(all[at].slug == slug@);
            }
        }
        Err(
            AppError::new(ErrorCode::PageNotFound, join2("page not found: ", slug).as_str()),
        )
    }
}

// ---------------------------------------------------------------------------
// The graph of another program
// ---------------------------------------------------------------------------

/// What to have the graph do about documents that changed.
#[derive(Clone, Copy, PartialEq, Eq, Structural)]
pub enum GraphWork {
    Nothing,
    /// The graph was not built yet: build all of it.
    Projection,
    Documents,
}

/// Whether the graph is looked at at all: it can be switched off, and then where it runs does
/// not count.
pub fn preflight_graph_runtime(disabled: bool, runtime: Result<(), AppError>) -> (r: Result<
    bool,
    AppError,
>)
    ensures
        error::value_outcome(r) == (if disabled {
            Ok::<bool, AppErrorView>(false)
        } else {
            match runtime {
                Ok(()) => Ok(true),
                Err(e) => Err(e@),
            }
        }),
{
    if disabled {
        return Ok(false);
    }
    match runtime {
        Ok(()) => Ok(true),
        Err(e) => Err(e),
    }
}

/// What to have the graph do about documents that changed. `ready` is what
/// [`preflight_graph_runtime`] found, `status` how far the graph is.
pub fn schedule_graph_documents(documents: usize, ready: bool, status: &str) -> (r: GraphWork)
    ensures
        r == (if documents == 0 || !ready {
            GraphWork::Nothing
        } else if status@ == "pending"@ {
            GraphWork::Projection
        } else {
            GraphWork::Documents
        }),
{
    if documents == 0 || !ready {
        GraphWork::Nothing
    } else if same_text(status, "pending") {
        GraphWork::Projection
    } else {
        GraphWork::Documents
    }
}

/// Which graph a store has.
#[derive(Clone, Copy, PartialEq, Eq, Structural)]
pub enum GraphSetting {
    Disabled,
    Grafeo,
    Surrealdb,
}

/// What a write says of the graph.
pub struct GraphMutationSummary {
    pub invalidated_semantic_relations: usize,
    pub engine: String,
    pub status: String,
    pub document_duration_ms: u64,
    pub queue_duration_ms: u64,
}

/// What a write says of the graph before the graph took any notice of it.
pub fn load_graph_mutation_summary(
    setting: GraphSetting,
    document_duration_ms: u64,
    queue_duration_ms: u64,
) -> (r: GraphMutationSummary)
    ensures
        r.invalidated_semantic_relations == 0,
        r.engine@ == (match setting {
            GraphSetting::Disabled => "disabled"@,
            GraphSetting::Grafeo => "grafeo"@,
            GraphSetting::Surrealdb => "surrealdb"@,
        }),
        r.status@ == (if setting is Disabled {
            "disabled"@
        } else {
            "pending"@
        }),
        r.document_duration_ms == document_duration_ms,
        r.queue_duration_ms == queue_duration_ms,
{
    let engine = match setting {
        GraphSetting::Disabled => "disabled",
        GraphSetting::Grafeo => "grafeo",
        GraphSetting::Surrealdb => "surrealdb",
    };
    let status = if setting == GraphSetting::Disabled {
        "disabled"
    } else {
        "pending"
    };
    GraphMutationSummary {
        invalidated_semantic_relations: 0,
        engine: owned(engine),
        status: owned(status),
        document_duration_ms,
        queue_duration_ms,
    }
}

} // verus!
