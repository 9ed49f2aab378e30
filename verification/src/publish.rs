//! Publishing a changeset into the live store, and taking one back from a whole
//! snapshot.
use crate::changeset_log;
use crate::changeset_log::{
    encode_documents, encode_remaps, ChangesetCommitState, ChangesetRollbackState, CommitView,
    RollbackView,
};
use crate::changesets;
use crate::changesets::operations_since;
use crate::error;
use crate::error::{AppError, AppErrorView, ErrorCode};
use crate::indexing;
use crate::indexing::refuse_spans;
use crate::json;
use crate::json::{Json, JsonView};
use crate::pages::encode_optional;
use crate::rows::{ChangesetRow, ChangesetView, PageRow, PageView};
use crate::sources;
use crate::spans;
use crate::spans::{Segments, SegmentsView};
use crate::sparse_merge;
use crate::sparse_merge::{merge_sparse_candidate, RemapView, SourceIdRemap};
use crate::sparse_rollback;
use crate::sparse_rollback::{index_remaps, ChangesetRollbackInput, RollbackInputView};
use crate::store;
use crate::store::{Store, StoreView};
use crate::table;
use crate::table::{Pair, PairView, Record, Table};
use crate::text;
use crate::text::{
    copy_opt, decimal_text, join2, owned, parse_i64, same_opt, same_text, same_texts,
};
use crate::touched::{keys_of, pairs_of};
use vstd::prelude::*;

verus! {

// ---------------------------------------------------------------------------
// The tables of a store
// ---------------------------------------------------------------------------

/// The tables of a store of this format, by name.
pub open spec fn inventory() -> Seq<Seq<char>> {
    seq![
        "agent_plan_tracks"@,
        "agent_todo_tracks"@,
        "changesets"@,
        "discussion_bindings"@,
        "discussion_revisions"@,
        "discussions"@,
        "ingest_jobs"@,
        "links"@,
        "memory_changes"@,
        "memory_events"@,
        "memory_evidence"@,
        "memory_feedback"@,
        "memory_fragments"@,
        "memory_fts"@,
        "memory_fts_config"@,
        "memory_fts_content"@,
        "memory_fts_data"@,
        "memory_fts_docsize"@,
        "memory_fts_idx"@,
        "memory_hint_state"@,
        "memory_relations"@,
        "memory_state"@,
        "meta"@,
        "operations"@,
        "page_provenance"@,
        "page_sources"@,
        "page_tags"@,
        "pages"@,
        "plan_constraints"@,
        "plan_fts"@,
        "plan_fts_config"@,
        "plan_fts_content"@,
        "plan_fts_data"@,
        "plan_fts_docsize"@,
        "plan_fts_idx"@,
        "plan_history"@,
        "plan_steps"@,
        "plan_tags"@,
        "plans"@,
        "retrieval_feedback"@,
        "retrieval_weights"@,
        "search_fts"@,
        "search_fts_config"@,
        "search_fts_content"@,
        "search_fts_data"@,
        "search_fts_docsize"@,
        "search_fts_idx"@,
        "search_spans"@,
        "semantic_relations"@,
        "source_path_revisions"@,
        "sources"@,
        "span_fts"@,
        "span_fts_config"@,
        "span_fts_content"@,
        "span_fts_data"@,
        "span_fts_docsize"@,
        "span_fts_idx"@,
        "tags"@,
        "todo_fts"@,
        "todo_fts_config"@,
        "todo_fts_content"@,
        "todo_fts_data"@,
        "todo_fts_docsize"@,
        "todo_fts_idx"@,
        "todo_items"@,
        "todo_tags"@,
    ]
}

fn list_inventory() -> (r: Vec<String>)
    ensures
        text::views(r@) == inventory(),
{
    let mut out: Vec<String> = Vec::new();
    out.push(owned("agent_plan_tracks"));
    out.push(owned("agent_todo_tracks"));
    out.push(owned("changesets"));
    out.push(owned("discussion_bindings"));
    out.push(owned("discussion_revisions"));
    out.push(owned("discussions"));
    out.push(owned("ingest_jobs"));
    out.push(owned("links"));
    out.push(owned("memory_changes"));
    out.push(owned("memory_events"));
    out.push(owned("memory_evidence"));
    out.push(owned("memory_feedback"));
    out.push(owned("memory_fragments"));
    out.push(owned("memory_fts"));
    out.push(owned("memory_fts_config"));
    out.push(owned("memory_fts_content"));
    out.push(owned("memory_fts_data"));
    out.push(owned("memory_fts_docsize"));
    out.push(owned("memory_fts_idx"));
    out.push(owned("memory_hint_state"));
    out.push(owned("memory_relations"));
    out.push(owned("memory_state"));
    out.push(owned("meta"));
    out.push(owned("operations"));
    out.push(owned("page_provenance"));
    out.push(owned("page_sources"));
    out.push(owned("page_tags"));
    out.push(owned("pages"));
    out.push(owned("plan_constraints"));
    out.push(owned("plan_fts"));
    out.push(owned("plan_fts_config"));
    out.push(owned("plan_fts_content"));
    out.push(owned("plan_fts_data"));
    out.push(owned("plan_fts_docsize"));
    out.push(owned("plan_fts_idx"));
    out.push(owned("plan_history"));
    out.push(owned("plan_steps"));
    out.push(owned("plan_tags"));
    out.push(owned("plans"));
    out.push(owned("retrieval_feedback"));
    out.push(owned("retrieval_weights"));
    out.push(owned("search_fts"));
    out.push(owned("search_fts_config"));
    out.push(owned("search_fts_content"));
    out.push(owned("search_fts_data"));
    out.push(owned("search_fts_docsize"));
    out.push(owned("search_fts_idx"));
    out.push(owned("search_spans"));
    out.push(owned("semantic_relations"));
    out.push(owned("source_path_revisions"));
    out.push(owned("sources"));
    out.push(owned("span_fts"));
    out.push(owned("span_fts_config"));
    out.push(owned("span_fts_content"));
    out.push(owned("span_fts_data"));
    out.push(owned("span_fts_docsize"));
    out.push(owned("span_fts_idx"));
    out.push(owned("tags"));
    out.push(owned("todo_fts"));
    out.push(owned("todo_fts_config"));
    out.push(owned("todo_fts_content"));
    out.push(owned("todo_fts_data"));
    out.push(owned("todo_fts_docsize"));
    out.push(owned("todo_fts_idx"));
    out.push(owned("todo_items"));
    out.push(owned("todo_tags"));
    assert(text::views(out@) =~= inventory());
    out
}

/// The tables of a database are those of a store of this format.
pub open spec fn inventory_checked(schema: Seq<char>, actual: Seq<Seq<char>>) -> Result<
    (),
    AppErrorView,
> {
    if actual == inventory() {
        Ok(())
    } else {
        error::refused(
            ErrorCode::ChangesetCorrupt,
            schema + " Wiki table inventory does not match store format v19"@,
        )
    }
}

/// Checks the tables of a database, listed by name.
pub fn validate_changeset_table_inventory(schema: &str, actual: &Vec<String>) -> (r: Result<
    (),
    AppError,
>)
    ensures
        error::outcome(r) == inventory_checked(schema@, text::views(actual@)),
{
    let wanted = list_inventory();
    if same_texts(actual, &wanted) {
        Ok(())
    } else {
        Err(
            AppError::new(
                ErrorCode::ChangesetCorrupt,
                join2(schema, " Wiki table inventory does not match store format v19").as_str(),
            ),
        )
    }
}

// ---------------------------------------------------------------------------
// What differs between two stores
// ---------------------------------------------------------------------------

/// The sources that two stores do not hold alike.
pub open spec fn changed_sources(live: StoreView, other: StoreView) -> Set<i64> {
    Set::new(
        |id: i64|
            (live.sources.dom().contains(id) || other.sources.dom().contains(id)) && !(
            live.sources.dom().contains(id) && other.sources.dom().contains(id) && live.sources[id]
                == other.sources[id]),
    )
}

/// Two pages are alike but for what they cite, their provenance and their links.
pub open spec fn same_page_text(a: PageView, b: PageView) -> bool {
    &&& a.title == b.title
    &&& a.kind == b.kind
    &&& a.summary == b.summary
    &&& a.body == b.body
    &&& a.structural_navigation == b.structural_navigation
    &&& a.created_at == b.created_at
    &&& a.updated_at == b.updated_at
}

/// The pages whose text two stores do not hold alike.
pub open spec fn changed_pages(live: StoreView, other: StoreView) -> Set<Seq<char>> {
    Set::new(
        |slug: Seq<char>|
            (live.pages.dom().contains(slug) || other.pages.dom().contains(slug)) && !(
            live.pages.dom().contains(slug) && other.pages.dom().contains(slug) && same_page_text(
                live.pages[slug],
                other.pages[slug],
            )),
    )
}

fn page_text_same(a: &PageRow, b: &PageRow) -> (r: bool)
    ensures
        r == same_page_text(a@, b@),
{
    same_text(a.title.as_str(), b.title.as_str()) && same_opt(&a.kind, &b.kind) && same_opt(
        &a.summary,
        &b.summary,
    ) && same_text(a.body.as_str(), b.body.as_str()) && a.structural_navigation
        == b.structural_navigation && same_text(a.created_at.as_str(), b.created_at.as_str())
        && same_text(a.updated_at.as_str(), b.updated_at.as_str())
}

/// Marks the sources of one store that another does not hold alike.
fn mark_sources(marks: &mut Table<i64, bool>, one: &Store, other: &Store)
    ensures
        forall|id: i64| #[trigger]
            final(marks)@.dom().contains(id) == (old(marks)@.dom().contains(id) || (
            one@.sources.dom().contains(id) && !(other@.sources.dom().contains(id)
                && one@.sources[id] == other@.sources[id]))),
{
    let ghost start = marks@.dom();
    let n = one.sources.len();
    let ghost keys = one.sources.keys();
    let mut i: usize = 0;
    while i < n
        invariant
            i <= n == keys.len(),
            keys == one.sources.keys(),
            forall|id: i64| #[trigger]
                marks@.dom().contains(id) == (start.contains(id) || (keys.take(i as int).contains(
                    id,
                ) && !(other@.sources.dom().contains(id) && one@.sources[id]
                    == other@.sources[id]))),
        decreases n - i,
    {
        let id = *one.sources.key_at(i);
        let row = one.sources.value_at(i);
        proof {
            table::lemma_take_more(keys, i as int);
        }
        let alike = match other.sources.get(&id) {
            Some(found) => row.same(found),
            None => false,
        };
        if !alike {
            marks.put(id, true);
        }
        i += 1;
    }
    proof {
        assert(keys.take(n as int) =~= keys);
        assert forall|id: i64| #[trigger] keys.contains(id) == one@.sources.dom().contains(id) by {
            assert(keys.to_set().contains(id) == one@.sources.dom().contains(id));
        }
    }
}

/// Marks the pages of one store whose text another does not hold alike.
fn mark_pages(marks: &mut Table<String, bool>, one: &Store, other: &Store)
    ensures
        forall|slug: Seq<char>| #[trigger]
            final(marks)@.dom().contains(slug) == (old(marks)@.dom().contains(slug) || (
            one@.pages.dom().contains(slug) && !(other@.pages.dom().contains(slug)
                && same_page_text(one@.pages[slug], other@.pages[slug])))),
{
    let ghost start = marks@.dom();
    let n = one.pages.len();
    let ghost keys = one.pages.keys();
    let mut i: usize = 0;
    while i < n
        invariant
            i <= n == keys.len(),
            keys == one.pages.keys(),
            forall|slug: Seq<char>| #[trigger]
                marks@.dom().contains(slug) == (start.contains(slug) || (keys.take(
                    i as int,
                ).contains(slug) && !(other@.pages.dom().contains(slug) && same_page_text(
                    one@.pages[slug],
                    other@.pages[slug],
                )))),
        decreases n - i,
    {
        let slug = one.pages.key_at(i);
        let row = one.pages.value_at(i);
        proof {
            table::lemma_take_more(keys, i as int);
        }
        let alike = match other.pages.get(slug) {
            Some(found) => page_text_same(row, found),
            None => false,
        };
        if !alike {
            marks.put(owned(slug.as_str()), true);
        }
        i += 1;
    }
    proof {
        assert(keys.take(n as int) =~= keys);
        assert forall|slug: Seq<char>| #[trigger] keys.contains(slug) == one@.pages.dom().contains(
            slug,
        ) by {
            assert(keys.to_set().contains(slug) == one@.pages.dom().contains(slug));
        }
    }
}

/// The sources and the pages that two stores do not hold alike, each in order.
pub fn changed_search_documents(live: &Store, other: &Store) -> (r: (Vec<i64>, Vec<String>))
    ensures
        r.0@ == table::ordered::<i64>(changed_sources(live@, other@)),
        text::views(r.1@) == table::ordered::<String>(changed_pages(live@, other@)),
{
    let mut ids: Table<i64, bool> = Table::new();
    mark_sources(&mut ids, live, other);
    mark_sources(&mut ids, other, live);
    assert(ids@.dom() =~= changed_sources(live@, other@));
    let mut slugs: Table<String, bool> = Table::new();
    mark_pages(&mut slugs, live, other);
    mark_pages(&mut slugs, other, live);
    assert(slugs@.dom() =~= changed_pages(live@, other@));
    let sources = keys_of(&ids);
    let pages = names_of(&slugs);
    (sources, pages)
}

/// The keys of a table of names, in order.
fn names_of(marks: &Table<String, bool>) -> (r: Vec<String>)
    ensures
        text::views(r@) == table::ordered::<String>(marks@.dom()),
{
    let n = marks.len();
    let ghost keys = marks.keys();
    let mut out: Vec<String> = Vec::new();
    let mut i: usize = 0;
    while i < n
        invariant
            i <= n == keys.len(),
            keys == marks.keys(),
            text::views(out@) =~= keys.take(i as int),
        decreases n - i,
    {
        let name = owned(marks.key_at(i).as_str());
        proof {
            text::lemma_views_push(out@, name);
            assert(keys.take(i + 1) =~= keys.take(i as int).push(keys[i as int]));
        }
        out.push(name);
        i += 1;
    }
    proof {
        assert(keys.take(n as int) =~= keys);
        table::lemma_ordered_is::<String>(keys, marks@.dom());
    }
    out
}

/// Whether a document that differs is to be entered into the text index: it is stored,
/// and the index of the candidate has it; anything else but neither is a fault.
pub fn index_entry_wanted(stored: bool, indexed: bool, page: bool) -> (r: Result<bool, AppError>)
    ensures
        if stored == indexed {
            r == Ok::<bool, AppError>(stored)
        } else {
            r matches Err(e) && e@ == index_mismatch(page)
        },
{
    if stored == indexed {
        Ok(stored)
    } else if page {
        Err(
            AppError::new(
                ErrorCode::ChangesetCorrupt,
                "candidate page and search index do not match",
            ),
        )
    } else {
        Err(
            AppError::new(
                ErrorCode::ChangesetCorrupt,
                "candidate source and search index do not match",
            ),
        )
    }
}

/// The documents of the sources that two stores do not hold alike.
pub open spec fn source_pairs(ids: Seq<i64>) -> Set<PairView>
    decreases ids.len(),
{
    if ids.len() == 0 {
        Set::empty()
    } else {
        source_pairs(ids.drop_last()).insert(sources::source_document(ids.last()))
    }
}

/// The documents of the pages that two stores do not hold alike.
pub open spec fn page_pairs(slugs: Seq<Seq<char>>) -> Set<PairView>
    decreases slugs.len(),
{
    if slugs.len() == 0 {
        Set::empty()
    } else {
        page_pairs(slugs.drop_last()).insert(table::pair("page"@, slugs.last()))
    }
}

/// A set of documents with a source, where there is one.
pub open spec fn with_source(documents: Set<PairView>, id: Option<i64>) -> Set<PairView> {
    match id {
        Some(id) => documents.insert(sources::source_document(id)),
        None => documents,
    }
}

/// The documents of the sources that the first `count` paths show in one store and not
/// in the other.
pub open spec fn head_pairs(
    live: StoreView,
    other: StoreView,
    paths: Seq<Seq<char>>,
    count: nat,
) -> Set<PairView>
    decreases count,
{
    if count == 0 || count > paths.len() {
        Set::empty()
    } else {
        let head = head_pairs(live, other, paths, (count - 1) as nat);
        let a = sources::path_head(live, paths[count - 1]);
        let b = sources::path_head(other, paths[count - 1]);
        if a == b {
            head
        } else {
            with_source(with_source(head, a), b)
        }
    }
}

/// The documents of the sources that paths show in one store and not in the other.
pub open spec fn changed_heads(live: StoreView, other: StoreView) -> Set<PairView> {
    let paths = table::ordered::<String>(live.paths.dom() + other.paths.dom());
    head_pairs(live, other, paths, paths.len())
}

/// The documents that replacing one store by another touches.
pub open spec fn changed_documents(live: StoreView, other: StoreView) -> Set<PairView> {
    source_pairs(table::ordered::<i64>(changed_sources(live, other))) + page_pairs(
        table::ordered::<String>(changed_pages(live, other)),
    ) + changed_heads(live, other)
}

fn mark_source(marks: &mut Table<Pair, bool>, id: Option<i64>)
    ensures
        final(marks)@.dom() == with_source(old(marks)@.dom(), id),
{
    if let Some(id) = id {
        marks.put(Pair::new("source", decimal_text(id).as_str()), true);
    }
}

/// The documents of the sources that paths show in one store and not in the other.
pub fn changed_source_path_head_documents(live: &Store, other: &Store) -> (r: Table<Pair, bool>)
    ensures
        r@.dom() == changed_heads(live@, other@),
{
    let mut all: Table<String, bool> = Table::new();
    all.mark_keys(&live.paths);
    all.mark_keys(&other.paths);
    assert(all@.dom() =~= live@.paths.dom() + other@.paths.dom());
    let ghost paths = table::ordered::<String>(live@.paths.dom() + other@.paths.dom());
    let n = all.len();
    proof {
        table::lemma_ordered_is::<String>(all.keys(), all@.dom());
    }
    let mut marks: Table<Pair, bool> = Table::new();
    let mut i: usize = 0;
    while i < n
        invariant
            i <= n == paths.len(),
            paths == all.keys(),
            marks@.dom() == head_pairs(live@, other@, paths, i as nat),
        decreases n - i,
    {
        let path = all.key_at(i);
        let a = live.source_path_head(path.as_str());
        let b = other.source_path_head(path.as_str());
        let alike = match (a, b) {
            (Some(x), Some(y)) => x == y,
            (None, None) => true,
            _ => false,
        };
        if !alike {
            mark_source(&mut marks, a);
            mark_source(&mut marks, b);
        }
        i += 1;
    }
    marks
}

/// The documents that replacing one store by another touches, in order.
fn list_changed_documents(live: &Store, other: &Store) -> (r: Vec<Pair>)
    ensures
        text::views(r@) == table::ordered::<Pair>(changed_documents(live@, other@)),
{
    let (ids, slugs) = changed_search_documents(live, other);
    let ghost names = text::views(slugs@);
    let mut a: Table<Pair, bool> = Table::new();
    let mut i: usize = 0;
    while i < ids.len()
        invariant
            i <= ids@.len(),
            a@.dom() == source_pairs(ids@.take(i as int)),
        decreases ids@.len() - i,
    {
        assert(ids@.take(i + 1).drop_last() =~= ids@.take(i as int));
        a.put(Pair::new("source", decimal_text(ids[i]).as_str()), true);
        i += 1;
    }
    assert(ids@.take(i as int) =~= ids@);
    let mut b: Table<Pair, bool> = Table::new();
    let mut i: usize = 0;
    while i < slugs.len()
        invariant
            i <= slugs@.len() == names.len(),
            names == text::views(slugs@),
            b@.dom() == page_pairs(names.take(i as int)),
        decreases slugs@.len() - i,
    {
        assert(names.take(i + 1).drop_last() =~= names.take(i as int));
        assert(names.take(i + 1).last() == slugs@[i as int]@);
        b.put(Pair::new("page", slugs[i].as_str()), true);
        i += 1;
    }
    assert(names.take(i as int) =~= names);
    let c = changed_source_path_head_documents(live, other);
    a.mark_keys(&b);
    a.mark_keys(&c);
    pairs_of(&a)
}

// ---------------------------------------------------------------------------
// Replacing one store by another
// ---------------------------------------------------------------------------

pub open spec fn later(a: i64, b: i64) -> i64 {
    if a > b {
        a
    } else {
        b
    }
}

/// The live store with all that another one holds in place of its own, but for its
/// discussions; a freeze of the other does not come along.
pub open spec fn replaced(live: StoreView, other: StoreView) -> StoreView {
    StoreView {
        scope: live.scope,
        database: live.database,
        discussions: live.discussions,
        meta: other.meta.remove("changeset_frozen"@),
        source_sequence: later(live.source_sequence, sources::highest_source(other)),
        operation_sequence: later(live.operation_sequence, store::last_operation_id(other)),
        ..other
    }
}

/// Puts all that another store holds in place of what the live store holds.
pub fn replace_main_from_attached(live: &mut Store, other: &Store)
    ensures
        final(live)@ == replaced(old(live)@, other@),
{
    let mut next = other.duplicate();
    let frozen = owned("changeset_frozen");
    next.meta.remove(&frozen);
    next.scope = owned(live.scope.as_str());
    next.database = owned(live.database.as_str());
    next.discussions = live.discussions.duplicate();
    let highest = other.max_source_id();
    next.source_sequence = if live.source_sequence > highest {
        live.source_sequence
    } else {
        highest
    };
    let newest = other.newest_operation();
    next.operation_sequence = if live.operation_sequence > newest {
        live.operation_sequence
    } else {
        newest
    };
    *live = next;
}

/// The error of a document that only one of a store and its index has.
pub open spec fn index_mismatch(page: bool) -> AppErrorView {
    error::app_error(
        ErrorCode::ChangesetCorrupt,
        if page {
            "candidate page and search index do not match"@
        } else {
            "candidate source and search index do not match"@
        },
    )
}

/// The store with a source cut anew, where it is there. `entries` are the documents that the
/// index of the candidate has: a source that is there must be in it, and no other.
pub open spec fn source_refreshed(
    store: StoreView,
    segments: SegmentsView,
    entries: Set<PairView>,
    id: i64,
) -> Result<StoreView, AppErrorView> {
    let name = text::decimal(id as int);
    let stored = store.sources.dom().contains(id);
    if stored != entries.contains(table::pair("source"@, name)) {
        Err(index_mismatch(false))
    } else if stored {
        spans::indexed(store, segments, "source"@, name, store.sources[id].content)
    } else {
        Ok(store)
    }
}

/// The store with a page cut anew, where it is there.
pub open spec fn page_refreshed(
    store: StoreView,
    segments: SegmentsView,
    entries: Set<PairView>,
    slug: Seq<char>,
) -> Result<StoreView, AppErrorView> {
    let stored = store.pages.dom().contains(slug);
    if stored != entries.contains(table::pair("page"@, slug)) {
        Err(index_mismatch(true))
    } else if stored {
        spans::indexed(store, segments, "page"@, slug, store.pages[slug].body)
    } else {
        Ok(store)
    }
}

/// The store with the first `count` of these sources cut anew, where they are there.
pub open spec fn sources_refreshed(
    store: StoreView,
    segments: SegmentsView,
    entries: Set<PairView>,
    ids: Seq<i64>,
    count: nat,
) -> Result<StoreView, AppErrorView>
    decreases count,
{
    if count == 0 || count > ids.len() {
        Ok(store)
    } else {
        match sources_refreshed(store, segments, entries, ids, (count - 1) as nat) {
            Err(e) => Err(e),
            Ok(so_far) => source_refreshed(so_far, segments, entries, ids[count - 1]),
        }
    }
}

/// The store with the first `count` of these pages cut anew, where they are there.
pub open spec fn pages_refreshed(
    store: StoreView,
    segments: SegmentsView,
    entries: Set<PairView>,
    slugs: Seq<Seq<char>>,
    count: nat,
) -> Result<StoreView, AppErrorView>
    decreases count,
{
    if count == 0 || count > slugs.len() {
        Ok(store)
    } else {
        match pages_refreshed(store, segments, entries, slugs, (count - 1) as nat) {
            Err(e) => Err(e),
            Ok(so_far) => page_refreshed(so_far, segments, entries, slugs[count - 1]),
        }
    }
}

/// The live store with all that another one holds in place of its own, and with every document
/// that this changed cut anew. It is refused where an active span of the other cannot be
/// indexed.
pub open spec fn taken_over(
    live: StoreView,
    other: StoreView,
    segments: SegmentsView,
    entries: Set<PairView>,
) -> Result<StoreView, AppErrorView> {
    let bare = replaced(live, other);
    let ids = table::ordered::<i64>(changed_sources(live, other));
    let slugs = table::ordered::<String>(changed_pages(live, other));
    match indexing::spans_refused(bare, segments) {
        Some(e) => Err(e),
        None => match sources_refreshed(bare, segments, entries, ids, ids.len()) {
            Err(e) => Err(e),
            Ok(next) => pages_refreshed(next, segments, entries, slugs, slugs.len()),
        },
    }
}

proof fn lemma_sources_refreshed(
    store: StoreView,
    segments: SegmentsView,
    entries: Set<PairView>,
    ids: Seq<i64>,
    count: nat,
    more: nat,
)
    requires
        count <= more <= ids.len(),
    ensures
        sources_refreshed(store, segments, entries, ids, count) matches Ok(next) ==> next == (
        StoreView { spans: next.spans, ..store }),
        sources_refreshed(store, segments, entries, ids, count) is Err ==> sources_refreshed(
            store,
            segments,
            entries,
            ids,
            more,
        ) == sources_refreshed(store, segments, entries, ids, count),
    decreases more,
{
    if count < more {
        lemma_sources_refreshed(store, segments, entries, ids, count, (more - 1) as nat);
    } else if count > 0 {
        let less = (count - 1) as nat;
        lemma_sources_refreshed(store, segments, entries, ids, less, less);
    }
}

proof fn lemma_pages_refreshed(
    store: StoreView,
    segments: SegmentsView,
    entries: Set<PairView>,
    slugs: Seq<Seq<char>>,
    count: nat,
    more: nat,
)
    requires
        count <= more <= slugs.len(),
    ensures
        pages_refreshed(store, segments, entries, slugs, count) matches Ok(next) ==> next == (
        StoreView { spans: next.spans, ..store }),
        pages_refreshed(store, segments, entries, slugs, count) is Err ==> pages_refreshed(
            store,
            segments,
            entries,
            slugs,
            more,
        ) == pages_refreshed(store, segments, entries, slugs, count),
    decreases more,
{
    if count < more {
        lemma_pages_refreshed(store, segments, entries, slugs, count, (more - 1) as nat);
    } else if count > 0 {
        let less = (count - 1) as nat;
        lemma_pages_refreshed(store, segments, entries, slugs, less, less);
    }
}

/// Cutting the changed documents anew changes the spans alone.
pub proof fn lemma_taken_over(
    live: StoreView,
    other: StoreView,
    segments: SegmentsView,
    entries: Set<PairView>,
)
    ensures
        taken_over(live, other, segments, entries) matches Ok(next) ==> next == (StoreView {
            spans: next.spans,
            ..replaced(live, other)
        }),
{
    let bare = replaced(live, other);
    let ids = table::ordered::<i64>(changed_sources(live, other));
    let slugs = table::ordered::<String>(changed_pages(live, other));
    lemma_sources_refreshed(bare, segments, entries, ids, ids.len(), ids.len());
    if let Ok(next) = sources_refreshed(bare, segments, entries, ids, ids.len()) {
        lemma_pages_refreshed(next, segments, entries, slugs, slugs.len(), slugs.len());
    }
}

/// Cuts a source anew, where it is there, in a store that is given up on an error.
fn refresh_source(live: &mut Store, segments: &Segments, entries: &Table<Pair, bool>, id: i64)
    -> (r: Result<(), AppError>)
    ensures
        match source_refreshed(old(live)@, segments@, entries@.dom(), id) {
            Ok(next) => r is Ok && final(live)@ == next,
            Err(e) => r matches Err(got) && got@ == e,
        },
{
    let name = decimal_text(id);
    let content = match live.sources.get(&id) {
        Some(source) => Some(owned(source.content.as_str())),
        None => None,
    };
    let there = entries.has(&Pair::new("source", name.as_str()));
    match index_entry_wanted(content.is_some(), there, false) {
        Err(e) => Err(e),
        Ok(_) => match content {
            Some(content) => live.index_spans(
                segments,
                "source",
                name.as_str(),
                content.as_str(),
            ),
            None => Ok(()),
        },
    }
}

/// Cuts a page anew, where it is there, in a store that is given up on an error.
fn refresh_page(live: &mut Store, segments: &Segments, entries: &Table<Pair, bool>, slug: &String)
    -> (r: Result<(), AppError>)
    ensures
        match page_refreshed(old(live)@, segments@, entries@.dom(), slug@) {
            Ok(next) => r is Ok && final(live)@ == next,
            Err(e) => r matches Err(got) && got@ == e,
        },
{
    let body = match live.pages.get(slug) {
        Some(page) => Some(owned(page.body.as_str())),
        None => None,
    };
    let there = entries.has(&Pair::new("page", slug.as_str()));
    match index_entry_wanted(body.is_some(), there, true) {
        Err(e) => Err(e),
        Ok(_) => match body {
            Some(body) => live.index_spans(segments, "page", slug.as_str(), body.as_str()),
            None => Ok(()),
        },
    }
}

/// Cuts the changed documents of a store anew that is given up on an error.
fn refresh_changed_search_documents(
    live: &mut Store,
    segments: &Segments,
    entries: &Table<Pair, bool>,
    ids: &Vec<i64>,
    slugs: &Vec<String>,
) -> (r: Result<(), AppError>)
    ensures
        match sources_refreshed(old(live)@, segments@, entries@.dom(), ids@, ids@.len()) {
            Err(e) => r matches Err(got) && got@ == e,
            Ok(between) => match pages_refreshed(
                between,
                segments@,
                entries@.dom(),
                text::views(slugs@),
                slugs@.len(),
            ) {
                Ok(next) => r is Ok && final(live)@ == next,
                Err(e) => r matches Err(got) && got@ == e,
            },
        },
{
    let ghost start = live@;
    let ghost known = entries@.dom();
    let mut i: usize = 0;
    while i < ids.len()
        invariant
            i <= ids@.len(),
            known == entries@.dom(),
            sources_refreshed(start, segments@, known, ids@, i as nat) == Ok::<
                StoreView,
                AppErrorView,
            >(live@),
        decreases ids@.len() - i,
    {
        proof {
            lemma_sources_refreshed(start, segments@, known, ids@, (i + 1) as nat, ids@.len());
        }
        if let Err(e) = refresh_source(live, segments, entries, ids[i]) {
            return Err(e);
        }
        i += 1;
    }
    let ghost between = live@;
    let ghost names = text::views(slugs@);
    let mut i: usize = 0;
    while i < slugs.len()
        invariant
            i <= slugs@.len() == names.len(),
            names == text::views(slugs@),
            known == entries@.dom(),
            pages_refreshed(between, segments@, known, names, i as nat) == Ok::<
                StoreView,
                AppErrorView,
            >(live@),
        decreases slugs@.len() - i,
    {
        assert(names[i as int] == slugs@[i as int]@);
        proof {
            lemma_pages_refreshed(between, segments@, known, names, (i + 1) as nat, names.len());
        }
        if let Err(e) = refresh_page(live, segments, entries, &slugs[i]) {
            return Err(e);
        }
        i += 1;
    }
    Ok(())
}

/// Puts all that another store holds in place of what a store holds that is given up on an
/// error, and cuts what this changed anew.
fn take_over(live: &mut Store, other: &Store, segments: &Segments, entries: &Table<Pair, bool>)
    -> (r: Result<(), AppError>)
    ensures
        match taken_over(old(live)@, other@, segments@, entries@.dom()) {
            Ok(next) => r is Ok && final(live)@ == next,
            Err(e) => r matches Err(got) && got@ == e,
        },
{
    let (ids, slugs) = changed_search_documents(live, other);
    assert(text::views(slugs@).len() == slugs@.len());
    replace_main_from_attached(live, other);
    if let Some(e) = refuse_spans(live, segments) {
        return Err(e);
    }
    refresh_changed_search_documents(live, segments, entries, &ids, &slugs)
}

// ---------------------------------------------------------------------------
// Publishing
// ---------------------------------------------------------------------------

/// The request to publish a draft, with what was seen of it before.
pub struct ChangesetPublishInput {
    pub id: String,
    pub name: String,
    pub store_id: String,
    pub base_revision: String,
    pub draft_revision: String,
    pub draft_operation_id: i64,
    pub staged_operation_count: usize,
    pub checkpoint: String,
    pub lint_issues: usize,
    pub lint_override_reason: Option<String>,
    pub graph_documents: Vec<Pair>,
}

#[verifier::ext_equal]
pub struct PublishView {
    pub id: Seq<char>,
    pub name: Seq<char>,
    pub store_id: Seq<char>,
    pub base_revision: Seq<char>,
    pub draft_revision: Seq<char>,
    pub draft_operation_id: i64,
    pub staged_operation_count: usize,
    pub checkpoint: Seq<char>,
    pub lint_issues: usize,
    pub lint_override_reason: Option<Seq<char>>,
    pub graph_documents: Seq<PairView>,
}

impl View for ChangesetPublishInput {
    type V = PublishView;

    open spec fn view(&self) -> PublishView {
        PublishView {
            id: self.id@,
            name: self.name@,
            store_id: self.store_id@,
            base_revision: self.base_revision@,
            draft_revision: self.draft_revision@,
            draft_operation_id: self.draft_operation_id,
            staged_operation_count: self.staged_operation_count,
            checkpoint: self.checkpoint@,
            lint_issues: self.lint_issues,
            lint_override_reason: text::opt_text(self.lint_override_reason),
            graph_documents: text::views(self.graph_documents@),
        }
    }
}

/// What stands in the way of publishing a draft.
pub open spec fn publish_refusal(live: StoreView, draft: StoreView, input: PublishView) -> Option<
    AppErrorView,
> {
    match store::live_identity(live) {
        Err(e) => Some(e),
        Ok(identity) => if identity.store_id != input.store_id {
            Some(
                error::app_error(
                    ErrorCode::ChangesetScopeMismatch,
                    "changeset is not bound to this live Wiki"@,
                ),
            )
        } else {
            match store::draft_identity(draft) {
                Err(e) => Some(e),
                Ok(candidate) => if candidate.store_id != input.store_id {
                    Some(
                        error::app_error(
                            ErrorCode::ChangesetScopeMismatch,
                            "draft changeset is not bound to this live Wiki"@,
                        ),
                    )
                } else if candidate.revision != input.draft_revision || candidate.operation_id
                    != input.draft_operation_id {
                    Some(
                        error::app_error(
                            ErrorCode::ChangesetChanged,
                            "draft changeset changed during commit preflight"@,
                        ),
                    )
                } else if !draft.changesets.dom().contains(input.id)
                    || draft.changesets[input.id].name != input.name {
                    Some(
                        error::app_error(
                            ErrorCode::ChangesetChanged,
                            "draft changeset identity disappeared during commit"@,
                        ),
                    )
                } else if draft.changesets[input.id].status != "draft"@
                    || draft.changesets[input.id].base_revision != input.base_revision {
                    Some(
                        error::app_error(
                            ErrorCode::ChangesetChanged,
                            "draft changeset metadata changed during commit"@,
                        ),
                    )
                } else if store::operations_after(
                    draft.operations,
                    draft.changesets[input.id].begin_operation_id,
                ).len() != input.staged_operation_count {
                    Some(
                        error::app_error(
                            ErrorCode::ChangesetChanged,
                            "draft changeset operations changed during commit"@,
                        ),
                    )
                } else {
                    None
                },
            }
        },
    }
}

/// A document of a draft under the identifier that it has in the live store.
pub open spec fn document_moved(document: PairView, ids: Map<i64, i64>) -> PairView {
    if document.first != "source"@ {
        document
    } else {
        match text::reads_as_i64(document.second) {
            Some(id) => if ids.dom().contains(id as i64) {
                table::pair("source"@, text::decimal(ids[id as i64] as int))
            } else {
                document
            },
            None => document,
        }
    }
}

/// The documents of a draft under the identifiers that they have in the live store.
pub open spec fn documents_moved(documents: Seq<PairView>, ids: Map<i64, i64>) -> Set<PairView>
    decreases documents.len(),
{
    if documents.len() == 0 {
        Set::empty()
    } else {
        documents_moved(documents.drop_last(), ids).insert(document_moved(documents.last(), ids))
    }
}

/// What the log says of a published changeset.
pub open spec fn commit_detail(
    input: PublishView,
    remaps: Seq<RemapView>,
    documents: Seq<PairView>,
) -> JsonView {
    JsonView::Object(
        seq![
            json::entry("base_revision"@, JsonView::Text(input.base_revision)),
            json::entry("checkpoint"@, JsonView::Text(input.checkpoint)),
            json::entry("graph_documents"@, changeset_log::documents_json(documents)),
            json::entry("lint_issues"@, json::count_view(input.lint_issues as nat)),
            json::entry(
                "lint_override_reason"@,
                spans::optional_text_json(input.lint_override_reason),
            ),
            json::entry("name"@, JsonView::Text(input.name)),
            json::entry("source_id_remap"@, changeset_log::remaps_json(remaps)),
            json::entry(
                "staged_operation_count"@,
                json::count_view(input.staged_operation_count as nat),
            ),
        ],
    )
}

/// The live store with the content of a draft. `entries` are the documents that the index of a
/// draft has which is a copy of the whole.
pub open spec fn content_published(
    live: StoreView,
    draft: StoreView,
    segments: SegmentsView,
    entries: Set<PairView>,
    begin_operation_id: i64,
    now: Seq<char>,
    revision: Seq<char>,
) -> Result<sparse_merge::MergedView, AppErrorView> {
    if store::meta_value(draft, "changeset_storage"@) == Some("sparse-v1"@) {
        sparse_merge::merge_goal(live, draft, segments, begin_operation_id, true, now, revision)
    } else {
        match taken_over(live, draft, segments, entries) {
            Err(e) => Err(e),
            Ok(store) => Ok(sparse_merge::MergedView { store, remaps: Seq::empty() }),
        }
    }
}

/// The store with a changeset marked as committed; it is entered where it is not there.
pub open spec fn marked_committed(
    store: StoreView,
    input: PublishView,
    draft_row: ChangesetView,
    now: Seq<char>,
    revision: Seq<char>,
) -> Result<StoreView, AppErrorView> {
    let fresh = ChangesetView {
        name: input.name,
        status: "draft"@,
        base_revision: input.base_revision,
        base_operation_id: draft_row.base_operation_id,
        begin_operation_id: draft_row.begin_operation_id,
        pre_commit_checkpoint: None,
        post_revision: None,
        created_at: now,
        committed_at: None,
        rolled_back_at: None,
    };
    if !store.changesets.dom().contains(input.id) && !changesets::draft_fits(
        store,
        input.id,
        fresh,
    ) {
        Err(changesets::check_failed())
    } else {
        let row = if store.changesets.dom().contains(input.id) {
            store.changesets[input.id]
        } else {
            fresh
        };
        if row.status != "draft"@ {
            error::refused(
                ErrorCode::ChangesetChanged,
                "draft changeset could not be marked committed"@,
            )
        } else {
            Ok(
                StoreView {
                    changesets: store.changesets.insert(
                        input.id,
                        ChangesetView {
                            status: "committed"@,
                            pre_commit_checkpoint: Some(input.checkpoint),
                            post_revision: Some(revision),
                            committed_at: Some(now),
                            ..row
                        },
                    ),
                    ..store
                },
            )
        }
    }
}

/// A published changeset, and the store after it.
#[verifier::ext_equal]
pub struct PublishedView {
    pub store: StoreView,
    pub state: CommitView,
}

/// What publishing a draft comes to.
pub open spec fn publish_goal(
    live: StoreView,
    draft: StoreView,
    segments: SegmentsView,
    entries: Set<PairView>,
    input: PublishView,
    now: Seq<char>,
    revision: Seq<char>,
) -> Result<PublishedView, AppErrorView> {
    match publish_refusal(live, draft, input) {
        Some(e) => Err(e),
        None => {
            let row = draft.changesets[input.id];
            match content_published(
                live,
                draft,
                segments,
                entries,
                row.begin_operation_id,
                now,
                revision,
            ) {
                Err(e) => Err(e),
                Ok(merged) => {
                    let ids = sparse_rollback::moved_ids(merged.remaps, merged.remaps.len());
                    let documents = table::ordered::<Pair>(
                        documents_moved(input.graph_documents, ids),
                    );
                    match store::recorded(
                        merged.store,
                        "changeset_commit"@,
                        input.id,
                        commit_detail(input, merged.remaps, documents),
                        now,
                        revision,
                    ) {
                        Err(e) => Err(e),
                        Ok(noted) => match marked_committed(noted, input, row, now, revision) {
                            Err(e) => Err(e),
                            Ok(next) => Ok(
                                PublishedView {
                                    store: next,
                                    state: CommitView {
                                        changeset_id: input.id,
                                        name: input.name,
                                        base_revision: input.base_revision,
                                        post_revision: revision,
                                        checkpoint: input.checkpoint,
                                        staged_operation_count: input.staged_operation_count,
                                        lint_issues: input.lint_issues,
                                        source_id_remap: merged.remaps,
                                        graph_documents: documents,
                                    },
                                },
                            ),
                        },
                    }
                },
            }
        },
    }
}

fn find_publish_refusal(live: &Store, draft: &Store, input: &ChangesetPublishInput) -> (r: Option<
    AppError,
>)
    ensures
        text::opt_view(r) == publish_refusal(live@, draft@, input@),
{
    let identity = match live.identity() {
        Ok(identity) => identity,
        Err(e) => {
            return Some(e);
        },
    };
    if !same_text(identity.store_id.as_str(), input.store_id.as_str()) {
        return Some(
            AppError::new(
                ErrorCode::ChangesetScopeMismatch,
                "changeset is not bound to this live Wiki",
            ),
        );
    }
    let candidate = match draft.identify(ErrorCode::ChangesetCorrupt, "draft") {
        Ok(candidate) => candidate,
        Err(e) => {
            return Some(e);
        },
    };
    if !same_text(candidate.store_id.as_str(), input.store_id.as_str()) {
        return Some(
            AppError::new(
                ErrorCode::ChangesetScopeMismatch,
                "draft changeset is not bound to this live Wiki",
            ),
        );
    }
    if !same_text(candidate.revision.as_str(), input.draft_revision.as_str())
        || candidate.operation_id != input.draft_operation_id {
        return Some(
            AppError::new(
                ErrorCode::ChangesetChanged,
                "draft changeset changed during commit preflight",
            ),
        );
    }
    let gone = AppError::new(
        ErrorCode::ChangesetChanged,
        "draft changeset identity disappeared during commit",
    );
    let row = match draft.changesets.get(&input.id) {
        Some(row) => row,
        None => {
            return Some(gone);
        },
    };
    if !same_text(row.name.as_str(), input.name.as_str()) {
        return Some(gone);
    }
    if !same_text(row.status.as_str(), "draft") || !same_text(
        row.base_revision.as_str(),
        input.base_revision.as_str(),
    ) {
        return Some(
            AppError::new(
                ErrorCode::ChangesetChanged,
                "draft changeset metadata changed during commit",
            ),
        );
    }
    let staged = operations_since(&draft.operations, row.begin_operation_id);
    assert(text::views(staged@).len() == staged@.len());
    if staged.len() != input.staged_operation_count {
        return Some(
            AppError::new(
                ErrorCode::ChangesetChanged,
                "draft changeset operations changed during commit",
            ),
        );
    }
    None
}

fn move_document(document: &Pair, ids: &Table<i64, i64>) -> (r: Pair)
    ensures
        r@ == document_moved(document@, ids@),
{
    let same = Pair::new(document.first.as_str(), document.second.as_str());
    if !same_text(document.first.as_str(), "source") {
        return same;
    }
    match parse_i64(document.second.as_str()) {
        Some(id) => match ids.get(&id) {
            Some(at) => Pair::new("source", decimal_text(*at).as_str()),
            None => same,
        },
        None => same,
    }
}

fn move_documents(documents: &Vec<Pair>, ids: &Table<i64, i64>) -> (r: Vec<Pair>)
    ensures
        text::views(r@) == table::ordered::<Pair>(
            documents_moved(text::views(documents@), ids@),
        ),
{
    let ghost all = text::views(documents@);
    let mut marks: Table<Pair, bool> = Table::new();
    let mut i: usize = 0;
    while i < documents.len()
        invariant
            i <= documents@.len() == all.len(),
            all == text::views(documents@),
            marks@.dom() == documents_moved(all.take(i as int), ids@),
        decreases documents@.len() - i,
    {
        assert(all.take(i + 1).drop_last() =~= all.take(i as int));
        assert(all.take(i + 1).last() == documents@[i as int]@);
        marks.put(move_document(&documents[i], ids), true);
        i += 1;
    }
    assert(all.take(i as int) =~= all);
    pairs_of(&marks)
}

fn encode_commit(input: &ChangesetPublishInput, remaps: &Vec<SourceIdRemap>, documents: &Vec<Pair>)
    -> (r: Json)
    ensures
        r@ == commit_detail(input@, text::views(remaps@), text::views(documents@)),
{
    let ghost goal = commit_detail(input@, text::views(remaps@), text::views(documents@));
    let mut entries: Vec<(String, Json)> = Vec::new();
    entries.push((owned("base_revision"), Json::text(input.base_revision.as_str())));
    entries.push((owned("checkpoint"), Json::text(input.checkpoint.as_str())));
    entries.push((owned("graph_documents"), encode_documents(documents)));
    entries.push((owned("lint_issues"), Json::count(input.lint_issues)));
    entries.push((owned("lint_override_reason"), encode_optional(&input.lint_override_reason)));
    entries.push((owned("name"), Json::text(input.name.as_str())));
    entries.push((owned("source_id_remap"), encode_remaps(remaps)));
    entries.push((owned("staged_operation_count"), Json::count(input.staged_operation_count)));
    assert(json::entry_views(entries@) =~= goal->Object_0);
    Json::object(entries)
}

/// Puts the content of a draft into a store that is given up on an error.
fn publish_content(
    live: &mut Store,
    draft: &Store,
    segments: &Segments,
    entries: &Table<Pair, bool>,
    begin_operation_id: i64,
    now: &str,
    revision: &str,
) -> (r: Result<Vec<SourceIdRemap>, AppError>)
    ensures
        match content_published(
            old(live)@,
            draft@,
            segments@,
            entries@.dom(),
            begin_operation_id,
            now@,
            revision@,
        ) {
            Ok(done) => (r matches Ok(got) && text::views(got@) == done.remaps) && final(live)@
                == done.store,
            Err(e) => r matches Err(got) && got@ == e,
        },
{
    let sparse = match draft.changeset_storage_kind() {
        Some(kind) => same_text(kind.as_str(), "sparse-v1"),
        None => false,
    };
    if sparse {
        return merge_sparse_candidate(
            live,
            draft,
            segments,
            begin_operation_id,
            true,
            now,
            revision,
        );
    }
    if let Err(e) = take_over(live, draft, segments, entries) {
        return Err(e);
    }
    let none: Vec<SourceIdRemap> = Vec::new();
    assert(text::views(none@) =~= Seq::empty());
    Ok(none)
}

/// Marks a changeset as committed in a store that is given up on an error.
fn mark_committed(
    live: &mut Store,
    input: &ChangesetPublishInput,
    draft_row: &ChangesetRow,
    now: &str,
    revision: &str,
) -> (r: Result<(), AppError>)
    ensures
        match marked_committed(old(live)@, input@, draft_row@, now@, revision@) {
            Ok(next) => r is Ok && final(live)@ == next,
            Err(e) => r matches Err(got) && got@ == e,
        },
{
    let known = match live.changesets.get(&input.id) {
        Some(row) => Some(row.duplicate()),
        None => None,
    };
    let row = match known {
        Some(row) => row,
        None => {
            let fresh = ChangesetRow {
                name: owned(input.name.as_str()),
                status: owned("draft"),
                base_revision: owned(input.base_revision.as_str()),
                base_operation_id: draft_row.base_operation_id,
                begin_operation_id: draft_row.begin_operation_id,
                pre_commit_checkpoint: None,
                post_revision: None,
                created_at: owned(now),
                committed_at: None,
                rolled_back_at: None,
            };
            if !changesets::fits_as_draft(live, input.id.as_str(), &fresh) {
                return Err(AppError::new(ErrorCode::DatabaseError, "CHECK constraint failed"));
            }
            fresh
        },
    };
    if !same_text(row.status.as_str(), "draft") {
        return Err(
            AppError::new(
                ErrorCode::ChangesetChanged,
                "draft changeset could not be marked committed",
            ),
        );
    }
    let mut row = row;
    row.status = owned("committed");
    row.pre_commit_checkpoint = Some(owned(input.checkpoint.as_str()));
    row.post_revision = Some(owned(revision));
    row.committed_at = Some(owned(now));
    live.changesets.put(owned(input.id.as_str()), row);
    Ok(())
}

impl Store {
    /// Publishes the draft of another store into this one. `entries` are the documents that
    /// the text index of the draft has.
    pub fn changeset_publish(
        &mut self,
        draft: &Store,
        segments: &Segments,
        entries: &Table<Pair, bool>,
        input: &ChangesetPublishInput,
        now: &str,
        revision: &str,
    ) -> (r: Result<ChangesetCommitState, AppError>)
        ensures
            match publish_goal(
                old(self)@,
                draft@,
                segments@,
                entries@.dom(),
                input@,
                now@,
                revision@,
            ) {
                Ok(done) => (r matches Ok(got) && got@ == done.state) && final(self)@
                    == done.store,
                Err(e) => (r matches Err(got) && got@ == e) && final(self)@ == old(self)@,
            },
    {
        if let Some(e) = find_publish_refusal(self, draft, input) {
            return Err(e);
        }
        let row = match draft.changesets.get(&input.id) {
            Some(row) => row,
            None => {
                return Err(store::no_rows_error());
            },
        };
        let mut next = self.duplicate();
        let remaps = match publish_content(
            &mut next,
            draft,
            segments,
            entries,
            row.begin_operation_id,
            now,
            revision,
        ) {
            Ok(remaps) => remaps,
            Err(e) => {
                return Err(e);
            },
        };
        assert(text::views(remaps@).len() == remaps@.len());
        let ids = index_remaps(&remaps);
        let documents = move_documents(&input.graph_documents, &ids);
        let detail = encode_commit(input, &remaps, &documents);
        if let Err(e) = next.record_operation(
            "changeset_commit",
            input.id.as_str(),
            detail,
            now,
            revision,
        ) {
            return Err(e);
        }
        if let Err(e) = mark_committed(&mut next, input, row, now, revision) {
            return Err(e);
        }
        *self = next;
        Ok(
            ChangesetCommitState {
                changeset_id: owned(input.id.as_str()),
                name: owned(input.name.as_str()),
                base_revision: owned(input.base_revision.as_str()),
                post_revision: owned(revision),
                checkpoint: owned(input.checkpoint.as_str()),
                staged_operation_count: input.staged_operation_count,
                lint_issues: input.lint_issues,
                source_id_remap: remaps,
                graph_documents: documents,
            },
        )
    }
}

// ---------------------------------------------------------------------------
// Taking a changeset back from a snapshot
// ---------------------------------------------------------------------------

/// What stands in the way of taking a changeset back from a snapshot.
pub open spec fn snapshot_refusal(
    live: StoreView,
    snapshot: StoreView,
    input: RollbackInputView,
) -> Option<AppErrorView> {
    if input.history.post_revision is None {
        Some(
            error::app_error(
                ErrorCode::ChangesetCorrupt,
                "committed changeset has no post revision"@,
            ),
        )
    } else if input.history.pre_commit_checkpoint is None {
        Some(
            error::app_error(
                ErrorCode::ChangesetCorrupt,
                "committed changeset has no pre-commit checkpoint"@,
            ),
        )
    } else {
        match store::live_identity(live) {
            Err(e) => Some(e),
            Ok(identity) => if identity.store_id != input.store_id || Some(identity.revision)
                != input.history.post_revision {
                Some(
                    error::app_error(
                        ErrorCode::ChangesetRollbackConflict,
                        "live Wiki changed after this changeset committed"@,
                    ),
                )
            } else if !sparse_rollback::is_committed_as(live, input.history) {
                Some(
                    error::app_error(
                        ErrorCode::ChangesetRollbackConflict,
                        "changeset history changed before rollback"@,
                    ),
                )
            } else {
                match store::draft_identity(snapshot) {
                    Err(e) => Some(e),
                    Ok(checkpoint) => if checkpoint.store_id != input.store_id
                        || checkpoint.revision != input.history.base_revision
                        || checkpoint.operation_id != input.history.base_operation_id {
                        Some(
                            error::app_error(
                                ErrorCode::ChangesetCorrupt,
                                "pre-commit checkpoint does not match the changeset base"@,
                            ),
                        )
                    } else {
                        None
                    },
                }
            },
        }
    }
}

/// The row of a changeset that was taken back.
pub open spec fn rolled_back_row(input: RollbackInputView, now: Seq<char>) -> ChangesetView {
    ChangesetView {
        name: input.history.name,
        status: "rolled_back"@,
        base_revision: input.history.base_revision,
        base_operation_id: input.history.base_operation_id,
        begin_operation_id: input.history.begin_operation_id,
        pre_commit_checkpoint: input.history.pre_commit_checkpoint,
        post_revision: input.history.post_revision,
        created_at: input.history.created_at,
        committed_at: input.history.committed_at,
        rolled_back_at: Some(now),
    }
}

/// What the log says of a changeset that was taken back from a snapshot.
pub open spec fn snapshot_detail(
    input: RollbackInputView,
    documents: Seq<PairView>,
    revision: Seq<char>,
) -> JsonView {
    JsonView::Object(
        seq![
            json::entry(
                "committed_post_revision"@,
                spans::optional_text_json(input.history.post_revision),
            ),
            json::entry("graph_documents"@, changeset_log::documents_json(documents)),
            json::entry("name"@, JsonView::Text(input.history.name)),
            json::entry(
                "pre_commit_checkpoint"@,
                spans::optional_text_json(input.history.pre_commit_checkpoint),
            ),
            json::entry("pre_rollback_checkpoint"@, JsonView::Text(input.pre_rollback_checkpoint)),
            json::entry("rollback_revision"@, JsonView::Text(revision)),
        ],
    )
}

/// What taking a changeset back from a snapshot comes to.
pub open spec fn snapshot_goal(
    live: StoreView,
    snapshot: StoreView,
    segments: SegmentsView,
    entries: Set<PairView>,
    input: RollbackInputView,
    now: Seq<char>,
    revision: Seq<char>,
) -> Result<sparse_rollback::RolledBackView, AppErrorView> {
    match snapshot_refusal(live, snapshot, input) {
        Some(e) => Err(e),
        None => {
            let documents = table::ordered::<Pair>(changed_documents(live, snapshot));
            match taken_over(live, snapshot, segments, entries) {
                Err(e) => Err(e),
                Ok(bare) => if bare.changesets.dom().contains(input.history.id) {
                    Err(sparse_merge::unique_failed())
                } else {
                    match store::recorded(
                        StoreView {
                            changesets: bare.changesets.insert(
                                input.history.id,
                                rolled_back_row(input, now),
                            ),
                            ..bare
                        },
                        "changeset_rollback"@,
                        input.history.id,
                        snapshot_detail(input, documents, revision),
                        now,
                        revision,
                    ) {
                        Err(e) => Err(e),
                        Ok(next) => Ok(
                            sparse_rollback::RolledBackView {
                                store: next,
                                state: RollbackView {
                                    changeset_id: input.history.id,
                                    name: input.history.name,
                                    rollback_revision: revision,
                                    checkpoint: input.pre_rollback_checkpoint,
                                    graph_documents: documents,
                                },
                            },
                        ),
                    }
                },
            }
        },
    }
}

fn find_snapshot_refusal(live: &Store, snapshot: &Store, input: &ChangesetRollbackInput) -> (r: Option<
    AppError,
>)
    ensures
        text::opt_view(r) == snapshot_refusal(live@, snapshot@, input@),
{
    let post_revision = match &input.history.post_revision {
        Some(post_revision) => post_revision,
        None => {
            return Some(
                AppError::new(
                    ErrorCode::ChangesetCorrupt,
                    "committed changeset has no post revision",
                ),
            );
        },
    };
    if input.history.pre_commit_checkpoint.is_none() {
        return Some(
            AppError::new(
                ErrorCode::ChangesetCorrupt,
                "committed changeset has no pre-commit checkpoint",
            ),
        );
    }
    let identity = match live.identity() {
        Ok(identity) => identity,
        Err(e) => {
            return Some(e);
        },
    };
    if !same_text(identity.store_id.as_str(), input.store_id.as_str()) || !same_text(
        identity.revision.as_str(),
        post_revision.as_str(),
    ) {
        return Some(
            AppError::new(
                ErrorCode::ChangesetRollbackConflict,
                "live Wiki changed after this changeset committed",
            ),
        );
    }
    if !sparse_rollback::committed_as(live, &input.history) {
        return Some(
            AppError::new(
                ErrorCode::ChangesetRollbackConflict,
                "changeset history changed before rollback",
            ),
        );
    }
    let checkpoint = match snapshot.identify(ErrorCode::ChangesetCorrupt, "draft") {
        Ok(checkpoint) => checkpoint,
        Err(e) => {
            return Some(e);
        },
    };
    if !same_text(checkpoint.store_id.as_str(), input.store_id.as_str()) || !same_text(
        checkpoint.revision.as_str(),
        input.history.base_revision.as_str(),
    ) || checkpoint.operation_id != input.history.base_operation_id {
        return Some(
            AppError::new(
                ErrorCode::ChangesetCorrupt,
                "pre-commit checkpoint does not match the changeset base",
            ),
        );
    }
    None
}

fn encode_snapshot_rollback(
    input: &ChangesetRollbackInput,
    documents: &Vec<Pair>,
    revision: &str,
) -> (r: Json)
    ensures
        r@ == snapshot_detail(input@, text::views(documents@), revision@),
{
    let ghost goal = snapshot_detail(input@, text::views(documents@), revision@);
    let mut entries: Vec<(String, Json)> = Vec::new();
    entries.push(
        (owned("committed_post_revision"), encode_optional(&input.history.post_revision)),
    );
    entries.push((owned("graph_documents"), encode_documents(documents)));
    entries.push((owned("name"), Json::text(input.history.name.as_str())));
    entries.push(
        (owned("pre_commit_checkpoint"), encode_optional(&input.history.pre_commit_checkpoint)),
    );
    entries.push(
        (owned("pre_rollback_checkpoint"), Json::text(input.pre_rollback_checkpoint.as_str())),
    );
    entries.push((owned("rollback_revision"), Json::text(revision)));
    assert(json::entry_views(entries@) =~= goal->Object_0);
    Json::object(entries)
}

impl Store {
    /// Takes a changeset back by putting the snapshot from before it in place of the
    /// store. `entries` are the documents that the text index of the snapshot has.
    pub fn rollback_attached_changeset(
        &mut self,
        snapshot: &Store,
        segments: &Segments,
        entries: &Table<Pair, bool>,
        input: &ChangesetRollbackInput,
        now: &str,
        revision: &str,
    ) -> (r: Result<ChangesetRollbackState, AppError>)
        ensures
            match snapshot_goal(
                old(self)@,
                snapshot@,
                segments@,
                entries@.dom(),
                input@,
                now@,
                revision@,
            ) {
                Ok(done) => (r matches Ok(got) && got@ == done.state) && final(self)@
                    == done.store,
                Err(e) => (r matches Err(got) && got@ == e) && final(self)@ == old(self)@,
            },
    {
        if let Some(e) = find_snapshot_refusal(self, snapshot, input) {
            return Err(e);
        }
        let documents = list_changed_documents(self, snapshot);
        let mut next = self.duplicate();
        if let Err(e) = take_over(&mut next, snapshot, segments, entries) {
            return Err(e);
        }
        if next.changesets.has(&input.history.id) {
            return Err(AppError::new(ErrorCode::DatabaseError, "UNIQUE constraint failed"));
        }
        next.changesets.put(
            owned(input.history.id.as_str()),
            ChangesetRow {
                name: owned(input.history.name.as_str()),
                status: owned("rolled_back"),
                base_revision: owned(input.history.base_revision.as_str()),
                base_operation_id: input.history.base_operation_id,
                begin_operation_id: input.history.begin_operation_id,
                pre_commit_checkpoint: copy_opt(&input.history.pre_commit_checkpoint),
                post_revision: copy_opt(&input.history.post_revision),
                created_at: owned(input.history.created_at.as_str()),
                committed_at: copy_opt(&input.history.committed_at),
                rolled_back_at: Some(owned(now)),
            },
        );
        let detail = encode_snapshot_rollback(input, &documents, revision);
        if let Err(e) = next.record_operation(
            "changeset_rollback",
            input.history.id.as_str(),
            detail,
            now,
            revision,
        ) {
            return Err(e);
        }
        *self = next;
        Ok(
            ChangesetRollbackState {
                changeset_id: owned(input.history.id.as_str()),
                name: owned(input.history.name.as_str()),
                rollback_revision: owned(revision),
                checkpoint: owned(input.pre_rollback_checkpoint.as_str()),
                graph_documents: documents,
            },
        )
    }
}

} // verus!
