//! What becomes of pages, sources, jobs and weights, in terms of what was there before.
use crate::digest;
use crate::error::ErrorCode;
use crate::ingest;
use crate::json;
use crate::laws;
use crate::markdown;
use crate::pages;
use crate::pages::PagePutView;
use crate::refusals;
use crate::retrieval;
use crate::rows::{FeedbackKeyView, IngestView, PathRevisionView};
use crate::sources;
use crate::sources::{SourceAddView, SourceRecordView};
use crate::spans::SegmentsView;
use crate::store;
use crate::store::StoreView;
use crate::table;
use crate::table::PairView;
use crate::text;
use vstd::prelude::*;

verus! {

// ---------------------------------------------------------------------------
// Pages
// ---------------------------------------------------------------------------

/// The provenance of a page is shown exactly as it is stated, each label once; that it cites
/// sources is told by a label of its own.
pub proof fn law_provenance_is_shown(cites: bool, explicit: Seq<Seq<char>>, label: Seq<char>)
    requires
        forall|k: int|
            0 <= k < explicit.len() ==> #[trigger] explicit[k] == "user-provided"@ || explicit[k]
                == "agent-observed"@ || explicit[k] == "hypothesis"@,
    ensures
        pages::shown_provenance(cites, explicit).contains(label) <==> explicit.contains(label) || (
        cites && label == "source-grounded"@),
        pages::shown_provenance(cites, explicit).no_duplicates(),
{
    reveal_strlit("user-provided");
    reveal_strlit("agent-observed");
    reveal_strlit("hypothesis");
    reveal_strlit("source-grounded");
    assert("user-provided"@.len() == 13 && "agent-observed"@.len() == 14 && "hypothesis"@.len()
        == 10 && "source-grounded"@.len() == 15);
    let a = if cites {
        seq!["source-grounded"@]
    } else {
        Seq::<Seq<char>>::empty()
    };
    let b = pages::where_stated(explicit, "user-provided"@);
    let c = pages::where_stated(explicit, "agent-observed"@);
    let d = pages::where_stated(explicit, "hypothesis"@);
    let all = pages::shown_provenance(cites, explicit);
    assert(all == a + b + c + d);
    if explicit.contains(label) {
        let k = explicit.index_of(label);
        assert(explicit[k] == label);
        if label == "user-provided"@ {
            assert(all[a.len() as int] == label);
        } else if label == "agent-observed"@ {
            assert(all[(a.len() + b.len()) as int] == label);
        } else {
            assert(all[(a.len() + b.len() + c.len()) as int] == label);
        }
    }
    if cites && label == "source-grounded"@ {
        assert(all[0] == label);
    }
    if all.contains(label) {
        let k = all.index_of(label);
        assert(all[k] == label);
    }
}

/// Only three labels can be stated of a page; what is stated is kept, each label once.
pub proof fn law_known_provenance_is_kept(values: Seq<Seq<char>>)
    ensures
        pages::explicit_provenance(values) is Ok <==> forall|k: int|
            0 <= k < values.len() ==> #[trigger] values[k] == "user-provided"@ || values[k]
                == "agent-observed"@ || values[k] == "hypothesis"@,
        pages::explicit_provenance(values) matches Ok(kept) ==> kept.to_set() == values.to_set()
            && kept.no_duplicates(),
        pages::explicit_provenance(values) matches Err(e) ==> e.code
            == ErrorCode::InvalidProvenance,
{
    let ordered = text::sorted(values.to_set());
    table::lemma_texts_sorted(values.to_set());
    lemma_first_unknown(ordered);
    if forall|k: int|
        0 <= k < values.len() ==> #[trigger] values[k] == "user-provided"@ || values[k]
            == "agent-observed"@ || values[k] == "hypothesis"@ {
        if pages::first_unknown(ordered) is Some {
            let value = pages::first_unknown(ordered)->0;
            assert(ordered.to_set().contains(value));
            assert(values.to_set().contains(value));
            let k = values.index_of(value);
            assert(values[k] == value);
        }
    }
    if pages::explicit_provenance(values) is Ok {
        assert forall|k: int| 0 <= k < values.len() implies #[trigger] values[k]
            == "user-provided"@ || values[k] == "agent-observed"@ || values[k]
            == "hypothesis"@ by {
            assert(values.to_set().contains(values[k]));
            assert(ordered.to_set().contains(values[k]));
            assert(ordered.contains(values[k]));
        }
    }
}

proof fn lemma_first_unknown(values: Seq<Seq<char>>)
    ensures
        pages::first_unknown(values) is None ==> forall|value: Seq<char>| #[trigger]
            values.contains(value) ==> value == "user-provided"@ || value == "agent-observed"@
                || value == "hypothesis"@,
        pages::first_unknown(values) matches Some(value) ==> values.contains(value) && value
            != "user-provided"@ && value != "agent-observed"@ && value != "hypothesis"@,
    decreases values.len(),
{
    if values.len() > 0 {
        let rest = values.drop_first();
        lemma_first_unknown(rest);
        if pages::is_explicit(values[0]) {
            if pages::first_unknown(rest) is Some {
                let value = pages::first_unknown(rest)->0;
                let k = rest.index_of(value);
                assert(values[k + 1] == value);
            } else {
                assert forall|value: Seq<char>| #[trigger] values.contains(value) implies value
                    == "user-provided"@ || value == "agent-observed"@ || value
                    == "hypothesis"@ by {
                    let k = values.index_of(value);
                    if k > 0 {
                        assert(rest[k - 1] == value);
                        assert(rest.contains(value));
                    }
                }
            }
        } else {
            assert(values.contains(values[0]));
        }
    }
}

/// A slug is one name that is safe on a file system.
pub proof fn law_slugs_are_safe(slug: Seq<char>)
    ensures
        pages::is_segment(slug) <==> {
            &&& exists|k: int| 0 <= k < slug.len() && !text::is_white(#[trigger] slug[k])
            &&& text::trimmed(slug) == slug
            &&& slug != "."@
            &&& slug != ".."@
            &&& forall|k: int| 0 <= k < slug.len() ==> #[trigger] slug[k] != '/' && slug[k] != '\\'
            &&& !text::has_control(slug)
        },
{
    if slug.contains('/') {
        let k = slug.index_of('/');
        assert(slug[k] == '/');
    }
    if slug.contains('\\') {
        let k = slug.index_of('\\');
        assert(slug[k] == '\\');
    }
}

/// A page that is written where none was says all that was given, cites the sources that were
/// given, and was made and changed now. A page that was there keeps the time when it was made;
/// it is left alone altogether, or says all that was given and was changed now. What was done
/// is in the log, with whether the page is new.
pub proof fn law_page_is_written(
    store: StoreView,
    segments: SegmentsView,
    input: PagePutView,
    seen: Option<Seq<char>>,
    now: Seq<char>,
    revision: Seq<char>,
)
    ensures
        pages::page_put_goal(store, segments, input, seen, now, revision) matches Ok(next) ==> {
            let page = next.pages[input.slug];
            &&& next == store ==> store.pages.dom().contains(input.slug)
            &&& next != store ==> {
                &&& seen == pages::page_version_mark(store, input.slug)
                &&& next.pages.dom().contains(input.slug)
                &&& page.title == input.title
                &&& page.kind == input.kind
                &&& page.summary == input.summary
                &&& page.body == input.body
                &&& page.source_ids.to_set() == input.source_ids.to_set()
                &&& page.source_ids.no_duplicates()
                &&& page.provenance.to_set() == input.provenance.to_set()
                &&& page.links == markdown::page_links(input.body)
                &&& page.updated_at == now
                &&& page.created_at == (if store.pages.dom().contains(input.slug) {
                    store.pages[input.slug].created_at
                } else {
                    now
                })
                &&& next.operations.len() == store.operations.len() + 1
                &&& next.operations.last().action == "page_put"@
                &&& next.operations.last().target == input.slug
                &&& next.operations.last().created_at == now
                &&& forall|k: int|
                    0 <= k < page.source_ids.len() ==> store.sources.dom().contains(
                        #[trigger] page.source_ids[k],
                    )
            }
        },
{
    if let Ok(next) = pages::page_put_goal(store, segments, input, seen, now, revision) {
        let provenance = pages::explicit_provenance(input.provenance)->Ok_0;
        law_known_provenance_is_kept(input.provenance);
        let page = pages::wanted_page(store, input, provenance, now);
        refusals::lemma_distinct(input.source_ids);
        table::lemma_has_order::<i64>(input.source_ids.to_set());
        table::lemma_in_order_distinct::<i64>(page.source_ids);
        if !pages::is_unchanged(store, input.slug, page) {
            let written = pages::page_written(store, segments, input.slug, page)->Ok_0;
            assert(written.pages == store.pages.insert(input.slug, page));
            assert(next.operations.len() == store.operations.len() + 1);
            lemma_none_missing(store, page.source_ids);
        }
    }
}

proof fn lemma_none_missing(store: StoreView, ids: Seq<i64>)
    ensures
        pages::first_missing(store, ids) is None <==> forall|k: int|
            0 <= k < ids.len() ==> store.sources.dom().contains(#[trigger] ids[k]),
        pages::first_missing(store, ids) matches Some(id) ==> ids.contains(id)
            && !store.sources.dom().contains(id),
    decreases ids.len(),
{
    if ids.len() > 0 {
        let rest = ids.drop_first();
        lemma_none_missing(store, rest);
        if store.sources.dom().contains(ids[0]) {
            match pages::first_missing(store, rest) {
                Some(id) => {
                    let k = rest.index_of(id);
                    assert(ids[k + 1] == id);
                },
                None => {
                    assert forall|k: int| 0 <= k < ids.len() implies store.sources.dom().contains(
                        #[trigger] ids[k],
                    ) by {
                        if k > 0 {
                            assert(rest[k - 1] == ids[k]);
                        }
                    }
                },
            }
        } else {
            assert(ids.contains(ids[0]));
        }
    }
}

/// A page that cites a source that is not there is refused.
pub proof fn law_citations_are_there(
    store: StoreView,
    segments: SegmentsView,
    input: PagePutView,
    seen: Option<Seq<char>>,
    now: Seq<char>,
    revision: Seq<char>,
    id: i64,
)
    requires
        !store.pages.dom().contains(input.slug),
        input.source_ids.contains(id),
        !store.sources.dom().contains(id),
    ensures
        pages::page_put_goal(store, segments, input, seen, now, revision) is Err,
{
    if let Ok(next) = pages::page_put_goal(store, segments, input, seen, now, revision) {
        law_page_is_written(store, segments, input, seen, now, revision);
        let page = next.pages[input.slug];
        assert(input.source_ids.to_set().contains(id));
        assert(page.source_ids.to_set().contains(id));
        let k = page.source_ids.index_of(id);
        assert(store.sources.dom().contains(page.source_ids[k]));
    }
}

/// What goes with a page that is removed: its place in every tag, what people and agents said
/// of it, and the use of its spans. Nothing else goes, and the log tells of it.
pub proof fn law_page_goes_with_what_is_its_own(
    store: StoreView,
    slug: Seq<char>,
    now: Seq<char>,
    revision: Seq<char>,
)
    ensures
        pages::page_remove_goal(store, slug, now, revision) matches Ok(next) ==> {
            &&& store.pages.dom().contains(slug)
            &&& next.pages == store.pages.remove(slug)
            &&& next.tags.dom() == store.tags.dom()
            &&& forall|tag: Seq<char>| #[trigger]
                store.tags.dom().contains(tag) ==> {
                    &&& next.tags[tag].policy == store.tags[tag].policy
                    &&& next.tags[tag].members == store.tags[tag].members.remove(slug)
                }
            &&& forall|key: table::TripleView| #[trigger]
                next.weights.dom().contains(key) <==> store.weights.dom().contains(key) && !(
                key.first == "page"@ && key.second == slug)
            &&& forall|key: table::TripleView| #[trigger]
                next.weights.dom().contains(key) ==> next.weights[key] == store.weights[key]
            &&& forall|key: FeedbackKeyView| #[trigger]
                next.feedback.dom().contains(key) <==> store.feedback.dom().contains(key) && !(
                key.target.first == "page"@ && key.target.second == slug)
            &&& next.sources == store.sources
            &&& next.ingest_jobs == store.ingest_jobs
            &&& next.relations == store.relations
            &&& next.operations.len() == store.operations.len() + 1
            &&& next.operations.last().action == "page_remove"@
            &&& next.operations.last().target == slug
        },
{
}

// ---------------------------------------------------------------------------
// Sources
// ---------------------------------------------------------------------------

/// A window on a source shows what stands there, no more than was asked for and no less than
/// there is, and tells where the next one begins. Two windows that follow each other show what
/// one window over both shows.
pub proof fn law_windows_join(source: SourceRecordView, offset: usize, max: Option<usize>)
    requires
        source.content.len() <= usize::MAX,
    ensures
        sources::windowed(source, offset, max) is Ok <==> max != Some(0usize) && offset
            <= source.content.len(),
        sources::windowed(source, offset, max) matches Ok(part) ==> {
            let shown = part.source.content;
            let window = part.window;
            &&& source.content.take(offset as int) + shown == source.content.take(
                offset + shown.len(),
            )
            &&& max matches Some(most) ==> shown.len() <= most
            &&& offset + shown.len() == source.content.len() || max == Some(
                window.returned_chars,
            )
            &&& window.offset_chars == offset
            &&& window.returned_chars == shown.len()
            &&& window.total_chars == source.content.len()
            &&& window.has_more <==> offset + shown.len() < source.content.len()
            &&& window.next_offset_chars is Some <==> window.has_more
            &&& window.has_more ==> window.next_offset_chars->0 == offset + shown.len()
            &&& part.source.id == source.id
            &&& part.source.title == source.title
            &&& part.source.origin == source.origin
            &&& part.source.content_hash == source.content_hash
            &&& part.source.created_at == source.created_at
        },
{
    if let Ok(part) = sources::windowed(source, offset, max) {
        assert(source.content.take(offset as int) + part.source.content =~= source.content.take(
            offset + part.source.content.len(),
        ));
    }
}

/// What is observed at a path stands behind what was observed there before, under the next
/// number, unless it is what the path shows already. Other paths stay as they are.
pub proof fn law_observation_is_kept(
    paths: Map<Seq<char>, Seq<PathRevisionView>>,
    path: Seq<char>,
    source_id: i64,
    at: Seq<char>,
)
    ensures
        sources::observed(paths, path, source_id, at) matches Ok(o) ==> {
            let known = paths.dom().contains(path) && paths[path].len() > 0;
            &&& exists|k: int| 0 <= k < path.len() && !text::is_white(#[trigger] path[k])
            &&& o.advanced <==> !(known && paths[path].last().source_id == source_id)
            &&& !o.advanced ==> o.paths == paths && o.revision == paths[path].last().revision
            &&& o.advanced ==> {
                let more = o.paths[path];
                &&& o.paths.dom() == paths.dom().insert(path)
                &&& more.len() > 0
                &&& more.last().source_id == source_id
                &&& more.last().observed_at == at
                &&& more.last().revision == o.revision
                &&& known ==> more.drop_last() == paths[path] && o.revision
                    == paths[path].last().revision + 1
                &&& !known ==> more.len() == 1 && o.revision == 1
                &&& forall|other: Seq<char>|
                    other != path && #[trigger] paths.dom().contains(other) ==> o.paths[other]
                        == paths[other]
            }
        },
{
    if let Ok(o) = sources::observed(paths, path, source_id, at) {
        assert(!text::is_blank(path));
        if o.advanced {
            let log = sources::path_log(paths, path);
            assert(o.paths[path].drop_last() =~= log);
            assert(o.paths.dom() =~= paths.dom().insert(path));
        }
    }
}

/// A new document is kept as it was given, under a new identifier, and is called by its origin
/// where it has no title. A job waits for it, and its path shows it. A document that is known
/// makes no new source, and keeps the job that it has.
pub proof fn law_document_is_added(
    store: StoreView,
    segments: SegmentsView,
    input: SourceAddView,
    now: Seq<char>,
    revision: Seq<char>,
)
    requires
        store.sources.dom().finite(),
        forall|id: i64| #[trigger] store.sources.dom().contains(id) ==> id <= store.source_sequence,
        forall|id: i64| #[trigger]
            store.ingest_jobs.dom().contains(id) ==> store.sources.dom().contains(id),
    ensures
        sources::source_added(store, segments, input, now, revision) matches Ok(next) ==> {
            let added = sources::added_source(store, input);
            let known = exists|id: i64| #[trigger]
                store.sources.dom().contains(id) && store.sources[id].content_hash
                    == digest::text_digest(input.content);
            &&& added.created <==> !known
            &&& known ==> next.sources == store.sources && store.sources.dom().contains(added.id)
            &&& !known ==> {
                let row = next.sources[added.id];
                &&& !store.sources.dom().contains(added.id)
                &&& next.sources.dom() == store.sources.dom().insert(added.id)
                &&& row.content == input.content
                &&& row.content_hash == digest::text_digest(input.content)
                &&& row.origin == input.origin
                &&& row.created_at == now
                &&& input.title matches Some(title) ==> (!text::is_blank(title) ==> row.title
                    == Some(title))
                &&& input.title is None || text::is_blank(input.title->0) ==> row.title == Some(
                    input.origin,
                )
                &&& next.ingest_jobs[added.id].status == "pending"@
                &&& next.ingest_jobs[added.id].attempts == 0
                &&& next.ingest_jobs[added.id].analysis is None
                &&& next.ingest_jobs[added.id].last_error is None
            }
            &&& next.ingest_jobs.dom() == store.ingest_jobs.dom().insert(added.id)
            &&& forall|id: i64| #[trigger]
                store.ingest_jobs.dom().contains(id) ==> next.ingest_jobs[id]
                    == store.ingest_jobs[id]
            &&& input.tracked_path matches Some(path) ==> {
                &&& next.paths.dom().contains(path)
                &&& next.paths[path].len() > 0
                &&& next.paths[path].last().source_id == added.id
            }
            &&& input.tracked_path is None ==> next.paths == store.paths
            &&& next.operations.last().action == "source_add"@
            &&& next.operations.last().target == input.origin
            &&& next.operations.last().detail.int_at("source_id"@) == Some(added.id)
            &&& next.operations.last().detail.bool_at("created"@) == Some(added.created)
        },
{
    let hash = digest::text_digest(input.content);
    laws::lemma_with_hash(store, hash);
    if let Ok(next) = sources::source_added(store, segments, input, now, revision) {
        let added = sources::added_source(store, input);
        let made = if added.created {
            sources::source_created(store, segments, sources::new_source(input, now))->Ok_0
        } else {
            store
        };
        if added.created {
            assert(made.sources == store.sources.insert(added.id, sources::new_source(input, now)));
            assert(made.ingest_jobs == store.ingest_jobs);
            assert(made.paths == store.paths);
            assert(next.sources.dom() =~= store.sources.dom().insert(added.id));
        }
        assert(next.ingest_jobs.dom() =~= store.ingest_jobs.dom().insert(added.id));
        match input.tracked_path {
            Some(path) => {
                let o = sources::observed(made.paths, path, added.id, now)->Ok_0;
                law_observation_is_kept(made.paths, path, added.id, now);
                lemma_add_detail(
                    added.id,
                    added.created,
                    Some(path),
                    Some(o.revision),
                    Some(o.advanced),
                );
            },
            None => {
                lemma_add_detail(added.id, added.created, None, None, None);
            },
        }
    }
}

proof fn lemma_add_detail(
    id: i64,
    created: bool,
    path: Option<Seq<char>>,
    revision: Option<i64>,
    advanced: Option<bool>,
)
    ensures
        sources::source_add_detail(id, created, path, revision, advanced).int_at("source_id"@)
            == Some(id),
        sources::source_add_detail(id, created, path, revision, advanced).bool_at("created"@)
            == Some(created),
        sources::source_add_detail(id, created, path, revision, advanced).text_at("tracked_path"@)
            == path,
{
    reveal_strlit("created");
    reveal_strlit("path_advanced");
    reveal_strlit("path_revision");
    reveal_strlit("source_id");
    reveal_strlit("tracked_path");
    assert("created"@.len() == 7 && "path_advanced"@.len() == 13 && "path_revision"@.len() == 13
        && "source_id"@.len() == 9 && "tracked_path"@.len() == 12);
    reveal_with_fuel(json::lookup, 6);
    let detail = sources::source_add_detail(id, created, path, revision, advanced);
    let entries = detail->Object_0;
    assert(entries.drop_first()[0] == entries[1]);
    assert(entries.drop_first().drop_first()[0] == entries[2]);
    assert(entries.drop_first().drop_first().drop_first()[0] == entries[3]);
    assert(entries.drop_first().drop_first().drop_first().drop_first()[0] == entries[4]);
}

/// What the removal of a source does to the paths: one that shows the source is no longer
/// tracked, and another one only forgets that it showed it.
pub proof fn law_paths_forget_a_source(store: StoreView, id: i64, path: Seq<char>)
    requires
        store.paths.dom().finite(),
        forall|name: Seq<char>| #[trigger]
            store.paths.dom().contains(name) ==> store.paths[name].len() > 0,
    ensures
        ({
            let change = sources::all_untracking(store, id);
            let known = store.paths.dom().contains(path);
            let log = store.paths[path];
            let kept = log.filter(|one: PathRevisionView| one.source_id != id);
            &&& !known ==> !change.paths.dom().contains(path)
            &&& known && log.last().source_id == id ==> !change.paths.dom().contains(path)
            &&& known && log.last().source_id != id ==> change.paths.dom().contains(path)
                && change.paths[path] == kept
            &&& change.untracked.contains(path) <==> known && log.last().source_id == id
            &&& change.affected.contains(path) <==> known && kept.len() < log.len()
        }),
{
    let names = table::ordered::<String>(store.paths.dom());
    table::lemma_has_order::<String>(store.paths.dom());
    table::lemma_in_order_distinct::<String>(names);
    lemma_untracked(store.paths, names, id, names.len(), path);
    assert(names.take(names.len() as int) =~= names);
    assert(names.contains(path) == names.to_set().contains(path));
}

proof fn lemma_of_others(log: Seq<PathRevisionView>, id: i64)
    ensures
        sources::of_others(log, id) == log.filter(|one: PathRevisionView| one.source_id != id),
        sources::of_others(log, id).len() <= log.len(),
        log.len() > 0 && log.last().source_id == id ==> sources::of_others(log, id).len()
            < log.len(),
        sources::of_others(log, id).len() == log.len() ==> sources::of_others(log, id) == log,
    decreases log.len(),
{
    reveal(Seq::filter);
    if log.len() > 0 {
        lemma_of_others(log.drop_last(), id);
        if sources::of_others(log, id).len() == log.len() {
            assert(log.drop_last().push(log.last()) =~= log);
        }
    } else {
        assert(log =~= Seq::empty());
    }
}

proof fn lemma_untracked(
    paths: Map<Seq<char>, Seq<PathRevisionView>>,
    names: Seq<Seq<char>>,
    id: i64,
    count: nat,
    path: Seq<char>,
)
    requires
        count <= names.len(),
        names.no_duplicates(),
        names.to_set() == paths.dom(),
        forall|name: Seq<char>| #[trigger] paths.dom().contains(name) ==> paths[name].len() > 0,
    ensures
        ({
            let change = sources::untracking(paths, names, id, count);
            let seen = names.take(count as int).contains(path);
            let log = paths[path];
            let kept = log.filter(|one: PathRevisionView| one.source_id != id);
            &&& !seen ==> change.paths.dom().contains(path) == paths.dom().contains(path)
            &&& !seen && paths.dom().contains(path) ==> change.paths[path] == log
            &&& seen && log.last().source_id == id ==> !change.paths.dom().contains(path)
            &&& seen && log.last().source_id != id ==> change.paths.dom().contains(path)
                && change.paths[path] == kept
            &&& change.untracked.contains(path) <==> seen && log.last().source_id == id
            &&& change.affected.contains(path) <==> seen && kept.len() < log.len()
        }),
    decreases count,
{
    if count > 0 {
        let less = (count - 1) as nat;
        lemma_untracked(paths, names, id, less, path);
        table::lemma_take_more(names, less as int);
        let name = names[less as int];
        lemma_of_others(paths[name], id);
        assert(names.to_set().contains(name));
        assert(paths.dom().contains(name));
        let before = sources::untracking(paths, names, id, less);
        let after = sources::untracking(paths, names, id, count);
        if name == path {
            assert(!names.take(less as int).contains(path)) by {
                if names.take(less as int).contains(path) {
                    let i = names.take(less as int).index_of(path);
                    assert(names[i] == names[less as int]);
                }
            }
            assert(after.affected.contains(path) <==> paths[path].filter(
                |one: PathRevisionView| one.source_id != id,
            ).len() < paths[path].len()) by {
                if sources::of_others(paths[path], id).len() < paths[path].len() {
                    assert(after.affected.last() == path);
                }
            }
            assert(after.untracked.contains(path) <==> paths[path].last().source_id == id) by {
                if paths[path].last().source_id == id {
                    assert(after.untracked.last() == path);
                }
            }
        } else {
            assert(after.affected.contains(path) == before.affected.contains(path)) by {
                if before.affected.contains(path) {
                    let i = before.affected.index_of(path);
                    assert(after.affected[i] == path);
                }
                if after.affected.contains(path) {
                    let i = after.affected.index_of(path);
                    assert(before.affected[i] == path);
                }
            }
            assert(after.untracked.contains(path) == before.untracked.contains(path)) by {
                if before.untracked.contains(path) {
                    let i = before.untracked.index_of(path);
                    assert(after.untracked[i] == path);
                }
                if after.untracked.contains(path) {
                    let i = after.untracked.index_of(path);
                    assert(before.untracked[i] == path);
                }
            }
        }
    } else {
        assert(names.take(0) =~= Seq::empty());
    }
}

/// What goes with a source that is removed: its job, its place on the paths, what was said of
/// it, and the use of its spans. Pages, tags and the other sources stay.
pub proof fn law_source_goes_with_what_is_its_own(
    store: StoreView,
    id: i64,
    now: Seq<char>,
    revision: Seq<char>,
)
    ensures
        sources::source_remove_goal(store, id, now, revision) matches Ok(next) ==> {
            let name = text::decimal(id as int);
            &&& store.sources.dom().contains(id)
            &&& next.sources == store.sources.remove(id)
            &&& next.ingest_jobs == store.ingest_jobs.remove(id)
            &&& next.paths == sources::all_untracking(store, id).paths
            &&& forall|key: table::TripleView| #[trigger]
                next.weights.dom().contains(key) <==> store.weights.dom().contains(key) && !(
                key.first == "source"@ && key.second == name)
            &&& forall|key: FeedbackKeyView| #[trigger]
                next.feedback.dom().contains(key) <==> store.feedback.dom().contains(key) && !(
                key.target.first == "source"@ && key.target.second == name)
            &&& forall|span: Seq<char>| #[trigger]
                store.spans.dom().contains(span) ==> next.spans.dom().contains(span) && (
                next.spans[span].active <==> store.spans[span].active && !(
                store.spans[span].document_type == "source"@
                    && store.spans[span].document_identifier == name))
            &&& next.pages == store.pages
            &&& next.tags == store.tags
            &&& next.relations == store.relations
            &&& next.operations.last().action == "source_remove"@
            &&& next.operations.last().target == name
        },
{
}

/// The paths as a status shows them: each that shows a source of the store, with that source,
/// and where a source is asked for only those that have shown it.
pub proof fn law_path_is_shown(store: StoreView, path: Seq<char>, asked: Option<i64>)
    ensures
        sources::target_at(store, path, asked) is Some <==> {
            &&& store.paths.dom().contains(path)
            &&& store.paths[path].len() > 0
            &&& store.sources.dom().contains(store.paths[path].last().source_id)
            &&& asked matches Some(id) ==> exists|k: int|
                0 <= k < store.paths[path].len() && (#[trigger] store.paths[path][k]).source_id
                    == id
        },
        sources::target_at(store, path, asked) matches Some(target) ==> {
            let head = store.paths[path].last();
            &&& target.tracked_path == path
            &&& target.head_source_id == head.source_id
            &&& target.head_revision == head.revision
            &&& target.head_content_hash == store.sources[head.source_id].content_hash
            &&& asked is Some ==> target.requested_source_id == asked->0
            &&& asked is None ==> target.requested_source_id == head.source_id
        },
{
    if let Some(id) = asked {
        if store.paths.dom().contains(path) {
            let log = sources::path_log(store.paths, path);
            if sources::was_at(store, path, id) {
                let k = choose|k: int|
                    0 <= k < log.len() && (#[trigger] log[k]).source_id == id;
                assert(store.paths[path][k].source_id == id);
            }
            if exists|k: int|
                0 <= k < store.paths[path].len() && (#[trigger] store.paths[path][k]).source_id
                    == id {
                let k = choose|k: int|
                    0 <= k < store.paths[path].len() && (#[trigger] store.paths[path][k]).source_id
                        == id;
                assert(sources::path_log(store.paths, path)[k].source_id == id);
            }
        }
    }
}

/// A status of everything tells of a source that it is on no path exactly where no path has
/// ever shown it.
pub proof fn law_untracked_sources(store: StoreView, id: i64)
    requires
        store.sources.dom().finite(),
    ensures
        sources::status_goal(store, Seq::empty(), true) matches Ok(status) && (
        status.untracked_source_ids.contains(id) <==> store.sources.dom().contains(id) && forall|
            path: Seq<char>,
            k: int,
        |
            store.paths.dom().contains(path) && 0 <= k < store.paths[path].len() ==> (
            #[trigger] store.paths[path][k]).source_id != id),
{
    let every = table::ordered::<i64>(store.sources.dom());
    table::lemma_has_order::<i64>(store.sources.dom());
    lemma_untracked_among(store, every, every.len(), id);
    assert(every.take(every.len() as int) =~= every);
    assert(every.contains(id) == every.to_set().contains(id));
    if sources::is_tracked(store, id) {
        let path = choose|path: Seq<char>|
            store.paths.dom().contains(path) && #[trigger] sources::was_at(store, path, id);
        let log = sources::path_log(store.paths, path);
        let k = choose|k: int| 0 <= k < log.len() && (#[trigger] log[k]).source_id == id;
        assert(store.paths[path][k].source_id == id);
    } else {
        assert forall|path: Seq<char>, k: int|
            store.paths.dom().contains(path) && 0 <= k < store.paths[path].len() implies (
        #[trigger] store.paths[path][k]).source_id != id by {
            if store.paths[path][k].source_id == id {
                assert(sources::path_log(store.paths, path)[k].source_id == id);
                assert(sources::was_at(store, path, id));
            }
        }
    }
}

proof fn lemma_untracked_among(store: StoreView, ids: Seq<i64>, count: nat, id: i64)
    requires
        count <= ids.len(),
    ensures
        sources::untracked_among(store, ids, count).contains(id) <==> ids.take(
            count as int,
        ).contains(id) && !sources::is_tracked(store, id),
    decreases count,
{
    if count > 0 {
        let less = (count - 1) as nat;
        lemma_untracked_among(store, ids, less, id);
        table::lemma_take_more(ids, less as int);
        let before = sources::untracked_among(store, ids, less);
        let after = sources::untracked_among(store, ids, count);
        if before.contains(id) {
            let i = before.index_of(id);
            assert(after[i] == id);
        }
        if after.contains(id) && !before.contains(id) {
            let i = after.index_of(id);
            if i < before.len() {
                assert(before[i] == id);
            }
        }
        if ids[less as int] == id && !sources::is_tracked(store, id) {
            assert(after.last() == id);
        }
    } else {
        assert(ids.take(0) =~= Seq::empty());
    }
}

// ---------------------------------------------------------------------------
// Jobs
// ---------------------------------------------------------------------------

/// What each step of a job changes of it, and when it is taken: all else of the job stays.
pub proof fn law_steps_of_a_job(
    store: StoreView,
    id: i64,
    analysis: Seq<char>,
    message: Seq<char>,
    now: Seq<char>,
    revision: Seq<char>,
)
    requires
        !store::is_frozen(store),
        store.operation_sequence < i64::MAX,
        store.meta.dom().contains("store_revision"@),
    ensures
        ({
            let known = store.ingest_jobs.dom().contains(id);
            let job = store.ingest_jobs[id];
            let claim = ingest::claim_goal(store, id, now, revision);
            let analyze = ingest::analyze_goal(store, id, analysis, now, revision);
            let fail = ingest::fail_goal(store, id, message, now, revision);
            let retry = ingest::retry_goal(store, id, now, revision);
            &&& claim is Ok <==> known && job.status == "pending"@ && job.attempts < i64::MAX
            &&& claim matches Ok(next) ==> next.ingest_jobs[id] == (IngestView {
                status: "analyzing"@,
                attempts: (job.attempts + 1) as i64,
                last_error: None,
                updated_at: now,
                ..job
            })
            &&& analyze is Ok <==> known && job.status == "analyzing"@
            &&& analyze matches Ok(next) ==> next.ingest_jobs[id] == (IngestView {
                status: "generating"@,
                analysis: Some(analysis),
                last_error: None,
                updated_at: now,
                ..job
            })
            &&& fail is Ok <==> known && (job.status == "analyzing"@ || job.status
                == "generating"@)
            &&& fail matches Ok(next) ==> next.ingest_jobs[id] == (IngestView {
                status: "failed"@,
                last_error: Some(message),
                updated_at: now,
                ..job
            })
            &&& retry is Ok <==> known && (job.status == "analyzing"@ || job.status
                == "generating"@ || job.status == "failed"@)
            &&& retry matches Ok(next) ==> next.ingest_jobs[id] == (IngestView {
                status: "pending"@,
                last_error: None,
                updated_at: now,
                ..job
            })
        }),
{
    let status = store.ingest_jobs[id].status;
    let one = seq!["pending"@];
    let two = seq!["analyzing"@];
    let three = seq!["analyzing"@, "generating"@];
    let four = seq!["analyzing"@, "generating"@, "failed"@];
    assert(one[0] == "pending"@ && two[0] == "analyzing"@);
    assert(three[0] == "analyzing"@ && three[1] == "generating"@);
    assert(four[0] == "analyzing"@ && four[1] == "generating"@ && four[2] == "failed"@);
    if one.contains(status) {
        assert(one[one.index_of(status)] == status);
    }
    if two.contains(status) {
        assert(two[two.index_of(status)] == status);
    }
    if three.contains(status) {
        assert(three[three.index_of(status)] == status);
    }
    if four.contains(status) {
        assert(four[four.index_of(status)] == status);
    }
}

/// A page cites a source and is of the kind that sums it up, or is not.
pub open spec fn cites_as(store: StoreView, slug: Seq<char>, id: i64, summary: bool) -> bool {
    let page = store.pages[slug];
    &&& store.pages.dom().contains(slug)
    &&& page.source_ids.contains(id)
    &&& summary == (page.kind is Some && markdown::ascii_lowered(page.kind->0) == "source"@)
}

/// A job is completed exactly where a page sums its source up and either another page cites the
/// source or a reason says why none does. The reason is kept without the blanks round it.
pub proof fn law_job_is_completed(
    store: StoreView,
    id: i64,
    reason: Option<Seq<char>>,
    now: Seq<char>,
    revision: Seq<char>,
)
    requires
        store.pages.dom().finite(),
        !store::is_frozen(store),
        store.operation_sequence < i64::MAX,
        store.meta.dom().contains("store_revision"@),
    ensures
        ({
            let job = store.ingest_jobs[id];
            let given = reason is Some && text::trimmed(reason->0).len() > 0;
            let done = ingest::complete_goal(store, id, reason, now, revision);
            &&& done is Ok <==> {
                &&& store.ingest_jobs.dom().contains(id)
                &&& job.status == "generating"@
                &&& exists|slug: Seq<char>| #[trigger] cites_as(store, slug, id, true)
                &&& given <==> !(exists|slug: Seq<char>| #[trigger]
                    cites_as(store, slug, id, false))
            }
            &&& done matches Ok(next) ==> next.ingest_jobs[id] == (IngestView {
                status: "completed"@,
                last_error: None,
                no_derived_pages_reason: if given {
                    Some(text::trimmed(reason->0))
                } else {
                    None
                },
                updated_at: now,
                ..job
            })
        }),
{
    let status = store.ingest_jobs[id].status;
    let only = seq!["generating"@];
    assert(only[0] == "generating"@);
    if only.contains(status) {
        assert(only[only.index_of(status)] == status);
    }
    let citing = sources::citing(store, id);
    assert(citing.subset_of(store.pages.dom()));
    vstd::set_lib::lemma_set_subset_finite(store.pages.dom(), citing);
    let slugs = text::sorted(citing);
    table::lemma_texts_sorted(citing);
    lemma_summing_up(store, slugs, slugs.len());
    assert forall|slug: Seq<char>| #[trigger] cites_as(store, slug, id, true) implies exists|
        k: int,
    | 0 <= k < slugs.len() && ingest::sums_up(store.pages[#[trigger] slugs[k]].kind) by {
        assert(citing.contains(slug));
        assert(slugs.to_set().contains(slug));
        let k = slugs.index_of(slug);
        assert(ingest::sums_up(store.pages[slugs[k]].kind));
    }
    assert forall|slug: Seq<char>| #[trigger] cites_as(store, slug, id, false) implies exists|
        k: int,
    | 0 <= k < slugs.len() && !ingest::sums_up(store.pages[#[trigger] slugs[k]].kind) by {
        assert(citing.contains(slug));
        assert(slugs.to_set().contains(slug));
        let k = slugs.index_of(slug);
        assert(!ingest::sums_up(store.pages[slugs[k]].kind));
    }
    assert forall|k: int| 0 <= k < slugs.len() implies cites_as(
        store,
        #[trigger] slugs[k],
        id,
        ingest::sums_up(store.pages[slugs[k]].kind),
    ) by {
        assert(slugs.to_set().contains(slugs[k]));
        assert(citing.contains(slugs[k]));
    }
}

proof fn lemma_summing_up(store: StoreView, slugs: Seq<Seq<char>>, count: nat)
    requires
        count <= slugs.len(),
    ensures
        ingest::summing_up(store, slugs, count) <= count,
        ingest::summing_up(store, slugs, count) > 0 <==> exists|k: int|
            0 <= k < count && ingest::sums_up(store.pages[#[trigger] slugs[k]].kind),
        ingest::summing_up(store, slugs, count) < count <==> exists|k: int|
            0 <= k < count && !ingest::sums_up(store.pages[#[trigger] slugs[k]].kind),
    decreases count,
{
    if count > 0 {
        lemma_summing_up(store, slugs, (count - 1) as nat);
        let last = ingest::sums_up(store.pages[slugs[count - 1]].kind);
        if ingest::summing_up(store, slugs, count) > 0 && !last {
            let k = choose|k: int|
                0 <= k < count - 1 && ingest::sums_up(store.pages[#[trigger] slugs[k]].kind);
            assert(ingest::sums_up(store.pages[slugs[k]].kind));
        }
    }
}

/// The next job is the one of the lowest source that is pending, and there is none where no job
/// is pending.
pub proof fn law_lowest_job_is_next(store: StoreView)
    requires
        store.ingest_jobs.dom().finite(),
    ensures
        ingest::next_pending(store) is None <==> forall|id: i64| #[trigger]
            store.ingest_jobs.dom().contains(id) ==> store.ingest_jobs[id].status != "pending"@,
        ingest::next_pending(store) matches Some(next) ==> {
            &&& store.ingest_jobs.dom().contains(next)
            &&& store.ingest_jobs[next].status == "pending"@
            &&& forall|id: i64| #[trigger]
                store.ingest_jobs.dom().contains(id) && store.ingest_jobs[id].status == "pending"@
                    ==> next <= id
        },
{
    let ids = table::ordered::<i64>(store.ingest_jobs.dom());
    table::lemma_has_order::<i64>(store.ingest_jobs.dom());
    lemma_first_pending(store.ingest_jobs, ids);
    assert forall|id: i64| #[trigger] store.ingest_jobs.dom().contains(id) implies ids.contains(
        id,
    ) by {
        assert(ids.to_set().contains(id));
    }
    assert forall|k: int| 0 <= k < ids.len() implies store.ingest_jobs.dom().contains(
        #[trigger] ids[k],
    ) by {
        assert(ids.to_set().contains(ids[k]));
    }
}

proof fn lemma_first_pending(jobs: Map<i64, IngestView>, ids: Seq<i64>)
    requires
        forall|i: int, j: int| 0 <= i < j < ids.len() ==> ids[i] < ids[j],
    ensures
        ingest::first_pending(jobs, ids) is None <==> forall|k: int|
            0 <= k < ids.len() ==> jobs[#[trigger] ids[k]].status != "pending"@,
        ingest::first_pending(jobs, ids) matches Some(next) ==> {
            &&& ids.contains(next)
            &&& jobs[next].status == "pending"@
            &&& forall|id: i64| #[trigger]
                ids.contains(id) && jobs[id].status == "pending"@ ==> next <= id
        },
    decreases ids.len(),
{
    if ids.len() > 0 {
        let rest = ids.drop_first();
        assert forall|i: int, j: int| 0 <= i < j < rest.len() implies rest[i] < rest[j] by {
            assert(rest[i] == ids[i + 1] && rest[j] == ids[j + 1]);
        }
        lemma_first_pending(jobs, rest);
        if jobs[ids[0]].status == "pending"@ {
            assert(ids.contains(ids[0]));
            assert forall|id: i64| #[trigger]
                ids.contains(id) && jobs[id].status == "pending"@ implies ids[0] <= id by {
                let k = ids.index_of(id);
                assert(ids[0] <= ids[k]);
            }
        } else {
            match ingest::first_pending(jobs, rest) {
                Some(next) => {
                    let k = rest.index_of(next);
                    assert(ids[k + 1] == next);
                    assert forall|id: i64| #[trigger]
                        ids.contains(id) && jobs[id].status == "pending"@ implies next <= id by {
                        let k = ids.index_of(id);
                        if k > 0 {
                            assert(rest[k - 1] == id);
                            assert(rest.contains(id));
                        }
                    }
                },
                None => {
                    assert forall|k: int| 0 <= k < ids.len() implies jobs[
                    #[trigger] ids[k]].status != "pending"@ by {
                        if k > 0 {
                            assert(rest[k - 1] == ids[k]);
                        }
                    }
                },
            }
        }
    }
}

/// A list of jobs with a status holds every job that has it, as it is, and no other.
pub proof fn law_jobs_are_listed(store: StoreView, status: Option<Seq<char>>)
    requires
        store.ingest_jobs.dom().finite(),
    ensures
        ({
            let list = ingest::jobs_with(store, status);
            &&& forall|k: int|
                0 <= k < list.len() ==> {
                    let job = #[trigger] list[k];
                    let row = store.ingest_jobs[job.source_id];
                    &&& store.ingest_jobs.dom().contains(job.source_id)
                    &&& status is Some ==> job.status == status->0
                    &&& job.status == row.status
                    &&& job.attempts == row.attempts
                    &&& job.last_error == row.last_error
                    &&& job.no_derived_pages_reason == row.no_derived_pages_reason
                    &&& job.updated_at == row.updated_at
                }
            &&& forall|i: int, j: int|
                0 <= i < j < list.len() ==> list[i].source_id < list[j].source_id
            &&& forall|id: i64| #[trigger]
                store.ingest_jobs.dom().contains(id) && (status is None || status == Some(
                    store.ingest_jobs[id].status,
                )) ==> exists|k: int| 0 <= k < list.len() && (#[trigger] list[k]).source_id == id
        }),
{
    let ids = table::ordered::<i64>(store.ingest_jobs.dom());
    table::lemma_has_order::<i64>(store.ingest_jobs.dom());
    assert forall|k: int| 0 <= k < ids.len() implies store.ingest_jobs.dom().contains(
        #[trigger] ids[k],
    ) by {
        assert(ids.to_set().contains(ids[k]));
    }
    lemma_jobs_among(store.ingest_jobs, ids, status, ids.len());
    let list = ingest::jobs_with(store, status);
    assert forall|id: i64| #[trigger]
        store.ingest_jobs.dom().contains(id) && (status is None || status == Some(
            store.ingest_jobs[id].status,
        )) implies exists|k: int| 0 <= k < list.len() && (#[trigger] list[k]).source_id == id by {
        assert(ids.to_set().contains(id));
        let n = ids.index_of(id);
        assert(ids[n] == id);
    }
}

proof fn lemma_jobs_among(
    jobs: Map<i64, IngestView>,
    ids: Seq<i64>,
    status: Option<Seq<char>>,
    count: nat,
)
    requires
        count <= ids.len(),
        forall|i: int, j: int| 0 <= i < j < ids.len() ==> ids[i] < ids[j],
        forall|k: int| 0 <= k < ids.len() ==> jobs.dom().contains(#[trigger] ids[k]),
    ensures
        ({
            let list = ingest::jobs_among(jobs, ids, status, count);
            &&& forall|k: int|
                0 <= k < list.len() ==> {
                    let job = #[trigger] list[k];
                    let row = jobs[job.source_id];
                    &&& jobs.dom().contains(job.source_id)
                    &&& status is Some ==> job.status == status->0
                    &&& job.status == row.status
                    &&& job.attempts == row.attempts
                    &&& job.last_error == row.last_error
                    &&& job.no_derived_pages_reason == row.no_derived_pages_reason
                    &&& job.updated_at == row.updated_at
                    &&& count > 0 && job.source_id <= ids[count - 1]
                }
            &&& forall|i: int, j: int|
                0 <= i < j < list.len() ==> list[i].source_id < list[j].source_id
            &&& forall|n: int|
                0 <= n < count && (status is None || status == Some(jobs[#[trigger] ids[n]].status))
                    ==> exists|k: int|
                    0 <= k < list.len() && (#[trigger] list[k]).source_id == ids[n]
        }),
    decreases count,
{
    if count > 0 {
        let less = (count - 1) as nat;
        lemma_jobs_among(jobs, ids, status, less);
        let head = ingest::jobs_among(jobs, ids, status, less);
        let list = ingest::jobs_among(jobs, ids, status, count);
        let id = ids[less as int];
        assert forall|k: int| 0 <= k < head.len() implies (#[trigger] list[k]) == head[k]
            && list[k].source_id < id by {
            assert(head[k].source_id <= ids[less - 1]);
        }
        assert forall|n: int|
            0 <= n < count && (status is None || status == Some(
                jobs[#[trigger] ids[n]].status,
            )) implies exists|k: int|
            0 <= k < list.len() && (#[trigger] list[k]).source_id == ids[n] by {
            if n < less {
                let k = choose|k: int|
                    0 <= k < head.len() && (#[trigger] head[k]).source_id == ids[n];
                assert(list[k].source_id == ids[n]);
            } else {
                assert(list[head.len() as int].source_id == ids[n]);
            }
        }
    }
}

// ---------------------------------------------------------------------------
// Weights and feedback
// ---------------------------------------------------------------------------

/// What people gave a document counts, and what agents gave it where people gave nothing. A
/// document that nobody gave anything has no weight.
pub proof fn law_people_go_first(store: StoreView, document: PairView, query: Seq<char>)
    ensures
        ({
            let people = table::TripleView {
                first: document.first,
                second: document.second,
                third: "user-provided"@,
            };
            let agents = table::TripleView {
                first: document.first,
                second: document.second,
                third: "agent-observed"@,
            };
            let weights = retrieval::effective_weights(store);
            let signals = retrieval::effective_feedback(store, query);
            let said = FeedbackKeyView { query, target: people };
            let noted = FeedbackKeyView { query, target: agents };
            &&& weights.dom().contains(document) <==> store.weights.dom().contains(people)
                || store.weights.dom().contains(agents)
            &&& store.weights.dom().contains(people) ==> weights[document]
                == store.weights[people].weight
            &&& !store.weights.dom().contains(people) && store.weights.dom().contains(agents)
                ==> weights[document] == store.weights[agents].weight
            &&& signals.dom().contains(document) <==> store.feedback.dom().contains(said)
                || store.feedback.dom().contains(noted)
            &&& store.feedback.dom().contains(said) ==> signals[document]
                == store.feedback[said].signal
            &&& !store.feedback.dom().contains(said) && store.feedback.dom().contains(noted)
                ==> signals[document] == store.feedback[noted].signal
        }),
{
}

/// What is said of a page or a source stands under its plain name, with the reason without the
/// blanks round it; all else that was said stays. Only the weights -2, -1, 1 and 2 are taken,
/// and only from people and agents, with a reason.
pub proof fn law_weight_is_kept(
    store: StoreView,
    target_type: Seq<char>,
    identifier: Seq<char>,
    weight: i32,
    reason: Seq<char>,
    provenance: Seq<char>,
    now: Seq<char>,
    revision: Seq<char>,
)
    ensures
        retrieval::weight_set_goal(
            store,
            target_type,
            identifier,
            weight,
            reason,
            provenance,
            now,
            revision,
        ) matches Ok(done) ==> {
            let key = done.0;
            let next = done.1;
            &&& -2 <= weight <= 2 && weight != 0
            &&& provenance == "user-provided"@ || provenance == "agent-observed"@
            &&& text::trimmed(reason).len() > 0
            &&& key.first == target_type
            &&& key.third == provenance
            &&& target_type == "page"@ ==> key.second == identifier && store.pages.dom().contains(
                identifier,
            )
            &&& target_type != "page"@ ==> target_type == "source"@ && exists|id: i64| #[trigger]
                store.sources.dom().contains(id) && key.second == text::decimal(id as int)
            &&& next.weights.dom() == store.weights.dom().insert(key)
            &&& next.weights[key].weight == weight
            &&& next.weights[key].reason == text::trimmed(reason)
            &&& next.weights[key].updated_at == now
            &&& forall|other: table::TripleView|
                other != key && #[trigger] store.weights.dom().contains(other)
                    ==> next.weights[other] == store.weights[other]
            &&& next.feedback == store.feedback
            &&& next.pages == store.pages
            &&& next.sources == store.sources
        },
{
    reveal_strlit("page");
    reveal_strlit("source");
    if let Ok(done) = retrieval::weight_set_goal(
        store,
        target_type,
        identifier,
        weight,
        reason,
        provenance,
        now,
        revision,
    ) {
        assert(done.1.weights.dom() =~= store.weights.dom().insert(done.0));
        if target_type != "page"@ {
            let id = text::reads_as_i64(identifier)->0;
            assert(store.sources.dom().contains(id as i64));
        }
    }
}

/// Feedback stands under the words of its query and the document; all else that was said stays.
pub proof fn law_feedback_is_kept(
    store: StoreView,
    target_type: Seq<char>,
    identifier: Seq<char>,
    tokens: Seq<Seq<char>>,
    signal: i32,
    reason: Seq<char>,
    provenance: Seq<char>,
    now: Seq<char>,
    revision: Seq<char>,
)
    ensures
        retrieval::feedback_set_goal(
            store,
            target_type,
            identifier,
            tokens,
            signal,
            reason,
            provenance,
            now,
            revision,
        ) matches Ok(done) ==> {
            let key = done.0;
            let next = done.1;
            &&& signal == 1 || signal == -1
            &&& provenance == "user-provided"@ || provenance == "agent-observed"@
            &&& text::trimmed(reason).len() > 0
            &&& tokens.len() > 0
            &&& key.query == retrieval::query_mark(tokens)
            &&& key.target.first == target_type
            &&& key.target.third == provenance
            &&& target_type == "page"@ ==> key.target.second == identifier
                && store.pages.dom().contains(identifier)
            &&& next.feedback.dom() == store.feedback.dom().insert(key)
            &&& next.feedback[key].signal == signal
            &&& next.feedback[key].reason == text::trimmed(reason)
            &&& next.feedback[key].updated_at == now
            &&& forall|other: FeedbackKeyView|
                other != key && #[trigger] store.feedback.dom().contains(other)
                    ==> next.feedback[other] == store.feedback[other]
            &&& next.weights == store.weights
            &&& retrieval::shown_feedback(next, key, next.feedback[key]).signal == (if signal == 1 {
                "relevant"@
            } else {
                "irrelevant"@
            })
        },
{
    if let Ok(done) = retrieval::feedback_set_goal(
        store,
        target_type,
        identifier,
        tokens,
        signal,
        reason,
        provenance,
        now,
        revision,
    ) {
        assert(done.1.feedback.dom() =~= store.feedback.dom().insert(done.0));
    }
}

/// Where the standing of some sources is asked for, each of them has to be there; those that no
/// path shows are named, and what the paths show of the others is told.
pub proof fn law_asked_sources(store: StoreView, ids: Seq<i64>, count: nat, k: int)
    requires
        0 <= k < count <= ids.len(),
    ensures
        sources::status_of(store, ids, count) matches Ok(status) ==> {
            let found = sources::all_targets(store, Some(ids[k]));
            &&& store.sources.dom().contains(ids[k])
            &&& found.len() == 0 ==> status.untracked_source_ids.contains(ids[k])
            &&& found.len() > 0 ==> !status.untracked_source_ids.contains(ids[k])
            &&& forall|n: int| 0 <= n < found.len() ==> status.targets.contains(#[trigger] found[n])
        },
    decreases count,
{
    if let Ok(status) = sources::status_of(store, ids, count) {
        let so_far = sources::status_of(store, ids, (count - 1) as nat)->Ok_0;
        let found = sources::all_targets(store, Some(ids[k]));
        let last = sources::all_targets(store, Some(ids[count - 1]));
        lemma_untracked_have_no_targets(store, ids, count);
        if k < count - 1 {
            law_asked_sources(store, ids, (count - 1) as nat, k);
            if found.len() == 0 {
                let n = so_far.untracked_source_ids.index_of(ids[k]);
                assert(status.untracked_source_ids[n] == ids[k]);
            }
            assert forall|n: int| 0 <= n < found.len() implies status.targets.contains(
                #[trigger] found[n],
            ) by {
                let m = so_far.targets.index_of(found[n]);
                assert(status.targets[m] == found[n]);
            }
        } else if found.len() == 0 {
            assert(status.untracked_source_ids[so_far.untracked_source_ids.len() as int] == ids[k]);
        } else {
            assert forall|n: int| 0 <= n < found.len() implies status.targets.contains(
                #[trigger] found[n],
            ) by {
                assert(status.targets[so_far.targets.len() + n] == found[n]);
            }
        }
    }
}

proof fn lemma_untracked_have_no_targets(store: StoreView, ids: Seq<i64>, count: nat)
    requires
        count <= ids.len(),
    ensures
        sources::status_of(store, ids, count) matches Ok(status) ==> forall|n: int|
            0 <= n < status.untracked_source_ids.len() ==> sources::all_targets(
                store,
                Some(#[trigger] status.untracked_source_ids[n]),
            ).len() == 0,
    decreases count,
{
    if count > 0 {
        lemma_untracked_have_no_targets(store, ids, (count - 1) as nat);
    }
}

} // verus!
