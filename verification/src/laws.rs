//! What holds of a store as a whole: what every change keeps, and what one call gives back
//! of another.
use crate::digest;
use crate::error::AppErrorView;
use crate::json::JsonView;
use crate::markdown;
use crate::pages;
use crate::pages::{PagePutView, PageRecordView};
use crate::refusals;
use crate::rows::{PageView, PathRevisionView, SourceView};
use crate::sources;
use crate::sources::{AddedSourceView, SourceAddView};
use crate::spans;
use crate::spans::{DocumentView, SegmentsView};
use crate::store;
use crate::store::StoreView;
use crate::table;
use crate::text;
use crate::versions;
use crate::versions::FreshStoreView;
use vstd::prelude::*;
use vstd::utf8;

verus! {

// ---------------------------------------------------------------------------
// What every store keeps
// ---------------------------------------------------------------------------

/// Identifiers are given out in order, and each content is kept once, under its digest.
pub open spec fn sources_sound(store: StoreView) -> bool {
    &&& store.sources.dom().finite()
    &&& forall|id: i64| #[trigger]
        store.sources.dom().contains(id) ==> id <= store.source_sequence
            && store.sources[id].content_hash == digest::text_digest(store.sources[id].content)
    &&& forall|a: i64, b: i64|
        #![trigger store.sources.dom().contains(a), store.sources.dom().contains(b)]
        store.sources.dom().contains(a) && store.sources.dom().contains(b)
            && store.sources[a].content_hash == store.sources[b].content_hash ==> a == b
}

/// Every citation leads to a source.
pub open spec fn citations_resolve(store: StoreView) -> bool {
    &&& store.pages.dom().finite()
    &&& forall|slug: Seq<char>, k: int|
        #![trigger store.pages[slug].source_ids[k]]
        store.pages.dom().contains(slug) && 0 <= k < store.pages[slug].source_ids.len()
            ==> store.sources.dom().contains(store.pages[slug].source_ids[k])
}

/// Every job belongs to a source.
pub open spec fn jobs_belong(store: StoreView) -> bool {
    forall|id: i64| #[trigger]
        store.ingest_jobs.dom().contains(id) ==> store.sources.dom().contains(id)
}

/// The observations of a path are numbered in order, and there is one.
pub open spec fn path_sound(log: Seq<PathRevisionView>) -> bool {
    &&& log.len() > 0
    &&& forall|i: int, j: int| 0 <= i < j < log.len() ==> log[i].revision < log[j].revision
}

pub open spec fn paths_sound(store: StoreView) -> bool {
    &&& store.paths.dom().finite()
    &&& forall|path: Seq<char>| #[trigger]
        store.paths.dom().contains(path) ==> path_sound(store.paths[path])
}

/// The operations of the log are numbered in order.
pub open spec fn log_sound(store: StoreView) -> bool {
    &&& forall|i: int, j: int|
        0 <= i < j < store.operations.len() ==> store.operations[i].id < store.operations[j].id
    &&& forall|i: int|
        0 <= i < store.operations.len() ==> (#[trigger] store.operations[i]).id
            <= store.operation_sequence
}

/// What every store keeps.
pub open spec fn sound(store: StoreView) -> bool {
    &&& sources_sound(store)
    &&& citations_resolve(store)
    &&& jobs_belong(store)
    &&& paths_sound(store)
    &&& log_sound(store)
}

/// A new store is sound.
pub proof fn law_new_store_is_sound(
    scope: Seq<char>,
    database: Seq<char>,
    fresh: FreshStoreView,
    tokenizer: Seq<char>,
    now: Seq<char>,
    revision: Seq<char>,
)
    ensures
        versions::initialized(scope, database, fresh, tokenizer, now, revision) matches Ok(store)
            && sound(store),
{
    let blank = versions::blank_store(scope, database, fresh, tokenizer);
    assert(sound(blank));
    reveal_strlit("format_version");
    reveal_strlit("tokenizer");
    reveal_strlit("store_id");
    reveal_strlit("store_revision");
    reveal_strlit("schema");
    reveal_strlit("purpose");
    reveal_strlit("changeset_frozen");
    assert("changeset_frozen"@.len() == 16);
    assert(!store::is_frozen(blank));
    law_log_only_grows(blank, "init"@, "wiki"@, versions::init_detail(tokenizer), now, revision);
}

/// The log only grows: an operation stands behind all that were written down before it, with
/// an identifier above theirs. Nothing else but the revision of the store changes with it.
pub proof fn law_log_only_grows(
    store: StoreView,
    action: Seq<char>,
    target: Seq<char>,
    detail: JsonView,
    now: Seq<char>,
    revision: Seq<char>,
)
    requires
        sound(store),
    ensures
        store::recorded(store, action, target, detail, now, revision) matches Ok(next) ==> {
            &&& sound(next)
            &&& next.operations.len() == store.operations.len() + 1
            &&& next.operations.take(store.operations.len() as int) == store.operations
            &&& next.pages == store.pages
            &&& next.sources == store.sources
            &&& next.meta["store_revision"@] == revision
        },
{
    if let Ok(next) = store::recorded(store, action, target, detail, now, revision) {
        assert(next.operations.take(store.operations.len() as int) =~= store.operations);
    }
}

/// A store that is frozen takes no writes.
pub proof fn law_frozen_store_takes_no_writes(
    store: StoreView,
    segments: SegmentsView,
    page: PagePutView,
    seen: Option<Seq<char>>,
    document: SourceAddView,
    slug: Seq<char>,
    id: i64,
    now: Seq<char>,
    revision: Seq<char>,
)
    requires
        store::is_frozen(store),
    ensures
        pages::page_put_goal(store, segments, page, seen, now, revision) matches Ok(next) ==> next
            == store,
        sources::source_added(store, segments, document, now, revision) is Err,
        pages::page_remove_goal(store, slug, now, revision) is Err,
        sources::source_remove_goal(store, id, now, revision) is Err,
{
}

// ---------------------------------------------------------------------------
// Sources
// ---------------------------------------------------------------------------

pub proof fn lemma_with_hash(store: StoreView, hash: Seq<char>)
    requires
        store.sources.dom().finite(),
    ensures
        match sources::source_with_hash(store, hash) {
            Some(id) => store.sources.dom().contains(id) && store.sources[id].content_hash == hash,
            None => forall|id: i64| #[trigger]
                store.sources.dom().contains(id) ==> store.sources[id].content_hash != hash,
        },
{
    table::lemma_has_order::<i64>(store.sources.dom());
    let ids = table::ordered::<i64>(store.sources.dom());
    lemma_first_with_hash(store, ids, hash);
    assert forall|id: i64| #[trigger] store.sources.dom().contains(id) implies ids.contains(id) by {
        assert(ids.to_set().contains(id));
    }
    assert forall|k: int| 0 <= k < ids.len() implies store.sources.dom().contains(
        #[trigger] ids[k],
    ) by {
        assert(ids.to_set().contains(ids[k]));
    }
}

proof fn lemma_first_with_hash(store: StoreView, ids: Seq<i64>, hash: Seq<char>)
    ensures
        match sources::first_with_hash(store.sources, ids, hash) {
            Some(id) => ids.contains(id) && store.sources[id].content_hash == hash,
            None => forall|k: int|
                0 <= k < ids.len() ==> store.sources[#[trigger] ids[k]].content_hash != hash,
        },
    decreases ids.len(),
{
    if ids.len() > 0 {
        let rest = ids.drop_first();
        lemma_first_with_hash(store, rest, hash);
        if store.sources[ids[0]].content_hash == hash {
            assert(ids.contains(ids[0]));
        } else {
            match sources::first_with_hash(store.sources, rest, hash) {
                Some(id) => {
                    let k = rest.index_of(id);
                    assert(ids[k + 1] == id);
                },
                None => {
                    assert forall|k: int| 0 <= k < ids.len() implies store.sources[
                    #[trigger] ids[k]].content_hash != hash by {
                        if k > 0 {
                            assert(rest[k - 1] == ids[k]);
                        }
                    }
                },
            }
        }
    }
}

/// A path advances by one, and shows the source that was observed last.
pub proof fn law_path_advances(
    store: StoreView,
    path: Seq<char>,
    source_id: i64,
    at: Seq<char>,
)
    requires
        paths_sound(store),
    ensures
        sources::observed(store.paths, path, source_id, at) matches Ok(o) ==> {
            let next = StoreView { paths: o.paths, ..store };
            &&& paths_sound(next)
            &&& sources::path_head(next, path) == Some(source_id)
            &&& o.advanced == (sources::path_head(store, path) != Some(source_id))
            &&& forall|other: Seq<char>|
                other != path ==> sources::path_log(o.paths, other) == #[trigger] sources::path_log(
                    store.paths,
                    other,
                )
        },
{
    if let Ok(o) = sources::observed(store.paths, path, source_id, at) {
        let log = sources::path_log(store.paths, path);
        if o.advanced {
            let more = o.paths[path];
            assert(more =~= log.push(
                PathRevisionView { revision: o.revision, source_id, observed_at: at },
            ));
            assert(path_sound(more));
            assert(o.paths.dom() =~= store.paths.dom().insert(path));
        }
    }
}

/// A document that is added is kept as it was given, and can be read back; a content that is
/// there already is not kept twice. No source that was there before changes.
pub proof fn law_sources_are_immutable(
    store: StoreView,
    segments: SegmentsView,
    input: SourceAddView,
    now: Seq<char>,
    revision: Seq<char>,
)
    requires
        sound(store),
    ensures
        sources::source_added(store, segments, input, now, revision) matches Ok(next) ==> {
            let added = sources::added_source(store, input);
            &&& sound(next)
            &&& forall|id: i64| #[trigger]
                store.sources.dom().contains(id) ==> next.sources.dom().contains(id)
                    && next.sources[id] == store.sources[id]
            &&& next.pages == store.pages
            &&& sources::shown_source(next, added.id) matches Ok(shown)
            &&& shown.content_hash == digest::text_digest(input.content)
            &&& added.created ==> shown.content == input.content && shown.origin == input.origin
            &&& !added.created ==> next.sources == store.sources
            &&& sources::source_with_hash(next, digest::text_digest(input.content)) == Some(
                added.id,
            )
        },
{
    let hash = digest::text_digest(input.content);
    lemma_with_hash(store, hash);
    if let Ok(next) = sources::source_added(store, segments, input, now, revision) {
        let added = sources::added_source(store, input);
        match sources::source_with_hash(store, hash) {
            Some(id) => {
                lemma_noted(store, input, id, false, now, revision);
            },
            None => {
                let fresh = (store.source_sequence + 1) as i64;
                let source = sources::new_source(input, now);
                let made = sources::source_created(store, segments, source)->Ok_0;
                assert(made.sources == store.sources.insert(fresh, source));
                assert(!store.sources.dom().contains(fresh));
                lemma_created_sound(store, made, fresh, source);
                lemma_noted(made, input, fresh, true, now, revision);
            },
        }
        lemma_with_hash(next, hash);
    }
}

proof fn lemma_created_sound(store: StoreView, made: StoreView, fresh: i64, source: SourceView)
    requires
        sound(store),
        store.source_sequence < i64::MAX,
        fresh == store.source_sequence + 1,
        !store.sources.dom().contains(fresh),
        source.content_hash == digest::text_digest(source.content),
        forall|id: i64| #[trigger]
            store.sources.dom().contains(id) ==> store.sources[id].content_hash
                != source.content_hash,
        made.sources == store.sources.insert(fresh, source),
        made.source_sequence == fresh,
        made.pages == store.pages,
        made.ingest_jobs == store.ingest_jobs,
        made.paths == store.paths,
        made.operations == store.operations,
        made.operation_sequence == store.operation_sequence,
    ensures
        sound(made),
{
    assert forall|a: i64, b: i64|
        #![trigger made.sources.dom().contains(a), made.sources.dom().contains(b)]
        made.sources.dom().contains(a) && made.sources.dom().contains(b)
            && made.sources[a].content_hash == made.sources[b].content_hash implies a == b by {
        if a != fresh {
            assert(store.sources.dom().contains(a));
        }
        if b != fresh {
            assert(store.sources.dom().contains(b));
        }
    }
    assert forall|id: i64| #[trigger] made.sources.dom().contains(id) implies id
        <= made.source_sequence && made.sources[id].content_hash == digest::text_digest(
        made.sources[id].content,
    ) by {
        if id != fresh {
            assert(store.sources.dom().contains(id));
        }
    }
    assert forall|slug: Seq<char>, k: int|
        #![trigger made.pages[slug].source_ids[k]]
        made.pages.dom().contains(slug) && 0 <= k < made.pages[slug].source_ids.len()
            implies made.sources.dom().contains(made.pages[slug].source_ids[k]) by {
        assert(store.sources.dom().contains(store.pages[slug].source_ids[k]));
    }
    assert forall|id: i64| #[trigger] made.ingest_jobs.dom().contains(id) implies
        made.sources.dom().contains(id) by {
        assert(store.ingest_jobs.dom().contains(id));
    }
}

proof fn lemma_noted(
    store: StoreView,
    input: SourceAddView,
    id: i64,
    created: bool,
    now: Seq<char>,
    revision: Seq<char>,
)
    requires
        sound(store),
        store.sources.dom().contains(id),
    ensures
        sources::source_noted(store, input, id, created, now, revision) matches Ok(next) ==> {
            &&& sound(next)
            &&& next.sources == store.sources
            &&& next.pages == store.pages
        },
{
    let job = sources::with_job(store, id, now);
    assert(sound(job)) by {
        assert forall|other: i64| #[trigger] job.ingest_jobs.dom().contains(other) implies
            job.sources.dom().contains(other) by {
            if other != id {
                assert(store.ingest_jobs.dom().contains(other));
            }
        }
    }
    match input.tracked_path {
        None => {
            law_log_only_grows(
                job,
                "source_add"@,
                input.origin,
                sources::source_add_detail(id, created, None, None, None),
                now,
                revision,
            );
        },
        Some(path) => {
            law_path_advances(job, path, id, now);
            if let Ok(o) = sources::observed(job.paths, path, id, now) {
                law_log_only_grows(
                    StoreView { paths: o.paths, ..job },
                    "source_add"@,
                    input.origin,
                    sources::source_add_detail(
                        id,
                        created,
                        Some(path),
                        Some(o.revision),
                        Some(o.advanced),
                    ),
                    now,
                    revision,
                );
            }
        },
    }
}

/// Adding several documents keeps a store sound, changes no source that was there, and tells
/// of one source for each document.
pub proof fn law_many_sources_are_immutable(
    store: StoreView,
    segments: SegmentsView,
    inputs: Seq<SourceAddView>,
    now: Seq<char>,
    revision: Seq<char>,
    count: nat,
)
    requires
        sound(store),
        count <= inputs.len(),
    ensures
        sources::sources_added(store, segments, inputs, now, revision, count) matches Ok(done) ==> {
            let told = sources::added_summaries(done.store, done.added, count);
            &&& sound(done.store)
            &&& done.added.len() == count
            &&& forall|id: i64| #[trigger]
                store.sources.dom().contains(id) ==> done.store.sources.dom().contains(id)
                    && done.store.sources[id] == store.sources[id]
            &&& told.len() == count
            &&& forall|k: int|
                0 <= k < count ==> (#[trigger] told[k]).id == done.added[k].id
                    && told[k].content_hash == digest::text_digest(inputs[k].content)
        },
    decreases count,
{
    if count > 0 {
        let less = (count - 1) as nat;
        law_many_sources_are_immutable(store, segments, inputs, now, revision, less);
        if let Ok(so_far) = sources::sources_added(store, segments, inputs, now, revision, less) {
            let last = inputs[count - 1];
            law_sources_are_immutable(so_far.store, segments, last, now, revision);
            if let Ok(next) = sources::source_added(so_far.store, segments, last, now, revision) {
                assert forall|id: i64| #[trigger] store.sources.dom().contains(id) implies
                    next.sources.dom().contains(id) && next.sources[id] == store.sources[id] by {
                    assert(so_far.store.sources.dom().contains(id));
                }
                let added = so_far.added.push(sources::added_source(so_far.store, last));
                assert(added.take(so_far.added.len() as int) =~= so_far.added);
                lemma_told_alike(so_far.store, so_far.added, next, added, less);
            }
        }
    }
}

/// More documents do not change what is told of those before them.
proof fn lemma_told_alike(
    store: StoreView,
    added: Seq<AddedSourceView>,
    next: StoreView,
    more: Seq<AddedSourceView>,
    count: nat,
)
    requires
        count <= added.len() < more.len(),
        more.take(added.len() as int) == added,
        sources::added_summaries(store, added, count).len() == count,
        forall|id: i64| #[trigger]
            store.sources.dom().contains(id) ==> next.sources.dom().contains(id)
                && next.sources[id] == store.sources[id],
    ensures
        sources::added_summaries(next, more, count) == sources::added_summaries(
            store,
            added,
            count,
        ),
    decreases count,
{
    if count > 0 {
        lemma_told_short(store, added, (count - 1) as nat);
        assert(more[count - 1] == more.take(added.len() as int)[count - 1]);
        lemma_told_alike(store, added, next, more, (count - 1) as nat);
    }
}

proof fn lemma_told_short(store: StoreView, added: Seq<AddedSourceView>, count: nat)
    ensures
        sources::added_summaries(store, added, count).len() <= count,
    decreases count,
{
    if count > 0 && count <= added.len() {
        lemma_told_short(store, added, (count - 1) as nat);
    }
}

/// A document that was added is found again by its content: adding it once more makes no
/// second source.
pub proof fn law_same_content_is_one_source(
    store: StoreView,
    segments: SegmentsView,
    input: SourceAddView,
    again: SourceAddView,
    now: Seq<char>,
    revision: Seq<char>,
)
    requires
        sound(store),
        again.content == input.content,
    ensures
        sources::source_added(store, segments, input, now, revision) matches Ok(next) ==> {
            &&& sources::added_source(next, again).id == sources::added_source(store, input).id
            &&& !sources::added_source(next, again).created
        },
{
    law_sources_are_immutable(store, segments, input, now, revision);
}

proof fn lemma_cites(store: StoreView, slug: Seq<char>, id: i64)
    requires
        store.pages.dom().finite(),
        store.pages.dom().contains(slug),
        store.pages[slug].source_ids.contains(id),
    ensures
        sources::citing(store, id).len() > 0,
{
    let set = sources::citing(store, id);
    assert(set.subset_of(store.pages.dom()));
    vstd::set_lib::lemma_set_subset_finite(store.pages.dom(), set);
    assert(set.contains(slug));
    if set.len() == 0 {
        set.lemma_len0_is_empty();
    }
}

/// A source that a page cites is not removed. What is removed was cited by nobody, so every
/// citation still leads to a source, and the other sources stay as they are.
pub proof fn law_cited_sources_stay(store: StoreView, id: i64, now: Seq<char>, revision: Seq<char>)
    requires
        sound(store),
    ensures
        (exists|slug: Seq<char>| #[trigger]
            store.pages.dom().contains(slug) && store.pages[slug].source_ids.contains(id))
            ==> sources::source_remove_goal(store, id, now, revision) is Err,
        sources::source_remove_goal(store, id, now, revision) matches Ok(next) ==> {
            &&& sound(next)
            &&& next.sources == store.sources.remove(id)
            &&& next.pages == store.pages
        },
{
    if let Ok(next) = sources::source_remove_goal(store, id, now, revision) {
        assert forall|slug: Seq<char>| #[trigger] store.pages.dom().contains(slug) implies
            !store.pages[slug].source_ids.contains(id) by {
            if store.pages[slug].source_ids.contains(id) {
                lemma_cites(store, slug, id);
            }
        }
        let names = table::ordered::<String>(store.paths.dom());
        table::lemma_has_order::<String>(store.paths.dom());
        assert forall|k: int| 0 <= k < names.len() implies store.paths.dom().contains(
            #[trigger] names[k],
        ) by {
            assert(names.to_set().contains(names[k]));
        }
        lemma_untracking_sound(store, names, id, names.len());
        let change = sources::all_untracking(store, id);
        let gone = sources::source_dropped(
            pages::forgotten(
                StoreView {
                    paths: change.paths,
                    spans: spans::deactivated(store.spans, "source"@, text::decimal(id as int)),
                    ..store
                },
                "source"@,
                text::decimal(id as int),
            ),
            id,
        );
        assert(citations_resolve(gone)) by {
            assert forall|slug: Seq<char>, k: int|
                #![trigger gone.pages[slug].source_ids[k]]
                gone.pages.dom().contains(slug) && 0 <= k < gone.pages[slug].source_ids.len()
                    implies gone.sources.dom().contains(gone.pages[slug].source_ids[k]) by {
                assert(store.pages.dom().contains(slug));
                assert(store.sources.dom().contains(store.pages[slug].source_ids[k]));
                assert(store.pages[slug].source_ids.contains(store.pages[slug].source_ids[k]));
            }
        }
        assert(sources_sound(gone)) by {
            assert forall|a: i64, b: i64|
                #![trigger gone.sources.dom().contains(a), gone.sources.dom().contains(b)]
                gone.sources.dom().contains(a) && gone.sources.dom().contains(b)
                    && gone.sources[a].content_hash == gone.sources[b].content_hash
                    implies a == b by {
                assert(store.sources.dom().contains(a) && store.sources.dom().contains(b));
            }
            assert forall|one: i64| #[trigger] gone.sources.dom().contains(one) implies one
                <= gone.source_sequence && gone.sources[one].content_hash == digest::text_digest(
                gone.sources[one].content,
            ) by {
                assert(store.sources.dom().contains(one));
            }
        }
        assert(jobs_belong(gone)) by {
            assert forall|one: i64| #[trigger] gone.ingest_jobs.dom().contains(one) implies
                gone.sources.dom().contains(one) by {
                assert(store.ingest_jobs.dom().contains(one));
            }
        }
        law_log_only_grows(
            gone,
            "source_remove"@,
            text::decimal(id as int),
            sources::source_remove_detail(change),
            now,
            revision,
        );
    }
    if exists|slug: Seq<char>| #[trigger]
        store.pages.dom().contains(slug) && store.pages[slug].source_ids.contains(id) {
        let slug = choose|slug: Seq<char>| #[trigger]
            store.pages.dom().contains(slug) && store.pages[slug].source_ids.contains(id);
        lemma_cites(store, slug, id);
    }
}

proof fn lemma_others_sound(log: Seq<PathRevisionView>, id: i64)
    requires
        forall|i: int, j: int| 0 <= i < j < log.len() ==> log[i].revision < log[j].revision,
    ensures
        ({
            let kept = sources::of_others(log, id);
            &&& forall|i: int, j: int|
                0 <= i < j < kept.len() ==> kept[i].revision < kept[j].revision
            &&& forall|i: int|
                0 <= i < kept.len() ==> log.len() > 0 && (#[trigger] kept[i]).revision
                    <= log.last().revision
            &&& log.len() > 0 && log.last().source_id != id ==> kept.len() > 0
        }),
    decreases log.len(),
{
    if log.len() > 0 {
        let head = log.drop_last();
        lemma_others_sound(head, id);
        let before = sources::of_others(head, id);
        let kept = sources::of_others(log, id);
        assert forall|i: int| 0 <= i < kept.len() implies (#[trigger] kept[i]).revision
            <= log.last().revision by {
            if i < before.len() {
                assert(kept[i] == before[i]);
                assert(head.last() == log[log.len() - 2]);
            }
        }
        assert forall|i: int, j: int| 0 <= i < j < kept.len() implies kept[i].revision
            < kept[j].revision by {
            if j < before.len() {
                assert(kept[i] == before[i] && kept[j] == before[j]);
            } else {
                assert(kept[i] == before[i]);
                assert(head.last() == log[log.len() - 2]);
                assert(head.last().revision < log.last().revision);
            }
        }
    }
}

proof fn lemma_untracking_sound(store: StoreView, names: Seq<Seq<char>>, id: i64, count: nat)
    requires
        paths_sound(store),
        count <= names.len(),
        forall|k: int| 0 <= k < names.len() ==> store.paths.dom().contains(#[trigger] names[k]),
    ensures
        paths_sound(
            StoreView { paths: sources::untracking(store.paths, names, id, count).paths, ..store },
        ),
    decreases count,
{
    if count > 0 {
        lemma_untracking_sound(store, names, id, (count - 1) as nat);
        let so_far = sources::untracking(store.paths, names, id, (count - 1) as nat);
        let path = names[count - 1];
        let log = store.paths[path];
        assert(store.paths.dom().contains(path));
        lemma_others_sound(log, id);
        let done = sources::untracking(store.paths, names, id, count);
        assert forall|p: Seq<char>| #[trigger] done.paths.dom().contains(p) implies path_sound(
            done.paths[p],
        ) by {
            if p != path {
                assert(so_far.paths.dom().contains(p));
            } else if done.paths.dom().contains(path) && so_far.paths.dom().contains(path) {
                assert(path_sound(so_far.paths[path]));
            }
        }
    }
}

// ---------------------------------------------------------------------------
// Pages
// ---------------------------------------------------------------------------

proof fn lemma_none_missing(store: StoreView, ids: Seq<i64>)
    requires
        pages::first_missing(store, ids) is None,
    ensures
        forall|k: int| 0 <= k < ids.len() ==> store.sources.dom().contains(#[trigger] ids[k]),
    decreases ids.len(),
{
    if ids.len() > 0 {
        lemma_none_missing(store, ids.drop_first());
        assert forall|k: int| 0 <= k < ids.len() implies store.sources.dom().contains(
            #[trigger] ids[k],
        ) by {
            if k > 0 {
                assert(ids.drop_first()[k - 1] == ids[k]);
            }
        }
    }
}

/// Pages of different content have different fingerprints.
pub open spec fn marks_tell(a: PageView, b: PageView) -> bool {
    pages::page_mark(a) == pages::page_mark(b) ==> pages::page_json(a) == pages::page_json(b)
}

proof fn lemma_texts_json(a: Seq<Seq<char>>, b: Seq<Seq<char>>)
    requires
        pages::texts_json(a) == pages::texts_json(b),
    ensures
        a == b,
{
    let x = pages::texts_json(a)->Array_0;
    let y = pages::texts_json(b)->Array_0;
    assert(x.len() == a.len() && y.len() == b.len());
    assert forall|i: int| 0 <= i < a.len() implies a[i] == b[i] by {
        assert(x[i] == JsonView::Text(a[i]) && y[i] == JsonView::Text(b[i]));
    }
    assert(a =~= b);
}

proof fn lemma_ids_json(a: Seq<i64>, b: Seq<i64>)
    requires
        pages::ids_json(a) == pages::ids_json(b),
    ensures
        a == b,
{
    let x = pages::ids_json(a)->Array_0;
    let y = pages::ids_json(b)->Array_0;
    assert(x.len() == a.len() && y.len() == b.len());
    assert forall|i: int| 0 <= i < a.len() implies a[i] == b[i] by {
        assert(x[i] == JsonView::Int(a[i] as int) && y[i] == JsonView::Int(b[i] as int));
    }
    assert(a =~= b);
}

proof fn lemma_page_json(a: PageView, b: PageView)
    requires
        pages::page_json(a) == pages::page_json(b),
    ensures
        a == (PageView { created_at: a.created_at, updated_at: a.updated_at, ..b }),
{
    let x = pages::page_json(a)->Object_0;
    let y = pages::page_json(b)->Object_0;
    assert(x[0].value == y[0].value);
    assert(x[1].value == y[1].value);
    assert(x[2].value == y[2].value);
    assert(x[3].value == y[3].value);
    assert(x[4].value == y[4].value);
    assert(x[5].value == y[5].value);
    assert(x[6].value == y[6].value);
    assert(x[7].value == y[7].value);
    lemma_texts_json(a.links, b.links);
    lemma_texts_json(a.provenance, b.provenance);
    lemma_ids_json(a.source_ids, b.source_ids);
}

/// A record shows what was asked for: the citations and the provenance in ascending order and
/// each once, and the links of the body.
pub open spec fn shows(record: PageRecordView, input: PagePutView) -> bool {
    &&& record.slug == input.slug
    &&& record.title == input.title
    &&& record.kind == input.kind
    &&& record.summary == input.summary
    &&& record.body == input.body
    &&& record.source_ids.to_set() == input.source_ids.to_set()
    &&& table::in_order::<i64>(record.source_ids)
    &&& record.provenance == pages::shown_provenance(
        input.source_ids.len() > 0,
        text::sorted(input.provenance.to_set()),
    )
    &&& record.links == markdown::page_links(input.body)
}

proof fn lemma_shows(slug: Seq<char>, page: PageView, input: PagePutView)
    requires
        slug == input.slug,
        pages::explicit_provenance(input.provenance) is Ok,
        page.title == input.title,
        page.kind == input.kind,
        page.summary == input.summary,
        page.body == input.body,
        page.source_ids == pages::distinct(input.source_ids),
        page.provenance == pages::explicit_provenance(input.provenance)->Ok_0,
        page.links == markdown::page_links(input.body),
    ensures
        shows(pages::record_of(slug, page), input),
{
    refusals::lemma_distinct(input.source_ids);
    if input.source_ids.len() > 0 {
        assert(input.source_ids.to_set().contains(input.source_ids[0]));
        assert(page.source_ids.to_set().contains(input.source_ids[0]));
    } else if page.source_ids.len() > 0 {
        assert(input.source_ids.contains(page.source_ids[0]));
    }
}

/// A page that is written can be read back with the title, kind, summary and body that were
/// asked for, with the links of its body, and citing only sources that are there. Of a page
/// that was there already that holds unless different contents share a fingerprint. The other
/// pages and all sources stay as they are.
pub proof fn law_page_reads_back(
    store: StoreView,
    segments: SegmentsView,
    input: PagePutView,
    seen: Option<Seq<char>>,
    now: Seq<char>,
    revision: Seq<char>,
)
    ensures
        pages::page_put_goal(store, segments, input, seen, now, revision) matches Ok(next) ==> {
            let page = pages::wanted_page(
                store,
                input,
                pages::explicit_provenance(input.provenance)->Ok_0,
                now,
            );
            &&& sound(store) ==> sound(next)
            &&& next.sources == store.sources
            &&& forall|other: Seq<char>|
                other != input.slug ==> pages::shown_page(next, other)
                    == #[trigger] pages::shown_page(store, other)
            &&& !pages::is_unchanged(store, input.slug, page) ==> pages::shown_page(
                next,
                input.slug,
            ) == Ok::<PageRecordView, AppErrorView>(pages::record_of(input.slug, page))
            &&& pages::is_unchanged(store, input.slug, page) ==> next == store
            &&& marks_tell(store.pages[input.slug], page) ==> {
                &&& pages::shown_page(next, input.slug) matches Ok(record)
                &&& shows(record, input)
            }
        },
        !store.pages.dom().contains(input.slug) ==> pages::shown_page(store, input.slug) == Err::<
            PageRecordView,
            AppErrorView,
        >(pages::page_missing(input.slug)),
{
    if let Ok(next) = pages::page_put_goal(store, segments, input, seen, now, revision) {
        let provenance = pages::explicit_provenance(input.provenance)->Ok_0;
        let page = pages::wanted_page(store, input, provenance, now);
        lemma_shows(input.slug, page, input);
        if pages::is_unchanged(store, input.slug, page) && marks_tell(
            store.pages[input.slug],
            page,
        ) {
            lemma_page_json(store.pages[input.slug], page);
            lemma_shows(input.slug, store.pages[input.slug], input);
        }
        if !pages::is_unchanged(store, input.slug, page) && sound(store) {
            lemma_none_missing(store, page.source_ids);
            let written = pages::page_written(store, segments, input.slug, page)->Ok_0;
            assert(written.pages == store.pages.insert(input.slug, page));
            assert(citations_resolve(written)) by {
                assert forall|slug: Seq<char>, k: int|
                    #![trigger written.pages[slug].source_ids[k]]
                    written.pages.dom().contains(slug) && 0 <= k
                        < written.pages[slug].source_ids.len()
                        implies written.sources.dom().contains(written.pages[slug].source_ids[k]) by {
                    if slug != input.slug {
                        assert(store.sources.dom().contains(store.pages[slug].source_ids[k]));
                    } else {
                        assert(store.sources.dom().contains(page.source_ids[k]));
                    }
                }
            }
            assert(sources_sound(written));
            assert(jobs_belong(written));
            assert(paths_sound(written));
            assert(log_sound(written));
            law_log_only_grows(
                written,
                "page_put"@,
                input.slug,
                JsonView::Object(
                    seq![
                        crate::json::entry(
                            "created"@,
                            JsonView::Bool(!store.pages.dom().contains(input.slug)),
                        ),
                    ],
                ),
                now,
                revision,
            );
        }
    }
}

/// To write the same page once more changes nothing, whatever version the writer had before
/// them, and whenever it is: the page is read as before, no operation is written down, the
/// revision of the store stays, and the page is not a new one.
pub proof fn law_same_page_changes_nothing(
    store: StoreView,
    segments: SegmentsView,
    input: PagePutView,
    seen: Option<Seq<char>>,
    now: Seq<char>,
    revision: Seq<char>,
    later: Seq<char>,
    seen_again: Option<Seq<char>>,
    other_revision: Seq<char>,
)
    ensures
        pages::page_put_goal(store, segments, input, seen, now, revision) matches Ok(next)
            ==> {
            &&& pages::page_put_goal(next, segments, input, seen_again, later, other_revision)
                == Ok::<StoreView, AppErrorView>(next)
            &&& next.pages.dom().contains(input.slug)
            &&& pages::is_unchanged(
                next,
                input.slug,
                pages::wanted_page(
                    next,
                    input,
                    pages::explicit_provenance(input.provenance)->Ok_0,
                    later,
                ),
            )
        },
{
    if let Ok(next) = pages::page_put_goal(store, segments, input, seen, now, revision) {
        let provenance = pages::explicit_provenance(input.provenance)->Ok_0;
        let page = pages::wanted_page(store, input, provenance, now);
        let again = pages::wanted_page(next, input, provenance, later);
        assert(pages::page_json(page) == pages::page_json(again));
        if !pages::is_unchanged(store, input.slug, page) {
            let written = pages::page_written(store, segments, input.slug, page)->Ok_0;
            assert(written.pages == store.pages.insert(input.slug, page));
            assert(next.pages[input.slug] == page);
        }
        assert(pages::is_unchanged(next, input.slug, again));
    }
}

/// The spans of a page that was just written, as a search shows them, give the texts that
/// stand there in its body. What stood under their identifiers before must belong to the body,
/// as it does unless different spans share a digest.
pub proof fn law_written_spans_resolve(
    store: StoreView,
    segments: SegmentsView,
    input: PagePutView,
    seen: Option<Seq<char>>,
    now: Seq<char>,
    revision: Seq<char>,
)
    requires
        utf8::encode_utf8(input.body).len() <= i64::MAX,
        utf8::encode_utf8(input.body).len() <= usize::MAX,
        spans::known_spans_fit(
            store.spans,
            DocumentView {
                document_type: "page"@,
                identifier: input.slug,
                content: input.body,
                version: segments.version,
            },
        ),
    ensures
        pages::page_put_goal(store, segments, input, seen, now, revision) matches Ok(next) ==> {
            let page = pages::wanted_page(
                store,
                input,
                pages::explicit_provenance(input.provenance)->Ok_0,
                now,
            );
            !pages::is_unchanged(store, input.slug, page) ==> forall|id: Seq<char>|
                spans::in_use(next.spans, id) && next.spans[id].document_type == "page"@
                    && next.spans[id].document_identifier == input.slug ==> {
                    &&& #[trigger] spans::span_record(next, id, segments.version) matches Ok(record)
                    &&& spans::text_between(
                        input.body,
                        record.byte_start as int,
                        record.byte_end as int,
                    ) == Some(record.text)
                }
        },
{
    if let Ok(next) = pages::page_put_goal(store, segments, input, seen, now, revision) {
        let provenance = pages::explicit_provenance(input.provenance)->Ok_0;
        let page = pages::wanted_page(store, input, provenance, now);
        if !pages::is_unchanged(store, input.slug, page) {
            let document = DocumentView {
                document_type: "page"@,
                identifier: input.slug,
                content: input.body,
                version: segments.version,
            };
            let start = StoreView { pages: store.pages.insert(input.slug, page), ..store };
            reveal_strlit("page");
            reveal_strlit("source");
            assert("page"@.len() == 4 && "source"@.len() == 6);
            spans::law_indexed_spans_resolve(start, segments, document, segments.version);
            let cut = spans::indexed(start, segments, "page"@, input.slug, input.body)->Ok_0;
            assert forall|id: Seq<char>|
                spans::in_use(next.spans, id) && next.spans[id].document_type == "page"@
                    && next.spans[id].document_identifier == input.slug implies {
                &&& #[trigger] spans::span_record(next, id, segments.version) matches Ok(record)
                &&& spans::text_between(
                    input.body,
                    record.byte_start as int,
                    record.byte_end as int,
                ) == Some(record.text)
            } by {
                assert(spans::span_record(next, id, segments.version) == spans::span_record(
                    cut,
                    id,
                    segments.version,
                ));
            }
        }
    }
}

/// A writer who has another version of a page before them than the store has is refused.
pub proof fn law_unseen_change_is_not_overwritten(
    store: StoreView,
    segments: SegmentsView,
    input: PagePutView,
    seen: Option<Seq<char>>,
    now: Seq<char>,
    revision: Seq<char>,
)
    requires
        pages::page_version_mark(store, input.slug) != seen,
    ensures
        pages::page_put_goal(store, segments, input, seen, now, revision) matches Ok(next) ==> next
            == store,
{
}

/// A page that another one links to is not removed; what is removed is gone, and all other
/// pages stay as they are.
pub proof fn law_linked_pages_stay(
    store: StoreView,
    slug: Seq<char>,
    from: Seq<char>,
    now: Seq<char>,
    revision: Seq<char>,
)
    requires
        sound(store),
    ensures
        store.pages.dom().contains(from) && from != slug && pages::linking(store, slug).contains(
            from,
        ) ==> pages::page_remove_goal(store, slug, now, revision) is Err,
        pages::page_remove_goal(store, slug, now, revision) matches Ok(next) ==> {
            &&& sound(next)
            &&& pages::shown_page(next, slug) == Err::<PageRecordView, AppErrorView>(
                pages::page_missing(slug),
            )
            &&& next.pages == store.pages.remove(slug)
            &&& next.sources == store.sources
        },
{
    let inbound = pages::linking(store, slug).remove(slug);
    if store.pages.dom().contains(from) && from != slug && pages::linking(store, slug).contains(
        from,
    ) {
        assert(pages::linking(store, slug).subset_of(store.pages.dom()));
        vstd::set_lib::lemma_set_subset_finite(store.pages.dom(), pages::linking(store, slug));
        assert(inbound.contains(from));
        if inbound.len() == 0 {
            inbound.lemma_len0_is_empty();
        }
    }
    if let Ok(next) = pages::page_remove_goal(store, slug, now, revision) {
        let quiet = pages::forgotten(
            StoreView { spans: spans::deactivated(store.spans, "page"@, slug), ..store },
            "page"@,
            slug,
        );
        assert(sound(quiet));
        law_log_only_grows(
            quiet,
            "page_remove"@,
            slug,
            JsonView::Object(Seq::empty()),
            now,
            revision,
        );
        assert(citations_resolve(next)) by {
            assert forall|other: Seq<char>, k: int|
                #![trigger next.pages[other].source_ids[k]]
                next.pages.dom().contains(other) && 0 <= k < next.pages[other].source_ids.len()
                    implies next.sources.dom().contains(next.pages[other].source_ids[k]) by {
                assert(store.pages.dom().contains(other));
                assert(store.sources.dom().contains(store.pages[other].source_ids[k]));
            }
        }
    }
}

} // verus!
