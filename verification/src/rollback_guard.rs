//! What takes a rollback of a sparse changeset back in its turn.
use crate::changeset_log;
use crate::changesets::{ChangesetHistoryState, HistoryView};
use crate::digest;
use crate::digest::hash_content;
use crate::error;
use crate::error::{AppError, AppErrorView, ErrorCode};
use crate::sparse_inverse;
use crate::sparse_inverse::{
    sparse_tracked_path_fingerprint, state_of_page, state_of_source, InversePayload, InverseView,
    MetaInverse, MetaInverseView, PageInverse, PageInverseView, SourceInverse, SourceInverseView,
    TagInverse, TagInverseView, TrackedPathInverse, TrackedPathInverseView,
};
use crate::sparse_merge;
use crate::sparse_merge::{find_remap, RemapView, SourceIdRemap};
use crate::sparse_rollback;
use crate::sparse_rollback::load_renamed;
use crate::staging;
use crate::staging::tag_snapshot_fingerprint;
use crate::store;
use crate::store::{Store, StoreView};
use crate::table::{copy_record_opt, copy_records, Record};
use crate::text;
use crate::text::owned;
use vstd::prelude::*;

verus! {

/// What takes the rollback of a page back.
pub open spec fn page_guard(store: StoreView, page: PageInverseView) -> Result<
    PageInverseView,
    AppErrorView,
> {
    Ok(
        PageInverseView {
            slug: page.slug,
            inbound_links: sparse_inverse::inbound_links(store, page.slug),
            before: sparse_inverse::page_of(store, page.slug),
            after: page.before,
            after_fingerprint: sparse_inverse::page_state(page.before),
        },
    )
}

fn guard_page(live: &Store, page: &PageInverse) -> (r: Result<PageInverse, AppError>)
    ensures
        error::outcome(r) == page_guard(live@, page@),
{
    Ok(
        PageInverse {
            slug: owned(page.slug.as_str()),
            inbound_links: live.load_sparse_page_inbound_links(page.slug.as_str()),
            before: live.load_sparse_page_snapshot(page.slug.as_str()),
            after: copy_record_opt(&page.before),
            after_fingerprint: state_of_page(&page.before),
        },
    )
}

/// What takes the rollback of the first `count` pages back.
pub open spec fn page_guards(
    store: StoreView,
    items: Seq<PageInverseView>,
    count: nat,
) -> Result<Seq<PageInverseView>, AppErrorView>
    decreases count,
{
    if count == 0 || count > items.len() {
        Ok(Seq::empty())
    } else {
        match page_guards(store, items, (count - 1) as nat) {
            Err(e) => Err(e),
            Ok(head) => match page_guard(store, items[count - 1]) {
                Err(e) => Err(e),
                Ok(one) => Ok(head.push(one)),
            },
        }
    }
}

proof fn lemma_page_guards_stop(
    store: StoreView,
    items: Seq<PageInverseView>,
    count: nat,
    more: nat,
)
    requires
        count <= more <= items.len(),
        page_guards(store, items, count) is Err,
    ensures
        page_guards(store, items, more) == page_guards(store, items, count),
    decreases more,
{
    if count < more {
        lemma_page_guards_stop(store, items, count, (more - 1) as nat);
    }
}

/// What takes the rollback of the first `count` pages back.
fn guard_pages(
    live: &Store,
    items: &Vec<PageInverse>,
) -> (r: Result<Vec<PageInverse>, AppError>)
    ensures
        match page_guards(live@, text::views(items@), items@.len()) {
            Ok(list) => r matches Ok(got) && text::views(got@) == list,
            Err(e) => r matches Err(got) && got@ == e,
        },
{
    let ghost all = text::views(items@);
    let mut out: Vec<PageInverse> = Vec::new();
    assert(text::views(out@) =~= Seq::empty());
    let mut i: usize = 0;
    while i < items.len()
        invariant
            i <= items@.len() == all.len(),
            all == text::views(items@),
            page_guards(live@, all, i as nat) == Ok::<Seq<PageInverseView>, AppErrorView>(
                text::views(out@),
            ),
        decreases items@.len() - i,
    {
        assert(all[i as int] == items@[i as int]@);
        match guard_page(live, &items[i]) {
            Ok(one) => {
                proof {
                    text::lemma_views_push(out@, one);
                }
                out.push(one);
            },
            Err(e) => {
                proof {
                    lemma_page_guards_stop(live@, all, (i + 1) as nat, all.len());
                }
                return Err(e);
            },
        }
        i += 1;
    }
    Ok(out)
}

/// What takes the rollback of a piece of metadata back.
pub open spec fn meta_guard(store: StoreView, entry: MetaInverseView) -> Result<
    MetaInverseView,
    AppErrorView,
> {
    match store::meta_value(store, entry.key) {
        None => Err(store::no_rows()),
        Some(current) => Ok(
            MetaInverseView {
                key: entry.key,
                before: current,
                after_fingerprint: digest::text_digest(entry.before),
            },
        ),
    }
}

fn guard_meta(live: &Store, entry: &MetaInverse) -> (r: Result<MetaInverse, AppError>)
    ensures
        error::outcome(r) == meta_guard(live@, entry@),
{
    match live.meta_text(entry.key.as_str()) {
        None => Err(store::no_rows_error()),
        Some(current) => Ok(
            MetaInverse {
                key: owned(entry.key.as_str()),
                before: current,
                after_fingerprint: hash_content(entry.before.as_str()),
            },
        ),
    }
}

/// What takes the rollback of the first `count` pieces of metadata back.
pub open spec fn meta_guards(
    store: StoreView,
    items: Seq<MetaInverseView>,
    count: nat,
) -> Result<Seq<MetaInverseView>, AppErrorView>
    decreases count,
{
    if count == 0 || count > items.len() {
        Ok(Seq::empty())
    } else {
        match meta_guards(store, items, (count - 1) as nat) {
            Err(e) => Err(e),
            Ok(head) => match meta_guard(store, items[count - 1]) {
                Err(e) => Err(e),
                Ok(one) => Ok(head.push(one)),
            },
        }
    }
}

proof fn lemma_meta_guards_stop(
    store: StoreView,
    items: Seq<MetaInverseView>,
    count: nat,
    more: nat,
)
    requires
        count <= more <= items.len(),
        meta_guards(store, items, count) is Err,
    ensures
        meta_guards(store, items, more) == meta_guards(store, items, count),
    decreases more,
{
    if count < more {
        lemma_meta_guards_stop(store, items, count, (more - 1) as nat);
    }
}

/// What takes the rollback of the first `count` pieces of metadata back.
fn guard_metas(
    live: &Store,
    items: &Vec<MetaInverse>,
) -> (r: Result<Vec<MetaInverse>, AppError>)
    ensures
        match meta_guards(live@, text::views(items@), items@.len()) {
            Ok(list) => r matches Ok(got) && text::views(got@) == list,
            Err(e) => r matches Err(got) && got@ == e,
        },
{
    let ghost all = text::views(items@);
    let mut out: Vec<MetaInverse> = Vec::new();
    assert(text::views(out@) =~= Seq::empty());
    let mut i: usize = 0;
    while i < items.len()
        invariant
            i <= items@.len() == all.len(),
            all == text::views(items@),
            meta_guards(live@, all, i as nat) == Ok::<Seq<MetaInverseView>, AppErrorView>(
                text::views(out@),
            ),
        decreases items@.len() - i,
    {
        assert(all[i as int] == items@[i as int]@);
        match guard_meta(live, &items[i]) {
            Ok(one) => {
                proof {
                    text::lemma_views_push(out@, one);
                }
                out.push(one);
            },
            Err(e) => {
                proof {
                    lemma_meta_guards_stop(live@, all, (i + 1) as nat, all.len());
                }
                return Err(e);
            },
        }
        i += 1;
    }
    Ok(out)
}

/// What takes the rollback of a source back; it stands under the identifier that it had
/// in the draft.
pub open spec fn source_guard(
    store: StoreView,
    entry: SourceInverseView,
    remaps: Seq<RemapView>,
) -> Result<SourceInverseView, AppErrorView> {
    let remap = sparse_merge::remap_of(remaps, entry.source_id);
    let at = if remap is Some {
        remap->0.live_id
    } else {
        entry.source_id
    };
    Ok(
        SourceInverseView {
            source_id: entry.source_id,
            before: sparse_rollback::renamed(
                sparse_inverse::source_snapshot(store, at),
                entry.source_id,
            ),
            after_fingerprint: sparse_inverse::source_state(entry.before),
        },
    )
}

fn guard_source(live: &Store, entry: &SourceInverse, remaps: &Vec<SourceIdRemap>) -> (r: Result<
    SourceInverse,
    AppError,
>)
    ensures
        error::outcome(r) == source_guard(live@, entry@, text::views(remaps@)),
{
    let at: i64 = match find_remap(remaps, entry.source_id) {
        Some(remap) => remap.live_id,
        None => entry.source_id,
    };
    Ok(
        SourceInverse {
            source_id: entry.source_id,
            before: load_renamed(live, at, entry.source_id),
            after_fingerprint: state_of_source(&entry.before),
        },
    )
}

/// What takes the rollback of the first `count` sources back.
pub open spec fn source_guards(
    store: StoreView,
    items: Seq<SourceInverseView>,
    remaps: Seq<RemapView>,
    count: nat,
) -> Result<Seq<SourceInverseView>, AppErrorView>
    decreases count,
{
    if count == 0 || count > items.len() {
        Ok(Seq::empty())
    } else {
        match source_guards(store, items, remaps, (count - 1) as nat) {
            Err(e) => Err(e),
            Ok(head) => match source_guard(store, items[count - 1], remaps) {
                Err(e) => Err(e),
                Ok(one) => Ok(head.push(one)),
            },
        }
    }
}

proof fn lemma_source_guards_stop(
    store: StoreView,
    items: Seq<SourceInverseView>,
    remaps: Seq<RemapView>,
    count: nat,
    more: nat,
)
    requires
        count <= more <= items.len(),
        source_guards(store, items, remaps, count) is Err,
    ensures
        source_guards(store, items, remaps, more) == source_guards(store, items, remaps, count),
    decreases more,
{
    if count < more {
        lemma_source_guards_stop(store, items, remaps, count, (more - 1) as nat);
    }
}

/// What takes the rollback of the first `count` sources back.
fn guard_sources(
    live: &Store,
    items: &Vec<SourceInverse>,
    remaps: &Vec<SourceIdRemap>,
) -> (r: Result<Vec<SourceInverse>, AppError>)
    ensures
        match source_guards(live@, text::views(items@), text::views(remaps@), items@.len()) {
            Ok(list) => r matches Ok(got) && text::views(got@) == list,
            Err(e) => r matches Err(got) && got@ == e,
        },
{
    let ghost all = text::views(items@);
    let mut out: Vec<SourceInverse> = Vec::new();
    assert(text::views(out@) =~= Seq::empty());
    let mut i: usize = 0;
    while i < items.len()
        invariant
            i <= items@.len() == all.len(),
            all == text::views(items@),
            source_guards(live@, all, text::views(remaps@), i as nat) == Ok::<Seq<SourceInverseView>, AppErrorView>(
                text::views(out@),
            ),
        decreases items@.len() - i,
    {
        assert(all[i as int] == items@[i as int]@);
        match guard_source(live, &items[i], remaps) {
            Ok(one) => {
                proof {
                    text::lemma_views_push(out@, one);
                }
                out.push(one);
            },
            Err(e) => {
                proof {
                    lemma_source_guards_stop(live@, all, text::views(remaps@), (i + 1) as nat, all.len());
                }
                return Err(e);
            },
        }
        i += 1;
    }
    Ok(out)
}

/// What takes the rollback of a tracked path back.
pub open spec fn path_guard(store: StoreView, entry: TrackedPathInverseView) -> Result<
    TrackedPathInverseView,
    AppErrorView,
> {
    Ok(
        TrackedPathInverseView {
            tracked_path: entry.tracked_path,
            before: crate::sources::path_log(store.paths, entry.tracked_path),
            after: entry.before,
            after_fingerprint: sparse_inverse::path_mark(entry.before),
        },
    )
}

fn guard_path(live: &Store, entry: &TrackedPathInverse) -> (r: Result<TrackedPathInverse, AppError>)
    ensures
        error::outcome(r) == path_guard(live@, entry@),
{
    Ok(
        TrackedPathInverse {
            tracked_path: owned(entry.tracked_path.as_str()),
            before: live.load_sparse_tracked_path(entry.tracked_path.as_str()),
            after: copy_records(&entry.before),
            after_fingerprint: sparse_tracked_path_fingerprint(&entry.before),
        },
    )
}

/// What takes the rollback of the first `count` tracked paths back.
pub open spec fn path_guards(
    store: StoreView,
    items: Seq<TrackedPathInverseView>,
    count: nat,
) -> Result<Seq<TrackedPathInverseView>, AppErrorView>
    decreases count,
{
    if count == 0 || count > items.len() {
        Ok(Seq::empty())
    } else {
        match path_guards(store, items, (count - 1) as nat) {
            Err(e) => Err(e),
            Ok(head) => match path_guard(store, items[count - 1]) {
                Err(e) => Err(e),
                Ok(one) => Ok(head.push(one)),
            },
        }
    }
}

proof fn lemma_path_guards_stop(
    store: StoreView,
    items: Seq<TrackedPathInverseView>,
    count: nat,
    more: nat,
)
    requires
        count <= more <= items.len(),
        path_guards(store, items, count) is Err,
    ensures
        path_guards(store, items, more) == path_guards(store, items, count),
    decreases more,
{
    if count < more {
        lemma_path_guards_stop(store, items, count, (more - 1) as nat);
    }
}

/// What takes the rollback of the first `count` tracked paths back.
fn guard_paths(
    live: &Store,
    items: &Vec<TrackedPathInverse>,
) -> (r: Result<Vec<TrackedPathInverse>, AppError>)
    ensures
        match path_guards(live@, text::views(items@), items@.len()) {
            Ok(list) => r matches Ok(got) && text::views(got@) == list,
            Err(e) => r matches Err(got) && got@ == e,
        },
{
    let ghost all = text::views(items@);
    let mut out: Vec<TrackedPathInverse> = Vec::new();
    assert(text::views(out@) =~= Seq::empty());
    let mut i: usize = 0;
    while i < items.len()
        invariant
            i <= items@.len() == all.len(),
            all == text::views(items@),
            path_guards(live@, all, i as nat) == Ok::<Seq<TrackedPathInverseView>, AppErrorView>(
                text::views(out@),
            ),
        decreases items@.len() - i,
    {
        assert(all[i as int] == items@[i as int]@);
        match guard_path(live, &items[i]) {
            Ok(one) => {
                proof {
                    text::lemma_views_push(out@, one);
                }
                out.push(one);
            },
            Err(e) => {
                proof {
                    lemma_path_guards_stop(live@, all, (i + 1) as nat, all.len());
                }
                return Err(e);
            },
        }
        i += 1;
    }
    Ok(out)
}

/// What takes the rollback of a tag back.
pub open spec fn tag_guard(store: StoreView, entry: TagInverseView) -> Result<
    TagInverseView,
    AppErrorView,
> {
    Ok(
        TagInverseView {
            name: entry.name,
            before: staging::tag_snapshot(store, entry.name),
            after_fingerprint: staging::tag_mark(entry.before),
        },
    )
}

fn guard_tag(live: &Store, entry: &TagInverse) -> (r: Result<TagInverse, AppError>)
    ensures
        error::outcome(r) == tag_guard(live@, entry@),
{
    Ok(
        TagInverse {
            name: owned(entry.name.as_str()),
            before: live.load_tag_snapshot(entry.name.as_str()),
            after_fingerprint: tag_snapshot_fingerprint(&entry.before),
        },
    )
}

/// What takes the rollback of the first `count` tags back.
pub open spec fn tag_guards(
    store: StoreView,
    items: Seq<TagInverseView>,
    count: nat,
) -> Result<Seq<TagInverseView>, AppErrorView>
    decreases count,
{
    if count == 0 || count > items.len() {
        Ok(Seq::empty())
    } else {
        match tag_guards(store, items, (count - 1) as nat) {
            Err(e) => Err(e),
            Ok(head) => match tag_guard(store, items[count - 1]) {
                Err(e) => Err(e),
                Ok(one) => Ok(head.push(one)),
            },
        }
    }
}

proof fn lemma_tag_guards_stop(
    store: StoreView,
    items: Seq<TagInverseView>,
    count: nat,
    more: nat,
)
    requires
        count <= more <= items.len(),
        tag_guards(store, items, count) is Err,
    ensures
        tag_guards(store, items, more) == tag_guards(store, items, count),
    decreases more,
{
    if count < more {
        lemma_tag_guards_stop(store, items, count, (more - 1) as nat);
    }
}

/// What takes the rollback of the first `count` tags back.
fn guard_tags(
    live: &Store,
    items: &Vec<TagInverse>,
) -> (r: Result<Vec<TagInverse>, AppError>)
    ensures
        match tag_guards(live@, text::views(items@), items@.len()) {
            Ok(list) => r matches Ok(got) && text::views(got@) == list,
            Err(e) => r matches Err(got) && got@ == e,
        },
{
    let ghost all = text::views(items@);
    let mut out: Vec<TagInverse> = Vec::new();
    assert(text::views(out@) =~= Seq::empty());
    let mut i: usize = 0;
    while i < items.len()
        invariant
            i <= items@.len() == all.len(),
            all == text::views(items@),
            tag_guards(live@, all, i as nat) == Ok::<Seq<TagInverseView>, AppErrorView>(
                text::views(out@),
            ),
        decreases items@.len() - i,
    {
        assert(all[i as int] == items@[i as int]@);
        match guard_tag(live, &items[i]) {
            Ok(one) => {
                proof {
                    text::lemma_views_push(out@, one);
                }
                out.push(one);
            },
            Err(e) => {
                proof {
                    lemma_tag_guards_stop(live@, all, (i + 1) as nat, all.len());
                }
                return Err(e);
            },
        }
        i += 1;
    }
    Ok(out)
}

/// What takes a rollback with an inverse patch back.
pub open spec fn guard_goal(store: StoreView, history: HistoryView, inverse: InverseView) -> Result<
    InverseView,
    AppErrorView,
> {
    if history.pre_commit_checkpoint is None {
        error::refused(
            ErrorCode::ChangesetCorrupt,
            "committed changeset has no pre-commit checkpoint"@,
        )
    } else {
        match store::live_identity(store) {
            Err(e) => Err(e),
            Ok(identity) => match changeset_log::committed_remaps(store, history.id) {
                Err(e) => Err(e),
                Ok(remaps) => match page_guards(store, inverse.pages, inverse.pages.len()) {
                    Err(e) => Err(e),
                    Ok(pages) => match meta_guards(store, inverse.meta, inverse.meta.len()) {
                        Err(e) => Err(e),
                        Ok(meta) => match source_guards(
                            store,
                            inverse.sources,
                            remaps,
                            inverse.sources.len(),
                        ) {
                            Err(e) => Err(e),
                            Ok(sources) => match path_guards(
                                store,
                                inverse.source_paths,
                                inverse.source_paths.len(),
                            ) {
                                Err(e) => Err(e),
                                Ok(source_paths) => match tag_guards(
                                    store,
                                    inverse.tags,
                                    inverse.tags.len(),
                                ) {
                                    Err(e) => Err(e),
                                    Ok(tags) => Ok(
                                        InverseView {
                                            version: sparse_inverse::INVERSE_VERSION,
                                            changeset_id: history.id,
                                            store_id: identity.store_id,
                                            pages,
                                            meta,
                                            sources,
                                            source_paths,
                                            tags,
                                        },
                                    ),
                                },
                            },
                        },
                    },
                },
            },
        }
    }
}

impl Store {
    /// What takes the rollback of a committed sparse changeset back, as an inverse patch
    /// of its own.
    pub fn changeset_sparse_rollback_checkpoint_create(
        &self,
        history: &ChangesetHistoryState,
        inverse: &InversePayload,
    ) -> (r: Result<InversePayload, AppError>)
        ensures
            error::outcome(r) == guard_goal(self@, history@, inverse@),
    {
        if history.pre_commit_checkpoint.is_none() {
            return Err(
                AppError::new(
                    ErrorCode::ChangesetCorrupt,
                    "committed changeset has no pre-commit checkpoint",
                ),
            );
        }
        let identity = match self.identity() {
            Ok(identity) => identity,
            Err(e) => {
                return Err(e);
            },
        };
        let remaps = match self.load_sparse_source_id_remap(history.id.as_str()) {
            Ok(remaps) => remaps,
            Err(e) => {
                return Err(e);
            },
        };
        proof {
            assert(inverse@.pages.len() == inverse.pages@.len());
            assert(inverse@.meta.len() == inverse.meta@.len());
            assert(inverse@.sources.len() == inverse.sources@.len());
            assert(inverse@.source_paths.len() == inverse.source_paths@.len());
            assert(inverse@.tags.len() == inverse.tags@.len());
        }
        let pages = match guard_pages(self, &inverse.pages) {
            Ok(pages) => pages,
            Err(e) => {
                return Err(e);
            },
        };
        let meta = match guard_metas(self, &inverse.meta) {
            Ok(meta) => meta,
            Err(e) => {
                return Err(e);
            },
        };
        let sources = match guard_sources(self, &inverse.sources, &remaps) {
            Ok(sources) => sources,
            Err(e) => {
                return Err(e);
            },
        };
        let source_paths = match guard_paths(self, &inverse.source_paths) {
            Ok(source_paths) => source_paths,
            Err(e) => {
                return Err(e);
            },
        };
        let tags = match guard_tags(self, &inverse.tags) {
            Ok(tags) => tags,
            Err(e) => {
                return Err(e);
            },
        };
        Ok(
            InversePayload {
                version: sparse_inverse::INVERSE_VERSION,
                changeset_id: owned(history.id.as_str()),
                store_id: owned(identity.store_id.as_str()),
                pages,
                meta,
                sources,
                source_paths,
                tags,
            },
        )
    }
}

} // verus!
