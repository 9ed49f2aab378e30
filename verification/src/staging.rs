//! Staging: what a sparse draft copies from the live store before it changes it.
use crate::digest;
use crate::digest::hash_content;
use crate::error::{AppError, AppErrorView};
use crate::json;
use crate::json::{canonical_sync_value, Json, JsonView};
use crate::pages;
use crate::pages::dedupe_i64;
use crate::refusals;
use crate::rows::{
    PageView, SourceView, TagMember, TagMemberView, TagPolicy, TagPolicyView, TagRow, TagView,
};
use crate::sources;
use crate::sources::has_id;
use crate::store;
use crate::store::{Store, StoreView};
use crate::table;
use crate::table::{copy_ids, copy_record_opt, same_record_opt, Record, Table};
use crate::text;
use crate::text::{copy_texts, join2, owned};
use crate::touched;
use vstd::prelude::*;

verus! {

// ---------------------------------------------------------------------------
// Tags
// ---------------------------------------------------------------------------

/// A tag at a moment: its policy, where it is there, and its pages.
pub struct TagSnapshot {
    pub policy: Option<TagPolicy>,
    pub memberships: Table<String, TagMember>,
}

#[verifier::ext_equal]
pub struct TagSnapshotView {
    pub policy: Option<TagPolicyView>,
    pub memberships: Map<Seq<char>, TagMemberView>,
}

impl View for TagSnapshot {
    type V = TagSnapshotView;

    open spec fn view(&self) -> TagSnapshotView {
        TagSnapshotView {
            policy: text::opt_view(self.policy),
            memberships: self.memberships@,
        }
    }
}

impl Record for TagSnapshot {
    fn duplicate(&self) -> (r: Self) {
        TagSnapshot {
            policy: copy_record_opt(&self.policy),
            memberships: self.memberships.copy(),
        }
    }

    fn same(&self, other: &Self) -> (r: bool) {
        same_record_opt(&self.policy, &other.policy)
            && self.memberships.equals(&other.memberships)
    }
}


/// A tag of a store at this moment.
pub open spec fn tag_snapshot(store: StoreView, tag: Seq<char>) -> TagSnapshotView {
    if store.tags.dom().contains(tag) {
        TagSnapshotView {
            policy: Some(store.tags[tag].policy),
            memberships: store.tags[tag].members,
        }
    } else {
        TagSnapshotView { policy: None, memberships: Map::empty() }
    }
}

/// The policy of a tag as JSON.
pub open spec fn policy_json(policy: TagPolicyView) -> JsonView {
    JsonView::Object(
        seq![
            json::entry("autoload"@, JsonView::Bool(policy.autoload)),
            json::entry("autoload_limit"@, JsonView::Int(policy.autoload_limit as int)),
            json::entry("autoload_max_chars"@, JsonView::Int(policy.autoload_max_chars as int)),
            json::entry("autoload_priority"@, JsonView::Int(policy.autoload_priority as int)),
            json::entry("reason"@, JsonView::Text(policy.reason)),
            json::entry("updated_at"@, JsonView::Text(policy.updated_at)),
        ],
    )
}

/// The membership of a page in a tag as JSON.
pub open spec fn member_json(slug: Seq<char>, member: TagMemberView) -> JsonView {
    JsonView::Object(
        seq![
            json::entry("created_at"@, JsonView::Text(member.created_at)),
            json::entry("page_slug"@, JsonView::Text(slug)),
            json::entry("priority"@, JsonView::Int(member.priority as int)),
            json::entry("reason"@, JsonView::Text(member.reason)),
            json::entry("updated_at"@, JsonView::Text(member.updated_at)),
        ],
    )
}

/// The memberships of a tag as JSON, by page.
pub open spec fn members_json(members: Map<Seq<char>, TagMemberView>) -> JsonView {
    JsonView::Array(
        table::ordered::<String>(members.dom()).map_values(
            |slug: Seq<char>| member_json(slug, members[slug]),
        ),
    )
}

/// A tag at a moment as JSON.
pub open spec fn tag_json(tag: TagSnapshotView) -> JsonView {
    JsonView::Object(
        seq![
            json::entry("memberships"@, members_json(tag.memberships)),
            json::entry(
                "policy"@,
                match tag.policy {
                    Some(policy) => policy_json(policy),
                    None => JsonView::Null,
                },
            ),
        ],
    )
}

/// The fingerprint of a tag.
pub open spec fn tag_mark(tag: TagSnapshotView) -> Seq<char> {
    digest::text_digest(json::canonical_text(tag_json(tag)))
}

fn encode_policy(policy: &TagPolicy) -> (r: Json)
    ensures
        r@ == policy_json(policy@),
{
    let mut entries: Vec<(String, Json)> = Vec::new();
    entries.push((owned("autoload"), Json::Bool(policy.autoload)));
    entries.push((owned("autoload_limit"), Json::Int(policy.autoload_limit)));
    entries.push((owned("autoload_max_chars"), Json::Int(policy.autoload_max_chars)));
    entries.push((owned("autoload_priority"), Json::Int(policy.autoload_priority)));
    entries.push((owned("reason"), Json::text(policy.reason.as_str())));
    entries.push((owned("updated_at"), Json::text(policy.updated_at.as_str())));
    assert(json::entry_views(entries@) =~= policy_json(policy@)->Object_0);
    Json::object(entries)
}

fn encode_member(slug: &str, member: &TagMember) -> (r: Json)
    ensures
        r@ == member_json(slug@, member@),
{
    let mut entries: Vec<(String, Json)> = Vec::new();
    entries.push((owned("created_at"), Json::text(member.created_at.as_str())));
    entries.push((owned("page_slug"), Json::text(slug)));
    entries.push((owned("priority"), Json::Int(member.priority)));
    entries.push((owned("reason"), Json::text(member.reason.as_str())));
    entries.push((owned("updated_at"), Json::text(member.updated_at.as_str())));
    assert(json::entry_views(entries@) =~= member_json(slug@, member@)->Object_0);
    Json::object(entries)
}

/// A tag at a moment as JSON.
pub fn encode_tag(tag: &TagSnapshot) -> (r: Json)
    ensures
        r@ == tag_json(tag@),
{
    let n = tag.memberships.len();
    let ghost keys = tag.memberships.keys();
    proof {
        table::lemma_ordered_is::<String>(keys, tag.memberships@.dom());
    }
    let mut items: Vec<Json> = Vec::new();
    let mut i: usize = 0;
    while i < n
        invariant
            i <= n == keys.len(),
            keys == tag.memberships.keys(),
            items@.len() == i,
            forall|j: int|
                0 <= j < i ==> (#[trigger] items@[j])@ == member_json(
                    keys[j],
                    tag.memberships@[keys[j]],
                ),
        decreases n - i,
    {
        items.push(
            encode_member(tag.memberships.key_at(i).as_str(), tag.memberships.value_at(i)),
        );
        i += 1;
    }
    proof {
        json::lemma_array_view(items);
        assert(text::views(items@) =~= members_json(tag.memberships@)->Array_0);
    }
    let policy = match &tag.policy {
        Some(policy) => encode_policy(policy),
        None => Json::Null,
    };
    let r = Json::object2("memberships", Json::Array(items), "policy", policy);
    assert(r@->Object_0 =~= tag_json(tag@)->Object_0);
    r
}

/// The fingerprint of a tag.
pub fn tag_snapshot_fingerprint(tag: &TagSnapshot) -> (r: String)
    ensures
        r@ == tag_mark(tag@),
{
    hash_content(canonical_sync_value(&encode_tag(tag)).as_str())
}

impl Store {
    /// A tag at this moment.
    pub fn load_tag_snapshot(&self, tag: &str) -> (r: TagSnapshot)
        ensures
            r@ == tag_snapshot(self@, tag@),
    {
        match self.tags.get(&owned(tag)) {
            Some(row) => TagSnapshot {
                policy: Some(row.policy.duplicate()),
                memberships: row.members.copy(),
            },
            None => TagSnapshot { policy: None, memberships: Table::new() },
        }
    }

    /// Whether there is a tag.
    pub fn tag_exists_for_replay(&self, tag: &str) -> (r: bool)
        ensures
            r == self@.tags.dom().contains(tag@),
    {
        self.tags.has(&owned(tag))
    }
}

// ---------------------------------------------------------------------------
// Touching pages
// ---------------------------------------------------------------------------

/// The members of two lists of texts, in ascending order.
pub open spec fn merged_texts(a: Seq<Seq<char>>, b: Seq<Seq<char>>) -> Seq<Seq<char>> {
    text::sorted(a.to_set() + b.to_set())
}

/// A draft with the page as the live store has it, where it has none of its own.
pub open spec fn page_borrowed(draft: StoreView, live: StoreView, slug: Seq<char>) -> StoreView {
    if !live.pages.dom().contains(slug) {
        draft
    } else if draft.pages.dom().contains(slug) {
        let own = draft.pages[slug];
        StoreView {
            pages: draft.pages.insert(
                slug,
                PageView {
                    links: merged_texts(own.links, live.pages[slug].links),
                    provenance: merged_texts(own.provenance, live.pages[slug].provenance),
                    ..own
                },
            ),
            ..draft
        }
    } else {
        StoreView {
            pages: draft.pages.insert(
                slug,
                PageView { source_ids: Seq::empty(), ..live.pages[slug] },
            ),
            ..draft
        }
    }
}

/// A draft with a source of the live store, without its content.
pub open spec fn source_borrowed(draft: StoreView, live: StoreView, id: i64) -> StoreView {
    if live.sources.dom().contains(id) && !draft.sources.dom().contains(id)
        && sources::source_with_hash(draft, live.sources[id].content_hash) is None {
        StoreView {
            sources: draft.sources.insert(
                id,
                SourceView { content: Seq::empty(), ..live.sources[id] },
            ),
            source_sequence: if id > draft.source_sequence {
                id
            } else {
                draft.source_sequence
            },
            ..draft
        }
    } else {
        draft
    }
}

/// A draft in which a page cites a source.
pub open spec fn citation_added(draft: StoreView, slug: Seq<char>, id: i64) -> Result<
    StoreView,
    AppErrorView,
> {
    let page = draft.pages[slug];
    if page.source_ids.contains(id) {
        Ok(draft)
    } else if !draft.sources.dom().contains(id) || !draft.pages.dom().contains(slug) {
        Err(store::broken_reference())
    } else {
        Ok(
            StoreView {
                pages: draft.pages.insert(
                    slug,
                    PageView { source_ids: pages::distinct(page.source_ids.push(id)), ..page },
                ),
                ..draft
            },
        )
    }
}

/// The live page cites a source.
pub open spec fn cites(live: StoreView, slug: Seq<char>, id: i64) -> bool {
    live.pages.dom().contains(slug) && live.pages[slug].source_ids.contains(id)
}

/// A draft with the first `count` of these sources, and with the citations of the
/// live page where it is first touched.
pub open spec fn sources_borrowed(
    draft: StoreView,
    live: StoreView,
    slug: Seq<char>,
    ids: Seq<i64>,
    first: bool,
    count: nat,
) -> Result<StoreView, AppErrorView>
    decreases count,
{
    if count == 0 || count > ids.len() {
        Ok(draft)
    } else {
        match sources_borrowed(draft, live, slug, ids, first, (count - 1) as nat) {
            Err(e) => Err(e),
            Ok(so_far) => {
                let next = source_borrowed(so_far, live, ids[count - 1]);
                if first && cites(live, slug, ids[count - 1]) {
                    citation_added(next, slug, ids[count - 1])
                } else {
                    Ok(next)
                }
            },
        }
    }
}

/// The sources that touching a page brings into a draft.
pub open spec fn wanted_sources(
    live: StoreView,
    slug: Seq<char>,
    additional: Seq<i64>,
    first: bool,
) -> Seq<i64> {
    pages::distinct(
        if first && live.pages.dom().contains(slug) {
            additional + live.pages[slug].source_ids
        } else {
            additional
        },
    )
}

/// What touching a page comes to. Its fingerprint is kept when it is first touched.
pub open spec fn page_touched(
    draft: StoreView,
    live: StoreView,
    slug: Seq<char>,
    additional: Seq<i64>,
) -> Result<StoreView, AppErrorView> {
    let first = touched::page_base(draft, slug) is None;
    let ids = wanted_sources(live, slug, additional, first);
    let start = if first {
        page_borrowed(draft, live, slug)
    } else {
        draft
    };
    match sources_borrowed(start, live, slug, ids, first, ids.len()) {
        Err(e) => Err(e),
        Ok(next) => if first {
            Ok(
                StoreView {
                    meta: next.meta.insert(
                        "changeset_base_page:"@ + slug,
                        touched::or_absent(pages::content_mark(next, slug)),
                    ),
                    ..next
                },
            )
        } else {
            Ok(next)
        },
    }
}

fn merge_texts(a: &Vec<String>, b: &Vec<String>) -> (r: Vec<String>)
    ensures
        text::views(r@) == merged_texts(text::views(a@), text::views(b@)),
{
    let mut both = copy_texts(a);
    let mut more = copy_texts(b);
    both.append(&mut more);
    proof {
        let x = text::views(a@);
        let y = text::views(b@);
        assert(text::views(both@) =~= x + y);
        assert forall|t: Seq<char>| (x + y).to_set().contains(t) == (x.to_set() + y.to_set()).contains(
            t,
        ) by {
            if x.contains(t) {
                let i = x.index_of(t);
                assert((x + y)[i] == t);
            }
            if y.contains(t) {
                let i = y.index_of(t);
                assert((x + y)[x.len() + i] == t);
            }
            if (x + y).contains(t) {
                let i = (x + y).index_of(t);
                if i < x.len() {
                    assert(x[i] == t);
                } else {
                    assert(y[i - x.len()] == t);
                }
            }
        }
        assert((x + y).to_set() =~= x.to_set() + y.to_set());
    }
    text::sorted_texts(&both)
}

proof fn lemma_borrowed_stop(
    draft: StoreView,
    live: StoreView,
    slug: Seq<char>,
    ids: Seq<i64>,
    first: bool,
    count: nat,
    more: nat,
)
    requires
        count <= more <= ids.len(),
        sources_borrowed(draft, live, slug, ids, first, count) is Err,
    ensures
        sources_borrowed(draft, live, slug, ids, first, more) == sources_borrowed(
            draft,
            live,
            slug,
            ids,
            first,
            count,
        ),
    decreases more,
{
    if count < more {
        lemma_borrowed_stop(draft, live, slug, ids, first, count, (more - 1) as nat);
    }
}

impl Store {
    /// Copies the page of the live store, where the draft has none of its own.
    fn borrow_page(&mut self, live: &Store, slug: &str)
        ensures
            final(self)@ == page_borrowed(old(self)@, live@, slug@),
    {
        let key = owned(slug);
        if let Some(theirs) = live.pages.get(&key) {
            let page = match self.pages.get(&key) {
                Some(own) => {
                    let mut page = own.duplicate();
                    page.links = merge_texts(&own.links, &theirs.links);
                    page.provenance = merge_texts(&own.provenance, &theirs.provenance);
                    page
                },
                None => {
                    let mut page = theirs.duplicate();
                    page.source_ids = Vec::new();
                    page
                },
            };
            self.pages.put(key, page);
        }
    }

    /// Copies a source of the live store without its content.
    pub fn borrow_source(&mut self, live: &Store, id: i64)
        ensures
            final(self)@ == source_borrowed(old(self)@, live@, id),
    {
        if let Some(theirs) = live.sources.get(&id) {
            if !self.sources.has(&id) && self.source_id_by_content_hash(
                theirs.content_hash.as_str(),
            ).is_none() {
                let mut source = theirs.duplicate();
                source.content = String::new();
                self.sources.put(id, source);
                if id > self.source_sequence {
                    self.source_sequence = id;
                }
            }
        }
    }

    /// Lets a page cite a source.
    fn add_citation(&mut self, slug: &str, id: i64) -> (r: Result<(), AppError>)
        requires
            old(self)@.pages.dom().contains(slug@),
        ensures
            store::settled(old(self)@, final(self)@, r, citation_added(old(self)@, slug@, id)),
    {
        let key = owned(slug);
        let mut page = match self.pages.get(&key) {
            Some(page) => page.duplicate(),
            None => {
                return Err(store::broken_reference_error());
            },
        };
        if has_id(&page.source_ids, id) {
            return Ok(());
        }
        if !self.sources.has(&id) {
            return Err(store::broken_reference_error());
        }
        page.source_ids.push(id);
        page.source_ids = dedupe_i64(&page.source_ids);
        self.pages.put(key, page);
        Ok(())
    }

    /// Prepares a sparse draft for a change of a page: what the live store says of it
    /// is copied when the draft first touches it.
    pub fn changeset_prepare_page_touch(
        &mut self,
        live: &Store,
        slug: &str,
        additional_source_ids: &Vec<i64>,
    ) -> (r: Result<(), AppError>)
        ensures
            store::settled(
                old(self)@,
                final(self)@,
                r,
                page_touched(old(self)@, live@, slug@, additional_source_ids@),
            ),
    {
        let base_key = join2("changeset_base_page:", slug);
        let first = !self.meta.has(&base_key);
        let mut next = self.duplicate();
        let mut wanted = copy_ids(additional_source_ids);
        if first {
            next.borrow_page(live, slug);
            if let Some(page) = live.pages.get(&owned(slug)) {
                let mut more = copy_ids(&page.source_ids);
                wanted.append(&mut more);
                assert(wanted@ =~= additional_source_ids@ + page.source_ids@);
            }
        }
        let ids = dedupe_i64(&wanted);
        assert(ids@ == wanted_sources(live@, slug@, additional_source_ids@, first));
        let ghost start = next@;
        let mut i: usize = 0;
        while i < ids.len()
            invariant
                i <= ids@.len(),
                first && live@.pages.dom().contains(slug@) ==> next@.pages.dom().contains(slug@),
                sources_borrowed(start, live@, slug@, ids@, first, i as nat) == Ok::<
                    StoreView,
                    AppErrorView,
                >(next@),
            decreases ids@.len() - i,
        {
            let id = ids[i];
            next.borrow_source(live, id);
            let cited = match live.pages.get(&owned(slug)) {
                Some(page) => has_id(&page.source_ids, id),
                None => false,
            };
            if first && cited {
                if let Err(e) = next.add_citation(slug, id) {
                    proof {
                        lemma_borrowed_stop(
                            start,
                            live@,
                            slug@,
                            ids@,
                            first,
                            (i + 1) as nat,
                            ids@.len(),
                        );
                    }
                    return Err(e);
                }
            }
            i += 1;
        }
        if first {
            let mark = match next.page_mutation_fingerprint(slug) {
                Some(mark) => mark,
                None => owned("absent"),
            };
            next.meta.put(base_key, mark);
        }
        *self = next;
        Ok(())
    }
}

// ---------------------------------------------------------------------------
// Touching tags
// ---------------------------------------------------------------------------

/// A draft with the policy of a tag as the live store has it, and its fingerprint.
pub open spec fn tag_borrowed(draft: StoreView, live: StoreView, tag: Seq<char>) -> StoreView {
    if touched::tag_base(draft, tag) is Some {
        draft
    } else {
        StoreView {
            meta: draft.meta.insert(
                "changeset_base_tag:"@ + tag,
                tag_mark(tag_snapshot(live, tag)),
            ),
            tags: if live.tags.dom().contains(tag) && !draft.tags.dom().contains(tag) {
                draft.tags.insert(
                    tag,
                    TagView { policy: live.tags[tag].policy, members: Map::empty() },
                )
            } else {
                draft.tags
            },
            ..draft
        }
    }
}

/// A draft with a page of the live store, without its body.
pub open spec fn page_outlined(draft: StoreView, live: StoreView, slug: Seq<char>) -> StoreView {
    if live.pages.dom().contains(slug) && !draft.pages.dom().contains(slug) {
        StoreView {
            pages: draft.pages.insert(
                slug,
                PageView {
                    body: Seq::empty(),
                    source_ids: Seq::empty(),
                    provenance: Seq::empty(),
                    links: Seq::empty(),
                    ..live.pages[slug]
                },
            ),
            ..draft
        }
    } else {
        draft
    }
}

/// The live store has a page in a tag.
pub open spec fn is_member(store: StoreView, tag: Seq<char>, slug: Seq<char>) -> bool {
    store.tags.dom().contains(tag) && store.tags[tag].members.dom().contains(slug)
}

/// A draft with a membership of the live store.
pub open spec fn member_borrowed(
    draft: StoreView,
    live: StoreView,
    tag: Seq<char>,
    slug: Seq<char>,
) -> Result<StoreView, AppErrorView> {
    if !is_member(live, tag, slug) || is_member(draft, tag, slug) {
        Ok(draft)
    } else if !draft.tags.dom().contains(tag) || !draft.pages.dom().contains(slug) {
        Err(store::broken_reference())
    } else {
        Ok(
            StoreView {
                tags: draft.tags.insert(
                    tag,
                    TagView {
                        members: draft.tags[tag].members.insert(
                            slug,
                            live.tags[tag].members[slug],
                        ),
                        ..draft.tags[tag]
                    },
                ),
                ..draft
            },
        )
    }
}

/// What touching a tag comes to.
pub open spec fn tag_touched(
    draft: StoreView,
    live: StoreView,
    tag: Seq<char>,
    page: Option<Seq<char>>,
) -> Result<StoreView, AppErrorView> {
    let start = tag_borrowed(draft, live, tag);
    match page {
        None => Ok(start),
        Some(slug) => member_borrowed(page_outlined(start, live, slug), live, tag, slug),
    }
}

impl Store {
    /// Prepares a sparse draft for a change of a tag, whose name is normalised.
    pub fn changeset_prepare_tag_touch(
        &mut self,
        live: &Store,
        tag: &str,
        page: Option<&str>,
    ) -> (r: Result<(), AppError>)
        ensures
            store::settled(
                old(self)@,
                final(self)@,
                r,
                tag_touched(
                    old(self)@,
                    live@,
                    tag@,
                    match page {
                        Some(slug) => Some(slug@),
                        None => None,
                    },
                ),
            ),
    {
        let base_key = join2("changeset_base_tag:", tag);
        let key = owned(tag);
        let mut next = self.duplicate();
        if !self.meta.has(&base_key) {
            let base = live.load_tag_snapshot(tag);
            next.meta.put(base_key, tag_snapshot_fingerprint(&base));
            if let Some(theirs) = live.tags.get(&key) {
                if !next.tags.has(&key) {
                    next.tags.put(
                        owned(tag),
                        TagRow { policy: theirs.policy.duplicate(), members: Table::new() },
                    );
                }
            }
        }
        assert(next@ =~= tag_borrowed(self@, live@, tag@));
        let slug = match page {
            Some(slug) => slug,
            None => {
                *self = next;
                return Ok(());
            },
        };
        let page_key = owned(slug);
        if let Some(theirs) = live.pages.get(&page_key) {
            if !next.pages.has(&page_key) {
                let mut outline = theirs.duplicate();
                outline.body = String::new();
                outline.source_ids = Vec::new();
                outline.provenance = Vec::new();
                outline.links = Vec::new();
                assert(text::views(outline.provenance@) =~= Seq::empty());
                assert(text::views(outline.links@) =~= Seq::empty());
                next.pages.put(owned(slug), outline);
            }
        }
        let theirs = match live.tags.get(&key) {
            Some(row) => row.members.get(&page_key),
            None => None,
        };
        let known = match next.tags.get(&key) {
            Some(row) => row.members.has(&page_key),
            None => false,
        };
        if let Some(member) = theirs {
            if !known {
                if !next.pages.has(&page_key) {
                    return Err(store::broken_reference_error());
                }
                let mut row = match next.tags.get(&key) {
                    Some(row) => row.duplicate(),
                    None => {
                        return Err(store::broken_reference_error());
                    },
                };
                row.members.put(page_key, member.duplicate());
                next.tags.put(key, row);
            }
        }
        *self = next;
        Ok(())
    }
}

// ---------------------------------------------------------------------------
// Laws
// ---------------------------------------------------------------------------

proof fn lemma_later_touch(
    draft: StoreView,
    live: StoreView,
    slug: Seq<char>,
    ids: Seq<i64>,
    count: nat,
)
    requires
        count <= ids.len(),
    ensures
        sources_borrowed(draft, live, slug, ids, false, count) matches Ok(next) && next.pages
            == draft.pages && next.meta == draft.meta,
    decreases count,
{
    if count > 0 {
        lemma_later_touch(draft, live, slug, ids, (count - 1) as nat);
    }
}

/// A draft that touches a page once more keeps the fingerprint that it kept of it before, and
/// the page as the draft has it.
pub proof fn law_later_touch_keeps_the_base(
    draft: StoreView,
    live: StoreView,
    slug: Seq<char>,
    additional: Seq<i64>,
)
    requires
        touched::page_base(draft, slug) is Some,
    ensures
        page_touched(draft, live, slug, additional) matches Ok(next) && next.pages == draft.pages
            && touched::page_base(next, slug) == touched::page_base(draft, slug) && next.meta
            == draft.meta,
{
    let ids = wanted_sources(live, slug, additional, false);
    lemma_later_touch(draft, live, slug, ids, ids.len());
}

/// What the first `count` sources add to a page that was just borrowed.
proof fn lemma_first_touch(
    draft: StoreView,
    live: StoreView,
    slug: Seq<char>,
    ids: Seq<i64>,
    count: nat,
)
    requires
        count <= ids.len(),
        live.pages.dom().contains(slug) == draft.pages.dom().contains(slug),
        draft.pages.dom().contains(slug) ==> draft.pages[slug] == (PageView {
            source_ids: Seq::empty(),
            ..live.pages[slug]
        }),
    ensures
        sources_borrowed(draft, live, slug, ids, true, count) matches Ok(next) ==> {
            &&& next.meta == draft.meta
            &&& next.pages.dom().contains(slug) == live.pages.dom().contains(slug)
            &&& next.pages.dom().contains(slug) ==> {
                let cited = next.pages[slug].source_ids;
                &&& next.pages[slug] == (PageView { source_ids: cited, ..live.pages[slug] })
                &&& table::in_order::<i64>(cited)
                &&& forall|id: i64|
                    cited.contains(id) == (#[trigger] ids.take(count as int).contains(id)
                        && live.pages[slug].source_ids.contains(id))
            }
        },
    decreases count,
{
    if count > 0 {
        lemma_first_touch(draft, live, slug, ids, (count - 1) as nat);
        if let Ok(so_far) = sources_borrowed(draft, live, slug, ids, true, (count - 1) as nat) {
            let one = ids[count - 1];
            let before = so_far.pages[slug].source_ids;
            table::lemma_take_more(ids, count - 1);
            refusals::lemma_distinct(before.push(one));
            if let Ok(next) = sources_borrowed(draft, live, slug, ids, true, count) {
                if next.pages.dom().contains(slug) {
                    let cited = next.pages[slug].source_ids;
                    assert forall|id: i64| cited.contains(id) == (#[trigger] ids.take(
                        count as int,
                    ).contains(id) && live.pages[slug].source_ids.contains(id)) by {
                        assert(before.contains(id) == (ids.take(count - 1).contains(id)
                            && live.pages[slug].source_ids.contains(id)));
                        if cites(live, slug, one) && !before.contains(one) {
                            let more = before.push(one);
                            assert(cited == pages::distinct(more));
                            assert(cited.to_set().contains(id) == more.to_set().contains(id));
                            assert(more[before.len() as int] == one);
                            if before.contains(id) {
                                let k = before.index_of(id);
                                assert(more[k] == id);
                            }
                            if more.contains(id) && id != one {
                                let k = more.index_of(id);
                                assert(before[k] == id);
                            }
                        } else {
                            assert(cited == before);
                        }
                    }
                }
            }
        }
    } else {
        assert(ids.take(0) =~= Seq::empty());
    }
}

/// A draft that touches a page for the first time has it as the live store has it, and keeps
/// the fingerprint that it has there.
pub proof fn law_first_touch_keeps_the_live_mark(
    draft: StoreView,
    live: StoreView,
    slug: Seq<char>,
    additional: Seq<i64>,
)
    requires
        touched::page_base(draft, slug) is None,
        !draft.pages.dom().contains(slug),
        live.pages.dom().contains(slug) ==> table::in_order::<i64>(live.pages[slug].source_ids),
    ensures
        page_touched(draft, live, slug, additional) matches Ok(next) ==> {
            &&& touched::page_base(next, slug) == Some(
                touched::or_absent(pages::content_mark(live, slug)),
            )
            &&& next.pages.dom().contains(slug) == live.pages.dom().contains(slug)
            &&& live.pages.dom().contains(slug) ==> next.pages[slug] == live.pages[slug]
        },
{
    let ids = wanted_sources(live, slug, additional, true);
    let start = page_borrowed(draft, live, slug);
    lemma_first_touch(start, live, slug, ids, ids.len());
    assert(ids.take(ids.len() as int) =~= ids);
    if live.pages.dom().contains(slug) {
        let theirs = live.pages[slug].source_ids;
        let both = additional + theirs;
        refusals::lemma_distinct(both);
        if let Ok(next) = sources_borrowed(start, live, slug, ids, true, ids.len()) {
            let cited = next.pages[slug].source_ids;
            assert forall|id: i64| cited.to_set().contains(id) == theirs.to_set().contains(id) by {
                assert(cited.contains(id) == (ids.take(ids.len() as int).contains(id)
                    && theirs.contains(id)));
                if theirs.contains(id) {
                    let k = theirs.index_of(id);
                    assert(both[additional.len() + k] == id);
                    assert(both.to_set().contains(id));
                    assert(ids.to_set().contains(id));
                }
            }
            assert(cited.to_set() =~= theirs.to_set());
            table::lemma_lists_unique::<i64>(cited, theirs, theirs.to_set());
        }
    }
}

} // verus!
