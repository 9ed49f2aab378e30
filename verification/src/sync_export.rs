//! A store as the objects that travel to another store. Sources are named by the hash of
//! their content, since identifiers belong to one store.
use crate::detached;
use crate::discussion_book;
use crate::discussion_book::{encode_list, encode_opt};
use crate::discussion_store;
use crate::error;
use crate::error::{AppError, AppErrorView, ErrorCode};
use crate::json;
use crate::json::{set_entry, EntryView, Json, JsonView};
use crate::pages;
use crate::pages::provenance_from_parts;
use crate::rows::{
    FeedbackKey, FeedbackKeyView, FeedbackRow, FeedbackView, IngestRow, PageRow, PageView,
    RelationRow, RelationView, SourceRow, SourceView, TagMember, TagMemberView, TagRow, TagView,
    WeightRow, WeightView,
};
use crate::store;
use crate::store::{Store, StoreView};
use crate::sync_file;
use crate::sync_file::{sync_state_digest, SYNC_STATE_FORMAT, USER_VERSION};
use crate::sync_state;
use crate::sync_state::{insert_sync_object, ObjectRow, ObjectRowView};
use crate::table;
use crate::table::{Pair, PairView, Record, Table, Triple, TripleView};
use crate::text;
use crate::text::{
    begins_with, chars_of, decimal_text, has_text, join2, join3, join4, join5, owned, parse_i64, same_text,
    slice_text,
};
use vstd::prelude::*;
use vstd::string::StrSliceExecFns;
use vstd::utf8;

verus! {

pub open spec fn row_outcome(r: Result<Option<ObjectRow>, AppError>) -> Result<
    Option<ObjectRowView>,
    AppErrorView,
> {
    match r {
        Ok(Some(row)) => Ok(Some(row@)),
        Ok(None) => Ok(None),
        Err(e) => Err(e@),
    }
}

pub open spec fn rows_outcome(r: Result<Vec<ObjectRow>, AppError>) -> Result<
    Seq<ObjectRowView>,
    AppErrorView,
> {
    match r {
        Ok(rows) => Ok(text::views(rows@)),
        Err(e) => Err(e@),
    }
}

// ---------------------------------------------------------------------------
// Hashes in place of identifiers
// ---------------------------------------------------------------------------

fn find_hash(store: &Store, id: i64) -> (r: Option<String>)
    ensures
        text::opt_text(r) == detached::hash_of(store@, id),
{
    match store.sources.get(&id) {
        Some(source) => Some(owned(source.content_hash.as_str())),
        None => None,
    }
}

/// An identifier that means the same elsewhere, if there is one.
pub open spec fn stable(store: StoreView, target_type: Seq<char>, identifier: Seq<char>) -> Option<
    Seq<char>,
> {
    if target_type == "source"@ {
        match text::reads_as_i64(identifier) {
            Some(id) => detached::hash_of(store, id as i64),
            None => None,
        }
    } else {
        Some(identifier)
    }
}

fn stable_identifier(store: &Store, target_type: &str, identifier: &str) -> (r: Option<String>)
    ensures
        text::opt_text(r) == stable(store@, target_type@, identifier@),
{
    if same_text(target_type, "source") {
        match parse_i64(identifier) {
            Some(id) => find_hash(store, id),
            None => None,
        }
    } else {
        Some(owned(identifier))
    }
}

/// The end of a relation as it travels.
pub open spec fn stable_endpoint(store: StoreView, endpoint: Seq<char>) -> Result<
    Seq<char>,
    AppErrorView,
> {
    let id = if "source:"@.is_prefix_of(endpoint) {
        text::reads_as_i64(endpoint.skip("source:"@.len() as int))
    } else {
        None
    };
    match id {
        None => Ok(endpoint),
        Some(id) => match detached::hash_of(store, id as i64) {
            Some(hash) => Ok("source-hash:"@ + hash),
            None => error::refused(
                ErrorCode::CorruptStore,
                "semantic relation references missing source "@ + text::decimal(id),
            ),
        },
    }
}

/// The end of a relation as it travels.
pub fn stable_relation_endpoint(store: &Store, endpoint: &str) -> (r: Result<String, AppError>)
    ensures
        error::outcome(r) == stable_endpoint(store@, endpoint@),
{
    if !begins_with(endpoint, "source:") {
        return Ok(owned(endpoint));
    }
    let chars = chars_of(endpoint);
    let prefix = chars_of("source:");
    let rest = slice_text(&chars, prefix.len(), chars.len());
    assert(rest@ =~= endpoint@.skip("source:"@.len() as int));
    match parse_i64(rest.as_str()) {
        None => Ok(owned(endpoint)),
        Some(id) => match find_hash(store, id) {
            Some(hash) => Ok(join2("source-hash:", hash.as_str())),
            None => Err(
                AppError::new(
                    ErrorCode::CorruptStore,
                    join2(
                        "semantic relation references missing source ",
                        decimal_text(id).as_str(),
                    ).as_str(),
                ),
            ),
        },
    }
}

/// The hashes of the sources that are there.
pub open spec fn known_hashes(store: StoreView, ids: Seq<i64>, count: nat) -> Seq<Seq<char>>
    decreases count,
{
    if count == 0 || count > ids.len() {
        Seq::empty()
    } else {
        let head = known_hashes(store, ids, (count - 1) as nat);
        match detached::hash_of(store, ids[count - 1]) {
            Some(hash) => head.push(hash),
            None => head,
        }
    }
}

fn find_known_hashes(store: &Store, ids: &Vec<i64>) -> (r: Vec<String>)
    ensures
        text::views(r@) == known_hashes(store@, ids@, ids@.len()),
{
    let mut out: Vec<String> = Vec::new();
    assert(text::views(out@) =~= Seq::empty());
    let mut i: usize = 0;
    while i < ids.len()
        invariant
            i <= ids@.len(),
            text::views(out@) == known_hashes(store@, ids@, i as nat),
        decreases ids@.len() - i,
    {
        match find_hash(store, ids[i]) {
            Some(hash) => {
                proof {
                    text::lemma_views_push(out@, hash);
                }
                out.push(hash);
            },
            None => {},
        }
        i += 1;
    }
    out
}

/// The hashes of the sources that a page cites. Each of them has to be there.
pub open spec fn cited_hashes(store: StoreView, slug: Seq<char>, ids: Seq<i64>, count: nat) -> Result<
    Seq<Seq<char>>,
    AppErrorView,
>
    decreases count,
{
    if count == 0 || count > ids.len() {
        Ok(Seq::empty())
    } else {
        match cited_hashes(store, slug, ids, (count - 1) as nat) {
            Err(e) => Err(e),
            Ok(head) => match detached::hash_of(store, ids[count - 1]) {
                Some(hash) => Ok(head.push(hash)),
                None => error::refused(
                    ErrorCode::CorruptStore,
                    "page "@ + slug + " cites missing source "@ + text::decimal(
                        ids[count - 1] as int,
                    ),
                ),
            },
        }
    }
}

proof fn lemma_cited_stop(store: StoreView, slug: Seq<char>, ids: Seq<i64>, count: nat, more: nat)
    requires
        0 < count <= more <= ids.len(),
        cited_hashes(store, slug, ids, count) is Err,
    ensures
        cited_hashes(store, slug, ids, more) == cited_hashes(store, slug, ids, count),
    decreases more - count,
{
    if count < more {
        lemma_cited_stop(store, slug, ids, count, (more - 1) as nat);
    }
}

fn find_cited_hashes(store: &Store, slug: &str, ids: &Vec<i64>) -> (r: Result<Vec<String>, AppError>)
    ensures
        match cited_hashes(store@, slug@, ids@, ids@.len()) {
            Ok(hashes) => r matches Ok(list) && text::views(list@) == hashes,
            Err(e) => r matches Err(got) && got@ == e,
        },
{
    let mut out: Vec<String> = Vec::new();
    assert(text::views(out@) =~= Seq::empty());
    let mut i: usize = 0;
    while i < ids.len()
        invariant
            i <= ids@.len(),
            cited_hashes(store@, slug@, ids@, i as nat) == Ok::<Seq<Seq<char>>, AppErrorView>(
                text::views(out@),
            ),
        decreases ids@.len() - i,
    {
        match find_hash(store, ids[i]) {
            Some(hash) => {
                proof {
                    text::lemma_views_push(out@, hash);
                }
                out.push(hash);
            },
            None => {
                proof {
                    lemma_cited_stop(store@, slug@, ids@, (i + 1) as nat, ids@.len());
                }
                return Err(
                    AppError::new(
                        ErrorCode::CorruptStore,
                        join4("page ", slug, " cites missing source ", decimal_text(ids[i]).as_str()).as_str(),
                    ),
                );
            },
        }
        i += 1;
    }
    Ok(out)
}

// ---------------------------------------------------------------------------
// Objects
// ---------------------------------------------------------------------------

/// A source as it travels. An origin that is a place on this machine stays behind.
pub open spec fn source_payload(row: SourceView) -> JsonView {
    JsonView::Object(
        seq![
            json::entry("content_hash"@, JsonView::Text(row.content_hash)),
            json::entry("created_at"@, JsonView::Text(row.created_at)),
            json::entry("origin"@, if "/"@.is_prefix_of(row.origin) {
                    JsonView::Null
                } else {
                    JsonView::Text(row.origin)
                }),
            json::entry("structural_navigation"@, JsonView::Bool(row.structural_navigation)),
            json::entry("title"@, discussion_book::opt_json(row.title)),
        ],
    )
}

pub open spec fn source_object(store: StoreView, id: i64) -> Result<
    Option<ObjectRowView>,
    AppErrorView,
> {
    let row = store.sources[id];
    Ok(Some(sync_state::object_row("source"@, row.content_hash, source_payload(row))))
}

fn encode_source(store: &Store, key: &i64, row: &SourceRow) -> (r: Result<Option<ObjectRow>, AppError>)
    requires
        store@.sources.dom().contains(key@),
        row@ == store@.sources[key@],
    ensures
        row_outcome(r) == source_object(store@, key@),
{
    let origin = if begins_with(row.origin.as_str(), "/") {
        Json::Null
    } else {
        Json::text(row.origin.as_str())
    };
    let mut entries: Vec<(String, Json)> = Vec::new();
    entries.push((owned("content_hash"), Json::text(row.content_hash.as_str())));
    entries.push((owned("created_at"), Json::text(row.created_at.as_str())));
    entries.push((owned("origin"), origin));
    entries.push((owned("structural_navigation"), Json::Bool(row.structural_navigation)));
    entries.push((owned("title"), encode_opt(&row.title)));
    assert(json::entry_views(entries@) =~= source_payload(row@)->Object_0);
    let payload = Json::object(entries);
    Ok(Some(insert_sync_object("source", row.content_hash.as_str(), &payload)))
}

/// The sources as they travel.
pub open spec fn source_objects(
    store: StoreView,
    keys: Seq<i64>,
    count: nat,
) -> Result<Seq<ObjectRowView>, AppErrorView>
    decreases count,
{
    if count == 0 || count > keys.len() {
        Ok(Seq::empty())
    } else {
        match source_objects(store, keys, (count - 1) as nat) {
            Err(e) => Err(e),
            Ok(head) => match source_object(store, keys[count - 1]) {
                Err(e) => Err(e),
                Ok(None) => Ok(head),
                Ok(Some(one)) => Ok(head.push(one)),
            },
        }
    }
}

proof fn lemma_source_objects_stop(
    store: StoreView,
    keys: Seq<i64>,
    count: nat,
    more: nat,
)
    requires
        0 < count <= more <= keys.len(),
        source_objects(store, keys, count) is Err,
    ensures
        source_objects(store, keys, more) == source_objects(store, keys, count),
    decreases more - count,
{
    if count < more {
        lemma_source_objects_stop(store, keys, count, (more - 1) as nat);
    }
}

impl Store {
    /// The sources as they travel.
    pub fn export_sync_sources(&self) -> (r: Result<Vec<ObjectRow>, AppError>)
        ensures
            rows_outcome(r) == source_objects(
                self@,
                table::ordered::<i64>(self@.sources.dom()),
                table::ordered::<i64>(self@.sources.dom()).len(),
            ),
    {
        let n = self.sources.len();
        let ghost keys = self.sources.keys();
        proof {
            table::lemma_ordered_is::<i64>(keys, self@.sources.dom());
        }
        let mut out: Vec<ObjectRow> = Vec::new();
        assert(text::views(out@) =~= Seq::empty());
        let mut i: usize = 0;
        while i < n
            invariant
                i <= n == keys.len(),
                keys == self.sources.keys(),
                source_objects(self@, keys, i as nat) == Ok::<Seq<ObjectRowView>, AppErrorView>(
                    text::views(out@),
                ),
            decreases n - i,
        {
            let key = self.sources.key_at(i);
            let row = self.sources.value_at(i);
            match encode_source(self, key, row) {
                Err(e) => {
                    proof {
                        lemma_source_objects_stop(self@, keys, (i + 1) as nat, keys.len());
                    }
                    return Err(e);
                },
                Ok(None) => {},
                Ok(Some(one)) => {
                    proof {
                        text::lemma_views_push(out@, one);
                    }
                    out.push(one);
                },
            }
            i += 1;
        }
        Ok(out)
    }
}

/// A page as it travels.
pub open spec fn page_payload(slug: Seq<char>, row: PageView, hashes: Seq<Seq<char>>) -> JsonView {
    JsonView::Object(
        seq![
            json::entry("body"@, JsonView::Text(row.body)),
            json::entry("created_at"@, JsonView::Text(row.created_at)),
            json::entry("kind"@, discussion_book::opt_json(row.kind)),
            json::entry("provenance"@, discussion_book::list_json(pages::shown_provenance(row.source_ids.len() > 0, row.provenance))),
            json::entry("slug"@, JsonView::Text(slug)),
            json::entry("source_hashes"@, discussion_book::list_json(hashes)),
            json::entry("structural_navigation"@, JsonView::Bool(row.structural_navigation)),
            json::entry("summary"@, discussion_book::opt_json(row.summary)),
            json::entry("title"@, JsonView::Text(row.title)),
            json::entry("updated_at"@, JsonView::Text(row.updated_at)),
        ],
    )
}

pub open spec fn page_object(store: StoreView, slug: Seq<char>) -> Result<
    Option<ObjectRowView>,
    AppErrorView,
> {
    let row = store.pages[slug];
    match cited_hashes(store, slug, row.source_ids, row.source_ids.len()) {
        Err(e) => Err(e),
        Ok(hashes) => Ok(
            Some(sync_state::object_row("page"@, slug, page_payload(slug, row, hashes))),
        ),
    }
}

fn encode_page(store: &Store, key: &String, row: &PageRow) -> (r: Result<Option<ObjectRow>, AppError>)
    requires
        store@.pages.dom().contains(key@),
        row@ == store@.pages[key@],
    ensures
        row_outcome(r) == page_object(store@, key@),
{
    let hashes = match find_cited_hashes(store, key.as_str(), &row.source_ids) {
        Ok(hashes) => hashes,
        Err(e) => {
            return Err(e);
        },
    };
    let provenance = provenance_from_parts(row.source_ids.len() > 0, &row.provenance);
    let mut entries: Vec<(String, Json)> = Vec::new();
    entries.push((owned("body"), Json::text(row.body.as_str())));
    entries.push((owned("created_at"), Json::text(row.created_at.as_str())));
    entries.push((owned("kind"), encode_opt(&row.kind)));
    entries.push((owned("provenance"), encode_list(&provenance)));
    entries.push((owned("slug"), Json::text(key.as_str())));
    entries.push((owned("source_hashes"), encode_list(&hashes)));
    entries.push((owned("structural_navigation"), Json::Bool(row.structural_navigation)));
    entries.push((owned("summary"), encode_opt(&row.summary)));
    entries.push((owned("title"), Json::text(row.title.as_str())));
    entries.push((owned("updated_at"), Json::text(row.updated_at.as_str())));
    assert(json::entry_views(entries@) =~= page_payload(key@, row@, text::views(hashes@))->Object_0);
    let payload = Json::object(entries);
    Ok(Some(insert_sync_object("page", key.as_str(), &payload)))
}

/// The pages as they travel.
pub open spec fn page_objects(
    store: StoreView,
    keys: Seq<Seq<char>>,
    count: nat,
) -> Result<Seq<ObjectRowView>, AppErrorView>
    decreases count,
{
    if count == 0 || count > keys.len() {
        Ok(Seq::empty())
    } else {
        match page_objects(store, keys, (count - 1) as nat) {
            Err(e) => Err(e),
            Ok(head) => match page_object(store, keys[count - 1]) {
                Err(e) => Err(e),
                Ok(None) => Ok(head),
                Ok(Some(one)) => Ok(head.push(one)),
            },
        }
    }
}

proof fn lemma_page_objects_stop(
    store: StoreView,
    keys: Seq<Seq<char>>,
    count: nat,
    more: nat,
)
    requires
        0 < count <= more <= keys.len(),
        page_objects(store, keys, count) is Err,
    ensures
        page_objects(store, keys, more) == page_objects(store, keys, count),
    decreases more - count,
{
    if count < more {
        lemma_page_objects_stop(store, keys, count, (more - 1) as nat);
    }
}

impl Store {
    /// The pages as they travel.
    pub fn export_sync_pages(&self) -> (r: Result<Vec<ObjectRow>, AppError>)
        ensures
            rows_outcome(r) == page_objects(
                self@,
                table::ordered::<String>(self@.pages.dom()),
                table::ordered::<String>(self@.pages.dom()).len(),
            ),
    {
        let n = self.pages.len();
        let ghost keys = self.pages.keys();
        proof {
            table::lemma_ordered_is::<String>(keys, self@.pages.dom());
        }
        let mut out: Vec<ObjectRow> = Vec::new();
        assert(text::views(out@) =~= Seq::empty());
        let mut i: usize = 0;
        while i < n
            invariant
                i <= n == keys.len(),
                keys == self.pages.keys(),
                page_objects(self@, keys, i as nat) == Ok::<Seq<ObjectRowView>, AppErrorView>(
                    text::views(out@),
                ),
            decreases n - i,
        {
            let key = self.pages.key_at(i);
            let row = self.pages.value_at(i);
            match encode_page(self, key, row) {
                Err(e) => {
                    proof {
                        lemma_page_objects_stop(self@, keys, (i + 1) as nat, keys.len());
                    }
                    return Err(e);
                },
                Ok(None) => {},
                Ok(Some(one)) => {
                    proof {
                        text::lemma_views_push(out@, one);
                    }
                    out.push(one);
                },
            }
            i += 1;
        }
        Ok(out)
    }
}

/// A page of a tag as it travels.
pub open spec fn member_payload(slug: Seq<char>, row: TagMemberView) -> JsonView {
    JsonView::Object(
        seq![
            json::entry("created_at"@, JsonView::Text(row.created_at)),
            json::entry("priority"@, JsonView::Int(row.priority as int)),
            json::entry("reason"@, JsonView::Text(row.reason)),
            json::entry("slug"@, JsonView::Text(slug)),
            json::entry("updated_at"@, JsonView::Text(row.updated_at)),
        ],
    )
}

/// The pages of a tag as they travel.
pub open spec fn members_payload(members: Map<Seq<char>, TagMemberView>) -> JsonView {
    JsonView::Array(
        table::ordered::<String>(members.dom()).map_values(
            |slug: Seq<char>| member_payload(slug, members[slug]),
        ),
    )
}

/// A tag as it travels.
pub open spec fn tag_payload(name: Seq<char>, row: TagView) -> JsonView {
    JsonView::Object(
        seq![
            json::entry("autoload"@, JsonView::Bool(row.policy.autoload)),
            json::entry("autoload_limit"@, JsonView::Int(row.policy.autoload_limit as int)),
            json::entry("autoload_max_chars"@, JsonView::Int(row.policy.autoload_max_chars as int)),
            json::entry("autoload_priority"@, JsonView::Int(row.policy.autoload_priority as int)),
            json::entry("name"@, JsonView::Text(name)),
            json::entry("pages"@, members_payload(row.members)),
            json::entry("reason"@, JsonView::Text(row.policy.reason)),
            json::entry("updated_at"@, JsonView::Text(row.policy.updated_at)),
        ],
    )
}

pub open spec fn tag_object(store: StoreView, name: Seq<char>) -> Result<
    Option<ObjectRowView>,
    AppErrorView,
> {
    Ok(Some(sync_state::object_row("tag"@, name, tag_payload(name, store.tags[name]))))
}

fn encode_member(slug: &String, row: &TagMember) -> (r: Json)
    ensures
        r@ == member_payload(slug@, row@),
{
    let mut entries: Vec<(String, Json)> = Vec::new();
    entries.push((owned("created_at"), Json::text(row.created_at.as_str())));
    entries.push((owned("priority"), Json::Int(row.priority)));
    entries.push((owned("reason"), Json::text(row.reason.as_str())));
    entries.push((owned("slug"), Json::text(slug.as_str())));
    entries.push((owned("updated_at"), Json::text(row.updated_at.as_str())));
    assert(json::entry_views(entries@) =~= member_payload(slug@, row@)->Object_0);
    let payload = Json::object(entries);
    payload
}

fn encode_members(members: &Table<String, TagMember>) -> (r: Json)
    ensures
        r@ == members_payload(members@),
{
    let n = members.len();
    let ghost keys = members.keys();
    proof {
        table::lemma_ordered_is::<String>(keys, members@.dom());
    }
    let mut list: Vec<Json> = Vec::new();
    let mut i: usize = 0;
    while i < n
        invariant
            i <= n == keys.len(),
            keys == members.keys(),
            list@.len() == i,
            forall|j: int|
                0 <= j < i ==> (#[trigger] list@[j])@ == member_payload(keys[j], members@[keys[j]]),
        decreases n - i,
    {
        let slug = members.key_at(i);
        let row = members.value_at(i);
        list.push(encode_member(slug, row));
        i += 1;
    }
    proof {
        json::lemma_array_view(list);
        assert(text::views(list@) =~= keys.map_values(
            |slug: Seq<char>| member_payload(slug, members@[slug]),
        ));
    }
    Json::Array(list)
}

fn encode_tag(store: &Store, key: &String, row: &TagRow) -> (r: Result<Option<ObjectRow>, AppError>)
    requires
        store@.tags.dom().contains(key@),
        row@ == store@.tags[key@],
    ensures
        row_outcome(r) == tag_object(store@, key@),
{
    let mut entries: Vec<(String, Json)> = Vec::new();
    entries.push((owned("autoload"), Json::Bool(row.policy.autoload)));
    entries.push((owned("autoload_limit"), Json::Int(row.policy.autoload_limit)));
    entries.push((owned("autoload_max_chars"), Json::Int(row.policy.autoload_max_chars)));
    entries.push((owned("autoload_priority"), Json::Int(row.policy.autoload_priority)));
    entries.push((owned("name"), Json::text(key.as_str())));
    entries.push((owned("pages"), encode_members(&row.members)));
    entries.push((owned("reason"), Json::text(row.policy.reason.as_str())));
    entries.push((owned("updated_at"), Json::text(row.policy.updated_at.as_str())));
    assert(json::entry_views(entries@) =~= tag_payload(key@, row@)->Object_0);
    let payload = Json::object(entries);
    Ok(Some(insert_sync_object("tag", key.as_str(), &payload)))
}

/// The tags as they travel.
pub open spec fn tag_objects(
    store: StoreView,
    keys: Seq<Seq<char>>,
    count: nat,
) -> Result<Seq<ObjectRowView>, AppErrorView>
    decreases count,
{
    if count == 0 || count > keys.len() {
        Ok(Seq::empty())
    } else {
        match tag_objects(store, keys, (count - 1) as nat) {
            Err(e) => Err(e),
            Ok(head) => match tag_object(store, keys[count - 1]) {
                Err(e) => Err(e),
                Ok(None) => Ok(head),
                Ok(Some(one)) => Ok(head.push(one)),
            },
        }
    }
}

proof fn lemma_tag_objects_stop(
    store: StoreView,
    keys: Seq<Seq<char>>,
    count: nat,
    more: nat,
)
    requires
        0 < count <= more <= keys.len(),
        tag_objects(store, keys, count) is Err,
    ensures
        tag_objects(store, keys, more) == tag_objects(store, keys, count),
    decreases more - count,
{
    if count < more {
        lemma_tag_objects_stop(store, keys, count, (more - 1) as nat);
    }
}

impl Store {
    /// The tags as they travel.
    pub fn export_sync_tags(&self) -> (r: Result<Vec<ObjectRow>, AppError>)
        ensures
            rows_outcome(r) == tag_objects(
                self@,
                table::ordered::<String>(self@.tags.dom()),
                table::ordered::<String>(self@.tags.dom()).len(),
            ),
    {
        let n = self.tags.len();
        let ghost keys = self.tags.keys();
        proof {
            table::lemma_ordered_is::<String>(keys, self@.tags.dom());
        }
        let mut out: Vec<ObjectRow> = Vec::new();
        assert(text::views(out@) =~= Seq::empty());
        let mut i: usize = 0;
        while i < n
            invariant
                i <= n == keys.len(),
                keys == self.tags.keys(),
                tag_objects(self@, keys, i as nat) == Ok::<Seq<ObjectRowView>, AppErrorView>(
                    text::views(out@),
                ),
            decreases n - i,
        {
            let key = self.tags.key_at(i);
            let row = self.tags.value_at(i);
            match encode_tag(self, key, row) {
                Err(e) => {
                    proof {
                        lemma_tag_objects_stop(self@, keys, (i + 1) as nat, keys.len());
                    }
                    return Err(e);
                },
                Ok(None) => {},
                Ok(Some(one)) => {
                    proof {
                        text::lemma_views_push(out@, one);
                    }
                    out.push(one);
                },
            }
            i += 1;
        }
        Ok(out)
    }
}

/// An ingest job as it travels.
pub open spec fn ingest_payload(store: StoreView, id: i64, hash: Seq<char>) -> JsonView {
    let row = store.ingest_jobs[id];
    JsonView::Object(
        seq![
            json::entry("analysis"@, discussion_book::opt_json(row.analysis)),
            json::entry("no_derived_pages_reason"@, discussion_book::opt_json(row.no_derived_pages_reason)),
            json::entry("source_hash"@, JsonView::Text(hash)),
            json::entry("status"@, JsonView::Text(row.status)),
            json::entry("updated_at"@, JsonView::Text(row.updated_at)),
        ],
    )
}

pub open spec fn ingest_object(store: StoreView, id: i64) -> Result<
    Option<ObjectRowView>,
    AppErrorView,
> {
    match detached::hash_of(store, id) {
        None => Ok(None),
        Some(hash) => Ok(
            Some(sync_state::object_row("ingest"@, hash, ingest_payload(store, id, hash))),
        ),
    }
}

fn encode_ingest(store: &Store, key: &i64, row: &IngestRow) -> (r: Result<Option<ObjectRow>, AppError>)
    requires
        store@.ingest_jobs.dom().contains(key@),
        row@ == store@.ingest_jobs[key@],
    ensures
        row_outcome(r) == ingest_object(store@, key@),
{
    let hash = match find_hash(store, *key) {
        Some(hash) => hash,
        None => {
            return Ok(None);
        },
    };
    let mut entries: Vec<(String, Json)> = Vec::new();
    entries.push((owned("analysis"), encode_opt(&row.analysis)));
    entries.push((owned("no_derived_pages_reason"), encode_opt(&row.no_derived_pages_reason)));
    entries.push((owned("source_hash"), Json::text(hash.as_str())));
    entries.push((owned("status"), Json::text(row.status.as_str())));
    entries.push((owned("updated_at"), Json::text(row.updated_at.as_str())));
    assert(json::entry_views(entries@) =~= ingest_payload(store@, key@, hash@)->Object_0);
    let payload = Json::object(entries);
    Ok(Some(insert_sync_object("ingest", hash.as_str(), &payload)))
}

/// The ingest jobs as they travel: those whose source is there.
pub open spec fn ingest_objects(
    store: StoreView,
    keys: Seq<i64>,
    count: nat,
) -> Result<Seq<ObjectRowView>, AppErrorView>
    decreases count,
{
    if count == 0 || count > keys.len() {
        Ok(Seq::empty())
    } else {
        match ingest_objects(store, keys, (count - 1) as nat) {
            Err(e) => Err(e),
            Ok(head) => match ingest_object(store, keys[count - 1]) {
                Err(e) => Err(e),
                Ok(None) => Ok(head),
                Ok(Some(one)) => Ok(head.push(one)),
            },
        }
    }
}

proof fn lemma_ingest_objects_stop(
    store: StoreView,
    keys: Seq<i64>,
    count: nat,
    more: nat,
)
    requires
        0 < count <= more <= keys.len(),
        ingest_objects(store, keys, count) is Err,
    ensures
        ingest_objects(store, keys, more) == ingest_objects(store, keys, count),
    decreases more - count,
{
    if count < more {
        lemma_ingest_objects_stop(store, keys, count, (more - 1) as nat);
    }
}

impl Store {
    /// The ingest jobs as they travel: those whose source is there.
    pub fn export_sync_ingest(&self) -> (r: Result<Vec<ObjectRow>, AppError>)
        ensures
            rows_outcome(r) == ingest_objects(
                self@,
                table::ordered::<i64>(self@.ingest_jobs.dom()),
                table::ordered::<i64>(self@.ingest_jobs.dom()).len(),
            ),
    {
        let n = self.ingest_jobs.len();
        let ghost keys = self.ingest_jobs.keys();
        proof {
            table::lemma_ordered_is::<i64>(keys, self@.ingest_jobs.dom());
        }
        let mut out: Vec<ObjectRow> = Vec::new();
        assert(text::views(out@) =~= Seq::empty());
        let mut i: usize = 0;
        while i < n
            invariant
                i <= n == keys.len(),
                keys == self.ingest_jobs.keys(),
                ingest_objects(self@, keys, i as nat) == Ok::<Seq<ObjectRowView>, AppErrorView>(
                    text::views(out@),
                ),
            decreases n - i,
        {
            let key = self.ingest_jobs.key_at(i);
            let row = self.ingest_jobs.value_at(i);
            match encode_ingest(self, key, row) {
                Err(e) => {
                    proof {
                        lemma_ingest_objects_stop(self@, keys, (i + 1) as nat, keys.len());
                    }
                    return Err(e);
                },
                Ok(None) => {},
                Ok(Some(one)) => {
                    proof {
                        text::lemma_views_push(out@, one);
                    }
                    out.push(one);
                },
            }
            i += 1;
        }
        Ok(out)
    }
}

/// A weight as it travels.
pub open spec fn weight_payload(key: TripleView, row: WeightView, identifier: Seq<char>) -> JsonView {
    JsonView::Object(
        seq![
            json::entry("provenance"@, JsonView::Text(key.third)),
            json::entry("reason"@, JsonView::Text(row.reason)),
            json::entry("target_identifier"@, JsonView::Text(identifier)),
            json::entry("target_type"@, JsonView::Text(key.first)),
            json::entry("updated_at"@, JsonView::Text(row.updated_at)),
            json::entry("weight"@, JsonView::Int(row.weight as int)),
        ],
    )
}

pub open spec fn weight_object(store: StoreView, key: TripleView) -> Result<
    Option<ObjectRowView>,
    AppErrorView,
> {
    match stable(store, key.first, key.second) {
        None => Ok(None),
        Some(identifier) => Ok(
            Some(
                sync_state::object_row(
                    "retrieval_weight"@,
                    key.first + "\0"@ + identifier + "\0"@ + key.third,
                    weight_payload(key, store.weights[key], identifier),
                ),
            ),
        ),
    }
}

fn encode_weight(store: &Store, key: &Triple, row: &WeightRow) -> (r: Result<Option<ObjectRow>, AppError>)
    requires
        store@.weights.dom().contains(key@),
        row@ == store@.weights[key@],
    ensures
        row_outcome(r) == weight_object(store@, key@),
{
    let identifier = match stable_identifier(store, key.first.as_str(), key.second.as_str()) {
        Some(identifier) => identifier,
        None => {
            return Ok(None);
        },
    };
    let mut entries: Vec<(String, Json)> = Vec::new();
    entries.push((owned("provenance"), Json::text(key.third.as_str())));
    entries.push((owned("reason"), Json::text(row.reason.as_str())));
    entries.push((owned("target_identifier"), Json::text(identifier.as_str())));
    entries.push((owned("target_type"), Json::text(key.first.as_str())));
    entries.push((owned("updated_at"), Json::text(row.updated_at.as_str())));
    entries.push((owned("weight"), Json::Int(row.weight as i64)));
    assert(json::entry_views(entries@) =~= weight_payload(key@, row@, identifier@)->Object_0);
    let payload = Json::object(entries);
    let name = join5(
        key.first.as_str(),
        "\0",
        identifier.as_str(),
        "\0",
        key.third.as_str(),
    );
    Ok(Some(insert_sync_object("retrieval_weight", name.as_str(), &payload)))
}

/// The weights as they travel: those whose target is there.
pub open spec fn weight_objects(
    store: StoreView,
    keys: Seq<TripleView>,
    count: nat,
) -> Result<Seq<ObjectRowView>, AppErrorView>
    decreases count,
{
    if count == 0 || count > keys.len() {
        Ok(Seq::empty())
    } else {
        match weight_objects(store, keys, (count - 1) as nat) {
            Err(e) => Err(e),
            Ok(head) => match weight_object(store, keys[count - 1]) {
                Err(e) => Err(e),
                Ok(None) => Ok(head),
                Ok(Some(one)) => Ok(head.push(one)),
            },
        }
    }
}

proof fn lemma_weight_objects_stop(
    store: StoreView,
    keys: Seq<TripleView>,
    count: nat,
    more: nat,
)
    requires
        0 < count <= more <= keys.len(),
        weight_objects(store, keys, count) is Err,
    ensures
        weight_objects(store, keys, more) == weight_objects(store, keys, count),
    decreases more - count,
{
    if count < more {
        lemma_weight_objects_stop(store, keys, count, (more - 1) as nat);
    }
}

impl Store {
    /// The weights as they travel: those whose target is there.
    pub fn export_sync_weights(&self) -> (r: Result<Vec<ObjectRow>, AppError>)
        ensures
            rows_outcome(r) == weight_objects(
                self@,
                table::ordered::<Triple>(self@.weights.dom()),
                table::ordered::<Triple>(self@.weights.dom()).len(),
            ),
    {
        let n = self.weights.len();
        let ghost keys = self.weights.keys();
        proof {
            table::lemma_ordered_is::<Triple>(keys, self@.weights.dom());
        }
        let mut out: Vec<ObjectRow> = Vec::new();
        assert(text::views(out@) =~= Seq::empty());
        let mut i: usize = 0;
        while i < n
            invariant
                i <= n == keys.len(),
                keys == self.weights.keys(),
                weight_objects(self@, keys, i as nat) == Ok::<Seq<ObjectRowView>, AppErrorView>(
                    text::views(out@),
                ),
            decreases n - i,
        {
            let key = self.weights.key_at(i);
            let row = self.weights.value_at(i);
            match encode_weight(self, key, row) {
                Err(e) => {
                    proof {
                        lemma_weight_objects_stop(self@, keys, (i + 1) as nat, keys.len());
                    }
                    return Err(e);
                },
                Ok(None) => {},
                Ok(Some(one)) => {
                    proof {
                        text::lemma_views_push(out@, one);
                    }
                    out.push(one);
                },
            }
            i += 1;
        }
        Ok(out)
    }
}

/// Feedback as it travels.
pub open spec fn feedback_payload(key: FeedbackKeyView, row: FeedbackView, identifier: Seq<char>) -> JsonView {
    JsonView::Object(
        seq![
            json::entry("provenance"@, JsonView::Text(key.target.third)),
            json::entry("query_fingerprint"@, JsonView::Text(key.query)),
            json::entry("reason"@, JsonView::Text(row.reason)),
            json::entry("signal"@, JsonView::Int(row.signal as int)),
            json::entry("target_identifier"@, JsonView::Text(identifier)),
            json::entry("target_type"@, JsonView::Text(key.target.first)),
            json::entry("updated_at"@, JsonView::Text(row.updated_at)),
        ],
    )
}

pub open spec fn feedback_object(store: StoreView, key: FeedbackKeyView) -> Result<
    Option<ObjectRowView>,
    AppErrorView,
> {
    match stable(store, key.target.first, key.target.second) {
        None => Ok(None),
        Some(identifier) => Ok(
            Some(
                sync_state::object_row(
                    "retrieval_feedback"@,
                    key.query + "\0"@ + (key.target.first + "\0"@ + identifier + "\0"@
                        + key.target.third),
                    feedback_payload(key, store.feedback[key], identifier),
                ),
            ),
        ),
    }
}

fn encode_feedback(store: &Store, key: &FeedbackKey, row: &FeedbackRow) -> (r: Result<Option<ObjectRow>, AppError>)
    requires
        store@.feedback.dom().contains(key@),
        row@ == store@.feedback[key@],
    ensures
        row_outcome(r) == feedback_object(store@, key@),
{
    let identifier = match stable_identifier(
        store,
        key.target.first.as_str(),
        key.target.second.as_str(),
    ) {
        Some(identifier) => identifier,
        None => {
            return Ok(None);
        },
    };
    let mut entries: Vec<(String, Json)> = Vec::new();
    entries.push((owned("provenance"), Json::text(key.target.third.as_str())));
    entries.push((owned("query_fingerprint"), Json::text(key.query.as_str())));
    entries.push((owned("reason"), Json::text(row.reason.as_str())));
    entries.push((owned("signal"), Json::Int(row.signal as i64)));
    entries.push((owned("target_identifier"), Json::text(identifier.as_str())));
    entries.push((owned("target_type"), Json::text(key.target.first.as_str())));
    entries.push((owned("updated_at"), Json::text(row.updated_at.as_str())));
    assert(json::entry_views(entries@) =~= feedback_payload(key@, row@, identifier@)->Object_0);
    let payload = Json::object(entries);
    let target = join5(
        key.target.first.as_str(),
        "\0",
        identifier.as_str(),
        "\0",
        key.target.third.as_str(),
    );
    let name = join3(key.query.as_str(), "\0", target.as_str());
    Ok(Some(insert_sync_object("retrieval_feedback", name.as_str(), &payload)))
}

/// The feedback as it travels: that on targets that are there.
pub open spec fn feedback_objects(
    store: StoreView,
    keys: Seq<FeedbackKeyView>,
    count: nat,
) -> Result<Seq<ObjectRowView>, AppErrorView>
    decreases count,
{
    if count == 0 || count > keys.len() {
        Ok(Seq::empty())
    } else {
        match feedback_objects(store, keys, (count - 1) as nat) {
            Err(e) => Err(e),
            Ok(head) => match feedback_object(store, keys[count - 1]) {
                Err(e) => Err(e),
                Ok(None) => Ok(head),
                Ok(Some(one)) => Ok(head.push(one)),
            },
        }
    }
}

proof fn lemma_feedback_objects_stop(
    store: StoreView,
    keys: Seq<FeedbackKeyView>,
    count: nat,
    more: nat,
)
    requires
        0 < count <= more <= keys.len(),
        feedback_objects(store, keys, count) is Err,
    ensures
        feedback_objects(store, keys, more) == feedback_objects(store, keys, count),
    decreases more - count,
{
    if count < more {
        lemma_feedback_objects_stop(store, keys, count, (more - 1) as nat);
    }
}

impl Store {
    /// The feedback as it travels: that on targets that are there.
    pub fn export_sync_feedback(&self) -> (r: Result<Vec<ObjectRow>, AppError>)
        ensures
            rows_outcome(r) == feedback_objects(
                self@,
                table::ordered::<FeedbackKey>(self@.feedback.dom()),
                table::ordered::<FeedbackKey>(self@.feedback.dom()).len(),
            ),
    {
        let n = self.feedback.len();
        let ghost keys = self.feedback.keys();
        proof {
            table::lemma_ordered_is::<FeedbackKey>(keys, self@.feedback.dom());
        }
        let mut out: Vec<ObjectRow> = Vec::new();
        assert(text::views(out@) =~= Seq::empty());
        let mut i: usize = 0;
        while i < n
            invariant
                i <= n == keys.len(),
                keys == self.feedback.keys(),
                feedback_objects(self@, keys, i as nat) == Ok::<Seq<ObjectRowView>, AppErrorView>(
                    text::views(out@),
                ),
            decreases n - i,
        {
            let key = self.feedback.key_at(i);
            let row = self.feedback.value_at(i);
            match encode_feedback(self, key, row) {
                Err(e) => {
                    proof {
                        lemma_feedback_objects_stop(self@, keys, (i + 1) as nat, keys.len());
                    }
                    return Err(e);
                },
                Ok(None) => {},
                Ok(Some(one)) => {
                    proof {
                        text::lemma_views_push(out@, one);
                    }
                    out.push(one);
                },
            }
            i += 1;
        }
        Ok(out)
    }
}

/// A relation as it travels. `said` is how sure it is, as JSON has it.
pub open spec fn relation_payload(id: Seq<char>, row: RelationView, from: Seq<char>, to: Seq<char>, hashes: Seq<Seq<char>>, said: Option<Seq<char>>) -> JsonView {
    JsonView::Object(
        seq![
            json::entry("confidence"@, match said {
                    Some(number) => JsonView::Number(number),
                    None => JsonView::Null,
                }),
            json::entry("created_at"@, JsonView::Text(row.created_at)),
            json::entry("from"@, JsonView::Text(from)),
            json::entry("id"@, JsonView::Text(id)),
            json::entry("provenance"@, JsonView::Text(row.provenance)),
            json::entry("reason"@, discussion_book::opt_json(row.reason)),
            json::entry("relation_type"@, JsonView::Text(row.relation_type)),
            json::entry("source_hashes"@, discussion_book::list_json(hashes)),
            json::entry("to"@, JsonView::Text(to)),
            json::entry("updated_at"@, JsonView::Text(row.updated_at)),
        ],
    )
}

/// What is said under a key.
pub open spec fn said_of(said: Map<Seq<char>, Seq<char>>, id: Seq<char>) -> Option<Seq<char>> {
    if said.dom().contains(id) {
        Some(said[id])
    } else {
        None
    }
}

pub open spec fn relation_object(
    store: StoreView,
    id: Seq<char>,
    said: Map<Seq<char>, Seq<char>>,
) -> Result<Option<ObjectRowView>, AppErrorView> {
    let row = store.relations[id];
    match stable_endpoint(store, row.from_identifier) {
        Err(e) => Err(e),
        Ok(from) => match stable_endpoint(store, row.to_identifier) {
            Err(e) => Err(e),
            Ok(to) => Ok(
                Some(
                    sync_state::object_row(
                        "semantic_relation"@,
                        id,
                        relation_payload(
                            id,
                            row,
                            from,
                            to,
                            known_hashes(store, row.source_ids, row.source_ids.len()),
                            said_of(said, id),
                        ),
                    ),
                ),
            ),
        },
    }
}

fn encode_relation(store: &Store, key: &String, row: &RelationRow, said: &Table<String, String>) -> (r: Result<Option<ObjectRow>, AppError>)
    requires
        store@.relations.dom().contains(key@),
        row@ == store@.relations[key@],
    ensures
        row_outcome(r) == relation_object(store@, key@, said@),
{
    let from = match stable_relation_endpoint(store, row.from_identifier.as_str()) {
        Ok(from) => from,
        Err(e) => {
            return Err(e);
        },
    };
    let to = match stable_relation_endpoint(store, row.to_identifier.as_str()) {
        Ok(to) => to,
        Err(e) => {
            return Err(e);
        },
    };
    let hashes = find_known_hashes(store, &row.source_ids);
    let confidence = match said.get(key) {
        Some(number) => Json::Number(owned(number.as_str())),
        None => Json::Null,
    };
    let mut entries: Vec<(String, Json)> = Vec::new();
    entries.push((owned("confidence"), confidence));
    entries.push((owned("created_at"), Json::text(row.created_at.as_str())));
    entries.push((owned("from"), Json::text(from.as_str())));
    entries.push((owned("id"), Json::text(key.as_str())));
    entries.push((owned("provenance"), Json::text(row.provenance.as_str())));
    entries.push((owned("reason"), encode_opt(&row.reason)));
    entries.push((owned("relation_type"), Json::text(row.relation_type.as_str())));
    entries.push((owned("source_hashes"), encode_list(&hashes)));
    entries.push((owned("to"), Json::text(to.as_str())));
    entries.push((owned("updated_at"), Json::text(row.updated_at.as_str())));
    assert(json::entry_views(entries@) =~= relation_payload(
        key@,
        row@,
        from@,
        to@,
        text::views(hashes@),
        said_of(said@, key@),
    )->Object_0);
    let payload = Json::object(entries);
    Ok(Some(insert_sync_object("semantic_relation", key.as_str(), &payload)))
}

/// The relations as they travel. `said` holds how sure each of them is, as JSON has it.
pub open spec fn relation_objects(
    store: StoreView,
    said: Map<Seq<char>, Seq<char>>,
    keys: Seq<Seq<char>>,
    count: nat,
) -> Result<Seq<ObjectRowView>, AppErrorView>
    decreases count,
{
    if count == 0 || count > keys.len() {
        Ok(Seq::empty())
    } else {
        match relation_objects(store, said, keys, (count - 1) as nat) {
            Err(e) => Err(e),
            Ok(head) => match relation_object(store, keys[count - 1], said) {
                Err(e) => Err(e),
                Ok(None) => Ok(head),
                Ok(Some(one)) => Ok(head.push(one)),
            },
        }
    }
}

proof fn lemma_relation_objects_stop(
    store: StoreView,
    said: Map<Seq<char>, Seq<char>>,
    keys: Seq<Seq<char>>,
    count: nat,
    more: nat,
)
    requires
        0 < count <= more <= keys.len(),
        relation_objects(store, said, keys, count) is Err,
    ensures
        relation_objects(store, said, keys, more) == relation_objects(store, said, keys, count),
    decreases more - count,
{
    if count < more {
        lemma_relation_objects_stop(store, said, keys, count, (more - 1) as nat);
    }
}

impl Store {
    /// The relations as they travel. `said` holds how sure each of them is, as JSON has it.
    pub fn export_sync_relations(&self, said: &Table<String, String>) -> (r: Result<Vec<ObjectRow>, AppError>)
        ensures
            rows_outcome(r) == relation_objects(
                self@, said@,
                table::ordered::<String>(self@.relations.dom()),
                table::ordered::<String>(self@.relations.dom()).len(),
            ),
    {
        let n = self.relations.len();
        let ghost keys = self.relations.keys();
        proof {
            table::lemma_ordered_is::<String>(keys, self@.relations.dom());
        }
        let mut out: Vec<ObjectRow> = Vec::new();
        assert(text::views(out@) =~= Seq::empty());
        let mut i: usize = 0;
        while i < n
            invariant
                i <= n == keys.len(),
                keys == self.relations.keys(),
                relation_objects(self@, said@, keys, i as nat) == Ok::<Seq<ObjectRowView>, AppErrorView>(
                    text::views(out@),
                ),
            decreases n - i,
        {
            let key = self.relations.key_at(i);
            let row = self.relations.value_at(i);
            match encode_relation(self, key, row, said) {
                Err(e) => {
                    proof {
                        lemma_relation_objects_stop(self@, said@, keys, (i + 1) as nat, keys.len());
                    }
                    return Err(e);
                },
                Ok(None) => {},
                Ok(Some(one)) => {
                    proof {
                        text::lemma_views_push(out@, one);
                    }
                    out.push(one);
                },
            }
            i += 1;
        }
        Ok(out)
    }
}

/// A value of the metadata as it travels, where it is set.
pub open spec fn meta_object(store: StoreView, key: Seq<char>) -> Seq<ObjectRowView> {
    if store.meta.dom().contains(key) {
        seq![
            sync_state::object_row(
                "meta"@,
                key,
                JsonView::Object(seq![json::entry("value"@, JsonView::Text(store.meta[key]))]),
            ),
        ]
    } else {
        Seq::empty()
    }
}

impl Store {
    /// The schema and the purpose as they travel.
    pub fn export_sync_meta(&self) -> (r: Vec<ObjectRow>)
        ensures
            text::views(r@) == meta_object(self@, "schema"@) + meta_object(self@, "purpose"@),
    {
        let mut out: Vec<ObjectRow> = Vec::new();
        match self.meta.get(&owned("schema")) {
            Some(value) => {
                let payload = Json::object1("value", Json::text(value.as_str()));
                out.push(insert_sync_object("meta", "schema", &payload));
            },
            None => {},
        }
        match self.meta.get(&owned("purpose")) {
            Some(value) => {
                let payload = Json::object1("value", Json::text(value.as_str()));
                out.push(insert_sync_object("meta", "purpose", &payload));
            },
            None => {},
        }
        assert(text::views(out@) =~= meta_object(self@, "schema"@) + meta_object(
            self@,
            "purpose"@,
        ));
        out
    }
}

// ---------------------------------------------------------------------------
// Memories, todos and plans
// ---------------------------------------------------------------------------

/// The entries of an object without those under the given keys.
pub open spec fn stripped(entries: Seq<EntryView>, keys: Seq<Seq<char>>) -> Seq<EntryView>
    decreases entries.len(),
{
    if entries.len() == 0 {
        Seq::empty()
    } else {
        let head = stripped(entries.drop_last(), keys);
        if keys.contains(entries.last().key) {
            head
        } else {
            head.push(entries.last())
        }
    }
}

fn strip(entries: &Vec<(String, Json)>, keys: &Vec<String>) -> (r: Vec<(String, Json)>)
    ensures
        json::entry_views(r@) == stripped(json::entry_views(entries@), text::views(keys@)),
{
    let ghost all = json::entry_views(entries@);
    let mut out: Vec<(String, Json)> = Vec::new();
    assert(json::entry_views(out@) =~= Seq::empty());
    assert(all.take(0) =~= Seq::empty());
    let mut i: usize = 0;
    while i < entries.len()
        invariant
            i <= entries@.len() == all.len(),
            all == json::entry_views(entries@),
            json::entry_views(out@) == stripped(all.take(i as int), text::views(keys@)),
        decreases entries@.len() - i,
    {
        let ghost was = out@;
        proof {
            assert(all.take(i + 1).drop_last() =~= all.take(i as int));
            assert(all.take(i + 1).last() == all[i as int]);
        }
        if !has_text(keys, entries[i].0.as_str()) {
            out.push((owned(entries[i].0.as_str()), entries[i].1.duplicate()));
            assert(json::entry_views(out@) =~= json::entry_views(was).push(all[i as int]));
        }
        i += 1;
    }
    assert(all.take(all.len() as int) =~= all);
    out
}

/// A memory as it travels: with its feedback, without the request that made it.
pub open spec fn portable_event(event: Seq<EntryView>, feedback: Seq<JsonView>) -> JsonView {
    JsonView::Object(
        json::with_entry(
            stripped(event, seq!["request_id"@]),
            "feedback"@,
            JsonView::Array(feedback),
        ),
    )
}

/// A memory as it travels.
pub fn portable_memory(event: &Vec<(String, Json)>, feedback: Vec<Json>) -> (r: Json)
    ensures
        r@ == portable_event(json::entry_views(event@), text::views(feedback@)),
{
    let keys = vec![owned("request_id")];
    assert(text::views(keys@) =~= seq!["request_id"@]);
    let mut entries = strip(event, &keys);
    proof {
        json::lemma_array_view(feedback);
    }
    set_entry(&mut entries, "feedback", Json::Array(feedback));
    Json::object(entries)
}

/// What a todo leaves behind.
pub open spec fn local_todo() -> Seq<Seq<char>> {
    seq!["request_id"@, "scope"@, "children"@, "revision"@]
}

/// A todo as it travels.
pub fn portable_todo(todo: &Vec<(String, Json)>) -> (r: Json)
    ensures
        r@ == JsonView::Object(stripped(json::entry_views(todo@), local_todo())),
{
    let keys = vec![owned("request_id"), owned("scope"), owned("children"), owned("revision")];
    assert(text::views(keys@) =~= local_todo());
    Json::object(strip(todo, &keys))
}

/// An event of the history of a plan.
pub struct PlanEvent {
    pub action: String,
    pub reason: Option<String>,
    pub step_id: Option<String>,
    pub result: Option<String>,
    pub created_at: String,
}

#[verifier::ext_equal]
pub struct PlanEventView {
    pub action: Seq<char>,
    pub reason: Option<Seq<char>>,
    pub step_id: Option<Seq<char>>,
    pub result: Option<Seq<char>>,
    pub created_at: Seq<char>,
}

impl View for PlanEvent {
    type V = PlanEventView;

    open spec fn view(&self) -> PlanEventView {
        PlanEventView {
            action: self.action@,
            reason: text::opt_text(self.reason),
            step_id: text::opt_text(self.step_id),
            result: text::opt_text(self.result),
            created_at: self.created_at@,
        }
    }
}

/// An event of the history of a plan as it travels.
pub open spec fn plan_event(event: PlanEventView, ordinal: nat) -> JsonView {
    JsonView::Object(
        seq![
            json::entry("action"@, JsonView::Text(event.action)),
            json::entry("created_at"@, JsonView::Text(event.created_at)),
            json::entry("ordinal"@, json::count_view(ordinal)),
            json::entry("reason"@, discussion_book::opt_json(event.reason)),
            json::entry("result"@, discussion_book::opt_json(event.result)),
            json::entry("step_id"@, discussion_book::opt_json(event.step_id)),
        ],
    )
}

pub open spec fn plan_events(history: Seq<PlanEventView>) -> JsonView {
    JsonView::Array(Seq::new(history.len(), |i: int| plan_event(history[i], i as nat)))
}

/// What a step of a plan leaves behind.
pub open spec fn local_step() -> Seq<Seq<char>> {
    seq!["created_revision"@, "updated_revision"@]
}

/// The first steps of a plan as they travel.
pub open spec fn plan_steps(steps: Seq<JsonView>, count: nat) -> Result<
    Seq<JsonView>,
    AppErrorView,
>
    decreases count,
{
    if count == 0 || count > steps.len() {
        Ok(Seq::empty())
    } else {
        match plan_steps(steps, (count - 1) as nat) {
            Err(e) => Err(e),
            Ok(head) => match steps[count - 1] {
                JsonView::Object(entries) => Ok(
                    head.push(JsonView::Object(stripped(entries, local_step()))),
                ),
                _ => error::refused(ErrorCode::CorruptStore, "Plan step is not an object"@),
            },
        }
    }
}

/// A plan as it travels.
pub open spec fn plan_payload(plan: Seq<EntryView>, history: Seq<PlanEventView>) -> Result<
    JsonView,
    AppErrorView,
> {
    let own = stripped(plan, seq!["request_id"@, "scope"@, "revision"@]);
    let events = plan_events(history);
    match json::lookup(own, "steps"@) {
        Some(JsonView::Array(steps)) => match plan_steps(steps, steps.len()) {
            Err(e) => Err(e),
            Ok(kept) => Ok(
                JsonView::Object(
                    json::with_entry(
                        json::with_entry(own, "steps"@, JsonView::Array(kept)),
                        "history"@,
                        events,
                    ),
                ),
            ),
        },
        _ => Ok(JsonView::Object(json::with_entry(own, "history"@, events))),
    }
}

proof fn lemma_steps_stop(steps: Seq<JsonView>, count: nat, more: nat)
    requires
        0 < count <= more <= steps.len(),
        plan_steps(steps, count) is Err,
    ensures
        plan_steps(steps, more) == plan_steps(steps, count),
    decreases more - count,
{
    if count < more {
        lemma_steps_stop(steps, count, (more - 1) as nat);
    }
}

fn strip_steps(steps: &Vec<Json>) -> (r: Result<Vec<Json>, AppError>)
    ensures
        match plan_steps(text::views(steps@), steps@.len()) {
            Ok(kept) => r matches Ok(list) && text::views(list@) == kept,
            Err(e) => r matches Err(got) && got@ == e,
        },
{
    let ghost all = text::views(steps@);
    let keys = vec![owned("created_revision"), owned("updated_revision")];
    assert(text::views(keys@) =~= local_step());
    let mut out: Vec<Json> = Vec::new();
    assert(text::views(out@) =~= Seq::empty());
    let mut i: usize = 0;
    while i < steps.len()
        invariant
            i <= steps@.len() == all.len(),
            all == text::views(steps@),
            text::views(keys@) == local_step(),
            plan_steps(all, i as nat) == Ok::<Seq<JsonView>, AppErrorView>(text::views(out@)),
        decreases steps@.len() - i,
    {
        assert(all[i as int] == steps@[i as int]@);
        match &steps[i] {
            Json::Object(entries) => {
                proof {
                    json::lemma_object_view(*entries);
                }
                let kept = Json::object(strip(entries, &keys));
                proof {
                    text::lemma_views_push(out@, kept);
                }
                out.push(kept);
            },
            _ => {
                proof {
                    lemma_steps_stop(all, (i + 1) as nat, all.len());
                }
                return Err(AppError::new(ErrorCode::CorruptStore, "Plan step is not an object"));
            },
        }
        i += 1;
    }
    Ok(out)
}

fn encode_plan_events(history: &Vec<PlanEvent>) -> (r: Json)
    ensures
        r@ == plan_events(text::views(history@)),
{
    let ghost all = text::views(history@);
    let mut list: Vec<Json> = Vec::new();
    let mut i: usize = 0;
    while i < history.len()
        invariant
            i <= history@.len() == all.len(),
            all == text::views(history@),
            list@.len() == i,
            forall|j: int| 0 <= j < i ==> (#[trigger] list@[j])@ == plan_event(all[j], j as nat),
        decreases history@.len() - i,
    {
        let event = &history[i];
        assert(all[i as int] == event@);
        let mut entries: Vec<(String, Json)> = Vec::new();
        entries.push((owned("action"), Json::text(event.action.as_str())));
        entries.push((owned("created_at"), Json::text(event.created_at.as_str())));
        entries.push((owned("ordinal"), Json::count(i)));
        entries.push((owned("reason"), encode_opt(&event.reason)));
        entries.push((owned("result"), encode_opt(&event.result)));
        entries.push((owned("step_id"), encode_opt(&event.step_id)));
        assert(json::entry_views(entries@) =~= plan_event(event@, i as nat)->Object_0);
        list.push(Json::object(entries));
        i += 1;
    }
    proof {
        json::lemma_array_view(list);
        assert(text::views(list@) =~= plan_events(all)->Array_0);
    }
    Json::Array(list)
}

/// A plan as it travels: with its history, without what counts only here.
pub fn portable_plan(plan: &Vec<(String, Json)>, history: &Vec<PlanEvent>) -> (r: Result<
    Json,
    AppError,
>)
    ensures
        error::outcome(r) == plan_payload(json::entry_views(plan@), text::views(history@)),
{
    let keys = vec![owned("request_id"), owned("scope"), owned("revision")];
    assert(text::views(keys@) =~= seq!["request_id"@, "scope"@, "revision"@]);
    let own = Json::object(strip(plan, &keys));
    let events = encode_plan_events(history);
    let kept: Option<Vec<Json>> = match own.array_at("steps") {
        Some(steps) => match strip_steps(steps) {
            Ok(kept) => Some(kept),
            Err(e) => {
                return Err(e);
            },
        },
        None => None,
    };
    let mut whole = own;
    match kept {
        Some(kept) => {
            proof {
                json::lemma_array_view(kept);
            }
            whole.set("steps", Json::Array(kept));
        },
        None => {},
    }
    whole.set("history", events);
    Ok(whole)
}

// ---------------------------------------------------------------------------
// The whole state
// ---------------------------------------------------------------------------

/// The rows of one table behind those so far.
pub open spec fn and_rows(
    so_far: Result<Seq<ObjectRowView>, AppErrorView>,
    more: Result<Seq<ObjectRowView>, AppErrorView>,
) -> Result<Seq<ObjectRowView>, AppErrorView> {
    match so_far {
        Err(e) => Err(e),
        Ok(head) => match more {
            Err(e) => Err(e),
            Ok(tail) => Ok(head + tail),
        },
    }
}

/// A store as objects that travel. `notes` are its memories, todos and plans.
pub open spec fn all_objects(
    store: StoreView,
    said: Map<Seq<char>, Seq<char>>,
    notes: Seq<ObjectRowView>,
) -> Result<Seq<ObjectRowView>, AppErrorView> {
    let sources = table::ordered::<i64>(store.sources.dom());
    let slugs = table::ordered::<String>(store.pages.dom());
    let names = table::ordered::<String>(store.tags.dom());
    let jobs = table::ordered::<i64>(store.ingest_jobs.dom());
    let weights = table::ordered::<Triple>(store.weights.dom());
    let feedback = table::ordered::<FeedbackKey>(store.feedback.dom());
    let relations = table::ordered::<String>(store.relations.dom());
    let a = Ok::<Seq<ObjectRowView>, AppErrorView>(
        meta_object(store, "schema"@) + meta_object(store, "purpose"@),
    );
    let b = and_rows(a, source_objects(store, sources, sources.len()));
    let c = and_rows(b, page_objects(store, slugs, slugs.len()));
    let d = and_rows(c, tag_objects(store, names, names.len()));
    let e = and_rows(d, ingest_objects(store, jobs, jobs.len()));
    let f = and_rows(e, weight_objects(store, weights, weights.len()));
    let g = and_rows(f, feedback_objects(store, feedback, feedback.len()));
    let h = and_rows(g, relation_objects(store, said, relations, relations.len()));
    let i = and_rows(h, Ok(notes));
    and_rows(i, Ok(discussion_store::portable_discussions(store.discussions)))
}

/// The digests of rows by kind and key. No two rows have the same.
pub open spec fn row_hashes(rows: Seq<ObjectRowView>, count: nat) -> Result<
    Map<PairView, Seq<char>>,
    AppErrorView,
>
    decreases count,
{
    if count == 0 || count > rows.len() {
        Ok(Map::empty())
    } else {
        match row_hashes(rows, (count - 1) as nat) {
            Err(e) => Err(e),
            Ok(so_far) => {
                let row = rows[count - 1];
                let key = PairView { first: row.kind, second: row.logical_key };
                if so_far.dom().contains(key) {
                    error::refused(ErrorCode::DatabaseError, "UNIQUE constraint failed"@)
                } else {
                    Ok(so_far.insert(key, row.payload_hash))
                }
            },
        }
    }
}

proof fn lemma_hashes_stop(rows: Seq<ObjectRowView>, count: nat, more: nat)
    requires
        0 < count <= more <= rows.len(),
        row_hashes(rows, count) is Err,
    ensures
        row_hashes(rows, more) == row_hashes(rows, count),
    decreases more - count,
{
    if count < more {
        lemma_hashes_stop(rows, count, (more - 1) as nat);
    }
}

fn hashes_of(rows: &Vec<ObjectRow>) -> (r: Result<Table<Pair, String>, AppError>)
    ensures
        match row_hashes(text::views(rows@), rows@.len()) {
            Ok(hashes) => r matches Ok(found) && found@ == hashes,
            Err(e) => r matches Err(got) && got@ == e,
        },
{
    let ghost all = text::views(rows@);
    let mut out: Table<Pair, String> = Table::new();
    let mut i: usize = 0;
    while i < rows.len()
        invariant
            i <= rows@.len() == all.len(),
            all == text::views(rows@),
            row_hashes(all, i as nat) == Ok::<Map<PairView, Seq<char>>, AppErrorView>(out@),
        decreases rows@.len() - i,
    {
        let row = &rows[i];
        assert(all[i as int] == row@);
        let key = Pair {
            first: owned(row.kind.as_str()),
            second: owned(row.logical_key.as_str()),
        };
        if out.has(&key) {
            proof {
                lemma_hashes_stop(all, (i + 1) as nat, all.len());
            }
            return Err(AppError::new(ErrorCode::DatabaseError, "UNIQUE constraint failed"));
        }
        out.put(key, owned(row.payload_hash.as_str()));
        i += 1;
    }
    Ok(out)
}

/// The contents of the first sources by the hashes that they go by.
pub open spec fn source_blobs(store: StoreView, ids: Seq<i64>, count: nat) -> Map<
    Seq<char>,
    Seq<u8>,
>
    decreases count,
{
    if count == 0 || count > ids.len() {
        Map::empty()
    } else {
        let row = store.sources[ids[count - 1]];
        source_blobs(store, ids, (count - 1) as nat).insert(
            row.content_hash,
            utf8::encode_utf8(row.content),
        )
    }
}

/// What a normalised state says of its format.
pub open spec fn state_manifest() -> Map<Seq<char>, Seq<char>> {
    Map::empty().insert("format"@, text::decimal(SYNC_STATE_FORMAT as int)).insert(
        "store_format"@,
        text::decimal(USER_VERSION as int),
    )
}

/// What a normalised state says of its format.
pub fn sync_manifest() -> (r: Table<String, String>)
    ensures
        r@ == state_manifest(),
{
    let mut manifest: Table<String, String> = Table::new();
    manifest.put(owned("format"), decimal_text(SYNC_STATE_FORMAT));
    manifest.put(owned("store_format"), decimal_text(USER_VERSION));
    manifest
}

/// A store in its normalised form.
pub struct SyncExport {
    pub manifest: Table<String, String>,
    pub objects: Vec<ObjectRow>,
    pub blobs: Table<String, Vec<u8>>,
    pub object_count: usize,
    pub blob_count: usize,
    pub state_digest: String,
}

#[verifier::ext_equal]
pub struct SyncExportView {
    pub objects: Seq<ObjectRowView>,
    pub blobs: Map<Seq<char>, Seq<u8>>,
    pub state_digest: Seq<char>,
}

/// A store in its normalised form.
pub open spec fn exported_state(
    store: StoreView,
    said: Map<Seq<char>, Seq<char>>,
    notes: Seq<ObjectRowView>,
) -> Result<SyncExportView, AppErrorView> {
    let ids = table::ordered::<i64>(store.sources.dom());
    let blobs = source_blobs(store, ids, ids.len());
    match all_objects(store, said, notes) {
        Err(e) => Err(e),
        Ok(objects) => match row_hashes(objects, objects.len()) {
            Err(e) => Err(e),
            Ok(hashes) => match sync_file::state_digest(state_manifest(), hashes, blobs) {
                Err(e) => Err(e),
                Ok(state_digest) => Ok(SyncExportView { objects, blobs, state_digest }),
            },
        },
    }
}

/// Puts rows behind those so far.
fn append_rows(out: &mut Vec<ObjectRow>, more: Vec<ObjectRow>)
    ensures
        text::views(final(out)@) == text::views(old(out)@) + text::views(more@),
{
    let mut more = more;
    let ghost was = out@;
    let ghost all = more@;
    out.append(&mut more);
    assert(text::views(out@) =~= text::views(was) + text::views(all));
}

impl Store {
    /// The store as objects that travel. `said` holds how sure each relation is, as JSON has
    /// it, and `notes` the memories, todos and plans as they travel.
    pub fn export_sync_objects(&self, said: &Table<String, String>, notes: Vec<ObjectRow>) -> (r:
        Result<Vec<ObjectRow>, AppError>)
        ensures
            rows_outcome(r) == all_objects(self@, said@, text::views(notes@)),
    {
        let mut out = self.export_sync_meta();
        match self.export_sync_sources() {
            Ok(rows) => append_rows(&mut out, rows),
            Err(e) => {
                return Err(e);
            },
        }
        match self.export_sync_pages() {
            Ok(rows) => append_rows(&mut out, rows),
            Err(e) => {
                return Err(e);
            },
        }
        match self.export_sync_tags() {
            Ok(rows) => append_rows(&mut out, rows),
            Err(e) => {
                return Err(e);
            },
        }
        match self.export_sync_ingest() {
            Ok(rows) => append_rows(&mut out, rows),
            Err(e) => {
                return Err(e);
            },
        }
        match self.export_sync_weights() {
            Ok(rows) => append_rows(&mut out, rows),
            Err(e) => {
                return Err(e);
            },
        }
        match self.export_sync_feedback() {
            Ok(rows) => append_rows(&mut out, rows),
            Err(e) => {
                return Err(e);
            },
        }
        match self.export_sync_relations(said) {
            Ok(rows) => append_rows(&mut out, rows),
            Err(e) => {
                return Err(e);
            },
        }
        append_rows(&mut out, notes);
        append_rows(&mut out, self.export_sync_discussions());
        Ok(out)
    }

    /// The contents of the sources by the hashes that they go by.
    pub fn export_sync_blobs(&self) -> (r: Table<String, Vec<u8>>)
        ensures
            r@ == source_blobs(
                self@,
                table::ordered::<i64>(self@.sources.dom()),
                table::ordered::<i64>(self@.sources.dom()).len(),
            ),
    {
        let n = self.sources.len();
        let ghost keys = self.sources.keys();
        proof {
            table::lemma_ordered_is::<i64>(keys, self@.sources.dom());
        }
        let mut out: Table<String, Vec<u8>> = Table::new();
        let mut i: usize = 0;
        while i < n
            invariant
                i <= n == keys.len(),
                keys == self.sources.keys(),
                out@ == source_blobs(self@, keys, i as nat),
            decreases n - i,
        {
            let row = self.sources.value_at(i);
            out.put(owned(row.content_hash.as_str()), row.content.as_str().as_bytes_vec());
            i += 1;
        }
        out
    }

    /// The store in its normalised form, and the digest that it goes by.
    pub fn export_sync_state(&self, said: &Table<String, String>, notes: Vec<ObjectRow>) -> (r:
        Result<SyncExport, AppError>)
        ensures
            match exported_state(self@, said@, text::views(notes@)) {
                Ok(state) => {
                    &&& r matches Ok(done)
                    &&& done.manifest@ == state_manifest()
                    &&& text::views(done.objects@) == state.objects
                    &&& done.blobs@ == state.blobs
                    &&& done.object_count == state.objects.len()
                    &&& done.blob_count == state.blobs.dom().len()
                    &&& done.state_digest@ == state.state_digest
                },
                Err(e) => r matches Err(got) && got@ == e,
            },
    {
        let objects = match self.export_sync_objects(said, notes) {
            Ok(objects) => objects,
            Err(e) => {
                return Err(e);
            },
        };
        assert(text::views(objects@).len() == objects@.len());
        let hashes = match hashes_of(&objects) {
            Ok(hashes) => hashes,
            Err(e) => {
                return Err(e);
            },
        };
        let blobs = self.export_sync_blobs();
        let manifest = sync_manifest();
        let state_digest = match sync_state_digest(&manifest, &hashes, &blobs) {
            Ok(state_digest) => state_digest,
            Err(e) => {
                return Err(e);
            },
        };
        let object_count = objects.len();
        let blob_count = blobs.len();
        Ok(SyncExport { manifest, objects, blobs, object_count, blob_count, state_digest })
    }
}

} // verus!
