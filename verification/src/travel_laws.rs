//! A store in another place: what travels, and how it reads there.
use crate::discussion_store;
use crate::error::{AppErrorView, ErrorCode};
use crate::json;
use crate::json::{EntryView, JsonView};
use crate::rows::{
    FeedbackKey, FeedbackKeyView, FeedbackView, PageView, RelationView, SourceView, TagMemberView,
    TagView, WeightView,
};
use crate::store::StoreView;
use crate::sync_export::PlanEventView;
use crate::sync_export;
use crate::sync_state::ObjectRowView;
use crate::sync_state;
use crate::table;
use crate::table::{PairView, Triple, TripleView};
use crate::text;
use vstd::prelude::*;
use vstd::utf8;

verus! {

proof fn lemma_found(entries: Seq<EntryView>, k: int)
    requires
        0 <= k < entries.len(),
        forall|j: int| 0 <= j < k ==> (#[trigger] entries[j]).key != entries[k].key,
    ensures
        json::lookup(entries, entries[k].key) == Some(entries[k].value),
    decreases k,
{
    if k > 0 {
        let rest = entries.drop_first();
        assert(rest[k - 1] == entries[k]);
        assert forall|j: int| 0 <= j < k - 1 implies (#[trigger] rest[j]).key != rest[k - 1].key by {
            assert(rest[j] == entries[j + 1]);
        }
        assert(entries[0].key != entries[k].key);
        lemma_found(rest, k - 1);
    }
}

/// A source that travels says what it is. Where it came from is not said where that is a place
/// on this machine.
pub proof fn law_source_can_be_read(row: SourceView)
    ensures
        ({
            let sent = sync_export::source_payload(row);
            &&& sent.at("content_hash"@) == JsonView::Text(row.content_hash)
            &&& sent.at("created_at"@) == JsonView::Text(row.created_at)
            &&& sent.at("structural_navigation"@) == JsonView::Bool(row.structural_navigation)
            &&& row.origin.len() > 0 && row.origin[0] == '/' ==> sent.at("origin"@) is Null
            &&& row.origin.len() == 0 || row.origin[0] != '/' ==> sent.text_at("origin"@) == Some(row.origin)
            &&& sent.text_at("title"@) == row.title
            &&& row.title is None ==> sent.at("title"@) is Null
        }),
{
    reveal_strlit("content_hash");
    reveal_strlit("created_at");
    reveal_strlit("origin");
    reveal_strlit("structural_navigation");
    reveal_strlit("title");
    assert("content_hash"@.len() == 12);
    assert("created_at"@.len() == 10);
    assert("origin"@.len() == 6);
    assert("structural_navigation"@.len() == 21);
    assert("title"@.len() == 5);
    let entries = sync_export::source_payload(row)->Object_0;
    assert(entries[0].key == "content_hash"@);
    assert(entries[1].key == "created_at"@);
    assert(entries[2].key == "origin"@);
    assert(entries[3].key == "structural_navigation"@);
    assert(entries[4].key == "title"@);
    lemma_found(entries, 0);
    lemma_found(entries, 1);
    lemma_found(entries, 2);
    lemma_found(entries, 3);
    lemma_found(entries, 4);
    reveal_strlit("/");
    assert("/"@.len() == 1 && "/"@[0] == '/');
    if row.origin.len() > 0 && row.origin[0] == '/' {
        assert("/"@ =~= row.origin.take(1));
    }
}

/// A page that travels says what it is, and cites its sources by the hashes of their contents.
pub proof fn law_page_can_be_read(slug: Seq<char>, row: PageView, hashes: Seq<Seq<char>>, k: int)
    ensures
        ({
            let sent = sync_export::page_payload(slug, row, hashes);
            &&& sent.at("body"@) == JsonView::Text(row.body)
            &&& sent.at("created_at"@) == JsonView::Text(row.created_at)
            &&& sent.at("slug"@) == JsonView::Text(slug)
            &&& sent.at("structural_navigation"@) == JsonView::Bool(row.structural_navigation)
            &&& sent.at("title"@) == JsonView::Text(row.title)
            &&& sent.at("updated_at"@) == JsonView::Text(row.updated_at)
            &&& sent.text_at("kind"@) == row.kind
            &&& sent.text_at("summary"@) == row.summary
            &&& sent.array_at("source_hashes"@) matches Some(cited) && cited.len() == hashes.len() && (0
                <= k < hashes.len() ==> cited[k] == JsonView::Text(hashes[k]))
            &&& sent.at("provenance"@) is Array
        }),
{
    reveal_strlit("body");
    reveal_strlit("created_at");
    reveal_strlit("kind");
    reveal_strlit("provenance");
    reveal_strlit("slug");
    reveal_strlit("source_hashes");
    reveal_strlit("structural_navigation");
    reveal_strlit("summary");
    reveal_strlit("title");
    reveal_strlit("updated_at");
    assert("body"@.len() == 4);
    assert("created_at"@.len() == 10);
    assert("kind"@.len() == 4);
    assert("provenance"@.len() == 10);
    assert("slug"@.len() == 4);
    assert("source_hashes"@.len() == 13);
    assert("structural_navigation"@.len() == 21);
    assert("summary"@.len() == 7);
    assert("title"@.len() == 5);
    assert("updated_at"@.len() == 10);
    assert("body"@[0] == 'b');
    assert("kind"@[0] == 'k');
    assert("slug"@[0] == 's');
    assert("created_at"@[0] == 'c');
    assert("provenance"@[0] == 'p');
    assert("updated_at"@[0] == 'u');
    let entries = sync_export::page_payload(slug, row, hashes)->Object_0;
    assert(entries[0].key == "body"@);
    assert(entries[1].key == "created_at"@);
    assert(entries[2].key == "kind"@);
    assert(entries[3].key == "provenance"@);
    assert(entries[4].key == "slug"@);
    assert(entries[5].key == "source_hashes"@);
    assert(entries[6].key == "structural_navigation"@);
    assert(entries[7].key == "summary"@);
    assert(entries[8].key == "title"@);
    assert(entries[9].key == "updated_at"@);
    lemma_found(entries, 0);
    lemma_found(entries, 1);
    lemma_found(entries, 2);
    lemma_found(entries, 3);
    lemma_found(entries, 4);
    lemma_found(entries, 5);
    lemma_found(entries, 6);
    lemma_found(entries, 7);
    lemma_found(entries, 8);
    lemma_found(entries, 9);
}

/// A page of a tag that travels says what it is.
pub proof fn law_member_can_be_read(slug: Seq<char>, row: TagMemberView)
    ensures
        ({
            let sent = sync_export::member_payload(slug, row);
            &&& sent.at("created_at"@) == JsonView::Text(row.created_at)
            &&& sent.at("priority"@) == JsonView::Int(row.priority as int)
            &&& sent.at("reason"@) == JsonView::Text(row.reason)
            &&& sent.at("slug"@) == JsonView::Text(slug)
            &&& sent.at("updated_at"@) == JsonView::Text(row.updated_at)
        }),
{
    reveal_strlit("created_at");
    reveal_strlit("priority");
    reveal_strlit("reason");
    reveal_strlit("slug");
    reveal_strlit("updated_at");
    assert("created_at"@.len() == 10);
    assert("priority"@.len() == 8);
    assert("reason"@.len() == 6);
    assert("slug"@.len() == 4);
    assert("updated_at"@.len() == 10);
    assert("created_at"@[0] == 'c');
    assert("updated_at"@[0] == 'u');
    let entries = sync_export::member_payload(slug, row)->Object_0;
    assert(entries[0].key == "created_at"@);
    assert(entries[1].key == "priority"@);
    assert(entries[2].key == "reason"@);
    assert(entries[3].key == "slug"@);
    assert(entries[4].key == "updated_at"@);
    lemma_found(entries, 0);
    lemma_found(entries, 1);
    lemma_found(entries, 2);
    lemma_found(entries, 3);
    lemma_found(entries, 4);
}

/// A weight that travels says what it is, and names its target as it is known elsewhere.
pub proof fn law_weight_can_be_read(key: TripleView, row: WeightView, identifier: Seq<char>)
    ensures
        ({
            let sent = sync_export::weight_payload(key, row, identifier);
            &&& sent.at("provenance"@) == JsonView::Text(key.third)
            &&& sent.at("reason"@) == JsonView::Text(row.reason)
            &&& sent.at("target_identifier"@) == JsonView::Text(identifier)
            &&& sent.at("target_type"@) == JsonView::Text(key.first)
            &&& sent.at("updated_at"@) == JsonView::Text(row.updated_at)
            &&& sent.at("weight"@) == JsonView::Int(row.weight as int)
        }),
{
    reveal_strlit("provenance");
    reveal_strlit("reason");
    reveal_strlit("target_identifier");
    reveal_strlit("target_type");
    reveal_strlit("updated_at");
    reveal_strlit("weight");
    assert("provenance"@.len() == 10);
    assert("reason"@.len() == 6);
    assert("target_identifier"@.len() == 17);
    assert("target_type"@.len() == 11);
    assert("updated_at"@.len() == 10);
    assert("weight"@.len() == 6);
    assert("provenance"@[0] == 'p');
    assert("updated_at"@[0] == 'u');
    assert("reason"@[0] == 'r');
    assert("weight"@[0] == 'w');
    let entries = sync_export::weight_payload(key, row, identifier)->Object_0;
    assert(entries[0].key == "provenance"@);
    assert(entries[1].key == "reason"@);
    assert(entries[2].key == "target_identifier"@);
    assert(entries[3].key == "target_type"@);
    assert(entries[4].key == "updated_at"@);
    assert(entries[5].key == "weight"@);
    lemma_found(entries, 0);
    lemma_found(entries, 1);
    lemma_found(entries, 2);
    lemma_found(entries, 3);
    lemma_found(entries, 4);
    lemma_found(entries, 5);
}

/// Feedback that travels says what it is, and names its target as it is known elsewhere.
pub proof fn law_feedback_can_be_read(key: FeedbackKeyView, row: FeedbackView, identifier: Seq<char>)
    ensures
        ({
            let sent = sync_export::feedback_payload(key, row, identifier);
            &&& sent.at("provenance"@) == JsonView::Text(key.target.third)
            &&& sent.at("query_fingerprint"@) == JsonView::Text(key.query)
            &&& sent.at("reason"@) == JsonView::Text(row.reason)
            &&& sent.at("signal"@) == JsonView::Int(row.signal as int)
            &&& sent.at("target_identifier"@) == JsonView::Text(identifier)
            &&& sent.at("target_type"@) == JsonView::Text(key.target.first)
            &&& sent.at("updated_at"@) == JsonView::Text(row.updated_at)
        }),
{
    reveal_strlit("provenance");
    reveal_strlit("query_fingerprint");
    reveal_strlit("reason");
    reveal_strlit("signal");
    reveal_strlit("target_identifier");
    reveal_strlit("target_type");
    reveal_strlit("updated_at");
    assert("provenance"@.len() == 10);
    assert("query_fingerprint"@.len() == 17);
    assert("reason"@.len() == 6);
    assert("signal"@.len() == 6);
    assert("target_identifier"@.len() == 17);
    assert("target_type"@.len() == 11);
    assert("updated_at"@.len() == 10);
    assert("provenance"@[0] == 'p');
    assert("updated_at"@[0] == 'u');
    assert("query_fingerprint"@[0] == 'q');
    assert("target_identifier"@[0] == 't');
    assert("reason"@[0] == 'r');
    assert("signal"@[0] == 's');
    let entries = sync_export::feedback_payload(key, row, identifier)->Object_0;
    assert(entries[0].key == "provenance"@);
    assert(entries[1].key == "query_fingerprint"@);
    assert(entries[2].key == "reason"@);
    assert(entries[3].key == "signal"@);
    assert(entries[4].key == "target_identifier"@);
    assert(entries[5].key == "target_type"@);
    assert(entries[6].key == "updated_at"@);
    lemma_found(entries, 0);
    lemma_found(entries, 1);
    lemma_found(entries, 2);
    lemma_found(entries, 3);
    lemma_found(entries, 4);
    lemma_found(entries, 5);
    lemma_found(entries, 6);
}

/// A relation that travels says what it is, with its ends as they are known elsewhere.
pub proof fn law_relation_can_be_read(id: Seq<char>, row: RelationView, from: Seq<char>, to: Seq<char>, hashes: Seq<Seq<char>>, said: Option<Seq<char>>, k: int)
    ensures
        ({
            let sent = sync_export::relation_payload(id, row, from, to, hashes, said);
            &&& sent.at("created_at"@) == JsonView::Text(row.created_at)
            &&& sent.at("from"@) == JsonView::Text(from)
            &&& sent.at("id"@) == JsonView::Text(id)
            &&& sent.at("provenance"@) == JsonView::Text(row.provenance)
            &&& sent.at("relation_type"@) == JsonView::Text(row.relation_type)
            &&& sent.at("to"@) == JsonView::Text(to)
            &&& sent.at("updated_at"@) == JsonView::Text(row.updated_at)
            &&& sent.text_at("reason"@) == row.reason
            &&& said matches Some(number) ==> sent.at("confidence"@) == JsonView::Number(number)
            &&& said is None ==> sent.at("confidence"@) is Null
            &&& sent.array_at("source_hashes"@) matches Some(cited) && cited.len() == hashes.len() && (0
                <= k < hashes.len() ==> cited[k] == JsonView::Text(hashes[k]))
        }),
{
    reveal_strlit("confidence");
    reveal_strlit("created_at");
    reveal_strlit("from");
    reveal_strlit("id");
    reveal_strlit("provenance");
    reveal_strlit("reason");
    reveal_strlit("relation_type");
    reveal_strlit("source_hashes");
    reveal_strlit("to");
    reveal_strlit("updated_at");
    assert("confidence"@.len() == 10);
    assert("created_at"@.len() == 10);
    assert("from"@.len() == 4);
    assert("id"@.len() == 2);
    assert("provenance"@.len() == 10);
    assert("reason"@.len() == 6);
    assert("relation_type"@.len() == 13);
    assert("source_hashes"@.len() == 13);
    assert("to"@.len() == 2);
    assert("updated_at"@.len() == 10);
    assert("confidence"@[1] == 'o');
    assert("created_at"@[1] == 'r');
    assert("confidence"@[0] == 'c');
    assert("provenance"@[0] == 'p');
    assert("updated_at"@[0] == 'u');
    assert("created_at"@[0] == 'c');
    assert("id"@[0] == 'i');
    assert("to"@[0] == 't');
    assert("relation_type"@[0] == 'r');
    assert("source_hashes"@[0] == 's');
    let entries = sync_export::relation_payload(id, row, from, to, hashes, said)->Object_0;
    assert(entries[0].key == "confidence"@);
    assert(entries[1].key == "created_at"@);
    assert(entries[2].key == "from"@);
    assert(entries[3].key == "id"@);
    assert(entries[4].key == "provenance"@);
    assert(entries[5].key == "reason"@);
    assert(entries[6].key == "relation_type"@);
    assert(entries[7].key == "source_hashes"@);
    assert(entries[8].key == "to"@);
    assert(entries[9].key == "updated_at"@);
    lemma_found(entries, 0);
    lemma_found(entries, 1);
    lemma_found(entries, 2);
    lemma_found(entries, 3);
    lemma_found(entries, 4);
    lemma_found(entries, 5);
    lemma_found(entries, 6);
    lemma_found(entries, 7);
    lemma_found(entries, 8);
    lemma_found(entries, 9);
}

/// A tag that travels says what it is, and lists each of its pages.
pub proof fn law_tag_can_be_read(name: Seq<char>, row: TagView)
    ensures
        ({
            let sent = sync_export::tag_payload(name, row);
            &&& sent.at("autoload"@) == JsonView::Bool(row.policy.autoload)
            &&& sent.at("autoload_limit"@) == JsonView::Int(row.policy.autoload_limit as int)
            &&& sent.at("autoload_max_chars"@) == JsonView::Int(row.policy.autoload_max_chars as int)
            &&& sent.at("autoload_priority"@) == JsonView::Int(row.policy.autoload_priority as int)
            &&& sent.at("name"@) == JsonView::Text(name)
            &&& sent.at("reason"@) == JsonView::Text(row.policy.reason)
            &&& sent.at("updated_at"@) == JsonView::Text(row.policy.updated_at)
            &&& sent.array_at("pages"@) is Some
        }),
{
    reveal_strlit("autoload");
    reveal_strlit("autoload_limit");
    reveal_strlit("autoload_max_chars");
    reveal_strlit("autoload_priority");
    reveal_strlit("name");
    reveal_strlit("pages");
    reveal_strlit("reason");
    reveal_strlit("updated_at");
    assert("autoload"@.len() == 8);
    assert("autoload_limit"@.len() == 14);
    assert("autoload_max_chars"@.len() == 18);
    assert("autoload_priority"@.len() == 17);
    assert("name"@.len() == 4);
    assert("pages"@.len() == 5);
    assert("reason"@.len() == 6);
    assert("updated_at"@.len() == 10);
    let entries = sync_export::tag_payload(name, row)->Object_0;
    assert(entries[0].key == "autoload"@);
    assert(entries[1].key == "autoload_limit"@);
    assert(entries[2].key == "autoload_max_chars"@);
    assert(entries[3].key == "autoload_priority"@);
    assert(entries[4].key == "name"@);
    assert(entries[5].key == "pages"@);
    assert(entries[6].key == "reason"@);
    assert(entries[7].key == "updated_at"@);
    lemma_found(entries, 0);
    lemma_found(entries, 1);
    lemma_found(entries, 2);
    lemma_found(entries, 3);
    lemma_found(entries, 4);
    lemma_found(entries, 5);
    lemma_found(entries, 6);
    lemma_found(entries, 7);
}

proof fn lemma_sources_out(store: StoreView, keys: Seq<i64>, count: nat, k: int)
    requires
        0 <= k < count <= keys.len(),
    ensures
        sync_export::source_objects(store, keys, count) matches Ok(rows) ==> {
            &&& sync_export::source_object(store, keys[k]) matches Ok(one)
            &&& one is Some ==> rows.contains(one->0)
        },
    decreases count,
{
    if let Ok(rows) = sync_export::source_objects(store, keys, count) {
        let head = sync_export::source_objects(store, keys, (count - 1) as nat)->Ok_0;
        if k < count - 1 {
            lemma_sources_out(store, keys, (count - 1) as nat, k);
            if let Some(one) = sync_export::source_object(store, keys[k])->Ok_0 {
                let n = head.index_of(one);
                assert(rows[n] == one);
            }
        } else if let Some(one) = sync_export::source_object(store, keys[k])->Ok_0 {
            assert(rows[head.len() as int] == one);
        }
    }
}

proof fn lemma_pages_out(store: StoreView, keys: Seq<Seq<char>>, count: nat, k: int)
    requires
        0 <= k < count <= keys.len(),
    ensures
        sync_export::page_objects(store, keys, count) matches Ok(rows) ==> {
            &&& sync_export::page_object(store, keys[k]) matches Ok(one)
            &&& one is Some ==> rows.contains(one->0)
        },
    decreases count,
{
    if let Ok(rows) = sync_export::page_objects(store, keys, count) {
        let head = sync_export::page_objects(store, keys, (count - 1) as nat)->Ok_0;
        if k < count - 1 {
            lemma_pages_out(store, keys, (count - 1) as nat, k);
            if let Some(one) = sync_export::page_object(store, keys[k])->Ok_0 {
                let n = head.index_of(one);
                assert(rows[n] == one);
            }
        } else if let Some(one) = sync_export::page_object(store, keys[k])->Ok_0 {
            assert(rows[head.len() as int] == one);
        }
    }
}

proof fn lemma_tags_out(store: StoreView, keys: Seq<Seq<char>>, count: nat, k: int)
    requires
        0 <= k < count <= keys.len(),
    ensures
        sync_export::tag_objects(store, keys, count) matches Ok(rows) ==> {
            &&& sync_export::tag_object(store, keys[k]) matches Ok(one)
            &&& one is Some ==> rows.contains(one->0)
        },
    decreases count,
{
    if let Ok(rows) = sync_export::tag_objects(store, keys, count) {
        let head = sync_export::tag_objects(store, keys, (count - 1) as nat)->Ok_0;
        if k < count - 1 {
            lemma_tags_out(store, keys, (count - 1) as nat, k);
            if let Some(one) = sync_export::tag_object(store, keys[k])->Ok_0 {
                let n = head.index_of(one);
                assert(rows[n] == one);
            }
        } else if let Some(one) = sync_export::tag_object(store, keys[k])->Ok_0 {
            assert(rows[head.len() as int] == one);
        }
    }
}

proof fn lemma_jobs_out(store: StoreView, keys: Seq<i64>, count: nat, k: int)
    requires
        0 <= k < count <= keys.len(),
    ensures
        sync_export::ingest_objects(store, keys, count) matches Ok(rows) ==> {
            &&& sync_export::ingest_object(store, keys[k]) matches Ok(one)
            &&& one is Some ==> rows.contains(one->0)
        },
    decreases count,
{
    if let Ok(rows) = sync_export::ingest_objects(store, keys, count) {
        let head = sync_export::ingest_objects(store, keys, (count - 1) as nat)->Ok_0;
        if k < count - 1 {
            lemma_jobs_out(store, keys, (count - 1) as nat, k);
            if let Some(one) = sync_export::ingest_object(store, keys[k])->Ok_0 {
                let n = head.index_of(one);
                assert(rows[n] == one);
            }
        } else if let Some(one) = sync_export::ingest_object(store, keys[k])->Ok_0 {
            assert(rows[head.len() as int] == one);
        }
    }
}

proof fn lemma_weights_out(store: StoreView, keys: Seq<TripleView>, count: nat, k: int)
    requires
        0 <= k < count <= keys.len(),
    ensures
        sync_export::weight_objects(store, keys, count) matches Ok(rows) ==> {
            &&& sync_export::weight_object(store, keys[k]) matches Ok(one)
            &&& one is Some ==> rows.contains(one->0)
        },
    decreases count,
{
    if let Ok(rows) = sync_export::weight_objects(store, keys, count) {
        let head = sync_export::weight_objects(store, keys, (count - 1) as nat)->Ok_0;
        if k < count - 1 {
            lemma_weights_out(store, keys, (count - 1) as nat, k);
            if let Some(one) = sync_export::weight_object(store, keys[k])->Ok_0 {
                let n = head.index_of(one);
                assert(rows[n] == one);
            }
        } else if let Some(one) = sync_export::weight_object(store, keys[k])->Ok_0 {
            assert(rows[head.len() as int] == one);
        }
    }
}

proof fn lemma_feedback_out(store: StoreView, keys: Seq<FeedbackKeyView>, count: nat, k: int)
    requires
        0 <= k < count <= keys.len(),
    ensures
        sync_export::feedback_objects(store, keys, count) matches Ok(rows) ==> {
            &&& sync_export::feedback_object(store, keys[k]) matches Ok(one)
            &&& one is Some ==> rows.contains(one->0)
        },
    decreases count,
{
    if let Ok(rows) = sync_export::feedback_objects(store, keys, count) {
        let head = sync_export::feedback_objects(store, keys, (count - 1) as nat)->Ok_0;
        if k < count - 1 {
            lemma_feedback_out(store, keys, (count - 1) as nat, k);
            if let Some(one) = sync_export::feedback_object(store, keys[k])->Ok_0 {
                let n = head.index_of(one);
                assert(rows[n] == one);
            }
        } else if let Some(one) = sync_export::feedback_object(store, keys[k])->Ok_0 {
            assert(rows[head.len() as int] == one);
        }
    }
}

proof fn lemma_relations_out(
    store: StoreView,
    said: Map<Seq<char>, Seq<char>>,
    keys: Seq<Seq<char>>,
    count: nat,
    k: int,
)
    requires
        0 <= k < count <= keys.len(),
    ensures
        sync_export::relation_objects(store, said, keys, count) matches Ok(rows) ==> {
            &&& sync_export::relation_object(store, keys[k], said) matches Ok(one)
            &&& one is Some ==> rows.contains(one->0)
        },
    decreases count,
{
    if let Ok(rows) = sync_export::relation_objects(store, said, keys, count) {
        let head = sync_export::relation_objects(store, said, keys, (count - 1) as nat)->Ok_0;
        if k < count - 1 {
            lemma_relations_out(store, said, keys, (count - 1) as nat, k);
            if let Some(one) = sync_export::relation_object(store, keys[k], said)->Ok_0 {
                let n = head.index_of(one);
                assert(rows[n] == one);
            }
        } else if let Some(one) = sync_export::relation_object(store, keys[k], said)->Ok_0 {
            assert(rows[head.len() as int] == one);
        }
    }
}

/// One of the objects is of the kind and goes by the key, and has the payload.
pub open spec fn travels(
    objects: Seq<ObjectRowView>,
    kind: Seq<char>,
    key: Seq<char>,
    payload: JsonView,
) -> bool {
    exists|k: int|
        0 <= k < objects.len() && (#[trigger] objects[k]).kind == kind && objects[k].logical_key
            == key && objects[k].payload_json == json::canonical_text(payload)
}

/// What the export of a store holds, split at the seams between the tables.
proof fn lemma_parts(a: Seq<ObjectRowView>, b: Seq<ObjectRowView>, row: ObjectRowView)
    ensures
        a.contains(row) || b.contains(row) ==> (a + b).contains(row),
{
    if a.contains(row) {
        let n = a.index_of(row);
        assert((a + b)[n] == row);
    }
    if b.contains(row) {
        let n = b.index_of(row);
        assert((a + b)[a.len() + n] == row);
    }
}

proof fn lemma_row_travels(objects: Seq<ObjectRowView>, kind: Seq<char>, key: Seq<char>, payload: JsonView)
    ensures
        objects.contains(sync_state::object_row(kind, key, payload)) ==> travels(
            objects,
            kind,
            key,
            payload,
        ),
{
    let row = sync_state::object_row(kind, key, payload);
    if objects.contains(row) {
        let n = objects.index_of(row);
        assert(objects[n].kind == kind);
    }
}

proof fn lemma_everything(
    store: StoreView,
    said: Map<Seq<char>, Seq<char>>,
    notes: Seq<ObjectRowView>,
    row: ObjectRowView,
)
    ensures
        sync_export::all_objects(store, said, notes) matches Ok(objects) ==> {
            let sources = table::ordered::<i64>(store.sources.dom());
            let slugs = table::ordered::<String>(store.pages.dom());
            let names = table::ordered::<String>(store.tags.dom());
            let jobs = table::ordered::<i64>(store.ingest_jobs.dom());
            let weights = table::ordered::<Triple>(store.weights.dom());
            let feedback = table::ordered::<FeedbackKey>(store.feedback.dom());
            let relations = table::ordered::<String>(store.relations.dom());
            &&& sync_export::source_objects(store, sources, sources.len()) is Ok
            &&& sync_export::page_objects(store, slugs, slugs.len()) is Ok
            &&& sync_export::tag_objects(store, names, names.len()) is Ok
            &&& sync_export::ingest_objects(store, jobs, jobs.len()) is Ok
            &&& sync_export::weight_objects(store, weights, weights.len()) is Ok
            &&& sync_export::feedback_objects(store, feedback, feedback.len()) is Ok
            &&& sync_export::relation_objects(store, said, relations, relations.len()) is Ok
            &&& sync_export::meta_object(store, "schema"@).contains(row) ==> objects.contains(row)
            &&& sync_export::meta_object(store, "purpose"@).contains(row) ==> objects.contains(row)
            &&& sync_export::source_objects(store, sources, sources.len())->Ok_0.contains(row)
                ==> objects.contains(row)
            &&& sync_export::page_objects(store, slugs, slugs.len())->Ok_0.contains(row)
                ==> objects.contains(row)
            &&& sync_export::tag_objects(store, names, names.len())->Ok_0.contains(row)
                ==> objects.contains(row)
            &&& sync_export::ingest_objects(store, jobs, jobs.len())->Ok_0.contains(row)
                ==> objects.contains(row)
            &&& sync_export::weight_objects(store, weights, weights.len())->Ok_0.contains(row)
                ==> objects.contains(row)
            &&& sync_export::feedback_objects(store, feedback, feedback.len())->Ok_0.contains(row)
                ==> objects.contains(row)
            &&& sync_export::relation_objects(
                store,
                said,
                relations,
                relations.len(),
            )->Ok_0.contains(row) ==> objects.contains(row)
            &&& notes.contains(row) ==> objects.contains(row)
        },
{
    if let Ok(objects) = sync_export::all_objects(store, said, notes) {
        let sources = table::ordered::<i64>(store.sources.dom());
        let slugs = table::ordered::<String>(store.pages.dom());
        let names = table::ordered::<String>(store.tags.dom());
        let jobs = table::ordered::<i64>(store.ingest_jobs.dom());
        let weights = table::ordered::<Triple>(store.weights.dom());
        let feedback = table::ordered::<FeedbackKey>(store.feedback.dom());
        let relations = table::ordered::<String>(store.relations.dom());
        let x = sync_export::meta_object(store, "schema"@);
        let y = sync_export::meta_object(store, "purpose"@);
        let a = x + y;
        let s = sync_export::source_objects(store, sources, sources.len())->Ok_0;
        let p = sync_export::page_objects(store, slugs, slugs.len())->Ok_0;
        let t = sync_export::tag_objects(store, names, names.len())->Ok_0;
        let j = sync_export::ingest_objects(store, jobs, jobs.len())->Ok_0;
        let w = sync_export::weight_objects(store, weights, weights.len())->Ok_0;
        let f = sync_export::feedback_objects(store, feedback, feedback.len())->Ok_0;
        let r = sync_export::relation_objects(store, said, relations, relations.len())->Ok_0;
        let d = discussion_store::portable_discussions(store.discussions);
        lemma_parts(x, y, row);
        lemma_parts(a, s, row);
        lemma_parts(a + s, p, row);
        lemma_parts(a + s + p, t, row);
        lemma_parts(a + s + p + t, j, row);
        lemma_parts(a + s + p + t + j, w, row);
        lemma_parts(a + s + p + t + j + w, f, row);
        lemma_parts(a + s + p + t + j + w + f, r, row);
        lemma_parts(a + s + p + t + j + w + f + r, notes, row);
        lemma_parts(a + s + p + t + j + w + f + r + notes, d, row);
        assert(objects == a + s + p + t + j + w + f + r + notes + d);
    }
}

/// Each source of a store travels, under the hash of its content.
pub proof fn law_sources_travel(
    store: StoreView,
    said: Map<Seq<char>, Seq<char>>,
    notes: Seq<ObjectRowView>,
    id: i64,
)
    requires
        store.sources.dom().finite(),
        store.sources.dom().contains(id),
    ensures
        sync_export::all_objects(store, said, notes) matches Ok(objects) ==> travels(
            objects,
            "source"@,
            store.sources[id].content_hash,
            sync_export::source_payload(store.sources[id]),
        ),
{
    if let Ok(objects) = sync_export::all_objects(store, said, notes) {
        table::lemma_has_order::<i64>(store.sources.dom());
        let keys = table::ordered::<i64>(store.sources.dom());
        assert(keys.to_set().contains(id));
        let k = keys.index_of(id);
        lemma_sources_out(store, keys, keys.len(), k);
        let one = sync_export::source_object(store, id)->Ok_0->0;
        lemma_everything(store, said, notes, one);
        lemma_row_travels(objects, "source"@, store.sources[id].content_hash, sync_export::source_payload(store.sources[id]));
    }
}

proof fn lemma_cited(store: StoreView, slug: Seq<char>, ids: Seq<i64>, count: nat)
    requires
        count <= ids.len(),
    ensures
        sync_export::cited_hashes(store, slug, ids, count) is Ok <==> forall|k: int|
            0 <= k < count ==> store.sources.dom().contains(#[trigger] ids[k]),
        sync_export::cited_hashes(store, slug, ids, count) matches Ok(hashes) ==> {
            &&& hashes.len() == count
            &&& forall|k: int|
                0 <= k < count ==> hashes[k] == store.sources[#[trigger] ids[k]].content_hash
        },
        sync_export::cited_hashes(store, slug, ids, count) matches Err(e) ==> e.code
            == ErrorCode::CorruptStore,
    decreases count,
{
    if count > 0 {
        lemma_cited(store, slug, ids, (count - 1) as nat);
        assert(ids[count - 1] == ids[count - 1]);
    }
}

/// Each page of a store travels, under its slug. It cites its sources by their hashes, in the
/// order in which the page cites them; each of them has to be there.
pub proof fn law_pages_travel(
    store: StoreView,
    said: Map<Seq<char>, Seq<char>>,
    notes: Seq<ObjectRowView>,
    slug: Seq<char>,
)
    requires
        store.pages.dom().finite(),
        store.pages.dom().contains(slug),
    ensures
        sync_export::all_objects(store, said, notes) matches Ok(objects) ==> exists|hashes: Seq<Seq<char>>| {
            &&& #[trigger] travels(
                objects,
                "page"@,
                slug,
                sync_export::page_payload(slug, store.pages[slug], hashes),
            )
            &&& hashes.len() == store.pages[slug].source_ids.len()
            &&& forall|k: int|
                0 <= k < hashes.len() ==> store.sources.dom().contains(
                    #[trigger] store.pages[slug].source_ids[k],
                ) && hashes[k] == store.sources[store.pages[slug].source_ids[k]].content_hash
        },
{
    if let Ok(objects) = sync_export::all_objects(store, said, notes) {
        table::lemma_has_order::<String>(store.pages.dom());
        let keys = table::ordered::<String>(store.pages.dom());
        assert(keys.to_set().contains(slug));
        let k = keys.index_of(slug);
        lemma_everything(store, said, notes, sync_export::page_object(store, slug)->Ok_0->0);
        lemma_pages_out(store, keys, keys.len(), k);
        let ids = store.pages[slug].source_ids;
        lemma_cited(store, slug, ids, ids.len());
        let hashes = sync_export::cited_hashes(store, slug, ids, ids.len())->Ok_0;
        lemma_row_travels(objects, "page"@, slug, sync_export::page_payload(slug, store.pages[slug], hashes));
        assert(travels(objects, "page"@, slug, sync_export::page_payload(slug, store.pages[slug], hashes)));
    }
}

/// Each tag of a store travels, under its name, and so do the schema and the purpose of the
/// store, and the notes.
pub proof fn law_tags_and_notes_travel(
    store: StoreView,
    said: Map<Seq<char>, Seq<char>>,
    notes: Seq<ObjectRowView>,
    name: Seq<char>,
    note: ObjectRowView,
)
    requires
        store.tags.dom().finite(),
    ensures
        sync_export::all_objects(store, said, notes) matches Ok(objects) ==> {
            &&& store.tags.dom().contains(name) ==> travels(
                objects,
                "tag"@,
                name,
                sync_export::tag_payload(name, store.tags[name]),
            )
            &&& notes.contains(note) ==> objects.contains(note)
            &&& store.meta.dom().contains("schema"@) ==> travels(
                objects,
                "meta"@,
                "schema"@,
                JsonView::Object(
                    seq![EntryView { key: "value"@, value: JsonView::Text(store.meta["schema"@]) }],
                ),
            )
            &&& store.meta.dom().contains("purpose"@) ==> travels(
                objects,
                "meta"@,
                "purpose"@,
                JsonView::Object(
                    seq![EntryView { key: "value"@, value: JsonView::Text(store.meta["purpose"@]) }],
                ),
            )
        },
{
    if let Ok(objects) = sync_export::all_objects(store, said, notes) {
        if store.tags.dom().contains(name) {
            table::lemma_has_order::<String>(store.tags.dom());
            let keys = table::ordered::<String>(store.tags.dom());
            assert(keys.to_set().contains(name));
            let k = keys.index_of(name);
            lemma_everything(store, said, notes, sync_export::tag_object(store, name)->Ok_0->0);
            lemma_tags_out(store, keys, keys.len(), k);
            lemma_row_travels(objects, "tag"@, name, sync_export::tag_payload(name, store.tags[name]));
        }
        lemma_everything(store, said, notes, note);
        let a = sync_export::meta_object(store, "schema"@);
        let b = sync_export::meta_object(store, "purpose"@);
        if store.meta.dom().contains("schema"@) {
            assert(a.contains(a[0]));
            lemma_everything(store, said, notes, a[0]);
            lemma_row_travels(objects, "meta"@, "schema"@, JsonView::Object(seq![EntryView { key: "value"@, value: JsonView::Text(store.meta["schema"@]) }]));
        }
        if store.meta.dom().contains("purpose"@) {
            assert(b.contains(b[0]));
            lemma_everything(store, said, notes, b[0]);
            lemma_row_travels(objects, "meta"@, "purpose"@, JsonView::Object(seq![EntryView { key: "value"@, value: JsonView::Text(store.meta["purpose"@]) }]));
        }
    }
}

/// An identifier means the same elsewhere unless it is that of a source: a source is known by
/// the hash of its content.
pub proof fn law_identifiers_are_stable(
    store: StoreView,
    target_type: Seq<char>,
    identifier: Seq<char>,
    id: i64,
)
    ensures
        target_type != "source"@ ==> sync_export::stable(store, target_type, identifier) == Some(
            identifier,
        ),
        target_type == "source"@ && text::reads_as_i64(identifier) == Some(id as int) ==> (
        sync_export::stable(store, target_type, identifier) == if store.sources.dom().contains(id) {
            Some(store.sources[id].content_hash)
        } else {
            None
        }),
        target_type == "source"@ && text::reads_as_i64(identifier) is None ==> sync_export::stable(
            store,
            target_type,
            identifier,
        ) is None,
{
}

/// The end of a relation that is a source is known elsewhere by the hash of its content, and
/// has to be there; any other end stays as it is.
pub proof fn law_ends_are_stable(store: StoreView, name: Seq<char>, id: i64)
    ensures
        text::reads_as_i64(name) == Some(id as int) && store.sources.dom().contains(id)
            ==> sync_export::stable_endpoint(store, "source:"@ + name) == Ok::<Seq<char>, AppErrorView>(
            "source-hash:"@ + store.sources[id].content_hash,
        ),
        text::reads_as_i64(name) == Some(id as int) && !store.sources.dom().contains(id) ==> (
        sync_export::stable_endpoint(store, "source:"@ + name) matches Err(e) && e.code
            == ErrorCode::CorruptStore),
        !"source:"@.is_prefix_of(name) ==> sync_export::stable_endpoint(store, name) == Ok::<Seq<char>, AppErrorView>(
            name,
        ),
{
    let end = "source:"@ + name;
    assert("source:"@ =~= end.take("source:"@.len() as int));
    assert(end.skip("source:"@.len() as int) =~= name);
}

/// A weight travels where its target is known elsewhere, under a key that names the kind of
/// the target, the target and where the weight came from. So does feedback, with its question
/// before that.
pub proof fn law_weights_and_feedback_travel(
    store: StoreView,
    said: Map<Seq<char>, Seq<char>>,
    notes: Seq<ObjectRowView>,
    weight: TripleView,
    feedback: FeedbackKeyView,
)
    requires
        store.weights.dom().finite(),
        store.feedback.dom().finite(),
    ensures
        sync_export::all_objects(store, said, notes) matches Ok(objects) ==> {
            &&& store.weights.dom().contains(weight) ==> (sync_export::stable(
                store,
                weight.first,
                weight.second,
            ) matches Some(target) ==> travels(
                objects,
                "retrieval_weight"@,
                weight.first + "\0"@ + target + "\0"@ + weight.third,
                sync_export::weight_payload(weight, store.weights[weight], target),
            ))
            &&& store.feedback.dom().contains(feedback) ==> (sync_export::stable(
                store,
                feedback.target.first,
                feedback.target.second,
            ) matches Some(target) ==> travels(
                objects,
                "retrieval_feedback"@,
                feedback.query + "\0"@ + (feedback.target.first + "\0"@ + target + "\0"@
                    + feedback.target.third),
                sync_export::feedback_payload(feedback, store.feedback[feedback], target),
            ))
        },
{
    if let Ok(objects) = sync_export::all_objects(store, said, notes) {
        if store.weights.dom().contains(weight) {
            table::lemma_has_order::<Triple>(store.weights.dom());
            let keys = table::ordered::<Triple>(store.weights.dom());
            assert(keys.to_set().contains(weight));
            let k = keys.index_of(weight);
            lemma_everything(store, said, notes, sync_export::weight_object(store, weight)->Ok_0->0);
            lemma_weights_out(store, keys, keys.len(), k);
            if let Some(target) = sync_export::stable(store, weight.first, weight.second) {
                lemma_row_travels(
                    objects,
                    "retrieval_weight"@,
                    weight.first + "\0"@ + target + "\0"@ + weight.third,
                    sync_export::weight_payload(weight, store.weights[weight], target),
                );
            }
        }
        if store.feedback.dom().contains(feedback) {
            table::lemma_has_order::<FeedbackKey>(store.feedback.dom());
            let keys = table::ordered::<FeedbackKey>(store.feedback.dom());
            assert(keys.to_set().contains(feedback));
            let k = keys.index_of(feedback);
            lemma_everything(store, said, notes, sync_export::feedback_object(store, feedback)->Ok_0->0);
            lemma_feedback_out(store, keys, keys.len(), k);
            if let Some(target) = sync_export::stable(
                store,
                feedback.target.first,
                feedback.target.second,
            ) {
                lemma_row_travels(
                    objects,
                    "retrieval_feedback"@,
                    feedback.query + "\0"@ + (feedback.target.first + "\0"@ + target + "\0"@
                        + feedback.target.third),
                    sync_export::feedback_payload(feedback, store.feedback[feedback], target),
                );
            }
        }
    }
}

/// An ingest job travels where its source is there, under the hash of the source.
pub proof fn law_jobs_travel(
    store: StoreView,
    said: Map<Seq<char>, Seq<char>>,
    notes: Seq<ObjectRowView>,
    id: i64,
)
    requires
        store.ingest_jobs.dom().finite(),
        store.ingest_jobs.dom().contains(id),
        store.sources.dom().contains(id),
    ensures
        sync_export::all_objects(store, said, notes) matches Ok(objects) ==> travels(
            objects,
            "ingest"@,
            store.sources[id].content_hash,
            sync_export::ingest_payload(store, id, store.sources[id].content_hash),
        ),
{
    if let Ok(objects) = sync_export::all_objects(store, said, notes) {
        table::lemma_has_order::<i64>(store.ingest_jobs.dom());
        let keys = table::ordered::<i64>(store.ingest_jobs.dom());
        assert(keys.to_set().contains(id));
        let k = keys.index_of(id);
        lemma_everything(store, said, notes, sync_export::ingest_object(store, id)->Ok_0->0);
        lemma_jobs_out(store, keys, keys.len(), k);
        lemma_row_travels(
            objects,
            "ingest"@,
            store.sources[id].content_hash,
            sync_export::ingest_payload(store, id, store.sources[id].content_hash),
        );
    }
}

/// The sources that a relation rests on are known elsewhere by the hashes of their contents:
/// those that are there, and no others.
pub proof fn law_known_sources(store: StoreView, ids: Seq<i64>, count: nat, hash: Seq<char>)
    requires
        count <= ids.len(),
    ensures
        sync_export::known_hashes(store, ids, count).contains(hash) <==> exists|k: int|
            0 <= k < count && store.sources.dom().contains(#[trigger] ids[k])
                && store.sources[ids[k]].content_hash == hash,
    decreases count,
{
    if count > 0 {
        law_known_sources(store, ids, (count - 1) as nat, hash);
        let head = sync_export::known_hashes(store, ids, (count - 1) as nat);
        let all = sync_export::known_hashes(store, ids, count);
        let last = ids[count - 1];
        if head.contains(hash) {
            let n = head.index_of(hash);
            assert(all[n] == hash);
        }
        if store.sources.dom().contains(last) {
            assert(all[head.len() as int] == store.sources[last].content_hash);
            if all.contains(hash) && !head.contains(hash) {
                let n = all.index_of(hash);
                if n < head.len() {
                    assert(head[n] == hash);
                }
            }
        }
    }
}

/// Each relation of a store travels, under its identifier, with its ends as they are known
/// elsewhere.
pub proof fn law_relations_travel(
    store: StoreView,
    said: Map<Seq<char>, Seq<char>>,
    notes: Seq<ObjectRowView>,
    id: Seq<char>,
)
    requires
        store.relations.dom().finite(),
        store.relations.dom().contains(id),
    ensures
        sync_export::all_objects(store, said, notes) matches Ok(objects) ==> {
            let row = store.relations[id];
            &&& sync_export::stable_endpoint(store, row.from_identifier) matches Ok(from)
            &&& sync_export::stable_endpoint(store, row.to_identifier) matches Ok(to)
            &&& travels(
                objects,
                "semantic_relation"@,
                id,
                sync_export::relation_payload(
                    id,
                    row,
                    from,
                    to,
                    sync_export::known_hashes(store, row.source_ids, row.source_ids.len()),
                    if said.dom().contains(id) {
                        Some(said[id])
                    } else {
                        None
                    },
                ),
            )
        },
{
    if let Ok(objects) = sync_export::all_objects(store, said, notes) {
        table::lemma_has_order::<String>(store.relations.dom());
        let keys = table::ordered::<String>(store.relations.dom());
        assert(keys.to_set().contains(id));
        let k = keys.index_of(id);
        let row = store.relations[id];
        lemma_everything(store, said, notes, sync_export::relation_object(store, id, said)->Ok_0->0);
        lemma_relations_out(store, said, keys, keys.len(), k);
        lemma_row_travels(
            objects,
            "semantic_relation"@,
            id,
            sync_export::relation_payload(
                id,
                row,
                sync_export::stable_endpoint(store, row.from_identifier)->Ok_0,
                sync_export::stable_endpoint(store, row.to_identifier)->Ok_0,
                sync_export::known_hashes(store, row.source_ids, row.source_ids.len()),
                if said.dom().contains(id) {
                    Some(said[id])
                } else {
                    None
                },
            ),
        );
    }
}

proof fn lemma_blobs(store: StoreView, ids: Seq<i64>, count: nat)
    requires
        count <= ids.len(),
        forall|k: int| 0 <= k < ids.len() ==> store.sources.dom().contains(#[trigger] ids[k]),
    ensures
        forall|k: int|
            0 <= k < count ==> sync_export::source_blobs(store, ids, count).dom().contains(
                store.sources[#[trigger] ids[k]].content_hash,
            ),
        forall|hash: Seq<char>| #[trigger]
            sync_export::source_blobs(store, ids, count).dom().contains(hash) ==> exists|id: i64| #[trigger]
                store.sources.dom().contains(id) && store.sources[id].content_hash == hash
                    && sync_export::source_blobs(store, ids, count)[hash] == utf8::encode_utf8(
                    store.sources[id].content,
                ),
    decreases count,
{
    if count > 0 {
        lemma_blobs(store, ids, (count - 1) as nat);
        let last = ids[count - 1];
        let head = sync_export::source_blobs(store, ids, (count - 1) as nat);
        let all = sync_export::source_blobs(store, ids, count);
        assert(store.sources.dom().contains(last));
        assert forall|hash: Seq<char>| #[trigger] all.dom().contains(hash) implies exists|id: i64| #[trigger]
            store.sources.dom().contains(id) && store.sources[id].content_hash == hash && all[hash]
                == utf8::encode_utf8(store.sources[id].content) by {
            if hash != store.sources[last].content_hash {
                assert(head.dom().contains(hash));
            }
        }
    }
}

/// The content of each source travels, under its hash, and nothing else does.
pub proof fn law_contents_travel(
    store: StoreView,
    said: Map<Seq<char>, Seq<char>>,
    notes: Seq<ObjectRowView>,
    id: i64,
    hash: Seq<char>,
)
    requires
        store.sources.dom().finite(),
    ensures
        sync_export::exported_state(store, said, notes) matches Ok(state) ==> {
            &&& store.sources.dom().contains(id) ==> state.blobs.dom().contains(
                store.sources[id].content_hash,
            )
            &&& state.blobs.dom().contains(hash) ==> exists|one: i64| #[trigger]
                store.sources.dom().contains(one) && store.sources[one].content_hash == hash
                    && state.blobs[hash] == utf8::encode_utf8(store.sources[one].content)
        },
{
    table::lemma_has_order::<i64>(store.sources.dom());
    let ids = table::ordered::<i64>(store.sources.dom());
    assert forall|k: int| 0 <= k < ids.len() implies store.sources.dom().contains(
        #[trigger] ids[k],
    ) by {
        assert(ids.to_set().contains(ids[k]));
    }
    lemma_blobs(store, ids, ids.len());
    if store.sources.dom().contains(id) {
        assert(ids.to_set().contains(id));
        let k = ids.index_of(id);
        assert(ids[k] == id);
    }
}

proof fn lemma_row_hashes(rows: Seq<ObjectRowView>, count: nat)
    requires
        count <= rows.len(),
    ensures
        sync_export::row_hashes(rows, count) matches Ok(hashes) ==> {
            &&& forall|k: int|
                0 <= k < count ==> {
                    let at = PairView {
                        first: (#[trigger] rows[k]).kind,
                        second: rows[k].logical_key,
                    };
                    hashes.dom().contains(at) && hashes[at] == rows[k].payload_hash
                }
            &&& forall|i: int, j: int|
                0 <= i < j < count ==> (#[trigger] rows[i]).kind != (#[trigger] rows[j]).kind
                    || rows[i].logical_key != rows[j].logical_key
        },
    decreases count,
{
    if count > 0 {
        lemma_row_hashes(rows, (count - 1) as nat);
    }
}

/// No two objects that travel are of the same kind and go by the same key, and each is known
/// by the digest of its payload.
pub proof fn law_objects_are_told_apart(rows: Seq<ObjectRowView>, i: int, j: int)
    requires
        0 <= i < rows.len(),
        0 <= j < rows.len(),
        i != j,
    ensures
        sync_export::row_hashes(rows, rows.len()) matches Ok(hashes) ==> {
            let at = PairView { first: rows[i].kind, second: rows[i].logical_key };
            &&& hashes.dom().contains(at)
            &&& hashes[at] == rows[i].payload_hash
            &&& rows[i].kind != rows[j].kind || rows[i].logical_key != rows[j].logical_key
        },
{
    lemma_row_hashes(rows, rows.len());
}

proof fn lemma_lookup_push(entries: Seq<EntryView>, one: EntryView, key: Seq<char>)
    ensures
        json::lookup(entries.push(one), key) == (if json::lookup(entries, key) is Some {
            json::lookup(entries, key)
        } else if one.key == key {
            Some(one.value)
        } else {
            None
        }),
    decreases entries.len(),
{
    reveal_with_fuel(json::lookup, 2);
    if entries.len() > 0 {
        assert(entries.push(one)[0] == entries[0]);
        assert(entries.push(one).drop_first() =~= entries.drop_first().push(one));
        lemma_lookup_push(entries.drop_first(), one, key);
    } else {
        assert(entries.push(one).drop_first() =~= Seq::empty());
    }
}

/// What is left out of an object is not there, and all else is as it was.
pub proof fn law_fields_are_left_out(
    entries: Seq<EntryView>,
    keys: Seq<Seq<char>>,
    key: Seq<char>,
)
    ensures
        keys.contains(key) ==> json::lookup(sync_export::stripped(entries, keys), key) is None,
        !keys.contains(key) ==> json::lookup(sync_export::stripped(entries, keys), key)
            == json::lookup(entries, key),
    decreases entries.len(),
{
    if entries.len() > 0 {
        let head = entries.drop_last();
        law_fields_are_left_out(head, keys, key);
        assert(entries =~= head.push(entries.last()));
        lemma_lookup_push(head, entries.last(), key);
        lemma_lookup_push(sync_export::stripped(head, keys), entries.last(), key);
    }
}

/// A memory travels with its feedback and without the request that made it; all else that it
/// says stays.
pub proof fn law_memory_is_portable(
    event: Seq<EntryView>,
    feedback: Seq<JsonView>,
    key: Seq<char>,
)
    ensures
        sync_export::portable_event(event, feedback).get("request_id"@) is None,
        sync_export::portable_event(event, feedback).array_at("feedback"@) == Some(feedback),
        key != "request_id"@ && key != "feedback"@ ==> sync_export::portable_event(
            event,
            feedback,
        ).get(key) == json::lookup(event, key),
{
    let own = seq!["request_id"@];
    assert(own.contains(own[0]));
    law_fields_are_left_out(event, own, key);
    law_fields_are_left_out(event, own, "request_id"@);
    json::lemma_with_entry(
        sync_export::stripped(event, own),
        "feedback"@,
        JsonView::Array(feedback),
    );
    reveal_strlit("request_id");
    reveal_strlit("feedback");
    assert("request_id"@.len() == 10 && "feedback"@.len() == 8);
}

/// A plan travels with its history, and without its request, its scope and its revision; all
/// else but its steps stays.
pub proof fn law_plan_is_portable(
    plan: Seq<EntryView>,
    history: Seq<PlanEventView>,
    key: Seq<char>,
)
    ensures
        sync_export::plan_payload(plan, history) matches Ok(sent) ==> {
            &&& sent.get("request_id"@) is None
            &&& sent.get("scope"@) is None
            &&& sent.get("revision"@) is None
            &&& sent.array_at("history"@) matches Some(events) && events.len() == history.len()
            &&& key != "request_id"@ && key != "scope"@ && key != "revision"@ && key != "steps"@
                && key != "history"@ ==> sent.get(key) == json::lookup(plan, key)
        },
{
    reveal_strlit("request_id");
    reveal_strlit("scope");
    reveal_strlit("revision");
    reveal_strlit("steps");
    reveal_strlit("history");
    assert("request_id"@.len() == 10 && "scope"@.len() == 5 && "revision"@.len() == 8
        && "steps"@.len() == 5 && "history"@.len() == 7);
    assert("scope"@[1] == 'c' && "steps"@[1] == 't');
    let local = seq!["request_id"@, "scope"@, "revision"@];
    assert(local.contains(local[0]) && local.contains(local[1]) && local.contains(local[2]));
    let own = sync_export::stripped(plan, local);
    law_fields_are_left_out(plan, local, "request_id"@);
    law_fields_are_left_out(plan, local, "scope"@);
    law_fields_are_left_out(plan, local, "revision"@);
    law_fields_are_left_out(plan, local, key);
    let events = sync_export::plan_events(history);
    json::lemma_with_entry(own, "history"@, events);
    if let Some(JsonView::Array(steps)) = json::lookup(own, "steps"@) {
        if let Ok(kept) = sync_export::plan_steps(steps, steps.len()) {
            json::lemma_with_entry(own, "steps"@, JsonView::Array(kept));
            json::lemma_with_entry(
                json::with_entry(own, "steps"@, JsonView::Array(kept)),
                "history"@,
                events,
            );
        }
    }
}

} // verus!
