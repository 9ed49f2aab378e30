//! Relations, the words of a search, and the replay of what another store did.
use crate::changeset_log;
use crate::detached::SourceIntentView;
use crate::digest;
use crate::error::AppErrorView;
use crate::json;
use crate::json::JsonView;
use crate::laws;
use crate::pages;
use crate::refusals;
use crate::relations;
use crate::relations::{RelationKey, RelationKeyView, StatementView};
use crate::replay;
use crate::rows::{OperationView, RelationView};
use crate::search_text;
use crate::search_text::FieldMatch;
use crate::span_hits;
use crate::spans;
use crate::store;
use crate::store::StoreView;
use crate::sync_file::FileShape;
use crate::table;
use crate::text;
use vstd::prelude::*;

verus! {

// ---------------------------------------------------------------------------
// Nodes and relations
// ---------------------------------------------------------------------------

/// What a node is called: `page:` and a slug, `source:` and a number, or the identifier of a
/// span that is in use. A name without a colon is that of a page.
pub proof fn law_nodes_are_named(store: StoreView, name: Seq<char>, id: i64)
    ensures
        relations::node_exists(store, "page:"@ + name) <==> store.pages.dom().contains(name),
        store.sources.dom().contains(id) ==> relations::node_exists(
            store,
            "source:"@ + text::decimal(id as int),
        ),
        relations::node_exists(store, "source:"@ + name) <==> exists|other: i64| #[trigger]
            store.sources.dom().contains(other) && text::decimal(other as int) == name,
        "span:"@.is_prefix_of(name) ==> (relations::node_exists(store, name) <==> spans::in_use(
            store.spans,
            name,
        )),
        !name.contains(':') ==> relations::node_candidate(name) == "page:"@ + name,
        name.contains(':') ==> relations::node_candidate(name) == name,
        relations::resolved(store, name) matches Ok(node) ==> {
            &&& text::trimmed(name).len() > 0
            &&& node == relations::node_candidate(text::trimmed(name))
            &&& relations::node_exists(store, node)
        },
        text::trimmed(name).len() > 0 && relations::node_exists(
            store,
            relations::node_candidate(text::trimmed(name)),
        ) ==> relations::resolved(store, name) is Ok,
{
    reveal_strlit("page:");
    reveal_strlit("source:");
    reveal_strlit("span:");
    let page = "page:"@;
    let source = "source:"@;
    let span = "span:"@;
    assert(page.len() == 5 && page[0] == 'p');
    assert(source.len() == 7 && source[0] == 's' && source[1] == 'o');
    assert(span.len() == 5 && span[0] == 's' && span[1] == 'p');
    assert(page.is_prefix_of(page + name));
    assert((page + name).skip(5) =~= name);
    assert(source.is_prefix_of(source + name));
    assert((source + name)[0] == 's');
    assert((source + name).skip(7) =~= name);
    assert(!page.is_prefix_of(source + name)) by {
        if page.is_prefix_of(source + name) {
            assert((source + name).take(5)[0] == 'p');
        }
    }
    let number = source + text::decimal(id as int);
    assert(source.is_prefix_of(number));
    assert(number[0] == 's');
    assert(number.skip(7) =~= text::decimal(id as int));
    assert(!page.is_prefix_of(number)) by {
        if page.is_prefix_of(number) {
            assert(number.take(5)[0] == 'p');
        }
    }
    if span.is_prefix_of(name) {
        assert(name.take(5)[0] == 's' && name.take(5)[1] == 'p');
        assert(!page.is_prefix_of(name)) by {
            if page.is_prefix_of(name) {
                assert(name.take(5)[0] == 'p');
            }
        }
        assert(!source.is_prefix_of(name)) by {
            if source.is_prefix_of(name) {
                assert(name.take(7)[1] == 'o');
            }
        }
    }
}

/// A relation that is stated stands in the store as it was stated, between two different nodes
/// that are there, of one of six types, with a reason, and grounded in sources that are there
/// where it says that it is. It keeps when it was first stated; the other relations stay.
pub proof fn law_relation_is_stated(
    store: StoreView,
    s: StatementView,
    now: Seq<char>,
    revision: Seq<char>,
)
    ensures
        relations::stated(store, s, now, revision) matches Ok(done) ==> {
            let from = relations::resolved(store, s.from)->Ok_0;
            let to = relations::resolved(store, s.to)->Ok_0;
            let id = relations::relation_id(s.relation_type, from, to);
            let row = done.store.relations[id];
            &&& relations::resolved(store, s.from) is Ok
            &&& relations::resolved(store, s.to) is Ok
            &&& from != to
            &&& s.relation_type == "SUPPORTS"@ || s.relation_type == "CONTRADICTS"@
                || s.relation_type == "REFINES"@ || s.relation_type == "SUPERSEDES"@
                || s.relation_type == "CAUSES"@ || s.relation_type == "DEPENDS_ON"@
            &&& s.provenance == "source-grounded"@ || s.provenance == "user-provided"@
                || s.provenance == "agent-observed"@ || s.provenance == "hypothesis"@
            &&& s.provenance == "source-grounded"@ ==> s.source_ids.len() > 0
            &&& text::trimmed(s.reason).len() > 0
            &&& done.store.relations.dom() == store.relations.dom().insert(id)
            &&& forall|other: Seq<char>|
                other != id && #[trigger] store.relations.dom().contains(other)
                    ==> done.store.relations[other] == store.relations[other]
            &&& row.provenance == s.provenance
            &&& row.reason == Some(text::trimmed(s.reason))
            &&& row.confidence == Some(s.confidence.bits)
            &&& row.source_ids.to_set() == s.source_ids.to_set()
            &&& row.updated_at == now
            &&& store.relations.dom().contains(id) ==> row.created_at
                == store.relations[id].created_at
            &&& !store.relations.dom().contains(id) ==> {
                &&& row.relation_type == s.relation_type
                &&& row.from_identifier == from
                &&& row.to_identifier == to
                &&& row.created_at == now
            }
            &&& forall|k: int|
                0 <= k < s.source_ids.len() ==> store.sources.dom().contains(
                    #[trigger] s.source_ids[k],
                )
            &&& done.store.pages == store.pages
            &&& done.store.sources == store.sources
            &&& done.store.operations.last().action == "graph_relation_set"@
            &&& done.store.operations.last().target == id
        },
{
    if let Ok(done) = relations::stated(store, s, now, revision) {
        let from = relations::resolved(store, s.from)->Ok_0;
        let to = relations::resolved(store, s.to)->Ok_0;
        let id = relations::relation_id(s.relation_type, from, to);
        assert(done.store.relations.dom() =~= store.relations.dom().insert(id));
        refusals::lemma_distinct(s.source_ids);
        let ids = pages::distinct(s.source_ids);
        lemma_all_there(store, ids);
        assert forall|k: int| 0 <= k < s.source_ids.len() implies store.sources.dom().contains(
            #[trigger] s.source_ids[k],
        ) by {
            assert(s.source_ids.to_set().contains(s.source_ids[k]));
            assert(ids.to_set().contains(s.source_ids[k]));
            assert(ids.contains(s.source_ids[k]));
        }
        if s.provenance == "source-grounded"@ {
            assert(ids.len() > 0);
            assert(ids.to_set().contains(ids[0]));
            assert(s.source_ids.to_set().contains(ids[0]));
        }
    }
}

proof fn lemma_all_there(store: StoreView, ids: Seq<i64>)
    requires
        pages::first_missing(store, ids) is None,
    ensures
        forall|id: i64| #[trigger] ids.contains(id) ==> store.sources.dom().contains(id),
    decreases ids.len(),
{
    if ids.len() > 0 {
        let rest = ids.drop_first();
        lemma_all_there(store, rest);
        assert forall|id: i64| #[trigger] ids.contains(id) implies store.sources.dom().contains(
            id,
        ) by {
            let k = ids.index_of(id);
            if k > 0 {
                assert(rest[k - 1] == id);
                assert(rest.contains(id));
            }
        }
    }
}

/// A relation fits what is asked for.
pub open spec fn fits(
    row: RelationView,
    from: Option<Seq<char>>,
    to: Option<Seq<char>>,
    relation_type: Option<Seq<char>>,
) -> bool {
    &&& from matches Some(node) ==> row.from_identifier == node
    &&& to matches Some(node) ==> row.to_identifier == node
    &&& relation_type matches Some(name) ==> row.relation_type == name
}

/// A list of relations holds each that fits, as it is, once, and no other.
pub proof fn law_relations_are_listed(
    store: StoreView,
    from: Option<Seq<char>>,
    to: Option<Seq<char>>,
    relation_type: Option<Seq<char>>,
)
    requires
        store.relations.dom().finite(),
    ensures
        ({
            let list = relations::relations_listed(store, from, to, relation_type);
            &&& forall|k: int|
                0 <= k < list.len() ==> {
                    let one = #[trigger] list[k];
                    let row = store.relations[one.identifier];
                    &&& store.relations.dom().contains(one.identifier)
                    &&& fits(row, from, to, relation_type)
                    &&& one.relation_type == row.relation_type
                    &&& one.from == row.from_identifier
                    &&& one.to == row.to_identifier
                    &&& one.confidence == row.confidence
                    &&& one.provenance == row.provenance
                    &&& one.reason == row.reason
                    &&& one.source_ids == row.source_ids
                }
            &&& forall|id: Seq<char>| #[trigger]
                store.relations.dom().contains(id) && fits(
                    store.relations[id],
                    from,
                    to,
                    relation_type,
                ) ==> exists|k: int| 0 <= k < list.len() && (#[trigger] list[k]).identifier == id
        }),
{
    let keys = relations::wanted_keys(store.relations, from, to, relation_type);
    lemma_keys_finite(store.relations, keys);
    table::lemma_has_order::<RelationKey>(keys);
    let order = table::ordered::<RelationKey>(keys);
    let list = relations::relations_listed(store, from, to, relation_type);
    assert forall|k: int| 0 <= k < list.len() implies {
        let one = #[trigger] list[k];
        let row = store.relations[one.identifier];
        &&& store.relations.dom().contains(one.identifier)
        &&& fits(row, from, to, relation_type)
        &&& one.relation_type == row.relation_type
        &&& one.from == row.from_identifier
        &&& one.to == row.to_identifier
        &&& one.confidence == row.confidence
        &&& one.provenance == row.provenance
        &&& one.reason == row.reason
        &&& one.source_ids == row.source_ids
    } by {
        assert(order.to_set().contains(order[k]));
        assert(keys.contains(order[k]));
    }
    assert forall|id: Seq<char>| #[trigger]
        store.relations.dom().contains(id) && fits(
            store.relations[id],
            from,
            to,
            relation_type,
        ) implies exists|k: int| 0 <= k < list.len() && (#[trigger] list[k]).identifier == id by {
        let key = relations::relation_key(id, store.relations[id]);
        assert(keys.contains(key));
        assert(order.to_set().contains(key));
        let k = order.index_of(key);
        assert(list[k].identifier == id);
    }
}

proof fn lemma_keys_finite(rows: Map<Seq<char>, RelationView>, keys: Set<RelationKeyView>)
    requires
        rows.dom().finite(),
        forall|key: RelationKeyView| #[trigger]
            keys.contains(key) ==> rows.dom().contains(key.rest.third) && key
                == relations::relation_key(key.rest.third, rows[key.rest.third]),
    ensures
        keys.finite(),
{
    let all = rows.dom().map(|id: Seq<char>| relations::relation_key(id, rows[id]));
    rows.dom().lemma_map_finite(|id: Seq<char>| relations::relation_key(id, rows[id]));
    assert forall|key: RelationKeyView| #[trigger] keys.contains(key) implies all.contains(
        key,
    ) by {
        let id = key.rest.third;
        assert(rows.dom().contains(id));
    }
    vstd::set_lib::lemma_set_subset_finite(all, keys);
}

/// A relation that is taken back is gone, and nothing else is; a reason is asked for.
pub proof fn law_relation_is_retracted(
    store: StoreView,
    from: Seq<char>,
    relation_type: Seq<char>,
    to: Seq<char>,
    reason: Seq<char>,
    now: Seq<char>,
    revision: Seq<char>,
)
    ensures
        relations::retracted(store, from, relation_type, to, reason, now, revision) matches Ok(done)
            ==> {
            &&& text::trimmed(reason).len() > 0
            &&& store.relations.dom().contains(done.identifier)
            &&& done.store.relations == store.relations.remove(done.identifier)
            &&& done.store.pages == store.pages
            &&& done.store.sources == store.sources
            &&& done.store.operations.last().action == "graph_relation_retract"@
            &&& done.store.operations.last().target == done.identifier
        },
{
}

/// Upper case of ASCII letters: a small letter becomes its capital, and all else stays.
pub proof fn law_letters_are_raised(c: char)
    ensures
        'a' <= c <= 'z' ==> relations::ascii_upper(c) as u32 == c as u32 - 32,
        !('a' <= c <= 'z') ==> relations::ascii_upper(c) == c,
        relations::ascii_upper(relations::ascii_upper(c)) == relations::ascii_upper(c),
{
}

/// A confidence is a number from 0 to 1: 1 is one, what is above it is none, and what is below
/// a confidence is one.
pub proof fn law_confidence_is_bounded(a: u64, b: u64)
    ensures
        relations::is_confidence(0),
        relations::is_confidence(0x3ff0_0000_0000_0000),
        !relations::is_confidence(0x3ff0_0000_0000_0001),
        a <= b < 0x8000_0000_0000_0000 && relations::is_confidence(b)
            ==> relations::is_confidence(a),
        a > 0x8000_0000_0000_0000 ==> !relations::is_confidence(a),
{
}

/// The neighbours are the first nodes that are one step away, as many as are asked for, and
/// where there are fewer all of them.
pub proof fn law_neighbors_are_complete(nodes: Seq<JsonView>, limit: nat)
    ensures
        ({
            let one_step = nodes.filter(|node: JsonView| node.at("depth"@) == JsonView::Int(1));
            let found = relations::near(nodes, limit, nodes.len());
            &&& found.len() <= limit
            &&& found.len() <= one_step.len()
            &&& found.len() == limit || found.len() == one_step.len()
            &&& found == one_step.take(found.len() as int)
        }),
{
    lemma_near(nodes, limit, nodes.len());
    assert(nodes.take(nodes.len() as int) =~= nodes);
}

proof fn lemma_near(nodes: Seq<JsonView>, limit: nat, count: nat)
    requires
        count <= nodes.len(),
    ensures
        ({
            let one_step = nodes.take(count as int).filter(
                |node: JsonView| node.at("depth"@) == JsonView::Int(1),
            );
            let found = relations::near(nodes, limit, count);
            &&& found.len() <= limit
            &&& found.len() <= one_step.len()
            &&& found.len() == limit || found.len() == one_step.len()
            &&& found == one_step.take(found.len() as int)
        }),
    decreases count,
{
    reveal(Seq::filter);
    let part = nodes.take(count as int);
    let f = |node: JsonView| node.at("depth"@) == JsonView::Int(1);
    if count > 0 {
        lemma_near(nodes, limit, (count - 1) as nat);
        assert(part.drop_last() =~= nodes.take(count - 1));
        assert(part.last() == nodes[count - 1]);
        let before = nodes.take(count - 1).filter(f);
        let after = part.filter(f);
        let found = relations::near(nodes, limit, (count - 1) as nat);
        let more = relations::near(nodes, limit, count);
        if f(nodes[count - 1]) {
            assert(after == before.push(nodes[count - 1]));
        } else {
            assert(after == before);
        }
        assert(more =~= after.take(more.len() as int));
    } else {
        assert(part =~= Seq::empty());
        assert(part.filter(f).take(0) =~= Seq::empty());
    }
}

// ---------------------------------------------------------------------------
// Words
// ---------------------------------------------------------------------------

/// A text is compared by its words alone: the characters of words stay in their order, and
/// between two words stands one space.
pub proof fn law_words_are_compared(s: Seq<char>)
    ensures
        ({
            let plain = search_text::spaced(s);
            let word = |c: char| search_text::is_word_char(c);
            &&& forall|k: int|
                0 <= k < plain.len() ==> #[trigger] plain[k] == ' ' || search_text::is_word_char(
                    plain[k],
                )
            &&& !search_text::is_word_char(' ') ==> plain.filter(word) == s.filter(word)
            &&& plain.len() > 0 ==> plain[0] != ' ' || search_text::is_word_char(' ')
            &&& forall|k: int|
                0 < k < plain.len() && plain[k] == ' ' && plain[k - 1] == ' '
                    ==> search_text::is_word_char(#[trigger] plain[k])
        }),
    decreases s.len(),
{
    reveal(Seq::filter);
    let word = |c: char| search_text::is_word_char(c);
    if s.len() > 0 {
        law_words_are_compared(s.drop_last());
        let head = search_text::spaced(s.drop_last());
        let plain = search_text::spaced(s);
        if plain.len() > head.len() {
            assert(plain.drop_last() =~= head);
        }
    } else {
        assert(s.filter(word) =~= Seq::<char>::empty());
    }
}

/// Words count once each: as many as the field has of those that are asked for.
pub proof fn law_terms_are_counted(terms: Seq<Seq<char>>, field_terms: Seq<Seq<char>>, count: nat)
    requires
        count <= terms.len(),
    ensures
        search_text::matched_terms(terms, field_terms, count) == terms.take(count as int).filter(
            |term: Seq<char>| field_terms.contains(term),
        ).len(),
    decreases count,
{
    reveal(Seq::filter);
    let part = terms.take(count as int);
    if count > 0 {
        law_terms_are_counted(terms, field_terms, (count - 1) as nat);
        assert(part.drop_last() =~= terms.take(count - 1));
        assert(part.last() == terms[count - 1]);
    } else {
        assert(part =~= Seq::empty());
    }
}

/// A field that says the same as the query fits wholly; one that holds a query of several words
/// fits as a phrase; any other fits by the words that it has. A field that says nothing fits
/// nothing. The whole counts more than a phrase, and a phrase more than none.
pub proof fn law_fields_fit(
    field: Seq<char>,
    query: Seq<char>,
    terms: Seq<Seq<char>>,
    field_terms: Seq<Seq<char>>,
)
    requires
        terms.len() <= usize::MAX,
    ensures
        ({
            let fit = search_text::field_fits(field, query, terms, field_terms);
            let said = search_text::normalized(field);
            let asked = search_text::normalized(query);
            let idle = text::is_blank(field) || terms.len() == 0;
            &&& fit is Nothing <==> idle
            &&& fit is Whole <==> !idle && asked.len() > 0 && said == asked
            &&& fit is Phrase <==> !idle && asked.len() > 0 && said != asked && terms.len() > 1
                && text::holds_text(said, asked)
            &&& fit is Terms ==> fit->of == terms.len() && fit->matched == terms.filter(
                |term: Seq<char>| field_terms.contains(term),
            ).len()
        }),
        search_text::share(FieldMatch::Whole).0 == search_text::share(FieldMatch::Whole).1,
        search_text::share(FieldMatch::Nothing).0 == 0,
        search_text::counts_at_least(FieldMatch::Whole, FieldMatch::Phrase),
        !search_text::counts_at_least(FieldMatch::Phrase, FieldMatch::Whole),
        search_text::counts_at_least(FieldMatch::Phrase, FieldMatch::Nothing),
        !search_text::counts_at_least(FieldMatch::Nothing, FieldMatch::Phrase),
        forall|n: usize, m: usize, of: usize|
            #![trigger search_text::share(FieldMatch::Terms { matched: n, of }), search_text::share(FieldMatch::Terms { matched: m, of })]
            search_text::share(FieldMatch::Terms { matched: n, of }).1 == search_text::share(
                FieldMatch::Terms { matched: m, of },
            ).1 && (n < m ==> search_text::share(FieldMatch::Terms { matched: n, of }).0
                < search_text::share(FieldMatch::Terms { matched: m, of }).0),
{
    law_terms_are_counted(terms, field_terms, terms.len());
    assert(terms.take(terms.len() as int) =~= terms);
    lemma_filter_len(terms, |term: Seq<char>| field_terms.contains(term));
}

proof fn lemma_filter_len(list: Seq<Seq<char>>, keep: spec_fn(Seq<char>) -> bool)
    ensures
        list.filter(keep).len() <= list.len(),
    decreases list.len(),
{
    reveal(Seq::filter);
    if list.len() > 0 {
        lemma_filter_len(list.drop_last(), keep);
    }
}

/// A document is taken for one that only leads to others by what it is or is called, unless the
/// query asks for such a one.
pub proof fn law_leading_documents(
    title: Seq<char>,
    path: Seq<char>,
    query: Seq<char>,
    structural_navigation: bool,
)
    ensures
        search_text::is_marked(search_text::normalized(query)) ==> !search_text::is_generic(
            title,
            path,
            query,
            structural_navigation,
        ),
        !search_text::is_marked(search_text::normalized(query)) && structural_navigation
            ==> search_text::is_generic(title, path, query, structural_navigation),
        !search_text::is_marked(search_text::normalized(query)) && !structural_navigation ==> (
        search_text::is_generic(title, path, query, structural_navigation)
            <==> search_text::is_marked(
            search_text::normalized(title) + " "@ + search_text::normalized(path),
        )),
        text::holds_text(query, "readme"@) || text::holds_text(query, "index"@) || text::holds_text(
            query,
            "summary"@,
        ) || text::holds_text(query, "toc"@) || text::holds_text(query, "overview"@)
            ==> search_text::is_marked(query),
{
    let list = search_text::markers();
    assert(list[0] == "readme"@ && list[1] == "index"@ && list[2] == "summary"@ && list[3]
        == "toc"@ && list[4] == "overview"@);
}

/// What is found of a span: its document, its place, the text that stands there, and the title
/// of the document. A span that is not in use is not found.
pub proof fn law_span_is_found(store: StoreView, id: Seq<char>)
    ensures
        !(store.spans.dom().contains(id) && store.spans[id].active) ==> span_hits::hit_goal(
            store,
            id,
        ) == Ok::<Option<span_hits::SpanHitView>, AppErrorView>(None),
        span_hits::hit_goal(store, id) matches Ok(Some(found)) ==> {
            let span = store.spans[id];
            let hit = found.hit;
            &&& store.spans.dom().contains(id)
            &&& span.active
            &&& hit.identifier == id
            &&& hit.result_type == span.span_type
            &&& hit.document matches Some(document)
            &&& document.document_type == span.document_type
            &&& document.identifier == span.document_identifier
            &&& hit.span matches Some(place)
            &&& place.parent_identifier == span.parent_identifier
            &&& place.content_fingerprint == span.content_fingerprint
            &&& place.segmenter_version == span.segmenter_version
            &&& span.document_type == "page"@ ==> {
                let page = store.pages[span.document_identifier];
                &&& store.pages.dom().contains(span.document_identifier)
                &&& hit.title == Some(page.title)
                &&& hit.kind == page.kind
                &&& hit.summary == page.summary
                &&& found.path == span.document_identifier
                &&& found.structural_navigation == page.structural_navigation
                &&& spans::text_between(
                    page.body,
                    (span.byte_start as usize) as int,
                    (span.byte_end as usize) as int,
                ) matches Some(said) ==> hit.snippet == said
            }
            &&& span.document_type != "page"@ ==> {
                let source = store.sources[text::reads_as_i64(
                    span.document_identifier,
                )->0 as i64];
                &&& span.document_type == "source"@
                &&& hit.title == source.title
                &&& hit.kind is None
                &&& hit.summary is None
                &&& found.path == source.origin
                &&& found.structural_navigation == source.structural_navigation
                &&& spans::text_between(
                    source.content,
                    (span.byte_start as usize) as int,
                    (span.byte_end as usize) as int,
                ) matches Some(said) ==> hit.snippet == said
            }
        },
{
}

// ---------------------------------------------------------------------------
// Replays
// ---------------------------------------------------------------------------

/// The key of an item is its kind and its identifier with a NUL between them, and its kind has
/// no NUL.
pub proof fn law_item_key_has_two_parts(key: Seq<char>)
    ensures
        replay::is_item_key(key) ==> {
            let kind = replay::item_kind(key);
            &&& kind + seq!['\0'] + replay::item_identifier(key) == key
            &&& kind == "source"@ || kind == "page"@ || kind == "meta"@ || kind == "tag"@ || kind
                == "ingest"@
            &&& text::byte_count(key) <= 512
            &&& !text::has_control(replay::item_identifier(key))
        },
{
    lemma_first_nul(key);
    if replay::is_item_key(key) {
        let at = replay::first_nul(key) as int;
        assert(key.take(at) + seq!['\0'] + key.skip(at + 1) =~= key);
    }
}

proof fn lemma_first_nul(s: Seq<char>)
    ensures
        replay::first_nul(s) <= s.len(),
        replay::first_nul(s) < s.len() ==> s[replay::first_nul(s) as int] == '\0',
        forall|k: int| 0 <= k < replay::first_nul(s) ==> s[k] != '\0',
    decreases s.len(),
{
    if s.len() > 0 && s[0] != '\0' {
        let rest = s.drop_first();
        lemma_first_nul(rest);
        assert forall|k: int| 0 <= k < replay::first_nul(s) implies s[k] != '\0' by {
            if k > 0 {
                assert(rest[k - 1] == s[k]);
            }
        }
    }
}

/// An item that is marked as done is done, and one that was started and is not done waits.
pub proof fn law_marks_are_found(
    store: StoreView,
    store_id: Seq<char>,
    changeset_id: Seq<char>,
    key: Seq<char>,
    mark: Seq<char>,
    now: Seq<char>,
    revision: Seq<char>,
)
    ensures
        replay::mark_goal(store, store_id, changeset_id, key, mark, now, revision) matches Ok(done)
            ==> {
            let target = replay::replay_target(store_id, changeset_id);
            &&& replay::is_done(done.0.operations, target, key)
            &&& done.1 ==> !replay::is_done(store.operations, target, key)
            &&& !done.1 ==> done.0 == store
            &&& done.0.pages == store.pages
            &&& done.0.sources == store.sources
        },
        replay::start_goal(store, store_id, changeset_id, key, mark, now, revision) matches Ok(done)
            ==> {
            let target = replay::replay_target(store_id, changeset_id);
            &&& done.0.pages == store.pages
            &&& done.0.sources == store.sources
            &&& done.1 is Ready ==> {
                let op = done.0.operations.last();
                &&& done.0.operations.drop_last() == store.operations
                &&& op.action == "changeset_sync_replay_item_start"@
                &&& op.target == target
                &&& op.detail.text_at("item_key"@) == Some(key)
                &&& op.detail.text_at("item_digest"@) == Some(mark)
                &&& store::meta_value(done.0, replay::expected_key(target)) == Some(revision)
            }
            &&& !(done.1 is Ready) ==> done.0 == store
        },
{
    let target = replay::replay_target(store_id, changeset_id);
    reveal_strlit("item_digest");
    reveal_strlit("item_key");
    assert("item_digest"@.len() == 11 && "item_key"@.len() == 8);
    reveal_with_fuel(json::lookup, 3);
    let detail = replay::item_json(key, mark);
    let entries = detail->Object_0;
    assert(entries.drop_first()[0] == entries[1]);
    assert(detail.text_at("item_key"@) == Some(key));
    assert(detail.text_at("item_digest"@) == Some(mark));
    lemma_done_mark(store.operations, target, key);
    if let Ok(done) = replay::mark_goal(
        store,
        store_id,
        changeset_id,
        key,
        mark,
        now,
        revision,
    ) {
        if done.1 {
            let last = done.0.operations.len() - 1;
            assert(done.0.operations[last].detail == detail);
        }
    }
    if let Ok(done) = replay::start_goal(
        store,
        store_id,
        changeset_id,
        key,
        mark,
        now,
        revision,
    ) {
        if done.1 is Ready {
            assert(done.0.operations.drop_last() =~= store.operations);
        }
    }
}

proof fn lemma_done_mark(operations: Seq<OperationView>, target: Seq<char>, key: Seq<char>)
    ensures
        replay::done_mark(operations, target, key) is Some <==> replay::is_done(
            operations,
            target,
            key,
        ),
    decreases operations.len(),
{
    if operations.len() > 0 {
        let rest = operations.drop_first();
        lemma_done_mark(rest, target, key);
        if replay::is_done(rest, target, key) {
            let k = choose|k: int|
                0 <= k < rest.len() && (#[trigger] rest[k]).action
                    == "changeset_sync_replay_item"@ && rest[k].target == target
                    && rest[k].detail.text_at("item_key"@) == Some(key);
            assert(operations[k + 1] == rest[k]);
        }
        if replay::is_done(operations, target, key) {
            let k = choose|k: int|
                0 <= k < operations.len() && (#[trigger] operations[k]).action
                    == "changeset_sync_replay_item"@ && operations[k].target == target
                    && operations[k].detail.text_at("item_key"@) == Some(key);
            if k > 0 {
                assert(rest[k - 1] == operations[k]);
            }
        }
    }
}

/// A replay is started once, is completed once, and only after it was started; neither changes
/// what the store holds.
pub proof fn law_replay_is_started_and_completed(
    store: StoreView,
    store_id: Seq<char>,
    changeset_id: Seq<char>,
    complete: bool,
    now: Seq<char>,
    revision: Seq<char>,
)
    ensures
        replay::marker_goal(store, store_id, changeset_id, complete, now, revision) matches Ok(done)
            ==> {
            let target = replay::replay_target(store_id, changeset_id);
            let op = done.0.operations.last();
            &&& text::is_lower_hex(store_id, 64)
            &&& text::is_lower_hex(changeset_id, 64)
            &&& !done.1 ==> done.0 == store
            &&& done.1 ==> {
                &&& done.0.operations.drop_last() == store.operations
                &&& op.target == target
                &&& complete ==> op.action == "changeset_sync_replay_complete"@
                &&& !complete ==> op.action == "changeset_sync_replay_start"@
            }
            &&& complete ==> changeset_log::newest_with(
                store.operations,
                "changeset_sync_replay_start"@,
                target,
            ) is Some
            &&& done.0.pages == store.pages
            &&& done.0.sources == store.sources
            &&& done.0.tags == store.tags
        },
{
    if let Ok(done) = replay::marker_goal(
        store,
        store_id,
        changeset_id,
        complete,
        now,
        revision,
    ) {
        if done.1 {
            assert(done.0.operations.drop_last() =~= store.operations);
        }
    }
}

/// An operation belongs to an item where it is about what the item names: a page by its slug, a
/// tag by its name, a source and its job by the content, the schema and the purpose by
/// themselves.
pub proof fn law_operations_belong_to_items(
    store: StoreView,
    identifier: Seq<char>,
    op: OperationView,
)
    ensures
        replay::belongs(store, "page"@, identifier, op) <==> op.target == identifier && (op.action
            == "page_put"@ || op.action == "page_remove"@),
        replay::belongs(store, "meta"@, identifier, op) ==> op.target == identifier && (identifier
            == "schema"@ && op.action == "schema_set"@ || identifier == "purpose"@ && op.action
            == "purpose_set"@),
        op.action == "schema_set"@ && op.target == "schema"@ ==> replay::belongs(
            store,
            "meta"@,
            "schema"@,
            op,
        ),
        op.action == "purpose_set"@ && op.target == "purpose"@ ==> replay::belongs(
            store,
            "meta"@,
            "purpose"@,
            op,
        ),
        replay::belongs(store, "source"@, identifier, op) ==> op.action == "source_add"@
            && op.detail.int_at("source_id"@) is Some,
        replay::belongs(store, "tag"@, identifier, op) <==> {
            ||| (op.action == "tag_set"@ || op.action == "tag_remove"@) && (identifier
                + "/"@).is_prefix_of(op.target)
            ||| (op.action == "tag_delete"@ || op.action == "tag_autoload"@) && op.target
                == identifier
        },
        replay::belongs(store, "ingest"@, identifier, op) ==> op.action == "ingest_claim"@
            || op.action == "ingest_analyze"@ || op.action == "ingest_complete"@ || op.action
            == "ingest_fail"@ || op.action == "ingest_retry"@,
{
    reveal_strlit("source");
    reveal_strlit("page");
    reveal_strlit("meta");
    reveal_strlit("tag");
    reveal_strlit("ingest");
    reveal_strlit("schema");
    reveal_strlit("purpose");
    assert("source"@.len() == 6 && "source"@[0] == 's' && "page"@.len() == 4 && "page"@[0] == 'p'
        && "meta"@.len() == 4 && "meta"@[0] == 'm' && "tag"@.len() == 3 && "ingest"@.len() == 6
        && "ingest"@[0] == 'i' && "schema"@.len() == 6 && "purpose"@.len() == 7);
}

/// A source that is replayed is in the store as it was declared: with that content, and called
/// as it was. A source that is there already must be as it was declared, and is then left.
pub proof fn law_replayed_source_is_there(
    store: StoreView,
    shape: FileShape,
    blobs: Map<Seq<char>, Seq<u8>>,
    source: SourceIntentView,
    remaining: u64,
    now: Seq<char>,
    revision: Seq<char>,
)
    requires
        store.sources.dom().finite(),
        forall|id: i64| #[trigger] store.sources.dom().contains(id) ==> id <= store.source_sequence,
    ensures
        replay::replay_source_goal(
            store,
            shape,
            blobs,
            source,
            remaining,
            now,
            revision,
        ) matches Ok(done) ==> {
            let row = done.0.sources[done.1];
            &&& done.0.sources.dom().contains(done.1)
            &&& row.content_hash == source.content_hash
            &&& source.origin is Some ==> row.origin == source.origin->0
            &&& source.origin is None ==> row.origin == "sync:sha256:"@ + source.content_hash
            &&& source.title is Some ==> row.title == source.title
            &&& source.title is None ==> row.title == Some(row.origin)
            &&& row.structural_navigation == source.structural_navigation
            &&& done.2 <= remaining
            &&& store.sources.dom().contains(done.1) ==> done.0 == store && done.2 == 0
            &&& !store.sources.dom().contains(done.1) ==> {
                &&& blobs.dom().contains(source.content_hash)
                &&& digest::sha256_hex(blobs[source.content_hash]) == source.content_hash
                &&& row.content == vstd::utf8::decode_utf8(blobs[source.content_hash])
                &&& done.2 == blobs[source.content_hash].len()
                &&& done.0.ingest_jobs[done.1].status == "pending"@
            }
            &&& forall|id: i64| #[trigger]
                store.sources.dom().contains(id) ==> done.0.sources.dom().contains(id)
                    && done.0.sources[id] == store.sources[id]
            &&& done.0.pages == store.pages
        },
{
    laws::lemma_with_hash(store, source.content_hash);
}

} // verus!
