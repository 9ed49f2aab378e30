//! The graph of pages, sources and spans: its nodes, the relations that somebody stated
//! between them, and what is asked of the engine that projects it.
use crate::digest;
use crate::digest::hash_content;
use crate::error;
use crate::error::{AppError, AppErrorView, ErrorCode};
use crate::json;
use crate::json::{Json, JsonView};
use crate::markdown;
use crate::markdown::lower;
use crate::pages;
use crate::pages::{dedupe_i64, encode_ids, quote};
use crate::paging;
use crate::rows::{RelationRow, RelationView};
use crate::spans;
use crate::store;
use crate::store::{Store, StoreView};
use crate::table;
use crate::table::{copy_ids, same_ids, Pair, PairView, Record, Table, TableKey, Triple, TripleView};
use crate::text;
use crate::text::{
    begins_with, chars_of, comes_before, copy_opt, copy_texts, decimal_text, has_char, join2, join3,
    join5, owned, same_opt, same_text, slice_text, trim,
};
use vstd::prelude::*;

verus! {

// ---------------------------------------------------------------------------
// Nodes
// ---------------------------------------------------------------------------

/// What stands behind a prefix.
pub open spec fn behind(s: Seq<char>, prefix: Seq<char>) -> Option<Seq<char>> {
    if prefix.is_prefix_of(s) {
        Some(s.skip(prefix.len() as int))
    } else {
        None
    }
}

/// What stands behind a prefix.
pub fn text_behind(s: &str, prefix: &str) -> (r: Option<String>)
    ensures
        text::opt_text(r) == behind(s@, prefix@),
{
    if !begins_with(s, prefix) {
        return None;
    }
    let chars = chars_of(s);
    let at = chars_of(prefix).len();
    let rest = slice_text(&chars, at, chars.len());
    assert(rest@ =~= s@.skip(at as int));
    Some(rest)
}

/// The full identifier of a node; a bare one is that of a page.
pub open spec fn node_candidate(identifier: Seq<char>) -> Seq<char> {
    if identifier.contains(':') {
        identifier
    } else {
        "page:"@ + identifier
    }
}

/// A source of the store is known by a text.
pub open spec fn source_named(store: StoreView, name: Seq<char>) -> bool {
    exists|id: i64| #[trigger]
        store.sources.dom().contains(id) && text::decimal(id as int) == name
}

/// The node that a full identifier names is there.
pub open spec fn node_exists(store: StoreView, candidate: Seq<char>) -> bool {
    if behind(candidate, "page:"@) is Some {
        store.pages.dom().contains(behind(candidate, "page:"@)->0)
    } else if behind(candidate, "source:"@) is Some {
        source_named(store, behind(candidate, "source:"@)->0)
    } else if "span:"@.is_prefix_of(candidate) {
        store.spans.dom().contains(candidate) && store.spans[candidate].active
    } else {
        false
    }
}

/// The full identifier of a node that is there.
pub open spec fn resolved(store: StoreView, identifier: Seq<char>) -> Result<
    Seq<char>,
    AppErrorView,
> {
    let plain = text::trimmed(identifier);
    if plain.len() == 0 {
        error::refused(ErrorCode::InvalidInput, "graph identifier cannot be empty"@)
    } else if node_exists(store, node_candidate(plain)) {
        Ok(node_candidate(plain))
    } else {
        error::refused(
            ErrorCode::GraphNodeNotFound,
            "graph node "@ + pages::quoted(plain) + " was not found"@,
        )
    }
}

impl Store {
    fn has_source_named(&self, name: &str) -> (r: bool)
        ensures
            r == source_named(self@, name@),
    {
        let n = self.sources.len();
        let ghost keys = self.sources.keys();
        let mut i: usize = 0;
        while i < n
            invariant
                i <= n == keys.len(),
                keys == self.sources.keys(),
                forall|k: int| 0 <= k < i ==> text::decimal(#[trigger] keys[k] as int) != name@,
            decreases n - i,
        {
            let id = *self.sources.key_at(i);
            if same_text(decimal_text(id).as_str(), name) {
                assert(self@.sources.dom().contains(id));
                return true;
            }
            i += 1;
        }
        proof {
            assert forall|id: i64| #[trigger]
                self@.sources.dom().contains(id) implies text::decimal(id as int) != name@ by {
                assert(keys.to_set().contains(id));
                let k = keys.index_of(id);
                assert(keys[k] == id);
            }
        }
        false
    }

    fn has_node(&self, candidate: &str) -> (r: bool)
        ensures
            r == node_exists(self@, candidate@),
    {
        if let Some(slug) = text_behind(candidate, "page:") {
            return self.pages.has(&slug);
        }
        if let Some(name) = text_behind(candidate, "source:") {
            return self.has_source_named(name.as_str());
        }
        if begins_with(candidate, "span:") {
            return match self.spans.get(&owned(candidate)) {
                Some(span) => span.active,
                None => false,
            };
        }
        false
    }

    /// The full identifier of a node that is there.
    pub fn resolve_graph_node(&self, identifier: &str) -> (r: Result<String, AppError>)
        ensures
            error::outcome(r) == resolved(self@, identifier@),
    {
        let plain = trim(identifier);
        if chars_of(plain.as_str()).len() == 0 {
            return Err(
                AppError::new(ErrorCode::InvalidInput, "graph identifier cannot be empty"),
            );
        }
        let candidate = if has_char(plain.as_str(), ':') {
            owned(plain.as_str())
        } else {
            join2("page:", plain.as_str())
        };
        if self.has_node(candidate.as_str()) {
            return Ok(candidate);
        }
        Err(
            AppError::new(
                ErrorCode::GraphNodeNotFound,
                join3("graph node ", quote(plain.as_str()).as_str(), " was not found").as_str(),
            ),
        )
    }

    /// The document that a node belongs to.
    pub fn graph_owner_document(&self, identifier: &str) -> (r: Result<Pair, AppError>)
        ensures
            error::outcome(r) == owner(self@, identifier@),
    {
        let node = match self.resolve_graph_node(identifier) {
            Ok(node) => node,
            Err(e) => {
                return Err(e);
            },
        };
        if let Some(slug) = text_behind(node.as_str(), "page:") {
            return Ok(Pair::new("page", slug.as_str()));
        }
        if let Some(id) = text_behind(node.as_str(), "source:") {
            return Ok(Pair::new("source", id.as_str()));
        }
        match self.spans.get(&node) {
            Some(span) => Ok(
                Pair::new(span.document_type.as_str(), span.document_identifier.as_str()),
            ),
            None => Err(store::no_rows_error()),
        }
    }
}

/// The document that a node belongs to.
pub open spec fn owner(store: StoreView, identifier: Seq<char>) -> Result<PairView, AppErrorView> {
    match resolved(store, identifier) {
        Err(e) => Err(e),
        Ok(node) => if behind(node, "page:"@) is Some {
            Ok(table::pair("page"@, behind(node, "page:"@)->0))
        } else if behind(node, "source:"@) is Some {
            Ok(table::pair("source"@, behind(node, "source:"@)->0))
        } else if store.spans.dom().contains(node) {
            Ok(table::pair(store.spans[node].document_type, store.spans[node].document_identifier))
        } else {
            Err(store::no_rows())
        },
    }
}

// ---------------------------------------------------------------------------
// Stating relations
// ---------------------------------------------------------------------------

/// A text in upper case.
pub uninterp spec fn raised(s: Seq<char>) -> Seq<char>;

/// Every character is one of ASCII.
pub open spec fn all_ascii(s: Seq<char>) -> bool {
    forall|i: int| 0 <= i < s.len() ==> (#[trigger] s[i] as u32) < 0x80
}

/// An ASCII letter in upper case, or the character itself.
pub open spec fn ascii_upper(c: char) -> char {
    if 'a' <= c <= 'z' {
        (c as u32 - 32) as char
    } else {
        c
    }
}

/// A text with its ASCII letters in upper case.
pub open spec fn ascii_raised(s: Seq<char>) -> Seq<char> {
    s.map_values(|c: char| ascii_upper(c))
}

/// `str::to_uppercase`: the upper case of a text, which the Unicode tables fix. Of a text in
/// ASCII they raise the letters `a` to `z`, and nothing else.
#[verifier::external_body]
pub(crate) fn upper(s: &str) -> (r: String)
    ensures
        r@ == raised(s@),
        all_ascii(s@) ==> r@ == ascii_raised(s@),
{
    s.to_uppercase()
}

/// The type of a relation in its plain form: without blanks around it, in upper case.
pub open spec fn plain_type(said: Seq<char>) -> Seq<char> {
    let bare = text::trimmed(said);
    if all_ascii(bare) {
        ascii_raised(bare)
    } else {
        raised(bare)
    }
}

fn to_plain_type(said: &str) -> (r: String)
    ensures
        r@ == plain_type(said@),
{
    upper(trim(said).as_str())
}

/// Two texts differ at most in the case of ASCII letters.
pub open spec fn same_but_for_case(a: Seq<char>, b: Seq<char>) -> bool {
    ascii_raised(a) == ascii_raised(b)
}

proof fn lemma_plain_type(a: Seq<char>, b: Seq<char>)
    requires
        all_ascii(text::trimmed(a)),
        same_but_for_case(text::trimmed(a), text::trimmed(b)),
    ensures
        plain_type(a) == plain_type(b),
{
    let x = text::trimmed(a);
    let y = text::trimmed(b);
    assert(ascii_raised(x).len() == x.len() && ascii_raised(y).len() == y.len());
    assert forall|i: int| 0 <= i < y.len() implies (#[trigger] y[i] as u32) < 0x80 by {
        assert(ascii_raised(x)[i] == ascii_upper(x[i]));
        assert(ascii_raised(y)[i] == ascii_upper(y[i]));
        assert((x[i] as u32) < 0x80);
    }
}

/// The bits of a floating-point number between 0 and 1.
pub open spec fn is_confidence(bits: u64) -> bool {
    bits <= 0x3ff0_0000_0000_0000 || bits == 0x8000_0000_0000_0000
}

/// How sure somebody is: the bits of the 64-bit floating-point number, and the number as
/// JSON writes it.
pub struct Confidence {
    pub bits: u64,
    pub said: String,
}

#[verifier::ext_equal]
pub struct ConfidenceView {
    pub bits: u64,
    pub said: Seq<char>,
}

impl View for Confidence {
    type V = ConfidenceView;

    open spec fn view(&self) -> ConfidenceView {
        ConfidenceView { bits: self.bits, said: self.said@ }
    }
}

pub open spec fn is_relation_type(s: Seq<char>) -> bool {
    s == "SUPPORTS"@ || s == "CONTRADICTS"@ || s == "REFINES"@ || s == "SUPERSEDES"@ || s
        == "CAUSES"@ || s == "DEPENDS_ON"@
}

pub open spec fn is_relation_provenance(s: Seq<char>) -> bool {
    s == "source-grounded"@ || s == "user-provided"@ || s == "agent-observed"@ || s
        == "hypothesis"@
}

/// What somebody says of two nodes.
#[verifier::ext_equal]
pub struct StatementView {
    pub from: Seq<char>,
    pub relation_type: Seq<char>,
    pub to: Seq<char>,
    pub provenance: Seq<char>,
    pub reason: Seq<char>,
    pub confidence: ConfidenceView,
    pub source_ids: Seq<i64>,
}

/// What is wrong with a statement in itself; its type and provenance are in their plain
/// form.
pub open spec fn statement_fault(s: StatementView) -> Option<AppErrorView> {
    if !is_relation_type(s.relation_type) {
        Some(
            error::app_error(
                ErrorCode::InvalidSemanticRelation,
                "semantic relation type is not supported"@,
            ),
        )
    } else if !is_relation_provenance(s.provenance) {
        Some(
            error::app_error(
                ErrorCode::InvalidProvenance,
                "semantic relation provenance is not supported"@,
            ),
        )
    } else if text::trimmed(s.reason).len() == 0 {
        Some(
            error::app_error(
                ErrorCode::InvalidInput,
                "semantic relation reason cannot be empty"@,
            ),
        )
    } else if !is_confidence(s.confidence.bits) {
        Some(
            error::app_error(
                ErrorCode::InvalidConfidence,
                "confidence must be a finite value between 0 and 1"@,
            ),
        )
    } else if s.provenance == "source-grounded"@ && pages::distinct(s.source_ids).len() == 0 {
        Some(
            error::app_error(
                ErrorCode::InvalidSemanticRelation,
                "source-grounded semantic relations require at least one --source"@,
            ),
        )
    } else {
        None
    }
}

/// The identifier of a relation.
pub open spec fn relation_id(relation_type: Seq<char>, from: Seq<char>, to: Seq<char>) -> Seq<char> {
    "edge:"@ + digest::text_digest("manual\0"@ + relation_type + "\0"@ + from + ("\0"@ + to))
}

/// A relation, as it is told.
pub open spec fn relation_json(id: Seq<char>, s: StatementView, from: Seq<char>, to: Seq<char>)
    -> JsonView {
    JsonView::Object(
        seq![
            json::entry("confidence"@, JsonView::Number(s.confidence.said)),
            json::entry("from"@, JsonView::Text(from)),
            json::entry("identifier"@, JsonView::Text(id)),
            json::entry("provenance"@, JsonView::Text(s.provenance)),
            json::entry("reason"@, JsonView::Text(text::trimmed(s.reason))),
            json::entry("source_ids"@, pages::ids_json(pages::distinct(s.source_ids))),
            json::entry("to"@, JsonView::Text(to)),
            json::entry("type"@, JsonView::Text(s.relation_type)),
        ],
    )
}

/// The row of a relation; one that is stated again keeps when it was first stated.
pub open spec fn relation_row(
    store: StoreView,
    id: Seq<char>,
    s: StatementView,
    from: Seq<char>,
    to: Seq<char>,
    now: Seq<char>,
) -> RelationView {
    RelationView {
        relation_type: if store.relations.dom().contains(id) {
            store.relations[id].relation_type
        } else {
            s.relation_type
        },
        from_identifier: if store.relations.dom().contains(id) {
            store.relations[id].from_identifier
        } else {
            from
        },
        to_identifier: if store.relations.dom().contains(id) {
            store.relations[id].to_identifier
        } else {
            to
        },
        confidence: Some(s.confidence.bits),
        provenance: s.provenance,
        reason: Some(text::trimmed(s.reason)),
        source_ids: pages::distinct(s.source_ids),
        created_at: if store.relations.dom().contains(id) {
            store.relations[id].created_at
        } else {
            now
        },
        updated_at: now,
    }
}

/// A relation that was stated: the store after it, and what is told of it.
#[verifier::ext_equal]
pub struct StatedView {
    pub store: StoreView,
    pub relation: JsonView,
}

/// What a statement comes to; its type and provenance are in their plain form.
pub open spec fn stated(
    store: StoreView,
    s: StatementView,
    now: Seq<char>,
    revision: Seq<char>,
) -> Result<StatedView, AppErrorView> {
    match statement_fault(s) {
        Some(e) => Err(e),
        None => match resolved(store, s.from) {
            Err(e) => Err(e),
            Ok(from) => match resolved(store, s.to) {
                Err(e) => Err(e),
                Ok(to) => if from == to {
                    error::refused(
                        ErrorCode::InvalidSemanticRelation,
                        "semantic relation endpoints must be different"@,
                    )
                } else {
                    let ids = pages::distinct(s.source_ids);
                    match pages::first_missing(store, ids) {
                        Some(id) => Err(pages::source_missing(id)),
                        None => {
                            let id = relation_id(s.relation_type, from, to);
                            let relation = relation_json(id, s, from, to);
                            match store::recorded(
                                StoreView {
                                    relations: store.relations.insert(
                                        id,
                                        relation_row(store, id, s, from, to, now),
                                    ),
                                    ..store
                                },
                                "graph_relation_set"@,
                                id,
                                relation,
                                now,
                                revision,
                            ) {
                                Err(e) => Err(e),
                                Ok(next) => Ok(StatedView { store: next, relation }),
                            }
                        },
                    }
                },
            },
        },
    }
}

/// A statement with its type and provenance in their plain form.
pub open spec fn plain_statement(s: StatementView) -> StatementView {
    StatementView {
        relation_type: plain_type(s.relation_type),
        provenance: markdown::lowered(text::trimmed(s.provenance)),
        ..s
    }
}

/// What somebody says of two nodes.
pub struct Statement {
    pub from: String,
    pub relation_type: String,
    pub to: String,
    pub provenance: String,
    pub reason: String,
    pub confidence: Confidence,
    pub source_ids: Vec<i64>,
}

impl View for Statement {
    type V = StatementView;

    open spec fn view(&self) -> StatementView {
        StatementView {
            from: self.from@,
            relation_type: self.relation_type@,
            to: self.to@,
            provenance: self.provenance@,
            reason: self.reason@,
            confidence: self.confidence@,
            source_ids: self.source_ids@,
        }
    }
}

fn relation_type_known(s: &str) -> (r: bool)
    ensures
        r == is_relation_type(s@),
{
    same_text(s, "SUPPORTS") || same_text(s, "CONTRADICTS") || same_text(s, "REFINES")
        || same_text(s, "SUPERSEDES") || same_text(s, "CAUSES") || same_text(s, "DEPENDS_ON")
}

fn relation_provenance_known(s: &str) -> (r: bool)
    ensures
        r == is_relation_provenance(s@),
{
    same_text(s, "source-grounded") || same_text(s, "user-provided") || same_text(
        s,
        "agent-observed",
    ) || same_text(s, "hypothesis")
}

fn find_statement_fault(s: &Statement) -> (r: Option<AppError>)
    ensures
        text::opt_view(r) == statement_fault(s@),
{
    if !relation_type_known(s.relation_type.as_str()) {
        return Some(
            AppError::new(
                ErrorCode::InvalidSemanticRelation,
                "semantic relation type is not supported",
            ),
        );
    }
    if !relation_provenance_known(s.provenance.as_str()) {
        return Some(
            AppError::new(
                ErrorCode::InvalidProvenance,
                "semantic relation provenance is not supported",
            ),
        );
    }
    if chars_of(trim(s.reason.as_str()).as_str()).len() == 0 {
        return Some(
            AppError::new(ErrorCode::InvalidInput, "semantic relation reason cannot be empty"),
        );
    }
    let bits = s.confidence.bits;
    if !(bits <= 0x3ff0_0000_0000_0000 || bits == 0x8000_0000_0000_0000) {
        return Some(
            AppError::new(
                ErrorCode::InvalidConfidence,
                "confidence must be a finite value between 0 and 1",
            ),
        );
    }
    let ids = dedupe_i64(&s.source_ids);
    if same_text(s.provenance.as_str(), "source-grounded") && ids.len() == 0 {
        return Some(
            AppError::new(
                ErrorCode::InvalidSemanticRelation,
                "source-grounded semantic relations require at least one --source",
            ),
        );
    }
    None
}

fn relation_identifier(relation_type: &str, from: &str, to: &str) -> (r: String)
    ensures
        r@ == relation_id(relation_type@, from@, to@),
{
    let tail = join2("\0", to);
    let said = join5("manual\0", relation_type, "\0", from, tail.as_str());
    join2("edge:", hash_content(said.as_str()).as_str())
}

fn encode_relation(id: &str, s: &Statement, from: &str, to: &str) -> (r: Json)
    ensures
        r@ == relation_json(id@, s@, from@, to@),
{
    let ghost goal = relation_json(id@, s@, from@, to@);
    let mut entries: Vec<(String, Json)> = Vec::new();
    entries.push((owned("confidence"), Json::Number(owned(s.confidence.said.as_str()))));
    entries.push((owned("from"), Json::text(from)));
    entries.push((owned("identifier"), Json::text(id)));
    entries.push((owned("provenance"), Json::text(s.provenance.as_str())));
    entries.push((owned("reason"), Json::text(trim(s.reason.as_str()).as_str())));
    entries.push((owned("source_ids"), encode_ids(&dedupe_i64(&s.source_ids))));
    entries.push((owned("to"), Json::text(to)));
    entries.push((owned("type"), Json::text(s.relation_type.as_str())));
    assert(json::entry_views(entries@) =~= goal->Object_0);
    Json::object(entries)
}

impl Store {
    fn make_relation(&self, id: &str, s: &Statement, from: &str, to: &str, now: &str) -> (r:
        RelationRow)
        ensures
            r@ == relation_row(self@, id@, s@, from@, to@, now@),
    {
        let (kind, start, end, created) = match self.relations.get(&owned(id)) {
            Some(row) => (
                owned(row.relation_type.as_str()),
                owned(row.from_identifier.as_str()),
                owned(row.to_identifier.as_str()),
                owned(row.created_at.as_str()),
            ),
            None => (owned(s.relation_type.as_str()), owned(from), owned(to), owned(now)),
        };
        RelationRow {
            relation_type: kind,
            from_identifier: start,
            to_identifier: end,
            confidence: Some(s.confidence.bits),
            provenance: owned(s.provenance.as_str()),
            reason: Some(trim(s.reason.as_str())),
            source_ids: dedupe_i64(&s.source_ids),
            created_at: created,
            updated_at: owned(now),
        }
    }

    /// States a relation between two nodes; its type and provenance are in their plain
    /// form.
    pub fn semantic_relation_set_value(&mut self, s: &Statement, now: &str, revision: &str) -> (r:
        Result<Json, AppError>)
        ensures
            match stated(old(self)@, s@, now@, revision@) {
                Ok(done) => (r matches Ok(got) && got@ == done.relation) && final(self)@
                    == done.store,
                Err(e) => (r matches Err(got) && got@ == e) && final(self)@ == old(self)@,
            },
    {
        if let Some(e) = find_statement_fault(s) {
            return Err(e);
        }
        let from = match self.resolve_graph_node(s.from.as_str()) {
            Ok(from) => from,
            Err(e) => {
                return Err(e);
            },
        };
        let to = match self.resolve_graph_node(s.to.as_str()) {
            Ok(to) => to,
            Err(e) => {
                return Err(e);
            },
        };
        if same_text(from.as_str(), to.as_str()) {
            return Err(
                AppError::new(
                    ErrorCode::InvalidSemanticRelation,
                    "semantic relation endpoints must be different",
                ),
            );
        }
        let ids = dedupe_i64(&s.source_ids);
        if let Err(e) = self.validate_sources(&ids) {
            return Err(e);
        }
        let id = relation_identifier(s.relation_type.as_str(), from.as_str(), to.as_str());
        let relation = encode_relation(id.as_str(), s, from.as_str(), to.as_str());
        let row = self.make_relation(id.as_str(), s, from.as_str(), to.as_str(), now);
        let mut next = self.duplicate();
        next.relations.put(owned(id.as_str()), row);
        if let Err(e) = next.record_operation(
            "graph_relation_set",
            id.as_str(),
            relation.duplicate(),
            now,
            revision,
        ) {
            return Err(e);
        }
        *self = next;
        Ok(relation)
    }

    /// States a relation between two nodes.
    pub fn graph_relation_set(&mut self, s: &Statement, now: &str, revision: &str) -> (r: Result<
        Json,
        AppError,
    >)
        ensures
            match stated(old(self)@, plain_statement(s@), now@, revision@) {
                Ok(done) => (r matches Ok(got) && got@ == done.relation) && final(self)@
                    == done.store,
                Err(e) => (r matches Err(got) && got@ == e) && final(self)@ == old(self)@,
            },
    {
        let plain = Statement {
            from: owned(s.from.as_str()),
            relation_type: to_plain_type(s.relation_type.as_str()),
            to: owned(s.to.as_str()),
            provenance: lower(trim(s.provenance.as_str()).as_str()),
            reason: owned(s.reason.as_str()),
            confidence: Confidence {
                bits: s.confidence.bits,
                said: owned(s.confidence.said.as_str()),
            },
            source_ids: copy_ids(&s.source_ids),
        };
        assert(plain@ =~= plain_statement(s@));
        self.semantic_relation_set_value(&plain, now, revision)
    }
}

// ---------------------------------------------------------------------------
// Listing relations
// ---------------------------------------------------------------------------

/// The key by which relations are ordered: the type, the two ends and the identifier.
pub struct RelationKey {
    pub relation_type: String,
    pub rest: Triple,
}

#[verifier::ext_equal]
pub struct RelationKeyView {
    pub relation_type: Seq<char>,
    pub rest: TripleView,
}

impl View for RelationKey {
    type V = RelationKeyView;

    open spec fn view(&self) -> RelationKeyView {
        RelationKeyView { relation_type: self.relation_type@, rest: self.rest@ }
    }
}

impl TableKey for RelationKey {
    open spec fn precedes(a: RelationKeyView, b: RelationKeyView) -> bool {
        text::before(a.relation_type, b.relation_type) || a.relation_type == b.relation_type
            && Triple::precedes(a.rest, b.rest)
    }

    proof fn lemma_order(a: RelationKeyView, b: RelationKeyView, c: RelationKeyView) {
        String::lemma_order(a.relation_type, b.relation_type, c.relation_type);
        assert forall|x: Seq<char>, y: Seq<char>| #[trigger]
            <String as TableKey>::precedes(x, y) == text::before(x, y) by {}
        assert(<String as TableKey>::precedes(a.relation_type, a.relation_type)
            == text::before(a.relation_type, a.relation_type));
        assert(<String as TableKey>::precedes(a.relation_type, b.relation_type)
            == text::before(a.relation_type, b.relation_type));
        assert(<String as TableKey>::precedes(b.relation_type, c.relation_type)
            == text::before(b.relation_type, c.relation_type));
        assert(<String as TableKey>::precedes(a.relation_type, c.relation_type)
            == text::before(a.relation_type, c.relation_type));
        assert(<String as TableKey>::precedes(b.relation_type, a.relation_type)
            == text::before(b.relation_type, a.relation_type));
        Triple::lemma_order(a.rest, b.rest, c.rest);
    }

    fn is_before(&self, other: &Self) -> (r: bool) {
        comes_before(self.relation_type.as_str(), other.relation_type.as_str()) || same_text(
            self.relation_type.as_str(),
            other.relation_type.as_str(),
        ) && self.rest.is_before(&other.rest)
    }

    fn is_same(&self, other: &Self) -> (r: bool) {
        same_text(self.relation_type.as_str(), other.relation_type.as_str()) && self.rest.is_same(
            &other.rest,
        )
    }

    fn again(&self) -> (r: Self) {
        RelationKey { relation_type: owned(self.relation_type.as_str()), rest: self.rest.again() }
    }
}

/// A relation, as a list shows it.
pub struct RelationRecord {
    pub identifier: String,
    pub relation_type: String,
    pub from: String,
    pub to: String,
    pub confidence: Option<u64>,
    pub provenance: String,
    pub reason: Option<String>,
    pub source_ids: Vec<i64>,
}

#[verifier::ext_equal]
pub struct RelationRecordView {
    pub identifier: Seq<char>,
    pub relation_type: Seq<char>,
    pub from: Seq<char>,
    pub to: Seq<char>,
    pub confidence: Option<u64>,
    pub provenance: Seq<char>,
    pub reason: Option<Seq<char>>,
    pub source_ids: Seq<i64>,
}

impl View for RelationRecord {
    type V = RelationRecordView;

    open spec fn view(&self) -> RelationRecordView {
        RelationRecordView {
            identifier: self.identifier@,
            relation_type: self.relation_type@,
            from: self.from@,
            to: self.to@,
            confidence: self.confidence,
            provenance: self.provenance@,
            reason: text::opt_text(self.reason),
            source_ids: self.source_ids@,
        }
    }
}

impl Record for RelationRecord {
    fn duplicate(&self) -> (r: Self) {
        RelationRecord {
            identifier: owned(self.identifier.as_str()),
            relation_type: owned(self.relation_type.as_str()),
            from: owned(self.from.as_str()),
            to: owned(self.to.as_str()),
            confidence: self.confidence,
            provenance: owned(self.provenance.as_str()),
            reason: copy_opt(&self.reason),
            source_ids: copy_ids(&self.source_ids),
        }
    }

    fn same(&self, other: &Self) -> (r: bool) {
        same_text(self.identifier.as_str(), other.identifier.as_str())
            && same_text(self.relation_type.as_str(), other.relation_type.as_str())
            && same_text(self.from.as_str(), other.from.as_str())
            && same_text(self.to.as_str(), other.to.as_str())
            && self.confidence == other.confidence
            && same_text(self.provenance.as_str(), other.provenance.as_str())
            && same_opt(&self.reason, &other.reason)
            && same_ids(&self.source_ids, &other.source_ids)
    }
}

pub open spec fn relation_shown(id: Seq<char>, row: RelationView) -> RelationRecordView {
    RelationRecordView {
        identifier: id,
        relation_type: row.relation_type,
        from: row.from_identifier,
        to: row.to_identifier,
        confidence: row.confidence,
        provenance: row.provenance,
        reason: row.reason,
        source_ids: row.source_ids,
    }
}

pub open spec fn relation_key(id: Seq<char>, row: RelationView) -> RelationKeyView {
    RelationKeyView {
        relation_type: row.relation_type,
        rest: table::triple(row.from_identifier, row.to_identifier, id),
    }
}

/// A relation is one that is asked for.
pub open spec fn relation_wanted(
    row: RelationView,
    from: Option<Seq<char>>,
    to: Option<Seq<char>>,
    relation_type: Option<Seq<char>>,
) -> bool {
    &&& from is None || from == Some(row.from_identifier)
    &&& to is None || to == Some(row.to_identifier)
    &&& relation_type is None || relation_type == Some(row.relation_type)
}

/// The keys of the relations that are asked for.
pub open spec fn wanted_keys(
    relations: Map<Seq<char>, RelationView>,
    from: Option<Seq<char>>,
    to: Option<Seq<char>>,
    relation_type: Option<Seq<char>>,
) -> Set<RelationKeyView> {
    Set::new(
        |key: RelationKeyView|
            {
                let id = key.rest.third;
                &&& relations.dom().contains(id)
                &&& key == relation_key(id, relations[id])
                &&& relation_wanted(relations[id], from, to, relation_type)
            },
    )
}

/// The relations that are asked for, in order.
pub open spec fn relations_listed(
    store: StoreView,
    from: Option<Seq<char>>,
    to: Option<Seq<char>>,
    relation_type: Option<Seq<char>>,
) -> Seq<RelationRecordView> {
    table::ordered::<RelationKey>(wanted_keys(store.relations, from, to, relation_type)).map_values(
        |key: RelationKeyView| relation_shown(key.rest.third, store.relations[key.rest.third]),
    )
}

/// The full identifier of a node, where one is named.
pub open spec fn resolved_opt(store: StoreView, identifier: Option<Seq<char>>) -> Result<
    Option<Seq<char>>,
    AppErrorView,
> {
    match identifier {
        None => Ok(None),
        Some(identifier) => match resolved(store, identifier) {
            Err(e) => Err(e),
            Ok(node) => Ok(Some(node)),
        },
    }
}

pub open spec fn opt_str(s: Option<&str>) -> Option<Seq<char>> {
    match s {
        Some(s) => Some(s@),
        None => None,
    }
}

/// The relations that are asked for by the ends and a type in its plain form.
pub open spec fn list_goal(
    store: StoreView,
    from: Option<Seq<char>>,
    to: Option<Seq<char>>,
    relation_type: Option<Seq<char>>,
    limit: nat,
) -> Result<Seq<RelationRecordView>, AppErrorView> {
    match resolved_opt(store, from) {
        Err(e) => Err(e),
        Ok(from) => match resolved_opt(store, to) {
            Err(e) => Err(e),
            Ok(to) => Ok(
                paging::page_of(relations_listed(store, from, to, relation_type), 0, limit),
            ),
        },
    }
}

fn show_relation(id: &str, row: &RelationRow) -> (r: RelationRecord)
    ensures
        r@ == relation_shown(id@, row@),
{
    RelationRecord {
        identifier: owned(id),
        relation_type: owned(row.relation_type.as_str()),
        from: owned(row.from_identifier.as_str()),
        to: owned(row.to_identifier.as_str()),
        confidence: row.confidence,
        provenance: owned(row.provenance.as_str()),
        reason: copy_opt(&row.reason),
        source_ids: copy_ids(&row.source_ids),
    }
}

fn fits(wanted: &Option<String>, found: &str) -> (r: bool)
    ensures
        r == (text::opt_text(*wanted) is None || text::opt_text(*wanted) == Some(found@)),
{
    match wanted {
        Some(wanted) => same_text(wanted.as_str(), found),
        None => true,
    }
}

impl Store {
    fn resolve_opt(&self, identifier: Option<&str>) -> (r: Result<Option<String>, AppError>)
        ensures
            match resolved_opt(self@, opt_str(identifier)) {
                Ok(node) => r matches Ok(got) && text::opt_text(got) == node,
                Err(e) => r matches Err(got) && got@ == e,
            },
    {
        match identifier {
            None => Ok(None),
            Some(identifier) => match self.resolve_graph_node(identifier) {
                Ok(node) => Ok(Some(node)),
                Err(e) => Err(e),
            },
        }
    }

    /// The relations that are asked for, by their keys.
    fn gather_relations(
        &self,
        from: &Option<String>,
        to: &Option<String>,
        relation_type: &Option<String>,
    ) -> (r: Table<RelationKey, RelationRecord>)
        ensures
            r@.dom() == wanted_keys(
                self@.relations,
                text::opt_text(*from),
                text::opt_text(*to),
                text::opt_text(*relation_type),
            ),
            forall|key: RelationKeyView| #[trigger]
                r@.dom().contains(key) ==> r@[key] == relation_shown(
                    key.rest.third,
                    self@.relations[key.rest.third],
                ),
    {
        let n = self.relations.len();
        let ghost keys = self.relations.keys();
        let ghost goal = wanted_keys(
            self@.relations,
            text::opt_text(*from),
            text::opt_text(*to),
            text::opt_text(*relation_type),
        );
        let mut out: Table<RelationKey, RelationRecord> = Table::new();
        let mut i: usize = 0;
        while i < n
            invariant
                i <= n == keys.len(),
                keys == self.relations.keys(),
                goal == wanted_keys(
                    self@.relations,
                    text::opt_text(*from),
                    text::opt_text(*to),
                    text::opt_text(*relation_type),
                ),
                forall|key: RelationKeyView| #[trigger]
                    out@.dom().contains(key) == (goal.contains(key) && keys.take(
                        i as int,
                    ).contains(key.rest.third)),
                forall|key: RelationKeyView| #[trigger]
                    out@.dom().contains(key) ==> out@[key] == relation_shown(
                        key.rest.third,
                        self@.relations[key.rest.third],
                    ),
            decreases n - i,
        {
            let id = self.relations.key_at(i);
            let row = self.relations.value_at(i);
            proof {
                table::lemma_take_more(keys, i as int);
            }
            let ghost this = relation_key(id@, row@);
            if fits(from, row.from_identifier.as_str()) && fits(to, row.to_identifier.as_str())
                && fits(relation_type, row.relation_type.as_str()) {
                let key = RelationKey {
                    relation_type: owned(row.relation_type.as_str()),
                    rest: Triple::new(
                        row.from_identifier.as_str(),
                        row.to_identifier.as_str(),
                        id.as_str(),
                    ),
                };
                out.put(key, show_relation(id.as_str(), row));
            }
            proof {
                assert forall|key: RelationKeyView| #[trigger]
                    out@.dom().contains(key) == (goal.contains(key) && keys.take(i + 1).contains(
                        key.rest.third,
                    )) by {
                    if key.rest.third == id@ && goal.contains(key) {
                        assert(key == this);
                    }
                    if key == this {
                        assert(key.rest.third == id@);
                    }
                }
            }
            i += 1;
        }
        proof {
            assert(keys.take(n as int) =~= keys);
            assert forall|key: RelationKeyView| out@.dom().contains(key) == goal.contains(key) by {
                if goal.contains(key) {
                    assert(keys.to_set().contains(key.rest.third));
                }
            }
            assert(out@.dom() =~= goal);
        }
        out
    }

    /// The relations between nodes, by their ends and a type in its plain form.
    pub fn semantic_relation_list_value(
        &self,
        from: Option<&str>,
        to: Option<&str>,
        relation_type: &Option<String>,
        limit: usize,
    ) -> (r: Result<Vec<RelationRecord>, AppError>)
        ensures
            match list_goal(
                self@,
                opt_str(from),
                opt_str(to),
                text::opt_text(*relation_type),
                limit as nat,
            ) {
                Ok(list) => r matches Ok(got) && text::views(got@) == list,
                Err(e) => r matches Err(got) && got@ == e,
            },
    {
        let from = match self.resolve_opt(from) {
            Ok(from) => from,
            Err(e) => {
                return Err(e);
            },
        };
        let to = match self.resolve_opt(to) {
            Ok(to) => to,
            Err(e) => {
                return Err(e);
            },
        };
        let found = self.gather_relations(&from, &to, relation_type);
        let ghost goal = relations_listed(
            self@,
            text::opt_text(from),
            text::opt_text(to),
            text::opt_text(*relation_type),
        );
        let n = found.len();
        let ghost keys = found.keys();
        proof {
            table::lemma_ordered_is::<RelationKey>(keys, found@.dom());
        }
        let mut all: Vec<RelationRecord> = Vec::new();
        let mut i: usize = 0;
        while i < n
            invariant
                i <= n == keys.len() == goal.len(),
                keys == found.keys(),
                text::views(all@) =~= goal.take(i as int),
            decreases n - i,
        {
            let one = found.value_at(i).duplicate();
            proof {
                assert(found@.dom().contains(keys[i as int]));
                assert(one@ == goal[i as int]);
                text::lemma_views_push(all@, one);
                assert(goal.take(i + 1) =~= goal.take(i as int).push(goal[i as int]));
            }
            all.push(one);
            i += 1;
        }
        assert(goal.take(n as int) =~= goal);
        Ok(paging::copy_page(&all, 0, limit))
    }

    /// The relations between nodes, by their ends and type.
    pub fn graph_relation_list(
        &self,
        from: Option<&str>,
        to: Option<&str>,
        relation_type: Option<&str>,
        limit: usize,
    ) -> (r: Result<Vec<RelationRecord>, AppError>)
        ensures
            match list_goal(
                self@,
                opt_str(from),
                opt_str(to),
                match relation_type {
                    Some(said) => Some(plain_type(said@)),
                    None => None,
                },
                limit as nat,
            ) {
                Ok(list) => r matches Ok(got) && text::views(got@) == list,
                Err(e) => r matches Err(got) && got@ == e,
            },
    {
        let plain = match relation_type {
            Some(said) => Some(to_plain_type(said)),
            None => None,
        };
        self.semantic_relation_list_value(from, to, &plain, limit)
    }
}

// ---------------------------------------------------------------------------
// Taking relations back
// ---------------------------------------------------------------------------

/// A relation that was taken back: the store after it, and its identifier.
#[verifier::ext_equal]
pub struct RetractedView {
    pub store: StoreView,
    pub identifier: Seq<char>,
}

/// What taking a relation back comes to; its type is in its plain form.
pub open spec fn retracted(
    store: StoreView,
    from: Seq<char>,
    relation_type: Seq<char>,
    to: Seq<char>,
    reason: Seq<char>,
    now: Seq<char>,
    revision: Seq<char>,
) -> Result<RetractedView, AppErrorView> {
    if text::trimmed(reason).len() == 0 {
        error::refused(
            ErrorCode::InvalidInput,
            "semantic relation retraction reason cannot be empty"@,
        )
    } else {
        match resolved(store, from) {
            Err(e) => Err(e),
            Ok(from) => match resolved(store, to) {
                Err(e) => Err(e),
                Ok(to) => {
                    let id = relation_id(relation_type, from, to);
                    if !store.relations.dom().contains(id) {
                        error::refused(
                            ErrorCode::SemanticRelationNotFound,
                            "explicit semantic relation was not found"@,
                        )
                    } else {
                        match store::recorded(
                            StoreView { relations: store.relations.remove(id), ..store },
                            "graph_relation_retract"@,
                            id,
                            JsonView::Object(
                                seq![
                                    json::entry("reason"@, JsonView::Text(text::trimmed(reason))),
                                ],
                            ),
                            now,
                            revision,
                        ) {
                            Err(e) => Err(e),
                            Ok(next) => Ok(RetractedView { store: next, identifier: id }),
                        }
                    }
                },
            },
        }
    }
}

impl Store {
    /// Takes a relation between two nodes back; its type is in its plain form. Gives its
    /// identifier.
    pub fn semantic_relation_retract_value(
        &mut self,
        from: &str,
        relation_type: &str,
        to: &str,
        reason: &str,
        now: &str,
        revision: &str,
    ) -> (r: Result<String, AppError>)
        ensures
            match retracted(
                old(self)@,
                from@,
                relation_type@,
                to@,
                reason@,
                now@,
                revision@,
            ) {
                Ok(done) => (r matches Ok(got) && got@ == done.identifier) && final(self)@
                    == done.store,
                Err(e) => (r matches Err(got) && got@ == e) && final(self)@ == old(self)@,
            },
    {
        let kept = trim(reason);
        if chars_of(kept.as_str()).len() == 0 {
            return Err(
                AppError::new(
                    ErrorCode::InvalidInput,
                    "semantic relation retraction reason cannot be empty",
                ),
            );
        }
        let from = match self.resolve_graph_node(from) {
            Ok(from) => from,
            Err(e) => {
                return Err(e);
            },
        };
        let to = match self.resolve_graph_node(to) {
            Ok(to) => to,
            Err(e) => {
                return Err(e);
            },
        };
        let id = relation_identifier(relation_type, from.as_str(), to.as_str());
        let mut next = self.duplicate();
        if !next.relations.remove(&id) {
            return Err(
                AppError::new(
                    ErrorCode::SemanticRelationNotFound,
                    "explicit semantic relation was not found",
                ),
            );
        }
        let detail = Json::object1("reason", Json::text(kept.as_str()));
        if let Err(e) = next.record_operation(
            "graph_relation_retract",
            id.as_str(),
            detail,
            now,
            revision,
        ) {
            return Err(e);
        }
        *self = next;
        Ok(id)
    }

    /// Takes a relation between two nodes back. Gives its identifier.
    pub fn graph_relation_retract(
        &mut self,
        from: &str,
        relation_type: &str,
        to: &str,
        reason: &str,
        now: &str,
        revision: &str,
    ) -> (r: Result<String, AppError>)
        ensures
            match retracted(
                old(self)@,
                from@,
                plain_type(relation_type@),
                to@,
                reason@,
                now@,
                revision@,
            ) {
                Ok(done) => (r matches Ok(got) && got@ == done.identifier) && final(self)@
                    == done.store,
                Err(e) => (r matches Err(got) && got@ == e) && final(self)@ == old(self)@,
            },
    {
        let plain = to_plain_type(relation_type);
        self.semantic_relation_retract_value(from, plain.as_str(), to, reason, now, revision)
    }
}

// ---------------------------------------------------------------------------
// What is asked of the graph engine
// ---------------------------------------------------------------------------

/// A question to the engine that projects the graph.
pub enum GraphQuestion {
    Explore {
        identifier: String,
        depth: usize,
        limit: usize,
        direction: String,
        edge_types: Vec<String>,
    },
    Overview { limit: usize },
    Node { identifier: String },
    Path {
        from: String,
        to: String,
        max_depth: usize,
        limit: usize,
        direction: String,
        edge_types: Vec<String>,
    },
    Status,
    PassiveStatus,
    Verify,
}

#[verifier::ext_equal]
pub enum GraphQuestionView {
    Explore {
        identifier: Seq<char>,
        depth: usize,
        limit: usize,
        direction: Seq<char>,
        edge_types: Seq<Seq<char>>,
    },
    Overview { limit: usize },
    Node { identifier: Seq<char> },
    Path {
        from: Seq<char>,
        to: Seq<char>,
        max_depth: usize,
        limit: usize,
        direction: Seq<char>,
        edge_types: Seq<Seq<char>>,
    },
    Status,
    PassiveStatus,
    Verify,
}

impl View for GraphQuestion {
    type V = GraphQuestionView;

    open spec fn view(&self) -> GraphQuestionView {
        match self {
            GraphQuestion::Explore { identifier, depth, limit, direction, edge_types } =>
                GraphQuestionView::Explore {
                identifier: identifier@,
                depth: *depth,
                limit: *limit,
                direction: direction@,
                edge_types: text::views(edge_types@),
            },
            GraphQuestion::Overview { limit } => GraphQuestionView::Overview { limit: *limit },
            GraphQuestion::Node { identifier } => GraphQuestionView::Node {
                identifier: identifier@,
            },
            GraphQuestion::Path { from, to, max_depth, limit, direction, edge_types } =>
                GraphQuestionView::Path {
                from: from@,
                to: to@,
                max_depth: *max_depth,
                limit: *limit,
                direction: direction@,
                edge_types: text::views(edge_types@),
            },
            GraphQuestion::Status => GraphQuestionView::Status,
            GraphQuestion::PassiveStatus => GraphQuestionView::PassiveStatus,
            GraphQuestion::Verify => GraphQuestionView::Verify,
        }
    }
}

/// A question about the graph of one store.
pub struct GraphRequest {
    pub scope: String,
    pub database: String,
    pub question: GraphQuestion,
}

/// A request asks a question about the graph of a store.
pub open spec fn asks(request: GraphRequest, store: StoreView, question: GraphQuestionView) -> bool {
    &&& request.scope@ == store.scope
    &&& request.database@ == store.database
    &&& request.question@ == question
}

impl Store {
    fn ask(&self, question: GraphQuestion) -> (r: GraphRequest)
        ensures
            asks(r, self@, question@),
    {
        GraphRequest {
            scope: owned(self.scope.as_str()),
            database: owned(self.database.as_str()),
            question,
        }
    }

    /// Asks for the surroundings of a node.
    pub fn graph_explore(
        &self,
        identifier: &str,
        depth: usize,
        limit: usize,
        direction: &str,
        edge_types: &Vec<String>,
    ) -> (r: GraphRequest)
        ensures
            asks(
                r,
                self@,
                GraphQuestionView::Explore {
                    identifier: identifier@,
                    depth,
                    limit,
                    direction: direction@,
                    edge_types: text::views(edge_types@),
                },
            ),
    {
        self.ask(
            GraphQuestion::Explore {
                identifier: owned(identifier),
                depth,
                limit,
                direction: owned(direction),
                edge_types: copy_texts(edge_types),
            },
        )
    }

    /// Asks for the graph at large, whatever the depth and the types of edges.
    pub fn graph_explore_macro(&self, depth: usize, limit: usize, edge_types: &Vec<String>) -> (r:
        GraphRequest)
        ensures
            asks(r, self@, GraphQuestionView::Overview { limit }),
    {
        self.ask(GraphQuestion::Overview { limit })
    }

    /// Asks for a node.
    pub fn graph_node(&self, identifier: &str) -> (r: GraphRequest)
        ensures
            asks(r, self@, GraphQuestionView::Node { identifier: identifier@ }),
    {
        self.ask(GraphQuestion::Node { identifier: owned(identifier) })
    }

    /// Asks for the neighbours of a node, and for one node more, which is the node itself.
    pub fn graph_neighbors(
        &self,
        identifier: &str,
        limit: usize,
        direction: &str,
        edge_types: &Vec<String>,
    ) -> (r: GraphRequest)
        ensures
            asks(
                r,
                self@,
                GraphQuestionView::Explore {
                    identifier: identifier@,
                    depth: 1,
                    limit: if limit < usize::MAX {
                        (limit + 1) as usize
                    } else {
                        usize::MAX
                    },
                    direction: direction@,
                    edge_types: text::views(edge_types@),
                },
            ),
    {
        let more = if limit < usize::MAX {
            limit + 1
        } else {
            usize::MAX
        };
        self.graph_explore(identifier, 1, more, direction, edge_types)
    }

    /// Asks for a way from one node to another.
    pub fn graph_path(
        &self,
        from: &str,
        to: &str,
        max_depth: usize,
        limit: usize,
        direction: &str,
        edge_types: &Vec<String>,
    ) -> (r: GraphRequest)
        ensures
            asks(
                r,
                self@,
                GraphQuestionView::Path {
                    from: from@,
                    to: to@,
                    max_depth,
                    limit,
                    direction: direction@,
                    edge_types: text::views(edge_types@),
                },
            ),
    {
        self.ask(
            GraphQuestion::Path {
                from: owned(from),
                to: owned(to),
                max_depth,
                limit,
                direction: owned(direction),
                edge_types: copy_texts(edge_types),
            },
        )
    }

    /// Asks for what leads to a node, by edges of all types.
    pub fn graph_impact(&self, identifier: &str, max_depth: usize, limit: usize) -> (r: GraphRequest)
        ensures
            asks(
                r,
                self@,
                GraphQuestionView::Explore {
                    identifier: identifier@,
                    depth: max_depth,
                    limit,
                    direction: "incoming"@,
                    edge_types: Seq::empty(),
                },
            ),
    {
        let all: Vec<String> = Vec::new();
        assert(text::views(all@) =~= Seq::<Seq<char>>::empty());
        self.graph_explore(identifier, max_depth, limit, "incoming", &all)
    }

    /// Asks for the graph at large.
    pub fn graph_overview(&self, limit: usize) -> (r: GraphRequest)
        ensures
            asks(r, self@, GraphQuestionView::Overview { limit }),
    {
        self.ask(GraphQuestion::Overview { limit })
    }

    /// Asks how the projection stands.
    pub fn graph_status(&self) -> (r: GraphRequest)
        ensures
            asks(r, self@, GraphQuestionView::Status),
    {
        self.ask(GraphQuestion::Status)
    }

    /// Asks how the projection stands, without waking the engine.
    pub fn graph_passive_status(&self) -> (r: GraphRequest)
        ensures
            asks(r, self@, GraphQuestionView::PassiveStatus),
    {
        self.ask(GraphQuestion::PassiveStatus)
    }

    /// Asks for a check of the projection.
    pub fn graph_verify(&self) -> (r: GraphRequest)
        ensures
            asks(r, self@, GraphQuestionView::Verify),
    {
        self.ask(GraphQuestion::Verify)
    }
}

/// The first `limit` of the first `count` nodes that are one step away.
pub open spec fn near(nodes: Seq<JsonView>, limit: nat, count: nat) -> Seq<JsonView>
    decreases count,
{
    if count == 0 || count > nodes.len() {
        Seq::empty()
    } else {
        let head = near(nodes, limit, (count - 1) as nat);
        if head.len() < limit && nodes[count - 1].at("depth"@) == JsonView::Int(1) {
            head.push(nodes[count - 1])
        } else {
            head
        }
    }
}

/// The answer of the engine, with the neighbours among its nodes.
pub open spec fn with_neighbors(entries: Seq<json::EntryView>, limit: usize) -> JsonView {
    let limited = json::with_entry(entries, "limit"@, json::count_view(limit as nat));
    let neighbors = match JsonView::Object(limited).array_at("nodes"@) {
        Some(nodes) => near(nodes, limit as nat, nodes.len()),
        None => Seq::empty(),
    };
    JsonView::Object(json::with_entry(limited, "neighbors"@, JsonView::Array(neighbors)))
}

fn list_near(nodes: &Vec<Json>, limit: usize) -> (r: Vec<Json>)
    ensures
        text::views(r@) == near(text::views(nodes@), limit as nat, nodes@.len()),
{
    let ghost all = text::views(nodes@);
    let mut out: Vec<Json> = Vec::new();
    assert(text::views(out@) =~= Seq::empty());
    let mut i: usize = 0;
    while i < nodes.len()
        invariant
            i <= nodes@.len() == all.len(),
            all == text::views(nodes@),
            text::views(out@) == near(all, limit as nat, i as nat),
        decreases nodes@.len() - i,
    {
        assert(all[i as int] == nodes@[i as int]@);
        assert(text::views(out@).len() == out@.len());
        let one_step = match nodes[i].get("depth") {
            Some(Json::Int(depth)) => *depth == 1,
            _ => false,
        };
        if out.len() < limit && one_step {
            let node = nodes[i].duplicate();
            proof {
                text::lemma_views_push(out@, node);
            }
            out.push(node);
        }
        i += 1;
    }
    out
}

/// Adds the neighbours among the nodes of an answer to it; an answer that is null counts as an
/// object without entries.
pub fn add_neighbors(response: &mut Json, limit: usize)
    requires
        old(response)@ is Object || old(response)@ is Null,
    ensures
        final(response)@ == with_neighbors(
            match old(response)@ {
                JsonView::Object(entries) => entries,
                _ => Seq::empty(),
            },
            limit,
        ),
{
    if let Json::Null = response {
        *response = Json::empty_object();
    }
    response.set("limit", Json::count(limit));
    let neighbors = match response.array_at("nodes") {
        Some(nodes) => list_near(nodes, limit),
        None => Vec::new(),
    };
    assert(response@.array_at("nodes"@) is None ==> text::views(neighbors@) =~= Seq::empty());
    proof {
        json::lemma_array_view(neighbors);
    }
    response.set("neighbors", Json::Array(neighbors));
}

/// What the engine answered, with the neighbours among its nodes: an error stays one.
pub open spec fn neighbors_of(
    answer: Result<JsonView, AppErrorView>,
    limit: usize,
) -> Result<JsonView, AppErrorView> {
    match answer {
        Err(e) => Err(e),
        Ok(JsonView::Object(entries)) => Ok(with_neighbors(entries, limit)),
        Ok(_) => Ok(with_neighbors(Seq::empty(), limit)),
    }
}

/// The neighbours of a node, from what the engine answered.
pub fn read_neighbors(answer: Result<Json, AppError>, limit: usize) -> (r: Result<Json, AppError>)
    requires
        answer matches Ok(response) ==> response@ is Object || response@ is Null,
    ensures
        error::outcome(r) == neighbors_of(error::outcome(answer), limit),
{
    match answer {
        Ok(response) => {
            let mut response = response;
            add_neighbors(&mut response, limit);
            Ok(response)
        },
        Err(e) => Err(e),
    }
}

// ---------------------------------------------------------------------------
// Laws
// ---------------------------------------------------------------------------

proof fn lemma_near(nodes: Seq<JsonView>, limit: nat, count: nat)
    requires
        count <= nodes.len(),
    ensures
        near(nodes, limit, count).len() <= limit,
        near(nodes, limit, count).len() <= count,
        forall|k: int|
            0 <= k < near(nodes, limit, count).len() ==> (#[trigger] near(nodes, limit, count)[k]).at(
                "depth"@,
            ) == JsonView::Int(1),
    decreases count,
{
    if count > 0 {
        lemma_near(nodes, limit, (count - 1) as nat);
    }
}

/// There are no more neighbours than asked for, and each is one step away: the node itself is
/// none of them.
pub proof fn law_neighbors_are_near(entries: Seq<json::EntryView>, limit: usize)
    ensures
        with_neighbors(entries, limit).at("limit"@) == json::count_view(limit as nat),
        with_neighbors(entries, limit).array_at("neighbors"@) matches Some(neighbors)
            && neighbors.len() <= limit && forall|k: int|
            0 <= k < neighbors.len() ==> (#[trigger] neighbors[k]).at("depth"@) == JsonView::Int(1),
{
    let limited = json::with_entry(entries, "limit"@, json::count_view(limit as nat));
    if let Some(nodes) = JsonView::Object(limited).array_at("nodes"@) {
        lemma_near(nodes, limit as nat, nodes.len());
    }
    let neighbors = match JsonView::Object(limited).array_at("nodes"@) {
        Some(nodes) => near(nodes, limit as nat, nodes.len()),
        None => Seq::empty(),
    };
    reveal_strlit("limit");
    reveal_strlit("neighbors");
    assert("limit"@.len() == 5 && "neighbors"@.len() == 9);
    json::lemma_with_entry(entries, "limit"@, json::count_view(limit as nat));
    json::lemma_with_entry(limited, "neighbors"@, JsonView::Array(neighbors));
}

/// Every relation stands under the identifier of its type and its ends.
pub open spec fn relations_filed(store: StoreView) -> bool {
    forall|id: Seq<char>| #[trigger]
        store.relations.dom().contains(id) ==> id == relation_id(
            store.relations[id].relation_type,
            store.relations[id].from_identifier,
            store.relations[id].to_identifier,
        )
}

proof fn lemma_still_resolved(store: StoreView, next: StoreView, identifier: Seq<char>)
    requires
        next.pages == store.pages,
        next.sources == store.sources,
        next.spans == store.spans,
    ensures
        resolved(next, identifier) == resolved(store, identifier),
{
    let name = behind(node_candidate(text::trimmed(identifier)), "source:"@)->0;
    assert(source_named(next, name) == source_named(store, name));
}

proof fn lemma_none_listed(store: StoreView, from: Seq<char>, to: Seq<char>, relation_type: Seq<char>)
    requires
        relations_filed(store),
        !store.relations.dom().contains(relation_id(relation_type, from, to)),
    ensures
        relations_listed(store, Some(from), Some(to), Some(relation_type)).len() == 0,
{
    let wanted = wanted_keys(store.relations, Some(from), Some(to), Some(relation_type));
    assert forall|key: RelationKeyView| !wanted.contains(key) by {
        let id = key.rest.third;
        assert(store.relations.dom().contains(id) ==> relation_id(
            store.relations[id].relation_type,
            store.relations[id].from_identifier,
            store.relations[id].to_identifier,
        ) == id);
    }
    let none = Seq::<RelationKeyView>::empty();
    assert(none.to_set() =~= wanted);
    table::lemma_ordered_is::<RelationKey>(none, wanted);
}

proof fn lemma_one_listed(store: StoreView, from: Seq<char>, to: Seq<char>, relation_type: Seq<char>)
    requires
        relations_filed(store),
        ({
            let id = relation_id(relation_type, from, to);
            &&& store.relations.dom().contains(id)
            &&& store.relations[id].relation_type == relation_type
            &&& store.relations[id].from_identifier == from
            &&& store.relations[id].to_identifier == to
        }),
    ensures
        ({
            let id = relation_id(relation_type, from, to);
            relations_listed(store, Some(from), Some(to), Some(relation_type)) == seq![
                relation_shown(id, store.relations[id]),
            ]
        }),
{
    let id = relation_id(relation_type, from, to);
    let wanted = wanted_keys(store.relations, Some(from), Some(to), Some(relation_type));
    let one = relation_key(id, store.relations[id]);
    let all = seq![one];
    assert forall|key: RelationKeyView| wanted.contains(key) implies key == one by {
        let other = key.rest.third;
        assert(store.relations.dom().contains(other));
    }
    assert(all[0] == one);
    assert(all.to_set() =~= wanted);
    table::lemma_ordered_is::<RelationKey>(all, wanted);
    assert(relations_listed(store, Some(from), Some(to), Some(relation_type)) =~= seq![
        relation_shown(id, store.relations[id]),
    ]);
}

/// A relation that was stated is listed under its type and its ends, unless another one has
/// its identifier. It can be taken back; then none is listed under them, the store holds the
/// relations that it held without it, and to take it back once more is refused. A reason is
/// asked for.
pub proof fn law_stated_can_be_retracted(
    store: StoreView,
    s: StatementView,
    reason: Seq<char>,
    now: Seq<char>,
    revision: Seq<char>,
    later: Seq<char>,
    next_revision: Seq<char>,
    limit: nat,
)
    requires
        relations_filed(store),
        limit > 0,
    ensures
        stated(store, s, now, revision) matches Ok(done) ==> {
            let from = resolved(store, s.from)->Ok_0;
            let to = resolved(store, s.to)->Ok_0;
            let id = relation_id(s.relation_type, from, to);
            let held = done.store.relations[id];
            &&& relations_filed(done.store)
            &&& held.relation_type == s.relation_type && held.from_identifier == from
                && held.to_identifier == to ==> list_goal(
                done.store,
                Some(s.from),
                Some(s.to),
                Some(s.relation_type),
                limit,
            ) == Ok::<Seq<RelationRecordView>, AppErrorView>(seq![relation_shown(id, held)])
            &&& text::trimmed(reason).len() > 0 && done.store.operation_sequence < i64::MAX ==> {
                &&& retracted(
                    done.store,
                    s.from,
                    s.relation_type,
                    s.to,
                    reason,
                    later,
                    next_revision,
                ) matches Ok(back)
                &&& back.identifier == id
                &&& back.store.relations == store.relations.remove(id)
                &&& relations_filed(back.store)
                &&& list_goal(
                    back.store,
                    Some(s.from),
                    Some(s.to),
                    Some(s.relation_type),
                    limit,
                ) == Ok::<Seq<RelationRecordView>, AppErrorView>(Seq::empty())
                &&& retracted(
                    back.store,
                    s.from,
                    s.relation_type,
                    s.to,
                    reason,
                    later,
                    next_revision,
                ) matches Err(e)
                &&& e.code == ErrorCode::SemanticRelationNotFound
            }
        },
        text::trimmed(reason).len() == 0 ==> {
            &&& retracted(
                store,
                s.from,
                s.relation_type,
                s.to,
                reason,
                later,
                next_revision,
            ) matches Err(e)
            &&& e.code == ErrorCode::InvalidInput
        },
{
    if let Ok(done) = stated(store, s, now, revision) {
        let from = resolved(store, s.from)->Ok_0;
        let to = resolved(store, s.to)->Ok_0;
        let id = relation_id(s.relation_type, from, to);
        lemma_still_resolved(store, done.store, s.from);
        lemma_still_resolved(store, done.store, s.to);
        assert(done.store.relations.remove(id) =~= store.relations.remove(id));
        assert forall|other: Seq<char>| #[trigger]
            done.store.relations.dom().contains(other) implies other == relation_id(
            done.store.relations[other].relation_type,
            done.store.relations[other].from_identifier,
            done.store.relations[other].to_identifier,
        ) by {
            if other != id {
                assert(store.relations.dom().contains(other));
            } else if store.relations.dom().contains(id) {
                assert(done.store.relations[id].relation_type == store.relations[id].relation_type);
            }
        }
        let held = done.store.relations[id];
        if held.relation_type == s.relation_type && held.from_identifier == from
            && held.to_identifier == to {
            lemma_one_listed(done.store, from, to, s.relation_type);
            let listed = relations_listed(done.store, Some(from), Some(to), Some(s.relation_type));
            assert(listed.subrange(0, 1) =~= listed);
        }
        reveal_strlit("store_revision");
        reveal_strlit("changeset_frozen");
        assert("store_revision"@.len() == 14 && "changeset_frozen"@.len() == 16);
        if let Ok(back) = retracted(
            done.store,
            s.from,
            s.relation_type,
            s.to,
            reason,
            later,
            next_revision,
        ) {
            lemma_still_resolved(store, back.store, s.from);
            lemma_still_resolved(store, back.store, s.to);
            assert forall|other: Seq<char>| #[trigger]
                back.store.relations.dom().contains(other) implies other == relation_id(
                back.store.relations[other].relation_type,
                back.store.relations[other].from_identifier,
                back.store.relations[other].to_identifier,
            ) by {
                assert(store.relations.dom().contains(other));
            }
            lemma_none_listed(back.store, from, to, s.relation_type);
        }
    }
}

/// The same as requests put it: the type of the relation may be said in other letters and with
/// blanks around it. Without a reason nothing is taken back. That holds of types in ASCII; of
/// others where both have one upper case.
pub proof fn law_requests_for_relations_undo(
    store: StoreView,
    s: StatementView,
    again: Seq<char>,
    reason: Seq<char>,
    now: Seq<char>,
    revision: Seq<char>,
    later: Seq<char>,
    next_revision: Seq<char>,
    limit: nat,
)
    requires
        relations_filed(store),
        limit > 0,
        all_ascii(text::trimmed(s.relation_type)) || plain_type(again) == plain_type(
            s.relation_type,
        ),
        same_but_for_case(text::trimmed(again), text::trimmed(s.relation_type)),
    ensures
        stated(store, plain_statement(s), now, revision) matches Ok(done) ==> {
            let again = plain_type(again);
            &&& text::trimmed(reason).len() == 0 ==> {
                &&& retracted(
                    done.store,
                    s.from,
                    again,
                    s.to,
                    reason,
                    later,
                    next_revision,
                ) matches Err(e)
                &&& e.code == ErrorCode::InvalidInput
            }
            &&& text::trimmed(reason).len() > 0 && done.store.operation_sequence < i64::MAX ==> {
                &&& retracted(
                    done.store,
                    s.from,
                    again,
                    s.to,
                    reason,
                    later,
                    next_revision,
                ) matches Ok(back)
                &&& back.store.relations == store.relations.remove(back.identifier)
                &&& list_goal(
                    back.store,
                    Some(s.from),
                    Some(s.to),
                    Some(plain_type(s.relation_type)),
                    limit,
                ) == Ok::<Seq<RelationRecordView>, AppErrorView>(Seq::empty())
                &&& retracted(
                    back.store,
                    s.from,
                    again,
                    s.to,
                    reason,
                    later,
                    next_revision,
                ) matches Err(e)
                &&& e.code == ErrorCode::SemanticRelationNotFound
            }
        },
{
    if all_ascii(text::trimmed(s.relation_type)) {
        lemma_plain_type(s.relation_type, again);
    }
    if text::trimmed(reason).len() > 0 {
        law_stated_can_be_retracted(
            store,
            plain_statement(s),
            reason,
            now,
            revision,
            later,
            next_revision,
            limit,
        );
    }
}

} // verus!
