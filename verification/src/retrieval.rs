//! What people and agents say of the answers to queries: weights of documents, and
//! feedback on them for one query.
use crate::digest;
use crate::digest::sha256;
use crate::error;
use crate::error::{AppError, AppErrorView, ErrorCode};
use crate::json;
use crate::json::{Json, JsonView};
use crate::pages;
use crate::rows::{FeedbackKey, FeedbackKeyView, FeedbackRow, FeedbackView, WeightRow, WeightView};
use crate::sources::source_missing_error;
use crate::store;
use crate::store::{Store, StoreView};
use crate::table;
use crate::table::{Pair, PairView, Record, Table, TableKey, Triple, TripleView};
use crate::text;
use crate::text::{decimal_text, join2, join3, owned, parse_i64, same_text, trim};
use vstd::prelude::*;
use vstd::utf8;

verus! {

// ---------------------------------------------------------------------------
// Checks
// ---------------------------------------------------------------------------

pub open spec fn weight_checked(weight: i32) -> Result<(), AppErrorView> {
    if weight == -2 || weight == -1 || weight == 1 || weight == 2 {
        Ok(())
    } else {
        error::refused(ErrorCode::InvalidWeight, "weight must be one of -2, -1, 1, or 2"@)
    }
}

fn validate_retrieval_weight(weight: i32) -> (r: Result<(), AppError>)
    ensures
        error::outcome(r) == weight_checked(weight),
{
    if weight == -2 || weight == -1 || weight == 1 || weight == 2 {
        Ok(())
    } else {
        Err(AppError::new(ErrorCode::InvalidWeight, "weight must be one of -2, -1, 1, or 2"))
    }
}

pub open spec fn signal_checked(signal: i32) -> Result<(), AppErrorView> {
    if signal == -1 || signal == 1 {
        Ok(())
    } else {
        error::refused(
            ErrorCode::InvalidFeedback,
            "feedback signal must be relevant or irrelevant"@,
        )
    }
}

pub open spec fn provenance_checked(provenance: Seq<char>) -> Result<(), AppErrorView> {
    if provenance == "user-provided"@ || provenance == "agent-observed"@ {
        Ok(())
    } else {
        error::refused(
            ErrorCode::InvalidProvenance,
            "retrieval provenance must be user-provided or agent-observed"@,
        )
    }
}

fn validate_retrieval_provenance(provenance: &str) -> (r: Result<(), AppError>)
    ensures
        error::outcome(r) == provenance_checked(provenance@),
{
    if same_text(provenance, "user-provided") || same_text(provenance, "agent-observed") {
        Ok(())
    } else {
        Err(
            AppError::new(
                ErrorCode::InvalidProvenance,
                "retrieval provenance must be user-provided or agent-observed",
            ),
        )
    }
}

pub open spec fn reason_checked(reason: Seq<char>) -> Result<(), AppErrorView> {
    if text::trimmed(reason).len() == 0 {
        error::refused(ErrorCode::InvalidInput, "retrieval adjustment reason must not be empty"@)
    } else {
        Ok(())
    }
}

fn validate_nonempty_reason(reason: &str) -> (r: Result<(), AppError>)
    ensures
        error::outcome(r) == reason_checked(reason@),
{
    if text::chars_of(trim(reason).as_str()).len() == 0 {
        Err(
            AppError::new(
                ErrorCode::InvalidInput,
                "retrieval adjustment reason must not be empty",
            ),
        )
    } else {
        Ok(())
    }
}

/// The identifier of a page or a source of the store, in its plain form.
pub open spec fn target_of(store: StoreView, target_type: Seq<char>, identifier: Seq<char>) -> Result<
    Seq<char>,
    AppErrorView,
> {
    if target_type == "page"@ {
        if store.pages.dom().contains(identifier) {
            Ok(identifier)
        } else {
            Err(pages::page_missing(identifier))
        }
    } else if target_type == "source"@ {
        match text::reads_as_i64(identifier) {
            None => error::refused(
                ErrorCode::InvalidInput,
                "source identifier must be an integer: "@ + identifier,
            ),
            Some(id) => if store.sources.dom().contains(id as i64) {
                Ok(text::decimal(id))
            } else {
                Err(pages::source_missing(id as i64))
            },
        }
    } else {
        error::refused(
            ErrorCode::InvalidInput,
            "retrieval target type must be page or source"@,
        )
    }
}

fn normalize_retrieval_target(live: &Store, target_type: &str, identifier: &str) -> (r: Result<
    String,
    AppError,
>)
    ensures
        error::outcome(r) == target_of(live@, target_type@, identifier@),
{
    if same_text(target_type, "page") {
        if live.pages.has(&owned(identifier)) {
            return Ok(owned(identifier));
        }
        return Err(
            AppError::new(
                ErrorCode::PageNotFound,
                join2("page not found: ", identifier).as_str(),
            ),
        );
    }
    if same_text(target_type, "source") {
        return match parse_i64(identifier) {
            None => Err(
                AppError::new(
                    ErrorCode::InvalidInput,
                    join2("source identifier must be an integer: ", identifier).as_str(),
                ),
            ),
            Some(id) => {
                if live.sources.has(&id) {
                    Ok(decimal_text(id))
                } else {
                    Err(source_missing_error(id))
                }
            },
        };
    }
    Err(
        AppError::new(
            ErrorCode::InvalidInput,
            "retrieval target type must be page or source",
        ),
    )
}

/// The bytes of the first `count` terms of a query, each apart from the next by 0x1f.
pub open spec fn query_bytes(tokens: Seq<Seq<char>>, count: nat) -> Seq<u8>
    decreases count,
{
    if count == 0 || count > tokens.len() {
        Seq::empty()
    } else if count == 1 {
        utf8::encode_utf8(tokens[0])
    } else {
        query_bytes(tokens, (count - 1) as nat).push(0x1fu8) + utf8::encode_utf8(tokens[count - 1])
    }
}

/// The digest of the terms of a query.
pub open spec fn query_mark(tokens: Seq<Seq<char>>) -> Seq<char> {
    digest::sha256_hex(query_bytes(tokens, tokens.len()))
}

fn push_bytes(out: &mut Vec<u8>, more: &[u8])
    ensures
        final(out)@ == old(out)@ + more@,
{
    let ghost start = out@;
    let mut i: usize = 0;
    assert(start + more@.take(0) =~= start);
    while i < more.len()
        invariant
            i <= more@.len(),
            out@ =~= start + more@.take(i as int),
        decreases more@.len() - i,
    {
        assert(more@.take(i + 1) =~= more@.take(i as int).push(more@[i as int]));
        out.push(more[i]);
        i += 1;
    }
    assert(more@.take(i as int) =~= more@);
}

/// The digest of the terms of a query.
pub fn query_fingerprint(tokens: &Vec<String>) -> (r: String)
    ensures
        r@ == query_mark(text::views(tokens@)),
{
    let ghost all = text::views(tokens@);
    let mut out: Vec<u8> = Vec::new();
    let mut i: usize = 0;
    while i < tokens.len()
        invariant
            i <= tokens@.len() == all.len(),
            all == text::views(tokens@),
            out@ == query_bytes(all, i as nat),
        decreases tokens@.len() - i,
    {
        assert(all[i as int] == tokens@[i as int]@);
        if i > 0 {
            out.push(0x1f);
        }
        push_bytes(&mut out, tokens[i].as_str().as_bytes());
        assert(out@ =~= query_bytes(all, (i + 1) as nat));
        i += 1;
    }
    sha256(out.as_slice())
}

/// The digest of the terms of a query that has some.
pub open spec fn query_checked(tokens: Seq<Seq<char>>) -> Result<Seq<char>, AppErrorView> {
    if tokens.len() == 0 {
        error::refused(ErrorCode::InvalidQuery, "feedback query must contain searchable terms"@)
    } else {
        Ok(query_mark(tokens))
    }
}

fn check_query(tokens: &Vec<String>) -> (r: Result<String, AppError>)
    ensures
        error::outcome(r) == query_checked(text::views(tokens@)),
{
    if tokens.len() == 0 {
        return Err(
            AppError::new(
                ErrorCode::InvalidQuery,
                "feedback query must contain searchable terms",
            ),
        );
    }
    Ok(query_fingerprint(tokens))
}

// ---------------------------------------------------------------------------
// Weights
// ---------------------------------------------------------------------------

/// The weight of a document, by who gave it.
pub struct RetrievalAdjustment {
    pub target_type: String,
    pub target_identifier: String,
    pub provenance: String,
    pub weight: i32,
    pub reason: String,
    pub updated_at: String,
}

#[verifier::ext_equal]
pub struct AdjustmentView {
    pub target_type: Seq<char>,
    pub target_identifier: Seq<char>,
    pub provenance: Seq<char>,
    pub weight: i32,
    pub reason: Seq<char>,
    pub updated_at: Seq<char>,
}

impl View for RetrievalAdjustment {
    type V = AdjustmentView;

    open spec fn view(&self) -> AdjustmentView {
        AdjustmentView {
            target_type: self.target_type@,
            target_identifier: self.target_identifier@,
            provenance: self.provenance@,
            weight: self.weight,
            reason: self.reason@,
            updated_at: self.updated_at@,
        }
    }
}

impl Record for RetrievalAdjustment {
    fn duplicate(&self) -> (r: Self) {
        RetrievalAdjustment {
            target_type: owned(self.target_type.as_str()),
            target_identifier: owned(self.target_identifier.as_str()),
            provenance: owned(self.provenance.as_str()),
            weight: self.weight,
            reason: owned(self.reason.as_str()),
            updated_at: owned(self.updated_at.as_str()),
        }
    }

    fn same(&self, other: &Self) -> (r: bool) {
        same_text(self.target_type.as_str(), other.target_type.as_str())
            && same_text(self.target_identifier.as_str(), other.target_identifier.as_str())
            && same_text(self.provenance.as_str(), other.provenance.as_str())
            && self.weight == other.weight
            && same_text(self.reason.as_str(), other.reason.as_str())
            && same_text(self.updated_at.as_str(), other.updated_at.as_str())
    }
}

/// The weight that a document was given.
pub struct RetrievalWeightResponse {
    pub scope: String,
    pub database: String,
    pub adjustment: RetrievalAdjustment,
}

/// The weights of a document, the one that counts first.
pub struct RetrievalWeightListResponse {
    pub scope: String,
    pub database: String,
    pub effective: Option<RetrievalAdjustment>,
    pub adjustments: Vec<RetrievalAdjustment>,
}

/// Whether there was something to take away.
pub struct RetrievalClearResponse {
    pub scope: String,
    pub database: String,
    pub removed: bool,
}

pub open spec fn adjustment_of(key: TripleView, row: WeightView) -> AdjustmentView {
    AdjustmentView {
        target_type: key.first,
        target_identifier: key.second,
        provenance: key.third,
        weight: row.weight,
        reason: row.reason,
        updated_at: row.updated_at,
    }
}

/// What an operation on a document names.
pub open spec fn named(target_type: Seq<char>, identifier: Seq<char>) -> Seq<char> {
    target_type + ":"@ + identifier
}

/// The row of a weight.
pub open spec fn weight_row(weight: i32, reason: Seq<char>, now: Seq<char>) -> WeightView {
    WeightView { weight, reason: text::trimmed(reason), updated_at: now }
}

/// What giving a document a weight comes to, for a target in its plain form.
pub open spec fn weight_given(
    store: StoreView,
    key: TripleView,
    weight: i32,
    reason: Seq<char>,
    now: Seq<char>,
    revision: Seq<char>,
) -> Result<StoreView, AppErrorView> {
    store::recorded(
        StoreView {
            weights: store.weights.insert(key, weight_row(weight, reason, now)),
            ..store
        },
        "weight_set"@,
        named(key.first, key.second),
        JsonView::Object(
            seq![
                json::entry("provenance"@, JsonView::Text(key.third)),
                json::entry("reason"@, JsonView::Text(text::trimmed(reason))),
                json::entry("weight"@, JsonView::Int(weight as int)),
            ],
        ),
        now,
        revision,
    )
}

/// What giving a document a weight comes to: the key that it stands under, and the store
/// after it.
pub open spec fn weight_set_goal(
    store: StoreView,
    target_type: Seq<char>,
    identifier: Seq<char>,
    weight: i32,
    reason: Seq<char>,
    provenance: Seq<char>,
    now: Seq<char>,
    revision: Seq<char>,
) -> Result<(TripleView, StoreView), AppErrorView> {
    match weight_checked(weight) {
        Err(e) => Err(e),
        Ok(_) => match provenance_checked(provenance) {
            Err(e) => Err(e),
            Ok(_) => match reason_checked(reason) {
                Err(e) => Err(e),
                Ok(_) => match target_of(store, target_type, identifier) {
                    Err(e) => Err(e),
                    Ok(plain) => {
                        let key = table::triple(target_type, plain, provenance);
                        match weight_given(store, key, weight, reason, now, revision) {
                            Err(e) => Err(e),
                            Ok(next) => Ok((key, next)),
                        }
                    },
                },
            },
        },
    }
}

/// The weight under a key, where there is one, as a list of at most one.
pub open spec fn weight_at(store: StoreView, key: TripleView) -> Seq<AdjustmentView> {
    if store.weights.dom().contains(key) {
        seq![adjustment_of(key, store.weights[key])]
    } else {
        Seq::empty()
    }
}

/// The weights of a document: what people gave it stands before what agents did.
pub open spec fn weights_of(store: StoreView, target_type: Seq<char>, plain: Seq<char>) -> Seq<
    AdjustmentView,
> {
    weight_at(store, table::triple(target_type, plain, "user-provided"@)) + weight_at(
        store,
        table::triple(target_type, plain, "agent-observed"@),
    )
}

/// What taking a weight away comes to: whether there was one, and the store after it.
pub open spec fn weight_cleared(
    store: StoreView,
    key: TripleView,
    now: Seq<char>,
    revision: Seq<char>,
) -> Result<StoreView, AppErrorView> {
    store::recorded(
        StoreView { weights: store.weights.remove(key), ..store },
        "weight_clear"@,
        named(key.first, key.second),
        JsonView::Object(
            seq![
                json::entry("provenance"@, JsonView::Text(key.third)),
                json::entry("removed"@, JsonView::Bool(store.weights.dom().contains(key))),
            ],
        ),
        now,
        revision,
    )
}

/// What taking a weight away comes to: whether there was one, and the store after it.
pub open spec fn weight_clear_goal(
    store: StoreView,
    target_type: Seq<char>,
    identifier: Seq<char>,
    provenance: Seq<char>,
    now: Seq<char>,
    revision: Seq<char>,
) -> Result<(bool, StoreView), AppErrorView> {
    match provenance_checked(provenance) {
        Err(e) => Err(e),
        Ok(_) => match target_of(store, target_type, identifier) {
            Err(e) => Err(e),
            Ok(plain) => {
                let key = table::triple(target_type, plain, provenance);
                match weight_cleared(store, key, now, revision) {
                    Err(e) => Err(e),
                    Ok(next) => Ok((store.weights.dom().contains(key), next)),
                }
            },
        },
    }
}

fn show_adjustment(key: &Triple, row: &WeightRow) -> (r: RetrievalAdjustment)
    ensures
        r@ == adjustment_of(key@, row@),
{
    RetrievalAdjustment {
        target_type: owned(key.first.as_str()),
        target_identifier: owned(key.second.as_str()),
        provenance: owned(key.third.as_str()),
        weight: row.weight,
        reason: owned(row.reason.as_str()),
        updated_at: owned(row.updated_at.as_str()),
    }
}

impl Store {
    fn push_weight(&self, out: &mut Vec<RetrievalAdjustment>, key: Triple)
        ensures
            text::views(final(out)@) == text::views(old(out)@) + weight_at(self@, key@),
    {
        match self.weights.get(&key) {
            Some(row) => {
                let one = show_adjustment(&key, row);
                proof {
                    text::lemma_views_push(out@, one);
                    assert(text::views(out@).push(one@) =~= text::views(out@) + seq![one@]);
                }
                out.push(one);
            },
            None => {
                assert(text::views(out@) + Seq::<AdjustmentView>::empty() =~= text::views(out@));
            },
        }
    }

    /// Gives a document a weight.
    pub fn retrieval_weight_set(
        &mut self,
        target_type: &str,
        target_identifier: &str,
        weight: i32,
        reason: &str,
        provenance: &str,
        now: &str,
        revision: &str,
    ) -> (r: Result<RetrievalWeightResponse, AppError>)
        ensures
            match weight_set_goal(
                old(self)@,
                target_type@,
                target_identifier@,
                weight,
                reason@,
                provenance@,
                now@,
                revision@,
            ) {
                Ok(done) => {
                    &&& final(self)@ == done.1
                    &&& r matches Ok(got) && got.scope@ == done.1.scope && got.database@
                        == done.1.database && got.adjustment@ == adjustment_of(
                        done.0,
                        weight_row(weight, reason@, now@),
                    )
                },
                Err(e) => (r matches Err(got) && got@ == e) && final(self)@ == old(self)@,
            },
    {
        if let Err(e) = validate_retrieval_weight(weight) {
            return Err(e);
        }
        if let Err(e) = validate_retrieval_provenance(provenance) {
            return Err(e);
        }
        if let Err(e) = validate_nonempty_reason(reason) {
            return Err(e);
        }
        let plain = match normalize_retrieval_target(self, target_type, target_identifier) {
            Ok(plain) => plain,
            Err(e) => {
                return Err(e);
            },
        };
        let kept = trim(reason);
        let ghost goal = weight_given(
            self@,
            table::triple(target_type@, plain@, provenance@),
            weight,
            reason@,
            now@,
            revision@,
        );
        let mut entries: Vec<(String, Json)> = Vec::new();
        entries.push((owned("provenance"), Json::text(provenance)));
        entries.push((owned("reason"), Json::text(kept.as_str())));
        entries.push((owned("weight"), Json::Int(weight as i64)));
        assert(json::entry_views(entries@) =~= seq![
            json::entry("provenance"@, JsonView::Text(provenance@)),
            json::entry("reason"@, JsonView::Text(text::trimmed(reason@))),
            json::entry("weight"@, JsonView::Int(weight as int)),
        ]);
        let detail = Json::object(entries);
        let row = WeightRow { weight, reason: kept, updated_at: owned(now) };
        let key = Triple::new(target_type, plain.as_str(), provenance);
        let adjustment = show_adjustment(&key, &row);
        let mut next = self.duplicate();
        next.weights.put(key, row);
        let target = join3(target_type, ":", plain.as_str());
        if let Err(e) = next.record_operation("weight_set", target.as_str(), detail, now, revision) {
            return Err(e);
        }
        *self = next;
        Ok(
            RetrievalWeightResponse {
                scope: owned(self.scope.as_str()),
                database: owned(self.database.as_str()),
                adjustment,
            },
        )
    }

    /// The weights of a document, the one that counts first.
    pub fn retrieval_weight_list(&self, target_type: &str, target_identifier: &str) -> (r: Result<
        RetrievalWeightListResponse,
        AppError,
    >)
        ensures
            match target_of(self@, target_type@, target_identifier@) {
                Ok(plain) => {
                    let all = weights_of(self@, target_type@, plain);
                    r matches Ok(got) && got.scope@ == self@.scope && got.database@
                        == self@.database && text::views(got.adjustments@) == all && text::opt_view(
                        got.effective,
                    ) == (if all.len() > 0 {
                        Some(all[0])
                    } else {
                        None
                    })
                },
                Err(e) => r matches Err(got) && got@ == e,
            },
    {
        let plain = match normalize_retrieval_target(self, target_type, target_identifier) {
            Ok(plain) => plain,
            Err(e) => {
                return Err(e);
            },
        };
        let mut adjustments: Vec<RetrievalAdjustment> = Vec::new();
        assert(text::views(adjustments@) =~= Seq::empty());
        self.push_weight(
            &mut adjustments,
            Triple::new(target_type, plain.as_str(), "user-provided"),
        );
        self.push_weight(
            &mut adjustments,
            Triple::new(target_type, plain.as_str(), "agent-observed"),
        );
        assert(text::views(adjustments@) =~= weights_of(self@, target_type@, plain@));
        assert(text::views(adjustments@).len() == adjustments@.len());
        let effective = if adjustments.len() > 0 {
            assert(text::views(adjustments@)[0] == adjustments@[0]@);
            Some(adjustments[0].duplicate())
        } else {
            None
        };
        Ok(
            RetrievalWeightListResponse {
                scope: owned(self.scope.as_str()),
                database: owned(self.database.as_str()),
                effective,
                adjustments,
            },
        )
    }

    /// Takes the weight of a document away.
    pub fn retrieval_weight_clear(
        &mut self,
        target_type: &str,
        target_identifier: &str,
        provenance: &str,
        now: &str,
        revision: &str,
    ) -> (r: Result<RetrievalClearResponse, AppError>)
        ensures
            match weight_clear_goal(
                old(self)@,
                target_type@,
                target_identifier@,
                provenance@,
                now@,
                revision@,
            ) {
                Ok(done) => {
                    &&& final(self)@ == done.1
                    &&& r matches Ok(got) && got.scope@ == done.1.scope && got.database@
                        == done.1.database && got.removed == done.0
                },
                Err(e) => (r matches Err(got) && got@ == e) && final(self)@ == old(self)@,
            },
    {
        if let Err(e) = validate_retrieval_provenance(provenance) {
            return Err(e);
        }
        let plain = match normalize_retrieval_target(self, target_type, target_identifier) {
            Ok(plain) => plain,
            Err(e) => {
                return Err(e);
            },
        };
        let key = Triple::new(target_type, plain.as_str(), provenance);
        let mut next = self.duplicate();
        let removed = next.weights.remove(&key);
        assert(self@.weights.dom().contains(key@) || self@.weights.remove(key@)
            =~= self@.weights);
        let detail = Json::object2(
            "provenance",
            Json::text(provenance),
            "removed",
            Json::Bool(removed),
        );
        let target = join3(target_type, ":", plain.as_str());
        if let Err(e) = next.record_operation(
            "weight_clear",
            target.as_str(),
            detail,
            now,
            revision,
        ) {
            return Err(e);
        }
        *self = next;
        Ok(
            RetrievalClearResponse {
                scope: owned(self.scope.as_str()),
                database: owned(self.database.as_str()),
                removed,
            },
        )
    }
}

// ---------------------------------------------------------------------------
// Feedback
// ---------------------------------------------------------------------------

/// Feedback on a document for a query.
pub struct RetrievalFeedbackResponse {
    pub scope: String,
    pub database: String,
    pub query_fingerprint: String,
    pub target_type: String,
    pub target_identifier: String,
    pub provenance: String,
    pub signal: String,
    pub reason: String,
    pub updated_at: String,
}

#[verifier::ext_equal]
pub struct FeedbackShownView {
    pub scope: Seq<char>,
    pub database: Seq<char>,
    pub query_fingerprint: Seq<char>,
    pub target_type: Seq<char>,
    pub target_identifier: Seq<char>,
    pub provenance: Seq<char>,
    pub signal: Seq<char>,
    pub reason: Seq<char>,
    pub updated_at: Seq<char>,
}

impl View for RetrievalFeedbackResponse {
    type V = FeedbackShownView;

    open spec fn view(&self) -> FeedbackShownView {
        FeedbackShownView {
            scope: self.scope@,
            database: self.database@,
            query_fingerprint: self.query_fingerprint@,
            target_type: self.target_type@,
            target_identifier: self.target_identifier@,
            provenance: self.provenance@,
            signal: self.signal@,
            reason: self.reason@,
            updated_at: self.updated_at@,
        }
    }
}

pub open spec fn feedback_key(query: Seq<char>, target: TripleView) -> FeedbackKeyView {
    FeedbackKeyView { query, target }
}

pub open spec fn feedback_row(signal: i32, reason: Seq<char>, now: Seq<char>) -> FeedbackView {
    FeedbackView { signal, reason: text::trimmed(reason), updated_at: now }
}

pub open spec fn shown_feedback(
    store: StoreView,
    key: FeedbackKeyView,
    row: FeedbackView,
) -> FeedbackShownView {
    FeedbackShownView {
        scope: store.scope,
        database: store.database,
        query_fingerprint: key.query,
        target_type: key.target.first,
        target_identifier: key.target.second,
        provenance: key.target.third,
        signal: if row.signal > 0 {
            "relevant"@
        } else {
            "irrelevant"@
        },
        reason: row.reason,
        updated_at: row.updated_at,
    }
}

/// What giving feedback comes to, for a target in its plain form.
pub open spec fn feedback_given(
    store: StoreView,
    key: FeedbackKeyView,
    signal: i32,
    reason: Seq<char>,
    now: Seq<char>,
    revision: Seq<char>,
) -> Result<StoreView, AppErrorView> {
    store::recorded(
        StoreView {
            feedback: store.feedback.insert(key, feedback_row(signal, reason, now)),
            ..store
        },
        "weight_feedback"@,
        named(key.target.first, key.target.second),
        JsonView::Object(
            seq![
                json::entry("provenance"@, JsonView::Text(key.target.third)),
                json::entry("query_fingerprint"@, JsonView::Text(key.query)),
                json::entry("reason"@, JsonView::Text(text::trimmed(reason))),
                json::entry("signal"@, JsonView::Int(signal as int)),
            ],
        ),
        now,
        revision,
    )
}

/// What giving feedback comes to: the key that it stands under, and the store after it.
pub open spec fn feedback_set_goal(
    store: StoreView,
    target_type: Seq<char>,
    identifier: Seq<char>,
    tokens: Seq<Seq<char>>,
    signal: i32,
    reason: Seq<char>,
    provenance: Seq<char>,
    now: Seq<char>,
    revision: Seq<char>,
) -> Result<(FeedbackKeyView, StoreView), AppErrorView> {
    match signal_checked(signal) {
        Err(e) => Err(e),
        Ok(_) => match provenance_checked(provenance) {
            Err(e) => Err(e),
            Ok(_) => match reason_checked(reason) {
                Err(e) => Err(e),
                Ok(_) => match query_checked(tokens) {
                    Err(e) => Err(e),
                    Ok(query) => match target_of(store, target_type, identifier) {
                        Err(e) => Err(e),
                        Ok(plain) => {
                            let key = feedback_key(
                                query,
                                table::triple(target_type, plain, provenance),
                            );
                            match feedback_given(store, key, signal, reason, now, revision) {
                                Err(e) => Err(e),
                                Ok(next) => Ok((key, next)),
                            }
                        },
                    },
                },
            },
        },
    }
}

/// What taking feedback away comes to, for a target in its plain form.
pub open spec fn feedback_cleared(
    store: StoreView,
    key: FeedbackKeyView,
    now: Seq<char>,
    revision: Seq<char>,
) -> Result<StoreView, AppErrorView> {
    store::recorded(
        StoreView { feedback: store.feedback.remove(key), ..store },
        "weight_feedback_clear"@,
        named(key.target.first, key.target.second),
        JsonView::Object(
            seq![
                json::entry("provenance"@, JsonView::Text(key.target.third)),
                json::entry("query_fingerprint"@, JsonView::Text(key.query)),
                json::entry("removed"@, JsonView::Bool(store.feedback.dom().contains(key))),
            ],
        ),
        now,
        revision,
    )
}

/// What taking feedback away comes to: whether there was some, and the store after it.
pub open spec fn feedback_clear_goal(
    store: StoreView,
    target_type: Seq<char>,
    identifier: Seq<char>,
    tokens: Seq<Seq<char>>,
    provenance: Seq<char>,
    now: Seq<char>,
    revision: Seq<char>,
) -> Result<(bool, StoreView), AppErrorView> {
    match provenance_checked(provenance) {
        Err(e) => Err(e),
        Ok(_) => match query_checked(tokens) {
            Err(e) => Err(e),
            Ok(query) => match target_of(store, target_type, identifier) {
                Err(e) => Err(e),
                Ok(plain) => {
                    let key = feedback_key(query, table::triple(target_type, plain, provenance));
                    match feedback_cleared(store, key, now, revision) {
                        Err(e) => Err(e),
                        Ok(next) => Ok((store.feedback.dom().contains(key), next)),
                    }
                },
            },
        },
    }
}

impl Store {
    /// Keeps feedback on a document for a query, given by its terms.
    pub fn retrieval_feedback_set(
        &mut self,
        target_type: &str,
        target_identifier: &str,
        tokens: &Vec<String>,
        signal: i32,
        reason: &str,
        provenance: &str,
        now: &str,
        revision: &str,
    ) -> (r: Result<RetrievalFeedbackResponse, AppError>)
        ensures
            match feedback_set_goal(
                old(self)@,
                target_type@,
                target_identifier@,
                text::views(tokens@),
                signal,
                reason@,
                provenance@,
                now@,
                revision@,
            ) {
                Ok(done) => {
                    &&& final(self)@ == done.1
                    &&& r matches Ok(got) && got@ == shown_feedback(
                        done.1,
                        done.0,
                        feedback_row(signal, reason@, now@),
                    )
                },
                Err(e) => (r matches Err(got) && got@ == e) && final(self)@ == old(self)@,
            },
    {
        if signal != -1 && signal != 1 {
            return Err(
                AppError::new(
                    ErrorCode::InvalidFeedback,
                    "feedback signal must be relevant or irrelevant",
                ),
            );
        }
        if let Err(e) = validate_retrieval_provenance(provenance) {
            return Err(e);
        }
        if let Err(e) = validate_nonempty_reason(reason) {
            return Err(e);
        }
        let query = match check_query(tokens) {
            Ok(query) => query,
            Err(e) => {
                return Err(e);
            },
        };
        let plain = match normalize_retrieval_target(self, target_type, target_identifier) {
            Ok(plain) => plain,
            Err(e) => {
                return Err(e);
            },
        };
        let kept = trim(reason);
        let mut entries: Vec<(String, Json)> = Vec::new();
        entries.push((owned("provenance"), Json::text(provenance)));
        entries.push((owned("query_fingerprint"), Json::text(query.as_str())));
        entries.push((owned("reason"), Json::text(kept.as_str())));
        entries.push((owned("signal"), Json::Int(signal as i64)));
        assert(json::entry_views(entries@) =~= seq![
            json::entry("provenance"@, JsonView::Text(provenance@)),
            json::entry("query_fingerprint"@, JsonView::Text(query@)),
            json::entry("reason"@, JsonView::Text(text::trimmed(reason@))),
            json::entry("signal"@, JsonView::Int(signal as int)),
        ]);
        let detail = Json::object(entries);
        let key = FeedbackKey {
            query: owned(query.as_str()),
            target: Triple::new(target_type, plain.as_str(), provenance),
        };
        let row = FeedbackRow { signal, reason: owned(kept.as_str()), updated_at: owned(now) };
        let mut next = self.duplicate();
        next.feedback.put(key, row);
        let target = join3(target_type, ":", plain.as_str());
        if let Err(e) = next.record_operation(
            "weight_feedback",
            target.as_str(),
            detail,
            now,
            revision,
        ) {
            return Err(e);
        }
        *self = next;
        Ok(
            RetrievalFeedbackResponse {
                scope: owned(self.scope.as_str()),
                database: owned(self.database.as_str()),
                query_fingerprint: query,
                target_type: owned(target_type),
                target_identifier: plain,
                provenance: owned(provenance),
                signal: if signal > 0 {
                    owned("relevant")
                } else {
                    owned("irrelevant")
                },
                reason: kept,
                updated_at: owned(now),
            },
        )
    }

    /// Takes feedback on a document for a query away.
    pub fn retrieval_feedback_clear(
        &mut self,
        target_type: &str,
        target_identifier: &str,
        tokens: &Vec<String>,
        provenance: &str,
        now: &str,
        revision: &str,
    ) -> (r: Result<RetrievalClearResponse, AppError>)
        ensures
            match feedback_clear_goal(
                old(self)@,
                target_type@,
                target_identifier@,
                text::views(tokens@),
                provenance@,
                now@,
                revision@,
            ) {
                Ok(done) => {
                    &&& final(self)@ == done.1
                    &&& r matches Ok(got) && got.scope@ == done.1.scope && got.database@
                        == done.1.database && got.removed == done.0
                },
                Err(e) => (r matches Err(got) && got@ == e) && final(self)@ == old(self)@,
            },
    {
        if let Err(e) = validate_retrieval_provenance(provenance) {
            return Err(e);
        }
        let query = match check_query(tokens) {
            Ok(query) => query,
            Err(e) => {
                return Err(e);
            },
        };
        let plain = match normalize_retrieval_target(self, target_type, target_identifier) {
            Ok(plain) => plain,
            Err(e) => {
                return Err(e);
            },
        };
        let key = FeedbackKey {
            query: owned(query.as_str()),
            target: Triple::new(target_type, plain.as_str(), provenance),
        };
        let mut next = self.duplicate();
        let removed = next.feedback.remove(&key);
        assert(self@.feedback.dom().contains(key@) || self@.feedback.remove(key@)
            =~= self@.feedback);
        let mut entries: Vec<(String, Json)> = Vec::new();
        entries.push((owned("provenance"), Json::text(provenance)));
        entries.push((owned("query_fingerprint"), Json::text(query.as_str())));
        entries.push((owned("removed"), Json::Bool(removed)));
        assert(json::entry_views(entries@) =~= seq![
            json::entry("provenance"@, JsonView::Text(provenance@)),
            json::entry("query_fingerprint"@, JsonView::Text(query@)),
            json::entry("removed"@, JsonView::Bool(removed)),
        ]);
        let detail = Json::object(entries);
        let target = join3(target_type, ":", plain.as_str());
        if let Err(e) = next.record_operation(
            "weight_feedback_clear",
            target.as_str(),
            detail,
            now,
            revision,
        ) {
            return Err(e);
        }
        *self = next;
        Ok(
            RetrievalClearResponse {
                scope: owned(self.scope.as_str()),
                database: owned(self.database.as_str()),
                removed,
            },
        )
    }
}

// ---------------------------------------------------------------------------
// What counts
// ---------------------------------------------------------------------------

pub open spec fn by_people(document: PairView) -> TripleView {
    table::triple(document.first, document.second, "user-provided"@)
}

pub open spec fn by_agents(document: PairView) -> TripleView {
    table::triple(document.first, document.second, "agent-observed"@)
}

/// The weight that counts of each document that has one: what people gave it goes before
/// what agents did.
pub open spec fn effective_weights(store: StoreView) -> Map<PairView, i32> {
    Map::new(
        |document: PairView|
            store.weights.dom().contains(by_people(document)) || store.weights.dom().contains(
                by_agents(document),
            ),
        |document: PairView|
            if store.weights.dom().contains(by_people(document)) {
                store.weights[by_people(document)].weight
            } else {
                store.weights[by_agents(document)].weight
            },
    )
}

/// The feedback that counts of each document that got some for a query.
pub open spec fn effective_feedback(store: StoreView, query: Seq<char>) -> Map<PairView, i32> {
    Map::new(
        |document: PairView|
            store.feedback.dom().contains(feedback_key(query, by_people(document)))
                || store.feedback.dom().contains(feedback_key(query, by_agents(document))),
        |document: PairView|
            if store.feedback.dom().contains(feedback_key(query, by_people(document))) {
                store.feedback[feedback_key(query, by_people(document))].signal
            } else {
                store.feedback[feedback_key(query, by_agents(document))].signal
            },
    )
}

/// A number, as a value of a table.
pub struct Signal {
    pub value: i32,
}

impl View for Signal {
    type V = i32;

    open spec fn view(&self) -> i32 {
        self.value
    }
}

impl Store {
    /// The weight that counts of each document that has one.
    pub fn load_effective_weights(&self) -> (r: Table<Pair, Signal>)
        ensures
            r@ == effective_weights(self@),
    {
        let n = self.weights.len();
        let ghost keys = self.weights.keys();
        let ghost goal = effective_weights(self@);
        let mut out: Table<Pair, Signal> = Table::new();
        let mut i: usize = 0;
        while i < n
            invariant
                i <= n == keys.len(),
                keys == self.weights.keys(),
                goal == effective_weights(self@),
                forall|d: PairView| #[trigger]
                    out@.dom().contains(d) == (keys.take(i as int).contains(by_people(d))
                        || keys.take(i as int).contains(by_agents(d))),
                forall|d: PairView| #[trigger]
                    out@.dom().contains(d) ==> out@[d] == goal[d],
            decreases n - i,
        {
            let key = self.weights.key_at(i);
            proof {
                table::lemma_take_more(keys, i as int);
                lemma_keys(self.weights.keys(), self@.weights.dom());
            }
            let document = Pair::new(key.first.as_str(), key.second.as_str());
            let people = Triple::new(key.first.as_str(), key.second.as_str(), "user-provided");
            let agents = Triple::new(key.first.as_str(), key.second.as_str(), "agent-observed");
            if key.is_same(&people) || key.is_same(&agents) {
                let value = match self.weights.get(&people) {
                    Some(row) => row.weight,
                    None => self.weights.value_at(i).weight,
                };
                out.put(document, Signal { value });
            }
            proof {
                assert forall|d: PairView| #[trigger] out@.dom().contains(d) == (keys.take(
                    i + 1,
                ).contains(by_people(d)) || keys.take(i + 1).contains(by_agents(d))) by {
                    assert(keys[i as int] == by_people(d) ==> d =~= document@);
                    assert(keys[i as int] == by_agents(d) ==> d =~= document@);
                }
            }
            i += 1;
        }
        proof {
            assert(keys.take(n as int) =~= keys);
            lemma_keys(self.weights.keys(), self@.weights.dom());
            assert(out@ =~= goal);
        }
        out
    }

    /// The feedback that counts of each document that got some for a query.
    pub fn load_effective_feedback(&self, fingerprint: &str) -> (r: Table<Pair, Signal>)
        ensures
            r@ == effective_feedback(self@, fingerprint@),
    {
        let n = self.feedback.len();
        let ghost keys = self.feedback.keys();
        let ghost query = fingerprint@;
        let ghost goal = effective_feedback(self@, query);
        let mut out: Table<Pair, Signal> = Table::new();
        let mut i: usize = 0;
        while i < n
            invariant
                i <= n == keys.len(),
                keys == self.feedback.keys(),
                goal == effective_feedback(self@, query),
                query == fingerprint@,
                forall|d: PairView| #[trigger]
                    out@.dom().contains(d) == (keys.take(i as int).contains(
                        feedback_key(query, by_people(d)),
                    ) || keys.take(i as int).contains(feedback_key(query, by_agents(d)))),
                forall|d: PairView| #[trigger]
                    out@.dom().contains(d) ==> out@[d] == goal[d],
            decreases n - i,
        {
            let key = self.feedback.key_at(i);
            proof {
                table::lemma_take_more(keys, i as int);
                lemma_keys(self.feedback.keys(), self@.feedback.dom());
            }
            let first = key.target.first.as_str();
            let second = key.target.second.as_str();
            let document = Pair::new(first, second);
            let people = FeedbackKey {
                query: owned(fingerprint),
                target: Triple::new(first, second, "user-provided"),
            };
            let agents = FeedbackKey {
                query: owned(fingerprint),
                target: Triple::new(first, second, "agent-observed"),
            };
            if key.is_same(&people) || key.is_same(&agents) {
                let value = match self.feedback.get(&people) {
                    Some(row) => row.signal,
                    None => self.feedback.value_at(i).signal,
                };
                out.put(document, Signal { value });
            }
            proof {
                assert forall|d: PairView| #[trigger] out@.dom().contains(d) == (keys.take(
                    i + 1,
                ).contains(feedback_key(query, by_people(d))) || keys.take(i + 1).contains(
                    feedback_key(query, by_agents(d)),
                )) by {
                    assert(keys[i as int] == feedback_key(query, by_people(d)) ==> d
                        =~= document@);
                    assert(keys[i as int] == feedback_key(query, by_agents(d)) ==> d
                        =~= document@);
                }
            }
            i += 1;
        }
        proof {
            assert(keys.take(n as int) =~= keys);
            lemma_keys(self.feedback.keys(), self@.feedback.dom());
            assert(out@ =~= goal);
        }
        out
    }
}

proof fn lemma_keys<K>(keys: Seq<K>, members: Set<K>)
    requires
        keys.to_set() == members,
    ensures
        forall|k: K| #[trigger] keys.contains(k) == members.contains(k),
{
    assert forall|k: K| #[trigger] keys.contains(k) == members.contains(k) by {
        assert(keys.to_set().contains(k) == keys.contains(k));
    }
}

// ---------------------------------------------------------------------------
// Laws
// ---------------------------------------------------------------------------

/// An operation does not freeze a store.
proof fn lemma_stays_open(store: StoreView, revision: Seq<char>)
    requires
        !store::is_frozen(store),
    ensures
        !store.meta.insert("store_revision"@, revision).dom().contains("changeset_frozen"@),
{
    reveal_strlit("store_revision");
    reveal_strlit("changeset_frozen");
    assert("store_revision"@.len() == 14 && "changeset_frozen"@.len() == 16);
}

/// A weight of a document that is there can be taken away from a store that takes operations:
/// whether there was one is told, then there is none, and all others are as they were. To take
/// it away once more takes nothing away.
pub proof fn law_weight_clears(
    store: StoreView,
    target_type: Seq<char>,
    identifier: Seq<char>,
    provenance: Seq<char>,
    now: Seq<char>,
    revision: Seq<char>,
    later: Seq<char>,
    next_revision: Seq<char>,
)
    requires
        target_of(store, target_type, identifier) is Ok,
        provenance_checked(provenance) is Ok,
        !store::is_frozen(store),
        store.meta.dom().contains("store_revision"@),
        store.operation_sequence < i64::MAX - 1,
    ensures
        ({
            let plain = target_of(store, target_type, identifier)->Ok_0;
            let key = table::triple(target_type, plain, provenance);
            &&& weight_clear_goal(
                store,
                target_type,
                identifier,
                provenance,
                now,
                revision,
            ) matches Ok(cleared)
            &&& cleared.0 == store.weights.dom().contains(key)
            &&& !cleared.1.weights.dom().contains(key)
            &&& cleared.1.weights == store.weights.remove(key)
            &&& weight_clear_goal(
                cleared.1,
                target_type,
                identifier,
                provenance,
                later,
                next_revision,
            ) matches Ok(again)
            &&& !again.0
            &&& again.1.weights == cleared.1.weights
        }),
{
    lemma_stays_open(store, revision);
    let plain = target_of(store, target_type, identifier)->Ok_0;
    let key = table::triple(target_type, plain, provenance);
    assert(store.weights.remove(key).remove(key) =~= store.weights.remove(key));
}

/// A weight that was given is there afterwards, and counts before what agents gave; taken
/// away again, it is gone, and the other weights, those of the other provenance among them,
/// are as they were. To take it away once more takes nothing away.
pub proof fn law_weight_set_and_clear(
    store: StoreView,
    target_type: Seq<char>,
    identifier: Seq<char>,
    weight: i32,
    reason: Seq<char>,
    provenance: Seq<char>,
    now: Seq<char>,
    revision: Seq<char>,
    later: Seq<char>,
    next_revision: Seq<char>,
)
    ensures
        weight_set_goal(
            store,
            target_type,
            identifier,
            weight,
            reason,
            provenance,
            now,
            revision,
        ) matches Ok(set) ==> {
            let key = set.0;
            let given = set.1;
            &&& key.third == provenance
            &&& given.weights.dom().contains(key)
            &&& given.weights[key].weight == weight
            &&& provenance == "user-provided"@ ==> effective_weights(given)[table::pair(
                key.first,
                key.second,
            )] == weight
            &&& given.weights.remove(key) == store.weights.remove(key)
            &&& given.operation_sequence < i64::MAX - 1 ==> {
                &&& weight_clear_goal(
                    given,
                    target_type,
                    identifier,
                    provenance,
                    later,
                    next_revision,
                ) matches Ok(cleared)
                &&& cleared.0
                &&& cleared.1.weights == store.weights.remove(key)
                &&& !store.weights.dom().contains(key) ==> cleared.1.weights == store.weights
                &&& weight_clear_goal(
                    cleared.1,
                    target_type,
                    identifier,
                    provenance,
                    later,
                    next_revision,
                ) matches Ok(again)
                &&& !again.0
                &&& again.1.weights == cleared.1.weights
            }
        },
{
    if let Ok(set) = weight_set_goal(
        store,
        target_type,
        identifier,
        weight,
        reason,
        provenance,
        now,
        revision,
    ) {
        let key = set.0;
        let given = set.1;
        assert(given.weights.remove(key) =~= store.weights.remove(key));
        let document = table::pair(key.first, key.second);
        if provenance == "user-provided"@ {
            assert(by_people(document) =~= key);
        }
        lemma_stays_open(store, revision);
        lemma_stays_open(given, next_revision);
        assert(given.weights.remove(key).remove(key) =~= given.weights.remove(key));
        if !store.weights.dom().contains(key) {
            assert(store.weights.remove(key) =~= store.weights);
        }
    }
}

/// Feedback that was given for a query is there afterwards, and counts before what agents
/// gave; taken away again, it is gone, and all other feedback is as it was. To take it away
/// once more takes nothing away. A query without terms is refused either way.
pub proof fn law_feedback_set_and_clear(
    store: StoreView,
    target_type: Seq<char>,
    identifier: Seq<char>,
    tokens: Seq<Seq<char>>,
    signal: i32,
    reason: Seq<char>,
    provenance: Seq<char>,
    now: Seq<char>,
    revision: Seq<char>,
    later: Seq<char>,
    next_revision: Seq<char>,
)
    ensures
        feedback_set_goal(
            store,
            target_type,
            identifier,
            tokens,
            signal,
            reason,
            provenance,
            now,
            revision,
        ) matches Ok(set) ==> {
            let key = set.0;
            let given = set.1;
            &&& tokens.len() > 0
            &&& key.query == query_mark(tokens)
            &&& key.target.third == provenance
            &&& given.feedback.dom().contains(key)
            &&& given.feedback[key].signal == signal
            &&& provenance == "user-provided"@ ==> effective_feedback(
                given,
                key.query,
            )[table::pair(key.target.first, key.target.second)] == signal
            &&& given.feedback.remove(key) == store.feedback.remove(key)
            &&& given.operation_sequence < i64::MAX - 1 ==> {
                &&& feedback_clear_goal(
                    given,
                    target_type,
                    identifier,
                    tokens,
                    provenance,
                    later,
                    next_revision,
                ) matches Ok(cleared)
                &&& cleared.0
                &&& cleared.1.feedback == store.feedback.remove(key)
                &&& !store.feedback.dom().contains(key) ==> cleared.1.feedback == store.feedback
                &&& feedback_clear_goal(
                    cleared.1,
                    target_type,
                    identifier,
                    tokens,
                    provenance,
                    later,
                    next_revision,
                ) matches Ok(again)
                &&& !again.0
                &&& again.1.feedback == cleared.1.feedback
            }
        },
        tokens.len() == 0 && provenance_checked(provenance) is Ok ==> {
            &&& feedback_clear_goal(
                store,
                target_type,
                identifier,
                tokens,
                provenance,
                later,
                next_revision,
            ) matches Err(e)
            &&& e.code == ErrorCode::InvalidQuery
        },
{
    if let Ok(set) = feedback_set_goal(
        store,
        target_type,
        identifier,
        tokens,
        signal,
        reason,
        provenance,
        now,
        revision,
    ) {
        let key = set.0;
        let given = set.1;
        assert(given.feedback.remove(key) =~= store.feedback.remove(key));
        let document = table::pair(key.target.first, key.target.second);
        if provenance == "user-provided"@ {
            assert(by_people(document) =~= key.target);
            assert(feedback_key(key.query, by_people(document)) =~= key);
        }
        lemma_stays_open(store, revision);
        lemma_stays_open(given, next_revision);
        assert(given.feedback.remove(key).remove(key) =~= given.feedback.remove(key));
        if !store.feedback.dom().contains(key) {
            assert(store.feedback.remove(key) =~= store.feedback);
        }
    }
}

} // verus!
