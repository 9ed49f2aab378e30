//! How well a title or a path fits a query, before anything is weighed.
use crate::markdown;
use crate::markdown::lower;
use crate::text;
use crate::text::{
    blank, chars_of, contains_text, has_text, join3, owned, same_text, string_of, trim,
};
use vstd::prelude::*;

verus! {

// ---------------------------------------------------------------------------
// Words
// ---------------------------------------------------------------------------

/// A letter or a digit of some script.
pub uninterp spec fn is_alphanumeric(c: char) -> bool;

/// `char::is_alphanumeric`: whether the Unicode tables have the character as a letter or a
/// digit, which they fix.
#[verifier::external_body]
fn alphanumeric(c: char) -> (r: bool)
    ensures
        r == is_alphanumeric(c),
{
    c.is_alphanumeric()
}

/// A character that belongs to a word.
pub open spec fn is_word_char(c: char) -> bool {
    ||| is_alphanumeric(c)
    ||| '\u{3400}' <= c <= '\u{4dbf}'
    ||| '\u{4e00}' <= c <= '\u{9fff}'
    ||| '\u{f900}' <= c <= '\u{faff}'
    ||| '\u{20000}' <= c <= '\u{323af}'
}

fn word_char(c: char) -> (r: bool)
    ensures
        r == is_word_char(c),
{
    alphanumeric(c) || ('\u{3400}' <= c && c <= '\u{4dbf}') || ('\u{4e00}' <= c && c
        <= '\u{9fff}') || ('\u{f900}' <= c && c <= '\u{faff}') || ('\u{20000}' <= c && c
        <= '\u{323af}')
}

/// A text with one space for whatever stands between its words.
pub open spec fn spaced(s: Seq<char>) -> Seq<char>
    decreases s.len(),
{
    if s.len() == 0 {
        Seq::empty()
    } else {
        let head = spaced(s.drop_last());
        if is_word_char(s.last()) {
            head.push(s.last())
        } else if head.len() > 0 && head.last() != ' ' {
            head.push(' ')
        } else {
            head
        }
    }
}

/// A text as it is compared: its words in lower case.
pub open spec fn normalized(s: Seq<char>) -> Seq<char> {
    text::trimmed(spaced(markdown::lowered(s)))
}

/// A text as it is compared.
pub fn normalized_text(s: &str) -> (r: String)
    ensures
        r@ == normalized(s@),
{
    let small = lower(s);
    let chars = chars_of(small.as_str());
    let mut out: Vec<char> = Vec::new();
    assert(chars@.take(0) =~= Seq::empty());
    let mut i: usize = 0;
    while i < chars.len()
        invariant
            i <= chars@.len(),
            out@ == spaced(chars@.take(i as int)),
        decreases chars@.len() - i,
    {
        assert(chars@.take(i + 1).drop_last() =~= chars@.take(i as int));
        assert(chars@.take(i + 1).last() == chars@[i as int]);
        if word_char(chars[i]) {
            out.push(chars[i]);
        } else if out.len() > 0 && out[out.len() - 1] != ' ' {
            out.push(' ');
        }
        i += 1;
    }
    assert(chars@.take(chars@.len() as int) =~= chars@);
    trim(string_of(&out).as_str())
}

// ---------------------------------------------------------------------------
// Fields
// ---------------------------------------------------------------------------

/// How well a field fits a query.
#[derive(Clone, Copy, PartialEq, Eq, Structural)]
pub enum FieldMatch {
    Nothing,
    /// The field is the query.
    Whole,
    /// The field holds the query as a phrase.
    Phrase,
    /// The field holds some of the terms.
    Terms { matched: usize, of: usize },
}

/// How many of the first terms a field has.
pub open spec fn matched_terms(
    terms: Seq<Seq<char>>,
    field_terms: Seq<Seq<char>>,
    count: nat,
) -> nat
    decreases count,
{
    if count == 0 || count > terms.len() {
        0
    } else {
        matched_terms(terms, field_terms, (count - 1) as nat) + if field_terms.contains(
            terms[count - 1],
        ) {
            1nat
        } else {
            0nat
        }
    }
}

/// How well a field fits a query. `terms` are those of the query, `field_terms` those of the
/// field.
pub open spec fn field_fits(
    field: Seq<char>,
    query: Seq<char>,
    terms: Seq<Seq<char>>,
    field_terms: Seq<Seq<char>>,
) -> FieldMatch {
    let plain = normalized(field);
    let asked = normalized(query);
    if text::is_blank(field) || terms.len() == 0 {
        FieldMatch::Nothing
    } else if asked.len() > 0 && plain == asked {
        FieldMatch::Whole
    } else if terms.len() > 1 && asked.len() > 0 && text::holds_text(plain, asked) {
        FieldMatch::Phrase
    } else {
        FieldMatch::Terms {
            matched: matched_terms(terms, field_terms, terms.len()) as usize,
            of: terms.len() as usize,
        }
    }
}

fn count_matched(terms: &Vec<String>, field_terms: &Vec<String>) -> (r: usize)
    ensures
        r == matched_terms(text::views(terms@), text::views(field_terms@), terms@.len()),
        r <= terms@.len(),
{
    let ghost all = text::views(terms@);
    let ghost known = text::views(field_terms@);
    let mut count: usize = 0;
    let mut i: usize = 0;
    while i < terms.len()
        invariant
            i <= terms@.len() == all.len(),
            all == text::views(terms@),
            known == text::views(field_terms@),
            count <= i,
            count == matched_terms(all, known, i as nat),
        decreases terms@.len() - i,
    {
        assert(all[i as int] == terms@[i as int]@);
        if has_text(field_terms, terms[i].as_str()) {
            count += 1;
        }
        i += 1;
    }
    count
}

/// How well a field fits a query.
pub fn field_match(field: &str, query: &str, terms: &Vec<String>, field_terms: &Vec<String>) -> (r:
    FieldMatch)
    ensures
        r == field_fits(field@, query@, text::views(terms@), text::views(field_terms@)),
{
    assert(text::views(terms@).len() == terms@.len());
    if blank(field) || terms.len() == 0 {
        return FieldMatch::Nothing;
    }
    let plain = normalized_text(field);
    let asked = normalized_text(query);
    let some = !asked.as_str().is_empty();
    if some && same_text(plain.as_str(), asked.as_str()) {
        return FieldMatch::Whole;
    }
    if terms.len() > 1 && some && contains_text(plain.as_str(), asked.as_str()) {
        return FieldMatch::Phrase;
    }
    FieldMatch::Terms { matched: count_matched(terms, field_terms), of: terms.len() }
}

/// What a fit counts, as a fraction: all, nine tenths, or the share of the terms.
pub open spec fn share(fit: FieldMatch) -> (int, int) {
    match fit {
        FieldMatch::Nothing => (0, 1),
        FieldMatch::Whole => (1, 1),
        FieldMatch::Phrase => (9, 10),
        FieldMatch::Terms { matched, of } => (matched as int, of as int),
    }
}

/// One fit counts at least as much as another.
pub open spec fn counts_at_least(a: FieldMatch, b: FieldMatch) -> bool {
    share(a).0 * share(b).1 >= share(b).0 * share(a).1
}

fn fraction(fit: FieldMatch) -> (r: (u128, u128))
    ensures
        (r.0 as int, r.1 as int) == share(fit),
        r.0 <= u64::MAX,
        r.1 <= u64::MAX,
{
    match fit {
        FieldMatch::Nothing => (0, 1),
        FieldMatch::Whole => (1, 1),
        FieldMatch::Phrase => (9, 10),
        FieldMatch::Terms { matched, of } => (matched as u128, of as u128),
    }
}

/// The better one of two fits, or the first.
pub fn better_fit(a: FieldMatch, b: FieldMatch) -> (r: FieldMatch)
    ensures
        r == if counts_at_least(a, b) {
            a
        } else {
            b
        },
{
    let x = fraction(a);
    let y = fraction(b);
    assert(x.0 * y.1 <= u64::MAX * u64::MAX) by (nonlinear_arith)
        requires
            0 <= x.0 <= u64::MAX,
            0 <= y.1 <= u64::MAX,
    ;
    assert(y.0 * x.1 <= u64::MAX * u64::MAX) by (nonlinear_arith)
        requires
            0 <= y.0 <= u64::MAX,
            0 <= x.1 <= u64::MAX,
    ;
    if x.0 * y.1 >= y.0 * x.1 {
        a
    } else {
        b
    }
}

// ---------------------------------------------------------------------------
// Documents that only lead to others
// ---------------------------------------------------------------------------

/// The words by which a document is taken for one that only leads to others.
pub open spec fn markers() -> Seq<Seq<char>> {
    seq![
        "readme"@,
        "index"@,
        "summary"@,
        "toc"@,
        "overview"@,
        "导航"@,
        "总览"@,
        "索引"@,
        "目录"@,
        "归档"@,
    ]
}

/// A text holds one of these words.
pub open spec fn is_marked(s: Seq<char>) -> bool {
    exists|i: int| 0 <= i < markers().len() && text::holds_text(s, #[trigger] markers()[i])
}

fn marked(s: &str) -> (r: bool)
    ensures
        r == is_marked(s@),
{
    let list = vec![
        "readme",
        "index",
        "summary",
        "toc",
        "overview",
        "导航",
        "总览",
        "索引",
        "目录",
        "归档",
    ];
    let ghost all = markers();
    assert(text::views(list@) =~= all);
    let mut i: usize = 0;
    while i < list.len()
        invariant
            i <= list@.len() == all.len(),
            all == text::views(list@),
            all == markers(),
            forall|j: int| 0 <= j < i ==> !text::holds_text(s@, #[trigger] all[j]),
        decreases list@.len() - i,
    {
        assert(all[i as int] == list@[i as int]@);
        if contains_text(s, list[i]) {
            assert(text::holds_text(s@, markers()[i as int]));
            return true;
        }
        i += 1;
    }
    false
}

/// A document that only leads to others, where the query does not ask for such a one.
pub open spec fn is_generic(
    title: Seq<char>,
    path: Seq<char>,
    query: Seq<char>,
    structural_navigation: bool,
) -> bool {
    (structural_navigation || is_marked(normalized(title) + " "@ + normalized(path)))
        && !is_marked(normalized(query))
}

/// Whether a document only leads to others, where the query does not ask for such a one.
pub fn generic_marker(title: &str, path: &str, query: &str, structural_navigation: bool) -> (r:
    bool)
    ensures
        r == is_generic(title@, path@, query@, structural_navigation),
{
    let candidate = join3(
        normalized_text(title).as_str(),
        " ",
        normalized_text(path).as_str(),
    );
    (structural_navigation || marked(candidate.as_str())) && !marked(
        normalized_text(query).as_str(),
    )
}

// ---------------------------------------------------------------------------
// Documents
// ---------------------------------------------------------------------------

/// What of a document is held against a query. The leaf and the parent are those of its path.
pub struct DocumentFields {
    pub source: bool,
    pub title: String,
    pub path: String,
    pub leaf: String,
    pub parent: String,
    pub structural_navigation: bool,
    pub title_terms: Vec<String>,
    pub leaf_terms: Vec<String>,
    /// The terms of the parent for a source, else those of the path.
    pub path_terms: Vec<String>,
}

/// How well the title and the path of a document fit a query.
#[derive(Clone, Copy, PartialEq, Eq, Structural)]
pub struct LexicalEvidence {
    pub title: FieldMatch,
    pub path: FieldMatch,
    pub generic: bool,
}

/// How well the title and the path of a document fit a query. The name of a source's file
/// counts as a title too, and its directory as its path.
pub fn lexical_evidence(document: &DocumentFields, query: &str, terms: &Vec<String>) -> (r:
    LexicalEvidence)
    ensures
        ({
            let asked = text::views(terms@);
            let title = field_fits(
                document.title@,
                query@,
                asked,
                text::views(document.title_terms@),
            );
            let leaf = field_fits(
                document.leaf@,
                query@,
                asked,
                text::views(document.leaf_terms@),
            );
            let place = if document.source {
                document.parent@
            } else {
                document.path@
            };
            &&& r.title == (if document.source && !counts_at_least(title, leaf) {
                leaf
            } else {
                title
            })
            &&& r.path == field_fits(place, query@, asked, text::views(document.path_terms@))
            &&& r.generic == is_generic(
                document.title@,
                document.path@,
                query@,
                document.structural_navigation,
            )
        }),
{
    let title = field_match(document.title.as_str(), query, terms, &document.title_terms);
    let best = if document.source {
        let leaf = field_match(document.leaf.as_str(), query, terms, &document.leaf_terms);
        better_fit(title, leaf)
    } else {
        title
    };
    let place = if document.source {
        document.parent.as_str()
    } else {
        document.path.as_str()
    };
    LexicalEvidence {
        title: best,
        path: field_match(place, query, terms, &document.path_terms),
        generic: generic_marker(
            document.title.as_str(),
            document.path.as_str(),
            query,
            document.structural_navigation,
        ),
    }
}

/// What of a source is indexed as its title: a title that only repeats where the source is
/// from adds nothing to the name of its file.
pub open spec fn title_text(title: Seq<char>, origin: Seq<char>, leaf: Seq<char>) -> Seq<char> {
    if normalized(title) == normalized(origin) || normalized(title) == normalized(leaf) {
        leaf
    } else {
        title + " "@ + leaf
    }
}

/// What of a source is indexed as its title.
pub fn source_title_terms(title: &str, origin: &str, leaf: &str) -> (r: String)
    ensures
        r@ == title_text(title@, origin@, leaf@),
{
    let plain = normalized_text(title);
    if same_text(plain.as_str(), normalized_text(origin).as_str()) || same_text(
        plain.as_str(),
        normalized_text(leaf).as_str(),
    ) {
        owned(leaf)
    } else {
        join3(title, " ", leaf)
    }
}

/// A fit counts between nothing and all.
pub proof fn law_fit_is_a_share(
    field: Seq<char>,
    query: Seq<char>,
    terms: Seq<Seq<char>>,
    field_terms: Seq<Seq<char>>,
)
    requires
        terms.len() <= usize::MAX,
    ensures
        0 <= share(field_fits(field, query, terms, field_terms)).0 <= share(
            field_fits(field, query, terms, field_terms),
        ).1,
        share(field_fits(field, query, terms, field_terms)).1 > 0,
{
    lemma_matched_bound(terms, field_terms, terms.len());
}

proof fn lemma_matched_bound(terms: Seq<Seq<char>>, field_terms: Seq<Seq<char>>, count: nat)
    requires
        count <= terms.len(),
    ensures
        matched_terms(terms, field_terms, count) <= count,
    decreases count,
{
    if count > 0 {
        lemma_matched_bound(terms, field_terms, (count - 1) as nat);
    }
}

} // verus!
