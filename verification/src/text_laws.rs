//! Texts, headings and links, what the text index holds, and how a store is opened.
use crate::error::{AppErrorView, ErrorCode};
use crate::hooks;
use crate::hooks::{HookAccess, HookFilesView};
use crate::indexing;
use crate::indexing::{HeadedDocumentView, HeadedPassageView};
use crate::markdown;
use crate::markdown::MarkView;
use crate::search_text;
use crate::spans;
use crate::store::StoreView;
use crate::table;
use crate::table::PairView;
use crate::text;
use crate::versions;
use crate::versions::{FoundStoreView, Migration, SchemaShapeView};
use vstd::prelude::*;

verus! {

// ---------------------------------------------------------------------------
// Texts
// ---------------------------------------------------------------------------

/// What is trimmed off is white space, on both sides, and all of it.
pub proof fn law_trimmed_is_a_part(s: Seq<char>) -> (parts: (Seq<char>, Seq<char>))
    ensures
        s == parts.0 + text::trimmed(s) + parts.1,
        text::is_blank(parts.0),
        text::is_blank(parts.1),
        text::trimmed(s).len() > 0 ==> !text::is_white(text::trimmed(s)[0]) && !text::is_white(
            text::trimmed(s).last(),
        ),
    decreases s.len(),
{
    if s.len() == 0 {
        assert(Seq::<char>::empty() + s + Seq::<char>::empty() =~= s);
        (Seq::empty(), Seq::empty())
    } else if text::is_white(s[0]) {
        let rest = law_trimmed_is_a_part(s.drop_first());
        let left = seq![s[0]] + rest.0;
        assert(s =~= left + text::trimmed(s) + rest.1) by {
            assert(s =~= seq![s[0]] + s.drop_first());
        }
        assert(text::is_blank(left));
        (left, rest.1)
    } else if text::is_white(s.last()) {
        let rest = law_trimmed_is_a_part(s.drop_last());
        let right = rest.1.push(s.last());
        assert(s =~= rest.0 + text::trimmed(s) + right) by {
            assert(s =~= s.drop_last().push(s.last()));
        }
        assert(text::is_blank(right));
        (rest.0, right)
    } else {
        assert(Seq::<char>::empty() + s + Seq::<char>::empty() =~= s);
        (Seq::empty(), Seq::empty())
    }
}

/// The start of a text, as long as was asked for or as it is.
pub proof fn law_first_characters(s: Seq<char>, count: nat)
    ensures
        text::first_chars(s, count).is_prefix_of(s),
        text::first_chars(s, count).len() <= count,
        text::first_chars(s, count).len() == count || text::first_chars(s, count) == s,
{
    if count > s.len() {
        assert(s.take(s.len() as int) =~= s);
    }
}

/// The parts of a list as one text.
pub open spec fn joined(parts: Seq<Seq<char>>, separator: char) -> Seq<char>
    decreases parts.len(),
{
    if parts.len() == 0 {
        Seq::empty()
    } else if parts.len() == 1 {
        parts[0]
    } else {
        parts[0].push(separator) + joined(parts.drop_first(), separator)
    }
}

/// A text that is split can be joined again, and none of its parts has the separator.
pub proof fn law_split_can_be_joined(s: Seq<char>, separator: char)
    ensures
        joined(text::split_on(s, separator), separator) == s,
        text::split_on(s, separator).len() > 0,
        forall|k: int|
            0 <= k < text::split_on(s, separator).len() ==> !(#[trigger] text::split_on(
                s,
                separator,
            )[k]).contains(separator),
    decreases s.len(),
{
    let parts = text::split_on(s, separator);
    if s.contains(separator) {
        s.index_of_first_ensures(separator);
        let at = s.index_of_first(separator)->0;
        let first = s.take(at);
        let rest = text::split_on(s.skip(at + 1), separator);
        law_split_can_be_joined(s.skip(at + 1), separator);
        assert(parts.drop_first() =~= rest);
        assert(parts[0] == first);
        assert(first.push(separator) + s.skip(at + 1) =~= s);
        assert(!first.contains(separator)) by {
            if first.contains(separator) {
                let k = first.index_of(separator);
                assert(s[k] == separator);
            }
        }
        assert forall|k: int| 0 <= k < parts.len() implies !(#[trigger] parts[k]).contains(
            separator,
        ) by {
            if k > 0 {
                assert(parts[k] == rest[k - 1]);
            }
        }
    }
}

// ---------------------------------------------------------------------------
// Headings and links
// ---------------------------------------------------------------------------

/// Headings are compared by their words: white space counts only between two of them, and any
/// of it as one space.
pub proof fn law_headings_are_squeezed(s: Seq<char>)
    ensures
        ({
            let plain = markdown::squeezed(s).text;
            let said = |c: char| !text::is_white(c);
            &&& plain.filter(said) == s.filter(said)
            &&& plain.len() > 0 ==> !text::is_white(plain[0]) && !text::is_white(plain.last())
            &&& forall|k: int|
                0 <= k < plain.len() && text::is_white(#[trigger] plain[k]) ==> plain[k] == ' '
            &&& forall|k: int|
                0 < k < plain.len() && text::is_white(#[trigger] plain[k]) ==> !text::is_white(
                    plain[k - 1],
                )
            &&& markdown::squeezed(s).gap ==> plain.len() > 0
        }),
    decreases s.len(),
{
    reveal(Seq::filter);
    let said = |c: char| !text::is_white(c);
    if s.len() > 0 {
        law_headings_are_squeezed(s.drop_last());
        let head = markdown::squeezed(s.drop_last());
        let plain = markdown::squeezed(s).text;
        if !text::is_white(s.last()) {
            if head.gap {
                let spaced = head.text.push(' ');
                assert(plain.drop_last() =~= spaced);
                assert(spaced.drop_last() =~= head.text);
                assert(text::is_white(' '));
                assert(spaced.filter(said) == head.text.filter(said));
            } else {
                assert(plain.drop_last() =~= head.text);
            }
        }
    } else {
        assert(s.filter(said) =~= Seq::<char>::empty());
    }
}

/// What stands before the first of two characters: it has neither, and one of them follows it
/// where anything does.
pub proof fn law_part_before(s: Seq<char>, a: char, b: char)
    ensures
        markdown::until(s, a, b).is_prefix_of(s),
        forall|k: int|
            0 <= k < markdown::until(s, a, b).len() ==> #[trigger] markdown::until(s, a, b)[k] != a
                && markdown::until(s, a, b)[k] != b,
        markdown::until(s, a, b).len() < s.len() ==> s[markdown::until(s, a, b).len() as int] == a
            || s[markdown::until(s, a, b).len() as int] == b,
    decreases s.len(),
{
    if s.len() > 0 && s[0] != a && s[0] != b {
        let rest = s.drop_first();
        law_part_before(rest, a, b);
        let head = markdown::until(rest, a, b);
        let all = markdown::until(s, a, b);
        assert(all =~= s.take(all.len() as int)) by {
            assert forall|k: int| 0 <= k < all.len() implies all[k] == s[k] by {
                if k > 0 {
                    assert(all[k] == head[k - 1]);
                    assert(head[k - 1] == rest.take(head.len() as int)[k - 1]);
                }
            }
        }
        assert forall|k: int| 0 <= k < all.len() implies #[trigger] all[k] != a && all[k]
            != b by {
            if k > 0 {
                assert(all[k] == head[k - 1]);
            }
        }
        if all.len() < s.len() {
            assert(s[all.len() as int] == rest[head.len() as int]);
        }
    } else {
        assert(Seq::<char>::empty() =~= s.take(0));
    }
}

/// The last part of a path: it has no slash, and a slash stands before it where anything does.
pub proof fn law_last_part(s: Seq<char>)
    ensures
        markdown::leaf(s).len() <= s.len(),
        markdown::leaf(s) == s.skip(s.len() - markdown::leaf(s).len()),
        !markdown::leaf(s).contains('/'),
        markdown::leaf(s).len() < s.len() ==> s[s.len() - markdown::leaf(s).len() - 1] == '/',
    decreases s.len(),
{
    if s.len() > 0 && s.last() != '/' {
        let head = s.drop_last();
        law_last_part(head);
        let name = markdown::leaf(s);
        assert(name =~= s.skip(s.len() - name.len())) by {
            assert forall|k: int| 0 <= k < name.len() implies name[k] == s[s.len() - name.len()
                + k] by {
                if k < name.len() - 1 {
                    assert(name[k] == markdown::leaf(head)[k]);
                    assert(markdown::leaf(head)[k] == head.skip(
                        head.len() - markdown::leaf(head).len(),
                    )[k]);
                }
            }
        }
        if name.contains('/') {
            let k = name.index_of('/');
            assert(markdown::leaf(head)[k] == '/');
        }
    } else {
        assert(Seq::<char>::empty() =~= s.skip(s.len() as int));
    }
}

/// The page that a link to a Markdown file names: the name of the file without its ending,
/// whatever stands before it and behind it. A link to anything else names none.
pub proof fn law_links_name_pages(destination: Seq<char>)
    ensures
        ({
            let path = markdown::until(destination, '#', '?');
            let name = markdown::leaf(path);
            let found = markdown::link_target(destination);
            &&& found is Some <==> ".md"@.is_suffix_of(markdown::ascii_lowered(path))
            &&& found matches Some(slug) ==> slug.is_prefix_of(name)
            &&& found matches Some(slug) ==> (name.len() > 3 ==> slug.len() + 3 == name.len())
            &&& found matches Some(slug) ==> !slug.contains('/')
        }),
{
    let path = markdown::until(destination, '#', '?');
    let name = markdown::leaf(path);
    law_last_part(path);
    if let Some(slug) = markdown::link_target(destination) {
        assert(slug =~= name.take(slug.len() as int));
        if slug.contains('/') {
            let k = slug.index_of('/');
            assert(name[k] == '/');
        }
    }
}

/// Lower case of ASCII letters: a capital becomes its small letter, and all else stays.
pub proof fn law_letters_are_lowered(c: char, s: Seq<char>)
    ensures
        'A' <= c <= 'Z' ==> markdown::ascii_lower(c) as u32 == c as u32 + 32,
        !('A' <= c <= 'Z') ==> markdown::ascii_lower(c) == c,
        markdown::ascii_lowered(s).len() == s.len(),
        forall|k: int|
            0 <= k < s.len() ==> #[trigger] markdown::ascii_lowered(s)[k] == markdown::ascii_lower(
                s[k],
            ),
{
}

/// The first place from one on where a text stands.
pub proof fn law_next_place(s: Seq<char>, needle: Seq<char>, from: int)
    requires
        from >= 0,
    ensures
        markdown::next_at(s, needle, from) matches Some(at) ==> {
            &&& from <= at
            &&& text::stands_at(s, needle, at)
            &&& forall|k: int| from <= k < at ==> !text::stands_at(s, needle, k)
        },
        markdown::next_at(s, needle, from) is None ==> forall|k: int|
            from <= k ==> !text::stands_at(s, needle, k),
    decreases s.len() - from + 1,
{
    if from + needle.len() <= s.len() && !text::stands_at(s, needle, from) {
        law_next_place(s, needle, from + 1);
    }
}

/// A bracketed link names what stands before its label and its anchor, without the blanks round
/// it.
pub proof fn law_brackets_name_pages(inner: Seq<char>, label: Seq<char>)
    requires
        !inner.contains('|'),
        !inner.contains('#'),
    ensures
        markdown::bracket_target(inner) == text::trimmed(inner),
        markdown::bracket_target(inner.push('|') + label) == text::trimmed(inner),
        markdown::bracket_target(inner.push('#') + label) == text::trimmed(inner),
{
    lemma_until_mark(inner, Seq::empty(), '|', '|', '#');
    lemma_until_all(inner, '|', '#');
    lemma_until_mark(inner, label, '|', '|', '#');
    lemma_until_mark(inner, label, '#', '|', '#');
}

proof fn lemma_until_all(inner: Seq<char>, a: char, b: char)
    requires
        !inner.contains(a),
        !inner.contains(b),
    ensures
        markdown::until(inner, a, b) == inner,
{
    law_part_before(inner, a, b);
    let part = markdown::until(inner, a, b);
    if part.len() < inner.len() {
        let c = inner[part.len() as int];
        assert(inner.contains(c));
    }
    assert(part =~= inner);
}

proof fn lemma_until_mark(inner: Seq<char>, rest: Seq<char>, mark: char, a: char, b: char)
    requires
        !inner.contains(a),
        !inner.contains(b),
        mark == a || mark == b,
    ensures
        markdown::until(inner.push(mark) + rest, a, b) == inner,
{
    let s = inner.push(mark) + rest;
    law_part_before(s, a, b);
    let part = markdown::until(s, a, b);
    if part.len() < inner.len() {
        let c = s[part.len() as int];
        assert(inner[part.len() as int] == c);
        assert(inner.contains(c));
    }
    if part.len() > inner.len() {
        assert(part[inner.len() as int] == s.take(part.len() as int)[inner.len() as int]);
        assert(s[inner.len() as int] == mark);
    }
    assert(part =~= inner);
}

/// The links of a page are those to Markdown files and those in brackets, outside of code, each
/// once, in ascending order.
pub proof fn law_links_of_a_page(body: Seq<char>, marks: Seq<MarkView>, target: Seq<char>)
    requires
        (markdown::linked(marks) + markdown::bracketed(body, marks, 0)).finite(),
    ensures
        markdown::links_with(body, marks).contains(target) <==> {
            ||| exists|k: int|
                0 <= k < marks.len() && (#[trigger] marks[k]).kind is Link && markdown::code_depth(
                    marks,
                    k as nat,
                ) == 0 && markdown::link_target(marks[k].kind->Link_0) == Some(target)
                    && target.len() > 0
            ||| markdown::bracketed(body, marks, 0).contains(target)
        },
        markdown::links_with(body, marks).no_duplicates(),
{
    let all = markdown::linked(marks) + markdown::bracketed(body, marks, 0);
    table::lemma_texts_sorted(all);
    let list = markdown::links_with(body, marks);
    assert(list.contains(target) == list.to_set().contains(target));
    if markdown::linked(marks).contains(target) {
        let k = choose|k: int| 0 <= k < marks.len() && #[trigger] markdown::links_to(marks, k, target);
        assert(marks[k].kind is Link);
    }
    if exists|k: int|
        0 <= k < marks.len() && (#[trigger] marks[k]).kind is Link && markdown::code_depth(
            marks,
            k as nat,
        ) == 0 && markdown::link_target(marks[k].kind->Link_0) == Some(target) && target.len() > 0 {
        let k = choose|k: int|
            0 <= k < marks.len() && (#[trigger] marks[k]).kind is Link && markdown::code_depth(
                marks,
                k as nat,
            ) == 0 && markdown::link_target(marks[k].kind->Link_0) == Some(target) && target.len()
                > 0;
        assert(markdown::links_to(marks, k, target));
    }
}

/// The depth of code: it begins at none, grows with each block that begins, and falls back with
/// each that ends.
pub proof fn law_code_is_counted(marks: Seq<MarkView>, count: nat)
    requires
        count < marks.len(),
    ensures
        markdown::code_depth(marks, 0) == 0,
        marks[count as int].kind is CodeStart ==> markdown::code_depth(marks, count + 1)
            == markdown::code_depth(marks, count) + 1,
        marks[count as int].kind is CodeEnd && markdown::code_depth(marks, count) > 0
            ==> markdown::code_depth(marks, count + 1) + 1 == markdown::code_depth(marks, count),
        !(marks[count as int].kind is CodeStart) && !(marks[count as int].kind is CodeEnd)
            ==> markdown::code_depth(marks, count + 1) == markdown::code_depth(marks, count),
{
}

// ---------------------------------------------------------------------------
// The text index
// ---------------------------------------------------------------------------

/// A page and a source stand in the index with what they say.
pub proof fn law_documents_are_indexed(
    store: StoreView,
    slug: Seq<char>,
    id: i64,
    leaf: Seq<char>,
    parent: Seq<char>,
)
    ensures
        indexing::page_entry(store, slug) is Some <==> store.pages.dom().contains(slug),
        indexing::page_entry(store, slug) matches Some(entry) ==> {
            let page = store.pages[slug];
            &&& entry.doc_type == "page"@
            &&& entry.identifier == slug
            &&& entry.title == page.title
            &&& entry.path == slug
            &&& entry.body == page.body
            &&& page.summary is Some ==> entry.summary == page.summary->0
            &&& page.summary is None ==> entry.summary.len() == 0
        },
        indexing::source_entry(store, id, leaf, parent) is Some <==> store.sources.dom().contains(
            id,
        ),
        indexing::source_entry(store, id, leaf, parent) matches Some(entry) ==> {
            let source = store.sources[id];
            let title = if source.title is Some {
                source.title->0
            } else {
                Seq::empty()
            };
            let same = search_text::normalized(title) == search_text::normalized(source.origin)
                || search_text::normalized(title) == search_text::normalized(leaf);
            &&& entry.doc_type == "source"@
            &&& entry.identifier == text::decimal(id as int)
            &&& entry.path == parent
            &&& entry.summary.len() == 0
            &&& entry.body == source.content
            &&& same ==> entry.title == leaf
            &&& !same ==> entry.title == title + " "@ + leaf
        },
{
}

/// A passage covers a place as a whole or with one of its sentences.
pub open spec fn is_over(passage: HeadedPassageView, start: int, end: int) -> bool {
    (passage.start == start && passage.end == end) || exists|k: int|
        0 <= k < passage.sentences.len() && (#[trigger] passage.sentences[k]).start == start
            && passage.sentences[k].end == end
}

/// The headings over a place are those of the last passage that covers it, and none where none
/// does.
pub proof fn law_headings_over_a_place(
    passages: Seq<HeadedPassageView>,
    start: int,
    end: int,
    count: nat,
)
    requires
        count <= passages.len(),
    ensures
        (forall|k: int| 0 <= k < count ==> !is_over(#[trigger] passages[k], start, end))
            ==> indexing::headings_over(passages, start, end, count).len() == 0,
        forall|k: int|
            0 <= k < count && is_over(#[trigger] passages[k], start, end) && (forall|n: int|
                k < n < count ==> !is_over(#[trigger] passages[n], start, end))
                ==> indexing::headings_over(passages, start, end, count) == indexing::spaced_out(
                passages[k].headings,
            ),
    decreases count,
{
    if count > 0 {
        law_headings_over_a_place(passages, start, end, (count - 1) as nat);
        let last = passages[count - 1];
        assert(indexing::covers(last, start, end) == is_over(last, start, end));
        if is_over(last, start, end) {
            assert(passages[count - 1] == last);
        }
    }
}

/// A span stands in the index with the text at its place and the title of its document.
pub proof fn law_spans_are_indexed(
    store: StoreView,
    headings: Map<PairView, HeadedDocumentView>,
    id: Seq<char>,
)
    ensures
        indexing::span_entry(store, headings, id) matches Ok(entry) ==> {
            let span = store.spans[id];
            &&& entry.span_id == id
            &&& entry.span_type == span.span_type
            &&& entry.document_type == span.document_type
            &&& entry.document_identifier == span.document_identifier
            &&& spans::document_content(store, span) matches Some(content)
            &&& spans::text_between(content, span.byte_start as int, span.byte_end as int) == Some(
                entry.label,
            )
            &&& span.document_type == "page"@ ==> entry.title
                == store.pages[span.document_identifier].title && entry.path
                == span.document_identifier
            &&& span.document_type == "source"@ ==> {
                let source = store.sources[text::reads_as_i64(
                    span.document_identifier,
                )->0 as i64];
                &&& entry.path == source.origin
                &&& source.title is Some ==> entry.title == source.title->0
                &&& source.title is None ==> entry.title == source.origin
            }
        },
{
    reveal_strlit("page");
    reveal_strlit("source");
    assert("page"@.len() == 4 && "source"@.len() == 6);
}

// ---------------------------------------------------------------------------
// Opening a store
// ---------------------------------------------------------------------------

/// Where a rung of the ladder is climbed from, and where it leads: up, and never past the top.
pub proof fn law_rungs_lead_up(version: int, step: Migration, current: int)
    ensures
        1 <= version < 19 ==> (versions::wanted(version) matches Some(next)
            && versions::starts_at(next, version) && version < versions::leads_to(next) <= 19),
        version >= 19 ==> versions::wanted(version) is None,
        versions::rung_state(step, current) matches Ok(climb) ==> (climb ==> current
            < versions::leads_to(step)) && (!climb ==> versions::leads_to(step) <= current <= 19),
        versions::starts_at(step, current) ==> current < versions::leads_to(step),
        current > 19 ==> versions::rung_state(step, current) is Err,
{
}

/// A version is read as a number; a store without one is new.
pub proof fn law_versions_are_read(raw: Option<Seq<char>>)
    ensures
        raw is None ==> versions::marked_version(raw) == Ok::<int, AppErrorView>(0),
        raw matches Some(value) ==> (versions::marked_version(raw) matches Ok(n) ==> text::reads_as(
            text::trimmed(value),
        ) == Some(n) && i32::MIN <= n <= i32::MAX),
        versions::marked_version(raw) matches Err(e) ==> e.code
            == ErrorCode::UnsupportedStoreVersion,
{
}

/// A store is worked with only where it has this version and this way of cutting words, and
/// where it says who it is. It then goes by the name that it was opened with, and is otherwise
/// as it was found.
pub proof fn law_store_is_opened(
    scope: Seq<char>,
    database: Seq<char>,
    found: Option<FoundStoreView>,
    tokenizer: Seq<char>,
)
    ensures
        found is None ==> (versions::opened(scope, database, found, tokenizer) matches Err(e)
            && e.code == ErrorCode::StoreNotFound),
        versions::opened(scope, database, found, tokenizer) matches Ok(store) ==> {
            &&& found is Some
            &&& found->0.version == 19
            &&& store.scope == scope
            &&& store.database == database
            &&& store.pages == found->0.store.pages
            &&& store.sources == found->0.store.sources
            &&& store.operations == found->0.store.operations
            &&& store.meta == found->0.store.meta
            &&& store.meta.dom().contains("format_version"@)
            &&& store.meta["format_version"@] == text::decimal(19)
            &&& store.meta.dom().contains("tokenizer"@)
            &&& store.meta["tokenizer"@] == tokenizer
            &&& store.meta.dom().contains("store_id"@)
            &&& text::is_lower_hex(store.meta["store_id"@], 64)
            &&& store.meta.dom().contains("store_revision"@)
            &&& text::is_lower_hex(store.meta["store_revision"@], 64)
        },
        versions::opened_to_read(scope, database, found, tokenizer) matches Ok(store) ==> {
            &&& found is Some
            &&& found->0.version == 19
            &&& store.scope == scope
            &&& store.database == database
            &&& store.pages == found->0.store.pages
            &&& store.meta == found->0.store.meta
            &&& store.meta.dom().contains("tokenizer"@)
            &&& store.meta["tokenizer"@] == tokenizer
            &&& store.meta.dom().contains("store_id"@)
            &&& text::is_lower_hex(store.meta["store_id"@], 64)
            &&& store.meta.dom().contains("store_revision"@)
            &&& text::is_lower_hex(store.meta["store_revision"@], 64)
        },
{
}

proof fn lemma_nothing_missing_of(
    shape: SchemaShapeView,
    words: Seq<Seq<char>>,
    count: nat,
    k: int,
)
    requires
        count <= words.len(),
        0 <= k < count,
        versions::missing_of(shape, words, count) is None,
    ensures
        k == 0 ==> shape.tables.dom().contains(words[0]),
        k > 0 ==> shape.columns.dom().contains(PairView { first: words[0], second: words[k] }),
    decreases count,
{
    if k < count - 1 {
        lemma_nothing_missing_of(shape, words, (count - 1) as nat, k);
    }
}

proof fn lemma_nothing_missing(
    shape: SchemaShapeView,
    lines: Seq<Seq<char>>,
    count: nat,
    k: int,
)
    requires
        count <= lines.len(),
        0 <= k < count,
        versions::missing(shape, lines, count) is None,
    ensures
        versions::missing_of(
            shape,
            text::split_on(lines[k], ' '),
            text::split_on(lines[k], ' ').len(),
        ) is None,
    decreases count,
{
    if k < count - 1 {
        lemma_nothing_missing(shape, lines, (count - 1) as nat, k);
    }
}

/// A store that is worked with has every table and every column that is needed.
pub proof fn law_nothing_is_missing(
    shape: SchemaShapeView,
    meta: Map<Seq<char>, Seq<char>>,
    tokenizer: Seq<char>,
    line: int,
    k: int,
)
    requires
        versions::store_check(shape, meta, tokenizer) is Ok,
        0 <= line < versions::needed_columns().len(),
        0 <= k < text::split_on(versions::needed_columns()[line], ' ').len(),
    ensures
        ({
            let words = text::split_on(versions::needed_columns()[line], ' ');
            &&& k == 0 ==> shape.tables.dom().contains(words[0])
            &&& k > 0 ==> shape.columns.dom().contains(
                PairView { first: words[0], second: words[k] },
            )
        }),
{
    let lines = versions::needed_columns();
    lemma_nothing_missing(shape, lines, lines.len(), line);
    let words = text::split_on(lines[line], ' ');
    lemma_nothing_missing_of(shape, words, words.len(), k);
}

/// A hook opens a store as it stands where nothing waits in its log, and with the shared index
/// where log and index are whole; otherwise it does not open it.
pub proof fn law_hooks_open_safely(files: HookFilesView)
    ensures
        files.database is None || files.irregular ==> hooks::access(files) is None,
        hooks::access(files) == Some(HookAccess::Immutable) <==> files.database is Some
            && !files.irregular && (files.wal is None || files.wal == Some(0u64)),
        hooks::access(files) == Some(HookAccess::SharedIndex) ==> {
            &&& files.database is Some
            &&& !files.irregular
            &&& files.wal is Some
            &&& files.wal->0 >= 32
            &&& files.shm is Some
            &&& files.shm->0 >= 32768
            &&& files.wal_header.len() == 32
            &&& files.shm_header.len() == 96
            &&& files.shm_header.take(48) == files.shm_header.skip(48)
            &&& files.wal_header.subrange(16, 24) == files.shm_header.take(48).subrange(32, 40)
            &&& hooks::is_page_size(hooks::word(files.wal_header, 8, false))
            &&& files.wal->0 >= 32 + hooks::word(files.shm_header.take(48), 16, files.little) * (
            hooks::word(files.wal_header, 8, false) + 24)
        },
{
}

/// The number in four bytes does not depend on the machine once the bytes are turned round, and
/// is less than two to the thirty-second.
pub proof fn law_words_of_bytes(bytes: Seq<u8>, turned: Seq<u8>, at: int)
    requires
        0 <= at,
        at + 4 <= bytes.len(),
        turned.len() == bytes.len(),
        turned[at] == bytes[at + 3],
        turned[at + 1] == bytes[at + 2],
        turned[at + 2] == bytes[at + 1],
        turned[at + 3] == bytes[at],
    ensures
        hooks::word(bytes, at, true) == hooks::word(turned, at, false),
        hooks::word(bytes, at, false) == ((bytes[at] * 256 + bytes[at + 1]) * 256 + bytes[at + 2])
            * 256 + bytes[at + 3],
        0 <= hooks::word(bytes, at, true) < 0x1_0000_0000,
{
}

/// A page size is a power of two from 512 to 65536; the largest is written as 1.
pub proof fn law_page_sizes(n: int)
    ensures
        hooks::is_page_size(n) ==> 512 <= n <= 65536,
        hooks::is_page_size(n) && n > 512 ==> hooks::is_page_size(n / 2) && n % 2 == 0,
        hooks::is_page_size(n) && n < 65536 ==> hooks::is_page_size(2 * n),
        hooks::is_page_size(512),
        hooks::decoded_page_size(1) == 65536,
        hooks::is_page_size(n) && n < 65536 ==> hooks::decoded_page_size(n) == n,
{
}

/// In an address letters, digits and a few marks stand as they are, and every other byte as a
/// percent sign and two digits. Each byte is written by itself.
pub proof fn law_addresses_are_escaped(b: u8, left: Seq<u8>, right: Seq<u8>)
    ensures
        (0x30 <= b <= 0x39 || 0x41 <= b <= 0x5a || 0x61 <= b <= 0x7a || b == 0x2d || b == 0x2e || b
            == 0x5f || b == 0x7e || b == 0x2f || b == 0x3a) ==> hooks::in_address(b) == seq![
            b as char,
        ],
        !(0x30 <= b <= 0x39 || 0x41 <= b <= 0x5a || 0x61 <= b <= 0x7a || b == 0x2d || b == 0x2e || b
            == 0x5f || b == 0x7e || b == 0x2f || b == 0x3a) ==> {
            &&& hooks::in_address(b).len() == 3
            &&& hooks::in_address(b)[0] == '%'
            &&& hooks::in_address(b)[1] == hooks::upper_hex(b as int / 16)
            &&& hooks::in_address(b)[2] == hooks::upper_hex(b as int % 16)
        },
        hooks::upper_hex(0) == '0' && hooks::upper_hex(9) == '9' && hooks::upper_hex(10) == 'A'
            && hooks::upper_hex(15) == 'F',
        hooks::escaped(left + right) == hooks::escaped(left) + hooks::escaped(right),
        hooks::escaped(seq![b]) == hooks::in_address(b),
    decreases right.len(),
{
    assert(seq![b].drop_last() =~= Seq::<u8>::empty());
    assert(hooks::escaped(Seq::<u8>::empty()) =~= Seq::<char>::empty());
    assert(hooks::escaped(seq![b]) =~= hooks::in_address(b));
    if right.len() == 0 {
        assert(left + right =~= left);
        assert(hooks::escaped(right) =~= Seq::<char>::empty());
    } else {
        law_addresses_are_escaped(b, left, right.drop_last());
        assert((left + right).drop_last() =~= left + right.drop_last());
        assert((left + right).last() == right.last());
        assert(hooks::escaped(left + right) =~= hooks::escaped(left) + hooks::escaped(right));
    }
}

/// A database is opened by an address to be read only; a path that does not start at a root, or
/// that leads to another machine, has none.
pub proof fn law_addresses_are_to_be_read(
    path: Seq<char>,
    absolute: bool,
    windows: bool,
    query: Seq<char>,
)
    ensures
        !absolute ==> hooks::address(path, absolute, windows, query) is None,
        hooks::address(path, absolute, windows, query) matches Some(found) ==> {
            &&& "file:"@.is_prefix_of(found)
            &&& ("?mode=ro&"@ + query).is_suffix_of(found)
        },
        !windows && path.len() >= 2 && path[0] == '/' && path[1] == '/' ==> hooks::address(
            path,
            absolute,
            windows,
            query,
        ) is None,
{
    if let Some(found) = hooks::address(path, absolute, windows, query) {
        assert("file:"@ =~= found.take("file:"@.len() as int));
        let tail = "?mode=ro&"@ + query;
        assert(tail =~= found.skip(found.len() - tail.len()));
        assert(tail =~= found.subrange(found.len() - tail.len(), found.len() as int));
    }
    if path.len() >= 2 {
        assert(hooks::with_slashes(path)[0] == (if path[0] == '\\' {
            '/'
        } else {
            path[0]
        }));
    }
}

/// A link in brackets stands between two places of a page, outside code, and names its target.
pub open spec fn is_bracketed(
    body: Seq<char>,
    marks: Seq<MarkView>,
    start: int,
    end: int,
    target: Seq<char>,
) -> bool {
    &&& 0 <= start && start + 2 <= end && end + 2 <= body.len()
    &&& text::stands_at(body, seq!['[', '['], start)
    &&& text::stands_at(body, seq![']', ']'], end)
    &&& target == markdown::bracket_target(body.subrange(start + 2, end))
    &&& target.len() > 0
    &&& !exists|k: int|
        0 <= k < marks.len() && #[trigger] markdown::is_code(marks, k) && marks[k].start
            <= text::byte_count(body.take(start)) < marks[k].end
}

/// What a page links to in brackets stands in brackets on it, outside code.
pub proof fn law_bracketed_links_stand_there(
    body: Seq<char>,
    marks: Seq<MarkView>,
    from: int,
    target: Seq<char>,
)
    requires
        from >= 0,
    ensures
        markdown::bracketed(body, marks, from).contains(target) ==> exists|start: int, end: int|
            from <= start && #[trigger] is_bracketed(body, marks, start, end, target),
    decreases body.len() - from,
{
    law_next_place(body, seq!['[', '['], from);
    if let Some(start) = markdown::next_at(body, seq!['[', '['], from) {
        law_next_place(body, seq![']', ']'], start + 2);
        if let Some(end) = markdown::next_at(body, seq![']', ']'], start + 2) {
            if end + 2 <= body.len() {
                law_bracketed_links_stand_there(body, marks, end + 2, target);
                let named = markdown::bracket_target(body.subrange(start + 2, end));
                if markdown::bracketed(body, marks, from).contains(target) {
                    if markdown::bracketed(body, marks, end + 2).contains(target) {
                        let (a, b) = choose|a: int, b: int|
                            end + 2 <= a && #[trigger] is_bracketed(body, marks, a, b, target);
                        assert(is_bracketed(body, marks, a, b, target));
                    } else {
                        assert(named == target);
                        assert(is_bracketed(body, marks, start, end, target));
                    }
                }
            }
        }
    }
}

/// The next brackets on a page name a target of the page, unless they stand in code or name
/// nothing, and so do the brackets behind them.
pub proof fn law_next_brackets_are_a_link(
    body: Seq<char>,
    marks: Seq<MarkView>,
    from: int,
    start: int,
    end: int,
    target: Seq<char>,
)
    requires
        0 <= from <= start,
        forall|k: int| from <= k < start ==> !text::stands_at(body, seq!['[', '['], k),
        forall|k: int| start + 2 <= k < end ==> !text::stands_at(body, seq![']', ']'], k),
        start + 2 <= end,
        end + 2 <= body.len(),
        text::stands_at(body, seq!['[', '['], start),
        text::stands_at(body, seq![']', ']'], end),
    ensures
        is_bracketed(body, marks, start, end, target) ==> markdown::bracketed(
            body,
            marks,
            from,
        ).contains(target),
        markdown::bracketed(body, marks, end + 2).contains(target) ==> markdown::bracketed(
            body,
            marks,
            from,
        ).contains(target),
{
    law_next_place(body, seq!['[', '['], from);
    law_next_place(body, seq![']', ']'], start + 2);
    assert(markdown::next_at(body, seq!['[', '['], from) == Some(start)) by {
        let at = markdown::next_at(body, seq!['[', '['], from);
        if let Some(one) = at {
            if one < start {
                assert(!text::stands_at(body, seq!['[', '['], one));
            }
        }
    }
    assert(markdown::next_at(body, seq![']', ']'], start + 2) == Some(end)) by {
        let at = markdown::next_at(body, seq![']', ']'], start + 2);
        if let Some(one) = at {
            if one < end {
                assert(!text::stands_at(body, seq![']', ']'], one));
            }
        }
    }
}

/// Headings stand in one line with a blank between them.
pub proof fn law_headings_stand_apart(list: Seq<Seq<char>>, one: Seq<char>)
    ensures
        indexing::spaced_out(seq![one]) == one,
        list.len() > 0 ==> indexing::spaced_out(list.push(one)) == indexing::spaced_out(list)
            + seq![' '] + one,
{
    reveal_strlit(" ");
    assert(" "@ =~= seq![' ']);
    if list.len() > 0 {
        assert(list.push(one).drop_last() =~= list);
    }
}

/// A store that a step leads to, or that is past it, does not need the step.
pub proof fn law_steps_are_taken_once(step: Migration, current: int)
    requires
        current <= 19,
    ensures
        versions::leads_to(step) <= current ==> (versions::rung_state(step, current) matches Ok(
            climb,
        ) && !climb),
        versions::leads_to(step) > current ==> (versions::rung_state(step, current) is Ok
            <==> versions::starts_at(step, current)),
{
}

} // verus!
