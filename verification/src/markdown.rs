//! What the store reads out of Markdown: the links of a page, and the marks by
//! which its structure is judged.
use crate::text;
use crate::text::{ends_with, string_of, trim, white};
use pulldown_cmark::Event::{Code, End, HardBreak, SoftBreak, Start, Text};
use pulldown_cmark::Tag::{Heading, Link};
use pulldown_cmark::{Options, Parser, Tag, TagEnd};
use vstd::prelude::*;
use vstd::utf8;

verus! {

// ---------------------------------------------------------------------------
// Marks
// ---------------------------------------------------------------------------

/// What stands at a place of a Markdown text.
pub enum MarkKind {
    HeadingStart(u8),
    HeadingEnd,
    CodeStart,
    CodeEnd,
    Link(String),
    Text(String),
    Code(String),
    SoftBreak,
    HardBreak,
    Other,
}

#[verifier::ext_equal]
pub enum MarkKindView {
    HeadingStart(u8),
    HeadingEnd,
    CodeStart,
    CodeEnd,
    Link(Seq<char>),
    Text(Seq<char>),
    Code(Seq<char>),
    SoftBreak,
    HardBreak,
    Other,
}

/// A mark, and the bytes of the text that it covers.
pub struct Mark {
    pub kind: MarkKind,
    pub start: usize,
    pub end: usize,
}

#[verifier::ext_equal]
pub struct MarkView {
    pub kind: MarkKindView,
    pub start: usize,
    pub end: usize,
}

impl View for MarkKind {
    type V = MarkKindView;

    open spec fn view(&self) -> MarkKindView {
        match *self {
            MarkKind::HeadingStart(level) => MarkKindView::HeadingStart(level),
            MarkKind::HeadingEnd => MarkKindView::HeadingEnd,
            MarkKind::CodeStart => MarkKindView::CodeStart,
            MarkKind::CodeEnd => MarkKindView::CodeEnd,
            MarkKind::Link(destination) => MarkKindView::Link(destination@),
            MarkKind::Text(said) => MarkKindView::Text(said@),
            MarkKind::Code(said) => MarkKindView::Code(said@),
            MarkKind::SoftBreak => MarkKindView::SoftBreak,
            MarkKind::HardBreak => MarkKindView::HardBreak,
            MarkKind::Other => MarkKindView::Other,
        }
    }
}

impl View for Mark {
    type V = MarkView;

    open spec fn view(&self) -> MarkView {
        MarkView { kind: self.kind@, start: self.start, end: self.end }
    }
}

/// The marks of a Markdown text with every extension switched on.
pub uninterp spec fn markdown_marks(body: Seq<char>) -> Seq<MarkView>;

/// `pulldown_cmark::Parser`, with all of its options and with byte ranges: the
/// events are a function of the text. Each is carried over for one mark; a
/// heading's level is its number from 1 to 6.
#[verifier::external_body]
pub(crate) fn parse_markdown(body: &str) -> (r: Vec<Mark>)
    ensures
        text::views(r@) == markdown_marks(body@),
{
    let convert = |event| match event {
        Start(Heading { level, .. }) => MarkKind::HeadingStart(level as u8),
        End(TagEnd::Heading(_)) => MarkKind::HeadingEnd,
        Start(Tag::CodeBlock(_)) => MarkKind::CodeStart,
        End(TagEnd::CodeBlock) => MarkKind::CodeEnd,
        Start(Link { dest_url, .. }) => MarkKind::Link(dest_url.to_string()),
        Text(said) => MarkKind::Text(said.to_string()),
        Code(said) => MarkKind::Code(said.to_string()),
        SoftBreak => MarkKind::SoftBreak,
        HardBreak => MarkKind::HardBreak,
        _ => MarkKind::Other,
    };
    let events = Parser::new_ext(body, Options::all()).into_offset_iter();
    events.map(|(e, at)| Mark { kind: convert(e), start: at.start, end: at.end }).collect()
}

// ---------------------------------------------------------------------------
// Lower case
// ---------------------------------------------------------------------------

/// A text in lower case.
pub uninterp spec fn lowered(s: Seq<char>) -> Seq<char>;

/// `str::to_lowercase`: the lower case of a text, which the Unicode tables fix.
#[verifier::external_body]
pub(crate) fn lower(s: &str) -> (r: String)
    ensures
        r@ == lowered(s@),
{
    s.to_lowercase()
}

/// A text in lower case holds one of the phrases by which a document is taken for
/// one that only leads to others.
pub open spec fn holds_navigation(s: Seq<char>) -> bool {
    ||| text::holds_text(s, "总览文档"@)
    ||| text::holds_text(s, "文档目录"@)
    ||| text::holds_text(s, "table of contents"@)
    ||| text::holds_text(s, "navigation index"@)
    ||| text::holds_text(s, "document index"@)
}

/// A document that only leads to others.
pub open spec fn is_navigation(s: Seq<char>) -> bool {
    holds_navigation(lowered(s))
}

/// Whether a document only leads to others.
pub fn has_structural_navigation_marker(body: &str) -> (r: bool)
    ensures
        r == is_navigation(body@),
{
    let body = lower(body);
    names_navigation(body.as_str())
}

/// Whether a text in lower case holds one of the phrases of navigation.
pub fn names_navigation(body: &str) -> (r: bool)
    ensures
        r == holds_navigation(body@),
{
    text::contains_text(body, "总览文档") || text::contains_text(body, "文档目录")
        || text::contains_text(body, "table of contents") || text::contains_text(
        body,
        "navigation index",
    ) || text::contains_text(body, "document index")
}

// ---------------------------------------------------------------------------
// Headings
// ---------------------------------------------------------------------------

/// A text with its white space closed up, and whether a gap follows.
#[verifier::ext_equal]
pub struct SqueezedView {
    pub text: Seq<char>,
    pub gap: bool,
}

/// The words of a text with one space between them.
pub open spec fn squeezed(s: Seq<char>) -> SqueezedView
    decreases s.len(),
{
    if s.len() == 0 {
        SqueezedView { text: Seq::empty(), gap: false }
    } else {
        let head = squeezed(s.drop_last());
        if text::is_white(s.last()) {
            SqueezedView { text: head.text, gap: head.text.len() > 0 }
        } else if head.gap {
            SqueezedView { text: head.text.push(' ').push(s.last()), gap: false }
        } else {
            SqueezedView { text: head.text.push(s.last()), gap: false }
        }
    }
}

/// The form in which headings are compared.
pub open spec fn heading(s: Seq<char>) -> Seq<char> {
    lowered(squeezed(s).text)
}

/// The form in which headings are compared.
pub fn normalize_heading(value: &str) -> (r: String)
    ensures
        r@ == heading(value@),
{
    lower(squeeze(value).as_str())
}

/// The words of a text with one space between them.
pub fn squeeze(value: &str) -> (r: String)
    ensures
        r@ == squeezed(value@).text,
{
    let chars = text::chars_of(value);
    let mut out: Vec<char> = Vec::new();
    let mut gap = false;
    let mut i: usize = 0;
    while i < chars.len()
        invariant
            i <= chars@.len(),
            squeezed(chars@.take(i as int)) == (SqueezedView { text: out@, gap }),
        decreases chars@.len() - i,
    {
        assert(chars@.take(i + 1).drop_last() =~= chars@.take(i as int));
        if white(chars[i]) {
            gap = out.len() > 0;
        } else {
            if gap {
                out.push(' ');
                gap = false;
            }
            out.push(chars[i]);
        }
        i += 1;
    }
    assert(chars@.take(i as int) =~= chars@);
    string_of(&out)
}

// ---------------------------------------------------------------------------
// Link destinations
// ---------------------------------------------------------------------------

/// An ASCII letter in lower case; any other character as it is.
pub open spec fn ascii_lower(c: char) -> char {
    if 'A' <= c <= 'Z' {
        ((c as u32) + 32) as char
    } else {
        c
    }
}

/// A text whose ASCII letters are in lower case.
pub open spec fn ascii_lowered(s: Seq<char>) -> Seq<char> {
    s.map_values(|c: char| ascii_lower(c))
}

fn lower_letter(c: char) -> (r: char)
    ensures
        r == ascii_lower(c),
{
    if 'A' <= c && c <= 'Z' {
        ((c as u8) + 32) as char
    } else {
        c
    }
}

/// A text whose ASCII letters are in lower case.
pub fn ascii_lower_text(s: &str) -> (r: String)
    ensures
        r@ == ascii_lowered(s@),
{
    let chars = text::chars_of(s);
    let mut out: Vec<char> = Vec::new();
    let mut i: usize = 0;
    while i < chars.len()
        invariant
            i <= chars@.len(),
            out@.len() == i,
            forall|j: int| 0 <= j < i ==> #[trigger] out@[j] == ascii_lower(chars@[j]),
        decreases chars@.len() - i,
    {
        out.push(lower_letter(chars[i]));
        i += 1;
    }
    assert(out@ =~= ascii_lowered(chars@));
    string_of(&out)
}

/// What stands before the first character of a kind.
pub open spec fn until(s: Seq<char>, a: char, b: char) -> Seq<char>
    decreases s.len(),
{
    if s.len() == 0 || s[0] == a || s[0] == b {
        Seq::empty()
    } else {
        seq![s[0]] + until(s.drop_first(), a, b)
    }
}

/// What stands behind the last slash.
pub open spec fn leaf(s: Seq<char>) -> Seq<char>
    decreases s.len(),
{
    if s.len() == 0 || s.last() == '/' {
        Seq::empty()
    } else {
        leaf(s.drop_last()).push(s.last())
    }
}

/// The page that a destination names: a Markdown file, by its name alone.
pub open spec fn link_target(destination: Seq<char>) -> Option<Seq<char>> {
    let path = until(destination, '#', '?');
    let name = leaf(path);
    if !".md"@.is_suffix_of(ascii_lowered(path)) {
        None
    } else if name.len() <= 3 {
        Some(name)
    } else {
        Some(name.take(name.len() - 3))
    }
}

/// What stands before the first of two characters.
pub fn before_any(s: &str, a: char, b: char) -> (r: String)
    ensures
        r@ == until(s@, a, b),
{
    let chars = text::chars_of(s);
    let mut out: Vec<char> = Vec::new();
    let mut i: usize = 0;
    assert(chars@.skip(0) =~= chars@);
    assert(out@ + until(chars@, a, b) =~= until(chars@, a, b));
    while i < chars.len() && chars[i] != a && chars[i] != b
        invariant
            i <= chars@.len(),
            out@ + until(chars@.skip(i as int), a, b) == until(chars@, a, b),
        decreases chars@.len() - i,
    {
        let ghost rest = chars@.skip(i as int);
        assert(rest[0] == chars@[i as int]);
        assert(rest.drop_first() =~= chars@.skip(i + 1));
        let ghost was = out@;
        out.push(chars[i]);
        assert(out@ + until(chars@.skip(i + 1), a, b) =~= was + until(rest, a, b));
        i += 1;
    }
    proof {
        let rest = chars@.skip(i as int);
        if i < chars@.len() {
            assert(rest[0] == chars@[i as int]);
        }
        assert(until(rest, a, b) =~= Seq::<char>::empty());
        assert(out@ + until(rest, a, b) =~= out@);
    }
    string_of(&out)
}

proof fn lemma_leaf(s: Seq<char>, from: int)
    requires
        0 <= from <= s.len(),
        from > 0 ==> s[from - 1] == '/',
        forall|j: int| from <= j < s.len() ==> s[j] != '/',
    ensures
        leaf(s) == s.skip(from),
    decreases s.len() - from,
{
    if from == s.len() {
        assert(s.skip(from) =~= Seq::<char>::empty());
    } else {
        let head = s.drop_last();
        lemma_leaf(head, from);
        assert(head.skip(from).push(s.last()) =~= s.skip(from));
    }
}

/// The page that a destination names.
pub fn markdown_link_target(destination: &str) -> (r: Option<String>)
    ensures
        text::opt_text(r) == link_target(destination@),
{
    let path = before_any(destination, '#', '?');
    let small = ascii_lower_text(path.as_str());
    if !ends_with(small.as_str(), ".md") {
        return None;
    }
    let chars = text::chars_of(path.as_str());
    let mut from: usize = chars.len();
    while from > 0 && chars[from - 1] != '/'
        invariant
            from <= chars@.len(),
            forall|j: int| from <= j < chars@.len() ==> chars@[j] != '/',
        decreases from,
    {
        from -= 1;
    }
    proof {
        lemma_leaf(chars@, from as int);
    }
    let len: usize = chars.len() - from;
    let to: usize = if len <= 3 {
        chars.len()
    } else {
        chars.len() - 3
    };
    assert(chars@.subrange(from as int, to as int) =~= link_target(destination@)->0);
    Some(text::slice_text(&chars, from, to))
}

// ---------------------------------------------------------------------------
// The links of a page
// ---------------------------------------------------------------------------

/// How many code blocks are open before the mark at `count`.
pub open spec fn code_depth(marks: Seq<MarkView>, count: nat) -> nat
    decreases count,
{
    if count == 0 || count > marks.len() {
        0
    } else {
        let depth = code_depth(marks, (count - 1) as nat);
        match marks[count - 1].kind {
            MarkKindView::CodeStart => depth + 1,
            MarkKindView::CodeEnd => if depth > 0 {
                (depth - 1) as nat
            } else {
                0
            },
            _ => depth,
        }
    }
}

/// The mark at `k` covers code.
pub open spec fn is_code(marks: Seq<MarkView>, k: int) -> bool {
    marks[k].kind is CodeStart || marks[k].kind is CodeEnd || marks[k].kind is Code || code_depth(
        marks,
        k as nat,
    ) > 0
}

/// The byte at `at` stands in code.
pub open spec fn in_code(marks: Seq<MarkView>, at: int) -> bool {
    exists|k: int|
        0 <= k < marks.len() && #[trigger] is_code(marks, k) && marks[k].start <= at
            < marks[k].end
}

/// The mark at `k` is a link outside code to the page `target`.
pub open spec fn links_to(marks: Seq<MarkView>, k: int, target: Seq<char>) -> bool {
    marks[k].kind is Link && code_depth(marks, k as nat) == 0 && link_target(
        marks[k].kind->Link_0,
    ) == Some(target) && target.len() > 0
}

/// The pages that the Markdown links lead to.
pub open spec fn linked(marks: Seq<MarkView>) -> Set<Seq<char>> {
    Set::new(
        |target: Seq<char>|
            exists|k: int| 0 <= k < marks.len() && #[trigger] links_to(marks, k, target),
    )
}

/// The first place at `from` or behind it where `needle` stands.
pub open spec fn next_at(s: Seq<char>, needle: Seq<char>, from: int) -> Option<int>
    decreases s.len() - from + 1,
{
    if from < 0 || from + needle.len() > s.len() {
        None
    } else if text::stands_at(s, needle, from) {
        Some(from)
    } else {
        next_at(s, needle, from + 1)
    }
}

/// The page that a bracketed link names: what stands before `|` and `#`.
pub open spec fn bracket_target(inner: Seq<char>) -> Seq<char> {
    text::trimmed(until(inner, '|', '#'))
}

/// The pages that the bracketed links lead to.
pub open spec fn bracketed(body: Seq<char>, marks: Seq<MarkView>, from: int) -> Set<Seq<char>>
    decreases body.len() - from,
{
    match next_at(body, seq!['[', '['], from) {
        None => Set::empty(),
        Some(start) => match next_at(body, seq![']', ']'], start + 2) {
            None => Set::empty(),
            Some(end) => if from <= start && start + 2 <= end && end + 2 <= body.len() {
                let rest = bracketed(body, marks, end + 2);
                let target = bracket_target(body.subrange(start + 2, end));
                if target.len() > 0 && !in_code(marks, text::byte_count(body.take(start)) as int) {
                    rest.insert(target)
                } else {
                    rest
                }
            } else {
                Set::empty()
            },
        },
    }
}

/// The pages that a page with these marks links to, in ascending order.
pub open spec fn links_with(body: Seq<char>, marks: Seq<MarkView>) -> Seq<Seq<char>> {
    text::sorted(linked(marks) + bracketed(body, marks, 0))
}

/// The pages that a page links to, in ascending order.
pub open spec fn page_links(body: Seq<char>) -> Seq<Seq<char>> {
    links_with(body, markdown_marks(body))
}

proof fn lemma_next_at(s: Seq<char>, needle: Seq<char>, from: int)
    requires
        0 <= from,
    ensures
        match next_at(s, needle, from) {
            Some(at) => from <= at && at + needle.len() <= s.len(),
            None => true,
        },
    decreases s.len() - from + 1,
{
    if from + needle.len() > s.len() || text::stands_at(s, needle, from) {
    } else {
        lemma_next_at(s, needle, from + 1);
    }
}

/// The first place at `from` or behind it where a character stands twice.
fn find_double(chars: &Vec<char>, c: char, from: usize) -> (r: Option<usize>)
    ensures
        match next_at(chars@, seq![c, c], from as int) {
            Some(at) => r matches Some(found) && found == at && from <= found && found + 2
                <= chars@.len(),
            None => r is None,
        },
{
    let ghost needle = seq![c, c];
    proof {
        lemma_next_at(chars@, needle, from as int);
    }
    let mut at: usize = from;
    while at < chars.len() && chars.len() - at >= 2
        invariant
            from <= at,
            next_at(chars@, needle, from as int) == next_at(chars@, needle, at as int),
        decreases chars@.len() - at,
    {
        let hit = chars[at] == c && chars[at + 1] == c;
        proof {
            let here = chars@.subrange(at as int, at + 2);
            if hit {
                assert(here =~= needle);
            } else {
                assert(here[0] == chars@[at as int] && here[1] == chars@[at + 1]);
                assert(needle[0] == c && needle[1] == c);
            }
            assert(text::stands_at(chars@, needle, at as int) == hit);
        }
        if hit {
            return Some(at);
        }
        at += 1;
    }
    None
}

proof fn lemma_encode_push(s: Seq<char>, c: char)
    ensures
        text::byte_count(s.push(c)) == text::byte_count(s) + utf8::encode_utf8(seq![c]).len(),
    decreases s.len(),
{
    reveal_with_fuel(utf8::encode_utf8, 2);
    if s.len() == 0 {
        assert(s.push(c) =~= seq![c]);
    } else {
        assert(s.push(c).drop_first() =~= s.drop_first().push(c));
        assert(s.push(c)[0] == s[0]);
        lemma_encode_push(s.drop_first(), c);
    }
}

proof fn lemma_char_width(c: char)
    ensures
        utf8::encode_utf8(seq![c]).len() == (if (c as u32) < 0x80 {
            1
        } else if (c as u32) < 0x800 {
            2
        } else if (c as u32) < 0x10000 {
            3
        } else {
            4int
        }),
{
    reveal_with_fuel(utf8::encode_utf8, 2);
    assert(seq![c].drop_first() =~= Seq::<char>::empty());
    assert(seq![c][0] == c);
}

/// The number of bytes before the character at `to`, counted on from `from`.
fn bytes_to(chars: &Vec<char>, from: usize, so_far: u128, to: usize) -> (r: u128)
    requires
        from <= to <= chars@.len(),
        so_far == text::byte_count(chars@.take(from as int)),
        so_far <= 4 * from,
    ensures
        r == text::byte_count(chars@.take(to as int)),
        r <= 4 * to,
{
    let mut count: u128 = so_far;
    let mut i: usize = from;
    while i < to
        invariant
            from <= i <= to <= chars@.len(),
            count == text::byte_count(chars@.take(i as int)),
            count <= 4 * i,
        decreases to - i,
    {
        proof {
            assert(chars@.take(i + 1) =~= chars@.take(i as int).push(chars@[i as int]));
            lemma_encode_push(chars@.take(i as int), chars@[i as int]);
            lemma_char_width(chars@[i as int]);
        }
        let c = chars[i] as u32;
        let width: u128 = if c < 0x80 {
            1
        } else if c < 0x800 {
            2
        } else if c < 0x10000 {
            3
        } else {
            4
        };
        count = count + width;
        i += 1;
    }
    count
}

/// Whether the byte at `at` stands in code.
fn stands_in_code(ranges: &Vec<(usize, usize)>, at: u128) -> (r: bool)
    ensures
        r == in_ranges(ranges@, at as int),
{
    let mut i: usize = 0;
    while i < ranges.len()
        invariant
            i <= ranges@.len(),
            forall|k: int|
                0 <= k < i ==> !((#[trigger] ranges@[k]).0 <= at && at < ranges@[k].1),
        decreases ranges@.len() - i,
    {
        if ranges[i].0 as u128 <= at && at < ranges[i].1 as u128 {
            assert(ranges@[i as int].0 <= at < ranges@[i as int].1);
            return true;
        }
        i += 1;
    }
    false
}

/// The byte at `at` stands in one of the ranges.
spec fn in_ranges(ranges: Seq<(usize, usize)>, at: int) -> bool {
    exists|k: int| 0 <= k < ranges.len() && (#[trigger] ranges[k]).0 <= at < ranges[k].1
}

/// The ranges of code among the first `count` marks.
spec fn covers(ranges: Seq<(usize, usize)>, marks: Seq<MarkView>, count: int) -> bool {
    forall|at: int| in_ranges(ranges, at) == #[trigger] in_code_among(marks, count, at)
}

spec fn in_code_among(marks: Seq<MarkView>, count: int, at: int) -> bool {
    exists|k: int| 0 <= k < count && #[trigger] is_code(marks, k) && marks[k].start <= at
        < marks[k].end
}

spec fn linked_among(marks: Seq<MarkView>, count: int) -> Set<Seq<char>> {
    Set::new(
        |target: Seq<char>| exists|k: int| 0 <= k < count && #[trigger] links_to(marks, k, target),
    )
}

proof fn lemma_covers_more(
    ranges: Seq<(usize, usize)>,
    marks: Seq<MarkView>,
    count: int,
    added: bool,
)
    requires
        covers(ranges, marks, count),
        0 <= count < marks.len(),
        added == is_code(marks, count),
    ensures
        added ==> covers(ranges.push((marks[count].start, marks[count].end)), marks, count + 1),
        !added ==> covers(ranges, marks, count + 1),
{
    let now = if added {
        ranges.push((marks[count].start, marks[count].end))
    } else {
        ranges
    };
    assert forall|at: int| in_ranges(now, at) == #[trigger] in_code_among(marks, count + 1, at) by {
        assert(in_ranges(ranges, at) == in_code_among(marks, count, at));
        if in_ranges(now, at) {
            let k = choose|k: int| 0 <= k < now.len() && (#[trigger] now[k]).0 <= at < now[k].1;
            if k < ranges.len() {
                assert(ranges[k] == now[k]);
                assert(in_code_among(marks, count, at));
                let j = choose|j: int|
                    0 <= j < count && #[trigger] is_code(marks, j) && marks[j].start <= at
                        < marks[j].end;
                assert(is_code(marks, j));
            } else {
                assert(is_code(marks, count));
            }
        }
        if in_code_among(marks, count + 1, at) {
            let j = choose|j: int|
                0 <= j < count + 1 && #[trigger] is_code(marks, j) && marks[j].start <= at
                    < marks[j].end;
            if j < count {
                assert(in_code_among(marks, count, at));
                let k = choose|k: int|
                    0 <= k < ranges.len() && (#[trigger] ranges[k]).0 <= at < ranges[k].1;
                assert(now[k] == ranges[k]);
            } else {
                assert(now[ranges.len() as int] == (marks[count].start, marks[count].end));
            }
        }
    }
}

/// The pages that a page links to, in ascending order.
pub fn extract_links(body: &str) -> (r: Vec<String>)
    ensures
        text::views(r@) == page_links(body@),
        text::ascending(text::views(r@)),
{
    let marks = parse_markdown(body);
    links_among(body, &marks)
}

/// The pages that a page with these marks links to, in ascending order.
pub fn links_among(body: &str, marks: &Vec<Mark>) -> (r: Vec<String>)
    ensures
        text::views(r@) == links_with(body@, text::views(marks@)),
        text::ascending(text::views(r@)),
{
    let ghost all = text::views(marks@);
    let mut links: Vec<String> = Vec::new();
    let mut ranges: Vec<(usize, usize)> = Vec::new();
    let mut depth: usize = 0;
    let mut i: usize = 0;
    assert(text::views(links@).to_set() =~= linked_among(all, 0));
    while i < marks.len()
        invariant
            i <= marks@.len() == all.len(),
            all == text::views(marks@),
            depth == code_depth(all, i as nat),
            depth <= i,
            covers(ranges@, all, i as int),
            text::ascending(text::views(links@)),
            text::views(links@).to_set() == linked_among(all, i as int),
        decreases marks@.len() - i,
    {
        let mark = &marks[i];
        let ghost known = text::views(links@).to_set();
        assert(all[i as int] == mark@);
        let mut code = depth > 0;
        let mut found: Option<String> = None;
        match &mark.kind {
            MarkKind::CodeStart => {
                code = true;
                depth = depth + 1;
            },
            MarkKind::CodeEnd => {
                code = true;
                if depth > 0 {
                    depth = depth - 1;
                }
            },
            MarkKind::Code(_) => {
                code = true;
            },
            MarkKind::Link(destination) => {
                if depth == 0 {
                    found = markdown_link_target(destination.as_str());
                }
            },
            _ => {},
        }
        if let Some(target) = &found {
            if !target.as_str().is_empty() {
                text::add_text(&mut links, target.as_str());
            }
        }
        proof {
            lemma_covers_more(ranges@, all, i as int, code);
            assert forall|t: Seq<char>|
                text::views(links@).to_set().contains(t) == linked_among(all, i + 1).contains(
                    t,
                ) by {
                assert(known.contains(t) == linked_among(all, i as int).contains(t));
                if linked_among(all, i as int).contains(t) {
                    let k = choose|k: int| 0 <= k < i && #[trigger] links_to(all, k, t);
                    assert(links_to(all, k, t));
                }
                if linked_among(all, i + 1).contains(t) {
                    let k = choose|k: int| 0 <= k < i + 1 && #[trigger] links_to(all, k, t);
                    assert(k < i || k == i);
                }
                assert(links_to(all, i as int, t) == (found matches Some(target) && target@ == t
                    && t.len() > 0));
            }
            assert(text::views(links@).to_set() =~= linked_among(all, i + 1));
        }
        if code {
            ranges.push((mark.start, mark.end));
        }
        i += 1;
    }
    let chars = text::chars_of(body);
    let ghost start_set = text::views(links@).to_set();
    proof {
        assert(linked_among(all, all.len() as int) =~= linked(all));
        assert(start_set == linked(all));
    }
    let mut at: usize = 0;
    let mut bytes: u128 = 0;
    assert(chars@.take(0) =~= Seq::<char>::empty());
    let ghost goal = linked(all) + bracketed(body@, all, 0);
    assert(text::views(links@).to_set() + bracketed(body@, all, 0) =~= goal);
    while at < chars.len()
        invariant
            at <= chars@.len(),
            chars@ == body@,
            bytes == text::byte_count(chars@.take(at as int)),
            bytes <= 4 * at,
            text::ascending(text::views(links@)),
            text::views(links@).to_set() + bracketed(body@, all, at as int) == goal,
        decreases chars@.len() - at,
    {
        let ghost have = text::views(links@).to_set();
        let start = match find_double(&chars, '[', at) {
            Some(start) => start,
            None => {
                assert(have + bracketed(body@, all, at as int) =~= have);
                break;
            },
        };
        let end = match find_double(&chars, ']', start + 2) {
            Some(end) => end,
            None => {
                assert(have + bracketed(body@, all, at as int) =~= have);
                break;
            },
        };
        let here = bytes_to(&chars, at, bytes, start);
        let inner = text::slice_text(&chars, start + 2, end);
        let cut = before_any(inner.as_str(), '|', '#');
        let target = trim(cut.as_str());
        let hidden = stands_in_code(&ranges, here);
        proof {
            assert(in_code(all, here as int) == in_code_among(all, all.len() as int, here as int));
            assert(hidden == in_code(all, here as int));
        }
        if !hidden && !target.as_str().is_empty() {
            text::add_text(&mut links, target.as_str());
        }
        proof {
            let rest = bracketed(body@, all, end + 2);
            assert(text::views(links@).to_set() + rest =~= have + bracketed(
                body@,
                all,
                at as int,
            ));
        }
        bytes = bytes_to(&chars, start, here, end + 2);
        at = end + 2;
    }
    proof {
        if at >= chars@.len() {
            assert(next_at(body@, seq!['[', '['], at as int) is None);
            assert(text::views(links@).to_set() + bracketed(body@, all, at as int)
                =~= text::views(links@).to_set());
        }
        assert(text::views(links@).to_set() == goal);
        text::lemma_sorted_is(text::views(links@));
    }
    links
}

} // verus!
