//! Text as sequences of characters: comparison, trimming, numbers in decimal,
//! and ordered sets of texts.
use vstd::prelude::*;
use vstd::utf8;

verus! {

// ---------------------------------------------------------------------------
// Building and comparing strings
// ---------------------------------------------------------------------------

/// `String::push` of the standard library appends one character.
pub assume_specification[ String::push ](s: &mut String, c: char)
    ensures
        final(s)@ == old(s)@.push(c),
;

/// `str::eq` of the standard library: two strings are equal when they hold the
/// same characters.
#[verifier::external_body]
pub(crate) fn same_text(a: &str, b: &str) -> (same: bool)
    ensures
        same == (a@ == b@),
{
    a == b
}

/// The views of the items of a sequence.
pub open spec fn views<T: View>(items: Seq<T>) -> Seq<T::V> {
    items.map_values(|item: T| item@)
}

pub proof fn lemma_views_push<T: View>(items: Seq<T>, item: T)
    ensures
        views(items.push(item)) == views(items).push(item@),
{
    assert(views(items.push(item)) =~= views(items).push(item@));
}

/// The view of an optional text.
pub open spec fn opt_text(text: Option<String>) -> Option<Seq<char>> {
    match text {
        Some(value) => Some(value@),
        None => None,
    }
}

/// The view of an optional value.
pub open spec fn opt_view<T: View>(value: Option<T>) -> Option<T::V> {
    match value {
        Some(inner) => Some(inner@),
        None => None,
    }
}

/// A string with the characters of `s`.
pub fn owned(s: &str) -> (r: String)
    ensures
        r@ == s@,
{
    s.to_owned()
}

pub fn copy_opt(s: &Option<String>) -> (r: Option<String>)
    ensures
        opt_text(r) == opt_text(*s),
{
    match s {
        Some(text) => Some(owned(text.as_str())),
        None => None,
    }
}

pub fn same_opt(a: &Option<String>, b: &Option<String>) -> (same: bool)
    ensures
        same == (opt_text(*a) == opt_text(*b)),
{
    match (a, b) {
        (Some(x), Some(y)) => same_text(x.as_str(), y.as_str()),
        (None, None) => true,
        _ => false,
    }
}

/// The characters of `s`, one by one.
pub fn chars_of(s: &str) -> (r: Vec<char>)
    ensures
        r@ == s@,
{
    let mut out: Vec<char> = Vec::new();
    for c in it: s.chars()
        invariant
            it.seq() == s@,
            out@ == s@.take(it.index()),
    {
        out.push(c);
        assert(s@.take(it.index() + 1) =~= s@.take(it.index()).push(c));
    }
    assert(s@.take(s@.len() as int) =~= s@);
    out
}

/// The string of the characters `from..to` of `chars`.
pub fn slice_text(chars: &Vec<char>, from: usize, to: usize) -> (r: String)
    requires
        from <= to <= chars@.len(),
    ensures
        r@ == chars@.subrange(from as int, to as int),
{
    let mut out = String::new();
    let mut i: usize = from;
    while i < to
        invariant
            from <= i <= to <= chars@.len(),
            out@ == chars@.subrange(from as int, i as int),
        decreases to - i,
    {
        out.push(chars[i]);
        assert(chars@.subrange(from as int, i + 1) =~= chars@.subrange(from as int, i as int).push(
            chars@[i as int],
        ));
        i += 1;
    }
    out
}

pub fn string_of(chars: &Vec<char>) -> (r: String)
    ensures
        r@ == chars@,
{
    let r = slice_text(chars, 0, chars.len());
    assert(chars@.subrange(0, chars@.len() as int) =~= chars@);
    r
}

pub fn join2(a: &str, b: &str) -> (r: String)
    ensures
        r@ == a@ + b@,
{
    let mut out = owned(a);
    for c in it: b.chars()
        invariant
            it.seq() == b@,
            out@ == a@ + b@.take(it.index()),
    {
        out.push(c);
        assert(b@.take(it.index() + 1) =~= b@.take(it.index()).push(c));
        assert(a@ + b@.take(it.index() + 1) =~= (a@ + b@.take(it.index())).push(c));
    }
    assert(b@.take(b@.len() as int) =~= b@);
    out
}

pub fn join3(a: &str, b: &str, c: &str) -> (r: String)
    ensures
        r@ == a@ + b@ + c@,
{
    join2(join2(a, b).as_str(), c)
}

pub fn join4(a: &str, b: &str, c: &str, d: &str) -> (r: String)
    ensures
        r@ == a@ + b@ + c@ + d@,
{
    join2(join3(a, b, c).as_str(), d)
}

pub fn join5(a: &str, b: &str, c: &str, d: &str, e: &str) -> (r: String)
    ensures
        r@ == a@ + b@ + c@ + d@ + e@,
{
    join2(join4(a, b, c, d).as_str(), e)
}

/// The number of bytes of `s` in UTF-8.
pub open spec fn byte_count(s: Seq<char>) -> nat {
    utf8::encode_utf8(s).len()
}

pub fn byte_len(s: &str) -> (n: usize)
    ensures
        n == byte_count(s@),
{
    s.as_bytes().len()
}

/// Whether the text stands in the list.
pub fn has_text(list: &Vec<String>, wanted: &str) -> (found: bool)
    ensures
        found == views(list@).contains(wanted@),
{
    let mut i: usize = 0;
    while i < list.len()
        invariant
            i <= list@.len(),
            forall|j: int| 0 <= j < i ==> views(list@)[j] != wanted@,
        decreases list@.len() - i,
    {
        if same_text(list[i].as_str(), wanted) {
            assert(views(list@)[i as int] == wanted@);
            return true;
        }
        i += 1;
    }
    false
}

pub fn copy_texts(list: &Vec<String>) -> (r: Vec<String>)
    ensures
        views(r@) == views(list@),
{
    let mut out: Vec<String> = Vec::new();
    let mut i: usize = 0;
    while i < list.len()
        invariant
            i <= list@.len(),
            out@.len() == i,
            forall|j: int| 0 <= j < i ==> #[trigger] out@[j]@ == list@[j]@,
        decreases list@.len() - i,
    {
        out.push(owned(list[i].as_str()));
        i += 1;
    }
    assert(views(out@) =~= views(list@));
    out
}

pub fn same_texts(a: &Vec<String>, b: &Vec<String>) -> (same: bool)
    ensures
        same == (views(a@) == views(b@)),
{
    if a.len() != b.len() {
        assert(views(a@).len() != views(b@).len());
        return false;
    }
    let mut i: usize = 0;
    while i < a.len()
        invariant
            i <= a@.len(),
            a@.len() == b@.len(),
            forall|j: int| 0 <= j < i ==> #[trigger] a@[j]@ == b@[j]@,
        decreases a@.len() - i,
    {
        if !same_text(a[i].as_str(), b[i].as_str()) {
            assert(views(a@)[i as int] != views(b@)[i as int]);
            return false;
        }
        i += 1;
    }
    assert(views(a@) =~= views(b@));
    true
}

// ---------------------------------------------------------------------------
// White space and control characters
// ---------------------------------------------------------------------------

/// The characters of Unicode's `White_Space` property.
pub open spec fn is_white(c: char) -> bool {
    let n = c as u32;
    ||| 0x9 <= n <= 0xd
    ||| n == 0x20
    ||| n == 0x85
    ||| n == 0xa0
    ||| n == 0x1680
    ||| 0x2000 <= n <= 0x200a
    ||| n == 0x2028
    ||| n == 0x2029
    ||| n == 0x202f
    ||| n == 0x205f
    ||| n == 0x3000
}

pub fn white(c: char) -> (r: bool)
    ensures
        r == is_white(c),
{
    let n: u32 = c as u32;
    (0x9 <= n && n <= 0xd) || n == 0x20 || n == 0x85 || n == 0xa0 || n == 0x1680 || (0x2000 <= n
        && n <= 0x200a) || n == 0x2028 || n == 0x2029 || n == 0x202f || n == 0x205f || n == 0x3000
}

/// The characters of Unicode's general category `Cc`.
pub open spec fn is_control(c: char) -> bool {
    (c as u32) <= 0x1f || 0x7f <= (c as u32) <= 0x9f
}

pub fn control(c: char) -> (r: bool)
    ensures
        r == is_control(c),
{
    let n: u32 = c as u32;
    n <= 0x1f || (0x7f <= n && n <= 0x9f)
}

/// A text that holds nothing but white space.
pub open spec fn is_blank(s: Seq<char>) -> bool {
    forall|i: int| 0 <= i < s.len() ==> is_white(#[trigger] s[i])
}

pub fn blank(s: &str) -> (r: bool)
    ensures
        r == is_blank(s@),
{
    let chars = chars_of(s);
    let mut i: usize = 0;
    while i < chars.len()
        invariant
            i <= chars@.len(),
            forall|j: int| 0 <= j < i ==> is_white(#[trigger] chars@[j]),
        decreases chars@.len() - i,
    {
        if !white(chars[i]) {
            return false;
        }
        i += 1;
    }
    true
}

/// `s` without the white space at its two ends.
pub open spec fn trimmed(s: Seq<char>) -> Seq<char>
    decreases s.len(),
{
    if s.len() == 0 {
        s
    } else if is_white(s[0]) {
        trimmed(s.drop_first())
    } else if is_white(s.last()) {
        trimmed(s.drop_last())
    } else {
        s
    }
}

pub fn trim(s: &str) -> (r: String)
    ensures
        r@ == trimmed(s@),
{
    let chars = chars_of(s);
    let mut from: usize = 0;
    let mut to: usize = chars.len();
    assert(chars@.subrange(0, chars@.len() as int) =~= s@);
    while from < to && white(chars[from])
        invariant
            from <= to <= chars@.len(),
            to == chars@.len(),
            trimmed(s@) == trimmed(chars@.subrange(from as int, to as int)),
        decreases to - from,
    {
        assert(chars@.subrange(from as int, to as int).drop_first() =~= chars@.subrange(
            from + 1,
            to as int,
        ));
        from += 1;
    }
    while from < to && white(chars[to - 1])
        invariant
            from <= to <= chars@.len(),
            from < chars@.len() ==> !is_white(chars@[from as int]),
            from < to || from == chars@.len(),
            trimmed(s@) == trimmed(chars@.subrange(from as int, to as int)),
        decreases to - from,
    {
        assert(chars@.subrange(from as int, to as int).drop_last() =~= chars@.subrange(
            from as int,
            to - 1,
        ));
        assert(chars@.subrange(from as int, to as int)[0] == chars@[from as int]);
        assert(chars@.subrange(from as int, to as int).last() == chars@[to - 1]);
        to -= 1;
    }
    slice_text(&chars, from, to)
}

/// Trimming leaves nothing of a blank text, and of no other.
pub proof fn lemma_trimmed_blank(s: Seq<char>)
    ensures
        (trimmed(s).len() == 0) == is_blank(s),
    decreases s.len(),
{
    if s.len() == 0 {
    } else if is_white(s[0]) {
        lemma_trimmed_blank(s.drop_first());
        if is_blank(s.drop_first()) {
            assert forall|i: int| 0 <= i < s.len() implies is_white(#[trigger] s[i]) by {
                if i > 0 {
                    assert(s.drop_first()[i - 1] == s[i]);
                }
            }
        } else {
            let i = choose|i: int|
                0 <= i < s.drop_first().len() && !is_white(#[trigger] s.drop_first()[i]);
            assert(!is_white(s[i + 1]));
        }
    } else if is_white(s.last()) {
        lemma_trimmed_blank(s.drop_last());
        assert(s.drop_last()[0] == s[0]);
    }
}

// ---------------------------------------------------------------------------
// Searching
// ---------------------------------------------------------------------------

pub fn begins_with(s: &str, prefix: &str) -> (r: bool)
    ensures
        r == prefix@.is_prefix_of(s@),
{
    let a = chars_of(s);
    let b = chars_of(prefix);
    if b.len() > a.len() {
        return false;
    }
    let mut i: usize = 0;
    while i < b.len()
        invariant
            i <= b@.len() <= a@.len(),
            forall|j: int| 0 <= j < i ==> a@[j] == b@[j],
        decreases b@.len() - i,
    {
        if a[i] != b[i] {
            assert(a@.subrange(0, b@.len() as int)[i as int] != b@[i as int]);
            return false;
        }
        i += 1;
    }
    assert(b@ =~= a@.subrange(0, b@.len() as int));
    true
}

pub fn ends_with(s: &str, suffix: &str) -> (r: bool)
    ensures
        r == suffix@.is_suffix_of(s@),
{
    let a = chars_of(s);
    let b = chars_of(suffix);
    if b.len() > a.len() {
        return false;
    }
    let shift: usize = a.len() - b.len();
    let mut i: usize = 0;
    while i < b.len()
        invariant
            i <= b@.len() <= a@.len(),
            shift == a@.len() - b@.len(),
            forall|j: int| 0 <= j < i ==> a@[shift + j] == b@[j],
        decreases b@.len() - i,
    {
        if a[shift + i] != b[i] {
            assert(a@.subrange(shift as int, a@.len() as int)[i as int] != b@[i as int]);
            return false;
        }
        i += 1;
    }
    assert(b@ =~= a@.subrange(shift as int, a@.len() as int));
    true
}

pub fn has_char(s: &str, wanted: char) -> (r: bool)
    ensures
        r == s@.contains(wanted),
{
    let chars = chars_of(s);
    let mut i: usize = 0;
    while i < chars.len()
        invariant
            i <= chars@.len(),
            forall|j: int| 0 <= j < i ==> chars@[j] != wanted,
        decreases chars@.len() - i,
    {
        if chars[i] == wanted {
            return true;
        }
        i += 1;
    }
    false
}

/// `needle` stands in `s` at position `at`.
pub open spec fn stands_at(s: Seq<char>, needle: Seq<char>, at: int) -> bool {
    0 <= at && at + needle.len() <= s.len() && s.subrange(at, at + needle.len()) == needle
}

/// `needle` stands somewhere in `s`.
pub open spec fn holds_text(s: Seq<char>, needle: Seq<char>) -> bool {
    exists|at: int| stands_at(s, needle, at)
}

pub fn contains_text(s: &str, needle: &str) -> (r: bool)
    ensures
        r == holds_text(s@, needle@),
{
    let a = chars_of(s);
    let b = chars_of(needle);
    if b.len() > a.len() {
        return false;
    }
    let last: usize = a.len() - b.len();
    let mut at: usize = 0;
    loop
        invariant
            at <= last,
            forall|j: int| 0 <= j < at ==> !stands_at(a@, b@, j),
        decreases last - at,
    {
        let mut i: usize = 0;
        let mut equal: bool = true;
        while i < b.len() && equal
            invariant
                b@.len() <= a@.len(),
                at <= a@.len() - b@.len(),
                i <= b@.len(),
                equal ==> forall|j: int| 0 <= j < i ==> a@[at + j] == b@[j],
                !equal ==> !stands_at(a@, b@, at as int),
            decreases b@.len() - i,
        {
            if a[at + i] != b[i] {
                equal = false;
                assert(a@.subrange(at as int, at + b@.len())[i as int] != b@[i as int]);
            }
            i += 1;
        }
        if equal {
            assert(a@.subrange(at as int, at + b@.len()) =~= b@);
            assert(stands_at(s@, needle@, at as int));
            return true;
        }
        if at == last {
            assert forall|j: int| !stands_at(s@, needle@, j) by {}
            return false;
        }
        at += 1;
    }
}

/// Some character is a control character.
pub open spec fn has_control(s: Seq<char>) -> bool {
    exists|i: int| 0 <= i < s.len() && is_control(#[trigger] s[i])
}

pub fn any_control(s: &str) -> (r: bool)
    ensures
        r == has_control(s@),
{
    let chars = chars_of(s);
    let mut i: usize = 0;
    while i < chars.len()
        invariant
            i <= chars@.len(),
            forall|j: int| 0 <= j < i ==> !is_control(#[trigger] chars@[j]),
        decreases chars@.len() - i,
    {
        if control(chars[i]) {
            assert(is_control(s@[i as int]));
            return true;
        }
        i += 1;
    }
    false
}

/// The first `count` characters of a text, or all of it where it is shorter.
pub open spec fn first_chars(s: Seq<char>, count: nat) -> Seq<char> {
    if count <= s.len() {
        s.take(count as int)
    } else {
        s
    }
}

pub fn head_text(s: &str, count: usize) -> (r: String)
    ensures
        r@ == first_chars(s@, count as nat),
{
    let chars = chars_of(s);
    if count <= chars.len() {
        let r = slice_text(&chars, 0, count);
        assert(chars@.subrange(0, count as int) =~= s@.take(count as int));
        r
    } else {
        owned(s)
    }
}

/// `String::from_utf8` of the standard library: bytes are the text that they
/// encode, where they are valid UTF-8.
#[verifier::external_body]
pub(crate) fn utf8_text(bytes: &Vec<u8>) -> (r: Option<String>)
    ensures
        r is Some == utf8::valid_utf8(bytes@),
        r matches Some(t) ==> utf8::encode_utf8(t@) == bytes@,
{
    String::from_utf8(bytes.clone()).ok()
}

/// A lower-case hexadecimal digit.
pub open spec fn is_lower_hex_digit(c: char) -> bool {
    '0' <= c <= '9' || 'a' <= c <= 'f'
}

/// Exactly `count` lower-case hexadecimal digits.
pub open spec fn is_lower_hex(s: Seq<char>, count: nat) -> bool {
    s.len() == count && forall|i: int| 0 <= i < s.len() ==> is_lower_hex_digit(#[trigger] s[i])
}

pub fn lower_hex(s: &str, count: usize) -> (r: bool)
    ensures
        r == is_lower_hex(s@, count as nat),
{
    let chars = chars_of(s);
    if chars.len() != count {
        return false;
    }
    let mut i: usize = 0;
    while i < chars.len()
        invariant
            i <= chars@.len(),
            forall|j: int| 0 <= j < i ==> is_lower_hex_digit(#[trigger] chars@[j]),
        decreases chars@.len() - i,
    {
        let c = chars[i];
        if !(('0' <= c && c <= '9') || ('a' <= c && c <= 'f')) {
            assert(!is_lower_hex_digit(chars@[i as int]));
            return false;
        }
        i += 1;
    }
    true
}

/// A hexadecimal digit of either case.
pub open spec fn is_hex_digit(c: char) -> bool {
    is_lower_hex_digit(c) || 'A' <= c <= 'F'
}

/// Exactly `count` hexadecimal digits of either case.
pub open spec fn is_hex(s: Seq<char>, count: nat) -> bool {
    s.len() == count && forall|i: int| 0 <= i < s.len() ==> is_hex_digit(#[trigger] s[i])
}

pub fn hex(s: &str, count: usize) -> (r: bool)
    ensures
        r == is_hex(s@, count as nat),
{
    let chars = chars_of(s);
    if chars.len() != count {
        return false;
    }
    let mut i: usize = 0;
    while i < chars.len()
        invariant
            i <= chars@.len(),
            forall|j: int| 0 <= j < i ==> is_hex_digit(#[trigger] chars@[j]),
        decreases chars@.len() - i,
    {
        let c = chars[i];
        if !(('0' <= c && c <= '9') || ('a' <= c && c <= 'f') || ('A' <= c && c <= 'F')) {
            assert(!is_hex_digit(chars@[i as int]));
            return false;
        }
        i += 1;
    }
    true
}

/// The parts of `s` between the occurrences of `separator`.
pub open spec fn split_on(s: Seq<char>, separator: char) -> Seq<Seq<char>>
    decreases s.len(),
{
    if !s.contains(separator) {
        seq![s]
    } else {
        let at = s.index_of_first(separator)->0;
        if 0 <= at < s.len() {
            seq![s.take(at)] + split_on(s.skip(at + 1), separator)
        } else {
            seq![s]
        }
    }
}

pub fn split(s: &str, separator: char) -> (r: Vec<String>)
    ensures
        views(r@) == split_on(s@, separator),
        r@.len() > 0,
{
    let chars = chars_of(s);
    let mut out: Vec<String> = Vec::new();
    let mut from: usize = 0;
    let mut i: usize = 0;
    proof {
        assert(chars@.skip(0) =~= s@);
        assert(views(out@) + split_on(chars@.skip(0), separator) =~= split_on(s@, separator));
    }
    while i < chars.len()
        invariant
            from <= i <= chars@.len(),
            forall|j: int| from <= j < i ==> chars@[j] != separator,
            views(out@) + split_on(chars@.skip(from as int), separator) == split_on(s@, separator),
        decreases chars@.len() - i,
    {
        if chars[i] == separator {
            let part = slice_text(&chars, from, i);
            proof {
                let rest = chars@.skip(from as int);
                rest.index_of_first_ensures(separator);
                assert(rest[i - from] == separator);
                let at = rest.index_of_first(separator)->0;
                assert(at == i - from) by {
                    if at < i - from {
                        assert(rest[at] == chars@[from + at]);
                    }
                }
                assert(rest.take(at) =~= chars@.subrange(from as int, i as int));
                assert(rest.skip(at + 1) =~= chars@.skip(i + 1));
                lemma_views_push(out@, part);
                assert(views(out@) + (seq![part@] + split_on(chars@.skip(i + 1), separator))
                    =~= views(out@).push(part@) + split_on(chars@.skip(i + 1), separator));
            }
            out.push(part);
            from = i + 1;
        }
        i += 1;
    }
    let last = slice_text(&chars, from, chars.len());
    proof {
        let rest = chars@.skip(from as int);
        assert(rest =~= last@);
        assert forall|j: int| 0 <= j < rest.len() implies rest[j] != separator by {
            assert(rest[j] == chars@[from + j]);
        }
        assert(!rest.contains(separator));
        lemma_views_push(out@, last);
        assert(views(out@) + seq![last@] =~= views(out@).push(last@));
    }
    out.push(last);
    out
}

// ---------------------------------------------------------------------------
// Order
// ---------------------------------------------------------------------------

/// The lexicographic order of byte strings.
pub open spec fn bytes_before(a: Seq<u8>, b: Seq<u8>) -> bool
    decreases a.len(),
{
    if b.len() == 0 {
        false
    } else if a.len() == 0 {
        true
    } else if a[0] != b[0] {
        a[0] < b[0]
    } else {
        bytes_before(a.drop_first(), b.drop_first())
    }
}

/// The order of texts: that of their UTF-8 bytes.
pub open spec fn before(a: Seq<char>, b: Seq<char>) -> bool {
    bytes_before(utf8::encode_utf8(a), utf8::encode_utf8(b))
}

/// `a` does not come after `b`.
pub open spec fn at_most(a: Seq<char>, b: Seq<char>) -> bool {
    !before(b, a)
}

proof fn lemma_bytes_irreflexive(a: Seq<u8>)
    ensures
        !bytes_before(a, a),
    decreases a.len(),
{
    if a.len() > 0 {
        lemma_bytes_irreflexive(a.drop_first());
    }
}

proof fn lemma_bytes_transitive(a: Seq<u8>, b: Seq<u8>, c: Seq<u8>)
    requires
        bytes_before(a, b),
        bytes_before(b, c),
    ensures
        bytes_before(a, c),
    decreases a.len(),
{
    if a.len() > 0 && a[0] == b[0] && b[0] == c[0] {
        lemma_bytes_transitive(a.drop_first(), b.drop_first(), c.drop_first());
    }
}

proof fn lemma_bytes_total(a: Seq<u8>, b: Seq<u8>)
    ensures
        a == b || bytes_before(a, b) || bytes_before(b, a),
    decreases a.len(),
{
    if a.len() == 0 || b.len() == 0 {
        if a.len() == b.len() {
            assert(a =~= b);
        }
    } else if a[0] == b[0] {
        lemma_bytes_total(a.drop_first(), b.drop_first());
        if a.drop_first() == b.drop_first() {
            assert(a =~= seq![a[0]] + a.drop_first());
            assert(b =~= seq![b[0]] + b.drop_first());
        }
    }
}

pub proof fn lemma_before_irreflexive(a: Seq<char>)
    ensures
        !before(a, a),
{
    lemma_bytes_irreflexive(utf8::encode_utf8(a));
}

pub proof fn lemma_before_transitive(a: Seq<char>, b: Seq<char>, c: Seq<char>)
    requires
        before(a, b),
        before(b, c),
    ensures
        before(a, c),
{
    lemma_bytes_transitive(utf8::encode_utf8(a), utf8::encode_utf8(b), utf8::encode_utf8(c));
}

pub proof fn lemma_before_total(a: Seq<char>, b: Seq<char>)
    ensures
        a == b || before(a, b) || before(b, a),
{
    lemma_bytes_total(utf8::encode_utf8(a), utf8::encode_utf8(b));
    vstd::utf8::encode_utf8_decode_utf8(a);
    vstd::utf8::encode_utf8_decode_utf8(b);
}

pub proof fn lemma_before_asymmetric(a: Seq<char>, b: Seq<char>)
    requires
        before(a, b),
    ensures
        !before(b, a),
        a != b,
{
    lemma_before_irreflexive(a);
    if before(b, a) {
        lemma_before_transitive(a, b, a);
    }
}

/// Whether `a` comes before `b`.
pub fn comes_before(a: &str, b: &str) -> (r: bool)
    ensures
        r == before(a@, b@),
{
    let x = a.as_bytes();
    let y = b.as_bytes();
    let mut i: usize = 0;
    assert(x@.skip(0) =~= x@);
    assert(y@.skip(0) =~= y@);
    while i < x.len() && i < y.len() && x[i] == y[i]
        invariant
            i <= x@.len(),
            i <= y@.len(),
            bytes_before(x@, y@) == bytes_before(x@.skip(i as int), y@.skip(i as int)),
        decreases x@.len() - i,
    {
        assert(x@.skip(i as int).drop_first() =~= x@.skip(i + 1));
        assert(y@.skip(i as int).drop_first() =~= y@.skip(i + 1));
        i += 1;
    }
    if i >= y.len() {
        false
    } else if i >= x.len() {
        true
    } else {
        x[i] < y[i]
    }
}

/// Texts in ascending order, none twice.
pub open spec fn ascending(s: Seq<Seq<char>>) -> bool {
    forall|i: int, j: int| 0 <= i < j < s.len() ==> before(#[trigger] s[i], #[trigger] s[j])
}

/// Of two texts that begin with different ASCII characters the lower character comes first.
pub proof fn lemma_first_decides(a: Seq<char>, b: Seq<char>)
    requires
        a.len() > 0,
        b.len() > 0,
        (a[0] as u32) < (b[0] as u32) < 0x80,
    ensures
        before(a, b),
{
    let x = a[0] as u32;
    let y = b[0] as u32;
    assert((x & 0x7F) as u8 == x) by (bit_vector)
        requires
            x < 0x80,
    ;
    assert((y & 0x7F) as u8 == y) by (bit_vector)
        requires
            y < 0x80,
    ;
    assert(utf8::encode_utf8(a)[0] == utf8::leading_byte_width_1(x));
    assert(utf8::encode_utf8(b)[0] == utf8::leading_byte_width_1(y));
}

/// The members of a set of texts in ascending order.
pub open spec fn sorted(members: Set<Seq<char>>) -> Seq<Seq<char>> {
    choose|s: Seq<Seq<char>>| ascending(s) && s.to_set() == members
}

/// Two ascending lists of the same texts are the same list.
pub proof fn lemma_ascending_unique(a: Seq<Seq<char>>, b: Seq<Seq<char>>)
    requires
        ascending(a),
        ascending(b),
        a.to_set() == b.to_set(),
    ensures
        a == b,
    decreases a.len(),
{
    if a.len() == 0 {
        if b.len() > 0 {
            assert(b.to_set().contains(b[0]));
        }
        assert(a =~= b);
    } else {
        assert(a.to_set().contains(a.last()));
        let j = choose|j: int| 0 <= j < b.len() && b[j] == a.last();
        assert(b.to_set().contains(b.last()));
        let i = choose|i: int| 0 <= i < a.len() && a[i] == b.last();
        if i < a.len() - 1 {
            assert(before(a[i], a.last()));
            if j < b.len() - 1 {
                assert(before(b[j], b.last()));
                lemma_before_asymmetric(a[i], a.last());
            } else {
                lemma_before_asymmetric(a[i], a.last());
            }
        }
        assert(a.last() == b.last());
        let x = a.drop_last();
        let y = b.drop_last();
        assert forall|t: Seq<char>| x.to_set().contains(t) == y.to_set().contains(t) by {
            if x.to_set().contains(t) {
                let k = choose|k: int| 0 <= k < x.len() && x[k] == t;
                assert(before(a[k], a.last()));
                lemma_before_asymmetric(a[k], a.last());
                assert(a.to_set().contains(a[k]));
                let m = choose|m: int| 0 <= m < b.len() && b[m] == t;
                assert(y[m] == t);
            }
            if y.to_set().contains(t) {
                let k = choose|k: int| 0 <= k < y.len() && y[k] == t;
                assert(before(b[k], b.last()));
                lemma_before_asymmetric(b[k], b.last());
                assert(b.to_set().contains(b[k]));
                let m = choose|m: int| 0 <= m < a.len() && a[m] == t;
                assert(x[m] == t);
            }
        }
        assert(x.to_set() =~= y.to_set());
        lemma_ascending_unique(x, y);
        assert(a =~= x.push(a.last()));
        assert(b =~= y.push(b.last()));
    }
}

/// An ascending list has as many texts as its set of texts.
pub proof fn lemma_ascending_len(s: Seq<Seq<char>>)
    requires
        ascending(s),
    ensures
        s.to_set().finite(),
        s.to_set().len() == s.len(),
{
    assert forall|i: int, j: int| 0 <= i < s.len() && 0 <= j < s.len() && i != j implies s[i]
        != s[j] by {
        if i < j {
            lemma_before_asymmetric(s[i], s[j]);
        } else {
            lemma_before_asymmetric(s[j], s[i]);
        }
    }
    assert(s.no_duplicates());
    s.unique_seq_to_set();
    vstd::seq_lib::seq_to_set_is_finite(s);
}

/// An ascending list is what sorting its members gives.
pub proof fn lemma_sorted_is(s: Seq<Seq<char>>)
    requires
        ascending(s),
    ensures
        sorted(s.to_set()) == s,
{
    let chosen = sorted(s.to_set());
    assert(ascending(s) && s.to_set() == s.to_set());
    lemma_ascending_unique(chosen, s);
}

/// Adds `text` to an ascending list of texts; says whether it was new.
pub fn add_text(list: &mut Vec<String>, text: &str) -> (fresh: bool)
    requires
        ascending(views(old(list)@)),
    ensures
        ascending(views(final(list)@)),
        views(final(list)@).to_set() == views(old(list)@).to_set().insert(text@),
        fresh == !views(old(list)@).contains(text@),
{
    let ghost all = views(list@);
    let mut at: usize = 0;
    while at < list.len() && comes_before(list[at].as_str(), text)
        invariant
            at <= list@.len(),
            list@ == old(list)@,
            forall|j: int| 0 <= j < at ==> before(#[trigger] all[j], text@),
        decreases list@.len() - at,
    {
        assert(all[at as int] == list@[at as int]@);
        at += 1;
    }
    if at < list.len() {
        assert(all[at as int] == list@[at as int]@);
        if same_text(list[at].as_str(), text) {
            proof {
                assert(all.contains(text@));
                assert(all.to_set() =~= all.to_set().insert(text@));
            }
            return false;
        }
    }
    let fresh = owned(text);
    list.insert(at, fresh);
    proof {
        let next = views(list@);
        assert(next =~= all.insert(at as int, text@));
        assert forall|j: int| at <= j < all.len() implies before(text@, #[trigger] all[j]) by {
            lemma_before_total(text@, all[at as int]);
            if j > at {
                lemma_before_transitive(text@, all[at as int], all[j]);
            }
        }
        assert forall|i: int, j: int| 0 <= i < j < next.len() implies before(
            #[trigger] next[i],
            #[trigger] next[j],
        ) by {
            let x = if i < at { i } else { i - 1 };
            let y = if j < at { j } else { j - 1 };
            if i != at && j != at {
                assert(before(all[x], all[y]));
            }
        }
        assert forall|t: Seq<char>| next.to_set().contains(t) == all.to_set().insert(
            text@,
        ).contains(t) by {
            if next.contains(t) {
                let k = choose|k: int| 0 <= k < next.len() && next[k] == t;
                if k < at {
                    assert(all[k] == t);
                } else if k > at {
                    assert(all[k - 1] == t);
                }
            }
            if all.contains(t) {
                let k = choose|k: int| 0 <= k < all.len() && all[k] == t;
                if k < at {
                    assert(next[k] == t);
                } else {
                    assert(next[k + 1] == t);
                }
            }
            assert(next[at as int] == text@);
        }
        assert(next.to_set() =~= all.to_set().insert(text@));
        if all.contains(text@) {
            let k = choose|k: int| 0 <= k < all.len() && all[k] == text@;
            lemma_before_irreflexive(text@);
        }
    }
    true
}

/// The texts of `list` in ascending order, each once.
pub fn sorted_texts(list: &Vec<String>) -> (r: Vec<String>)
    ensures
        ascending(views(r@)),
        views(r@).to_set() == views(list@).to_set(),
        views(r@) == sorted(views(list@).to_set()),
{
    let mut out: Vec<String> = Vec::new();
    let mut i: usize = 0;
    assert(views(list@).take(0).to_set() =~= Set::empty());
    assert(views(out@).to_set() =~= Set::empty());
    while i < list.len()
        invariant
            i <= list@.len(),
            ascending(views(out@)),
            views(out@).to_set() == views(list@).take(i as int).to_set(),
        decreases list@.len() - i,
    {
        add_text(&mut out, list[i].as_str());
        proof {
            let all = views(list@);
            assert(all.take(i + 1) =~= all.take(i as int).push(all[i as int]));
            all.take(i as int).lemma_push_to_set_commute(all[i as int]);
        }
        i += 1;
    }
    proof {
        assert(views(list@).take(list@.len() as int) =~= views(list@));
        lemma_sorted_is(views(out@));
    }
    out
}

// ---------------------------------------------------------------------------
// Numbers in decimal
// ---------------------------------------------------------------------------

pub open spec fn digit_char(d: int) -> char {
    if d == 0 {
        '0'
    } else if d == 1 {
        '1'
    } else if d == 2 {
        '2'
    } else if d == 3 {
        '3'
    } else if d == 4 {
        '4'
    } else if d == 5 {
        '5'
    } else if d == 6 {
        '6'
    } else if d == 7 {
        '7'
    } else if d == 8 {
        '8'
    } else {
        '9'
    }
}

fn digit(d: u64) -> (c: char)
    requires
        d < 10,
    ensures
        c == digit_char(d as int),
{
    if d == 0 {
        '0'
    } else if d == 1 {
        '1'
    } else if d == 2 {
        '2'
    } else if d == 3 {
        '3'
    } else if d == 4 {
        '4'
    } else if d == 5 {
        '5'
    } else if d == 6 {
        '6'
    } else if d == 7 {
        '7'
    } else if d == 8 {
        '8'
    } else {
        '9'
    }
}

/// A natural number in decimal digits, without leading zeros.
pub open spec fn natural(n: nat) -> Seq<char>
    decreases n,
{
    if n < 10 {
        seq![digit_char(n as int)]
    } else {
        natural(n / 10).push(digit_char((n % 10) as int))
    }
}

/// An integer in decimal, with a minus sign before a negative one.
pub open spec fn decimal(n: int) -> Seq<char> {
    if n < 0 {
        seq!['-'] + natural((-n) as nat)
    } else {
        natural(n as nat)
    }
}

pub fn natural_text(n: u128) -> (r: String)
    ensures
        r@ == natural(n as nat),
    decreases n,
{
    if n < 10 {
        let mut out = String::new();
        out.push(digit(n as u64));
        assert(out@ =~= natural(n as nat));
        out
    } else {
        let mut out = natural_text(n / 10);
        out.push(digit((n % 10) as u64));
        out
    }
}

pub fn decimal_text(n: i64) -> (r: String)
    ensures
        r@ == decimal(n as int),
{
    if n < 0 {
        let magnitude: u128 = (-(n as i128)) as u128;
        let mut out = String::new();
        out.push('-');
        assert(out@ =~= seq!['-']);
        join2(out.as_str(), natural_text(magnitude).as_str())
    } else {
        natural_text(n as u128)
    }
}

pub open spec fn is_digit(c: char) -> bool {
    '0' <= c <= '9'
}

/// The number that a run of decimal digits stands for.
pub open spec fn digits_value(s: Seq<char>) -> nat
    decreases s.len(),
{
    if s.len() == 0 {
        0
    } else {
        (digits_value(s.drop_last()) * 10 + (s.last() as int - '0' as int)) as nat
    }
}

/// A non-empty run of decimal digits.
pub open spec fn is_digits(s: Seq<char>) -> bool {
    s.len() > 0 && forall|i: int| 0 <= i < s.len() ==> is_digit(#[trigger] s[i])
}

/// The integer that a text reads as: an optional sign and decimal digits.
pub open spec fn reads_as(s: Seq<char>) -> Option<int> {
    if s.len() > 0 && s[0] == '-' {
        if is_digits(s.drop_first()) {
            Some(-digits_value(s.drop_first()))
        } else {
            None
        }
    } else if s.len() > 0 && s[0] == '+' {
        if is_digits(s.drop_first()) {
            Some(digits_value(s.drop_first()) as int)
        } else {
            None
        }
    } else if is_digits(s) {
        Some(digits_value(s) as int)
    } else {
        None
    }
}

/// The 64-bit integer that a text reads as, if it reads as one.
pub open spec fn reads_as_i64(s: Seq<char>) -> Option<int> {
    match reads_as(s) {
        Some(n) => if i64::MIN <= n <= i64::MAX {
            Some(n)
        } else {
            None
        },
        None => None,
    }
}

pub fn parse_i64(s: &str) -> (r: Option<i64>)
    ensures
        r is Some == reads_as_i64(s@) is Some,
        r matches Some(n) ==> reads_as_i64(s@) == Some(n as int),
{
    let chars = chars_of(s);
    let mut from: usize = 0;
    let mut negative: bool = false;
    if chars.len() > 0 {
        if chars[0] == '-' {
            negative = true;
            from = 1;
        } else if chars[0] == '+' {
            from = 1;
        }
    }
    let ghost run = chars@.skip(from as int);
    proof {
        if from == 0 {
            assert(run =~= s@);
        } else {
            assert(run =~= s@.drop_first());
        }
    }
    if from == chars.len() {
        return None;
    }
    let mut i: usize = from;
    let mut value: u64 = 0;
    let mut over: bool = false;
    assert(run.take(0) =~= Seq::<char>::empty());
    while i < chars.len()
        invariant
            from <= i <= chars@.len(),
            forall|j: int| 0 <= j < i - from ==> is_digit(#[trigger] run[j]),
            !over ==> value == digits_value(run.take(i - from)),
            !over ==> value <= 0x8000_0000_0000_0000,
            over ==> digits_value(run.take(i - from)) > 0x8000_0000_0000_0000,
        decreases chars@.len() - i,
    {
        let c = chars[i];
        assert(run[i - from] == c);
        if !('0' <= c && c <= '9') {
            assert(!is_digit(run[i - from]));
            return None;
        }
        proof {
            assert(run.take(i + 1 - from).drop_last() =~= run.take(i - from));
            assert(run.take(i + 1 - from).last() == c);
        }
        if !over {
            let next: u128 = (value as u128) * 10 + ((c as u32) - ('0' as u32)) as u128;
            if next > 0x8000_0000_0000_0000 {
                over = true;
            } else {
                value = next as u64;
            }
        }
        i += 1;
    }
    assert(run.take(i - from) =~= run);
    if over {
        return None;
    }
    if negative {
        if value == 0x8000_0000_0000_0000 {
            Some(i64::MIN)
        } else {
            Some(-(value as i64))
        }
    } else if value <= 0x7fff_ffff_ffff_ffff {
        Some(value as i64)
    } else {
        None
    }
}

/// The count that a run of digits stands for, if it is one.
pub open spec fn reads_as_count(s: Seq<char>) -> Option<usize> {
    if is_digits(s) && digits_value(s) <= usize::MAX {
        Some(digits_value(s) as usize)
    } else {
        None
    }
}

pub fn parse_count(s: &str) -> (r: Option<usize>)
    ensures
        r == reads_as_count(s@),
{
    let chars = chars_of(s);
    if chars.len() == 0 {
        return None;
    }
    let ghost run = chars@;
    let mut i: usize = 0;
    let mut value: usize = 0;
    let mut over: bool = false;
    assert(run.take(0) =~= Seq::<char>::empty());
    while i < chars.len()
        invariant
            i <= chars@.len(),
            run == chars@,
            forall|j: int| 0 <= j < i ==> is_digit(#[trigger] run[j]),
            !over ==> value == digits_value(run.take(i as int)),
            over ==> digits_value(run.take(i as int)) > usize::MAX,
        decreases chars@.len() - i,
    {
        let c = chars[i];
        assert(run[i as int] == c);
        if !('0' <= c && c <= '9') {
            assert(!is_digit(run[i as int]));
            return None;
        }
        proof {
            assert(run.take(i + 1).drop_last() =~= run.take(i as int));
            assert(run.take(i + 1).last() == c);
        }
        if !over {
            let next: u128 = (value as u128) * 10 + ((c as u32) - ('0' as u32)) as u128;
            if next > usize::MAX as u128 {
                over = true;
            } else {
                value = next as usize;
            }
        }
        i += 1;
    }
    assert(run.take(i as int) =~= run);
    if over {
        None
    } else {
        Some(value)
    }
}

/// A count in decimal reads back.
pub proof fn law_count_reads_back(n: usize)
    ensures
        reads_as_count(natural(n as nat)) == Some(n),
{
    lemma_natural_digits(n as nat);
}

proof fn lemma_natural_digits(n: nat)
    ensures
        is_digits(natural(n)),
        digits_value(natural(n)) == n,
    decreases n,
{
    let s = natural(n);
    if n >= 10 {
        lemma_natural_digits(n / 10);
        let head = natural(n / 10);
        assert(s.drop_last() =~= head);
        assert forall|i: int| 0 <= i < s.len() implies is_digit(#[trigger] s[i]) by {
            if i < head.len() {
                assert(s[i] == head[i]);
            }
        }
        assert(digits_value(s) == digits_value(head) * 10 + n % 10);
    } else {
        assert(s.drop_last() =~= Seq::empty());
        assert(digits_value(s.drop_last()) == 0);
    }
}

/// A number that was written in decimal is read back as it was.
pub proof fn law_decimal_reads_back(n: int)
    ensures
        reads_as(decimal(n)) == Some(n),
{
    if n < 0 {
        lemma_natural_digits((-n) as nat);
        let s = decimal(n);
        assert(s.drop_first() =~= natural((-n) as nat));
        assert(s[0] == '-');
    } else {
        lemma_natural_digits(n as nat);
        let s = decimal(n);
        assert(is_digit(s[0]));
    }
}

} // verus!
