//! What a hook may open: a store as it lies on disk, with a write-ahead log that is whole.
use crate::error;
use crate::error::{AppError, AppErrorView, ErrorCode};
use crate::text;
use crate::text::{begins_with, chars_of, join2, join4, owned, slice_text};
use vstd::prelude::*;
use vstd::string::StrSliceExecFns;
use vstd::utf8;

verus! {

/// The bytes of a header of the index of a write-ahead log.
pub const WAL_INDEX_HEADER_BYTES: usize = 48;

/// The bytes of a region of that index.
pub const WAL_INDEX_REGION_BYTES: u64 = 32768;

/// The version of the format.
pub const WAL_INDEX_VERSION: u32 = 3007000;

/// The bytes of the header of a write-ahead log.
pub const WAL_HEADER_BYTES: usize = 32;

pub open spec fn unavailable() -> AppErrorView {
    error::app_error(ErrorCode::StoreHookUnavailable, "Hook store snapshot is unavailable"@)
}

/// The one error that a hook sees.
pub fn store_hook_unavailable() -> (r: AppError)
    ensures
        r@ == unavailable(),
{
    AppError::new(ErrorCode::StoreHookUnavailable, "Hook store snapshot is unavailable")
}

// ---------------------------------------------------------------------------
// Headers
// ---------------------------------------------------------------------------

/// The number in four bytes, in the order of the machine that wrote them.
pub open spec fn word(bytes: Seq<u8>, at: int, little: bool) -> int {
    if little {
        bytes[at] + 0x100 * bytes[at + 1] + 0x1_0000 * bytes[at + 2] + 0x100_0000 * bytes[at + 3]
    } else {
        0x100_0000 * bytes[at] + 0x1_0000 * bytes[at + 1] + 0x100 * bytes[at + 2] + bytes[at + 3]
    }
}

/// The number in two bytes.
pub open spec fn half_word(bytes: Seq<u8>, at: int, little: bool) -> int {
    if little {
        bytes[at] + 0x100 * bytes[at + 1]
    } else {
        0x100 * bytes[at] + bytes[at + 1]
    }
}

fn read_word(bytes: &Vec<u8>, at: usize, little: bool) -> (r: u32)
    requires
        at + 4 <= bytes@.len(),
    ensures
        r == word(bytes@, at as int, little),
{
    assert(bytes.len() <= usize::MAX);
    if little {
        bytes[at] as u32 + 0x100 * (bytes[at + 1] as u32) + 0x1_0000 * (bytes[at + 2] as u32)
            + 0x100_0000 * (bytes[at + 3] as u32)
    } else {
        0x100_0000 * (bytes[at] as u32) + 0x1_0000 * (bytes[at + 1] as u32) + 0x100 * (bytes[at
            + 2] as u32) + bytes[at + 3] as u32
    }
}

fn read_half_word(bytes: &Vec<u8>, at: usize, little: bool) -> (r: u32)
    requires
        at + 2 <= bytes@.len(),
    ensures
        r == half_word(bytes@, at as int, little),
{
    assert(bytes.len() <= usize::MAX);
    if little {
        bytes[at] as u32 + 0x100 * (bytes[at + 1] as u32)
    } else {
        0x100 * (bytes[at] as u32) + bytes[at + 1] as u32
    }
}

/// The two running sums over the first `count` pairs of words.
pub open spec fn sums(header: Seq<u8>, little: bool, count: nat) -> (int, int)
    decreases count,
{
    if count == 0 {
        (0, 0)
    } else {
        let so_far = sums(header, little, (count - 1) as nat);
        let first = (so_far.0 + word(header, 8 * (count - 1), little) + so_far.1) % 0x1_0000_0000;
        let second = (so_far.1 + word(header, 8 * (count - 1) + 4, little) + first)
            % 0x1_0000_0000;
        (first, second)
    }
}

/// A page size: a power of two between 512 and 65536.
pub open spec fn is_page_size(n: int) -> bool {
    n == 512 || n == 1024 || n == 2048 || n == 4096 || n == 8192 || n == 16384 || n == 32768 || n
        == 65536
}

fn page_size_fits(n: u32) -> (r: bool)
    ensures
        r == is_page_size(n as int),
{
    n == 512 || n == 1024 || n == 2048 || n == 4096 || n == 8192 || n == 16384 || n == 32768 || n
        == 65536
}

/// The page size that two bytes stand for: the largest is written as 1.
pub open spec fn decoded_page_size(encoded: int) -> int {
    (encoded - encoded % 512) + (encoded % 2) * 0x1_0000
}

/// A header of the index is whole.
pub open spec fn is_index_header(header: Seq<u8>, little: bool) -> bool {
    &&& header.len() == WAL_INDEX_HEADER_BYTES
    &&& word(header, 0, little) == WAL_INDEX_VERSION
    &&& header[12] == 1
    &&& is_page_size(decoded_page_size(half_word(header, 14, little)))
    &&& word(header, 16, little) > 0
    &&& sums(header, little, 5) == (word(header, 40, little), word(header, 44, little))
}

/// Whether a header of the index is whole. `little` where this machine has the lowest byte
/// first.
pub fn hook_wal_index_header_is_valid(header: &Vec<u8>, little: bool) -> (r: bool)
    ensures
        r == is_index_header(header@, little),
{
    if header.len() != WAL_INDEX_HEADER_BYTES {
        return false;
    }
    let mut first: u32 = 0;
    let mut second: u32 = 0;
    let mut i: usize = 0;
    while i < 5
        invariant
            i <= 5,
            header@.len() == WAL_INDEX_HEADER_BYTES,
            (first as int, second as int) == sums(header@, little, i as nat),
        decreases 5 - i,
    {
        let left = read_word(header, 8 * i, little);
        let right = read_word(header, 8 * i + 4, little);
        first = ((first as u64 + left as u64 + second as u64) % 0x1_0000_0000) as u32;
        second = ((second as u64 + right as u64 + first as u64) % 0x1_0000_0000) as u32;
        i += 1;
    }
    let encoded = read_half_word(header, 14, little);
    let page_size: u32 = (encoded - encoded % 512) + (encoded % 2) * 0x1_0000;
    read_word(header, 0, little) == WAL_INDEX_VERSION && header[12] == 1 && page_size_fits(
        page_size,
    ) && read_word(header, 16, little) > 0 && first == read_word(header, 40, little) && second
        == read_word(header, 44, little)
}

/// The files of a store as a hook finds them.
pub struct HookFiles {
    /// The size of the database, where it is a regular file.
    pub database: Option<u64>,
    /// The size of the write-ahead log, where there is one.
    pub wal: Option<u64>,
    /// The size of the index of that log, where there is one.
    pub shm: Option<u64>,
    /// A file beside the database that is no regular file.
    pub irregular: bool,
    /// The first bytes of the log, as far as a header reaches.
    pub wal_header: Vec<u8>,
    /// The first bytes of the index, as far as its two headers reach.
    pub shm_header: Vec<u8>,
    /// This machine has the lowest byte of a number first.
    pub little: bool,
}

#[verifier::ext_equal]
pub struct HookFilesView {
    pub database: Option<u64>,
    pub wal: Option<u64>,
    pub shm: Option<u64>,
    pub irregular: bool,
    pub wal_header: Seq<u8>,
    pub shm_header: Seq<u8>,
    pub little: bool,
}

impl View for HookFiles {
    type V = HookFilesView;

    open spec fn view(&self) -> HookFilesView {
        HookFilesView {
            database: self.database,
            wal: self.wal,
            shm: self.shm,
            irregular: self.irregular,
            wal_header: self.wal_header@,
            shm_header: self.shm_header@,
            little: self.little,
        }
    }
}

/// A log and its index belong together and are whole: the index has the same header twice,
/// its salt is that of the log, and the log holds all frames that the index counts.
pub open spec fn log_is_whole(
    wal_header: Seq<u8>,
    wal_size: int,
    shm_header: Seq<u8>,
    shm_size: int,
    little: bool,
) -> bool {
    let first = shm_header.take(WAL_INDEX_HEADER_BYTES as int);
    let page_size = word(wal_header, 8, false);
    &&& wal_size >= WAL_HEADER_BYTES
    &&& shm_size >= WAL_INDEX_REGION_BYTES
    &&& shm_size % (WAL_INDEX_REGION_BYTES as int) == 0
    &&& wal_header.len() == WAL_HEADER_BYTES
    &&& shm_header.len() == 2 * WAL_INDEX_HEADER_BYTES
    &&& word(wal_header, 0, false) == 0x377f_0682 || word(wal_header, 0, false) == 0x377f_0683
    &&& word(wal_header, 4, false) == WAL_INDEX_VERSION
    &&& is_page_size(page_size)
    &&& first == shm_header.skip(WAL_INDEX_HEADER_BYTES as int)
    &&& is_index_header(first, little)
    &&& first.subrange(32, 40) == wal_header.subrange(16, 24)
    &&& wal_size >= WAL_HEADER_BYTES + word(first, 16, little) * (page_size + 24)
}

/// Whether the bytes from `a` on are those from `b` on.
fn same_run(x: &Vec<u8>, a: usize, y: &Vec<u8>, b: usize, count: usize) -> (r: bool)
    requires
        a + count <= x@.len(),
        b + count <= y@.len(),
    ensures
        r == (x@.subrange(a as int, a + count) == y@.subrange(b as int, b + count)),
{
    assert(x.len() <= usize::MAX && y.len() <= usize::MAX);
    let ghost left = x@.subrange(a as int, a + count);
    let ghost right = y@.subrange(b as int, b + count);
    let mut i: usize = 0;
    while i < count
        invariant
            i <= count,
            a + count <= x@.len(),
            b + count <= y@.len(),
            forall|j: int| 0 <= j < i ==> #[trigger] left[j] == right[j],
            left == x@.subrange(a as int, a + count),
            right == y@.subrange(b as int, b + count),
        decreases count - i,
    {
        if x[a + i] != y[b + i] {
            assert(left[i as int] != right[i as int]);
            return false;
        }
        i += 1;
    }
    assert(left =~= right);
    true
}

fn first_bytes(bytes: &Vec<u8>, count: usize) -> (r: Vec<u8>)
    requires
        count <= bytes@.len(),
    ensures
        r@ == bytes@.take(count as int),
{
    let mut out: Vec<u8> = Vec::new();
    let mut i: usize = 0;
    while i < count
        invariant
            i <= count <= bytes@.len(),
            out@ == bytes@.take(i as int),
        decreases count - i,
    {
        out.push(bytes[i]);
        assert(bytes@.take(i + 1) =~= bytes@.take(i as int).push(bytes@[i as int]));
        i += 1;
    }
    out
}

/// Checks that a log and its index belong together and are whole.
pub fn validate_hook_wal_index(
    wal_header: &Vec<u8>,
    wal_size: u64,
    shm_header: &Vec<u8>,
    shm_size: u64,
    little: bool,
) -> (r: Result<(), AppError>)
    ensures
        if log_is_whole(wal_header@, wal_size as int, shm_header@, shm_size as int, little) {
            r is Ok
        } else {
            r matches Err(e) && e@ == unavailable()
        },
{
    if wal_size < WAL_HEADER_BYTES as u64 || shm_size < WAL_INDEX_REGION_BYTES || shm_size
        % WAL_INDEX_REGION_BYTES != 0 || wal_header.len() != WAL_HEADER_BYTES
        || shm_header.len() != 2 * WAL_INDEX_HEADER_BYTES {
        return Err(store_hook_unavailable());
    }
    let first = first_bytes(shm_header, WAL_INDEX_HEADER_BYTES);
    let magic = read_word(wal_header, 0, false);
    let version = read_word(wal_header, 4, false);
    let page_size = read_word(wal_header, 8, false);
    if (magic != 0x377f_0682 && magic != 0x377f_0683) || version != WAL_INDEX_VERSION
        || !page_size_fits(page_size) {
        return Err(store_hook_unavailable());
    }
    let twice = same_run(
        shm_header,
        0,
        shm_header,
        WAL_INDEX_HEADER_BYTES,
        WAL_INDEX_HEADER_BYTES,
    );
    proof {
        assert(shm_header@.subrange(0, 48) =~= first@);
        assert(shm_header@.subrange(48, 96) =~= shm_header@.skip(48));
    }
    if !twice || !hook_wal_index_header_is_valid(&first, little) || !same_run(
        &first,
        32,
        wal_header,
        16,
        8,
    ) {
        return Err(store_hook_unavailable());
    }
    let frames = read_word(&first, 16, little) as u64;
    let frame: u64 = page_size as u64 + 24;
    assert(frames * frame <= 0xffff_ffff * 65560) by (nonlinear_arith)
        requires
            frames <= 0xffff_ffff,
            frame <= 65560,
    ;
    let least: u64 = WAL_HEADER_BYTES as u64 + frames * frame;
    if wal_size < least {
        return Err(store_hook_unavailable());
    }
    Ok(())
}

/// How a hook opens a store.
#[derive(Clone, Copy, PartialEq, Eq, Structural)]
pub enum HookAccess {
    /// Nothing waits in a log: the database does not change.
    Immutable,
    /// The log is read through its index, which is not written.
    SharedIndex,
}

/// How a hook can open a store, if it can.
pub open spec fn access(files: HookFilesView) -> Option<HookAccess> {
    if files.database is None || files.irregular {
        None
    } else if files.wal is None || files.wal == Some(0u64) {
        Some(HookAccess::Immutable)
    } else if files.shm is Some && log_is_whole(
        files.wal_header,
        files.wal->0 as int,
        files.shm_header,
        files.shm->0 as int,
        files.little,
    ) {
        Some(HookAccess::SharedIndex)
    } else {
        None
    }
}

/// How a hook can open a store.
pub fn hook_access(files: &HookFiles) -> (r: Result<HookAccess, AppError>)
    ensures
        match access(files@) {
            Some(way) => r == Ok::<HookAccess, AppError>(way),
            None => r matches Err(e) && e@ == unavailable(),
        },
{
    if files.database.is_none() || files.irregular {
        return Err(store_hook_unavailable());
    }
    match files.wal {
        None => Ok(HookAccess::Immutable),
        Some(wal_size) => {
            if wal_size == 0 {
                return Ok(HookAccess::Immutable);
            }
            match files.shm {
                None => Err(store_hook_unavailable()),
                Some(shm_size) => {
                    let checked = validate_hook_wal_index(
                        &files.wal_header,
                        wal_size,
                        &files.shm_header,
                        shm_size,
                        files.little,
                    );
                    match checked {
                        Ok(()) => Ok(HookAccess::SharedIndex),
                        Err(e) => Err(e),
                    }
                },
            }
        },
    }
}

// ---------------------------------------------------------------------------
// Addresses
// ---------------------------------------------------------------------------

/// A path on a drive behind the prefix that keeps Windows from rewriting it.
pub open spec fn verbatim_drive(path: Seq<char>) -> Option<Seq<char>> {
    let local = path.skip(4);
    if "\\\\?\\"@.is_prefix_of(path) && local.len() >= 3 && ('a' <= local[0] <= 'z' || 'A'
        <= local[0] <= 'Z') && local[1] == ':' && (local[2] == '\\' || local[2] == '/') {
        Some(local)
    } else {
        None
    }
}

/// A path on a drive without the prefix that keeps Windows from rewriting it.
pub fn strip_windows_hook_verbatim_drive(path: &str) -> (r: Option<String>)
    ensures
        text::opt_text(r) == verbatim_drive(path@),
{
    proof {
        reveal_strlit("\\\\?\\");
    }
    if !begins_with(path, "\\\\?\\") {
        return None;
    }
    let chars = chars_of(path);
    assert("\\\\?\\"@.len() == 4);
    let local = slice_text(&chars, 4, chars.len());
    assert(local@ =~= path@.skip(4));
    let c = chars_of(local.as_str());
    if c.len() >= 3 && (('a' <= c[0] && c[0] <= 'z') || ('A' <= c[0] && c[0] <= 'Z')) && c[1]
        == ':' && (c[2] == '\\' || c[2] == '/') {
        Some(local)
    } else {
        None
    }
}

/// A path with slashes only.
pub open spec fn with_slashes(path: Seq<char>) -> Seq<char> {
    path.map_values(
        |c: char|
            if c == '\\' {
                '/'
            } else {
                c
            },
    )
}

/// A byte that an address holds as it is.
pub open spec fn is_plain(b: u8) -> bool {
    ||| 0x30 <= b <= 0x39
    ||| 0x41 <= b <= 0x5a
    ||| 0x61 <= b <= 0x7a
    ||| b == 0x2d || b == 0x2e || b == 0x5f || b == 0x7e || b == 0x2f || b == 0x3a
}

/// A digit of a hexadecimal number, in upper case.
pub open spec fn upper_hex(d: int) -> char {
    if d < 10 {
        (0x30 + d) as char
    } else {
        (0x37 + d) as char
    }
}

/// A byte as an address holds it.
pub open spec fn in_address(b: u8) -> Seq<char> {
    if is_plain(b) {
        seq![b as char]
    } else {
        seq!['%', upper_hex(b as int / 16), upper_hex(b as int % 16)]
    }
}

/// Bytes as an address holds them.
pub open spec fn escaped(bytes: Seq<u8>) -> Seq<char>
    decreases bytes.len(),
{
    if bytes.len() == 0 {
        Seq::empty()
    } else {
        escaped(bytes.drop_last()) + in_address(bytes.last())
    }
}

/// The address under which a database is opened to be read. `absolute` where the path starts
/// at a root, `windows` where paths are those of Windows.
pub open spec fn address(
    path: Seq<char>,
    absolute: bool,
    windows: bool,
    query: Seq<char>,
) -> Option<Seq<char>> {
    let raw = if windows && "\\\\?\\"@.is_prefix_of(path) {
        verbatim_drive(path)
    } else {
        Some(path)
    };
    if !absolute || raw is None {
        None
    } else {
        let normal = with_slashes(raw->0);
        if normal.len() >= 2 && normal[0] == '/' && normal[1] == '/' {
            None
        } else {
            let rooted = if second_byte_is_colon(normal) {
                "/"@ + normal
            } else {
                normal
            };
            Some("file:"@ + escaped(utf8::encode_utf8(rooted)) + "?mode=ro&"@ + query)
        }
    }
}

/// The second byte of a text is a colon.
pub open spec fn second_byte_is_colon(s: Seq<char>) -> bool {
    utf8::encode_utf8(s).len() >= 2 && utf8::encode_utf8(s)[1] == 0x3a
}

fn hex_digit(d: u8) -> (r: char)
    requires
        d < 16,
    ensures
        r == upper_hex(d as int),
{
    if d < 10 {
        (0x30 + d) as char
    } else {
        (0x37 + d) as char
    }
}

fn push_escaped(out: &mut String, b: u8)
    ensures
        final(out)@ == old(out)@ + in_address(b),
{
    let plain = (0x30 <= b && b <= 0x39) || (0x41 <= b && b <= 0x5a) || (0x61 <= b && b <= 0x7a)
        || b == 0x2d || b == 0x2e || b == 0x5f || b == 0x7e || b == 0x2f || b == 0x3a;
    if plain {
        out.push(b as char);
    } else {
        out.push('%');
        out.push(hex_digit(b / 16));
        out.push(hex_digit(b % 16));
    }
    assert(out@ =~= old(out)@ + in_address(b));
}

fn escape(bytes: &Vec<u8>) -> (r: String)
    ensures
        r@ == escaped(bytes@),
{
    let mut out = String::new();
    assert(bytes@.take(0) =~= Seq::empty());
    assert(out@ =~= Seq::empty());
    let mut i: usize = 0;
    while i < bytes.len()
        invariant
            i <= bytes@.len(),
            out@ == escaped(bytes@.take(i as int)),
        decreases bytes@.len() - i,
    {
        push_escaped(&mut out, bytes[i]);
        assert(bytes@.take(i + 1).drop_last() =~= bytes@.take(i as int));
        assert(bytes@.take(i + 1).last() == bytes@[i as int]);
        i += 1;
    }
    assert(bytes@.take(bytes@.len() as int) =~= bytes@);
    out
}

fn slashes(path: &str) -> (r: String)
    ensures
        r@ == with_slashes(path@),
{
    let chars = chars_of(path);
    let mut out = String::new();
    assert(out@ =~= with_slashes(path@).take(0));
    let mut i: usize = 0;
    while i < chars.len()
        invariant
            i <= chars@.len() == path@.len(),
            chars@ == path@,
            out@ == with_slashes(path@).take(i as int),
        decreases chars@.len() - i,
    {
        let c = if chars[i] == '\\' {
            '/'
        } else {
            chars[i]
        };
        out.push(c);
        assert(with_slashes(path@).take(i + 1) =~= with_slashes(path@).take(i as int).push(c));
        i += 1;
    }
    assert(with_slashes(path@).take(path@.len() as int) =~= with_slashes(path@));
    out
}

/// The address under which a database is opened to be read.
pub fn hook_database_uri(path: &str, absolute: bool, windows: bool, query: &str) -> (r: Result<
    String,
    AppError,
>)
    ensures
        match address(path@, absolute, windows, query@) {
            Some(found) => r matches Ok(got) && got@ == found,
            None => r matches Err(e) && e@ == unavailable(),
        },
{
    if !absolute {
        return Err(store_hook_unavailable());
    }
    let raw: String = if windows && begins_with(path, "\\\\?\\") {
        match strip_windows_hook_verbatim_drive(path) {
            Some(local) => local,
            None => {
                return Err(store_hook_unavailable());
            },
        }
    } else {
        owned(path)
    };
    let normal = slashes(raw.as_str());
    let chars = chars_of(normal.as_str());
    if chars.len() >= 2 && chars[0] == '/' && chars[1] == '/' {
        return Err(store_hook_unavailable());
    }
    let bytes = normal.as_str().as_bytes_vec();
    let rooted = if bytes.len() >= 2 && bytes[1] == 0x3a {
        join2("/", normal.as_str())
    } else {
        normal
    };
    let encoded = escape(&rooted.as_str().as_bytes_vec());
    Ok(join4("file:", encoded.as_str(), "?mode=ro&", query))
}

} // verus!
