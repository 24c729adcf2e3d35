//! Calls into outside crates, each behind a trusted wrapper whose contract
//! states what the called function guarantees.

use vstd::prelude::*;
use sha2::Digest;
use crate::text::is_ascii_digit;

verus! {

/// The current wall-clock time as microseconds since the Unix epoch
/// (`chrono::Utc::now().timestamp_micros()`).  The value depends on the
/// system clock; `Utc::now` stops with a panic on a clock set before the
/// epoch, so a returned value is never negative.
#[verifier::external_body]
pub(crate) fn current_time_micros() -> (t: i64)
    ensures
        t >= 0,
{
    chrono::Utc::now().timestamp_micros()
}

/// ASCII digits at positions `a..b` of `s`.
pub open spec fn digits_at(s: Seq<char>, a: int, b: int) -> bool {
    forall|i: int| a <= i < b ==> is_ascii_digit(#[trigger] s[i])
}

/// `s` is a UTC timestamp as `to_rfc3339` writes it, with a year part of
/// `y` characters and a fraction part of `f` characters: the year (four
/// digits, or `+` and more digits past 9999), `-MM-DDTHH:MM:SS`, a fraction
/// of 3, 6 or 9 digits after `.` when the time has one, and `+00:00`.
pub open spec fn rfc3339_utc_parts(s: Seq<char>, y: int, f: int) -> bool {
    let n = s.len();
    &&& f == 0 || f == 4 || f == 7 || f == 10
    &&& (y == 4 && digits_at(s, 0, 4)) || (y >= 6 && s[0] == '+' && digits_at(s, 1, y))
    &&& n == y + 15 + f + 6
    &&& s[y] == '-' && digits_at(s, y + 1, y + 3) && s[y + 3] == '-'
    &&& digits_at(s, y + 4, y + 6) && s[y + 6] == 'T'
    &&& digits_at(s, y + 7, y + 9) && s[y + 9] == ':' && digits_at(s, y + 10, y + 12)
    &&& s[y + 12] == ':' && digits_at(s, y + 13, y + 15)
    &&& f > 0 ==> s[y + 15] == '.' && digits_at(s, y + 16, y + 15 + f)
    &&& s.subrange(n - 6, n as int) == "+00:00"@
}

/// `s` is a UTC timestamp as `to_rfc3339` writes it.
pub open spec fn rfc3339_utc(s: Seq<char>) -> bool {
    exists|y: int, f: int| #[trigger] rfc3339_utc_parts(s, y, f)
}

/// The current time as an RFC 3339 timestamp
/// (`chrono::Utc::now().to_rfc3339()`).  Which instant it names depends on
/// the system clock; its shape (`write_rfc3339` with `AutoSi` seconds and
/// the offset `+00:00`) holds of every outcome.
#[verifier::external_body]
pub(crate) fn now_rfc3339() -> (t: String)
    ensures
        rfc3339_utc(t@),
{
    chrono::Utc::now().to_rfc3339()
}

/// Whether `char::is_alphanumeric` holds of `c` (the Unicode `Alphabetic`
/// or `Numeric` property).  The property tables are those of the standard
/// library; only the name is used in specifications.
pub uninterp spec fn alphanumeric(c: char) -> bool;

/// `char::is_alphanumeric`.
#[verifier::external_body]
pub(crate) fn is_alphanumeric(c: char) -> (b: bool)
    ensures
        b == alphanumeric(c),
{
    c.is_alphanumeric()
}

// ───────────────────────── JSON string literals (serde_json) ─────────────────────────

/// Lower-case hexadecimal digit.
pub open spec fn hex_digit(v: nat) -> char {
    if v < 10 {
        ((v + 48) as u32) as char
    } else {
        ((v + 87) as u32) as char
    }
}

/// How `serde_json` writes one character inside a JSON string: `"` and `\`
/// are backslash-escaped, the control characters U+0008, U+0009, U+000A,
/// U+000C and U+000D use `\b \t \n \f \r`, other characters below U+0020 use
/// `\u00XX` with lower-case hex digits, and every other character is copied.
pub open spec fn json_escape_char(c: char) -> Seq<char> {
    let v = c as u32;
    if c == '"' {
        seq!['\\', '"']
    } else if c == '\\' {
        seq!['\\', '\\']
    } else if v == 8 {
        seq!['\\', 'b']
    } else if v == 9 {
        seq!['\\', 't']
    } else if v == 10 {
        seq!['\\', 'n']
    } else if v == 12 {
        seq!['\\', 'f']
    } else if v == 13 {
        seq!['\\', 'r']
    } else if v < 32 {
        seq!['\\', 'u', '0', '0', hex_digit((v / 16) as nat), hex_digit((v % 16) as nat)]
    } else {
        seq![c]
    }
}

/// Escaped characters of a string, without the surrounding quotes.
pub open spec fn json_escaped(s: Seq<char>) -> Seq<char>
    decreases s.len(),
{
    if s.len() == 0 {
        seq![]
    } else {
        json_escaped(s.drop_last()) + json_escape_char(s.last())
    }
}

/// The JSON string literal for `s`.
pub open spec fn json_quoted(s: Seq<char>) -> Seq<char> {
    seq!['"'] + json_escaped(s) + seq!['"']
}

/// `serde_json::to_string` of a string: the JSON string literal, as built
/// by `format_escaped_str` in serde_json's serializer (serialising a `str`
/// into memory cannot fail).
#[verifier::external_body]
pub(crate) fn json_string(s: &str) -> (r: String)
    ensures
        r@ == json_quoted(s@),
{
    match serde_json::to_string(s) {
        Ok(v) => v,
        Err(_) => String::new(),
    }
}

// ───────────────────────── hashing (blake3) ─────────────────────────

/// The lower-case hexadecimal BLAKE3 digest of `data`.
pub uninterp spec fn blake3_hex_of(data: Seq<u8>) -> Seq<char>;

/// `blake3::hash(data).to_hex()`: the 64-character lower-case hex digest.
#[verifier::external_body]
pub(crate) fn blake3_hex(data: &[u8]) -> (r: String)
    ensures
        r@ == blake3_hex_of(data@),
{
    blake3::hash(data).to_hex().to_string()
}

// ───────────────────────── hashing (sha2) ─────────────────────────

/// The lower-case hexadecimal SHA-256 digest of `data`.
pub uninterp spec fn sha256_hex_of(data: Seq<u8>) -> Seq<char>;

/// A lower-case hexadecimal digit.
pub open spec fn is_lower_hex_digit(c: char) -> bool {
    ('0' <= c && c <= '9') || ('a' <= c && c <= 'f')
}

/// `sha2::Sha256::digest(data)` written with `{:x}`: the 32-byte digest as
/// 64 lower-case hexadecimal digits.
#[verifier::external_body]
pub(crate) fn sha256_hex(data: &[u8]) -> (r: String)
    ensures
        r@ == sha256_hex_of(data@),
        r@.len() == 64,
        forall|i: int| 0 <= i < 64 ==> is_lower_hex_digit(#[trigger] r@[i]),
{
    format!("{:x}", sha2::Sha256::digest(data))
}

// ───────────────────────── paths (std::path) ─────────────────────────

/// `Path::new(base).join(part)` on a Unix target, as text: an absolute
/// `part` replaces `base`; otherwise a `/` is inserted unless `base` is
/// empty or already ends with `/`.
pub open spec fn joined(base: Seq<char>, part: Seq<char>) -> Seq<char> {
    if part.len() > 0 && part[0] == '/' {
        part
    } else if base.len() == 0 || base.last() == '/' {
        base + part
    } else {
        base + seq!['/'] + part
    }
}

/// `Path::join` on a Unix target (see [`joined`]).
#[verifier::external_body]
pub(crate) fn path_join(base: &str, part: &str) -> (r: String)
    ensures
        r@ == joined(base@, part@),
{
    std::path::Path::new(base).join(part).to_string_lossy().into_owned()
}

/// The final component `Path::file_name` reports for a path (none when the
/// path ends in `..` or has no components).
pub uninterp spec fn file_name_of(path: Seq<char>) -> Option<Seq<char>>;

/// `Path::file_name`, as text.
#[verifier::external_body]
pub(crate) fn path_file_name(path: &str) -> (r: Option<String>)
    ensures
        match r {
            Some(n) => file_name_of(path@) == Some(n@),
            None => file_name_of(path@).is_none(),
        },
{
    match std::path::Path::new(path).file_name() {
        Some(n) => Some(n.to_string_lossy().into_owned()),
        None => None,
    }
}

/// The extension `Path::extension` reports for a path.
pub uninterp spec fn extension_of(path: Seq<char>) -> Option<Seq<char>>;

/// `Path::extension`, as text.
#[verifier::external_body]
pub(crate) fn path_extension(path: &str) -> (r: Option<String>)
    ensures
        match r {
            Some(e) => extension_of(path@) == Some(e@),
            None => extension_of(path@).is_none(),
        },
{
    match std::path::Path::new(path).extension() {
        Some(e) => Some(e.to_string_lossy().into_owned()),
        None => None,
    }
}

/// The remainder `Path::strip_prefix` leaves of `path` after `base`.
pub uninterp spec fn stripped_prefix(path: Seq<char>, base: Seq<char>) -> Option<Seq<char>>;

/// `Path::strip_prefix`, as text.
#[verifier::external_body]
pub(crate) fn path_strip_prefix(path: &str, base: &str) -> (r: Option<String>)
    ensures
        match r {
            Some(e) => stripped_prefix(path@, base@) == Some(e@),
            None => stripped_prefix(path@, base@).is_none(),
        },
{
    match std::path::Path::new(path).strip_prefix(base) {
        Ok(p) => Some(p.to_string_lossy().into_owned()),
        Err(_) => None,
    }
}

// ───────────────────────── Unicode case mapping (std) ─────────────────────────

/// `str::to_uppercase` of a string.
pub uninterp spec fn upper_case(s: Seq<char>) -> Seq<char>;

/// `str::to_uppercase`.
#[verifier::external_body]
pub(crate) fn to_uppercase(s: &str) -> (r: String)
    ensures
        r@ == upper_case(s@),
{
    s.to_uppercase()
}

/// `str::to_lowercase` of a string.
pub uninterp spec fn lower_case(s: Seq<char>) -> Seq<char>;

/// `str::to_lowercase`.
#[verifier::external_body]
pub(crate) fn to_lowercase(s: &str) -> (r: String)
    ensures
        r@ == lower_case(s@),
{
    s.to_lowercase()
}

} // verus!
