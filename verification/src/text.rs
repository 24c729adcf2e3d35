//! Character-level text helpers used throughout the library.
//!
//! Text is handled as sequences of `char`.  The spec functions here give the
//! meaning of the standard string operations the library relies on
//! (`trim`, `lines`, `contains`, `starts_with`, decimal formatting and
//! parsing), and the executable functions are proved against them.

use vstd::prelude::*;

verus! {

// ───────────────────────── conversions ─────────────────────────

/// Collect the characters of a string slice.
pub fn chars_of(s: &str) -> (v: Vec<char>)
    ensures
        v@ == s@,
{
    let mut v: Vec<char> = Vec::new();
    for c in it: s.chars()
        invariant
            v@ == it.seq().take(it.index() as int),
            it.seq() == s@,
    {
        v.push(c);
    }
    v
}

/// Build a `String` holding exactly the given characters
/// (`Iterator::collect::<String>` over the slice).
#[verifier::external_body]
pub(crate) fn string_of(v: &[char]) -> (s: String)
    ensures
        s@ == v@,
{
    v.iter().collect()
}

/// Characters of a `String`.
pub fn chars_of_string(s: &String) -> (v: Vec<char>)
    ensures
        v@ == s@,
{
    chars_of(s.as_str())
}

/// Copy of `s[a..b]`.
pub fn slice_chars(s: &[char], a: usize, b: usize) -> (r: Vec<char>)
    requires
        a <= b <= s@.len(),
    ensures
        r@ == s@.subrange(a as int, b as int),
{
    let mut r: Vec<char> = Vec::new();
    let mut i = a;
    while i < b
        invariant
            a <= i <= b <= s@.len(),
            r@ == s@.subrange(a as int, i as int),
        decreases b - i,
    {
        r.push(s[i]);
        i = i + 1;
    }
    r
}

/// Append all characters of `s` to `v`.
pub fn push_chars(v: &mut Vec<char>, s: &[char])
    ensures
        final(v)@ == old(v)@ + s@,
{
    let mut i: usize = 0;
    let ghost v0 = v@;
    while i < s.len()
        invariant
            i <= s@.len(),
            v@ == v0 + s@.subrange(0, i as int),
        decreases s.len() - i,
    {
        v.push(s[i]);
        i = i + 1;
    }
}

/// Append the characters of a string slice to `v`.
pub fn push_str(v: &mut Vec<char>, s: &str)
    ensures
        final(v)@ == old(v)@ + s@,
{
    let cs = chars_of(s);
    push_chars(v, cs.as_slice());
}

/// Character-wise equality of two sequences.
pub fn chars_eq(a: &[char], b: &[char]) -> (r: bool)
    ensures
        r == (a@ == b@),
{
    if a.len() != b.len() {
        return false;
    }
    let mut i: usize = 0;
    while i < a.len()
        invariant
            a@.len() == b@.len(),
            i <= a@.len(),
            forall|j: int| 0 <= j < i ==> a@[j] == b@[j],
        decreases a.len() - i,
    {
        if a[i] != b[i] {
            return false;
        }
        i = i + 1;
    }
    assert(a@ =~= b@);
    true
}

/// Equality of a character slice and a string slice.
pub fn chars_eq_str(a: &[char], b: &str) -> (r: bool)
    ensures
        r == (a@ == b@),
{
    let bc = chars_of(b);
    chars_eq(a, bc.as_slice())
}

// ───────────────────────── whitespace and trimming ─────────────────────────

/// The Unicode `White_Space` property: the characters `char::is_whitespace`
/// accepts, and the characters the regular-expression class `\s` matches.
pub open spec fn is_ws(c: char) -> bool {
    let v = c as u32;
    (0x9 <= v && v <= 0xd) || v == 0x20 || v == 0x85 || v == 0xa0 || v == 0x1680 || (0x2000 <= v
        && v <= 0x200a) || v == 0x2028 || v == 0x2029 || v == 0x202f || v == 0x205f || v == 0x3000
}

/// Executable form of [`is_ws`].
pub fn is_whitespace(c: char) -> (b: bool)
    ensures
        b == is_ws(c),
{
    let v = c as u32;
    (0x9 <= v && v <= 0xd) || v == 0x20 || v == 0x85 || v == 0xa0 || v == 0x1680 || (0x2000 <= v
        && v <= 0x200a) || v == 0x2028 || v == 0x2029 || v == 0x202f || v == 0x205f || v == 0x3000
}

/// `s` with leading whitespace removed.
pub open spec fn trim_start(s: Seq<char>) -> Seq<char>
    decreases s.len(),
{
    if s.len() > 0 && is_ws(s[0]) {
        trim_start(s.drop_first())
    } else {
        s
    }
}

/// `s` with trailing whitespace removed.
pub open spec fn trim_end(s: Seq<char>) -> Seq<char>
    decreases s.len(),
{
    if s.len() > 0 && is_ws(s.last()) {
        trim_end(s.drop_last())
    } else {
        s
    }
}

/// `str::trim`: leading and trailing whitespace removed.
pub open spec fn trim(s: Seq<char>) -> Seq<char> {
    trim_end(trim_start(s))
}

/// Whether the sequence is empty after trimming, i.e. consists of whitespace only.
pub open spec fn is_blank(s: Seq<char>) -> bool {
    trim(s).len() == 0
}

proof fn lemma_trim_start_skip(s: Seq<char>, i: int)
    requires
        0 <= i <= s.len(),
        forall|j: int| 0 <= j < i ==> is_ws(#[trigger] s[j]),
    ensures
        trim_start(s) == trim_start(s.skip(i)),
    decreases i,
{
    if i > 0 {
        assert(s.skip(1) =~= s.drop_first());
        assert forall|j: int| 0 <= j < i - 1 implies is_ws(#[trigger] s.drop_first()[j]) by {
            assert(s.drop_first()[j] == s[j + 1]);
        }
        lemma_trim_start_skip(s.drop_first(), i - 1);
        assert(s.drop_first().skip(i - 1) =~= s.skip(i));
    } else {
        assert(s.skip(0) =~= s);
    }
}

proof fn lemma_trim_end_take(s: Seq<char>, i: int)
    requires
        0 <= i <= s.len(),
        forall|j: int| i <= j < s.len() ==> is_ws(#[trigger] s[j]),
    ensures
        trim_end(s) == trim_end(s.take(i)),
    decreases s.len() - i,
{
    if i < s.len() {
        lemma_trim_end_take(s.drop_last(), i);
        assert(s.drop_last().take(i) =~= s.take(i));
    } else {
        assert(s.take(i) =~= s);
    }
}

/// Bounds `(a, b)` such that `s[a..b]` is the trimmed text.
pub fn trim_bounds(s: &[char]) -> (r: (usize, usize))
    ensures
        r.0 <= r.1 <= s@.len(),
        s@.subrange(r.0 as int, r.1 as int) == trim(s@),
        trim_start(s@) == s@.skip(r.0 as int),
{
    let mut a: usize = 0;
    while a < s.len() && is_whitespace(s[a])
        invariant
            a <= s@.len(),
            forall|j: int| 0 <= j < a ==> is_ws(#[trigger] s@[j]),
        decreases s.len() - a,
    {
        a = a + 1;
    }
    proof {
        lemma_trim_start_skip(s@, a as int);
    }
    let ghost t = s@.skip(a as int);
    assert(trim_start(t) == t);
    let mut b: usize = s.len();
    while b > a && is_whitespace(s[b - 1])
        invariant
            a <= b <= s@.len(),
            forall|j: int| b <= j < s@.len() ==> is_ws(#[trigger] s@[j]),
        decreases b,
    {
        b = b - 1;
    }
    proof {
        assert forall|j: int| (b - a) <= j < t.len() implies is_ws(#[trigger] t[j]) by {
            assert(t[j] == s@[j + a]);
        }
        lemma_trim_end_take(t, (b - a) as int);
        let u = t.take((b - a) as int);
        if u.len() > 0 {
            assert(u.last() == s@[b - 1]);
        }
        assert(trim_end(u) == u);
        assert(u =~= s@.subrange(a as int, b as int));
    }
    (a, b)
}

/// `str::trim` on characters.
pub fn trim_chars(s: &[char]) -> (r: Vec<char>)
    ensures
        r@ == trim(s@),
{
    let (a, b) = trim_bounds(s);
    slice_chars(s, a, b)
}

/// Whether the text is whitespace only.
pub fn blank(s: &[char]) -> (r: bool)
    ensures
        r == is_blank(s@),
{
    let (a, b) = trim_bounds(s);
    a == b
}

// ───────────────────────── prefixes and substrings ─────────────────────────

/// `s` starts with `p`.
pub open spec fn has_prefix(s: Seq<char>, p: Seq<char>) -> bool {
    p.len() <= s.len() && s.take(p.len() as int) == p
}

/// `s` ends with `p`.
pub open spec fn has_suffix(s: Seq<char>, p: Seq<char>) -> bool {
    p.len() <= s.len() && s.skip(s.len() - p.len()) == p
}

/// `p` occurs in `s` at position `i`.
pub open spec fn occurs_at(s: Seq<char>, p: Seq<char>, i: int) -> bool {
    0 <= i && i + p.len() <= s.len() && s.subrange(i, i + p.len()) == p
}

/// `str::contains` with a string pattern.
pub open spec fn contains(s: Seq<char>, p: Seq<char>) -> bool {
    exists|i: int| occurs_at(s, p, i)
}

/// Executable prefix test.
pub fn starts_with(s: &[char], p: &[char]) -> (r: bool)
    ensures
        r == has_prefix(s@, p@),
{
    if p.len() > s.len() {
        return false;
    }
    let mut i: usize = 0;
    while i < p.len()
        invariant
            p@.len() <= s@.len(),
            i <= p@.len(),
            forall|j: int| 0 <= j < i ==> s@[j] == p@[j],
        decreases p.len() - i,
    {
        if s[i] != p[i] {
            assert(s@.take(p@.len() as int)[i as int] != p@[i as int]);
            return false;
        }
        i = i + 1;
    }
    assert(s@.take(p@.len() as int) =~= p@);
    true
}

/// Prefix test against a string slice.
pub fn starts_with_str(s: &[char], p: &str) -> (r: bool)
    ensures
        r == has_prefix(s@, p@),
{
    let pc = chars_of(p);
    starts_with(s, pc.as_slice())
}

/// Executable suffix test.
pub fn ends_with(s: &[char], p: &[char]) -> (r: bool)
    ensures
        r == has_suffix(s@, p@),
{
    if p.len() > s.len() {
        return false;
    }
    let off = s.len() - p.len();
    let mut i: usize = 0;
    while i < p.len()
        invariant
            p@.len() <= s@.len(),
            off == s@.len() - p@.len(),
            off + p.len() == s.len(),
            i <= p@.len(),
            forall|j: int| 0 <= j < i ==> s@[off + j] == p@[j],
        decreases p.len() - i,
    {
        if s[off + i] != p[i] {
            assert(s@.skip(off as int)[i as int] != p@[i as int]);
            return false;
        }
        i = i + 1;
    }
    assert(s@.skip(off as int) =~= p@);
    true
}

/// Suffix test against a string slice.
pub fn ends_with_str(s: &[char], p: &str) -> (r: bool)
    ensures
        r == has_suffix(s@, p@),
{
    let pc = chars_of(p);
    ends_with(s, pc.as_slice())
}

/// Whether `p` occurs at position `i` of `s`.
pub fn matches_at(s: &[char], p: &[char], i: usize) -> (r: bool)
    ensures
        r == occurs_at(s@, p@, i as int),
{
    if i > s.len() || p.len() > s.len() - i {
        return false;
    }
    let mut k: usize = 0;
    while k < p.len()
        invariant
            i + p.len() <= s.len(),
            k <= p@.len(),
            forall|j: int| 0 <= j < k ==> s@[i + j] == p@[j],
        decreases p.len() - k,
    {
        if s[i + k] != p[k] {
            assert(s@.subrange(i as int, i + p@.len())[k as int] != p@[k as int]);
            return false;
        }
        k = k + 1;
    }
    assert(s@.subrange(i as int, i + p@.len()) =~= p@);
    true
}

/// First position at or after `from` where `p` occurs in `s`.
pub fn find_from(s: &[char], p: &[char], from: usize) -> (r: Option<usize>)
    ensures
        match r {
            Some(i) => from <= i && occurs_at(s@, p@, i as int) && forall|j: int|
                from <= j < i ==> !occurs_at(s@, p@, j),
            None => forall|j: int| from <= j ==> !occurs_at(s@, p@, j),
        },
{
    if from > s.len() {
        return None;
    }
    let mut i = from;
    while i < s.len()
        invariant
            from <= i <= s@.len(),
            forall|j: int| from <= j < i ==> !occurs_at(s@, p@, j),
        decreases s.len() - i,
    {
        if matches_at(s, p, i) {
            return Some(i);
        }
        i = i + 1;
    }
    if matches_at(s, p, i) {
        return Some(i);
    }
    None
}

/// First position where `p` occurs in `s` (`str::find`).
pub fn find(s: &[char], p: &[char]) -> (r: Option<usize>)
    ensures
        match r {
            Some(i) => occurs_at(s@, p@, i as int) && forall|j: int|
                0 <= j < i ==> !occurs_at(s@, p@, j),
            None => !contains(s@, p@),
        },
{
    find_from(s, p, 0)
}

/// `str::contains`.
pub fn contains_chars(s: &[char], p: &[char]) -> (r: bool)
    ensures
        r == contains(s@, p@),
{
    match find(s, p) {
        Some(_) => true,
        None => false,
    }
}

/// `str::contains` with a string-slice pattern.
pub fn contains_str(s: &[char], p: &str) -> (r: bool)
    ensures
        r == contains(s@, p@),
{
    let pc = chars_of(p);
    contains_chars(s, pc.as_slice())
}

/// Whether character `c` occurs in `s`.
pub fn contains_char(s: &[char], c: char) -> (r: bool)
    ensures
        r == s@.contains(c),
{
    let mut i: usize = 0;
    while i < s.len()
        invariant
            i <= s@.len(),
            forall|j: int| 0 <= j < i ==> s@[j] != c,
        decreases s.len() - i,
    {
        if s[i] == c {
            return true;
        }
        i = i + 1;
    }
    false
}

// ───────────────────────── lines ─────────────────────────

/// Index of the first occurrence of `c` in `s`, or `-1`.
pub open spec fn first_index(s: Seq<char>, c: char) -> int
    decreases s.len(),
{
    if s.len() == 0 {
        -1
    } else if s[0] == c {
        0
    } else {
        let r = first_index(s.drop_first(), c);
        if r < 0 {
            -1
        } else {
            r + 1
        }
    }
}

pub proof fn lemma_first_index(s: Seq<char>, c: char, k: int)
    requires
        0 <= k <= s.len(),
        forall|j: int| 0 <= j < k ==> s[j] != c,
        k == s.len() || s[k] == c,
    ensures
        first_index(s, c) == if k == s.len() {
            -1
        } else {
            k
        },
    decreases k,
{
    if k > 0 {
        lemma_first_index(s.drop_first(), c, k - 1);
    }
}

/// A line with one trailing carriage return removed.
pub open spec fn strip_cr(s: Seq<char>) -> Seq<char> {
    if s.len() > 0 && s.last() == '\r' {
        s.drop_last()
    } else {
        s
    }
}

/// `str::lines`: split at `\n`, drop a `\r` that precedes the `\n`, and
/// yield no empty final line after a trailing line ending.
pub open spec fn lines(s: Seq<char>) -> Seq<Seq<char>>
    decreases s.len(),
{
    if s.len() == 0 {
        seq![]
    } else {
        let k = first_index(s, '\n');
        if k < 0 {
            seq![s]
        } else {
            proof {
                lemma_first_index_bounds(s, '\n');
            }
            seq![strip_cr(s.take(k))] + lines(s.skip(k + 1))
        }
    }
}

pub proof fn lemma_first_index_bounds(s: Seq<char>, c: char)
    ensures
        -1 <= first_index(s, c) < s.len(),
        first_index(s, c) >= 0 ==> s[first_index(s, c)] == c,
    decreases s.len(),
{
    if s.len() > 0 {
        lemma_first_index_bounds(s.drop_first(), c);
    }
}

/// There are no more lines than characters.
pub proof fn lemma_lines_len(s: Seq<char>)
    ensures
        lines(s).len() <= s.len(),
    decreases s.len(),
{
    if s.len() > 0 {
        let k = first_index(s, '\n');
        lemma_first_index_bounds(s, '\n');
        if k >= 0 {
            lemma_lines_len(s.skip(k + 1));
        }
    }
}

/// Lines joined with `\n` (`[&str]::join("\n")`).
pub open spec fn join_lines(ls: Seq<Seq<char>>) -> Seq<char>
    decreases ls.len(),
{
    if ls.len() == 0 {
        seq![]
    } else if ls.len() == 1 {
        ls[0]
    } else {
        join_lines(ls.drop_last()) + seq!['\n'] + ls.last()
    }
}

/// The trimmed text is a stretch of the original: its characters are
/// those from some offset on.
pub proof fn lemma_trim_offset(s: Seq<char>) -> (d: int)
    ensures
        0 <= d,
        d + trim(s).len() <= s.len(),
        forall|j: int| 0 <= j < trim(s).len() ==> #[trigger] trim(s)[j] == s[j + d],
{
    lemma_trim_start_offset(s);
    let a = trim_start(s);
    let d = s.len() - a.len();
    lemma_trim_end_prefix(a);
    assert forall|j: int| 0 <= j < trim(s).len() implies #[trigger] trim(s)[j] == s[j + d] by {
        assert(trim(s)[j] == a[j]);
    }
    d
}

proof fn lemma_trim_start_offset(s: Seq<char>)
    ensures
        trim_start(s).len() <= s.len(),
        forall|j: int|
            0 <= j < trim_start(s).len() ==> #[trigger] trim_start(s)[j] == s[j + s.len()
                - trim_start(s).len()],
        trim_start(s).len() > 0 ==> !is_ws(trim_start(s)[0]),
    decreases s.len(),
{
    if s.len() > 0 && is_ws(s[0]) {
        lemma_trim_start_offset(s.drop_first());
    }
}

proof fn lemma_trim_end_prefix(s: Seq<char>)
    ensures
        trim_end(s).len() <= s.len(),
        forall|j: int| 0 <= j < trim_end(s).len() ==> #[trigger] trim_end(s)[j] == s[j],
        trim_end(s).len() > 0 ==> !is_ws(trim_end(s).last()),
    decreases s.len(),
{
    if s.len() > 0 && is_ws(s.last()) {
        lemma_trim_end_prefix(s.drop_last());
    }
}

/// Trimmed text that is not empty starts and ends with a non-whitespace
/// character.
pub proof fn lemma_trim_ends(s: Seq<char>)
    ensures
        trim(s).len() > 0 ==> !is_ws(trim(s)[0]) && !is_ws(trim(s).last()),
{
    lemma_trim_start_offset(s);
    lemma_trim_end_prefix(trim_start(s));
}

proof fn lemma_trim_end_keeps_first(x: Seq<char>)
    requires
        x.len() > 0,
        !is_ws(x[0]),
    ensures
        trim_end(x).len() > 0,
    decreases x.len(),
{
    if is_ws(x.last()) {
        lemma_trim_end_keeps_first(x.drop_last());
    }
}

proof fn lemma_trim_start_finds(s: Seq<char>, i: int)
    requires
        0 <= i < s.len(),
        !is_ws(s[i]),
    ensures
        trim_start(s).len() > 0,
        !is_ws(trim_start(s)[0]),
    decreases s.len(),
{
    if is_ws(s[0]) {
        lemma_trim_start_finds(s.drop_first(), i - 1);
    }
}

/// A line holding a non-whitespace character is not blank.
pub proof fn lemma_not_blank(s: Seq<char>, i: int)
    requires
        0 <= i < s.len(),
        !is_ws(s[i]),
    ensures
        !is_blank(s),
{
    lemma_trim_start_finds(s, i);
    lemma_trim_end_keeps_first(trim_start(s));
}

/// The lines of text after a line ending: an empty first line, then the
/// lines of the rest.
pub proof fn lemma_lines_after_newline(x: Seq<char>)
    ensures
        lines(seq!['\n'] + x) == seq![Seq::<char>::empty()] + lines(x),
{
    let s = seq!['\n'] + x;
    lemma_first_index(s, '\n', 0);
    assert(s.take(0) =~= Seq::<char>::empty());
    assert(s.skip(1) =~= x);
}

/// For text without carriage returns that does not end with a line
/// ending: a final line ending adds no line, joining the lines with `\n`
/// gives the text back, the first line starts with the text's first
/// character and the last line ends with its last character.
pub proof fn lemma_lines_of_text(t: Seq<char>)
    requires
        t.len() > 0,
        t.last() != '\n',
        forall|j: int| 0 <= j < t.len() ==> #[trigger] t[j] != '\r',
    ensures
        lines(t + seq!['\n']) == lines(t),
        lines(t).len() > 0,
        join_lines(lines(t)) == t,
        lines(t)[0].len() > 0 && lines(t)[0][0] == t[0] || t[0] == '\n',
        lines(t).last().len() > 0,
        lines(t).last().last() == t.last(),
    decreases t.len(),
{
    let s = t + seq!['\n'];
    let k = first_index(t, '\n');
    lemma_first_index_bounds(t, '\n');
    if k < 0 {
        assert forall|j: int| 0 <= j < t.len() implies s[j] != '\n' by {
            if s[j] == '\n' {
                lemma_first_index_none(t, '\n', j);
            }
        }
        lemma_first_index(s, '\n', t.len() as int);
        assert(s.take(t.len() as int) =~= t);
        assert(s.skip(t.len() as int + 1) =~= Seq::<char>::empty());
        assert(t[t.len() - 1] != '\r');
        assert(strip_cr(t) == t);
        assert(lines(Seq::<char>::empty()) == Seq::<Seq<char>>::empty());
        assert(lines(s) == seq![strip_cr(s.take(t.len() as int))] + lines(s.skip(t.len() as int + 1)));
        assert(lines(s) =~= seq![t]);
        assert(lines(t) == seq![t]);
    } else {
        assert forall|j: int| 0 <= j < k implies s[j] != '\n' by {
            lemma_first_index_before(t, '\n', j);
        }
        lemma_first_index(s, '\n', k);
        let rest = t.skip(k + 1);
        assert(s.take(k) =~= t.take(k));
        assert(s.skip(k + 1) =~= rest + seq!['\n']);
        assert(k < t.len() - 1);
        assert(rest.last() == t.last());
        assert forall|j: int| 0 <= j < rest.len() implies #[trigger] rest[j] != '\r' by {
            assert(rest[j] == t[j + k + 1]);
        }
        lemma_lines_of_text(rest);
        if k > 0 {
            assert(t.take(k).last() == t[k - 1]);
            assert(strip_cr(t.take(k)) == t.take(k));
        }
        let head = strip_cr(t.take(k));
        assert(lines(t) == seq![head] + lines(rest));
        assert(lines(s) == seq![strip_cr(s.take(k))] + lines(s.skip(k + 1)));
        assert(lines(s) =~= lines(t));
        lemma_join_front(head, lines(rest));
        assert(join_lines(lines(t)) == head + seq!['\n'] + join_lines(lines(rest)));
        if k > 0 {
            assert(head =~= t.take(k));
        } else {
            assert(head =~= Seq::<char>::empty());
        }
        assert(t =~= t.take(k) + seq!['\n'] + rest);
        assert((seq![head] + lines(rest)).last() == lines(rest).last());
    }
}

proof fn lemma_first_index_none(s: Seq<char>, c: char, j: int)
    requires
        first_index(s, c) < 0,
        0 <= j < s.len(),
    ensures
        s[j] != c,
    decreases s.len(),
{
    if j > 0 {
        lemma_first_index_none(s.drop_first(), c, j - 1);
    }
}

proof fn lemma_first_index_before(s: Seq<char>, c: char, j: int)
    requires
        0 <= j < first_index(s, c),
    ensures
        s[j] != c,
    decreases s.len(),
{
    lemma_first_index_bounds(s, c);
    if s[0] != c && j > 0 {
        assert(first_index(s.drop_first(), c) == first_index(s, c) - 1);
        lemma_first_index_before(s.drop_first(), c, j - 1);
        assert(s[j] == s.drop_first()[j - 1]);
    }
}

/// Joining a first line to further lines puts a `\n` between them.
pub proof fn lemma_join_front(x: Seq<char>, ys: Seq<Seq<char>>)
    requires
        ys.len() > 0,
    ensures
        join_lines(seq![x] + ys) == x + seq!['\n'] + join_lines(ys),
    decreases ys.len(),
{
    let all = seq![x] + ys;
    if ys.len() == 1 {
        assert(all.drop_last() =~= seq![x]);
        assert(join_lines(seq![x]) == x);
        assert(all.last() == ys[0]);
        assert(join_lines(ys) == ys[0]);
        assert(join_lines(all) == join_lines(all.drop_last()) + seq!['\n'] + all.last());
    } else {
        lemma_join_front(x, ys.drop_last());
        assert(all.drop_last() =~= seq![x] + ys.drop_last());
        assert(all.last() == ys.last());
        assert(join_lines(all) == join_lines(all.drop_last()) + seq!['\n'] + all.last());
        assert(join_lines(ys) == join_lines(ys.drop_last()) + seq!['\n'] + ys.last());
        assert(join_lines(all) =~= x + seq!['\n'] + join_lines(ys));
    }
}

/// Split text into lines (`str::lines`).
pub fn split_lines(s: &[char]) -> (r: Vec<Vec<char>>)
    ensures
        r.deep_view() == lines(s@),
{
    let mut r: Vec<Vec<char>> = Vec::new();
    let mut start: usize = 0;
    let mut i: usize = 0;
    assert(s@.skip(0) =~= s@);
    assert(r.deep_view() + lines(s@) =~= lines(s@));
    while i < s.len()
        invariant
            start <= i <= s@.len(),
            forall|j: int| start <= j < i ==> s@[j] != '\n',
            r.deep_view() + lines(s@.skip(start as int)) == lines(s@),
        decreases s.len() - i,
    {
        if s[i] == '\n' {
            let ghost t = s@.skip(start as int);
            proof {
                lemma_first_index(t, '\n', (i - start) as int);
                assert(t.take((i - start) as int) =~= s@.subrange(start as int, i as int));
                assert(t.skip((i - start) + 1) =~= s@.skip(i + 1));
            }
            let mut line = slice_chars(s, start, i);
            if line.len() > 0 && line[line.len() - 1] == '\r' {
                line.pop();
            }
            let ghost old_r = r.deep_view();
            assert(line.deep_view() =~= line@);
            assert(line@ == strip_cr(s@.subrange(start as int, i as int)));
            r.push(line);
            proof {
                assert(r.deep_view() =~~= old_r.push(strip_cr(s@.subrange(start as int, i as int))));
                assert(lines(t) == seq![strip_cr(t.take((i - start) as int))] + lines(t.skip(
                    (i - start) + 1,
                )));
                assert(r.deep_view() + lines(s@.skip(i + 1)) =~= old_r + lines(t));
            }
            start = i + 1;
        }
        i = i + 1;
    }
    let ghost t = s@.skip(start as int);
    if start < s.len() {
        proof {
            lemma_first_index(t, '\n', t.len() as int);
        }
        let line = slice_chars(s, start, s.len());
        let ghost old_r = r.deep_view();
        assert(line.deep_view() =~= line@);
        assert(line@ =~= t);
        r.push(line);
        proof {
            assert(r.deep_view() =~~= old_r.push(t));
            assert(lines(t) == seq![t]);
        }
    } else {
        assert(t.len() == 0);
    }
    assert(r.deep_view() =~= r.deep_view() + Seq::<Seq<char>>::empty());
    r
}

// ───────────────────────── ASCII case ─────────────────────────

/// ASCII lower-casing of one character.
pub open spec fn ascii_lower(c: char) -> char {
    if 'A' <= c && c <= 'Z' {
        ((c as u32) + 32) as char
    } else {
        c
    }
}

/// `a` equals `b` ignoring ASCII case, where `b` is already lower case.
pub open spec fn eq_ignore_case_lower(a: Seq<char>, b: Seq<char>) -> bool {
    a.len() == b.len() && forall|i: int| 0 <= i < a.len() ==> ascii_lower(#[trigger] a[i]) == b[i]
}

/// Executable [`ascii_lower`].
pub fn to_ascii_lower(c: char) -> (r: char)
    ensures
        r == ascii_lower(c),
{
    if 'A' <= c && c <= 'Z' {
        let v: u8 = ((c as u32) + 32) as u8;
        v as char
    } else {
        c
    }
}

/// Case-insensitive comparison of `a` with an ASCII lower-case word.
pub fn eq_lower_word(a: &[char], b: &str) -> (r: bool)
    ensures
        r == eq_ignore_case_lower(a@, b@),
{
    let bc = chars_of(b);
    if a.len() != bc.len() {
        return false;
    }
    let mut i: usize = 0;
    while i < a.len()
        invariant
            a@.len() == bc@.len(),
            bc@ == b@,
            i <= a@.len(),
            forall|j: int| 0 <= j < i ==> ascii_lower(#[trigger] a@[j]) == bc@[j],
        decreases a.len() - i,
    {
        if to_ascii_lower(a[i]) != bc[i] {
            return false;
        }
        i = i + 1;
    }
    true
}

// ───────────────────────── decimal numbers ─────────────────────────

/// The ASCII digit for `d < 10`.
pub open spec fn digit_char(d: nat) -> char {
    ((d + 48) as u32) as char
}

/// Whether `c` is an ASCII digit.
pub open spec fn is_ascii_digit(c: char) -> bool {
    '0' <= c && c <= '9'
}

/// Value of an ASCII digit.
pub open spec fn digit_value(c: char) -> nat {
    ((c as u32) - 48) as nat
}

/// Decimal representation of `n` without leading zeros (`"0"` for zero).
pub open spec fn decimal(n: nat) -> Seq<char>
    decreases n,
{
    if n < 10 {
        seq![digit_char(n)]
    } else {
        decimal(n / 10).push(digit_char(n % 10))
    }
}

/// `n` left-padded with zeros to at least `width` characters (`{:0width$}`).
pub open spec fn zero_padded(n: nat, width: nat) -> Seq<char> {
    let d = decimal(n);
    if d.len() >= width {
        d
    } else {
        Seq::new((width - d.len()) as nat, |i: int| '0') + d
    }
}

/// Value of a non-empty run of ASCII digits.
pub open spec fn digits_value(s: Seq<char>) -> nat
    decreases s.len(),
{
    if s.len() == 0 {
        0
    } else {
        digits_value(s.drop_last()) * 10 + digit_value(s.last())
    }
}

/// All characters are ASCII digits.
pub open spec fn all_ascii_digits(s: Seq<char>) -> bool {
    forall|i: int| 0 <= i < s.len() ==> is_ascii_digit(#[trigger] s[i])
}

/// `<u32 as FromStr>::from_str`: an optional `+` followed by one or more
/// ASCII digits whose value fits in `u32`.
pub open spec fn parse_u32(s: Seq<char>) -> Option<u32> {
    let d = if s.len() > 0 && s[0] == '+' {
        s.drop_first()
    } else {
        s
    };
    if d.len() > 0 && all_ascii_digits(d) && digits_value(d) <= u32::MAX {
        Some(digits_value(d) as u32)
    } else {
        None
    }
}

/// `<usize as FromStr>::from_str` with the same grammar as [`parse_u32`].
pub open spec fn parse_usize(s: Seq<char>) -> Option<usize> {
    let d = if s.len() > 0 && s[0] == '+' {
        s.drop_first()
    } else {
        s
    };
    if d.len() > 0 && all_ascii_digits(d) && digits_value(d) <= usize::MAX {
        Some(digits_value(d) as usize)
    } else {
        None
    }
}

fn digit_to_char(d: u64) -> (c: char)
    requires
        d < 10,
    ensures
        c == digit_char(d as nat),
{
    let v: u8 = (d as u8) + 48;
    v as char
}

proof fn lemma_decimal_len(n: nat)
    ensures
        decimal(n).len() >= 1,
    decreases n,
{
    if n >= 10 {
        lemma_decimal_len(n / 10);
    }
}

/// Decimal representation of a `u64`.
pub fn decimal_u64(n: u64) -> (r: Vec<char>)
    ensures
        r@ == decimal(n as nat),
    decreases n,
{
    if n < 10 {
        let mut r: Vec<char> = Vec::new();
        r.push(digit_to_char(n));
        assert(r@ =~= seq![digit_char(n as nat)]);
        r
    } else {
        let mut r = decimal_u64(n / 10);
        r.push(digit_to_char(n % 10));
        r
    }
}

/// Decimal representation of a `usize`.
pub fn decimal_usize(n: usize) -> (r: Vec<char>)
    ensures
        r@ == decimal(n as nat),
{
    decimal_u64(n as u64)
}

/// Zero-padded decimal representation (`format!("{:0width$}", n)`).
pub fn zero_pad(n: u64, width: usize) -> (r: Vec<char>)
    ensures
        r@ == zero_padded(n as nat, width as nat),
{
    let d = decimal_u64(n);
    if d.len() >= width {
        d
    } else {
        let mut r: Vec<char> = Vec::new();
        let k = width - d.len();
        let mut i: usize = 0;
        while i < k
            invariant
                i <= k,
                r@ == Seq::new(i as nat, |j: int| '0'),
            decreases k - i,
        {
            r.push('0');
            i = i + 1;
            assert(r@ =~= Seq::new(i as nat, |j: int| '0'));
        }
        push_chars(&mut r, d.as_slice());
        r
    }
}

/// The decimal representation of `n` consists of digits whose value is `n`.
pub proof fn lemma_decimal_value(n: nat)
    ensures
        all_ascii_digits(decimal(n)),
        digits_value(decimal(n)) == n,
        decimal(n).len() >= 1,
    decreases n,
{
    lemma_decimal_len(n);
    if n < 10 {
        assert(decimal(n) =~= seq![digit_char(n)]);
        assert(seq![digit_char(n)].drop_last() =~= Seq::<char>::empty());
        lemma_digit_char_value(n);
        assert(digits_value(Seq::<char>::empty()) == 0);
        lemma_digits_value_push(Seq::<char>::empty(), digit_char(n));
        assert(Seq::<char>::empty().push(digit_char(n)) =~= seq![digit_char(n)]);
    } else {
        lemma_decimal_value(n / 10);
        let d = decimal(n / 10);
        lemma_digits_value_push(d, digit_char(n % 10));
        lemma_digit_char_value(n % 10);
        assert((n / 10) * 10 + n % 10 == n);
        assert forall|i: int| 0 <= i < decimal(n).len() implies is_ascii_digit(#[trigger] decimal(n)[i]) by {
            if i < d.len() {
                assert(decimal(n)[i] == d[i]);
            }
        }
    }
}

proof fn lemma_digit_char_value(d: nat)
    requires
        d < 10,
    ensures
        digit_value(digit_char(d)) == d,
        is_ascii_digit(digit_char(d)),
{
    let v: u32 = (d + 48) as u32;
    assert(48 <= v <= 57);
    assert((v as char) as u32 == v);
}

/// Leading zeros do not change the value of digits.
pub proof fn lemma_leading_zeros(k: nat, d: Seq<char>)
    ensures
        digits_value(Seq::new(k, |i: int| '0') + d) == digits_value(d),
    decreases d.len(),
{
    let z = Seq::new(k, |i: int| '0');
    if d.len() == 0 {
        assert(z + d =~= z);
        lemma_zeros_value(k);
    } else {
        lemma_leading_zeros(k, d.drop_last());
        assert((z + d).drop_last() =~= z + d.drop_last());
        assert((z + d).last() == d.last());
    }
}

proof fn lemma_zeros_value(k: nat)
    ensures
        digits_value(Seq::new(k, |i: int| '0')) == 0,
    decreases k,
{
    if k > 0 {
        lemma_zeros_value((k - 1) as nat);
        assert(Seq::new(k, |i: int| '0').drop_last() =~= Seq::new((k - 1) as nat, |i: int| '0'));
    }
}

/// A zero-padded number parses back to the number.
pub proof fn lemma_zero_padded_parse(n: nat, width: nat)
    requires
        n <= u32::MAX,
    ensures
        parse_u32(zero_padded(n, width)) == Some(n as u32),
        all_ascii_digits(zero_padded(n, width)),
        zero_padded(n, width).len() >= 1,
{
    lemma_decimal_value(n);
    let d = decimal(n);
    if d.len() < width {
        let k = (width - d.len()) as nat;
        let z = Seq::new(k, |i: int| '0');
        lemma_leading_zeros(k, d);
        assert forall|i: int| 0 <= i < (z + d).len() implies is_ascii_digit(#[trigger] (z + d)[i]) by {
            if i >= z.len() {
                assert((z + d)[i] == d[i - z.len()]);
            }
        }
    }
}

proof fn lemma_digits_value_push(s: Seq<char>, c: char)
    ensures
        digits_value(s.push(c)) == digits_value(s) * 10 + digit_value(c),
{
    assert(s.push(c).drop_last() =~= s);
}

proof fn lemma_digits_value_bound(s: Seq<char>, n: int)
    requires
        0 <= n < s.len(),
        all_ascii_digits(s),
    ensures
        digits_value(s.take(n)) <= digits_value(s.take(n + 1)),
{
    assert(s.take(n + 1) =~= s.take(n).push(s[n]));
    lemma_digits_value_push(s.take(n), s[n]);
}

proof fn lemma_digits_value_mono(s: Seq<char>, a: int, b: int)
    requires
        0 <= a <= b <= s.len(),
        all_ascii_digits(s),
    ensures
        digits_value(s.take(a)) <= digits_value(s.take(b)),
    decreases b - a,
{
    if a < b {
        lemma_digits_value_bound(s, b - 1);
        lemma_digits_value_mono(s, a, b - 1);
    }
}

/// Parse digits `s[a..b]` as a `u64`-sized value; `None` when they are not
/// all ASCII digits or the value exceeds `limit`.
fn parse_digits(s: &[char], a: usize, b: usize, limit: u64) -> (r: Option<u64>)
    requires
        a <= b <= s@.len(),
    ensures
        match r {
            Some(v) => all_ascii_digits(s@.subrange(a as int, b as int)) && v == digits_value(
                s@.subrange(a as int, b as int),
            ) && v <= limit,
            None => !all_ascii_digits(s@.subrange(a as int, b as int)) || digits_value(
                s@.subrange(a as int, b as int),
            ) > limit,
        },
{
    let ghost d = s@.subrange(a as int, b as int);
    let mut v: u64 = 0;
    let mut i = a;
    while i < b
        invariant
            a <= i <= b <= s@.len(),
            d == s@.subrange(a as int, b as int),
            all_ascii_digits(d.take(i - a)),
            v == digits_value(d.take(i - a)),
            v <= limit,
        decreases b - i,
    {
        let c = s[i];
        if !('0' <= c && c <= '9') {
            assert(d[i - a] == c);
            return None;
        }
        let dv: u64 = ((c as u32) - 48) as u64;
        proof {
            assert(d.take(i - a + 1) =~= d.take(i - a).push(c));
            lemma_digits_value_push(d.take(i - a), c);
        }
        if dv > limit || v > (limit - dv) / 10 {
            proof {
                assert(digits_value(d.take(i - a + 1)) > limit) by (nonlinear_arith)
                    requires
                        digits_value(d.take(i - a + 1)) == v * 10 + dv,
                        dv > limit || v > (limit - dv) / 10,
                        dv <= 9,
                ;
                if !all_ascii_digits(d) {
                } else {
                    lemma_digits_value_mono(d, i - a + 1, d.len() as int);
                    assert(d.take(d.len() as int) =~= d);
                }
            }
            return None;
        }
        proof {
            assert(v * 10 + dv <= limit) by (nonlinear_arith)
                requires
                    v <= (limit - dv) / 10,
                    dv <= 9,
            ;
        }
        v = v * 10 + dv;
        i = i + 1;
        proof {
            assert(all_ascii_digits(d.take(i - a)));
        }
    }
    assert(d.take(b - a) =~= d);
    Some(v)
}

/// Parse a `u32` (`str::parse::<u32>`).
pub fn parse_u32_chars(s: &[char]) -> (r: Option<u32>)
    ensures
        r == parse_u32(s@),
{
    let a: usize = if s.len() > 0 && s[0] == '+' {
        1
    } else {
        0
    };
    assert(s@.subrange(a as int, s@.len() as int) =~= if s@.len() > 0 && s@[0] == '+' {
        s@.drop_first()
    } else {
        s@
    });
    if a == s.len() {
        return None;
    }
    match parse_digits(s, a, s.len(), 0xffff_ffff) {
        Some(v) => Some(v as u32),
        None => None,
    }
}

/// Parse a `usize` (`str::parse::<usize>`).
pub fn parse_usize_chars(s: &[char]) -> (r: Option<usize>)
    ensures
        r == parse_usize(s@),
{
    let a: usize = if s.len() > 0 && s[0] == '+' {
        1
    } else {
        0
    };
    assert(s@.subrange(a as int, s@.len() as int) =~= if s@.len() > 0 && s@[0] == '+' {
        s@.drop_first()
    } else {
        s@
    });
    if a == s.len() {
        return None;
    }
    match parse_digits(s, a, s.len(), usize::MAX as u64) {
        Some(v) => Some(v as usize),
        None => None,
    }
}

} // verus!
