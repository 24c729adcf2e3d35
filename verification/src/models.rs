//! Core data models: requirement types, statuses, links, code references,
//! requirements and coverage statistics.

use vstd::prelude::*;

use crate::outside::current_time_micros;
use crate::sorting::views;
use crate::text::{
    chars_eq, chars_of, chars_of_string, eq_ignore_case_lower, eq_lower_word, first_index,
    has_prefix, lemma_first_index, lemma_first_index_bounds, parse_u32, parse_u32_chars,
    push_chars, slice_chars, starts_with, string_of, zero_pad, zero_padded,
};

verus! {

/// Current schema version for exports.
pub const SCHEMA_VERSION: &'static str = "1.0.0";

/// Version of this tool, recorded in exports and audit bundles.
pub const TOOL_VERSION: &'static str = "0.1.0";

// ───────────────────────── requirement type ─────────────────────────

/// Requirement type - HLR (High-Level), LLR (Low-Level), or TST (Test).
#[derive(Clone, Copy, Debug, PartialEq, Eq, Structural)]
pub enum RequirementType {
    /// High-Level Requirement
    Hlr,
    /// Low-Level Requirement
    Llr,
    /// Test specification
    Tst,
}

/// Lower-case name of a requirement type.
pub open spec fn req_type_name(t: RequirementType) -> Seq<char> {
    match t {
        RequirementType::Hlr => "hlr"@,
        RequirementType::Llr => "llr"@,
        RequirementType::Tst => "tst"@,
    }
}

/// Upper-case ID prefix of a requirement type.
pub open spec fn type_prefix(t: RequirementType) -> Seq<char> {
    match t {
        RequirementType::Hlr => "HLR"@,
        RequirementType::Llr => "LLR"@,
        RequirementType::Tst => "TST"@,
    }
}

/// Parsing of a requirement type name, case-insensitively; `"test"` is
/// accepted for `Tst`.
///
/// Comparing `s.to_lowercase()` with one of these ASCII words is the same as
/// comparing `s` with it ignoring ASCII case: the only non-ASCII character
/// that lower-cases into ASCII is KELVIN SIGN (to `k`), which none of the
/// words contains, and characters with multi-character lower-case forms
/// never produce a pure-ASCII result.
pub open spec fn parse_type(s: Seq<char>) -> Option<RequirementType> {
    if eq_ignore_case_lower(s, "hlr"@) {
        Some(RequirementType::Hlr)
    } else if eq_ignore_case_lower(s, "llr"@) {
        Some(RequirementType::Llr)
    } else if eq_ignore_case_lower(s, "tst"@) || eq_ignore_case_lower(s, "test"@) {
        Some(RequirementType::Tst)
    } else {
        None
    }
}

impl RequirementType {
    /// Returns the lowercase string representation (e.g., `"hlr"`).
    pub fn as_str(&self) -> (s: &'static str)
        ensures
            s@ == req_type_name(*self),
    {
        match self {
            RequirementType::Hlr => "hlr",
            RequirementType::Llr => "llr",
            RequirementType::Tst => "tst",
        }
    }

    /// Parses a string into a `RequirementType`; returns `None` for unknown values.
    pub fn from_str(s: &str) -> (r: Option<Self>)
        ensures
            r == parse_type(s@),
    {
        let c = chars_of(s);
        Self::from_chars(c.as_slice())
    }

    /// [`RequirementType::from_str`] on characters.
    pub fn from_chars(c: &[char]) -> (r: Option<Self>)
        ensures
            r == parse_type(c@),
    {
        if eq_lower_word(c, "hlr") {
            Some(RequirementType::Hlr)
        } else if eq_lower_word(c, "llr") {
            Some(RequirementType::Llr)
        } else if eq_lower_word(c, "tst") || eq_lower_word(c, "test") {
            Some(RequirementType::Tst)
        } else {
            None
        }
    }

    /// Get the ID prefix for this requirement type.
    pub fn id_prefix(&self) -> (s: &'static str)
        ensures
            s@ == type_prefix(*self),
    {
        match self {
            RequirementType::Hlr => "HLR",
            RequirementType::Llr => "LLR",
            RequirementType::Tst => "TST",
        }
    }
}

// ───────────────────────── requirement status ─────────────────────────

/// Requirement status.
#[derive(Clone, Copy, Debug, PartialEq, Eq, Structural)]
pub enum RequirementStatus {
    /// Work in progress; not yet reviewed
    Draft,
    /// Reviewed and accepted
    Approved,
    /// No longer valid; superseded or removed
    Deprecated,
    /// Reviewed and explicitly not accepted
    Rejected,
}

/// Lower-case name of a status.
pub open spec fn status_name(s: RequirementStatus) -> Seq<char> {
    match s {
        RequirementStatus::Draft => "draft"@,
        RequirementStatus::Approved => "approved"@,
        RequirementStatus::Deprecated => "deprecated"@,
        RequirementStatus::Rejected => "rejected"@,
    }
}

/// Case-insensitive parsing of a status name (see [`parse_type`] on the
/// equivalence with `to_lowercase`).
pub open spec fn parse_status(s: Seq<char>) -> Option<RequirementStatus> {
    if eq_ignore_case_lower(s, "draft"@) {
        Some(RequirementStatus::Draft)
    } else if eq_ignore_case_lower(s, "approved"@) {
        Some(RequirementStatus::Approved)
    } else if eq_ignore_case_lower(s, "deprecated"@) {
        Some(RequirementStatus::Deprecated)
    } else if eq_ignore_case_lower(s, "rejected"@) {
        Some(RequirementStatus::Rejected)
    } else {
        None
    }
}

impl RequirementStatus {
    /// Returns the lowercase string representation (e.g., `"draft"`).
    pub fn as_str(&self) -> (s: &'static str)
        ensures
            s@ == status_name(*self),
    {
        match self {
            RequirementStatus::Draft => "draft",
            RequirementStatus::Approved => "approved",
            RequirementStatus::Deprecated => "deprecated",
            RequirementStatus::Rejected => "rejected",
        }
    }

    /// Parses a string into a `RequirementStatus`; returns `None` for unknown values.
    pub fn from_str(s: &str) -> (r: Option<Self>)
        ensures
            r == parse_status(s@),
    {
        let c = chars_of(s);
        Self::from_chars(c.as_slice())
    }

    /// [`RequirementStatus::from_str`] on characters.
    pub fn from_chars(c: &[char]) -> (r: Option<Self>)
        ensures
            r == parse_status(c@),
    {
        if eq_lower_word(c, "draft") {
            Some(RequirementStatus::Draft)
        } else if eq_lower_word(c, "approved") {
            Some(RequirementStatus::Approved)
        } else if eq_lower_word(c, "deprecated") {
            Some(RequirementStatus::Deprecated)
        } else if eq_lower_word(c, "rejected") {
            Some(RequirementStatus::Rejected)
        } else {
            None
        }
    }

}

impl Default for RequirementStatus {
    /// The default status (`Approved`).
    fn default() -> (s: Self)
        ensures
            s == RequirementStatus::Approved,
    {
        RequirementStatus::Approved
    }
}

// ───────────────────────── link type ─────────────────────────

/// Link type between requirements.
#[derive(Clone, Copy, Debug, PartialEq, Eq, Structural)]
pub enum LinkType {
    /// LLR refines HLR
    Refines,
    /// Code implements LLR
    Implements,
    /// Test verifies LLR
    Verifies,
    /// Generic reference
    References,
}

/// Lower-case name of a link type.
pub open spec fn link_req_type_name(t: LinkType) -> Seq<char> {
    match t {
        LinkType::Refines => "refines"@,
        LinkType::Implements => "implements"@,
        LinkType::Verifies => "verifies"@,
        LinkType::References => "references"@,
    }
}

/// Case-insensitive parsing of a link type name.
pub open spec fn parse_link_type(s: Seq<char>) -> Option<LinkType> {
    if eq_ignore_case_lower(s, "refines"@) {
        Some(LinkType::Refines)
    } else if eq_ignore_case_lower(s, "implements"@) {
        Some(LinkType::Implements)
    } else if eq_ignore_case_lower(s, "verifies"@) {
        Some(LinkType::Verifies)
    } else if eq_ignore_case_lower(s, "references"@) {
        Some(LinkType::References)
    } else {
        None
    }
}

impl LinkType {
    /// Returns the lowercase string representation (e.g., `"refines"`).
    pub fn as_str(&self) -> (s: &'static str)
        ensures
            s@ == link_req_type_name(*self),
    {
        match self {
            LinkType::Refines => "refines",
            LinkType::Implements => "implements",
            LinkType::Verifies => "verifies",
            LinkType::References => "references",
        }
    }

    /// Parses a string into a `LinkType`; returns `None` for unknown values.
    pub fn from_str(s: &str) -> (r: Option<Self>)
        ensures
            r == parse_link_type(s@),
    {
        let c = chars_of(s);
        if eq_lower_word(c.as_slice(), "refines") {
            Some(LinkType::Refines)
        } else if eq_lower_word(c.as_slice(), "implements") {
            Some(LinkType::Implements)
        } else if eq_lower_word(c.as_slice(), "verifies") {
            Some(LinkType::Verifies)
        } else if eq_lower_word(c.as_slice(), "references") {
            Some(LinkType::References)
        } else {
            None
        }
    }
}

// ───────────────────────── links and code references ─────────────────────────

/// A link between requirements or between requirement and code.
#[derive(Clone, Debug)]
pub struct Link {
    /// Source requirement ID (or source file for `Verifies` links)
    pub source: String,
    /// Target requirement ID or code reference
    pub target: String,
    /// Type of link
    pub link_type: LinkType,
}

/// Reference to code implementing a requirement.
#[derive(Clone, Debug)]
pub struct CodeRef {
    /// The requirement ID
    pub req_id: String,
    /// Source file path
    pub file: String,
    /// Line number where the tag was found
    pub line: usize,
    /// Optional end line (for blocks)
    pub line_end: Option<usize>,
    /// Hash of the code content for change detection
    pub hash: Option<String>,
    /// Optional function/symbol name
    pub symbol: Option<String>,
}

/// A code reference as plain values: requirement id, file, line, end line,
/// hash, symbol.
pub type CodeRefView = (Seq<char>, Seq<char>, nat, Option<nat>, Option<Seq<char>>, Option<Seq<char>>);

impl View for CodeRef {
    type V = CodeRefView;

    open spec fn view(&self) -> CodeRefView {
        (
            self.req_id@,
            self.file@,
            self.line as nat,
            match self.line_end {
                Some(e) => Some(e as nat),
                None => None,
            },
            match self.hash {
                Some(h) => Some(h@),
                None => None,
            },
            match self.symbol {
                Some(s) => Some(s@),
                None => None,
            },
        )
    }
}

// ───────────────────────── ordered attributes ─────────────────────────

/// Lexicographic order on character sequences by code point, which is the
/// byte order of their UTF-8 encodings (the order of `String`).
pub open spec fn lex_lt(a: Seq<char>, b: Seq<char>) -> bool
    decreases a.len(),
{
    if a.len() == 0 {
        b.len() > 0
    } else if b.len() == 0 {
        false
    } else if a[0] < b[0] {
        true
    } else if a[0] == b[0] {
        lex_lt(a.drop_first(), b.drop_first())
    } else {
        false
    }
}

/// `lex_lt` is irreflexive, and two sequences are either equal or ordered.
pub proof fn lemma_lex_trichotomy(a: Seq<char>, b: Seq<char>)
    ensures
        !(lex_lt(a, b) && lex_lt(b, a)),
        !lex_lt(a, a),
        a == b || lex_lt(a, b) || lex_lt(b, a),
    decreases a.len(),
{
    if a.len() > 0 && b.len() > 0 && a[0] == b[0] {
        lemma_lex_trichotomy(a.drop_first(), b.drop_first());
        if a.drop_first() == b.drop_first() {
            assert(a =~= seq![a[0]] + a.drop_first());
            assert(b =~= seq![b[0]] + b.drop_first());
        }
    }
    if a.len() > 0 {
        lemma_lex_trichotomy(a.drop_first(), a.drop_first());
    }
    if a.len() == 0 && b.len() == 0 {
        assert(a =~= b);
    }
}

/// `lex_lt` is transitive.
pub proof fn lemma_lex_transitive(a: Seq<char>, b: Seq<char>, c: Seq<char>)
    requires
        lex_lt(a, b),
        lex_lt(b, c),
    ensures
        lex_lt(a, c),
    decreases a.len(),
{
    if a.len() > 0 && b.len() > 0 && c.len() > 0 && a[0] == b[0] && b[0] == c[0] {
        lemma_lex_transitive(a.drop_first(), b.drop_first(), c.drop_first());
    }
}

/// Executable `lex_lt`.
pub fn lex_less(a: &[char], b: &[char]) -> (r: bool)
    ensures
        r == lex_lt(a@, b@),
{
    let mut i: usize = 0;
    assert(a@.skip(0) =~= a@);
    assert(b@.skip(0) =~= b@);
    while i < a.len() && i < b.len() && a[i] == b[i]
        invariant
            i <= a@.len(),
            i <= b@.len(),
            a@.take(i as int) == b@.take(i as int),
            lex_lt(a@, b@) == lex_lt(a@.skip(i as int), b@.skip(i as int)),
        decreases a.len() - i,
    {
        proof {
            let sa = a@.skip(i as int);
            let sb = b@.skip(i as int);
            assert(sa.drop_first() =~= a@.skip(i + 1));
            assert(sb.drop_first() =~= b@.skip(i + 1));
            assert(a@.take(i + 1) =~= a@.take(i as int).push(a@[i as int]));
            assert(b@.take(i + 1) =~= b@.take(i as int).push(b@[i as int]));
        }
        i = i + 1;
    }
    if i == a.len() {
        i < b.len()
    } else if i == b.len() {
        false
    } else {
        a[i] < b[i]
    }
}

/// Executable `lex_lt` on strings.
pub fn string_less(a: &String, b: &String) -> (r: bool)
    ensures
        r == lex_lt(a@, b@),
{
    let ac = chars_of_string(a);
    let bc = chars_of_string(b);
    lex_less(ac.as_slice(), bc.as_slice())
}

/// Executable equality of two strings.
pub fn string_eq(a: &String, b: &String) -> (r: bool)
    ensures
        r == (a@ == b@),
{
    let ac = chars_of_string(a);
    let bc = chars_of_string(b);
    chars_eq(ac.as_slice(), bc.as_slice())
}

/// Key/value attributes of a requirement, kept in strictly increasing key
/// order (so each key occurs once and iteration is ordered by key).
#[derive(Debug)]
pub struct Attributes {
    entries: Vec<(String, String)>,
}

/// Keys of an entry sequence are strictly increasing.
pub open spec fn keys_sorted(e: Seq<(String, String)>) -> bool {
    forall|i: int, j: int| 0 <= i < j < e.len() ==> lex_lt(#[trigger] e[i].0@, #[trigger] e[j].0@)
}

/// Map view of an entry sequence.
pub open spec fn entries_map(e: Seq<(String, String)>) -> Map<Seq<char>, Seq<char>>
    decreases e.len(),
{
    if e.len() == 0 {
        Map::empty()
    } else {
        entries_map(e.drop_last()).insert(e.last().0@, e.last().1@)
    }
}

proof fn lemma_entries_map_dom(e: Seq<(String, String)>, k: Seq<char>)
    ensures
        entries_map(e).contains_key(k) <==> exists|i: int| 0 <= i < e.len() && e[i].0@ == k,
    decreases e.len(),
{
    if e.len() > 0 {
        lemma_entries_map_dom(e.drop_last(), k);
        if entries_map(e).contains_key(k) && k != e.last().0@ {
            let i = choose|i: int| 0 <= i < e.drop_last().len() && e.drop_last()[i].0@ == k;
            assert(e[i].0@ == k);
        }
        if exists|i: int| 0 <= i < e.len() && e[i].0@ == k {
            let i = choose|i: int| 0 <= i < e.len() && e[i].0@ == k;
            if i < e.len() - 1 {
                assert(e.drop_last()[i].0@ == k);
            }
        }
    }
}

proof fn lemma_entries_map_value(e: Seq<(String, String)>, i: int)
    requires
        keys_sorted(e),
        0 <= i < e.len(),
    ensures
        entries_map(e).contains_key(e[i].0@),
        entries_map(e)[e[i].0@] == e[i].1@,
    decreases e.len(),
{
    lemma_entries_map_dom(e, e[i].0@);
    if i < e.len() - 1 {
        assert(lex_lt(e[i].0@, e[e.len() - 1].0@));
        lemma_lex_trichotomy(e[i].0@, e[e.len() - 1].0@);
        assert(e.drop_last()[i] == e[i]);
        lemma_entries_map_value(e.drop_last(), i);
    }
}

impl Attributes {
    /// The entries in key order.
    pub closed spec fn entries(self) -> Seq<(String, String)> {
        self.entries@
    }

    /// The attributes as a map from key to value.
    pub open spec fn map(self) -> Map<Seq<char>, Seq<char>> {
        entries_map(self.entries())
    }

    /// Keys are strictly increasing.
    #[verifier::type_invariant]
    spec fn inv(self) -> bool {
        keys_sorted(self.entries@)
    }

    /// Empty attributes.
    pub fn new() -> (a: Self)
        ensures
            a.entries() == Seq::<(String, String)>::empty(),
            a.map() == Map::<Seq<char>, Seq<char>>::empty(),
    {
        Attributes { entries: Vec::new() }
    }

    /// A copy with the same entries.
    pub fn duplicate(&self) -> (r: Self)
        ensures
            r.entries() == self.entries(),
    {
        proof {
            use_type_invariant(self);
        }
        let mut v: Vec<(String, String)> = Vec::new();
        let mut i: usize = 0;
        while i < self.entries.len()
            invariant
                i <= self.entries@.len(),
                v@ == self.entries@.take(i as int),
            decreases self.entries.len() - i,
        {
            let k = self.entries[i].0.clone();
            let val = self.entries[i].1.clone();
            v.push((k, val));
            proof {
                assert(v@ =~= self.entries@.take(i + 1));
            }
            i = i + 1;
        }
        assert(v@ =~= self.entries@);
        Attributes { entries: v }
    }

    /// Number of attributes.
    pub fn len(&self) -> (n: usize)
        ensures
            n == self.entries().len(),
    {
        self.entries.len()
    }

    /// Whether there are no attributes.
    pub fn is_empty(&self) -> (b: bool)
        ensures
            b == (self.entries().len() == 0),
    {
        self.entries.len() == 0
    }

    /// The entries, ordered by key.
    pub fn as_slice(&self) -> (s: &[(String, String)])
        ensures
            s@ == self.entries(),
            keys_sorted(s@),
    {
        proof {
            use_type_invariant(self);
        }
        self.entries.as_slice()
    }

    /// Value stored under `key`.
    pub fn get(&self, key: &str) -> (r: Option<&String>)
        ensures
            match r {
                Some(v) => self.map().contains_key(key@) && self.map()[key@] == v@,
                None => !self.map().contains_key(key@),
            },
    {
        proof {
            use_type_invariant(self);
        }
        let k = chars_of(key);
        let mut i: usize = 0;
        while i < self.entries.len()
            invariant
                i <= self.entries@.len(),
                k@ == key@,
                keys_sorted(self.entries@),
                forall|j: int| 0 <= j < i ==> self.entries@[j].0@ != key@,
            decreases self.entries.len() - i,
        {
            let ek = chars_of_string(&self.entries[i].0);
            if chars_eq(ek.as_slice(), k.as_slice()) {
                proof {
                    lemma_entries_map_value(self.entries@, i as int);
                }
                return Some(&self.entries[i].1);
            }
            i = i + 1;
        }
        proof {
            lemma_entries_map_dom(self.entries@, key@);
        }
        None
    }

    /// Insert or replace the value under `key`.
    pub fn insert(&mut self, key: String, value: String)
        ensures
            final(self).map() == old(self).map().insert(key@, value@),
    {
        proof {
            use_type_invariant(&*self);
        }
        let mut i: usize = 0;
        while i < self.entries.len() && string_less(&self.entries[i].0, &key)
            invariant
                i <= self.entries@.len(),
                keys_sorted(self.entries@),
                forall|j: int| 0 <= j < i ==> lex_lt(#[trigger] self.entries@[j].0@, key@),
            decreases self.entries.len() - i,
        {
            i = i + 1;
        }
        let ghost e0 = self.entries@;
        if i < self.entries.len() && string_eq(&self.entries[i].0, &key) {
            let mut entries: Vec<(String, String)> = Vec::new();
            std::mem::swap(&mut entries, &mut self.entries);
            entries.set(i, (key, value));
            proof {
                assert(entries@ == e0.update(i as int, (key, value)));
                assert forall|a: int, b: int| 0 <= a < b < entries@.len() implies lex_lt(
                    #[trigger] entries@[a].0@,
                    #[trigger] entries@[b].0@,
                ) by {
                    assert(lex_lt(e0[a].0@, e0[b].0@));
                }
                lemma_update_map(e0, i as int, key, value);
            }
            self.entries = entries;
        } else {
            proof {
                if i < e0.len() {
                    lemma_lex_trichotomy(e0[i as int].0@, key@);
                    assert(lex_lt(key@, e0[i as int].0@));
                }
                assert forall|j: int| 0 <= j < e0.len() implies e0[j].0@ != key@ by {
                    lemma_lex_trichotomy(key@, key@);
                    if j < i {
                        assert(lex_lt(e0[j].0@, key@));
                    } else {
                        if j > i {
                            assert(lex_lt(e0[i as int].0@, e0[j].0@));
                            lemma_lex_transitive(key@, e0[i as int].0@, e0[j].0@);
                        }
                    }
                }
                e0.insert_ensures(i as int, (key, value));
            }
            let mut entries: Vec<(String, String)> = Vec::new();
            std::mem::swap(&mut entries, &mut self.entries);
            entries.insert(i, (key, value));
            proof {
                let n = e0.insert(i as int, (key, value));
                assert(entries@ == n);
                assert forall|a: int, b: int| 0 <= a < b < n.len() implies lex_lt(
                    #[trigger] n[a].0@,
                    #[trigger] n[b].0@,
                ) by {
                    let bm = b - 1;
                    let am = a - 1;
                    if bm >= i && bm < e0.len() {
                        assert(n[bm + 1] == e0[bm]);
                    }
                    if am >= i && am < e0.len() {
                        assert(n[am + 1] == e0[am]);
                    }
                    if b < i {
                        assert(n[a] == e0[a]);
                        assert(n[b] == e0[b]);
                        assert(lex_lt(e0[a].0@, e0[b].0@));
                    } else if b == i {
                        assert(n[a] == e0[a]);
                    } else if a < i {
                        assert(n[a] == e0[a]);
                        assert(n[b] == e0[b - 1]);
                        assert(lex_lt(e0[a].0@, e0[b - 1].0@));
                    } else if a == i {
                        assert(n[b] == e0[b - 1]);
                        if b - 1 > i {
                            assert(lex_lt(e0[i as int].0@, e0[b - 1].0@));
                            lemma_lex_transitive(key@, e0[i as int].0@, e0[b - 1].0@);
                        }
                    } else {
                        assert(n[a] == e0[a - 1]);
                        assert(n[b] == e0[b - 1]);
                        assert(lex_lt(e0[a - 1].0@, e0[b - 1].0@));
                    }
                }
                lemma_insert_map(e0, i as int, key, value);
            }
            self.entries = entries;
        }
    }
}

proof fn lemma_update_map(e: Seq<(String, String)>, i: int, key: String, value: String)
    requires
        keys_sorted(e),
        0 <= i < e.len(),
        e[i].0@ == key@,
    ensures
        entries_map(e.update(i, (key, value))) == entries_map(e).insert(key@, value@),
    decreases e.len(),
{
    let u = e.update(i, (key, value));
    if i == e.len() - 1 {
        assert(u.drop_last() =~= e.drop_last());
        assert(entries_map(e).insert(key@, value@) =~= entries_map(e.drop_last()).insert(
            key@,
            value@,
        ));
    } else {
        assert(u.drop_last() =~= e.drop_last().update(i, (key, value)));
        lemma_update_map(e.drop_last(), i, key, value);
        lemma_lex_trichotomy(e[i].0@, e.last().0@);
        assert(lex_lt(e[i].0@, e[e.len() - 1].0@));
        assert(entries_map(u) =~= entries_map(e).insert(key@, value@));
    }
}

proof fn lemma_insert_map(e: Seq<(String, String)>, i: int, key: String, value: String)
    requires
        0 <= i <= e.len(),
        forall|j: int| 0 <= j < e.len() ==> e[j].0@ != key@,
    ensures
        entries_map(e.insert(i, (key, value))) == entries_map(e).insert(key@, value@),
    decreases e.len(),
{
    let u = e.insert(i, (key, value));
    if i == e.len() {
        assert(u.drop_last() =~= e);
    } else {
        assert(u.drop_last() =~= e.drop_last().insert(i, (key, value)));
        lemma_insert_map(e.drop_last(), i, key, value);
        assert(u.last() == e.last());
        assert(entries_map(u) =~= entries_map(e).insert(key@, value@));
    }
}

// ───────────────────────── requirement ─────────────────────────

/// The core requirement structure: a format-agnostic record that is
/// converted to and from Markdown, ReqIF and JSON.
#[derive(Clone, Debug)]
pub struct Requirement {
    /// Unique requirement ID (e.g., "HLR-0001", "LLR-0123")
    pub id: String,
    /// Type of requirement
    pub req_type: RequirementType,
    /// Short title/summary
    pub title: String,
    /// Full requirement text
    pub text: String,
    /// Current status
    pub status: RequirementStatus,
    /// Parent requirement ID (for LLR referencing HLR)
    pub parent: Option<String>,
    /// External UUIDs (for ReqIF round-trip)
    pub aliases: Vec<String>,
    /// Additional metadata/attributes
    pub attributes: Attributes,
    /// Source file where this requirement is stored
    pub source_file: Option<String>,
    /// Creation time, microseconds since the Unix epoch
    pub created: i64,
    /// Last modification time, microseconds since the Unix epoch
    pub modified: i64,
}

/// Split of a sequence at every `-` (`str::split('-')`).
pub open spec fn split_dash(s: Seq<char>) -> Seq<Seq<char>>
    decreases s.len(),
{
    let k = first_index(s, '-');
    if k < 0 {
        seq![s]
    } else {
        proof {
            lemma_first_index_bounds(s, '-');
        }
        seq![s.take(k)] + split_dash(s.skip(k + 1))
    }
}

/// `Requirement::parse_id`: exactly two `-`-separated parts, a known type
/// name and a `u32` number.
pub open spec fn parse_id_spec(id: Seq<char>) -> Option<(RequirementType, u32)> {
    let parts = split_dash(id);
    if parts.len() != 2 {
        None
    } else {
        match parse_type(parts[0]) {
            None => None,
            Some(t) => match parse_u32(parts[1]) {
                None => None,
                Some(n) => Some((t, n)),
            },
        }
    }
}

/// The number an existing ID contributes to ID generation for `prefix`:
/// the second `-`-separated part parsed as `u32`, for IDs starting with `prefix`.
pub open spec fn id_number(id: Seq<char>, prefix: Seq<char>) -> Option<u32> {
    if has_prefix(id, prefix) && split_dash(id).len() >= 2 {
        parse_u32(split_dash(id)[1])
    } else {
        None
    }
}

/// Largest number among the first `n` IDs (0 if none).
pub open spec fn max_id_number_in(ids: Seq<Seq<char>>, prefix: Seq<char>, n: int) -> nat
    decreases n,
{
    if n <= 0 {
        0
    } else {
        let rest = max_id_number_in(ids, prefix, n - 1);
        match id_number(ids[n - 1], prefix) {
            Some(v) => if v as nat > rest {
                v as nat
            } else {
                rest
            },
            None => rest,
        }
    }
}

/// Largest number among the first `n` existing IDs (0 if none).
pub open spec fn max_id_number(ids: Seq<String>, prefix: Seq<char>, n: int) -> nat {
    max_id_number_in(views(ids), prefix, n)
}

/// The next ID of type `t` after the IDs `ids`: prefix, `-`, and the next
/// number padded to four digits.
pub open spec fn next_id_in(t: RequirementType, ids: Seq<Seq<char>>) -> Seq<char> {
    type_prefix(t) + seq!['-'] + zero_padded(max_id_number_in(ids, type_prefix(t), ids.len() as int)
        + 1, 4)
}

/// The ID `generate_id` produces.
pub open spec fn next_id(t: RequirementType, ids: Seq<String>) -> Seq<char> {
    next_id_in(t, views(ids))
}

/// Whether the next ID of type `t` after `ids` stays within `u32`.
pub open spec fn next_id_fits_in(t: RequirementType, ids: Seq<Seq<char>>) -> bool {
    max_id_number_in(ids, type_prefix(t), ids.len() as int) < u32::MAX
}

/// Whether generating the next ID of type `t` stays within `u32`.
pub open spec fn next_id_fits(t: RequirementType, ids: Seq<String>) -> bool {
    next_id_fits_in(t, views(ids))
}

proof fn lemma_split_dash_first(s: Seq<char>, k: int)
    requires
        0 <= k <= s.len(),
        forall|j: int| 0 <= j < k ==> s[j] != '-',
        k == s.len() || s[k] == '-',
    ensures
        k == s.len() ==> split_dash(s) == seq![s],
        k < s.len() ==> split_dash(s) == seq![s.take(k)] + split_dash(s.skip(k + 1)),
{
    lemma_first_index(s, '-', k);
}

/// Split at `-` on characters.
pub fn split_dash_chars(s: &[char]) -> (r: Vec<Vec<char>>)
    ensures
        r.deep_view() == split_dash(s@),
{
    let mut r: Vec<Vec<char>> = Vec::new();
    let mut start: usize = 0;
    let mut i: usize = 0;
    assert(s@.skip(0) =~= s@);
    assert(r.deep_view() + split_dash(s@) =~= split_dash(s@));
    while i < s.len()
        invariant
            start <= i <= s@.len(),
            forall|j: int| start <= j < i ==> s@[j] != '-',
            r.deep_view() + split_dash(s@.skip(start as int)) == split_dash(s@),
        decreases s.len() - i,
    {
        if s[i] == '-' {
            let ghost t = s@.skip(start as int);
            proof {
                lemma_split_dash_first(t, (i - start) as int);
                assert(t.take((i - start) as int) =~= s@.subrange(start as int, i as int));
                assert(t.skip((i - start) + 1) =~= s@.skip(i + 1));
            }
            let part = slice_chars(s, start, i);
            let ghost old_r = r.deep_view();
            assert(part.deep_view() =~= part@);
            r.push(part);
            proof {
                assert(r.deep_view() =~~= old_r.push(s@.subrange(start as int, i as int)));
                assert(r.deep_view() + split_dash(s@.skip(i + 1)) =~= old_r + split_dash(t));
            }
            start = i + 1;
        }
        i = i + 1;
    }
    let ghost t = s@.skip(start as int);
    proof {
        lemma_split_dash_first(t, t.len() as int);
    }
    let part = slice_chars(s, start, s.len());
    let ghost old_r = r.deep_view();
    assert(part.deep_view() =~= part@);
    assert(part@ =~= t);
    r.push(part);
    proof {
        assert(r.deep_view() =~~= old_r.push(t));
        assert(r.deep_view() =~= old_r + split_dash(t));
    }
    r
}

impl Requirement {
    /// Create a new draft requirement with the given ID, type and title,
    /// empty text and no parent, aliases, attributes or source file.
    pub fn new(id: String, req_type: RequirementType, title: String) -> (r: Self)
        ensures
            r.id@ == id@,
            r.req_type == req_type,
            r.title@ == title@,
            r.text@ == Seq::<char>::empty(),
            r.status == RequirementStatus::Draft,
            r.parent.is_none(),
            r.aliases@.len() == 0,
            r.attributes.map() == Map::<Seq<char>, Seq<char>>::empty(),
            r.attributes.entries().len() == 0,
            r.source_file.is_none(),
            r.created >= 0,
            r.modified >= 0,
    {
        let created = current_time_micros();
        let modified = current_time_micros();
        Requirement {
            id,
            req_type,
            title,
            text: String::new(),
            status: RequirementStatus::Draft,
            parent: None,
            aliases: Vec::new(),
            attributes: Attributes::new(),
            source_file: None,
            created,
            modified,
        }
    }

    /// Parse requirement ID and extract type and number.
    pub fn parse_id(id: &str) -> (r: Option<(RequirementType, u32)>)
        ensures
            r == parse_id_spec(id@),
    {
        let c = chars_of(id);
        let parts = split_dash_chars(c.as_slice());
        if parts.len() != 2 {
            return None;
        }
        assert(parts@[0]@ == split_dash(id@)[0]);
        assert(parts@[1]@ == split_dash(id@)[1]);
        let t = match RequirementType::from_chars(parts[0].as_slice()) {
            Some(t) => t,
            None => return None,
        };
        let n = match parse_u32_chars(parts[1].as_slice()) {
            Some(n) => n,
            None => return None,
        };
        Some((t, n))
    }

    /// Generate a new requirement ID with the next available number: one more
    /// than the largest number among existing IDs of the same prefix, padded
    /// to four digits.
    pub fn generate_id(req_type: RequirementType, existing_ids: &[String]) -> (r: String)
        requires
            next_id_fits(req_type, existing_ids@),
        ensures
            r@ == next_id(req_type, existing_ids@),
    {
        let prefix = chars_of(req_type.id_prefix());
        let mut max: u32 = 0;
        let mut i: usize = 0;
        while i < existing_ids.len()
            invariant
                i <= existing_ids@.len(),
                prefix@ == type_prefix(req_type),
                max as nat == max_id_number(existing_ids@, prefix@, i as int),
            decreases existing_ids.len() - i,
        {
            let c = chars_of_string(&existing_ids[i]);
            if starts_with(c.as_slice(), prefix.as_slice()) {
                let parts = split_dash_chars(c.as_slice());
                if parts.len() >= 2 {
                    assert(parts@[1]@ == split_dash(c@)[1]);
                    match parse_u32_chars(parts[1].as_slice()) {
                        Some(v) => {
                            if v > max {
                                max = v;
                            }
                        },
                        None => {},
                    }
                }
            }
            i = i + 1;
        }
        let mut out = prefix;
        out.push('-');
        let digits = zero_pad((max as u64) + 1, 4);
        push_chars(&mut out, digits.as_slice());
        string_of(out.as_slice())
    }

    /// Whether the next ID of type `req_type` can be generated.
    pub fn can_generate_id(req_type: RequirementType, existing_ids: &[String]) -> (b: bool)
        ensures
            b == next_id_fits(req_type, existing_ids@),
    {
        let prefix = chars_of(req_type.id_prefix());
        let mut max: u32 = 0;
        let mut i: usize = 0;
        while i < existing_ids.len()
            invariant
                i <= existing_ids@.len(),
                prefix@ == type_prefix(req_type),
                max as nat == max_id_number(existing_ids@, prefix@, i as int),
            decreases existing_ids.len() - i,
        {
            let c = chars_of_string(&existing_ids[i]);
            if starts_with(c.as_slice(), prefix.as_slice()) {
                let parts = split_dash_chars(c.as_slice());
                if parts.len() >= 2 {
                    assert(parts@[1]@ == split_dash(c@)[1]);
                    match parse_u32_chars(parts[1].as_slice()) {
                        Some(v) => {
                            if v > max {
                                max = v;
                            }
                        },
                        None => {},
                    }
                }
            }
            i = i + 1;
        }
        max < u32::MAX
    }
}

// ───────────────────────── coverage ─────────────────────────

/// Coverage statistics for a set of requirements.
#[derive(Clone, Copy, Debug, PartialEq, Eq, Structural)]
pub struct Coverage {
    /// Total HLR count
    pub hlr_total: usize,
    /// HLR with at least one LLR child
    pub hlr_with_llr: usize,
    /// Total LLR count
    pub llr_total: usize,
    /// LLR with code implementation
    pub llr_implemented: usize,
    /// LLR with tests
    pub llr_tested: usize,
    /// Code files without any requirement tag
    pub orphan_code: usize,
}

impl Coverage {
    /// All counters zero.
    pub fn zero() -> (c: Self)
        ensures
            c.hlr_total == 0 && c.hlr_with_llr == 0 && c.llr_total == 0 && c.llr_implemented == 0
                && c.llr_tested == 0 && c.orphan_code == 0,
    {
        Coverage {
            hlr_total: 0,
            hlr_with_llr: 0,
            llr_total: 0,
            llr_implemented: 0,
            llr_tested: 0,
            orphan_code: 0,
        }
    }
}

impl Default for Coverage {
    fn default() -> (c: Self)
        ensures
            c.hlr_total == 0 && c.hlr_with_llr == 0 && c.llr_total == 0 && c.llr_implemented == 0
                && c.llr_tested == 0 && c.orphan_code == 0,
    {
        Coverage::zero()
    }
}

// ───────────────────────── AI export ─────────────────────────

/// AI export snapshot for LLM consumption.
#[derive(Clone, Debug)]
pub struct AiExport {
    /// Schema version for migration support
    pub schema_version: String,
    /// Tool version that created this export
    pub tool_version: String,
    /// All requirements
    pub requirements: Vec<Requirement>,
    /// All trace links
    pub links: Vec<Link>,
    /// All code references
    pub code_refs: Vec<CodeRef>,
    /// Coverage summary
    pub coverage: Coverage,
    /// Export time, microseconds since the Unix epoch (not part of the
    /// serialised form)
    pub exported_at: i64,
}

impl AiExport {
    /// Constructs a new `AiExport` snapshot with the current time.
    pub fn new(
        requirements: Vec<Requirement>,
        links: Vec<Link>,
        code_refs: Vec<CodeRef>,
        coverage: Coverage,
    ) -> (e: Self)
        ensures
            e.schema_version@ == SCHEMA_VERSION@,
            e.tool_version@ == TOOL_VERSION@,
            e.requirements@ == requirements@,
            e.links@ == links@,
            e.code_refs@ == code_refs@,
            e.coverage == coverage,
            e.exported_at >= 0,
    {
        AiExport {
            schema_version: String::from_str(SCHEMA_VERSION),
            tool_version: String::from_str(TOOL_VERSION),
            requirements,
            links,
            code_refs,
            coverage,
            exported_at: current_time_micros(),
        }
    }
}

impl Clone for Attributes {
    fn clone(&self) -> (r: Self)
        ensures
            r.entries() == self.entries(),
    {
        self.duplicate()
    }
}

} // verus!
