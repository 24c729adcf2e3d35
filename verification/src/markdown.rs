//! Markdown requirement files: YAML frontmatter followed by a Markdown body.
//!
//! ```markdown
//! ---
//! id: LLR-0001
//! type: llr
//! parent: HLR-0001
//! status: approved
//! ---
//!
//! # ADC Sampling Rate
//!
//! The ADC shall sample the motor current at 10 kHz...
//! ```
//!
//! This module splits a file into frontmatter and body, builds a
//! [`Requirement`] from the parsed frontmatter fields and the body, and
//! renders a requirement back to file text.

use vstd::prelude::*;

use crate::error::Error;
use crate::models::{
    req_type_name, parse_status, parse_type, status_name, Attributes, Requirement,
    RequirementStatus, RequirementType,
};
use crate::outside::{
    current_time_micros, hex_digit, json_escape_char, json_escaped, json_quoted, json_string, joined,
    path_join,
};
use crate::text::{
    blank, chars_of, join_lines, chars_of_string, find, has_prefix, is_blank, lines, occurs_at, push_chars,
    push_str, slice_chars, split_lines, starts_with_str, string_of, trim, trim_chars,
};

verus! {

// ───────────────────────── frontmatter split ─────────────────────────

/// Position of the first occurrence of `p` in `s` at or after `i`, or `-1`.
pub open spec fn first_occ_from(s: Seq<char>, p: Seq<char>, i: int) -> int
    decreases s.len() + 1 - i,
{
    if i < 0 || i > s.len() {
        -1
    } else if occurs_at(s, p, i) {
        i
    } else {
        first_occ_from(s, p, i + 1)
    }
}

pub proof fn lemma_first_occ(s: Seq<char>, p: Seq<char>, i: int, k: int)
    requires
        0 <= i <= k,
        forall|j: int| i <= j < k ==> !occurs_at(s, p, j),
        (k <= s.len() && occurs_at(s, p, k)) || k == s.len() + 1,
    ensures
        first_occ_from(s, p, i) == if k == s.len() + 1 {
            -1
        } else {
            k
        },
    decreases k - i,
{
    if i < k {
        lemma_first_occ(s, p, i + 1, k);
    }
}

proof fn lemma_first_occ_found(s: Seq<char>, p: Seq<char>, i: int, k: int)
    requires
        0 <= i <= k,
        occurs_at(s, p, k),
    ensures
        0 <= first_occ_from(s, p, i) <= k,
    decreases k - i,
{
    if i < k && !occurs_at(s, p, i) {
        lemma_first_occ_found(s, p, i + 1, k);
    }
}

fn find_first(s: &[char], p: &str) -> (r: Option<usize>)
    ensures
        match r {
            Some(i) => first_occ_from(s@, p@, 0) == i as int && i <= s@.len() && occurs_at(
                s@,
                p@,
                i as int,
            ),
            None => first_occ_from(s@, p@, 0) == -1,
        },
{
    let pc = chars_of(p);
    let r = find(s, pc.as_slice());
    proof {
        match r {
            Some(i) => {
                lemma_first_occ(s@, p@, 0, i as int);
            },
            None => {
                assert forall|j: int| 0 <= j < s@.len() + 1 implies !occurs_at(s@, p@, j) by {
                    if occurs_at(s@, p@, j) {
                        assert(crate::text::contains(s@, p@));
                    }
                }
                lemma_first_occ(s@, p@, 0, s@.len() as int + 1);
            },
        }
    }
    r
}

/// Text after the opening `---` line.
pub open spec fn after_open(c: Seq<char>) -> Seq<char> {
    if has_prefix(c, "---\r\n"@) {
        c.skip(5)
    } else {
        c.skip(4)
    }
}

/// Position of the closing `---` line within the text after the opening one
/// (the first `\n---\n`, else the first `\n---\r\n`, else the first
/// `\r\n---\r\n`), or `-1`.
pub open spec fn close_pos(rest: Seq<char>) -> int {
    let a = first_occ_from(rest, "\n---\n"@, 0);
    let b = first_occ_from(rest, "\n---\r\n"@, 0);
    let c = first_occ_from(rest, "\r\n---\r\n"@, 0);
    if a >= 0 {
        a
    } else if b >= 0 {
        b
    } else {
        c
    }
}

/// Start of the body after the closing line at `e`.
pub open spec fn body_start(rest: Seq<char>, e: int) -> int {
    if has_prefix(rest.skip(e), "\n---\r\n"@) {
        e + 6
    } else if has_prefix(rest.skip(e), "\r\n---\r\n"@) {
        e + 8
    } else {
        e + 5
    }
}

/// The file starts with an opening `---` line.
pub open spec fn has_open(c: Seq<char>) -> bool {
    has_prefix(c, "---\n"@) || has_prefix(c, "---\r\n"@)
}

/// Frontmatter text and body of a requirement file, when it has both an
/// opening and a closing `---` line.
pub open spec fn split_frontmatter_spec(c: Seq<char>) -> Option<(Seq<char>, Seq<char>)> {
    let rest = after_open(c);
    let e = close_pos(rest);
    if has_open(c) && e >= 0 {
        Some((rest.take(e), rest.skip(body_start(rest, e))))
    } else {
        None
    }
}

/// Split a requirement file into frontmatter text and body.  Fails with
/// `Parse("No YAML frontmatter found")` when the file does not start with a
/// `---` line and with `Parse("Unclosed YAML frontmatter")` when no closing
/// `---` line follows.
pub fn split_frontmatter(content: &str) -> (r: Result<(String, String), Error>)
    ensures
        match r {
            Ok((y, b)) => split_frontmatter_spec(content@) == Some((y@, b@)),
            Err(Error::Parse(m)) => split_frontmatter_spec(content@).is_none() && (if has_open(
                content@,
            ) {
                m@ == "Unclosed YAML frontmatter"@
            } else {
                m@ == "No YAML frontmatter found"@
            }),
            Err(_) => false,
        },
{
    let c = chars_of(content);
    let crlf = starts_with_str(c.as_slice(), "---\r\n");
    if !starts_with_str(c.as_slice(), "---\n") && !crlf {
        return Err(Error::Parse(String::from_str("No YAML frontmatter found")));
    }
    proof {
        reveal_strlit("---\r\n");
        reveal_strlit("---\n");
    }
    let start: usize = if crlf {
        5
    } else {
        4
    };
    let rest = slice_chars(c.as_slice(), start, c.len());
    assert(rest@ =~= after_open(content@));
    let a = find_first(rest.as_slice(), "\n---\n");
    let b = find_first(rest.as_slice(), "\n---\r\n");
    let cc = find_first(rest.as_slice(), "\r\n---\r\n");
    let e: usize = match a {
        Some(i) => i,
        None => match b {
            Some(i) => i,
            None => match cc {
                Some(i) => i,
                None => {
                    return Err(Error::Parse(String::from_str("Unclosed YAML frontmatter")));
                },
            },
        },
    };
    proof {
        reveal_strlit("\n---\n");
        reveal_strlit("\n---\r\n");
        reveal_strlit("\r\n---\r\n");
        let l3 = "\r\n---\r\n"@;
        let l2 = "\n---\r\n"@;
        let l1 = "\n---\n"@;
        assert(l1.len() == 5 && l1[0] == '\n');
        assert(l2.len() == 6 && l2[0] == '\n');
        assert(l3.len() == 7 && l3[0] == '\r');
        assert(l3.subrange(1, 7) =~= l2);
        if a.is_none() && b.is_none() {
            let i = cc.unwrap() as int;
            assert(occurs_at(rest@, l3, i));
            assert(rest@.subrange(i, i + 7) == l3);
            assert(rest@.subrange(i + 1, i + 7) =~= rest@.subrange(i, i + 7).subrange(1, 7));
            assert(rest@.subrange(i + 1, i + 7) =~= l2);
            assert(occurs_at(rest@, "\n---\r\n"@, i + 1));
            lemma_first_occ_found(rest@, l2, 0, i + 1);
            assert(false);
        }
        if a.is_some() {
            assert(rest@.subrange(e as int, e + 5)[0] == rest@[e as int]);
        } else {
            assert(rest@.subrange(e as int, e + 6)[0] == rest@[e as int]);
        }
        assert(rest@[e as int] == '\n');
    }
    let tail = slice_chars(rest.as_slice(), e, rest.len());
    let bs: usize = if starts_with_str(tail.as_slice(), "\n---\r\n") {
        e + 6
    } else {
        proof {
            reveal_strlit("\r\n---\r\n");
            if has_prefix(tail@, "\r\n---\r\n"@) {
                assert("\r\n---\r\n"@[0] == '\r');
                assert(tail@.take(7)[0] == tail@[0]);
                assert(tail@[0] == rest@[e as int]);
                assert(tail@[0] == '\r');
            }
        }
        e + 5
    };
    proof {
        assert(tail@ =~= rest@.skip(e as int));
        assert(bs as int == body_start(rest@, e as int));
    }
    let yaml = slice_chars(rest.as_slice(), 0, e);
    let body = slice_chars(rest.as_slice(), bs, rest.len());
    assert(yaml@ =~= rest@.take(e as int));
    assert(body@ =~= rest@.skip(bs as int));
    Ok((string_of(yaml.as_slice()), string_of(body.as_slice())))
}

// ───────────────────────── title and body ─────────────────────────

/// The text of the first `# ` heading line among `ls`, trimmed.
pub open spec fn title_in(ls: Seq<Seq<char>>) -> Option<Seq<char>>
    decreases ls.len(),
{
    if ls.len() == 0 {
        None
    } else if has_prefix(trim(ls[0]), "# "@) {
        Some(trim(trim(ls[0]).skip(2)))
    } else {
        title_in(ls.drop_first())
    }
}

/// `extract_title`: the first level-one heading of the body.
pub open spec fn title_of(body: Seq<char>) -> Option<Seq<char>> {
    title_in(lines(body))
}

/// Lines with leading blank lines removed.
pub open spec fn drop_leading_blank(ls: Seq<Seq<char>>) -> Seq<Seq<char>>
    decreases ls.len(),
{
    if ls.len() > 0 && is_blank(ls[0]) {
        drop_leading_blank(ls.drop_first())
    } else {
        ls
    }
}

/// Lines with trailing blank lines removed.
pub open spec fn drop_trailing_blank(ls: Seq<Seq<char>>) -> Seq<Seq<char>>
    decreases ls.len(),
{
    if ls.len() > 0 && is_blank(ls.last()) {
        drop_trailing_blank(ls.drop_last())
    } else {
        ls
    }
}

/// `clean_body`: the body without a leading `# ` heading line and without
/// leading and trailing blank lines, lines joined with `\n`.
pub open spec fn clean_body_spec(body: Seq<char>) -> Seq<char> {
    let ls = lines(body);
    let ls1 = if ls.len() > 0 && has_prefix(trim(ls[0]), "# "@) {
        ls.drop_first()
    } else {
        ls
    };
    join_lines(drop_trailing_blank(drop_leading_blank(ls1)))
}

/// Character sequences of a sequence of lines.
pub open spec fn views_of(v: Seq<Vec<char>>) -> Seq<Seq<char>> {
    Seq::new(v.len(), |i: int| v[i]@)
}

proof fn lemma_views_of_deep(v: Vec<Vec<char>>)
    ensures
        views_of(v@) == v.deep_view(),
{
    assert forall|i: int| 0 <= i < v@.len() implies #[trigger] views_of(v@)[i] == v.deep_view()[i] by {
        assert(v@[i].deep_view() =~= v@[i]@);
    }
    assert(views_of(v@) =~= v.deep_view());
}

/// The first level-one heading (`# Title`) of the body, trimmed.
pub fn extract_title(body: &str) -> (r: Option<String>)
    ensures
        match r {
            Some(t) => title_of(body@) == Some(t@),
            None => title_of(body@).is_none(),
        },
{
    let c = chars_of(body);
    let ls = split_lines(c.as_slice());
    proof {
        lemma_views_of_deep(ls);
    }
    let ghost lv = views_of(ls@);
    let mut i: usize = 0;
    assert(lv.skip(0) =~= lv);
    while i < ls.len()
        invariant
            i <= ls@.len(),
            lv == views_of(ls@),
            lv == lines(body@),
            title_in(lv.skip(i as int)) == title_in(lv),
        decreases ls.len() - i,
    {
        let t = trim_chars(ls[i].as_slice());
        proof {
            assert(lv.skip(i as int)[0] == ls@[i as int]@);
            assert(lv.skip(i as int).drop_first() =~= lv.skip(i + 1));
        }
        if starts_with_str(t.as_slice(), "# ") {
            proof {
                reveal_strlit("# ");
            }
            let rest = slice_chars(t.as_slice(), 2, t.len());
            assert(rest@ =~= t@.skip(2));
            let tt = trim_chars(rest.as_slice());
            return Some(string_of(tt.as_slice()));
        }
        i = i + 1;
    }
    None
}

/// The requirement text held by a body (see [`clean_body_spec`]).
pub fn clean_body(body: &str) -> (r: String)
    ensures
        r@ == clean_body_spec(body@),
{
    let c = chars_of(body);
    let ls = split_lines(c.as_slice());
    proof {
        lemma_views_of_deep(ls);
    }
    let ghost lv = views_of(ls@);
    let mut a: usize = 0;
    if ls.len() > 0 {
        let t = trim_chars(ls[0].as_slice());
        assert(lv[0] == ls@[0]@);
        if starts_with_str(t.as_slice(), "# ") {
            a = 1;
        }
    }
    let ghost ls1 = if lv.len() > 0 && has_prefix(trim(lv[0]), "# "@) {
        lv.drop_first()
    } else {
        lv
    };
    assert(ls1 =~= lv.skip(a as int));
    let mut b: usize = a;
    while b < ls.len() && blank(ls[b].as_slice())
        invariant
            a <= b <= ls@.len(),
            lv == views_of(ls@),
            drop_leading_blank(ls1) == drop_leading_blank(lv.skip(b as int)),
        decreases ls.len() - b,
    {
        proof {
            assert(lv.skip(b as int)[0] == ls@[b as int]@);
            assert(lv.skip(b as int).drop_first() =~= lv.skip(b + 1));
        }
        b = b + 1;
    }
    proof {
        if b < ls@.len() {
            assert(lv.skip(b as int)[0] == ls@[b as int]@);
        }
    }
    let ghost ls2 = lv.skip(b as int);
    assert(drop_leading_blank(ls1) == ls2);
    let mut e: usize = ls.len();
    assert(ls2.take((e - b) as int) =~= ls2);
    while e > b && blank(ls[e - 1].as_slice())
        invariant
            b <= e <= ls@.len(),
            lv == views_of(ls@),
            ls2 == lv.skip(b as int),
            drop_trailing_blank(ls2) == drop_trailing_blank(ls2.take((e - b) as int)),
        decreases e,
    {
        proof {
            let t = ls2.take((e - b) as int);
            assert(t.last() == ls@[e - 1]@);
            assert(t.drop_last() =~= ls2.take((e - 1 - b) as int));
        }
        e = e - 1;
    }
    let ghost ls3 = ls2.take((e - b) as int);
    proof {
        if e > b {
            assert(ls3.last() == ls@[e - 1]@);
        }
    }
    assert(drop_trailing_blank(ls2) == ls3);
    let mut out: Vec<char> = Vec::new();
    let mut k: usize = b;
    assert(ls3.take(0) =~= Seq::<Seq<char>>::empty());
    while k < e
        invariant
            b <= k <= e <= ls@.len(),
            lv == views_of(ls@),
            ls3 == lv.subrange(b as int, e as int),
            out@ == join_lines(ls3.take((k - b) as int)),
        decreases e - k,
    {
        if k > b {
            out.push('\n');
        }
        push_chars(&mut out, ls[k].as_slice());
        proof {
            let t = ls3.take((k + 1 - b) as int);
            assert(t.drop_last() =~= ls3.take((k - b) as int));
            assert(t.last() == ls@[k as int]@);
        }
        k = k + 1;
    }
    assert(ls3.take((e - b) as int) =~= ls3);
    assert(ls3 =~= lv.subrange(b as int, e as int));
    string_of(out.as_slice())
}

// ───────────────────────── building a requirement ─────────────────────────

/// The fields of a requirement file's YAML frontmatter.
#[derive(Debug)]
pub struct Frontmatter {
    /// `id`
    pub id: String,
    /// `type`
    pub req_type: String,
    /// `title`, if given
    pub title: Option<String>,
    /// `status` (empty when absent)
    pub status: String,
    /// `parent`, if given
    pub parent: Option<String>,
    /// `aliases`
    pub aliases: Vec<String>,
    /// `attributes`, as key/value pairs
    pub attributes: Vec<(String, String)>,
}

/// Map of key/value pairs, later pairs replacing earlier ones.
pub open spec fn pairs_map(v: Seq<(String, String)>) -> Map<Seq<char>, Seq<char>>
    decreases v.len(),
{
    if v.len() == 0 {
        Map::empty()
    } else {
        pairs_map(v.drop_last()).insert(v.last().0@, v.last().1@)
    }
}

/// Attributes holding the given pairs.
pub fn attributes_from_pairs(pairs: &Vec<(String, String)>) -> (a: Attributes)
    ensures
        a.map() == pairs_map(pairs@),
{
    let mut a = Attributes::new();
    let mut i: usize = 0;
    while i < pairs.len()
        invariant
            i <= pairs@.len(),
            a.map() == pairs_map(pairs@.take(i as int)),
        decreases pairs.len() - i,
    {
        a.insert(pairs[i].0.clone(), pairs[i].1.clone());
        proof {
            assert(pairs@.take(i + 1).drop_last() =~= pairs@.take(i as int));
        }
        i = i + 1;
    }
    assert(pairs@.take(i as int) =~= pairs@);
    a
}

/// The title a requirement file gets: the frontmatter title, else the first
/// heading of the body, else `Untitled`.
pub open spec fn title_for(fm_title: Option<Seq<char>>, body: Seq<char>) -> Seq<char> {
    match fm_title {
        Some(t) => t,
        None => match title_of(body) {
            Some(t) => t,
            None => "Untitled"@,
        },
    }
}

impl Frontmatter {
    /// Build the requirement described by this frontmatter and the body that
    /// follows it.  Fails with `InvalidRequirementType` when `type` is not a
    /// known type name; an unknown `status` becomes `draft`.
    pub fn into_requirement(self, body: &str, source_file: Option<String>) -> (r: Result<
        Requirement,
        Error,
    >)
        ensures
            match r {
                Ok(req) => {
                    &&& parse_type(self.req_type@) == Some(req.req_type)
                    &&& req.id@ == self.id@
                    &&& req.title@ == title_for(
                        match self.title {
                            Some(t) => Some(t@),
                            None => None,
                        },
                        body@,
                    )
                    &&& req.text@ == clean_body_spec(body@)
                    &&& req.status == match parse_status(self.status@) {
                        Some(s) => s,
                        None => RequirementStatus::Draft,
                    }
                    &&& req.parent == self.parent
                    &&& req.aliases@ == self.aliases@
                    &&& req.attributes.map() == pairs_map(self.attributes@)
                    &&& req.source_file == source_file
                },
                Err(e) => parse_type(self.req_type@).is_none() && (e matches Error::InvalidRequirementType(
                    m,
                ) && m@ == self.req_type@),
            },
    {
        let req_type = match RequirementType::from_str(self.req_type.as_str()) {
            Some(t) => t,
            None => {
                return Err(Error::InvalidRequirementType(self.req_type));
            },
        };
        let status = match RequirementStatus::from_str(self.status.as_str()) {
            Some(s) => s,
            None => RequirementStatus::Draft,
        };
        let title = match self.title {
            Some(t) => t,
            None => match extract_title(body) {
                Some(t) => t,
                None => String::from_str("Untitled"),
            },
        };
        let text = clean_body(body);
        let attributes = attributes_from_pairs(&self.attributes);
        Ok(
            Requirement {
                id: self.id,
                req_type,
                title,
                text,
                status,
                parent: self.parent,
                aliases: self.aliases,
                attributes,
                source_file,
                created: current_time_micros(),
                modified: current_time_micros(),
            },
        )
    }
}

// ───────────────────────── rendering ─────────────────────────

/// `  - alias` lines.
pub open spec fn alias_lines(a: Seq<String>) -> Seq<char>
    decreases a.len(),
{
    if a.len() == 0 {
        seq![]
    } else {
        alias_lines(a.drop_last()) + "  - "@ + a.last()@ + seq!['\n']
    }
}

/// `  key: "value"` lines, values as JSON strings.
pub open spec fn attribute_lines(e: Seq<(String, String)>) -> Seq<char>
    decreases e.len(),
{
    if e.len() == 0 {
        seq![]
    } else {
        attribute_lines(e.drop_last()) + "  "@ + e.last().0@ + ": "@ + json_quoted(e.last().1@)
            + seq!['\n']
    }
}

/// Frontmatter lines for id, type, title (as a JSON string) and status.
pub open spec fn head_part(r: Requirement) -> Seq<char> {
    "---\n"@ + "id: "@ + r.id@ + seq!['\n'] + "type: "@ + req_type_name(r.req_type) + seq!['\n']
        + "title: "@ + json_quoted(r.title@) + seq!['\n'] + "status: "@ + status_name(r.status)
        + seq!['\n']
}

/// The `parent:` line, if there is a parent.
pub open spec fn parent_part(r: Requirement) -> Seq<char> {
    match r.parent {
        Some(p) => "parent: "@ + p@ + seq!['\n'],
        None => seq![],
    }
}

/// The `aliases:` block, if there are aliases.
pub open spec fn aliases_part(r: Requirement) -> Seq<char> {
    if r.aliases@.len() > 0 {
        "aliases:\n"@ + alias_lines(r.aliases@)
    } else {
        seq![]
    }
}

/// The `attributes:` block, if there are attributes.
pub open spec fn attributes_part(r: Requirement) -> Seq<char> {
    if r.attributes.entries().len() > 0 {
        "attributes:\n"@ + attribute_lines(r.attributes.entries())
    } else {
        seq![]
    }
}

/// The closing delimiter, a blank line and the trimmed text.
pub open spec fn tail_part(r: Requirement) -> Seq<char> {
    let t = trim(r.text@);
    "---\n"@ + seq!['\n'] + if t.len() > 0 {
        t + seq!['\n']
    } else {
        seq![]
    }
}

/// The Markdown file text of a requirement: frontmatter with id, type,
/// title (as a JSON string), status, optional parent, aliases and
/// attributes (in key order), then a blank line and the trimmed text.
pub open spec fn markdown_text(r: Requirement) -> Seq<char> {
    head_part(r) + parent_part(r) + aliases_part(r) + attributes_part(r) + tail_part(r)
}

// ───────────────────────── shape of the rendered text ─────────────────────────

/// The text holds no line ending.
pub open spec fn single_line(s: Seq<char>) -> bool {
    forall|j: int| 0 <= j < s.len() ==> #[trigger] s[j] != '\n'
}

/// Whole lines, none of which starts with `-`: empty, or ending with a
/// line ending, not starting with `-` and with no `-` right after a line
/// ending.
pub open spec fn dash_free_lines(s: Seq<char>) -> bool {
    s.len() == 0 || (s.last() == '\n' && s[0] != '-' && forall|j: int|
        0 <= j < s.len() - 1 && #[trigger] s[j] == '\n' ==> s[j + 1] != '-')
}

proof fn lemma_dash_free_concat(a: Seq<char>, b: Seq<char>)
    requires
        dash_free_lines(a),
        dash_free_lines(b),
    ensures
        dash_free_lines(a + b),
{
    let c = a + b;
    if a.len() > 0 && b.len() > 0 {
        assert forall|j: int| 0 <= j < c.len() - 1 && #[trigger] c[j] == '\n' implies c[j + 1]
            != '-' by {
            if j < a.len() - 1 {
                assert(c[j] == a[j] && c[j + 1] == a[j + 1]);
            } else if j == a.len() - 1 {
                assert(c[j + 1] == b[0]);
            } else {
                assert(c[j] == b[j - a.len()] && c[j + 1] == b[j + 1 - a.len()]);
            }
        }
        assert(c.last() == b.last());
    } else if a.len() == 0 {
        assert(c =~= b);
    } else {
        assert(c =~= a);
    }
}

proof fn lemma_one_line(p: Seq<char>)
    requires
        p.len() > 0,
        p[0] != '-',
        single_line(p),
    ensures
        dash_free_lines(p + seq!['\n']),
{
    let c = p + seq!['\n'];
    assert forall|j: int| 0 <= j < c.len() - 1 && #[trigger] c[j] == '\n' implies c[j + 1]
        != '-' by {
        assert(c[j] == p[j]);
    }
}

proof fn lemma_single_line_concat(a: Seq<char>, b: Seq<char>)
    requires
        single_line(a),
        single_line(b),
    ensures
        single_line(a + b),
{
    assert forall|j: int| 0 <= j < (a + b).len() implies #[trigger] (a + b)[j] != '\n' by {
        if j < a.len() {
            assert((a + b)[j] == a[j]);
        } else {
            assert((a + b)[j] == b[j - a.len()]);
        }
    }
}

proof fn lemma_escape_single_line(c: char)
    ensures
        single_line(json_escape_char(c)),
{
    let v = c as u32;
    if c != '"' && c != '\\' && v != 8 && v != 9 && v != 10 && v != 12 && v != 13 && v < 32 {
        let e = json_escape_char(c);
        let h1 = hex_digit((v / 16) as nat);
        let h2 = hex_digit((v % 16) as nat);
        assert(e == seq!['\\', 'u', '0', '0', h1, h2]);
        assert(h1 as u32 == (v / 16) + 48);
        assert(h2 as u32 >= 48);
        assert(h1 != '\n' && h2 != '\n');
    }
}

/// A JSON string literal holds no raw line ending.
pub proof fn lemma_json_single_line(s: Seq<char>)
    ensures
        single_line(json_quoted(s)),
    decreases s.len(),
{
    lemma_escaped_single_line(s);
    lemma_single_line_concat(seq!['"'], json_escaped(s));
    lemma_single_line_concat(seq!['"'] + json_escaped(s), seq!['"']);
}

proof fn lemma_escaped_single_line(s: Seq<char>)
    ensures
        single_line(json_escaped(s)),
    decreases s.len(),
{
    if s.len() > 0 {
        lemma_escaped_single_line(s.drop_last());
        lemma_escape_single_line(s.last());
        lemma_single_line_concat(json_escaped(s.drop_last()), json_escape_char(s.last()));
    }
}

/// Every alias is a single line.
pub open spec fn aliases_single_line(a: Seq<String>) -> bool {
    forall|i: int| 0 <= i < a.len() ==> single_line(#[trigger] a[i]@)
}

/// Every attribute key is a single line.
pub open spec fn keys_single_line(e: Seq<(String, String)>) -> bool {
    forall|i: int| 0 <= i < e.len() ==> single_line(#[trigger] e[i].0@)
}

proof fn lemma_alias_lines(a: Seq<String>)
    requires
        aliases_single_line(a),
    ensures
        dash_free_lines(alias_lines(a)),
    decreases a.len(),
{
    if a.len() > 0 {
        assert forall|i: int| 0 <= i < a.drop_last().len() implies single_line(
            #[trigger] a.drop_last()[i]@,
        ) by {
            assert(a.drop_last()[i] == a[i]);
        }
        lemma_alias_lines(a.drop_last());
        reveal_strlit("  - ");
        let x = a.last()@;
        assert(single_line(a[a.len() - 1]@));
        lemma_single_line_concat("  - "@, x);
        lemma_one_line("  - "@ + x);
        assert("  - "@ + x + seq!['\n'] =~= "  - "@ + a.last()@ + seq!['\n']);
        lemma_dash_free_concat(alias_lines(a.drop_last()), "  - "@ + x + seq!['\n']);
    }
}

proof fn lemma_attribute_lines(e: Seq<(String, String)>)
    requires
        keys_single_line(e),
    ensures
        dash_free_lines(attribute_lines(e)),
    decreases e.len(),
{
    if e.len() > 0 {
        assert forall|i: int| 0 <= i < e.drop_last().len() implies single_line(
            #[trigger] e.drop_last()[i].0@,
        ) by {
            assert(e.drop_last()[i] == e[i]);
        }
        lemma_attribute_lines(e.drop_last());
        reveal_strlit("  ");
        reveal_strlit(": ");
        let k = e.last().0@;
        let q = json_quoted(e.last().1@);
        assert(single_line(e[e.len() - 1].0@));
        lemma_json_single_line(e.last().1@);
        lemma_single_line_concat("  "@, k);
        lemma_single_line_concat("  "@ + k, ": "@);
        lemma_single_line_concat("  "@ + k + ": "@, q);
        lemma_one_line("  "@ + k + ": "@ + q);
        lemma_dash_free_concat(attribute_lines(e.drop_last()), "  "@ + k + ": "@ + q + seq!['\n']);
    }
}

proof fn lemma_field_line(key: Seq<char>, value: Seq<char>)
    requires
        key.len() > 0,
        key[0] != '-',
        single_line(key),
        single_line(value),
    ensures
        dash_free_lines(key + value + seq!['\n']),
{
    lemma_single_line_concat(key, value);
    lemma_one_line(key + value);
}

/// The id, type, title and status lines of a requirement's frontmatter.
pub open spec fn head_lines(r: Requirement) -> Seq<char> {
    "id: "@ + r.id@ + seq!['\n'] + "type: "@ + req_type_name(r.req_type) + seq!['\n']
        + "title: "@ + json_quoted(r.title@) + seq!['\n'] + "status: "@ + status_name(r.status)
        + seq!['\n']
}

/// The frontmatter lines of a requirement's file, between the opening and
/// the closing `---` lines.
pub open spec fn frontmatter_lines(r: Requirement) -> Seq<char> {
    head_lines(r) + parent_part(r) + aliases_part(r) + attributes_part(r)
}

/// The fields written raw into the frontmatter (id, parent, aliases and
/// attribute keys) hold no line ending.
pub open spec fn raw_fields_single_line(r: Requirement) -> bool {
    &&& single_line(r.id@)
    &&& (r.parent matches Some(p) ==> single_line(p@))
    &&& aliases_single_line(r.aliases@)
    &&& keys_single_line(r.attributes.entries())
}

proof fn lemma_type_status_single_line(r: Requirement)
    ensures
        single_line(req_type_name(r.req_type)),
        single_line(status_name(r.status)),
{
    reveal_strlit("hlr");
    reveal_strlit("llr");
    reveal_strlit("tst");
    reveal_strlit("draft");
    reveal_strlit("approved");
    reveal_strlit("deprecated");
    reveal_strlit("rejected");
}

proof fn lemma_head_lines(r: Requirement)
    requires
        single_line(r.id@),
    ensures
        dash_free_lines(head_lines(r)),
        head_lines(r).len() > 0,
        head_part(r) == "---\n"@ + head_lines(r),
{
    reveal_strlit("id: ");
    reveal_strlit("type: ");
    reveal_strlit("title: ");
    reveal_strlit("status: ");
    lemma_type_status_single_line(r);
    lemma_json_single_line(r.title@);
    let l1 = "id: "@ + r.id@ + seq!['\n'];
    let l2 = "type: "@ + req_type_name(r.req_type) + seq!['\n'];
    let l3 = "title: "@ + json_quoted(r.title@) + seq!['\n'];
    let l4 = "status: "@ + status_name(r.status) + seq!['\n'];
    lemma_field_line("id: "@, r.id@);
    lemma_field_line("type: "@, req_type_name(r.req_type));
    lemma_field_line("title: "@, json_quoted(r.title@));
    lemma_field_line("status: "@, status_name(r.status));
    lemma_dash_free_concat(l1, l2);
    lemma_dash_free_concat(l1 + l2, l3);
    lemma_dash_free_concat(l1 + l2 + l3, l4);
    assert(head_lines(r) =~= l1 + l2 + l3 + l4);
    assert(head_part(r) =~= "---\n"@ + head_lines(r));
}

proof fn lemma_optional_parts(r: Requirement)
    requires
        raw_fields_single_line(r),
    ensures
        dash_free_lines(parent_part(r)),
        dash_free_lines(aliases_part(r)),
        dash_free_lines(attributes_part(r)),
{
    reveal_strlit("parent: ");
    reveal_strlit("aliases:\n");
    reveal_strlit("attributes:\n");
    reveal_strlit("aliases:");
    reveal_strlit("attributes:");
    match r.parent {
        Some(p) => {
            lemma_field_line("parent: "@, p@);
        },
        None => {},
    }
    if r.aliases@.len() > 0 {
        lemma_alias_lines(r.aliases@);
        lemma_one_line("aliases:"@);
        assert("aliases:\n"@ =~= "aliases:"@ + seq!['\n']);
        lemma_dash_free_concat("aliases:\n"@, alias_lines(r.aliases@));
    }
    if r.attributes.entries().len() > 0 {
        lemma_attribute_lines(r.attributes.entries());
        assert("attributes:\n"@ =~= "attributes:"@ + seq!['\n']);
        lemma_one_line("attributes:"@);
        lemma_dash_free_concat("attributes:\n"@, attribute_lines(r.attributes.entries()));
    }
}

/// With single-line raw fields, the frontmatter is whole lines none of
/// which starts with `-`, and the file is the opening line, the
/// frontmatter and the closing part.
pub proof fn lemma_frontmatter_shape(r: Requirement)
    requires
        raw_fields_single_line(r),
    ensures
        dash_free_lines(frontmatter_lines(r)),
        frontmatter_lines(r).len() > 0,
        markdown_text(r) == "---\n"@ + frontmatter_lines(r) + tail_part(r),
{
    lemma_head_lines(r);
    lemma_optional_parts(r);
    let h = head_lines(r);
    lemma_dash_free_concat(h, parent_part(r));
    lemma_dash_free_concat(h + parent_part(r), aliases_part(r));
    lemma_dash_free_concat(h + parent_part(r) + aliases_part(r), attributes_part(r));
    assert(markdown_text(r) =~= "---\n"@ + frontmatter_lines(r) + tail_part(r));
}

fn push_head(w: &mut Vec<char>, req: &Requirement)
    ensures
        final(w)@ == old(w)@ + head_part(*req),
{
    push_str(w, "---\n");
    push_str(w, "id: ");
    push_str(w, req.id.as_str());
    w.push('\n');
    push_str(w, "type: ");
    push_str(w, req.req_type.as_str());
    w.push('\n');
    push_str(w, "title: ");
    let t = json_string(req.title.as_str());
    push_str(w, t.as_str());
    w.push('\n');
    push_str(w, "status: ");
    push_str(w, req.status.as_str());
    w.push('\n');
    proof {
        assert(final(w)@ =~= old(w)@ + head_part(*req));
    }
}

fn push_parent(w: &mut Vec<char>, req: &Requirement)
    ensures
        final(w)@ == old(w)@ + parent_part(*req),
{
    match &req.parent {
        Some(p) => {
            push_str(w, "parent: ");
            push_str(w, p.as_str());
            w.push('\n');
            assert(w@ =~= old(w)@ + parent_part(*req));
        },
        None => {
            assert(w@ =~= old(w)@ + parent_part(*req));
        },
    }
}

fn push_aliases(w: &mut Vec<char>, req: &Requirement)
    ensures
        final(w)@ == old(w)@ + aliases_part(*req),
{
    if req.aliases.len() > 0 {
        push_str(w, "aliases:\n");
        let ghost base = w@;
        let mut i: usize = 0;
        while i < req.aliases.len()
            invariant
                i <= req.aliases@.len(),
                w@ == base + alias_lines(req.aliases@.take(i as int)),
            decreases req.aliases.len() - i,
        {
            push_str(w, "  - ");
            push_str(w, req.aliases[i].as_str());
            w.push('\n');
            proof {
                assert(req.aliases@.take(i + 1).drop_last() =~= req.aliases@.take(i as int));
                assert(w@ =~= base + alias_lines(req.aliases@.take(i + 1)));
            }
            i = i + 1;
        }
        assert(req.aliases@.take(i as int) =~= req.aliases@);
        assert(w@ =~= old(w)@ + aliases_part(*req));
    } else {
        assert(w@ =~= old(w)@ + aliases_part(*req));
    }
}

fn push_attributes(w: &mut Vec<char>, req: &Requirement)
    ensures
        final(w)@ == old(w)@ + attributes_part(*req),
{
    let entries = req.attributes.as_slice();
    if entries.len() > 0 {
        push_str(w, "attributes:\n");
        let ghost base = w@;
        let mut i: usize = 0;
        while i < entries.len()
            invariant
                i <= entries@.len(),
                w@ == base + attribute_lines(entries@.take(i as int)),
            decreases entries.len() - i,
        {
            push_str(w, "  ");
            push_str(w, entries[i].0.as_str());
            push_str(w, ": ");
            let v = json_string(entries[i].1.as_str());
            push_str(w, v.as_str());
            w.push('\n');
            proof {
                assert(entries@.take(i + 1).drop_last() =~= entries@.take(i as int));
                assert(w@ =~= base + attribute_lines(entries@.take(i + 1)));
            }
            i = i + 1;
        }
        assert(entries@.take(i as int) =~= entries@);
        assert(w@ =~= old(w)@ + attributes_part(*req));
    } else {
        assert(w@ =~= old(w)@ + attributes_part(*req));
    }
}

fn push_tail(w: &mut Vec<char>, req: &Requirement)
    ensures
        final(w)@ == old(w)@ + tail_part(*req),
{
    push_str(w, "---\n");
    w.push('\n');
    let text = chars_of_string(&req.text);
    let tt = trim_chars(text.as_slice());
    if tt.len() > 0 {
        push_chars(w, tt.as_slice());
        w.push('\n');
    }
    assert(w@ =~= old(w)@ + tail_part(*req));
}

/// Markdown adapter for reading and writing requirement files.
pub struct MarkdownAdapter;

impl Default for MarkdownAdapter {
    fn default() -> (a: Self) {
        MarkdownAdapter
    }
}

impl MarkdownAdapter {
    /// Create a new MarkdownAdapter.
    pub fn new() -> (a: Self) {
        MarkdownAdapter
    }

    /// Human-readable name of the adapter (`"markdown"`).
    pub fn name(&self) -> (s: &'static str)
        ensures
            s@ == "markdown"@,
    {
        "markdown"
    }

    /// Render a requirement as Markdown file text.  Never fails.
    pub fn format_to_string(&self, req: &Requirement) -> (r: Result<String, Error>)
        ensures
            r matches Ok(s) && s@ == markdown_text(*req),
    {
        let mut w: Vec<char> = Vec::new();
        push_head(&mut w, req);
        push_parent(&mut w, req);
        push_aliases(&mut w, req);
        push_attributes(&mut w, req);
        push_tail(&mut w, req);
        assert(w@ =~= markdown_text(*req));
        Ok(string_of(w.as_slice()))
    }

    /// The standard location of a requirement file below `base`:
    /// `requirements/<type>/<ID>.md`.
    pub fn get_requirement_path(base: &str, req: &Requirement) -> (p: String)
        ensures
            p@ == joined(
                joined(joined(base@, "requirements"@), req_type_name(req.req_type)),
                req.id@ + ".md"@,
            ),
    {
        let a = path_join(base, "requirements");
        let b = path_join(a.as_str(), req.req_type.as_str());
        let mut f = chars_of_string(&req.id);
        push_str(&mut f, ".md");
        let fname = string_of(f.as_slice());
        path_join(b.as_str(), fname.as_str())
    }
}

} // verus!
