//! JSON reports of outside tools (`cargo llvm-cov --json`, `cargo mutants
//! --json`): a JSON value tree, the fields the scorers read, and the
//! report entry points from text to scores.

use vstd::prelude::*;
use crate::audit::{LineCoverageScore, MutationReport, MutationScore};
use crate::coverage_map::{
    coverage_scores, data_files, data_functions, file_key, file_points, function_names,
    function_regions, has_segments, item_u64, line_coverage_scores, norm_path, points_of, ref_end,
    ref_score, refs_scorable, region_count, region_hits, region_of, regions_at, score_view,
    segment_count, segment_hits, segment_point, symbol_called, CovData, CovFile, CovFunction,
    JsonItem,
};
use crate::error::Error;
use crate::models::CodeRef;
use crate::mutation::{
    distinct_ids, held, hit_sum, hits, holder_pred, holds, mutation_report, mutation_view, scores_for,
    untagged_pred, MutantRecord,
};
use crate::text::{chars_of, push_str, string_of};

verus! {

#[verifier::external_type_specification]
#[verifier::external_body]
pub struct ExJsonValue(serde_json::Value);

/// A JSON value, with numbers told apart as the reports need them.
pub enum Json {
    /// `null`
    Null,
    /// `true` or `false`
    Bool(bool),
    /// A number that is a `u64`
    Unsigned(u64),
    /// Any other number
    OtherNumber,
    /// A string
    Str(String),
    /// An array
    Array(Vec<Json>),
    /// An object: its keys and values
    Object(Vec<(String, Json)>),
}

/// A JSON value as plain values.
pub enum JsonView {
    Null,
    Bool(bool),
    Unsigned(u64),
    OtherNumber,
    Str(Seq<char>),
    Array(Seq<JsonView>),
    Object(Seq<(Seq<char>, JsonView)>),
}

/// The plain value of a JSON value.
pub open spec fn json_view(j: Json) -> JsonView
    decreases j,
{
    match j {
        Json::Null => JsonView::Null,
        Json::Bool(b) => JsonView::Bool(b),
        Json::Unsigned(n) => JsonView::Unsigned(n),
        Json::OtherNumber => JsonView::OtherNumber,
        Json::Str(s) => JsonView::Str(s@),
        Json::Array(v) => {
            proof {
                assert(decreases_to!(v => v@));
            }
            JsonView::Array(array_view(v@))
        },
        Json::Object(v) => {
            proof {
                assert(decreases_to!(v => v@));
            }
            JsonView::Object(object_view(v@))
        },
    }
}

/// The plain values of a list of JSON values.
pub open spec fn array_view(s: Seq<Json>) -> Seq<JsonView>
    decreases s,
{
    if s.len() == 0 {
        seq![]
    } else {
        proof {
            assert(decreases_to!(s => s.subrange(0, s.len() - 1)));
            assert(decreases_to!(s => s[s.len() - 1]));
        }
        array_view(s.subrange(0, s.len() - 1)).push(json_view(s[s.len() - 1]))
    }
}

/// The plain values of the members of an object.
pub open spec fn object_view(s: Seq<(String, Json)>) -> Seq<(Seq<char>, JsonView)>
    decreases s,
{
    if s.len() == 0 {
        seq![]
    } else {
        proof {
            assert(decreases_to!(s => s.subrange(0, s.len() - 1)));
            assert(decreases_to!(s => s[s.len() - 1]));
        }
        object_view(s.subrange(0, s.len() - 1)).push((s[s.len() - 1].0@, json_view(s[s.len() - 1].1)))
    }
}

/// The JSON value that `serde_json` reads from a text, if the text is JSON.
pub uninterp spec fn json_of(text: Seq<char>) -> Option<JsonView>;

/// A `serde_json::Value` as a `Json` tree: one variant for each, numbers
/// split by `as_u64`, object members in the map's order.
#[verifier::external_body]
fn json_from_value(v: &serde_json::Value) -> (j: Json) {
    match v {
        serde_json::Value::Null => Json::Null,
        serde_json::Value::Bool(b) => Json::Bool(*b),
        serde_json::Value::Number(n) => match n.as_u64() {
            Some(u) => Json::Unsigned(u),
            None => Json::OtherNumber,
        },
        serde_json::Value::String(s) => Json::Str(s.clone()),
        serde_json::Value::Array(a) => Json::Array(a.iter().map(json_from_value).collect()),
        serde_json::Value::Object(o) => Json::Object(o.iter().map(|(k, x)| (k.clone(), json_from_value(x))).collect()),
    }
}

/// The message of the error `serde_json::from_str::<serde_json::Value>`
/// reports for a text that is not JSON.
pub uninterp spec fn value_parse_error_of(text: Seq<char>) -> Seq<char>;

/// The message of the error `serde_json::from_str::<Vec<serde_json::Value>>`
/// reports for a text that is not a JSON array.
pub uninterp spec fn list_parse_error_of(text: Seq<char>) -> Seq<char>;

/// `serde_json::from_str::<serde_json::Value>`: the JSON value of the text
/// (`json_of`), or the parser's error message (`value_parse_error_of`) when
/// it is not JSON.
#[verifier::external_body]
pub(crate) fn parse_json(text: &str) -> (r: Result<Json, String>)
    ensures
        (r is Ok) == (json_of(text@) is Some),
        r matches Ok(j) ==> json_of(text@) == Some(json_view(j)),
        r matches Err(m) ==> m@ == value_parse_error_of(text@),
{
    match serde_json::from_str::<serde_json::Value>(text) {
        Ok(v) => Ok(json_from_value(&v)),
        Err(e) => Err(e.to_string()),
    }
}

/// `serde_json::from_str::<Vec<serde_json::Value>>`: the elements of the
/// text's JSON value when that is an array, or the parser's error message
/// (`list_parse_error_of`) otherwise.
#[verifier::external_body]
pub(crate) fn parse_json_list(text: &str) -> (r: Result<Vec<Json>, String>)
    ensures
        (r is Ok) == (json_of(text@) matches Some(JsonView::Array(_))),
        r matches Ok(v) ==> json_of(text@) == Some(JsonView::Array(array_view(v@))),
        r matches Err(m) ==> m@ == list_parse_error_of(text@),
{
    match serde_json::from_str::<Vec<serde_json::Value>>(text) {
        Ok(v) => Ok(v.iter().map(json_from_value).collect()),
        Err(e) => Err(e.to_string()),
    }
}

/// The views of a list keep its length and its elements' views.
pub proof fn lemma_array_view(s: Seq<Json>)
    ensures
        array_view(s).len() == s.len(),
        forall|i: int| 0 <= i < s.len() ==> #[trigger] array_view(s)[i] == json_view(s[i]),
    decreases s.len(),
{
    if s.len() > 0 {
        lemma_array_view(s.subrange(0, s.len() - 1));
    }
}

/// The views of an object's members keep their number, keys and values.
pub proof fn lemma_object_view(s: Seq<(String, Json)>)
    ensures
        object_view(s).len() == s.len(),
        forall|i: int|
            0 <= i < s.len() ==> #[trigger] object_view(s)[i] == (s[i].0@, json_view(s[i].1)),
    decreases s.len(),
{
    if s.len() > 0 {
        lemma_object_view(s.subrange(0, s.len() - 1));
    }
}

/// The value of the first member named `key`.
pub open spec fn member(pairs: Seq<(Seq<char>, JsonView)>, key: Seq<char>) -> Option<JsonView>
    decreases pairs.len(),
{
    if pairs.len() == 0 {
        None
    } else if pairs[0].0 == key {
        Some(pairs[0].1)
    } else {
        member(pairs.drop_first(), key)
    }
}

/// `get(key)`: the member `key` of an object; nothing for other values.
pub open spec fn get(j: Option<JsonView>, key: Seq<char>) -> Option<JsonView> {
    match j {
        Some(JsonView::Object(p)) => member(p, key),
        _ => None,
    }
}

/// `as_str`: the text of a string.
pub open spec fn str_of(j: Option<JsonView>) -> Option<Seq<char>> {
    match j {
        Some(JsonView::Str(s)) => Some(s),
        _ => None,
    }
}

/// `as_u64`: a number that is a `u64`.
pub open spec fn u64_of(j: Option<JsonView>) -> Option<u64> {
    match j {
        Some(JsonView::Unsigned(n)) => Some(n),
        _ => None,
    }
}

/// `as_array`: the elements of an array.
pub open spec fn array_of(j: Option<JsonView>) -> Option<Seq<JsonView>> {
    match j {
        Some(JsonView::Array(a)) => Some(a),
        _ => None,
    }
}

/// The view of an optional borrowed JSON value.
pub open spec fn opt_view(o: Option<&Json>) -> Option<JsonView> {
    match o {
        Some(j) => Some(json_view(*j)),
        None => None,
    }
}

/// The plain value of an optional string.
pub open spec fn opt_str(o: Option<String>) -> Option<Seq<char>> {
    match o {
        Some(s) => Some(s@),
        None => None,
    }
}

/// `get(key)` on a JSON value.
pub fn get_member<'a>(j: &'a Json, key: &str) -> (r: Option<&'a Json>)
    ensures
        opt_view(r) == get(Some(json_view(*j)), key@),
{
    match j {
        Json::Object(pairs) => {
            proof {
                lemma_object_view(pairs@);
            }
            let ghost ov = object_view(pairs@);
            assert(json_view(*j) == JsonView::Object(ov));
            let mut k: usize = 0;
            assert(ov.subrange(0, ov.len() as int) =~= ov);
            while k < pairs.len()
                invariant
                    k <= pairs@.len(),
                    ov == object_view(pairs@),
                    json_view(*j) == JsonView::Object(ov),
                    ov.len() == pairs@.len(),
                    forall|i: int|
                        0 <= i < pairs@.len() ==> #[trigger] ov[i] == (pairs@[i].0@, json_view(pairs@[i].1)),
                    member(ov, key@) == member(ov.subrange(k as int, ov.len() as int), key@),
                decreases pairs.len() - k,
            {
                let ghost rest = ov.subrange(k as int, ov.len() as int);
                assert(rest[0] == ov[k as int]);
                assert(rest.drop_first() =~= ov.subrange(k + 1, ov.len() as int));
                if crate::text::chars_eq_str(crate::text::chars_of(pairs[k].0.as_str()).as_slice(), key) {
                    assert(rest[0].0 == key@);
                    return Some(&pairs[k].1);
                }
                k = k + 1;
            }
            None
        },
        _ => None,
    }
}

/// `as_str` on an optional JSON value, copied.
pub fn get_str(o: Option<&Json>) -> (r: Option<String>)
    ensures
        opt_str(r) == str_of(opt_view(o)),
{
    match o {
        Some(Json::Str(s)) => Some(s.clone()),
        _ => None,
    }
}

/// `as_u64` on an optional JSON value.
pub fn get_u64(o: Option<&Json>) -> (r: Option<u64>)
    ensures
        r == u64_of(opt_view(o)),
{
    match o {
        Some(Json::Unsigned(n)) => Some(*n),
        _ => None,
    }
}

// ───────────────────────── llvm-cov reports ─────────────────────────

/// Items of an optional list of arrays, as plain values.
pub type ItemsView = Option<Seq<Option<Seq<JsonItem>>>>;

/// A file entry as plain values: file name, segments.
pub type FileView = (Option<Seq<char>>, ItemsView);

/// A function entry as plain values: name, count, file names, regions.
pub type FunctionView = (Option<Seq<char>>, Option<u64>, Option<Seq<Option<Seq<char>>>>, ItemsView);

/// Report data as plain values: files, functions.
pub type CovView = (Option<Seq<FileView>>, Option<Seq<FunctionView>>);

/// The plain value of one array of items.
pub open spec fn item_row_view(o: Option<Vec<JsonItem>>) -> Option<Seq<JsonItem>> {
    match o {
        Some(w) => Some(w@),
        None => None,
    }
}

/// The plain value of segment or region data.
pub open spec fn items_view(x: Option<Vec<Option<Vec<JsonItem>>>>) -> ItemsView {
    match x {
        Some(v) => Some(v@.map_values(|o: Option<Vec<JsonItem>>| item_row_view(o))),
        None => None,
    }
}

/// The plain value of a file entry.
pub open spec fn file_view(f: CovFile) -> FileView {
    (opt_str(f.filename), items_view(f.segments))
}

/// The plain value of a list of optional file names.
pub open spec fn names_view(x: Option<Vec<Option<String>>>) -> Option<Seq<Option<Seq<char>>>> {
    match x {
        Some(v) => Some(v@.map_values(|o: Option<String>| opt_str(o))),
        None => None,
    }
}

/// The plain value of a function entry.
pub open spec fn function_view(f: CovFunction) -> FunctionView {
    (opt_str(f.name), f.count, names_view(f.filenames), items_view(f.regions))
}

/// The plain value of report data.
pub open spec fn cov_view(d: CovData) -> CovView {
    (
        match d.files {
            Some(v) => Some(v@.map_values(|f: CovFile| file_view(f))),
            None => None,
        },
        match d.functions {
            Some(v) => Some(v@.map_values(|f: CovFunction| function_view(f))),
            None => None,
        },
    )
}

/// An item of a segment or region: a `u64`, a boolean, or anything else.
pub open spec fn item_of(j: JsonView) -> JsonItem {
    match j {
        JsonView::Unsigned(n) => JsonItem::Unsigned(n),
        JsonView::Bool(b) => JsonItem::Bool(b),
        _ => JsonItem::Other,
    }
}

/// One segment or region: its items, if it is an array.
pub open spec fn item_row_of(j: JsonView) -> Option<Seq<JsonItem>> {
    match j {
        JsonView::Array(xs) => Some(xs.map_values(|y: JsonView| item_of(y))),
        _ => None,
    }
}

/// Segments or regions: each one's items, if the value is an array.
pub open spec fn items_of(j: Option<JsonView>) -> ItemsView {
    match array_of(j) {
        Some(a) => Some(a.map_values(|x: JsonView| item_row_of(x))),
        None => None,
    }
}

/// A file entry: `filename` if a string, `segments`.
pub open spec fn file_of(f: JsonView) -> FileView {
    (str_of(get(Some(f), "filename"@)), items_of(get(Some(f), "segments"@)))
}

/// A function entry: `name` if a string, `count` if a `u64`, `filenames`
/// (each element if a string), `regions`.
pub open spec fn function_of(f: JsonView) -> FunctionView {
    (
        str_of(get(Some(f), "name"@)),
        u64_of(get(Some(f), "count"@)),
        match array_of(get(Some(f), "filenames"@)) {
            Some(a) => Some(a.map_values(|x: JsonView| str_of(Some(x)))),
            None => None,
        },
        items_of(get(Some(f), "regions"@)),
    )
}

/// The report data read from `data[0]`: `files` and `functions`, each if
/// an array.
pub open spec fn cov_of(data: JsonView) -> CovView {
    (
        match array_of(get(Some(data), "files"@)) {
            Some(a) => Some(a.map_values(|f: JsonView| file_of(f))),
            None => None,
        },
        match array_of(get(Some(data), "functions"@)) {
            Some(a) => Some(a.map_values(|f: JsonView| function_of(f))),
            None => None,
        },
    )
}

/// The value at the pointer `/data/0`: member `data`, then its element 0
/// (of an array) or its member `0` (of an object).
pub open spec fn data_entry(root: JsonView) -> Option<JsonView> {
    match get(Some(root), "data"@) {
        Some(JsonView::Array(a)) => if a.len() > 0 {
            Some(a[0])
        } else {
            None
        },
        Some(JsonView::Object(p)) => member(p, "0"@),
        _ => None,
    }
}

fn item_exec(j: &Json) -> (r: JsonItem)
    ensures
        r == item_of(json_view(*j)),
{
    match j {
        Json::Unsigned(n) => JsonItem::Unsigned(*n),
        Json::Bool(b) => JsonItem::Bool(*b),
        _ => JsonItem::Other,
    }
}

fn item_row_exec(j: &Json) -> (r: Option<Vec<JsonItem>>)
    ensures
        item_row_view(r) == item_row_of(json_view(*j)),
{
    match j {
        Json::Array(xs) => {
            proof {
                lemma_array_view(xs@);
            }
            let ghost av = array_view(xs@);
            let mut out: Vec<JsonItem> = Vec::new();
            let mut k: usize = 0;
            while k < xs.len()
                invariant
                    k <= xs@.len(),
                    av == array_view(xs@),
                    av.len() == xs@.len(),
                    forall|i: int| 0 <= i < xs@.len() ==> #[trigger] av[i] == json_view(xs@[i]),
                    out@ == av.take(k as int).map_values(|y: JsonView| item_of(y)),
                decreases xs.len() - k,
            {
                let it = item_exec(&xs[k]);
                out.push(it);
                assert(av.take(k + 1) =~= av.take(k as int).push(av[k as int]));
                assert(out@ =~= av.take(k + 1).map_values(|y: JsonView| item_of(y)));
                k = k + 1;
            }
            assert(av.take(k as int) =~= av);
            assert(json_view(*j) == JsonView::Array(av));
            Some(out)
        },
        _ => None,
    }
}

fn items_exec(o: Option<&Json>) -> (r: Option<Vec<Option<Vec<JsonItem>>>>)
    ensures
        items_view(r) == items_of(opt_view(o)),
{
    match o {
        Some(Json::Array(xs)) => {
            proof {
                lemma_array_view(xs@);
            }
            let ghost av = array_view(xs@);
            let mut out: Vec<Option<Vec<JsonItem>>> = Vec::new();
            let mut k: usize = 0;
            while k < xs.len()
                invariant
                    k <= xs@.len(),
                    av == array_view(xs@),
                    av.len() == xs@.len(),
                    forall|i: int| 0 <= i < xs@.len() ==> #[trigger] av[i] == json_view(xs@[i]),
                    out@.len() == k,
                    forall|i: int| 0 <= i < k ==> item_row_view(out@[i]) == item_row_of(av[i]),
                decreases xs.len() - k,
            {
                let row = item_row_exec(&xs[k]);
                let ghost before = out@;
                out.push(row);
                assert(out@ == before.push(row));
                k = k + 1;
            }
            assert(out@.map_values(|o: Option<Vec<JsonItem>>| item_row_view(o)) =~= av.map_values(|x: JsonView| item_row_of(x)));
            Some(out)
        },
        _ => None,
    }
}

fn file_exec(f: &Json) -> (r: CovFile)
    ensures
        file_view(r) == file_of(json_view(*f)),
{
    let filename = get_str(get_member(f, "filename"));
    let segments = items_exec(get_member(f, "segments"));
    CovFile { filename, segments }
}

fn names_exec(o: Option<&Json>) -> (r: Option<Vec<Option<String>>>)
    ensures
        names_view(r) == match array_of(opt_view(o)) {
            Some(a) => Some(a.map_values(|x: JsonView| str_of(Some(x)))),
            None => None,
        },
{
    match o {
        Some(Json::Array(xs)) => {
            proof {
                lemma_array_view(xs@);
            }
            let ghost av = array_view(xs@);
            let mut out: Vec<Option<String>> = Vec::new();
            let mut k: usize = 0;
            while k < xs.len()
                invariant
                    k <= xs@.len(),
                    av == array_view(xs@),
                    av.len() == xs@.len(),
                    forall|i: int| 0 <= i < xs@.len() ==> #[trigger] av[i] == json_view(xs@[i]),
                    out@.len() == k,
                    forall|i: int| 0 <= i < k ==> opt_str(out@[i]) == str_of(Some(av[i])),
                decreases xs.len() - k,
            {
                let n = get_str(Some(&xs[k]));
                let ghost before = out@;
                out.push(n);
                assert(out@ == before.push(n));
                k = k + 1;
            }
            assert(out@.map_values(|o: Option<String>| opt_str(o)) =~= av.map_values(|x: JsonView| str_of(Some(x))));
            Some(out)
        },
        _ => None,
    }
}

fn function_exec(f: &Json) -> (r: CovFunction)
    ensures
        function_view(r) == function_of(json_view(*f)),
{
    let name = get_str(get_member(f, "name"));
    let count = get_u64(get_member(f, "count"));
    let filenames = names_exec(get_member(f, "filenames"));
    let regions = items_exec(get_member(f, "regions"));
    CovFunction { name, count, filenames, regions }
}

fn files_exec(o: Option<&Json>) -> (r: Option<Vec<CovFile>>)
    ensures
        match r {
            Some(v) => Some(v@.map_values(|f: CovFile| file_view(f))),
            None => None::<Seq<FileView>>,
        } == match array_of(opt_view(o)) {
            Some(a) => Some(a.map_values(|f: JsonView| file_of(f))),
            None => None,
        },
{
    match o {
        Some(Json::Array(xs)) => {
            proof {
                lemma_array_view(xs@);
            }
            let ghost av = array_view(xs@);
            let mut out: Vec<CovFile> = Vec::new();
            let mut k: usize = 0;
            while k < xs.len()
                invariant
                    k <= xs@.len(),
                    av == array_view(xs@),
                    av.len() == xs@.len(),
                    forall|i: int| 0 <= i < xs@.len() ==> #[trigger] av[i] == json_view(xs@[i]),
                    out@.len() == k,
                    forall|i: int| 0 <= i < k ==> file_view(out@[i]) == file_of(av[i]),
                decreases xs.len() - k,
            {
                let x = file_exec(&xs[k]);
                let ghost before = out@;
                out.push(x);
                assert(out@ == before.push(x));
                k = k + 1;
            }
            assert(out@.map_values(|f: CovFile| file_view(f)) =~= av.map_values(|f: JsonView| file_of(f)));
            Some(out)
        },
        _ => None,
    }
}

fn functions_exec(o: Option<&Json>) -> (r: Option<Vec<CovFunction>>)
    ensures
        match r {
            Some(v) => Some(v@.map_values(|f: CovFunction| function_view(f))),
            None => None::<Seq<FunctionView>>,
        } == match array_of(opt_view(o)) {
            Some(a) => Some(a.map_values(|f: JsonView| function_of(f))),
            None => None,
        },
{
    match o {
        Some(Json::Array(xs)) => {
            proof {
                lemma_array_view(xs@);
            }
            let ghost av = array_view(xs@);
            let mut out: Vec<CovFunction> = Vec::new();
            let mut k: usize = 0;
            while k < xs.len()
                invariant
                    k <= xs@.len(),
                    av == array_view(xs@),
                    av.len() == xs@.len(),
                    forall|i: int| 0 <= i < xs@.len() ==> #[trigger] av[i] == json_view(xs@[i]),
                    out@.len() == k,
                    forall|i: int| 0 <= i < k ==> function_view(out@[i]) == function_of(av[i]),
                decreases xs.len() - k,
            {
                let x = function_exec(&xs[k]);
                let ghost before = out@;
                out.push(x);
                assert(out@ == before.push(x));
                k = k + 1;
            }
            assert(out@.map_values(|f: CovFunction| function_view(f)) =~= av.map_values(|f: JsonView| function_of(f)));
            Some(out)
        },
        _ => None,
    }
}

/// The value at the pointer `/data/0` of a report.
fn data_entry_exec(root: &Json) -> (r: Option<&Json>)
    ensures
        opt_view(r) == data_entry(json_view(*root)),
{
    match get_member(root, "data") {
        Some(Json::Array(a)) => {
            proof {
                lemma_array_view(a@);
            }
            if a.len() > 0 {
                Some(&a[0])
            } else {
                None
            }
        },
        Some(d) => match d {
            Json::Object(_) => get_member(d, "0"),
            _ => None,
        },
        None => None,
    }
}

/// The report data of an llvm-cov report: `files` and `functions` of
/// `data[0]`; the parse error `llvm-cov JSON: missing data[0]` when there
/// is no `data[0]`.
pub fn llvm_cov_data(root: &Json) -> (r: Result<CovData, Error>)
    ensures
        match data_entry(json_view(*root)) {
            Some(d) => r matches Ok(c) && cov_view(c) == cov_of(d),
            None => r matches Err(Error::Parse(m)) && m@ == "llvm-cov JSON: missing data[0]"@,
        },
{
    match data_entry_exec(root) {
        Some(d) => {
            let files = files_exec(get_member(d, "files"));
            let functions = functions_exec(get_member(d, "functions"));
            Ok(CovData { files, functions })
        },
        None => Err(Error::Parse("llvm-cov JSON: missing data[0]".to_owned())),
    }
}

/// The report of a `cargo llvm-cov --json` text, as `parse_llvm_cov_report`
/// gives it: a parse error when the text is not JSON (`cargo llvm-cov JSON
/// parse error: ` and the parser's message), the error `llvm-cov JSON:
/// missing data[0]` when there is no `data[0]`, else the line coverage
/// scores of the code references over data read as `cov_of` reads it.
pub open spec fn cov_report(
    text: Seq<char>,
    refs: Seq<CodeRef>,
    r: Result<Vec<LineCoverageScore>, Error>,
) -> bool {
    match json_of(text) {
        None => r matches Err(Error::Parse(m)) && m@ == "cargo llvm-cov JSON parse error: "@
            + value_parse_error_of(text),
        Some(j) => match data_entry(j) {
            None => r matches Err(Error::Parse(m)) && m@ == "llvm-cov JSON: missing data[0]"@,
            Some(d) => r matches Ok(v) && (exists|c: CovData| cov_view(c) == cov_of(d)) && forall|
                c: CovData,
            |
                cov_view(c) == cov_of(d) ==> v@.map_values(|s: LineCoverageScore| score_view(s))
                    == coverage_scores(c, refs),
        },
    }
}

/// Parse the text of a `cargo llvm-cov --json` report and score the code
/// references against it.
pub fn parse_llvm_cov_report(text: &str, refs: &[CodeRef]) -> (r: Result<Vec<LineCoverageScore>, Error>)
    requires
        refs_scorable(refs@),
    ensures
        cov_report(text@, refs@, r),
{
    match parse_json(text) {
        Err(e) => {
            let mut w = chars_of("cargo llvm-cov JSON parse error: ");
            push_str(&mut w, e.as_str());
            Err(Error::Parse(string_of(w.as_slice())))
        },
        Ok(root) => match llvm_cov_data(&root) {
            Err(e) => Err(e),
            Ok(data) => {
                let v = line_coverage_scores(&data, refs);
                proof {
                    let d = data_entry(json_view(root));
                    assert(cov_view(data) == cov_of(d->0));
                    assert forall|c: CovData| cov_view(c) == cov_of(d->0) implies v@.map_values(
                        |s: LineCoverageScore| score_view(s),
                    ) == coverage_scores(c, refs@) by {
                        law_coverage_scores_by_value(c, data, refs@);
                    }
                }
                Ok(v)
            },
        },
    }
}

// ───────────────────────── mutants reports ─────────────────────────

/// A mutant record as plain values: file, line, outcome.
pub type MutantView = (Seq<char>, usize, Seq<char>);

/// The plain value of a mutant record.
pub open spec fn mutant_view(m: MutantRecord) -> MutantView {
    (m.file@, m.line, m.outcome@)
}

/// A mutant record read from a report entry: `file` (empty when it is not
/// a string), `line` (0 when it is not a `u64`), `outcome` (`Unknown` when
/// it is not a string).
pub open spec fn mutant_of(j: JsonView) -> MutantView {
    (
        match str_of(get(Some(j), "file"@)) {
            Some(f) => f,
            None => seq![],
        },
        match u64_of(get(Some(j), "line"@)) {
            Some(n) => n as usize,
            None => 0usize,
        },
        match str_of(get(Some(j), "outcome"@)) {
            Some(o) => o,
            None => "Unknown"@,
        },
    )
}

/// One mutant record from a report entry.
fn mutant_exec(j: &Json) -> (r: MutantRecord)
    ensures
        mutant_view(r) == mutant_of(json_view(*j)),
{
    let file = match get_str(get_member(j, "file")) {
        Some(f) => f,
        None => String::new(),
    };
    let line: usize = match get_u64(get_member(j, "line")) {
        Some(n) => n as usize,
        None => 0,
    };
    let outcome = match get_str(get_member(j, "outcome")) {
        Some(o) => o,
        None => "Unknown".to_owned(),
    };
    MutantRecord { file, line, outcome }
}

/// The mutant records of the entries of a report, in order.
pub fn mutant_records(items: &Vec<Json>) -> (r: Vec<MutantRecord>)
    ensures
        r@.map_values(|m: MutantRecord| mutant_view(m)) == array_view(items@).map_values(
            |j: JsonView| mutant_of(j),
        ),
{
    proof {
        lemma_array_view(items@);
    }
    let ghost av = array_view(items@);
    let mut out: Vec<MutantRecord> = Vec::new();
    let mut k: usize = 0;
    while k < items.len()
        invariant
            k <= items@.len(),
            av == array_view(items@),
            av.len() == items@.len(),
            forall|i: int| 0 <= i < items@.len() ==> #[trigger] av[i] == json_view(items@[i]),
            out@.len() == k,
            forall|i: int| 0 <= i < k ==> mutant_view(out@[i]) == mutant_of(av[i]),
        decreases items.len() - k,
    {
        let m = mutant_exec(&items[k]);
        let ghost before = out@;
        out.push(m);
        assert(out@ == before.push(m));
        k = k + 1;
    }
    assert(out@.map_values(|m: MutantRecord| mutant_view(m)) =~= av.map_values(
        |j: JsonView| mutant_of(j),
    ));
    out
}

/// The records have the plain values read from the report entries.
pub open spec fn records_read(recs: Seq<MutantRecord>, a: Seq<JsonView>) -> bool {
    recs.map_values(|m: MutantRecord| mutant_view(m)) == a.map_values(|j: JsonView| mutant_of(j))
}

/// Mutants times code references fits a `usize` (for a text whose JSON is
/// an array of mutants).
pub open spec fn mutants_fit(text: Seq<char>, refs: Seq<CodeRef>) -> bool {
    match json_of(text) {
        Some(JsonView::Array(a)) => a.len() * refs.len() <= usize::MAX,
        _ => true,
    }
}

/// The report of a `cargo mutants --json` text, as `parse_mutants_report`
/// gives it: a parse error when the text is not a JSON array (`cargo
/// mutants JSON parse error: ` and the parser's message), else the mutation
/// report of the code references over the records read as `mutant_of`
/// reads them.
pub open spec fn mutants_report(
    text: Seq<char>,
    refs: Seq<CodeRef>,
    r: Result<MutationReport, Error>,
) -> bool {
    match json_of(text) {
        Some(JsonView::Array(a)) => r matches Ok(rep) && (exists|recs: Seq<MutantRecord>|
            #[trigger] records_read(recs, a)) && forall|recs: Seq<MutantRecord>|
            #[trigger] records_read(recs, a) ==> rep.scores@.map_values(|s: MutationScore| mutation_view(s)) == scores_for(
                distinct_ids(refs),
                recs,
                refs,
            ) && rep.untagged_mutants == recs.filter(untagged_pred(refs)).len(),
        _ => r matches Err(Error::Parse(m)) && m@ == "cargo mutants JSON parse error: "@
            + list_parse_error_of(text),
    }
}

/// Parse the text of a `cargo mutants --json` report and correlate its
/// mutants with the code references.
pub fn parse_mutants_report(text: &str, refs: &[CodeRef]) -> (r: Result<MutationReport, Error>)
    requires
        refs_scorable(refs@),
        mutants_fit(text@, refs@),
    ensures
        mutants_report(text@, refs@, r),
{
    match parse_json_list(text) {
        Err(e) => {
            let mut w = chars_of("cargo mutants JSON parse error: ");
            push_str(&mut w, e.as_str());
            Err(Error::Parse(string_of(w.as_slice())))
        },
        Ok(items) => {
            let recs = mutant_records(&items);
            proof {
                lemma_array_view(items@);
                assert(recs@.len() == items@.len()) by {
                    assert(recs@.map_values(|m: MutantRecord| mutant_view(m)).len() == recs@.len());
                }
            }
            let rep = mutation_report(recs.as_slice(), refs);
            proof {
                let a = array_view(items@);
                assert(records_read(recs@, a));
                assert forall|rs: Seq<MutantRecord>| #[trigger] records_read(rs, a) implies rep.scores@.map_values(|s: MutationScore| mutation_view(s))
                    == scores_for(distinct_ids(refs@), rs, refs@) && rep.untagged_mutants
                    == rs.filter(untagged_pred(refs@)).len() by {
                    law_mutation_report_by_value(rs, recs@, refs@);
                }
            }
            Ok(rep)
        },
    }
}

/// Parse and correlate a `cargo mutants --json` report when its mutants
/// times the code references fit a `usize`; `None` when they do not.
pub fn try_parse_mutants_report(text: &str, refs: &[CodeRef]) -> (r: Option<Result<MutationReport, Error>>)
    requires
        refs_scorable(refs@),
    ensures
        r is None <==> !mutants_fit(text@, refs@),
        r matches Some(x) ==> mutants_report(text@, refs@, x),
{
    match parse_json_list(text) {
        Ok(items) => {
            proof {
                lemma_array_view(items@);
            }
            match items.len().checked_mul(refs.len()) {
                Some(_) => Some(parse_mutants_report(text, refs)),
                None => None,
            }
        },
        Err(_) => Some(parse_mutants_report(text, refs)),
    }
}

// ───────────────────────── scores depend on plain values only ─────────────────────────

proof fn lemma_row_congr(a: Option<Vec<JsonItem>>, b: Option<Vec<JsonItem>>)
    requires
        item_row_view(a) == item_row_view(b),
    ensures
        segment_point(a) == segment_point(b),
        forall|names: Seq<Option<String>>| region_of(names, a) == region_of(names, b),
{
    assert forall|names: Seq<Option<String>>| region_of(names, a) == region_of(names, b) by {}
}

proof fn lemma_points_congr(s1: Seq<Option<Vec<JsonItem>>>, s2: Seq<Option<Vec<JsonItem>>>)
    requires
        s1.map_values(|o: Option<Vec<JsonItem>>| item_row_view(o)) == s2.map_values(
            |o: Option<Vec<JsonItem>>| item_row_view(o),
        ),
    ensures
        points_of(s1) == points_of(s2),
    decreases s1.len(),
{
    let f = |o: Option<Vec<JsonItem>>| item_row_view(o);
    assert(s1.map_values(f).len() == s2.map_values(f).len());
    if s1.len() > 0 {
        assert(s1.drop_last().map_values(f) =~= s1.map_values(f).drop_last());
        assert(s2.drop_last().map_values(f) =~= s2.map_values(f).drop_last());
        lemma_points_congr(s1.drop_last(), s2.drop_last());
        assert(s1.map_values(f)[s1.len() - 1] == s2.map_values(f)[s1.len() - 1]);
        lemma_row_congr(s1.last(), s2.last());
    }
}

/// A file name with backslashes as forward slashes.
pub open spec fn norm_opt(o: Option<Seq<char>>) -> Option<Seq<char>> {
    match o {
        Some(n) => Some(norm_path(n)),
        None => None,
    }
}

/// A file entry with its name's backslashes as forward slashes.
pub open spec fn file_norm(v: FileView) -> FileView {
    (norm_opt(v.0), v.1)
}

/// A function entry with its file names' backslashes as forward slashes.
pub open spec fn function_norm(v: FunctionView) -> FunctionView {
    (
        v.0,
        v.1,
        match v.2 {
            Some(ns) => Some(ns.map_values(|o: Option<Seq<char>>| norm_opt(o))),
            None => None,
        },
        v.3,
    )
}

/// Report data with every file name's backslashes as forward slashes.
pub open spec fn cov_norm(v: CovView) -> CovView {
    (
        match v.0 {
            Some(fs) => Some(fs.map_values(|f: FileView| file_norm(f))),
            None => None,
        },
        match v.1 {
            Some(fs) => Some(fs.map_values(|f: FunctionView| function_norm(f))),
            None => None,
        },
    )
}

proof fn lemma_file_congr(a: CovFile, b: CovFile)
    requires
        file_norm(file_view(a)) == file_norm(file_view(b)),
    ensures
        file_points(a) == file_points(b),
        file_key(a) == file_key(b),
{
    match (a.segments, b.segments) {
        (Some(x), Some(y)) => lemma_points_congr(x@, y@),
        _ => {},
    }
}

/// Two lists of file entries with the same plain values, file names
/// compared with backslashes as forward slashes.
pub open spec fn same_files(f1: Seq<CovFile>, f2: Seq<CovFile>) -> bool {
    f1.map_values(|f: CovFile| file_norm(file_view(f))) == f2.map_values(
        |f: CovFile| file_norm(file_view(f)),
    )
}

/// Two lists of function entries with the same plain values, file names
/// compared with backslashes as forward slashes.
pub open spec fn same_functions(f1: Seq<CovFunction>, f2: Seq<CovFunction>) -> bool {
    f1.map_values(|f: CovFunction| function_norm(function_view(f))) == f2.map_values(
        |f: CovFunction| function_norm(function_view(f)),
    )
}

proof fn lemma_same_files_at(f1: Seq<CovFile>, f2: Seq<CovFile>, i: int)
    requires
        same_files(f1, f2),
        0 <= i < f1.len(),
    ensures
        f1.len() == f2.len(),
        file_points(f1[i]) == file_points(f2[i]),
        file_key(f1[i]) == file_key(f2[i]),
{
    let f = |x: CovFile| file_norm(file_view(x));
    assert(f1.map_values(f).len() == f2.map_values(f).len());
    assert(f1.map_values(f)[i] == f2.map_values(f)[i]);
    lemma_file_congr(f1[i], f2[i]);
}

proof fn lemma_same_files_drop(f1: Seq<CovFile>, f2: Seq<CovFile>)
    requires
        same_files(f1, f2),
        f1.len() > 0,
    ensures
        same_files(f1.drop_last(), f2.drop_last()),
{
    let f = |x: CovFile| file_norm(file_view(x));
    assert(f1.map_values(f).len() == f2.map_values(f).len());
    assert(f1.drop_last().map_values(f) =~= f1.map_values(f).drop_last());
    assert(f2.drop_last().map_values(f) =~= f2.map_values(f).drop_last());
}

proof fn lemma_segment_count_congr(f1: Seq<CovFile>, f2: Seq<CovFile>, key: Seq<char>, q: usize)
    requires
        same_files(f1, f2),
    ensures
        segment_count(f1, key, q) == segment_count(f2, key, q),
    decreases f1.len(),
{
    let f = |x: CovFile| file_norm(file_view(x));
    assert(f1.map_values(f).len() == f2.map_values(f).len());
    if f1.len() > 0 {
        lemma_same_files_at(f1, f2, f1.len() - 1);
        lemma_same_files_drop(f1, f2);
        lemma_segment_count_congr(f1.drop_last(), f2.drop_last(), key, q);
    }
}

proof fn lemma_segment_hits_congr(
    f1: Seq<CovFile>,
    f2: Seq<CovFile>,
    key: Seq<char>,
    start: usize,
    end: nat,
)
    requires
        same_files(f1, f2),
    ensures
        segment_hits(f1, key, start, end) == segment_hits(f2, key, start, end),
    decreases end,
{
    if end > start {
        lemma_segment_hits_congr(f1, f2, key, start, (end - 1) as nat);
        lemma_segment_count_congr(f1, f2, key, (end - 1) as usize);
    }
}

proof fn lemma_has_segments_congr(f1: Seq<CovFile>, f2: Seq<CovFile>, key: Seq<char>)
    requires
        same_files(f1, f2),
    ensures
        has_segments(f1, key) == has_segments(f2, key),
{
    let f = |x: CovFile| file_norm(file_view(x));
    assert(f1.map_values(f).len() == f2.map_values(f).len());
    if has_segments(f1, key) {
        let i = choose|i: int| 0 <= i < f1.len() && #[trigger] file_key(f1[i]) == key;
        lemma_same_files_at(f1, f2, i);
    }
    if has_segments(f2, key) {
        let i = choose|i: int| 0 <= i < f2.len() && #[trigger] file_key(f2[i]) == key;
        lemma_same_files_at(f1, f2, i);
    }
}

/// Two lists of optional file names that agree with backslashes as
/// forward slashes.
pub open spec fn same_names(n1: Seq<Option<String>>, n2: Seq<Option<String>>) -> bool {
    n1.map_values(|o: Option<String>| norm_opt(opt_str(o))) == n2.map_values(
        |o: Option<String>| norm_opt(opt_str(o)),
    )
}

/// Two lists of regions with the same plain values.
pub open spec fn same_rows(r1: Seq<Option<Vec<JsonItem>>>, r2: Seq<Option<Vec<JsonItem>>>) -> bool {
    r1.map_values(|o: Option<Vec<JsonItem>>| item_row_view(o)) == r2.map_values(
        |o: Option<Vec<JsonItem>>| item_row_view(o),
    )
}

proof fn lemma_same_names_at(n1: Seq<Option<String>>, n2: Seq<Option<String>>, i: int)
    requires
        same_names(n1, n2),
        0 <= i < n1.len(),
    ensures
        n1.len() == n2.len(),
        n1[i] is Some <==> n2[i] is Some,
        n1[i] is Some ==> norm_path(n1[i]->0@) == norm_path(n2[i]->0@),
{
    let g = |o: Option<String>| norm_opt(opt_str(o));
    assert(n1.map_values(g).len() == n2.map_values(g).len());
    assert(n1.map_values(g)[i] == n2.map_values(g)[i]);
}

proof fn lemma_region_of_congr(
    n1: Seq<Option<String>>,
    n2: Seq<Option<String>>,
    a: Option<Vec<JsonItem>>,
    b: Option<Vec<JsonItem>>,
)
    requires
        same_names(n1, n2),
        item_row_view(a) == item_row_view(b),
    ensures
        region_of(n1, a) == region_of(n2, b),
{
    let g = |o: Option<String>| norm_opt(opt_str(o));
    assert(n1.map_values(g).len() == n2.map_values(g).len());
    lemma_row_congr(a, b);
    match a {
        Some(v) => {
            let w = b->0;
            assert(v@ == w@);
            let x = v@;
            let fid = match item_u64(x, 5) {
                Some(z) => z as usize,
                None => 0,
            };
            if fid < n1.len() {
                lemma_same_names_at(n1, n2, fid as int);
            }
        },
        None => {},
    }
}

proof fn lemma_regions_at_congr(
    n1: Seq<Option<String>>,
    n2: Seq<Option<String>>,
    r1: Seq<Option<Vec<JsonItem>>>,
    r2: Seq<Option<Vec<JsonItem>>>,
    key: Seq<char>,
    q: usize,
)
    requires
        same_names(n1, n2),
        same_rows(r1, r2),
    ensures
        regions_at(n1, r1, key, q) == regions_at(n2, r2, key, q),
    decreases r1.len(),
{
    let f = |o: Option<Vec<JsonItem>>| item_row_view(o);
    assert(r1.map_values(f).len() == r2.map_values(f).len());
    if r1.len() > 0 {
        assert(r1.drop_last().map_values(f) =~= r1.map_values(f).drop_last());
        assert(r2.drop_last().map_values(f) =~= r2.map_values(f).drop_last());
        lemma_regions_at_congr(n1, n2, r1.drop_last(), r2.drop_last(), key, q);
        assert(r1.map_values(f)[r1.len() - 1] == r2.map_values(f)[r1.len() - 1]);
        lemma_region_of_congr(n1, n2, r1.last(), r2.last());
    }
}

proof fn lemma_function_congr(a: CovFunction, b: CovFunction)
    requires
        function_norm(function_view(a)) == function_norm(function_view(b)),
    ensures
        same_names(function_names(a), function_names(b)),
        same_rows(function_regions(a), function_regions(b)),
        opt_str(a.name) == opt_str(b.name),
        a.count == b.count,
{
    let g = |o: Option<String>| norm_opt(opt_str(o));
    let h = |o: Option<Seq<char>>| norm_opt(o);
    let k = |o: Option<String>| opt_str(o);
    match (a.filenames, b.filenames) {
        (Some(x), Some(y)) => {
            assert(x@.map_values(g) =~= x@.map_values(k).map_values(h));
            assert(y@.map_values(g) =~= y@.map_values(k).map_values(h));
        },
        _ => {},
    }
}

proof fn lemma_same_functions_at(f1: Seq<CovFunction>, f2: Seq<CovFunction>, i: int)
    requires
        same_functions(f1, f2),
        0 <= i < f1.len(),
    ensures
        f1.len() == f2.len(),
        function_norm(function_view(f1[i])) == function_norm(function_view(f2[i])),
{
    let f = |x: CovFunction| function_norm(function_view(x));
    assert(f1.map_values(f).len() == f2.map_values(f).len());
    assert(f1.map_values(f)[i] == f2.map_values(f)[i]);
}

proof fn lemma_region_count_congr(
    f1: Seq<CovFunction>,
    f2: Seq<CovFunction>,
    key: Seq<char>,
    q: usize,
)
    requires
        same_functions(f1, f2),
    ensures
        region_count(f1, key, q) == region_count(f2, key, q),
    decreases f1.len(),
{
    let f = |x: CovFunction| function_norm(function_view(x));
    assert(f1.map_values(f).len() == f2.map_values(f).len());
    if f1.len() > 0 {
        assert(f1.drop_last().map_values(f) =~= f1.map_values(f).drop_last());
        assert(f2.drop_last().map_values(f) =~= f2.map_values(f).drop_last());
        lemma_region_count_congr(f1.drop_last(), f2.drop_last(), key, q);
        lemma_same_functions_at(f1, f2, f1.len() - 1);
        lemma_function_congr(f1.last(), f2.last());
        lemma_regions_at_congr(
            function_names(f1.last()),
            function_names(f2.last()),
            function_regions(f1.last()),
            function_regions(f2.last()),
            key,
            q,
        );
    }
}

proof fn lemma_region_hits_congr(
    f1: Seq<CovFunction>,
    f2: Seq<CovFunction>,
    key: Seq<char>,
    start: usize,
    end: nat,
)
    requires
        same_functions(f1, f2),
    ensures
        region_hits(f1, key, start, end) == region_hits(f2, key, start, end),
    decreases end,
{
    if end > start {
        lemma_region_hits_congr(f1, f2, key, start, (end - 1) as nat);
        lemma_region_count_congr(f1, f2, key, (end - 1) as usize);
    }
}

proof fn lemma_symbol_called_congr(
    f1: Seq<CovFunction>,
    f2: Seq<CovFunction>,
    sym: Seq<char>,
    key: Seq<char>,
)
    requires
        same_functions(f1, f2),
    ensures
        symbol_called(f1, sym, key) == symbol_called(f2, sym, key),
    decreases f1.len(),
{
    let f = |x: CovFunction| function_norm(function_view(x));
    assert(f1.map_values(f).len() == f2.map_values(f).len());
    if f1.len() > 0 {
        assert(f1.drop_first().map_values(f) =~= f1.map_values(f).drop_first());
        assert(f2.drop_first().map_values(f) =~= f2.map_values(f).drop_first());
        lemma_symbol_called_congr(f1.drop_first(), f2.drop_first(), sym, key);
        lemma_same_functions_at(f1, f2, 0);
        lemma_function_congr(f1[0], f2[0]);
        let n1 = function_names(f1[0]);
        let n2 = function_names(f2[0]);
        let g = |o: Option<String>| norm_opt(opt_str(o));
        assert(n1.map_values(g).len() == n2.map_values(g).len());
        let in1 = exists|i: int|
            0 <= i < n1.len() && #[trigger] n1[i] is Some && norm_path(n1[i]->0@) == key;
        let in2 = exists|i: int|
            0 <= i < n2.len() && #[trigger] n2[i] is Some && norm_path(n2[i]->0@) == key;
        if in1 {
            let i = choose|i: int| 0 <= i < n1.len() && #[trigger] n1[i] is Some && norm_path(n1[i]->0@) == key;
            lemma_same_names_at(n1, n2, i);
            assert(n2[i] is Some && norm_path(n2[i]->0@) == key);
        }
        if in2 {
            let i = choose|i: int| 0 <= i < n2.len() && #[trigger] n2[i] is Some && norm_path(n2[i]->0@) == key;
            lemma_same_names_at(n1, n2, i);
            assert(n1[i] is Some && norm_path(n1[i]->0@) == key);
        }
        assert(in1 == in2);
    }
}

proof fn lemma_data_norm(c: CovData)
    ensures
        data_files(c).map_values(|f: CovFile| file_norm(file_view(f))) == match cov_norm(
            cov_view(c),
        ).0 {
            Some(s) => s,
            None => seq![],
        },
        data_functions(c).map_values(|f: CovFunction| function_norm(function_view(f))) == match cov_norm(
            cov_view(c),
        ).1 {
            Some(s) => s,
            None => seq![],
        },
{
    let a = |f: CovFile| file_norm(file_view(f));
    let b = |f: CovFunction| function_norm(function_view(f));
    match c.files {
        Some(v) => {
            assert(v@.map_values(a) =~= v@.map_values(|f: CovFile| file_view(f)).map_values(
                |f: FileView| file_norm(f),
            ));
        },
        None => {
            assert(data_files(c).map_values(a) =~= seq![]);
        },
    }
    match c.functions {
        Some(v) => {
            assert(v@.map_values(b) =~= v@.map_values(|f: CovFunction| function_view(f)).map_values(
                |f: FunctionView| function_norm(f),
            ));
        },
        None => {
            assert(data_functions(c).map_values(b) =~= seq![]);
        },
    }
}

/// Reports whose data agree once backslashes in file names are read as
/// forward slashes score every list of code references alike: how a report
/// writes path separators does not change the scores.
pub proof fn law_coverage_scores_up_to_separators(c1: CovData, c2: CovData, refs: Seq<CodeRef>)
    requires
        cov_norm(cov_view(c1)) == cov_norm(cov_view(c2)),
    ensures
        coverage_scores(c1, refs) == coverage_scores(c2, refs),
    decreases refs.len(),
{
    lemma_data_norm(c1);
    lemma_data_norm(c2);
    assert(same_files(data_files(c1), data_files(c2)));
    assert(same_functions(data_functions(c1), data_functions(c2)));
    if refs.len() > 0 {
        law_coverage_scores_up_to_separators(c1, c2, refs.drop_last());
        let cr = refs.last();
        let key = norm_path(cr.file@);
        let f1 = data_files(c1);
        let f2 = data_files(c2);
        let g1 = data_functions(c1);
        let g2 = data_functions(c2);
        lemma_has_segments_congr(f1, f2, key);
        lemma_region_count_congr(g1, g2, key, cr.line);
        lemma_segment_hits_congr(f1, f2, key, cr.line, ref_end(cr));
        lemma_region_hits_congr(g1, g2, key, cr.line, ref_end(cr));
        match cr.symbol {
            Some(s) => lemma_symbol_called_congr(g1, g2, s@, key),
            None => {},
        }
        assert(ref_score(c1, cr) == ref_score(c2, cr));
    }
}

/// The line coverage scores depend on the report data only through its
/// plain values: two reports with the same plain values score every list of
/// code references alike.
pub proof fn law_coverage_scores_by_value(c1: CovData, c2: CovData, refs: Seq<CodeRef>)
    requires
        cov_view(c1) == cov_view(c2),
    ensures
        coverage_scores(c1, refs) == coverage_scores(c2, refs),
{
    law_coverage_scores_up_to_separators(c1, c2, refs);
}

/// Two lists of mutant records with the same plain values.
pub open spec fn same_mutants(r1: Seq<MutantRecord>, r2: Seq<MutantRecord>) -> bool {
    r1.map_values(|m: MutantRecord| mutant_view(m)) == r2.map_values(|m: MutantRecord| mutant_view(m))
}

proof fn lemma_mutant_congr(refs: Seq<CodeRef>, id: Seq<char>, a: MutantRecord, b: MutantRecord)
    requires
        mutant_view(a) == mutant_view(b),
    ensures
        hits(refs, id, a) == hits(refs, id, b),
        held(refs, a) == held(refs, b),
{
    assert(holder_pred(id, a) =~= holder_pred(id, b));
    assert forall|j: int| 0 <= j < refs.len() implies holds(refs[j], a) == holds(refs[j], b) by {}
}

proof fn lemma_same_mutants_split(r1: Seq<MutantRecord>, r2: Seq<MutantRecord>)
    requires
        same_mutants(r1, r2),
        r1.len() > 0,
    ensures
        r1.len() == r2.len(),
        same_mutants(r1.drop_last(), r2.drop_last()),
        mutant_view(r1.last()) == mutant_view(r2.last()),
{
    let f = |m: MutantRecord| mutant_view(m);
    assert(r1.map_values(f).len() == r2.map_values(f).len());
    assert(r1.drop_last().map_values(f) =~= r1.map_values(f).drop_last());
    assert(r2.drop_last().map_values(f) =~= r2.map_values(f).drop_last());
    assert(r1.map_values(f)[r1.len() - 1] == r2.map_values(f)[r1.len() - 1]);
}

proof fn lemma_hit_sum_congr(
    r1: Seq<MutantRecord>,
    r2: Seq<MutantRecord>,
    refs: Seq<CodeRef>,
    id: Seq<char>,
    outcome: Option<Seq<char>>,
)
    requires
        same_mutants(r1, r2),
    ensures
        hit_sum(r1, refs, id, outcome) == hit_sum(r2, refs, id, outcome),
    decreases r1.len(),
{
    let f = |m: MutantRecord| mutant_view(m);
    assert(r1.map_values(f).len() == r2.map_values(f).len());
    if r1.len() > 0 {
        lemma_same_mutants_split(r1, r2);
        lemma_hit_sum_congr(r1.drop_last(), r2.drop_last(), refs, id, outcome);
        lemma_mutant_congr(refs, id, r1.last(), r2.last());
    }
}

proof fn lemma_scores_for_congr(
    ids: Seq<Seq<char>>,
    r1: Seq<MutantRecord>,
    r2: Seq<MutantRecord>,
    refs: Seq<CodeRef>,
)
    requires
        same_mutants(r1, r2),
    ensures
        scores_for(ids, r1, refs) == scores_for(ids, r2, refs),
    decreases ids.len(),
{
    if ids.len() > 0 {
        lemma_scores_for_congr(ids.drop_last(), r1, r2, refs);
        let id = ids.last();
        lemma_hit_sum_congr(r1, r2, refs, id, None);
        lemma_hit_sum_congr(r1, r2, refs, id, Some("Caught"@));
        lemma_hit_sum_congr(r1, r2, refs, id, Some("Missed"@));
    }
}

proof fn lemma_untagged_congr(r1: Seq<MutantRecord>, r2: Seq<MutantRecord>, refs: Seq<CodeRef>)
    requires
        same_mutants(r1, r2),
    ensures
        r1.filter(untagged_pred(refs)).len() == r2.filter(untagged_pred(refs)).len(),
    decreases r1.len(),
{
    let f = |m: MutantRecord| mutant_view(m);
    assert(r1.map_values(f).len() == r2.map_values(f).len());
    if r1.len() > 0 {
        lemma_same_mutants_split(r1, r2);
        lemma_untagged_congr(r1.drop_last(), r2.drop_last(), refs);
        lemma_mutant_congr(refs, seq![], r1.last(), r2.last());
        assert(r1.drop_last().push(r1.last()) =~= r1);
        assert(r2.drop_last().push(r2.last()) =~= r2);
        r1.drop_last().lemma_filter_push(r1.last(), untagged_pred(refs));
        r2.drop_last().lemma_filter_push(r2.last(), untagged_pred(refs));
    }
}

/// The mutation report depends on the mutant records only through their
/// plain values: two lists of records with the same plain values give the
/// same scores and the same number of untagged mutants.
pub proof fn law_mutation_report_by_value(
    r1: Seq<MutantRecord>,
    r2: Seq<MutantRecord>,
    refs: Seq<CodeRef>,
)
    requires
        same_mutants(r1, r2),
    ensures
        scores_for(distinct_ids(refs), r1, refs) == scores_for(distinct_ids(refs), r2, refs),
        r1.filter(untagged_pred(refs)).len() == r2.filter(untagged_pred(refs)).len(),
{
    lemma_scores_for_congr(distinct_ids(refs), r1, r2, refs);
    lemma_untagged_congr(r1, r2, refs);
}

} // verus!
