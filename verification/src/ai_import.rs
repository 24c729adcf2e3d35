//! Import of AI-generated requirement suggestions with safety rules:
//! every imported requirement is a draft, duplicate ids are rejected, an
//! LLR needs a parent and the parent must exist.

use vstd::prelude::*;
use crate::models::{
    next_id_fits_in, next_id_in, parse_type, split_dash, split_dash_chars, Requirement,
    RequirementStatus, RequirementType,
};
use crate::sorting::views;
use crate::text::{all_ascii_digits, chars_eq_str, chars_of, is_ascii_digit, push_str, string_of};
use crate::trace::contains_string;

verus! {

/// A single AI-generated requirement suggestion.
#[derive(Debug)]
pub struct AiSuggestion {
    /// Optional suggested ID — validated if provided
    pub id: Option<String>,
    /// Requirement type (hlr, llr, tst)
    pub req_type: String,
    /// Requirement title
    pub title: String,
    /// Requirement text/description
    pub text: String,
    /// Parent requirement ID (required for LLR)
    pub parent: Option<String>,
    /// Rationale for the suggestion (stored as attribute)
    pub rationale: Option<String>,
}

/// A batch of AI suggestions.
#[derive(Debug)]
pub struct AiSuggestions {
    /// Source/model identifier (stored as provenance on each requirement)
    pub source: Option<String>,
    /// Generation timestamp
    pub generated_at: Option<String>,
    /// The suggestions
    pub suggestions: Vec<AiSuggestion>,
}

/// Result of importing AI suggestions.
#[derive(Debug)]
pub struct ImportResult {
    /// Successfully imported requirements (all forced to `draft`)
    pub imported: Vec<Requirement>,
    /// Skipped items: (id, reason)
    pub skipped: Vec<(String, String)>,
    /// Errors encountered
    pub errors: Vec<String>,
}

/// Options controlling the import behaviour.
#[derive(Debug)]
pub struct ImportOptions {
    /// If true, validate but do not write to cache or disk
    pub dry_run: bool,
    /// Origin identifier stored as `provenance` attribute
    pub provenance: Option<String>,
    /// Path of the source file being imported (used for staleness tracking)
    pub source_path: Option<String>,
}

impl Default for ImportOptions {
    /// Not a dry run, no provenance, no source path.
    fn default() -> (o: Self)
        ensures
            !o.dry_run,
            o.provenance is None,
            o.source_path is None,
    {
        ImportOptions { dry_run: false, provenance: None, source_path: None }
    }
}

impl Default for ImportResult {
    /// Nothing imported, skipped or rejected.
    fn default() -> (r: Self)
        ensures
            r.imported@.len() == 0,
            r.skipped@.len() == 0,
            r.errors@.len() == 0,
    {
        ImportResult { imported: Vec::new(), skipped: Vec::new(), errors: Vec::new() }
    }
}

/// An id has the form `HLR-`, `LLR-` or `TST-` followed by ASCII digits
/// only, with no further `-`.
pub open spec fn valid_id_format(id: Seq<char>) -> bool {
    let parts = split_dash(id);
    parts.len() == 2 && (parts[0] == "HLR"@ || parts[0] == "LLR"@ || parts[0] == "TST"@)
        && all_ascii_digits(parts[1])
}

/// What happens to one suggestion.
pub enum ImportOutcome {
    /// Imported under this id and type
    Imported { id: Seq<char>, req_type: RequirementType },
    /// Skipped, with the id and the reason
    Skipped { id: Seq<char>, reason: Seq<char> },
    /// Rejected with an error message
    Failed { message: Seq<char> },
}

/// `'text'`.
pub open spec fn quoted(s: Seq<char>) -> Seq<char> {
    "'"@ + s + "'"@
}

/// The outcome of a suggestion against the existing ids and the ids taken
/// so far (the existing ones and those imported earlier in the batch): a
/// suggested id must be new among the taken ids, a generated id follows
/// them, and a parent must exist already.
pub open spec fn outcome_of(s: AiSuggestion, existing: Seq<String>, taken: Seq<Seq<char>>) -> ImportOutcome {
    match parse_type(s.req_type@) {
        None => ImportOutcome::Failed {
            message: "Invalid type "@ + quoted(s.req_type@) + " for "@ + quoted(s.title@),
        },
        Some(t) => {
            let chosen: Result<Seq<char>, ImportOutcome> = match s.id {
                Some(p) => if !valid_id_format(p@) {
                    Err(ImportOutcome::Failed { message: "Invalid ID format: "@ + quoted(p@) })
                } else if taken.contains(p@) {
                    Err(ImportOutcome::Skipped { id: p@, reason: "ID already exists"@ })
                } else {
                    Ok(p@)
                },
                None => Ok(next_id_in(t, taken)),
            };
            match chosen {
                Err(o) => o,
                Ok(id) => if t == RequirementType::Llr {
                    match s.parent {
                        Some(pid) => if !views(existing).contains(pid@) {
                            ImportOutcome::Failed {
                                message: "Parent "@ + quoted(pid@) + " not found for "@ + quoted(
                                    s.title@,
                                ),
                            }
                        } else {
                            ImportOutcome::Imported { id, req_type: t }
                        },
                        None => ImportOutcome::Skipped {
                            id,
                            reason: "LLR without parent \u{2014} specify parent HLR"@,
                        },
                    }
                } else {
                    ImportOutcome::Imported { id, req_type: t }
                },
            }
        },
    }
}

/// The ids taken after the suggestions: the existing ids, then each
/// imported id in order.
pub open spec fn taken_after(sugs: Seq<AiSuggestion>, existing: Seq<String>) -> Seq<Seq<char>>
    decreases sugs.len(),
{
    if sugs.len() == 0 {
        views(existing)
    } else {
        let prev = taken_after(sugs.drop_last(), existing);
        match outcome_of(sugs.last(), existing, prev) {
            ImportOutcome::Imported { id, req_type } => prev.push(id),
            _ => prev,
        }
    }
}

/// The outcome of the last suggestion, after those before it.
pub open spec fn last_outcome(sugs: Seq<AiSuggestion>, existing: Seq<String>) -> ImportOutcome {
    outcome_of(sugs.last(), existing, taken_after(sugs.drop_last(), existing))
}

/// An imported requirement as plain values: id, type, title, text, status,
/// parent, aliases, attributes, source file.
pub type ImportedView = (
    Seq<char>,
    RequirementType,
    Seq<char>,
    Seq<char>,
    RequirementStatus,
    Option<Seq<char>>,
    Seq<String>,
    Map<Seq<char>, Seq<char>>,
    Option<Seq<char>>,
);

/// The plain values of a requirement.
pub open spec fn imported_view(r: Requirement) -> ImportedView {
    (
        r.id@,
        r.req_type,
        r.title@,
        r.text@,
        r.status,
        match r.parent {
            Some(p) => Some(p@),
            None => None,
        },
        r.aliases@,
        r.attributes.map(),
        match r.source_file {
            Some(f) => Some(f@),
            None => None,
        },
    )
}

/// The attributes of an imported suggestion: `source: ai-suggestion`, then
/// `provenance` and `ai_rationale` when present.
pub open spec fn import_attributes(s: AiSuggestion, provenance: Option<Seq<char>>) -> Map<
    Seq<char>,
    Seq<char>,
> {
    let a = Map::<Seq<char>, Seq<char>>::empty().insert("source"@, "ai-suggestion"@);
    let b = match provenance {
        Some(p) => a.insert("provenance"@, p),
        None => a,
    };
    match s.rationale {
        Some(r) => b.insert("ai_rationale"@, r@),
        None => b,
    }
}

/// The requirement imported from a suggestion: a draft with its id, type,
/// title, text and parent, and the import attributes.
pub open spec fn imported_from(
    s: AiSuggestion,
    id: Seq<char>,
    t: RequirementType,
    provenance: Option<Seq<char>>,
) -> ImportedView {
    (
        id,
        t,
        s.title@,
        s.text@,
        RequirementStatus::Draft,
        match s.parent {
            Some(p) => Some(p@),
            None => None,
        },
        Seq::<String>::empty(),
        import_attributes(s, provenance),
        None,
    )
}

/// The requirements imported from the suggestions, in order.
pub open spec fn imported_list(
    sugs: Seq<AiSuggestion>,
    existing: Seq<String>,
    provenance: Option<Seq<char>>,
) -> Seq<ImportedView>
    decreases sugs.len(),
{
    if sugs.len() == 0 {
        seq![]
    } else {
        let prev = imported_list(sugs.drop_last(), existing, provenance);
        let s = sugs.last();
        match last_outcome(sugs, existing) {
            ImportOutcome::Imported { id, req_type } => prev.push(
                imported_from(s, id, req_type, provenance),
            ),
            _ => prev,
        }
    }
}

/// The skipped suggestions (id, reason), in order.
pub open spec fn skipped_list(sugs: Seq<AiSuggestion>, existing: Seq<String>) -> Seq<
    (Seq<char>, Seq<char>),
>
    decreases sugs.len(),
{
    if sugs.len() == 0 {
        seq![]
    } else {
        let prev = skipped_list(sugs.drop_last(), existing);
        match last_outcome(sugs, existing) {
            ImportOutcome::Skipped { id, reason } => prev.push((id, reason)),
            _ => prev,
        }
    }
}

/// The error messages, in order.
pub open spec fn error_list(sugs: Seq<AiSuggestion>, existing: Seq<String>) -> Seq<Seq<char>>
    decreases sugs.len(),
{
    if sugs.len() == 0 {
        seq![]
    } else {
        let prev = error_list(sugs.drop_last(), existing);
        match last_outcome(sugs, existing) {
            ImportOutcome::Failed { message } => prev.push(message),
            _ => prev,
        }
    }
}

/// Every suggestion that needs a generated id can get one: the next number
/// after the ids taken before it fits a `u32`.
pub open spec fn ids_available(sugs: Seq<AiSuggestion>, existing: Seq<String>) -> bool {
    forall|i: int|
        0 <= i < sugs.len() && #[trigger] sugs[i].id is None && parse_type(sugs[i].req_type@)
            is Some ==> next_id_fits_in(
            parse_type(sugs[i].req_type@)->0,
            taken_after(sugs.take(i), existing),
        )
}

/// The provenance recorded on imported requirements: the option's, else the
/// batch source.
pub open spec fn import_provenance(sugs: AiSuggestions, options: ImportOptions) -> Option<Seq<char>> {
    match options.provenance {
        Some(p) => Some(p@),
        None => match sugs.source {
            Some(s) => Some(s@),
            None => None,
        },
    }
}

/// An id of the form `HLR-`, `LLR-` or `TST-` followed by ASCII digits.
pub fn is_valid_id_format(id: &str) -> (b: bool)
    ensures
        b == valid_id_format(id@),
{
    let c = chars_of(id);
    let parts = split_dash_chars(c.as_slice());
    if parts.len() != 2 {
        return false;
    }
    assert(parts@[0]@ == split_dash(id@)[0]);
    assert(parts@[1]@ == split_dash(id@)[1]);
    let p0 = parts[0].as_slice();
    if !(chars_eq_str(p0, "HLR") || chars_eq_str(p0, "LLR") || chars_eq_str(p0, "TST")) {
        return false;
    }
    let p1 = parts[1].as_slice();
    let mut i: usize = 0;
    while i < p1.len()
        invariant
            i <= p1@.len(),
            p1@ == split_dash(id@)[1],
            forall|j: int| 0 <= j < i ==> is_ascii_digit(#[trigger] p1@[j]),
        decreases p1.len() - i,
    {
        if !(p1[i] >= '0' && p1[i] <= '9') {
            assert(!is_ascii_digit(p1@[i as int]));
            assert(!all_ascii_digits(split_dash(id@)[1]));
            return false;
        }
        i = i + 1;
    }
    true
}

fn quote_text(w: &mut Vec<char>, s: &str)
    ensures
        final(w)@ == old(w)@ + quoted(s@),
{
    push_str(w, "'");
    push_str(w, s);
    push_str(w, "'");
}

/// The message `Invalid type '<type>' for '<title>'`.
fn invalid_type_message(t: &String, title: &String) -> (m: String)
    ensures
        m@ == "Invalid type "@ + quoted(t@) + " for "@ + quoted(title@),
{
    let mut w: Vec<char> = Vec::new();
    push_str(&mut w, "Invalid type ");
    quote_text(&mut w, t.as_str());
    push_str(&mut w, " for ");
    quote_text(&mut w, title.as_str());
    string_of(w.as_slice())
}

/// The message `Invalid ID format: '<id>'`.
fn invalid_id_message(id: &String) -> (m: String)
    ensures
        m@ == "Invalid ID format: "@ + quoted(id@),
{
    let mut w: Vec<char> = Vec::new();
    push_str(&mut w, "Invalid ID format: ");
    quote_text(&mut w, id.as_str());
    string_of(w.as_slice())
}

/// The message `Parent '<id>' not found for '<title>'`.
fn missing_parent_message(pid: &String, title: &String) -> (m: String)
    ensures
        m@ == "Parent "@ + quoted(pid@) + " not found for "@ + quoted(title@),
{
    let mut w: Vec<char> = Vec::new();
    push_str(&mut w, "Parent ");
    quote_text(&mut w, pid.as_str());
    push_str(&mut w, " not found for ");
    quote_text(&mut w, title.as_str());
    string_of(w.as_slice())
}

/// The exec outcome of one suggestion.
enum Step {
    Imported(Requirement),
    Skipped(String, String),
    Failed(String),
}

fn import_one(
    s: &AiSuggestion,
    existing: &[String],
    taken: &[String],
    provenance: &Option<String>,
) -> (r: Step)
    requires
        s.id is None && parse_type(s.req_type@) is Some ==> next_id_fits_in(
            parse_type(s.req_type@)->0,
            views(taken@),
        ),
    ensures
        match outcome_of(*s, existing@, views(taken@)) {
            ImportOutcome::Imported { id, req_type } => r matches Step::Imported(q)
                && imported_view(q) == imported_from(
                *s,
                id,
                req_type,
                match provenance {
                    Some(p) => Some(p@),
                    None => None,
                },
            ),
            ImportOutcome::Skipped { id, reason } => r matches Step::Skipped(a, b) && a@ == id
                && b@ == reason,
            ImportOutcome::Failed { message } => r matches Step::Failed(m) && m@ == message,
        },
{
    let t = match RequirementType::from_str(s.req_type.as_str()) {
        Some(t) => t,
        None => {
            return Step::Failed(invalid_type_message(&s.req_type, &s.title));
        },
    };
    let id = match &s.id {
        Some(p) => {
            if !is_valid_id_format(p.as_str()) {
                return Step::Failed(invalid_id_message(p));
            }
            if contains_string(taken, p) {
                return Step::Skipped(p.clone(), "ID already exists".to_owned());
            }
            p.clone()
        },
        None => Requirement::generate_id(t, taken),
    };
    if t == RequirementType::Llr {
        match &s.parent {
            Some(pid) => {
                if !contains_string(existing, pid) {
                    return Step::Failed(missing_parent_message(pid, &s.title));
                }
            },
            None => {
                return Step::Skipped(id, "LLR without parent \u{2014} specify parent HLR".to_owned());
            },
        }
    }
    let mut req = Requirement::new(id, t, s.title.clone());
    req.text = s.text.clone();
    req.parent = match &s.parent {
        Some(p) => Some(p.clone()),
        None => None,
    };
    req.status = RequirementStatus::Draft;
    req.attributes.insert("source".to_owned(), "ai-suggestion".to_owned());
    match provenance {
        Some(p) => {
            req.attributes.insert("provenance".to_owned(), p.clone());
        },
        None => {},
    }
    match &s.rationale {
        Some(r) => {
            req.attributes.insert("ai_rationale".to_owned(), r.clone());
        },
        None => {},
    }
    Step::Imported(req)
}

/// A copy of a list of strings.
fn copy_strings(v: &[String]) -> (r: Vec<String>)
    ensures
        views(r@) == views(v@),
{
    let mut r: Vec<String> = Vec::new();
    let mut k: usize = 0;
    while k < v.len()
        invariant
            k <= v@.len(),
            views(r@) == views(v@).take(k as int),
        decreases v.len() - k,
    {
        let c = v[k].clone();
        let ghost before = views(r@);
        r.push(c);
        assert(views(r@) =~= before.push(v@[k as int]@));
        assert(views(v@).take(k + 1) =~= views(v@).take(k as int).push(v@[k as int]@));
        k = k + 1;
    }
    assert(views(v@).take(k as int) =~= views(v@));
    r
}

/// The ids of requirements, in order.
pub open spec fn ids_of(reqs: Seq<Requirement>) -> Seq<Seq<char>> {
    reqs.map_values(|q: Requirement| q.id@)
}

/// Whether every suggestion that needs a generated id can get one
/// (`ids_available`).
pub fn generated_ids_fit(suggestions: &AiSuggestions, existing_ids: &[String]) -> (b: bool)
    ensures
        b == ids_available(suggestions.suggestions@, existing_ids@),
{
    let sugs = &suggestions.suggestions;
    let none: Option<String> = None;
    let mut taken = copy_strings(existing_ids);
    let mut i: usize = 0;
    assert(sugs@.take(0) =~= Seq::<AiSuggestion>::empty());
    while i < sugs.len()
        invariant
            i <= sugs@.len(),
            sugs@ == suggestions.suggestions@,
            views(taken@) == taken_after(sugs@.take(i as int), existing_ids@),
            forall|j: int|
                0 <= j < i && #[trigger] sugs@[j].id is None && parse_type(sugs@[j].req_type@)
                    is Some ==> next_id_fits_in(
                    parse_type(sugs@[j].req_type@)->0,
                    taken_after(sugs@.take(j), existing_ids@),
                ),
        decreases sugs.len() - i,
    {
        let s = &sugs[i];
        if s.id.is_none() {
            match RequirementType::from_str(s.req_type.as_str()) {
                Some(t) => {
                    if !Requirement::can_generate_id(t, taken.as_slice()) {
                        proof {
                            assert(sugs@[i as int] == *s);
                            assert(parse_type(sugs@[i as int].req_type@) == Some(t));
                            assert(!next_id_fits_in(t, taken_after(sugs@.take(i as int), existing_ids@)));
                            assert(sugs@[i as int].id is None);
                            assert(!ids_available(sugs@, existing_ids@));
                        }
                        return false;
                    }
                },
                None => {},
            }
        }
        proof {
            let t = sugs@.take(i + 1);
            assert(t.drop_last() =~= sugs@.take(i as int));
            assert(t.last() == *s);
        }
        let ghost before = views(taken@);
        match import_one(s, existing_ids, taken.as_slice(), &none) {
            Step::Imported(q) => {
                let c = q.id.clone();
                taken.push(c);
                assert(views(taken@) =~= before.push(q.id@));
            },
            _ => {},
        }
        i = i + 1;
    }
    assert(sugs@.take(i as int) =~= sugs@);
    true
}

/// Import AI suggestions against the ids that already exist: a suggestion
/// with an unknown type or a malformed id is an error; one whose id exists,
/// or was imported earlier in the batch, is skipped; one without an id gets
/// the next id after those taken so far; an LLR needs an existing parent
/// (else an error) and a parent at all (else skipped).  Every imported
/// requirement is a draft with the attribute `source: ai-suggestion`, the
/// provenance (the option's, else the batch source) and the rationale; no
/// two have the same id, and none has an id that existed before.
pub fn import_suggestions(
    suggestions: AiSuggestions,
    existing_ids: &[String],
    options: &ImportOptions,
) -> (r: ImportResult)
    requires
        ids_available(suggestions.suggestions@, existing_ids@),
    ensures
        r.imported@.map_values(|q: Requirement| imported_view(q)) == imported_list(
            suggestions.suggestions@,
            existing_ids@,
            import_provenance(suggestions, *options),
        ),
        r.skipped@.map_values(|p: (String, String)| (p.0@, p.1@)) == skipped_list(
            suggestions.suggestions@,
            existing_ids@,
        ),
        views(r.errors@) == error_list(suggestions.suggestions@, existing_ids@),
        forall|a: int, b: int|
            0 <= a < b < r.imported@.len() ==> r.imported@[a].id@ != r.imported@[b].id@,
        forall|a: int|
            0 <= a < r.imported@.len() ==> !views(existing_ids@).contains(
                #[trigger] r.imported@[a].id@,
            ),
{
    let provenance: Option<String> = match &options.provenance {
        Some(p) => Some(p.clone()),
        None => match &suggestions.source {
            Some(s) => Some(s.clone()),
            None => None,
        },
    };
    let ghost prov = import_provenance(suggestions, *options);
    assert(prov == match provenance {
        Some(p) => Some(p@),
        None => None,
    });
    let sugs = &suggestions.suggestions;
    let mut taken = copy_strings(existing_ids);
    let mut imported: Vec<Requirement> = Vec::new();
    let mut skipped: Vec<(String, String)> = Vec::new();
    let mut errors: Vec<String> = Vec::new();
    let mut i: usize = 0;
    assert(sugs@.take(0) =~= Seq::<AiSuggestion>::empty());
    assert(imported@.map_values(|q: Requirement| imported_view(q)) =~= imported_list(sugs@.take(0), existing_ids@, prov));
    assert(skipped@.map_values(|p: (String, String)| (p.0@, p.1@)) =~= skipped_list(sugs@.take(0), existing_ids@));
    assert(views(errors@) =~= error_list(sugs@.take(0), existing_ids@));
    assert(views(taken@) =~= views(existing_ids@) + ids_of(imported@));
    while i < sugs.len()
        invariant
            i <= sugs@.len(),
            ids_available(sugs@, existing_ids@),
            prov == match provenance {
                Some(p) => Some(p@),
                None => None,
            },
            views(taken@) == taken_after(sugs@.take(i as int), existing_ids@),
            views(taken@) == views(existing_ids@) + ids_of(imported@),
            forall|a: int, b: int|
                0 <= a < b < imported@.len() ==> imported@[a].id@ != imported@[b].id@,
            forall|a: int|
                0 <= a < imported@.len() ==> !views(existing_ids@).contains(
                    #[trigger] imported@[a].id@,
                ),
            imported@.map_values(|q: Requirement| imported_view(q)) == imported_list(
                sugs@.take(i as int),
                existing_ids@,
                prov,
            ),
            skipped@.map_values(|p: (String, String)| (p.0@, p.1@)) == skipped_list(
                sugs@.take(i as int),
                existing_ids@,
            ),
            views(errors@) == error_list(sugs@.take(i as int), existing_ids@),
        decreases sugs.len() - i,
    {
        let s = &sugs[i];
        proof {
            let t = sugs@.take(i + 1);
            assert(t.drop_last() =~= sugs@.take(i as int));
            assert(t.last() == *s);
            assert(sugs@.take(i as int) == sugs@.take(i as int));
            assert(sugs@[i as int].id is None && parse_type(sugs@[i as int].req_type@) is Some
                ==> next_id_fits_in(
                parse_type(sugs@[i as int].req_type@)->0,
                taken_after(sugs@.take(i as int), existing_ids@),
            ));
        }
        let ghost i0 = imported@.map_values(|q: Requirement| imported_view(q));
        let ghost s0 = skipped@.map_values(|p: (String, String)| (p.0@, p.1@));
        let ghost e0 = views(errors@);
        let ghost tk0 = views(taken@);
        let ghost im0 = imported@;
        match import_one(s, existing_ids, taken.as_slice(), &provenance) {
            Step::Imported(q) => {
                proof {
                    let t = parse_type(s.req_type@)->0;
                    if s.id is None {
                        crate::laws::lemma_next_id_in_new(t, tk0);
                    }
                    assert(!tk0.contains(q.id@));
                    assert forall|a: int| 0 <= a < im0.len() implies im0[a].id@ != q.id@ by {
                        assert(tk0[views(existing_ids@).len() + a] == im0[a].id@);
                    }
                    assert forall|x: Seq<char>| views(existing_ids@).contains(x) implies x != q.id@ by {
                        let k = choose|k: int| 0 <= k < views(existing_ids@).len() && views(existing_ids@)[k] == x;
                        assert(tk0[k] == x);
                    }
                }
                let c = q.id.clone();
                taken.push(c);
                imported.push(q);
                assert(imported@ == im0.push(q));
                assert(ids_of(imported@) =~= ids_of(im0).push(q.id@));
                assert(views(taken@) =~= tk0.push(q.id@));
                assert(imported@.map_values(|q: Requirement| imported_view(q)) =~= i0.push(imported_view(q)));
                assert(skipped@.map_values(|p: (String, String)| (p.0@, p.1@)) == s0);
                assert(views(errors@) == e0);
            },
            Step::Skipped(a, b) => {
                let ghost pair = (a@, b@);
                skipped.push((a, b));
                assert(skipped@.map_values(|p: (String, String)| (p.0@, p.1@)) =~= s0.push(pair));
                assert(imported@.map_values(|q: Requirement| imported_view(q)) == i0);
                assert(views(errors@) == e0);
            },
            Step::Failed(m) => {
                let ghost mv = m@;
                errors.push(m);
                assert(views(errors@) =~= e0.push(mv));
                assert(imported@.map_values(|q: Requirement| imported_view(q)) == i0);
                assert(skipped@.map_values(|p: (String, String)| (p.0@, p.1@)) == s0);
            },
        }
        i = i + 1;
    }
    assert(sugs@.take(i as int) =~= sugs@);
    ImportResult { imported, skipped, errors }
}

} // verus!
