//! Handling of the external linter's output: the subprocess hands back a
//! byte stream that is either empty, malformed, or a JSON array of objects
//! with `message`, `line` and `column` fields. Anything but a well-formed
//! array yields zero findings rather than an error; a field that is missing
//! or wrongly typed falls back to an empty message or zero.
use vstd::prelude::*;
use vstd::string::StringExecFns;

verus! {

/// One finding of the external linter: a message and a position.
pub struct LintFinding {
    pub message: String,
    pub line: i64,
    pub column: i64,
}

impl View for LintFinding {
    type V = (Seq<char>, int, int);

    open spec fn view(&self) -> (Seq<char>, int, int) {
        (self.message@, self.line as int, self.column as int)
    }
}

/// What the linter's byte stream parses to: a list exactly when the bytes
/// are one well-formed JSON array, with one entry per element holding the
/// element's `message` member where that member is a string, and its `line`
/// and `column` members where each is an integer that fits an i64; nothing
/// for every other stream. A function of the bytes alone.
pub uninterp spec fn lint_stream(bytes: Seq<u8>) -> Option<
    Seq<(Option<Seq<char>>, Option<int>, Option<int>)>,
>;

/// The character sequences and integers of a list of raw entries.
pub open spec fn raw_entry_views(s: Seq<(Option<String>, Option<i64>, Option<i64>)>) -> Seq<
    (Option<Seq<char>>, Option<int>, Option<int>),
> {
    s.map_values(
        |e: (Option<String>, Option<i64>, Option<i64>)|
            (
                match e.0 {
                    Option::Some(m) => Option::Some(m@),
                    Option::None => Option::None,
                },
                match e.1 {
                    Option::Some(n) => Option::Some(n as int),
                    Option::None => Option::None,
                },
                match e.2 {
                    Option::Some(n) => Option::Some(n as int),
                    Option::None => Option::None,
                },
            ),
    )
}

/// Relies on serde_json::from_slice, Value::as_array, Value::get,
/// Value::as_str and Value::as_i64: the bytes parse to one JSON document or
/// the parse fails; a document that is an array yields its elements in
/// order; an element's member is read under its string key, a missing key
/// or a non-object giving nothing, `as_str` a string's content only, and
/// `as_i64` an integer in i64's range only. All of it a function of the
/// bytes alone.
#[verifier::external_body]
fn parse_lint_stream(bytes: &Vec<u8>) -> (r: Option<
    Vec<(Option<String>, Option<i64>, Option<i64>)>,
>)
    ensures
        r is Some <==> lint_stream(bytes@) is Some,
        r matches Some(entries) ==> lint_stream(bytes@) == Some(raw_entry_views(entries@)),
{
    let doc: serde_json::Value = match serde_json::from_slice(bytes.as_slice()) {
        Ok(v) => v,
        Err(_) => return None,
    };
    let elements = match doc.as_array() { Some(a) => a, None => return None };
    let mut out = Vec::new();
    for e in elements {
        let message = e.get("message").and_then(|m| m.as_str()).map(|s| s.to_owned());
        let line = e.get("line").and_then(|m| m.as_i64());
        out.push((message, line, e.get("column").and_then(|m| m.as_i64())));
    }
    Some(out)
}

/// One report-ready finding from one raw entry: the message where the
/// element had one, an empty message otherwise; line and column where the
/// element had them, zero otherwise.
pub open spec fn defaulted_entry(e: (Option<Seq<char>>, Option<int>, Option<int>)) -> (
    Seq<char>,
    int,
    int,
) {
    (
        match e.0 {
            Option::Some(m) => m,
            Option::None => Seq::empty(),
        },
        match e.1 {
            Option::Some(n) => n,
            Option::None => 0,
        },
        match e.2 {
            Option::Some(n) => n,
            Option::None => 0,
        },
    )
}

/// The findings a linter byte stream carries: none for an empty stream and
/// none for anything but a well-formed JSON array, else one per element in
/// the array's order, with the defaults of `defaulted_entry`.
pub open spec fn findings_spec(bytes: Seq<u8>) -> Seq<(Seq<char>, int, int)> {
    if bytes.len() == 0 {
        Seq::empty()
    } else {
        match lint_stream(bytes) {
            Option::Some(raw) => raw.map_values(
                |e: (Option<Seq<char>>, Option<int>, Option<int>)| defaulted_entry(e),
            ),
            Option::None => Seq::empty(),
        }
    }
}

/// The findings carried by the external linter's standard output, exactly
/// as `findings_spec` describes them.
pub fn external_findings(stdout: &Vec<u8>) -> (r: Vec<LintFinding>)
    ensures
        r@.map_values(|f: LintFinding| f@) == findings_spec(stdout@),
        stdout@.len() == 0 ==> r@.len() == 0,
        lint_stream(stdout@) is None ==> r@.len() == 0,
{
    let ghost view_f = |f: LintFinding| f@;
    let ghost def_f = |e: (Option<Seq<char>>, Option<int>, Option<int>)| defaulted_entry(e);
    if stdout.len() == 0 {
        let r: Vec<LintFinding> = Vec::new();
        proof {
            assert(r@.map_values(view_f) =~= findings_spec(stdout@));
        }
        return r;
    }
    match parse_lint_stream(stdout) {
        Option::None => {
            let r: Vec<LintFinding> = Vec::new();
            proof {
                assert(r@.map_values(view_f) =~= findings_spec(stdout@));
            }
            r
        },
        Option::Some(entries) => {
            let ghost raw = raw_entry_views(entries@);
            let mut r: Vec<LintFinding> = Vec::new();
            let mut i: usize = 0;
            while i < entries.len()
                invariant
                    0 <= i <= entries@.len(),
                    view_f == (|f: LintFinding| f@),
                    def_f == (
                    |e: (Option<Seq<char>>, Option<int>, Option<int>)| defaulted_entry(e)),
                    raw == raw_entry_views(entries@),
                    r@.map_values(view_f) == raw.subrange(0, i as int).map_values(def_f),
                decreases entries@.len() - i,
            {
                let entry = &entries[i];
                let message = match &entry.0 {
                    Option::Some(text) => text.clone(),
                    Option::None => String::from_str(""),
                };
                let line = match &entry.1 {
                    Option::Some(number) => *number,
                    Option::None => 0i64,
                };
                let column = match &entry.2 {
                    Option::Some(number) => *number,
                    Option::None => 0i64,
                };
                let finding = LintFinding { message, line, column };
                let ghost pushed = finding;
                let ghost before = r@;
                r.push(finding);
                proof {
                    reveal_strlit("");
                    assert(raw[i as int] == (
                        match entries@[i as int].0 {
                            Option::Some(m) => Option::Some(m@),
                            Option::None => Option::<Seq<char>>::None,
                        },
                        match entries@[i as int].1 {
                            Option::Some(n) => Option::Some(n as int),
                            Option::None => Option::<int>::None,
                        },
                        match entries@[i as int].2 {
                            Option::Some(n) => Option::Some(n as int),
                            Option::None => Option::<int>::None,
                        },
                    ));
                    assert(pushed@ == def_f(raw[i as int]));
                    before.lemma_push_map_commute(|f: LintFinding| f@, pushed);
                    assert(r@.map_values(view_f) =~= before.map_values(view_f).push(pushed@));
                    assert(raw.subrange(0, i as int + 1).map_values(def_f) =~= raw.subrange(
                        0,
                        i as int,
                    ).map_values(def_f).push(def_f(raw[i as int])));
                }
                i = i + 1;
            }
            proof {
                assert(raw.subrange(0, entries@.len() as int) =~= raw);
                assert(r@.map_values(view_f) == findings_spec(stdout@));
            }
            r
        },
    }
}

} // verus!
