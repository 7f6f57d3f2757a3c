//! The report: one line per internal finding, per unresolved name and per
//! external-linter finding, in that order.
use vstd::prelude::*;
use vstd::string::StringExecFns;
use crate::linter::LintFinding;
use crate::tracker::{names_of, unresolved_of, Analysis, Analyzer};

verus! {

/// The decimal digit characters.
pub open spec fn digit_char(d: nat) -> char {
    if d == 0 {
        '0'
    } else if d == 1 {
        '1'
    } else if d == 2 {
        '2'
    } else if d == 3 {
        '3'
    } else if d == 4 {
        '4'
    } else if d == 5 {
        '5'
    } else if d == 6 {
        '6'
    } else if d == 7 {
        '7'
    } else if d == 8 {
        '8'
    } else {
        '9'
    }
}

/// The base-ten digits of `n`, most significant first, no leading zeros.
pub open spec fn decimal_digits(n: nat) -> Seq<char>
    decreases n,
{
    if n < 10 {
        seq![digit_char(n)]
    } else {
        decimal_digits(n / 10).push(digit_char(n % 10))
    }
}

/// The usual decimal rendering of an integer: a minus sign for negative
/// values, then the digits.
pub open spec fn decimal_of(n: int) -> Seq<char> {
    if n < 0 {
        seq!['-'] + decimal_digits((-n) as nat)
    } else {
        decimal_digits(n as nat)
    }
}

/// The text of one decimal digit.
fn digit_str(d: u64) -> (r: &'static str)
    requires
        d < 10,
    ensures
        r@ == seq![digit_char(d as nat)],
{
    proof {
        reveal_strlit("0");
        reveal_strlit("1");
        reveal_strlit("2");
        reveal_strlit("3");
        reveal_strlit("4");
        reveal_strlit("5");
        reveal_strlit("6");
        reveal_strlit("7");
        reveal_strlit("8");
        reveal_strlit("9");
    }
    match d {
        0 => "0",
        1 => "1",
        2 => "2",
        3 => "3",
        4 => "4",
        5 => "5",
        6 => "6",
        7 => "7",
        8 => "8",
        _ => "9",
    }
}

/// The decimal digits of `m`, as text.
fn digits_string(m: u64) -> (r: String)
    ensures
        r@ == decimal_digits(m as nat),
    decreases m,
{
    if m < 10 {
        let r = String::from_str(digit_str(m));
        proof {
            assert(r@ =~= decimal_digits(m as nat));
        }
        r
    } else {
        let mut r = digits_string(m / 10);
        r.append(digit_str(m % 10));
        proof {
            assert((m / 10) as nat == (m as nat) / 10);
            assert((m % 10) as nat == (m as nat) % 10);
            assert(r@ =~= decimal_digits(m as nat));
        }
        r
    }
}

/// The usual decimal rendering of an integer: a minus sign for negative
/// values, then the base-ten digits with no leading zeros.
fn decimal_string(n: i64) -> (r: String)
    ensures
        r@ == decimal_of(n as int),
{
    if n >= 0 {
        let r = digits_string(n as u64);
        proof {
            assert((n as u64) as nat == n as nat);
        }
        r
    } else {
        let wide: i128 = n as i128;
        proof {
            assert(0 <= -wide <= u64::MAX);
        }
        let mag: u64 = (-wide) as u64;
        let mut r = String::from_str("-");
        let digits = digits_string(mag);
        r.append(digits.as_str());
        proof {
            reveal_strlit("-");
            assert(mag as int == -(n as int));
            assert(r@ =~= decimal_of(n as int));
        }
        r
    }
}

/// A report line for one internal finding.
pub open spec fn error_line(msg: Seq<char>) -> Seq<char> {
    "Error: "@ + msg
}

/// A report line for one unresolved name.
pub open spec fn warning_line(name: Seq<char>) -> Seq<char> {
    "Advertencia: Variable no definida: "@ + name
}

/// A report line for one external-linter finding.
pub open spec fn eslint_line(msg: Seq<char>, line: int, column: int) -> Seq<char> {
    "ESLint: "@ + msg + " (línea "@ + decimal_of(line) + ", columna "@ + decimal_of(column)
        + ")"@
}

/// The whole report for one run: internal findings first, then unresolved
/// names, then external findings, each section in discovery order.
pub open spec fn report_of(st: Analysis, ext: Seq<(Seq<char>, int, int)>) -> Seq<Seq<char>> {
    st.errors.map_values(|m: Seq<char>| error_line(m)) + unresolved_of(st).map_values(
        |name: Seq<char>| warning_line(name),
    ) + ext.map_values(|f: (Seq<char>, int, int)| eslint_line(f.0, f.1, f.2))
}

/// The report holds one line per internal finding, per unresolved name and
/// per external finding, and nothing else: with no external findings there
/// is no external line at all.
pub proof fn law_report_counts(st: Analysis, ext: Seq<(Seq<char>, int, int)>)
    ensures
        report_of(st, ext).len() == st.errors.len() + unresolved_of(st).len() + ext.len(),
{
}

/// Prints one internal finding as a report line.
pub fn error_report_line(msg: &String) -> (r: String)
    ensures
        r@ == error_line(msg@),
{
    let mut r = String::from_str("Error: ");
    r.append(msg.as_str());
    r
}

/// Prints one unresolved name as a report line.
pub fn warning_report_line(name: &String) -> (r: String)
    ensures
        r@ == warning_line(name@),
{
    let mut r = String::from_str("Advertencia: Variable no definida: ");
    r.append(name.as_str());
    r
}

/// Prints one external-linter finding as a report line.
pub fn eslint_report_line(finding: &LintFinding) -> (r: String)
    ensures
        r@ == eslint_line(finding.message@, finding.line as int, finding.column as int),
{
    let mut r = String::from_str("ESLint: ");
    r.append(finding.message.as_str());
    r.append(" (línea ");
    let line_text = decimal_string(finding.line);
    r.append(line_text.as_str());
    r.append(", columna ");
    let column_text = decimal_string(finding.column);
    r.append(column_text.as_str());
    r.append(")");
    proof {
        assert(r@ =~= eslint_line(finding.message@, finding.line as int, finding.column as int));
    }
    r
}

/// The whole report of one run, ready to print line by line.
pub fn full_report(a: &Analyzer, ext: &Vec<LintFinding>) -> (r: Vec<String>)
    ensures
        names_of(r@) == report_of(a@, ext@.map_values(|f: LintFinding| f@)),
{
    let ghost err_f = |m: Seq<char>| error_line(m);
    let ghost warn_f = |name: Seq<char>| warning_line(name);
    let ghost lint_f = |f: (Seq<char>, int, int)| eslint_line(f.0, f.1, f.2);
    let ghost view_f = |f: LintFinding| f@;
    let mut r: Vec<String> = Vec::new();

    let mut i: usize = 0;
    while i < a.errors.len()
        invariant
            0 <= i <= a.errors@.len(),
            err_f == (|m: Seq<char>| error_line(m)),
            names_of(r@) == a@.errors.subrange(0, i as int).map_values(err_f),
        decreases a.errors@.len() - i,
    {
        let line = error_report_line(&a.errors[i]);
        let ghost before = r@;
        r.push(line);
        proof {
            before.lemma_push_map_commute(|s: String| s@, line);
            assert(names_of(r@) =~= names_of(before).push(line@));
            assert(names_of(r@) =~= a@.errors.subrange(0, i as int + 1).map_values(err_f));
        }
        i = i + 1;
    }
    proof {
        assert(a@.errors.subrange(0, a.errors@.len() as int) =~= a@.errors);
    }
    let ghost first = a@.errors.map_values(err_f);

    let unresolved = a.unresolved_names();
    let mut j: usize = 0;
    while j < unresolved.len()
        invariant
            0 <= j <= unresolved@.len(),
            names_of(unresolved@) == unresolved_of(a@),
            err_f == (|m: Seq<char>| error_line(m)),
            warn_f == (|name: Seq<char>| warning_line(name)),
            first == a@.errors.map_values(err_f),
            names_of(r@) == first + names_of(unresolved@).subrange(0, j as int).map_values(
                warn_f,
            ),
        decreases unresolved@.len() - j,
    {
        let line = warning_report_line(&unresolved[j]);
        let ghost before = r@;
        r.push(line);
        proof {
            before.lemma_push_map_commute(|s: String| s@, line);
            assert(names_of(r@) =~= names_of(before).push(line@));
            assert(names_of(unresolved@)[j as int] == unresolved@[j as int]@);
            assert(names_of(r@) =~= first + names_of(unresolved@).subrange(
                0,
                j as int + 1,
            ).map_values(warn_f));
        }
        j = j + 1;
    }
    proof {
        assert(names_of(unresolved@).subrange(0, unresolved@.len() as int) =~= names_of(
            unresolved@,
        ));
    }
    let ghost second = first + unresolved_of(a@).map_values(warn_f);

    let mut k: usize = 0;
    while k < ext.len()
        invariant
            0 <= k <= ext@.len(),
            warn_f == (|name: Seq<char>| warning_line(name)),
            lint_f == (|f: (Seq<char>, int, int)| eslint_line(f.0, f.1, f.2)),
            view_f == (|f: LintFinding| f@),
            second == a@.errors.map_values(err_f) + unresolved_of(a@).map_values(warn_f),
            err_f == (|m: Seq<char>| error_line(m)),
            names_of(r@) == second + ext@.subrange(0, k as int).map_values(view_f).map_values(
                lint_f,
            ),
        decreases ext@.len() - k,
    {
        let line = eslint_report_line(&ext[k]);
        let ghost before = r@;
        r.push(line);
        proof {
            before.lemma_push_map_commute(|s: String| s@, line);
            assert(names_of(r@) =~= names_of(before).push(line@));
            assert(names_of(r@) =~= second + ext@.subrange(0, k as int + 1).map_values(
                view_f,
            ).map_values(lint_f));
        }
        k = k + 1;
    }
    proof {
        assert(ext@.subrange(0, ext@.len() as int) =~= ext@);
        assert(names_of(r@) =~= report_of(a@, ext@.map_values(view_f)));
    }
    r
}

} // verus!
