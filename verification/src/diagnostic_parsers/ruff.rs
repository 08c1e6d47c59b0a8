//! The output of `ruff check --output-format=json`: a list of issues, each of them a warning.
use vstd::prelude::*;

use super::{end_of, low, low_half, low_half_opt, low_opt, normalise_path, normalised, number_or, range_end, text_or, Diagnostic, DiagnosticModel, Severity};
use crate::deep::{deep, filter_map, given_before, lemma_filter_map_next, lemma_filter_map_places};
use crate::json::{json_of_text, tree, trees, Json, JsonTree};
use crate::text::{copy, trim, trim_of};

verus! {

broadcast use {crate::deep::group_deep, crate::deep::lemma_take_all};

/// A number of the place where an issue ends.
pub open spec fn end_number(issue: JsonTree, k: Seq<char>) -> Option<u64> {
    match issue.field("end_location"@) {
        Some(e) => e.number_at(k),
        None => None,
    }
}

/// The diagnostic of an issue.
pub open spec fn issue_diagnostic(issue: JsonTree, unit_dir: Seq<char>, root: Seq<char>) -> Option<
    DiagnosticModel,
> {
    match (issue.text_at("filename"@), issue.field("location"@)) {
        (Some(file), Some(loc)) => {
            let end = range_end(end_number(issue, "row"@), end_number(issue, "column"@));
            Some(
                DiagnosticModel {
                    file: normalised(file, unit_dir, root),
                    line: low(number_or(loc.number_at("row"@), 1)),
                    col: low_opt(loc.number_at("column"@)),
                    end_line: end.0,
                    end_col: end.1,
                    severity: Severity::Warning,
                    message: text_or(issue.text_at("message"@), Seq::empty()),
                    rule: issue.text_at("code"@),
                    source: "ruff"@,
                },
            )
        },
        _ => None,
    }
}

/// The diagnostic of an issue, as a function of the issue.
pub open spec fn of_issue(unit_dir: Seq<char>, root: Seq<char>) -> spec_fn(JsonTree) -> Option<
    DiagnosticModel,
> {
    |issue: JsonTree| issue_diagnostic(issue, unit_dir, root)
}

/// The diagnostics of the JSON value that the output is.
pub open spec fn value_diagnostics(v: JsonTree, unit_dir: Seq<char>, root: Seq<char>) -> Seq<DiagnosticModel> {
    match v.items() {
        Some(issues) => filter_map(issues, of_issue(unit_dir, root)),
        None => Seq::empty(),
    }
}

/// The diagnostics in the output.
pub open spec fn parsed(stdout: Seq<char>, unit_dir: Seq<char>, root: Seq<char>) -> Seq<DiagnosticModel> {
    match json_of_text(trim_of(stdout)) {
        Some(v) => value_diagnostics(v, unit_dir, root),
        None => Seq::empty(),
    }
}

fn from_issue(issue: &Json, unit_dir: &str, workspace_root: &str) -> (r: Option<Diagnostic>)
    ensures
        r.deep_view() == issue_diagnostic(tree(*issue), unit_dir@, workspace_root@),
{
    let file = match issue.str_at("filename") {
        Some(f) => f,
        None => {
            return None;
        },
    };
    let loc = match issue.get("location") {
        Some(l) => l,
        None => {
            return None;
        },
    };
    let line = match loc.u64_at("row") {
        Some(n) => low_half(n),
        None => 1,
    };
    let (end_line, end_col) = match issue.get("end_location") {
        Some(e) => end_of(e.u64_at("row"), e.u64_at("column")),
        None => (None, None),
    };
    let text = match issue.str_at("message") {
        Some(m) => copy(m),
        None => String::new(),
    };
    let rule = match issue.str_at("code") {
        Some(s) => Some(copy(s)),
        None => None,
    };
    let d = Diagnostic {
        file: normalise_path(file, unit_dir, workspace_root),
        line,
        col: low_half_opt(loc.u64_at("column")),
        end_line,
        end_col,
        severity: Severity::Warning,
        message: text,
        rule,
        source: copy("ruff"),
    };
    assert(d.message@ =~= text_or(tree(*issue).text_at("message"@), Seq::empty()));
    Some(d)
}

/// The diagnostics of the JSON value that the output is.
pub fn from_value(value: &Json, unit_dir: &str, workspace_root: &str) -> (r: Vec<Diagnostic>)
    ensures
        r.deep_view() == value_diagnostics(tree(*value), unit_dir@, workspace_root@),
{
    let mut out: Vec<Diagnostic> = Vec::new();
    let issues = match value.as_array() {
        Some(v) => v,
        None => {
            return out;
        },
    };
    let ghost all = trees(issues@);
    let ghost f = of_issue(unit_dir@, workspace_root@);
    let mut i: usize = 0;
    while i < issues.len()
        invariant
            i <= issues@.len(),
            all == trees(issues@),
            f == of_issue(unit_dir@, workspace_root@),
            deep(out@) == filter_map(all.take(i as int), f),
        decreases issues.len() - i,
    {
        proof {
            lemma_filter_map_next(all, f, i as int);
            assert(all[i as int] == tree(issues@[i as int]));
        }
        if let Some(d) = from_issue(&issues[i], unit_dir, workspace_root) {
            out.push(d);
        }
        i += 1;
    }
    out
}

/// The diagnostics in the output.
pub fn parse(stdout: &str, _stderr: &str, unit_dir: &str, workspace_root: &str) -> (r: Vec<Diagnostic>)
    ensures
        r.deep_view() == parsed(stdout@, unit_dir@, workspace_root@),
{
    match crate::json::parse(trim(stdout).as_str()) {
        Some(v) => from_value(&v, unit_dir, workspace_root),
        None => Vec::new(),
    }
}

/// Whether an issue says in which file it is, and where in it.
pub open spec fn is_placed(issue: JsonTree) -> bool {
    issue.text_at("filename"@) is Some && issue.field("location"@) is Some
}

/// How many of the first `i` issues say where they are.
pub open spec fn placed_before(issues: Seq<JsonTree>, i: int) -> int
    decreases i,
{
    if i <= 0 {
        0
    } else {
        placed_before(issues, i - 1) + (if is_placed(issues[i - 1]) {
            1int
        } else {
            0
        })
    }
}

proof fn lemma_placed_before(issues: Seq<JsonTree>, unit_dir: Seq<char>, root: Seq<char>, i: int)
    requires
        0 <= i <= issues.len(),
    ensures
        placed_before(issues, i) == given_before(issues, of_issue(unit_dir, root), i),
    decreases i,
{
    if i > 0 {
        lemma_placed_before(issues, unit_dir, root, i - 1);
    }
}

/// There are as many diagnostics as there are issues that say where they are.
pub proof fn law_each_issue_is_counted(v: JsonTree, unit_dir: Seq<char>, root: Seq<char>)
    ensures
        v.items() matches Some(issues) ==> value_diagnostics(v, unit_dir, root).len() == placed_before(
            issues,
            issues.len() as int,
        ),
        v.items() is None ==> value_diagnostics(v, unit_dir, root).len() == 0,
{
    if let Some(issues) = v.items() {
        lemma_filter_map_places(issues, of_issue(unit_dir, root));
        lemma_placed_before(issues, unit_dir, root, issues.len() as int);
    }
}

/// Each issue that says where it is has a diagnostic, behind those of the issues before it: a warning of
/// that file, at its line and column, with its text and its code, and with its end where both the line
/// and the column of it are there.
pub proof fn law_each_issue_is_reported(v: JsonTree, unit_dir: Seq<char>, root: Seq<char>, i: int)
    requires
        v.items() is Some,
        0 <= i < v.items()->0.len(),
        is_placed(v.items()->0[i]),
    ensures
        ({
            let issues = v.items()->0;
            let issue = issues[i];
            let loc = issue.field("location"@)->0;
            let at = placed_before(issues, i);
            let all = value_diagnostics(v, unit_dir, root);
            let d = all[at];
            &&& 0 <= at < all.len()
            &&& d.file == normalised(issue.text_at("filename"@)->0, unit_dir, root)
            &&& loc.number_at("row"@) matches Some(n) ==> (n <= u32::MAX ==> d.line == n)
            &&& loc.number_at("row"@) is None ==> d.line == 1
            &&& loc.number_at("column"@) matches Some(n) ==> (n <= u32::MAX ==> d.col == Some(n as u32))
            &&& loc.number_at("column"@) is None ==> d.col is None
            &&& issue.field("end_location"@) matches Some(e) ==> (e.number_at("row"@) matches Some(l) ==> (e.number_at(
                "column"@,
            ) matches Some(c) ==> (l <= u32::MAX && c <= u32::MAX ==> d.end_line == Some(l as u32) && d.end_col
                == Some(c as u32))))
            &&& issue.field("end_location"@) is None ==> d.end_line is None && d.end_col is None
            &&& d.severity == Severity::Warning
            &&& issue.text_at("message"@) matches Some(t) ==> d.message == t
            &&& issue.text_at("message"@) is None ==> d.message.len() == 0
            &&& d.rule == issue.text_at("code"@)
            &&& d.source == "ruff"@
        }),
{
    let issues = v.items()->0;
    lemma_filter_map_places(issues, of_issue(unit_dir, root));
    lemma_placed_before(issues, unit_dir, root, i);
    assert(of_issue(unit_dir, root)(issues[i]) is Some);
}

/// The output is read as the JSON value that it is, without the white space around it; where it is none,
/// there are no diagnostics.
pub proof fn law_output_is_one_value(stdout: Seq<char>, unit_dir: Seq<char>, root: Seq<char>)
    ensures
        json_of_text(trim_of(stdout)) matches Some(v) ==> parsed(stdout, unit_dir, root) == value_diagnostics(
            v,
            unit_dir,
            root,
        ),
        json_of_text(trim_of(stdout)) is None ==> parsed(stdout, unit_dir, root).len() == 0,
{
}

} // verus!
