//! The output of `golangci-lint --out-format=json`: an object whose `Issues` are the findings.
use vstd::prelude::*;

use super::{low, low_half, low_opt, normalise_path, normalised, number_or, text_or, Diagnostic, DiagnosticModel, Severity};
use crate::deep::{deep, filter_map, given_before, lemma_filter_map_next, lemma_filter_map_places};
use crate::json::{json_of_text, tree, trees, Json, JsonTree};
use crate::text::{copy, same, trim, trim_of};

verus! {

broadcast use {crate::deep::group_deep, crate::deep::lemma_take_all};

/// How bad an issue is: a warning, unless it says something else.
pub open spec fn severity_of(s: Option<Seq<char>>) -> Severity {
    if s == Some("error"@) {
        Severity::Error
    } else if s == Some("info"@) {
        Severity::Info
    } else if s == Some("hint"@) {
        Severity::Hint
    } else {
        Severity::Warning
    }
}

fn severity(s: Option<&str>) -> (r: Severity)
    ensures
        r == severity_of(s.deep_view()),
{
    match s {
        Some(t) => if same(t, "error") {
            Severity::Error
        } else if same(t, "info") {
            Severity::Info
        } else if same(t, "hint") {
            Severity::Hint
        } else {
            Severity::Warning
        },
        None => Severity::Warning,
    }
}

/// A column; 0 stands for none.
pub open spec fn column_of(n: Option<u64>) -> Option<u32> {
    match low_opt(n) {
        Some(c) if c > 0 => Some(c),
        _ => None,
    }
}

/// The diagnostic of an issue.
pub open spec fn issue_diagnostic(issue: JsonTree, unit_dir: Seq<char>, root: Seq<char>) -> Option<
    DiagnosticModel,
> {
    match issue.field("Pos"@) {
        Some(pos) => match pos.text_at("Filename"@) {
            Some(file) => Some(
                DiagnosticModel {
                    file: normalised(file, unit_dir, root),
                    line: low(number_or(pos.number_at("Line"@), 1)),
                    col: column_of(pos.number_at("Column"@)),
                    end_line: None,
                    end_col: None,
                    severity: severity_of(issue.text_at("Severity"@)),
                    message: text_or(issue.text_at("Text"@), Seq::empty()),
                    rule: issue.text_at("FromLinter"@),
                    source: "golangci-lint"@,
                },
            ),
            None => None,
        },
        None => None,
    }
}

/// The diagnostic of an issue, as a function of the issue.
pub open spec fn of_issue(unit_dir: Seq<char>, root: Seq<char>) -> spec_fn(JsonTree) -> Option<
    DiagnosticModel,
> {
    |issue: JsonTree| issue_diagnostic(issue, unit_dir, root)
}

/// The diagnostics of the JSON value that the output is.
pub open spec fn value_diagnostics(v: JsonTree, unit_dir: Seq<char>, root: Seq<char>) -> Seq<DiagnosticModel> {
    match v.items_at("Issues"@) {
        Some(issues) => filter_map(issues, of_issue(unit_dir, root)),
        None => Seq::empty(),
    }
}

/// The diagnostics in the output.
pub open spec fn parsed(stdout: Seq<char>, unit_dir: Seq<char>, root: Seq<char>) -> Seq<DiagnosticModel> {
    match json_of_text(trim_of(stdout)) {
        Some(v) => value_diagnostics(v, unit_dir, root),
        None => Seq::empty(),
    }
}

fn from_issue(issue: &Json, unit_dir: &str, workspace_root: &str) -> (r: Option<Diagnostic>)
    ensures
        r.deep_view() == issue_diagnostic(tree(*issue), unit_dir@, workspace_root@),
{
    let pos = match issue.get("Pos") {
        Some(p) => p,
        None => {
            return None;
        },
    };
    let file = match pos.str_at("Filename") {
        Some(f) => f,
        None => {
            return None;
        },
    };
    let line = match pos.u64_at("Line") {
        Some(n) => low_half(n),
        None => 1,
    };
    let col = match pos.u64_at("Column") {
        Some(n) => {
            let c = low_half(n);
            if c > 0 {
                Some(c)
            } else {
                None
            }
        },
        None => None,
    };
    let text = match issue.str_at("Text") {
        Some(m) => copy(m),
        None => String::new(),
    };
    let rule = match issue.str_at("FromLinter") {
        Some(s) => Some(copy(s)),
        None => None,
    };
    let d = Diagnostic {
        file: normalise_path(file, unit_dir, workspace_root),
        line,
        col,
        end_line: None,
        end_col: None,
        severity: severity(issue.str_at("Severity")),
        message: text,
        rule,
        source: copy("golangci-lint"),
    };
    assert(d.message@ =~= text_or(tree(*issue).text_at("Text"@), Seq::empty()));
    Some(d)
}

/// The diagnostics of the JSON value that the output is.
pub fn from_value(value: &Json, unit_dir: &str, workspace_root: &str) -> (r: Vec<Diagnostic>)
    ensures
        r.deep_view() == value_diagnostics(tree(*value), unit_dir@, workspace_root@),
{
    let mut out: Vec<Diagnostic> = Vec::new();
    let issues = match value.array_at("Issues") {
        Some(v) => v,
        None => {
            return out;
        },
    };
    let ghost all = trees(issues@);
    let ghost f = of_issue(unit_dir@, workspace_root@);
    let mut i: usize = 0;
    while i < issues.len()
        invariant
            i <= issues@.len(),
            all == trees(issues@),
            f == of_issue(unit_dir@, workspace_root@),
            deep(out@) == filter_map(all.take(i as int), f),
        decreases issues.len() - i,
    {
        proof {
            lemma_filter_map_next(all, f, i as int);
            assert(all[i as int] == tree(issues@[i as int]));
        }
        if let Some(d) = from_issue(&issues[i], unit_dir, workspace_root) {
            out.push(d);
        }
        i += 1;
    }
    out
}

/// The diagnostics in the output.
pub fn parse(stdout: &str, _stderr: &str, unit_dir: &str, workspace_root: &str) -> (r: Vec<Diagnostic>)
    ensures
        r.deep_view() == parsed(stdout@, unit_dir@, workspace_root@),
{
    match crate::json::parse(trim(stdout).as_str()) {
        Some(v) => from_value(&v, unit_dir, workspace_root),
        None => Vec::new(),
    }
}

/// Whether an issue says in which file it is.
pub open spec fn is_placed(issue: JsonTree) -> bool {
    issue.field("Pos"@) matches Some(pos) && pos.text_at("Filename"@) is Some
}

/// How many of the first `i` issues say in which file they are.
pub open spec fn placed_before(issues: Seq<JsonTree>, i: int) -> int
    decreases i,
{
    if i <= 0 {
        0
    } else {
        placed_before(issues, i - 1) + (if is_placed(issues[i - 1]) {
            1int
        } else {
            0
        })
    }
}

proof fn lemma_placed_before(issues: Seq<JsonTree>, unit_dir: Seq<char>, root: Seq<char>, i: int)
    requires
        0 <= i <= issues.len(),
    ensures
        placed_before(issues, i) == given_before(issues, of_issue(unit_dir, root), i),
    decreases i,
{
    if i > 0 {
        lemma_placed_before(issues, unit_dir, root, i - 1);
    }
}

/// There are as many diagnostics as there are issues that say in which file they are.
pub proof fn law_each_issue_is_counted(v: JsonTree, unit_dir: Seq<char>, root: Seq<char>)
    ensures
        v.items_at("Issues"@) matches Some(issues) ==> value_diagnostics(v, unit_dir, root).len() == placed_before(
            issues,
            issues.len() as int,
        ),
        v.items_at("Issues"@) is None ==> value_diagnostics(v, unit_dir, root).len() == 0,
{
    if let Some(issues) = v.items_at("Issues"@) {
        lemma_filter_map_places(issues, of_issue(unit_dir, root));
        lemma_placed_before(issues, unit_dir, root, issues.len() as int);
    }
}

/// Each issue that says in which file it is has a diagnostic, behind those of the issues before it: of
/// that file, at its line and column, with its text and the linter that it comes from. A column of 0 is
/// none. An issue is a warning unless it says that it is an error, an info or a hint.
pub proof fn law_each_issue_is_reported(v: JsonTree, unit_dir: Seq<char>, root: Seq<char>, i: int)
    requires
        v.items_at("Issues"@) is Some,
        0 <= i < v.items_at("Issues"@)->0.len(),
        is_placed(v.items_at("Issues"@)->0[i]),
    ensures
        ({
            let issues = v.items_at("Issues"@)->0;
            let issue = issues[i];
            let pos = issue.field("Pos"@)->0;
            let at = placed_before(issues, i);
            let all = value_diagnostics(v, unit_dir, root);
            let d = all[at];
            &&& 0 <= at < all.len()
            &&& d.file == normalised(pos.text_at("Filename"@)->0, unit_dir, root)
            &&& pos.number_at("Line"@) matches Some(n) ==> (n <= u32::MAX ==> d.line == n)
            &&& pos.number_at("Line"@) is None ==> d.line == 1
            &&& pos.number_at("Column"@) matches Some(n) ==> (0 < n <= u32::MAX ==> d.col == Some(n as u32))
            &&& pos.number_at("Column"@) == Some(0u64) || pos.number_at("Column"@) is None ==> d.col is None
            &&& d.end_line is None && d.end_col is None
            &&& d.severity == Severity::Error <==> issue.text_at("Severity"@) == Some("error"@)
            &&& d.severity == Severity::Info <==> issue.text_at("Severity"@) == Some("info"@)
            &&& d.severity == Severity::Hint <==> issue.text_at("Severity"@) == Some("hint"@)
            &&& issue.text_at("Text"@) matches Some(t) ==> d.message == t
            &&& issue.text_at("Text"@) is None ==> d.message.len() == 0
            &&& d.rule == issue.text_at("FromLinter"@)
            &&& d.source == "golangci-lint"@
        }),
{
    let issues = v.items_at("Issues"@)->0;
    lemma_filter_map_places(issues, of_issue(unit_dir, root));
    lemma_placed_before(issues, unit_dir, root, i);
    reveal_strlit("error");
    reveal_strlit("info");
    reveal_strlit("hint");
    assert("error"@[0] == 'e' && "info"@[0] == 'i' && "hint"@[0] == 'h');
    assert(of_issue(unit_dir, root)(issues[i]) is Some);
}

/// The output is read as the JSON value that it is, without the white space around it; where it is none,
/// there are no diagnostics.
pub proof fn law_output_is_one_value(stdout: Seq<char>, unit_dir: Seq<char>, root: Seq<char>)
    ensures
        json_of_text(trim_of(stdout)) matches Some(v) ==> parsed(stdout, unit_dir, root) == value_diagnostics(
            v,
            unit_dir,
            root,
        ),
        json_of_text(trim_of(stdout)) is None ==> parsed(stdout, unit_dir, root).len() == 0,
{
}

} // verus!
