//! Parsers that turn the output of tools into diagnostics.
//!
//! The paths in diagnostics have forward slashes and start at the workspace root. Output that is not
//! what a parser expects gives fewer diagnostics, never an error.
use vstd::prelude::*;

use crate::deep::deep;
use crate::path::{components, join_path, naming, path_components, path_joined, path_starts_with, render, rendered, within};
use crate::text::{copy, replace, replaced, same, texts};

pub mod cargo_message;
pub mod eslint;
pub mod golangci_lint;
pub mod ruff;

verus! {

broadcast use {crate::deep::group_deep, crate::deep::lemma_take_next, crate::deep::lemma_take_all};

/// How bad a diagnostic is.
#[derive(Debug, Clone, Copy, PartialEq, Eq, Structural)]
pub enum Severity {
    Error,
    Warning,
    Info,
    Hint,
}

/// A finding of a tool at a place in a file.
#[derive(Debug, PartialEq, Eq)]
pub struct Diagnostic {
    pub file: String,
    pub line: u32,
    pub col: Option<u32>,
    pub end_line: Option<u32>,
    pub end_col: Option<u32>,
    pub severity: Severity,
    pub message: String,
    pub rule: Option<String>,
    /// The tool.
    pub source: String,
}

#[verifier::ext_equal]
pub struct DiagnosticModel {
    pub file: Seq<char>,
    pub line: u32,
    pub col: Option<u32>,
    pub end_line: Option<u32>,
    pub end_col: Option<u32>,
    pub severity: Severity,
    pub message: Seq<char>,
    pub rule: Option<Seq<char>>,
    pub source: Seq<char>,
}

impl DeepView for Diagnostic {
    type V = DiagnosticModel;

    open spec fn deep_view(&self) -> DiagnosticModel {
        DiagnosticModel {
            file: self.file@,
            line: self.line,
            col: self.col,
            end_line: self.end_line,
            end_col: self.end_col,
            severity: self.severity,
            message: self.message@,
            rule: self.rule.deep_view(),
            source: self.source@,
        }
    }
}

/// The built-in parsers.
#[derive(Debug, Clone, Copy, PartialEq, Eq, Structural)]
pub enum ParserId {
    CargoMessage,
    GolangciLint,
    Eslint,
    Ruff,
}

impl ParserId {
    /// All built-in parsers.
    pub fn all() -> (r: Vec<ParserId>)
        ensures
            r@ == seq![ParserId::CargoMessage, ParserId::GolangciLint, ParserId::Eslint, ParserId::Ruff],
    {
        vec![ParserId::CargoMessage, ParserId::GolangciLint, ParserId::Eslint, ParserId::Ruff]
    }
}

/// The lower half of a number.
pub open spec fn low(n: u64) -> u32 {
    (n % 0x1_0000_0000) as u32
}

/// The lower half of an optional number.
pub open spec fn low_opt(n: Option<u64>) -> Option<u32> {
    match n {
        Some(x) => Some(low(x)),
        None => None,
    }
}

/// The lower half of a number.
pub fn low_half(n: u64) -> (r: u32)
    ensures
        r == low(n),
{
    (n % 0x1_0000_0000) as u32
}

/// The lower half of an optional number.
pub fn low_half_opt(n: Option<u64>) -> (r: Option<u32>)
    ensures
        r == low_opt(n),
{
    match n {
        Some(x) => Some(low_half(x)),
        None => None,
    }
}

/// The end of a range: known where both its line and its column are.
pub open spec fn range_end(line: Option<u64>, col: Option<u64>) -> (Option<u32>, Option<u32>) {
    match (line, col) {
        (Some(l), Some(c)) => (Some(low(l)), Some(low(c))),
        _ => (None, None),
    }
}

/// The end of a range: known where both its line and its column are.
pub fn end_of(line: Option<u64>, col: Option<u64>) -> (r: (Option<u32>, Option<u32>))
    ensures
        r == range_end(line, col),
{
    match (line, col) {
        (Some(l), Some(c)) => (Some(low_half(l)), Some(low_half(c))),
        _ => (None, None),
    }
}

/// The text, or the other where there is none.
pub open spec fn text_or(t: Option<Seq<char>>, other: Seq<char>) -> Seq<char> {
    match t {
        Some(s) => s,
        None => other,
    }
}

/// The number, or the other where there is none.
pub open spec fn number_or(n: Option<u64>, other: u64) -> u64 {
    match n {
        Some(x) => x,
        None => other,
    }
}

/// A path that a tool reports, as it stands in a diagnostic: from the workspace root, where it lies
/// under the root, seen from the unit's directory where it is relative; as reported otherwise.
pub open spec fn normalised(raw: Seq<char>, unit_dir: Seq<char>, root: Seq<char>) -> Seq<char> {
    let abs = path_joined(unit_dir, raw);
    if within(abs, root) {
        replaced(rendered(naming(components(abs).skip(components(root).len() as int))), '\\', '/')
    } else {
        raw
    }
}

/// A path that a tool reports, as it stands in a diagnostic.
pub fn normalise_path(raw: &str, unit_dir: &str, workspace_root: &str) -> (r: String)
    ensures
        r@ == normalised(raw@, unit_dir@, workspace_root@),
{
    let abs = join_path(unit_dir, raw);
    if !path_starts_with(abs.as_str(), workspace_root) {
        return copy(raw);
    }
    let all = path_components(abs.as_str());
    let above = path_components(workspace_root).len();
    let ghost comps = texts(all@);
    let ghost rest = comps.skip(above as int);
    let mut kept: Vec<String> = Vec::new();
    let mut i: usize = above;
    proof {
        assert(comps.len() >= above);
        assert(rest.take(0) =~= Seq::<Seq<char>>::empty());
    }
    while i < all.len()
        invariant
            above <= i <= all@.len(),
            comps == texts(all@),
            rest == comps.skip(above as int),
            texts(kept@) == naming(rest.take(i - above)),
        decreases all.len() - i,
    {
        let c = all[i].as_str();
        proof {
            let k = i - above;
            assert(rest.take(k + 1).drop_last() =~= rest.take(k));
            assert(rest.take(k + 1).last() == c@);
            assert(c@ == seq!['.'] <==> c@ == "."@) by {
                reveal_strlit(".");
                assert("."@ =~= seq!['.']);
            }
        }
        if !c.is_empty() && !same(c, ".") {
            kept.push(copy(c));
        }
        i += 1;
    }
    assert(rest.take(all@.len() - above) =~= rest);
    let clean = render(&kept, kept.len());
    replace(clean.as_str(), '\\', '/')
}

/// The diagnostics in the output of a tool.
pub open spec fn parsed(
    parser: ParserId,
    stdout: Seq<char>,
    unit_dir: Seq<char>,
    root: Seq<char>,
) -> Seq<DiagnosticModel> {
    match parser {
        ParserId::CargoMessage => cargo_message::parsed(stdout, unit_dir, root),
        ParserId::GolangciLint => golangci_lint::parsed(stdout, unit_dir, root),
        ParserId::Eslint => eslint::parsed(stdout, unit_dir, root),
        ParserId::Ruff => ruff::parsed(stdout, unit_dir, root),
    }
}

/// The diagnostics in the output of a tool.
pub fn parse(parser: ParserId, stdout: &str, stderr: &str, unit_dir: &str, workspace_root: &str) -> (r: Vec<
    Diagnostic,
>)
    ensures
        r.deep_view() == parsed(parser, stdout@, unit_dir@, workspace_root@),
{
    match parser {
        ParserId::CargoMessage => cargo_message::parse(stdout, stderr, unit_dir, workspace_root),
        ParserId::GolangciLint => golangci_lint::parse(stdout, stderr, unit_dir, workspace_root),
        ParserId::Eslint => eslint::parse(stdout, stderr, unit_dir, workspace_root),
        ParserId::Ruff => ruff::parse(stdout, stderr, unit_dir, workspace_root),
    }
}

/// A path that a tool reports as seen from the unit is shown as seen from the workspace: the unit's path in
/// front of it. One that it reports in full is shown as seen from the workspace too, and one that lies outside
/// it as reported.
pub proof fn law_paths_in_diagnostics(raw: Seq<char>, unit: Seq<char>, root: Seq<char>, unit_dir: Seq<char>)
    requires
        root.len() > 0,
        crate::path::plain(raw),
        crate::path::plain(unit),
        !raw.contains('\\'),
        !unit.contains('\\'),
    ensures
        normalised(raw, path_joined(root, unit), root) == unit + seq!['/'] + raw,
        normalised(raw, root, root) == raw,
        crate::path::is_absolute(root) ==> normalised(path_joined(root, raw), unit_dir, root) == raw,
        forall|p: Seq<char>| !within(path_joined(unit_dir, p), root) ==> #[trigger] normalised(p, unit_dir, root) == p,
{
    let dir = path_joined(root, unit);
    let n = components(root).len() as int;
    let rs = crate::text::split_on(raw, '/');
    let us = crate::text::split_on(unit, '/');
    crate::path::lemma_plain(raw);
    crate::path::lemma_plain(unit);
    crate::path::law_components_below(root, unit);
    crate::path::law_components_below(root, raw);
    assert(dir.len() > 0);
    crate::path::law_components_below(dir, raw);
    crate::path::law_inside_is_passed_on(path_joined(dir, raw), dir, root);
    let both = unit + seq!['/'] + raw;
    crate::text::lemma_split_parts(unit, raw, '/');
    assert(crate::path::plain(both)) by {
        assert forall|i: int| 0 <= i < (us + rs).len() implies (#[trigger] (us + rs)[i]).len() > 0 && (us + rs)[i]
            != seq!['.'] by {
            if i < us.len() {
                assert((us + rs)[i] == us[i]);
            } else {
                assert((us + rs)[i] == rs[i - us.len()]);
            }
        }
    }
    crate::path::lemma_plain(both);
    assert((components(root) + us + rs).skip(n) =~= us + rs);
    assert((components(root) + rs).skip(n) =~= rs);
    assert(!both.contains('\\')) by {
        if both.contains('\\') {
            let k = choose|k: int| 0 <= k < both.len() && both[k] == '\\';
            if k < unit.len() {
                assert(unit[k] == '\\');
            } else if k > unit.len() {
                assert(raw[k - unit.len() - 1] == '\\');
            }
        }
    }
    lemma_nothing_replaced(both);
    lemma_nothing_replaced(raw);
    if crate::path::is_absolute(root) {
        let full = path_joined(root, raw);
        assert(full[0] == root[0]);
        assert(path_joined(unit_dir, full) == full);
    }
}

proof fn lemma_nothing_replaced(s: Seq<char>)
    requires
        !s.contains('\\'),
    ensures
        replaced(s, '\\', '/') == s,
{
    assert(replaced(s, '\\', '/') =~= s);
}

/// A line or column that fits is told as it is, and the end of a range is told whole or not at all.
pub proof fn law_places_are_told_as_they_are(line: u64, col: u64)
    requires
        line < 0x1_0000_0000,
        col < 0x1_0000_0000,
    ensures
        low(line) == line,
        low_opt(Some(line)) == Some(line as u32),
        low_opt(None) is None,
        range_end(Some(line), Some(col)) == (Some(line as u32), Some(col as u32)),
        range_end(Some(line), None) == (None::<u32>, None::<u32>),
        range_end(None, Some(col)) == (None::<u32>, None::<u32>),
        range_end(None, None) == (None::<u32>, None::<u32>),
{
}

} // verus!
