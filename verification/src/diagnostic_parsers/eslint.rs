//! The output of `eslint --format=json`: a list of files, each with a list of messages.
use vstd::prelude::*;

use super::{end_of, low, low_half, low_half_opt, low_opt, normalise_path, normalised, number_or, range_end, text_or, Diagnostic, DiagnosticModel, Severity};
use crate::deep::{deep, flat_map, lemma_flat_map_length, lemma_flat_map_next, lemma_flat_map_place, length_before};
use crate::json::{json_of_text, tree, trees, Json, JsonTree};
use crate::text::{copy, trim, trim_of};

verus! {

broadcast use {crate::deep::group_deep, crate::deep::lemma_take_next, crate::deep::lemma_take_all};

/// The diagnostic of a message about a file.
pub open spec fn message_diagnostic(
    file: Seq<char>,
    msg: JsonTree,
    unit_dir: Seq<char>,
    root: Seq<char>,
) -> DiagnosticModel {
    let end = range_end(msg.number_at("endLine"@), msg.number_at("endColumn"@));
    DiagnosticModel {
        file: normalised(file, unit_dir, root),
        line: low(number_or(msg.number_at("line"@), 1)),
        col: low_opt(msg.number_at("column"@)),
        end_line: end.0,
        end_col: end.1,
        severity: if msg.number_at("severity"@) == Some(2u64) {
            Severity::Error
        } else {
            Severity::Warning
        },
        message: text_or(msg.text_at("message"@), Seq::empty()),
        rule: match msg.text_at("ruleId"@) {
            Some(r) if r.len() > 0 => Some(r),
            _ => None,
        },
        source: "eslint"@,
    }
}

/// The diagnostic of a message, as a function of the message.
pub open spec fn of_message(file: Seq<char>, unit_dir: Seq<char>, root: Seq<char>) -> spec_fn(
    JsonTree,
) -> DiagnosticModel {
    |msg: JsonTree| message_diagnostic(file, msg, unit_dir, root)
}

/// The diagnostics of one file.
pub open spec fn file_diagnostics(result: JsonTree, unit_dir: Seq<char>, root: Seq<char>) -> Seq<
    DiagnosticModel,
> {
    match (result.text_at("filePath"@), result.items_at("messages"@)) {
        (Some(file), Some(messages)) => messages.map_values(of_message(file, unit_dir, root)),
        _ => Seq::empty(),
    }
}

/// The diagnostics of a file, as a function of the file.
pub open spec fn of_file(unit_dir: Seq<char>, root: Seq<char>) -> spec_fn(JsonTree) -> Seq<DiagnosticModel> {
    |result: JsonTree| file_diagnostics(result, unit_dir, root)
}

/// The diagnostics of the JSON value that the output is.
pub open spec fn value_diagnostics(v: JsonTree, unit_dir: Seq<char>, root: Seq<char>) -> Seq<DiagnosticModel> {
    match v.items() {
        Some(files) => flat_map(files, of_file(unit_dir, root)),
        None => Seq::empty(),
    }
}

/// The diagnostics in the output.
pub open spec fn parsed(stdout: Seq<char>, unit_dir: Seq<char>, root: Seq<char>) -> Seq<DiagnosticModel> {
    match json_of_text(trim_of(stdout)) {
        Some(v) => value_diagnostics(v, unit_dir, root),
        None => Seq::empty(),
    }
}

fn from_message(file: &str, msg: &Json, unit_dir: &str, workspace_root: &str) -> (r: Diagnostic)
    ensures
        r.deep_view() == message_diagnostic(file@, tree(*msg), unit_dir@, workspace_root@),
{
    let line = match msg.u64_at("line") {
        Some(n) => low_half(n),
        None => 1,
    };
    let (end_line, end_col) = end_of(msg.u64_at("endLine"), msg.u64_at("endColumn"));
    let severity = match msg.u64_at("severity") {
        Some(n) => if n == 2 {
            Severity::Error
        } else {
            Severity::Warning
        },
        None => Severity::Warning,
    };
    let text = match msg.str_at("message") {
        Some(m) => copy(m),
        None => String::new(),
    };
    let rule = match msg.str_at("ruleId") {
        Some(s) => if s.is_empty() {
            None
        } else {
            Some(copy(s))
        },
        None => None,
    };
    let d = Diagnostic {
        file: normalise_path(file, unit_dir, workspace_root),
        line,
        col: low_half_opt(msg.u64_at("column")),
        end_line,
        end_col,
        severity,
        message: text,
        rule,
        source: copy("eslint"),
    };
    assert(d.message@ =~= text_or(tree(*msg).text_at("message"@), Seq::empty()));
    d
}

/// The diagnostics of the JSON value that the output is.
pub fn from_value(value: &Json, unit_dir: &str, workspace_root: &str) -> (r: Vec<Diagnostic>)
    ensures
        r.deep_view() == value_diagnostics(tree(*value), unit_dir@, workspace_root@),
{
    let mut out: Vec<Diagnostic> = Vec::new();
    let files = match value.as_array() {
        Some(f) => f,
        None => {
            return out;
        },
    };
    let ghost all = trees(files@);
    let ghost f = of_file(unit_dir@, workspace_root@);
    let mut i: usize = 0;
    while i < files.len()
        invariant
            i <= files@.len(),
            all == trees(files@),
            f == of_file(unit_dir@, workspace_root@),
            deep(out@) == flat_map(all.take(i as int), f),
        decreases files.len() - i,
    {
        let result = &files[i];
        let ghost before = deep(out@);
        proof {
            lemma_flat_map_next(all, f, i as int);
            assert(all[i as int] == tree(*result));
            assert(before + Seq::<DiagnosticModel>::empty() =~= before);
        }
        if let Some(file) = result.str_at("filePath") {
            if let Some(messages) = result.array_at("messages") {
                let ghost g = of_message(file@, unit_dir@, workspace_root@);
                let ghost want = trees(messages@).map_values(g);
                let mut j: usize = 0;
                assert(before + want.take(0) =~= before);
                while j < messages.len()
                    invariant
                        j <= messages@.len(),
                        g == of_message(file@, unit_dir@, workspace_root@),
                        want == trees(messages@).map_values(g),
                        deep(out@) == before + want.take(j as int),
                    decreases messages.len() - j,
                {
                    let d = from_message(file, &messages[j], unit_dir, workspace_root);
                    proof {
                        assert(want[j as int] == d.deep_view());
                        assert((before + want.take(j as int)).push(want[j as int]) =~= before + want.take(
                            j + 1,
                        ));
                    }
                    out.push(d);
                    j += 1;
                }
                assert(want.take(messages@.len() as int) =~= want);
            }
        }
        i += 1;
    }
    out
}

/// The diagnostics in the output.
pub fn parse(stdout: &str, _stderr: &str, unit_dir: &str, workspace_root: &str) -> (r: Vec<Diagnostic>)
    ensures
        r.deep_view() == parsed(stdout@, unit_dir@, workspace_root@),
{
    match crate::json::parse(trim(stdout).as_str()) {
        Some(v) => from_value(&v, unit_dir, workspace_root),
        None => Vec::new(),
    }
}

/// The messages about a file: the list that stands beside its path, where there are both.
pub open spec fn messages_of(result: JsonTree) -> Seq<JsonTree> {
    if result.text_at("filePath"@) is Some && result.items_at("messages"@) is Some {
        result.items_at("messages"@)->0
    } else {
        Seq::empty()
    }
}

/// How many messages the first `i` files have.
pub open spec fn messages_before(files: Seq<JsonTree>, i: int) -> int
    decreases i,
{
    if i <= 0 {
        0
    } else {
        messages_before(files, i - 1) + messages_of(files[i - 1]).len()
    }
}

proof fn lemma_messages_before(files: Seq<JsonTree>, unit_dir: Seq<char>, root: Seq<char>, i: int)
    requires
        0 <= i <= files.len(),
    ensures
        messages_before(files, i) == length_before(files, of_file(unit_dir, root), i),
    decreases i,
{
    if i > 0 {
        lemma_messages_before(files, unit_dir, root, i - 1);
    }
}

/// Of the output there are as many diagnostics as its files have messages.
pub proof fn law_each_message_is_counted(v: JsonTree, unit_dir: Seq<char>, root: Seq<char>)
    ensures
        v.items() matches Some(files) ==> value_diagnostics(v, unit_dir, root).len() == messages_before(
            files,
            files.len() as int,
        ),
        v.items() is None ==> value_diagnostics(v, unit_dir, root).len() == 0,
{
    if let Some(files) = v.items() {
        lemma_flat_map_length(files, of_file(unit_dir, root));
        lemma_messages_before(files, unit_dir, root, files.len() as int);
    }
}

/// Each message of each file has a diagnostic, behind those of the files and the messages before it: of
/// that file, at the message's line and column, with its text and its rule. It is an error where the
/// message says 2, and a warning otherwise.
pub proof fn law_each_message_is_reported(v: JsonTree, unit_dir: Seq<char>, root: Seq<char>, i: int, j: int)
    requires
        v.items() is Some,
        0 <= i < v.items()->0.len(),
        0 <= j < messages_of(v.items()->0[i]).len(),
    ensures
        ({
            let files = v.items()->0;
            let m = messages_of(files[i])[j];
            let at = messages_before(files, i) + j;
            let all = value_diagnostics(v, unit_dir, root);
            let d = all[at];
            &&& 0 <= at < all.len()
            &&& d.file == normalised(files[i].text_at("filePath"@)->0, unit_dir, root)
            &&& m.number_at("line"@) matches Some(n) ==> (n <= u32::MAX ==> d.line == n)
            &&& m.number_at("line"@) is None ==> d.line == 1
            &&& m.number_at("column"@) matches Some(n) ==> (n <= u32::MAX ==> d.col == Some(n as u32))
            &&& m.number_at("column"@) is None ==> d.col is None
            &&& d.severity == Severity::Error <==> m.number_at("severity"@) == Some(2u64)
            &&& d.severity == Severity::Error || d.severity == Severity::Warning
            &&& m.text_at("message"@) matches Some(t) ==> d.message == t
            &&& m.text_at("message"@) is None ==> d.message.len() == 0
            &&& m.text_at("ruleId"@) matches Some(t) ==> (t.len() > 0 ==> d.rule == Some(t))
            &&& m.text_at("ruleId"@) is None ==> d.rule is None
            &&& m.number_at("endLine"@) matches Some(l) ==> (m.number_at("endColumn"@) matches Some(c) ==> (l
                <= u32::MAX && c <= u32::MAX ==> d.end_line == Some(l as u32) && d.end_col == Some(c as u32)))
            &&& m.number_at("endLine"@) is None || m.number_at("endColumn"@) is None ==> d.end_line is None
                && d.end_col is None
            &&& d.source == "eslint"@
        }),
{
    let files = v.items()->0;
    let f = of_file(unit_dir, root);
    lemma_flat_map_place(files, f, i, j);
    lemma_messages_before(files, unit_dir, root, i);
    assert(f(files[i])[j] == message_diagnostic(
        files[i].text_at("filePath"@)->0,
        messages_of(files[i])[j],
        unit_dir,
        root,
    ));
}

/// The output is read as the JSON value that it is, without the white space around it; where it is none,
/// there are no diagnostics.
pub proof fn law_output_is_one_value(stdout: Seq<char>, unit_dir: Seq<char>, root: Seq<char>)
    ensures
        json_of_text(trim_of(stdout)) matches Some(v) ==> parsed(stdout, unit_dir, root) == value_diagnostics(
            v,
            unit_dir,
            root,
        ),
        json_of_text(trim_of(stdout)) is None ==> parsed(stdout, unit_dir, root).len() == 0,
{
}

} // verus!
