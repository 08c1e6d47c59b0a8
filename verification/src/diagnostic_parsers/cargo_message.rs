//! The output of `cargo --message-format=json`: one JSON value per line, of which the compiler
//! messages hold diagnostics. Each primary span of a message is one.
use vstd::prelude::*;

use super::{end_of, low, low_half, low_half_opt, low_opt, normalise_path, normalised, number_or, range_end, text_or, Diagnostic, DiagnosticModel, Severity};
use crate::deep::{deep, filter_map, flat_map, given_before, lemma_filter_map_next, lemma_filter_map_places, lemma_flat_map_next, lemma_flat_map_place, length_before};
use crate::json::{json_of_text, tree, trees, Json, JsonTree};
use crate::text::{copy, lines, lines_of, same, texts, trim, trim_of};

verus! {

broadcast use {crate::deep::group_deep, crate::deep::lemma_take_all};

/// How bad a message of a level is.
pub open spec fn severity_of(level: Seq<char>) -> Severity {
    if level == "error"@ || level == "failure-note"@ || level == "error: internal compiler error"@ {
        Severity::Error
    } else if level == "warning"@ {
        Severity::Warning
    } else if level == "note"@ {
        Severity::Info
    } else if level == "help"@ {
        Severity::Hint
    } else {
        Severity::Warning
    }
}

fn severity(level: &str) -> (r: Severity)
    ensures
        r == severity_of(level@),
{
    if same(level, "error") || same(level, "failure-note") || same(level, "error: internal compiler error") {
        Severity::Error
    } else if same(level, "warning") {
        Severity::Warning
    } else if same(level, "note") {
        Severity::Info
    } else if same(level, "help") {
        Severity::Hint
    } else {
        Severity::Warning
    }
}

/// The rule that a message names.
pub open spec fn rule_of(message: JsonTree) -> Option<Seq<char>> {
    match message.field("code"@) {
        Some(c) => c.text_at("code"@),
        None => None,
    }
}

/// The diagnostic of a span of a message.
pub open spec fn span_diagnostic(
    message: JsonTree,
    span: JsonTree,
    unit_dir: Seq<char>,
    root: Seq<char>,
) -> Option<DiagnosticModel> {
    match span.text_at("file_name"@) {
        Some(file) if span.boolean_at("is_primary"@) == Some(true) => {
            let end = range_end(span.number_at("line_end"@), span.number_at("column_end"@));
            Some(
                DiagnosticModel {
                    file: normalised(file, unit_dir, root),
                    line: low(number_or(span.number_at("line_start"@), 1)),
                    col: low_opt(span.number_at("column_start"@)),
                    end_line: end.0,
                    end_col: end.1,
                    severity: severity_of(text_or(message.text_at("level"@), "warning"@)),
                    message: text_or(message.text_at("message"@), Seq::empty()),
                    rule: rule_of(message),
                    source: "cargo"@,
                },
            )
        },
        _ => None,
    }
}

/// The diagnostics of the spans of a message, as a function of the span.
pub open spec fn of_span(message: JsonTree, unit_dir: Seq<char>, root: Seq<char>) -> spec_fn(
    JsonTree,
) -> Option<DiagnosticModel> {
    |span: JsonTree| span_diagnostic(message, span, unit_dir, root)
}

/// The diagnostics of one JSON value of the output.
pub open spec fn value_diagnostics(v: JsonTree, unit_dir: Seq<char>, root: Seq<char>) -> Seq<DiagnosticModel> {
    match v.field("message"@) {
        Some(message) if v.text_at("reason"@) == Some("compiler-message"@) => match message.items_at(
            "spans"@,
        ) {
            Some(spans) => filter_map(spans, of_span(message, unit_dir, root)),
            None => Seq::empty(),
        },
        _ => Seq::empty(),
    }
}

/// The diagnostics of one line of the output.
pub open spec fn line_diagnostics(line: Seq<char>, unit_dir: Seq<char>, root: Seq<char>) -> Seq<
    DiagnosticModel,
> {
    match json_of_text(trim_of(line)) {
        Some(v) if trim_of(line).len() > 0 => value_diagnostics(v, unit_dir, root),
        _ => Seq::empty(),
    }
}

/// The diagnostics of a line, as a function of the line.
pub open spec fn of_line(unit_dir: Seq<char>, root: Seq<char>) -> spec_fn(Seq<char>) -> Seq<DiagnosticModel> {
    |line: Seq<char>| line_diagnostics(line, unit_dir, root)
}

/// The diagnostics in the output.
pub open spec fn parsed(stdout: Seq<char>, unit_dir: Seq<char>, root: Seq<char>) -> Seq<DiagnosticModel> {
    flat_map(lines_of(stdout), of_line(unit_dir, root))
}

fn from_span(message: &Json, span: &Json, unit_dir: &str, workspace_root: &str) -> (r: Option<Diagnostic>)
    ensures
        r.deep_view() == span_diagnostic(tree(*message), tree(*span), unit_dir@, workspace_root@),
{
    let primary = match span.bool_at("is_primary") {
        Some(b) => b,
        None => false,
    };
    if !primary {
        return None;
    }
    let file = match span.str_at("file_name") {
        Some(f) => f,
        None => {
            return None;
        },
    };
    let line = match span.u64_at("line_start") {
        Some(n) => low_half(n),
        None => 1,
    };
    let (end_line, end_col) = end_of(span.u64_at("line_end"), span.u64_at("column_end"));
    let level = match message.str_at("level") {
        Some(l) => severity(l),
        None => severity("warning"),
    };
    let text = match message.str_at("message") {
        Some(m) => copy(m),
        None => String::new(),
    };
    let rule = match message.get("code") {
        Some(c) => match c.str_at("code") {
            Some(s) => Some(copy(s)),
            None => None,
        },
        None => None,
    };
    let d = Diagnostic {
        file: normalise_path(file, unit_dir, workspace_root),
        line,
        col: low_half_opt(span.u64_at("column_start")),
        end_line,
        end_col,
        severity: level,
        message: text,
        rule,
        source: copy("cargo"),
    };
    assert(d.message@ =~= text_or(tree(*message).text_at("message"@), Seq::empty()));
    Some(d)
}

/// The diagnostics of one JSON value of the output.
pub fn from_value(value: &Json, unit_dir: &str, workspace_root: &str) -> (r: Vec<Diagnostic>)
    ensures
        r.deep_view() == value_diagnostics(tree(*value), unit_dir@, workspace_root@),
{
    let mut out: Vec<Diagnostic> = Vec::new();
    let wanted = match value.str_at("reason") {
        Some(s) => same(s, "compiler-message"),
        None => false,
    };
    if !wanted {
        return out;
    }
    let message = match value.get("message") {
        Some(m) => m,
        None => {
            return out;
        },
    };
    let spans = match message.array_at("spans") {
        Some(s) => s,
        None => {
            return out;
        },
    };
    let ghost all = trees(spans@);
    let ghost f = of_span(tree(*message), unit_dir@, workspace_root@);
    let mut i: usize = 0;
    while i < spans.len()
        invariant
            i <= spans@.len(),
            all == trees(spans@),
            f == of_span(tree(*message), unit_dir@, workspace_root@),
            deep(out@) == filter_map(all.take(i as int), f),
        decreases spans.len() - i,
    {
        proof {
            lemma_filter_map_next(all, f, i as int);
            assert(all[i as int] == tree(spans@[i as int]));
        }
        if let Some(d) = from_span(message, &spans[i], unit_dir, workspace_root) {
            out.push(d);
        }
        i += 1;
    }
    out
}

/// The diagnostics in the output.
pub fn parse(stdout: &str, _stderr: &str, unit_dir: &str, workspace_root: &str) -> (r: Vec<Diagnostic>)
    ensures
        r.deep_view() == parsed(stdout@, unit_dir@, workspace_root@),
{
    let mut out: Vec<Diagnostic> = Vec::new();
    let ls = lines(stdout);
    let ghost all = texts(ls@);
    let ghost f = of_line(unit_dir@, workspace_root@);
    let mut i: usize = 0;
    while i < ls.len()
        invariant
            i <= ls@.len(),
            all == texts(ls@),
            f == of_line(unit_dir@, workspace_root@),
            deep(out@) == flat_map(all.take(i as int), f),
        decreases ls.len() - i,
    {
        let line = trim(ls[i].as_str());
        let ghost before = deep(out@);
        proof {
            lemma_flat_map_next(all, f, i as int);
            assert(before + Seq::<DiagnosticModel>::empty() =~= before);
        }
        if !line.as_str().is_empty() {
            if let Some(v) = crate::json::parse(line.as_str()) {
                let mut found = from_value(&v, unit_dir, workspace_root);
                let ghost more = found@;
                out.append(&mut found);
                assert(deep(out@) == before + deep(more));
            }
        }
        i += 1;
    }
    out
}

/// Whether a span is a place of its message: it is primary and says in which file it is.
pub open spec fn is_place(span: JsonTree) -> bool {
    span.text_at("file_name"@) is Some && span.boolean_at("is_primary"@) == Some(true)
}

/// How many of the first `i` spans are places.
pub open spec fn places_before(spans: Seq<JsonTree>, i: int) -> int
    decreases i,
{
    if i <= 0 {
        0
    } else {
        places_before(spans, i - 1) + (if is_place(spans[i - 1]) {
            1int
        } else {
            0
        })
    }
}

/// The spans of the message that a value of the output is, where it is one.
pub open spec fn spans_of(v: JsonTree) -> Seq<JsonTree> {
    if v.text_at("reason"@) == Some("compiler-message"@) && v.field("message"@) is Some && v.field(
        "message"@,
    )->0.items_at("spans"@) is Some {
        v.field("message"@)->0.items_at("spans"@)->0
    } else {
        Seq::empty()
    }
}

proof fn lemma_places_before(
    spans: Seq<JsonTree>,
    message: JsonTree,
    unit_dir: Seq<char>,
    root: Seq<char>,
    i: int,
)
    requires
        0 <= i <= spans.len(),
    ensures
        places_before(spans, i) == given_before(spans, of_span(message, unit_dir, root), i),
    decreases i,
{
    if i > 0 {
        lemma_places_before(spans, message, unit_dir, root, i - 1);
    }
}

/// A message has as many diagnostics as it has places; what is no message has none.
pub proof fn law_each_place_is_counted(v: JsonTree, unit_dir: Seq<char>, root: Seq<char>)
    ensures
        value_diagnostics(v, unit_dir, root).len() == places_before(spans_of(v), spans_of(v).len() as int),
{
    if let Some(message) = v.field("message"@) {
        if let Some(spans) = message.items_at("spans"@) {
            lemma_filter_map_places(spans, of_span(message, unit_dir, root));
            lemma_places_before(spans, message, unit_dir, root, spans.len() as int);
        }
    }
}

/// Each place of a message has a diagnostic, behind those of the places before it: of that file, at the
/// span's line and column, with the text and the code of the message, and as bad as its level says.
pub proof fn law_each_place_is_reported(v: JsonTree, unit_dir: Seq<char>, root: Seq<char>, i: int)
    requires
        0 <= i < spans_of(v).len(),
        is_place(spans_of(v)[i]),
    ensures
        ({
            let message = v.field("message"@)->0;
            let span = spans_of(v)[i];
            let at = places_before(spans_of(v), i);
            let all = value_diagnostics(v, unit_dir, root);
            let d = all[at];
            &&& 0 <= at < all.len()
            &&& d.file == normalised(span.text_at("file_name"@)->0, unit_dir, root)
            &&& span.number_at("line_start"@) matches Some(n) ==> (n <= u32::MAX ==> d.line == n)
            &&& span.number_at("line_start"@) is None ==> d.line == 1
            &&& span.number_at("column_start"@) matches Some(n) ==> (n <= u32::MAX ==> d.col == Some(n as u32))
            &&& span.number_at("column_start"@) is None ==> d.col is None
            &&& span.number_at("line_end"@) matches Some(l) ==> (span.number_at("column_end"@) matches Some(c) ==> (l
                <= u32::MAX && c <= u32::MAX ==> d.end_line == Some(l as u32) && d.end_col == Some(c as u32)))
            &&& span.number_at("line_end"@) is None || span.number_at("column_end"@) is None ==> d.end_line is None
                && d.end_col is None
            &&& message.text_at("level"@) == Some("error"@) ==> d.severity == Severity::Error
            &&& message.text_at("level"@) == Some("failure-note"@) ==> d.severity == Severity::Error
            &&& message.text_at("level"@) == Some("error: internal compiler error"@) ==> d.severity == Severity::Error
            &&& message.text_at("level"@) == Some("warning"@) ==> d.severity == Severity::Warning
            &&& message.text_at("level"@) == Some("note"@) ==> d.severity == Severity::Info
            &&& message.text_at("level"@) == Some("help"@) ==> d.severity == Severity::Hint
            &&& message.text_at("level"@) is None ==> d.severity == Severity::Warning
            &&& message.text_at("message"@) matches Some(t) ==> d.message == t
            &&& message.text_at("message"@) is None ==> d.message.len() == 0
            &&& message.field("code"@) matches Some(c) ==> d.rule == c.text_at("code"@)
            &&& message.field("code"@) is None ==> d.rule is None
            &&& d.source == "cargo"@
        }),
{
    let message = v.field("message"@)->0;
    let spans = message.items_at("spans"@)->0;
    lemma_filter_map_places(spans, of_span(message, unit_dir, root));
    lemma_places_before(spans, message, unit_dir, root, i);
    reveal_strlit("error");
    reveal_strlit("failure-note");
    reveal_strlit("error: internal compiler error");
    reveal_strlit("warning");
    reveal_strlit("note");
    reveal_strlit("help");
    assert("error"@[0] == 'e' && "failure-note"@[0] == 'f' && "error: internal compiler error"@[0] == 'e');
    assert("warning"@[0] == 'w' && "note"@[0] == 'n' && "help"@[0] == 'h');
    assert(of_span(message, unit_dir, root)(spans[i]) is Some);
}

/// The diagnostics of the output are those of its lines, one line after the other; a line that is not
/// JSON has none and does not keep the others from theirs.
pub proof fn law_each_line_is_read(stdout: Seq<char>, unit_dir: Seq<char>, root: Seq<char>, i: int, j: int)
    requires
        0 <= i < lines_of(stdout).len(),
        trim_of(lines_of(stdout)[i]).len() > 0,
        json_of_text(trim_of(lines_of(stdout)[i])) is Some,
        0 <= j < value_diagnostics(json_of_text(trim_of(lines_of(stdout)[i]))->0, unit_dir, root).len(),
    ensures
        ({
            let of_this = value_diagnostics(json_of_text(trim_of(lines_of(stdout)[i]))->0, unit_dir, root);
            let at = length_before(lines_of(stdout), of_line(unit_dir, root), i) + j;
            0 <= at < parsed(stdout, unit_dir, root).len() && parsed(stdout, unit_dir, root)[at] == of_this[j]
        }),
{
    let lines = lines_of(stdout);
    let f = of_line(unit_dir, root);
    lemma_flat_map_place(lines, f, i, j);
    assert(f(lines[i])[j] == value_diagnostics(json_of_text(trim_of(lines[i]))->0, unit_dir, root)[j]);
}

} // verus!
