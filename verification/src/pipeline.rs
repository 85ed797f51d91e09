//! The whole front end in one call: from source text to the schema, or to
//! the diagnostics that say why there is none.

use vstd::prelude::*;
use vstd::string::*;
use crate::chars::{byte_len, lemma_byte_len_is_encoded_len};
use crate::checks::recursion::{check_recursion, messages_view, recursion_errors};
use crate::checks::usage::{check_usage, usage_errors, usage_view, UsageError, UsageErrorView};
use crate::definition::{build_all, lower_all, schema_view, Definition, SchemaDefinition};
use crate::definitions::DefsView;
use crate::diagnostics::{
    compile_error_of, make_compile_error, notes_view, report_view, reports_view, CompileError,
    CompileErrorView, LabelStyle, Report, ReportView, Severity,
};
use crate::grammar::{error_message, parse_spec, ParseErrorView};
use crate::lexer::{tokenize_spec, Lexer};
use crate::parser::{errors_view, parse, ParseError};
use crate::span::Span;

verus! {

/// The reports for recursion errors: none has a further span.
pub open spec fn recursion_reports(errs: Seq<(Seq<char>, Span)>) -> Seq<ReportView> {
    Seq::new(errs.len(), |i: int| (errs[i].0, errs[i].1, Seq::<(Seq<char>, Span)>::empty()))
}

/// The reports for usage errors: each points to the name of the definition
/// that holds the fault as well.
pub open spec fn usage_reports(errs: Seq<UsageErrorView>) -> Seq<ReportView> {
    Seq::new(errs.len(), |i: int| (errs[i].0, errs[i].1, seq![("In this struct"@, errs[i].2)]))
}

/// The reports for parse errors: none has a further span.
pub open spec fn parse_reports(errs: Seq<ParseErrorView>) -> Seq<ReportView> {
    Seq::new(
        errs.len(),
        |i: int| (error_message(errs[i]), errs[i].span, Seq::<(Seq<char>, Span)>::empty()),
    )
}

/// The reports of both checks: first the recursion errors, then the usage
/// errors.
pub open spec fn semantic_reports(defs: DefsView) -> Seq<ReportView> {
    recursion_reports(recursion_errors(defs)) + usage_reports(usage_errors(defs))
}

/// What compiling the text `src` of the file `filename` gives.
///
/// The text is split into tokens and parsed. Where that gives errors, they
/// are the outcome, and no check runs. Else both checks run on the whole
/// program; where they find nothing the outcome is the lowered program, else
/// all that they found.
pub open spec fn compile_spec(filename: Seq<char>, src: Seq<char>) -> Result<
    Seq<SchemaDefinition>,
    CompileErrorView,
> {
    let end = byte_len(src) as usize;
    match parse_spec(tokenize_spec(src), Span { start: end, end }) {
        Ok(defs) => {
            let reports = semantic_reports(defs);
            if reports.len() == 0 {
                Ok(lower_all(defs))
            } else {
                Err(compile_error_of(filename, src, reports))
            }
        },
        Err(errs) => Err(compile_error_of(filename, src, parse_reports(errs))),
    }
}

/// What a compilation gave, in the terms of [`compile_spec`].
pub open spec fn compile_view(r: Result<Vec<Definition>, CompileError>) -> Result<
    Seq<SchemaDefinition>,
    CompileErrorView,
> {
    match r {
        Ok(schema) => Ok(schema_view(schema@)),
        Err(e) => Err(e@),
    }
}

/// Adds the reports for recursion errors to `reports`.
fn report_recursion(reports: &mut Vec<Report>, errs: &Vec<(String, Span)>)
    ensures
        reports_view(final(reports)@) == reports_view(old(reports)@) + recursion_reports(
            messages_view(errs@),
        ),
{
    let ghost start = reports_view(reports@);
    let mut k: usize = 0;
    while k < errs.len()
        invariant
            k <= errs.len(),
            start == reports_view(old(reports)@),
            reports@.len() == old(reports)@.len() + k,
            forall|i: int|
                0 <= i < old(reports)@.len() ==> report_view(#[trigger] reports@[i]) == start[i],
            forall|i: int|
                0 <= i < k ==> report_view(#[trigger] reports@[old(reports)@.len() + i])
                    == recursion_reports(messages_view(errs@))[i],
        decreases errs.len() - k,
    {
        let notes: Vec<(String, Span)> = Vec::new();
        assert(notes_view(notes@) =~= Seq::<(Seq<char>, Span)>::empty());
        reports.push((errs[k].0.clone(), errs[k].1, notes));
        k += 1;
    }
    assert(reports_view(reports@) =~= start + recursion_reports(messages_view(errs@))) by {
        let want = start + recursion_reports(messages_view(errs@));
        let base = old(reports)@.len() as int;
        assert forall|i: int| 0 <= i < want.len() implies reports_view(reports@)[i]
            == want[i] by {
            if i >= base {
                assert(report_view(reports@[base + (i - base)]) == recursion_reports(
                    messages_view(errs@),
                )[i - base]);
            }
        }
    }
}

/// Adds the reports for usage errors to `reports`.
fn report_usage(reports: &mut Vec<Report>, errs: &Vec<UsageError>)
    ensures
        reports_view(final(reports)@) == reports_view(old(reports)@) + usage_reports(
            usage_view(errs@),
        ),
{
    let ghost start = reports_view(reports@);
    let mut k: usize = 0;
    while k < errs.len()
        invariant
            k <= errs.len(),
            start == reports_view(old(reports)@),
            reports@.len() == old(reports)@.len() + k,
            forall|i: int|
                0 <= i < old(reports)@.len() ==> report_view(#[trigger] reports@[i]) == start[i],
            forall|i: int|
                0 <= i < k ==> report_view(#[trigger] reports@[old(reports)@.len() + i])
                    == usage_reports(usage_view(errs@))[i],
        decreases errs.len() - k,
    {
        let mut notes: Vec<(String, Span)> = Vec::new();
        notes.push((String::from_str("In this struct"), errs[k].2));
        assert(notes_view(notes@) =~= seq![("In this struct"@, errs@[k as int].2)]);
        reports.push((errs[k].0.clone(), errs[k].1, notes));
        k += 1;
    }
    assert(reports_view(reports@) =~= start + usage_reports(usage_view(errs@))) by {
        let want = start + usage_reports(usage_view(errs@));
        let base = old(reports)@.len() as int;
        assert forall|i: int| 0 <= i < want.len() implies reports_view(reports@)[i]
            == want[i] by {
            if i >= base {
                assert(report_view(reports@[base + (i - base)]) == usage_reports(
                    usage_view(errs@),
                )[i - base]);
            }
        }
    }
}

/// The reports for parse errors.
fn report_parse(errs: &Vec<ParseError>) -> (reports: Vec<Report>)
    ensures
        reports_view(reports@) == parse_reports(errors_view(errs@)),
{
    let mut reports: Vec<Report> = Vec::new();
    let mut k: usize = 0;
    while k < errs.len()
        invariant
            k <= errs.len(),
            reports@.len() == k,
            forall|i: int|
                0 <= i < k ==> report_view(#[trigger] reports@[i]) == parse_reports(
                    errors_view(errs@),
                )[i],
        decreases errs.len() - k,
    {
        let notes: Vec<(String, Span)> = Vec::new();
        assert(notes_view(notes@) =~= Seq::<(Seq<char>, Span)>::empty());
        reports.push((errs[k].message(), errs[k].span, notes));
        k += 1;
    }
    assert(reports_view(reports@) =~= parse_reports(errors_view(errs@)));
    reports
}

/// Compiles the text `src` of the file `filename`.
///
/// Gives the schema where the text parses and both checks find nothing.
/// Else gives the source with the diagnostics: the parse errors, or, for a
/// text that parses, the recursion errors followed by the usage errors.
/// Nothing but the two texts goes into the outcome.
pub fn compile(filename: &str, src: &str) -> (r: Result<Vec<Definition>, CompileError>)
    ensures
        compile_view(r) == compile_spec(filename@, src@),
{
    let mut lexer = Lexer::new(src);
    let tokens = lexer.tokenize();
    let end = src.as_bytes().len();
    proof {
        lemma_byte_len_is_encoded_len(src@);
    }
    match parse(&tokens, end) {
        Ok(ast) => {
            let mut reports: Vec<Report> = Vec::new();
            assert(reports_view(reports@) =~= Seq::<ReportView>::empty());
            let cycles = check_recursion(&ast);
            report_recursion(&mut reports, &cycles);
            let faults = check_usage(&ast);
            report_usage(&mut reports, &faults);
            assert(reports_view(reports@) =~= semantic_reports(ast@));
            if reports.len() == 0 {
                Ok(build_all(&ast))
            } else {
                Err(make_compile_error(filename, src, &reports))
            }
        },
        Err(errs) => {
            let reports = report_parse(&errs);
            Err(make_compile_error(filename, src, &reports))
        },
    }
}

/// A compilation that fails says why: it gives at least one diagnostic,
/// every diagnostic is an error whose first label is the primary one and
/// repeats its message, and the file name and the source are those that
/// were compiled.
pub proof fn lemma_failure_has_diagnostics(filename: Seq<char>, src: Seq<char>)
    requires
        compile_spec(filename, src) is Err,
    ensures
        compile_spec(filename, src)->Err_0.filename == filename,
        compile_spec(filename, src)->Err_0.source == src,
        compile_spec(filename, src)->Err_0.diagnostics.len() > 0,
        forall|i: int|
            0 <= i < compile_spec(filename, src)->Err_0.diagnostics.len() ==> {
                let d = #[trigger] compile_spec(filename, src)->Err_0.diagnostics[i];
                &&& d.severity == Severity::Error
                &&& d.labels.len() > 0
                &&& d.labels[0].style == LabelStyle::Primary
                &&& d.labels[0].message == d.message
                &&& forall|k: int| 1 <= k < d.labels.len() ==> (#[trigger] d.labels[k]).style
                    == LabelStyle::Secondary
            },
{
    let end = byte_len(src) as usize;
    match parse_spec(tokenize_spec(src), Span { start: end, end }) {
        Ok(defs) => {
            let reports = semantic_reports(defs);
            let e = compile_error_of(filename, src, reports);
            assert forall|i: int| 0 <= i < e.diagnostics.len() implies {
                let d = #[trigger] e.diagnostics[i];
                &&& d.severity == Severity::Error
                &&& d.labels.len() > 0
                &&& d.labels[0].style == LabelStyle::Primary
                &&& d.labels[0].message == d.message
                &&& forall|k: int| 1 <= k < d.labels.len() ==> (#[trigger] d.labels[k]).style
                    == LabelStyle::Secondary
            } by {}
        },
        Err(errs) => {
            let reports = parse_reports(errs);
            let e = compile_error_of(filename, src, reports);
            assert forall|i: int| 0 <= i < e.diagnostics.len() implies {
                let d = #[trigger] e.diagnostics[i];
                &&& d.severity == Severity::Error
                &&& d.labels.len() > 0
                &&& d.labels[0].style == LabelStyle::Primary
                &&& d.labels[0].message == d.message
                &&& forall|k: int| 1 <= k < d.labels.len() ==> (#[trigger] d.labels[k]).style
                    == LabelStyle::Secondary
            } by {}
        },
    }
}

/// Compiling is a function of the two texts: two runs on the same file
/// name and the same source give the same outcome.
pub proof fn lemma_compile_deterministic(
    filename: Seq<char>,
    src: Seq<char>,
    first: Result<Vec<Definition>, CompileError>,
    second: Result<Vec<Definition>, CompileError>,
)
    requires
        compile_view(first) == compile_spec(filename, src),
        compile_view(second) == compile_spec(filename, src),
    ensures
        compile_view(first) == compile_view(second),
{
}

} // verus!
