//! Diagnostics: what a failed compilation reports, as plain data that a
//! renderer can show against the source text.

use vstd::prelude::*;
use crate::span::Span;

verus! {

/// How grave a diagnostic is. The compiler itself only reports errors.
#[derive(Clone, Copy, Debug, PartialEq, Eq, Structural)]
pub enum Severity {
    Bug,
    Error,
    Warning,
    Note,
    Help,
}

/// Whether a label marks the fault itself or something that explains it.
#[derive(Clone, Copy, Debug, PartialEq, Eq, Structural)]
pub enum LabelStyle {
    Primary,
    Secondary,
}

/// The identifier of a source file. A compilation has one file, with the
/// identifier 0.
pub type FileId = usize;

/// A marked stretch of a source file with a message.
#[derive(Debug)]
pub struct Label {
    pub style: LabelStyle,
    pub file_id: FileId,
    pub span: Span,
    pub message: String,
}

/// The view of a [`Label`].
pub struct LabelView {
    pub style: LabelStyle,
    pub file_id: FileId,
    pub span: Span,
    pub message: Seq<char>,
}

impl View for Label {
    type V = LabelView;

    open spec fn view(&self) -> LabelView {
        LabelView {
            style: self.style,
            file_id: self.file_id,
            span: self.span,
            message: self.message@,
        }
    }
}

/// One diagnostic: a message and the labels that locate it.
#[derive(Debug)]
pub struct Diagnostic {
    pub severity: Severity,
    pub message: String,
    pub labels: Vec<Label>,
}

/// The view of a [`Diagnostic`].
pub struct DiagnosticView {
    pub severity: Severity,
    pub message: Seq<char>,
    pub labels: Seq<LabelView>,
}

/// The views of a run of labels, in order.
pub open spec fn labels_view(s: Seq<Label>) -> Seq<LabelView> {
    Seq::new(s.len(), |i: int| s[i]@)
}

impl View for Diagnostic {
    type V = DiagnosticView;

    open spec fn view(&self) -> DiagnosticView {
        DiagnosticView {
            severity: self.severity,
            message: self.message@,
            labels: labels_view(self.labels@),
        }
    }
}

/// The views of a run of diagnostics, in order.
pub open spec fn diagnostics_view(s: Seq<Diagnostic>) -> Seq<DiagnosticView> {
    Seq::new(s.len(), |i: int| s[i]@)
}

/// Why a compilation failed: the source file and the diagnostics, in the
/// order in which they were found.
#[derive(Debug)]
pub struct CompileError {
    pub filename: String,
    pub source: String,
    pub diagnostics: Vec<Diagnostic>,
}

/// The view of a [`CompileError`].
pub struct CompileErrorView {
    pub filename: Seq<char>,
    pub source: Seq<char>,
    pub diagnostics: Seq<DiagnosticView>,
}

impl View for CompileError {
    type V = CompileErrorView;

    open spec fn view(&self) -> CompileErrorView {
        CompileErrorView {
            filename: self.filename@,
            source: self.source@,
            diagnostics: diagnostics_view(self.diagnostics@),
        }
    }
}

/// An error before it becomes a diagnostic: the message, the span of the
/// fault, and further spans with their messages.
pub type Report = (String, Span, Vec<(String, Span)>);

/// The view of a [`Report`].
pub type ReportView = (Seq<char>, Span, Seq<(Seq<char>, Span)>);

/// The view of the further spans of a report.
pub open spec fn notes_view(s: Seq<(String, Span)>) -> Seq<(Seq<char>, Span)> {
    Seq::new(s.len(), |i: int| (s[i].0@, s[i].1))
}

/// The view of one report.
pub open spec fn report_view(r: Report) -> ReportView {
    (r.0@, r.1, notes_view(r.2@))
}

/// The views of a run of reports, in order.
pub open spec fn reports_view(s: Seq<Report>) -> Seq<ReportView> {
    Seq::new(s.len(), |i: int| report_view(s[i]))
}

/// The secondary labels for `notes`, in order.
pub open spec fn secondary_labels(file_id: FileId, notes: Seq<(Seq<char>, Span)>) -> Seq<LabelView> {
    Seq::new(
        notes.len(),
        |i: int|
            LabelView {
                style: LabelStyle::Secondary,
                file_id,
                span: notes[i].1,
                message: notes[i].0,
            },
    )
}

/// The diagnostic for an error: an error with the message `msg`, a primary
/// label at `primary` that repeats the message, and one secondary label for
/// each of `secondaries`, in their order.
pub open spec fn diagnostic_of(
    file_id: FileId,
    msg: Seq<char>,
    primary: Span,
    secondaries: Seq<(Seq<char>, Span)>,
) -> DiagnosticView {
    DiagnosticView {
        severity: Severity::Error,
        message: msg,
        labels: seq![
            LabelView { style: LabelStyle::Primary, file_id, span: primary, message: msg },
        ] + secondary_labels(file_id, secondaries),
    }
}

/// The compile error for `errs`: the one file has the identifier 0, and
/// each error becomes a diagnostic, in order.
pub open spec fn compile_error_of(filename: Seq<char>, src: Seq<char>, errs: Seq<ReportView>)
    -> CompileErrorView {
    CompileErrorView {
        filename,
        source: src,
        diagnostics: Seq::new(
            errs.len(),
            |i: int| diagnostic_of(0, errs[i].0, errs[i].1, errs[i].2),
        ),
    }
}

/// Makes the diagnostic for one error.
pub fn make_diagnostic(
    file_id: FileId,
    msg: &str,
    primary: Span,
    secondaries: &Vec<(String, Span)>,
) -> (d: Diagnostic)
    ensures
        d@ == diagnostic_of(file_id, msg@, primary, notes_view(secondaries@)),
{
    let mut labels: Vec<Label> = Vec::new();
    labels.push(
        Label {
            style: LabelStyle::Primary,
            file_id,
            span: primary,
            message: crate::text::copy_str(msg),
        },
    );
    let mut k: usize = 0;
    while k < secondaries.len()
        invariant
            k <= secondaries.len(),
            labels@.len() == k + 1,
            labels@[0]@ == (LabelView {
                style: LabelStyle::Primary,
                file_id,
                span: primary,
                message: msg@,
            }),
            forall|i: int|
                0 <= i < k ==> (#[trigger] labels@[i + 1])@ == secondary_labels(
                    file_id,
                    notes_view(secondaries@),
                )[i],
        decreases secondaries.len() - k,
    {
        labels.push(
            Label {
                style: LabelStyle::Secondary,
                file_id,
                span: secondaries[k].1,
                message: secondaries[k].0.clone(),
            },
        );
        k += 1;
    }
    let d = Diagnostic { severity: Severity::Error, message: crate::text::copy_str(msg), labels };
    assert(d@.labels =~= diagnostic_of(
        file_id,
        msg@,
        primary,
        notes_view(secondaries@),
    ).labels) by {
        let want = diagnostic_of(file_id, msg@, primary, notes_view(secondaries@)).labels;
        assert(d@.labels.len() == want.len());
        assert forall|i: int| 0 <= i < want.len() implies d@.labels[i] == want[i] by {
            if i > 0 {
                assert(labels@[(i - 1) + 1]@ == secondary_labels(
                    file_id,
                    notes_view(secondaries@),
                )[i - 1]);
            }
        }
    }
    d
}

/// Makes the compile error for the errors `errs` found in the file
/// `filename` with the text `src`.
pub fn make_compile_error(filename: &str, src: &str, errs: &Vec<Report>) -> (e: CompileError)
    ensures
        e@ == compile_error_of(filename@, src@, reports_view(errs@)),
{
    let mut diagnostics: Vec<Diagnostic> = Vec::new();
    let mut k: usize = 0;
    while k < errs.len()
        invariant
            k <= errs.len(),
            diagnostics@.len() == k,
            forall|i: int|
                0 <= i < k ==> (#[trigger] diagnostics@[i])@ == diagnostic_of(
                    0,
                    errs@[i].0@,
                    errs@[i].1,
                    notes_view(errs@[i].2@),
                ),
        decreases errs.len() - k,
    {
        diagnostics.push(make_diagnostic(0, errs[k].0.as_str(), errs[k].1, &errs[k].2));
        k += 1;
    }
    let e = CompileError {
        filename: crate::text::copy_str(filename),
        source: crate::text::copy_str(src),
        diagnostics,
    };
    assert(e@.diagnostics =~= compile_error_of(filename@, src@, reports_view(errs@)).diagnostics);
    e
}

} // verus!
