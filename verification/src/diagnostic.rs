//! Diagnostics reported by the lexer and the parser: an error message with
//! labelled source ranges and notes, in the shape a terminal reporter renders.
use vstd::prelude::*;

verus! {

/// A labelled byte range of a source file.
#[derive(Debug, Clone)]
pub struct Label {
    pub file_id: usize,
    pub start: usize,
    pub end: usize,
    pub message: String,
}

/// An error diagnostic: a message, the source ranges it points at (the first
/// one is the primary label) and trailing notes.
#[derive(Debug, Clone)]
pub struct Diagnostic {
    pub message: String,
    pub labels: Vec<Label>,
    pub notes: Vec<String>,
}

/// The mathematical value of a [`Label`].
pub struct LabelV {
    pub file_id: usize,
    pub start: usize,
    pub end: usize,
    pub message: Seq<char>,
}

/// The mathematical value of a [`Diagnostic`].
pub struct DiagnosticV {
    pub message: Seq<char>,
    pub labels: Seq<LabelV>,
    pub notes: Seq<Seq<char>>,
}

impl View for Label {
    type V = LabelV;

    open spec fn view(&self) -> LabelV {
        LabelV { file_id: self.file_id, start: self.start, end: self.end, message: self.message@ }
    }
}

impl View for Diagnostic {
    type V = DiagnosticV;

    open spec fn view(&self) -> DiagnosticV {
        DiagnosticV {
            message: self.message@,
            labels: self.labels@.map_values(|l: Label| l@),
            notes: self.notes@.map_values(|n: String| n@),
        }
    }
}

/// The views of a sequence of diagnostics.
pub open spec fn diags_view(ds: Seq<Diagnostic>) -> Seq<DiagnosticV> {
    ds.map_values(|d: Diagnostic| d@)
}

/// An error with one primary label and no notes.
pub open spec fn error_diag(
    message: Seq<char>,
    file_id: usize,
    start: usize,
    end: usize,
    label: Seq<char>,
) -> DiagnosticV {
    DiagnosticV {
        message,
        labels: seq![LabelV { file_id, start, end, message: label }],
        notes: seq![],
    }
}

/// `d` with `note` appended to its notes.
pub open spec fn with_note(d: DiagnosticV, note: Seq<char>) -> DiagnosticV {
    DiagnosticV { message: d.message, labels: d.labels, notes: d.notes.push(note) }
}

impl Diagnostic {
    /// An error whose primary label covers `start..end` of file `file_id`.
    pub fn error(message: String, file_id: usize, start: usize, end: usize, label: String) -> (d:
        Diagnostic)
        ensures
            d@ == error_diag(message@, file_id, start, end, label@),
    {
        let mut labels = Vec::new();
        labels.push(Label { file_id, start, end, message: label });
        let d = Diagnostic { message, labels, notes: Vec::new() };
        assert(d@.labels =~= seq![LabelV { file_id, start, end, message: label@ }]);
        assert(d@.notes =~= Seq::<Seq<char>>::empty());
        d
    }

    /// This diagnostic with a note appended.
    pub fn with_note(self, note: String) -> (d: Diagnostic)
        ensures
            d@ == with_note(self@, note@),
    {
        let mut d = self;
        let ghost old_notes = d.notes@;
        d.notes.push(note);
        assert(d@.notes =~= self@.notes.push(note@));
        d
    }
}

/// `errs` with `d` appended, by value.
pub proof fn lemma_diags_push(errs: Seq<Diagnostic>, d: Diagnostic)
    ensures
        diags_view(errs.push(d)) == diags_view(errs).push(d@),
{
    assert(diags_view(errs.push(d)) =~= diags_view(errs).push(d@));
}

} // verus!
