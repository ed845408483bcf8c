//! Warnings, as the analyses issue them.

use vstd::prelude::*;

verus! {

/// A remark that goes with a warning, at a place of its own or at that of the warning.
#[derive(Debug)]
pub struct Note {
    pub span: Option<u64>,
    pub text: String,
}

/// A warning at a place in the source.
#[derive(Debug)]
pub struct Diagnostic {
    pub span: u64,
    pub message: String,
    pub notes: Vec<Note>,
    pub help: String,
}

/// What a note says.
#[verifier::ext_equal]
pub struct NoteView {
    pub span: Option<u64>,
    pub text: Seq<char>,
}

/// What a warning says.
#[verifier::ext_equal]
pub struct DiagnosticView {
    pub span: u64,
    pub message: Seq<char>,
    pub notes: Seq<NoteView>,
    pub help: Seq<char>,
}

impl View for Note {
    type V = NoteView;

    open spec fn view(&self) -> NoteView {
        NoteView { span: self.span, text: self.text@ }
    }
}

/// What a list of notes says.
pub open spec fn note_views(notes: Seq<Note>) -> Seq<NoteView> {
    notes.map_values(|n: Note| n@)
}

impl View for Diagnostic {
    type V = DiagnosticView;

    open spec fn view(&self) -> DiagnosticView {
        DiagnosticView {
            span: self.span,
            message: self.message@,
            notes: note_views(self.notes@),
            help: self.help@,
        }
    }
}

/// What a list of warnings says.
pub open spec fn diagnostic_views(list: Seq<Diagnostic>) -> Seq<DiagnosticView> {
    list.map_values(|d: Diagnostic| d@)
}

/// A remark at the place of its warning.
pub open spec fn plain_note(text: Seq<char>) -> NoteView {
    NoteView { span: None, text }
}

/// A warning as a list of one; the empty list where there is none.
pub open spec fn as_list(d: Option<DiagnosticView>) -> Seq<DiagnosticView> {
    match d {
        Some(d) => seq![d],
        None => Seq::empty(),
    }
}

/// What an optional warning says.
pub open spec fn option_view(d: Option<Diagnostic>) -> Option<DiagnosticView> {
    match d {
        Some(d) => Some(d@),
        None => None,
    }
}

/// A warning whose remarks all stand at its own place.
pub fn warning(span: u64, message: String, notes: Vec<String>, help: String) -> (r: Diagnostic)
    ensures
        r@ == (DiagnosticView {
            span,
            message: message@,
            notes: notes@.map_values(|t: String| plain_note(t@)),
            help: help@,
        }),
{
    let mut list: Vec<Note> = Vec::new();
    let mut i: usize = 0;
    while i < notes.len()
        invariant
            i <= notes.len(),
            list@.len() == i,
            forall|j: int| 0 <= j < i ==> (#[trigger] list@[j])@ == plain_note(notes@[j]@),
        decreases notes.len() - i,
    {
        list.push(Note { span: None, text: notes[i].clone() });
        i += 1;
    }
    assert(note_views(list@) =~= notes@.map_values(|t: String| plain_note(t@)));
    Diagnostic { span, message, notes: list, help }
}

/// Adds a warning, where there is one, to a list.
pub fn push_if_some(list: &mut Vec<Diagnostic>, d: Option<Diagnostic>)
    ensures
        diagnostic_views(final(list)@) == diagnostic_views(old(list)@) + as_list(option_view(d)),
{
    match d {
        Some(d) => {
            list.push(d);
            assert(diagnostic_views(final(list)@) =~= diagnostic_views(old(list)@) + seq![d@]);
        },
        None => {
            assert(diagnostic_views(final(list)@) =~= diagnostic_views(old(list)@) + Seq::empty());
        },
    }
}

} // verus!
