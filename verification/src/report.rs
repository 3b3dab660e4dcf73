//! What the checker has to say about a program: errors and warnings, as values.

use vstd::prelude::*;
use crate::location::Location;
use crate::name::{Name, NameView};
use crate::text::{Text, decimal, decimal_text, joined};

verus! {

/// An error or a warning, over names of type `N`, texts of type `T` and counts of type `C`.
#[derive(Debug)]
pub enum ReportOf<N, T, C> {
    /// A name that no scope binds.
    UndefinedName { name: N, used_here: Location },
    /// A read of a value whose scope has ended.
    DroppedRead { name: N, used_here: Location, stored_here: Location, dropped_here: Location },
    /// A read of a value that was never checked to be safe.
    UnsafeRead { name: N, used_here: Location, stored_here: Location },
    /// A read of a value that was never set.
    UninitializedRead { name: N, used_here: Location },
    /// A read of a value that was given away.
    MovedRead { name: N, used_here: Location, moved_here: Location },
    /// An argument that leads to a value that was never set.
    UninitializedArg { callsite: Location, stored_here: Location },
    /// An argument that leads to a value whose scope has ended.
    DroppedArg { name: N, callsite: Location, stored_here: Location, dropped_here: Location },
    /// An argument that leads to a value that was given away.
    MovedArg { name: N, callsite: Location, moved_here: Location },
    /// An argument that leads to a function where a pointer is expected.
    FunctionArg { callsite: Location },
    /// An argument that has fewer pointers than its parameter.
    DepthMismatch {
        callsite: Location,
        changed_here: Option<Location>,
        expected_here: Location,
        depth: C,
    },
    /// An argument that leads to constant storage where the parameter wants to change it.
    ConstArg { callsite: Location, stored_here: Location },
    /// An argument that leads to tainted storage.
    TaintedArg { name: N, callsite: Location },
    /// An argument that would taint borrowed storage without saying so.
    TaintsBorrowed { taint: T, callsite: Location, stored_here: Location },
    /// An argument that would give away storage on the stack.
    MovesStack { name: N, callsite: Location },
    /// An argument that would give away borrowed storage.
    MovesBorrowed {
        name: N,
        callsite: Location,
        required_here: Location,
        stored_here: Location,
    },
    /// An argument that leads to unsafe storage where the parameter is safe.
    UnsafeArg { callsite: Location, stored_here: Location },
    /// A literal where storage is expected.
    LiteralStorage { loc: Location },
    /// A call with a number of arguments that the function does not take.
    ArgumentCount { loc: Location, expected: C, passed: C },
    /// A call of something that is not a function.
    NotAFunction { loc: Location },
    /// An infix operation where storage is expected.
    InfixStorage { loc: Location },
    /// A `*` before something that is not a pointer.
    BadDereference { loc: Location, changed_here: Option<Location> },
    /// A mark on something that is not storage.
    MarkTarget { loc: Location },
    /// A variable that starts with a value of unknown lifetime.
    UnknownRvalue { loc: Location },
    /// An assignment of a value of unknown lifetime.
    InvalidRvalue { loc: Location },
    /// An assignment to storage that is not mutable.
    ImmutableAssign { loc: Location, stored_here: Location },
    /// An assignment to something that is not storage.
    InvalidLvalue { loc: Location },
    /// A return that loses a value that a call moved into the function.
    Orphaned { call_loc: Location, loc: Location },
}

/// An error or a warning.
pub type Report = ReportOf<Name, String, usize>;

/// What a [`Report`] holds.
pub type ReportView = ReportOf<NameView, Text, nat>;

/// A remark on a place in the source text.
#[derive(Debug)]
pub struct Note {
    pub loc: Location,
    pub text: String,
}

/// What a [`Note`] holds.
pub struct NoteView {
    pub loc: Location,
    pub text: Text,
}

impl View for Note {
    type V = NoteView;

    open spec fn view(&self) -> NoteView {
        NoteView { loc: self.loc, text: self.text@ }
    }
}

/// What each note of a sequence holds.
pub open spec fn note_views(notes: Seq<Note>) -> Seq<NoteView> {
    Seq::new(notes.len(), |i: int| notes[i]@)
}

/// What each report of a sequence holds.
pub open spec fn report_views(reports: Seq<Report>) -> Seq<ReportView> {
    Seq::new(reports.len(), |i: int| reports[i]@)
}

/// Whether a report is an error. All others are warnings, and do not stop the build.
pub open spec fn is_error(r: ReportView) -> bool {
    !(r is NotAFunction || r is UnknownRvalue || r is InvalidRvalue)
}

/// Whether there is an error among the reports.
pub open spec fn has_error(rs: Seq<ReportView>) -> bool {
    exists|i: int| 0 <= i < rs.len() && is_error(#[trigger] rs[i])
}

impl<N, T, C> ReportOf<N, T, C> {
    /// Whether the report is an error rather than a warning.
    pub fn is_error(&self) -> (error: bool)
        ensures
            error == !(self is NotAFunction || self is UnknownRvalue || self is InvalidRvalue),
    {
        match self {
            ReportOf::NotAFunction { .. } => false,
            ReportOf::UnknownRvalue { .. } => false,
            ReportOf::InvalidRvalue { .. } => false,
            _ => true,
        }
    }
}

impl View for Report {
    type V = ReportView;

    open spec fn view(&self) -> ReportView {
        match *self {
            ReportOf::UndefinedName { name, used_here } => ReportOf::UndefinedName {
                name: name@,
                used_here,
            },
            ReportOf::DroppedRead { name, used_here, stored_here, dropped_here } =>
                ReportOf::DroppedRead { name: name@, used_here, stored_here, dropped_here },
            ReportOf::UnsafeRead { name, used_here, stored_here } => ReportOf::UnsafeRead {
                name: name@,
                used_here,
                stored_here,
            },
            ReportOf::UninitializedRead { name, used_here } => ReportOf::UninitializedRead {
                name: name@,
                used_here,
            },
            ReportOf::MovedRead { name, used_here, moved_here } => ReportOf::MovedRead {
                name: name@,
                used_here,
                moved_here,
            },
            ReportOf::UninitializedArg { callsite, stored_here } => ReportOf::UninitializedArg {
                callsite,
                stored_here,
            },
            ReportOf::DroppedArg { name, callsite, stored_here, dropped_here } =>
                ReportOf::DroppedArg { name: name@, callsite, stored_here, dropped_here },
            ReportOf::MovedArg { name, callsite, moved_here } => ReportOf::MovedArg {
                name: name@,
                callsite,
                moved_here,
            },
            ReportOf::FunctionArg { callsite } => ReportOf::FunctionArg { callsite },
            ReportOf::DepthMismatch { callsite, changed_here, expected_here, depth } =>
                ReportOf::DepthMismatch {
                callsite,
                changed_here,
                expected_here,
                depth: depth as nat,
            },
            ReportOf::ConstArg { callsite, stored_here } => ReportOf::ConstArg {
                callsite,
                stored_here,
            },
            ReportOf::TaintedArg { name, callsite } => ReportOf::TaintedArg {
                name: name@,
                callsite,
            },
            ReportOf::TaintsBorrowed { taint, callsite, stored_here } => ReportOf::TaintsBorrowed {
                taint: taint@,
                callsite,
                stored_here,
            },
            ReportOf::MovesStack { name, callsite } => ReportOf::MovesStack {
                name: name@,
                callsite,
            },
            ReportOf::MovesBorrowed { name, callsite, required_here, stored_here } =>
                ReportOf::MovesBorrowed { name: name@, callsite, required_here, stored_here },
            ReportOf::UnsafeArg { callsite, stored_here } => ReportOf::UnsafeArg {
                callsite,
                stored_here,
            },
            ReportOf::LiteralStorage { loc } => ReportOf::LiteralStorage { loc },
            ReportOf::ArgumentCount { loc, expected, passed } => ReportOf::ArgumentCount {
                loc,
                expected: expected as nat,
                passed: passed as nat,
            },
            ReportOf::NotAFunction { loc } => ReportOf::NotAFunction { loc },
            ReportOf::InfixStorage { loc } => ReportOf::InfixStorage { loc },
            ReportOf::BadDereference { loc, changed_here } => ReportOf::BadDereference {
                loc,
                changed_here,
            },
            ReportOf::MarkTarget { loc } => ReportOf::MarkTarget { loc },
            ReportOf::UnknownRvalue { loc } => ReportOf::UnknownRvalue { loc },
            ReportOf::InvalidRvalue { loc } => ReportOf::InvalidRvalue { loc },
            ReportOf::ImmutableAssign { loc, stored_here } => ReportOf::ImmutableAssign {
                loc,
                stored_here,
            },
            ReportOf::InvalidLvalue { loc } => ReportOf::InvalidLvalue { loc },
            ReportOf::Orphaned { call_loc, loc } => ReportOf::Orphaned { call_loc, loc },
        }
    }
}

/// The headline of a report.
pub open spec fn headline(r: ReportView) -> Text {
    match r {
        ReportOf::UndefinedName { name, .. } => "undefined name '"@ + joined(name) + "' "@,
        ReportOf::DroppedRead { name, .. } => "illegal read access to dropped value "@ + joined(
            name,
        ),
        ReportOf::UnsafeRead { name, .. } => "illegal read access to unsafe storage "@ + joined(
            name,
        ),
        ReportOf::UninitializedRead { name, .. } => "illegal read access to unitialized variable "@
            + joined(name),
        ReportOf::MovedRead { name, .. } => "illegal read access of moved value "@ + joined(name),
        ReportOf::UninitializedArg { .. } => "uninitialized pointer arg passed as safe pointer"@,
        ReportOf::DroppedArg { name, .. } => "passing dropped value as safe pointer "@ + joined(
            name,
        ),
        ReportOf::MovedArg { name, .. } => "passing moved value '"@ + joined(name)
            + "' as safe pointer "@,
        ReportOf::FunctionArg { .. } => "ICE: trying to pass function as pointer"@,
        ReportOf::DepthMismatch { .. } => "incompatible argument"@,
        ReportOf::ConstArg { .. } =>
            "const pointer cannot be used as mut pointer in function call"@,
        ReportOf::TaintedArg { name, .. } => "cannot use tainted local '"@ + joined(name) + "'"@,
        ReportOf::TaintsBorrowed { .. } => "call would taint borrowed callsite"@,
        ReportOf::MovesStack { .. } => "cannot move stack"@,
        ReportOf::MovesBorrowed { .. } => "cannot move borrowed pointer"@,
        ReportOf::UnsafeArg { .. } => "passing unsafe pointer to safe function call"@,
        ReportOf::LiteralStorage { .. } => "lvalue expression is not a storage location"@,
        ReportOf::ArgumentCount { .. } => "call argument count mismatch"@,
        ReportOf::NotAFunction { .. } => "lvalue is not a valid function"@,
        ReportOf::InfixStorage { .. } => "value expression is not a storage location"@,
        ReportOf::BadDereference { .. } => "dereferencing something that is not a pointer"@,
        ReportOf::MarkTarget { .. } => "lvalue is not a storage location"@,
        ReportOf::UnknownRvalue { .. } => "rvalue has unknown lifetime"@,
        ReportOf::InvalidRvalue { .. } => "rvalue has invalid lifetime"@,
        ReportOf::ImmutableAssign { .. } => "cannot assign to immutable storage"@,
        ReportOf::InvalidLvalue { .. } => "lvalue has invalid lifetime"@,
        ReportOf::Orphaned { .. } => "function returns orphaning moved pointer"@,
    }
}

/// A note on `loc`.
pub open spec fn note_at(loc: Location, text: Text) -> NoteView {
    NoteView { loc, text }
}

/// The notes of a report, in the order in which they are shown.
pub open spec fn notes(r: ReportView) -> Seq<NoteView> {
    match r {
        ReportOf::UndefinedName { name, used_here } => seq![
            note_at(used_here, "'"@ + joined(name) + "' is not defined in this scope"@),
        ],
        ReportOf::DroppedRead { used_here, stored_here, dropped_here, .. } => seq![
            note_at(used_here, "used here"@),
            note_at(stored_here, "points at this storage location"@),
            note_at(dropped_here, "which was dropped here"@),
        ],
        ReportOf::UnsafeRead { used_here, stored_here, .. } => seq![
            note_at(used_here, "used here"@),
            note_at(
                stored_here,
                "suggestion: add a runtime check for this value and mark it safe"@,
            ),
        ],
        ReportOf::UninitializedRead { used_here, .. } => seq![note_at(used_here, "used here"@)],
        ReportOf::MovedRead { used_here, moved_here, .. } => seq![
            note_at(used_here, "use of moved value"@),
            note_at(moved_here, "was moved here"@),
        ],
        ReportOf::UninitializedArg { callsite, stored_here } => seq![
            note_at(callsite, "this pointer must be safe"@),
            note_at(stored_here, "but this value is unitialized"@),
        ],
        ReportOf::DroppedArg { callsite, stored_here, dropped_here, .. } => seq![
            note_at(callsite, "used here"@),
            note_at(stored_here, "points at this storage location"@),
            note_at(dropped_here, "which was dropped here"@),
        ],
        ReportOf::MovedArg { callsite, moved_here, .. } => seq![
            note_at(callsite, "use of moved value"@),
            note_at(moved_here, "was moved here"@),
        ],
        ReportOf::FunctionArg { callsite } => seq![
            note_at(callsite, "cannot determine lifetime of expression"@),
        ],
        ReportOf::DepthMismatch { callsite, changed_here, expected_here, depth } =>
            match changed_here {
            Some(change) => seq![
                note_at(callsite, "this expression has a different pointer depth"@),
                note_at(change, "value assigned here might not be a pointer"@),
                note_at(expected_here, "expected at depth "@ + decimal(depth) + " here"@),
            ],
            None => seq![
                note_at(callsite, "this value has a different pointer depth"@),
                note_at(expected_here, "expected this type"@),
            ],
        },
        ReportOf::ConstArg { callsite, stored_here } => seq![
            note_at(callsite, "this expression must yield a mutable pointer"@),
            note_at(stored_here, "suggestion: change this declaration to mutable"@),
        ],
        ReportOf::TaintedArg { name, callsite } => seq![
            note_at(callsite, "'"@ + joined(name) + "' is tainted"@),
        ],
        ReportOf::TaintsBorrowed { taint, callsite, stored_here } => seq![
            note_at(
                callsite,
                "this expression would taint the callsite with undeclared taint '"@ + taint + "'"@,
            ),
            note_at(stored_here, "try adding a taint<"@ + taint + "> tag here"@),
        ],
        ReportOf::MovesStack { name, callsite } => seq![
            note_at(
                callsite,
                "this expression would move '"@ + joined(name)
                    + "' out of scope, which is on the stack"@,
            ),
        ],
        ReportOf::MovesBorrowed { name, callsite, required_here, stored_here } => seq![
            note_at(callsite, "this expression would move '"@ + joined(name) + "' out of scope"@),
            note_at(required_here, "required because this call argument is move"@),
            note_at(stored_here, "try changing this declaration to move"@),
        ],
        ReportOf::UnsafeArg { callsite, stored_here } => seq![
            note_at(callsite, "this expression must be safe"@),
            note_at(
                stored_here,
                "suggestion: add a runtime check for this value and mark it safe"@,
            ),
        ],
        ReportOf::LiteralStorage { loc } => seq![note_at(loc, "literal cannot be used as lvalue"@)],
        ReportOf::ArgumentCount { loc, expected, passed } => seq![
            note_at(
                loc,
                "this function expects "@ + decimal(expected) + " arguments, but you passed "@
                    + decimal(passed),
            ),
        ],
        ReportOf::NotAFunction { loc } => seq![
            note_at(loc, "this expression cannot be used as function"@),
        ],
        ReportOf::InfixStorage { loc } => seq![
            note_at(loc, "this expression cannot be used as lvalue"@),
        ],
        ReportOf::BadDereference { loc, changed_here } => match changed_here {
            Some(change) => seq![
                note_at(loc, "cannot determine lifetime of expression"@),
                note_at(change, "this assignment does not make a valid pointer"@),
            ],
            None => seq![note_at(loc, "cannot determine lifetime of expression"@)],
        },
        ReportOf::MarkTarget { loc } => seq![
            note_at(loc, "left hand side doesn't name something with a lifetime"@),
        ],
        ReportOf::UnknownRvalue { loc } => seq![
            note_at(loc, "cannot determine lifetime of right hand side"@),
        ],
        ReportOf::InvalidRvalue { loc } => seq![
            note_at(loc, "cannot determine lifetime of right hand side"@),
        ],
        ReportOf::ImmutableAssign { loc, stored_here } => seq![
            note_at(loc, "lvalue expression must be mutable"@),
            note_at(stored_here, "suggestion: change this declaration to mutable"@),
        ],
        ReportOf::InvalidLvalue { loc } => seq![
            note_at(loc, "cannot determine lifetime of left hand side"@),
        ],
        ReportOf::Orphaned { call_loc, loc } => seq![
            note_at(call_loc, "the call moves a return value into scope"@),
            note_at(loc, "but will be orphaned here"@),
        ],
    }
}

/// Puts `middle` between `front` and `back`.
fn between(front: &str, middle: String, back: &str) -> (t: String)
    ensures
        t@ == front@ + middle@ + back@,
{
    let mut t = front.to_owned();
    t.append(middle.as_str());
    t.append(back);
    t
}

/// Puts `back` behind `front`.
fn behind(front: &str, back: String) -> (t: String)
    ensures
        t@ == front@ + back@,
{
    let mut t = front.to_owned();
    t.append(back.as_str());
    t
}

/// Adds a note to a list of notes.
fn add_note(list: &mut Vec<Note>, loc: Location, text: String)
    ensures
        note_views(final(list)@) == note_views(old(list)@).push(note_at(loc, text@)),
{
    list.push(Note { loc, text });
    assert(note_views(list@) =~= note_views(old(list)@).push(note_at(loc, text@)));
}

impl ReportOf<Name, String, usize> {
    /// The headline of the report.
    pub fn headline(&self) -> (t: String)
        ensures
            t@ == headline(self@),
    {
        match self {
            ReportOf::UndefinedName { name, .. } => between(
                "undefined name '",
                name.to_text(),
                "' ",
            ),
            ReportOf::DroppedRead { name, .. } => behind(
                "illegal read access to dropped value ",
                name.to_text(),
            ),
            ReportOf::UnsafeRead { name, .. } => behind(
                "illegal read access to unsafe storage ",
                name.to_text(),
            ),
            ReportOf::UninitializedRead { name, .. } => behind(
                "illegal read access to unitialized variable ",
                name.to_text(),
            ),
            ReportOf::MovedRead { name, .. } => behind(
                "illegal read access of moved value ",
                name.to_text(),
            ),
            ReportOf::UninitializedArg { .. } =>
                "uninitialized pointer arg passed as safe pointer".to_owned(),
            ReportOf::DroppedArg { name, .. } => behind(
                "passing dropped value as safe pointer ",
                name.to_text(),
            ),
            ReportOf::MovedArg { name, .. } => between(
                "passing moved value '",
                name.to_text(),
                "' as safe pointer ",
            ),
            ReportOf::FunctionArg { .. } => "ICE: trying to pass function as pointer".to_owned(),
            ReportOf::DepthMismatch { .. } => "incompatible argument".to_owned(),
            ReportOf::ConstArg { .. } =>
                "const pointer cannot be used as mut pointer in function call".to_owned(),
            ReportOf::TaintedArg { name, .. } => between(
                "cannot use tainted local '",
                name.to_text(),
                "'",
            ),
            ReportOf::TaintsBorrowed { .. } => "call would taint borrowed callsite".to_owned(),
            ReportOf::MovesStack { .. } => "cannot move stack".to_owned(),
            ReportOf::MovesBorrowed { .. } => "cannot move borrowed pointer".to_owned(),
            ReportOf::UnsafeArg { .. } => "passing unsafe pointer to safe function call".to_owned(),
            ReportOf::LiteralStorage { .. } =>
                "lvalue expression is not a storage location".to_owned(),
            ReportOf::ArgumentCount { .. } => "call argument count mismatch".to_owned(),
            ReportOf::NotAFunction { .. } => "lvalue is not a valid function".to_owned(),
            ReportOf::InfixStorage { .. } =>
                "value expression is not a storage location".to_owned(),
            ReportOf::BadDereference { .. } =>
                "dereferencing something that is not a pointer".to_owned(),
            ReportOf::MarkTarget { .. } => "lvalue is not a storage location".to_owned(),
            ReportOf::UnknownRvalue { .. } => "rvalue has unknown lifetime".to_owned(),
            ReportOf::InvalidRvalue { .. } => "rvalue has invalid lifetime".to_owned(),
            ReportOf::ImmutableAssign { .. } => "cannot assign to immutable storage".to_owned(),
            ReportOf::InvalidLvalue { .. } => "lvalue has invalid lifetime".to_owned(),
            ReportOf::Orphaned { .. } => "function returns orphaning moved pointer".to_owned(),
        }
    }

    /// The notes of the report, in the order in which they are shown.
    pub fn notes(&self) -> (list: Vec<Note>)
        ensures
            note_views(list@) == notes(self@),
    {
        let mut list: Vec<Note> = Vec::new();
        assert(note_views(list@) =~= Seq::<NoteView>::empty());
        match self {
            ReportOf::UndefinedName { name, used_here } => {
                let text = between("'", name.to_text(), "' is not defined in this scope");
                add_note(&mut list, *used_here, text);
            },
            ReportOf::DroppedRead { used_here, stored_here, dropped_here, .. } => {
                add_note(&mut list, *used_here, "used here".to_owned());
                add_note(&mut list, *stored_here, "points at this storage location".to_owned());
                add_note(&mut list, *dropped_here, "which was dropped here".to_owned());
            },
            ReportOf::UnsafeRead { used_here, stored_here, .. } => {
                add_note(&mut list, *used_here, "used here".to_owned());
                add_note(
                    &mut list,
                    *stored_here,
                    "suggestion: add a runtime check for this value and mark it safe".to_owned(),
                );
            },
            ReportOf::UninitializedRead { used_here, .. } => {
                add_note(&mut list, *used_here, "used here".to_owned());
            },
            ReportOf::MovedRead { used_here, moved_here, .. } => {
                add_note(&mut list, *used_here, "use of moved value".to_owned());
                add_note(&mut list, *moved_here, "was moved here".to_owned());
            },
            ReportOf::UninitializedArg { callsite, stored_here } => {
                add_note(&mut list, *callsite, "this pointer must be safe".to_owned());
                add_note(&mut list, *stored_here, "but this value is unitialized".to_owned());
            },
            ReportOf::DroppedArg { callsite, stored_here, dropped_here, .. } => {
                add_note(&mut list, *callsite, "used here".to_owned());
                add_note(&mut list, *stored_here, "points at this storage location".to_owned());
                add_note(&mut list, *dropped_here, "which was dropped here".to_owned());
            },
            ReportOf::MovedArg { callsite, moved_here, .. } => {
                add_note(&mut list, *callsite, "use of moved value".to_owned());
                add_note(&mut list, *moved_here, "was moved here".to_owned());
            },
            ReportOf::FunctionArg { callsite } => {
                add_note(&mut list, *callsite, "cannot determine lifetime of expression".to_owned());
            },
            ReportOf::DepthMismatch { callsite, changed_here, expected_here, depth } => {
                match changed_here {
                    Some(change) => {
                        add_note(
                            &mut list,
                            *callsite,
                            "this expression has a different pointer depth".to_owned(),
                        );
                        add_note(
                            &mut list,
                            *change,
                            "value assigned here might not be a pointer".to_owned(),
                        );
                        let text = between("expected at depth ", decimal_text(*depth), " here");
                        add_note(&mut list, *expected_here, text);
                    },
                    None => {
                        add_note(
                            &mut list,
                            *callsite,
                            "this value has a different pointer depth".to_owned(),
                        );
                        add_note(&mut list, *expected_here, "expected this type".to_owned());
                    },
                }
            },
            ReportOf::ConstArg { callsite, stored_here } => {
                add_note(
                    &mut list,
                    *callsite,
                    "this expression must yield a mutable pointer".to_owned(),
                );
                add_note(
                    &mut list,
                    *stored_here,
                    "suggestion: change this declaration to mutable".to_owned(),
                );
            },
            ReportOf::TaintedArg { name, callsite } => {
                let text = between("'", name.to_text(), "' is tainted");
                add_note(&mut list, *callsite, text);
            },
            ReportOf::TaintsBorrowed { taint, callsite, stored_here } => {
                let text = between(
                    "this expression would taint the callsite with undeclared taint '",
                    taint.clone(),
                    "'",
                );
                add_note(&mut list, *callsite, text);
                let text = between("try adding a taint<", taint.clone(), "> tag here");
                add_note(&mut list, *stored_here, text);
            },
            ReportOf::MovesStack { name, callsite } => {
                let text = between(
                    "this expression would move '",
                    name.to_text(),
                    "' out of scope, which is on the stack",
                );
                add_note(&mut list, *callsite, text);
            },
            ReportOf::MovesBorrowed { name, callsite, required_here, stored_here } => {
                let text = between(
                    "this expression would move '",
                    name.to_text(),
                    "' out of scope",
                );
                add_note(&mut list, *callsite, text);
                add_note(
                    &mut list,
                    *required_here,
                    "required because this call argument is move".to_owned(),
                );
                add_note(
                    &mut list,
                    *stored_here,
                    "try changing this declaration to move".to_owned(),
                );
            },
            ReportOf::UnsafeArg { callsite, stored_here } => {
                add_note(&mut list, *callsite, "this expression must be safe".to_owned());
                add_note(
                    &mut list,
                    *stored_here,
                    "suggestion: add a runtime check for this value and mark it safe".to_owned(),
                );
            },
            ReportOf::LiteralStorage { loc } => {
                add_note(&mut list, *loc, "literal cannot be used as lvalue".to_owned());
            },
            ReportOf::ArgumentCount { loc, expected, passed } => {
                let mut text = between(
                    "this function expects ",
                    decimal_text(*expected),
                    " arguments, but you passed ",
                );
                text.append(decimal_text(*passed).as_str());
                add_note(&mut list, *loc, text);
            },
            ReportOf::NotAFunction { loc } => {
                add_note(&mut list, *loc, "this expression cannot be used as function".to_owned());
            },
            ReportOf::InfixStorage { loc } => {
                add_note(&mut list, *loc, "this expression cannot be used as lvalue".to_owned());
            },
            ReportOf::BadDereference { loc, changed_here } => {
                add_note(&mut list, *loc, "cannot determine lifetime of expression".to_owned());
                match changed_here {
                    Some(change) => {
                        add_note(
                            &mut list,
                            *change,
                            "this assignment does not make a valid pointer".to_owned(),
                        );
                    },
                    None => {},
                }
            },
            ReportOf::MarkTarget { loc } => {
                add_note(
                    &mut list,
                    *loc,
                    "left hand side doesn't name something with a lifetime".to_owned(),
                );
            },
            ReportOf::UnknownRvalue { loc } => {
                add_note(&mut list, *loc, "cannot determine lifetime of right hand side".to_owned());
            },
            ReportOf::InvalidRvalue { loc } => {
                add_note(&mut list, *loc, "cannot determine lifetime of right hand side".to_owned());
            },
            ReportOf::ImmutableAssign { loc, stored_here } => {
                add_note(&mut list, *loc, "lvalue expression must be mutable".to_owned());
                add_note(
                    &mut list,
                    *stored_here,
                    "suggestion: change this declaration to mutable".to_owned(),
                );
            },
            ReportOf::InvalidLvalue { loc } => {
                add_note(&mut list, *loc, "cannot determine lifetime of left hand side".to_owned());
            },
            ReportOf::Orphaned { call_loc, loc } => {
                add_note(
                    &mut list,
                    *call_loc,
                    "the call moves a return value into scope".to_owned(),
                );
                add_note(&mut list, *loc, "but will be orphaned here".to_owned());
            },
        }
        list
    }
}

/// Whether there is an error among the reports.
pub fn any_error(reports: &Vec<Report>) -> (found: bool)
    ensures
        found == has_error(report_views(reports@)),
{
    let ghost views = report_views(reports@);
    let mut i: usize = 0;
    while i < reports.len()
        invariant
            i <= reports@.len(),
            views == report_views(reports@),
            forall|j: int| 0 <= j < i ==> !is_error(#[trigger] views[j]),
        decreases reports@.len() - i,
    {
        if reports[i].is_error() {
            assert(is_error(views[i as int]));
            return true;
        }
        assert(!is_error(views[i as int]));
        i = i + 1;
    }
    false
}

} // verus!
