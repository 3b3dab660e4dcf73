//! What a report says, and of which places.

use vstd::prelude::*;
use crate::report::{ReportOf, ReportView, headline, notes};
use crate::text::{decimal, joined};

verus! {

/// What a report says in its headline.
pub proof fn law_headlines(r: ReportView)
    ensures
        r matches ReportOf::UndefinedName { name, .. } ==> headline(r)
            == "undefined name '"@ + joined(name) + "' "@,
        r matches ReportOf::DroppedRead { name, .. } ==> headline(r)
            == "illegal read access to dropped value "@ + joined(name),
        r matches ReportOf::UnsafeRead { name, .. } ==> headline(r)
            == "illegal read access to unsafe storage "@ + joined(name),
        r matches ReportOf::UninitializedRead { name, .. } ==> headline(r)
            == "illegal read access to unitialized variable "@ + joined(name),
        r matches ReportOf::MovedRead { name, .. } ==> headline(r)
            == "illegal read access of moved value "@ + joined(name),
        r is UninitializedArg ==> headline(r)
            == "uninitialized pointer arg passed as safe pointer"@,
        r matches ReportOf::DroppedArg { name, .. } ==> headline(r)
            == "passing dropped value as safe pointer "@ + joined(name),
        r matches ReportOf::MovedArg { name, .. } ==> headline(r)
            == "passing moved value '"@ + joined(name) + "' as safe pointer "@,
        r is FunctionArg ==> headline(r) == "ICE: trying to pass function as pointer"@,
        r is DepthMismatch ==> headline(r) == "incompatible argument"@,
        r is ConstArg ==> headline(r)
            == "const pointer cannot be used as mut pointer in function call"@,
        r matches ReportOf::TaintedArg { name, .. } ==> headline(r)
            == "cannot use tainted local '"@ + joined(name) + "'"@,
        r is TaintsBorrowed ==> headline(r) == "call would taint borrowed callsite"@,
        r is MovesStack ==> headline(r) == "cannot move stack"@,
        r is MovesBorrowed ==> headline(r) == "cannot move borrowed pointer"@,
        r is UnsafeArg ==> headline(r) == "passing unsafe pointer to safe function call"@,
        r is LiteralStorage ==> headline(r) == "lvalue expression is not a storage location"@,
        r is ArgumentCount ==> headline(r) == "call argument count mismatch"@,
        r is NotAFunction ==> headline(r) == "lvalue is not a valid function"@,
        r is InfixStorage ==> headline(r) == "value expression is not a storage location"@,
        r is BadDereference ==> headline(r) == "dereferencing something that is not a pointer"@,
        r is MarkTarget ==> headline(r) == "lvalue is not a storage location"@,
        r is UnknownRvalue ==> headline(r) == "rvalue has unknown lifetime"@,
        r is InvalidRvalue ==> headline(r) == "rvalue has invalid lifetime"@,
        r is ImmutableAssign ==> headline(r) == "cannot assign to immutable storage"@,
        r is InvalidLvalue ==> headline(r) == "lvalue has invalid lifetime"@,
        r is Orphaned ==> headline(r) == "function returns orphaning moved pointer"@,
{
}

/// What is noted of a name that cannot be read: first where it is used, and then what it is that
/// cannot be read, and why.
pub proof fn law_notes_on_reads(r: ReportView)
    ensures
        r matches ReportOf::UndefinedName { name, used_here } ==> {
            &&& notes(r).len() == 1
            &&& notes(r)[0].loc == used_here
            &&& notes(r)[0].text == "'"@ + joined(name) + "' is not defined in this scope"@
        },
        r matches ReportOf::DroppedRead { used_here, stored_here, dropped_here, .. } ==> {
            &&& notes(r).len() == 3
            &&& notes(r)[0].loc == used_here
            &&& notes(r)[0].text == "used here"@
            &&& notes(r)[1].loc == stored_here
            &&& notes(r)[1].text == "points at this storage location"@
            &&& notes(r)[2].loc == dropped_here
            &&& notes(r)[2].text == "which was dropped here"@
        },
        r matches ReportOf::UnsafeRead { used_here, stored_here, .. } ==> {
            &&& notes(r).len() == 2
            &&& notes(r)[0].loc == used_here
            &&& notes(r)[0].text == "used here"@
            &&& notes(r)[1].loc == stored_here
            &&& notes(r)[1].text
                == "suggestion: add a runtime check for this value and mark it safe"@
        },
        r matches ReportOf::UninitializedRead { used_here, .. } ==> {
            &&& notes(r).len() == 1
            &&& notes(r)[0].loc == used_here
            &&& notes(r)[0].text == "used here"@
        },
        r matches ReportOf::MovedRead { used_here, moved_here, .. } ==> {
            &&& notes(r).len() == 2
            &&& notes(r)[0].loc == used_here
            &&& notes(r)[0].text == "use of moved value"@
            &&& notes(r)[1].loc == moved_here
            &&& notes(r)[1].text == "was moved here"@
        },
{
}

/// What is noted of an argument that cannot be passed: first the argument, and then what it leads
/// to, and what was expected.
pub proof fn law_notes_on_arguments(r: ReportView)
    ensures
        r matches ReportOf::UninitializedArg { callsite, stored_here } ==> {
            &&& notes(r).len() == 2
            &&& notes(r)[0].loc == callsite
            &&& notes(r)[0].text == "this pointer must be safe"@
            &&& notes(r)[1].loc == stored_here
            &&& notes(r)[1].text == "but this value is unitialized"@
        },
        r matches ReportOf::DroppedArg { callsite, stored_here, dropped_here, .. } ==> {
            &&& notes(r).len() == 3
            &&& notes(r)[0].loc == callsite
            &&& notes(r)[0].text == "used here"@
            &&& notes(r)[1].loc == stored_here
            &&& notes(r)[1].text == "points at this storage location"@
            &&& notes(r)[2].loc == dropped_here
            &&& notes(r)[2].text == "which was dropped here"@
        },
        r matches ReportOf::MovedArg { callsite, moved_here, .. } ==> {
            &&& notes(r).len() == 2
            &&& notes(r)[0].loc == callsite
            &&& notes(r)[0].text == "use of moved value"@
            &&& notes(r)[1].loc == moved_here
            &&& notes(r)[1].text == "was moved here"@
        },
        r matches ReportOf::FunctionArg { callsite } ==> {
            &&& notes(r).len() == 1
            &&& notes(r)[0].loc == callsite
            &&& notes(r)[0].text == "cannot determine lifetime of expression"@
        },
        r matches ReportOf::DepthMismatch {
            callsite,
            changed_here: Some(change),
            expected_here,
            depth,
        } ==> {
            &&& notes(r).len() == 3
            &&& notes(r)[0].loc == callsite
            &&& notes(r)[0].text == "this expression has a different pointer depth"@
            &&& notes(r)[1].loc == change
            &&& notes(r)[1].text == "value assigned here might not be a pointer"@
            &&& notes(r)[2].loc == expected_here
            &&& notes(r)[2].text == "expected at depth "@ + decimal(depth) + " here"@
        },
        r matches ReportOf::DepthMismatch {
            callsite,
            changed_here: None,
            expected_here,
            depth,
        } ==> {
            &&& notes(r).len() == 2
            &&& notes(r)[0].loc == callsite
            &&& notes(r)[0].text == "this value has a different pointer depth"@
            &&& notes(r)[1].loc == expected_here
            &&& notes(r)[1].text == "expected this type"@
        },
        r matches ReportOf::ConstArg { callsite, stored_here } ==> {
            &&& notes(r).len() == 2
            &&& notes(r)[0].loc == callsite
            &&& notes(r)[0].text == "this expression must yield a mutable pointer"@
            &&& notes(r)[1].loc == stored_here
            &&& notes(r)[1].text == "suggestion: change this declaration to mutable"@
        },
        r matches ReportOf::TaintedArg { name, callsite } ==> {
            &&& notes(r).len() == 1
            &&& notes(r)[0].loc == callsite
            &&& notes(r)[0].text == "'"@ + joined(name) + "' is tainted"@
        },
        r matches ReportOf::TaintsBorrowed { taint, callsite, stored_here } ==> {
            &&& notes(r).len() == 2
            &&& notes(r)[0].loc == callsite
            &&& notes(r)[0].text
                == "this expression would taint the callsite with undeclared taint '"@ + taint
                    + "'"@
            &&& notes(r)[1].loc == stored_here
            &&& notes(r)[1].text == "try adding a taint<"@ + taint + "> tag here"@
        },
        r matches ReportOf::MovesStack { name, callsite } ==> {
            &&& notes(r).len() == 1
            &&& notes(r)[0].loc == callsite
            &&& notes(r)[0].text
                == "this expression would move '"@ + joined(name)
                    + "' out of scope, which is on the stack"@
        },
        r matches ReportOf::MovesBorrowed { name, callsite, required_here, stored_here } ==> {
            &&& notes(r).len() == 3
            &&& notes(r)[0].loc == callsite
            &&& notes(r)[0].text
                == "this expression would move '"@ + joined(name) + "' out of scope"@
            &&& notes(r)[1].loc == required_here
            &&& notes(r)[1].text == "required because this call argument is move"@
            &&& notes(r)[2].loc == stored_here
            &&& notes(r)[2].text == "try changing this declaration to move"@
        },
        r matches ReportOf::UnsafeArg { callsite, stored_here } ==> {
            &&& notes(r).len() == 2
            &&& notes(r)[0].loc == callsite
            &&& notes(r)[0].text == "this expression must be safe"@
            &&& notes(r)[1].loc == stored_here
            &&& notes(r)[1].text
                == "suggestion: add a runtime check for this value and mark it safe"@
        },
{
}

/// What is noted of any other report: first the expression or the statement, and then what it is
/// about.
pub proof fn law_notes_on_the_rest(r: ReportView)
    ensures
        r matches ReportOf::LiteralStorage { loc } ==> {
            &&& notes(r).len() == 1
            &&& notes(r)[0].loc == loc
            &&& notes(r)[0].text == "literal cannot be used as lvalue"@
        },
        r matches ReportOf::ArgumentCount { loc, expected, passed } ==> {
            &&& notes(r).len() == 1
            &&& notes(r)[0].loc == loc
            &&& notes(r)[0].text
                == "this function expects "@ + decimal(expected) + " arguments, but you passed "@
                    + decimal(passed)
        },
        r matches ReportOf::NotAFunction { loc } ==> {
            &&& notes(r).len() == 1
            &&& notes(r)[0].loc == loc
            &&& notes(r)[0].text == "this expression cannot be used as function"@
        },
        r matches ReportOf::InfixStorage { loc } ==> {
            &&& notes(r).len() == 1
            &&& notes(r)[0].loc == loc
            &&& notes(r)[0].text == "this expression cannot be used as lvalue"@
        },
        r matches ReportOf::BadDereference { loc, changed_here: Some(change) } ==> {
            &&& notes(r).len() == 2
            &&& notes(r)[0].loc == loc
            &&& notes(r)[0].text == "cannot determine lifetime of expression"@
            &&& notes(r)[1].loc == change
            &&& notes(r)[1].text == "this assignment does not make a valid pointer"@
        },
        r matches ReportOf::BadDereference { loc, changed_here: None } ==> {
            &&& notes(r).len() == 1
            &&& notes(r)[0].loc == loc
            &&& notes(r)[0].text == "cannot determine lifetime of expression"@
        },
        r matches ReportOf::MarkTarget { loc } ==> {
            &&& notes(r).len() == 1
            &&& notes(r)[0].loc == loc
            &&& notes(r)[0].text == "left hand side doesn't name something with a lifetime"@
        },
        r matches ReportOf::UnknownRvalue { loc } ==> {
            &&& notes(r).len() == 1
            &&& notes(r)[0].loc == loc
            &&& notes(r)[0].text == "cannot determine lifetime of right hand side"@
        },
        r matches ReportOf::InvalidRvalue { loc } ==> {
            &&& notes(r).len() == 1
            &&& notes(r)[0].loc == loc
            &&& notes(r)[0].text == "cannot determine lifetime of right hand side"@
        },
        r matches ReportOf::ImmutableAssign { loc, stored_here } ==> {
            &&& notes(r).len() == 2
            &&& notes(r)[0].loc == loc
            &&& notes(r)[0].text == "lvalue expression must be mutable"@
            &&& notes(r)[1].loc == stored_here
            &&& notes(r)[1].text == "suggestion: change this declaration to mutable"@
        },
        r matches ReportOf::InvalidLvalue { loc } ==> {
            &&& notes(r).len() == 1
            &&& notes(r)[0].loc == loc
            &&& notes(r)[0].text == "cannot determine lifetime of left hand side"@
        },
        r matches ReportOf::Orphaned { call_loc, loc } ==> {
            &&& notes(r).len() == 2
            &&& notes(r)[0].loc == call_loc
            &&& notes(r)[0].text == "the call moves a return value into scope"@
            &&& notes(r)[1].loc == loc
            &&& notes(r)[1].text == "but will be orphaned here"@
        },
{
}

} // verus!
