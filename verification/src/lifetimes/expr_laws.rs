//! What each form of expression means.

use vstd::prelude::*;
use crate::ast::{ExprView, LabeledView, TypedView, expr_loc};
use crate::lifetimes::frame::lemma_check_expr_keeps;
use crate::lifetimes::laws::law_checking_again_is_checking;
use crate::lifetimes::rules::{
    ElementsResult, ExprResult, Ice, LabeledResult, Stop, check_call, check_elements, check_expr,
    check_labeled, check_unary,
};
use crate::lifetimes::state::{Access, LifetimeView, StackView, StorageView};
use crate::lifetimes::storage_laws::{lemma_makes_one, makes_one};
use crate::location::{Location, line_col};
use crate::name::NameView;
use crate::report::ReportOf;
use crate::text::{Text, pieces};

verus! {

/// Whether a name starts with `::ext::`, as the names of C code do.
pub open spec fn is_of_c(name: NameView) -> bool {
    name.len() >= 2 && name[0] == Seq::<char>::empty() && name[1] == "ext"@
}

/// A name of C code is static. Any other stands for storage: its address, or the value in it.
pub proof fn law_name(s: StackView, name: TypedView, access: Access)
    ensures
        is_of_c(name.name) ==> check_expr(s, ExprView::Name(name), access) == Ok::<_, Stop>(
            ExprResult { stack: s, expr: ExprView::Name(name), value: LifetimeView::Static },
        ),
        !is_of_c(name.name) ==> check_expr(s, ExprView::Name(name), access) == Ok::<_, Stop>(
            ExprResult {
                stack: s.check_name(name.name, name.loc, access).0,
                expr: ExprView::Name(name),
                value: s.check_name(name.name, name.loc, access).1,
            },
        ),
{
    if name.name.len() >= 2 && name.name[0].len() == 0 {
        assert(name.name[0] =~= Seq::<char>::empty());
    }
}

/// A member that is reached through a pointer reads the value of that pointer, whatever is asked
/// for.
pub proof fn law_arrow_reads_the_pointer(
    s: StackView,
    e: ExprView,
    access: Access,
    loc: Location,
    member: Text,
)
    ensures
        check_expr(
            s,
            ExprView::MemberAccess { loc, lhs: Box::new(e), op: "->"@, rhs: member },
            access,
        ) == match check_expr(s, e, Access::Value) {
            Ok(r) => Ok(
                ExprResult {
                    stack: r.stack,
                    expr: ExprView::MemberAccess {
                        loc,
                        lhs: Box::new(r.expr),
                        op: "->"@,
                        rhs: member,
                    },
                    value: r.value,
                },
            ),
            Err(stop) => Err(stop),
        },
{
}

/// A literal is static, and has no address.
pub proof fn law_literal(s: StackView, loc: Location, v: Text)
    ensures
        ({
            let e = ExprView::Literal { loc, v };
            &&& check_expr(s, e, Access::Value) == Ok::<_, Stop>(
                ExprResult { stack: s, expr: e, value: LifetimeView::Static },
            )
            &&& check_expr(s, e, Access::Storage) == Ok::<_, Stop>(
                ExprResult {
                    stack: s.report(ReportOf::LiteralStorage { loc }),
                    expr: e,
                    value: LifetimeView::Uninitialized,
                },
            )
        }),
{
}

/// A call is checked in the same way whatever is asked for.
pub proof fn law_call_has_no_address(
    s: StackView,
    loc: Location,
    name: TypedView,
    args: Seq<ExprView>,
)
    ensures
        ({
            let e = ExprView::Call { loc, name, args };
            &&& check_expr(s, e, Access::Value) == check_expr(s, e, Access::Storage)
            &&& check_expr(s, e, Access::Value) == check_call(s, loc, name, args)
        }),
{
}

/// An infix operation has no address. Its value is that of its first operand, which is read after
/// all others.
pub proof fn law_infix(s: StackView, loc: Location, lhs: ExprView, rhs: Seq<LabeledView>)
    ensures
        ({
            let e = ExprView::InfixOperation { loc, lhs: Box::new(lhs), rhs };
            &&& check_expr(s, e, Access::Storage) == Ok::<_, Stop>(
                ExprResult {
                    stack: s.report(ReportOf::InfixStorage { loc }),
                    expr: e,
                    value: LifetimeView::Uninitialized,
                },
            )
            &&& check_labeled(s, rhs, 0, Seq::empty(), true) matches Ok(others) ==> check_expr(
                s,
                e,
                Access::Value,
            ) == match check_expr(others.stack, lhs, Access::Value) {
                Ok(r) => Ok(
                    ExprResult {
                        stack: r.stack,
                        expr: ExprView::InfixOperation {
                            loc,
                            lhs: Box::new(r.expr),
                            rhs: others.exprs,
                        },
                        value: r.value,
                    },
                ),
                Err(stop) => Err(stop),
            }
            &&& check_labeled(s, rhs, 0, Seq::empty(), true) matches Err(stop) ==> check_expr(
                s,
                e,
                Access::Value,
            ) == Err::<ExprResult, Stop>(stop)
        }),
{
}

/// The operands of an operation, and the fields of a structure, are read one after the other,
/// each for its value, and keep their labels. They are all static exactly if each is.
pub proof fn law_labeled_in_turn(s: StackView, ls: Seq<LabeledView>, last: LabeledView)
    ensures
        check_labeled(s, Seq::empty(), 0, Seq::empty(), true) == Ok::<_, Stop>(
            LabeledResult { stack: s, exprs: Seq::empty(), all_static: true },
        ),
        check_labeled(s, ls.push(last), 0, Seq::empty(), true) == match check_labeled(
            s,
            ls,
            0,
            Seq::empty(),
            true,
        ) {
            Ok(a) => match check_expr(a.stack, last.expr, Access::Value) {
                Ok(r) => Ok(
                    LabeledResult {
                        stack: r.stack,
                        exprs: a.exprs.push(LabeledView { label: last.label, expr: r.expr }),
                        all_static: a.all_static && r.value is Static,
                    },
                ),
                Err(stop) => Err(stop),
            },
            Err(stop) => Err(stop),
        },
{
    lemma_labeled_front(s, ls, last, 0, Seq::empty(), true);
    match check_labeled(s, ls, 0, Seq::empty(), true) {
        Ok(a) => match check_expr(a.stack, last.expr, Access::Value) {
            Ok(r) => {
                let one = LabeledView { label: last.label, expr: r.expr };
                let n = ls.len() + 1;
                assert(check_labeled(
                    r.stack,
                    ls.push(last),
                    n,
                    a.exprs.push(one),
                    a.all_static && r.value is Static,
                ) is Ok);
            },
            Err(_) => {},
        },
        Err(_) => {},
    }
}

proof fn lemma_labeled_front(
    s: StackView,
    ls: Seq<LabeledView>,
    last: LabeledView,
    i: nat,
    done: Seq<LabeledView>,
    all_static: bool,
)
    requires
        i <= ls.len(),
    ensures
        check_labeled(s, ls.push(last), i, done, all_static) == match check_labeled(
            s,
            ls,
            i,
            done,
            all_static,
        ) {
            Ok(a) => check_labeled(a.stack, ls.push(last), ls.len(), a.exprs, a.all_static),
            Err(stop) => Err(stop),
        },
    decreases ls.len() - i,
{
    if i < ls.len() {
        assert(ls.push(last)[i as int] == ls[i as int]);
        match check_expr(s, ls[i as int].expr, Access::Value) {
            Ok(r) => {
                lemma_labeled_front(
                    r.stack,
                    ls,
                    last,
                    i + 1,
                    done.push(LabeledView { label: ls[i as int].label, expr: r.expr }),
                    all_static && r.value is Static,
                );
            },
            Err(_) => {},
        }
    }
}

/// The elements of an array are read one after the other, each for its value. They are all static
/// exactly if each is.
pub proof fn law_elements_in_turn(s: StackView, es: Seq<ExprView>, last: ExprView)
    ensures
        check_elements(s, Seq::empty(), 0, Seq::empty(), true) == Ok::<_, Stop>(
            ElementsResult { stack: s, exprs: Seq::empty(), all_static: true },
        ),
        check_elements(s, es.push(last), 0, Seq::empty(), true) == match check_elements(
            s,
            es,
            0,
            Seq::empty(),
            true,
        ) {
            Ok(a) => match check_expr(a.stack, last, Access::Value) {
                Ok(r) => Ok(
                    ElementsResult {
                        stack: r.stack,
                        exprs: a.exprs.push(r.expr),
                        all_static: a.all_static && r.value is Static,
                    },
                ),
                Err(stop) => Err(stop),
            },
            Err(stop) => Err(stop),
        },
{
    lemma_elements_front(s, es, last, 0, Seq::empty(), true);
    match check_elements(s, es, 0, Seq::empty(), true) {
        Ok(a) => match check_expr(a.stack, last, Access::Value) {
            Ok(r) => {
                let n = es.len() + 1;
                assert(check_elements(
                    r.stack,
                    es.push(last),
                    n,
                    a.exprs.push(r.expr),
                    a.all_static && r.value is Static,
                ) is Ok);
            },
            Err(_) => {},
        },
        Err(_) => {},
    }
}

proof fn lemma_elements_front(
    s: StackView,
    es: Seq<ExprView>,
    last: ExprView,
    i: nat,
    done: Seq<ExprView>,
    all_static: bool,
)
    requires
        i <= es.len(),
    ensures
        check_elements(s, es.push(last), i, done, all_static) == match check_elements(
            s,
            es,
            i,
            done,
            all_static,
        ) {
            Ok(a) => check_elements(a.stack, es.push(last), es.len(), a.exprs, a.all_static),
            Err(stop) => Err(stop),
        },
    decreases es.len() - i,
{
    if i < es.len() {
        assert(es.push(last)[i as int] == es[i as int]);
        match check_expr(s, es[i as int], Access::Value) {
            Ok(r) => {
                lemma_elements_front(
                    r.stack,
                    es,
                    last,
                    i + 1,
                    done.push(r.expr),
                    all_static && r.value is Static,
                );
            },
            Err(_) => {},
        }
    }
}

/// A structure or an array is static if all that it is made of is; otherwise nothing is known of
/// it. It is checked in the same way whatever is asked for.
pub proof fn law_initializers(
    s: StackView,
    loc: Location,
    typed: TypedView,
    fields: Seq<LabeledView>,
    elements: Seq<ExprView>,
    access: Access,
)
    ensures
        ({
            let e = ExprView::StructInit { loc, typed, fields };
            match check_labeled(s, fields, 0, Seq::empty(), true) {
                Ok(a) => {
                    &&& check_expr(s, e, access) matches Ok(r)
                    &&& r.stack == a.stack
                    &&& r.expr == (ExprView::StructInit { loc, typed, fields: a.exprs })
                    &&& r.value == if a.all_static {
                        LifetimeView::Static
                    } else {
                        LifetimeView::Uninitialized
                    }
                },
                Err(stop) => check_expr(s, e, access) == Err::<ExprResult, Stop>(stop),
            }
        }),
        ({
            let e = ExprView::ArrayInit { loc, fields: elements };
            match check_elements(s, elements, 0, Seq::empty(), true) {
                Ok(a) => {
                    &&& check_expr(s, e, access) matches Ok(r)
                    &&& r.stack == a.stack
                    &&& r.expr == (ExprView::ArrayInit { loc, fields: a.exprs })
                    &&& r.value == if a.all_static {
                        LifetimeView::Static
                    } else {
                        LifetimeView::Uninitialized
                    }
                },
                Err(stop) => check_expr(s, e, access) == Err::<ExprResult, Stop>(stop),
            }
        }),
{
}

/// Taking an address makes a temporary, in the innermost scope, that holds what the operand is
/// when asked for its storage. The result points to the temporary, whatever is asked for.
pub proof fn law_address_of(s: StackView, loc: Location, e: ExprView, access: Access)
    requires
        s.wf(),
    ensures
        ({
            let whole = ExprView::UnaryPre { loc, op: "&"@, expr: Box::new(e) };
            match check_expr(s, e, Access::Storage) {
                Err(stop) => check_expr(s, whole, access) == Err::<ExprResult, Stop>(stop),
                Ok(a) => if s.stack.len() == 0 {
                    check_expr(s, whole, access) == Err::<ExprResult, Stop>(
                        Stop { ice: Ice::NoScope, reports: a.stack.reports },
                    )
                } else {
                    &&& check_expr(s, whole, access) matches Ok(r)
                    &&& r.expr == (ExprView::UnaryPre { loc, op: "&"@, expr: Box::new(a.expr) })
                    &&& {
                        let here = expr_loc(a.expr);
                        &&& r.value == LifetimeView::Pointer(a.stack.pointers.len())
                        &&& makes_one(
                            a.stack,
                            r.stack,
                            StorageView {
                                name: pieces("temporary access at "@ + line_col(here)),
                                typ: None,
                                tags: Seq::empty(),
                                stored_here: here,
                                changed_here: Some(here),
                                value: a.value,
                            },
                        )
                    }
                },
            }
        }),
{
    let whole = ExprView::UnaryPre { loc, op: "&"@, expr: Box::new(e) };
    assert(check_expr(s, whole, access) == check_unary(s, loc, "&"@, e, access));
    lemma_check_expr_keeps(s, e, Access::Storage);
    match check_expr(s, e, Access::Storage) {
        Ok(a) => {
            if s.stack.len() > 0 {
                let here = expr_loc(a.expr);
                let name = pieces("temporary access at "@ + line_col(here));
                lemma_makes_one(a.stack, None, name, here, Seq::empty(), a.value, here);
            }
        },
        Err(_) => {},
    }
}

/// `*` reads what the value of its operand points to, for what is asked for. Of an unknown value
/// it says nothing more. Of anything else it is an error.
pub proof fn law_dereference(s: StackView, loc: Location, e: ExprView, access: Access)
    requires
        s.wf(),
    ensures
        ({
            let whole = ExprView::UnaryPre { loc, op: "*"@, expr: Box::new(e) };
            let whole_of = |f: ExprView| ExprView::UnaryPre { loc, op: "*"@, expr: Box::new(f) };
            match check_expr(s, e, Access::Value) {
                Err(stop) => check_expr(s, whole, access) == Err::<ExprResult, Stop>(stop),
                Ok(a) => match a.value {
                    LifetimeView::Pointer(to) => check_expr(s, whole, access) == Ok::<_, Stop>(
                        ExprResult {
                            stack: a.stack.read(to, expr_loc(a.expr), access).0,
                            expr: whole_of(a.expr),
                            value: a.stack.read(to, expr_loc(a.expr), access).1,
                        },
                    ),
                    LifetimeView::Uninitialized => check_expr(s, whole, access) == Ok::<_, Stop>(
                        ExprResult {
                            stack: a.stack,
                            expr: whole_of(a.expr),
                            value: LifetimeView::Uninitialized,
                        },
                    ),
                    _ => match check_expr(a.stack, a.expr, Access::Storage) {
                        Err(stop) => check_expr(s, whole, access) == Err::<ExprResult, Stop>(stop),
                        Ok(b) => match b.value {
                            LifetimeView::Pointer(p) => check_expr(s, whole, access) == Ok::<
                                _,
                                Stop,
                            >(
                                ExprResult {
                                    stack: b.stack.report(
                                        ReportOf::BadDereference {
                                            loc: expr_loc(b.expr),
                                            changed_here: b.stack.pointers[p as int].changed_here,
                                        },
                                    ),
                                    expr: whole_of(b.expr),
                                    value: LifetimeView::Uninitialized,
                                },
                            ),
                            _ => check_expr(s, whole, access) == Err::<ExprResult, Stop>(
                                Stop { ice: Ice::NotAPointer, reports: b.stack.reports },
                            ),
                        },
                    },
                },
            }
        }),
{
    let whole = ExprView::UnaryPre { loc, op: "*"@, expr: Box::new(e) };
    distinct_operators();
    assert(check_expr(s, whole, access) == check_unary(s, loc, "*"@, e, access));
    law_checking_again_is_checking(s, e, Access::Value, Access::Storage);
}

proof fn distinct_operators()
    ensures
        "&"@ != "*"@,
{
    reveal_strlit("&");
    reveal_strlit("*");
    assert("&"@[0] != "*"@[0]);
}

/// Of any other operator before an expression nothing is known, and its operand is not looked at.
pub proof fn law_other_operators(s: StackView, loc: Location, op: Text, e: ExprView, access: Access)
    requires
        op != "&"@,
        op != "*"@,
    ensures
        ({
            let whole = ExprView::UnaryPre { loc, op, expr: Box::new(e) };
            check_expr(s, whole, access) == Ok::<_, Stop>(
                ExprResult { stack: s, expr: whole, value: LifetimeView::Uninitialized },
            )
        }),
{
    let whole = ExprView::UnaryPre { loc, op, expr: Box::new(e) };
    assert(check_expr(s, whole, access) == check_unary(s, loc, op, e, access));
}

/// An address that is taken can be followed back: `*&e` comes to what `e` is when asked for its
/// storage, without a report of its own, where that is an address or static.
pub proof fn law_dereference_undoes_address(s: StackView, loc: Location, e: ExprView)
    requires
        s.wf(),
        s.stack.len() > 0,
    ensures
        ({
            let address = ExprView::UnaryPre { loc, op: "&"@, expr: Box::new(e) };
            let back = ExprView::UnaryPre { loc, op: "*"@, expr: Box::new(address) };
            check_expr(s, e, Access::Storage) matches Ok(a) ==> (a.value is Pointer
                || a.value is Static ==> {
                &&& check_expr(s, back, Access::Value) matches Ok(r)
                &&& r.value == a.value
                &&& r.stack.reports == a.stack.reports
            })
        }),
{
    let address = ExprView::UnaryPre { loc, op: "&"@, expr: Box::new(e) };
    law_address_of(s, loc, e, Access::Value);
    law_dereference(s, loc, address, Access::Value);
    match check_expr(s, e, Access::Storage) {
        Ok(a) => {
            let r = check_expr(s, address, Access::Value)->Ok_0;
            assert(r.stack.pointers[a.stack.pointers.len() as int] == r.stack.pointers.last());
        },
        Err(_) => {},
    }
}

} // verus!
