//! The rules of the language: what checking an expression, a statement or a module does to the
//! state of the checker, and what it finds.
//!
//! Checking an expression also completes it: a call gets the arguments that its function has
//! generated at the callsite. So each rule gives back the syntax tree as it then stands.
//!
//! On some programs the checker has to break off. A rule then gives a [`Stop`].

use vstd::prelude::*;
use crate::ast::{
    BlockView, CNameView, DView, DefView, ExprView, LabeledView, LocalView, ModuleView,
    NamedArgView, PointerView, StmtView, TypedView, expr_loc,
};
use crate::lifetimes::state::{Access, LifetimeView, StackView, StorageView};
use crate::location::{Location, line_col};
use crate::name::{NameView, is_ext};
use crate::report::{ReportOf, ReportView};
use crate::tags::{TagView, TagsView, has_key, has_value, inserted, removed, values};
use crate::text::{Text, decimal, joined, pieces};

verus! {

/// An internal error of the checker: why it cannot go on with a program.
#[derive(Clone, Copy, PartialEq, Eq, Structural, Debug)]
pub enum Ice {
    /// The address of something is needed that has none.
    NotAPointer,
    /// The pointers that a function returns lead from one to the next without an end.
    EndlessReturn,
    /// Storage is needed where no scope is open.
    NoScope,
}

/// What is left where checking breaks off: why it did, and what was reported up to then.
pub struct Stop {
    pub ice: Ice,
    pub reports: Seq<ReportView>,
}

/// How deeply expressions are nested in an expression. A literal, which is all that checking
/// ever adds, nests nothing.
pub open spec fn height(e: ExprView) -> nat
    decreases e,
{
    match e {
        ExprView::Name(_) => 0,
        ExprView::MemberAccess { lhs, .. } => 1 + height(*lhs),
        ExprView::ArrayAccess { lhs, .. } => 1 + height(*lhs),
        ExprView::Literal { .. } => 0,
        ExprView::Call { args, .. } => 1 + heights(args),
        ExprView::InfixOperation { lhs, rhs, .. } => 1 + max(height(*lhs), labeled_heights(rhs)),
        ExprView::Cast { expr, .. } => 1 + height(*expr),
        ExprView::UnaryPost { expr, .. } => 1 + height(*expr),
        ExprView::UnaryPre { expr, .. } => 1 + height(*expr),
        ExprView::StructInit { fields, .. } => 1 + labeled_heights(fields),
        ExprView::ArrayInit { fields, .. } => 1 + heights(fields),
    }
}

/// The greatest height among the expressions.
pub open spec fn heights(es: Seq<ExprView>) -> nat
    decreases es,
{
    if es.len() == 0 {
        0
    } else {
        max(heights(es.drop_last()), height(es.last()))
    }
}

/// The greatest height among the labeled expressions.
pub open spec fn labeled_heights(ls: Seq<LabeledView>) -> nat
    decreases ls,
{
    if ls.len() == 0 {
        0
    } else {
        max(labeled_heights(ls.drop_last()), height(ls.last().expr))
    }
}

/// The greater of two numbers.
pub open spec fn max(a: nat, b: nat) -> nat {
    if a < b {
        b
    } else {
        a
    }
}

/// No expression is higher than the highest.
pub proof fn lemma_heights(es: Seq<ExprView>, i: int)
    requires
        0 <= i < es.len(),
    ensures
        height(es[i]) <= heights(es),
    decreases es.len(),
{
    if i < es.len() - 1 {
        lemma_heights(es.drop_last(), i);
    }
}

/// No labeled expression is higher than the highest.
pub proof fn lemma_labeled_heights(ls: Seq<LabeledView>, i: int)
    requires
        0 <= i < ls.len(),
    ensures
        height(ls[i].expr) <= labeled_heights(ls),
    decreases ls.len(),
{
    if i < ls.len() - 1 {
        lemma_labeled_heights(ls.drop_last(), i);
    }
}

/// A bound on the height of each expression bounds the height of all.
pub proof fn lemma_heights_bound(es: Seq<ExprView>, bound: nat)
    requires
        forall|i: int| 0 <= i < es.len() ==> height(#[trigger] es[i]) <= bound,
    ensures
        heights(es) <= bound,
    decreases es.len(),
{
    if es.len() > 0 {
        lemma_heights_bound(es.drop_last(), bound);
    }
}

/// A bound on the height of each labeled expression bounds the height of all.
pub proof fn lemma_labeled_heights_bound(ls: Seq<LabeledView>, bound: nat)
    requires
        forall|i: int| 0 <= i < ls.len() ==> height((#[trigger] ls[i]).expr) <= bound,
    ensures
        labeled_heights(ls) <= bound,
    decreases ls.len(),
{
    if ls.len() > 0 {
        lemma_labeled_heights_bound(ls.drop_last(), bound);
    }
}

/// What checking an expression leads to: the state, the completed expression, and what is known
/// of its value.
pub struct ExprResult {
    pub stack: StackView,
    pub expr: ExprView,
    pub value: LifetimeView,
}

/// Checks an expression.
pub open spec fn check_expr(s: StackView, e: ExprView, access: Access) -> Result<ExprResult, Stop>
    decreases height(e), 0nat, 0nat,
{
    match e {
        ExprView::Name(name) => if is_ext(name.name) {
            Ok(ExprResult { stack: s, expr: e, value: LifetimeView::Static })
        } else {
            let (stack, value) = s.check_name(name.name, name.loc, access);
            Ok(ExprResult { stack, expr: e, value })
        },
        ExprView::MemberAccess { loc, lhs, op, rhs } => {
            let wanted = if op == "->"@ {
                Access::Value
            } else {
                access
            };
            match check_expr(s, *lhs, wanted) {
                Ok(r) => Ok(
                    ExprResult {
                        expr: ExprView::MemberAccess { loc, lhs: Box::new(r.expr), op, rhs },
                        ..r
                    },
                ),
                Err(stop) => Err(stop),
            }
        },
        ExprView::ArrayAccess { loc, lhs, rhs } => match check_expr(s, *lhs, access) {
            Ok(r) => Ok(
                ExprResult {
                    expr: ExprView::ArrayAccess { loc, lhs: Box::new(r.expr), rhs },
                    ..r
                },
            ),
            Err(stop) => Err(stop),
        },
        ExprView::Literal { loc, .. } => if access == Access::Storage {
            Ok(
                ExprResult {
                    stack: s.report(ReportOf::LiteralStorage { loc }),
                    expr: e,
                    value: LifetimeView::Uninitialized,
                },
            )
        } else {
            Ok(ExprResult { stack: s, expr: e, value: LifetimeView::Static })
        },
        ExprView::Call { loc, name, args } => check_call(s, loc, name, args),
        ExprView::InfixOperation { loc, lhs, rhs } => if access == Access::Storage {
            Ok(
                ExprResult {
                    stack: s.report(ReportOf::InfixStorage { loc }),
                    expr: e,
                    value: LifetimeView::Uninitialized,
                },
            )
        } else {
            match check_labeled(s, rhs, 0, Seq::empty(), true) {
                Ok(rs) => match check_expr(rs.stack, *lhs, Access::Value) {
                    Ok(r) => Ok(
                        ExprResult {
                            expr: ExprView::InfixOperation {
                                loc,
                                lhs: Box::new(r.expr),
                                rhs: rs.exprs,
                            },
                            ..r
                        },
                    ),
                    Err(stop) => Err(stop),
                },
                Err(stop) => Err(stop),
            }
        },
        ExprView::Cast { loc, into, expr } => match check_expr(s, *expr, access) {
            Ok(r) => Ok(
                ExprResult { expr: ExprView::Cast { loc, into, expr: Box::new(r.expr) }, ..r },
            ),
            Err(stop) => Err(stop),
        },
        ExprView::UnaryPost { loc, op, expr } => match check_expr(s, *expr, access) {
            Ok(r) => Ok(
                ExprResult { expr: ExprView::UnaryPost { loc, op, expr: Box::new(r.expr) }, ..r },
            ),
            Err(stop) => Err(stop),
        },
        ExprView::UnaryPre { loc, op, expr } => check_unary(s, loc, op, *expr, access),
        ExprView::StructInit { loc, typed, fields } => match check_labeled(
            s,
            fields,
            0,
            Seq::empty(),
            true,
        ) {
            Ok(rs) => Ok(
                ExprResult {
                    stack: rs.stack,
                    expr: ExprView::StructInit { loc, typed, fields: rs.exprs },
                    value: init_value(rs.all_static),
                },
            ),
            Err(stop) => Err(stop),
        },
        ExprView::ArrayInit { loc, fields } => match check_elements(
            s,
            fields,
            0,
            Seq::empty(),
            true,
        ) {
            Ok(rs) => Ok(
                ExprResult {
                    stack: rs.stack,
                    expr: ExprView::ArrayInit { loc, fields: rs.exprs },
                    value: init_value(rs.all_static),
                },
            ),
            Err(stop) => Err(stop),
        },
    }
}

/// Checks a call.
pub open spec fn check_call(
    s: StackView,
    loc: Location,
    name: TypedView,
    args: Seq<ExprView>,
) -> Result<ExprResult, Stop>
    decreases heights(args), 4nat, 0nat,
{
    if is_ext(name.name) {
        Ok(
            ExprResult {
                stack: s,
                expr: ExprView::Call { loc, name, args },
                value: LifetimeView::Static,
            },
        )
    } else {
        let (s1, callee) = s.check_name(name.name, name.loc, Access::Value);
        match callee {
            LifetimeView::Function { ret, args: params, vararg } => {
                proof {
                    lemma_completed_heights(params, args, 0);
                }
                let full = completed(params, args, 0);
                if count_mismatch(params.len(), full.len(), vararg) {
                    Ok(
                        ExprResult {
                            stack: s1.report(
                                ReportOf::ArgumentCount {
                                    loc: name.loc,
                                    expected: params.len(),
                                    passed: full.len(),
                                },
                            ),
                            expr: ExprView::Call { loc, name, args: full },
                            value: LifetimeView::Uninitialized,
                        },
                    )
                } else {
                    match check_call_args(s1, params, full, 0, Seq::empty()) {
                        Ok((s2, checked)) => match returned(s2, ret, name.name, loc) {
                            Ok((stack, value)) => Ok(
                                ExprResult {
                                    stack,
                                    expr: ExprView::Call { loc, name, args: checked },
                                    value,
                                },
                            ),
                            Err(stop) => Err(stop),
                        },
                        Err(stop) => Err(stop),
                    }
                }
            },
            LifetimeView::Static => Ok(
                ExprResult {
                    stack: s1,
                    expr: ExprView::Call { loc, name, args },
                    value: LifetimeView::Static,
                },
            ),
            _ => Ok(
                ExprResult {
                    stack: s1.report(ReportOf::NotAFunction { loc: name.loc }),
                    expr: ExprView::Call { loc, name, args },
                    value: LifetimeView::Uninitialized,
                },
            ),
        }
    }
}

/// Checks an expression with an operator before it.
pub open spec fn check_unary(
    s: StackView,
    loc: Location,
    op: Text,
    expr: ExprView,
    access: Access,
) -> Result<ExprResult, Stop>
    decreases height(expr), 4nat, 0nat,
{
    if op == "&"@ {
        match check_expr(s, expr, Access::Storage) {
            Ok(r) => {
                let here = expr_loc(r.expr);
                let temp = r.stack.pointers.len();
                if r.stack.stack.len() == 0 {
                    Err(Stop { ice: Ice::NoScope, reports: r.stack.reports })
                } else {
                    Ok(
                        ExprResult {
                            stack: r.stack.local(
                                None,
                                temporary_name(here),
                                here,
                                Seq::empty(),
                            ).write(temp, r.value, here),
                            expr: ExprView::UnaryPre { loc, op, expr: Box::new(r.expr) },
                            value: LifetimeView::Pointer(temp),
                        },
                    )
                }
            },
            Err(stop) => Err(stop),
        }
    } else if op == "*"@ {
        match check_expr(s, expr, Access::Value) {
            Ok(r) => match r.value {
                LifetimeView::Uninitialized => Ok(
                    ExprResult {
                        expr: ExprView::UnaryPre { loc, op, expr: Box::new(r.expr) },
                        ..r
                    },
                ),
                LifetimeView::Pointer(to) => {
                    let (stack, value) = r.stack.read(to, expr_loc(r.expr), access);
                    Ok(
                        ExprResult {
                            stack,
                            expr: ExprView::UnaryPre { loc, op, expr: Box::new(r.expr) },
                            value,
                        },
                    )
                },
                _ => match check_expr_again(height(expr), r.stack, r.expr, Access::Storage) {
                    Ok(again) => match again.value {
                        LifetimeView::Pointer(p) => Ok(
                            ExprResult {
                                stack: again.stack.report(
                                    ReportOf::BadDereference {
                                        loc: expr_loc(again.expr),
                                        changed_here: again.stack.pointers[p as int].changed_here,
                                    },
                                ),
                                expr: ExprView::UnaryPre {
                                    loc,
                                    op,
                                    expr: Box::new(again.expr),
                                },
                                value: LifetimeView::Uninitialized,
                            },
                        ),
                        _ => Err(Stop { ice: Ice::NotAPointer, reports: again.stack.reports }),
                    },
                    Err(stop) => Err(stop),
                },
            },
            Err(stop) => Err(stop),
        }
    } else {
        Ok(
            ExprResult {
                stack: s,
                expr: ExprView::UnaryPre { loc, op, expr: Box::new(expr) },
                value: LifetimeView::Uninitialized,
            },
        )
    }
}

/// What is known of a value that is put together from others.
pub open spec fn init_value(all_static: bool) -> LifetimeView {
    if all_static {
        LifetimeView::Static
    } else {
        LifetimeView::Uninitialized
    }
}

/// Checks an expression once more, after a first check completed it. Completing does not make
/// an expression higher, so the bound always holds (`law_checking_again_is_checking`).
pub open spec fn check_expr_again(
    bound: nat,
    s: StackView,
    e: ExprView,
    access: Access,
) -> Result<ExprResult, Stop>
    decreases bound, 1nat, 0nat,
{
    if height(e) <= bound {
        check_expr(s, e, access)
    } else {
        Err(Stop { ice: Ice::NotAPointer, reports: s.reports })
    }
}

/// What checking the values of several expressions leads to.
pub struct ElementsResult {
    pub stack: StackView,
    pub exprs: Seq<ExprView>,
    pub all_static: bool,
}

/// Checks the values of the expressions from the one of number `i` on, where those before it
/// came out as `done`.
pub open spec fn check_elements(
    s: StackView,
    es: Seq<ExprView>,
    i: nat,
    done: Seq<ExprView>,
    all_static: bool,
) -> Result<ElementsResult, Stop>
    decreases heights(es), 2nat, es.len() - i,
{
    if i >= es.len() {
        Ok(ElementsResult { stack: s, exprs: done, all_static })
    } else {
        proof {
            lemma_heights(es, i as int);
        }
        match check_expr(s, es[i as int], Access::Value) {
            Ok(r) => check_elements(
                r.stack,
                es,
                i + 1,
                done.push(r.expr),
                all_static && r.value is Static,
            ),
            Err(stop) => Err(stop),
        }
    }
}

/// What checking the values of several labeled expressions leads to.
pub struct LabeledResult {
    pub stack: StackView,
    pub exprs: Seq<LabeledView>,
    pub all_static: bool,
}

/// Checks the values of the labeled expressions from the one of number `i` on, where those
/// before it came out as `done`.
pub open spec fn check_labeled(
    s: StackView,
    ls: Seq<LabeledView>,
    i: nat,
    done: Seq<LabeledView>,
    all_static: bool,
) -> Result<LabeledResult, Stop>
    decreases labeled_heights(ls), 2nat, ls.len() - i,
{
    if i >= ls.len() {
        Ok(LabeledResult { stack: s, exprs: done, all_static })
    } else {
        proof {
            lemma_labeled_heights(ls, i as int);
        }
        match check_expr(s, ls[i as int].expr, Access::Value) {
            Ok(r) => check_labeled(
                r.stack,
                ls,
                i + 1,
                done.push(LabeledView { label: ls[i as int].label, expr: r.expr }),
                all_static && r.value is Static,
            ),
            Err(stop) => Err(stop),
        }
    }
}

/// The arguments of a call, completed by those that the parameters from the one of number `i`
/// on have generated at the callsite.
pub open spec fn completed(
    params: Seq<NamedArgView>,
    args: Seq<ExprView>,
    i: nat,
) -> Seq<ExprView>
    decreases params.len() - i,
{
    if i >= params.len() {
        args
    } else if has_key(params[i as int].tags, "callsite_macro"@) {
        if i > args.len() {
            args
        } else {
            let generated = values(params[i as int].tags, "callsite_macro"@)[0];
            completed(
                params,
                args.insert(i as int, ExprView::Literal { loc: generated.loc, v: generated.value }),
                i + 1,
            )
        }
    } else {
        completed(params, args, i + 1)
    }
}

/// Completing a call adds literals only, which are not high.
pub proof fn lemma_completed_heights(params: Seq<NamedArgView>, args: Seq<ExprView>, i: nat)
    ensures
        heights(completed(params, args, i)) == heights(args),
    decreases params.len() - i,
{
    if i < params.len() {
        if has_key(params[i as int].tags, "callsite_macro"@) {
            if i <= args.len() {
                let generated = values(params[i as int].tags, "callsite_macro"@)[0];
                let literal = ExprView::Literal { loc: generated.loc, v: generated.value };
                lemma_literal_heights(args, i as int, literal);
                lemma_completed_heights(params, args.insert(i as int, literal), i + 1);
            }
        } else {
            lemma_completed_heights(params, args, i + 1);
        }
    }
}

proof fn lemma_literal_heights(args: Seq<ExprView>, i: int, literal: ExprView)
    requires
        0 <= i <= args.len(),
        literal is Literal,
    ensures
        heights(args.insert(i, literal)) == heights(args),
{
    let more = args.insert(i, literal);
    assert forall|j: int| 0 <= j < more.len() implies height(#[trigger] more[j]) <= heights(
        args,
    ) by {
        if j < i {
            lemma_heights(args, j);
        } else if j > i {
            lemma_heights(args, j - 1);
        }
    }
    lemma_heights_bound(more, heights(args));
    assert forall|j: int| 0 <= j < args.len() implies height(#[trigger] args[j]) <= heights(
        more,
    ) by {
        if j < i {
            assert(more[j] == args[j]);
            lemma_heights(more, j);
        } else {
            assert(more[j + 1] == args[j]);
            lemma_heights(more, j + 1);
        }
    }
    lemma_heights_bound(args, heights(more));
}

/// Whether a function of `expected` parameters cannot be called with `passed` arguments.
pub open spec fn count_mismatch(expected: nat, passed: nat, vararg: bool) -> bool {
    if vararg {
        passed < expected
    } else {
        passed != expected
    }
}

/// Checks the arguments of a call against the parameters from the one of number `i` on, where
/// those before it came out as `done`. What follows the last parameter is not checked.
pub open spec fn check_call_args(
    s: StackView,
    params: Seq<NamedArgView>,
    args: Seq<ExprView>,
    i: nat,
    done: Seq<ExprView>,
) -> Result<(StackView, Seq<ExprView>), Stop>
    decreases heights(args), 3nat, params.len() - i,
{
    if i >= params.len() || i >= args.len() {
        Ok((s, done + args.skip(i as int)))
    } else {
        proof {
            lemma_heights(args, i as int);
        }
        match check_call_arg(s, params[i as int], args[i as int]) {
            Ok((s1, arg)) => check_call_args(s1, params, args, i + 1, done.push(arg)),
            Err(stop) => Err(stop),
        }
    }
}

/// Checks an argument against its parameter.
pub open spec fn check_call_arg(s: StackView, param: NamedArgView, arg: ExprView) -> Result<
    (StackView, ExprView),
    Stop,
>
    decreases height(arg), 2nat, 0nat,
{
    match check_expr(s, arg, Access::Value) {
        Ok(r) => if r.value is Static {
            Ok((r.stack, r.expr))
        } else {
            match check_expr_again(height(arg), r.stack, r.expr, Access::Storage) {
                Ok(again) => match again.value {
                    LifetimeView::Pointer(p) => Ok(
                        (
                            check_levels(again.stack, param.typed, expr_loc(again.expr), p, 0),
                            again.expr,
                        ),
                    ),
                    _ => Err(Stop { ice: Ice::NotAPointer, reports: again.stack.reports }),
                },
                Err(stop) => Err(stop),
            }
        },
        Err(stop) => Err(stop),
    }
}

/// Follows the storage at `at` through the pointers of the parameter's type, right to left, from
/// the one of number `depth` on.
pub open spec fn check_levels(
    s: StackView,
    typed: TypedView,
    callsite: Location,
    at: nat,
    depth: nat,
) -> StackView
    decreases typed.ptr.len() - depth,
{
    if depth >= typed.ptr.len() {
        s
    } else {
        match pointed_to(s.pointers[at as int], callsite, typed.loc, depth) {
            Err(r) => s.report(r),
            Ok(to) => {
                let (s1, deeper) = check_level(
                    s,
                    typed.ptr[typed.ptr.len() - 1 - depth],
                    callsite,
                    to,
                );
                if deeper {
                    check_levels(s1, typed, callsite, to, depth + 1)
                } else {
                    s1
                }
            },
        }
    }
}

/// Where the value of a storage location that is passed as pointer points to, or why that
/// cannot be passed.
pub open spec fn pointed_to(
    storage: StorageView,
    callsite: Location,
    expected_here: Location,
    depth: nat,
) -> Result<nat, ReportView> {
    match storage.value {
        LifetimeView::Pointer(to) => Ok(to),
        LifetimeView::Uninitialized => Err(
            ReportOf::UninitializedArg { callsite, stored_here: storage.stored_here },
        ),
        LifetimeView::Dropped { stored_here, dropped_here } => Err(
            ReportOf::DroppedArg { name: storage.name, callsite, stored_here, dropped_here },
        ),
        LifetimeView::Moved { moved_here } => Err(
            ReportOf::MovedArg { name: storage.name, callsite, moved_here },
        ),
        LifetimeView::Function { .. } => Err(ReportOf::FunctionArg { callsite }),
        LifetimeView::Static => Err(
            ReportOf::DepthMismatch {
                callsite,
                changed_here: storage.changed_here,
                expected_here,
                depth,
            },
        ),
    }
}

/// The tags of a storage location after a parameter cleaned it of the taints that it knows.
pub open spec fn cleaned(tags: TagsView, known: TagsView) -> TagsView {
    tags.filter(
        |t: TagView| !(t.key == "tainted"@ && has_value(known, "untaint"@, t.value)),
    )
}

/// The taints that a parameter sets and that the callsite did not declare.
pub open spec fn undeclared(taints: TagsView, declared: TagsView) -> TagsView {
    taints.filter(|t: TagView| !has_value(declared, "taint"@, t.value))
}

/// The tags of a storage location after the taints from the one of number `i` on were set.
pub open spec fn tainted(
    tags: TagsView,
    taints: TagsView,
    callsite: Location,
    i: nat,
) -> TagsView
    decreases taints.len() - i,
{
    if i >= taints.len() {
        tags
    } else {
        tainted(
            inserted(tags, "tainted"@, taints[i as int].value, callsite),
            taints,
            callsite,
            i + 1,
        )
    }
}

/// Checks the storage at `to` against one pointer of the parameter's type, and does to it what
/// passing it does. The flag tells whether to follow it to the next pointer.
pub open spec fn check_level(
    s: StackView,
    ptr: PointerView,
    callsite: Location,
    to: nat,
) -> (StackView, bool) {
    let site = s.pointers[to as int];
    let clean = cleaned(site.tags, ptr.tags);
    let taints = values(ptr.tags, "taint"@);
    let missing = undeclared(taints, clean);
    let marked = tainted(clean, taints, callsite, 0);
    let s1 = s.set_tags(to, clean);
    let s2 = s.set_tags(to, marked);
    if has_key(ptr.tags, "mutable"@) && !has_key(site.tags, "mutable"@) {
        (s.report(ReportOf::ConstArg { callsite, stored_here: site.stored_here }), false)
    } else if has_key(clean, "tainted"@) {
        (s1.report(ReportOf::TaintedArg { name: site.name, callsite }), false)
    } else if has_key(clean, "borrowed"@) && missing.len() > 0 {
        (
            s1.report(
                ReportOf::TaintsBorrowed {
                    taint: missing[0].value,
                    callsite,
                    stored_here: site.stored_here,
                },
            ),
            false,
        )
    } else if has_key(ptr.tags, "move"@) {
        if has_key(marked, "stack"@) {
            (s2.report(ReportOf::MovesStack { name: site.name, callsite }), false)
        } else if has_key(marked, "borrowed"@) {
            (
                s2.report(
                    ReportOf::MovesBorrowed {
                        name: site.name,
                        callsite,
                        required_here: values(ptr.tags, "move"@)[0].loc,
                        stored_here: site.stored_here,
                    },
                ),
                false,
            )
        } else {
            (s2.give_away(to, callsite), false)
        }
    } else if has_key(ptr.tags, "unsafe"@) {
        (s2, false)
    } else if has_key(marked, "unsafe"@) {
        (s2.report(ReportOf::UnsafeArg { callsite, stored_here: site.stored_here }), false)
    } else {
        (s2, true)
    }
}

/// The name of the storage that a call of `callee` at `loc` returns.
pub open spec fn return_name(callee: NameView, loc: Location) -> NameView {
    pieces("function call return "@ + joined(callee) + " at "@ + line_col(loc))
}

/// The name of the storage that holds an address taken at `loc`.
pub open spec fn temporary_name(loc: Location) -> NameView {
    pieces("temporary access at "@ + line_col(loc))
}

/// What a call returns: nothing with a lifetime, or a pointer to new storage for each pointer
/// that the function returns.
pub open spec fn returned(
    s: StackView,
    ret: Option<Box<LifetimeView>>,
    callee: NameView,
    loc: Location,
) -> Result<(StackView, LifetimeView), Stop> {
    match ret {
        Some(ret) => copy_returned(s, *ret, *ret, callee, loc, s.pointers.len()),
        None => Ok((s, LifetimeView::Static)),
    }
}

/// Makes new storage for each pointer from `next` on, where `site` is what the callsite gets so
/// far. A chain of pointers that is longer than there is storage (`fuel`) has no end
/// (`law_endless_return`).
pub open spec fn copy_returned(
    s: StackView,
    next: LifetimeView,
    site: LifetimeView,
    callee: NameView,
    loc: Location,
    fuel: nat,
) -> Result<(StackView, LifetimeView), Stop>
    decreases fuel,
{
    match next {
        LifetimeView::Pointer(p) => if s.stack.len() == 0 {
            Err(Stop { ice: Ice::NoScope, reports: s.reports })
        } else if fuel == 0 {
            Err(Stop { ice: Ice::EndlessReturn, reports: s.reports })
        } else {
            let made = s.pointers.len();
            copy_returned(
                s.local(None, return_name(callee, loc), loc, s.pointers[p as int].tags).write(
                    made,
                    site,
                    loc,
                ),
                s.pointers[p as int].value,
                LifetimeView::Pointer(made),
                callee,
                loc,
                (fuel - 1) as nat,
            )
        },
        _ => Ok((s, site)),
    }
}

/// Checks a statement.
pub open spec fn check_stm(s: StackView, stm: StmtView) -> Result<(StackView, StmtView), Stop>
    decreases stm, 0nat,
{
    match stm {
        StmtView::Mark { loc, lhs, key, value } => match check_mark(s, loc, lhs, key, value) {
            Ok((s1, lhs)) => Ok((s1, StmtView::Mark { loc, lhs, key, value })),
            Err(stop) => Err(stop),
        },
        StmtView::Block(block) => match check_block(
            s.push("block"@),
            block.statements,
            0,
            Seq::empty(),
        ) {
            Ok((s1, statements)) => Ok(
                (s1.pop(block.end), StmtView::Block(BlockView { statements, ..block })),
            ),
            Err(stop) => Err(stop),
        },
        StmtView::Cond { expr, body } => match check_opt_expr(s.push("if"@), expr) {
            Ok((s1, expr)) => match check_block(s1, body.statements, 0, Seq::empty()) {
                Ok((s2, statements)) => Ok(
                    (
                        s2.pop(body.end),
                        StmtView::Cond { expr, body: BlockView { statements, ..body } },
                    ),
                ),
                Err(stop) => Err(stop),
            },
            Err(stop) => Err(stop),
        },
        StmtView::For { e1, e2, e3, body } => match check_opt_stm(s.push("for"@), e1) {
            Ok((s1, e1)) => match check_opt_stm(s1, e2) {
                Ok((s2, e2)) => match check_opt_stm(s2, e3) {
                    Ok((s3, e3)) => match check_block(s3, body.statements, 0, Seq::empty()) {
                        Ok((s4, statements)) => Ok(
                            (
                                s4.pop(body.end),
                                StmtView::For {
                                    e1,
                                    e2,
                                    e3,
                                    body: BlockView { statements, ..body },
                                },
                            ),
                        ),
                        Err(stop) => Err(stop),
                    },
                    Err(stop) => Err(stop),
                },
                Err(stop) => Err(stop),
            },
            Err(stop) => Err(stop),
        },
        StmtView::Expr { loc, expr } => match check_expr(s, expr, Access::Value) {
            Ok(r) => Ok((r.stack, StmtView::Expr { loc, expr: r.expr })),
            Err(stop) => Err(stop),
        },
        StmtView::Var { loc, name, tags, assign } => match check_var(s, loc, name, tags, assign) {
            Ok((s1, assign)) => Ok((s1, StmtView::Var { loc, name, tags, assign })),
            Err(stop) => Err(stop),
        },
        StmtView::Assign { loc, lhs, rhs } => match check_assign(s, lhs, rhs) {
            Ok((s1, lhs, rhs)) => Ok((s1, StmtView::Assign { loc, lhs, rhs })),
            Err(stop) => Err(stop),
        },
        StmtView::Return { loc, expr } => match check_opt_expr(s, expr) {
            Ok((s1, expr)) => Ok((left(s1, loc), StmtView::Return { loc, expr })),
            Err(stop) => Err(stop),
        },
        StmtView::Goto { .. } => Ok((s, stm)),
        StmtView::Label { .. } => Ok((s, stm)),
        StmtView::Break { .. } => Ok((s, stm)),
    }
}

/// Puts a mark on the storage that an expression names.
pub open spec fn check_mark(
    s: StackView,
    loc: Location,
    lhs: ExprView,
    key: Text,
    value: Text,
) -> Result<(StackView, ExprView), Stop> {
    match check_expr(s, lhs, Access::Storage) {
        Ok(r) => match r.value {
            LifetimeView::Pointer(to) => {
                let tags = r.stack.pointers[to as int].tags;
                Ok((r.stack.set_tags(to, marked(tags, key, value, loc)), r.expr))
            },
            _ => Ok(
                (r.stack.report(ReportOf::MarkTarget { loc: expr_loc(r.expr) }), r.expr),
            ),
        },
        Err(stop) => Err(stop),
    }
}

/// Declares a variable, which its first value may already name.
pub open spec fn check_var(
    s: StackView,
    loc: Location,
    name: Text,
    tags: TagsView,
    assign: Option<ExprView>,
) -> Result<(StackView, Option<ExprView>), Stop> {
    let var = s.pointers.len();
    let s1 = s.local(None, pieces(name), loc, inserted(tags, "stack"@, Seq::empty(), loc));
    if s.stack.len() == 0 {
        Err(Stop { ice: Ice::NoScope, reports: s.reports })
    } else {
        match assign {
            Some(assign) => match check_expr(s1, assign, Access::Value) {
                Ok(r) => {
                    let s2 = if r.value is Uninitialized {
                        r.stack.report(ReportOf::UnknownRvalue { loc: expr_loc(r.expr) })
                    } else {
                        r.stack
                    };
                    Ok((s2.write(var, r.value, loc), Some(r.expr)))
                },
                Err(stop) => Err(stop),
            },
            None => Ok((s1, None)),
        }
    }
}

/// Assigns a value to the storage that an expression names.
pub open spec fn check_assign(s: StackView, lhs: ExprView, rhs: ExprView) -> Result<
    (StackView, ExprView, ExprView),
    Stop,
> {
    match check_expr(s, rhs, Access::Value) {
        Ok(from) => {
            let s1 = if from.value is Uninitialized {
                from.stack.report(ReportOf::InvalidRvalue { loc: expr_loc(from.expr) })
            } else {
                from.stack
            };
            match check_expr(s1, lhs, Access::Storage) {
                Ok(to) => Ok(
                    (
                        assigned(to.stack, to.value, from.value, expr_loc(to.expr)),
                        to.expr,
                        from.expr,
                    ),
                ),
                Err(stop) => Err(stop),
            }
        },
        Err(stop) => Err(stop),
    }
}

/// Checks the value of an expression, if there is one.
pub open spec fn check_opt_expr(s: StackView, e: Option<ExprView>) -> Result<
    (StackView, Option<ExprView>),
    Stop,
> {
    match e {
        Some(e) => match check_expr(s, e, Access::Value) {
            Ok(r) => Ok((r.stack, Some(r.expr))),
            Err(stop) => Err(stop),
        },
        None => Ok((s, None)),
    }
}

/// Checks a statement, if there is one.
pub open spec fn check_opt_stm(s: StackView, stm: Option<Box<StmtView>>) -> Result<
    (StackView, Option<Box<StmtView>>),
    Stop,
>
    decreases stm, 0nat,
{
    match stm {
        Some(stm) => match check_stm(s, *stm) {
            Ok((s1, stm)) => Ok((s1, Some(Box::new(stm)))),
            Err(stop) => Err(stop),
        },
        None => Ok((s, None)),
    }
}

/// Checks the statements from the one of number `i` on, where those before it came out as
/// `done`.
pub open spec fn check_block(
    s: StackView,
    stms: Seq<StmtView>,
    i: nat,
    done: Seq<StmtView>,
) -> Result<(StackView, Seq<StmtView>), Stop>
    decreases stms, stms.len() - i,
{
    if i >= stms.len() {
        Ok((s, done))
    } else {
        match check_stm(s, stms[i as int]) {
            Ok((s1, stm)) => check_block(s1, stms, i + 1, done.push(stm)),
            Err(stop) => Err(stop),
        }
    }
}

/// The tags of a storage location after a mark was put on it. `safe` and `pure` take tags off.
pub open spec fn marked(tags: TagsView, key: Text, value: Text, loc: Location) -> TagsView {
    if key == "safe"@ {
        removed(tags, "unsafe"@)
    } else if key == "pure"@ {
        removed(tags, "tainted"@)
    } else {
        inserted(tags, key, value, loc)
    }
}

/// Assigns `value` to the storage that `target` points to. Storage that is not mutable is
/// assigned to as well, after an error.
pub open spec fn assigned(
    s: StackView,
    target: LifetimeView,
    value: LifetimeView,
    loc: Location,
) -> StackView {
    match target {
        LifetimeView::Pointer(to) => {
            let storage = s.pointers[to as int];
            if has_key(storage.tags, "mutable"@) {
                s.write(to, value, loc)
            } else {
                s.report(
                    ReportOf::ImmutableAssign { loc, stored_here: storage.stored_here },
                ).write(to, value, loc)
            }
        },
        _ => s.report(ReportOf::InvalidLvalue { loc }),
    }
}

/// Leaves the function: whatever had to be moved by now, and was not, is lost.
pub open spec fn left(s: StackView, loc: Location) -> StackView {
    orphaned(
        StackView { must_move_before_ret: Seq::empty(), ..s },
        s.must_move_before_ret,
        loc,
        0,
    )
}

/// Reports the storage that had to be moved, from the one of number `i` on, and was not.
pub open spec fn orphaned(
    s: StackView,
    owed: Seq<(nat, Location)>,
    loc: Location,
    i: nat,
) -> StackView
    decreases owed.len() - i,
{
    if i >= owed.len() {
        s
    } else {
        let (p, call_loc) = owed[i as int];
        if s.pointers[p as int].value is Moved {
            orphaned(s, owed, loc, i + 1)
        } else {
            orphaned(s.report(ReportOf::Orphaned { call_loc, loc }), owed, loc, i + 1)
        }
    }
}

/// Binds a name of the module to something that is never dropped.
pub open spec fn define_static(
    s: StackView,
    typ: Option<TypedView>,
    name: NameView,
    loc: Location,
    tags: TagsView,
) -> StackView {
    s.local(typ, name, loc, tags).write(s.pointers.len(), LifetimeView::Static, loc)
}

/// Binds the names that C code provides, from the one of number `i` on.
pub open spec fn define_c_names(s: StackView, names: Seq<CNameView>, i: nat) -> StackView
    decreases names.len() - i,
{
    if i >= names.len() {
        s
    } else {
        let c = names[i as int];
        define_c_names(define_static(s, None, c.name, c.loc, Seq::empty()), names, i + 1)
    }
}

/// The tags of storage behind a pointer: what is not given away is borrowed.
pub open spec fn behind_pointer(tags: TagsView, loc: Location) -> TagsView {
    if has_key(tags, "move"@) {
        tags
    } else {
        inserted(tags, "borrowed"@, Seq::empty(), loc)
    }
}

/// Makes storage for each pointer that a function returns, from the one of number `i` on, where
/// `inner` is what the next one points to.
pub open spec fn define_return(
    s: StackView,
    function: Text,
    typed: TypedView,
    i: nat,
    inner: LifetimeView,
) -> (StackView, LifetimeView)
    decreases typed.ptr.len() - i,
{
    if i >= typed.ptr.len() {
        (s, inner)
    } else {
        let made = s.pointers.len();
        let s1 = s.local(
            Some(typed),
            pieces("return value of "@ + function),
            typed.loc,
            behind_pointer(typed.ptr[i as int].tags, typed.loc),
        ).write(made, inner, typed.loc);
        define_return(
            StackView { current_return_ptr: Some(made), ..s1 },
            function,
            typed,
            i + 1,
            LifetimeView::Pointer(made),
        )
    }
}

/// Makes storage for what each pointer of an argument points to, right to left, from the one of
/// number `depth` on, where `at` is the storage of the pointer itself. The second part is the
/// storage of the innermost.
pub open spec fn define_arg_levels(
    s: StackView,
    arg: NamedArgView,
    at: nat,
    depth: nat,
) -> (StackView, nat)
    decreases arg.typed.ptr.len() - depth,
{
    if depth >= arg.typed.ptr.len() {
        (s, at)
    } else {
        let ptr = arg.typed.ptr[arg.typed.ptr.len() - 1 - depth];
        let made = s.pointers.len();
        define_arg_levels(
            s.local(
                Some(arg.typed),
                pieces("__builtin::pointer_to_callsite::"@ + decimal(at)),
                arg.loc,
                behind_pointer(ptr.tags, arg.loc),
            ).write(at, LifetimeView::Pointer(made), arg.loc),
            arg,
            made,
            depth + 1,
        )
    }
}

/// Binds an argument of a function, with storage for all that it points to.
pub open spec fn define_arg(s: StackView, arg: NamedArgView) -> StackView {
    let (s1, at) = define_arg_levels(
        s.local(Some(arg.typed), pieces(arg.name), arg.loc, arg.tags),
        arg,
        s.pointers.len(),
        0,
    );
    s1.local(
        Some(arg.typed),
        pieces("__builtin::callstack::"@ + decimal(at)),
        arg.loc,
        arg.tags,
    ).write(at, LifetimeView::Pointer(s1.pointers.len()), arg.loc)
}

/// Binds the arguments of a function, from the one of number `i` on.
pub open spec fn define_args(s: StackView, args: Seq<NamedArgView>, i: nat) -> StackView
    decreases args.len() - i,
{
    if i >= args.len() {
        s
    } else {
        define_args(define_arg(s, args[i as int]), args, i + 1)
    }
}

/// Enters a function: the state in which its body is checked, and what a call of it returns. The
/// function itself is bound, but not yet known.
pub open spec fn entered(
    s: StackView,
    name: Text,
    loc: Location,
    ret: Option<TypedView>,
    args: Seq<NamedArgView>,
) -> (StackView, Option<Box<LifetimeView>>) {
    let s1 = s.local(None, pieces(name), loc, Seq::empty());
    let (s2, ret_value) = match ret {
        Some(typed) => {
            let (s2, value) = define_return(s1, name, typed, 0, LifetimeView::Static);
            (s2, Some(Box::new(value)))
        },
        None => (s1, None),
    };
    (define_args(s2.push(name), args, 0), ret_value)
}

/// Checks a definition of the module. A function can be called only from behind its definition.
pub open spec fn check_local(s: StackView, local: LocalView) -> Result<
    (StackView, LocalView),
    Stop,
> {
    match local.def {
        DefView::Macro => Ok(
            (define_static(s, None, pieces(local.name), local.loc, Seq::empty()), local),
        ),
        DefView::Static { typed, tags } => Ok(
            (define_static(s, Some(typed), pieces(local.name), local.loc, tags), local),
        ),
        DefView::Function { ret, args, vararg, body } => {
            let function = s.pointers.len();
            let (s3, ret_value) = entered(s, local.name, local.loc, ret, args);
            match check_block(s3, body.statements, 0, Seq::empty()) {
                Ok((s4, statements)) => {
                    let s5 = s4.write(
                        function,
                        LifetimeView::Function { ret: ret_value, args, vararg },
                        local.loc,
                    ).pop(body.end);
                    Ok(
                        (
                            StackView { current_return_ptr: None, ..s5 },
                            LocalView {
                                def: DefView::Function {
                                    ret,
                                    args,
                                    vararg,
                                    body: BlockView { statements, ..body },
                                },
                                ..local
                            },
                        ),
                    )
                },
                Err(stop) => Err(stop),
            }
        },
        DefView::Other => Ok((s, local)),
    }
}

/// Checks the items of a module from the one of number `i` on, where those before it came out
/// as `done`.
pub open spec fn check_items(s: StackView, ds: Seq<DView>, i: nat, done: Seq<DView>) -> Result<
    (StackView, Seq<DView>),
    Stop,
>
    decreases ds.len() - i,
{
    if i >= ds.len() {
        Ok((s, done))
    } else {
        match ds[i as int] {
            DView::Include(_) => check_items(s, ds, i + 1, done.push(ds[i as int])),
            DView::Local(local) => match check_local(s, local) {
                Ok((s1, local)) => check_items(s1, ds, i + 1, done.push(DView::Local(local))),
                Err(stop) => Err(stop),
            },
        }
    }
}

/// Checks a module.
pub open spec fn check_module(md: ModuleView) -> Result<(StackView, ModuleView), Stop> {
    let s = define_c_names(StackView::empty().push("static"@), md.c_names, 0);
    match check_items(s, md.d, 0, Seq::empty()) {
        Ok((s1, d)) => Ok((s1, ModuleView { d, ..md })),
        Err(stop) => Err(stop),
    }
}

} // verus!
