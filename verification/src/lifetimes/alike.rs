//! The names of scopes mean nothing: states that differ in them alone are checked alike. So a
//! block, what depends on a condition, and the body of a loop are checked in the same way.

use vstd::prelude::*;
use crate::ast::{BlockView, ExprView, LabeledView, NamedArgView, StmtView, TypedView, expr_loc};
use crate::lifetimes::frame::{
    lemma_check_block_keeps, lemma_check_opt_expr_keeps, lemma_check_opt_stm_keeps,
    lemma_check_stm_keeps, lemma_extends_scope,
};
use crate::lifetimes::rules::{
    ExprResult, Stop, check_block, check_call, check_call_arg, check_call_args, check_elements,
    check_expr, check_expr_again, check_labeled, check_level, check_levels, check_opt_expr,
    check_opt_stm, check_stm, check_unary, completed, copy_returned, count_mismatch, height,
    heights, labeled_heights, lemma_completed_heights, lemma_heights, lemma_labeled_heights,
    orphaned, pointed_to, return_name, returned, temporary_name,
};
use crate::lifetimes::state::{Access, LifetimeView, ScopeView, StackView, find_in, lemma_push_wf};
use crate::location::Location;
use crate::name::{NameView, is_ext};
use crate::report::ReportOf;
use crate::tags::{TagsView, inserted};
use crate::text::{Text, pieces};

verus! {

/// Whether two states differ in the names of their scopes alone.
pub open spec fn alike(s: StackView, t: StackView) -> bool {
    &&& s.pointers == t.pointers
    &&& s.current_return_ptr == t.current_return_ptr
    &&& s.must_move_before_ret == t.must_move_before_ret
    &&& s.reports == t.reports
    &&& scopes_alike(s.stack, t.stack)
}

/// Whether scopes differ in their names alone.
pub open spec fn scopes_alike(a: Seq<ScopeView>, b: Seq<ScopeView>) -> bool {
    &&& a.len() == b.len()
    &&& forall|i: int| 0 <= i < a.len() ==> (#[trigger] a[i]).locals == b[i].locals
}

/// Whether two checks of an expression came to the same, but for the names of scopes.
pub open spec fn exprs_alike(a: Result<ExprResult, Stop>, b: Result<ExprResult, Stop>) -> bool {
    match (a, b) {
        (Ok(a), Ok(b)) => alike(a.stack, b.stack) && a.expr == b.expr && a.value == b.value,
        (Err(a), Err(b)) => a == b,
        _ => false,
    }
}

/// Whether two checks came to the same, but for the names of scopes.
pub open spec fn results_alike<T>(
    a: Result<(StackView, T), Stop>,
    b: Result<(StackView, T), Stop>,
) -> bool {
    match (a, b) {
        (Ok((s, x)), Ok((t, y))) => alike(s, t) && x == y,
        (Err(a), Err(b)) => a == b,
        _ => false,
    }
}

proof fn lemma_find_alike(a: Seq<ScopeView>, b: Seq<ScopeView>, name: NameView)
    requires
        scopes_alike(a, b),
    ensures
        find_in(a, name) == find_in(b, name),
    decreases a.len(),
{
    if a.len() > 0 {
        assert(a[a.len() - 1].locals == b[a.len() - 1].locals);
        assert forall|i: int| 0 <= i < a.len() - 1 implies (
        #[trigger] a.drop_last()[i]).locals == b.drop_last()[i].locals by {
            assert(a[i].locals == b[i].locals);
        }
        lemma_find_alike(a.drop_last(), b.drop_last(), name);
    }
}

proof fn lemma_check_name_alike(
    s: StackView,
    t: StackView,
    name: NameView,
    used_here: Location,
    access: Access,
)
    requires
        alike(s, t),
    ensures
        alike(s.check_name(name, used_here, access).0, t.check_name(name, used_here, access).0),
        s.check_name(name, used_here, access).1 == t.check_name(name, used_here, access).1,
{
    lemma_find_alike(s.stack, t.stack, name);
}

proof fn lemma_local_alike(
    s: StackView,
    t: StackView,
    typ: Option<TypedView>,
    name: NameView,
    loc: Location,
    tags: TagsView,
)
    requires
        alike(s, t),
        s.stack.len() > 0,
    ensures
        alike(s.local(typ, name, loc, tags), t.local(typ, name, loc, tags)),
{
    let n = s.stack.len();
    assert(s.stack[n - 1].locals == t.stack[n - 1].locals);
    let a = s.local(typ, name, loc, tags).stack;
    let b = t.local(typ, name, loc, tags).stack;
    assert forall|i: int| 0 <= i < a.len() implies (#[trigger] a[i]).locals == b[i].locals by {
        if i < n - 1 {
            assert(s.stack[i].locals == t.stack[i].locals);
        }
    }
}

proof fn lemma_push_alike(s: StackView, t: StackView, a: Text, b: Text)
    requires
        alike(s, t),
    ensures
        alike(s.push(a), t.push(b)),
{
    let n = s.stack.len();
    assert forall|i: int| 0 <= i < n + 1 implies (#[trigger] s.push(a).stack[i]).locals == t.push(
        b,
    ).stack[i].locals by {
        if i < n {
            assert(s.stack[i].locals == t.stack[i].locals);
        }
    }
}

proof fn lemma_pop_alike(s: StackView, t: StackView, end: Location)
    requires
        alike(s, t),
        s.stack.len() > 0,
    ensures
        alike(s.pop(end), t.pop(end)),
{
    let n = s.stack.len();
    assert(s.stack[n - 1].locals == t.stack[n - 1].locals);
    assert(s.pop(end).pointers =~= t.pop(end).pointers);
    assert forall|i: int| 0 <= i < n - 1 implies (#[trigger] s.pop(end).stack[i]).locals == t.pop(
        end,
    ).stack[i].locals by {
        assert(s.stack[i].locals == t.stack[i].locals);
    }
}

proof fn lemma_levels_alike(
    s: StackView,
    t: StackView,
    typed: TypedView,
    callsite: Location,
    at: nat,
    depth: nat,
)
    requires
        alike(s, t),
    ensures
        alike(
            check_levels(s, typed, callsite, at, depth),
            check_levels(t, typed, callsite, at, depth),
        ),
    decreases typed.ptr.len() - depth,
{
    if depth < typed.ptr.len() {
        match pointed_to(s.pointers[at as int], callsite, typed.loc, depth) {
            Err(_) => {},
            Ok(to) => {
                let ptr = typed.ptr[typed.ptr.len() - 1 - depth];
                let (s1, deeper) = check_level(s, ptr, callsite, to);
                let (t1, same) = check_level(t, ptr, callsite, to);
                assert(alike(s1, t1) && deeper == same);
                if deeper {
                    lemma_levels_alike(s1, t1, typed, callsite, to, depth + 1);
                }
            },
        }
    }
}

proof fn lemma_copy_returned_alike(
    s: StackView,
    t: StackView,
    next: LifetimeView,
    site: LifetimeView,
    callee: NameView,
    loc: Location,
    fuel: nat,
)
    requires
        alike(s, t),
    ensures
        results_alike(
            copy_returned(s, next, site, callee, loc, fuel),
            copy_returned(t, next, site, callee, loc, fuel),
        ),
    decreases fuel,
{
    match next {
        LifetimeView::Pointer(p) => {
            if s.stack.len() > 0 && fuel > 0 {
                let tags = s.pointers[p as int].tags;
                let made = s.pointers.len();
                let name = return_name(callee, loc);
                lemma_local_alike(s, t, None, name, loc, tags);
                lemma_copy_returned_alike(
                    s.local(None, name, loc, tags).write(made, site, loc),
                    t.local(None, name, loc, tags).write(made, site, loc),
                    s.pointers[p as int].value,
                    LifetimeView::Pointer(made),
                    callee,
                    loc,
                    (fuel - 1) as nat,
                );
            }
        },
        _ => {},
    }
}

/// The names of the open scopes make no difference to how an expression is checked.
pub proof fn law_exprs_are_checked_alike(s: StackView, t: StackView, e: ExprView, access: Access)
    requires
        alike(s, t),
    ensures
        exprs_alike(check_expr(s, e, access), check_expr(t, e, access)),
    decreases height(e), 0nat, 0nat,
{
    match e {
        ExprView::Name(name) => {
            lemma_check_name_alike(s, t, name.name, name.loc, access);
        },
        ExprView::MemberAccess { lhs, op, .. } => {
            let wanted = if op == "->"@ {
                Access::Value
            } else {
                access
            };
            law_exprs_are_checked_alike(s, t, *lhs, wanted);
        },
        ExprView::ArrayAccess { lhs, .. } => {
            law_exprs_are_checked_alike(s, t, *lhs, access);
        },
        ExprView::Literal { .. } => {},
        ExprView::Call { loc, name, args } => {
            lemma_calls_alike(s, t, loc, name, args);
        },
        ExprView::InfixOperation { lhs, rhs, .. } => {
            lemma_labeled_alike(s, t, rhs, 0, Seq::empty(), true);
            match (
                check_labeled(s, rhs, 0, Seq::empty(), true),
                check_labeled(t, rhs, 0, Seq::empty(), true),
            ) {
                (Ok(a), Ok(b)) => {
                    law_exprs_are_checked_alike(a.stack, b.stack, *lhs, Access::Value);
                },
                _ => {},
            }
        },
        ExprView::Cast { expr, .. } => {
            law_exprs_are_checked_alike(s, t, *expr, access);
        },
        ExprView::UnaryPost { expr, .. } => {
            law_exprs_are_checked_alike(s, t, *expr, access);
        },
        ExprView::UnaryPre { loc, op, expr } => {
            lemma_unary_alike(s, t, loc, op, *expr, access);
        },
        ExprView::StructInit { fields, .. } => {
            lemma_labeled_alike(s, t, fields, 0, Seq::empty(), true);
        },
        ExprView::ArrayInit { fields, .. } => {
            lemma_elements_alike(s, t, fields, 0, Seq::empty(), true);
        },
    }
}

proof fn lemma_unary_alike(
    s: StackView,
    t: StackView,
    loc: Location,
    op: Text,
    expr: ExprView,
    access: Access,
)
    requires
        alike(s, t),
    ensures
        exprs_alike(
            check_unary(s, loc, op, expr, access),
            check_unary(t, loc, op, expr, access),
        ),
    decreases height(expr), 4nat, 0nat,
{
    if op == "&"@ {
        law_exprs_are_checked_alike(s, t, expr, Access::Storage);
        match (check_expr(s, expr, Access::Storage), check_expr(t, expr, Access::Storage)) {
            (Ok(a), Ok(b)) => {
                if a.stack.stack.len() > 0 {
                    let here = expr_loc(a.expr);
                    lemma_local_alike(
                        a.stack,
                        b.stack,
                        None,
                        temporary_name(here),
                        here,
                        Seq::empty(),
                    );
                }
            },
            _ => {},
        }
    } else if op == "*"@ {
        law_exprs_are_checked_alike(s, t, expr, Access::Value);
        match (check_expr(s, expr, Access::Value), check_expr(t, expr, Access::Value)) {
            (Ok(a), Ok(b)) => {
                if height(a.expr) <= height(expr) {
                    law_exprs_are_checked_alike(a.stack, b.stack, a.expr, Access::Storage);
                }
            },
            _ => {},
        }
    }
}

proof fn lemma_calls_alike(
    s: StackView,
    t: StackView,
    loc: Location,
    name: TypedView,
    args: Seq<ExprView>,
)
    requires
        alike(s, t),
    ensures
        exprs_alike(check_call(s, loc, name, args), check_call(t, loc, name, args)),
    decreases heights(args), 4nat, 0nat,
{
    if !is_ext(name.name) {
        lemma_check_name_alike(s, t, name.name, name.loc, Access::Value);
        let (s1, callee) = s.check_name(name.name, name.loc, Access::Value);
        let t1 = t.check_name(name.name, name.loc, Access::Value).0;
        match callee {
            LifetimeView::Function { ret, args: params, vararg } => {
                let full = completed(params, args, 0);
                lemma_completed_heights(params, args, 0);
                if !count_mismatch(params.len(), full.len(), vararg) {
                    lemma_call_args_alike(s1, t1, params, full, 0, Seq::empty());
                    match (
                        check_call_args(s1, params, full, 0, Seq::empty()),
                        check_call_args(t1, params, full, 0, Seq::empty()),
                    ) {
                        (Ok((s2, _)), Ok((t2, _))) => {
                            match ret {
                                Some(ret) => {
                                    lemma_copy_returned_alike(
                                        s2,
                                        t2,
                                        *ret,
                                        *ret,
                                        name.name,
                                        loc,
                                        s2.pointers.len(),
                                    );
                                },
                                None => {},
                            }
                            assert(results_alike(
                                returned(s2, ret, name.name, loc),
                                returned(t2, ret, name.name, loc),
                            ));
                        },
                        _ => {},
                    }
                }
            },
            _ => {},
        }
    }
}

proof fn lemma_elements_alike(
    s: StackView,
    t: StackView,
    es: Seq<ExprView>,
    i: nat,
    done: Seq<ExprView>,
    all_static: bool,
)
    requires
        alike(s, t),
    ensures
        match (
            check_elements(s, es, i, done, all_static),
            check_elements(t, es, i, done, all_static),
        ) {
            (Ok(a), Ok(b)) => alike(a.stack, b.stack) && a.exprs == b.exprs && a.all_static
                == b.all_static,
            (Err(a), Err(b)) => a == b,
            _ => false,
        },
    decreases heights(es), 2nat, es.len() - i,
{
    if i < es.len() {
        lemma_heights(es, i as int);
        law_exprs_are_checked_alike(s, t, es[i as int], Access::Value);
        match (
            check_expr(s, es[i as int], Access::Value),
            check_expr(t, es[i as int], Access::Value),
        ) {
            (Ok(a), Ok(b)) => {
                lemma_elements_alike(
                    a.stack,
                    b.stack,
                    es,
                    i + 1,
                    done.push(a.expr),
                    all_static && a.value is Static,
                );
            },
            _ => {},
        }
    }
}

proof fn lemma_labeled_alike(
    s: StackView,
    t: StackView,
    ls: Seq<LabeledView>,
    i: nat,
    done: Seq<LabeledView>,
    all_static: bool,
)
    requires
        alike(s, t),
    ensures
        match (
            check_labeled(s, ls, i, done, all_static),
            check_labeled(t, ls, i, done, all_static),
        ) {
            (Ok(a), Ok(b)) => alike(a.stack, b.stack) && a.exprs == b.exprs && a.all_static
                == b.all_static,
            (Err(a), Err(b)) => a == b,
            _ => false,
        },
    decreases labeled_heights(ls), 2nat, ls.len() - i,
{
    if i < ls.len() {
        lemma_labeled_heights(ls, i as int);
        law_exprs_are_checked_alike(s, t, ls[i as int].expr, Access::Value);
        match (
            check_expr(s, ls[i as int].expr, Access::Value),
            check_expr(t, ls[i as int].expr, Access::Value),
        ) {
            (Ok(a), Ok(b)) => {
                lemma_labeled_alike(
                    a.stack,
                    b.stack,
                    ls,
                    i + 1,
                    done.push(LabeledView { label: ls[i as int].label, expr: a.expr }),
                    all_static && a.value is Static,
                );
            },
            _ => {},
        }
    }
}

proof fn lemma_call_arg_alike(s: StackView, t: StackView, param: NamedArgView, arg: ExprView)
    requires
        alike(s, t),
    ensures
        results_alike(check_call_arg(s, param, arg), check_call_arg(t, param, arg)),
    decreases height(arg), 2nat, 0nat,
{
    law_exprs_are_checked_alike(s, t, arg, Access::Value);
    match (check_expr(s, arg, Access::Value), check_expr(t, arg, Access::Value)) {
        (Ok(a), Ok(b)) => {
            if height(a.expr) <= height(arg) {
                law_exprs_are_checked_alike(a.stack, b.stack, a.expr, Access::Storage);
            }
            match (
                check_expr_again(height(arg), a.stack, a.expr, Access::Storage),
                check_expr_again(height(arg), b.stack, b.expr, Access::Storage),
            ) {
                (Ok(a2), Ok(b2)) => match a2.value {
                    LifetimeView::Pointer(p) => {
                        lemma_levels_alike(
                            a2.stack,
                            b2.stack,
                            param.typed,
                            expr_loc(a2.expr),
                            p,
                            0,
                        );
                    },
                    _ => {},
                },
                _ => {},
            }
        },
        _ => {},
    }
}

proof fn lemma_call_args_alike(
    s: StackView,
    t: StackView,
    params: Seq<NamedArgView>,
    args: Seq<ExprView>,
    i: nat,
    done: Seq<ExprView>,
)
    requires
        alike(s, t),
    ensures
        results_alike(
            check_call_args(s, params, args, i, done),
            check_call_args(t, params, args, i, done),
        ),
    decreases heights(args), 3nat, params.len() - i,
{
    if i < params.len() && i < args.len() {
        lemma_heights(args, i as int);
        lemma_call_arg_alike(s, t, params[i as int], args[i as int]);
        match (
            check_call_arg(s, params[i as int], args[i as int]),
            check_call_arg(t, params[i as int], args[i as int]),
        ) {
            (Ok((s1, arg)), Ok((t1, _))) => {
                lemma_call_args_alike(s1, t1, params, args, i + 1, done.push(arg));
            },
            _ => {},
        }
    }
}

proof fn lemma_opt_expr_alike(s: StackView, t: StackView, e: Option<ExprView>)
    requires
        alike(s, t),
    ensures
        results_alike(check_opt_expr(s, e), check_opt_expr(t, e)),
{
    match e {
        Some(e) => {
            law_exprs_are_checked_alike(s, t, e, Access::Value);
        },
        None => {},
    }
}

proof fn lemma_orphaned_alike(
    s: StackView,
    t: StackView,
    owed: Seq<(nat, Location)>,
    loc: Location,
    i: nat,
)
    requires
        alike(s, t),
    ensures
        alike(orphaned(s, owed, loc, i), orphaned(t, owed, loc, i)),
    decreases owed.len() - i,
{
    if i < owed.len() {
        let (p, call_loc) = owed[i as int];
        if s.pointers[p as int].value is Moved {
            lemma_orphaned_alike(s, t, owed, loc, i + 1);
        } else {
            let r = ReportOf::Orphaned { call_loc, loc };
            lemma_orphaned_alike(s.report(r), t.report(r), owed, loc, i + 1);
        }
    }
}

/// The names of the open scopes make no difference to how a statement is checked.
pub proof fn law_stms_are_checked_alike(s: StackView, t: StackView, stm: StmtView)
    requires
        s.wf(),
        alike(s, t),
    ensures
        results_alike(check_stm(s, stm), check_stm(t, stm)),
    decreases stm, 0nat,
{
    match stm {
        StmtView::Mark { lhs, .. } => {
            law_exprs_are_checked_alike(s, t, lhs, Access::Storage);
        },
        StmtView::Block(block) => {
            lemma_scope_alike(s, t, "block"@, "block"@, block);
        },
        StmtView::Cond { expr, body } => {
            let a = s.push("if"@);
            let b = t.push("if"@);
            lemma_push_wf(s, "if"@);
            lemma_push_alike(s, t, "if"@, "if"@);
            lemma_opt_expr_alike(a, b, expr);
            lemma_check_opt_expr_keeps(a, expr);
            match (check_opt_expr(a, expr), check_opt_expr(b, expr)) {
                (Ok((s1, _)), Ok((t1, _))) => {
                    lemma_body_alike(s1, t1, body);
                },
                _ => {},
            }
        },
        StmtView::For { e1, e2, e3, body } => {
            let a = s.push("for"@);
            let b = t.push("for"@);
            lemma_push_wf(s, "for"@);
            lemma_push_alike(s, t, "for"@, "for"@);
            lemma_opt_stm_alike(a, b, e1);
            lemma_check_opt_stm_keeps(a, e1);
            match (check_opt_stm(a, e1), check_opt_stm(b, e1)) {
                (Ok((s1, _)), Ok((t1, _))) => {
                    lemma_opt_stm_alike(s1, t1, e2);
                    lemma_check_opt_stm_keeps(s1, e2);
                    match (check_opt_stm(s1, e2), check_opt_stm(t1, e2)) {
                        (Ok((s2, _)), Ok((t2, _))) => {
                            lemma_opt_stm_alike(s2, t2, e3);
                            lemma_check_opt_stm_keeps(s2, e3);
                            match (check_opt_stm(s2, e3), check_opt_stm(t2, e3)) {
                                (Ok((s3, _)), Ok((t3, _))) => {
                                    lemma_body_alike(s3, t3, body);
                                },
                                _ => {},
                            }
                        },
                        _ => {},
                    }
                },
                _ => {},
            }
        },
        StmtView::Expr { expr, .. } => {
            law_exprs_are_checked_alike(s, t, expr, Access::Value);
        },
        StmtView::Var { loc, name, tags, assign } => {
            if s.stack.len() > 0 {
                let tags1 = inserted(tags, "stack"@, Seq::empty(), loc);
                lemma_local_alike(s, t, None, pieces(name), loc, tags1);
                match assign {
                    Some(assign) => {
                        law_exprs_are_checked_alike(
                            s.local(None, pieces(name), loc, tags1),
                            t.local(None, pieces(name), loc, tags1),
                            assign,
                            Access::Value,
                        );
                    },
                    None => {},
                }
            }
        },
        StmtView::Assign { lhs, rhs, .. } => {
            law_exprs_are_checked_alike(s, t, rhs, Access::Value);
            match (check_expr(s, rhs, Access::Value), check_expr(t, rhs, Access::Value)) {
                (Ok(a), Ok(b)) => {
                    let r = ReportOf::InvalidRvalue { loc: expr_loc(a.expr) };
                    if a.value is Uninitialized {
                        law_exprs_are_checked_alike(
                            a.stack.report(r),
                            b.stack.report(r),
                            lhs,
                            Access::Storage,
                        );
                    } else {
                        law_exprs_are_checked_alike(a.stack, b.stack, lhs, Access::Storage);
                    }
                },
                _ => {},
            }
        },
        StmtView::Return { loc, expr } => {
            lemma_opt_expr_alike(s, t, expr);
            match (check_opt_expr(s, expr), check_opt_expr(t, expr)) {
                (Ok((s1, _)), Ok((t1, _))) => {
                    lemma_orphaned_alike(
                        StackView { must_move_before_ret: Seq::empty(), ..s1 },
                        StackView { must_move_before_ret: Seq::empty(), ..t1 },
                        s1.must_move_before_ret,
                        loc,
                        0,
                    );
                },
                _ => {},
            }
        },
        _ => {},
    }
}

proof fn lemma_opt_stm_alike(s: StackView, t: StackView, stm: Option<Box<StmtView>>)
    requires
        s.wf(),
        alike(s, t),
    ensures
        results_alike(check_opt_stm(s, stm), check_opt_stm(t, stm)),
    decreases stm, 0nat,
{
    match stm {
        Some(stm) => {
            law_stms_are_checked_alike(s, t, *stm);
        },
        None => {},
    }
}

proof fn lemma_blocks_alike(
    s: StackView,
    t: StackView,
    stms: Seq<StmtView>,
    i: nat,
    done: Seq<StmtView>,
)
    requires
        s.wf(),
        alike(s, t),
    ensures
        results_alike(check_block(s, stms, i, done), check_block(t, stms, i, done)),
    decreases stms, stms.len() - i,
{
    if i < stms.len() {
        law_stms_are_checked_alike(s, t, stms[i as int]);
        lemma_check_stm_keeps(s, stms[i as int]);
        match (check_stm(s, stms[i as int]), check_stm(t, stms[i as int])) {
            (Ok((s1, stm)), Ok((t1, _))) => {
                lemma_blocks_alike(s1, t1, stms, i + 1, done.push(stm));
            },
            _ => {},
        }
    }
}

/// A body in a scope that is open, up to the end of that scope.
proof fn lemma_body_alike(s: StackView, t: StackView, body: BlockView)
    requires
        s.wf(),
        s.stack.len() > 0,
        alike(s, t),
    ensures
        results_alike(
            check_block(s, body.statements, 0, Seq::empty()),
            check_block(t, body.statements, 0, Seq::empty()),
        ),
        match (
            check_block(s, body.statements, 0, Seq::empty()),
            check_block(t, body.statements, 0, Seq::empty()),
        ) {
            (Ok((s1, _)), Ok((t1, _))) => alike(s1.pop(body.end), t1.pop(body.end)),
            _ => true,
        },
    decreases body.statements, body.statements.len() + 1,
{
    lemma_blocks_alike(s, t, body.statements, 0, Seq::empty());
    lemma_check_block_keeps(s, body.statements, 0, Seq::empty());
    match (
        check_block(s, body.statements, 0, Seq::empty()),
        check_block(t, body.statements, 0, Seq::empty()),
    ) {
        (Ok((s1, _)), Ok((t1, _))) => {
            lemma_pop_alike(s1, t1, body.end);
        },
        _ => {},
    }
}

/// A body in a scope of its own, whatever the scope is called.
proof fn lemma_scope_alike(s: StackView, t: StackView, a: Text, b: Text, body: BlockView)
    requires
        s.wf(),
        alike(s, t),
    ensures
        results_alike(
            check_block(s.push(a), body.statements, 0, Seq::empty()),
            check_block(t.push(b), body.statements, 0, Seq::empty()),
        ),
        match (
            check_block(s.push(a), body.statements, 0, Seq::empty()),
            check_block(t.push(b), body.statements, 0, Seq::empty()),
        ) {
            (Ok((s1, _)), Ok((t1, _))) => alike(s1.pop(body.end), t1.pop(body.end)),
            _ => true,
        },
    decreases body.statements, body.statements.len() + 2,
{
    lemma_push_wf(s, a);
    lemma_push_alike(s, t, a, b);
    lemma_body_alike(s.push(a), t.push(b), body);
}

/// A body in a scope of its own leads to the same state whatever the scope is called.
proof fn lemma_scope_name_is_nothing(s: StackView, a: Text, b: Text, body: BlockView)
    requires
        s.wf(),
    ensures
        match (
            check_block(s.push(a), body.statements, 0, Seq::empty()),
            check_block(s.push(b), body.statements, 0, Seq::empty()),
        ) {
            (Ok((s1, x)), Ok((t1, y))) => s1.pop(body.end) == t1.pop(body.end) && x == y,
            (Err(x), Err(y)) => x == y,
            _ => false,
        },
{
    lemma_scope_alike(s, s, a, b, body);
    lemma_push_wf(s, a);
    lemma_push_wf(s, b);
    lemma_check_block_keeps(s.push(a), body.statements, 0, Seq::empty());
    lemma_check_block_keeps(s.push(b), body.statements, 0, Seq::empty());
    match (
        check_block(s.push(a), body.statements, 0, Seq::empty()),
        check_block(s.push(b), body.statements, 0, Seq::empty()),
    ) {
        (Ok((s1, _)), Ok((t1, _))) => {
            lemma_extends_scope(s, a, s1, body.end);
            lemma_extends_scope(s, b, t1, body.end);
        },
        _ => {},
    }
}

/// A block, a condition that is always taken, and a loop without a head lead to the same state
/// with the same body: what depends on a condition, and the body of a loop, are checked once, as
/// if they were always run.
pub proof fn law_block_condition_and_loop_agree(s: StackView, body: BlockView)
    requires
        s.wf(),
    ensures
        match check_block(s.push("block"@), body.statements, 0, Seq::empty()) {
            Ok((u, statements)) => {
                let t = u.pop(body.end);
                let out = BlockView { statements, ..body };
                &&& check_stm(s, StmtView::Block(body)) == Ok::<_, Stop>((t, StmtView::Block(out)))
                &&& check_stm(s, StmtView::Cond { expr: None, body }) == Ok::<_, Stop>(
                    (t, StmtView::Cond { expr: None, body: out }),
                )
                &&& check_stm(s, StmtView::For { e1: None, e2: None, e3: None, body }) == Ok::<
                    _,
                    Stop,
                >((t, StmtView::For { e1: None, e2: None, e3: None, body: out }))
            },
            Err(stop) => {
                &&& check_stm(s, StmtView::Block(body)) == Err::<(StackView, StmtView), Stop>(stop)
                &&& check_stm(s, StmtView::Cond { expr: None, body }) == Err::<
                    (StackView, StmtView),
                    Stop,
                >(stop)
                &&& check_stm(s, StmtView::For { e1: None, e2: None, e3: None, body }) == Err::<
                    (StackView, StmtView),
                    Stop,
                >(stop)
            },
        },
{
    lemma_scope_name_is_nothing(s, "block"@, "if"@, body);
    lemma_scope_name_is_nothing(s, "block"@, "for"@, body);
    assert(check_opt_stm(s.push("for"@), None) == Ok::<_, Stop>(
        (s.push("for"@), None::<Box<StmtView>>),
    ));
}

} // verus!
