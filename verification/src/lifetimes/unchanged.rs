//! What checking changes in a program: nothing, unless a function has arguments generated at the
//! callsite.

use vstd::prelude::*;
use crate::ast::{
    CNameView, DView, DefView, ExprView, LabeledView, LocalView, ModuleView, NamedArgView,
    PointerView, StmtView, TypedView, expr_loc,
};
use crate::lifetimes::frame::{
    lemma_check_block_keeps, lemma_check_call_arg_keeps, lemma_check_expr_keeps,
    lemma_check_level_keeps, lemma_check_local_keeps, lemma_check_opt_expr_keeps,
    lemma_check_stm_keeps, lemma_define_arg_keeps, lemma_define_arg_levels_keeps,
    lemma_define_args_keeps, lemma_define_c_names_keeps, lemma_define_return_keeps,
    lemma_define_static_keeps, lemma_extends_check_name, lemma_extends_local,
    lemma_extends_local_write, lemma_extends_report, lemma_extends_write,
};
use crate::lifetimes::rules::{
    ExprResult, Stop, behind_pointer, check_block, check_call, check_call_arg, check_call_args,
    check_elements, check_expr, check_items, check_labeled, check_level, check_levels,
    check_local, check_module, check_opt_expr, check_opt_stm, check_stm, check_unary, completed,
    copy_returned, count_mismatch, define_arg, define_arg_levels, define_args, define_c_names,
    define_return, define_static, height, heights, labeled_heights, lemma_heights,
    lemma_labeled_heights, marked, orphaned, pointed_to, return_name,
};
use crate::lifetimes::state::{
    Access, LifetimeView, StackView, StorageView, lemma_find_wf, lemma_points_below,
    lemma_push_wf, points_below,
};
use crate::location::Location;
use crate::name::{NameView, is_ext};
use crate::report::ReportOf;
use crate::tags::{TagsView, has_key, inserted};
use crate::text::{Text, decimal, pieces};

verus! {

/// Whether no argument is generated at the callsite.
pub open spec fn generates_nothing(params: Seq<NamedArgView>) -> bool {
    forall|i: int|
        0 <= i < params.len() ==> !has_key((#[trigger] params[i]).tags, "callsite_macro"@)
}

/// Whether calling a value generates no argument.
pub open spec fn plain_value(value: LifetimeView) -> bool
    decreases value,
{
    match value {
        LifetimeView::Function { ret, args, .. } => {
            &&& generates_nothing(args)
            &&& match ret {
                Some(ret) => plain_value(*ret),
                None => true,
            }
        },
        _ => true,
    }
}

/// Whether calling what is stored anywhere generates no argument.
pub open spec fn plain(pointers: Seq<StorageView>) -> bool {
    forall|p: int| 0 <= p < pointers.len() ==> plain_value((#[trigger] pointers[p]).value)
}

/// A state in which no call generates an argument.
pub open spec fn plain_state(s: StackView) -> bool {
    &&& s.wf()
    &&& plain(s.pointers)
}

/// Whether checking `e` left it as it was, and led to nothing that generates an argument.
pub open spec fn expr_unchanged(e: ExprView, out: Result<ExprResult, Stop>) -> bool {
    match out {
        Ok(r) => plain(r.stack.pointers) && plain_value(r.value) && r.expr == e,
        Err(_) => true,
    }
}

proof fn lemma_plain_read(s: StackView, p: nat, used_here: Location, access: Access)
    requires
        plain(s.pointers),
        p < s.pointers.len(),
    ensures
        s.read(p, used_here, access).0.pointers == s.pointers,
        plain_value(s.read(p, used_here, access).1),
{
    assert(plain_value(s.pointers[p as int].value));
}

proof fn lemma_plain_check_name(
    s: StackView,
    name: NameView,
    used_here: Location,
    access: Access,
)
    requires
        plain_state(s),
    ensures
        plain_state(s.check_name(name, used_here, access).0),
        plain_value(s.check_name(name, used_here, access).1),
{
    lemma_extends_check_name(s, name, used_here, access);
    lemma_find_wf(s, name);
    match s.find(name) {
        Some(p) => {
            lemma_plain_read(s, p, used_here, access);
        },
        None => {},
    }
}

proof fn lemma_plain_pop(s: StackView, end: Location)
    requires
        plain(s.pointers),
    ensures
        plain(s.pop(end).pointers),
{
    let t = s.pop(end);
    assert forall|p: int| 0 <= p < t.pointers.len() implies plain_value(
        (#[trigger] t.pointers[p]).value,
    ) by {
        assert(plain_value(s.pointers[p].value));
    }
}

proof fn lemma_plain_set_tags(s: StackView, to: nat, tags: TagsView)
    requires
        plain(s.pointers),
        to < s.pointers.len(),
    ensures
        plain(s.set_tags(to, tags).pointers),
{
    let t = s.set_tags(to, tags);
    assert forall|p: int| 0 <= p < t.pointers.len() implies plain_value(
        (#[trigger] t.pointers[p]).value,
    ) by {
        assert(t.pointers[p].value == s.pointers[p].value);
    }
}

proof fn lemma_plain_orphaned(s: StackView, owed: Seq<(nat, Location)>, loc: Location, i: nat)
    ensures
        orphaned(s, owed, loc, i).pointers == s.pointers,
    decreases owed.len() - i,
{
    if i < owed.len() {
        let (p, call_loc) = owed[i as int];
        if s.pointers[p as int].value is Moved {
            lemma_plain_orphaned(s, owed, loc, i + 1);
        } else {
            let r = ReportOf::Orphaned { call_loc, loc };
            lemma_plain_orphaned(s.report(r), owed, loc, i + 1);
        }
    }
}

proof fn lemma_completed_same(params: Seq<NamedArgView>, args: Seq<ExprView>, i: nat)
    requires
        generates_nothing(params),
    ensures
        completed(params, args, i) == args,
    decreases params.len() - i,
{
    if i < params.len() {
        lemma_completed_same(params, args, i + 1);
    }
}

proof fn lemma_plain_level(s: StackView, ptr: PointerView, callsite: Location, to: nat)
    requires
        plain_state(s),
        to < s.pointers.len(),
    ensures
        plain_state(check_level(s, ptr, callsite, to).0),
{
    lemma_check_level_keeps(s, ptr, callsite, to);
    let t = check_level(s, ptr, callsite, to).0;
    assert forall|p: int| 0 <= p < t.pointers.len() implies plain_value(
        (#[trigger] t.pointers[p]).value,
    ) by {
        assert(plain_value(s.pointers[p].value));
        if p != to {
            assert(t.pointers[p] == s.pointers[p]);
        } else {
            assert(t.pointers[p].value == s.pointers[p].value || t.pointers[p].value is Moved);
        }
    }
}

proof fn lemma_plain_levels(
    s: StackView,
    typed: TypedView,
    callsite: Location,
    at: nat,
    depth: nat,
)
    requires
        plain_state(s),
        at < s.pointers.len(),
    ensures
        plain(check_levels(s, typed, callsite, at, depth).pointers),
    decreases typed.ptr.len() - depth,
{
    if depth < typed.ptr.len() {
        match pointed_to(s.pointers[at as int], callsite, typed.loc, depth) {
            Err(_) => {},
            Ok(to) => {
                assert(points_below(s.pointers[at as int].value, s.pointers.len()));
                let ptr = typed.ptr[typed.ptr.len() - 1 - depth];
                lemma_plain_level(s, ptr, callsite, to);
                lemma_check_level_keeps(s, ptr, callsite, to);
                let (s1, deeper) = check_level(s, ptr, callsite, to);
                if deeper {
                    lemma_plain_levels(s1, typed, callsite, to, depth + 1);
                }
            },
        }
    }
}

proof fn lemma_plain_copy_returned(
    s: StackView,
    next: LifetimeView,
    site: LifetimeView,
    callee: NameView,
    loc: Location,
    fuel: nat,
)
    requires
        plain_state(s),
        plain_value(site),
        points_below(next, s.pointers.len()),
        points_below(site, s.pointers.len()),
    ensures
        copy_returned(s, next, site, callee, loc, fuel) matches Ok((t, value)) ==> plain(t.pointers)
            && plain_value(value),
    decreases fuel,
{
    match next {
        LifetimeView::Pointer(p) => {
            if s.stack.len() > 0 && fuel > 0 {
                let tags = s.pointers[p as int].tags;
                let made = s.pointers.len();
                let name = return_name(callee, loc);
                lemma_extends_local_write(s, None, name, loc, tags, site);
                let s1 = s.local(None, name, loc, tags).write(made, site, loc);
                let value = s.pointers[p as int].value;
                assert(points_below(value, s.pointers.len()));
                lemma_points_below(
                    value,
                    s.pointers.len(),
                    s1.pointers.len(),
                );
                lemma_plain_copy_returned(
                    s1,
                    value,
                    LifetimeView::Pointer(made),
                    callee,
                    loc,
                    (fuel - 1) as nat,
                );
            }
        },
        _ => {},
    }
}

/// Where no call generates an argument, checking an expression leaves it as it was.
pub proof fn law_expr_unchanged(s: StackView, e: ExprView, access: Access)
    requires
        plain_state(s),
    ensures
        expr_unchanged(e, check_expr(s, e, access)),
    decreases height(e), 0nat, 0nat,
{
    match e {
        ExprView::Name(name) => {
            lemma_plain_check_name(s, name.name, name.loc, access);
        },
        ExprView::MemberAccess { lhs, op, .. } => {
            let wanted = if op == "->"@ {
                Access::Value
            } else {
                access
            };
            law_expr_unchanged(s, *lhs, wanted);
        },
        ExprView::ArrayAccess { lhs, .. } => {
            law_expr_unchanged(s, *lhs, access);
        },
        ExprView::Literal { .. } => {},
        ExprView::Call { loc, name, args } => {
            lemma_call_unchanged(s, loc, name, args);
        },
        ExprView::InfixOperation { lhs, rhs, .. } => {
            lemma_labeled_unchanged(s, rhs, 0, Seq::empty(), true);
            match check_labeled(s, rhs, 0, Seq::empty(), true) {
                Ok(rs) => {
                    law_expr_unchanged(rs.stack, *lhs, Access::Value);
                },
                Err(_) => {},
            }
        },
        ExprView::Cast { expr, .. } => {
            law_expr_unchanged(s, *expr, access);
        },
        ExprView::UnaryPost { expr, .. } => {
            law_expr_unchanged(s, *expr, access);
        },
        ExprView::UnaryPre { loc, op, expr } => {
            lemma_unary_unchanged(s, loc, op, *expr, access);
        },
        ExprView::StructInit { fields, .. } => {
            lemma_labeled_unchanged(s, fields, 0, Seq::empty(), true);
        },
        ExprView::ArrayInit { fields, .. } => {
            lemma_elements_unchanged(s, fields, 0, Seq::empty(), true);
        },
    }
}

proof fn lemma_unary_unchanged(
    s: StackView,
    loc: Location,
    op: Text,
    expr: ExprView,
    access: Access,
)
    requires
        plain_state(s),
    ensures
        expr_unchanged(
            ExprView::UnaryPre { loc, op, expr: Box::new(expr) },
            check_unary(s, loc, op, expr, access),
        ),
    decreases height(expr), 4nat, 0nat,
{
    if op == "&"@ {
        law_expr_unchanged(s, expr, Access::Storage);
    } else if op == "*"@ {
        law_expr_unchanged(s, expr, Access::Value);
        lemma_check_expr_keeps(s, expr, Access::Value);
        match check_expr(s, expr, Access::Value) {
            Ok(r) => match r.value {
                LifetimeView::Uninitialized => {},
                LifetimeView::Pointer(to) => {
                    lemma_plain_read(r.stack, to, expr_loc(r.expr), access);
                },
                _ => {
                    law_expr_unchanged(r.stack, expr, Access::Storage);
                },
            },
            Err(_) => {},
        }
    }
}

proof fn lemma_call_unchanged(s: StackView, loc: Location, name: TypedView, args: Seq<ExprView>)
    requires
        plain_state(s),
    ensures
        expr_unchanged(ExprView::Call { loc, name, args }, check_call(s, loc, name, args)),
    decreases heights(args), 4nat, 0nat,
{
    if !is_ext(name.name) {
        lemma_extends_check_name(s, name.name, name.loc, Access::Value);
        lemma_plain_check_name(s, name.name, name.loc, Access::Value);
        let (s1, callee) = s.check_name(name.name, name.loc, Access::Value);
        match callee {
            LifetimeView::Function { ret, args: params, vararg } => {
                lemma_completed_same(params, args, 0);
                if !count_mismatch(params.len(), args.len(), vararg) {
                    lemma_call_args_unchanged(s1, params, args, 0, Seq::empty());
                    match check_call_args(s1, params, args, 0, Seq::empty()) {
                        Ok((s2, _)) => {
                            match ret {
                                Some(ret) => {
                                    lemma_points_below(
                                        *ret,
                                        s1.pointers.len(),
                                        s2.pointers.len(),
                                    );
                                    lemma_plain_copy_returned(
                                        s2,
                                        *ret,
                                        *ret,
                                        name.name,
                                        loc,
                                        s2.pointers.len(),
                                    );
                                },
                                None => {},
                            }
                        },
                        Err(_) => {},
                    }
                }
            },
            _ => {},
        }
    }
}

proof fn lemma_elements_unchanged(
    s: StackView,
    es: Seq<ExprView>,
    i: nat,
    done: Seq<ExprView>,
    all_static: bool,
)
    requires
        plain_state(s),
        i <= es.len(),
        done =~= es.take(i as int),
    ensures
        check_elements(s, es, i, done, all_static) matches Ok(rs) ==> plain(rs.stack.pointers)
            && rs.exprs == es,
    decreases heights(es), 2nat, es.len() - i,
{
    if i < es.len() {
        lemma_heights(es, i as int);
        law_expr_unchanged(s, es[i as int], Access::Value);
        lemma_check_expr_keeps(s, es[i as int], Access::Value);
        match check_expr(s, es[i as int], Access::Value) {
            Ok(r) => {
                assert(done.push(r.expr) =~= es.take((i + 1) as int));
                lemma_elements_unchanged(
                    r.stack,
                    es,
                    i + 1,
                    done.push(r.expr),
                    all_static && r.value is Static,
                );
            },
            Err(_) => {},
        }
    } else {
        assert(es.take(i as int) =~= es);
    }
}

proof fn lemma_labeled_unchanged(
    s: StackView,
    ls: Seq<LabeledView>,
    i: nat,
    done: Seq<LabeledView>,
    all_static: bool,
)
    requires
        plain_state(s),
        i <= ls.len(),
        done =~= ls.take(i as int),
    ensures
        check_labeled(s, ls, i, done, all_static) matches Ok(rs) ==> plain_state(rs.stack)
            && rs.exprs == ls,
    decreases labeled_heights(ls), 2nat, ls.len() - i,
{
    if i < ls.len() {
        lemma_labeled_heights(ls, i as int);
        law_expr_unchanged(s, ls[i as int].expr, Access::Value);
        lemma_check_expr_keeps(s, ls[i as int].expr, Access::Value);
        match check_expr(s, ls[i as int].expr, Access::Value) {
            Ok(r) => {
                let done1 = done.push(LabeledView { label: ls[i as int].label, expr: r.expr });
                assert(done1 =~= ls.take((i + 1) as int));
                lemma_labeled_unchanged(r.stack, ls, i + 1, done1, all_static && r.value is Static);
            },
            Err(_) => {},
        }
    } else {
        assert(ls.take(i as int) =~= ls);
    }
}

proof fn lemma_call_arg_unchanged(s: StackView, param: NamedArgView, arg: ExprView)
    requires
        plain_state(s),
    ensures
        check_call_arg(s, param, arg) matches Ok((t, e)) ==> plain(t.pointers) && e == arg,
    decreases height(arg), 2nat, 0nat,
{
    law_expr_unchanged(s, arg, Access::Value);
    lemma_check_expr_keeps(s, arg, Access::Value);
    match check_expr(s, arg, Access::Value) {
        Ok(r) => {
            law_expr_unchanged(r.stack, arg, Access::Storage);
            lemma_check_expr_keeps(r.stack, arg, Access::Storage);
            match check_expr(r.stack, arg, Access::Storage) {
                Ok(again) => match again.value {
                    LifetimeView::Pointer(p) => {
                        lemma_plain_levels(again.stack, param.typed, expr_loc(arg), p, 0);
                    },
                    _ => {},
                },
                Err(_) => {},
            }
        },
        Err(_) => {},
    }
}

proof fn lemma_call_args_unchanged(
    s: StackView,
    params: Seq<NamedArgView>,
    args: Seq<ExprView>,
    i: nat,
    done: Seq<ExprView>,
)
    requires
        plain_state(s),
        i <= args.len(),
        done =~= args.take(i as int),
    ensures
        check_call_args(s, params, args, i, done) matches Ok((t, es)) ==> plain_state(t) && es
            == args && s.pointers.len() <= t.pointers.len(),
    decreases heights(args), 3nat, params.len() - i,
{
    if i < params.len() && i < args.len() {
        lemma_heights(args, i as int);
        lemma_call_arg_unchanged(s, params[i as int], args[i as int]);
        lemma_check_call_arg_keeps(s, params[i as int], args[i as int]);
        match check_call_arg(s, params[i as int], args[i as int]) {
            Ok((s1, arg)) => {
                assert(done.push(arg) =~= args.take((i + 1) as int));
                lemma_call_args_unchanged(s1, params, args, i + 1, done.push(arg));
            },
            Err(_) => {},
        }
    } else {
        assert(args.take(i as int) + args.skip(i as int) =~= args);
    }
}

proof fn lemma_opt_expr_unchanged(s: StackView, e: Option<ExprView>)
    requires
        plain_state(s),
    ensures
        check_opt_expr(s, e) matches Ok((t, out)) ==> plain_state(t) && out == e,
{
    lemma_check_opt_expr_keeps(s, e);
    match e {
        Some(e) => {
            law_expr_unchanged(s, e, Access::Value);
        },
        None => {},
    }
}

/// Where no call generates an argument, checking a statement leaves it as it was.
pub proof fn law_stm_unchanged(s: StackView, stm: StmtView)
    requires
        plain_state(s),
    ensures
        check_stm(s, stm) matches Ok((t, out)) ==> plain_state(t) && out == stm,
    decreases stm, 0nat,
{
    lemma_check_stm_keeps(s, stm);
    match stm {
        StmtView::Mark { loc, lhs, key, value } => {
            law_expr_unchanged(s, lhs, Access::Storage);
            lemma_check_expr_keeps(s, lhs, Access::Storage);
            match check_expr(s, lhs, Access::Storage) {
                Ok(r) => match r.value {
                    LifetimeView::Pointer(to) => {
                        let tags = marked(r.stack.pointers[to as int].tags, key, value, loc);
                        lemma_plain_set_tags(r.stack, to, tags);
                    },
                    _ => {},
                },
                Err(_) => {},
            }
        },
        StmtView::Block(block) => {
            let s0 = s.push("block"@);
            lemma_push_wf(s, "block"@);
            lemma_block_unchanged(s0, block.statements, 0, Seq::empty());
            match check_block(s0, block.statements, 0, Seq::empty()) {
                Ok((t, _)) => {
                    lemma_plain_pop(t, block.end);
                },
                Err(_) => {},
            }
        },
        StmtView::Cond { expr, body } => {
            let s0 = s.push("if"@);
            lemma_push_wf(s, "if"@);
            lemma_opt_expr_unchanged(s0, expr);
            match check_opt_expr(s0, expr) {
                Ok((s1, _)) => {
                    lemma_block_unchanged(s1, body.statements, 0, Seq::empty());
                    match check_block(s1, body.statements, 0, Seq::empty()) {
                        Ok((t, _)) => {
                            lemma_plain_pop(t, body.end);
                        },
                        Err(_) => {},
                    }
                },
                Err(_) => {},
            }
        },
        StmtView::For { e1, e2, e3, body } => {
            let s0 = s.push("for"@);
            lemma_push_wf(s, "for"@);
            lemma_opt_stm_unchanged(s0, e1);
            match check_opt_stm(s0, e1) {
                Ok((s1, _)) => {
                    lemma_opt_stm_unchanged(s1, e2);
                    match check_opt_stm(s1, e2) {
                        Ok((s2, _)) => {
                            lemma_opt_stm_unchanged(s2, e3);
                            match check_opt_stm(s2, e3) {
                                Ok((s3, _)) => {
                                    lemma_block_unchanged(s3, body.statements, 0, Seq::empty());
                                    match check_block(s3, body.statements, 0, Seq::empty()) {
                                        Ok((t, _)) => {
                                            lemma_plain_pop(t, body.end);
                                        },
                                        Err(_) => {},
                                    }
                                },
                                Err(_) => {},
                            }
                        },
                        Err(_) => {},
                    }
                },
                Err(_) => {},
            }
        },
        StmtView::Expr { expr, .. } => {
            law_expr_unchanged(s, expr, Access::Value);
        },
        StmtView::Var { loc, name, tags, assign } => {
            let tags1 = inserted(tags, "stack"@, Seq::empty(), loc);
            let s1 = s.local(None, pieces(name), loc, tags1);
            if s.stack.len() > 0 {
                lemma_extends_local(s, None, pieces(name), loc, tags1);
            }
            match assign {
                Some(assign) if s.stack.len() > 0 => {
                    law_expr_unchanged(s1, assign, Access::Value);
                    lemma_check_expr_keeps(s1, assign, Access::Value);
                },
                _ => {},
            }
        },
        StmtView::Assign { lhs, rhs, .. } => {
            law_expr_unchanged(s, rhs, Access::Value);
            lemma_check_expr_keeps(s, rhs, Access::Value);
            match check_expr(s, rhs, Access::Value) {
                Ok(from) => {
                    let report = ReportOf::InvalidRvalue {
                        loc: expr_loc(from.expr),
                    };
                    lemma_extends_report(from.stack, report);
                    let s1 = if from.value is Uninitialized {
                        from.stack.report(report)
                    } else {
                        from.stack
                    };
                    law_expr_unchanged(s1, lhs, Access::Storage);
                    lemma_check_expr_keeps(s1, lhs, Access::Storage);
                },
                Err(_) => {},
            }
        },
        StmtView::Return { loc, expr } => {
            lemma_opt_expr_unchanged(s, expr);
            match check_opt_expr(s, expr) {
                Ok((s1, _)) => {
                    lemma_plain_orphaned(
                        StackView { must_move_before_ret: Seq::empty(), ..s1 },
                        s1.must_move_before_ret,
                        loc,
                        0,
                    );
                },
                Err(_) => {},
            }
        },
        _ => {},
    }
}

proof fn lemma_opt_stm_unchanged(s: StackView, stm: Option<Box<StmtView>>)
    requires
        plain_state(s),
    ensures
        check_opt_stm(s, stm) matches Ok((t, out)) ==> plain_state(t) && out == stm,
    decreases stm, 0nat,
{
    match stm {
        Some(stm) => {
            law_stm_unchanged(s, *stm);
        },
        None => {},
    }
}

proof fn lemma_block_unchanged(s: StackView, stms: Seq<StmtView>, i: nat, done: Seq<StmtView>)
    requires
        plain_state(s),
        i <= stms.len(),
        done =~= stms.take(i as int),
    ensures
        check_block(s, stms, i, done) matches Ok((t, out)) ==> plain_state(t) && out == stms,
    decreases stms, stms.len() - i,
{
    if i < stms.len() {
        law_stm_unchanged(s, stms[i as int]);
        match check_stm(s, stms[i as int]) {
            Ok((s1, stm)) => {
                assert(done.push(stm) =~= stms.take((i + 1) as int));
                lemma_block_unchanged(s1, stms, i + 1, done.push(stm));
            },
            Err(_) => {},
        }
    } else {
        assert(stms.take(i as int) =~= stms);
    }
}

proof fn lemma_plain_c_names(s: StackView, names: Seq<CNameView>, i: nat)
    requires
        plain_state(s),
        s.stack.len() > 0,
    ensures
        plain_state(define_c_names(s, names, i)),
    decreases names.len() - i,
{
    if i < names.len() {
        let c = names[i as int];
        lemma_define_static_keeps(s, None, c.name, c.loc, Seq::empty());
        lemma_plain_c_names(define_static(s, None, c.name, c.loc, Seq::empty()), names, i + 1);
    }
}

proof fn lemma_plain_return(
    s: StackView,
    function: Text,
    typed: TypedView,
    i: nat,
    inner: LifetimeView,
)
    requires
        plain_state(s),
        s.stack.len() > 0,
        plain_value(inner),
        points_below(inner, s.pointers.len()),
    ensures
        plain_state(define_return(s, function, typed, i, inner).0),
        plain_value(define_return(s, function, typed, i, inner).1),
    decreases typed.ptr.len() - i,
{
    if i < typed.ptr.len() {
        let made = s.pointers.len();
        let name = pieces("return value of "@ + function);
        let tags = behind_pointer(typed.ptr[i as int].tags, typed.loc);
        lemma_extends_local_write(s, Some(typed), name, typed.loc, tags, inner);
        let s1 = s.local(Some(typed), name, typed.loc, tags).write(made, inner, typed.loc);
        let s2 = StackView { current_return_ptr: Some(made), ..s1 };
        lemma_plain_return(s2, function, typed, i + 1, LifetimeView::Pointer(made));
    }
}

proof fn lemma_plain_arg_levels(s: StackView, arg: NamedArgView, at: nat, depth: nat)
    requires
        plain_state(s),
        s.stack.len() > 0,
        at < s.pointers.len(),
    ensures
        plain_state(define_arg_levels(s, arg, at, depth).0),
    decreases arg.typed.ptr.len() - depth,
{
    if depth < arg.typed.ptr.len() {
        let ptr = arg.typed.ptr[arg.typed.ptr.len() - 1 - depth];
        let made = s.pointers.len();
        let name = pieces("__builtin::pointer_to_callsite::"@ + decimal(at));
        let tags = behind_pointer(ptr.tags, arg.loc);
        let s1 = s.local(Some(arg.typed), name, arg.loc, tags);
        lemma_extends_local(s, Some(arg.typed), name, arg.loc, tags);
        lemma_extends_write(s1, at, LifetimeView::Pointer(made), arg.loc);
        lemma_plain_arg_levels(
            s1.write(at, LifetimeView::Pointer(made), arg.loc),
            arg,
            made,
            depth + 1,
        );
    }
}

proof fn lemma_plain_args(s: StackView, args: Seq<NamedArgView>, i: nat)
    requires
        plain_state(s),
        s.stack.len() > 0,
    ensures
        plain_state(define_args(s, args, i)),
    decreases args.len() - i,
{
    if i < args.len() {
        let arg = args[i as int];
        let s0 = s.local(Some(arg.typed), pieces(arg.name), arg.loc, arg.tags);
        lemma_extends_local(s, Some(arg.typed), pieces(arg.name), arg.loc, arg.tags);
        lemma_plain_arg_levels(s0, arg, s.pointers.len(), 0);
        lemma_define_arg_levels_keeps(s0, arg, s.pointers.len(), 0);
        lemma_define_arg_keeps(s, arg);
        lemma_plain_args(define_arg(s, arg), args, i + 1);
    }
}

/// Whether a definition is no function that has arguments generated at the callsite.
pub open spec fn plain_local(local: LocalView) -> bool {
    match local.def {
        DefView::Function { args, .. } => generates_nothing(args),
        _ => true,
    }
}

/// Whether no function of a module has arguments generated at the callsite.
pub open spec fn plain_items(ds: Seq<DView>) -> bool {
    forall|i: int|
        0 <= i < ds.len() ==> match #[trigger] ds[i] {
            DView::Include(_) => true,
            DView::Local(local) => plain_local(local),
        }
}

proof fn lemma_local_unchanged(s: StackView, local: LocalView)
    requires
        plain_state(s),
        s.stack.len() > 0,
        plain_local(local),
    ensures
        check_local(s, local) matches Ok((t, out)) ==> plain_state(t) && out == local,
{
    lemma_check_local_keeps(s, local);
    match local.def {
        DefView::Function { ret, args, vararg, body } => {
            let function = s.pointers.len();
            let s1 = s.local(None, pieces(local.name), local.loc, Seq::empty());
            lemma_extends_local(s, None, pieces(local.name), local.loc, Seq::empty());
            let (s2, ret_value) = match ret {
                Some(typed) => {
                    let (s2, value) = define_return(s1, local.name, typed, 0, LifetimeView::Static);
                    (s2, Some(Box::new(value)))
                },
                None => (s1, None),
            };
            if ret is Some {
                lemma_plain_return(s1, local.name, ret->Some_0, 0, LifetimeView::Static);
                lemma_define_return_keeps(s1, local.name, ret->Some_0, 0, LifetimeView::Static);
            }
            lemma_push_wf(s2, local.name);
            lemma_plain_args(s2.push(local.name), args, 0);
            lemma_define_args_keeps(s2.push(local.name), args, 0);
            let s3 = define_args(s2.push(local.name), args, 0);
            lemma_block_unchanged(s3, body.statements, 0, Seq::empty());
            lemma_check_block_keeps(s3, body.statements, 0, Seq::empty());
            match check_block(s3, body.statements, 0, Seq::empty()) {
                Ok((s4, _)) => {
                    let value = LifetimeView::Function { ret: ret_value, args, vararg };
                    lemma_plain_pop(s4.write(function, value, local.loc), body.end);
                },
                Err(_) => {},
            }
        },
        _ => {},
    }
}

proof fn lemma_items_unchanged(s: StackView, ds: Seq<DView>, i: nat, done: Seq<DView>)
    requires
        plain_state(s),
        s.stack.len() > 0,
        i <= ds.len(),
        done =~= ds.take(i as int),
        plain_items(ds),
    ensures
        check_items(s, ds, i, done) matches Ok((_, out)) ==> out == ds,
    decreases ds.len() - i,
{
    if i < ds.len() {
        match ds[i as int] {
            DView::Include(_) => {
                assert(done.push(ds[i as int]) =~= ds.take((i + 1) as int));
                lemma_items_unchanged(s, ds, i + 1, done.push(ds[i as int]));
            },
            DView::Local(local) => {
                lemma_local_unchanged(s, local);
                lemma_check_local_keeps(s, local);
                match check_local(s, local) {
                    Ok((s1, out)) => {
                        let done1 = done.push(DView::Local(out));
                        assert(done1 =~= ds.take((i + 1) as int));
                        lemma_items_unchanged(s1, ds, i + 1, done1);
                    },
                    Err(_) => {},
                }
            },
        }
    } else {
        assert(ds.take(i as int) =~= ds);
    }
}

/// Checking a module in which no function has arguments generated at the callsite changes
/// nothing of it.
pub proof fn law_module_unchanged(md: ModuleView)
    requires
        plain_items(md.d),
    ensures
        check_module(md) matches Ok((_, out)) ==> out == md,
{
    let s = StackView::empty().push("static"@);
    lemma_plain_c_names(s, md.c_names, 0);
    lemma_define_c_names_keeps(s, md.c_names, 0);
    lemma_items_unchanged(define_c_names(s, md.c_names, 0), md.d, 0, Seq::empty());
}

} // verus!
