//! What checking an expression may change, and what becomes of what a block declares.

use vstd::prelude::*;
use crate::ast::{
    BlockView, ExprView, LabeledView, NamedArgView, PointerView, StmtView, TypedView, expr_loc,
};
use crate::lifetimes::frame::{
    frame, lemma_check_block_keeps, lemma_check_call_arg_keeps, lemma_check_expr_keeps,
    lemma_check_level_keeps, lemma_check_stm_keeps, lemma_extends_check_name, lemma_extends_local,
    lemma_extends_report,
};
use crate::lifetimes::laws::law_no_name_escapes;
use crate::lifetimes::rules::{
    check_block, check_call, check_call_arg, check_call_args, check_elements, check_expr,
    check_labeled, check_level, check_levels, check_opt_expr, check_stm, check_unary, cleaned,
    completed, copy_returned, count_mismatch, height, heights, labeled_heights,
    lemma_completed_heights, lemma_heights, lemma_labeled_heights, orphaned, pointed_to,
    return_name, tainted, temporary_name,
};
use crate::lifetimes::state::{
    Access, LifetimeView, ScopeView, StackView, StorageView, binds, lemma_push_wf, points_below,
};
use crate::lifetimes::steps::law_blocks_concatenate;
use crate::location::Location;
use crate::name::{NameView, is_ext};
use crate::report::{ReportOf, ReportView};
use crate::tags::{TagView, TagsView, has_value, inserted, lemma_filter_twice, removed, values};
use crate::text::{Text, pieces};

verus! {

/// Whether storage is called like what an address that is taken, or a call, makes.
pub open spec fn is_temporary(name: NameView) -> bool {
    ||| exists|loc: Location| name == #[trigger] temporary_name(loc)
    ||| exists|callee: NameView, loc: Location| name == #[trigger] return_name(callee, loc)
}

/// What checking an expression may do to storage: give its value away, and change its taints.
pub open spec fn storage_effect(before: StorageView, after: StorageView) -> bool {
    &&& after.name == before.name
    &&& after.typ == before.typ
    &&& after.stored_here == before.stored_here
    &&& after.changed_here == before.changed_here
    &&& after.value == before.value || after.value is Moved
    &&& removed(after.tags, "tainted"@) == removed(before.tags, "tainted"@)
}

/// Whether two scopes bind a name to the same storage, or both do not bind it.
pub open spec fn same_binding(a: ScopeView, b: ScopeView, name: NameView) -> bool {
    &&& a.locals.contains_key(name) == b.locals.contains_key(name)
    &&& a.locals.contains_key(name) ==> a.locals[name] == b.locals[name]
}

/// What checking an expression may change of a state: it makes storage, gives values away,
/// changes taints and reports. The names that it binds are those of temporaries, in the innermost
/// scope.
#[verifier::opaque]
pub open spec fn expr_effect(s: StackView, t: StackView) -> bool {
    &&& s.pointers.len() <= t.pointers.len()
    &&& forall|p: int|
        0 <= p < s.pointers.len() ==> storage_effect(s.pointers[p], #[trigger] t.pointers[p])
    &&& t.stack.len() == s.stack.len()
    &&& forall|i: int| 0 <= i < s.stack.len() - 1 ==> #[trigger] t.stack[i] == s.stack[i]
    &&& s.stack.len() > 0 ==> forall|name: NameView|
        !is_temporary(name) ==> #[trigger] same_binding(s.stack.last(), t.stack.last(), name)
    &&& t.current_return_ptr == s.current_return_ptr
    &&& t.must_move_before_ret == s.must_move_before_ret
    &&& s.reports.len() <= t.reports.len()
    &&& t.reports.take(s.reports.len() as int) == s.reports
}

/// Doing nothing is among the effects of an expression.
pub proof fn lemma_effect_self(s: StackView)
    ensures
        expr_effect(s, s),
{
    reveal(expr_effect);
    assert(s.reports.take(s.reports.len() as int) =~= s.reports);
}

/// One effect of an expression after another is one too.
pub proof fn lemma_effect_twice(s: StackView, t: StackView, u: StackView)
    requires
        expr_effect(s, t),
        expr_effect(t, u),
    ensures
        expr_effect(s, u),
{
    reveal(expr_effect);
    assert forall|p: int| 0 <= p < s.pointers.len() implies storage_effect(
        s.pointers[p],
        #[trigger] u.pointers[p],
    ) by {
        assert(storage_effect(t.pointers[p], u.pointers[p]));
        assert(storage_effect(s.pointers[p], t.pointers[p]));
    }
    assert forall|i: int| 0 <= i < s.stack.len() - 1 implies #[trigger] u.stack[i]
        == s.stack[i] by {
        assert(u.stack[i] == t.stack[i]);
        assert(t.stack[i] == s.stack[i]);
    }
    assert forall|name: NameView|
        s.stack.len() > 0 && !is_temporary(name) implies #[trigger] same_binding(
        s.stack.last(),
        u.stack.last(),
        name,
    ) by {
        assert(same_binding(s.stack.last(), t.stack.last(), name));
        assert(same_binding(t.stack.last(), u.stack.last(), name));
    }
    assert(u.reports.take(s.reports.len() as int) =~= s.reports) by {
        assert forall|i: int| 0 <= i < s.reports.len() implies u.reports[i] == s.reports[i] by {
            assert(u.reports.take(t.reports.len() as int)[i] == t.reports[i]);
            assert(t.reports.take(s.reports.len() as int)[i] == s.reports[i]);
        }
    }
}

/// A report is among the effects of an expression.
pub proof fn lemma_effect_report(s: StackView, r: ReportView)
    ensures
        expr_effect(s, s.report(r)),
{
    reveal(expr_effect);
    assert(s.report(r).reports.take(s.reports.len() as int) =~= s.reports);
}

proof fn lemma_effect_read(s: StackView, p: nat, used_here: Location, access: Access)
    ensures
        expr_effect(s, s.read(p, used_here, access).0),
{
    lemma_effect_self(s);
    let t = s.read(p, used_here, access).0;
    if t != s {
        lemma_effect_report(s, t.reports.last());
        assert(t == s.report(t.reports.last()));
    }
}

/// A read of a name has the effects of an expression.
pub proof fn lemma_effect_check_name(
    s: StackView,
    name: NameView,
    used_here: Location,
    access: Access,
)
    ensures
        expr_effect(s, s.check_name(name, used_here, access).0),
{
    match s.find(name) {
        None => {
            lemma_effect_report(s, ReportOf::UndefinedName { name, used_here });
        },
        Some(p) => {
            lemma_effect_read(s, p, used_here, access);
        },
    }
}

proof fn lemma_effect_temporary(
    s: StackView,
    name: NameView,
    loc: Location,
    tags: TagsView,
    value: LifetimeView,
)
    requires
        s.stack.len() > 0,
        is_temporary(name),
    ensures
        expr_effect(s, s.local(None, name, loc, tags).write(s.pointers.len(), value, loc)),
{
    reveal(expr_effect);
    assert(s.reports.take(s.reports.len() as int) =~= s.reports);
}

/// Tags that differ in one key only are the same without it.
proof fn lemma_removed_same(a: TagsView, b: TagsView, key: Text)
    requires
        a.len() == b.len(),
        forall|i: int|
            0 <= i < a.len() ==> #[trigger] a[i] == b[i] || (a[i].key == key && b[i].key == key),
    ensures
        removed(a, key) == removed(b, key),
    decreases a.len(),
{
    reveal(Seq::filter);
    if a.len() > 0 {
        let n = a.len() - 1;
        assert(a[n] == b[n] || (a[n].key == key && b[n].key == key));
        let c = a.drop_last();
        let d = b.drop_last();
        assert forall|i: int| 0 <= i < n implies #[trigger] c[i] == d[i] || (c[i].key == key
            && d[i].key == key) by {
            assert(a[i] == b[i] || (a[i].key == key && b[i].key == key));
        }
        lemma_removed_same(a.drop_last(), b.drop_last(), key);
    }
}

proof fn lemma_removed_inserted(tags: TagsView, key: Text, value: Text, loc: Location)
    ensures
        removed(inserted(tags, key, value, loc), key) == removed(tags, key),
{
    if has_value(tags, key, value) {
        lemma_removed_same(inserted(tags, key, value, loc), tags, key);
    } else {
        tags.lemma_filter_push(TagView { key, value, loc }, |t: TagView| t.key != key);
    }
}

proof fn lemma_removed_tainted(tags: TagsView, taints: TagsView, callsite: Location, i: nat)
    ensures
        removed(tainted(tags, taints, callsite, i), "tainted"@) == removed(tags, "tainted"@),
    decreases taints.len() - i,
{
    if i < taints.len() {
        let v = taints[i as int].value;
        lemma_removed_inserted(tags, "tainted"@, v, callsite);
        lemma_removed_tainted(inserted(tags, "tainted"@, v, callsite), taints, callsite, i + 1);
    }
}

proof fn lemma_removed_cleaned(tags: TagsView, known: TagsView)
    ensures
        removed(cleaned(tags, known), "tainted"@) == removed(tags, "tainted"@),
{
    let stays = |t: TagView| !(t.key == "tainted"@ && has_value(known, "untaint"@, t.value));
    let other = |t: TagView| t.key != "tainted"@;
    lemma_filter_twice(tags, stays, other, other);
}

proof fn lemma_effect_level(s: StackView, ptr: PointerView, callsite: Location, to: nat)
    requires
        to < s.pointers.len(),
    ensures
        expr_effect(s, check_level(s, ptr, callsite, to).0),
{
    reveal(expr_effect);
    let site = s.pointers[to as int];
    let clean = cleaned(site.tags, ptr.tags);
    let taints = values(ptr.tags, "taint"@);
    lemma_removed_cleaned(site.tags, ptr.tags);
    lemma_removed_tainted(clean, taints, callsite, 0);
    let t = check_level(s, ptr, callsite, to).0;
    assert(t.reports.take(s.reports.len() as int) =~= s.reports);
    assert(t.stack == s.stack);
    assert forall|p: int| 0 <= p < s.pointers.len() implies storage_effect(
        s.pointers[p],
        #[trigger] t.pointers[p],
    ) by {
        if p != to {
            assert(t.pointers[p] == s.pointers[p]);
        }
    }
}

proof fn lemma_effect_levels(
    s: StackView,
    typed: TypedView,
    callsite: Location,
    at: nat,
    depth: nat,
)
    requires
        s.wf(),
        at < s.pointers.len(),
    ensures
        expr_effect(s, check_levels(s, typed, callsite, at, depth)),
    decreases typed.ptr.len() - depth,
{
    lemma_effect_self(s);
    if depth < typed.ptr.len() {
        match pointed_to(s.pointers[at as int], callsite, typed.loc, depth) {
            Err(r) => {
                lemma_effect_report(s, r);
            },
            Ok(to) => {
                assert(points_below(s.pointers[at as int].value, s.pointers.len()));
                let ptr = typed.ptr[typed.ptr.len() - 1 - depth];
                lemma_effect_level(s, ptr, callsite, to);
                lemma_check_level_keeps(s, ptr, callsite, to);
                let (s1, deeper) = check_level(s, ptr, callsite, to);
                if deeper {
                    lemma_effect_levels(s1, typed, callsite, to, depth + 1);
                    lemma_effect_twice(
                        s,
                        s1,
                        check_levels(s1, typed, callsite, to, depth + 1),
                    );
                }
            },
        }
    }
}

proof fn lemma_effect_copy_returned(
    s: StackView,
    next: LifetimeView,
    site: LifetimeView,
    callee: NameView,
    loc: Location,
    fuel: nat,
)
    ensures
        copy_returned(s, next, site, callee, loc, fuel) matches Ok((t, _)) ==> expr_effect(s, t),
    decreases fuel,
{
    lemma_effect_self(s);
    match next {
        LifetimeView::Pointer(p) => {
            if s.stack.len() > 0 && fuel > 0 {
                let tags = s.pointers[p as int].tags;
                let made = s.pointers.len();
                let name = return_name(callee, loc);
                lemma_effect_temporary(s, name, loc, tags, site);
                let s1 = s.local(None, name, loc, tags).write(made, site, loc);
                let value = s.pointers[p as int].value;
                let here = LifetimeView::Pointer(made);
                lemma_effect_copy_returned(s1, value, here, callee, loc, (fuel - 1) as nat);
                match copy_returned(s1, value, here, callee, loc, (fuel - 1) as nat) {
                    Ok((t, _)) => {
                        lemma_effect_twice(s, s1, t);
                    },
                    Err(_) => {},
                }
            }
        },
        _ => {},
    }
}

/// Checking an expression makes storage, gives values away, changes taints and reports, and does
/// nothing else. Storage that is there keeps its name, its type, its place, when it was last
/// assigned to, and its other tags; outer scopes stay as they are.
pub proof fn law_expr_effect(s: StackView, e: ExprView, access: Access)
    requires
        s.wf(),
    ensures
        check_expr(s, e, access) matches Ok(r) ==> expr_effect(s, r.stack),
    decreases height(e), 0nat, 0nat,
{
    lemma_effect_self(s);
    match e {
        ExprView::Name(name) => {
            lemma_effect_check_name(s, name.name, name.loc, access);
        },
        ExprView::MemberAccess { lhs, op, .. } => {
            let wanted = if op == "->"@ {
                Access::Value
            } else {
                access
            };
            law_expr_effect(s, *lhs, wanted);
        },
        ExprView::ArrayAccess { lhs, .. } => {
            law_expr_effect(s, *lhs, access);
        },
        ExprView::Literal { loc, .. } => {
            lemma_effect_report(s, ReportOf::LiteralStorage { loc });
        },
        ExprView::Call { loc, name, args } => {
            lemma_effect_call(s, loc, name, args);
        },
        ExprView::InfixOperation { loc, lhs, rhs } => {
            lemma_effect_report(s, ReportOf::InfixStorage { loc });
            lemma_effect_labeled(s, rhs, 0, Seq::empty(), true);
            match check_labeled(s, rhs, 0, Seq::empty(), true) {
                Ok(rs) => {
                    law_expr_effect(rs.stack, *lhs, Access::Value);
                    match check_expr(rs.stack, *lhs, Access::Value) {
                        Ok(r) => {
                            lemma_effect_twice(s, rs.stack, r.stack);
                        },
                        Err(_) => {},
                    }
                },
                Err(_) => {},
            }
        },
        ExprView::Cast { expr, .. } => {
            law_expr_effect(s, *expr, access);
        },
        ExprView::UnaryPost { expr, .. } => {
            law_expr_effect(s, *expr, access);
        },
        ExprView::UnaryPre { loc, op, expr } => {
            lemma_effect_unary(s, loc, op, *expr, access);
        },
        ExprView::StructInit { fields, .. } => {
            lemma_effect_labeled(s, fields, 0, Seq::empty(), true);
        },
        ExprView::ArrayInit { fields, .. } => {
            lemma_effect_elements(s, fields, 0, Seq::empty(), true);
        },
    }
}

proof fn lemma_effect_unary(
    s: StackView,
    loc: Location,
    op: Text,
    expr: ExprView,
    access: Access,
)
    requires
        s.wf(),
    ensures
        check_unary(s, loc, op, expr, access) matches Ok(r) ==> expr_effect(s, r.stack),
    decreases height(expr), 4nat, 0nat,
{
    lemma_effect_self(s);
    if op == "&"@ {
        law_expr_effect(s, expr, Access::Storage);
        match check_expr(s, expr, Access::Storage) {
            Ok(r) => {
                if r.stack.stack.len() > 0 {
                    let here = expr_loc(r.expr);
                    let temp = r.stack.pointers.len();
                    let name = temporary_name(here);
                    lemma_effect_temporary(r.stack, name, here, Seq::empty(), r.value);
                    lemma_effect_twice(
                        s,
                        r.stack,
                        r.stack.local(None, name, here, Seq::empty()).write(temp, r.value, here),
                    );
                }
            },
            Err(_) => {},
        }
    } else if op == "*"@ {
        law_expr_effect(s, expr, Access::Value);
        lemma_check_expr_keeps(s, expr, Access::Value);
        match check_expr(s, expr, Access::Value) {
            Ok(r) => match r.value {
                LifetimeView::Uninitialized => {},
                LifetimeView::Pointer(to) => {
                    lemma_effect_read(r.stack, to, expr_loc(r.expr), access);
                    lemma_effect_twice(
                        s,
                        r.stack,
                        r.stack.read(to, expr_loc(r.expr), access).0,
                    );
                },
                _ => {
                    law_expr_effect(r.stack, r.expr, Access::Storage);
                    match check_expr(r.stack, r.expr, Access::Storage) {
                        Ok(again) => match again.value {
                            LifetimeView::Pointer(p) => {
                                let report = ReportOf::BadDereference {
                                    loc: expr_loc(again.expr),
                                    changed_here: again.stack.pointers[p as int].changed_here,
                                };
                                lemma_effect_report(again.stack, report);
                                lemma_effect_twice(s, r.stack, again.stack);
                                lemma_effect_twice(s, again.stack, again.stack.report(report));
                            },
                            _ => {},
                        },
                        Err(_) => {},
                    }
                },
            },
            Err(_) => {},
        }
    }
}

proof fn lemma_effect_call(s: StackView, loc: Location, name: TypedView, args: Seq<ExprView>)
    requires
        s.wf(),
    ensures
        check_call(s, loc, name, args) matches Ok(r) ==> expr_effect(s, r.stack),
    decreases heights(args), 4nat, 0nat,
{
    lemma_effect_self(s);
    if !is_ext(name.name) {
        lemma_effect_check_name(s, name.name, name.loc, Access::Value);
        lemma_extends_check_name(s, name.name, name.loc, Access::Value);
        let (s1, callee) = s.check_name(name.name, name.loc, Access::Value);
        match callee {
            LifetimeView::Function { ret, args: params, vararg } => {
                let full = completed(params, args, 0);
                lemma_completed_heights(params, args, 0);
                if count_mismatch(params.len(), full.len(), vararg) {
                    let report = ReportOf::ArgumentCount {
                        loc: name.loc,
                        expected: params.len(),
                        passed: full.len(),
                    };
                    lemma_effect_report(s1, report);
                    lemma_effect_twice(s, s1, s1.report(report));
                } else {
                    lemma_effect_call_args(s1, params, full, 0, Seq::empty());
                    match check_call_args(s1, params, full, 0, Seq::empty()) {
                        Ok((s2, _)) => {
                            lemma_effect_twice(s, s1, s2);
                            match ret {
                                Some(ret) => {
                                    let fuel = s2.pointers.len();
                                    lemma_effect_copy_returned(
                                        s2,
                                        *ret,
                                        *ret,
                                        name.name,
                                        loc,
                                        fuel,
                                    );
                                    match copy_returned(s2, *ret, *ret, name.name, loc, fuel) {
                                        Ok((t, _)) => {
                                            lemma_effect_twice(s, s2, t);
                                        },
                                        Err(_) => {},
                                    }
                                },
                                None => {},
                            }
                        },
                        Err(_) => {},
                    }
                }
            },
            _ => {
                let report = ReportOf::NotAFunction { loc: name.loc };
                lemma_effect_report(s1, report);
                lemma_effect_twice(s, s1, s1.report(report));
            },
        }
    }
}

proof fn lemma_effect_elements(
    s: StackView,
    es: Seq<ExprView>,
    i: nat,
    done: Seq<ExprView>,
    all_static: bool,
)
    requires
        s.wf(),
    ensures
        check_elements(s, es, i, done, all_static) matches Ok(rs) ==> expr_effect(s, rs.stack),
    decreases heights(es), 2nat, es.len() - i,
{
    lemma_effect_self(s);
    if i < es.len() {
        lemma_heights(es, i as int);
        law_expr_effect(s, es[i as int], Access::Value);
        lemma_check_expr_keeps(s, es[i as int], Access::Value);
        match check_expr(s, es[i as int], Access::Value) {
            Ok(r) => {
                let done1 = done.push(r.expr);
                let all_static1 = all_static && r.value is Static;
                lemma_effect_elements(r.stack, es, i + 1, done1, all_static1);
                match check_elements(r.stack, es, i + 1, done1, all_static1) {
                    Ok(rs) => {
                        lemma_effect_twice(s, r.stack, rs.stack);
                    },
                    Err(_) => {},
                }
            },
            Err(_) => {},
        }
    }
}

/// Labeled expressions have the effects of an expression.
pub proof fn lemma_effect_labeled(
    s: StackView,
    ls: Seq<LabeledView>,
    i: nat,
    done: Seq<LabeledView>,
    all_static: bool,
)
    requires
        s.wf(),
    ensures
        check_labeled(s, ls, i, done, all_static) matches Ok(rs) ==> expr_effect(s, rs.stack)
            && rs.stack.wf(),
    decreases labeled_heights(ls), 2nat, ls.len() - i,
{
    lemma_effect_self(s);
    if i < ls.len() {
        lemma_labeled_heights(ls, i as int);
        law_expr_effect(s, ls[i as int].expr, Access::Value);
        lemma_check_expr_keeps(s, ls[i as int].expr, Access::Value);
        match check_expr(s, ls[i as int].expr, Access::Value) {
            Ok(r) => {
                let done1 = done.push(LabeledView { label: ls[i as int].label, expr: r.expr });
                let all_static1 = all_static && r.value is Static;
                lemma_effect_labeled(r.stack, ls, i + 1, done1, all_static1);
                match check_labeled(r.stack, ls, i + 1, done1, all_static1) {
                    Ok(rs) => {
                        lemma_effect_twice(s, r.stack, rs.stack);
                    },
                    Err(_) => {},
                }
            },
            Err(_) => {},
        }
    }
}

/// An argument has the effects of an expression.
pub proof fn lemma_effect_call_arg(s: StackView, param: NamedArgView, arg: ExprView)
    requires
        s.wf(),
    ensures
        check_call_arg(s, param, arg) matches Ok((t, _)) ==> expr_effect(s, t),
    decreases height(arg), 2nat, 0nat,
{
    law_expr_effect(s, arg, Access::Value);
    lemma_check_expr_keeps(s, arg, Access::Value);
    match check_expr(s, arg, Access::Value) {
        Ok(r) => {
            law_expr_effect(r.stack, r.expr, Access::Storage);
            lemma_check_expr_keeps(r.stack, r.expr, Access::Storage);
            match check_expr(r.stack, r.expr, Access::Storage) {
                Ok(again) => {
                    lemma_effect_twice(s, r.stack, again.stack);
                    match again.value {
                        LifetimeView::Pointer(p) => {
                            let callsite = expr_loc(again.expr);
                            lemma_effect_levels(again.stack, param.typed, callsite, p, 0);
                            lemma_effect_twice(
                                s,
                                again.stack,
                                check_levels(again.stack, param.typed, callsite, p, 0),
                            );
                        },
                        _ => {},
                    }
                },
                Err(_) => {},
            }
        },
        Err(_) => {},
    }
}

proof fn lemma_effect_call_args(
    s: StackView,
    params: Seq<NamedArgView>,
    args: Seq<ExprView>,
    i: nat,
    done: Seq<ExprView>,
)
    requires
        s.wf(),
    ensures
        check_call_args(s, params, args, i, done) matches Ok((t, _)) ==> expr_effect(s, t),
    decreases heights(args), 3nat, params.len() - i,
{
    lemma_effect_self(s);
    if i < params.len() && i < args.len() {
        lemma_heights(args, i as int);
        lemma_effect_call_arg(s, params[i as int], args[i as int]);
        lemma_check_call_arg_keeps(s, params[i as int], args[i as int]);
        match check_call_arg(s, params[i as int], args[i as int]) {
            Ok((s1, arg)) => {
                lemma_effect_call_args(s1, params, args, i + 1, done.push(arg));
                match check_call_args(s1, params, args, i + 1, done.push(arg)) {
                    Ok((t, _)) => {
                        lemma_effect_twice(s, s1, t);
                    },
                    Err(_) => {},
                }
            },
            Err(_) => {},
        }
    }
}

/// Whether a statement declares a variable of that name.
pub open spec fn declares(stm: StmtView, name: NameView) -> bool {
    stm matches StmtView::Var { name: n, .. } && pieces(n) == name
}

proof fn lemma_effect_binding(s: StackView, t: StackView, name: NameView)
    requires
        expr_effect(s, t),
        s.stack.len() > 0,
        !is_temporary(name),
    ensures
        same_binding(s.stack.last(), t.stack.last(), name),
{
    reveal(expr_effect);
}

proof fn lemma_orphaned_scopes(s: StackView, owed: Seq<(nat, Location)>, loc: Location, i: nat)
    ensures
        orphaned(s, owed, loc, i).stack == s.stack,
    decreases owed.len() - i,
{
    if i < owed.len() {
        let (p, call_loc) = owed[i as int];
        if s.pointers[p as int].value is Moved {
            lemma_orphaned_scopes(s, owed, loc, i + 1);
        } else {
            lemma_orphaned_scopes(s.report(ReportOf::Orphaned { call_loc, loc }), owed, loc, i + 1);
        }
    }
}

/// A statement binds, in the scope that it stands in, the name that it declares and names of
/// temporaries.
pub proof fn law_stm_binds_what_it_declares(s: StackView, stm: StmtView, name: NameView)
    requires
        s.wf(),
        s.stack.len() > 0,
        !is_temporary(name),
        !declares(stm, name),
    ensures
        check_stm(s, stm) matches Ok((t, _)) ==> same_binding(s.stack.last(), t.stack.last(), name),
{
    match stm {
        StmtView::Mark { lhs, .. } => {
            law_expr_effect(s, lhs, Access::Storage);
            match check_expr(s, lhs, Access::Storage) {
                Ok(r) => {
                    lemma_effect_binding(s, r.stack, name);
                },
                Err(_) => {},
            }
        },
        StmtView::Block(_) | StmtView::Cond { .. } | StmtView::For { .. } => {
            law_no_name_escapes(s, stm);
        },
        StmtView::Expr { expr, .. } => {
            law_expr_effect(s, expr, Access::Value);
            match check_expr(s, expr, Access::Value) {
                Ok(r) => {
                    lemma_effect_binding(s, r.stack, name);
                },
                Err(_) => {},
            }
        },
        StmtView::Var { loc, name: n, tags, assign } => {
            let tags1 = inserted(tags, "stack"@, Seq::empty(), loc);
            let s1 = s.local(None, pieces(n), loc, tags1);
            lemma_extends_local(s, None, pieces(n), loc, tags1);
            assert(same_binding(s.stack.last(), s1.stack.last(), name));
            match assign {
                Some(assign) => {
                    law_expr_effect(s1, assign, Access::Value);
                    match check_expr(s1, assign, Access::Value) {
                        Ok(r) => {
                            lemma_effect_binding(s1, r.stack, name);
                        },
                        Err(_) => {},
                    }
                },
                None => {},
            }
        },
        StmtView::Assign { lhs, rhs, .. } => {
            law_expr_effect(s, rhs, Access::Value);
            lemma_check_expr_keeps(s, rhs, Access::Value);
            match check_expr(s, rhs, Access::Value) {
                Ok(from) => {
                    let report = ReportOf::InvalidRvalue { loc: expr_loc(from.expr) };
                    lemma_effect_binding(s, from.stack, name);
                    lemma_extends_report(from.stack, report);
                    let s1 = if from.value is Uninitialized {
                        from.stack.report(report)
                    } else {
                        from.stack
                    };
                    law_expr_effect(s1, lhs, Access::Storage);
                    match check_expr(s1, lhs, Access::Storage) {
                        Ok(to) => {
                            lemma_effect_binding(s1, to.stack, name);
                        },
                        Err(_) => {},
                    }
                },
                Err(_) => {},
            }
        },
        StmtView::Return { loc, expr } => {
            match expr {
                Some(expr) => {
                    law_expr_effect(s, expr, Access::Value);
                    match check_expr(s, expr, Access::Value) {
                        Ok(r) => {
                            lemma_effect_binding(s, r.stack, name);
                        },
                        Err(_) => {},
                    }
                },
                None => {},
            }
            match check_opt_expr(s, expr) {
                Ok((s1, _)) => {
                    lemma_orphaned_scopes(
                        StackView { must_move_before_ret: Seq::empty(), ..s1 },
                        s1.must_move_before_ret,
                        loc,
                        0,
                    );
                },
                Err(_) => {},
            }
        },
        _ => {},
    }
}

proof fn lemma_block_binding(
    s: StackView,
    stms: Seq<StmtView>,
    i: nat,
    done: Seq<StmtView>,
    name: NameView,
)
    requires
        s.wf(),
        s.stack.len() > 0,
        !is_temporary(name),
        forall|j: int| i <= j < stms.len() ==> !declares(#[trigger] stms[j], name),
    ensures
        check_block(s, stms, i, done) matches Ok((t, _)) ==> same_binding(
            s.stack.last(),
            t.stack.last(),
            name,
        ),
    decreases stms.len() - i,
{
    if i < stms.len() {
        law_stm_binds_what_it_declares(s, stms[i as int], name);
        lemma_check_stm_keeps(s, stms[i as int]);
        match check_stm(s, stms[i as int]) {
            Ok((s1, stm)) => {
                lemma_block_binding(s1, stms, i + 1, done.push(stm), name);
            },
            Err(_) => {},
        }
    }
}

/// A variable that the statement of number `i` declares stays bound up to the end of its scope,
/// and what its name is bound to there was made in that scope. The last declaration of a name is
/// the one that counts: its storage stands where the statement does. The names of temporaries are
/// left out of that, because a temporary may take the name over.
pub proof fn law_declarations_stay_bound(s: StackView, stms: Seq<StmtView>, i: nat)
    requires
        s.wf(),
        s.stack.len() > 0,
        i < stms.len(),
        stms[i as int] is Var,
    ensures
        check_block(s, stms, 0, Seq::empty()) matches Ok((u, _)) ==> {
            let name = pieces(stms[i as int]->Var_name);
            &&& u.stack.len() == s.stack.len()
            &&& u.stack.last().locals.contains_key(name)
            &&& u.find(name) == Some(u.stack.last().locals[name])
            &&& check_block(s, stms.take(i as int), 0, Seq::empty()) is Ok
            &&& !is_temporary(name) && (forall|j: int|
                i < j < stms.len() ==> !declares(#[trigger] stms[j], name)) ==> {
                let p = check_block(s, stms.take(i as int), 0, Seq::empty())->Ok_0.0.pointers.len();
                &&& u.stack.last().locals[name] == p
                &&& u.pointers[p as int].name == name
                &&& u.pointers[p as int].stored_here == stms[i as int]->Var_loc
            }
        },
{
    let front = stms.take(i as int);
    let rest = stms.skip(i as int);
    assert(front + rest =~= stms);
    law_blocks_concatenate(s, front, rest);
    lemma_check_block_keeps(s, front, 0, Seq::empty());
    match check_block(s, front, 0, Seq::empty()) {
        Ok((v, _)) => {
            assert(rest[0] == stms[i as int]);
            lemma_check_stm_keeps(v, rest[0]);
            match check_stm(v, rest[0]) {
                Ok((w, out)) => {
                    lemma_var_is_bound(v, rest[0]);
                    let one = Seq::<StmtView>::empty().push(out);
                    lemma_check_block_keeps(w, rest, 1, one);
                    let name = pieces(stms[i as int]->Var_name);
                    match check_block(w, rest, 1, one) {
                        Ok((u, _)) => {
                            reveal(frame);
                            if !is_temporary(name) && (forall|j: int|
                                i < j < stms.len() ==> !declares(#[trigger] stms[j], name)) {
                                assert forall|j: int| 1 <= j < rest.len() implies !declares(
                                    #[trigger] rest[j],
                                    name,
                                ) by {
                                    assert(rest[j] == stms[i + j]);
                                }
                                lemma_block_binding(w, rest, 1, one, name);
                                let p = v.pointers.len() as int;
                                assert(u.pointers[p].name == w.pointers[p].name);
                            }
                        },
                        Err(_) => {},
                    }
                },
                Err(_) => {},
            }
        },
        Err(_) => {},
    }
}

proof fn lemma_var_is_bound(v: StackView, stm: StmtView)
    requires
        v.wf(),
        v.stack.len() > 0,
        stm is Var,
    ensures
        check_stm(v, stm) matches Ok((w, _)) ==> {
            let name = pieces(stm->Var_name);
            let p = v.pointers.len();
            &&& w.stack.len() == v.stack.len()
            &&& p < w.pointers.len()
            &&& w.stack.last().locals.contains_key(name)
            &&& !is_temporary(name) ==> w.stack.last().locals[name] == p
            &&& w.pointers[p as int].name == name
            &&& w.pointers[p as int].stored_here == stm->Var_loc
        },
{
    match stm {
        StmtView::Var { loc, name, tags, assign } => {
            let tags1 = inserted(tags, "stack"@, Seq::empty(), loc);
            let s1 = v.local(None, pieces(name), loc, tags1);
            lemma_extends_local(v, None, pieces(name), loc, tags1);
            match assign {
                Some(assign) => {
                    law_expr_effect(s1, assign, Access::Value);
                    lemma_check_expr_keeps(s1, assign, Access::Value);
                    match check_expr(s1, assign, Access::Value) {
                        Ok(r) => {
                            reveal(frame);
                            let p = v.pointers.len() as int;
                            assert(r.stack.pointers[p].name == s1.pointers[p].name);
                            assert(s1.stack.last().locals.contains_key(pieces(name)));
                            if !is_temporary(pieces(name)) {
                                lemma_effect_binding(s1, r.stack, pieces(name));
                            }
                        },
                        Err(_) => {},
                    }
                },
                None => {},
            }
        },
        _ => {},
    }
}

/// What a block declares is dropped at its end: whatever a variable of the block is bound to
/// there, and so the storage of the last declaration of each name, is marked as dropped, with the
/// place that it was declared in and the end of the block.
pub proof fn law_block_drops_what_it_declares(s: StackView, body: BlockView, i: nat)
    requires
        s.wf(),
        i < body.statements.len(),
        body.statements[i as int] is Var,
    ensures
        check_stm(s, StmtView::Block(body)) matches Ok((t, _)) ==> {
            let s0 = s.push("block"@);
            let stms = body.statements;
            let name = pieces(stms[i as int]->Var_name);
            &&& t.stack == s.stack
            &&& check_block(s0, stms, 0, Seq::empty()) matches Ok((u, _)) && {
                let p = u.stack.last().locals[name] as int;
                &&& u.stack.last().locals.contains_key(name)
                &&& s.pointers.len() <= p < t.pointers.len()
                &&& t.pointers[p].value == LifetimeView::Dropped {
                    stored_here: t.pointers[p].stored_here,
                    dropped_here: body.end,
                }
            }
            &&& check_block(s0, stms.take(i as int), 0, Seq::empty()) matches Ok((v, _)) && (
            !is_temporary(name) && (forall|j: int|
                i < j < stms.len() ==> !declares(#[trigger] stms[j], name)) ==> {
                let p = v.pointers.len() as int;
                &&& t.pointers[p].name == name
                &&& t.pointers[p].stored_here == stms[i as int]->Var_loc
                &&& t.pointers[p].value == LifetimeView::Dropped {
                    stored_here: stms[i as int]->Var_loc,
                    dropped_here: body.end,
                }
            })
        },
{
    let s0 = s.push("block"@);
    let stms = body.statements;
    let name = pieces(stms[i as int]->Var_name);
    lemma_push_wf(s, "block"@);
    law_no_name_escapes(s, StmtView::Block(body));
    law_declarations_stay_bound(s0, stms, i);
    lemma_check_block_keeps(s0, stms, 0, Seq::empty());
    match check_block(s0, stms, 0, Seq::empty()) {
        Ok((u, _)) => {
            let p = u.stack.last().locals[name];
            assert(u.stack[u.stack.len() - 1].locals.contains_key(name));
            assert(binds(u.stack.last().locals, p));
            assert(s.pointers.len() <= p) by {
                reveal(frame);
            }
        },
        Err(_) => {},
    }
}

} // verus!
