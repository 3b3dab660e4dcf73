//! What checking leaves alone: storage keeps its number, its name and its place, outer scopes
//! keep their bindings, and what was reported stays reported.

use vstd::prelude::*;
use crate::ast::{
    CNameView, DView, DefView, ExprView, LabeledView, LocalView, NamedArgView, PointerView,
    StmtView, TypedView, expr_loc,
};
use crate::lifetimes::rules::{
    ExprResult, Stop, assigned, behind_pointer, check_block, check_call, check_call_arg,
    check_call_args, check_elements, check_expr, check_expr_again, check_items, check_labeled,
    check_level, check_levels, check_local, check_opt_expr, check_opt_stm, check_stm, check_unary,
    cleaned, completed, copy_returned, count_mismatch, define_arg, define_arg_levels, define_args,
    define_c_names, define_return, define_static, height, heights, labeled_heights, left,
    lemma_completed_heights, lemma_heights, lemma_labeled_heights, marked, orphaned, pointed_to,
    return_name, returned, tainted, temporary_name,
};
use crate::lifetimes::state::{
    Access, LifetimeView, StackView, StorageView, lemma_check_name_wf, lemma_local_wf,
    lemma_points_below, lemma_pop_wf, lemma_push_wf, lemma_read_wf, lemma_update_wf, points_below,
};
use crate::location::Location;
use crate::name::{NameView, is_ext};
use crate::report::{ReportOf, ReportView};
use crate::tags::{TagsView, inserted, values};
use crate::text::{Text, decimal, pieces};

verus! {

/// What stays the same from `s` to `t`, where `t` is what checking something in the innermost
/// scope of `s` leads to.
#[verifier::opaque]
pub open spec fn frame(s: StackView, t: StackView) -> bool {
    // Storage keeps its name, its type and its place.
    &&& forall|p: int|
        0 <= p < s.pointers.len() ==> {
            &&& (#[trigger] t.pointers[p]).name == s.pointers[p].name
            &&& t.pointers[p].typ == s.pointers[p].typ
            &&& t.pointers[p].stored_here == s.pointers[p].stored_here
        }
    // What was reported stays reported.
    &&& s.reports.len() <= t.reports.len()
    &&& t.reports.take(s.reports.len() as int) == s.reports
    // Outer scopes stay as they are.
    &&& forall|i: int| 0 <= i < s.stack.len() - 1 ==> #[trigger] t.stack[i] == s.stack[i]
    // A name of the innermost scope stays bound, to what it was bound to or to new storage.
    &&& s.stack.len() > 0 ==> {
        &&& t.stack.last().name == s.stack.last().name
        &&& forall|name: NameView| #[trigger]
            s.stack.last().locals.contains_key(name) ==> t.stack.last().locals.contains_key(name)
        &&& forall|name: NameView| #[trigger]
            t.stack.last().locals.contains_key(name) ==> {
                ||| t.stack.last().locals[name] >= s.pointers.len()
                ||| s.stack.last().locals.contains_key(name) && t.stack.last().locals[name]
                    == s.stack.last().locals[name]
            }
    }
    // Nothing becomes owed.
    &&& t.must_move_before_ret == s.must_move_before_ret || t.must_move_before_ret.len() == 0
}

/// `t` is a well formed state that checking something in the innermost scope of `s` may lead to.
pub open spec fn extends(s: StackView, t: StackView) -> bool {
    &&& t.wf()
    &&& t.stack.len() == s.stack.len()
    &&& s.pointers.len() <= t.pointers.len()
    &&& frame(s, t)
}

/// Doing nothing extends a state.
pub proof fn lemma_extends_self(s: StackView)
    requires
        s.wf(),
    ensures
        extends(s, s),
{
    reveal(frame);
    assert(s.reports.take(s.reports.len() as int) =~= s.reports);
}

/// Extending twice is extending.
pub proof fn lemma_extends_twice(s: StackView, t: StackView, u: StackView)
    requires
        extends(s, t),
        extends(t, u),
    ensures
        extends(s, u),
{
    reveal(frame);
    assert forall|p: int| 0 <= p < s.pointers.len() implies {
        &&& (#[trigger] u.pointers[p]).name == s.pointers[p].name
        &&& u.pointers[p].typ == s.pointers[p].typ
        &&& u.pointers[p].stored_here == s.pointers[p].stored_here
    } by {
        assert(u.pointers[p].name == t.pointers[p].name);
        assert(t.pointers[p].name == s.pointers[p].name);
    }
    assert(u.reports.take(s.reports.len() as int) =~= s.reports) by {
        assert forall|i: int| 0 <= i < s.reports.len() implies u.reports[i] == s.reports[i] by {
            assert(u.reports.take(t.reports.len() as int)[i] == t.reports[i]);
            assert(t.reports.take(s.reports.len() as int)[i] == s.reports[i]);
        }
    }
    assert forall|i: int| 0 <= i < s.stack.len() - 1 implies #[trigger] u.stack[i]
        == s.stack[i] by {
        assert(u.stack[i] == t.stack[i]);
        assert(t.stack[i] == s.stack[i]);
    }
    assert forall|name: NameView| s.stack.len() > 0 && #[trigger]
        s.stack.last().locals.contains_key(name) implies u.stack.last().locals.contains_key(
        name,
    ) by {
        assert(t.stack.last().locals.contains_key(name));
    }
    assert forall|name: NameView|
        s.stack.len() > 0 && #[trigger] u.stack.last().locals.contains_key(name) implies {
        ||| u.stack.last().locals[name] >= s.pointers.len()
        ||| s.stack.last().locals.contains_key(name) && u.stack.last().locals[name]
            == s.stack.last().locals[name]
    } by {
        if u.stack.last().locals[name] < t.pointers.len() {
            assert(t.stack.last().locals.contains_key(name));
        }
    }
}

/// Reporting extends a state.
pub proof fn lemma_extends_report(s: StackView, r: ReportView)
    requires
        s.wf(),
    ensures
        extends(s, s.report(r)),
{
    reveal(frame);
    assert(s.report(r).reports.take(s.reports.len() as int) =~= s.reports);
}

/// Making storage extends a state.
pub proof fn lemma_extends_local(
    s: StackView,
    typ: Option<TypedView>,
    name: NameView,
    loc: Location,
    tags: TagsView,
)
    requires
        s.wf(),
        s.stack.len() > 0,
    ensures
        extends(s, s.local(typ, name, loc, tags)),
{
    reveal(frame);
    lemma_local_wf(s, typ, name, loc, tags);
    assert(s.reports.take(s.reports.len() as int) =~= s.reports);
}

/// Changing what is in one storage location, or its tags, extends a state.
pub proof fn lemma_extends_update(s: StackView, p: nat, storage: StorageView)
    requires
        s.wf(),
        p < s.pointers.len(),
        storage.name == s.pointers[p as int].name,
        storage.typ == s.pointers[p as int].typ,
        storage.stored_here == s.pointers[p as int].stored_here,
        points_below(storage.value, s.pointers.len()),
    ensures
        extends(s, StackView { pointers: s.pointers.update(p as int, storage), ..s }),
{
    reveal(frame);
    lemma_update_wf(s, p, storage);
    assert(s.reports.take(s.reports.len() as int) =~= s.reports);
}

/// Storing a value extends a state.
pub proof fn lemma_extends_write(s: StackView, p: nat, value: LifetimeView, used_here: Location)
    requires
        s.wf(),
        p < s.pointers.len(),
        points_below(value, s.pointers.len()),
    ensures
        extends(s, s.write(p, value, used_here)),
{
    let storage = StorageView {
        value,
        changed_here: Some(used_here),
        ..s.pointers[p as int]
    };
    lemma_extends_update(s, p, storage);
}

/// Changing tags extends a state.
pub proof fn lemma_extends_set_tags(s: StackView, p: nat, tags: TagsView)
    requires
        s.wf(),
        p < s.pointers.len(),
    ensures
        extends(s, s.set_tags(p, tags)),
{
    assert(points_below(s.pointers[p as int].value, s.pointers.len()));
    lemma_extends_update(s, p, StorageView { tags, ..s.pointers[p as int] });
}

/// Giving a value away extends a state.
pub proof fn lemma_extends_give_away(s: StackView, p: nat, moved_here: Location)
    requires
        s.wf(),
        p < s.pointers.len(),
    ensures
        extends(s, s.give_away(p, moved_here)),
{
    let storage = StorageView {
        value: LifetimeView::Moved { moved_here },
        ..s.pointers[p as int]
    };
    lemma_extends_update(s, p, storage);
}

/// Making storage and storing a value in it extends a state.
pub proof fn lemma_extends_local_write(
    s: StackView,
    typ: Option<TypedView>,
    name: NameView,
    loc: Location,
    tags: TagsView,
    value: LifetimeView,
)
    requires
        s.wf(),
        s.stack.len() > 0,
        points_below(value, s.pointers.len()),
    ensures
        extends(s, s.local(typ, name, loc, tags).write(s.pointers.len(), value, loc)),
{
    let t = s.local(typ, name, loc, tags);
    lemma_extends_local(s, typ, name, loc, tags);
    lemma_points_below(value, s.pointers.len(), t.pointers.len());
    lemma_extends_write(t, s.pointers.len(), value, loc);
    lemma_extends_twice(s, t, t.write(s.pointers.len(), value, loc));
}

/// A read extends a state.
pub proof fn lemma_extends_read(s: StackView, p: nat, used_here: Location, access: Access)
    requires
        s.wf(),
        p < s.pointers.len(),
    ensures
        extends(s, s.read(p, used_here, access).0),
        points_below(
            s.read(p, used_here, access).1,
            s.read(p, used_here, access).0.pointers.len(),
        ),
{
    reveal(frame);
    lemma_read_wf(s, p, used_here, access);
    let t = s.read(p, used_here, access).0;
    assert(t.reports.take(s.reports.len() as int) =~= s.reports);
}

/// A read of a name extends a state.
pub proof fn lemma_extends_check_name(
    s: StackView,
    name: NameView,
    used_here: Location,
    access: Access,
)
    requires
        s.wf(),
    ensures
        extends(s, s.check_name(name, used_here, access).0),
        points_below(
            s.check_name(name, used_here, access).1,
            s.check_name(name, used_here, access).0.pointers.len(),
        ),
{
    reveal(frame);
    lemma_check_name_wf(s, name, used_here, access);
    let t = s.check_name(name, used_here, access).0;
    assert(t.reports.take(s.reports.len() as int) =~= s.reports);
}

/// What checking an expression may lead to: an extended state, an expression in the same place
/// that is as high as it was, and a value that points to storage that exists.
pub open spec fn expr_keeps(s: StackView, e: ExprView, out: Result<ExprResult, Stop>) -> bool {
    match out {
        Ok(r) => {
            &&& extends(s, r.stack)
            &&& height(r.expr) == height(e)
            &&& expr_loc(r.expr) == expr_loc(e)
            &&& points_below(r.value, r.stack.pointers.len())
        },
        Err(_) => true,
    }
}

/// Expressions that are as high, one by one, are as high together.
pub proof fn lemma_same_heights(a: Seq<ExprView>, b: Seq<ExprView>)
    requires
        a.len() == b.len(),
        forall|i: int| 0 <= i < a.len() ==> height(#[trigger] a[i]) == height(b[i]),
    ensures
        heights(a) == heights(b),
    decreases a.len(),
{
    if a.len() > 0 {
        lemma_same_heights(a.drop_last(), b.drop_last());
        assert(height(a[a.len() - 1]) == height(b[b.len() - 1]));
    }
}

/// Labeled expressions that are as high, one by one, are as high together.
pub proof fn lemma_same_labeled_heights(a: Seq<LabeledView>, b: Seq<LabeledView>)
    requires
        a.len() == b.len(),
        forall|i: int| 0 <= i < a.len() ==> height((#[trigger] a[i]).expr) == height(b[i].expr),
    ensures
        labeled_heights(a) == labeled_heights(b),
    decreases a.len(),
{
    if a.len() > 0 {
        lemma_same_labeled_heights(a.drop_last(), b.drop_last());
        assert(height(a[a.len() - 1].expr) == height(b[b.len() - 1].expr));
    }
}

/// Checking one pointer of a parameter extends the state.
pub proof fn lemma_check_level_keeps(s: StackView, ptr: PointerView, callsite: Location, to: nat)
    requires
        s.wf(),
        to < s.pointers.len(),
    ensures
        extends(s, check_level(s, ptr, callsite, to).0),
        check_level(s, ptr, callsite, to).0.pointers.len() == s.pointers.len(),
{
    let site = s.pointers[to as int];
    let clean = cleaned(site.tags, ptr.tags);
    let taints = values(ptr.tags, "taint"@);
    let marked = tainted(clean, taints, callsite, 0);
    let s1 = s.set_tags(to, clean);
    let s2 = s.set_tags(to, marked);
    lemma_extends_set_tags(s, to, clean);
    lemma_extends_set_tags(s, to, marked);
    let t = check_level(s, ptr, callsite, to).0;
    if t.reports.len() > s.reports.len() {
        let r = t.reports.last();
        lemma_extends_report(s, r);
        lemma_extends_report(s1, r);
        lemma_extends_report(s2, r);
        lemma_extends_twice(s, s1, s1.report(r));
        lemma_extends_twice(s, s2, s2.report(r));
        assert(t == s.report(r) || t == s1.report(r) || t == s2.report(r));
    } else {
        lemma_extends_give_away(s2, to, callsite);
        lemma_extends_twice(s, s2, s2.give_away(to, callsite));
        assert(t == s2 || t == s2.give_away(to, callsite));
    }
}

/// Checking the pointers of a parameter extends the state.
pub proof fn lemma_check_levels_keeps(
    s: StackView,
    typed: TypedView,
    callsite: Location,
    at: nat,
    depth: nat,
)
    requires
        s.wf(),
        at < s.pointers.len(),
    ensures
        extends(s, check_levels(s, typed, callsite, at, depth)),
        check_levels(s, typed, callsite, at, depth).pointers.len() == s.pointers.len(),
    decreases typed.ptr.len() - depth,
{
    lemma_extends_self(s);
    if depth < typed.ptr.len() {
        match pointed_to(s.pointers[at as int], callsite, typed.loc, depth) {
            Err(r) => {
                lemma_extends_report(s, r);
            },
            Ok(to) => {
                assert(points_below(s.pointers[at as int].value, s.pointers.len()));
                let ptr = typed.ptr[typed.ptr.len() - 1 - depth];
                lemma_check_level_keeps(s, ptr, callsite, to);
                let (s1, deeper) = check_level(s, ptr, callsite, to);
                if deeper {
                    lemma_check_levels_keeps(s1, typed, callsite, to, depth + 1);
                    lemma_extends_twice(
                        s,
                        s1,
                        check_levels(s1, typed, callsite, to, depth + 1),
                    );
                }
            },
        }
    }
}

/// Making storage for what a call returns extends the state.
pub proof fn lemma_copy_returned_keeps(
    s: StackView,
    next: LifetimeView,
    site: LifetimeView,
    callee: NameView,
    loc: Location,
    fuel: nat,
)
    requires
        s.wf(),
        points_below(next, s.pointers.len()),
        points_below(site, s.pointers.len()),
    ensures
        copy_returned(s, next, site, callee, loc, fuel) matches Ok((t, value)) ==> extends(s, t)
            && points_below(value, t.pointers.len()),
    decreases fuel,
{
    lemma_extends_self(s);
    match next {
        LifetimeView::Pointer(p) => {
            if s.stack.len() > 0 && fuel > 0 {
                let tags = s.pointers[p as int].tags;
                let made = s.pointers.len();
                let name = return_name(callee, loc);
                lemma_extends_local_write(s, None, name, loc, tags, site);
                let s1 = s.local(None, name, loc, tags).write(made, site, loc);
                let value = s.pointers[p as int].value;
                assert(points_below(value, s.pointers.len()));
                lemma_points_below(value, s.pointers.len(), s1.pointers.len());
                lemma_copy_returned_keeps(
                    s1,
                    value,
                    LifetimeView::Pointer(made),
                    callee,
                    loc,
                    (fuel - 1) as nat,
                );
                match copy_returned(
                    s1,
                    value,
                    LifetimeView::Pointer(made),
                    callee,
                    loc,
                    (fuel - 1) as nat,
                ) {
                    Ok((t, _)) => {
                        lemma_extends_twice(s, s1, t);
                    },
                    Err(_) => {},
                }
            }
        },
        _ => {},
    }
}

/// Checking an expression extends the state, and leaves the expression where it was and as high
/// as it was.
pub proof fn lemma_check_expr_keeps(s: StackView, e: ExprView, access: Access)
    requires
        s.wf(),
    ensures
        expr_keeps(s, e, check_expr(s, e, access)),
    decreases height(e), 0nat, 0nat,
{
    lemma_extends_self(s);
    match e {
        ExprView::Name(name) => {
            lemma_extends_check_name(s, name.name, name.loc, access);
        },
        ExprView::MemberAccess { lhs, op, .. } => {
            let wanted = if op == "->"@ {
                Access::Value
            } else {
                access
            };
            lemma_check_expr_keeps(s, *lhs, wanted);
        },
        ExprView::ArrayAccess { lhs, .. } => {
            lemma_check_expr_keeps(s, *lhs, access);
        },
        ExprView::Literal { loc, .. } => {
            lemma_extends_report(s, ReportOf::LiteralStorage { loc });
        },
        ExprView::Call { loc, name, args } => {
            lemma_check_call_keeps(s, loc, name, args);
        },
        ExprView::InfixOperation { loc, lhs, rhs } => {
            lemma_extends_report(s, ReportOf::InfixStorage { loc });
            lemma_check_labeled_keeps(s, rhs, 0, Seq::empty(), true);
            match check_labeled(s, rhs, 0, Seq::empty(), true) {
                Ok(rs) => {
                    lemma_same_labeled_heights(rs.exprs, rhs);
                    lemma_check_expr_keeps(rs.stack, *lhs, Access::Value);
                    match check_expr(rs.stack, *lhs, Access::Value) {
                        Ok(r) => {
                            lemma_extends_twice(s, rs.stack, r.stack);
                        },
                        Err(_) => {},
                    }
                },
                Err(_) => {},
            }
        },
        ExprView::Cast { expr, .. } => {
            lemma_check_expr_keeps(s, *expr, access);
        },
        ExprView::UnaryPost { expr, .. } => {
            lemma_check_expr_keeps(s, *expr, access);
        },
        ExprView::UnaryPre { loc, op, expr } => {
            lemma_check_unary_keeps(s, loc, op, *expr, access);
        },
        ExprView::StructInit { fields, .. } => {
            lemma_check_labeled_keeps(s, fields, 0, Seq::empty(), true);
            match check_labeled(s, fields, 0, Seq::empty(), true) {
                Ok(rs) => {
                    lemma_same_labeled_heights(rs.exprs, fields);
                },
                Err(_) => {},
            }
        },
        ExprView::ArrayInit { fields, .. } => {
            lemma_check_elements_keeps(s, fields, 0, Seq::empty(), true);
            match check_elements(s, fields, 0, Seq::empty(), true) {
                Ok(rs) => {
                    lemma_same_heights(rs.exprs, fields);
                },
                Err(_) => {},
            }
        },
    }
}

proof fn lemma_check_unary_keeps(
    s: StackView,
    loc: Location,
    op: Text,
    expr: ExprView,
    access: Access,
)
    requires
        s.wf(),
    ensures
        expr_keeps(
            s,
            ExprView::UnaryPre { loc, op, expr: Box::new(expr) },
            check_unary(s, loc, op, expr, access),
        ),
    decreases height(expr), 4nat, 0nat,
{
    let e = ExprView::UnaryPre { loc, op, expr: Box::new(expr) };
    assert(height(e) == 1 + height(expr));
    lemma_extends_self(s);
    if op == "&"@ {
        lemma_check_expr_keeps(s, expr, Access::Storage);
        match check_expr(s, expr, Access::Storage) {
            Ok(r) => {
                let here = expr_loc(r.expr);
                let temp = r.stack.pointers.len();
                let name = temporary_name(here);
                if r.stack.stack.len() > 0 {
                    lemma_extends_local_write(r.stack, None, name, here, Seq::empty(), r.value);
                    lemma_extends_twice(
                        s,
                        r.stack,
                        r.stack.local(None, name, here, Seq::empty()).write(temp, r.value, here),
                    );
                }
            },
            Err(_) => {},
        }
    } else if op == "*"@ {
        lemma_check_expr_keeps(s, expr, Access::Value);
        match check_expr(s, expr, Access::Value) {
            Ok(r) => match r.value {
                LifetimeView::Uninitialized => {},
                LifetimeView::Pointer(to) => {
                    lemma_extends_read(r.stack, to, expr_loc(r.expr), access);
                    lemma_extends_twice(
                        s,
                        r.stack,
                        r.stack.read(to, expr_loc(r.expr), access).0,
                    );
                },
                _ => {
                    lemma_check_expr_keeps(r.stack, r.expr, Access::Storage);
                    match check_expr_again(height(expr), r.stack, r.expr, Access::Storage) {
                        Ok(again) => match again.value {
                            LifetimeView::Pointer(p) => {
                                let report = ReportOf::BadDereference {
                                    loc: expr_loc(again.expr),
                                    changed_here: again.stack.pointers[p as int].changed_here,
                                };
                                lemma_extends_report(again.stack, report);
                                lemma_extends_twice(s, r.stack, again.stack);
                                lemma_extends_twice(s, again.stack, again.stack.report(report));
                            },
                            _ => {},
                        },
                        Err(_) => {},
                    }
                },
            },
            Err(_) => {},
        }
    }
}

proof fn lemma_check_call_keeps(
    s: StackView,
    loc: Location,
    name: TypedView,
    args: Seq<ExprView>,
)
    requires
        s.wf(),
    ensures
        expr_keeps(
            s,
            ExprView::Call { loc, name, args },
            check_call(s, loc, name, args),
        ),
    decreases heights(args), 4nat, 0nat,
{
    let e = ExprView::Call { loc, name, args };
    lemma_extends_self(s);
    if !is_ext(name.name) {
        lemma_extends_check_name(s, name.name, name.loc, Access::Value);
        let (s1, callee) = s.check_name(name.name, name.loc, Access::Value);
        match callee {
            LifetimeView::Function { ret, args: params, vararg } => {
                let full = completed(params, args, 0);
                lemma_completed_heights(params, args, 0);
                if count_mismatch(params.len(), full.len(), vararg) {
                    let report = ReportOf::ArgumentCount {
                        loc: name.loc,
                        expected: params.len(),
                        passed: full.len(),
                    };
                    lemma_extends_report(s1, report);
                    lemma_extends_twice(s, s1, s1.report(report));
                } else {
                    lemma_check_call_args_keeps(s1, params, full, 0, Seq::empty());
                    match check_call_args(s1, params, full, 0, Seq::empty()) {
                        Ok((s2, checked)) => {
                            lemma_same_heights(checked, full);
                            lemma_extends_twice(s, s1, s2);
                            lemma_extends_self(s2);
                            match ret {
                                Some(ret) => {
                                    lemma_points_below(
                                        *ret,
                                        s1.pointers.len(),
                                        s2.pointers.len(),
                                    );
                                    lemma_copy_returned_keeps(
                                        s2,
                                        *ret,
                                        *ret,
                                        name.name,
                                        loc,
                                        s2.pointers.len(),
                                    );
                                },
                                None => {},
                            }
                            match returned(s2, ret, name.name, loc) {
                                Ok((t, _)) => {
                                    lemma_extends_twice(s, s2, t);
                                },
                                Err(_) => {},
                            }
                        },
                        Err(_) => {},
                    }
                }
            },
            _ => {
                let report = ReportOf::NotAFunction { loc: name.loc };
                lemma_extends_report(s1, report);
                lemma_extends_twice(s, s1, s1.report(report));
            },
        }
    }
}

/// Checking several expressions extends the state, and leaves each as high as it was.
pub proof fn lemma_check_elements_keeps(
    s: StackView,
    es: Seq<ExprView>,
    i: nat,
    done: Seq<ExprView>,
    all_static: bool,
)
    requires
        s.wf(),
        done.len() == i,
        i <= es.len(),
        forall|j: int| 0 <= j < i ==> height(#[trigger] done[j]) == height(es[j]),
    ensures
        check_elements(s, es, i, done, all_static) matches Ok(rs) ==> {
            &&& extends(s, rs.stack)
            &&& rs.exprs.len() == es.len()
            &&& forall|j: int| 0 <= j < es.len() ==> height(#[trigger] rs.exprs[j]) == height(es[j])
        },
    decreases heights(es), 2nat, es.len() - i,
{
    lemma_extends_self(s);
    if i < es.len() {
        lemma_heights(es, i as int);
        lemma_check_expr_keeps(s, es[i as int], Access::Value);
        match check_expr(s, es[i as int], Access::Value) {
            Ok(r) => {
                let done1 = done.push(r.expr);
                let all_static1 = all_static && r.value is Static;
                lemma_check_elements_keeps(r.stack, es, i + 1, done1, all_static1);
                match check_elements(r.stack, es, i + 1, done1, all_static1) {
                    Ok(rs) => {
                        lemma_extends_twice(s, r.stack, rs.stack);
                    },
                    Err(_) => {},
                }
            },
            Err(_) => {},
        }
    }
}

/// Checking several labeled expressions extends the state, and leaves each as high as it was.
pub proof fn lemma_check_labeled_keeps(
    s: StackView,
    ls: Seq<LabeledView>,
    i: nat,
    done: Seq<LabeledView>,
    all_static: bool,
)
    requires
        s.wf(),
        done.len() == i,
        i <= ls.len(),
        forall|j: int| 0 <= j < i ==> height((#[trigger] done[j]).expr) == height(ls[j].expr),
    ensures
        check_labeled(s, ls, i, done, all_static) matches Ok(rs) ==> {
            &&& extends(s, rs.stack)
            &&& rs.exprs.len() == ls.len()
            &&& forall|j: int|
                0 <= j < ls.len() ==> height((#[trigger] rs.exprs[j]).expr) == height(ls[j].expr)
        },
    decreases labeled_heights(ls), 2nat, ls.len() - i,
{
    lemma_extends_self(s);
    if i < ls.len() {
        lemma_labeled_heights(ls, i as int);
        lemma_check_expr_keeps(s, ls[i as int].expr, Access::Value);
        match check_expr(s, ls[i as int].expr, Access::Value) {
            Ok(r) => {
                let done1 = done.push(LabeledView { label: ls[i as int].label, expr: r.expr });
                let all_static1 = all_static && r.value is Static;
                lemma_check_labeled_keeps(r.stack, ls, i + 1, done1, all_static1);
                match check_labeled(r.stack, ls, i + 1, done1, all_static1) {
                    Ok(rs) => {
                        lemma_extends_twice(s, r.stack, rs.stack);
                    },
                    Err(_) => {},
                }
            },
            Err(_) => {},
        }
    }
}

/// Checking an argument extends the state, and leaves it as high as it was.
pub proof fn lemma_check_call_arg_keeps(s: StackView, param: NamedArgView, arg: ExprView)
    requires
        s.wf(),
    ensures
        check_call_arg(s, param, arg) matches Ok((t, e)) ==> {
            &&& extends(s, t)
            &&& height(e) == height(arg)
            &&& expr_loc(e) == expr_loc(arg)
        },
    decreases height(arg), 2nat, 0nat,
{
    lemma_check_expr_keeps(s, arg, Access::Value);
    match check_expr(s, arg, Access::Value) {
        Ok(r) => {
            lemma_check_expr_keeps(r.stack, r.expr, Access::Storage);
            match check_expr(r.stack, r.expr, Access::Storage) {
                Ok(again) => {
                    lemma_extends_twice(s, r.stack, again.stack);
                    match again.value {
                        LifetimeView::Pointer(p) => {
                            let callsite = expr_loc(again.expr);
                            lemma_check_levels_keeps(again.stack, param.typed, callsite, p, 0);
                            lemma_extends_twice(
                                s,
                                again.stack,
                                check_levels(again.stack, param.typed, callsite, p, 0),
                            );
                        },
                        _ => {},
                    }
                },
                Err(_) => {},
            }
        },
        Err(_) => {},
    }
}

/// Checking the arguments of a call extends the state, and leaves each as high as it was.
pub proof fn lemma_check_call_args_keeps(
    s: StackView,
    params: Seq<NamedArgView>,
    args: Seq<ExprView>,
    i: nat,
    done: Seq<ExprView>,
)
    requires
        s.wf(),
        done.len() == i,
        i <= args.len(),
        forall|j: int| 0 <= j < i ==> height(#[trigger] done[j]) == height(args[j]),
    ensures
        check_call_args(s, params, args, i, done) matches Ok((t, es)) ==> {
            &&& extends(s, t)
            &&& es.len() == args.len()
            &&& forall|j: int| 0 <= j < args.len() ==> height(#[trigger] es[j]) == height(args[j])
        },
    decreases heights(args), 3nat, params.len() - i,
{
    lemma_extends_self(s);
    if i < params.len() && i < args.len() {
        lemma_heights(args, i as int);
        lemma_check_call_arg_keeps(s, params[i as int], args[i as int]);
        match check_call_arg(s, params[i as int], args[i as int]) {
            Ok((s1, arg)) => {
                lemma_check_call_args_keeps(s1, params, args, i + 1, done.push(arg));
                match check_call_args(s1, params, args, i + 1, done.push(arg)) {
                    Ok((t, _)) => {
                        lemma_extends_twice(s, s1, t);
                    },
                    Err(_) => {},
                }
            },
            Err(_) => {},
        }
    }
}

/// Opening a scope, extending the state in it and closing it again extends the state, and leaves
/// every scope as it was.
pub proof fn lemma_extends_scope(s: StackView, name: Text, t: StackView, end: Location)
    requires
        s.wf(),
        extends(s.push(name), t),
    ensures
        extends(s, t.pop(end)),
        t.pop(end).stack == s.stack,
{
    reveal(frame);
    let u = t.pop(end);
    let inner = s.push(name);
    lemma_pop_wf(t, end);
    assert forall|i: int| 0 <= i < s.stack.len() implies #[trigger] u.stack[i] == s.stack[i] by {
        assert(t.stack[i] == inner.stack[i]);
    }
    assert(u.stack =~= s.stack);
    assert forall|p: int| 0 <= p < s.pointers.len() implies {
        &&& (#[trigger] u.pointers[p]).name == s.pointers[p].name
        &&& u.pointers[p].typ == s.pointers[p].typ
        &&& u.pointers[p].stored_here == s.pointers[p].stored_here
    } by {
        assert(t.pointers[p].name == inner.pointers[p].name);
    }
}

/// Checking an expression that may be absent extends the state.
pub proof fn lemma_check_opt_expr_keeps(s: StackView, e: Option<ExprView>)
    requires
        s.wf(),
    ensures
        check_opt_expr(s, e) matches Ok((t, _)) ==> extends(s, t),
{
    lemma_extends_self(s);
    match e {
        Some(e) => {
            lemma_check_expr_keeps(s, e, Access::Value);
        },
        None => {},
    }
}

/// Reporting what is lost extends the state.
pub proof fn lemma_orphaned_keeps(s: StackView, owed: Seq<(nat, Location)>, loc: Location, i: nat)
    requires
        s.wf(),
    ensures
        extends(s, orphaned(s, owed, loc, i)),
    decreases owed.len() - i,
{
    lemma_extends_self(s);
    if i < owed.len() {
        let (p, call_loc) = owed[i as int];
        if s.pointers[p as int].value is Moved {
            lemma_orphaned_keeps(s, owed, loc, i + 1);
        } else {
            let report = ReportOf::Orphaned { call_loc, loc };
            lemma_extends_report(s, report);
            lemma_orphaned_keeps(s.report(report), owed, loc, i + 1);
            lemma_extends_twice(s, s.report(report), orphaned(s.report(report), owed, loc, i + 1));
        }
    }
}

/// Leaving a function extends the state.
pub proof fn lemma_left_keeps(s: StackView, loc: Location)
    requires
        s.wf(),
    ensures
        extends(s, left(s, loc)),
{
    let t = StackView { must_move_before_ret: Seq::empty(), ..s };
    assert(extends(s, t)) by {
        reveal(frame);
        assert(s.reports.take(s.reports.len() as int) =~= s.reports);
    }
    lemma_orphaned_keeps(t, s.must_move_before_ret, loc, 0);
    lemma_extends_twice(s, t, left(s, loc));
}

/// Assigning extends the state.
pub proof fn lemma_assigned_keeps(
    s: StackView,
    target: LifetimeView,
    value: LifetimeView,
    loc: Location,
)
    requires
        s.wf(),
        points_below(target, s.pointers.len()),
        points_below(value, s.pointers.len()),
    ensures
        extends(s, assigned(s, target, value, loc)),
{
    match target {
        LifetimeView::Pointer(to) => {
            let report = ReportOf::ImmutableAssign {
                loc,
                stored_here: s.pointers[to as int].stored_here,
            };
            lemma_extends_report(s, report);
            lemma_extends_write(s, to, value, loc);
            lemma_extends_write(s.report(report), to, value, loc);
            lemma_extends_twice(s, s.report(report), s.report(report).write(to, value, loc));
        },
        _ => {
            lemma_extends_report(s, ReportOf::InvalidLvalue { loc });
        },
    }
}

/// Checking a statement extends the state.
pub proof fn lemma_check_stm_keeps(s: StackView, stm: StmtView)
    requires
        s.wf(),
    ensures
        check_stm(s, stm) matches Ok((t, _)) ==> extends(s, t),
    decreases stm, 0nat,
{
    lemma_extends_self(s);
    match stm {
        StmtView::Mark { loc, lhs, key, value } => {
            lemma_check_expr_keeps(s, lhs, Access::Storage);
            match check_expr(s, lhs, Access::Storage) {
                Ok(r) => match r.value {
                    LifetimeView::Pointer(to) => {
                        let tags = marked(r.stack.pointers[to as int].tags, key, value, loc);
                        lemma_extends_set_tags(r.stack, to, tags);
                        lemma_extends_twice(s, r.stack, r.stack.set_tags(to, tags));
                    },
                    _ => {
                        let report = ReportOf::MarkTarget { loc: expr_loc(r.expr) };
                        lemma_extends_report(r.stack, report);
                        lemma_extends_twice(s, r.stack, r.stack.report(report));
                    },
                },
                Err(_) => {},
            }
        },
        StmtView::Block(block) => {
            lemma_push_wf(s, "block"@);
            lemma_check_block_keeps(s.push("block"@), block.statements, 0, Seq::empty());
            match check_block(s.push("block"@), block.statements, 0, Seq::empty()) {
                Ok((t, _)) => {
                    lemma_extends_scope(s, "block"@, t, block.end);
                },
                Err(_) => {},
            }
        },
        StmtView::Cond { expr, body } => {
            let s0 = s.push("if"@);
            lemma_push_wf(s, "if"@);
            lemma_check_opt_expr_keeps(s0, expr);
            match check_opt_expr(s0, expr) {
                Ok((s1, _)) => {
                    lemma_check_block_keeps(s1, body.statements, 0, Seq::empty());
                    match check_block(s1, body.statements, 0, Seq::empty()) {
                        Ok((t, _)) => {
                            lemma_extends_twice(s0, s1, t);
                            lemma_extends_scope(s, "if"@, t, body.end);
                        },
                        Err(_) => {},
                    }
                },
                Err(_) => {},
            }
        },
        StmtView::For { e1, e2, e3, body } => {
            let s0 = s.push("for"@);
            lemma_push_wf(s, "for"@);
            lemma_check_opt_stm_keeps(s0, e1);
            match check_opt_stm(s0, e1) {
                Ok((s1, _)) => {
                    lemma_check_opt_stm_keeps(s1, e2);
                    match check_opt_stm(s1, e2) {
                        Ok((s2, _)) => {
                            lemma_extends_twice(s0, s1, s2);
                            lemma_check_opt_stm_keeps(s2, e3);
                            match check_opt_stm(s2, e3) {
                                Ok((s3, _)) => {
                                    lemma_extends_twice(s0, s2, s3);
                                    lemma_check_block_keeps(s3, body.statements, 0, Seq::empty());
                                    match check_block(s3, body.statements, 0, Seq::empty()) {
                                        Ok((t, _)) => {
                                            lemma_extends_twice(s0, s3, t);
                                            lemma_extends_scope(s, "for"@, t, body.end);
                                        },
                                        Err(_) => {},
                                    }
                                },
                                Err(_) => {},
                            }
                        },
                        Err(_) => {},
                    }
                },
                Err(_) => {},
            }
        },
        StmtView::Expr { expr, .. } => {
            lemma_check_expr_keeps(s, expr, Access::Value);
        },
        StmtView::Var { loc, name, tags, assign } => {
            let tags1 = inserted(tags, "stack"@, Seq::empty(), loc);
            let s1 = s.local(None, pieces(name), loc, tags1);
            if s.stack.len() > 0 {
                lemma_extends_local(s, None, pieces(name), loc, tags1);
            }
            match assign {
                Some(assign) if s.stack.len() > 0 => {
                    lemma_check_expr_keeps(s1, assign, Access::Value);
                    match check_expr(s1, assign, Access::Value) {
                        Ok(r) => {
                            let report = ReportOf::UnknownRvalue {
                                loc: expr_loc(r.expr),
                            };
                            lemma_extends_twice(s, s1, r.stack);
                            lemma_extends_report(r.stack, report);
                            let s2 = if r.value is Uninitialized {
                                r.stack.report(report)
                            } else {
                                r.stack
                            };
                            lemma_extends_self(r.stack);
                            lemma_extends_twice(s, r.stack, s2);
                            lemma_extends_write(s2, s.pointers.len(), r.value, loc);
                            lemma_extends_twice(s, s2, s2.write(s.pointers.len(), r.value, loc));
                        },
                        Err(_) => {},
                    }
                },
                _ => {},
            }
        },
        StmtView::Assign { loc, lhs, rhs } => {
            lemma_check_expr_keeps(s, rhs, Access::Value);
            match check_expr(s, rhs, Access::Value) {
                Ok(from) => {
                    let report = ReportOf::InvalidRvalue {
                        loc: expr_loc(from.expr),
                    };
                    lemma_extends_report(from.stack, report);
                    lemma_extends_self(from.stack);
                    let s1 = if from.value is Uninitialized {
                        from.stack.report(report)
                    } else {
                        from.stack
                    };
                    lemma_extends_twice(s, from.stack, s1);
                    lemma_check_expr_keeps(s1, lhs, Access::Storage);
                    match check_expr(s1, lhs, Access::Storage) {
                        Ok(to) => {
                            lemma_extends_twice(s, s1, to.stack);
                            lemma_points_below(
                                from.value,
                                s1.pointers.len(),
                                to.stack.pointers.len(),
                            );
                            let here = expr_loc(to.expr);
                            lemma_assigned_keeps(to.stack, to.value, from.value, here);
                            lemma_extends_twice(
                                s,
                                to.stack,
                                assigned(to.stack, to.value, from.value, here),
                            );
                        },
                        Err(_) => {},
                    }
                },
                Err(_) => {},
            }
        },
        StmtView::Return { loc, expr } => {
            lemma_check_opt_expr_keeps(s, expr);
            match check_opt_expr(s, expr) {
                Ok((s1, _)) => {
                    lemma_left_keeps(s1, loc);
                    lemma_extends_twice(s, s1, left(s1, loc));
                },
                Err(_) => {},
            }
        },
        _ => {},
    }
}

/// Checking a statement that may be absent extends the state.
pub proof fn lemma_check_opt_stm_keeps(s: StackView, stm: Option<Box<StmtView>>)
    requires
        s.wf(),
    ensures
        check_opt_stm(s, stm) matches Ok((t, _)) ==> extends(s, t),
    decreases stm, 0nat,
{
    lemma_extends_self(s);
    match stm {
        Some(stm) => {
            lemma_check_stm_keeps(s, *stm);
        },
        None => {},
    }
}

/// Checking statements extends the state, and changes none of them into several or none.
pub proof fn lemma_check_block_keeps(
    s: StackView,
    stms: Seq<StmtView>,
    i: nat,
    done: Seq<StmtView>,
)
    requires
        s.wf(),
    ensures
        check_block(s, stms, i, done) matches Ok((t, out)) ==> {
            &&& extends(s, t)
            &&& i <= stms.len() ==> out.len() == done.len() + stms.len() - i
        },
    decreases stms, stms.len() - i,
{
    lemma_extends_self(s);
    if i < stms.len() {
        lemma_check_stm_keeps(s, stms[i as int]);
        match check_stm(s, stms[i as int]) {
            Ok((s1, stm)) => {
                lemma_check_block_keeps(s1, stms, i + 1, done.push(stm));
                match check_block(s1, stms, i + 1, done.push(stm)) {
                    Ok((t, _)) => {
                        lemma_extends_twice(s, s1, t);
                    },
                    Err(_) => {},
                }
            },
            Err(_) => {},
        }
    }
}

/// Binding a name to something static extends the state.
pub proof fn lemma_define_static_keeps(
    s: StackView,
    typ: Option<TypedView>,
    name: NameView,
    loc: Location,
    tags: TagsView,
)
    requires
        s.wf(),
        s.stack.len() > 0,
    ensures
        extends(s, define_static(s, typ, name, loc, tags)),
{
    lemma_extends_local_write(s, typ, name, loc, tags, LifetimeView::Static);
}

/// Binding the names of C code extends the state.
pub proof fn lemma_define_c_names_keeps(s: StackView, names: Seq<CNameView>, i: nat)
    requires
        s.wf(),
        s.stack.len() > 0,
    ensures
        extends(s, define_c_names(s, names, i)),
    decreases names.len() - i,
{
    lemma_extends_self(s);
    if i < names.len() {
        let c = names[i as int];
        let s1 = define_static(s, None, c.name, c.loc, Seq::empty());
        lemma_define_static_keeps(s, None, c.name, c.loc, Seq::empty());
        lemma_define_c_names_keeps(s1, names, i + 1);
        lemma_extends_twice(s, s1, define_c_names(s1, names, i + 1));
    }
}

/// Making storage for what a function returns extends the state.
pub proof fn lemma_define_return_keeps(
    s: StackView,
    function: Text,
    typed: TypedView,
    i: nat,
    inner: LifetimeView,
)
    requires
        s.wf(),
        s.stack.len() > 0,
        points_below(inner, s.pointers.len()),
    ensures
        extends(s, define_return(s, function, typed, i, inner).0),
        points_below(
            define_return(s, function, typed, i, inner).1,
            define_return(s, function, typed, i, inner).0.pointers.len(),
        ),
    decreases typed.ptr.len() - i,
{
    lemma_extends_self(s);
    if i < typed.ptr.len() {
        let made = s.pointers.len();
        let name = pieces("return value of "@ + function);
        let tags = behind_pointer(typed.ptr[i as int].tags, typed.loc);
        lemma_extends_local_write(s, Some(typed), name, typed.loc, tags, inner);
        let s1 = s.local(Some(typed), name, typed.loc, tags).write(made, inner, typed.loc);
        let s2 = StackView { current_return_ptr: Some(made), ..s1 };
        assert(extends(s, s2)) by {
            reveal(frame);
        }
        lemma_define_return_keeps(s2, function, typed, i + 1, LifetimeView::Pointer(made));
        lemma_extends_twice(
            s,
            s2,
            define_return(s2, function, typed, i + 1, LifetimeView::Pointer(made)).0,
        );
    }
}

/// Making storage for what an argument points to extends the state.
pub proof fn lemma_define_arg_levels_keeps(s: StackView, arg: NamedArgView, at: nat, depth: nat)
    requires
        s.wf(),
        s.stack.len() > 0,
        at < s.pointers.len(),
    ensures
        extends(s, define_arg_levels(s, arg, at, depth).0),
        define_arg_levels(s, arg, at, depth).1 < define_arg_levels(
            s,
            arg,
            at,
            depth,
        ).0.pointers.len(),
    decreases arg.typed.ptr.len() - depth,
{
    lemma_extends_self(s);
    if depth < arg.typed.ptr.len() {
        let ptr = arg.typed.ptr[arg.typed.ptr.len() - 1 - depth];
        let made = s.pointers.len();
        let name = pieces("__builtin::pointer_to_callsite::"@ + decimal(at));
        let tags = behind_pointer(ptr.tags, arg.loc);
        let s1 = s.local(Some(arg.typed), name, arg.loc, tags);
        lemma_extends_local(s, Some(arg.typed), name, arg.loc, tags);
        let s2 = s1.write(at, LifetimeView::Pointer(made), arg.loc);
        lemma_extends_write(s1, at, LifetimeView::Pointer(made), arg.loc);
        lemma_extends_twice(s, s1, s2);
        lemma_define_arg_levels_keeps(s2, arg, made, depth + 1);
        lemma_extends_twice(s, s2, define_arg_levels(s2, arg, made, depth + 1).0);
    }
}

/// Binding an argument extends the state.
pub proof fn lemma_define_arg_keeps(s: StackView, arg: NamedArgView)
    requires
        s.wf(),
        s.stack.len() > 0,
    ensures
        extends(s, define_arg(s, arg)),
{
    let s0 = s.local(Some(arg.typed), pieces(arg.name), arg.loc, arg.tags);
    lemma_extends_local(s, Some(arg.typed), pieces(arg.name), arg.loc, arg.tags);
    lemma_define_arg_levels_keeps(s0, arg, s.pointers.len(), 0);
    let (s1, at) = define_arg_levels(s0, arg, s.pointers.len(), 0);
    lemma_extends_twice(s, s0, s1);
    let name = pieces("__builtin::callstack::"@ + decimal(at));
    let s2 = s1.local(Some(arg.typed), name, arg.loc, arg.tags);
    lemma_extends_local(s1, Some(arg.typed), name, arg.loc, arg.tags);
    lemma_extends_twice(s, s1, s2);
    let value = LifetimeView::Pointer(s1.pointers.len());
    lemma_extends_write(s2, at, value, arg.loc);
    lemma_extends_twice(s, s2, s2.write(at, value, arg.loc));
}

/// Binding the arguments of a function extends the state.
pub proof fn lemma_define_args_keeps(s: StackView, args: Seq<NamedArgView>, i: nat)
    requires
        s.wf(),
        s.stack.len() > 0,
    ensures
        extends(s, define_args(s, args, i)),
    decreases args.len() - i,
{
    lemma_extends_self(s);
    if i < args.len() {
        let s1 = define_arg(s, args[i as int]);
        lemma_define_arg_keeps(s, args[i as int]);
        lemma_define_args_keeps(s1, args, i + 1);
        lemma_extends_twice(s, s1, define_args(s1, args, i + 1));
    }
}

/// What checking a definition leaves of it: all but what is in the body of a function.
pub open spec fn same_local(a: LocalView, b: LocalView) -> bool {
    &&& a.name == b.name
    &&& a.loc == b.loc
    &&& match (a.def, b.def) {
        (
            DefView::Function { ret: r1, args: a1, vararg: v1, body: b1 },
            DefView::Function { ret: r2, args: a2, vararg: v2, body: b2 },
        ) => {
            &&& r1 == r2
            &&& a1 == a2
            &&& v1 == v2
            &&& b1.end == b2.end
            &&& b1.statements.len() == b2.statements.len()
        },
        (d1, d2) => d1 == d2,
    }
}

/// Checking a definition extends the state, and changes nothing of the definition but what is in
/// the body of a function.
pub proof fn lemma_check_local_keeps(s: StackView, local: LocalView)
    requires
        s.wf(),
        s.stack.len() > 0,
    ensures
        check_local(s, local) matches Ok((t, out)) ==> extends(s, t) && same_local(local, out),
{
    lemma_extends_self(s);
    match local.def {
        DefView::Macro => {
            lemma_define_static_keeps(s, None, pieces(local.name), local.loc, Seq::empty());
        },
        DefView::Static { typed, tags } => {
            lemma_define_static_keeps(s, Some(typed), pieces(local.name), local.loc, tags);
        },
        DefView::Function { ret, args, vararg, body } => {
            let function = s.pointers.len();
            let s1 = s.local(None, pieces(local.name), local.loc, Seq::empty());
            lemma_extends_local(s, None, pieces(local.name), local.loc, Seq::empty());
            lemma_extends_self(s1);
            let (s2, ret_value) = match ret {
                Some(typed) => {
                    let (s2, value) = define_return(s1, local.name, typed, 0, LifetimeView::Static);
                    (s2, Some(Box::new(value)))
                },
                None => (s1, None),
            };
            if ret is Some {
                lemma_define_return_keeps(s1, local.name, ret->Some_0, 0, LifetimeView::Static);
            }
            lemma_extends_twice(s, s1, s2);
            lemma_push_wf(s2, local.name);
            let inner = s2.push(local.name);
            lemma_define_args_keeps(inner, args, 0);
            let s3 = define_args(inner, args, 0);
            lemma_check_block_keeps(s3, body.statements, 0, Seq::empty());
            match check_block(s3, body.statements, 0, Seq::empty()) {
                Ok((s4, _)) => {
                    lemma_extends_twice(inner, s3, s4);
                    let value = LifetimeView::Function { ret: ret_value, args, vararg };
                    if ret is Some {
                        lemma_points_below(
                            *ret_value->Some_0,
                            s2.pointers.len(),
                            s4.pointers.len(),
                        );
                    }
                    lemma_extends_write(s4, function, value, local.loc);
                    let s5 = s4.write(function, value, local.loc);
                    lemma_extends_twice(inner, s4, s5);
                    lemma_extends_scope(s2, local.name, s5, body.end);
                    let s6 = s5.pop(body.end);
                    lemma_extends_twice(s, s2, s6);
                    assert(extends(s, StackView { current_return_ptr: None, ..s6 })) by {
                        reveal(frame);
                    }
                },
                Err(_) => {},
            }
        },
        DefView::Other => {},
    }
}

/// What checking an item of a module leaves of it.
pub open spec fn same_item(a: DView, b: DView) -> bool {
    match (a, b) {
        (DView::Local(a), DView::Local(b)) => same_local(a, b),
        (a, b) => a == b,
    }
}

/// Checking the items of a module extends the state, and changes nothing of them but what is in
/// the bodies of functions.
pub proof fn lemma_check_items_keeps(s: StackView, ds: Seq<DView>, i: nat, done: Seq<DView>)
    requires
        s.wf(),
        s.stack.len() > 0,
        done.len() == i,
        i <= ds.len(),
        forall|j: int| 0 <= j < i ==> same_item(ds[j], #[trigger] done[j]),
    ensures
        check_items(s, ds, i, done) matches Ok((t, out)) ==> {
            &&& extends(s, t)
            &&& out.len() == ds.len()
            &&& forall|j: int| 0 <= j < ds.len() ==> same_item(ds[j], #[trigger] out[j])
        },
    decreases ds.len() - i,
{
    lemma_extends_self(s);
    if i < ds.len() {
        match ds[i as int] {
            DView::Include(_) => {
                lemma_check_items_keeps(s, ds, i + 1, done.push(ds[i as int]));
            },
            DView::Local(local) => {
                lemma_check_local_keeps(s, local);
                match check_local(s, local) {
                    Ok((s1, out)) => {
                        let done1 = done.push(DView::Local(out));
                        lemma_check_items_keeps(s1, ds, i + 1, done1);
                        match check_items(s1, ds, i + 1, done1) {
                            Ok((t, _)) => {
                                lemma_extends_twice(s, s1, t);
                            },
                            Err(_) => {},
                        }
                    },
                    Err(_) => {},
                }
            },
        }
    }
}

} // verus!
