//! What checking adds to a program: literals among the arguments of calls, and nothing else.

use vstd::prelude::*;
use crate::ast::{
    DView, DefView, ExprView, LabeledView, LocalView, ModuleView, NamedArgView, StmtView,
    TypedView, expr_loc,
};
use crate::lifetimes::effects::{
    expr_effect, is_temporary, law_expr_effect, lemma_effect_call_arg, lemma_effect_check_name,
    lemma_effect_labeled, lemma_effect_report, lemma_effect_self, lemma_effect_twice,
    same_binding, storage_effect,
};
use crate::lifetimes::frame::{
    lemma_check_call_arg_keeps, lemma_check_expr_keeps, lemma_check_opt_expr_keeps,
    lemma_check_opt_stm_keeps, lemma_check_stm_keeps, lemma_define_args_keeps,
    lemma_define_return_keeps, lemma_extends_check_name, lemma_extends_local,
    lemma_extends_report,
};
use crate::lifetimes::rules::{
    Stop, check_block, check_call, check_call_arg, check_call_args, check_elements, check_expr,
    check_expr_again, check_items, check_labeled, check_local, check_module, check_opt_expr,
    check_opt_stm, check_stm, check_unary, completed, count_mismatch, define_c_names,
    define_return, entered, height, heights, labeled_heights, lemma_completed_heights,
    lemma_heights, lemma_labeled_heights,
};
use crate::lifetimes::state::{Access, LifetimeView, StackView, lemma_find_wf, lemma_push_wf};
use crate::lifetimes::steps::{
    after_items, law_blocks_concatenate, lemma_item_errors, lemma_item_step,
};
use crate::location::Location;
use crate::name::{NameView, is_ext};
use crate::report::ReportOf;
use crate::tags::{has_key, inserted, values};
use crate::text::{Text, pieces};

verus! {

/// Whether a parameter has `literal` generated at the callsite.
pub open spec fn generates(param: NamedArgView, literal: ExprView) -> bool {
    let generated = values(param.tags, "callsite_macro"@)[0];
    &&& has_key(param.tags, "callsite_macro"@)
    &&& literal == (ExprView::Literal { loc: generated.loc, v: generated.value })
}

/// Whether `literal` is what a parameter of the function that `callee` names in the state `s` has
/// generated at the callsite. Of a name that a temporary may have taken over while the expression
/// is checked, no more is said than that it is a literal.
pub open spec fn generated_by(s: StackView, callee: NameView, literal: ExprView) -> bool {
    &&& literal is Literal
    &&& is_temporary(callee) || (s.find(callee) matches Some(p)
        && s.pointers[p as int].value matches LifetimeView::Function { args: params, .. }
        && exists|i: int| 0 <= i < params.len() && generates(#[trigger] params[i], literal))
}

/// Whether `b` is `a`, checked in the state `s`, with generated literals added among the
/// arguments of calls, and nothing else changed.
pub open spec fn completes(s: StackView, a: ExprView, b: ExprView) -> bool
    decreases a, 0nat,
{
    match a {
        ExprView::Name(_) => b == a,
        ExprView::Literal { .. } => b == a,
        ExprView::MemberAccess { loc, lhs, op, rhs } => match b {
            ExprView::MemberAccess { loc: loc2, lhs: lhs2, op: op2, rhs: rhs2 } => loc2 == loc
                && op2 == op && rhs2 == rhs && completes(s, *lhs, *lhs2),
            _ => false,
        },
        ExprView::ArrayAccess { loc, lhs, rhs } => match b {
            ExprView::ArrayAccess { loc: loc2, lhs: lhs2, rhs: rhs2 } => loc2 == loc && rhs2 == rhs
                && completes(s, *lhs, *lhs2),
            _ => false,
        },
        ExprView::Call { loc, name, args } => match b {
            ExprView::Call { loc: loc2, name: name2, args: args2 } => loc2 == loc && name2 == name
                && args_complete(s, name.name, args, args2),
            _ => false,
        },
        ExprView::InfixOperation { loc, lhs, rhs } => match b {
            ExprView::InfixOperation { loc: loc2, lhs: lhs2, rhs: rhs2 } => loc2 == loc
                && completes(s, *lhs, *lhs2) && labeled_complete(s, rhs, rhs2),
            _ => false,
        },
        ExprView::Cast { loc, into, expr } => match b {
            ExprView::Cast { loc: loc2, into: into2, expr: expr2 } => loc2 == loc && into2 == into
                && completes(s, *expr, *expr2),
            _ => false,
        },
        ExprView::UnaryPost { loc, op, expr } => match b {
            ExprView::UnaryPost { loc: loc2, op: op2, expr: expr2 } => loc2 == loc && op2 == op
                && completes(s, *expr, *expr2),
            _ => false,
        },
        ExprView::UnaryPre { loc, op, expr } => match b {
            ExprView::UnaryPre { loc: loc2, op: op2, expr: expr2 } => loc2 == loc && op2 == op
                && completes(s, *expr, *expr2),
            _ => false,
        },
        ExprView::StructInit { loc, typed, fields } => match b {
            ExprView::StructInit { loc: loc2, typed: typed2, fields: fields2 } => loc2 == loc
                && typed2 == typed && labeled_complete(s, fields, fields2),
            _ => false,
        },
        ExprView::ArrayInit { loc, fields } => match b {
            ExprView::ArrayInit { loc: loc2, fields: fields2 } => loc2 == loc && all_complete(
                s,
                fields,
                fields2,
            ),
            _ => false,
        },
    }
}

/// Whether `ys` are the arguments `xs` of a call of `callee`, in their order and none left out,
/// with what that function has generated at the callsite in between.
pub open spec fn args_complete(
    s: StackView,
    callee: NameView,
    xs: Seq<ExprView>,
    ys: Seq<ExprView>,
) -> bool
    decreases xs, ys.len(),
{
    if ys.len() == 0 {
        xs.len() == 0
    } else {
        ||| generated_by(s, callee, ys.last()) && args_complete(s, callee, xs, ys.drop_last())
        ||| xs.len() > 0 && completes(s, xs.last(), ys.last()) && args_complete(
            s,
            callee,
            xs.drop_last(),
            ys.drop_last(),
        )
    }
}

/// Whether each of `ys` completes the one of `xs` in its place.
pub open spec fn all_complete(s: StackView, xs: Seq<ExprView>, ys: Seq<ExprView>) -> bool
    decreases xs, ys.len(),
{
    &&& xs.len() == ys.len()
    &&& forall|i: int| 0 <= i < xs.len() ==> completes(s, #[trigger] xs[i], ys[i])
}

/// Whether each of `ys` has the label of the one of `xs` in its place, and completes it.
pub open spec fn labeled_complete(s: StackView, xs: Seq<LabeledView>, ys: Seq<LabeledView>) -> bool
    decreases xs, ys.len(),
{
    &&& xs.len() == ys.len()
    &&& forall|i: int|
        0 <= i < xs.len() ==> ys[i].label == (#[trigger] xs[i]).label && completes(
            s,
            xs[i].expr,
            ys[i].expr,
        )
}

/// What nothing was added to completes itself.
proof fn lemma_completes_self(s: StackView, a: ExprView)
    ensures
        completes(s, a, a),
    decreases a, 0nat,
{
    match a {
        ExprView::Name(_) => {},
        ExprView::Literal { .. } => {},
        ExprView::MemberAccess { lhs, .. } => {
            lemma_completes_self(s, *lhs);
        },
        ExprView::ArrayAccess { lhs, .. } => {
            lemma_completes_self(s, *lhs);
        },
        ExprView::Call { name, args, .. } => {
            lemma_args_complete_self(s, name.name, args);
        },
        ExprView::InfixOperation { lhs, rhs, .. } => {
            lemma_completes_self(s, *lhs);
            assert forall|i: int| 0 <= i < rhs.len() implies completes(
                s,
                (#[trigger] rhs[i]).expr,
                rhs[i].expr,
            ) by {
                lemma_completes_self(s, rhs[i].expr);
            }
            assert(labeled_complete(s, rhs, rhs));
        },
        ExprView::Cast { expr, .. } => {
            lemma_completes_self(s, *expr);
        },
        ExprView::UnaryPost { expr, .. } => {
            lemma_completes_self(s, *expr);
        },
        ExprView::UnaryPre { expr, .. } => {
            lemma_completes_self(s, *expr);
        },
        ExprView::StructInit { fields, .. } => {
            assert forall|i: int| 0 <= i < fields.len() implies completes(
                s,
                (#[trigger] fields[i]).expr,
                fields[i].expr,
            ) by {
                lemma_completes_self(s, fields[i].expr);
            }
            assert(labeled_complete(s, fields, fields));
        },
        ExprView::ArrayInit { fields, .. } => {
            assert forall|i: int| 0 <= i < fields.len() implies completes(
                s,
                #[trigger] fields[i],
                fields[i],
            ) by {
                lemma_completes_self(s, fields[i]);
            }
            assert(all_complete(s, fields, fields));
        },
    }
}

proof fn lemma_args_complete_self(s: StackView, callee: NameView, xs: Seq<ExprView>)
    ensures
        args_complete(s, callee, xs, xs),
    decreases xs, xs.len(),
{
    if xs.len() > 0 {
        lemma_completes_self(s, xs.last());
        lemma_args_complete_self(s, callee, xs.drop_last());
    }
}

/// Completing twice is completing.
proof fn lemma_completes_twice(s: StackView, a: ExprView, b: ExprView, c: ExprView)
    requires
        completes(s, a, b),
        completes(s, b, c),
    ensures
        completes(s, a, c),
    decreases a, 0nat,
{
    match (a, b, c) {
        (
            ExprView::MemberAccess { lhs, .. },
            ExprView::MemberAccess { lhs: lhs2, .. },
            ExprView::MemberAccess { lhs: lhs3, .. },
        ) => {
            lemma_completes_twice(s, *lhs, *lhs2, *lhs3);
        },
        (
            ExprView::ArrayAccess { lhs, .. },
            ExprView::ArrayAccess { lhs: lhs2, .. },
            ExprView::ArrayAccess { lhs: lhs3, .. },
        ) => {
            lemma_completes_twice(s, *lhs, *lhs2, *lhs3);
        },
        (
            ExprView::Call { name, args, .. },
            ExprView::Call { args: args2, .. },
            ExprView::Call { args: args3, .. },
        ) => {
            lemma_args_complete_twice(s, name.name, args, args2, args3);
        },
        (
            ExprView::InfixOperation { lhs, rhs, .. },
            ExprView::InfixOperation { lhs: lhs2, rhs: rhs2, .. },
            ExprView::InfixOperation { lhs: lhs3, rhs: rhs3, .. },
        ) => {
            lemma_completes_twice(s, *lhs, *lhs2, *lhs3);
            lemma_labeled_complete_twice(s, rhs, rhs2, rhs3);
        },
        (
            ExprView::Cast { expr, .. },
            ExprView::Cast { expr: expr2, .. },
            ExprView::Cast { expr: expr3, .. },
        ) => {
            lemma_completes_twice(s, *expr, *expr2, *expr3);
        },
        (
            ExprView::UnaryPost { expr, .. },
            ExprView::UnaryPost { expr: expr2, .. },
            ExprView::UnaryPost { expr: expr3, .. },
        ) => {
            lemma_completes_twice(s, *expr, *expr2, *expr3);
        },
        (
            ExprView::UnaryPre { expr, .. },
            ExprView::UnaryPre { expr: expr2, .. },
            ExprView::UnaryPre { expr: expr3, .. },
        ) => {
            lemma_completes_twice(s, *expr, *expr2, *expr3);
        },
        (
            ExprView::StructInit { fields, .. },
            ExprView::StructInit { fields: fields2, .. },
            ExprView::StructInit { fields: fields3, .. },
        ) => {
            lemma_labeled_complete_twice(s, fields, fields2, fields3);
        },
        (
            ExprView::ArrayInit { fields, .. },
            ExprView::ArrayInit { fields: fields2, .. },
            ExprView::ArrayInit { fields: fields3, .. },
        ) => {
            assert(all_complete(s, fields, fields2));
            assert(all_complete(s, fields2, fields3));
            assert forall|i: int| 0 <= i < fields.len() implies completes(
                s,
                #[trigger] fields[i],
                fields3[i],
            ) by {
                assert(completes(s, fields2[i], fields3[i]));
                lemma_completes_twice(s, fields[i], fields2[i], fields3[i]);
            }
            assert(all_complete(s, fields, fields3));
        },
        _ => {},
    }
}

proof fn lemma_labeled_complete_twice(
    s: StackView,
    xs: Seq<LabeledView>,
    ys: Seq<LabeledView>,
    zs: Seq<LabeledView>,
)
    requires
        labeled_complete(s, xs, ys),
        labeled_complete(s, ys, zs),
    ensures
        labeled_complete(s, xs, zs),
    decreases xs, 0nat,
{
    assert forall|i: int| 0 <= i < xs.len() implies zs[i].label == (#[trigger] xs[i]).label
        && completes(s, xs[i].expr, zs[i].expr) by {
        assert(completes(s, ys[i].expr, zs[i].expr));
        lemma_completes_twice(s, xs[i].expr, ys[i].expr, zs[i].expr);
    }
}

proof fn lemma_args_complete_twice(
    s: StackView,
    callee: NameView,
    xs: Seq<ExprView>,
    ys: Seq<ExprView>,
    zs: Seq<ExprView>,
)
    requires
        args_complete(s, callee, xs, ys),
        args_complete(s, callee, ys, zs),
    ensures
        args_complete(s, callee, xs, zs),
    decreases xs, zs.len(),
{
    if zs.len() > 0 {
        let rest = zs.drop_last();
        if generated_by(s, callee, zs.last()) && args_complete(s, callee, ys, rest) {
            lemma_args_complete_twice(s, callee, xs, ys, rest);
        } else if generated_by(s, callee, ys.last()) && args_complete(
            s,
            callee,
            xs,
            ys.drop_last(),
        ) {
            assert(completes(s, ys.last(), zs.last()));
            lemma_args_complete_twice(s, callee, xs, ys.drop_last(), rest);
        } else {
            lemma_completes_twice(s, xs.last(), ys.last(), zs.last());
            lemma_args_complete_twice(s, callee, xs.drop_last(), ys.drop_last(), rest);
        }
    }
}

proof fn lemma_args_complete_insert(
    s: StackView,
    callee: NameView,
    xs: Seq<ExprView>,
    ys: Seq<ExprView>,
    i: int,
    literal: ExprView,
)
    requires
        args_complete(s, callee, xs, ys),
        0 <= i <= ys.len(),
        generated_by(s, callee, literal),
    ensures
        args_complete(s, callee, xs, ys.insert(i, literal)),
    decreases ys.len(),
{
    let zs = ys.insert(i, literal);
    if i == ys.len() {
        assert(zs.drop_last() =~= ys);
    } else {
        let rest = ys.drop_last();
        assert(zs.last() == ys.last());
        assert(zs.drop_last() =~= rest.insert(i, literal));
        if generated_by(s, callee, ys.last()) && args_complete(s, callee, xs, rest) {
            lemma_args_complete_insert(s, callee, xs, rest, i, literal);
        } else {
            lemma_args_complete_insert(s, callee, xs.drop_last(), rest, i, literal);
        }
    }
}

proof fn lemma_args_complete_each(
    s: StackView,
    callee: NameView,
    xs: Seq<ExprView>,
    ys: Seq<ExprView>,
)
    requires
        all_complete(s, xs, ys),
    ensures
        args_complete(s, callee, xs, ys),
    decreases xs.len(),
{
    if xs.len() > 0 {
        assert(completes(s, xs[xs.len() - 1], ys[xs.len() - 1]));
        assert forall|i: int| 0 <= i < xs.len() - 1 implies completes(
            s,
            #[trigger] xs.drop_last()[i],
            ys.drop_last()[i],
        ) by {
            assert(completes(s, xs[i], ys[i]));
        }
        lemma_args_complete_each(s, callee, xs.drop_last(), ys.drop_last());
    }
}

/// Completing a call adds what the function has generated at the callsite, and nothing else.
proof fn lemma_completed(
    s: StackView,
    callee: NameView,
    params: Seq<NamedArgView>,
    args: Seq<ExprView>,
    i: nat,
)
    requires
        s.find(callee) matches Some(p) && s.pointers[p as int].value
            matches LifetimeView::Function { args: known, .. } && known == params,
    ensures
        args_complete(s, callee, args, completed(params, args, i)),
    decreases params.len() - i,
{
    lemma_args_complete_self(s, callee, args);
    if i < params.len() {
        if has_key(params[i as int].tags, "callsite_macro"@) {
            if i <= args.len() {
                let generated = values(params[i as int].tags, "callsite_macro"@)[0];
                let literal = ExprView::Literal { loc: generated.loc, v: generated.value };
                let more = args.insert(i as int, literal);
                assert(generates(params[i as int], literal));
                lemma_args_complete_insert(s, callee, args, args, i as int, literal);
                lemma_completed(s, callee, params, more, i + 1);
                lemma_args_complete_twice(
                    s,
                    callee,
                    args,
                    more,
                    completed(params, more, i + 1),
                );
            }
        } else {
            lemma_completed(s, callee, params, args, i + 1);
        }
    }
}

/// Whether every function that a name stands for in `t` is the one that it stands for in `s`.
pub open spec fn names_no_more(s: StackView, t: StackView) -> bool {
    forall|callee: NameView, literal: ExprView| #[trigger]
        generated_by(t, callee, literal) ==> generated_by(s, callee, literal)
}

/// Checking an expression makes no name stand for another function.
proof fn lemma_effect_names_no_more(s: StackView, t: StackView)
    requires
        s.wf(),
        expr_effect(s, t),
    ensures
        names_no_more(s, t),
{
    reveal(expr_effect);
    assert forall|callee: NameView, literal: ExprView| #[trigger]
        generated_by(t, callee, literal) implies generated_by(s, callee, literal) by {
        if !is_temporary(callee) {
            lemma_find_wf(s, callee);
            lemma_same_find(s, t, callee);
            let p = s.find(callee)->Some_0 as int;
            assert(storage_effect(s.pointers[p], t.pointers[p]));
        }
    }
}

/// Checking an expression changes the meaning of no name but those of temporaries.
proof fn lemma_same_find(s: StackView, t: StackView, name: NameView)
    requires
        expr_effect(s, t),
        !is_temporary(name),
    ensures
        t.find(name) == s.find(name),
{
    reveal(expr_effect);
    if s.stack.len() > 0 {
        assert(same_binding(s.stack.last(), t.stack.last(), name));
        assert(s.stack.drop_last() =~= t.stack.drop_last());
    }
}

/// What completes an expression in a state completes it in one that knows all its functions.
proof fn lemma_completes_more(s: StackView, t: StackView, a: ExprView, b: ExprView)
    requires
        names_no_more(s, t),
        completes(t, a, b),
    ensures
        completes(s, a, b),
    decreases a, 0nat,
{
    match (a, b) {
        (ExprView::MemberAccess { lhs, .. }, ExprView::MemberAccess { lhs: lhs2, .. }) => {
            lemma_completes_more(s, t, *lhs, *lhs2);
        },
        (ExprView::ArrayAccess { lhs, .. }, ExprView::ArrayAccess { lhs: lhs2, .. }) => {
            lemma_completes_more(s, t, *lhs, *lhs2);
        },
        (ExprView::Call { name, args, .. }, ExprView::Call { args: args2, .. }) => {
            lemma_args_complete_more(s, t, name.name, args, args2);
        },
        (
            ExprView::InfixOperation { lhs, rhs, .. },
            ExprView::InfixOperation { lhs: lhs2, rhs: rhs2, .. },
        ) => {
            lemma_completes_more(s, t, *lhs, *lhs2);
            lemma_labeled_complete_more(s, t, rhs, rhs2);
        },
        (ExprView::Cast { expr, .. }, ExprView::Cast { expr: expr2, .. }) => {
            lemma_completes_more(s, t, *expr, *expr2);
        },
        (ExprView::UnaryPost { expr, .. }, ExprView::UnaryPost { expr: expr2, .. }) => {
            lemma_completes_more(s, t, *expr, *expr2);
        },
        (ExprView::UnaryPre { expr, .. }, ExprView::UnaryPre { expr: expr2, .. }) => {
            lemma_completes_more(s, t, *expr, *expr2);
        },
        (ExprView::StructInit { fields, .. }, ExprView::StructInit { fields: fields2, .. }) => {
            lemma_labeled_complete_more(s, t, fields, fields2);
        },
        (ExprView::ArrayInit { fields, .. }, ExprView::ArrayInit { fields: fields2, .. }) => {
            assert(all_complete(t, fields, fields2));
            assert forall|i: int| 0 <= i < fields.len() implies completes(
                s,
                #[trigger] fields[i],
                fields2[i],
            ) by {
                lemma_completes_more(s, t, fields[i], fields2[i]);
            }
            assert(all_complete(s, fields, fields2));
        },
        _ => {},
    }
}

proof fn lemma_labeled_complete_more(
    s: StackView,
    t: StackView,
    xs: Seq<LabeledView>,
    ys: Seq<LabeledView>,
)
    requires
        names_no_more(s, t),
        labeled_complete(t, xs, ys),
    ensures
        labeled_complete(s, xs, ys),
    decreases xs, 0nat,
{
    assert forall|i: int| 0 <= i < xs.len() implies ys[i].label == (#[trigger] xs[i]).label
        && completes(s, xs[i].expr, ys[i].expr) by {
        lemma_completes_more(s, t, xs[i].expr, ys[i].expr);
    }
}

proof fn lemma_args_complete_more(
    s: StackView,
    t: StackView,
    callee: NameView,
    xs: Seq<ExprView>,
    ys: Seq<ExprView>,
)
    requires
        names_no_more(s, t),
        args_complete(t, callee, xs, ys),
    ensures
        args_complete(s, callee, xs, ys),
    decreases xs, ys.len(),
{
    if ys.len() > 0 {
        if generated_by(t, callee, ys.last()) && args_complete(t, callee, xs, ys.drop_last()) {
            lemma_args_complete_more(s, t, callee, xs, ys.drop_last());
        } else {
            lemma_completes_more(s, t, xs.last(), ys.last());
            lemma_args_complete_more(s, t, callee, xs.drop_last(), ys.drop_last());
        }
    }
}

/// Checks `e` in the state `t`, which checking the first part of an expression in the state `s`
/// has led to.
proof fn lemma_part_is_completed(s: StackView, t: StackView, e: ExprView, access: Access)
    requires
        s.wf(),
        t.wf(),
        expr_effect(s, t),
    ensures
        check_expr(t, e, access) matches Ok(r) ==> {
            &&& completes(s, e, r.expr)
            &&& expr_effect(s, r.stack)
            &&& r.stack.wf()
        },
    decreases height(e), 1nat, 0nat,
{
    law_expr_is_completed(t, e, access);
    law_expr_effect(t, e, access);
    lemma_check_expr_keeps(t, e, access);
    lemma_effect_names_no_more(s, t);
    match check_expr(t, e, access) {
        Ok(r) => {
            lemma_completes_more(s, t, e, r.expr);
            lemma_effect_twice(s, t, r.stack);
        },
        Err(_) => {},
    }
}

/// Checking an expression adds to the arguments of its calls the literals that the called
/// functions have generated at the callsite, and changes nothing else of it.
pub proof fn law_expr_is_completed(s: StackView, e: ExprView, access: Access)
    requires
        s.wf(),
    ensures
        check_expr(s, e, access) matches Ok(r) ==> completes(s, e, r.expr),
    decreases height(e), 0nat, 0nat,
{
    lemma_completes_self(s, e);
    lemma_effect_self(s);
    match e {
        ExprView::Name(_) => {},
        ExprView::Literal { .. } => {},
        ExprView::MemberAccess { lhs, op, .. } => {
            let wanted = if op == "->"@ {
                Access::Value
            } else {
                access
            };
            law_expr_is_completed(s, *lhs, wanted);
        },
        ExprView::ArrayAccess { lhs, .. } => {
            law_expr_is_completed(s, *lhs, access);
        },
        ExprView::Call { loc, name, args } => {
            lemma_call_is_completed(s, loc, name, args);
        },
        ExprView::InfixOperation { lhs, rhs, .. } => {
            lemma_labeled_are_completed(s, s, rhs, 0, Seq::empty(), true);
            lemma_effect_labeled(s, rhs, 0, Seq::empty(), true);
            match check_labeled(s, rhs, 0, Seq::empty(), true) {
                Ok(rs) => {
                    lemma_part_is_completed(s, rs.stack, *lhs, Access::Value);
                },
                Err(_) => {},
            }
        },
        ExprView::Cast { expr, .. } => {
            law_expr_is_completed(s, *expr, access);
        },
        ExprView::UnaryPost { expr, .. } => {
            law_expr_is_completed(s, *expr, access);
        },
        ExprView::UnaryPre { loc, op, expr } => {
            lemma_unary_is_completed(s, loc, op, *expr, access);
        },
        ExprView::StructInit { fields, .. } => {
            lemma_labeled_are_completed(s, s, fields, 0, Seq::empty(), true);
        },
        ExprView::ArrayInit { fields, .. } => {
            lemma_elements_are_completed(s, s, fields, 0, Seq::empty(), true);
        },
    }
}

proof fn lemma_unary_is_completed(
    s: StackView,
    loc: Location,
    op: Text,
    expr: ExprView,
    access: Access,
)
    requires
        s.wf(),
    ensures
        check_unary(s, loc, op, expr, access) matches Ok(r) ==> completes(
            s,
            ExprView::UnaryPre { loc, op, expr: Box::new(expr) },
            r.expr,
        ),
    decreases height(expr), 4nat, 0nat,
{
    lemma_completes_self(s, expr);
    lemma_effect_self(s);
    if op == "&"@ {
        law_expr_is_completed(s, expr, Access::Storage);
    } else if op == "*"@ {
        lemma_twice_is_completed(s, s, expr);
    }
}

/// An expression that is checked for its value and then for its storage.
proof fn lemma_twice_is_completed(s: StackView, t: StackView, e: ExprView)
    requires
        s.wf(),
        t.wf(),
        expr_effect(s, t),
    ensures
        check_expr(t, e, Access::Value) matches Ok(r) ==> {
            &&& completes(s, e, r.expr)
            &&& check_expr_again(height(e), r.stack, r.expr, Access::Storage) matches Ok(again)
                ==> completes(s, e, again.expr)
        },
    decreases height(e), 2nat, 0nat,
{
    lemma_part_is_completed(s, t, e, Access::Value);
    match check_expr(t, e, Access::Value) {
        Ok(r) => {
            if height(r.expr) <= height(e) {
                lemma_part_is_completed(s, r.stack, r.expr, Access::Storage);
                match check_expr(r.stack, r.expr, Access::Storage) {
                    Ok(again) => {
                        lemma_completes_twice(s, e, r.expr, again.expr);
                    },
                    Err(_) => {},
                }
            }
        },
        Err(_) => {},
    }
}

proof fn lemma_call_is_completed(s: StackView, loc: Location, name: TypedView, args: Seq<ExprView>)
    requires
        s.wf(),
    ensures
        check_call(s, loc, name, args) matches Ok(r) ==> completes(
            s,
            ExprView::Call { loc, name, args },
            r.expr,
        ),
    decreases heights(args), 4nat, 0nat,
{
    let callee = name.name;
    lemma_args_complete_self(s, callee, args);
    if !is_ext(callee) {
        lemma_effect_check_name(s, callee, name.loc, Access::Value);
        lemma_extends_check_name(s, callee, name.loc, Access::Value);
        let (s1, value) = s.check_name(callee, name.loc, Access::Value);
        match value {
            LifetimeView::Function { ret, args: params, vararg } => {
                let full = completed(params, args, 0);
                lemma_completed_heights(params, args, 0);
                lemma_completed(s, callee, params, args, 0);
                if !count_mismatch(params.len(), full.len(), vararg) {
                    lemma_call_args_are_completed(s, s1, params, full, 0, Seq::empty());
                    match check_call_args(s1, params, full, 0, Seq::empty()) {
                        Ok((_, checked)) => {
                            lemma_args_complete_each(s, callee, full, checked);
                            lemma_args_complete_twice(s, callee, args, full, checked);
                        },
                        Err(_) => {},
                    }
                }
            },
            _ => {},
        }
    }
}

proof fn lemma_elements_are_completed(
    s: StackView,
    t: StackView,
    es: Seq<ExprView>,
    i: nat,
    done: Seq<ExprView>,
    all_static: bool,
)
    requires
        s.wf(),
        t.wf(),
        expr_effect(s, t),
        done.len() == i,
        i <= es.len(),
        forall|j: int| 0 <= j < i ==> completes(s, es[j], #[trigger] done[j]),
    ensures
        check_elements(t, es, i, done, all_static) matches Ok(rs) ==> all_complete(
            s,
            es,
            rs.exprs,
        ),
    decreases heights(es), 2nat, es.len() - i,
{
    if i < es.len() {
        lemma_heights(es, i as int);
        lemma_part_is_completed(s, t, es[i as int], Access::Value);
        match check_expr(t, es[i as int], Access::Value) {
            Ok(r) => {
                lemma_elements_are_completed(
                    s,
                    r.stack,
                    es,
                    i + 1,
                    done.push(r.expr),
                    all_static && r.value is Static,
                );
            },
            Err(_) => {},
        }
    } else {
        assert forall|j: int| 0 <= j < es.len() implies completes(
            s,
            #[trigger] es[j],
            done[j],
        ) by {
            assert(completes(s, es[j], done[j]));
        }
    }
}

proof fn lemma_labeled_are_completed(
    s: StackView,
    t: StackView,
    ls: Seq<LabeledView>,
    i: nat,
    done: Seq<LabeledView>,
    all_static: bool,
)
    requires
        s.wf(),
        t.wf(),
        expr_effect(s, t),
        done.len() == i,
        i <= ls.len(),
        forall|j: int|
            0 <= j < i ==> (#[trigger] done[j]).label == ls[j].label && completes(
                s,
                ls[j].expr,
                done[j].expr,
            ),
    ensures
        check_labeled(t, ls, i, done, all_static) matches Ok(rs) ==> labeled_complete(
            s,
            ls,
            rs.exprs,
        ),
    decreases labeled_heights(ls), 2nat, ls.len() - i,
{
    if i < ls.len() {
        lemma_labeled_heights(ls, i as int);
        lemma_part_is_completed(s, t, ls[i as int].expr, Access::Value);
        match check_expr(t, ls[i as int].expr, Access::Value) {
            Ok(r) => {
                lemma_labeled_are_completed(
                    s,
                    r.stack,
                    ls,
                    i + 1,
                    done.push(LabeledView { label: ls[i as int].label, expr: r.expr }),
                    all_static && r.value is Static,
                );
            },
            Err(_) => {},
        }
    } else {
        assert forall|j: int| 0 <= j < ls.len() implies done[j].label == (#[trigger] ls[j]).label
            && completes(s, ls[j].expr, done[j].expr) by {
            assert(done[j].label == ls[j].label);
        }
    }
}

proof fn lemma_call_args_are_completed(
    s: StackView,
    t: StackView,
    params: Seq<NamedArgView>,
    args: Seq<ExprView>,
    i: nat,
    done: Seq<ExprView>,
)
    requires
        s.wf(),
        t.wf(),
        expr_effect(s, t),
        done.len() == i,
        i <= args.len(),
        forall|j: int| 0 <= j < i ==> completes(s, args[j], #[trigger] done[j]),
    ensures
        check_call_args(t, params, args, i, done) matches Ok((_, es)) ==> all_complete(
            s,
            args,
            es,
        ),
    decreases heights(args), 3nat, params.len() - i,
{
    if i < params.len() && i < args.len() {
        let arg = args[i as int];
        lemma_heights(args, i as int);
        lemma_twice_is_completed(s, t, arg);
        lemma_effect_call_arg(t, params[i as int], arg);
        lemma_check_call_arg_keeps(t, params[i as int], arg);
        match check_call_arg(t, params[i as int], arg) {
            Ok((t1, out)) => {
                lemma_effect_twice(s, t, t1);
                lemma_call_args_are_completed(s, t1, params, args, i + 1, done.push(out));
            },
            Err(_) => {},
        }
    } else {
        lemma_rest_is_completed(s, args, i, done);
    }
}

proof fn lemma_rest_is_completed(
    s: StackView,
    args: Seq<ExprView>,
    i: nat,
    done: Seq<ExprView>,
)
    requires
        done.len() == i,
        i <= args.len(),
        forall|j: int| 0 <= j < i ==> completes(s, args[j], #[trigger] done[j]),
    ensures
        all_complete(s, args, done + args.skip(i as int)),
{
    let out = done + args.skip(i as int);
    assert forall|j: int| 0 <= j < args.len() implies completes(
        s,
        #[trigger] args[j],
        out[j],
    ) by {
        if j < i {
            assert(out[j] == done[j]);
        } else {
            assert(out[j] == args[j]);
            lemma_completes_self(s, args[j]);
        }
    }
}

/// Whether an expression that may be absent, checked in the state `s`, completes another.
pub open spec fn opt_completes(s: StackView, a: Option<ExprView>, b: Option<ExprView>) -> bool {
    match (a, b) {
        (Some(a), Some(b)) => completes(s, a, b),
        (None, None) => true,
        _ => false,
    }
}

/// The state that a check led to.
pub open spec fn led_to<T>(out: Result<(StackView, T), Stop>) -> StackView {
    out->Ok_0.0
}

/// The state in which the statement of number `i` of a block is checked.
pub open spec fn before_stm(s: StackView, stms: Seq<StmtView>, i: int) -> StackView {
    led_to(check_block(s, stms.take(i), 0, Seq::empty()))
}

/// Whether `b` is the statement `a`, checked in the state `s`, with generated literals added
/// among the arguments of calls, and nothing else changed. Each part is looked at in the state
/// that it is checked in.
pub open spec fn stm_completes(s: StackView, a: StmtView, b: StmtView) -> bool
    decreases a, 0nat,
{
    match a {
        StmtView::Mark { loc, lhs, key, value } => match b {
            StmtView::Mark { loc: loc2, lhs: lhs2, key: key2, value: value2 } => loc2 == loc && key2
                == key && value2 == value && completes(s, lhs, lhs2),
            _ => false,
        },
        StmtView::Block(block) => match b {
            StmtView::Block(block2) => block2.end == block.end && stms_complete(
                s.push("block"@),
                block.statements,
                block2.statements,
            ),
            _ => false,
        },
        StmtView::Cond { expr, body } => match b {
            StmtView::Cond { expr: expr2, body: body2 } => {
                let s1 = led_to(check_opt_expr(s.push("if"@), expr));
                &&& opt_completes(s.push("if"@), expr, expr2)
                &&& body2.end == body.end
                &&& stms_complete(s1, body.statements, body2.statements)
            },
            _ => false,
        },
        StmtView::For { e1, e2, e3, body } => match b {
            StmtView::For { e1: f1, e2: f2, e3: f3, body: body2 } => {
                let s1 = led_to(check_opt_stm(s.push("for"@), e1));
                let s2 = led_to(check_opt_stm(s1, e2));
                let s3 = led_to(check_opt_stm(s2, e3));
                &&& opt_stm_completes(s.push("for"@), e1, f1)
                &&& opt_stm_completes(s1, e2, f2)
                &&& opt_stm_completes(s2, e3, f3)
                &&& body2.end == body.end
                &&& stms_complete(s3, body.statements, body2.statements)
            },
            _ => false,
        },
        StmtView::Expr { loc, expr } => match b {
            StmtView::Expr { loc: loc2, expr: expr2 } => loc2 == loc && completes(s, expr, expr2),
            _ => false,
        },
        StmtView::Var { loc, name, tags, assign } => match b {
            StmtView::Var { loc: loc2, name: name2, tags: tags2, assign: assign2 } => {
                let s1 = s.local(
                    None,
                    pieces(name),
                    loc,
                    inserted(tags, "stack"@, Seq::empty(), loc),
                );
                &&& loc2 == loc
                &&& name2 == name
                &&& tags2 == tags
                &&& opt_completes(s1, assign, assign2)
            },
            _ => false,
        },
        StmtView::Assign { loc, lhs, rhs } => match b {
            StmtView::Assign { loc: loc2, lhs: lhs2, rhs: rhs2 } => {
                &&& loc2 == loc
                &&& completes(s, rhs, rhs2)
                &&& completes(check_expr(s, rhs, Access::Value)->Ok_0.stack, lhs, lhs2)
            },
            _ => false,
        },
        StmtView::Return { loc, expr } => match b {
            StmtView::Return { loc: loc2, expr: expr2 } => loc2 == loc && opt_completes(
                s,
                expr,
                expr2,
            ),
            _ => false,
        },
        StmtView::Goto { .. } => b == a,
        StmtView::Label { .. } => b == a,
        StmtView::Break { .. } => b == a,
    }
}

/// Whether a statement that may be absent, checked in the state `s`, completes another.
pub open spec fn opt_stm_completes(
    s: StackView,
    a: Option<Box<StmtView>>,
    b: Option<Box<StmtView>>,
) -> bool
    decreases a, 0nat,
{
    match a {
        Some(a) => match b {
            Some(b) => stm_completes(s, *a, *b),
            None => false,
        },
        None => b is None,
    }
}

/// Whether each of `ys` completes the statement of `xs` in its place, checked in the state that
/// the ones before it led to.
pub open spec fn stms_complete(s: StackView, xs: Seq<StmtView>, ys: Seq<StmtView>) -> bool
    decreases xs, ys.len(),
{
    &&& xs.len() == ys.len()
    &&& forall|i: int|
        0 <= i < xs.len() ==> stm_completes(before_stm(s, xs, i), #[trigger] xs[i], ys[i])
}

proof fn lemma_opt_expr_is_completed(s: StackView, e: Option<ExprView>)
    requires
        s.wf(),
    ensures
        check_opt_expr(s, e) matches Ok((_, f)) ==> opt_completes(s, e, f),
{
    match e {
        Some(e) => {
            law_expr_is_completed(s, e, Access::Value);
        },
        None => {},
    }
}

/// Checking a statement adds to the arguments of its calls the literals that the called functions
/// have generated at the callsite, and changes nothing else of it.
pub proof fn law_stm_is_completed(s: StackView, stm: StmtView)
    requires
        s.wf(),
    ensures
        check_stm(s, stm) matches Ok((_, out)) ==> stm_completes(s, stm, out),
    decreases stm, 0nat,
{
    match stm {
        StmtView::Mark { lhs, .. } => {
            law_expr_is_completed(s, lhs, Access::Storage);
        },
        StmtView::Block(block) => {
            lemma_push_wf(s, "block"@);
            lemma_block_is_completed(s.push("block"@), block.statements);
        },
        StmtView::Cond { expr, body } => {
            let s0 = s.push("if"@);
            lemma_push_wf(s, "if"@);
            lemma_opt_expr_is_completed(s0, expr);
            lemma_check_opt_expr_keeps(s0, expr);
            match check_opt_expr(s0, expr) {
                Ok((s1, _)) => {
                    lemma_block_is_completed(s1, body.statements);
                },
                Err(_) => {},
            }
        },
        StmtView::For { e1, e2, e3, body } => {
            let s0 = s.push("for"@);
            lemma_push_wf(s, "for"@);
            lemma_opt_stm_is_completed(s0, e1);
            lemma_check_opt_stm_keeps(s0, e1);
            match check_opt_stm(s0, e1) {
                Ok((s1, _)) => {
                    lemma_opt_stm_is_completed(s1, e2);
                    lemma_check_opt_stm_keeps(s1, e2);
                    match check_opt_stm(s1, e2) {
                        Ok((s2, _)) => {
                            lemma_opt_stm_is_completed(s2, e3);
                            lemma_check_opt_stm_keeps(s2, e3);
                            match check_opt_stm(s2, e3) {
                                Ok((s3, _)) => {
                                    lemma_block_is_completed(s3, body.statements);
                                },
                                Err(_) => {},
                            }
                        },
                        Err(_) => {},
                    }
                },
                Err(_) => {},
            }
        },
        StmtView::Expr { expr, .. } => {
            law_expr_is_completed(s, expr, Access::Value);
        },
        StmtView::Var { loc, name, tags, assign } => {
            if s.stack.len() > 0 {
                let tags1 = inserted(tags, "stack"@, Seq::empty(), loc);
                lemma_extends_local(s, None, pieces(name), loc, tags1);
                lemma_opt_expr_is_completed(s.local(None, pieces(name), loc, tags1), assign);
            }
        },
        StmtView::Assign { lhs, rhs, .. } => {
            law_expr_is_completed(s, rhs, Access::Value);
            lemma_check_expr_keeps(s, rhs, Access::Value);
            match check_expr(s, rhs, Access::Value) {
                Ok(from) => {
                    let report = ReportOf::InvalidRvalue { loc: expr_loc(from.expr) };
                    lemma_effect_self(from.stack);
                    lemma_effect_report(from.stack, report);
                    lemma_extends_report(from.stack, report);
                    let s1 = if from.value is Uninitialized {
                        from.stack.report(report)
                    } else {
                        from.stack
                    };
                    lemma_part_is_completed(from.stack, s1, lhs, Access::Storage);
                },
                Err(_) => {},
            }
        },
        StmtView::Return { expr, .. } => {
            lemma_opt_expr_is_completed(s, expr);
        },
        _ => {},
    }
}

proof fn lemma_opt_stm_is_completed(s: StackView, stm: Option<Box<StmtView>>)
    requires
        s.wf(),
    ensures
        check_opt_stm(s, stm) matches Ok((_, out)) ==> opt_stm_completes(s, stm, out),
    decreases stm, 0nat,
{
    match stm {
        Some(stm) => {
            law_stm_is_completed(s, *stm);
        },
        None => {},
    }
}

proof fn lemma_block_is_completed(s: StackView, stms: Seq<StmtView>)
    requires
        s.wf(),
    ensures
        check_block(s, stms, 0, Seq::empty()) matches Ok((_, out)) ==> stms_complete(s, stms, out),
    decreases stms, stms.len() + 1,
{
    assert(stms.take(0) =~= Seq::empty());
    lemma_rest_of_block_is_completed(s, s, stms, 0, Seq::empty());
}

/// The statements from the one of number `i` on, which is checked in the state `t`.
proof fn lemma_rest_of_block_is_completed(
    s: StackView,
    t: StackView,
    stms: Seq<StmtView>,
    i: nat,
    done: Seq<StmtView>,
)
    requires
        t.wf(),
        done.len() == i,
        i <= stms.len(),
        check_block(s, stms.take(i as int), 0, Seq::empty()) matches Ok((u, _)) && u == t,
        forall|j: int|
            0 <= j < i ==> stm_completes(before_stm(s, stms, j), stms[j], #[trigger] done[j]),
    ensures
        check_block(t, stms, i, done) matches Ok((_, out)) ==> stms_complete(s, stms, out),
    decreases stms, stms.len() - i,
{
    if i < stms.len() {
        let stm = stms[i as int];
        law_stm_is_completed(t, stm);
        lemma_check_stm_keeps(t, stm);
        match check_stm(t, stm) {
            Ok((t1, out)) => {
                let front = stms.take(i as int);
                let one = seq![stm];
                assert(front + one =~= stms.take((i + 1) as int));
                law_blocks_concatenate(s, front, one);
                assert(check_block(t1, one, 1, Seq::empty().push(out)) is Ok);
                lemma_rest_of_block_is_completed(s, t1, stms, i + 1, done.push(out));
            },
            Err(_) => {},
        }
    } else {
        assert forall|j: int| 0 <= j < stms.len() implies stm_completes(
            before_stm(s, stms, j),
            #[trigger] stms[j],
            done[j],
        ) by {
            assert(stm_completes(before_stm(s, stms, j), stms[j], done[j]));
        }
    }
}

/// Whether `b` is the item `a`, checked in the state `s`, with generated literals added among the
/// arguments of calls in the body of a function, and nothing else changed.
pub open spec fn item_completes(s: StackView, a: DView, b: DView) -> bool {
    match a {
        DView::Include(_) => b == a,
        DView::Local(local) => b matches DView::Local(local2) && local_completes(
            s,
            local,
            local2,
        ),
    }
}

/// Whether `b` is the definition `a`, checked in the state `s`, with generated literals added
/// among the arguments of calls in the body of a function, and nothing else changed.
pub open spec fn local_completes(s: StackView, a: LocalView, b: LocalView) -> bool {
    match a.def {
        DefView::Function { ret, args, vararg, body } => {
            &&& b.def matches DefView::Function {
                ret: ret2,
                args: args2,
                vararg: vararg2,
                body: body2,
            }
            &&& b.name == a.name
            &&& b.loc == a.loc
            &&& ret2 == ret
            &&& args2 == args
            &&& vararg2 == vararg
            &&& body2.end == body.end
            &&& stms_complete(
                entered(s, a.name, a.loc, ret, args).0,
                body.statements,
                body2.statements,
            )
        },
        _ => b == a,
    }
}

proof fn lemma_local_is_completed(s: StackView, local: LocalView)
    requires
        s.wf(),
        s.stack.len() > 0,
    ensures
        check_local(s, local) matches Ok((_, out)) ==> local_completes(s, local, out),
{
    match local.def {
        DefView::Function { ret, args, body, .. } => {
            lemma_entered_keeps(s, local.name, local.loc, ret, args);
            lemma_block_is_completed(
                entered(s, local.name, local.loc, ret, args).0,
                body.statements,
            );
        },
        _ => {},
    }
}

/// Entering a function leads to a well formed state.
proof fn lemma_entered_keeps(
    s: StackView,
    name: Text,
    loc: Location,
    ret: Option<TypedView>,
    args: Seq<NamedArgView>,
)
    requires
        s.wf(),
        s.stack.len() > 0,
    ensures
        entered(s, name, loc, ret, args).0.wf(),
{
    let s1 = s.local(None, pieces(name), loc, Seq::empty());
    lemma_extends_local(s, None, pieces(name), loc, Seq::empty());
    if ret is Some {
        lemma_define_return_keeps(s1, name, ret->Some_0, 0, LifetimeView::Static);
    }
    let s2 = match ret {
        Some(typed) => define_return(s1, name, typed, 0, LifetimeView::Static).0,
        None => s1,
    };
    lemma_push_wf(s2, name);
    lemma_define_args_keeps(s2.push(name), args, 0);
}

proof fn lemma_items_are_completed(md: ModuleView, s: StackView, i: nat, done: Seq<DView>)
    requires
        check_module(md) is Ok,
        done.len() == i,
        i <= md.d.len(),
        after_items(md, i) == Ok::<_, Stop>(s),
        forall|j: int|
            0 <= j < i ==> item_completes(
                after_items(md, j as nat)->Ok_0,
                md.d[j],
                #[trigger] done[j],
            ),
    ensures
        check_items(s, md.d, i, done) matches Ok((_, out)) ==> {
            &&& out.len() == md.d.len()
            &&& forall|j: int|
                0 <= j < md.d.len() ==> item_completes(
                    after_items(md, j as nat)->Ok_0,
                    md.d[j],
                    #[trigger] out[j],
                )
        },
    decreases md.d.len() - i,
{
    if i < md.d.len() {
        lemma_item_errors(md, i);
        lemma_item_step(md, i);
        match md.d[i as int] {
            DView::Include(_) => {
                lemma_items_are_completed(md, s, i + 1, done.push(md.d[i as int]));
            },
            DView::Local(local) => {
                lemma_local_is_completed(s, local);
                match check_local(s, local) {
                    Ok((s1, out)) => {
                        lemma_items_are_completed(md, s1, i + 1, done.push(DView::Local(out)));
                    },
                    Err(_) => {},
                }
            },
        }
    }
}

/// Checking a module adds to the arguments of calls, in the bodies of its functions, the literals
/// that the called functions have generated at the callsite. No argument is taken away, moved or
/// rewritten, and nothing else is changed.
pub proof fn law_module_is_completed(md: ModuleView)
    ensures
        check_module(md) matches Ok((_, out)) ==> {
            &&& out.name == md.name
            &&& out.c_names == md.c_names
            &&& out.d.len() == md.d.len()
            &&& forall|j: int|
                0 <= j < md.d.len() ==> item_completes(
                    after_items(md, j as nat)->Ok_0,
                    md.d[j],
                    #[trigger] out.d[j],
                )
        },
{
    if check_module(md) is Ok {
        let s = define_c_names(StackView::empty().push("static"@), md.c_names, 0);
        assert(md.d.take(0) =~= Seq::empty());
        assert(after_items(md, 0) == Ok::<_, Stop>(s));
        lemma_items_are_completed(md, s, 0, Seq::empty());
    }
}

} // verus!
