//! What holds of the checker as a whole.

use vstd::prelude::*;
use crate::ast::{
    DefView, ExprView, LocalView, ModuleView, NamedArgView, PointerView, StmtView, TypedView,
};
use crate::lifetimes::frame::{
    extends, frame, lemma_check_block_keeps, lemma_check_expr_keeps, lemma_check_items_keeps,
    lemma_check_opt_expr_keeps, lemma_check_opt_stm_keeps, lemma_define_args_keeps,
    lemma_define_c_names_keeps, lemma_define_return_keeps, lemma_extends_local,
    lemma_extends_scope, lemma_extends_self, lemma_extends_twice, lemma_extends_write, same_item,
};
use crate::lifetimes::rules::{
    assigned, behind_pointer, check_block, check_expr, check_expr_again, check_items, check_level,
    check_local, check_module, check_opt_expr, check_opt_stm, check_stm, cleaned, define_arg,
    define_arg_levels, define_args, define_c_names, define_return, entered, height, marked,
    tainted,
};
use crate::lifetimes::state::{
    Access, LifetimeView, StackView, binds, lemma_points_below, lemma_push_wf,
};
use crate::location::Location;
use crate::name::NameView;
use crate::report::{ReportOf, ReportView, is_error};
use crate::tags::{
    TagView, TagsView, has_key, has_value, inserted, law_inserted_is_there, law_removed_is_gone,
    lemma_filtered_is_there, lemma_values, values,
};
use crate::text::{Text, decimal, lemma_split_then_join, pieces};

verus! {

/// A state that extends one with an error has that error too.
pub proof fn law_errors_stay(s: StackView, t: StackView)
    requires
        extends(s, t),
        s.abort(),
    ensures
        t.abort(),
{
    reveal(frame);
    let i = choose|i: int| 0 <= i < s.reports.len() && is_error(#[trigger] s.reports[i]);
    assert(t.reports.take(s.reports.len() as int)[i] == s.reports[i]);
    assert(is_error(t.reports[i]));
}

/// Once an error is found in a block, nothing in the rest of it makes the checker forget it.
pub proof fn law_block_keeps_errors(s: StackView, stms: Seq<StmtView>, i: nat, done: Seq<StmtView>)
    requires
        s.wf(),
        s.abort(),
    ensures
        check_block(s, stms, i, done) matches Ok((t, _)) ==> t.abort(),
{
    lemma_check_block_keeps(s, stms, i, done);
    match check_block(s, stms, i, done) {
        Ok((t, _)) => {
            law_errors_stay(s, t);
        },
        Err(_) => {},
    }
}

/// Once an error is found, checking an expression does not make the checker forget it.
pub proof fn law_expr_keeps_errors(s: StackView, e: ExprView, access: Access)
    requires
        s.wf(),
        s.abort(),
    ensures
        check_expr(s, e, access) matches Ok(r) ==> r.stack.abort(),
{
    lemma_check_expr_keeps(s, e, access);
    match check_expr(s, e, access) {
        Ok(r) => {
            law_errors_stay(s, r.stack);
        },
        Err(_) => {},
    }
}

/// To check an expression again, after it was checked, is to check it as any other: the bound on
/// its height is never in the way.
pub proof fn law_checking_again_is_checking(
    s: StackView,
    e: ExprView,
    first: Access,
    second: Access,
)
    requires
        s.wf(),
    ensures
        check_expr(s, e, first) matches Ok(r) ==> check_expr_again(
            height(e),
            r.stack,
            r.expr,
            second,
        ) == check_expr(r.stack, r.expr, second),
{
    lemma_check_expr_keeps(s, e, first);
}

/// New storage is what its name means, and no other name changes its meaning.
pub proof fn law_local_is_found(
    s: StackView,
    typ: Option<TypedView>,
    name: NameView,
    loc: Location,
    tags: TagsView,
    other: NameView,
)
    requires
        s.stack.len() > 0,
    ensures
        s.local(typ, name, loc, tags).find(name) == Some(s.pointers.len()),
        other != name ==> s.local(typ, name, loc, tags).find(other) == s.find(other),
{
    let t = s.local(typ, name, loc, tags);
    assert(t.stack.drop_last() =~= s.stack.drop_last());
}

/// Opening a scope changes the meaning of no name.
pub proof fn law_push_hides_nothing(s: StackView, scope: Text, name: NameView)
    ensures
        s.push(scope).find(name) == s.find(name),
{
    assert(s.push(scope).stack.drop_last() =~= s.stack);
}

/// Closing a scope brings back what names meant before it was opened.
pub proof fn law_pop_undoes_push(s: StackView, scope: Text, t: StackView, end: Location)
    requires
        s.wf(),
        extends(s.push(scope), t),
    ensures
        t.pop(end).stack == s.stack,
        forall|name: NameView| t.pop(end).find(name) == s.find(name),
{
    lemma_extends_scope(s, scope, t, end);
}

/// No name that is declared inside a block, a condition or a loop is known behind it.
pub proof fn law_no_name_escapes(s: StackView, stm: StmtView)
    requires
        s.wf(),
        stm is Block || stm is Cond || stm is For,
    ensures
        check_stm(s, stm) matches Ok((t, _)) ==> t.stack == s.stack,
{
    match stm {
        StmtView::Block(block) => {
            lemma_push_wf(s, "block"@);
            lemma_check_block_keeps(s.push("block"@), block.statements, 0, Seq::empty());
            match check_block(s.push("block"@), block.statements, 0, Seq::empty()) {
                Ok((t, _)) => {
                    lemma_extends_scope(s, "block"@, t, block.end);
                },
                Err(_) => {},
            }
        },
        StmtView::Cond { expr, body } => {
            let s0 = s.push("if"@);
            lemma_push_wf(s, "if"@);
            lemma_check_opt_expr_keeps(s0, expr);
            match check_opt_expr(s0, expr) {
                Ok((s1, _)) => {
                    lemma_check_block_keeps(s1, body.statements, 0, Seq::empty());
                    match check_block(s1, body.statements, 0, Seq::empty()) {
                        Ok((t, _)) => {
                            lemma_extends_twice(s0, s1, t);
                            lemma_extends_scope(s, "if"@, t, body.end);
                        },
                        Err(_) => {},
                    }
                },
                Err(_) => {},
            }
        },
        StmtView::For { e1, e2, e3, body } => {
            let s0 = s.push("for"@);
            lemma_push_wf(s, "for"@);
            lemma_check_opt_stm_keeps(s0, e1);
            match check_opt_stm(s0, e1) {
                Ok((s1, _)) => {
                    lemma_check_opt_stm_keeps(s1, e2);
                    match check_opt_stm(s1, e2) {
                        Ok((s2, _)) => {
                            lemma_extends_twice(s0, s1, s2);
                            lemma_check_opt_stm_keeps(s2, e3);
                            match check_opt_stm(s2, e3) {
                                Ok((s3, _)) => {
                                    lemma_extends_twice(s0, s2, s3);
                                    lemma_check_block_keeps(s3, body.statements, 0, Seq::empty());
                                    match check_block(s3, body.statements, 0, Seq::empty()) {
                                        Ok((t, _)) => {
                                            lemma_extends_twice(s0, s3, t);
                                            lemma_extends_scope(s, "for"@, t, body.end);
                                        },
                                        Err(_) => {},
                                    }
                                },
                                Err(_) => {},
                            }
                        },
                        Err(_) => {},
                    }
                },
                Err(_) => {},
            }
        },
        _ => {},
    }
}

/// What the innermost scope binds cannot be used behind the end of that scope: neither its value
/// nor its address can be read without an error.
pub proof fn law_dropped_is_unusable(
    s: StackView,
    end: Location,
    name: NameView,
    used_here: Location,
    access: Access,
)
    requires
        s.wf(),
        s.stack.len() > 0,
        s.stack.last().locals.contains_key(name),
    ensures
        ({
            let p = s.stack.last().locals[name];
            let t = s.pop(end);
            t.read(p, used_here, access) == (
                t.report(
                    ReportOf::DroppedRead {
                        name: s.pointers[p as int].name,
                        used_here,
                        stored_here: s.pointers[p as int].stored_here,
                        dropped_here: end,
                    },
                ),
                LifetimeView::Uninitialized,
            ) && t.read(p, used_here, access).0.abort()
        }),
{
    let p = s.stack.last().locals[name];
    assert(s.stack[s.stack.len() - 1].locals.contains_key(name));
    assert(binds(s.stack.last().locals, p));
    let t = s.pop(end);
    let u = t.read(p, used_here, access).0;
    assert(is_error(u.reports[u.reports.len() - 1]));
}

/// Closing a scope leaves alone what it does not bind.
pub proof fn law_pop_spares_the_rest(s: StackView, end: Location, p: nat)
    requires
        s.stack.len() > 0,
        p < s.pointers.len(),
        !binds(s.stack.last().locals, p),
    ensures
        s.pop(end).pointers[p as int] == s.pointers[p as int],
{
}

/// A scope drops nothing that was there before it was opened.
pub proof fn law_scope_drops_only_its_own(
    s: StackView,
    scope: Text,
    t: StackView,
    end: Location,
    p: nat,
)
    requires
        extends(s.push(scope), t),
        p < s.pointers.len(),
    ensures
        t.pop(end).pointers[p as int] == t.pointers[p as int],
{
    reveal(frame);
    assert(s.push(scope).stack.last().locals =~= Map::empty());
    assert(!binds(t.stack.last().locals, p));
}

/// Whether a value can be read by whoever is allowed to.
pub open spec fn readable(value: LifetimeView) -> bool {
    value is Static || value is Pointer || value is Function
}

/// A read gives back what was written last, without a report, unless the storage is unsafe.
pub proof fn law_read_gives_back_write(
    s: StackView,
    p: nat,
    value: LifetimeView,
    written_here: Location,
    used_here: Location,
)
    requires
        p < s.pointers.len(),
        readable(value),
        !has_key(s.pointers[p as int].tags, "unsafe"@),
    ensures
        s.write(p, value, written_here).read(p, used_here, Access::Value) == (
            s.write(p, value, written_here),
            value,
        ),
{
}

/// A write changes what is read from one storage location only.
pub proof fn law_write_spares_the_rest(
    s: StackView,
    p: nat,
    value: LifetimeView,
    written_here: Location,
    q: nat,
    used_here: Location,
    access: Access,
)
    requires
        p < s.pointers.len(),
        q < s.pointers.len(),
        p != q,
    ensures
        s.write(p, value, written_here).read(q, used_here, access).1 == s.read(
            q,
            used_here,
            access,
        ).1,
{
}

/// A read changes nothing but the reports, and reports at most one error.
pub proof fn law_read_only_reports(s: StackView, p: nat, used_here: Location, access: Access)
    ensures
        s.read(p, used_here, access).0 == s || exists|r: ReportView|
            is_error(r) && s.read(p, used_here, access).0 == #[trigger] s.report(r),
{
    let t = s.read(p, used_here, access).0;
    if t != s {
        assert(t == s.report(t.reports.last()));
    }
}

/// A read succeeds without a report exactly if it gives an address of storage that is not
/// dropped, or a value that is readable from storage that is not unsafe.
pub proof fn law_read_succeeds_iff(s: StackView, p: nat, used_here: Location, access: Access)
    ensures
        s.read(p, used_here, access).0 == s <==> {
            let storage = s.pointers[p as int];
            if access == Access::Storage {
                !(storage.value is Dropped)
            } else {
                readable(storage.value) && !has_key(storage.tags, "unsafe"@)
            }
        },
{
    let t = s.read(p, used_here, access).0;
    if t.reports.len() == s.reports.len() + 1 {
        assert(t != s);
    }
}

/// What was given away cannot be read.
pub proof fn law_moved_is_unreadable(
    s: StackView,
    p: nat,
    moved_here: Location,
    used_here: Location,
)
    requires
        p < s.pointers.len(),
    ensures
        s.give_away(p, moved_here).read(p, used_here, Access::Value).1 is Uninitialized,
        s.give_away(p, moved_here).read(p, used_here, Access::Value).0.abort(),
{
    let u = s.give_away(p, moved_here).read(p, used_here, Access::Value).0;
    assert(is_error(u.reports[u.reports.len() - 1]));
}

/// Passing storage to a parameter that moves it gives it away, or is an error.
pub proof fn law_move_gives_away(s: StackView, ptr: PointerView, callsite: Location, to: nat)
    requires
        to < s.pointers.len(),
        has_key(ptr.tags, "move"@),
    ensures
        ({
            let (t, deeper) = check_level(s, ptr, callsite, to);
            !deeper && (t.abort() || t.pointers[to as int].value == LifetimeView::Moved {
                moved_here: callsite,
            })
        }),
{
    let t = check_level(s, ptr, callsite, to).0;
    if t.reports.len() > s.reports.len() {
        assert(is_error(t.reports[t.reports.len() - 1]));
    }
}

/// Storage on the stack, and storage that is only borrowed, cannot be given away: passing it to
/// a parameter that moves it is an error and leaves its value alone.
pub proof fn law_borrowed_is_not_moved(
    s: StackView,
    ptr: PointerView,
    callsite: Location,
    to: nat,
)
    requires
        to < s.pointers.len(),
        has_key(ptr.tags, "move"@),
        has_key(s.pointers[to as int].tags, "stack"@) || has_key(
            s.pointers[to as int].tags,
            "borrowed"@,
        ),
    ensures
        check_level(s, ptr, callsite, to).0.abort(),
        check_level(s, ptr, callsite, to).0.pointers[to as int].value
            == s.pointers[to as int].value,
{
    let tags = s.pointers[to as int].tags;
    let clean = cleaned(tags, ptr.tags);
    let taints = values(ptr.tags, "taint"@);
    reveal_strlit("tainted");
    reveal_strlit("stack");
    reveal_strlit("borrowed");
    assert("tainted"@.len() != "stack"@.len());
    assert("tainted"@.len() != "borrowed"@.len());
    let key = if has_key(tags, "stack"@) {
        "stack"@
    } else {
        "borrowed"@
    };
    lemma_cleaned_other(tags, ptr.tags, key);
    lemma_tainted_other(clean, taints, callsite, 0, key);
    let t = check_level(s, ptr, callsite, to).0;
    assert(is_error(t.reports[t.reports.len() - 1]));
}

/// Setting taints sets nothing else: a key other than `tainted` is set exactly if it was.
proof fn lemma_tainted_other(
    tags: TagsView,
    taints: TagsView,
    callsite: Location,
    i: nat,
    key: Text,
)
    requires
        key != "tainted"@,
    ensures
        has_key(tainted(tags, taints, callsite, i), key) == has_key(tags, key),
    decreases taints.len() - i,
{
    if i < taints.len() {
        let v = taints[i as int].value;
        law_inserted_is_there(tags, "tainted"@, v, callsite, key, v);
        lemma_tainted_other(inserted(tags, "tainted"@, v, callsite), taints, callsite, i + 1, key);
    }
}

/// Cleaning takes taints off and nothing else.
proof fn lemma_cleaned_other(tags: TagsView, known: TagsView, key: Text)
    requires
        key != "tainted"@,
    ensures
        has_key(cleaned(tags, known), key) == has_key(tags, key),
{
    let stays = |t: TagView| !(t.key == "tainted"@ && has_value(known, "untaint"@, t.value));
    lemma_filtered_is_there(tags, stays, key, key);
}

/// A taint is set exactly if it was, or is one of those that are set now.
proof fn lemma_tainted_values(
    tags: TagsView,
    taints: TagsView,
    callsite: Location,
    i: nat,
    value: Text,
)
    ensures
        has_value(tainted(tags, taints, callsite, i), "tainted"@, value) <==> has_value(
            tags,
            "tainted"@,
            value,
        ) || exists|j: int| i <= j < taints.len() && (#[trigger] taints[j]).value == value,
    decreases taints.len() - i,
{
    if i < taints.len() {
        let v = taints[i as int].value;
        law_inserted_is_there(tags, "tainted"@, v, callsite, "tainted"@, value);
        lemma_tainted_values(
            inserted(tags, "tainted"@, v, callsite),
            taints,
            callsite,
            i + 1,
            value,
        );
    }
}

/// Storage that carries a taint which the parameter does not take off cannot be passed: that is
/// an error, and the storage keeps its value.
pub proof fn law_tainted_is_not_passed(
    s: StackView,
    ptr: PointerView,
    callsite: Location,
    to: nat,
    taint: Text,
)
    requires
        to < s.pointers.len(),
        has_value(s.pointers[to as int].tags, "tainted"@, taint),
        !has_value(ptr.tags, "untaint"@, taint),
    ensures
        check_level(s, ptr, callsite, to).0.abort(),
        !check_level(s, ptr, callsite, to).1,
        check_level(s, ptr, callsite, to).0.pointers[to as int].value
            == s.pointers[to as int].value,
{
    let tags = s.pointers[to as int].tags;
    let stays = |t: TagView| !(t.key == "tainted"@ && has_value(ptr.tags, "untaint"@, t.value));
    lemma_filtered_is_there(tags, stays, "tainted"@, taint);
    let t = check_level(s, ptr, callsite, to).0;
    assert(is_error(t.reports[t.reports.len() - 1]));
}

/// A parameter that takes off the taints which another one set leaves no taint behind, on
/// storage that carried none before.
pub proof fn law_untaint_undoes_taint(
    tags: TagsView,
    setter: TagsView,
    callsite: Location,
    known: TagsView,
)
    requires
        !has_key(tags, "tainted"@),
        forall|v: Text| #[trigger]
            has_value(setter, "taint"@, v) ==> has_value(known, "untaint"@, v),
    ensures
        !has_key(
            cleaned(tainted(tags, values(setter, "taint"@), callsite, 0), known),
            "tainted"@,
        ),
{
    let taints = values(setter, "taint"@);
    let all = tainted(tags, taints, callsite, 0);
    let stays = |t: TagView| !(t.key == "tainted"@ && has_value(known, "untaint"@, t.value));
    lemma_filtered_is_there(all, stays, "tainted"@, "tainted"@);
    assert forall|i: int|
        0 <= i < all.len() && (#[trigger] all[i]).key == "tainted"@ implies !stays(all[i]) by {
        let v = all[i].value;
        assert(has_value(all, "tainted"@, v));
        lemma_tainted_values(tags, taints, callsite, 0, v);
        lemma_values(setter, "taint"@, v);
        assert(has_value(setter, "taint"@, v));
    }
}

/// Unsafe storage cannot be passed to a parameter that takes safe storage: that is an error,
/// unless the parameter takes the storage away altogether.
pub proof fn law_unsafe_is_not_passed(s: StackView, ptr: PointerView, callsite: Location, to: nat)
    requires
        to < s.pointers.len(),
        has_key(s.pointers[to as int].tags, "unsafe"@),
        !has_key(ptr.tags, "unsafe"@),
        !has_key(ptr.tags, "move"@),
    ensures
        check_level(s, ptr, callsite, to).0.abort(),
        !check_level(s, ptr, callsite, to).1,
{
    reveal_strlit("tainted");
    reveal_strlit("unsafe");
    assert("tainted"@.len() != "unsafe"@.len());
    let tags = s.pointers[to as int].tags;
    lemma_cleaned_other(tags, ptr.tags, "unsafe"@);
    lemma_tainted_other(
        cleaned(tags, ptr.tags),
        values(ptr.tags, "taint"@),
        callsite,
        0,
        "unsafe"@,
    );
    let t = check_level(s, ptr, callsite, to).0;
    assert(is_error(t.reports[t.reports.len() - 1]));
}

/// Storage that is not mutable cannot be passed to a parameter that changes it.
pub proof fn law_const_is_not_passed_as_mutable(
    s: StackView,
    ptr: PointerView,
    callsite: Location,
    to: nat,
)
    requires
        has_key(ptr.tags, "mutable"@),
        !has_key(s.pointers[to as int].tags, "mutable"@),
    ensures
        check_level(s, ptr, callsite, to) == (
            s.report(
                ReportOf::ConstArg { callsite, stored_here: s.pointers[to as int].stored_here },
            ),
            false,
        ),
        check_level(s, ptr, callsite, to).0.abort(),
{
    let t = check_level(s, ptr, callsite, to).0;
    assert(is_error(t.reports[t.reports.len() - 1]));
}

/// An assignment reports an error exactly if the storage is not mutable, and stores the value
/// either way.
pub proof fn law_assignment(s: StackView, to: nat, value: LifetimeView, loc: Location)
    requires
        to < s.pointers.len(),
    ensures
        assigned(s, LifetimeView::Pointer(to), value, loc).pointers[to as int].value == value,
        assigned(s, LifetimeView::Pointer(to), value, loc).pointers[to as int].changed_here
            == Some(loc),
        assigned(s, LifetimeView::Pointer(to), value, loc).reports == if has_key(
            s.pointers[to as int].tags,
            "mutable"@,
        ) {
            s.reports
        } else {
            s.reports.push(
                ReportOf::ImmutableAssign { loc, stored_here: s.pointers[to as int].stored_here },
            )
        },
{
}

/// Unsafe storage can be read as soon as it is marked safe.
pub proof fn law_safe_makes_readable(
    s: StackView,
    p: nat,
    value: Text,
    loc: Location,
    used_here: Location,
)
    requires
        p < s.pointers.len(),
        readable(s.pointers[p as int].value),
    ensures
        ({
            let t = s.set_tags(p, marked(s.pointers[p as int].tags, "safe"@, value, loc));
            t.read(p, used_here, Access::Value) == (t, s.pointers[p as int].value)
        }),
{
    law_removed_is_gone(s.pointers[p as int].tags, "unsafe"@, "unsafe"@, value);
}

/// Marking storage pure takes every taint off it.
pub proof fn law_pure_takes_taints_off(tags: TagsView, value: Text, loc: Location)
    ensures
        !has_key(marked(tags, "pure"@, value, loc), "tainted"@),
{
    reveal_strlit("pure");
    reveal_strlit("safe");
    assert("pure"@[0] != "safe"@[0]);
    law_removed_is_gone(tags, "tainted"@, "tainted"@, value);
}

/// Making storage for what a function returns changes nothing that is there, and binds one name
/// only.
proof fn lemma_define_return_spares(
    s: StackView,
    function: Text,
    typed: TypedView,
    i: nat,
    inner: LifetimeView,
    name: NameView,
)
    requires
        s.stack.len() > 0,
    ensures
        ({
            let t = define_return(s, function, typed, i, inner).0;
            &&& s.pointers.len() <= t.pointers.len()
            &&& forall|p: int|
                0 <= p < s.pointers.len() ==> #[trigger] t.pointers[p] == s.pointers[p]
            &&& name != pieces("return value of "@ + function) ==> t.find(name) == s.find(name)
        }),
    decreases typed.ptr.len() - i,
{
    if i < typed.ptr.len() {
        let made = s.pointers.len();
        let bound = pieces("return value of "@ + function);
        let tags = behind_pointer(typed.ptr[i as int].tags, typed.loc);
        law_local_is_found(s, Some(typed), bound, typed.loc, tags, name);
        let s1 = s.local(Some(typed), bound, typed.loc, tags).write(made, inner, typed.loc);
        lemma_define_return_spares(
            StackView { current_return_ptr: Some(made), ..s1 },
            function,
            typed,
            i + 1,
            LifetimeView::Pointer(made),
            name,
        );
    }
}

/// Making storage for what an argument points to changes nothing that was there before the
/// argument.
proof fn lemma_define_arg_levels_spares(
    s: StackView,
    arg: NamedArgView,
    at: nat,
    depth: nat,
    before: nat,
)
    requires
        before <= at < s.pointers.len(),
    ensures
        ({
            let (t, last) = define_arg_levels(s, arg, at, depth);
            &&& s.pointers.len() <= t.pointers.len()
            &&& before <= last < t.pointers.len()
            &&& forall|p: int| 0 <= p < before ==> #[trigger] t.pointers[p] == s.pointers[p]
        }),
    decreases arg.typed.ptr.len() - depth,
{
    if depth < arg.typed.ptr.len() {
        let ptr = arg.typed.ptr[arg.typed.ptr.len() - 1 - depth];
        let made = s.pointers.len();
        let s1 = s.local(
            Some(arg.typed),
            pieces("__builtin::pointer_to_callsite::"@ + decimal(at)),
            arg.loc,
            behind_pointer(ptr.tags, arg.loc),
        ).write(at, LifetimeView::Pointer(made), arg.loc);
        lemma_define_arg_levels_spares(s1, arg, made, depth + 1, before);
    }
}

/// Binding the arguments of a function changes nothing that is there.
pub proof fn law_args_spare_the_rest(s: StackView, args: Seq<NamedArgView>, i: nat)
    ensures
        s.pointers.len() <= define_args(s, args, i).pointers.len(),
        forall|p: int|
            0 <= p < s.pointers.len() ==> #[trigger] define_args(s, args, i).pointers[p]
                == s.pointers[p],
    decreases args.len() - i,
{
    if i < args.len() {
        let arg = args[i as int];
        let before = s.pointers.len();
        let s0 = s.local(Some(arg.typed), pieces(arg.name), arg.loc, arg.tags);
        lemma_define_arg_levels_spares(s0, arg, before, 0, before);
        let s1 = define_arg(s, arg);
        assert forall|p: int| 0 <= p < before implies #[trigger] s1.pointers[p]
            == s.pointers[p] by {
            assert(s0.pointers[p] == s.pointers[p]);
            assert(define_arg_levels(s0, arg, before, 0).0.pointers[p] == s0.pointers[p]);
        }
        law_args_spare_the_rest(s1, args, i + 1);
        assert forall|p: int| 0 <= p < before implies #[trigger] define_args(
            s,
            args,
            i,
        ).pointers[p] == s.pointers[p] by {
            assert(define_args(s1, args, i + 1).pointers[p] == s1.pointers[p]);
        }
    }
}

/// A function is not known in its own body: to name it there, where nothing else has its name,
/// is an error.
pub proof fn law_function_is_unknown_in_its_body(
    s: StackView,
    name: Text,
    loc: Location,
    ret: Option<TypedView>,
    args: Seq<NamedArgView>,
    used_here: Location,
)
    requires
        s.stack.len() > 0,
        entered(s, name, loc, ret, args).0.find(pieces(name)) == Some(s.pointers.len()),
    ensures
        ({
            let t = entered(s, name, loc, ret, args).0;
            t.check_name(pieces(name), used_here, Access::Value) == (
                t.report(ReportOf::UninitializedRead { name: pieces(name), used_here }),
                LifetimeView::Uninitialized,
            )
        }),
{
    let function = s.pointers.len();
    let s1 = s.local(None, pieces(name), loc, Seq::empty());
    if ret is Some {
        lemma_define_return_spares(s1, name, ret->Some_0, 0, LifetimeView::Static, pieces(name));
    }
    let s2 = match ret {
        Some(typed) => define_return(s1, name, typed, 0, LifetimeView::Static).0,
        None => s1,
    };
    assert(s2.pointers[function as int] == s1.pointers[function as int]);
    law_args_spare_the_rest(s2.push(name), args, 0);
    let t = entered(s, name, loc, ret, args).0;
    assert(t.pointers[function as int] == s1.pointers[function as int]);
}

/// What a module defines is known behind its definition, under its name: a function with its
/// parameters and what it returns, anything else as something that is never dropped.
pub proof fn law_definition_is_known(s: StackView, local: LocalView)
    requires
        s.wf(),
        s.stack.len() > 0,
    ensures
        check_local(s, local) matches Ok((t, _)) ==> match local.def {
            DefView::Other => t == s,
            DefView::Function { ret, args, vararg, .. } => {
                &&& t.find(pieces(local.name)) == Some(s.pointers.len())
                &&& t.pointers[s.pointers.len() as int].value == LifetimeView::Function {
                    ret: entered(s, local.name, local.loc, ret, args).1,
                    args,
                    vararg,
                }
            },
            _ => {
                &&& t.find(pieces(local.name)) == Some(s.pointers.len())
                &&& t.pointers[s.pointers.len() as int].value == LifetimeView::Static
            },
        },
{
    match local.def {
        DefView::Function { ret, args, vararg, body } => {
            lemma_function_is_known(s, local);
        },
        DefView::Macro => {
            law_local_is_found(
                s,
                None,
                pieces(local.name),
                local.loc,
                Seq::empty(),
                pieces(local.name),
            );
        },
        DefView::Static { typed, tags } => {
            law_local_is_found(
                s,
                Some(typed),
                pieces(local.name),
                local.loc,
                tags,
                pieces(local.name),
            );
        },
        DefView::Other => {},
    }
}

proof fn lemma_function_is_known(s: StackView, local: LocalView)
    requires
        s.wf(),
        s.stack.len() > 0,
        local.def is Function,
    ensures
        check_local(s, local) matches Ok((t, _)) ==> (local.def matches DefView::Function {
            ret,
            args,
            vararg,
            ..
        } && {
            &&& t.find(pieces(local.name)) == Some(s.pointers.len())
            &&& t.pointers[s.pointers.len() as int].value == LifetimeView::Function {
                ret: entered(s, local.name, local.loc, ret, args).1,
                args,
                vararg,
            }
        }),
{
    match local.def {
        DefView::Function { ret, args, vararg, body } => {
            let function = s.pointers.len();
            let name = pieces(local.name);
            let s1 = s.local(None, name, local.loc, Seq::empty());
            law_local_is_found(s, None, name, local.loc, Seq::empty(), name);
            lemma_extends_local(s, None, name, local.loc, Seq::empty());
            lemma_extends_self(s1);
            let returned_name = pieces("return value of "@ + local.name);
            assert(name != returned_name) by {
                lemma_split_then_join(local.name);
                lemma_split_then_join("return value of "@ + local.name);
                reveal_strlit("return value of ");
            }
            if ret is Some {
                let typed = ret->Some_0;
                lemma_define_return_spares(s1, local.name, typed, 0, LifetimeView::Static, name);
                lemma_define_return_keeps(s1, local.name, typed, 0, LifetimeView::Static);
            }
            let (s2, ret_value) = match ret {
                Some(typed) => {
                    let (s2, value) = define_return(s1, local.name, typed, 0, LifetimeView::Static);
                    (s2, Some(Box::new(value)))
                },
                None => (s1, None),
            };
            lemma_push_wf(s2, local.name);
            let inner = s2.push(local.name);
            lemma_define_args_keeps(inner, args, 0);
            let s3 = define_args(inner, args, 0);
            lemma_check_block_keeps(s3, body.statements, 0, Seq::empty());
            match check_block(s3, body.statements, 0, Seq::empty()) {
                Ok((s4, _)) => {
                    lemma_extends_twice(inner, s3, s4);
                    let value = LifetimeView::Function { ret: ret_value, args, vararg };
                    if ret is Some {
                        lemma_points_below(
                            *ret_value->Some_0,
                            s2.pointers.len(),
                            s4.pointers.len(),
                        );
                    }
                    lemma_extends_write(s4, function, value, local.loc);
                    let s5 = s4.write(function, value, local.loc);
                    lemma_extends_twice(inner, s4, s5);
                    lemma_extends_scope(s2, local.name, s5, body.end);
                    assert(!binds(s5.stack.last().locals, function)) by {
                        reveal(frame);
                    }
                },
                Err(_) => {},
            }
        },
        _ => {},
    }
}

/// A module that could be checked leaves one scope, that of the module, in a well formed state
/// that owes nothing; and all that was checked is the same as before, but for what is in the
/// bodies of functions.
pub proof fn law_module_keeps(md: ModuleView)
    ensures
        check_module(md) matches Ok((t, out)) ==> {
            &&& t.wf()
            &&& t.stack.len() == 1
            &&& t.stack[0].name == "static"@
            &&& t.must_move_before_ret.len() == 0
            &&& out.name == md.name
            &&& out.c_names == md.c_names
            &&& out.d.len() == md.d.len()
            &&& forall|j: int| 0 <= j < md.d.len() ==> same_item(md.d[j], #[trigger] out.d[j])
        },
{
    let s = StackView::empty().push("static"@);
    lemma_push_wf(StackView::empty(), "static"@);
    lemma_define_c_names_keeps(s, md.c_names, 0);
    let s1 = define_c_names(s, md.c_names, 0);
    lemma_check_items_keeps(s1, md.d, 0, Seq::empty());
    match check_items(s1, md.d, 0, Seq::empty()) {
        Ok((t, _)) => {
            lemma_extends_twice(s, s1, t);
            reveal(frame);
        },
        Err(_) => {},
    }
}

} // verus!
