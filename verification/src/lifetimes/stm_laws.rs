//! What each form of statement does.

use vstd::prelude::*;
use crate::ast::{BlockView, ExprView, StmtView, expr_loc};
use crate::lifetimes::frame::{frame, lemma_check_expr_keeps};
use crate::lifetimes::rules::{
    Ice, Stop, check_block, check_expr, check_opt_stm, check_stm, orphaned,
};
use crate::lifetimes::state::{Access, LifetimeView, StackView, StorageView, lemma_local_wf};
use crate::lifetimes::storage_laws::{lemma_makes_one, makes_one, same_but_at};
use crate::location::Location;
use crate::report::ReportOf;
use crate::tags::{
    TagsView, has_key, has_value, inserted, law_inserted_is_there, law_removed_is_gone, removed,
};
use crate::text::{Text, pieces};

verus! {

/// A mark is put on the storage that an expression names: `safe` takes off `unsafe`, `pure` takes
/// off every taint, and any other is set next to what is there. Nothing else changes. What names
/// no storage cannot be marked.
pub proof fn law_mark(
    s: StackView,
    loc: Location,
    lhs: ExprView,
    key: Text,
    value: Text,
    k: Text,
    v: Text,
)
    requires
        s.wf(),
    ensures
        ({
            let stm = StmtView::Mark { loc, lhs, key, value };
            match check_expr(s, lhs, Access::Storage) {
                Err(stop) => check_stm(s, stm) == Err::<(StackView, StmtView), Stop>(stop),
                Ok(r) => {
                    &&& check_stm(s, stm) matches Ok((t, out))
                    &&& out == (StmtView::Mark { loc, lhs: r.expr, key, value })
                    &&& match r.value {
                        LifetimeView::Pointer(to) => {
                            let was = r.stack.pointers[to as int];
                            let now = t.pointers[to as int];
                            &&& same_but_at(r.stack, t, to)
                            &&& now.name == was.name
                            &&& now.typ == was.typ
                            &&& now.value == was.value
                            &&& now.stored_here == was.stored_here
                            &&& now.changed_here == was.changed_here
                            &&& key == "safe"@ ==> now.tags == removed(was.tags, "unsafe"@) && (
                            has_value(now.tags, k, v) <==> has_value(was.tags, k, v) && k
                                != "unsafe"@)
                            &&& key == "pure"@ ==> now.tags == removed(was.tags, "tainted"@) && (
                            has_value(now.tags, k, v) <==> has_value(was.tags, k, v) && k
                                != "tainted"@)
                            &&& key != "safe"@ && key != "pure"@ ==> now.tags == inserted(
                                was.tags,
                                key,
                                value,
                                loc,
                            ) && (has_value(now.tags, k, v) <==> has_value(was.tags, k, v) || (k
                                == key && v == value))
                        },
                        _ => t == r.stack.report(ReportOf::MarkTarget { loc: expr_loc(lhs) }),
                    }
                },
            }
        }),
{
    reveal_strlit("safe");
    reveal_strlit("pure");
    assert("pure"@[0] != "safe"@[0]);
    lemma_check_expr_keeps(s, lhs, Access::Storage);
    match check_expr(s, lhs, Access::Storage) {
        Ok(r) => match r.value {
            LifetimeView::Pointer(to) => {
                let tags = r.stack.pointers[to as int].tags;
                law_removed_is_gone(tags, "unsafe"@, k, v);
                law_removed_is_gone(tags, "tainted"@, k, v);
                law_inserted_is_there(tags, key, value, loc, k, v);
            },
            _ => {},
        },
        Err(_) => {},
    }
}

/// A declaration makes storage with the tags that are written there and the tag `stack`. Its
/// first value is checked where the name is already known, and is then stored. An unknown value
/// gives a warning, and is stored too.
pub proof fn law_declaration(
    s: StackView,
    loc: Location,
    name: Text,
    tags: TagsView,
    k: Text,
    v: Text,
)
    requires
        s.wf(),
    ensures
        ({
            let stm = StmtView::Var { loc, name, tags, assign: None };
            &&& s.stack.len() == 0 ==> check_stm(s, stm) == Err::<(StackView, StmtView), Stop>(
                Stop { ice: Ice::NoScope, reports: s.reports },
            )
            &&& s.stack.len() > 0 ==> {
                &&& check_stm(s, stm) matches Ok((t, out))
                &&& out == stm
                &&& makes_one(
                    s,
                    t,
                    StorageView {
                        name: pieces(name),
                        typ: None,
                        tags: inserted(tags, "stack"@, Seq::empty(), loc),
                        stored_here: loc,
                        changed_here: None,
                        value: LifetimeView::Uninitialized,
                    },
                )
                &&& has_key(t.pointers.last().tags, "stack"@)
                &&& has_value(t.pointers.last().tags, k, v) <==> has_value(tags, k, v) || (k
                    == "stack"@ && v == Seq::<char>::empty())
            }
        }),
{
    law_inserted_is_there(tags, "stack"@, Seq::empty(), loc, k, v);
    law_inserted_is_there(tags, "stack"@, Seq::empty(), loc, "stack"@, v);
    if s.stack.len() > 0 {
        lemma_makes_one(
            s,
            None,
            pieces(name),
            loc,
            inserted(tags, "stack"@, Seq::empty(), loc),
            LifetimeView::Uninitialized,
            loc,
        );
    }
}

/// A declaration with a first value is one without, and then the value is stored.
pub proof fn law_first_value(
    s: StackView,
    loc: Location,
    name: Text,
    tags: TagsView,
    e: ExprView,
)
    requires
        s.wf(),
        s.stack.len() > 0,
    ensures
        ({
            let stm = StmtView::Var { loc, name, tags, assign: Some(e) };
            let alone = StmtView::Var { loc, name, tags, assign: None };
            &&& check_stm(s, alone) matches Ok((declared, _))
            &&& match check_expr(declared, e, Access::Value) {
                Err(stop) => check_stm(s, stm) == Err::<(StackView, StmtView), Stop>(stop),
                Ok(r) => {
                    let n = s.pointers.len() as int;
                    &&& check_stm(s, stm) matches Ok((t, out))
                    &&& out == (StmtView::Var { loc, name, tags, assign: Some(r.expr) })
                    &&& t.pointers.len() == r.stack.pointers.len()
                    &&& forall|p: int|
                        0 <= p < t.pointers.len() && p != n ==> #[trigger] t.pointers[p]
                            == r.stack.pointers[p]
                    &&& t.pointers[n].value == r.value
                    &&& t.pointers[n].changed_here == Some(loc)
                    &&& t.pointers[n].tags == r.stack.pointers[n].tags
                    &&& t.pointers[n].name == r.stack.pointers[n].name
                    &&& t.pointers[n].typ == r.stack.pointers[n].typ
                    &&& t.pointers[n].stored_here == loc
                    &&& t.stack == r.stack.stack
                    &&& t.must_move_before_ret == r.stack.must_move_before_ret
                    &&& t.current_return_ptr == r.stack.current_return_ptr
                    &&& t.reports == if r.value is Uninitialized {
                        r.stack.reports.push(ReportOf::UnknownRvalue { loc: expr_loc(e) })
                    } else {
                        r.stack.reports
                    }
                },
            }
        }),
{
    let declared = s.local(
        None,
        pieces(name),
        loc,
        inserted(tags, "stack"@, Seq::empty(), loc),
    );
    lemma_local_wf(
        s,
        None,
        pieces(name),
        loc,
        inserted(tags, "stack"@, Seq::empty(), loc),
    );
    lemma_check_expr_keeps(declared, e, Access::Value);
    reveal(frame);
    match check_expr(declared, e, Access::Value) {
        Ok(r) => {
            let n = s.pointers.len() as int;
            assert(r.stack.pointers[n].stored_here == declared.pointers[n].stored_here);
        },
        Err(_) => {},
    }
}

/// An assignment reads the value on its right and then finds the storage on its left. The value
/// is stored there, with an error if the storage is not mutable. An unknown value gives a warning,
/// and a left side that names no storage is an error.
pub proof fn law_assign(s: StackView, loc: Location, lhs: ExprView, rhs: ExprView)
    requires
        s.wf(),
    ensures
        ({
            let stm = StmtView::Assign { loc, lhs, rhs };
            match check_expr(s, rhs, Access::Value) {
                Err(stop) => check_stm(s, stm) == Err::<(StackView, StmtView), Stop>(stop),
                Ok(from) => {
                    let known = if from.value is Uninitialized {
                        from.stack.report(ReportOf::InvalidRvalue { loc: expr_loc(rhs) })
                    } else {
                        from.stack
                    };
                    match check_expr(known, lhs, Access::Storage) {
                        Err(stop) => check_stm(s, stm) == Err::<(StackView, StmtView), Stop>(stop),
                        Ok(to) => {
                            &&& check_stm(s, stm) matches Ok((t, out))
                            &&& out == (StmtView::Assign { loc, lhs: to.expr, rhs: from.expr })
                            &&& match to.value {
                                LifetimeView::Pointer(p) => {
                                    let was = to.stack.pointers[p as int];
                                    let now = t.pointers[p as int];
                                    &&& t.pointers.len() == to.stack.pointers.len()
                                    &&& forall|q: int|
                                        0 <= q < t.pointers.len() && q != p
                                            ==> #[trigger] t.pointers[q] == to.stack.pointers[q]
                                    &&& now.value == from.value
                                    &&& now.changed_here == Some(expr_loc(lhs))
                                    &&& now.tags == was.tags
                                    &&& now.name == was.name
                                    &&& now.typ == was.typ
                                    &&& now.stored_here == was.stored_here
                                    &&& t.stack == to.stack.stack
                                    &&& t.must_move_before_ret == to.stack.must_move_before_ret
                                    &&& t.current_return_ptr == to.stack.current_return_ptr
                                    &&& t.reports == if has_key(was.tags, "mutable"@) {
                                        to.stack.reports
                                    } else {
                                        to.stack.reports.push(
                                            ReportOf::ImmutableAssign {
                                                loc: expr_loc(lhs),
                                                stored_here: was.stored_here,
                                            },
                                        )
                                    }
                                },
                                _ => t == to.stack.report(
                                    ReportOf::InvalidLvalue { loc: expr_loc(lhs) },
                                ),
                            }
                        },
                    }
                },
            }
        }),
{
    lemma_check_expr_keeps(s, rhs, Access::Value);
    match check_expr(s, rhs, Access::Value) {
        Ok(from) => {
            let known = if from.value is Uninitialized {
                from.stack.report(ReportOf::InvalidRvalue { loc: expr_loc(rhs) })
            } else {
                from.stack
            };
            assert(known.wf());
            lemma_check_expr_keeps(known, lhs, Access::Storage);
        },
        Err(_) => {},
    }
}

/// An expression that stands as a statement is checked for its value.
pub proof fn law_expression_statement(s: StackView, loc: Location, e: ExprView)
    ensures
        check_stm(s, StmtView::Expr { loc, expr: e }) == match check_expr(s, e, Access::Value) {
            Ok(r) => Ok((r.stack, StmtView::Expr { loc, expr: r.expr })),
            Err(stop) => Err(stop),
        },
{
}

/// Jumps and labels do nothing.
pub proof fn law_jumps_do_nothing(s: StackView, stm: StmtView)
    requires
        stm is Goto || stm is Label || stm is Break,
    ensures
        check_stm(s, stm) == Ok::<_, Stop>((s, stm)),
{
}

/// What is returned is checked for its value before the function is left.
pub proof fn law_return_checks_its_value(s: StackView, loc: Location, e: ExprView)
    ensures
        check_stm(s, StmtView::Return { loc, expr: Some(e) }) == match check_expr(
            s,
            e,
            Access::Value,
        ) {
            Ok(r) => match check_stm(r.stack, StmtView::Return { loc, expr: None }) {
                Ok((t, _)) => Ok((t, StmtView::Return { loc, expr: Some(r.expr) })),
                Err(stop) => Err(stop),
            },
            Err(stop) => Err(stop),
        },
{
}

/// Leaving a function settles what is owed, in that order: whatever was not given away by now is
/// an error, in the place of the call that it came from. Nothing is owed then, and nothing else
/// has changed.
pub proof fn law_return_settles(
    s: StackView,
    loc: Location,
    owed: Seq<(nat, Location)>,
    p: nat,
    call_loc: Location,
)
    ensures
        ({
            let stm = StmtView::Return { loc, expr: None };
            let none = StackView { must_move_before_ret: Seq::empty(), ..s };
            let less = StackView { must_move_before_ret: owed, ..s };
            let more = StackView { must_move_before_ret: owed.push((p, call_loc)), ..s };
            &&& check_stm(none, stm) == Ok::<_, Stop>((none, stm))
            &&& check_stm(less, stm) matches Ok((t, _))
            &&& check_stm(more, stm) == Ok::<_, Stop>(
                (
                    if s.pointers[p as int].value is Moved {
                        t
                    } else {
                        t.report(ReportOf::Orphaned { call_loc, loc })
                    },
                    stm,
                ),
            )
            &&& t == (StackView { reports: t.reports, ..none })
        }),
{
    let none = StackView { must_move_before_ret: Seq::empty(), ..s };
    lemma_orphaned_front(none, owed, (p, call_loc), loc, 0);
    let t = orphaned(none, owed, loc, 0);
    let all = owed.push((p, call_loc));
    let n = owed.len();
    assert(all[n as int] == (p, call_loc));
    let r = ReportOf::Orphaned { call_loc, loc };
    assert(orphaned(t, all, loc, n + 1) == t);
    assert(orphaned(t.report(r), all, loc, n + 1) == t.report(r));
    assert(none.must_move_before_ret =~= Seq::empty());
}

proof fn lemma_orphaned_front(
    s: StackView,
    owed: Seq<(nat, Location)>,
    last: (nat, Location),
    loc: Location,
    i: nat,
)
    requires
        i <= owed.len(),
    ensures
        ({
            let t = orphaned(s, owed, loc, i);
            let all = owed.push(last);
            &&& orphaned(s, all, loc, i) == orphaned(t, all, loc, owed.len())
            &&& t == (StackView { reports: t.reports, ..s })
        }),
    decreases owed.len() - i,
{
    if i < owed.len() {
        assert(owed.push(last)[i as int] == owed[i as int]);
        let (p, call_loc) = owed[i as int];
        let s1 = if s.pointers[p as int].value is Moved {
            s
        } else {
            s.report(ReportOf::Orphaned { call_loc, loc })
        };
        lemma_orphaned_front(s1, owed, last, loc, i + 1);
    }
}

/// The statements of a block are checked one after the other.
pub proof fn law_statements_in_turn(s: StackView, stms: Seq<StmtView>, last: StmtView)
    ensures
        check_block(s, Seq::empty(), 0, Seq::empty()) == Ok::<_, Stop>(
            (s, Seq::<StmtView>::empty()),
        ),
        check_block(s, stms.push(last), 0, Seq::empty()) == match check_block(
            s,
            stms,
            0,
            Seq::empty(),
        ) {
            Ok((t, before)) => match check_stm(t, last) {
                Ok((u, stm)) => Ok((u, before.push(stm))),
                Err(stop) => Err(stop),
            },
            Err(stop) => Err(stop),
        },
{
    lemma_block_front(s, stms, last, 0, Seq::empty());
    match check_block(s, stms, 0, Seq::empty()) {
        Ok((t, before)) => {
            let all = stms.push(last);
            let n = stms.len();
            assert(all[n as int] == last);
            match check_stm(t, last) {
                Ok((u, stm)) => {
                    assert(check_block(u, all, n + 1, before.push(stm)) == Ok::<_, Stop>(
                        (u, before.push(stm)),
                    ));
                },
                Err(_) => {},
            }
        },
        Err(_) => {},
    }
}

proof fn lemma_block_front(
    s: StackView,
    stms: Seq<StmtView>,
    last: StmtView,
    i: nat,
    done: Seq<StmtView>,
)
    requires
        i <= stms.len(),
    ensures
        check_block(s, stms.push(last), i, done) == match check_block(s, stms, i, done) {
            Ok((t, before)) => check_block(t, stms.push(last), stms.len(), before),
            Err(stop) => Err(stop),
        },
    decreases stms.len() - i,
{
    if i < stms.len() {
        assert(stms.push(last)[i as int] == stms[i as int]);
        match check_stm(s, stms[i as int]) {
            Ok((s1, stm)) => {
                lemma_block_front(s1, stms, last, i + 1, done.push(stm));
            },
            Err(_) => {},
        }
    }
}

/// A block, a condition and a loop each open a scope, check what they are made of in the order in
/// which it is written, and close the scope where the body ends.
pub proof fn law_scoped_statements(
    s: StackView,
    body: BlockView,
    cond: ExprView,
    e1: Option<Box<StmtView>>,
    e2: Option<Box<StmtView>>,
    e3: Option<Box<StmtView>>,
)
    ensures
        check_stm(s, StmtView::Block(body)) == match check_block(
            s.push("block"@),
            body.statements,
            0,
            Seq::empty(),
        ) {
            Ok((t, statements)) => Ok(
                (t.pop(body.end), StmtView::Block(BlockView { end: body.end, statements })),
            ),
            Err(stop) => Err(stop),
        },
        check_stm(s, StmtView::Cond { expr: None, body }) == match check_block(
            s.push("if"@),
            body.statements,
            0,
            Seq::empty(),
        ) {
            Ok((t, statements)) => Ok(
                (
                    t.pop(body.end),
                    StmtView::Cond { expr: None, body: BlockView { end: body.end, statements } },
                ),
            ),
            Err(stop) => Err(stop),
        },
        check_stm(s, StmtView::Cond { expr: Some(cond), body }) == match check_expr(
            s.push("if"@),
            cond,
            Access::Value,
        ) {
            Ok(r) => match check_block(r.stack, body.statements, 0, Seq::empty()) {
                Ok((t, statements)) => Ok(
                    (
                        t.pop(body.end),
                        StmtView::Cond {
                            expr: Some(r.expr),
                            body: BlockView { end: body.end, statements },
                        },
                    ),
                ),
                Err(stop) => Err(stop),
            },
            Err(stop) => Err(stop),
        },
        check_stm(s, StmtView::For { e1, e2, e3, body }) == match check_opt_stm(
            s.push("for"@),
            e1,
        ) {
            Ok((s1, f1)) => match check_opt_stm(s1, e2) {
                Ok((s2, f2)) => match check_opt_stm(s2, e3) {
                    Ok((s3, f3)) => match check_block(s3, body.statements, 0, Seq::empty()) {
                        Ok((t, statements)) => Ok(
                            (
                                t.pop(body.end),
                                StmtView::For {
                                    e1: f1,
                                    e2: f2,
                                    e3: f3,
                                    body: BlockView { end: body.end, statements },
                                },
                            ),
                        ),
                        Err(stop) => Err(stop),
                    },
                    Err(stop) => Err(stop),
                },
                Err(stop) => Err(stop),
            },
            Err(stop) => Err(stop),
        },
{
}

/// A part of the head of a loop that is there is checked like any statement. One that is not
/// there does nothing.
pub proof fn law_head_of_loop(s: StackView, stm: StmtView)
    ensures
        check_opt_stm(s, None) == Ok::<_, Stop>((s, None::<Box<StmtView>>)),
        check_opt_stm(s, Some(Box::new(stm))) == match check_stm(s, stm) {
            Ok((t, out)) => Ok((t, Some(Box::new(out)))),
            Err(stop) => Err(stop),
        },
{
}

} // verus!
