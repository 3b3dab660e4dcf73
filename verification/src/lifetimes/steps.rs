//! Checking goes step by step: statement after statement, item after item, whatever was found
//! before.

use vstd::prelude::*;
use crate::ast::{CNameView, DView, ExprView, ModuleView, StmtView, TypedView};
use crate::lifetimes::frame::{
    extends, frame, lemma_check_local_keeps, lemma_define_c_names_keeps, lemma_extends_self,
};
use crate::lifetimes::rules::{
    ExprResult, Stop, check_block, check_expr, check_items, check_local, check_module, check_stm,
    define_c_names, define_static,
};
use crate::lifetimes::state::{Access, StackView, lemma_push_wf};
use crate::location::Location;
use crate::report::is_error;
use crate::text::Text;

verus! {

/// What a check of the operand of `whole` comes to, as a check of `whole`.
pub open spec fn around(
    out: Result<ExprResult, Stop>,
    whole: spec_fn(ExprView) -> ExprView,
) -> Result<ExprResult, Stop> {
    match out {
        Ok(r) => Ok(ExprResult { expr: whole(r.expr), ..r }),
        Err(stop) => Err(stop),
    }
}

/// What is put around an expression changes neither the state nor what is known of the value.
pub proof fn law_around(out: Result<ExprResult, Stop>, whole: spec_fn(ExprView) -> ExprView)
    ensures
        out matches Err(stop) ==> around(out, whole) == Err::<ExprResult, Stop>(stop),
        out matches Ok(r) ==> around(out, whole) == Ok::<_, Stop>(
            ExprResult { stack: r.stack, expr: whole(r.expr), value: r.value },
        ),
{
}

/// A cast, an operator behind an expression, an index, and a member that is not reached through
/// a pointer change nothing: each is checked as its operand is, and nothing else of it is looked
/// at.
pub proof fn law_wrappers_are_transparent(
    s: StackView,
    e: ExprView,
    access: Access,
    loc: Location,
    into: TypedView,
    op: Text,
    index: ExprView,
    member: Text,
)
    ensures
        check_expr(s, ExprView::Cast { loc, into, expr: Box::new(e) }, access) == around(
            check_expr(s, e, access),
            |f: ExprView| ExprView::Cast { loc, into, expr: Box::new(f) },
        ),
        check_expr(s, ExprView::UnaryPost { loc, op, expr: Box::new(e) }, access) == around(
            check_expr(s, e, access),
            |f: ExprView| ExprView::UnaryPost { loc, op, expr: Box::new(f) },
        ),
        check_expr(
            s,
            ExprView::ArrayAccess { loc, lhs: Box::new(e), rhs: Box::new(index) },
            access,
        ) == around(
            check_expr(s, e, access),
            |f: ExprView|
                ExprView::ArrayAccess { loc, lhs: Box::new(f), rhs: Box::new(index) },
        ),
        op != "->"@ ==> check_expr(
            s,
            ExprView::MemberAccess { loc, lhs: Box::new(e), op, rhs: member },
            access,
        ) == around(
            check_expr(s, e, access),
            |f: ExprView| ExprView::MemberAccess { loc, lhs: Box::new(f), op, rhs: member },
        ),
{
}

/// What a check of statements comes to, where `done` came out before them.
pub open spec fn behind(
    done: Seq<StmtView>,
    out: Result<(StackView, Seq<StmtView>), Stop>,
) -> Result<(StackView, Seq<StmtView>), Stop> {
    match out {
        Ok((t, more)) => Ok((t, done + more)),
        Err(stop) => Err(stop),
    }
}

proof fn lemma_block_done(s: StackView, stms: Seq<StmtView>, i: nat, done: Seq<StmtView>)
    requires
        i <= stms.len(),
    ensures
        check_block(s, stms, i, done) == behind(
            done,
            check_block(s, stms.skip(i as int), 0, Seq::empty()),
        ),
    decreases stms.len() - i,
{
    let rest = stms.skip(i as int);
    if i < stms.len() {
        assert(rest[0] == stms[i as int]);
        match check_stm(s, stms[i as int]) {
            Ok((s1, stm)) => {
                let one = Seq::<StmtView>::empty().push(stm);
                lemma_block_done(s1, stms, i + 1, done.push(stm));
                if i == 0 {
                    assert(rest =~= stms);
                    lemma_block_done(s1, stms, 1, one);
                } else {
                    lemma_block_done(s1, rest, 1, one);
                    assert(rest.skip(1) =~= stms.skip((i + 1) as int));
                }
                match check_block(s1, stms.skip((i + 1) as int), 0, Seq::empty()) {
                    Ok((_, more)) => {
                        assert(done.push(stm) + more =~= done + (one + more));
                    },
                    Err(_) => {},
                }
            },
            Err(_) => {},
        }
    } else {
        assert(done + Seq::<StmtView>::empty() =~= done);
    }
}

proof fn lemma_block_front(
    s: StackView,
    a: Seq<StmtView>,
    b: Seq<StmtView>,
    i: nat,
    done: Seq<StmtView>,
)
    requires
        i <= a.len(),
    ensures
        check_block(s, a + b, i, done) == match check_block(s, a, i, done) {
            Ok((s1, x)) => check_block(s1, a + b, a.len(), x),
            Err(stop) => Err(stop),
        },
    decreases a.len() - i,
{
    if i < a.len() {
        assert((a + b)[i as int] == a[i as int]);
        match check_stm(s, a[i as int]) {
            Ok((s1, stm)) => {
                lemma_block_front(s1, a, b, i + 1, done.push(stm));
            },
            Err(_) => {},
        }
    }
}

/// Checking statements is checking the first of them and then the others, each once and in the
/// scope that is open. Checking none changes nothing.
pub proof fn law_blocks_concatenate(s: StackView, a: Seq<StmtView>, b: Seq<StmtView>)
    ensures
        check_block(s, a + b, 0, Seq::empty()) == match check_block(s, a, 0, Seq::empty()) {
            Ok((s1, x)) => behind(x, check_block(s1, b, 0, Seq::empty())),
            Err(stop) => Err(stop),
        },
        check_block(s, Seq::empty(), 0, Seq::empty()) == Ok::<_, Stop>(
            (s, Seq::<StmtView>::empty()),
        ),
{
    lemma_block_front(s, a, b, 0, Seq::empty());
    match check_block(s, a, 0, Seq::empty()) {
        Ok((s1, x)) => {
            lemma_block_done(s1, a + b, a.len(), x);
            assert((a + b).skip(a.len() as int) =~= b);
        },
        Err(_) => {},
    }
}

proof fn lemma_items_front(s: StackView, a: Seq<DView>, b: Seq<DView>, i: nat, done: Seq<DView>)
    requires
        i <= a.len(),
    ensures
        check_items(s, a + b, i, done) == match check_items(s, a, i, done) {
            Ok((s1, x)) => check_items(s1, a + b, a.len(), x),
            Err(stop) => Err(stop),
        },
    decreases a.len() - i,
{
    if i < a.len() {
        assert((a + b)[i as int] == a[i as int]);
        match a[i as int] {
            DView::Include(_) => {
                lemma_items_front(s, a, b, i + 1, done.push(a[i as int]));
            },
            DView::Local(local) => match check_local(s, local) {
                Ok((s1, out)) => {
                    lemma_items_front(s1, a, b, i + 1, done.push(DView::Local(out)));
                },
                Err(_) => {},
            },
        }
    }
}

/// The state in which the items of a module are checked, once the first `n` were.
pub open spec fn after_items(md: ModuleView, n: nat) -> Result<StackView, Stop> {
    match check_items(
        define_c_names(StackView::empty().push("static"@), md.c_names, 0),
        md.d.take(n as int),
        0,
        Seq::empty(),
    ) {
        Ok((t, _)) => Ok(t),
        Err(stop) => Err(stop),
    }
}

/// Whether an error is among what was reported from `s` to `t`.
pub open spec fn found_error(s: StackView, t: StackView) -> bool {
    exists|k: int| s.reports.len() <= k < t.reports.len() && is_error(#[trigger] t.reports[k])
}

/// Whether checking the item of number `i` reported an error.
pub open spec fn item_found_error(md: ModuleView, i: nat) -> bool {
    found_error(after_items(md, i)->Ok_0, after_items(md, i + 1)->Ok_0)
}

/// A module is to be aborted exactly if checking one of its items reported an error. Each item is
/// checked, in the state that the ones before it led to, whatever was reported of those.
pub proof fn law_module_outcome(md: ModuleView)
    ensures
        check_module(md) matches Ok((t, _)) ==> {
            &&& after_items(md, md.d.len()) == Ok::<_, Stop>(t)
            &&& forall|i: nat|
                i < md.d.len() ==> {
                    &&& #[trigger] after_items(md, i) is Ok
                    &&& match md.d[i as int] {
                        DView::Include(_) => after_items(md, i + 1) == after_items(md, i),
                        DView::Local(local) => check_local(
                            after_items(md, i)->Ok_0,
                            local,
                        ) matches Ok((u, _)) && after_items(md, i + 1) == Ok::<_, Stop>(u),
                    }
                }
            &&& t.abort() <==> exists|i: nat|
                i < md.d.len() && #[trigger] item_found_error(md, i)
        },
{
    if check_module(md) is Ok {
        let n = md.d.len();
        assert(md.d.take(n as int) =~= md.d);
        assert forall|i: nat| i < n implies {
            &&& #[trigger] after_items(md, i) is Ok
            &&& match md.d[i as int] {
                DView::Include(_) => after_items(md, i + 1) == after_items(md, i),
                DView::Local(local) => check_local(
                    after_items(md, i)->Ok_0,
                    local,
                ) matches Ok((u, _)) && after_items(md, i + 1) == Ok::<_, Stop>(u),
            }
        } by {
            lemma_item_step(md, i);
        }
        lemma_item_errors(md, n);
    }
}

/// The item of number `i` is checked in the state that the ones before it led to.
pub proof fn lemma_item_step(md: ModuleView, i: nat)
    requires
        check_module(md) is Ok,
        i < md.d.len(),
    ensures
        after_items(md, i) is Ok,
        after_items(md, i + 1) is Ok,
        match md.d[i as int] {
            DView::Include(_) => after_items(md, i + 1) == after_items(md, i),
            DView::Local(local) => check_local(
                after_items(md, i)->Ok_0,
                local,
            ) matches Ok((u, _)) && after_items(md, i + 1) == Ok::<_, Stop>(u),
        },
{
    let s = define_c_names(StackView::empty().push("static"@), md.c_names, 0);
    let front = md.d.take(i as int);
    let more = md.d.take((i + 1) as int);
    assert(front + md.d.skip(i as int) =~= md.d);
    assert(more + md.d.skip((i + 1) as int) =~= md.d);
    lemma_items_front(s, front, md.d.skip(i as int), 0, Seq::empty());
    lemma_items_front(s, more, md.d.skip((i + 1) as int), 0, Seq::empty());
    let one = seq![md.d[i as int]];
    assert(front + one =~= more);
    lemma_items_front(s, front, one, 0, Seq::empty());
    match check_items(s, front, 0, Seq::empty()) {
        Ok((s1, x)) => {
            assert(more[i as int] == md.d[i as int]);
            match md.d[i as int] {
                DView::Include(_) => {
                    assert(check_items(s1, more, i + 1, x.push(more[i as int])) is Ok);
                },
                DView::Local(local) => match check_local(s1, local) {
                    Ok((u, out)) => {
                        assert(check_items(u, more, i + 1, x.push(DView::Local(out))) is Ok);
                    },
                    Err(_) => {},
                },
            }
        },
        Err(_) => {},
    }
}

proof fn lemma_c_names_report_nothing(s: StackView, names: Seq<CNameView>, i: nat)
    ensures
        define_c_names(s, names, i).reports == s.reports,
    decreases names.len() - i,
{
    if i < names.len() {
        let c = names[i as int];
        lemma_c_names_report_nothing(
            define_static(s, None, c.name, c.loc, Seq::empty()),
            names,
            i + 1,
        );
    }
}

/// Errors are found by the items that were checked up to now.
pub proof fn lemma_item_errors(md: ModuleView, n: nat)
    requires
        check_module(md) is Ok,
        n <= md.d.len(),
    ensures
        after_items(md, n) is Ok,
        after_items(md, n)->Ok_0.wf(),
        after_items(md, n)->Ok_0.stack.len() > 0,
        after_items(md, n)->Ok_0.abort() <==> exists|i: nat|
            i < n && #[trigger] item_found_error(md, i),
    decreases n,
{
    if n == 0 {
        let s = StackView::empty().push("static"@);
        lemma_push_wf(StackView::empty(), "static"@);
        lemma_define_c_names_keeps(s, md.c_names, 0);
        lemma_c_names_report_nothing(s, md.c_names, 0);
    } else {
        let i = (n - 1) as nat;
        lemma_item_errors(md, i);
        lemma_item_step(md, i);
        let s = after_items(md, i)->Ok_0;
        let t = after_items(md, n)->Ok_0;
        lemma_extends_self(s);
        match md.d[i as int] {
            DView::Include(_) => {},
            DView::Local(local) => {
                lemma_check_local_keeps(s, local);
            },
        }
        assert(extends(s, t));
        assert(t.abort() <==> s.abort() || found_error(s, t)) by {
            reveal(frame);
            assert(forall|k: int|
                0 <= k < s.reports.len() ==> #[trigger] t.reports.take(s.reports.len() as int)[k]
                    == s.reports[k]);
            assert(forall|k: int|
                0 <= k < s.reports.len() ==> #[trigger] t.reports[k] == s.reports[k]);
            if s.abort() {
                let k = choose|k: int|
                    0 <= k < s.reports.len() && is_error(#[trigger] s.reports[k]);
                assert(is_error(t.reports[k]));
            }
            if t.abort() && !found_error(s, t) {
                let k = choose|k: int|
                    0 <= k < t.reports.len() && is_error(#[trigger] t.reports[k]);
                assert(is_error(s.reports[k]));
            }
        }
        assert(item_found_error(md, i) == found_error(s, t));
        if exists|j: nat| j < n && #[trigger] item_found_error(md, j) {
            let j = choose|j: nat| j < n && #[trigger] item_found_error(md, j);
            assert(j == i || j < i);
        }
    }
}

} // verus!
