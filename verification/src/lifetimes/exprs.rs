//! Checking expressions.

use vstd::prelude::*;
use crate::ast::{
    ExprView, Expression, Labeled, LabeledView, expr_views, labeled_views, lemma_expr_views,
    lemma_exprs_next, lemma_exprs_step, lemma_labeled_next, lemma_labeled_step,
    lemma_labeled_views,
};
use crate::lifetimes::rules;
use crate::lifetimes::frame::{lemma_check_expr_keeps, lemma_check_labeled_keeps};
use crate::lifetimes::rules::{
    Ice, height, heights, labeled_heights, lemma_heights, lemma_labeled_heights,
};
use crate::lifetimes::stack::{Lifetime, Stack};
use crate::lifetimes::state::{Access, lemma_points_below};
use crate::location::Location;
use crate::name::Name;
use crate::report::ReportOf;
use crate::tags::Tags;
use crate::text::equal;

verus! {

/// The name of the storage that holds an address taken at `loc`.
fn temporary_name(loc: Location) -> (name: Name)
    ensures
        name@ == rules::temporary_name(loc),
{
    let mut t = "temporary access at ".to_owned();
    t.append(loc.line_col().as_str());
    Name::from(t.as_str())
}

impl Stack {
    /// Checks the values of several expressions, and tells whether all are static.
    fn check_elements(&mut self, es: &mut Vec<Expression>) -> (res: Result<bool, Ice>)
        requires
            old(self).wf(),
        ensures
            match rules::check_elements(
                old(self)@,
                expr_views(old(es)@),
                0,
                Seq::empty(),
                true,
            ) {
                Ok(r) => {
                    &&& res == Ok::<bool, Ice>(r.all_static)
                    &&& final(self).wf()
                    &&& final(self)@ == r.stack
                    &&& expr_views(final(es)@) == r.exprs
                },
                Err(stop) => {
                    &&& res == Err::<bool, Ice>(stop.ice)
                    &&& final(self)@.reports == stop.reports
                },
            },
        decreases heights(expr_views(old(es)@)), 2nat, 0nat,
    {
        let ghost es0 = expr_views(es@);
        let ghost mut done: Seq<ExprView> = Seq::empty();
        let mut all_static = true;
        let mut i: usize = 0;
        proof {
            lemma_expr_views(es@);
            assert(done + es0.skip(0) =~= es0);
        }
        while i < es.len()
            invariant
                i <= es@.len(),
                es@.len() == es0.len(),
                es0 == expr_views(old(es)@),
                self.wf(),
                done.len() == i,
                expr_views(es@) == done + es0.skip(i as int),
                rules::check_elements(self@, es0, i as nat, done, all_static)
                    == rules::check_elements(old(self)@, es0, 0, Seq::empty(), true),
            decreases es@.len() - i,
        {
            let ghost before = es@;
            proof {
                lemma_exprs_next(es@, es0, done, i as int);
                lemma_heights(es0, i as int);
                lemma_check_expr_keeps(self@, es0[i as int], Access::Value);
            }
            match self.check_expr(&mut es[i], Access::Value) {
                Ok(Lifetime::Static) => {},
                Ok(_) => {
                    all_static = false;
                },
                Err(ice) => {
                    return Err(ice);
                },
            }
            proof {
                assert(es@ =~= before.update(i as int, es@[i as int]));
                lemma_exprs_step(before, es@, es0, done, i as int);
                done = done.push(es@[i as int]@);
            }
            i = i + 1;
        }
        assert(done + es0.skip(i as int) =~= done);
        Ok(all_static)
    }

    /// Checks the values of several labeled expressions, and tells whether all are static.
    fn check_labeled(&mut self, ls: &mut Vec<Labeled>) -> (res: Result<bool, Ice>)
        requires
            old(self).wf(),
        ensures
            match rules::check_labeled(
                old(self)@,
                labeled_views(old(ls)@),
                0,
                Seq::empty(),
                true,
            ) {
                Ok(r) => {
                    &&& res == Ok::<bool, Ice>(r.all_static)
                    &&& final(self).wf()
                    &&& final(self)@ == r.stack
                    &&& labeled_views(final(ls)@) == r.exprs
                },
                Err(stop) => {
                    &&& res == Err::<bool, Ice>(stop.ice)
                    &&& final(self)@.reports == stop.reports
                },
            },
        decreases labeled_heights(labeled_views(old(ls)@)), 2nat, 0nat,
    {
        let ghost ls0 = labeled_views(ls@);
        let ghost mut done: Seq<LabeledView> = Seq::empty();
        let mut all_static = true;
        let mut i: usize = 0;
        proof {
            lemma_labeled_views(ls@);
            assert(done + ls0.skip(0) =~= ls0);
        }
        while i < ls.len()
            invariant
                i <= ls@.len(),
                ls@.len() == ls0.len(),
                ls0 == labeled_views(old(ls)@),
                self.wf(),
                done.len() == i,
                labeled_views(ls@) == done + ls0.skip(i as int),
                rules::check_labeled(self@, ls0, i as nat, done, all_static)
                    == rules::check_labeled(old(self)@, ls0, 0, Seq::empty(), true),
            decreases ls@.len() - i,
        {
            let ghost before = ls@;
            proof {
                lemma_labeled_next(ls@, ls0, done, i as int);
                lemma_labeled_heights(ls0, i as int);
                lemma_check_expr_keeps(self@, ls0[i as int].expr, Access::Value);
            }
            match self.check_expr(&mut ls[i].expr, Access::Value) {
                Ok(Lifetime::Static) => {},
                Ok(_) => {
                    all_static = false;
                },
                Err(ice) => {
                    return Err(ice);
                },
            }
            proof {
                assert(ls@ =~= before.update(i as int, ls@[i as int]));
                lemma_labeled_step(before, ls@, ls0, done, i as int);
                done = done.push(ls@[i as int]@);
            }
            i = i + 1;
        }
        assert(done + ls0.skip(i as int) =~= done);
        Ok(all_static)
    }

    /// Checks an expression that has the operator `op` before it, at `loc`.
    fn check_unary(
        &mut self,
        loc: Location,
        op: &str,
        expr: &mut Expression,
        access: Access,
    ) -> (res: Result<Lifetime, Ice>)
        requires
            old(self).wf(),
        ensures
            match rules::check_unary(old(self)@, loc, op@, old(expr)@, access) {
                Ok(r) => {
                    &&& res is Ok
                    &&& res->Ok_0@ == r.value
                    &&& final(self).wf()
                    &&& final(self)@ == r.stack
                    &&& r.expr == (ExprView::UnaryPre {
                        loc,
                        op: op@,
                        expr: Box::new(final(expr)@),
                    })
                },
                Err(stop) => {
                    &&& res == Err::<Lifetime, Ice>(stop.ice)
                    &&& final(self)@.reports == stop.reports
                },
            },
        decreases height(old(expr)@), 4nat, 0nat,
    {
        let ghost s0 = self@;
        let ghost e0 = expr@;
        if equal(op, "&") {
            proof {
                lemma_check_expr_keeps(s0, e0, Access::Storage);
            }
            let lf = match self.check_expr(expr, Access::Storage) {
                Ok(lf) => lf,
                Err(ice) => {
                    return Err(ice);
                },
            };
            if self.stack.len() == 0 {
                return Err(Ice::NoScope);
            }
            let here = expr.loc();
            proof {
                let n = self@.pointers.len();
                lemma_points_below(lf@, n, n + 1);
            }
            let temp_ptr = self.local(None, temporary_name(here), here, Tags::new());
            self.write(temp_ptr, lf, &here);
            return Ok(Lifetime::Pointer(temp_ptr));
        }
        if equal(op, "*") {
            proof {
                lemma_check_expr_keeps(s0, e0, Access::Value);
            }
            let v = match self.check_expr(expr, Access::Value) {
                Ok(v) => v,
                Err(ice) => {
                    return Err(ice);
                },
            };
            return match v {
                Lifetime::Uninitialized => Ok(Lifetime::Uninitialized),
                Lifetime::Pointer(to) => Ok(self.read(to, &expr.loc(), access)),
                _ => {
                    let ghost s1 = self@;
                    let ghost e1 = expr@;
                    proof {
                        lemma_check_expr_keeps(s1, e1, Access::Storage);
                        assert(rules::check_expr_again(height(e0), s1, e1, Access::Storage)
                            == rules::check_expr(s1, e1, Access::Storage));
                    }
                    let address = match self.check_expr(expr, Access::Storage) {
                        Ok(address) => address,
                        Err(ice) => {
                            return Err(ice);
                        },
                    };
                    if !address.is_pointer() {
                        return Err(Ice::NotAPointer);
                    }
                    let changed_here = self.pointers[address.as_pointer()].changed_here;
                    self.report(ReportOf::BadDereference { loc: expr.loc(), changed_here });
                    Ok(Lifetime::Uninitialized)
                },
            };
        }
        Ok(Lifetime::Uninitialized)
    }

    /// Checks an expression: what is known of its value, or of its storage.
    pub fn check_expr(&mut self, expr: &mut Expression, access: Access) -> (res: Result<
        Lifetime,
        Ice,
    >)
        requires
            old(self).wf(),
        ensures
            match rules::check_expr(old(self)@, old(expr)@, access) {
                Ok(r) => {
                    &&& res is Ok
                    &&& res->Ok_0@ == r.value
                    &&& final(self).wf()
                    &&& final(self)@ == r.stack
                    &&& final(expr)@ == r.expr
                },
                Err(stop) => {
                    &&& res == Err::<Lifetime, Ice>(stop.ice)
                    &&& final(self)@.reports == stop.reports
                },
            },
        decreases height(old(expr)@), 0nat, 0nat,
    {
        let ghost s0 = self@;
        match expr {
            Expression::Name(name) => {
                if name.name.is_ext() {
                    return Ok(Lifetime::Static);
                }
                Ok(self.check_name(&name.name, &name.loc, access))
            },
            Expression::MemberAccess { lhs: inner, op, .. } => {
                if equal(op.as_str(), "->") {
                    self.check_expr(inner, Access::Value)
                } else {
                    self.check_expr(inner, access)
                }
            },
            Expression::ArrayAccess { lhs: inner, .. } => self.check_expr(inner, access),
            Expression::Literal { loc, .. } => {
                if access == Access::Storage {
                    self.report(ReportOf::LiteralStorage { loc: *loc });
                    return Ok(Lifetime::Uninitialized);
                }
                Ok(Lifetime::Static)
            },
            Expression::Call { loc, name, args } => self.check_call(*loc, name, args),
            Expression::InfixOperation { loc, lhs: first, rhs: others } => {
                if access == Access::Storage {
                    self.report(ReportOf::InfixStorage { loc: *loc });
                    return Ok(Lifetime::Uninitialized);
                }
                proof {
                    lemma_check_labeled_keeps(
                        s0,
                        labeled_views(others@),
                        0,
                        Seq::empty(),
                        true,
                    );
                }
                match self.check_labeled(others) {
                    Ok(_) => {},
                    Err(ice) => {
                        return Err(ice);
                    },
                }
                self.check_expr(first, Access::Value)
            },
            Expression::Cast { expr, .. } => self.check_expr(expr, access),
            Expression::UnaryPost { expr, .. } => self.check_expr(expr, access),
            Expression::UnaryPre { loc, op, expr } => self.check_unary(
                *loc,
                op.as_str(),
                expr,
                access,
            ),
            Expression::StructInit { fields, .. } => match self.check_labeled(fields) {
                Ok(true) => Ok(Lifetime::Static),
                Ok(false) => Ok(Lifetime::Uninitialized),
                Err(ice) => Err(ice),
            },
            Expression::ArrayInit { fields, .. } => match self.check_elements(fields) {
                Ok(true) => Ok(Lifetime::Static),
                Ok(false) => Ok(Lifetime::Uninitialized),
                Err(ice) => Err(ice),
            },
        }
    }
}

} // verus!
