//! Checking statements.

use vstd::prelude::*;
use crate::ast::{
    Block, Expression, Statement, StmtView, lemma_stmt_views, lemma_stmts_next, lemma_stmts_step,
    opt_expr_view, opt_stmt_view, stmt_views,
};
use crate::lifetimes::rules;
use crate::lifetimes::frame::{
    lemma_check_block_keeps, lemma_check_expr_keeps, lemma_check_opt_expr_keeps,
    lemma_check_opt_stm_keeps, lemma_check_stm_keeps, lemma_extends_local,
};
use crate::lifetimes::rules::Ice;
use crate::lifetimes::stack::{Lifetime, Owed, Stack, owed_views};
use crate::lifetimes::state::{Access, StackView, lemma_points_below, points_below};
use crate::location::Location;
use crate::name::Name;
use crate::report::ReportOf;
use crate::tags::Tags;
use crate::text::{equal, pieces};

verus! {

/// Puts a mark on tags. `safe` and `pure` take tags off.
fn mark_tags(tags: &mut Tags, key: &String, value: &String, loc: Location)
    ensures
        final(tags)@ == rules::marked(old(tags)@, key@, value@, loc),
{
    if equal(key.as_str(), "safe") {
        tags.remove("unsafe", None);
    } else if equal(key.as_str(), "pure") {
        tags.remove("tainted", None);
    } else {
        tags.insert(key.clone(), value.clone(), loc);
    }
}

impl Stack {
    /// Checks the statements of a block, in the scope that is open.
    pub fn check_block(&mut self, body: &mut Block) -> (res: Result<(), Ice>)
        requires
            old(self).wf(),
        ensures
            match rules::check_block(old(self)@, old(body)@.statements, 0, Seq::empty()) {
                Ok((s, statements)) => {
                    &&& res is Ok
                    &&& final(self).wf()
                    &&& final(self)@ == s
                    &&& final(body)@.statements == statements
                    &&& final(body)@.end == old(body)@.end
                },
                Err(stop) => {
                    &&& res == Err::<(), Ice>(stop.ice)
                    &&& final(self)@.reports == stop.reports
                },
            },
        decreases old(body)@.statements, 1nat,
    {
        let ghost all = stmt_views(body.statements@);
        let ghost mut done: Seq<StmtView> = Seq::empty();
        let mut i: usize = 0;
        proof {
            lemma_stmt_views(body.statements@);
            assert(done + all.skip(0) =~= all);
        }
        while i < body.statements.len()
            invariant
                i <= body.statements@.len(),
                body.statements@.len() == all.len(),
                all == old(body)@.statements,
                body.end == old(body).end,
                self.wf(),
                done.len() == i,
                stmt_views(body.statements@) == done + all.skip(i as int),
                rules::check_block(self@, all, i as nat, done) == rules::check_block(
                    old(self)@,
                    all,
                    0,
                    Seq::empty(),
                ),
            decreases body.statements@.len() - i,
        {
            let ghost before = body.statements@;
            proof {
                lemma_stmts_next(before, all, done, i as int);
                lemma_check_stm_keeps(self@, all[i as int]);
            }
            match self.check_stm(&mut body.statements[i]) {
                Ok(()) => {},
                Err(ice) => {
                    return Err(ice);
                },
            }
            proof {
                let after = body.statements@;
                assert(after =~= before.update(i as int, after[i as int]));
                lemma_stmts_step(before, after, all, done, i as int);
                done = done.push(after[i as int]@);
            }
            i = i + 1;
        }
        assert(done + all.skip(i as int) =~= done);
        Ok(())
    }

    /// Checks the value of an expression, if there is one.
    fn check_opt_expr(&mut self, expr: &mut Option<Expression>) -> (res: Result<(), Ice>)
        requires
            old(self).wf(),
        ensures
            match rules::check_opt_expr(old(self)@, opt_expr_view(*old(expr))) {
                Ok((s, e)) => {
                    &&& res is Ok
                    &&& final(self).wf()
                    &&& final(self)@ == s
                    &&& opt_expr_view(*final(expr)) == e
                },
                Err(stop) => {
                    &&& res == Err::<(), Ice>(stop.ice)
                    &&& final(self)@.reports == stop.reports
                },
            },
    {
        match expr {
            Some(expr) => match self.check_expr(expr, Access::Value) {
                Ok(_) => Ok(()),
                Err(ice) => Err(ice),
            },
            None => Ok(()),
        }
    }

    /// Checks a statement, if there is one.
    fn check_opt_stm(&mut self, stm: &mut Option<Box<Statement>>) -> (res: Result<(), Ice>)
        requires
            old(self).wf(),
        ensures
            match rules::check_opt_stm(old(self)@, opt_stmt_view(*old(stm))) {
                Ok((s, e)) => {
                    &&& res is Ok
                    &&& final(self).wf()
                    &&& final(self)@ == s
                    &&& opt_stmt_view(*final(stm)) == e
                },
                Err(stop) => {
                    &&& res == Err::<(), Ice>(stop.ice)
                    &&& final(self)@.reports == stop.reports
                },
            },
        decreases opt_stmt_view(*old(stm)), 0nat,
    {
        match stm {
            Some(stm) => self.check_stm(stm),
            None => Ok(()),
        }
    }

    /// Assigns a value to the storage that `target` points to.
    fn assign(&mut self, target: &Lifetime, value: Lifetime, loc: Location)
        requires
            old(self).wf(),
            points_below(target@, old(self)@.pointers.len()),
            points_below(value@, old(self)@.pointers.len()),
        ensures
            final(self).wf(),
            final(self)@ == rules::assigned(old(self)@, target@, value@, loc),
    {
        match target {
            Lifetime::Pointer(to) => {
                if !self.pointers[*to].tags.contains_key("mutable") {
                    let stored_here = self.pointers[*to].stored_here;
                    self.report(ReportOf::ImmutableAssign { loc, stored_here });
                }
                self.write(*to, value, &loc);
            },
            _ => {
                self.report(ReportOf::InvalidLvalue { loc });
            },
        }
    }

    /// Leaves the function: whatever had to be moved by now, and was not, is lost.
    fn leave(&mut self, loc: Location)
        requires
            old(self).wf(),
        ensures
            final(self).wf(),
            final(self)@ == rules::left(old(self)@, loc),
    {
        let mut owed: Vec<Owed> = Vec::new();
        std::mem::swap(&mut owed, &mut self.must_move_before_ret);
        let ghost all = owed_views(owed@);
        proof {
            assert(owed_views(self.must_move_before_ret@) =~= Seq::empty());
            let cleared = StackView { must_move_before_ret: Seq::empty(), ..old(self)@ };
            assert(self@ =~= cleared);
            assert(self@.wf()) by {
                assert(self@.pointers == old(self)@.pointers);
                assert(self@.stack == old(self)@.stack);
            }
        }
        let mut i: usize = 0;
        while i < owed.len()
            invariant
                i <= owed@.len(),
                all == owed_views(owed@),
                self.wf(),
                forall|j: int|
                    0 <= j < all.len() ==> (#[trigger] all[j]).0 < self@.pointers.len(),
                rules::orphaned(self@, all, loc, i as nat) == rules::left(old(self)@, loc),
            decreases owed@.len() - i,
        {
            let p: usize = owed[i].ptr;
            let call_loc = owed[i].loc;
            assert(all[i as int] == (p as nat, call_loc));
            let moved = match &self.pointers[p].value {
                Lifetime::Moved { .. } => true,
                _ => false,
            };
            if !moved {
                self.report(ReportOf::Orphaned { call_loc, loc });
            }
            i = i + 1;
        }
    }

    /// Puts a mark on the storage that an expression names.
    fn check_mark(
        &mut self,
        loc: Location,
        target: &mut Expression,
        key: &String,
        value: &String,
    ) -> (res: Result<(), Ice>)
        requires
            old(self).wf(),
        ensures
            match rules::check_mark(old(self)@, loc, old(target)@, key@, value@) {
                Ok((s, e)) => {
                    &&& res is Ok
                    &&& final(self).wf()
                    &&& final(self)@ == s
                    &&& final(target)@ == e
                },
                Err(stop) => {
                    &&& res == Err::<(), Ice>(stop.ice)
                    &&& final(self)@.reports == stop.reports
                },
            },
    {
        let ghost s0 = self@;
        proof {
            lemma_check_expr_keeps(s0, target@, Access::Storage);
        }
        let address = match self.check_expr(target, Access::Storage) {
            Ok(address) => address,
            Err(ice) => {
                return Err(ice);
            },
        };
        if address.is_pointer() {
            let to: usize = address.as_pointer();
            let mut tags = self.pointers[to].tags.clone();
            mark_tags(&mut tags, key, value, loc);
            self.set_tags(to, tags);
        } else {
            self.report(ReportOf::MarkTarget { loc: target.loc() });
        }
        Ok(())
    }

    /// Declares a variable, which its first value may already name.
    fn check_var(
        &mut self,
        loc: Location,
        name: &str,
        tags: &Tags,
        assign: &mut Option<Expression>,
    ) -> (res: Result<(), Ice>)
        requires
            old(self).wf(),
        ensures
            match rules::check_var(old(self)@, loc, name@, tags@, opt_expr_view(*old(assign))) {
                Ok((s, e)) => {
                    &&& res is Ok
                    &&& final(self).wf()
                    &&& final(self)@ == s
                    &&& opt_expr_view(*final(assign)) == e
                },
                Err(stop) => {
                    &&& res == Err::<(), Ice>(stop.ice)
                    &&& final(self)@.reports == stop.reports
                },
            },
    {
        if self.stack.len() == 0 {
            return Err(Ice::NoScope);
        }
        let ghost s0 = self@;
        let mut stack_tags = tags.clone();
        let empty = String::new();
        assert(empty@ == Seq::<char>::empty());
        stack_tags.insert("stack".to_owned(), empty, loc);
        let ptr = self.local(None, Name::from(name), loc, stack_tags);
        proof {
            lemma_extends_local(
                s0,
                None,
                pieces(name@),
                loc,
                stack_tags@,
            );
        }
        match assign {
            Some(assign) => {
                proof {
                    lemma_check_expr_keeps(self@, assign@, Access::Value);
                }
                let value = match self.check_expr(assign, Access::Value) {
                    Ok(value) => value,
                    Err(ice) => {
                        return Err(ice);
                    },
                };
                match value {
                    Lifetime::Uninitialized => {
                        self.report(ReportOf::UnknownRvalue { loc: assign.loc() });
                    },
                    _ => {},
                }
                self.write(ptr, value, &loc);
            },
            None => {},
        }
        Ok(())
    }

    /// Assigns a value to the storage that an expression names.
    fn check_assign(&mut self, target: &mut Expression, source: &mut Expression) -> (res: Result<
        (),
        Ice,
    >)
        requires
            old(self).wf(),
        ensures
            match rules::check_assign(old(self)@, old(target)@, old(source)@) {
                Ok((s, to, from)) => {
                    &&& res is Ok
                    &&& final(self).wf()
                    &&& final(self)@ == s
                    &&& final(target)@ == to
                    &&& final(source)@ == from
                },
                Err(stop) => {
                    &&& res == Err::<(), Ice>(stop.ice)
                    &&& final(self)@.reports == stop.reports
                },
            },
    {
        let ghost s0 = self@;
        proof {
            lemma_check_expr_keeps(s0, source@, Access::Value);
        }
        let value = match self.check_expr(source, Access::Value) {
            Ok(value) => value,
            Err(ice) => {
                return Err(ice);
            },
        };
        match value {
            Lifetime::Uninitialized => {
                self.report(ReportOf::InvalidRvalue { loc: source.loc() });
            },
            _ => {},
        }
        let ghost s1 = self@;
        proof {
            lemma_check_expr_keeps(s1, target@, Access::Storage);
        }
        let address = match self.check_expr(target, Access::Storage) {
            Ok(address) => address,
            Err(ice) => {
                return Err(ice);
            },
        };
        proof {
            lemma_points_below(value@, s1.pointers.len(), self@.pointers.len());
        }
        self.assign(&address, value, target.loc());
        Ok(())
    }

    /// Checks a block, in a scope of its own.
    fn check_plain_block(&mut self, stm: &mut Statement) -> (res: Result<(), Ice>)
        requires
            old(self).wf(),
            *old(stm) is Block,
        ensures
            match rules::check_stm(old(self)@, old(stm)@) {
                Ok((s, t)) => {
                    &&& res is Ok
                    &&& final(self).wf()
                    &&& final(self)@ == s
                    &&& final(stm)@ == t
                },
                Err(stop) => {
                    &&& res == Err::<(), Ice>(stop.ice)
                    &&& final(self)@.reports == stop.reports
                },
            },
        decreases old(stm)@, 0nat,
    {
        match stm {
            Statement::Block(block) => {
                self.push("block");
                proof {
                    lemma_check_block_keeps(self@, block@.statements, 0, Seq::empty());
                }
                match self.check_block(block) {
                    Ok(()) => {},
                    Err(ice) => {
                        return Err(ice);
                    },
                }
                self.pop(&block.end);
                Ok(())
            },
            _ => {
                assert(false);
                Ok(())
            },
        }
    }

    /// Checks a condition and what depends on it, in a scope of their own.
    fn check_cond(&mut self, stm: &mut Statement) -> (res: Result<(), Ice>)
        requires
            old(self).wf(),
            *old(stm) is Cond,
        ensures
            match rules::check_stm(old(self)@, old(stm)@) {
                Ok((s, t)) => {
                    &&& res is Ok
                    &&& final(self).wf()
                    &&& final(self)@ == s
                    &&& final(stm)@ == t
                },
                Err(stop) => {
                    &&& res == Err::<(), Ice>(stop.ice)
                    &&& final(self)@.reports == stop.reports
                },
            },
        decreases old(stm)@, 0nat,
    {
        match stm {
            Statement::Cond { expr, body } => {
                self.push("if");
                proof {
                    lemma_check_opt_expr_keeps(self@, opt_expr_view(*expr));
                }
                match self.check_opt_expr(expr) {
                    Ok(()) => {},
                    Err(ice) => {
                        return Err(ice);
                    },
                }
                proof {
                    lemma_check_block_keeps(self@, body@.statements, 0, Seq::empty());
                }
                match self.check_block(body) {
                    Ok(()) => {},
                    Err(ice) => {
                        return Err(ice);
                    },
                }
                self.pop(&body.end);
                Ok(())
            },
            _ => {
                assert(false);
                Ok(())
            },
        }
    }

    /// Checks a loop, in a scope of its own.
    fn check_for(&mut self, stm: &mut Statement) -> (res: Result<(), Ice>)
        requires
            old(self).wf(),
            *old(stm) is For,
        ensures
            match rules::check_stm(old(self)@, old(stm)@) {
                Ok((s, t)) => {
                    &&& res is Ok
                    &&& final(self).wf()
                    &&& final(self)@ == s
                    &&& final(stm)@ == t
                },
                Err(stop) => {
                    &&& res == Err::<(), Ice>(stop.ice)
                    &&& final(self)@.reports == stop.reports
                },
            },
        decreases old(stm)@, 0nat,
    {
        match stm {
            Statement::For { e1, e2, e3, body } => {
                self.push("for");
                proof {
                    lemma_check_opt_stm_keeps(self@, opt_stmt_view(*e1));
                }
                match self.check_opt_stm(e1) {
                    Ok(()) => {},
                    Err(ice) => {
                        return Err(ice);
                    },
                }
                proof {
                    lemma_check_opt_stm_keeps(self@, opt_stmt_view(*e2));
                }
                match self.check_opt_stm(e2) {
                    Ok(()) => {},
                    Err(ice) => {
                        return Err(ice);
                    },
                }
                proof {
                    lemma_check_opt_stm_keeps(self@, opt_stmt_view(*e3));
                }
                match self.check_opt_stm(e3) {
                    Ok(()) => {},
                    Err(ice) => {
                        return Err(ice);
                    },
                }
                proof {
                    lemma_check_block_keeps(self@, body@.statements, 0, Seq::empty());
                }
                match self.check_block(body) {
                    Ok(()) => {},
                    Err(ice) => {
                        return Err(ice);
                    },
                }
                self.pop(&body.end);
                Ok(())
            },
            _ => {
                assert(false);
                Ok(())
            },
        }
    }

    /// Checks a statement.
    pub fn check_stm(&mut self, stm: &mut Statement) -> (res: Result<(), Ice>)
        requires
            old(self).wf(),
        ensures
            match rules::check_stm(old(self)@, old(stm)@) {
                Ok((s, t)) => {
                    &&& res is Ok
                    &&& final(self).wf()
                    &&& final(self)@ == s
                    &&& final(stm)@ == t
                },
                Err(stop) => {
                    &&& res == Err::<(), Ice>(stop.ice)
                    &&& final(self)@.reports == stop.reports
                },
            },
        decreases old(stm)@, 1nat,
    {
        match stm {
            Statement::Mark { loc, lhs: target, key, value } => self.check_mark(
                *loc,
                target,
                key,
                value,
            ),
            Statement::Block(_) => self.check_plain_block(stm),
            Statement::Cond { .. } => self.check_cond(stm),
            Statement::For { .. } => self.check_for(stm),
            Statement::Expr { expr, .. } => match self.check_expr(expr, Access::Value) {
                Ok(_) => Ok(()),
                Err(ice) => Err(ice),
            },
            Statement::Var { loc, name, tags, assign } => self.check_var(
                *loc,
                name.as_str(),
                tags,
                assign,
            ),
            Statement::Assign { lhs: target, rhs: source, .. } => self.check_assign(target, source),
            Statement::Return { loc, expr } => {
                match self.check_opt_expr(expr) {
                    Ok(()) => {},
                    Err(ice) => {
                        return Err(ice);
                    },
                }
                self.leave(*loc);
                Ok(())
            },
            Statement::Goto { .. } => Ok(()),
            Statement::Label { .. } => Ok(()),
            Statement::Break { .. } => Ok(()),
        }
    }
}

} // verus!
