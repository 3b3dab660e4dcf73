//! Checking calls.

use vstd::prelude::*;
use crate::ast::{
    ExprView, Expression, NamedArg, Typed, arg_views, expr_views, lemma_expr_views,
    lemma_exprs_next, lemma_exprs_step,
};
use crate::lifetimes::rules;
use crate::lifetimes::frame::{
    lemma_check_call_arg_keeps, lemma_check_call_args_keeps, lemma_check_expr_keeps,
    lemma_extends_check_name,
};
use crate::lifetimes::rules::{Ice, height, heights, lemma_completed_heights, lemma_heights};
use crate::lifetimes::stack::{Lifetime, Stack, opt_lifetime_view};
use crate::lifetimes::state::{Access, lemma_points_below, points_below};
use crate::location::Location;
use crate::name::Name;
use crate::report::ReportOf;
use crate::tags::tag_views;

verus! {

/// The name of the storage that a call of `callee` at `loc` returns.
fn return_name(callee: &Name, loc: Location) -> (name: Name)
    ensures
        name@ == rules::return_name(callee@, loc),
{
    let mut t = "function call return ".to_owned();
    t.append(callee.to_text().as_str());
    t.append(" at ");
    t.append(loc.line_col().as_str());
    Name::from(t.as_str())
}

/// Completes the arguments of a call by those that the parameters have generated at the
/// callsite.
fn complete(params: &Vec<NamedArg>, args: &mut Vec<Expression>)
    ensures
        expr_views(final(args)@) == rules::completed(
            arg_views(params@),
            expr_views(old(args)@),
            0,
        ),
{
    let ghost ps = arg_views(params@);
    let mut i: usize = 0;
    while i < params.len()
        invariant
            i <= params@.len(),
            ps == arg_views(params@),
            rules::completed(ps, expr_views(args@), i as nat) == rules::completed(
                ps,
                expr_views(old(args)@),
                0,
            ),
        decreases params@.len() - i,
    {
        proof {
            lemma_expr_views(args@);
        }
        match params[i].tags.get("callsite_macro") {
            Some(generated) => {
                if i > args.len() {
                    return ;
                }
                let literal = Expression::Literal {
                    loc: generated[0].loc,
                    v: generated[0].value.clone(),
                };
                let ghost before = args@;
                assert(tag_views(generated@)[0] == generated@[0]@);
                args.insert(i, literal);
                proof {
                    lemma_expr_views(args@);
                    assert(expr_views(args@) =~= expr_views(before).insert(i as int, literal@));
                }
            },
            None => {},
        }
        i = i + 1;
    }
}

impl Stack {
    /// What a call returns: nothing with a lifetime, or a pointer to new storage for each
    /// pointer that the function returns.
    fn returned(&mut self, ret: &Option<Box<Lifetime>>, callee: &Name, loc: Location) -> (res:
        Result<Lifetime, Ice>)
        requires
            old(self).wf(),
            ret matches Some(r) ==> points_below(r@, old(self)@.pointers.len()),
        ensures
            match rules::returned(old(self)@, opt_lifetime_view(*ret), callee@, loc) {
                Ok((s, value)) => {
                    &&& res is Ok
                    &&& res->Ok_0@ == value
                    &&& final(self).wf()
                    &&& final(self)@ == s
                },
                Err(stop) => {
                    &&& res == Err::<Lifetime, Ice>(stop.ice)
                    &&& final(self)@.reports == stop.reports
                },
            },
    {
        let first = match ret {
            Some(first) => first,
            None => {
                return Ok(Lifetime::Static);
            },
        };
        let mut next = (&**first).clone();
        let mut site = (&**first).clone();
        let mut fuel: usize = self.pointers.len();
        loop
            invariant
                self.wf(),
                points_below(next@, self@.pointers.len()),
                points_below(site@, self@.pointers.len()),
                rules::copy_returned(self@, next@, site@, callee@, loc, fuel as nat)
                    == rules::returned(old(self)@, opt_lifetime_view(*ret), callee@, loc),
            decreases fuel,
        {
            let p = match &next {
                Lifetime::Pointer(p) => *p,
                _ => {
                    return Ok(site);
                },
            };
            if self.stack.len() == 0 {
                return Err(Ice::NoScope);
            }
            if fuel == 0 {
                return Err(Ice::EndlessReturn);
            }
            let ghost s = self@;
            let tags = self.pointers[p].tags.clone();
            next = self.pointers[p].value.clone();
            proof {
                assert(points_below(s.pointers[p as int].value, s.pointers.len()));
                lemma_points_below(next@, s.pointers.len(), s.pointers.len() + 1);
                lemma_points_below(site@, s.pointers.len(), s.pointers.len() + 1);
            }
            let made = self.local(None, return_name(callee, loc), loc, tags);
            self.write(made, site, &loc);
            site = Lifetime::Pointer(made);
            fuel = fuel - 1;
        }
    }

    /// Checks an argument of a call against its parameter.
    pub fn check_call_arg(&mut self, stack: &NamedArg, callsite: &mut Expression) -> (res: Result<
        (),
        Ice,
    >)
        requires
            old(self).wf(),
        ensures
            match rules::check_call_arg(old(self)@, stack@, old(callsite)@) {
                Ok((s, e)) => {
                    &&& res is Ok
                    &&& final(self).wf()
                    &&& final(self)@ == s
                    &&& final(callsite)@ == e
                },
                Err(stop) => {
                    &&& res == Err::<(), Ice>(stop.ice)
                    &&& final(self)@.reports == stop.reports
                },
            },
        decreases height(old(callsite)@), 2nat, 0nat,
    {
        let ghost s0 = self@;
        let ghost e0 = callsite@;
        proof {
            lemma_check_expr_keeps(s0, e0, Access::Value);
        }
        match self.check_expr(callsite, Access::Value) {
            Ok(Lifetime::Static) => {
                return Ok(());
            },
            Ok(_) => {},
            Err(ice) => {
                return Err(ice);
            },
        }
        let ghost s1 = self@;
        let ghost e1 = callsite@;
        proof {
            lemma_check_expr_keeps(s1, e1, Access::Storage);
            assert(rules::check_expr_again(height(e0), s1, e1, Access::Storage)
                == rules::check_expr(s1, e1, Access::Storage));
        }
        let address = match self.check_expr(callsite, Access::Storage) {
            Ok(address) => address,
            Err(ice) => {
                return Err(ice);
            },
        };
        if !address.is_pointer() {
            return Err(Ice::NotAPointer);
        }
        self.check_levels(&stack.typed, callsite.loc(), address.as_pointer());
        Ok(())
    }

    /// Checks the arguments of a call against the parameters. What follows the last parameter is
    /// not checked.
    fn check_call_args(&mut self, params: &Vec<NamedArg>, args: &mut Vec<Expression>) -> (res:
        Result<(), Ice>)
        requires
            old(self).wf(),
            params@.len() <= old(args)@.len(),
        ensures
            match rules::check_call_args(
                old(self)@,
                arg_views(params@),
                expr_views(old(args)@),
                0,
                Seq::empty(),
            ) {
                Ok((s, es)) => {
                    &&& res is Ok
                    &&& final(self).wf()
                    &&& final(self)@ == s
                    &&& expr_views(final(args)@) == es
                },
                Err(stop) => {
                    &&& res == Err::<(), Ice>(stop.ice)
                    &&& final(self)@.reports == stop.reports
                },
            },
        decreases heights(expr_views(old(args)@)), 3nat, 0nat,
    {
        let ghost ps = arg_views(params@);
        let ghost es0 = expr_views(args@);
        let ghost mut done: Seq<ExprView> = Seq::empty();
        let mut i: usize = 0;
        proof {
            lemma_expr_views(args@);
            assert(done + es0.skip(0) =~= es0);
        }
        while i < params.len()
            invariant
                i <= params@.len(),
                params@.len() <= args@.len(),
                args@.len() == es0.len(),
                ps == arg_views(params@),
                es0 == expr_views(old(args)@),
                self.wf(),
                done.len() == i,
                expr_views(args@) == done + es0.skip(i as int),
                rules::check_call_args(self@, ps, es0, i as nat, done) == rules::check_call_args(
                    old(self)@,
                    ps,
                    es0,
                    0,
                    Seq::empty(),
                ),
            decreases params@.len() - i,
        {
            let ghost before = args@;
            proof {
                lemma_exprs_next(args@, es0, done, i as int);
                lemma_heights(es0, i as int);
                lemma_check_call_arg_keeps(self@, ps[i as int], es0[i as int]);
            }
            match self.check_call_arg(&params[i], &mut args[i]) {
                Ok(()) => {},
                Err(ice) => {
                    return Err(ice);
                },
            }
            proof {
                assert(args@ =~= before.update(i as int, args@[i as int]));
                lemma_exprs_step(before, args@, es0, done, i as int);
                done = done.push(args@[i as int]@);
            }
            i = i + 1;
        }
        Ok(())
    }

    /// Checks a call that stands at `loc`.
    pub fn check_call(&mut self, loc: Location, name: &Typed, callargs: &mut Vec<Expression>) -> (
        res: Result<Lifetime, Ice>)
        requires
            old(self).wf(),
        ensures
            match rules::check_call(old(self)@, loc, name@, expr_views(old(callargs)@)) {
                Ok(r) => {
                    &&& res is Ok
                    &&& res->Ok_0@ == r.value
                    &&& final(self).wf()
                    &&& final(self)@ == r.stack
                    &&& r.expr == (ExprView::Call {
                        loc,
                        name: name@,
                        args: expr_views(final(callargs)@),
                    })
                },
                Err(stop) => {
                    &&& res == Err::<Lifetime, Ice>(stop.ice)
                    &&& final(self)@.reports == stop.reports
                },
            },
        decreases heights(expr_views(old(callargs)@)), 4nat, 0nat,
    {
        if name.name.is_ext() {
            return Ok(Lifetime::Static);
        }
        proof {
            lemma_extends_check_name(self@, name@.name, name@.loc, Access::Value);
        }
        match self.check_name(&name.name, &name.loc, Access::Value) {
            Lifetime::Function { ret, args, vararg } => {
                let ghost s1 = self@;
                proof {
                    lemma_completed_heights(arg_views(args@), expr_views(callargs@), 0);
                }
                complete(&args, callargs);
                proof {
                    lemma_expr_views(callargs@);
                }
                let expected: usize = args.len();
                let passed: usize = callargs.len();
                if (!vararg && expected != passed) || (vararg && expected > passed) {
                    self.report(ReportOf::ArgumentCount { loc: name.loc, expected, passed });
                    return Ok(Lifetime::Uninitialized);
                }
                proof {
                    lemma_check_call_args_keeps(
                        s1,
                        arg_views(args@),
                        expr_views(callargs@),
                        0,
                        Seq::empty(),
                    );
                }
                match self.check_call_args(&args, callargs) {
                    Ok(()) => {},
                    Err(ice) => {
                        return Err(ice);
                    },
                }
                proof {
                    if ret is Some {
                        lemma_points_below(
                            ret->Some_0@,
                            s1.pointers.len(),
                            self@.pointers.len(),
                        );
                    }
                }
                self.returned(&ret, &name.name, loc)
            },
            Lifetime::Static => Ok(Lifetime::Static),
            _ => {
                self.report(ReportOf::NotAFunction { loc: name.loc });
                Ok(Lifetime::Uninitialized)
            },
        }
    }
}

} // verus!
