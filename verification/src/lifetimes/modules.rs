//! Checking modules.

use vstd::prelude::*;
use crate::ast::{
    CName, D, DView, Def, Local, Module, NamedArg, Typed, arg_views, c_name_views, d_views,
    opt_typed_view,
};
use crate::lifetimes::rules;
use crate::lifetimes::frame::lemma_check_block_keeps;
use crate::lifetimes::rules::Ice;
use crate::lifetimes::stack::{Lifetime, Stack};
use crate::lifetimes::state::{LifetimeView, StackView, lemma_points_below, points_below};
use crate::location::Location;
use crate::name::Name;
use crate::report::{Report, has_error, report_views};
use crate::tags::Tags;
use crate::text::{decimal_text, pieces};

verus! {

/// What checking a module found: everything to report, and whether an error was found in it or
/// before, so that nothing must be built.
#[derive(Debug)]
pub struct Checked {
    pub reports: Vec<Report>,
    pub abort: bool,
}

/// The name that is written as `front` and then `back`.
fn compound_name(front: &str, back: &str) -> (name: Name)
    ensures
        name@ == pieces(front@ + back@),
{
    let mut t = front.to_owned();
    t.append(back);
    Name::from(t.as_str())
}

/// The tags of storage behind a pointer: what is not given away is borrowed.
fn behind_pointer(tags: &Tags, loc: Location) -> (behind: Tags)
    ensures
        behind@ == rules::behind_pointer(tags@, loc),
{
    let mut behind = tags.clone();
    if !behind.contains_key("move") {
        let empty = String::new();
        assert(empty@ == Seq::<char>::empty());
        behind.insert("borrowed".to_owned(), empty, loc);
    }
    behind
}

impl Stack {
    /// Binds a name of the module to something that is never dropped.
    fn define_static(&mut self, typ: Option<Typed>, name: Name, loc: Location, tags: Tags)
        requires
            old(self).wf(),
            old(self)@.stack.len() > 0,
        ensures
            final(self).wf(),
            final(self)@ == rules::define_static(
                old(self)@,
                opt_typed_view(typ),
                name@,
                loc,
                tags@,
            ),
    {
        let ptr = self.local(typ, name, loc, tags);
        self.write(ptr, Lifetime::Static, &loc);
    }

    /// Binds the names that C code provides.
    fn define_c_names(&mut self, names: &Vec<CName>)
        requires
            old(self).wf(),
            old(self)@.stack.len() > 0,
        ensures
            final(self).wf(),
            final(self)@.stack.len() == old(self)@.stack.len(),
            final(self)@ == rules::define_c_names(old(self)@, c_name_views(names@), 0),
    {
        let ghost all = c_name_views(names@);
        let mut i: usize = 0;
        while i < names.len()
            invariant
                i <= names@.len(),
                all == c_name_views(names@),
                self.wf(),
                self@.stack.len() > 0,
                self@.stack.len() == old(self)@.stack.len(),
                rules::define_c_names(self@, all, i as nat) == rules::define_c_names(
                    old(self)@,
                    all,
                    0,
                ),
            decreases names@.len() - i,
        {
            self.define_static(None, names[i].name.clone(), names[i].loc, Tags::new());
            i = i + 1;
        }
    }

    /// Makes storage for each pointer that a function returns.
    fn define_return(&mut self, function: &str, typed: &Typed) -> (value: Lifetime)
        requires
            old(self).wf(),
            old(self)@.stack.len() > 0,
        ensures
            final(self).wf(),
            final(self)@.stack.len() == old(self)@.stack.len(),
            final(self)@.pointers.len() >= old(self)@.pointers.len(),
            points_below(value@, final(self)@.pointers.len()),
            (final(self)@, value@) == rules::define_return(
                old(self)@,
                function@,
                typed@,
                0,
                LifetimeView::Static,
            ),
    {
        let mut inner = Lifetime::Static;
        let mut i: usize = 0;
        while i < typed.ptr.len()
            invariant
                i <= typed.ptr@.len(),
                self.wf(),
                self@.stack.len() > 0,
                self@.stack.len() == old(self)@.stack.len(),
                self@.pointers.len() >= old(self)@.pointers.len(),
                points_below(inner@, self@.pointers.len()),
                rules::define_return(self@, function@, typed@, i as nat, inner@)
                    == rules::define_return(
                    old(self)@,
                    function@,
                    typed@,
                    0,
                    LifetimeView::Static,
                ),
            decreases typed.ptr@.len() - i,
        {
            let ghost s = self@;
            proof {
                lemma_points_below(inner@, s.pointers.len(), s.pointers.len() + 1);
            }
            let tags = behind_pointer(&typed.ptr[i].tags, typed.loc);
            let name = compound_name("return value of ", function);
            let made = self.local(Some(typed.clone()), name, typed.loc, tags);
            self.write(made, inner, &typed.loc);
            let ghost s1 = self@;
            self.current_return_ptr = Some(made);
            proof {
                let t = StackView { current_return_ptr: Some(made as nat), ..s1 };
                assert(self@ =~= t);
                assert(self@.pointers == s1.pointers);
                assert(self@.stack == s1.stack);
                assert(self@.wf());
            }
            inner = Lifetime::Pointer(made);
            i = i + 1;
        }
        inner
    }

    /// Binds an argument of a function, with storage for all that it points to.
    fn define_arg(&mut self, arg: &NamedArg)
        requires
            old(self).wf(),
            old(self)@.stack.len() > 0,
        ensures
            final(self).wf(),
            final(self)@.stack.len() == old(self)@.stack.len(),
            final(self)@.pointers.len() >= old(self)@.pointers.len(),
            final(self)@ == rules::define_arg(old(self)@, arg@),
    {
        let mut at = self.local(
            Some(arg.typed.clone()),
            Name::from(arg.name.as_str()),
            arg.loc,
            arg.tags.clone(),
        );
        let ghost s0 = self@;
        let ghost at0 = at;
        let n: usize = arg.typed.ptr.len();
        let mut depth: usize = 0;
        while depth < n
            invariant
                depth <= n,
                n == arg.typed.ptr@.len(),
                self.wf(),
                self@.stack.len() > 0,
                self@.stack.len() == old(self)@.stack.len(),
                self@.pointers.len() >= old(self)@.pointers.len(),
                at < self@.pointers.len(),
                rules::define_arg_levels(self@, arg@, at as nat, depth as nat)
                    == rules::define_arg_levels(s0, arg@, at0 as nat, 0),
            decreases n - depth,
        {
            let tags = behind_pointer(&arg.typed.ptr[n - 1 - depth].tags, arg.loc);
            let name = compound_name(
                "__builtin::pointer_to_callsite::",
                decimal_text(at).as_str(),
            );
            let site = self.local(Some(arg.typed.clone()), name, arg.loc, tags);
            self.write(at, Lifetime::Pointer(site), &arg.loc);
            at = site;
            depth = depth + 1;
        }
        let name = compound_name("__builtin::callstack::", decimal_text(at).as_str());
        let site = self.local(Some(arg.typed.clone()), name, arg.loc, arg.tags.clone());
        self.write(at, Lifetime::Pointer(site), &arg.loc);
    }

    /// Binds the arguments of a function.
    fn define_args(&mut self, args: &Vec<NamedArg>)
        requires
            old(self).wf(),
            old(self)@.stack.len() > 0,
        ensures
            final(self).wf(),
            final(self)@.stack.len() == old(self)@.stack.len(),
            final(self)@.pointers.len() >= old(self)@.pointers.len(),
            final(self)@ == rules::define_args(old(self)@, arg_views(args@), 0),
    {
        let ghost all = arg_views(args@);
        let mut i: usize = 0;
        while i < args.len()
            invariant
                i <= args@.len(),
                all == arg_views(args@),
                self.wf(),
                self@.stack.len() > 0,
                self@.stack.len() == old(self)@.stack.len(),
                self@.pointers.len() >= old(self)@.pointers.len(),
                rules::define_args(self@, all, i as nat) == rules::define_args(
                    old(self)@,
                    all,
                    0,
                ),
            decreases args@.len() - i,
        {
            self.define_arg(&args[i]);
            i = i + 1;
        }
    }

    /// Checks a definition of the module. A function can be called only from behind its
    /// definition.
    pub fn check_local(&mut self, local: &mut Local) -> (res: Result<(), Ice>)
        requires
            old(self).wf(),
            old(self)@.stack.len() > 0,
        ensures
            match rules::check_local(old(self)@, old(local)@) {
                Ok((s, l)) => {
                    &&& res is Ok
                    &&& final(self).wf()
                    &&& final(self)@.stack.len() == old(self)@.stack.len()
                    &&& final(self)@ == s
                    &&& final(local)@ == l
                },
                Err(stop) => {
                    &&& res == Err::<(), Ice>(stop.ice)
                    &&& final(self)@.reports == stop.reports
                },
            },
    {
        match &mut local.def {
            Def::Macro => {
                self.define_static(None, Name::from(local.name.as_str()), local.loc, Tags::new());
                Ok(())
            },
            Def::Static { typed, tags } => {
                self.define_static(
                    Some(typed.clone()),
                    Name::from(local.name.as_str()),
                    local.loc,
                    tags.clone(),
                );
                Ok(())
            },
            Def::Function { ret, args, vararg, body } => {
                let ptr = self.local(
                    None,
                    Name::from(local.name.as_str()),
                    local.loc,
                    Tags::new(),
                );
                let ret_value = match ret {
                    Some(typed) => Some(
                        Box::new(self.define_return(local.name.as_str(), typed)),
                    ),
                    None => None,
                };
                let ghost s2 = self@;
                self.push(local.name.as_str());
                self.define_args(args);
                let ghost s3 = self@;
                proof {
                    lemma_check_block_keeps(s3, body@.statements, 0, Seq::empty());
                }
                match self.check_block(body) {
                    Ok(()) => {},
                    Err(ice) => {
                        return Err(ice);
                    },
                }
                let args_copy = args.clone();
                proof {
                    assert(arg_views(args_copy@) =~= arg_views(args@));
                    if ret_value is Some {
                        lemma_points_below(
                            ret_value->Some_0@,
                            s2.pointers.len(),
                            self@.pointers.len(),
                        );
                    }
                }
                let value = Lifetime::Function {
                    ret: ret_value,
                    args: args_copy,
                    vararg: *vararg,
                };
                self.write(ptr, value, &local.loc);
                self.pop(&body.end);
                let ghost s5 = self@;
                self.current_return_ptr = None;
                proof {
                    assert(self@ =~= StackView { current_return_ptr: None, ..s5 });
                    assert(self@.pointers == s5.pointers);
                    assert(self@.stack == s5.stack);
                    assert(self@.wf());
                }
                Ok(())
            },
            Def::Other => Ok(()),
        }
    }
}

/// What is left of checking a module that broke off: why it did, and everything to report that
/// was found up to then.
#[derive(Debug)]
pub struct Broken {
    pub ice: Ice,
    pub reports: Vec<Report>,
}

/// Checks the lifetimes of a module, and completes its calls.
///
/// `abort` is shared by all modules of a build: it tells whether an error was found in any of
/// them, before or now.
pub fn check(md: &mut Module, abort: &mut bool) -> (res: Result<Checked, Broken>)
    ensures
        match rules::check_module(old(md)@) {
            Ok((s, m)) => {
                &&& res is Ok
                &&& report_views(res->Ok_0.reports@) == s.reports
                &&& res->Ok_0.abort == (*old(abort) || s.abort())
                &&& *final(abort) == (*old(abort) || s.abort())
                &&& final(md)@ == m
            },
            Err(stop) => {
                &&& res is Err
                &&& res->Err_0.ice == stop.ice
                &&& report_views(res->Err_0.reports@) == stop.reports
                &&& *final(abort) == (*old(abort) || has_error(stop.reports))
            },
        },
{
    let mut stack = Stack::new();
    stack.push("static");
    stack.define_c_names(&md.c_names);
    let ghost s0 = stack@;
    let ghost all = d_views(md.d@);
    let ghost mut done: Seq<DView> = Seq::empty();
    let mut i: usize = 0;
    assert(done + all.skip(0) =~= all);
    while i < md.d.len()
        invariant
            i <= md.d@.len(),
            md.d@.len() == all.len(),
            all == old(md)@.d,
            md.name == old(md).name,
            md.c_names == old(md).c_names,
            *abort == *old(abort),
            stack.wf(),
            stack@.stack.len() > 0,
            done.len() == i,
            d_views(md.d@) == done + all.skip(i as int),
            s0 == rules::define_c_names(
                StackView::empty().push("static"@),
                old(md)@.c_names,
                0,
            ),
            rules::check_items(stack@, all, i as nat, done) == rules::check_items(
                s0,
                all,
                0,
                Seq::empty(),
            ),
        decreases md.d@.len() - i,
    {
        let ghost before = md.d@;
        proof {
            assert(d_views(before)[i as int] == (done + all.skip(i as int))[i as int]);
            assert(before[i as int]@ == all[i as int]);
        }
        match &mut md.d[i] {
            D::Include(_) => {},
            D::Local(local) => match stack.check_local(local) {
                Ok(()) => {},
                Err(ice) => {
                    *abort = *abort || stack.abort();
                    return Err(Broken { ice, reports: stack.reports });
                },
            },
        }
        proof {
            let after = md.d@;
            assert(after =~= before.update(i as int, after[i as int]));
            let goal = done.push(after[i as int]@) + all.skip(i + 1);
            assert forall|j: int| 0 <= j < all.len() implies d_views(after)[j] == goal[j] by {
                if j != i {
                    assert(after[j] == before[j]);
                    assert(d_views(before)[j] == (done + all.skip(i as int))[j]);
                }
            }
            assert(d_views(after) =~= goal);
            done = done.push(after[i as int]@);
        }
        i = i + 1;
    }
    assert(done + all.skip(i as int) =~= done);
    *abort = *abort || stack.abort();
    Ok(Checked { reports: stack.reports, abort: *abort })
}

} // verus!
