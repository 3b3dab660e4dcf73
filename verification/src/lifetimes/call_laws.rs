//! What a call does: which arguments it passes, to which parameters, and what it gives back.

use vstd::prelude::*;
use crate::ast::{ExprView, NamedArgView, TypedView, expr_loc};
use crate::lifetimes::endless::{followed, lemma_ends_early, lemma_followed_points};
use crate::lifetimes::expr_laws::is_of_c;
use crate::lifetimes::frame::{
    lemma_check_call_arg_keeps, lemma_check_call_args_keeps, lemma_check_expr_keeps,
};
use crate::lifetimes::laws::{
    law_checking_again_is_checking, law_const_is_not_passed_as_mutable, law_errors_stay,
};
use crate::lifetimes::rules::{
    ExprResult, Ice, Stop, check_call, check_call_arg, check_call_args, check_expr, check_levels,
    completed, copy_returned, return_name, returned,
};
use crate::lifetimes::state::{Access, LifetimeView, StackView, points_below};
use crate::lifetimes::storage_laws::{keeps_storage, lemma_makes_one};
use crate::location::{Location, line_col};
use crate::name::NameView;
use crate::report::ReportOf;
use crate::tags::{TagView, has_key, lemma_filter_first, values};
use crate::text::{Text, joined, pieces};

verus! {

/// What is called is read like any other name. A function of C is called without a check, and so
/// is anything static. What else is no function gives a warning.
pub proof fn law_callee(s: StackView, loc: Location, name: TypedView, args: Seq<ExprView>)
    ensures
        ({
            let call = ExprView::Call { loc, name, args };
            let (t, callee) = s.check_name(name.name, name.loc, Access::Value);
            &&& is_of_c(name.name) ==> check_call(s, loc, name, args) == Ok::<_, Stop>(
                ExprResult { stack: s, expr: call, value: LifetimeView::Static },
            )
            &&& !is_of_c(name.name) && callee is Static ==> check_call(s, loc, name, args) == Ok::<
                _,
                Stop,
            >(ExprResult { stack: t, expr: call, value: LifetimeView::Static })
            &&& !is_of_c(name.name) && !(callee is Static) && !(callee is Function) ==> check_call(
                s,
                loc,
                name,
                args,
            ) == Ok::<_, Stop>(
                ExprResult {
                    stack: t.report(ReportOf::NotAFunction { loc: name.loc }),
                    expr: call,
                    value: LifetimeView::Uninitialized,
                },
            )
        }),
{
    if name.name.len() >= 2 && name.name[0].len() == 0 {
        assert(name.name[0] =~= Seq::<char>::empty());
    }
}

/// A call of a function with a wrong number of arguments is an error, and none of them is looked
/// at. A function of variable arity takes any more than it names. Otherwise the arguments are
/// checked against the parameters, and then the call returns.
pub proof fn law_call_of_function(
    s: StackView,
    loc: Location,
    name: TypedView,
    args: Seq<ExprView>,
    ret: Option<Box<LifetimeView>>,
    params: Seq<NamedArgView>,
    vararg: bool,
)
    requires
        !is_of_c(name.name),
        s.check_name(name.name, name.loc, Access::Value).1 == (LifetimeView::Function {
            ret,
            args: params,
            vararg,
        }),
    ensures
        ({
            let full = completed(params, args, 0);
            let t = s.check_name(name.name, name.loc, Access::Value).0;
            let fits = full.len() == params.len() || (vararg && full.len() > params.len());
            &&& !fits ==> check_call(s, loc, name, args) == Ok::<_, Stop>(
                ExprResult {
                    stack: t.report(
                        ReportOf::ArgumentCount {
                            loc: name.loc,
                            expected: params.len(),
                            passed: full.len(),
                        },
                    ),
                    expr: ExprView::Call { loc, name, args: full },
                    value: LifetimeView::Uninitialized,
                },
            )
            &&& fits ==> check_call(s, loc, name, args) == match check_call_args(
                t,
                params,
                full,
                0,
                Seq::empty(),
            ) {
                Ok((u, checked)) => match returned(u, ret, name.name, loc) {
                    Ok((stack, value)) => Ok(
                        ExprResult {
                            stack,
                            expr: ExprView::Call { loc, name, args: checked },
                            value,
                        },
                    ),
                    Err(stop) => Err(stop),
                },
                Err(stop) => Err(stop),
            }
        }),
{
    if name.name.len() >= 2 && name.name[0].len() == 0 {
        assert(name.name[0] =~= Seq::<char>::empty());
    }
}

/// A call is completed parameter by parameter. One that is generated at the callsite puts the
/// first text that it is generated from, as a literal, in its own place among the arguments, if
/// there are that many. Any other adds nothing.
pub proof fn law_completion(params: Seq<NamedArgView>, last: NamedArgView, args: Seq<ExprView>)
    ensures
        completed(Seq::empty(), args, 0) == args,
        ({
            let before = completed(params, args, 0);
            let after = completed(params.push(last), args, 0);
            let n = params.len() as int;
            &&& !has_key(last.tags, "callsite_macro"@) || before.len() < n ==> after == before
            &&& has_key(last.tags, "callsite_macro"@) && n <= before.len() ==> exists|k: int|
                {
                    &&& 0 <= k < last.tags.len()
                    &&& (#[trigger] last.tags[k]).key == "callsite_macro"@
                    &&& forall|j: int|
                        0 <= j < k ==> (#[trigger] last.tags[j]).key != "callsite_macro"@
                    &&& after == before.insert(
                        n,
                        ExprView::Literal { loc: last.tags[k].loc, v: last.tags[k].value },
                    )
                }
        }),
{
    let before = completed(params, args, 0);
    let n = params.len();
    let all = params.push(last);
    lemma_completed_front(params, last, args, 0);
    assert(all[n as int] == last);
    if has_key(last.tags, "callsite_macro"@) && n <= before.len() {
        let p = |t: TagView| t.key == "callsite_macro"@;
        let any = choose|i: int|
            0 <= i < last.tags.len() && (#[trigger] last.tags[i]).key == "callsite_macro"@;
        let k = lemma_first(last.tags, "callsite_macro"@, any);
        lemma_filter_first(last.tags, p, k);
        assert(values(last.tags, "callsite_macro"@)[0] == last.tags[k]);
        let literal = ExprView::Literal { loc: last.tags[k].loc, v: last.tags[k].value };
        assert(completed(all, before.insert(n as int, literal), n + 1) == before.insert(
            n as int,
            literal,
        ));
        assert(completed(all, before, n) == before.insert(n as int, literal));
    } else if !has_key(last.tags, "callsite_macro"@) {
        assert(completed(all, before, n + 1) == before);
    }
}

proof fn lemma_first(tags: Seq<TagView>, key: Text, i: int) -> (k: int)
    requires
        0 <= i < tags.len(),
        tags[i].key == key,
    ensures
        0 <= k <= i,
        tags[k].key == key,
        forall|j: int| 0 <= j < k ==> (#[trigger] tags[j]).key != key,
    decreases i,
{
    if exists|j: int| 0 <= j < i && (#[trigger] tags[j]).key == key {
        let j = choose|j: int| 0 <= j < i && (#[trigger] tags[j]).key == key;
        lemma_first(tags, key, j)
    } else {
        i
    }
}

proof fn lemma_completed_front(
    params: Seq<NamedArgView>,
    last: NamedArgView,
    args: Seq<ExprView>,
    i: nat,
)
    requires
        i <= params.len(),
    ensures
        ({
            let before = completed(params, args, i);
            let n = params.len();
            completed(params.push(last), args, i) == completed(params.push(last), before, n)
        }),
    decreases params.len() - i,
{
    if i < params.len() {
        let all = params.push(last);
        assert(all[i as int] == params[i as int]);
        if has_key(params[i as int].tags, "callsite_macro"@) {
            if i <= args.len() {
                let generated = values(params[i as int].tags, "callsite_macro"@)[0];
                let literal = ExprView::Literal { loc: generated.loc, v: generated.value };
                lemma_completed_front(params, last, args.insert(i as int, literal), i + 1);
            } else {
                lemma_completed_short(all, args, params.len());
            }
        } else {
            lemma_completed_front(params, last, args, i + 1);
        }
    }
}

proof fn lemma_completed_short(params: Seq<NamedArgView>, args: Seq<ExprView>, i: nat)
    requires
        args.len() < i,
    ensures
        completed(params, args, i) == args,
    decreases params.len() - i,
{
    if i < params.len() {
        lemma_completed_short(params, args, i + 1);
    }
}

/// Each argument is checked against the parameter in the same place, one after the other. What
/// follows the last parameter is passed without a check.
pub proof fn law_arguments_meet_their_parameters(
    s: StackView,
    params: Seq<NamedArgView>,
    args: Seq<ExprView>,
    param: NamedArgView,
    arg: ExprView,
)
    ensures
        check_call_args(s, Seq::empty(), args, 0, Seq::empty()) == Ok::<_, Stop>((s, args)),
        params.len() == args.len() ==> check_call_args(
            s,
            params.push(param),
            args.push(arg),
            0,
            Seq::empty(),
        ) == match check_call_args(s, params, args, 0, Seq::empty()) {
            Ok((t, before)) => match check_call_arg(t, param, arg) {
                Ok((u, e)) => Ok((u, before.push(e))),
                Err(stop) => Err(stop),
            },
            Err(stop) => Err(stop),
        },
        params.len() <= args.len() ==> check_call_args(
            s,
            params,
            args.push(arg),
            0,
            Seq::empty(),
        ) == match check_call_args(s, params, args, 0, Seq::empty()) {
            Ok((t, before)) => Ok((t, before.push(arg))),
            Err(stop) => Err(stop),
        },
{
    assert(Seq::<ExprView>::empty() + args.skip(0) =~= args);
    if params.len() == args.len() {
        lemma_args_front(s, params, args, seq![param], seq![arg], 0, Seq::empty());
        assert(params + seq![param] =~= params.push(param));
        assert(args + seq![arg] =~= args.push(arg));
        match check_call_args(s, params, args, 0, Seq::empty()) {
            Ok((t, before)) => {
                let n = params.len();
                let all = args.push(arg);
                match check_call_arg(t, param, arg) {
                    Ok((u, e)) => {
                        let done = before.push(e);
                        assert(done + all.skip((n + 1) as int) =~= done);
                        assert(check_call_args(u, params.push(param), all, n + 1, done) == Ok::<
                            _,
                            Stop,
                        >((u, done)));
                    },
                    Err(_) => {},
                }
            },
            Err(_) => {},
        }
    }
    if params.len() <= args.len() {
        lemma_args_more(s, params, args, arg, 0, Seq::empty());
    }
}

/// Arguments behind the checked ones change nothing.
proof fn lemma_args_more(
    s: StackView,
    params: Seq<NamedArgView>,
    args: Seq<ExprView>,
    arg: ExprView,
    i: nat,
    done: Seq<ExprView>,
)
    requires
        i <= params.len() <= args.len(),
    ensures
        check_call_args(s, params, args.push(arg), i, done) == match check_call_args(
            s,
            params,
            args,
            i,
            done,
        ) {
            Ok((t, before)) => Ok((t, before.push(arg))),
            Err(stop) => Err(stop),
        },
    decreases params.len() - i,
{
    let all = args.push(arg);
    if i < params.len() {
        assert(all[i as int] == args[i as int]);
        match check_call_arg(s, params[i as int], args[i as int]) {
            Ok((s1, e)) => {
                lemma_args_more(s1, params, args, arg, i + 1, done.push(e));
            },
            Err(_) => {},
        }
    } else {
        assert(done + all.skip(i as int) =~= (done + args.skip(i as int)).push(arg));
    }
}

/// Arguments and parameters can be checked in two parts.
proof fn lemma_args_front(
    s: StackView,
    params: Seq<NamedArgView>,
    args: Seq<ExprView>,
    more_params: Seq<NamedArgView>,
    more_args: Seq<ExprView>,
    i: nat,
    done: Seq<ExprView>,
)
    requires
        i <= params.len(),
        params.len() == args.len(),
        done.len() == i,
    ensures
        ({
            let all_params = params + more_params;
            let all_args = args + more_args;
            check_call_args(s, all_params, all_args, i, done) == match check_call_args(
                s,
                params,
                args,
                i,
                done,
            ) {
                Ok((t, before)) => check_call_args(t, all_params, all_args, params.len(), before),
                Err(stop) => Err(stop),
            }
        }),
    decreases params.len() - i,
{
    if i < params.len() {
        assert((params + more_params)[i as int] == params[i as int]);
        assert((args + more_args)[i as int] == args[i as int]);
        match check_call_arg(s, params[i as int], args[i as int]) {
            Ok((s1, e)) => {
                lemma_args_front(s1, params, args, more_params, more_args, i + 1, done.push(e));
            },
            Err(_) => {},
        }
    } else {
        assert(done + args.skip(i as int) =~= done);
    }
}

/// A static value can be passed to any parameter. For any other argument, the storage that it
/// names is followed through the pointers of the parameter's type. An argument that names none
/// cannot be checked.
pub proof fn law_argument(s: StackView, param: NamedArgView, arg: ExprView)
    requires
        s.wf(),
    ensures
        check_call_arg(s, param, arg) == match check_expr(s, arg, Access::Value) {
            Err(stop) => Err(stop),
            Ok(r) => if r.value is Static {
                Ok((r.stack, r.expr))
            } else {
                match check_expr(r.stack, r.expr, Access::Storage) {
                    Err(stop) => Err(stop),
                    Ok(a) => match a.value {
                        LifetimeView::Pointer(p) => Ok(
                            (check_levels(a.stack, param.typed, expr_loc(arg), p, 0), a.expr),
                        ),
                        _ => Err(Stop { ice: Ice::NotAPointer, reports: a.stack.reports }),
                    },
                }
            },
        },
{
    law_checking_again_is_checking(s, arg, Access::Value, Access::Storage);
    lemma_check_expr_keeps(s, arg, Access::Value);
    match check_expr(s, arg, Access::Value) {
        Ok(r) => {
            lemma_check_expr_keeps(r.stack, r.expr, Access::Storage);
        },
        Err(_) => {},
    }
}

/// An argument that leads to storage which is not mutable cannot be passed to a parameter whose
/// pointer is: wherever it stands among the arguments, the call is an error.
pub proof fn law_const_argument_is_refused(
    s: StackView,
    params: Seq<NamedArgView>,
    args: Seq<ExprView>,
    i: int,
)
    requires
        s.wf(),
        0 <= i < params.len() <= args.len(),
        params[i].typed.ptr.len() > 0,
        has_key(params[i].typed.ptr.last().tags, "mutable"@),
        ({
            &&& check_call_args(s, params.take(i), args.take(i), 0, Seq::empty()) matches Ok((t, _))
            &&& check_expr(t, args[i], Access::Value) matches Ok(r)
            &&& !(r.value is Static)
            &&& check_expr(r.stack, r.expr, Access::Storage) matches Ok(a)
            &&& a.value matches LifetimeView::Pointer(p)
            &&& a.stack.pointers[p as int].value matches LifetimeView::Pointer(to)
            &&& !has_key(a.stack.pointers[to as int].tags, "mutable"@)
        }),
    ensures
        check_call_args(s, params, args, 0, Seq::empty()) matches Ok((u, _)) ==> u.abort(),
{
    let before_params = params.take(i);
    let before_args = args.take(i);
    lemma_args_front(
        s,
        before_params,
        before_args,
        params.skip(i),
        args.skip(i),
        0,
        Seq::empty(),
    );
    assert(before_params + params.skip(i) =~= params);
    assert(before_args + args.skip(i) =~= args);
    lemma_check_call_args_keeps(s, before_params, before_args, 0, Seq::empty());
    let (t, done) = check_call_args(s, before_params, before_args, 0, Seq::empty())->Ok_0;
    law_argument(t, params[i], args[i]);
    let r = check_expr(t, args[i], Access::Value)->Ok_0;
    let a = check_expr(r.stack, r.expr, Access::Storage)->Ok_0;
    let p = a.value->Pointer_0;
    let to = a.stack.pointers[p as int].value->Pointer_0;
    let site = expr_loc(args[i]);
    let typed = params[i].typed;
    law_const_is_not_passed_as_mutable(a.stack, typed.ptr.last(), site, to);
    let u = check_levels(a.stack, typed, site, p, 0);
    assert(u.abort());
    lemma_check_call_arg_keeps(t, params[i], args[i]);
    let e = check_call_arg(t, params[i], args[i])->Ok_0.1;
    let n = i as nat;
    assert(check_call_args(t, params, args, n, done) == check_call_args(
        u,
        params,
        args,
        n + 1,
        done.push(e),
    ));
    lemma_check_call_args_keep_errors(u, params, args, n + 1, done.push(e));
}

proof fn lemma_check_call_args_keep_errors(
    s: StackView,
    params: Seq<NamedArgView>,
    args: Seq<ExprView>,
    i: nat,
    done: Seq<ExprView>,
)
    requires
        s.wf(),
        s.abort(),
    ensures
        check_call_args(s, params, args, i, done) matches Ok((t, _)) ==> t.abort(),
    decreases params.len() - i,
{
    if i < params.len() && i < args.len() {
        lemma_check_call_arg_keeps(s, params[i as int], args[i as int]);
        match check_call_arg(s, params[i as int], args[i as int]) {
            Ok((t, e)) => {
                law_errors_stay(s, t);
                lemma_check_call_args_keep_errors(t, params, args, i + 1, done.push(e));
            },
            Err(_) => {},
        }
    }
}

/// A function that returns nothing, or no pointer, gives back just that, and makes no storage.
pub proof fn law_returns_no_pointer(
    s: StackView,
    value: LifetimeView,
    callee: NameView,
    loc: Location,
)
    ensures
        returned(s, None, callee, loc) == Ok::<_, Stop>((s, LifetimeView::Static)),
        !(value is Pointer) ==> returned(s, Some(Box::new(value)), callee, loc) == Ok::<_, Stop>(
            (s, value),
        ),
{
}

/// A function that returns a chain of pointers gives back storage of its own for each of them:
/// with the same tags, made in the place of the call, and named after the call. The first holds
/// what the function returns, and each of the others points to the one before it.
pub proof fn law_returns_pointers(
    s: StackView,
    value: LifetimeView,
    callee: NameView,
    loc: Location,
    n: nat,
)
    requires
        s.wf(),
        s.stack.len() > 0,
        points_below(value, s.pointers.len()),
        0 < n,
        forall|k: nat| k < n ==> #[trigger] followed(s, value, k) is Pointer,
        !(followed(s, value, n) is Pointer),
    ensures
        returned(s, Some(Box::new(value)), callee, loc) matches Ok((t, out)) && {
            let base = s.pointers.len();
            let text = "function call return "@ + joined(callee) + " at "@ + line_col(loc);
            &&& keeps_storage(s, t)
            &&& t.pointers.len() == base + n
            &&& out == LifetimeView::Pointer((base + n - 1) as nat)
            &&& t.reports == s.reports
            &&& t.must_move_before_ret == s.must_move_before_ret
            &&& t.current_return_ptr == s.current_return_ptr
            &&& t.stack.len() == s.stack.len()
            &&& t.stack.drop_last() == s.stack.drop_last()
            &&& t.find(pieces(text)) == Some((base + n - 1) as nat)
            &&& forall|other: NameView|
                other != pieces(text) ==> #[trigger] t.find(other) == s.find(other)
            &&& forall|p: int|
                base <= p < base + n ==> {
                    let made = #[trigger] t.pointers[p];
                    let k = (p - base) as nat;
                    &&& made.tags == s.pointers[followed(s, value, k)->Pointer_0 as int].tags
                    &&& made.name == pieces(text)
                    &&& made.typ is None
                    &&& made.stored_here == loc
                    &&& made.changed_here == Some(loc)
                    &&& made.value == if k == 0 {
                        value
                    } else {
                        LifetimeView::Pointer((p - 1) as nat)
                    }
                }
        },
{
    lemma_ends_early(s, value, n);
    lemma_copied(s, value, s, 0, value, callee, loc, s.pointers.len(), n);
    assert(followed(s, value, 0) == value);
}

proof fn lemma_copied(
    s: StackView,
    value: LifetimeView,
    t: StackView,
    k: nat,
    site: LifetimeView,
    callee: NameView,
    loc: Location,
    fuel: nat,
    n: nat,
)
    requires
        s.wf(),
        points_below(value, s.pointers.len()),
        t.stack.len() > 0,
        k <= n,
        n - k <= fuel,
        t.pointers.len() == s.pointers.len() + k,
        keeps_storage(s, t),
        forall|m: nat| m < n ==> #[trigger] followed(s, value, m) is Pointer,
        !(followed(s, value, n) is Pointer),
        site == if k == 0 {
            value
        } else {
            LifetimeView::Pointer((s.pointers.len() + k - 1) as nat)
        },
    ensures
        copy_returned(t, followed(s, value, k), site, callee, loc, fuel) matches Ok((u, out)) && {
            let base = s.pointers.len();
            let text = "function call return "@ + joined(callee) + " at "@ + line_col(loc);
            &&& keeps_storage(t, u)
            &&& u.pointers.len() == base + n
            &&& out == if k == n {
                site
            } else {
                LifetimeView::Pointer((base + n - 1) as nat)
            }
            &&& u.reports == t.reports
            &&& u.must_move_before_ret == t.must_move_before_ret
            &&& u.current_return_ptr == t.current_return_ptr
            &&& u.stack.len() == t.stack.len()
            &&& u.stack.drop_last() == t.stack.drop_last()
            &&& k < n ==> u.find(pieces(text)) == Some((base + n - 1) as nat)
            &&& k == n ==> u == t
            &&& forall|other: NameView|
                other != pieces(text) ==> #[trigger] u.find(other) == t.find(other)
            &&& forall|p: int|
                base + k <= p < base + n ==> {
                    let made = #[trigger] u.pointers[p];
                    let m = (p - base) as nat;
                    &&& made.tags == s.pointers[followed(s, value, m)->Pointer_0 as int].tags
                    &&& made.name == pieces(text)
                    &&& made.typ is None
                    &&& made.stored_here == loc
                    &&& made.changed_here == Some(loc)
                    &&& made.value == if m == 0 {
                        value
                    } else {
                        LifetimeView::Pointer((p - 1) as nat)
                    }
                }
        },
    decreases fuel,
{
    lemma_followed_points(s, value, k);
    match followed(s, value, k) {
        LifetimeView::Pointer(p) => {
            let made = t.pointers.len();
            let u = t.local(
                None,
                return_name(callee, loc),
                loc,
                t.pointers[p as int].tags,
            ).write(made, site, loc);
            assert(followed(s, value, k + 1) == t.pointers[p as int].value);
            lemma_copied(
                s,
                value,
                u,
                k + 1,
                LifetimeView::Pointer(made),
                callee,
                loc,
                (fuel - 1) as nat,
                n,
            );
            assert(u.stack.drop_last() =~= t.stack.drop_last());
            let v = copy_returned(
                u,
                followed(s, value, k + 1),
                LifetimeView::Pointer(made),
                callee,
                loc,
                (fuel - 1) as nat,
            )->Ok_0.0;
            assert(v.pointers[made as int] == u.pointers[made as int]);
            let text = "function call return "@ + joined(callee) + " at "@ + line_col(loc);
            lemma_makes_one(t, None, pieces(text), loc, t.pointers[p as int].tags, site, loc);
            assert forall|other: NameView| other != pieces(text) implies #[trigger] v.find(other)
                == t.find(other) by {
                assert(v.find(other) == u.find(other));
                assert(u.find(other) == t.find(other));
            }
        },
        _ => {
            assert(k == n);
        },
    }
}

} // verus!
