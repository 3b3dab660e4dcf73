//! What a definition makes known, and with which storage a function is entered.

use vstd::prelude::*;
use crate::ast::{
    BlockView, CNameView, DView, DefView, ExprView, LocalView, ModuleView, NamedArgView, StmtView,
    TypedView,
};
use crate::lifetimes::expr_laws::is_of_c;
use crate::lifetimes::laws::law_local_is_found;
use crate::lifetimes::rules::{
    Stop, behind_pointer, check_block, check_expr, check_items, check_local, check_module,
    check_stm, check_unary, define_arg, define_arg_levels, define_args, define_c_names,
    define_return, define_static, entered,
};
use crate::lifetimes::state::{Access, LifetimeView, StackView, StorageView};
use crate::lifetimes::storage_laws::{keeps_storage, lemma_makes_one, makes_one};
use crate::location::Location;
use crate::name::{NameView, is_ext};
use crate::report::ReportOf;
use crate::tags::{TagsView, has_key, has_value, law_inserted_is_there};
use crate::text::{Text, decimal, pieces};

verus! {

/// Behind the definition of a static, its name means storage that holds something static, and
/// that has the tags, the type and the place of the definition.
pub proof fn law_static_definition(s: StackView, local: LocalView, typed: TypedView, tags: TagsView)
    requires
        s.stack.len() > 0,
        local.def == (DefView::Static { typed, tags }),
    ensures
        check_local(s, local) matches Ok((t, out)) && {
            &&& out == local
            &&& makes_one(
                s,
                t,
                StorageView {
                    name: pieces(local.name),
                    typ: Some(typed),
                    tags,
                    stored_here: local.loc,
                    changed_here: Some(local.loc),
                    value: LifetimeView::Static,
                },
            )
        },
{
    lemma_makes_one(
        s,
        Some(typed),
        pieces(local.name),
        local.loc,
        tags,
        LifetimeView::Static,
        local.loc,
    );
}

/// A static that is declared mutable can be assigned to without a report, and no other can. One
/// that is declared unsafe cannot be read, and any other can.
pub proof fn law_tags_of_statics_count(
    s: StackView,
    local: LocalView,
    typed: TypedView,
    tags: TagsView,
    name: TypedView,
    loc: Location,
    v: Text,
    used_here: Location,
)
    requires
        s.stack.len() > 0,
        local.def == (DefView::Static { typed, tags }),
        name.name == pieces(local.name),
        !is_of_c(name.name),
    ensures
        check_local(s, local) matches Ok((t, _)) && {
            let it = ExprView::Name(name);
            let something = ExprView::Literal { loc, v };
            &&& check_stm(t, StmtView::Assign { loc, lhs: it, rhs: something }) matches Ok((u, _))
            &&& check_expr(t, it, Access::Value) matches Ok(r)
            &&& u.reports == if has_key(tags, "mutable"@) {
                t.reports
            } else {
                t.reports.push(
                    ReportOf::ImmutableAssign { loc: name.loc, stored_here: local.loc },
                )
            }
            &&& has_key(tags, "unsafe"@) ==> r.value is Uninitialized && r.stack.reports
                == t.reports.push(
                ReportOf::UnsafeRead {
                    name: name.name,
                    used_here: name.loc,
                    stored_here: local.loc,
                },
            )
            &&& !has_key(tags, "unsafe"@) ==> r.value is Static && r.stack == t
        },
{
    law_static_definition(s, local, typed, tags);
    let t = check_local(s, local)->Ok_0.0;
    let it = ExprView::Name(name);
    let something = ExprView::Literal { loc, v };
    assert(!is_ext(name.name)) by {
        if name.name.len() >= 2 && name.name[0].len() == 0 {
            assert(name.name[0] =~= Seq::<char>::empty());
        }
    }
    assert(t.find(name.name) == Some(s.pointers.len()));
    assert(t.pointers[s.pointers.len() as int] == t.pointers.last());
    assert(check_expr(t, something, Access::Value)->Ok_0.stack == t);
    assert(check_expr(t, it, Access::Storage)->Ok_0.value == LifetimeView::Pointer(
        s.pointers.len(),
    ));
}

/// Behind the definition of a macro, its name means storage that holds something static, and that
/// has no tags and no type.
pub proof fn law_macro_definition(s: StackView, local: LocalView)
    requires
        s.stack.len() > 0,
        local.def is Macro,
    ensures
        check_local(s, local) matches Ok((t, out)) && {
            &&& out == local
            &&& makes_one(
                s,
                t,
                StorageView {
                    name: pieces(local.name),
                    typ: None,
                    tags: Seq::empty(),
                    stored_here: local.loc,
                    changed_here: Some(local.loc),
                    value: LifetimeView::Static,
                },
            )
        },
{
    lemma_makes_one(
        s,
        None,
        pieces(local.name),
        local.loc,
        Seq::empty(),
        LifetimeView::Static,
        local.loc,
    );
}

/// What is neither a function, a static nor a macro has no storage, and is not looked at.
pub proof fn law_other_definition(s: StackView, local: LocalView)
    requires
        local.def is Other,
    ensures
        check_local(s, local) == Ok::<_, Stop>((s, local)),
{
}

/// Each name that C code provides, one after the other, gets storage that holds something static,
/// and that has no tags and no type.
pub proof fn law_c_names(s: StackView, names: Seq<CNameView>, last: CNameView)
    requires
        s.stack.len() > 0,
    ensures
        define_c_names(s, Seq::empty(), 0) == s,
        makes_one(
            define_c_names(s, names, 0),
            define_c_names(s, names.push(last), 0),
            StorageView {
                name: last.name,
                typ: None,
                tags: Seq::empty(),
                stored_here: last.loc,
                changed_here: Some(last.loc),
                value: LifetimeView::Static,
            },
        ),
{
    lemma_c_names_front(s, names, last, 0);
    let t = define_c_names(s, names, 0);
    let n = names.len();
    let all = names.push(last);
    assert(all[n as int] == last);
    lemma_makes_one(
        t,
        None,
        last.name,
        last.loc,
        Seq::empty(),
        LifetimeView::Static,
        last.loc,
    );
    let u = define_static(t, None, last.name, last.loc, Seq::empty());
    assert(define_c_names(u, all, n + 1) == u);
}

proof fn lemma_c_names_front(s: StackView, names: Seq<CNameView>, last: CNameView, i: nat)
    requires
        i <= names.len(),
        s.stack.len() > 0,
    ensures
        define_c_names(s, names.push(last), i) == define_c_names(
            define_c_names(s, names, i),
            names.push(last),
            names.len(),
        ),
        define_c_names(s, names, i).stack.len() > 0,
    decreases names.len() - i,
{
    if i < names.len() {
        assert(names.push(last)[i as int] == names[i as int]);
        let c = names[i as int];
        lemma_c_names_front(
            define_static(s, None, c.name, c.loc, Seq::empty()),
            names,
            last,
            i + 1,
        );
    }
}

/// Storage behind a pointer has every tag of the pointer, in the same order. It is borrowed as
/// well, if the pointer does not give it away, and has no other tag.
pub proof fn law_behind_pointer(tags: TagsView, loc: Location, k: Text, v: Text)
    ensures
        ({
            let behind = behind_pointer(tags, loc);
            &&& k != "borrowed"@ ==> has_key(behind, k) == has_key(tags, k)
            &&& k != "borrowed"@ ==> has_value(behind, k, v) == has_value(tags, k, v)
            &&& has_key(behind, "borrowed"@) <==> has_key(tags, "borrowed"@) || !has_key(
                tags,
                "move"@,
            )
            &&& has_value(behind, "borrowed"@, v) <==> has_value(tags, "borrowed"@, v) || (v
                == Seq::<char>::empty() && !has_key(tags, "move"@))
            &&& tags.len() <= behind.len() <= tags.len() + 1
            &&& forall|i: int|
                0 <= i < tags.len() ==> (#[trigger] behind[i]).key == tags[i].key && behind[i].value
                    == tags[i].value
        }),
{
    let none = Seq::<char>::empty();
    law_inserted_is_there(tags, "borrowed"@, none, loc, k, v);
    law_inserted_is_there(tags, "borrowed"@, none, loc, "borrowed"@, v);
}

/// An argument gets storage, and so does everything behind its pointers, which are taken from
/// right to left. Each of these points to the next. The storage of a pointer has the tags of the
/// pointer, and `borrowed` if the pointer does not give it away. The first and the last have the
/// tags of the argument. The last holds nothing.
pub proof fn law_argument_storage(s: StackView, arg: NamedArgView, p: int, k: Text, v: Text)
    requires
        s.stack.len() > 0,
        s.pointers.len() <= p <= s.pointers.len() + 1 + arg.typed.ptr.len(),
    ensures
        ({
            let t = define_arg(s, arg);
            let first = s.pointers.len() as int;
            let last = first + 1 + arg.typed.ptr.len();
            let at = t.pointers[p];
            let ptr = arg.typed.ptr.reverse()[p - first - 1];
            &&& keeps_storage(s, t)
            &&& t.pointers.len() == last + 1
            &&& t.stack.len() == s.stack.len()
            &&& t.stack.drop_last() == s.stack.drop_last()
            &&& t.reports == s.reports
            &&& t.current_return_ptr == s.current_return_ptr
            &&& t.must_move_before_ret == s.must_move_before_ret
            &&& at.typ == Some(arg.typed)
            &&& at.stored_here == arg.loc
            &&& p == first ==> at.name == pieces(arg.name)
            &&& p == first || p == last ==> at.tags == arg.tags
            &&& first < p < last ==> {
                &&& at.name == pieces("__builtin::pointer_to_callsite::"@ + decimal((p - 1) as nat))
                &&& at.tags == behind_pointer(ptr.tags, arg.loc)
                &&& k != "borrowed"@ ==> has_key(at.tags, k) == has_key(ptr.tags, k)
                &&& k != "borrowed"@ ==> has_value(at.tags, k, v) == has_value(ptr.tags, k, v)
                &&& has_key(at.tags, "borrowed"@) <==> has_key(ptr.tags, "borrowed"@) || !has_key(
                    ptr.tags,
                    "move"@,
                )
            }
            &&& p == last ==> {
                &&& at.name == pieces("__builtin::callstack::"@ + decimal((p - 1) as nat))
                &&& at.value is Uninitialized
                &&& at.changed_here is None
            }
            &&& p < last ==> {
                &&& at.value == LifetimeView::Pointer((p + 1) as nat)
                &&& at.changed_here == Some(arg.loc)
            }
            &&& t.stack.last().locals.contains_key(at.name)
        }),
{
    let s1 = s.local(Some(arg.typed), pieces(arg.name), arg.loc, arg.tags);
    let n = arg.typed.ptr.len();
    let first = s.pointers.len();
    lemma_arg_levels(s1, arg, 0);
    let (s2, at) = define_arg_levels(s1, arg, first, 0);
    let t = define_arg(s, arg);
    assert(s1.stack.drop_last() =~= s.stack.drop_last());
    assert(t.stack.drop_last() =~= s2.stack.drop_last());
    assert(s1.stack.last().locals.contains_key(pieces(arg.name)));
    assert forall|q: int| 0 <= q < first implies #[trigger] t.pointers[q] == s.pointers[q] by {
        assert(s2.pointers[q] == s1.pointers[q]);
    }
    assert(t.pointers.len() == first + n + 2);
    if p <= first + n {
        let was = s2.pointers[p];
        assert(s2.stack.last().locals.contains_key(was.name));
        assert(t.pointers[p].name == was.name && t.pointers[p].tags == was.tags);
    }
    if first < p < first + 1 + n {
        assert(arg.typed.ptr.reverse()[p - first - 1] == arg.typed.ptr[n - 1 - (p - first - 1)]);
        law_behind_pointer(arg.typed.ptr.reverse()[p - first - 1].tags, arg.loc, k, v);
    }
}

/// The name of an argument means its storage, and what is behind its pointers hides no name but
/// those that it is bound to.
pub proof fn law_argument_is_found(s: StackView, arg: NamedArgView, name: NameView)
    requires
        s.stack.len() > 0,
        ({
            let t = define_arg(s, arg);
            forall|p: int|
                s.pointers.len() < p < t.pointers.len() ==> (#[trigger] t.pointers[p]).name != name
        }),
    ensures
        define_arg(s, arg).find(name) == if name == pieces(arg.name) {
            Some(s.pointers.len())
        } else {
            s.find(name)
        },
{
    let first = s.pointers.len();
    let s1 = s.local(Some(arg.typed), pieces(arg.name), arg.loc, arg.tags);
    law_local_is_found(s, Some(arg.typed), pieces(arg.name), arg.loc, arg.tags, name);
    lemma_arg_levels(s1, arg, 0);
    let (s2, at) = define_arg_levels(s1, arg, first, 0);
    let t = define_arg(s, arg);
    assert forall|p: int| first < p < s2.pointers.len() implies (#[trigger] s2.pointers[p]).name
        != name by {
        assert(t.pointers[p].name != name);
    }
    lemma_arg_levels_find(s1, arg, 0, name);
    let last = pieces("__builtin::callstack::"@ + decimal(at));
    assert(t.pointers[s2.pointers.len() as int].name == last);
    law_local_is_found(s2, Some(arg.typed), last, arg.loc, arg.tags, name);
    let s3 = s2.local(Some(arg.typed), last, arg.loc, arg.tags);
    assert(t.stack == s3.stack);
}

proof fn lemma_arg_levels_find(s: StackView, arg: NamedArgView, depth: nat, name: NameView)
    requires
        s.stack.len() > 0,
        s.pointers.len() > 0,
        depth <= arg.typed.ptr.len(),
        ({
            let t = define_arg_levels(s, arg, (s.pointers.len() - 1) as nat, depth).0;
            forall|p: int|
                s.pointers.len() <= p < t.pointers.len() ==> (#[trigger] t.pointers[p]).name != name
        }),
    ensures
        define_arg_levels(s, arg, (s.pointers.len() - 1) as nat, depth).0.find(name) == s.find(
            name,
        ),
    decreases arg.typed.ptr.len() - depth,
{
    let from = (s.pointers.len() - 1) as nat;
    let n = arg.typed.ptr.len();
    if depth < n {
        let ptr = arg.typed.ptr[n - 1 - depth];
        let made = s.pointers.len();
        let bound = pieces("__builtin::pointer_to_callsite::"@ + decimal(from));
        let tags = behind_pointer(ptr.tags, arg.loc);
        let s0 = s.local(Some(arg.typed), bound, arg.loc, tags);
        let s1 = s0.write(from, LifetimeView::Pointer(made), arg.loc);
        lemma_arg_levels(s, arg, depth);
        lemma_arg_levels(s1, arg, depth + 1);
        let t = define_arg_levels(s, arg, from, depth).0;
        assert(define_arg_levels(s1, arg, made, depth + 1).0 == t);
        assert(t.pointers[made as int].name == bound);
        law_local_is_found(s, Some(arg.typed), bound, arg.loc, tags, name);
        assert(s1.stack == s0.stack);
        lemma_arg_levels_find(s1, arg, depth + 1, name);
    }
}

/// The storage behind the pointers of an argument, from the one of number `depth` on.
proof fn lemma_arg_levels(s: StackView, arg: NamedArgView, depth: nat)
    requires
        s.stack.len() > 0,
        s.pointers.len() > 0,
        depth <= arg.typed.ptr.len(),
    ensures
        ({
            let from = (s.pointers.len() - 1) as nat;
            let (t, at) = define_arg_levels(s, arg, from, depth);
            let n = arg.typed.ptr.len();
            &&& t.pointers.len() == s.pointers.len() + (n - depth)
            &&& at == t.pointers.len() - 1
            &&& t.stack.len() == s.stack.len()
            &&& t.stack.drop_last() == s.stack.drop_last()
            &&& t.reports == s.reports
            &&& t.current_return_ptr == s.current_return_ptr
            &&& t.must_move_before_ret == s.must_move_before_ret
            &&& forall|name: NameView| #[trigger]
                s.stack.last().locals.contains_key(name) ==> t.stack.last().locals.contains_key(
                    name,
                )
            &&& forall|p: int| 0 <= p < from ==> #[trigger] t.pointers[p] == s.pointers[p]
            &&& depth == n ==> t.pointers[from as int] == s.pointers[from as int]
            &&& depth < n ==> t.pointers[from as int] == (StorageView {
                value: LifetimeView::Pointer(s.pointers.len()),
                changed_here: Some(arg.loc),
                ..s.pointers[from as int]
            })
            &&& forall|p: int|
                from < p < t.pointers.len() ==> {
                    let made = #[trigger] t.pointers[p];
                    &&& made.typ == Some(arg.typed)
                    &&& made.stored_here == arg.loc
                    &&& made.name == pieces(
                        "__builtin::pointer_to_callsite::"@ + decimal((p - 1) as nat),
                    )
                    &&& made.tags == behind_pointer(
                        arg.typed.ptr[n - 1 - (depth + (p - from - 1))].tags,
                        arg.loc,
                    )
                    &&& t.stack.last().locals.contains_key(made.name)
                    &&& p < at ==> made.value == LifetimeView::Pointer((p + 1) as nat)
                    &&& p < at ==> made.changed_here == Some(arg.loc)
                    &&& p == at ==> made.value is Uninitialized
                    &&& p == at ==> made.changed_here is None
                }
        }),
    decreases arg.typed.ptr.len() - depth,
{
    let from = (s.pointers.len() - 1) as nat;
    let n = arg.typed.ptr.len();
    if depth < n {
        let ptr = arg.typed.ptr[n - 1 - depth];
        let made = s.pointers.len();
        let name = pieces("__builtin::pointer_to_callsite::"@ + decimal(from));
        let s1 = s.local(Some(arg.typed), name, arg.loc, behind_pointer(ptr.tags, arg.loc)).write(
            from,
            LifetimeView::Pointer(made),
            arg.loc,
        );
        assert(s1.stack.drop_last() =~= s.stack.drop_last());
        lemma_arg_levels(s1, arg, depth + 1);
        let (t, at) = define_arg_levels(s1, arg, made, depth + 1);
        assert(s1.stack.last().locals.contains_key(name));
        assert forall|name: NameView| #[trigger]
            s.stack.last().locals.contains_key(name) implies t.stack.last().locals.contains_key(
            name,
        ) by {
            assert(s1.stack.last().locals.contains_key(name));
        }
        assert(t.pointers[from as int] == s1.pointers[from as int]);
        assert forall|p: int| 0 <= p < from implies #[trigger] t.pointers[p] == s.pointers[p] by {
            assert(t.pointers[p] == s1.pointers[p]);
        }
    }
}

/// The arguments of a function are bound one after the other.
pub proof fn law_arguments_in_turn(s: StackView, args: Seq<NamedArgView>, last: NamedArgView)
    ensures
        define_args(s, Seq::empty(), 0) == s,
        define_args(s, args.push(last), 0) == define_arg(define_args(s, args, 0), last),
{
    lemma_args_front(s, args, last, 0);
    let t = define_args(s, args, 0);
    let n = args.len();
    let all = args.push(last);
    assert(all[n as int] == last);
    assert(define_args(define_arg(t, last), all, n + 1) == define_arg(t, last));
}

proof fn lemma_args_front(s: StackView, args: Seq<NamedArgView>, last: NamedArgView, i: nat)
    requires
        i <= args.len(),
    ensures
        define_args(s, args.push(last), i) == define_args(
            define_args(s, args, i),
            args.push(last),
            args.len(),
        ),
    decreases args.len() - i,
{
    if i < args.len() {
        assert(args.push(last)[i as int] == args[i as int]);
        lemma_args_front(define_arg(s, args[i as int]), args, last, i + 1);
    }
}

/// What a parameter's last pointer leads to can be assigned to without a report exactly if that
/// pointer is mutable.
pub proof fn law_assignment_through_argument(
    s: StackView,
    arg: NamedArgView,
    name: TypedView,
    loc: Location,
    v: Text,
)
    requires
        s.stack.len() > 0,
        arg.typed.ptr.len() > 0,
        name.name == pieces(arg.name),
        !is_of_c(name.name),
        !has_key(arg.tags, "unsafe"@),
        define_arg(s, arg).find(name.name) == Some(s.pointers.len()),
    ensures
        ({
            let t = define_arg(s, arg);
            let target = ExprView::UnaryPre {
                loc,
                op: "*"@,
                expr: Box::new(ExprView::Name(name)),
            };
            let something = ExprView::Literal { loc, v };
            &&& check_stm(t, StmtView::Assign { loc, lhs: target, rhs: something }) matches Ok(
                (u, _),
            )
            &&& u.reports == t.reports <==> has_key(arg.typed.ptr.last().tags, "mutable"@)
        }),
{
    let t = define_arg(s, arg);
    let first = s.pointers.len() as int;
    let it = ExprView::Name(name);
    let target = ExprView::UnaryPre { loc, op: "*"@, expr: Box::new(it) };
    let something = ExprView::Literal { loc, v };
    reveal_strlit("&");
    reveal_strlit("*");
    reveal_strlit("borrowed");
    reveal_strlit("mutable");
    assert("&"@[0] != "*"@[0]);
    assert("borrowed"@.len() != "mutable"@.len());
    law_argument_storage(s, arg, first, "mutable"@, v);
    law_argument_storage(s, arg, first + 1, "mutable"@, v);
    assert(arg.typed.ptr.reverse()[0] == arg.typed.ptr.last());
    assert(!is_ext(name.name)) by {
        if name.name.len() >= 2 && name.name[0].len() == 0 {
            assert(name.name[0] =~= Seq::<char>::empty());
        }
    }
    let next = LifetimeView::Pointer((first + 1) as nat);
    assert(check_expr(t, something, Access::Value)->Ok_0.stack == t);
    assert(check_expr(t, it, Access::Value)->Ok_0.value == next);
    let there = Access::Storage;
    assert(check_expr(t, target, there) == check_unary(t, loc, "*"@, it, there));
    if arg.typed.ptr.len() == 1 {
        law_argument_storage(s, arg, first + 2, "mutable"@, v);
    }
    assert(!(t.pointers[first + 1].value is Dropped));
    assert(check_expr(t, target, Access::Storage)->Ok_0.value == next);
    let u = check_stm(t, StmtView::Assign { loc, lhs: target, rhs: something })->Ok_0.0;
    if !has_key(arg.typed.ptr.last().tags, "mutable"@) {
        assert(u.reports.len() == t.reports.len() + 1);
    }
}

/// What a function returns has storage for each pointer of its type, from left to right. The
/// first holds what is there without pointers, and each of the others points to the one before
/// it. Such storage has the tags of the pointer, and `borrowed` if the pointer does not give it
/// away. The last is what the function returns.
pub proof fn law_return_storage(
    s: StackView,
    function: Text,
    typed: TypedView,
    inner: LifetimeView,
    p: int,
    k: Text,
    v: Text,
)
    requires
        s.stack.len() > 0,
        s.pointers.len() <= p < s.pointers.len() + typed.ptr.len(),
    ensures
        ({
            let (t, out) = define_return(s, function, typed, 0, inner);
            let first = s.pointers.len() as int;
            let last = first + typed.ptr.len() - 1;
            let at = t.pointers[p];
            let ptr = typed.ptr[p - first];
            &&& keeps_storage(s, t)
            &&& t.pointers.len() == last + 1
            &&& out == LifetimeView::Pointer(last as nat)
            &&& t.current_return_ptr == Some(last as nat)
            &&& t.stack.len() == s.stack.len()
            &&& t.stack.drop_last() == s.stack.drop_last()
            &&& t.find(at.name) == Some(last as nat)
            &&& forall|other: NameView|
                other != at.name ==> #[trigger] t.find(other) == s.find(other)
            &&& t.reports == s.reports
            &&& t.must_move_before_ret == s.must_move_before_ret
            &&& at.name == pieces("return value of "@ + function)
            &&& at.typ == Some(typed)
            &&& at.stored_here == typed.loc
            &&& at.changed_here == Some(typed.loc)
            &&& at.value == if p == first {
                inner
            } else {
                LifetimeView::Pointer((p - 1) as nat)
            }
            &&& at.tags == behind_pointer(ptr.tags, typed.loc)
            &&& k != "borrowed"@ ==> has_key(at.tags, k) == has_key(ptr.tags, k)
            &&& k != "borrowed"@ ==> has_value(at.tags, k, v) == has_value(ptr.tags, k, v)
            &&& has_key(at.tags, "borrowed"@) <==> has_key(ptr.tags, "borrowed"@) || !has_key(
                ptr.tags,
                "move"@,
            )
        }),
{
    lemma_return_levels(s, function, typed, 0, inner);
    law_behind_pointer(typed.ptr[p - s.pointers.len()].tags, typed.loc, k, v);
}

/// A function that returns no pointer has no storage for what it returns.
pub proof fn law_return_without_pointer(
    s: StackView,
    function: Text,
    typed: TypedView,
    inner: LifetimeView,
)
    requires
        typed.ptr.len() == 0,
    ensures
        define_return(s, function, typed, 0, inner) == (s, inner),
{
}

proof fn lemma_return_levels(
    s: StackView,
    function: Text,
    typed: TypedView,
    i: nat,
    inner: LifetimeView,
)
    requires
        s.stack.len() > 0,
        i <= typed.ptr.len(),
    ensures
        ({
            let (t, out) = define_return(s, function, typed, i, inner);
            let first = s.pointers.len() as int;
            let more = typed.ptr.len() - i;
            let name = pieces("return value of "@ + function);
            &&& keeps_storage(s, t)
            &&& t.pointers.len() == first + more
            &&& t.stack.len() == s.stack.len()
            &&& t.stack.drop_last() == s.stack.drop_last()
            &&& forall|other: NameView| other != name ==> #[trigger] t.find(other) == s.find(other)
            &&& t.reports == s.reports
            &&& t.must_move_before_ret == s.must_move_before_ret
            &&& more == 0 ==> t == s && out == inner
            &&& more > 0 ==> {
                &&& out == LifetimeView::Pointer((first + more - 1) as nat)
                &&& t.current_return_ptr == Some((first + more - 1) as nat)
                &&& t.find(name) == Some((first + more - 1) as nat)
            }
            &&& forall|p: int|
                first <= p < first + more ==> {
                    let at = #[trigger] t.pointers[p];
                    &&& at.name == name
                    &&& at.typ == Some(typed)
                    &&& at.stored_here == typed.loc
                    &&& at.changed_here == Some(typed.loc)
                    &&& at.value == if p == first {
                        inner
                    } else {
                        LifetimeView::Pointer((p - 1) as nat)
                    }
                    &&& at.tags == behind_pointer(typed.ptr[i + (p - first)].tags, typed.loc)
                }
        }),
    decreases typed.ptr.len() - i,
{
    if i < typed.ptr.len() {
        let made = s.pointers.len();
        let name = pieces("return value of "@ + function);
        let tags = behind_pointer(typed.ptr[i as int].tags, typed.loc);
        lemma_makes_one(s, Some(typed), name, typed.loc, tags, inner, typed.loc);
        let s1 = s.local(Some(typed), name, typed.loc, tags).write(made, inner, typed.loc);
        let s2 = StackView { current_return_ptr: Some(made), ..s1 };
        lemma_return_levels(s2, function, typed, i + 1, LifetimeView::Pointer(made));
        let (t, out) = define_return(s, function, typed, i, inner);
        assert(define_return(s2, function, typed, i + 1, LifetimeView::Pointer(made)) == (t, out));
        assert(t.pointers[made as int] == s2.pointers[made as int]);
        assert forall|other: NameView| other != name implies #[trigger] t.find(other) == s.find(
            other,
        ) by {
            assert(t.find(other) == s2.find(other));
            assert(s1.find(other) == s.find(other));
        }
    }
}

/// To enter a function is to bind its name to storage that holds nothing yet, to make storage for
/// what it returns, and to bind its arguments in a scope of its own.
pub proof fn law_entering(
    s: StackView,
    name: Text,
    loc: Location,
    typed: TypedView,
    args: Seq<NamedArgView>,
)
    ensures
        ({
            let named = s.local(None, pieces(name), loc, Seq::empty());
            let (made, out) = define_return(named, name, typed, 0, LifetimeView::Static);
            &&& entered(s, name, loc, None, args) == (
                define_args(named.push(name), args, 0),
                None::<Box<LifetimeView>>,
            )
            &&& entered(s, name, loc, Some(typed), args) == (
                define_args(made.push(name), args, 0),
                Some(Box::new(out)),
            )
        }),
{
}

/// The body of a function is checked in the state in which the function is entered. Then its name
/// means the function, and its scope is closed where the body ends.
pub proof fn law_function_definition(
    s: StackView,
    local: LocalView,
    ret: Option<TypedView>,
    args: Seq<NamedArgView>,
    vararg: bool,
    body: BlockView,
)
    requires
        local.def == (DefView::Function { ret, args, vararg, body }),
    ensures
        ({
            let (inside, out) = entered(s, local.name, local.loc, ret, args);
            match check_block(inside, body.statements, 0, Seq::empty()) {
                Err(stop) => check_local(s, local) == Err::<(StackView, LocalView), Stop>(stop),
                Ok((t, statements)) => {
                    let known = LifetimeView::Function { ret: out, args, vararg };
                    let outside = t.write(s.pointers.len(), known, local.loc).pop(body.end);
                    check_local(s, local) == Ok::<_, Stop>(
                        (
                            StackView { current_return_ptr: None, ..outside },
                            LocalView {
                                def: DefView::Function {
                                    ret,
                                    args,
                                    vararg,
                                    body: BlockView { statements, end: body.end },
                                },
                                ..local
                            },
                        ),
                    )
                },
            }
        }),
{
}

/// The items of a module are checked one after the other. An import is left as it is.
pub proof fn law_items_in_turn(s: StackView, ds: Seq<DView>, last: DView)
    ensures
        check_items(s, Seq::empty(), 0, Seq::empty()) == Ok::<_, Stop>((s, Seq::<DView>::empty())),
        check_items(s, ds.push(last), 0, Seq::empty()) == match check_items(
            s,
            ds,
            0,
            Seq::empty(),
        ) {
            Ok((t, before)) => match last {
                DView::Include(_) => Ok((t, before.push(last))),
                DView::Local(local) => match check_local(t, local) {
                    Ok((u, out)) => Ok((u, before.push(DView::Local(out)))),
                    Err(stop) => Err(stop),
                },
            },
            Err(stop) => Err(stop),
        },
{
    lemma_items_front(s, ds, last, 0, Seq::empty());
    let all = ds.push(last);
    let n = ds.len();
    assert(all[n as int] == last);
    match check_items(s, ds, 0, Seq::empty()) {
        Ok((t, before)) => match last {
            DView::Include(_) => {
                assert(check_items(t, all, n + 1, before.push(last)) == Ok::<_, Stop>(
                    (t, before.push(last)),
                ));
            },
            DView::Local(local) => match check_local(t, local) {
                Ok((u, out)) => {
                    let more = before.push(DView::Local(out));
                    assert(check_items(u, all, n + 1, more) == Ok::<_, Stop>((u, more)));
                },
                Err(_) => {},
            },
        },
        Err(_) => {},
    }
}

proof fn lemma_items_front(s: StackView, ds: Seq<DView>, last: DView, i: nat, done: Seq<DView>)
    requires
        i <= ds.len(),
    ensures
        check_items(s, ds.push(last), i, done) == match check_items(s, ds, i, done) {
            Ok((t, before)) => check_items(t, ds.push(last), ds.len(), before),
            Err(stop) => Err(stop),
        },
    decreases ds.len() - i,
{
    if i < ds.len() {
        assert(ds.push(last)[i as int] == ds[i as int]);
        match ds[i as int] {
            DView::Include(_) => {
                lemma_items_front(s, ds, last, i + 1, done.push(ds[i as int]));
            },
            DView::Local(local) => match check_local(s, local) {
                Ok((s1, out)) => {
                    lemma_items_front(s1, ds, last, i + 1, done.push(DView::Local(out)));
                },
                Err(_) => {},
            },
        }
    }
}

/// A module is checked from a state in which one scope is open, that of the module, and in which
/// only the names that C code provides are known.
pub proof fn law_module_start(md: ModuleView)
    ensures
        ({
            let start = define_c_names(StackView::empty().push("static"@), md.c_names, 0);
            check_module(md) == match check_items(start, md.d, 0, Seq::empty()) {
                Ok((t, d)) => Ok((t, ModuleView { d, ..md })),
                Err(stop) => Err(stop),
            }
        }),
{
}

} // verus!
