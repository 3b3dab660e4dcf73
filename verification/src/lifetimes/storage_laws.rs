//! What the steps of the checker do to storage, scopes and reports.

use vstd::prelude::*;
use crate::ast::TypedView;
use crate::lifetimes::laws::law_local_is_found;
use crate::lifetimes::state::{Access, LifetimeView, StackView, StorageView};
use crate::location::Location;
use crate::name::NameView;
use crate::report::{ReportOf, ReportView, is_error};
use crate::tags::{TagsView, has_key};
use crate::text::Text;

verus! {

/// Whether two states are the same but for their storage.
pub open spec fn same_but_storage(s: StackView, t: StackView) -> bool {
    &&& t.stack == s.stack
    &&& t.current_return_ptr == s.current_return_ptr
    &&& t.must_move_before_ret == s.must_move_before_ret
    &&& t.reports == s.reports
}

/// Whether `t` has the storage of `s`, all of it unchanged, and maybe more.
pub open spec fn keeps_storage(s: StackView, t: StackView) -> bool {
    &&& s.pointers.len() <= t.pointers.len()
    &&& forall|p: int| 0 <= p < s.pointers.len() ==> #[trigger] t.pointers[p] == s.pointers[p]
}

/// Whether two states differ in one storage location only.
pub open spec fn same_but_at(s: StackView, t: StackView, at: nat) -> bool {
    &&& same_but_storage(s, t)
    &&& t.pointers.len() == s.pointers.len()
    &&& forall|p: int|
        0 <= p < s.pointers.len() && p != at ==> #[trigger] t.pointers[p] == s.pointers[p]
}

/// Whether `t` is `s` with new storage, bound to its name, and nothing else.
pub open spec fn makes_one(s: StackView, t: StackView, made: StorageView) -> bool {
    &&& keeps_storage(s, t)
    &&& t.pointers.len() == s.pointers.len() + 1
    &&& t.pointers.last() == made
    &&& t.stack.len() == s.stack.len()
    &&& t.stack.drop_last() == s.stack.drop_last()
    &&& t.find(made.name) == Some(s.pointers.len())
    &&& forall|other: NameView| other != made.name ==> #[trigger] t.find(other) == s.find(other)
    &&& t.reports == s.reports
    &&& t.current_return_ptr == s.current_return_ptr
    &&& t.must_move_before_ret == s.must_move_before_ret
}

/// Making storage makes one, whether or not a value is stored there at once.
pub proof fn lemma_makes_one(
    s: StackView,
    typ: Option<TypedView>,
    name: NameView,
    loc: Location,
    tags: TagsView,
    value: LifetimeView,
    here: Location,
)
    requires
        s.stack.len() > 0,
    ensures
        makes_one(
            s,
            s.local(typ, name, loc, tags),
            StorageView {
                name,
                typ,
                tags,
                stored_here: loc,
                changed_here: None,
                value: LifetimeView::Uninitialized,
            },
        ),
        makes_one(
            s,
            s.local(typ, name, loc, tags).write(s.pointers.len(), value, here),
            StorageView { name, typ, tags, stored_here: loc, changed_here: Some(here), value },
        ),
{
    let t = s.local(typ, name, loc, tags);
    assert(t.stack.drop_last() =~= s.stack.drop_last());
    assert forall|other: NameView| other != name implies #[trigger] t.find(other) == s.find(
        other,
    ) by {
        law_local_is_found(s, typ, name, loc, tags, other);
    }
    law_local_is_found(s, typ, name, loc, tags, name);
    let u = t.write(s.pointers.len(), value, here);
    assert(u.stack == t.stack);
    assert forall|other: NameView| other != name implies #[trigger] u.find(other) == s.find(
        other,
    ) by {
        assert(t.find(other) == s.find(other));
    }
}

/// In the beginning there is no storage, no scope, and nothing was reported.
pub proof fn law_empty_state()
    ensures
        StackView::empty().pointers.len() == 0,
        StackView::empty().stack.len() == 0,
        StackView::empty().reports.len() == 0,
        StackView::empty().must_move_before_ret.len() == 0,
        StackView::empty().current_return_ptr is None,
        !StackView::empty().abort(),
{
}

/// New storage is added behind all others. It has the name, the type, the tags and the place
/// that it was declared with, and holds nothing. The innermost scope binds its name to it.
pub proof fn law_new_storage(
    s: StackView,
    typ: Option<TypedView>,
    name: NameView,
    loc: Location,
    tags: TagsView,
    other: NameView,
)
    requires
        s.stack.len() > 0,
    ensures
        ({
            let t = s.local(typ, name, loc, tags);
            let made = t.pointers[s.pointers.len() as int];
            let inner = s.stack.last().locals;
            &&& keeps_storage(s, t)
            &&& t.pointers.len() == s.pointers.len() + 1
            &&& made.name == name
            &&& made.typ == typ
            &&& made.tags == tags
            &&& made.stored_here == loc
            &&& made.changed_here is None
            &&& made.value is Uninitialized
            &&& t.stack.len() == s.stack.len()
            &&& t.stack.drop_last() == s.stack.drop_last()
            &&& t.stack.last().name == s.stack.last().name
            &&& t.stack.last().locals.contains_key(name)
            &&& t.stack.last().locals[name] == s.pointers.len()
            &&& other != name ==> t.stack.last().locals.contains_key(other)
                == inner.contains_key(other)
            &&& other != name && inner.contains_key(other) ==> t.stack.last().locals[other]
                == inner[other]
            &&& t.reports == s.reports
            &&& t.current_return_ptr == s.current_return_ptr
            &&& t.must_move_before_ret == s.must_move_before_ret
        }),
{
    assert(s.local(typ, name, loc, tags).stack.drop_last() =~= s.stack.drop_last());
}

/// A write stores the value and remembers where, and changes nothing else.
pub proof fn law_write_stores(s: StackView, p: nat, value: LifetimeView, here: Location)
    requires
        p < s.pointers.len(),
    ensures
        ({
            let t = s.write(p, value, here);
            let was = s.pointers[p as int];
            let now = t.pointers[p as int];
            &&& same_but_at(s, t, p)
            &&& now.value == value
            &&& now.changed_here == Some(here)
            &&& now.name == was.name
            &&& now.typ == was.typ
            &&& now.tags == was.tags
            &&& now.stored_here == was.stored_here
        }),
{
}

/// Other tags, and nothing else, are put on storage.
pub proof fn law_set_tags_sets_tags(s: StackView, p: nat, tags: TagsView)
    requires
        p < s.pointers.len(),
    ensures
        ({
            let t = s.set_tags(p, tags);
            let was = s.pointers[p as int];
            let now = t.pointers[p as int];
            &&& same_but_at(s, t, p)
            &&& now.tags == tags
            &&& now.value == was.value
            &&& now.changed_here == was.changed_here
            &&& now.name == was.name
            &&& now.typ == was.typ
            &&& now.stored_here == was.stored_here
        }),
{
}

/// What is given away is marked as moved, and nothing else is changed.
pub proof fn law_giving_away_moves(s: StackView, p: nat, here: Location)
    requires
        p < s.pointers.len(),
    ensures
        ({
            let t = s.give_away(p, here);
            let was = s.pointers[p as int];
            let now = t.pointers[p as int];
            &&& same_but_at(s, t, p)
            &&& now.value == (LifetimeView::Moved { moved_here: here })
            &&& now.tags == was.tags
            &&& now.changed_here == was.changed_here
            &&& now.name == was.name
            &&& now.typ == was.typ
            &&& now.stored_here == was.stored_here
        }),
{
}

/// A scope that is opened binds nothing, and changes nothing else.
pub proof fn law_push_opens_an_empty_scope(s: StackView, name: Text)
    ensures
        ({
            let t = s.push(name);
            &&& t.stack.len() == s.stack.len() + 1
            &&& t.stack.drop_last() == s.stack
            &&& t.stack.last().name == name
            &&& forall|n: NameView| !(#[trigger] t.stack.last().locals.contains_key(n))
            &&& t.pointers == s.pointers
            &&& t.reports == s.reports
            &&& t.current_return_ptr == s.current_return_ptr
            &&& t.must_move_before_ret == s.must_move_before_ret
        }),
{
    assert(s.push(name).stack.drop_last() =~= s.stack);
}

/// Closing a scope takes away the innermost one. Storage is dropped exactly if a name of that
/// scope stands for it. It keeps all but its value.
pub proof fn law_pop_closes_the_innermost_scope(s: StackView, end: Location, p: nat)
    requires
        s.stack.len() > 0,
        p < s.pointers.len(),
    ensures
        ({
            let t = s.pop(end);
            let dead = s.stack.last().locals;
            let was = s.pointers[p as int];
            let now = t.pointers[p as int];
            &&& t.stack == s.stack.drop_last()
            &&& t.pointers.len() == s.pointers.len()
            &&& t.reports == s.reports
            &&& t.current_return_ptr == s.current_return_ptr
            &&& t.must_move_before_ret == s.must_move_before_ret
            &&& now.name == was.name
            &&& now.typ == was.typ
            &&& now.tags == was.tags
            &&& now.stored_here == was.stored_here
            &&& now.changed_here == was.changed_here
            &&& (exists|name: NameView| #[trigger] dead.contains_key(name) && dead[name] == p)
                ==> now.value == (LifetimeView::Dropped {
                stored_here: was.stored_here,
                dropped_here: end,
            })
            &&& (forall|name: NameView| #[trigger] dead.contains_key(name) ==> dead[name] != p)
                ==> now.value == was.value
        }),
{
}

/// A name means what the innermost of the scopes that know it binds it to.
pub proof fn law_innermost_scope_wins(s: StackView, name: NameView, i: int)
    requires
        0 <= i < s.stack.len(),
        s.stack[i].locals.contains_key(name),
        forall|j: int| i < j < s.stack.len() ==> !(#[trigger] s.stack[j]).locals.contains_key(name),
    ensures
        s.find(name) == Some(s.stack[i].locals[name]),
    decreases s.stack.len(),
{
    if i < s.stack.len() - 1 {
        assert(!s.stack[s.stack.len() - 1].locals.contains_key(name));
        let t = StackView { stack: s.stack.drop_last(), ..s };
        assert forall|j: int| i < j < t.stack.len() implies !(
        #[trigger] t.stack[j]).locals.contains_key(name) by {
            assert(!s.stack[j].locals.contains_key(name));
        }
        law_innermost_scope_wins(t, name, i);
    }
}

/// A name that no scope binds means nothing.
pub proof fn law_unbound_name_means_nothing(s: StackView, name: NameView)
    requires
        forall|j: int|
            0 <= j < s.stack.len() ==> !(#[trigger] s.stack[j]).locals.contains_key(name),
    ensures
        s.find(name) is None,
    decreases s.stack.len(),
{
    if s.stack.len() > 0 {
        assert(!s.stack[s.stack.len() - 1].locals.contains_key(name));
        let t = StackView { stack: s.stack.drop_last(), ..s };
        assert forall|j: int| 0 <= j < t.stack.len() implies !(
        #[trigger] t.stack[j]).locals.contains_key(name) by {
            assert(!s.stack[j].locals.contains_key(name));
        }
        law_unbound_name_means_nothing(t, name);
    }
}

/// What a read of storage comes to. Whatever is asked for, dropped storage is an error. The
/// address of anything else can be had. The value can be had of storage that is not unsafe, and
/// that holds one.
pub proof fn law_read(s: StackView, p: nat, here: Location)
    ensures
        ({
            let at = s.pointers[p as int];
            let name = at.name;
            let (t, value) = s.read(p, here, Access::Value);
            let (u, address) = s.read(p, here, Access::Storage);
            let bad = has_key(at.tags, "unsafe"@);
            &&& at.value matches LifetimeView::Dropped { stored_here, dropped_here } ==> {
                let r = ReportOf::DroppedRead { name, used_here: here, stored_here, dropped_here };
                &&& t == s.report(r)
                &&& u == s.report(r)
                &&& value is Uninitialized
                &&& address is Uninitialized
            }
            &&& !(at.value is Dropped) ==> u == s && address == LifetimeView::Pointer(p)
            &&& !(at.value is Dropped) && bad ==> t == s.report(
                ReportOf::UnsafeRead { name, used_here: here, stored_here: at.stored_here },
            ) && value is Uninitialized
            &&& at.value is Uninitialized && !bad ==> t == s.report(
                ReportOf::UninitializedRead { name, used_here: here },
            ) && value is Uninitialized
            &&& !bad ==> (at.value matches LifetimeView::Moved { moved_here } ==> t == s.report(
                ReportOf::MovedRead { name, used_here: here, moved_here },
            ) && value is Uninitialized)
            &&& (at.value is Static || at.value is Pointer || at.value is Function) && !bad ==> t
                == s && value == at.value
        }),
{
}

/// A name that means nothing is an error, and is taken for something static. Any other is read.
pub proof fn law_check_name(s: StackView, name: NameView, here: Location, access: Access)
    ensures
        s.find(name) is None ==> s.check_name(name, here, access) == (
            s.report(ReportOf::UndefinedName { name, used_here: here }),
            LifetimeView::Static,
        ),
        s.find(name) matches Some(p) ==> s.check_name(name, here, access) == s.read(
            p,
            here,
            access,
        ),
{
}

/// A report is added behind the others, and changes nothing else.
pub proof fn law_reports_are_added(s: StackView, r: ReportView)
    ensures
        s.report(r).reports.len() == s.reports.len() + 1,
        s.report(r).reports.drop_last() == s.reports,
        s.report(r).reports.last() == r,
        s.report(r).pointers == s.pointers,
        s.report(r).stack == s.stack,
        s.report(r).current_return_ptr == s.current_return_ptr,
        s.report(r).must_move_before_ret == s.must_move_before_ret,
{
    assert(s.report(r).reports.drop_last() =~= s.reports);
}

/// The build is to be aborted exactly if something was reported that is more than a warning.
/// Warnings are calls of something that is no function, and values of unknown lifetime.
pub proof fn law_abort_needs_an_error(s: StackView, r: ReportView)
    ensures
        s.report(r).abort() <==> s.abort() || !(r is NotAFunction || r is UnknownRvalue
            || r is InvalidRvalue),
{
    let t = s.report(r);
    if s.abort() {
        let i = choose|i: int| 0 <= i < s.reports.len() && is_error(#[trigger] s.reports[i]);
        assert(is_error(t.reports[i]));
    }
    if is_error(r) {
        assert(is_error(t.reports[s.reports.len() as int]));
    }
    if t.abort() && !is_error(r) {
        let i = choose|i: int| 0 <= i < t.reports.len() && is_error(#[trigger] t.reports[i]);
        assert(is_error(s.reports[i]));
    }
}

} // verus!
