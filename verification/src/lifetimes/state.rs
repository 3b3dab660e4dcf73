//! The state of the checker as mathematical values: what is known of every storage location,
//! which names are in scope, and what has been reported.

use vstd::prelude::*;
use crate::ast::{NamedArgView, TypedView};
use crate::location::Location;
use crate::name::NameView;
use crate::report::{ReportOf, ReportView, has_error};
use crate::tags::{TagsView, has_key};
use crate::text::Text;

verus! {

/// What an expression is asked for: the address of its storage, or the value in it.
#[derive(Clone, Copy, PartialEq, Eq, Structural, Debug)]
pub enum Access {
    Storage,
    Value,
}

/// What is known of the value in a storage location.
pub enum LifetimeView {
    /// Nothing was stored yet.
    Uninitialized,
    /// The value is no pointer, or points to something that is never dropped.
    Static,
    /// The value points to the storage location of that number.
    Pointer(nat),
    /// The value is a function.
    Function { ret: Option<Box<LifetimeView>>, args: Seq<NamedArgView>, vararg: bool },
    /// The value was given away.
    Moved { moved_here: Location },
    /// The scope of the storage has ended.
    Dropped { stored_here: Location, dropped_here: Location },
}

/// Whether every storage location that a value points to is one of the first `n`.
pub open spec fn points_below(value: LifetimeView, n: nat) -> bool
    decreases value,
{
    match value {
        LifetimeView::Pointer(p) => p < n,
        LifetimeView::Function { ret: Some(ret), .. } => points_below(*ret, n),
        _ => true,
    }
}

/// A storage location.
pub struct StorageView {
    pub name: NameView,
    pub typ: Option<TypedView>,
    pub tags: TagsView,
    pub stored_here: Location,
    pub changed_here: Option<Location>,
    pub value: LifetimeView,
}

/// A storage location whose scope has ended.
pub open spec fn dropped(storage: StorageView, dropped_here: Location) -> StorageView {
    StorageView {
        value: LifetimeView::Dropped { stored_here: storage.stored_here, dropped_here },
        ..storage
    }
}

/// A scope: the storage location of each name that it binds.
#[verifier::ext_equal]
pub struct ScopeView {
    pub name: Text,
    pub locals: Map<NameView, nat>,
}

/// Whether a scope binds a name to the storage location `p`.
pub open spec fn binds(locals: Map<NameView, nat>, p: nat) -> bool {
    exists|name: NameView| #[trigger] locals.contains_key(name) && locals[name] == p
}

/// What `name` means in the innermost of the scopes that bind it.
pub open spec fn find_in(stack: Seq<ScopeView>, name: NameView) -> Option<nat>
    decreases stack.len(),
{
    if stack.len() == 0 {
        None
    } else if stack.last().locals.contains_key(name) {
        Some(stack.last().locals[name])
    } else {
        find_in(stack.drop_last(), name)
    }
}

/// The state of the checker.
#[verifier::ext_equal]
pub struct StackView {
    /// Every storage location ever made, by number.
    pub pointers: Seq<StorageView>,
    /// The open scopes, innermost last.
    pub stack: Seq<ScopeView>,
    /// The storage that stands for what the current function returns.
    pub current_return_ptr: Option<nat>,
    /// The storage that has to be moved before the function returns, with the call that made it.
    pub must_move_before_ret: Seq<(nat, Location)>,
    /// What has been reported, in that order.
    pub reports: Seq<ReportView>,
}

impl StackView {
    /// The state in which nothing is known.
    pub open spec fn empty() -> StackView {
        StackView {
            pointers: Seq::empty(),
            stack: Seq::empty(),
            current_return_ptr: None,
            must_move_before_ret: Seq::empty(),
            reports: Seq::empty(),
        }
    }

    /// Every number that stands for a storage location does stand for one, and nothing is owed
    /// twice.
    pub open spec fn wf(self) -> bool {
        &&& forall|i: int|
            0 <= i < self.pointers.len() ==> points_below(
                (#[trigger] self.pointers[i]).value,
                self.pointers.len(),
            )
        &&& forall|i: int, name: NameView|
            0 <= i < self.stack.len() && #[trigger] self.stack[i].locals.contains_key(name)
                ==> self.stack[i].locals[name] < self.pointers.len()
        &&& forall|i: int|
            0 <= i < self.must_move_before_ret.len() ==> (
            #[trigger] self.must_move_before_ret[i]).0 < self.pointers.len()
        &&& forall|i: int, j: int|
            0 <= i < j < self.must_move_before_ret.len() ==> (
            #[trigger] self.must_move_before_ret[i]).0 != (
            #[trigger] self.must_move_before_ret[j]).0
    }

    /// Whether an error was reported, so that the program must not be built.
    pub open spec fn abort(self) -> bool {
        has_error(self.reports)
    }

    /// The state after `r` was reported.
    pub open spec fn report(self, r: ReportView) -> StackView {
        StackView { reports: self.reports.push(r), ..self }
    }

    /// The state after a scope was opened.
    pub open spec fn push(self, name: Text) -> StackView {
        StackView { stack: self.stack.push(ScopeView { name, locals: Map::empty() }), ..self }
    }

    /// The state after the innermost scope was closed: what it binds is dropped.
    pub open spec fn pop(self, dropped_here: Location) -> StackView {
        let dead = self.stack.last().locals;
        StackView {
            pointers: Seq::new(
                self.pointers.len(),
                |p: int|
                    if binds(dead, p as nat) {
                        dropped(self.pointers[p], dropped_here)
                    } else {
                        self.pointers[p]
                    },
            ),
            stack: self.stack.drop_last(),
            ..self
        }
    }

    /// What `name` means.
    pub open spec fn find(self, name: NameView) -> Option<nat> {
        find_in(self.stack, name)
    }

    /// The state after new storage was made and bound to `name` in the innermost scope. Its
    /// number is the number of locations that there were.
    pub open spec fn local(
        self,
        typ: Option<TypedView>,
        name: NameView,
        loc: Location,
        tags: TagsView,
    ) -> StackView {
        let top = self.stack.last();
        StackView {
            pointers: self.pointers.push(
                StorageView {
                    name,
                    typ,
                    tags,
                    stored_here: loc,
                    changed_here: None,
                    value: LifetimeView::Uninitialized,
                },
            ),
            stack: self.stack.drop_last().push(
                ScopeView {
                    name: top.name,
                    locals: top.locals.insert(name, self.pointers.len()),
                },
            ),
            ..self
        }
    }

    /// The state after `value` was stored at `p`.
    pub open spec fn write(self, p: nat, value: LifetimeView, used_here: Location) -> StackView {
        StackView {
            pointers: self.pointers.update(
                p as int,
                StorageView {
                    value,
                    changed_here: Some(used_here),
                    ..self.pointers[p as int]
                },
            ),
            ..self
        }
    }

    /// The state with other tags on `p`.
    pub open spec fn set_tags(self, p: nat, tags: TagsView) -> StackView {
        StackView {
            pointers: self.pointers.update(
                p as int,
                StorageView { tags, ..self.pointers[p as int] },
            ),
            ..self
        }
    }

    /// The state after what is at `p` was given away.
    pub open spec fn give_away(self, p: nat, moved_here: Location) -> StackView {
        StackView {
            pointers: self.pointers.update(
                p as int,
                StorageView {
                    value: LifetimeView::Moved { moved_here },
                    ..self.pointers[p as int]
                },
            ),
            ..self
        }
    }

    /// A read of the storage location `p`: its address, or the value in it. Storage that was
    /// dropped can be asked for neither; unsafe storage, and storage that holds no value, only
    /// for its address.
    pub open spec fn read(self, p: nat, used_here: Location, access: Access) -> (
        StackView,
        LifetimeView,
    ) {
        let storage = self.pointers[p as int];
        let name = storage.name;
        if storage.value is Dropped {
            (
                self.report(
                    ReportOf::DroppedRead {
                        name,
                        used_here,
                        stored_here: storage.value->stored_here,
                        dropped_here: storage.value->dropped_here,
                    },
                ),
                LifetimeView::Uninitialized,
            )
        } else if access == Access::Storage {
            (self, LifetimeView::Pointer(p))
        } else if has_key(storage.tags, "unsafe"@) {
            (
                self.report(
                    ReportOf::UnsafeRead { name, used_here, stored_here: storage.stored_here },
                ),
                LifetimeView::Uninitialized,
            )
        } else {
            match storage.value {
                LifetimeView::Uninitialized => (
                    self.report(ReportOf::UninitializedRead { name, used_here }),
                    LifetimeView::Uninitialized,
                ),
                LifetimeView::Moved { moved_here } => (
                    self.report(ReportOf::MovedRead { name, used_here, moved_here }),
                    LifetimeView::Uninitialized,
                ),
                value => (self, value),
            }
        }
    }

    /// A read of what `name` means. What nobody knows is taken for something of C.
    pub open spec fn check_name(self, name: NameView, used_here: Location, access: Access) -> (
        StackView,
        LifetimeView,
    ) {
        match self.find(name) {
            None => (
                self.report(ReportOf::UndefinedName { name, used_here }),
                LifetimeView::Static,
            ),
            Some(p) => self.read(p, used_here, access),
        }
    }
}

/// What points below `n` points below anything greater.
pub proof fn lemma_points_below(value: LifetimeView, n: nat, m: nat)
    requires
        points_below(value, n),
        n <= m,
    ensures
        points_below(value, m),
    decreases value,
{
    match value {
        LifetimeView::Function { ret: Some(ret), .. } => {
            lemma_points_below(*ret, n, m);
        },
        _ => {},
    }
}

/// Opening a scope keeps the state well formed.
pub proof fn lemma_push_wf(s: StackView, name: Text)
    requires
        s.wf(),
    ensures
        s.push(name).wf(),
{
    let t = s.push(name);
    assert forall|i: int, n: NameView|
        0 <= i < t.stack.len() && #[trigger] t.stack[i].locals.contains_key(
            n,
        ) implies t.stack[i].locals[n] < t.pointers.len() by {
        assert(t.stack[i] == s.stack[i]);
    }
}

/// Closing a scope keeps the state well formed.
pub proof fn lemma_pop_wf(s: StackView, dropped_here: Location)
    requires
        s.wf(),
        s.stack.len() > 0,
    ensures
        s.pop(dropped_here).wf(),
{
    let t = s.pop(dropped_here);
    assert forall|i: int| 0 <= i < t.pointers.len() implies points_below(
        (#[trigger] t.pointers[i]).value,
        t.pointers.len(),
    ) by {
        assert(points_below(s.pointers[i].value, s.pointers.len()));
    }
    assert forall|i: int, n: NameView|
        0 <= i < t.stack.len() && #[trigger] t.stack[i].locals.contains_key(
            n,
        ) implies t.stack[i].locals[n] < t.pointers.len() by {
        assert(t.stack[i] == s.stack[i]);
    }
}

/// Making storage keeps the state well formed.
pub proof fn lemma_local_wf(
    s: StackView,
    typ: Option<TypedView>,
    name: NameView,
    loc: Location,
    tags: TagsView,
)
    requires
        s.wf(),
        s.stack.len() > 0,
    ensures
        s.local(typ, name, loc, tags).wf(),
{
    let t = s.local(typ, name, loc, tags);
    assert forall|i: int| 0 <= i < t.pointers.len() implies points_below(
        (#[trigger] t.pointers[i]).value,
        t.pointers.len(),
    ) by {
        if i < s.pointers.len() {
            assert(t.pointers[i] == s.pointers[i]);
            lemma_points_below(s.pointers[i].value, s.pointers.len(), t.pointers.len());
        }
    }
    assert forall|i: int, n: NameView|
        0 <= i < t.stack.len() && #[trigger] t.stack[i].locals.contains_key(
            n,
        ) implies t.stack[i].locals[n] < t.pointers.len() by {
        if i < s.stack.len() - 1 {
            assert(t.stack[i] == s.stack[i]);
        } else if n != name {
            assert(s.stack[i].locals.contains_key(n));
        }
    }
    assert forall|i: int| 0 <= i < t.must_move_before_ret.len() implies (
    #[trigger] t.must_move_before_ret[i]).0 < t.pointers.len() by {
        assert(s.must_move_before_ret[i].0 < s.pointers.len());
    }
}

/// Changing one storage location, but for what its value may point to, keeps the state well
/// formed.
pub proof fn lemma_update_wf(s: StackView, p: nat, storage: StorageView)
    requires
        s.wf(),
        p < s.pointers.len(),
        points_below(storage.value, s.pointers.len()),
    ensures
        (StackView { pointers: s.pointers.update(p as int, storage), ..s }).wf(),
{
    let t = StackView { pointers: s.pointers.update(p as int, storage), ..s };
    assert forall|i: int| 0 <= i < t.pointers.len() implies points_below(
        (#[trigger] t.pointers[i]).value,
        t.pointers.len(),
    ) by {
        if i != p {
            assert(t.pointers[i] == s.pointers[i]);
        }
    }
    assert forall|i: int, n: NameView|
        0 <= i < t.stack.len() && #[trigger] t.stack[i].locals.contains_key(
            n,
        ) implies t.stack[i].locals[n] < t.pointers.len() by {
        assert(s.stack[i].locals.contains_key(n));
    }
}

/// A name that is found is bound to storage that exists.
pub proof fn lemma_find_wf(s: StackView, name: NameView)
    requires
        s.wf(),
    ensures
        s.find(name) matches Some(p) ==> p < s.pointers.len(),
{
    lemma_find_in_wf(s, s.stack.len(), name);
    assert(s.stack.take(s.stack.len() as int) =~= s.stack);
}

proof fn lemma_find_in_wf(s: StackView, depth: nat, name: NameView)
    requires
        s.wf(),
        depth <= s.stack.len(),
    ensures
        find_in(s.stack.take(depth as int), name) matches Some(p) ==> p < s.pointers.len(),
    decreases depth,
{
    if depth > 0 {
        let scopes = s.stack.take(depth as int);
        assert(scopes.last() == s.stack[depth - 1]);
        assert(scopes.drop_last() =~= s.stack.take(depth - 1));
        lemma_find_in_wf(s, (depth - 1) as nat, name);
    }
}

/// A read keeps the state well formed, and gives a value that points to storage.
pub proof fn lemma_read_wf(s: StackView, p: nat, used_here: Location, access: Access)
    requires
        s.wf(),
        p < s.pointers.len(),
    ensures
        s.read(p, used_here, access).0.wf(),
        s.read(p, used_here, access).0.pointers == s.pointers,
        s.read(p, used_here, access).0.stack == s.stack,
        points_below(s.read(p, used_here, access).1, s.pointers.len()),
{
    assert(points_below(s.pointers[p as int].value, s.pointers.len()));
}

/// A read of a name keeps the state well formed, and gives a value that points to storage.
pub proof fn lemma_check_name_wf(
    s: StackView,
    name: NameView,
    used_here: Location,
    access: Access,
)
    requires
        s.wf(),
    ensures
        s.check_name(name, used_here, access).0.wf(),
        s.check_name(name, used_here, access).0.pointers == s.pointers,
        s.check_name(name, used_here, access).0.stack == s.stack,
        points_below(s.check_name(name, used_here, access).1, s.pointers.len()),
{
    lemma_find_wf(s, name);
    match s.find(name) {
        Some(p) => {
            lemma_read_wf(s, p, used_here, access);
        },
        None => {},
    }
}

} // verus!
