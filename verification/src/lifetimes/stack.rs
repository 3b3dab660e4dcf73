//! What the checker knows while it walks a program: storage locations, scopes and reports.

use vstd::prelude::*;
use crate::ast::{NamedArg, Typed, arg_views, opt_typed_view};
use crate::lifetimes::state::{
    Access, LifetimeView, ScopeView, StackView, StorageView, binds, dropped, find_in,
    lemma_find_wf, lemma_local_wf, lemma_pop_wf, lemma_push_wf, lemma_update_wf, points_below,
};
use crate::location::Location;
use crate::name::{Name, NameView};
use crate::report::{Report, ReportOf, any_error, report_views};
use crate::tags::Tags;
use crate::text::{Text, decimal, decimal_text};

verus! {

/// What is known of the value in a storage location.
#[derive(Debug)]
pub enum Lifetime {
    Uninitialized,
    Static,
    Pointer(usize),
    Function { ret: Option<Box<Lifetime>>, args: Vec<NamedArg>, vararg: bool },
    Moved { moved_here: Location },
    Dropped { stored_here: Location, dropped_here: Location },
}

/// What a lifetime that may be absent holds.
pub open spec fn opt_lifetime_view(lf: Option<Box<Lifetime>>) -> Option<Box<LifetimeView>>
    decreases lf,
{
    match lf {
        Some(lf) => Some(Box::new(lf.view())),
        None => None,
    }
}

/// How a lifetime is shown.
pub open spec fn lifetime_text(lf: LifetimeView) -> Text {
    match lf {
        LifetimeView::Uninitialized => "uninitialized"@,
        LifetimeView::Static => "static"@,
        LifetimeView::Pointer(to) => "ptr->"@ + decimal(to),
        LifetimeView::Function { .. } => "function"@,
        LifetimeView::Moved { .. } => "moved"@,
        LifetimeView::Dropped { .. } => "dropped"@,
    }
}

impl Lifetime {
    /// What the lifetime holds.
    pub open spec fn view(&self) -> LifetimeView
        decreases self,
    {
        match *self {
            Lifetime::Uninitialized => LifetimeView::Uninitialized,
            Lifetime::Static => LifetimeView::Static,
            Lifetime::Pointer(to) => LifetimeView::Pointer(to as nat),
            Lifetime::Function { ret, args, vararg } => LifetimeView::Function {
                ret: opt_lifetime_view(ret),
                args: arg_views(args@),
                vararg,
            },
            Lifetime::Moved { moved_here } => LifetimeView::Moved { moved_here },
            Lifetime::Dropped { stored_here, dropped_here } => LifetimeView::Dropped {
                stored_here,
                dropped_here,
            },
        }
    }

    /// Whether the lifetime is that of a pointer.
    pub fn is_pointer(&self) -> (yes: bool)
        ensures
            yes == (self is Pointer),
            yes == (self@ is Pointer),
    {
        match self {
            Lifetime::Pointer(_) => true,
            _ => false,
        }
    }

    /// The storage location that a pointer points to.
    pub fn as_pointer(&self) -> (to: usize)
        requires
            self is Pointer,
        ensures
            self@ == LifetimeView::Pointer(to as nat),
            *self == Lifetime::Pointer(to),
    {
        match self {
            Lifetime::Pointer(to) => *to,
            _ => {
                assert(false);
                0
            },
        }
    }

    /// How the lifetime is shown.
    pub fn to_text(&self) -> (t: String)
        ensures
            t@ == lifetime_text(self@),
    {
        match self {
            Lifetime::Uninitialized => "uninitialized".to_owned(),
            Lifetime::Static => "static".to_owned(),
            Lifetime::Pointer(to) => {
                let mut t = "ptr->".to_owned();
                t.append(decimal_text(*to).as_str());
                t
            },
            Lifetime::Function { .. } => "function".to_owned(),
            Lifetime::Moved { .. } => "moved".to_owned(),
            Lifetime::Dropped { .. } => "dropped".to_owned(),
        }
    }
}

impl Clone for Lifetime {
    fn clone(&self) -> (copy: Lifetime)
        ensures
            copy@ == self@,
        decreases self,
    {
        match self {
            Lifetime::Uninitialized => Lifetime::Uninitialized,
            Lifetime::Static => Lifetime::Static,
            Lifetime::Pointer(to) => Lifetime::Pointer(*to),
            Lifetime::Function { ret, args, vararg } => {
                let ret_copy = match ret {
                    Some(ret) => Some(Box::new((&**ret).clone())),
                    None => None,
                };
                let args_copy = args.clone();
                assert(arg_views(args_copy@) =~= arg_views(args@));
                Lifetime::Function { ret: ret_copy, args: args_copy, vararg: *vararg }
            },
            Lifetime::Moved { moved_here } => Lifetime::Moved { moved_here: *moved_here },
            Lifetime::Dropped { stored_here, dropped_here } => Lifetime::Dropped {
                stored_here: *stored_here,
                dropped_here: *dropped_here,
            },
        }
    }
}

/// A storage location.
#[derive(Debug)]
pub struct Storage {
    pub name: Name,
    pub typ: Option<Typed>,
    pub tags: Tags,
    pub stored_here: Location,
    pub changed_here: Option<Location>,
    pub value: Lifetime,
}

impl View for Storage {
    type V = StorageView;

    open spec fn view(&self) -> StorageView {
        StorageView {
            name: self.name@,
            typ: opt_typed_view(self.typ),
            tags: self.tags@,
            stored_here: self.stored_here,
            changed_here: self.changed_here,
            value: self.value@,
        }
    }
}

/// What each storage location of a sequence holds.
pub open spec fn storage_views(pointers: Seq<Storage>) -> Seq<StorageView> {
    Seq::new(pointers.len(), |i: int| pointers[i]@)
}

/// A name with the storage location that it is bound to.
#[derive(Debug)]
pub struct Binding {
    pub name: Name,
    pub ptr: usize,
}

/// A scope, with a binding for each name that it binds.
#[derive(Debug)]
pub struct Scope {
    pub name: String,
    pub locals: Vec<Binding>,
}

/// The map that a list of bindings stands for.
pub open spec fn bindings_map(bs: Seq<Binding>) -> Map<NameView, nat>
    decreases bs.len(),
{
    if bs.len() == 0 {
        Map::empty()
    } else {
        bindings_map(bs.drop_last()).insert(bs.last().name@, bs.last().ptr as nat)
    }
}

/// No name is bound twice.
pub open spec fn bound_once(bs: Seq<Binding>) -> bool {
    forall|i: int, j: int|
        0 <= i < j < bs.len() ==> (#[trigger] bs[i]).name@ != (#[trigger] bs[j]).name@
}

proof fn lemma_bindings_map(bs: Seq<Binding>)
    requires
        bound_once(bs),
    ensures
        forall|i: int|
            #![trigger bs[i]]
            0 <= i < bs.len() ==> bindings_map(bs).contains_key(bs[i].name@) && bindings_map(
                bs,
            )[bs[i].name@] == bs[i].ptr,
        forall|name: NameView| #[trigger]
            bindings_map(bs).contains_key(name) ==> exists|i: int|
                0 <= i < bs.len() && (#[trigger] bs[i]).name@ == name,
    decreases bs.len(),
{
    if bs.len() > 0 {
        let front = bs.drop_last();
        lemma_bindings_map(front);
        assert forall|i: int| #![trigger bs[i]] 0 <= i < bs.len() implies bindings_map(
            bs,
        ).contains_key(bs[i].name@) && bindings_map(bs)[bs[i].name@] == bs[i].ptr by {
            if i < front.len() {
                assert(front[i] == bs[i]);
                assert(bs[i].name@ != bs[bs.len() - 1].name@);
            }
        }
        assert forall|name: NameView| #[trigger]
            bindings_map(bs).contains_key(name) implies exists|i: int|
            0 <= i < bs.len() && (#[trigger] bs[i]).name@ == name by {
            if name == bs.last().name@ {
                assert(bs[bs.len() - 1].name@ == name);
            } else {
                assert(bindings_map(front).contains_key(name));
                let i = choose|i: int| 0 <= i < front.len() && (#[trigger] front[i]).name@ == name;
                assert(bs[i].name@ == name);
            }
        }
    }
}

impl View for Scope {
    type V = ScopeView;

    open spec fn view(&self) -> ScopeView {
        ScopeView { name: self.name@, locals: bindings_map(self.locals@) }
    }
}

/// What each scope of a sequence holds.
pub open spec fn scope_views(stack: Seq<Scope>) -> Seq<ScopeView> {
    Seq::new(stack.len(), |i: int| stack[i]@)
}

impl Scope {
    /// The scope binds no name twice.
    pub open spec fn wf(&self) -> bool {
        bound_once(self.locals@)
    }

    /// The storage location that the scope binds a name to.
    pub fn get(&self, name: &Name) -> (found: Option<usize>)
        requires
            self.wf(),
        ensures
            match found {
                Some(p) => self@.locals.contains_key(name@) && self@.locals[name@] == p,
                None => !self@.locals.contains_key(name@),
            },
    {
        proof {
            lemma_bindings_map(self.locals@);
        }
        let mut i: usize = 0;
        while i < self.locals.len()
            invariant
                i <= self.locals@.len(),
                self.wf(),
                forall|j: int| 0 <= j < i ==> (#[trigger] self.locals@[j]).name@ != name@,
            decreases self.locals@.len() - i,
        {
            if self.locals[i].name.same(name) {
                proof {
                    lemma_bindings_map(self.locals@);
                }
                return Some(self.locals[i].ptr);
            }
            i = i + 1;
        }
        None
    }

    /// Binds a name to a storage location, instead of what it was bound to.
    pub fn insert(&mut self, name: Name, ptr: usize)
        requires
            old(self).wf(),
        ensures
            final(self).wf(),
            final(self)@ == (ScopeView {
                name: old(self)@.name,
                locals: old(self)@.locals.insert(name@, ptr as nat),
            }),
    {
        let ghost before = self.locals@;
        proof {
            lemma_bindings_map(before);
        }
        let mut i: usize = 0;
        while i < self.locals.len()
            invariant
                i <= self.locals@.len(),
                self.locals@ == before,
                before == old(self).locals@,
                self.name == old(self).name,
                bound_once(before),
                forall|j: int| 0 <= j < i ==> (#[trigger] before[j]).name@ != name@,
            decreases self.locals@.len() - i,
        {
            if self.locals[i].name.same(&name) {
                self.locals[i].ptr = ptr;
                proof {
                    let after = self.locals@;
                    assert(after =~= before.update(i as int, after[i as int]));
                    assert(after[i as int].name@ == before[i as int].name@);
                    assert forall|j: int, k: int| 0 <= j < k < after.len() implies (
                    #[trigger] after[j]).name@ != (#[trigger] after[k]).name@ by {
                        assert(before[j].name@ != before[k].name@);
                    }
                    lemma_bindings_map(after);
                    lemma_bindings_replaced(before, after, i as int);
                }
                return ;
            }
            i = i + 1;
        }
        self.locals.push(Binding { name, ptr });
        proof {
            let after = self.locals@;
            assert(after.drop_last() =~= before);
            assert forall|j: int, k: int| 0 <= j < k < after.len() implies (
            #[trigger] after[j]).name@ != (#[trigger] after[k]).name@ by {
                assert(after[j] == before[j]);
                if k < before.len() {
                    assert(after[k] == before[k]);
                }
            }
        }
    }
}

proof fn lemma_bindings_replaced(before: Seq<Binding>, after: Seq<Binding>, i: int)
    requires
        bound_once(before),
        bound_once(after),
        0 <= i < before.len(),
        after == before.update(i, after[i]),
        after[i].name@ == before[i].name@,
    ensures
        bindings_map(after) == bindings_map(before).insert(after[i].name@, after[i].ptr as nat),
{
    lemma_bindings_map(before);
    lemma_bindings_map(after);
    let m = bindings_map(before).insert(after[i].name@, after[i].ptr as nat);
    assert forall|name: NameView| #[trigger]
        bindings_map(after).contains_key(name) implies m.contains_key(name) && m[name]
        == bindings_map(after)[name] by {
        let j = choose|j: int| 0 <= j < after.len() && (#[trigger] after[j]).name@ == name;
        if j != i {
            assert(before[j] == after[j]);
            assert(before[j].name@ != before[i].name@) by {
                if j < i {
                    assert(before[j].name@ != before[i].name@);
                } else {
                    assert(before[i].name@ != before[j].name@);
                }
            }
        }
    }
    assert forall|name: NameView| #[trigger] m.contains_key(name) implies bindings_map(
        after,
    ).contains_key(name) by {
        if name == after[i].name@ {
            assert(bindings_map(after).contains_key(after[i].name@));
        } else {
            assert(bindings_map(before).contains_key(name));
            let j = choose|j: int| 0 <= j < before.len() && (#[trigger] before[j]).name@ == name;
            assert(after[j] == before[j]);
        }
    }
    assert(bindings_map(after) =~= m);
}

/// A storage location that is owed to somebody: it must be moved before the function returns.
#[derive(Debug)]
pub struct Owed {
    pub ptr: usize,
    pub loc: Location,
}

/// What each entry of a sequence holds.
pub open spec fn owed_views(owed: Seq<Owed>) -> Seq<(nat, Location)> {
    Seq::new(owed.len(), |i: int| (owed[i].ptr as nat, owed[i].loc))
}

/// The state of the checker.
#[derive(Debug)]
pub struct Stack {
    pub pointers: Vec<Storage>,
    pub stack: Vec<Scope>,
    pub current_return_ptr: Option<usize>,
    pub must_move_before_ret: Vec<Owed>,
    pub reports: Vec<Report>,
}

/// What a number that may be absent holds.
pub open spec fn opt_number_view(n: Option<usize>) -> Option<nat> {
    match n {
        Some(n) => Some(n as nat),
        None => None,
    }
}

impl View for Stack {
    type V = StackView;

    open spec fn view(&self) -> StackView {
        StackView {
            pointers: storage_views(self.pointers@),
            stack: scope_views(self.stack@),
            current_return_ptr: opt_number_view(self.current_return_ptr),
            must_move_before_ret: owed_views(self.must_move_before_ret@),
            reports: report_views(self.reports@),
        }
    }
}

impl Stack {
    /// Every number of a storage location stands for one, and no scope binds a name twice.
    pub open spec fn wf(&self) -> bool {
        &&& self@.wf()
        &&& forall|i: int| 0 <= i < self.stack@.len() ==> (#[trigger] self.stack@[i]).wf()
    }

    /// The state in which nothing is known.
    pub fn new() -> (stack: Stack)
        ensures
            stack.wf(),
            stack@ == StackView::empty(),
    {
        let stack = Stack {
            pointers: Vec::new(),
            stack: Vec::new(),
            current_return_ptr: None,
            must_move_before_ret: Vec::new(),
            reports: Vec::new(),
        };
        assert(stack@ =~= StackView::empty());
        stack
    }

    /// Reports an error or a warning.
    pub fn report(&mut self, r: Report)
        requires
            old(self).wf(),
        ensures
            final(self).wf(),
            final(self)@ == old(self)@.report(r@),
    {
        self.reports.push(r);
        assert(self@ =~= old(self)@.report(r@));
    }

    /// Whether an error was reported, so that the program must not be built.
    pub fn abort(&self) -> (abort: bool)
        ensures
            abort == self@.abort(),
    {
        any_error(&self.reports)
    }

    /// Opens a scope.
    pub fn push(&mut self, name: &str)
        requires
            old(self).wf(),
        ensures
            final(self).wf(),
            final(self)@ == old(self)@.push(name@),
    {
        let scope = Scope { name: name.to_owned(), locals: Vec::new() };
        assert(scope@.locals =~= Map::empty());
        self.stack.push(scope);
        proof {
            assert(self@ =~= old(self)@.push(name@));
            lemma_push_wf(old(self)@, name@);
            assert forall|i: int| 0 <= i < self.stack@.len() implies (
            #[trigger] self.stack@[i]).wf() by {
                if i < old(self).stack@.len() {
                    assert(self.stack@[i] == old(self).stack@[i]);
                }
            }
        }
    }

    /// Closes the innermost scope: what it binds is dropped.
    pub fn pop(&mut self, dropped_here: &Location)
        requires
            old(self).wf(),
            old(self)@.stack.len() > 0,
        ensures
            final(self).wf(),
            final(self)@ == old(self)@.pop(*dropped_here),
    {
        let ghost before = self@;
        let ghost scopes = self.stack@;
        let dead = self.stack.pop().unwrap();
        assert(dead == scopes.last());
        assert(scopes[scopes.len() - 1].wf());
        assert(before.stack.last() == dead@);
        proof {
            lemma_bindings_map(dead.locals@);
            assert forall|j: int| 0 <= j < dead.locals@.len() implies (
            #[trigger] dead.locals@[j]).ptr < before.pointers.len() by {
                assert(before.stack[before.stack.len() - 1].locals.contains_key(
                    dead.locals@[j].name@,
                ));
            }
        }
        let mut i: usize = 0;
        assert(self@.pointers =~= before.pointers);
        while i < dead.locals.len()
            invariant
                i <= dead.locals@.len(),
                self.pointers@.len() == before.pointers.len(),
                self.stack@ == scopes.drop_last(),
                self.current_return_ptr == old(self).current_return_ptr,
                self.must_move_before_ret == old(self).must_move_before_ret,
                self.reports == old(self).reports,
                forall|j: int|
                    0 <= j < dead.locals@.len() ==> (#[trigger] dead.locals@[j]).ptr
                        < before.pointers.len(),
                forall|p: int|
                    0 <= p < before.pointers.len() ==> #[trigger] self@.pointers[p] == if exists|
                        j: int,
                    |
                        0 <= j < i && (#[trigger] dead.locals@[j]).ptr == p {
                        dropped(before.pointers[p], *dropped_here)
                    } else {
                        before.pointers[p]
                    },
            decreases dead.locals@.len() - i,
        {
            let ghost prev = self@.pointers;
            let p: usize = dead.locals[i].ptr;
            let stored_here = self.pointers[p].stored_here;
            assert(prev[p as int].stored_here == before.pointers[p as int].stored_here);
            self.pointers[p].value = Lifetime::Dropped { stored_here, dropped_here: *dropped_here };
            proof {
                assert(self@.pointers =~= prev.update(
                    p as int,
                    dropped(prev[p as int], *dropped_here),
                ));
                assert(dropped(prev[p as int], *dropped_here) == dropped(
                    before.pointers[p as int],
                    *dropped_here,
                ));
                assert forall|q: int| 0 <= q < before.pointers.len() implies #[trigger] self@.pointers[q]
                    == if exists|j: int| 0 <= j < i + 1 && (#[trigger] dead.locals@[j]).ptr == q {
                    dropped(before.pointers[q], *dropped_here)
                } else {
                    before.pointers[q]
                } by {
                    if q == p {
                        assert(dead.locals@[i as int].ptr == q);
                    } else {
                        assert(self@.pointers[q] == prev[q]);
                        if exists|j: int| 0 <= j < i + 1 && (#[trigger] dead.locals@[j]).ptr == q {
                            let j = choose|j: int|
                                0 <= j < i + 1 && (#[trigger] dead.locals@[j]).ptr == q;
                            assert(j < i);
                        }
                    }
                }
            }
            i = i + 1;
        }
        proof {
            lemma_bindings_map(dead.locals@);
            let after = before.pop(*dropped_here);
            assert forall|p: int| 0 <= p < before.pointers.len() implies #[trigger] self@.pointers[p]
                == after.pointers[p] by {
                let some = exists|j: int|
                    0 <= j < dead.locals@.len() && (#[trigger] dead.locals@[j]).ptr == p;
                if binds(dead@.locals, p as nat) {
                    let name = choose|name: NameView| #[trigger]
                        dead@.locals.contains_key(name) && dead@.locals[name] == p as nat;
                    let j = choose|j: int|
                        0 <= j < dead.locals@.len() && (#[trigger] dead.locals@[j]).name@ == name;
                    assert(dead.locals@[j].ptr == p);
                    assert(some);
                }
                if some {
                    let j = choose|j: int|
                        0 <= j < dead.locals@.len() && (#[trigger] dead.locals@[j]).ptr == p;
                    assert(dead@.locals.contains_key(dead.locals@[j].name@));
                    assert(binds(dead@.locals, p as nat));
                }
            }
            assert(self@.stack =~= after.stack);
            assert(self@ =~= after);
            lemma_pop_wf(before, *dropped_here);
            assert forall|k: int| 0 <= k < self.stack@.len() implies (
            #[trigger] self.stack@[k]).wf() by {
                assert(self.stack@[k] == scopes[k]);
            }
        }
    }

    /// The innermost scope.
    pub fn cur(&mut self) -> (scope: &mut Scope)
        requires
            old(self)@.stack.len() > 0,
        ensures
            *scope == old(self).stack@.last(),
            final(self).stack@ == old(self).stack@.drop_last().push(*final(scope)),
            final(self).pointers == old(self).pointers,
            final(self).current_return_ptr == old(self).current_return_ptr,
            final(self).must_move_before_ret == old(self).must_move_before_ret,
            final(self).reports == old(self).reports,
    {
        let top: usize = self.stack.len() - 1;
        &mut self.stack[top]
    }

    /// What `name` means in the innermost of the scopes that bind it.
    pub fn find(&self, name: &Name) -> (found: Option<usize>)
        requires
            self.wf(),
        ensures
            opt_number_view(found) == self@.find(name@),
            found matches Some(p) ==> p < self@.pointers.len(),
    {
        let mut depth: usize = self.stack.len();
        proof {
            lemma_find_wf(self@, name@);
            assert(self@.stack.take(depth as int) =~= self@.stack);
        }
        while depth > 0
            invariant
                depth <= self.stack@.len(),
                self.wf(),
                find_in(self@.stack.take(depth as int), name@) == self@.find(name@),
            decreases depth,
        {
            let ghost scopes = self@.stack.take(depth as int);
            assert(scopes.last() == self.stack@[depth - 1]@);
            assert(scopes.drop_last() =~= self@.stack.take(depth - 1));
            proof {
                lemma_find_wf(self@, name@);
            }
            match self.stack[depth - 1].get(name) {
                Some(p) => {
                    return Some(p);
                },
                None => {},
            }
            depth = depth - 1;
        }
        None
    }

    /// Makes storage and binds it to `name` in the innermost scope.
    pub fn local(&mut self, typ: Option<Typed>, name: Name, loc: Location, tags: Tags) -> (ptr:
        usize)
        requires
            old(self).wf(),
            old(self)@.stack.len() > 0,
        ensures
            final(self).wf(),
            final(self)@ == old(self)@.local(opt_typed_view(typ), name@, loc, tags@),
            ptr == old(self)@.pointers.len(),
    {
        let ghost before = self@;
        let ghost scopes = self.stack@;
        let ptr: usize = self.pointers.len();
        self.pointers.push(
            Storage {
                name: name.clone(),
                typ,
                tags,
                stored_here: loc,
                changed_here: None,
                value: Lifetime::Uninitialized,
            },
        );
        assert(scopes[scopes.len() - 1].wf());
        self.cur().insert(name, ptr);
        proof {
            let after = before.local(opt_typed_view(typ), name@, loc, tags@);
            assert(self@.pointers =~= after.pointers);
            assert(self@.stack =~= after.stack);
            assert(self@ =~= after);
            lemma_local_wf(before, opt_typed_view(typ), name@, loc, tags@);
            assert forall|k: int| 0 <= k < self.stack@.len() implies (
            #[trigger] self.stack@[k]).wf() by {
                if k < scopes.len() - 1 {
                    assert(self.stack@[k] == scopes[k]);
                }
            }
        }
        ptr
    }

    /// Reads what `name` means.
    pub fn check_name(&mut self, name: &Name, used_here: &Location, access: Access) -> (value:
        Lifetime)
        requires
            old(self).wf(),
        ensures
            final(self).wf(),
            (final(self)@, value@) == old(self)@.check_name(name@, *used_here, access),
    {
        let local = match self.find(name) {
            None => {
                self.report(
                    ReportOf::UndefinedName { name: name.clone(), used_here: *used_here },
                );
                return Lifetime::Static;
            },
            Some(p) => p,
        };
        self.read(local, used_here, access)
    }

    /// Reads the storage location `pointer`: its address, or the value in it.
    pub fn read(&mut self, pointer: usize, used_here: &Location, access: Access) -> (value:
        Lifetime)
        requires
            old(self).wf(),
            pointer < old(self)@.pointers.len(),
        ensures
            final(self).wf(),
            (final(self)@, value@) == old(self)@.read(pointer as nat, *used_here, access),
    {
        let storage = &self.pointers[pointer];
        let name = storage.name.clone();
        match &storage.value {
            Lifetime::Dropped { stored_here, dropped_here } => {
                let r = ReportOf::DroppedRead {
                    name,
                    used_here: *used_here,
                    stored_here: *stored_here,
                    dropped_here: *dropped_here,
                };
                self.report(r);
                return Lifetime::Uninitialized;
            },
            _ => {},
        }
        if access == Access::Storage {
            return Lifetime::Pointer(pointer);
        }
        if storage.tags.contains_key("unsafe") {
            let r = ReportOf::UnsafeRead {
                name,
                used_here: *used_here,
                stored_here: storage.stored_here,
            };
            self.report(r);
            return Lifetime::Uninitialized;
        }
        match &storage.value {
            Lifetime::Uninitialized => {
                let r = ReportOf::UninitializedRead { name, used_here: *used_here };
                self.report(r);
                Lifetime::Uninitialized
            },
            Lifetime::Moved { moved_here } => {
                let r = ReportOf::MovedRead {
                    name,
                    used_here: *used_here,
                    moved_here: *moved_here,
                };
                self.report(r);
                Lifetime::Uninitialized
            },
            value => value.clone(),
        }
    }

    /// Stores a value. The state stays well formed if the value points to storage that exists.
    pub fn write(&mut self, pointer: usize, val: Lifetime, used_here: &Location) -> (stored:
        Lifetime)
        requires
            pointer < old(self)@.pointers.len(),
        ensures
            old(self).wf() && points_below(val@, old(self)@.pointers.len()) ==> final(self).wf(),
            final(self)@ == old(self)@.write(pointer as nat, val@, *used_here),
            stored@ == val@,
    {
        let ghost before = self@;
        self.pointers[pointer].value = val.clone();
        self.pointers[pointer].changed_here = Some(*used_here);
        proof {
            let after = before.write(pointer as nat, val@, *used_here);
            assert(self@.pointers =~= after.pointers);
            assert(self@ =~= after);
            if old(self).wf() && points_below(val@, before.pointers.len()) {
                lemma_update_wf(before, pointer as nat, after.pointers[pointer as int]);
            }
        }
        val
    }

    /// Puts other tags on a storage location.
    pub fn set_tags(&mut self, pointer: usize, tags: Tags)
        requires
            old(self).wf(),
            pointer < old(self)@.pointers.len(),
        ensures
            final(self).wf(),
            final(self)@ == old(self)@.set_tags(pointer as nat, tags@),
    {
        let ghost before = self@;
        self.pointers[pointer].tags = tags;
        proof {
            let after = before.set_tags(pointer as nat, tags@);
            assert(self@.pointers =~= after.pointers);
            assert(self@ =~= after);
            assert(points_below(before.pointers[pointer as int].value, before.pointers.len()));
            lemma_update_wf(before, pointer as nat, after.pointers[pointer as int]);
        }
    }

    /// Gives away what is in a storage location.
    pub fn give_away(&mut self, pointer: usize, moved_here: Location)
        requires
            old(self).wf(),
            pointer < old(self)@.pointers.len(),
        ensures
            final(self).wf(),
            final(self)@ == old(self)@.give_away(pointer as nat, moved_here),
    {
        let ghost before = self@;
        self.pointers[pointer].value = Lifetime::Moved { moved_here };
        proof {
            let after = before.give_away(pointer as nat, moved_here);
            assert(self@.pointers =~= after.pointers);
            assert(self@ =~= after);
            lemma_update_wf(before, pointer as nat, after.pointers[pointer as int]);
        }
    }
}

/// How each lifetime is shown: a pointer with the number of the storage that it points to.
pub proof fn law_lifetime_texts(lf: LifetimeView)
    ensures
        lf is Uninitialized ==> lifetime_text(lf) == "uninitialized"@,
        lf is Static ==> lifetime_text(lf) == "static"@,
        lf is Function ==> lifetime_text(lf) == "function"@,
        lf is Moved ==> lifetime_text(lf) == "moved"@,
        lf is Dropped ==> lifetime_text(lf) == "dropped"@,
        lf matches LifetimeView::Pointer(to) ==> lifetime_text(lf) == "ptr->"@ + decimal(to),
{
}

} // verus!
