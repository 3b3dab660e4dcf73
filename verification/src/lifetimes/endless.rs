//! When a call cannot give back what its function returns.

use vstd::prelude::*;
use vstd::set_lib::{lemma_int_range, lemma_len_subset, set_int_range};
use crate::lifetimes::rules::{Ice, copy_returned, return_name, returned};
use crate::lifetimes::state::{LifetimeView, StackView, points_below};
use crate::location::Location;
use crate::name::NameView;

verus! {

/// What is reached from a value by following `n` pointers, or as many as there are.
pub open spec fn followed(s: StackView, value: LifetimeView, n: nat) -> LifetimeView
    decreases n,
{
    if n == 0 {
        value
    } else {
        match followed(s, value, (n - 1) as nat) {
            LifetimeView::Pointer(p) => s.pointers[p as int].value,
            other => other,
        }
    }
}

/// Whether there is always one more pointer to follow.
pub open spec fn endless(s: StackView, value: LifetimeView) -> bool {
    forall|n: nat| #[trigger] followed(s, value, n) is Pointer
}

/// To follow one pointer more is to go to what it points to, and then on from there. What is no
/// pointer leads nowhere.
pub proof fn law_followed(s: StackView, value: LifetimeView, n: nat)
    ensures
        followed(s, value, 0) == value,
        value matches LifetimeView::Pointer(p) ==> followed(s, value, n + 1) == followed(
            s,
            s.pointers[p as int].value,
            n,
        ),
        !(value is Pointer) ==> followed(s, value, n) == value,
    decreases n,
{
    if n > 0 {
        law_followed(s, value, (n - 1) as nat);
    } else {
        assert(followed(s, value, 0) == value);
    }
}

/// A call breaks off exactly if the pointers that its function returns have no end, or if it
/// returns a pointer where no scope is open to hold the storage.
pub proof fn law_endless_return(
    s: StackView,
    ret: Option<Box<LifetimeView>>,
    callee: NameView,
    loc: Location,
)
    requires
        s.wf(),
        ret matches Some(value) ==> points_below(*value, s.pointers.len()),
    ensures
        returned(s, ret, callee, loc) is Err <==> (ret matches Some(value) && if s.stack.len()
            == 0 {
            *value is Pointer
        } else {
            endless(s, *value)
        }),
        returned(s, ret, callee, loc) matches Err(stop) ==> stop.ice == if s.stack.len() == 0 {
            Ice::NoScope
        } else {
            Ice::EndlessReturn
        },
        returned(s, ret, callee, loc) matches Err(stop) ==> stop.reports == s.reports,
{
    match ret {
        Some(ret) => {
            let value = *ret;
            let room = s.pointers.len();
            if s.stack.len() > 0 {
                lemma_copy_returned_breaks_off(s, value, s, 0, value, callee, loc, room);
                if !endless(s, value) {
                    let n = choose|n: nat| !(#[trigger] followed(s, value, n) is Pointer);
                    lemma_ends_early(s, value, n);
                }
            }
        },
        None => {},
    }
}

/// Following pointers leads to values that point to storage that exists.
pub proof fn lemma_followed_points(s: StackView, value: LifetimeView, n: nat)
    requires
        s.wf(),
        points_below(value, s.pointers.len()),
    ensures
        points_below(followed(s, value, n), s.pointers.len()),
    decreases n,
{
    if n > 0 {
        lemma_followed_points(s, value, (n - 1) as nat);
        match followed(s, value, (n - 1) as nat) {
            LifetimeView::Pointer(p) => {
                assert(points_below(s.pointers[p as int].value, s.pointers.len()));
            },
            _ => {},
        }
    }
}

/// The storage that a call makes is not among what its function returns: `t` is `s` with more
/// storage, and the pointer of number `k` comes next.
proof fn lemma_copy_returned_breaks_off(
    s: StackView,
    value: LifetimeView,
    t: StackView,
    k: nat,
    site: LifetimeView,
    callee: NameView,
    loc: Location,
    fuel: nat,
)
    requires
        s.wf(),
        points_below(value, s.pointers.len()),
        t.stack.len() > 0,
        s.pointers.len() <= t.pointers.len(),
        forall|p: int|
            0 <= p < s.pointers.len() ==> #[trigger] t.pointers[p] == s.pointers[p],
    ensures
        copy_returned(t, followed(s, value, k), site, callee, loc, fuel) is Err <==> forall|n: nat|
            k <= n <= k + fuel ==> #[trigger] followed(s, value, n) is Pointer,
        copy_returned(t, followed(s, value, k), site, callee, loc, fuel) matches Err(stop)
            ==> stop.ice == Ice::EndlessReturn && stop.reports == t.reports,
    decreases fuel,
{
    lemma_followed_points(s, value, k);
    let next = followed(s, value, k);
    match next {
        LifetimeView::Pointer(p) => {
            if fuel > 0 {
                let made = t.pointers.len();
                let u = t.local(
                    None,
                    return_name(callee, loc),
                    loc,
                    t.pointers[p as int].tags,
                ).write(made, site, loc);
                assert(followed(s, value, k + 1) == t.pointers[p as int].value);
                lemma_copy_returned_breaks_off(
                    s,
                    value,
                    u,
                    k + 1,
                    LifetimeView::Pointer(made),
                    callee,
                    loc,
                    (fuel - 1) as nat,
                );
            } else {
                assert forall|n: nat| k <= n <= k + fuel implies #[trigger] followed(
                    s,
                    value,
                    n,
                ) is Pointer by {
                    assert(n == k);
                }
            }
        },
        _ => {},
    }
}

/// Two steps that reach the same pointer go on alike.
proof fn lemma_followed_alike(s: StackView, value: LifetimeView, i: nat, j: nat, more: nat)
    requires
        followed(s, value, i) == followed(s, value, j),
    ensures
        followed(s, value, i + more) == followed(s, value, j + more),
    decreases more,
{
    if more > 0 {
        lemma_followed_alike(s, value, i, j, (more - 1) as nat);
    }
}

/// Pointers that have an end have it after as many steps as there is storage.
pub proof fn lemma_ends_early(s: StackView, value: LifetimeView, n: nat)
    requires
        s.wf(),
        points_below(value, s.pointers.len()),
        !(followed(s, value, n) is Pointer),
    ensures
        exists|k: nat| k <= s.pointers.len() && !(#[trigger] followed(s, value, k) is Pointer),
    decreases n,
{
    if n > s.pointers.len() {
        if exists|m: nat| m < n && !(#[trigger] followed(s, value, m) is Pointer) {
            let m = choose|m: nat| m < n && !(#[trigger] followed(s, value, m) is Pointer);
            lemma_ends_early(s, value, m);
        } else {
            lemma_visits_twice(s, value, n);
            let (i, j) = choose|i: nat, j: nat|
                i < j < n && #[trigger] followed(s, value, i) == #[trigger] followed(s, value, j);
            lemma_followed_alike(s, value, i, j, (n - j) as nat);
            assert(followed(s, value, (i + (n - j)) as nat) is Pointer);
        }
    }
}

/// Whoever follows more pointers than there is storage comes twice to one of them.
proof fn lemma_visits_twice(s: StackView, value: LifetimeView, n: nat)
    requires
        s.wf(),
        points_below(value, s.pointers.len()),
        n > s.pointers.len(),
        forall|m: nat| m < n ==> #[trigger] followed(s, value, m) is Pointer,
    ensures
        exists|i: nat, j: nat|
            i < j < n && #[trigger] followed(s, value, i) == #[trigger] followed(s, value, j),
{
    let visited = Seq::new(n, |i: int| followed(s, value, i as nat)->Pointer_0 as int);
    let all = set_int_range(0, s.pointers.len() as int);
    lemma_int_range(0, s.pointers.len() as int);
    assert forall|p: int| visited.to_set().contains(p) implies all.contains(p) by {
        let i = choose|i: int| 0 <= i < visited.len() && visited[i] == p;
        lemma_followed_points(s, value, i as nat);
        assert(followed(s, value, i as nat) is Pointer);
    }
    lemma_len_subset(visited.to_set(), all);
    if visited.no_duplicates() {
        visited.unique_seq_to_set();
        assert(false);
    }
    let (i, j) = choose|i: int, j: int|
        0 <= i < visited.len() && 0 <= j < visited.len() && i != j && visited[i] == visited[j];
    assert(followed(s, value, i as nat) is Pointer);
    assert(followed(s, value, j as nat) is Pointer);
    assert(followed(s, value, i as nat) == followed(s, value, j as nat));
    if i < j {
        assert((i as nat) < (j as nat) < n);
    } else {
        assert((j as nat) < (i as nat) < n);
    }
}

} // verus!
