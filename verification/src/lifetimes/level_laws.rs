//! What passing storage to a pointer of a parameter demands of it, and does to it.

use vstd::prelude::*;
use crate::ast::{PointerView, TypedView};
use crate::lifetimes::rules::{check_level, check_levels, cleaned, tainted, undeclared};
use crate::lifetimes::state::{LifetimeView, StackView};
use crate::location::Location;
use crate::report::ReportOf;
use crate::tags::{
    TagView, TagsView, has_key, has_value, inserted, law_inserted_is_there, lemma_filter_first,
    lemma_filter_none, lemma_filter_twice, lemma_filtered_is_there, lemma_values, values,
};
use crate::text::Text;

verus! {

/// A parameter that is no pointer demands nothing. Otherwise its pointers are taken from right to
/// left, and each has to be met by a pointer.
pub proof fn law_levels(s: StackView, typed: TypedView, site: Location, at: nat, depth: nat)
    ensures
        ({
            let storage = s.pointers[at as int];
            let t = check_levels(s, typed, site, at, depth);
            let more = depth < typed.ptr.len();
            &&& !more ==> t == s
            &&& more ==> match storage.value {
                LifetimeView::Pointer(to) => {
                    let (u, deeper) = check_level(s, typed.ptr.reverse()[depth as int], site, to);
                    t == if deeper {
                        check_levels(u, typed, site, to, depth + 1)
                    } else {
                        u
                    }
                },
                LifetimeView::Uninitialized => t == s.report(
                    ReportOf::UninitializedArg { callsite: site, stored_here: storage.stored_here },
                ),
                LifetimeView::Dropped { stored_here, dropped_here } => t == s.report(
                    ReportOf::DroppedArg {
                        name: storage.name,
                        callsite: site,
                        stored_here,
                        dropped_here,
                    },
                ),
                LifetimeView::Moved { moved_here } => t == s.report(
                    ReportOf::MovedArg { name: storage.name, callsite: site, moved_here },
                ),
                LifetimeView::Function { .. } => t == s.report(
                    ReportOf::FunctionArg { callsite: site },
                ),
                LifetimeView::Static => t == s.report(
                    ReportOf::DepthMismatch {
                        callsite: site,
                        changed_here: storage.changed_here,
                        expected_here: typed.loc,
                        depth,
                    },
                ),
            }
        }),
{
}

/// Storage carries a taint that a pointer does not take off.
pub open spec fn stays_tainted(site: TagsView, ptr: TagsView) -> bool {
    exists|v: Text| #[trigger] has_value(site, "tainted"@, v) && !has_value(ptr, "untaint"@, v)
}

/// A pointer sets a taint that storage was not declared to take.
pub open spec fn taints_more(site: TagsView, ptr: TagsView) -> bool {
    exists|v: Text| #[trigger] has_value(ptr, "taint"@, v) && !has_value(site, "taint"@, v)
}

/// What storage has to be like for a pointer of a parameter, in the order in which it is asked:
/// mutable if the pointer is, free of taints that the pointer does not take off, not borrowed if
/// it would get a taint that it was not declared to take, neither on the stack nor borrowed if it
/// is given away, and not unsafe if the pointer is not. The first of these that does not hold is
/// an error; where all hold nothing is reported.
pub proof fn law_demands(s: StackView, ptr: PointerView, site: Location, to: nat)
    ensures
        ({
            let (t, deeper) = check_level(s, ptr, site, to);
            let at = s.pointers[to as int];
            let constant = has_key(ptr.tags, "mutable"@) && !has_key(at.tags, "mutable"@);
            let dirty = exists|v: Text| #[trigger]
                has_value(at.tags, "tainted"@, v) && !has_value(ptr.tags, "untaint"@, v);
            let spoils = has_key(at.tags, "borrowed"@) && exists|v: Text| #[trigger]
                has_value(ptr.tags, "taint"@, v) && !has_value(at.tags, "taint"@, v);
            let moves = has_key(ptr.tags, "move"@);
            let accepted = !constant && !dirty && !spoils;
            &&& constant ==> t.reports == s.reports.push(
                ReportOf::ConstArg { callsite: site, stored_here: at.stored_here },
            ) && !deeper
            &&& !constant && dirty ==> t.reports == s.reports.push(
                ReportOf::TaintedArg { name: at.name, callsite: site },
            ) && !deeper
            &&& !constant && !dirty && spoils ==> !deeper && exists|k: int|
                {
                    &&& 0 <= k < ptr.tags.len()
                    &&& (#[trigger] ptr.tags[k]).key == "taint"@
                    &&& !has_value(at.tags, "taint"@, ptr.tags[k].value)
                    &&& forall|j: int|
                        0 <= j < k ==> (#[trigger] ptr.tags[j]).key != "taint"@ || has_value(
                            at.tags,
                            "taint"@,
                            ptr.tags[j].value,
                        )
                    &&& t.reports == s.reports.push(
                        ReportOf::TaintsBorrowed {
                            taint: ptr.tags[k].value,
                            callsite: site,
                            stored_here: at.stored_here,
                        },
                    )
                }
            &&& accepted && moves && has_key(at.tags, "stack"@) ==> t.reports == s.reports.push(
                ReportOf::MovesStack { name: at.name, callsite: site },
            ) && !deeper
            &&& accepted && moves && !has_key(at.tags, "stack"@) && has_key(at.tags, "borrowed"@)
                ==> !deeper && exists|k: int|
                {
                    &&& 0 <= k < ptr.tags.len()
                    &&& (#[trigger] ptr.tags[k]).key == "move"@
                    &&& forall|j: int| 0 <= j < k ==> (#[trigger] ptr.tags[j]).key != "move"@
                    &&& t.reports == s.reports.push(
                        ReportOf::MovesBorrowed {
                            name: at.name,
                            callsite: site,
                            required_here: ptr.tags[k].loc,
                            stored_here: at.stored_here,
                        },
                    )
                }
            &&& accepted && moves && !has_key(at.tags, "stack"@) && !has_key(at.tags, "borrowed"@)
                ==> t.reports == s.reports && !deeper
            &&& accepted && !moves && has_key(ptr.tags, "unsafe"@) ==> t.reports == s.reports
                && !deeper
            &&& accepted && !moves && !has_key(ptr.tags, "unsafe"@) && has_key(at.tags, "unsafe"@)
                ==> t.reports == s.reports.push(
                ReportOf::UnsafeArg { callsite: site, stored_here: at.stored_here },
            ) && !deeper
            &&& accepted && !moves && !has_key(ptr.tags, "unsafe"@) && !has_key(
                at.tags,
                "unsafe"@,
            ) ==> t.reports == s.reports && deeper
        }),
{
    lemma_keys(s, ptr, site, to);
    lemma_first_missing(s.pointers[to as int].tags, ptr);
    if has_key(ptr.tags, "move"@) {
        let i = choose|i: int| 0 <= i < ptr.tags.len() && (#[trigger] ptr.tags[i]).key == "move"@;
        let p = |t: TagView| t.key == "move"@;
        let k = lemma_first_of(ptr.tags, p, i);
        lemma_filter_first(ptr.tags, p, k);
        assert(values(ptr.tags, "move"@)[0] == ptr.tags[k]);
    }
}

/// Passing storage changes nothing but its tags and, where it is given away, its value. Of its
/// tags only the taints change: those that the pointer takes off go, and if the storage is
/// accepted those that the pointer sets come, with the place of the call.
pub proof fn law_passing(s: StackView, ptr: PointerView, site: Location, to: nat, k: Text, v: Text)
    requires
        to < s.pointers.len(),
    ensures
        ({
            let t = check_level(s, ptr, site, to).0;
            let was = s.pointers[to as int];
            let now = t.pointers[to as int];
            let constant = has_key(ptr.tags, "mutable"@) && !has_key(was.tags, "mutable"@);
            let refused = stays_tainted(was.tags, ptr.tags) || (has_key(was.tags, "borrowed"@)
                && taints_more(was.tags, ptr.tags));
            let kept = has_key(was.tags, "stack"@) || has_key(was.tags, "borrowed"@);
            &&& t.stack == s.stack
            &&& t.must_move_before_ret == s.must_move_before_ret
            &&& t.current_return_ptr == s.current_return_ptr
            &&& t.pointers.len() == s.pointers.len()
            &&& forall|p: int|
                0 <= p < s.pointers.len() && p != to ==> #[trigger] t.pointers[p] == s.pointers[p]
            &&& now.name == was.name
            &&& now.typ == was.typ
            &&& now.stored_here == was.stored_here
            &&& now.changed_here == was.changed_here
            &&& now.value == if !constant && !refused && has_key(ptr.tags, "move"@) && !kept {
                LifetimeView::Moved { moved_here: site }
            } else {
                was.value
            }
            &&& k != "tainted"@ ==> has_value(now.tags, k, v) == has_value(was.tags, k, v)
            &&& k != "tainted"@ ==> has_key(now.tags, k) == has_key(was.tags, k)
            &&& constant ==> now.tags == was.tags
            &&& !constant && refused ==> (has_value(now.tags, "tainted"@, v) <==> has_value(
                was.tags,
                "tainted"@,
                v,
            ) && !has_value(ptr.tags, "untaint"@, v))
            &&& !constant && !refused ==> (has_value(now.tags, "tainted"@, v) <==> has_value(
                ptr.tags,
                "taint"@,
                v,
            ))
            &&& !constant && !refused ==> forall|i: int|
                0 <= i < now.tags.len() && (#[trigger] now.tags[i]).key == "tainted"@
                    ==> now.tags[i].loc == site
        }),
{
    let tags = s.pointers[to as int].tags;
    let clean = cleaned(tags, ptr.tags);
    let taints = values(ptr.tags, "taint"@);
    lemma_keys(s, ptr, site, to);
    lemma_first_missing(tags, ptr);
    lemma_cleaned(tags, ptr.tags, k, v);
    lemma_cleaned(tags, ptr.tags, "tainted"@, v);
    lemma_tainted(clean, taints, site, 0, k, v);
    lemma_tainted(clean, taints, site, 0, "tainted"@, v);
    lemma_values(ptr.tags, "taint"@, v);
    if !has_key(clean, "tainted"@) {
        lemma_tainted_here(clean, taints, site, 0);
    }
}

/// A taint is remembered with the place that set it.
proof fn lemma_tainted_here(tags: TagsView, taints: TagsView, site: Location, i: nat)
    requires
        forall|j: int|
            0 <= j < tags.len() && (#[trigger] tags[j]).key == "tainted"@ ==> tags[j].loc == site,
    ensures
        ({
            let out = tainted(tags, taints, site, i);
            forall|j: int|
                0 <= j < out.len() && (#[trigger] out[j]).key == "tainted"@ ==> out[j].loc == site
        }),
    decreases taints.len() - i,
{
    if i < taints.len() {
        let more = inserted(tags, "tainted"@, taints[i as int].value, site);
        assert forall|j: int|
            0 <= j < more.len() && (#[trigger] more[j]).key == "tainted"@ implies more[j].loc
            == site by {
            if j < tags.len() {
                assert(tags[j].key == more[j].key);
            }
        }
        lemma_tainted_here(more, taints, site, i + 1);
        assert(tainted(tags, taints, site, i) == tainted(more, taints, site, i + 1));
    }
}

/// Which keys storage has before and after it is cleaned and tainted.
proof fn lemma_keys(s: StackView, ptr: PointerView, site: Location, to: nat)
    ensures
        ({
            let tags = s.pointers[to as int].tags;
            let clean = cleaned(tags, ptr.tags);
            let marked = tainted(clean, values(ptr.tags, "taint"@), site, 0);
            &&& has_key(clean, "borrowed"@) == has_key(tags, "borrowed"@)
            &&& has_key(marked, "borrowed"@) == has_key(tags, "borrowed"@)
            &&& has_key(marked, "stack"@) == has_key(tags, "stack"@)
            &&& has_key(marked, "unsafe"@) == has_key(tags, "unsafe"@)
            &&& has_key(clean, "tainted"@) == stays_tainted(tags, ptr.tags)
        }),
{
    let tags = s.pointers[to as int].tags;
    let clean = cleaned(tags, ptr.tags);
    let taints = values(ptr.tags, "taint"@);
    reveal_strlit("tainted");
    reveal_strlit("stack");
    reveal_strlit("borrowed");
    reveal_strlit("unsafe");
    assert("tainted"@.len() == 7 && "stack"@.len() == 5 && "borrowed"@.len() == 8 && "unsafe"@.len()
        == 6);
    let none = Seq::<char>::empty();
    lemma_cleaned(tags, ptr.tags, "borrowed"@, none);
    lemma_cleaned(tags, ptr.tags, "stack"@, none);
    lemma_cleaned(tags, ptr.tags, "unsafe"@, none);
    lemma_tainted(clean, taints, site, 0, "borrowed"@, none);
    lemma_tainted(clean, taints, site, 0, "stack"@, none);
    lemma_tainted(clean, taints, site, 0, "unsafe"@, none);
    if has_key(clean, "tainted"@) {
        let i = choose|i: int| 0 <= i < clean.len() && (#[trigger] clean[i]).key == "tainted"@;
        let v = clean[i].value;
        assert(has_value(clean, "tainted"@, v));
        lemma_cleaned(tags, ptr.tags, "tainted"@, v);
    }
    if stays_tainted(tags, ptr.tags) {
        let v = choose|v: Text| #[trigger]
            has_value(tags, "tainted"@, v) && !has_value(ptr.tags, "untaint"@, v);
        lemma_cleaned(tags, ptr.tags, "tainted"@, v);
        let i = choose|i: int|
            0 <= i < clean.len() && (#[trigger] clean[i]).key == "tainted"@ && clean[i].value == v;
        assert(clean[i].key == "tainted"@);
    }
}

/// Cleaning takes taints off that are known, and nothing else.
proof fn lemma_cleaned(tags: TagsView, known: TagsView, k: Text, v: Text)
    ensures
        has_value(cleaned(tags, known), k, v) <==> has_value(tags, k, v) && !(k == "tainted"@
            && has_value(known, "untaint"@, v)),
        k != "tainted"@ ==> has_key(cleaned(tags, known), k) == has_key(tags, k),
{
    let stays = |t: TagView| !(t.key == "tainted"@ && has_value(known, "untaint"@, t.value));
    lemma_filtered_is_there(tags, stays, k, v);
}

/// Setting taints sets those, and nothing else.
proof fn lemma_tainted(
    tags: TagsView,
    taints: TagsView,
    site: Location,
    i: nat,
    k: Text,
    v: Text,
)
    ensures
        has_value(tainted(tags, taints, site, i), k, v) <==> has_value(tags, k, v) || (k
            == "tainted"@ && exists|j: int|
            i <= j < taints.len() && (#[trigger] taints[j]).value == v),
        k != "tainted"@ ==> has_key(tainted(tags, taints, site, i), k) == has_key(tags, k),
    decreases taints.len() - i,
{
    if i < taints.len() {
        let value = taints[i as int].value;
        law_inserted_is_there(tags, "tainted"@, value, site, k, v);
        lemma_tainted(inserted(tags, "tainted"@, value, site), taints, site, i + 1, k, v);
    }
}

/// The first taint that storage was not declared to take.
proof fn lemma_first_missing(tags: TagsView, ptr: PointerView)
    ensures
        ({
            let clean = cleaned(tags, ptr.tags);
            let missing = undeclared(values(ptr.tags, "taint"@), clean);
            &&& (missing.len() > 0) == taints_more(tags, ptr.tags)
            &&& missing.len() > 0 ==> exists|k: int|
                {
                    &&& 0 <= k < ptr.tags.len()
                    &&& (#[trigger] ptr.tags[k]).key == "taint"@
                    &&& !has_value(tags, "taint"@, ptr.tags[k].value)
                    &&& forall|j: int|
                        0 <= j < k ==> (#[trigger] ptr.tags[j]).key != "taint"@ || has_value(
                            tags,
                            "taint"@,
                            ptr.tags[j].value,
                        )
                    &&& missing[0] == ptr.tags[k]
                }
        }),
{
    reveal_strlit("tainted");
    reveal_strlit("taint");
    assert("tainted"@.len() == 7 && "taint"@.len() == 5);
    let clean = cleaned(tags, ptr.tags);
    let is_taint = |t: TagView| t.key == "taint"@;
    let lacks = |t: TagView| !has_value(clean, "taint"@, t.value);
    let both = |t: TagView| t.key == "taint"@ && !has_value(clean, "taint"@, t.value);
    lemma_filter_twice(ptr.tags, is_taint, lacks, both);
    let missing = undeclared(values(ptr.tags, "taint"@), clean);
    assert(missing == ptr.tags.filter(both));
    assert forall|v: Text| #[trigger] has_value(clean, "taint"@, v) == has_value(
        tags,
        "taint"@,
        v,
    ) by {
        lemma_cleaned(tags, ptr.tags, "taint"@, v);
    }
    if taints_more(tags, ptr.tags) {
        let v = choose|v: Text| #[trigger]
            has_value(ptr.tags, "taint"@, v) && !has_value(tags, "taint"@, v);
        let i = choose|i: int|
            0 <= i < ptr.tags.len() && (#[trigger] ptr.tags[i]).key == "taint"@ && ptr.tags[i].value
                == v;
        assert(has_value(clean, "taint"@, v) == has_value(tags, "taint"@, v));
        assert(both(ptr.tags[i]));
        let k = lemma_first_of(ptr.tags, both, i);
        lemma_filter_first(ptr.tags, both, k);
        let w = ptr.tags[k].value;
        assert(has_value(clean, "taint"@, w) == has_value(tags, "taint"@, w));
        assert forall|j: int| 0 <= j < k implies (#[trigger] ptr.tags[j]).key != "taint"@
            || has_value(tags, "taint"@, ptr.tags[j].value) by {
            assert(!both(ptr.tags[j]));
            let x = ptr.tags[j].value;
            assert(has_value(clean, "taint"@, x) == has_value(tags, "taint"@, x));
        }
    } else {
        assert forall|j: int| 0 <= j < ptr.tags.len() implies !both(#[trigger] ptr.tags[j]) by {
            let x = ptr.tags[j].value;
            assert(has_value(clean, "taint"@, x) == has_value(tags, "taint"@, x));
            if ptr.tags[j].key == "taint"@ {
                assert(has_value(ptr.tags, "taint"@, x));
            }
        }
        lemma_filter_none(ptr.tags, both);
    }
}

/// The first tag of a kind.
proof fn lemma_first_of(tags: TagsView, p: spec_fn(TagView) -> bool, i: int) -> (k: int)
    requires
        0 <= i < tags.len(),
        p(tags[i]),
    ensures
        0 <= k <= i,
        p(tags[k]),
        forall|j: int| 0 <= j < k ==> !p(#[trigger] tags[j]),
    decreases i,
{
    if exists|j: int| 0 <= j < i && p(#[trigger] tags[j]) {
        let j = choose|j: int| 0 <= j < i && p(#[trigger] tags[j]);
        lemma_first_of(tags, p, j)
    } else {
        i
    }
}

} // verus!
