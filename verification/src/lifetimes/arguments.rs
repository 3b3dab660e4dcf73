//! Passing an argument: what a parameter's pointers ask of the storage behind the argument, and
//! what passing it does to that storage.

use vstd::prelude::*;
use crate::ast::{Pointer, Typed};
use crate::lifetimes::rules;
use crate::lifetimes::frame::lemma_check_level_keeps;
use crate::lifetimes::stack::{Lifetime, Stack};
use crate::lifetimes::state::points_below;
use crate::location::Location;
use crate::report::{Report, ReportOf};
use crate::tags::{
    Tag, TagView, Tags, TagsView, has_value, lemma_filter_first, lemma_filter_none,
    lemma_filter_same, lemma_filter_twice, lemma_values, tag_views, values,
};

verus! {

/// The tags of storage after a parameter cleaned it of the taints that it knows.
fn clean_tags(tags: &Tags, known: &Tags) -> (clean: Tags)
    ensures
        clean@ == rules::cleaned(tags@, known@),
{
    let mut clean = tags.clone();
    let ghost stays = |t: TagView| !(t.key == "tainted"@ && has_value(known@, "untaint"@, t.value));
    match known.get("untaint") {
        None => {
            proof {
                let all = |t: TagView| true;
                assert forall|t: TagView| #[trigger] stays(t) == all(t) by {
                    assert(!has_value(known@, "untaint"@, t.value));
                }
                lemma_filter_same(tags@, stays, all);
                lemma_filter_all(tags@, all);
            }
            clean
        },
        Some(vs) => {
            let ghost vsv = tag_views(vs@);
            let ghost upto = |k: int|
                |t: TagView|
                    !(t.key == "tainted"@ && exists|j: int|
                        0 <= j < k && (#[trigger] vsv[j]).value == t.value);
            let mut i: usize = 0;
            proof {
                lemma_filter_all(tags@, upto(0));
            }
            while i < vs.len()
                invariant
                    i <= vs@.len(),
                    vsv == tag_views(vs@),
                    upto == (|k: int|
                        |t: TagView|
                            !(t.key == "tainted"@ && exists|j: int|
                                0 <= j < k && (#[trigger] vsv[j]).value == t.value)),
                    clean@ == tags@.filter(upto(i as int)),
                decreases vs@.len() - i,
            {
                let ghost before = clean@;
                clean.remove("tainted", Some(vs[i].value.as_str()));
                proof {
                    let v = vsv[i as int].value;
                    let q = |t: TagView| !(t.key == "tainted"@ && t.value == v);
                    let next = upto(i + 1);
                    assert forall|t: TagView| #[trigger] next(t) == (upto(i as int)(t) && q(t)) by {
                        if t.value == v {
                            assert(vsv[i as int].value == t.value);
                        }
                        if exists|j: int| 0 <= j < i + 1 && (#[trigger] vsv[j]).value == t.value {
                            let j = choose|j: int|
                                0 <= j < i + 1 && (#[trigger] vsv[j]).value == t.value;
                            assert(j < i || t.value == v);
                        }
                    }
                    lemma_filter_twice(tags@, upto(i as int), q, next);
                }
                i = i + 1;
            }
            proof {
                let last = upto(vs@.len() as int);
                assert forall|t: TagView| #[trigger] last(t) == stays(t) by {
                    lemma_values(known@, "untaint"@, t.value);
                }
                lemma_filter_same(tags@, last, stays);
            }
            clean
        },
    }
}

proof fn lemma_filter_all(s: TagsView, p: spec_fn(TagView) -> bool)
    requires
        forall|t: TagView| #[trigger] p(t),
    ensures
        s.filter(p) == s,
    decreases s.len(),
{
    reveal(Seq::filter);
    if s.len() > 0 {
        lemma_filter_all(s.drop_last(), p);
        assert(p(s.last()));
        assert(s.drop_last().push(s.last()) =~= s);
    }
}

/// The first of the taints that the callsite did not declare.
fn first_undeclared(taints: &Vec<Tag>, declared: &Tags) -> (missing: Option<String>)
    ensures
        match missing {
            Some(taint) => {
                let all = rules::undeclared(tag_views(taints@), declared@);
                all.len() > 0 && all[0].value == taint@
            },
            None => rules::undeclared(tag_views(taints@), declared@).len() == 0,
        },
{
    let ghost p = |t: TagView| !has_value(declared@, "taint"@, t.value);
    let ghost views = tag_views(taints@);
    let mut i: usize = 0;
    while i < taints.len()
        invariant
            i <= taints@.len(),
            views == tag_views(taints@),
            p == (|t: TagView| !has_value(declared@, "taint"@, t.value)),
            forall|j: int| 0 <= j < i ==> !p(#[trigger] views[j]),
        decreases taints@.len() - i,
    {
        if !declared.contains_value("taint", taints[i].value.as_str()) {
            proof {
                lemma_filter_first(views, p, i as int);
            }
            return Some(taints[i].value.clone());
        }
        assert(!p(views[i as int]));
        i = i + 1;
    }
    proof {
        lemma_filter_none(views, p);
    }
    None
}

/// Sets the taints on storage that was passed at `callsite`.
fn taint_tags(tags: &mut Tags, taints: &Vec<Tag>, callsite: Location)
    ensures
        final(tags)@ == rules::tainted(old(tags)@, tag_views(taints@), callsite, 0),
{
    let mut i: usize = 0;
    while i < taints.len()
        invariant
            i <= taints@.len(),
            rules::tainted(tags@, tag_views(taints@), callsite, i as nat) == rules::tainted(
                old(tags)@,
                tag_views(taints@),
                callsite,
                0,
            ),
        decreases taints@.len() - i,
    {
        tags.insert("tainted".to_owned(), taints[i].value.clone(), callsite);
        i = i + 1;
    }
}

impl Stack {
    /// Where the value at `at`, which is passed as pointer, points to, or why it cannot be
    /// passed.
    fn pointed_to(&self, at: usize, callsite: Location, expected_here: Location, depth: usize) -> (
        to: Result<usize, Report>)
        requires
            self.wf(),
            at < self@.pointers.len(),
        ensures
            match rules::pointed_to(
                self@.pointers[at as int],
                callsite,
                expected_here,
                depth as nat,
            ) {
                Ok(p) => to is Ok && to->Ok_0 == p && p < self@.pointers.len(),
                Err(r) => to is Err && to->Err_0@ == r,
            },
    {
        let storage = &self.pointers[at];
        assert(points_below(self@.pointers[at as int].value, self@.pointers.len()));
        match &storage.value {
            Lifetime::Pointer(to) => Ok(*to),
            Lifetime::Uninitialized => Err(
                ReportOf::UninitializedArg { callsite, stored_here: storage.stored_here },
            ),
            Lifetime::Dropped { stored_here, dropped_here } => Err(
                ReportOf::DroppedArg {
                    name: storage.name.clone(),
                    callsite,
                    stored_here: *stored_here,
                    dropped_here: *dropped_here,
                },
            ),
            Lifetime::Moved { moved_here } => Err(
                ReportOf::MovedArg {
                    name: storage.name.clone(),
                    callsite,
                    moved_here: *moved_here,
                },
            ),
            Lifetime::Function { .. } => Err(ReportOf::FunctionArg { callsite }),
            Lifetime::Static => Err(
                ReportOf::DepthMismatch {
                    callsite,
                    changed_here: storage.changed_here,
                    expected_here,
                    depth,
                },
            ),
        }
    }

    /// Checks the storage at `to` against one pointer of the parameter's type, and does to it
    /// what passing it does. The flag tells whether to follow it to the next pointer.
    pub fn check_level(&mut self, ptr: &Pointer, callsite: Location, to: usize) -> (deeper: bool)
        requires
            old(self).wf(),
            to < old(self)@.pointers.len(),
        ensures
            final(self).wf(),
            (final(self)@, deeper) == rules::check_level(old(self)@, ptr@, callsite, to as nat),
    {
        let ghost s = self@;
        let stored_here = self.pointers[to].stored_here;
        let name = self.pointers[to].name.clone();
        if ptr.tags.contains_key("mutable") && !self.pointers[to].tags.contains_key("mutable") {
            self.report(ReportOf::ConstArg { callsite, stored_here });
            return false;
        }
        let mut tags = clean_tags(&self.pointers[to].tags, &ptr.tags);
        let ghost clean = tags@;
        if tags.contains_key("tainted") {
            self.set_tags(to, tags);
            self.report(ReportOf::TaintedArg { name, callsite });
            return false;
        }
        match ptr.tags.get("taint") {
            Some(taints) => {
                if tags.contains_key("borrowed") {
                    match first_undeclared(&taints, &tags) {
                        Some(taint) => {
                            self.set_tags(to, tags);
                            self.report(ReportOf::TaintsBorrowed { taint, callsite, stored_here });
                            return false;
                        },
                        None => {},
                    }
                }
                taint_tags(&mut tags, &taints, callsite);
            },
            None => {
                proof {
                    assert(values(ptr@.tags, "taint"@).len() == 0) by {
                        lemma_filter_none(
                            ptr@.tags,
                            |t: TagView| t.key == "taint"@,
                        );
                    }
                    assert(rules::undeclared(values(ptr@.tags, "taint"@), clean).len() == 0) by {
                        lemma_filter_none(
                            values(ptr@.tags, "taint"@),
                            |t: TagView| !has_value(clean, "taint"@, t.value),
                        );
                    }
                }
            },
        }
        assert(tags@ == rules::tainted(clean, values(ptr@.tags, "taint"@), callsite, 0));
        let on_stack = tags.contains_key("stack");
        let borrowed = tags.contains_key("borrowed");
        let is_unsafe = tags.contains_key("unsafe");
        self.set_tags(to, tags);
        match ptr.tags.get("move") {
            Some(moves) => {
                if on_stack {
                    self.report(ReportOf::MovesStack { name, callsite });
                    return false;
                }
                if borrowed {
                    let required_here = moves[0].loc;
                    assert(tag_views(moves@)[0].loc == required_here);
                    self.report(
                        ReportOf::MovesBorrowed { name, callsite, required_here, stored_here },
                    );
                    return false;
                }
                self.give_away(to, callsite);
                return false;
            },
            None => {},
        }
        if ptr.tags.contains_key("unsafe") {
            return false;
        }
        if is_unsafe {
            self.report(ReportOf::UnsafeArg { callsite, stored_here });
            return false;
        }
        true
    }

    /// Follows the storage at `start` through the pointers of the parameter's type, right to left.
    pub fn check_levels(&mut self, typed: &Typed, callsite: Location, start: usize)
        requires
            old(self).wf(),
            start < old(self)@.pointers.len(),
        ensures
            final(self).wf(),
            final(self)@ == rules::check_levels(old(self)@, typed@, callsite, start as nat, 0),
    {
        let mut at: usize = start;
        let mut depth: usize = 0;
        let n: usize = typed.ptr.len();
        while depth < n
            invariant
                depth <= n,
                n == typed.ptr@.len(),
                self.wf(),
                at < self@.pointers.len(),
                rules::check_levels(self@, typed@, callsite, at as nat, depth as nat)
                    == rules::check_levels(old(self)@, typed@, callsite, start as nat, 0),
            decreases n - depth,
        {
            let to = match self.pointed_to(at, callsite, typed.loc, depth) {
                Ok(to) => to,
                Err(r) => {
                    self.report(r);
                    return ;
                },
            };
            let ghost s = self@;
            let ptr = &typed.ptr[n - 1 - depth];
            proof {
                lemma_check_level_keeps(s, ptr@, callsite, to as nat);
            }
            if !self.check_level(ptr, callsite, to) {
                return ;
            }
            at = to;
            depth = depth + 1;
        }
    }
}

} // verus!
