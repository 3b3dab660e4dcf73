//! Tags: the marks that declarations carry, such as `mutable`, `unsafe` or `taint<value>`.

use vstd::prelude::*;
use crate::location::Location;
use crate::text::{Text, equal};

verus! {

/// One value of a tag, with the place that set it.
#[derive(Debug)]
pub struct Tag {
    pub key: String,
    pub value: String,
    pub loc: Location,
}

/// What a [`Tag`] holds.
pub struct TagView {
    pub key: Text,
    pub value: Text,
    pub loc: Location,
}

impl View for Tag {
    type V = TagView;

    open spec fn view(&self) -> TagView {
        TagView { key: self.key@, value: self.value@, loc: self.loc }
    }
}

impl Clone for Tag {
    fn clone(&self) -> (copy: Tag)
        ensures
            copy@ == self@,
    {
        Tag { key: self.key.clone(), value: self.value.clone(), loc: self.loc }
    }
}

/// The tags of a declaration: for each key the values it is set to, in the order in which they
/// were set. A key is present exactly if it has a value, and has no value twice.
#[derive(Debug)]
pub struct Tags(Vec<Tag>);

/// The tags of a declaration, one entry for each value.
pub type TagsView = Seq<TagView>;

/// What each tag of a sequence holds.
pub open spec fn tag_views(tags: Seq<Tag>) -> TagsView {
    Seq::new(tags.len(), |i: int| tags[i]@)
}

impl View for Tags {
    type V = TagsView;

    closed spec fn view(&self) -> TagsView {
        tag_views(self.0@)
    }
}

/// Whether `key` is set.
pub open spec fn has_key(tags: TagsView, key: Text) -> bool {
    exists|i: int| 0 <= i < tags.len() && (#[trigger] tags[i]).key == key
}

/// Whether `key` is set to `value`.
pub open spec fn has_value(tags: TagsView, key: Text, value: Text) -> bool {
    exists|i: int| 0 <= i < tags.len() && (#[trigger] tags[i]).key == key && tags[i].value == value
}

/// The values of `key`, in the order in which they were set.
pub open spec fn values(tags: TagsView, key: Text) -> TagsView {
    tags.filter(|t: TagView| t.key == key)
}

/// The tags after `key` was set to `value` at `loc`, next to the values that it had.
pub open spec fn inserted(tags: TagsView, key: Text, value: Text, loc: Location) -> TagsView {
    if has_value(tags, key, value) {
        tags.map_values(
            |t: TagView|
                if t.key == key && t.value == value {
                    TagView { key, value, loc }
                } else {
                    t
                },
        )
    } else {
        tags.push(TagView { key, value, loc })
    }
}

/// The tags without `key`.
pub open spec fn removed(tags: TagsView, key: Text) -> TagsView {
    tags.filter(|t: TagView| t.key != key)
}

/// The tags without the one value of `key`.
pub open spec fn value_removed(tags: TagsView, key: Text, value: Text) -> TagsView {
    tags.filter(|t: TagView| !(t.key == key && t.value == value))
}

/// No key has a value twice.
pub open spec fn distinct(tags: TagsView) -> bool {
    forall|i: int, j: int|
        0 <= i < j < tags.len() ==> !((#[trigger] tags[i]).key == (#[trigger] tags[j]).key
            && tags[i].value == tags[j].value)
}

impl Tags {
    /// No key has a value twice.
    #[verifier::type_invariant]
    pub closed spec fn wf(self) -> bool {
        distinct(tag_views(self.0@))
    }

    /// No tags.
    pub fn new() -> (tags: Tags)
        ensures
            tags@ == Seq::<TagView>::empty(),
            distinct(tags@),
    {
        let none: Vec<Tag> = Vec::new();
        assert(tag_views(none@) =~= Seq::<TagView>::empty());
        Tags(none)
    }

    /// Whether `key` is set.
    pub fn contains_key(&self, key: &str) -> (found: bool)
        ensures
            found == has_key(self@, key@),
    {
        let mut i: usize = 0;
        while i < self.0.len()
            invariant
                i <= self.0@.len(),
                forall|j: int| 0 <= j < i ==> (#[trigger] self@[j]).key != key@,
            decreases self.0@.len() - i,
        {
            if equal(self.0[i].key.as_str(), key) {
                assert(self@[i as int].key == key@);
                return true;
            }
            i = i + 1;
        }
        false
    }

    /// Whether `key` is set to `value`.
    pub fn contains_value(&self, key: &str, value: &str) -> (found: bool)
        ensures
            found == has_value(self@, key@, value@),
    {
        let mut i: usize = 0;
        while i < self.0.len()
            invariant
                i <= self.0@.len(),
                forall|j: int|
                    0 <= j < i ==> !((#[trigger] self@[j]).key == key@ && self@[j].value
                        == value@),
            decreases self.0@.len() - i,
        {
            if equal(self.0[i].key.as_str(), key) && equal(self.0[i].value.as_str(), value) {
                assert(self@[i as int].key == key@);
                return true;
            }
            i = i + 1;
        }
        false
    }

    /// The values of `key`, if it is set.
    pub fn get(&self, key: &str) -> (found: Option<Vec<Tag>>)
        ensures
            match found {
                Some(vs) => has_key(self@, key@) && vs@.len() > 0 && tag_views(vs@) == values(
                    self@,
                    key@,
                ),
                None => !has_key(self@, key@),
            },
    {
        let mut vs: Vec<Tag> = Vec::new();
        let ghost wanted = |t: TagView| t.key == key@;
        let mut i: usize = 0;
        assert(self@.take(0).filter(wanted) =~= tag_views(vs@)) by {
            reveal(Seq::filter);
        }
        while i < self.0.len()
            invariant
                i <= self.0@.len(),
                wanted == (|t: TagView| t.key == key@),
                tag_views(vs@) == self@.take(i as int).filter(wanted),
            decreases self.0@.len() - i,
        {
            let ghost before = tag_views(vs@);
            proof {
                assert(self@.take(i + 1) =~= self@.take(i as int).push(self@[i as int]));
                self@.take(i as int).lemma_filter_push(self@[i as int], wanted);
            }
            if equal(self.0[i].key.as_str(), key) {
                vs.push(self.0[i].clone());
                assert(tag_views(vs@) =~= before.push(self@[i as int]));
            }
            i = i + 1;
        }
        assert(self@.take(i as int) =~= self@);
        if vs.len() == 0 {
            proof {
                assert forall|j: int| 0 <= j < self@.len() implies (#[trigger] self@[j]).key
                    != key@ by {
                    if self@[j].key == key@ {
                        self@.lemma_filter_contains(wanted, j);
                    }
                }
            }
            None
        } else {
            proof {
                let first = self@.filter(wanted)[0];
                self@.lemma_filter_pred(wanted, 0);
                assert(self@.filter(wanted).contains(first));
                self@.lemma_filter_contains_rev(wanted, first);
            }
            Some(vs)
        }
    }

    /// Sets `key` to `value`, next to the values that it has.
    pub fn insert(&mut self, key: String, value: String, loc: Location)
        ensures
            final(self)@ == inserted(old(self)@, key@, value@, loc),
            distinct(final(self)@),
    {
        proof {
            use_type_invariant(&*self);
        }
        let ghost was = self@;
        let ghost k = key@;
        let ghost v = value@;
        let ghost change = |t: TagView|
            if t.key == k && t.value == v {
                TagView { key: k, value: v, loc }
            } else {
                t
            };
        let mut all: Vec<Tag> = Vec::new();
        std::mem::swap(&mut all, &mut self.0);
        let mut found = false;
        let mut i: usize = 0;
        let n: usize = all.len();
        while i < n
            invariant
                i <= n,
                n == all@.len(),
                was.len() == n,
                k == key@,
                v == value@,
                change == (|t: TagView|
                    if t.key == k && t.value == v {
                        TagView { key: k, value: v, loc }
                    } else {
                        t
                    }),
                forall|j: int| 0 <= j < i ==> #[trigger] tag_views(all@)[j] == change(was[j]),
                forall|j: int| i <= j < n ==> #[trigger] tag_views(all@)[j] == was[j],
                found == exists|j: int|
                    0 <= j < i && (#[trigger] was[j]).key == k && was[j].value == v,
            decreases n - i,
        {
            let ghost before = tag_views(all@);
            assert(before[i as int] == was[i as int]);
            if all[i].key == key && all[i].value == value {
                all[i].loc = loc;
                found = true;
                assert(tag_views(all@) =~= before.update(i as int, change(before[i as int])));
            } else {
                assert(change(before[i as int]) == before[i as int]);
            }
            i = i + 1;
        }
        if found {
            assert(has_value(was, k, v));
            assert(tag_views(all@) =~= was.map_values(change));
        } else {
            assert(!has_value(was, k, v));
            assert(tag_views(all@) =~= was);
            all.push(Tag { key, value, loc });
            assert(tag_views(all@) =~= was.push(TagView { key: k, value: v, loc }));
        }
        proof {
            law_inserted_is_distinct(was, k, v, loc);
        }
        self.0 = all;
    }

    /// Removes `key` with all its values, or only the one value of it.
    pub fn remove(&mut self, key: &str, value: Option<&str>)
        ensures
            final(self)@ == match value {
                Some(v) => value_removed(old(self)@, key@, v@),
                None => removed(old(self)@, key@),
            },
            distinct(final(self)@),
    {
        proof {
            use_type_invariant(&*self);
        }
        let ghost all = self@;
        let ghost stays = match value {
            Some(v) => |t: TagView| !(t.key == key@ && t.value == v@),
            None => |t: TagView| t.key != key@,
        };
        let mut kept: Vec<Tag> = Vec::new();
        let mut i: usize = 0;
        assert(all.take(0).filter(stays) =~= tag_views(kept@)) by {
            reveal(Seq::filter);
        }
        while i < self.0.len()
            invariant
                i <= self.0@.len(),
                self@ == all,
                forall|t: TagView| #[trigger]
                    stays(t) == match value {
                        Some(v) => !(t.key == key@ && t.value == v@),
                        None => t.key != key@,
                    },
                tag_views(kept@) == all.take(i as int).filter(stays),
            decreases self.0@.len() - i,
        {
            let ghost before = tag_views(kept@);
            proof {
                assert(all.take(i + 1) =~= all.take(i as int).push(all[i as int]));
                all.take(i as int).lemma_filter_push(all[i as int], stays);
                assert(stays(all[i as int]) == stays(self.0@[i as int]@));
            }
            let hit = equal(self.0[i].key.as_str(), key) && match value {
                Some(v) => equal(self.0[i].value.as_str(), v),
                None => true,
            };
            if !hit {
                kept.push(self.0[i].clone());
                assert(tag_views(kept@) =~= before.push(all[i as int]));
            }
            i = i + 1;
        }
        proof {
            assert(all.take(i as int) =~= all);
            law_filtered_is_distinct(all, stays);
        }
        self.0 = kept;
    }
}

impl Clone for Tags {
    fn clone(&self) -> (copy: Tags)
        ensures
            copy@ == self@,
    {
        proof {
            use_type_invariant(self);
        }
        let tags = self.0.clone();
        assert(tag_views(tags@) =~= tag_views(self.0@));
        Tags(tags)
    }
}

/// Filtering twice is filtering once by both.
pub proof fn lemma_filter_twice(
    s: TagsView,
    p: spec_fn(TagView) -> bool,
    q: spec_fn(TagView) -> bool,
    both: spec_fn(TagView) -> bool,
)
    requires
        forall|t: TagView| #[trigger] both(t) == (p(t) && q(t)),
    ensures
        s.filter(p).filter(q) == s.filter(both),
    decreases s.len(),
{
    reveal(Seq::filter);
    if s.len() > 0 {
        let front = s.drop_last();
        lemma_filter_twice(front, p, q, both);
        assert(both(s.last()) == (p(s.last()) && q(s.last())));
        if p(s.last()) {
            front.filter(p).lemma_filter_push(s.last(), q);
        }
    }
}

/// Filtering by what is the same for every tag gives the same tags.
pub proof fn lemma_filter_same(
    s: TagsView,
    p: spec_fn(TagView) -> bool,
    q: spec_fn(TagView) -> bool,
)
    requires
        forall|t: TagView| #[trigger] p(t) == q(t),
    ensures
        s.filter(p) == s.filter(q),
{
    assert(p =~= q);
}

/// The first tag that passes a filter.
pub proof fn lemma_filter_first(s: TagsView, p: spec_fn(TagView) -> bool, i: int)
    requires
        0 <= i < s.len(),
        p(s[i]),
        forall|j: int| 0 <= j < i ==> !p(#[trigger] s[j]),
    ensures
        s.filter(p).len() > 0,
        s.filter(p)[0] == s[i],
    decreases s.len(),
{
    reveal(Seq::filter);
    let front = s.drop_last();
    if i < front.len() {
        lemma_filter_first(front, p, i);
    } else {
        lemma_filter_none(front, p);
    }
}

/// Where no tag passes a filter, nothing is left.
pub proof fn lemma_filter_none(s: TagsView, p: spec_fn(TagView) -> bool)
    requires
        forall|j: int| 0 <= j < s.len() ==> !p(#[trigger] s[j]),
    ensures
        s.filter(p).len() == 0,
    decreases s.len(),
{
    reveal(Seq::filter);
    if s.len() > 0 {
        lemma_filter_none(s.drop_last(), p);
    }
}

/// The values of a key are those that it is set to.
pub proof fn lemma_values(tags: TagsView, key: Text, value: Text)
    ensures
        has_value(tags, key, value) <==> exists|j: int|
            0 <= j < values(tags, key).len() && (#[trigger] values(tags, key)[j]).value == value,
{
    let p = |t: TagView| t.key == key;
    let vs = values(tags, key);
    if has_value(tags, key, value) {
        let i = choose|i: int|
            0 <= i < tags.len() && (#[trigger] tags[i]).key == key && tags[i].value == value;
        tags.lemma_filter_contains(p, i);
        let j = choose|j: int| 0 <= j < vs.len() && vs[j] == tags[i];
        assert(vs[j].value == value);
    }
    if exists|j: int| 0 <= j < vs.len() && (#[trigger] vs[j]).value == value {
        let j = choose|j: int| 0 <= j < vs.len() && (#[trigger] vs[j]).value == value;
        tags.lemma_filter_pred(p, j);
        assert(tags.filter(p).contains(vs[j]));
        tags.lemma_filter_contains_rev(p, vs[j]);
        let i = choose|i: int| 0 <= i < tags.len() && tags[i] == vs[j];
        assert(tags[i].key == key);
    }
}

/// Setting a value keeps every value once.
pub proof fn law_inserted_is_distinct(tags: TagsView, key: Text, value: Text, loc: Location)
    requires
        distinct(tags),
    ensures
        distinct(inserted(tags, key, value, loc)),
{
    let out = inserted(tags, key, value, loc);
    assert forall|i: int, j: int| 0 <= i < j < out.len() implies !((#[trigger] out[i]).key == (
    #[trigger] out[j]).key && out[i].value == out[j].value) by {
        if j < tags.len() {
            assert(out[i].key == tags[i].key && out[i].value == tags[i].value);
            assert(out[j].key == tags[j].key && out[j].value == tags[j].value);
        } else {
            assert(out[i] == tags[i]);
        }
    }
}

/// Taking tags away keeps every value once.
pub proof fn law_filtered_is_distinct(tags: TagsView, stays: spec_fn(TagView) -> bool)
    requires
        distinct(tags),
    ensures
        distinct(tags.filter(stays)),
    decreases tags.len(),
{
    reveal(Seq::filter);
    if tags.len() > 0 {
        let front = tags.drop_last();
        let kept = front.filter(stays);
        assert(distinct(front)) by {
            assert forall|i: int, j: int| 0 <= i < j < front.len() implies !((
            #[trigger] front[i]).key == (#[trigger] front[j]).key && front[i].value
                == front[j].value) by {
                assert(front[i] == tags[i] && front[j] == tags[j]);
            }
        }
        law_filtered_is_distinct(front, stays);
        if stays(tags.last()) {
            let out = kept.push(tags.last());
            assert forall|i: int, j: int| 0 <= i < j < out.len() implies !((
            #[trigger] out[i]).key == (#[trigger] out[j]).key && out[i].value
                == out[j].value) by {
                if j == kept.len() {
                    assert(kept.contains(kept[i]));
                    front.lemma_filter_contains_rev(stays, kept[i]);
                    let k = choose|k: int| 0 <= k < front.len() && front[k] == kept[i];
                    assert(tags[k] == kept[i]);
                } else {
                    assert(out[i] == kept[i] && out[j] == kept[j]);
                }
            }
        }
    }
}

/// A value that was set is there, and so is every other that was there.
pub proof fn law_inserted_is_there(
    tags: TagsView,
    key: Text,
    value: Text,
    loc: Location,
    k: Text,
    v: Text,
)
    ensures
        has_value(inserted(tags, key, value, loc), k, v) <==> has_value(tags, k, v) || (k == key
            && v == value),
        has_key(inserted(tags, key, value, loc), k) <==> has_key(tags, k) || k == key,
{
    let out = inserted(tags, key, value, loc);
    assert(forall|i: int|
        0 <= i < tags.len() ==> out[i].key == (#[trigger] tags[i]).key && out[i].value
            == tags[i].value);
    if has_value(tags, k, v) {
        let i = choose|i: int|
            0 <= i < tags.len() && (#[trigger] tags[i]).key == k && tags[i].value == v;
        assert(out[i].key == k && out[i].value == v);
    }
    if has_key(tags, k) {
        let i = choose|i: int| 0 <= i < tags.len() && (#[trigger] tags[i]).key == k;
        assert(out[i].key == k);
    }
    if k == key {
        if has_value(tags, key, value) {
            let i = choose|i: int|
                0 <= i < tags.len() && (#[trigger] tags[i]).key == key && tags[i].value == value;
            assert(out[i].key == key && out[i].value == value);
        } else {
            assert(out[tags.len() as int].key == key && out[tags.len() as int].value == value);
        }
    }
    if has_value(out, k, v) {
        let i = choose|i: int|
            0 <= i < out.len() && (#[trigger] out[i]).key == k && out[i].value == v;
        if i < tags.len() {
            assert(tags[i].key == k && tags[i].value == v);
        }
    }
    if has_key(out, k) {
        let i = choose|i: int| 0 <= i < out.len() && (#[trigger] out[i]).key == k;
        if i < tags.len() {
            assert(tags[i].key == k);
        }
    }
}

/// A value is there after filtering exactly if it was there and some tag of it passed.
pub proof fn lemma_filtered_is_there(
    tags: TagsView,
    stays: spec_fn(TagView) -> bool,
    k: Text,
    v: Text,
)
    ensures
        has_value(tags.filter(stays), k, v) <==> exists|i: int|
            0 <= i < tags.len() && (#[trigger] tags[i]).key == k && tags[i].value == v && stays(
                tags[i],
            ),
        has_key(tags.filter(stays), k) <==> exists|i: int|
            0 <= i < tags.len() && (#[trigger] tags[i]).key == k && stays(tags[i]),
{
    let out = tags.filter(stays);
    assert forall|j: int| 0 <= j < out.len() implies exists|i: int|
        0 <= i < tags.len() && #[trigger] tags[i] == #[trigger] out[j] && stays(tags[i]) by {
        tags.lemma_filter_pred(stays, j);
        assert(out.contains(out[j]));
        tags.lemma_filter_contains_rev(stays, out[j]);
        let i = choose|i: int| 0 <= i < tags.len() && tags[i] == out[j];
        assert(tags[i] == out[j]);
    }
    assert forall|i: int| 0 <= i < tags.len() && stays(#[trigger] tags[i]) implies exists|j: int|
        0 <= j < out.len() && #[trigger] out[j] == tags[i] by {
        tags.lemma_filter_contains(stays, i);
        let j = choose|j: int| 0 <= j < out.len() && out[j] == tags[i];
        assert(out[j] == tags[i]);
    }
}

/// A key that was removed is gone, and every other is as it was.
pub proof fn law_removed_is_gone(tags: TagsView, key: Text, k: Text, v: Text)
    ensures
        has_value(removed(tags, key), k, v) <==> has_value(tags, k, v) && k != key,
        has_key(removed(tags, key), k) <==> has_key(tags, k) && k != key,
{
    lemma_filtered_is_there(tags, |t: TagView| t.key != key, k, v);
}

/// A value that was removed is gone, and every other is as it was.
pub proof fn law_value_removed_is_gone(tags: TagsView, key: Text, value: Text, k: Text, v: Text)
    ensures
        has_value(value_removed(tags, key, value), k, v) <==> has_value(tags, k, v) && !(k == key
            && v == value),
{
    lemma_filtered_is_there(tags, |t: TagView| !(t.key == key && t.value == value), k, v);
}

/// A key without its last value is gone.
pub proof fn law_last_value_removes_key(tags: TagsView, key: Text, value: Text)
    requires
        forall|v: Text| #[trigger] has_value(tags, key, v) ==> v == value,
    ensures
        !has_key(value_removed(tags, key, value), key),
{
    lemma_filtered_is_there(
        tags,
        |t: TagView| !(t.key == key && t.value == value),
        key,
        value,
    );
    assert forall|i: int|
        0 <= i < tags.len() && (#[trigger] tags[i]).key == key implies tags[i].value == value by {
        assert(has_value(tags, key, tags[i].value));
    }
}

/// Setting a value leaves all tags where they are. A value that was set before gets the new
/// place; one that was not comes last.
pub proof fn law_inserted_in_order(tags: TagsView, key: Text, value: Text, loc: Location, i: int)
    ensures
        ({
            let out = inserted(tags, key, value, loc);
            &&& has_value(tags, key, value) ==> out.len() == tags.len()
            &&& !has_value(tags, key, value) ==> out == tags.push(TagView { key, value, loc })
            &&& 0 <= i < tags.len() ==> {
                &&& out[i].key == tags[i].key
                &&& out[i].value == tags[i].value
                &&& out[i].loc == if tags[i].key == key && tags[i].value == value {
                    loc
                } else {
                    tags[i].loc
                }
            }
        }),
{
}

/// The values of a key are all tags of that key, in the same order.
pub proof fn law_values_in_order(tags: TagsView, key: Text, last: TagView)
    ensures
        values(Seq::empty(), key).len() == 0,
        values(tags.push(last), key) == if last.key == key {
            values(tags, key).push(last)
        } else {
            values(tags, key)
        },
{
    reveal(Seq::filter);
    tags.lemma_filter_push(last, |t: TagView| t.key == key);
}

/// Removing leaves all other tags as they are, in the same order.
pub proof fn law_removed_in_order(tags: TagsView, key: Text, value: Text, last: TagView)
    ensures
        removed(Seq::empty(), key).len() == 0,
        removed(tags.push(last), key) == if last.key == key {
            removed(tags, key)
        } else {
            removed(tags, key).push(last)
        },
        value_removed(Seq::empty(), key, value).len() == 0,
        value_removed(tags.push(last), key, value) == if last.key == key && last.value == value {
            value_removed(tags, key, value)
        } else {
            value_removed(tags, key, value).push(last)
        },
{
    reveal(Seq::filter);
    tags.lemma_filter_push(last, |t: TagView| t.key != key);
    tags.lemma_filter_push(last, |t: TagView| !(t.key == key && t.value == value));
}

/// A key is set exactly if it has a value, and one tag more sets one value more.
pub proof fn law_keys_and_values(tags: TagsView, last: TagView, key: Text, value: Text)
    ensures
        has_key(tags, key) <==> exists|v: Text| has_value(tags, key, v),
        !has_key(Seq::empty(), key),
        !has_value(Seq::empty(), key, value),
        has_key(tags.push(last), key) <==> has_key(tags, key) || last.key == key,
        has_value(tags.push(last), key, value) <==> has_value(tags, key, value) || (last.key == key
            && last.value == value),
{
    let more = tags.push(last);
    assert(more[tags.len() as int] == last);
    if has_key(tags, key) {
        let i = choose|i: int| 0 <= i < tags.len() && (#[trigger] tags[i]).key == key;
        assert(has_value(tags, key, tags[i].value));
        assert(more[i].key == key);
    }
    if exists|v: Text| has_value(tags, key, v) {
        let v = choose|v: Text| has_value(tags, key, v);
        let i = choose|i: int|
            0 <= i < tags.len() && (#[trigger] tags[i]).key == key && tags[i].value == v;
        assert(tags[i].key == key);
    }
    if has_value(tags, key, value) {
        let i = choose|i: int|
            0 <= i < tags.len() && (#[trigger] tags[i]).key == key && tags[i].value == value;
        assert(more[i].key == key && more[i].value == value);
    }
    if has_key(more, key) {
        let i = choose|i: int| 0 <= i < more.len() && (#[trigger] more[i]).key == key;
        if i < tags.len() {
            assert(tags[i].key == key);
        }
    }
    if has_value(more, key, value) {
        let i = choose|i: int|
            0 <= i < more.len() && (#[trigger] more[i]).key == key && more[i].value == value;
        if i < tags.len() {
            assert(tags[i].key == key && tags[i].value == value);
        }
    }
}

} // verus!
