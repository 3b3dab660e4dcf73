//! Names: paths of identifiers, written with `::` in between.

use vstd::prelude::*;
use crate::text;
use crate::text::{Text, equal, join, split};

verus! {

/// A name, as the identifiers that make it up. The first one of an absolute name is empty.
#[derive(Debug)]
pub struct Name(pub Vec<String>);

/// The identifiers of a name.
pub type NameView = Seq<Text>;

impl View for Name {
    type V = NameView;

    open spec fn view(&self) -> NameView {
        text::texts(self.0@)
    }
}

/// Whether a name starts at the root: it was written with a leading `::`.
pub open spec fn is_absolute(name: NameView) -> bool {
    name.len() >= 2 && name[0].len() == 0
}

/// Whether a name belongs to the namespace of external C code, `::ext`.
pub open spec fn is_ext(name: NameView) -> bool {
    is_absolute(name) && name[1] == "ext"@
}

impl Name {
    /// Reads a name from how it is written.
    pub fn from(written: &str) -> (name: Name)
        ensures
            name@ == text::pieces(written@),
    {
        Name(split(written))
    }

    /// Whether the name starts at the root.
    pub fn is_absolute(&self) -> (absolute: bool)
        ensures
            absolute == is_absolute(self@),
    {
        self.0.len() >= 2 && self.0[0].as_str().is_empty()
    }

    /// Whether the name belongs to external C code.
    pub fn is_ext(&self) -> (ext: bool)
        ensures
            ext == is_ext(self@),
    {
        self.is_absolute() && equal(self.0[1].as_str(), "ext")
    }

    /// Whether two names are made of the same identifiers.
    pub fn same(&self, other: &Name) -> (same: bool)
        ensures
            same == (self@ == other@),
    {
        if self.0.len() != other.0.len() {
            assert(self@.len() != other@.len());
            return false;
        }
        let mut i: usize = 0;
        while i < self.0.len()
            invariant
                i <= self.0@.len(),
                self.0@.len() == other.0@.len(),
                forall|j: int| 0 <= j < i ==> self@[j] == other@[j],
            decreases self.0@.len() - i,
        {
            if self.0[i] != other.0[i] {
                assert(self@[i as int] != other@[i as int]);
                return false;
            }
            i = i + 1;
        }
        assert(self@ =~= other@);
        true
    }

    /// The name as it is written.
    pub fn to_text(&self) -> (written: String)
        ensures
            written@ == text::joined(self@),
    {
        join(&self.0)
    }
}

impl Clone for Name {
    fn clone(&self) -> (copy: Name)
        ensures
            copy@ == self@,
    {
        let copy = Name(self.0.clone());
        assert(copy@ =~= self@);
        copy
    }
}

/// A name is absolute if it is written with `::` before it, and belongs to C code if what follows
/// is `ext`.
pub proof fn law_absolute(name: NameView, written: Text)
    ensures
        is_absolute(name) <==> name.len() >= 2 && name[0] == Seq::<char>::empty(),
        is_ext(name) <==> name.len() >= 2 && name[0] == Seq::<char>::empty() && name[1] == "ext"@,
        is_absolute(text::pieces("::"@ + written)),
        is_ext(text::pieces("::"@ + written)) <==> text::pieces(written)[0] == "ext"@,
{
    if name.len() >= 2 && name[0].len() == 0 {
        assert(name[0] =~= Seq::<char>::empty());
    }
    let whole = "::"@ + written;
    reveal_strlit("::");
    assert(whole[0] == ':' && whole[1] == ':');
    text::law_first_piece(whole, 0);
    text::lemma_split_then_join(written);
    assert(whole.skip(2) =~= written);
    assert(whole.take(0) =~= Seq::<char>::empty());
}

/// What is not written with `::` before it is not absolute.
pub proof fn law_relative(written: Text)
    requires
        written.len() < 2 || written[0] != ':' || written[1] != ':',
    ensures
        !is_absolute(text::pieces(written)),
{
    if exists|i: int|
        0 <= i < written.len() - 1 && #[trigger] written[i] == ':' && written[i + 1] == ':' {
        let i = choose|i: int|
            0 <= i < written.len() - 1 && #[trigger] written[i] == ':' && written[i + 1] == ':';
        let at = lemma_first_separator(written, i);
        text::law_first_piece(written, at);
        assert(at > 0);
        assert(written.take(at).len() == at);
    } else {
        text::law_one_piece(written);
    }
}

proof fn lemma_first_separator(t: Text, i: int) -> (at: int)
    requires
        0 <= i < t.len() - 1,
        t[i] == ':',
        t[i + 1] == ':',
    ensures
        0 <= at <= i,
        t[at] == ':',
        t[at + 1] == ':',
        forall|j: int| 0 <= j < at ==> !(#[trigger] t[j] == ':' && t[j + 1] == ':'),
    decreases i,
{
    if exists|j: int| 0 <= j < i && #[trigger] t[j] == ':' && t[j + 1] == ':' {
        let j = choose|j: int| 0 <= j < i && #[trigger] t[j] == ':' && t[j + 1] == ':';
        lemma_first_separator(t, j)
    } else {
        i
    }
}

} // verus!
