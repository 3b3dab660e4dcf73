//! Places in the source text.

use vstd::prelude::*;
use crate::text::{Text, decimal, decimal_text, law_decimal_digits, law_decimals_differ};

verus! {

/// A stretch of source text: the number of its file, its first byte and the byte after its
/// last, and the line and column in which it starts.
#[derive(Clone, Copy, PartialEq, Eq, Debug)]
pub struct Location {
    pub file: usize,
    pub start: usize,
    pub end: usize,
    pub line: usize,
    pub col: usize,
}

/// Line and column of a place, as `(line, column)`.
pub open spec fn line_col(loc: Location) -> Text {
    "("@ + decimal(loc.line as nat) + ", "@ + decimal(loc.col as nat) + ")"@
}

impl Location {
    /// Line and column in which the place starts, as `(line, column)`.
    pub fn line_col(&self) -> (t: String)
        ensures
            t@ == line_col(*self),
    {
        let mut t = "(".to_owned();
        t.append(decimal_text(self.line).as_str());
        t.append(", ");
        t.append(decimal_text(self.col).as_str());
        t.append(")");
        t
    }
}

/// Line and column are shown in brackets, the line first.
pub proof fn law_line_col(loc: Location)
    ensures
        line_col(loc) == "("@ + decimal(loc.line as nat) + ", "@ + decimal(loc.col as nat) + ")"@,
{
}

/// Two places are shown alike exactly if they are in the same line and column.
pub proof fn law_same_line_col(a: Location, b: Location)
    ensures
        line_col(a) == line_col(b) <==> a.line == b.line && a.col == b.col,
{
    let (la, ca) = (decimal(a.line as nat), decimal(a.col as nat));
    let (lb, cb) = (decimal(b.line as nat), decimal(b.col as nat));
    let na = la.len() as int;
    let nb = lb.len() as int;
    let (ta, tb) = (line_col(a), line_col(b));
    reveal_strlit("(");
    reveal_strlit(", ");
    reveal_strlit(")");
    if ta == tb {
        law_decimal_digits(a.line as nat, nb);
        law_decimal_digits(b.line as nat, na);
        assert(ta[1 + na] == ',');
        assert(tb[1 + nb] == ',');
        if na < nb {
            assert(tb[1 + na] == lb[na]);
        }
        if nb < na {
            assert(ta[1 + nb] == la[nb]);
        }
        assert(la =~= lb) by {
            assert(ta.subrange(1, 1 + na) =~= la);
            assert(tb.subrange(1, 1 + nb) =~= lb);
        }
        assert(ca =~= cb) by {
            assert(ta.subrange(3 + na, ta.len() - 1) =~= ca);
            assert(tb.subrange(3 + nb, tb.len() - 1) =~= cb);
        }
        law_decimals_differ(a.line as nat, b.line as nat);
        law_decimals_differ(a.col as nat, b.col as nat);
    }
}

} // verus!
