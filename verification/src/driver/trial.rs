//! The cases of a test, and whether a run of one has passed.

use vstd::prelude::*;
use crate::text::{Text, decimal};

verus! {

/// A case of a test: what the program reads, and what it has to write and to exit with.
#[derive(Debug)]
pub struct Case {
    pub name: String,
    pub stdin: Option<Vec<u8>>,
    /// `None` if the program may write anything.
    pub stdout: Option<Vec<u8>>,
    pub exit: i32,
}

/// What a [`Case`] holds.
pub struct CaseView {
    pub name: Text,
    pub stdin: Option<Seq<u8>>,
    pub stdout: Option<Seq<u8>>,
    pub exit: i32,
}

/// The bytes of a file, if there is one.
pub open spec fn bytes(file: Option<Vec<u8>>) -> Option<Seq<u8>> {
    match file {
        Some(file) => Some(file@),
        None => None,
    }
}

impl View for Case {
    type V = CaseView;

    open spec fn view(&self) -> CaseView {
        CaseView {
            name: self.name@,
            stdin: bytes(self.stdin),
            stdout: bytes(self.stdout),
            exit: self.exit,
        }
    }
}

/// Whether a text is made of decimal digits, at least one.
pub open spec fn is_digits(t: Text) -> bool {
    t.len() > 0 && forall|i: int| 0 <= i < t.len() ==> '0' <= #[trigger] t[i] <= '9'
}

/// The number that the decimal digits of a text stand for.
pub open spec fn digits_value(t: Text) -> int
    decreases t.len(),
{
    if t.len() == 0 {
        0
    } else {
        10 * digits_value(t.drop_last()) + (t.last() as int - '0' as int)
    }
}

/// The number that a text stands for: decimal digits, with a sign before them or not.
pub open spec fn number(t: Text) -> Option<int> {
    if is_digits(t) {
        Some(digits_value(t))
    } else if t.len() > 0 && t[0] == '+' && is_digits(t.skip(1)) {
        Some(digits_value(t.skip(1)))
    } else if t.len() > 0 && t[0] == '-' && is_digits(t.skip(1)) {
        Some(-digits_value(t.skip(1)))
    } else {
        None
    }
}

/// The exit status that a text asks for: the number that it stands for, if an exit status can
/// be that; and success otherwise.
pub open spec fn exit_value(t: Text) -> int {
    match number(t) {
        Some(n) => if i32::MIN <= n <= i32::MAX {
            n
        } else {
            0
        },
        None => 0,
    }
}

/// Reads the exit status that a text asks for.
pub fn parse_exit(t: &str) -> (exit: i32)
    ensures
        exit == exit_value(t@),
{
    let n: usize = t.unicode_len();
    if n == 0 {
        return 0;
    }
    let first = t.get_char(0);
    let negative = first == '-';
    let from: usize = if first == '-' || first == '+' {
        1
    } else {
        0
    };
    if from == n {
        return 0;
    }
    let ghost rest = t@.skip(from as int);
    let mut i: usize = from;
    let mut value: i64 = 0;
    let mut fits = true;
    assert(rest.take(0).len() == 0);
    while i < n
        invariant
            from <= i <= n,
            n == t@.len(),
            from == if t@[0] == '-' || t@[0] == '+' {
                1int
            } else {
                0int
            },
            rest == t@.skip(from as int),
            forall|j: int| 0 <= j < i - from ==> '0' <= #[trigger] rest[j] <= '9',
            0 <= value <= 2147483648,
            fits ==> value == digits_value(rest.take(i - from)),
            !fits ==> digits_value(rest.take(i - from)) > 2147483648,
        decreases n - i,
    {
        let c = t.get_char(i);
        assert(rest[i - from] == c);
        let digit: i64 = match c {
            '0' => 0,
            '1' => 1,
            '2' => 2,
            '3' => 3,
            '4' => 4,
            '5' => 5,
            '6' => 6,
            '7' => 7,
            '8' => 8,
            '9' => 9,
            _ => {
                proof {
                    assert(!is_digits(rest));
                    lemma_not_digits(t@, from as int, i as int);
                }
                return 0;
            },
        };
        proof {
            let more = rest.take(i - from + 1);
            assert(more.drop_last() =~= rest.take(i - from));
            assert(more.last() == c);
            assert(digits_value(more) == 10 * digits_value(rest.take(i - from)) + digit);
        }
        if fits {
            if 10 * value + digit > 2147483648 {
                fits = false;
            } else {
                value = 10 * value + digit;
            }
        }
        i = i + 1;
    }
    proof {
        assert(rest.take(i - from) =~= rest);
        assert(is_digits(rest));
        lemma_number(t@, from as int);
    }
    if !fits {
        0
    } else if negative {
        (-value) as i32
    } else if value == 2147483648 {
        0
    } else {
        value as i32
    }
}

/// What a text stands for whose sign, if it has one, is followed by digits.
proof fn lemma_number(t: Text, from: int)
    requires
        t.len() > 0,
        from == if t[0] == '-' || t[0] == '+' {
            1int
        } else {
            0int
        },
        is_digits(t.skip(from)),
    ensures
        number(t) == Some(
            if t[0] == '-' {
                -digits_value(t.skip(from))
            } else {
                digits_value(t.skip(from))
            },
        ),
{
    assert(t.skip(0) =~= t);
    if from == 1 {
        assert(!is_digits(t)) by {
            assert(!('0' <= t[0] <= '9'));
        }
    }
}

/// A text that holds something else than digits behind its sign stands for no number.
proof fn lemma_not_digits(t: Text, from: int, i: int)
    requires
        0 <= from <= i < t.len(),
        from == if t[0] == '-' || t[0] == '+' {
            1int
        } else {
            0int
        },
        !('0' <= t[i] <= '9'),
    ensures
        number(t) is None,
{
    if from == 1 {
        assert(t.skip(1)[i - 1] == t[i]);
    }
}

/// The case that the files of a directory make up. A file that is not there asks for nothing.
pub fn case_of(
    name: String,
    stdin: Option<Vec<u8>>,
    stdout: Option<Vec<u8>>,
    exit: Option<&str>,
) -> (case: Case)
    ensures
        case@ == (CaseView {
            name: name@,
            stdin: bytes(stdin),
            stdout: bytes(stdout),
            exit: match exit {
                Some(text) => exit_value(text@) as i32,
                None => 0,
            },
        }),
{
    let exit = match exit {
        Some(text) => parse_exit(text),
        None => 0,
    };
    Case { name, stdin, stdout, exit }
}

/// What each case of a sequence holds.
pub open spec fn case_views(cases: Seq<Case>) -> Seq<CaseView> {
    Seq::new(cases.len(), |i: int| cases[i]@)
}

/// The case of a test that has none: it reads nothing, writes anything, and succeeds.
pub open spec fn default_case() -> CaseView {
    CaseView { name: "default"@, stdin: None, stdout: None, exit: 0 }
}

/// The cases to run, which are never none.
pub fn cases_to_run(cases: Vec<Case>) -> (all: Vec<Case>)
    ensures
        case_views(all@) == if cases@.len() == 0 {
            seq![default_case()]
        } else {
            case_views(cases@)
        },
        all@.len() > 0,
        cases@.len() == 0 ==> {
            &&& all@.len() == 1
            &&& all@[0].name@ == "default"@
            &&& all@[0].stdin is None
            &&& all@[0].stdout is None
            &&& all@[0].exit == 0
        },
{
    if cases.len() == 0 {
        let mut all: Vec<Case> = Vec::new();
        all.push(Case { name: "default".to_owned(), stdin: None, stdout: None, exit: 0 });
        assert(case_views(all@) =~= seq![default_case()]);
        all
    } else {
        cases
    }
}

/// What a run of a case came to.
#[derive(Clone, Copy, PartialEq, Eq, Structural, Debug)]
pub enum Verdict {
    /// It exited with another status than the case asks for.
    WrongExit { got: i32 },
    /// It did not exit.
    Killed,
    /// It wrote something else than the case asks for.
    WrongStdout,
    /// It is to be run again, to measure how long it takes.
    Again,
    /// It passed.
    Passed,
}

/// Whether two byte strings are the same.
fn same_bytes(a: &Vec<u8>, b: &Vec<u8>) -> (same: bool)
    ensures
        same == (a@ == b@),
{
    if a.len() != b.len() {
        return false;
    }
    let mut i: usize = 0;
    while i < a.len()
        invariant
            i <= a@.len(),
            a@.len() == b@.len(),
            forall|j: int| 0 <= j < i ==> a@[j] == b@[j],
        decreases a@.len() - i,
    {
        if a[i] != b[i] {
            return false;
        }
        i = i + 1;
    }
    assert(a@ =~= b@);
    true
}

/// What a run came to that exited with `code`, if it exited, and wrote `stdout`, `secs` seconds
/// after the first run of the case began. A benchmark is run again until a second has passed.
pub open spec fn verdict(
    case: CaseView,
    code: Option<i32>,
    stdout: Seq<u8>,
    bench: bool,
    secs: u64,
) -> Verdict {
    match code {
        None => Verdict::Killed,
        Some(got) => if got != case.exit {
            Verdict::WrongExit { got }
        } else if case.stdout is Some && case.stdout->Some_0 != stdout {
            Verdict::WrongStdout
        } else if bench && secs == 0 {
            Verdict::Again
        } else {
            Verdict::Passed
        },
    }
}

/// The runs of a case, up to now.
#[derive(Clone, Copy, Debug)]
pub struct Trial {
    /// How many milliseconds a run took, the latest counting half.
    pub average: u128,
}

impl Trial {
    /// No run yet.
    pub fn new() -> (trial: Trial)
        ensures
            trial.average == 0,
    {
        Trial { average: 0 }
    }

    /// Takes in a run: how many milliseconds it took, how it ended and what it wrote.
    pub fn finish_run(
        &mut self,
        case: &Case,
        bench: bool,
        millis: u128,
        code: Option<i32>,
        stdout: &Vec<u8>,
        secs: u64,
    ) -> (came_to: Verdict)
        ensures
            final(self).average == (old(self).average + millis) / 2,
            came_to == verdict(case@, code, stdout@, bench, secs),
            came_to == Verdict::Killed <==> code is None,
            came_to is WrongExit <==> code is Some && code != Some(case.exit),
            came_to == Verdict::WrongStdout <==> code == Some(case.exit) && case.stdout is Some
                && case.stdout->Some_0@ != stdout@,
            came_to == Verdict::Again ==> bench && secs == 0,
            came_to == Verdict::Passed ==> !(bench && secs == 0),
    {
        let old_average = self.average;
        self.average = old_average / 2 + millis / 2 + (old_average % 2 + millis % 2) / 2;
        match code {
            None => Verdict::Killed,
            Some(got) => {
                if got != case.exit {
                    return Verdict::WrongExit { got };
                }
                if let Some(expected) = &case.stdout {
                    if !same_bytes(stdout, expected) {
                        return Verdict::WrongStdout;
                    }
                }
                if bench && secs == 0 {
                    Verdict::Again
                } else {
                    Verdict::Passed
                }
            },
        }
    }
}

/// A run of a case that passes has exited with the status, and written the bytes, that the case
/// asks for; and whether it is a benchmark or not makes no other difference than to be run again.
pub proof fn law_passing(case: CaseView, code: Option<i32>, stdout: Seq<u8>, bench: bool, secs: u64)
    ensures
        verdict(case, code, stdout, bench, secs) == Verdict::Passed || verdict(
            case,
            code,
            stdout,
            bench,
            secs,
        ) == Verdict::Again <==> code == Some(case.exit) && (case.stdout is None || case.stdout
            == Some(stdout)),
        verdict(case, code, stdout, bench, secs) == Verdict::Again ==> bench && secs == 0,
{
}

/// A file holds its bytes, and one that is not there holds none.
pub proof fn law_bytes(file: Option<Vec<u8>>)
    ensures
        file is None <==> bytes(file) is None,
        file matches Some(f) ==> bytes(file) == Some(f@),
{
}

/// What each verdict says of the run.
pub proof fn law_verdicts(
    case: CaseView,
    code: Option<i32>,
    stdout: Seq<u8>,
    bench: bool,
    secs: u64,
    got: i32,
)
    ensures
        ({
            let v = verdict(case, code, stdout, bench, secs);
            let right = code == Some(case.exit);
            let wrote = case.stdout is None || case.stdout == Some(stdout);
            &&& v == Verdict::Killed <==> code is None
            &&& v == (Verdict::WrongExit { got }) <==> code == Some(got) && got != case.exit
            &&& v == Verdict::WrongStdout <==> right && !wrote
            &&& v == Verdict::Again <==> right && wrote && bench && secs == 0
            &&& v == Verdict::Passed <==> right && wrote && !(bench && secs == 0)
        }),
{
}

/// A number in decimal, with or without a sign, asks for that exit status, if an exit status can
/// be that. A number that is too great asks for success.
pub proof fn law_exit_of_number(n: nat)
    ensures
        exit_value(decimal(n)) == if n <= 2147483647 {
            n as int
        } else {
            0
        },
        exit_value(seq!['+'] + decimal(n)) == if n <= 2147483647 {
            n as int
        } else {
            0
        },
        exit_value(seq!['-'] + decimal(n)) == if n <= 2147483648 {
            -(n as int)
        } else {
            0
        },
{
    let t = decimal(n);
    lemma_decimal_digits(n);
    let plus = seq!['+'] + t;
    let minus = seq!['-'] + t;
    assert(plus.skip(1) =~= t);
    assert(minus.skip(1) =~= t);
    lemma_number(plus, 1);
    lemma_number(minus, 1);
}

proof fn lemma_decimal_digits(n: nat)
    ensures
        is_digits(decimal(n)),
        digits_value(decimal(n)) == n,
    decreases n,
{
    let t = decimal(n);
    if n >= 10 {
        lemma_decimal_digits(n / 10);
        assert(t.drop_last() =~= decimal(n / 10));
        assert forall|i: int| 0 <= i < t.len() implies '0' <= #[trigger] t[i] <= '9' by {
            if i < t.len() - 1 {
                assert(t[i] == decimal(n / 10)[i]);
            }
        }
    } else {
        assert(t.drop_last() =~= Seq::<char>::empty());
        assert(digits_value(t.drop_last()) == 0);
    }
}

/// Zeros before a number change nothing.
pub proof fn law_leading_zero(t: Text)
    requires
        is_digits(t),
    ensures
        is_digits(seq!['0'] + t),
        digits_value(seq!['0'] + t) == digits_value(t),
        exit_value(seq!['0'] + t) == exit_value(t),
    decreases t.len(),
{
    let more = seq!['0'] + t;
    assert forall|i: int| 0 <= i < more.len() implies '0' <= #[trigger] more[i] <= '9' by {
        if i > 0 {
            assert(more[i] == t[i - 1]);
        }
    }
    assert(more.drop_last() =~= seq!['0'] + t.drop_last());
    if t.len() > 1 {
        let front = t.drop_last();
        assert forall|i: int| 0 <= i < front.len() implies '0' <= #[trigger] front[i] <= '9' by {
            assert(front[i] == t[i]);
        }
        law_leading_zero(front);
    } else {
        assert(t.drop_last() =~= Seq::<char>::empty());
        assert(seq!['0'] + t.drop_last() =~= seq!['0']);
        assert(seq!['0'].drop_last() =~= Seq::<char>::empty());
        reveal_with_fuel(digits_value, 3);
    }
}

/// A text asks for success if it is empty, if it is a sign alone, or if it holds anything but
/// digits behind its sign.
pub proof fn law_exit_of_other(t: Text, i: int)
    ensures
        t.len() == 0 ==> exit_value(t) == 0,
        t.len() == 1 && !('0' <= t[0] <= '9') ==> exit_value(t) == 0,
        0 < i < t.len() && !('0' <= t[i] <= '9') ==> exit_value(t) == 0,
        t.len() > 0 && !('0' <= t[0] <= '9') && t[0] != '+' && t[0] != '-' ==> exit_value(t) == 0,
{
    if 0 < i < t.len() && !('0' <= t[i] <= '9') {
        assert(t.skip(1)[i - 1] == t[i]);
    }
}

} // verus!
