//! Which artifacts of a project a subcommand is about.

use vstd::prelude::*;
use crate::text::{Text, equal};

verus! {

/// What an artifact is built for.
#[derive(Clone, Copy, PartialEq, Eq, Structural, Debug)]
pub enum ArtifactType {
    Exe,
    Test,
    Other,
}

/// Something that a project builds.
#[derive(Debug)]
pub struct Artifact {
    pub name: String,
    /// The module that it starts in.
    pub main: String,
    pub typ: ArtifactType,
}

/// What an [`Artifact`] holds.
pub struct ArtifactView {
    pub name: Text,
    pub main: Text,
    pub typ: ArtifactType,
}

impl View for Artifact {
    type V = ArtifactView;

    open spec fn view(&self) -> ArtifactView {
        ArtifactView { name: self.name@, main: self.main@, typ: self.typ }
    }
}

impl Clone for Artifact {
    fn clone(&self) -> (copy: Artifact)
        ensures
            copy@ == self@,
    {
        Artifact { name: self.name.clone(), main: self.main.clone(), typ: self.typ }
    }
}

/// What each artifact of a sequence holds.
pub open spec fn artifact_views(artifacts: Seq<Artifact>) -> Seq<ArtifactView> {
    Seq::new(artifacts.len(), |i: int| artifacts[i]@)
}

/// Which artifacts are wanted.
enum Wanted<'a> {
    /// Every program.
    Exes,
    /// Every test.
    Tests,
    /// The tests of that name, with or without `tests::` before it.
    TestsCalled(&'a str),
    /// The tests of exactly that name.
    TestsNamed(&'a str),
}

/// Whether an artifact is one of those that are wanted.
spec fn is_wanted(a: ArtifactView, wanted: Wanted) -> bool {
    match wanted {
        Wanted::Exes => a.typ == ArtifactType::Exe,
        Wanted::Tests => a.typ == ArtifactType::Test,
        Wanted::TestsCalled(name) => is_called_test(a, Some(name@)),
        Wanted::TestsNamed(name) => is_named_test(a, Some(name@)),
    }
}

/// Whether an artifact is a test that goes by that name, if one is given. `tests::` before the
/// name may be left out.
pub open spec fn is_called_test(a: ArtifactView, testname: Option<Text>) -> bool {
    a.typ == ArtifactType::Test && match testname {
        Some(name) => a.name == name || a.name == "tests::"@ + name,
        None => true,
    }
}

/// Whether an artifact is a test of exactly that name, if one is given.
pub open spec fn is_named_test(a: ArtifactView, testname: Option<Text>) -> bool {
    a.typ == ArtifactType::Test && match testname {
        Some(name) => a.name == name,
        None => true,
    }
}

/// The name that was given, if any.
pub open spec fn given(testname: Option<&str>) -> Option<Text> {
    match testname {
        Some(name) => Some(name@),
        None => None,
    }
}

fn wants(wanted: &Wanted, a: &Artifact) -> (yes: bool)
    ensures
        yes == is_wanted(a@, *wanted),
{
    match wanted {
        Wanted::Exes => a.typ == ArtifactType::Exe,
        Wanted::Tests => a.typ == ArtifactType::Test,
        Wanted::TestsCalled(name) => {
            let mut full = "tests::".to_owned();
            full.append(name);
            a.typ == ArtifactType::Test && (equal(a.name.as_str(), name) || equal(
                a.name.as_str(),
                full.as_str(),
            ))
        },
        Wanted::TestsNamed(name) => a.typ == ArtifactType::Test && equal(a.name.as_str(), name),
    }
}

fn filtered(artifacts: &Vec<Artifact>, wanted: &Wanted) -> (found: Vec<Artifact>)
    ensures
        artifact_views(found@) == artifact_views(artifacts@).filter(
            |a: ArtifactView| is_wanted(a, *wanted),
        ),
{
    let ghost all = artifact_views(artifacts@);
    let ghost yes = |a: ArtifactView| is_wanted(a, *wanted);
    let mut found: Vec<Artifact> = Vec::new();
    let mut i: usize = 0;
    assert(all.take(0).filter(yes) =~= artifact_views(found@)) by {
        reveal(Seq::filter);
    }
    while i < artifacts.len()
        invariant
            i <= artifacts@.len(),
            all == artifact_views(artifacts@),
            yes == (|a: ArtifactView| is_wanted(a, *wanted)),
            artifact_views(found@) == all.take(i as int).filter(yes),
        decreases artifacts@.len() - i,
    {
        let ghost before = artifact_views(found@);
        proof {
            assert(all.take(i + 1) =~= all.take(i as int).push(all[i as int]));
            all.take(i as int).lemma_filter_push(all[i as int], yes);
        }
        if wants(wanted, &artifacts[i]) {
            found.push(artifacts[i].clone());
            assert(artifact_views(found@) =~= before.push(all[i as int]));
        }
        i = i + 1;
    }
    assert(all.take(i as int) =~= all);
    found
}

/// The tests to run: all of them, or those that go by the name that was given.
pub fn tests_to_run(artifacts: &Vec<Artifact>, testname: Option<&str>) -> (tests: Vec<Artifact>)
    ensures
        artifact_views(tests@) == artifact_views(artifacts@).filter(
            |a: ArtifactView| is_called_test(a, given(testname)),
        ),
{
    let wanted = match testname {
        Some(name) => Wanted::TestsCalled(name),
        None => Wanted::Tests,
    };
    assert((|a: ArtifactView| is_wanted(a, wanted)) =~= (|a: ArtifactView|
        is_called_test(a, given(testname))));
    filtered(artifacts, &wanted)
}

/// Why there is no program to run.
#[derive(Clone, Copy, PartialEq, Eq, Structural, Debug)]
pub enum NoExe {
    /// The project builds none.
    Missing,
    /// The project builds several.
    Several,
}

/// The programs among the artifacts.
pub open spec fn exes(artifacts: Seq<ArtifactView>) -> Seq<ArtifactView> {
    artifacts.filter(|a: ArtifactView| a.typ == ArtifactType::Exe)
}

/// The program to run: the only one that the project builds.
pub fn exe_to_run(artifacts: &Vec<Artifact>) -> (exe: Result<Artifact, NoExe>)
    ensures
        ({
            let all = exes(artifact_views(artifacts@));
            match exe {
                Ok(exe) => all == seq![exe@],
                Err(NoExe::Missing) => all.len() == 0,
                Err(NoExe::Several) => all.len() > 1,
            }
        }),
{
    let wanted = Wanted::Exes;
    let found = filtered(artifacts, &wanted);
    proof {
        assert((|a: ArtifactView| is_wanted(a, wanted)) =~= (|a: ArtifactView|
            a.typ == ArtifactType::Exe));
        assert(artifact_views(found@).len() == found@.len());
    }
    if found.len() < 1 {
        return Err(NoExe::Missing);
    }
    if found.len() > 1 {
        return Err(NoExe::Several);
    }
    let exe = found[0].clone();
    assert(artifact_views(found@) =~= seq![exe@]);
    Ok(exe)
}

/// Why there is no test to fuzz.
#[derive(Debug)]
pub enum NoFuzz {
    /// The project has no tests.
    NoTests,
    /// The project has no test of the name that was given.
    NoSuchTest,
    /// There are several, and one has to be named.
    Several(Vec<Artifact>),
}

/// The test to fuzz: the only one, or the one of the name that was given.
pub fn test_to_fuzz(artifacts: &Vec<Artifact>, testname: Option<&str>) -> (test: Result<
    Artifact,
    NoFuzz,
>)
    ensures
        ({
            let all = artifact_views(artifacts@).filter(
                |a: ArtifactView| is_named_test(a, given(testname)),
            );
            match test {
                Ok(test) => all == seq![test@],
                Err(NoFuzz::NoTests) => all.len() == 0 && testname is None,
                Err(NoFuzz::NoSuchTest) => all.len() == 0 && testname is Some,
                Err(NoFuzz::Several(tests)) => all.len() > 1 && artifact_views(tests@) == all,
            }
        }),
{
    let wanted = match testname {
        Some(name) => Wanted::TestsNamed(name),
        None => Wanted::Tests,
    };
    let found = filtered(artifacts, &wanted);
    proof {
        assert((|a: ArtifactView| is_wanted(a, wanted)) =~= (|a: ArtifactView|
            is_named_test(a, given(testname))));
        assert(artifact_views(found@).len() == found@.len());
    }
    if found.len() == 0 {
        return match testname {
            Some(_) => Err(NoFuzz::NoSuchTest),
            None => Err(NoFuzz::NoTests),
        };
    }
    if found.len() > 1 {
        return Err(NoFuzz::Several(found));
    }
    let test = found[0].clone();
    assert(artifact_views(found@) =~= seq![test@]);
    Ok(test)
}

/// A name that is given is the one that is looked for.
pub proof fn law_given(testname: Option<&str>)
    ensures
        testname is None <==> given(testname) is None,
        testname matches Some(name) ==> given(testname) == Some(name@),
{
}

/// Only tests are run as tests: all of them, or those of the name that was given, before which
/// `tests::` may be left out. To be fuzzed, a test has to be given its full name.
pub proof fn law_test_names(a: ArtifactView, name: Text)
    ensures
        is_called_test(a, None) <==> a.typ == ArtifactType::Test,
        is_named_test(a, None) <==> a.typ == ArtifactType::Test,
        is_called_test(a, Some(name)) <==> a.typ == ArtifactType::Test && (a.name == name || a.name
            == "tests::"@ + name),
        is_named_test(a, Some(name)) <==> a.typ == ArtifactType::Test && a.name == name,
        is_called_test(a, Some(name)) <==> is_named_test(a, Some(name)) || is_named_test(
            a,
            Some("tests::"@ + name),
        ),
{
}

/// The programs of a project are all that it builds as such, in the same order.
pub proof fn law_programs(artifacts: Seq<ArtifactView>, a: ArtifactView)
    ensures
        exes(Seq::empty()).len() == 0,
        exes(artifacts.push(a)) == if a.typ == ArtifactType::Exe {
            exes(artifacts).push(a)
        } else {
            exes(artifacts)
        },
{
    reveal(Seq::filter);
    artifacts.lemma_filter_push(a, |a: ArtifactView| a.typ == ArtifactType::Exe);
}

} // verus!
