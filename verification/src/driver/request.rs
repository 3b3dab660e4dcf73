//! What a subcommand asks the compiler to build, and where the result lies.

use vstd::prelude::*;
use crate::text::{Text, equal};

verus! {

/// Exit status of a program that must not be built, or that cannot be run.
pub const EXIT_REFUSED: i32 = 9;

/// Exit status of a test that failed.
pub const EXIT_TEST_FAILED: i32 = 10;

/// Exit status of a fuzzer that has nothing to run.
pub const EXIT_NOTHING_TO_FUZZ: i32 = 1;

/// How the result of a build is meant to be used.
#[derive(Clone, Copy, PartialEq, Eq, Structural, Debug)]
pub enum Stage {
    Test,
    Release,
    Debug,
    Fuzz,
}

/// The directory name of a stage.
pub open spec fn stage_name(stage: Stage) -> Text {
    match stage {
        Stage::Test => "test"@,
        Stage::Release => "release"@,
        Stage::Debug => "debug"@,
        Stage::Fuzz => "fuzz"@,
    }
}

impl Stage {
    /// The directory name of the stage.
    pub fn name(self) -> (name: &'static str)
        ensures
            name@ == stage_name(self),
    {
        match self {
            Stage::Test => "test",
            Stage::Release => "release",
            Stage::Debug => "debug",
            Stage::Fuzz => "fuzz",
        }
    }

    /// The stage that the flags ask for. `release` goes before `debug`; without either it is the
    /// stage of tests.
    pub fn chosen(release: bool, debug: bool) -> (stage: Stage)
        ensures
            stage == chosen_stage(release, debug),
            stage == Stage::Release <==> release,
            stage == Stage::Debug <==> debug && !release,
            stage == Stage::Test <==> !debug && !release,
    {
        if release {
            Stage::Release
        } else if debug {
            Stage::Debug
        } else {
            Stage::Test
        }
    }
}

/// The stage that the flags ask for.
pub open spec fn chosen_stage(release: bool, debug: bool) -> Stage {
    if release {
        Stage::Release
    } else if debug {
        Stage::Debug
    } else {
        Stage::Test
    }
}

/// A subcommand.
#[derive(Clone, Copy, PartialEq, Eq, Structural, Debug)]
pub enum Action {
    Init,
    Clean,
    Test,
    Bench,
    Run,
    Fuzz,
    Check,
    Build,
    Export,
    /// No subcommand was given.
    Plain,
}

/// How a subcommand is written. No subcommand is written as nothing.
pub open spec fn action_name(action: Action) -> Text {
    match action {
        Action::Init => "init"@,
        Action::Clean => "clean"@,
        Action::Test => "test"@,
        Action::Bench => "bench"@,
        Action::Run => "run"@,
        Action::Fuzz => "fuzz"@,
        Action::Check => "check"@,
        Action::Build => "build"@,
        Action::Export => "export"@,
        Action::Plain => ""@,
    }
}

impl Action {
    /// The subcommand that is written as `name`, if there is one.
    pub fn named(name: &str) -> (action: Option<Action>)
        ensures
            match action {
                Some(action) => action_name(action) == name@,
                None => forall|action: Action| #[trigger] action_name(action) != name@,
            },
    {
        if equal(name, "init") {
            Some(Action::Init)
        } else if equal(name, "clean") {
            Some(Action::Clean)
        } else if equal(name, "test") {
            Some(Action::Test)
        } else if equal(name, "bench") {
            Some(Action::Bench)
        } else if equal(name, "run") {
            Some(Action::Run)
        } else if equal(name, "fuzz") {
            Some(Action::Fuzz)
        } else if equal(name, "check") {
            Some(Action::Check)
        } else if equal(name, "build") {
            Some(Action::Build)
        } else if equal(name, "export") {
            Some(Action::Export)
        } else if equal(name, "") {
            Some(Action::Plain)
        } else {
            None
        }
    }
}

/// What was given along with a subcommand.
#[derive(Debug)]
pub struct Options {
    pub variant: Option<String>,
    pub release: bool,
    pub debug: bool,
    pub slow: bool,
}

/// What the compiler is asked for.
#[derive(Debug)]
pub struct BuildRequest {
    /// Build the tests too.
    pub tests: bool,
    /// Stop before the code is compiled.
    pub check: bool,
    pub variant: String,
    pub stage: Stage,
    /// Build one thing after the other.
    pub slow: bool,
}

/// What a [`BuildRequest`] holds.
pub struct BuildRequestView {
    pub tests: bool,
    pub check: bool,
    pub variant: Text,
    pub stage: Stage,
    pub slow: bool,
}

impl View for BuildRequest {
    type V = BuildRequestView;

    open spec fn view(&self) -> BuildRequestView {
        BuildRequestView {
            tests: self.tests,
            check: self.check,
            variant: self.variant@,
            stage: self.stage,
            slow: self.slow,
        }
    }
}

/// The variant that was given, or the one that is built by default.
pub open spec fn chosen_variant(options: Options) -> Text {
    match options.variant {
        Some(variant) => variant@,
        None => "default"@,
    }
}

/// What a subcommand has built, if anything.
pub open spec fn requested(action: Action, options: Options) -> Option<BuildRequestView> {
    let variant = chosen_variant(options);
    let chosen = chosen_stage(options.release, options.debug);
    match action {
        Action::Init | Action::Clean => None,
        Action::Test | Action::Bench => Some(
            BuildRequestView {
                tests: true,
                check: false,
                variant,
                stage: Stage::Test,
                slow: false,
            },
        ),
        Action::Run => Some(
            BuildRequestView { tests: false, check: false, variant, stage: chosen, slow: false },
        ),
        Action::Fuzz => Some(
            BuildRequestView {
                tests: true,
                check: false,
                variant,
                stage: Stage::Fuzz,
                slow: false,
            },
        ),
        Action::Check => Some(
            BuildRequestView {
                tests: false,
                check: true,
                variant,
                stage: Stage::Test,
                slow: false,
            },
        ),
        Action::Build => Some(
            BuildRequestView {
                tests: true,
                check: false,
                variant,
                stage: chosen,
                slow: options.slow,
            },
        ),
        Action::Export => Some(
            BuildRequestView {
                tests: false,
                check: true,
                variant,
                stage: chosen,
                slow: options.slow,
            },
        ),
        Action::Plain => Some(
            BuildRequestView {
                tests: false,
                check: false,
                variant: "default"@,
                stage: Stage::Test,
                slow: false,
            },
        ),
    }
}

/// What a subcommand has built, if anything.
pub fn request(action: Action, options: &Options) -> (wanted: Option<BuildRequest>)
    ensures
        match wanted {
            Some(wanted) => requested(action, *options) == Some(wanted@),
            None => requested(action, *options) is None,
        },
        wanted is None <==> action == Action::Init || action == Action::Clean,
        wanted matches Some(w) ==> {
            let free = action == Action::Run || action == Action::Build || action
                == Action::Export;
            &&& w.tests <==> action == Action::Test || action == Action::Bench || action
                == Action::Fuzz || action == Action::Build
            &&& w.check <==> action == Action::Check || action == Action::Export
            &&& w.stage == Stage::Fuzz <==> action == Action::Fuzz
            &&& w.stage == Stage::Release <==> free && options.release
            &&& w.stage == Stage::Debug <==> free && options.debug && !options.release
            &&& w.slow <==> options.slow && (action == Action::Build || action == Action::Export)
            &&& w.variant@ == if action == Action::Plain || options.variant is None {
                "default"@
            } else {
                options.variant->Some_0@
            }
        },
{
    let variant = match &options.variant {
        Some(variant) => variant.clone(),
        None => "default".to_owned(),
    };
    let chosen = Stage::chosen(options.release, options.debug);
    let slow = options.slow;
    match action {
        Action::Init | Action::Clean => None,
        Action::Test | Action::Bench => Some(
            BuildRequest { tests: true, check: false, variant, stage: Stage::Test, slow: false },
        ),
        Action::Run => Some(
            BuildRequest { tests: false, check: false, variant, stage: chosen, slow: false },
        ),
        Action::Fuzz => Some(
            BuildRequest { tests: true, check: false, variant, stage: Stage::Fuzz, slow: false },
        ),
        Action::Check => Some(
            BuildRequest { tests: false, check: true, variant, stage: Stage::Test, slow: false },
        ),
        Action::Build => Some(
            BuildRequest { tests: true, check: false, variant, stage: chosen, slow },
        ),
        Action::Export => Some(
            BuildRequest { tests: false, check: true, variant, stage: chosen, slow },
        ),
        Action::Plain => Some(
            BuildRequest {
                tests: false,
                check: false,
                variant: "default".to_owned(),
                stage: Stage::Test,
                slow: false,
            },
        ),
    }
}

/// The directory that a stage is built in.
pub open spec fn target_dir(stage: Stage) -> Text {
    "./target/"@ + stage_name(stage)
}

/// The program that an artifact of that name is built as.
pub fn program_path(stage: Stage, name: &str) -> (path: String)
    ensures
        path@ == target_dir(stage) + "/bin/"@ + name@,
{
    let mut path = "./target/".to_owned();
    path.append(stage.name());
    path.append("/bin/");
    path.append(name);
    path
}

/// The directory with the cases of a test, by the module that the test starts in.
pub fn cases_dir(stage: Stage, main: &str) -> (path: String)
    ensures
        path@ == target_dir(stage) + "/testcases/::"@ + main@,
{
    let mut path = "./target/".to_owned();
    path.append(stage.name());
    path.append("/testcases/::");
    path.append(main);
    path
}

/// The directory that the fuzzer writes to, by the module that the test starts in.
pub fn fuzz_dir(stage: Stage, main: &str) -> (path: String)
    ensures
        path@ == target_dir(stage) + "/"@ + main@,
{
    let mut path = "./target/".to_owned();
    path.append(stage.name());
    path.append("/");
    path.append(main);
    path
}

/// With `build`, `export` and `run` the flags choose the stage: `--release` goes before `--debug`,
/// and without either it is the stage of tests. No other subcommand heeds them.
pub proof fn law_requested_stage(action: Action, options: Options)
    ensures
        requested(action, options) matches Some(w) ==> {
            let free = action == Action::Run || action == Action::Build || action
                == Action::Export;
            &&& w.stage == Stage::Release <==> free && options.release
            &&& w.stage == Stage::Debug <==> free && options.debug && !options.release
            &&& w.stage == Stage::Fuzz <==> action == Action::Fuzz
            &&& w.stage == Stage::Test <==> action != Action::Fuzz && !(free && (options.release
                || options.debug))
        },
{
}

/// What is built beyond the programs: only `init` and `clean` build nothing, tests are built where
/// they are run and with `build`, and `check` and `export` compile nothing. The variant is the one
/// that was given, and one thing is built after the other where that was asked for.
pub proof fn law_requested_build(action: Action, options: Options)
    ensures
        requested(action, options) is None <==> action == Action::Init || action == Action::Clean,
        requested(action, options) matches Some(w) ==> {
            &&& w.tests <==> action == Action::Test || action == Action::Bench || action
                == Action::Fuzz || action == Action::Build
            &&& w.check <==> action == Action::Check || action == Action::Export
            &&& w.slow <==> options.slow && (action == Action::Build || action == Action::Export)
            &&& options.variant is None || action == Action::Plain ==> w.variant == "default"@
            &&& action != Action::Plain ==> (options.variant matches Some(v) ==> w.variant == v@)
        },
{
}

/// Where each stage is built, and under which name.
pub proof fn law_target_dirs(stage: Stage)
    ensures
        stage == Stage::Test ==> target_dir(stage) == "./target/"@ + "test"@,
        stage == Stage::Release ==> target_dir(stage) == "./target/"@ + "release"@,
        stage == Stage::Debug ==> target_dir(stage) == "./target/"@ + "debug"@,
        stage == Stage::Fuzz ==> target_dir(stage) == "./target/"@ + "fuzz"@,
        target_dir(stage) == "./target/"@ + stage_name(stage),
{
}

/// No two stages are built in the same place.
pub proof fn law_stage_names_differ(a: Stage, b: Stage)
    requires
        stage_name(a) == stage_name(b),
    ensures
        a == b,
{
    reveal_strlit("test");
    reveal_strlit("release");
    reveal_strlit("debug");
    reveal_strlit("fuzz");
    assert("test"@.len() == 4 && "test"@[0] == 't');
    assert("release"@.len() == 7);
    assert("debug"@.len() == 5);
    assert("fuzz"@.len() == 4 && "fuzz"@[0] == 'f');
}

/// How each subcommand is written.
pub proof fn law_action_names(action: Action)
    ensures
        action_name(action) == "init"@ <==> action == Action::Init,
        action_name(action) == "clean"@ <==> action == Action::Clean,
        action_name(action) == "test"@ <==> action == Action::Test,
        action_name(action) == "bench"@ <==> action == Action::Bench,
        action_name(action) == "run"@ <==> action == Action::Run,
        action_name(action) == "fuzz"@ <==> action == Action::Fuzz,
        action_name(action) == "check"@ <==> action == Action::Check,
        action_name(action) == "build"@ <==> action == Action::Build,
        action_name(action) == "export"@ <==> action == Action::Export,
        action_name(action) == ""@ <==> action == Action::Plain,
{
    if action_name(action) == "init"@ {
        law_action_names_differ(action, Action::Init);
    }
    if action_name(action) == "clean"@ {
        law_action_names_differ(action, Action::Clean);
    }
    if action_name(action) == "test"@ {
        law_action_names_differ(action, Action::Test);
    }
    if action_name(action) == "bench"@ {
        law_action_names_differ(action, Action::Bench);
    }
    if action_name(action) == "run"@ {
        law_action_names_differ(action, Action::Run);
    }
    if action_name(action) == "fuzz"@ {
        law_action_names_differ(action, Action::Fuzz);
    }
    if action_name(action) == "check"@ {
        law_action_names_differ(action, Action::Check);
    }
    if action_name(action) == "build"@ {
        law_action_names_differ(action, Action::Build);
    }
    if action_name(action) == "export"@ {
        law_action_names_differ(action, Action::Export);
    }
    if action_name(action) == ""@ {
        law_action_names_differ(action, Action::Plain);
    }
}

/// Each subcommand is written in one way, and no two are written alike.
pub proof fn law_action_names_differ(a: Action, b: Action)
    requires
        action_name(a) == action_name(b),
    ensures
        a == b,
{
    reveal_strlit("init");
    reveal_strlit("clean");
    reveal_strlit("test");
    reveal_strlit("bench");
    reveal_strlit("run");
    reveal_strlit("fuzz");
    reveal_strlit("check");
    reveal_strlit("build");
    reveal_strlit("export");
    reveal_strlit("");
    assert("init"@.len() == 4 && "init"@[0] == 'i' && "init"@[1] == 'n');
    assert("clean"@.len() == 5 && "clean"@[0] == 'c' && "clean"@[1] == 'l');
    assert("test"@.len() == 4 && "test"@[0] == 't' && "test"@[1] == 'e');
    assert("bench"@.len() == 5 && "bench"@[0] == 'b' && "bench"@[1] == 'e');
    assert("run"@.len() == 3 && "run"@[0] == 'r' && "run"@[1] == 'u');
    assert("fuzz"@.len() == 4 && "fuzz"@[0] == 'f' && "fuzz"@[1] == 'u');
    assert("check"@.len() == 5 && "check"@[0] == 'c' && "check"@[1] == 'h');
    assert("build"@.len() == 5 && "build"@[0] == 'b' && "build"@[1] == 'u');
    assert("export"@.len() == 6 && "export"@[0] == 'e' && "export"@[1] == 'x');
    assert(""@.len() == 0);
}

} // verus!
