//! The decisions of the command line.

use zz::driver::artifacts::{
    Artifact, ArtifactType, NoExe, NoFuzz, exe_to_run, test_to_fuzz, tests_to_run,
};
use zz::driver::request::{
    Action, EXIT_NOTHING_TO_FUZZ, EXIT_REFUSED, EXIT_TEST_FAILED, Options, Stage, cases_dir,
    fuzz_dir, program_path, request,
};
use zz::driver::trial::{Case, Trial, Verdict, case_of, cases_to_run, parse_exit};

fn options(variant: Option<&str>, release: bool, debug: bool, slow: bool) -> Options {
    Options { variant: variant.map(|v| v.to_string()), release, debug, slow }
}

#[test]
fn subcommands_are_told_by_their_names() {
    let names = [
        ("init", Action::Init),
        ("clean", Action::Clean),
        ("test", Action::Test),
        ("bench", Action::Bench),
        ("run", Action::Run),
        ("fuzz", Action::Fuzz),
        ("check", Action::Check),
        ("build", Action::Build),
        ("export", Action::Export),
        ("", Action::Plain),
    ];
    for (name, action) in names {
        assert_eq!(Action::named(name), Some(action));
    }
    assert_eq!(Action::named("tests"), None);
    assert_eq!(Action::named("Test"), None);
}

fn asked(action: Action, o: &Options) -> (bool, bool, String, Stage, bool) {
    let r = request(action, o).unwrap();
    (r.tests, r.check, r.variant, r.stage, r.slow)
}

#[test]
fn what_each_subcommand_builds() {
    let all = options(Some("esp32"), true, true, true);
    let v = "esp32".to_string();
    assert!(request(Action::Init, &all).is_none());
    assert!(request(Action::Clean, &all).is_none());
    assert_eq!(asked(Action::Test, &all), (true, false, v.clone(), Stage::Test, false));
    assert_eq!(asked(Action::Bench, &all), (true, false, v.clone(), Stage::Test, false));
    assert_eq!(asked(Action::Run, &all), (false, false, v.clone(), Stage::Release, false));
    assert_eq!(asked(Action::Fuzz, &all), (true, false, v.clone(), Stage::Fuzz, false));
    assert_eq!(asked(Action::Check, &all), (false, true, v.clone(), Stage::Test, false));
    assert_eq!(asked(Action::Build, &all), (true, false, v.clone(), Stage::Release, true));
    assert_eq!(asked(Action::Export, &all), (false, true, v, Stage::Release, true));
    let d = "default".to_string();
    assert_eq!(asked(Action::Plain, &all), (false, false, d.clone(), Stage::Test, false));
    let none = options(None, false, false, false);
    assert_eq!(asked(Action::Build, &none), (true, false, d, Stage::Test, false));
}

#[test]
fn stages() {
    assert_eq!(Stage::chosen(true, true), Stage::Release);
    assert_eq!(Stage::chosen(false, true), Stage::Debug);
    assert_eq!(Stage::chosen(false, false), Stage::Test);
    assert_eq!(program_path(Stage::Release, "app"), "./target/release/bin/app");
    assert_eq!(program_path(Stage::Debug, "app"), "./target/debug/bin/app");
    assert_eq!(cases_dir(Stage::Test, "tests::a"), "./target/test/testcases/::tests::a");
    assert_eq!(fuzz_dir(Stage::Fuzz, "tests::a"), "./target/fuzz/tests::a");
    assert_eq!((EXIT_REFUSED, EXIT_TEST_FAILED, EXIT_NOTHING_TO_FUZZ), (9, 10, 1));
}

fn artifact(name: &str, typ: ArtifactType) -> Artifact {
    Artifact { name: name.to_string(), main: format!("main of {}", name), typ }
}

fn names(artifacts: &Vec<Artifact>) -> Vec<&str> {
    artifacts.iter().map(|a| a.name.as_str()).collect()
}

#[test]
fn tests_go_by_their_name_with_or_without_prefix() {
    let all = vec![
        artifact("tests::a", ArtifactType::Test),
        artifact("a", ArtifactType::Exe),
        artifact("a", ArtifactType::Test),
        artifact("tests::b", ArtifactType::Test),
        artifact("a", ArtifactType::Other),
    ];
    assert_eq!(names(&tests_to_run(&all, None)), vec!["tests::a", "a", "tests::b"]);
    assert_eq!(names(&tests_to_run(&all, Some("a"))), vec!["tests::a", "a"]);
    assert_eq!(names(&tests_to_run(&all, Some("tests::b"))), vec!["tests::b"]);
    assert_eq!(names(&tests_to_run(&all, Some("c"))), Vec::<&str>::new());
}

#[test]
fn the_only_program_is_run() {
    let mut all = vec![artifact("t", ArtifactType::Test)];
    assert_eq!(exe_to_run(&all).unwrap_err(), NoExe::Missing);
    all.push(artifact("x", ArtifactType::Exe));
    let exe = exe_to_run(&all).unwrap();
    assert_eq!((exe.name.as_str(), exe.main.as_str()), ("x", "main of x"));
    all.push(artifact("y", ArtifactType::Exe));
    assert_eq!(exe_to_run(&all).unwrap_err(), NoExe::Several);
}

#[test]
fn one_test_is_fuzzed() {
    let exe = artifact("a", ArtifactType::Exe);
    assert!(matches!(test_to_fuzz(&vec![exe.clone()], None), Err(NoFuzz::NoTests)));
    let all = vec![
        exe,
        artifact("tests::a", ArtifactType::Test),
        artifact("tests::b", ArtifactType::Test),
    ];
    assert_eq!(test_to_fuzz(&all, Some("tests::a")).unwrap().main, "main of tests::a");
    assert!(matches!(test_to_fuzz(&all, Some("a")), Err(NoFuzz::NoSuchTest)));
    match test_to_fuzz(&all, None) {
        Err(NoFuzz::Several(list)) => assert_eq!(names(&list), vec!["tests::a", "tests::b"]),
        _ => panic!("one of several was chosen"),
    }
}

#[test]
fn exit_statuses_are_read_like_integers() {
    let texts = [
        "", "0", "7", "-7", "+7", "007", "-", "+", "--1", "+-1", "7\n", " 7", "7a", "1.0",
        "2147483647", "2147483648", "-2147483648", "-2147483649", "99999999999999999999",
        "-0", "\u{0661}",
    ];
    for t in texts {
        assert_eq!(parse_exit(t), t.parse::<i32>().unwrap_or(0), "{:?}", t);
    }
    assert_eq!(parse_exit("-2147483648"), i32::MIN);
    assert_eq!(parse_exit("12"), 12);
}

#[test]
fn cases_of_a_test() {
    let case = case_of("one".to_string(), Some(vec![1]), None, Some("3"));
    assert_eq!((case.name.as_str(), case.exit), ("one", 3));
    assert_eq!((case.stdin.clone(), case.stdout.clone()), (Some(vec![1]), None));
    assert_eq!(case_of("two".to_string(), None, None, None).exit, 0);
    let kept = cases_to_run(vec![case]);
    assert_eq!((kept.len(), kept[0].name.as_str()), (1, "one"));
    let made = cases_to_run(vec![]);
    assert_eq!(made.len(), 1);
    assert_eq!((made[0].name.as_str(), made[0].exit), ("default", 0));
    assert!(made[0].stdin.is_none() && made[0].stdout.is_none());
}

fn case(stdout: Option<Vec<u8>>, exit: i32) -> Case {
    Case { name: "c".to_string(), stdin: None, stdout, exit }
}

#[test]
fn verdicts() {
    let mut t = Trial::new();
    let c = case(Some(vec![1, 2]), 3);
    assert_eq!(t.finish_run(&c, false, 0, None, &vec![1, 2], 0), Verdict::Killed);
    assert_eq!(t.finish_run(&c, false, 0, Some(0), &vec![], 0), Verdict::WrongExit { got: 0 });
    assert_eq!(t.finish_run(&c, false, 0, Some(3), &vec![1], 0), Verdict::WrongStdout);
    assert_eq!(t.finish_run(&c, false, 0, Some(3), &vec![1, 3], 0), Verdict::WrongStdout);
    assert_eq!(t.finish_run(&c, false, 0, Some(3), &vec![1, 2], 0), Verdict::Passed);
    assert_eq!(t.finish_run(&c, true, 0, Some(3), &vec![1, 2], 0), Verdict::Again);
    assert_eq!(t.finish_run(&c, true, 0, Some(3), &vec![1, 2], 1), Verdict::Passed);
    let any = case(None, 0);
    assert_eq!(t.finish_run(&any, false, 0, Some(0), &vec![9], 0), Verdict::Passed);
}

#[test]
fn the_latest_run_counts_half() {
    let c = case(None, 0);
    let mut t = Trial::new();
    t.finish_run(&c, true, 10, Some(0), &vec![], 0);
    assert_eq!(t.average, 5);
    t.finish_run(&c, true, 10, Some(0), &vec![], 0);
    assert_eq!(t.average, 7);
    t.finish_run(&c, true, u128::MAX, Some(0), &vec![], 0);
    assert_eq!(t.average, u128::MAX / 2 + 4);
}
