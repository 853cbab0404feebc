use getpanics::args::{
    choose_target, complaint, exit_code, parse, print_targets, Args, ChooseError, Parsed,
};
use getpanics::db::{get_target, get_targets, Package, Target};
use getpanics::utils::{describe_target_kind, failure_message, TargetKind};
use std::path::PathBuf;

fn strings(args: &[&str]) -> Vec<String> {
    args.iter().map(|a| a.to_string()).collect()
}

fn run_of(args: &[&str]) -> (Option<String>, Option<String>) {
    match parse(&strings(args)) {
        Parsed::Run { directory, crate_filter } => (directory, crate_filter),
        _ => panic!("not a run"),
    }
}

fn target(name: &str, kind: TargetKind) -> Target {
    Target { name: name.to_string(), root: format!("/p/{}/main.rs", name), kind }
}

fn args_with(filter: Option<&str>) -> Args {
    Args { directory: PathBuf::from("/p"), crate_filter: filter.map(|f| f.to_string()) }
}

#[test]
fn no_arguments_ask_for_a_run_on_the_current_directory() {
    assert_eq!(run_of(&[]), (None, None));
}

#[test]
fn one_argument_is_the_directory() {
    assert_eq!(run_of(&["proj"]), (Some("proj".to_string()), None));
}

#[test]
fn crate_flag_takes_the_next_argument() {
    assert_eq!(run_of(&["-c", "core"]), (None, Some("core".to_string())));
    assert_eq!(
        run_of(&["proj", "--crate", "core"]),
        (Some("proj".to_string()), Some("core".to_string()))
    );
    assert_eq!(
        run_of(&["--crate", "core", "proj"]),
        (Some("proj".to_string()), Some("core".to_string()))
    );
}

#[test]
fn crate_flag_without_a_value_is_read_as_a_directory() {
    assert_eq!(run_of(&["-c"]), (Some("-c".to_string()), None));
    assert_eq!(run_of(&["--crate"]), (Some("--crate".to_string()), None));
}

#[test]
fn crate_flag_takes_any_value() {
    assert_eq!(run_of(&["-c", "-h"]), (None, Some("-h".to_string())));
}

#[test]
fn help_and_version_are_recognised() {
    assert!(matches!(parse(&strings(&["-h"])), Parsed::Help));
    assert!(matches!(parse(&strings(&["--help"])), Parsed::Help));
    assert!(matches!(parse(&strings(&["-v"])), Parsed::Version));
    assert!(matches!(parse(&strings(&["--version"])), Parsed::Version));
    assert!(matches!(parse(&strings(&["proj", "-c", "x", "--help"])), Parsed::Help));
    assert!(matches!(parse(&strings(&["-v", "-h"])), Parsed::Version));
}

#[test]
fn second_directory_is_a_usage_error() {
    match parse(&strings(&["a", "b"])) {
        Parsed::MultipleDirectories { first, second } => {
            assert_eq!(first, "a");
            assert_eq!(second, "b");
        }
        _ => panic!("two directories were accepted"),
    }
}

#[test]
fn second_crate_is_a_usage_error() {
    match parse(&strings(&["-c", "a", "--crate", "b"])) {
        Parsed::MultipleCrates { first, second } => {
            assert_eq!(first, "a");
            assert_eq!(second, "b");
        }
        _ => panic!("two crates were accepted"),
    }
}

#[test]
fn first_decisive_argument_wins() {
    assert!(matches!(
        parse(&strings(&["a", "b", "--help"])),
        Parsed::MultipleDirectories { .. }
    ));
    assert!(matches!(parse(&strings(&["a", "--help", "b"])), Parsed::Help));
}

#[test]
fn complaint_names_both_values() {
    assert_eq!(
        complaint(&parse(&strings(&["a", "b"]))),
        Some("multiple directories provided: 'a' and 'b'".to_string())
    );
    assert_eq!(
        complaint(&parse(&strings(&["-c", "x", "-c", "y"]))),
        Some("multiple crates provided: 'x' and 'y'".to_string())
    );
    assert_eq!(complaint(&parse(&strings(&["a"]))), None);
    assert_eq!(complaint(&Parsed::Help), None);
    assert_eq!(complaint(&Parsed::Version), None);
}

#[test]
fn target_kinds_are_described() {
    assert_eq!(describe_target_kind(TargetKind::Bin), "bin");
    assert_eq!(describe_target_kind(TargetKind::Lib { is_proc_macro: false }), "lib");
    assert_eq!(describe_target_kind(TargetKind::Lib { is_proc_macro: true }), "proc-macro");
    assert_eq!(describe_target_kind(TargetKind::Example), "example");
    assert_eq!(describe_target_kind(TargetKind::Test), "test");
    assert_eq!(describe_target_kind(TargetKind::Bench), "bench");
    assert_eq!(describe_target_kind(TargetKind::BuildScript), "build-script");
    assert_eq!(describe_target_kind(TargetKind::Other), "other");
}

#[test]
fn no_target_cannot_be_chosen_from() {
    assert!(matches!(choose_target(&args_with(None), &[]), Err(ChooseError::NoTargets)));
    assert!(matches!(choose_target(&args_with(Some("x")), &[]), Err(ChooseError::NoTargets)));
}

#[test]
fn single_target_is_chosen_whatever_the_filter() {
    let targets = vec![target("alpha", TargetKind::Bin)];
    assert_eq!(choose_target(&args_with(None), &targets).map(|t| t.name.as_str()), Ok("alpha"));
    assert_eq!(
        choose_target(&args_with(Some("zzz")), &targets).map(|t| t.name.as_str()),
        Ok("alpha")
    );
}

#[test]
fn several_targets_need_a_filter() {
    let targets = vec![target("alpha", TargetKind::Bin), target("beta", TargetKind::Test)];
    assert!(matches!(choose_target(&args_with(None), &targets), Err(ChooseError::FilterNeeded)));
}

#[test]
fn filter_picks_the_first_name_that_holds_it() {
    let targets = vec![
        target("alpha", TargetKind::Bin),
        target("beta-core", TargetKind::Lib { is_proc_macro: false }),
        target("core", TargetKind::Test),
    ];
    assert_eq!(
        choose_target(&args_with(Some("core")), &targets).map(|t| t.name.as_str()),
        Ok("beta-core")
    );
    assert_eq!(
        choose_target(&args_with(Some("a")), &targets).map(|t| t.name.as_str()),
        Ok("alpha")
    );
    assert_eq!(
        choose_target(&args_with(Some("")), &targets).map(|t| t.name.as_str()),
        Ok("alpha")
    );
    assert_eq!(choose_target(&args_with(Some("ore")), &targets).map(|t| t.kind), Ok(
        TargetKind::Lib { is_proc_macro: false }
    ));
}

#[test]
fn filter_that_matches_nothing_is_an_error() {
    let targets = vec![target("alpha", TargetKind::Bin), target("beta", TargetKind::Test)];
    assert!(matches!(choose_target(&args_with(Some("gamma")), &targets), Err(ChooseError::NoMatch)));
    assert!(matches!(choose_target(&args_with(Some("Alpha")), &targets), Err(ChooseError::NoMatch)));
}

#[test]
fn targets_are_listed_with_their_kinds() {
    let targets = vec![
        target("alpha", TargetKind::Bin),
        target("beta", TargetKind::Lib { is_proc_macro: true }),
        target("build-script-build", TargetKind::BuildScript),
    ];
    assert_eq!(
        print_targets(&targets),
        "Available crates:\n    alpha (bin)\n    beta (proc-macro)\n    build-script-build (build-script)\n"
    );
    assert_eq!(print_targets(&[]), "Available crates:\n");
}

#[test]
fn targets_of_local_packages_are_collected_in_order() {
    let packages = vec![
        Package {
            is_local: true,
            targets: vec![target("a", TargetKind::Bin), target("b", TargetKind::Test)],
        },
        Package { is_local: false, targets: vec![target("dep", TargetKind::Lib { is_proc_macro: false })] },
        Package { is_local: true, targets: Vec::new() },
        Package { is_local: true, targets: vec![target("c", TargetKind::Example)] },
    ];
    let names: Vec<String> = get_targets(&packages).into_iter().map(|t| t.name).collect();
    assert_eq!(names, strings(&["a", "b", "c"]));
    let roots: Vec<String> = get_targets(&packages).into_iter().map(|t| t.root).collect();
    assert_eq!(roots, strings(&["/p/a/main.rs", "/p/b/main.rs", "/p/c/main.rs"]));
}

#[test]
fn targets_of_no_local_package_are_none() {
    let packages =
        vec![Package { is_local: false, targets: vec![target("dep", TargetKind::Bin)] }];
    assert!(get_targets(&packages).is_empty());
    assert!(get_targets(&[]).is_empty());
}

#[test]
fn target_is_chosen_among_those_of_local_packages() {
    let packages = vec![
        Package { is_local: false, targets: vec![target("core-dep", TargetKind::Bin)] },
        Package {
            is_local: true,
            targets: vec![target("app", TargetKind::Bin), target("app-core", TargetKind::Test)],
        },
    ];
    assert_eq!(get_target(&args_with(Some("core")), &packages).map(|t| t.name), Ok(
        "app-core".to_string()
    ));
    assert!(matches!(get_target(&args_with(None), &packages), Err(ChooseError::FilterNeeded)));
    assert!(matches!(get_target(&args_with(None), &packages[..1]), Err(ChooseError::NoTargets)));
}

#[test]
fn duplicate_copies_a_target() {
    let first = target("alpha", TargetKind::Bench);
    let copy = first.duplicate();
    assert_eq!(copy.name, "alpha");
    assert_eq!(copy.root, "/p/alpha/main.rs");
    assert_eq!(copy.kind, TargetKind::Bench);
}

#[test]
fn failure_message_names_action_and_reason() {
    assert_eq!(failure_message("write to file", Some("denied")), "Failed to write to file: denied");
    assert_eq!(failure_message("find NAME", None), "Failed to find NAME");
}

#[test]
fn exit_code_is_zero_for_help_and_one_for_misuse() {
    assert_eq!(exit_code(&parse(&strings(&["-h"]))), Some(0));
    assert_eq!(exit_code(&parse(&strings(&["--version"]))), Some(0));
    assert_eq!(exit_code(&parse(&strings(&["a", "b"]))), Some(1));
    assert_eq!(exit_code(&parse(&strings(&["-c", "a", "-c", "b"]))), Some(1));
    assert_eq!(exit_code(&parse(&strings(&["a", "-c", "b"]))), None);
    assert_eq!(exit_code(&parse(&strings(&[]))), None);
}
