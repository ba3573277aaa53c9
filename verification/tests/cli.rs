use cdlvsm::cli::{dispatch_error, invoked_as, parse_command, usage, Command};
use cdlvsm::package::{Package, Tier};

fn cmd(args: &[&str]) -> Command {
    let mut v = vec!["cdlvsm".to_string()];
    v.extend(args.iter().map(|a| a.to_string()));
    parse_command(&v)
}

fn fail_of(c: Command) -> (String, bool) {
    match c {
        Command::Fail { message, usage } => (message, usage),
        _ => panic!("expected a failure"),
    }
}

#[test]
fn no_args_is_usage_with_exit_1() {
    assert!(matches!(cmd(&[]), Command::Usage { exit: 1 }));
    assert!(matches!(cmd(&["help"]), Command::Usage { exit: 0 }));
    assert!(matches!(cmd(&["-h"]), Command::Usage { exit: 0 }));
    assert!(matches!(cmd(&["--help"]), Command::Usage { exit: 0 }));
}

#[test]
fn version_flags() {
    assert!(matches!(cmd(&["--version"]), Command::Version));
    assert!(matches!(cmd(&["-v"]), Command::Version));
}

#[test]
fn flag_looking_command_is_unknown_not_a_package() {
    let (m, u) = fail_of(cmd(&["-x"]));
    assert_eq!(m, "unknown command '-x'");
    assert!(u);
}

#[test]
fn install_flags_and_errors() {
    match cmd(&["install", "code", "--runtime", "--link"]) {
        Command::Install { pkg, opts } => {
            assert_eq!(pkg, Package::Code);
            assert_eq!(opts.tier, Tier::Runtime);
            assert!(opts.link);
        }
        _ => panic!("expected install"),
    }
    match cmd(&["install", "code", "--runtime", "--sdk"]) {
        Command::Install { opts, .. } => {
            assert_eq!(opts.tier, Tier::Sdk);
            assert!(!opts.link);
        }
        _ => panic!("expected install"),
    }
    let (m, u) = fail_of(cmd(&["install", "euglena", "--bogus"]));
    assert_eq!(m, "unknown flag '--bogus' for 'cdlvsm install euglena'");
    assert!(!u);
    let (m, u) = fail_of(cmd(&["install", "nonsense"]));
    assert_eq!(m, "unknown package 'nonsense'");
    assert!(u);
    let (m, _) = fail_of(cmd(&["install"]));
    assert_eq!(m, "missing package name");
}

#[test]
fn uninstall_takes_a_name() {
    match cmd(&["uninstall", "code", "extra"]) {
        Command::Uninstall { name } => assert_eq!(name, "code"),
        _ => panic!("expected uninstall"),
    }
    let (m, u) = fail_of(cmd(&["uninstall"]));
    assert_eq!(m, "missing package name");
    assert!(u);
}

#[test]
fn upgrade_arguments() {
    assert!(matches!(cmd(&["upgrade"]), Command::Upgrade { name: None }));
    match cmd(&["upgrade", "code"]) {
        Command::Upgrade { name: Some(n) } => assert_eq!(n, "code"),
        _ => panic!("expected upgrade of code"),
    }
    let (m, _) = fail_of(cmd(&["upgrade", "code", "--bogus"]));
    assert_eq!(m, "unknown flag '--bogus' for 'cdlvsm upgrade'");
    let (m, _) = fail_of(cmd(&["upgrade", "code", "euglena"]));
    assert_eq!(m, "'cdlvsm upgrade' takes at most one package name");
}

#[test]
fn builtins_and_dispatch() {
    assert!(matches!(cmd(&["list"]), Command::List));
    assert!(matches!(cmd(&["update"]), Command::Update));
    match cmd(&["code", "run", "x.code"]) {
        Command::Dispatch { name, args } => {
            assert_eq!(name, "code");
            assert_eq!(args, vec!["run".to_string(), "x.code".to_string()]);
        }
        _ => panic!("expected dispatch"),
    }
}

#[test]
fn dispatch_messages() {
    assert_eq!(dispatch_error("code"), "'code' is not installed — run `cdlvsm install code` first.");
    assert_eq!(
        dispatch_error("wat"),
        "'wat' is not an installed package and not a cdlvsm command.\nRun `cdlvsm help` to see built-in commands."
    );
    assert_eq!(invoked_as("code"), "cdlvsm code");
}

#[test]
fn usage_text() {
    let u = usage("cdlvsm 0.1.0");
    assert!(u.starts_with("cdlvsm 0.1.0\n\nUsage:\n  cdlvsm install <package> [--runtime] [--link]\n"));
    assert!(u.ends_with("  CDLVSM_EUGLENA_VERSION   pin euglena's version instead of latest\n"));
}
