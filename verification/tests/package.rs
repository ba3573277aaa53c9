use cdlvsm::error::fail;
use cdlvsm::meta::{read_meta, InstallMeta};
use cdlvsm::package::{
    check_platform, euglena_wiring_error, find_stage, release_build, install_code, install_euglena, install_plan, install_report,
    link_target, list_lines, missing_binary_error, missing_meta_warning, no_packages_message,
    not_installed_error, owns_shim, path_hint, resolve_tag, shim, shim_names, uninstalled_message,
    upgrade_all_result, upgrade_failure_line, upgrade_missing, upgrade_order, upgrade_settings,
    upgrade_step, InstallOpts, InstallPlan, Package, ReleaseSpec, Tier, Upgrade, Verb,
};
use cdlvsm::paths::{bin_dir, dispatch_target, package_dir};

/// The plan for the build the spec asks for.
fn plan_of(prefix: &str, s: &ReleaseSpec) -> InstallPlan {
    install_plan(prefix, s, &s.asset_base).ok().expect("plain names")
}

fn opts(tier: Tier, link: bool) -> InstallOpts {
    InstallOpts { tier, link }
}

#[test]
fn registry_names() {
    assert_eq!(Package::parse("code"), Some(Package::Code));
    assert_eq!(Package::parse("euglena"), Some(Package::Euglena));
    assert_eq!(Package::parse("nonsense"), None);
    assert_eq!(Package::parse("Code"), None);
    assert_eq!(Tier::Sdk.as_str(), "sdk");
    assert_eq!(Tier::Runtime.as_str(), "runtime");
}

#[test]
fn code_release_spec_carries_the_tier() {
    let s = Package::Code.install(&opts(Tier::Runtime, true), "v0.4.1");
    assert_eq!(s.pkg, "code");
    assert_eq!(s.repo, "codelovesme/code");
    assert_eq!(s.asset_base, "code-runtime");
    assert_eq!(s.tag, "v0.4.1");
    assert_eq!(s.label.as_deref(), Some("runtime"));
    assert!(s.link);
    assert_eq!(s.env_var, "CDLVSM_CODE_VERSION");
    assert_eq!(s.verb, Verb::Installed);
    assert_eq!(s.old, None);
    assert_eq!(install_code(&opts(Tier::Sdk, false), "v1", &None).0.asset_base, "code-sdk");
}

#[test]
fn euglena_release_spec() {
    let s = install_euglena(&opts(Tier::Runtime, false), "v2", "/p", true).0;
    assert_eq!(s.pkg, "euglena");
    assert_eq!(s.repo, "codelovesme/euglena-cli");
    assert_eq!(s.asset_base, "euglena");
    assert_eq!(s.label, None);
    assert_eq!(s.env_var, "CDLVSM_EUGLENA_VERSION");
}

#[test]
fn defaults_are_sdk_without_link() {
    let d = Package::Code.default_meta();
    assert_eq!(d.asset_base, "code-sdk");
    assert_eq!(d.label.as_deref(), Some("sdk"));
    assert!(!d.link);
    let plain = InstallMeta::from_spec(&Package::Code.install(&opts(Tier::Sdk, false), "v9"));
    assert_eq!(plain.asset_base, d.asset_base);
    assert_eq!(plain.label, d.label);
    assert_eq!(Package::Euglena.default_meta().repo, "codelovesme/euglena-cli");
}

#[test]
fn version_pin() {
    assert_eq!(resolve_tag(Some("v0.3.0")).as_deref(), Some("v0.3.0"));
    assert_eq!(resolve_tag(Some("")), None);
    assert_eq!(resolve_tag(None), None);
}

#[test]
fn platform_check() {
    assert!(check_platform("Linux", "x86_64", "o/r").is_ok());
    let e = check_platform("Darwin", "arm64", "codelovesme/code").err().unwrap();
    assert_eq!(
        e.0,
        "prebuilt binaries are only available for Linux x86_64 (detected: Darwin arm64).\nBuild from source instead — see https://github.com/codelovesme/code#building-from-source"
    );
}

#[test]
fn install_plan_for_code_with_link() {
    let s = Package::Code.install(&opts(Tier::Sdk, true), "v0.3.0");
    let p = plan_of("/p", &s);
    assert_eq!(p.asset, "code-sdk-v0.3.0-x86_64-linux.tar.gz");
    assert_eq!(
        p.url,
        "https://github.com/codelovesme/code/releases/download/v0.3.0/code-sdk-v0.3.0-x86_64-linux.tar.gz"
    );
    assert_eq!(p.stage_prefix, "code-sdk-");
    assert_eq!(p.dest, "/p/share/cdlvsm/packages/code/v0.3.0");
    assert_eq!(p.dest_bin, "/p/share/cdlvsm/packages/code/v0.3.0/code");
    assert_eq!(p.current, "/p/share/cdlvsm/packages/code/current");
    assert_eq!(p.bin, "/p/bin");
    assert_eq!(p.shim_target, "/p/share/cdlvsm/packages/code/current/code");
    assert_eq!(p.shims, vec!["/p/bin/cdlvsm-code".to_string(), "/p/bin/code".to_string()]);
    assert_eq!(p.meta_path, "/p/share/cdlvsm/packages/code/.cdlvsm");
    assert_eq!(
        p.meta,
        "pkg=code\nrepo=codelovesme/code\nasset_base=code-sdk\nenv_var=CDLVSM_CODE_VERSION\nlabel=sdk\nlink=1\n"
    );
}

#[test]
fn install_plan_without_link_has_only_the_prefixed_shim() {
    let s = Package::Euglena.install(&opts(Tier::Sdk, false), "v1");
    let p = plan_of("/p", &s);
    assert_eq!(p.shims, vec!["/p/bin/cdlvsm-euglena".to_string()]);
    assert!(p.meta.contains("\nlabel=\n"));
}

#[test]
fn recorded_settings_come_back_for_upgrade() {
    let s = Package::Code.install(&opts(Tier::Runtime, true), "v0.2.0");
    let p = plan_of("/p", &s);
    let meta = read_meta(&p.meta).unwrap();
    match upgrade_step("code", Some("v0.2.0"), &meta, "v0.3.0") {
        Upgrade::Release(r) => {
            assert_eq!(r.asset_base, "code-runtime");
            assert_eq!(r.label.as_deref(), Some("runtime"));
            assert!(r.link);
            assert_eq!(r.tag, "v0.3.0");
            assert_eq!(r.old.as_deref(), Some("v0.2.0"));
            assert_eq!(r.verb, Verb::Upgraded);
        }
        Upgrade::UpToDate(_) => panic!("should upgrade"),
    }
}

#[test]
fn upgrade_to_current_tag_is_up_to_date() {
    let meta = Package::Code.default_meta();
    match upgrade_step("code", Some("v9.9.9"), &meta, "v9.9.9") {
        Upgrade::UpToDate(line) => assert_eq!(line, "code is already up to date (v9.9.9)"),
        Upgrade::Release(_) => panic!("should be up to date"),
    }
    match upgrade_step("code", None, &meta, "v9.9.9") {
        Upgrade::Release(r) => assert_eq!(r.old, None),
        Upgrade::UpToDate(_) => panic!("no current version: upgrade"),
    }
}

#[test]
fn install_and_upgrade_reports() {
    let s = Package::Code.install(&opts(Tier::Sdk, true), "v0.3.0");
    assert_eq!(
        install_report("/p", &s),
        vec![
            "".to_string(),
            "Installed code (sdk) v0.3.0 -> /p/share/cdlvsm/packages/code/v0.3.0".to_string(),
            "Shim: /p/bin/cdlvsm-code".to_string(),
            "Linked: /p/bin/code".to_string(),
        ]
    );
    let meta = read_meta(&plan_of("/p", &s).meta).unwrap();
    if let Upgrade::Release(u) = upgrade_step("code", Some("v0.2.0"), &meta, "v0.3.0") {
        assert_eq!(install_report("/p", &u)[1], "Upgraded code (sdk) v0.2.0 -> v0.3.0");
    }
    let e = Package::Euglena.install(&opts(Tier::Sdk, false), "v1");
    let em = read_meta(&plan_of("/p", &e).meta).unwrap();
    if let Upgrade::Release(u) = upgrade_step("euglena", None, &em, "v2") {
        let r = install_report("/p", &u);
        assert_eq!(r[1], "Upgraded euglena -> v2");
        assert_eq!(r.len(), 3);
    }
    assert_eq!(install_report("/p", &e)[1], "Installed euglena v1 -> /p/share/cdlvsm/packages/euglena/v1");
}

#[test]
fn path_hint_only_when_off_path() {
    let dirs = vec!["/usr/bin".to_string(), "/p/bin/".to_string()];
    assert!(path_hint(&dirs, "/p/bin").is_empty());
    assert_eq!(
        path_hint(&vec!["/usr/bin".to_string()], "/p/bin"),
        vec![
            "".to_string(),
            "Note: /p/bin is not on your PATH. Add this to your shell profile:".to_string(),
            "  export PATH=\"/p/bin:$PATH\"".to_string(),
        ]
    );
}

#[test]
fn stage_directory() {
    let dirs = vec!["other".to_string(), "code-sdk-v1".to_string(), "code-sdk-v2".to_string()];
    assert_eq!(find_stage("/tmp/x", &dirs, "code-sdk-").ok().unwrap(), "/tmp/x/code-sdk-v1");
    let e = find_stage("/tmp/x", &dirs, "euglena-").err().unwrap();
    assert_eq!(e.0, "unexpected archive layout — no euglena-* directory found.");
    assert_eq!(
        missing_binary_error("code", "/tmp/x/code-sdk-v1").0,
        "unexpected archive layout — no 'code' binary in /tmp/x/code-sdk-v1"
    );
}

#[test]
fn uninstall_decisions() {
    assert_eq!(shim_names("code"), vec!["cdlvsm-code".to_string(), "code".to_string()]);
    let bin = bin_dir("/p");
    let target = dispatch_target("/p", "code");
    let pkg = package_dir("/p", "code");
    assert!(owns_shim(&link_target(&bin, &target), &pkg));
    // A foreign binary somewhere else is never cdlvsm's.
    assert!(!owns_shim("/usr/share/code/bin/code", &pkg));
    assert!(!owns_shim("/p/share/cdlvsm/packages/code-other/current/code", &pkg));
    assert_eq!(link_target("/p/bin", "../x"), "/p/bin/../x");
    assert_eq!(not_installed_error("code").0, "'code' is not installed via cdlvsm.");
    assert_eq!(uninstalled_message("code"), "Uninstalled code.");
    assert_eq!(shim("/p", "code"), "/p/bin/cdlvsm-code");
}

#[test]
fn upgrade_failures_and_fallbacks() {
    assert_eq!(upgrade_missing("nonsense").0, "unknown package 'nonsense'");
    assert_eq!(
        upgrade_missing("code").0,
        "'code' is not installed — run `cdlvsm install code` first."
    );
    let (m, warned) = upgrade_settings("code", None).ok().unwrap();
    assert!(warned);
    assert_eq!(m.asset_base, "code-sdk");
    let e = upgrade_settings("mystery", None).err().unwrap();
    assert_eq!(e.0, "no install metadata for 'mystery' — cannot determine how to upgrade");
    let (m2, w2) = upgrade_settings("mystery", Some(Package::Euglena.default_meta())).ok().unwrap();
    assert!(!w2);
    assert_eq!(m2.pkg, "euglena");
    assert_eq!(
        missing_meta_warning("code"),
        "warning: no install metadata for 'code' (installed by an older cdlvsm); assuming default settings"
    );
}

#[test]
fn upgrade_all_order_and_outcome() {
    let names = vec!["euglena".to_string(), "code".to_string(), "b".to_string(), "code".to_string()];
    assert_eq!(
        upgrade_order(names),
        vec!["b".to_string(), "code".to_string(), "code".to_string(), "euglena".to_string()]
    );
    assert!(upgrade_all_result(0).is_ok());
    assert_eq!(upgrade_all_result(2).err().unwrap().0, "2 package(s) failed to upgrade");
    assert_eq!(upgrade_all_result(12).err().unwrap().0, "12 package(s) failed to upgrade");
    let e = fail::<()>("boom".to_string()).err().unwrap();
    assert_eq!(upgrade_failure_line("code", &e), "error: code: boom");
}

#[test]
fn list_sorted_lines() {
    assert_eq!(list_lines(vec![], "/p"), vec![no_packages_message()]);
    assert_eq!(no_packages_message(), "No cdlvsm-managed packages installed.");
    let rows = vec![
        ("euglena".to_string(), "v1".to_string()),
        ("code".to_string(), "v0.3.0".to_string()),
    ];
    assert_eq!(
        list_lines(rows, "/p"),
        vec![
            "code  v0.3.0  (shim: /p/bin/cdlvsm-code)".to_string(),
            "euglena  v1  (shim: /p/bin/cdlvsm-euglena)".to_string(),
        ]
    );
    let same_name = vec![("a".to_string(), "v2".to_string()), ("a".to_string(), "v10".to_string())];
    assert_eq!(list_lines(same_name, "/p")[0], "a  v10  (shim: /p/bin/cdlvsm-a)");
}

fn names(v: &[&str]) -> Option<Vec<String>> {
    Some(v.iter().map(|s| s.to_string()).collect())
}

#[test]
fn a_single_build_release_is_downloaded_whatever_the_tier() {
    let listing = names(&["code-v0.5.0-x86_64-linux.tar.gz", "SHA256SUMS"]);
    let (spec, build, note) = install_code(&opts(Tier::Runtime, true), "v0.5.0", &listing);
    assert_eq!(build, "code");
    assert_eq!(
        note.as_deref(),
        Some("note: code v0.5.0 ships a single build; the tier setting does not apply")
    );
    // What is asked for is what is recorded.
    assert_eq!(spec.asset_base, "code-runtime");
    assert_eq!(spec.label.as_deref(), Some("runtime"));
    let plan = install_plan("/p", &spec, &build).ok().unwrap();
    assert_eq!(plan.asset, "code-v0.5.0-x86_64-linux.tar.gz");
    assert_eq!(
        plan.url,
        "https://github.com/codelovesme/code/releases/download/v0.5.0/code-v0.5.0-x86_64-linux.tar.gz"
    );
    assert_eq!(plan.stage_prefix, "code-");
    let back = read_meta(&plan.meta).unwrap();
    assert_eq!(back.asset_base, "code-runtime");
    assert_eq!(back.label.as_deref(), Some("runtime"));
    assert!(back.link);
}

#[test]
fn a_tiered_release_keeps_its_tier() {
    let listing = names(&[
        "code-sdk-v0.4.1-x86_64-linux.tar.gz",
        "code-runtime-v0.4.1-x86_64-linux.tar.gz",
    ]);
    let (spec, build, note) = install_code(&opts(Tier::Runtime, false), "v0.4.1", &listing);
    assert_eq!(build, "code-runtime");
    assert_eq!(spec.label.as_deref(), Some("runtime"));
    assert!(note.is_none());
}

#[test]
fn without_a_listing_the_asked_for_build_stands() {
    let (_, build, note) = install_code(&opts(Tier::Sdk, false), "v0.5.0", &None);
    assert_eq!(build, "code-sdk");
    assert!(note.is_none());
    let eug = Package::Euglena.install(&opts(Tier::Sdk, false), "v1.0.0");
    let (build, note) = release_build(&eug, &names(&["code-v1.0.0-x86_64-linux.tar.gz"]));
    assert_eq!(build, "euglena");
    assert!(note.is_none());
}

#[test]
fn upgrading_across_a_single_build_keeps_the_tier() {
    let meta = read_meta("pkg=code\nrepo=codelovesme/code\nasset_base=code-runtime\nenv_var=CDLVSM_CODE_VERSION\nlabel=runtime\nlink=1\n").unwrap();
    match upgrade_step("code", Some("v0.4.1"), &meta, "v0.5.0") {
        Upgrade::Release(s) => {
            let (build, note) = release_build(&s, &names(&["code-v0.5.0-x86_64-linux.tar.gz"]));
            assert_eq!(build, "code");
            assert!(note.is_some());
            let plan = install_plan("/p", &s, &build).ok().unwrap();
            let back = read_meta(&plan.meta).unwrap();
            assert_eq!(back.asset_base, "code-runtime");
            assert_eq!(back.label.as_deref(), Some("runtime"));
            assert!(back.link);
            assert_eq!(install_report("/p", &s)[1], "Upgraded code (runtime) v0.4.1 -> v0.5.0");
        }
        Upgrade::UpToDate(_) => panic!("a new tag is not up to date"),
    }
}

#[test]
fn euglena_brings_code_and_its_shim() {
    let (spec, setup) = install_euglena(&opts(Tier::Sdk, false), "v1.0.0", "/p", false);
    assert_eq!(spec.asset_base, "euglena");
    let code = setup.code.expect("code is installed too");
    assert!(code.tier == Tier::Sdk && !code.link);
    assert_eq!(setup.wiring, vec!["code", "set", "/p/bin/cdlvsm-code"]);
    assert!(install_euglena(&opts(Tier::Sdk, false), "v1.0.0", "/p", true).1.code.is_none());
    assert_eq!(
        euglena_wiring_error("/p").0,
        "could not point euglena at /p/bin/cdlvsm-code — run `euglena code set <path>` yourself"
    );
}

#[test]
fn names_that_leave_the_package_are_refused() {
    let spec = Package::Code.install(&opts(Tier::Sdk, false), "../../../bin");
    let e = install_plan("/p", &spec, "code-sdk").err().unwrap();
    assert_eq!(
        e.0,
        "unusable release: package 'code' at '../../../bin' (each must be a single path component)"
    );
    assert!(install_plan("/p", &Package::Code.install(&opts(Tier::Sdk, false), ".."), "code-sdk").is_err());
    assert!(install_plan("/p", &Package::Code.install(&opts(Tier::Sdk, false), ""), "code-sdk").is_err());
    assert!(install_plan("/p", &Package::Code.install(&opts(Tier::Sdk, false), "v1.0"), "code-sdk").is_ok());
}

#[test]
fn without_link_the_bare_name_is_not_written() {
    let spec = Package::Code.install(&opts(Tier::Sdk, false), "v0.4.1");
    let plan = plan_of("/home/me/.local", &spec);
    let bare = "/home/me/.local/bin/code";
    assert_eq!(plan.shims, vec!["/home/me/.local/bin/cdlvsm-code"]);
    for p in [&plan.dest, &plan.dest_bin, &plan.current, &plan.meta_path] {
        assert_ne!(p, bare);
    }
    let linked = plan_of("/home/me/.local", &Package::Code.install(&opts(Tier::Sdk, true), "v0.4.1"));
    assert!(linked.shims.iter().any(|s| s == bare));
}

#[test]
fn upgrade_keeps_hand_written_settings() {
    let meta = read_meta("pkg=code\nrepo=codelovesme/code\nasset_base=code-runtime\nlabel=runtime\nlink=1\nextra=1\n")
        .expect("usable");
    match upgrade_step("code", Some("v0.3.0"), &meta, "v0.4.0") {
        Upgrade::Release(s) => {
            let back = read_meta(&cdlvsm::meta::meta_text(&InstallMeta::from_spec(&s))).expect("usable");
            assert_eq!(back.asset_base, "code-runtime");
            assert_eq!(back.label.as_deref(), Some("runtime"));
            assert!(back.link);
            assert_eq!(back.env_var, "");
            assert_eq!(s.old.as_deref(), Some("v0.3.0"));
        }
        Upgrade::UpToDate(_) => panic!("a new tag is not up to date"),
    }
}
