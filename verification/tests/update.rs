use cdlvsm::update::{
    check_self_asset, join_names, self_asset, self_repo, self_stage_prefix, self_url,
    self_version_var, staged_path, up_to_date, updated_message,
};

#[test]
fn self_update_names() {
    assert_eq!(self_repo(), "codelovesme/cdlvsm-cli");
    assert_eq!(self_version_var(), "CDLVSM_CLI_VERSION");
    assert_eq!(self_asset("v0.2.0"), "cdlvsm-v0.2.0-x86_64-linux.tar.gz");
    assert_eq!(
        self_url("v0.2.0"),
        "https://github.com/codelovesme/cdlvsm-cli/releases/download/v0.2.0/cdlvsm-v0.2.0-x86_64-linux.tar.gz"
    );
    assert_eq!(self_stage_prefix("v0.2.0"), "cdlvsm-v0.2.0");
    assert_eq!(staged_path("/home/me/.local/bin"), "/home/me/.local/bin/.cdlvsm-update.tmp");
    assert_eq!(updated_message("v0.1.0", "v0.2.0"), "Updated cdlvsm v0.1.0 -> v0.2.0");
}

#[test]
fn self_update_skips_same_version() {
    assert_eq!(up_to_date("v0.1.0", "v0.1.0").unwrap(), "cdlvsm is already up to date (v0.1.0)");
    assert!(up_to_date("v0.1.0", "v0.1.1").is_none());
}

#[test]
fn self_update_asset_check() {
    assert!(check_self_asset("v1", &None).is_ok());
    let listed = Some(vec!["cdlvsm-v1-x86_64-linux.tar.gz".to_string()]);
    assert!(check_self_asset("v1", &listed).is_ok());
    let other = Some(vec!["a.tar.gz".to_string(), "b.zip".to_string()]);
    let e = check_self_asset("v1", &other).err().unwrap();
    assert_eq!(
        e.0,
        "release v1 of codelovesme/cdlvsm-cli has no asset named 'cdlvsm-v1-x86_64-linux.tar.gz'.\nAvailable assets: a.tar.gz, b.zip"
    );
    assert_eq!(join_names(&vec![]), "");
}
