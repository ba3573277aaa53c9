use cdlvsm::meta::{meta_text, read_meta, InstallMeta};

fn code_meta(label: Option<&str>, link: bool) -> InstallMeta {
    InstallMeta {
        pkg: "code".to_string(),
        repo: "codelovesme/code".to_string(),
        asset_base: "code-runtime".to_string(),
        env_var: "CDLVSM_CODE_VERSION".to_string(),
        label: label.map(|l| l.to_string()),
        link,
    }
}

fn same(a: &InstallMeta, b: &InstallMeta) -> bool {
    a.pkg == b.pkg
        && a.repo == b.repo
        && a.asset_base == b.asset_base
        && a.env_var == b.env_var
        && a.label == b.label
        && a.link == b.link
}

#[test]
fn metadata_text_is_key_value_lines() {
    assert_eq!(
        meta_text(&code_meta(Some("runtime"), true)),
        "pkg=code\nrepo=codelovesme/code\nasset_base=code-runtime\nenv_var=CDLVSM_CODE_VERSION\nlabel=runtime\nlink=1\n"
    );
    assert!(meta_text(&code_meta(None, false)).ends_with("label=\nlink=0\n"));
}

#[test]
fn metadata_reads_back() {
    for m in [code_meta(Some("runtime"), true), code_meta(None, false)] {
        let back = read_meta(&meta_text(&m)).unwrap();
        assert!(same(&back, &m));
    }
}

#[test]
fn metadata_tolerates_comments_unknown_keys_and_crlf() {
    let body = "# written by cdlvsm\r\n\r\npkg=code\r\nfuture=thing\r\nnot a pair\r\nrepo=codelovesme/code\r\n  asset_base=code-runtime  \r\nenv_var=CDLVSM_CODE_VERSION\r\nlink=1\r\n";
    let m = read_meta(body).unwrap();
    assert!(same(&m, &code_meta(None, true)));
}

#[test]
fn metadata_without_essentials_is_unusable() {
    assert!(read_meta("").is_none());
    assert!(read_meta("repo=x\nasset_base=y\n").is_none());
    assert!(read_meta("pkg=code\nasset_base=y\n").is_none());
    assert!(read_meta("pkg=code\nrepo=x\n").is_none());
    // A later pkg line starts afresh.
    assert!(read_meta("pkg=a\nrepo=x\nasset_base=y\npkg=b\n").is_none());
}

#[test]
fn metadata_link_only_for_one_and_empty_label_is_none() {
    let m = read_meta("pkg=p\nrepo=r\nasset_base=a\nlabel=\nlink=true\n").unwrap();
    assert_eq!(m.label, None);
    assert!(!m.link);
}

fn same_read(a: &Option<InstallMeta>, b: &Option<InstallMeta>) -> bool {
    match (a, b) {
        (Some(a), Some(b)) => {
            a.pkg == b.pkg
                && a.repo == b.repo
                && a.asset_base == b.asset_base
                && a.env_var == b.env_var
                && a.label == b.label
                && a.link == b.link
        }
        (None, None) => true,
        _ => false,
    }
}

#[test]
fn added_comments_and_unknown_keys_change_nothing() {
    let text = "pkg=code\nrepo=codelovesme/code\nasset_base=code-sdk\nlabel=sdk\nlink=1";
    let more = format!("{text}\n# later\n\nchannel=beta\nnot a pair\n  =x\r\n");
    assert!(same_read(&read_meta(&more), &read_meta(text)));
    assert!(read_meta(&more).is_some());
}

#[test]
fn what_is_read_is_written_back_the_same() {
    let text = "# hand-edited\r\npkg=code\r\nrepo=  codelovesme/code\r\nasset_base=code-runtime\r\nenv_var=\r\nlabel=runtime\r\nlink=1\r\n";
    let m = read_meta(text).expect("usable");
    assert_eq!(m.repo, "  codelovesme/code");
    let again = read_meta(&meta_text(&m));
    assert!(same_read(&again, &Some(m)));
}
