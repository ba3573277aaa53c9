use cdlvsm::paths::{
    bin_dir, current_link, dispatch_target, join_path, metadata_path, package_dir, packages_root,
    prefix, starts_with_path,
};

#[test]
fn prefix_from_env_values() {
    assert_eq!(prefix(Some("/opt/x"), Some("/home/me")), "/opt/x");
    assert_eq!(prefix(None, Some("/home/me")), "/home/me/.local");
    assert_eq!(prefix(None, Some("/home/me/")), "/home/me/.local");
    assert_eq!(prefix(None, None), ".local");
    assert_eq!(prefix(Some(""), Some("/home/me")), "");
}

#[test]
fn layout_under_prefix() {
    assert_eq!(bin_dir("/p"), "/p/bin");
    assert_eq!(packages_root("/p"), "/p/share/cdlvsm/packages");
    assert_eq!(package_dir("/p", "code"), "/p/share/cdlvsm/packages/code");
    assert_eq!(current_link("/p", "code"), "/p/share/cdlvsm/packages/code/current");
    assert_eq!(dispatch_target("/p", "code"), "/p/share/cdlvsm/packages/code/current/code");
    assert_eq!(metadata_path("/p", "code"), "/p/share/cdlvsm/packages/code/.cdlvsm");
    assert_eq!(bin_dir(""), "bin");
}

#[test]
fn join_follows_pathbuf() {
    assert_eq!(join_path("/a", "b"), "/a/b");
    assert_eq!(join_path("/a/", "b"), "/a/b");
    assert_eq!(join_path("/a", "/b"), "/b");
    assert_eq!(join_path("", "b"), "b");
    assert_eq!(join_path("a", ""), "a/");
}

#[test]
fn starts_with_by_components() {
    assert!(starts_with_path("/a/b/c", "/a/b"));
    assert!(starts_with_path("/a//b/./c", "/a/b/"));
    assert!(!starts_with_path("/a/bc", "/a/b"));
    assert!(!starts_with_path("/a", "/a/b"));
    assert!(starts_with_path("./x/y", "./x"));
    assert!(!starts_with_path("x/y", "/x"));
    assert!(starts_with_path("/a/b", ""));
    assert!(starts_with_path("/a/b", "/a/b"));
    assert!(!starts_with_path("/a/../b", "/b"));
}
