use cdlvsm::download::{latest_tag, release_assets};

#[test]
fn tag_from_latest_release_body() {
    let body = "{\n  \"url\": \"https://api.github.com/x\",\n  \"tag_name\": \"v0.3.0\",\n  \"name\": \"v0.3.0\"\n}\n";
    assert_eq!(latest_tag("o/r", body).ok().unwrap(), "v0.3.0");
    let one_line = "{\"id\":1,\"tag_name\":  \" v1.2.3 \",\"x\":\"y\"}";
    assert_eq!(latest_tag("o/r", one_line).ok().unwrap(), "v1.2.3");
}

#[test]
fn tag_missing_is_an_error() {
    let e = latest_tag("o/r", "{\"message\": \"Not Found\"}").err().unwrap();
    assert_eq!(e.0, "could not determine the latest release version for o/r");
    let empty = latest_tag("o/r", "\"tag_name\": \"\"\n\"tag_name\": \"v2\"\n").ok().unwrap();
    assert_eq!(empty, "v2");
}

#[test]
fn assets_from_release_body() {
    let body = "{\n \"assets\": [\n  {\"browser_download_url\": \"https://github.com/o/r/releases/download/v1/a-v1-x86_64-linux.tar.gz\"},\n  {\"browser_download_url\": \"https://github.com/o/r/releases/download/v1/b.txt\"}\n ]\n}\n";
    assert_eq!(
        release_assets(body).unwrap(),
        vec!["a-v1-x86_64-linux.tar.gz".to_string(), "b.txt".to_string()]
    );
    assert!(release_assets("{}").is_none());
    assert!(release_assets("\"browser_download_url\": \"https://x/\"").is_none());
    assert_eq!(release_assets("\"browser_download_url\": \"plain\"").unwrap(), vec!["plain".to_string()]);
}
