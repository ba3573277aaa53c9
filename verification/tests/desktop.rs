use cdlvsm::desktop::{
    app_for, applications_dir, builtin, desktop_entry, desktop_file_name, entry_value, exec_arg,
    is_cdlvsm_entry, is_cdlvsm_plist, mac_app_dir, mac_launcher, mac_plist, parse_info, sh_quoted,
    xml, App,
};

#[test]
fn known_apps_and_tools() {
    assert!(builtin("ide").unwrap().terminal);
    assert!(!builtin("console").unwrap().terminal);
    assert!(builtin("code").is_none() && builtin("euglena").is_none());
}

#[test]
fn app_info_overrides_the_defaults() {
    let app = parse_info(
        "# mine\nname=Mine\nterminal=true  # in a terminal\nicon=icon.png\nwhat=ever\n",
        builtin("console"),
    )
    .unwrap();
    assert_eq!(app.name, "Mine");
    assert!(app.terminal);
    assert_eq!(app.icon, "icon.png");
    assert_eq!(app.categories, "System;TerminalEmulator;");
    assert!(parse_info("comment=no name\n", None).is_none());
}

#[test]
fn a_desktop_entry() {
    let entry = desktop_entry("ide", &builtin("ide").unwrap(), "/home/a b/.local/bin/cdlvsm-ide");
    assert!(entry.starts_with("[Desktop Entry]\nType=Application\nName=codelovesme IDE\n"));
    assert!(entry.contains("\nExec=\"/home/a b/.local/bin/cdlvsm-ide\"\n"));
    assert!(entry.contains("\nTerminal=true\n"));
    assert!(entry.contains("\nIcon=accessories-text-editor\n"));
    assert!(entry.contains("\nX-cdlvsm-Package=ide\n"));
    let plain = desktop_entry("console", &builtin("console").unwrap(), "/p/cdlvsm-console");
    assert!(plain.contains("\nExec=/p/cdlvsm-console\n") && plain.contains("\nTerminal=false\n"));
}

#[test]
fn a_mac_bundle() {
    let term = mac_launcher(&builtin("ide").unwrap(), "/Users/me/.local/bin/cdlvsm-ide");
    assert!(term.contains("tell application \"Terminal\" to do script"), "{term}");
    assert!(term.contains("/Users/me/.local/bin/cdlvsm-ide"));
    let window = mac_launcher(&builtin("console").unwrap(), "/Users/me/.local/bin/cdlvsm-console");
    assert_eq!(window, "#!/bin/sh\nexec '/Users/me/.local/bin/cdlvsm-console' \"$@\"\n");
    let plist = mac_plist("console", &builtin("console").unwrap());
    assert!(plist.contains("<key>CFBundleExecutable</key><string>console</string>"));
    assert!(plist.contains("<string>codelovesme console</string>"));
}

fn app(name: &str, terminal: bool) -> App {
    App {
        name: name.to_string(),
        comment: String::new(),
        terminal,
        icon: String::new(),
        categories: "Utility;".to_string(),
        keywords: String::new(),
    }
}

#[test]
fn builtin_ide_is_the_whole_app() {
    let ide = builtin("ide").unwrap();
    assert_eq!(ide.name, "codelovesme IDE");
    assert_eq!(ide.comment, "A terminal IDE for the code language");
    assert_eq!(ide.icon, "accessories-text-editor");
    assert_eq!(ide.categories, "Development;IDE;TextEditor;Utility;");
    assert_eq!(ide.keywords, "editor;code;euglena;codelovesme;");
    let console = builtin("console").unwrap();
    assert_eq!(console.icon, "utilities-terminal");
    assert_eq!(console.keywords, "terminal;shell;command;codelovesme;");
}

#[test]
fn info_without_defaults_starts_from_utility() {
    let a = parse_info("name = Tool \ncomment=  a tool\n", None).unwrap();
    assert_eq!(a, App { comment: "a tool".to_string(), ..app("Tool", false) });
}

#[test]
fn info_comments_and_unknown_keys_change_nothing() {
    let base = builtin("ide");
    let a = parse_info("# a comment\n\nnot a pair\nfoo=bar\n   # indented comment\n", base.clone()).unwrap();
    assert_eq!(a, base.unwrap());
}

#[test]
fn info_terminal_is_true_only_for_true() {
    let a = parse_info("name=x\nterminal=yes\n", None).unwrap();
    assert!(!a.terminal);
    let b = parse_info("name=x\r\nterminal=true\r\n", None).unwrap();
    assert!(b.terminal);
    assert_eq!(b.name, "x");
}

#[test]
fn info_later_lines_win_and_value_keeps_equals() {
    let a = parse_info("name=a\nname=b=c\n", None).unwrap();
    assert_eq!(a.name, "b=c");
}

#[test]
fn info_emptied_name_is_no_app() {
    assert!(parse_info("name=\n", builtin("ide")).is_none());
    assert!(parse_info("", None).is_none());
    assert_eq!(parse_info("", builtin("ide")).unwrap(), builtin("ide").unwrap());
}

#[test]
fn info_hash_without_space_is_kept() {
    let a = parse_info("name=C#sharp # note\n", None).unwrap();
    assert_eq!(a.name, "C#sharp");
}

#[test]
fn entry_value_escapes() {
    assert_eq!(entry_value("a\\b\nc"), "a\\\\b c");
    assert_eq!(entry_value("plain"), "plain");
}

#[test]
fn exec_arg_quotes_when_needed() {
    assert_eq!(exec_arg("/usr/bin/x-1.2_a+b"), "/usr/bin/x-1.2_a+b");
    assert_eq!(exec_arg("/a b"), "\"/a b\"");
    assert_eq!(exec_arg("/a$b\"c`d\\e"), "\"/a\\$b\\\"c\\`d\\\\e\"");
    assert_eq!(exec_arg("/50% off"), "\"/50%% off\"");
    assert_eq!(exec_arg(""), "");
}

#[test]
fn entry_without_comment_icon_keywords() {
    let e = desktop_entry("x", &app("X", false), "/b/cdlvsm-x");
    assert_eq!(
        e,
        "[Desktop Entry]\nType=Application\nName=X\nExec=/b/cdlvsm-x\nTerminal=false\nCategories=Utility;\nStartupNotify=true\nX-cdlvsm-Package=x\n"
    );
}

#[test]
fn entry_full_for_ide() {
    let e = desktop_entry("ide", &builtin("ide").unwrap(), "/p/cdlvsm-ide");
    assert_eq!(
        e,
        "[Desktop Entry]\nType=Application\nName=codelovesme IDE\nComment=A terminal IDE for the code language\nExec=/p/cdlvsm-ide\nIcon=accessories-text-editor\nTerminal=true\nCategories=Development;IDE;TextEditor;Utility;\nKeywords=editor;code;euglena;codelovesme;\nStartupNotify=false\nX-cdlvsm-Package=ide\n"
    );
}

#[test]
fn shell_quoting() {
    assert_eq!(sh_quoted("it's"), "'it'\\''s'");
    assert_eq!(sh_quoted(""), "''");
}

#[test]
fn terminal_launcher_exact() {
    let t = mac_launcher(&app("T", true), "/b/it's");
    assert_eq!(
        t,
        "#!/bin/sh\nosascript -e 'tell application \"Terminal\" to do script \"exec '\\''/b/it'\\''\\\\'\\'''\\''s'\\''\"' -e 'tell application \"Terminal\" to activate'\n"
    );
}

#[test]
fn xml_entities() {
    assert_eq!(xml("a&b<c>d"), "a&amp;b&lt;c&gt;d");
}

#[test]
fn plist_escapes_name() {
    let p = mac_plist("p", &app("A & B", false));
    assert!(p.contains("<key>CFBundleName</key><string>A &amp; B</string>"));
    assert!(p.contains("<key>CFBundleIdentifier</key><string>me.codeloves.p</string>"));
    assert!(p.ends_with("<key>X-cdlvsm-Package</key><string>p</string>\n</dict>\n</plist>\n"));
}

#[test]
fn written_entries_are_recognized_as_cdlvsm_own() {
    let e = desktop_entry("ide", &builtin("ide").unwrap(), "/x");
    assert!(is_cdlvsm_entry(&e, "ide"));
    assert!(!is_cdlvsm_entry("[Desktop Entry]\nName=Other\n", "ide"));
    let p = mac_plist("console", &builtin("console").unwrap());
    assert!(is_cdlvsm_plist(&p, "console"));
    assert!(!is_cdlvsm_plist(&p, "ide"));
}

#[test]
fn app_for_uses_release_icon_through_current() {
    let files = vec!["icon.png".to_string(), "ide".to_string()];
    let a = app_for("/pre", "ide", Some("icon=icon.png\n"), &files).unwrap();
    assert_eq!(a.icon, "/pre/share/cdlvsm/packages/ide/current/icon.png");
    assert_eq!(a.name, "codelovesme IDE");
    let b = app_for("/pre", "ide", Some("icon=theme-icon\n"), &files).unwrap();
    assert_eq!(b.icon, "theme-icon");
    let c = app_for("/pre", "ide", None, &files).unwrap();
    assert_eq!(c.icon, "accessories-text-editor");
    assert!(app_for("/pre", "code", None, &files).is_none());
    let d = app_for("/pre", "tool", Some("name=Tool\nicon=icon.png\n"), &files).unwrap();
    assert_eq!(d.icon, "/pre/share/cdlvsm/packages/tool/current/icon.png");
}

#[test]
fn launcher_locations() {
    assert_eq!(applications_dir(Some("/x"), Some("/h")), "/x/applications");
    assert_eq!(applications_dir(Some(""), Some("/h")), "/h/.local/share/applications");
    assert_eq!(applications_dir(None, None), ".local/share/applications");
    assert_eq!(mac_app_dir(Some("/Users/me"), &app("A/B", false)), "/Users/me/Applications/A-B.app");
    assert_eq!(desktop_file_name("ide"), "codelovesme-ide.desktop");
}

#[test]
fn added_info_lines_change_nothing() {
    let text = "name=Mine\r\nterminal=true # in a terminal";
    let more = format!("{text}\n# note\n\nwhat=ever\nno pair here\n");
    assert_eq!(
        parse_info(&more, builtin("console")),
        parse_info(text, builtin("console"))
    );
    assert_eq!(parse_info(text, None).unwrap().name, "Mine");
}

#[test]
fn a_desktop_entry_line_by_line() {
    let full = desktop_entry("console", &builtin("console").unwrap(), "/p/cdlvsm-console");
    assert_eq!(full.lines().count(), 11);
    assert!(full.contains("\nStartupNotify=true\n"));
    assert!(full.ends_with("\nX-cdlvsm-Package=console\n"));
    let bare = App {
        name: "Two\nlines".to_string(),
        comment: String::new(),
        terminal: true,
        icon: String::new(),
        categories: "Utility;".to_string(),
        keywords: String::new(),
    };
    let entry = desktop_entry("x", &bare, "/p/cdlvsm-x");
    assert_eq!(entry.lines().count(), 8);
    assert!(entry.contains("\nName=Two lines\n"));
    assert!(entry.contains("\nTerminal=true\n") && entry.contains("\nStartupNotify=false\n"));
}
