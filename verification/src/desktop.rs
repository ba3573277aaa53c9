//! Apps in the desktop's own launcher — GNOME's search, KDE's menu,
//! Spotlight — for the packages that are apps rather than command-line
//! tools.
//!
//! Each desktop has one standard, per-user place an app says it is there:
//!
//! - Linux (every XDG desktop: GNOME, KDE, XFCE, Cinnamon, …): a desktop
//!   entry, `$XDG_DATA_HOME/applications/codelovesme-<pkg>.desktop`.
//! - macOS: an app bundle, `~/Applications/<Name>.app`, which Spotlight and
//!   Launchpad find by themselves.
//!
//! What an app is called and how it starts comes from an `app.info` in its
//! release, `key=value` lines —
//!
//! ```text
//! name=codelovesme IDE
//! comment=A terminal IDE for the code language
//! terminal=true          # it draws in a terminal: open one to run it in
//! icon=icon.png          # a file in the release, or a theme icon's name
//! categories=Development;IDE;
//! keywords=editor;code;
//! ```
//!
//! — or, for the packages cdlvsm knows, from its own defaults below. A
//! command-line tool (`code`, `euglena`) has neither and gets no entry.
//! The entry starts the app through its `cdlvsm-<pkg>` shim, so an upgrade
//! never leaves it pointing at a version that is gone.
//!
//! This module computes what is written; the program writes it.

use vstd::prelude::*;
use vstd::string::*;
use crate::paths::{current_link, current_link_path, join, join_path};
use crate::text::{
    before, chars_of, find, find_char_exec, find_exec, is_text, lemma_find_some, lemma_lines_step, lines,
    map_chars, next_line, occurs_at, push_chars, push_replaced, push_str, replace_char,
    replaced, string_of, strip_cr, trim, trim_exec, views,
};

verus! {

#[derive(Clone, Debug, PartialEq)]
pub struct App {
    pub name: String,
    pub comment: String,
    /// It runs inside a terminal, so its entry opens one to run it in.
    pub terminal: bool,
    /// A theme icon's name, or a path (made absolute when it is the
    /// release's own file).
    pub icon: String,
    pub categories: String,
    pub keywords: String,
}

/// An app, as text.
pub struct AppView {
    pub name: Seq<char>,
    pub comment: Seq<char>,
    pub terminal: bool,
    pub icon: Seq<char>,
    pub categories: Seq<char>,
    pub keywords: Seq<char>,
}

impl View for App {
    type V = AppView;

    open spec fn view(&self) -> AppView {
        AppView {
            name: self.name@,
            comment: self.comment@,
            terminal: self.terminal,
            icon: self.icon@,
            categories: self.categories@,
            keywords: self.keywords@,
        }
    }
}

// ---------------------------------------------------------------------------
// What each function means
// ---------------------------------------------------------------------------

pub open spec fn app_view(
    name: Seq<char>,
    comment: Seq<char>,
    terminal: bool,
    icon: Seq<char>,
    categories: Seq<char>,
    keywords: Seq<char>,
) -> AppView {
    AppView { name, comment, terminal, icon, categories, keywords }
}

/// The apps cdlvsm knows, for releases without an `app.info`.
pub open spec fn builtin_app(pkg: Seq<char>) -> Option<AppView> {
    if pkg == "ide"@ {
        Some(
            app_view(
                "codelovesme IDE"@,
                "A terminal IDE for the code language"@,
                true,
                "accessories-text-editor"@,
                "Development;IDE;TextEditor;Utility;"@,
                "editor;code;euglena;codelovesme;"@,
            ),
        )
    } else if pkg == "console"@ {
        Some(
            app_view(
                "codelovesme console"@,
                "A terminal in a window of its own"@,
                false,
                "utilities-terminal"@,
                "System;TerminalEmulator;"@,
                "terminal;shell;command;codelovesme;"@,
            ),
        )
    } else {
        None
    }
}

/// What `app.info` is read over when there are no defaults: nothing but
/// the `Utility;` category.
pub open spec fn blank_app() -> AppView {
    app_view(Seq::empty(), Seq::empty(), false, Seq::empty(), "Utility;"@, Seq::empty())
}

pub open spec fn base_app(base: Option<AppView>) -> AppView {
    match base {
        Some(a) => a,
        None => blank_app(),
    }
}

/// The key and value that a line of `app.info` gives, if it gives one: the
/// line up to ` #`, trimmed, not empty and not a `#` comment, split at its
/// first `=`, both sides trimmed.
pub open spec fn info_entry(line: Seq<char>) -> Option<(Seq<char>, Seq<char>)> {
    let l = trim(before(line, " #"@));
    if l.len() == 0 || l[0] == '#' {
        None
    } else {
        match find(l, seq!['=']) {
            Some(i) => Some((trim(l.take(i)), trim(l.skip(i + 1)))),
            None => None,
        }
    }
}

/// `app` with the known `key` set to `value`; an unknown key changes nothing.
pub open spec fn info_set(app: AppView, key: Seq<char>, value: Seq<char>) -> AppView {
    if key == "name"@ {
        AppView { name: value, ..app }
    } else if key == "comment"@ {
        AppView { comment: value, ..app }
    } else if key == "terminal"@ {
        AppView { terminal: value == "true"@, ..app }
    } else if key == "icon"@ {
        AppView { icon: value, ..app }
    } else if key == "categories"@ {
        AppView { categories: value, ..app }
    } else if key == "keywords"@ {
        AppView { keywords: value, ..app }
    } else {
        app
    }
}

/// `app` after one line of `app.info`.
pub open spec fn info_step(app: AppView, line: Seq<char>) -> AppView {
    match info_entry(line) {
        Some((k, v)) => info_set(app, k, v),
        None => app,
    }
}

/// `app` after the lines, in order.
pub open spec fn read_info(app: AppView, ls: Seq<Seq<char>>) -> AppView
    decreases ls.len(),
{
    if ls.len() == 0 {
        app
    } else {
        read_info(info_step(app, ls[0]), ls.drop_first())
    }
}

/// `app.info`'s text read over `base`; an app only when it has a name.
pub open spec fn parsed_info(text: Seq<char>, base: Option<AppView>) -> Option<AppView> {
    let app = read_info(base_app(base), lines(text));
    if app.name.len() > 0 {
        Some(app)
    } else {
        None
    }
}

pub open spec fn opt_app_view(a: Option<App>) -> Option<AppView> {
    match a {
        Some(a) => Some(a@),
        None => None,
    }
}

/// The app of the release of `pkg`: its `app.info` over the defaults, or
/// the defaults; an icon that is a file of the release is reached through
/// `current`.
pub open spec fn release_app(
    prefix: Seq<char>,
    pkg: Seq<char>,
    info: Option<Seq<char>>,
    files: Seq<Seq<char>>,
) -> Option<AppView> {
    let app = match info {
        Some(t) => parsed_info(t, builtin_app(pkg)),
        None => builtin_app(pkg),
    };
    match app {
        Some(a) => Some(
            if a.icon.len() > 0 && !a.icon.contains('/') && files.contains(a.icon) {
                AppView { icon: join(current_link_path(prefix, pkg), a.icon), ..a }
            } else {
                a
            },
        ),
        None => None,
    }
}

/// A value for a desktop entry: its backslashes doubled, on one line.
pub open spec fn entry_value_text(s: Seq<char>) -> Seq<char> {
    replace_char(replace_char(s, '\\', "\\\\"@), '\n', " "@)
}

/// A character that an `Exec` argument may hold unquoted.
pub open spec fn is_plain_char(c: char) -> bool {
    ||| 'a' <= c <= 'z'
    ||| 'A' <= c <= 'Z'
    ||| '0' <= c <= '9'
    ||| c == '/'
    ||| c == '.'
    ||| c == '_'
    ||| c == '-'
    ||| c == '+'
}

/// Inside the quotes, `"`, `` ` ``, `$` and `\` take a backslash.
pub open spec fn backslashed(c: char) -> Seq<char> {
    if c == '"' || c == '`' || c == '$' || c == '\\' {
        seq!['\\', c]
    } else {
        seq![c]
    }
}

pub open spec fn backslashing() -> spec_fn(char) -> Seq<char> {
    |c: char| backslashed(c)
}

/// A command-line argument for a desktop entry's `Exec`: as it is when
/// every character is plain, else in double quotes with its specials
/// backslashed, and every `%` doubled.
pub open spec fn exec_arg_text(s: Seq<char>) -> Seq<char> {
    if forall|i: int| 0 <= i < s.len() ==> is_plain_char(#[trigger] s[i]) {
        s
    } else {
        replace_char(seq!['"'] + map_chars(s, backslashing()) + seq!['"'], '%', "%%"@)
    }
}

pub open spec fn bool_text(b: bool) -> Seq<char> {
    if b {
        "true"@
    } else {
        "false"@
    }
}

/// A `key=value` line when `value` is not empty.
pub open spec fn optional_line(key: Seq<char>, value: Seq<char>) -> Seq<char> {
    if value.len() > 0 {
        key + entry_value_text(value) + "\n"@
    } else {
        Seq::empty()
    }
}

/// The XDG desktop entry for `app`, started by `exec`.
pub open spec fn desktop_entry_text(pkg: Seq<char>, app: AppView, exec: Seq<char>) -> Seq<char> {
    "[Desktop Entry]\nType=Application\n"@ + "Name="@ + entry_value_text(app.name) + "\n"@
        + optional_line("Comment="@, app.comment) + "Exec="@ + exec_arg_text(exec) + "\n"@
        + optional_line("Icon="@, app.icon) + "Terminal="@ + bool_text(app.terminal) + "\n"@
        + "Categories="@ + entry_value_text(app.categories) + "\n"@ + optional_line(
        "Keywords="@,
        app.keywords,
    ) + "StartupNotify="@ + bool_text(!app.terminal) + "\n"@ + entry_marker(pkg) + "\n"@
}

/// What marks a desktop entry as cdlvsm's, for `pkg`.
pub open spec fn entry_marker(pkg: Seq<char>) -> Seq<char> {
    "X-cdlvsm-Package="@ + pkg
}

/// A string for a shell script, in single quotes.
pub open spec fn sh_quoted_text(s: Seq<char>) -> Seq<char> {
    seq!['\''] + replace_char(s, '\'', "'\\''"@) + seq!['\'']
}

/// The macOS bundle's program: the shim itself, or, for a terminal app,
/// Terminal.app told to run it.
pub open spec fn mac_launcher_text(app: AppView, exec: Seq<char>) -> Seq<char> {
    if app.terminal {
        let command = replace_char(
            replace_char("exec "@ + sh_quoted_text(exec), '\\', "\\\\"@),
            '"',
            "\\\""@,
        );
        "#!/bin/sh\nosascript -e 'tell application \"Terminal\" to do script \""@ + replace_char(
            command,
            '\'',
            "'\\''"@,
        ) + "\"' -e 'tell application \"Terminal\" to activate'\n"@
    } else {
        "#!/bin/sh\nexec "@ + sh_quoted_text(exec) + " \"$@\"\n"@
    }
}

/// Text for XML: `&`, `<` and `>` as entities.
pub open spec fn xml_text(s: Seq<char>) -> Seq<char> {
    replace_char(replace_char(replace_char(s, '&', "&amp;"@), '<', "&lt;"@), '>', "&gt;"@)
}

/// The macOS bundle's Info.plist.
pub open spec fn mac_plist_text(pkg: Seq<char>, app: AppView) -> Seq<char> {
    let name = xml_text(app.name);
    "<?xml version=\"1.0\" encoding=\"UTF-8\"?>\n<!DOCTYPE plist PUBLIC \"-//Apple//DTD PLIST 1.0//EN\" \"http://www.apple.com/DTDs/PropertyList-1.0.dtd\">\n<plist version=\"1.0\">\n<dict>\n  <key>CFBundleName</key><string>"@
        + name + "</string>\n  <key>CFBundleDisplayName</key><string>"@ + name
        + "</string>\n  <key>CFBundleIdentifier</key><string>me.codeloves."@ + pkg
        + "</string>\n  <key>CFBundleExecutable</key><string>"@ + pkg
        + "</string>\n  <key>CFBundlePackageType</key><string>APPL</string>\n  <key>CFBundleShortVersionString</key><string>1</string>\n  <key>LSMinimumSystemVersion</key><string>10.13</string>\n  "@
        + plist_marker(pkg) + "\n</dict>\n</plist>\n"@
}

/// What marks an Info.plist as cdlvsm's, for `pkg`.
pub open spec fn plist_marker(pkg: Seq<char>) -> Seq<char> {
    "<key>X-cdlvsm-Package</key><string>"@ + pkg + "</string>"@
}

/// `$XDG_DATA_HOME/applications`, or `$HOME/.local/share/applications`.
pub open spec fn applications_path(xdg_data_home: Option<Seq<char>>, home: Option<Seq<char>>) -> Seq<
    char,
> {
    let data = match xdg_data_home {
        Some(d) if d.len() > 0 => d,
        _ => join(
            match home {
                Some(h) => h,
                None => Seq::empty(),
            },
            ".local/share"@,
        ),
    };
    join(data, "applications"@)
}

/// `~/Applications/<Name>.app`, a `/` of the name made `-`.
pub open spec fn mac_app_path(home: Option<Seq<char>>, app: AppView) -> Seq<char> {
    join(
        join(
            match home {
                Some(h) => h,
                None => Seq::empty(),
            },
            "Applications"@,
        ),
        replace_char(app.name, '/', "-"@) + ".app"@,
    )
}

// ---------------------------------------------------------------------------
// Executable
// ---------------------------------------------------------------------------

fn new_app(
    name: &str,
    comment: &str,
    terminal: bool,
    icon: &str,
    categories: &str,
    keywords: &str,
) -> (a: App)
    ensures
        a@ == app_view(name@, comment@, terminal, icon@, categories@, keywords@),
{
    App {
        name: String::from_str(name),
        comment: String::from_str(comment),
        terminal,
        icon: String::from_str(icon),
        categories: String::from_str(categories),
        keywords: String::from_str(keywords),
    }
}

/// The apps cdlvsm knows, for releases without an `app.info`.
pub fn builtin(pkg: &str) -> (r: Option<App>)
    ensures
        opt_app_view(r) == builtin_app(pkg@),
{
    let p = chars_of(pkg);
    if is_text(p.as_slice(), "ide") {
        Some(
            new_app(
                "codelovesme IDE",
                "A terminal IDE for the code language",
                true,
                "accessories-text-editor",
                "Development;IDE;TextEditor;Utility;",
                "editor;code;euglena;codelovesme;",
            ),
        )
    } else if is_text(p.as_slice(), "console") {
        Some(
            new_app(
                "codelovesme console",
                "A terminal in a window of its own",
                false,
                "utilities-terminal",
                "System;TerminalEmulator;",
                "terminal;shell;command;codelovesme;",
            ),
        )
    } else {
        None
    }
}

/// The key and value of a line of `app.info`.
fn info_entry_exec(line: &[char]) -> (r: Option<(Vec<char>, Vec<char>)>)
    ensures
        match (r, info_entry(line@)) {
            (Some((k, v)), Some((sk, sv))) => k@ == sk && v@ == sv,
            (None, None) => true,
            _ => false,
        },
{
    let marker = chars_of(" #");
    let cut = match find_exec(line, marker.as_slice()) {
        Some(i) => trim_exec(&line[0..i]),
        None => trim_exec(line),
    };
    proof {
        match find(line@, " #"@) {
            Some(i) => {
                assert(line@.subrange(0, i) =~= line@.take(i));
            },
            None => {},
        }
    }
    assert(cut@ == trim(before(line@, " #"@)));
    if cut.len() == 0 || cut[0] == '#' {
        return None;
    }
    match find_char_exec(cut.as_slice(), '=') {
        Some(i) => {
            let key = trim_exec(&cut[0..i]);
            let value = trim_exec(&cut[i + 1..cut.len()]);
            assert(cut@.subrange(0, i as int) =~= cut@.take(i as int));
            assert(cut@.subrange(i + 1, cut@.len() as int) =~= cut@.skip(i + 1));
            Some((key, value))
        },
        None => None,
    }
}

/// `app` after one line of `app.info`.
fn info_line(app: &mut App, line: &[char])
    ensures
        final(app)@ == info_step(old(app)@, line@),
{
    match info_entry_exec(line) {
        Some((key, value)) => {
            let v = string_of(value.as_slice());
            let k = key.as_slice();
            if is_text(k, "name") {
                app.name = v;
            } else if is_text(k, "comment") {
                app.comment = v;
            } else if is_text(k, "terminal") {
                app.terminal = is_text(value.as_slice(), "true");
            } else if is_text(k, "icon") {
                app.icon = v;
            } else if is_text(k, "categories") {
                app.categories = v;
            } else if is_text(k, "keywords") {
                app.keywords = v;
            }
        },
        None => {},
    }
}

/// `app.info`'s text read over `base` (the defaults, if any). Unknown keys
/// and `#` comments are ignored; a missing `name` means it is not an app.
pub fn parse_info(text: &str, base: Option<App>) -> (r: Option<App>)
    ensures
        opt_app_view(r) == parsed_info(text@, opt_app_view(base)),
{
    let ghost start = base_app(opt_app_view(base));
    let mut app = match base {
        Some(a) => a,
        None => {
            let a = new_app("", "", false, "", "Utility;", "");
            proof {
                reveal_strlit("");
                assert(a@.name =~= Seq::<char>::empty());
                assert(a@.comment =~= Seq::<char>::empty());
                assert(a@.icon =~= Seq::<char>::empty());
                assert(a@.keywords =~= Seq::<char>::empty());
            }
            a
        },
    };
    assert(app@ == start);
    let t = chars_of(text);
    let mut pos: usize = 0;
    assert(t@.skip(0) =~= t@);
    while pos < t.len()
        invariant
            pos <= t@.len(),
            t@ == text@,
            read_info(start, lines(text@)) == read_info(app@, lines(t@.skip(pos as int))),
        decreases t.len() - pos,
    {
        let (line, next) = next_line(t.as_slice(), pos);
        let ghost before_line = app@;
        info_line(&mut app, line.as_slice());
        proof {
            let rest = lines(t@.skip(next as int));
            assert((seq![line@] + rest)[0] == line@);
            assert((seq![line@] + rest).drop_first() =~= rest);
        }
        pos = next;
    }
    proof {
        assert(t@.skip(pos as int) =~= Seq::<char>::empty());
        assert(lines(Seq::<char>::empty()) =~= Seq::<Seq<char>>::empty());
    }
    if app.name.as_str().is_empty() {
        None
    } else {
        Some(app)
    }
}

/// Whether the text `s` is one of `files`.
fn contains_text(files: &Vec<String>, s: &[char]) -> (r: bool)
    ensures
        r == views(files@).contains(s@),
{
    let mut i: usize = 0;
    while i < files.len()
        invariant
            i <= files@.len(),
            forall|j: int| 0 <= j < i ==> files@[j]@ != s@,
        decreases files.len() - i,
    {
        let f = chars_of(files[i].as_str());
        if crate::text::same_chars(f.as_slice(), s) {
            assert(views(files@)[i as int] == s@);
            return true;
        }
        i += 1;
    }
    proof {
        if views(files@).contains(s@) {
            let j = choose|j: int| 0 <= j < views(files@).len() && views(files@)[j] == s@;
            assert(files@[j]@ == s@);
        }
    }
    false
}

/// The app in the release of `pkg`, if it is one: `info` is the text of the
/// release's `app.info` (`None` when it has none that can be read), `files`
/// the names of the release's own files, `prefix` the install root.
pub fn app_for(prefix: &str, pkg: &str, info: Option<&str>, files: &Vec<String>) -> (r: Option<App>)
    ensures
        opt_app_view(r) == release_app(
            prefix@,
            pkg@,
            match info {
                Some(t) => Some(t@),
                None => None,
            },
            views(files@),
        ),
{
    let app = match info {
        Some(text) => parse_info(text, builtin(pkg)),
        None => builtin(pkg),
    };
    match app {
        Some(mut a) => {
            let icon = chars_of(a.icon.as_str());
            if icon.len() > 0 && find_char_exec(icon.as_slice(), '/').is_none() && contains_text(
                files,
                icon.as_slice(),
            ) {
                let current = current_link(prefix, pkg);
                a.icon = join_path(current.as_str(), a.icon.as_str());
            }
            Some(a)
        },
        None => None,
    }
}

/// A value for a desktop entry: its escapes, on one line.
pub fn entry_value(s: &str) -> (r: String)
    ensures
        r@ == entry_value_text(s@),
{
    let v = chars_of(s);
    let once = replaced(v.as_slice(), '\\', "\\\\");
    let mut out = String::new();
    push_replaced(&mut out, once.as_slice(), '\n', " ");
    out
}

/// Whether every character may stand unquoted in `Exec`.
fn all_plain(v: &[char]) -> (r: bool)
    ensures
        r == forall|i: int| 0 <= i < v@.len() ==> is_plain_char(#[trigger] v@[i]),
{
    let mut i: usize = 0;
    while i < v.len()
        invariant
            i <= v@.len(),
            forall|j: int| 0 <= j < i ==> is_plain_char(#[trigger] v@[j]),
        decreases v.len() - i,
    {
        let c = v[i];
        let plain = ('a' <= c && c <= 'z') || ('A' <= c && c <= 'Z') || ('0' <= c && c <= '9')
            || c == '/' || c == '.' || c == '_' || c == '-' || c == '+';
        if !plain {
            return false;
        }
        i += 1;
    }
    true
}

/// A command-line argument for a desktop entry's `Exec`, quoted as the
/// spec asks when it needs to be.
pub fn exec_arg(s: &str) -> (r: String)
    ensures
        r@ == exec_arg_text(s@),
{
    let v = chars_of(s);
    if all_plain(v.as_slice()) {
        return string_of(v.as_slice());
    }
    let mut quoted = String::new();
    quoted.push('"');
    let mut i: usize = 0;
    let ghost f = backslashing();
    while i < v.len()
        invariant
            i <= v@.len(),
            f == backslashing(),
            quoted@ == seq!['"'] + map_chars(v@.take(i as int), f),
        decreases v.len() - i,
    {
        let c = v[i];
        if c == '"' || c == '`' || c == '$' || c == '\\' {
            quoted.push('\\');
        }
        quoted.push(c);
        proof {
            assert(v@.take(i as int + 1) =~= v@.take(i as int).push(c));
            crate::text::lemma_map_chars_push(v@.take(i as int), c, f);
            assert(quoted@ =~= seq!['"'] + map_chars(v@.take(i as int + 1), f));
        }
        i += 1;
    }
    quoted.push('"');
    assert(v@.take(v@.len() as int) =~= v@);
    let q = chars_of(quoted.as_str());
    assert(q@ =~= seq!['"'] + map_chars(v@, backslashing()) + seq!['"']);
    let mut out = String::new();
    push_replaced(&mut out, q.as_slice(), '%', "%%");
    assert(out@ =~= replace_char(q@, '%', "%%"@));
    out
}

/// `value` for an entry after `key`, on a line of its own, when not empty.
fn push_optional_line(out: &mut String, key: &str, value: &String)
    ensures
        final(out)@ == old(out)@ + optional_line(key@, value@),
{
    if !value.as_str().is_empty() {
        push_str(out, key);
        let ev = entry_value(value.as_str());
        push_str(out, ev.as_str());
        push_str(out, "\n");
    } else {
        assert(old(out)@ + Seq::<char>::empty() =~= old(out)@);
    }
}

fn bool_str(b: bool) -> (r: &'static str)
    ensures
        r@ == bool_text(b),
{
    if b {
        "true"
    } else {
        "false"
    }
}

/// The XDG desktop entry for `app`, started by `exec`.
pub fn desktop_entry(pkg: &str, app: &App, exec: &str) -> (r: String)
    ensures
        r@ == desktop_entry_text(pkg@, app@, exec@),
{
    let mut out = String::new();
    push_str(&mut out, "[Desktop Entry]\nType=Application\n");
    push_str(&mut out, "Name=");
    let name = entry_value(app.name.as_str());
    push_str(&mut out, name.as_str());
    push_str(&mut out, "\n");
    push_optional_line(&mut out, "Comment=", &app.comment);
    push_str(&mut out, "Exec=");
    let e = exec_arg(exec);
    push_str(&mut out, e.as_str());
    push_str(&mut out, "\n");
    push_optional_line(&mut out, "Icon=", &app.icon);
    push_str(&mut out, "Terminal=");
    push_str(&mut out, bool_str(app.terminal));
    push_str(&mut out, "\n");
    push_str(&mut out, "Categories=");
    let c = entry_value(app.categories.as_str());
    push_str(&mut out, c.as_str());
    push_str(&mut out, "\n");
    push_optional_line(&mut out, "Keywords=", &app.keywords);
    push_str(&mut out, "StartupNotify=");
    push_str(&mut out, bool_str(!app.terminal));
    push_str(&mut out, "\n");
    // Whose it is, so uninstall removes only what cdlvsm wrote.
    push_str(&mut out, "X-cdlvsm-Package=");
    push_str(&mut out, pkg);
    push_str(&mut out, "\n");
    proof {
        reveal_strlit("");
        assert(Seq::<char>::empty() + "[Desktop Entry]\nType=Application\n"@ =~= "[Desktop Entry]\nType=Application\n"@);
    }
    assert(out@ =~= desktop_entry_text(pkg@, app@, exec@));
    out
}

/// A string for a shell script, in single quotes.
pub fn sh_quoted(s: &str) -> (r: String)
    ensures
        r@ == sh_quoted_text(s@),
{
    let v = chars_of(s);
    let mut out = String::new();
    out.push('\'');
    push_replaced(&mut out, v.as_slice(), '\'', "'\\''");
    out.push('\'');
    proof {
        reveal_strlit("");
    }
    assert(out@ =~= sh_quoted_text(s@));
    out
}

/// The macOS bundle's program: the shim itself, or, for a terminal app,
/// Terminal.app told to run it.
pub fn mac_launcher(app: &App, exec: &str) -> (r: String)
    ensures
        r@ == mac_launcher_text(app@, exec@),
{
    let quoted = sh_quoted(exec);
    let mut out = String::new();
    if app.terminal {
        let mut line = String::new();
        push_str(&mut line, "exec ");
        push_str(&mut line, quoted.as_str());
        let lv = chars_of(line.as_str());
        let once = replaced(lv.as_slice(), '\\', "\\\\");
        let command = replaced(once.as_slice(), '"', "\\\"");
        push_str(
            &mut out,
            "#!/bin/sh\nosascript -e 'tell application \"Terminal\" to do script \"",
        );
        push_replaced(&mut out, command.as_slice(), '\'', "'\\''");
        push_str(&mut out, "\"' -e 'tell application \"Terminal\" to activate'\n");
        proof {
            reveal_strlit("");
            assert(line@ =~= "exec "@ + sh_quoted_text(exec@));
        }
        assert(out@ =~= mac_launcher_text(app@, exec@));
    } else {
        push_str(&mut out, "#!/bin/sh\nexec ");
        push_str(&mut out, quoted.as_str());
        push_str(&mut out, " \"$@\"\n");
        proof {
            reveal_strlit("");
        }
        assert(out@ =~= mac_launcher_text(app@, exec@));
    }
    out
}

/// Text for XML.
pub fn xml(s: &str) -> (r: String)
    ensures
        r@ == xml_text(s@),
{
    let v = chars_of(s);
    let a = replaced(v.as_slice(), '&', "&amp;");
    let b = replaced(a.as_slice(), '<', "&lt;");
    let mut out = String::new();
    push_replaced(&mut out, b.as_slice(), '>', "&gt;");
    proof {
        reveal_strlit("");
        assert(Seq::<char>::empty() + xml_text(s@) =~= xml_text(s@));
    }
    out
}

/// The macOS bundle's Info.plist.
pub fn mac_plist(pkg: &str, app: &App) -> (r: String)
    ensures
        r@ == mac_plist_text(pkg@, app@),
{
    let name = xml(app.name.as_str());
    let mut out = String::new();
    push_str(
        &mut out,
        "<?xml version=\"1.0\" encoding=\"UTF-8\"?>\n<!DOCTYPE plist PUBLIC \"-//Apple//DTD PLIST 1.0//EN\" \"http://www.apple.com/DTDs/PropertyList-1.0.dtd\">\n<plist version=\"1.0\">\n<dict>\n  <key>CFBundleName</key><string>",
    );
    push_str(&mut out, name.as_str());
    push_str(&mut out, "</string>\n  <key>CFBundleDisplayName</key><string>");
    push_str(&mut out, name.as_str());
    push_str(&mut out, "</string>\n  <key>CFBundleIdentifier</key><string>me.codeloves.");
    push_str(&mut out, pkg);
    push_str(&mut out, "</string>\n  <key>CFBundleExecutable</key><string>");
    push_str(&mut out, pkg);
    push_str(
        &mut out,
        "</string>\n  <key>CFBundlePackageType</key><string>APPL</string>\n  <key>CFBundleShortVersionString</key><string>1</string>\n  <key>LSMinimumSystemVersion</key><string>10.13</string>\n  ",
    );
    push_str(&mut out, "<key>X-cdlvsm-Package</key><string>");
    push_str(&mut out, pkg);
    push_str(&mut out, "</string>");
    push_str(&mut out, "\n</dict>\n</plist>\n");
    proof {
        reveal_strlit("");
    }
    assert(out@ =~= mac_plist_text(pkg@, app@));
    out
}

/// Whether `text`, a desktop entry, is the one cdlvsm wrote for `pkg`.
pub fn is_cdlvsm_entry(text: &str, pkg: &str) -> (r: bool)
    ensures
        r == find(text@, entry_marker(pkg@)) is Some,
{
    let mut marker = String::new();
    push_str(&mut marker, "X-cdlvsm-Package=");
    push_str(&mut marker, pkg);
    proof {
        reveal_strlit("");
        assert(marker@ =~= entry_marker(pkg@));
    }
    let t = chars_of(text);
    let m = chars_of(marker.as_str());
    find_exec(t.as_slice(), m.as_slice()).is_some()
}

/// Whether `text`, an Info.plist, is the one cdlvsm wrote for `pkg`.
pub fn is_cdlvsm_plist(text: &str, pkg: &str) -> (r: bool)
    ensures
        r == find(text@, plist_marker(pkg@)) is Some,
{
    let mut marker = String::new();
    push_str(&mut marker, "<key>X-cdlvsm-Package</key><string>");
    push_str(&mut marker, pkg);
    push_str(&mut marker, "</string>");
    proof {
        reveal_strlit("");
        assert(marker@ =~= plist_marker(pkg@));
    }
    let t = chars_of(text);
    let m = chars_of(marker.as_str());
    find_exec(t.as_slice(), m.as_slice()).is_some()
}

/// The file name of `pkg`'s desktop entry.
pub fn desktop_file_name(pkg: &str) -> (r: String)
    ensures
        r@ == "codelovesme-"@ + pkg@ + ".desktop"@,
{
    let mut out = String::new();
    push_str(&mut out, "codelovesme-");
    push_str(&mut out, pkg);
    push_str(&mut out, ".desktop");
    proof {
        reveal_strlit("");
    }
    assert(out@ =~= "codelovesme-"@ + pkg@ + ".desktop"@);
    out
}

/// Where desktop entries go: `$XDG_DATA_HOME/applications` when that is set
/// and not empty, else `$HOME/.local/share/applications`.
pub fn applications_dir(xdg_data_home: Option<&str>, home: Option<&str>) -> (r: String)
    ensures
        r@ == applications_path(
            crate::paths::opt_view(xdg_data_home),
            crate::paths::opt_view(home),
        ),
{
    let data = match xdg_data_home {
        Some(d) if !d.is_empty() => String::from_str(d),
        _ => {
            proof {
                reveal_strlit("");
            }
            match home {
                Some(h) => join_path(h, ".local/share"),
                None => join_path("", ".local/share"),
            }
        },
    };
    join_path(data.as_str(), "applications")
}

/// The app bundle of `app`: `~/Applications/<Name>.app`.
pub fn mac_app_dir(home: Option<&str>, app: &App) -> (r: String)
    ensures
        r@ == mac_app_path(crate::paths::opt_view(home), app@),
{
    proof {
        reveal_strlit("");
    }
    let apps = match home {
        Some(h) => join_path(h, "Applications"),
        None => join_path("", "Applications"),
    };
    let n = chars_of(app.name.as_str());
    let mut bundle = String::new();
    push_replaced(&mut bundle, n.as_slice(), '/', "-");
    push_str(&mut bundle, ".app");
    assert(bundle@ =~= replace_char(app@.name, '/', "-"@) + ".app"@);
    join_path(apps.as_str(), bundle.as_str())
}

// ---------------------------------------------------------------------------
// Laws
// ---------------------------------------------------------------------------

/// `app.info` lines that are blank, `#` comments, not `key=value`, or of a
/// key cdlvsm does not know change nothing.
pub proof fn lemma_info_ignores_other_lines(app: AppView, line: Seq<char>)
    requires
        match info_entry(line) {
            None => true,
            Some((k, v)) => k != "name"@ && k != "comment"@ && k != "terminal"@ && k != "icon"@
                && k != "categories"@ && k != "keywords"@,
        },
    ensures
        info_step(app, line) == app,
{
}

/// `%%` read back as `%`, as a desktop entry's `Exec` is read.
pub open spec fn unpercent(s: Seq<char>) -> Seq<char>
    decreases s.len(),
{
    if s.len() == 0 {
        s
    } else if s.len() >= 2 && s[0] == '%' && s[1] == '%' {
        seq!['%'] + unpercent(s.skip(2))
    } else {
        seq![s[0]] + unpercent(s.skip(1))
    }
}

/// A backslash read as what it escapes.
pub open spec fn unbackslash(s: Seq<char>) -> Seq<char>
    decreases s.len(),
{
    if s.len() == 0 {
        s
    } else if s.len() >= 2 && s[0] == '\\' {
        seq![s[1]] + unbackslash(s.skip(2))
    } else {
        seq![s[0]] + unbackslash(s.skip(1))
    }
}

/// An `Exec` argument read as the Desktop Entry Specification reads it:
/// `%%` is `%`, and a double-quoted argument is what it quotes.
pub open spec fn exec_arg_read(a: Seq<char>) -> Seq<char> {
    let u = unpercent(a);
    if u.len() >= 2 && u[0] == '"' && u.last() == '"' {
        unbackslash(u.subrange(1, u.len() - 1))
    } else {
        u
    }
}

proof fn lemma_map_chars_front(c: char, rest: Seq<char>, f: spec_fn(char) -> Seq<char>)
    ensures
        map_chars(seq![c] + rest, f) == f(c) + map_chars(rest, f),
{
    crate::text::lemma_map_chars_concat(seq![c], rest, f);
    assert(seq![c].drop_last() =~= Seq::<char>::empty());
    assert(seq![c].last() == c);
    assert(map_chars(Seq::<char>::empty(), f) =~= Seq::<char>::empty());
    assert(Seq::<char>::empty() + f(c) =~= f(c));
    assert(map_chars(seq![c], f) =~= f(c));
}

proof fn lemma_unpercent_doubled(x: Seq<char>)
    ensures
        unpercent(replace_char(x, '%', "%%"@)) == x,
    decreases x.len(),
{
    reveal_strlit("%%");
    if x.len() > 0 {
        let f = crate::text::replacing('%', "%%"@);
        assert(x =~= seq![x[0]] + x.skip(1));
        lemma_map_chars_front(x[0], x.skip(1), f);
        lemma_unpercent_doubled(x.skip(1));
        let r = replace_char(x.skip(1), '%', "%%"@);
        let whole = f(x[0]) + r;
        if x[0] == '%' {
            assert(whole.skip(2) =~= r);
            assert(whole[0] == '%' && whole[1] == '%');
        } else {
            assert(whole.skip(1) =~= r);
            assert(whole[0] == x[0]);
        }
        assert(seq![x[0]] + x.skip(1) =~= x);
    } else {
        assert(replace_char(x, '%', "%%"@) =~= Seq::<char>::empty());
    }
}

proof fn lemma_unpercent_plain(x: Seq<char>)
    requires
        !x.contains('%'),
    ensures
        unpercent(x) == x,
    decreases x.len(),
{
    if x.len() > 0 {
        assert(x[0] != '%');
        assert(!x.skip(1).contains('%')) by {
            if x.skip(1).contains('%') {
                let i = choose|i: int| 0 <= i < x.skip(1).len() && x.skip(1)[i] == '%';
                assert(x[i + 1] == '%');
            }
        }
        lemma_unpercent_plain(x.skip(1));
        assert(seq![x[0]] + x.skip(1) =~= x);
    }
}

proof fn lemma_unbackslash_escaped(x: Seq<char>)
    ensures
        unbackslash(map_chars(x, backslashing())) == x,
    decreases x.len(),
{
    if x.len() > 0 {
        let f = backslashing();
        assert(x =~= seq![x[0]] + x.skip(1));
        lemma_map_chars_front(x[0], x.skip(1), f);
        lemma_unbackslash_escaped(x.skip(1));
        let r = map_chars(x.skip(1), f);
        let whole = f(x[0]) + r;
        if x[0] == '"' || x[0] == '`' || x[0] == '$' || x[0] == '\\' {
            assert(whole.skip(2) =~= r);
            assert(whole[0] == '\\' && whole[1] == x[0]);
        } else {
            assert(whole.skip(1) =~= r);
            assert(whole[0] == x[0]);
        }
        assert(seq![x[0]] + x.skip(1) =~= x);
    } else {
        assert(map_chars(x, backslashing()) =~= Seq::<char>::empty());
    }
}

/// Read back as the Desktop Entry Specification reads `Exec`, the quoted
/// argument is the path it quotes: the entry starts exactly that shim.
pub proof fn lemma_exec_arg_reads_back(s: Seq<char>)
    ensures
        exec_arg_read(exec_arg_text(s)) == s,
{
    if forall|i: int| 0 <= i < s.len() ==> is_plain_char(#[trigger] s[i]) {
        assert(!s.contains('%')) by {
            if s.contains('%') {
                let i = choose|i: int| 0 <= i < s.len() && s[i] == '%';
                assert(is_plain_char(s[i]));
            }
        }
        lemma_unpercent_plain(s);
        if s.len() > 0 {
            assert(is_plain_char(s[0]));
        }
    } else {
        let q = seq!['"'] + map_chars(s, backslashing()) + seq!['"'];
        lemma_unpercent_doubled(q);
        assert(q.subrange(1, q.len() - 1) =~= map_chars(s, backslashing()));
        lemma_unbackslash_escaped(s);
    }
}

/// One of the keys `app.info` sets.
pub open spec fn info_key(k: Seq<char>) -> bool {
    ||| k == "name"@
    ||| k == "comment"@
    ||| k == "terminal"@
    ||| k == "icon"@
    ||| k == "categories"@
    ||| k == "keywords"@
}

/// A line of `app.info` that is read past: blank, a comment, without `=`,
/// or with a key that is not one of the app's.
pub open spec fn info_ignored(line: Seq<char>) -> bool {
    match info_entry(line) {
        None => true,
        Some((k, v)) => !info_key(k),
    }
}

proof fn lemma_read_front(app: AppView, x: Seq<char>, rest: Seq<Seq<char>>)
    ensures
        read_info(app, seq![x] + rest) == read_info(info_step(app, x), rest),
{
    assert((seq![x] + rest)[0] == x);
    assert((seq![x] + rest).drop_first() =~= rest);
}

proof fn lemma_read_concat(app: AppView, xs: Seq<Seq<char>>, ys: Seq<Seq<char>>)
    ensures
        read_info(app, xs + ys) == read_info(read_info(app, xs), ys),
    decreases xs.len(),
{
    if xs.len() == 0 {
        assert(xs + ys =~= ys);
    } else {
        assert(xs + ys =~= seq![xs[0]] + (xs.drop_first() + ys));
        lemma_read_front(app, xs[0], xs.drop_first() + ys);
        lemma_read_concat(info_step(app, xs[0]), xs.drop_first(), ys);
    }
}

proof fn lemma_read_ignored(app: AppView, ls: Seq<Seq<char>>)
    requires
        forall|i: int| 0 <= i < ls.len() ==> info_ignored(#[trigger] ls[i]),
    ensures
        read_info(app, ls) == app,
    decreases ls.len(),
{
    if ls.len() > 0 {
        assert(info_ignored(ls[0]));
        lemma_info_ignores_other_lines(app, ls[0]);
        let rest = ls.drop_first();
        assert forall|i: int| 0 <= i < rest.len() implies info_ignored(#[trigger] rest[i]) by {
            assert(rest[i] == ls[i + 1]);
        }
        lemma_read_ignored(app, rest);
    }
}

/// Ending the last line changes nothing that is read.
proof fn lemma_read_newline(app: AppView, t: Seq<char>)
    ensures
        read_info(app, lines(t + seq!['\n'])) == read_info(app, lines(t)),
    decreases t.len(),
{
    let tn = t + seq!['\n'];
    if t.contains('\n') {
        let i = crate::text::lemma_first_newline(t);
        assert forall|j: int| 0 <= j < i implies tn[j] != '\n' by {
            assert(tn[j] == t[j]);
        }
        lemma_lines_step(tn, i);
        lemma_lines_step(t, i);
        assert(tn.take(i) =~= t.take(i));
        assert(tn.skip(i + 1) =~= t.skip(i + 1) + seq!['\n']);
        let x = strip_cr(t.take(i));
        lemma_read_front(app, x, lines(t.skip(i + 1) + seq!['\n']));
        lemma_read_front(app, x, lines(t.skip(i + 1)));
        lemma_read_newline(info_step(app, x), t.skip(i + 1));
    } else {
        assert forall|j: int| 0 <= j < t.len() implies tn[j] != '\n' by {
            assert(tn[j] == t[j]);
            if t[j] == '\n' {
                assert(t.contains('\n'));
            }
        }
        lemma_lines_step(tn, t.len() as int);
        assert(tn.take(t.len() as int) =~= t);
        assert(tn.skip(t.len() as int + 1) =~= Seq::<char>::empty());
        lemma_read_front(app, strip_cr(t), Seq::empty());
        assert(lines(tn) =~= seq![strip_cr(t)] + Seq::<Seq<char>>::empty());
        if t.len() == 0 {
            assert(lines(t) =~= Seq::<Seq<char>>::empty());
            assert(strip_cr(t) =~= Seq::<char>::empty());
            reveal_strlit(" #");
            assert(before(t, " #"@) =~= Seq::<char>::empty()) by {
                if find(t, " #"@) is Some {
                    let k = choose|k: int| crate::text::first_at(t, " #"@, k);
                    assert(crate::text::first_at(t, " #"@, k));
                }
            }
            assert(trim(Seq::<char>::empty()) =~= Seq::<char>::empty());
        } else {
            assert forall|j: int| 0 <= j < t.len() implies t[j] != '\n' by {
                if t[j] == '\n' {
                    assert(t.contains('\n'));
                }
            }
            crate::text::lemma_lines_last(t);
            lemma_read_front(app, t, Seq::empty());
            assert(seq![t] + Seq::<Seq<char>>::empty() =~= seq![t]);
            if t.last() == '\r' {
                assert(t.drop_last().push('\r') =~= t);
                crate::text::lemma_before_cr(t.drop_last());
            }
        }
    }
}

/// Blank lines, comments, lines without `=` and lines with keys that are
/// not the app's, added after `app.info`'s text, change nothing it gives.
pub proof fn lemma_info_ignores_added_lines(text: Seq<char>, t2: Seq<char>, base: Option<AppView>)
    requires
        forall|i: int| 0 <= i < lines(t2).len() ==> info_ignored(#[trigger] lines(t2)[i]),
    ensures
        parsed_info(text + seq!['\n'] + t2, base) == parsed_info(text, base),
{
    let tn = text + seq!['\n'];
    crate::text::lemma_lines_concat(tn, t2);
    lemma_read_concat(base_app(base), lines(tn), lines(t2));
    lemma_read_ignored(read_info(base_app(base), lines(tn)), lines(t2));
    lemma_read_newline(base_app(base), text);
}

/// A line of text, then its end.
pub open spec fn ended(l: Seq<char>) -> Seq<char> {
    l + seq!['\n']
}

proof fn lemma_lines_ended(a: Seq<char>, rest: Seq<char>)
    requires
        !a.contains('\n'),
    ensures
        lines(ended(a) + rest).len() == lines(rest).len() + 1,
{
    let t = ended(a) + rest;
    assert forall|j: int| 0 <= j < a.len() implies t[j] != '\n' by {
        assert(t[j] == a[j]);
        if a[j] == '\n' {
            assert(a.contains('\n'));
        }
    }
    assert(t[a.len() as int] == '\n');
    lemma_lines_step(t, a.len() as int);
    assert(t.skip(a.len() as int + 1) =~= rest);
}

proof fn lemma_no_nl_concat(a: Seq<char>, b: Seq<char>)
    requires
        !a.contains('\n'),
        !b.contains('\n'),
    ensures
        !(a + b).contains('\n'),
{
    if (a + b).contains('\n') {
        let j = choose|j: int| 0 <= j < (a + b).len() && (a + b)[j] == '\n';
        if j < a.len() {
            assert(a[j] == '\n');
        } else {
            assert(b[j - a.len()] == '\n');
        }
    }
}

/// A text each character of which becomes no line break has none.
proof fn lemma_map_no_nl(s: Seq<char>, f: spec_fn(char) -> Seq<char>)
    requires
        forall|i: int| 0 <= i < s.len() ==> !(#[trigger] f(s[i])).contains('\n'),
    ensures
        !map_chars(s, f).contains('\n'),
    decreases s.len(),
{
    if s.len() > 0 {
        let d = s.drop_last();
        assert forall|i: int| 0 <= i < d.len() implies !(#[trigger] f(d[i])).contains('\n') by {
            assert(d[i] == s[i]);
        }
        lemma_map_no_nl(d, f);
        assert(!f(s[s.len() - 1]).contains('\n'));
        lemma_no_nl_concat(map_chars(d, f), f(s.last()));
    } else {
        assert(map_chars(s, f) =~= Seq::<char>::empty());
    }
}

proof fn lemma_entry_value_one_line(s: Seq<char>)
    ensures
        !entry_value_text(s).contains('\n'),
{
    reveal_strlit(" ");
    let x = replace_char(s, '\\', "\\\\"@);
    let f = crate::text::replacing('\n', " "@);
    assert forall|i: int| 0 <= i < x.len() implies !(#[trigger] f(x[i])).contains('\n') by {
        if x[i] == '\n' {
            assert(f(x[i]) =~= seq![' ']);
        } else {
            assert(f(x[i]) =~= seq![x[i]]);
        }
        if f(x[i]).contains('\n') {
            let j = choose|j: int| 0 <= j < f(x[i]).len() && #[trigger] f(x[i])[j] == '\n';
        }
    }
    lemma_map_no_nl(x, f);
}

proof fn lemma_exec_arg_one_line(s: Seq<char>)
    requires
        !s.contains('\n'),
    ensures
        !exec_arg_text(s).contains('\n'),
{
    if !(forall|i: int| 0 <= i < s.len() ==> is_plain_char(#[trigger] s[i])) {
        reveal_strlit("%%");
        let f = backslashing();
        assert forall|i: int| 0 <= i < s.len() implies !(#[trigger] f(s[i])).contains('\n') by {
            if s[i] == '\n' {
                assert(s.contains('\n'));
            }
            if f(s[i]).contains('\n') {
                let j = choose|j: int| 0 <= j < f(s[i]).len() && #[trigger] f(s[i])[j] == '\n';
            }
        }
        lemma_map_no_nl(s, f);
        let q = seq!['"'] + map_chars(s, f) + seq!['"'];
        assert(!seq!['"'].contains('\n')) by {
            if seq!['"'].contains('\n') {
                let j = choose|j: int| 0 <= j < 1 && #[trigger] seq!['"'][j] == '\n';
            }
        }
        lemma_no_nl_concat(seq!['"'], map_chars(s, f));
        lemma_no_nl_concat(seq!['"'] + map_chars(s, f), seq!['"']);
        let g = crate::text::replacing('%', "%%"@);
        assert forall|i: int| 0 <= i < q.len() implies !(#[trigger] g(q[i])).contains('\n') by {
            if q[i] == '%' {
                assert(g(q[i]) =~= seq!['%', '%']);
            } else {
                assert(g(q[i]) =~= seq![q[i]]);
                if q[i] == '\n' {
                    assert(q.contains('\n'));
                }
            }
            if g(q[i]).contains('\n') {
                let j = choose|j: int| 0 <= j < g(q[i]).len() && #[trigger] g(q[i])[j] == '\n';
            }
        }
        lemma_map_no_nl(q, g);
    }
}

/// A text spelled out that holds no line break.
proof fn lemma_key_one_line(k: Seq<char>)
    requires
        forall|i: int| 0 <= i < k.len() ==> k[i] != '\n',
    ensures
        !k.contains('\n'),
{
}

pub open spec fn count_if(b: bool) -> int {
    if b {
        1
    } else {
        0
    }
}

/// The fixed texts of a desktop entry hold no line break.
proof fn lemma_entry_keys()
    ensures
        "[Desktop Entry]\nType=Application\n"@ =~= ended("[Desktop Entry]"@) + ended(
            "Type=Application"@,
        ),
        "\n"@ =~= seq!['\n'],
        !"[Desktop Entry]"@.contains('\n'),
        !"Type=Application"@.contains('\n'),
        !"Name="@.contains('\n'),
        !"Comment="@.contains('\n'),
        !"Exec="@.contains('\n'),
        !"Icon="@.contains('\n'),
        !"Terminal="@.contains('\n'),
        !"Categories="@.contains('\n'),
        !"Keywords="@.contains('\n'),
        !"StartupNotify="@.contains('\n'),
        !"X-cdlvsm-Package="@.contains('\n'),
        !"true"@.contains('\n'),
        !"false"@.contains('\n'),
{
    reveal_strlit("[Desktop Entry]\nType=Application\n");
    reveal_strlit("[Desktop Entry]");
    reveal_strlit("Type=Application");
    reveal_strlit("\n");
    reveal_strlit("Name=");
    reveal_strlit("Comment=");
    reveal_strlit("Exec=");
    reveal_strlit("Icon=");
    reveal_strlit("Terminal=");
    reveal_strlit("Categories=");
    reveal_strlit("Keywords=");
    reveal_strlit("StartupNotify=");
    reveal_strlit("X-cdlvsm-Package=");
    reveal_strlit("true");
    reveal_strlit("false");
    lemma_key_one_line("[Desktop Entry]"@);
    lemma_key_one_line("Type=Application"@);
    lemma_key_one_line("Name="@);
    lemma_key_one_line("Comment="@);
    lemma_key_one_line("Exec="@);
    lemma_key_one_line("Icon="@);
    lemma_key_one_line("Terminal="@);
    lemma_key_one_line("Categories="@);
    lemma_key_one_line("Keywords="@);
    lemma_key_one_line("StartupNotify="@);
    lemma_key_one_line("X-cdlvsm-Package="@);
    lemma_key_one_line("true"@);
    lemma_key_one_line("false"@);
}

/// Text whose last line is ended, or none.
pub open spec fn line_ended(x: Seq<char>) -> bool {
    x.len() == 0 || x.last() == '\n'
}

proof fn lemma_add_line(x: Seq<char>, key: Seq<char>, v: Seq<char>)
    requires
        line_ended(x),
        !key.contains('\n'),
        !v.contains('\n'),
    ensures
        line_ended(x + key + v + "\n"@),
        lines(x + key + v + "\n"@).len() == lines(x).len() + 1,
{
    reveal_strlit("\n");
    lemma_no_nl_concat(key, v);
    let y = ended(key + v);
    assert(x + key + v + "\n"@ =~= x + y);
    crate::text::lemma_lines_concat(x, y);
    lemma_lines_ended(key + v, Seq::empty());
    assert(y + Seq::<char>::empty() =~= y);
    assert(lines(Seq::<char>::empty()).len() == 0);
}

proof fn lemma_add_optional(x: Seq<char>, key: Seq<char>, v: Seq<char>)
    requires
        line_ended(x),
        !key.contains('\n'),
    ensures
        line_ended(x + optional_line(key, v)),
        lines(x + optional_line(key, v)).len() == lines(x).len() + count_if(v.len() > 0),
{
    reveal_strlit("\n");
    if v.len() > 0 {
        lemma_entry_value_one_line(v);
        lemma_add_line(x, key, entry_value_text(v));
        assert(x + optional_line(key, v) =~= x + key + entry_value_text(v) + "\n"@);
    } else {
        assert(x + optional_line(key, v) =~= x);
    }
}

proof fn lemma_occurs_end(a: Seq<char>, pat: Seq<char>)
    ensures
        occurs_at(a + pat, pat, a.len() as int),
{
    assert((a + pat).subrange(a.len() as int, (a.len() + pat.len()) as int) =~= pat);
}

proof fn lemma_occurs_extend(x: Seq<char>, y: Seq<char>, pat: Seq<char>, i: int)
    requires
        occurs_at(x, pat, i),
    ensures
        occurs_at(x + y, pat, i),
{
    assert((x + y).subrange(i, i + pat.len()) =~= x.subrange(i, i + pat.len()));
}

/// The line `key` + `v` after text whose last line is ended stands there
/// between two line ends.
proof fn lemma_line_stands(x: Seq<char>, key: Seq<char>, v: Seq<char>)
    requires
        x.len() > 0,
        x.last() == '\n',
    ensures
        occurs_at(
            x + key + v + "\n"@,
            seq!['\n'] + key + v + seq!['\n'],
            x.len() - 1,
        ),
{
    reveal_strlit("\n");
    let pat = seq!['\n'] + key + v + seq!['\n'];
    assert(x + key + v + "\n"@ =~= x.drop_last() + pat);
    lemma_occurs_end(x.drop_last(), pat);
}

/// A desktop entry up to its `Icon` line.
#[verifier::opaque]
spec fn entry_upto_icon(app: AppView, exec: Seq<char>) -> Seq<char> {
    "[Desktop Entry]\nType=Application\n"@ + "Name="@ + entry_value_text(app.name) + "\n"@
        + optional_line("Comment="@, app.comment) + "Exec="@ + exec_arg_text(exec) + "\n"@
        + optional_line("Icon="@, app.icon)
}

/// A desktop entry up to its `StartupNotify` line.
#[verifier::opaque]
spec fn entry_upto_startup(app: AppView, exec: Seq<char>) -> Seq<char> {
    entry_upto_icon(app, exec) + "Terminal="@ + bool_text(app.terminal) + "\n"@ + "Categories="@
        + entry_value_text(app.categories) + "\n"@ + optional_line("Keywords="@, app.keywords)
        + "StartupNotify="@ + bool_text(!app.terminal) + "\n"@
}

proof fn lemma_count_upto_icon(app: AppView, exec: Seq<char>)
    requires
        !exec.contains('\n'),
    ensures
        line_ended(entry_upto_icon(app, exec)),
        lines(entry_upto_icon(app, exec)).len() == 4 + count_if(app.comment.len() > 0) + count_if(
            app.icon.len() > 0,
        ),
{
    reveal(entry_upto_icon);
    lemma_entry_keys();
    lemma_entry_value_one_line(app.name);
    lemma_exec_arg_one_line(exec);
    let p0 = "[Desktop Entry]\nType=Application\n"@;
    assert(lines(p0).len() == 2 && line_ended(p0)) by {
        let b = ended("Type=Application"@);
        lemma_lines_ended("Type=Application"@, Seq::empty());
        assert(b + Seq::<char>::empty() =~= b);
        assert(lines(Seq::<char>::empty()).len() == 0);
        lemma_lines_ended("[Desktop Entry]"@, b);
    }
    let p1 = p0 + "Name="@ + entry_value_text(app.name) + "\n"@;
    lemma_add_line(p0, "Name="@, entry_value_text(app.name));
    let p2 = p1 + optional_line("Comment="@, app.comment);
    lemma_add_optional(p1, "Comment="@, app.comment);
    let p3 = p2 + "Exec="@ + exec_arg_text(exec) + "\n"@;
    lemma_add_line(p2, "Exec="@, exec_arg_text(exec));
    lemma_add_optional(p3, "Icon="@, app.icon);
}

proof fn lemma_count_upto_startup(app: AppView, exec: Seq<char>)
    requires
        !exec.contains('\n'),
    ensures
        line_ended(entry_upto_startup(app, exec)),
        lines(entry_upto_startup(app, exec)).len() == 7 + count_if(app.comment.len() > 0)
            + count_if(app.icon.len() > 0) + count_if(app.keywords.len() > 0),
{
    reveal(entry_upto_startup);
    lemma_count_upto_icon(app, exec);
    lemma_entry_keys();
    lemma_entry_value_one_line(app.categories);
    let p4 = entry_upto_icon(app, exec);
    let p5 = p4 + "Terminal="@ + bool_text(app.terminal) + "\n"@;
    lemma_add_line(p4, "Terminal="@, bool_text(app.terminal));
    let p6 = p5 + "Categories="@ + entry_value_text(app.categories) + "\n"@;
    lemma_add_line(p5, "Categories="@, entry_value_text(app.categories));
    let p7 = p6 + optional_line("Keywords="@, app.keywords);
    lemma_add_optional(p6, "Keywords="@, app.keywords);
    lemma_add_line(p7, "StartupNotify="@, bool_text(!app.terminal));
}

proof fn lemma_entry_count(pkg: Seq<char>, app: AppView, exec: Seq<char>)
    requires
        !pkg.contains('\n'),
        !exec.contains('\n'),
    ensures
        lines(desktop_entry_text(pkg, app, exec)).len() == 8 + count_if(app.comment.len() > 0)
            + count_if(app.icon.len() > 0) + count_if(app.keywords.len() > 0),
{
    lemma_count_upto_startup(app, exec);
    lemma_entry_keys();
    let p8 = entry_upto_startup(app, exec);
    lemma_add_line(p8, "X-cdlvsm-Package="@, pkg);
    lemma_entry_parts(pkg, app, exec);
}

proof fn lemma_entry_parts(pkg: Seq<char>, app: AppView, exec: Seq<char>)
    ensures
        desktop_entry_text(pkg, app, exec) == entry_upto_startup(app, exec) + "X-cdlvsm-Package="@
            + pkg + "\n"@,
{
    reveal(entry_upto_startup);
    reveal(entry_upto_icon);
    assert(desktop_entry_text(pkg, app, exec) =~= entry_upto_startup(app, exec)
        + "X-cdlvsm-Package="@ + pkg + "\n"@);
}

proof fn lemma_entry_marks(pkg: Seq<char>, app: AppView, exec: Seq<char>)
    ensures
        ({
            let text = desktop_entry_text(pkg, app, exec);
            &&& find(text, seq!['\n'] + "Terminal="@ + bool_text(app.terminal) + seq!['\n']) is Some
            &&& find(text, seq!['\n'] + "StartupNotify="@ + bool_text(!app.terminal) + seq!['\n']) is Some
            &&& text.len() >= entry_marker(pkg).len() + 2
            &&& text.subrange(text.len() - entry_marker(pkg).len() - 2, text.len() as int)
                == seq!['\n'] + entry_marker(pkg) + seq!['\n']
        }),
{
    reveal_strlit("\n");
    let text = desktop_entry_text(pkg, app, exec);
    let p0 = "[Desktop Entry]\nType=Application\n"@;
    let p1 = p0 + "Name="@ + entry_value_text(app.name) + "\n"@;
    let p2 = p1 + optional_line("Comment="@, app.comment);
    let p3 = p2 + "Exec="@ + exec_arg_text(exec) + "\n"@;
    let p4 = p3 + optional_line("Icon="@, app.icon);
    assert(p4.len() > 0 && p4.last() == '\n') by {
        if app.icon.len() > 0 {
            assert(p4.last() == optional_line("Icon="@, app.icon).last());
        } else {
            assert(p4 =~= p3);
        }
    }
    let p5 = p4 + "Terminal="@ + bool_text(app.terminal) + "\n"@;
    let tpat = seq!['\n'] + "Terminal="@ + bool_text(app.terminal) + seq!['\n'];
    lemma_line_stands(p4, "Terminal="@, bool_text(app.terminal));
    let i4 = p4.len() - 1;
    let c = "Categories="@ + entry_value_text(app.categories);
    let p6 = p5 + "Categories="@ + entry_value_text(app.categories) + "\n"@;
    lemma_occurs_extend(p5, "Categories="@, tpat, i4);
    lemma_occurs_extend(p5 + "Categories="@, entry_value_text(app.categories), tpat, i4);
    lemma_occurs_extend(p5 + "Categories="@ + entry_value_text(app.categories), "\n"@, tpat, i4);
    let p7 = p6 + optional_line("Keywords="@, app.keywords);
    lemma_occurs_extend(p6, optional_line("Keywords="@, app.keywords), tpat, i4);
    assert(p7.len() > 0 && p7.last() == '\n') by {
        if app.keywords.len() > 0 {
            assert(p7.last() == optional_line("Keywords="@, app.keywords).last());
        } else {
            assert(p7 =~= p6);
        }
    }
    let p8 = p7 + "StartupNotify="@ + bool_text(!app.terminal) + "\n"@;
    lemma_occurs_extend(p7, "StartupNotify="@, tpat, i4);
    lemma_occurs_extend(p7 + "StartupNotify="@, bool_text(!app.terminal), tpat, i4);
    lemma_occurs_extend(p7 + "StartupNotify="@ + bool_text(!app.terminal), "\n"@, tpat, i4);
    let spat = seq!['\n'] + "StartupNotify="@ + bool_text(!app.terminal) + seq!['\n'];
    lemma_line_stands(p7, "StartupNotify="@, bool_text(!app.terminal));
    let i7 = p7.len() - 1;
    let mark = entry_marker(pkg);
    lemma_occurs_extend(p8, "X-cdlvsm-Package="@, tpat, i4);
    lemma_occurs_extend(p8 + "X-cdlvsm-Package="@, pkg, tpat, i4);
    lemma_occurs_extend(p8 + "X-cdlvsm-Package="@ + pkg, "\n"@, tpat, i4);
    lemma_occurs_extend(p8, "X-cdlvsm-Package="@, spat, i7);
    lemma_occurs_extend(p8 + "X-cdlvsm-Package="@, pkg, spat, i7);
    lemma_occurs_extend(p8 + "X-cdlvsm-Package="@ + pkg, "\n"@, spat, i7);
    assert(text == p8 + "X-cdlvsm-Package="@ + pkg + "\n"@);
    lemma_find_some(text, tpat, i4);
    lemma_find_some(text, spat, i7);
    let e = seq!['\n'] + mark + seq!['\n'];
    assert(p8.len() > 0 && p8.last() == '\n');
    assert(text =~= p8.drop_last() + e);
    assert(text.subrange(text.len() - mark.len() - 2, text.len() as int) =~= e);
}

/// A desktop entry for a package name and a shim path of one line each is
/// eight lines, and one more for each of a comment, an icon and keywords:
/// every value stays on its line. It says whether the app runs in a
/// terminal and whether startup is notified, and ends with the mark of the
/// package.
pub proof fn lemma_entry_lines(pkg: Seq<char>, app: AppView, exec: Seq<char>)
    requires
        !pkg.contains('\n'),
        !exec.contains('\n'),
    ensures
        ({
            let text = desktop_entry_text(pkg, app, exec);
            &&& lines(text).len() == 8 + count_if(app.comment.len() > 0) + count_if(
                app.icon.len() > 0,
            ) + count_if(app.keywords.len() > 0)
            &&& find(text, seq!['\n'] + "Terminal="@ + bool_text(app.terminal) + seq!['\n']) is Some
            &&& find(text, seq!['\n'] + "StartupNotify="@ + bool_text(!app.terminal) + seq!['\n']) is Some
            &&& text.len() >= entry_marker(pkg).len() + 2
            &&& text.subrange(text.len() - entry_marker(pkg).len() - 2, text.len() as int)
                == seq!['\n'] + entry_marker(pkg) + seq!['\n']
        }),
{
    lemma_entry_count(pkg, app, exec);
    lemma_entry_marks(pkg, app, exec);
}

/// A key spelled with lower-case letters.
pub open spec fn lower_word(k: Seq<char>) -> bool {
    k.len() > 0 && forall|i: int| 0 <= i < k.len() ==> 'a' <= #[trigger] k[i] <= 'z'
}

/// A value that reads back as it is: trimmed, one line, no ` #` comment.
pub open spec fn info_value(v: Seq<char>) -> bool {
    &&& v == trim(v)
    &&& forall|j: int| !occurs_at(v, " #"@, j)
}

/// The line `key=value` gives that key and that value.
proof fn lemma_info_line(key: Seq<char>, v: Seq<char>)
    requires
        lower_word(key),
        info_value(v),
    ensures
        info_entry(key + seq!['='] + v) == Some((key, v)),
{
    reveal_strlit(" #");
    let line = key + seq!['='] + v;
    let k = key.len() as int;
    // No ` #` stands in the line: not in the key, not at `=`, not in the value.
    assert forall|j: int| !occurs_at(line, " #"@, j) by {
        if occurs_at(line, " #"@, j) {
            assert(line.subrange(j, j + 2)[0] == ' ');
            assert(line[j] == ' ');
            if j < k {
                assert(line[j] == key[j]);
            } else if j == k {
                assert(line[j] == '=');
            } else {
                assert(line.subrange(j, j + 2) =~= v.subrange(j - k - 1, j - k + 1));
                assert(occurs_at(v, " #"@, j - k - 1));
            }
        }
    }
    crate::text::lemma_find_none(line, " #"@);
    assert(before(line, " #"@) == line);
    // The line is its own trim.
    assert(!crate::text::is_ws(line[0])) by {
        assert(line[0] == key[0]);
    }
    assert(!crate::text::is_ws(line.last())) by {
        if v.len() > 0 {
            crate::text::lemma_trim_ends(crate::text::trim_start(v));
            assert(line.last() == v.last());
        } else {
            assert(line.last() == '=');
        }
    }
    crate::text::lemma_trim_id(line);
    assert(line[0] != '#') by {
        assert(line[0] == key[0]);
    }
    assert forall|j: int| 0 <= j < k implies line[j] != '=' by {
        assert(line[j] == key[j]);
    }
    crate::text::lemma_find_char(line, '=', k);
    assert(line.take(k) =~= key);
    assert(line.skip(k + 1) =~= v);
    assert(!crate::text::is_ws(key[0]));
    assert(!crate::text::is_ws(key.last())) by {
        assert(key.last() == key[key.len() - 1]);
    }
    crate::text::lemma_trim_id(key);
}

/// Each key of `app.info` sets its own field, to the value on its line,
/// and leaves every other field as it was.
pub proof fn lemma_info_keys_set_own_fields(app: AppView, v: Seq<char>)
    requires
        info_value(v),
    ensures
        info_step(app, "name="@ + v) == (AppView { name: v, ..app }),
        info_step(app, "comment="@ + v) == (AppView { comment: v, ..app }),
        info_step(app, "terminal="@ + v) == (AppView { terminal: v == "true"@, ..app }),
        info_step(app, "icon="@ + v) == (AppView { icon: v, ..app }),
        info_step(app, "categories="@ + v) == (AppView { categories: v, ..app }),
        info_step(app, "keywords="@ + v) == (AppView { keywords: v, ..app }),
{
    reveal_strlit("name");
    reveal_strlit("comment");
    reveal_strlit("terminal");
    reveal_strlit("icon");
    reveal_strlit("categories");
    reveal_strlit("keywords");
    reveal_strlit("name=");
    reveal_strlit("comment=");
    reveal_strlit("terminal=");
    reveal_strlit("icon=");
    reveal_strlit("categories=");
    reveal_strlit("keywords=");
    assert("name="@ + v =~= "name"@ + seq!['='] + v);
    assert("comment="@ + v =~= "comment"@ + seq!['='] + v);
    assert("terminal="@ + v =~= "terminal"@ + seq!['='] + v);
    assert("icon="@ + v =~= "icon"@ + seq!['='] + v);
    assert("categories="@ + v =~= "categories"@ + seq!['='] + v);
    assert("keywords="@ + v =~= "keywords"@ + seq!['='] + v);
    lemma_info_line("name"@, v);
    lemma_info_line("comment"@, v);
    lemma_info_line("terminal"@, v);
    lemma_info_line("icon"@, v);
    lemma_info_line("categories"@, v);
    lemma_info_line("keywords"@, v);
}

/// A shell word read as `sh` reads it: inside single quotes every
/// character stands for itself up to the closing quote; outside them a
/// backslash takes the next character as it is, and a quote opens a quoted
/// part.
pub open spec fn sh_word(w: Seq<char>, quoted: bool) -> Seq<char>
    decreases w.len(),
{
    if w.len() == 0 {
        Seq::empty()
    } else if quoted {
        if w[0] == '\'' {
            sh_word(w.skip(1), false)
        } else {
            seq![w[0]] + sh_word(w.skip(1), true)
        }
    } else if w[0] == '\'' {
        sh_word(w.skip(1), true)
    } else if w.len() >= 2 && w[0] == '\\' {
        seq![w[1]] + sh_word(w.skip(2), false)
    } else {
        seq![w[0]] + sh_word(w.skip(1), false)
    }
}

proof fn lemma_sh_quoted_body(x: Seq<char>)
    ensures
        sh_word(replace_char(x, '\'', "'\\''"@) + seq!['\''], true) == x,
    decreases x.len(),
{
    reveal_strlit("'\\''");
    let q = seq!['\''];
    if x.len() > 0 {
        let f = crate::text::replacing('\'', "'\\''"@);
        assert(x =~= seq![x[0]] + x.skip(1));
        lemma_map_chars_front(x[0], x.skip(1), f);
        lemma_sh_quoted_body(x.skip(1));
        let r = replace_char(x.skip(1), '\'', "'\\''"@) + q;
        let whole = f(x[0]) + r;
        assert(replace_char(x, '\'', "'\\''"@) + q =~= whole);
        if x[0] == '\'' {
            let w1 = whole.skip(1);
            let w2 = w1.skip(2);
            assert(whole[0] == '\'');
            assert(w1[0] == '\\' && w1[1] == '\'' && w1.len() >= 2);
            assert(w2[0] == '\'');
            assert(w2.skip(1) =~= r);
            assert(sh_word(w2, false) == sh_word(r, true));
            assert(sh_word(w1, false) == seq!['\''] + sh_word(r, true));
            assert(sh_word(whole, true) == sh_word(w1, false));
        } else {
            assert(whole.skip(1) =~= r);
            assert(whole[0] == x[0]);
            assert(sh_word(whole, true) == seq![x[0]] + sh_word(r, true));
        }
        assert(seq![x[0]] + x.skip(1) =~= x);
    } else {
        assert(replace_char(x, '\'', "'\\''"@) =~= Seq::<char>::empty());
        assert(Seq::<char>::empty() + q =~= q);
        assert(q.skip(1) =~= Seq::<char>::empty());
        assert(sh_word(q, true) == sh_word(q.skip(1), false));
    }
}

/// Read back as the shell reads a word, a quoted string is the string
/// itself, whatever quotes it holds: the launcher runs exactly that shim.
pub proof fn lemma_sh_quoted_reads_back(s: Seq<char>)
    ensures
        sh_word(sh_quoted_text(s), false) == s,
{
    let w = sh_quoted_text(s);
    let body = replace_char(s, '\'', "'\\''"@) + seq!['\''];
    assert(w.skip(1) =~= body);
    assert(w[0] == '\'');
    lemma_sh_quoted_body(s);
}

/// Every desktop entry cdlvsm writes for `pkg` carries the mark by which
/// uninstall knows it as cdlvsm's own.
pub proof fn lemma_entry_is_marked(pkg: Seq<char>, app: AppView, exec: Seq<char>)
    ensures
        find(desktop_entry_text(pkg, app, exec), entry_marker(pkg)) is Some,
{
    let text = desktop_entry_text(pkg, app, exec);
    let marker = entry_marker(pkg);
    let head = "[Desktop Entry]\nType=Application\n"@ + "Name="@ + entry_value_text(app.name)
        + "\n"@ + optional_line("Comment="@, app.comment) + "Exec="@ + exec_arg_text(exec)
        + "\n"@ + optional_line("Icon="@, app.icon) + "Terminal="@ + bool_text(app.terminal)
        + "\n"@ + "Categories="@ + entry_value_text(app.categories) + "\n"@ + optional_line(
        "Keywords="@,
        app.keywords,
    ) + "StartupNotify="@ + bool_text(!app.terminal) + "\n"@;
    assert(text =~= head + marker + "\n"@);
    assert(text.subrange(head.len() as int, (head.len() + marker.len()) as int) =~= marker);
    lemma_find_some(text, marker, head.len() as int);
}

/// Every Info.plist cdlvsm writes for `pkg` carries the mark by which
/// uninstall knows it as cdlvsm's own.
pub proof fn lemma_plist_is_marked(pkg: Seq<char>, app: AppView)
    ensures
        find(mac_plist_text(pkg, app), plist_marker(pkg)) is Some,
{
    let text = mac_plist_text(pkg, app);
    let marker = plist_marker(pkg);
    let name = xml_text(app.name);
    let head = "<?xml version=\"1.0\" encoding=\"UTF-8\"?>\n<!DOCTYPE plist PUBLIC \"-//Apple//DTD PLIST 1.0//EN\" \"http://www.apple.com/DTDs/PropertyList-1.0.dtd\">\n<plist version=\"1.0\">\n<dict>\n  <key>CFBundleName</key><string>"@
        + name + "</string>\n  <key>CFBundleDisplayName</key><string>"@ + name
        + "</string>\n  <key>CFBundleIdentifier</key><string>me.codeloves."@ + pkg
        + "</string>\n  <key>CFBundleExecutable</key><string>"@ + pkg
        + "</string>\n  <key>CFBundlePackageType</key><string>APPL</string>\n  <key>CFBundleShortVersionString</key><string>1</string>\n  <key>LSMinimumSystemVersion</key><string>10.13</string>\n  "@;
    assert(text =~= head + marker + "\n</dict>\n</plist>\n"@);
    assert(text.subrange(head.len() as int, (head.len() + marker.len()) as int) =~= marker);
    lemma_find_some(text, marker, head.len() as int);
}

} // verus!
