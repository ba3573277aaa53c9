//! Install metadata: how a package was installed, recorded in the
//! `.cdlvsm` file next to its versions so `upgrade` can reuse the exact
//! settings (a `--runtime` install must not be silently reset to SDK).
//!
//! The file is plain `key=value` lines:
//!
//! ```text
//! pkg=code
//! repo=codelovesme/code
//! asset_base=code-sdk
//! env_var=CDLVSM_CODE_VERSION
//! label=sdk
//! link=0
//! ```
//!
//! Unknown keys are ignored on read (forward compatibility); `label` is
//! empty when there is none; `link` is `0` or `1`.

use vstd::prelude::*;
use vstd::string::*;
use crate::text::{
    chars_of, find, find_char_exec, is_text, is_ws, lemma_find_char, lemma_lines_step,
    lemma_trim_id, lines, next_line, push_str, string_of, strip_cr, trim, trim_exec,
};

verus! {

/// How a package was installed.
#[derive(Clone, Debug)]
pub struct InstallMeta {
    pub pkg: String,
    pub repo: String,
    pub asset_base: String,
    pub env_var: String,
    pub label: Option<String>,
    pub link: bool,
}

/// Install metadata as text.
pub struct MetaView {
    pub pkg: Seq<char>,
    pub repo: Seq<char>,
    pub asset_base: Seq<char>,
    pub env_var: Seq<char>,
    pub label: Option<Seq<char>>,
    pub link: bool,
}

pub open spec fn opt_string_view(o: Option<String>) -> Option<Seq<char>> {
    match o {
        Some(s) => Some(s@),
        None => None,
    }
}

impl View for InstallMeta {
    type V = MetaView;

    open spec fn view(&self) -> MetaView {
        MetaView {
            pkg: self.pkg@,
            repo: self.repo@,
            asset_base: self.asset_base@,
            env_var: self.env_var@,
            label: opt_string_view(self.label),
            link: self.link,
        }
    }
}

pub open spec fn opt_meta_view(m: Option<InstallMeta>) -> Option<MetaView> {
    match m {
        Some(m) => Some(m@),
        None => None,
    }
}

/// One `key=value` line.
pub open spec fn meta_line(key: Seq<char>, value: Seq<char>) -> Seq<char> {
    key + seq!['='] + value + seq!['\n']
}

/// The text of the `.cdlvsm` file for `m`.
pub open spec fn meta_text_of(m: MetaView) -> Seq<char> {
    meta_line("pkg"@, m.pkg) + meta_line("repo"@, m.repo) + meta_line("asset_base"@, m.asset_base)
        + meta_line("env_var"@, m.env_var) + meta_line(
        "label"@,
        match m.label {
            Some(l) => l,
            None => Seq::empty(),
        },
    ) + meta_line("link"@, if m.link { "1"@ } else { "0"@ })
}

/// Metadata with only its package name: what a `pkg=` line starts.
pub open spec fn fresh_meta(pkg: Seq<char>) -> MetaView {
    MetaView {
        pkg,
        repo: Seq::empty(),
        asset_base: Seq::empty(),
        env_var: Seq::empty(),
        label: None,
        link: false,
    }
}

/// The metadata read so far, after one more line. A `pkg=` line starts
/// afresh; the other known keys set their field once a `pkg=` line has
/// been read; an empty `label` leaves none; anything else changes nothing.
pub open spec fn meta_step(state: Option<MetaView>, line: Seq<char>) -> Option<MetaView> {
    let l = trim(line);
    if l.len() == 0 || l[0] == '#' {
        state
    } else {
        match find(l, seq!['=']) {
            None => state,
            Some(i) => {
                let (k, v) = (l.take(i), l.skip(i + 1));
                if k == "pkg"@ {
                    Some(fresh_meta(v))
                } else {
                    match state {
                        None => None,
                        Some(m) => Some(
                            if k == "repo"@ {
                                MetaView { repo: v, ..m }
                            } else if k == "asset_base"@ {
                                MetaView { asset_base: v, ..m }
                            } else if k == "env_var"@ {
                                MetaView { env_var: v, ..m }
                            } else if k == "label"@ {
                                if v.len() > 0 {
                                    MetaView { label: Some(v), ..m }
                                } else {
                                    m
                                }
                            } else if k == "link"@ {
                                MetaView { link: v == "1"@, ..m }
                            } else {
                                m
                            },
                        ),
                    }
                }
            },
        }
    }
}

/// The metadata after the lines, in order.
pub open spec fn meta_fold(state: Option<MetaView>, ls: Seq<Seq<char>>) -> Option<MetaView>
    decreases ls.len(),
{
    if ls.len() == 0 {
        state
    } else {
        meta_fold(meta_step(state, ls[0]), ls.drop_first())
    }
}

/// What the text of a `.cdlvsm` file says: the metadata its lines give,
/// when it names the package, its repository and its asset base; else
/// nothing usable.
pub open spec fn meta_read(body: Seq<char>) -> Option<MetaView> {
    match meta_fold(None, lines(body)) {
        Some(m) => if m.pkg.len() > 0 && m.repo.len() > 0 && m.asset_base.len() > 0 {
            Some(m)
        } else {
            None
        },
        None => None,
    }
}

/// A value that a line keeps as it is: one line, and no whitespace at its end.
pub open spec fn clean_value(v: Seq<char>) -> bool {
    &&& !v.contains('\n')
    &&& v.len() > 0 ==> !is_ws(v.last())
}

/// Metadata that its own file gives back.
pub open spec fn meta_well_formed(m: MetaView) -> bool {
    &&& m.pkg.len() > 0
    &&& m.repo.len() > 0
    &&& m.asset_base.len() > 0
    &&& clean_value(m.pkg)
    &&& clean_value(m.repo)
    &&& clean_value(m.asset_base)
    &&& clean_value(m.env_var)
    &&& match m.label {
        Some(l) => l.len() > 0 && clean_value(l),
        None => true,
    }
}

// ---------------------------------------------------------------------------
// Executable
// ---------------------------------------------------------------------------

fn push_line(out: &mut String, key: &str, value: &str)
    ensures
        final(out)@ == old(out)@ + meta_line(key@, value@),
{
    push_str(out, key);
    out.push('=');
    push_str(out, value);
    out.push('\n');
    assert(out@ =~= old(out)@ + meta_line(key@, value@));
}

/// The text of the `.cdlvsm` file for `meta`.
pub fn meta_text(meta: &InstallMeta) -> (r: String)
    ensures
        r@ == meta_text_of(meta@),
{
    let mut out = String::new();
    push_line(&mut out, "pkg", meta.pkg.as_str());
    push_line(&mut out, "repo", meta.repo.as_str());
    push_line(&mut out, "asset_base", meta.asset_base.as_str());
    push_line(&mut out, "env_var", meta.env_var.as_str());
    match &meta.label {
        Some(label) => push_line(&mut out, "label", label.as_str()),
        None => {
            proof {
                reveal_strlit("");
            }
            push_line(&mut out, "label", "");
        },
    }
    push_line(&mut out, "link", if meta.link { "1" } else { "0" });
    proof {
        reveal_strlit("");
    }
    assert(out@ =~= meta_text_of(meta@));
    out
}

fn fresh(pkg: String) -> (m: InstallMeta)
    ensures
        m@ == fresh_meta(pkg@),
{
    proof {
        reveal_strlit("");
    }
    InstallMeta {
        pkg,
        repo: String::new(),
        asset_base: String::new(),
        env_var: String::new(),
        label: None,
        link: false,
    }
}

/// The metadata read so far, after one more line.
fn meta_line_step(state: Option<InstallMeta>, line: &[char]) -> (r: Option<InstallMeta>)
    ensures
        opt_meta_view(r) == meta_step(opt_meta_view(state), line@),
{
    let l = trim_exec(line);
    if l.len() == 0 || l[0] == '#' {
        return state;
    }
    let i = match find_char_exec(l.as_slice(), '=') {
        Some(i) => i,
        None => return state,
    };
    let key = &l[0..i];
    let value = string_of(&l[i + 1..l.len()]);
    assert(l@.subrange(0, i as int) =~= l@.take(i as int));
    assert(l@.subrange(i + 1, l@.len() as int) =~= l@.skip(i + 1));
    if is_text(key, "pkg") {
        return Some(fresh(value));
    }
    match state {
        None => None,
        Some(mut m) => {
            if is_text(key, "repo") {
                m.repo = value;
            } else if is_text(key, "asset_base") {
                m.asset_base = value;
            } else if is_text(key, "env_var") {
                m.env_var = value;
            } else if is_text(key, "label") {
                if !value.as_str().is_empty() {
                    m.label = Some(value);
                }
            } else if is_text(key, "link") {
                let v = chars_of(value.as_str());
                m.link = is_text(v.as_slice(), "1");
            }
            Some(m)
        },
    }
}

/// Read the text of a `.cdlvsm` file. `None` when it is present but
/// unusable: it does not name the package, its repository and its asset
/// base (treated as absent).
pub fn read_meta(body: &str) -> (r: Option<InstallMeta>)
    ensures
        opt_meta_view(r) == meta_read(body@),
{
    let t = chars_of(body);
    let mut state: Option<InstallMeta> = None;
    let mut pos: usize = 0;
    assert(t@.skip(0) =~= t@);
    while pos < t.len()
        invariant
            pos <= t@.len(),
            t@ == body@,
            meta_fold(None, lines(body@)) == meta_fold(
                opt_meta_view(state),
                lines(t@.skip(pos as int)),
            ),
        decreases t.len() - pos,
    {
        let (line, next) = next_line(t.as_slice(), pos);
        state = meta_line_step(state, line.as_slice());
        proof {
            let rest = lines(t@.skip(next as int));
            assert((seq![line@] + rest)[0] == line@);
            assert((seq![line@] + rest).drop_first() =~= rest);
        }
        pos = next;
    }
    proof {
        assert(t@.skip(pos as int) =~= Seq::<char>::empty());
        assert(lines(Seq::<char>::empty()) =~= Seq::<Seq<char>>::empty());
    }
    match state {
        Some(m) => {
            if !m.pkg.as_str().is_empty() && !m.repo.as_str().is_empty()
                && !m.asset_base.as_str().is_empty() {
                Some(m)
            } else {
                None
            }
        },
        None => None,
    }
}

// ---------------------------------------------------------------------------
// Laws
// ---------------------------------------------------------------------------

/// A line of the file and what follows it: the line is read as its key and
/// value.
proof fn lemma_meta_line_read(key: Seq<char>, value: Seq<char>, rest: Seq<char>)
    requires
        key.len() > 0,
        !is_ws(key[0]),
        key[0] != '#',
        !key.contains('='),
        !key.contains('\n'),
        clean_value(value),
    ensures
        lines(meta_line(key, value) + rest) == seq![key + seq!['='] + value] + lines(rest),
        trim(key + seq!['='] + value) == key + seq!['='] + value,
        find(key + seq!['='] + value, seq!['=']) == Some(key.len() as int),
{
    let l = key + seq!['='] + value;
    let s = meta_line(key, value) + rest;
    assert(s =~= l + seq!['\n'] + rest);
    let k = l.len() as int;
    assert forall|j: int| 0 <= j < k implies s[j] != '\n' by {
        assert(s[j] == l[j]);
        if j < key.len() {
            assert(key[j] == l[j]);
        } else if j > key.len() {
            assert(value[j - key.len() - 1] == l[j]);
        }
    }
    lemma_lines_step(s, k);
    assert(s.take(k) =~= l);
    assert(s.skip(k + 1) =~= rest);
    assert(l.last() != '\r') by {
        if value.len() > 0 {
            assert(l.last() == value.last());
        }
    }
    assert(l[0] == key[0]);
    assert(!is_ws(l.last())) by {
        if value.len() > 0 {
            assert(l.last() == value.last());
        }
    }
    lemma_trim_id(l);
    assert forall|j: int| 0 <= j < key.len() implies l[j] != '=' by {
        assert(l[j] == key[j]);
    }
    lemma_find_char(l, '=', key.len() as int);
}

proof fn lemma_meta_fold_line(
    state: Option<MetaView>,
    key: Seq<char>,
    value: Seq<char>,
    rest: Seq<char>,
)
    requires
        key.len() > 0,
        !is_ws(key[0]),
        key[0] != '#',
        !key.contains('='),
        !key.contains('\n'),
        clean_value(value),
    ensures
        meta_fold(state, lines(meta_line(key, value) + rest)) == meta_fold(
            meta_step_kv(state, key, value),
            lines(rest),
        ),
{
    lemma_meta_line_read(key, value, rest);
    let l = key + seq!['='] + value;
    let ls = seq![l] + lines(rest);
    assert(ls[0] == l);
    assert(ls.drop_first() =~= lines(rest));
    assert(l.take(key.len() as int) =~= key);
    assert(l.skip(key.len() as int + 1) =~= value);
    assert(l[0] == key[0]);
}

/// `meta_step` on a line already split into its key and value.
pub open spec fn meta_step_kv(state: Option<MetaView>, k: Seq<char>, v: Seq<char>) -> Option<
    MetaView,
> {
    if k == "pkg"@ {
        Some(fresh_meta(v))
    } else {
        match state {
            None => None,
            Some(m) => Some(
                if k == "repo"@ {
                    MetaView { repo: v, ..m }
                } else if k == "asset_base"@ {
                    MetaView { asset_base: v, ..m }
                } else if k == "env_var"@ {
                    MetaView { env_var: v, ..m }
                } else if k == "label"@ {
                    if v.len() > 0 {
                        MetaView { label: Some(v), ..m }
                    } else {
                        m
                    }
                } else if k == "link"@ {
                    MetaView { link: v == "1"@, ..m }
                } else {
                    m
                },
            ),
        }
    }
}

proof fn lemma_key_facts(key: Seq<char>)
    requires
        key.len() > 0,
        forall|i: int| 0 <= i < key.len() ==> 'a' <= #[trigger] key[i] <= 'z' || key[i] == '_',
    ensures
        !is_ws(key[0]),
        key[0] != '#',
        !key.contains('='),
        !key.contains('\n'),
{
    assert(key[0] == key[0]);
}

proof fn lemma_keys()
    ensures
        "pkg"@ == seq!['p', 'k', 'g'],
        "repo"@ == seq!['r', 'e', 'p', 'o'],
        "asset_base"@ == seq!['a', 's', 's', 'e', 't', '_', 'b', 'a', 's', 'e'],
        "env_var"@ == seq!['e', 'n', 'v', '_', 'v', 'a', 'r'],
        "label"@ == seq!['l', 'a', 'b', 'e', 'l'],
        "link"@ == seq!['l', 'i', 'n', 'k'],
        "1"@ == seq!['1'],
        "0"@ == seq!['0'],
{
    reveal_strlit("pkg");
    reveal_strlit("repo");
    reveal_strlit("asset_base");
    reveal_strlit("env_var");
    reveal_strlit("label");
    reveal_strlit("link");
    reveal_strlit("1");
    reveal_strlit("0");
    assert("pkg"@ =~= seq!['p', 'k', 'g']);
    assert("repo"@ =~= seq!['r', 'e', 'p', 'o']);
    assert("asset_base"@ =~= seq!['a', 's', 's', 'e', 't', '_', 'b', 'a', 's', 'e']);
    assert("env_var"@ =~= seq!['e', 'n', 'v', '_', 'v', 'a', 'r']);
    assert("label"@ =~= seq!['l', 'a', 'b', 'e', 'l']);
    assert("link"@ =~= seq!['l', 'i', 'n', 'k']);
    assert("1"@ =~= seq!['1']);
    assert("0"@ =~= seq!['0']);
}

proof fn lemma_all_keys_plain()
    ensures
        !is_ws("pkg"@[0]) && "pkg"@[0] != '#' && !"pkg"@.contains('=') && !"pkg"@.contains('\n'),
        !is_ws("repo"@[0]) && "repo"@[0] != '#' && !"repo"@.contains('=') && !"repo"@.contains('\n'),
        !is_ws("asset_base"@[0]) && "asset_base"@[0] != '#' && !"asset_base"@.contains('=')
            && !"asset_base"@.contains('\n'),
        !is_ws("env_var"@[0]) && "env_var"@[0] != '#' && !"env_var"@.contains('=')
            && !"env_var"@.contains('\n'),
        !is_ws("label"@[0]) && "label"@[0] != '#' && !"label"@.contains('=') && !"label"@.contains('\n'),
        !is_ws("link"@[0]) && "link"@[0] != '#' && !"link"@.contains('=') && !"link"@.contains('\n'),
        "pkg"@.len() > 0 && "repo"@.len() > 0 && "asset_base"@.len() > 0 && "env_var"@.len() > 0
            && "label"@.len() > 0 && "link"@.len() > 0,
{
    lemma_keys();
    lemma_key_facts("pkg"@);
    lemma_key_facts("repo"@);
    lemma_key_facts("asset_base"@);
    lemma_key_facts("env_var"@);
    lemma_key_facts("label"@);
    lemma_key_facts("link"@);
}

proof fn lemma_kv_steps(m: MetaView)
    ensures
        meta_step_kv(None, "pkg"@, m.pkg) == Some(fresh_meta(m.pkg)),
        meta_step_kv(Some(fresh_meta(m.pkg)), "repo"@, m.repo) == Some(
            MetaView { repo: m.repo, ..fresh_meta(m.pkg) },
        ),
        forall|a: MetaView| #[trigger]
            meta_step_kv(Some(a), "asset_base"@, m.asset_base) == Some(
                MetaView { asset_base: m.asset_base, ..a },
            ),
        forall|a: MetaView| #[trigger]
            meta_step_kv(Some(a), "env_var"@, m.env_var) == Some(
                MetaView { env_var: m.env_var, ..a },
            ),
        forall|a: MetaView, l: Seq<char>| #[trigger]
            meta_step_kv(Some(a), "label"@, l) == Some(
                if l.len() > 0 {
                    MetaView { label: Some(l), ..a }
                } else {
                    a
                },
            ),
        forall|a: MetaView, v: Seq<char>| #[trigger]
            meta_step_kv(Some(a), "link"@, v) == Some(MetaView { link: v == "1"@, ..a }),
{
    lemma_keys();
}

pub open spec fn link_value(link: bool) -> Seq<char> {
    if link {
        "1"@
    } else {
        "0"@
    }
}

pub open spec fn label_value(label: Option<Seq<char>>) -> Seq<char> {
    match label {
        Some(l) => l,
        None => Seq::empty(),
    }
}

/// The file's text from its `label` line on.
pub open spec fn meta_tail5(m: MetaView) -> Seq<char> {
    meta_line("label"@, label_value(m.label)) + meta_line("link"@, link_value(m.link))
}

/// The file's text from its `repo` line on.
pub open spec fn meta_tail2(m: MetaView) -> Seq<char> {
    meta_line("repo"@, m.repo) + (meta_line("asset_base"@, m.asset_base) + (meta_line(
        "env_var"@,
        m.env_var,
    ) + meta_tail5(m)))
}

proof fn lemma_meta_text_parts(m: MetaView)
    ensures
        meta_text_of(m) == meta_line("pkg"@, m.pkg) + meta_tail2(m),
{
    assert(meta_text_of(m) =~= meta_line("pkg"@, m.pkg) + meta_tail2(m));
}

proof fn lemma_link_value(link: bool)
    ensures
        clean_value(link_value(link)),
        link_value(link) == "1"@ <==> link,
{
    lemma_keys();
    let v = link_value(link);
    assert(v.len() == 1);
    assert(v.last() == v[0]);
    assert(!v.contains('\n')) by {
        if v.contains('\n') {
            let i = choose|i: int| 0 <= i < v.len() && v[i] == '\n';
            assert(i == 0);
        }
    }
    if !link {
        assert(v[0] != "1"@[0]);
    }
}

/// The `label` and `link` lines read over `s4`.
proof fn lemma_meta_tail5(m: MetaView, s4: MetaView)
    requires
        meta_well_formed(m),
        s4.label is None,
    ensures
        meta_fold(Some(s4), lines(meta_tail5(m))) == Some(
            MetaView { label: m.label, link: m.link, ..s4 },
        ),
{
    lemma_all_keys_plain();
    lemma_link_value(m.link);
    lemma_kv_steps(m);
    let label = label_value(m.label);
    let link = link_value(m.link);
    let l6 = meta_line("link"@, link);
    assert(l6 =~= l6 + Seq::<char>::empty());
    lemma_meta_fold_line(Some(s4), "label"@, label, l6);
    let s5 = MetaView { label: m.label, ..s4 };
    assert(meta_step_kv(Some(s4), "label"@, label) == Some(s5));
    lemma_meta_fold_line(Some(s5), "link"@, link, Seq::empty());
    assert(meta_step_kv(Some(s5), "link"@, link) == Some(MetaView { link: m.link, ..s5 }));
    assert(lines(Seq::<char>::empty()) =~= Seq::<Seq<char>>::empty());
}

/// The lines after `pkg` read over a fresh start.
proof fn lemma_meta_tail2(m: MetaView)
    requires
        meta_well_formed(m),
    ensures
        meta_fold(Some(fresh_meta(m.pkg)), lines(meta_tail2(m))) == Some(m),
{
    lemma_all_keys_plain();
    lemma_kv_steps(m);
    let s1 = fresh_meta(m.pkg);
    let s2 = MetaView { repo: m.repo, ..s1 };
    let s3 = MetaView { asset_base: m.asset_base, ..s2 };
    let s4 = MetaView { env_var: m.env_var, ..s3 };
    let t4 = meta_line("env_var"@, m.env_var) + meta_tail5(m);
    let t3 = meta_line("asset_base"@, m.asset_base) + t4;
    lemma_meta_fold_line(Some(s1), "repo"@, m.repo, t3);
    lemma_meta_fold_line(Some(s2), "asset_base"@, m.asset_base, t4);
    lemma_meta_fold_line(Some(s3), "env_var"@, m.env_var, meta_tail5(m));
    lemma_meta_tail5(m, s4);
    assert(MetaView { label: m.label, link: m.link, ..s4 } == m);
}

/// The file `meta_text` writes reads back as the metadata it was written
/// from: `upgrade` gets exactly the settings of the install.
pub proof fn lemma_meta_roundtrip(m: MetaView)
    requires
        meta_well_formed(m),
    ensures
        meta_read(meta_text_of(m)) == Some(m),
{
    lemma_all_keys_plain();
    lemma_kv_steps(m);
    lemma_meta_text_parts(m);
    lemma_meta_fold_line(None, "pkg"@, m.pkg, meta_tail2(m));
    lemma_meta_tail2(m);
}

/// The fields that lines set keep as they are on a line.
pub open spec fn meta_clean(m: MetaView) -> bool {
    &&& clean_value(m.pkg)
    &&& clean_value(m.repo)
    &&& clean_value(m.asset_base)
    &&& clean_value(m.env_var)
    &&& match m.label {
        Some(l) => l.len() > 0 && clean_value(l),
        None => true,
    }
}

pub open spec fn opt_clean(o: Option<MetaView>) -> bool {
    match o {
        Some(m) => meta_clean(m),
        None => true,
    }
}

/// What follows the first `=` of a trimmed line is a clean value.
proof fn lemma_value_clean(line: Seq<char>, i: int)
    requires
        !line.contains('\n'),
        find(trim(line), seq!['=']) == Some(i),
    ensures
        0 <= i < trim(line).len(),
        clean_value(trim(line).skip(i + 1)),
{
    let l = trim(line);
    crate::text::lemma_trim_within(line, '\n');
    crate::text::lemma_trim_ends(crate::text::trim_start(line));
    let k = choose|k: int| crate::text::first_at(l, seq!['='], k);
    assert(crate::text::first_at(l, seq!['='], k));
    let v = l.skip(i + 1);
    if v.contains('\n') {
        let j = choose|j: int| 0 <= j < v.len() && v[j] == '\n';
        assert(l[i + 1 + j] == '\n');
    }
    if v.len() > 0 {
        assert(v.last() == l.last());
    }
}

proof fn lemma_step_clean(state: Option<MetaView>, line: Seq<char>)
    requires
        opt_clean(state),
        !line.contains('\n'),
    ensures
        opt_clean(meta_step(state, line)),
{
    let l = trim(line);
    if !(l.len() == 0 || l[0] == '#') {
        match find(l, seq!['=']) {
            Some(i) => {
                lemma_value_clean(line, i);
                assert(clean_value(Seq::<char>::empty()));
            },
            None => {},
        }
    }
}

proof fn lemma_fold_clean(state: Option<MetaView>, ls: Seq<Seq<char>>)
    requires
        opt_clean(state),
        forall|i: int| 0 <= i < ls.len() ==> !(#[trigger] ls[i]).contains('\n'),
    ensures
        opt_clean(meta_fold(state, ls)),
    decreases ls.len(),
{
    if ls.len() > 0 {
        lemma_step_clean(state, ls[0]);
        let rest = ls.drop_first();
        assert forall|i: int| 0 <= i < rest.len() implies !(#[trigger] rest[i]).contains('\n') by {
            assert(rest[i] == ls[i + 1]);
        }
        lemma_fold_clean(meta_step(state, ls[0]), rest);
    }
}

/// Whatever a `.cdlvsm` file gives is metadata that its own file, written
/// afresh, gives back.
pub proof fn lemma_read_meta_well_formed(body: Seq<char>)
    requires
        meta_read(body) is Some,
    ensures
        meta_well_formed(meta_read(body)->0),
        meta_read(meta_text_of(meta_read(body)->0)) == meta_read(body),
{
    crate::text::lemma_lines_single(body);
    lemma_fold_clean(None, lines(body));
    lemma_meta_roundtrip(meta_read(body)->0);
}

/// One of the keys a `.cdlvsm` file sets.
pub open spec fn meta_key(k: Seq<char>) -> bool {
    ||| k == "pkg"@
    ||| k == "repo"@
    ||| k == "asset_base"@
    ||| k == "env_var"@
    ||| k == "label"@
    ||| k == "link"@
}

/// A line the reader passes over: blank, a `#` comment, without `=`, or
/// with a key it does not know.
pub open spec fn meta_ignored(line: Seq<char>) -> bool {
    let l = trim(line);
    ||| l.len() == 0
    ||| l[0] == '#'
    ||| match find(l, seq!['=']) {
        None => true,
        Some(i) => !meta_key(l.take(i)),
    }
}

proof fn lemma_fold_front(state: Option<MetaView>, x: Seq<char>, rest: Seq<Seq<char>>)
    ensures
        meta_fold(state, seq![x] + rest) == meta_fold(meta_step(state, x), rest),
{
    assert((seq![x] + rest)[0] == x);
    assert((seq![x] + rest).drop_first() =~= rest);
}

proof fn lemma_fold_concat(state: Option<MetaView>, xs: Seq<Seq<char>>, ys: Seq<Seq<char>>)
    ensures
        meta_fold(state, xs + ys) == meta_fold(meta_fold(state, xs), ys),
    decreases xs.len(),
{
    if xs.len() == 0 {
        assert(xs + ys =~= ys);
    } else {
        assert(xs + ys =~= seq![xs[0]] + (xs.drop_first() + ys));
        lemma_fold_front(state, xs[0], xs.drop_first() + ys);
        lemma_fold_concat(meta_step(state, xs[0]), xs.drop_first(), ys);
    }
}

proof fn lemma_fold_ignored(state: Option<MetaView>, ls: Seq<Seq<char>>)
    requires
        forall|i: int| 0 <= i < ls.len() ==> meta_ignored(#[trigger] ls[i]),
    ensures
        meta_fold(state, ls) == state,
    decreases ls.len(),
{
    if ls.len() > 0 {
        assert(meta_ignored(ls[0]));
        let rest = ls.drop_first();
        assert forall|i: int| 0 <= i < rest.len() implies meta_ignored(#[trigger] rest[i]) by {
            assert(rest[i] == ls[i + 1]);
        }
        lemma_fold_ignored(state, rest);
    }
}

/// Ending the last line changes nothing the reader sees.
proof fn lemma_fold_newline(state: Option<MetaView>, t: Seq<char>)
    ensures
        meta_fold(state, lines(t + seq!['\n'])) == meta_fold(state, lines(t)),
    decreases t.len(),
{
    let tn = t + seq!['\n'];
    if t.contains('\n') {
        let i = crate::text::lemma_first_newline(t);
        assert forall|j: int| 0 <= j < i implies tn[j] != '\n' by {
            assert(tn[j] == t[j]);
        }
        lemma_lines_step(tn, i);
        lemma_lines_step(t, i);
        assert(tn.take(i) =~= t.take(i));
        assert(tn.skip(i + 1) =~= t.skip(i + 1) + seq!['\n']);
        let x = strip_cr(t.take(i));
        lemma_fold_front(state, x, lines(t.skip(i + 1) + seq!['\n']));
        lemma_fold_front(state, x, lines(t.skip(i + 1)));
        lemma_fold_newline(meta_step(state, x), t.skip(i + 1));
    } else {
        assert forall|j: int| 0 <= j < t.len() implies tn[j] != '\n' by {
            assert(tn[j] == t[j]);
            if t[j] == '\n' {
                assert(t.contains('\n'));
            }
        }
        lemma_lines_step(tn, t.len() as int);
        assert(tn.take(t.len() as int) =~= t);
        assert(tn.skip(t.len() as int + 1) =~= Seq::<char>::empty());
        lemma_fold_front(state, strip_cr(t), Seq::empty());
        assert(lines(tn) =~= seq![strip_cr(t)] + Seq::<Seq<char>>::empty());
        if t.len() == 0 {
            assert(lines(t) =~= Seq::<Seq<char>>::empty());
            assert(strip_cr(t) =~= Seq::<char>::empty());
            assert(trim(Seq::<char>::empty()) =~= Seq::<char>::empty());
        } else {
            assert forall|j: int| 0 <= j < t.len() implies t[j] != '\n' by {
                if t[j] == '\n' {
                    assert(t.contains('\n'));
                }
            }
            crate::text::lemma_lines_last(t);
            lemma_fold_front(state, t, Seq::empty());
            assert(seq![t] + Seq::<Seq<char>>::empty() =~= seq![t]);
            if t.last() == '\r' {
                crate::text::lemma_trim_drop_ws(t);
            }
        }
    }
}

/// Blank lines, comments, lines without `=` and lines with keys the reader
/// does not know, added after the text, leave what it reads unchanged
/// (forward compatibility).
pub proof fn lemma_meta_ignores_other_lines(t: Seq<char>, t2: Seq<char>)
    requires
        forall|i: int| 0 <= i < lines(t2).len() ==> meta_ignored(#[trigger] lines(t2)[i]),
    ensures
        meta_read(t + seq!['\n'] + t2) == meta_read(t),
{
    let tn = t + seq!['\n'];
    crate::text::lemma_lines_concat(tn, t2);
    lemma_fold_concat(None, lines(tn), lines(t2));
    lemma_fold_ignored(meta_fold(None, lines(tn)), lines(t2));
    lemma_fold_newline(None, t);
}

} // verus!
