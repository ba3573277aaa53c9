//! Package registry: the known first-party packages and how each installs,
//! and what install, uninstall, upgrade and list decide.
//!
//! Only `install`/`uninstall`/`upgrade`/`list` consult this. Dispatch is
//! purely filesystem-based and never touches the registry — so an installed
//! package dispatches fine even if a future cdlvsm doesn't know its name.
//!
//! The program performs what is decided here: it runs `curl`/`tar`, reads
//! and writes files and links, and prints the lines these functions make.

use vstd::prelude::*;
use vstd::string::*;
use crate::error::CdlvsmError;
use crate::meta::{meta_text, meta_text_of, opt_string_view, InstallMeta, MetaView};
use crate::order::{row_leq, row_views, sort_names, sort_rows, text_le};
use crate::paths::{
    bin_dir, bin_path, components, components_of, current_link, current_link_path,
    dispatch_target, dispatch_target_path, is_absolute, join, join_path, lemma_join_under,
    lemma_starts_with_refl, lemma_starts_with_trans, metadata_file_path, metadata_path,
    package_dir, package_dir_path, packages_root_path, path_starts_with, plain_name,
    is_plain_name, lemma_join_plain, starts_with_path,
};
use crate::text::{chars_of, decimal, has_name, is_text, push_decimal, push_str, same_chars, views};

verus! {

pub open spec fn code_repo() -> Seq<char> {
    "codelovesme/code"@
}

pub open spec fn euglena_repo() -> Seq<char> {
    "codelovesme/euglena-cli"@
}

#[derive(Clone, Copy, Debug, PartialEq, Eq, Structural)]
pub enum Package {
    Code,
    Euglena,
}

#[derive(Clone, Copy, Debug, PartialEq, Eq, Structural)]
pub enum Tier {
    Sdk,
    Runtime,
}

#[derive(Clone, Copy, Debug)]
pub struct InstallOpts {
    pub tier: Tier,
    pub link: bool,
}

/// Whether a release is put in place by `install` or by `upgrade`.
#[derive(Clone, Copy, Debug, PartialEq, Eq, Structural)]
pub enum Verb {
    Installed,
    Upgraded,
}

/// One package's release-fetch parameters. The binary inside the tarball,
/// the installed package dir, and the shim name are all `pkg`; `asset_base`
/// is the tarball/stage-dir prefix (which for `code` carries a tier infix,
/// e.g. `code-sdk`, and for `euglena` is just `euglena`). `env_var` is the
/// version-pin env var recorded in the metadata file; `verb`/`old` shape the
/// final message ("Installed …" vs "Upgraded … v0.2.0 -> v0.3.0").
#[derive(Clone, Debug)]
pub struct ReleaseSpec {
    pub pkg: String,
    pub repo: String,
    pub asset_base: String,
    pub tag: String,
    pub label: Option<String>,
    pub link: bool,
    pub env_var: String,
    pub verb: Verb,
    pub old: Option<String>,
}

/// A release spec as text.
pub struct SpecView {
    pub pkg: Seq<char>,
    pub repo: Seq<char>,
    pub asset_base: Seq<char>,
    pub tag: Seq<char>,
    pub label: Option<Seq<char>>,
    pub link: bool,
    pub env_var: Seq<char>,
    pub verb: Verb,
    pub old: Option<Seq<char>>,
}

impl View for ReleaseSpec {
    type V = SpecView;

    open spec fn view(&self) -> SpecView {
        SpecView {
            pkg: self.pkg@,
            repo: self.repo@,
            asset_base: self.asset_base@,
            tag: self.tag@,
            label: opt_string_view(self.label),
            link: self.link,
            env_var: self.env_var@,
            verb: self.verb,
            old: opt_string_view(self.old),
        }
    }
}

// ---------------------------------------------------------------------------
// What the registry says
// ---------------------------------------------------------------------------

/// The package a name stands for.
pub open spec fn package_named(name: Seq<char>) -> Option<Package> {
    if name == "code"@ {
        Some(Package::Code)
    } else if name == "euglena"@ {
        Some(Package::Euglena)
    } else {
        None
    }
}

pub open spec fn tier_text(t: Tier) -> Seq<char> {
    match t {
        Tier::Sdk => "sdk"@,
        Tier::Runtime => "runtime"@,
    }
}

/// The release that installing `p` with `opts` at `tag` fetches.
pub open spec fn install_spec(p: Package, opts: InstallOpts, tag: Seq<char>) -> SpecView {
    match p {
        Package::Code => SpecView {
            pkg: "code"@,
            repo: code_repo(),
            asset_base: "code-"@ + tier_text(opts.tier),
            tag,
            label: Some(tier_text(opts.tier)),
            link: opts.link,
            env_var: "CDLVSM_CODE_VERSION"@,
            verb: Verb::Installed,
            old: None,
        },
        Package::Euglena => SpecView {
            pkg: "euglena"@,
            repo: euglena_repo(),
            asset_base: "euglena"@,
            tag,
            label: None,
            link: opts.link,
            env_var: "CDLVSM_EUGLENA_VERSION"@,
            verb: Verb::Installed,
            old: None,
        },
    }
}

/// What the metadata file records of a release.
pub open spec fn meta_of_spec(s: SpecView) -> MetaView {
    MetaView {
        pkg: s.pkg,
        repo: s.repo,
        asset_base: s.asset_base,
        env_var: s.env_var,
        label: s.label,
        link: s.link,
    }
}

/// The settings assumed for a package installed by an older cdlvsm, which
/// recorded none: the SDK tier, no bare link.
pub open spec fn default_meta_of(p: Package) -> MetaView {
    match p {
        Package::Code => MetaView {
            pkg: "code"@,
            repo: code_repo(),
            asset_base: "code-sdk"@,
            env_var: "CDLVSM_CODE_VERSION"@,
            label: Some("sdk"@),
            link: false,
        },
        Package::Euglena => MetaView {
            pkg: "euglena"@,
            repo: euglena_repo(),
            asset_base: "euglena"@,
            env_var: "CDLVSM_EUGLENA_VERSION"@,
            label: None,
            link: false,
        },
    }
}

/// A non-empty version pin.
pub open spec fn pinned(pin: Option<Seq<char>>) -> Option<Seq<char>> {
    match pin {
        Some(v) => if v.len() > 0 {
            Some(v)
        } else {
            None
        },
        None => None,
    }
}

pub open spec fn platform_error_text(os: Seq<char>, arch: Seq<char>, repo: Seq<char>) -> Seq<char> {
    "prebuilt binaries are only available for Linux x86_64 (detected: "@ + os + " "@ + arch
        + ").\nBuild from source instead — see https://github.com/"@ + repo
        + "#building-from-source"@
}

/// Where the program puts things for a release, and what it writes.
pub struct InstallPlan {
    /// The tarball's file name.
    pub asset: String,
    pub url: String,
    /// The prefix of the directory the tarball unpacks into.
    pub stage_prefix: String,
    /// The version's directory, made afresh.
    pub dest: String,
    /// Where the binary goes in it.
    pub dest_bin: String,
    /// The `current` link, repointed at the tag.
    pub current: String,
    pub bin: String,
    /// What every shim points at.
    pub shim_target: String,
    /// The shims: `cdlvsm-<pkg>`, and the bare `<pkg>` only with `--link`.
    pub shims: Vec<String>,
    pub meta_path: String,
    /// The text of the metadata file.
    pub meta: String,
}

/// The tarball of the build `base` of a release at `tag`.
pub open spec fn build_asset(base: Seq<char>, tag: Seq<char>) -> Seq<char> {
    base + "-"@ + tag + "-x86_64-linux.tar.gz"@
}

/// The tarball of the build the spec asks for.
pub open spec fn asset_name(s: SpecView) -> Seq<char> {
    build_asset(s.asset_base, s.tag)
}

/// Where the build `build` of the release is downloaded from.
pub open spec fn release_url(s: SpecView, build: Seq<char>) -> Seq<char> {
    "https://github.com/"@ + s.repo + "/releases/download/"@ + s.tag + "/"@ + build_asset(
        build,
        s.tag,
    )
}

pub open spec fn version_dir(prefix: Seq<char>, s: SpecView) -> Seq<char> {
    join(package_dir_path(prefix, s.pkg), s.tag)
}

/// `$PREFIX/bin/cdlvsm-<pkg>`.
pub open spec fn shim_path(prefix: Seq<char>, pkg: Seq<char>) -> Seq<char> {
    join(bin_path(prefix), "cdlvsm-"@ + pkg)
}

pub open spec fn shim_paths(prefix: Seq<char>, s: SpecView) -> Seq<Seq<char>> {
    if s.link {
        seq![shim_path(prefix, s.pkg), join(bin_path(prefix), s.pkg)]
    } else {
        seq![shim_path(prefix, s.pkg)]
    }
}

/// The plan for putting in place the build `build` of the release `s`
/// asks for: the build is what is downloaded and unpacked; everything else,
/// the metadata file first, follows the settings of `s`.
pub open spec fn plan_is(plan: InstallPlan, prefix: Seq<char>, s: SpecView, build: Seq<char>) -> bool {
    &&& plan.asset@ == build_asset(build, s.tag)
    &&& plan.url@ == release_url(s, build)
    &&& plan.stage_prefix@ == build + "-"@
    &&& plan.dest@ == version_dir(prefix, s)
    &&& plan.dest_bin@ == join(version_dir(prefix, s), s.pkg)
    &&& plan.current@ == current_link_path(prefix, s.pkg)
    &&& plan.bin@ == bin_path(prefix)
    &&& plan.shim_target@ == dispatch_target_path(prefix, s.pkg)
    &&& views(plan.shims@) == shim_paths(prefix, s)
    &&& plan.meta_path@ == metadata_file_path(prefix, s.pkg)
    &&& plan.meta@ == meta_text_of(meta_of_spec(s))
}

/// The failure for a release whose package or tag is not one plain name,
/// which could lead its paths out of the package's directory.
pub open spec fn release_name_error_text(pkg: Seq<char>, tag: Seq<char>) -> Seq<char> {
    "unusable release: package '"@ + pkg + "' at '"@ + tag
        + "' (each must be a single path component)"@
}

/// ` (<label>)`, or nothing.
pub open spec fn label_part(label: Option<Seq<char>>) -> Seq<char> {
    match label {
        Some(l) => " ("@ + l + ")"@,
        None => Seq::empty(),
    }
}

/// The line that says what was put in place.
pub open spec fn verb_line(prefix: Seq<char>, s: SpecView) -> Seq<char> {
    match (s.verb, s.old) {
        (Verb::Upgraded, Some(old)) => "Upgraded "@ + s.pkg + label_part(s.label) + " "@ + old
            + " -> "@ + s.tag,
        (Verb::Upgraded, None) => "Upgraded "@ + s.pkg + label_part(s.label) + " -> "@ + s.tag,
        _ => "Installed "@ + s.pkg + label_part(s.label) + " "@ + s.tag + " -> "@ + version_dir(
            prefix,
            s,
        ),
    }
}

/// The report after a release is put in place: a blank line, what was put
/// in place, the shim, and the bare link when there is one.
pub open spec fn install_report_lines(prefix: Seq<char>, s: SpecView) -> Seq<Seq<char>> {
    seq![Seq::empty(), verb_line(prefix, s), "Shim: "@ + shim_path(prefix, s.pkg)] + if s.link {
        seq!["Linked: "@ + join(bin_path(prefix), s.pkg)]
    } else {
        Seq::empty()
    }
}

/// The note for a `bin` that is not on `PATH`; nothing when it is.
pub open spec fn path_hint_lines(path_dirs: Seq<Seq<char>>, bin: Seq<char>) -> Seq<Seq<char>> {
    if exists|i: int| 0 <= i < path_dirs.len() && components(path_dirs[i]) == components(bin) {
        Seq::empty()
    } else {
        seq![
            Seq::empty(),
            "Note: "@ + bin + " is not on your PATH. Add this to your shell profile:"@,
            "  export PATH=\""@ + bin + ":$PATH\""@,
        ]
    }
}

pub open spec fn no_packages_text() -> Seq<char> {
    "No cdlvsm-managed packages installed."@
}

/// What `upgrade` does next.
pub enum Upgrade {
    /// Nothing: the package is at the tag. The line says so.
    UpToDate(String),
    /// Put this release in place.
    Release(ReleaseSpec),
}

pub open spec fn up_to_date_text(name: Seq<char>, tag: Seq<char>) -> Seq<char> {
    name + " is already up to date ("@ + tag + ")"@
}

/// The release that upgrading to `tag` with the recorded settings fetches.
pub open spec fn upgrade_spec(m: MetaView, tag: Seq<char>, current: Option<Seq<char>>) -> SpecView {
    SpecView {
        pkg: m.pkg,
        repo: m.repo,
        asset_base: m.asset_base,
        tag,
        label: m.label,
        link: m.link,
        env_var: m.env_var,
        verb: Verb::Upgraded,
        old: current,
    }
}

/// `upgrade`'s step once it knows the current version, the settings and
/// the tag: nothing when the current version is the tag, else that release.
pub open spec fn upgrade_is(
    u: Upgrade,
    name: Seq<char>,
    current: Option<Seq<char>>,
    m: MetaView,
    tag: Seq<char>,
) -> bool {
    if current == Some(tag) {
        u matches Upgrade::UpToDate(line) && line@ == up_to_date_text(name, tag)
    } else {
        u matches Upgrade::Release(s) && s@ == upgrade_spec(m, tag, current)
    }
}

pub open spec fn upgrade_missing_text(name: Seq<char>) -> Seq<char> {
    if package_named(name) is Some {
        "'"@ + name + "' is not installed — run `cdlvsm install "@ + name + "` first."@
    } else {
        "unknown package '"@ + name + "'"@
    }
}

pub open spec fn no_meta_text(name: Seq<char>) -> Seq<char> {
    "no install metadata for '"@ + name + "' — cannot determine how to upgrade"@
}

pub open spec fn missing_meta_warning_text(name: Seq<char>) -> Seq<char> {
    "warning: no install metadata for '"@ + name
        + "' (installed by an older cdlvsm); assuming default settings"@
}

/// The settings `upgrade` uses: those recorded; else, for a package this
/// cdlvsm knows, the defaults (and a warning is owed); else none.
pub open spec fn upgrade_settings_of(name: Seq<char>, recorded: Option<MetaView>) -> Option<
    (MetaView, bool),
> {
    match recorded {
        Some(m) => Some((m, false)),
        None => match package_named(name) {
            Some(p) => Some((default_meta_of(p), true)),
            None => None,
        },
    }
}

pub open spec fn list_line_text(prefix: Seq<char>, row: (Seq<char>, Seq<char>)) -> Seq<char> {
    row.0 + "  "@ + row.1 + "  (shim: "@ + shim_path(prefix, row.0) + ")"@
}

pub open spec fn list_line_of(prefix: Seq<char>) -> spec_fn((Seq<char>, Seq<char>)) -> Seq<char> {
    |r: (Seq<char>, Seq<char>)| list_line_text(prefix, r)
}

/// What `list` prints for the packages with a readable `current` link:
/// one line per package and version, in order; a note when there is none.
pub open spec fn list_lines_text(prefix: Seq<char>, rows: Seq<(Seq<char>, Seq<char>)>) -> Seq<
    Seq<char>,
> {
    if rows.len() == 0 {
        seq![no_packages_text()]
    } else {
        rows.sort_by(row_leq()).map_values(list_line_of(prefix))
    }
}

// ---------------------------------------------------------------------------
// Executable
// ---------------------------------------------------------------------------

fn owned(s: &str) -> (r: String)
    ensures
        r@ == s@,
{
    String::from_str(s)
}

impl Tier {
    pub fn as_str(self) -> (r: &'static str)
        ensures
            r@ == tier_text(self),
    {
        match self {
            Tier::Sdk => "sdk",
            Tier::Runtime => "runtime",
        }
    }
}

impl Package {
    pub fn parse(name: &str) -> (r: Option<Package>)
        ensures
            r == package_named(name@),
    {
        let n = chars_of(name);
        if is_text(n.as_slice(), "code") {
            Some(Package::Code)
        } else if is_text(n.as_slice(), "euglena") {
            Some(Package::Euglena)
        } else {
            None
        }
    }

    /// The release that installing this package with `opts` fetches, once
    /// the tag is known.
    pub fn install(self, opts: &InstallOpts, tag: &str) -> (r: ReleaseSpec)
        ensures
            r@ == install_spec(self, *opts, tag@),
    {
        match self {
            Package::Code => code_spec(opts, tag),
            Package::Euglena => euglena_spec(opts, tag),
        }
    }

    /// Default install settings for a package whose `.cdlvsm` metadata is
    /// missing (installed by an older cdlvsm): the SDK tier, no bare link.
    /// `upgrade` falls back to these with a warning rather than failing.
    pub fn default_meta(self) -> (m: InstallMeta)
        ensures
            m@ == default_meta_of(self),
    {
        match self {
            Package::Code => InstallMeta {
                pkg: owned("code"),
                repo: owned("codelovesme/code"),
                asset_base: owned("code-sdk"),
                env_var: owned("CDLVSM_CODE_VERSION"),
                label: Some(owned("sdk")),
                link: false,
            },
            Package::Euglena => InstallMeta {
                pkg: owned("euglena"),
                repo: owned("codelovesme/euglena-cli"),
                asset_base: owned("euglena"),
                env_var: owned("CDLVSM_EUGLENA_VERSION"),
                label: None,
                link: false,
            },
        }
    }
}

impl InstallMeta {
    /// What the metadata file records of `spec`.
    pub fn from_spec(spec: &ReleaseSpec) -> (m: InstallMeta)
        ensures
            m@ == meta_of_spec(spec@),
    {
        InstallMeta {
            pkg: spec.pkg.clone(),
            repo: spec.repo.clone(),
            asset_base: spec.asset_base.clone(),
            env_var: spec.env_var.clone(),
            label: match &spec.label {
                Some(l) => Some(l.clone()),
                None => None,
            },
            link: spec.link,
        }
    }
}

fn code_spec(opts: &InstallOpts, tag: &str) -> (r: ReleaseSpec)
    ensures
        r@ == install_spec(Package::Code, *opts, tag@),
{
    let tier = opts.tier.as_str();
    let mut asset_base = owned("code-");
    push_str(&mut asset_base, tier);
    ReleaseSpec {
        pkg: owned("code"),
        repo: owned("codelovesme/code"),
        asset_base,
        tag: owned(tag),
        label: Some(owned(tier)),
        link: opts.link,
        env_var: owned("CDLVSM_CODE_VERSION"),
        verb: Verb::Installed,
        old: None,
    }
}

fn euglena_spec(opts: &InstallOpts, tag: &str) -> (r: ReleaseSpec)
    ensures
        r@ == install_spec(Package::Euglena, *opts, tag@),
{
    ReleaseSpec {
        pkg: owned("euglena"),
        repo: owned("codelovesme/euglena-cli"),
        asset_base: owned("euglena"),
        tag: owned(tag),
        label: None,
        link: opts.link,
        env_var: owned("CDLVSM_EUGLENA_VERSION"),
        verb: Verb::Installed,
        old: None,
    }
}

/// The asset names of a release, when its listing could be fetched.
pub open spec fn opt_names(a: Option<Vec<String>>) -> Option<Seq<Seq<char>>> {
    match a {
        Some(v) => Some(views(v@)),
        None => None,
    }
}

/// The tarball of `code`'s single build at `tag`.
pub open spec fn single_asset_name(tag: Seq<char>) -> Seq<char> {
    build_asset("code"@, tag)
}

/// A release of `code` that ships one build for every tier (`code` did
/// ship per-tier builds through v0.4.1; from v0.5.0 on there is a single
/// build): its listing is known, has no asset for the spec's tier, and has
/// the single build.
pub open spec fn is_single_build(s: SpecView, assets: Option<Seq<Seq<char>>>) -> bool {
    &&& s.pkg == "code"@
    &&& match assets {
        Some(a) => !a.contains(asset_name(s)) && a.contains(single_asset_name(s.tag)),
        None => false,
    }
}

/// The build that is downloaded for `s`: the single build when the release
/// ships one, else the one `s` asks for. Without a listing the asked-for
/// name stands, and the download itself surfaces any error.
pub open spec fn build_of(s: SpecView, assets: Option<Seq<Seq<char>>>) -> Seq<char> {
    if is_single_build(s, assets) {
        "code"@
    } else {
        s.asset_base
    }
}

pub open spec fn single_build_note_text(tag: Seq<char>) -> Seq<char> {
    "note: code "@ + tag + " ships a single build; the tier setting does not apply"@
}

/// The build to download for `spec`, given the release's asset listing,
/// and the note owed when it is the single build. The settings of `spec`
/// stay as they are: they are what is recorded.
pub fn release_build(spec: &ReleaseSpec, assets: &Option<Vec<String>>) -> (r: (String, Option<String>))
    ensures
        r.0@ == build_of(spec@, opt_names(*assets)),
        is_single_build(spec@, opt_names(*assets)) ==> (r.1 matches Some(n) && n@
            == single_build_note_text(spec@.tag)),
        !is_single_build(spec@, opt_names(*assets)) ==> r.1 is None,
{
    let p = chars_of(spec.pkg.as_str());
    if !is_text(p.as_slice(), "code") {
        return (spec.asset_base.clone(), None);
    }
    match assets {
        None => (spec.asset_base.clone(), None),
        Some(names) => {
            let mut tiered = spec.asset_base.clone();
            push_str(&mut tiered, "-");
            push_str(&mut tiered, spec.tag.as_str());
            push_str(&mut tiered, "-x86_64-linux.tar.gz");
            let mut single = owned("code");
            push_str(&mut single, "-");
            push_str(&mut single, spec.tag.as_str());
            push_str(&mut single, "-x86_64-linux.tar.gz");
            assert(tiered@ =~= asset_name(spec@));
            assert(single@ =~= single_asset_name(spec@.tag));
            if !has_name(names, tiered.as_str()) && has_name(names, single.as_str()) {
                let mut note = owned("note: code ");
                push_str(&mut note, spec.tag.as_str());
                push_str(&mut note, " ships a single build; the tier setting does not apply");
                (owned("code"), Some(note))
            } else {
                (spec.asset_base.clone(), None)
            }
        },
    }
}

/// Installing `code` with `opts` at `tag`: the release with the tier's
/// settings, and the build to download given the release's asset listing
/// — the single build, with a note, when the release ships one build for
/// every tier. The tier asked for is what is recorded.
pub fn install_code(opts: &InstallOpts, tag: &str, assets: &Option<Vec<String>>) -> (r: (
    ReleaseSpec,
    String,
    Option<String>,
))
    ensures
        r.0@ == install_spec(Package::Code, *opts, tag@),
        r.1@ == build_of(r.0@, opt_names(*assets)),
        is_single_build(r.0@, opt_names(*assets)) ==> (r.2 matches Some(n) && n@
            == single_build_note_text(tag@)),
        !is_single_build(r.0@, opt_names(*assets)) ==> r.2 is None,
{
    let spec = code_spec(opts, tag);
    let (build, note) = release_build(&spec, assets);
    (spec, build, note)
}

/// What installing `euglena` needs beside its own release: `euglena` runs
/// apps through the `code` interpreter, so `code` is installed too when it
/// is not (SDK tier, no bare link), and euglena is pointed at cdlvsm's
/// `code` shim — which tracks whichever version of `code` is current.
pub struct EuglenaSetup {
    /// How to install `code`, when it is not installed.
    pub code: Option<InstallOpts>,
    /// The arguments for the installed euglena that point it at the shim.
    pub wiring: Vec<String>,
}

pub open spec fn euglena_wiring_args(prefix: Seq<char>) -> Seq<Seq<char>> {
    seq!["code"@, "set"@, shim_path(prefix, "code"@)]
}

/// Installing `euglena` with `opts` at `tag` under `prefix`, where `code`
/// is installed or not: its own release (downloaded as it is asked for),
/// `code` first when it is not installed — the SDK tier, no bare link —
/// and the arguments that point the installed euglena at `code`'s shim.
pub fn install_euglena(opts: &InstallOpts, tag: &str, prefix: &str, code_installed: bool) -> (r: (
    ReleaseSpec,
    EuglenaSetup,
))
    ensures
        r.0@ == install_spec(Package::Euglena, *opts, tag@),
        r.1.code == (if code_installed {
            None
        } else {
            Some(InstallOpts { tier: Tier::Sdk, link: false })
        }),
        views(r.1.wiring@) == euglena_wiring_args(prefix@),
{
    let mut wiring: Vec<String> = Vec::new();
    wiring.push(owned("code"));
    wiring.push(owned("set"));
    wiring.push(shim(prefix, "code"));
    assert(views(wiring@) =~= euglena_wiring_args(prefix@));
    let setup = EuglenaSetup {
        code: if code_installed {
            None
        } else {
            Some(InstallOpts { tier: Tier::Sdk, link: false })
        },
        wiring,
    };
    (euglena_spec(opts, tag), setup)
}

/// The failure when the installed euglena could not be pointed at the
/// `code` shim.
pub fn euglena_wiring_error(prefix: &str) -> (e: CdlvsmError)
    ensures
        e.0@ == "could not point euglena at "@ + shim_path(prefix@, "code"@)
            + " — run `euglena code set <path>` yourself"@,
{
    let mut msg = owned("could not point euglena at ");
    let s = shim(prefix, "code");
    push_str(&mut msg, s.as_str());
    push_str(&mut msg, " — run `euglena code set <path>` yourself");
    CdlvsmError(msg)
}

/// The release tag a version pin gives: the pin when it is not empty;
/// otherwise none, and the latest release is asked for.
pub fn resolve_tag(pin: Option<&str>) -> (r: Option<String>)
    ensures
        opt_string_view(r) == pinned(crate::paths::opt_view(pin)),
{
    match pin {
        Some(v) => {
            if v.is_empty() {
                None
            } else {
                Some(owned(v))
            }
        },
        None => None,
    }
}

/// Prebuilt binaries are for Linux x86_64 only; `os` and `arch` are what
/// `uname -s` and `uname -m` say.
pub fn check_platform(os: &str, arch: &str, repo: &str) -> (r: Result<(), CdlvsmError>)
    ensures
        (r is Ok) <==> (os@ == "Linux"@ && arch@ == "x86_64"@),
        r matches Err(e) ==> e.0@ == platform_error_text(os@, arch@, repo@),
{
    let o = chars_of(os);
    let a = chars_of(arch);
    if is_text(o.as_slice(), "Linux") && is_text(a.as_slice(), "x86_64") {
        return Ok(());
    }
    let mut msg = owned("prebuilt binaries are only available for Linux x86_64 (detected: ");
    push_str(&mut msg, os);
    push_str(&mut msg, " ");
    push_str(&mut msg, arch);
    push_str(&mut msg, ").\nBuild from source instead — see https://github.com/");
    push_str(&mut msg, repo);
    push_str(&mut msg, "#building-from-source");
    assert(msg@ =~= platform_error_text(os@, arch@, repo@));
    Err(CdlvsmError(msg))
}

/// `$PREFIX/bin/cdlvsm-<pkg>`.
pub fn shim(prefix: &str, pkg: &str) -> (r: String)
    ensures
        r@ == shim_path(prefix@, pkg@),
{
    let bin = bin_dir(prefix);
    let mut name = owned("cdlvsm-");
    push_str(&mut name, pkg);
    join_path(bin.as_str(), name.as_str())
}

/// Where the program puts the build `build` of `spec` under `prefix`, and
/// what it writes; refused when the package or the tag is not one plain
/// name.
pub fn install_plan(prefix: &str, spec: &ReleaseSpec, build: &str) -> (r: Result<
    InstallPlan,
    CdlvsmError,
>)
    ensures
        (r is Ok) <==> (plain_name(spec@.pkg) && plain_name(spec@.tag)),
        r matches Ok(plan) ==> plan_is(plan, prefix@, spec@, build@),
        r matches Err(e) ==> e.0@ == release_name_error_text(spec@.pkg, spec@.tag),
{
    if !is_plain_name(spec.pkg.as_str()) || !is_plain_name(spec.tag.as_str()) {
        let mut msg = owned("unusable release: package '");
        push_str(&mut msg, spec.pkg.as_str());
        push_str(&mut msg, "' at '");
        push_str(&mut msg, spec.tag.as_str());
        push_str(&mut msg, "' (each must be a single path component)");
        return Err(CdlvsmError(msg));
    }
    let mut asset = owned(build);
    push_str(&mut asset, "-");
    push_str(&mut asset, spec.tag.as_str());
    push_str(&mut asset, "-x86_64-linux.tar.gz");
    let mut url = owned("https://github.com/");
    push_str(&mut url, spec.repo.as_str());
    push_str(&mut url, "/releases/download/");
    push_str(&mut url, spec.tag.as_str());
    push_str(&mut url, "/");
    push_str(&mut url, asset.as_str());
    let mut stage_prefix = owned(build);
    push_str(&mut stage_prefix, "-");
    let pkg_dir = package_dir(prefix, spec.pkg.as_str());
    let dest = join_path(pkg_dir.as_str(), spec.tag.as_str());
    let dest_bin = join_path(dest.as_str(), spec.pkg.as_str());
    let current = current_link(prefix, spec.pkg.as_str());
    let bin = bin_dir(prefix);
    let shim_target = dispatch_target(prefix, spec.pkg.as_str());
    let mut shims: Vec<String> = Vec::new();
    shims.push(shim(prefix, spec.pkg.as_str()));
    if spec.link {
        shims.push(join_path(bin.as_str(), spec.pkg.as_str()));
    }
    let meta_path = metadata_path(prefix, spec.pkg.as_str());
    let meta = meta_text(&InstallMeta::from_spec(spec));
    assert(asset@ =~= build_asset(build@, spec@.tag));
    assert(url@ =~= release_url(spec@, build@));
    assert(views(shims@) =~= shim_paths(prefix@, spec@));
    Ok(
        InstallPlan {
            asset,
            url,
            stage_prefix,
            dest,
            dest_bin,
            current,
            bin,
            shim_target,
            shims,
            meta_path,
            meta,
        },
    )
}

/// The failure when the unpacked release has no binary for `pkg`.
pub fn missing_binary_error(pkg: &str, stage: &str) -> (e: CdlvsmError)
    ensures
        e.0@ == "unexpected archive layout — no '"@ + pkg@ + "' binary in "@ + stage@,
{
    let mut msg = owned("unexpected archive layout — no '");
    push_str(&mut msg, pkg);
    push_str(&mut msg, "' binary in ");
    push_str(&mut msg, stage);
    CdlvsmError(msg)
}

/// The directory the tarball unpacked into: the first of `dirs` (the names
/// of the directories in `tmp`, in the order they were listed) whose name
/// starts with `prefix`, joined to `tmp`.
pub fn find_stage(tmp: &str, dirs: &Vec<String>, prefix: &str) -> (r: Result<String, CdlvsmError>)
    ensures
        match r {
            Ok(path) => exists|i: int|
                0 <= i < dirs@.len() && dirs@[i]@.len() >= prefix@.len() && dirs@[i]@.take(
                    prefix@.len() as int,
                ) == prefix@ && (forall|j: int|
                    0 <= j < i ==> !(dirs@[j]@.len() >= prefix@.len() && dirs@[j]@.take(
                        prefix@.len() as int,
                    ) == prefix@)) && path@ == join(tmp@, dirs@[i]@),
            Err(e) => (forall|j: int|
                0 <= j < dirs@.len() ==> !(dirs@[j]@.len() >= prefix@.len() && dirs@[j]@.take(
                    prefix@.len() as int,
                ) == prefix@)) && e.0@ == "unexpected archive layout — no "@ + prefix@
                + "* directory found."@,
        },
{
    let p = chars_of(prefix);
    let mut i: usize = 0;
    while i < dirs.len()
        invariant
            i <= dirs@.len(),
            p@ == prefix@,
            forall|j: int|
                0 <= j < i ==> !(dirs@[j]@.len() >= prefix@.len() && dirs@[j]@.take(
                    prefix@.len() as int,
                ) == prefix@),
        decreases dirs.len() - i,
    {
        let d = chars_of(dirs[i].as_str());
        if d.len() >= p.len() && same_chars(&d.as_slice()[0..p.len()], p.as_slice()) {
            assert(d@.subrange(0, p@.len() as int) =~= d@.take(p@.len() as int));
            return Ok(join_path(tmp, dirs[i].as_str()));
        }
        proof {
            if d@.len() >= p@.len() {
                assert(d@.subrange(0, p@.len() as int) =~= d@.take(p@.len() as int));
            }
        }
        i += 1;
    }
    let mut msg = owned("unexpected archive layout — no ");
    push_str(&mut msg, prefix);
    push_str(&mut msg, "* directory found.");
    Err(CdlvsmError(msg))
}

fn push_label_part(out: &mut String, label: &Option<String>)
    ensures
        final(out)@ == old(out)@ + label_part(opt_string_view(*label)),
{
    match label {
        Some(l) => {
            push_str(out, " (");
            push_str(out, l.as_str());
            push_str(out, ")");
        },
        None => {
            assert(old(out)@ + Seq::<char>::empty() =~= old(out)@);
        },
    }
}

/// The report after `spec` is put in place under `prefix`.
pub fn install_report(prefix: &str, spec: &ReleaseSpec) -> (r: Vec<String>)
    ensures
        views(r@) == install_report_lines(prefix@, spec@),
{
    let mut line = String::new();
    proof {
        reveal_strlit("");
    }
    match (spec.verb, &spec.old) {
        (Verb::Upgraded, Some(old)) => {
            push_str(&mut line, "Upgraded ");
            push_str(&mut line, spec.pkg.as_str());
            push_label_part(&mut line, &spec.label);
            push_str(&mut line, " ");
            push_str(&mut line, old.as_str());
            push_str(&mut line, " -> ");
            push_str(&mut line, spec.tag.as_str());
        },
        (Verb::Upgraded, None) => {
            push_str(&mut line, "Upgraded ");
            push_str(&mut line, spec.pkg.as_str());
            push_label_part(&mut line, &spec.label);
            push_str(&mut line, " -> ");
            push_str(&mut line, spec.tag.as_str());
        },
        _ => {
            push_str(&mut line, "Installed ");
            push_str(&mut line, spec.pkg.as_str());
            push_label_part(&mut line, &spec.label);
            push_str(&mut line, " ");
            push_str(&mut line, spec.tag.as_str());
            push_str(&mut line, " -> ");
            let pkg_dir = package_dir(prefix, spec.pkg.as_str());
            let dest = join_path(pkg_dir.as_str(), spec.tag.as_str());
            push_str(&mut line, dest.as_str());
        },
    }
    assert(line@ =~= verb_line(prefix@, spec@));
    let mut out: Vec<String> = Vec::new();
    out.push(String::new());
    out.push(line);
    let mut shim_line = owned("Shim: ");
    let s = shim(prefix, spec.pkg.as_str());
    push_str(&mut shim_line, s.as_str());
    out.push(shim_line);
    if spec.link {
        let mut linked = owned("Linked: ");
        let bin = bin_dir(prefix);
        let bare = join_path(bin.as_str(), spec.pkg.as_str());
        push_str(&mut linked, bare.as_str());
        out.push(linked);
    }
    assert(views(out@) =~= install_report_lines(prefix@, spec@));
    out
}

/// The note owed when `bin` is not one of the `PATH` directories.
pub fn path_hint(path_dirs: &Vec<String>, bin: &str) -> (r: Vec<String>)
    ensures
        views(r@) == path_hint_lines(views(path_dirs@), bin@),
{
    let cb = components_of(bin);
    let mut i: usize = 0;
    while i < path_dirs.len()
        invariant
            i <= path_dirs@.len(),
            crate::paths::char_views(cb@) == components(bin@),
            forall|j: int| 0 <= j < i ==> components(path_dirs@[j]@) != components(bin@),
        decreases path_dirs.len() - i,
    {
        // A directory of PATH is the bin directory when both have the same components.
        let cd = components_of(path_dirs[i].as_str());
        if starts_with_path(path_dirs[i].as_str(), bin) && cd.len() == cb.len() {
            proof {
                let (x, y) = (components(path_dirs@[i as int]@), components(bin@));
                assert(x.take(y.len() as int) =~= x);
                assert(views(path_dirs@)[i as int] == path_dirs@[i as int]@);
            }
            return Vec::new();
        }
        proof {
            let (x, y) = (components(path_dirs@[i as int]@), components(bin@));
            if x == y {
                assert(x.take(y.len() as int) =~= y);
            }
        }
        i += 1;
    }
    let mut note = owned("Note: ");
    push_str(&mut note, bin);
    push_str(&mut note, " is not on your PATH. Add this to your shell profile:");
    let mut export = owned("  export PATH=\"");
    push_str(&mut export, bin);
    push_str(&mut export, ":$PATH\"");
    let mut out: Vec<String> = Vec::new();
    out.push(String::new());
    out.push(note);
    out.push(export);
    proof {
        reveal_strlit("");
        assert forall|j: int|
            0 <= j < views(path_dirs@).len() implies components(views(path_dirs@)[j]) != components(
            bin@,
        ) by {
            assert(views(path_dirs@)[j] == path_dirs@[j]@);
        }
    }
    assert(views(out@) =~= path_hint_lines(views(path_dirs@), bin@));
    out
}

// ---- uninstall -----------------------------------------------------------

/// The failure of `uninstall` for a package that is not there.
pub fn not_installed_error(name: &str) -> (e: CdlvsmError)
    ensures
        e.0@ == "'"@ + name@ + "' is not installed via cdlvsm."@,
{
    let mut msg = owned("'");
    push_str(&mut msg, name);
    push_str(&mut msg, "' is not installed via cdlvsm.");
    CdlvsmError(msg)
}

/// The names of the shims `uninstall` looks at in the bin directory:
/// `cdlvsm-<name>` and the bare `<name>`.
pub fn shim_names(name: &str) -> (r: Vec<String>)
    ensures
        views(r@) == seq!["cdlvsm-"@ + name@, name@],
{
    let mut prefixed = owned("cdlvsm-");
    push_str(&mut prefixed, name);
    let mut out: Vec<String> = Vec::new();
    out.push(prefixed);
    out.push(owned(name));
    assert(views(out@) =~= seq!["cdlvsm-"@ + name@, name@]);
    out
}

/// Where a link in `bin` whose target is `target` points: the target when
/// it is absolute, else the target taken from `bin`.
pub fn link_target(bin: &str, target: &str) -> (r: String)
    ensures
        r@ == join(bin@, target@),
{
    join_path(bin, target)
}

/// Whether the shim whose (canonical) target is `resolved` is cdlvsm's own
/// for the package in `pkg_dir`: it points inside that directory, component
/// by component. Only such a shim is ever removed — never a same-named
/// binary cdlvsm didn't create (e.g. VS Code's real `code`).
pub fn owns_shim(resolved: &str, pkg_dir: &str) -> (r: bool)
    ensures
        r == path_starts_with(resolved@, pkg_dir@),
{
    starts_with_path(resolved, pkg_dir)
}

/// What `uninstall` says when done.
pub fn uninstalled_message(name: &str) -> (r: String)
    ensures
        r@ == "Uninstalled "@ + name@ + "."@,
{
    let mut msg = owned("Uninstalled ");
    push_str(&mut msg, name);
    push_str(&mut msg, ".");
    msg
}

// ---- upgrade --------------------------------------------------------------

/// The failure of `upgrade` for a package whose directory is missing.
pub fn upgrade_missing(name: &str) -> (e: CdlvsmError)
    ensures
        e.0@ == upgrade_missing_text(name@),
{
    let mut msg = String::new();
    proof {
        reveal_strlit("");
    }
    if Package::parse(name).is_some() {
        push_str(&mut msg, "'");
        push_str(&mut msg, name);
        push_str(&mut msg, "' is not installed — run `cdlvsm install ");
        push_str(&mut msg, name);
        push_str(&mut msg, "` first.");
    } else {
        push_str(&mut msg, "unknown package '");
        push_str(&mut msg, name);
        push_str(&mut msg, "'");
    }
    assert(msg@ =~= upgrade_missing_text(name@));
    CdlvsmError(msg)
}

/// The warning when `upgrade` falls back to the defaults.
pub fn missing_meta_warning(name: &str) -> (r: String)
    ensures
        r@ == missing_meta_warning_text(name@),
{
    let mut msg = owned("warning: no install metadata for '");
    push_str(&mut msg, name);
    push_str(&mut msg, "' (installed by an older cdlvsm); assuming default settings");
    msg
}

/// The settings `upgrade` uses for `name`, given what its metadata file
/// gave (`None` when it has none that is usable), and whether the defaults
/// were assumed (a warning is then owed).
pub fn upgrade_settings(name: &str, recorded: Option<InstallMeta>) -> (r: Result<
    (InstallMeta, bool),
    CdlvsmError,
>)
    ensures
        match (r, upgrade_settings_of(name@, crate::meta::opt_meta_view(recorded))) {
            (Ok((m, warned)), Some((sm, sw))) => m@ == sm && warned == sw,
            (Err(e), None) => e.0@ == no_meta_text(name@),
            _ => false,
        },
{
    match recorded {
        Some(m) => Ok((m, false)),
        None => match Package::parse(name) {
            Some(p) => Ok((p.default_meta(), true)),
            None => {
                let mut msg = owned("no install metadata for '");
                push_str(&mut msg, name);
                push_str(&mut msg, "' — cannot determine how to upgrade");
                Err(CdlvsmError(msg))
            },
        },
    }
}

/// `upgrade`'s step for `name` at version `current` (what its `current`
/// link names, when it can be read), with the settings `meta`, towards `tag`.
/// Tags compare as strings: only an exact match skips.
pub fn upgrade_step(name: &str, current: Option<&str>, meta: &InstallMeta, tag: &str) -> (r: Upgrade)
    ensures
        upgrade_is(r, name@, crate::paths::opt_view(current), meta@, tag@),
{
    match current {
        Some(cur) => {
            let c = chars_of(cur);
            if is_text(c.as_slice(), tag) {
                let mut line = owned(name);
                push_str(&mut line, " is already up to date (");
                push_str(&mut line, tag);
                push_str(&mut line, ")");
                return Upgrade::UpToDate(line);
            }
        },
        None => {},
    }
    Upgrade::Release(
        ReleaseSpec {
            pkg: meta.pkg.clone(),
            repo: meta.repo.clone(),
            asset_base: meta.asset_base.clone(),
            tag: owned(tag),
            label: match &meta.label {
                Some(l) => Some(l.clone()),
                None => None,
            },
            link: meta.link,
            env_var: meta.env_var.clone(),
            verb: Verb::Upgraded,
            old: match current {
                Some(c) => Some(owned(c)),
                None => None,
            },
        },
    )
}

/// The order in which `upgrade` with no name goes through the packages.
pub fn upgrade_order(names: Vec<String>) -> (r: Vec<String>)
    ensures
        views(r@) == views(names@).sort_by(text_le()),
{
    sort_names(names)
}

/// The line for a package that failed to upgrade.
pub fn upgrade_failure_line(name: &str, error: &CdlvsmError) -> (r: String)
    ensures
        r@ == "error: "@ + name@ + ": "@ + error.0@,
{
    let mut line = owned("error: ");
    push_str(&mut line, name);
    push_str(&mut line, ": ");
    push_str(&mut line, error.0.as_str());
    line
}

/// The outcome of upgrading every package when `failed` of them failed.
pub fn upgrade_all_result(failed: usize) -> (r: Result<(), CdlvsmError>)
    ensures
        (r is Ok) <==> failed == 0,
        r matches Err(e) ==> e.0@ == decimal(failed as nat) + " package(s) failed to upgrade"@,
{
    if failed == 0 {
        return Ok(());
    }
    let mut msg = String::new();
    push_decimal(&mut msg, failed);
    push_str(&mut msg, " package(s) failed to upgrade");
    proof {
        reveal_strlit("");
    }
    assert(msg@ =~= decimal(failed as nat) + " package(s) failed to upgrade"@);
    Err(CdlvsmError(msg))
}

/// What `list` and `upgrade` say when no package is installed.
pub fn no_packages_message() -> (r: String)
    ensures
        r@ == no_packages_text(),
{
    owned("No cdlvsm-managed packages installed.")
}

// ---- list -----------------------------------------------------------------

/// What `list` prints: `rows` are the packages whose `current` link could
/// be read, with the version it names.
pub fn list_lines(rows: Vec<(String, String)>, prefix: &str) -> (r: Vec<String>)
    ensures
        views(r@) == list_lines_text(prefix@, row_views(rows@)),
{
    if rows.len() == 0 {
        let mut out: Vec<String> = Vec::new();
        out.push(no_packages_message());
        assert(row_views(rows@) =~= Seq::<(Seq<char>, Seq<char>)>::empty());
        assert(views(out@) =~= seq![no_packages_text()]);
        return out;
    }
    let ghost rv = row_views(rows@);
    let sorted = sort_rows(rows);
    let ghost sv = row_views(sorted@);
    let mut out: Vec<String> = Vec::new();
    let mut i: usize = 0;
    while i < sorted.len()
        invariant
            i <= sorted@.len(),
            sv == row_views(sorted@),
            views(out@) == sv.take(i as int).map_values(list_line_of(prefix@)),
        decreases sorted.len() - i,
    {
        let row = &sorted[i];
        let mut line = row.0.clone();
        push_str(&mut line, "  ");
        push_str(&mut line, row.1.as_str());
        push_str(&mut line, "  (shim: ");
        let s = shim(prefix, row.0.as_str());
        push_str(&mut line, s.as_str());
        push_str(&mut line, ")");
        let ghost before = views(out@);
        proof {
            assert(sv[i as int] == (sorted@[i as int].0@, sorted@[i as int].1@));
            assert(line@ =~= list_line_text(prefix@, sv[i as int]));
        }
        out.push(line);
        proof {
            assert(views(out@) =~= before.push(line@));
            let f = list_line_of(prefix@);
            assert(f(sv[i as int]) == line@);
            assert(sv.take(i as int + 1).map_values(f) =~= sv.take(i as int).map_values(f).push(
                f(sv[i as int]),
            ));
            assert(views(out@) =~= sv.take(i as int + 1).map_values(list_line_of(prefix@)));
        }
        i += 1;
    }
    proof {
        assert(sv.take(sv.len() as int) =~= sv);
        assert(rv.len() > 0);
    }
    out
}

// ---------------------------------------------------------------------------
// Laws
// ---------------------------------------------------------------------------

proof fn lemma_relative_literals()
    ensures
        !is_absolute("bin"@),
        !is_absolute("share"@),
        !is_absolute("cdlvsm"@),
        !is_absolute("packages"@),
        !is_absolute("current"@),
{
    reveal_strlit("bin");
    reveal_strlit("share");
    reveal_strlit("cdlvsm");
    reveal_strlit("packages");
    reveal_strlit("current");
}

/// Under an absolute prefix, the shims install makes — `cdlvsm-<pkg>` and
/// the bare `<pkg>`, both linked to `current/<pkg>` — point inside the
/// package's own directory, so uninstall recognizes them as cdlvsm's.
pub proof fn lemma_installed_shims_are_owned(prefix: Seq<char>, pkg: Seq<char>)
    requires
        is_absolute(prefix),
    ensures
        path_starts_with(join(bin_path(prefix), dispatch_target_path(prefix, pkg)), package_dir_path(
            prefix,
            pkg,
        )),
{
    lemma_relative_literals();
    let share = join(prefix, "share"@);
    lemma_join_under(prefix, "share"@);
    let ours = join(share, "cdlvsm"@);
    lemma_join_under(share, "cdlvsm"@);
    let root = packages_root_path(prefix);
    lemma_join_under(ours, "packages"@);
    let dir = package_dir_path(prefix, pkg);
    lemma_join_under(root, pkg);
    let current = current_link_path(prefix, pkg);
    lemma_join_under(dir, "current"@);
    let target = dispatch_target_path(prefix, pkg);
    lemma_join_under(current, pkg);
    lemma_join_under(prefix, "bin"@);
    lemma_join_under(bin_path(prefix), target);
    if is_absolute(pkg) {
        lemma_starts_with_refl(pkg);
    } else {
        lemma_starts_with_trans(target, current, dir);
    }
}

/// Every release `install` fetches records settings that its own metadata
/// file gives back.
pub proof fn lemma_install_meta_well_formed(p: Package, opts: InstallOpts, tag: Seq<char>)
    ensures
        crate::meta::meta_well_formed(meta_of_spec(install_spec(p, opts, tag))),
{
    reveal_strlit("code");
    reveal_strlit("codelovesme/code");
    reveal_strlit("code-");
    reveal_strlit("sdk");
    reveal_strlit("runtime");
    reveal_strlit("CDLVSM_CODE_VERSION");
    reveal_strlit("euglena");
    reveal_strlit("codelovesme/euglena-cli");
    reveal_strlit("CDLVSM_EUGLENA_VERSION");
    let m = meta_of_spec(install_spec(p, opts, tag));
    lemma_clean_printable(m.pkg);
    lemma_clean_printable(m.repo);
    lemma_clean_printable(m.asset_base);
    lemma_clean_printable(m.env_var);
    match m.label {
        Some(l) => lemma_clean_printable(l),
        None => {},
    }
}

/// Printable ASCII text without spaces keeps as it is on a line.
proof fn lemma_clean_printable(s: Seq<char>)
    requires
        forall|i: int| 0 <= i < s.len() ==> '!' <= #[trigger] s[i] <= '~',
    ensures
        crate::meta::clean_value(s),
{
    if s.contains('\n') {
        let i = choose|i: int| 0 <= i < s.len() && s[i] == '\n';
        assert('!' <= s[i]);
    }
    if s.len() > 0 {
        assert('!' <= s[s.len() - 1] <= '~');
    }
}

/// `upgrade` puts in place a release with exactly the settings the package
/// was installed with — tier (asset), label, link, repository and pin
/// variable — read back from the metadata install wrote; or, when the
/// package is already at the tag, it does nothing.
pub proof fn lemma_upgrade_reuses_install_settings(
    p: Package,
    opts: InstallOpts,
    installed_tag: Seq<char>,
    tag: Seq<char>,
    u: Upgrade,
)
    requires
        ({
            let s = install_spec(p, opts, installed_tag);
            match crate::meta::meta_read(meta_text_of(meta_of_spec(s))) {
                Some(m) => upgrade_is(u, s.pkg, Some(installed_tag), m, tag),
                None => false,
            }
        }),
    ensures
        ({
            let s = install_spec(p, opts, installed_tag);
            if installed_tag == tag {
                u is UpToDate
            } else {
                u matches Upgrade::Release(r) && r@.pkg == s.pkg && r@.repo == s.repo
                    && r@.asset_base == s.asset_base && r@.label == s.label && r@.link == s.link
                    && r@.env_var == s.env_var && r@.tag == tag && r@.old == Some(installed_tag)
            }
        }),
{
    let s = install_spec(p, opts, installed_tag);
    lemma_install_meta_well_formed(p, opts, installed_tag);
    crate::meta::lemma_meta_roundtrip(meta_of_spec(s));
}

/// A package the metadata of which is missing is upgraded as if it had
/// been installed with the defaults: the SDK tier and no bare link.
pub proof fn lemma_defaults_are_plain_install(p: Package, tag: Seq<char>)
    ensures
        default_meta_of(p) == meta_of_spec(
            install_spec(p, InstallOpts { tier: Tier::Sdk, link: false }, tag),
        ),
{
    reveal_strlit("code-");
    reveal_strlit("sdk");
    reveal_strlit("code-sdk");
    assert("code-"@ + "sdk"@ =~= "code-sdk"@);
}

/// `upgrade` keeps whatever settings the `.cdlvsm` file holds: unless the
/// package is already at the tag, it puts in place the tag's release with
/// exactly the recorded package, repository, asset base (the tier), pin
/// variable, label and link, and the metadata file written for it gives
/// those settings back.
pub proof fn lemma_upgrade_keeps_recorded_settings(
    body: Seq<char>,
    name: Seq<char>,
    current: Option<Seq<char>>,
    tag: Seq<char>,
    u: Upgrade,
)
    requires
        crate::meta::meta_read(body) is Some,
        upgrade_is(u, name, current, crate::meta::meta_read(body)->0, tag),
        current != Some(tag),
    ensures
        u matches Upgrade::Release(s) && s@.tag == tag && s@.old == current && meta_of_spec(s@)
            == crate::meta::meta_read(body)->0 && crate::meta::meta_read(
            meta_text_of(meta_of_spec(s@)),
        ) == crate::meta::meta_read(body),
{
    crate::meta::lemma_read_meta_well_formed(body);
}

/// The components of the packages' directory under `prefix`, then `rest`.
pub open spec fn under_packages(prefix: Seq<char>, rest: Seq<Seq<char>>) -> Seq<Seq<char>> {
    components(prefix) + seq!["share"@, "cdlvsm"@, "packages"@] + rest
}

proof fn lemma_literal_names()
    ensures
        plain_name("bin"@),
        plain_name("share"@),
        plain_name("cdlvsm"@),
        plain_name("packages"@),
        plain_name("current"@),
        plain_name(".cdlvsm"@),
        "bin"@ != "share"@,
{
    reveal_strlit("bin");
    reveal_strlit("share");
    reveal_strlit("cdlvsm");
    reveal_strlit("packages");
    reveal_strlit("current");
    reveal_strlit(".cdlvsm");
    assert(!"bin"@.contains('/'));
    assert(!"share"@.contains('/'));
    assert(!"cdlvsm"@.contains('/'));
    assert(!"packages"@.contains('/'));
    assert(!"current"@.contains('/'));
    assert(!".cdlvsm"@.contains('/')) by {
        if ".cdlvsm"@.contains('/') {
            let j = choose|j: int| 0 <= j < ".cdlvsm"@.len() && ".cdlvsm"@[j] == '/';
        }
    }
    assert(".cdlvsm"@ != seq!['.']) by {
        assert(".cdlvsm"@.len() != 1);
    }
    assert(".cdlvsm"@ != seq!['.', '.']) by {
        assert(".cdlvsm"@.len() != 2);
    }
    assert("bin"@[0] != "share"@[0]);
}

proof fn lemma_shim_name_plain(pkg: Seq<char>)
    requires
        plain_name(pkg),
    ensures
        plain_name("cdlvsm-"@ + pkg),
        "cdlvsm-"@ + pkg != pkg,
{
    reveal_strlit("cdlvsm-");
    let n = "cdlvsm-"@ + pkg;
    if n.contains('/') {
        let j = choose|j: int| 0 <= j < n.len() && n[j] == '/';
        if j >= 7 {
            assert(pkg[j - 7] == '/');
            assert(pkg.contains('/'));
        }
    }
    assert(n.len() > 2);
    assert(n.len() != pkg.len());
}

/// Without `--link`, putting a release of a package and a tag that are
/// plain names in place writes nothing that is the bare `<pkg>` in the bin
/// directory, component by component: the version's directory, its binary,
/// the `current` link and the metadata file all lie under `share/cdlvsm/
/// packages/<pkg>`, the one shim is `bin/cdlvsm-<pkg>`, and none of their
/// components after the prefix's is `..`. A same-named command cdlvsm did
/// not make (VS Code's own `code`) is left as it is.
pub proof fn lemma_no_bare_name_without_link(prefix: Seq<char>, s: SpecView)
    requires
        !s.link,
        plain_name(s.pkg),
        plain_name(s.tag),
    ensures
        ({
            let bare = join(bin_path(prefix), s.pkg);
            &&& components(bare) == components(prefix) + seq!["bin"@, s.pkg]
            &&& components(version_dir(prefix, s)) == under_packages(prefix, seq![s.pkg, s.tag])
            &&& components(join(version_dir(prefix, s), s.pkg)) == under_packages(
                prefix,
                seq![s.pkg, s.tag, s.pkg],
            )
            &&& components(current_link_path(prefix, s.pkg)) == under_packages(
                prefix,
                seq![s.pkg, "current"@],
            )
            &&& components(metadata_file_path(prefix, s.pkg)) == under_packages(
                prefix,
                seq![s.pkg, ".cdlvsm"@],
            )
            &&& shim_paths(prefix, s) == seq![shim_path(prefix, s.pkg)]
            &&& components(shim_path(prefix, s.pkg)) == components(prefix) + seq![
                "bin"@,
                "cdlvsm-"@ + s.pkg,
            ]
            &&& components(version_dir(prefix, s)) != components(bare)
            &&& components(join(version_dir(prefix, s), s.pkg)) != components(bare)
            &&& components(current_link_path(prefix, s.pkg)) != components(bare)
            &&& components(metadata_file_path(prefix, s.pkg)) != components(bare)
            &&& components(shim_path(prefix, s.pkg)) != components(bare)
        }),
{
    lemma_bin_components(prefix, s.pkg);
    lemma_package_components(prefix, s.pkg, s.tag);
    let c = components(prefix);
    let n = c.len() as int;
    let bare = join(bin_path(prefix), s.pkg);
    let shim = shim_path(prefix, s.pkg);
    // After the prefix's components: `share` against `bin`.
    assert forall|rest: Seq<Seq<char>>| #[trigger] under_packages(prefix, rest) != components(bare) by {
        lemma_literal_names();
        assert(under_packages(prefix, rest)[n] == "share"@);
        assert(components(bare)[n] == "bin"@);
    }
    assert(components(shim)[n + 1] != components(bare)[n + 1]) by {
        lemma_shim_name_plain(s.pkg);
    }
    assert(shim_paths(prefix, s) =~= seq![shim]);
}

proof fn lemma_bin_components(prefix: Seq<char>, pkg: Seq<char>)
    requires
        plain_name(pkg),
    ensures
        components(join(bin_path(prefix), pkg)) == components(prefix) + seq!["bin"@, pkg],
        components(shim_path(prefix, pkg)) == components(prefix) + seq!["bin"@, "cdlvsm-"@ + pkg],
{
    lemma_literal_names();
    lemma_shim_name_plain(pkg);
    let c = components(prefix);
    let bin = bin_path(prefix);
    lemma_join_plain(prefix, "bin"@);
    lemma_join_plain(bin, pkg);
    assert(components(join(bin, pkg)) =~= c + seq!["bin"@, pkg]);
    lemma_join_plain(bin, "cdlvsm-"@ + pkg);
    assert(components(shim_path(prefix, pkg)) =~= c + seq!["bin"@, "cdlvsm-"@ + pkg]);
}

proof fn lemma_dir_components(prefix: Seq<char>, pkg: Seq<char>)
    requires
        plain_name(pkg),
    ensures
        components(package_dir_path(prefix, pkg)) == under_packages(prefix, seq![pkg]),
{
    lemma_literal_names();
    let share = join(prefix, "share"@);
    lemma_join_plain(prefix, "share"@);
    let ours = join(share, "cdlvsm"@);
    lemma_join_plain(share, "cdlvsm"@);
    let root = packages_root_path(prefix);
    lemma_join_plain(ours, "packages"@);
    lemma_join_plain(root, pkg);
    assert(components(package_dir_path(prefix, pkg)) =~= under_packages(prefix, seq![pkg]));
}

proof fn lemma_below(dir: Seq<char>, base: Seq<Seq<char>>, name: Seq<char>)
    requires
        components(dir) == base,
        plain_name(name),
    ensures
        components(join(dir, name)) == base.push(name),
{
    lemma_join_plain(dir, name);
}

proof fn lemma_package_components(prefix: Seq<char>, pkg: Seq<char>, tag: Seq<char>)
    requires
        plain_name(pkg),
        plain_name(tag),
    ensures
        components(join(package_dir_path(prefix, pkg), tag)) == under_packages(prefix, seq![pkg, tag]),
        components(join(join(package_dir_path(prefix, pkg), tag), pkg)) == under_packages(
            prefix,
            seq![pkg, tag, pkg],
        ),
        components(current_link_path(prefix, pkg)) == under_packages(prefix, seq![pkg, "current"@]),
        components(metadata_file_path(prefix, pkg)) == under_packages(prefix, seq![pkg, ".cdlvsm"@]),
{
    lemma_literal_names();
    lemma_dir_components(prefix, pkg);
    let dir = package_dir_path(prefix, pkg);
    let base = under_packages(prefix, seq![pkg]);
    let dest = join(dir, tag);
    lemma_below(dir, base, tag);
    assert(base.push(tag) =~= under_packages(prefix, seq![pkg, tag]));
    lemma_below(dest, base.push(tag), pkg);
    assert(base.push(tag).push(pkg) =~= under_packages(prefix, seq![pkg, tag, pkg]));
    lemma_below(dir, base, "current"@);
    assert(base.push("current"@) =~= under_packages(prefix, seq![pkg, "current"@]));
    lemma_below(dir, base, ".cdlvsm"@);
    assert(base.push(".cdlvsm"@) =~= under_packages(prefix, seq![pkg, ".cdlvsm"@]));
}

/// Whatever build is downloaded, the metadata file that upgrading a package
/// writes gives back exactly the settings its `.cdlvsm` file held: a
/// `--runtime --link` install stays one, also across a release that ships a
/// single build.
pub proof fn lemma_upgrade_records_settings(
    body: Seq<char>,
    name: Seq<char>,
    current: Option<Seq<char>>,
    tag: Seq<char>,
    u: Upgrade,
    prefix: Seq<char>,
    build: Seq<char>,
    plan: InstallPlan,
)
    requires
        crate::meta::meta_read(body) is Some,
        upgrade_is(u, name, current, crate::meta::meta_read(body)->0, tag),
        u matches Upgrade::Release(s) && plan_is(plan, prefix, s@, build),
    ensures
        crate::meta::meta_read(plan.meta@) == crate::meta::meta_read(body),
{
    crate::meta::lemma_read_meta_well_formed(body);
}

/// What `upgrade` uses as settings: those recorded, as they are; with none
/// recorded, for a package this cdlvsm knows, that package's own defaults —
/// what installing it with no flags records, for the package being upgraded
/// and no other — with a warning; for any other name, none.
pub proof fn lemma_missing_meta_uses_own_defaults(
    name: Seq<char>,
    recorded: Option<MetaView>,
    tag: Seq<char>,
)
    ensures
        recorded is Some ==> upgrade_settings_of(name, recorded) == Some((recorded->0, false)),
        recorded is None && package_named(name) is Some ==> ({
            let p = package_named(name)->0;
            &&& upgrade_settings_of(name, recorded) matches Some((m, warned))
            &&& warned
            &&& m.pkg == name
            &&& m == meta_of_spec(install_spec(p, InstallOpts { tier: Tier::Sdk, link: false }, tag))
        }),
        recorded is None && package_named(name) is None ==> upgrade_settings_of(name, recorded)
            is None,
{
    if recorded is None && package_named(name) is Some {
        lemma_defaults_are_plain_install(package_named(name)->0, tag);
    }
}

/// Two relative names joined to one base give one path only when they are
/// one name.
proof fn lemma_join_distinct(base: Seq<char>, a: Seq<char>, b: Seq<char>)
    requires
        !is_absolute(a),
        !is_absolute(b),
        a.len() != b.len(),
    ensures
        join(base, a) != join(base, b),
{
    assert(join(base, a).len() - a.len() == join(base, b).len() - b.len());
}

/// Installing any package carries what the user asked for: the bare link
/// exactly when `--link` was given (so the bare `<pkg>` is among the shims
/// exactly then), the tag asked for, and the package itself; for `code` the
/// tier asked for picks the build and the label, and the two tiers fetch
/// different builds.
pub proof fn lemma_install_carries_options(
    p: Package,
    opts: InstallOpts,
    tag: Seq<char>,
    prefix: Seq<char>,
)
    ensures
        ({
            let s = install_spec(p, opts, tag);
            &&& s.link == opts.link
            &&& s.tag == tag
            &&& package_named(s.pkg) == Some(p)
            &&& s.verb == Verb::Installed
            &&& s.old is None
            &&& shim_paths(prefix, s).contains(join(bin_path(prefix), s.pkg)) == opts.link
            &&& shim_paths(prefix, s)[0] == shim_path(prefix, s.pkg)
        }),
        p == Package::Code ==> install_spec(p, opts, tag).asset_base == if opts.tier == Tier::Sdk {
            "code-sdk"@
        } else {
            "code-runtime"@
        },
        p == Package::Code ==> install_spec(p, opts, tag).label == Some(
            if opts.tier == Tier::Sdk {
                "sdk"@
            } else {
                "runtime"@
            },
        ),
        p == Package::Euglena ==> install_spec(p, opts, tag).asset_base == "euglena"@
            && install_spec(p, opts, tag).label is None,
{
    reveal_strlit("code");
    reveal_strlit("euglena");
    reveal_strlit("code-");
    reveal_strlit("sdk");
    reveal_strlit("runtime");
    reveal_strlit("code-sdk");
    reveal_strlit("code-runtime");
    reveal_strlit("cdlvsm-");
    let s = install_spec(p, opts, tag);
    assert("code-"@ + "sdk"@ =~= "code-sdk"@);
    assert("code-"@ + "runtime"@ =~= "code-runtime"@);
    assert("code"@ != "euglena"@) by {
        assert("code"@.len() != "euglena"@.len());
    }
    let bin = bin_path(prefix);
    let shim = shim_path(prefix, s.pkg);
    let bare = join(bin, s.pkg);
    assert(s.pkg[0] != '/');
    assert(("cdlvsm-"@ + s.pkg)[0] != '/');
    lemma_join_distinct(bin, "cdlvsm-"@ + s.pkg, s.pkg);
    if opts.link {
        assert(shim_paths(prefix, s)[1] == bare);
    } else {
        assert(shim_paths(prefix, s) =~= seq![shim]);
        if shim_paths(prefix, s).contains(bare) {
            assert(shim_paths(prefix, s)[0] == bare);
        }
    }
}

/// Whatever tier was asked for, a `code` release whose listing has the
/// single build and not the tier's own is downloaded as the single build,
/// with the note; one whose listing has the tier's build is downloaded as
/// that build; without a listing, the tier's build. `euglena` is always
/// downloaded as itself.
pub proof fn lemma_single_build_whatever_tier(
    tier: Tier,
    link: bool,
    tag: Seq<char>,
    listing: Seq<Seq<char>>,
)
    ensures
        ({
            let s = install_spec(Package::Code, InstallOpts { tier, link }, tag);
            let own = if tier == Tier::Sdk {
                "code-sdk"@
            } else {
                "code-runtime"@
            };
            let tiered = own + "-"@ + tag + "-x86_64-linux.tar.gz"@;
            let single = "code-"@ + tag + "-x86_64-linux.tar.gz"@;
            &&& (listing.contains(single) && !listing.contains(tiered)) ==> (is_single_build(
                s,
                Some(listing),
            ) && build_of(s, Some(listing)) == "code"@)
            &&& listing.contains(tiered) ==> (!is_single_build(s, Some(listing)) && build_of(
                s,
                Some(listing),
            ) == own)
            &&& !is_single_build(s, None) && build_of(s, None) == own
        }),
        ({
            let e = install_spec(Package::Euglena, InstallOpts { tier, link }, tag);
            &&& !is_single_build(e, Some(listing))
            &&& build_of(e, Some(listing)) == "euglena"@
        }),
{
    reveal_strlit("code");
    reveal_strlit("euglena");
    reveal_strlit("code-");
    reveal_strlit("-");
    reveal_strlit("sdk");
    reveal_strlit("runtime");
    reveal_strlit("code-sdk");
    reveal_strlit("code-runtime");
    assert("code-"@ + "sdk"@ =~= "code-sdk"@);
    assert("code-"@ + "runtime"@ =~= "code-runtime"@);
    assert("code"@ != "euglena"@) by {
        assert("code"@.len() != "euglena"@.len());
    }
    let s = install_spec(Package::Code, InstallOpts { tier, link }, tag);
    let single = "code-"@ + tag + "-x86_64-linux.tar.gz"@;
    assert(single_asset_name(tag) =~= single);
}

} // verus!
