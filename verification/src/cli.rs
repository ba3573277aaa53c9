//! The command line: what `cdlvsm <args>` asks for.
//!
//! Dispatch is a manual argv match (not a subcommand parser) because the
//! first arg is either one of a fixed set of built-ins OR an arbitrary
//! installed package name with its own arbitrary trailing args.
//!
//! RESERVED NAMES: `install`, `uninstall`, `upgrade`, `update`, `list`,
//! `help`, `-h`, `--help`, `-v`, `--version` are built-ins and can never be
//! package names. A package named one of these would be permanently
//! unreachable via dispatch.

use vstd::prelude::*;
use vstd::string::*;
use crate::package::{package_named, InstallOpts, Package, Tier};
use crate::text::{chars_of, is_text, push_str, views};

verus! {

/// What the program is asked to do.
pub enum Command {
    /// Print the usage text and exit with `exit`.
    Usage { exit: i32 },
    /// Print the version and exit 0.
    Version,
    Install { pkg: Package, opts: InstallOpts },
    Uninstall { name: String },
    /// Upgrade one package, or every installed one.
    Upgrade { name: Option<String> },
    /// Replace cdlvsm itself with its latest (or pinned) release.
    Update,
    List,
    /// Run the installed package's binary with these arguments.
    Dispatch { name: String, args: Vec<String> },
    /// Print `error: <message>` (then the usage text when `usage`) and exit 1.
    Fail { message: String, usage: bool },
}

/// The settings `install`'s flags give, in order; the first flag that is not
/// one of `--runtime`, `--sdk`, `--link` instead.
pub open spec fn install_flags(flags: Seq<Seq<char>>, opts: InstallOpts) -> Result<
    InstallOpts,
    Seq<char>,
>
    decreases flags.len(),
{
    if flags.len() == 0 {
        Ok(opts)
    } else {
        let f = flags[0];
        if f == "--runtime"@ {
            install_flags(flags.drop_first(), InstallOpts { tier: Tier::Runtime, ..opts })
        } else if f == "--sdk"@ {
            install_flags(flags.drop_first(), InstallOpts { tier: Tier::Sdk, ..opts })
        } else if f == "--link"@ {
            install_flags(flags.drop_first(), InstallOpts { link: true, ..opts })
        } else {
            Err(f)
        }
    }
}

/// The argument looks like a flag.
pub open spec fn is_flag(a: Seq<char>) -> bool {
    a.len() > 0 && a[0] == '-'
}

/// The first flag-looking argument.
pub open spec fn first_flag(args: Seq<Seq<char>>) -> Option<Seq<char>>
    decreases args.len(),
{
    if args.len() == 0 {
        None
    } else if is_flag(args[0]) {
        Some(args[0])
    } else {
        first_flag(args.drop_first())
    }
}

pub open spec fn is_fail(c: Command, message: Seq<char>, usage: bool) -> bool {
    c matches Command::Fail { message: m, usage: u } && m@ == message && u == usage
}

/// What `cdlvsm install <rest>` asks for.
pub open spec fn install_command_is(c: Command, rest: Seq<Seq<char>>) -> bool {
    if rest.len() == 0 {
        is_fail(c, "missing package name"@, true)
    } else {
        let name = rest[0];
        match package_named(name) {
            None => is_fail(c, "unknown package '"@ + name + "'"@, true),
            Some(p) => match install_flags(rest.drop_first(), InstallOpts { tier: Tier::Sdk, link: false }) {
                Ok(opts) => c matches Command::Install { pkg, opts: o } && pkg == p && o == opts,
                Err(f) => is_fail(
                    c,
                    "unknown flag '"@ + f + "' for 'cdlvsm install "@ + name + "'"@,
                    false,
                ),
            },
        }
    }
}

/// What `cdlvsm upgrade <rest>` asks for: no flags, at most one name.
pub open spec fn upgrade_command_is(c: Command, rest: Seq<Seq<char>>) -> bool {
    match first_flag(rest) {
        Some(f) => is_fail(c, "unknown flag '"@ + f + "' for 'cdlvsm upgrade'"@, true),
        None => if rest.len() > 1 {
            is_fail(c, "'cdlvsm upgrade' takes at most one package name"@, true)
        } else if rest.len() == 1 {
            c matches Command::Upgrade { name: Some(n) } && n@ == rest[0]
        } else {
            c matches Command::Upgrade { name: None }
        },
    }
}

/// What `cdlvsm <args[1..]>` asks for (`args[0]` is the program).
pub open spec fn command_is(c: Command, args: Seq<Seq<char>>) -> bool {
    if args.len() < 2 {
        c matches Command::Usage { exit } && exit == 1
    } else {
        let cmd = args[1];
        let rest = args.skip(2);
        if cmd == "-h"@ || cmd == "--help"@ || cmd == "help"@ {
            c matches Command::Usage { exit } && exit == 0
        } else if cmd == "-v"@ || cmd == "--version"@ {
            c is Version
        } else if cmd == "install"@ {
            install_command_is(c, rest)
        } else if cmd == "uninstall"@ {
            if rest.len() == 0 {
                is_fail(c, "missing package name"@, true)
            } else {
                c matches Command::Uninstall { name } && name@ == rest[0]
            }
        } else if cmd == "upgrade"@ {
            upgrade_command_is(c, rest)
        } else if cmd == "update"@ {
            c is Update
        } else if cmd == "list"@ {
            c is List
        } else if is_flag(cmd) {
            // A flag-looking first arg is never a package name.
            is_fail(c, "unknown command '"@ + cmd + "'"@, true)
        } else {
            c matches Command::Dispatch { name, args: a } && name@ == cmd && views(a@) == rest
        }
    }
}

pub open spec fn dispatch_error_text(name: Seq<char>) -> Seq<char> {
    if package_named(name) is Some {
        "'"@ + name + "' is not installed — run `cdlvsm install "@ + name + "` first."@
    } else {
        "'"@ + name
            + "' is not an installed package and not a cdlvsm command.\nRun `cdlvsm help` to see built-in commands."@
    }
}

pub open spec fn usage_body() -> Seq<char> {
    "\n\nUsage:\n  cdlvsm install <package> [--runtime] [--link]\n  cdlvsm uninstall <package>\n  cdlvsm upgrade [package]\n  cdlvsm update\n  cdlvsm list\n  cdlvsm <package> <args...>       run an installed package's binary\n\nPackages:\n  code      the Code language toolchain (SDK tier by default;\n            --runtime for the smaller LLVM-free interpreter-only build)\n  euglena   the Euglena app CLI (scaffold/run/build Euglena apps)\n\nFlags:\n  --runtime   install code's Runtime tier instead of the default SDK tier\n  --link      also create a bare `<package>` command in $PREFIX/bin (opt-in;\n              for `code` this avoids colliding with VS Code's own `code` CLI)\n\n  `upgrade` takes no flags — it reuses the recorded install settings.\n  To change tier/--link, re-run `cdlvsm install <package>` with flags.\n\nEnv:\n  PREFIX                   install root (default: $HOME/.local)\n  CDLVSM_CODE_VERSION      pin code's version instead of latest (e.g. v0.3.0)\n  CDLVSM_EUGLENA_VERSION   pin euglena's version instead of latest\n"@
}

/// A name the command line keeps for itself.
pub open spec fn is_reserved(name: Seq<char>) -> bool {
    ||| name == "install"@
    ||| name == "uninstall"@
    ||| name == "upgrade"@
    ||| name == "update"@
    ||| name == "list"@
    ||| name == "help"@
    ||| name == "-h"@
    ||| name == "--help"@
    ||| name == "-v"@
    ||| name == "--version"@
}

/// A reserved name, or anything that looks like a flag, is never taken for
/// a package to dispatch to: `cdlvsm -x` is an unknown command, not the
/// package `-x`.
pub proof fn lemma_reserved_never_dispatched(c: Command, args: Seq<Seq<char>>)
    requires
        command_is(c, args),
        args.len() >= 2,
        is_reserved(args[1]) || is_flag(args[1]),
    ensures
        !(c is Dispatch),
{
}

/// Any other first argument is a package to dispatch to, with every later
/// argument handed on as it is.
pub proof fn lemma_other_names_dispatched(c: Command, args: Seq<Seq<char>>)
    requires
        command_is(c, args),
        args.len() >= 2,
        !is_reserved(args[1]),
        !is_flag(args[1]),
    ensures
        c matches Command::Dispatch { name, args: a } && name@ == args[1] && views(a@) == args.skip(
            2,
        ),
{
}

/// A flag that picks the tier.
pub open spec fn is_tier_flag(f: Seq<char>) -> bool {
    f == "--runtime"@ || f == "--sdk"@
}

/// One of the flags `install` takes.
pub open spec fn is_install_flag(f: Seq<char>) -> bool {
    is_tier_flag(f) || f == "--link"@
}

proof fn lemma_flag_texts()
    ensures
        "--runtime"@ != "--sdk"@,
        "--runtime"@ != "--link"@,
        "--sdk"@ != "--link"@,
{
    reveal_strlit("--runtime");
    reveal_strlit("--sdk");
    reveal_strlit("--link");
    assert("--runtime"@.len() != "--sdk"@.len());
    assert("--runtime"@.len() != "--link"@.len());
    assert("--sdk"@.len() != "--link"@.len());
}

/// Every one of the flags is one `install` takes.
pub open spec fn all_install_flags(flags: Seq<Seq<char>>) -> bool {
    forall|i: int| 0 <= i < flags.len() ==> is_install_flag(#[trigger] flags[i])
}

/// No flag after index `i` picks the tier.
pub open spec fn no_tier_flag_after(flags: Seq<Seq<char>>, i: int) -> bool {
    forall|j: int| i < j < flags.len() ==> !is_tier_flag(#[trigger] flags[j])
}

/// The tier a tier flag picks.
pub open spec fn flag_tier(f: Seq<char>) -> Tier {
    if f == "--runtime"@ {
        Tier::Runtime
    } else {
        Tier::Sdk
    }
}

/// The settings after the first flag, when it is one `install` takes.
spec fn after_flag(f: Seq<char>, opts: InstallOpts) -> InstallOpts {
    if f == "--runtime"@ {
        InstallOpts { tier: Tier::Runtime, ..opts }
    } else if f == "--sdk"@ {
        InstallOpts { tier: Tier::Sdk, ..opts }
    } else {
        InstallOpts { link: true, ..opts }
    }
}

proof fn lemma_flags_step(flags: Seq<Seq<char>>, opts: InstallOpts)
    requires
        flags.len() > 0,
        all_install_flags(flags),
    ensures
        install_flags(flags, opts) == install_flags(flags.drop_first(), after_flag(flags[0], opts)),
        all_install_flags(flags.drop_first()),
{
    lemma_flag_texts();
    assert(is_install_flag(flags[0]));
    let rest = flags.drop_first();
    assert forall|i: int| 0 <= i < rest.len() implies is_install_flag(#[trigger] rest[i]) by {
        assert(rest[i] == flags[i + 1]);
    }
}

proof fn lemma_flags_link(flags: Seq<Seq<char>>, opts: InstallOpts)
    requires
        all_install_flags(flags),
    ensures
        install_flags(flags, opts) is Ok,
        install_flags(flags, opts)->Ok_0.link == (opts.link || flags.contains("--link"@)),
    decreases flags.len(),
{
    lemma_flag_texts();
    if flags.len() > 0 {
        lemma_flags_step(flags, opts);
        let rest = flags.drop_first();
        lemma_flags_link(rest, after_flag(flags[0], opts));
        if flags.contains("--link"@) {
            let i = choose|i: int| 0 <= i < flags.len() && flags[i] == "--link"@;
            if i > 0 {
                assert(rest[i - 1] == "--link"@);
            }
        }
        if rest.contains("--link"@) {
            let i = choose|i: int| 0 <= i < rest.len() && rest[i] == "--link"@;
            assert(flags[i + 1] == "--link"@);
        }
    }
}

proof fn lemma_flags_no_tier(flags: Seq<Seq<char>>, opts: InstallOpts)
    requires
        all_install_flags(flags),
        no_tier_flag_after(flags, -1),
    ensures
        install_flags(flags, opts)->Ok_0.tier == opts.tier,
    decreases flags.len(),
{
    lemma_flag_texts();
    if flags.len() > 0 {
        lemma_flags_step(flags, opts);
        let rest = flags.drop_first();
        assert(!is_tier_flag(flags[0]));
        assert forall|j: int| -1 < j < rest.len() implies !is_tier_flag(#[trigger] rest[j]) by {
            assert(rest[j] == flags[j + 1]);
        }
        lemma_flags_no_tier(rest, after_flag(flags[0], opts));
    }
}

proof fn lemma_flags_last_tier(flags: Seq<Seq<char>>, opts: InstallOpts, i: int)
    requires
        all_install_flags(flags),
        0 <= i < flags.len(),
        is_tier_flag(flags[i]),
        no_tier_flag_after(flags, i),
    ensures
        install_flags(flags, opts)->Ok_0.tier == flag_tier(flags[i]),
    decreases flags.len(),
{
    lemma_flag_texts();
    lemma_flags_step(flags, opts);
    let rest = flags.drop_first();
    let next = after_flag(flags[0], opts);
    if i == 0 {
        assert forall|j: int| -1 < j < rest.len() implies !is_tier_flag(#[trigger] rest[j]) by {
            assert(rest[j] == flags[j + 1]);
        }
        lemma_flags_no_tier(rest, next);
    } else {
        assert(rest[i - 1] == flags[i]);
        assert forall|j: int| i - 1 < j < rest.len() implies !is_tier_flag(#[trigger] rest[j]) by {
            assert(rest[j] == flags[j + 1]);
        }
        lemma_flags_last_tier(rest, next, i - 1);
    }
}

proof fn lemma_flags_refused(flags: Seq<Seq<char>>, opts: InstallOpts, k: int)
    requires
        0 <= k < flags.len(),
        !is_install_flag(flags[k]),
        all_install_flags(flags.take(k)),
    ensures
        install_flags(flags, opts) == Err::<InstallOpts, Seq<char>>(flags[k]),
    decreases flags.len(),
{
    lemma_flag_texts();
    if k > 0 {
        assert(flags.take(k)[0] == flags[0]);
        assert(is_install_flag(flags[0]));
        let rest = flags.drop_first();
        assert(rest[k - 1] == flags[k]);
        assert forall|i: int| 0 <= i < rest.take(k - 1).len() implies is_install_flag(
            #[trigger] rest.take(k - 1)[i],
        ) by {
            assert(rest.take(k - 1)[i] == flags.take(k)[i + 1]);
        }
        lemma_flags_refused(rest, after_flag(flags[0], opts), k - 1);
    }
}

/// `install`'s flags, in any order, each set only their own setting: the
/// bare link is asked for when any flag is `--link`, and the tier is that
/// of the last `--runtime` or `--sdk` (the one given before, when there is
/// none). The first flag that is none of these is refused.
pub proof fn lemma_install_flags_any_order(flags: Seq<Seq<char>>, opts: InstallOpts)
    ensures
        all_install_flags(flags) ==> {
            &&& install_flags(flags, opts) is Ok
            &&& install_flags(flags, opts)->Ok_0.link == (opts.link || flags.contains("--link"@))
            &&& no_tier_flag_after(flags, -1) ==> install_flags(flags, opts)->Ok_0.tier == opts.tier
            &&& forall|i: int|
                0 <= i < flags.len() && is_tier_flag(#[trigger] flags[i]) && no_tier_flag_after(
                    flags,
                    i,
                ) ==> install_flags(flags, opts)->Ok_0.tier == flag_tier(flags[i])
        },
        forall|k: int|
            0 <= k < flags.len() && !is_install_flag(#[trigger] flags[k]) && all_install_flags(
                flags.take(k),
            ) ==> install_flags(flags, opts) == Err::<InstallOpts, Seq<char>>(flags[k]),
{
    if all_install_flags(flags) {
        lemma_flags_link(flags, opts);
        if no_tier_flag_after(flags, -1) {
            lemma_flags_no_tier(flags, opts);
        }
        assert forall|i: int|
            0 <= i < flags.len() && is_tier_flag(#[trigger] flags[i]) && no_tier_flag_after(
                flags,
                i,
            ) implies install_flags(flags, opts)->Ok_0.tier == flag_tier(flags[i]) by {
            lemma_flags_last_tier(flags, opts, i);
        }
    }
    assert forall|k: int|
        0 <= k < flags.len() && !is_install_flag(#[trigger] flags[k]) && all_install_flags(
            flags.take(k),
        ) implies install_flags(flags, opts) == Err::<InstallOpts, Seq<char>>(flags[k]) by {
        lemma_flags_refused(flags, opts, k);
    }
}

/// `cdlvsm install <name> <flags>` installs the package the name stands for
/// with the options the flags give in any order: the bare link exactly when
/// `--link` is among them, the tier of the last `--runtime`/`--sdk`, the SDK
/// when there is none.
pub proof fn lemma_install_command_options(c: Command, rest: Seq<Seq<char>>)
    requires
        install_command_is(c, rest),
        rest.len() >= 1,
        package_named(rest[0]) is Some,
        all_install_flags(rest.drop_first()),
    ensures
        c matches Command::Install { pkg, opts } && pkg == package_named(rest[0])->0 && opts.link
            == rest.drop_first().contains("--link"@) && (no_tier_flag_after(rest.drop_first(), -1)
            ==> opts.tier == Tier::Sdk) && (forall|i: int|
            0 <= i < rest.drop_first().len() && is_tier_flag(#[trigger] rest.drop_first()[i])
                && no_tier_flag_after(rest.drop_first(), i) ==> opts.tier == flag_tier(
                rest.drop_first()[i],
            )),
{
    lemma_install_flags_any_order(rest.drop_first(), InstallOpts { tier: Tier::Sdk, link: false });
}

// ---------------------------------------------------------------------------
// Executable
// ---------------------------------------------------------------------------

fn fail_with(message: String, usage: bool) -> (c: Command)
    ensures
        is_fail(c, message@, usage),
{
    Command::Fail { message, usage }
}

fn is_flag_exec(a: &String) -> (r: bool)
    ensures
        r == is_flag(a@),
{
    let v = chars_of(a.as_str());
    v.len() > 0 && v[0] == '-'
}

/// What `cdlvsm install <rest>` asks for.
pub fn parse_install(rest: &[String]) -> (c: Command)
    ensures
        install_command_is(c, views(rest@)),
{
    if rest.len() == 0 {
        return fail_with(String::from_str("missing package name"), true);
    }
    let name = &rest[0];
    assert(views(rest@)[0] == name@);
    let pkg = match Package::parse(name.as_str()) {
        Some(p) => p,
        None => {
            let mut msg = String::from_str("unknown package '");
            push_str(&mut msg, name.as_str());
            push_str(&mut msg, "'");
            return fail_with(msg, true);
        },
    };
    let ghost flags = views(rest@).drop_first();
    let mut opts = InstallOpts { tier: Tier::Sdk, link: false };
    let ghost start = opts;
    let mut i: usize = 1;
    while i < rest.len()
        invariant
            1 <= i <= rest@.len(),
            flags == views(rest@).drop_first(),
            start == (InstallOpts { tier: Tier::Sdk, link: false }),
            name@ == views(rest@)[0],
            package_named(name@) == Some(pkg),
            install_flags(flags, start) == install_flags(views(rest@).skip(i as int), opts),
        decreases rest.len() - i,
    {
        let arg = &rest[i];
        let a = chars_of(arg.as_str());
        let ghost tail = views(rest@).skip(i as int);
        proof {
            assert(tail[0] == arg@);
            assert(tail.drop_first() =~= views(rest@).skip(i + 1));
        }
        if is_text(a.as_slice(), "--runtime") {
            opts = InstallOpts { tier: Tier::Runtime, ..opts };
        } else if is_text(a.as_slice(), "--sdk") {
            opts = InstallOpts { tier: Tier::Sdk, ..opts };
        } else if is_text(a.as_slice(), "--link") {
            opts = InstallOpts { link: true, ..opts };
        } else {
            let mut msg = String::from_str("unknown flag '");
            push_str(&mut msg, arg.as_str());
            push_str(&mut msg, "' for 'cdlvsm install ");
            push_str(&mut msg, name.as_str());
            push_str(&mut msg, "'");
            proof {
                assert(install_flags(tail, opts) == Err::<InstallOpts, Seq<char>>(arg@));
                assert(msg@ =~= "unknown flag '"@ + arg@ + "' for 'cdlvsm install "@ + name@
                    + "'"@);
            }
            return fail_with(msg, false);
        }
        i += 1;
    }
    proof {
        assert(views(rest@).skip(1) =~= flags);
        assert(views(rest@).skip(i as int).len() == 0);
    }
    Command::Install { pkg, opts }
}

/// What `cdlvsm upgrade <rest>` asks for.
pub fn parse_upgrade(rest: &[String]) -> (c: Command)
    ensures
        upgrade_command_is(c, views(rest@)),
{
    let mut i: usize = 0;
    assert(views(rest@).skip(0) =~= views(rest@));
    while i < rest.len()
        invariant
            i <= rest@.len(),
            first_flag(views(rest@)) == first_flag(views(rest@).skip(i as int)),
        decreases rest.len() - i,
    {
        let ghost tail = views(rest@).skip(i as int);
        proof {
            assert(tail[0] == rest@[i as int]@);
            assert(tail.drop_first() =~= views(rest@).skip(i + 1));
        }
        if is_flag_exec(&rest[i]) {
            let mut msg = String::from_str("unknown flag '");
            push_str(&mut msg, rest[i].as_str());
            push_str(&mut msg, "' for 'cdlvsm upgrade'");
            return fail_with(msg, true);
        }
        i += 1;
    }
    assert(views(rest@).skip(i as int).len() == 0);
    if rest.len() > 1 {
        return fail_with(String::from_str("'cdlvsm upgrade' takes at most one package name"), true);
    }
    if rest.len() == 1 {
        assert(views(rest@)[0] == rest@[0]@);
        Command::Upgrade { name: Some(rest[0].clone()) }
    } else {
        Command::Upgrade { name: None }
    }
}

/// The arguments from `from` on.
fn tail_of(args: &Vec<String>, from: usize) -> (r: Vec<String>)
    requires
        from <= args@.len(),
    ensures
        views(r@) == views(args@).skip(from as int),
{
    let mut r: Vec<String> = Vec::new();
    let mut i = from;
    while i < args.len()
        invariant
            from <= i <= args@.len(),
            views(r@) == views(args@).subrange(from as int, i as int),
        decreases args.len() - i,
    {
        r.push(args[i].clone());
        assert(views(args@).subrange(from as int, i + 1) =~= views(args@).subrange(
            from as int,
            i as int,
        ).push(args@[i as int]@));
        assert(views(r@) =~= views(args@).subrange(from as int, i + 1));
        i += 1;
    }
    assert(views(args@).subrange(from as int, args@.len() as int) =~= views(args@).skip(
        from as int,
    ));
    r
}

/// What the command line `args` (the program first) asks for.
pub fn parse_command(args: &Vec<String>) -> (c: Command)
    ensures
        command_is(c, views(args@)),
{
    if args.len() < 2 {
        return Command::Usage { exit: 1 };
    }
    let cmd = &args[1];
    let cv = chars_of(cmd.as_str());
    let c = cv.as_slice();
    let rest = tail_of(args, 2);
    assert(views(args@)[1] == cmd@);
    if is_text(c, "-h") || is_text(c, "--help") || is_text(c, "help") {
        Command::Usage { exit: 0 }
    } else if is_text(c, "-v") || is_text(c, "--version") {
        Command::Version
    } else if is_text(c, "install") {
        parse_install(rest.as_slice())
    } else if is_text(c, "uninstall") {
        if rest.len() == 0 {
            fail_with(String::from_str("missing package name"), true)
        } else {
            assert(views(rest@)[0] == rest@[0]@);
            Command::Uninstall { name: rest[0].clone() }
        }
    } else if is_text(c, "upgrade") {
        parse_upgrade(rest.as_slice())
    } else if is_text(c, "update") {
        Command::Update
    } else if is_text(c, "list") {
        Command::List
    } else if cv.len() > 0 && cv[0] == '-' {
        let mut msg = String::from_str("unknown command '");
        push_str(&mut msg, cmd.as_str());
        push_str(&mut msg, "'");
        fail_with(msg, true)
    } else {
        Command::Dispatch { name: cmd.clone(), args: rest }
    }
}

/// Why `cdlvsm <name>` cannot run anything: a known package not installed
/// yet, or a name that is neither a package nor a command.
pub fn dispatch_error(name: &str) -> (r: String)
    ensures
        r@ == dispatch_error_text(name@),
{
    let mut msg = String::from_str("'");
    push_str(&mut msg, name);
    if Package::parse(name).is_some() {
        push_str(&mut msg, "' is not installed — run `cdlvsm install ");
        push_str(&mut msg, name);
        push_str(&mut msg, "` first.");
    } else {
        push_str(
            &mut msg,
            "' is not an installed package and not a cdlvsm command.\nRun `cdlvsm help` to see built-in commands.",
        );
    }
    assert(msg@ =~= dispatch_error_text(name@));
    msg
}

/// What tells a dispatched tool how it was launched (`CDLVSM_INVOKED_AS`),
/// so its own hints can point back at `cdlvsm <pkg> …`.
pub fn invoked_as(name: &str) -> (r: String)
    ensures
        r@ == "cdlvsm "@ + name@,
{
    let mut s = String::from_str("cdlvsm ");
    push_str(&mut s, name);
    s
}

/// The usage text, after the version line `version`.
pub fn usage(version: &str) -> (r: String)
    ensures
        r@ == version@ + usage_body(),
{
    let mut s = String::from_str(version);
    push_str(
        &mut s,
        "\n\nUsage:\n  cdlvsm install <package> [--runtime] [--link]\n  cdlvsm uninstall <package>\n  cdlvsm upgrade [package]\n  cdlvsm update\n  cdlvsm list\n  cdlvsm <package> <args...>       run an installed package's binary\n\nPackages:\n  code      the Code language toolchain (SDK tier by default;\n            --runtime for the smaller LLVM-free interpreter-only build)\n  euglena   the Euglena app CLI (scaffold/run/build Euglena apps)\n\nFlags:\n  --runtime   install code's Runtime tier instead of the default SDK tier\n  --link      also create a bare `<package>` command in $PREFIX/bin (opt-in;\n              for `code` this avoids colliding with VS Code's own `code` CLI)\n\n  `upgrade` takes no flags — it reuses the recorded install settings.\n  To change tier/--link, re-run `cdlvsm install <package>` with flags.\n\nEnv:\n  PREFIX                   install root (default: $HOME/.local)\n  CDLVSM_CODE_VERSION      pin code's version instead of latest (e.g. v0.3.0)\n  CDLVSM_EUGLENA_VERSION   pin euglena's version instead of latest\n",
    );
    s
}

} // verus!
