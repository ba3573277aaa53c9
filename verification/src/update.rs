//! Self-update: what replacing the running `cdlvsm` binary with the latest
//! (or pinned) release from GitHub decides.
//!
//! Unlike a package, cdlvsm itself isn't installed under
//! `packages/<pkg>/<version>/current` — `install.sh` copies the binary
//! straight to `$PREFIX/bin/cdlvsm`. So `update` downloads the new binary and
//! the program renames it over the running executable's own path: on Linux
//! that's safe even while it's executing.

use vstd::prelude::*;
use vstd::string::*;
use crate::error::CdlvsmError;
use crate::paths::join;
use crate::text::{chars_of, is_text, push_str, views};

verus! {

pub open spec fn self_repo_text() -> Seq<char> {
    "codelovesme/cdlvsm-cli"@
}

/// Where cdlvsm's own releases are published.
pub fn self_repo() -> (r: &'static str)
    ensures
        r@ == self_repo_text(),
{
    "codelovesme/cdlvsm-cli"
}

/// The variable that pins the cdlvsm version `update` fetches.
pub fn self_version_var() -> (r: &'static str)
    ensures
        r@ == "CDLVSM_CLI_VERSION"@,
{
    "CDLVSM_CLI_VERSION"
}

pub open spec fn self_asset_text(tag: Seq<char>) -> Seq<char> {
    "cdlvsm-"@ + tag + "-x86_64-linux.tar.gz"@
}

pub open spec fn self_url_text(tag: Seq<char>) -> Seq<char> {
    "https://github.com/"@ + self_repo_text() + "/releases/download/"@ + tag + "/"@
        + self_asset_text(tag)
}

/// The names joined by `, `.
pub open spec fn joined(names: Seq<Seq<char>>) -> Seq<char>
    decreases names.len(),
{
    if names.len() == 0 {
        Seq::empty()
    } else if names.len() == 1 {
        names[0]
    } else {
        joined(names.drop_last()) + ", "@ + names.last()
    }
}

pub open spec fn missing_asset_text(tag: Seq<char>, assets: Seq<Seq<char>>) -> Seq<char> {
    "release "@ + tag + " of "@ + self_repo_text() + " has no asset named '"@ + self_asset_text(tag)
        + "'.\nAvailable assets: "@ + joined(assets)
}

/// The note when the running version `current` is already the tag.
pub fn up_to_date(current: &str, tag: &str) -> (r: Option<String>)
    ensures
        match r {
            Some(line) => current@ == tag@ && line@ == "cdlvsm is already up to date ("@ + tag@
                + ")"@,
            None => current@ != tag@,
        },
{
    let c = chars_of(current);
    if is_text(c.as_slice(), tag) {
        let mut line = String::from_str("cdlvsm is already up to date (");
        push_str(&mut line, tag);
        push_str(&mut line, ")");
        Some(line)
    } else {
        None
    }
}

/// The tarball of cdlvsm's release `tag`.
pub fn self_asset(tag: &str) -> (r: String)
    ensures
        r@ == self_asset_text(tag@),
{
    let mut s = String::from_str("cdlvsm-");
    push_str(&mut s, tag);
    push_str(&mut s, "-x86_64-linux.tar.gz");
    s
}

/// Where cdlvsm's release `tag` is downloaded from.
pub fn self_url(tag: &str) -> (r: String)
    ensures
        r@ == self_url_text(tag@),
{
    let mut s = String::from_str("https://github.com/");
    push_str(&mut s, self_repo());
    push_str(&mut s, "/releases/download/");
    push_str(&mut s, tag);
    push_str(&mut s, "/");
    let asset = self_asset(tag);
    push_str(&mut s, asset.as_str());
    assert(s@ =~= self_url_text(tag@));
    s
}

/// The names joined by `, `.
pub fn join_names(names: &Vec<String>) -> (r: String)
    ensures
        r@ == joined(views(names@)),
{
    let mut s = String::new();
    let mut i: usize = 0;
    proof {
        reveal_strlit("");
        assert(views(names@).take(0) =~= Seq::<Seq<char>>::empty());
    }
    while i < names.len()
        invariant
            i <= names@.len(),
            s@ == joined(views(names@).take(i as int)),
        decreases names.len() - i,
    {
        let ghost t = views(names@).take(i as int + 1);
        proof {
            assert(t.drop_last() =~= views(names@).take(i as int));
            assert(t.last() == names@[i as int]@);
        }
        if i > 0 {
            push_str(&mut s, ", ");
        } else {
            assert(t.len() == 1);
            assert(s@ + names@[0]@ =~= names@[0]@);
        }
        push_str(&mut s, names[i].as_str());
        i += 1;
    }
    assert(views(names@).take(names@.len() as int) =~= views(names@));
    s
}

/// Whether the release has the asset `update` needs: `assets` lists the
/// release's asset names when the listing could be fetched; without one
/// the download itself surfaces any error.
pub fn check_self_asset(tag: &str, assets: &Option<Vec<String>>) -> (r: Result<(), CdlvsmError>)
    ensures
        match assets {
            None => r is Ok,
            Some(names) => if views(names@).contains(self_asset_text(tag@)) {
                r is Ok
            } else {
                r matches Err(e) && e.0@ == missing_asset_text(tag@, views(names@))
            },
        },
{
    match assets {
        None => Ok(()),
        Some(names) => {
            let asset = self_asset(tag);
            let a = chars_of(asset.as_str());
            let mut i: usize = 0;
            while i < names.len()
                invariant
                    i <= names@.len(),
                    *assets == Some(*names),
                    a@ == self_asset_text(tag@),
                    forall|j: int| 0 <= j < i ==> names@[j]@ != a@,
                decreases names.len() - i,
            {
                if is_text(a.as_slice(), names[i].as_str()) {
                    assert(views(names@)[i as int] == a@);
                    assert(views(names@).contains(a@));
                    return Ok(());
                }
                i += 1;
            }
            proof {
                if views(names@).contains(a@) {
                    let j = choose|j: int| 0 <= j < views(names@).len() && views(names@)[j] == a@;
                    assert(names@[j]@ == a@);
                }
            }
            let mut msg = String::from_str("release ");
            push_str(&mut msg, tag);
            push_str(&mut msg, " of ");
            push_str(&mut msg, self_repo());
            push_str(&mut msg, " has no asset named '");
            push_str(&mut msg, asset.as_str());
            push_str(&mut msg, "'.\nAvailable assets: ");
            let list = join_names(names);
            push_str(&mut msg, list.as_str());
            assert(msg@ =~= missing_asset_text(tag@, views(names@)));
            Err(CdlvsmError(msg))
        },
    }
}

/// The prefix of the directory cdlvsm's release `tag` unpacks into.
pub fn self_stage_prefix(tag: &str) -> (r: String)
    ensures
        r@ == "cdlvsm-"@ + tag@,
{
    let mut s = String::from_str("cdlvsm-");
    push_str(&mut s, tag);
    s
}

/// Where the new binary is staged before it is renamed over the old one:
/// next to it, in `dir`.
pub fn staged_path(dir: &str) -> (r: String)
    ensures
        r@ == join(dir@, ".cdlvsm-update.tmp"@),
{
    crate::paths::join_path(dir, ".cdlvsm-update.tmp")
}

/// What `update` says when done.
pub fn updated_message(current: &str, tag: &str) -> (r: String)
    ensures
        r@ == "Updated cdlvsm "@ + current@ + " -> "@ + tag@,
{
    let mut s = String::from_str("Updated cdlvsm ");
    push_str(&mut s, current);
    push_str(&mut s, " -> ");
    push_str(&mut s, tag);
    s
}

} // verus!
