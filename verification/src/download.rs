//! What cdlvsm reads out of GitHub's release API.
//!
//! The program fetches with `curl` and hands the body here. Deliberately the
//! same line-by-line string scan the shell prototype used — not a JSON
//! dependency: good enough for GitHub's stable `"tag_name": "..."` and
//! `"browser_download_url": "..."` fields.

use vstd::prelude::*;
use vstd::string::*;
use crate::error::CdlvsmError;
use crate::text::{
    chars_of, copy_range, find, find_char_exec, find_exec, lines, next_line, push_str, split_char,
    string_of, trim, trim_exec, views,
};
use crate::paths::{char_views, split_exec};

verus! {

/// The text between the first pair of `"` after the first `:` after the
/// first `key` of `line`.
pub open spec fn quoted_after(line: Seq<char>, key: Seq<char>) -> Option<Seq<char>> {
    match find(line, key) {
        None => None,
        Some(idx) => {
            let rest = line.skip(idx);
            match find(rest, seq![':']) {
                None => None,
                Some(colon) => {
                    let after = rest.skip(colon + 1);
                    match find(after, seq!['"']) {
                        None => None,
                        Some(start) => {
                            let tail = after.skip(start + 1);
                            match find(tail, seq!['"']) {
                                None => None,
                                Some(end) => Some(tail.take(end)),
                            }
                        },
                    }
                },
            }
        },
    }
}

/// The tag a line of the latest-release body names, if any: the quoted
/// value of `"tag_name"`, trimmed, when not empty.
pub open spec fn line_tag(line: Seq<char>) -> Option<Seq<char>> {
    match quoted_after(line, "\"tag_name\""@) {
        Some(t) => if trim(t).len() > 0 {
            Some(trim(t))
        } else {
            None
        },
        None => None,
    }
}

/// The tag of the first line that names one.
pub open spec fn first_tag(ls: Seq<Seq<char>>) -> Option<Seq<char>>
    decreases ls.len(),
{
    if ls.len() == 0 {
        None
    } else {
        match line_tag(ls[0]) {
            Some(t) => Some(t),
            None => first_tag(ls.drop_first()),
        }
    }
}

pub open spec fn latest_tag_error_text(repo: Seq<char>) -> Seq<char> {
    "could not determine the latest release version for "@ + repo
}

/// The asset a line of a release body names, if any: the last `/` segment
/// of the quoted value of `"browser_download_url"`, when not empty.
pub open spec fn line_asset(line: Seq<char>) -> Option<Seq<char>> {
    match quoted_after(line, "\"browser_download_url\""@) {
        Some(u) => {
            let name = split_char(u, '/').last();
            if name.len() > 0 {
                Some(name)
            } else {
                None
            }
        },
        None => None,
    }
}

/// The assets the lines name, in order.
pub open spec fn assets_of(ls: Seq<Seq<char>>) -> Seq<Seq<char>>
    decreases ls.len(),
{
    if ls.len() == 0 {
        Seq::empty()
    } else {
        (match line_asset(ls[0]) {
            Some(a) => seq![a],
            None => Seq::empty(),
        }) + assets_of(ls.drop_first())
    }
}

fn find_from(s: &[char], pat: &[char]) -> (r: Option<usize>)
    ensures
        r matches Some(k) ==> find(s@, pat@) == Some(k as int) && k <= s@.len(),
        r is None ==> find(s@, pat@) is None,
{
    let r = find_exec(s, pat);
    proof {
        match r {
            Some(k) => {
                let i = choose|i: int| crate::text::first_at(s@, pat@, i);
                assert(crate::text::first_at(s@, pat@, i));
            },
            None => {},
        }
    }
    r
}

/// `quoted_after` of a line.
fn quoted_after_exec(line: &[char], key: &str) -> (r: Option<Vec<char>>)
    ensures
        match (r, quoted_after(line@, key@)) {
            (Some(v), Some(sv)) => v@ == sv,
            (None, None) => true,
            _ => false,
        },
{
    let k = chars_of(key);
    let idx = match find_from(line, k.as_slice()) {
        Some(i) => i,
        None => return None,
    };
    let rest = copy_range(line, idx, line.len());
    assert(rest@ =~= line@.skip(idx as int));
    let colon = match find_char_exec(rest.as_slice(), ':') {
        Some(c) => c,
        None => return None,
    };
    let after = copy_range(rest.as_slice(), colon + 1, rest.len());
    assert(after@ =~= rest@.skip(colon + 1));
    let start = match find_char_exec(after.as_slice(), '"') {
        Some(s) => s,
        None => return None,
    };
    let tail = copy_range(after.as_slice(), start + 1, after.len());
    assert(tail@ =~= after@.skip(start + 1));
    let end = match find_char_exec(tail.as_slice(), '"') {
        Some(e) => e,
        None => return None,
    };
    let value = copy_range(tail.as_slice(), 0, end);
    assert(value@ =~= tail@.take(end as int));
    Some(value)
}

/// The latest release's tag, read from the body of GitHub's
/// `releases/latest` answer for `repo`.
pub fn latest_tag(repo: &str, body: &str) -> (r: Result<String, CdlvsmError>)
    ensures
        match (r, first_tag(lines(body@))) {
            (Ok(t), Some(st)) => t@ == st,
            (Err(e), None) => e.0@ == latest_tag_error_text(repo@),
            _ => false,
        },
{
    let t = chars_of(body);
    let mut pos: usize = 0;
    assert(t@.skip(0) =~= t@);
    while pos < t.len()
        invariant
            pos <= t@.len(),
            t@ == body@,
            first_tag(lines(body@)) == first_tag(lines(t@.skip(pos as int))),
        decreases t.len() - pos,
    {
        let (line, next) = next_line(t.as_slice(), pos);
        proof {
            let rest = lines(t@.skip(next as int));
            assert((seq![line@] + rest)[0] == line@);
            assert((seq![line@] + rest).drop_first() =~= rest);
        }
        match quoted_after_exec(line.as_slice(), "\"tag_name\"") {
            Some(value) => {
                let tag = trim_exec(value.as_slice());
                if tag.len() > 0 {
                    return Ok(string_of(tag.as_slice()));
                }
            },
            None => {},
        }
        pos = next;
    }
    proof {
        assert(t@.skip(pos as int) =~= Seq::<char>::empty());
        assert(lines(Seq::<char>::empty()) =~= Seq::<Seq<char>>::empty());
    }
    let mut msg = String::from_str("could not determine the latest release version for ");
    push_str(&mut msg, repo);
    Err(CdlvsmError(msg))
}

/// The asset file names attached to a release, read from the body of
/// GitHub's `releases/tags/<tag>` answer. `None` when it names none — the
/// caller then falls back to the conventional name and lets the download
/// itself surface the error. `browser_download_url` appears only inside the
/// assets array, so its basename is the asset name.
pub fn release_assets(body: &str) -> (r: Option<Vec<String>>)
    ensures
        match r {
            Some(names) => views(names@) == assets_of(lines(body@)) && names@.len() > 0,
            None => assets_of(lines(body@)).len() == 0,
        },
{
    let t = chars_of(body);
    let mut names: Vec<String> = Vec::new();
    let mut pos: usize = 0;
    assert(t@.skip(0) =~= t@);
    assert(views(names@) =~= Seq::<Seq<char>>::empty());
    while pos < t.len()
        invariant
            pos <= t@.len(),
            t@ == body@,
            assets_of(lines(body@)) == views(names@) + assets_of(lines(t@.skip(pos as int))),
        decreases t.len() - pos,
    {
        let (line, next) = next_line(t.as_slice(), pos);
        let ghost before = views(names@);
        let ghost rest = lines(t@.skip(next as int));
        proof {
            assert((seq![line@] + rest)[0] == line@);
            assert((seq![line@] + rest).drop_first() =~= rest);
        }
        match quoted_after_exec(line.as_slice(), "\"browser_download_url\"") {
            Some(url) => {
                let pieces = split_exec(url.as_slice(), '/');
                proof {
                    crate::paths::lemma_split_nonempty(url@, '/');
                }
                let last = &pieces[pieces.len() - 1];
                proof {
                    assert(char_views(pieces@).last() == last@);
                }
                if last.len() > 0 {
                    names.push(string_of(last.as_slice()));
                    proof {
                        assert(views(names@) =~= before.push(last@));
                        assert(before + (seq![last@] + assets_of(rest)) =~= views(names@)
                            + assets_of(rest));
                    }
                } else {
                    assert(before + (Seq::<Seq<char>>::empty() + assets_of(rest)) =~= before
                        + assets_of(rest));
                }
            },
            None => {
                assert(before + (Seq::<Seq<char>>::empty() + assets_of(rest)) =~= before
                    + assets_of(rest));
            },
        }
        pos = next;
    }
    proof {
        assert(t@.skip(pos as int) =~= Seq::<char>::empty());
        assert(lines(Seq::<char>::empty()) =~= Seq::<Seq<char>>::empty());
        assert(views(names@) + Seq::<Seq<char>>::empty() =~= views(names@));
    }
    if names.len() == 0 {
        None
    } else {
        Some(names)
    }
}

} // verus!
