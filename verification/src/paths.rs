//! Filesystem layout for cdlvsm-managed installs.
//!
//! Everything hangs off `$PREFIX` (default `$HOME/.local`):
//!
//!   $PREFIX/share/cdlvsm/packages/<pkg>/<version>/   extracted package
//!   $PREFIX/share/cdlvsm/packages/<pkg>/current      symlink -> active version
//!   $PREFIX/share/cdlvsm/packages/<pkg>/.cdlvsm      how it was installed
//!   $PREFIX/bin/cdlvsm-<pkg>                          shim -> current/<pkg>
//!   $PREFIX/bin/<pkg>                                 bare command (only with --link)
//!
//! A path is its text. Joining follows `PathBuf::push` on Unix: an absolute
//! part replaces what was there, and a `/` is put between the two only when
//! the first does not end with one.

use vstd::prelude::*;
use vstd::string::*;
use crate::text::{
    chars_of, copy_range, lemma_find_char, next_piece, push_chars, same_chars, split_char,
    string_of,
};

verus! {

/// `base.join(part)`.
pub open spec fn join(base: Seq<char>, part: Seq<char>) -> Seq<char> {
    if part.len() > 0 && part[0] == '/' {
        part
    } else if base.len() == 0 || base.last() == '/' {
        base + part
    } else {
        base + seq!['/'] + part
    }
}

/// The path starts at the root.
pub open spec fn is_absolute(p: Seq<char>) -> bool {
    p.len() > 0 && p[0] == '/'
}

/// `$PREFIX`, else `$HOME/.local` (`.local` when `HOME` is unset).
pub open spec fn prefix_path(prefix_var: Option<Seq<char>>, home: Option<Seq<char>>) -> Seq<char> {
    match prefix_var {
        Some(p) => p,
        None => join(
            match home {
                Some(h) => h,
                None => Seq::empty(),
            },
            ".local"@,
        ),
    }
}

pub open spec fn bin_path(prefix: Seq<char>) -> Seq<char> {
    join(prefix, "bin"@)
}

pub open spec fn packages_root_path(prefix: Seq<char>) -> Seq<char> {
    join(join(join(prefix, "share"@), "cdlvsm"@), "packages"@)
}

pub open spec fn package_dir_path(prefix: Seq<char>, pkg: Seq<char>) -> Seq<char> {
    join(packages_root_path(prefix), pkg)
}

pub open spec fn current_link_path(prefix: Seq<char>, pkg: Seq<char>) -> Seq<char> {
    join(package_dir_path(prefix, pkg), "current"@)
}

pub open spec fn dispatch_target_path(prefix: Seq<char>, pkg: Seq<char>) -> Seq<char> {
    join(current_link_path(prefix, pkg), pkg)
}

pub open spec fn metadata_file_path(prefix: Seq<char>, pkg: Seq<char>) -> Seq<char> {
    join(package_dir_path(prefix, pkg), ".cdlvsm"@)
}

/// A component that `Path::components` yields by its name: not empty and not `.`.
pub open spec fn is_normal(part: Seq<char>) -> bool {
    part.len() > 0 && part != seq!['.']
}

/// The named components among `parts`, in order.
pub open spec fn normal_parts(parts: Seq<Seq<char>>) -> Seq<Seq<char>>
    decreases parts.len(),
{
    if parts.len() == 0 {
        Seq::empty()
    } else {
        normal_parts(parts.drop_last()) + if is_normal(parts.last()) {
            seq![parts.last()]
        } else {
            Seq::empty()
        }
    }
}

/// `Path::components` on Unix: the root as `/`, a leading `.` of a relative
/// path as `.`, then every named component; repeated `/`, inner `.` and a
/// trailing `/` leave no trace.
pub open spec fn components(p: Seq<char>) -> Seq<Seq<char>> {
    let parts = split_char(p, '/');
    (if is_absolute(p) {
        seq![seq!['/']]
    } else if parts.len() > 0 && parts[0] == seq!['.'] {
        seq![seq!['.']]
    } else {
        Seq::empty()
    }) + normal_parts(parts)
}

/// `Path::starts_with`: the components of `base` begin those of `path`.
pub open spec fn path_starts_with(path: Seq<char>, base: Seq<char>) -> bool {
    let (cp, cb) = (components(path), components(base));
    cb.len() <= cp.len() && cp.take(cb.len() as int) == cb
}

/// The views of a sequence of character vectors.
pub open spec fn char_views(v: Seq<Vec<char>>) -> Seq<Seq<char>> {
    v.map_values(|x: Vec<char>| x@)
}

// ---------------------------------------------------------------------------
// Lemmas
// ---------------------------------------------------------------------------

pub proof fn lemma_normal_parts_concat(a: Seq<Seq<char>>, b: Seq<Seq<char>>)
    ensures
        normal_parts(a + b) == normal_parts(a) + normal_parts(b),
    decreases b.len(),
{
    if b.len() == 0 {
        assert(a + b =~= a);
        assert(normal_parts(a) + normal_parts(b) =~= normal_parts(a));
    } else {
        lemma_normal_parts_concat(a, b.drop_last());
        assert((a + b).drop_last() =~= a + b.drop_last());
        assert((a + b).last() == b.last());
        let tail = if is_normal(b.last()) {
            seq![b.last()]
        } else {
            Seq::<Seq<char>>::empty()
        };
        assert(normal_parts(a) + normal_parts(b.drop_last()) + tail =~= normal_parts(a) + (
        normal_parts(b.drop_last()) + tail));
    }
}

/// One step of splitting: the piece before the first `c`, at `k`.
pub proof fn lemma_split_step(s: Seq<char>, c: char, k: int)
    requires
        0 <= k <= s.len(),
        forall|j: int| 0 <= j < k ==> s[j] != c,
        k < s.len() ==> s[k] == c,
    ensures
        k < s.len() ==> split_char(s, c) == seq![s.take(k)] + split_char(s.skip(k + 1), c),
        k == s.len() ==> split_char(s, c) == seq![s],
{
    lemma_find_char(s, c, k);
}

/// There is always at least one piece.
pub proof fn lemma_split_nonempty(s: Seq<char>, c: char)
    ensures
        split_char(s, c).len() >= 1,
{
}

/// Splitting at a separator that stands between two texts splits each.
pub proof fn lemma_split_concat(x: Seq<char>, y: Seq<char>, c: char)
    ensures
        split_char(x + seq![c] + y, c) == split_char(x, c) + split_char(y, c),
{
    lemma_split_concat_from(x, y, c, 0);
}

proof fn lemma_split_concat_from(x: Seq<char>, y: Seq<char>, c: char, k: int)
    requires
        0 <= k <= x.len(),
        forall|j: int| 0 <= j < k ==> x[j] != c,
    ensures
        split_char(x + seq![c] + y, c) == split_char(x, c) + split_char(y, c),
    decreases x.len(), x.len() - k,
{
    let s = x + seq![c] + y;
    if k == x.len() {
        lemma_split_step(s, c, k);
        lemma_split_step(x, c, k);
        assert(s.take(k) =~= x);
        assert(s.skip(k + 1) =~= y);
    } else if x[k] == c {
        lemma_split_step(s, c, k);
        lemma_split_step(x, c, k);
        assert(s.take(k) =~= x.take(k));
        assert(s.skip(k + 1) =~= x.skip(k + 1) + seq![c] + y);
        lemma_split_concat_from(x.skip(k + 1), y, c, 0);
        assert(seq![x.take(k)] + (split_char(x.skip(k + 1), c) + split_char(y, c)) =~= seq![
            x.take(k),
        ] + split_char(x.skip(k + 1), c) + split_char(y, c));
    } else {
        lemma_split_concat_from(x, y, c, k + 1);
    }
}

/// A trailing separator adds an empty piece, which names no component.
pub proof fn lemma_normal_trailing_sep(a0: Seq<char>)
    ensures
        normal_parts(split_char(a0 + seq!['/'], '/')) == normal_parts(split_char(a0, '/')),
{
    lemma_split_concat(a0, Seq::empty(), '/');
    assert(a0 + seq!['/'] =~= a0 + seq!['/'] + Seq::<char>::empty());
    lemma_split_step(Seq::<char>::empty(), '/', 0);
    lemma_normal_parts_concat(split_char(a0, '/'), seq![Seq::<char>::empty()]);
    assert(seq![Seq::<char>::empty()].drop_last() =~= Seq::<Seq<char>>::empty());
    assert(normal_parts(Seq::<Seq<char>>::empty()) =~= Seq::<Seq<char>>::empty());
    assert(!is_normal(Seq::<char>::empty()));
    assert(normal_parts(seq![Seq::<char>::empty()]) =~= Seq::<Seq<char>>::empty());
    assert(normal_parts(split_char(a0, '/')) + Seq::<Seq<char>>::empty() =~= normal_parts(
        split_char(a0, '/'),
    ));
}

/// Joining a relative part to an absolute path keeps its components in front.
pub proof fn lemma_join_components(a: Seq<char>, b: Seq<char>)
    requires
        is_absolute(a),
        !is_absolute(b),
    ensures
        is_absolute(join(a, b)),
        components(join(a, b)) == components(a) + normal_parts(split_char(b, '/')),
{
    let j = join(a, b);
    let a0 = if a.last() == '/' {
        a.drop_last()
    } else {
        a
    };
    assert(j =~= a0 + seq!['/'] + b);
    assert(j[0] == a[0]);
    assert(normal_parts(split_char(a, '/')) == normal_parts(split_char(a0, '/'))) by {
        if a.last() == '/' {
            assert(a =~= a0 + seq!['/']);
            lemma_normal_trailing_sep(a0);
        }
    }
    lemma_split_concat(a0, b, '/');
    lemma_normal_parts_concat(split_char(a0, '/'), split_char(b, '/'));
    let na = normal_parts(split_char(a0, '/'));
    let nb = normal_parts(split_char(b, '/'));
    assert(seq![seq!['/']] + (na + nb) =~= seq![seq!['/']] + na + nb);
}

/// Joining anything to an absolute path gives a path under it, or the part
/// itself when that is absolute.
pub proof fn lemma_join_under(a: Seq<char>, b: Seq<char>)
    requires
        is_absolute(a),
    ensures
        is_absolute(join(a, b)),
        is_absolute(b) ==> join(a, b) == b,
        !is_absolute(b) ==> path_starts_with(join(a, b), a),
{
    if !is_absolute(b) {
        lemma_join_components(a, b);
        let ca = components(a);
        assert((ca + normal_parts(split_char(b, '/'))).take(ca.len() as int) =~= ca);
    }
}

/// A name that is one component of a path: not empty, no `/`, and not
/// `.` or `..`.
pub open spec fn plain_name(s: Seq<char>) -> bool {
    &&& s.len() > 0
    &&& !s.contains('/')
    &&& s != seq!['.']
    &&& s != seq!['.', '.']
}

proof fn lemma_split_plain(b: Seq<char>)
    requires
        plain_name(b),
    ensures
        split_char(b, '/') == seq![b],
        normal_parts(seq![b]) == seq![b],
{
    assert forall|j: int| 0 <= j < b.len() implies b[j] != '/' by {
        if b[j] == '/' {
            assert(b.contains('/'));
        }
    }
    lemma_split_step(b, '/', b.len() as int);
    assert(seq![b].drop_last() =~= Seq::<Seq<char>>::empty());
    assert(seq![b].last() == b);
    assert(is_normal(b));
    assert(normal_parts(Seq::<Seq<char>>::empty()) =~= Seq::<Seq<char>>::empty());
    assert(Seq::<Seq<char>>::empty() + seq![b] =~= seq![b]);
}

/// Joining a plain name adds it as one more component, whatever the base.
pub proof fn lemma_join_plain(a: Seq<char>, b: Seq<char>)
    requires
        plain_name(b),
    ensures
        components(join(a, b)) == components(a).push(b),
{
    lemma_split_plain(b);
    assert(b[0] != '/') by {
        if b[0] == '/' {
            assert(b.contains('/'));
        }
    }
    if is_absolute(a) {
        lemma_join_components(a, b);
        assert(components(a) + seq![b] =~= components(a).push(b));
    } else if a.len() == 0 {
        assert(join(a, b) =~= b);
        lemma_split_step(a, '/', 0);
        assert(normal_parts(seq![a]) =~= normal_parts(Seq::<Seq<char>>::empty())) by {
            assert(seq![a].drop_last() =~= Seq::<Seq<char>>::empty());
        }
        assert(components(a) =~= Seq::<Seq<char>>::empty());
        assert(components(b) =~= seq![b]);
    } else {
        let a0 = if a.last() == '/' {
            a.drop_last()
        } else {
            a
        };
        let j = join(a, b);
        assert(j =~= a0 + seq!['/'] + b);
        assert(a0.len() > 0) by {
            if a.last() == '/' && a.len() == 1 {
                assert(a[0] == '/');
            }
        }
        assert(j[0] == a[0]);
        lemma_split_concat(a0, b, '/');
        lemma_split_nonempty(a0, '/');
        lemma_normal_parts_concat(split_char(a0, '/'), seq![b]);
        // `a` splits as `a0` does, with an empty piece when it ends with `/`.
        assert(split_char(a, '/')[0] == split_char(a0, '/')[0] && normal_parts(split_char(a, '/'))
            == normal_parts(split_char(a0, '/'))) by {
            if a.last() == '/' {
                assert(a =~= a0 + seq!['/']);
                lemma_normal_trailing_sep(a0);
                lemma_split_concat(a0, Seq::empty(), '/');
                assert(a0 + seq!['/'] =~= a0 + seq!['/'] + Seq::<char>::empty());
            }
        }
        assert((split_char(a0, '/') + seq![b])[0] == split_char(a0, '/')[0]);
        assert(normal_parts(split_char(a0, '/')) + seq![b] =~= normal_parts(split_char(a0, '/')).push(b));
        let lead = if split_char(a, '/')[0] == seq!['.'] {
            seq![seq!['.']]
        } else {
            Seq::<Seq<char>>::empty()
        };
        assert(components(a) == lead + normal_parts(split_char(a0, '/')));
        assert(components(j) == lead + (normal_parts(split_char(a0, '/')) + seq![b]));
        assert(lead + (normal_parts(split_char(a0, '/')) + seq![b]) =~= (lead + normal_parts(
            split_char(a0, '/'),
        )).push(b));
    }
}

pub fn is_plain_name(s: &str) -> (r: bool)
    ensures
        r == plain_name(s@),
{
    let v = chars_of(s);
    if v.len() == 0 {
        return false;
    }
    if v.len() == 1 && v[0] == '.' {
        assert(v@ =~= seq!['.']);
        return false;
    }
    if v.len() == 2 && v[0] == '.' && v[1] == '.' {
        assert(v@ =~= seq!['.', '.']);
        return false;
    }
    let mut i: usize = 0;
    while i < v.len()
        invariant
            i <= v@.len(),
            v@ == s@,
            forall|j: int| 0 <= j < i ==> v@[j] != '/',
        decreases v.len() - i,
    {
        if v[i] == '/' {
            assert(s@.contains('/'));
            return false;
        }
        i += 1;
    }
    proof {
        if s@.contains('/') {
            let j = choose|j: int| 0 <= j < s@.len() && s@[j] == '/';
        }
        if v@.len() == 1 {
            assert(v@ != seq!['.']) by {
                if v@ == seq!['.'] {
                    assert(v@[0] == '.');
                }
            }
        }
        if v@.len() == 2 {
            assert(v@ != seq!['.', '.']) by {
                if v@ == seq!['.', '.'] {
                    assert(v@[0] == '.' && v@[1] == '.');
                }
            }
        }
    }
    true
}

pub proof fn lemma_starts_with_refl(p: Seq<char>)
    ensures
        path_starts_with(p, p),
{
    assert(components(p).take(components(p).len() as int) =~= components(p));
}

pub proof fn lemma_starts_with_trans(p: Seq<char>, q: Seq<char>, r: Seq<char>)
    requires
        path_starts_with(p, q),
        path_starts_with(q, r),
    ensures
        path_starts_with(p, r),
{
    let (cp, cq, cr) = (components(p), components(q), components(r));
    assert(cp.take(cr.len() as int) =~= cq.take(cr.len() as int));
}

// ---------------------------------------------------------------------------
// Executable
// ---------------------------------------------------------------------------

/// `base.join(part)`.
pub fn join_path(base: &str, part: &str) -> (r: String)
    ensures
        r@ == join(base@, part@),
{
    let b = chars_of(base);
    let p = chars_of(part);
    let mut out = String::new();
    if p.len() > 0 && p[0] == '/' {
        push_chars(&mut out, p.as_slice());
        return out;
    }
    push_chars(&mut out, b.as_slice());
    if b.len() > 0 && b[b.len() - 1] != '/' {
        out.push('/');
    }
    push_chars(&mut out, p.as_slice());
    proof {
        if b@.len() > 0 {
            assert(b@.last() == b@[b@.len() - 1]);
        }
    }
    out
}

/// The text of an optional string.
pub open spec fn opt_view(o: Option<&str>) -> Option<Seq<char>> {
    match o {
        Some(s) => Some(s@),
        None => None,
    }
}

/// The install root: `$PREFIX` when set, else `$HOME/.local`; given the two
/// variables' values.
pub fn prefix(prefix_var: Option<&str>, home: Option<&str>) -> (r: String)
    ensures
        r@ == prefix_path(opt_view(prefix_var), opt_view(home)),
{
    match prefix_var {
        Some(p) => {
            let v = chars_of(p);
            let r = string_of(v.as_slice());
            assert(opt_view(prefix_var) == Some(p@));
            r
        },
        None => match home {
            Some(h) => join_path(h, ".local"),
            None => {
                proof {
                    reveal_strlit("");
                }
                join_path("", ".local")
            },
        },
    }
}

pub fn bin_dir(prefix: &str) -> (r: String)
    ensures
        r@ == bin_path(prefix@),
{
    join_path(prefix, "bin")
}

pub fn packages_root(prefix: &str) -> (r: String)
    ensures
        r@ == packages_root_path(prefix@),
{
    let share = join_path(prefix, "share");
    let ours = join_path(share.as_str(), "cdlvsm");
    join_path(ours.as_str(), "packages")
}

pub fn package_dir(prefix: &str, pkg: &str) -> (r: String)
    ensures
        r@ == package_dir_path(prefix@, pkg@),
{
    let root = packages_root(prefix);
    join_path(root.as_str(), pkg)
}

pub fn current_link(prefix: &str, pkg: &str) -> (r: String)
    ensures
        r@ == current_link_path(prefix@, pkg@),
{
    let dir = package_dir(prefix, pkg);
    join_path(dir.as_str(), "current")
}

/// The binary cdlvsm dispatches to: `.../packages/<pkg>/current/<pkg>`.
/// Binary name == package name for every package cdlvsm manages.
pub fn dispatch_target(prefix: &str, pkg: &str) -> (r: String)
    ensures
        r@ == dispatch_target_path(prefix@, pkg@),
{
    let current = current_link(prefix, pkg);
    join_path(current.as_str(), pkg)
}

/// Where the install settings of `pkg` are recorded.
pub fn metadata_path(prefix: &str, pkg: &str) -> (r: String)
    ensures
        r@ == metadata_file_path(prefix@, pkg@),
{
    let dir = package_dir(prefix, pkg);
    join_path(dir.as_str(), ".cdlvsm")
}

/// The text of the one character `c`.
fn single(c: char) -> (v: Vec<char>)
    ensures
        v@ == seq![c],
{
    let mut v: Vec<char> = Vec::new();
    v.push(c);
    v
}

/// The pieces of `t` between the occurrences of `c`.
pub fn split_exec(t: &[char], c: char) -> (r: Vec<Vec<char>>)
    ensures
        char_views(r@) == split_char(t@, c),
{
    let mut r: Vec<Vec<char>> = Vec::new();
    let mut pos: usize = 0;
    assert(t@.skip(0) =~= t@);
    assert(char_views(r@) =~= Seq::<Seq<char>>::empty());
    loop
        invariant
            pos <= t@.len(),
            split_char(t@, c) == char_views(r@) + split_char(t@.skip(pos as int), c),
        decreases t@.len() - pos,
    {
        let (piece, next, more) = next_piece(t, pos, c);
        let ghost before_push = r@;
        r.push(piece);
        proof {
            assert(char_views(r@) =~= char_views(before_push) + seq![r@.last()@]);
        }
        if !more {
            return r;
        }
        proof {
            assert(char_views(before_push) + (seq![r@.last()@] + split_char(
                t@.skip(next as int),
                c,
            )) =~= char_views(r@) + split_char(t@.skip(next as int), c));
        }
        pos = next;
    }
}

/// `Path::components` of `p`, each as its text.
pub fn components_of(p: &str) -> (r: Vec<Vec<char>>)
    ensures
        char_views(r@) == components(p@),
{
    let t = chars_of(p);
    let parts = split_exec(t.as_slice(), '/');
    let mut r: Vec<Vec<char>> = Vec::new();
    let absolute = t.len() > 0 && t[0] == '/';
    if absolute {
        r.push(single('/'));
    } else if parts.len() > 0 && parts[0].len() == 1 && parts[0][0] == '.' {
        r.push(single('.'));
    }
    let ghost lead = char_views(r@);
    proof {
        let ps = split_char(t@, '/');
        lemma_split_nonempty(t@, '/');
        assert(char_views(parts@)[0] == parts@[0]@);
        if !absolute && ps.len() > 0 && ps[0] == seq!['.'] {
            assert(ps[0].len() == 1 && ps[0][0] == '.');
        }
        if !absolute && parts@.len() > 0 && parts@[0]@.len() == 1 && parts@[0]@[0] == '.' {
            assert(ps[0] =~= seq!['.']);
        }
        assert(lead =~= (if is_absolute(t@) {
            seq![seq!['/']]
        } else if ps.len() > 0 && ps[0] == seq!['.'] {
            seq![seq!['.']]
        } else {
            Seq::empty()
        }));
        assert(char_views(parts@).take(0) =~= Seq::<Seq<char>>::empty());
    }
    let mut i: usize = 0;
    while i < parts.len()
        invariant
            i <= parts@.len(),
            char_views(r@) == lead + normal_parts(char_views(parts@).take(i as int)),
        decreases parts.len() - i,
    {
        let part = &parts[i];
        let normal = part.len() > 0 && !(part.len() == 1 && part[0] == '.');
        let ghost before_push = r@;
        proof {
            let pv = part@;
            assert(is_normal(pv) == normal) by {
                if pv == seq!['.'] {
                    assert(pv.len() == 1 && pv[0] == '.');
                }
                if pv.len() == 1 && pv[0] == '.' {
                    assert(pv =~= seq!['.']);
                }
            }
            let tk = char_views(parts@).take(i as int + 1);
            assert(tk.drop_last() =~= char_views(parts@).take(i as int));
            assert(tk.last() == pv);
        }
        if normal {
            let copy = copy_range(part.as_slice(), 0, part.len());
            assert(copy@ =~= part@);
            r.push(copy);
            proof {
                assert(char_views(r@) =~= char_views(before_push) + seq![part@]);
            }
        }
        i += 1;
    }
    proof {
        assert(char_views(parts@).take(parts@.len() as int) =~= char_views(parts@));
    }
    r
}

/// `Path::starts_with`: whether `path` lies at or under `base`, component by
/// component.
pub fn starts_with_path(path: &str, base: &str) -> (r: bool)
    ensures
        r == path_starts_with(path@, base@),
{
    let cp = components_of(path);
    let cb = components_of(base);
    if cb.len() > cp.len() {
        return false;
    }
    let mut i: usize = 0;
    while i < cb.len()
        invariant
            cb@.len() <= cp@.len(),
            char_views(cp@) == components(path@),
            char_views(cb@) == components(base@),
            i <= cb@.len(),
            forall|j: int| 0 <= j < i ==> cp@[j]@ == cb@[j]@,
        decreases cb.len() - i,
    {
        if !same_chars(cp[i].as_slice(), cb[i].as_slice()) {
            proof {
                assert(char_views(cp@).take(cb@.len() as int)[i as int] == cp@[i as int]@);
                assert(char_views(cb@)[i as int] == cb@[i as int]@);
                assert(char_views(cp@).take(cb@.len() as int) != char_views(cb@));
            }
            return false;
        }
        i += 1;
    }
    proof {
        assert(char_views(cp@).take(cb@.len() as int) =~= char_views(cb@));
    }
    true
}

} // verus!
