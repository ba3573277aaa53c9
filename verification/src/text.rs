//! Text as sequences of characters: the model every string of this crate
//! is stated over, and the small verified routines that read and build it.

use vstd::prelude::*;
use vstd::string::*;

verus! {

/// `String::push` appends one character.
pub assume_specification[ String::push ](s: &mut String, ch: char)
    ensures
        final(s)@ == old(s)@.push(ch),
;

// ---------------------------------------------------------------------------
// Specification of the text operations
// ---------------------------------------------------------------------------

/// A character with the Unicode `White_Space` property (`char::is_whitespace`).
pub open spec fn is_ws(c: char) -> bool {
    ||| '\t' <= c <= '\r'
    ||| c == ' '
    ||| c == '\u{85}'
    ||| c == '\u{A0}'
    ||| c == '\u{1680}'
    ||| '\u{2000}' <= c <= '\u{200A}'
    ||| c == '\u{2028}'
    ||| c == '\u{2029}'
    ||| c == '\u{202F}'
    ||| c == '\u{205F}'
    ||| c == '\u{3000}'
}

/// `s` without its leading whitespace.
pub open spec fn trim_start(s: Seq<char>) -> Seq<char>
    decreases s.len(),
{
    if s.len() > 0 && is_ws(s[0]) {
        trim_start(s.drop_first())
    } else {
        s
    }
}

/// `s` without its trailing whitespace.
pub open spec fn trim_end(s: Seq<char>) -> Seq<char>
    decreases s.len(),
{
    if s.len() > 0 && is_ws(s.last()) {
        trim_end(s.drop_last())
    } else {
        s
    }
}

/// `str::trim`: both ends without whitespace.
pub open spec fn trim(s: Seq<char>) -> Seq<char> {
    trim_end(trim_start(s))
}

/// `pat` stands in `s` at index `i`.
pub open spec fn occurs_at(s: Seq<char>, pat: Seq<char>, i: int) -> bool {
    &&& 0 <= i
    &&& i + pat.len() <= s.len()
    &&& s.subrange(i, i + pat.len()) == pat
}

/// `i` is the first index at which `pat` stands in `s`.
pub open spec fn first_at(s: Seq<char>, pat: Seq<char>, i: int) -> bool {
    &&& occurs_at(s, pat, i)
    &&& forall|j: int| 0 <= j < i ==> !occurs_at(s, pat, j)
}

/// `str::find`: where `pat` first stands in `s`, counted in characters.
pub open spec fn find(s: Seq<char>, pat: Seq<char>) -> Option<int> {
    if exists|i: int| first_at(s, pat, i) {
        Some(choose|i: int| first_at(s, pat, i))
    } else {
        None
    }
}

/// What precedes the first `pat` in `s` (all of `s` if there is none):
/// `s.split(pat).next()`.
pub open spec fn before(s: Seq<char>, pat: Seq<char>) -> Seq<char> {
    match find(s, pat) {
        Some(i) => s.take(i),
        None => s,
    }
}

/// Each character of `s` replaced by what `f` makes of it.
pub open spec fn map_chars(s: Seq<char>, f: spec_fn(char) -> Seq<char>) -> Seq<char>
    decreases s.len(),
{
    if s.len() == 0 {
        Seq::empty()
    } else {
        map_chars(s.drop_last(), f) + f(s.last())
    }
}

/// `c` becomes `r`; every other character stays.
pub open spec fn replacing(c: char, r: Seq<char>) -> spec_fn(char) -> Seq<char> {
    |x: char| if x == c { r } else { seq![x] }
}

/// `str::replace` of one character by a string.
pub open spec fn replace_char(s: Seq<char>, c: char, r: Seq<char>) -> Seq<char> {
    map_chars(s, replacing(c, r))
}

/// A line without the `\r` of a `\r\n` ending.
pub open spec fn strip_cr(l: Seq<char>) -> Seq<char> {
    if l.len() > 0 && l.last() == '\r' {
        l.drop_last()
    } else {
        l
    }
}

/// `str::lines`: the lines of `s`, split at `\n` or `\r\n`; the last line
/// ending is optional.
pub open spec fn lines(s: Seq<char>) -> Seq<Seq<char>>
    decreases s.len(),
{
    if s.len() == 0 {
        Seq::empty()
    } else {
        match find(s, seq!['\n']) {
            Some(i) => if 0 <= i < s.len() {
                seq![strip_cr(s.take(i))] + lines(s.skip(i + 1))
            } else {
                Seq::empty()
            },
            None => seq![s],
        }
    }
}

/// The pieces of `s` between the occurrences of `c` (`str::split` by a
/// character): one more piece than there are `c`s.
pub open spec fn split_char(s: Seq<char>, c: char) -> Seq<Seq<char>>
    decreases s.len(),
{
    match find(s, seq![c]) {
        Some(i) => if 0 <= i < s.len() {
            seq![s.take(i)] + split_char(s.skip(i + 1), c)
        } else {
            seq![s]
        },
        None => seq![s],
    }
}

/// The decimal digits of `n`.
pub open spec fn decimal(n: nat) -> Seq<char>
    decreases n,
{
    if n < 10 {
        seq![digit(n)]
    } else {
        decimal(n / 10) + seq![digit(n % 10)]
    }
}

/// The digit character for `d < 10`.
pub open spec fn digit(d: nat) -> char {
    if d == 0 { '0' }
    else if d == 1 { '1' }
    else if d == 2 { '2' }
    else if d == 3 { '3' }
    else if d == 4 { '4' }
    else if d == 5 { '5' }
    else if d == 6 { '6' }
    else if d == 7 { '7' }
    else if d == 8 { '8' }
    else { '9' }
}

/// `a <= b` in the order of `String`: character by character, by code
/// point, a prefix first.
pub open spec fn lex_le(a: Seq<char>, b: Seq<char>) -> bool
    decreases a.len(),
{
    if a.len() == 0 {
        true
    } else if b.len() == 0 {
        false
    } else if a[0] != b[0] {
        a[0] < b[0]
    } else {
        lex_le(a.drop_first(), b.drop_first())
    }
}

/// The strings' views, in order.
pub open spec fn views(v: Seq<String>) -> Seq<Seq<char>> {
    v.map_values(|s: String| s@)
}

// ---------------------------------------------------------------------------
// Lemmas
// ---------------------------------------------------------------------------

pub proof fn lemma_find_first(s: Seq<char>, pat: Seq<char>, i: int)
    requires
        first_at(s, pat, i),
    ensures
        find(s, pat) == Some(i),
{
    let k = choose|k: int| first_at(s, pat, k);
    assert(first_at(s, pat, k));
    if k < i {
        assert(!occurs_at(s, pat, k));
    } else if i < k {
        assert(!occurs_at(s, pat, i));
    }
}

/// Where `pat` stands, `find` finds it (there, or before).
pub proof fn lemma_find_some(s: Seq<char>, pat: Seq<char>, i: int)
    requires
        occurs_at(s, pat, i),
    ensures
        find(s, pat) is Some,
        find(s, pat)->0 <= i,
    decreases i,
{
    if exists|j: int| 0 <= j < i && occurs_at(s, pat, j) {
        let j = choose|j: int| 0 <= j < i && occurs_at(s, pat, j);
        lemma_find_some(s, pat, j);
    } else {
        lemma_find_first(s, pat, i);
    }
}

pub proof fn lemma_find_none(s: Seq<char>, pat: Seq<char>)
    requires
        forall|j: int| !occurs_at(s, pat, j),
    ensures
        find(s, pat) is None,
{
    if exists|i: int| first_at(s, pat, i) {
        let k = choose|k: int| first_at(s, pat, k);
        assert(occurs_at(s, pat, k));
    }
}

pub proof fn lemma_occurs_single(s: Seq<char>, c: char, k: int)
    ensures
        occurs_at(s, seq![c], k) <==> (0 <= k < s.len() && s[k] == c),
{
    if 0 <= k < s.len() && s[k] == c {
        assert(s.subrange(k, k + 1) =~= seq![c]);
    }
    if occurs_at(s, seq![c], k) {
        assert(s.subrange(k, k + 1)[0] == s[k]);
    }
}

/// The first `c` of `s` found by a scan: `k` is it when nothing before is `c`.
pub proof fn lemma_find_char(s: Seq<char>, c: char, k: int)
    requires
        0 <= k <= s.len(),
        forall|j: int| 0 <= j < k ==> s[j] != c,
        k < s.len() ==> s[k] == c,
    ensures
        k < s.len() ==> find(s, seq![c]) == Some(k),
        k == s.len() ==> find(s, seq![c]) is None,
{
    assert forall|j: int| 0 <= j < k implies !occurs_at(s, seq![c], j) by {
        lemma_occurs_single(s, c, j);
    }
    if k < s.len() {
        lemma_occurs_single(s, c, k);
        lemma_find_first(s, seq![c], k);
    } else {
        assert forall|j: int| !occurs_at(s, seq![c], j) by {
            lemma_occurs_single(s, c, j);
        }
        lemma_find_none(s, seq![c]);
    }
}

pub proof fn lemma_map_chars_push(s: Seq<char>, x: char, f: spec_fn(char) -> Seq<char>)
    ensures
        map_chars(s.push(x), f) == map_chars(s, f) + f(x),
{
    assert(s.push(x).drop_last() =~= s);
}

pub proof fn lemma_map_chars_concat(a: Seq<char>, b: Seq<char>, f: spec_fn(char) -> Seq<char>)
    ensures
        map_chars(a + b, f) == map_chars(a, f) + map_chars(b, f),
    decreases b.len(),
{
    if b.len() == 0 {
        assert(a + b =~= a);
        assert(map_chars(a, f) + Seq::<char>::empty() =~= map_chars(a, f));
    } else {
        lemma_map_chars_concat(a, b.drop_last(), f);
        assert((a + b).drop_last() =~= a + b.drop_last());
        assert((a + b).last() == b.last());
        assert(map_chars(a, f) + map_chars(b.drop_last(), f) + f(b.last()) =~= map_chars(a, f)
            + (map_chars(b.drop_last(), f) + f(b.last())));
    }
}

pub proof fn lemma_trim_start_skip(s: Seq<char>, i: int)
    requires
        0 <= i <= s.len(),
        forall|j: int| 0 <= j < i ==> is_ws(s[j]),
    ensures
        trim_start(s) == trim_start(s.skip(i)),
    decreases i,
{
    if i > 0 {
        lemma_trim_start_skip(s.drop_first(), i - 1);
        assert(s.drop_first().skip(i - 1) =~= s.skip(i));
    } else {
        assert(s.skip(0) =~= s);
    }
}

pub proof fn lemma_trim_end_take(s: Seq<char>, k: int)
    requires
        0 <= k <= s.len(),
        forall|j: int| k <= j < s.len() ==> is_ws(s[j]),
    ensures
        trim_end(s) == trim_end(s.take(k)),
    decreases s.len() - k,
{
    if k < s.len() {
        lemma_trim_end_take(s.drop_last(), k);
        assert(s.drop_last().take(k) =~= s.take(k));
    } else {
        assert(s.take(k) =~= s);
    }
}

/// Nothing of the text is whitespace at its ends once trimmed.
pub proof fn lemma_trim_ends(s: Seq<char>)
    ensures
        trim_start(s).len() > 0 ==> !is_ws(trim_start(s)[0]),
        trim_end(s).len() > 0 ==> !is_ws(trim_end(s).last()),
        trim_end(s).len() <= s.len(),
        forall|j: int| 0 <= j < trim_end(s).len() ==> trim_end(s)[j] == s[j],
    decreases s.len(),
{
    if s.len() > 0 && is_ws(s[0]) {
        lemma_trim_ends(s.drop_first());
    }
    if s.len() > 0 && is_ws(s.last()) {
        lemma_trim_ends(s.drop_last());
        assert forall|j: int| 0 <= j < trim_end(s).len() implies trim_end(s)[j] == s[j] by {
            assert(s.drop_last()[j] == s[j]);
        }
    }
}

/// Text that starts and ends with no whitespace is its own trim.
pub proof fn lemma_trim_id(s: Seq<char>)
    requires
        s.len() > 0 ==> !is_ws(s[0]) && !is_ws(s.last()),
    ensures
        trim(s) == s,
{
}

/// The lines of a text are those of its first line and of the rest.
pub proof fn lemma_lines_step(s: Seq<char>, k: int)
    requires
        0 <= k < s.len(),
        forall|j: int| 0 <= j < k ==> s[j] != '\n',
        s[k] == '\n',
    ensures
        lines(s) == seq![strip_cr(s.take(k))] + lines(s.skip(k + 1)),
{
    lemma_find_char(s, '\n', k);
}

pub proof fn lemma_lines_last(s: Seq<char>)
    requires
        s.len() > 0,
        forall|j: int| 0 <= j < s.len() ==> s[j] != '\n',
    ensures
        lines(s) == seq![s],
{
    lemma_find_char(s, '\n', s.len() as int);
}

/// `trim_start` drops a prefix.
pub proof fn lemma_trim_start_suffix(s: Seq<char>) -> (k: int)
    ensures
        0 <= k <= s.len(),
        trim_start(s) == s.skip(k),
    decreases s.len(),
{
    if s.len() > 0 && is_ws(s[0]) {
        let k = lemma_trim_start_suffix(s.drop_first());
        assert(s.drop_first().skip(k) =~= s.skip(k + 1));
        k + 1
    } else {
        assert(s.skip(0) =~= s);
        0
    }
}

/// Trimming keeps only characters of the text.
pub proof fn lemma_trim_within(s: Seq<char>, c: char)
    requires
        !s.contains(c),
    ensures
        !trim(s).contains(c),
{
    let k = lemma_trim_start_suffix(s);
    let t = s.skip(k);
    lemma_trim_ends(t);
    if trim(s).contains(c) {
        let j = choose|j: int| 0 <= j < trim(s).len() && trim(s)[j] == c;
        assert(t[j] == s[k + j]);
    }
}

/// No line of a text holds a line break.
pub proof fn lemma_lines_single(s: Seq<char>)
    ensures
        forall|i: int| 0 <= i < lines(s).len() ==> !(#[trigger] lines(s)[i]).contains('\n'),
    decreases s.len(),
{
    if s.len() > 0 {
        match find(s, seq!['\n']) {
            Some(i) => {
                let k = choose|k: int| first_at(s, seq!['\n'], k);
                assert(first_at(s, seq!['\n'], k));
                assert(i == k);
                lemma_occurs_single(s, '\n', i);
                if 0 <= i < s.len() {
                    let head = s.take(i);
                    assert(!head.contains('\n')) by {
                        if head.contains('\n') {
                            let j = choose|j: int| 0 <= j < head.len() && head[j] == '\n';
                            lemma_occurs_single(s, '\n', j);
                        }
                    }
                    assert(!strip_cr(head).contains('\n')) by {
                        if strip_cr(head).contains('\n') {
                            let j = choose|j: int|
                                0 <= j < strip_cr(head).len() && strip_cr(head)[j] == '\n';
                            assert(head[j] == '\n');
                        }
                    }
                    lemma_lines_single(s.skip(i + 1));
                    let ls = lines(s);
                    assert forall|t: int| 0 <= t < ls.len() implies !(#[trigger] ls[t]).contains(
                        '\n',
                    ) by {
                        if t > 0 {
                            assert(ls[t] == lines(s.skip(i + 1))[t - 1]);
                        }
                    }
                }
            },
            None => {
                assert(!s.contains('\n')) by {
                    if s.contains('\n') {
                        let j = choose|j: int| 0 <= j < s.len() && s[j] == '\n';
                        lemma_occurs_single(s, '\n', j);
                        lemma_find_some(s, seq!['\n'], j);
                    }
                }
            },
        }
    }
}

/// The first line break of a text that has one.
pub proof fn lemma_first_newline(s: Seq<char>) -> (i: int)
    requires
        s.contains('\n'),
    ensures
        0 <= i < s.len(),
        s[i] == '\n',
        forall|j: int| 0 <= j < i ==> s[j] != '\n',
{
    let j0 = choose|j: int| 0 <= j < s.len() && s[j] == '\n';
    lemma_occurs_single(s, '\n', j0);
    lemma_find_some(s, seq!['\n'], j0);
    let i = find(s, seq!['\n'])->0;
    let k = choose|k: int| first_at(s, seq!['\n'], k);
    assert(first_at(s, seq!['\n'], k));
    lemma_occurs_single(s, '\n', i);
    assert forall|j: int| 0 <= j < i implies s[j] != '\n' by {
        lemma_occurs_single(s, '\n', j);
    }
    i
}

/// The lines of a text whose last line is ended are its lines, then those
/// of what follows.
pub proof fn lemma_lines_concat(a: Seq<char>, b: Seq<char>)
    requires
        a.len() == 0 || a.last() == '\n',
    ensures
        lines(a + b) == lines(a) + lines(b),
    decreases a.len(),
{
    if a.len() == 0 {
        assert(a + b =~= b);
        assert(lines(a) =~= Seq::<Seq<char>>::empty());
        assert(Seq::<Seq<char>>::empty() + lines(b) =~= lines(b));
    } else {
        assert(a.contains('\n')) by {
            assert(a[a.len() - 1] == '\n');
        }
        let i = lemma_first_newline(a);
        let ab = a + b;
        assert forall|j: int| 0 <= j < i implies ab[j] != '\n' by {
            assert(ab[j] == a[j]);
        }
        assert(ab[i] == '\n');
        lemma_lines_step(a, i);
        lemma_lines_step(ab, i);
        assert(ab.take(i) =~= a.take(i));
        let rest = a.skip(i + 1);
        assert(ab.skip(i + 1) =~= rest + b);
        if rest.len() > 0 {
            assert(rest.last() == a.last());
        }
        lemma_lines_concat(rest, b);
        assert(seq![strip_cr(a.take(i))] + (lines(rest) + lines(b)) =~= seq![strip_cr(a.take(i))]
            + lines(rest) + lines(b));
    }
}

/// A trailing whitespace character makes no difference once trimmed.
pub proof fn lemma_trim_drop_ws(s: Seq<char>)
    requires
        s.len() > 0,
        is_ws(s.last()),
    ensures
        trim(s.drop_last()) == trim(s),
    decreases s.len(),
{
    if s.len() == 1 {
        assert(s.drop_last() =~= Seq::<char>::empty());
        assert(s.drop_first() =~= Seq::<char>::empty());
        assert(is_ws(s[0]));
    } else if is_ws(s[0]) {
        lemma_trim_drop_ws(s.drop_first());
        assert(s.drop_first().drop_last() =~= s.drop_last().drop_first());
        assert(s.drop_last()[0] == s[0]);
        assert(s.drop_first().last() == s.last());
    } else {
        assert(s.drop_last()[0] == s[0]);
    }
}

/// Texts in which a pattern stands at the same places find it at the same place.
pub proof fn lemma_find_same(s1: Seq<char>, s2: Seq<char>, pat: Seq<char>)
    requires
        forall|j: int| occurs_at(s1, pat, j) <==> occurs_at(s2, pat, j),
    ensures
        find(s1, pat) == find(s2, pat),
{
    if exists|i: int| first_at(s1, pat, i) {
        let i = choose|i: int| first_at(s1, pat, i);
        lemma_find_first(s1, pat, i);
        lemma_find_first(s2, pat, i);
    } else {
        assert forall|i: int| !first_at(s2, pat, i) by {
            assert(!first_at(s1, pat, i));
        }
    }
}

/// A character after the text that cannot end the pattern changes where
/// it stands in no way.
pub proof fn lemma_occurs_push(x: Seq<char>, c: char, pat: Seq<char>)
    requires
        pat.len() > 0,
        pat.last() != c,
    ensures
        forall|j: int| occurs_at(x.push(c), pat, j) <==> occurs_at(x, pat, j),
{
    assert forall|j: int| occurs_at(x.push(c), pat, j) <==> occurs_at(x, pat, j) by {
        let y = x.push(c);
        if occurs_at(y, pat, j) {
            if j + pat.len() == y.len() {
                assert(y.subrange(j, j + pat.len()).last() == c);
            }
            assert(y.subrange(j, j + pat.len()) =~= x.subrange(j, j + pat.len()));
        }
        if occurs_at(x, pat, j) {
            assert(y.subrange(j, j + pat.len()) =~= x.subrange(j, j + pat.len()));
        }
    }
}

/// A trailing `\r` makes no difference to what precedes ` #`, once trimmed.
pub proof fn lemma_before_cr(x: Seq<char>)
    ensures
        trim(before(x.push('\r'), " #"@)) == trim(before(x, " #"@)),
{
    reveal_strlit(" #");
    let y = x.push('\r');
    lemma_occurs_push(x, '\r', " #"@);
    lemma_find_same(y, x, " #"@);
    match find(x, " #"@) {
        Some(i) => {
            let k = choose|k: int| first_at(x, " #"@, k);
            assert(first_at(x, " #"@, k));
            assert(y.take(i) =~= x.take(i));
        },
        None => {
            assert(y.drop_last() =~= x);
            lemma_trim_drop_ws(y);
        },
    }
}

pub proof fn lemma_lex_le_total()
    ensures
        vstd::relations::total_ordering(|a: Seq<char>, b: Seq<char>| lex_le(a, b)),
{
    let leq = |a: Seq<char>, b: Seq<char>| lex_le(a, b);
    assert forall|a: Seq<char>| #[trigger] leq(a, a) by {
        lemma_lex_refl(a);
    }
    assert forall|a: Seq<char>, b: Seq<char>| #[trigger] leq(a, b) && #[trigger] leq(b, a) implies a
        == b by {
        lemma_lex_antisym(a, b);
    }
    assert forall|a: Seq<char>, b: Seq<char>, c: Seq<char>| #[trigger] leq(a, b) && #[trigger] leq(
        b,
        c,
    ) implies leq(a, c) by {
        lemma_lex_trans(a, b, c);
    }
    assert forall|a: Seq<char>, b: Seq<char>| #[trigger] leq(a, b) || #[trigger] leq(b, a) by {
        lemma_lex_connected(a, b);
    }
}

pub proof fn lemma_lex_refl(a: Seq<char>)
    ensures
        lex_le(a, a),
    decreases a.len(),
{
    if a.len() > 0 {
        lemma_lex_refl(a.drop_first());
    }
}

pub proof fn lemma_lex_antisym(a: Seq<char>, b: Seq<char>)
    requires
        lex_le(a, b),
        lex_le(b, a),
    ensures
        a == b,
    decreases a.len(),
{
    if a.len() > 0 && b.len() > 0 {
        lemma_lex_antisym(a.drop_first(), b.drop_first());
        assert(a =~= seq![a[0]] + a.drop_first());
        assert(b =~= seq![b[0]] + b.drop_first());
    } else {
        assert(a =~= b);
    }
}

pub proof fn lemma_lex_trans(a: Seq<char>, b: Seq<char>, c: Seq<char>)
    requires
        lex_le(a, b),
        lex_le(b, c),
    ensures
        lex_le(a, c),
    decreases a.len(),
{
    if a.len() > 0 && b.len() > 0 && c.len() > 0 {
        if a[0] == b[0] && b[0] == c[0] {
            lemma_lex_trans(a.drop_first(), b.drop_first(), c.drop_first());
        }
    }
}

pub proof fn lemma_lex_connected(a: Seq<char>, b: Seq<char>)
    ensures
        lex_le(a, b) || lex_le(b, a),
    decreases a.len(),
{
    if a.len() > 0 && b.len() > 0 && a[0] == b[0] {
        lemma_lex_connected(a.drop_first(), b.drop_first());
    }
}

// ---------------------------------------------------------------------------
// Executable routines
// ---------------------------------------------------------------------------

/// The characters of `s`.
pub fn chars_of(s: &str) -> (v: Vec<char>)
    ensures
        v@ == s@,
{
    let mut v: Vec<char> = Vec::new();
    for c in it: s.chars()
        invariant
            v@ == it.seq().take(it.index() as int),
            it.seq() == s@,
    {
        v.push(c);
    }
    v
}

/// `v` appended to `out`.
pub fn push_chars(out: &mut String, v: &[char])
    ensures
        final(out)@ == old(out)@ + v@,
{
    let mut i: usize = 0;
    while i < v.len()
        invariant
            i <= v.len(),
            out@ == old(out)@ + v@.take(i as int),
        decreases v.len() - i,
    {
        out.push(v[i]);
        assert(v@.take(i as int + 1) =~= v@.take(i as int).push(v@[i as int]));
        i += 1;
    }
    assert(v@.take(v.len() as int) =~= v@);
}

/// The string of the characters of `v`.
pub fn string_of(v: &[char]) -> (s: String)
    ensures
        s@ == v@,
{
    let mut s = String::new();
    push_chars(&mut s, v);
    s
}

/// `s` appended to `out`.
pub fn push_str(out: &mut String, s: &str)
    ensures
        final(out)@ == old(out)@ + s@,
{
    out.append(s);
}

/// The characters of `v` from `lo` to `hi`.
pub fn copy_range(v: &[char], lo: usize, hi: usize) -> (r: Vec<char>)
    requires
        lo <= hi <= v@.len(),
    ensures
        r@ == v@.subrange(lo as int, hi as int),
{
    let mut r: Vec<char> = Vec::new();
    let mut i = lo;
    while i < hi
        invariant
            lo <= i <= hi <= v@.len(),
            r@ == v@.subrange(lo as int, i as int),
        decreases hi - i,
    {
        r.push(v[i]);
        assert(v@.subrange(lo as int, i as int + 1) =~= v@.subrange(lo as int, i as int).push(
            v@[i as int],
        ));
        i += 1;
    }
    r
}

/// Whether `a` and `b` hold the same characters.
pub fn same_chars(a: &[char], b: &[char]) -> (r: bool)
    ensures
        r == (a@ == b@),
{
    if a.len() != b.len() {
        return false;
    }
    let mut i: usize = 0;
    while i < a.len()
        invariant
            a@.len() == b@.len(),
            i <= a@.len(),
            forall|j: int| 0 <= j < i ==> a@[j] == b@[j],
        decreases a.len() - i,
    {
        if a[i] != b[i] {
            return false;
        }
        i += 1;
    }
    assert(a@ =~= b@);
    true
}

/// Whether the text `a` is the string `b`.
pub fn is_text(a: &[char], b: &str) -> (r: bool)
    ensures
        r == (a@ == b@),
{
    let bv = chars_of(b);
    same_chars(a, bv.as_slice())
}

/// Whether `pat` stands in `s` at `i`.
pub fn occurs_at_exec(s: &[char], pat: &[char], i: usize) -> (r: bool)
    ensures
        r == occurs_at(s@, pat@, i as int),
{
    let n = s.len();
    if i > n || pat.len() > n - i {
        return false;
    }
    let mut j: usize = 0;
    while j < pat.len()
        invariant
            n == s@.len(),
            i + pat@.len() <= s@.len(),
            i <= s@.len(),
            j <= pat@.len(),
            forall|k: int| 0 <= k < j ==> s@[i + k] == pat@[k],
        decreases pat.len() - j,
    {
        if s[i + j] != pat[j] {
            assert(s@.subrange(i as int, i + pat@.len())[j as int] == s@[i + j]);
            return false;
        }
        j += 1;
    }
    assert(s@.subrange(i as int, i + pat@.len()) =~= pat@);
    true
}

/// `str::find`: where `pat` first stands in `s`.
pub fn find_exec(s: &[char], pat: &[char]) -> (r: Option<usize>)
    ensures
        r matches Some(k) ==> find(s@, pat@) == Some(k as int),
        r is None ==> find(s@, pat@) is None,
{
    let mut i: usize = 0;
    while i < s.len()
        invariant
            i <= s@.len(),
            forall|j: int| 0 <= j < i ==> !occurs_at(s@, pat@, j),
        decreases s.len() - i,
    {
        if occurs_at_exec(s, pat, i) {
            proof {
                lemma_find_first(s@, pat@, i as int);
            }
            return Some(i);
        }
        i += 1;
    }
    if occurs_at_exec(s, pat, i) {
        proof {
            lemma_find_first(s@, pat@, i as int);
        }
        return Some(i);
    }
    proof {
        assert forall|j: int| !occurs_at(s@, pat@, j) by {
            if 0 <= j < i {
            }
        }
        lemma_find_none(s@, pat@);
    }
    None
}

/// Where the character `c` first stands in `s`.
pub fn find_char_exec(s: &[char], c: char) -> (r: Option<usize>)
    ensures
        r matches Some(k) ==> find(s@, seq![c]) == Some(k as int) && k < s@.len() && s@[k as int]
            == c,
        r is None ==> find(s@, seq![c]) is None,
        r is None <==> !s@.contains(c),
{
    let mut i: usize = 0;
    while i < s.len()
        invariant
            i <= s@.len(),
            forall|j: int| 0 <= j < i ==> s@[j] != c,
        decreases s.len() - i,
    {
        if s[i] == c {
            proof {
                lemma_find_char(s@, c, i as int);
            }
            return Some(i);
        }
        i += 1;
    }
    proof {
        lemma_find_char(s@, c, i as int);
    }
    None
}

/// `str::trim`.
pub fn trim_exec(s: &[char]) -> (r: Vec<char>)
    ensures
        r@ == trim(s@),
{
    let mut lo: usize = 0;
    while lo < s.len() && is_ws_exec(s[lo])
        invariant
            lo <= s@.len(),
            forall|j: int| 0 <= j < lo ==> is_ws(s@[j]),
        decreases s.len() - lo,
    {
        lo += 1;
    }
    let mut hi: usize = s.len();
    while hi > lo && is_ws_exec(s[hi - 1])
        invariant
            lo <= hi <= s@.len(),
            forall|j: int| hi <= j < s@.len() ==> is_ws(s@[j]),
        decreases hi,
    {
        hi -= 1;
    }
    let r = copy_range(s, lo, hi);
    proof {
        let t = s@.skip(lo as int);
        lemma_trim_start_skip(s@, lo as int);
        // what is left starts with no whitespace, or is empty
        if lo < s@.len() {
            assert(!is_ws(t[0]));
        } else {
            assert(t.len() == 0);
        }
        assert(trim_start(t) == t);
        lemma_trim_end_take(t, hi - lo);
        assert(t.take(hi - lo) =~= s@.subrange(lo as int, hi as int));
        let u = s@.subrange(lo as int, hi as int);
        if u.len() > 0 {
            assert(!is_ws(u.last()));
        }
        assert(trim_end(u) == u);
    }
    r
}

/// `char::is_whitespace`.
pub fn is_ws_exec(c: char) -> (r: bool)
    ensures
        r == is_ws(c),
{
    ('\t' <= c && c <= '\r') || c == ' ' || c == '\u{85}' || c == '\u{A0}' || c == '\u{1680}' || (
    '\u{2000}' <= c && c <= '\u{200A}') || c == '\u{2028}' || c == '\u{2029}' || c == '\u{202F}'
        || c == '\u{205F}' || c == '\u{3000}'
}

/// The line of `t` that starts at `pos`, and where the next one starts.
pub fn next_line(t: &[char], pos: usize) -> (r: (Vec<char>, usize))
    requires
        pos < t@.len(),
    ensures
        pos < r.1 <= t@.len(),
        lines(t@.skip(pos as int)) == seq![r.0@] + lines(t@.skip(r.1 as int)),
{
    let mut j = pos;
    while j < t.len() && t[j] != '\n'
        invariant
            pos <= j <= t@.len(),
            forall|k: int| pos <= k < j ==> t@[k] != '\n',
        decreases t.len() - j,
    {
        j += 1;
    }
    let ghost u = t@.skip(pos as int);
    if j < t.len() {
        let mut end = j;
        if end > pos && t[end - 1] == '\r' {
            end -= 1;
        }
        let line = copy_range(t, pos, end);
        proof {
            lemma_lines_step(u, j - pos);
            assert(u.skip(j - pos + 1) =~= t@.skip(j + 1));
            assert(strip_cr(u.take(j - pos)) =~= line@);
        }
        (line, j + 1)
    } else {
        let line = copy_range(t, pos, j);
        proof {
            lemma_lines_last(u);
            assert(u =~= line@);
            assert(t@.skip(j as int).len() == 0);
        }
        (line, j)
    }
}

/// The piece of `t` from `pos` to the next `c`, where the next piece starts,
/// and whether there is one (a `c` ended this piece).
pub fn next_piece(t: &[char], pos: usize, c: char) -> (r: (Vec<char>, usize, bool))
    requires
        pos <= t@.len(),
    ensures
        r.1 <= t@.len(),
        r.2 ==> pos < r.1 && split_char(t@.skip(pos as int), c) == seq![r.0@] + split_char(
            t@.skip(r.1 as int),
            c,
        ),
        !r.2 ==> split_char(t@.skip(pos as int), c) == seq![r.0@],
{
    let mut j = pos;
    while j < t.len() && t[j] != c
        invariant
            pos <= j <= t@.len(),
            forall|k: int| pos <= k < j ==> t@[k] != c,
        decreases t.len() - j,
    {
        j += 1;
    }
    let ghost u = t@.skip(pos as int);
    let piece = copy_range(t, pos, j);
    proof {
        lemma_find_char(u, c, j - pos);
        assert(u.take(j - pos) =~= piece@);
        if j < t@.len() {
            assert(u.skip(j - pos + 1) =~= t@.skip(j + 1));
        } else {
            assert(u =~= piece@);
        }
    }
    if j < t.len() {
        (piece, j + 1, true)
    } else {
        (piece, j, false)
    }
}

/// `v` appended to `out` with each `c` replaced by `r`.
pub fn push_replaced(out: &mut String, v: &[char], c: char, r: &str)
    ensures
        final(out)@ == old(out)@ + replace_char(v@, c, r@),
{
    let ghost f = replacing(c, r@);
    let mut i: usize = 0;
    while i < v.len()
        invariant
            i <= v.len(),
            f == replacing(c, r@),
            out@ == old(out)@ + map_chars(v@.take(i as int), f),
        decreases v.len() - i,
    {
        let x = v[i];
        if x == c {
            out.append(r);
        } else {
            out.push(x);
        }
        proof {
            assert(v@.take(i as int + 1) =~= v@.take(i as int).push(x));
            lemma_map_chars_push(v@.take(i as int), x, f);
            assert(out@ =~= old(out)@ + map_chars(v@.take(i as int + 1), f));
        }
        i += 1;
    }
    assert(v@.take(v.len() as int) =~= v@);
}

/// The characters of `v` with each `c` replaced by `r`.
pub fn replaced(v: &[char], c: char, r: &str) -> (res: Vec<char>)
    ensures
        res@ == replace_char(v@, c, r@),
{
    let s = {
        let mut s = String::new();
        push_replaced(&mut s, v, c, r);
        s
    };
    chars_of(s.as_str())
}

/// The decimal digit for `d`.
fn digit_exec(d: usize) -> (c: char)
    requires
        d < 10,
    ensures
        c == digit(d as nat),
{
    if d == 0 { '0' }
    else if d == 1 { '1' }
    else if d == 2 { '2' }
    else if d == 3 { '3' }
    else if d == 4 { '4' }
    else if d == 5 { '5' }
    else if d == 6 { '6' }
    else if d == 7 { '7' }
    else if d == 8 { '8' }
    else { '9' }
}

/// `n` written in decimal, appended to `out`.
pub fn push_decimal(out: &mut String, n: usize)
    ensures
        final(out)@ == old(out)@ + decimal(n as nat),
    decreases n,
{
    if n < 10 {
        out.push(digit_exec(n));
    } else {
        push_decimal(out, n / 10);
        out.push(digit_exec(n % 10));
        assert(out@ =~= old(out)@ + decimal(n as nat));
    }
}

/// `a <= b` in the order of `String`.
pub fn lex_le_exec(a: &[char], b: &[char]) -> (r: bool)
    ensures
        r == lex_le(a@, b@),
{
    let mut i: usize = 0;
    assert(a@.skip(0) =~= a@ && b@.skip(0) =~= b@);
    while i < a.len() && i < b.len() && a[i] == b[i]
        invariant
            i <= a@.len(),
            i <= b@.len(),
            lex_le(a@, b@) == lex_le(a@.skip(i as int), b@.skip(i as int)),
        decreases a.len() - i,
    {
        proof {
            let (x, y) = (a@.skip(i as int), b@.skip(i as int));
            assert(x.drop_first() =~= a@.skip(i + 1));
            assert(y.drop_first() =~= b@.skip(i + 1));
        }
        i += 1;
    }
    if i == a.len() {
        true
    } else if i == b.len() {
        false
    } else {
        a[i] < b[i]
    }
}


/// Whether `name` is one of `names`.
pub fn has_name(names: &Vec<String>, name: &str) -> (r: bool)
    ensures
        r == views(names@).contains(name@),
{
    let n = chars_of(name);
    let mut i: usize = 0;
    while i < names.len()
        invariant
            i <= names@.len(),
            n@ == name@,
            forall|j: int| 0 <= j < i ==> names@[j]@ != name@,
        decreases names.len() - i,
    {
        if is_text(n.as_slice(), names[i].as_str()) {
            assert(views(names@)[i as int] == name@);
            return true;
        }
        i += 1;
    }
    proof {
        if views(names@).contains(name@) {
            let j = choose|j: int| 0 <= j < views(names@).len() && views(names@)[j] == name@;
            assert(names@[j]@ == name@);
        }
    }
    false
}

} // verus!
