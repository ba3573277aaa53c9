//! The order in which `list` and `upgrade` go through packages: that of
//! `String`, and of a pair of `String`s by its first then its second.

use vstd::prelude::*;
use vstd::relations::{sorted_by, total_ordering};
use vstd::multiset::Multiset;
use crate::text::{
    chars_of, lemma_lex_antisym, lemma_lex_connected, lemma_lex_le_total, lemma_lex_refl,
    lemma_lex_trans, lex_le, lex_le_exec, views,
};

verus! {

broadcast use {vstd::seq_lib::group_to_multiset_ensures, vstd::multiset::group_multiset_axioms};

/// `String`'s order, as a relation on texts.
pub open spec fn text_le() -> spec_fn(Seq<char>, Seq<char>) -> bool {
    |a: Seq<char>, b: Seq<char>| lex_le(a, b)
}

/// The order of `(String, String)`: the first, then the second.
pub open spec fn row_le(a: (Seq<char>, Seq<char>), b: (Seq<char>, Seq<char>)) -> bool {
    if a.0 == b.0 {
        lex_le(a.1, b.1)
    } else {
        lex_le(a.0, b.0)
    }
}

pub open spec fn row_leq() -> spec_fn((Seq<char>, Seq<char>), (Seq<char>, Seq<char>)) -> bool {
    |a: (Seq<char>, Seq<char>), b: (Seq<char>, Seq<char>)| row_le(a, b)
}

/// The rows' texts, in order.
pub open spec fn row_views(v: Seq<(String, String)>) -> Seq<(Seq<char>, Seq<char>)> {
    v.map_values(|r: (String, String)| (r.0@, r.1@))
}

pub proof fn lemma_row_le_total()
    ensures
        total_ordering(row_leq()),
{
    let leq = row_leq();
    assert forall|a: (Seq<char>, Seq<char>)| #[trigger] leq(a, a) by {
        lemma_lex_refl(a.1);
    }
    assert forall|a: (Seq<char>, Seq<char>), b: (Seq<char>, Seq<char>)| #[trigger]
        leq(a, b) && #[trigger] leq(b, a) implies a == b by {
        if a.0 == b.0 {
            lemma_lex_antisym(a.1, b.1);
        } else {
            lemma_lex_antisym(a.0, b.0);
        }
    }
    assert forall|
        a: (Seq<char>, Seq<char>),
        b: (Seq<char>, Seq<char>),
        c: (Seq<char>, Seq<char>),
    | #[trigger] leq(a, b) && #[trigger] leq(b, c) implies leq(a, c) by {
        if a.0 == b.0 && b.0 == c.0 {
            lemma_lex_trans(a.1, b.1, c.1);
        } else if a.0 == b.0 {
            assert(lex_le(a.0, c.0));
        } else if b.0 == c.0 {
            assert(lex_le(a.0, c.0));
        } else {
            lemma_lex_trans(a.0, b.0, c.0);
            if a.0 == c.0 {
                lemma_lex_antisym(a.0, b.0);
            }
        }
    }
    assert forall|a: (Seq<char>, Seq<char>), b: (Seq<char>, Seq<char>)| #[trigger]
        leq(a, b) || #[trigger] leq(b, a) by {
        if a.0 == b.0 {
            lemma_lex_connected(a.1, b.1);
        } else {
            lemma_lex_connected(a.0, b.0);
        }
    }
}

/// Where `x` goes in the sorted `s`: after every element at or below it.
proof fn lemma_insert_sorted<A>(s: Seq<A>, j: int, x: A, leq: spec_fn(A, A) -> bool)
    requires
        total_ordering(leq),
        sorted_by(s, leq),
        0 <= j <= s.len(),
        forall|k: int| 0 <= k < j ==> leq(#[trigger] s[k], x),
        j < s.len() ==> !leq(s[j], x),
    ensures
        sorted_by(s.insert(j, x), leq),
{
    let t = s.insert(j, x);
    assert forall|a: int, b: int| 0 <= a < b < t.len() implies #[trigger] leq(t[a], t[b]) by {
        if b < j {
            assert(t[a] == s[a] && t[b] == s[b]);
        } else if b == j {
            assert(t[a] == s[a]);
        } else if a == j {
            assert(t[b] == s[b - 1]);
            assert(leq(x, s[j])) by {
                assert(leq(s[j], x) || leq(x, s[j]));
            }
            if b - 1 > j {
                assert(leq(s[j], s[b - 1]));
            }
        } else if a < j {
            assert(t[a] == s[a] && t[b] == s[b - 1]);
        } else {
            assert(t[a] == s[a - 1] && t[b] == s[b - 1]);
        }
    }
}

/// The sorted permutation of `s` is the one `sort_by` gives.
proof fn lemma_is_sort_by<A>(r: Seq<A>, s: Seq<A>, leq: spec_fn(A, A) -> bool)
    requires
        total_ordering(leq),
        sorted_by(r, leq),
        r.to_multiset() == s.to_multiset(),
    ensures
        r == s.sort_by(leq),
{
    s.lemma_sort_by_ensures(leq);
    vstd::seq_lib::lemma_sorted_unique(r, s.sort_by(leq), leq);
}

/// `names` in `String`'s order.
pub fn sort_names(names: Vec<String>) -> (r: Vec<String>)
    ensures
        views(r@) == views(names@).sort_by(text_le()),
{
    let ghost leq = text_le();
    proof {
        lemma_lex_le_total();
    }
    let ghost all = views(names@);
    let mut rest = names;
    let mut out: Vec<String> = Vec::new();
    assert(views(out@) =~= Seq::<Seq<char>>::empty());
    while rest.len() > 0
        invariant
            leq == text_le(),
            total_ordering(leq),
            sorted_by(views(out@), leq),
            views(out@).to_multiset().add(views(rest@).to_multiset()) == all.to_multiset(),
        decreases rest.len(),
    {
        let ghost before = rest@;
        let x = rest.pop().unwrap();
        proof {
            assert(views(before) =~= views(rest@).push(x@));
        }
        let xc = chars_of(x.as_str());
        let mut j: usize = 0;
        let mut go = true;
        while go && j < out.len()
            invariant
                j <= out@.len(),
                leq == text_le(),
                xc@ == x@,
                forall|k: int| 0 <= k < j ==> leq(#[trigger] views(out@)[k], x@),
                !go ==> j < out@.len() && !leq(views(out@)[j as int], x@),
            decreases out.len() - j + if go { 1int } else { 0int },
        {
            let oc = chars_of(out[j].as_str());
            if lex_le_exec(oc.as_slice(), xc.as_slice()) {
                j += 1;
            } else {
                go = false;
            }
        }
        let ghost old_out = views(out@);
        proof {
            if j < out@.len() {
                assert(old_out[j as int] == out@[j as int]@);
            }
            lemma_insert_sorted(old_out, j as int, x@, leq);
        }
        out.insert(j, x);
        proof {
            assert(views(out@) =~= old_out.insert(j as int, x@));
            vstd::seq_lib::to_multiset_insert(old_out, j as int, x@);
            vstd::seq_lib::to_multiset_build(views(rest@), x@);
            assert(views(out@).to_multiset().add(views(rest@).to_multiset()) =~= old_out.to_multiset().add(
                views(before).to_multiset(),
            ));
        }
    }
    proof {
        assert(views(rest@) =~= Seq::<Seq<char>>::empty());
        vstd::multiset::lemma_multiset_empty_len(views(rest@).to_multiset());
        assert(views(out@).to_multiset().add(Multiset::empty()) =~= views(out@).to_multiset());
        lemma_is_sort_by(views(out@), all, leq);
    }
    out
}

/// `(a, b) <= (c, d)` in the order of pairs of `String`s.
fn row_le_exec(a: &(String, String), b: &(String, String)) -> (r: bool)
    ensures
        r == row_le((a.0@, a.1@), (b.0@, b.1@)),
{
    let a0 = chars_of(a.0.as_str());
    let b0 = chars_of(b.0.as_str());
    if crate::text::same_chars(a0.as_slice(), b0.as_slice()) {
        let a1 = chars_of(a.1.as_str());
        let b1 = chars_of(b.1.as_str());
        lex_le_exec(a1.as_slice(), b1.as_slice())
    } else {
        lex_le_exec(a0.as_slice(), b0.as_slice())
    }
}

/// `rows` in the order of pairs of `String`s.
pub fn sort_rows(rows: Vec<(String, String)>) -> (r: Vec<(String, String)>)
    ensures
        row_views(r@) == row_views(rows@).sort_by(row_leq()),
{
    let ghost leq = row_leq();
    proof {
        lemma_row_le_total();
    }
    let ghost all = row_views(rows@);
    let mut rest = rows;
    let mut out: Vec<(String, String)> = Vec::new();
    assert(row_views(out@) =~= Seq::<(Seq<char>, Seq<char>)>::empty());
    while rest.len() > 0
        invariant
            leq == row_leq(),
            total_ordering(leq),
            sorted_by(row_views(out@), leq),
            row_views(out@).to_multiset().add(row_views(rest@).to_multiset()) == all.to_multiset(),
        decreases rest.len(),
    {
        let ghost before = rest@;
        let x = rest.pop().unwrap();
        let ghost xv = (x.0@, x.1@);
        proof {
            assert(row_views(before) =~= row_views(rest@).push(xv));
        }
        let mut j: usize = 0;
        let mut go = true;
        while go && j < out.len()
            invariant
                j <= out@.len(),
                leq == row_leq(),
                xv == (x.0@, x.1@),
                forall|k: int| 0 <= k < j ==> leq(#[trigger] row_views(out@)[k], xv),
                !go ==> j < out@.len() && !leq(row_views(out@)[j as int], xv),
            decreases out.len() - j + if go { 1int } else { 0int },
        {
            if row_le_exec(&out[j], &x) {
                j += 1;
            } else {
                go = false;
            }
        }
        let ghost old_out = row_views(out@);
        proof {
            if j < out@.len() {
                assert(old_out[j as int] == (out@[j as int].0@, out@[j as int].1@));
            }
            lemma_insert_sorted(old_out, j as int, xv, leq);
        }
        out.insert(j, x);
        proof {
            assert(row_views(out@) =~= old_out.insert(j as int, xv));
            vstd::seq_lib::to_multiset_insert(old_out, j as int, xv);
            vstd::seq_lib::to_multiset_build(row_views(rest@), xv);
            assert(row_views(out@).to_multiset().add(row_views(rest@).to_multiset())
                =~= old_out.to_multiset().add(row_views(before).to_multiset()));
        }
    }
    proof {
        assert(row_views(rest@) =~= Seq::<(Seq<char>, Seq<char>)>::empty());
        vstd::multiset::lemma_multiset_empty_len(row_views(rest@).to_multiset());
        assert(row_views(out@).to_multiset().add(Multiset::empty()) =~= row_views(
            out@,
        ).to_multiset());
        lemma_is_sort_by(row_views(out@), all, leq);
    }
    out
}

} // verus!
