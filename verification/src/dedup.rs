//! First-occurrence deduplication of a list of strings.

use vstd::prelude::*;
use crate::text::str_eq;

verus! {

/// The subsequence of `s` that keeps only the first occurrence of each value.
pub open spec fn dedup_first(s: Seq<Seq<char>>) -> Seq<Seq<char>>
    decreases s.len(),
{
    if s.len() == 0 {
        Seq::empty()
    } else if s.drop_last().contains(s.last()) {
        dedup_first(s.drop_last())
    } else {
        dedup_first(s.drop_last()).push(s.last())
    }
}

/// No value occurs twice.
pub open spec fn no_duplicates(s: Seq<Seq<char>>) -> bool {
    forall|i: int, j: int| 0 <= i < j < s.len() ==> s[i] != s[j]
}

/// Deduplication keeps exactly the values of the input.
pub proof fn lemma_dedup_first_contains(s: Seq<Seq<char>>, x: Seq<char>)
    ensures
        dedup_first(s).contains(x) <==> s.contains(x),
    decreases s.len(),
{
    if s.len() == 0 {
    } else {
        let sub = s.drop_last();
        lemma_dedup_first_contains(sub, x);
        lemma_dedup_first_contains(sub, s.last());
        let d = dedup_first(sub);
        // Membership in `s` is membership in the prefix or equality with the last value.
        if s.contains(x) {
            let i = choose|i: int| 0 <= i < s.len() && s[i] == x;
            if i < s.len() - 1 {
                assert(sub[i] == x);
                assert(sub.contains(x));
            } else {
                assert(x == s.last());
            }
        }
        if sub.contains(x) {
            let i = choose|i: int| 0 <= i < sub.len() && sub[i] == x;
            assert(s[i] == x);
            assert(s.contains(x));
        }
        // Membership in the deduplicated sequence, case by case on its shape.
        if dedup_first(s).contains(x) {
            if !sub.contains(s.last()) {
                let i = choose|i: int|
                    0 <= i < dedup_first(s).len() && dedup_first(s)[i] == x;
                if i < d.len() {
                    assert(d[i] == x);
                    assert(d.contains(x));
                } else {
                    assert(x == s.last());
                    assert(s[s.len() - 1] == x);
                }
            }
            assert(s.contains(x));
        }
        if s.contains(x) {
            if x == s.last() && !sub.contains(s.last()) {
                assert(dedup_first(s)[d.len() as int] == x);
            } else {
                assert(sub.contains(x));
                let i = choose|i: int| 0 <= i < d.len() && d[i] == x;
                if !sub.contains(s.last()) {
                    assert(dedup_first(s)[i] == x);
                }
            }
            assert(dedup_first(s).contains(x));
        }
    }
}

/// The result of deduplication has no duplicate values.
pub proof fn lemma_dedup_first_no_duplicates(s: Seq<Seq<char>>)
    ensures
        no_duplicates(dedup_first(s)),
    decreases s.len(),
{
    if s.len() == 0 {
    } else {
        let sub = s.drop_last();
        lemma_dedup_first_no_duplicates(sub);
        if !sub.contains(s.last()) {
            let d = dedup_first(sub);
            lemma_dedup_first_contains(sub, s.last());
            let r = d.push(s.last());
            assert forall|i: int, j: int| 0 <= i < j < r.len() implies r[i] != r[j] by {
                if j == d.len() {
                    if d[i] == s.last() {
                        assert(d.contains(s.last()));
                    }
                }
            }
        }
    }
}

/// A value whose first occurrence is last in the input stays last.
pub proof fn lemma_dedup_first_last(s: Seq<Seq<char>>)
    requires
        s.len() > 0,
        !s.drop_last().contains(s.last()),
    ensures
        dedup_first(s).len() > 0,
        dedup_first(s).last() == s.last(),
{
}

fn vec_contains(v: &Vec<String>, x: &str) -> (r: bool)
    ensures
        r == v.deep_view().contains(x@),
{
    let mut j: usize = 0;
    while j < v.len()
        invariant
            j <= v.len(),
            forall|k: int| 0 <= k < j ==> v.deep_view()[k] != x@,
        decreases v.len() - j,
    {
        if str_eq(v[j].as_str(), x) {
            proof {
                assert(v.deep_view()[j as int] == x@);
            }
            return true;
        }
        j = j + 1;
    }
    proof {
        if v.deep_view().contains(x@) {
            let k = choose|k: int| 0 <= k < v.deep_view().len() && v.deep_view()[k] == x@;
            assert(false);
        }
    }
    false
}

/// Remove every repeated value, keeping the first occurrence of each.
pub fn clear_duplicates(items: &Vec<String>) -> (r: Vec<String>)
    ensures
        r.deep_view() == dedup_first(items.deep_view()),
{
    let mut out: Vec<String> = Vec::new();
    let mut i: usize = 0;
    while i < items.len()
        invariant
            i <= items.len(),
            out.deep_view() == dedup_first(items.deep_view().subrange(0, i as int)),
        decreases items.len() - i,
    {
        let ghost prefix = items.deep_view().subrange(0, i as int);
        let ghost cur = items.deep_view()[i as int];
        let present = vec_contains(&out, items[i].as_str());
        proof {
            lemma_dedup_first_contains(prefix, cur);
            let ext = items.deep_view().subrange(0, i + 1);
            assert(ext.drop_last() =~= prefix);
            assert(ext.last() == cur);
        }
        if !present {
            out.push(items[i].clone());
            proof {
                assert(out.deep_view() =~= dedup_first(prefix).push(cur));
                assert(out.deep_view() =~= dedup_first(items.deep_view().subrange(0, i + 1)));
            }
        }
        i = i + 1;
    }
    proof {
        assert(items.deep_view().subrange(0, items.len() as int) =~= items.deep_view());
    }
    out
}

} // verus!
