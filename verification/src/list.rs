//! Sequences with one value taken out.

use crate::text::{same_text, texts};
use vstd::prelude::*;

verus! {

/// `s` without every occurrence of `x`; what stays keeps its order.
pub open spec fn without<A>(s: Seq<A>, x: A) -> Seq<A>
    decreases s.len(),
{
    if s.len() == 0 {
        s
    } else if s.last() == x {
        without(s.drop_last(), x)
    } else {
        without(s.drop_last(), x).push(s.last())
    }
}

/// Taking `x` out removes `x` and nothing else, and adds nothing.
pub proof fn lemma_without<A>(s: Seq<A>, x: A)
    ensures
        without(s, x).len() <= s.len(),
        forall|y: A| #[trigger] without(s, x).contains(y) <==> (s.contains(y) && y != x),
        s.no_duplicates() ==> without(s, x).no_duplicates(),
        !s.contains(x) ==> without(s, x) == s,
    decreases s.len(),
{
    if s.len() > 0 {
        let front = s.drop_last();
        let rest = without(front, x);
        lemma_without(front, x);
        assert forall|y: A| #[trigger] without(s, x).contains(y) <==> (s.contains(y) && y != x) by {
            if s.contains(y) {
                let i = choose|i: int| 0 <= i < s.len() && s[i] == y;
                if i < s.len() - 1 {
                    assert(front[i] == y);
                }
            }
            if s.last() != x {
                assert(rest.push(s.last())[rest.len() as int] == s.last());
                if rest.contains(y) {
                    let j = choose|j: int| 0 <= j < rest.len() && rest[j] == y;
                    assert(rest.push(s.last())[j] == y);
                }
            }
        }
        if s.no_duplicates() {
            if s.last() != x {
                assert(!front.contains(s.last()));
                assert(!rest.contains(s.last()));
            }
        }
        if !s.contains(x) {
            assert(!front.contains(x));
        }
    }
}

/// Whether `x` occurs in `v`.
pub fn has_number(v: &Vec<usize>, x: usize) -> (b: bool)
    ensures
        b == v@.contains(x),
{
    let mut i: usize = 0;
    while i < v.len()
        invariant
            i <= v.len(),
            forall|j: int| 0 <= j < i ==> v@[j] != x,
        decreases v.len() - i,
    {
        if v[i] == x {
            return true;
        }
        i = i + 1;
    }
    false
}

/// `v` without every occurrence of `x`.
pub fn remove_number(v: &Vec<usize>, x: usize) -> (out: Vec<usize>)
    ensures
        out@ == without(v@, x),
{
    let mut out: Vec<usize> = Vec::new();
    let mut i: usize = 0;
    while i < v.len()
        invariant
            i <= v.len(),
            out@ == without(v@.take(i as int), x),
        decreases v.len() - i,
    {
        assert(v@.take(i + 1).drop_last() =~= v@.take(i as int));
        if v[i] != x {
            out.push(v[i]);
        }
        i = i + 1;
    }
    assert(v@.take(v.len() as int) =~= v@);
    out
}

/// Whether `x` is among `v`.
pub fn has_text(v: &Vec<String>, x: &str) -> (b: bool)
    ensures
        b == texts(v@).contains(x@),
{
    let mut i: usize = 0;
    while i < v.len()
        invariant
            i <= v.len(),
            forall|j: int| 0 <= j < i ==> texts(v@)[j] != x@,
        decreases v.len() - i,
    {
        if same_text(v[i].as_str(), x) {
            assert(texts(v@)[i as int] == x@);
            return true;
        }
        i = i + 1;
    }
    false
}

/// Takes every occurrence of `x` out of `v`.
pub fn remove_text(v: &mut Vec<String>, x: &str)
    ensures
        texts(final(v)@) == without(texts(old(v)@), x@),
{
    let ghost all = texts(v@);
    let ghost mut k: int = 0;
    let mut i: usize = 0;
    while i < v.len()
        invariant
            0 <= k <= all.len(),
            i == without(all.take(k), x@).len(),
            v.len() == i + (all.len() - k),
            texts(v@) == without(all.take(k), x@) + all.skip(k),
        decreases all.len() - k,
    {
        let ghost kept = without(all.take(k), x@);
        assert(all.take(k + 1).drop_last() =~= all.take(k));
        assert(texts(v@)[i as int] == all.skip(k)[0]);
        let ghost prev = texts(v@);
        if same_text(v[i].as_str(), x) {
            v.remove(i);
            assert(prev.remove(i as int) =~= kept + all.skip(k + 1));
        } else {
            i = i + 1;
        }
        proof {
            k = k + 1;
        }
    }
    assert(all.take(k) =~= all);
}

} // verus!
