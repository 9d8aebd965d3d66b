//! Literal substring search and replacement over character sequences.

use vstd::prelude::*;
use vstd::string::*;

verus! {

/// `k` occurs in `s` starting at index `i`.
pub open spec fn occurs_at(s: Seq<char>, k: Seq<char>, i: int) -> bool {
    0 <= i && i + k.len() <= s.len() && s.subrange(i, i + k.len()) == k
}

/// `k` occurs somewhere in `s` as a contiguous piece.
pub open spec fn contains(s: Seq<char>, k: Seq<char>) -> bool {
    exists|i: int| occurs_at(s, k, i)
}

/// Every occurrence of `k` in `s`, found left to right without overlap, replaced
/// by `v`. An empty `k` matches before every character and at the end.
pub open spec fn replace_all(s: Seq<char>, k: Seq<char>, v: Seq<char>) -> Seq<char>
    decreases s.len(),
{
    if k.len() == 0 {
        if s.len() == 0 {
            v
        } else {
            v + seq![s[0]] + replace_all(s.drop_first(), k, v)
        }
    } else if s.len() == 0 {
        s
    } else if occurs_at(s, k, 0) {
        v + replace_all(s.subrange(k.len() as int, s.len() as int), k, v)
    } else {
        seq![s[0]] + replace_all(s.drop_first(), k, v)
    }
}

/// Whether `k` occurs in `s` at index `i`.
pub fn occurs_at_exec(s: &Vec<char>, k: &Vec<char>, i: usize) -> (r: bool)
    ensures
        r == occurs_at(s@, k@, i as int),
{
    if i > s.len() || k.len() > s.len() - i {
        return false;
    }
    let mut j: usize = 0;
    while j < k.len()
        invariant
            i + k.len() <= s.len(),
            j <= k.len(),
            forall|t: int| 0 <= t < j ==> s@[i + t] == k@[t],
        decreases k.len() - j,
    {
        if s[i + j] != k[j] {
            assert(s@.subrange(i as int, i + k.len())[j as int] != k@[j as int]);
            return false;
        }
        j = j + 1;
    }
    assert(s@.subrange(i as int, i + k.len()) =~= k@);
    true
}

/// Whether `k` occurs anywhere in `s`.
pub fn contains_exec(s: &Vec<char>, k: &Vec<char>) -> (r: bool)
    ensures
        r == contains(s@, k@),
{
    if k.len() == 0 {
        assert(s@.subrange(0, 0) =~= k@);
        assert(occurs_at(s@, k@, 0));
        return true;
    }
    let mut i: usize = 0;
    while i < s.len()
        invariant
            i <= s.len(),
            forall|t: int| 0 <= t < i ==> !occurs_at(s@, k@, t),
        decreases s.len() - i,
    {
        if occurs_at_exec(s, k, i) {
            return true;
        }
        i = i + 1;
    }
    assert forall|t: int| !occurs_at(s@, k@, t) by {
        if 0 <= t < i {
        }
    }
    false
}

proof fn lemma_replace_step_empty(s: Seq<char>, k: Seq<char>, v: Seq<char>, i: int)
    requires
        k.len() == 0,
        0 <= i < s.len(),
    ensures
        replace_all(s.subrange(i, s.len() as int), k, v) == v + seq![s[i]] + replace_all(
            s.subrange(i + 1, s.len() as int),
            k,
            v,
        ),
{
    let t = s.subrange(i, s.len() as int);
    assert(t.drop_first() =~= s.subrange(i + 1, s.len() as int));
}

proof fn lemma_replace_step_match(s: Seq<char>, k: Seq<char>, v: Seq<char>, i: int)
    requires
        k.len() > 0,
        0 <= i < s.len(),
        occurs_at(s, k, i),
    ensures
        replace_all(s.subrange(i, s.len() as int), k, v) == v + replace_all(
            s.subrange(i + k.len(), s.len() as int),
            k,
            v,
        ),
{
    let t = s.subrange(i, s.len() as int);
    assert(t.subrange(0, k.len() as int) =~= s.subrange(i, i + k.len()));
    assert(t.subrange(k.len() as int, t.len() as int) =~= s.subrange(
        i + k.len(),
        s.len() as int,
    ));
}

proof fn lemma_replace_step_other(s: Seq<char>, k: Seq<char>, v: Seq<char>, i: int)
    requires
        k.len() > 0,
        0 <= i < s.len(),
        !occurs_at(s, k, i),
    ensures
        replace_all(s.subrange(i, s.len() as int), k, v) == seq![s[i]] + replace_all(
            s.subrange(i + 1, s.len() as int),
            k,
            v,
        ),
{
    let t = s.subrange(i, s.len() as int);
    if occurs_at(t, k, 0) {
        assert(t.subrange(0, k.len() as int) =~= s.subrange(i, i + k.len()));
    }
    assert(t.drop_first() =~= s.subrange(i + 1, s.len() as int));
}

/// Appends the characters of `v` to `out`.
fn push_all(out: &mut Vec<char>, v: &Vec<char>)
    ensures
        final(out)@ == old(out)@ + v@,
{
    let mut j: usize = 0;
    while j < v.len()
        invariant
            j <= v.len(),
            out@ == old(out)@ + v@.subrange(0, j as int),
        decreases v.len() - j,
    {
        out.push(v[j]);
        j = j + 1;
        assert(out@ =~= old(out)@ + v@.subrange(0, j as int));
    }
    assert(v@.subrange(0, j as int) =~= v@);
}

/// Replaces every occurrence of `k` in `s` by `v`, scanning left to right.
pub fn replace_exec(s: &Vec<char>, k: &Vec<char>, v: &Vec<char>) -> (r: Vec<char>)
    ensures
        r@ == replace_all(s@, k@, v@),
{
    let mut out: Vec<char> = Vec::new();
    let mut i: usize = 0;
    proof {
        assert(s@.subrange(0, s@.len() as int) =~= s@);
    }
    while i < s.len()
        invariant
            i <= s.len(),
            out@ + replace_all(s@.subrange(i as int, s@.len() as int), k@, v@) == replace_all(
                s@,
                k@,
                v@,
            ),
        decreases s.len() - i,
    {
        let ghost prev = out@;
        if k.len() == 0 {
            proof {
                lemma_replace_step_empty(s@, k@, v@, i as int);
            }
            push_all(&mut out, v);
            out.push(s[i]);
            i = i + 1;
            assert(prev + (v@ + seq![s@[i - 1]]) =~= out@);
        } else if occurs_at_exec(s, k, i) {
            proof {
                lemma_replace_step_match(s@, k@, v@, i as int);
            }
            push_all(&mut out, v);
            i = i + k.len();
        } else {
            proof {
                lemma_replace_step_other(s@, k@, v@, i as int);
            }
            out.push(s[i]);
            i = i + 1;
            assert(prev + seq![s@[i - 1]] =~= out@);
        }
    }
    proof {
        let rest = s@.subrange(i as int, s@.len() as int);
        assert(rest.len() == 0);
    }
    if k.len() == 0 {
        push_all(&mut out, v);
    } else {
        proof {
            assert(out@ + seq![] =~= out@);
        }
    }
    out
}

} // verus!

verus! {

/// The characters of `s`, in order.
pub fn chars_of(s: &str) -> (r: Vec<char>)
    ensures
        r@ == s@,
{
    let n = s.unicode_len();
    let mut out: Vec<char> = Vec::new();
    let mut i: usize = 0;
    while i < n
        invariant
            n == s@.len(),
            i <= n,
            out@ == s@.subrange(0, i as int),
        decreases n - i,
    {
        out.push(s.get_char(i));
        i = i + 1;
        assert(out@ =~= s@.subrange(0, i as int));
    }
    assert(out@ =~= s@);
    out
}

} // verus!
