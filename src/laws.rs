//! Properties that hold of the passes on every tree and every map.

use vstd::prelude::*;
use crate::idmap::{IdMap, PairV};
use crate::model::{ActionV, KindV, NodeV};
use crate::names::{dotted_ext, ext_dot, lemma_last_dot_is_dot, renamed_file, stem};
use crate::passes::{
    file_node_after, file_pass, file_step, halts, subst_all, text_node_after, text_pass,
    text_step,
};
use crate::text::{contains, occurs_at, replace_all};

verus! {

/// A file whose stem is no old identifier keeps its path, name and extension
/// alike, and the stem rename makes no change to it.
pub proof fn law_unmatched_stem_kept(ns: Seq<NodeV>, m: IdMap, i: int)
    requires
        m.wf(),
        !file_pass(ns, m).failed,
        0 <= i < ns.len(),
        !ns[i].kind.is_dir(),
        ns[i].path.len() > 0,
        !m.has_key(stem(ns[i].path.last())),
    ensures
        file_pass(ns, m).nodes[i] == ns[i],
        file_step(ns[i], m) == Seq::<ActionV>::empty(),
{
}

/// A renamed file keeps what followed its stem: the new name is the
/// replacement followed by the old name's extension with its dot, or by
/// nothing where the old name had no extension.
pub proof fn law_extension_kept(name: Seq<char>, m: IdMap)
    requires
        m.wf(),
        m.has_key(stem(name)),
    ensures
        stem(name) + dotted_ext(name) == name,
        renamed_file(name, m) == Some(m.lookup(stem(name)).unwrap() + dotted_ext(name)),
        ext_dot(name) < 0 ==> dotted_ext(name) == Seq::<char>::empty(),
        ext_dot(name) >= 0 ==> dotted_ext(name)[0] == '.',
{
    lemma_last_dot_is_dot(name);
    assert(stem(name) + dotted_ext(name) =~= name);
}

/// A text file in which no old identifier occurs is neither rewritten nor
/// recorded.
pub proof fn law_text_without_keys_kept(ns: Seq<NodeV>, m: IdMap, i: int)
    requires
        !text_pass(ns, m).failed,
        0 <= i < ns.len(),
        ns[i].kind is TextFile,
        forall|j: int|
            0 <= j < m.pairs().len() ==> !contains(ns[i].kind->TextFile_0, #[trigger] m.pairs()[j].0),
    ensures
        text_pass(ns, m).nodes[i] == ns[i],
        text_step(ns[i], m) == Seq::<ActionV>::empty(),
{
}

/// A file that is not text is never rewritten, never recorded, and never
/// stops the text substitution.
pub proof fn law_binary_untouched(ns: Seq<NodeV>, m: IdMap, i: int)
    requires
        0 <= i < ns.len(),
        ns[i].kind is BinaryFile,
    ensures
        !halts(ns[i], true),
        text_step(ns[i], m) == Seq::<ActionV>::empty(),
        text_node_after(ns[i], m) == ns[i],
        !text_pass(ns, m).failed ==> text_pass(ns, m).nodes[i] == ns[i],
{
}

/// No character of `a` occurs in `b`.
pub open spec fn disjoint(a: Seq<char>, b: Seq<char>) -> bool {
    forall|x: int, y: int| 0 <= x < a.len() && 0 <= y < b.len() ==> a[x] != b[y]
}

/// No character of `v` occurs in the first `n` characters of `r`.
spec fn free_of(r: Seq<char>, n: int, v: Seq<char>) -> bool {
    forall|x: int, y: int| 0 <= x < n && 0 <= y < v.len() ==> r[x] != v[y]
}

/// Where the replacement text stays out of the first `n` characters of the
/// result, those characters were there in the input already.
proof fn lemma_prefix_untouched(t: Seq<char>, k: Seq<char>, v: Seq<char>, n: int)
    requires
        k.len() > 0,
        v.len() > 0,
        0 <= n <= replace_all(t, k, v).len(),
        free_of(replace_all(t, k, v), n, v),
    ensures
        n <= t.len(),
        t.subrange(0, n) == replace_all(t, k, v).subrange(0, n),
    decreases t.len(),
{
    let r = replace_all(t, k, v);
    if n == 0 {
        assert(t.subrange(0, 0) =~= r.subrange(0, 0));
    } else if t.len() == 0 {
    } else if occurs_at(t, k, 0) {
        assert(r[0] == v[0]);
    } else {
        let t1 = t.drop_first();
        let r1 = replace_all(t1, k, v);
        assert(r == seq![t[0]] + r1);
        assert forall|x: int, y: int| 0 <= x < n - 1 && 0 <= y < v.len() implies r1[x] != v[y] by {
            assert(r[x + 1] == r1[x]);
        }
        lemma_prefix_untouched(t1, k, v, n - 1);
        assert(t.subrange(0, n) =~= r.subrange(0, n)) by {
            assert forall|x: int| 0 <= x < n implies t[x] == r[x] by {
                if x > 0 {
                    assert(t1.subrange(0, n - 1)[x - 1] == r1.subrange(0, n - 1)[x - 1]);
                }
            }
        }
    }
}

/// One replacement leaves no occurrence of its old text, where the new text
/// is not empty and shares no character with the old.
proof fn lemma_replace_removes(t: Seq<char>, k: Seq<char>, v: Seq<char>)
    requires
        k.len() > 0,
        v.len() > 0,
        disjoint(v, k),
    ensures
        !contains(replace_all(t, k, v), k),
    decreases t.len(),
{
    let r = replace_all(t, k, v);
    if t.len() == 0 {
    } else if occurs_at(t, k, 0) {
        let rest = t.subrange(k.len() as int, t.len() as int);
        let r1 = replace_all(rest, k, v);
        lemma_replace_removes(rest, k, v);
        assert forall|i: int| !occurs_at(r, k, i) by {
            if occurs_at(r, k, i) {
                if i < v.len() {
                    assert(r.subrange(i, i + k.len())[0] == r[i]);
                    assert(r[i] == v[i]);
                } else {
                    assert(r1.subrange(i - v.len(), i - v.len() + k.len()) =~= r.subrange(
                        i,
                        i + k.len(),
                    ));
                    assert(occurs_at(r1, k, i - v.len()));
                }
            }
        }
    } else {
        let t1 = t.drop_first();
        let r1 = replace_all(t1, k, v);
        assert(r == seq![t[0]] + r1);
        lemma_replace_removes(t1, k, v);
        assert forall|i: int| !occurs_at(r, k, i) by {
            if occurs_at(r, k, i) {
                if i > 0 {
                    assert(r1.subrange(i - 1, i - 1 + k.len()) =~= r.subrange(i, i + k.len()));
                    assert(occurs_at(r1, k, i - 1));
                } else {
                    let n = k.len() - 1;
                    assert forall|x: int, y: int| 0 <= x < n && 0 <= y < v.len() implies r1[x]
                        != v[y] by {
                        assert(r[x + 1] == r1[x]);
                        assert(r.subrange(0, k.len() as int)[x + 1] == k[x + 1]);
                    }
                    lemma_prefix_untouched(t1, k, v, n);
                    assert forall|x: int| 0 <= x < k.len() implies t[x] == k[x] by {
                        assert(r.subrange(0, k.len() as int)[x] == k[x]);
                        if x > 0 {
                            assert(t1.subrange(0, n)[x - 1] == r1.subrange(0, n)[x - 1]);
                        }
                    }
                    assert(t.subrange(0, k.len() as int) =~= k);
                }
            }
        }
    }
}

/// A replacement whose new text shares no character with `w` makes no new
/// occurrence of `w`.
proof fn lemma_replace_adds_none(t: Seq<char>, k: Seq<char>, v: Seq<char>, w: Seq<char>)
    requires
        k.len() > 0,
        v.len() > 0,
        w.len() > 0,
        disjoint(v, w),
        contains(replace_all(t, k, v), w),
    ensures
        contains(t, w),
    decreases t.len(),
{
    let r = replace_all(t, k, v);
    let i = choose|i: int| occurs_at(r, w, i);
    if t.len() == 0 {
    } else if occurs_at(t, k, 0) {
        let rest = t.subrange(k.len() as int, t.len() as int);
        let r1 = replace_all(rest, k, v);
        if i < v.len() {
            assert(r.subrange(i, i + w.len())[0] == r[i]);
            assert(r[i] == v[i]);
        } else {
            assert(r1.subrange(i - v.len(), i - v.len() + w.len()) =~= r.subrange(i, i + w.len()));
            assert(occurs_at(r1, w, i - v.len()));
            lemma_replace_adds_none(rest, k, v, w);
            let p = choose|p: int| occurs_at(rest, w, p);
            assert(t.subrange(p + k.len(), p + k.len() + w.len()) =~= rest.subrange(p, p + w.len()));
            assert(occurs_at(t, w, p + k.len()));
        }
    } else {
        let t1 = t.drop_first();
        let r1 = replace_all(t1, k, v);
        assert(r == seq![t[0]] + r1);
        if i > 0 {
            assert(r1.subrange(i - 1, i - 1 + w.len()) =~= r.subrange(i, i + w.len()));
            assert(occurs_at(r1, w, i - 1));
            lemma_replace_adds_none(t1, k, v, w);
            let p = choose|p: int| occurs_at(t1, w, p);
            assert(t.subrange(p + 1, p + 1 + w.len()) =~= t1.subrange(p, p + w.len()));
            assert(occurs_at(t, w, p + 1));
        } else {
            let n = w.len() - 1;
            assert forall|x: int, y: int| 0 <= x < n && 0 <= y < v.len() implies r1[x] != v[y] by {
                assert(r[x + 1] == r1[x]);
                assert(r.subrange(0, w.len() as int)[x + 1] == w[x + 1]);
            }
            lemma_prefix_untouched(t1, k, v, n);
            assert forall|x: int| 0 <= x < w.len() implies t[x] == w[x] by {
                assert(r.subrange(0, w.len() as int)[x] == w[x]);
                if x > 0 {
                    assert(t1.subrange(0, n)[x - 1] == r1.subrange(0, n)[x - 1]);
                }
            }
            assert(t.subrange(0, w.len() as int) =~= w);
            assert(occurs_at(t, w, 0));
        }
    }
}

/// The pairs of `ps` have non-empty old and new texts, and no new text shares
/// a character with any old text.
pub open spec fn separable(ps: Seq<PairV>) -> bool {
    &&& forall|j: int| 0 <= j < ps.len() ==> (#[trigger] ps[j]).0.len() > 0 && ps[j].1.len() > 0
    &&& forall|a: int, b: int| 0 <= a < ps.len() && 0 <= b < ps.len() ==> disjoint(
        (#[trigger] ps[a]).1,
        (#[trigger] ps[b]).0,
    )
}

/// After the substitution of a whole map, no old identifier occurs in the
/// text any more, where the map's new identifiers are non-empty and share no
/// character with its old ones.
pub proof fn law_substitution_total(t: Seq<char>, ps: Seq<PairV>)
    requires
        separable(ps),
    ensures
        forall|j: int| 0 <= j < ps.len() ==> !contains(subst_all(t, ps), #[trigger] ps[j].0),
    decreases ps.len(),
{
    if ps.len() > 0 {
        let q = ps.drop_last();
        let l = ps.last();
        assert(separable(q)) by {
            assert forall|a: int, b: int| 0 <= a < q.len() && 0 <= b < q.len() implies disjoint(
                #[trigger] q[a].1,
                #[trigger] q[b].0,
            ) by {
                assert(q[a] == ps[a] && q[b] == ps[b]);
            }
            assert forall|j: int| 0 <= j < q.len() implies (#[trigger] q[j]).0.len() > 0
                && q[j].1.len() > 0 by {
                assert(q[j] == ps[j]);
            }
        }
        law_substitution_total(t, q);
        let s = subst_all(t, q);
        assert(ps[ps.len() - 1] == l);
        assert(disjoint(l.1, l.0));
        lemma_replace_removes(s, l.0, l.1);
        assert forall|j: int| 0 <= j < ps.len() implies !contains(
            subst_all(t, ps),
            #[trigger] ps[j].0,
        ) by {
            if j < ps.len() - 1 {
                assert(q[j] == ps[j]);
                assert(!contains(s, q[j].0));
                assert(disjoint(l.1, ps[j].0));
                if contains(replace_all(s, l.0, l.1), ps[j].0) {
                    lemma_replace_adds_none(s, l.0, l.1, ps[j].0);
                }
            }
        }
    }
}

/// Where the first `n` characters of `s` hold no first character of `k`, the
/// replacement keeps them as they are.
proof fn lemma_prefix_kept(s: Seq<char>, k: Seq<char>, v: Seq<char>, n: int)
    requires
        k.len() > 0,
        0 <= n <= s.len(),
        forall|x: int| 0 <= x < n ==> s[x] != k[0],
    ensures
        n <= replace_all(s, k, v).len(),
        replace_all(s, k, v).subrange(0, n) == s.subrange(0, n),
    decreases s.len(),
{
    let r = replace_all(s, k, v);
    if n == 0 {
        assert(r.subrange(0, 0) =~= s.subrange(0, 0));
    } else {
        if occurs_at(s, k, 0) {
            assert(s.subrange(0, k.len() as int)[0] == s[0]);
        }
        let s1 = s.drop_first();
        let r1 = replace_all(s1, k, v);
        assert(r == seq![s[0]] + r1);
        assert forall|x: int| 0 <= x < n - 1 implies s1[x] != k[0] by {
            assert(s1[x] == s[x + 1]);
        }
        lemma_prefix_kept(s1, k, v, n - 1);
        assert forall|x: int| 0 <= x < n implies r[x] == s[x] by {
            if x > 0 {
                assert(r1.subrange(0, n - 1)[x - 1] == s1.subrange(0, n - 1)[x - 1]);
            }
        }
        assert(r.subrange(0, n) =~= s.subrange(0, n));
    }
}

/// A replacement keeps every occurrence of a text that shares no character
/// with the old text.
proof fn lemma_replace_keeps(s: Seq<char>, k: Seq<char>, v: Seq<char>, w: Seq<char>)
    requires
        k.len() > 0,
        w.len() > 0,
        disjoint(w, k),
        contains(s, w),
    ensures
        contains(replace_all(s, k, v), w),
    decreases s.len(),
{
    let r = replace_all(s, k, v);
    let i = choose|i: int| occurs_at(s, w, i);
    assert(s.subrange(i, i + w.len())[0] == s[i]);
    if occurs_at(s, k, 0) {
        if i < k.len() {
            assert(s.subrange(0, k.len() as int)[i] == s[i]);
        } else {
            let rest = s.subrange(k.len() as int, s.len() as int);
            assert(rest.subrange(i - k.len(), i - k.len() + w.len()) =~= s.subrange(i, i + w.len()));
            assert(occurs_at(rest, w, i - k.len()));
            lemma_replace_keeps(rest, k, v, w);
            let r1 = replace_all(rest, k, v);
            let p = choose|p: int| occurs_at(r1, w, p);
            assert(r.subrange(p + v.len(), p + v.len() + w.len()) =~= r1.subrange(p, p + w.len()));
            assert(occurs_at(r, w, p + v.len()));
        }
    } else {
        let s1 = s.drop_first();
        let r1 = replace_all(s1, k, v);
        assert(r == seq![s[0]] + r1);
        if i > 0 {
            assert(s1.subrange(i - 1, i - 1 + w.len()) =~= s.subrange(i, i + w.len()));
            assert(occurs_at(s1, w, i - 1));
            lemma_replace_keeps(s1, k, v, w);
            let p = choose|p: int| occurs_at(r1, w, p);
            assert(r.subrange(p + 1, p + 1 + w.len()) =~= r1.subrange(p, p + w.len()));
            assert(occurs_at(r, w, p + 1));
        } else {
            assert forall|x: int| 0 <= x < w.len() implies s[x] != k[0] by {
                assert(s.subrange(0, w.len() as int)[x] == s[x]);
            }
            lemma_prefix_kept(s, k, v, w.len() as int);
            assert(r.subrange(0, w.len() as int) =~= w);
            assert(occurs_at(r, w, 0));
        }
    }
}

/// Where the old text occurs, the new text occurs after the replacement.
proof fn lemma_replace_inserts(s: Seq<char>, k: Seq<char>, v: Seq<char>)
    requires
        k.len() > 0,
        contains(s, k),
    ensures
        contains(replace_all(s, k, v), v),
    decreases s.len(),
{
    let r = replace_all(s, k, v);
    let i = choose|i: int| occurs_at(s, k, i);
    if occurs_at(s, k, 0) {
        assert(r.subrange(0, v.len() as int) =~= v);
        assert(occurs_at(r, v, 0));
    } else {
        let s1 = s.drop_first();
        let r1 = replace_all(s1, k, v);
        assert(r == seq![s[0]] + r1);
        assert(i > 0);
        assert(s1.subrange(i - 1, i - 1 + k.len()) =~= s.subrange(i, i + k.len()));
        assert(occurs_at(s1, k, i - 1));
        lemma_replace_inserts(s1, k, v);
        let p = choose|p: int| occurs_at(r1, v, p);
        assert(r.subrange(p + 1, p + 1 + v.len()) =~= r1.subrange(p, p + v.len()));
        assert(occurs_at(r, v, p + 1));
    }
}

/// A text that shares no character with any old identifier of `ps` outlives
/// the substitution of `ps`.
proof fn lemma_subst_keeps(t: Seq<char>, ps: Seq<PairV>, w: Seq<char>)
    requires
        w.len() > 0,
        forall|a: int| 0 <= a < ps.len() ==> (#[trigger] ps[a]).0.len() > 0 && disjoint(w, ps[a].0),
        contains(t, w),
    ensures
        contains(subst_all(t, ps), w),
    decreases ps.len(),
{
    if ps.len() > 0 {
        let q = ps.drop_last();
        assert forall|a: int| 0 <= a < q.len() implies (#[trigger] q[a]).0.len() > 0 && disjoint(
            w,
            q[a].0,
        ) by {
            assert(q[a] == ps[a]);
        }
        lemma_subst_keeps(t, q, w);
        assert(ps[ps.len() - 1] == ps.last());
        lemma_replace_keeps(subst_all(t, q), ps.last().0, ps.last().1, w);
    }
}

/// No two old identifiers of `ps` share a character.
pub open spec fn keys_apart(ps: Seq<PairV>) -> bool {
    forall|a: int, b: int|
        0 <= a < ps.len() && 0 <= b < ps.len() && a != b ==> disjoint(
            (#[trigger] ps[a]).0,
            (#[trigger] ps[b]).0,
        )
}

/// After the substitution of a whole map, each new identifier occurs in the
/// text where its old identifier did before, provided new identifiers are
/// non-empty and share no character with old ones, and no two old
/// identifiers share a character.
pub proof fn law_substitution_inserts(t: Seq<char>, ps: Seq<PairV>, j: int)
    requires
        separable(ps),
        keys_apart(ps),
        0 <= j < ps.len(),
        contains(t, ps[j].0),
    ensures
        contains(subst_all(t, ps), ps[j].1),
    decreases ps.len(),
{
    let q = ps.drop_last();
    let n = ps.len() - 1;
    assert(ps[n] == ps.last());
    if j == n {
        assert forall|a: int| 0 <= a < q.len() implies (#[trigger] q[a]).0.len() > 0 && disjoint(
            ps[j].0,
            q[a].0,
        ) by {
            assert(q[a] == ps[a]);
            assert(disjoint(ps[j].0, ps[a].0));
        }
        lemma_subst_keeps(t, q, ps[j].0);
        lemma_replace_inserts(subst_all(t, q), ps[j].0, ps[j].1);
    } else {
        assert(separable(q) && keys_apart(q)) by {
            assert forall|a: int, b: int| 0 <= a < q.len() && 0 <= b < q.len() implies disjoint(
                #[trigger] q[a].1,
                #[trigger] q[b].0,
            ) by {
                assert(q[a] == ps[a] && q[b] == ps[b]);
            }
            assert forall|a: int| 0 <= a < q.len() implies (#[trigger] q[a]).0.len() > 0
                && q[a].1.len() > 0 by {
                assert(q[a] == ps[a]);
            }
            assert forall|a: int, b: int|
                0 <= a < q.len() && 0 <= b < q.len() && a != b implies disjoint(
                #[trigger] q[a].0,
                #[trigger] q[b].0,
            ) by {
                assert(q[a] == ps[a] && q[b] == ps[b]);
            }
        }
        assert(q[j] == ps[j]);
        law_substitution_inserts(t, q, j);
        assert(disjoint(ps[j].1, ps[n].0));
        lemma_replace_keeps(subst_all(t, q), ps[n].0, ps[n].1, ps[j].1);
    }
}

} // verus!
