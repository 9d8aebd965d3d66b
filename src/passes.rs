//! The three passes over a tree: file-stem rename, directory rename and text
//! substitution. Each plans its changes in walk order and stops where the walk
//! would fail on disk; changes planned before that point stand.

use vstd::prelude::*;
use crate::idmap::{IdMap, PairV};
use crate::text::{contains, contains_exec, replace_all, replace_exec};
use crate::model::{
    Action, ActionV, Kind, KindV, Node, NodeV, PathV, actions_view, copy_chars, copy_path, copy_prefix,
    nodes_view, path_view,
};
use crate::names::{renamed_file, renamed_file_exec};

verus! {

/// The walk cannot go past this entry: a directory that cannot be listed, and,
/// for a pass that reads files (`reads`), a file that cannot be read.
pub open spec fn halts(n: NodeV, reads: bool) -> bool {
    n.kind is UnlistableDir || (reads && n.kind is UnreadableFile)
}

/// The index of the first entry at which the walk halts, or the length where
/// it halts nowhere.
pub open spec fn stop(ns: Seq<NodeV>, reads: bool) -> int
    decreases ns.len(),
{
    if ns.len() == 0 {
        0
    } else if halts(ns[0], reads) {
        0
    } else {
        1 + stop(ns.drop_first(), reads)
    }
}

/// What a pass yields: the tree after it (empty where it failed), the
/// changes it made in order, and whether it failed.
pub struct PassV {
    pub nodes: Seq<NodeV>,
    pub actions: Seq<ActionV>,
    pub failed: bool,
}

/// The outcome of a pass or of a sequence of passes over one root.
pub struct Outcome {
    pub nodes: Vec<Node>,
    pub actions: Vec<Action>,
    pub failed: bool,
}

impl View for Outcome {
    type V = PassV;

    open spec fn view(&self) -> PassV {
        PassV { nodes: nodes_view(self.nodes@), actions: actions_view(self.actions@), failed: self.failed }
    }
}

pub proof fn lemma_stop(ns: Seq<NodeV>, reads: bool, f: int)
    requires
        0 <= f <= ns.len(),
        forall|t: int| 0 <= t < f ==> !halts(#[trigger] ns[t], reads),
        f < ns.len() ==> halts(ns[f], reads),
    ensures
        stop(ns, reads) == f,
    decreases ns.len(),
{
    if ns.len() > 0 && f > 0 {
        let d = ns.drop_first();
        assert forall|t: int| 0 <= t < f - 1 implies !halts(#[trigger] d[t], reads) by {
            assert(d[t] == ns[t + 1]);
        }
        lemma_stop(d, reads, f - 1);
    }
}

proof fn lemma_nodes_push(v: Seq<Node>, x: Node)
    ensures
        nodes_view(v.push(x)) == nodes_view(v).push(x@),
{
    assert(nodes_view(v.push(x)) =~= nodes_view(v).push(x@));
}

proof fn lemma_actions_push(v: Seq<Action>, x: Action)
    ensures
        actions_view(v.push(x)) == actions_view(v).push(x@),
{
    assert(actions_view(v.push(x)) =~= actions_view(v).push(x@));
}

proof fn lemma_prefix_last<T>(s: Seq<T>, i: int)
    requires
        0 <= i < s.len(),
    ensures
        s.subrange(0, i + 1).drop_last() == s.subrange(0, i),
        s.subrange(0, i + 1).last() == s[i],
        s.subrange(0, i + 1).len() == i + 1,
{
    assert(s.subrange(0, i + 1).drop_last() =~= s.subrange(0, i));
}

// ---------------------------------------------------------------------------
// File-stem rename

/// The path that the stem rename gives entry `n`: a file whose stem is an old
/// identifier gets the replacement, its extension kept.
pub open spec fn file_rename(n: NodeV, m: IdMap) -> Option<PathV> {
    if !n.kind.is_dir() && n.path.len() > 0 {
        match renamed_file(n.path.last(), m) {
            Some(name) => Some(n.path.drop_last().push(name)),
            None => None,
        }
    } else {
        None
    }
}

pub open spec fn file_step(n: NodeV, m: IdMap) -> Seq<ActionV> {
    match file_rename(n, m) {
        Some(p) => seq![ActionV::Rename { from: n.path, to: p }],
        None => seq![],
    }
}

pub open spec fn file_node_after(n: NodeV, m: IdMap) -> NodeV {
    match file_rename(n, m) {
        Some(p) => NodeV { path: p, kind: n.kind },
        None => n,
    }
}

pub open spec fn file_nodes_after(ns: Seq<NodeV>, m: IdMap) -> Seq<NodeV> {
    ns.map_values(|n: NodeV| file_node_after(n, m))
}

pub open spec fn file_actions(ns: Seq<NodeV>, m: IdMap) -> Seq<ActionV>
    decreases ns.len(),
{
    if ns.len() == 0 {
        seq![]
    } else {
        file_actions(ns.drop_last(), m) + file_step(ns.last(), m)
    }
}

/// The stem rename over a tree.
pub open spec fn file_pass(ns: Seq<NodeV>, m: IdMap) -> PassV {
    let f = stop(ns, false);
    PassV {
        nodes: if f < ns.len() { seq![] } else { file_nodes_after(ns, m) },
        actions: file_actions(ns.subrange(0, f), m),
        failed: f < ns.len(),
    }
}

proof fn lemma_file_nodes_prefix(ns: Seq<NodeV>, m: IdMap, i: int)
    requires
        0 <= i < ns.len(),
    ensures
        file_nodes_after(ns.subrange(0, i + 1), m) == file_nodes_after(ns.subrange(0, i), m).push(
            file_node_after(ns[i], m),
        ),
{
    assert(file_nodes_after(ns.subrange(0, i + 1), m) =~= file_nodes_after(ns.subrange(0, i), m).push(
        file_node_after(ns[i], m),
    ));
}

/// The new path of entry `n` under the stem rename, if it gets one.
fn file_rename_exec(n: &Node, m: &IdMap) -> (r: Option<Vec<String>>)
    requires
        m.wf(),
    ensures
        r.is_some() == file_rename(n@, *m).is_some(),
        r.is_some() ==> path_view(r.unwrap()@) == file_rename(n@, *m).unwrap(),
{
    if n.kind.is_dir() || n.path.len() == 0 {
        return None;
    }
    let last = n.path.len() - 1;
    match renamed_file_exec(n.path[last].as_str(), m) {
        Some(name) => {
            let mut p = copy_prefix(&n.path, last);
            let ghost before = p@;
            p.push(name);
            proof {
                assert(path_view(p@) =~= path_view(before).push(name@));
                assert(path_view(n.path@).drop_last() =~= path_view(n.path@).subrange(0, last as int));
            }
            Some(p)
        },
        None => None,
    }
}

/// Renames every file whose stem is exactly an old identifier of `m` to the
/// replacement followed by the file's own extension. Directories keep their
/// names; other files are left as they are.
pub fn rename_all_files_in_dir(nodes: &Vec<Node>, m: &IdMap) -> (r: Outcome)
    requires
        m.wf(),
    ensures
        r@ == file_pass(nodes_view(nodes@), *m),
{
    let ghost ns = nodes_view(nodes@);
    let mut acts: Vec<Action> = Vec::new();
    let mut out: Vec<Node> = Vec::new();
    let mut i: usize = 0;
    proof {
        assert(ns.subrange(0, 0) =~= Seq::<NodeV>::empty());
        assert(nodes_view(out@) =~= file_nodes_after(ns.subrange(0, 0), *m));
        assert(actions_view(acts@) =~= Seq::<ActionV>::empty());
    }
    while i < nodes.len()
        invariant
            m.wf(),
            ns == nodes_view(nodes@),
            i <= nodes@.len(),
            forall|t: int| 0 <= t < i ==> !halts(#[trigger] ns[t], false),
            actions_view(acts@) == file_actions(ns.subrange(0, i as int), *m),
            nodes_view(out@) == file_nodes_after(ns.subrange(0, i as int), *m),
        decreases nodes.len() - i,
    {
        let n = &nodes[i];
        assert(n@ == ns[i as int]);
        if let Kind::UnlistableDir = n.kind {
            proof {
                lemma_stop(ns, false, i as int);
            }
            let empty: Vec<Node> = Vec::new();
            assert(nodes_view(empty@) =~= Seq::<NodeV>::empty());
            return Outcome { nodes: empty, actions: acts, failed: true };
        }
        proof {
            lemma_prefix_last(ns, i as int);
            lemma_file_nodes_prefix(ns, *m, i as int);
        }
        match file_rename_exec(n, m) {
            Some(p) => {
                let a = Action::Rename { from: copy_path(&n.path), to: copy_path(&p) };
                let nn = Node { path: p, kind: n.kind.copy() };
                proof {
                    lemma_actions_push(acts@, a);
                    lemma_nodes_push(out@, nn);
                }
                acts.push(a);
                out.push(nn);
            },
            None => {
                let nn = n.copy();
                proof {
                    lemma_nodes_push(out@, nn);
                    assert(actions_view(acts@) + seq![] =~= actions_view(acts@));
                }
                out.push(nn);
            },
        }
        i = i + 1;
    }
    proof {
        lemma_stop(ns, false, ns.len() as int);
        assert(ns.subrange(0, ns.len() as int) =~= ns);
    }
    Outcome { nodes: out, actions: acts, failed: false }
}

// ---------------------------------------------------------------------------
// Directory rename

/// The name `c` becomes where it names a directory: the replacement where `c`
/// is an old identifier, `c` itself otherwise.
pub open spec fn mapped(c: Seq<char>, m: IdMap) -> Seq<char> {
    match m.lookup(c) {
        Some(v) => v,
        None => c,
    }
}

/// Each component of `p` mapped as a directory name.
pub open spec fn map_names(p: PathV, m: IdMap) -> PathV {
    p.map_values(|c: Seq<char>| mapped(c, m))
}

/// Where entry `n` stands after the directory rename: every directory on its
/// path renamed, a file's own name kept.
pub open spec fn dir_node_after(n: NodeV, m: IdMap) -> NodeV {
    if n.kind.is_dir() {
        NodeV { path: map_names(n.path, m), kind: n.kind }
    } else if n.path.len() > 0 {
        NodeV { path: map_names(n.path.drop_last(), m).push(n.path.last()), kind: n.kind }
    } else {
        n
    }
}

/// The rename of directory `n`, made once the directories above it have been
/// renamed.
pub open spec fn dir_step(n: NodeV, m: IdMap) -> Seq<ActionV> {
    if n.kind.is_dir() && n.path.len() > 0 && m.has_key(n.path.last()) {
        seq![
            ActionV::Rename {
                from: map_names(n.path.drop_last(), m).push(n.path.last()),
                to: map_names(n.path, m),
            },
        ]
    } else {
        seq![]
    }
}

pub open spec fn dir_nodes_after(ns: Seq<NodeV>, m: IdMap) -> Seq<NodeV> {
    ns.map_values(|n: NodeV| dir_node_after(n, m))
}

pub open spec fn dir_actions(ns: Seq<NodeV>, m: IdMap) -> Seq<ActionV>
    decreases ns.len(),
{
    if ns.len() == 0 {
        seq![]
    } else {
        dir_actions(ns.drop_last(), m) + dir_step(ns.last(), m)
    }
}

/// The directory rename over a tree. A directory that cannot be listed is
/// still renamed before the walk fails on entering it.
pub open spec fn dir_pass(ns: Seq<NodeV>, m: IdMap) -> PassV {
    let f = stop(ns, false);
    PassV {
        nodes: if f < ns.len() { seq![] } else { dir_nodes_after(ns, m) },
        actions: dir_actions(ns.subrange(0, if f < ns.len() { f + 1 } else { f }), m),
        failed: f < ns.len(),
    }
}

proof fn lemma_dir_nodes_prefix(ns: Seq<NodeV>, m: IdMap, i: int)
    requires
        0 <= i < ns.len(),
    ensures
        dir_nodes_after(ns.subrange(0, i + 1), m) == dir_nodes_after(ns.subrange(0, i), m).push(
            dir_node_after(ns[i], m),
        ),
{
    assert(dir_nodes_after(ns.subrange(0, i + 1), m) =~= dir_nodes_after(ns.subrange(0, i), m).push(
        dir_node_after(ns[i], m),
    ));
}

/// The name that `c` becomes as a directory name.
fn mapped_exec(c: &String, m: &IdMap) -> (r: String)
    requires
        m.wf(),
    ensures
        r@ == mapped(c@, *m),
{
    match m.find(c) {
        Some(j) => m.value_at(j).clone(),
        None => c.clone(),
    }
}

/// The first `n` components of `p`, each mapped as a directory name.
fn map_names_exec(p: &Vec<String>, n: usize, m: &IdMap) -> (r: Vec<String>)
    requires
        m.wf(),
        n <= p@.len(),
    ensures
        path_view(r@) == map_names(path_view(p@).subrange(0, n as int), *m),
{
    let mut out: Vec<String> = Vec::new();
    let mut i: usize = 0;
    while i < n
        invariant
            m.wf(),
            n <= p@.len(),
            i <= n,
            out@.len() == i,
            path_view(out@) == map_names(path_view(p@).subrange(0, i as int), *m),
        decreases n - i,
    {
        let s = mapped_exec(&p[i], m);
        let ghost before = out@;
        out.push(s);
        proof {
            let target = map_names(path_view(p@).subrange(0, i + 1), *m);
            let prev = map_names(path_view(p@).subrange(0, i as int), *m);
            assert forall|j: int| 0 <= j < i + 1 implies path_view(out@)[j] == target[j] by {
                if j < i {
                    assert(out@[j] == before[j]);
                    assert(path_view(before)[j] == prev[j]);
                } else {
                    assert(out@[j] == s);
                }
            }
            assert(path_view(out@) =~= target);
        }
        i = i + 1;
    }
    out
}

/// Entry `n` after the directory rename, and the rename of `n` itself where it
/// is a directory named by an old identifier.
fn dir_step_exec(n: &Node, m: &IdMap) -> (r: (Node, Option<Action>))
    requires
        m.wf(),
    ensures
        r.0@ == dir_node_after(n@, *m),
        r.1.is_none() ==> dir_step(n@, *m) == Seq::<ActionV>::empty(),
        r.1.is_some() ==> dir_step(n@, *m) == seq![r.1.unwrap()@],
{
    let len = n.path.len();
    let ghost pv = path_view(n.path@);
    if len == 0 {
        assert(map_names(pv, *m) =~= pv);
        return (n.copy(), None);
    }
    let last = len - 1;
    proof {
        assert(pv.drop_last() =~= pv.subrange(0, last as int));
        assert(pv =~= pv.subrange(0, len as int));
    }
    if n.kind.is_dir() {
        let to = map_names_exec(&n.path, len, m);
        let node = Node { path: copy_path(&to), kind: n.kind.copy() };
        match m.find(&n.path[last]) {
            Some(_) => {
                let mut from = map_names_exec(&n.path, last, m);
                let ghost before = from@;
                from.push(n.path[last].clone());
                proof {
                    assert(path_view(from@) =~= path_view(before).push(pv.last()));
                }
                (node, Some(Action::Rename { from, to }))
            },
            None => (node, None),
        }
    } else {
        let mut p = map_names_exec(&n.path, last, m);
        let ghost before = p@;
        p.push(n.path[last].clone());
        proof {
            assert(path_view(p@) =~= path_view(before).push(pv.last()));
        }
        (Node { path: p, kind: n.kind.copy() }, None)
    }
}

/// Renames every directory whose name is exactly an old identifier of `m` to
/// the replacement, and goes on into the renamed directory. Files keep their
/// names.
pub fn rename_all_dir(nodes: &Vec<Node>, m: &IdMap) -> (r: Outcome)
    requires
        m.wf(),
    ensures
        r@ == dir_pass(nodes_view(nodes@), *m),
{
    let ghost ns = nodes_view(nodes@);
    let mut acts: Vec<Action> = Vec::new();
    let mut out: Vec<Node> = Vec::new();
    let mut i: usize = 0;
    proof {
        assert(ns.subrange(0, 0) =~= Seq::<NodeV>::empty());
        assert(nodes_view(out@) =~= dir_nodes_after(ns.subrange(0, 0), *m));
        assert(actions_view(acts@) =~= Seq::<ActionV>::empty());
    }
    while i < nodes.len()
        invariant
            m.wf(),
            ns == nodes_view(nodes@),
            i <= nodes@.len(),
            forall|t: int| 0 <= t < i ==> !halts(#[trigger] ns[t], false),
            actions_view(acts@) == dir_actions(ns.subrange(0, i as int), *m),
            nodes_view(out@) == dir_nodes_after(ns.subrange(0, i as int), *m),
        decreases nodes.len() - i,
    {
        let n = &nodes[i];
        assert(n@ == ns[i as int]);
        proof {
            lemma_prefix_last(ns, i as int);
            lemma_dir_nodes_prefix(ns, *m, i as int);
        }
        let (nn, a) = dir_step_exec(n, m);
        match a {
            Some(a) => {
                proof {
                    lemma_actions_push(acts@, a);
                }
                acts.push(a);
            },
            None => {
                proof {
                    assert(actions_view(acts@) + seq![] =~= actions_view(acts@));
                }
            },
        }
        assert(actions_view(acts@) == dir_actions(ns.subrange(0, i + 1), *m));
        if let Kind::UnlistableDir = n.kind {
            proof {
                lemma_stop(ns, false, i as int);
            }
            let empty: Vec<Node> = Vec::new();
            assert(nodes_view(empty@) =~= Seq::<NodeV>::empty());
            return Outcome { nodes: empty, actions: acts, failed: true };
        }
        proof {
            lemma_nodes_push(out@, nn);
        }
        out.push(nn);
        i = i + 1;
    }
    proof {
        lemma_stop(ns, false, ns.len() as int);
        assert(ns.subrange(0, ns.len() as int) =~= ns);
    }
    Outcome { nodes: out, actions: acts, failed: false }
}

// ---------------------------------------------------------------------------
// Text substitution

/// Some old identifier of `ps` occurs in `t`.
pub open spec fn any_key(t: Seq<char>, ps: Seq<PairV>) -> bool {
    exists|j: int| 0 <= j < ps.len() && contains(t, #[trigger] ps[j].0)
}

/// `t` with each pair's replacement applied in turn, in the map's order.
pub open spec fn subst_all(t: Seq<char>, ps: Seq<PairV>) -> Seq<char>
    decreases ps.len(),
{
    if ps.len() == 0 {
        t
    } else {
        replace_all(subst_all(t, ps.drop_last()), ps.last().0, ps.last().1)
    }
}

/// The new text of entry `n`: a text file in which some old identifier occurs
/// gets every identifier replaced. Other entries get none.
pub open spec fn text_rewrite(n: NodeV, m: IdMap) -> Option<Seq<char>> {
    match n.kind {
        KindV::TextFile(t) => if any_key(t, m.pairs()) {
            Some(subst_all(t, m.pairs()))
        } else {
            None
        },
        _ => None,
    }
}

pub open spec fn text_step(n: NodeV, m: IdMap) -> Seq<ActionV> {
    match text_rewrite(n, m) {
        Some(t) => seq![ActionV::Write { path: n.path, text: t }],
        None => seq![],
    }
}

pub open spec fn text_node_after(n: NodeV, m: IdMap) -> NodeV {
    match text_rewrite(n, m) {
        Some(t) => NodeV { path: n.path, kind: KindV::TextFile(t) },
        None => n,
    }
}

pub open spec fn text_nodes_after(ns: Seq<NodeV>, m: IdMap) -> Seq<NodeV> {
    ns.map_values(|n: NodeV| text_node_after(n, m))
}

pub open spec fn text_actions(ns: Seq<NodeV>, m: IdMap) -> Seq<ActionV>
    decreases ns.len(),
{
    if ns.len() == 0 {
        seq![]
    } else {
        text_actions(ns.drop_last(), m) + text_step(ns.last(), m)
    }
}

/// The text substitution over a tree. A file that cannot be read stops the
/// walk; one that is not text is passed over.
pub open spec fn text_pass(ns: Seq<NodeV>, m: IdMap) -> PassV {
    let f = stop(ns, true);
    PassV {
        nodes: if f < ns.len() { seq![] } else { text_nodes_after(ns, m) },
        actions: text_actions(ns.subrange(0, f), m),
        failed: f < ns.len(),
    }
}

proof fn lemma_text_nodes_prefix(ns: Seq<NodeV>, m: IdMap, i: int)
    requires
        0 <= i < ns.len(),
    ensures
        text_nodes_after(ns.subrange(0, i + 1), m) == text_nodes_after(ns.subrange(0, i), m).push(
            text_node_after(ns[i], m),
        ),
{
    assert(text_nodes_after(ns.subrange(0, i + 1), m) =~= text_nodes_after(ns.subrange(0, i), m).push(
        text_node_after(ns[i], m),
    ));
}

/// Whether some old identifier of `m` occurs in `t`.
pub fn any_key_exec(t: &Vec<char>, m: &IdMap) -> (r: bool)
    ensures
        r == any_key(t@, m.pairs()),
{
    let mut j: usize = 0;
    while j < m.len()
        invariant
            j <= m.pairs().len(),
            forall|s: int| 0 <= s < j ==> !contains(t@, #[trigger] m.pairs()[s].0),
        decreases m.pairs().len() - j,
    {
        let (k, _v) = m.chars_at(j);
        if contains_exec(t, &k) {
            return true;
        }
        j = j + 1;
    }
    false
}

/// `t` with every old identifier of `m` replaced, one identifier after the
/// other in the map's order.
pub fn subst_all_exec(t: &Vec<char>, m: &IdMap) -> (r: Vec<char>)
    ensures
        r@ == subst_all(t@, m.pairs()),
{
    let mut cur = copy_chars(t);
    let mut j: usize = 0;
    proof {
        assert(m.pairs().subrange(0, 0).len() == 0);
    }
    while j < m.len()
        invariant
            j <= m.pairs().len(),
            cur@ == subst_all(t@, m.pairs().subrange(0, j as int)),
        decreases m.pairs().len() - j,
    {
        let (k, v) = m.chars_at(j);
        proof {
            lemma_prefix_last(m.pairs(), j as int);
        }
        cur = replace_exec(&cur, &k, &v);
        j = j + 1;
    }
    proof {
        assert(m.pairs().subrange(0, m.pairs().len() as int) =~= m.pairs());
    }
    cur
}

/// Rewrites every text file in which some old identifier of `m` occurs, with
/// every occurrence of every identifier replaced. Files without one, and files
/// that are not text, are left as they are.
pub fn rename_all_text(nodes: &Vec<Node>, m: &IdMap) -> (r: Outcome)
    requires
        m.wf(),
    ensures
        r@ == text_pass(nodes_view(nodes@), *m),
{
    let ghost ns = nodes_view(nodes@);
    let mut acts: Vec<Action> = Vec::new();
    let mut out: Vec<Node> = Vec::new();
    let mut i: usize = 0;
    proof {
        assert(ns.subrange(0, 0) =~= Seq::<NodeV>::empty());
        assert(nodes_view(out@) =~= text_nodes_after(ns.subrange(0, 0), *m));
        assert(actions_view(acts@) =~= Seq::<ActionV>::empty());
    }
    while i < nodes.len()
        invariant
            m.wf(),
            ns == nodes_view(nodes@),
            i <= nodes@.len(),
            forall|t: int| 0 <= t < i ==> !halts(#[trigger] ns[t], true),
            actions_view(acts@) == text_actions(ns.subrange(0, i as int), *m),
            nodes_view(out@) == text_nodes_after(ns.subrange(0, i as int), *m),
        decreases nodes.len() - i,
    {
        let n = &nodes[i];
        assert(n@ == ns[i as int]);
        let halt = match n.kind {
            Kind::UnlistableDir => true,
            Kind::UnreadableFile => true,
            _ => false,
        };
        if halt {
            proof {
                lemma_stop(ns, true, i as int);
            }
            let empty: Vec<Node> = Vec::new();
            assert(nodes_view(empty@) =~= Seq::<NodeV>::empty());
            return Outcome { nodes: empty, actions: acts, failed: true };
        }
        proof {
            lemma_prefix_last(ns, i as int);
            lemma_text_nodes_prefix(ns, *m, i as int);
        }
        let mut rewritten: Option<Vec<char>> = None;
        if let Kind::TextFile(t) = &n.kind {
            if any_key_exec(t, m) {
                rewritten = Some(subst_all_exec(t, m));
            }
        }
        match rewritten {
            Some(t2) => {
                let a = Action::Write { path: copy_path(&n.path), text: copy_chars(&t2) };
                let nn = Node { path: copy_path(&n.path), kind: Kind::TextFile(t2) };
                proof {
                    lemma_actions_push(acts@, a);
                    lemma_nodes_push(out@, nn);
                }
                acts.push(a);
                out.push(nn);
            },
            None => {
                let nn = n.copy();
                proof {
                    lemma_nodes_push(out@, nn);
                    assert(actions_view(acts@) + seq![] =~= actions_view(acts@));
                }
                out.push(nn);
            },
        }
        i = i + 1;
    }
    proof {
        lemma_stop(ns, true, ns.len() as int);
        assert(ns.subrange(0, ns.len() as int) =~= ns);
    }
    Outcome { nodes: out, actions: acts, failed: false }
}

} // verus!
