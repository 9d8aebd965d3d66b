//! A conversion run: finding the roots, planning each root's passes, and
//! gathering what was changed.

use vstd::prelude::*;
use vstd::string::*;
use crate::idmap::IdMap;
use crate::model::{Action, ActionV, Node, NodeV, PathV, actions_view, copy_path, nodes_view, path_view, targets};
use crate::passes::{
    Outcome, PassV, dir_pass, file_pass, rename_all_dir, rename_all_files_in_dir,
    rename_all_text, text_pass,
};

verus! {

// ---------------------------------------------------------------------------
// Plans for one root

/// A world root gets the stem rename, then the directory rename.
pub open spec fn world_plan(ns: Seq<NodeV>, m: IdMap) -> PassV {
    let a = file_pass(ns, m);
    if a.failed {
        a
    } else {
        let b = dir_pass(a.nodes, m);
        PassV { nodes: b.nodes, actions: a.actions + b.actions, failed: b.failed }
    }
}

/// A plugin root gets the stem rename, the directory rename and the text
/// substitution, in that order.
pub open spec fn plugin_plan(ns: Seq<NodeV>, m: IdMap) -> PassV {
    let a = world_plan(ns, m);
    if a.failed {
        a
    } else {
        let c = text_pass(a.nodes, m);
        PassV { nodes: c.nodes, actions: a.actions + c.actions, failed: c.failed }
    }
}

/// Runs `b` after `a`: the tree of `b`, the changes of both.
fn chain(a: Outcome, b: Outcome) -> (r: Outcome)
    ensures
        r@ == (PassV { nodes: b@.nodes, actions: a@.actions + b@.actions, failed: b@.failed }),
{
    let mut acts = a.actions;
    let mut more = b.actions;
    let ghost x = acts@;
    let ghost y = more@;
    acts.append(&mut more);
    proof {
        assert(actions_view(acts@) =~= actions_view(x) + actions_view(y));
    }
    Outcome { nodes: b.nodes, actions: acts, failed: b.failed }
}

/// The changes that a world root gets: file stems, then directory names.
pub fn plan_world_root(nodes: &Vec<Node>, m: &IdMap) -> (r: Outcome)
    requires
        m.wf(),
    ensures
        r@ == world_plan(nodes_view(nodes@), *m),
{
    let a = rename_all_files_in_dir(nodes, m);
    if a.failed {
        return a;
    }
    let b = rename_all_dir(&a.nodes, m);
    chain(a, b)
}

/// The changes that a plugin root gets: file stems, directory names, then
/// text contents.
pub fn plan_plugin_root(nodes: &Vec<Node>, m: &IdMap) -> (r: Outcome)
    requires
        m.wf(),
    ensures
        r@ == plugin_plan(nodes_view(nodes@), *m),
{
    let a = plan_world_root(nodes, m);
    if a.failed {
        return a;
    }
    let c = rename_all_text(&a.nodes, m);
    chain(a, c)
}

pub open spec fn paths_view(v: Seq<Vec<String>>) -> Seq<PathV> {
    v.map_values(|p: Vec<String>| path_view(p@))
}

impl Outcome {
    /// The paths that the planned actions leave changed, in order.
    pub fn records(&self) -> (r: Vec<Vec<String>>)
        ensures
            paths_view(r@) == targets(actions_view(self.actions@)),
    {
        let mut out: Vec<Vec<String>> = Vec::new();
        let mut i: usize = 0;
        while i < self.actions.len()
            invariant
                i <= self.actions@.len(),
                out@.len() == i,
                paths_view(out@) == targets(actions_view(self.actions@)).subrange(0, i as int),
            decreases self.actions.len() - i,
        {
            let p = self.actions[i].target();
            let ghost before = out@;
            out.push(p);
            proof {
                let want = targets(actions_view(self.actions@));
                assert forall|j: int| 0 <= j < i + 1 implies paths_view(out@)[j] == want[j] by {
                    if j < i {
                        assert(out@[j] == before[j]);
                        assert(paths_view(before)[j] == want.subrange(0, i as int)[j]);
                    }
                }
                assert(paths_view(out@) =~= want.subrange(0, i + 1));
            }
            i = i + 1;
        }
        proof {
            let want = targets(actions_view(self.actions@));
            assert(want.subrange(0, want.len() as int) =~= want);
        }
        out
    }
}

// ---------------------------------------------------------------------------
// Gathering over roots

/// The result of carrying out one root's plan: the root's path below the
/// base directory, the changed paths below the root, and whether every step
/// succeeded.
pub struct RootRun {
    pub root: Vec<String>,
    pub records: Vec<Vec<String>>,
    pub ok: bool,
}

/// The changed paths of `r`, below the base directory.
pub open spec fn run_records(r: RootRun) -> Seq<PathV> {
    paths_view(r.records@).map_values(|p: PathV| path_view(r.root@) + p)
}

/// The changed paths of the runs that succeeded, in order; failed runs add
/// nothing.
pub open spec fn ok_records(runs: Seq<RootRun>) -> Seq<PathV>
    decreases runs.len(),
{
    if runs.len() == 0 {
        seq![]
    } else {
        ok_records(runs.drop_last()) + if runs.last().ok {
            run_records(runs.last())
        } else {
            seq![]
        }
    }
}

/// `a` followed by `b`.
fn join_path(a: &Vec<String>, b: &Vec<String>) -> (r: Vec<String>)
    ensures
        path_view(r@) == path_view(a@) + path_view(b@),
{
    let mut out = copy_path(a);
    let mut rest = copy_path(b);
    let ghost x = out@;
    let ghost y = rest@;
    out.append(&mut rest);
    proof {
        assert(path_view(out@) =~= path_view(x) + path_view(y));
    }
    out
}

/// Appends the changed paths of `run` to `out`.
fn push_run(out: &mut Vec<Vec<String>>, run: &RootRun)
    ensures
        paths_view(final(out)@) == paths_view(old(out)@) + run_records(*run),
{
    let mut i: usize = 0;
    let ghost want = run_records(*run);
    proof {
        assert(paths_view(out@) =~= paths_view(old(out)@) + want.subrange(0, 0));
    }
    while i < run.records.len()
        invariant
            i <= run.records@.len(),
            want == run_records(*run),
            out@.len() == old(out)@.len() + i,
            paths_view(out@) == paths_view(old(out)@) + want.subrange(0, i as int),
        decreases run.records.len() - i,
    {
        let p = join_path(&run.root, &run.records[i]);
        let ghost before = out@;
        out.push(p);
        proof {
            let target = paths_view(old(out)@) + want.subrange(0, i + 1);
            assert forall|j: int| 0 <= j < out@.len() implies paths_view(out@)[j] == target[j] by {
                if j < before.len() {
                    assert(out@[j] == before[j]);
                    assert(paths_view(before)[j] == (paths_view(old(out)@) + want.subrange(0, i as int))[j]);
                }
            }
            assert(paths_view(out@) =~= target);
        }
        i = i + 1;
    }
    proof {
        assert(want.subrange(0, want.len() as int) =~= want);
    }
}

/// The changed paths of all world roots, in order. A root whose run failed is
/// passed over: what it changed on disk stays, but it adds no record.
pub fn convert_worlds(runs: &Vec<RootRun>) -> (r: Vec<Vec<String>>)
    ensures
        paths_view(r@) == ok_records(runs@),
{
    let mut out: Vec<Vec<String>> = Vec::new();
    let mut i: usize = 0;
    proof {
        assert(runs@.subrange(0, 0).len() == 0);
        assert(paths_view(out@) =~= Seq::<PathV>::empty());
    }
    while i < runs.len()
        invariant
            i <= runs@.len(),
            paths_view(out@) == ok_records(runs@.subrange(0, i as int)),
        decreases runs.len() - i,
    {
        proof {
            assert(runs@.subrange(0, i + 1).drop_last() =~= runs@.subrange(0, i as int));
        }
        if runs[i].ok {
            push_run(&mut out, &runs[i]);
        } else {
            assert(paths_view(out@) + seq![] =~= paths_view(out@));
        }
        i = i + 1;
    }
    proof {
        assert(runs@.subrange(0, runs@.len() as int) =~= runs@);
    }
    out
}

/// The changed paths of every run, in order.
pub open spec fn all_records(runs: Seq<RootRun>) -> Seq<PathV>
    decreases runs.len(),
{
    if runs.len() == 0 {
        seq![]
    } else {
        all_records(runs.drop_last()) + run_records(runs.last())
    }
}

/// The changed paths of all plugin roots, in order, or the index of the first
/// root whose run failed: one failure fails the whole operation.
pub fn convert_plugins(runs: &Vec<RootRun>) -> (r: Result<Vec<Vec<String>>, usize>)
    ensures
        r.is_ok() == (forall|i: int| 0 <= i < runs@.len() ==> (#[trigger] runs@[i]).ok),
        r.is_ok() ==> paths_view(r->Ok_0@) == all_records(runs@),
        r.is_err() ==> r->Err_0 < runs@.len() && !runs@[r->Err_0 as int].ok && forall|i: int|
            0 <= i < r->Err_0 ==> (#[trigger] runs@[i]).ok,
{
    let mut out: Vec<Vec<String>> = Vec::new();
    let mut i: usize = 0;
    proof {
        assert(runs@.subrange(0, 0).len() == 0);
        assert(paths_view(out@) =~= Seq::<PathV>::empty());
    }
    while i < runs.len()
        invariant
            i <= runs@.len(),
            forall|t: int| 0 <= t < i ==> (#[trigger] runs@[t]).ok,
            paths_view(out@) == all_records(runs@.subrange(0, i as int)),
        decreases runs.len() - i,
    {
        if !runs[i].ok {
            return Err(i);
        }
        proof {
            assert(runs@.subrange(0, i + 1).drop_last() =~= runs@.subrange(0, i as int));
        }
        push_run(&mut out, &runs[i]);
        i = i + 1;
    }
    proof {
        assert(runs@.subrange(0, runs@.len() as int) =~= runs@);
    }
    Ok(out)
}

// ---------------------------------------------------------------------------
// Roots

/// How probing a child of a scanned directory went.
pub enum Probe {
    /// The child could not be examined; the scan passes over it.
    Failed,
    /// The child was examined: whether it is a directory, and whether a
    /// `level.dat` stands directly inside it.
    Found { is_dir: bool, has_marker: bool },
}

/// One child of a scanned directory, in listing order.
pub struct Child {
    pub name: String,
    pub probe: Probe,
}

pub open spec fn is_world(c: Child) -> bool {
    match c.probe {
        Probe::Found { is_dir, has_marker } => has_marker,
        Probe::Failed => false,
    }
}

pub open spec fn is_plugin(c: Child) -> bool {
    match c.probe {
        Probe::Found { is_dir, has_marker } => is_dir,
        Probe::Failed => false,
    }
}

/// The names of the children that hold a `level.dat`, in listing order.
pub open spec fn world_names(cs: Seq<Child>) -> Seq<Seq<char>>
    decreases cs.len(),
{
    if cs.len() == 0 {
        seq![]
    } else {
        world_names(cs.drop_last()) + if is_world(cs.last()) {
            seq![cs.last().name@]
        } else {
            seq![]
        }
    }
}

/// The names of the children that are directories, in listing order.
pub open spec fn plugin_names(cs: Seq<Child>) -> Seq<Seq<char>>
    decreases cs.len(),
{
    if cs.len() == 0 {
        seq![]
    } else {
        plugin_names(cs.drop_last()) + if is_plugin(cs.last()) {
            seq![cs.last().name@]
        } else {
            seq![]
        }
    }
}

/// The world roots among the children of the base directory: those with a
/// `level.dat` directly inside, in listing order.
pub fn scan_worlds(children: &Vec<Child>) -> (r: Vec<String>)
    ensures
        path_view(r@) == world_names(children@),
{
    let mut out: Vec<String> = Vec::new();
    let mut i: usize = 0;
    proof {
        assert(children@.subrange(0, 0).len() == 0);
        assert(path_view(out@) =~= Seq::<Seq<char>>::empty());
    }
    while i < children.len()
        invariant
            i <= children@.len(),
            path_view(out@) == world_names(children@.subrange(0, i as int)),
        decreases children.len() - i,
    {
        proof {
            assert(children@.subrange(0, i + 1).drop_last() =~= children@.subrange(0, i as int));
        }
        let keep = match children[i].probe {
            Probe::Found { is_dir: _, has_marker } => has_marker,
            Probe::Failed => false,
        };
        if keep {
            let ghost before = out@;
            let s = children[i].name.clone();
            out.push(s);
            proof {
                assert(path_view(out@) =~= path_view(before) + seq![s@]);
            }
        } else {
            assert(path_view(out@) + seq![] =~= path_view(out@));
        }
        i = i + 1;
    }
    proof {
        assert(children@.subrange(0, children@.len() as int) =~= children@);
    }
    out
}

/// The plugin roots among the children of the `plugins` directory: those that
/// are directories, in listing order.
pub fn scan_plugins(children: &Vec<Child>) -> (r: Vec<String>)
    ensures
        path_view(r@) == plugin_names(children@),
{
    let mut out: Vec<String> = Vec::new();
    let mut i: usize = 0;
    proof {
        assert(children@.subrange(0, 0).len() == 0);
        assert(path_view(out@) =~= Seq::<Seq<char>>::empty());
    }
    while i < children.len()
        invariant
            i <= children@.len(),
            path_view(out@) == plugin_names(children@.subrange(0, i as int)),
        decreases children.len() - i,
    {
        proof {
            assert(children@.subrange(0, i + 1).drop_last() =~= children@.subrange(0, i as int));
        }
        let keep = match children[i].probe {
            Probe::Found { is_dir, has_marker: _ } => is_dir,
            Probe::Failed => false,
        };
        if keep {
            let ghost before = out@;
            let s = children[i].name.clone();
            out.push(s);
            proof {
                assert(path_view(out@) =~= path_view(before) + seq![s@]);
            }
        } else {
            assert(path_view(out@) + seq![] =~= path_view(out@));
        }
        i = i + 1;
    }
    proof {
        assert(children@.subrange(0, children@.len() as int) =~= children@);
    }
    out
}

// ---------------------------------------------------------------------------
// Options

/// One operation of a conversion run.
pub enum ConvertOption {
    /// Stem and directory renames in every world root.
    World,
    /// Stem and directory renames and text substitution in every plugin root.
    PluginText,
}

/// Why a conversion run stopped.
pub enum ConvertError {
    /// An option that names no operation.
    UnknownOption(String),
}

/// The text that names option `s` as unknown.
pub open spec fn unknown_option_message(s: Seq<char>) -> Seq<char> {
    "Unknown convert option: "@ + s
}

impl ConvertError {
    /// A sentence that describes the error.
    pub fn message(&self) -> (r: String)
        ensures
            match self {
                ConvertError::UnknownOption(s) => r@ == unknown_option_message(s@),
            },
    {
        match self {
            ConvertError::UnknownOption(s) => String::from_str("Unknown convert option: ").concat(
                s.as_str(),
            ),
        }
    }
}

/// The operation that option `s` names: `world` or `plugin_text`; any other
/// text is an error.
pub fn parse_option(s: &str) -> (r: Result<ConvertOption, ConvertError>)
    ensures
        s@ == "world"@ <==> r matches Ok(ConvertOption::World),
        s@ == "plugin_text"@ <==> r matches Ok(ConvertOption::PluginText),
        r.is_err() <==> (s@ != "world"@ && s@ != "plugin_text"@),
        r matches Err(ConvertError::UnknownOption(t)) ==> t@ == s@,
{
    proof {
        reveal_strlit("world");
        reveal_strlit("plugin_text");
        assert("world"@[0] != "plugin_text"@[0]);
    }
    let given = String::from_str(s);
    if given == String::from_str("world") {
        Ok(ConvertOption::World)
    } else if given == String::from_str("plugin_text") {
        Ok(ConvertOption::PluginText)
    } else {
        Err(ConvertError::UnknownOption(given))
    }
}

} // verus!
