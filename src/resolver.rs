use vstd::prelude::*;

use crate::ast::{Module, Name};
use crate::parser::{seek_file, seek_spec};

verus! {

/// Where a requested file stands.
#[derive(Debug, Clone, Copy, PartialEq, Eq, Structural)]
pub enum TaskState {
    /// Requested, not yet handed out to be parsed.
    Queued,
    /// Handed out; its module has not come back.
    Running,
    /// Parsed; its module is held.
    Parsed,
}

/// One requested file: its path, the file whose import requested it, how many of its
/// own imports are not yet complete, and whether its whole import tree is complete.
pub struct Node {
    pub path: String,
    pub parent: Option<usize>,
    pub state: TaskState,
    pub open: usize,
    pub complete: bool,
    pub module: Option<Module>,
}

/// The number of nodes handed out and not yet back.
pub open spec fn running(s: Seq<Node>) -> nat
    decreases s.len(),
{
    if s.len() == 0 {
        0
    } else {
        running(s.drop_last()) + if s.last().state == TaskState::Running {
            1nat
        } else {
            0nat
        }
    }
}

/// The number of nodes whose import tree is not complete.
pub open spec fn incomplete(s: Seq<Node>) -> nat
    decreases s.len(),
{
    if s.len() == 0 {
        0
    } else {
        incomplete(s.drop_last()) + if s.last().complete {
            0nat
        } else {
            1nat
        }
    }
}

proof fn lemma_counts_update(s: Seq<Node>, i: int, x: Node)
    requires
        0 <= i < s.len(),
    ensures
        running(s.update(i, x)) + (if s[i].state == TaskState::Running {
            1int
        } else {
            0int
        }) == running(s) + (if x.state == TaskState::Running {
            1int
        } else {
            0int
        }),
        incomplete(s.update(i, x)) + (if s[i].complete {
            0int
        } else {
            1int
        }) == incomplete(s) + (if x.complete {
            0int
        } else {
            1int
        }),
    decreases s.len(),
{
    if i < s.len() - 1 {
        lemma_counts_update(s.drop_last(), i, x);
        assert(s.update(i, x).drop_last() =~= s.drop_last().update(i, x));
    } else {
        assert(s.update(i, x).drop_last() =~= s.drop_last());
    }
}

proof fn lemma_counts_push(s: Seq<Node>, x: Node)
    ensures
        running(s.push(x)) == running(s) + if x.state == TaskState::Running {
            1nat
        } else {
            0nat
        },
        incomplete(s.push(x)) == incomplete(s) + if x.complete {
            0nat
        } else {
            1nat
        },
{
    assert(s.push(x).drop_last() =~= s);
}

proof fn lemma_counts_bounded(s: Seq<Node>)
    ensures
        running(s) <= s.len(),
        incomplete(s) <= s.len(),
    decreases s.len(),
{
    if s.len() > 0 {
        lemma_counts_bounded(s.drop_last());
    }
}

proof fn lemma_none_running(s: Seq<Node>)
    requires
        running(s) == 0,
    ensures
        forall|i: int| 0 <= i < s.len() ==> (#[trigger] s[i]).state != TaskState::Running,
    decreases s.len(),
{
    if s.len() > 0 {
        lemma_none_running(s.drop_last());
        assert(forall|i: int| 0 <= i < s.len() - 1 ==> s.drop_last()[i] == s[i]);
    }
}

proof fn lemma_none_incomplete(s: Seq<Node>)
    requires
        incomplete(s) == 0,
    ensures
        forall|i: int| 0 <= i < s.len() ==> (#[trigger] s[i]).complete,
    decreases s.len(),
{
    if s.len() > 0 {
        lemma_none_incomplete(s.drop_last());
        assert(forall|i: int| 0 <= i < s.len() - 1 ==> s.drop_last()[i] == s[i]);
    }
}

/// Whether node `n` is an import of file `p` whose tree is not complete.
pub open spec fn open_child(n: Node, p: int) -> bool {
    n.parent == Some(p as usize) && !n.complete && p >= 0
}

/// The number of imports of file `p` whose trees are not complete.
pub open spec fn open_children(s: Seq<Node>, p: int) -> nat
    decreases s.len(),
{
    if s.len() == 0 {
        0
    } else {
        open_children(s.drop_last(), p) + if open_child(s.last(), p) {
            1nat
        } else {
            0nat
        }
    }
}

proof fn lemma_oc_update(s: Seq<Node>, m: int, x: Node, p: int)
    requires
        0 <= m < s.len(),
    ensures
        open_children(s.update(m, x), p) + (if open_child(s[m], p) {
            1int
        } else {
            0int
        }) == open_children(s, p) + (if open_child(x, p) {
            1int
        } else {
            0int
        }),
    decreases s.len(),
{
    if m < s.len() - 1 {
        lemma_oc_update(s.drop_last(), m, x, p);
        assert(s.update(m, x).drop_last() =~= s.drop_last().update(m, x));
    } else {
        assert(s.update(m, x).drop_last() =~= s.drop_last());
    }
}

proof fn lemma_oc_push(s: Seq<Node>, x: Node, p: int)
    ensures
        open_children(s.push(x), p) == open_children(s, p) + if open_child(x, p) {
            1nat
        } else {
            0nat
        },
{
    assert(s.push(x).drop_last() =~= s);
}

proof fn lemma_oc_zero(s: Seq<Node>, p: int)
    requires
        forall|j: int| 0 <= j < s.len() ==> !open_child(#[trigger] s[j], p),
    ensures
        open_children(s, p) == 0,
    decreases s.len(),
{
    if s.len() > 0 {
        assert(forall|j: int| 0 <= j < s.len() - 1 ==> s.drop_last()[j] == s[j]);
        lemma_oc_zero(s.drop_last(), p);
    }
}

proof fn lemma_oc_bounded(s: Seq<Node>, p: int)
    ensures
        open_children(s, p) <= s.len(),
    decreases s.len(),
{
    if s.len() > 0 {
        lemma_oc_bounded(s.drop_last(), p);
    }
}

/// Whether node `p` of `s` has been parsed.
#[verifier::opaque]
pub open spec fn parsed_at(s: Seq<Node>, p: int) -> bool {
    0 <= p < s.len() && s[p].state == TaskState::Parsed
}

/// Whether each file's parent was requested before it and has been parsed.
pub open spec fn parents_ok(s: Seq<Node>) -> bool {
    forall|i: int|
        0 <= i < s.len() ==> match (#[trigger] s[i]).parent {
            Some(p) => p < i && parsed_at(s, p as int),
            None => true,
        }
}

/// Whether every node but `x` counts its open imports.
pub open spec fn counts_ok_except(s: Seq<Node>, x: int) -> bool {
    forall|i: int| 0 <= i < s.len() && i != x ==> (#[trigger] s[i]).open == open_children(s, i)
}

/// Whether every node but `x` is complete exactly when it is parsed with no open import.
pub open spec fn complete_ok_except(s: Seq<Node>, x: int) -> bool {
    forall|i: int|
        0 <= i < s.len() && i != x ==> ((#[trigger] s[i]).complete <==> (s[i].state
            == TaskState::Parsed && s[i].open == 0))
}

/// When every requested file is parsed and the counts are right, every tree is complete.
proof fn lemma_all_parsed_complete(s: Seq<Node>, k: int)
    requires
        0 <= k <= s.len(),
        s.len() <= usize::MAX,
        parents_ok(s),
        counts_ok_except(s, -1),
        complete_ok_except(s, -1),
        forall|i: int| 0 <= i < s.len() ==> (#[trigger] s[i]).state == TaskState::Parsed,
    ensures
        forall|i: int| k <= i < s.len() ==> (#[trigger] s[i]).complete,
    decreases s.len() - k,
{
    if k < s.len() {
        lemma_all_parsed_complete(s, k + 1);
        assert forall|j: int| 0 <= j < s.len() implies !open_child(#[trigger] s[j], k) by {
            if s[j].parent == Some(k as usize) {
                assert(k < j);
            }
        }
        lemma_oc_zero(s, k);
        assert(s[k].complete);
    }
}

/// The paths `acc` after each of the first `n` of `files` is added, unless it is there
/// already.
pub open spec fn add_paths(acc: Seq<Seq<char>>, files: Seq<Seq<char>>, n: int) -> Seq<Seq<char>>
    decreases n,
{
    if n <= 0 || n > files.len() {
        acc
    } else {
        let p = add_paths(acc, files, n - 1);
        if p.contains(files[n - 1]) {
            p
        } else {
            p.push(files[n - 1])
        }
    }
}

/// Whether two lists of nodes hold the same files in the same states with the same
/// modules.
pub open spec fn keeps_modules(a: Seq<Node>, b: Seq<Node>) -> bool {
    &&& a.len() == b.len()
    &&& forall|i: int|
        0 <= i < a.len() ==> (#[trigger] a[i]).state == b[i].state && a[i].module == b[i].module
            && a[i].path == b[i].path && a[i].parent == b[i].parent
}

/// Whether the requested files form a closed import tree: the entry has no parent; every
/// parsed file's imports are all requested; and every other file is an import of an
/// earlier file that has been parsed.
#[verifier::opaque]
pub open spec fn closed_tree(s: Seq<Node>) -> bool {
    &&& s.len() >= 1 ==> s[0].parent is None
    &&& forall|i: int|
        0 <= i < s.len() && (#[trigger] s[i]).state == TaskState::Parsed ==> s[i].module is Some
            && forall|f: Seq<char>|
            #[trigger] import_files(s[i].module->0).contains(f) ==> paths(s).contains(f)
    &&& forall|i: int|
        0 < i < s.len() ==> (#[trigger] s[i]).parent is Some && (s[i].parent->0 as int) < i
            && imported_by(s, s[i].parent->0 as int, s[i].path@)
}

/// Whether file `p` of `s` has been parsed and imports `f`.
#[verifier::opaque]
pub open spec fn imported_by(s: Seq<Node>, p: int, f: Seq<char>) -> bool {
    0 <= p < s.len() && s[p].module is Some && import_files(s[p].module->0).contains(f)
}

/// Every path of `acc` and every one of the first `n` files is among the paths after
/// adding them.
proof fn lemma_add_paths(acc: Seq<Seq<char>>, files: Seq<Seq<char>>, n: int)
    requires
        0 <= n <= files.len(),
    ensures
        forall|f: Seq<char>| #[trigger] acc.contains(f) ==> add_paths(acc, files, n).contains(f),
        forall|j: int| 0 <= j < n ==> add_paths(acc, files, n).contains(#[trigger] files[j]),
        add_paths(acc, files, n).len() >= acc.len(),
        add_paths(acc, files, n).subrange(0, acc.len() as int) == acc,
    decreases n,
{
    if n > 0 {
        lemma_add_paths(acc, files, n - 1);
        let p = add_paths(acc, files, n - 1);
        if !p.contains(files[n - 1]) {
            assert(p.push(files[n - 1]).subrange(0, acc.len() as int) =~= p.subrange(0, acc.len() as int));
            assert(p.push(files[n - 1])[p.len() as int] == files[n - 1]);
            assert forall|f: Seq<char>| p.contains(f) implies #[trigger] p.push(files[n - 1]).contains(f) by {
                let w = choose|w: int| 0 <= w < p.len() && p[w] == f;
                assert(p.push(files[n - 1])[w] == f);
            }
        }
    }
}

/// A file handed out and not yet back stays out of the tree's conditions while it runs.
proof fn lemma_closed_start(a: Seq<Node>, i: int, x: Node)
    requires
        closed_tree(a),
        0 <= i < a.len(),
        a[i].state == TaskState::Queued,
        x.state == TaskState::Running,
        x.path == a[i].path,
        x.parent == a[i].parent,
        x.module == a[i].module,
    ensures
        closed_tree(a.update(i, x)),
{
    reveal(closed_tree);
    reveal(imported_by);
    let b = a.update(i, x);
    assert(paths(b) =~= paths(a));
    assert forall|j: int| 0 < j < b.len() implies (#[trigger] b[j]).parent is Some && (b[j].parent->0 as int)
        < j && imported_by(b, b[j].parent->0 as int, b[j].path@) by {
        assert(imported_by(a, a[j].parent->0 as int, a[j].path@));
    }
}

proof fn lemma_closed_keep(a: Seq<Node>, b: Seq<Node>)
    requires
        keeps_modules(a, b),
        closed_tree(b),
    ensures
        closed_tree(a),
{
    reveal(closed_tree);
    reveal(imported_by);
    assert(paths(a) =~= paths(b));
}

/// The paths of a list of requested files.
pub open spec fn paths(s: Seq<Node>) -> Seq<Seq<char>> {
    s.map_values(|n: Node| n.path@)
}

/// What the driver of a resolution is to do next.
pub enum Action {
    /// Read and parse this file, then report its module with `finish_task`.
    Parse(String),
    /// Nothing can be handed out now; wait for a running task to finish.
    Wait,
    /// Every requested file has been parsed, with its whole import tree.
    Done,
}

/// Finds the files of a program from its entry file: each parsed file names the files
/// it imports, which are requested in turn, once each. A counter of tasks handed out
/// and not yet back, and a counter of requested files whose import tree is not yet
/// complete, tell when the set of modules is closed.
pub struct Resolver {
    pub nodes: Vec<Node>,
    pub task_counter: usize,
    pub block_counter: usize,
}

impl Resolver {
    pub open spec fn wf(&self) -> bool {
        &&& self.base_ok()
        &&& counts_ok_except(self.nodes@, -1)
        &&& complete_ok_except(self.nodes@, -1)
        &&& closed_tree(self.nodes@)
    }

    /// The invariant but for the open counts and completeness of nodes.
    pub open spec fn base_ok(&self) -> bool {
        &&& self.task_counter == running(self.nodes@)
        &&& self.block_counter == incomplete(self.nodes@)
        &&& parents_ok(self.nodes@)
        &&& forall|i: int|
            0 <= i < self.nodes@.len() ==> ((#[trigger] self.nodes@[i]).state == TaskState::Parsed
                <==> self.nodes@[i].module is Some)
        &&& forall|i: int, j: int|
            0 <= i < j < self.nodes@.len() ==> (#[trigger] self.nodes@[i]).path@
                != (#[trigger] self.nodes@[j]).path@
    }

    /// The paths requested so far.
    pub open spec fn requested(&self) -> Seq<Seq<char>> {
        paths(self.nodes@)
    }

    /// Whether every requested file has been parsed, with its whole import tree.
    pub open spec fn done(&self) -> bool {
        &&& self.task_counter == 0
        &&& self.block_counter == 0
        &&& forall|i: int| 0 <= i < self.nodes@.len() ==> (#[trigger] self.nodes@[i]).state
            != TaskState::Queued
    }

    /// A resolution that requests the entry file at `entry`, a path written with `/`.
    pub fn new(entry: &str) -> (r: Resolver)
        ensures
            r.wf(),
            r.nodes@.len() == 1,
            r.nodes@[0].state == TaskState::Queued,
            r.nodes@[0].path@ == seek_spec(crate::ast::path_segments(entry@), false).0,
            r.task_counter == 0,
            r.block_counter == 1,
    {
        let name = Name::from_path(entry);
        let (path, _) = seek_file(&name, false);
        let mut nodes: Vec<Node> = Vec::new();
        nodes.push(
            Node {
                path,
                parent: None,
                state: TaskState::Queued,
                open: 0,
                complete: false,
                module: None,
            },
        );
        proof {
            let e = Seq::<Node>::empty();
            assert(nodes@ =~= e.push(nodes@[0]));
            assert(running(e) == 0);
            assert(incomplete(e) == 0);
            lemma_counts_push(e, nodes@[0]);
            assert(open_children(e, 0) == 0);
            lemma_oc_push(e, nodes@[0], 0);
        }
        proof {
            reveal(closed_tree);
        }
        Resolver { nodes, task_counter: 0, block_counter: 1 }
    }

    /// Hands out the next queued file to be parsed. When none is queued, the resolution
    /// is done if no file is being parsed; otherwise the driver waits for one.
    pub fn next_action(&mut self) -> (r: Action)
        requires
            old(self).wf(),
        ensures
            final(self).wf(),
            final(self).requested() == old(self).requested(),
            r is Done <==> old(self).done(),
            r is Done ==> *final(self) == *old(self),
            r is Wait ==> old(self).task_counter > 0 && *final(self) == *old(self),
            r is Parse ==> final(self).task_counter == old(self).task_counter + 1 && exists|i: int|
                0 <= i < old(self).nodes@.len() && old(self).nodes@[i].state == TaskState::Queued
                    && final(self).nodes@[i].state == TaskState::Running && (
                #[trigger] old(self).nodes@[i]).path@ == r->Parse_0@,
    {
        let mut i: usize = 0;
        while i < self.nodes.len()
            invariant
                self.wf(),
                *self == *old(self),
                i <= self.nodes@.len(),
                forall|j: int| 0 <= j < i ==> (#[trigger] self.nodes@[j]).state != TaskState::Queued,
            decreases self.nodes.len() - i,
        {
            if self.nodes[i].state == TaskState::Queued {
                let path = self.nodes[i].path.clone();
                let ghost before = self.nodes@;
                let mut node = self.nodes.remove(i);
                node.state = TaskState::Running;
                self.nodes.insert(i, node);
                proof {
                    let x = self.nodes@[i as int];
                    assert(self.nodes@ =~= before.update(i as int, x));
                    lemma_closed_start(before, i as int, x);
                    lemma_counts_update(before, i as int, x);
                    lemma_counts_bounded(self.nodes@);
                    assert(forall|j: int| 0 <= j < self.nodes@.len() && j != i ==> self.nodes@[j] == before[j]);
                    assert(self.requested() =~= old(self).requested());
                    assert forall|p: int| 0 <= p < self.nodes@.len() implies #[trigger] open_children(
                        self.nodes@,
                        p,
                    ) == open_children(before, p) by {
                        lemma_oc_update(before, i as int, x, p);
                    }
                    assert forall|j: int| 0 <= j < self.nodes@.len() implies match (#[trigger] self.nodes@[j]).parent {
                        Some(p) => p < j && parsed_at(self.nodes@, p as int),
                        None => true,
                    } by {
                        reveal(parsed_at);
                        if let Some(p) = self.nodes@[j].parent {
                            assert(parsed_at(before, p as int));
                            assert(p != i);
                        }
                    }
                }
                let n = self.nodes.len();
                assert(self.task_counter + 1 <= n);
                self.task_counter = self.task_counter + 1;
                return Action::Parse(path);
            }
            i = i + 1;
        }
        if self.task_counter == 0 && self.block_counter == 0 {
            Action::Done
        } else {
            proof {
                if self.task_counter == 0 {
                    let n = self.nodes.len();
                    lemma_none_running(self.nodes@);
                    lemma_all_parsed_complete(self.nodes@, 0);
                    lemma_complete_count(self.nodes@);
                }
            }
            Action::Wait
        }
    }
}

/// With every tree complete, the count of incomplete trees is zero.
proof fn lemma_complete_count(s: Seq<Node>)
    requires
        forall|i: int| 0 <= i < s.len() ==> (#[trigger] s[i]).complete,
    ensures
        incomplete(s) == 0,
    decreases s.len(),
{
    if s.len() > 0 {
        assert(forall|i: int| 0 <= i < s.len() - 1 ==> s.drop_last()[i] == s[i]);
        lemma_complete_count(s.drop_last());
    }
}

/// The files a module imports, in the order of its import table: the file of each
/// imported symbol, or the imported module's own path.
pub open spec fn import_files(m: Module) -> Seq<Seq<char>> {
    match m.imports {
        None => Seq::empty(),
        Some(t) => t@.map_values(
            |e: (crate::ast::ImportKey, Option<String>)|
                match e.1 {
                    Some(p) => p@,
                    None => match e.0 {
                        crate::ast::ImportKey::Symbol(s) => s@,
                        crate::ast::ImportKey::Module(p) => p@,
                    },
                },
        ),
    }
}

pub fn import_paths(m: &Module) -> (r: Vec<String>)
    ensures
        r@.map_values(|s: String| s@) == import_files(*m),
{
    let mut out: Vec<String> = Vec::new();
    match &m.imports {
        None => {
            proof {
                assert(out@.map_values(|s: String| s@) =~= import_files(*m));
            }
        },
        Some(t) => {
            let mut i: usize = 0;
            while i < t.len()
                invariant
                    m.imports == Some(*t),
                    i <= t@.len(),
                    out@.len() == i,
                    forall|j: int|
                        0 <= j < i ==> (#[trigger] out@[j])@ == import_files(*m)[j],
                decreases t.len() - i,
            {
                let p = match &t[i].1 {
                    Some(p) => p.clone(),
                    None => match &t[i].0 {
                        crate::ast::ImportKey::Symbol(s) => s.clone(),
                        crate::ast::ImportKey::Module(p) => p.clone(),
                    },
                };
                out.push(p);
                i = i + 1;
            }
            proof {
                assert(out@.map_values(|s: String| s@) =~= import_files(*m));
            }
        },
    }
    out
}

impl Resolver {
    fn find_path(&self, path: &String) -> (r: Option<usize>)
        ensures
            match r {
                Some(i) => i < self.nodes@.len() && self.nodes@[i as int].path@ == path@,
                None => forall|j: int| 0 <= j < self.nodes@.len() ==> (#[trigger] self.nodes@[j]).path@ != path@,
            },
    {
        let mut i: usize = 0;
        while i < self.nodes.len()
            invariant
                i <= self.nodes@.len(),
                forall|j: int| 0 <= j < i ==> (#[trigger] self.nodes@[j]).path@ != path@,
            decreases self.nodes.len() - i,
        {
            if self.nodes[i].path == *path {
                return Some(i);
            }
            i = i + 1;
        }
        None
    }

    /// Takes back the module parsed from the file at `path`, handed out before. Each
    /// file it imports that was never requested is requested now; when none is left
    /// open, the file's import tree is complete, and so may be the trees of the files
    /// that requested it. Returns `false`, changing nothing, when `path` is not a file
    /// being parsed.
    pub fn finish_task(&mut self, path: &String, module: Module) -> (r: bool)
        requires
            old(self).wf(),
        ensures
            final(self).wf(),
            r <==> exists|k: int|
                0 <= k < old(self).nodes@.len() && (#[trigger] old(self).nodes@[k]).path@ == path@
                    && old(self).nodes@[k].state == TaskState::Running,
            r ==> final(self).requested() == add_paths(
                old(self).requested(),
                import_files(module),
                import_files(module).len() as int,
            ),
            r ==> forall|k: int|
                0 <= k < old(self).nodes@.len() && (#[trigger] old(self).nodes@[k]).path@ == path@
                    ==> final(self).nodes@[k].state == TaskState::Parsed
                    && final(self).nodes@[k].module == Some(module),
            r ==> forall|k: int|
                0 <= k < old(self).nodes@.len() && (#[trigger] old(self).nodes@[k]).path@ != path@
                    ==> final(self).nodes@[k].state == old(self).nodes@[k].state
                    && final(self).nodes@[k].module == old(self).nodes@[k].module,
            r ==> forall|k: int|
                old(self).nodes@.len() <= k < final(self).nodes@.len() ==> (
                #[trigger] final(self).nodes@[k]).state == TaskState::Queued,
            r ==> final(self).task_counter + 1 == old(self).task_counter,
            !r ==> *final(self) == *old(self),
    {
        let k = match self.find_path(path) {
            Some(k) => k,
            None => {
                return false;
            },
        };
        if self.nodes[k].state != TaskState::Running {
            proof {
                assert forall|j: int|
                    0 <= j < self.nodes@.len() && (#[trigger] self.nodes@[j]).path@ == path@ implies self.nodes@[j].state
                    != TaskState::Running by {
                    if j != k {
                        assert(self.nodes@[j].path@ != self.nodes@[k as int].path@);
                    }
                }
            }
            return false;
        }
        let imports = import_paths(&module);
        let ghost files = import_files(module);
        let ghost m = module;
        let ghost before_nodes = self.nodes@;
        self.mark_parsed(k, module);
        let ghost start = self.nodes@;
        proof {
            assert(paths(start) =~= paths(before_nodes));
            assert(add_paths(paths(start), files, 0) == paths(start));
        }
        let mut opened: usize = 0;
        let mut i: usize = 0;
        while i < imports.len()
            invariant
                self.base_ok(),
                counts_ok_except(self.nodes@, k as int),
                complete_ok_except(self.nodes@, k as int),
                k < start.len(),
                self.nodes@.len() >= start.len(),
                self.nodes@.subrange(0, start.len() as int) == start,
                start.len() == old(self).nodes@.len(),
                paths(start) == old(self).requested(),
                self.nodes@[k as int].state == TaskState::Parsed,
                self.nodes@[k as int].open == 0,
                !self.nodes@[k as int].complete,
                opened as int == open_children(self.nodes@, k as int),
                self.task_counter + 1 == old(self).task_counter,
                i <= imports@.len(),
                imports@.map_values(|s: String| s@) == files,
                forall|j: int| 0 <= j < i ==> paths(self.nodes@).contains(#[trigger] files[j]),
                paths(self.nodes@) == add_paths(paths(start), files, i as int),
                self.nodes@[k as int].module == Some(m),
                forall|j: int| start.len() <= j < self.nodes@.len() ==> (#[trigger] self.nodes@[j]).state == TaskState::Queued
                    && self.nodes@[j].parent == Some(k) && files.contains(self.nodes@[j].path@),
            decreases imports.len() - i,
        {
            let ghost fi = files[i as int];
            assert(imports@[i as int]@ == fi);
            match self.find_path(&imports[i]) {
                Some(j) => {
                    assert(paths(self.nodes@)[j as int] == fi);
                    assert(paths(self.nodes@).contains(fi));
                },
                None => {
                    let ghost prev = self.nodes@;
                    proof {
                        assert(!paths(prev).contains(fi)) by {
                            if paths(prev).contains(fi) {
                                let v = choose|v: int| 0 <= v < paths(prev).len() && paths(prev)[v] == fi;
                                assert(prev[v].path@ == fi);
                            }
                        }
                    }
                    self.add_import(k, &imports[i], opened);
                    opened = opened + 1;
                    proof {
                        let w = (self.nodes@.len() - 1) as int;
                        assert(paths(self.nodes@)[w] == fi);
                        assert(paths(self.nodes@) =~= paths(prev).push(fi)) by {
                            assert(self.nodes@.drop_last() == prev);
                        }
                        assert forall|j: int| start.len() <= j < self.nodes@.len() implies (
                        #[trigger] self.nodes@[j]).state == TaskState::Queued
                            && self.nodes@[j].parent == Some(k) && files.contains(self.nodes@[j].path@) by {
                            if j < prev.len() {
                                assert(self.nodes@.drop_last()[j] == prev[j]);
                            } else {
                                assert(files[i as int] == fi);
                            }
                        }
                        assert(forall|j: int| 0 <= j < prev.len() ==> self.nodes@[j] == prev[j]) by {
                            assert(self.nodes@.drop_last() == prev);
                        }
                        assert(self.nodes@.subrange(0, start.len() as int) =~= start) by {
                            assert(prev.subrange(0, start.len() as int) == start);
                        }
                        assert forall|j: int| 0 <= j < i implies paths(self.nodes@).contains(
                            #[trigger] files[j],
                        ) by {
                            let v = choose|v: int| 0 <= v < prev.len() && #[trigger] paths(prev)[v] == files[j];
                            assert(paths(self.nodes@)[v] == files[j]);
                        }
                    }
                },
            }
            i = i + 1;
        }
        proof {
            assert(paths(self.nodes@).subrange(0, start.len() as int) =~= paths(start)) by {
                assert(self.nodes@.subrange(0, start.len() as int) == start);
            }
        }
        let ghost before_settle = self.nodes@;
        proof {
            assert(self.nodes@[k as int] == start[k as int]) by {
                assert(self.nodes@.subrange(0, start.len() as int)[k as int] == self.nodes@[k as int]);
            }
            assert forall|j: int| 0 <= j < old(self).nodes@.len() && j != k implies #[trigger] self.nodes@[j]
                == old(self).nodes@[j] by {
                assert(self.nodes@.subrange(0, start.len() as int)[j] == self.nodes@[j]);
                assert(start[j] == before_nodes[j]);
            }
            assert(self.nodes@.len() <= usize::MAX) by {
                vstd::std_specs::vec::axiom_spec_len(&self.nodes);
            }
            lemma_closed_finish(old(self).nodes@, self.nodes@, k as int, m, files);
        }
        self.settle(k, opened);
        proof {
            assert(paths(self.nodes@) =~= paths(before_settle)) by {
                assert(forall|j: int| 0 <= j < self.nodes@.len() ==> (#[trigger] self.nodes@[j]).path == before_settle[j].path);
            }
            assert forall|j: int| 0 <= j < start.len() implies (#[trigger] before_settle[j]) == start[j] by {
                assert(before_settle.subrange(0, start.len() as int)[j] == before_settle[j]);
            }
            assert forall|j: int|
                0 <= j < old(self).nodes@.len() && (#[trigger] old(self).nodes@[j]).path@ == path@ implies j == k by {
                if j != k {
                    assert(old(self).nodes@[j].path@ != old(self).nodes@[k as int].path@);
                }
            }
        }
        true
    }

    /// Marks the file at `k`, being parsed, as parsed into `module`, with no import
    /// counted yet.
    fn mark_parsed(&mut self, k: usize, module: Module)
        requires
            old(self).wf(),
            k < old(self).nodes@.len(),
            old(self).nodes@[k as int].state == TaskState::Running,
        ensures
            final(self).base_ok(),
            counts_ok_except(final(self).nodes@, k as int),
            complete_ok_except(final(self).nodes@, k as int),
            final(self).nodes@.len() == old(self).nodes@.len(),
            final(self).requested() == old(self).requested(),
            final(self).nodes@[k as int].state == TaskState::Parsed,
            final(self).nodes@[k as int].open == 0,
            !final(self).nodes@[k as int].complete,
            open_children(final(self).nodes@, k as int) == 0,
            final(self).task_counter + 1 == old(self).task_counter,
            final(self).nodes@[k as int].module == Some(module),
            final(self).nodes@[k as int].path == old(self).nodes@[k as int].path,
            final(self).nodes@[k as int].parent == old(self).nodes@[k as int].parent,
            forall|j: int|
                0 <= j < final(self).nodes@.len() && j != k ==> #[trigger] final(self).nodes@[j]
                    == old(self).nodes@[j],
    {
        let ghost before = self.nodes@;
        let mut node = self.nodes.remove(k);
        node.state = TaskState::Parsed;
        node.module = Some(module);
        node.open = 0;
        node.complete = false;
        self.nodes.insert(k, node);
        proof {
            let x = self.nodes@[k as int];
            assert(self.nodes@ =~= before.update(k as int, x));
            lemma_counts_update(before, k as int, x);
            assert(forall|j: int| 0 <= j < self.nodes@.len() && j != k ==> self.nodes@[j] == before[j]);
            assert forall|p: int| 0 <= p < self.nodes@.len() implies #[trigger] open_children(
                self.nodes@,
                p,
            ) == open_children(before, p) by {
                lemma_oc_update(before, k as int, x, p);
            }
            assert forall|j: int| 0 <= j < self.nodes@.len() implies match (#[trigger] self.nodes@[j]).parent {
                Some(p) => p < j && parsed_at(self.nodes@, p as int),
                None => true,
            } by {
                reveal(parsed_at);
                if let Some(p) = self.nodes@[j].parent {
                    assert(parsed_at(before, p as int));
                }
            }
            assert forall|j: int| 0 <= j < before.len() implies !open_child(#[trigger] before[j], k as int) by {
                reveal(parsed_at);
                if before[j].parent == Some(k) {
                    assert(parsed_at(before, k as int));
                }
            }
            lemma_oc_zero(before, k as int);
            assert(self.requested() =~= old(self).requested());
        }
        self.task_counter = self.task_counter - 1;
    }

    /// Records that the file at `k` has `opened` open imports; with none its tree is
    /// complete, which is passed on to the file that requested it.
    fn settle(&mut self, k: usize, opened: usize)
        requires
            old(self).base_ok(),
            counts_ok_except(old(self).nodes@, k as int),
            complete_ok_except(old(self).nodes@, k as int),
            k < old(self).nodes@.len(),
            old(self).nodes@[k as int].state == TaskState::Parsed,
            !old(self).nodes@[k as int].complete,
            opened as int == open_children(old(self).nodes@, k as int),
            closed_tree(old(self).nodes@),
        ensures
            final(self).wf(),
            final(self).requested() == old(self).requested(),
            final(self).task_counter == old(self).task_counter,
            keeps_modules(final(self).nodes@, old(self).nodes@),
    {
        let ghost mid = self.nodes@;
        let mut node = self.nodes.remove(k);
        node.open = opened;
        let now_complete = opened == 0;
        node.complete = now_complete;
        let parent = node.parent;
        self.nodes.insert(k, node);
        let n_nodes = self.nodes.len();
        proof {
            let x = self.nodes@[k as int];
            assert(self.nodes@ =~= mid.update(k as int, x));
            lemma_counts_update(mid, k as int, x);
            assert(forall|j: int| 0 <= j < self.nodes@.len() && j != k ==> self.nodes@[j] == mid[j]);
            assert forall|p: int| 0 <= p < self.nodes@.len() implies #[trigger] open_children(
                self.nodes@,
                p,
            ) + (if open_child(mid[k as int], p) {
                1int
            } else {
                0int
            }) == open_children(mid, p) + (if open_child(x, p) {
                1int
            } else {
                0int
            }) by {
                lemma_oc_update(mid, k as int, x, p);
            }
            assert forall|j: int| 0 <= j < self.nodes@.len() implies match (#[trigger] self.nodes@[j]).parent {
                Some(p) => p < j && parsed_at(self.nodes@, p as int),
                None => true,
            } by {
                reveal(parsed_at);
                if let Some(p) = self.nodes@[j].parent {
                    assert(parsed_at(mid, p as int));
                }
            }
            assert(paths(self.nodes@) =~= paths(mid));
            reveal(parsed_at);
            let target: int = if now_complete {
                match parent {
                    Some(q) => q as int,
                    None => -1,
                }
            } else {
                -1
            };
            if let Some(q) = parent {
                assert(q < k);
            }
            assert(!open_child(mid[k as int], k as int));
            assert(!open_child(x, k as int));
            assert forall|i: int| 0 <= i < self.nodes@.len() && i != target implies (
            #[trigger] self.nodes@[i]).open == open_children(self.nodes@, i) by {
                if i != k {
                    assert(self.nodes@[i] == mid[i]);
                    assert(open_child(mid[k as int], i) == open_child(x, i)) by {
                        if now_complete && open_child(mid[k as int], i) {
                            assert(parent == Some(i as usize));
                            assert(i == target);
                        }
                    }
                    assert(open_children(self.nodes@, i) == open_children(mid, i));
                } else {
                    assert(open_children(self.nodes@, k as int) == open_children(mid, k as int));
                }
            }
        }
        if now_complete {
            self.block_counter = self.block_counter - 1;
            proof {
                reveal(parsed_at);
                if let Some(q) = parent {
                    assert(parsed_at(mid, q as int));
                    assert(open_child(mid[k as int], q as int));
                    assert(!open_child(self.nodes@[k as int], q as int));
                    assert(self.nodes@[q as int] == mid[q as int]);
                }
            }
            proof {
                assert(keeps_modules(self.nodes@, mid));
                lemma_closed_keep(self.nodes@, mid);
            }
            self.complete_upward(parent);
        }
        proof {
            assert(keeps_modules(self.nodes@, mid));
            lemma_closed_keep(self.nodes@, mid);
        }
    }

    /// Requests `path`, imported by the file at `k`, which has `opened` open imports.
    fn add_import(&mut self, k: usize, path: &String, opened: usize)
        requires
            old(self).base_ok(),
            counts_ok_except(old(self).nodes@, k as int),
            complete_ok_except(old(self).nodes@, k as int),
            k < old(self).nodes@.len(),
            old(self).nodes@[k as int].state == TaskState::Parsed,
            !old(self).nodes@[k as int].complete,
            old(self).nodes@[k as int].open == 0,
            opened as int == open_children(old(self).nodes@, k as int),
            forall|j: int| 0 <= j < old(self).nodes@.len() ==> (#[trigger] old(self).nodes@[j]).path@ != path@,
        ensures
            final(self).base_ok(),
            counts_ok_except(final(self).nodes@, k as int),
            complete_ok_except(final(self).nodes@, k as int),
            final(self).nodes@.len() == old(self).nodes@.len() + 1,
            final(self).nodes@.drop_last() == old(self).nodes@,
            final(self).nodes@.last().path@ == path@,
            final(self).nodes@.last().state == TaskState::Queued,
            final(self).nodes@.last().parent == Some(k),
            final(self).task_counter == old(self).task_counter,
            opened + 1 <= usize::MAX,
            opened as int + 1 == open_children(final(self).nodes@, k as int),
    {
        let ghost prev = self.nodes@;
        let child = Node {
            path: path.clone(),
            parent: Some(k),
            state: TaskState::Queued,
            open: 0,
            complete: false,
            module: None,
        };
        self.nodes.push(child);
        let n = self.nodes.len();
        proof {
            let x = self.nodes@.last();
            assert(self.nodes@ =~= prev.push(x));
            assert(self.nodes@.drop_last() =~= prev);
            lemma_counts_push(prev, x);
            lemma_counts_bounded(self.nodes@);
            lemma_oc_bounded(self.nodes@, k as int);
            assert(forall|j: int| 0 <= j < prev.len() ==> self.nodes@[j] == prev[j]);
            assert forall|p: int| 0 <= p < self.nodes@.len() implies #[trigger] open_children(
                self.nodes@,
                p,
            ) == open_children(prev, p) + if p == k {
                1nat
            } else {
                0nat
            } by {
                lemma_oc_push(prev, x, p);
                assert(p as usize as int == p);
            }
            assert forall|j: int| 0 <= j < prev.len() implies !open_child(#[trigger] prev[j], prev.len() as int) by {
                if let Some(q) = prev[j].parent {
                    assert(q < j);
                }
            }
            lemma_oc_zero(prev, prev.len() as int);
            assert forall|j: int| 0 <= j < self.nodes@.len() implies match (#[trigger] self.nodes@[j]).parent {
                Some(p) => p < j && parsed_at(self.nodes@, p as int),
                None => true,
            } by {
                reveal(parsed_at);
                if j < prev.len() {
                    if let Some(p) = prev[j].parent {
                        assert(parsed_at(prev, p as int));
                    }
                }
            }
            assert forall|a: int, b: int| 0 <= a < b < self.nodes@.len() implies (#[trigger] self.nodes@[a]).path@
                != (#[trigger] self.nodes@[b]).path@ by {
                if b == prev.len() {
                    assert(prev[a].path@ != path@);
                }
            }
        }
        assert(self.block_counter + 1 <= n);
        self.block_counter = self.block_counter + 1;
    }

    /// Tells the file at `at`, and in turn the files that requested it, that one more of
    /// its imports is complete.
    fn complete_upward(&mut self, at: Option<usize>)
        requires
            old(self).base_ok(),
            closed_tree(old(self).nodes@),
            complete_ok_except(old(self).nodes@, -1),
            match at {
                Some(c) => c < old(self).nodes@.len() && old(self).nodes@[c as int].state
                    == TaskState::Parsed && old(self).nodes@[c as int].open == open_children(
                    old(self).nodes@,
                    c as int,
                ) + 1 && counts_ok_except(old(self).nodes@, c as int),
                None => counts_ok_except(old(self).nodes@, -1),
            },
        ensures
            final(self).wf(),
            final(self).requested() == old(self).requested(),
            final(self).task_counter == old(self).task_counter,
            final(self).nodes@.len() == old(self).nodes@.len(),
            keeps_modules(final(self).nodes@, old(self).nodes@),
    {
        let mut cur = at;
        while cur.is_some()
            invariant
                keeps_modules(self.nodes@, old(self).nodes@),
                self.base_ok(),
                complete_ok_except(self.nodes@, -1),
                self.requested() == old(self).requested(),
                self.task_counter == old(self).task_counter,
                self.nodes@.len() == old(self).nodes@.len(),
                match cur {
                    Some(c) => c < self.nodes@.len() && self.nodes@[c as int].state
                        == TaskState::Parsed && self.nodes@[c as int].open == open_children(
                        self.nodes@,
                        c as int,
                    ) + 1 && counts_ok_except(self.nodes@, c as int),
                    None => counts_ok_except(self.nodes@, -1),
                },
            decreases match cur {
                Some(p) => p + 1,
                None => 0,
            },
        {
            let c = match cur {
                Some(c) => c,
                None => 0,
            };
            let ghost before = self.nodes@;
            let mut node = self.nodes.remove(c);
            node.open = node.open - 1;
            let finish = node.open == 0;
            node.complete = finish;
            let next = node.parent;
            self.nodes.insert(c, node);
            let n_nodes = self.nodes.len();
            proof {
                let x = self.nodes@[c as int];
                assert(self.nodes@ =~= before.update(c as int, x));
                lemma_counts_update(before, c as int, x);
                assert(forall|j: int| 0 <= j < self.nodes@.len() && j != c ==> self.nodes@[j] == before[j]);
                assert(!before[c as int].complete);
                assert forall|p: int| 0 <= p < self.nodes@.len() implies #[trigger] open_children(
                    self.nodes@,
                    p,
                ) + (if open_child(before[c as int], p) {
                    1int
                } else {
                    0int
                }) == open_children(before, p) + (if open_child(x, p) {
                    1int
                } else {
                    0int
                }) by {
                    lemma_oc_update(before, c as int, x, p);
                }
                assert forall|j: int| 0 <= j < self.nodes@.len() implies match (#[trigger] self.nodes@[j]).parent {
                    Some(p) => p < j && parsed_at(self.nodes@, p as int),
                    None => true,
                } by {
                    reveal(parsed_at);
                    if let Some(p) = self.nodes@[j].parent {
                        assert(parsed_at(before, p as int));
                    }
                }
                assert(paths(self.nodes@) =~= paths(before));
                reveal(parsed_at);
                if let Some(q) = next {
                    assert(parsed_at(before, q as int));
                    if finish {
                        assert(open_child(before[c as int], q as int));
                        assert(!open_child(x, q as int));
                        assert(self.nodes@[q as int] == before[q as int]);
                    }
                }
                let target: int = if finish {
                    match next {
                        Some(q) => q as int,
                        None => -1,
                    }
                } else {
                    -1
                };
                assert(!open_child(before[c as int], c as int));
                assert(!open_child(x, c as int));
                assert forall|i: int| 0 <= i < self.nodes@.len() && i != target implies (
                #[trigger] self.nodes@[i]).open == open_children(self.nodes@, i) by {
                    if i != c {
                        assert(self.nodes@[i] == before[i]);
                        assert(open_child(before[c as int], i) == open_child(x, i)) by {
                            if finish && open_child(before[c as int], i) {
                                assert(next == Some(i as usize));
                                assert(i == target);
                            }
                        }
                        assert(open_children(self.nodes@, i) == open_children(before, i));
                    } else {
                        assert(open_children(self.nodes@, c as int) == open_children(before, c as int));
                        assert(x.open + 1 == before[c as int].open);
                    }
                }
            }
            if finish {
                self.block_counter = self.block_counter - 1;
                cur = next;
            } else {
                cur = None;
            }
        }
        proof {
            lemma_closed_keep(self.nodes@, old(self).nodes@);
        }
    }

    /// The modules parsed so far, each with its file's path.
    pub fn into_modules(self) -> (r: Vec<(String, Module)>)
        requires
            self.wf(),
        ensures
            self.done() ==> r@.len() == self.nodes@.len() && forall|i: int|
                0 <= i < r@.len() ==> (#[trigger] r@[i]).0@ == self.nodes@[i].path@ && Some(r@[i].1)
                    == self.nodes@[i].module,
    {
        let ghost all = self.nodes@;
        let ghost was_done = self.done();
        proof {
            if was_done {
                lemma_none_running(all);
            }
        }
        let mut nodes = self.nodes;
        let mut out: Vec<(String, Module)> = Vec::new();
        let mut i: usize = 0;
        let n = nodes.len();
        let mut rev: Vec<(String, Module)> = Vec::new();
        while nodes.len() > 0
            invariant
                nodes@.len() <= n,
                n == all.len(),
                nodes@ == all.subrange(0, nodes@.len() as int),
                was_done ==> forall|j: int| 0 <= j < all.len() ==> (#[trigger] all[j]).module is Some,
                was_done ==> rev@.len() == n - nodes@.len(),
                was_done ==> forall|j: int|
                    0 <= j < rev@.len() ==> (#[trigger] rev@[j]).0@ == all[n - 1 - j].path@
                        && Some(rev@[j].1) == all[n - 1 - j].module,
            decreases nodes.len(),
        {
            let ghost before = nodes@;
            let node = nodes.pop().unwrap();
            proof {
                assert(nodes@ =~= all.subrange(0, nodes@.len() as int));
            }
            match node.module {
                Some(m) => {
                    rev.push((node.path, m));
                },
                None => {},
            }
        }
        while rev.len() > 0
            invariant
                was_done ==> rev@.len() + out@.len() == n,
                was_done ==> forall|j: int|
                    0 <= j < rev@.len() ==> (#[trigger] rev@[j]).0@ == all[n - 1 - j].path@
                        && Some(rev@[j].1) == all[n - 1 - j].module,
                was_done ==> forall|j: int|
                    0 <= j < out@.len() ==> (#[trigger] out@[j]).0@ == all[j].path@ && Some(
                        out@[j].1,
                    ) == all[j].module,
                n == all.len(),
            decreases rev.len(),
        {
            let e = rev.pop().unwrap();
            out.push(e);
        }
        out
    }
}

/// Once every requested file has been parsed, both counters are zero and the resolution
/// is done: the counters always come down to zero, whatever order the files were parsed
/// in.
pub proof fn lemma_all_parsed_closes(r: Resolver)
    requires
        r.wf(),
        forall|i: int| 0 <= i < r.nodes@.len() ==> (#[trigger] r.nodes@[i]).state == TaskState::Parsed,
    ensures
        r.task_counter == 0,
        r.block_counter == 0,
        r.done(),
{
    vstd::std_specs::vec::axiom_spec_len(&r.nodes);
    lemma_all_parsed_complete(r.nodes@, 0);
    lemma_complete_count(r.nodes@);
    lemma_no_running(r.nodes@);
}

proof fn lemma_no_running(s: Seq<Node>)
    requires
        forall|i: int| 0 <= i < s.len() ==> (#[trigger] s[i]).state == TaskState::Parsed,
    ensures
        running(s) == 0,
    decreases s.len(),
{
    if s.len() > 0 {
        assert(forall|i: int| 0 <= i < s.len() - 1 ==> s.drop_last()[i] == s[i]);
        lemma_no_running(s.drop_last());
    }
}

/// After a parsed file's imports are requested, the tree is closed again.
proof fn lemma_closed_finish(o: Seq<Node>, c: Seq<Node>, k: int, m: Module, files: Seq<Seq<char>>)
    requires
        closed_tree(o),
        parents_ok(o),
        0 <= k < o.len(),
        c.len() <= usize::MAX,
        o[k].state == TaskState::Running,
        forall|j: int| 0 <= j < o.len() ==> ((#[trigger] o[j]).state == TaskState::Parsed <==> o[j].module is Some),
        c.len() >= o.len(),
        forall|j: int| 0 <= j < o.len() && j != k ==> #[trigger] c[j] == o[j],
        c[k].path == o[k].path,
        c[k].parent == o[k].parent,
        c[k].state == TaskState::Parsed,
        c[k].module == Some(m),
        files == import_files(m),
        forall|j: int| o.len() <= j < c.len() ==> (#[trigger] c[j]).state == TaskState::Queued
            && c[j].parent == Some(k as usize) && files.contains(c[j].path@),
        paths(c) == add_paths(paths(o), files, files.len() as int),
    ensures
        closed_tree(c),
{
    reveal(closed_tree);
    reveal(imported_by);
    reveal(parsed_at);
    lemma_add_paths(paths(o), files, files.len() as int);
    assert forall|i: int|
        0 <= i < c.len() && (#[trigger] c[i]).state == TaskState::Parsed implies c[i].module is Some
        && forall|f: Seq<char>| #[trigger] import_files(c[i].module->0).contains(f) ==> paths(c).contains(f) by {
        if i != k {
            assert(c[i] == o[i]);
            assert forall|f: Seq<char>| #[trigger] import_files(c[i].module->0).contains(f) implies paths(c).contains(f) by {
                assert(paths(o).contains(f));
            }
        } else {
            assert forall|f: Seq<char>| #[trigger] import_files(c[i].module->0).contains(f) implies paths(c).contains(f) by {
                let w = choose|w: int| 0 <= w < files.len() && files[w] == f;
                assert(add_paths(paths(o), files, files.len() as int).contains(files[w]));
            }
        }
    }
    assert forall|i: int| 0 < i < c.len() implies (#[trigger] c[i]).parent is Some && (c[i].parent->0 as int)
        < i && imported_by(c, c[i].parent->0 as int, c[i].path@) by {
        if i >= o.len() {
            assert(c[k].module == Some(m));
        } else {
            let p = o[i].parent->0 as int;
            assert(o[i].parent is Some);
            assert(imported_by(o, p, o[i].path@));
            assert(p != k);
            assert(c[p] == o[p]);
        }
    }
    if k != 0 {
        assert(c[0] == o[0]);
    }
}

/// When a resolution is done, both counters are zero and every requested file has been
/// parsed exactly once: one module per requested path, each path once.
pub proof fn lemma_done_closed(r: Resolver)
    requires
        r.wf(),
        r.done(),
    ensures
        r.task_counter == 0,
        r.block_counter == 0,
        forall|i: int|
            0 <= i < r.nodes@.len() ==> (#[trigger] r.nodes@[i]).state == TaskState::Parsed
                && r.nodes@[i].module is Some && r.nodes@[i].complete,
        forall|i: int, j: int|
            0 <= i < j < r.nodes@.len() ==> (#[trigger] r.nodes@[i]).path@
                != (#[trigger] r.nodes@[j]).path@,
{
    lemma_none_running(r.nodes@);
    lemma_none_incomplete(r.nodes@);
}

/// When a resolution is done, the requested files are exactly the files reached from
/// the entry: every import of a parsed file is requested, and every requested file but
/// the entry is imported by a file requested before it.
#[verifier::spinoff_prover]
#[verifier::rlimit(60)]
pub proof fn lemma_done_reaches(r: Resolver)
    requires
        r.wf(),
        r.done(),
    ensures
        forall|i: int, f: Seq<char>|
            0 <= i < r.nodes@.len() && #[trigger] import_files(r.nodes@[i].module->0).contains(f)
                ==> r.requested().contains(f),
        forall|i: int|
            0 < i < r.nodes@.len() ==> exists|p: int|
                0 <= p < i && #[trigger] import_files(r.nodes@[p].module->0).contains(
                    (#[trigger] r.nodes@[i]).path@,
                ),
{
    lemma_none_running(r.nodes@);
    assert forall|i: int| 0 <= i < r.nodes@.len() implies (#[trigger] r.nodes@[i]).state
        == TaskState::Parsed by {
        assert(r.nodes@[i].state != TaskState::Running);
        assert(r.nodes@[i].state != TaskState::Queued);
    }
    lemma_tree_reaches(r.nodes@);
}

/// In a closed tree whose files are all parsed, every import is requested and every
/// file but the first is imported by an earlier one.
proof fn lemma_tree_reaches(s: Seq<Node>)
    requires
        closed_tree(s),
        forall|i: int| 0 <= i < s.len() ==> (#[trigger] s[i]).state == TaskState::Parsed,
    ensures
        forall|i: int, f: Seq<char>|
            0 <= i < s.len() && #[trigger] import_files(s[i].module->0).contains(f) ==> paths(
                s,
            ).contains(f),
        forall|i: int|
            0 < i < s.len() ==> exists|p: int|
                0 <= p < i && #[trigger] import_files(s[p].module->0).contains((#[trigger] s[i]).path@),
{
    reveal(closed_tree);
    reveal(imported_by);
    assert forall|i: int, f: Seq<char>|
        0 <= i < s.len() && #[trigger] import_files(s[i].module->0).contains(f) implies paths(
        s,
    ).contains(f) by {
        assert(s[i].state == TaskState::Parsed);
    }
    assert forall|i: int| 0 < i < s.len() implies exists|p: int|
        0 <= p < i && #[trigger] import_files(s[p].module->0).contains((#[trigger] s[i]).path@) by {
        let p = s[i].parent->0 as int;
        assert(imported_by(s, p, s[i].path@));
    }
}

impl Name {
    /// The name written as a path: its segments joined by `/`.
    pub fn to_string(&self) -> (r: String)
        ensures
            r@ == crate::parser::joined(crate::ast::views(self.name@), self.name@.len() as int),
    {
        crate::parser::join_first(&self.name, self.name.len())
    }
}

/// The front end of a build: where its entry file is.
pub struct Parser {
    pub name: String,
}

impl Parser {
    pub fn new(path: &str) -> (r: Parser)
        ensures
            r.name@ == path@,
    {
        Parser { name: String::from_str(path) }
    }

    /// A resolution of the files of the program that starts at the entry file.
    pub fn resolver(&self) -> (r: Resolver)
        ensures
            r.wf(),
            r.nodes@.len() == 1,
            r.task_counter == 0,
            r.block_counter == 1,
    {
        Resolver::new(self.name.as_str())
    }
}

} // verus!
