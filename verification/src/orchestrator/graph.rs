//! The dependency graph of a validated manifest.

use vstd::prelude::*;
use crate::deps::{acyclic, dependency_order, edge, is_dependency_order, links, wf_adj};
use crate::parser::ast::{names_view, processes_view, ProcessDef};
use crate::parser::valid_manifest;
use crate::parser::validate::{
    dep_graph, dependency_indices, distinct, index_of, lemma_index_of, proc_names,
};
use crate::text::chars_of;

verus! {

/// The processes of a manifest and what each waits for. An edge from `a` to
/// `b` says that `a` depends on `b`: `b` must be ready before `a` starts.
pub struct DependencyGraph {
    names: Vec<String>,
    dependencies: Vec<Vec<usize>>,
    order: Vec<usize>,
}

/// The indices in `row[0..n]`, each once, in the order of their first
/// occurrence.
pub open spec fn unique_upto(row: Seq<usize>, n: int) -> Seq<usize>
    decreases n,
{
    if n <= 0 || n > row.len() {
        Seq::empty()
    } else if unique_upto(row, n - 1).contains(row[n - 1]) {
        unique_upto(row, n - 1)
    } else {
        unique_upto(row, n - 1).push(row[n - 1])
    }
}

/// The nodes among the first `n` that have an edge to `target`, ascending.
pub open spec fn sources_upto(graph: Seq<Seq<usize>>, target: usize, n: int) -> Seq<usize>
    decreases n,
{
    if n <= 0 || n > graph.len() {
        Seq::empty()
    } else if graph[n - 1].contains(target) {
        sources_upto(graph, target, n - 1).push((n - 1) as usize)
    } else {
        sources_upto(graph, target, n - 1)
    }
}

/// The nodes among the first `n` that have no edge, ascending.
pub open spec fn roots_upto(graph: Seq<Seq<usize>>, n: int) -> Seq<usize>
    decreases n,
{
    if n <= 0 || n > graph.len() {
        Seq::empty()
    } else if graph[n - 1].len() == 0 {
        roots_upto(graph, n - 1).push((n - 1) as usize)
    } else {
        roots_upto(graph, n - 1)
    }
}

/// The names of the nodes `nodes`, in their order.
pub open spec fn named(names: Seq<Seq<char>>, nodes: Seq<usize>) -> Seq<Seq<char>> {
    Seq::new(nodes.len(), |i: int| names[nodes[i] as int])
}

/// Whether `x` occurs in `row`.
pub fn contains_index(row: &Vec<usize>, x: usize) -> (r: bool)
    ensures
        r == row@.contains(x),
{
    let mut i: usize = 0;
    while i < row.len()
        invariant
            i <= row@.len(),
            forall|j: int| 0 <= j < i ==> row@[j] != x,
        decreases row@.len() - i,
    {
        if row[i] == x {
            return true;
        }
        i += 1;
    }
    false
}

impl DependencyGraph {
    /// What `new` establishes and every method relies on.
    pub closed spec fn wf(&self) -> bool {
        &&& self.dependencies@.len() == self.names@.len()
        &&& wf_adj(links(self.dependencies@))
        &&& is_dependency_order(links(self.dependencies@), self.order@)
        &&& distinct(names_view(self.names@))
    }

    /// The names of the processes, in document order.
    pub closed spec fn names(&self) -> Seq<Seq<char>> {
        names_view(self.names@)
    }

    /// For each process, the indices of the processes that it depends on.
    pub closed spec fn graph(&self) -> Seq<Seq<usize>> {
        links(self.dependencies@)
    }

    /// The order that was found for the processes when the graph was built:
    /// each process after all that it depends on.
    pub closed spec fn start_order(&self) -> Seq<usize> {
        self.order@
    }

    /// The index of the process called `name`, or -1.
    pub open spec fn node_of(&self, name: Seq<char>) -> int {
        index_of(self.names(), name)
    }

    /// What holds of every graph: its names are distinct, its edges lead to
    /// nodes, it has no cycle, and its start order is a dependency order.
    pub proof fn lemma_valid(&self)
        requires
            self.wf(),
        ensures
            self.graph().len() == self.names().len(),
            distinct(self.names()),
            wf_adj(self.graph()),
            acyclic(self.graph()),
            is_dependency_order(self.graph(), self.start_order()),
    {
        crate::deps::lemma_order_acyclic(self.graph(), self.start_order());
    }

    /// Builds the graph of the processes of a validated manifest.
    pub fn new(processes: &Vec<ProcessDef>) -> (r: DependencyGraph)
        requires
            valid_manifest(processes_view(processes@)),
        ensures
            r.wf(),
            r.names() == proc_names(processes_view(processes@)),
            r.graph() == dep_graph(processes_view(processes@)),
    {
        let dependencies = match dependency_indices(processes) {
            Ok(adj) => adj,
            Err(_) => {
                assert(false);
                Vec::new()
            },
        };
        let order = match dependency_order(&dependencies) {
            Ok(order) => order,
            Err(_) => {
                assert(false);
                Vec::new()
            },
        };
        let mut names: Vec<String> = Vec::new();
        let mut i: usize = 0;
        while i < processes.len()
            invariant
                i <= processes@.len(),
                names@.len() == i,
                forall|j: int|
                    0 <= j < i ==> (#[trigger] names@[j])@ == processes_view(processes@)[j].name,
            decreases processes@.len() - i,
        {
            names.push(processes[i].name.clone());
            i += 1;
        }
        assert(names_view(names@) =~= proc_names(processes_view(processes@)));
        assert(dependencies@.len() == names@.len());
        DependencyGraph { names, dependencies, order }
    }

    /// The names of the nodes `nodes`.
    fn names_of(&self, nodes: &Vec<usize>) -> (r: Vec<String>)
        requires
            self.wf(),
            forall|i: int| 0 <= i < nodes@.len() ==> (#[trigger] nodes@[i]) < self.names().len(),
        ensures
            names_view(r@) == named(self.names(), nodes@),
    {
        let mut out: Vec<String> = Vec::new();
        let mut i: usize = 0;
        while i < nodes.len()
            invariant
                i <= nodes@.len(),
                out@.len() == i,
                forall|k: int|
                    0 <= k < nodes@.len() ==> (#[trigger] nodes@[k]) < self.names@.len(),
                forall|k: int| 0 <= k < i ==> (#[trigger] out@[k])@ == self.names@[nodes@[k] as int]@,
            decreases nodes@.len() - i,
        {
            out.push(self.names[nodes[i]].clone());
            i += 1;
        }
        assert(names_view(out@) =~= named(self.names(), nodes@));
        out
    }

    /// The index of the process called `name`.
    fn find(&self, name: &str) -> (r: Option<usize>)
        requires
            self.wf(),
        ensures
            match r {
                Some(i) => self.node_of(name@) == i && i < self.names().len(),
                None => self.node_of(name@) < 0,
            },
    {
        let wanted = chars_of(name);
        let ghost names = self.names();
        let mut i: usize = 0;
        while i < self.names.len()
            invariant
                i <= self.names@.len(),
                names == names_view(self.names@),
                wanted@ == name@,
                forall|j: int| 0 <= j < i ==> #[trigger] names[j] != name@,
            decreases self.names@.len() - i,
        {
            let candidate = chars_of(self.names[i].as_str());
            assert(names[i as int] == candidate@);
            if crate::text::same_chars(&candidate, &wanted) {
                proof {
                    lemma_index_of(names, name@);
                }
                return Some(i);
            }
            i += 1;
        }
        proof {
            lemma_index_of(names, name@);
        }
        None
    }

    /// The processes that depend on nothing, in document order: they can
    /// start at once.
    pub fn roots(&self) -> (r: Vec<String>)
        requires
            self.wf(),
        ensures
            names_view(r@) == named(
                self.names(),
                roots_upto(self.graph(), self.graph().len() as int),
            ),
    {
        let mut nodes: Vec<usize> = Vec::new();
        let mut i: usize = 0;
        assert(nodes@ =~= Seq::empty());
        while i < self.dependencies.len()
            invariant
                i <= self.dependencies@.len(),
                nodes@ == roots_upto(links(self.dependencies@), i as int),
                forall|k: int| 0 <= k < nodes@.len() ==> (#[trigger] nodes@[k]) < i,
            decreases self.dependencies@.len() - i,
        {
            if self.dependencies[i].len() == 0 {
                nodes.push(i);
            }
            i += 1;
        }
        self.names_of(&nodes)
    }

    /// The processes that depend on `name`, in document order; none where
    /// `name` is no process.
    pub fn dependents_of(&self, name: &str) -> (r: Vec<String>)
        requires
            self.wf(),
        ensures
            names_view(r@) == (if self.node_of(name@) >= 0 {
                named(
                    self.names(),
                    sources_upto(
                        self.graph(),
                        self.node_of(name@) as usize,
                        self.graph().len() as int,
                    ),
                )
            } else {
                Seq::empty()
            }),
    {
        match self.find(name) {
            None => {
                let out: Vec<String> = Vec::new();
                assert(names_view(out@) =~= Seq::empty());
                out
            },
            Some(target) => {
                let mut nodes: Vec<usize> = Vec::new();
                let mut i: usize = 0;
                assert(nodes@ =~= Seq::empty());
                while i < self.dependencies.len()
                    invariant
                        i <= self.dependencies@.len(),
                        nodes@ == sources_upto(links(self.dependencies@), target, i as int),
                        forall|k: int| 0 <= k < nodes@.len() ==> (#[trigger] nodes@[k]) < i,
                    decreases self.dependencies@.len() - i,
                {
                    if contains_index(&self.dependencies[i], target) {
                        nodes.push(i);
                    }
                    i += 1;
                }
                self.names_of(&nodes)
            },
        }
    }

    /// The processes that `name` depends on, each once, in the order in
    /// which its declaration names them; none where `name` is no process.
    pub fn dependencies_of(&self, name: &str) -> (r: Vec<String>)
        requires
            self.wf(),
        ensures
            names_view(r@) == (if self.node_of(name@) >= 0 {
                named(
                    self.names(),
                    unique_upto(
                        self.graph()[self.node_of(name@)],
                        self.graph()[self.node_of(name@)].len() as int,
                    ),
                )
            } else {
                Seq::empty()
            }),
    {
        match self.find(name) {
            None => {
                let out: Vec<String> = Vec::new();
                assert(names_view(out@) =~= Seq::empty());
                out
            },
            Some(node) => {
                let row = &self.dependencies[node];
                assert(row@ == links(self.dependencies@)[node as int]);
                let mut nodes: Vec<usize> = Vec::new();
                let mut i: usize = 0;
                assert(nodes@ =~= Seq::empty());
                while i < row.len()
                    invariant
                        i <= row@.len(),
                        node < self.dependencies@.len(),
                        row@ == links(self.dependencies@)[node as int],
                        wf_adj(links(self.dependencies@)),
                        self.dependencies@.len() == self.names@.len(),
                        nodes@ == unique_upto(row@, i as int),
                        forall|k: int|
                            0 <= k < nodes@.len() ==> (#[trigger] nodes@[k]) < self.names@.len(),
                    decreases row@.len() - i,
                {
                    if !contains_index(&nodes, row[i]) {
                        assert(links(self.dependencies@)[node as int][i as int] < self.names@.len());
                        nodes.push(row[i]);
                    }
                    i += 1;
                }
                self.names_of(&nodes)
            },
        }
    }

    /// The order in which the processes are shut down: the start order
    /// backwards.
    pub open spec fn shutdown_order(&self) -> Seq<usize> {
        Seq::new(
            self.start_order().len(),
            |i: int| self.start_order()[self.start_order().len() - 1 - i],
        )
    }

    /// The processes in the order of shutdown: every process once, each
    /// before all that it depends on.
    pub fn reverse_topological_order(&self) -> (r: Vec<String>)
        requires
            self.wf(),
        ensures
            names_view(r@) == named(self.names(), self.shutdown_order()),
            is_dependency_order(self.graph(), self.start_order()),
    {
        let n = self.order.len();
        let mut nodes: Vec<usize> = Vec::new();
        let mut i: usize = 0;
        while i < n
            invariant
                i <= n,
                n == self.order@.len(),
                nodes@.len() == i,
                forall|k: int| 0 <= k < i ==> #[trigger] nodes@[k] == self.order@[n - 1 - k],
            decreases n - i,
        {
            nodes.push(self.order[n - 1 - i]);
            i += 1;
        }
        assert(nodes@ =~= self.shutdown_order());
        self.names_of(&nodes)
    }

    /// In the order of shutdown a process stands before every process that
    /// it depends on: where the process at place `i` depends on the process
    /// at place `j`, `i < j`.
    pub proof fn lemma_dependents_first(&self, i: int, j: int)
        requires
            self.wf(),
            0 <= i < self.shutdown_order().len(),
            0 <= j < self.shutdown_order().len(),
            edge(self.graph(), self.shutdown_order()[i] as int, self.shutdown_order()[j] as int),
        ensures
            i < j,
    {
        let order = self.start_order();
        let n = order.len() as int;
        assert(self.shutdown_order()[i] == order[n - 1 - i]);
        assert(self.shutdown_order()[j] == order[n - 1 - j]);
        assert(edge(self.graph(), order[n - 1 - i] as int, order[n - 1 - j] as int));
    }

    /// The number of processes.
    pub fn len(&self) -> (r: usize)
        requires
            self.wf(),
        ensures
            r == self.names().len(),
            r == self.graph().len(),
    {
        self.names.len()
    }

    /// The indices of the processes that the process `i` depends on.
    pub fn dependency_indices(&self, i: usize) -> (r: &Vec<usize>)
        requires
            self.wf(),
            i < self.graph().len(),
        ensures
            r@ == self.graph()[i as int],
            forall|k: int| 0 <= k < r@.len() ==> (#[trigger] r@[k]) < self.graph().len(),
    {
        let r = &self.dependencies[i];
        assert forall|k: int| 0 <= k < r@.len() implies (#[trigger] r@[k])
            < self.graph().len() by {
            assert(links(self.dependencies@)[i as int][k] < links(self.dependencies@).len());
        }
        r
    }

    /// The indices of the processes in the order of shutdown.
    pub fn shutdown_indices(&self) -> (r: Vec<usize>)
        requires
            self.wf(),
        ensures
            r@ == self.shutdown_order(),
            r@.len() == self.graph().len(),
            forall|k: int| 0 <= k < r@.len() ==> (#[trigger] r@[k]) < self.graph().len(),
    {
        let n = self.order.len();
        let mut nodes: Vec<usize> = Vec::new();
        let mut i: usize = 0;
        while i < n
            invariant
                i <= n,
                n == self.order@.len(),
                nodes@.len() == i,
                forall|k: int| 0 <= k < i ==> #[trigger] nodes@[k] == self.order@[n - 1 - k],
            decreases n - i,
        {
            nodes.push(self.order[n - 1 - i]);
            i += 1;
        }
        assert(nodes@ =~= self.shutdown_order());
        nodes
    }

    /// The index of the process called `name`.
    pub fn index_of_name(&self, name: &str) -> (r: Option<usize>)
        requires
            self.wf(),
        ensures
            match r {
                Some(i) => self.node_of(name@) == i && i < self.names().len(),
                None => self.node_of(name@) < 0,
            },
    {
        self.find(name)
    }

    /// The order of shutdown lists every process once.
    pub proof fn lemma_shutdown_order(&self)
        requires
            self.wf(),
        ensures
            self.shutdown_order().len() == self.graph().len(),
            forall|a: int|
                0 <= a < self.shutdown_order().len() ==> (#[trigger] self.shutdown_order()[a])
                    < self.graph().len(),
            forall|a: int, b: int|
                0 <= a < b < self.shutdown_order().len() ==> self.shutdown_order()[a]
                    != self.shutdown_order()[b],
            forall|v: int|
                0 <= v < self.graph().len() ==> #[trigger] crate::deps::appears(
                    self.shutdown_order(),
                    v,
                ),
    {
        let order = self.start_order();
        let so = self.shutdown_order();
        let n = order.len() as int;
        assert forall|a: int| 0 <= a < so.len() implies (#[trigger] so[a]) < self.graph().len() by {
            assert(so[a] == order[n - 1 - a]);
        }
        assert forall|a: int, b: int| 0 <= a < b < so.len() implies so[a] != so[b] by {
            assert(so[a] == order[n - 1 - a]);
            assert(so[b] == order[n - 1 - b]);
        }
        assert forall|v: int| 0 <= v < self.graph().len() implies #[trigger] crate::deps::appears(
            so,
            v,
        ) by {
            assert(crate::deps::appears(order, v));
            let i = choose|i: int| 0 <= i < order.len() && #[trigger] order[i] == v;
            assert(so[n - 1 - i] == v);
        }
    }
}

} // verus!
