//! Directed graphs over the indices `0..n`: cycles and dependency orders.

use vstd::prelude::*;

verus! {

/// The graph that the adjacency vectors `adj` hold: for each node, the
/// nodes that its edges lead to.
pub open spec fn links(adj: Seq<Vec<usize>>) -> Seq<Seq<usize>> {
    Seq::new(adj.len(), |u: int| adj[u]@)
}

/// Whether every target of every edge is a node.
pub open spec fn wf_adj(adj: Seq<Seq<usize>>) -> bool {
    forall|u: int, k: int|
        0 <= u < adj.len() && 0 <= k < adj[u].len() ==> (#[trigger] adj[u][k]) < adj.len()
}

/// Whether the graph has the edge from `u` to `v`.
pub open spec fn edge(adj: Seq<Seq<usize>>, u: int, v: int) -> bool {
    0 <= u < adj.len() && exists|k: int| 0 <= k < adj[u].len() && #[trigger] adj[u][k] == v
}

/// Whether `path` walks along edges from a node back to itself.
pub open spec fn is_cycle(adj: Seq<Seq<usize>>, path: Seq<usize>) -> bool {
    &&& path.len() >= 2
    &&& path[0] == path.last()
    &&& forall|k: int|
        0 <= k < path.len() - 1 ==> edge(adj, #[trigger] path[k] as int, path[k + 1] as int)
}

/// Whether the graph has no cycle.
pub open spec fn acyclic(adj: Seq<Seq<usize>>) -> bool {
    forall|path: Seq<usize>| !is_cycle(adj, path)
}

/// Whether the node `v` stands somewhere in `order`.
pub open spec fn appears(order: Seq<usize>, v: int) -> bool {
    exists|i: int| 0 <= i < order.len() && #[trigger] order[i] == v
}

/// Whether `order` lists every node once, each after all the nodes that its
/// edges lead to.
pub open spec fn is_dependency_order(adj: Seq<Seq<usize>>, order: Seq<usize>) -> bool {
    &&& order.len() == adj.len()
    &&& forall|i: int| 0 <= i < order.len() ==> (#[trigger] order[i]) < adj.len()
    &&& forall|i: int, j: int| 0 <= i < j < order.len() ==> order[i] != order[j]
    &&& forall|v: int| 0 <= v < adj.len() ==> #[trigger] appears(order, v)
    &&& forall|i: int, j: int|
        0 <= i < order.len() && 0 <= j < order.len() && edge(adj, order[i] as int, order[j] as int)
            ==> j < i
}

/// How many of the first `n` entries of `color` are `c`.
pub open spec fn count(color: Seq<u8>, c: u8, n: int) -> int
    decreases n,
{
    if n <= 0 {
        0
    } else {
        count(color, c, n - 1) + if color[n - 1] == c {
            1int
        } else {
            0int
        }
    }
}

proof fn lemma_count_update(color: Seq<u8>, u: int, x: u8, c: u8, n: int)
    requires
        0 <= u < color.len(),
        0 <= n <= color.len(),
    ensures
        count(color.update(u, x), c, n) == count(color, c, n) + if u < n {
            (if x == c {
                1int
            } else {
                0int
            }) - (if color[u] == c {
                1int
            } else {
                0int
            })
        } else {
            0int
        },
    decreases n,
{
    if n > 0 {
        lemma_count_update(color, u, x, c, n - 1);
    }
}

proof fn lemma_count_bounds(color: Seq<u8>, c: u8, n: int)
    requires
        0 <= n <= color.len(),
    ensures
        0 <= count(color, c, n) <= n,
        (forall|v: int| 0 <= v < n ==> color[v] == c) ==> count(color, c, n) == n,
    decreases n,
{
    if n > 0 {
        lemma_count_bounds(color, c, n - 1);
    }
}

/// The state of a depth-first search: the colour of each node (0 not yet
/// seen, 1 on the stack, 2 finished), the stack, the finished nodes in the
/// order in which they were finished, and each node's place on the stack or
/// in that order.
pub struct Search {
    pub color: Vec<u8>,
    pub pos: Vec<usize>,
    pub stack: Vec<usize>,
    pub order: Vec<usize>,
}

impl Search {
    /// What holds of a search of `adj` between two steps.
    #[verifier::opaque]
    pub open spec fn inv(&self, adj: Seq<Seq<usize>>) -> bool {
        let n = adj.len() as int;
        &&& self.color@.len() == n
        &&& self.pos@.len() == n
        &&& self.order@.len() == count(self.color@, 2, n)
        &&& forall|v: int| 0 <= v < n ==> #[trigger] self.color@[v] <= 2
        &&& forall|i: int|
            0 <= i < self.order@.len() ==> (#[trigger] self.order@[i]) < n
                && self.color@[self.order@[i] as int] == 2 && self.pos@[self.order@[i] as int]
                == i
        &&& forall|v: int|
            0 <= v < n && #[trigger] self.color@[v] == 2 ==> self.pos@[v] < self.order@.len()
                && self.order@[self.pos@[v] as int] == v
        &&& forall|v: int, k: int|
            0 <= v < n && self.color@[v] == 2 && 0 <= k < adj[v].len() ==> self.color@[(
            #[trigger] adj[v][k]) as int] == 2 && self.pos@[adj[v][k] as int] < self.pos@[v]
        &&& forall|i: int|
            0 <= i < self.stack@.len() ==> (#[trigger] self.stack@[i]) < n
                && self.color@[self.stack@[i] as int] == 1
        &&& forall|v: int|
            0 <= v < n && #[trigger] self.color@[v] == 1 ==> self.pos@[v] < self.stack@.len()
                && self.stack@[self.pos@[v] as int] == v
        &&& forall|i: int|
            0 <= i < self.stack@.len() - 1 ==> edge(
                adj,
                #[trigger] self.stack@[i] as int,
                self.stack@[i + 1] as int,
            )
    }
}

/// The vectors of a search are as long as the graph, and a node on the stack
/// knows its place there.
pub proof fn lemma_inv_lengths(adj: Seq<Seq<usize>>, a: Search)
    requires
        a.inv(adj),
    ensures
        a.color@.len() == adj.len(),
        a.pos@.len() == adj.len(),
        forall|v: int| 0 <= v < adj.len() ==> #[trigger] a.color@[v] <= 2,
        forall|v: int|
            0 <= v < adj.len() && #[trigger] a.color@[v] == 1 ==> a.pos@[v] < a.stack@.len()
                && a.stack@[a.pos@[v] as int] == v,
        forall|i: int| 0 <= i < a.stack@.len() ==> a.color@[(#[trigger] a.stack@[i]) as int] == 1,
{
    reveal(Search::inv);
}

/// Running into a node on the stack closes a cycle: the stack from that node
/// on, and the node again.
pub proof fn lemma_cycle(adj: Seq<Seq<usize>>, a: Search, u: usize, path: Seq<usize>)
    requires
        a.inv(adj),
        0 <= u < adj.len(),
        a.color@[u as int] == 1,
        a.stack@.len() > 0 ==> edge(adj, a.stack@.last() as int, u as int),
        path == a.stack@.subrange(a.pos@[u as int] as int, a.stack@.len() as int).push(u),
    ensures
        is_cycle(adj, path),
{
    reveal(Search::inv);
    let st = a.stack@;
    let p = a.pos@[u as int] as int;
    assert(path.len() == st.len() - p + 1);
    assert(path[0] == st[p]);
    assert forall|k: int| 0 <= k < path.len() - 1 implies edge(
        adj,
        #[trigger] path[k] as int,
        path[k + 1] as int,
    ) by {
        if k < path.len() - 2 {
            assert(path[k] == st[p + k]);
            assert(path[k + 1] == st[p + k + 1]);
            assert(edge(adj, st[p + k] as int, st[p + k + 1] as int));
        } else {
            assert(path[k] == st.last());
        }
    }
}

/// Putting a node not yet seen on the stack keeps the invariant and leaves
/// one node fewer unseen.
pub proof fn lemma_enter(adj: Seq<Seq<usize>>, a: Search, b: Search, u: usize, depth: usize)
    requires
        wf_adj(adj),
        a.inv(adj),
        0 <= u < adj.len(),
        a.color@[u as int] == 0,
        a.stack@.len() > 0 ==> edge(adj, a.stack@.last() as int, u as int),
        b.color@ == a.color@.update(u as int, 1),
        depth == a.stack@.len(),
        b.pos@ == a.pos@.update(u as int, depth),
        b.stack@ == a.stack@.push(u),
        b.order@ == a.order@,
    ensures
        b.inv(adj),
        count(b.color@, 0, adj.len() as int) == count(a.color@, 0, adj.len() as int) - 1,
        count(b.color@, 0, adj.len() as int) >= 0,
        forall|v: int| 0 <= v < adj.len() && a.color@[v] == 2 ==> #[trigger] b.color@[v] == 2,
{
    reveal(Search::inv);
    let n = adj.len() as int;
    lemma_count_update(a.color@, u as int, 1, 0, n);
    lemma_count_update(a.color@, u as int, 1, 2, n);
    lemma_count_bounds(b.color@, 0, n);
    assert forall|i: int| 0 <= i < b.stack@.len() - 1 implies edge(
        adj,
        #[trigger] b.stack@[i] as int,
        b.stack@[i + 1] as int,
    ) by {
        if i < a.stack@.len() - 1 {
            assert(edge(adj, a.stack@[i] as int, a.stack@[i + 1] as int));
        }
    }
    assert forall|v: int, k: int|
        0 <= v < n && b.color@[v] == 2 && 0 <= k < adj[v].len() implies b.color@[(
    #[trigger] adj[v][k]) as int] == 2 && b.pos@[adj[v][k] as int] < b.pos@[v] by {
        assert(a.color@[v] == 2);
        assert(a.color@[adj[v][k] as int] == 2);
    }
    assert forall|i: int| 0 <= i < b.order@.len() implies (#[trigger] b.order@[i]) < n
        && b.color@[b.order@[i] as int] == 2 && b.pos@[b.order@[i] as int] == i by {
        assert(a.color@[a.order@[i] as int] == 2);
    }
    assert forall|i: int| 0 <= i < b.stack@.len() implies (#[trigger] b.stack@[i]) < n
        && b.color@[b.stack@[i] as int] == 1 by {
        if i < a.stack@.len() {
            assert(a.color@[a.stack@[i] as int] == 1);
        }
    }
    assert forall|v: int| 0 <= v < n && #[trigger] b.color@[v] == 1 implies b.pos@[v]
        < b.stack@.len() && b.stack@[b.pos@[v] as int] == v by {
        if v != u {
            assert(a.color@[v] == 1);
            assert(a.stack@[a.pos@[v] as int] == v);
        }
    }
    assert forall|v: int| 0 <= v < n && #[trigger] b.color@[v] == 2 implies b.pos@[v]
        < b.order@.len() && b.order@[b.pos@[v] as int] == v by {
        assert(a.color@[v] == 2);
    }
}

/// Taking a node off the stack once all that its edges lead to is finished
/// keeps the invariant.
pub proof fn lemma_leave(adj: Seq<Seq<usize>>, a: Search, b: Search, u: usize, done: usize)
    requires
        wf_adj(adj),
        a.inv(adj),
        0 <= u < adj.len(),
        a.stack@.len() > 0,
        a.stack@.last() == u,
        forall|k: int| 0 <= k < adj[u as int].len() ==> a.color@[(#[trigger] adj[u as int][k]) as int] == 2,
        b.color@ == a.color@.update(u as int, 2),
        done == a.order@.len(),
        b.pos@ == a.pos@.update(u as int, done),
        b.stack@ == a.stack@.drop_last(),
        b.order@ == a.order@.push(u),
    ensures
        b.inv(adj),
        count(b.color@, 0, adj.len() as int) == count(a.color@, 0, adj.len() as int),
        b.color@[u as int] == 2,
        forall|v: int| 0 <= v < adj.len() && a.color@[v] == 2 ==> #[trigger] b.color@[v] == 2,
{
    reveal(Search::inv);
    let n = adj.len() as int;
    assert(a.stack@[a.stack@.len() - 1] == u);
    assert(a.color@[u as int] == 1);
    lemma_count_update(a.color@, u as int, 2, 0, n);
    lemma_count_update(a.color@, u as int, 2, 2, n);
    assert forall|v: int, j: int|
        0 <= v < n && b.color@[v] == 2 && 0 <= j < adj[v].len() implies b.color@[(
    #[trigger] adj[v][j]) as int] == 2 && b.pos@[adj[v][j] as int] < b.pos@[v] by {
        let w = adj[v][j];
        if v == u {
            assert(a.color@[w as int] == 2);
        } else {
            assert(a.color@[v] == 2);
            assert(a.color@[w as int] == 2);
        }
    }
    assert forall|v: int| 0 <= v < n && #[trigger] b.color@[v] == 1 implies b.pos@[v]
        < b.stack@.len() && b.stack@[b.pos@[v] as int] == v by {
        assert(a.color@[v] == 1);
        assert(a.stack@[a.pos@[v] as int] == v);
    }
    assert forall|i: int| 0 <= i < b.stack@.len() - 1 implies edge(
        adj,
        #[trigger] b.stack@[i] as int,
        b.stack@[i + 1] as int,
    ) by {
        assert(edge(adj, a.stack@[i] as int, a.stack@[i + 1] as int));
    }
    assert forall|i: int| 0 <= i < b.order@.len() implies (#[trigger] b.order@[i]) < n
        && b.color@[b.order@[i] as int] == 2 && b.pos@[b.order@[i] as int] == i by {
        if i < a.order@.len() {
            assert(a.color@[a.order@[i] as int] == 2);
        }
    }
    assert forall|i: int| 0 <= i < b.stack@.len() implies (#[trigger] b.stack@[i]) < n
        && b.color@[b.stack@[i] as int] == 1 by {
        assert(a.color@[a.stack@[i] as int] == 1);
        assert(a.pos@[a.stack@[i] as int] < a.stack@.len());
        assert(a.stack@[a.pos@[a.stack@[i] as int] as int] == a.stack@[i]);
    }
}

/// Visits `u` and everything that can be reached from it through nodes not
/// yet seen. Gives a cycle where the search runs into its own stack; else
/// `u` is finished when it returns.
pub fn visit(adj: &Vec<Vec<usize>>, u: usize, s: &mut Search) -> (r: Option<Vec<usize>>)
    requires
        wf_adj(links(adj@)),
        u < adj@.len(),
        old(s).inv(links(adj@)),
        old(s).stack@.len() > 0 ==> edge(links(adj@), old(s).stack@.last() as int, u as int),
    ensures
        match r {
            Some(c) => is_cycle(links(adj@), c@),
            None => final(s).inv(links(adj@)) && final(s).stack@ == old(s).stack@ && final(s).color@[u as int]
                == 2 && count(final(s).color@, 0, adj@.len() as int) <= count(
                old(s).color@,
                0,
                adj@.len() as int,
            ) && forall|v: int|
                0 <= v < adj@.len() && old(s).color@[v] == 2 ==> #[trigger] final(s).color@[v] == 2,
        },
    decreases count(old(s).color@, 0, adj@.len() as int),
{
    let n = adj.len();
    proof {
        lemma_inv_lengths(links(adj@), *s);
    }
    if s.color[u] == 2 {
        return None;
    }
    if s.color[u] == 1 {
        let p = s.pos[u];
        let mut cycle: Vec<usize> = Vec::new();
        let mut i: usize = p;
        while i < s.stack.len()
            invariant
                p <= i <= s.stack@.len(),
                cycle@ == s.stack@.subrange(p as int, i as int),
            decreases s.stack@.len() - i,
        {
            cycle.push(s.stack[i]);
            assert(cycle@ =~= s.stack@.subrange(p as int, i + 1));
            i += 1;
        }
        cycle.push(u);
        proof {
            lemma_cycle(links(adj@), *s, u, cycle@);
        }
        return Some(cycle);
    }
    let ghost start = *s;
    let depth = s.stack.len();
    s.color.set(u, 1);
    s.pos.set(u, depth);
    s.stack.push(u);
    proof {
        lemma_enter(links(adj@), start, *s, u, depth);
    }
    let mut k: usize = 0;
    while k < adj[u].len()
        invariant
            n == adj@.len(),
            u < n,
            wf_adj(links(adj@)),
            k <= links(adj@)[u as int].len(),
            s.inv(links(adj@)),
            s.stack@ == old(s).stack@.push(u),
            0 <= count(s.color@, 0, n as int) < count(old(s).color@, 0, n as int),
            forall|j: int| 0 <= j < k ==> s.color@[(#[trigger] links(adj@)[u as int][j]) as int] == 2,
            forall|v: int| 0 <= v < n && old(s).color@[v] == 2 ==> #[trigger] s.color@[v] == 2,
        decreases links(adj@)[u as int].len() - k,
    {
        let v = adj[u][k];
        assert(links(adj@)[u as int][k as int] == v);
        assert(edge(links(adj@), u as int, v as int));
        assert(s.stack@.last() == u);
        let ghost before = s.color@;
        match visit(adj, v, s) {
            Some(c) => {
                return Some(c);
            },
            None => {},
        }
        proof {
            lemma_inv_lengths(links(adj@), *s);
            lemma_count_bounds(s.color@, 0, n as int);
            assert forall|j: int| 0 <= j < k + 1 implies s.color@[(
            #[trigger] links(adj@)[u as int][j]) as int] == 2 by {
                if j < k {
                    assert(before[links(adj@)[u as int][j] as int] == 2);
                }
            }
        }
        k += 1;
    }
    let ghost mid = *s;
    proof {
        lemma_inv_lengths(links(adj@), *s);
    }
    s.stack.pop();
    let done = s.order.len();
    s.color.set(u, 2);
    s.pos.set(u, done);
    s.order.push(u);
    proof {
        assert(s.stack@ =~= old(s).stack@);
        lemma_leave(links(adj@), mid, *s, u, done);
    }
    None
}

/// A place of the node `v` in `order`.
pub open spec fn place(order: Seq<usize>, v: int) -> int {
    choose|i: int| 0 <= i < order.len() && #[trigger] order[i] == v
}

proof fn lemma_path_descends(adj: Seq<Seq<usize>>, order: Seq<usize>, path: Seq<usize>, k: int)
    requires
        is_dependency_order(adj, order),
        is_cycle(adj, path),
        0 < k < path.len(),
    ensures
        place(order, path[k] as int) < place(order, path[0] as int),
    decreases k,
{
    let a = path[k - 1] as int;
    let b = path[k] as int;
    assert(edge(adj, a, b));
    assert(0 <= a < adj.len());
    if k < path.len() - 1 {
        assert(edge(adj, path[k] as int, path[k + 1] as int));
    } else {
        assert(path[k] == path[0]);
        assert(edge(adj, path[0] as int, path[1] as int));
    }
    assert(0 <= b < adj.len());
    assert(appears(order, a));
    assert(appears(order, b));
    let i = place(order, a);
    let j = place(order, b);
    assert(order[i] == a && order[j] == b);
    assert(j < i);
    if k > 1 {
        lemma_path_descends(adj, order, path, k - 1);
    }
}

/// A graph that has a dependency order has no cycle.
pub proof fn lemma_order_acyclic(adj: Seq<Seq<usize>>, order: Seq<usize>)
    requires
        is_dependency_order(adj, order),
    ensures
        acyclic(adj),
{
    assert forall|path: Seq<usize>| !is_cycle(adj, path) by {
        if is_cycle(adj, path) {
            lemma_path_descends(adj, order, path, path.len() - 1);
            assert(path[path.len() - 1] == path[0]);
        }
    }
}

proof fn lemma_count_none(color: Seq<u8>, c: u8, n: int)
    requires
        0 <= n <= color.len(),
        forall|v: int| 0 <= v < n ==> color[v] != c,
    ensures
        count(color, c, n) == 0,
    decreases n,
{
    if n > 0 {
        lemma_count_none(color, c, n - 1);
    }
}

proof fn lemma_search_start(adj: Seq<Seq<usize>>, a: Search)
    requires
        a.color@.len() == adj.len(),
        a.pos@.len() == adj.len(),
        forall|v: int| 0 <= v < adj.len() ==> a.color@[v] == 0,
        a.stack@.len() == 0,
        a.order@.len() == 0,
    ensures
        a.inv(adj),
{
    reveal(Search::inv);
    lemma_count_none(a.color@, 2, adj.len() as int);
}

proof fn lemma_search_end(adj: Seq<Seq<usize>>, a: Search)
    requires
        wf_adj(adj),
        a.inv(adj),
        forall|v: int| 0 <= v < adj.len() ==> a.color@[v] == 2,
    ensures
        is_dependency_order(adj, a.order@),
{
    reveal(Search::inv);
    let n = adj.len() as int;
    let order = a.order@;
    lemma_count_bounds(a.color@, 2, n);
    assert forall|i: int, j: int| 0 <= i < j < order.len() implies order[i] != order[j] by {
        assert(a.pos@[order[i] as int] == i);
        assert(a.pos@[order[j] as int] == j);
    }
    assert forall|v: int| 0 <= v < adj.len() implies #[trigger] appears(order, v) by {
        assert(a.color@[v] == 2);
        assert(order[a.pos@[v] as int] == v);
    }
    assert forall|i: int, j: int|
        0 <= i < order.len() && 0 <= j < order.len() && edge(
            adj,
            order[i] as int,
            order[j] as int,
        ) implies j < i by {
        let u = order[i] as int;
        let k = choose|k: int| 0 <= k < adj[u].len() && #[trigger] adj[u][k] == order[j];
        assert(a.color@[u] == 2);
        assert(a.pos@[adj[u][k] as int] < a.pos@[u]);
        assert(a.pos@[order[i] as int] == i);
        assert(a.pos@[order[j] as int] == j);
    }
}

/// Searches the whole graph depth first. Gives the nodes in an order in
/// which each comes after all that its edges lead to, or a cycle where the
/// graph has one.
pub fn dependency_order(adj: &Vec<Vec<usize>>) -> (r: Result<Vec<usize>, Vec<usize>>)
    requires
        wf_adj(links(adj@)),
    ensures
        match r {
            Ok(order) => is_dependency_order(links(adj@), order@) && acyclic(links(adj@)),
            Err(c) => is_cycle(links(adj@), c@) && !acyclic(links(adj@)),
        },
{
    let n = adj.len();
    let mut color: Vec<u8> = Vec::new();
    let mut pos: Vec<usize> = Vec::new();
    let mut i: usize = 0;
    while i < n
        invariant
            i <= n,
            color@.len() == i,
            pos@.len() == i,
            forall|v: int| 0 <= v < i ==> color@[v] == 0,
        decreases n - i,
    {
        color.push(0);
        pos.push(0);
        i += 1;
    }
    let mut s = Search { color, pos, stack: Vec::new(), order: Vec::new() };
    proof {
        lemma_search_start(links(adj@), s);
    }
    let mut u: usize = 0;
    while u < n
        invariant
            n == adj@.len(),
            u <= n,
            wf_adj(links(adj@)),
            s.inv(links(adj@)),
            s.stack@.len() == 0,
            forall|v: int| 0 <= v < u ==> s.color@[v] == 2,
        decreases n - u,
    {
        let ghost before = s.color@;
        match visit(adj, u, &mut s) {
            Some(c) => {
                return Err(c);
            },
            None => {},
        }
        assert forall|v: int| 0 <= v < u + 1 implies s.color@[v] == 2 by {
            if v < u {
                assert(before[v] == 2);
            }
        }
        u += 1;
    }
    proof {
        lemma_search_end(links(adj@), s);
        lemma_order_acyclic(links(adj@), s.order@);
    }
    Ok(s.order)
}

} // verus!
