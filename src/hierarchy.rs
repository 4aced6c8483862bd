//! Inheritance edges between named classes and their transitive closures.

use vstd::prelude::*;
use crate::text::views;

verus! {

/// Adjacency lists whose targets are all valid node numbers.
pub open spec fn adj_wf(adj: Seq<Seq<usize>>) -> bool {
    forall|a: int, i: int|
        0 <= a < adj.len() && 0 <= i < adj[a].len() ==> (#[trigger] adj[a][i]) < adj.len()
}

pub open spec fn adj_view(adj: Seq<Vec<usize>>) -> Seq<Seq<usize>> {
    adj.map_values(|v: Vec<usize>| v@)
}

/// A walk of at least one edge.
pub open spec fn is_path(adj: Seq<Seq<usize>>, p: Seq<int>) -> bool {
    &&& p.len() >= 2
    &&& forall|i: int| 0 <= i < p.len() ==> 0 <= #[trigger] p[i] < adj.len()
    &&& forall|i: int| 0 <= i < p.len() - 1 ==> adj[p[i]].contains(#[trigger] p[i + 1] as usize)
}

/// `b` can be reached from `a` by following one edge or more.
pub open spec fn reaches(adj: Seq<Seq<usize>>, a: int, b: int) -> bool {
    exists|p: Seq<int>| #[trigger] is_path(adj, p) && p[0] == a && p.last() == b
}

pub proof fn lemma_edge_reaches(adj: Seq<Seq<usize>>, a: int, b: int)
    requires
        0 <= a < adj.len(),
        0 <= b < adj.len(),
        adj[a].contains(b as usize),
    ensures
        reaches(adj, a, b),
{
    let p = seq![a, b];
    assert(is_path(adj, p));
}

pub proof fn lemma_reaches_extend(adj: Seq<Seq<usize>>, a: int, b: int, c: int)
    requires
        reaches(adj, a, b),
        0 <= c < adj.len(),
        adj[b].contains(c as usize),
    ensures
        reaches(adj, a, c),
{
    let p = choose|p: Seq<int>| is_path(adj, p) && p[0] == a && p.last() == b;
    let q = p.push(c);
    assert forall|i: int| 0 <= i < q.len() - 1 implies adj[q[i]].contains(#[trigger] q[i + 1] as usize) by {
        if i < p.len() - 1 {
            assert(q[i] == p[i] && q[i + 1] == p[i + 1]);
        }
    }
    assert(is_path(adj, q));
}

/// Working state of the closure search: nodes found so far, in the order found.
spec fn search_inv(adj: Seq<Seq<usize>>, start: int, visited: Seq<bool>, order: Seq<usize>) -> bool {
    &&& visited.len() == adj.len()
    &&& order.no_duplicates()
    &&& forall|i: int| 0 <= i < order.len() ==> (#[trigger] order[i]) < adj.len()
    &&& forall|v: int| 0 <= v < visited.len() ==> (#[trigger] visited[v] <==> order.contains(v as usize))
    &&& forall|i: int| 0 <= i < order.len() ==> reaches(adj, start, #[trigger] order[i] as int)
}

proof fn lemma_distinct_bounded(s: Seq<usize>, n: nat)
    requires
        s.no_duplicates(),
        forall|i: int| 0 <= i < s.len() ==> (#[trigger] s[i]) < n,
    ensures
        s.len() <= n,
{
    let t = s.map_values(|x: usize| x as int);
    assert(t.no_duplicates()) by {
        assert forall|i: int, j: int| 0 <= i < t.len() && 0 <= j < t.len() && i != j implies t[i] != t[j] by {
            assert(s[i] != s[j]);
        }
    }
    t.unique_seq_to_set();
    vstd::set_lib::lemma_int_range(0, n as int);
    assert(t.to_set().subset_of(vstd::set_lib::set_int_range(0, n as int))) by {
        assert forall|x: int| t.to_set().contains(x) implies vstd::set_lib::set_int_range(0, n as int).contains(x) by {
            let i = choose|i: int| 0 <= i < t.len() && t[i] == x;
            assert(s[i] < n);
        }
    }
    vstd::set_lib::lemma_len_subset(t.to_set(), vstd::set_lib::set_int_range(0, n as int));
}

/// Marks every unvisited target of `x` as found.
fn expand(adj: &Vec<Vec<usize>>, start: usize, x: usize, visited: &mut Vec<bool>, order: &mut Vec<usize>)
    requires
        adj_wf(adj_view(adj@)),
        start < adj.len(),
        x < adj.len(),
        x == start || reaches(adj_view(adj@), start as int, x as int),
        search_inv(adj_view(adj@), start as int, old(visited)@, old(order)@),
    ensures
        search_inv(adj_view(adj@), start as int, final(visited)@, final(order)@),
        final(order)@.len() >= old(order)@.len(),
        final(order)@.subrange(0, old(order)@.len() as int) == old(order)@,
        forall|i: int| 0 <= i < adj[x as int]@.len() ==> final(visited)@[#[trigger] adj_view(adj@)[x as int][i] as int],
        forall|v: int| 0 <= v < old(visited)@.len() && old(visited)@[v] ==> #[trigger] final(visited)@[v],
{
    let ghost old_visited = visited@;
    let ghost g = adj_view(adj@);
    let ghost old_order = order@;
    let mut i: usize = 0;
    while i < adj[x].len()
        invariant
            g == adj_view(adj@),
            adj_wf(g),
            start < adj.len(),
            x < adj.len(),
            x == start || reaches(g, start as int, x as int),
            search_inv(g, start as int, visited@, order@),
            i <= adj[x as int]@.len(),
            order@.len() >= old_order.len(),
            order@.subrange(0, old_order.len() as int) == old_order,
            forall|k: int| 0 <= k < i ==> visited@[#[trigger] adj[x as int]@[k] as int],
            old_visited.len() == visited@.len(),
            forall|v: int| 0 <= v < old_visited.len() && old_visited[v] ==> #[trigger] visited@[v],
        decreases adj[x as int]@.len() - i,
    {
        let c = adj[x][i];
        assert(g[x as int][i as int] == c);
        if !visited[c] {
            proof {
                assert(g[x as int].contains(c));
                if x == start {
                    lemma_edge_reaches(g, start as int, c as int);
                } else {
                    lemma_reaches_extend(g, start as int, x as int, c as int);
                }
                assert(!order@.contains(c));
            }
            let ghost prev = order@;
            let ghost prev_visited = visited@;
            visited.set(c, true);
            assert(visited@ == prev_visited.update(c as int, true));
            order.push(c);
            proof {
                assert(order@.subrange(0, old_order.len() as int) =~= prev.subrange(0, old_order.len() as int));
                assert forall|v: int| 0 <= v < visited@.len() implies (#[trigger] visited@[v] <==> order@.contains(v as usize)) by {
                    if v != c {
                        if order@.contains(v as usize) {
                            let k = choose|k: int| 0 <= k < order@.len() && order@[k] == v as usize;
                            assert(k < prev.len());
                            assert(prev[k] == v as usize);
                        }
                        if prev.contains(v as usize) {
                            let k = choose|k: int| 0 <= k < prev.len() && prev[k] == v as usize;
                            assert(order@[k] == v as usize);
                        }
                    } else {
                        assert(order@[prev.len() as int] == c);
                    }
                }
            }
        }
        i = i + 1;
    }
}

/// Every node reachable from `start` by one edge or more, each once, in breadth-first order.
pub fn reachable_from(adj: &Vec<Vec<usize>>, start: usize) -> (r: Vec<usize>)
    requires
        adj_wf(adj_view(adj@)),
        start < adj.len(),
    ensures
        r@.no_duplicates(),
        forall|i: int| 0 <= i < r@.len() ==> (#[trigger] r@[i]) < adj.len(),
        forall|x: int| 0 <= x < adj.len() ==> (r@.contains(x as usize) <==> reaches(adj_view(adj@), start as int, x)),
{
    let ghost g = adj_view(adj@);
    let n = adj.len();
    let mut visited: Vec<bool> = Vec::new();
    while visited.len() < n
        invariant
            visited.len() <= n,
            forall|v: int| 0 <= v < visited@.len() ==> !(#[trigger] visited@[v]),
        decreases n - visited.len(),
    {
        visited.push(false);
    }
    let mut order: Vec<usize> = Vec::new();
    assert(search_inv(g, start as int, visited@, order@));
    expand(adj, start, start, &mut visited, &mut order);
    proof {
        lemma_distinct_bounded(order@, n as nat);
    }
    let mut head: usize = 0;
    while head < order.len()
        invariant
            g == adj_view(adj@),
            adj_wf(g),
            n == adj.len(),
            start < n,
            search_inv(g, start as int, visited@, order@),
            head <= order@.len(),
            order@.len() <= n,
            forall|k: int| 0 <= k < g[start as int].len() ==> visited@[#[trigger] g[start as int][k] as int],
            forall|j: int, k: int| 0 <= j < head && 0 <= k < g[order@[j] as int].len()
                ==> visited@[#[trigger] g[#[trigger] order@[j] as int][k] as int],
        decreases n - head,
    {
        let x = order[head];
        let ghost prev = order@;
        expand(adj, start, x, &mut visited, &mut order);
        proof {
            assert forall|j: int, k: int| 0 <= j < head + 1 && 0 <= k < g[order@[j] as int].len()
                implies visited@[#[trigger] g[#[trigger] order@[j] as int][k] as int] by {
                assert(order@[j] == prev[j]);

            }
            lemma_distinct_bounded(order@, n as nat);
        }
        head = head + 1;
    }
    proof {
        assert forall|x: int| 0 <= x < n implies (order@.contains(x as usize) <==> reaches(g, start as int, x)) by {
            if reaches(g, start as int, x) {
                let p = choose|p: Seq<int>| is_path(g, p) && p[0] == start && p.last() == x;
                assert forall|i: int| 1 <= i < p.len() implies visited@[#[trigger] p[i]] by {
                    lemma_path_visited(g, start as int, visited@, order@, p, i);
                }
                assert(visited@[p[p.len() - 1]]);
            }
            if order@.contains(x as usize) {
                let k = choose|k: int| 0 <= k < order@.len() && order@[k] == x as usize;
                assert(reaches(g, start as int, order@[k] as int));
            }
        }
    }
    order
}

proof fn lemma_path_visited(g: Seq<Seq<usize>>, start: int, visited: Seq<bool>, order: Seq<usize>, p: Seq<int>, i: int)
    requires
        search_inv(g, start, visited, order),
        g.len() <= usize::MAX,
        is_path(g, p),
        p[0] == start,
        1 <= i < p.len(),
        forall|k: int| 0 <= k < g[start].len() ==> visited[#[trigger] g[start][k] as int],
        forall|j: int, k: int| 0 <= j < order.len() && 0 <= k < g[order[j] as int].len()
            ==> visited[#[trigger] g[#[trigger] order[j] as int][k] as int],
    ensures
        visited[p[i]],
    decreases i,
{
    let q = i - 1;
    assert(g[p[q]].contains(p[q + 1] as usize));
    assert(0 <= p[q] < g.len());
    let e = g[p[i - 1]];
    let k = choose|k: int| 0 <= k < e.len() && #[trigger] e[k] == p[i] as usize;
    if i == 1 {
        assert(visited[g[start][k] as int]);
    } else {
        lemma_path_visited(g, start, visited, order, p, i - 1);
        assert(order.contains(p[i - 1] as usize));
        let j = choose|j: int| 0 <= j < order.len() && order[j] == p[i - 1] as usize;
        assert(order[j] as int == p[q]);
        assert(g[order[j] as int][k] == p[i] as usize);
        assert(visited[g[order[j] as int][k] as int]);
    }
}

} // verus!

verus! {

/// Classes by fully qualified name, with the inheritance edges recorded between them.
pub struct Hierarchy {
    names: Vec<String>,
    parents: Vec<Vec<usize>>,
    children: Vec<Vec<usize>>,
}

impl Hierarchy {
    /// Names of the known classes, by number.
    pub closed spec fn names(&self) -> Seq<Seq<char>> {
        views(self.names@)
    }

    /// Direct bases of each class.
    pub closed spec fn parent_adj(&self) -> Seq<Seq<usize>> {
        adj_view(self.parents@)
    }

    /// Direct descendants of each class.
    pub closed spec fn child_adj(&self) -> Seq<Seq<usize>> {
        adj_view(self.children@)
    }

    pub open spec fn len(&self) -> nat {
        self.names().len()
    }

    /// Class `a` directly inherits class `b`.
    pub open spec fn inherits(&self, a: int, b: int) -> bool {
        self.parent_adj()[a].contains(b as usize)
    }

    pub closed spec fn wf(&self) -> bool {
        &&& self.names@.len() == self.parents@.len()
        &&& self.names@.len() == self.children@.len()
        &&& adj_wf(self.parent_adj())
        &&& adj_wf(self.child_adj())
        &&& forall|i: int, j: int| 0 <= i < j < self.names@.len() ==> self.names@[i]@ != self.names@[j]@
        &&& forall|a: int, b: int| 0 <= a < self.names@.len() && 0 <= b < self.names@.len() ==>
            (#[trigger] self.child_adj()[a].contains(b as usize) <==> #[trigger] self.parent_adj()[b].contains(a as usize))
    }

    pub proof fn lemma_wf_shape(&self)
        requires
            self.wf(),
        ensures
            self.parent_adj().len() == self.len(),
            self.child_adj().len() == self.len(),
            self.len() <= usize::MAX,
            adj_wf(self.parent_adj()),
            adj_wf(self.child_adj()),
            forall|a: int, b: int| 0 <= a < self.len() && 0 <= b < self.len() ==>
                (#[trigger] self.child_adj()[a].contains(b as usize) <==> #[trigger] self.parent_adj()[b].contains(a as usize)),
    {
        assert(self.names@.len() == self.names.len());
    }

    pub proof fn lemma_names_distinct(&self, a: int, b: int)
        requires
            self.wf(),
            0 <= a < self.len(),
            0 <= b < self.len(),
            self.names()[a] == self.names()[b],
        ensures
            a == b,
    {
        if a < b {
            assert(self.names@[a]@ != self.names@[b]@);
        } else if b < a {
            assert(self.names@[b]@ != self.names@[a]@);
        }
    }

    pub fn new() -> (r: Self)
        ensures
            r.wf(),
            r.len() == 0,
    {
        Hierarchy { names: Vec::new(), parents: Vec::new(), children: Vec::new() }
    }

    pub fn len_exec(&self) -> (r: usize)
        requires
            self.wf(),
        ensures
            r == self.len(),
    {
        self.names.len()
    }

    /// The number of the class called `name`, if it is known.
    pub fn find(&self, name: &String) -> (r: Option<usize>)
        requires
            self.wf(),
        ensures
            r matches Some(i) ==> i < self.len() && self.names()[i as int] == name@,
            r is None ==> forall|i: int| 0 <= i < self.len() ==> self.names()[i] != name@,
    {
        let mut i: usize = 0;
        while i < self.names.len()
            invariant
                i <= self.names.len(),
                forall|k: int| 0 <= k < i ==> self.names@[k]@ != name@,
            decreases self.names.len() - i,
        {
            if self.names[i] == *name {
                return Some(i);
            }
            i = i + 1;
        }
        None
    }

    /// Direct bases of class `id`.
    pub fn parents_of(&self, id: usize) -> (r: &Vec<usize>)
        requires
            self.wf(),
            id < self.len(),
        ensures
            r@ == self.parent_adj()[id as int],
            forall|k: int| 0 <= k < r@.len() ==> (#[trigger] r@[k]) < self.len(),
    {
        &self.parents[id]
    }

    /// The name of class `id`.
    pub fn name(&self, id: usize) -> (r: &String)
        requires
            self.wf(),
            id < self.len(),
        ensures
            r@ == self.names()[id as int],
    {
        &self.names[id]
    }

    /// The number of the class called `name`, registering it without edges if it is new.
    pub fn intern(&mut self, name: &String) -> (r: usize)
        requires
            old(self).wf(),
        ensures
            final(self).wf(),
            r < final(self).len(),
            final(self).names()[r as int] == name@,
            old(self).names().is_prefix_of(final(self).names()),
            final(self).len() <= old(self).len() + 1,
            forall|a: int, b: int| 0 <= a < old(self).len() && 0 <= b < old(self).len() ==>
                (final(self).inherits(a, b) <==> old(self).inherits(a, b)),
            forall|a: int, b: int| 0 <= a < final(self).len() && 0 <= b < final(self).len() &&
                (a >= old(self).len() || b >= old(self).len()) ==> !final(self).inherits(a, b),
    {
        match self.find(name) {
            Some(i) => {
                assert(self.names().is_prefix_of(self.names()));
                i
            },
            None => {
                let ghost old_self = *self;
                let n = self.names.len();
                self.names.push(name.clone());
                self.parents.push(Vec::new());
                self.children.push(Vec::new());
                proof {
                    assert(self.parent_adj() =~= old_self.parent_adj().push(Seq::empty()));
                    assert(self.child_adj() =~= old_self.child_adj().push(Seq::empty()));
                    assert forall|i: int, j: int| 0 <= i < j < self.names@.len() implies self.names@[i]@ != self.names@[j]@ by {
                        if j == n {
                            assert(old_self.names()[i] == old_self.names@[i]@);
                        }
                    }
                    assert(old_self.names() =~= self.names().subrange(0, n as int));
                    assert forall|a: int, i: int|
                        0 <= a < self.parent_adj().len() && 0 <= i < self.parent_adj()[a].len()
                        implies (#[trigger] self.parent_adj()[a][i]) < self.parent_adj().len() by {
                        assert(old_self.parent_adj()[a][i] < n);
                    }
                    assert forall|a: int, i: int|
                        0 <= a < self.child_adj().len() && 0 <= i < self.child_adj()[a].len()
                        implies (#[trigger] self.child_adj()[a][i]) < self.child_adj().len() by {
                        assert(old_self.child_adj()[a][i] < n);
                    }
                    assert forall|a: int, b: int| 0 <= a < self.names@.len() && 0 <= b < self.names@.len() implies
                        (#[trigger] self.child_adj()[a].contains(b as usize) <==> #[trigger] self.parent_adj()[b].contains(a as usize)) by {
                        if a < n && b < n {
                            assert(old_self.child_adj()[a].contains(b as usize) <==> old_self.parent_adj()[b].contains(a as usize));
                        }
                        if a == n {
                            assert(self.child_adj()[a] =~= Seq::<usize>::empty());
                        } else if self.child_adj()[a].contains(b as usize) {
                            let k = choose|k: int| 0 <= k < self.child_adj()[a].len() && self.child_adj()[a][k] == b as usize;
                            assert(old_self.child_adj()[a][k] < n);
                        }
                        if b == n {
                            assert(self.parent_adj()[b] =~= Seq::<usize>::empty());
                        } else if self.parent_adj()[b].contains(a as usize) {
                            let k = choose|k: int| 0 <= k < self.parent_adj()[b].len() && self.parent_adj()[b][k] == a as usize;
                            assert(old_self.parent_adj()[b][k] < n);
                        }
                    }
                    assert forall|a: int, b: int| 0 <= a < self.len() && 0 <= b < self.len() &&
                        (a >= n || b >= n) implies !self.inherits(a, b) by {
                        if a == n {
                            assert(self.parent_adj()[a] =~= Seq::<usize>::empty());
                        } else if self.parent_adj()[a].contains(b as usize) {
                            let k = choose|k: int| 0 <= k < self.parent_adj()[a].len() && self.parent_adj()[a][k] == b as usize;
                            assert(old_self.parent_adj()[a][k] < n);
                        }
                    }
                }
                n
            },
        }
    }

    /// Records that class `child` directly inherits class `parent`.
    pub fn add_inheritance(&mut self, child: usize, parent: usize)
        requires
            old(self).wf(),
            child < old(self).len(),
            parent < old(self).len(),
        ensures
            final(self).wf(),
            final(self).names() == old(self).names(),
            forall|a: int, b: int| 0 <= a < old(self).len() && 0 <= b < old(self).len() ==>
                (final(self).inherits(a, b) <==> (old(self).inherits(a, b) || (a == child && b == parent))),
    {
        let ghost old_self = *self;
        let mut ps = self.parents[child].clone();
        assert(ps@ =~= old_self.parent_adj()[child as int]);
        ps.push(parent);
        self.parents.set(child, ps);
        let mut cs = self.children[parent].clone();
        assert(cs@ =~= old_self.child_adj()[parent as int]);
        cs.push(child);
        self.children.set(parent, cs);
        proof {
            assert(old_self.names@.len() == old_self.names.len());
            assert(old_self.len() <= usize::MAX);
            assert(self.parent_adj() =~= old_self.parent_adj().update(child as int, old_self.parent_adj()[child as int].push(parent)));
            assert(self.child_adj() =~= old_self.child_adj().update(parent as int, old_self.child_adj()[parent as int].push(child)));
            assert forall|a: int, b: int| 0 <= a < old_self.len() && 0 <= b < old_self.len() implies
                (#[trigger] self.parent_adj()[a].contains(b as usize) <==> (old_self.parent_adj()[a].contains(b as usize) || (a == child && b == parent))) by {
                if a == child {
                    lemma_push_contains(old_self.parent_adj()[a], parent, b as usize);
                }
            }
            assert forall|a: int, b: int| 0 <= a < old_self.len() && 0 <= b < old_self.len() implies
                (#[trigger] self.child_adj()[a].contains(b as usize) <==> (old_self.child_adj()[a].contains(b as usize) || (a == parent && b == child))) by {
                if a == parent {
                    lemma_push_contains(old_self.child_adj()[a], child, b as usize);
                }
            }
            assert forall|a: int, i: int|
                0 <= a < self.parent_adj().len() && 0 <= i < self.parent_adj()[a].len()
                implies (#[trigger] self.parent_adj()[a][i]) < self.parent_adj().len() by {
                if a == child && i == old_self.parent_adj()[a].len() {
                } else {
                    assert(self.parent_adj()[a][i] == old_self.parent_adj()[a][i]);
                }
            }
            assert forall|a: int, i: int|
                0 <= a < self.child_adj().len() && 0 <= i < self.child_adj()[a].len()
                implies (#[trigger] self.child_adj()[a][i]) < self.child_adj().len() by {
                if a == parent && i == old_self.child_adj()[a].len() {
                } else {
                    assert(self.child_adj()[a][i] == old_self.child_adj()[a][i]);
                }
            }
            assert forall|a: int, b: int| 0 <= a < self.names@.len() && 0 <= b < self.names@.len() implies
                (#[trigger] self.child_adj()[a].contains(b as usize) <==> #[trigger] self.parent_adj()[b].contains(a as usize)) by {
                assert(self.child_adj()[a].contains(b as usize) <==> (old_self.child_adj()[a].contains(b as usize) || (a == parent && b == child)));
                assert(self.parent_adj()[b].contains(a as usize) <==> (old_self.parent_adj()[b].contains(a as usize) || (b == child && a == parent)));
                assert(old_self.child_adj()[a].contains(b as usize) <==> old_self.parent_adj()[b].contains(a as usize));
            }
        }
    }

    /// Every class that inherits `id`, directly or not, each once.
    pub fn descendants(&self, id: usize) -> (r: Vec<usize>)
        requires
            self.wf(),
            id < self.len(),
        ensures
            r@.no_duplicates(),
            forall|i: int| 0 <= i < r@.len() ==> (#[trigger] r@[i]) < self.len(),
            forall|x: int| 0 <= x < self.len() ==> (r@.contains(x as usize) <==> reaches(self.child_adj(), id as int, x)),
    {
        reachable_from(&self.children, id)
    }

    /// Every class that `id` inherits, directly or not, each once.
    pub fn all_bases(&self, id: usize) -> (r: Vec<usize>)
        requires
            self.wf(),
            id < self.len(),
        ensures
            r@.no_duplicates(),
            forall|i: int| 0 <= i < r@.len() ==> (#[trigger] r@[i]) < self.len(),
            forall|x: int| 0 <= x < self.len() ==> (r@.contains(x as usize) <==> reaches(self.parent_adj(), id as int, x)),
    {
        reachable_from(&self.parents, id)
    }
}

pub proof fn lemma_push_contains(s: Seq<usize>, v: usize, x: usize)
    ensures
        s.push(v).contains(x) <==> (s.contains(x) || x == v),
{
    if s.push(v).contains(x) && x != v {
        let k = choose|k: int| 0 <= k < s.push(v).len() && s.push(v)[k] == x;
        assert(s[k] == x);
    }
    if s.contains(x) {
        let k = choose|k: int| 0 <= k < s.len() && s[k] == x;
        assert(s.push(v)[k] == x);
    }
    if x == v {
        assert(s.push(v)[s.len() as int] == v);
    }
}

/// Inheritance is transitive in both closures: when `a` inherits `b` and `b` inherits `c`,
/// both `a` and `b` are descendants of `c`, and both `b` and `c` are bases of `a`.
pub proof fn lemma_closures_transitive(h: &Hierarchy, a: int, b: int, c: int)
    requires
        h.wf(),
        0 <= a < h.len(),
        0 <= b < h.len(),
        0 <= c < h.len(),
        h.inherits(a, b),
        h.inherits(b, c),
    ensures
        reaches(h.child_adj(), c, a),
        reaches(h.child_adj(), c, b),
        reaches(h.parent_adj(), a, b),
        reaches(h.parent_adj(), a, c),
{
    h.lemma_wf_shape();
    assert(h.child_adj()[b].contains(a as usize));
    assert(h.child_adj()[c].contains(b as usize));
    lemma_edge_reaches(h.child_adj(), c, b);
    lemma_reaches_extend(h.child_adj(), c, b, a);
    lemma_edge_reaches(h.parent_adj(), a, b);
    lemma_reaches_extend(h.parent_adj(), a, b, c);
}

} // verus!
