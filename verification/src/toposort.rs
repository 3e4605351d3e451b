//! Topological order with the smallest key first.
use crate::strmap::StrMap;
use crate::text::{
    decimal, decimal_seq, join, join_seq, lemma_str_lt_order, less, owned, str_lt, views,
};
use vstd::prelude::*;

verus! {

/// A node of a graph: its key and the keys of its dependencies.
pub struct TopoNode {
    pub key: String,
    pub deps: Vec<String>,
}

/// What a node holds.
pub struct TopoView {
    pub key: Seq<char>,
    pub deps: Seq<Seq<char>>,
}

impl View for TopoNode {
    type V = TopoView;

    open spec fn view(&self) -> TopoView {
        TopoView { key: self.key@, deps: views(self.deps@) }
    }
}

/// What each node of a list holds.
pub open spec fn node_views(nodes: Seq<TopoNode>) -> Seq<TopoView> {
    Seq::new(nodes.len(), |i: int| nodes[i]@)
}

/// No two nodes share a key.
pub open spec fn distinct_keys(ns: Seq<TopoView>) -> bool {
    forall|i: int, j: int|
        0 <= i < ns.len() && 0 <= j < ns.len() && (#[trigger] ns[i]).key == (#[trigger] ns[j]).key
            ==> i == j
}

/// A node with the key has been placed.
pub open spec fn placed(ns: Seq<TopoView>, done: Seq<int>, key: Seq<char>) -> bool {
    exists|d: int| 0 <= d < done.len() && ns[#[trigger] done[d]].key == key
}

/// Node `i` is still to be placed and all its dependencies have been.
pub open spec fn ready(ns: Seq<TopoView>, done: Seq<int>, i: int) -> bool {
    &&& 0 <= i < ns.len()
    &&& !done.contains(i)
    &&& forall|k: int| 0 <= k < ns[i].deps.len() ==> placed(ns, done, #[trigger] ns[i].deps[k])
}

/// Node `i` is ready, and no ready node has a smaller key.
pub open spec fn next_ready(ns: Seq<TopoView>, done: Seq<int>, i: int) -> bool {
    &&& ready(ns, done, i)
    &&& forall|j: int| #[trigger] ready(ns, done, j) ==> !str_lt(ns[j].key, ns[i].key)
}

/// The order that goes on from `done`, for at most `steps` nodes, by always
/// placing the ready node with the smallest key.
pub open spec fn topo_order(ns: Seq<TopoView>, done: Seq<int>, steps: nat) -> Seq<int>
    decreases steps,
{
    if steps > 0 && exists|i: int| next_ready(ns, done, i) {
        topo_order(ns, done.push(choose|i: int| next_ready(ns, done, i)), (steps - 1) as nat)
    } else {
        done
    }
}

/// The order of all nodes, as far as it goes.
pub open spec fn full_order(ns: Seq<TopoView>) -> Seq<int> {
    topo_order(ns, Seq::empty(), ns.len())
}

// ---------------------------------------------------------------------------
// The message for a graph that cannot be ordered
// ---------------------------------------------------------------------------

/// One dependency and whether it was placed.
pub open spec fn dep_status(ns: Seq<TopoView>, done: Seq<int>, key: Seq<char>) -> Seq<char> {
    key + "("@ + (if placed(ns, done, key) {
        "ok"@
    } else {
        "STUCK"@
    }) + ")"@
}

/// The number of dependencies that were not placed.
pub open spec fn missing_deps(ns: Seq<TopoView>, done: Seq<int>, deps: Seq<Seq<char>>) -> nat
    decreases deps.len(),
{
    if deps.len() == 0 {
        0
    } else {
        missing_deps(ns, done, deps.drop_last()) + (if placed(ns, done, deps.last()) {
            0nat
        } else {
            1nat
        })
    }
}

/// The line for a node that was not placed.
pub open spec fn stuck_line(ns: Seq<TopoView>, done: Seq<int>, i: int) -> Seq<char> {
    "  "@ + ns[i].key + " [in_degree="@ + decimal_seq(missing_deps(ns, done, ns[i].deps))
        + "] -> ["@ + join_seq(
        Seq::new(ns[i].deps.len(), |k: int| dep_status(ns, done, ns[i].deps[k])),
        ", "@,
    ) + "]"@
}

/// The lines for the nodes among the first `n` that were not placed.
pub open spec fn stuck_lines(ns: Seq<TopoView>, done: Seq<int>, n: nat) -> Seq<Seq<char>>
    decreases n,
{
    if n == 0 {
        Seq::empty()
    } else if placed(ns, done, ns[n - 1].key) {
        stuck_lines(ns, done, (n - 1) as nat)
    } else {
        stuck_lines(ns, done, (n - 1) as nat).push(stuck_line(ns, done, n - 1))
    }
}

/// The message for a graph that cannot be ordered.
pub open spec fn cycle_message(ns: Seq<TopoView>, done: Seq<int>) -> Seq<char> {
    "Topological sort failed: cycle detected ("@ + decimal_seq(done.len()) + " of "@ + decimal_seq(
        ns.len(),
    ) + " units sorted)\nStuck units:\n"@ + join_seq(stuck_lines(ns, done, ns.len()), "\n"@)
}

// ---------------------------------------------------------------------------
// Code
// ---------------------------------------------------------------------------

/// The state of a sort: for each node whether it was placed.
spec fn flags_ok(flags: Seq<bool>, done: Seq<int>, n: int) -> bool {
    &&& flags.len() == n
    &&& forall|i: int| 0 <= i < n ==> #[trigger] flags[i] == done.contains(i)
    &&& forall|d: int| 0 <= d < done.len() ==> 0 <= #[trigger] done[d] < n
}

/// For each key the node that bears it.
spec fn node_index(m: Map<Seq<char>, usize>, ns: Seq<TopoView>) -> bool {
    &&& forall|i: int| 0 <= i < ns.len() ==> m.contains_key((#[trigger] ns[i]).key) && m[ns[i].key] == i
    &&& forall|k: Seq<char>| #[trigger]
        m.contains_key(k) ==> 0 <= m[k] < ns.len() && ns[m[k] as int].key == k
}

fn index_nodes(nodes: &Vec<TopoNode>) -> (m: StrMap<usize>)
    requires
        distinct_keys(node_views(nodes@)),
    ensures
        node_index(m@, node_views(nodes@)),
{
    let ghost ns = node_views(nodes@);
    let mut m: StrMap<usize> = StrMap::new();
    let mut i: usize = 0;
    while i < nodes.len()
        invariant
            i <= nodes@.len(),
            ns == node_views(nodes@),
            distinct_keys(ns),
            forall|j: int| 0 <= j < i ==> m@.contains_key((#[trigger] ns[j]).key) && m@[ns[j].key] == j,
            forall|k: Seq<char>| #[trigger]
                m@.contains_key(k) ==> 0 <= m@[k] < i && ns[m@[k] as int].key == k,
        decreases nodes@.len() - i,
    {
        assert(ns[i as int].key == nodes@[i as int].key@);
        m.insert(nodes[i].key.clone(), i);
        i = i + 1;
    }
    m
}

fn is_placed(
    index: &StrMap<usize>,
    flags: &Vec<bool>,
    key: &str,
    ns: Ghost<Seq<TopoView>>,
    done: Ghost<Seq<int>>,
) -> (r: bool)
    requires
        distinct_keys(ns@),
        node_index(index@, ns@),
        flags_ok(flags@, done@, ns@.len() as int),
    ensures
        r == placed(ns@, done@, key@),
{
    match index.get(key) {
        Some(j) => {
            proof {
                let i = *j as int;
                if done@.contains(i) {
                    let d = choose|d: int| 0 <= d < done@.len() && done@[d] == i;
                    assert(ns@[done@[d]].key == key@);
                }
                if placed(ns@, done@, key@) {
                    let d = choose|d: int| 0 <= d < done@.len() && ns@[#[trigger] done@[d]].key == key@;
                    assert(ns@[done@[d]].key == ns@[i].key);
                    assert(done@.contains(i));
                }
                assert(flags@[i] == done@.contains(i));
            }
            flags[*j]
        },
        None => {
            proof {
                if placed(ns@, done@, key@) {
                    let d = choose|d: int| 0 <= d < done@.len() && ns@[#[trigger] done@[d]].key == key@;
                    assert(index@.contains_key(ns@[done@[d]].key));
                }
            }
            false
        },
    }
}

fn is_ready(
    nodes: &Vec<TopoNode>,
    index: &StrMap<usize>,
    flags: &Vec<bool>,
    i: usize,
    done: Ghost<Seq<int>>,
) -> (r: bool)
    requires
        i < nodes@.len(),
        distinct_keys(node_views(nodes@)),
        node_index(index@, node_views(nodes@)),
        flags_ok(flags@, done@, nodes@.len() as int),
    ensures
        r == ready(node_views(nodes@), done@, i as int),
{
    let ghost ns = node_views(nodes@);
    assert(flags@[i as int] == done@.contains(i as int));
    if flags[i] {
        return false;
    }
    let mut k: usize = 0;
    while k < nodes[i].deps.len()
        invariant
            i < nodes@.len(),
            ns == node_views(nodes@),
            distinct_keys(ns),
            node_index(index@, ns),
            flags_ok(flags@, done@, ns.len() as int),
            k <= nodes@[i as int].deps@.len(),
            forall|x: int| 0 <= x < k ==> placed(ns, done@, #[trigger] ns[i as int].deps[x]),
        decreases nodes@[i as int].deps@.len() - k,
    {
        assert(ns[i as int].deps[k as int] == nodes@[i as int].deps@[k as int]@);
        if !is_placed(index, flags, nodes[i].deps[k].as_str(), Ghost(ns), done) {
            return false;
        }
        k = k + 1;
    }
    true
}

/// The ready node with the smallest key.
fn find_next(
    nodes: &Vec<TopoNode>,
    index: &StrMap<usize>,
    flags: &Vec<bool>,
    done: Ghost<Seq<int>>,
) -> (r: Option<usize>)
    requires
        distinct_keys(node_views(nodes@)),
        node_index(index@, node_views(nodes@)),
        flags_ok(flags@, done@, nodes@.len() as int),
    ensures
        match r {
            Some(i) => next_ready(node_views(nodes@), done@, i as int),
            None => forall|i: int| !ready(node_views(nodes@), done@, i),
        },
{
    let ghost ns = node_views(nodes@);
    let mut best: Option<usize> = None;
    let mut i: usize = 0;
    while i < nodes.len()
        invariant
            i <= nodes@.len(),
            ns == node_views(nodes@),
            distinct_keys(ns),
            node_index(index@, ns),
            flags_ok(flags@, done@, ns.len() as int),
            match best {
                Some(b) => b < i && ready(ns, done@, b as int) && forall|j: int|
                    0 <= j < i && #[trigger] ready(ns, done@, j) ==> !str_lt(
                        ns[j].key,
                        ns[b as int].key,
                    ),
                None => forall|j: int| 0 <= j < i ==> !ready(ns, done@, j),
            },
        decreases nodes@.len() - i,
    {
        if is_ready(nodes, index, flags, i, done) {
            match best {
                None => {
                    proof {
                        lemma_str_lt_order(ns[i as int].key, ns[i as int].key, ns[i as int].key);
                    }
                    best = Some(i);
                },
                Some(b) => {
                    if less(nodes[i].key.as_str(), nodes[b].key.as_str()) {
                        proof {
                            let ki = ns[i as int].key;
                            let kb = ns[b as int].key;
                            assert forall|j: int|
                                0 <= j < i + 1 && #[trigger] ready(ns, done@, j) implies !str_lt(
                                ns[j].key,
                                ki,
                            ) by {
                                lemma_str_lt_order(ns[j].key, ki, kb);
                            }
                        }
                        best = Some(i);
                    }
                },
            }
        }
        i = i + 1;
    }
    best
}

proof fn lemma_next_unique(ns: Seq<TopoView>, done: Seq<int>, i: int, j: int)
    requires
        distinct_keys(ns),
        next_ready(ns, done, i),
        next_ready(ns, done, j),
    ensures
        i == j,
{
    lemma_str_lt_order(ns[i].key, ns[j].key, ns[i].key);
}

fn stuck_text(
    nodes: &Vec<TopoNode>,
    index: &StrMap<usize>,
    flags: &Vec<bool>,
    i: usize,
    done: Ghost<Seq<int>>,
) -> (r: String)
    requires
        i < nodes@.len(),
        distinct_keys(node_views(nodes@)),
        node_index(index@, node_views(nodes@)),
        flags_ok(flags@, done@, nodes@.len() as int),
    ensures
        r@ == stuck_line(node_views(nodes@), done@, i as int),
{
    let ghost ns = node_views(nodes@);
    let ghost deps = ns[i as int].deps;
    let mut parts: Vec<String> = Vec::new();
    let mut missing: u64 = 0;
    let mut k: usize = 0;
    while k < nodes[i].deps.len()
        invariant
            i < nodes@.len(),
            ns == node_views(nodes@),
            deps == ns[i as int].deps,
            distinct_keys(ns),
            node_index(index@, ns),
            flags_ok(flags@, done@, ns.len() as int),
            k <= nodes@[i as int].deps@.len(),
            missing <= k,
            missing == missing_deps(ns, done@, deps.take(k as int)),
            parts@.len() == k,
            forall|x: int| 0 <= x < k ==> (#[trigger] parts@[x])@ == dep_status(ns, done@, deps[x]),
        decreases nodes@[i as int].deps@.len() - k,
    {
        assert(deps[k as int] == nodes@[i as int].deps@[k as int]@);
        assert(deps.take(k + 1).drop_last() =~= deps.take(k as int));
        let mut part = nodes[i].deps[k].clone();
        part.append("(");
        if is_placed(index, flags, nodes[i].deps[k].as_str(), Ghost(ns), done) {
            part.append("ok");
        } else {
            part.append("STUCK");
            missing = missing + 1;
        }
        part.append(")");
        parts.push(part);
        k = k + 1;
    }
    assert(deps.take(deps.len() as int) =~= deps);
    assert(views(parts@) =~= Seq::new(deps.len(), |k: int| dep_status(ns, done@, deps[k])));
    let mut r = owned("  ");
    r.append(nodes[i].key.as_str());
    r.append(" [in_degree=");
    let d = decimal(missing);
    r.append(d.as_str());
    r.append("] -> [");
    let j = join(&parts, ", ");
    r.append(j.as_str());
    r.append("]");
    r
}

fn cycle_text(
    nodes: &Vec<TopoNode>,
    index: &StrMap<usize>,
    flags: &Vec<bool>,
    sorted: usize,
    done: Ghost<Seq<int>>,
) -> (r: String)
    requires
        sorted == done@.len(),
        distinct_keys(node_views(nodes@)),
        node_index(index@, node_views(nodes@)),
        flags_ok(flags@, done@, nodes@.len() as int),
    ensures
        r@ == cycle_message(node_views(nodes@), done@),
{
    let ghost ns = node_views(nodes@);
    let mut lines: Vec<String> = Vec::new();
    let mut i: usize = 0;
    assert(views(lines@) =~= stuck_lines(ns, done@, 0));
    while i < nodes.len()
        invariant
            i <= nodes@.len(),
            ns == node_views(nodes@),
            distinct_keys(ns),
            node_index(index@, ns),
            flags_ok(flags@, done@, ns.len() as int),
            views(lines@) == stuck_lines(ns, done@, i as nat),
        decreases nodes@.len() - i,
    {
        if !is_placed(index, flags, nodes[i].key.as_str(), Ghost(ns), done) {
            let line = stuck_text(nodes, index, flags, i, done);
            let ghost before = views(lines@);
            let ghost added = line@;
            lines.push(line);
            assert(views(lines@) =~= before.push(added));
        }
        i = i + 1;
    }
    let mut r = owned("Topological sort failed: cycle detected (");
    let a = decimal(sorted as u64);
    r.append(a.as_str());
    r.append(" of ");
    let b = decimal(nodes.len() as u64);
    r.append(b.as_str());
    r.append(" units sorted)\nStuck units:\n");
    let j = join(&lines, "\n");
    r.append(j.as_str());
    r
}

/// Orders nodes so that each stands behind its dependencies, always taking the
/// one with the smallest key among those that may come next. Fails if a cycle or
/// an unknown dependency holds nodes back.
pub fn toposort(nodes: &Vec<TopoNode>) -> (r: Result<Vec<usize>, String>)
    requires
        distinct_keys(node_views(nodes@)),
    ensures
        match r {
            Ok(o) => o@.map_values(|x: usize| x as int) == full_order(node_views(nodes@)) && o@.len()
                == nodes@.len(),
            Err(e) => full_order(node_views(nodes@)).len() != nodes@.len() && e@ == cycle_message(
                node_views(nodes@),
                full_order(node_views(nodes@)),
            ),
        },
{
    let ghost ns = node_views(nodes@);
    let n: usize = nodes.len();
    let index = index_nodes(nodes);
    let mut flags: Vec<bool> = Vec::new();
    let mut z: usize = 0;
    while z < n
        invariant
            z <= n,
            flags@.len() == z,
            forall|i: int| 0 <= i < z ==> flags@[i] == false,
        decreases n - z,
    {
        flags.push(false);
        z = z + 1;
    }
    let mut order: Vec<usize> = Vec::new();
    let ghost mut done: Seq<int> = Seq::empty();
    assert(order@.map_values(|x: usize| x as int) =~= done);
    let mut more = true;
    while more && order.len() < n
        invariant
            n == nodes@.len(),
            ns == node_views(nodes@),
            distinct_keys(ns),
            node_index(index@, ns),
            flags_ok(flags@, done, n as int),
            done == order@.map_values(|x: usize| x as int),
            order@.len() <= n,
            topo_order(ns, done, (n - order@.len()) as nat) == full_order(ns),
            !more ==> done == full_order(ns),
        decreases n - order@.len(), (if more {
            1int
        } else {
            0int
        }),
    {
        match find_next(nodes, &index, &flags, Ghost(done)) {
            Some(i) => {
                proof {
                    assert(next_ready(ns, done, i as int));
                    lemma_next_unique(ns, done, i as int, choose|i: int| next_ready(ns, done, i));
                    let after = done.push(i as int);
                    assert forall|j: int| 0 <= j < n implies #[trigger] flags@.update(
                        i as int,
                        true,
                    )[j] == after.contains(j) by {
                        assert(flags@[j] == done.contains(j));
                        if done.contains(j) {
                            let d = choose|d: int| 0 <= d < done.len() && done[d] == j;
                            assert(after[d] == j);
                        }
                        if j == i {
                            assert(after[done.len() as int] == j);
                        }
                        if after.contains(j) && j != i {
                            let d = choose|d: int| 0 <= d < after.len() && after[d] == j;
                            assert(done[d] == j);
                        }
                    }
                }
                flags.set(i, true);
                order.push(i);
                proof {
                    done = done.push(i as int);
                    assert(order@.map_values(|x: usize| x as int) =~= done);
                }
            },
            None => {
                more = false;
            },
        }
    }
    if order.len() == n {
        Ok(order)
    } else {
        Err(cycle_text(nodes, &index, &flags, order.len(), Ghost(done)))
    }
}

// ---------------------------------------------------------------------------
// Laws
// ---------------------------------------------------------------------------

/// Every node of an order stands behind its dependencies, and none stands in it
/// twice.
pub open spec fn deps_first(ns: Seq<TopoView>, done: Seq<int>) -> bool {
    &&& forall|p: int| 0 <= p < done.len() ==> 0 <= #[trigger] done[p] < ns.len()
    &&& forall|p: int, q: int| 0 <= p < q < done.len() ==> #[trigger] done[p] != #[trigger] done[q]
    &&& forall|p: int, k: int|
        0 <= p < done.len() && 0 <= k < ns[done[p]].deps.len() ==> placed(
            ns,
            done.take(p),
            #[trigger] ns[done[p]].deps[k],
        )
}

proof fn lemma_order_deps_first(ns: Seq<TopoView>, done: Seq<int>, steps: nat)
    requires
        deps_first(ns, done),
    ensures
        deps_first(ns, topo_order(ns, done, steps)),
        topo_order(ns, done, steps).len() <= done.len() + steps,
    decreases steps,
{
    if steps > 0 && exists|i: int| next_ready(ns, done, i) {
        let i = choose|i: int| next_ready(ns, done, i);
        let after = done.push(i);
        assert forall|p: int, k: int|
            0 <= p < after.len() && 0 <= k < ns[after[p]].deps.len() implies placed(
            ns,
            after.take(p),
            #[trigger] ns[after[p]].deps[k],
        ) by {
            if p < done.len() {
                assert(after.take(p) =~= done.take(p));
                assert(placed(ns, done.take(p), ns[done[p]].deps[k]));
            } else {
                assert(after.take(p) =~= done);
            }
        }
        lemma_order_deps_first(ns, after, (steps - 1) as nat);
    }
}

/// In the order that a sort returns, every node stands behind its dependencies.
pub proof fn law_dependencies_first(ns: Seq<TopoView>)
    ensures
        deps_first(ns, full_order(ns)),
{
    lemma_order_deps_first(ns, Seq::empty(), ns.len());
}

/// Numbers that decrease along every dependency, each of which is a node.
pub open spec fn node_rank(ns: Seq<TopoView>, rank: Seq<nat>) -> bool {
    &&& rank.len() == ns.len()
    &&& forall|i: int, k: int|
        0 <= i < ns.len() && 0 <= k < ns[i].deps.len() ==> ranked_dep(
            ns,
            rank,
            i,
            #[trigger] ns[i].deps[k],
        )
}

/// The key is that of a node with a smaller number than node `i`.
pub open spec fn ranked_dep(ns: Seq<TopoView>, rank: Seq<nat>, i: int, key: Seq<char>) -> bool {
    exists|j: int| 0 <= j < ns.len() && (#[trigger] ns[j]).key == key && rank[j] < rank[i]
}

/// A graph without cycles whose dependencies are all known can be ordered in
/// full.
pub proof fn law_acyclic_sorts(ns: Seq<TopoView>, rank: Seq<nat>)
    requires
        node_rank(ns, rank),
    ensures
        full_order(ns).len() == ns.len(),
{
    lemma_acyclic_sorts(ns, rank, Seq::empty(), ns.len());
}

proof fn lemma_acyclic_sorts(ns: Seq<TopoView>, rank: Seq<nat>, done: Seq<int>, steps: nat)
    requires
        node_rank(ns, rank),
        deps_first(ns, done),
        done.len() + steps == ns.len(),
    ensures
        topo_order(ns, done, steps).len() == ns.len(),
    decreases steps,
{
    if steps > 0 {
        let i = lemma_some_left(ns, done);
        let r = lemma_some_ready(ns, rank, done, i);
        let m = lemma_least_ready(ns, done, r, ns.len());
        assert(next_ready(ns, done, m));
        let c = choose|i: int| next_ready(ns, done, i);
        lemma_order_deps_first(ns, done, 1);
        reveal_with_fuel(topo_order, 2);
        assert(topo_order(ns, done, 1) == done.push(c));
        lemma_acyclic_sorts(ns, rank, done.push(c), (steps - 1) as nat);
    }
}

proof fn lemma_some_left(ns: Seq<TopoView>, done: Seq<int>) -> (i: int)
    requires
        deps_first(ns, done),
        done.len() < ns.len(),
    ensures
        0 <= i < ns.len(),
        !done.contains(i),
{
    if forall|i: int| 0 <= i < ns.len() ==> done.contains(i) {
        let all = vstd::set_lib::set_int_range(0, ns.len() as int);
        vstd::set_lib::lemma_int_range(0, ns.len() as int);
        assert(all.subset_of(done.to_set())) by {
            assert forall|x: int| all.contains(x) implies done.to_set().contains(x) by {
                assert(done.contains(x));
            }
        }
        vstd::seq_lib::seq_to_set_is_finite(done);
        vstd::set_lib::lemma_len_subset(all, done.to_set());
        done.unique_seq_to_set();
        assert(false);
    }
    choose|i: int| 0 <= i < ns.len() && !done.contains(i)
}

proof fn lemma_some_ready(ns: Seq<TopoView>, rank: Seq<nat>, done: Seq<int>, i: int) -> (r: int)
    requires
        node_rank(ns, rank),
        deps_first(ns, done),
        0 <= i < ns.len(),
        !done.contains(i),
    ensures
        ready(ns, done, r),
    decreases rank[i],
{
    if ready(ns, done, i) {
        i
    } else {
        let k = choose|k: int|
            0 <= k < ns[i].deps.len() && !placed(ns, done, #[trigger] ns[i].deps[k]);
        assert(ranked_dep(ns, rank, i, ns[i].deps[k]));
        let j = choose|j: int|
            0 <= j < ns.len() && (#[trigger] ns[j]).key == ns[i].deps[k] && rank[j] < rank[i];
        if done.contains(j) {
            let d = choose|d: int| 0 <= d < done.len() && done[d] == j;
            assert(ns[done[d]].key == ns[i].deps[k]);
        }
        lemma_some_ready(ns, rank, done, j)
    }
}

proof fn lemma_least_ready(ns: Seq<TopoView>, done: Seq<int>, r: int, n: nat) -> (m: int)
    requires
        ready(ns, done, r),
        n <= ns.len(),
    ensures
        ready(ns, done, m),
        forall|j: int| 0 <= j < n && #[trigger] ready(ns, done, j) ==> !str_lt(ns[j].key, ns[m].key),
    decreases n,
{
    if n == 0 {
        r
    } else {
        let m = lemma_least_ready(ns, done, r, (n - 1) as nat);
        let l = n - 1;
        if ready(ns, done, l) && str_lt(ns[l].key, ns[m].key) {
            assert forall|j: int| 0 <= j < n && #[trigger] ready(ns, done, j) implies !str_lt(
                ns[j].key,
                ns[l].key,
            ) by {
                lemma_str_lt_order(ns[j].key, ns[l].key, ns[m].key);
            }
            l
        } else {
            m
        }
    }
}

/// A graph that was ordered in full has no cycle, and its dependencies are all
/// known: the positions in the order decrease along every dependency.
pub proof fn law_sorted_is_acyclic(ns: Seq<TopoView>)
    requires
        full_order(ns).len() == ns.len(),
    ensures
        exists|rank: Seq<nat>| node_rank(ns, rank),
{
    law_dependencies_first(ns);
    let o = full_order(ns);
    let rank = Seq::new(ns.len(), |i: int| o.index_of(i) as nat);
    assert forall|i: int, k: int| 0 <= i < ns.len() && 0 <= k < ns[i].deps.len() implies ranked_dep(
        ns,
        rank,
        i,
        #[trigger] ns[i].deps[k],
    ) by {
        lemma_all_placed(ns, o, i);
        let p = o.index_of(i);
        assert(o[p] == i);
        let t = o.take(p);
        assert(placed(ns, t, ns[o[p]].deps[k]));
        let d = choose|d: int| 0 <= d < t.len() && ns[#[trigger] t[d]].key == ns[o[p]].deps[k];
        let j = o[d];
        assert(o.contains(j));
        assert(o.index_of(j) == d);
        assert(ns[j].key == ns[i].deps[k] && rank[j] < rank[i]);
    }
    assert(node_rank(ns, rank));
}

proof fn lemma_all_placed(ns: Seq<TopoView>, o: Seq<int>, i: int)
    requires
        deps_first(ns, o),
        o.len() == ns.len(),
        0 <= i < ns.len(),
    ensures
        o.contains(i),
{
    if !o.contains(i) {
        let others = vstd::set_lib::set_int_range(0, ns.len() as int).remove(i);
        vstd::set_lib::lemma_int_range(0, ns.len() as int);
        assert(o.to_set().subset_of(others)) by {
            assert forall|x: int| o.to_set().contains(x) implies others.contains(x) by {
                let d = choose|d: int| 0 <= d < o.len() && o[d] == x;
                assert(0 <= o[d] < ns.len());
            }
        }
        vstd::set_lib::lemma_len_subset(o.to_set(), others);
        o.unique_seq_to_set();
    }
}

} // verus!
