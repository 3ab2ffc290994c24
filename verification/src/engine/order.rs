//! The order in which a workflow's nodes execute: every node after the nodes it depends on.
use vstd::prelude::*;
use crate::config::NodeConfig;

verus! {

/// Node `a` names, among its dependencies, the id of node `b`.
pub open spec fn depends_on_node(nodes: Seq<NodeConfig>, a: int, b: int) -> bool {
    exists|k: int|
        0 <= k < nodes[a].depends_on@.len() && #[trigger] nodes[a].depends_on@[k]@ == nodes[b].id@
}

/// `order` lists every node index exactly once, and each node comes after every node
/// whose id it names as a dependency (names that match no node impose nothing).
pub open spec fn is_execution_order(nodes: Seq<NodeConfig>, order: Seq<usize>) -> bool {
    &&& order.len() == nodes.len()
    &&& forall|i: int| 0 <= i < order.len() ==> #[trigger] order[i] < nodes.len()
    &&& order.no_duplicates()
    &&& forall|j: usize| (j as int) < nodes.len() ==> #[trigger] order.contains(j)
    &&& forall|i: int, j: int|
        0 <= i < order.len() && 0 <= j < nodes.len() && #[trigger] depends_on_node(nodes, order[i] as int, j)
            ==> exists|p: int| 0 <= p < i && #[trigger] order[p] == j as usize
}

/// Some execution order exists (the dependencies form no cycle).
pub open spec fn has_execution_order(nodes: Seq<NodeConfig>) -> bool {
    exists|order: Seq<usize>| is_execution_order(nodes, order)
}

/// Every node that node `u` depends on is among `done`.
pub open spec fn ready_after(nodes: Seq<NodeConfig>, done: Seq<usize>, u: int) -> bool {
    forall|j: int| 0 <= j < nodes.len() && #[trigger] depends_on_node(nodes, u, j) ==> done.contains(j as usize)
}

/// Each node in `order` is the first-listed node, not yet placed, whose dependencies are
/// all placed before it: no node listed earlier was ready and left waiting.
pub open spec fn takes_first_ready(nodes: Seq<NodeConfig>, order: Seq<usize>) -> bool {
    forall|i: int, m: int|
        0 <= i < order.len() && 0 <= m < order[i] && !order.take(i).contains(m as usize) ==> !(#[trigger] ready_after(
            nodes,
            order.take(i),
            m,
        ))
}

/// Whether every node that `u` depends on is already placed.
fn dependencies_placed(nodes: &[NodeConfig], placed: &Vec<bool>, u: usize) -> (r: bool)
    requires
        placed@.len() == nodes@.len(),
        u < nodes@.len(),
    ensures
        r == forall|j: int| 0 <= j < nodes@.len() && #[trigger] depends_on_node(nodes@, u as int, j) ==> placed@[j],
{
    let deps = &nodes[u].depends_on;
    let mut k: usize = 0;
    while k < deps.len()
        invariant
            placed@.len() == nodes@.len(),
            u < nodes@.len(),
            deps@ == nodes@[u as int].depends_on@,
            k <= deps@.len(),
            forall|kk: int, j: int|
                0 <= kk < k && 0 <= j < nodes@.len() && #[trigger] deps@[kk]@ == #[trigger] nodes@[j].id@ ==> placed@[j],
        decreases deps@.len() - k,
    {
        let mut j: usize = 0;
        while j < nodes.len()
            invariant
                placed@.len() == nodes@.len(),
                u < nodes@.len(),
                deps@ == nodes@[u as int].depends_on@,
                k < deps@.len(),
                j <= nodes@.len(),
                forall|kk: int, jj: int|
                    0 <= kk < k && 0 <= jj < nodes@.len() && #[trigger] deps@[kk]@ == #[trigger] nodes@[jj].id@ ==> placed@[jj],
                forall|jj: int| 0 <= jj < j && deps@[k as int]@ == #[trigger] nodes@[jj].id@ ==> placed@[jj],
            decreases nodes@.len() - j,
        {
            if deps[k] == nodes[j].id && !placed[j] {
                proof {
                    assert(depends_on_node(nodes@, u as int, j as int));
                }
                return false;
            }
            j += 1;
        }
        k += 1;
    }
    proof {
        assert forall|j: int| 0 <= j < nodes@.len() && #[trigger] depends_on_node(nodes@, u as int, j) implies placed@[j] by {
            let kk = choose|kk: int| 0 <= kk < deps@.len() && #[trigger] deps@[kk]@ == nodes@[j].id@;
        }
    }
    true
}

/// The first position in `order` whose node is not placed, given one such position `i`.
proof fn lemma_first_unplaced(order: Seq<usize>, placed: Seq<bool>, i: int) -> (f: int)
    requires
        0 <= i < order.len(),
        forall|p: int| 0 <= p < order.len() ==> #[trigger] order[p] < placed.len(),
        !placed[order[i] as int],
    ensures
        0 <= f <= i,
        !placed[order[f] as int],
        forall|p: int| 0 <= p < f ==> placed[#[trigger] order[p] as int],
    decreases i,
{
    if exists|p: int| 0 <= p < i && !placed[#[trigger] order[p] as int] {
        let p = choose|p: int| 0 <= p < i && !placed[#[trigger] order[p] as int];
        lemma_first_unplaced(order, placed, p)
    } else {
        i
    }
}

/// When some node is unplaced and every unplaced node waits on another unplaced node,
/// no execution order exists.
proof fn lemma_stuck_means_cycle(nodes: Seq<NodeConfig>, placed: Seq<bool>, u: int)
    requires
        placed.len() == nodes.len(),
        nodes.len() <= usize::MAX,
        0 <= u < nodes.len(),
        !placed[u],
        forall|v: int|
            0 <= v < nodes.len() && !placed[v] ==> exists|j: int|
                0 <= j < nodes.len() && #[trigger] depends_on_node(nodes, v, j) && !placed[j],
    ensures
        !has_execution_order(nodes),
{
    if has_execution_order(nodes) {
        let order = choose|order: Seq<usize>| is_execution_order(nodes, order);
        assert(order.contains(u as usize));
        let i = choose|i: int| 0 <= i < order.len() && order[i] == u as usize;
        assert(order[i] as int == u);
        let f = lemma_first_unplaced(order, placed, i);
        let v = order[f] as int;
        let j = choose|j: int| 0 <= j < nodes.len() && #[trigger] depends_on_node(nodes, v, j) && !placed[j];
        let p = choose|p: int| 0 <= p < f && #[trigger] order[p] == j as usize;
        assert(placed[order[p] as int]);
        assert(false);
    }
}

/// An execution order for `nodes`: among the nodes whose dependencies are all placed,
/// the one listed first is placed next. `None` when the dependencies form a cycle.
pub fn execution_order(nodes: &[NodeConfig]) -> (r: Option<Vec<usize>>)
    ensures
        match r {
            Some(order) => is_execution_order(nodes@, order@) && takes_first_ready(nodes@, order@),
            None => !has_execution_order(nodes@),
        },
{
    let n = nodes.len();
    let mut placed: Vec<bool> = Vec::new();
    while placed.len() < n
        invariant
            placed@.len() <= n,
            forall|j: int| 0 <= j < placed@.len() ==> !placed@[j],
        decreases n - placed@.len(),
    {
        placed.push(false);
    }
    let mut order: Vec<usize> = Vec::new();
    while order.len() < n
        invariant
            n == nodes@.len(),
            placed@.len() == n,
            order@.len() <= n,
            forall|i: int| 0 <= i < order@.len() ==> #[trigger] order@[i] < n,
            order@.no_duplicates(),
            forall|j: int| 0 <= j < n ==> (placed@[j] <==> order@.contains(j as usize)),
            forall|i: int, j: int|
                0 <= i < order@.len() && 0 <= j < n && #[trigger] depends_on_node(nodes@, order@[i] as int, j)
                    ==> exists|p: int| 0 <= p < i && #[trigger] order@[p] == j as usize,
            takes_first_ready(nodes@, order@),
        decreases n - order@.len(),
    {
        // Some node is still unplaced: the placed ones are exactly those in `order`.
        proof {
            if forall|j: int| 0 <= j < n ==> placed@[j] {
                assert forall|j: usize| j < n implies #[trigger] order@.contains(j) by {
                    assert(placed@[j as int]);
                }
                lemma_covers_means_long(order@, n);
                assert(false);
            }
        }
        let mut u: usize = 0;
        let mut found = false;
        while u < n && !found
            invariant
                n == nodes@.len(),
                placed@.len() == n,
                u <= n,
                found ==> u < n && !placed@[u as int] && forall|j: int|
                    0 <= j < n && #[trigger] depends_on_node(nodes@, u as int, j) ==> placed@[j],
                forall|v: int|
                    0 <= v < u && !placed@[v] ==> exists|j: int|
                        0 <= j < n && #[trigger] depends_on_node(nodes@, v, j) && !placed@[j],
            decreases n - u + (if found { 0int } else { 1int }),
        {
            if !placed[u] && dependencies_placed(nodes, &placed, u) {
                found = true;
            } else {
                u += 1;
            }
        }
        if !found {
            proof {
                let w = choose|w: int| 0 <= w < n && !placed@[w];
                lemma_stuck_means_cycle(nodes@, placed@, w);
            }
            return None;
        }
        let ghost old_order = order@;
        let ghost old_placed = placed@;
        placed.set(u, true);
        order.push(u);
        proof {
            assert forall|j: int| 0 <= j < n implies (placed@[j] <==> order@.contains(j as usize)) by {
                if j != u {
                    if old_order.contains(j as usize) {
                        let p = choose|p: int| 0 <= p < old_order.len() && old_order[p] == j as usize;
                        assert(order@[p] == j as usize);
                    }
                    if order@.contains(j as usize) {
                        let p = choose|p: int| 0 <= p < order@.len() && order@[p] == j as usize;
                        assert(p < old_order.len());
                        assert(old_order[p] == j as usize);
                    }
                } else {
                    assert(order@[old_order.len() as int] == u);
                }
            }
            assert forall|i: int, j: int|
                0 <= i < order@.len() && 0 <= j < n && #[trigger] depends_on_node(nodes@, order@[i] as int, j)
                    implies exists|p: int| 0 <= p < i && #[trigger] order@[p] == j as usize by {
                if i < old_order.len() {
                    assert(order@[i] == old_order[i]);
                    let p = choose|p: int| 0 <= p < i && #[trigger] old_order[p] == j as usize;
                    assert(order@[p] == j as usize);
                } else {
                    assert(placed@[j] || j == u);
                    if j == u {
                        // a node that names itself could not have had all its dependencies placed
                        assert(false);
                    }
                    assert(old_order.contains(j as usize));
                    let p = choose|p: int| 0 <= p < old_order.len() && old_order[p] == j as usize;
                    assert(order@[p] == j as usize);
                }
            }
            assert(order@.take(old_order.len() as int) == old_order);
            assert forall|i: int, m: int|
                0 <= i < order@.len() && 0 <= m < order@[i] && !order@.take(i).contains(m as usize) implies !(#[trigger] ready_after(
                    nodes@,
                    order@.take(i),
                    m,
                )) by {
                if i < old_order.len() {
                    assert(order@.take(i) == old_order.take(i));
                    assert(order@[i] == old_order[i]);
                } else {
                    assert(order@.take(i) == old_order);
                    assert(order@[i] == u);
                    assert(!old_placed[m]);
                    let j = choose|j: int| 0 <= j < n && #[trigger] depends_on_node(nodes@, m, j) && !old_placed[j];
                    assert(!old_order.contains(j as usize));
                }
            }
        }
    }
    proof {
        assert forall|j: usize| j < n implies #[trigger] order@.contains(j) by {
            assert(placed@[j as int] <==> order@.contains(j as int as usize));
            if !order@.contains(j) {
                // `order` holds n distinct values below n, so it holds every one of them
                lemma_distinct_below_covers(order@, n as int, j as int);
            }
        }
    }
    Some(order)
}

/// A duplicate-free sequence that holds every value below `n` has at least `n` elements.
proof fn lemma_covers_means_long(s: Seq<usize>, n: usize)
    requires
        s.no_duplicates(),
        forall|j: usize| j < n ==> #[trigger] s.contains(j),
    ensures
        s.len() >= n,
{
    let full = Set::new(|x: usize| x < n);
    lemma_usize_range_len(n);
    s.unique_seq_to_set();
    assert forall|x: usize| full.contains(x) implies s.to_set().contains(x) by {
    }
    vstd::set_lib::lemma_len_subset(full, s.to_set());
}

proof fn lemma_usize_range_len(n: usize)
    ensures
        Set::new(|x: usize| x < n).len() == n,
        Set::new(|x: usize| x < n).finite(),
    decreases n,
{
    let s = Set::new(|x: usize| x < n);
    if n == 0 {
        assert(s =~= Set::empty());
    } else {
        let t = Set::new(|x: usize| x < (n - 1) as usize);
        lemma_usize_range_len((n - 1) as usize);
        assert(s =~= t.insert((n - 1) as usize));
    }
}

/// `s` holds `n` distinct values, all below `n`, so it holds `j` too.
proof fn lemma_distinct_below_covers(s: Seq<usize>, n: int, j: int)
    requires
        s.len() == n,
        0 <= j < n,
        n <= usize::MAX,
        s.no_duplicates(),
        forall|i: int| 0 <= i < s.len() ==> #[trigger] s[i] < n,
    ensures
        s.contains(j as usize),
{
    if !s.contains(j as usize) {
        let r = Set::new(|x: usize| (x as int) < n && x != j as usize);
        let full = Set::new(|x: usize| (x as int) < n);
        lemma_usize_range_len(n as usize);
        assert(full =~= Set::new(|x: usize| x < n as usize));
        assert(r =~= full.remove(j as usize));
        s.unique_seq_to_set();
        assert forall|x: usize| s.to_set().contains(x) implies r.contains(x) by {
            let i = choose|i: int| 0 <= i < s.len() && s[i] == x;
        }
        vstd::set_lib::lemma_len_subset(s.to_set(), r);
        assert(false);
    }
}

} // verus!
