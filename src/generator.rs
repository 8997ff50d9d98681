//! The topology generator: devices with shuffled roles and random degree
//! caps, joined by a greedy, degree-capped random edge assignment.

use crate::costs::NodeType;
use crate::network::{
    is_clear, is_saturated, is_topology, lemma_push_contains, roles, Node, NodeView, NodesVec,
};
use crate::random::{random_in_range, shuffle};
use vstd::prelude::*;

verus! {

/// A network configuration that cannot be generated.
#[derive(Debug, Clone, Copy, PartialEq, Eq, Structural)]
pub enum NetworkError {
    /// The gateway count is negative or exceeds the device count.
    InvalidGatewayCount,
    /// The degree bounds are not `0 <= min <= max < device count`.
    InvalidDegreeRange,
}

/// `s` is a network of `n` devices, `g` of them gateways, with degree caps
/// in `[lo, hi]` and every flag clear, whose adjacency is a simple undirected
/// graph within the caps to which no edge can be added.
pub open spec fn is_generated(s: Seq<NodeView>, n: nat, g: nat, lo: nat, hi: nat) -> bool {
    &&& s.len() == n
    &&& is_topology(s)
    &&& is_saturated(s)
    &&& roles(s).to_multiset().count(NodeType::Gateway) == g
    &&& roles(s).to_multiset().count(NodeType::Constrained) == n - g
    &&& forall|a: int|
        0 <= a < s.len() ==> lo <= #[trigger] s[a].max_possible_neighbors <= hi && is_clear(s[a])
}

/// The device at `k` may still be joined to the device at `i`: it is
/// another device, not yet a neighbor of `i`, and below its own cap.
pub open spec fn is_eligible(s: Seq<NodeView>, i: int, k: int) -> bool {
    &&& k != i
    &&& !s[i].neighbors.contains(k as usize)
    &&& s[k].neighbors.len() < s[k].max_possible_neighbors
}

fn contains(v: &Vec<usize>, x: usize) -> (r: bool)
    ensures
        r == v@.contains(x),
{
    for i in 0..v.len()
        invariant
            !v@.take(i as int).contains(x),
    {
        if v[i] == x {
            proof {
                assert(v@[i as int] == x);
            }
            return true;
        }
        proof {
            assert(v@.take(i + 1) =~= v@.take(i as int).push(v@[i as int]));
        }
    }
    proof {
        assert(v@.take(v@.len() as int) =~= v@);
    }
    false
}

/// The positions of the devices that may still be joined to device `i`.
fn eligible_partners(net: &NodesVec, i: usize) -> (r: Vec<usize>)
    requires
        i < net@.len(),
    ensures
        forall|k: usize| #[trigger]
            r@.contains(k) <==> (k < net@.len() && is_eligible(net@, i as int, k as int)),
{
    let nodes = net.nodes();
    let ghost s = net@;
    proof {
        assert(nodes@.len() == s.len());
    }
    let own = &nodes[i].neighbors;
    proof {
        assert(own@ == s[i as int].neighbors);
    }
    let mut r: Vec<usize> = Vec::new();
    for k in 0..nodes.len()
        invariant
            nodes@.map_values(|n: Node| n@) == s,
            own@ == s[i as int].neighbors,
            i < s.len(),
            nodes@.len() == s.len(),
            forall|x: usize| #[trigger]
                r@.contains(x) <==> (x < k && is_eligible(s, i as int, x as int)),
    {
        let candidate = &nodes[k];
        proof {
            assert(candidate@ == s[k as int]);
        }
        let ghost before = r@;
        let eligible = k != i && !contains(own, k) && candidate.neighbors.len()
            < candidate.max_possible_neighbors;
        proof {
            assert(eligible == is_eligible(s, i as int, k as int));
        }
        if eligible {
            r.push(k);
        }
        proof {
            assert forall|x: usize| #[trigger] r@.contains(x) <==> (x < k + 1 && is_eligible(
                s,
                i as int,
                x as int,
            )) by {
                assert(before.contains(x) <==> (x < k && is_eligible(s, i as int, x as int)));
                if eligible {
                    if x == k {
                        assert(r@[before.len() as int] == x);
                    } else if r@.contains(x) {
                        let w = choose|w: int| 0 <= w < r@.len() && r@[w] == x;
                        assert(before[w] == x);
                    } else if before.contains(x) {
                        let w = choose|w: int| 0 <= w < before.len() && before[w] == x;
                        assert(r@[w] == x);
                    }
                }
            }
        }
    }
    r
}

/// Of two distinct non-neighbors, the first below `bound`, one has reached
/// its cap.
pub open spec fn is_saturated_below(s: Seq<NodeView>, bound: int) -> bool {
    forall|a: int, b: int|
        0 <= a < bound && 0 <= b < s.len() && a != b && !#[trigger] s[a].neighbors.contains(
            b as usize,
        ) ==> s[a].neighbors.len() == s[a].max_possible_neighbors || s[b].neighbors.len()
            == s[b].max_possible_neighbors
}

/// `after` differs from `before` in neighbor lists alone.
pub open spec fn same_but_neighbors(after: Seq<NodeView>, before: Seq<NodeView>) -> bool {
    &&& after.len() == before.len()
    &&& forall|a: int|
        0 <= a < before.len() ==> #[trigger] after[a] == (NodeView {
            neighbors: after[a].neighbors,
            ..before[a]
        })
}

/// Joining `i` to an eligible `k` while `i` is below its cap keeps the
/// topology well formed and keeps saturation below `bound <= i`.
proof fn lemma_add_edge(before: Seq<NodeView>, after: Seq<NodeView>, i: int, k: int, bound: int)
    requires
        is_topology(before),
        before.len() <= usize::MAX,
        0 <= i < before.len(),
        0 <= k < before.len(),
        is_eligible(before, i, k),
        before[i].neighbors.len() < before[i].max_possible_neighbors,
        after.len() == before.len(),
        after[i] == (NodeView { neighbors: before[i].neighbors.push(k as usize), ..before[i] }),
        after[k] == (NodeView { neighbors: before[k].neighbors.push(i as usize), ..before[k] }),
        forall|c: int|
            0 <= c < before.len() && c != i && c != k ==> #[trigger] after[c] == before[c],
        bound <= i,
        is_saturated_below(before, bound),
    ensures
        is_topology(after),
        is_saturated_below(after, bound),
        same_but_neighbors(after, before),
{
    let n = before.len();
    assert forall|a: int, b: int| 0 <= a < n && 0 <= b < n implies
        #[trigger] after[a].neighbors.contains(b as usize)
        == (before[a].neighbors.contains(b as usize) || (a == i && b == k) || (a == k && b
        == i)) by {
        if a == i {
            lemma_push_contains(before[i].neighbors, k as usize, b as usize);
        } else if a == k {
            lemma_push_contains(before[k].neighbors, i as usize, b as usize);
        }
    }
    assert(!before[k].neighbors.contains(i as usize)) by {
        assert(before[i].neighbors.contains(k as usize) == before[k].neighbors.contains(
            i as usize,
        ));
    }
    assert forall|a: int| 0 <= a < n implies #[trigger] after[a].neighbors.no_duplicates() by {
        if a == i || a == k {
            let other = if a == i {
                k
            } else {
                i
            };
            let t = after[a].neighbors;
            let old_list = before[a].neighbors;
            assert(!old_list.contains(other as usize));
            assert(old_list.no_duplicates());
            assert(t == old_list.push(other as usize));
            assert forall|p: int, q: int|
                0 <= p < t.len() && 0 <= q < t.len() && p != q implies t[p] != t[q] by {
                if p == t.len() - 1 {
                    assert(t[q] == old_list[q]);
                    assert(old_list.contains(t[q]));
                } else if q == t.len() - 1 {
                    assert(t[p] == old_list[p]);
                    assert(old_list.contains(t[p]));
                } else {
                    assert(t[p] == old_list[p]);
                    assert(t[q] == old_list[q]);
                }
            }
        }
    }
    assert forall|a: int, m: int| 0 <= a < n && 0 <= m < after[a].neighbors.len() implies
        #[trigger] after[a].neighbors[m] < n && after[a].neighbors[m] != a by {
        if (a == i || a == k) && m < before[a].neighbors.len() {
            assert(after[a].neighbors[m] == before[a].neighbors[m]);
        }
    }
    assert forall|a: int, b: int|
        0 <= a < bound && 0 <= b < n && a != b && !#[trigger] after[a].neighbors.contains(
            b as usize,
        ) implies after[a].neighbors.len() == after[a].max_possible_neighbors
        || after[b].neighbors.len() == after[b].max_possible_neighbors by {
        assert(!before[a].neighbors.contains(b as usize));
    }
}

/// Adds edges at device `i` until it reaches its cap or no eligible partner
/// is left, picking each partner uniformly at random among the eligible ones.
#[verifier::rlimit(30)]
fn connect_one(net: &mut NodesVec, rng: &mut rand::rngs::StdRng, i: usize)
    requires
        i < old(net)@.len(),
        is_topology(old(net)@),
        is_saturated_below(old(net)@, i as int),
    ensures
        is_topology(final(net)@),
        is_saturated_below(final(net)@, i + 1),
        same_but_neighbors(final(net)@, old(net)@),
{
    let n = net.len();
    let nodes = net.nodes();
    let cap = nodes[i].max_possible_neighbors;
    let degree = nodes[i].neighbors.len();
    proof {
        assert(nodes@[i as int]@ == net@[i as int]);
        assert(net@[i as int].neighbors.len() <= net@[i as int].max_possible_neighbors);
    }
    let remaining = cap - degree;
    let mut added: usize = 0;
    let mut stuck = false;
    while added < remaining && !stuck
        invariant
            net@.len() == n,
            i < n,
            is_topology(net@),
            is_saturated_below(net@, i as int),
            same_but_neighbors(net@, old(net)@),
            old(net)@[i as int].max_possible_neighbors == cap,
            net@[i as int].neighbors.len() == degree + added,
            added <= remaining,
            degree + remaining == cap,
            stuck ==> forall|k: int| 0 <= k < n ==> !#[trigger] is_eligible(net@, i as int, k),
        decreases remaining - added + if stuck {
            0int
        } else {
            1int
        },
    {
        let candidates = eligible_partners(net, i);
        if candidates.len() == 0 {
            stuck = true;
            proof {
                assert forall|k: int| 0 <= k < n implies !#[trigger] is_eligible(
                    net@,
                    i as int,
                    k,
                ) by {
                    if is_eligible(net@, i as int, k) {
                        assert(candidates@.contains(k as usize));
                    }
                }
            }
        } else {
            let pick = random_in_range(rng, 0, candidates.len() - 1);
            let k = candidates[pick];
            proof {
                assert(candidates@.contains(k));
            }
            let ghost before = net@;
            net.add_edge(i, k);
            proof {
                lemma_add_edge(before, net@, i as int, k as int, i as int);
                assert forall|a: int| 0 <= a < old(net)@.len() implies #[trigger] net@[a] == (
                NodeView { neighbors: net@[a].neighbors, ..old(net)@[a] }) by {
                    assert(before[a] == (NodeView {
                        neighbors: before[a].neighbors,
                        ..old(net)@[a]
                    }));
                }
            }
            added = added + 1;
        }
    }
    proof {
        let s = net@;
        assert forall|a: int, b: int|
            0 <= a < i + 1 && 0 <= b < s.len() && a != b && !#[trigger] s[a].neighbors.contains(
                b as usize,
            ) implies s[a].neighbors.len() == s[a].max_possible_neighbors || s[b].neighbors.len()
            == s[b].max_possible_neighbors by {
            if a == i && stuck {
                assert(!is_eligible(s, i as int, b));
            }
        }
    }
}

/// Runs `connect_one` on every device in position order.
fn connect(net: &mut NodesVec, rng: &mut rand::rngs::StdRng)
    requires
        is_topology(old(net)@),
    ensures
        is_topology(final(net)@),
        is_saturated(final(net)@),
        same_but_neighbors(final(net)@, old(net)@),
{
    let n = net.len();
    for i in 0..n
        invariant
            net@.len() == n,
            is_topology(net@),
            is_saturated_below(net@, i as int),
            same_but_neighbors(net@, old(net)@),
    {
        let ghost before = net@;
        connect_one(net, rng, i);
        proof {
            assert forall|a: int| 0 <= a < old(net)@.len() implies #[trigger] net@[a] == (NodeView {
                neighbors: net@[a].neighbors,
                ..old(net)@[a]
            }) by {
                assert(before[a] == (NodeView { neighbors: before[a].neighbors, ..old(net)@[a] }));
                assert(net@[a] == (NodeView { neighbors: net@[a].neighbors, ..before[a] }));
            }
        }
    }
}

proof fn lemma_push_counts(s: Seq<NodeType>, x: NodeType)
    ensures
        s.push(x).to_multiset().count(NodeType::Gateway) == s.to_multiset().count(
            NodeType::Gateway,
        ) + if x == NodeType::Gateway {
            1int
        } else {
            0int
        },
        s.push(x).to_multiset().count(NodeType::Constrained) == s.to_multiset().count(
            NodeType::Constrained,
        ) + if x == NodeType::Constrained {
            1int
        } else {
            0int
        },
{
    broadcast use vstd::seq_lib::group_to_multiset_ensures;
    broadcast use vstd::multiset::group_multiset_axioms;

    assert(s.push(x).to_multiset() =~= s.to_multiset().insert(x));
}

/// Builds a network of `number_of_nodes` devices, `number_of_gateways` of
/// them gateways and the rest constrained, in random order, each with a
/// degree cap drawn uniformly from `[number_of_min_possible_neighbors,
/// number_of_max_possible_neighbors]` and with its position as id. Then,
/// device by device in id order, joins the device to partners drawn
/// uniformly among those that are not yet its neighbors and below their own
/// caps, until it reaches its cap or no such partner is left.
///
/// Fails unless `0 <= gateways <= devices` and
/// `0 <= min <= max < devices`, the gateway count being checked first.
pub fn initialize_network(
    number_of_nodes: i32,
    number_of_gateways: i32,
    number_of_min_possible_neighbors: i32,
    number_of_max_possible_neighbors: i32,
    rng: &mut rand::rngs::StdRng,
) -> (r: Result<NodesVec, NetworkError>)
    ensures
        match r {
            Ok(net) => {
                &&& 0 <= number_of_gateways <= number_of_nodes
                &&& 0 <= number_of_min_possible_neighbors <= number_of_max_possible_neighbors
                    < number_of_nodes
                &&& is_generated(
                    net@,
                    number_of_nodes as nat,
                    number_of_gateways as nat,
                    number_of_min_possible_neighbors as nat,
                    number_of_max_possible_neighbors as nat,
                )
            },
            Err(e) => {
                ||| e == NetworkError::InvalidGatewayCount && !(0 <= number_of_gateways
                    <= number_of_nodes)
                ||| e == NetworkError::InvalidDegreeRange && 0 <= number_of_gateways
                    <= number_of_nodes && !(0 <= number_of_min_possible_neighbors
                    <= number_of_max_possible_neighbors < number_of_nodes)
            },
        },
{
    if number_of_gateways < 0 || number_of_gateways > number_of_nodes {
        return Err(NetworkError::InvalidGatewayCount);
    }
    if number_of_min_possible_neighbors < 0 || number_of_min_possible_neighbors
        > number_of_max_possible_neighbors || number_of_max_possible_neighbors >= number_of_nodes {
        return Err(NetworkError::InvalidDegreeRange);
    }
    let n = number_of_nodes as usize;
    let g = number_of_gateways as usize;
    let lo = number_of_min_possible_neighbors as usize;
    let hi = number_of_max_possible_neighbors as usize;

    broadcast use vstd::seq_lib::group_to_multiset_ensures;
    broadcast use vstd::multiset::group_multiset_axioms;

    let mut kinds: Vec<NodeType> = Vec::new();
    proof {
        assert(kinds@ =~= Seq::<NodeType>::empty());
    }
    for c in 0..g
        invariant
            kinds@.len() == c,
            kinds@.to_multiset().count(NodeType::Gateway) == c,
            kinds@.to_multiset().count(NodeType::Constrained) == 0,
    {
        let ghost before = kinds@;
        kinds.push(NodeType::Gateway);
        proof {
            lemma_push_counts(before, NodeType::Gateway);
        }
    }
    for c in g..n
        invariant
            g <= n,
            kinds@.len() == c,
            kinds@.to_multiset().count(NodeType::Gateway) == g,
            kinds@.to_multiset().count(NodeType::Constrained) == c - g,
    {
        let ghost before = kinds@;
        kinds.push(NodeType::Constrained);
        proof {
            lemma_push_counts(before, NodeType::Constrained);
        }
    }
    shuffle(rng, &mut kinds);
    proof {
        assert(kinds@.len() == kinds@.to_multiset().len());
    }

    let mut net = NodesVec::new();
    for i in 0..n
        invariant
            kinds@.len() == n,
            lo <= hi,
            net@.len() == i,
            forall|a: int|
                0 <= a < i ==> #[trigger] net@[a] == (NodeView {
                    id: a as usize,
                    kind: kinds@[a],
                    neighbors: Seq::empty(),
                    max_possible_neighbors: net@[a].max_possible_neighbors,
                    is_compromised: false,
                    is_leaving: false,
                    is_draining: false,
                }) && lo <= net@[a].max_possible_neighbors <= hi,
    {
        let cap = random_in_range(rng, lo, hi);
        net.push(Node::new(i, kinds[i], Vec::new(), cap));
    }
    proof {
        assert(is_topology(net@));
    }
    let ghost unconnected = net@;
    connect(&mut net, rng);
    proof {
        assert(roles(net@) =~= kinds@) by {
            assert forall|a: int| 0 <= a < n implies #[trigger] roles(net@)[a] == kinds@[a] by {
                assert(net@[a] == (NodeView { neighbors: net@[a].neighbors, ..unconnected[a] }));
            }
        }
        assert forall|a: int| 0 <= a < net@.len() implies lo
            <= #[trigger] net@[a].max_possible_neighbors <= hi && is_clear(net@[a]) by {
            assert(net@[a] == (NodeView { neighbors: net@[a].neighbors, ..unconnected[a] }));
        }
    }
    Ok(net)
}

} // verus!
