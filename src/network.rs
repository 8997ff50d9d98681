//! Devices and the device set: roles, adjacency, degree caps, and the three
//! transient status flags with their bulk operations.

use crate::costs::{NodeStatus, NodeType};
use crate::random::shuffle;
use vstd::prelude::*;

verus! {

/// A device of the simulated network.
#[derive(Debug)]
pub struct Node {
    pub id: usize,
    pub kind: NodeType,
    pub neighbors: Vec<usize>,
    pub max_possible_neighbors: usize,
    pub is_compromised: bool,
    pub is_leaving: bool,
    pub is_draining: bool,
}

/// What a device holds, with its neighbor list as a sequence.
pub struct NodeView {
    pub id: usize,
    pub kind: NodeType,
    pub neighbors: Seq<usize>,
    pub max_possible_neighbors: usize,
    pub is_compromised: bool,
    pub is_leaving: bool,
    pub is_draining: bool,
}

impl View for Node {
    type V = NodeView;

    open spec fn view(&self) -> NodeView {
        NodeView {
            id: self.id,
            kind: self.kind,
            neighbors: self.neighbors@,
            max_possible_neighbors: self.max_possible_neighbors,
            is_compromised: self.is_compromised,
            is_leaving: self.is_leaving,
            is_draining: self.is_draining,
        }
    }
}

/// The flag of `v` that records `status`.
pub open spec fn flag(v: NodeView, status: NodeStatus) -> bool {
    match status {
        NodeStatus::Compromised => v.is_compromised,
        NodeStatus::Leaving => v.is_leaving,
        NodeStatus::Draining => v.is_draining,
    }
}

/// `v` with the flag that records `status` set to `b`.
pub open spec fn with_flag(v: NodeView, status: NodeStatus, b: bool) -> NodeView {
    match status {
        NodeStatus::Compromised => NodeView { is_compromised: b, ..v },
        NodeStatus::Leaving => NodeView { is_leaving: b, ..v },
        NodeStatus::Draining => NodeView { is_draining: b, ..v },
    }
}

/// `v` with all three flags clear.
pub open spec fn cleared(v: NodeView) -> NodeView {
    NodeView { is_compromised: false, is_leaving: false, is_draining: false, ..v }
}

/// No flag of `v` is set.
pub open spec fn is_clear(v: NodeView) -> bool {
    !v.is_compromised && !v.is_leaving && !v.is_draining
}

/// Copies, flags cleared, of the devices of `s` whose `status` flag is set,
/// in order.
pub open spec fn flagged_copies(s: Seq<NodeView>, status: NodeStatus) -> Seq<NodeView> {
    s.filter(has_flag(status)).map_values(|v: NodeView| cleared(v))
}

/// The test "the flag that records `status` is set".
pub open spec fn has_flag(status: NodeStatus) -> spec_fn(NodeView) -> bool {
    |v: NodeView| flag(v, status)
}

/// Every device of `s` with its flags cleared.
pub open spec fn all_cleared(s: Seq<NodeView>) -> Seq<NodeView> {
    s.map_values(|v: NodeView| cleared(v))
}

/// The roles of the devices of `s`, in order.
pub open spec fn roles(s: Seq<NodeView>) -> Seq<NodeType> {
    s.map_values(|v: NodeView| v.kind)
}

/// The adjacency of `s` is a simple undirected graph within the degree caps,
/// and each device's id is its position: ids are positions; every neighbor
/// is another device of the set, listed once; each device has at most its
/// cap of neighbors; and `b` lists `a` exactly when `a` lists `b`.
pub open spec fn is_topology(s: Seq<NodeView>) -> bool {
    &&& forall|a: int| 0 <= a < s.len() ==> #[trigger] s[a].id == a
    &&& forall|a: int|
        0 <= a < s.len() ==> #[trigger] s[a].neighbors.len() <= s[a].max_possible_neighbors
    &&& forall|a: int| 0 <= a < s.len() ==> #[trigger] s[a].neighbors.no_duplicates()
    &&& forall|a: int, k: int|
        0 <= a < s.len() && 0 <= k < s[a].neighbors.len() ==> #[trigger] s[a].neighbors[k]
            < s.len() && s[a].neighbors[k] != a
    &&& forall|a: int, b: int|
        0 <= a < s.len() && 0 <= b < s.len() ==> (#[trigger] s[a].neighbors.contains(b as usize)
            <==> #[trigger] s[b].neighbors.contains(a as usize))
}

/// No edge can be added to `s` without exceeding a cap: of two distinct
/// devices that are not neighbors, at least one has reached its cap.
pub open spec fn is_saturated(s: Seq<NodeView>) -> bool {
    forall|a: int, b: int|
        0 <= a < s.len() && 0 <= b < s.len() && a != b && !#[trigger] s[a].neighbors.contains(
            b as usize,
        ) ==> s[a].neighbors.len() == s[a].max_possible_neighbors || s[b].neighbors.len()
            == s[b].max_possible_neighbors
}

/// `after` is `before` with the `status` flag set on the devices at the
/// positions in `chosen`, and nothing else changed.
pub open spec fn marked_at(
    before: Seq<NodeView>,
    after: Seq<NodeView>,
    status: NodeStatus,
    chosen: Set<usize>,
) -> bool {
    &&& after.len() == before.len()
    &&& forall|i: int|
        0 <= i < before.len() ==> #[trigger] after[i] == with_flag(
            before[i],
            status,
            flag(before[i], status) || chosen.contains(i as usize),
        )
}

/// The smaller of `a` and `b`.
pub open spec fn min_nat(a: nat, b: nat) -> nat {
    if a < b {
        a
    } else {
        b
    }
}

/// `after` is `before` with the `status` flag set on `min(count, len)`
/// distinct devices, and nothing else changed.
pub open spec fn marked(
    before: Seq<NodeView>,
    after: Seq<NodeView>,
    status: NodeStatus,
    count: nat,
) -> bool {
    exists|chosen: Set<usize>|
        {
            &&& chosen.finite()
            &&& chosen.len() == min_nat(count, before.len())
            &&& forall|i: usize| chosen.contains(i) ==> i < before.len()
            &&& #[trigger] marked_at(before, after, status, chosen)
        }
}

/// Appending `x` adds exactly `x`.
pub(crate) proof fn lemma_push_contains(s: Seq<usize>, x: usize, y: usize)
    ensures
        s.push(x).contains(y) == (s.contains(y) || x == y),
{
    let t = s.push(x);
    if s.contains(y) {
        let w = choose|w: int| 0 <= w < s.len() && s[w] == y;
        assert(t[w] == y);
    }
    if x == y {
        assert(t[s.len() as int] == y);
    }
    if t.contains(y) {
        let w = choose|w: int| 0 <= w < t.len() && t[w] == y;
        if w < s.len() {
            assert(s[w] == y);
        }
    }
}

/// `a` and `b` differ in flags alone.
pub open spec fn same_but_flags(a: Seq<NodeView>, b: Seq<NodeView>) -> bool {
    &&& a.len() == b.len()
    &&& forall|i: int| 0 <= i < a.len() ==> #[trigger] cleared(a[i]) == cleared(b[i])
}

/// Marking changes flags alone.
pub proof fn lemma_marked_same_but_flags(
    before: Seq<NodeView>,
    after: Seq<NodeView>,
    status: NodeStatus,
    count: nat,
)
    requires
        marked(before, after, status, count),
    ensures
        same_but_flags(after, before),
{
    let chosen = choose|chosen: Set<usize>|
        {
            &&& chosen.finite()
            &&& chosen.len() == min_nat(count, before.len())
            &&& forall|i: usize| chosen.contains(i) ==> i < before.len()
            &&& #[trigger] marked_at(before, after, status, chosen)
        };
    assert forall|i: int| 0 <= i < after.len() implies #[trigger] cleared(after[i]) == cleared(
        before[i],
    ) by {
        assert(after[i] == with_flag(
            before[i],
            status,
            flag(before[i], status) || chosen.contains(i as usize),
        ));
    }
}

/// The positions of the devices of `s` whose `status` flag is set.
pub open spec fn flagged_positions(s: Seq<NodeView>, status: NodeStatus) -> Set<usize> {
    Set::new(|i: usize| (i as int) < s.len() && flag(s[i as int], status))
}

/// As many copies come out of a filter as there are flagged devices.
proof fn lemma_flagged_count(s: Seq<NodeView>, status: NodeStatus)
    requires
        s.len() <= usize::MAX,
    ensures
        flagged_positions(s, status).finite(),
        flagged_copies(s, status).len() == flagged_positions(s, status).len(),
    decreases s.len(),
{
    if s.len() == 0 {
        assert(flagged_positions(s, status) =~= Set::<usize>::empty());
    } else {
        let rest = s.drop_last();
        let x = s.last();
        lemma_flagged_count(rest, status);
        assert(rest.push(x) =~= s);
        rest.lemma_filter_push(x, has_flag(status));
        let last = (s.len() - 1) as usize;
        if flag(x, status) {
            assert(flagged_positions(s, status) =~= flagged_positions(rest, status).insert(last));
            assert(!flagged_positions(rest, status).contains(last));
        } else {
            assert(flagged_positions(s, status) =~= flagged_positions(rest, status));
        }
    }
}

/// Marking `k` devices of a set with no flag set as compromised, then
/// taking the compromised copies, yields exactly `min(k, size)` devices;
/// every device of the marked set that is compromised has its other two
/// flags clear, and each copy is such a device with its flags cleared.
pub proof fn lemma_mark_then_filter(before: Seq<NodeView>, after: Seq<NodeView>, k: nat)
    requires
        before.len() <= usize::MAX,
        forall|i: int| 0 <= i < before.len() ==> #[trigger] is_clear(before[i]),
        marked(before, after, NodeStatus::Compromised, k),
    ensures
        flagged_copies(after, NodeStatus::Compromised).len() == min_nat(k, before.len()),
        forall|i: int|
            0 <= i < after.len() && #[trigger] after[i].is_compromised ==> !after[i].is_leaving
                && !after[i].is_draining,
        forall|x: int|
            0 <= x < flagged_copies(after, NodeStatus::Compromised).len() ==> exists|i: int|
                0 <= i < after.len() && after[i].is_compromised && #[trigger] flagged_copies(
                    after,
                    NodeStatus::Compromised,
                )[x] == cleared(after[i]),
{
    let status = NodeStatus::Compromised;
    let chosen = choose|chosen: Set<usize>|
        {
            &&& chosen.finite()
            &&& chosen.len() == min_nat(k, before.len())
            &&& forall|i: usize| chosen.contains(i) ==> i < before.len()
            &&& #[trigger] marked_at(before, after, status, chosen)
        };
    assert(flagged_positions(after, status) =~= chosen) by {
        assert forall|i: usize| #[trigger] chosen.contains(i) implies flagged_positions(
            after,
            status,
        ).contains(i) by {
            assert(is_clear(before[i as int]));
            assert(after[i as int] == with_flag(before[i as int], status, true));
        }
        assert forall|i: usize| #[trigger]
            flagged_positions(after, status).contains(i) implies chosen.contains(i) by {
            assert(is_clear(before[i as int]));
            assert(after[i as int] == with_flag(before[i as int], status, chosen.contains(i)));
        }
    }
    lemma_flagged_count(after, status);
    assert forall|i: int| 0 <= i < after.len() && #[trigger] after[i].is_compromised implies
        !after[i].is_leaving && !after[i].is_draining by {
        assert(is_clear(before[i]));
        assert(after[i] == with_flag(before[i], status, chosen.contains(i as usize)));
    }
    let kept = after.filter(has_flag(status));
    assert forall|x: int| 0 <= x < flagged_copies(after, status).len() implies exists|i: int|
        0 <= i < after.len() && after[i].is_compromised
            && #[trigger] flagged_copies(after, status)[x] == cleared(after[i]) by {
        assert(kept.contains(kept[x]));
        after.lemma_filter_contains_rev(has_flag(status), kept[x]);
        let i = choose|i: int| 0 <= i < after.len() && after[i] == kept[x];
        assert(has_flag(status)(kept[x]));
        assert(flagged_copies(after, status)[x] == cleared(after[i]));
    }
}

/// Clearing is idempotent, and after it no device carries any flag: the
/// compromised, leaving and draining copies are all empty.
pub proof fn lemma_reset_clears(s: Seq<NodeView>)
    ensures
        all_cleared(all_cleared(s)) == all_cleared(s),
        flagged_copies(all_cleared(s), NodeStatus::Compromised).len() == 0,
        flagged_copies(all_cleared(s), NodeStatus::Leaving).len() == 0,
        flagged_copies(all_cleared(s), NodeStatus::Draining).len() == 0,
{
    let c = all_cleared(s);
    assert(all_cleared(c) =~= c);
    c.lemma_all_neg_filter_empty(has_flag(NodeStatus::Compromised));
    c.lemma_all_neg_filter_empty(has_flag(NodeStatus::Leaving));
    c.lemma_all_neg_filter_empty(has_flag(NodeStatus::Draining));
}

/// The positions `0..n` in order.
pub open spec fn positions(n: nat) -> Seq<usize> {
    Seq::new(n, |j: int| j as usize)
}

/// A permutation of the positions `0..n` holds each of them exactly once.
proof fn lemma_permuted_positions(order: Seq<usize>, n: nat)
    requires
        n <= usize::MAX + 1,
        order.to_multiset() == positions(n).to_multiset(),
    ensures
        order.len() == n,
        order.no_duplicates(),
        forall|k: int| 0 <= k < order.len() ==> order[k] < n,
{
    broadcast use vstd::seq_lib::group_to_multiset_ensures;

    let ident = positions(n);
    assert(order.len() == order.to_multiset().len());
    assert(ident.len() == ident.to_multiset().len());
    assert(ident.no_duplicates());
    ident.lemma_multiset_has_no_duplicates();
    order.lemma_multiset_has_no_duplicates_conv();
    assert forall|k: int| 0 <= k < order.len() implies order[k] < n by {
        assert(order.contains(order[k]));
        assert(ident.to_multiset().count(order[k]) > 0);
        assert(ident.contains(order[k]));
    }
}

impl Node {
    /// A device with no flag set.
    pub fn new(
        id: usize,
        kind: NodeType,
        neighbors: Vec<usize>,
        max_possible_neighbors: usize,
    ) -> (r: Self)
        ensures
            r@ == (NodeView {
                id,
                kind,
                neighbors: neighbors@,
                max_possible_neighbors,
                is_compromised: false,
                is_leaving: false,
                is_draining: false,
            }),
    {
        Node {
            id,
            kind,
            neighbors,
            max_possible_neighbors,
            is_compromised: false,
            is_leaving: false,
            is_draining: false,
        }
    }

    /// A copy of this device with its flags cleared.
    pub fn clear_copy(&self) -> (r: Node)
        ensures
            r@ == cleared(self@),
    {
        let neighbors = self.neighbors.clone();
        proof {
            assert(neighbors@ =~= self.neighbors@);
        }
        Node::new(self.id, self.kind, neighbors, self.max_possible_neighbors)
    }
}

/// An ordered set of devices.
#[derive(Debug)]
pub struct NodesVec(Vec<Node>);

impl View for NodesVec {
    type V = Seq<NodeView>;

    closed spec fn view(&self) -> Seq<NodeView> {
        self.0@.map_values(|n: Node| n@)
    }
}

impl NodesVec {
    /// An empty set.
    pub fn new() -> (r: Self)
        ensures
            r@ == Seq::<NodeView>::empty(),
    {
        let r = NodesVec(Vec::new());
        proof {
            assert(r@ =~= Seq::<NodeView>::empty());
        }
        r
    }

    /// Appends a device.
    pub fn push(&mut self, node: Node)
        ensures
            final(self)@ == old(self)@.push(node@),
    {
        self.0.push(node);
        proof {
            assert(self@ =~= old(self)@.push(node@));
        }
    }

    /// The number of devices.
    pub fn len(&self) -> (r: usize)
        ensures
            r == self@.len(),
    {
        self.0.len()
    }

    /// The devices, in order.
    pub fn nodes(&self) -> (r: &Vec<Node>)
        ensures
            r@.map_values(|n: Node| n@) == self@,
    {
        &self.0
    }

    /// Sets the `status` flag on `count` devices drawn uniformly at random
    /// without replacement; on all of them when `count` exceeds the size.
    fn mark(&mut self, rng: &mut rand::rngs::StdRng, count: usize, status: NodeStatus)
        ensures
            marked(old(self)@, final(self)@, status, count as nat),
    {
        let n = self.0.len();
        let mut order: Vec<usize> = Vec::new();
        for i in 0..n
            invariant
                order@ == positions(i as nat),
        {
            order.push(i);
            proof {
                assert(order@ =~= positions(i as nat + 1));
            }
        }
        shuffle(rng, &mut order);
        proof {
            lemma_permuted_positions(order@, n as nat);
        }
        let m = if count < n {
            count
        } else {
            n
        };
        for j in 0..m
            invariant
                m <= n,
                n == old(self)@.len(),
                self.0@.len() == n,
                order@.len() == n,
                forall|k: int| 0 <= k < n ==> order@[k] < n,
                forall|i: int|
                    0 <= i < n ==> #[trigger] self.0@[i]@ == with_flag(
                        old(self).0@[i]@,
                        status,
                        flag(old(self).0@[i]@, status) || order@.take(j as int).contains(
                            i as usize,
                        ),
                    ),
        {
            let idx = order[j];
            let ghost before = self.0@;
            match status {
                NodeStatus::Compromised => {
                    self.0[idx].is_compromised = true;
                },
                NodeStatus::Leaving => {
                    self.0[idx].is_leaving = true;
                },
                NodeStatus::Draining => {
                    self.0[idx].is_draining = true;
                },
            }
            proof {
                assert(self.0@[idx as int]@ == with_flag(before[idx as int]@, status, true));
                assert forall|i: int| 0 <= i < n && i != idx implies self.0@[i] == before[i] by {}
                assert forall|i: int| 0 <= i < n implies #[trigger] order@.take(j + 1).contains(
                    i as usize,
                ) == (order@.take(j as int).contains(i as usize) || i == idx) by {
                    assert(order@.take(j + 1) =~= order@.take(j as int).push(idx));
                    lemma_push_contains(order@.take(j as int), idx, i as usize);
                }
            }
        }
        proof {
            let taken = order@.take(m as int);
            let chosen = taken.to_set();
            taken.unique_seq_to_set();
            assert(marked_at(old(self)@, self@, status, chosen)) by {
                assert forall|i: int| 0 <= i < n implies #[trigger] self@[i] == with_flag(
                    old(self)@[i],
                    status,
                    flag(old(self)@[i], status) || chosen.contains(i as usize),
                ) by {
                    assert(self.0@[i]@ == self@[i]);
                }
            }
            assert(chosen.finite());
            assert(chosen.len() == min_nat(count as nat, n as nat));
        }
    }

    /// Marks `number_of_nodes_to_compromise` devices, drawn uniformly at
    /// random without replacement, as compromised; all devices when the
    /// count exceeds the size. No other field changes.
    pub fn compromise_nodes(
        &mut self,
        rng: &mut rand::rngs::StdRng,
        number_of_nodes_to_compromise: usize,
    ) -> (r: &mut Self)
        ensures
            marked(old(self)@, r@, NodeStatus::Compromised, number_of_nodes_to_compromise as nat),
            *final(self) == *final(r),
    {
        self.mark(rng, number_of_nodes_to_compromise, NodeStatus::Compromised);
        self
    }

    /// Marks `number_of_nodes_to_leave` random devices as leaving, as
    /// `compromise_nodes` does for compromise.
    pub fn leave_nodes(
        &mut self,
        rng: &mut rand::rngs::StdRng,
        number_of_nodes_to_leave: usize,
    ) -> (r: &mut Self)
        ensures
            marked(old(self)@, r@, NodeStatus::Leaving, number_of_nodes_to_leave as nat),
            *final(self) == *final(r),
    {
        self.mark(rng, number_of_nodes_to_leave, NodeStatus::Leaving);
        self
    }

    /// Marks `number_of_nodes_to_drain` random devices as draining, as
    /// `compromise_nodes` does for compromise.
    pub fn drain_nodes(
        &mut self,
        rng: &mut rand::rngs::StdRng,
        number_of_nodes_to_drain: usize,
    ) -> (r: &mut Self)
        ensures
            marked(old(self)@, r@, NodeStatus::Draining, number_of_nodes_to_drain as nat),
            *final(self) == *final(r),
    {
        self.mark(rng, number_of_nodes_to_drain, NodeStatus::Draining);
        self
    }

    /// Adds the edge between the devices at positions `a` and `b`: each is
    /// appended to the other's neighbor list.
    pub(crate) fn add_edge(&mut self, a: usize, b: usize)
        requires
            a < old(self)@.len(),
            b < old(self)@.len(),
            a != b,
        ensures
            final(self)@.len() == old(self)@.len(),
            final(self)@[a as int] == (NodeView {
                neighbors: old(self)@[a as int].neighbors.push(b),
                ..old(self)@[a as int]
            }),
            final(self)@[b as int] == (NodeView {
                neighbors: old(self)@[b as int].neighbors.push(a),
                ..old(self)@[b as int]
            }),
            forall|c: int|
                0 <= c < old(self)@.len() && c != a && c != b ==> #[trigger] final(self)@[c]
                    == old(self)@[c],
    {
        self.0[a].neighbors.push(b);
        self.0[b].neighbors.push(a);
        proof {
            assert forall|c: int|
                0 <= c < old(self)@.len() && c != a && c != b implies #[trigger] self@[c]
                == old(self)@[c] by {
                assert(self.0@[c] == old(self).0@[c]);
            }
        }
    }

    /// Copies of the devices with the given flag set.
    fn flagged(&self, status: NodeStatus) -> (r: NodesVec)
        ensures
            r@ == flagged_copies(self@, status),
    {
        let mut r = NodesVec::new();
        for i in 0..self.0.len()
            invariant
                r@ == flagged_copies(self@.take(i as int), status),
        {
            let node = &self.0[i];
            let is_set = match status {
                NodeStatus::Compromised => node.is_compromised,
                NodeStatus::Leaving => node.is_leaving,
                NodeStatus::Draining => node.is_draining,
            };
            proof {
                assert(self@.take(i + 1) =~= self@.take(i as int).push(node@));
                self@.take(i as int).lemma_filter_push(node@, has_flag(status));
            }
            if is_set {
                r.push(node.clear_copy());
                proof {
                    assert(r@ =~= flagged_copies(self@.take(i + 1), status));
                }
            }
        }
        proof {
            assert(self@.take(self@.len() as int) =~= self@);
        }
        r
    }

    /// Copies, flags cleared, of the compromised devices, in order.
    pub fn compromised_nodes(&self) -> (r: NodesVec)
        ensures
            r@ == flagged_copies(self@, NodeStatus::Compromised),
    {
        self.flagged(NodeStatus::Compromised)
    }

    /// Copies, flags cleared, of the leaving devices, in order.
    pub fn left_nodes(&self) -> (r: NodesVec)
        ensures
            r@ == flagged_copies(self@, NodeStatus::Leaving),
    {
        self.flagged(NodeStatus::Leaving)
    }

    /// Copies, flags cleared, of the draining devices, in order.
    pub fn drained_nodes(&self) -> (r: NodesVec)
        ensures
            r@ == flagged_copies(self@, NodeStatus::Draining),
    {
        self.flagged(NodeStatus::Draining)
    }

    /// Clears every flag of every device.
    pub fn reset(&mut self) -> (r: &mut Self)
        ensures
            r@ == all_cleared(old(self)@),
            *final(self) == *final(r),
    {
        let n = self.0.len();
        for i in 0..n
            invariant
                n == old(self)@.len(),
                self.0@.len() == n,
                forall|j: int| 0 <= j < i ==> #[trigger] self.0@[j]@ == cleared(old(self).0@[j]@),
                forall|j: int| i <= j < n ==> #[trigger] self.0@[j] == old(self).0@[j],
        {
            self.0[i].is_compromised = false;
            self.0[i].is_leaving = false;
            self.0[i].is_draining = false;
        }
        proof {
            assert(self@ =~= all_cleared(old(self)@)) by {
                assert forall|j: int| 0 <= j < n implies self@[j] == cleared(old(self)@[j]) by {
                    assert(self.0@[j]@ == cleared(old(self).0@[j]@));
                }
            }
        }
        self
    }
}

} // verus!
