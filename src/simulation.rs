//! The Monte-Carlo driver: for every round and every affected count, marks
//! that many random devices under each disruption in turn, records what the
//! constrained devices cost under both schemes, and clears the flags; then
//! averages the recorded costs over the rounds.

use crate::cost_model::{
    saturated, spec_total, MetricsFor, TotalCommunicationOverhead, TotalEnergyConsumption,
};
use crate::costs::{MetricKind, MetricsType, NodeStatus};
use crate::network::{
    all_cleared, cleared, lemma_marked_same_but_flags, lemma_reset_clears, roles, same_but_flags,
    NodeView, NodesVec,
};
use vstd::prelude::*;

verus! {

/// An energy cost and a communication cost.
#[derive(Debug, Clone, Copy, PartialEq, Eq, Structural)]
pub struct CostPair {
    pub energy: u128,
    pub communication: u128,
}

/// One scheme's curves, one per disruption; entry `j` of each is for the
/// affected count `min_affected + j`.
#[derive(Debug)]
pub struct SchemeCurves {
    pub compromised: Vec<CostPair>,
    pub leaving: Vec<CostPair>,
    pub draining: Vec<CostPair>,
}

/// The curves of the two schemes compared.
#[derive(Debug)]
pub struct SimulationResults {
    pub first: SchemeCurves,
    pub second: SchemeCurves,
}

/// What one round records for `status` under `table`: the costs of the
/// constrained devices of `s`, each saturating at `u128::MAX`.
pub open spec fn round_cost(s: Seq<NodeView>, status: NodeStatus, table: MetricsType) -> (
    nat,
    nat,
) {
    (
        saturated(spec_total(s, MetricKind::Energy, status, MetricsFor::Constrained, table)),
        saturated(spec_total(s, MetricKind::Communication, status, MetricsFor::Constrained, table)),
    )
}

/// The running sums after `rounds` rounds, saturating at `u128::MAX`.
pub open spec fn round_sums(
    s: Seq<NodeView>,
    status: NodeStatus,
    table: MetricsType,
    rounds: nat,
) -> CostPair {
    CostPair {
        energy: saturated(rounds * round_cost(s, status, table).0) as u128,
        communication: saturated(rounds * round_cost(s, status, table).1) as u128,
    }
}

/// The average over `iterations` rounds: the running sums divided by the
/// number of rounds, rounded down.
pub open spec fn average_pair(
    s: Seq<NodeView>,
    status: NodeStatus,
    table: MetricsType,
    iterations: nat,
) -> CostPair {
    let sums = round_sums(s, status, table, iterations);
    CostPair {
        energy: sums.energy / iterations as u128,
        communication: sums.communication / iterations as u128,
    }
}

/// A curve of `width` averaged entries.
pub open spec fn average_curve(
    s: Seq<NodeView>,
    status: NodeStatus,
    table: MetricsType,
    iterations: nat,
    width: nat,
) -> Seq<CostPair> {
    Seq::new(width, |j: int| average_pair(s, status, table, iterations))
}

/// The curves that a run over `s` yields for one scheme's table.
pub open spec fn expected_curves(
    c: SchemeCurves,
    s: Seq<NodeView>,
    table: MetricsType,
    iterations: nat,
    width: nat,
) -> bool {
    &&& c.compromised@ == average_curve(s, NodeStatus::Compromised, table, iterations, width)
    &&& c.leaving@ == average_curve(s, NodeStatus::Leaving, table, iterations, width)
    &&& c.draining@ == average_curve(s, NodeStatus::Draining, table, iterations, width)
}

/// The first `j` entries of `c` hold `rounds + 1` rounds, the others `rounds`.
pub open spec fn partial_sums(
    c: Seq<CostPair>,
    s: Seq<NodeView>,
    status: NodeStatus,
    table: MetricsType,
    rounds: nat,
    j: int,
) -> bool {
    forall|x: int|
        0 <= x < c.len() ==> #[trigger] c[x] == round_sums(
            s,
            status,
            table,
            if x < j {
                rounds + 1
            } else {
                rounds
            },
        )
}

/// `p` with the costs `c` added, saturating at `u128::MAX`.
pub open spec fn add_round(p: CostPair, c: (nat, nat)) -> CostPair {
    CostPair {
        energy: saturated((p.energy + c.0) as nat) as u128,
        communication: saturated((p.communication + c.1) as nat) as u128,
    }
}

/// The three curves of `c` have `width` entries each.
pub open spec fn has_width(c: SchemeCurves, width: nat) -> bool {
    &&& c.compromised@.len() == width
    &&& c.leaving@.len() == width
    &&& c.draining@.len() == width
}

/// In each curve of `c` the first `j` entries hold `rounds + 1` rounds of
/// `table` over `s`, the others `rounds`.
pub open spec fn scheme_sums(
    c: SchemeCurves,
    s: Seq<NodeView>,
    table: MetricsType,
    rounds: nat,
    j: int,
) -> bool {
    &&& partial_sums(c.compromised@, s, NodeStatus::Compromised, table, rounds, j)
    &&& partial_sums(c.leaving@, s, NodeStatus::Leaving, table, rounds, j)
    &&& partial_sums(c.draining@, s, NodeStatus::Draining, table, rounds, j)
}

/// The total of `s` depends on the roles of its devices alone.
pub proof fn lemma_total_by_roles(
    s1: Seq<NodeView>,
    s2: Seq<NodeView>,
    metric: MetricKind,
    status: NodeStatus,
    filter: MetricsFor,
    table: MetricsType,
)
    requires
        roles(s1) == roles(s2),
    ensures
        spec_total(s1, metric, status, filter, table) == spec_total(
            s2,
            metric,
            status,
            filter,
            table,
        ),
    decreases s1.len(),
{
    assert(s1.len() == roles(s1).len());
    assert(s2.len() == roles(s2).len());
    if s1.len() > 0 {
        assert forall|i: int| 0 <= i < s1.len() - 1 implies #[trigger] roles(s1.drop_last())[i]
            == roles(s2.drop_last())[i] by {
            assert(roles(s1)[i] == roles(s2)[i]);
            assert(roles(s1)[i] == s1[i].kind);
            assert(roles(s2)[i] == s2[i].kind);
            assert(s1.drop_last()[i] == s1[i]);
            assert(s2.drop_last()[i] == s2[i]);
            assert(roles(s1.drop_last())[i] == s1.drop_last()[i].kind);
            assert(roles(s2.drop_last())[i] == s2.drop_last()[i].kind);
        }
        assert(roles(s1.drop_last()) =~= roles(s2.drop_last()));
        assert(s1.last().kind == roles(s1)[s1.len() - 1]);
        assert(s2.last().kind == roles(s2)[s2.len() - 1]);
        lemma_total_by_roles(s1.drop_last(), s2.drop_last(), metric, status, filter, table);
    }
}

/// Device sets with the same roles cost the same in every round.
proof fn lemma_round_cost_by_roles(a: Seq<NodeView>, b: Seq<NodeView>, table: MetricsType)
    requires
        roles(a) == roles(b),
    ensures
        forall|status: NodeStatus| #[trigger]
            round_cost(a, status, table) == round_cost(b, status, table),
{
    let c = MetricsFor::Constrained;
    assert forall|status: NodeStatus| #[trigger]
        round_cost(a, status, table) == round_cost(b, status, table) by {
        lemma_total_by_roles(a, b, MetricKind::Energy, status, c, table);
        lemma_total_by_roles(a, b, MetricKind::Communication, status, c, table);
    }
}

/// Sets that differ in flags alone have the same roles and clear to the
/// same set.
proof fn lemma_same_but_flags(a: Seq<NodeView>, b: Seq<NodeView>)
    requires
        same_but_flags(a, b),
    ensures
        roles(a) == roles(b),
        all_cleared(a) == all_cleared(b),
{
    assert forall|i: int| 0 <= i < a.len() implies #[trigger] roles(a)[i] == roles(b)[i] by {
        assert(cleared(a[i]) == cleared(b[i]));
    }
    assert(roles(a) =~= roles(b));
    assert forall|i: int| 0 <= i < a.len() implies #[trigger] all_cleared(a)[i] == all_cleared(
        b,
    )[i] by {
        assert(cleared(a[i]) == cleared(b[i]));
    }
    assert(all_cleared(a) =~= all_cleared(b));
}

/// A set differs from its cleared copy, and from itself, in flags alone.
proof fn lemma_cleared_same_but_flags(s: Seq<NodeView>)
    ensures
        same_but_flags(all_cleared(s), s),
        same_but_flags(s, s),
{
    assert forall|i: int| 0 <= i < s.len() implies #[trigger] cleared(all_cleared(s)[i]) == cleared(
        s[i],
    ) by {
        assert(all_cleared(s)[i] == cleared(s[i]));
    }
}

/// One more round adds the round's cost to the running sum.
proof fn lemma_next_sum(rounds: nat, v: nat)
    requires
        v <= u128::MAX,
    ensures
        saturated(saturated(rounds * v) + v) == saturated((rounds + 1) * v),
{
    assert((rounds + 1) * v == rounds * v + v) by (nonlinear_arith);
}

proof fn lemma_partial_step(
    c: Seq<CostPair>,
    s: Seq<NodeView>,
    status: NodeStatus,
    table: MetricsType,
    rounds: nat,
    j: int,
)
    requires
        0 <= j < c.len(),
        partial_sums(c, s, status, table, rounds, j),
    ensures
        partial_sums(
            c.update(j, add_round(c[j], round_cost(s, status, table))),
            s,
            status,
            table,
            rounds,
            j + 1,
        ),
{
    let rc = round_cost(s, status, table);
    lemma_next_sum(rounds, rc.0);
    lemma_next_sum(rounds, rc.1);
    assert(c[j] == round_sums(s, status, table, rounds));
}

proof fn lemma_round_done(
    c: SchemeCurves,
    s: Seq<NodeView>,
    table: MetricsType,
    rounds: nat,
    width: nat,
)
    requires
        has_width(c, width),
        scheme_sums(c, s, table, rounds, width as int),
    ensures
        scheme_sums(c, s, table, rounds + 1, 0),
{
    assert forall|x: int| 0 <= x < width implies #[trigger] c.compromised@[x] == round_sums(
        s,
        NodeStatus::Compromised,
        table,
        rounds + 1,
    ) && c.leaving@[x] == round_sums(s, NodeStatus::Leaving, table, rounds + 1)
        && c.draining@[x] == round_sums(s, NodeStatus::Draining, table, rounds + 1) by {
        assert(c.compromised@[x] == round_sums(s, NodeStatus::Compromised, table, rounds + 1));
        assert(c.leaving@[x] == round_sums(s, NodeStatus::Leaving, table, rounds + 1));
        assert(c.draining@[x] == round_sums(s, NodeStatus::Draining, table, rounds + 1));
    }
}

/// Adds this round's costs of the constrained devices of `nodes` under
/// `status` to entry `j` of `sums`.
fn record(
    sums: &mut Vec<CostPair>,
    j: usize,
    nodes: &NodesVec,
    status: NodeStatus,
    table: MetricsType,
)
    requires
        j < old(sums)@.len(),
    ensures
        final(sums)@ == old(sums)@.update(
            j as int,
            add_round(old(sums)@[j as int], round_cost(nodes@, status, table)),
        ),
{
    let energy = nodes.total_energy_consumption(status, MetricsFor::Constrained, table);
    let communication = nodes.total_communication_overhead(
        status,
        MetricsFor::Constrained,
        table,
    );
    let prev = sums[j];
    sums.set(
        j,
        CostPair {
            energy: prev.energy.saturating_add(energy),
            communication: prev.communication.saturating_add(communication),
        },
    );
}

/// One scenario: marks `count` random devices under `status`, adds both
/// schemes' costs to entry `j` of their sums, and clears every flag.
fn scenario(
    nodes: &mut NodesVec,
    rng: &mut rand::rngs::StdRng,
    count: usize,
    status: NodeStatus,
    j: usize,
    first_sums: &mut Vec<CostPair>,
    second_sums: &mut Vec<CostPair>,
    first_table: MetricsType,
    second_table: MetricsType,
)
    requires
        j < old(first_sums)@.len(),
        j < old(second_sums)@.len(),
    ensures
        final(nodes)@ == all_cleared(old(nodes)@),
        final(first_sums)@ == old(first_sums)@.update(
            j as int,
            add_round(old(first_sums)@[j as int], round_cost(old(nodes)@, status, first_table)),
        ),
        final(second_sums)@ == old(second_sums)@.update(
            j as int,
            add_round(old(second_sums)@[j as int], round_cost(old(nodes)@, status, second_table)),
        ),
{
    match status {
        NodeStatus::Compromised => {
            nodes.compromise_nodes(rng, count);
        },
        NodeStatus::Leaving => {
            nodes.leave_nodes(rng, count);
        },
        NodeStatus::Draining => {
            nodes.drain_nodes(rng, count);
        },
    }
    proof {
        lemma_marked_same_but_flags(old(nodes)@, nodes@, status, count as nat);
        lemma_same_but_flags(nodes@, old(nodes)@);
        lemma_round_cost_by_roles(nodes@, old(nodes)@, first_table);
        lemma_round_cost_by_roles(nodes@, old(nodes)@, second_table);
    }
    record(first_sums, j, nodes, status, first_table);
    record(second_sums, j, nodes, status, second_table);
    nodes.reset();
}

/// Affected count `count` at entry `j` of one round: the compromise, the
/// departure and the draining scenario in turn.
fn record_entry(
    nodes: &mut NodesVec,
    rng: &mut rand::rngs::StdRng,
    count: usize,
    j: usize,
    first: &mut SchemeCurves,
    second: &mut SchemeCurves,
    first_table: MetricsType,
    second_table: MetricsType,
    Ghost(s): Ghost<Seq<NodeView>>,
    Ghost(rounds): Ghost<nat>,
    Ghost(width): Ghost<nat>,
)
    requires
        same_but_flags(old(nodes)@, s),
        j < width,
        has_width(*old(first), width),
        has_width(*old(second), width),
        scheme_sums(*old(first), s, first_table, rounds, j as int),
        scheme_sums(*old(second), s, second_table, rounds, j as int),
    ensures
        final(nodes)@ == all_cleared(s),
        has_width(*final(first), width),
        has_width(*final(second), width),
        scheme_sums(*final(first), s, first_table, rounds, j + 1),
        scheme_sums(*final(second), s, second_table, rounds, j + 1),
{
    proof {
        lemma_same_but_flags(old(nodes)@, s);
        lemma_cleared_same_but_flags(s);
        lemma_same_but_flags(all_cleared(s), s);
        lemma_reset_clears(s);
        lemma_round_cost_by_roles(old(nodes)@, s, first_table);
        lemma_round_cost_by_roles(old(nodes)@, s, second_table);
        lemma_round_cost_by_roles(all_cleared(s), s, first_table);
        lemma_round_cost_by_roles(all_cleared(s), s, second_table);
        let jj = j as int;
        lemma_partial_step(first.compromised@, s, NodeStatus::Compromised, first_table, rounds, jj);
        lemma_partial_step(first.leaving@, s, NodeStatus::Leaving, first_table, rounds, jj);
        lemma_partial_step(first.draining@, s, NodeStatus::Draining, first_table, rounds, jj);
        lemma_partial_step(second.compromised@, s, NodeStatus::Compromised, second_table, rounds,
            jj);
        lemma_partial_step(second.leaving@, s, NodeStatus::Leaving, second_table, rounds, jj);
        lemma_partial_step(second.draining@, s, NodeStatus::Draining, second_table, rounds, jj);
    }
    let (a, b) = (first_table, second_table);
    let compromised = NodeStatus::Compromised;
    let (first_sums, second_sums) = (&mut first.compromised, &mut second.compromised);
    scenario(nodes, rng, count, compromised, j, first_sums, second_sums, a, b);
    let leaving = NodeStatus::Leaving;
    scenario(nodes, rng, count, leaving, j, &mut first.leaving, &mut second.leaving, a, b);
    let draining = NodeStatus::Draining;
    scenario(nodes, rng, count, draining, j, &mut first.draining, &mut second.draining, a, b);
}

/// Each entry of `sums` divided by `iterations`, rounded down.
fn averages(sums: &Vec<CostPair>, iterations: usize) -> (r: Vec<CostPair>)
    requires
        iterations > 0,
    ensures
        r@.len() == sums@.len(),
        forall|j: int|
            0 <= j < sums@.len() ==> #[trigger] r@[j] == (CostPair {
                energy: sums@[j].energy / iterations as u128,
                communication: sums@[j].communication / iterations as u128,
            }),
{
    let mut r: Vec<CostPair> = Vec::new();
    let divisor = iterations as u128;
    for j in 0..sums.len()
        invariant
            divisor == iterations as u128,
            divisor > 0,
            r@.len() == j,
            forall|x: int|
                0 <= x < j ==> #[trigger] r@[x] == (CostPair {
                    energy: sums@[x].energy / iterations as u128,
                    communication: sums@[x].communication / iterations as u128,
                }),
    {
        r.push(
            CostPair {
                energy: sums[j].energy / divisor,
                communication: sums[j].communication / divisor,
            },
        );
    }
    r
}

proof fn lemma_averaged(
    r: Seq<CostPair>,
    sums: Seq<CostPair>,
    s: Seq<NodeView>,
    status: NodeStatus,
    table: MetricsType,
    iterations: nat,
)
    requires
        iterations > 0,
        iterations <= usize::MAX,
        r.len() == sums.len(),
        partial_sums(sums, s, status, table, iterations, 0),
        forall|j: int|
            0 <= j < sums.len() ==> #[trigger] r[j] == (CostPair {
                energy: sums[j].energy / iterations as u128,
                communication: sums[j].communication / iterations as u128,
            }),
    ensures
        r == average_curve(s, status, table, iterations, sums.len()),
{
    assert forall|j: int| 0 <= j < sums.len() implies #[trigger] r[j] == average_pair(
        s,
        status,
        table,
        iterations,
    ) by {
        assert(sums[j] == round_sums(s, status, table, iterations));
    }
    assert(r =~= average_curve(s, status, table, iterations, sums.len()));
}

/// The three curves of `sums`, averaged over `iterations` rounds.
fn averaged_curves(
    sums: &SchemeCurves,
    iterations: usize,
    Ghost(s): Ghost<Seq<NodeView>>,
    Ghost(table): Ghost<MetricsType>,
    Ghost(width): Ghost<nat>,
) -> (r: SchemeCurves)
    requires
        iterations > 0,
        has_width(*sums, width),
        scheme_sums(*sums, s, table, iterations as nat, 0),
    ensures
        expected_curves(r, s, table, iterations as nat, width),
{
    let r = SchemeCurves {
        compromised: averages(&sums.compromised, iterations),
        leaving: averages(&sums.leaving, iterations),
        draining: averages(&sums.draining, iterations),
    };
    proof {
        let n = iterations as nat;
        lemma_averaged(r.compromised@, sums.compromised@, s, NodeStatus::Compromised, table, n);
        lemma_averaged(r.leaving@, sums.leaving@, s, NodeStatus::Leaving, table, n);
        lemma_averaged(r.draining@, sums.draining@, s, NodeStatus::Draining, table, n);
    }
    r
}

/// `width` entries of zero.
fn zeros(width: usize) -> (r: Vec<CostPair>)
    ensures
        r@ == Seq::new(width as nat, |j: int| CostPair { energy: 0, communication: 0 }),
{
    let mut r: Vec<CostPair> = Vec::new();
    for j in 0..width
        invariant
            r@ == Seq::new(j as nat, |x: int| CostPair { energy: 0, communication: 0 }),
    {
        r.push(CostPair { energy: 0, communication: 0 });
        proof {
            let next = (j + 1) as nat;
            assert(r@ =~= Seq::new(next, |x: int| CostPair { energy: 0, communication: 0 }));
        }
    }
    r
}

/// Three curves of `width` zero entries.
fn zero_curves(width: usize) -> (r: SchemeCurves)
    ensures
        has_width(r, width as nat),
        forall|s: Seq<NodeView>, table: MetricsType| scheme_sums(r, s, table, 0, 0),
{
    SchemeCurves { compromised: zeros(width), leaving: zeros(width), draining: zeros(width) }
}

/// Three empty curves.
fn empty_curves() -> (r: SchemeCurves)
    ensures
        has_width(r, 0),
{
    SchemeCurves { compromised: Vec::new(), leaving: Vec::new(), draining: Vec::new() }
}

/// Runs `iterations` rounds. In each round, for every affected count `k`
/// from `min_affected` to `max_affected`, it marks `k` random devices as
/// compromised, records the energy and communication costs of the
/// constrained devices under both tables, clears the flags, and does the
/// same for leaving and then for draining. It returns, per table and per
/// disruption, the recorded costs summed over the rounds (saturating at
/// `u128::MAX`) and divided by `iterations`, one entry per affected count.
///
/// With no rounds or an empty range of affected counts every curve is
/// empty and the devices are left as they are; otherwise every flag ends
/// clear.
pub fn simulate(
    nodes: &mut NodesVec,
    rng: &mut rand::rngs::StdRng,
    iterations: usize,
    min_affected: usize,
    max_affected: usize,
    first_table: MetricsType,
    second_table: MetricsType,
) -> (r: SimulationResults)
    requires
        min_affected <= max_affected ==> max_affected - min_affected < usize::MAX,
    ensures
        if iterations == 0 || min_affected > max_affected {
            &&& has_width(r.first, 0)
            &&& has_width(r.second, 0)
            &&& final(nodes)@ == old(nodes)@
        } else {
            let width = (max_affected - min_affected + 1) as nat;
            &&& expected_curves(r.first, old(nodes)@, first_table, iterations as nat, width)
            &&& expected_curves(r.second, old(nodes)@, second_table, iterations as nat, width)
            &&& final(nodes)@ == all_cleared(old(nodes)@)
        },
{
    if iterations == 0 || min_affected > max_affected {
        return SimulationResults { first: empty_curves(), second: empty_curves() };
    }
    let width = max_affected - min_affected + 1;
    let ghost s = old(nodes)@;
    let mut first = zero_curves(width);
    let mut second = zero_curves(width);
    for round in 0..iterations
        invariant
            width == max_affected - min_affected + 1,
            width >= 1,
            nodes@ == if round == 0 {
                s
            } else {
                all_cleared(s)
            },
            has_width(first, width as nat),
            has_width(second, width as nat),
            scheme_sums(first, s, first_table, round as nat, 0),
            scheme_sums(second, s, second_table, round as nat, 0),
    {
        for j in 0..width
            invariant
                width == max_affected - min_affected + 1,
                width >= 1,
                nodes@ == if round == 0 && j == 0 {
                    s
                } else {
                    all_cleared(s)
                },
                has_width(first, width as nat),
                has_width(second, width as nat),
                scheme_sums(first, s, first_table, round as nat, j as int),
                scheme_sums(second, s, second_table, round as nat, j as int),
        {
            proof {
                lemma_cleared_same_but_flags(s);
            }
            record_entry(
                nodes,
                rng,
                min_affected + j,
                j,
                &mut first,
                &mut second,
                first_table,
                second_table,
                Ghost(s),
                Ghost(round as nat),
                Ghost(width as nat),
            );
        }
        proof {
            lemma_round_done(first, s, first_table, round as nat, width as nat);
            lemma_round_done(second, s, second_table, round as nat, width as nat);
        }
    }
    SimulationResults {
        first: averaged_curves(
            &first,
            iterations,
            Ghost(s),
            Ghost(first_table),
            Ghost(width as nat),
        ),
        second: averaged_curves(
            &second,
            iterations,
            Ghost(s),
            Ghost(second_table),
            Ghost(width as nat),
        ),
    }
}

/// Two runs with the same tables, round count and range of affected
/// counts, over device sets with the same roles, yield the same curves,
/// whatever the random draws, the flags or the adjacency of the sets.
pub proof fn lemma_runs_agree(
    c1: SchemeCurves,
    c2: SchemeCurves,
    s1: Seq<NodeView>,
    s2: Seq<NodeView>,
    table: MetricsType,
    iterations: nat,
    width: nat,
)
    requires
        expected_curves(c1, s1, table, iterations, width),
        expected_curves(c2, s2, table, iterations, width),
        roles(s1) == roles(s2),
    ensures
        c1.compromised@ == c2.compromised@,
        c1.leaving@ == c2.leaving@,
        c1.draining@ == c2.draining@,
{
    lemma_round_cost_by_roles(s1, s2, table);
    let (c, l, d) = (NodeStatus::Compromised, NodeStatus::Leaving, NodeStatus::Draining);
    assert(round_cost(s1, c, table) == round_cost(s2, c, table));
    assert(round_cost(s1, l, table) == round_cost(s2, l, table));
    assert(round_cost(s1, d, table) == round_cost(s2, d, table));
}

/// Over a single round the average is the one recorded value.
pub proof fn lemma_single_round(s: Seq<NodeView>, status: NodeStatus, table: MetricsType)
    ensures
        average_pair(s, status, table, 1) == (CostPair {
            energy: round_cost(s, status, table).0 as u128,
            communication: round_cost(s, status, table).1 as u128,
        }),
{
    let c = round_cost(s, status, table);
    assert(1 * c.0 == c.0);
    assert(1 * c.1 == c.1);
    let sums = round_sums(s, status, table, 1);
    assert(sums.energy == c.0);
    assert(sums.communication == c.1);
    assert(sums.energy / 1u128 == sums.energy);
    assert(sums.communication / 1u128 == sums.communication);
}

} // verus!
