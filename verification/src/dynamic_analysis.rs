//! Statistics of recorded executions.
use std::collections::BTreeMap;

use vstd::prelude::*;

use crate::static_analysis::Analysis;
use crate::trace::{pc_of, Tracer};

verus! {

broadcast use vstd::laws_cmp::group_laws_cmp;

/// Statistic of taken branches (from a recorded trace)
#[derive(Debug)]
pub struct DynamicAnalysis {
    /// Maximal edge counter value
    pub edge_counter_max: usize,
    /// src_node, dst_node, edge_counter
    pub edges: BTreeMap<usize, BTreeMap<usize, usize>>,
}

/// The basic blocks that a trace enters, in order
pub open spec fn visited(states: Seq<Seq<u64>>, nodes: Set<usize>) -> Seq<usize>
    decreases states.len(),
{
    if states.len() == 0 {
        Seq::empty()
    } else {
        let before = visited(states.drop_last(), nodes);
        let pc = pc_of(states.last());
        if nodes.contains(pc) {
            before.push(pc)
        } else {
            before
        }
    }
}

/// The basic block that was entered last, or the highest number before the first one
pub open spec fn last_visited(blocks: Seq<usize>) -> usize {
    if blocks.len() == 0 {
        usize::MAX
    } else {
        blocks.last()
    }
}

/// The branches between basic blocks, in the order in which they are taken
pub open spec fn taken(blocks: Seq<usize>) -> Seq<(usize, usize)>
    decreases blocks.len(),
{
    if blocks.len() == 0 {
        Seq::empty()
    } else {
        taken(blocks.drop_last()).push((last_visited(blocks.drop_last()), blocks.last()))
    }
}

/// How often a branch is taken
pub open spec fn count_of(branches: Seq<(usize, usize)>, branch: (usize, usize)) -> nat
    decreases branches.len(),
{
    if branches.len() == 0 {
        0
    } else {
        count_of(branches.drop_last(), branch) + if branches.last() == branch {
            1nat
        } else {
            0
        }
    }
}

/// The counter of a branch, zero if there is none
pub open spec fn counter(
    edges: Map<usize, BTreeMap<usize, usize>>,
    source: usize,
    destination: usize,
) -> nat {
    if edges.contains_key(source) && edges[source]@.contains_key(destination) {
        edges[source]@[destination] as nat
    } else {
        0
    }
}

impl DynamicAnalysis {
    /// Are these the statistics of the given branches: each branch that was taken has its counter,
    /// there is no other counter, and the maximum is that of the counters.
    pub open spec fn counts(self, branches: Seq<(usize, usize)>) -> bool {
        &&& forall|source: usize, destination: usize|
            #![trigger self.edges@[source]@[destination]]
            #![trigger count_of(branches, (source, destination))]
            counter(self.edges@, source, destination) == count_of(branches, (source, destination))
        &&& forall|source: usize, destination: usize|
            self.edges@.contains_key(source) && #[trigger] self.edges@[source]@.contains_key(
                destination,
            ) ==> self.edges@[source]@[destination] > 0
        &&& forall|source: usize| #[trigger]
            self.edges@.contains_key(source) ==> exists|destination: usize| #[trigger]
                self.edges@[source]@.contains_key(destination)
        &&& forall|branch: (usize, usize)| #[trigger]
            count_of(branches, branch) <= self.edge_counter_max
        &&& self.edge_counter_max > 0 ==> exists|branch: (usize, usize)| #[trigger]
            count_of(branches, branch) == self.edge_counter_max
    }
}

/// No branch is taken more often than branches are taken.
pub proof fn lemma_count_bound(branches: Seq<(usize, usize)>, branch: (usize, usize))
    ensures
        count_of(branches, branch) <= branches.len(),
    decreases branches.len(),
{
    if branches.len() > 0 {
        lemma_count_bound(branches.drop_last(), branch);
    }
}

/// There are as many branches as basic blocks are entered.
pub proof fn law_every_entry_is_one_branch(blocks: Seq<usize>)
    ensures
        taken(blocks).len() == blocks.len(),
    decreases blocks.len(),
{
    if blocks.len() > 0 {
        law_every_entry_is_one_branch(blocks.drop_last());
    }
}

/// A trace enters at most one basic block per instruction.
pub proof fn lemma_visited_len(states: Seq<Seq<u64>>, nodes: Set<usize>)
    ensures
        visited(states, nodes).len() <= states.len(),
    decreases states.len(),
{
    if states.len() > 0 {
        lemma_visited_len(states.drop_last(), nodes);
    }
}

impl DynamicAnalysis {
    /// Statistics of no branches
    fn empty() -> (result: Self)
        ensures
            result.counts(Seq::empty()),
    {
        DynamicAnalysis { edge_counter_max: 0, edges: BTreeMap::new() }
    }

    /// Counts one more branch
    fn count(&mut self, source: usize, destination: usize, Ghost(branches): Ghost<Seq<(usize, usize)>>)
        requires
            old(self).counts(branches),
            branches.len() < usize::MAX,
        ensures
            final(self).counts(branches.push((source, destination))),
    {
        let ghost after = branches.push((source, destination));
        proof {
            lemma_count_bound(branches, (source, destination));
            assert(after.drop_last() =~= branches);
        }
        let ghost edges = self.edges@;
        let mut targets: BTreeMap<usize, usize> = match self.edges.remove(&source) {
            Some(targets) => targets,
            None => BTreeMap::new(),
        };
        let counter: usize = match targets.get(&destination) {
            Some(counter) => *counter + 1,
            None => 1,
        };
        targets.insert(destination, counter);
        self.edges.insert(source, targets);
        if counter > self.edge_counter_max {
            self.edge_counter_max = counter;
        }
        proof {
            assert(count_of(branches, (source, destination)) == self::counter(
                edges,
                source,
                destination,
            ));
            assert(count_of(after, (source, destination)) == counter);
            assert forall|s: usize, d: usize| self::counter(self.edges@, s, d) == #[trigger] count_of(
                after,
                (s, d),
            ) by {
                assert(count_of(branches, (s, d)) == self::counter(edges, s, d));
            }
            assert forall|s: usize| #[trigger] self.edges@.contains_key(s) implies exists|d: usize|
                #[trigger] self.edges@[s]@.contains_key(d) by {
                if s == source {
                    assert(self.edges@[s]@.contains_key(destination));
                } else {
                    assert(edges.contains_key(s));
                    let d = choose|d: usize| #[trigger] edges[s]@.contains_key(d);
                    assert(self.edges@[s]@.contains_key(d));
                }
            }
            assert forall|branch: (usize, usize)| #[trigger]
                count_of(after, branch) <= self.edge_counter_max by {
                assert(count_of(branches, branch) <= old(self).edge_counter_max);
            }
            if counter <= old(self).edge_counter_max {
                let branch = choose|branch: (usize, usize)| #[trigger]
                    count_of(branches, branch) == old(self).edge_counter_max;
                assert(count_of(after, branch) == self.edge_counter_max);
            }
        }
    }

    /// Accumulates a trace
    pub fn new(tracer: &Tracer, analysis: &Analysis) -> (result: Self)
        ensures
            result.counts(taken(visited(tracer@, analysis.cfg_nodes@))),
    {
        let mut result = Self::empty();
        let mut last_basic_block: usize = usize::MAX;
        let ghost nodes = analysis.cfg_nodes@;
        let mut i: usize = 0;
        while i < tracer.log.len()
            invariant
                i <= tracer.log@.len(),
                nodes == analysis.cfg_nodes@,
                result.counts(taken(visited(tracer@.take(i as int), nodes))),
                last_basic_block == last_visited(visited(tracer@.take(i as int), nodes)),
            decreases tracer.log@.len() - i,
        {
            let pc: usize = tracer.log[i][11] as usize;
            proof {
                assert(tracer@.take(i + 1).drop_last() =~= tracer@.take(i as int));
                lemma_visited_len(tracer@.take(i as int), nodes);
                law_every_entry_is_one_branch(visited(tracer@.take(i as int), nodes));
            }
            let ghost blocks = visited(tracer@.take(i as int), nodes);
            if analysis.cfg_nodes.contains(&pc) {
                assert(blocks.push(pc).drop_last() =~= blocks);
                result.count(last_basic_block, pc, Ghost(taken(blocks)));
                last_basic_block = pc;
            }
            i = i + 1;
        }
        assert(tracer@.take(i as int) =~= tracer@);
        result
    }
}

/// How often a basic block is entered
pub open spec fn occurrences(blocks: Seq<usize>, node: usize) -> nat
    decreases blocks.len(),
{
    if blocks.len() == 0 {
        0
    } else {
        occurrences(blocks.drop_last(), node) + if blocks.last() == node {
            1nat
        } else {
            0
        }
    }
}

/// How many branches lead to a basic block
pub open spec fn entries_of(branches: Seq<(usize, usize)>, node: usize) -> nat
    decreases branches.len(),
{
    if branches.len() == 0 {
        0
    } else {
        entries_of(branches.drop_last(), node) + if branches.last().1 == node {
            1nat
        } else {
            0
        }
    }
}

/// How many branches lead away from a basic block
pub open spec fn exits_of(branches: Seq<(usize, usize)>, node: usize) -> nat
    decreases branches.len(),
{
    if branches.len() == 0 {
        0
    } else {
        exits_of(branches.drop_last(), node) + if branches.last().0 == node {
            1nat
        } else {
            0
        }
    }
}

/// As many branches lead to a basic block as the block is entered.
pub proof fn law_entries_match_visits(blocks: Seq<usize>, node: usize)
    ensures
        entries_of(taken(blocks), node) == occurrences(blocks, node),
    decreases blocks.len(),
{
    if blocks.len() > 0 {
        law_entries_match_visits(blocks.drop_last(), node);
        assert(taken(blocks).drop_last() =~= taken(blocks.drop_last()));
    }
}

/// Every basic block that is entered is left again, except for the last one. The branch to the first
/// one comes from the highest number.
pub proof fn law_exits_match_visits(blocks: Seq<usize>, node: usize)
    requires
        blocks.len() > 0,
    ensures
        exits_of(taken(blocks), node) == occurrences(blocks.drop_last(), node) + if node
            == usize::MAX {
            1nat
        } else {
            0
        },
    decreases blocks.len(),
{
    let before = blocks.drop_last();
    assert(taken(blocks).drop_last() =~= taken(before));
    if before.len() > 0 {
        law_exits_match_visits(before, node);
    } else {
        assert(exits_of(taken(before), node) == 0);
    }
}

/// The entered basic blocks are the logged program counters at which a basic block starts.
proof fn lemma_visited_filters(states: Seq<Seq<u64>>, nodes: Set<usize>)
    ensures
        visited(states, nodes) == Seq::new(states.len(), |i: int| states[i][11] as usize).filter(
            |pc: usize| nodes.contains(pc),
        ),
    decreases states.len(),
{
    reveal(Seq::filter);
    let pcs = Seq::new(states.len(), |i: int| states[i][11] as usize);
    if states.len() > 0 {
        let front = states.drop_last();
        lemma_visited_filters(front, nodes);
        assert(pcs.drop_last() =~= Seq::new(front.len(), |i: int| front[i][11] as usize));
    }
}

/// The branches lead from each entered block to the one that is entered next.
proof fn lemma_taken_steps(blocks: Seq<usize>)
    ensures
        taken(blocks) == Seq::new(
            blocks.len(),
            |k: int|
                (
                    if k == 0 {
                        usize::MAX
                    } else {
                        blocks[k - 1]
                    },
                    blocks[k],
                ),
        ),
    decreases blocks.len(),
{
    let steps = Seq::new(
        blocks.len(),
        |k: int|
            (
                if k == 0 {
                    usize::MAX
                } else {
                    blocks[k - 1]
                },
                blocks[k],
            ),
    );
    if blocks.len() > 0 {
        lemma_taken_steps(blocks.drop_last());
    }
    assert(taken(blocks) =~= steps);
}

/// Counting a branch gives its multiplicity.
proof fn lemma_count_is_multiplicity(branches: Seq<(usize, usize)>, branch: (usize, usize))
    ensures
        count_of(branches, branch) == branches.to_multiset().count(branch),
    decreases branches.len(),
{
    broadcast use vstd::seq_lib::group_to_multiset_ensures;

    if branches.len() > 0 {
        lemma_count_is_multiplicity(branches.drop_last(), branch);
        assert(branches =~= branches.drop_last().push(branches.last()));
    }
}

/// Every logged instruction at which a basic block starts counts one branch: from the block that was
/// entered before it, or from the highest number if there was none. There is a counter for exactly
/// the branches that were taken, it tells how often, and the maximum is that of the counters.
pub proof fn law_every_logged_entry_is_counted(
    tracer: &Tracer,
    analysis: &Analysis,
    result: DynamicAnalysis,
)
    requires
        call_ensures(DynamicAnalysis::new, (tracer, analysis), result),
    ensures
        ({
            let pcs = Seq::new(tracer.log@.len(), |i: int| tracer.log@[i]@[11] as usize);
            let entered = pcs.filter(|pc: usize| analysis.cfg_nodes@.contains(pc));
            let branches = Seq::new(
                entered.len(),
                |k: int|
                    (
                        if k == 0 {
                            usize::MAX
                        } else {
                            entered[k - 1]
                        },
                        entered[k],
                    ),
            ).to_multiset();
            &&& forall|source: usize, destination: usize|
                result.edges@.contains_key(source) && #[trigger] result.edges@[source]@.contains_key(
                    destination,
                ) <==> branches.count((source, destination)) > 0
            &&& forall|source: usize, destination: usize|
                result.edges@.contains_key(source) && #[trigger] result.edges@[source]@.contains_key(
                    destination,
                ) ==> result.edges@[source]@[destination] == branches.count((source, destination))
            &&& forall|source: usize| #[trigger]
                result.edges@.contains_key(source) ==> exists|destination: usize| #[trigger]
                    result.edges@[source]@.contains_key(destination)
            &&& forall|branch: (usize, usize)| #[trigger]
                branches.count(branch) <= result.edge_counter_max
            &&& result.edge_counter_max > 0 ==> exists|branch: (usize, usize)| #[trigger]
                branches.count(branch) == result.edge_counter_max
        }),
{
    let nodes = analysis.cfg_nodes@;
    let pcs = Seq::new(tracer.log@.len(), |i: int| tracer.log@[i]@[11] as usize);
    lemma_visited_filters(tracer@, nodes);
    assert(Seq::new(tracer@.len(), |i: int| tracer@[i][11] as usize) =~= pcs);
    let entered = pcs.filter(|pc: usize| nodes.contains(pc));
    lemma_taken_steps(entered);
    let steps = taken(entered);
    assert forall|branch: (usize, usize)| #[trigger]
        steps.to_multiset().count(branch) == count_of(steps, branch) by {
        lemma_count_is_multiplicity(steps, branch);
    }
    assert forall|source: usize, destination: usize|
        result.edges@.contains_key(source) && #[trigger] result.edges@[source]@.contains_key(
            destination,
        ) <==> steps.to_multiset().count((source, destination)) > 0 by {
        assert(counter(result.edges@, source, destination) == count_of(
            steps,
            (source, destination),
        ));
    }
    if result.edge_counter_max > 0 {
        let branch = choose|branch: (usize, usize)| #[trigger]
            count_of(steps, branch) == result.edge_counter_max;
        assert(steps.to_multiset().count(branch) == result.edge_counter_max);
    }
}

/// As many branches lead to a basic block as there are logged states with its program counter.
pub proof fn law_entries_match_the_log(tracer: &Tracer, nodes: Set<usize>, node: usize)
    requires
        nodes.contains(node),
    ensures
        entries_of(taken(visited(tracer@, nodes)), node) == tracer.log@.filter(
            |state: [u64; 12]| state@[11] as usize == node,
        ).len(),
{
    law_entries_match_visits(visited(tracer@, nodes), node);
    lemma_occurrences_in_log(tracer.log@, nodes, node);
}

proof fn lemma_occurrences_in_log(log: Seq<[u64; 12]>, nodes: Set<usize>, node: usize)
    requires
        nodes.contains(node),
    ensures
        occurrences(visited(log.map_values(|state: [u64; 12]| state@), nodes), node) == log.filter(
            |state: [u64; 12]| state@[11] as usize == node,
        ).len(),
    decreases log.len(),
{
    reveal(Seq::filter);
    let states = log.map_values(|state: [u64; 12]| state@);
    if log.len() > 0 {
        lemma_occurrences_in_log(log.drop_last(), nodes, node);
        let front = log.drop_last().map_values(|state: [u64; 12]| state@);
        assert(states.drop_last() =~= front);
        let before = visited(front, nodes);
        let pc = pc_of(states.last());
        assert(before.push(pc).drop_last() =~= before);
    }
}

} // verus!
