//! The traversal: charging a description's heap memory, each shared
//! allocation once.
use crate::context::Context;
use crate::model::{
    lemma_unvisited_insert, lemma_unvisited_monotone, node_cost, seq_cost, unvisited, Heap, Node,
};
use vstd::prelude::*;

verus! {

/// A byte count as the machine reports it: exact while it fits a `usize`,
/// the largest `usize` beyond that.
pub open spec fn saturate(n: nat) -> usize {
    if n > usize::MAX {
        usize::MAX
    } else {
        n as usize
    }
}

/// The sum of two byte counts, held at the largest `usize`.
pub fn add_bytes(a: usize, b: usize) -> (sum: usize)
    ensures
        sum == saturate(a as nat + b as nat),
{
    if a > usize::MAX - b {
        usize::MAX
    } else {
        a + b
    }
}

/// Saturating after each step gives what saturating once at the end gives.
pub proof fn lemma_saturate_sum(a: nat, b: nat)
    ensures
        saturate(saturate(a) as nat + saturate(b) as nat) == saturate(a + b),
{
}

/// The values behind a sequence of references.
pub open spec fn borrowed(items: Seq<&Node>) -> Seq<Node> {
    items.map_values(|node: &Node| *node)
}

impl Heap {
    /// The heap bytes that the children of `node` own, not counting again
    /// what `context` has seen, and recording in `context` what was counted.
    pub fn deep_size_of_children(&self, node: &Node, context: &mut Context) -> (bytes: usize)
        ensures
            bytes == saturate(node_cost(self@, *node, old(context)@).bytes),
            final(context)@ == old(context)@.union(node_cost(self@, *node, old(context)@).counted),
        decreases unvisited(self@.len(), old(context)@), node,
    {
        match node {
            Node::Flat => {
                assert(context@ =~= context@.union(Set::empty()));
                0
            },
            Node::Inline(fields) => self.sum_children(fields, context),
            Node::Buffer { bytes, items } => {
                let inner = self.sum_children(items, context);
                add_bytes(inner, *bytes)
            },
            Node::Shared { id } => {
                let id: usize = *id;
                if id < self.allocs.len() && !context.contains(id) {
                    let ghost before = context@;
                    proof {
                        lemma_unvisited_insert(self@.len(), before, id);
                    }
                    context.add(id);
                    let inner = self.deep_size_of_children(&self.allocs[id].content, context);
                    proof {
                        let cost = node_cost(self@, self@[id as int].content, before.insert(id));
                        assert(context@ =~= before.union(cost.counted.insert(id)));
                    }
                    add_bytes(self.allocs[id].size, inner)
                } else {
                    assert(context@ =~= context@.union(Set::empty()));
                    0
                }
            },
            Node::Weak { id } => {
                assert(context@ =~= context@.union(Set::empty()));
                0
            },
        }
    }

    /// The heap bytes that the values `items` own, measured one after
    /// another with the same context.
    pub fn sum_children(&self, items: &Vec<Node>, context: &mut Context) -> (bytes: usize)
        ensures
            bytes == saturate(seq_cost(self@, items@, old(context)@).bytes),
            final(context)@ == old(context)@.union(seq_cost(self@, items@, old(context)@).counted),
        decreases unvisited(self@.len(), old(context)@), items,
    {
        let ghost before = context@;
        let mut total: usize = 0;
        let mut i: usize = 0;
        assert(context@ =~= before.union(Set::empty()));
        while i < items.len()
            invariant
                i <= items.len(),
                total == saturate(seq_cost(self@, items@.take(i as int), before).bytes),
                context@ == before.union(seq_cost(self@, items@.take(i as int), before).counted),
                before == old(context)@,
            decreases items.len() - i,
        {
            let ghost front = seq_cost(self@, items@.take(i as int), before);
            proof {
                lemma_unvisited_monotone(self@.len(), before, before.union(front.counted));
                assert(items@.take(i + 1).drop_last() =~= items@.take(i as int));
                assert(items@.take(i + 1).last() == items@[i as int]);
            }
            let one = self.deep_size_of_children(&items[i], context);
            proof {
                let last = node_cost(self@, items@[i as int], before.union(front.counted));
                lemma_saturate_sum(front.bytes, last.bytes);
                assert(context@ =~= before.union(front.then_walk(last).counted));
            }
            total = add_bytes(total, one);
            i += 1;
        }
        assert(items@.take(i as int) =~= items@);
        total
    }

    /// The heap bytes that the values behind `items` own, measured one after
    /// another with the same context.
    pub fn sum_borrowed(&self, items: &Vec<&Node>, context: &mut Context) -> (bytes: usize)
        ensures
            bytes == saturate(seq_cost(self@, borrowed(items@), old(context)@).bytes),
            final(context)@ == old(context)@.union(
                seq_cost(self@, borrowed(items@), old(context)@).counted,
            ),
    {
        let ghost before = context@;
        let ghost nodes = borrowed(items@);
        let mut total: usize = 0;
        let mut i: usize = 0;
        assert(context@ =~= before.union(Set::empty()));
        while i < items.len()
            invariant
                i <= items.len(),
                nodes == borrowed(items@),
                total == saturate(seq_cost(self@, nodes.take(i as int), before).bytes),
                context@ == before.union(seq_cost(self@, nodes.take(i as int), before).counted),
            decreases items.len() - i,
        {
            let ghost front = seq_cost(self@, nodes.take(i as int), before);
            proof {
                assert(nodes.take(i + 1).drop_last() =~= nodes.take(i as int));
                assert(nodes.take(i + 1).last() == *items@[i as int]);
            }
            let one = self.deep_size_of_children(items[i], context);
            proof {
                let last = node_cost(self@, *items@[i as int], before.union(front.counted));
                lemma_saturate_sum(front.bytes, last.bytes);
                assert(context@ =~= before.union(front.then_walk(last).counted));
            }
            total = add_bytes(total, one);
            i += 1;
        }
        assert(nodes.take(i as int) =~= nodes);
        total
    }

    /// The deep size of a value of `size` bytes described by `node`: its own
    /// bytes and all that its children own, measured with a fresh context.
    pub fn deep_size_of(&self, size: usize, node: &Node) -> (bytes: usize)
        ensures
            bytes == saturate(size as nat + node_cost(self@, *node, Set::empty()).bytes),
    {
        let mut context = Context::new();
        let children = self.deep_size_of_children(node, &mut context);
        add_bytes(size, children)
    }
}

} // verus!
