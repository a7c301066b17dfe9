//! The data model: values described by what they own.
use vstd::prelude::*;

verus! {

/// One value under measurement, described by the heap memory it answers for.
///
/// The description leaves out the value's own fixed-size representation: a
/// value stored inside another value's buffer is paid for by that buffer.
#[derive(Debug, PartialEq, Eq, Hash)]
pub enum Node {
    /// A value that owns no heap memory: a number, a handle, a date.
    Flat,
    /// A value whose parts are stored inside it: a record, a tagged union,
    /// an optional value, a buffer of fixed capacity.
    Inline(Vec<Node>),
    /// A value that owns one heap buffer of `bytes` bytes, in which the
    /// values `items` live.
    Buffer { bytes: usize, items: Vec<Node> },
    /// One of possibly several owners of the shared allocation `id`.
    Shared { id: usize },
    /// A reference that does not own the allocation `id`: it is never walked.
    Weak { id: usize },
}

/// A shared allocation: the bytes of the value stored in it, and what that
/// value owns in turn.
#[derive(Debug, PartialEq, Eq, Hash)]
pub struct Alloc {
    pub size: usize,
    pub content: Node,
}

/// The shared allocations of a value graph. An allocation's identity is its
/// position in the table.
#[derive(Debug, PartialEq, Eq, Hash)]
pub struct Heap {
    pub allocs: Vec<Alloc>,
}

impl View for Heap {
    type V = Seq<Alloc>;

    open spec fn view(&self) -> Seq<Alloc> {
        self.allocs@
    }
}

/// What a walk yields: the bytes it charged, and the shared allocations it
/// was the first to count.
pub ghost struct Tally {
    pub bytes: nat,
    pub counted: Set<usize>,
}

impl Tally {
    /// The walk that met nothing.
    pub open spec fn zero() -> Tally {
        Tally { bytes: 0, counted: Set::empty() }
    }

    /// This walk followed by `next`.
    pub open spec fn then_walk(self, next: Tally) -> Tally {
        Tally { bytes: self.bytes + next.bytes, counted: self.counted.union(next.counted) }
    }

    /// This walk with `extra` more bytes charged.
    pub open spec fn plus(self, extra: nat) -> Tally {
        Tally { bytes: self.bytes + extra, counted: self.counted }
    }
}

/// How many of the allocations `0 .. n` are not in `visited`.
pub open spec fn unvisited(n: nat, visited: Set<usize>) -> nat
    decreases n,
{
    if n == 0 {
        0
    } else {
        let rest = unvisited((n - 1) as nat, visited);
        if visited.contains((n - 1) as usize) {
            rest
        } else {
            rest + 1
        }
    }
}

/// A larger set of visited allocations leaves no more unvisited ones.
pub proof fn lemma_unvisited_monotone(n: nat, small: Set<usize>, large: Set<usize>)
    requires
        small.subset_of(large),
    ensures
        unvisited(n, large) <= unvisited(n, small),
    decreases n,
{
    if n > 0 {
        lemma_unvisited_monotone((n - 1) as nat, small, large);
    }
}

/// Visiting one more allocation of the table leaves strictly fewer unvisited.
pub proof fn lemma_unvisited_insert(n: nat, visited: Set<usize>, id: usize)
    requires
        id < n,
        n <= usize::MAX + 1,
        !visited.contains(id),
    ensures
        unvisited(n, visited.insert(id)) < unvisited(n, visited),
    decreases n,
{
    if n - 1 == id {
        lemma_unvisited_monotone((n - 1) as nat, visited, visited.insert(id));
    } else {
        lemma_unvisited_insert((n - 1) as nat, visited, id);
    }
}

/// What measuring the children of `node` yields when the allocations in
/// `visited` were counted before.
pub open spec fn node_cost(heap: Seq<Alloc>, node: Node, visited: Set<usize>) -> Tally
    decreases unvisited(heap.len(), visited), node,
{
    match node {
        Node::Flat => Tally::zero(),
        Node::Inline(fields) => seq_cost(heap, fields@, visited),
        Node::Buffer { bytes, items } => seq_cost(heap, items@, visited).plus(bytes as nat),
        Node::Shared { id } => {
            if id < heap.len() && heap.len() <= usize::MAX && !visited.contains(id) {
                proof {
                    lemma_unvisited_insert(heap.len(), visited, id);
                }
                let inner = node_cost(heap, heap[id as int].content, visited.insert(id));
                Tally {
                    bytes: heap[id as int].size as nat + inner.bytes,
                    counted: inner.counted.insert(id),
                }
            } else {
                Tally::zero()
            }
        },
        Node::Weak { id } => Tally::zero(),
    }
}

/// What measuring the values `items` one after another yields, each with
/// what the earlier ones counted added to `visited`.
pub open spec fn seq_cost(heap: Seq<Alloc>, items: Seq<Node>, visited: Set<usize>) -> Tally
    decreases unvisited(heap.len(), visited), items,
{
    if items.len() == 0 {
        Tally::zero()
    } else {
        let front = seq_cost(heap, items.drop_last(), visited);
        proof {
            lemma_unvisited_monotone(heap.len(), visited, visited.union(front.counted));
        }
        front.then_walk(node_cost(heap, items.last(), visited.union(front.counted)))
    }
}

} // verus!
