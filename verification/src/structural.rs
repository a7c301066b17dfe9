//! The structural models: plain values, text, sequences, optional values,
//! owned boxes and pairs, each in terms of what its parts report.
use crate::capability::DeepSizeOf;
use crate::context::Context;
use crate::engine::{add_bytes, lemma_saturate_sum, saturate};
use crate::handles::no_children;
use crate::layout::slots;
use crate::model::{Alloc, Heap, Tally};
use vstd::prelude::*;

verus! {

/// The number of bytes that a text takes, which is the length of its
/// encoding.
pub open spec fn byte_len(text: Seq<char>) -> nat {
    vstd::utf8::encode_utf8(text).len()
}

/// `String::capacity`: the bytes of the text's buffer, which are no fewer
/// than the bytes of the text.
#[verifier::external_body]
pub(crate) fn string_capacity(text: &String) -> (capacity: usize)
    ensures
        capacity >= byte_len(text@),
{
    text.capacity()
}

/// `Vec::capacity`: the number of values that the vector's buffer has room
/// for, which is no less than the number of values in it.
#[verifier::external_body]
pub(crate) fn vec_capacity<T>(values: &Vec<T>) -> (capacity: usize)
    ensures
        capacity >= values@.len(),
{
    values.capacity()
}

/// What a sequence of walks yields together.
pub open spec fn total(steps: Seq<Tally>) -> Tally
    decreases steps.len(),
{
    if steps.len() == 0 {
        Tally::zero()
    } else {
        total(steps.drop_last()).then_walk(steps.last())
    }
}

/// Whether `steps` are possible outcomes of measuring `items` one after
/// another, each with what the earlier ones counted added to `visited`.
pub open spec fn walks<T: DeepSizeOf>(
    items: Seq<T>,
    heap: Seq<Alloc>,
    visited: Set<usize>,
    steps: Seq<Tally>,
) -> bool {
    &&& steps.len() == items.len()
    &&& forall|i: int|
        0 <= i < items.len() ==> #[trigger] items[i].measures(
            heap,
            visited.union(total(steps.take(i)).counted),
            steps[i],
        )
}

/// What a sequence of values of type `T` costs whose buffer has room for
/// `capacity` of them and whose values reported `steps`.
pub open spec fn sequence_tally<T>(capacity: nat, steps: Seq<Tally>) -> Tally {
    total(steps).plus(capacity * vstd::layout::size_of::<T>())
}

/// Capacity sensitivity: a sequence is charged for its buffer by the
/// capacity alone, and a larger capacity never costs less.
pub proof fn law_sequence_capacity<T>(small: nat, large: nat, steps: Seq<Tally>)
    requires
        small <= large,
    ensures
        sequence_tally::<T>(small, steps).bytes == total(steps).bytes + small
            * vstd::layout::size_of::<T>(),
        sequence_tally::<T>(small, steps).bytes <= sequence_tally::<T>(large, steps).bytes,
        sequence_tally::<T>(small, steps).counted == sequence_tally::<T>(large, steps).counted,
{
    assert(small * vstd::layout::size_of::<T>() <= large * vstd::layout::size_of::<T>())
        by (nonlinear_arith)
        requires
            small <= large,
    ;
}

impl DeepSizeOf for bool {
    open spec fn measurable(&self) -> bool {
        true
    }

    open spec fn measures(&self, heap: Seq<Alloc>, visited: Set<usize>, tally: Tally) -> bool {
        tally == Tally::zero()
    }

    fn deep_size_of_children(&self, heap: &Heap, context: &mut Context) -> (bytes: usize) {
        let bytes = no_children(context);
        assert(self.measures(heap@, old(context)@, Tally::zero()));
        bytes
    }
}

impl DeepSizeOf for char {
    open spec fn measurable(&self) -> bool {
        true
    }

    open spec fn measures(&self, heap: Seq<Alloc>, visited: Set<usize>, tally: Tally) -> bool {
        tally == Tally::zero()
    }

    fn deep_size_of_children(&self, heap: &Heap, context: &mut Context) -> (bytes: usize) {
        let bytes = no_children(context);
        assert(self.measures(heap@, old(context)@, Tally::zero()));
        bytes
    }
}

impl DeepSizeOf for u8 {
    open spec fn measurable(&self) -> bool {
        true
    }

    open spec fn measures(&self, heap: Seq<Alloc>, visited: Set<usize>, tally: Tally) -> bool {
        tally == Tally::zero()
    }

    fn deep_size_of_children(&self, heap: &Heap, context: &mut Context) -> (bytes: usize) {
        let bytes = no_children(context);
        assert(self.measures(heap@, old(context)@, Tally::zero()));
        bytes
    }
}

impl DeepSizeOf for u16 {
    open spec fn measurable(&self) -> bool {
        true
    }

    open spec fn measures(&self, heap: Seq<Alloc>, visited: Set<usize>, tally: Tally) -> bool {
        tally == Tally::zero()
    }

    fn deep_size_of_children(&self, heap: &Heap, context: &mut Context) -> (bytes: usize) {
        let bytes = no_children(context);
        assert(self.measures(heap@, old(context)@, Tally::zero()));
        bytes
    }
}

impl DeepSizeOf for u32 {
    open spec fn measurable(&self) -> bool {
        true
    }

    open spec fn measures(&self, heap: Seq<Alloc>, visited: Set<usize>, tally: Tally) -> bool {
        tally == Tally::zero()
    }

    fn deep_size_of_children(&self, heap: &Heap, context: &mut Context) -> (bytes: usize) {
        let bytes = no_children(context);
        assert(self.measures(heap@, old(context)@, Tally::zero()));
        bytes
    }
}

impl DeepSizeOf for u64 {
    open spec fn measurable(&self) -> bool {
        true
    }

    open spec fn measures(&self, heap: Seq<Alloc>, visited: Set<usize>, tally: Tally) -> bool {
        tally == Tally::zero()
    }

    fn deep_size_of_children(&self, heap: &Heap, context: &mut Context) -> (bytes: usize) {
        let bytes = no_children(context);
        assert(self.measures(heap@, old(context)@, Tally::zero()));
        bytes
    }
}

impl DeepSizeOf for u128 {
    open spec fn measurable(&self) -> bool {
        true
    }

    open spec fn measures(&self, heap: Seq<Alloc>, visited: Set<usize>, tally: Tally) -> bool {
        tally == Tally::zero()
    }

    fn deep_size_of_children(&self, heap: &Heap, context: &mut Context) -> (bytes: usize) {
        let bytes = no_children(context);
        assert(self.measures(heap@, old(context)@, Tally::zero()));
        bytes
    }
}

impl DeepSizeOf for usize {
    open spec fn measurable(&self) -> bool {
        true
    }

    open spec fn measures(&self, heap: Seq<Alloc>, visited: Set<usize>, tally: Tally) -> bool {
        tally == Tally::zero()
    }

    fn deep_size_of_children(&self, heap: &Heap, context: &mut Context) -> (bytes: usize) {
        let bytes = no_children(context);
        assert(self.measures(heap@, old(context)@, Tally::zero()));
        bytes
    }
}

impl DeepSizeOf for i8 {
    open spec fn measurable(&self) -> bool {
        true
    }

    open spec fn measures(&self, heap: Seq<Alloc>, visited: Set<usize>, tally: Tally) -> bool {
        tally == Tally::zero()
    }

    fn deep_size_of_children(&self, heap: &Heap, context: &mut Context) -> (bytes: usize) {
        let bytes = no_children(context);
        assert(self.measures(heap@, old(context)@, Tally::zero()));
        bytes
    }
}

impl DeepSizeOf for i16 {
    open spec fn measurable(&self) -> bool {
        true
    }

    open spec fn measures(&self, heap: Seq<Alloc>, visited: Set<usize>, tally: Tally) -> bool {
        tally == Tally::zero()
    }

    fn deep_size_of_children(&self, heap: &Heap, context: &mut Context) -> (bytes: usize) {
        let bytes = no_children(context);
        assert(self.measures(heap@, old(context)@, Tally::zero()));
        bytes
    }
}

impl DeepSizeOf for i32 {
    open spec fn measurable(&self) -> bool {
        true
    }

    open spec fn measures(&self, heap: Seq<Alloc>, visited: Set<usize>, tally: Tally) -> bool {
        tally == Tally::zero()
    }

    fn deep_size_of_children(&self, heap: &Heap, context: &mut Context) -> (bytes: usize) {
        let bytes = no_children(context);
        assert(self.measures(heap@, old(context)@, Tally::zero()));
        bytes
    }
}

impl DeepSizeOf for i64 {
    open spec fn measurable(&self) -> bool {
        true
    }

    open spec fn measures(&self, heap: Seq<Alloc>, visited: Set<usize>, tally: Tally) -> bool {
        tally == Tally::zero()
    }

    fn deep_size_of_children(&self, heap: &Heap, context: &mut Context) -> (bytes: usize) {
        let bytes = no_children(context);
        assert(self.measures(heap@, old(context)@, Tally::zero()));
        bytes
    }
}

impl DeepSizeOf for i128 {
    open spec fn measurable(&self) -> bool {
        true
    }

    open spec fn measures(&self, heap: Seq<Alloc>, visited: Set<usize>, tally: Tally) -> bool {
        tally == Tally::zero()
    }

    fn deep_size_of_children(&self, heap: &Heap, context: &mut Context) -> (bytes: usize) {
        let bytes = no_children(context);
        assert(self.measures(heap@, old(context)@, Tally::zero()));
        bytes
    }
}

impl DeepSizeOf for isize {
    open spec fn measurable(&self) -> bool {
        true
    }

    open spec fn measures(&self, heap: Seq<Alloc>, visited: Set<usize>, tally: Tally) -> bool {
        tally == Tally::zero()
    }

    fn deep_size_of_children(&self, heap: &Heap, context: &mut Context) -> (bytes: usize) {
        let bytes = no_children(context);
        assert(self.measures(heap@, old(context)@, Tally::zero()));
        bytes
    }
}

impl DeepSizeOf for () {
    open spec fn measurable(&self) -> bool {
        true
    }

    open spec fn measures(&self, heap: Seq<Alloc>, visited: Set<usize>, tally: Tally) -> bool {
        tally == Tally::zero()
    }

    fn deep_size_of_children(&self, heap: &Heap, context: &mut Context) -> (bytes: usize) {
        let bytes = no_children(context);
        assert(self.measures(heap@, old(context)@, Tally::zero()));
        bytes
    }
}

impl DeepSizeOf for String {
    open spec fn measurable(&self) -> bool {
        true
    }

    /// The text's buffer at some capacity that holds the text.
    open spec fn measures(&self, heap: Seq<Alloc>, visited: Set<usize>, tally: Tally) -> bool {
        exists|capacity: usize|
            {
                &&& capacity >= byte_len(self@)
                &&& tally == #[trigger] Tally::zero().plus(capacity as nat)
            }
    }

    fn deep_size_of_children(&self, heap: &Heap, context: &mut Context) -> (bytes: usize) {
        let capacity = string_capacity(self);
        assert(self.measures(heap@, old(context)@, Tally::zero().plus(capacity as nat)));
        assert(context@ =~= context@.union(Set::empty()));
        capacity
    }
}

impl<T: DeepSizeOf> DeepSizeOf for Option<T> {
    open spec fn measurable(&self) -> bool {
        match self {
            Some(value) => value.measurable(),
            None => true,
        }
    }

    /// What the value reports where there is one, nothing where there is
    /// none.
    open spec fn measures(&self, heap: Seq<Alloc>, visited: Set<usize>, tally: Tally) -> bool {
        match self {
            Some(value) => value.measures(heap, visited, tally),
            None => tally == Tally::zero(),
        }
    }

    fn deep_size_of_children(&self, heap: &Heap, context: &mut Context) -> (bytes: usize) {
        match self {
            Some(value) => {
                let bytes = value.deep_size_of_children(heap, context);
                proof {
                    let tally = choose|tally: Tally|
                        {
                            &&& #[trigger] value.measures(heap@, old(context)@, tally)
                            &&& bytes == saturate(tally.bytes)
                            &&& context@ == old(context)@.union(tally.counted)
                        };
                    assert(self.measures(heap@, old(context)@, tally));
                }
                bytes
            },
            None => {
                let bytes = no_children(context);
                assert(self.measures(heap@, old(context)@, Tally::zero()));
                bytes
            },
        }
    }
}

impl<T: DeepSizeOf> DeepSizeOf for Box<T> {
    open spec fn measurable(&self) -> bool {
        (**self).measurable()
    }

    /// The allocation that holds the value, and what the value reports.
    open spec fn measures(&self, heap: Seq<Alloc>, visited: Set<usize>, tally: Tally) -> bool {
        exists|inner: Tally|
            {
                &&& #[trigger] (**self).measures(heap, visited, inner)
                &&& tally == inner.plus(vstd::layout::size_of::<T>())
            }
    }

    fn deep_size_of_children(&self, heap: &Heap, context: &mut Context) -> (bytes: usize) {
        let value: &T = &**self;
        let owned = value.deep_size_of_children(heap, context);
        proof {
            let inner = choose|inner: Tally|
                {
                    &&& #[trigger] value.measures(heap@, old(context)@, inner)
                    &&& owned == saturate(inner.bytes)
                    &&& context@ == old(context)@.union(inner.counted)
                };
            lemma_saturate_sum(inner.bytes, vstd::layout::size_of::<T>());
            assert(self.measures(heap@, old(context)@, inner.plus(vstd::layout::size_of::<T>())));
        }
        add_bytes(owned, core::mem::size_of::<T>())
    }
}

impl<A: DeepSizeOf, B: DeepSizeOf> DeepSizeOf for (A, B) {
    open spec fn measurable(&self) -> bool {
        self.0.measurable() && self.1.measurable()
    }

    /// What the first part reports, then what the second reports after it.
    open spec fn measures(&self, heap: Seq<Alloc>, visited: Set<usize>, tally: Tally) -> bool {
        exists|first: Tally, second: Tally|
            {
                &&& #[trigger] self.0.measures(heap, visited, first)
                &&& #[trigger] self.1.measures(heap, visited.union(first.counted), second)
                &&& tally == first.then_walk(second)
            }
    }

    fn deep_size_of_children(&self, heap: &Heap, context: &mut Context) -> (bytes: usize) {
        let one = self.0.deep_size_of_children(heap, context);
        let ghost middle = context@;
        let two = self.1.deep_size_of_children(heap, context);
        proof {
            let first = choose|first: Tally|
                {
                    &&& #[trigger] self.0.measures(heap@, old(context)@, first)
                    &&& one == saturate(first.bytes)
                    &&& middle == old(context)@.union(first.counted)
                };
            let second = choose|second: Tally|
                {
                    &&& #[trigger] self.1.measures(heap@, middle, second)
                    &&& two == saturate(second.bytes)
                    &&& context@ == middle.union(second.counted)
                };
            lemma_saturate_sum(first.bytes, second.bytes);
            assert(context@ =~= old(context)@.union(first.then_walk(second).counted));
            assert(self.measures(heap@, old(context)@, first.then_walk(second)));
        }
        add_bytes(one, two)
    }
}

impl<T: DeepSizeOf> DeepSizeOf for Vec<T> {
    open spec fn measurable(&self) -> bool {
        forall|i: int| 0 <= i < self@.len() ==> #[trigger] self@[i].measurable()
    }

    /// The buffer at some capacity that holds the values, and what the
    /// values report one after another.
    open spec fn measures(&self, heap: Seq<Alloc>, visited: Set<usize>, tally: Tally) -> bool {
        exists|capacity: usize, steps: Seq<Tally>|
            {
                &&& capacity >= self@.len()
                &&& walks(self@, heap, visited, steps)
                &&& tally == #[trigger] sequence_tally::<T>(capacity as nat, steps)
            }
    }

    fn deep_size_of_children(&self, heap: &Heap, context: &mut Context) -> (bytes: usize) {
        let ghost before = context@;
        let ghost mut steps: Seq<Tally> = Seq::empty();
        let mut owned: usize = 0;
        let mut i: usize = 0;
        assert(context@ =~= before.union(Set::empty()));
        while i < self.len()
            invariant
                i <= self.len(),
                steps.len() == i,
                self.measurable(),
                forall|j: int|
                    0 <= j < i ==> #[trigger] self@[j].measures(
                        heap@,
                        before.union(total(steps.take(j)).counted),
                        steps[j],
                    ),
                owned == saturate(total(steps).bytes),
                context@ == before.union(total(steps).counted),
            decreases self.len() - i,
        {
            let ghost at = context@;
            assert(self@[i as int].measurable());
            let one = self[i].deep_size_of_children(heap, context);
            proof {
                let step = choose|step: Tally|
                    {
                        &&& #[trigger] self@[i as int].measures(heap@, at, step)
                        &&& one == saturate(step.bytes)
                        &&& context@ == at.union(step.counted)
                    };
                let next = steps.push(step);
                assert(next.drop_last() =~= steps);
                assert(next.take(i as int) =~= steps);
                assert forall|j: int| 0 <= j < i + 1 implies #[trigger] self@[j].measures(
                    heap@,
                    before.union(total(next.take(j)).counted),
                    next[j],
                ) by {
                    if j < i {
                        assert(next.take(j) =~= steps.take(j));
                    }
                }
                lemma_saturate_sum(total(steps).bytes, step.bytes);
                assert(context@ =~= before.union(total(next).counted));
                steps = next;
            }
            owned = add_bytes(owned, one);
            i += 1;
        }
        let capacity = vec_capacity(self);
        let buffer = slots(capacity, core::mem::size_of::<T>());
        proof {
            assert(walks(self@, heap@, before, steps));
            lemma_saturate_sum(
                total(steps).bytes,
                capacity as nat * vstd::layout::size_of::<T>(),
            );
            assert(self.measures(heap@, before, sequence_tally::<T>(capacity as nat, steps)));
        }
        add_bytes(owned, buffer)
    }
}

} // verus!
