//! Even distribution of work over workers.
//!
//! `total` jobs are spread over `workers` workers so that every worker gets
//! the quotient `total / workers`, and the first `total % workers` workers
//! one job more. The jobs keep their order: the first worker gets the first
//! jobs, the next worker those that follow.

use vstd::prelude::*;

verus! {

/// Number of jobs of the worker `index`.
pub open spec fn chunk_size(total: nat, workers: nat, index: nat) -> nat
    recommends
        workers > 0,
        index < workers,
{
    if index < total % workers {
        total / workers + 1
    } else {
        total / workers
    }
}

/// Number of jobs of the workers before `index`: where the chunk of the worker
/// `index` starts.
pub open spec fn chunk_start(total: nat, workers: nat, index: nat) -> nat
    recommends
        workers > 0,
        index <= workers,
{
    if index < total % workers {
        index * (total / workers) + index
    } else {
        index * (total / workers) + total % workers
    }
}

/// The sum of the sizes of the first `count` chunks.
pub open spec fn sizes_sum(total: nat, workers: nat, count: nat) -> nat
    decreases count,
{
    if count == 0 {
        0
    } else {
        sizes_sum(total, workers, (count - 1) as nat) + chunk_size(
            total,
            workers,
            (count - 1) as nat,
        )
    }
}

/// A chunk ends where the next one starts.
pub proof fn lemma_chunk_start_next(total: nat, workers: nat, index: nat)
    requires
        workers > 0,
        index < workers,
    ensures
        chunk_start(total, workers, index + 1) == chunk_start(total, workers, index) + chunk_size(
            total,
            workers,
            index,
        ),
{
    let quotient = total / workers;
    assert((index + 1) * quotient == index * quotient + quotient) by (nonlinear_arith);
}

/// The first chunk starts at the first job, and the chunks end with the last.
pub proof fn lemma_chunk_start_bounds(total: nat, workers: nat)
    requires
        workers > 0,
    ensures
        chunk_start(total, workers, 0) == 0,
        chunk_start(total, workers, workers) == total,
{
    let quotient = total / workers;
    let rest = total % workers;
    assert(workers * quotient + rest == total && rest < workers) by (nonlinear_arith)
        requires
            workers > 0,
            quotient == total / workers,
            rest == total % workers,
    ;
}

/// The starts of the chunks do not decrease, and none lies behind the last job.
pub proof fn lemma_chunk_start_monotonic(total: nat, workers: nat, low: nat, high: nat)
    requires
        workers > 0,
        low <= high <= workers,
    ensures
        chunk_start(total, workers, low) <= chunk_start(total, workers, high) <= total,
    decreases high - low,
{
    if low < high {
        lemma_chunk_start_next(total, workers, low);
        lemma_chunk_start_monotonic(total, workers, low + 1, high);
    } else {
        lemma_chunk_start_to_end(total, workers, high);
    }
}

/// No chunk starts behind the last job.
proof fn lemma_chunk_start_to_end(total: nat, workers: nat, index: nat)
    requires
        workers > 0,
        index <= workers,
    ensures
        chunk_start(total, workers, index) <= total,
    decreases workers - index,
{
    if index < workers {
        lemma_chunk_start_next(total, workers, index);
        lemma_chunk_start_to_end(total, workers, index + 1);
    } else {
        lemma_chunk_start_bounds(total, workers);
    }
}

/// The sizes of the first chunks add up to the start of the next chunk.
pub proof fn lemma_sizes_sum(total: nat, workers: nat, count: nat)
    requires
        workers > 0,
        count <= workers,
    ensures
        sizes_sum(total, workers, count) == chunk_start(total, workers, count),
    decreases count,
{
    if count == 0 {
        lemma_chunk_start_bounds(total, workers);
    } else {
        lemma_sizes_sum(total, workers, (count - 1) as nat);
        lemma_chunk_start_next(total, workers, (count - 1) as nat);
    }
}

/// The distribution is balanced: the sizes of all chunks add up to the number
/// of jobs, and no two chunks differ in size by more than one job.
pub proof fn lemma_chunk_balance(total: nat, workers: nat)
    requires
        workers > 0,
    ensures
        sizes_sum(total, workers, workers) == total,
        forall|i: nat, j: nat|
            i < workers && j < workers ==> #[trigger] chunk_size(total, workers, i)
                <= #[trigger] chunk_size(total, workers, j) + 1,
{
    lemma_sizes_sum(total, workers, workers);
    lemma_chunk_start_bounds(total, workers);
}

/// Computes the size of the chunk of one worker.
fn chunk_size_of(total: usize, workers: usize, index: usize) -> (size: usize)
    requires
        workers > 0,
        index < workers,
    ensures
        size == chunk_size(total as nat, workers as nat, index as nat),
{
    let quotient: usize = total / workers;
    let rest: usize = total % workers;
    if index < rest {
        assert(quotient < total) by (nonlinear_arith)
            requires
                quotient == total / workers,
                rest == total % workers,
                rest > 0,
                workers > 0,
        ;
        quotient + 1
    } else {
        quotient
    }
}

/// Computes the sizes of the chunks of all workers. Without workers there are
/// no chunks.
pub fn chunk_sizes(total: usize, workers: usize) -> (sizes: Vec<usize>)
    ensures
        sizes.len() == workers,
        forall|i: int|
            0 <= i < workers ==> sizes[i] == chunk_size(total as nat, workers as nat, i as nat),
{
    let mut sizes: Vec<usize> = Vec::new();
    let mut index: usize = 0;
    while index < workers
        invariant
            index <= workers,
            sizes.len() == index,
            forall|i: int|
                0 <= i < index ==> sizes[i] == chunk_size(total as nat, workers as nat, i as nat),
        decreases workers - index,
    {
        sizes.push(chunk_size_of(total, workers, index));
        index = index + 1;
    }
    sizes
}

/// The chunks of `items` for `parts` workers.
pub open spec fn chunks_of<T>(items: Seq<T>, parts: nat) -> Seq<Seq<T>> {
    Seq::new(
        parts,
        |i: int|
            items.subrange(
                chunk_start(items.len(), parts, i as nat) as int,
                chunk_start(items.len(), parts, (i + 1) as nat) as int,
            ),
    )
}

/// The items of the first `count` chunks, in order.
pub open spec fn concatenated<T>(chunks: Seq<Seq<T>>, count: nat) -> Seq<T>
    decreases count,
{
    if count == 0 {
        Seq::<T>::empty()
    } else {
        concatenated(chunks, (count - 1) as nat) + chunks[count - 1]
    }
}

/// The first chunks hold the first items, in their order.
pub proof fn lemma_chunks_prefix<T>(items: Seq<T>, parts: nat, count: nat)
    requires
        parts > 0,
        count <= parts,
    ensures
        chunk_start(items.len(), parts, count) <= items.len(),
        concatenated(chunks_of(items, parts), count) == items.subrange(
            0,
            chunk_start(items.len(), parts, count) as int,
        ),
    decreases count,
{
    lemma_chunk_start_monotonic(items.len(), parts, count, parts);
    if count == 0 {
        lemma_chunk_start_bounds(items.len(), parts);
    } else {
        let before = (count - 1) as nat;
        lemma_chunks_prefix(items, parts, before);
        lemma_chunk_start_next(items.len(), parts, before);
    }
}

/// The chunks together hold every item exactly once, in the order of the
/// items.
pub proof fn lemma_chunks_cover<T>(items: Seq<T>, parts: nat)
    requires
        parts > 0,
    ensures
        concatenated(chunks_of(items, parts), parts) == items,
        forall|i: int|
            0 <= i < parts ==> (#[trigger] chunks_of(items, parts)[i]).len() == chunk_size(
                items.len(),
                parts,
                i as nat,
            ),
{
    lemma_chunks_prefix(items, parts, parts);
    lemma_chunk_start_bounds(items.len(), parts);
    assert forall|i: int| 0 <= i < parts implies (#[trigger] chunks_of(items, parts)[i]).len()
        == chunk_size(items.len(), parts, i as nat) by {
        lemma_chunk_start_next(items.len(), parts, i as nat);
        lemma_chunk_start_monotonic(items.len(), parts, (i + 1) as nat, parts);
    }
}

/// Chunking keeps what a map does to the items: the chunks of the mapped
/// items are the mapped chunks of the items.
pub proof fn lemma_chunks_of_mapped<T, U>(items: Seq<T>, f: spec_fn(T) -> U, parts: nat)
    requires
        parts > 0,
    ensures
        chunks_of(items.map_values(f), parts) == chunks_of(items, parts).map_values(
            |chunk: Seq<T>| chunk.map_values(f),
        ),
{
    let left = chunks_of(items.map_values(f), parts);
    let right = chunks_of(items, parts).map_values(|chunk: Seq<T>| chunk.map_values(f));
    assert forall|i: int| 0 <= i < parts implies left[i] == right[i] by {
        lemma_chunk_start_next(items.len(), parts, i as nat);
        lemma_chunk_start_monotonic(items.len(), parts, (i + 1) as nat, parts);
        assert(left[i] =~= right[i]);
    }
    assert(left =~= right);
}

/// The sequences that a list of lists holds.
pub open spec fn chunk_views<T>(chunks: Seq<Vec<T>>) -> Seq<Seq<T>> {
    chunks.map_values(|chunk: Vec<T>| chunk@)
}

/// Splits `items` into `parts` chunks of balanced size. The items keep their
/// order, within each chunk and from chunk to chunk. Without parts there are
/// no chunks.
pub fn split_evenly<T>(items: Vec<T>, parts: usize) -> (chunks: Vec<Vec<T>>)
    ensures
        chunk_views(chunks@) == chunks_of(items@, parts as nat),
{
    if parts == 0 {
        return Vec::new();
    }
    let total: usize = items.len();
    let mut rest = items;
    let mut reversed: Vec<Vec<T>> = Vec::new();
    let mut index: usize = parts;
    proof {
        lemma_chunk_start_bounds(total as nat, parts as nat);
    }
    while index > 0
        invariant
            parts > 0,
            index <= parts,
            total == items@.len(),
            reversed.len() == parts - index,
            rest@ == items@.subrange(0, chunk_start(total as nat, parts as nat, index as nat) as int),
            forall|k: int|
                0 <= k < reversed.len() ==> (#[trigger] reversed[k])@ == chunks_of(
                    items@,
                    parts as nat,
                )[parts - 1 - k],
        decreases index,
    {
        index = index - 1;
        let size = chunk_size_of(total, parts, index);
        proof {
            lemma_chunk_start_next(total as nat, parts as nat, index as nat);
            lemma_chunk_start_monotonic(total as nat, parts as nat, (index + 1) as nat, parts as nat);
        }
        let tail = rest.split_off(rest.len() - size);
        reversed.push(tail);
    }
    let mut chunks: Vec<Vec<T>> = Vec::new();
    while reversed.len() > 0
        invariant
            chunks.len() + reversed.len() == parts,
            forall|k: int|
                0 <= k < reversed.len() ==> (#[trigger] reversed[k])@ == chunks_of(
                    items@,
                    parts as nat,
                )[parts - 1 - k],
            forall|k: int|
                0 <= k < chunks.len() ==> (#[trigger] chunks[k])@ == chunks_of(
                    items@,
                    parts as nat,
                )[k],
        decreases reversed.len(),
    {
        if let Some(chunk) = reversed.pop() {
            chunks.push(chunk);
        }
    }
    chunks
}

} // verus!
