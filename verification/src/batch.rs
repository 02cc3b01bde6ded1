//! Witnesses of many instances of one circuit, generated together: the
//! grouping under a shared base, and the split of the work over a fixed
//! number of workers.

use std::sync::Arc;
use vstd::prelude::*;

use crate::error::BuildError;

verus! {

/// The number of workers over which the witnesses of one batch are spread,
/// whatever the size of the batch and of the machine: each witness may need
/// much memory.
pub const NUM_PARALLEL_TASKS: usize = 5;

/// The least number of instances that one worker is handed at a time.
pub open spec fn spec_min_chunk_len(count: nat, workers: nat) -> nat {
    count / workers
}

/// The length of chunk `i` when `count` instances are spread over `workers`
/// workers: the instances are shared out evenly, and the first chunks take
/// the ones left over.
pub open spec fn chunk_len(count: nat, workers: nat, i: nat) -> nat {
    count / workers + if i < count % workers {
        1nat
    } else {
        0nat
    }
}

/// The index of the first instance of chunk `i`.
pub open spec fn chunk_start(count: nat, workers: nat, i: nat) -> nat
    decreases i,
{
    if i == 0 {
        0
    } else {
        chunk_start(count, workers, (i - 1) as nat) + chunk_len(count, workers, (i - 1) as nat)
    }
}

/// The number of chunks that are not empty.
pub open spec fn chunk_count(count: nat, workers: nat) -> nat {
    if count < workers {
        count
    } else {
        workers
    }
}

/// The chunks before `i` hold `i` even shares and the instances left over
/// that they took.
pub proof fn lemma_chunk_start(count: nat, workers: nat, i: nat)
    requires
        workers > 0,
    ensures
        chunk_start(count, workers, i) == i * (count / workers) + if i < count % workers {
            i
        } else {
            count % workers
        },
    decreases i,
{
    let q = (count / workers) as int;
    let h = i as int;
    if i == 0 {
        assert(h * q == 0) by (nonlinear_arith)
            requires
                h == 0,
        ;
    } else {
        lemma_chunk_start(count, workers, (i - 1) as nat);
        assert(h * q == (h - 1) * q + q) by (nonlinear_arith);
        assert((h - 1) * q >= 0) by (nonlinear_arith)
            requires
                h >= 1,
                q >= 0,
        ;
    }
}

/// The chunks lie one behind the other, none of them is empty, and together
/// they hold every instance once, in order: the first starts at 0 and the
/// last ends at `count`, for every number of workers.
pub proof fn lemma_chunks_cover(count: nat, workers: nat)
    requires
        workers > 0,
    ensures
        chunk_start(count, workers, 0) == 0,
        chunk_start(count, workers, chunk_count(count, workers)) == count,
        forall|i: nat|
            i < chunk_count(count, workers) ==> chunk_start(count, workers, i) < #[trigger] chunk_start(
                count,
                workers,
                i + 1,
            ),
        forall|i: nat|
            i < chunk_count(count, workers) ==> #[trigger] chunk_len(count, workers, i)
                >= spec_min_chunk_len(count, workers),
{
    let k = chunk_count(count, workers);
    lemma_chunk_start(count, workers, k);
    vstd::arithmetic::div_mod::lemma_fundamental_div_mod(count as int, workers as int);
    vstd::arithmetic::div_mod::lemma_mod_bound(count as int, workers as int);
    if count < workers {
        vstd::arithmetic::div_mod::lemma_small_mod(count, workers);
        vstd::arithmetic::div_mod::lemma_basic_div(count as int, workers as int);
        assert(k * (count / workers) == 0) by (nonlinear_arith)
            requires
                count / workers == 0,
        ;
    } else {
        assert(workers * (count / workers) == (count / workers) * workers) by (nonlinear_arith);
    }
    assert forall|i: nat| i < k implies chunk_start(count, workers, i) < #[trigger] chunk_start(
        count,
        workers,
        i + 1,
    ) by {
        if count < workers {
            vstd::arithmetic::div_mod::lemma_small_mod(count, workers);
        } else {
            vstd::arithmetic::div_mod::lemma_div_non_zero(count as int, workers as int);
        }
    }
}

/// The least number of instances that one worker is handed at a time.
pub fn min_chunk_len(count: usize, workers: usize) -> (len: usize)
    requires
        workers > 0,
    ensures
        len == spec_min_chunk_len(count as nat, workers as nat),
{
    count / workers
}

/// Splits the instances `0..count` into at most `workers` chunks, each a
/// half-open range of indices.
pub fn partition(count: usize, workers: usize) -> (chunks: Vec<(usize, usize)>)
    requires
        workers > 0,
    ensures
        chunks@.len() == chunk_count(count as nat, workers as nat),
        forall|i: int|
            0 <= i < chunks@.len() ==> (#[trigger] chunks@[i]).0 == chunk_start(
                count as nat,
                workers as nat,
                i as nat,
            ) && chunks@[i].1 == chunk_start(count as nat, workers as nat, (i + 1) as nat),
{
    let base = count / workers;
    let extra = count % workers;
    let total = if count < workers {
        count
    } else {
        workers
    };
    let mut chunks: Vec<(usize, usize)> = Vec::new();
    let mut start: usize = 0;
    let mut i: usize = 0;
    proof {
        lemma_chunks_cover(count as nat, workers as nat);
    }
    while i < total
        invariant
            workers > 0,
            base == count / workers,
            extra == count % workers,
            total == chunk_count(count as nat, workers as nat),
            i <= total,
            chunks@.len() == i,
            start == chunk_start(count as nat, workers as nat, i as nat),
            chunk_start(count as nat, workers as nat, total as nat) == count,
            forall|j: int|
                0 <= j < i ==> (#[trigger] chunks@[j]).0 == chunk_start(
                    count as nat,
                    workers as nat,
                    j as nat,
                ) && chunks@[j].1 == chunk_start(count as nat, workers as nat, (j + 1) as nat),
        decreases total - i,
    {
        proof {
            lemma_chunk_start_monotone(count as nat, workers as nat, (i + 1) as nat, total as nat);
        }
        let len = if i < extra {
            base + 1
        } else {
            base
        };
        let end = start + len;
        chunks.push((start, end));
        start = end;
        i = i + 1;
    }
    chunks
}

/// Chunks further behind start further behind.
pub proof fn lemma_chunk_start_monotone(count: nat, workers: nat, i: nat, j: nat)
    requires
        i <= j,
    ensures
        chunk_start(count, workers, i) <= chunk_start(count, workers, j),
    decreases j - i,
{
    if i < j {
        lemma_chunk_start_monotone(count, workers, i, (j - 1) as nat);
    }
}

/// The chunks' items, one chunk behind the other.
pub open spec fn concat<T>(chunks: Seq<Seq<T>>) -> Seq<T>
    decreases chunks.len(),
{
    if chunks.len() == 0 {
        Seq::empty()
    } else {
        concat(chunks.drop_last()) + chunks.last()
    }
}

/// Puts the results of the chunks back into one list, in the order of the
/// chunks and, within a chunk, in the order of its items.
pub fn collect_in_order<T>(chunks: Vec<Vec<T>>) -> (all: Vec<T>)
    ensures
        all@ == concat(chunks@.map_values(|c: Vec<T>| c@)),
{
    let ghost parts = chunks@.map_values(|c: Vec<T>| c@);
    let mut all: Vec<T> = Vec::new();
    for chunk in it: chunks
        invariant
            it.seq() == chunks@,
            parts == chunks@.map_values(|c: Vec<T>| c@),
            all@ == concat(parts.take(it.index())),
    {
        let mut chunk = chunk;
        proof {
            assert(parts.take(it.index() + 1).drop_last() =~= parts.take(it.index()));
        }
        all.append(&mut chunk);
    }
    proof {
        assert(parts.take(parts.len() as int) =~= parts);
    }
    all
}

/// The witness of one instance in a batch of instances of one circuit. All
/// but a batch of one share the witness that was computed first, the base,
/// which nobody changes.
#[derive(Debug)]
pub struct SameCircuitAssignment<T> {
    /// The shared base, where the batch has more than one instance.
    pub base: Option<Arc<T>>,
    /// The instance's own witness.
    pub assignment: T,
}

/// Hands out one more handle on a shared value, by `Arc::clone`: the new
/// handle points to the same value.
#[verifier::external_body]
fn share<T>(handle: &Arc<T>) -> (shared: Arc<T>)
    ensures
        shared == *handle,
{
    Arc::clone(handle)
}

impl<T> SameCircuitAssignment<T> {
    /// The only instance of a batch of one: it has no base.
    pub fn single_one(assignment: T) -> (r: Self)
        ensures
            r.base is None,
            r.assignment == assignment,
    {
        SameCircuitAssignment { base: None, assignment }
    }

    /// One instance of a larger batch, beside the batch's base.
    pub fn create_with_base(base: Arc<T>, assignment: T) -> (r: Self)
        ensures
            r.base == Some(base),
            r.assignment == assignment,
    {
        SameCircuitAssignment { base: Some(base), assignment }
    }
}

/// What a batch of `count` instances is, given the witnesses that the
/// capability handed out: a batch of one holds the one witness; any other
/// batch holds `count` witnesses beside one shared base.
pub open spec fn is_batch_of<T, F: Fn() -> Result<T, BuildError>>(
    batch: Seq<SameCircuitAssignment<T>>,
    witness: F,
    count: nat,
) -> bool {
    &&& batch.len() == count
    &&& forall|i: int|
        0 <= i < batch.len() ==> call_ensures(witness, (), Ok((#[trigger] batch[i]).assignment))
    &&& count == 1 ==> batch[0].base is None
    &&& count != 1 ==> exists|base: Arc<T>|
        call_ensures(witness, (), Ok(*base)) && forall|i: int|
            0 <= i < batch.len() ==> (#[trigger] batch[i]).base == Some(base)
}

/// Computes the witnesses of `len` instances, one after the other, each by
/// one call of the capability. The first call that fails ends the chunk
/// with its error.
pub fn generate_chunk<T, F: Fn() -> Result<T, BuildError>>(witness: &F, len: usize) -> (r: Result<
    Vec<T>,
    BuildError,
>)
    requires
        call_requires(*witness, ()),
    ensures
        match r {
            Ok(items) => items@.len() == len && forall|i: int|
                0 <= i < items@.len() ==> call_ensures(*witness, (), Ok(#[trigger] items@[i])),
            Err(e) => call_ensures(*witness, (), Err(e)),
        },
{
    let mut items: Vec<T> = Vec::new();
    let mut i: usize = 0;
    while i < len
        invariant
            call_requires(*witness, ()),
            i <= len,
            items@.len() == i,
            forall|j: int| 0 <= j < i ==> call_ensures(*witness, (), Ok(#[trigger] items@[j])),
        decreases len - i,
    {
        match witness() {
            Ok(item) => {
                items.push(item);
            },
            Err(e) => {
                return Err(e);
            },
        }
        i = i + 1;
    }
    Ok(items)
}

/// Puts every witness of a batch beside the batch's base, in the order of
/// the witnesses.
pub fn wrap_with_base<T>(base: Arc<T>, items: Vec<T>) -> (batch: Vec<SameCircuitAssignment<T>>)
    ensures
        batch@.len() == items@.len(),
        forall|i: int|
            0 <= i < batch@.len() ==> (#[trigger] batch@[i]).base == Some(base)
                && batch@[i].assignment == items@[i],
{
    let mut batch: Vec<SameCircuitAssignment<T>> = Vec::new();
    for item in it: items
        invariant
            it.seq() == items@,
            batch@.len() == it.index(),
            forall|i: int|
                0 <= i < batch@.len() ==> (#[trigger] batch@[i]).base == Some(base)
                    && batch@[i].assignment == items@[i],
    {
        batch.push(SameCircuitAssignment::create_with_base(share(&base), item));
    }
    batch
}

/// Every item of the collected list is an item of one of the chunks.
pub proof fn lemma_concat_member<T>(chunks: Seq<Seq<T>>, n: int)
    requires
        0 <= n < concat(chunks).len(),
    ensures
        exists|i: int, j: int|
            0 <= i < chunks.len() && 0 <= j < chunks[i].len() && #[trigger] chunks[i][j] == concat(
                chunks,
            )[n],
    decreases chunks.len(),
{
    let head = chunks.drop_last();
    if n < concat(head).len() {
        lemma_concat_member(head, n);
        let (i, j) = choose|i: int, j: int|
            0 <= i < head.len() && 0 <= j < head[i].len() && #[trigger] head[i][j] == concat(
                head,
            )[n];
        assert(chunks[i][j] == concat(chunks)[n]);
    } else {
        let i = chunks.len() - 1;
        let j = n - concat(head).len();
        assert(chunks[i][j] == concat(chunks)[n]);
    }
}

/// Computes the witnesses of `count` instances of one circuit, split into
/// chunks for `workers` workers, and puts them together in the order of the
/// instances. A batch of one is its one witness. For any other size a base
/// witness is computed first and shared by all instances. Each witness is
/// one call of the capability; the first call that fails ends the batch
/// with its error. The batch is the same kind of batch for every number of
/// workers.
pub fn expand_batch_split<T, F: Fn() -> Result<T, BuildError>>(
    base_witness_fn: F,
    count: usize,
    workers: usize,
) -> (r: Result<Vec<SameCircuitAssignment<T>>, BuildError>)
    requires
        workers > 0,
        call_requires(base_witness_fn, ()),
    ensures
        match r {
            Ok(batch) => is_batch_of(batch@, base_witness_fn, count as nat),
            Err(e) => call_ensures(base_witness_fn, (), Err(e)),
        },
{
    let first = match base_witness_fn() {
        Ok(w) => w,
        Err(e) => {
            return Err(e);
        },
    };
    if count == 1 {
        let mut batch: Vec<SameCircuitAssignment<T>> = Vec::new();
        batch.push(SameCircuitAssignment::single_one(first));
        return Ok(batch);
    }
    let base = Arc::new(first);
    let bounds = partition(count, workers);
    let mut chunks: Vec<Vec<T>> = Vec::new();
    let mut k: usize = 0;
    while k < bounds.len()
        invariant
            workers > 0,
            call_requires(base_witness_fn, ()),
            k <= bounds@.len(),
            bounds@.len() == chunk_count(count as nat, workers as nat),
            forall|i: int|
                0 <= i < bounds@.len() ==> (#[trigger] bounds@[i]).0 == chunk_start(
                    count as nat,
                    workers as nat,
                    i as nat,
                ) && bounds@[i].1 == chunk_start(count as nat, workers as nat, (i + 1) as nat),
            chunks@.len() == k,
            forall|i: int|
                0 <= i < k ==> (#[trigger] chunks@[i])@.len() == chunk_len(
                    count as nat,
                    workers as nat,
                    i as nat,
                ),
            forall|i: int, j: int|
                0 <= i < k && 0 <= j < chunks@[i]@.len() ==> call_ensures(
                    base_witness_fn,
                    (),
                    Ok(#[trigger] chunks@[i]@[j]),
                ),
        decreases bounds@.len() - k,
    {
        let (start, end) = bounds[k];
        assert(chunk_start(count as nat, workers as nat, (k + 1) as nat) == chunk_start(
            count as nat,
            workers as nat,
            k as nat,
        ) + chunk_len(count as nat, workers as nat, k as nat));
        match generate_chunk(&base_witness_fn, end - start) {
            Ok(chunk) => {
                chunks.push(chunk);
            },
            Err(e) => {
                return Err(e);
            },
        }
        k = k + 1;
    }
    let ghost parts = chunks@.map_values(|c: Vec<T>| c@);
    let all = collect_in_order(chunks);
    proof {
        lemma_chunks_cover(count as nat, workers as nat);
        lemma_concat_chunk_start(parts, count as nat, workers as nat, parts.len());
        assert(parts.take(parts.len() as int) =~= parts);
        assert forall|n: int| 0 <= n < all@.len() implies call_ensures(
            base_witness_fn,
            (),
            Ok(#[trigger] all@[n]),
        ) by {
            lemma_concat_member(parts, n);
            let (i, j) = choose|i: int, j: int|
                0 <= i < parts.len() && 0 <= j < parts[i].len() && #[trigger] parts[i][j]
                    == concat(parts)[n];
            assert(chunks@[i]@[j] == all@[n]);
        }
    }
    let batch = wrap_with_base(base, all);
    proof {
        assert forall|i: int| 0 <= i < batch@.len() implies call_ensures(
            base_witness_fn,
            (),
            Ok((#[trigger] batch@[i]).assignment),
        ) by {
            assert(batch@[i].assignment == all@[i]);
        }
    }
    Ok(batch)
}

/// Computes the witnesses of `count` instances of one circuit with the
/// split for the fixed number of workers.
pub fn expand_batch<T, F: Fn() -> Result<T, BuildError>>(base_witness_fn: F, count: usize) -> (r: Result<
    Vec<SameCircuitAssignment<T>>,
    BuildError,
>)
    requires
        call_requires(base_witness_fn, ()),
    ensures
        match r {
            Ok(batch) => is_batch_of(batch@, base_witness_fn, count as nat),
            Err(e) => call_ensures(base_witness_fn, (), Err(e)),
        },
{
    expand_batch_split(base_witness_fn, count, NUM_PARALLEL_TASKS)
}

/// Item `j` of chunk `i` stands, in the collected list, behind all items of
/// the chunks before `i` and behind the first `j` items of its own chunk.
pub proof fn lemma_concat_index<T>(chunks: Seq<Seq<T>>, i: int, j: int)
    requires
        0 <= i < chunks.len(),
        0 <= j < chunks[i].len(),
    ensures
        concat(chunks.take(i)).len() + chunks[i].len() <= concat(chunks).len(),
        concat(chunks)[concat(chunks.take(i)).len() + j] == chunks[i][j],
    decreases chunks.len(),
{
    let head = chunks.drop_last();
    if i == chunks.len() - 1 {
        assert(chunks.take(i) =~= head);
    } else {
        assert(head.take(i) =~= chunks.take(i));
        lemma_concat_index(head, i, j);
    }
}

/// Where every chunk has the length that the split gives it, the collected
/// list starts chunk `i` at the index at which the split starts it.
pub proof fn lemma_concat_chunk_start<T>(chunks: Seq<Seq<T>>, count: nat, workers: nat, i: nat)
    requires
        i <= chunks.len(),
        forall|k: int|
            0 <= k < chunks.len() ==> (#[trigger] chunks[k]).len() == chunk_len(
                count,
                workers,
                k as nat,
            ),
    ensures
        concat(chunks.take(i as int)).len() == chunk_start(count, workers, i),
    decreases i,
{
    if i > 0 {
        lemma_concat_chunk_start(chunks, count, workers, (i - 1) as nat);
        assert(chunks.take(i as int).drop_last() =~= chunks.take(i - 1));
    }
}

/// The results of a batch that was split over any number of workers come
/// back in the order of the instances: where chunk `i` holds the results of
/// the instances from the split's start of `i` on, the collected list holds
/// the result of instance `n` at index `n`, for all `count` instances.
pub proof fn lemma_collected_in_request_order<T>(
    chunks: Seq<Seq<T>>,
    results: Seq<T>,
    count: nat,
    workers: nat,
)
    requires
        workers > 0,
        results.len() == count,
        chunks.len() == chunk_count(count, workers),
        forall|k: int|
            0 <= k < chunks.len() ==> (#[trigger] chunks[k]).len() == chunk_len(
                count,
                workers,
                k as nat,
            ),
        forall|k: int, j: int|
            0 <= k < chunks.len() && 0 <= j < chunks[k].len() ==> (#[trigger] chunks[k][j])
                == results[chunk_start(count, workers, k as nat) + j],
    ensures
        concat(chunks) == results,
{
    lemma_chunks_cover(count, workers);
    lemma_concat_chunk_start(chunks, count, workers, chunks.len());
    assert(chunks.take(chunks.len() as int) =~= chunks);
    assert forall|n: int| 0 <= n < count implies concat(chunks)[n] == results[n] by {
        let k = choose_chunk(count, workers, n as nat, chunks.len());
        lemma_choose_chunk(count, workers, n as nat, chunks.len());
        lemma_concat_chunk_start(chunks, count, workers, k);
        let j = n - chunk_start(count, workers, k);
        assert(chunk_start(count, workers, k + 1) == chunk_start(count, workers, k) + chunk_len(
            count,
            workers,
            k,
        ));
        lemma_concat_index(chunks, k as int, j);
        assert(chunks[k as int][j] == results[chunk_start(count, workers, k) + j]);
    }
    assert(concat(chunks) =~= results);
}

/// The chunk among the first `k` that holds instance `n`.
spec fn choose_chunk(count: nat, workers: nat, n: nat, k: nat) -> nat
    decreases k,
{
    if k == 0 {
        0
    } else if chunk_start(count, workers, (k - 1) as nat) <= n {
        (k - 1) as nat
    } else {
        choose_chunk(count, workers, n, (k - 1) as nat)
    }
}

proof fn lemma_choose_chunk(count: nat, workers: nat, n: nat, k: nat)
    requires
        n < chunk_start(count, workers, k),
    ensures
        choose_chunk(count, workers, n, k) < k,
        chunk_start(count, workers, choose_chunk(count, workers, n, k)) <= n,
        n < chunk_start(count, workers, choose_chunk(count, workers, n, k) + 1),
    decreases k,
{
    if k > 0 && chunk_start(count, workers, (k - 1) as nat) > n {
        lemma_choose_chunk(count, workers, n, (k - 1) as nat);
    }
}

} // verus!
