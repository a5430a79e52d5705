//! Scheduling of the full-resolution render pass: the pixel index space is
//! split into one contiguous chunk per worker, each worker shades its chunk
//! independently, and the chunks are joined in worker order.  The lemmas here
//! state that the chunks tile the index space and that the join rebuilds the
//! full per-pixel sequence whatever the worker count — the schedule cannot
//! change what is rendered.

use vstd::prelude::*;

verus! {

use vstd::arithmetic::div_mod::{
    lemma_fundamental_div_mod,
    lemma_mod_bound,
    lemma_multiply_divide_lt,
    lemma_div_pos_is_pos,
};
use vstd::arithmetic::mul::{lemma_mul_by_zero_is_zero, lemma_mul_is_commutative};
use crate::table::{coord_of_index, Table};

/// Number of pixels handed to each worker but possibly the last: the total
/// divided by the worker count, rounded up.
pub open spec fn per_worker(total: int, workers: int) -> int
    recommends
        workers > 0,
{
    if total % workers > 0 {
        total / workers + 1
    } else {
        total / workers
    }
}

/// First pixel index of the chunk of worker `i`.
pub open spec fn chunk_start(total: int, workers: int, i: int) -> int {
    let raw = i * per_worker(total, workers);
    if raw < total {
        raw
    } else {
        total
    }
}

/// One past the last pixel index of the chunk of worker `i`.
pub open spec fn chunk_end(total: int, workers: int, i: int) -> int {
    let raw = (i + 1) * per_worker(total, workers);
    if raw < total {
        raw
    } else {
        total
    }
}

/// Chunk size of every worker but possibly the last.
pub fn pixels_per_worker(total: usize, workers: usize) -> (count: usize)
    requires
        workers > 0,
    ensures
        count as int == per_worker(total as int, workers as int),
{
    if total % workers > 0 {
        proof {
            assert((total as int) / (workers as int) < total as int) by (nonlinear_arith)
                requires
                    workers > 0,
                    (total as int) % (workers as int) > 0,
            ;
        }
        total / workers + 1
    } else {
        total / workers
    }
}

/// The half-open pixel range `[start, end)` that worker `worker_index` shades.
pub fn chunk_bounds(total: usize, workers: usize, worker_index: usize) -> (bounds: (usize, usize))
    requires
        workers > 0,
        worker_index < workers,
    ensures
        bounds.0 as int == chunk_start(total as int, workers as int, worker_index as int),
        bounds.1 as int == chunk_end(total as int, workers as int, worker_index as int),
        bounds.0 <= bounds.1 <= total,
{
    let per = pixels_per_worker(total, workers);
    let start = match worker_index.checked_mul(per) {
        Some(raw) => if raw < total {
            raw
        } else {
            total
        },
        None => total,
    };
    let end = match (worker_index + 1).checked_mul(per) {
        Some(raw) => if raw < total {
            raw
        } else {
            total
        },
        None => total,
    };
    proof {
        assert((worker_index as int) * (per as int) <= (worker_index as int + 1) * (per as int))
            by (nonlinear_arith)
            requires
                per as int >= 0,
                worker_index as int >= 0,
        ;
    }
    (start, end)
}

/// The views of a list of worker results, one sequence per worker.
pub open spec fn views_of<T>(chunks: Seq<Vec<T>>) -> Seq<Seq<T>> {
    chunks.map_values(|chunk: Vec<T>| chunk@)
}

/// Copies the per-worker results into the framebuffer, in worker order and
/// row-major pixel order: afterwards the grid holds exactly the concatenation
/// of the chunks.
#[verifier::loop_isolation(false)]
pub fn join_chunks<T: Copy>(table: &mut Table<T>, chunks: &Vec<Vec<T>>)
    requires
        old(table).wf(),
        views_of(chunks@).flatten().len() == old(table)@.len(),
    ensures
        final(table).wf(),
        final(table).width() == old(table).width(),
        final(table).height() == old(table).height(),
        final(table)@ == views_of(chunks@).flatten(),
{
    let ghost all = views_of(chunks@);
    proof {
        assert(all.skip(0) =~= all);
        assert(all.take(0) =~= Seq::<Seq<T>>::empty());
    }
    let mut written: usize = 0;
    let mut c: usize = 0;
    while c < chunks.len()
        invariant
            c <= chunks.len(),
            table.wf(),
            table.width() == old(table).width(),
            table.height() == old(table).height(),
            table@.len() == old(table)@.len(),
            written <= table@.len(),
            written == all.take(c as int).flatten().len(),
            all.skip(c as int).flatten().len() == table@.len() - written,
            table@ == all.take(c as int).flatten() + old(table)@.skip(written as int),
        decreases chunks.len() - c,
    {
        proof {
            let s = all.skip(c as int);
            assert(s.first() == chunks@[c as int]@);
            assert(s.drop_first() =~= all.skip(c as int + 1));
            assert(s.flatten() == s.first() + s.drop_first().flatten());
        }
        let ghost written0 = written;
        let chunk = &chunks[c];
        let mut j: usize = 0;
        while j < chunk.len()
            invariant
                j <= chunk@.len(),
                written == written0 + j,
                written <= table@.len(),
                table.wf(),
                table.width() == old(table).width(),
                table.height() == old(table).height(),
                table@.len() == old(table)@.len(),
                table@ == all.take(c as int).flatten() + chunk@.take(j as int) + old(
                    table,
                )@.skip(written as int),
            decreases chunk@.len() - j,
        {
            let width = table.get_dimensions().0;
            proof {
                assert(table@.len() > 0);
                assert(width > 0) by (nonlinear_arith)
                    requires
                        (table.width() as int) * (table.height() as int) > 0,
                        width == table.width(),
                ;
            }
            let index = coord_of_index(written, width);
            proof {
                lemma_multiply_divide_lt(written as int, width as int, table.height() as int);
            }
            let value = chunk[j];
            table.set(index, value);
            proof {
                assert(table@ =~= all.take(c as int).flatten() + chunk@.take(j as int + 1) + old(
                    table,
                )@.skip(written as int + 1));
            }
            written = written + 1;
            j = j + 1;
        }
        proof {
            assert(all.take(c as int + 1) =~= all.take(c as int).push(all[c as int]));
            all.take(c as int).lemma_flatten_push(all[c as int]);
            assert(chunk@.take(chunk@.len() as int) =~= chunk@);
            assert(table@ == all.take(c as int + 1).flatten() + old(table)@.skip(written as int));
        }
        c = c + 1;
    }
    proof {
        assert(all.skip(c as int) =~= Seq::<Seq<T>>::empty());
        assert(written == table@.len());
        assert(all.take(c as int) =~= all);
        assert(old(table)@.skip(written as int) =~= Seq::<T>::empty());
        assert(table@ =~= all.flatten());
    }
}

/// The worker count covers the whole index space: `workers` chunks of the
/// rounded-up size reach at least `total`.
proof fn lemma_chunks_reach_total(total: int, workers: int)
    requires
        workers > 0,
        total >= 0,
    ensures
        workers * per_worker(total, workers) >= total,
{
    let per = per_worker(total, workers);
    lemma_fundamental_div_mod(total, workers);
    lemma_mod_bound(total, workers);
    if total % workers > 0 {
        assert(workers * per == workers * (total / workers) + workers) by (nonlinear_arith)
            requires
                per == total / workers + 1,
        ;
    }
}

/// The chunks tile the pixel index space: worker 0 starts at pixel 0, each
/// chunk ends exactly where the next begins, and the last chunk ends at
/// `total`.
pub proof fn lemma_chunks_partition(total: int, workers: int, i: int)
    requires
        workers > 0,
        total >= 0,
        0 <= i < workers,
    ensures
        chunk_start(total, workers, 0) == 0,
        chunk_start(total, workers, i) <= chunk_end(total, workers, i) <= total,
        i + 1 < workers ==> chunk_end(total, workers, i) == chunk_start(total, workers, i + 1),
        chunk_end(total, workers, workers - 1) == total,
{
    let per = per_worker(total, workers);
    lemma_div_pos_is_pos(total, workers);
    lemma_mul_by_zero_is_zero(per);
    assert(i * per <= (i + 1) * per) by (nonlinear_arith)
        requires
            per >= 0,
            i >= 0,
    ;
    lemma_chunks_reach_total(total, workers);
}

/// Every pixel index below `total` lies in the chunk of exactly one worker:
/// the worker at index `p / per_worker(total, workers)`.
pub proof fn lemma_pixel_chunk(total: int, workers: int, p: int)
    requires
        workers > 0,
        0 <= p < total,
    ensures
        ({
            let i = p / per_worker(total, workers);
            &&& 0 <= i < workers
            &&& chunk_start(total, workers, i) <= p < chunk_end(total, workers, i)
        }),
{
    let per = per_worker(total, workers);
    lemma_div_pos_is_pos(total, workers);
    assert(per > 0) by {
        if total % workers == 0 {
            lemma_fundamental_div_mod(total, workers);
            assert(total / workers > 0) by (nonlinear_arith)
                requires
                    workers > 0,
                    total > 0,
                    total == workers * (total / workers),
                    total / workers >= 0,
            ;
        }
    }
    let i = p / per;
    lemma_div_pos_is_pos(p, per);
    lemma_fundamental_div_mod(p, per);
    lemma_mod_bound(p, per);
    assert(i * per <= p < (i + 1) * per) by (nonlinear_arith)
        requires
            per > 0,
            p == per * i + p % per,
            0 <= p % per < per,
    ;
    lemma_chunks_reach_total(total, workers);
    assert(p < workers * per);
    lemma_mul_is_commutative(workers, per);
    lemma_multiply_divide_lt(p, per, workers);
}

/// Joining the per-worker chunks in worker order rebuilds the full pixel
/// sequence.  Together with [`lemma_chunks_partition`] this says the parallel
/// schedule is invisible in the result: for any worker count, a pass whose
/// worker `i` returns exactly the slice `[chunk_start(i), chunk_end(i))` of
/// some full per-pixel sequence assembles to that same sequence.
pub proof fn lemma_chunks_join<T>(total: int, workers: int, chunks: Seq<Seq<T>>, full: Seq<T>)
    requires
        workers > 0,
        total >= 0,
        full.len() == total,
        chunks.len() == workers,
        forall|i: int|
            0 <= i < workers ==> chunks[i] == full.subrange(
                chunk_start(total, workers, i),
                chunk_end(total, workers, i),
            ),
    ensures
        chunks.flatten() == full,
{
    lemma_chunks_join_prefix(total, workers, chunks, full, workers);
    lemma_chunks_partition(total, workers, workers - 1);
    assert(chunks.take(workers) =~= chunks);
    assert(full.subrange(0, total) =~= full);
}

/// The schedule is invisible in the rendered result: if a pass shades pixel
/// `p` to `shade(p)` and each worker returns the shades of its own chunk in
/// order, the joined chunks are the same full per-pixel sequence for every
/// worker count.
pub proof fn lemma_schedule_deterministic<T>(
    total: int,
    workers: int,
    chunks: Seq<Seq<T>>,
    shade: spec_fn(int) -> T,
)
    requires
        workers > 0,
        total >= 0,
        chunks.len() == workers,
        forall|i: int|
            0 <= i < workers ==> chunks[i] == Seq::new(
                (chunk_end(total, workers, i) - chunk_start(total, workers, i)) as nat,
                |j: int| shade(chunk_start(total, workers, i) + j),
            ),
    ensures
        chunks.flatten() == Seq::new(total as nat, |p: int| shade(p)),
{
    let full = Seq::new(total as nat, |p: int| shade(p));
    assert forall|i: int| 0 <= i < workers implies chunks[i] == full.subrange(
        chunk_start(total, workers, i),
        chunk_end(total, workers, i),
    ) by {
        lemma_chunks_partition(total, workers, i);
        assert(chunks[i] =~= full.subrange(
            chunk_start(total, workers, i),
            chunk_end(total, workers, i),
        ));
    }
    lemma_chunks_join(total, workers, chunks, full);
}

/// The first `k` chunks joined in order are exactly the pixels before the end
/// of chunk `k - 1`.
proof fn lemma_chunks_join_prefix<T>(
    total: int,
    workers: int,
    chunks: Seq<Seq<T>>,
    full: Seq<T>,
    k: int,
)
    requires
        workers > 0,
        total >= 0,
        full.len() == total,
        chunks.len() == workers,
        0 <= k <= workers,
        forall|i: int|
            0 <= i < workers ==> chunks[i] == full.subrange(
                chunk_start(total, workers, i),
                chunk_end(total, workers, i),
            ),
    ensures
        chunks.take(k).flatten() == full.subrange(
            0,
            if k == 0 {
                0
            } else {
                chunk_end(total, workers, k - 1)
            },
        ),
    decreases k,
{
    if k == 0 {
        assert(chunks.take(0) =~= Seq::<Seq<T>>::empty());
        assert(chunks.take(0).flatten() =~= full.subrange(0, 0));
    } else {
        lemma_chunks_join_prefix(total, workers, chunks, full, k - 1);
        lemma_chunks_partition(total, workers, k - 1);
        let prev_end = if k == 1 {
            0int
        } else {
            chunk_end(total, workers, k - 2)
        };
        let end = chunk_end(total, workers, k - 1);
        if k >= 2 {
            lemma_chunks_partition(total, workers, k - 2);
        }
        assert(prev_end == chunk_start(total, workers, k - 1));
        assert(chunks.take(k) =~= chunks.take(k - 1).push(chunks[k - 1]));
        chunks.take(k - 1).lemma_flatten_push(chunks[k - 1]);
        assert(full.subrange(0, prev_end) + full.subrange(prev_end, end) =~= full.subrange(0, end));
        assert(chunks.take(k).flatten() =~= full.subrange(0, end));
    }
}

} // verus!
