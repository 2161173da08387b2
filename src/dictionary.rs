use vstd::prelude::*;

verus! {

/// Tiles in each chunk but the last, which also takes the remainder.
pub open spec fn chunk_size(unprocessed: nat, workers: nat) -> nat {
    unprocessed / workers
}

/// First tile of chunk `i`.
pub open spec fn chunk_start(i: nat, unprocessed: nat, workers: nat) -> nat {
    i * chunk_size(unprocessed, workers)
}

/// One past the last tile of chunk `i`.
pub open spec fn chunk_end(i: nat, unprocessed: nat, workers: nat) -> nat {
    if i + 1 == workers {
        unprocessed
    } else {
        (i + 1) * chunk_size(unprocessed, workers)
    }
}

proof fn lemma_chunk_ends_ordered(i: nat, j: nat, u: nat, w: nat)
    requires
        w > 0,
        i <= j < w,
    ensures
        chunk_end(i, u, w) <= chunk_end(j, u, w),
        i < j ==> chunk_end(i, u, w) <= chunk_start(j, u, w),
        chunk_start(i, u, w) <= chunk_end(i, u, w),
        chunk_end(i, u, w) <= u,
{
    let c = chunk_size(u, w);
    assert(w * c <= u) by (nonlinear_arith)
        requires c == u / w, w > 0;
    assert((i + 1) * c <= w * c) by (nonlinear_arith)
        requires i + 1 <= w;
    assert((j + 1) * c <= w * c) by (nonlinear_arith)
        requires j + 1 <= w;
    assert(i * c <= (i + 1) * c) by (nonlinear_arith);
    assert((i + 1) * c <= (j + 1) * c) by (nonlinear_arith)
        requires i <= j;
    assert(i < j ==> (i + 1) * c <= j * c) by (nonlinear_arith)
        requires i <= j;
    assert(j * c <= w * c) by (nonlinear_arith)
        requires j <= w;
}

/// Chunk that holds tile `t`.
pub open spec fn owner(t: nat, unprocessed: nat, workers: nat) -> nat {
    let c = chunk_size(unprocessed, workers);
    if c == 0 || t / c >= workers {
        (workers - 1) as nat
    } else {
        t / c
    }
}

/// The chunks of a split tile neighbours: they start at the first tile, each
/// ends where the next begins, and the last ends after the last tile. So each
/// of the tiles lies in exactly one chunk, and each chunk holds the same
/// number but the last, which takes the remainder.
pub proof fn law_chunks_partition(unprocessed: nat, workers: nat, t: nat)
    requires
        workers > 0,
        t < unprocessed,
    ensures
        chunk_start(0, unprocessed, workers) == 0,
        chunk_end((workers - 1) as nat, unprocessed, workers) == unprocessed,
        forall|i: nat| i + 1 < workers ==> #[trigger] chunk_end(i, unprocessed, workers)
            == chunk_start(i + 1, unprocessed, workers),
        forall|i: nat| i + 1 < workers ==> #[trigger] chunk_end(i, unprocessed, workers)
            - chunk_start(i, unprocessed, workers) == chunk_size(unprocessed, workers),
        ({
            let o = owner(t, unprocessed, workers);
            &&& o < workers
            &&& chunk_start(o, unprocessed, workers) <= t < chunk_end(o, unprocessed, workers)
            &&& forall|j: nat|
                j < workers && j != o ==> !(chunk_start(j, unprocessed, workers) <= t
                    < #[trigger] chunk_end(j, unprocessed, workers))
        }),
{
    let u = unprocessed;
    let w = workers;
    let c = chunk_size(u, w);
    assert(0 * c == 0);
    assert forall|i: nat| i + 1 < w implies #[trigger] chunk_end(i, u, w) - chunk_start(i, u, w) == c by {
        assert((i + 1) * c == i * c + c) by (nonlinear_arith);
    }
    let o = owner(t, u, w);
    if c == 0 || t / c >= w {
        if c > 0 {
            assert((w - 1) * c <= t) by (nonlinear_arith)
                requires c > 0, t / c >= w, w > 0;
        } else {
            assert((w - 1) * c == 0) by (nonlinear_arith)
                requires c == 0;
        }
    } else {
        let q = t / c;
        assert(q * c <= t < (q + 1) * c) by (nonlinear_arith)
            requires c > 0, q == t / c;
        lemma_chunk_ends_ordered(q, (w - 1) as nat, u, w);
    }
    lemma_chunk_ends_ordered(o, (w - 1) as nat, u, w);
    assert forall|j: nat|
        j < w && j != o implies !(chunk_start(j, u, w) <= t < #[trigger] chunk_end(j, u, w)) by {
        if j < o {
            lemma_chunk_ends_ordered(j, o, u, w);
        } else {
            lemma_chunk_ends_ordered(o, j, u, w);
        }
    }
}

/// Splits `unprocessed` tiles among `workers` chunks: the `[start, end)`
/// range of tile positions of each chunk, in order.
pub fn chunk_ranges(unprocessed: usize, workers: usize) -> (r: Vec<(usize, usize)>)
    requires
        workers > 0,
    ensures
        r@.len() == workers,
        forall|i: int|
            0 <= i < workers ==> #[trigger] r@[i].0 == chunk_start(i as nat, unprocessed as nat, workers as nat)
                && r@[i].1 == chunk_end(i as nat, unprocessed as nat, workers as nat),
{
    let size: usize = unprocessed / workers;
    let mut out: Vec<(usize, usize)> = Vec::new();
    let mut i: usize = 0;
    while i < workers
        invariant
            i <= workers,
            size == chunk_size(unprocessed as nat, workers as nat),
            out@.len() == i,
            forall|k: int|
                0 <= k < i ==> (#[trigger] out@[k]).0 == chunk_start(k as nat, unprocessed as nat, workers as nat)
                    && out@[k].1 == chunk_end(k as nat, unprocessed as nat, workers as nat),
        decreases workers - i,
    {
        proof {
            lemma_chunk_ends_ordered(i as nat, i as nat, unprocessed as nat, workers as nat);
        }
        let start: usize = i * size;
        let end: usize = if i + 1 == workers {
            unprocessed
        } else {
            (i + 1) * size
        };
        let ghost prev = out@;
        out.push((start, end));
        assert(forall|k: int| 0 <= k < i ==> out@[k] == prev[k]);
        assert(out@[i as int].0 == chunk_start(i as nat, unprocessed as nat, workers as nat));
        assert(out@[i as int].1 == chunk_end(i as nat, unprocessed as nat, workers as nat));
        i = i + 1;
    }
    out
}

/// Positions below `n` of the tiles that reported success, in order.
pub open spec fn successes_below(succeeded: Seq<bool>, n: nat) -> Seq<usize>
    decreases n,
{
    if n == 0 {
        Seq::empty()
    } else if succeeded[n - 1] {
        successes_below(succeeded, (n - 1) as nat).push((n - 1) as usize)
    } else {
        successes_below(succeeded, (n - 1) as nat)
    }
}

proof fn lemma_successes_below(succeeded: Seq<bool>, n: nat)
    requires
        n <= succeeded.len(),
        succeeded.len() <= usize::MAX + 1,
    ensures
        forall|t: int| 0 <= t < n ==> (successes_below(succeeded, n).contains(t as usize) <==> succeeded[t]),
        forall|k: int| 0 <= k < successes_below(succeeded, n).len() ==> #[trigger] successes_below(succeeded, n)[k] < n,
        forall|i: int, j: int|
            0 <= i < j < successes_below(succeeded, n).len() ==> successes_below(succeeded, n)[i]
                < successes_below(succeeded, n)[j],
    decreases n,
{
    if n > 0 {
        let m = (n - 1) as nat;
        lemma_successes_below(succeeded, m);
        let prev = successes_below(succeeded, m);
        let cur = successes_below(succeeded, n);
        if succeeded[m as int] {
            assert(cur == prev.push(m as usize));
            assert forall|t: int| 0 <= t < n implies (cur.contains(t as usize) <==> succeeded[t]) by {
                if t < m {
                    if cur.contains(t as usize) {
                        let k = choose|k: int| 0 <= k < cur.len() && cur[k] == t as usize;
                        if k < prev.len() {
                            assert(prev[k] == cur[k]);
                        }
                    }
                    if prev.contains(t as usize) {
                        let k = choose|k: int| 0 <= k < prev.len() && prev[k] == t as usize;
                        assert(cur[k] == prev[k]);
                    }
                } else {
                    assert(cur[cur.len() - 1] == m as usize);
                }
            }
            assert forall|k: int| 0 <= k < cur.len() implies #[trigger] cur[k] < n by {
                if k < prev.len() {
                    assert(cur[k] == prev[k]);
                }
            }
            assert forall|i: int, j: int| 0 <= i < j < cur.len() implies cur[i] < cur[j] by {
                assert(cur[i] == prev[i]);
                if j < prev.len() {
                    assert(cur[j] == prev[j]);
                }
            }
        } else {
            assert(cur == prev);
            assert forall|t: int| 0 <= t < n implies (cur.contains(t as usize) <==> succeeded[t]) by {
                if t == m && cur.contains(t as usize) {
                    let k = choose|k: int| 0 <= k < cur.len() && cur[k] == t as usize;
                    assert(cur[k] < m);
                }
            }
        }
    }
}

/// Merging the chunks of a split keeps exactly the tiles that reported
/// success, each once.
pub proof fn law_merge_keeps_successes(succeeded: Seq<bool>)
    requires
        succeeded.len() <= usize::MAX,
    ensures
        forall|t: int|
            0 <= t < succeeded.len() ==> (successes_below(succeeded, succeeded.len()).contains(t as usize)
                <==> succeeded[t]),
        forall|i: int, j: int|
            0 <= i < j < successes_below(succeeded, succeeded.len()).len() ==> successes_below(
                succeeded,
                succeeded.len(),
            )[i] != successes_below(succeeded, succeeded.len())[j],
{
    lemma_successes_below(succeeded, succeeded.len());
}

/// Merges the chunks of a split of `succeeded.len()` tiles among `workers`,
/// chunk after chunk: the positions of the tiles that reported success.
pub fn merge_chunks(workers: usize, succeeded: &Vec<bool>) -> (r: Vec<usize>)
    requires
        workers > 0,
    ensures
        r@ == successes_below(succeeded@, succeeded@.len()),
{
    let n = succeeded.len();
    let ranges = chunk_ranges(n, workers);
    let mut out: Vec<usize> = Vec::new();
    let mut c: usize = 0;
    let mut pos: usize = 0;
    while c < workers
        invariant
            n == succeeded@.len(),
            ranges@.len() == workers,
            forall|i: int|
                0 <= i < workers ==> (#[trigger] ranges@[i]).0 == chunk_start(i as nat, n as nat, workers as nat)
                    && ranges@[i].1 == chunk_end(i as nat, n as nat, workers as nat),
            c <= workers,
            c == 0 ==> pos == 0,
            0 < c ==> pos == chunk_end((c - 1) as nat, n as nat, workers as nat),
            c == workers ==> pos == n,
            pos <= n,
            out@ == successes_below(succeeded@, pos as nat),
        decreases workers - c,
    {
        proof {
            lemma_chunk_ends_ordered(c as nat, c as nat, n as nat, workers as nat);
            assert(0 * chunk_size(n as nat, workers as nat) == 0);
            if c > 0 {
                assert(chunk_end((c - 1) as nat, n as nat, workers as nat) == chunk_start(c as nat, n as nat, workers as nat));
            }
        }
        let (start, end) = ranges[c];
        let mut t: usize = start;
        while t < end
            invariant
                n == succeeded@.len(),
                start == pos,
                pos <= t <= end,
                end <= n,
                out@ == successes_below(succeeded@, t as nat),
            decreases end - t,
        {
            if succeeded[t] {
                out.push(t);
            }
            t = t + 1;
        }
        pos = end;
        c = c + 1;
    }
    out
}

} // verus!
