use vstd::prelude::*;

verus! {

/// Whole percentage of `total` bytes that `read` bytes make, rounded down.
pub open spec fn percent_of(read: nat, total: nat) -> nat {
    read * 100 / total
}

/// Counts the bytes that an upload body hands out and reports each new
/// whole percentage once.
pub struct ProgressCounter {
    total: usize,
    bytes_read: usize,
    last_percent: u8,
}

proof fn lemma_percent_monotone(a: nat, b: nat, total: nat)
    requires
        total > 0,
        a <= b,
    ensures
        percent_of(a, total) <= percent_of(b, total),
{
    assert(a * 100 <= b * 100) by (nonlinear_arith)
        requires a <= b;
    vstd::arithmetic::div_mod::lemma_div_is_ordered((a * 100) as int, (b * 100) as int, total as int);
}

proof fn lemma_percent_bounds(a: nat, total: nat)
    requires
        total > 0,
        a <= total,
    ensures
        percent_of(a, total) <= 100,
        a == total ==> percent_of(a, total) == 100,
{
    lemma_percent_monotone(a, total, total);
    assert(total * 100 / total == 100) by (nonlinear_arith)
        requires total > 0;
}

/// Bytes handed out by a sequence of reads.
pub open spec fn total_read(reads: Seq<usize>) -> nat
    decreases reads.len(),
{
    if reads.len() == 0 {
        0
    } else {
        total_read(reads.drop_last()) + reads.last() as nat
    }
}

/// The percentages that a counter over `total` bytes reports, in order,
/// when the reads hand out `reads[0]`, `reads[1]`, ... bytes.
pub open spec fn emitted_percents(total: nat, reads: Seq<usize>) -> Seq<u8>
    decreases reads.len(),
{
    if reads.len() == 0 {
        Seq::empty()
    } else {
        let before = emitted_percents(total, reads.drop_last());
        let p = percent_of(total_read(reads), total);
        if p != percent_of(total_read(reads.drop_last()), total) {
            before.push(p as u8)
        } else {
            before
        }
    }
}

proof fn lemma_prefix_read(reads: Seq<usize>, i: int)
    requires
        0 <= i <= reads.len(),
    ensures
        total_read(reads.take(i)) <= total_read(reads),
    decreases reads.len(),
{
    if i < reads.len() {
        assert(reads.drop_last().take(i) == reads.take(i));
        lemma_prefix_read(reads.drop_last(), i);
    } else {
        assert(reads.take(i) == reads);
    }
}

proof fn lemma_emitted(total: nat, reads: Seq<usize>)
    requires
        total > 0,
        total_read(reads) <= total,
    ensures
        forall|i: int, j: int|
            0 <= i < j < emitted_percents(total, reads).len() ==> emitted_percents(total, reads)[i]
                < emitted_percents(total, reads)[j],
        forall|i: int|
            0 <= i < emitted_percents(total, reads).len() ==> 0 < #[trigger] emitted_percents(total, reads)[i]
                <= percent_of(total_read(reads), total),
        percent_of(total_read(reads), total) > 0 ==> emitted_percents(total, reads).len() > 0
            && emitted_percents(total, reads).last() as nat == percent_of(total_read(reads), total),
    decreases reads.len(),
{
    if reads.len() > 0 {
        let prev = reads.drop_last();
        lemma_emitted(total, prev);
        lemma_percent_monotone(total_read(prev), total_read(reads), total);
        lemma_percent_bounds(total_read(reads), total);
        let before = emitted_percents(total, prev);
        let p = percent_of(total_read(reads), total);
        let q = percent_of(total_read(prev), total);
        if p != q {
            let e = before.push(p as u8);
            assert(e == emitted_percents(total, reads));
            assert((p as u8) as nat == p);
            assert forall|i: int, j: int| 0 <= i < j < e.len() implies e[i] < e[j] by {
                if j < before.len() {
                    assert(e[i] == before[i] && e[j] == before[j]);
                } else {
                    assert(e[i] == before[i]);
                }
            }
            assert forall|i: int| 0 <= i < e.len() implies 0 < #[trigger] e[i] <= p by {
                if i < before.len() {
                    assert(e[i] == before[i]);
                }
            }
        } else {
            assert(before == emitted_percents(total, reads));
        }
    }
}

/// Reported percentages of a body read in pieces of any sizes rise strictly,
/// so none repeats, and the last one is 100 once every byte has been read.
pub proof fn law_percentages_rise_to_full(total: nat, reads: Seq<usize>)
    requires
        total > 0,
        total_read(reads) <= total,
    ensures
        forall|i: int, j: int|
            0 <= i < j < emitted_percents(total, reads).len() ==> emitted_percents(total, reads)[i]
                < emitted_percents(total, reads)[j],
        forall|i: int|
            0 <= i < emitted_percents(total, reads).len() ==> 0 < #[trigger] emitted_percents(total, reads)[i] <= 100,
        total_read(reads) == total ==> emitted_percents(total, reads).len() > 0
            && emitted_percents(total, reads).last() == 100,
{
    lemma_emitted(total, reads);
    lemma_percent_bounds(total_read(reads), total);
}

/// Runs a counter over `total` bytes through reads of the given sizes and
/// returns the percentages it reports, in order.
pub fn percentages_for_reads(total: usize, reads: &Vec<usize>) -> (r: Vec<u8>)
    requires
        total > 0,
        total_read(reads@) <= total,
    ensures
        r@ == emitted_percents(total as nat, reads@),
{
    let mut counter = ProgressCounter::new(total);
    let mut out: Vec<u8> = Vec::new();
    let mut i: usize = 0;
    while i < reads.len()
        invariant
            0 <= i <= reads@.len(),
            counter.wf(),
            counter.total() == total,
            counter.bytes_read() == total_read(reads@.take(i as int)),
            total_read(reads@) <= total,
            out@ == emitted_percents(total as nat, reads@.take(i as int)),
        decreases reads@.len() - i,
    {
        proof {
            let next = reads@.take(i + 1);
            assert(next.drop_last() == reads@.take(i as int));
            lemma_prefix_read(reads@, i + 1);
        }
        let step = counter.record(reads[i]);
        if let Some(p) = step {
            out.push(p);
        }
        i = i + 1;
    }
    proof {
        assert(reads@.take(reads@.len() as int) == reads@);
    }
    out
}

impl ProgressCounter {
    pub closed spec fn wf(&self) -> bool {
        &&& self.total > 0
        &&& self.bytes_read <= self.total
        &&& self.last_percent as nat == percent_of(self.bytes_read as nat, self.total as nat)
    }

    pub closed spec fn total(&self) -> nat {
        self.total as nat
    }

    pub closed spec fn bytes_read(&self) -> nat {
        self.bytes_read as nat
    }

    pub closed spec fn last_percent(&self) -> nat {
        self.last_percent as nat
    }

    /// A counter for a body of `total` bytes, none of them read yet.
    pub fn new(total: usize) -> (r: Self)
        requires
            total > 0,
        ensures
            r.wf(),
            r.total() == total,
            r.bytes_read() == 0,
            r.last_percent() == 0,
    {
        ProgressCounter { total, bytes_read: 0, last_percent: 0 }
    }

    /// Records that `n` more bytes were read. Returns the new percentage
    /// when it differs from the last one reported, `None` otherwise.
    pub fn record(&mut self, n: usize) -> (r: Option<u8>)
        requires
            old(self).wf(),
            old(self).bytes_read() + n <= old(self).total(),
        ensures
            final(self).wf(),
            final(self).total() == old(self).total(),
            final(self).bytes_read() == old(self).bytes_read() + n,
            final(self).last_percent() == percent_of(final(self).bytes_read(), final(self).total()),
            old(self).last_percent() <= final(self).last_percent() <= 100,
            r == (if final(self).last_percent() != old(self).last_percent() {
                Some(final(self).last_percent() as u8)
            } else {
                None
            }),
    {
        let read: usize = self.bytes_read + n;
        proof {
            lemma_percent_bounds(read as nat, self.total as nat);
            lemma_percent_monotone(self.bytes_read as nat, read as nat, self.total as nat);
        }
        let wide: u128 = read as u128 * 100;
        let p: u128 = wide / self.total as u128;
        let percent: u8 = p as u8;
        self.bytes_read = read;
        if percent != self.last_percent {
            self.last_percent = percent;
            Some(percent)
        } else {
            None
        }
    }

    pub fn total_bytes(&self) -> (r: usize)
        ensures
            r == self.total(),
    {
        self.total
    }

    pub fn bytes_read_so_far(&self) -> (r: usize)
        ensures
            r == self.bytes_read(),
    {
        self.bytes_read
    }

    pub fn percent(&self) -> (r: u8)
        ensures
            r == self.last_percent(),
    {
        self.last_percent
    }
}

} // verus!
