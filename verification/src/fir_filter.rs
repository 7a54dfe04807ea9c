//! The streaming FIR filter: kernel, circular history and the in-place
//! block convolution.
//!
//! The history of the last `order` samples is kept in a buffer of length
//! `2 * order` in which every sample is stored twice, at `i` and at
//! `i + order`.  The double write lets each output be computed as the inner
//! product of the kernel with one contiguous window of the buffer, with no
//! wrapping arithmetic inside the hot loop.  The write cursor moves
//! backward through the buffer, so the window always holds the most recent
//! samples first, in the order the kernel taps expect.

use crate::model::{dot, hist_after, outputs, step_hist, to_ints, zeros};
use crate::model::{lemma_dot_push, lemma_hist_after_push, lemma_outputs_push};
use vstd::prelude::*;

verus! {

/// Largest magnitude allowed of one sample or one kernel tap.  With the
/// order capped at [`MAX_ORDER`], every inner product then fits in an `i64`
/// with room to spare.
pub const SAMPLE_BOUND: i64 = 1048576;

/// Largest supported filter order (number of kernel taps).
pub const MAX_ORDER: usize = 1048576;

/// A single-channel FIR filter of fixed order with streaming state.
pub struct FirFilter {
    /// Number of taps; also the length of the history window.
    order: usize,
    /// Index of the next history slot to overwrite; moves backward.
    z_ptr: usize,
    /// The kernel: `order` taps, most recent tap first.
    h: Vec<i64>,
    /// The history buffer: `2 * order` slots, each sample stored at `i` and
    /// at `i + order`.
    z: Vec<i64>,
}

impl FirFilter {
    /// The filter order: the number of kernel taps.
    pub closed spec fn order_spec(self) -> nat {
        self.order as nat
    }

    /// The write cursor: the history slot the next sample is written to.
    pub closed spec fn cursor(self) -> nat {
        self.z_ptr as nat
    }

    /// The kernel taps as unbounded integers.
    pub closed spec fn kernel(self) -> Seq<int> {
        to_ints(self.h@)
    }

    /// The last `order` input samples, most recent first; zero where fewer
    /// samples have been fed than the window holds.
    pub closed spec fn history(self) -> Seq<int> {
        to_ints(self.z@.subrange(self.z_ptr as int + 1, self.z_ptr as int + 1 + self.order as int))
    }

    /// Well-formedness: buffers are sized to the order, the cursor is in
    /// range, the two halves of the history buffer mirror each other, and
    /// every stored value is within [`SAMPLE_BOUND`].
    pub closed spec fn wf(self) -> bool {
        &&& 1 <= self.order <= MAX_ORDER
        &&& self.h@.len() == self.order
        &&& self.z@.len() == 2 * self.order
        &&& self.z_ptr < self.order
        &&& forall|i: int|
            0 <= i < self.order ==> #[trigger] self.z@[i] == self.z@[i + self.order as int]
        &&& forall|i: int|
            0 <= i < self.h@.len() ==> -SAMPLE_BOUND <= #[trigger] self.h@[i] <= SAMPLE_BOUND
        &&& forall|i: int|
            0 <= i < self.z@.len() ==> -SAMPLE_BOUND <= #[trigger] self.z@[i] <= SAMPLE_BOUND
    }

    /// The filter order, as configured at construction.
    pub fn order(&self) -> (r: usize)
        ensures
            r == self.order_spec(),
    {
        self.order
    }

    /// Creates a configured filter of the given order: kernel and history
    /// are zero-filled and the write cursor starts at slot 0.
    pub fn new(order: usize) -> (r: FirFilter)
        requires
            1 <= order <= MAX_ORDER,
        ensures
            r.wf(),
            r.order_spec() == order,
            r.kernel() == zeros(order as nat),
            r.history() == zeros(order as nat),
            r.cursor() == 0,
    {
        let h = zero_vec(order);
        let z = zero_vec(2 * order);
        let r = FirFilter { order, z_ptr: 0, h, z };
        proof {
            assert(r.kernel() =~= zeros(order as nat));
            assert(r.history() =~= zeros(order as nat));
        }
        r
    }

    /// Zero-fills the kernel and the history and rewinds the write cursor,
    /// clearing all state carried from earlier blocks.  The order is kept.
    pub fn reset(&mut self)
        requires
            old(self).wf(),
        ensures
            final(self).wf(),
            final(self).order_spec() == old(self).order_spec(),
            final(self).kernel() == zeros(old(self).order_spec()),
            final(self).history() == zeros(old(self).order_spec()),
            final(self).cursor() == 0,
    {
        self.h = zero_vec(self.order);
        self.z = zero_vec(2 * self.order);
        self.z_ptr = 0;
        proof {
            assert(self.kernel() =~= zeros(self.order as nat));
            assert(self.history() =~= zeros(self.order as nat));
        }
    }

    /// Replaces the kernel wholesale with the taps of `ir`, whose length
    /// must equal the order.  The history and the write cursor are left
    /// untouched, so a kernel can be swapped mid-stream without a
    /// discontinuity in the delay line.
    pub fn load_ir(&mut self, ir: &Vec<i64>)
        requires
            old(self).wf(),
            ir@.len() == old(self).order_spec(),
            forall|i: int| 0 <= i < ir@.len() ==> -SAMPLE_BOUND <= #[trigger] ir@[i] <= SAMPLE_BOUND,
        ensures
            final(self).wf(),
            final(self).order_spec() == old(self).order_spec(),
            final(self).kernel() == to_ints(ir@),
            final(self).history() == old(self).history(),
            final(self).cursor() == old(self).cursor(),
    {
        let n = ir.len();
        let mut nh: Vec<i64> = Vec::new();
        let mut i: usize = 0;
        while i < n
            invariant
                i <= n,
                n == ir@.len(),
                nh@ =~= ir@.subrange(0, i as int),
            decreases n - i,
        {
            nh.push(ir[i]);
            i = i + 1;
        }
        self.h = nh;
        proof {
            assert(self.h@ =~= ir@);
            assert(self.kernel() =~= to_ints(ir@));
        }
    }

    /// Filters the block in place: each sample is replaced, in order, by
    /// the inner product of the kernel with the history window ending at
    /// that sample.  The history carries over from and to neighbouring
    /// calls, so chunking a stream into blocks does not change the output.
    pub fn process_block(&mut self, block: &mut Vec<i64>)
        requires
            old(self).wf(),
            forall|i: int|
                0 <= i < old(block)@.len()
                    ==> -SAMPLE_BOUND <= #[trigger] old(block)@[i] <= SAMPLE_BOUND,
        ensures
            final(self).wf(),
            final(self).order_spec() == old(self).order_spec(),
            final(self).kernel() == old(self).kernel(),
            final(self).history() == hist_after(
                old(self).history(),
                to_ints(old(block)@),
            ),
            final(block)@.len() == old(block)@.len(),
            to_ints(final(block)@) == outputs(
                old(self).kernel(),
                old(self).history(),
                to_ints(old(block)@),
            ),
    {
        let n = block.len();
        let mut j: usize = 0;
        while j < n
            invariant
                j <= n,
                n == block@.len(),
                block@.len() == old(block)@.len(),
                forall|i: int|
                    0 <= i < old(block)@.len()
                        ==> -SAMPLE_BOUND <= #[trigger] old(block)@[i] <= SAMPLE_BOUND,
                forall|i: int| j <= i < n ==> block@[i] == old(block)@[i],
                self.wf(),
                self.order_spec() == old(self).order_spec(),
                self.kernel() == old(self).kernel(),
                self.history() == hist_after(
                    old(self).history(),
                    to_ints(old(block)@).take(j as int),
                ),
                to_ints(block@).take(j as int) == outputs(
                    old(self).kernel(),
                    old(self).history(),
                    to_ints(old(block)@).take(j as int),
                ),
            decreases n - j,
        {
            let ghost pre = *self;
            let ghost xs_done = to_ints(old(block)@).take(j as int);
            let x = block[j];
            let c = self.z_ptr;

            // The double write: the sample lands in both halves of the
            // history buffer, so the window starting at the cursor is the
            // new history, contiguous and most recent first.
            self.z[c] = x;
            self.z[c + self.order] = x;

            proof {
                assert(to_ints(self.z@.subrange(c as int, c as int + self.order as int))
                    =~= step_hist(pre.history(), x as int));
            }

            let y = inner_product(&self.z, c, &self.h);

            // Move the cursor backward with wraparound: the next sample
            // must become the new front of the window.
            self.z_ptr = if c == 0 {
                self.order - 1
            } else {
                c - 1
            };

            proof {
                if c == 0 {
                    assert(self.history() =~= to_ints(
                        self.z@.subrange(c as int, c as int + self.order as int),
                    ));
                } else {
                    assert(self.history() =~= to_ints(
                        self.z@.subrange(c as int, c as int + self.order as int),
                    ));
                }
                assert(self.kernel() =~= pre.kernel());
                lemma_hist_after_push(old(self).history(), xs_done, x as int);
                lemma_outputs_push(old(self).kernel(), old(self).history(), xs_done, x as int);
                assert(to_ints(old(block)@).take(j as int + 1) =~= xs_done.push(x as int));
            }

            block[j] = y;
            j = j + 1;

            proof {
                assert(to_ints(block@).take(j as int) =~= to_ints(block@).take(j as int - 1).push(
                    y as int,
                ));
                assert(to_ints(block@).take(j as int - 1) =~= outputs(
                    old(self).kernel(),
                    old(self).history(),
                    xs_done,
                ));
            }
        }
        proof {
            assert(to_ints(old(block)@).take(n as int) =~= to_ints(old(block)@));
            assert(to_ints(block@).take(n as int) =~= to_ints(block@));
        }
    }
}

/// A zero-filled vector of the given length.
fn zero_vec(n: usize) -> (v: Vec<i64>)
    ensures
        v@.len() == n,
        forall|i: int| 0 <= i < n ==> v@[i] == 0i64,
{
    let mut v: Vec<i64> = Vec::new();
    let mut i: usize = 0;
    while i < n
        invariant
            i <= n,
            v@.len() == i,
            forall|k: int| 0 <= k < i ==> v@[k] == 0i64,
        decreases n - i,
    {
        v.push(0);
        i = i + 1;
    }
    v
}

/// The inner product of the window of `z` of the kernel's length starting
/// at `start` with the kernel `h`, as one ordered left-to-right sum.
fn inner_product(z: &Vec<i64>, start: usize, h: &Vec<i64>) -> (r: i64)
    requires
        start + h@.len() <= z@.len(),
        h@.len() <= MAX_ORDER,
        forall|i: int| 0 <= i < h@.len() ==> -SAMPLE_BOUND <= #[trigger] h@[i] <= SAMPLE_BOUND,
        forall|i: int| 0 <= i < z@.len() ==> -SAMPLE_BOUND <= #[trigger] z@[i] <= SAMPLE_BOUND,
    ensures
        r as int == dot(
            to_ints(z@.subrange(start as int, start as int + h@.len())),
            to_ints(h@),
        ),
{
    let ghost w = to_ints(z@.subrange(start as int, start as int + h@.len()));
    let ghost ks = to_ints(h@);
    let n = h.len();
    let zlen = z.len();
    let mut result: i64 = 0;
    let mut i: usize = 0;
    while i < n
        invariant
            i <= n,
            n == h@.len(),
            zlen == z@.len(),
            start + n <= zlen,
            n <= MAX_ORDER,
            forall|k: int| 0 <= k < h@.len() ==> -SAMPLE_BOUND <= #[trigger] h@[k] <= SAMPLE_BOUND,
            forall|k: int| 0 <= k < z@.len() ==> -SAMPLE_BOUND <= #[trigger] z@[k] <= SAMPLE_BOUND,
            w == to_ints(z@.subrange(start as int, start as int + h@.len())),
            ks == to_ints(h@),
            result as int == dot(w.take(i as int), ks.take(i as int)),
            -(i as int) * (SAMPLE_BOUND as int) * (SAMPLE_BOUND as int) <= result as int
                <= (i as int) * (SAMPLE_BOUND as int) * (SAMPLE_BOUND as int),
        decreases n - i,
    {
        proof {
            let b = SAMPLE_BOUND as int;
            assert(z@[start as int + i as int] * h@[i as int] <= b * b
                && -(b * b) <= z@[start as int + i as int] * h@[i as int]) by (nonlinear_arith)
                requires
                    -b <= z@[start as int + i as int] <= b,
                    -b <= h@[i as int] <= b,
                    b > 0,
            ;
            assert((i as int) * b * b <= (MAX_ORDER as int) * b * b
                && -((MAX_ORDER as int) * b * b) <= -((i as int) * b * b)) by (nonlinear_arith)
                requires
                    0 <= i as int <= MAX_ORDER as int,
                    b > 0,
            ;
            assert(w.take(i as int + 1) =~= w.take(i as int).push(w[i as int]));
            assert(ks.take(i as int + 1) =~= ks.take(i as int).push(ks[i as int]));
            lemma_dot_push(w.take(i as int), ks.take(i as int), w[i as int], ks[i as int]);
            assert((i as int + 1) * b * b == (i as int) * b * b + b * b) by (nonlinear_arith);
        }
        let p = z[start + i] * h[i];
        result = result + p;
        i = i + 1;
    }
    proof {
        assert(w.take(n as int) =~= w);
        assert(ks.take(n as int) =~= ks);
    }
    result
}

} // verus!
