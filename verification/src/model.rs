//! Mathematical model of the streaming FIR filter.
//!
//! The filter state is modelled by the kernel (a sequence of taps) and the
//! history (the last `order` input samples, most recent first).  Feeding one
//! sample `x` pushes it onto the front of the history, drops the oldest
//! sample, and emits the inner product of the new history with the kernel.

use vstd::prelude::*;

verus! {

/// The sequence of views of the elements of an `i64` sequence as unbounded
/// integers.
pub open spec fn to_ints(s: Seq<i64>) -> Seq<int> {
    Seq::new(s.len(), |i: int| s[i] as int)
}

/// The all-zero sequence of length `n`.
pub open spec fn zeros(n: nat) -> Seq<int> {
    Seq::new(n, |i: int| 0int)
}

/// The inner product of two sequences, taken over the shorter length.
pub open spec fn dot(a: Seq<int>, b: Seq<int>) -> int
    decreases a.len(),
{
    if a.len() == 0 || b.len() == 0 {
        0
    } else {
        a[0] * b[0] + dot(a.drop_first(), b.drop_first())
    }
}

/// The history after one more input sample: the sample is pushed onto the
/// front and the oldest retained sample is dropped.
pub open spec fn step_hist(hist: Seq<int>, x: int) -> Seq<int> {
    seq![x] + hist.drop_last()
}

/// The history after feeding the samples of `xs`, in order, to a filter
/// whose history was `hist`.
pub open spec fn hist_after(hist: Seq<int>, xs: Seq<int>) -> Seq<int>
    decreases xs.len(),
{
    if xs.len() == 0 {
        hist
    } else {
        hist_after(step_hist(hist, xs[0]), xs.drop_first())
    }
}

/// The output samples produced by feeding the samples of `xs`, in order, to
/// a filter with kernel `h` and history `hist`: each input is pushed onto
/// the history and the inner product of the new history with the kernel is
/// emitted.
pub open spec fn outputs(h: Seq<int>, hist: Seq<int>, xs: Seq<int>) -> Seq<int>
    decreases xs.len(),
{
    if xs.len() == 0 {
        Seq::empty()
    } else {
        seq![dot(step_hist(hist, xs[0]), h)]
            + outputs(h, step_hist(hist, xs[0]), xs.drop_first())
    }
}

/// The pointwise linear combination `a*s + b*t`, of the length of `s`.
pub open spec fn lincomb(a: int, s: Seq<int>, b: int, t: Seq<int>) -> Seq<int> {
    Seq::new(s.len(), |i: int| a * s[i] + b * t[i])
}

/// The kernel of length `n` whose only non-zero tap is a `1` in the last
/// position: a pure delay of `n - 1` samples.
pub open spec fn delay_kernel(n: nat) -> Seq<int> {
    Seq::new(n, |i: int| if i == n - 1 { 1int } else { 0int })
}

/// Appending one element to each argument extends the inner product by the
/// product of the two new elements.
pub proof fn lemma_dot_push(a: Seq<int>, b: Seq<int>, x: int, y: int)
    requires
        a.len() == b.len(),
    ensures
        dot(a.push(x), b.push(y)) == dot(a, b) + x * y,
    decreases a.len(),
{
    if a.len() == 0 {
        assert(a.push(x).drop_first() =~= a);
        assert(b.push(y).drop_first() =~= b);
    } else {
        assert(a.push(x).drop_first() =~= a.drop_first().push(x));
        assert(b.push(y).drop_first() =~= b.drop_first().push(y));
        lemma_dot_push(a.drop_first(), b.drop_first(), x, y);
    }
}

/// Feeding one sample keeps the length of a non-empty history.
pub proof fn lemma_hist_after_len(hist: Seq<int>, xs: Seq<int>)
    requires
        hist.len() >= 1,
    ensures
        hist_after(hist, xs).len() == hist.len(),
    decreases xs.len(),
{
    if xs.len() > 0 {
        lemma_hist_after_len(step_hist(hist, xs[0]), xs.drop_first());
    }
}

/// One output sample is emitted for each input sample.
pub proof fn lemma_outputs_len(h: Seq<int>, hist: Seq<int>, xs: Seq<int>)
    ensures
        outputs(h, hist, xs).len() == xs.len(),
    decreases xs.len(),
{
    if xs.len() > 0 {
        lemma_outputs_len(h, step_hist(hist, xs[0]), xs.drop_first());
    }
}

/// Feeding `xs` and then one more sample is one history step after feeding
/// `xs`.
pub proof fn lemma_hist_after_push(hist: Seq<int>, xs: Seq<int>, x: int)
    ensures
        hist_after(hist, xs.push(x)) == step_hist(hist_after(hist, xs), x),
    decreases xs.len(),
{
    let e = xs.push(x);
    if xs.len() == 0 {
        assert(e[0] == x);
        assert(e.drop_first() =~= Seq::<int>::empty());
        assert(hist_after(hist, e) == hist_after(step_hist(hist, x), e.drop_first()));
        assert(hist_after(step_hist(hist, x), Seq::<int>::empty()) == step_hist(hist, x));
    } else {
        assert(e[0] == xs[0]);
        assert(e.drop_first() =~= xs.drop_first().push(x));
        assert(hist_after(hist, e) == hist_after(step_hist(hist, xs[0]), e.drop_first()));
        lemma_hist_after_push(step_hist(hist, xs[0]), xs.drop_first(), x);
        assert(hist_after(hist, xs) == hist_after(step_hist(hist, xs[0]), xs.drop_first()));
    }
}

/// The outputs for `xs` and then one more sample are the outputs for `xs`
/// followed by the response to the new sample.
pub proof fn lemma_outputs_push(h: Seq<int>, hist: Seq<int>, xs: Seq<int>, x: int)
    ensures
        outputs(h, hist, xs.push(x)) == outputs(h, hist, xs).push(
            dot(step_hist(hist_after(hist, xs), x), h),
        ),
    decreases xs.len(),
{
    let e = xs.push(x);
    if xs.len() == 0 {
        assert(e[0] == x);
        assert(e.drop_first() =~= Seq::<int>::empty());
        assert(outputs(h, hist, e) == seq![dot(step_hist(hist, x), h)] + outputs(
            h,
            step_hist(hist, x),
            e.drop_first(),
        ));
        assert(outputs(h, step_hist(hist, x), Seq::<int>::empty()) == Seq::<int>::empty());
        assert(outputs(h, hist, xs) == Seq::<int>::empty());
        assert(hist_after(hist, xs) == hist);
        assert(outputs(h, hist, e) =~= outputs(h, hist, xs).push(
            dot(step_hist(hist_after(hist, xs), x), h),
        ));
    } else {
        let s1 = step_hist(hist, xs[0]);
        assert(e[0] == xs[0]);
        assert(e.drop_first() =~= xs.drop_first().push(x));
        assert(outputs(h, hist, e) == seq![dot(s1, h)] + outputs(h, s1, e.drop_first()));
        lemma_outputs_push(h, s1, xs.drop_first(), x);
        assert(outputs(h, hist, xs) == seq![dot(s1, h)] + outputs(h, s1, xs.drop_first()));
        assert(hist_after(hist, xs) == hist_after(s1, xs.drop_first()));
        assert(outputs(h, hist, e) =~= outputs(h, hist, xs).push(
            dot(step_hist(hist_after(hist, xs), x), h),
        ));
    }
}

} // verus!
