//! Proved laws of the filter model: the classical FIR identities, stated
//! over the model in [`crate::model`] that every contract of
//! [`crate::FirFilter`] speaks in.

use crate::model::{delay_kernel, dot, hist_after, lincomb, outputs, step_hist, zeros};
use crate::model::{lemma_hist_after_len, lemma_hist_after_push, lemma_outputs_len};
use vstd::prelude::*;

verus! {

/// Indexing law: the `i`-th output is the inner product of the kernel with
/// the history reached after the first `i + 1` inputs.
pub proof fn lemma_outputs_index(h: Seq<int>, hist: Seq<int>, xs: Seq<int>, i: int)
    requires
        0 <= i < xs.len(),
    ensures
        outputs(h, hist, xs)[i] == dot(hist_after(hist, xs.take(i + 1)), h),
    decreases i,
{
    let s1 = step_hist(hist, xs[0]);
    assert(outputs(h, hist, xs) == seq![dot(s1, h)] + outputs(h, s1, xs.drop_first()));
    let t = xs.take(i + 1);
    assert(t[0] == xs[0]);
    assert(hist_after(hist, t) == hist_after(step_hist(hist, t[0]), t.drop_first()));
    if i == 0 {
        assert(t.drop_first() =~= Seq::<int>::empty());
        assert(hist_after(s1, t.drop_first()) == s1);
        assert(outputs(h, hist, xs)[0] == dot(s1, h));
    } else {
        lemma_outputs_index(h, s1, xs.drop_first(), i - 1);
        lemma_outputs_len(h, s1, xs.drop_first());
        assert(outputs(h, hist, xs)[i] == outputs(h, s1, xs.drop_first())[i - 1]);
        assert(t.drop_first() =~= xs.drop_first().take(i));
    }
}

/// The inner product with an all-zero sequence is zero.
pub proof fn lemma_dot_zeros(n: nat, h: Seq<int>)
    ensures
        dot(zeros(n), h) == 0,
    decreases n,
{
    if n > 0 && h.len() > 0 {
        assert(zeros(n).drop_first() =~= zeros((n - 1) as nat));
        lemma_dot_zeros((n - 1) as nat, h.drop_first());
        assert(dot(zeros(n), h) == zeros(n)[0] * h[0] + dot(
            zeros(n).drop_first(),
            h.drop_first(),
        ));
        assert(zeros(n)[0] * h[0] == 0) by (nonlinear_arith)
            requires
                zeros(n)[0] == 0,
        ;
    }
}

/// Identity kernel: with the single-tap kernel `[1]` the filter is the
/// identity, whatever its history: every block passes through unchanged.
pub proof fn lemma_identity_kernel(hist: Seq<int>, xs: Seq<int>)
    requires
        hist.len() == 1,
    ensures
        outputs(seq![1int], hist, xs) == xs,
    decreases xs.len(),
{
    let k = seq![1int];
    if xs.len() == 0 {
        assert(outputs(k, hist, xs) =~= xs);
    } else {
        let w = step_hist(hist, xs[0]);
        assert(w =~= seq![xs[0]]);
        assert(w.drop_first() =~= Seq::<int>::empty());
        assert(dot(w, k) == w[0] * k[0] + dot(w.drop_first(), k.drop_first()));
        assert(dot(w.drop_first(), k.drop_first()) == 0);
        lemma_identity_kernel(w, xs.drop_first());
        assert(outputs(k, hist, xs) == seq![dot(w, k)] + outputs(k, w, xs.drop_first()));
        assert(w[0] * k[0] == xs[0]) by (nonlinear_arith)
            requires
                k[0] == 1,
                w[0] == xs[0],
        ;
        assert(dot(w, k) == xs[0]);
        assert(outputs(k, hist, xs) == seq![xs[0]] + xs.drop_first());
        assert(seq![xs[0]] + xs.drop_first() =~= xs);
    }
}

/// The inner product with the pure-delay kernel picks out the oldest
/// sample of the window.
pub proof fn lemma_dot_delay(w: Seq<int>, n: nat)
    requires
        n >= 1,
        w.len() == n,
    ensures
        dot(w, delay_kernel(n)) == w[n - 1],
    decreases n,
{
    let k = delay_kernel(n);
    assert(dot(w, k) == w[0] * k[0] + dot(w.drop_first(), k.drop_first()));
    if n == 1 {
        assert(w.drop_first().len() == 0);
        assert(w[0] * k[0] == w[0]) by (nonlinear_arith)
            requires
                k[0] == 1,
        ;
    } else {
        assert(k.drop_first() =~= delay_kernel((n - 1) as nat));
        lemma_dot_delay(w.drop_first(), (n - 1) as nat);
        assert(w[0] * k[0] == 0) by (nonlinear_arith)
            requires
                k[0] == 0,
        ;
        assert(w.drop_first()[n - 2] == w[n - 1]);
    }
}

/// From a zero history, slot `k` of the history holds the input fed
/// `k` steps before the latest one, and zero while no such input exists.
pub proof fn lemma_hist_from_zero(n: nat, xs: Seq<int>, k: int)
    requires
        n >= 1,
        0 <= k < n,
    ensures
        hist_after(zeros(n), xs)[k] == (if k < xs.len() {
            xs[xs.len() - 1 - k]
        } else {
            0int
        }),
    decreases xs.len(),
{
    if xs.len() == 0 {
        assert(hist_after(zeros(n), xs) == zeros(n));
    } else {
        let ys = xs.drop_last();
        let x = xs.last();
        assert(xs =~= ys.push(x));
        lemma_hist_after_push(zeros(n), ys, x);
        let hy = hist_after(zeros(n), ys);
        lemma_hist_after_len(zeros(n), ys);
        assert(hist_after(zeros(n), xs) == step_hist(hy, x));
        if k == 0 {
            assert(step_hist(hy, x)[0] == x);
        } else {
            assert(step_hist(hy, x)[k] == hy.drop_last()[k - 1]);
            assert(hy.drop_last()[k - 1] == hy[k - 1]);
            lemma_hist_from_zero(n, ys, k - 1);
            if k - 1 < ys.len() {
                assert(ys[ys.len() - 1 - (k - 1)] == xs[xs.len() - 1 - k]);
            }
        }
    }
}

/// Pure delay: a kernel of length `n` that is zero except for a `1` in the
/// last tap delays the stream by `n - 1` samples — from a fresh state the
/// first `n - 1` outputs are zero, and from then on each output equals the
/// input from `n - 1` steps earlier.
pub proof fn lemma_pure_delay(n: nat, xs: Seq<int>)
    requires
        n >= 1,
    ensures
        outputs(delay_kernel(n), zeros(n), xs).len() == xs.len(),
        forall|i: int|
            0 <= i < xs.len() ==> outputs(delay_kernel(n), zeros(n), xs)[i] == (if i < n - 1 {
                0int
            } else {
                xs[i - (n - 1)]
            }),
{
    let k = delay_kernel(n);
    lemma_outputs_len(k, zeros(n), xs);
    assert forall|i: int| 0 <= i < xs.len() implies outputs(k, zeros(n), xs)[i] == (if i < n - 1 {
        0int
    } else {
        xs[i - (n - 1)]
    }) by {
        lemma_outputs_index(k, zeros(n), xs, i);
        let t = xs.take(i + 1);
        lemma_hist_after_len(zeros(n), t);
        lemma_dot_delay(hist_after(zeros(n), t), n);
        lemma_hist_from_zero(n, t, n - 1);
    };
}

/// Block-size independence: feeding `xs` and then `ys` leaves the same
/// history, and produces the same outputs in sequence, as feeding the
/// single block `xs + ys`.
pub proof fn lemma_block_split(h: Seq<int>, hist: Seq<int>, xs: Seq<int>, ys: Seq<int>)
    ensures
        hist_after(hist, xs + ys) == hist_after(hist_after(hist, xs), ys),
        outputs(h, hist, xs + ys) == outputs(h, hist, xs) + outputs(h, hist_after(hist, xs), ys),
    decreases xs.len(),
{
    if xs.len() == 0 {
        assert(xs + ys =~= ys);
        assert(outputs(h, hist, xs) =~= Seq::<int>::empty());
        assert(outputs(h, hist, xs) + outputs(h, hist, ys) =~= outputs(h, hist, ys));
    } else {
        let s1 = step_hist(hist, xs[0]);
        assert((xs + ys)[0] == xs[0]);
        assert((xs + ys).drop_first() =~= xs.drop_first() + ys);
        lemma_block_split(h, s1, xs.drop_first(), ys);
        assert(hist_after(hist, xs + ys) == hist_after(s1, (xs + ys).drop_first()));
        assert(hist_after(hist, xs) == hist_after(s1, xs.drop_first()));
        assert(outputs(h, hist, xs + ys) == seq![dot(s1, h)] + outputs(
            h,
            s1,
            (xs + ys).drop_first(),
        ));
        assert(outputs(h, hist, xs) == seq![dot(s1, h)] + outputs(h, s1, xs.drop_first()));
        assert(outputs(h, hist, xs + ys) =~= outputs(h, hist, xs) + outputs(
            h,
            hist_after(hist, xs),
            ys,
        ));
    }
}

/// The inner product is linear in its left argument.
pub proof fn lemma_dot_lincomb(a: int, u: Seq<int>, b: int, v: Seq<int>, h: Seq<int>)
    requires
        u.len() == v.len(),
    ensures
        dot(lincomb(a, u, b, v), h) == a * dot(u, h) + b * dot(v, h),
    decreases u.len(),
{
    let w = lincomb(a, u, b, v);
    if u.len() > 0 && h.len() > 0 {
        assert(w[0] == a * u[0] + b * v[0]);
        assert(w.drop_first() =~= lincomb(a, u.drop_first(), b, v.drop_first()));
        lemma_dot_lincomb(a, u.drop_first(), b, v.drop_first(), h.drop_first());
        let du = dot(u.drop_first(), h.drop_first());
        let dv = dot(v.drop_first(), h.drop_first());
        assert(dot(w, h) == w[0] * h[0] + dot(w.drop_first(), h.drop_first()));
        assert((a * u[0] + b * v[0]) * h[0] == a * (u[0] * h[0]) + b * (v[0] * h[0]))
            by (nonlinear_arith);
        assert(a * (u[0] * h[0] + du) == a * (u[0] * h[0]) + a * du) by (nonlinear_arith);
        assert(b * (v[0] * h[0] + dv) == b * (v[0] * h[0]) + b * dv) by (nonlinear_arith);
        assert(dot(u, h) == u[0] * h[0] + du);
        assert(dot(v, h) == v[0] * h[0] + dv);
    }
}

/// One history step commutes with taking linear combinations.
pub proof fn lemma_step_hist_lincomb(a: int, s: Seq<int>, x: int, b: int, t: Seq<int>, y: int)
    requires
        s.len() == t.len(),
        s.len() >= 1,
    ensures
        step_hist(lincomb(a, s, b, t), a * x + b * y) == lincomb(
            a,
            step_hist(s, x),
            b,
            step_hist(t, y),
        ),
{
    assert(step_hist(lincomb(a, s, b, t), a * x + b * y) =~= lincomb(
        a,
        step_hist(s, x),
        b,
        step_hist(t, y),
    ));
}

/// Linearity: the filter is jointly linear in its history and its input —
/// filtering the linear combination of two input blocks, from the linear
/// combination of two histories, yields that combination of the two output
/// blocks.  With both histories equal and zero this is linearity in the
/// input block alone.
pub proof fn lemma_linearity(
    h: Seq<int>,
    a: int,
    s: Seq<int>,
    xs: Seq<int>,
    b: int,
    t: Seq<int>,
    ys: Seq<int>,
)
    requires
        s.len() == t.len(),
        s.len() >= 1,
        xs.len() == ys.len(),
    ensures
        outputs(h, lincomb(a, s, b, t), lincomb(a, xs, b, ys)) == lincomb(
            a,
            outputs(h, s, xs),
            b,
            outputs(h, t, ys),
        ),
    decreases xs.len(),
{
    let sc = lincomb(a, s, b, t);
    let xc = lincomb(a, xs, b, ys);
    lemma_outputs_len(h, s, xs);
    lemma_outputs_len(h, t, ys);
    lemma_outputs_len(h, sc, xc);
    if xs.len() == 0 {
        assert(outputs(h, sc, xc) =~= lincomb(a, outputs(h, s, xs), b, outputs(h, t, ys)));
    } else {
        let x = xs[0];
        let y = ys[0];
        assert(xc[0] == a * x + b * y);
        lemma_step_hist_lincomb(a, s, x, b, t, y);
        let s1 = step_hist(s, x);
        let t1 = step_hist(t, y);
        let sc1 = step_hist(sc, a * x + b * y);
        assert(sc1 == lincomb(a, s1, b, t1));
        lemma_dot_lincomb(a, s1, b, t1, h);
        assert(xc.drop_first() =~= lincomb(a, xs.drop_first(), b, ys.drop_first()));
        lemma_linearity(h, a, s1, xs.drop_first(), b, t1, ys.drop_first());
        lemma_outputs_len(h, s1, xs.drop_first());
        lemma_outputs_len(h, t1, ys.drop_first());
        assert(outputs(h, sc, xc) == seq![dot(sc1, h)] + outputs(h, sc1, xc.drop_first()));
        assert(outputs(h, s, xs) == seq![dot(s1, h)] + outputs(h, s1, xs.drop_first()));
        assert(outputs(h, t, ys) == seq![dot(t1, h)] + outputs(h, t1, ys.drop_first()));
        assert(outputs(h, sc, xc) =~= lincomb(a, outputs(h, s, xs), b, outputs(h, t, ys)));
    }
}

/// Linearity from a fresh state: with zero prior history, filtering
/// `a*xs + b*ys` equals the same combination of the blocks filtered one by
/// one, each from its own copy of the zero history.
pub proof fn lemma_linearity_fresh(h: Seq<int>, n: nat, a: int, xs: Seq<int>, b: int, ys: Seq<int>)
    requires
        n >= 1,
        xs.len() == ys.len(),
    ensures
        outputs(h, zeros(n), lincomb(a, xs, b, ys)) == lincomb(
            a,
            outputs(h, zeros(n), xs),
            b,
            outputs(h, zeros(n), ys),
        ),
{
    assert(lincomb(a, zeros(n), b, zeros(n)) =~= zeros(n));
    lemma_linearity(h, a, zeros(n), xs, b, zeros(n), ys);
}

/// A cleared filter is silent: from a zero history, an all-zero input
/// block yields an all-zero output block, whatever the kernel.
pub proof fn lemma_zero_state_zero_output(h: Seq<int>, n: nat, xs: Seq<int>)
    requires
        n >= 1,
        forall|i: int| 0 <= i < xs.len() ==> xs[i] == 0,
    ensures
        outputs(h, zeros(n), xs) == zeros(xs.len()),
    decreases xs.len(),
{
    if xs.len() == 0 {
        assert(outputs(h, zeros(n), xs) =~= zeros(xs.len()));
    } else {
        assert(step_hist(zeros(n), xs[0]) =~= zeros(n));
        lemma_dot_zeros(n, h);
        lemma_zero_state_zero_output(h, n, xs.drop_first());
        assert(outputs(h, zeros(n), xs) == seq![dot(zeros(n), h)] + outputs(
            h,
            zeros(n),
            xs.drop_first(),
        ));
        assert(outputs(h, zeros(n), xs) =~= zeros(xs.len()));
    }
}

} // verus!
