use rustfirlib::FirFilter;

/// Reference convolution: past samples most recent first in `hist`, output
/// is the inner product of kernel and history after pushing each input.
fn reference_filter(kernel: &[i64], hist: &mut Vec<i64>, input: &[i64]) -> Vec<i64> {
    let mut out = Vec::new();
    for &x in input {
        hist.insert(0, x);
        hist.truncate(kernel.len());
        let mut y: i64 = 0;
        for (k, &tap) in kernel.iter().enumerate() {
            y += tap * hist.get(k).copied().unwrap_or(0);
        }
        out.push(y);
    }
    out
}

#[test]
fn order5_single_tap_passthrough() {
    let mut f = FirFilter::new(5);
    f.load_ir(&vec![1, 0, 0, 0, 0]);
    let mut block = vec![1, 2, 3];
    f.process_block(&mut block);
    assert_eq!(block, vec![1, 2, 3]);
}

#[test]
fn identity_kernel_is_identity() {
    let mut f = FirFilter::new(1);
    f.load_ir(&vec![1]);
    let mut block = vec![7, -3, 0, 42, -1000, 1000000];
    f.process_block(&mut block);
    assert_eq!(block, vec![7, -3, 0, 42, -1000, 1000000]);
    let mut more = vec![5];
    f.process_block(&mut more);
    assert_eq!(more, vec![5]);
}

#[test]
fn pure_delay_shifts_by_order_minus_one() {
    let mut f = FirFilter::new(4);
    f.load_ir(&vec![0, 0, 0, 1]);
    let mut block = vec![1, 2, 3, 4, 5, 6];
    f.process_block(&mut block);
    assert_eq!(block, vec![0, 0, 0, 1, 2, 3]);
}

#[test]
fn block_size_independence() {
    let kernel = vec![2, -1, 3];
    let stream: Vec<i64> = (0..21).map(|i| (i * i - 10 * i + 3) as i64).collect();

    let mut whole = FirFilter::new(3);
    whole.load_ir(&kernel);
    let mut all = stream.clone();
    whole.process_block(&mut all);

    let mut one_by_one = FirFilter::new(3);
    one_by_one.load_ir(&kernel);
    let mut got1 = Vec::new();
    for &x in &stream {
        let mut b = vec![x];
        one_by_one.process_block(&mut b);
        got1.extend(b);
    }
    assert_eq!(got1, all);

    let mut by_sevens = FirFilter::new(3);
    by_sevens.load_ir(&kernel);
    let mut got7 = Vec::new();
    for chunk in stream.chunks(7) {
        let mut b = chunk.to_vec();
        by_sevens.process_block(&mut b);
        got7.extend(b);
    }
    assert_eq!(got7, all);
}

#[test]
fn reset_clears_history() {
    let mut f = FirFilter::new(3);
    f.load_ir(&vec![1, 2, 3]);
    let mut block = vec![10, 20, 30, 40];
    f.process_block(&mut block);
    assert!(block.iter().any(|&y| y != 0));
    f.reset();
    let mut silence = vec![0, 0, 0];
    f.process_block(&mut silence);
    assert_eq!(silence, vec![0, 0, 0]);
}

#[test]
fn reset_also_clears_kernel() {
    let mut f = FirFilter::new(2);
    f.load_ir(&vec![5, -5]);
    f.reset();
    let mut block = vec![9, 9, 9];
    f.process_block(&mut block);
    assert_eq!(block, vec![0, 0, 0]);
}

#[test]
fn fresh_filter_has_zero_kernel() {
    let mut f = FirFilter::new(4);
    let mut block = vec![1, 2, 3, 4, 5];
    f.process_block(&mut block);
    assert_eq!(block, vec![0, 0, 0, 0, 0]);
}

#[test]
fn kernel_reload_mid_stream_keeps_history() {
    let k1 = vec![1, 1, 0];
    let k2 = vec![0, 2, -1];

    let mut f = FirFilter::new(3);
    f.load_ir(&k1);
    let mut first = vec![1, 2, 3, 4];
    f.process_block(&mut first);
    f.load_ir(&k2);
    let mut second = vec![5, 6];
    f.process_block(&mut second);

    let mut hist = Vec::new();
    let expected_first = reference_filter(&k1, &mut hist, &[1, 2, 3, 4]);
    let expected_second = reference_filter(&k2, &mut hist, &[5, 6]);
    assert_eq!(first, expected_first);
    assert_eq!(second, expected_second);
}

#[test]
fn linearity_from_fresh_state() {
    let kernel = vec![3, -2, 1];
    let a: Vec<i64> = vec![1, 4, -2, 8, 0];
    let b: Vec<i64> = vec![-3, 5, 7, -1, 2];
    let (alpha, beta) = (2i64, -3i64);

    let mut fa = FirFilter::new(3);
    fa.load_ir(&kernel);
    let mut out_a = a.clone();
    fa.process_block(&mut out_a);

    let mut fb = FirFilter::new(3);
    fb.load_ir(&kernel);
    let mut out_b = b.clone();
    fb.process_block(&mut out_b);

    let mut fc = FirFilter::new(3);
    fc.load_ir(&kernel);
    let mut combined: Vec<i64> =
        a.iter().zip(&b).map(|(&x, &y)| alpha * x + beta * y).collect();
    fc.process_block(&mut combined);

    let expected: Vec<i64> =
        out_a.iter().zip(&out_b).map(|(&x, &y)| alpha * x + beta * y).collect();
    assert_eq!(combined, expected);
}

#[test]
fn largest_allowed_values_do_not_overflow() {
    let bound: i64 = 1048576;
    let mut f = FirFilter::new(1);
    f.load_ir(&vec![bound]);
    let mut block = vec![bound, -bound];
    f.process_block(&mut block);
    assert_eq!(block, vec![bound * bound, -(bound * bound)]);
    assert_eq!(block[0], 1099511627776);
}

#[test]
fn empty_block_is_a_no_op() {
    let mut f = FirFilter::new(2);
    f.load_ir(&vec![1, 1]);
    let mut warm = vec![3, 4];
    f.process_block(&mut warm);
    let mut empty: Vec<i64> = Vec::new();
    f.process_block(&mut empty);
    assert_eq!(empty, Vec::<i64>::new());
    // History must be untouched by the empty call: next output still sees 3 and 4.
    let mut next = vec![5];
    f.process_block(&mut next);
    assert_eq!(next, vec![5 + 4]);
}
