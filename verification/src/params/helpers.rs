//! Flattening parameters into a list of integers and back, and the monotonicity and
//! normalisation rules applied to parameter tables while tuning.
use vstd::prelude::*;

use crate::evaluate::Score;

verus! {

/// The scores of `s` laid out flat: middlegame then endgame value of each, in order.
pub open spec fn flat(s: Seq<Score>) -> Seq<i32>
    decreases s.len(),
{
    if s.len() == 0 {
        Seq::empty()
    } else {
        flat(s.drop_last()) + seq![s.last().mg, s.last().eg]
    }
}

/// The scores read back from a flat list: one from each consecutive pair.
pub open spec fn unflat(v: Seq<i32>) -> Seq<Score> {
    Seq::new(v.len() / 2, |i: int| Score { mg: v[2 * i], eg: v[2 * i + 1] })
}

/// A flat list has two entries per score, the middlegame one first.
pub proof fn lemma_flat(s: Seq<Score>)
    ensures
        flat(s).len() == 2 * s.len(),
        forall|i: int|
            0 <= i < s.len() ==> #[trigger] flat(s)[2 * i] == s[i].mg && flat(s)[2 * i + 1]
                == s[i].eg,
    decreases s.len(),
{
    if s.len() > 0 {
        let d = s.drop_last();
        let tail = seq![s.last().mg, s.last().eg];
        lemma_flat(d);
        assert(flat(s) == flat(d) + tail);
        assert forall|i: int| 0 <= i < s.len() implies #[trigger] flat(s)[2 * i] == s[i].mg && flat(
            s,
        )[2 * i + 1] == s[i].eg by {
            if i < s.len() - 1 {
                assert(d[i] == s[i]);
                assert(flat(d)[2 * i] == d[i].mg);
                assert((flat(d) + tail)[2 * i] == flat(d)[2 * i]);
                assert((flat(d) + tail)[2 * i + 1] == flat(d)[2 * i + 1]);
            } else {
                assert((flat(d) + tail)[2 * i] == tail[0]);
                assert((flat(d) + tail)[2 * i + 1] == tail[1]);
            }
        }
    }
}

/// Flattening one more score appends its two values.
pub proof fn lemma_flat_push(s: Seq<Score>, x: Score)
    ensures
        flat(s.push(x)) == flat(s) + seq![x.mg, x.eg],
{
    assert(s.push(x).drop_last() =~= s);
}

/// Reading back what was flattened gives the scores again.
pub proof fn lemma_unflat_flat(s: Seq<Score>)
    ensures
        unflat(flat(s)) == s,
{
    lemma_flat(s);
    assert(unflat(flat(s)) =~= s);
}

/// Appends the two values of `s`.
pub fn push_score(out: &mut Vec<i32>, s: Score)
    ensures
        final(out)@ == old(out)@ + seq![s.mg, s.eg],
{
    out.push(s.mg);
    out.push(s.eg);
}

/// Appends the values of every score of `arr`, in order.
pub fn push_score_array<const N: usize>(out: &mut Vec<i32>, arr: &[Score; N])
    ensures
        final(out)@ == old(out)@ + flat(arr@),
{
    let ghost start = out@;
    let mut i: usize = 0;
    while i < N
        invariant
            i <= N,
            N == arr@.len(),
            out@ == start + flat(arr@.subrange(0, i as int)),
        decreases N - i,
    {
        proof {
            lemma_flat_push(arr@.subrange(0, i as int), arr@[i as int]);
            assert(arr@.subrange(0, i as int).push(arr@[i as int]) =~= arr@.subrange(0, i + 1));
        }
        push_score(out, arr[i]);
        assert(out@ =~= start + flat(arr@.subrange(0, i + 1)));
        i = i + 1;
    }
    assert(arr@.subrange(0, N as int) =~= arr@);
}

/// Appends the values of the pawn table on the second to seventh ranks (pawns never stand on
/// the first or last).
pub fn push_pawn_pst(out: &mut Vec<i32>, pst: &[Score; 64])
    ensures
        final(out)@ == old(out)@ + flat(pst@.subrange(8, 56)),
{
    let ghost start = out@;
    let mut i: usize = 8;
    assert(pst@.subrange(8, 8) =~= Seq::<Score>::empty());
    while i < 56
        invariant
            8 <= i <= 56,
            pst@.len() == 64,
            out@ == start + flat(pst@.subrange(8, i as int)),
        decreases 56 - i,
    {
        proof {
            lemma_flat_push(pst@.subrange(8, i as int), pst@[i as int]);
            assert(pst@.subrange(8, i as int).push(pst@[i as int]) =~= pst@.subrange(8, i + 1));
        }
        push_score(out, pst[i]);
        assert(out@ =~= start + flat(pst@.subrange(8, i + 1)));
        i = i + 1;
    }
}

/// Reads the score at `*pos` (two values) and moves past it.
pub fn next_score(values: &[i32], pos: &mut usize) -> (r: Score)
    requires
        *old(pos) + 2 <= values@.len(),
    ensures
        *final(pos) == *old(pos) + 2,
        r == (Score { mg: values@[*old(pos) as int], eg: values@[*old(pos) + 1] }),
{
    let mg = values[*pos];
    let eg = values[*pos + 1];
    *pos = *pos + 2;
    Score { mg, eg }
}

/// Reads `N` scores from `*pos` on and moves past them.
pub fn next_score_array<const N: usize>(values: &[i32], pos: &mut usize) -> (r: [Score; N])
    requires
        *old(pos) + 2 * N <= values@.len(),
    ensures
        *final(pos) == *old(pos) + 2 * N,
        r@ == unflat(values@.subrange(*old(pos) as int, *old(pos) + 2 * N)),
{
    let start = *pos;
    let ghost src = values@.subrange(start as int, start + 2 * N);
    let mut arr: [Score; N] = [Score { mg: 0, eg: 0 }; N];
    let mut i: usize = 0;
    while i < N
        invariant
            i <= N,
            arr@.len() == N,
            start + 2 * N <= values@.len(),
            *pos == start + 2 * i,
            src == values@.subrange(start as int, start + 2 * N),
            forall|k: int| 0 <= k < i ==> #[trigger] arr@[k] == unflat(src)[k],
        decreases N - i,
    {
        let s = next_score(values, pos);
        arr[i] = s;
        i = i + 1;
    }
    assert(arr@ =~= unflat(src));
    arr
}

/// Reads the pawn table: the second to seventh ranks from `*pos` on, the first and last
/// from `base`.
pub fn next_pawn_pst(values: &[i32], pos: &mut usize, base: &[Score; 64]) -> (r: [Score; 64])
    requires
        *old(pos) + 96 <= values@.len(),
    ensures
        *final(pos) == *old(pos) + 96,
        r@ == base@.subrange(0, 8) + unflat(values@.subrange(*old(pos) as int, *old(pos) + 96))
            + base@.subrange(56, 64),
{
    let start = *pos;
    let ghost src = values@.subrange(start as int, start + 96);
    let mut pst = *base;
    let mut i: usize = 8;
    while i < 56
        invariant
            8 <= i <= 56,
            pst@.len() == 64,
            base@.len() == 64,
            start + 96 <= values@.len(),
            *pos == start + 2 * (i - 8),
            src == values@.subrange(start as int, start + 96),
            forall|k: int| 0 <= k < 8 ==> #[trigger] pst@[k] == base@[k],
            forall|k: int| 56 <= k < 64 ==> #[trigger] pst@[k] == base@[k],
            forall|k: int| 8 <= k < i ==> #[trigger] pst@[k] == unflat(src)[k - 8],
        decreases 56 - i,
    {
        let s = next_score(values, pos);
        pst[i] = s;
        i = i + 1;
    }
    assert(pst@ =~= base@.subrange(0, 8) + unflat(src) + base@.subrange(56, 64));
    pst
}

/// The largest of the first `i + 1` values of `s` (the running maximum).
pub open spec fn prefix_max(s: Seq<i32>, i: int) -> i32
    decreases i,
{
    if i <= 0 {
        s[0]
    } else {
        let m = prefix_max(s, i - 1);
        if s[i] > m {
            s[i]
        } else {
            m
        }
    }
}

/// The smallest of the first `i + 1` values of `s` (the running minimum).
pub open spec fn prefix_min(s: Seq<i32>, i: int) -> i32
    decreases i,
{
    if i <= 0 {
        s[0]
    } else {
        let m = prefix_min(s, i - 1);
        if s[i] < m {
            s[i]
        } else {
            m
        }
    }
}

/// The middlegame and the endgame values of a table.
pub open spec fn mgs(s: Seq<Score>) -> Seq<i32> {
    Seq::new(s.len(), |i: int| s[i].mg)
}

pub open spec fn egs(s: Seq<Score>) -> Seq<i32> {
    Seq::new(s.len(), |i: int| s[i].eg)
}

/// Raises each entry to the largest before it, so the table never decreases.
pub fn make_nondecreasing<const N: usize>(arr: &mut [Score; N])
    ensures
        final(arr)@.len() == N,
        forall|i: int|
            0 <= i < N ==> (#[trigger] final(arr)@[i]).mg == prefix_max(mgs(old(arr)@), i)
                && final(arr)@[i].eg == prefix_max(egs(old(arr)@), i),
{
    let ghost a0 = arr@;
    let mut i: usize = 1;
    while i < N
        invariant
            1 <= i,
            N >= 1 ==> i <= N,
            arr@.len() == N,
            a0.len() == N,
            forall|k: int| i <= k < N ==> #[trigger] arr@[k] == a0[k],
            forall|k: int|
                0 <= k < i && k < N ==> (#[trigger] arr@[k]).mg == prefix_max(mgs(a0), k)
                    && arr@[k].eg == prefix_max(egs(a0), k),
        decreases N - i,
    {
        let prev = arr[i - 1];
        let cur = arr[i];
        let mg = if cur.mg > prev.mg {
            cur.mg
        } else {
            prev.mg
        };
        let eg = if cur.eg > prev.eg {
            cur.eg
        } else {
            prev.eg
        };
        arr[i] = Score { mg, eg };
        i = i + 1;
    }
}

/// Lowers each entry to the smallest before it, so the table never increases.
pub fn make_nonincreasing<const N: usize>(arr: &mut [Score; N])
    ensures
        final(arr)@.len() == N,
        forall|i: int|
            0 <= i < N ==> (#[trigger] final(arr)@[i]).mg == prefix_min(mgs(old(arr)@), i)
                && final(arr)@[i].eg == prefix_min(egs(old(arr)@), i),
{
    let ghost a0 = arr@;
    let mut i: usize = 1;
    while i < N
        invariant
            1 <= i,
            N >= 1 ==> i <= N,
            arr@.len() == N,
            a0.len() == N,
            forall|k: int| i <= k < N ==> #[trigger] arr@[k] == a0[k],
            forall|k: int|
                0 <= k < i && k < N ==> (#[trigger] arr@[k]).mg == prefix_min(mgs(a0), k)
                    && arr@[k].eg == prefix_min(egs(a0), k),
        decreases N - i,
    {
        let prev = arr[i - 1];
        let cur = arr[i];
        let mg = if cur.mg < prev.mg {
            cur.mg
        } else {
            prev.mg
        };
        let eg = if cur.eg < prev.eg {
            cur.eg
        } else {
            prev.eg
        };
        arr[i] = Score { mg, eg };
        i = i + 1;
    }
}

/// A running maximum never decreases and is at least each value it has passed.
pub proof fn lemma_prefix_max(s: Seq<i32>, i: int, j: int)
    requires
        0 <= i <= j < s.len(),
    ensures
        prefix_max(s, i) <= prefix_max(s, j),
        s[i] <= prefix_max(s, j),
    decreases j - i,
{
    if i < j {
        lemma_prefix_max(s, i, j - 1);
    }
}

/// A running minimum never increases and is at most each value it has passed.
pub proof fn lemma_prefix_min(s: Seq<i32>, i: int, j: int)
    requires
        0 <= i <= j < s.len(),
    ensures
        prefix_min(s, i) >= prefix_min(s, j),
        s[i] >= prefix_min(s, j),
    decreases j - i,
{
    if i < j {
        lemma_prefix_min(s, i, j - 1);
    }
}


/// The sum of the values of `s`.
pub open spec fn seq_sum(s: Seq<i32>) -> int
    decreases s.len(),
{
    if s.len() == 0 {
        0
    } else {
        seq_sum(s.drop_last()) + s.last()
    }
}

/// Summing `s` from the front never leaves the range of `i32`.
pub open spec fn sums_fit(s: Seq<i32>) -> bool {
    forall|k: int| 0 <= k <= s.len() ==> i32::MIN <= #[trigger] seq_sum(s.take(k)) <= i32::MAX
}

/// Division rounding toward zero, as on machine integers.
pub open spec fn trunc_div(a: int, b: int) -> int {
    if a >= 0 {
        a / b
    } else {
        -((-a) / b)
    }
}

/// The mean of `s`, rounded toward zero.
pub open spec fn mean(s: Seq<i32>) -> int {
    trunc_div(seq_sum(s), s.len() as int)
}

/// Subtracting `m` from every value subtracts `m` times the length from the sum.
pub proof fn lemma_sum_shift(s: Seq<i32>, t: Seq<i32>, m: int)
    requires
        s.len() == t.len(),
        forall|i: int| 0 <= i < s.len() ==> #[trigger] t[i] == s[i] - m,
    ensures
        seq_sum(t) == seq_sum(s) - s.len() * m,
    decreases s.len(),
{
    if s.len() > 0 {
        lemma_sum_shift(s.drop_last(), t.drop_last(), m);
        assert(t.last() == s.last() - m);
        assert((s.len() - 1) * m + m == s.len() * m) by (nonlinear_arith);
    }
}

/// Moves the mean of the table (rounded toward zero) into `base`: each entry loses it, and
/// `base` gains it.
pub fn normalise_mean_zero<const N: usize>(base: &mut Score, arr: &mut [Score; N])
    requires
        0 < N <= i32::MAX,
        sums_fit(mgs(old(arr)@)),
        sums_fit(egs(old(arr)@)),
        forall|i: int|
            0 <= i < N ==> i32::MIN <= #[trigger] old(arr)@[i].mg - mean(mgs(old(arr)@))
                <= i32::MAX && i32::MIN <= old(arr)@[i].eg - mean(egs(old(arr)@)) <= i32::MAX,
        i32::MIN <= old(base).mg + mean(mgs(old(arr)@)) <= i32::MAX,
        i32::MIN <= old(base).eg + mean(egs(old(arr)@)) <= i32::MAX,
    ensures
        final(arr)@.len() == N,
        final(base).mg == old(base).mg + mean(mgs(old(arr)@)),
        final(base).eg == old(base).eg + mean(egs(old(arr)@)),
        forall|i: int|
            0 <= i < N ==> #[trigger] final(arr)@[i] == (Score {
                mg: (old(arr)@[i].mg - mean(mgs(old(arr)@))) as i32,
                eg: (old(arr)@[i].eg - mean(egs(old(arr)@))) as i32,
            }),
{
    let ghost a0 = arr@;
    let mut sum_mg: i32 = 0;
    let mut sum_eg: i32 = 0;
    let mut i: usize = 0;
    while i < N
        invariant
            i <= N,
            a0 == arr@,
            a0.len() == N,
            sums_fit(mgs(a0)),
            sums_fit(egs(a0)),
            sum_mg == seq_sum(mgs(a0).take(i as int)),
            sum_eg == seq_sum(egs(a0).take(i as int)),
        decreases N - i,
    {
        proof {
            assert(mgs(a0).take(i + 1).drop_last() =~= mgs(a0).take(i as int));
            assert(egs(a0).take(i + 1).drop_last() =~= egs(a0).take(i as int));
            assert(i32::MIN <= seq_sum(mgs(a0).take(i + 1)) <= i32::MAX);
            assert(i32::MIN <= seq_sum(egs(a0).take(i + 1)) <= i32::MAX);
        }
        sum_mg = sum_mg + arr[i].mg;
        sum_eg = sum_eg + arr[i].eg;
        i = i + 1;
    }
    assert(mgs(a0).take(N as int) =~= mgs(a0));
    assert(egs(a0).take(N as int) =~= egs(a0));
    let n = N as i64;
    let smg = sum_mg as i64;
    let seg = sum_eg as i64;
    let mean_mg = (if smg >= 0 {
        smg / n
    } else {
        -((-smg) / n)
    }) as i32;
    let mean_eg = (if seg >= 0 {
        seg / n
    } else {
        -((-seg) / n)
    }) as i32;
    proof {
        assert(mean_mg == mean(mgs(a0))) by {
            if smg >= 0 {
                assert(0 <= smg / n <= smg) by (nonlinear_arith)
                    requires
                        smg >= 0,
                        n > 0,
                ;
            } else {
                assert(0 <= (-(smg as int)) / (n as int) <= -(smg as int)) by (nonlinear_arith)
                    requires
                        smg < 0,
                        n > 0,
                ;
            }
        }
        assert(mean_eg == mean(egs(a0))) by {
            if seg >= 0 {
                assert(0 <= seg / n <= seg) by (nonlinear_arith)
                    requires
                        seg >= 0,
                        n > 0,
                ;
            } else {
                assert(0 <= (-(seg as int)) / (n as int) <= -(seg as int)) by (nonlinear_arith)
                    requires
                        seg < 0,
                        n > 0,
                ;
            }
        }
    }
    let mut j: usize = 0;
    while j < N
        invariant
            j <= N,
            arr@.len() == N,
            a0.len() == N,
            mean_mg == mean(mgs(a0)),
            mean_eg == mean(egs(a0)),
            forall|k: int|
                0 <= k < N ==> i32::MIN <= #[trigger] a0[k].mg - mean_mg <= i32::MAX && i32::MIN
                    <= a0[k].eg - mean_eg <= i32::MAX,
            forall|k: int| j <= k < N ==> #[trigger] arr@[k] == a0[k],
            forall|k: int|
                0 <= k < j ==> #[trigger] arr@[k] == (Score {
                    mg: (a0[k].mg - mean_mg) as i32,
                    eg: (a0[k].eg - mean_eg) as i32,
                }),
        decreases N - j,
    {
        let cur = arr[j];
        proof {
            assert(cur == a0[j as int]);
        }
        arr[j] = Score { mg: cur.mg - mean_mg, eg: cur.eg - mean_eg };
        j = j + 1;
    }
    base.mg = base.mg + mean_mg;
    base.eg = base.eg + mean_eg;
}

/// Moving the mean into the base keeps the base, counted once per entry, plus the table's
/// sum: `base * N + sum(table)` is the same before and after.
pub proof fn lemma_normalise_keeps_total(
    base0: Score,
    arr0: Seq<Score>,
    base1: Score,
    arr1: Seq<Score>,
)
    requires
        arr0.len() == arr1.len(),
        arr0.len() > 0,
        base1.mg == base0.mg + mean(mgs(arr0)),
        base1.eg == base0.eg + mean(egs(arr0)),
        forall|i: int|
            0 <= i < arr0.len() ==> #[trigger] arr1[i].mg == arr0[i].mg - mean(mgs(arr0))
                && arr1[i].eg == arr0[i].eg - mean(egs(arr0)),
    ensures
        base1.mg * arr0.len() + seq_sum(mgs(arr1)) == base0.mg * arr0.len() + seq_sum(mgs(arr0)),
        base1.eg * arr0.len() + seq_sum(egs(arr1)) == base0.eg * arr0.len() + seq_sum(egs(arr0)),
{
    let n = arr0.len() as int;
    let m = mean(mgs(arr0));
    let e = mean(egs(arr0));
    assert forall|i: int| 0 <= i < n implies #[trigger] mgs(arr1)[i] == mgs(arr0)[i] - m by {}
    assert forall|i: int| 0 <= i < n implies #[trigger] egs(arr1)[i] == egs(arr0)[i] - e by {
        assert(arr1[i].mg == arr0[i].mg - m);
    }
    lemma_sum_shift(mgs(arr0), mgs(arr1), m);
    lemma_sum_shift(egs(arr0), egs(arr1), e);
    assert((base0.mg + m) * n == base0.mg * n + n * m) by (nonlinear_arith);
    assert((base0.eg + e) * n == base0.eg * n + n * e) by (nonlinear_arith);
}

/// Appends the bounds `b` for both values of a score.
pub fn push_score_bounds<T: Copy>(out: &mut Vec<T>, b: T)
    ensures
        final(out)@ == old(out)@ + seq![b, b],
{
    out.push(b);
    out.push(b);
}

/// Appends the bounds `b` for each value of a table of `N` scores.
pub fn push_score_array_bounds<const N: usize, T: Copy>(out: &mut Vec<T>, b: T)
    ensures
        final(out)@ == old(out)@ + Seq::new(2 * N as nat, |i: int| b),
{
    let ghost start = out@;
    let mut i: usize = 0;
    while i < N
        invariant
            i <= N,
            out@ == start + Seq::new(2 * i as nat, |k: int| b),
        decreases N - i,
    {
        push_score_bounds(out, b);
        assert(out@ =~= start + Seq::new(2 * (i + 1) as nat, |k: int| b));
        i = i + 1;
    }
}

/// Appends the bounds `b` for each value of the pawn table's second to seventh ranks.
pub fn push_pawn_pst_bounds<T: Copy>(out: &mut Vec<T>, b: T)
    ensures
        final(out)@ == old(out)@ + Seq::new(96, |i: int| b),
{
    let ghost start = out@;
    let mut i: usize = 8;
    while i < 56
        invariant
            8 <= i <= 56,
            out@ == start + Seq::new(2 * (i - 8) as nat, |k: int| b),
        decreases 56 - i,
    {
        push_score_bounds(out, b);
        assert(out@ =~= start + Seq::new(2 * (i + 1 - 8) as nat, |k: int| b));
        i = i + 1;
    }
}


/// How far a first value `x` must move to land in `[lo, hi]`.
pub open spec fn shift_into(x: int, lo: int, hi: int) -> int {
    if x < lo {
        lo - x
    } else if x > hi {
        hi - x
    } else {
        0
    }
}

/// `s` moved by the amount that brings its first value into `[lo, hi]`.
pub open spec fn shifted(s: Seq<i32>, lo: int, hi: int) -> Seq<int> {
    Seq::new(s.len(), |i: int| s[i] + shift_into(s[0] as int, lo, hi))
}

/// `s` with each value after the first held between the value before it (as adjusted) and
/// `max_drop` below that (but not below `floor`).
pub open spec fn limited(s: Seq<int>, max_drop: int, floor: int, i: int) -> int
    decreases i,
{
    if i <= 0 {
        s[0]
    } else {
        let prev = limited(s, max_drop, floor, i - 1);
        let low = if prev - max_drop > floor {
            prev - max_drop
        } else {
            floor
        };
        if s[i] < low {
            low
        } else if s[i] > prev {
            prev
        } else {
            s[i]
        }
    }
}

/// The running minima of `s`.
pub open spec fn prefix_mins(s: Seq<i32>) -> Seq<i32> {
    Seq::new(s.len(), |i: int| prefix_min(s, i))
}

/// One component of the king ring table after normalising: running minima, the first moved
/// into `[-10, 20]` with the rest, then drops held to at most 15 and values to at least -200.
pub open spec fn king_ring_norm(s: Seq<i32>, i: int) -> int {
    limited(shifted(prefix_mins(s), -10, 20), 15, -200, i)
}

/// Moving the running minima of `s` keeps them in the range of `i32`.
pub open spec fn king_ring_fits(s: Seq<i32>) -> bool {
    forall|i: int|
        0 <= i < s.len() ==> i32::MIN <= #[trigger] prefix_min(s, i) + shift_into(
            s[0] as int,
            -10,
            20,
        ) <= i32::MAX
}

/// Moves every entry by the amount that brings the first one into `[lo, hi]`.
fn shift_first_bucket_into_range<const N: usize>(arr: &mut [Score; N], lo: i32, hi: i32)
    requires
        N > 0,
        forall|i: int|
            0 <= i < N ==> i32::MIN <= #[trigger] old(arr)@[i].mg + shift_into(
                old(arr)@[0].mg as int,
                lo as int,
                hi as int,
            ) <= i32::MAX && i32::MIN <= old(arr)@[i].eg + shift_into(
                old(arr)@[0].eg as int,
                lo as int,
                hi as int,
            ) <= i32::MAX,
        old(arr)@[0].mg < lo ==> i32::MIN <= lo - old(arr)@[0].mg <= i32::MAX,
        old(arr)@[0].eg < lo ==> i32::MIN <= lo - old(arr)@[0].eg <= i32::MAX,
        old(arr)@[0].mg > hi ==> i32::MIN <= hi - old(arr)@[0].mg <= i32::MAX,
        old(arr)@[0].eg > hi ==> i32::MIN <= hi - old(arr)@[0].eg <= i32::MAX,
    ensures
        final(arr)@.len() == N,
        forall|i: int|
            0 <= i < N ==> (#[trigger] final(arr)@[i]).mg == shifted(
                mgs(old(arr)@),
                lo as int,
                hi as int,
            )[i] && final(arr)@[i].eg == shifted(egs(old(arr)@), lo as int, hi as int)[i],
{
    let ghost a0 = arr@;
    let first = arr[0];
    let shift_mg = if first.mg < lo {
        lo - first.mg
    } else if first.mg > hi {
        hi - first.mg
    } else {
        0
    };
    let shift_eg = if first.eg < lo {
        lo - first.eg
    } else if first.eg > hi {
        hi - first.eg
    } else {
        0
    };
    let mut i: usize = 0;
    while i < N
        invariant
            i <= N,
            arr@.len() == N,
            a0.len() == N,
            shift_mg == shift_into(a0[0].mg as int, lo as int, hi as int),
            shift_eg == shift_into(a0[0].eg as int, lo as int, hi as int),
            forall|k: int|
                0 <= k < N ==> i32::MIN <= #[trigger] a0[k].mg + shift_mg <= i32::MAX && i32::MIN
                    <= a0[k].eg + shift_eg <= i32::MAX,
            forall|k: int| i <= k < N ==> #[trigger] arr@[k] == a0[k],
            forall|k: int|
                0 <= k < i ==> (#[trigger] arr@[k]).mg == a0[k].mg + shift_mg && arr@[k].eg
                    == a0[k].eg + shift_eg,
        decreases N - i,
    {
        let cur = arr[i];
        proof {
            assert(cur == a0[i as int]);
        }
        arr[i] = Score { mg: cur.mg + shift_mg, eg: cur.eg + shift_eg };
        i = i + 1;
    }
}

/// Holds each entry after the first between the entry before it and `max_drop` below it,
/// but never below `floor`.
fn limit_subsequent_drop<const N: usize>(arr: &mut [Score; N], max_drop: i32, floor: i32)
    requires
        N > 0,
        0 <= max_drop,
        floor - max_drop >= i32::MIN,
        floor <= old(arr)@[0].mg,
        floor <= old(arr)@[0].eg,
    ensures
        final(arr)@.len() == N,
        forall|i: int|
            0 <= i < N ==> (#[trigger] final(arr)@[i]).mg == limited(
                Seq::new(N as nat, |k: int| old(arr)@[k].mg as int),
                max_drop as int,
                floor as int,
                i,
            ) && final(arr)@[i].eg == limited(
                Seq::new(N as nat, |k: int| old(arr)@[k].eg as int),
                max_drop as int,
                floor as int,
                i,
            ),
{
    let ghost a0 = arr@;
    let ghost sm = Seq::new(N as nat, |k: int| a0[k].mg as int);
    let ghost se = Seq::new(N as nat, |k: int| a0[k].eg as int);
    let mut i: usize = 1;
    while i < N
        invariant
            1 <= i <= N,
            arr@.len() == N,
            a0.len() == N,
            0 <= max_drop,
            floor - max_drop >= i32::MIN,
            sm == Seq::new(N as nat, |k: int| a0[k].mg as int),
            se == Seq::new(N as nat, |k: int| a0[k].eg as int),
            forall|k: int| i <= k < N ==> #[trigger] arr@[k] == a0[k],
            forall|k: int|
                0 <= k < i ==> (#[trigger] arr@[k]).mg == limited(sm, max_drop as int, floor as int, k)
                    && arr@[k].eg == limited(se, max_drop as int, floor as int, k),
            forall|k: int| 0 <= k < i ==> floor <= (#[trigger] arr@[k]).mg && floor <= arr@[k].eg,
        decreases N - i,
    {
        let prev = arr[i - 1];
        let cur = arr[i];
        let low_mg = if prev.mg - max_drop > floor {
            prev.mg - max_drop
        } else {
            floor
        };
        let low_eg = if prev.eg - max_drop > floor {
            prev.eg - max_drop
        } else {
            floor
        };
        let mg = if cur.mg < low_mg {
            low_mg
        } else if cur.mg > prev.mg {
            prev.mg
        } else {
            cur.mg
        };
        let eg = if cur.eg < low_eg {
            low_eg
        } else if cur.eg > prev.eg {
            prev.eg
        } else {
            cur.eg
        };
        proof {
            assert(cur == a0[i as int]);
            assert(sm[i as int] == cur.mg);
            assert(se[i as int] == cur.eg);
        }
        arr[i] = Score { mg, eg };
        i = i + 1;
    }
}

/// Normalises the king ring attack table: it never increases, starts in `[-10, 20]`, drops by
/// at most 15 from one entry to the next, and stays at or above -200.
pub fn normalise_king_ring(arr: &mut [Score; 24])
    requires
        king_ring_fits(mgs(old(arr)@)),
        king_ring_fits(egs(old(arr)@)),
    ensures
        forall|i: int|
            0 <= i < 24 ==> (#[trigger] final(arr)@[i]).mg == king_ring_norm(mgs(old(arr)@), i)
                && final(arr)@[i].eg == king_ring_norm(egs(old(arr)@), i),
{
    let ghost a0 = arr@;
    make_nonincreasing(arr);
    let ghost a1 = arr@;
    proof {
        assert(mgs(a1) =~= prefix_mins(mgs(a0)));
        assert(egs(a1) =~= prefix_mins(egs(a0)));
        assert(prefix_min(mgs(a0), 0) == a0[0].mg);
        assert(prefix_min(egs(a0), 0) == a0[0].eg);
        assert(a1[0].mg == a0[0].mg);
        assert(a1[0].eg == a0[0].eg);
        assert forall|i: int| 0 <= i < 24 implies i32::MIN <= #[trigger] a1[i].mg + shift_into(
            a1[0].mg as int,
            -10,
            20,
        ) <= i32::MAX && i32::MIN <= a1[i].eg + shift_into(a1[0].eg as int, -10, 20)
            <= i32::MAX by {
            assert(a1[i].mg == prefix_min(mgs(a0), i));
            assert(a1[i].eg == prefix_min(egs(a0), i));
        }
    }
    shift_first_bucket_into_range(arr, -10, 20);
    let ghost a2 = arr@;
    proof {
        assert(mgs(a1) == prefix_mins(mgs(a0)));
        assert(-10 <= a2[0].mg <= 20);
        assert(-10 <= a2[0].eg <= 20);
    }
    limit_subsequent_drop(arr, 15, -200);
    proof {
        let sm = Seq::new(24, |k: int| a2[k].mg as int);
        let se = Seq::new(24, |k: int| a2[k].eg as int);
        assert(sm =~= shifted(prefix_mins(mgs(a0)), -10, 20));
        assert(se =~= shifted(prefix_mins(egs(a0)), -10, 20));
    }
}

/// What normalising the king ring table promises: a first entry in `[-10, 20]`, and after
/// it entries that never rise, drop by at most 15 at a time and stay at or above -200.
pub proof fn lemma_king_ring_shape(s: Seq<i32>, i: int)
    requires
        s.len() == 24,
        1 <= i < 24,
    ensures
        -10 <= king_ring_norm(s, 0) <= 20,
        king_ring_norm(s, i) <= king_ring_norm(s, i - 1),
        king_ring_norm(s, i) >= king_ring_norm(s, i - 1) - 15,
        king_ring_norm(s, i) >= -200,
    decreases i,
{
    let t = shifted(prefix_mins(s), -10, 20);
    assert(t[0] == prefix_min(s, 0) + shift_into(s[0] as int, -10, 20));
    if i > 1 {
        lemma_king_ring_shape(s, i - 1);
    }
}


/// Groups of scores laid out flat one after the other.
pub open spec fn flat_all(gs: Seq<Seq<Score>>) -> Seq<i32>
    decreases gs.len(),
{
    if gs.len() == 0 {
        Seq::empty()
    } else {
        flat_all(gs.drop_last()) + flat(gs.last())
    }
}

/// Each entry of `xs` repeated twice its size in `sizes`, group after group.
pub open spec fn spread<T>(xs: Seq<T>, sizes: Seq<int>) -> Seq<T>
    decreases xs.len(),
{
    if xs.len() == 0 || sizes.len() == 0 {
        Seq::empty()
    } else {
        spread(xs.drop_last(), sizes.drop_last()) + Seq::new(
            (2 * sizes.last()) as nat,
            |i: int| xs.last(),
        )
    }
}

/// `off` holds where each group starts in a flat layout of groups of the sizes `sizes`,
/// and where the last ends.
pub open spec fn offsets_fit(sizes: Seq<int>, off: Seq<int>) -> bool {
    &&& off.len() == sizes.len() + 1
    &&& off[0] == 0
    &&& forall|k: int| 0 <= k < sizes.len() ==> 0 <= #[trigger] sizes[k]
    &&& forall|k: int| 0 <= k < sizes.len() ==> off[k + 1] == off[k] + 2 * #[trigger] sizes[k]
}

/// Group starts never decrease and are not negative.
pub proof fn lemma_offsets_mono(sizes: Seq<int>, off: Seq<int>, j: int)
    requires
        offsets_fit(sizes, off),
        0 <= j <= sizes.len(),
    ensures
        forall|i: int| 0 <= i <= j ==> 0 <= #[trigger] off[i] <= off[j],
    decreases j,
{
    if j > 0 {
        lemma_offsets_mono(sizes, off, j - 1);
        assert(off[j] == off[j - 1] + 2 * sizes[j - 1]);
    }
}

/// The first `n` sizes with their starts fit as well.
proof fn lemma_offsets_prefix(sizes: Seq<int>, off: Seq<int>)
    requires
        offsets_fit(sizes, off),
        sizes.len() > 0,
    ensures
        offsets_fit(sizes.drop_last(), off.drop_last()),
{
    let s2 = sizes.drop_last();
    let o2 = off.drop_last();
    assert forall|k: int| 0 <= k < s2.len() implies o2[k + 1] == o2[k] + 2 * #[trigger] s2[k] by {
        assert(off[k + 1] == off[k] + 2 * sizes[k]);
    }
    assert forall|k: int| 0 <= k < s2.len() implies 0 <= #[trigger] s2[k] by {
        assert(0 <= sizes[k]);
    }
}

/// In a flat layout, each group sits between its start and the next.
pub proof fn lemma_flat_all_parts(gs: Seq<Seq<Score>>, sizes: Seq<int>, off: Seq<int>)
    requires
        offsets_fit(sizes, off),
        gs.len() == sizes.len(),
        forall|k: int| 0 <= k < gs.len() ==> (#[trigger] gs[k]).len() == sizes[k],
    ensures
        flat_all(gs).len() == off[gs.len() as int],
        forall|k: int|
            0 <= k < gs.len() ==> #[trigger] flat_all(gs).subrange(off[k], off[k + 1]) == flat(gs[k]),
    decreases gs.len(),
{
    if gs.len() > 0 {
        let n = gs.len() - 1;
        let g2 = gs.drop_last();
        lemma_offsets_prefix(sizes, off);
        assert forall|k: int| 0 <= k < g2.len() implies (#[trigger] g2[k]).len() == sizes.drop_last()[k] by {
            assert(gs[k].len() == sizes[k]);
        }
        lemma_flat_all_parts(g2, sizes.drop_last(), off.drop_last());
        lemma_flat(gs.last());
        lemma_offsets_mono(sizes, off, gs.len() as int);
        let a = flat_all(g2);
        let b = flat(gs.last());
        assert(gs.last().len() == sizes[n]);
        assert(off[n + 1] == off[n] + 2 * sizes[n]);
        assert forall|k: int| 0 <= k < gs.len() implies #[trigger] flat_all(gs).subrange(
            off[k],
            off[k + 1],
        ) == flat(gs[k]) by {
            if k < n {
                assert(g2[k] == gs[k]);
                assert(off.drop_last()[k] == off[k]);
                assert(off.drop_last()[k + 1] == off[k + 1]);
                assert(a.subrange(off.drop_last()[k], off.drop_last()[k + 1]) == flat(g2[k]));
                lemma_offsets_mono(sizes, off, n);
                assert(off[k + 1] <= off[n]);
                assert((a + b).subrange(off[k], off[k + 1]) =~= a.subrange(off[k], off[k + 1]));
            } else {
                assert((a + b).subrange(off[k], off[k + 1]) =~= b);
            }
        }
    }
}

/// A list that holds each group flat between its start and the next is the flat layout.
pub proof fn lemma_flat_all_eq(gs: Seq<Seq<Score>>, sizes: Seq<int>, off: Seq<int>, v: Seq<i32>)
    requires
        offsets_fit(sizes, off),
        gs.len() == sizes.len(),
        forall|k: int| 0 <= k < gs.len() ==> (#[trigger] gs[k]).len() == sizes[k],
        v.len() == off[gs.len() as int],
        forall|k: int|
            0 <= k < gs.len() ==> #[trigger] v.subrange(off[k], off[k + 1]) == flat(gs[k]),
    ensures
        flat_all(gs) == v,
    decreases gs.len(),
{
    if gs.len() == 0 {
        assert(v =~= Seq::<i32>::empty());
    } else {
        let n = gs.len() - 1;
        let g2 = gs.drop_last();
        lemma_offsets_prefix(sizes, off);
        lemma_offsets_mono(sizes, off, gs.len() as int);
        let v2 = v.subrange(0, off[n]);
        assert forall|k: int| 0 <= k < g2.len() implies (#[trigger] g2[k]).len() == sizes.drop_last()[k] by {
            assert(gs[k].len() == sizes[k]);
        }
        assert forall|k: int| 0 <= k < g2.len() implies #[trigger] v2.subrange(
            off.drop_last()[k],
            off.drop_last()[k + 1],
        ) == flat(g2[k]) by {
            assert(off.drop_last()[k] == off[k]);
            assert(off.drop_last()[k + 1] == off[k + 1]);
            assert(v.subrange(off[k], off[k + 1]) == flat(gs[k]));
            lemma_offsets_mono(sizes, off, n);
            assert(off[k + 1] <= off[n]);
            assert(v2.subrange(off[k], off[k + 1]) =~= v.subrange(off[k], off[k + 1]));
        }
        lemma_flat_all_eq(g2, sizes.drop_last(), off.drop_last(), v2);
        assert(v.subrange(off[n], off[n + 1]) == flat(gs[n]));
        assert(v =~= v2 + v.subrange(off[n], off[n + 1]));
    }
}

/// Flattening one more group appends it flat.
pub proof fn lemma_flat_all_take(gs: Seq<Seq<Score>>, k: int)
    requires
        0 <= k < gs.len(),
    ensures
        flat_all(gs.take(k + 1)) == flat_all(gs.take(k)) + flat(gs[k]),
{
    assert(gs.take(k + 1).drop_last() =~= gs.take(k));
}

/// One score flat is its two values.
pub proof fn lemma_flat_one(x: Score)
    ensures
        flat(seq![x]) == seq![x.mg, x.eg],
{
    assert(seq![x].drop_last() =~= Seq::<Score>::empty());
    assert(seq![x].last() == x);
    assert(flat(Seq::<Score>::empty()) =~= Seq::<i32>::empty());
    assert(flat(seq![x]) =~= seq![x.mg, x.eg]);
}

/// Reading one score back from two values.
pub proof fn lemma_unflat_one(v: Seq<i32>, o: int)
    requires
        0 <= o,
        o + 2 <= v.len(),
    ensures
        unflat(v.subrange(o, o + 2)) == seq![Score { mg: v[o], eg: v[o + 1] }],
{
    assert(unflat(v.subrange(o, o + 2)) =~= seq![Score { mg: v[o], eg: v[o + 1] }]);
}

/// Flattening what was read back from an even-length list gives the list.
pub proof fn lemma_flat_unflat(v: Seq<i32>)
    requires
        v.len() % 2 == 0,
    ensures
        flat(unflat(v)) == v,
{
    let s = unflat(v);
    lemma_flat(s);
    assert(flat(s).len() == v.len());
    assert forall|j: int| 0 <= j < v.len() implies #[trigger] flat(s)[j] == v[j] by {
        let i = j / 2;
        assert(0 <= i < s.len());
        if j % 2 == 0 {
            assert(j == 2 * i);
            assert(flat(s)[2 * i] == s[i].mg);
        } else {
            assert(j == 2 * i + 1);
            assert(flat(s)[2 * i] == s[i].mg);
            assert(flat(s)[2 * i + 1] == s[i].eg);
        }
    }
    assert(flat(s) =~= v);
}

/// Spreading one more entry appends its repeats.
pub proof fn lemma_spread_take<T>(xs: Seq<T>, sizes: Seq<int>, k: int)
    requires
        0 <= k < xs.len(),
        xs.len() == sizes.len(),
    ensures
        spread(xs.take(k + 1), sizes.take(k + 1)) == spread(xs.take(k), sizes.take(k)) + Seq::new(
            (2 * sizes[k]) as nat,
            |i: int| xs[k],
        ),
{
    assert(xs.take(k + 1).drop_last() =~= xs.take(k));
    assert(sizes.take(k + 1).drop_last() =~= sizes.take(k));
}

/// In a spread layout, the entries between a group's start and the next are its entry.
pub proof fn lemma_spread_parts<T>(xs: Seq<T>, sizes: Seq<int>, off: Seq<int>)
    requires
        offsets_fit(sizes, off),
        xs.len() == sizes.len(),
    ensures
        spread(xs, sizes).len() == off[xs.len() as int],
        forall|k: int, j: int|
            0 <= k < xs.len() && off[k] <= j < off[k + 1] ==> #[trigger] spread(xs, sizes)[j]
                == #[trigger] xs[k],
    decreases xs.len(),
{
    if xs.len() > 0 {
        let n = xs.len() - 1;
        lemma_offsets_prefix(sizes, off);
        lemma_spread_parts(xs.drop_last(), sizes.drop_last(), off.drop_last());
        lemma_offsets_mono(sizes, off, xs.len() as int);
        assert(off[n + 1] == off[n] + 2 * sizes[n]);
        assert forall|k: int, j: int|
            0 <= k < xs.len() && off[k] <= j < off[k + 1] implies #[trigger] spread(xs, sizes)[j]
            == #[trigger] xs[k] by {
            if k < n {
                assert(off.drop_last()[k] == off[k]);
                assert(off.drop_last()[k + 1] == off[k + 1]);
                assert(xs.drop_last()[k] == xs[k]);
                lemma_offsets_mono(sizes, off, n);
                assert(off[k + 1] <= off[n]);
            }
        }
    }
}


/// What moving the mean of `arr` into `base` needs: the running sums, the shifted entries and
/// the new base all fit in `i32`.
pub open spec fn normalise_ok(base: Score, arr: Seq<Score>) -> bool {
    &&& 0 < arr.len() <= i32::MAX
    &&& sums_fit(mgs(arr))
    &&& sums_fit(egs(arr))
    &&& forall|i: int|
        0 <= i < arr.len() ==> i32::MIN <= #[trigger] arr[i].mg - mean(mgs(arr)) <= i32::MAX
            && i32::MIN <= arr[i].eg - mean(egs(arr)) <= i32::MAX
    &&& i32::MIN <= base.mg + mean(mgs(arr)) <= i32::MAX
    &&& i32::MIN <= base.eg + mean(egs(arr)) <= i32::MAX
}

/// The table `arr` with its mean taken out.
pub open spec fn mean_removed(arr: Seq<Score>) -> Seq<Score> {
    Seq::new(
        arr.len(),
        |i: int|
            Score {
                mg: (arr[i].mg - mean(mgs(arr))) as i32,
                eg: (arr[i].eg - mean(egs(arr))) as i32,
            },
    )
}

/// `base` with the mean of `arr` added.
pub open spec fn mean_added(base: Score, arr: Seq<Score>) -> Score {
    Score { mg: (base.mg + mean(mgs(arr))) as i32, eg: (base.eg + mean(egs(arr))) as i32 }
}

/// The table raised to its running maxima, and lowered to its running minima.
pub open spec fn nondecreasing_of(s: Seq<Score>) -> Seq<Score> {
    Seq::new(
        s.len(),
        |i: int| Score { mg: prefix_max(mgs(s), i), eg: prefix_max(egs(s), i) },
    )
}

pub open spec fn nonincreasing_of(s: Seq<Score>) -> Seq<Score> {
    Seq::new(
        s.len(),
        |i: int| Score { mg: prefix_min(mgs(s), i), eg: prefix_min(egs(s), i) },
    )
}

/// The king ring table after `normalise_king_ring`.
pub open spec fn king_ring_of(s: Seq<Score>) -> Seq<Score> {
    Seq::new(
        s.len(),
        |i: int|
            Score { mg: king_ring_norm(mgs(s), i) as i32, eg: king_ring_norm(egs(s), i) as i32 },
    )
}

/// Each entry of `s` lowered to at most the entry of `cap` at the same place.
pub open spec fn capped_by(s: Seq<Score>, cap: Seq<Score>) -> Seq<Score> {
    Seq::new(
        s.len(),
        |i: int|
            Score {
                mg: if s[i].mg < cap[i].mg {
                    s[i].mg
                } else {
                    cap[i].mg
                },
                eg: if s[i].eg < cap[i].eg {
                    s[i].eg
                } else {
                    cap[i].eg
                },
            },
    )
}

/// Lowers each entry to at most the entry of `cap` at the same place.
pub fn cap_each<const N: usize>(arr: &mut [Score; N], cap: &[Score; N])
    ensures
        final(arr)@ == capped_by(old(arr)@, cap@),
{
    let ghost a0 = arr@;
    let mut i: usize = 0;
    while i < N
        invariant
            i <= N,
            arr@.len() == N,
            a0.len() == N,
            cap@.len() == N,
            forall|k: int| i <= k < N ==> #[trigger] arr@[k] == a0[k],
            forall|k: int| 0 <= k < i ==> #[trigger] arr@[k] == capped_by(a0, cap@)[k],
        decreases N - i,
    {
        let a = arr[i];
        let c = cap[i];
        arr[i] = Score {
            mg: if a.mg < c.mg {
                a.mg
            } else {
                c.mg
            },
            eg: if a.eg < c.eg {
                a.eg
            } else {
                c.eg
            },
        };
        i = i + 1;
    }
    assert(arr@ =~= capped_by(a0, cap@));
}

} // verus!
