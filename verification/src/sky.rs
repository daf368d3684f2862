//! Sky statistics of a grayscale frame: where the landscape horizon starts
//! and the median and median absolute deviation of the sky background.
use vstd::prelude::*;
use crate::raster::{GrayPlane, GrayView};

verus! {

/// Number of columns sampled per row by the horizon test: 5, 9, 13, ...
/// below `width - 5`.
pub open spec fn horizon_samples(width: int) -> int {
    if width <= 10 { 0 } else { (width - 10 + 3) / 4 }
}

/// Sum of the first `n` sampled values of row `y`.
pub open spec fn row_sum(v: GrayView, y: int, n: int) -> int
    decreases n,
{
    if n <= 0 { 0 } else { row_sum(v, y, n - 1) + v.px(5 + 4 * (n - 1), y) }
}

/// Sum of the squares of the first `n` sampled values of row `y`.
pub open spec fn row_sq_sum(v: GrayView, y: int, n: int) -> int
    decreases n,
{
    if n <= 0 { 0 } else {
        row_sq_sum(v, y, n - 1) + v.px(5 + 4 * (n - 1), y) * v.px(5 + 4 * (n - 1), y)
    }
}

/// Absolute difference between a pixel and the pixel two rows above.
pub open spec fn vertical_step(v: GrayView, x: int, y: int) -> int {
    let d = v.px(x, y) - v.px(x, y - 2);
    if d < 0 { -d } else { d }
}

/// Sum of the vertical steps of the first `n` sampled columns of row `y`.
pub open spec fn row_edge_sum(v: GrayView, y: int, n: int) -> int
    decreases n,
{
    if n <= 0 { 0 } else { row_edge_sum(v, y, n - 1) + vertical_step(v, 5 + 4 * (n - 1), y) }
}

/// Row `y` looks like landscape: with `c = (width - 10) / 4`, its sampled mean
/// exceeds 32 while its variance exceeds 110, or its mean vertical step
/// exceeds 12. The comparisons are those of `sum / c`, `sq / c - (sum / c)^2`
/// and `edge / c`, cleared of the divisor.
pub open spec fn is_horizon_row(v: GrayView, y: int) -> bool {
    let n = horizon_samples(v.width as int);
    let c = (v.width - 10) / 4;
    let s = row_sum(v, y, n);
    let q = row_sq_sum(v, y, n);
    let e = row_edge_sum(v, y, n);
    (s > 32 * c && q * c - s * s > 110 * c * c) || e > 12 * c
}

/// The horizon test in terms of the row's statistics over its `n` sampled
/// columns, with `c = (width - 10) / 4` as the divisor: a row is landscape
/// when its mean vertical step exceeds 12 (`edge > 12 c`), or when its mean
/// exceeds 32 (`sum > 32 c`) and its variance `sq / c - (sum / c)^2` exceeds
/// 110, i.e. `sq c - sum^2 > 110 c^2`; a row with mean step at most 12 and
/// either mean at most 32 or variance at most 110 is never landscape.
pub proof fn lemma_horizon_thresholds(v: GrayView, y: int)
    requires
        v.width >= 15,
    ensures
        row_edge_sum(v, y, horizon_samples(v.width as int)) > 12 * ((v.width - 10) / 4)
            ==> is_horizon_row(v, y),
        row_sum(v, y, horizon_samples(v.width as int)) > 32 * ((v.width - 10) / 4)
            && row_sq_sum(v, y, horizon_samples(v.width as int)) * ((v.width - 10) / 4)
                - row_sum(v, y, horizon_samples(v.width as int)) * row_sum(v, y, horizon_samples(v.width as int))
                > 110 * ((v.width - 10) / 4) * ((v.width - 10) / 4)
            ==> is_horizon_row(v, y),
        row_edge_sum(v, y, horizon_samples(v.width as int)) <= 12 * ((v.width - 10) / 4)
            && (row_sum(v, y, horizon_samples(v.width as int)) <= 32 * ((v.width - 10) / 4)
                || row_sq_sum(v, y, horizon_samples(v.width as int)) * ((v.width - 10) / 4)
                    - row_sum(v, y, horizon_samples(v.width as int)) * row_sum(v, y, horizon_samples(v.width as int))
                    <= 110 * ((v.width - 10) / 4) * ((v.width - 10) / 4))
            ==> !is_horizon_row(v, y),
{
}

/// The first row searched for the horizon: two fifths down the frame.
pub open spec fn horizon_search_start(height: int) -> int {
    2 * height / 5
}

/// Evaluates `is_horizon_row` for row `y`.
fn horizon_row_test(img: &GrayPlane, y: u32) -> (r: bool)
    requires
        img@.width >= 10,
        2 <= y < img@.height,
    ensures
        r == is_horizon_row(img@, y as int),
{
    let w = img.width();
    let ghost v = img@;
    let ghost n = horizon_samples(w as int);
    let mut sum: u64 = 0;
    let mut sq: u64 = 0;
    let mut edge: u64 = 0;
    let mut x: u32 = 5;
    let mut j: u64 = 0;
    while x < w - 5
        invariant
            v == img@,
            v.wf(),
            w == v.width,
            w >= 10,
            2 <= y < v.height,
            x == 5 + 4 * j,
            n == horizon_samples(w as int),
            j <= n,
            sum == row_sum(v, y as int, j as int),
            sq == row_sq_sum(v, y as int, j as int),
            edge == row_edge_sum(v, y as int, j as int),
            sum <= 255 * j,
            sq <= 65025 * j,
            edge <= 255 * j,
            j <= u32::MAX,
        decreases w - x,
    {
        let val = img.pixel(x, y) as u64;
        let above = img.pixel(x, y - 2) as u64;
        let step: u64 = if val >= above { val - above } else { above - val };
        assert(val * val <= 65025) by (nonlinear_arith)
            requires val <= 255;
        sum = sum + val;
        sq = sq + val * val;
        edge = edge + step;
        j = j + 1;
        x = x + 4;
    }
    assert(j == n);
    let c: u128 = ((w - 10) / 4) as u128;
    let s: u128 = sum as u128;
    let q: u128 = sq as u128;
    let e: u128 = edge as u128;
    proof {
        assert(c * c <= (u32::MAX as u128) * (u32::MAX as u128)) by (nonlinear_arith)
            requires c <= u32::MAX;
        assert(q * c <= (65025 * (u32::MAX as u128)) * (u32::MAX as u128)) by (nonlinear_arith)
            requires q <= 65025 * (u32::MAX as u128), c <= u32::MAX;
        assert(s <= 0x1_0000_0000_00);
        assert(s * s <= 0x1_0000_0000_00 * 0x1_0000_0000_00) by (nonlinear_arith)
            requires s <= 0x1_0000_0000_00;
        assert(110 * c * c <= 110 * ((u32::MAX as u128) * (u32::MAX as u128))) by (nonlinear_arith)
            requires c <= u32::MAX;
    }
    let bright_and_rough = s > 32 * c && q * c > s * s + 110 * c * c;
    bright_and_rough || e > 12 * c
}

/// Finds the landscape horizon: scanning upwards from ten rows above the
/// bottom to two fifths of the height, the first row that `is_horizon_row`
/// accepts. Frames under 100 rows or under 15 columns have no horizon.
pub fn detect_horizon_y(img: &GrayPlane) -> (r: Option<u32>)
    ensures
        img@.height < 100 || img@.width < 15 ==> r is None,
        img@.height >= 100 && img@.width >= 15 ==> match r {
            Some(y) => {
                &&& horizon_search_start(img@.height as int) <= y < img@.height - 10
                &&& is_horizon_row(img@, y as int)
                &&& forall|y2: int| y < y2 < img@.height - 10 ==> !#[trigger] is_horizon_row(img@, y2)
            },
            None => forall|y2: int|
                horizon_search_start(img@.height as int) <= y2 < img@.height - 10
                ==> !#[trigger] is_horizon_row(img@, y2),
        },
{
    let h = img.height();
    if h < 100 || img.width() < 15 {
        return None;
    }
    let start: u32 = ((2 * (h as u64)) / 5) as u32;
    let mut y: u32 = h - 10;
    while y > start
        invariant
            h == img@.height,
            h >= 100,
            img@.width >= 15,
            start == horizon_search_start(h as int),
            start <= y <= h - 10,
            forall|y2: int| y <= y2 < h - 10 ==> !#[trigger] is_horizon_row(img@, y2),
        decreases y,
    {
        y = y - 1;
        if horizon_row_test(img, y) {
            return Some(y);
        }
    }
    None
}

/// How many of the values are at most `t`.
pub open spec fn count_at_most(s: Seq<u8>, t: int) -> nat
    decreases s.len(),
{
    if s.len() == 0 {
        0
    } else {
        count_at_most(s.drop_last(), t) + (if s.last() <= t { 1nat } else { 0nat })
    }
}

/// How many of the values equal `t`.
pub open spec fn count_equal(s: Seq<u8>, t: int) -> nat
    decreases s.len(),
{
    if s.len() == 0 {
        0
    } else {
        count_equal(s.drop_last(), t) + (if s.last() == t { 1nat } else { 0nat })
    }
}

/// `m` is the value at index `k` of the values sorted ascending: more than
/// `k` values are at most `m`, and at most `k` values are below it.
pub open spec fn is_order_statistic(s: Seq<u8>, k: int, m: int) -> bool {
    count_at_most(s, m) > k && count_at_most(s, m - 1) <= k
}

proof fn lemma_counts_bounded(s: Seq<u8>, t: int)
    ensures
        count_at_most(s, t) <= s.len(),
        count_equal(s, t) <= s.len(),
        t >= 255 ==> count_at_most(s, t) == s.len(),
        t < 0 ==> count_at_most(s, t) == 0,
    decreases s.len(),
{
    if s.len() > 0 {
        lemma_counts_bounded(s.drop_last(), t);
    }
}

proof fn lemma_count_step(s: Seq<u8>, t: int)
    ensures
        count_at_most(s, t) == count_at_most(s, t - 1) + count_equal(s, t),
    decreases s.len(),
{
    if s.len() > 0 {
        lemma_count_step(s.drop_last(), t);
    }
}

/// The count of values at most `t` never decreases as `t` grows.
proof fn lemma_count_monotone(s: Seq<u8>, t1: int, t2: int)
    requires
        t1 <= t2,
    ensures
        count_at_most(s, t1) <= count_at_most(s, t2),
    decreases s.len(),
{
    if s.len() > 0 {
        lemma_count_monotone(s.drop_last(), t1, t2);
    }
}

/// The value at a given index of the sorted values is unique, so the median
/// and the deviation that `background_levels` returns are determined by the
/// frame.
pub proof fn lemma_order_statistic_unique(s: Seq<u8>, k: int, m1: int, m2: int)
    requires
        is_order_statistic(s, k, m1),
        is_order_statistic(s, k, m2),
    ensures
        m1 == m2,
{
    if m1 < m2 {
        lemma_count_monotone(s, m1, m2 - 1);
    }
    if m2 < m1 {
        lemma_count_monotone(s, m2, m1 - 1);
    }
}

/// The value at index `k` of `s` sorted ascending.
pub fn order_statistic(s: &Vec<u8>, k: usize) -> (m: u8)
    requires
        k < s@.len(),
    ensures
        is_order_statistic(s@, k as int, m as int),
{
    let mut hist: Vec<usize> = Vec::new();
    let mut t: usize = 0;
    while t < 256
        invariant
            t <= 256,
            hist@.len() == t,
            forall|u: int| 0 <= u < t ==> #[trigger] hist@[u] == 0,
        decreases 256 - t,
    {
        hist.push(0);
        t = t + 1;
    }
    let mut i: usize = 0;
    proof {
        assert(s@.take(0) =~= Seq::<u8>::empty());
    }
    while i < s.len()
        invariant
            0 <= i <= s@.len(),
            hist@.len() == 256,
            forall|u: int| 0 <= u < 256 ==> #[trigger] hist@[u] == count_equal(s@.take(i as int), u),
        decreases s@.len() - i,
    {
        let b = s[i] as usize;
        proof {
            assert(s@.take(i + 1).drop_last() =~= s@.take(i as int));
            lemma_counts_bounded(s@.take(i as int), b as int);
            assert forall|u: int| 0 <= u < 256 implies
                count_equal(s@.take(i + 1), u) == count_equal(s@.take(i as int), u) + (if u == b { 1int } else { 0int }) by {
                assert(s@.take(i + 1).last() == s@[i as int]);
            }
        }
        hist.set(b, hist[b] + 1);
        i = i + 1;
    }
    proof {
        assert(s@.take(s@.len() as int) =~= s@);
        lemma_counts_bounded(s@, 255);
        lemma_counts_bounded(s@, -1);
    }
    let n: usize = s.len();
    let mut cum: usize = 0;
    let mut v: usize = 0;
    while v < 256
        invariant
            0 <= v <= 256,
            hist@.len() == 256,
            forall|u: int| 0 <= u < 256 ==> #[trigger] hist@[u] == count_equal(s@, u),
            cum == count_at_most(s@, v - 1),
            cum <= k,
            k < s@.len(),
            n == s@.len(),
            count_at_most(s@, 255) == s@.len(),
        decreases 256 - v,
    {
        proof {
            lemma_count_step(s@, v as int);
            lemma_counts_bounded(s@, v as int);
        }
        cum = cum + hist[v];
        if cum > k {
            return v as u8;
        }
        v = v + 1;
    }
    proof {
        assert(false);
    }
    0
}

/// Number of sampled columns per sampled row: 0, 3, 6, ... below `width`.
pub open spec fn sky_row_samples(width: int) -> int {
    (width + 2) / 3
}

/// The sampled values of row `y`.
pub open spec fn sample_row(v: GrayView, y: int) -> Seq<u8> {
    Seq::new(sky_row_samples(v.width as int) as nat, |j: int| v.px(3 * j, y))
}

/// The background sample of the first `rows` sampled rows (0, 3, 6, ...),
/// row by row.
pub open spec fn grid_samples(v: GrayView, rows: int) -> Seq<u8>
    decreases rows,
{
    if rows <= 0 {
        Seq::empty()
    } else {
        grid_samples(v, rows - 1) + sample_row(v, 3 * (rows - 1))
    }
}

/// The background sample above row `max_y`: every third pixel of every
/// third row, row by row.
pub open spec fn sky_samples(v: GrayView, max_y: int) -> Seq<u8> {
    grid_samples(v, (max_y + 2) / 3)
}

/// Absolute deviations of the values from `m`.
pub open spec fn deviations(s: Seq<u8>, m: int) -> Seq<u8> {
    Seq::new(s.len(), |i: int| (if s[i] >= m { s[i] - m } else { m - s[i] }) as u8)
}

/// How many of the values lie in [`lo`, `hi`].
pub open spec fn count_between(s: Seq<u8>, lo: int, hi: int) -> nat
    decreases s.len(),
{
    if s.len() == 0 {
        0
    } else {
        count_between(s.drop_last(), lo, hi) + (if lo <= s.last() <= hi { 1nat } else { 0nat })
    }
}

/// Counting deviations from `m` of at most `t` counts the values within `t`
/// of `m`.
proof fn lemma_deviation_counts(s: Seq<u8>, m: int, t: int)
    requires
        0 <= m <= 255,
    ensures
        count_at_most(deviations(s, m), t) == count_between(s, m - t, m + t),
    decreases s.len(),
{
    if s.len() > 0 {
        assert(deviations(s, m).drop_last() =~= deviations(s.drop_last(), m));
        lemma_deviation_counts(s.drop_last(), m, t);
    }
}

/// The deviation level is the median absolute deviation on both sides of
/// the median: with `k` half the sample count, more than `k` values lie
/// within `d` of `m`, and at most `k` lie strictly closer than `d`.
pub proof fn lemma_deviation_is_two_sided(s: Seq<u8>, m: u8, d: u8)
    requires
        is_order_statistic(deviations(s, m as int), (s.len() / 2) as int, d as int),
    ensures
        count_between(s, m - d, m + d) > s.len() / 2,
        count_between(s, m - d + 1, m + d - 1) <= s.len() / 2,
{
    lemma_deviation_counts(s, m as int, d as int);
    lemma_deviation_counts(s, m as int, d - 1);
}

fn collect_sky_samples(img: &GrayPlane, max_y: u32) -> (r: Vec<u8>)
    requires
        max_y <= img@.height,
    ensures
        r@ == sky_samples(img@, max_y as int),
{
    let w = img.width();
    let ghost v = img@;
    let mut out: Vec<u8> = Vec::new();
    let mut y: u64 = 0;
    let ghost mut rows: int = 0;
    while y < max_y as u64
        invariant
            v == img@,
            v.wf(),
            w == v.width,
            max_y <= v.height,
            y == 3 * rows,
            0 <= rows <= (max_y + 2) / 3,
            y < max_y ==> rows < (max_y + 2) / 3,
            y >= max_y ==> rows == (max_y + 2) / 3,
            y <= max_y + 2,
            out@ == grid_samples(v, rows),
        decreases max_y + 3 - y,
    {
        let mut x: u64 = 0;
        let ghost mut j: int = 0;
        while x < w as u64
            invariant
                v == img@,
                v.wf(),
                w == v.width,
                y < max_y <= v.height,
                x == 3 * j,
                0 <= j <= sky_row_samples(w as int),
                x < w ==> j < sky_row_samples(w as int),
                x >= w ==> j == sky_row_samples(w as int),
                x <= w + 2,
                out@ == grid_samples(v, rows) + sample_row(v, y as int).take(j),
            decreases w + 3 - x,
        {
            let p = img.pixel(x as u32, y as u32);
            proof {
                assert(sample_row(v, y as int).take(j + 1) =~= sample_row(v, y as int).take(j).push(p));
            }
            out.push(p);
            proof {
                j = j + 1;
            }
            x = x + 3;
        }
        proof {
            assert(sample_row(v, y as int).take(j) =~= sample_row(v, y as int));
            rows = rows + 1;
            assert(grid_samples(v, rows) == grid_samples(v, rows - 1) + sample_row(v, 3 * (rows - 1)));
        }
        y = y + 3;
    }
    out
}

/// The sky background levels above row `max_y`: the median of the background
/// sample and the median absolute deviation from it, both taken as the value
/// at index `len / 2` of the sorted values; `None` for an empty sample.
pub fn background_levels(img: &GrayPlane, max_y: u32) -> (r: Option<(u8, u8)>)
    requires
        max_y <= img@.height,
    ensures
        r is None <==> sky_samples(img@, max_y as int).len() == 0,
        r matches Some((m, d)) ==> {
            let s = sky_samples(img@, max_y as int);
            &&& is_order_statistic(s, (s.len() / 2) as int, m as int)
            &&& is_order_statistic(deviations(s, m as int), (s.len() / 2) as int, d as int)
            &&& count_between(s, m - d, m + d) > s.len() / 2
            &&& count_between(s, m - d + 1, m + d - 1) <= s.len() / 2
        },
{
    let samples = collect_sky_samples(img, max_y);
    if samples.len() == 0 {
        return None;
    }
    let k = samples.len() / 2;
    let m = order_statistic(&samples, k);
    let mut devs: Vec<u8> = Vec::new();
    let mut i: usize = 0;
    while i < samples.len()
        invariant
            0 <= i <= samples@.len(),
            devs@ == deviations(samples@, m as int).take(i as int),
        decreases samples@.len() - i,
    {
        let p = samples[i];
        let d: u8 = if p >= m { p - m } else { m - p };
        proof {
            assert(deviations(samples@, m as int).take(i + 1)
                =~= deviations(samples@, m as int).take(i as int).push(d));
        }
        devs.push(d);
        i = i + 1;
    }
    proof {
        assert(deviations(samples@, m as int).take(samples@.len() as int) =~= deviations(samples@, m as int));
    }
    let d = order_statistic(&devs, k);
    proof {
        lemma_deviation_is_two_sided(samples@, m, d);
    }
    Some((m, d))
}

} // verus!
