//! The dashboard's numbers: the free space over a window, thinned to the width of a chart, the
//! growers' bars, and where the disk is headed.

use vstd::prelude::*;

verus! {

/// How wide a grower's bar is.
pub const BAR_WIDTH: u64 = 14;

// ---------------------------------------------------------------------------
// The window
// ---------------------------------------------------------------------------
/// A reading of the whole volume.
#[derive(Debug, Clone, Copy, PartialEq, Eq, Structural)]
pub struct DfSample {
    pub ts: i64,
    pub free_bytes: u64,
    pub total_bytes: u64,
}

/// The readings since a point in time, in their order.
pub open spec fn since(v: Seq<DfSample>, cutoff: i64) -> Seq<DfSample>
    decreases v.len(),
{
    if v.len() == 0 {
        Seq::empty()
    } else {
        let rest = since(v.drop_last(), cutoff);
        if v.last().ts >= cutoff {
            rest.push(v.last())
        } else {
            rest
        }
    }
}

/// What the dashboard shows of the free space.
#[derive(Debug)]
pub struct FreeWindow {
    /// The free bytes of each reading, the oldest first.
    pub free_series: Vec<u64>,
    pub free_now: u64,
    pub total: u64,
    pub low: u64,
    pub high: u64,
}

pub open spec fn frees(v: Seq<DfSample>) -> Seq<u64> {
    v.map_values(|s: DfSample| s.free_bytes)
}

pub open spec fn least(v: Seq<u64>) -> u64
    decreases v.len(),
{
    if v.len() == 0 {
        0
    } else if v.len() == 1 {
        v[0]
    } else {
        let m = least(v.drop_last());
        if v.last() < m {
            v.last()
        } else {
            m
        }
    }
}

pub open spec fn greatest(v: Seq<u64>) -> u64
    decreases v.len(),
{
    if v.len() == 0 {
        0
    } else {
        let m = greatest(v.drop_last());
        if v.last() > m {
            v.last()
        } else {
            m
        }
    }
}

/// The readings of a window; without any, everything is zero.
pub fn free_window(v: &Vec<DfSample>, cutoff: i64) -> (r: FreeWindow)
    ensures
        ({
            let w = since(v@, cutoff);
            &&& r.free_series@ == frees(w)
            &&& r.free_now == if w.len() == 0 {
                0
            } else {
                w.last().free_bytes
            }
            &&& r.total == if w.len() == 0 {
                0
            } else {
                w.last().total_bytes
            }
            &&& r.low == least(frees(w))
            &&& r.high == greatest(frees(w))
        }),
{
    let mut series: Vec<u64> = Vec::new();
    let mut free_now: u64 = 0;
    let mut total: u64 = 0;
    let mut low: u64 = 0;
    let mut high: u64 = 0;
    let mut i: usize = 0;
    assert(v@.take(0) =~= Seq::empty());
    assert(series@ =~= frees(since(v@.take(0), cutoff)));
    while i < v.len()
        invariant
            i <= v@.len(),
            series@ == frees(since(v@.take(i as int), cutoff)),
            since(v@.take(i as int), cutoff).len() == 0 ==> free_now == 0 && total == 0,
            since(v@.take(i as int), cutoff).len() > 0 ==> free_now == since(
                v@.take(i as int),
                cutoff,
            ).last().free_bytes && total == since(v@.take(i as int), cutoff).last().total_bytes,
            low == least(series@),
            high == greatest(series@),
        decreases v.len() - i,
    {
        assert(v@.take(i + 1).drop_last() =~= v@.take(i as int));
        assert(v@.take(i + 1).last() == v@[i as int]);
        let s: DfSample = v[i];
        let ghost w = since(v@.take(i as int), cutoff);
        if s.ts >= cutoff {
            let ghost before = series@;
            assert(since(v@.take(i + 1), cutoff) == w.push(s));
            low = if series.len() == 0 || s.free_bytes < low {
                s.free_bytes
            } else {
                low
            };
            high = if s.free_bytes > high {
                s.free_bytes
            } else {
                high
            };
            series.push(s.free_bytes);
            assert(series@ =~= frees(w.push(s)));
            assert(series@.drop_last() =~= before);
            free_now = s.free_bytes;
            total = s.total_bytes;
        }
        i += 1;
    }
    assert(v@.take(i as int) =~= v@);
    FreeWindow { free_series: series, free_now, total, low, high }
}

// ---------------------------------------------------------------------------
// The chart
// ---------------------------------------------------------------------------
pub open spec fn sum_of(v: Seq<u64>) -> nat
    decreases v.len(),
{
    if v.len() == 0 {
        0
    } else {
        sum_of(v.drop_last()) + v.last() as nat
    }
}

/// The mean of some numbers, cut to a whole one.
pub open spec fn mean(v: Seq<u64>) -> u64 {
    (sum_of(v) / v.len()) as u64
}

/// Where column `i` of a chart begins in a series.
pub open spec fn column_start(len: nat, width: nat, i: int) -> int {
    i * len / width as int
}

/// A series thinned to a width: each column is the mean of its stretch. A series that fits, or a
/// chart without a width, leaves it as it is.
pub open spec fn thinned(v: Seq<u64>, width: nat) -> Seq<u64> {
    if v.len() <= width || width == 0 {
        v
    } else {
        Seq::new(
            width,
            |i: int|
                mean(
                    v.subrange(
                        column_start(v.len(), width, i),
                        column_start(v.len(), width, i + 1),
                    ),
                ),
        )
    }
}

proof fn lemma_columns(len: nat, width: nat, i: int)
    requires
        0 < width < len,
        0 <= i < width,
    ensures
        0 <= column_start(len, width, i) < column_start(len, width, i + 1) <= len,
{
    let a = column_start(len, width, i);
    let b = column_start(len, width, i + 1);
    assert(a * width <= i * len < (a + 1) * width && a >= 0) by (nonlinear_arith)
        requires
            a == i * len / width as int,
            width > 0,
            i >= 0,
    ;
    assert(b * width <= (i + 1) * len < (b + 1) * width) by (nonlinear_arith)
        requires
            b == (i + 1) * len / width as int,
            width > 0,
            i >= 0,
    ;
    assert(b <= len) by (nonlinear_arith)
        requires
            b * width <= (i + 1) * len,
            i + 1 <= width,
            width > 0,
    ;
    assert(a < b) by (nonlinear_arith)
        requires
            a * width <= i * len,
            (i + 1) * len < (b + 1) * width,
            len > width,
            width > 0,
    ;
}

fn mean_of(v: &Vec<u64>, from: usize, to: usize) -> (r: u64)
    requires
        from < to <= v@.len(),
    ensures
        r == mean(v@.subrange(from as int, to as int)),
{
    let mut total: u128 = 0;
    let mut i: usize = from;
    assert(v@.subrange(from as int, from as int) =~= Seq::empty());
    while i < to
        invariant
            from <= i <= to <= v@.len(),
            total == sum_of(v@.subrange(from as int, i as int)),
            total <= (i - from) * 0xffff_ffff_ffff_ffff,
        decreases to - i,
    {
        let ghost next = v@.subrange(from as int, i + 1);
        assert(next.drop_last() =~= v@.subrange(from as int, i as int));
        assert(next.last() == v@[i as int]);
        let ghost k = i - from;
        assert(k * 0xffff_ffff_ffff_ffff <= 0xffff_ffff_ffff_ffff * 0xffff_ffff_ffff_ffff)
            by (nonlinear_arith)
            requires
                0 <= k <= 0xffff_ffff_ffff_ffff,
        ;
        total = total + v[i] as u128;
        i += 1;
    }
    let n: u128 = (to - from) as u128;
    let q: u128 = total / n;
    assert(q <= 0xffff_ffff_ffff_ffff) by (nonlinear_arith)
        requires
            q == total / n,
            n > 0,
            total <= n * 0xffff_ffff_ffff_ffff,
    ;
    q as u64
}

/// Thins a series to the width of a chart.
pub fn downsample(v: &Vec<u64>, width: usize) -> (r: Vec<u64>)
    ensures
        r@ == thinned(v@, width as nat),
{
    let n: usize = v.len();
    let mut out: Vec<u64> = Vec::new();
    if n <= width || width == 0 {
        let mut k: usize = 0;
        while k < v.len()
            invariant
                k <= v@.len(),
                out@ == v@.take(k as int),
            decreases v.len() - k,
        {
            out.push(v[k]);
            assert(v@.take(k as int).push(v@[k as int]) =~= v@.take(k + 1));
            k += 1;
        }
        assert(v@.take(k as int) =~= v@);
        return out;
    }
    let mut i: usize = 0;
    while i < width
        invariant
            i <= width < n,
            width > 0,
            n == v@.len(),
            out@ == thinned(v@, width as nat).take(i as int),
        decreases width - i,
    {
        proof {
            lemma_columns(n as nat, width as nat, i as int);
            assert(i * n <= 0xffff_ffff_ffff_ffff * 0xffff_ffff_ffff_ffff && (i + 1) * n
                <= 0xffff_ffff_ffff_ffff * 0xffff_ffff_ffff_ffff && i * n >= 0) by (nonlinear_arith)
                requires
                    0 <= i < 0xffff_ffff_ffff_ffff,
                    0 <= n <= 0xffff_ffff_ffff_ffff,
            ;
        }
        let from: usize = (i as u128 * n as u128 / width as u128) as usize;
        let to: usize = ((i as u128 + 1) * n as u128 / width as u128) as usize;
        out.push(mean_of(v, from, to));
        assert(thinned(v@, width as nat).take(i as int).push(thinned(v@, width as nat)[i as int])
            =~= thinned(v@, width as nat).take(i + 1));
        i += 1;
    }
    assert(thinned(v@, width as nat).take(i as int) =~= thinned(v@, width as nat));
    out
}

/// Every reading counts once: the columns of a thinned chart begin at the first reading, end at
/// the last, and each begins where the one before ends.
pub proof fn columns_cover_the_series(len: nat, width: nat, i: int)
    requires
        0 < width < len,
        0 <= i < width,
    ensures
        column_start(len, width, 0) == 0,
        column_start(len, width, width as int) == len,
        column_start(len, width, i) < column_start(len, width, i + 1) <= len,
{
    lemma_columns(len, width, i);
    assert(0int * len / width as int == 0) by (nonlinear_arith)
        requires
            width > 0,
    ;
    assert((width as int) * len / width as int == len) by (nonlinear_arith)
        requires
            width > 0,
    ;
}

// ---------------------------------------------------------------------------
// Growers
// ---------------------------------------------------------------------------
/// How many cells of a bar are filled: the share of the largest growth, rounded to the nearest,
/// a half upwards.
pub open spec fn filled_of(delta: u64, largest: u64) -> int {
    if largest == 0 {
        0
    } else {
        let f = (2 * BAR_WIDTH * delta + largest) / (2 * largest as int);
        if f > BAR_WIDTH {
            BAR_WIDTH as int
        } else {
            f
        }
    }
}

pub fn filled_cells(delta: u64, largest: u64) -> (r: u64)
    ensures
        r == filled_of(delta, largest),
{
    if largest == 0 {
        return 0;
    }
    let f: u128 = (28 * delta as u128 + largest as u128) / (2 * largest as u128);
    if f > 14 {
        14
    } else {
        f as u64
    }
}

/// The largest growth fills its bar, and no bar is overfull.
pub proof fn largest_growth_fills_its_bar(delta: u64, largest: u64)
    requires
        delta <= largest,
        largest > 0,
    ensures
        0 <= filled_of(delta, largest) <= BAR_WIDTH,
        filled_of(largest, largest) == BAR_WIDTH,
{
    let f = (2 * BAR_WIDTH * delta + largest) / (2 * largest as int);
    assert(f >= 0) by (nonlinear_arith)
        requires
            f == (28 * delta + largest) / (2 * largest as int),
            largest > 0,
            delta >= 0,
    ;
    let g = (2 * BAR_WIDTH * largest + largest) / (2 * largest as int);
    assert(g == 14) by (nonlinear_arith)
        requires
            g == (28 * largest + largest) / (2 * largest as int),
            largest > 0,
    ;
}

// ---------------------------------------------------------------------------
// The trend
// ---------------------------------------------------------------------------
/// How fast the free space changes, in bytes a day.
#[derive(Debug, Clone, Copy, PartialEq, Eq, Structural)]
pub enum BurnRate {
    Shrinking(u64),
    Growing(u64),
    Still,
}

/// Where the disk is headed.
#[derive(Debug, Clone, Copy, PartialEq, Eq, Structural)]
pub enum Outlook {
    /// It fills at this rate and is full in so many days.
    Filling(u64, i64),
    /// Space is coming free at this rate.
    Reclaiming(u64),
    Flat,
    /// There are too few readings.
    Unknown,
}

/// A shrinking free space without a day on which it ends counts as flat.
pub open spec fn outlook_of(rate: Option<BurnRate>, days: Option<i64>) -> Outlook {
    match rate {
        None => Outlook::Unknown,
        Some(BurnRate::Shrinking(b)) => match days {
            Some(d) => Outlook::Filling(b, d),
            None => Outlook::Flat,
        },
        Some(BurnRate::Growing(b)) => Outlook::Reclaiming(b),
        Some(BurnRate::Still) => Outlook::Flat,
    }
}

pub fn outlook(rate: Option<BurnRate>, days: Option<i64>) -> (r: Outlook)
    ensures
        r == outlook_of(rate, days),
{
    match rate {
        None => Outlook::Unknown,
        Some(BurnRate::Shrinking(b)) => match days {
            Some(d) => Outlook::Filling(b, d),
            None => Outlook::Flat,
        },
        Some(BurnRate::Growing(b)) => Outlook::Reclaiming(b),
        Some(BurnRate::Still) => Outlook::Flat,
    }
}

} // verus!
