//! Peak buckets for drawing a waveform.
//!
//! Samples are `f32` values carried as their IEEE-754 bit patterns. For
//! non-negative values that are not NaN, the order of the values is the
//! order of their bit patterns, so the peaks are computed on the patterns.
use vstd::prelude::*;

verus! {

/// The bit pattern of `|x|`: the sign bit cleared.
pub open spec fn abs_bits(v: u32) -> u32 {
    if v >= 0x8000_0000 {
        (v - 0x8000_0000) as u32
    } else {
        v
    }
}

/// One step of `peak.max(value.abs())`: a NaN leaves the peak unchanged
/// (`f32::max` returns the other argument), a larger magnitude replaces it.
pub open spec fn peak_step(peak: u32, v: u32) -> u32 {
    let a = abs_bits(v);
    if a > 0x7F80_0000 {
        peak
    } else if a > peak {
        a
    } else {
        peak
    }
}

/// The largest magnitude in `s`, starting from 0.0, folded left to right.
pub open spec fn peak_of(s: Seq<u32>) -> u32
    decreases s.len(),
{
    if s.len() == 0 {
        0
    } else {
        peak_step(peak_of(s.drop_last()), s.last())
    }
}

/// The peak of a run of samples is the largest magnitude among its samples
/// that are not NaN, or 0.0 when there is none: it is never negative or NaN,
/// no such sample exceeds it, and it is 0.0 or the magnitude of one of them.
pub proof fn lemma_peak_is_largest_magnitude(s: Seq<u32>)
    ensures
        peak_of(s) <= 0x7F80_0000,
        forall|i: int|
            0 <= i < s.len() && abs_bits(#[trigger] s[i]) <= 0x7F80_0000 ==> abs_bits(s[i])
                <= peak_of(s),
        peak_of(s) == 0 || exists|i: int|
            0 <= i < s.len() && abs_bits(#[trigger] s[i]) == peak_of(s),
    decreases s.len(),
{
    if s.len() > 0 {
        let t = s.drop_last();
        lemma_peak_is_largest_magnitude(t);
        assert forall|i: int|
            0 <= i < s.len() && abs_bits(#[trigger] s[i]) <= 0x7F80_0000 implies abs_bits(s[i])
                <= peak_of(s) by {
            if i < t.len() {
                assert(s[i] == t[i]);
            }
        }
        if peak_of(s) != 0 {
            if peak_of(s) == peak_of(t) {
                let i = choose|i: int| 0 <= i < t.len() && abs_bits(#[trigger] t[i]) == peak_of(t);
                assert(s[i] == t[i]);
            } else {
                assert(abs_bits(s[s.len() - 1]) == peak_of(s));
            }
        }
    }
}

/// `n / d` rounded up.
pub open spec fn ceil_div(n: nat, d: nat) -> nat
    recommends
        d > 0,
{
    n / d + if n % d == 0 {
        0nat
    } else {
        1nat
    }
}

/// The smaller of two numbers.
pub open spec fn min_nat(a: nat, b: nat) -> nat {
    if a < b {
        a
    } else {
        b
    }
}

/// The `j`-th chunk of `width` samples (the last may be shorter).
pub open spec fn chunk(s: Seq<u32>, width: nat, j: nat) -> Seq<u32> {
    s.subrange((j * width) as int, min_nat((j + 1) * width, s.len()) as int)
}

/// The peak buckets: the samples are cut into chunks of `ceil(len / buckets)`
/// samples, and each of the first `buckets` chunks gives its peak.
pub open spec fn waveform_spec(s: Seq<u32>, buckets: nat) -> Seq<u32> {
    if s.len() == 0 || buckets == 0 {
        Seq::empty()
    } else {
        let width = ceil_div(s.len(), buckets);
        Seq::new(
            min_nat(ceil_div(s.len(), width), buckets),
            |j: int| peak_of(chunk(s, width, j as nat)),
        )
    }
}

proof fn lemma_ceil_div(n: nat, w: nat, k: nat)
    requires
        w > 0,
        k >= 1,
        (k - 1) * w < n,
        n <= k * w,
    ensures
        k == ceil_div(n, w),
{
    let q = n / w;
    let r = n % w;
    assert(n == q * w + r && 0 <= r < w) by (nonlinear_arith)
        requires
            w > 0,
            q == n / w,
            r == n % w,
    ;
    assert(k == q + if r == 0 { 0nat } else { 1nat }) by (nonlinear_arith)
        requires
            n == q * w + r,
            0 <= r < w,
            (k - 1) * w < n,
            n <= k * w,
            k >= 1,
    ;
}

/// Reduces mono sample data (as `f32` bit patterns) to absolute peak
/// buckets for waveform drawing.
pub fn waveform_peaks(samples: &[u32], buckets: usize) -> (out: Vec<u32>)
    ensures
        out@ == waveform_spec(samples@, buckets as nat),
{
    let n = samples.len();
    if n == 0 || buckets == 0 {
        let out: Vec<u32> = Vec::new();
        assert(out@ =~= waveform_spec(samples@, buckets as nat));
        return out;
    }
    let q = n / buckets;
    assert(q <= n && (n % buckets != 0 ==> q < n) && (n % buckets == 0 ==> q >= 1)) by (nonlinear_arith)
        requires
            n >= 1,
            buckets >= 1,
            q == n / buckets,
    ;
    let width = if n % buckets == 0 { q } else { q + 1 };
    assert(0 * width == 0) by (nonlinear_arith);
    let mut out: Vec<u32> = Vec::new();
    let mut start: usize = 0;
    while start < n && out.len() < buckets
        invariant
            n == samples@.len(),
            width == ceil_div(n as nat, buckets as nat),
            width >= 1,
            start <= n,
            start == min_nat((out@.len() * width) as nat, n as nat),
            out@.len() <= buckets,
            out@.len() > 0 ==> (out@.len() - 1) * width < n,
            forall|j: int|
                0 <= j < out@.len() ==> #[trigger] out@[j] == peak_of(
                    chunk(samples@, width as nat, j as nat),
                ),
        decreases n - start,
    {
        let end = if n - start > width { start + width } else { n };
        let mut peak: u32 = 0;
        let mut i = start;
        while i < end
            invariant
                start <= i <= end <= n == samples@.len(),
                peak == peak_of(samples@.subrange(start as int, i as int)),
            decreases end - i,
        {
            let v = samples[i];
            let a = if v >= 0x8000_0000 { v - 0x8000_0000 } else { v };
            if a <= 0x7F80_0000 && a > peak {
                peak = a;
            }
            assert(samples@.subrange(start as int, i + 1).drop_last() =~= samples@.subrange(
                start as int,
                i as int,
            ));
            i += 1;
        }
        let ghost k = out@.len();
        assert((k + 1) * width == k * width + width) by (nonlinear_arith);
        assert(end == min_nat(((k + 1) * width) as nat, n as nat));
        assert(start == k * width);
        out.push(peak);
        start = end;
    }
    let ghost k = out@.len();
    assert(k >= 1);
    if out.len() < buckets {
        assert(start >= n);
        assert(n <= k * width);
        proof {
            lemma_ceil_div(n as nat, width as nat, k);
        }
    } else {
        assert(k <= ceil_div(n as nat, width as nat)) by {
            if k > ceil_div(n as nat, width as nat) {
                let c = ceil_div(n as nat, width as nat);
                assert(c * width >= n) by (nonlinear_arith)
                    requires
                        width >= 1,
                        c == n as nat / width as nat + if n as nat % width as nat == 0 { 0nat } else { 1nat },
                ;
                assert((k - 1) * width >= c * width) by (nonlinear_arith)
                    requires
                        k - 1 >= c,
                        width >= 1,
                ;
            }
        }
    }
    assert(out@ =~= waveform_spec(samples@, buckets as nat));
    out
}


/// `ceil_div` is `(n + d - 1) / d`, and it is the least `c` with `c * d >= n`.
proof fn lemma_ceil_facts(n: nat, d: nat)
    requires
        d > 0,
    ensures
        ceil_div(n, d) == (n + d - 1) / (d as int),
        ceil_div(n, d) * d >= n,
        n > 0 ==> ceil_div(n, d) >= 1 && (ceil_div(n, d) - 1) * d < n,
{
    let q = n / d;
    let r = n % d;
    assert(n == q * d + r && 0 <= r < d) by (nonlinear_arith)
        requires
            d > 0,
            q == n / d,
            r == n % d,
    ;
    let x: int = n + d - 1;
    if r == 0 {
        assert(x == q * d + (d - 1));
        vstd::arithmetic::div_mod::lemma_fundamental_div_mod_converse(x, d as int, q as int, d - 1);
        if n > 0 {
            assert(q >= 1 && (q - 1) * d < n) by (nonlinear_arith)
                requires
                    n == q * d,
                    n > 0,
                    d > 0,
            ;
        }
    } else {
        assert(x == (q + 1) * d + (r - 1)) by (nonlinear_arith)
            requires
                n == q * d + r,
                x == n + d - 1,
        ;
        vstd::arithmetic::div_mod::lemma_fundamental_div_mod_converse(x, d as int, (q + 1) as int, (r - 1) as int);
        assert((q + 1) * d >= n) by (nonlinear_arith)
            requires
                n == q * d + r,
                r < d,
        ;
    }
}

/// No sample is lost: for a non-empty run and at least one bucket, the
/// samples are cut into chunks of `w = ceil(len / buckets)` consecutive
/// samples, as many chunks as it takes to cover them all (never more than
/// `buckets`), each output is the peak of its chunk, every sample that is
/// not NaN is at most some output, and the largest output is the peak of the
/// whole run.
pub proof fn lemma_peaks_cover_all_samples(s: Seq<u32>, buckets: nat)
    requires
        s.len() > 0,
        buckets > 0,
    ensures
        ({
            let n = s.len() as int;
            let w = (n + buckets - 1) / (buckets as int);
            let out = waveform_spec(s, buckets);
            &&& w >= 1
            &&& out.len() == (n + w - 1) / w
            &&& 1 <= out.len() <= buckets
            &&& forall|j: int|
                0 <= j < out.len() ==> #[trigger] out[j] == peak_of(
                    s.subrange(j * w, if (j + 1) * w < n { (j + 1) * w } else { n }),
                )
            &&& forall|i: int|
                0 <= i < n && abs_bits(#[trigger] s[i]) <= 0x7F80_0000 ==> exists|j: int|
                    0 <= j < out.len() && abs_bits(s[i]) <= #[trigger] out[j]
            &&& forall|j: int| 0 <= j < out.len() ==> #[trigger] out[j] <= peak_of(s)
            &&& exists|j: int| 0 <= j < out.len() && #[trigger] out[j] == peak_of(s)
        }),
{
    let n: nat = s.len();
    let w: nat = ceil_div(n, buckets);
    lemma_ceil_facts(n, buckets);
    assert(w >= 1);
    let c: nat = ceil_div(n, w);
    lemma_ceil_facts(n, w);
    assert(c <= buckets) by {
        if c > buckets {
            assert((c - 1) * w >= buckets * w) by (nonlinear_arith)
                requires
                    c - 1 >= buckets,
                    w >= 1,
            ;
            assert(buckets * w == w * buckets) by (nonlinear_arith);
        }
    }
    let out = waveform_spec(s, buckets);
    assert(out.len() == c);
    assert forall|j: int|
        0 <= j < out.len() implies #[trigger] out[j] == peak_of(
            s.subrange(j * w, if (j + 1) * w < n { (j + 1) * w } else { n as int }),
        ) by {
        assert(chunk(s, w, j as nat) == s.subrange(
            j * w,
            if (j + 1) * w < n { (j + 1) * w } else { n as int },
        ));
    }
    lemma_peak_is_largest_magnitude(s);
    assert forall|i: int|
        0 <= i < n && abs_bits(#[trigger] s[i]) <= 0x7F80_0000 implies exists|j: int|
            0 <= j < out.len() && abs_bits(s[i]) <= #[trigger] out[j] by {
        let j = i / (w as int);
        let lo = j * w;
        let hi = if (j + 1) * w < n { (j + 1) * w } else { n as int };
        assert(0 <= j && j * w <= i < (j + 1) * w) by (nonlinear_arith)
            requires
                w >= 1,
                0 <= i,
                j == i / (w as int),
        ;
        assert(j < c) by {
            if j >= c {
                assert(j * w >= c * w) by (nonlinear_arith)
                    requires
                        j >= c,
                        w >= 1,
                ;
            }
        }
        let ch = s.subrange(lo, hi);
        assert(ch[i - lo] == s[i]);
        lemma_peak_is_largest_magnitude(ch);
        assert(out[j] == peak_of(ch));
    }
    assert forall|j: int| 0 <= j < out.len() implies #[trigger] out[j] <= peak_of(s) by {
        let lo = j * w;
        let hi = if (j + 1) * w < n { (j + 1) * w } else { n as int };
        assert(0 <= lo < hi) by (nonlinear_arith)
            requires
                0 <= j < c,
                w >= 1,
                (c - 1) * w < n,
                lo == j * w,
                hi == (if (j + 1) * w < n { (j + 1) * w } else { n as int }),
        ;
        let ch = s.subrange(lo, hi);
        lemma_peak_is_largest_magnitude(ch);
        assert(out[j] == peak_of(ch));
        if peak_of(ch) != 0 {
            let m = choose|m: int| 0 <= m < ch.len() && abs_bits(#[trigger] ch[m]) == peak_of(ch);
            assert(ch[m] == s[lo + m]);
        }
    }
    if peak_of(s) == 0 {
        assert(out[0] <= peak_of(s));
    } else {
        let i = choose|i: int| 0 <= i < s.len() && abs_bits(#[trigger] s[i]) == peak_of(s);
        assert(abs_bits(s[i]) <= 0x7F80_0000);
        let j = choose|j: int| 0 <= j < out.len() && abs_bits(s[i]) <= #[trigger] out[j];
        assert(out[j] <= peak_of(s));
    }
}

} // verus!
