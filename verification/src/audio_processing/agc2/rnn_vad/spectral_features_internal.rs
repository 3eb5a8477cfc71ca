//! Primitives of the spectral features.
use crate::audio_processing::agc2::rnn_vad::common::{
    FRAME_SIZE_20_MS_24_KHZ, NUM_BANDS, SAMPLE_RATE_24_KHZ,
};
use crate::audio_processing::arithmetic::{
    apply, difference, dot, image, is_functional, is_mapping, is_total, larger, maximum, minus,
    multiply_add, over, plus, product, quotient, sum, times, zero, zero_of, Real,
};
use vstd::array::array_fill_for_copy_types;
use vstd::prelude::*;

verus! {

/// At 24 kHz, the last 3 Opus bands are above Nyquist.
pub const OPUS_BANDS_24_KHZ: usize = 20;

/// Number of intervals between the Opus bands.
pub const OPUS_INTERVALS_24_KHZ: usize = 19;

/// Number of frequency bins.
pub const NUM_BINS: usize = 240;

/// Number of entries of a table for the discrete cosine transform.
pub const DCT_TABLE_SIZE: usize = 484;

/// Number of frequency bins between neighbouring Opus bands.
pub open spec fn opus_bins() -> Seq<usize> {
    seq![4, 4, 4, 4, 4, 4, 4, 4, 8, 8, 8, 8, 16, 16, 16, 24, 24, 32, 48]
}

/// Number of FFT frequency bins covered by each Opus band at 24 kHz for 20 ms.
pub fn get_opus_scale_num_bins_24khz_20ms() -> (bins: [usize; OPUS_INTERVALS_24_KHZ])
    ensures
        bins@ == opus_bins(),
{
    let bins: [usize; OPUS_INTERVALS_24_KHZ] = [
        4,
        4,
        4,
        4,
        4,
        4,
        4,
        4,
        8,
        8,
        8,
        8,
        16,
        16,
        16,
        24,
        24,
        32,
        48,
    ];
    assert(bins@ =~= opus_bins());
    bins
}

/// First bin of an interval: the bins of the intervals before it add up to it.
pub open spec fn first_bin(interval: int) -> int
    decreases interval,
{
    if interval <= 0 {
        0
    } else {
        first_bin(interval - 1) + opus_bins()[interval - 1]
    }
}

/// The frequencies in Hz at which the Opus bands after the first one lie.
pub open spec fn opus_boundaries_hz() -> Seq<int> {
    seq![
        200,
        400,
        600,
        800,
        1000,
        1200,
        1400,
        1600,
        2000,
        2400,
        2800,
        3200,
        4000,
        4800,
        5600,
        6800,
        8000,
        9600,
        12000,
    ]
}

/// The intervals follow each other and cover every bin; their boundaries are those of
/// the Opus bands, up to the Nyquist frequency.
pub proof fn law_intervals_cover_all_bins()
    ensures
        first_bin(OPUS_INTERVALS_24_KHZ as int) == NUM_BINS,
        opus_boundaries_hz().len() == OPUS_INTERVALS_24_KHZ,
        forall|i: int|
            0 <= i < OPUS_INTERVALS_24_KHZ ==> #[trigger] opus_boundaries_hz()[i]
                * FRAME_SIZE_20_MS_24_KHZ == first_bin(i + 1) * SAMPLE_RATE_24_KHZ,
{
    reveal_with_fuel(first_bin, 20);
}

proof fn lemma_first_bin(interval: int)
    requires
        0 <= interval <= OPUS_INTERVALS_24_KHZ,
    ensures
        0 <= first_bin(interval) <= NUM_BINS,
        interval < OPUS_INTERVALS_24_KHZ ==> first_bin(interval) + opus_bins()[interval]
            == first_bin(interval + 1) <= NUM_BINS,
    decreases OPUS_INTERVALS_24_KHZ - interval,
{
    law_intervals_cover_all_bins();
    if interval < OPUS_INTERVALS_24_KHZ {
        lemma_first_bin(interval + 1);
        lemma_first_bin_non_negative(interval);
    }
}

proof fn lemma_first_bin_non_negative(interval: int)
    requires
        interval <= OPUS_INTERVALS_24_KHZ,
    ensures
        0 <= first_bin(interval),
    decreases interval,
{
    if interval > 0 {
        lemma_first_bin_non_negative(interval - 1);
    }
}

/// The product of two spectra in a bin: the spectra hold real and imaginary parts
/// in turn.
pub open spec fn bin_product<T: Real>(x: Seq<T>, y: Seq<T>, bin: int) -> T {
    plus(times(x[2 * bin], y[2 * bin]), times(x[2 * bin + 1], y[2 * bin + 1]))
}

/// What the first `n` bins of an interval give to the band at its end.
pub open spec fn rising<T: Real>(
    weights: Seq<T>,
    x: Seq<T>,
    y: Seq<T>,
    interval: int,
    n: int,
) -> T
    decreases n,
{
    if n <= 0 {
        zero_of()
    } else {
        let bin = first_bin(interval) + n - 1;
        plus(
            rising(weights, x, y, interval, n - 1),
            times(weights[bin], bin_product(x, y, bin)),
        )
    }
}

/// What the first `n` bins of an interval give to the band at its start, on top
/// of what the interval before gave.
pub open spec fn falling<T: Real>(
    weights: Seq<T>,
    x: Seq<T>,
    y: Seq<T>,
    interval: int,
    n: int,
) -> T
    decreases n,
{
    if n <= 0 {
        if interval == 0 {
            zero_of()
        } else {
            rising(weights, x, y, interval - 1, opus_bins()[interval - 1] as int)
        }
    } else {
        let bin = first_bin(interval) + n - 1;
        let v = bin_product(x, y, bin);
        plus(falling(weights, x, y, interval, n - 1), minus(v, times(weights[bin], v)))
    }
}

/// The correlation of two spectra in a band: bins on both sides of it count by
/// triangular weights; the first band has only one side, which counts twice.
pub open spec fn band_correlation<T: Real>(
    two: T,
    weights: Seq<T>,
    x: Seq<T>,
    y: Seq<T>,
    band: int,
) -> T {
    if band == OPUS_BANDS_24_KHZ - 1 {
        rising(weights, x, y, band - 1, opus_bins()[band - 1] as int)
    } else {
        let value = falling(weights, x, y, band, opus_bins()[band] as int);
        if band == 0 {
            times(value, two)
        } else {
            value
        }
    }
}

pub open spec fn band_correlations<T: Real>(
    two: T,
    weights: Seq<T>,
    x: Seq<T>,
    y: Seq<T>,
) -> Seq<T> {
    Seq::new(OPUS_BANDS_24_KHZ as nat, |band: int| band_correlation(two, weights, x, y, band))
}

/// Computes band-wise spectral correlations in the Opus perceptual scale.
pub struct SpectralCorrelator<T: Real> {
    pub weights: [T; NUM_BINS],
    pub two: T,
}

impl<T: Real> SpectralCorrelator<T> {
    pub fn new(weights: [T; NUM_BINS], two: T) -> (correlator: Self)
        ensures
            correlator.weights == weights,
            correlator.two == two,
    {
        SpectralCorrelator { weights, two }
    }

    pub fn compute_auto_correlation(
        &self,
        x: &[T; FRAME_SIZE_20_MS_24_KHZ],
        auto_corr: &mut [T; OPUS_BANDS_24_KHZ],
    )
        requires
            is_total::<T>(),
        ensures
            is_functional::<T>() ==> final(auto_corr)@ == band_correlations(
                self.two,
                self.weights@,
                x@,
                x@,
            ),
    {
        self.compute_cross_correlation(x, x, auto_corr);
    }

    /// The spectra have no Nyquist coefficient: the value at index 1 is zero.
    pub fn compute_cross_correlation(
        &self,
        x: &[T; FRAME_SIZE_20_MS_24_KHZ],
        y: &[T; FRAME_SIZE_20_MS_24_KHZ],
        cross_corr: &mut [T; OPUS_BANDS_24_KHZ],
    )
        requires
            is_total::<T>(),
        ensures
            is_functional::<T>() ==> final(cross_corr)@ == band_correlations(
                self.two,
                self.weights@,
                x@,
                y@,
            ),
    {
        let bins = get_opus_scale_num_bins_24khz_20ms();
        let ghost w = self.weights@;
        let nothing: T = zero();
        let mut k: usize = 0;
        cross_corr[0] = nothing;
        let mut i: usize = 0;
        while i < OPUS_INTERVALS_24_KHZ
            invariant
                is_total::<T>(),
                w == self.weights@,
                bins@ == opus_bins(),
                i <= OPUS_INTERVALS_24_KHZ,
                k == first_bin(i as int),
                is_functional::<T>() ==> {
                    &&& nothing == zero_of::<T>()
                    &&& cross_corr@[i as int] == (if i == 0 {
                        zero_of()
                    } else {
                        rising(w, x@, y@, i - 1, opus_bins()[i - 1] as int)
                    })
                    &&& forall|b: int|
                        0 <= b < i ==> #[trigger] cross_corr@[b] == falling(
                            w,
                            x@,
                            y@,
                            b,
                            opus_bins()[b] as int,
                        )
                },
            decreases OPUS_INTERVALS_24_KHZ - i,
        {
            proof {
                lemma_first_bin(i as int);
                lemma_first_bin_non_negative(i as int);
            }
            let mut lower = cross_corr[i];
            let mut upper = nothing;
            let mut n: usize = 0;
            while n < bins[i]
                invariant
                    is_total::<T>(),
                    w == self.weights@,
                    bins@ == opus_bins(),
                    i < OPUS_INTERVALS_24_KHZ,
                    n <= bins@[i as int],
                    k == first_bin(i as int) + n,
                    first_bin(i as int) + opus_bins()[i as int] <= NUM_BINS,
                    is_functional::<T>() ==> {
                        &&& lower == falling(w, x@, y@, i as int, n as int)
                        &&& upper == rising(w, x@, y@, i as int, n as int)
                    },
                decreases bins@[i as int] - n,
            {
                let v = sum(
                    product(x[2 * k], y[2 * k]),
                    product(x[2 * k + 1], y[2 * k + 1]),
                );
                let tmp = product(self.weights[k], v);
                lower = sum(lower, difference(v, tmp));
                upper = sum(upper, tmp);
                k = k + 1;
                n = n + 1;
            }
            cross_corr[i] = lower;
            cross_corr[i + 1] = upper;
            i = i + 1;
        }
        let doubled = product(cross_corr[0], self.two);
        cross_corr[0] = doubled;
        proof {
            if is_functional::<T>() {
                assert(cross_corr@ =~= band_correlations(self.two, w, x@, y@));
            }
        }
    }
}

/// The numbers that the smoothing of the log spectrum works with.
#[derive(Debug, Copy, Clone)]
pub struct LogSpectrumParameters<T: Real> {
    /// Added to an energy before the logarithm.
    pub floor: T,
    /// The logarithm of the floor.
    pub log_floor: T,
    /// How far below the maximum a band may be.
    pub max_drop: T,
    /// How far below the band before a band may be.
    pub max_decay: T,
}

/// A smoothed band, the largest one so far, and the one that decays.
pub struct SmoothedBand<T> {
    pub value: T,
    pub log_max: T,
    pub follow: T,
}

/// The logarithm of the energy of a band; of the floor for bands without one.
pub open spec fn raw_log<T: Real>(
    p: LogSpectrumParameters<T>,
    log10: spec_fn(T) -> T,
    bands_energy: Seq<T>,
    band: int,
) -> T {
    if band < bands_energy.len() {
        log10(plus(p.floor, bands_energy[band]))
    } else {
        p.log_floor
    }
}

/// The first `n` bands, each kept from dropping too fast or too far.
pub open spec fn smoothed_band<T: Real>(
    p: LogSpectrumParameters<T>,
    log10: spec_fn(T) -> T,
    bands_energy: Seq<T>,
    n: int,
) -> SmoothedBand<T>
    decreases n,
{
    if n <= 0 {
        SmoothedBand { value: p.log_floor, log_max: p.log_floor, follow: p.log_floor }
    } else {
        let before = smoothed_band(p, log10, bands_energy, n - 1);
        let value = larger(
            minus(before.log_max, p.max_drop),
            larger(
                minus(before.follow, p.max_decay),
                raw_log(p, log10, bands_energy, n - 1),
            ),
        );
        SmoothedBand {
            value,
            log_max: larger(before.log_max, value),
            follow: larger(minus(before.follow, p.max_decay), value),
        }
    }
}

pub open spec fn smoothed_log_spectrum<T: Real>(
    p: LogSpectrumParameters<T>,
    log10: spec_fn(T) -> T,
    bands_energy: Seq<T>,
) -> Seq<T> {
    Seq::new(
        NUM_BANDS as nat,
        |band: int| smoothed_band(p, log10, bands_energy, band + 1).value,
    )
}

/// Computes smoothed log-magnitude spectrum from band energies. `log10` is the
/// decimal logarithm.
pub fn compute_smoothed_log_magnitude_spectrum<T: Real, L: Fn(T) -> T>(
    p: &LogSpectrumParameters<T>,
    log10: &L,
    bands_energy: &[T],
    log_bands_energy: &mut [T; NUM_BANDS],
)
    requires
        is_total::<T>(),
        forall|a: T| call_requires(log10, (a,)),
        bands_energy@.len() <= NUM_BANDS,
    ensures
        is_functional::<T>() && is_mapping(*log10) ==> final(log_bands_energy)@
            == smoothed_log_spectrum(*p, |a: T| image(*log10, a), bands_energy@),
{
    let ghost exact = is_functional::<T>() && is_mapping(*log10);
    let ghost log = |a: T| image(*log10, a);
    let mut log_max = p.log_floor;
    let mut follow = p.log_floor;
    let mut i: usize = 0;
    while i < NUM_BANDS
        invariant
            is_total::<T>(),
            forall|a: T| call_requires(log10, (a,)),
            bands_energy@.len() <= NUM_BANDS,
            i <= NUM_BANDS,
            exact == (is_functional::<T>() && is_mapping(*log10)),
            log == (|a: T| image(*log10, a)),
            exact ==> {
                let before = smoothed_band(*p, log, bands_energy@, i as int);
                &&& log_max == before.log_max
                &&& follow == before.follow
                &&& forall|b: int|
                    0 <= b < i ==> #[trigger] log_bands_energy@[b] == smoothed_band(
                        *p,
                        log,
                        bands_energy@,
                        b + 1,
                    ).value
            },
        decreases NUM_BANDS - i,
    {
        let raw = if i < bands_energy.len() {
            apply(log10, sum(p.floor, bands_energy[i]))
        } else {
            p.log_floor
        };
        let decayed = difference(follow, p.max_decay);
        let value = maximum(difference(log_max, p.max_drop), maximum(decayed, raw));
        log_max = maximum(log_max, value);
        follow = maximum(decayed, value);
        log_bands_energy[i] = value;
        i = i + 1;
    }
    proof {
        if exact {
            assert(log_bands_energy@ =~= smoothed_log_spectrum(*p, log, bands_energy@));
        }
    }
}

/// The numbers and functions that a transform table is computed with, in a type that
/// may be wider than the one of the table.
pub struct TrigonometricFunctions<W: Real, N, S, C> {
    pub half: W,
    pub pi: W,
    /// Gives the number for an integer.
    pub number: N,
    /// The sine.
    pub sine: S,
    /// The cosine.
    pub cosine: C,
}

/// The angle of an entry of the transform table.
pub open spec fn dct_angle<W: Real>(
    half: W,
    pi: W,
    number: spec_fn(usize) -> W,
    i: usize,
    j: usize,
) -> W {
    over(times(times(plus(number(i), half), number(j)), pi), number(NUM_BANDS))
}

/// An entry of the transform table: a cosine, scaled in the first column.
pub open spec fn dct_entry<W: Real, T: Real>(
    half: W,
    pi: W,
    number: spec_fn(usize) -> W,
    cosine: spec_fn(W) -> W,
    narrow: spec_fn(W) -> T,
    first_scale: T,
    i: usize,
    j: usize,
) -> T {
    let entry = narrow(cosine(dct_angle(half, pi, number, i, j)));
    if j == 0 {
        times(entry, first_scale)
    } else {
        entry
    }
}

/// Computes DCT table for vectors of size `NUM_BANDS`. `narrow` rounds a number to the
/// type of the table.
pub fn compute_dct_table<
    W: Real,
    T: Real,
    N: Fn(usize) -> W,
    S: Fn(W) -> W,
    C: Fn(W) -> W,
    M: Fn(W) -> T,
>(f: &TrigonometricFunctions<W, N, S, C>, narrow: &M, first_scale: T) -> (dct_table: [T;
    DCT_TABLE_SIZE])
    requires
        is_total::<W>(),
        is_total::<T>(),
        forall|n: usize| call_requires(f.number, (n,)),
        forall|a: W| call_requires(f.cosine, (a,)),
        forall|a: W| call_requires(narrow, (a,)),
    ensures
        is_functional::<W>() && is_functional::<T>() && is_mapping(f.number) && is_mapping(f.cosine)
            && is_mapping(*narrow) ==> forall|i: int, j: int|
            0 <= i < NUM_BANDS && 0 <= j < NUM_BANDS ==> #[trigger] dct_column(dct_table@, j)[i]
                == dct_entry(
                f.half,
                f.pi,
                |n: usize| image(f.number, n),
                |a: W| image(f.cosine, a),
                |a: W| image(*narrow, a),
                first_scale,
                i as usize,
                j as usize,
            ),
{
    let ghost exact = is_functional::<W>() && is_functional::<T>() && is_mapping(f.number)
        && is_mapping(f.cosine) && is_mapping(*narrow);
    let ghost number = |n: usize| image(f.number, n);
    let ghost cosine = |a: W| image(f.cosine, a);
    let ghost narrowed = |a: W| image(*narrow, a);
    let mut dct_table: [T; DCT_TABLE_SIZE] = array_fill_for_copy_types(first_scale);
    let bands = apply(&f.number, NUM_BANDS);
    let mut i: usize = 0;
    while i < NUM_BANDS
        invariant
            is_total::<W>(),
            is_total::<T>(),
            forall|n: usize| call_requires(f.number, (n,)),
            forall|a: W| call_requires(f.cosine, (a,)),
            forall|a: W| call_requires(narrow, (a,)),
            exact == (is_functional::<W>() && is_functional::<T>() && is_mapping(f.number)
                && is_mapping(f.cosine) && is_mapping(*narrow)),
            number == (|n: usize| image(f.number, n)),
            cosine == (|a: W| image(f.cosine, a)),
            narrowed == (|a: W| image(*narrow, a)),
            exact ==> bands == number(NUM_BANDS),
            i <= NUM_BANDS,
            exact ==> forall|r: int, c: int|
                0 <= r < i && 0 <= c < NUM_BANDS ==> #[trigger] dct_column(dct_table@, c)[r]
                    == dct_entry(
                    f.half,
                    f.pi,
                    number,
                    cosine,
                    narrowed,
                    first_scale,
                    r as usize,
                    c as usize,
                ),
        decreases NUM_BANDS - i,
    {
        let row = sum(apply(&f.number, i), f.half);
        let mut j: usize = 0;
        while j < NUM_BANDS
            invariant
                is_total::<W>(),
                is_total::<T>(),
                forall|n: usize| call_requires(f.number, (n,)),
                forall|a: W| call_requires(f.cosine, (a,)),
                forall|a: W| call_requires(narrow, (a,)),
                exact == (is_functional::<W>() && is_functional::<T>() && is_mapping(f.number)
                    && is_mapping(f.cosine) && is_mapping(*narrow)),
                number == (|n: usize| image(f.number, n)),
                cosine == (|a: W| image(f.cosine, a)),
                narrowed == (|a: W| image(*narrow, a)),
                exact ==> bands == number(NUM_BANDS),
                exact ==> row == plus(number(i), f.half),
                i < NUM_BANDS,
                j <= NUM_BANDS,
                exact ==> forall|r: int, c: int|
                    (0 <= r < i && 0 <= c < NUM_BANDS) || (r == i && 0 <= c < j)
                        ==> #[trigger] dct_column(dct_table@, c)[r] == dct_entry(
                        f.half,
                        f.pi,
                        number,
                        cosine,
                        narrowed,
                        first_scale,
                        r as usize,
                        c as usize,
                    ),
            decreases NUM_BANDS - j,
        {
            let angle = quotient(product(product(row, apply(&f.number, j)), f.pi), bands);
            let entry = apply(narrow, apply(&f.cosine, angle));
            let ghost before = dct_table@;
            dct_table[i * NUM_BANDS + j] = if j == 0 {
                product(entry, first_scale)
            } else {
                entry
            };
            proof {
                assert forall|r: int, c: int|
                    (0 <= r < i && 0 <= c < NUM_BANDS) || (r == i && 0 <= c
                        < j) implies #[trigger] dct_column(dct_table@, c)[r] == dct_column(
                    before,
                    c,
                )[r] by {
                    assert(r * NUM_BANDS + c != i * NUM_BANDS + j);
                }
            }
            j = j + 1;
        }
        i = i + 1;
    }
    dct_table
}

/// Column `i` of the transform table.
pub open spec fn dct_column<T>(dct_table: Seq<T>, i: int) -> Seq<T> {
    Seq::new(NUM_BANDS as nat, |j: int| dct_table[j * NUM_BANDS + i])
}

/// The `size` first coefficients of the transform of `input`.
pub open spec fn dct<T: Real>(
    input: Seq<T>,
    dct_table: Seq<T>,
    scale: T,
    size: int,
) -> Seq<T> {
    Seq::new(
        size as nat,
        |i: int| times(dot(input, dct_column(dct_table, i), input.len() as int), scale),
    )
}

/// Computes DCT for `input` using precomputed table.
pub fn compute_dct<T: Real>(
    input: &[T],
    dct_table: &[T; DCT_TABLE_SIZE],
    scale: T,
    out: &mut [T],
)
    requires
        is_total::<T>(),
        input@.len() <= NUM_BANDS,
        0 < old(out)@.len() <= input@.len(),
    ensures
        final(out)@.len() == old(out)@.len(),
        is_functional::<T>() ==> final(out)@ == dct(
            input@,
            dct_table@,
            scale,
            old(out)@.len() as int,
        ),
{
    let ghost size = out@.len() as int;
    let mut i: usize = 0;
    while i < out.len()
        invariant
            is_total::<T>(),
            input@.len() <= NUM_BANDS,
            i <= size == out@.len(),
            size <= input@.len(),
            is_functional::<T>() ==> forall|k: int|
                0 <= k < i ==> #[trigger] out@[k] == dct(input@, dct_table@, scale, size)[k],
        decreases size - i,
    {
        let mut acc: T = zero();
        let mut j: usize = 0;
        while j < input.len()
            invariant
                is_total::<T>(),
                i < NUM_BANDS,
                j <= input@.len() <= NUM_BANDS,
                is_functional::<T>() ==> acc == dot(
                    input@,
                    dct_column(dct_table@, i as int),
                    j as int,
                ),
            decreases input@.len() - j,
        {
            assert(dct_column(dct_table@, i as int)[j as int] == dct_table@[j * NUM_BANDS + i]);
            acc = multiply_add(acc, input[j], dct_table[j * NUM_BANDS + i]);
            j = j + 1;
        }
        out[i] = product(acc, scale);
        i = i + 1;
    }
    proof {
        if is_functional::<T>() {
            assert(out@ =~= dct(input@, dct_table@, scale, size));
        }
    }
}

} // verus!
