//! Detection of echo that saturates the capture.
use crate::audio_processing::arithmetic::{
    at_most, is_functional, is_less, is_total, largest_magnitude, less, negative, peak_beyond,
    product, times, zero, zero_of, Real,
};
use crate::audio_processing::ordered::{
    is_number, is_ordered, law_largest_magnitude, lemma_order, lemma_products, products_keep_order,
    sums_keep_order,
};
use vstd::prelude::*;

verus! {

/// Peaks of the linear echo estimates of a channel.
#[derive(Debug, Clone, Copy)]
pub struct EchoEstimatePeaks<T: Real> {
    pub s_main_max_abs: T,
    pub s_shadow_max_abs: T,
}

#[derive(Debug, Clone, Copy)]
pub struct SaturationParameters<T: Real> {
    /// A linear echo estimate beyond this saturates.
    pub estimate_limit: T,
    /// Factor on the render peak as it comes through the echo path.
    pub margin: T,
    /// A peak of the echo beyond this saturates.
    pub peak_limit: T,
}

/// The largest magnitude of the samples of the first `n` channels.
pub open spec fn peak<T: Real>(x: Seq<Vec<T>>, n: int) -> T
    decreases n,
{
    if n <= 0 {
        zero_of()
    } else {
        largest_magnitude(peak(x, n - 1), x[n - 1]@, x[n - 1]@.len() as int)
    }
}

/// The peak is no less than any sample and the opposite of any, in whichever channel, and
/// one of these or zero.
pub proof fn law_peak_is_over_all_channels<T: Real>(x: Seq<Vec<T>>, n: int)
    requires
        is_ordered::<T>(),
        sums_keep_order::<T>(),
        0 <= n <= x.len(),
        forall|ch: int, i: int|
            0 <= ch < x.len() && 0 <= i < x[ch]@.len() ==> is_number(#[trigger] x[ch]@[i]),
    ensures
        at_most(zero_of(), peak(x, n)),
        forall|ch: int, i: int|
            #![trigger x[ch]@[i]]
            0 <= ch < n && 0 <= i < x[ch]@.len() ==> at_most(x[ch]@[i], peak(x, n)) && at_most(
                negative(x[ch]@[i]),
                peak(x, n),
            ),
        peak(x, n) == zero_of::<T>() || exists|ch: int, i: int|
            #![trigger x[ch]@[i]]
            0 <= ch < n && 0 <= i < x[ch]@.len() && (peak(x, n) == x[ch]@[i] || peak(x, n)
                == negative(x[ch]@[i])),
    decreases n,
{
    let zero = zero_of::<T>();
    let now = peak(x, n);
    lemma_order(zero, zero, zero);
    if n > 0 {
        let before = peak(x, n - 1);
        let channel = x[n - 1]@;
        law_peak_is_over_all_channels(x, n - 1);
        assert forall|i: int| 0 <= i < channel.len() implies is_number(#[trigger] channel[i]) by {
            assert(is_number(x[n - 1]@[i]));
        }
        lemma_order(zero, before, zero);
        law_largest_magnitude(before, channel, channel.len() as int);
        lemma_order(zero, before, now);
        assert forall|ch: int, i: int|
            #![trigger x[ch]@[i]]
            0 <= ch < n && 0 <= i < x[ch]@.len() implies at_most(x[ch]@[i], now) && at_most(
            negative(x[ch]@[i]),
            now,
        ) by {
            if ch < n - 1 {
                lemma_order(x[ch]@[i], before, now);
                lemma_order(negative(x[ch]@[i]), before, now);
            }
        }
        if now == before {
            if before != zero {
                let (ch, i) = choose|ch: int, i: int|
                    #![trigger x[ch]@[i]]
                    0 <= ch < n - 1 && 0 <= i < x[ch]@.len() && (before == x[ch]@[i] || before
                        == negative(x[ch]@[i]));
                assert(now == x[ch]@[i] || now == negative(x[ch]@[i]));
            }
        } else {
            let i = choose|i: int|
                0 <= i < channel.len() && (now == #[trigger] channel[i] || now == negative(
                    channel[i],
                ));
            assert(x[n - 1]@[i] == channel[i]);
        }
    }
}

/// Whether the linear echo estimate of a channel saturates.
pub open spec fn estimate_saturates<T: Real>(
    p: SaturationParameters<T>,
    peaks: EchoEstimatePeaks<T>,
) -> bool {
    less(p.estimate_limit, peaks.s_main_max_abs) || less(p.estimate_limit, peaks.s_shadow_max_abs)
}

/// Whether the render, as it comes through the echo path, saturates.
pub open spec fn render_saturates<T: Real>(
    p: SaturationParameters<T>,
    x: Seq<Vec<T>>,
    echo_path_gain: T,
) -> bool {
    less(p.peak_limit, times(times(peak(x, x.len() as int), echo_path_gain), p.margin))
}

/// Echo saturates only a saturated capture. With a usable linear estimate it does
/// where the linear echo estimate of some channel is beyond its limit; otherwise
/// where the render peak, scaled by the echo path, is.
pub open spec fn echo_saturates<T: Real>(
    p: SaturationParameters<T>,
    x: Seq<Vec<T>>,
    saturated_capture: bool,
    usable_linear_estimate: bool,
    estimates: Seq<EchoEstimatePeaks<T>>,
    echo_path_gain: T,
) -> bool {
    saturated_capture && if usable_linear_estimate {
        exists|ch: int| 0 <= ch < estimates.len() && estimate_saturates(p, #[trigger] estimates[ch])
    } else {
        render_saturates(p, x, echo_path_gain)
    }
}

/// With a usable linear estimate, the main or the shadow estimate of any channel beyond
/// the limit is enough in a saturated capture, and without one of them there is no
/// saturation; the render does not matter.
pub proof fn law_any_estimate_saturates<T: Real>(
    p: SaturationParameters<T>,
    x: Seq<Vec<T>>,
    estimates: Seq<EchoEstimatePeaks<T>>,
    echo_path_gain: T,
)
    ensures
        forall|ch: int|
            0 <= ch < estimates.len() && (less(
                p.estimate_limit,
                (#[trigger] estimates[ch]).s_main_max_abs,
            ) || less(p.estimate_limit, estimates[ch].s_shadow_max_abs)) ==> echo_saturates(
                p,
                x,
                true,
                true,
                estimates,
                echo_path_gain,
            ),
        (forall|ch: int|
            0 <= ch < estimates.len() ==> !less(
                p.estimate_limit,
                (#[trigger] estimates[ch]).s_main_max_abs,
            ) && !less(p.estimate_limit, estimates[ch].s_shadow_max_abs)) ==> !echo_saturates(
            p,
            x,
            true,
            true,
            estimates,
            echo_path_gain,
        ),
{
}

/// Without a usable linear estimate, a render sample of either sign in any channel that
/// is beyond the limit with the gain of the echo path and the margin saturates a
/// saturated capture.
pub proof fn law_any_render_sample_saturates<T: Real>(
    p: SaturationParameters<T>,
    x: Seq<Vec<T>>,
    estimates: Seq<EchoEstimatePeaks<T>>,
    echo_path_gain: T,
    ch: int,
    i: int,
)
    requires
        is_ordered::<T>(),
        sums_keep_order::<T>(),
        products_keep_order::<T>(),
        forall|ch: int, i: int|
            0 <= ch < x.len() && 0 <= i < x[ch]@.len() ==> is_number(#[trigger] x[ch]@[i]),
        0 <= ch < x.len(),
        0 <= i < x[ch]@.len(),
        at_most(zero_of(), echo_path_gain),
        at_most(zero_of(), p.margin),
        is_number(times(times(peak(x, x.len() as int), echo_path_gain), p.margin)),
        less(p.peak_limit, times(times(x[ch]@[i], echo_path_gain), p.margin)) || less(
            p.peak_limit,
            times(times(negative(x[ch]@[i]), echo_path_gain), p.margin),
        ),
    ensures
        echo_saturates(p, x, true, false, estimates, echo_path_gain),
{
    let zero = zero_of::<T>();
    law_peak_is_over_all_channels(x, x.len() as int);
    let most = peak(x, x.len() as int);
    let sample = if less(p.peak_limit, times(times(x[ch]@[i], echo_path_gain), p.margin)) {
        x[ch]@[i]
    } else {
        negative(x[ch]@[i])
    };
    assert(at_most(sample, most));
    let a = times(sample, echo_path_gain);
    let b = times(most, echo_path_gain);
    lemma_order(p.peak_limit, times(a, p.margin), zero);
    lemma_products(a, p.margin, zero);
    lemma_products(b, p.margin, zero);
    lemma_products(sample, most, echo_path_gain);
    lemma_products(a, b, p.margin);
    lemma_order(p.peak_limit, times(a, p.margin), times(b, p.margin));
}

/// Without a usable linear estimate there is no saturation where no render sample, nor its
/// opposite, nor zero is beyond the limit with the gain of the echo path and the margin.
pub proof fn law_weak_render_does_not_saturate<T: Real>(
    p: SaturationParameters<T>,
    x: Seq<Vec<T>>,
    estimates: Seq<EchoEstimatePeaks<T>>,
    echo_path_gain: T,
)
    requires
        is_ordered::<T>(),
        sums_keep_order::<T>(),
        forall|ch: int, i: int|
            0 <= ch < x.len() && 0 <= i < x[ch]@.len() ==> is_number(#[trigger] x[ch]@[i]),
        forall|ch: int, i: int|
            #![trigger x[ch]@[i]]
            0 <= ch < x.len() && 0 <= i < x[ch]@.len() ==> !less(
                p.peak_limit,
                times(times(x[ch]@[i], echo_path_gain), p.margin),
            ) && !less(
                p.peak_limit,
                times(times(negative(x[ch]@[i]), echo_path_gain), p.margin),
            ),
        !less(p.peak_limit, times(times(zero_of(), echo_path_gain), p.margin)),
    ensures
        !echo_saturates(p, x, true, false, estimates, echo_path_gain),
{
    law_peak_is_over_all_channels(x, x.len() as int);
}

/// A capture that is not saturated has no saturating echo.
pub proof fn law_clean_capture<T: Real>(
    p: SaturationParameters<T>,
    x: Seq<Vec<T>>,
    usable_linear_estimate: bool,
    estimates: Seq<EchoEstimatePeaks<T>>,
    echo_path_gain: T,
)
    ensures
        !echo_saturates(p, x, false, usable_linear_estimate, estimates, echo_path_gain),
{
}

pub struct SaturationDetector {
    saturated_echo: bool,
}

impl Default for SaturationDetector {
    fn default() -> (detector: Self)
        ensures
            !detector.saturated(),
    {
        SaturationDetector { saturated_echo: false }
    }
}

impl SaturationDetector {
    pub closed spec fn saturated(&self) -> bool {
        self.saturated_echo
    }

    pub fn update<T: Real>(
        &mut self,
        p: &SaturationParameters<T>,
        x: &[Vec<T>],
        saturated_capture: bool,
        usable_linear_estimate: bool,
        estimates: &[EchoEstimatePeaks<T>],
        echo_path_gain: T,
    )
        requires
            is_total::<T>(),
        ensures
            final(self).saturated() ==> saturated_capture,
            is_functional::<T>() ==> final(self).saturated() == echo_saturates(
                *p,
                x@,
                saturated_capture,
                usable_linear_estimate,
                estimates@,
                echo_path_gain,
            ),
    {
        self.saturated_echo = false;
        if !saturated_capture {
            return;
        }
        if usable_linear_estimate {
            let mut ch: usize = 0;
            while ch < estimates.len()
                invariant
                    ch <= estimates@.len(),
                    saturated_capture,
                    usable_linear_estimate,
                    !self.saturated_echo,
                    is_functional::<T>() ==> forall|k: int|
                        0 <= k < ch ==> !estimate_saturates(*p, #[trigger] estimates@[k]),
                decreases estimates@.len() - ch,
            {
                let output = &estimates[ch];
                if is_less(p.estimate_limit, output.s_main_max_abs) || is_less(
                    p.estimate_limit,
                    output.s_shadow_max_abs,
                ) {
                    self.saturated_echo = true;
                    assert(is_functional::<T>() ==> estimate_saturates(*p, estimates@[ch as int]));
                    return;
                }
                ch = ch + 1;
            }
        } else {
            let mut max_sample: T = zero();
            let mut ch: usize = 0;
            while ch < x.len()
                invariant
                    is_total::<T>(),
                    ch <= x@.len(),
                    is_functional::<T>() ==> max_sample == peak(x@, ch as int),
                decreases x@.len() - ch,
            {
                max_sample = peak_beyond(max_sample, x[ch].as_slice());
                ch = ch + 1;
            }
            let peak_echo_amplitude = product(product(max_sample, echo_path_gain), p.margin);
            if is_less(p.peak_limit, peak_echo_amplitude) {
                self.saturated_echo = true;
            }
        }
    }

    pub fn saturated_echo(&self) -> (saturated: bool)
        ensures
            saturated == self.saturated(),
    {
        self.saturated_echo
    }
}

} // verus!
