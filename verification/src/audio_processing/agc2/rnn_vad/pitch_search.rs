//! Pitch estimator built on top of the pitch search primitives.
use crate::audio_processing::agc2::rnn_vad::auto_correlation::{
    auto_correlations, AutoCorrelationCalculator, FFT_FRAME_SIZE,
};
use crate::audio_processing::agc2::rnn_vad::common::{
    BUF_SIZE_12_KHZ, BUF_SIZE_24_KHZ, MAX_PITCH_48_KHZ, MIN_PITCH_48_KHZ, NUM_LAGS_12_KHZ,
    REFINE_NUM_LAGS_24_KHZ,
};
use crate::audio_processing::agc2::rnn_vad::pitch_search_internal::{
    compute_extended_pitch_period_48khz, compute_pitch_period_12khz, compute_pitch_period_48khz,
    compute_sliding_frame_square_energies_24khz, decimate_2x, refined_candidates, sliding_energy,
    two_strongest, CandidatePitchPeriods, ExtendedSearch, PitchInfo, PitchSearchParameters,
};
use crate::audio_processing::arithmetic::{
    image, is_functional, is_mapping, is_total, zero, zero_of, Real,
};
use vstd::array::array_fill_for_copy_types;
use vstd::prelude::*;

verus! {

/// Every other sample of the pitch buffer.
pub open spec fn decimated<T>(pitch_buffer: Seq<T>) -> Seq<T> {
    Seq::new(BUF_SIZE_12_KHZ as nat, |i: int| pitch_buffer[2 * i])
}

/// The energies of the sliding frames of the pitch buffer.
pub open spec fn frame_energies<T: Real>(one: T, pitch_buffer: Seq<T>) -> Seq<T> {
    Seq::new(REFINE_NUM_LAGS_24_KHZ as nat, |k: int| sliding_energy(one, pitch_buffer, k))
}

/// The inverted lag at 48 kHz that the search at 12 kHz and its refinement give.
pub open spec fn initial_inverted_lag_48khz<T: Real>(
    p: PitchSearchParameters<T>,
    pitch_buffer: Seq<T>,
    auto_correlation_12khz: Seq<T>,
) -> int {
    let two = two_strongest(
        p.one,
        decimated(pitch_buffer),
        auto_correlation_12khz,
        NUM_LAGS_12_KHZ as int,
    );
    refined_candidates(
        p,
        pitch_buffer,
        frame_energies(p.one, pitch_buffer),
        CandidatePitchPeriods {
            best: (2 * two.0.period_inverted_lag) as i32,
            second_best: (2 * two.1.period_inverted_lag) as i32,
        },
    )
}

/// The pitch period at 48 kHz and its strength.
pub open spec fn estimated<T: Real>(
    p: PitchSearchParameters<T>,
    root: spec_fn(T) -> T,
    convolve: spec_fn(([T; FFT_FRAME_SIZE], [T; FFT_FRAME_SIZE])) -> [T; FFT_FRAME_SIZE],
    pitch_buffer: Seq<T>,
    last_pitch: PitchInfo<T>,
) -> (int, T) {
    (ExtendedSearch {
        p,
        pitch_buffer,
        y_energy: frame_energies(p.one, pitch_buffer),
        root,
        initial_period_48khz: MAX_PITCH_48_KHZ - initial_inverted_lag_48khz(
            p,
            pitch_buffer,
            auto_correlations(convolve, decimated(pitch_buffer)),
        ),
        last_48khz: last_pitch,
    }).result()
}

/// Pitch estimator.
pub struct PitchEstimator<T: Real> {
    parameters: PitchSearchParameters<T>,
    last_pitch_48khz: PitchInfo<T>,
    y_energy_24khz: [T; REFINE_NUM_LAGS_24_KHZ],
    pitch_buffer_12khz: [T; BUF_SIZE_12_KHZ],
}

impl<T: Real> PitchEstimator<T> {
    pub closed spec fn settings(&self) -> PitchSearchParameters<T> {
        self.parameters
    }

    pub closed spec fn last_pitch(&self) -> PitchInfo<T> {
        self.last_pitch_48khz
    }

    pub fn new(parameters: PitchSearchParameters<T>) -> (estimator: Self)
        requires
            is_total::<T>(),
        ensures
            estimator.settings() == parameters,
            estimator.last_pitch().period == 0,
            is_functional::<T>() ==> estimator.last_pitch().strength == zero_of::<T>(),
    {
        let nothing: T = zero();
        PitchEstimator {
            parameters,
            last_pitch_48khz: PitchInfo { period: 0, strength: nothing },
            y_energy_24khz: array_fill_for_copy_types(nothing),
            pitch_buffer_12khz: array_fill_for_copy_types(nothing),
        }
    }

    /// Returns the estimated pitch period at 48 kHz. `root` is the square root.
    pub fn estimate<
        R: Fn(T) -> T,
        C: Fn(([T; FFT_FRAME_SIZE], [T; FFT_FRAME_SIZE])) -> [T; FFT_FRAME_SIZE],
    >(
        &mut self,
        root: &R,
        auto_corr_calculator: &AutoCorrelationCalculator<C>,
        pitch_buffer: &[T; BUF_SIZE_24_KHZ],
    ) -> (period_48khz: i32)
        requires
            is_total::<T>(),
            forall|a: T| call_requires(root, (a,)),
            forall|frames: ([T; FFT_FRAME_SIZE], [T; FFT_FRAME_SIZE])|
                call_requires(auto_corr_calculator.convolve, (frames,)),
        ensures
            MIN_PITCH_48_KHZ <= period_48khz <= MAX_PITCH_48_KHZ,
            period_48khz == final(self).last_pitch().period,
            final(self).settings() == old(self).settings(),
            is_functional::<T>() && is_mapping(*root) && is_mapping(
                auto_corr_calculator.convolve,
            ) ==> (
                final(self).last_pitch().period as int,
                final(self).last_pitch().strength,
            ) == estimated(
                old(self).settings(),
                |a: T| image(*root, a),
                |frames: ([T; FFT_FRAME_SIZE], [T; FFT_FRAME_SIZE])|
                    image(auto_corr_calculator.convolve, frames),
                pitch_buffer@,
                old(self).last_pitch(),
            ),
    {
        // Initial pitch search at 12 kHz.
        decimate_2x(pitch_buffer, &mut self.pitch_buffer_12khz);
        assert(self.pitch_buffer_12khz@ =~= decimated(pitch_buffer@));
        let mut auto_correlation_12khz: [T; NUM_LAGS_12_KHZ] = array_fill_for_copy_types(zero());
        auto_corr_calculator.compute_on_pitch_buffer(
            &self.pitch_buffer_12khz,
            &mut auto_correlation_12khz,
        );
        let pitch_periods = compute_pitch_period_12khz(
            self.parameters.one,
            &self.pitch_buffer_12khz,
            &auto_correlation_12khz,
        );
        // Refine from 12 kHz to 48 kHz.
        compute_sliding_frame_square_energies_24khz(
            self.parameters.one,
            pitch_buffer,
            &mut self.y_energy_24khz,
        );
        let pitch_lag_48khz: i32 = compute_pitch_period_48khz(
            &self.parameters,
            pitch_buffer,
            &self.y_energy_24khz,
            CandidatePitchPeriods {
                best: 2 * pitch_periods.best,
                second_best: 2 * pitch_periods.second_best,
            },
        );
        self.last_pitch_48khz = compute_extended_pitch_period_48khz(
            &self.parameters,
            root,
            pitch_buffer,
            &self.y_energy_24khz,
            MAX_PITCH_48_KHZ as i32 - pitch_lag_48khz,
            self.last_pitch_48khz,
        );
        self.last_pitch_48khz.period
    }

    pub fn last_pitch_strength_for_testing(&self) -> (strength: T)
        ensures
            strength == self.last_pitch().strength,
    {
        self.last_pitch_48khz.strength
    }
}

} // verus!
