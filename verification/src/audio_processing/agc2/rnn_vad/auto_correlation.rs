//! Auto-correlation on the decimated pitch buffer.
use crate::audio_processing::agc2::rnn_vad::common::{
    BUF_SIZE_12_KHZ, FRAME_SIZE_20_MS_12_KHZ, MAX_PITCH_12_KHZ, NUM_LAGS_12_KHZ,
};
use crate::audio_processing::arithmetic::{
    apply, array_of, dot, image, is_functional, is_mapping, is_total, lemma_array_of, zero,
    zero_of, Real,
};
use crate::audio_processing::ordered::{is_exact, lemma_dot_reversed, lemma_exact};
use vstd::array::array_fill_for_copy_types;
use vstd::prelude::*;

verus! {

/// Length of the circular convolution.
pub const FFT_FRAME_SIZE: usize = 512;

/// Length of the frames that are correlated.
pub const CONVOLUTION_LENGTH: usize = 240;

/// Length of the chunk that the frames with all lags lie in.
pub const CHUNK_LENGTH: usize = 387;

/// The most recent frame backwards, padded with zeros.
pub open spec fn reversed_frame<T: Real>(pitch_buf: Seq<T>) -> Seq<T> {
    Seq::new(
        FFT_FRAME_SIZE as nat,
        |i: int|
            if i < CONVOLUTION_LENGTH {
                pitch_buf[BUF_SIZE_12_KHZ - 1 - i]
            } else {
                zero_of()
            },
    )
}

/// The samples that the frames with all lags lie in, padded with zeros.
pub open spec fn sliding_frames<T: Real>(pitch_buf: Seq<T>) -> Seq<T> {
    Seq::new(
        FFT_FRAME_SIZE as nat,
        |i: int|
            if i < CHUNK_LENGTH {
                pitch_buf[i]
            } else {
                zero_of()
            },
    )
}

/// The auto-correlations by inverted lag, from a convolution.
pub open spec fn auto_correlations<T: Real>(
    convolve: spec_fn(([T; FFT_FRAME_SIZE], [T; FFT_FRAME_SIZE])) -> [T; FFT_FRAME_SIZE],
    pitch_buf: Seq<T>,
) -> Seq<T> {
    let convolution = convolve(
        (array_of(sliding_frames(pitch_buf)), array_of(reversed_frame(pitch_buf))),
    );
    Seq::new(NUM_LAGS_12_KHZ as nat, |i: int| convolution@[CONVOLUTION_LENGTH - 1 + i])
}

/// Computes the auto-correlation on the pitch buffer for the target pitch
/// interval, by the circular convolution of two frames that `convolve` gives.
pub struct AutoCorrelationCalculator<C> {
    pub convolve: C,
}

impl<C> AutoCorrelationCalculator<C> {
    pub fn new(convolve: C) -> (calculator: Self)
        ensures
            calculator.convolve == convolve,
    {
        AutoCorrelationCalculator { convolve }
    }

    /// Computes auto-correlation coefficients for target pitch interval.
    /// `auto_corr` indexes are inverted lags.
    pub fn compute_on_pitch_buffer<T: Real>(
        &self,
        pitch_buf: &[T; BUF_SIZE_12_KHZ],
        auto_corr: &mut [T; NUM_LAGS_12_KHZ],
    ) where C: Fn(([T; FFT_FRAME_SIZE], [T; FFT_FRAME_SIZE])) -> [T; FFT_FRAME_SIZE]
        requires
            is_total::<T>(),
            forall|frames: ([T; FFT_FRAME_SIZE], [T; FFT_FRAME_SIZE])|
                call_requires(self.convolve, (frames,)),
        ensures
            is_functional::<T>() && is_mapping(self.convolve) ==> final(auto_corr)@
                == auto_correlations(
                |frames: ([T; FFT_FRAME_SIZE], [T; FFT_FRAME_SIZE])|
                    image(self.convolve, frames),
                pitch_buf@,
            ),
    {
        let mut h: [T; FFT_FRAME_SIZE] = array_fill_for_copy_types(zero());
        let mut i: usize = 0;
        while i < CONVOLUTION_LENGTH
            invariant
                i <= CONVOLUTION_LENGTH,
                forall|k: int| 0 <= k < i ==> h@[k] == pitch_buf@[BUF_SIZE_12_KHZ - 1 - k],
                is_functional::<T>() ==> forall|k: int|
                    i <= k < FFT_FRAME_SIZE ==> h@[k] == zero_of::<T>(),
            decreases CONVOLUTION_LENGTH - i,
        {
            h[i] = pitch_buf[BUF_SIZE_12_KHZ - 1 - i];
            i = i + 1;
        }
        let mut x: [T; FFT_FRAME_SIZE] = array_fill_for_copy_types(zero());
        i = 0;
        while i < CHUNK_LENGTH
            invariant
                i <= CHUNK_LENGTH,
                forall|k: int| 0 <= k < i ==> x@[k] == pitch_buf@[k],
                is_functional::<T>() ==> forall|k: int|
                    i <= k < FFT_FRAME_SIZE ==> x@[k] == zero_of::<T>(),
            decreases CHUNK_LENGTH - i,
        {
            x[i] = pitch_buf[i];
            i = i + 1;
        }
        proof {
            if is_functional::<T>() {
                assert(h@ =~= reversed_frame(pitch_buf@));
                assert(x@ =~= sliding_frames(pitch_buf@));
                lemma_array_of(h);
                lemma_array_of(x);
            }
        }
        let convolution = apply(&self.convolve, (x, h));
        i = 0;
        while i < NUM_LAGS_12_KHZ
            invariant
                i <= NUM_LAGS_12_KHZ,
                forall|k: int|
                    0 <= k < i ==> auto_corr@[k] == convolution@[CONVOLUTION_LENGTH - 1 + k],
            decreases NUM_LAGS_12_KHZ - i,
        {
            auto_corr[i] = convolution[CONVOLUTION_LENGTH - 1 + i];
            i = i + 1;
        }
        proof {
            if is_functional::<T>() && is_mapping(self.convolve) {
                assert(auto_corr@ =~= auto_correlations(
                    |frames: ([T; FFT_FRAME_SIZE], [T; FFT_FRAME_SIZE])|
                        image(self.convolve, frames),
                    pitch_buf@,
                ));
            }
        }
    }
}

/// A circular convolution pairs up what an auto-correlation pairs up: for an
/// inverted lag, the terms of the convolution at the place that is read are the
/// products of each sample of the most recent frame with the sample of the frame
/// that starts at the inverted lag; in every other term one factor is a zero of
/// the padding. Nothing wraps around.
pub proof fn law_convolution_is_auto_correlation<T: Real>(
    pitch_buf: Seq<T>,
    inverted_lag: int,
    term: int,
)
    requires
        pitch_buf.len() == BUF_SIZE_12_KHZ,
        0 <= inverted_lag < NUM_LAGS_12_KHZ,
        0 <= term < FFT_FRAME_SIZE,
    ensures
        ({
            let n = CONVOLUTION_LENGTH - 1 + inverted_lag;
            let k = CONVOLUTION_LENGTH - 1 - term;
            if term < CONVOLUTION_LENGTH {
                &&& (n - term) % (FFT_FRAME_SIZE as int) == n - term
                &&& sliding_frames(pitch_buf)[n - term] == pitch_buf[inverted_lag + k]
                &&& reversed_frame(pitch_buf)[term] == pitch_buf[MAX_PITCH_12_KHZ + k]
            } else {
                reversed_frame(pitch_buf)[term] == zero_of::<T>()
            }
        }),
{
}

/// If the convolution is a circular one, the auto-correlation at an inverted lag is that of
/// the frame that starts there with the most recent frame, sample by sample.
pub proof fn law_auto_correlations<T: Real>(
    convolve: spec_fn(([T; FFT_FRAME_SIZE], [T; FFT_FRAME_SIZE])) -> [T; FFT_FRAME_SIZE],
    pitch_buf: Seq<T>,
    frames: [T; FFT_FRAME_SIZE],
    reversed: [T; FFT_FRAME_SIZE],
    inverted_lag: int,
    lagged: Seq<T>,
    recent: Seq<T>,
)
    requires
        is_exact::<T>(),
        pitch_buf.len() == BUF_SIZE_12_KHZ,
        frames@ == sliding_frames(pitch_buf),
        reversed@ == reversed_frame(pitch_buf),
        0 <= inverted_lag < NUM_LAGS_12_KHZ,
        forall|a: [T; FFT_FRAME_SIZE], b: [T; FFT_FRAME_SIZE], n: int|
            0 <= n < FFT_FRAME_SIZE ==> #[trigger] convolve((a, b))@[n] == dot(
                Seq::new(512, |t: int| a@[(n - t) % 512]),
                b@,
                512,
            ),
        forall|k: int| 0 <= k < 240 ==> #[trigger] lagged[k] == pitch_buf[inverted_lag + k],
        forall|k: int| 0 <= k < 240 ==> #[trigger] recent[k] == pitch_buf[192 + k],
    ensures
        auto_correlations(convolve, pitch_buf)[inverted_lag] == dot(lagged, recent, 240),
{
    let (a, b) = (frames, reversed);
    lemma_array_of(a);
    lemma_array_of(b);
    let n = CONVOLUTION_LENGTH - 1 + inverted_lag;
    let turned = Seq::new(512, |t: int| a@[(n - t) % 512]);
    assert(convolve((a, b))@[n] == dot(turned, b@, 512));
    lemma_padding(turned, b@, 512);
    assert forall|t: int| 0 <= t < 240 implies #[trigger] turned[t] == lagged[239 - t] by {
        assert((n - t) % 512 == n - t);
        assert(lagged[239 - t] == pitch_buf[inverted_lag + (239 - t)]);
    }
    assert forall|t: int| 0 <= t < 240 implies #[trigger] b@[t] == recent[239 - t] by {
        assert(recent[239 - t] == pitch_buf[192 + (239 - t)]);
    }
    lemma_dot_reversed(lagged, recent, turned, b@, 240);
}

/// What is padded with zeros adds nothing.
proof fn lemma_padding<T: Real>(a: Seq<T>, b: Seq<T>, n: int)
    requires
        is_exact::<T>(),
        240 <= n <= 512,
        forall|t: int| 240 <= t < n ==> #[trigger] b[t] == zero_of::<T>(),
    ensures
        dot(a, b, n) == dot(a, b, 240),
    decreases n,
{
    if n > 240 {
        lemma_padding(a, b, n - 1);
        assert(b[n - 1] == zero_of::<T>());
        lemma_exact(a[n - 1], zero_of(), zero_of());
        lemma_exact(dot(a, b, n - 1), zero_of(), zero_of());
    }
}

/// The frames are those of 20 ms, and the convolution is long enough for all of
/// them.
pub proof fn law_frame_fits()
    ensures
        CONVOLUTION_LENGTH == FRAME_SIZE_20_MS_12_KHZ == BUF_SIZE_12_KHZ - MAX_PITCH_12_KHZ,
        CHUNK_LENGTH == CONVOLUTION_LENGTH + NUM_LAGS_12_KHZ,
        FFT_FRAME_SIZE > NUM_LAGS_12_KHZ + BUF_SIZE_12_KHZ - MAX_PITCH_12_KHZ,
{
}

} // verus!
