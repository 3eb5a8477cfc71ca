//! Detection of multichannel render content.
use crate::audio_processing::aec3::histogram::count_of;
use crate::audio_processing::arithmetic::{
    absolute, apply, difference, image, is_functional, is_less, is_mapping, is_total, less,
    magnitude, minus, negative, product, times, zero_of, Real,
};
use crate::audio_processing::ordered::{
    is_exact, is_number, is_ordered, law_magnitude, lemma_exact, lemma_order, sums_keep_order,
};
use vstd::prelude::*;

verus! {

pub const NUM_FRAMES_PER_SECOND: i32 = 100;

/// In order to avoid logging metrics for very short lifetimes that are unlikely
/// to reflect real calls and that may dilute the "real" data, logging is
/// limited to lifetimes of at least 5 seconds.
pub const MIN_NUMBER_OF_FRAMES_REQUIRED_TO_LOG_METRICS: i32 = 500;

/// Continuous metrics are logged every 10 seconds.
pub const FRAMES_PER_10_SECONDS: i32 = 1000;

/// Whether sample `k` of the left and right channels of a band differ by more than
/// the threshold.
pub open spec fn samples_differ<T: Real>(band: Seq<Vec<T>>, k: int, threshold: T) -> bool {
    less(threshold, magnitude(minus(band[0]@[k], band[1]@[k])))
}

/// The number of samples that both the left and the right channel have.
pub open spec fn num_pairs<T>(band: Seq<Vec<T>>) -> int {
    if band[0]@.len() < band[1]@.len() {
        band[0]@.len() as int
    } else {
        band[1]@.len() as int
    }
}

/// Whether a frame of bands of channels is stereo: there are two channels, and in
/// some band the left and the right one differ by more than the threshold.
pub open spec fn is_stereo<T: Real>(frame: Seq<Vec<Vec<T>>>, threshold: T) -> bool {
    &&& frame[0]@.len() >= 2
    &&& exists|band: int, k: int|
        0 <= band < frame.len() && 0 <= k < num_pairs(frame[band]@) && #[trigger] samples_differ(
            frame[band]@,
            k,
            threshold,
        )
}

/// A frame with two channels is stereo just if in some band a sample of either channel is
/// by more than the threshold above that of the other one; one with a single channel is
/// not.
pub proof fn law_stereo<T: Real>(frame: Seq<Vec<Vec<T>>>, threshold: T)
    requires
        is_ordered::<T>(),
        sums_keep_order::<T>(),
        is_exact::<T>(),
    ensures
        frame[0]@.len() < 2 ==> !is_stereo(frame, threshold),
        frame[0]@.len() >= 2 ==> forall|band: int, k: int|
            #![trigger frame[band]@[0]@[k]]
            0 <= band < frame.len() && 0 <= k < frame[band]@[0]@.len() && k
                < frame[band]@[1]@.len() && (less(
                threshold,
                minus(frame[band]@[0]@[k], frame[band]@[1]@[k]),
            ) || less(threshold, minus(frame[band]@[1]@[k], frame[band]@[0]@[k]))) ==> is_stereo(
                frame,
                threshold,
            ),
        (forall|band: int, k: int|
            #![trigger frame[band]@[0]@[k]]
            0 <= band < frame.len() && 0 <= k < frame[band]@[0]@.len() && k
                < frame[band]@[1]@.len() ==> !less(
                threshold,
                minus(frame[band]@[0]@[k], frame[band]@[1]@[k]),
            ) && !less(threshold, minus(frame[band]@[1]@[k], frame[band]@[0]@[k])))
            ==> !is_stereo(frame, threshold),
{
    assert forall|band: int, k: int|
        #![trigger frame[band]@[0]@[k]]
        samples_differ(frame[band]@, k, threshold) == (less(
            threshold,
            minus(frame[band]@[0]@[k], frame[band]@[1]@[k]),
        ) || less(threshold, minus(frame[band]@[1]@[k], frame[band]@[0]@[k]))) by {
        lemma_apart(frame[band]@[0]@[k], frame[band]@[1]@[k], threshold);
    }
    if is_stereo(frame, threshold) {
        let (band, k) = choose|band: int, k: int|
            0 <= band < frame.len() && 0 <= k < num_pairs(frame[band]@)
                && #[trigger] samples_differ(frame[band]@, k, threshold);
        let sample = frame[band]@[0]@[k];
        assert(samples_differ(frame[band]@, k, threshold));
    }
    if frame[0]@.len() >= 2 {
        assert forall|band: int, k: int|
            #![trigger frame[band]@[0]@[k]]
            0 <= band < frame.len() && 0 <= k < frame[band]@[0]@.len() && k
                < frame[band]@[1]@.len() && (less(
                threshold,
                minus(frame[band]@[0]@[k], frame[band]@[1]@[k]),
            ) || less(
                threshold,
                minus(frame[band]@[1]@[k], frame[band]@[0]@[k]),
            )) implies is_stereo(frame, threshold) by {
            assert(samples_differ(frame[band]@, k, threshold));
        }
    }
}

proof fn lemma_apart<T: Real>(a: T, b: T, threshold: T)
    requires
        is_ordered::<T>(),
        sums_keep_order::<T>(),
        is_exact::<T>(),
    ensures
        less(threshold, magnitude(minus(a, b))) == (less(threshold, minus(a, b)) || less(
            threshold,
            minus(b, a),
        )),
{
    let d = minus(a, b);
    assert(is_number(d) && is_number(threshold));
    law_magnitude(d);
    lemma_exact(a, b, zero_of());
    lemma_exact(b, a, zero_of());
    lemma_exact(a, negative(b), zero_of());
    lemma_exact(negative(a), b, zero_of());
    assert(negative(d) == minus(b, a));
    lemma_order(threshold, d, magnitude(d));
    lemma_order(threshold, minus(b, a), magnitude(d));
}

/// Whether the left and the right channel differ in one of the first `n` bands.
pub open spec fn differ_before<T: Real>(frame: Seq<Vec<Vec<T>>>, n: int, threshold: T) -> bool {
    exists|band: int, k: int|
        0 <= band < n && 0 <= k < num_pairs(frame[band]@) && #[trigger] samples_differ(
            frame[band]@,
            k,
            threshold,
        )
}

/// A frame that can be compared: it has a band, and if the first one has a right
/// channel, so have all bands up to one in which the channels differ.
pub open spec fn is_comparable<T: Real>(frame: Seq<Vec<Vec<T>>>, threshold: T) -> bool {
    &&& frame.len() > 0
    &&& frame[0]@.len() >= 2 ==> forall|band: int|
        0 <= band < frame.len() ==> (#[trigger] frame[band])@.len() >= 2 || (
        is_functional::<T>() && differ_before(frame, band, threshold))
}

/// Compares the left and right channels in the render `frame` to determine
/// whether the signal is a proper stereo signal. To allow for differences
/// introduced by hardware drivers, a threshold `detection_threshold` is used for
/// the detection.
pub fn has_stereo_content<T: Real>(frame: &[Vec<Vec<T>>], detection_threshold: T) -> (stereo: bool)
    requires
        is_total::<T>(),
        is_comparable(frame@, detection_threshold),
    ensures
        frame@[0]@.len() < 2 ==> !stereo,
        is_functional::<T>() ==> stereo == is_stereo(frame@, detection_threshold),
{
    if frame[0].len() < 2 {
        return false;
    }
    let mut band: usize = 0;
    while band < frame.len()
        invariant
            is_total::<T>(),
            band <= frame@.len(),
            is_comparable(frame@, detection_threshold),
            frame@[0]@.len() >= 2,
            is_functional::<T>() ==> forall|b: int, k: int|
                0 <= b < band && 0 <= k < num_pairs(frame@[b]@) ==> !#[trigger] samples_differ(
                    frame@[b]@,
                    k,
                    detection_threshold,
                ),
        decreases frame@.len() - band,
    {
        assert(frame@[band as int]@.len() >= 2);
        let left: &Vec<T> = &frame[band][0];
        let right: &Vec<T> = &frame[band][1];
        let mut k: usize = 0;
        while k < left.len() && k < right.len()
            invariant
                is_total::<T>(),
                band < frame@.len(),
                frame@[0]@.len() >= 2,
                *left == frame@[band as int]@[0],
                *right == frame@[band as int]@[1],
                k <= num_pairs(frame@[band as int]@),
                is_functional::<T>() ==> forall|j: int|
                    0 <= j < k ==> !#[trigger] samples_differ(
                        frame@[band as int]@,
                        j,
                        detection_threshold,
                    ),
            decreases left@.len() - k,
        {
            if is_less(detection_threshold, absolute(difference(left[k], right[k]))) {
                assert(is_functional::<T>() ==> samples_differ(
                    frame@[band as int]@,
                    k as int,
                    detection_threshold,
                ));
                return true;
            }
            k = k + 1;
        }
        band = band + 1;
    }
    false
}

/// Tracks metrics for the amount of multichannel content detected, and keeps the
/// logged values.
pub struct MetricsLogger {
    frame_counter: i32,
    /// Counts the number of frames of persistent multichannel audio observed
    /// during the current metrics collection interval.
    persistent_multichannel_frame_counter: i32,
    /// Indicates whether persistent multichannel content has ever been
    /// detected.
    any_multichannel_content_detected: bool,
    /// Whether each interval held mostly persistent multichannel content.
    processing_persistent_multichannel_content: Vec<bool>,
}

/// What a logger has seen and logged.
pub struct MetricsHistory {
    pub frames: int,
    pub frames_in_interval: int,
    pub ever_detected: bool,
    pub logged: Seq<bool>,
}

impl MetricsHistory {
    /// Nothing was seen.
    pub open spec fn initial() -> MetricsHistory {
        MetricsHistory {
            frames: 0,
            frames_in_interval: 0,
            ever_detected: false,
            logged: Seq::empty(),
        }
    }

    /// What a logger has seen and logged after the given frames.
    pub open spec fn after(frames: Seq<bool>) -> MetricsHistory
        decreases frames.len(),
    {
        if frames.len() == 0 {
            MetricsHistory::initial()
        } else {
            MetricsHistory::after(frames.drop_last()).step(frames.last())
        }
    }

    /// One more frame. An interval ends with every thousandth frame; it is
    /// logged as multichannel if at least half of its frames were.
    pub open spec fn step(self, detected: bool) -> MetricsHistory {
        let in_interval = self.frames_in_interval + if detected {
            1int
        } else {
            0int
        };
        let interval_ends = (self.frames + 1) % FRAMES_PER_10_SECONDS as int == 0;
        MetricsHistory {
            frames: self.frames + 1,
            frames_in_interval: if interval_ends {
                0
            } else {
                in_interval
            },
            ever_detected: self.ever_detected || detected,
            logged: if interval_ends {
                self.logged.push(in_interval >= FRAMES_PER_10_SECONDS / 2)
            } else {
                self.logged
            },
        }
    }

    pub open spec fn inv(self) -> bool {
        &&& 0 <= self.frames_in_interval <= self.frames % FRAMES_PER_10_SECONDS as int
        &&& 0 <= self.frames <= i32::MAX
        &&& self.logged.len() == self.frames / FRAMES_PER_10_SECONDS as int
        &&& self.frames_in_interval > 0 ==> self.ever_detected
        &&& forall|i: int| 0 <= i < self.logged.len() && self.logged[i] ==> self.ever_detected
    }

    /// One interval is logged per thousand frames, and none as multichannel
    /// unless multichannel content was detected.
    pub proof fn law_step_keeps_invariant(self, detected: bool)
        requires
            self.inv(),
            self.frames < i32::MAX,
        ensures
            self.step(detected).inv(),
    {
        let after = self.step(detected);
        assert(after.logged.len() == after.frames / 1000);
        assert forall|i: int| 0 <= i < after.logged.len() && after.logged[i] implies after.ever_detected by {
            if i < self.logged.len() {
                assert(self.logged[i]);
            }
        }
    }

    /// Multichannel content was ever detected exactly if it was in one of the frames.
    pub proof fn law_ever_detected(frames: Seq<bool>)
        ensures
            Self::after(frames).frames == frames.len(),
            Self::after(frames).ever_detected == frames.contains(true),
        decreases frames.len(),
    {
        if frames.len() > 0 {
            let before = frames.drop_last();
            Self::law_ever_detected(before);
            if frames.last() {
                assert(frames[frames.len() - 1]);
            }
            if before.contains(true) {
                let i = choose|i: int| 0 <= i < before.len() && before[i] == true;
                assert(frames[i] == true);
            }
            if frames.contains(true) && !frames.last() {
                let i = choose|i: int| 0 <= i < frames.len() && frames[i] == true;
                assert(before[i] == true);
            }
        }
    }

    /// Every full interval is logged, as multichannel exactly if at least half of its
    /// own frames were. What was logged does not change.
    pub proof fn law_logged_intervals(frames: Seq<bool>)
        ensures
            Self::after(frames).logged.len() == frames.len() / FRAMES_PER_10_SECONDS as nat,
            forall|j: int|
                0 <= j < Self::after(frames).logged.len() ==> #[trigger] Self::after(
                    frames,
                ).logged[j] == (count_of(interval(frames, j), true) >= FRAMES_PER_10_SECONDS / 2),
            frames.len() > 0 ==> Self::after(frames.drop_last()).logged.is_prefix_of(
                Self::after(frames).logged,
            ),
    {
        Self::lemma_intervals(frames);
    }

    proof fn lemma_intervals(frames: Seq<bool>)
        ensures
            ({
                let history = Self::after(frames);
                let n = frames.len() as int;
                &&& history.frames == n
                &&& history.logged.len() == n / 1000
                &&& history.frames_in_interval == count_of(frames.skip(n / 1000 * 1000), true)
                &&& forall|j: int|
                    0 <= j < history.logged.len() ==> #[trigger] history.logged[j] == (count_of(
                        interval(frames, j),
                        true,
                    ) >= FRAMES_PER_10_SECONDS / 2)
                &&& n > 0 ==> Self::after(frames.drop_last()).logged.is_prefix_of(history.logged)
            }),
        decreases frames.len(),
    {
        let n = frames.len() as int;
        if n > 0 {
            let before = frames.drop_last();
            let old = Self::after(before);
            let new = Self::after(frames);
            Self::lemma_intervals(before);
            let start = (n - 1) / 1000 * 1000;
            let running = frames.skip(start);
            assert(running.drop_last() =~= before.skip(start));
            assert(running.last() == frames.last());
            assert forall|j: int| 0 <= j < old.logged.len() implies interval(frames, j)
                == #[trigger] interval(before, j) by {
                assert(interval(frames, j) =~= interval(before, j));
            }
            assert forall|j: int| 0 <= j < new.logged.len() implies #[trigger] new.logged[j] == (
            count_of(interval(frames, j), true) >= FRAMES_PER_10_SECONDS / 2) by {
                if j < old.logged.len() {
                    assert(new.logged[j] == old.logged[j]);
                    assert(interval(frames, j) == interval(before, j));
                } else {
                    assert(n == (j + 1) * 1000);
                    assert(interval(frames, j) =~= running);
                }
            }
            if n % 1000 == 0 {
                assert(frames.skip(n) =~= Seq::<bool>::empty());
            }
        } else {
            assert(frames.skip(0) =~= Seq::<bool>::empty());
        }
    }
}

/// The frames of an interval.
pub open spec fn interval(frames: Seq<bool>, j: int) -> Seq<bool> {
    frames.subrange(j * FRAMES_PER_10_SECONDS, (j + 1) * FRAMES_PER_10_SECONDS)
}

impl MetricsLogger {
    pub closed spec fn view(&self) -> MetricsHistory {
        MetricsHistory {
            frames: self.frame_counter as int,
            frames_in_interval: self.persistent_multichannel_frame_counter as int,
            ever_detected: self.any_multichannel_content_detected,
            logged: self.processing_persistent_multichannel_content@,
        }
    }

    pub fn new() -> (logger: Self)
        ensures
            logger@.inv(),
            logger@ == MetricsHistory::initial(),
    {
        MetricsLogger {
            frame_counter: 0,
            persistent_multichannel_frame_counter: 0,
            any_multichannel_content_detected: false,
            processing_persistent_multichannel_content: Vec::new(),
        }
    }

    /// Takes in whether a frame held persistent multichannel content.
    pub fn update(&mut self, persistent_multichannel_content_detected: bool)
        requires
            old(self)@.inv(),
            old(self)@.frames < i32::MAX,
        ensures
            final(self)@.inv(),
            final(self)@ == old(self)@.step(persistent_multichannel_content_detected),
    {
        proof {
            self@.law_step_keeps_invariant(persistent_multichannel_content_detected);
        }
        self.frame_counter = self.frame_counter + 1;
        if persistent_multichannel_content_detected {
            self.any_multichannel_content_detected = true;
            self.persistent_multichannel_frame_counter =
            self.persistent_multichannel_frame_counter + 1;
        }
        if self.frame_counter < MIN_NUMBER_OF_FRAMES_REQUIRED_TO_LOG_METRICS {
            return;
        }
        if self.frame_counter % FRAMES_PER_10_SECONDS != 0 {
            return;
        }
        let mostly_multichannel_last_10_seconds = self.persistent_multichannel_frame_counter
            >= FRAMES_PER_10_SECONDS / 2;
        self.processing_persistent_multichannel_content.push(mostly_multichannel_last_10_seconds);
        self.persistent_multichannel_frame_counter = 0;
    }

    /// The periodic samples logged so far.
    pub fn processing_persistent_multichannel_content(&self) -> (logged: &[bool])
        ensures
            logged@ == self@.logged,
    {
        self.processing_persistent_multichannel_content.as_slice()
    }

    /// Whether persistent multichannel content was ever detected, or `None` when
    /// the lifetime was too short to log.
    pub fn persistent_multichannel_content_ever_detected(&self) -> (detected: Option<bool>)
        ensures
            detected == (if self@.frames < MIN_NUMBER_OF_FRAMES_REQUIRED_TO_LOG_METRICS {
                None
            } else {
                Some(self@.ever_detected)
            }),
    {
        if self.frame_counter < MIN_NUMBER_OF_FRAMES_REQUIRED_TO_LOG_METRICS {
            return None;
        }
        Some(self.any_multichannel_content_detected)
    }
}

/// The state of the detection, and its settings.
pub struct DetectionState {
    pub detect_stereo_content: bool,
    pub timeout_frames: Option<int>,
    pub hysteresis_frames: int,
    pub metrics: Option<MetricsHistory>,
    pub persistent: bool,
    pub temporary: bool,
    pub frames_since_stereo: int,
    pub consecutive_stereo_frames: int,
}

impl DetectionState {
    /// One more frame, stereo or not. More stereo frames in a row than the
    /// hysteresis make the content persistently multichannel; as many frames
    /// without stereo as the timeout end that.
    pub open spec fn step(self, stereo: bool) -> DetectionState {
        let consecutive = if stereo {
            self.consecutive_stereo_frames + 1
        } else {
            0
        };
        let since = if stereo {
            0
        } else {
            self.frames_since_stereo + 1
        };
        let timed_out = self.timeout_frames matches Some(timeout) && since >= timeout;
        let persistent = !timed_out && (self.persistent || consecutive > self.hysteresis_frames);
        if self.detect_stereo_content {
            DetectionState {
                metrics: match self.metrics {
                    Some(metrics) => Some(metrics.step(persistent)),
                    None => None,
                },
                persistent,
                temporary: !persistent && stereo,
                frames_since_stereo: since,
                consecutive_stereo_frames: consecutive,
                ..self
            }
        } else {
            self
        }
    }

    pub open spec fn inv(self) -> bool {
        &&& self.metrics matches Some(metrics) ==> metrics.inv()
        &&& 0 <= self.frames_since_stereo
        &&& 0 <= self.consecutive_stereo_frames
        &&& !(self.persistent && self.temporary)
    }

    /// Whether another frame can be counted.
    pub open spec fn has_room(self) -> bool {
        &&& self.metrics matches Some(metrics) ==> metrics.frames < i32::MAX
        &&& self.frames_since_stereo < i64::MAX
        &&& self.consecutive_stereo_frames < i64::MAX
    }

    /// Content is never both persistently and temporarily multichannel, and with
    /// detection off nothing changes. With it on, content becomes persistent just with
    /// more stereo frames in a row than the hysteresis, and no longer is with as many frames
    /// without stereo as the timeout; a stereo frame of other content is temporary.
    pub proof fn law_step(self, stereo: bool)
        requires
            self.inv(),
            self.has_room(),
        ensures
            self.step(stereo).inv(),
            !self.detect_stereo_content ==> self.step(stereo) == self,
            self.detect_stereo_content ==> {
                let after = self.step(stereo);
                let timed_out = self.timeout_frames matches Some(timeout) && !stereo
                    && self.frames_since_stereo + 1 >= timeout;
                &&& stereo ==> after.consecutive_stereo_frames == self.consecutive_stereo_frames
                    + 1 && after.frames_since_stereo == 0
                &&& !stereo ==> after.consecutive_stereo_frames == 0 && after.frames_since_stereo
                    == self.frames_since_stereo + 1
                &&& timed_out ==> !after.persistent
                &&& self.persistent && !timed_out && (self.timeout_frames matches Some(timeout)
                    ==> timeout > 0) ==> after.persistent
                &&& !self.persistent && stereo && (self.timeout_frames matches Some(timeout)
                    ==> timeout > 0) ==> after.persistent == (self.consecutive_stereo_frames + 1
                    > self.hysteresis_frames)
                &&& !self.persistent && !stereo && self.hysteresis_frames >= 0 ==> !after.persistent
                &&& after.temporary == (stereo && !after.persistent)
            },
    {
        if let Some(metrics) = self.metrics {
            metrics.law_step_keeps_invariant(self.step(stereo).persistent);
        }
    }
}

/// The state after frames that were all stereo or all not.
pub open spec fn after_equal_frames(state: DetectionState, stereo: bool, frames: nat) -> DetectionState
    decreases frames,
{
    if frames == 0 {
        state
    } else {
        after_equal_frames(state, stereo, (frames - 1) as nat).step(stereo)
    }
}

proof fn lemma_equal_frames(state: DetectionState, stereo: bool, frames: nat)
    requires
        state.detect_stereo_content,
    ensures
        ({
            let after = after_equal_frames(state, stereo, frames);
            &&& after.detect_stereo_content
            &&& after.timeout_frames == state.timeout_frames
            &&& after.hysteresis_frames == state.hysteresis_frames
            &&& stereo ==> after.consecutive_stereo_frames == state.consecutive_stereo_frames
                + frames
            &&& !stereo ==> after.frames_since_stereo == state.frames_since_stereo + frames
        }),
    decreases frames,
{
    if frames > 0 {
        lemma_equal_frames(state, stereo, (frames - 1) as nat);
    }
}

/// Without a timeout, multichannel content stays detected for ever.
pub proof fn law_no_timeout_keeps_detection(state: DetectionState, stereo: bool)
    requires
        state.timeout_frames is None,
        state.persistent,
    ensures
        state.step(stereo).persistent,
        state.step(stereo).timeout_frames is None,
{
}

/// Once the frames without stereo reach the timeout, content is no longer taken
/// for multichannel.
pub proof fn law_timeout_ends_detection(state: DetectionState, frames: nat)
    requires
        state.detect_stereo_content,
        state.timeout_frames matches Some(timeout) && frames >= timeout,
        frames > 0,
        0 <= state.frames_since_stereo,
    ensures
        !after_equal_frames(state, false, frames).persistent,
{
    lemma_equal_frames(state, false, (frames - 1) as nat);
}

/// Multichannel content that was detected by a stereo frame stays detected for as many
/// frames without stereo as are less than the timeout, or for ever without one; the
/// frame that reaches the timeout is the one that changes it.
pub proof fn law_detection_is_kept_until_timeout(state: DetectionState, frames: nat)
    requires
        state.detect_stereo_content,
        state.persistent || state.hysteresis_frames <= state.consecutive_stereo_frames,
        state.timeout_frames matches Some(timeout) ==> timeout > 0,
    ensures
        state.step(true).persistent,
        after_equal_frames(state.step(true), false, frames).persistent == (
        state.timeout_frames matches Some(timeout) ==> frames < timeout),
        frames > 0 ==> (after_equal_frames(state.step(true), false, frames).persistent
            != after_equal_frames(state.step(true), false, (frames - 1) as nat).persistent) == (
        state.timeout_frames == Some(frames as int)),
    decreases frames,
{
    let first = state.step(true);
    if frames > 0 {
        law_detection_is_kept_until_timeout(state, (frames - 1) as nat);
        lemma_equal_frames(first, false, (frames - 1) as nat);
    }
}

/// More stereo frames in a row than the hysteresis are detected as persistent.
pub proof fn law_hysteresis_delays_detection(state: DetectionState, frames: nat)
    requires
        state.detect_stereo_content,
        frames > state.hysteresis_frames,
        frames > 0,
        0 <= state.consecutive_stereo_frames,
        state.timeout_frames matches Some(timeout) ==> timeout > 0,
    ensures
        after_equal_frames(state, true, frames).persistent,
{
    lemma_equal_frames(state, true, (frames - 1) as nat);
}

/// Analyzes audio content to determine whether the contained audio is proper
/// multichannel, or only upmixed mono.
pub struct MultiChannelContentDetector<T: Real> {
    detect_stereo_content: bool,
    detection_threshold: T,
    detection_timeout_threshold_frames: Option<i32>,
    stereo_detection_hysteresis_frames: i32,
    /// Collects metrics on the amount of multichannel content detected. Only
    /// created if `num_render_input_channels > 1` and `detect_stereo_content`
    /// is true.
    metrics_logger: Option<MetricsLogger>,
    persistent_multichannel_content_detected: bool,
    temporary_multichannel_content_detected: bool,
    frames_since_stereo_detected_last: i64,
    consecutive_frames_with_stereo: i64,
}

impl<T: Real> MultiChannelContentDetector<T> {
    pub closed spec fn threshold(&self) -> T {
        self.detection_threshold
    }

    pub closed spec fn view(&self) -> DetectionState {
        DetectionState {
            detect_stereo_content: self.detect_stereo_content,
            timeout_frames: match self.detection_timeout_threshold_frames {
                Some(frames) => Some(frames as int),
                None => None,
            },
            hysteresis_frames: self.stereo_detection_hysteresis_frames as int,
            metrics: match self.metrics_logger {
                Some(logger) => Some(logger@),
                None => None,
            },
            persistent: self.persistent_multichannel_content_detected,
            temporary: self.temporary_multichannel_content_detected,
            frames_since_stereo: self.frames_since_stereo_detected_last as int,
            consecutive_stereo_frames: self.consecutive_frames_with_stereo as int,
        }
    }

    /// If `stereo_detection_timeout_threshold_seconds` <= 0, no timeout is
    /// applied: once multichannel is detected, the detector remains in that
    /// state for its lifetime.
    ///
    /// The hysteresis is given in seconds; `truncate` gives the integer part of its
    /// number of frames.
    pub fn new<F: Fn(T) -> i32>(
        detect_stereo_content: bool,
        num_render_input_channels: usize,
        detection_threshold: T,
        stereo_detection_timeout_threshold_seconds: i32,
        stereo_detection_hysteresis_seconds: T,
        frames_per_second: T,
        truncate: &F,
    ) -> (detector: Self)
        requires
            is_total::<T>(),
            forall|a: T| call_requires(truncate, (a,)),
            stereo_detection_timeout_threshold_seconds * NUM_FRAMES_PER_SECOND <= i32::MAX,
        ensures
            detector@.inv(),
            detector.threshold() == detection_threshold,
            is_functional::<T>() && is_mapping(*truncate) ==> detector@.hysteresis_frames == image(
                *truncate,
                times(stereo_detection_hysteresis_seconds, frames_per_second),
            ),
            detector@ == (DetectionState {
                detect_stereo_content,
                timeout_frames: if stereo_detection_timeout_threshold_seconds > 0 {
                    Some(stereo_detection_timeout_threshold_seconds * NUM_FRAMES_PER_SECOND)
                } else {
                    None
                },
                hysteresis_frames: detector@.hysteresis_frames,
                metrics: if detect_stereo_content && num_render_input_channels > 1 {
                    Some(MetricsHistory::initial())
                } else {
                    None
                },
                persistent: !detect_stereo_content && num_render_input_channels > 1,
                temporary: false,
                frames_since_stereo: 0,
                consecutive_stereo_frames: 0,
            }),
    {
        let stereo_detection_hysteresis_frames: i32 = apply(
            truncate,
            product(stereo_detection_hysteresis_seconds, frames_per_second),
        );
        MultiChannelContentDetector {
            detect_stereo_content,
            detection_threshold,
            detection_timeout_threshold_frames: if stereo_detection_timeout_threshold_seconds > 0 {
                Some(stereo_detection_timeout_threshold_seconds * NUM_FRAMES_PER_SECOND)
            } else {
                None
            },
            stereo_detection_hysteresis_frames,
            metrics_logger: if detect_stereo_content && num_render_input_channels > 1 {
                Some(MetricsLogger::new())
            } else {
                None
            },
            persistent_multichannel_content_detected: !detect_stereo_content
                && num_render_input_channels > 1,
            temporary_multichannel_content_detected: false,
            frames_since_stereo_detected_last: 0,
            consecutive_frames_with_stereo: 0,
        }
    }

    /// Takes in whether a frame is stereo. Returns whether a change in the proper
    /// multichannel content was detected.
    pub fn update_with_stereo(&mut self, stereo_detected_in_frame: bool) -> (changed: bool)
        requires
            old(self)@.inv(),
            old(self)@.has_room(),
        ensures
            final(self)@.inv(),
            final(self).threshold() == old(self).threshold(),
            final(self)@ == old(self)@.step(stereo_detected_in_frame),
            changed == (final(self)@.persistent != old(self)@.persistent),
    {
        if !self.detect_stereo_content {
            return false;
        }
        proof {
            self@.law_step(stereo_detected_in_frame);
        }
        let previous_persistent_multichannel_content_detected =
            self.persistent_multichannel_content_detected;
        self.consecutive_frames_with_stereo = if stereo_detected_in_frame {
            self.consecutive_frames_with_stereo + 1
        } else {
            0
        };
        self.frames_since_stereo_detected_last = if stereo_detected_in_frame {
            0
        } else {
            self.frames_since_stereo_detected_last + 1
        };
        // Detect persistent multichannel content.
        if self.consecutive_frames_with_stereo > self.stereo_detection_hysteresis_frames as i64 {
            self.persistent_multichannel_content_detected = true;
        }
        if let Some(timeout) = self.detection_timeout_threshold_frames {
            if self.frames_since_stereo_detected_last >= timeout as i64 {
                self.persistent_multichannel_content_detected = false;
            }
        }
        // Detect temporary multichannel content.
        self.temporary_multichannel_content_detected =
        if self.persistent_multichannel_content_detected {
            false
        } else {
            stereo_detected_in_frame
        };
        let persistent = self.persistent_multichannel_content_detected;
        if let Some(metrics_logger) = &mut self.metrics_logger {
            metrics_logger.update(persistent);
        }
        previous_persistent_multichannel_content_detected
            != self.persistent_multichannel_content_detected
    }

    /// Compares the left and right channels in the render `frame` to determine
    /// whether the signal is a proper multichannel signal. Returns a bool
    /// indicating whether a change in the proper multichannel content was
    /// detected.
    pub fn update_detection(&mut self, frame: &[Vec<Vec<T>>]) -> (changed: bool)
        requires
            is_total::<T>(),
            old(self)@.inv(),
            old(self)@.has_room(),
            old(self)@.detect_stereo_content ==> is_comparable(
                frame@,
                old(self).threshold(),
            ),
        ensures
            final(self)@.inv(),
            final(self).threshold() == old(self).threshold(),
            final(self)@ == old(self)@.step(true) || final(self)@ == old(self)@.step(false),
            is_functional::<T>() ==> final(self)@ == old(self)@.step(
                is_stereo(frame@, old(self).threshold()),
            ),
            changed == (final(self)@.persistent != old(self)@.persistent),
    {
        if !self.detect_stereo_content {
            return false;
        }
        let stereo_detected_in_frame = has_stereo_content(frame, self.detection_threshold);
        self.update_with_stereo(stereo_detected_in_frame)
    }

    pub fn is_proper_multi_channel_content_detected(&self) -> (detected: bool)
        ensures
            detected == self@.persistent,
    {
        self.persistent_multichannel_content_detected
    }

    pub fn is_temporary_multi_channel_content_detected(&self) -> (detected: bool)
        ensures
            detected == self@.temporary,
    {
        self.temporary_multichannel_content_detected
    }

    /// The metrics logger, present only when metrics are collected.
    pub fn metrics_logger(&self) -> (logger: Option<&MetricsLogger>)
        ensures
            logger is Some <==> self@.metrics is Some,
            logger matches Some(l) ==> l@ == self@.metrics->0,
    {
        self.metrics_logger.as_ref()
    }
}

} // verus!
