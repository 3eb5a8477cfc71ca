//! Input volume controller.
use crate::audio_processing::agc2::clipping_predictor::{
    are_callable, are_mappings, create_clipping_predictor, nearest, ClippingPredictor,
    ClippingPredictorConfig, ClippingPredictorMode, LevelFunctions, LevelParameters, Windows,
};
use crate::audio_processing::agc2::clipping_predictor_level_buffer::Level;
use crate::audio_processing::agc2::gain_map::{
    compute_volume_update, law_volume_reaches_gain, volume_update, GAIN_MAP, MAX_INPUT_VOLUME,
};
use crate::audio_processing::agc2::input_volume_stats_reporter::{
    counted, counts_below, update_histogram_on_recommended_input_volume_change_to_match_target,
    HistogramSamples,
};
use crate::audio_processing::arithmetic::{
    apply, at_most, clamp, clamped, difference, image, is_at_most, is_functional, is_less,
    is_mapping, is_total, less, minus, over, quotient, times, zero_of, Real,
};
use crate::audio_processing::ordered::{
    is_exact, is_number, is_one, is_ordered, law_clamped, lemma_divides_out, lemma_exact,
    lemma_order, lemma_products, products_keep_order,
};
use vstd::prelude::*;

verus! {

/// A volume that is further than this from the recommended one was set by hand.
pub const VOLUME_QUANTIZATION_SLACK: i32 = 25;

/// The largest error in dB that is corrected at once.
pub const MAX_ABS_RMS_ERROR_DBFS: i32 = 15;

#[derive(Debug, Clone, Copy)]
pub struct Config<T: Real> {
    pub min_input_volume: i32,
    pub clipped_level_min: i32,
    pub clipped_level_step: i32,
    pub clipped_ratio_threshold: T,
    pub clipped_wait_frames: i32,
    pub enable_clipping_predictor: bool,
    pub target_range_max_dbfs: i32,
    pub target_range_experimental_max_dbfs: i32,
    pub target_range_min_dbfs: i32,
    pub update_input_volume_wait_frames: i32,
    pub speech_probability_threshold: T,
    pub speech_ratio_threshold: T,
}

/// The numbers that the controller works with.
#[derive(Debug, Clone, Copy)]
pub struct VolumeParameters<T: Real> {
    pub levels: LevelParameters<T>,
    pub min_sample: T,
    pub max_sample: T,
    pub min_speech_level_dbfs: T,
    pub max_speech_level_dbfs: T,
    pub predictor_clipping_threshold: T,
    pub predictor_crest_factor_margin: T,
}

/// The functions that the controller works with.
pub struct VolumeFunctions<N, L, R, C, I> {
    pub levels: LevelFunctions<N, L, R, C>,
    /// Gives the integer nearest to a number.
    pub round: I,
}

pub open spec fn larger_of(a: int, b: int) -> int {
    if a < b {
        b
    } else {
        a
    }
}

pub open spec fn smaller_of(a: int, b: int) -> int {
    if b < a {
        b
    } else {
        a
    }
}

fn larger_volume(a: i32, b: i32) -> (r: i32)
    ensures
        r == larger_of(a as int, b as int),
{
    if a < b {
        b
    } else {
        a
    }
}

/// The volume of a channel and what led to it.
#[derive(Debug, Clone, Copy, PartialEq, Eq, Structural)]
pub struct VolumeState {
    pub min_input_volume: i32,
    pub min_input_volume_after_clipping: i32,
    pub max_input_volume: i32,
    pub last_recommended_input_volume: i32,
    pub capture_output_used: bool,
    pub check_volume_on_next_process: bool,
    pub startup: bool,
    pub recommended_input_volume: i32,
    pub update_input_volume_wait_frames: i32,
    pub frames_since_update_input_volume: i32,
    pub speech_frames_since_update_input_volume: i32,
    pub is_first_frame: bool,
}

pub open spec fn is_volume(volume: int) -> bool {
    0 <= volume <= MAX_INPUT_VOLUME
}

impl VolumeState {
    pub open spec fn inv(self) -> bool {
        &&& is_volume(self.min_input_volume as int)
        &&& is_volume(self.min_input_volume_after_clipping as int)
        &&& is_volume(self.max_input_volume as int)
        &&& is_volume(self.last_recommended_input_volume as int)
        &&& self.min_input_volume_after_clipping <= self.max_input_volume
        &&& 0 <= self.speech_frames_since_update_input_volume
            <= self.frames_since_update_input_volume < self.update_input_volume_wait_frames
    }

    /// The counts start over.
    pub open spec fn with_counts_reset(self, is_first_frame: bool) -> Self {
        VolumeState {
            frames_since_update_input_volume: 0,
            speech_frames_since_update_input_volume: 0,
            is_first_frame,
            ..self
        }
    }

    /// Whether the volume was changed by hand.
    pub open spec fn is_manually_adjusted(self) -> bool {
        ||| self.recommended_input_volume > self.last_recommended_input_volume
            + VOLUME_QUANTIZATION_SLACK
        ||| self.recommended_input_volume < self.last_recommended_input_volume
            - VOLUME_QUANTIZATION_SLACK
    }

    /// The state once a volume was asked for. A muted or unknown volume is left
    /// alone, and one that was set by hand is taken over; the maximum is raised to
    /// it, if needed. Else the volume is set, up to the maximum.
    pub open spec fn with_volume(self, new_volume: int) -> Self {
        let applied = self.recommended_input_volume;
        if applied == 0 || !is_volume(applied as int) {
            self
        } else if self.is_manually_adjusted() {
            VolumeState {
                last_recommended_input_volume: applied,
                max_input_volume: larger_of(self.max_input_volume as int, applied as int) as i32,
                ..self.with_counts_reset(false)
            }
        } else {
            let volume = smaller_of(new_volume, self.max_input_volume as int) as i32;
            VolumeState {
                recommended_input_volume: if volume == self.last_recommended_input_volume {
                    self.recommended_input_volume
                } else {
                    volume
                },
                last_recommended_input_volume: volume,
                ..self
            }
        }
    }

    /// The state once clipping was handled: the maximum and the volume go down by
    /// the step, but not below the minimum after clipping.
    pub open spec fn after_clipping(self, clipped_level_step: int) -> Self {
        let floor = self.min_input_volume_after_clipping as int;
        let lowered = VolumeState {
            max_input_volume: larger_of(floor, self.max_input_volume - clipped_level_step) as i32,
            ..self
        };
        if self.last_recommended_input_volume > floor {
            lowered.with_volume(
                larger_of(floor, self.last_recommended_input_volume - clipped_level_step),
            ).with_counts_reset(false)
        } else {
            lowered
        }
    }

    /// The state once the applied volume was checked: a volume below the minimum is
    /// raised, except for a muted one after the start.
    pub open spec fn checked(self) -> Self {
        let applied = self.recommended_input_volume;
        if (applied == 0 && !self.startup) || !is_volume(applied as int) {
            self
        } else {
            let volume = larger_of(applied as int, self.min_input_volume as int) as i32;
            VolumeState {
                recommended_input_volume: volume,
                last_recommended_input_volume: volume,
                startup: false,
                ..self.with_counts_reset(true)
            }
        }
    }

    /// The state with one more frame counted.
    pub open spec fn with_frame(self, is_speech: bool) -> Self {
        let first = if self.check_volume_on_next_process {
            (VolumeState { check_volume_on_next_process: false, ..self }).checked()
        } else {
            self
        };
        VolumeState {
            frames_since_update_input_volume: (first.frames_since_update_input_volume + 1) as i32,
            speech_frames_since_update_input_volume: (
            first.speech_frames_since_update_input_volume + if is_speech {
                1int
            } else {
                0int
            }) as i32,
            ..first
        }
    }

    /// Whether it is time for an update.
    pub open spec fn is_due(self) -> bool {
        self.frames_since_update_input_volume >= self.update_input_volume_wait_frames
    }

    /// The state once an error of the speech level was corrected.
    pub open spec fn corrected(self, rms_error_db: int) -> Self {
        let error = nearest(rms_error_db, -MAX_ABS_RMS_ERROR_DBFS, MAX_ABS_RMS_ERROR_DBFS as int);
        if error == 0 {
            self
        } else {
            self.with_volume(
                volume_update(
                    error,
                    self.last_recommended_input_volume as int,
                    self.min_input_volume as int,
                    MAX_INPUT_VOLUME as int,
                ),
            )
        }
    }

    /// The state after a frame that was counted: when an update is due, the error is
    /// corrected if there was enough speech, and the counts start over.
    pub open spec fn concluded(self, rms_error_db: Option<i32>, enough_speech: bool) -> Self {
        if self.is_due() {
            let restarted = self.with_counts_reset(self.is_first_frame);
            let updated = match rms_error_db {
                Some(error) if !self.is_first_frame && enough_speech => restarted.corrected(
                    error as int,
                ),
                _ => restarted,
            };
            VolumeState { is_first_frame: false, ..updated }
        } else {
            VolumeState { is_first_frame: false, ..self }
        }
    }

    /// The volume and the limits stay volumes, whatever is asked for.
    pub proof fn law_volumes_stay_in_range(
        self,
        new_volume: int,
        clipped_level_step: int,
    )
        requires
            self.inv(),
            is_volume(new_volume),
            clipped_level_step > 0,
        ensures
            self.with_volume(new_volume).inv(),
            self.after_clipping(clipped_level_step).inv(),
            self.checked().inv(),
            is_volume(self.recommended_input_volume as int) ==> {
                &&& is_volume(self.with_volume(new_volume).recommended_input_volume as int)
                &&& is_volume(self.after_clipping(clipped_level_step).recommended_input_volume as int)
                &&& is_volume(self.checked().recommended_input_volume as int)
            },
    {
    }

    /// A muted or unknown volume is left alone. One that is further than the slack from
    /// the recommended one was set by hand and is taken over, with a maximum that is no
    /// less. Else the volume that is asked for is recommended, up to the maximum.
    pub proof fn law_volume_is_set(self, new_volume: int)
        requires
            self.inv(),
            is_volume(new_volume),
        ensures
            ({
                let applied = self.recommended_input_volume;
                let last = self.last_recommended_input_volume;
                let after = self.with_volume(new_volume);
                let by_hand = applied - last > 25 || last - applied > 25;
                &&& self.is_manually_adjusted() == by_hand
                &&& applied <= 0 || applied > 255 ==> after == self
                &&& 0 < applied <= 255 && by_hand ==> {
                    &&& after.recommended_input_volume == applied
                    &&& after.last_recommended_input_volume == applied
                    &&& after.max_input_volume >= applied
                    &&& after.max_input_volume >= self.max_input_volume
                    &&& after.max_input_volume == applied || after.max_input_volume
                        == self.max_input_volume
                    &&& after.frames_since_update_input_volume == 0
                    &&& after.speech_frames_since_update_input_volume == 0
                }
                &&& 0 < applied <= 255 && !by_hand ==> {
                    &&& after.last_recommended_input_volume <= self.max_input_volume
                    &&& after.last_recommended_input_volume <= new_volume
                    &&& after.last_recommended_input_volume == new_volume
                        || after.last_recommended_input_volume == self.max_input_volume
                    &&& after.max_input_volume == self.max_input_volume
                    &&& after.last_recommended_input_volume != last
                        ==> after.recommended_input_volume == after.last_recommended_input_volume
                    &&& after.last_recommended_input_volume == last
                        ==> after.recommended_input_volume == applied
                    &&& after.frames_since_update_input_volume
                        == self.frames_since_update_input_volume
                    &&& after.speech_frames_since_update_input_volume
                        == self.speech_frames_since_update_input_volume
                }
            }),
    {
    }

    /// Clipping takes the maximum down by the step, but not below the minimum after
    /// clipping, and a volume above that minimum likewise; the counts start over with it.
    pub proof fn law_clipping_takes_step(self, clipped_level_step: int)
        requires
            self.inv(),
            clipped_level_step > 0,
        ensures
            ({
                let floor = self.min_input_volume_after_clipping;
                let after = self.after_clipping(clipped_level_step);
                &&& self.recommended_input_volume == self.last_recommended_input_volume ==> {
                    &&& after.max_input_volume >= floor
                    &&& after.max_input_volume == floor || after.max_input_volume
                        == self.max_input_volume - clipped_level_step
                    &&& self.max_input_volume - clipped_level_step <= after.max_input_volume
                    &&& self.last_recommended_input_volume <= floor
                        ==> after.recommended_input_volume == self.recommended_input_volume
                        && after.frames_since_update_input_volume
                        == self.frames_since_update_input_volume
                    &&& self.last_recommended_input_volume > floor ==> {
                        &&& after.frames_since_update_input_volume == 0
                        &&& after.speech_frames_since_update_input_volume == 0
                        &&& after.recommended_input_volume <= after.max_input_volume
                        &&& after.recommended_input_volume == floor
                            || after.recommended_input_volume == after.max_input_volume
                            || after.recommended_input_volume == self.recommended_input_volume
                            - clipped_level_step
                        &&& self.last_recommended_input_volume <= self.max_input_volume && floor
                            <= self.recommended_input_volume - clipped_level_step
                            ==> after.recommended_input_volume == self.recommended_input_volume
                            - clipped_level_step
                    }
                }
            }),
    {
    }

    /// A checked volume is not below the minimum and otherwise stays, except that a volume
    /// of zero stays too once there was another one.
    pub proof fn law_checked_volume(self)
        requires
            self.inv(),
        ensures
            ({
                let applied = self.recommended_input_volume;
                let after = self.checked();
                &&& applied < 0 || applied > 255 ==> after == self
                &&& applied == 0 && !self.startup ==> after == self
                &&& 0 <= applied <= 255 && (applied != 0 || self.startup) ==> {
                    &&& after.recommended_input_volume >= self.min_input_volume
                    &&& after.recommended_input_volume >= applied
                    &&& after.recommended_input_volume == applied || after.recommended_input_volume
                        == self.min_input_volume
                    &&& after.last_recommended_input_volume == after.recommended_input_volume
                    &&& !after.startup
                    &&& after.is_first_frame
                    &&& after.frames_since_update_input_volume == 0
                    &&& after.speech_frames_since_update_input_volume == 0
                }
            }),
    {
    }

    /// Each frame counts once, and a speech frame as speech too; a check that is on comes
    /// first, once.
    pub proof fn law_frames_are_counted(self, is_speech: bool)
        requires
            self.inv(),
        ensures
            ({
                let after = self.with_frame(is_speech);
                &&& !after.check_volume_on_next_process
                &&& !self.check_volume_on_next_process ==> {
                    &&& after.frames_since_update_input_volume
                        == self.frames_since_update_input_volume + 1
                    &&& is_speech ==> after.speech_frames_since_update_input_volume
                        == self.speech_frames_since_update_input_volume + 1
                    &&& !is_speech ==> after.speech_frames_since_update_input_volume
                        == self.speech_frames_since_update_input_volume
                    &&& after.recommended_input_volume == self.recommended_input_volume
                }
                &&& self.check_volume_on_next_process && 0 < self.recommended_input_volume <= 255
                    ==> {
                    &&& after.frames_since_update_input_volume == 1
                    &&& is_speech ==> after.speech_frames_since_update_input_volume == 1
                    &&& !is_speech ==> after.speech_frames_since_update_input_volume == 0
                    &&& after.recommended_input_volume >= self.min_input_volume
                    &&& after.is_first_frame
                }
                &&& after.is_due() <==> after.frames_since_update_input_volume
                    >= self.update_input_volume_wait_frames
            }),
    {
    }

    /// A speech level that is too low raises the volume and one that is too high lowers
    /// it, by what the gain has to change, up to 15 dB at once; one on target changes
    /// nothing.
    pub proof fn law_error_is_corrected(self, rms_error_db: int)
        requires
            self.inv(),
            0 < self.recommended_input_volume <= 255,
            self.recommended_input_volume == self.last_recommended_input_volume,
        ensures
            ({
                let before = self.recommended_input_volume;
                let after = self.corrected(rms_error_db).recommended_input_volume;
                &&& rms_error_db == 0 ==> self.corrected(rms_error_db) == self
                &&& rms_error_db > 0 && before <= self.max_input_volume ==> before <= after
                    <= self.max_input_volume
                &&& rms_error_db < 0 ==> after <= before
                &&& rms_error_db > 0 && before <= self.max_input_volume ==> after
                    == self.max_input_volume || after == 255 || GAIN_MAP@[after as int]
                    - GAIN_MAP@[before as int] >= (if rms_error_db > 15 {
                    15
                } else {
                    rms_error_db
                })
                &&& rms_error_db < 0 && before <= self.max_input_volume ==> after
                    <= self.min_input_volume || after == self.max_input_volume
                    || GAIN_MAP@[after as int] - GAIN_MAP@[before as int] <= (if rms_error_db
                    < -15 {
                    -15
                } else {
                    rms_error_db
                })
            }),
    {
        let error = nearest(rms_error_db, -MAX_ABS_RMS_ERROR_DBFS, MAX_ABS_RMS_ERROR_DBFS as int);
        law_volume_reaches_gain(
            error,
            self.last_recommended_input_volume as int,
            self.min_input_volume as int,
            MAX_INPUT_VOLUME as int,
        );
    }

    /// Only a frame that is due changes the volume, and only if there was enough speech
    /// and a level error, and the frame is not the first one; any frame that is due
    /// starts the counts over.
    pub proof fn law_update_waits(self, rms_error_db: Option<i32>, enough_speech: bool)
        ensures
            ({
                let after = self.concluded(rms_error_db, enough_speech);
                let due = self.frames_since_update_input_volume
                    >= self.update_input_volume_wait_frames;
                &&& !after.is_first_frame
                &&& !due ==> after == (VolumeState { is_first_frame: false, ..self })
                &&& due && (self.is_first_frame || !enough_speech || rms_error_db is None) ==> after
                    == (VolumeState {
                    is_first_frame: false,
                    frames_since_update_input_volume: 0,
                    speech_frames_since_update_input_volume: 0,
                    ..self
                })
                &&& due && !self.is_first_frame && enough_speech && rms_error_db is Some
                    ==> after.recommended_input_volume == (VolumeState {
                    frames_since_update_input_volume: 0,
                    speech_frames_since_update_input_volume: 0,
                    ..self
                }).corrected(rms_error_db->0 as int).recommended_input_volume
                    && after.frames_since_update_input_volume == 0
                    && after.speech_frames_since_update_input_volume == 0
            }),
    {
    }

    /// Clipping never raises the volume of a channel that was not set by hand.
    pub proof fn law_clipping_lowers_volume(self, clipped_level_step: int)
        requires
            self.inv(),
            clipped_level_step > 0,
            self.recommended_input_volume == self.last_recommended_input_volume,
        ensures
            self.after_clipping(clipped_level_step).recommended_input_volume
                <= self.recommended_input_volume,
            self.recommended_input_volume > self.min_input_volume_after_clipping ==> {
                &&& self.after_clipping(clipped_level_step).recommended_input_volume
                    >= self.min_input_volume_after_clipping
                &&& self.after_clipping(clipped_level_step).recommended_input_volume
                    < self.recommended_input_volume
            },
    {
    }

    fn set_input_volume(&mut self, new_volume: i32)
        requires
            old(self).inv(),
            is_volume(new_volume as int),
        ensures
            final(self).inv(),
            *final(self) == old(self).with_volume(new_volume as int),
            is_volume(old(self).recommended_input_volume as int) ==> is_volume(
                final(self).recommended_input_volume as int,
            ),
    {
        let applied_input_volume: i32 = self.recommended_input_volume;
        if applied_input_volume == 0 {
            return;
        }
        if applied_input_volume < 0 || applied_input_volume > MAX_INPUT_VOLUME {
            return;
        }
        if applied_input_volume > self.last_recommended_input_volume + VOLUME_QUANTIZATION_SLACK
            || applied_input_volume < self.last_recommended_input_volume
            - VOLUME_QUANTIZATION_SLACK {
            self.last_recommended_input_volume = applied_input_volume;
            if self.last_recommended_input_volume > self.max_input_volume {
                self.max_input_volume = self.last_recommended_input_volume;
            }
            self.frames_since_update_input_volume = 0;
            self.speech_frames_since_update_input_volume = 0;
            self.is_first_frame = false;
            return;
        }
        let volume: i32 = if self.max_input_volume < new_volume {
            self.max_input_volume
        } else {
            new_volume
        };
        if volume == self.last_recommended_input_volume {
            return;
        }
        self.recommended_input_volume = volume;
        self.last_recommended_input_volume = volume;
    }

    fn check_volume_and_reset(&mut self)
        requires
            old(self).inv(),
        ensures
            final(self).inv(),
            *final(self) == old(self).checked(),
            is_volume(old(self).recommended_input_volume as int) ==> is_volume(
                final(self).recommended_input_volume as int,
            ),
    {
        let mut input_volume: i32 = self.recommended_input_volume;
        if input_volume == 0 && !self.startup {
            return;
        }
        if input_volume < 0 || input_volume > MAX_INPUT_VOLUME {
            return;
        }
        if input_volume < self.min_input_volume {
            input_volume = self.min_input_volume;
            self.recommended_input_volume = input_volume;
        }
        self.last_recommended_input_volume = input_volume;
        self.startup = false;
        self.frames_since_update_input_volume = 0;
        self.speech_frames_since_update_input_volume = 0;
        self.is_first_frame = true;
    }

    fn update_input_volume(&mut self, rms_error_db: i32)
        requires
            old(self).inv(),
        ensures
            final(self).inv(),
            *final(self) == old(self).corrected(rms_error_db as int),
            is_volume(old(self).recommended_input_volume as int) ==> is_volume(
                final(self).recommended_input_volume as int,
            ),
    {
        let error: i32 = if rms_error_db < -MAX_ABS_RMS_ERROR_DBFS {
            -MAX_ABS_RMS_ERROR_DBFS
        } else if rms_error_db > MAX_ABS_RMS_ERROR_DBFS {
            MAX_ABS_RMS_ERROR_DBFS
        } else {
            rms_error_db
        };
        if error == 0 {
            return;
        }
        let volume: i32 = compute_volume_update(
            error,
            self.last_recommended_input_volume,
            self.min_input_volume,
            MAX_INPUT_VOLUME,
        );
        self.set_input_volume(volume);
    }

    /// Counts a frame.
    fn count_frame(&mut self, is_speech: bool)
        requires
            old(self).inv(),
        ensures
            *final(self) == old(self).with_frame(is_speech),
            final(self).is_due() || final(self).inv(),
            final(self).with_counts_reset(final(self).is_first_frame).inv(),
            is_volume(old(self).recommended_input_volume as int) ==> is_volume(
                final(self).recommended_input_volume as int,
            ),
    {
        if self.check_volume_on_next_process {
            self.check_volume_on_next_process = false;
            self.check_volume_and_reset();
        }
        if is_speech {
            self.speech_frames_since_update_input_volume =
            self.speech_frames_since_update_input_volume + 1;
        }
        self.frames_since_update_input_volume = self.frames_since_update_input_volume + 1;
    }

    /// Ends a frame that was counted.
    fn conclude_frame(&mut self, rms_error_db: Option<i32>, enough_speech: bool)
        requires
            old(self).is_due() || old(self).inv(),
            old(self).with_counts_reset(old(self).is_first_frame).inv(),
        ensures
            final(self).inv(),
            *final(self) == old(self).concluded(rms_error_db, enough_speech),
            is_volume(old(self).recommended_input_volume as int) ==> is_volume(
                final(self).recommended_input_volume as int,
            ),
    {
        if self.frames_since_update_input_volume >= self.update_input_volume_wait_frames {
            self.frames_since_update_input_volume = 0;
            self.speech_frames_since_update_input_volume = 0;
            if !self.is_first_frame && enough_speech {
                if let Some(error) = rms_error_db {
                    self.update_input_volume(error);
                }
            }
        }
        self.is_first_frame = false;
    }
}

/// Controls the input volume of a channel.
pub struct MonoInputVolumeController<T: Real> {
    state: VolumeState,
    speech_probability_threshold: T,
    speech_ratio_threshold: T,
}

/// The state of a new channel.
pub open spec fn initial_volume_state(
    min_input_volume_after_clipping: i32,
    min_input_volume: i32,
    update_input_volume_wait_frames: i32,
) -> VolumeState {
    VolumeState {
        min_input_volume,
        min_input_volume_after_clipping,
        max_input_volume: MAX_INPUT_VOLUME,
        last_recommended_input_volume: 0,
        capture_output_used: true,
        check_volume_on_next_process: true,
        startup: true,
        recommended_input_volume: 0,
        update_input_volume_wait_frames: larger_of(
            update_input_volume_wait_frames as int,
            1,
        ) as i32,
        frames_since_update_input_volume: 0,
        speech_frames_since_update_input_volume: 0,
        is_first_frame: true,
    }
}

impl<T: Real> MonoInputVolumeController<T> {
    pub closed spec fn view(&self) -> VolumeState {
        self.state
    }

    pub open spec fn inv(&self) -> bool {
        self@.inv()
    }

    pub closed spec fn probability_threshold(&self) -> T {
        self.speech_probability_threshold
    }

    pub closed spec fn ratio_threshold(&self) -> T {
        self.speech_ratio_threshold
    }

    pub open spec fn same_settings(&self, other: &Self) -> bool {
        &&& self.probability_threshold() == other.probability_threshold()
        &&& self.ratio_threshold() == other.ratio_threshold()
    }

    pub fn new(
        min_input_volume_after_clipping: i32,
        min_input_volume: i32,
        update_input_volume_wait_frames: i32,
        speech_probability_threshold: T,
        speech_ratio_threshold: T,
    ) -> (controller: Self)
        requires
            is_volume(min_input_volume as int),
            is_volume(min_input_volume_after_clipping as int),
        ensures
            controller.inv(),
            controller@ == initial_volume_state(
                min_input_volume_after_clipping,
                min_input_volume,
                update_input_volume_wait_frames,
            ),
            controller.probability_threshold() == speech_probability_threshold,
            controller.ratio_threshold() == speech_ratio_threshold,
    {
        MonoInputVolumeController {
            state: VolumeState {
                min_input_volume,
                min_input_volume_after_clipping,
                max_input_volume: MAX_INPUT_VOLUME,
                last_recommended_input_volume: 0,
                capture_output_used: true,
                check_volume_on_next_process: true,
                startup: true,
                recommended_input_volume: 0,
                update_input_volume_wait_frames: larger_volume(update_input_volume_wait_frames, 1),
                frames_since_update_input_volume: 0,
                speech_frames_since_update_input_volume: 0,
                is_first_frame: true,
            },
            speech_probability_threshold,
            speech_ratio_threshold,
        }
    }

    pub fn initialize(&mut self)
        requires
            old(self).inv(),
        ensures
            final(self).inv(),
            final(self).same_settings(old(self)),
            final(self)@ == (VolumeState {
                max_input_volume: MAX_INPUT_VOLUME,
                capture_output_used: true,
                check_volume_on_next_process: true,
                ..old(self)@.with_counts_reset(true)
            }),
    {
        self.state.max_input_volume = MAX_INPUT_VOLUME;
        self.state.capture_output_used = true;
        self.state.check_volume_on_next_process = true;
        self.state.frames_since_update_input_volume = 0;
        self.state.speech_frames_since_update_input_volume = 0;
        self.state.is_first_frame = true;
    }

    /// Whether the capture is used; if it is again, the volume is checked next.
    pub fn handle_capture_output_used_change(&mut self, capture_output_used: bool)
        ensures
            old(self).inv() ==> final(self).inv(),
            final(self).same_settings(old(self)),
            final(self)@ == (VolumeState {
                capture_output_used,
                check_volume_on_next_process: old(self)@.check_volume_on_next_process || (
                capture_output_used && !old(self)@.capture_output_used),
                ..old(self)@
            }),
    {
        if self.state.capture_output_used == capture_output_used {
            return;
        }
        self.state.capture_output_used = capture_output_used;
        if capture_output_used {
            self.state.check_volume_on_next_process = true;
        }
    }

    pub fn set_stream_analog_level(&mut self, input_volume: i32)
        ensures
            old(self).inv() ==> final(self).inv(),
            final(self).same_settings(old(self)),
            final(self)@ == (VolumeState { recommended_input_volume: input_volume, ..old(self)@ }),
    {
        self.state.recommended_input_volume = input_volume;
    }

    /// Lowers the volume and its maximum after clipping.
    pub fn handle_clipping(&mut self, clipped_level_step: i32)
        requires
            old(self).inv(),
            clipped_level_step > 0,
        ensures
            final(self).inv(),
            final(self).same_settings(old(self)),
            final(self)@ == old(self)@.after_clipping(clipped_level_step as int),
            is_volume(old(self)@.recommended_input_volume as int) ==> is_volume(
                final(self)@.recommended_input_volume as int,
            ),
    {
        let floor: i32 = self.state.min_input_volume_after_clipping;
        let last: i32 = self.state.last_recommended_input_volume;
        self.state.max_input_volume =
        larger_volume(floor, self.state.max_input_volume - clipped_level_step);
        if last > floor {
            let volume: i32 = larger_volume(floor, last - clipped_level_step);
            self.state.set_input_volume(volume);
            self.state.frames_since_update_input_volume = 0;
            self.state.speech_frames_since_update_input_volume = 0;
            self.state.is_first_frame = false;
        }
    }

    /// Whether a frame counts as speech.
    pub open spec fn is_speech(&self, speech_probability: T) -> bool {
        at_most(self.probability_threshold(), speech_probability)
    }

    /// Whether enough of the counted frames are speech.
    pub open spec fn is_enough_speech(&self, number: spec_fn(i32) -> T, state: VolumeState) -> bool {
        at_most(
            self.ratio_threshold(),
            over(
                number(state.speech_frames_since_update_input_volume),
                number(state.update_input_volume_wait_frames),
            ),
        )
    }

    /// A frame counts as speech from the threshold of its probability on, and there was
    /// enough speech from the threshold of its share on: more speech is enough if less
    /// is.
    pub proof fn law_speech_counts(
        &self,
        number: spec_fn(i32) -> T,
        state: VolumeState,
        low: T,
        high: T,
    )
        requires
            is_ordered::<T>(),
            products_keep_order::<T>(),
            is_exact::<T>(),
            is_one(number(1)),
            less(zero_of(), number(state.update_input_volume_wait_frames)),
            at_most(low, high),
        ensures
            self.is_speech(low) ==> self.is_speech(high),
            self.is_speech(self.probability_threshold()),
            less(low, self.probability_threshold()) ==> !self.is_speech(low),
            self.is_enough_speech(number, state) <==> at_most(
                times(self.ratio_threshold(), number(state.update_input_volume_wait_frames)),
                number(state.speech_frames_since_update_input_volume),
            ),
    {
        let zero = zero_of::<T>();
        let threshold = self.probability_threshold();
        let ratio = self.ratio_threshold();
        let all = number(state.update_input_volume_wait_frames);
        let speech = number(state.speech_frames_since_update_input_volume);
        let share = over(speech, all);
        assert(is_number(threshold) && is_number(ratio) && is_number(share));
        lemma_order(threshold, low, high);
        lemma_order(low, threshold, high);
        lemma_order(zero, all, zero);
        lemma_exact(speech, all, zero);
        lemma_products(ratio, share, all);
        lemma_products(times(ratio, all), speech, all);
        lemma_divides_out(number(1), ratio, all);
    }

    /// The state after a frame.
    pub open spec fn processed(
        &self,
        number: spec_fn(i32) -> T,
        rms_error_db: Option<i32>,
        speech_probability: T,
    ) -> VolumeState {
        let state = self@.with_frame(self.is_speech(speech_probability));
        state.concluded(rms_error_db, self.is_enough_speech(number, state))
    }

    /// Takes in the error of the speech level in a frame.
    pub fn process<N: Fn(i32) -> T>(
        &mut self,
        rms_error_db: Option<i32>,
        speech_probability: T,
        number: &N,
    )
        requires
            is_total::<T>(),
            old(self).inv(),
            forall|n: i32| call_requires(number, (n,)),
        ensures
            final(self).inv(),
            final(self).same_settings(old(self)),
            is_volume(old(self)@.recommended_input_volume as int) ==> is_volume(
                final(self)@.recommended_input_volume as int,
            ),
            is_functional::<T>() && is_mapping(*number) ==> final(self)@ == old(self).processed(
                |n: i32| image(*number, n),
                rms_error_db,
                speech_probability,
            ),
    {
        let is_speech = is_at_most(self.speech_probability_threshold, speech_probability);
        self.state.count_frame(is_speech);
        let speech_ratio = quotient(
            apply(number, self.state.speech_frames_since_update_input_volume),
            apply(number, self.state.update_input_volume_wait_frames),
        );
        let enough_speech = is_at_most(self.speech_ratio_threshold, speech_ratio);
        self.state.conclude_frame(rms_error_db, enough_speech);
    }

    pub fn recommended_analog_level(&self) -> (volume: i32)
        ensures
            volume == self@.recommended_input_volume,
    {
        self.state.recommended_input_volume
    }

    pub fn min_input_volume_after_clipping(&self) -> (volume: i32)
        ensures
            volume == self@.min_input_volume_after_clipping,
    {
        self.state.min_input_volume_after_clipping
    }
}

/// How many of the first `n` samples are clipped.
pub open spec fn num_clipped<T: Real>(p: VolumeParameters<T>, channel: Seq<T>, n: int) -> int
    decreases n,
{
    if n <= 0 {
        0
    } else {
        num_clipped(p, channel, n - 1) + if at_most(p.max_sample, channel[n - 1]) || at_most(
            channel[n - 1],
            p.min_sample,
        ) {
            1int
        } else {
            0int
        }
    }
}

/// A sample counts as clipped from the largest value up and from the least one down: one
/// more sample adds one just if it is clipped.
pub proof fn law_clipped_samples<T: Real>(
    p: VolumeParameters<T>,
    channel: Seq<T>,
    sample: T,
    n: int,
)
    requires
        0 <= n <= channel.len(),
    ensures
        0 <= num_clipped(p, channel, n) <= n,
        num_clipped(p, channel.push(sample), channel.len() as int + 1) == num_clipped(
            p,
            channel,
            channel.len() as int,
        ) + (if at_most(p.max_sample, sample) || at_most(sample, p.min_sample) {
            1int
        } else {
            0int
        }),
        (forall|i: int|
            0 <= i < n ==> at_most(p.max_sample, #[trigger] channel[i]) || at_most(
                channel[i],
                p.min_sample,
            )) ==> num_clipped(p, channel, n) == n,
        (forall|i: int|
            0 <= i < n ==> !at_most(p.max_sample, #[trigger] channel[i]) && !at_most(
                channel[i],
                p.min_sample,
            )) ==> num_clipped(p, channel, n) == 0,
    decreases n,
{
    lemma_same_samples(p, channel.push(sample), channel, channel.len() as int);
    if n > 0 {
        law_clipped_samples(p, channel, sample, n - 1);
        assert(channel[n - 1] == channel[n - 1]);
    }
}

proof fn lemma_same_samples<T: Real>(p: VolumeParameters<T>, a: Seq<T>, b: Seq<T>, n: int)
    requires
        forall|i: int| 0 <= i < n ==> a[i] == #[trigger] b[i],
    ensures
        num_clipped(p, a, n) == num_clipped(p, b, n),
    decreases n,
{
    if n > 0 {
        lemma_same_samples(p, a, b, n - 1);
        assert(a[n - 1] == b[n - 1]);
    }
}

/// No channel has more clipped samples than are counted, and one has as many.
pub proof fn law_most_clipped_channel<T: Real>(p: VolumeParameters<T>, audio: Seq<Vec<T>>, n: int)
    requires
        0 <= n <= audio.len(),
    ensures
        0 <= max_num_clipped(p, audio, n),
        forall|ch: int|
            0 <= ch < n ==> num_clipped(
                p,
                (#[trigger] audio[ch])@,
                audio[ch]@.len() as int,
            ) <= max_num_clipped(p, audio, n),
        0 < n ==> exists|ch: int|
            0 <= ch < n && max_num_clipped(p, audio, n) == num_clipped(
                p,
                (#[trigger] audio[ch])@,
                audio[ch]@.len() as int,
            ),
    decreases n,
{
    if n > 0 {
        let last = audio[n - 1]@;
        law_most_clipped_channel(p, audio, n - 1);
        lemma_num_clipped(p, last, last.len() as int);
        let now = max_num_clipped(p, audio, n);
        if now == num_clipped(p, last, last.len() as int) {
            assert(now == num_clipped(p, audio[n - 1]@, audio[n - 1]@.len() as int));
        } else {
            let ch = choose|ch: int|
                0 <= ch < n - 1 && now == num_clipped(
                    p,
                    (#[trigger] audio[ch])@,
                    audio[ch]@.len() as int,
                );
            assert(now == num_clipped(p, audio[ch]@, audio[ch]@.len() as int));
        }
    }
}

proof fn lemma_num_clipped<T: Real>(p: VolumeParameters<T>, channel: Seq<T>, n: int)
    ensures
        0 <= num_clipped(p, channel, n),
    decreases n,
{
    if n > 0 {
        lemma_num_clipped(p, channel, n - 1);
    }
}

/// The clipped ratio is the share of clipped samples in the channel that clips most.
pub proof fn law_clipped_ratio<T: Real>(
    p: VolumeParameters<T>,
    number: spec_fn(i32) -> T,
    audio: Seq<Vec<T>>,
)
    requires
        is_exact::<T>(),
        less(zero_of(), number(audio[0]@.len() as i32)),
    ensures
        times(clipped_ratio_of(p, number, audio), number(audio[0]@.len() as i32)) == number(
            max_num_clipped(p, audio, audio.len() as int) as i32,
        ),
{
    lemma_exact(
        number(max_num_clipped(p, audio, audio.len() as int) as i32),
        number(audio[0]@.len() as i32),
        zero_of(),
    );
}

/// The largest number of clipped samples in one of the first `n` channels.
pub open spec fn max_num_clipped<T: Real>(p: VolumeParameters<T>, audio: Seq<Vec<T>>, n: int) -> int
    decreases n,
{
    if n <= 0 {
        0
    } else {
        larger_of(
            max_num_clipped(p, audio, n - 1),
            num_clipped(p, audio[n - 1]@, audio[n - 1]@.len() as int),
        )
    }
}

/// The share of clipped samples in the channel that clips most.
pub open spec fn clipped_ratio_of<T: Real>(
    p: VolumeParameters<T>,
    number: spec_fn(i32) -> T,
    audio: Seq<Vec<T>>,
) -> T {
    over(
        number(max_num_clipped(p, audio, audio.len() as int) as i32),
        number(audio[0]@.len() as i32),
    )
}

/// Whether there is a channel, and all have the same number of samples, but not
/// none.
pub open spec fn is_audio<T>(audio: Seq<Vec<T>>) -> bool {
    &&& audio.len() > 0
    &&& 0 < audio[0]@.len() <= i32::MAX
    &&& forall|ch: int| 0 <= ch < audio.len() ==> (#[trigger] audio[ch])@.len() == audio[0]@.len()
}

fn compute_clipped_ratio<T: Real, N: Fn(i32) -> T>(
    p: &VolumeParameters<T>,
    number: &N,
    audio: &[Vec<T>],
) -> (ratio: T)
    requires
        is_total::<T>(),
        is_audio(audio@),
        forall|n: i32| call_requires(number, (n,)),
    ensures
        is_functional::<T>() && is_mapping(*number) ==> ratio == clipped_ratio_of(
            *p,
            |n: i32| image(*number, n),
            audio@,
        ),
{
    let samples_per_channel: i32 = audio[0].len() as i32;
    let mut most: i32 = 0;
    let mut ch: usize = 0;
    while ch < audio.len()
        invariant
            is_audio(audio@),
            samples_per_channel == audio@[0]@.len(),
            ch <= audio@.len(),
            0 <= most <= samples_per_channel,
            is_functional::<T>() ==> most == max_num_clipped(*p, audio@, ch as int),
        decreases audio@.len() - ch,
    {
        let channel = &audio[ch];
        assert(audio@[ch as int]@.len() == audio@[0]@.len());
        let mut clipped: i32 = 0;
        let mut i: usize = 0;
        while i < channel.len()
            invariant
                i <= channel@.len(),
                channel@.len() == samples_per_channel,
                0 <= clipped <= i,
                is_functional::<T>() ==> clipped == num_clipped(*p, channel@, i as int),
            decreases channel@.len() - i,
        {
            if is_at_most(p.max_sample, channel[i]) || is_at_most(channel[i], p.min_sample) {
                clipped = clipped + 1;
            }
            i = i + 1;
        }
        most = larger_volume(most, clipped);
        ch = ch + 1;
    }
    quotient(apply(number, most), apply(number, samples_per_channel))
}

/// How far the speech level is from the target range, in dB.
pub open spec fn speech_level_error<T: Real>(
    p: VolumeParameters<T>,
    number: spec_fn(i32) -> T,
    round: spec_fn(T) -> i32,
    speech_level_dbfs: T,
    target_range_min_dbfs: i32,
    target_range_max_dbfs: i32,
) -> i32 {
    let level = clamped(speech_level_dbfs, p.min_speech_level_dbfs, p.max_speech_level_dbfs);
    if less(number(target_range_max_dbfs), level) {
        round(minus(number(target_range_max_dbfs), level))
    } else if less(level, number(target_range_min_dbfs)) {
        round(minus(number(target_range_min_dbfs), level))
    } else {
        0
    }
}

/// A speech level within the target range has no error; one below it is short of the
/// lower end by the error, and one above it is beyond the upper end by its opposite.
/// Levels beyond the possible ones count as the nearest possible one.
pub proof fn law_speech_level_error<T: Real>(
    p: VolumeParameters<T>,
    number: spec_fn(i32) -> T,
    round: spec_fn(T) -> i32,
    speech_level_dbfs: T,
    target_range_min_dbfs: i32,
    target_range_max_dbfs: i32,
)
    requires
        is_ordered::<T>(),
        is_number(speech_level_dbfs),
        at_most(p.min_speech_level_dbfs, p.max_speech_level_dbfs),
        at_most(number(target_range_min_dbfs), number(target_range_max_dbfs)),
        at_most(p.min_speech_level_dbfs, number(target_range_min_dbfs)),
        at_most(number(target_range_max_dbfs), p.max_speech_level_dbfs),
    ensures
        ({
            let error = speech_level_error(
                p,
                number,
                round,
                speech_level_dbfs,
                target_range_min_dbfs,
                target_range_max_dbfs,
            );
            let low = number(target_range_min_dbfs);
            let high = number(target_range_max_dbfs);
            &&& at_most(low, speech_level_dbfs) && at_most(speech_level_dbfs, high) ==> error == 0
            &&& less(speech_level_dbfs, low) && at_most(p.min_speech_level_dbfs, speech_level_dbfs)
                ==> error == round(minus(low, speech_level_dbfs))
            &&& less(high, speech_level_dbfs) && at_most(speech_level_dbfs, p.max_speech_level_dbfs)
                ==> error == round(minus(high, speech_level_dbfs))
            &&& less(speech_level_dbfs, p.min_speech_level_dbfs) && less(
                p.min_speech_level_dbfs,
                low,
            ) ==> error == round(minus(low, p.min_speech_level_dbfs))
            &&& less(p.max_speech_level_dbfs, speech_level_dbfs) && less(
                high,
                p.max_speech_level_dbfs,
            ) ==> error == round(minus(high, p.max_speech_level_dbfs))
        }),
{
    let low = number(target_range_min_dbfs);
    let high = number(target_range_max_dbfs);
    let (least, most) = (p.min_speech_level_dbfs, p.max_speech_level_dbfs);
    let x = speech_level_dbfs;
    law_clamped(x, least, most);
    lemma_order(least, low, x);
    lemma_order(x, high, most);
    lemma_order(low, high, x);
    lemma_order(x, low, high);
    lemma_order(high, x, low);
    lemma_order(low, x, high);
    lemma_order(least, low, high);
    lemma_order(low, high, most);
    lemma_order(high, most, low);
    lemma_order(most, high, low);
    lemma_order(low, least, high);
    lemma_order(least, high, least);
    lemma_order(high, least, high);
    lemma_order(most, low, most);
}

fn get_speech_level_rms_error_db<T: Real, N: Fn(i32) -> T, I: Fn(T) -> i32>(
    p: &VolumeParameters<T>,
    number: &N,
    round: &I,
    speech_level_dbfs: T,
    target_range_min_dbfs: i32,
    target_range_max_dbfs: i32,
) -> (error: i32)
    requires
        is_total::<T>(),
        forall|n: i32| call_requires(number, (n,)),
        forall|a: T| call_requires(round, (a,)),
    ensures
        is_functional::<T>() && is_mapping(*number) && is_mapping(*round) ==> error
            == speech_level_error(
            *p,
            |n: i32| image(*number, n),
            |a: T| image(*round, a),
            speech_level_dbfs,
            target_range_min_dbfs,
            target_range_max_dbfs,
        ),
{
    let level = clamp(speech_level_dbfs, p.min_speech_level_dbfs, p.max_speech_level_dbfs);
    let range_max = apply(number, target_range_max_dbfs);
    let range_min = apply(number, target_range_min_dbfs);
    if is_less(range_max, level) {
        apply(round, difference(range_max, level))
    } else if is_less(level, range_min) {
        apply(round, difference(range_min, level))
    } else {
        0
    }
}

/// The first of the first `n` channels with the lowest recommended volume.
pub open spec fn lowest_channel<T: Real>(
    channels: Seq<MonoInputVolumeController<T>>,
    n: int,
) -> int
    decreases n,
{
    if n <= 1 {
        0
    } else {
        let before = lowest_channel(channels, n - 1);
        if channels[n - 1]@.recommended_input_volume < channels[before]@.recommended_input_volume {
            n - 1
        } else {
            before
        }
    }
}

/// The volume that all channels agree to: the lowest one, but not below the minimum
/// unless the input is muted.
pub open spec fn aggregated_volume<T: Real>(
    channels: Seq<MonoInputVolumeController<T>>,
    applied_input_volume: Option<i32>,
    min_input_volume: i32,
) -> int {
    let lowest = channels[lowest_channel(
        channels,
        channels.len() as int,
    )]@.recommended_input_volume as int;
    match applied_input_volume {
        Some(applied) if applied > 0 => larger_of(lowest, min_input_volume as int),
        _ => lowest,
    }
}

/// Unless the input is muted, the recommended volume is not below the minimum; beyond
/// the minimum, it is not above what any channel recommends.
pub proof fn law_recommended_volume<T: Real>(
    channels: Seq<MonoInputVolumeController<T>>,
    applied_input_volume: i32,
    min_input_volume: i32,
    ch: int,
)
    requires
        0 <= ch < channels.len(),
    ensures
        applied_input_volume > 0 ==> aggregated_volume(
            channels,
            Some(applied_input_volume),
            min_input_volume,
        ) >= min_input_volume,
        aggregated_volume(channels, Some(applied_input_volume), min_input_volume) <= larger_of(
            channels[ch]@.recommended_input_volume as int,
            min_input_volume as int,
        ),
        applied_input_volume > 0 ==> aggregated_volume(
            channels,
            Some(applied_input_volume),
            min_input_volume,
        ) == min_input_volume || exists|lowest: int|
            0 <= lowest < channels.len() && aggregated_volume(
                channels,
                Some(applied_input_volume),
                min_input_volume,
            ) == (#[trigger] channels[lowest])@.recommended_input_volume,
        applied_input_volume <= 0 ==> aggregated_volume(
            channels,
            Some(applied_input_volume),
            min_input_volume,
        ) <= channels[ch]@.recommended_input_volume,
        aggregated_volume(channels, None, min_input_volume)
            <= channels[ch]@.recommended_input_volume,
{
    law_lowest_channel(channels, channels.len() as int);
}

/// The lowest channel is one of the channels, and no channel is lower.
pub proof fn law_lowest_channel<T: Real>(channels: Seq<MonoInputVolumeController<T>>, n: int)
    requires
        1 <= n <= channels.len(),
    ensures
        0 <= lowest_channel(channels, n) < n,
        forall|ch: int|
            0 <= ch < n ==> channels[lowest_channel(channels, n)]@.recommended_input_volume <= (
            #[trigger] channels[ch])@.recommended_input_volume,
        forall|ch: int|
            0 <= ch < lowest_channel(channels, n) ==> channels[lowest_channel(
                channels,
                n,
            )]@.recommended_input_volume < (#[trigger] channels[ch])@.recommended_input_volume,
    decreases n,
{
    if n > 1 {
        law_lowest_channel(channels, n - 1);
    }
}

/// The largest step that is predicted for one of the first `n` channels, if any.
pub open spec fn largest_step<T: Real>(
    predictor: ClippingPredictor<T>,
    number: spec_fn(i32) -> T,
    log10: spec_fn(T) -> T,
    root: spec_fn(T) -> T,
    ceil: spec_fn(T) -> i32,
    channels: Seq<MonoInputVolumeController<T>>,
    volume: int,
    default_step: int,
    n: int,
) -> Option<int>
    decreases n,
{
    if n <= 0 {
        None
    } else {
        let before = largest_step(
            predictor,
            number,
            log10,
            root,
            ceil,
            channels,
            volume,
            default_step,
            n - 1,
        );
        let step = predictor.level_step(
            number,
            log10,
            root,
            ceil,
            n - 1,
            volume,
            default_step,
            channels[n - 1]@.min_input_volume_after_clipping as int,
            MAX_INPUT_VOLUME as int,
        );
        match (before, step) {
            (Some(b), Some(s)) => Some(larger_of(b, s as int)),
            (None, Some(s)) => Some(s as int),
            (_, None) => before,
        }
    }
}

/// The largest step is no less than that of any channel, and that of one of them: there
/// is one just if there is one for some channel.
pub proof fn law_largest_step<T: Real>(
    predictor: ClippingPredictor<T>,
    number: spec_fn(i32) -> T,
    log10: spec_fn(T) -> T,
    root: spec_fn(T) -> T,
    ceil: spec_fn(T) -> i32,
    channels: Seq<MonoInputVolumeController<T>>,
    volume: int,
    default_step: int,
    n: int,
)
    requires
        0 <= n <= channels.len(),
    ensures
        ({
            let step_of = |ch: int|
                predictor.level_step(
                    number,
                    log10,
                    root,
                    ceil,
                    ch,
                    volume,
                    default_step,
                    channels[ch]@.min_input_volume_after_clipping as int,
                    255,
                );
            let largest = largest_step(
                predictor,
                number,
                log10,
                root,
                ceil,
                channels,
                volume,
                default_step,
                n,
            );
            &&& forall|ch: int|
                0 <= ch < n && (#[trigger] step_of(ch)) is Some ==> largest is Some && step_of(
                    ch,
                )->0 <= largest->0
            &&& largest is Some ==> exists|ch: int|
                0 <= ch < n && (#[trigger] step_of(ch)) is Some && largest->0 == step_of(ch)->0
        }),
    decreases n,
{
    if n > 0 {
        law_largest_step(
            predictor,
            number,
            log10,
            root,
            ceil,
            channels,
            volume,
            default_step,
            n - 1,
        );
        let step_of = |ch: int|
            predictor.level_step(
                number,
                log10,
                root,
                ceil,
                ch,
                volume,
                default_step,
                channels[ch]@.min_input_volume_after_clipping as int,
                255,
            );
        let before = largest_step(
            predictor,
            number,
            log10,
            root,
            ceil,
            channels,
            volume,
            default_step,
            n - 1,
        );
        let last = step_of(n - 1);
        if before is Some && (last is None || last->0 <= before->0) {
            let ch = choose|ch: int|
                0 <= ch < n - 1 && (#[trigger] step_of(ch)) is Some && before->0 == step_of(ch)->0;
            assert(step_of(ch) is Some);
        }
    }
}

/// Recommends the input volume for all channels.
pub struct InputVolumeController<T: Real> {
    parameters: VolumeParameters<T>,
    min_input_volume: i32,
    recommended_input_volume: i32,
    applied_input_volume: Option<i32>,
    capture_output_used: bool,
    clipped_level_step: i32,
    clipped_ratio_threshold: T,
    clipped_wait_frames: i32,
    clipping_predictor: Option<ClippingPredictor<T>>,
    frames_since_clipped: i32,
    target_range_max_dbfs: i32,
    target_range_min_dbfs: i32,
    channel_controllers: Vec<MonoInputVolumeController<T>>,
    channel_controlling_gain: usize,
}

/// Whether the least volumes of a configuration are volumes.
pub open spec fn is_valid_config<T: Real>(config: Config<T>) -> bool {
    &&& is_volume(config.min_input_volume as int)
    &&& is_volume(config.clipped_level_min as int)
}

impl<T: Real> InputVolumeController<T> {
    pub closed spec fn inv(&self) -> bool {
        &&& is_volume(self.min_input_volume as int)
        &&& self.channel_controllers@.len() > 0
        &&& self.channel_controllers@.len() <= i32::MAX
        &&& forall|ch: int|
            0 <= ch < self.channel_controllers@.len() ==> (
            #[trigger] self.channel_controllers@[ch]).inv()
        &&& self.clipping_predictor matches Some(predictor) ==> {
            &&& predictor.inv()
            &&& predictor@.num_channels() == self.channel_controllers@.len()
        }
        &&& is_volume(self.recommended_input_volume as int)
        &&& self.volumes_are_valid()
    }

    closed spec fn volumes_are_valid(&self) -> bool {
        forall|ch: int|
            0 <= ch < self.channel_controllers@.len() ==> is_volume(
                (#[trigger] self.channel_controllers@[ch])@.recommended_input_volume as int,
            )
    }

    pub closed spec fn numbers(&self) -> VolumeParameters<T> {
        self.parameters
    }

    pub closed spec fn min_volume(&self) -> i32 {
        self.min_input_volume
    }

    pub closed spec fn volume(&self) -> i32 {
        self.recommended_input_volume
    }

    pub closed spec fn applied_volume(&self) -> Option<i32> {
        self.applied_input_volume
    }

    pub closed spec fn is_used(&self) -> bool {
        self.capture_output_used
    }

    pub closed spec fn step(&self) -> i32 {
        self.clipped_level_step
    }

    pub closed spec fn ratio_threshold(&self) -> T {
        self.clipped_ratio_threshold
    }

    pub closed spec fn wait_frames(&self) -> i32 {
        self.clipped_wait_frames
    }

    pub closed spec fn predictor(&self) -> Option<ClippingPredictor<T>> {
        self.clipping_predictor
    }

    pub closed spec fn frames_since_clipped(&self) -> i32 {
        self.frames_since_clipped
    }

    /// The lowest and the highest level of the target range.
    pub closed spec fn target_range(&self) -> (i32, i32) {
        (self.target_range_min_dbfs, self.target_range_max_dbfs)
    }

    pub closed spec fn channels(&self) -> Seq<MonoInputVolumeController<T>> {
        self.channel_controllers@
    }

    /// The channel that the recommended volume comes from.
    pub closed spec fn controlling_channel(&self) -> int {
        self.channel_controlling_gain as int
    }

    /// There is a channel, the recommended volume is a volume, and the predictor knows
    /// as many channels.
    pub proof fn law_has_channels(&self)
        requires
            self.inv(),
        ensures
            0 < self.channels().len() <= i32::MAX,
            is_volume(self.volume() as int),
            forall|ch: int|
                0 <= ch < self.channels().len() ==> (#[trigger] self.channels()[ch]).inv(),
            self.predictor() matches Some(p) ==> p@.num_channels() == self.channels().len(),
    {
    }

    /// Whether the volume can be lowered by the step, and the predictor can start from
    /// it.
    pub open spec fn is_valid_step(&self) -> bool {
        &&& 1 <= self.step()
        &&& self.predictor() is Some ==> self.step() <= MAX_INPUT_VOLUME
    }

    /// Whether the step is needed for a frame: the capture is used, no wait is on, and
    /// there is a predictor or the frame clips. Where that is not `exact`, any frame
    /// may clip.
    pub open spec fn needs_step(
        &self,
        number: spec_fn(i32) -> T,
        audio: Seq<Vec<T>>,
        exact: bool,
    ) -> bool {
        &&& self.is_used()
        &&& self.frames_since_clipped() >= self.wait_frames()
        &&& !exact || self.predictor() is Some || less(
            self.ratio_threshold(),
            clipped_ratio_of(self.numbers(), number, audio),
        )
    }

    pub open spec fn same_settings(&self, other: &Self) -> bool {
        &&& self.numbers() == other.numbers()
        &&& self.min_volume() == other.min_volume()
        &&& self.step() == other.step()
        &&& self.ratio_threshold() == other.ratio_threshold()
        &&& self.wait_frames() == other.wait_frames()
        &&& self.target_range() == other.target_range()
        &&& self.channels().len() == other.channels().len()
        &&& self.predictor() is Some <==> other.predictor() is Some
        &&& forall|ch: int|
            0 <= ch < self.channels().len() ==> (#[trigger] self.channels()[ch]).same_settings(
                &other.channels()[ch],
            )
    }

    /// Whether the recommended volume is what the channels agree to.
    pub open spec fn is_aggregated(&self) -> bool {
        &&& self.volume() == aggregated_volume(
            self.channels(),
            self.applied_volume(),
            self.min_volume(),
        )
        &&& self.controlling_channel() == lowest_channel(
            self.channels(),
            self.channels().len() as int,
        )
    }

    /// Makes a controller. `truncate` gives the integer part of a number.
    pub fn new<N: Fn(i32) -> T, I: Fn(T) -> i32>(
        num_capture_channels: i32,
        config: Config<T>,
        parameters: VolumeParameters<T>,
        number: &N,
        truncate: &I,
    ) -> (controller: Self)
        requires
            is_total::<T>(),
            num_capture_channels > 0,
            is_valid_config(config),
            forall|n: i32| call_requires(number, (n,)),
            forall|a: T| call_requires(truncate, (a,)),
        ensures
            controller.inv(),
            controller.numbers() == parameters,
            controller.min_volume() == config.min_input_volume,
            controller.volume() == 0,
            controller.applied_volume() is None,
            controller.is_used(),
            controller.step() == config.clipped_level_step,
            controller.ratio_threshold() == config.clipped_ratio_threshold,
            controller.wait_frames() == config.clipped_wait_frames,
            controller.frames_since_clipped() == config.clipped_wait_frames,
            controller.target_range() == (
                config.target_range_min_dbfs,
                config.target_range_max_dbfs,
            ),
            controller.channels().len() == num_capture_channels,
            controller.controlling_channel() == 0,
            forall|ch: int|
                0 <= ch < num_capture_channels ==> {
                    &&& (#[trigger] controller.channels()[ch])@ == initial_volume_state(
                        config.clipped_level_min,
                        config.min_input_volume,
                        config.update_input_volume_wait_frames,
                    )
                    &&& controller.channels()[ch].probability_threshold()
                        == config.speech_probability_threshold
                    &&& controller.channels()[ch].ratio_threshold()
                        == config.speech_ratio_threshold
                },
            controller.predictor() is Some <==> config.enable_clipping_predictor,
            controller.predictor() matches Some(p) ==> {
                &&& p.settings() == parameters.levels
                &&& p.mode() == ClippingPredictorMode::AdaptiveStepClippingPeakPrediction
                &&& p.margin() == parameters.predictor_crest_factor_margin
                &&& is_mapping(*number) && is_mapping(*truncate) ==> p.threshold() == image(
                    *number,
                    image(*truncate, parameters.predictor_clipping_threshold),
                )
                &&& p@.windows() == (Windows {
                    window_length: 5,
                    reference_window_length: 5,
                    reference_window_delay: 5,
                })
                &&& p@.num_channels() == num_capture_channels
                &&& forall|ch: int|
                    0 <= ch < num_capture_channels ==> #[trigger] p@.levels(ch) == Seq::<
                        Level<T>,
                    >::empty()
            },
    {
        let clipping_predictor = create_clipping_predictor(
            num_capture_channels,
            ClippingPredictorConfig {
                enabled: config.enable_clipping_predictor,
                mode: ClippingPredictorMode::AdaptiveStepClippingPeakPrediction,
                window_length: 5,
                reference_window_length: 5,
                reference_window_delay: 5,
                clipping_threshold: parameters.predictor_clipping_threshold,
                crest_factor_margin: parameters.predictor_crest_factor_margin,
            },
            parameters.levels,
            number,
            truncate,
        );
        let mut channel_controllers: Vec<MonoInputVolumeController<T>> = Vec::new();
        let mut ch: i32 = 0;
        while ch < num_capture_channels
            invariant
                0 <= ch <= num_capture_channels,
                is_valid_config(config),
                channel_controllers@.len() == ch,
                forall|c: int|
                    0 <= c < ch ==> {
                        &&& (#[trigger] channel_controllers@[c]).inv()
                        &&& channel_controllers@[c]@ == initial_volume_state(
                            config.clipped_level_min,
                            config.min_input_volume,
                            config.update_input_volume_wait_frames,
                        )
                        &&& channel_controllers@[c].probability_threshold()
                            == config.speech_probability_threshold
                        &&& channel_controllers@[c].ratio_threshold()
                            == config.speech_ratio_threshold
                    },
            decreases num_capture_channels - ch,
        {
            channel_controllers.push(
                MonoInputVolumeController::new(
                    config.clipped_level_min,
                    config.min_input_volume,
                    config.update_input_volume_wait_frames,
                    config.speech_probability_threshold,
                    config.speech_ratio_threshold,
                ),
            );
            ch = ch + 1;
        }
        InputVolumeController {
            parameters,
            min_input_volume: config.min_input_volume,
            recommended_input_volume: 0,
            applied_input_volume: None,
            capture_output_used: true,
            clipped_level_step: config.clipped_level_step,
            clipped_ratio_threshold: config.clipped_ratio_threshold,
            clipped_wait_frames: config.clipped_wait_frames,
            clipping_predictor,
            frames_since_clipped: config.clipped_wait_frames,
            target_range_max_dbfs: config.target_range_max_dbfs,
            target_range_min_dbfs: config.target_range_min_dbfs,
            channel_controllers,
            channel_controlling_gain: 0,
        }
    }

    /// Brings the recommended volume up to date with the channels.
    fn aggregate_channel_levels(&mut self)
        requires
            is_volume(old(self).min_input_volume as int),
            old(self).channel_controllers@.len() > 0,
            old(self).volumes_are_valid(),
        ensures
            *final(self) == (InputVolumeController {
                recommended_input_volume: final(self).recommended_input_volume,
                channel_controlling_gain: final(self).channel_controlling_gain,
                ..*old(self)
            }),
            final(self).is_aggregated(),
            is_volume(final(self).recommended_input_volume as int),
    {
        let mut new_recommended: i32 = self.channel_controllers[0].recommended_analog_level();
        assert(is_volume(
            self.channel_controllers@[0]@.recommended_input_volume as int,
        ));
        let mut lowest: usize = 0;
        let mut ch: usize = 1;
        while ch < self.channel_controllers.len()
            invariant
                *self == *old(self),
                self.volumes_are_valid(),
                1 <= ch <= self.channel_controllers@.len(),
                lowest < ch,
                lowest == lowest_channel(self.channel_controllers@, ch as int),
                new_recommended
                    == self.channel_controllers@[lowest as int]@.recommended_input_volume,
                is_volume(new_recommended as int),
            decreases self.channel_controllers@.len() - ch,
        {
            let input_volume: i32 = self.channel_controllers[ch].recommended_analog_level();
            assert(is_volume(
                self.channel_controllers@[ch as int]@.recommended_input_volume as int,
            ));
            if input_volume < new_recommended {
                new_recommended = input_volume;
                lowest = ch;
            }
            ch = ch + 1;
        }
        self.channel_controlling_gain = lowest;
        if let Some(applied_input_volume) = self.applied_input_volume {
            if applied_input_volume > 0 {
                new_recommended = larger_volume(new_recommended, self.min_input_volume);
            }
        }
        self.recommended_input_volume = new_recommended;
    }

    /// Whether `after` is `self` after initialisation.
    pub open spec fn is_initialized(&self, after: &Self) -> bool {
        &&& after.same_settings(self)
        &&& after.predictor() == self.predictor()
        &&& after.frames_since_clipped() == self.frames_since_clipped()
        &&& after.is_used()
        &&& after.applied_volume() is None
        &&& after.volume() == aggregated_volume(
            after.channels(),
            self.applied_volume(),
            self.min_volume(),
        )
        &&& forall|ch: int|
            0 <= ch < self.channels().len() ==> (#[trigger] after.channels()[ch])@ == (
            VolumeState {
                max_input_volume: MAX_INPUT_VOLUME,
                capture_output_used: true,
                check_volume_on_next_process: true,
                ..self.channels()[ch]@.with_counts_reset(true)
            })
    }

    pub fn initialize(&mut self)
        requires
            old(self).inv(),
        ensures
            final(self).inv(),
            old(self).is_initialized(final(self)),
    {
        let mut ch: usize = 0;
        while ch < self.channel_controllers.len()
            invariant
                self.inv(),
                *self == (InputVolumeController {
                    channel_controllers: self.channel_controllers,
                    ..*old(self)
                }),
                ch <= self.channel_controllers@.len() == old(self).channel_controllers@.len(),
                forall|c: int|
                    ch <= c < self.channel_controllers@.len() ==> self.channel_controllers@[c]
                        == old(self).channel_controllers@[c],
                forall|c: int|
                    0 <= c < ch ==> {
                        &&& (#[trigger] self.channel_controllers@[c]).same_settings(
                            &old(self).channel_controllers@[c],
                        )
                        &&& self.channel_controllers@[c]@ == (VolumeState {
                            max_input_volume: MAX_INPUT_VOLUME,
                            capture_output_used: true,
                            check_volume_on_next_process: true,
                            ..old(self).channel_controllers@[c]@.with_counts_reset(true)
                        })
                    },
            decreases self.channel_controllers@.len() - ch,
        {
            self.channel_controllers[ch].initialize();
            ch = ch + 1;
        }
        self.capture_output_used = true;
        self.aggregate_channel_levels();
        self.applied_input_volume = None;
    }

    /// Whether `after` is `self` once a volume was applied and a frame was analysed:
    /// all channels start from the applied volume, and the predictor has seen the
    /// frame if the capture is used.
    pub open spec fn is_analyzed(
        &self,
        after: &Self,
        number: spec_fn(i32) -> T,
        applied_input_volume: i32,
        audio: Seq<Vec<T>>,
        exact: bool,
    ) -> bool {
        &&& after.same_settings(self)
        &&& after.applied_volume() == Some(applied_input_volume)
        &&& after.is_used() == self.is_used()
        &&& after.frames_since_clipped() == self.frames_since_clipped()
        &&& after.is_aggregated()
        &&& forall|ch: int|
            0 <= ch < self.channels().len() ==> (#[trigger] after.channels()[ch])@ == (
            VolumeState {
                recommended_input_volume: applied_input_volume,
                ..self.channels()[ch]@
            })
        &&& !self.is_used() ==> after.predictor() == self.predictor()
        &&& self.is_used() && exact ==> match (self.predictor(), after.predictor()) {
            (Some(p), Some(q)) => q.same_settings(&p) && p@.is_followed_by(&q@, number, audio),
            (None, None) => true,
            _ => false,
        }
    }

    /// Applies a volume and analyses a frame.
    fn apply_and_analyze<
        N: Fn(i32) -> T,
        L: Fn(T) -> T,
        R: Fn(T) -> T,
        C: Fn(T) -> i32,
        I: Fn(T) -> i32,
    >(&mut self, applied_input_volume: i32, audio: &[Vec<T>], f: &VolumeFunctions<N, L, R, C, I>)
        requires
            is_total::<T>(),
            are_callable(f.levels),
            old(self).inv(),
            is_volume(applied_input_volume as int),
            is_audio(audio@),
            audio@.len() == old(self).channels().len(),
        ensures
            final(self).inv(),
            old(self).is_analyzed(
                final(self),
                |n: i32| image(f.levels.number, n),
                applied_input_volume,
                audio@,
                is_functional::<T>() && are_mappings(f.levels),
            ),
    {
        self.applied_input_volume = Some(applied_input_volume);
        let mut ch: usize = 0;
        while ch < self.channel_controllers.len()
            invariant
                self.inv(),
                is_volume(applied_input_volume as int),
                *self == (InputVolumeController {
                    applied_input_volume: Some(applied_input_volume),
                    channel_controllers: self.channel_controllers,
                    ..*old(self)
                }),
                ch <= self.channel_controllers@.len() == old(self).channel_controllers@.len(),
                forall|c: int|
                    ch <= c < self.channel_controllers@.len() ==> self.channel_controllers@[c]
                        == old(self).channel_controllers@[c],
                forall|c: int|
                    0 <= c < ch ==> {
                        &&& (#[trigger] self.channel_controllers@[c]).same_settings(
                            &old(self).channel_controllers@[c],
                        )
                        &&& self.channel_controllers@[c]@ == (VolumeState {
                            recommended_input_volume: applied_input_volume,
                            ..old(self).channel_controllers@[c]@
                        })
                    },
            decreases self.channel_controllers@.len() - ch,
        {
            self.channel_controllers[ch].set_stream_analog_level(applied_input_volume);
            ch = ch + 1;
        }
        self.aggregate_channel_levels();
        if self.capture_output_used {
            if let Some(clipping_predictor) = &mut self.clipping_predictor {
                clipping_predictor.analyze(audio, &f.levels);
            }
        }
    }

    /// The largest step that the predictor asks for, if any.
    pub open spec fn predicted_step(
        &self,
        number: spec_fn(i32) -> T,
        log10: spec_fn(T) -> T,
        root: spec_fn(T) -> T,
        ceil: spec_fn(T) -> i32,
    ) -> Option<int> {
        match self.predictor() {
            Some(p) => largest_step(
                p,
                number,
                log10,
                root,
                ceil,
                self.channels(),
                self.volume() as int,
                self.step() as int,
                self.channels().len() as int,
            ),
            None => None,
        }
    }

    /// Whether `after` is `self` with clipping handled by the given step: every
    /// channel goes down, and the wait and the predictor start over.
    pub open spec fn is_lowered(&self, after: &Self, step: int) -> bool {
        &&& after.same_settings(self)
        &&& after.applied_volume() == self.applied_volume()
        &&& after.is_used() == self.is_used()
        &&& after.frames_since_clipped() == 0
        &&& after.is_aggregated()
        &&& forall|ch: int|
            0 <= ch < self.channels().len() ==> (#[trigger] after.channels()[ch])@
                == self.channels()[ch]@.after_clipping(step)
        &&& match (self.predictor(), after.predictor()) {
            (Some(p), Some(q)) => q.same_settings(&p) && forall|ch: int|
                0 <= ch < p@.num_channels() ==> #[trigger] q@.levels(ch) == Seq::<Level<T>>::empty(),
            (None, None) => true,
            _ => false,
        }
    }

    /// Whether `after` is `self` with nothing changed but the number of frames since
    /// clipping.
    pub open spec fn is_kept(&self, after: &Self, frames_since_clipped: int) -> bool {
        &&& after.same_settings(self)
        &&& after.applied_volume() == self.applied_volume()
        &&& after.is_used() == self.is_used()
        &&& after.frames_since_clipped() == frames_since_clipped
        &&& after.channels() == self.channels()
        &&& after.predictor() == self.predictor()
        &&& after.volume() == self.volume()
        &&& after.controlling_channel() == self.controlling_channel()
    }

    /// Whether `after` is `self` once clipping in a frame was handled: not while the
    /// capture is unused or a wait is on; else if too many samples are clipped or
    /// clipping is predicted, by the larger one of the default step and the predicted
    /// one.
    pub open spec fn clipping_is_handled(
        &self,
        after: &Self,
        number: spec_fn(i32) -> T,
        log10: spec_fn(T) -> T,
        root: spec_fn(T) -> T,
        ceil: spec_fn(T) -> i32,
        audio: Seq<Vec<T>>,
    ) -> bool {
        let predicted = self.predicted_step(number, log10, root, ceil);
        let detected = less(
            self.ratio_threshold(),
            clipped_ratio_of(self.numbers(), number, audio),
        );
        if !self.is_used() {
            self.is_kept(after, self.frames_since_clipped() as int)
        } else if self.frames_since_clipped() < self.wait_frames() {
            self.is_kept(after, self.frames_since_clipped() + 1)
        } else {
            match predicted {
                Some(step) => self.is_lowered(after, larger_of(step, self.step() as int)),
                None => if detected {
                    self.is_lowered(after, self.step() as int)
                } else {
                    self.is_kept(after, self.frames_since_clipped() as int)
                },
            }
        }
    }

    /// While the capture is unused nothing changes, and while a wait is on only it does.
    /// Else a frame with too many clipped samples, or in which clipping is predicted,
    /// lowers all channels by at least the default step, and any other one changes
    /// nothing.
    pub proof fn law_clipping_is_handled(
        &self,
        after: &Self,
        number: spec_fn(i32) -> T,
        log10: spec_fn(T) -> T,
        root: spec_fn(T) -> T,
        ceil: spec_fn(T) -> i32,
        audio: Seq<Vec<T>>,
    )
        requires
            self.clipping_is_handled(after, number, log10, root, ceil, audio),
        ensures
            ({
                let predicted = self.predicted_step(number, log10, root, ceil);
                let detected = less(
                    self.ratio_threshold(),
                    clipped_ratio_of(self.numbers(), number, audio),
                );
                let ready = self.is_used() && self.frames_since_clipped() >= self.wait_frames();
                &&& !self.is_used() ==> after.frames_since_clipped() == self.frames_since_clipped()
                &&& self.is_used() && !ready ==> after.frames_since_clipped()
                    == self.frames_since_clipped() + 1
                &&& !ready || (!detected && predicted is None) ==> after.volume() == self.volume()
                    && after.channels() == self.channels()
                &&& ready && (detected || predicted is Some) ==> {
                    &&& after.frames_since_clipped() == 0
                    &&& exists|step: int|
                        #![trigger self.is_lowered(after, step)]
                        step >= self.step() && (predicted matches Some(s) ==> step >= s && (step
                            == s || step == self.step())) && (predicted is None ==> step
                            == self.step()) && self.is_lowered(after, step)
                }
            }),
    {
        let predicted = self.predicted_step(number, log10, root, ceil);
        if self.is_used() && self.frames_since_clipped() >= self.wait_frames() {
            match predicted {
                Some(step) => {
                    assert(self.is_lowered(after, larger_of(step, self.step() as int)));
                },
                None => {
                    if less(
                        self.ratio_threshold(),
                        clipped_ratio_of(self.numbers(), number, audio),
                    ) {
                        assert(self.is_lowered(after, self.step() as int));
                    }
                },
            }
        }
    }

    /// Lowers all channels by a step.
    fn lower_channels(&mut self, step: i32)
        requires
            old(self).inv(),
            step > 0,
        ensures
            final(self).inv(),
            old(self).is_lowered(final(self), step as int),
    {
        let mut ch: usize = 0;
        while ch < self.channel_controllers.len()
            invariant
                self.inv(),
                step > 0,
                *self == (InputVolumeController {
                    channel_controllers: self.channel_controllers,
                    ..*old(self)
                }),
                ch <= self.channel_controllers@.len() == old(self).channel_controllers@.len(),
                forall|c: int|
                    ch <= c < self.channel_controllers@.len() ==> self.channel_controllers@[c]
                        == old(self).channel_controllers@[c],
                forall|c: int|
                    0 <= c < ch ==> {
                        &&& (#[trigger] self.channel_controllers@[c]).same_settings(
                            &old(self).channel_controllers@[c],
                        )
                        &&& self.channel_controllers@[c]@
                            == old(self).channel_controllers@[c]@.after_clipping(step as int)
                    },
            decreases self.channel_controllers@.len() - ch,
        {
            self.channel_controllers[ch].handle_clipping(step);
            ch = ch + 1;
        }
        self.frames_since_clipped = 0;
        if let Some(clipping_predictor) = &mut self.clipping_predictor {
            clipping_predictor.reset();
        }
        self.aggregate_channel_levels();
    }

    /// The largest step that the predictor asks for, if any.
    fn predict_step<
        N: Fn(i32) -> T,
        L: Fn(T) -> T,
        R: Fn(T) -> T,
        C: Fn(T) -> i32,
    >(&self, f: &LevelFunctions<N, L, R, C>) -> (step: Option<i32>)
        requires
            is_total::<T>(),
            are_callable(*f),
            self.inv(),
            self.predictor() is Some ==> self.is_valid_step(),
        ensures
            step matches Some(s) ==> 0 < s <= MAX_INPUT_VOLUME,
            is_functional::<T>() && are_mappings(*f) ==> match (
                step,
                self.predicted_step(
                    |n: i32| image(f.number, n),
                    |a: T| image(f.log10, a),
                    |a: T| image(f.root, a),
                    |a: T| image(f.ceil, a),
                ),
            ) {
                (Some(a), Some(b)) => a == b,
                (None, None) => true,
                _ => false,
            },
    {
        let mut predicted: Option<i32> = None;
        if let Some(clipping_predictor) = &self.clipping_predictor {
            let mut channel: usize = 0;
            while channel < self.channel_controllers.len()
                invariant
                    is_total::<T>(),
                    are_callable(*f),
                    self.inv(),
                    self.is_valid_step(),
                    self.clipping_predictor == Some(*clipping_predictor),
                    channel <= self.channel_controllers@.len(),
                    predicted matches Some(s) ==> 0 < s <= MAX_INPUT_VOLUME,
                    is_functional::<T>() && are_mappings(*f) ==> match (
                        predicted,
                        largest_step(
                            *clipping_predictor,
                            |n: i32| image(f.number, n),
                            |a: T| image(f.log10, a),
                            |a: T| image(f.root, a),
                            |a: T| image(f.ceil, a),
                            self.channel_controllers@,
                            self.recommended_input_volume as int,
                            self.clipped_level_step as int,
                            channel as int,
                        ),
                    ) {
                        (Some(a), Some(b)) => a == b,
                        (None, None) => true,
                        _ => false,
                    },
                decreases self.channel_controllers@.len() - channel,
            {
                assert(self.channel_controllers@[channel as int].inv());
                let step = clipping_predictor.estimate_clipped_level_step(
                    channel as i32,
                    self.recommended_input_volume,
                    self.clipped_level_step,
                    self.channel_controllers[channel].min_input_volume_after_clipping(),
                    MAX_INPUT_VOLUME,
                    f,
                );
                if let Some(s) = step {
                    predicted = match predicted {
                        Some(before) => Some(larger_volume(before, s)),
                        None => Some(s),
                    };
                }
                channel = channel + 1;
            }
        }
        predicted
    }

    /// Handles clipping in a frame.
    fn handle_clipping<
        N: Fn(i32) -> T,
        L: Fn(T) -> T,
        R: Fn(T) -> T,
        C: Fn(T) -> i32,
        I: Fn(T) -> i32,
    >(&mut self, audio: &[Vec<T>], f: &VolumeFunctions<N, L, R, C, I>)
        requires
            is_total::<T>(),
            are_callable(f.levels),
            old(self).inv(),
            old(self).is_aggregated(),
            is_audio(audio@),
            old(self).needs_step(
                |n: i32| image(f.levels.number, n),
                audio@,
                is_functional::<T>() && are_mappings(f.levels),
            ) ==> old(self).is_valid_step(),
        ensures
            final(self).inv(),
            final(self).same_settings(old(self)),
            final(self).is_aggregated(),
            is_functional::<T>() && are_mappings(f.levels) ==> old(self).clipping_is_handled(
                final(self),
                |n: i32| image(f.levels.number, n),
                |a: T| image(f.levels.log10, a),
                |a: T| image(f.levels.root, a),
                |a: T| image(f.levels.ceil, a),
                audio@,
            ),
    {
        if !self.capture_output_used {
            return;
        }
        if self.frames_since_clipped < self.clipped_wait_frames {
            self.frames_since_clipped = self.frames_since_clipped + 1;
            return;
        }
        let clipped_ratio = compute_clipped_ratio(&self.parameters, &f.levels.number, audio);
        let clipping_detected = is_less(self.clipped_ratio_threshold, clipped_ratio);
        let predicted = self.predict_step(&f.levels);
        match predicted {
            Some(predicted_step) => {
                let step: i32 = larger_volume(predicted_step, self.clipped_level_step);
                self.lower_channels(step);
            },
            None => {
                if clipping_detected {
                    self.lower_channels(self.clipped_level_step);
                }
            },
        }
    }

    /// Takes in the applied volume and a frame of the input, and lowers the volume
    /// where it clips or is about to.
    pub fn analyze_input_audio<
        N: Fn(i32) -> T,
        L: Fn(T) -> T,
        R: Fn(T) -> T,
        C: Fn(T) -> i32,
        I: Fn(T) -> i32,
    >(&mut self, applied_input_volume: i32, audio: &[Vec<T>], f: &VolumeFunctions<N, L, R, C, I>)
        requires
            is_total::<T>(),
            are_callable(f.levels),
            old(self).inv(),
            is_volume(applied_input_volume as int),
            is_audio(audio@),
            audio@.len() == old(self).channels().len(),
            old(self).needs_step(
                |n: i32| image(f.levels.number, n),
                audio@,
                is_functional::<T>() && are_mappings(f.levels),
            ) ==> old(self).is_valid_step(),
        ensures
            final(self).inv(),
            final(self).same_settings(old(self)),
            final(self).is_aggregated(),
            is_functional::<T>() && are_mappings(f.levels) ==> exists|analyzed: Self|
                {
                    &&& old(self).is_analyzed(
                        &analyzed,
                        |n: i32| image(f.levels.number, n),
                        applied_input_volume,
                        audio@,
                        true,
                    )
                    &&& #[trigger] analyzed.is_aggregated()
                    &&& analyzed.clipping_is_handled(
                        final(self),
                        |n: i32| image(f.levels.number, n),
                        |a: T| image(f.levels.log10, a),
                        |a: T| image(f.levels.root, a),
                        |a: T| image(f.levels.ceil, a),
                        audio@,
                    )
                },
    {
        self.apply_and_analyze(applied_input_volume, audio, f);
        let ghost analyzed = *self;
        assert(analyzed.is_aggregated());
        self.handle_clipping(audio, f);
    }

    /// The error of the speech level, if it is known.
    pub open spec fn level_error(
        &self,
        number: spec_fn(i32) -> T,
        round: spec_fn(T) -> i32,
        speech_level_dbfs: Option<T>,
    ) -> Option<i32> {
        match speech_level_dbfs {
            Some(level) => Some(
                speech_level_error(
                    self.numbers(),
                    number,
                    round,
                    level,
                    self.target_range().0,
                    self.target_range().1,
                ),
            ),
            None => None,
        }
    }

    /// Lets all channels process a frame.
    fn process_channels<N: Fn(i32) -> T>(
        &mut self,
        rms_error_db: Option<i32>,
        speech_probability: T,
        number: &N,
    )
        requires
            is_total::<T>(),
            old(self).inv(),
            forall|n: i32| call_requires(number, (n,)),
        ensures
            final(self).inv(),
            *final(self) == (InputVolumeController {
                channel_controllers: final(self).channel_controllers,
                ..*old(self)
            }),
            final(self).channel_controllers@.len() == old(self).channel_controllers@.len(),
            forall|ch: int|
                0 <= ch < old(self).channel_controllers@.len() ==> (
                #[trigger] final(self).channel_controllers@[ch]).same_settings(
                    &old(self).channel_controllers@[ch],
                ),
            is_functional::<T>() && is_mapping(*number) ==> forall|ch: int|
                0 <= ch < old(self).channel_controllers@.len() ==> (
                #[trigger] final(self).channel_controllers@[ch])@
                    == old(self).channel_controllers@[ch].processed(
                    |n: i32| image(*number, n),
                    rms_error_db,
                    speech_probability,
                ),
    {
        let mut ch: usize = 0;
        while ch < self.channel_controllers.len()
            invariant
                is_total::<T>(),
                self.inv(),
                forall|n: i32| call_requires(number, (n,)),
                *self == (InputVolumeController {
                    channel_controllers: self.channel_controllers,
                    ..*old(self)
                }),
                ch <= self.channel_controllers@.len() == old(self).channel_controllers@.len(),
                forall|c: int|
                    ch <= c < self.channel_controllers@.len() ==> self.channel_controllers@[c]
                        == old(self).channel_controllers@[c],
                forall|c: int|
                    0 <= c < ch ==> (#[trigger] self.channel_controllers@[c]).same_settings(
                        &old(self).channel_controllers@[c],
                    ),
                is_functional::<T>() && is_mapping(*number) ==> forall|c: int|
                    0 <= c < ch ==> (#[trigger] self.channel_controllers@[c])@
                        == old(self).channel_controllers@[c].processed(
                        |n: i32| image(*number, n),
                        rms_error_db,
                        speech_probability,
                    ),
            decreases self.channel_controllers@.len() - ch,
        {
            self.channel_controllers[ch].process(rms_error_db, speech_probability, number);
            ch = ch + 1;
        }
    }

    /// Recommends a volume, once for each applied volume: by the speech level, or the
    /// applied volume itself if the capture is unused. A volume that the speech level
    /// has changed is logged in `samples`, except for one of zero.
    pub fn recommend_input_volume<
        N: Fn(i32) -> T,
        L: Fn(T) -> T,
        R: Fn(T) -> T,
        C: Fn(T) -> i32,
        I: Fn(T) -> i32,
    >(
        &mut self,
        speech_probability: T,
        speech_level_dbfs: Option<T>,
        f: &VolumeFunctions<N, L, R, C, I>,
        samples: &mut HistogramSamples,
    ) -> (volume: Option<i32>)
        requires
            is_total::<T>(),
            are_callable(f.levels),
            forall|a: T| call_requires(f.round, (a,)),
            old(self).inv(),
            counts_below(old(samples)@, i32::MAX as int),
        ensures
            final(self).inv(),
            final(self).same_settings(old(self)),
            final(self).is_used() == old(self).is_used(),
            final(self).predictor() == old(self).predictor(),
            final(self).frames_since_clipped() == old(self).frames_since_clipped(),
            volume is None <==> old(self).applied_volume() is None,
            volume is None ==> *final(self) == *old(self) && final(samples)@ == old(samples)@,
            volume is Some ==> final(self).volume() == aggregated_volume(
                final(self).channels(),
                old(self).applied_volume(),
                old(self).min_volume(),
            ),
            volume is Some && !old(self).is_used() ==> {
                &&& volume == old(self).applied_volume()
                &&& final(self).applied_volume() == old(self).applied_volume()
                &&& final(self).channels() == old(self).channels()
                &&& final(samples)@ == old(samples)@
            },
            volume is Some && old(self).is_used() ==> {
                &&& volume == Some(final(self).volume())
                &&& old(self).applied_volume()->0 > 0 ==> final(self).volume() >= old(
                    self).min_volume()
                &&& final(self).applied_volume() is None
                &&& final(samples)@ == if final(self).volume() != aggregated_volume(
                    old(self).channels(),
                    old(self).applied_volume(),
                    old(self).min_volume(),
                ) && final(self).volume() > 0 {
                    counted(old(samples)@, final(self).volume())
                } else {
                    old(samples)@
                }
            },
            is_functional::<T>() && are_mappings(f.levels) && is_mapping(f.round) && volume is Some
                && old(self).is_used() ==> forall|ch: int|
                0 <= ch < old(self).channels().len() ==> (#[trigger] final(self).channels()[ch])@
                    == old(self).channels()[ch].processed(
                    |n: i32| image(f.levels.number, n),
                    old(self).level_error(
                        |n: i32| image(f.levels.number, n),
                        |a: T| image(f.round, a),
                        speech_level_dbfs,
                    ),
                    speech_probability,
                ),
    {
        if self.applied_input_volume.is_none() {
            return None;
        }
        self.aggregate_channel_levels();
        let volume_after_clipping_handling: i32 = self.recommended_input_volume;
        if !self.capture_output_used {
            return self.applied_input_volume;
        }
        let rms_error_db: Option<i32> = match speech_level_dbfs {
            Some(level) => Some(
                get_speech_level_rms_error_db(
                    &self.parameters,
                    &f.levels.number,
                    &f.round,
                    level,
                    self.target_range_min_dbfs,
                    self.target_range_max_dbfs,
                ),
            ),
            None => None,
        };
        self.process_channels(rms_error_db, speech_probability, &f.levels.number);
        self.aggregate_channel_levels();
        if volume_after_clipping_handling != self.recommended_input_volume
            && self.recommended_input_volume > 0 {
            update_histogram_on_recommended_input_volume_change_to_match_target(
                samples,
                self.recommended_input_volume,
            );
        }
        self.applied_input_volume = None;
        Some(self.recommended_input_volume)
    }

    /// Whether the capture is used from now on.
    pub fn handle_capture_output_used_change(&mut self, capture_output_used: bool)
        requires
            old(self).inv(),
        ensures
            final(self).inv(),
            final(self).same_settings(old(self)),
            final(self).is_used() == capture_output_used,
            final(self).applied_volume() == old(self).applied_volume(),
            final(self).predictor() == old(self).predictor(),
            final(self).frames_since_clipped() == old(self).frames_since_clipped(),
            final(self).volume() == old(self).volume(),
            final(self).controlling_channel() == old(self).controlling_channel(),
            forall|ch: int|
                0 <= ch < old(self).channels().len() ==> (#[trigger] final(self).channels()[ch])@
                    == (VolumeState {
                    capture_output_used,
                    check_volume_on_next_process: old(
                        self).channels()[ch]@.check_volume_on_next_process || (capture_output_used
                        && !old(self).channels()[ch]@.capture_output_used),
                    ..old(self).channels()[ch]@
                }),
    {
        let mut ch: usize = 0;
        while ch < self.channel_controllers.len()
            invariant
                self.inv(),
                *self == (InputVolumeController {
                    channel_controllers: self.channel_controllers,
                    ..*old(self)
                }),
                ch <= self.channel_controllers@.len() == old(self).channel_controllers@.len(),
                forall|c: int|
                    ch <= c < self.channel_controllers@.len() ==> self.channel_controllers@[c]
                        == old(self).channel_controllers@[c],
                forall|c: int|
                    0 <= c < ch ==> {
                        &&& (#[trigger] self.channel_controllers@[c]).same_settings(
                            &old(self).channel_controllers@[c],
                        )
                        &&& self.channel_controllers@[c]@ == (VolumeState {
                            capture_output_used,
                            check_volume_on_next_process: old(
                                self).channel_controllers@[c]@.check_volume_on_next_process || (
                            capture_output_used && !old(
                                self).channel_controllers@[c]@.capture_output_used),
                            ..old(self).channel_controllers@[c]@
                        })
                    },
            decreases self.channel_controllers@.len() - ch,
        {
            self.channel_controllers[ch].handle_capture_output_used_change(capture_output_used);
            ch = ch + 1;
        }
        self.capture_output_used = capture_output_used;
    }

    /// Whether clipping is foretold before it happens.
    pub fn predicts_clipping(&self) -> (predicts: bool)
        ensures
            predicts == self.predictor() is Some,
    {
        self.clipping_predictor.is_some()
    }

    pub fn recommended_input_volume(&self) -> (volume: i32)
        ensures
            volume == self.volume(),
    {
        self.recommended_input_volume
    }
}

} // verus!
