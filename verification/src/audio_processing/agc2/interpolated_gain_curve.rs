//! Interpolated gain curve.
use crate::audio_processing::aec3::histogram::count_of;
use crate::audio_processing::agc2::agc2_common::{
    INTERPOLATED_GAIN_CURVE_KNEE_POINTS, INTERPOLATED_GAIN_CURVE_TOTAL_POINTS,
};
use crate::audio_processing::arithmetic::{
    at_most, is_at_most, is_functional, is_less, is_total, less, over, plus, product, quotient,
    sum, times, zero_of, Real,
};
use crate::audio_processing::ordered::{
    is_exact, is_number, is_one, is_ordered, lemma_exact, lemma_order, lemma_products,
    products_keep_order, sums_keep_order,
};
use vstd::prelude::*;

verus! {

#[derive(Debug, Clone, Copy, PartialEq, Eq, Structural)]
pub enum GainCurveRegion {
    Identity,
    Knee,
    Limiter,
    Saturation,
}

#[derive(Debug, Clone, Copy, PartialEq, Eq, Structural)]
pub struct Stats {
    pub look_ups_identity_region: usize,
    pub look_ups_knee_region: usize,
    pub look_ups_limiter_region: usize,
    pub look_ups_saturation_region: usize,
    pub available: bool,
    pub region: GainCurveRegion,
    pub region_duration_frames: i64,
}

/// Nothing was looked up.
pub open spec fn no_look_ups() -> Stats {
    Stats {
        look_ups_identity_region: 0,
        look_ups_knee_region: 0,
        look_ups_limiter_region: 0,
        look_ups_saturation_region: 0,
        available: false,
        region: GainCurveRegion::Identity,
        region_duration_frames: 0,
    }
}

impl Default for Stats {
    fn default() -> (stats: Self)
        ensures
            stats == no_look_ups(),
    {
        Stats {
            look_ups_identity_region: 0,
            look_ups_knee_region: 0,
            look_ups_limiter_region: 0,
            look_ups_saturation_region: 0,
            available: false,
            region: GainCurveRegion::Identity,
            region_duration_frames: 0,
        }
    }
}

pub open spec fn one_if(condition: bool) -> int {
    if condition {
        1
    } else {
        0
    }
}

impl Stats {
    /// Whether another look-up can be counted.
    pub open spec fn has_room(self) -> bool {
        &&& self.look_ups_identity_region < usize::MAX
        &&& self.look_ups_knee_region < usize::MAX
        &&& self.look_ups_limiter_region < usize::MAX
        &&& self.look_ups_saturation_region < usize::MAX
        &&& self.region_duration_frames < i64::MAX
    }

    pub open spec fn look_ups(self, region: GainCurveRegion) -> int {
        match region {
            GainCurveRegion::Identity => self.look_ups_identity_region as int,
            GainCurveRegion::Knee => self.look_ups_knee_region as int,
            GainCurveRegion::Limiter => self.look_ups_limiter_region as int,
            GainCurveRegion::Saturation => self.look_ups_saturation_region as int,
        }
    }

    /// Whether `after` counts one more look-up, in the given region. The duration
    /// is the number of look-ups in a row in the same region as the one before.
    pub open spec fn counts(self, region: GainCurveRegion, after: Stats) -> bool {
        &&& after.available
        &&& after.region == region
        &&& after.region_duration_frames == if self.region == region {
            self.region_duration_frames + 1
        } else {
            0
        }
        &&& after.look_ups_identity_region == self.look_ups_identity_region + one_if(
            region is Identity,
        )
        &&& after.look_ups_knee_region == self.look_ups_knee_region + one_if(region is Knee)
        &&& after.look_ups_limiter_region == self.look_ups_limiter_region + one_if(
            region is Limiter,
        )
        &&& after.look_ups_saturation_region == self.look_ups_saturation_region + one_if(
            region is Saturation,
        )
    }

    /// Whether `after` may count so many look-ups more.
    pub open spec fn has_grown(self, after: Stats, look_ups: int) -> bool {
        &&& after.total_look_ups() == self.total_look_ups() + look_ups
        &&& self.look_ups_identity_region <= after.look_ups_identity_region
        &&& self.look_ups_knee_region <= after.look_ups_knee_region
        &&& self.look_ups_limiter_region <= after.look_ups_limiter_region
        &&& self.look_ups_saturation_region <= after.look_ups_saturation_region
        &&& after.region_duration_frames <= look_ups || after.region_duration_frames
            <= self.region_duration_frames + look_ups
    }

    pub open spec fn total_look_ups(self) -> int {
        self.look_ups_identity_region + self.look_ups_knee_region + self.look_ups_limiter_region
            + self.look_ups_saturation_region
    }

    /// Each look-up is counted once.
    pub proof fn law_counted_once(self, region: GainCurveRegion, after: Stats)
        requires
            self.counts(region, after),
        ensures
            after.total_look_ups() == self.total_look_ups() + 1,
    {
    }

    /// Whether the statistics follow each other by look-ups in the given regions, from
    /// none on.
    pub open spec fn is_run(stats: Seq<Stats>, regions: Seq<GainCurveRegion>) -> bool {
        &&& stats.len() == regions.len() + 1
        &&& stats[0] == no_look_ups()
        &&& forall|n: int|
            0 <= n < regions.len() ==> #[trigger] stats[n].counts(regions[n], stats[n + 1])
    }

    /// Whether the statistics are those of look-ups in the given regions, one after the
    /// other. The duration is one less than the number of the last look-ups in a row in
    /// one region, but as many as there were look-ups as long as none has left the
    /// identity region.
    pub open spec fn are_of(self, regions: Seq<GainCurveRegion>) -> bool {
        &&& forall|region: GainCurveRegion| #[trigger]
            self.look_ups(region) == count_of(regions, region)
        &&& self.total_look_ups() == regions.len()
        &&& self.available == (regions.len() > 0)
        &&& self.region == (if regions.len() == 0 {
            GainCurveRegion::Identity
        } else {
            regions.last()
        })
        &&& self.region_duration_frames == (if are_all_identity(regions) {
            regions.len() as int
        } else {
            last_run(regions) - 1
        })
    }

    /// The counters tell how many of the look-ups were in each region, and the duration
    /// how long the last run in one region is.
    pub proof fn law_look_ups_are_counted(stats: Seq<Stats>, regions: Seq<GainCurveRegion>)
        requires
            Self::is_run(stats, regions),
        ensures
            stats.last().are_of(regions),
    {
        Self::lemma_look_ups(stats, regions, regions.len() as int);
        assert(regions.take(regions.len() as int) =~= regions);
    }

    proof fn lemma_look_ups(stats: Seq<Stats>, regions: Seq<GainCurveRegion>, n: int)
        requires
            Self::is_run(stats, regions),
            0 <= n < stats.len(),
        ensures
            stats[n].are_of(regions.take(n)),
            are_all_identity(regions.take(n)) ==> last_run(regions.take(n)) == n,
        decreases n,
    {
        let now = regions.take(n);
        if n > 0 {
            let before = regions.take(n - 1);
            Self::lemma_look_ups(stats, regions, n - 1);
            assert(stats[n - 1].counts(regions[n - 1], stats[n - 1 + 1]));
            assert(now.drop_last() =~= before);
            assert(now.last() == regions[n - 1]);
            assert forall|region: GainCurveRegion| #[trigger]
                stats[n].look_ups(region) == count_of(now, region) by {
                assert(stats[n - 1].look_ups(region) == count_of(before, region));
            }
            if are_all_identity(now) {
                assert forall|i: int| 0 <= i < before.len() implies (
                #[trigger] before[i]) is Identity by {
                    assert(now[i] is Identity);
                }
                assert(now[n - 1] is Identity);
            } else if are_all_identity(before) {
                assert(!(regions[n - 1] is Identity)) by {
                    if regions[n - 1] is Identity {
                        assert forall|i: int| 0 <= i < now.len() implies (
                        #[trigger] now[i]) is Identity by {
                            if i < n - 1 {
                                assert(before[i] is Identity);
                            }
                        }
                    }
                }
                if n > 1 {
                    assert(before[n - 2] is Identity);
                }
            }
            if n > 1 {
                assert(before.last() == regions[n - 2]);
            }
        } else {
            assert forall|region: GainCurveRegion| #[trigger]
                stats[n].look_ups(region) == count_of(now, region) by {}
        }
    }
}

pub open spec fn are_all_identity(regions: Seq<GainCurveRegion>) -> bool {
    forall|i: int| 0 <= i < regions.len() ==> (#[trigger] regions[i]) is Identity
}

/// How many of the last regions in a row are the same.
pub open spec fn last_run(regions: Seq<GainCurveRegion>) -> int
    decreases regions.len(),
{
    if regions.len() == 0 {
        0
    } else if regions.len() > 1 && regions.last() == regions[regions.len() - 2] {
        last_run(regions.drop_last()) + 1
    } else {
        1
    }
}

/// The numbers of a gain curve: from each point `x` on, up to the next one, the
/// gain at a level is approximated by `m` times the level plus `q`.
pub struct GainCurveParameters<T: Real> {
    pub x: [T; INTERPOLATED_GAIN_CURVE_TOTAL_POINTS],
    pub m: [T; INTERPOLATED_GAIN_CURVE_TOTAL_POINTS],
    pub q: [T; INTERPOLATED_GAIN_CURVE_TOTAL_POINTS],
    pub one: T,
    pub max_input_level_linear: T,
    pub input_level_scaling_factor: T,
}

impl<T: Real> GainCurveParameters<T> {
    pub open spec fn region(self, input_level: T) -> GainCurveRegion {
        if less(input_level, self.x@[0]) {
            GainCurveRegion::Identity
        } else if less(input_level, self.x@[INTERPOLATED_GAIN_CURVE_KNEE_POINTS - 1]) {
            GainCurveRegion::Knee
        } else if less(input_level, self.max_input_level_linear) {
            GainCurveRegion::Limiter
        } else {
            GainCurveRegion::Saturation
        }
    }

    /// Whether the point before point `n` starts the segment of a level beyond the
    /// first point: all points up to it are below the level, and point `n`, if
    /// there is one, is not. A level that compares to no point is in the first
    /// segment.
    pub open spec fn ends_segment(self, input_level: T, n: int) -> bool {
        &&& 1 <= n <= INTERPOLATED_GAIN_CURVE_TOTAL_POINTS
        &&& forall|i: int| 1 <= i < n ==> less(#[trigger] self.x@[i], input_level)
        &&& n < INTERPOLATED_GAIN_CURVE_TOTAL_POINTS ==> !less(self.x@[n], input_level)
    }

    /// The segment that a level beyond the first point lies in.
    pub open spec fn segment(self, input_level: T) -> int {
        (choose|n: int| self.ends_segment(input_level, n)) - 1
    }

    pub open spec fn gain(self, input_level: T) -> T {
        if at_most(input_level, self.x@[0]) {
            self.one
        } else if at_most(self.max_input_level_linear, input_level) {
            over(self.input_level_scaling_factor, input_level)
        } else {
            let index = self.segment(input_level);
            plus(times(self.m@[index], input_level), self.q@[index])
        }
    }

    /// Whether the segments of the curve lift no level between the first point and the
    /// largest input level above the full scale.
    pub open spec fn segments_keep_below(self, full_scale: T) -> bool {
        forall|n: int, level: T|
            0 <= n < INTERPOLATED_GAIN_CURVE_TOTAL_POINTS && at_most(self.x@[0], level) && at_most(
                level,
                self.max_input_level_linear,
            ) && at_most(self.x@[n], level) && (n + 1 < INTERPOLATED_GAIN_CURVE_TOTAL_POINTS
                ==> at_most(level, self.x@[n + 1])) ==> at_most(
                times(#[trigger] plus(times(self.m@[n], level), self.q@[n]), level),
                full_scale,
            )
    }

    /// The gain at a level: one up to the first point; what takes the level to the full
    /// scale from the largest input level on; on the line of its segment between.
    pub proof fn law_gain(self, input_level: T, n: int)
        requires
            is_ordered::<T>(),
            is_number(input_level),
            forall|i: int|
                0 <= i < INTERPOLATED_GAIN_CURVE_TOTAL_POINTS ==> is_number(
                    #[trigger] self.x@[i],
                ),
            at_most(self.x@[0], self.max_input_level_linear),
        ensures
            at_most(input_level, self.x@[0]) ==> self.gain(input_level) == self.one,
            less(self.x@[0], input_level) && at_most(self.max_input_level_linear, input_level)
                ==> self.gain(input_level) == over(self.input_level_scaling_factor, input_level),
            less(self.x@[0], input_level) && less(input_level, self.max_input_level_linear) && (0
                <= n < INTERPOLATED_GAIN_CURVE_TOTAL_POINTS && (forall|i: int|
                1 <= i <= n ==> less(#[trigger] self.x@[i], input_level)) && (n + 1
                < INTERPOLATED_GAIN_CURVE_TOTAL_POINTS ==> at_most(input_level, self.x@[n + 1])))
                ==> self.gain(input_level) == plus(times(self.m@[n], input_level), self.q@[n]),
    {
        assert(is_number(self.x@[0]));
        lemma_order(self.x@[0], input_level, self.x@[0]);
        lemma_order(self.x@[0], self.max_input_level_linear, input_level);
        lemma_order(input_level, self.max_input_level_linear, input_level);
        if 0 <= n < INTERPOLATED_GAIN_CURVE_TOTAL_POINTS && (forall|i: int|
            1 <= i <= n ==> less(#[trigger] self.x@[i], input_level)) && (n + 1
            < INTERPOLATED_GAIN_CURVE_TOTAL_POINTS ==> at_most(input_level, self.x@[n + 1])) {
            if n + 1 < INTERPOLATED_GAIN_CURVE_TOTAL_POINTS {
                assert(is_number(self.x@[n + 1]));
                lemma_order(input_level, self.x@[n + 1], input_level);
            }
            assert(self.ends_segment(input_level, n + 1));
            self.law_segment(input_level, n + 1);
        }
    }

    /// A level is in one of the segments.
    proof fn lemma_has_segment(self, input_level: T, from: int)
        requires
            1 <= from <= INTERPOLATED_GAIN_CURVE_TOTAL_POINTS,
            forall|i: int| 1 <= i < from ==> less(#[trigger] self.x@[i], input_level),
        ensures
            self.ends_segment(input_level, self.segment(input_level) + 1),
        decreases INTERPOLATED_GAIN_CURVE_TOTAL_POINTS - from,
    {
        if from < INTERPOLATED_GAIN_CURVE_TOTAL_POINTS && less(self.x@[from], input_level) {
            self.lemma_has_segment(input_level, from + 1);
        } else {
            assert(self.ends_segment(input_level, from));
            self.law_segment(input_level, from);
        }
    }

    /// No level is above the full scale with its gain, and one above the largest input
    /// level has a gain of less than one, which takes it to the full scale.
    pub proof fn law_gain_keeps_below_full_scale(self, input_level: T)
        requires
            is_ordered::<T>(),
            sums_keep_order::<T>(),
            products_keep_order::<T>(),
            is_exact::<T>(),
            is_one(self.one),
            less(zero_of(), self.x@[0]),
            at_most(self.x@[0], self.input_level_scaling_factor),
            at_most(self.input_level_scaling_factor, self.max_input_level_linear),
            self.segments_keep_below(self.input_level_scaling_factor),
        ensures
            at_most(
                times(self.gain(input_level), input_level),
                self.input_level_scaling_factor,
            ),
            at_most(self.max_input_level_linear, input_level) && less(self.x@[0], input_level)
                ==> times(self.gain(input_level), input_level) == self.input_level_scaling_factor,
            less(self.max_input_level_linear, input_level) ==> less(
                self.gain(input_level),
                self.one,
            ),
    {
        let zero = zero_of::<T>();
        let scale = self.input_level_scaling_factor;
        let max = self.max_input_level_linear;
        let gain = self.gain(input_level);
        assert(is_number(input_level));
        assert(is_number(gain));
        lemma_order(self.x@[0], scale, max);
        lemma_order(zero, self.x@[0], max);
        lemma_order(max, input_level, max);
        lemma_order(input_level, max, input_level);
        lemma_order(self.x@[0], input_level, self.x@[0]);
        lemma_order(input_level, self.x@[0], scale);
        lemma_order(zero, max, input_level);
        lemma_order(self.x@[0], max, input_level);
        if at_most(input_level, self.x@[0]) {
            assert(times(input_level, self.one) == input_level);
            lemma_exact(input_level, self.one, zero);
        } else if at_most(max, input_level) {
            lemma_exact(scale, input_level, zero);
            if less(max, input_level) && !less(gain, self.one) {
                lemma_order(gain, self.one, gain);
                lemma_products(self.one, gain, input_level);
                assert(times(input_level, self.one) == input_level);
                lemma_exact(input_level, self.one, zero);
                lemma_order(input_level, scale, max);
            }
            lemma_order(scale, scale, scale);
        } else {
            self.lemma_has_segment(input_level, 1);
            let n = self.segment(input_level);
            if n > 0 {
                assert(less(self.x@[n], input_level));
                lemma_order(self.x@[n], input_level, zero);
            }
            if n + 1 < INTERPOLATED_GAIN_CURVE_TOTAL_POINTS {
                assert(is_number(self.x@[n + 1]));
                lemma_order(self.x@[n + 1], input_level, zero);
                lemma_order(input_level, self.x@[n + 1], zero);
            }
            assert(gain == plus(times(self.m@[n], input_level), self.q@[n]));
        }
    }

    /// The regions follow each other: the levels below the first point have a gain of
    /// one, and those from the largest input level on saturate.
    pub proof fn law_region(self, input_level: T)
        requires
            is_ordered::<T>(),
            is_number(input_level),
            at_most(self.x@[0], self.x@[21]),
            at_most(self.x@[21], self.max_input_level_linear),
        ensures
            self.region(input_level) is Identity <==> less(input_level, self.x@[0]),
            self.region(input_level) is Knee <==> at_most(self.x@[0], input_level) && less(
                input_level,
                self.x@[21],
            ),
            self.region(input_level) is Limiter <==> at_most(self.x@[21], input_level) && less(
                input_level,
                self.max_input_level_linear,
            ),
            self.region(input_level) is Saturation <==> at_most(
                self.max_input_level_linear,
                input_level,
            ),
            self.region(input_level) is Identity ==> self.gain(input_level) == self.one,
    {
        let knee = self.x@[21];
        let max = self.max_input_level_linear;
        lemma_order(self.x@[0], knee, input_level);
        lemma_order(knee, max, input_level);
        lemma_order(input_level, self.x@[0], knee);
        lemma_order(self.x@[0], input_level, knee);
        lemma_order(input_level, knee, max);
        lemma_order(knee, input_level, max);
        lemma_order(input_level, max, knee);
        lemma_order(max, input_level, knee);
    }

    /// A level lies in one segment only.
    pub proof fn law_segment(self, input_level: T, n: int)
        requires
            self.ends_segment(input_level, n),
        ensures
            self.segment(input_level) == n - 1,
    {
        let other = choose|n: int| self.ends_segment(input_level, n);
        assert(self.ends_segment(input_level, other));
        if other < n {
            assert(less(self.x@[other], input_level));
        } else if n < other {
            assert(less(self.x@[n], input_level));
        }
    }
}

pub struct InterpolatedGainCurve<T: Real> {
    parameters: GainCurveParameters<T>,
    stats: Stats,
}

impl<T: Real> InterpolatedGainCurve<T> {
    pub closed spec fn curve(&self) -> GainCurveParameters<T> {
        self.parameters
    }

    pub closed spec fn counts(&self) -> Stats {
        self.stats
    }

    pub fn new(parameters: GainCurveParameters<T>) -> (curve: Self)
        ensures
            curve.curve() == parameters,
            curve.counts() == no_look_ups(),
    {
        InterpolatedGainCurve { parameters, stats: Stats::default() }
    }

    pub fn get_stats(&self) -> (stats: Stats)
        ensures
            stats == self.counts(),
    {
        self.stats
    }

    /// The statistics are those of the regions that the levels looked up lie in.
    pub proof fn law_levels_are_counted(curves: Seq<Self>, levels: Seq<T>)
        requires
            curves.len() == levels.len() + 1,
            curves[0].counts() == no_look_ups(),
            forall|n: int|
                0 <= n < levels.len() ==> #[trigger] curves[n].counts().counts(
                    curves[0].curve().region(levels[n]),
                    curves[n + 1].counts(),
                ),
        ensures
            curves.last().counts().are_of(
                Seq::new(levels.len(), |i: int| curves[0].curve().region(levels[i])),
            ),
    {
        let stats = curves.map_values(|curve: Self| curve.counts());
        let regions = Seq::new(levels.len(), |i: int| curves[0].curve().region(levels[i]));
        assert forall|n: int| 0 <= n < regions.len() implies #[trigger] stats[n].counts(
            regions[n],
            stats[n + 1],
        ) by {
            assert(curves[n].counts().counts(
                curves[0].curve().region(levels[n]),
                curves[n + 1].counts(),
            ));
        }
        Stats::law_look_ups_are_counted(stats, regions);
    }

    /// The gain for an input level, which is counted in the statistics. A level that
    /// compares to no point, as one that is not a number, has the gain of the first
    /// segment.
    pub fn look_up_gain_to_apply(&mut self, input_level: T) -> (gain: T)
        requires
            is_total::<T>(),
            old(self).counts().has_room(),
        ensures
            final(self).curve() == old(self).curve(),
            old(self).counts().counts(final(self).counts().region, final(self).counts()),
            is_functional::<T>() ==> {
                &&& gain == old(self).curve().gain(input_level)
                &&& final(self).counts().region == old(self).curve().region(input_level)
            },
    {
        self.update_stats(input_level);
        let p = &self.parameters;
        if is_at_most(input_level, p.x[0]) {
            return p.one;
        }
        if is_at_most(p.max_input_level_linear, input_level) {
            return quotient(p.input_level_scaling_factor, input_level);
        }
        let mut pos: usize = 1;
        while pos < INTERPOLATED_GAIN_CURVE_TOTAL_POINTS && is_less(p.x[pos], input_level)
            invariant
                1 <= pos <= INTERPOLATED_GAIN_CURVE_TOTAL_POINTS,
                is_functional::<T>() ==> forall|i: int|
                    1 <= i < pos ==> less(#[trigger] p.x@[i], input_level),
            ensures
                1 <= pos <= INTERPOLATED_GAIN_CURVE_TOTAL_POINTS,
                is_functional::<T>() ==> p.ends_segment(input_level, pos as int),
            decreases INTERPOLATED_GAIN_CURVE_TOTAL_POINTS - pos,
        {
            pos = pos + 1;
        }
        proof {
            if is_functional::<T>() {
                p.law_segment(input_level, pos as int);
            }
        }
        let index: usize = pos - 1;
        sum(product(p.m[index], input_level), p.q[index])
    }

    fn update_stats(&mut self, input_level: T)
        requires
            old(self).counts().has_room(),
        ensures
            final(self).curve() == old(self).curve(),
            old(self).counts().counts(final(self).counts().region, final(self).counts()),
            is_functional::<T>() ==> final(self).counts().region == old(self).curve().region(
                input_level,
            ),
    {
        self.stats.available = true;
        let region = if is_less(input_level, self.parameters.x[0]) {
            self.stats.look_ups_identity_region = self.stats.look_ups_identity_region + 1;
            GainCurveRegion::Identity
        } else if is_less(
            input_level,
            self.parameters.x[INTERPOLATED_GAIN_CURVE_KNEE_POINTS - 1],
        ) {
            self.stats.look_ups_knee_region = self.stats.look_ups_knee_region + 1;
            GainCurveRegion::Knee
        } else if is_less(input_level, self.parameters.max_input_level_linear) {
            self.stats.look_ups_limiter_region = self.stats.look_ups_limiter_region + 1;
            GainCurveRegion::Limiter
        } else {
            self.stats.look_ups_saturation_region = self.stats.look_ups_saturation_region + 1;
            GainCurveRegion::Saturation
        };
        if region == self.stats.region {
            self.stats.region_duration_frames = self.stats.region_duration_frames + 1;
        } else {
            self.stats.region_duration_frames = 0;
            self.stats.region = region;
        }
    }
}

} // verus!
