//! Noise level estimator.
use crate::audio_processing::arithmetic::{
    apply, at_most, energy, energy_of, image, is_at_most, is_functional, is_less, is_mapping,
    is_total, larger, less, maximum, minimum, minus, over, plus, product, quotient, smaller, sum,
    times, zero, zero_of, difference, negative, same, Real,
};
use crate::audio_processing::ordered::{
    is_exact, is_number, is_one, is_ordered, law_larger, law_smaller, lemma_exact, lemma_mix,
    lemma_order, lemma_products, lemma_sums, products_keep_order, sums_keep_order,
};
use vstd::prelude::*;

verus! {

pub const FRAMES_PER_SECOND: usize = 100;

/// The noise floor is updated every 5 seconds.
pub const UPDATE_PERIOD_NUM_FRAMES: i32 = 500;

/// The sample rate that is assumed at first.
pub const INITIAL_SAMPLE_RATE_HZ: usize = 48_000;

/// The numbers that the estimator works with.
#[derive(Debug, Clone, Copy)]
pub struct NoiseParameters<T: Real> {
    pub one: T,
    pub two: T,
    pub ten: T,
    pub frames_per_second: T,
    pub min_level_dbfs: T,
    pub attack: T,
}

/// The functions that the estimator works with.
pub struct NoiseFunctions<N, L> {
    /// Gives the number for an integer.
    pub number: N,
    pub log10: L,
}

/// The largest energy of the first `n` channels.
pub open spec fn frame_energy_of<T: Real>(frame: Seq<Vec<T>>, n: int) -> T
    decreases n,
{
    if n <= 0 {
        zero_of()
    } else {
        larger(frame_energy_of(frame, n - 1), energy(frame[n - 1]@))
    }
}

/// The energy of a frame is no less than that of any of its channels, and that of one of
/// them or zero.
pub proof fn law_frame_energy<T: Real>(frame: Seq<Vec<T>>, n: int)
    requires
        is_ordered::<T>(),
        0 <= n <= frame.len(),
        forall|ch: int| 0 <= ch < n ==> is_number(energy((#[trigger] frame[ch])@)),
    ensures
        at_most(zero_of(), frame_energy_of(frame, n)),
        forall|ch: int|
            0 <= ch < n ==> at_most(energy((#[trigger] frame[ch])@), frame_energy_of(frame, n)),
        frame_energy_of(frame, n) == zero_of::<T>() || exists|ch: int|
            0 <= ch < n && frame_energy_of(frame, n) == energy((#[trigger] frame[ch])@),
    decreases n,
{
    let zero = zero_of::<T>();
    lemma_order(zero, zero, zero);
    if n > 0 {
        let before = frame_energy_of(frame, n - 1);
        let last = energy(frame[n - 1]@);
        let now = frame_energy_of(frame, n);
        law_frame_energy(frame, n - 1);
        assert(is_number(energy(frame[n - 1]@)));
        lemma_order(zero, before, zero);
        law_larger(before, last);
        lemma_order(zero, before, now);
        assert forall|ch: int| 0 <= ch < n implies at_most(energy((#[trigger] frame[ch])@), now) by {
            if ch < n - 1 {
                lemma_order(energy(frame[ch]@), before, now);
            }
        }
        if now == before && before != zero {
            let ch = choose|ch: int|
                0 <= ch < n - 1 && before == energy((#[trigger] frame[ch])@);
            assert(now == energy(frame[ch]@));
        }
        if now == last {
            assert(now == energy(frame[n - 1]@));
        }
    }
}

fn frame_energy<T: Real>(audio: &[Vec<T>]) -> (result: T)
    requires
        is_total::<T>(),
    ensures
        is_functional::<T>() ==> result == frame_energy_of(audio@, audio@.len() as int),
{
    let mut result: T = zero();
    let mut ch: usize = 0;
    while ch < audio.len()
        invariant
            is_total::<T>(),
            ch <= audio@.len(),
            is_functional::<T>() ==> result == frame_energy_of(audio@, ch as int),
        decreases audio@.len() - ch,
    {
        result = maximum(result, energy_of(audio[ch].as_slice()));
        ch = ch + 1;
    }
    result
}

/// The level in dBFS of a signal with the given energy.
pub open spec fn dbfs_of_energy<T: Real>(
    p: NoiseParameters<T>,
    log10: spec_fn(T) -> T,
    signal_energy: T,
    num_samples: T,
) -> T {
    let rms_square = over(signal_energy, num_samples);
    if at_most(rms_square, p.one) {
        p.min_level_dbfs
    } else {
        plus(times(p.ten, log10(rms_square)), p.min_level_dbfs)
    }
}

/// No energy has a level below the least, energies up to one for each sample have the
/// least, and more energy has no lower a level.
pub proof fn law_level_rises_with_energy<T: Real>(
    p: NoiseParameters<T>,
    log10: spec_fn(T) -> T,
    low: T,
    high: T,
    num_samples: T,
)
    requires
        is_ordered::<T>(),
        sums_keep_order::<T>(),
        products_keep_order::<T>(),
        is_exact::<T>(),
        less(zero_of(), num_samples),
        at_most(zero_of(), p.ten),
        at_most(low, high),
        forall|a: T, b: T| at_most(a, b) ==> #[trigger] at_most(log10(a), log10(b)),
        same(log10(p.one), zero_of()),
    ensures
        at_most(p.min_level_dbfs, dbfs_of_energy(p, log10, low, num_samples)),
        at_most(low, times(num_samples, p.one)) && is_one(p.one) ==> dbfs_of_energy(
            p,
            log10,
            low,
            num_samples,
        ) == p.min_level_dbfs,
        less(times(num_samples, p.one), low) && is_one(p.one) ==> minus(
            dbfs_of_energy(p, log10, low, num_samples),
            p.min_level_dbfs,
        ) == times(p.ten, log10(over(low, num_samples))),
        at_most(
            dbfs_of_energy(p, log10, low, num_samples),
            dbfs_of_energy(p, log10, high, num_samples),
        ),
{
    let zero = zero_of::<T>();
    let a = over(low, num_samples);
    let b = over(high, num_samples);
    let least = p.min_level_dbfs;
    lemma_order(least, least, zero);
    assert(is_number(least) && is_number(a) && is_number(b) && is_number(p.one));
    lemma_order(zero, num_samples, zero);
    lemma_products(low, high, num_samples);
    lemma_order(a, p.one, b);
    lemma_order(p.one, a, b);
    lemma_order(a, b, p.one);
    lemma_order(b, p.one, zero);
    lemma_order(p.one, b, zero);
    lemma_not_below_least(p, log10, a);
    lemma_not_below_least(p, log10, b);
    let x = times(p.ten, log10(a));
    let y = times(p.ten, log10(b));
    assert(at_most(log10(a), log10(b)));
    lemma_products(log10(a), log10(b), p.ten);
    lemma_sums(x, y, least, least);
    lemma_exact(x, least, negative(least));
    lemma_exact(least, negative(least), zero);
    lemma_exact(x, zero, zero);
    lemma_exact(plus(x, least), least, zero);
    if is_one(p.one) {
        assert(is_number(num_samples));
        assert(times(num_samples, p.one) == num_samples);
        lemma_exact(low, num_samples, zero);
        lemma_products(a, p.one, num_samples);
        lemma_products(p.one, a, num_samples);
        lemma_exact(p.one, num_samples, zero);
        lemma_order(low, num_samples, low);
        lemma_order(num_samples, low, num_samples);
        assert(is_number(over(num_samples, num_samples)));
        lemma_products(low, num_samples, num_samples);
        lemma_products(num_samples, low, num_samples);
    }
}

proof fn lemma_not_below_least<T: Real>(p: NoiseParameters<T>, log10: spec_fn(T) -> T, a: T)
    requires
        is_ordered::<T>(),
        sums_keep_order::<T>(),
        products_keep_order::<T>(),
        is_exact::<T>(),
        at_most(zero_of(), p.ten),
        forall|a: T, b: T| at_most(a, b) ==> #[trigger] at_most(log10(a), log10(b)),
        same(log10(p.one), zero_of()),
    ensures
        !at_most(a, p.one) ==> at_most(
            p.min_level_dbfs,
            plus(times(p.ten, log10(a)), p.min_level_dbfs),
        ),
{
    let zero = zero_of::<T>();
    let least = p.min_level_dbfs;
    if !at_most(a, p.one) {
        assert(is_number(a) && is_number(p.one));
        lemma_order(p.one, a, zero);
        lemma_order(a, p.one, zero);
        assert(at_most(log10(p.one), log10(a)));
        lemma_order(zero, log10(p.one), log10(a));
        lemma_products(p.ten, log10(a), zero);
        let x = times(p.ten, log10(a));
        lemma_sums(zero, x, least, least);
        lemma_exact(least, zero, zero);
        lemma_exact(zero, least, zero);
    }
}

fn energy_to_dbfs<T: Real, L: Fn(T) -> T>(
    p: &NoiseParameters<T>,
    log10: &L,
    signal_energy: T,
    num_samples: T,
) -> (level: T)
    requires
        is_total::<T>(),
        forall|a: T| call_requires(log10, (a,)),
    ensures
        is_functional::<T>() && is_mapping(*log10) ==> level == dbfs_of_energy(
            *p,
            |a: T| image(*log10, a),
            signal_energy,
            num_samples,
        ),
{
    let rms_square = quotient(signal_energy, num_samples);
    if is_at_most(rms_square, p.one) {
        return p.min_level_dbfs;
    }
    sum(product(p.ten, apply(log10, rms_square)), p.min_level_dbfs)
}

/// A noise floor that decays at once and rises slowly.
pub open spec fn smoothed_floor<T: Real>(p: NoiseParameters<T>, current: T, estimate: T) -> T {
    if less(current, estimate) {
        plus(times(p.attack, estimate), times(minus(p.one, p.attack), current))
    } else {
        estimate
    }
}

/// What is known of the noise.
pub struct NoiseFloor<T> {
    pub sample_rate_hz: int,
    pub min_noise_energy: T,
    pub first_period: bool,
    /// The least energy of the frames in the current period, if there was one.
    pub preliminary_noise_energy: Option<T>,
    pub noise_energy: T,
    /// Frames until the next update.
    pub counter: int,
}

impl<T: Real> NoiseFloor<T> {
    pub open spec fn initial(
        p: NoiseParameters<T>,
        number: spec_fn(usize) -> T,
        sample_rate_hz: usize,
    ) -> Self {
        let min_noise_energy = over(
            times(times(number(sample_rate_hz), p.two), p.two),
            p.frames_per_second,
        );
        NoiseFloor {
            sample_rate_hz: sample_rate_hz as int,
            min_noise_energy,
            first_period: true,
            preliminary_noise_energy: None,
            noise_energy: min_noise_energy,
            counter: UPDATE_PERIOD_NUM_FRAMES as int,
        }
    }

    /// One more frame. Frames below the least noise do not count; at the end of a
    /// period the floor moves towards the least energy of the period, before that
    /// it only falls, except for the first period, which it follows.
    pub open spec fn after(self, p: NoiseParameters<T>, frame_energy: T) -> Self {
        let least = match self.preliminary_noise_energy {
            Some(energy) => smaller(energy, frame_energy),
            None => frame_energy,
        };
        if at_most(frame_energy, self.min_noise_energy) {
            self
        } else if self.counter == 0 {
            NoiseFloor {
                first_period: false,
                preliminary_noise_energy: None,
                noise_energy: smoothed_floor(p, self.noise_energy, least),
                counter: UPDATE_PERIOD_NUM_FRAMES as int,
                ..self
            }
        } else {
            NoiseFloor {
                preliminary_noise_energy: Some(least),
                noise_energy: if self.first_period {
                    least
                } else {
                    smaller(self.noise_energy, least)
                },
                counter: self.counter - 1,
                ..self
            }
        }
    }
}

impl<T: Real> NoiseFloor<T> {
    /// The floor starts at the least noise, which is four for each sample of a frame.
    pub proof fn law_initial(
        p: NoiseParameters<T>,
        number: spec_fn(usize) -> T,
        sample_rate_hz: usize,
    )
        requires
            is_exact::<T>(),
            less(zero_of(), p.frames_per_second),
        ensures
            ({
                let floor = Self::initial(p, number, sample_rate_hz);
                &&& floor.noise_energy == floor.min_noise_energy
                &&& times(floor.min_noise_energy, p.frames_per_second) == times(
                    times(p.two, p.two),
                    number(sample_rate_hz),
                )
                &&& floor.first_period
                &&& floor.preliminary_noise_energy is None
                &&& floor.counter == 500
            }),
    {
        let zero = zero_of::<T>();
        let rate = number(sample_rate_hz);
        lemma_exact(times(times(rate, p.two), p.two), p.frames_per_second, zero);
        lemma_exact(rate, p.two, p.two);
        lemma_exact(rate, times(p.two, p.two), zero);
    }

    /// A frame at or below the least noise changes nothing. Any other one counts towards
    /// the period; within it the floor never rises after the first period, and is never
    /// above the energy of the frame.
    pub proof fn law_floor_falls_within_period(self, p: NoiseParameters<T>, frame_energy: T)
        requires
            is_ordered::<T>(),
            is_number(frame_energy),
            is_number(self.min_noise_energy),
            is_number(self.noise_energy),
            self.preliminary_noise_energy matches Some(energy) ==> is_number(energy),
        ensures
            at_most(frame_energy, self.min_noise_energy) ==> self.after(p, frame_energy) == self,
            less(self.min_noise_energy, frame_energy) && self.counter != 0 ==> {
                let after = self.after(p, frame_energy);
                &&& after.counter == self.counter - 1
                &&& after.first_period == self.first_period
                &&& after.preliminary_noise_energy is Some
                &&& at_most(after.preliminary_noise_energy->0, frame_energy)
                &&& at_most(after.noise_energy, frame_energy)
                &&& (self.preliminary_noise_energy matches Some(energy) ==> at_most(
                    after.preliminary_noise_energy->0,
                    energy,
                ) && at_most(after.noise_energy, energy) && (after.preliminary_noise_energy->0
                    == energy || after.preliminary_noise_energy->0 == frame_energy))
                &&& self.preliminary_noise_energy is None ==> after.preliminary_noise_energy
                    == Some(frame_energy)
                &&& !self.first_period ==> at_most(after.noise_energy, self.noise_energy) && (
                after.noise_energy == self.noise_energy || after.noise_energy
                    == after.preliminary_noise_energy->0)
                &&& self.first_period ==> after.noise_energy == after.preliminary_noise_energy->0
            },
    {
        let least = match self.preliminary_noise_energy {
            Some(energy) => smaller(energy, frame_energy),
            None => frame_energy,
        };
        lemma_order(frame_energy, self.min_noise_energy, frame_energy);
        lemma_order(self.min_noise_energy, frame_energy, frame_energy);
        lemma_order(frame_energy, frame_energy, frame_energy);
        match self.preliminary_noise_energy {
            Some(energy) => {
                law_smaller(energy, frame_energy);
                lemma_order(least, energy, energy);
                law_smaller(self.noise_energy, least);
                lemma_order(smaller(self.noise_energy, least), least, energy);
            },
            None => {
                law_smaller(self.noise_energy, least);
            },
        }
        lemma_order(least, frame_energy, frame_energy);
        lemma_order(smaller(self.noise_energy, least), least, frame_energy);
    }

    /// At the end of a period the floor falls at once to the least energy of the period,
    /// or rises towards it by the share of the attack, and the next period begins.
    pub proof fn law_floor_moves_at_end_of_period(self, p: NoiseParameters<T>, frame_energy: T)
        requires
            is_ordered::<T>(),
            sums_keep_order::<T>(),
            products_keep_order::<T>(),
            is_exact::<T>(),
            is_one(p.one),
            at_most(zero_of(), p.attack),
            at_most(p.attack, p.one),
            less(self.min_noise_energy, frame_energy),
            self.counter == 0,
        ensures
            ({
                let after = self.after(p, frame_energy);
                let least = match self.preliminary_noise_energy {
                    Some(energy) => if less(frame_energy, energy) {
                        frame_energy
                    } else {
                        energy
                    },
                    None => frame_energy,
                };
                &&& after.counter == 500
                &&& !after.first_period
                &&& after.preliminary_noise_energy is None
                &&& at_most(least, self.noise_energy) ==> after.noise_energy == least
                &&& less(self.noise_energy, least) ==> after.noise_energy == plus(
                    self.noise_energy,
                    times(minus(least, self.noise_energy), p.attack),
                ) && at_most(self.noise_energy, after.noise_energy) && at_most(
                    after.noise_energy,
                    least,
                )
            }),
    {
        let zero = zero_of::<T>();
        let after = self.after(p, frame_energy);
        let current = self.noise_energy;
        let least = match self.preliminary_noise_energy {
            Some(energy) => if less(frame_energy, energy) {
                frame_energy
            } else {
                energy
            },
            None => frame_energy,
        };
        if self.preliminary_noise_energy is Some {
            assert(is_number(self.preliminary_noise_energy->0));
        }
        lemma_order(self.min_noise_energy, frame_energy, zero);
        lemma_order(frame_energy, self.min_noise_energy, zero);
        lemma_order(least, current, zero);
        lemma_order(current, least, zero);
        if less(current, least) {
            lemma_mix(p.one, p.attack, least, current);
            lemma_exact(p.attack, least, zero);
            lemma_exact(minus(p.one, p.attack), current, zero);
            lemma_exact(times(least, p.attack), times(current, minus(p.one, p.attack)), zero);
        }
    }
}

pub struct NoiseFloorEstimator<T: Real> {
    parameters: NoiseParameters<T>,
    sample_rate_hz: usize,
    min_noise_energy: T,
    first_period: bool,
    preliminary_noise_energy_set: bool,
    preliminary_noise_energy: T,
    noise_energy: T,
    counter: i32,
}

impl<T: Real> NoiseFloorEstimator<T> {
    pub closed spec fn inv(&self) -> bool {
        0 <= self.counter <= UPDATE_PERIOD_NUM_FRAMES
    }

    pub closed spec fn settings(&self) -> NoiseParameters<T> {
        self.parameters
    }

    pub closed spec fn view(&self) -> NoiseFloor<T> {
        NoiseFloor {
            sample_rate_hz: self.sample_rate_hz as int,
            min_noise_energy: self.min_noise_energy,
            first_period: self.first_period,
            preliminary_noise_energy: if self.preliminary_noise_energy_set {
                Some(self.preliminary_noise_energy)
            } else {
                None
            },
            noise_energy: self.noise_energy,
            counter: self.counter as int,
        }
    }

    pub fn new<N: Fn(usize) -> T>(parameters: NoiseParameters<T>, number: &N) -> (estimator: Self)
        requires
            is_total::<T>(),
            forall|n: usize| call_requires(number, (n,)),
        ensures
            estimator.inv(),
            estimator.settings() == parameters,
            is_functional::<T>() && is_mapping(*number) ==> estimator@ == NoiseFloor::initial(
                parameters,
                |n: usize| image(*number, n),
                INITIAL_SAMPLE_RATE_HZ,
            ),
    {
        let nothing: T = zero();
        let mut estimator = NoiseFloorEstimator {
            parameters,
            sample_rate_hz: 0,
            min_noise_energy: nothing,
            first_period: true,
            preliminary_noise_energy_set: false,
            preliminary_noise_energy: nothing,
            noise_energy: nothing,
            counter: UPDATE_PERIOD_NUM_FRAMES,
        };
        estimator.initialize(INITIAL_SAMPLE_RATE_HZ, number);
        estimator
    }

    fn initialize<N: Fn(usize) -> T>(&mut self, sample_rate_hz: usize, number: &N)
        requires
            is_total::<T>(),
            forall|n: usize| call_requires(number, (n,)),
        ensures
            final(self).inv(),
            final(self).settings() == old(self).settings(),
            is_functional::<T>() && is_mapping(*number) ==> final(self)@ == NoiseFloor::initial(
                old(self).settings(),
                |n: usize| image(*number, n),
                sample_rate_hz,
            ),
    {
        self.sample_rate_hz = sample_rate_hz;
        self.first_period = true;
        self.preliminary_noise_energy_set = false;
        // Initialize minimum noise energy to -84 dBFS.
        let min_noise_energy = quotient(
            product(
                product(apply(number, sample_rate_hz), self.parameters.two),
                self.parameters.two,
            ),
            self.parameters.frames_per_second,
        );
        self.min_noise_energy = min_noise_energy;
        self.preliminary_noise_energy = min_noise_energy;
        self.noise_energy = min_noise_energy;
        self.counter = UPDATE_PERIOD_NUM_FRAMES;
    }

    /// The noise floor that a frame of the given length meets: it starts over when
    /// the sample rate changes.
    pub open spec fn at_rate(&self, number: spec_fn(usize) -> T, sample_rate_hz: usize) -> NoiseFloor<
        T,
    > {
        if sample_rate_hz == self@.sample_rate_hz {
            self@
        } else {
            NoiseFloor::initial(self.settings(), number, sample_rate_hz)
        }
    }

    /// Analyzes a 10 ms deinterleaved frame and returns the noise level in dBFS.
    pub fn analyze<N: Fn(usize) -> T, L: Fn(T) -> T>(
        &mut self,
        frame: &[Vec<T>],
        f: &NoiseFunctions<N, L>,
    ) -> (level: T)
        requires
            is_total::<T>(),
            old(self).inv(),
            frame@.len() > 0,
            0 < frame@[0]@.len(),
            frame@[0]@.len() * FRAMES_PER_SECOND <= usize::MAX,
            forall|ch: int|
                0 <= ch < frame@.len() ==> (#[trigger] frame@[ch])@.len() == frame@[0]@.len(),
            forall|n: usize| call_requires(f.number, (n,)),
            forall|a: T| call_requires(f.log10, (a,)),
        ensures
            final(self).inv(),
            final(self).settings() == old(self).settings(),
            is_functional::<T>() && is_mapping(f.number) && is_mapping(f.log10) ==> {
                let number = |n: usize| image(f.number, n);
                &&& final(self)@ == old(self).at_rate(
                    number,
                    (frame@[0]@.len() * FRAMES_PER_SECOND) as usize,
                ).after(old(self).settings(), frame_energy_of(frame@, frame@.len() as int))
                &&& level == dbfs_of_energy(
                    old(self).settings(),
                    |a: T| image(f.log10, a),
                    final(self)@.noise_energy,
                    number(frame@[0]@.len() as usize),
                )
            },
    {
        let samples_per_channel: usize = frame[0].len();
        // Detect sample-rate changes.
        let sample_rate_hz: usize = samples_per_channel * FRAMES_PER_SECOND;
        if sample_rate_hz != self.sample_rate_hz {
            self.initialize(sample_rate_hz, &f.number);
        }
        let frame_energy = frame_energy(frame);
        let num_samples = apply(&f.number, samples_per_channel);
        if is_at_most(frame_energy, self.min_noise_energy) {
            return energy_to_dbfs(&self.parameters, &f.log10, self.noise_energy, num_samples);
        }
        if self.preliminary_noise_energy_set {
            self.preliminary_noise_energy = minimum(self.preliminary_noise_energy, frame_energy);
        } else {
            self.preliminary_noise_energy = frame_energy;
            self.preliminary_noise_energy_set = true;
        }
        if self.counter == 0 {
            self.first_period = false;
            self.noise_energy =
            smooth_noise_floor_estimate(
                &self.parameters,
                self.noise_energy,
                self.preliminary_noise_energy,
            );
            self.counter = UPDATE_PERIOD_NUM_FRAMES;
            self.preliminary_noise_energy_set = false;
        } else if self.first_period {
            self.noise_energy = self.preliminary_noise_energy;
            self.counter = self.counter - 1;
        } else {
            self.noise_energy = minimum(self.noise_energy, self.preliminary_noise_energy);
            self.counter = self.counter - 1;
        }
        energy_to_dbfs(&self.parameters, &f.log10, self.noise_energy, num_samples)
    }
}

// Instant decay, slow attack.
fn smooth_noise_floor_estimate<T: Real>(
    p: &NoiseParameters<T>,
    current_estimate: T,
    new_estimate: T,
) -> (estimate: T)
    requires
        is_total::<T>(),
    ensures
        is_functional::<T>() ==> estimate == smoothed_floor(*p, current_estimate, new_estimate),
{
    if is_less(current_estimate, new_estimate) {
        return sum(
            product(p.attack, new_estimate),
            product(difference(p.one, p.attack), current_estimate),
        );
    }
    new_estimate
}

pub fn create_noise_floor_estimator<T: Real, N: Fn(usize) -> T>(
    parameters: NoiseParameters<T>,
    number: &N,
) -> (estimator: NoiseFloorEstimator<T>)
    requires
        is_total::<T>(),
        forall|n: usize| call_requires(number, (n,)),
    ensures
        estimator.inv(),
        estimator.settings() == parameters,
        is_functional::<T>() && is_mapping(*number) ==> estimator@ == NoiseFloor::initial(
            parameters,
            |n: usize| image(*number, n),
            INITIAL_SAMPLE_RATE_HZ,
        ),
{
    NoiseFloorEstimator::new(parameters, number)
}

} // verus!
