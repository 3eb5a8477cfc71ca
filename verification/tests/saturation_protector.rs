use aec3::audio_processing::agc2::agc2_common::FRAME_DURATION_MS;
use aec3::audio_processing::agc2::saturation_protector::{
    create_saturation_protector, SaturationProtectorImpl, SaturationProtectorParameters,
};
use aec3::audio_processing::agc2::saturation_protector_buffer::SaturationProtectorBuffer;

fn create_protector(
    initial_headroom_db: f32,
    adjacent_speech_frames_threshold: i32,
) -> SaturationProtectorImpl<f32> {
    create_saturation_protector(
        initial_headroom_db,
        adjacent_speech_frames_threshold,
        SaturationProtectorParameters {
            one: 1.0,
            min_level_dbfs: -90.31,
            vad_confidence_threshold: 0.95,
            min_margin_db: 12.0,
            max_margin_db: 25.0,
            attack: 0.998_849_369_936_505_2,
            decay: 0.999_769_767_998_156_5,
        },
    )
}

const INITIAL_HEADROOM_DB: f32 = 20.0;
const NO_ADJACENT_SPEECH_FRAMES_REQUIRED: i32 = 1;
const MAX_SPEECH_PROBABILITY: f32 = 1.0;

// Calls analyze() repeatedly and returns largest headroom difference between consecutive calls.
fn run_on_constant_level(
    num_iterations: i32,
    speech_probability: f32,
    peak_dbfs: f32,
    speech_level_dbfs: f32,
    saturation_protector: &mut SaturationProtectorImpl<f32>,
) -> f32 {
    let mut last_headroom = saturation_protector.headroom_db();
    let mut max_difference: f32 = 0.0;
    for _ in 0..num_iterations {
        saturation_protector.analyze(speech_probability, peak_dbfs, speech_level_dbfs);
        let new_headroom = saturation_protector.headroom_db();
        max_difference = max_difference.max((new_headroom - last_headroom).abs());
        last_headroom = new_headroom;
    }
    max_difference
}

#[test]
fn saturation_protector_reset() {
    let mut saturation_protector =
        create_protector(INITIAL_HEADROOM_DB, NO_ADJACENT_SPEECH_FRAMES_REQUIRED);
    let initial_headroom_db = saturation_protector.headroom_db();
    run_on_constant_level(
        10,
        MAX_SPEECH_PROBABILITY,
        0.0,
        -10.0,
        &mut saturation_protector,
    );
    assert_ne!(initial_headroom_db, saturation_protector.headroom_db());
    saturation_protector.reset();
    assert_eq!(initial_headroom_db, saturation_protector.headroom_db());
}

#[test]
fn estimates_crest_ratio() {
    const NUM_ITERATIONS: i32 = 2000;
    const PEAK_LEVEL_DBFS: f32 = -20.0;
    const CREST_FACTOR_DB: f32 = INITIAL_HEADROOM_DB + 1.0;
    const SPEECH_LEVEL_DBFS: f32 = PEAK_LEVEL_DBFS - CREST_FACTOR_DB;
    let max_difference_db = 0.5 * (INITIAL_HEADROOM_DB - CREST_FACTOR_DB).abs();

    let mut saturation_protector =
        create_protector(INITIAL_HEADROOM_DB, NO_ADJACENT_SPEECH_FRAMES_REQUIRED);
    run_on_constant_level(
        NUM_ITERATIONS,
        MAX_SPEECH_PROBABILITY,
        PEAK_LEVEL_DBFS,
        SPEECH_LEVEL_DBFS,
        &mut saturation_protector,
    );
    assert!((saturation_protector.headroom_db() - CREST_FACTOR_DB).abs() <= max_difference_db);
}

#[test]
fn change_slowly() {
    const NUM_ITERATIONS: i32 = 1000;
    const PEAK_LEVEL_DBFS: f32 = -20.0;
    const CREST_FACTOR_DB: f32 = INITIAL_HEADROOM_DB - 5.0;
    const OTHER_CREST_FACTOR_DB: f32 = INITIAL_HEADROOM_DB;
    const SPEECH_LEVEL_DBFS: f32 = PEAK_LEVEL_DBFS - CREST_FACTOR_DB;
    const OTHER_SPEECH_LEVEL_DBFS: f32 = PEAK_LEVEL_DBFS - OTHER_CREST_FACTOR_DB;

    let mut saturation_protector =
        create_protector(INITIAL_HEADROOM_DB, NO_ADJACENT_SPEECH_FRAMES_REQUIRED);

    let mut max_difference_db = run_on_constant_level(
        NUM_ITERATIONS,
        MAX_SPEECH_PROBABILITY,
        PEAK_LEVEL_DBFS,
        SPEECH_LEVEL_DBFS,
        &mut saturation_protector,
    );
    max_difference_db = max_difference_db.max(run_on_constant_level(
        NUM_ITERATIONS,
        MAX_SPEECH_PROBABILITY,
        PEAK_LEVEL_DBFS,
        OTHER_SPEECH_LEVEL_DBFS,
        &mut saturation_protector,
    ));

    const MAX_CHANGE_SPEED_DB_PER_SECOND: f32 = 0.5; // 1 dB / 2 seconds.
    assert!(
        max_difference_db <= MAX_CHANGE_SPEED_DB_PER_SECOND / 1000.0 * FRAME_DURATION_MS as f32
    );
}

#[test]
fn do_not_adapt_to_short_speech_segments() {
    for adjacent_speech_frames_threshold in [2, 9, 17] {
        let mut saturation_protector =
            create_protector(INITIAL_HEADROOM_DB, adjacent_speech_frames_threshold);
        let initial_headroom_db = saturation_protector.headroom_db();
        run_on_constant_level(
            adjacent_speech_frames_threshold - 1,
            MAX_SPEECH_PROBABILITY,
            0.0,
            -10.0,
            &mut saturation_protector,
        );
        assert_eq!(initial_headroom_db, saturation_protector.headroom_db());
    }
}

#[test]
fn adapt_to_enough_speech_segments() {
    for adjacent_speech_frames_threshold in [2, 9, 17] {
        let mut saturation_protector =
            create_protector(INITIAL_HEADROOM_DB, adjacent_speech_frames_threshold);
        let initial_headroom_db = saturation_protector.headroom_db();
        run_on_constant_level(
            adjacent_speech_frames_threshold + 1,
            MAX_SPEECH_PROBABILITY,
            0.0,
            -10.0,
            &mut saturation_protector,
        );
        assert_ne!(initial_headroom_db, saturation_protector.headroom_db());
    }
}

#[test]
fn headroom_of_a_short_segment_is_forgotten() {
    let mut protector = create_protector(INITIAL_HEADROOM_DB, 3);
    let mut other = create_protector(INITIAL_HEADROOM_DB, 3);
    // Two speech frames of a loud peak, then silence.
    run_on_constant_level(2, MAX_SPEECH_PROBABILITY, 0.0, -50.0, &mut protector);
    run_on_constant_level(1, 0.0, 0.0, -50.0, &mut protector);
    run_on_constant_level(3, MAX_SPEECH_PROBABILITY, -20.0, -35.0, &mut protector);
    run_on_constant_level(3, MAX_SPEECH_PROBABILITY, -20.0, -35.0, &mut other);
    assert_eq!(protector.headroom_db(), other.headroom_db());
}

#[test]
fn headroom_stays_within_the_margins() {
    let mut protector = create_protector(INITIAL_HEADROOM_DB, 1);
    run_on_constant_level(40_000, MAX_SPEECH_PROBABILITY, 0.0, -60.0, &mut protector);
    assert_eq!(protector.headroom_db(), 25.0);
    run_on_constant_level(40_000, MAX_SPEECH_PROBABILITY, -30.0, -31.0, &mut protector);
    assert_eq!(protector.headroom_db(), 12.0);
}

#[test]
fn peak_buffer_keeps_the_last_four() {
    let mut buffer = SaturationProtectorBuffer::new();
    assert_eq!(buffer.front(), None::<f32>);
    for i in 0..6 {
        buffer.push_back(i as f32);
    }
    assert_eq!(buffer.size(), 4);
    assert_eq!(buffer.front(), Some(2.0));
    buffer.reset();
    assert_eq!(buffer.size(), 0);
    buffer.push_back(9.0);
    buffer.push_back(10.0);
    assert_eq!(buffer.front(), Some(9.0));
}
