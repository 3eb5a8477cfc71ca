use aec3::audio_processing::aec3::histogram::find_last_max;
use aec3::audio_processing::agc2::input_volume_stats_reporter::compute_average_update;

#[test]
fn last_of_several_maxima_is_found() {
    let values = vec![3, 9, 1, 9, 4];
    assert_eq!(find_last_max(&values, 0, 5), 3);
    assert_eq!(find_last_max(&values, 0, 3), 1);
    assert_eq!(find_last_max(&values, 4, 5), 4);
}

#[test]
fn averages_are_rounded_half_up() {
    assert_eq!(compute_average_update(0, 0), 0);
    assert_eq!(compute_average_update(7, 2), 4);
    assert_eq!(compute_average_update(10, 3), 3);
    assert_eq!(compute_average_update(11, 3), 4);
    for num in 1..200i32 {
        for sum in 0..1000i32 {
            let expected = (sum as f32 / num as f32).round() as i32;
            assert_eq!(compute_average_update(sum, num), expected);
        }
    }
}
