use shapemaker::ui::{
    display_counts, format_duration, format_filepath, format_timestamp, format_timestamp_range,
    milliseconds_to_timestamp,
};

#[test]
fn durations_pick_their_largest_unit() {
    assert_eq!(format_duration(0), "0 ms");
    assert_eq!(format_duration(999), "999 ms");
    assert_eq!(format_duration(1_500), "1.500 s");
    assert_eq!(format_duration(1_005), "1.005 s");
    assert_eq!(format_duration(61_000), "1 m 01 s");
    assert_eq!(format_duration(3_723_004), "1 h 02 m 03 s");
    assert_eq!(format_duration(36_000_000), "10 h 00 m 00 s");
}

#[test]
fn timestamps_are_times_of_day() {
    assert_eq!(format_timestamp(0), "00:00:00.000");
    assert_eq!(format_timestamp(3_723_004), "01:02:03.004");
    assert_eq!(format_timestamp(90_000_000), "01:00:00.000");
    assert_eq!(milliseconds_to_timestamp(61_001), "00:01:01.001");
}

#[test]
fn timestamp_ranges_read_from_to() {
    assert_eq!(format_timestamp_range(&(1_000..2_500)), "from 00:00:01.000 to 00:00:02.500");
}

#[test]
fn relative_paths_get_a_dot_slash() {
    assert_eq!(format_filepath("video/out.mp4"), "./video/out.mp4");
    assert_eq!(format_filepath("/tmp/out.mp4"), "/tmp/out.mp4");
}

#[test]
fn counts_skip_zeros() {
    let counts = vec![
        ("frames".to_string(), 3),
        ("errors".to_string(), 0),
        ("layers".to_string(), 12),
    ];
    assert_eq!(display_counts(&counts), "3 frames, 12 layers");
    assert_eq!(display_counts(&vec![]), "");
}

#[test]
fn the_last_timestamp_chrono_dates_is_written() {
    assert_eq!(
        shapemaker::ui::format_timestamp(shapemaker::ui::MAX_TIMESTAMP_MS as usize),
        "23:59:59.999"
    );
}

#[test]
fn plain_names_are_relative_everywhere() {
    assert_eq!(format_filepath("out.mp4"), "./out.mp4");
    assert_eq!(format_filepath(""), "./");
}
