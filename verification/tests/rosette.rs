use spirograph::rosette::{
    rosette_sample_count, sample_count, CENTER, PRIMARY_AMPLITUDE, PRIMARY_FREQUENCY,
    SECONDARY_AMPLITUDE, SECONDARY_FREQUENCY, STEPS_PER_UNIT, T_MAX,
};

#[test]
fn the_rosette_has_1001_samples() {
    assert_eq!(rosette_sample_count(), 1001);
    assert_eq!(sample_count(T_MAX, STEPS_PER_UNIT), 1001);
    assert_eq!(sample_count(10, 100), 1001);
}

#[test]
fn both_ends_of_the_grid_are_sampled() {
    assert_eq!(sample_count(0, 100), 1);
    assert_eq!(sample_count(1, 1), 2);
    assert_eq!(sample_count(10, 0), 1);
    assert_eq!(sample_count(3, 7), 22);
}

#[test]
fn the_largest_grid_fits() {
    assert_eq!(sample_count(u32::MAX, u32::MAX), 18446744065119617026);
}

#[test]
fn the_first_sample_lies_right_of_the_centre() {
    // At t = 0 both cosines are one and both sines are zero.
    assert_eq!(CENTER + PRIMARY_AMPLITUDE + SECONDARY_AMPLITUDE, 400);
    assert_eq!(CENTER, 250);
    assert_eq!(PRIMARY_FREQUENCY, 3);
    assert_eq!(SECONDARY_FREQUENCY, 2);
}
