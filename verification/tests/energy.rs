use voice_capture::energy::{measure, rms, rms_mean};

#[test]
fn rms_is_mean_of_absolute_values() {
    assert_eq!(rms(&[100, -100, 50, -50]), 75);
    assert_eq!(rms(&[1000, 1000, 1000]), 1000);
    assert_eq!(rms(&[-7]), 7);
}

#[test]
fn rms_truncates_the_mean() {
    assert_eq!(rms(&[1, 2]), 1);
    assert_eq!(rms(&[3, -4, 4]), 3);
    assert_eq!(rms(&[9, 0, 0, 0, 0, 0, 0, 0, 0, 0]), 0);
}

#[test]
fn rms_of_silence_is_zero() {
    assert_eq!(rms(&[0]), 0);
    assert_eq!(rms(&[0, 0, 0, 0, 0]), 0);
}

#[test]
fn rms_is_zero_for_a_faint_chunk_that_is_not_silent() {
    assert_eq!(rms(&[1, 0]), 0);
    assert_eq!(rms(&[0, -1, 0, 1, 0]), 0);
}

#[test]
fn rms_of_the_lowest_sample_value_does_not_wrap() {
    assert_eq!(rms(&[i16::MIN]), 32768);
    assert_eq!(rms(&[i16::MIN, i16::MIN, i16::MIN]), 32768);
    assert_eq!(rms(&[i16::MIN, i16::MAX]), 32767);
}

#[test]
fn rms_of_a_long_loud_chunk_does_not_overflow() {
    let chunk = vec![i16::MIN; 200_000];
    assert_eq!(rms(&chunk), 32768);
    let chunk = vec![i16::MAX; 200_000];
    assert_eq!(rms(&chunk), 32767);
}

#[test]
fn measure_turns_an_empty_chunk_away() {
    assert_eq!(measure(&[]), None);
}

#[test]
fn measure_agrees_with_rms() {
    assert_eq!(measure(&[10, -20, 30]), Some(20));
    assert_eq!(measure(&[0, 0]), Some(0));
}

#[test]
fn rms_mean_is_nominal() {
    let a: [i16; 3] = [1, 2, 3];
    let b: [i16; 2] = [-500, 500];
    assert_eq!(rms_mean(&[&a[..], &b[..]]), 1);
    assert_eq!(rms_mean(&[]), 1);
}
