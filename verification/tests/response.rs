use voice_capture::response::{score_response, RESPONSE_LINES};

#[test]
fn engine_answers_with_four_lines() {
    assert_eq!(RESPONSE_LINES, 4);
}

#[test]
fn one_confident_line_is_enough() {
    assert!(score_response(b"0.1\n0.2\n0.9\n0.3\n"));
    assert!(score_response(b"0.9\n0.1\n0.1\n0.1\n"));
    assert!(score_response(b"0.1\n0.1\n0.1\n0.9\n"));
    assert!(score_response(b"0.9\n0.9\n0.9\n0.9\n"));
}

#[test]
fn no_confident_line_is_a_miss() {
    assert!(!score_response(b"0.1\n0.2\n0.4\n0.3\n"));
    assert!(!score_response(b"0.5\n0.5\n0.5\n0.5\n"));
    assert!(!score_response(b"0\n0\n0\n0\n"));
}

#[test]
fn malformed_lines_do_not_hide_a_confident_one() {
    assert!(score_response(b"abc\n\n0.9\nxyz\n"));
    assert!(!score_response(b"abc\n\n0.2\nxyz\n"));
    assert!(!score_response(b"\n\n\n\n"));
}

#[test]
fn only_the_first_four_lines_count() {
    assert!(!score_response(b"0.1\n0.1\n0.1\n0.1\n0.9\n"));
    assert!(!score_response(b"\n\n\n\n0.9"));
}

#[test]
fn missing_lines_are_negative() {
    assert!(!score_response(b""));
    assert!(!score_response(b"0.1\n"));
    assert!(score_response(b"0.1\n0.9\n"));
    assert!(score_response(b"0.9"));
    assert!(score_response(b"0.1\n0.1\n0.1\n0.9"));
}

#[test]
fn carriage_returns_are_white_space() {
    assert!(score_response(b"0.1\r\n0.9\r\n0.1\r\n0.1\r\n"));
}

#[test]
fn a_number_split_over_two_lines_is_two_lines() {
    assert!(!score_response(b"0.\n.4\n"));
    assert!(score_response(b"0\n.9\n"));
    assert!(!score_response(b"0.\n9e-1x\n"));
}
