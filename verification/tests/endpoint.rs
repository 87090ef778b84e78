use voice_capture::endpoint::{
    collect_sentence, CaptureError, EndpointDetector, EndpointState, SentenceCollector,
    MINIMUM_DURATION_NANOS,
};

const SECOND: u64 = 1_000_000_000;

#[test]
fn minimum_duration_is_one_second() {
    assert_eq!(MINIMUM_DURATION_NANOS, SECOND);
}

#[test]
fn detector_starts_awaiting_the_minimum_duration() {
    let d = EndpointDetector::new(1000, 42);
    assert_eq!(d.state(), EndpointState::AwaitingMinimumDuration);
    assert_eq!(d.baseline(), 1000);
    assert_eq!(d.start_time(), 42);
    assert!(!d.is_ended());
}

#[test]
fn stop_level_is_nine_tenths_rounded_down() {
    assert_eq!(EndpointDetector::new(1000, 0).stop_level(), 900);
    assert_eq!(EndpointDetector::new(1001, 0).stop_level(), 900);
    assert_eq!(EndpointDetector::new(1009, 0).stop_level(), 908);
    assert_eq!(EndpointDetector::new(9, 0).stop_level(), 8);
    assert_eq!(EndpointDetector::new(1, 0).stop_level(), 0);
    assert_eq!(EndpointDetector::new(0, 0).stop_level(), 0);
    assert_eq!(EndpointDetector::new(32768, 0).stop_level(), 29491);
    assert_eq!(EndpointDetector::new(u16::MAX, 0).stop_level(), 58981);
}

#[test]
fn detector_waits_until_more_than_a_second_has_passed() {
    let mut d = EndpointDetector::new(1000, 500);
    assert_eq!(d.step(0, 500), EndpointState::AwaitingMinimumDuration);
    assert_eq!(d.step(0, 500 + SECOND / 2), EndpointState::AwaitingMinimumDuration);
    assert_eq!(d.step(0, 500 + SECOND), EndpointState::AwaitingMinimumDuration);
    assert_eq!(d.step(0, 500 + SECOND + 1), EndpointState::WaitingForSilence);
}

#[test]
fn feeding_past_the_minimum_duration_always_advances() {
    for level in [0u16, 1, 899, 900, 1000, 32768] {
        let mut d = EndpointDetector::new(1000, 7);
        let mut now = 7;
        for _ in 0..5 {
            now += SECOND / 4;
            d.step(level, now);
        }
        assert_ne!(d.state(), EndpointState::AwaitingMinimumDuration, "level {}", level);
    }
}

#[test]
fn quiet_chunk_during_the_minimum_duration_does_not_end_the_utterance() {
    let mut d = EndpointDetector::new(1000, 0);
    assert_eq!(d.step(0, SECOND / 4), EndpointState::AwaitingMinimumDuration);
    assert_eq!(d.step(0, 2 * SECOND), EndpointState::WaitingForSilence);
}

#[test]
fn clock_that_runs_backwards_counts_as_no_time_passed() {
    let mut d = EndpointDetector::new(1000, 5 * SECOND);
    assert_eq!(d.step(0, 0), EndpointState::AwaitingMinimumDuration);
    assert_eq!(d.step(0, 4 * SECOND), EndpointState::AwaitingMinimumDuration);
    assert_eq!(d.step(0, u64::MAX), EndpointState::WaitingForSilence);
}

fn waiting_for_silence(baseline: u16) -> EndpointDetector {
    let mut d = EndpointDetector::new(baseline, 0);
    assert_eq!(d.step(baseline, 2 * SECOND), EndpointState::WaitingForSilence);
    d
}

#[test]
fn loud_chunk_keeps_waiting_for_silence() {
    let mut d = waiting_for_silence(1000);
    assert_eq!(d.step(1000, 3 * SECOND), EndpointState::WaitingForSilence);
    assert_eq!(d.step(900, 3 * SECOND), EndpointState::WaitingForSilence);
    assert_eq!(d.step(32768, 3 * SECOND), EndpointState::WaitingForSilence);
    assert_eq!(d.baseline(), 1000);
    assert_eq!(d.start_time(), 0);
}

#[test]
fn quiet_chunk_ends_the_utterance() {
    let mut d = waiting_for_silence(1000);
    assert_eq!(d.step(899, 3 * SECOND), EndpointState::Ended);
    assert!(d.is_ended());
    let mut d = waiting_for_silence(1000);
    assert_eq!(d.step(0, 3 * SECOND), EndpointState::Ended);
}

#[test]
fn threshold_is_rounded_down() {
    let mut d = waiting_for_silence(1001);
    assert_eq!(d.step(900, 3 * SECOND), EndpointState::WaitingForSilence);
    assert_eq!(d.step(899, 3 * SECOND), EndpointState::Ended);
}

#[test]
fn silent_baseline_never_ends() {
    let mut d = waiting_for_silence(0);
    assert_eq!(d.step(0, 3 * SECOND), EndpointState::WaitingForSilence);
    let mut d = waiting_for_silence(1);
    assert_eq!(d.step(0, 3 * SECOND), EndpointState::WaitingForSilence);
}

#[test]
fn ended_is_absorbing() {
    let mut d = waiting_for_silence(1000);
    assert_eq!(d.step(0, 3 * SECOND), EndpointState::Ended);
    for (level, now) in [(0u16, 0u64), (1000, 4 * SECOND), (32768, u64::MAX), (899, 1)] {
        assert_eq!(d.step(level, now), EndpointState::Ended);
        assert_eq!(d.state(), EndpointState::Ended);
        assert_eq!(d.baseline(), 1000);
        assert_eq!(d.start_time(), 0);
    }
    assert_eq!(d.feed(&[1000, 1000], 5 * SECOND), EndpointState::Ended);
}

#[test]
fn feed_measures_the_chunk() {
    let mut d = waiting_for_silence(1000);
    assert_eq!(d.feed(&[900, -900, 900], 3 * SECOND), EndpointState::WaitingForSilence);
    assert_eq!(d.feed(&[899, -899, 900], 3 * SECOND), EndpointState::Ended);
}

#[test]
fn baseline_of_one_thousand_ends_at_the_fourth_chunk() {
    let mut d = waiting_for_silence(1000);
    let mut states = Vec::new();
    for level in [1000u16, 1000, 1000, 800, 1000] {
        states.push(d.step(level, 3 * SECOND));
    }
    assert_eq!(
        states,
        vec![
            EndpointState::WaitingForSilence,
            EndpointState::WaitingForSilence,
            EndpointState::WaitingForSilence,
            EndpointState::Ended,
            EndpointState::Ended,
        ]
    );
}

/// A chunk of the given loudness; the tag tells chunks of one loudness apart.
fn chunk(level: i16, tag: i16) -> Vec<i16> {
    vec![level + tag, level - tag, level, -level]
}

#[test]
fn utterance_holds_the_chunks_up_to_the_one_that_ends_it() {
    let mut c = SentenceCollector::new(1000, 0);
    assert_eq!(c.state(), EndpointState::AwaitingMinimumDuration);
    assert_eq!(c.stop_level(), 900);
    assert_eq!(c.push_chunk(&[1000; 4], 2 * SECOND), Ok(EndpointState::WaitingForSilence));
    let levels = [1000i16, 1000, 1000, 800, 1000];
    let mut expected: Vec<i16> = vec![1000; 4];
    let mut ended_at = None;
    for (i, level) in levels.iter().enumerate() {
        let samples = vec![*level; 4];
        if !c.is_ended() {
            expected.extend_from_slice(&samples);
        }
        let state = c.push_chunk(&samples, 3 * SECOND).unwrap();
        if state == EndpointState::Ended && ended_at.is_none() {
            ended_at = Some(i);
        }
    }
    assert_eq!(ended_at, Some(3));
    assert_eq!(c.utterance().len(), 5 * 4);
    assert_eq!(c.utterance(), &expected);
    assert_eq!(
        &c.utterance()[4..],
        &[1000, 1000, 1000, 1000, 1000, 1000, 1000, 1000, 1000, 1000, 1000, 1000, 800, 800, 800, 800]
    );
    assert_eq!(c.into_utterance(), expected);
}

#[test]
fn collect_sentence_returns_exactly_the_four_chunks() {
    let time = 2 * SECOND;
    let chunks: Vec<(Vec<i16>, u64)> = [1000i16, 1000, 1000, 800, 1000]
        .iter()
        .enumerate()
        .map(|(i, level)| (chunk(*level, i as i16), time + i as u64))
        .collect();
    // The detector is past its first second from the first chunk on; that chunk
    // moves it on, so the count of four begins behind it.
    let mut all = vec![(chunk(1000, 99), time)];
    all.extend(chunks.iter().cloned());
    let (utterance, state) = collect_sentence(&all, 1000, 0);
    assert_eq!(state, EndpointState::Ended);
    let mut expected = chunk(1000, 99);
    for (samples, _) in chunks.iter().take(4) {
        expected.extend_from_slice(samples);
    }
    assert_eq!(utterance, expected);
}

#[test]
fn collect_sentence_without_an_end_returns_everything() {
    let chunks = vec![
        (vec![1000i16; 3], 0u64),
        (vec![1000; 3], 2 * SECOND),
        (vec![950; 2], 3 * SECOND),
    ];
    let (utterance, state) = collect_sentence(&chunks, 1000, 0);
    assert_eq!(state, EndpointState::WaitingForSilence);
    assert_eq!(utterance, vec![1000, 1000, 1000, 1000, 1000, 1000, 950, 950]);
    let (utterance, state) = collect_sentence(&Vec::new(), 1000, 0);
    assert_eq!(state, EndpointState::AwaitingMinimumDuration);
    assert!(utterance.is_empty());
}

#[test]
fn collect_sentence_leaves_empty_chunks_out() {
    let chunks = vec![
        (vec![], 3 * SECOND),
        (vec![5i16], 3 * SECOND),
        (vec![], 4 * SECOND),
        (vec![1], 4 * SECOND),
    ];
    let (utterance, state) = collect_sentence(&chunks, 1000, 0);
    assert_eq!(state, EndpointState::Ended);
    assert_eq!(utterance, vec![5, 1]);
}

#[test]
fn empty_chunk_is_turned_away() {
    let mut c = SentenceCollector::new(1000, 0);
    assert_eq!(c.push_chunk(&[], 5 * SECOND), Err(CaptureError::EmptyChunk));
    assert_eq!(c.state(), EndpointState::AwaitingMinimumDuration);
    assert!(c.utterance().is_empty());
}

#[test]
fn ended_collector_takes_nothing_more() {
    let mut c = SentenceCollector::new(1000, 0);
    assert_eq!(c.push_chunk(&[1000], 2 * SECOND), Ok(EndpointState::WaitingForSilence));
    assert_eq!(c.push_chunk(&[1], 2 * SECOND), Ok(EndpointState::Ended));
    assert_eq!(c.push_chunk(&[1000, 1000], 3 * SECOND), Ok(EndpointState::Ended));
    assert_eq!(c.push_chunk(&[], 3 * SECOND), Ok(EndpointState::Ended));
    assert_eq!(c.utterance(), &vec![1000, 1]);
    assert_eq!(c.take_utterance(), vec![1000, 1]);
    assert!(c.utterance().is_empty());
    assert!(c.is_ended());
}
