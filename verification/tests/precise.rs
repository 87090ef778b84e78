use voice_capture::precise::{
    get_runner, strip_length, ClassifierError, PreciseEngine, ENGINE_CHUNK_SIZE, ENGINE_MODEL,
    ENGINE_PROGRAM,
};

fn engine(chunk_size: usize) -> PreciseEngine {
    PreciseEngine::new(String::from("model.pb"), chunk_size)
}

#[test]
fn runner_has_the_usual_settings() {
    let runner = get_runner();
    assert_eq!(runner.get_model(), "/home/ake/.mycroft/precise/hey-mycroft.pb");
    assert_eq!(runner.get_model(), ENGINE_MODEL);
    assert_eq!(runner.chunk_size(), 2048);
    assert_eq!(runner.chunk_size(), ENGINE_CHUNK_SIZE);
    assert!(runner.is_running());
    assert_eq!(ENGINE_PROGRAM, "/home/ake/.mycroft/precise/precise-engine/precise-engine");
}

#[test]
fn new_engine_runs() {
    let e = engine(4);
    assert_eq!(e.get_model(), "model.pb");
    assert_eq!(e.chunk_size(), 4);
    assert!(e.is_running());
}

#[test]
fn chunk_is_written_as_raw_little_endian_samples() {
    let e = engine(4);
    let bytes = e.encode_chunk(&[1, -1, 256, -32768]).unwrap();
    assert_eq!(bytes, vec![0x01, 0x00, 0xff, 0xff, 0x00, 0x01, 0x00, 0x80]);
}

#[test]
fn chunk_bytes_are_two_per_sample() {
    let e = engine(3);
    let bytes = e.encode_chunk(&[0x1234, 0x7fff, -2]).unwrap();
    assert_eq!(bytes, vec![0x34, 0x12, 0xff, 0x7f, 0xfe, 0xff]);
    let e = engine(0);
    assert_eq!(e.encode_chunk(&[]).unwrap(), Vec::<u8>::new());
}

#[test]
fn full_sized_chunk_is_encoded() {
    let e = get_runner();
    let chunk: Vec<i16> = (0..2048).map(|i| (i as i16) - 1000).collect();
    let bytes = e.encode_chunk(&chunk).unwrap();
    assert_eq!(bytes.len(), 4096);
    for (i, sample) in chunk.iter().enumerate() {
        assert_eq!([bytes[2 * i], bytes[2 * i + 1]], sample.to_le_bytes());
    }
}

#[test]
fn short_chunk_is_a_mismatch_and_nothing_is_written() {
    let e = engine(4);
    assert_eq!(e.encode_chunk(&[1, 2, 3]), Err(ClassifierError::ChunkSizeMismatch));
    assert_eq!(e.encode_chunk(&[]), Err(ClassifierError::ChunkSizeMismatch));
    assert_eq!(
        e.get_prediction(&[1, 2, 3], b"0.9\n0.9\n0.9\n0.9\n"),
        Err(ClassifierError::ChunkSizeMismatch)
    );
}

#[test]
fn long_chunk_is_a_mismatch_and_nothing_is_written() {
    let e = engine(4);
    assert_eq!(e.encode_chunk(&[1, 2, 3, 4, 5]), Err(ClassifierError::ChunkSizeMismatch));
    assert_eq!(
        e.encode_chunk(&[1, 2, 3, 4, 5, 6, 7, 8]),
        Err(ClassifierError::ChunkSizeMismatch)
    );
    assert_eq!(
        e.get_prediction(&[1, 2, 3, 4, 5, 6, 7, 8], b"0.9\n0.9\n0.9\n0.9\n"),
        Err(ClassifierError::ChunkSizeMismatch)
    );
}

#[test]
fn prediction_is_the_or_of_the_lines() {
    let e = engine(2);
    assert_eq!(e.get_prediction(&[5, 6], b"0.1\n0.2\n0.9\n0.3\n"), Ok(true));
    assert_eq!(e.get_prediction(&[5, 6], b"0.1\n0.2\n0.4\n0.3\n"), Ok(false));
    assert_eq!(e.get_prediction(&[5, 6], b"abc\n"), Ok(false));
    assert_eq!(e.get_prediction(&[5, 6], b""), Ok(false));
}

#[test]
fn stopped_engine_is_terminated() {
    let mut e = engine(2);
    e.stop();
    assert!(!e.is_running());
    assert_eq!(e.chunk_size(), 2);
    assert_eq!(e.get_model(), "model.pb");
    assert_eq!(e.encode_chunk(&[1, 2]), Err(ClassifierError::ProcessTerminated));
    assert_eq!(
        e.get_prediction(&[1, 2], b"0.9\n0.9\n0.9\n0.9\n"),
        Err(ClassifierError::ProcessTerminated)
    );
    e.stop();
    assert!(!e.is_running());
}

#[test]
fn mismatch_comes_before_termination() {
    let mut e = engine(2);
    e.stop();
    assert_eq!(e.encode_chunk(&[1]), Err(ClassifierError::ChunkSizeMismatch));
    assert_eq!(e.get_prediction(&[1, 2, 3], b"0.9\n"), Err(ClassifierError::ChunkSizeMismatch));
}

#[test]
fn strip_length_takes_eight_bytes_off() {
    let serialized = vec![2, 0, 0, 0, 0, 0, 0, 0, 0x34, 0x12, 0xff, 0x7f];
    assert_eq!(strip_length(Ok(serialized)), Ok(vec![0x34, 0x12, 0xff, 0x7f]));
    assert_eq!(strip_length(Ok(vec![0; 8])), Ok(vec![]));
}

#[test]
fn strip_length_reports_what_cannot_be_used() {
    assert_eq!(strip_length(Ok(vec![0; 7])), Err(ClassifierError::Encoding));
    assert_eq!(strip_length(Ok(vec![])), Err(ClassifierError::Encoding));
    let failure = Box::new(bincode::ErrorKind::SizeLimit);
    assert_eq!(strip_length(Err(failure)), Err(ClassifierError::Encoding));
}

#[test]
fn errors_in_words() {
    assert_eq!(
        ClassifierError::ChunkSizeMismatch.message(),
        "audio data length doesn't match the expected chunk size"
    );
    assert_eq!(ClassifierError::ProcessTerminated.message(), "the wakeword engine is not running");
    assert_eq!(ClassifierError::Encoding.message(), "audio data could not be encoded");
}

#[test]
fn two_samples_are_written_as_four_bytes_without_a_header() {
    let e = engine(2);
    assert_eq!(e.encode_chunk(&[1, -2]), Ok(vec![0x01, 0x00, 0xfe, 0xff]));
}

#[test]
fn right_sized_chunk_on_a_running_engine_is_always_encoded() {
    for size in [0usize, 1, 2, 3, 7, 64, 1000] {
        let e = engine(size);
        for fill in [0i16, 1, -1, i16::MAX, i16::MIN] {
            let bytes = e.encode_chunk(&vec![fill; size]).unwrap();
            assert_eq!(bytes.len(), 2 * size);
            for pair in bytes.chunks(2) {
                assert_eq!(pair, fill.to_le_bytes());
            }
        }
    }
}
