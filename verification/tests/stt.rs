use voice_capture::stt::{
    build_stt_message, create_stt_headers, parse_stt_response, recognized, widen_samples,
    STT_BITS_PER_SAMPLE, STT_CHANNELS, STT_CONTENT_TYPE, STT_LANGUAGE, STT_LIMIT,
    STT_SAMPLE_RATE, STT_URL, UTTERANCES_KEY, UTTERANCE_MESSAGE_TYPE,
};

#[test]
fn request_settings() {
    assert_eq!(STT_URL, "https://api.mycroft.ai/v1/stt");
    assert_eq!(STT_LANGUAGE, "en-US");
    assert_eq!(STT_LIMIT, "1");
    assert_eq!(STT_CONTENT_TYPE, "audio/x-flac");
    assert_eq!((STT_CHANNELS, STT_BITS_PER_SAMPLE, STT_SAMPLE_RATE), (1, 16, 16000));
}

#[test]
fn headers_carry_the_token_as_bearer() {
    let headers = create_stt_headers("abc.def");
    assert_eq!(headers.authorization, "Bearer abc.def");
    assert_eq!(headers.content_type, "audio/x-flac");
    assert_eq!(create_stt_headers("").authorization, "Bearer ");
}

#[test]
fn samples_are_widened_unchanged() {
    assert_eq!(widen_samples(&[0, 1, -1, i16::MAX, i16::MIN]), vec![0, 1, -1, 32767, -32768]);
    assert_eq!(widen_samples(&[]), Vec::<i32>::new());
}

#[test]
fn response_with_texts_is_recognized() {
    assert_eq!(
        parse_stt_response("[\"turn on the light\"]"),
        Some(vec![String::from("turn on the light")])
    );
    assert_eq!(
        parse_stt_response(" [ \"a\" , \"b\\n\\u00e9\" ] "),
        Some(vec![String::from("a"), String::from("b\n\u{e9}")])
    );
}

#[test]
fn response_without_texts_is_unrecognized() {
    assert_eq!(parse_stt_response("[]"), None);
    assert_eq!(parse_stt_response(" [ ] "), None);
}

#[test]
fn response_that_is_no_list_of_strings_is_unrecognized() {
    assert_eq!(parse_stt_response(""), None);
    assert_eq!(parse_stt_response("hello"), None);
    assert_eq!(parse_stt_response("\"hello\""), None);
    assert_eq!(parse_stt_response("[1, 2]"), None);
    assert_eq!(parse_stt_response("[\"a\", 2]"), None);
    assert_eq!(parse_stt_response("{\"utterances\": [\"a\"]}"), None);
    assert_eq!(parse_stt_response("[\"a\"] x"), None);
    assert_eq!(parse_stt_response("[\"a\""), None);
    assert_eq!(parse_stt_response("null"), None);
}

#[test]
fn recognized_keeps_a_list_with_texts() {
    let list = vec![String::from("a"), String::from("b")];
    assert_eq!(recognized(Ok(list.clone())), Some(list));
    assert_eq!(recognized(Ok(Vec::new())), None);
    let failure = serde_json::from_str::<Vec<String>>("nonsense").unwrap_err();
    assert_eq!(recognized(Err(failure)), None);
}

#[test]
fn message_carries_the_texts() {
    let texts = vec![String::from("one"), String::from("two")];
    let message = build_stt_message(texts.clone());
    assert_eq!(message.message_type, "recognizer_loop:utterance");
    assert_eq!(message.message_type, UTTERANCE_MESSAGE_TYPE);
    assert_eq!(message.data_key, "utterances");
    assert_eq!(message.data_key, UTTERANCES_KEY);
    assert_eq!(message.utterances, texts);
    assert!(build_stt_message(Vec::new()).utterances.is_empty());
}
