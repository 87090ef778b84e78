//! What is said to the speech-to-text service and what is made of its answer.
//!
//! The exchange with the service is the caller's. Here stand the parts of it
//! that are fixed: where the request goes, the headers it carries, the samples
//! it is made from, how the service's answer is read, and the message that
//! carries recognized text onward.

use vstd::prelude::*;
use vstd::string::StringExecFns;

verus! {

/// Where a transcription is asked for.
pub const STT_URL: &'static str = "https://api.mycroft.ai/v1/stt";

/// The language that is asked for.
pub const STT_LANGUAGE: &'static str = "en-US";

/// The number of transcriptions that is asked for.
pub const STT_LIMIT: &'static str = "1";

/// The content type of the audio that is sent.
pub const STT_CONTENT_TYPE: &'static str = "audio/x-flac";

/// The type of the message that carries recognized text.
pub const UTTERANCE_MESSAGE_TYPE: &'static str = "recognizer_loop:utterance";

/// The key under which the message holds the recognized text.
pub const UTTERANCES_KEY: &'static str = "utterances";

/// The number of channels of the audio that is sent.
pub const STT_CHANNELS: usize = 1;

/// The number of bits per sample of the audio that is sent.
pub const STT_BITS_PER_SAMPLE: usize = 16;

/// The sample rate of the audio that is sent.
pub const STT_SAMPLE_RATE: usize = 16000;

/// `serde_json::Error`: why a text could not be read. Nothing is read from it.
#[verifier::external_type_specification]
#[verifier::external_body]
pub struct ExJsonError(serde_json::Error);

/// The texts of a list of strings.
pub open spec fn texts(list: Seq<String>) -> Seq<Seq<char>> {
    Seq::new(list.len(), |i: int| list[i]@)
}

/// What `serde_json::from_str` makes of a text that is read as a list of
/// strings: the strings of the list, or nothing where the text is not the
/// JSON of such a list.
pub uninterp spec fn json_string_list(text: Seq<char>) -> Option<Seq<Seq<char>>>;

/// `serde_json::from_str` for a list of strings. The result depends on the
/// text alone, so it has a name; what the name holds is not stated.
#[verifier::external_body]
fn parse_string_list(text: &str) -> (result: Result<Vec<String>, serde_json::Error>)
    ensures
        match result {
            Ok(list) => json_string_list(text@) == Some(texts(list@)),
            Err(_) => json_string_list(text@) is None,
        },
{
    serde_json::from_str(text)
}

/// The samples of an utterance in the width that the audio encoder takes.
pub fn widen_samples(audio_data: &[i16]) -> (wide: Vec<i32>)
    ensures
        wide@.len() == audio_data@.len(),
        forall|i: int| 0 <= i < audio_data@.len() ==> wide@[i] == audio_data@[i],
{
    let count: usize = audio_data.len();
    let mut wide: Vec<i32> = Vec::new();
    let mut i: usize = 0;
    while i < count
        invariant
            count == audio_data@.len(),
            i <= count,
            wide@.len() == i,
            forall|j: int| 0 <= j < i ==> wide@[j] == audio_data@[j],
        decreases count - i,
    {
        wide.push(audio_data[i] as i32);
        i = i + 1;
    }
    wide
}

/// The headers of a request for transcription.
#[derive(Debug, PartialEq, Eq)]
pub struct SttHeaders {
    /// The value of the authorization header.
    pub authorization: String,
    /// The value of the content type header.
    pub content_type: String,
}

/// The headers of a request made with the given access token: the token as a
/// bearer credential, and the content type of the audio.
pub fn create_stt_headers(access: &str) -> (headers: SttHeaders)
    ensures
        headers.authorization@ == "Bearer "@ + access@,
        headers.content_type@ == STT_CONTENT_TYPE@,
{
    let bearer_auth: String = String::from_str("Bearer ").concat(access);
    SttHeaders { authorization: bearer_auth, content_type: String::from_str(STT_CONTENT_TYPE) }
}

/// What the pipeline makes of the service's parsed answer: a list that holds
/// at least one text is what was recognized; an empty list, and an answer that
/// could not be parsed, mean that nothing was.
pub fn recognized(parsed: Result<Vec<String>, serde_json::Error>) -> (sentences: Option<
    Vec<String>,
>)
    ensures
        match parsed {
            Ok(list) => if list@.len() > 0 {
                sentences == Some(list)
            } else {
                sentences is None
            },
            Err(_) => sentences is None,
        },
{
    match parsed {
        Ok(list) => {
            if list.len() > 0 {
                Some(list)
            } else {
                None
            }
        },
        Err(_) => None,
    }
}

/// Reads the service's answer, the JSON of a list of strings: the texts that
/// were recognized, in the order given, or `None` where the answer holds none
/// or is no such list.
pub fn parse_stt_response(text: &str) -> (sentences: Option<Vec<String>>)
    ensures
        match sentences {
            Some(list) => list@.len() > 0 && json_string_list(text@) == Some(texts(list@)),
            None => json_string_list(text@) is None || json_string_list(text@) == Some(
                Seq::<Seq<char>>::empty(),
            ),
        },
{
    let parsed = parse_string_list(text);
    proof {
        if parsed is Ok && parsed->Ok_0@.len() == 0 {
            assert(texts(parsed->Ok_0@) =~= Seq::<Seq<char>>::empty());
        }
    }
    recognized(parsed)
}

/// The message that carries recognized text to the message bus.
#[derive(Debug, PartialEq, Eq)]
pub struct UtteranceMessage {
    /// The type of the message.
    pub message_type: String,
    /// The key of the one entry of the message's data.
    pub data_key: String,
    /// The recognized texts: the value of that entry.
    pub utterances: Vec<String>,
}

/// The message for a transcription: an utterance message whose data holds the
/// recognized texts, unchanged and in order.
pub fn build_stt_message(stt_result: Vec<String>) -> (message: UtteranceMessage)
    ensures
        message.message_type@ == UTTERANCE_MESSAGE_TYPE@,
        message.data_key@ == UTTERANCES_KEY@,
        message.utterances == stt_result,
{
    UtteranceMessage {
        message_type: String::from_str(UTTERANCE_MESSAGE_TYPE),
        data_key: String::from_str(UTTERANCES_KEY),
        utterances: stt_result,
    }
}

} // verus!
