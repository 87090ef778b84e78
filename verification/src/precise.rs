//! The wakeword engine's side of the conversation.
//!
//! The engine is a process of its own. What is written to it and what is made
//! of its answers is decided here; starting the process and moving the bytes is
//! left to the caller. For each chunk the caller asks for the bytes to write
//! with [`PreciseEngine::encode_chunk`], writes them, reads the engine's
//! answer, and hands it to [`PreciseEngine::get_prediction`].

use crate::response::{any_confident, score_response, RESPONSE_LINES};
use vstd::prelude::*;

verus! {

/// The program that is run as the engine.
pub const ENGINE_PROGRAM: &'static str = "/home/ake/.mycroft/precise/precise-engine/precise-engine";

/// The model that the engine is started with.
pub const ENGINE_MODEL: &'static str = "/home/ake/.mycroft/precise/hey-mycroft.pb";

/// The chunk size that the engine is started with.
pub const ENGINE_CHUNK_SIZE: usize = 2048;

/// `bincode::ErrorKind`: why a serialization failed. Nothing is read from it.
#[verifier::external_type_specification]
#[verifier::external_body]
pub struct ExBincodeErrorKind(bincode::ErrorKind);

/// Why the engine gave no verdict on a chunk.
#[derive(Clone, Copy, Debug, PartialEq, Eq, Structural)]
pub enum ClassifierError {
    /// The chunk does not hold as many samples as the engine was set up for.
    ChunkSizeMismatch,
    /// The engine has been stopped, or was found to have exited.
    ProcessTerminated,
    /// The samples could not be put into bytes.
    Encoding,
}

impl ClassifierError {
    /// The error in words.
    pub fn message(&self) -> (text: &'static str)
        ensures
            *self == ClassifierError::ChunkSizeMismatch ==> text@
                == "audio data length doesn't match the expected chunk size"@,
            *self == ClassifierError::ProcessTerminated ==> text@
                == "the wakeword engine is not running"@,
            *self == ClassifierError::Encoding ==> text@ == "audio data could not be encoded"@,
    {
        match self {
            ClassifierError::ChunkSizeMismatch => {
                "audio data length doesn't match the expected chunk size"
            },
            ClassifierError::ProcessTerminated => "the wakeword engine is not running",
            ClassifierError::Encoding => "audio data could not be encoded",
        }
    }
}

/// A sample as an unsigned 16-bit number, in two's complement.
pub open spec fn unsigned(sample: i16) -> int {
    if sample < 0 {
        sample + 0x1_0000
    } else {
        sample as int
    }
}

/// The two bytes of a sample, least significant first.
pub open spec fn sample_pair(sample: i16) -> Seq<u8> {
    seq![(unsigned(sample) % 0x100) as u8, (unsigned(sample) / 0x100) as u8]
}

/// The samples as raw little-endian bytes, two for each sample.
pub open spec fn sample_bytes(samples: Seq<i16>) -> Seq<u8>
    decreases samples.len(),
{
    if samples.len() == 0 {
        Seq::empty()
    } else {
        sample_bytes(samples.drop_last()) + sample_pair(samples.last())
    }
}

/// A length as eight little-endian bytes.
pub open spec fn length_prefix(len: nat) -> Seq<u8> {
    seq![
        (len % 0x100) as u8,
        (len / 0x100 % 0x100) as u8,
        (len / 0x1_0000 % 0x100) as u8,
        (len / 0x100_0000 % 0x100) as u8,
        (len / 0x1_0000_0000 % 0x100) as u8,
        (len / 0x100_0000_0000 % 0x100) as u8,
        (len / 0x1_0000_0000_0000 % 0x100) as u8,
        (len / 0x100_0000_0000_0000 % 0x100) as u8,
    ]
}

/// `bincode::serialize` on a slice of samples. With the options that
/// `serialize` fixes, a slice is written as its length in eight little-endian
/// bytes, followed by its items, and a sample as its two bytes in little-endian
/// order. The call succeeds on every slice of samples: the length of a slice is
/// known, `serialize` sets no limit on the size, and it writes into a vector.
#[verifier::external_body]
fn serialize_samples(samples: &[i16]) -> (result: Result<Vec<u8>, Box<bincode::ErrorKind>>)
    ensures
        result is Ok,
        result matches Ok(bytes) ==> bytes@ == length_prefix(samples@.len()) + sample_bytes(
            samples@,
        ),
{
    bincode::serialize(&samples)
}

/// What a serialized slice of samples is turned into before it is written to
/// the engine, which takes bare samples: the length in front is taken off.
/// A serialization that failed, or one too short to hold a length, is an
/// encoding error.
pub fn strip_length(serialized: Result<Vec<u8>, Box<bincode::ErrorKind>>) -> (result: Result<
    Vec<u8>,
    ClassifierError,
>)
    ensures
        match serialized {
            Ok(bytes) => if bytes@.len() >= 8 {
                result matches Ok(payload) && payload@ == bytes@.skip(8)
            } else {
                result == Err::<Vec<u8>, ClassifierError>(ClassifierError::Encoding)
            },
            Err(_) => result == Err::<Vec<u8>, ClassifierError>(ClassifierError::Encoding),
        },
{
    match serialized {
        Ok(bytes) => {
            let mut bytes = bytes;
            if bytes.len() >= 8 {
                let payload: Vec<u8> = bytes.split_off(8);
                Ok(payload)
            } else {
                Err(ClassifierError::Encoding)
            }
        },
        Err(_) => Err(ClassifierError::Encoding),
    }
}

/// What an engine is, mathematically.
pub struct EngineModel {
    pub model: Seq<char>,
    pub chunk_size: nat,
    pub running: bool,
}

/// The verdict on a chunk, given the engine and its answer: a chunk of the
/// wrong size is a mismatch whatever else holds, then a stopped engine gives
/// nothing, and otherwise the answer decides.
pub open spec fn prediction(engine: EngineModel, samples: Seq<i16>, response: Seq<u8>) -> Result<
    bool,
    ClassifierError,
> {
    if samples.len() != engine.chunk_size {
        Err(ClassifierError::ChunkSizeMismatch)
    } else if !engine.running {
        Err(ClassifierError::ProcessTerminated)
    } else {
        Ok(any_confident(response, RESPONSE_LINES as nat))
    }
}

/// One session with the wakeword engine: the model it runs, the number of
/// samples it takes per chunk, and whether it is still running.
pub struct PreciseEngine {
    model: String,
    chunk_size: usize,
    running: bool,
}

impl View for PreciseEngine {
    type V = EngineModel;

    closed spec fn view(&self) -> EngineModel {
        EngineModel {
            model: self.model@,
            chunk_size: self.chunk_size as nat,
            running: self.running,
        }
    }
}

impl PreciseEngine {
    /// A running session on the given model, taking `chunk_size` samples per
    /// chunk.
    pub fn new(model: String, chunk_size: usize) -> (engine: Self)
        ensures
            engine@ == (EngineModel {
                model: model@,
                chunk_size: chunk_size as nat,
                running: true,
            }),
    {
        PreciseEngine { model, chunk_size, running: true }
    }

    /// The model that the engine runs.
    pub fn get_model(&self) -> (model: String)
        ensures
            model@ == self@.model,
    {
        self.model.clone()
    }

    /// The number of samples that the engine takes per chunk.
    pub fn chunk_size(&self) -> (size: usize)
        ensures
            size as nat == self@.chunk_size,
    {
        self.chunk_size
    }

    /// Whether the session is still running.
    pub fn is_running(&self) -> (running: bool)
        ensures
            running == self@.running,
    {
        self.running
    }

    /// Ends the session: from now on every chunk of the right size is
    /// answered with `ProcessTerminated`.
    pub fn stop(&mut self)
        ensures
            final(self)@ == (EngineModel { running: false, ..old(self)@ }),
    {
        self.running = false;
    }

    /// The bytes to write to the engine for a chunk: the samples as raw
    /// little-endian bytes.
    ///
    /// A chunk of the wrong size is a `ChunkSizeMismatch`, whether the engine
    /// runs or not, and a chunk for a stopped engine is a `ProcessTerminated`:
    /// in both cases there is nothing to write. A chunk of the right size for
    /// a running engine always gives its bytes.
    pub fn encode_chunk(&self, audio_data: &[i16]) -> (result: Result<Vec<u8>, ClassifierError>)
        ensures
            audio_data@.len() != self@.chunk_size ==> result == Err::<Vec<u8>, ClassifierError>(
                ClassifierError::ChunkSizeMismatch,
            ),
            audio_data@.len() == self@.chunk_size && !self@.running ==> result == Err::<
                Vec<u8>,
                ClassifierError,
            >(ClassifierError::ProcessTerminated),
            audio_data@.len() == self@.chunk_size && self@.running ==> result is Ok,
            result matches Ok(bytes) ==> bytes@ == sample_bytes(audio_data@),
    {
        if audio_data.len() != self.chunk_size {
            return Err(ClassifierError::ChunkSizeMismatch);
        }
        if !self.running {
            return Err(ClassifierError::ProcessTerminated);
        }
        let serialized = serialize_samples(audio_data);
        proof {
            let prefix = length_prefix(audio_data@.len());
            assert(prefix.len() == 8);
            assert((prefix + sample_bytes(audio_data@)).skip(8) =~= sample_bytes(audio_data@));
        }
        strip_length(serialized)
    }

    /// The verdict on a chunk, from the text with which the engine answered
    /// it: whether any of the answer's lines is a positive signal.
    pub fn get_prediction(&self, audio_data: &[i16], response: &[u8]) -> (result: Result<
        bool,
        ClassifierError,
    >)
        ensures
            result == prediction(self@, audio_data@, response@),
    {
        if audio_data.len() != self.chunk_size {
            Err(ClassifierError::ChunkSizeMismatch)
        } else if !self.running {
            Err(ClassifierError::ProcessTerminated)
        } else {
            Ok(score_response(response))
        }
    }
}

/// A session on the engine's usual model with its usual chunk size.
pub fn get_runner() -> (engine: PreciseEngine)
    ensures
        engine@ == (EngineModel {
            model: ENGINE_MODEL@,
            chunk_size: ENGINE_CHUNK_SIZE as nat,
            running: true,
        }),
{
    PreciseEngine::new(ENGINE_MODEL.to_owned(), ENGINE_CHUNK_SIZE)
}

/// A chunk of the wrong size is always a mismatch, and nothing is to be
/// written for it, whatever the state of the engine and whatever it answered.
pub proof fn lemma_mismatch_always_reported(
    engine: EngineModel,
    samples: Seq<i16>,
    response: Seq<u8>,
)
    requires
        samples.len() != engine.chunk_size,
    ensures
        prediction(engine, samples, response) == Err::<bool, ClassifierError>(
            ClassifierError::ChunkSizeMismatch,
        ),
{
}

} // verus!
