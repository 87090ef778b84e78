//! Streaming audio capture and utterance-boundary detection for a voice
//! assistant front end.
//!
//! The library decides; it performs no input or output. The microphone, the
//! wakeword engine's process and the network belong to the program that uses
//! it.
//!
//! - [`energy`]: the loudness of a chunk of samples.
//! - [`confidence`] and [`decimal`]: reading one confidence line of the engine.
//! - [`response`]: the engine's answer to a chunk, a fixed number of lines.
//! - [`precise`]: an engine session, the bytes written to it and the verdict
//!   on its answers.
//! - [`endpoint`]: the endpoint detector and the gathering of an utterance.
//! - [`pipeline`]: the outer loop, as a machine from events to actions.
//! - [`stt`]: what is fixed of the exchange with the speech-to-text service
//!   and of the message that carries its result.

pub mod buffer;
pub mod confidence;
pub mod decimal;
pub mod endpoint;
pub mod energy;
pub mod pipeline;
pub mod precise;
pub mod response;
pub mod stt;
