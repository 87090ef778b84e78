//! The capture pipeline: what to do next, given what just happened.
//!
//! The pipeline runs in cycles. In each cycle an engine session is started,
//! unless one is kept from the cycle before, and stale audio is discarded;
//! chunks are read and scored until the wakeword is heard; the chunks that
//! follow are gathered into an utterance until the endpoint detector ends it;
//! the utterance is handed over for transcription, and what was recognized is
//! published. Then the next cycle begins.
//!
//! The pipeline runs until it is asked to shut down, which it can be at any
//! point.
//!
//! The pipeline itself reads no microphone and starts no process. It is told
//! of each event and answers with the action to take; whoever drives it takes
//! the action and reports the event that results.

use crate::endpoint::{
    accept, fresh_collector, CollectorModel, EndpointState, SentenceCollector,
};
use crate::energy::{loudness, measure};
use crate::precise::{prediction, sample_bytes, ClassifierError, EngineModel, PreciseEngine};
use crate::stt::{build_stt_message, UtteranceMessage, UTTERANCES_KEY, UTTERANCE_MESSAGE_TYPE};
use vstd::prelude::*;

verus! {

/// The number of samples in a chunk that is read while an utterance is
/// gathered: a quarter of a second at 16 kHz.
pub const ENDPOINT_CHUNK_SAMPLES: usize = 4000;

/// How long an engine session is kept.
#[derive(Clone, Copy, Debug, PartialEq, Eq, Structural)]
pub enum SessionPolicy {
    /// Every cycle starts a fresh session.
    PerCycle,
    /// A session is kept over the cycles for as long as it runs.
    Persistent,
}

/// What the pipeline is waiting for.
#[derive(Clone, Copy, Debug, PartialEq, Eq, Structural)]
pub enum Phase {
    /// A fresh engine session is being started.
    Starting,
    /// Audio that was buffered before this cycle is being discarded.
    Flushing,
    /// A chunk is being read, to be scored by the engine.
    Listening,
    /// The engine is scoring the chunk that was read last.
    Scoring,
    /// A chunk is being read, to be added to the utterance.
    Capturing,
    /// The utterance is being transcribed.
    Transcribing,
    /// The recognized text is being published.
    Publishing,
    /// The pipeline was shut down. Nothing leads out of this phase.
    Stopped,
}

/// What happened.
#[derive(Debug, PartialEq, Eq)]
pub enum PipelineEvent {
    /// The engine session was started.
    SessionStarted,
    /// The buffered audio was discarded.
    InputFlushed,
    /// A chunk was read from the microphone.
    Chunk(Vec<i16>),
    /// The engine answered the bytes that were written to it with this text.
    Response(Vec<u8>),
    /// The engine was found to have exited.
    EngineExited,
    /// The transcription came back, with the texts that were recognized or
    /// with nothing.
    Transcript(Option<Vec<String>>),
    /// The message was handed to the message bus, or the attempt was given up.
    Published,
    /// The pipeline is to come to rest.
    ShutdownRequested,
}

/// What to do next.
#[derive(Debug, PartialEq, Eq)]
pub enum PipelineAction {
    /// Start a fresh engine session.
    StartSession,
    /// Discard the audio that is buffered.
    FlushInput,
    /// Read a chunk of this many samples from the microphone.
    ReadChunk(usize),
    /// Write these bytes to the engine and read its answer.
    Score(Vec<u8>),
    /// Have this utterance transcribed.
    Transcribe(Vec<i16>),
    /// Publish this message.
    Publish(UtteranceMessage),
    /// End the engine session and take no further action.
    Stop,
}

/// Something worth a line in the log. None of these stops the pipeline.
#[derive(Clone, Copy, Debug, PartialEq, Eq, Structural)]
pub enum PipelineNotice {
    /// The engine gave no verdict on the chunk.
    ClassifierFailed(ClassifierError),
    /// A chunk without samples was read and left out.
    EmptyChunk,
    /// The utterance could not be understood.
    Unrecognized,
}

/// The action to take and, at times, something to log.
#[derive(Debug, PartialEq, Eq)]
pub struct PipelineStep {
    pub action: PipelineAction,
    pub notice: Option<PipelineNotice>,
}

/// The event does not belong to what the pipeline is waiting for.
#[derive(Clone, Copy, Debug, PartialEq, Eq, Structural)]
pub enum PipelineError {
    UnexpectedEvent,
}

/// What a pipeline is, mathematically.
pub struct PipelineModel {
    pub phase: Phase,
    pub engine: EngineModel,
    /// The chunk that is being scored.
    pub pending: Seq<i16>,
    /// The loudness of the chunk that is being scored.
    pub level: nat,
    pub collector: CollectorModel,
    /// The number of samples per chunk while an utterance is gathered.
    pub endpoint_chunk: nat,
    pub policy: SessionPolicy,
    /// The number of samples at which an utterance is cut off, if there is
    /// such a bound.
    pub max_utterance: Option<nat>,
}

/// Whether the event is one that the phase waits for.
pub open spec fn is_expected(phase: Phase, event: PipelineEvent) -> bool {
    match event {
        PipelineEvent::SessionStarted => phase == Phase::Starting,
        PipelineEvent::InputFlushed => phase == Phase::Flushing,
        PipelineEvent::Chunk(_) => phase == Phase::Listening || phase == Phase::Capturing,
        PipelineEvent::Response(_) => phase == Phase::Scoring,
        PipelineEvent::EngineExited => phase == Phase::Listening || phase == Phase::Scoring,
        PipelineEvent::Transcript(_) => phase == Phase::Transcribing,
        PipelineEvent::Published => phase == Phase::Publishing,
        PipelineEvent::ShutdownRequested => true,
    }
}

/// The pipeline begins its next cycle: with a fresh session, unless a running
/// session is to be kept, in which case only the stale audio is discarded.
pub open spec fn begins_cycle(
    before: PipelineModel,
    after: PipelineModel,
    step: PipelineStep,
) -> bool {
    if before.policy == SessionPolicy::Persistent && before.engine.running {
        &&& after == PipelineModel { phase: Phase::Flushing, ..before }
        &&& step.action is FlushInput
    } else {
        &&& after == PipelineModel { phase: Phase::Starting, ..before }
        &&& step.action is StartSession
    }
}

/// The pipeline moves on to reading the next chunk for the engine.
pub open spec fn keeps_listening(
    before: PipelineModel,
    after: PipelineModel,
    step: PipelineStep,
) -> bool {
    &&& after == PipelineModel { phase: Phase::Listening, ..before }
    &&& step.action matches PipelineAction::ReadChunk(n)
    &&& n == before.engine.chunk_size
}

/// What a chunk does to a pipeline that listens for the wakeword.
///
/// A chunk that the engine cannot take is reported and the next one is read.
/// So is a chunk without samples, which has no loudness. Any other chunk is
/// kept, with its loudness, and its bytes are to be written to the engine.
pub open spec fn listening_step(
    before: PipelineModel,
    samples: Seq<i16>,
    after: PipelineModel,
    step: PipelineStep,
) -> bool {
    if samples.len() != before.engine.chunk_size {
        &&& keeps_listening(before, after, step)
        &&& step.notice == Some(
            PipelineNotice::ClassifierFailed(ClassifierError::ChunkSizeMismatch),
        )
    } else if !before.engine.running {
        &&& keeps_listening(before, after, step)
        &&& step.notice == Some(
            PipelineNotice::ClassifierFailed(ClassifierError::ProcessTerminated),
        )
    } else if samples.len() == 0 {
        &&& keeps_listening(before, after, step)
        &&& step.notice == Some(PipelineNotice::EmptyChunk)
    } else {
        &&& after == PipelineModel {
            phase: Phase::Scoring,
            pending: samples,
            level: loudness(samples),
            ..before
        }
        &&& step.action matches PipelineAction::Score(bytes)
        &&& bytes@ == sample_bytes(samples)
        &&& step.notice is None
    }
}

/// What the engine's answer does to a pipeline that waits for it.
///
/// When the answer reports the wakeword, the capture of an utterance begins,
/// calibrated with the loudness of the chunk that was scored. When it does not,
/// or when there is no verdict, the next chunk is read for the engine.
pub open spec fn scoring_step(
    before: PipelineModel,
    response: Seq<u8>,
    now: nat,
    after: PipelineModel,
    step: PipelineStep,
) -> bool {
    match prediction(before.engine, before.pending, response) {
        Ok(heard) => if heard {
            &&& after == PipelineModel {
                phase: Phase::Capturing,
                collector: fresh_collector(before.level, now),
                ..before
            }
            &&& step.action matches PipelineAction::ReadChunk(n)
            &&& n == before.endpoint_chunk
            &&& step.notice is None
        } else {
            &&& keeps_listening(before, after, step)
            &&& step.notice is None
        },
        Err(e) => {
            &&& keeps_listening(before, after, step)
            &&& step.notice == Some(PipelineNotice::ClassifierFailed(e))
        },
    }
}

/// Whether an utterance of the given length has reached the bound, if there
/// is one.
pub open spec fn is_cut_off(max_utterance: Option<nat>, len: nat) -> bool {
    max_utterance matches Some(bound) && len >= bound
}

/// What a chunk does to a pipeline that gathers an utterance.
///
/// An empty chunk is left out and reported. Any other chunk is added to the
/// utterance. When it ends the utterance, or when the utterance has reached
/// its bound, the utterance, that chunk included, is handed over for
/// transcription; else the next chunk is read.
pub open spec fn capturing_step(
    before: PipelineModel,
    samples: Seq<i16>,
    now: nat,
    after: PipelineModel,
    step: PipelineStep,
) -> bool {
    let offered = accept(before.collector, samples, now);
    if before.collector.detector.state != EndpointState::Ended && samples.len() == 0 {
        &&& after == before
        &&& step.action matches PipelineAction::ReadChunk(n)
        &&& n == before.endpoint_chunk
        &&& step.notice == Some(PipelineNotice::EmptyChunk)
    } else if offered.detector.state == EndpointState::Ended || is_cut_off(
        before.max_utterance,
        offered.utterance.len(),
    ) {
        &&& after == PipelineModel {
            phase: Phase::Transcribing,
            collector: CollectorModel { detector: offered.detector, utterance: Seq::empty() },
            ..before
        }
        &&& step.action matches PipelineAction::Transcribe(utterance)
        &&& utterance@ == offered.utterance
        &&& step.notice is None
    } else {
        &&& after == PipelineModel { collector: offered, ..before }
        &&& step.action matches PipelineAction::ReadChunk(n)
        &&& n == before.endpoint_chunk
        &&& step.notice is None
    }
}

/// What the transcription's answer does to a pipeline that waits for it.
///
/// Recognized text is published as an utterance message. Where nothing was
/// recognized, that is reported and the next cycle begins.
pub open spec fn transcribing_step(
    before: PipelineModel,
    transcript: Option<Vec<String>>,
    after: PipelineModel,
    step: PipelineStep,
) -> bool {
    if transcript is Some && transcript->Some_0@.len() > 0 {
        &&& after == PipelineModel { phase: Phase::Publishing, ..before }
        &&& step.action matches PipelineAction::Publish(message)
        &&& message.message_type@ == UTTERANCE_MESSAGE_TYPE@
        &&& message.data_key@ == UTTERANCES_KEY@
        &&& message.utterances == transcript->Some_0
        &&& step.notice is None
    } else {
        &&& begins_cycle(before, after, step)
        &&& step.notice == Some(PipelineNotice::Unrecognized)
    }
}

/// What an expected event does to a pipeline.
pub open spec fn takes_step(
    before: PipelineModel,
    event: PipelineEvent,
    now: nat,
    after: PipelineModel,
    step: PipelineStep,
) -> bool {
    match event {
        PipelineEvent::SessionStarted => {
            &&& after == PipelineModel {
                phase: Phase::Flushing,
                engine: EngineModel { running: true, ..before.engine },
                ..before
            }
            &&& step.action is FlushInput
            &&& step.notice is None
        },
        PipelineEvent::InputFlushed => {
            &&& keeps_listening(before, after, step)
            &&& step.notice is None
        },
        PipelineEvent::Chunk(samples) => if before.phase == Phase::Listening {
            listening_step(before, samples@, after, step)
        } else {
            capturing_step(before, samples@, now, after, step)
        },
        PipelineEvent::Response(response) => scoring_step(before, response@, now, after, step),
        PipelineEvent::EngineExited => {
            &&& after == PipelineModel {
                phase: Phase::Starting,
                engine: EngineModel { running: false, ..before.engine },
                ..before
            }
            &&& step.action is StartSession
            &&& step.notice == Some(
                PipelineNotice::ClassifierFailed(ClassifierError::ProcessTerminated),
            )
        },
        PipelineEvent::Transcript(transcript) => transcribing_step(before, transcript, after, step),
        PipelineEvent::Published => {
            &&& begins_cycle(before, after, step)
            &&& step.notice is None
        },
        PipelineEvent::ShutdownRequested => {
            &&& after == PipelineModel {
                phase: Phase::Stopped,
                engine: EngineModel { running: false, ..before.engine },
                ..before
            }
            &&& step.action is Stop
            &&& step.notice is None
        },
    }
}

/// The outer loop of the listener, as a machine that is told of each event
/// and names the action to take.
pub struct CapturePipeline {
    phase: Phase,
    engine: PreciseEngine,
    pending: Vec<i16>,
    level: u16,
    collector: SentenceCollector,
    endpoint_chunk: usize,
    policy: SessionPolicy,
    max_utterance: Option<usize>,
}

impl View for CapturePipeline {
    type V = PipelineModel;

    closed spec fn view(&self) -> PipelineModel {
        PipelineModel {
            phase: self.phase,
            engine: self.engine@,
            pending: self.pending@,
            level: self.level as nat,
            collector: self.collector@,
            endpoint_chunk: self.endpoint_chunk as nat,
            policy: self.policy,
            max_utterance: match self.max_utterance {
                Some(bound) => Some(bound as nat),
                None => None,
            },
        }
    }
}

impl CapturePipeline {
    /// A pipeline at the beginning of its first cycle, waiting for the engine
    /// session to be started. Chunks for the engine have the size that the
    /// engine takes; chunks of an utterance have `endpoint_chunk` samples.
    /// Utterances are not bounded.
    pub fn new(engine: PreciseEngine, endpoint_chunk: usize, policy: SessionPolicy) -> (pipeline:
        Self)
        ensures
            pipeline@ == (PipelineModel {
                phase: Phase::Starting,
                engine: engine@,
                pending: Seq::empty(),
                level: 0,
                collector: fresh_collector(0, 0),
                endpoint_chunk: endpoint_chunk as nat,
                policy,
                max_utterance: None,
            }),
    {
        CapturePipeline {
            phase: Phase::Starting,
            engine,
            pending: Vec::new(),
            level: 0,
            collector: SentenceCollector::new(0, 0),
            endpoint_chunk,
            policy,
            max_utterance: None,
        }
    }

    /// The same pipeline with a bound on its utterances: an utterance that
    /// has reached `samples` samples is handed over as it is.
    pub fn with_max_utterance(self, samples: usize) -> (pipeline: Self)
        ensures
            pipeline@ == (PipelineModel { max_utterance: Some(samples as nat), ..self@ }),
    {
        let mut pipeline = self;
        pipeline.max_utterance = Some(samples);
        pipeline
    }

    /// The number of samples at which an utterance is cut off, if there is
    /// such a bound.
    pub fn max_utterance(&self) -> (bound: Option<usize>)
        ensures
            bound is Some <==> self@.max_utterance is Some,
            bound matches Some(samples) ==> self@.max_utterance == Some(samples as nat),
    {
        self.max_utterance
    }

    /// How long the pipeline keeps an engine session.
    pub fn policy(&self) -> (policy: SessionPolicy)
        ensures
            policy == self@.policy,
    {
        self.policy
    }

    /// The action with which a new pipeline is set going.
    pub fn first_action(&self) -> (action: PipelineAction)
        ensures
            action is StartSession,
    {
        PipelineAction::StartSession
    }

    /// What the pipeline is waiting for.
    pub fn phase(&self) -> (phase: Phase)
        ensures
            phase == self@.phase,
    {
        self.phase
    }

    /// The engine session of the current cycle.
    pub fn engine(&self) -> (engine: &PreciseEngine)
        ensures
            engine@ == self@.engine,
    {
        &self.engine
    }

    /// The state of the endpoint detector of the current cycle.
    pub fn endpoint_state(&self) -> (state: EndpointState)
        ensures
            state == self@.collector.detector.state,
    {
        self.collector.state()
    }

    /// The loudness of the chunk that was scored last.
    pub fn wakeword_level(&self) -> (level: u16)
        ensures
            level as nat == self@.level,
    {
        self.level
    }

    fn next_cycle(&mut self, notice: Option<PipelineNotice>) -> (step: PipelineStep)
        ensures
            begins_cycle(old(self)@, final(self)@, step),
            step.notice == notice,
    {
        if self.policy == SessionPolicy::Persistent && self.engine.is_running() {
            self.phase = Phase::Flushing;
            PipelineStep { action: PipelineAction::FlushInput, notice }
        } else {
            self.phase = Phase::Starting;
            PipelineStep { action: PipelineAction::StartSession, notice }
        }
    }

    fn listen_on(&mut self, notice: Option<PipelineNotice>) -> (step: PipelineStep)
        ensures
            keeps_listening(old(self)@, final(self)@, step),
            step.notice == notice,
    {
        self.phase = Phase::Listening;
        PipelineStep { action: PipelineAction::ReadChunk(self.engine.chunk_size()), notice }
    }

    fn on_wakeword_chunk(&mut self, samples: Vec<i16>) -> (step: PipelineStep)
        requires
            old(self)@.phase == Phase::Listening,
        ensures
            listening_step(old(self)@, samples@, final(self)@, step),
    {
        match self.engine.encode_chunk(samples.as_slice()) {
            Ok(bytes) => match measure(samples.as_slice()) {
                Some(level) => {
                    self.level = level;
                    self.pending = samples;
                    self.phase = Phase::Scoring;
                    PipelineStep { action: PipelineAction::Score(bytes), notice: None }
                },
                None => self.listen_on(Some(PipelineNotice::EmptyChunk)),
            },
            Err(e) => self.listen_on(Some(PipelineNotice::ClassifierFailed(e))),
        }
    }

    fn on_response(&mut self, response: Vec<u8>, now: u64) -> (step: PipelineStep)
        requires
            old(self)@.phase == Phase::Scoring,
        ensures
            scoring_step(old(self)@, response@, now as nat, final(self)@, step),
    {
        match self.engine.get_prediction(self.pending.as_slice(), response.as_slice()) {
            Ok(heard) => {
                if heard {
                    self.collector = SentenceCollector::new(self.level, now);
                    self.phase = Phase::Capturing;
                    PipelineStep {
                        action: PipelineAction::ReadChunk(self.endpoint_chunk),
                        notice: None,
                    }
                } else {
                    self.listen_on(None)
                }
            },
            Err(e) => self.listen_on(Some(PipelineNotice::ClassifierFailed(e))),
        }
    }

    fn on_utterance_chunk(&mut self, samples: Vec<i16>, now: u64) -> (step: PipelineStep)
        requires
            old(self)@.phase == Phase::Capturing,
        ensures
            capturing_step(old(self)@, samples@, now as nat, final(self)@, step),
    {
        match self.collector.push_chunk(samples.as_slice(), now) {
            Err(_) => PipelineStep {
                action: PipelineAction::ReadChunk(self.endpoint_chunk),
                notice: Some(PipelineNotice::EmptyChunk),
            },
            Ok(state) => {
                let cut_off: bool = match self.max_utterance {
                    Some(bound) => self.collector.utterance().len() >= bound,
                    None => false,
                };
                if self.collector.is_ended() || cut_off {
                    let utterance: Vec<i16> = self.collector.take_utterance();
                    self.phase = Phase::Transcribing;
                    PipelineStep { action: PipelineAction::Transcribe(utterance), notice: None }
                } else {
                    PipelineStep {
                        action: PipelineAction::ReadChunk(self.endpoint_chunk),
                        notice: None,
                    }
                }
            },
        }
    }

    fn on_transcript(&mut self, transcript: Option<Vec<String>>) -> (step: PipelineStep)
        requires
            old(self)@.phase == Phase::Transcribing,
        ensures
            transcribing_step(old(self)@, transcript, final(self)@, step),
    {
        match transcript {
            Some(sentences) => {
                if sentences.len() > 0 {
                    self.phase = Phase::Publishing;
                    return PipelineStep {
                        action: PipelineAction::Publish(build_stt_message(sentences)),
                        notice: None,
                    };
                }
            },
            None => {},
        }
        self.next_cycle(Some(PipelineNotice::Unrecognized))
    }

    /// Tells the pipeline of an event that was seen at time `now`, and returns
    /// the action to take next.
    ///
    /// An event that the pipeline is not waiting for changes nothing and is
    /// answered with `UnexpectedEvent`.
    pub fn step(&mut self, event: PipelineEvent, now: u64) -> (result: Result<
        PipelineStep,
        PipelineError,
    >)
        ensures
            result is Ok <==> is_expected(old(self)@.phase, event),
            result matches Ok(step) ==> takes_step(
                old(self)@,
                event,
                now as nat,
                final(self)@,
                step,
            ),
            result is Err ==> final(self)@ == old(self)@,
    {
        match event {
            PipelineEvent::SessionStarted => {
                if self.phase != Phase::Starting {
                    return Err(PipelineError::UnexpectedEvent);
                }
                self.engine = PreciseEngine::new(self.engine.get_model(), self.engine.chunk_size());
                self.phase = Phase::Flushing;
                Ok(PipelineStep { action: PipelineAction::FlushInput, notice: None })
            },
            PipelineEvent::InputFlushed => {
                if self.phase != Phase::Flushing {
                    return Err(PipelineError::UnexpectedEvent);
                }
                Ok(self.listen_on(None))
            },
            PipelineEvent::Chunk(samples) => {
                if self.phase == Phase::Listening {
                    Ok(self.on_wakeword_chunk(samples))
                } else if self.phase == Phase::Capturing {
                    Ok(self.on_utterance_chunk(samples, now))
                } else {
                    Err(PipelineError::UnexpectedEvent)
                }
            },
            PipelineEvent::Response(response) => {
                if self.phase != Phase::Scoring {
                    return Err(PipelineError::UnexpectedEvent);
                }
                Ok(self.on_response(response, now))
            },
            PipelineEvent::EngineExited => {
                if self.phase != Phase::Listening && self.phase != Phase::Scoring {
                    return Err(PipelineError::UnexpectedEvent);
                }
                self.engine.stop();
                self.phase = Phase::Starting;
                Ok(
                    PipelineStep {
                        action: PipelineAction::StartSession,
                        notice: Some(
                            PipelineNotice::ClassifierFailed(ClassifierError::ProcessTerminated),
                        ),
                    },
                )
            },
            PipelineEvent::Transcript(transcript) => {
                if self.phase != Phase::Transcribing {
                    return Err(PipelineError::UnexpectedEvent);
                }
                Ok(self.on_transcript(transcript))
            },
            PipelineEvent::Published => {
                if self.phase != Phase::Publishing {
                    return Err(PipelineError::UnexpectedEvent);
                }
                Ok(self.next_cycle(None))
            },
            PipelineEvent::ShutdownRequested => {
                self.engine.stop();
                self.phase = Phase::Stopped;
                Ok(PipelineStep { action: PipelineAction::Stop, notice: None })
            },
        }
    }
}

} // verus!
