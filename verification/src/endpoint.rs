//! Endpoint detection: deciding, chunk by chunk, when an utterance is over.
//!
//! A detector is started when the wakeword fires. It carries the loudness of
//! the triggering chunk as its baseline and the time at which it was started.
//! It first waits for the minimum duration of an utterance to pass, then for a
//! chunk that is clearly quieter than the baseline.
//!
//! Times are nanoseconds on a monotonic clock of the caller's choosing.

use crate::buffer::append;
use crate::energy::{loudness, rms};
use vstd::prelude::*;

verus! {

/// The time that must have passed before silence can end an utterance.
pub const MINIMUM_DURATION_NANOS: u64 = 1_000_000_000;

/// Where the detector stands.
#[derive(Clone, Copy, Debug, PartialEq, Eq, Structural)]
pub enum EndpointState {
    /// Speech has begun; the minimum duration has not been seen to pass.
    AwaitingMinimumDuration,
    /// The minimum duration is over; a quiet chunk ends the utterance.
    WaitingForSilence,
    /// The utterance is over. Nothing leads out of this state.
    Ended,
}

/// Why a chunk was turned away.
#[derive(Clone, Copy, Debug, PartialEq, Eq, Structural)]
pub enum CaptureError {
    /// The chunk holds no samples, so it has no loudness.
    EmptyChunk,
}

/// What a detector is, mathematically.
pub struct DetectorModel {
    pub state: EndpointState,
    pub baseline: nat,
    pub start_time: nat,
}

/// Loudness below which a chunk counts as silence: nine tenths of the
/// baseline, rounded down.
pub open spec fn stop_level(baseline: nat) -> nat {
    baseline * 9 / 10
}

/// Time passed since `start`; a clock reading before `start` counts as none.
pub open spec fn elapsed(start: nat, now: nat) -> nat {
    if now >= start {
        (now - start) as nat
    } else {
        0
    }
}

/// The state after a chunk of the given loudness, read at time `now`.
pub open spec fn next_state(m: DetectorModel, level: nat, now: nat) -> EndpointState {
    match m.state {
        EndpointState::AwaitingMinimumDuration => if elapsed(m.start_time, now)
            > MINIMUM_DURATION_NANOS {
            EndpointState::WaitingForSilence
        } else {
            EndpointState::AwaitingMinimumDuration
        },
        EndpointState::WaitingForSilence => if level < stop_level(m.baseline) {
            EndpointState::Ended
        } else {
            EndpointState::WaitingForSilence
        },
        EndpointState::Ended => EndpointState::Ended,
    }
}

/// The detector after one chunk: only its state moves.
pub open spec fn advance(m: DetectorModel, level: nat, now: nat) -> DetectorModel {
    DetectorModel {
        state: next_state(m, level, now),
        baseline: m.baseline,
        start_time: m.start_time,
    }
}

/// The detector after a sequence of chunks, each given as its loudness and the
/// time at which it was read.
pub open spec fn run(m: DetectorModel, inputs: Seq<(nat, nat)>) -> DetectorModel
    decreases inputs.len(),
{
    if inputs.len() == 0 {
        m
    } else {
        advance(run(m, inputs.drop_last()), inputs.last().0, inputs.last().1)
    }
}

/// A chunk read more than the minimum duration after the start moves a
/// waiting detector on, whatever its loudness.
pub proof fn lemma_minimum_duration_step(m: DetectorModel, level: nat, now: nat)
    requires
        m.state == EndpointState::AwaitingMinimumDuration,
        now > m.start_time + MINIMUM_DURATION_NANOS,
    ensures
        advance(m, level, now).state == EndpointState::WaitingForSilence,
{
}

/// A detector never returns to waiting for the minimum duration.
pub proof fn lemma_never_back_to_awaiting(m: DetectorModel, inputs: Seq<(nat, nat)>)
    requires
        m.state != EndpointState::AwaitingMinimumDuration,
    ensures
        run(m, inputs).state != EndpointState::AwaitingMinimumDuration,
    decreases inputs.len(),
{
    if inputs.len() > 0 {
        lemma_never_back_to_awaiting(m, inputs.drop_last());
    }
}

/// Baseline and start time stay as they were set.
pub proof fn lemma_run_keeps_calibration(m: DetectorModel, inputs: Seq<(nat, nat)>)
    ensures
        run(m, inputs).baseline == m.baseline,
        run(m, inputs).start_time == m.start_time,
    decreases inputs.len(),
{
    if inputs.len() > 0 {
        lemma_run_keeps_calibration(m, inputs.drop_last());
    }
}

/// Feeding chunks past the minimum duration cannot leave the detector where it
/// began: once one chunk was read more than the minimum duration after the
/// start, the detector has moved on for good.
pub proof fn lemma_minimum_duration_forces_advance(
    m: DetectorModel,
    inputs: Seq<(nat, nat)>,
    late: int,
)
    requires
        m.state == EndpointState::AwaitingMinimumDuration,
        0 <= late < inputs.len(),
        inputs[late].1 > m.start_time + MINIMUM_DURATION_NANOS,
    ensures
        run(m, inputs).state != EndpointState::AwaitingMinimumDuration,
    decreases inputs.len(),
{
    let front = inputs.drop_last();
    lemma_run_keeps_calibration(m, front);
    if late < front.len() {
        assert(front[late] == inputs[late]);
        lemma_minimum_duration_forces_advance(m, front, late);
    }
}

/// Once the detector waits for silence, a chunk at or above the stop level
/// leaves it unchanged, and a chunk below the stop level ends the utterance.
/// A chunk of at least nine tenths of the baseline is at or above the stop
/// level.
pub proof fn lemma_silence_decides(m: DetectorModel, level: nat, now: nat)
    requires
        m.state == EndpointState::WaitingForSilence,
    ensures
        level >= stop_level(m.baseline) ==> advance(m, level, now) == m,
        level < stop_level(m.baseline) ==> advance(m, level, now).state == EndpointState::Ended,
        10 * level >= 9 * m.baseline ==> advance(m, level, now) == m,
{
}

/// `Ended` is absorbing: no input changes an ended detector.
pub proof fn lemma_ended_is_absorbing(m: DetectorModel, inputs: Seq<(nat, nat)>)
    requires
        m.state == EndpointState::Ended,
    ensures
        run(m, inputs) == m,
    decreases inputs.len(),
{
    if inputs.len() > 0 {
        lemma_ended_is_absorbing(m, inputs.drop_last());
    }
}

/// Decides when the utterance that follows a wakeword has ended.
pub struct EndpointDetector {
    state: EndpointState,
    baseline: u16,
    start_time: u64,
}

impl View for EndpointDetector {
    type V = DetectorModel;

    closed spec fn view(&self) -> DetectorModel {
        DetectorModel {
            state: self.state,
            baseline: self.baseline as nat,
            start_time: self.start_time as nat,
        }
    }
}

impl EndpointDetector {
    /// A detector for an utterance that begins at `now`, calibrated with the
    /// loudness of the chunk in which the wakeword was heard.
    pub fn new(baseline: u16, now: u64) -> (detector: Self)
        ensures
            detector@ == (DetectorModel {
                state: EndpointState::AwaitingMinimumDuration,
                baseline: baseline as nat,
                start_time: now as nat,
            }),
    {
        EndpointDetector {
            state: EndpointState::AwaitingMinimumDuration,
            baseline,
            start_time: now,
        }
    }

    /// The current state.
    pub fn state(&self) -> (state: EndpointState)
        ensures
            state == self@.state,
    {
        self.state
    }

    /// Whether the utterance is over.
    pub fn is_ended(&self) -> (ended: bool)
        ensures
            ended <==> self@.state == EndpointState::Ended,
    {
        match self.state {
            EndpointState::Ended => true,
            _ => false,
        }
    }

    /// The loudness the detector was calibrated with.
    pub fn baseline(&self) -> (baseline: u16)
        ensures
            baseline as nat == self@.baseline,
    {
        self.baseline
    }

    /// The time at which the detector was started.
    pub fn start_time(&self) -> (start: u64)
        ensures
            start as nat == self@.start_time,
    {
        self.start_time
    }

    /// The loudness below which a chunk counts as silence.
    pub fn stop_level(&self) -> (level: u16)
        ensures
            level as nat == stop_level(self@.baseline),
    {
        let scaled: u32 = (self.baseline as u32) * 9;
        (scaled / 10) as u16
    }

    /// Takes note of one chunk, given by its loudness and the time at which it
    /// was read, and returns the state it leaves the detector in.
    pub fn step(&mut self, level: u16, now: u64) -> (state: EndpointState)
        ensures
            final(self)@ == advance(old(self)@, level as nat, now as nat),
            state == final(self)@.state,
    {
        match self.state {
            EndpointState::AwaitingMinimumDuration => {
                let passed: u64 = if now >= self.start_time {
                    now - self.start_time
                } else {
                    0
                };
                if passed > MINIMUM_DURATION_NANOS {
                    self.state = EndpointState::WaitingForSilence;
                }
            },
            EndpointState::WaitingForSilence => {
                if level < self.stop_level() {
                    self.state = EndpointState::Ended;
                }
            },
            EndpointState::Ended => {},
        }
        self.state
    }

    /// Takes note of one non-empty chunk read at time `now`.
    pub fn feed(&mut self, chunk: &[i16], now: u64) -> (state: EndpointState)
        requires
            chunk@.len() > 0,
        ensures
            final(self)@ == advance(old(self)@, loudness(chunk@), now as nat),
            state == final(self)@.state,
    {
        let level: u16 = rms(chunk);
        self.step(level, now)
    }
}

/// What a collector is, mathematically: its detector and the samples gathered
/// so far.
pub struct CollectorModel {
    pub detector: DetectorModel,
    pub utterance: Seq<i16>,
}

/// The collector after it was offered one chunk. An ended collector takes
/// nothing more, and an empty chunk is never taken; any other chunk is appended
/// to the utterance, the one that ends the utterance included.
pub open spec fn accept(m: CollectorModel, chunk: Seq<i16>, now: nat) -> CollectorModel {
    if m.detector.state == EndpointState::Ended || chunk.len() == 0 {
        m
    } else {
        CollectorModel {
            detector: advance(m.detector, loudness(chunk), now),
            utterance: m.utterance + chunk,
        }
    }
}

/// The collector after it was offered a sequence of chunks, each with the time
/// at which it was read.
pub open spec fn collect(m: CollectorModel, inputs: Seq<(Seq<i16>, nat)>) -> CollectorModel
    decreases inputs.len(),
{
    if inputs.len() == 0 {
        m
    } else {
        accept(collect(m, inputs.drop_last()), inputs.last().0, inputs.last().1)
    }
}

/// The collector with which the capture of an utterance begins.
pub open spec fn fresh_collector(baseline: nat, start_time: nat) -> CollectorModel {
    CollectorModel {
        detector: DetectorModel {
            state: EndpointState::AwaitingMinimumDuration,
            baseline,
            start_time,
        },
        utterance: Seq::empty(),
    }
}

/// All samples of the given chunks, in order.
pub open spec fn joined(inputs: Seq<(Seq<i16>, nat)>) -> Seq<i16>
    decreases inputs.len(),
{
    if inputs.len() == 0 {
        Seq::empty()
    } else {
        joined(inputs.drop_last()) + inputs.last().0
    }
}

/// The chunk that ends the utterance is part of it: a quiet chunk offered to a
/// collector that waits for silence ends the utterance and is appended.
pub proof fn lemma_boundary_chunk_is_kept(m: CollectorModel, chunk: Seq<i16>, now: nat)
    requires
        m.detector.state == EndpointState::WaitingForSilence,
        chunk.len() > 0,
        loudness(chunk) < stop_level(m.detector.baseline),
    ensures
        accept(m, chunk, now).detector.state == EndpointState::Ended,
        accept(m, chunk, now).utterance == m.utterance + chunk,
{
}

/// Nothing is added to an utterance that has ended.
pub proof fn lemma_collect_after_end(m: CollectorModel, inputs: Seq<(Seq<i16>, nat)>)
    requires
        m.detector.state == EndpointState::Ended,
    ensures
        collect(m, inputs) == m,
    decreases inputs.len(),
{
    if inputs.len() > 0 {
        lemma_collect_after_end(m, inputs.drop_last());
    }
}

/// Offering one sequence of chunks and then another is offering both in a row.
pub proof fn lemma_collect_split(
    m: CollectorModel,
    first: Seq<(Seq<i16>, nat)>,
    second: Seq<(Seq<i16>, nat)>,
)
    ensures
        collect(m, first + second) == collect(collect(m, first), second),
    decreases second.len(),
{
    if second.len() == 0 {
        assert(first + second =~= first);
    } else {
        lemma_collect_split(m, first, second.drop_last());
        assert((first + second).drop_last() =~= first + second.drop_last());
        assert((first + second).last() == second.last());
    }
}

/// An utterance is made of exactly the chunks offered up to its end: if the
/// utterance has not ended before the last of the given chunks, all of them are
/// in it, in order, behind what was gathered before.
pub proof fn lemma_collect_keeps_every_chunk(m: CollectorModel, inputs: Seq<(Seq<i16>, nat)>)
    requires
        inputs.len() > 0 ==> collect(m, inputs.drop_last()).detector.state
            != EndpointState::Ended,
    ensures
        collect(m, inputs).utterance == m.utterance + joined(inputs),
    decreases inputs.len(),
{
    if inputs.len() == 0 {
        assert(m.utterance + joined(inputs) =~= m.utterance);
    } else {
        let front = inputs.drop_last();
        if front.len() > 0 {
            // An ended collector stays ended, so the one before was not ended either.
            if collect(m, front.drop_last()).detector.state == EndpointState::Ended {
                assert(collect(m, front) == collect(m, front.drop_last()));
            }
        }
        lemma_collect_keeps_every_chunk(m, front);
        assert((m.utterance + joined(front)) + inputs.last().0 =~= m.utterance + joined(inputs));
        if inputs.last().0.len() == 0 {
            assert(joined(front) + inputs.last().0 =~= joined(front));
        }
    }
}

/// The utterance of a capture that ended at the chunk with index `last` holds
/// the chunks up to and including that one, and none that came after.
pub proof fn lemma_utterance_is_chunks_up_to_end(
    m: CollectorModel,
    inputs: Seq<(Seq<i16>, nat)>,
    last: int,
)
    requires
        0 <= last < inputs.len(),
        collect(m, inputs.take(last)).detector.state != EndpointState::Ended,
        collect(m, inputs.take(last + 1)).detector.state == EndpointState::Ended,
    ensures
        collect(m, inputs).utterance == m.utterance + joined(inputs.take(last + 1)),
        collect(m, inputs).detector.state == EndpointState::Ended,
{
    let head = inputs.take(last + 1);
    let tail = inputs.skip(last + 1);
    assert(head + tail =~= inputs);
    lemma_collect_split(m, head, tail);
    lemma_collect_after_end(collect(m, head), tail);
    assert(head.drop_last() =~= inputs.take(last));
    lemma_collect_keeps_every_chunk(m, head);
}

/// The inputs that a list of chunks with their read times stands for.
pub open spec fn inputs_of(chunks: Seq<(Vec<i16>, u64)>) -> Seq<(Seq<i16>, nat)> {
    Seq::new(chunks.len(), |i: int| (chunks[i].0@, chunks[i].1 as nat))
}

/// Gathers the samples of one utterance while its detector runs.
pub struct SentenceCollector {
    detector: EndpointDetector,
    utterance: Vec<i16>,
}

impl View for SentenceCollector {
    type V = CollectorModel;

    closed spec fn view(&self) -> CollectorModel {
        CollectorModel { detector: self.detector@, utterance: self.utterance@ }
    }
}

impl SentenceCollector {
    /// A collector for an utterance that begins at `now`, with the loudness of
    /// the wakeword chunk as the normal level of speech.
    pub fn new(normal_level: u16, now: u64) -> (collector: Self)
        ensures
            collector@ == fresh_collector(normal_level as nat, now as nat),
    {
        SentenceCollector {
            detector: EndpointDetector::new(normal_level, now),
            utterance: Vec::new(),
        }
    }

    /// The state of the detector.
    pub fn state(&self) -> (state: EndpointState)
        ensures
            state == self@.detector.state,
    {
        self.detector.state()
    }

    /// Whether the utterance is complete.
    pub fn is_ended(&self) -> (ended: bool)
        ensures
            ended <==> self@.detector.state == EndpointState::Ended,
    {
        self.detector.is_ended()
    }

    /// The loudness below which a chunk counts as silence.
    pub fn stop_level(&self) -> (level: u16)
        ensures
            level as nat == stop_level(self@.detector.baseline),
    {
        self.detector.stop_level()
    }

    /// The samples gathered so far.
    pub fn utterance(&self) -> (samples: &Vec<i16>)
        ensures
            samples@ == self@.utterance,
    {
        &self.utterance
    }

    /// Gives up the collector for the samples it gathered.
    pub fn into_utterance(self) -> (samples: Vec<i16>)
        ensures
            samples@ == self@.utterance,
    {
        self.utterance
    }

    /// Hands out the samples gathered so far and leaves none behind. The
    /// detector stays as it is.
    pub fn take_utterance(&mut self) -> (samples: Vec<i16>)
        ensures
            samples@ == old(self)@.utterance,
            final(self)@ == (CollectorModel {
                detector: old(self)@.detector,
                utterance: Seq::empty(),
            }),
    {
        let mut samples: Vec<i16> = Vec::new();
        core::mem::swap(&mut self.utterance, &mut samples);
        samples
    }

    /// Offers one chunk, read at time `now`.
    ///
    /// An ended collector answers `Ended` and takes nothing. Otherwise an
    /// empty chunk is turned away, and any other chunk is appended to the
    /// utterance and shown to the detector.
    pub fn push_chunk(&mut self, chunk: &[i16], now: u64) -> (result: Result<
        EndpointState,
        CaptureError,
    >)
        ensures
            final(self)@ == accept(old(self)@, chunk@, now as nat),
            result is Err <==> old(self)@.detector.state != EndpointState::Ended && chunk@.len()
                == 0,
            result matches Ok(state) ==> state == final(self)@.detector.state,
            result matches Err(e) ==> e == CaptureError::EmptyChunk,
    {
        if self.detector.is_ended() {
            return Ok(EndpointState::Ended);
        }
        if chunk.len() == 0 {
            return Err(CaptureError::EmptyChunk);
        }
        append(&mut self.utterance, chunk);
        let state: EndpointState = self.detector.feed(chunk, now);
        Ok(state)
    }
}

/// Runs the capture of one utterance over chunks that were read beforehand,
/// each with the time at which it was read: the chunks are offered in order
/// until the utterance has ended or none is left. Returns the utterance and the
/// state in which the capture stopped.
pub fn collect_sentence(
    chunks: &Vec<(Vec<i16>, u64)>,
    normal_level: u16,
    start_time: u64,
) -> (result: (Vec<i16>, EndpointState))
    ensures
        result.0@ == collect(
            fresh_collector(normal_level as nat, start_time as nat),
            inputs_of(chunks@),
        ).utterance,
        result.1 == collect(
            fresh_collector(normal_level as nat, start_time as nat),
            inputs_of(chunks@),
        ).detector.state,
{
    let ghost begin = fresh_collector(normal_level as nat, start_time as nat);
    let ghost inputs = inputs_of(chunks@);
    let mut collector = SentenceCollector::new(normal_level, start_time);
    let mut i: usize = 0;
    while i < chunks.len() && !collector.is_ended()
        invariant
            i <= chunks.len(),
            inputs == inputs_of(chunks@),
            collector@ == collect(begin, inputs.take(i as int)),
        decreases chunks.len() - i,
    {
        let _ = collector.push_chunk(chunks[i].0.as_slice(), chunks[i].1);
        proof {
            assert(inputs.take(i + 1).drop_last() =~= inputs.take(i as int));
            assert(inputs.take(i + 1).last() == inputs[i as int]);
        }
        i = i + 1;
    }
    proof {
        let head = inputs.take(i as int);
        let tail = inputs.skip(i as int);
        assert(head + tail =~= inputs);
        lemma_collect_split(begin, head, tail);
        if i < chunks.len() {
            lemma_collect_after_end(collect(begin, head), tail);
        } else {
            assert(head =~= inputs);
        }
    }
    let state: EndpointState = collector.state();
    (collector.into_utterance(), state)
}

} // verus!
