//! Frame pacing: the decisions of a loop that renders at a fixed target rate.
//!
//! The loop itself reads the clock, sleeps, runs the per-frame callback and
//! writes the frame out. What it does next is decided here: a [`Scheduler`]
//! is told each thing that happened as a [`FrameEvent`] and answers with the
//! [`FrameAction`] to perform. All times are whole nanoseconds.

use crate::geometry::UVec2;
use crate::printing::{CharBuffer, CharBufferError, CharBufferView, RgbColor};
use vstd::prelude::*;

verus! {

/// The frame rate where none is asked for.
pub const DEFAULT_FPS: u32 = 10;

/// The nanoseconds in one second.
pub const NANOS_PER_SECOND: u64 = 1_000_000_000;

/// The character that fills a frame where none is asked for.
pub const DEFAULT_CHARACTER: char = ' ';

/// The colour that fills a frame where none is asked for: white.
pub open spec fn spec_default_color() -> RgbColor {
    RgbColor(255, 255, 255)
}

/// The colour that fills a frame where none is asked for: white.
#[verifier::when_used_as_spec(spec_default_color)]
pub fn default_color() -> (color: RgbColor)
    ensures
        color == spec_default_color(),
{
    RgbColor(255, 255, 255)
}

/// What the per-frame callback asks for: another frame, or the end of the
/// loop.
#[derive(Clone, Copy, Debug, PartialEq, Eq, Structural)]
pub enum ProcessNext {
    Continue,
    End,
}

/// Where the loop stands.
#[derive(Clone, Copy, Debug, PartialEq, Eq, Structural)]
pub enum Phase {
    /// Nothing has happened yet.
    Idle,
    /// The time since the previous frame's tick is being read, before any
    /// wait.
    Pacing,
    /// The loop is blocked to fill the frame period; the time since the tick
    /// is read again when it wakes.
    Sleeping,
    /// The callback is working on the frame.
    Processing,
    /// The finished frame is being written out.
    Emitting,
    /// The loop has ended.
    Done,
}

/// What happened in the loop.
#[derive(Clone, Copy, Debug, PartialEq, Eq, Structural)]
pub enum FrameEvent {
    /// The loop was entered.
    Started,
    /// The clock was read: so long ago was the previous frame's tick.
    Elapsed(u64),
    /// The callback returned.
    Processed(ProcessNext),
    /// The callback failed.
    Failed,
    /// The frame was written out.
    Emitted,
}

/// What the loop is to do next.
#[derive(Clone, Copy, Debug, PartialEq, Eq, Structural)]
pub enum FrameAction {
    /// Read the time since the previous tick and report it as
    /// [`FrameEvent::Elapsed`].
    Measure,
    /// Block for so long, then read the time since the previous tick and
    /// report it as [`FrameEvent::Elapsed`].
    Sleep(u64),
    /// Take the tick of the new frame, run the callback with this delta, and
    /// report [`FrameEvent::Processed`] or [`FrameEvent::Failed`].
    Process(u64),
    /// Write the frame out and report [`FrameEvent::Emitted`].
    Emit,
    /// Leave the loop: the callback asked for the end.
    Stop,
    /// Leave the loop with the callback's error, or because an event came
    /// that the phase does not expect.
    Abort,
}

/// The frame period in nanoseconds for a rate in frames per second, the
/// default rate where none is given.
pub open spec fn period_of(fps: Option<u32>) -> int {
    match fps {
        Some(rate) => NANOS_PER_SECOND as int / rate as int,
        None => NANOS_PER_SECOND as int / DEFAULT_FPS as int,
    }
}

/// The phase that follows and the action to perform when `event` comes in
/// `phase`, for a frame period of `period` nanoseconds.
///
/// The first frame is processed at once, with the period itself as its delta.
/// Before every later frame the time since the previous tick is read; where
/// it is less than the period the loop sleeps for the rest and reads it
/// again; what was read last is the frame's delta. After a frame the callback
/// decides: on `Continue` the frame is written out and the next one paced, on
/// `End` the loop stops, and a failure aborts it.
pub open spec fn transition(phase: Phase, period: u64, event: FrameEvent) -> (Phase, FrameAction) {
    match (phase, event) {
        (Phase::Idle, FrameEvent::Started) => (Phase::Processing, FrameAction::Process(period)),
        (Phase::Pacing, FrameEvent::Elapsed(elapsed)) => if elapsed < period {
            (Phase::Sleeping, FrameAction::Sleep((period - elapsed) as u64))
        } else {
            (Phase::Processing, FrameAction::Process(elapsed))
        },
        (Phase::Sleeping, FrameEvent::Elapsed(elapsed)) => (Phase::Processing, FrameAction::Process(elapsed)),
        (Phase::Processing, FrameEvent::Processed(ProcessNext::Continue)) => (Phase::Emitting, FrameAction::Emit),
        (Phase::Processing, FrameEvent::Processed(ProcessNext::End)) => (Phase::Done, FrameAction::Stop),
        (Phase::Emitting, FrameEvent::Emitted) => (Phase::Pacing, FrameAction::Measure),
        _ => (Phase::Done, FrameAction::Abort),
    }
}

/// The buffer that a frame loop starts with: of the given extent, filled with
/// the given character and colour, a white space where they are left out.
pub fn initial_buffer(dimensions: UVec2, character: Option<char>, color: Option<RgbColor>) -> (result: Result<
    CharBuffer,
    CharBufferError,
>)
    ensures
        match result {
            Ok(buffer) => {
                &&& CharBuffer::fits_index(dimensions)
                &&& buffer.wf()
                &&& buffer@ == CharBufferView::uniform(
                    dimensions,
                    (
                        match character {
                            Some(c) => c,
                            None => DEFAULT_CHARACTER,
                        },
                        match color {
                            Some(k) => k,
                            None => default_color(),
                        },
                    ),
                )
            },
            Err(e) => !CharBuffer::fits_index(dimensions) && e == CharBufferError::UsizeConversion,
        },
{
    let fill_character: char = match character {
        Some(c) => c,
        None => DEFAULT_CHARACTER,
    };
    let fill_color: RgbColor = match color {
        Some(k) => k,
        None => default_color(),
    };
    CharBuffer::new(dimensions, fill_character, fill_color)
}

/// The state of a frame loop: its target period and where it stands.
#[derive(Clone, Copy, Debug)]
pub struct Scheduler {
    period: u64,
    phase: Phase,
}

impl Scheduler {
    /// The target frame period in nanoseconds.
    pub closed spec fn period_spec(&self) -> u64 {
        self.period
    }

    /// Where the loop stands.
    pub closed spec fn phase_spec(&self) -> Phase {
        self.phase
    }

    /// A scheduler for the given rate in frames per second, ten where none is
    /// given, that has not started.
    pub fn new(fps: Option<u32>) -> (scheduler: Self)
        requires
            fps != Some(0u32),
        ensures
            scheduler.period_spec() == period_of(fps),
            scheduler.phase_spec() == Phase::Idle,
    {
        let rate: u32 = match fps {
            Some(rate) => rate,
            None => DEFAULT_FPS,
        };
        Scheduler { period: NANOS_PER_SECOND / (rate as u64), phase: Phase::Idle }
    }

    /// A scheduler for the given frame period in nanoseconds that has not
    /// started.
    pub fn with_period(period: u64) -> (scheduler: Self)
        ensures
            scheduler.period_spec() == period,
            scheduler.phase_spec() == Phase::Idle,
    {
        Scheduler { period, phase: Phase::Idle }
    }

    /// The target frame period in nanoseconds.
    pub fn period(&self) -> (period: u64)
        ensures
            period == self.period_spec(),
    {
        self.period
    }

    /// Where the loop stands.
    pub fn phase(&self) -> (phase: Phase)
        ensures
            phase == self.phase_spec(),
    {
        self.phase
    }

    /// Takes in what happened and says what to do next, as [`transition`]
    /// defines it.
    pub fn step(&mut self, event: FrameEvent) -> (action: FrameAction)
        ensures
            final(self).period_spec() == old(self).period_spec(),
            (final(self).phase_spec(), action) == transition(old(self).phase_spec(), old(self).period_spec(), event),
    {
        let (phase, action) = match (self.phase, event) {
            (Phase::Idle, FrameEvent::Started) => (Phase::Processing, FrameAction::Process(self.period)),
            (Phase::Pacing, FrameEvent::Elapsed(elapsed)) => if elapsed < self.period {
                (Phase::Sleeping, FrameAction::Sleep(self.period - elapsed))
            } else {
                (Phase::Processing, FrameAction::Process(elapsed))
            },
            (Phase::Sleeping, FrameEvent::Elapsed(elapsed)) => (Phase::Processing, FrameAction::Process(elapsed)),
            (Phase::Processing, FrameEvent::Processed(ProcessNext::Continue)) => (Phase::Emitting, FrameAction::Emit),
            (Phase::Processing, FrameEvent::Processed(ProcessNext::End)) => (Phase::Done, FrameAction::Stop),
            (Phase::Emitting, FrameEvent::Emitted) => (Phase::Pacing, FrameAction::Measure),
            _ => (Phase::Done, FrameAction::Abort),
        };
        self.phase = phase;
        action
    }
}

/// A sleep fills the period: it is only ordered after a measurement below
/// the period, and the time measured and the time slept add up to the
/// period.
pub proof fn lemma_sleep_fills_the_period(phase: Phase, period: u64, event: FrameEvent, nanos: u64)
    requires
        transition(phase, period, event).1 == FrameAction::Sleep(nanos),
    ensures
        phase == Phase::Pacing,
        event matches FrameEvent::Elapsed(elapsed) && elapsed < period && elapsed + nanos == period,
        transition(phase, period, event).0 == Phase::Sleeping,
{
}

/// No frame is processed with a delta below the period, unless a sleep that
/// was ordered to fill the period ended early.
pub proof fn lemma_delta_is_at_least_the_period(phase: Phase, period: u64, event: FrameEvent, delta: u64)
    requires
        transition(phase, period, event).1 == FrameAction::Process(delta),
        phase != Phase::Sleeping,
    ensures
        delta >= period,
{
}

/// A frame is written out only after the callback has asked to continue,
/// and the loop never leaves its end.
pub proof fn lemma_emit_follows_continue(phase: Phase, period: u64, event: FrameEvent)
    ensures
        transition(phase, period, event).1 == FrameAction::Emit <==> phase == Phase::Processing && event
            == FrameEvent::Processed(ProcessNext::Continue),
        phase == Phase::Done ==> transition(phase, period, event) == (Phase::Done, FrameAction::Abort),
{
}

} // verus!
