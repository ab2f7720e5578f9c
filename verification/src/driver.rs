//! The decisions of a run: what to do next, given what just happened. The
//! surroundings draw the samples and write the digests; the driver only says
//! which of the two is due, and when the run is over.

use crate::pipeline::{step, Pipeline, PipelineState};
use vstd::prelude::*;

verus! {

/// Why a run is over.
#[derive(Debug, Clone, Copy, PartialEq, Eq, Structural)]
pub enum Halt {
    /// The source has no more samples. What was gathered towards the next
    /// digest is dropped.
    SourceEnded,
    /// A digest could not be written. The run cannot go on after that.
    SinkFailed,
}

/// What the surroundings report.
#[derive(Debug, Clone, Copy, PartialEq, Eq, Structural)]
pub enum Event {
    /// The source gave a sample.
    Sample(bool),
    /// The digest handed out last was written and flushed.
    Written,
    /// The digest handed out last could not be written or flushed.
    WriteFailed,
    /// The source has come to its end.
    SourceEnded,
}

/// What the surroundings are to do next.
#[derive(Debug, PartialEq, Eq)]
pub enum Action {
    /// Draw the next sample, waiting for it as long as it takes.
    Draw,
    /// Write these 32 bytes and flush.
    Write(Vec<u8>),
    /// Stop: the run is over.
    Stop(Halt),
}

/// What a driver remembers between two events.
pub struct DriverState {
    pub pipeline: PipelineState,
    pub halted: Option<Halt>,
}

/// The driver of one run.
pub struct Driver {
    pipeline: Pipeline,
    halted: Option<Halt>,
}

impl View for Driver {
    type V = DriverState;

    closed spec fn view(&self) -> DriverState {
        DriverState { pipeline: self.pipeline@, halted: self.halted }
    }
}

impl Driver {
    /// A driver at the start of a run. The first thing to do is to draw.
    pub fn new() -> (driver: Self)
        ensures
            driver@ == (DriverState { pipeline: PipelineState::fresh(), halted: None }),
    {
        Driver { pipeline: Pipeline::new(), halted: None }
    }

    /// Says what is due after `event`.
    ///
    /// A run that is over stays over: whatever is reported, the answer is to
    /// stop, for the reason given first. Otherwise a sample goes through the
    /// pipeline and the digest that it completes, if any, is to be written; a
    /// digest written is followed by the next draw; a failed write and the end
    /// of the source each end the run.
    pub fn handle(&mut self, event: Event) -> (action: Action)
        ensures
            old(self)@.halted matches Some(halt) ==> final(self)@ == old(self)@ && action
                == Action::Stop(halt),
            old(self)@.halted.is_none() ==> match event {
                Event::Sample(bit) => final(self)@ == (DriverState {
                    pipeline: step(old(self)@.pipeline, bit).0,
                    halted: None,
                }) && match action {
                    Action::Write(digest) => step(old(self)@.pipeline, bit).1 == Some(digest@)
                        && digest@.len() == 32,
                    Action::Draw => step(old(self)@.pipeline, bit).1.is_none(),
                    Action::Stop(_) => false,
                },
                Event::Written => final(self)@ == old(self)@ && action == Action::Draw,
                Event::WriteFailed => final(self)@ == (DriverState {
                    halted: Some(Halt::SinkFailed),
                    ..old(self)@
                }) && action == Action::Stop(Halt::SinkFailed),
                Event::SourceEnded => final(self)@ == (DriverState {
                    halted: Some(Halt::SourceEnded),
                    ..old(self)@
                }) && action == Action::Stop(Halt::SourceEnded),
            },
    {
        match self.halted {
            Some(halt) => Action::Stop(halt),
            None => match event {
                Event::Sample(bit) => match self.pipeline.push(bit) {
                    Some(digest) => Action::Write(digest),
                    None => Action::Draw,
                },
                Event::Written => Action::Draw,
                Event::WriteFailed => {
                    self.halted = Some(Halt::SinkFailed);
                    Action::Stop(Halt::SinkFailed)
                },
                Event::SourceEnded => {
                    self.halted = Some(Halt::SourceEnded);
                    Action::Stop(Halt::SourceEnded)
                },
            },
        }
    }
}

} // verus!
