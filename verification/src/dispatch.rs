//! The per-request dispatch state machine.
//!
//! One machine is created per incoming request and driven by the
//! surrounding executor: matching and responding are single synchronous
//! steps, extraction and handler invocation may suspend and be resumed
//! across polls.  Polling a finished machine is a contract violation,
//! not a recoverable error, so every transition requires the state it
//! steps from.

use vstd::prelude::*;

use crate::method::Methods;
use crate::router::{Recognize, RecognizeError};

verus! {

/// The control state of one request.
#[derive(Debug, PartialEq, Eq, Structural)]
pub enum DispatchState {
    /// The extractor pipeline of the matched endpoint is running.
    Extracting,
    /// The handler of the matched endpoint is running.
    Invoking,
    /// A response is being rendered.
    Responding,
    /// The response has been handed out.
    Done,
}

/// What the response will be rendered from.
#[derive(Debug)]
pub enum ResponseSource {
    /// The handler's own output.
    Handler,
    /// The handler's or an extractor's failure.
    Failure(crate::extractor::ExtractError),
    /// A recognition failure: the 404- or 405-equivalent.
    NotRecognized(RecognizeError),
    /// The synthetic `OPTIONS` answer with its `Allow` list.
    AllowList(Methods),
}

/// The dispatch state machine of one request.
#[derive(Debug)]
pub struct Dispatch {
    pub state: DispatchState,
    /// The matched endpoint, when one was matched.
    pub endpoint: Option<usize>,
    /// The text of each capture of the matched template.
    pub captures: Vec<String>,
    /// What the response will be rendered from; fixed no later than the
    /// transition into `Responding`.
    pub source: ResponseSource,
}

impl Dispatch {
    /// Starts a machine from the router's decision: a matched endpoint
    /// proceeds to extraction, everything else responds at once.
    pub fn new(recognition: Result<Recognize, RecognizeError>) -> (r: Dispatch)
        ensures
            match recognition {
                Ok(Recognize::Matched(i, caps)) => r.state == DispatchState::Extracting
                    && r.endpoint == Some(i) && r.captures@ == caps@ && r.source
                    is Handler,
                Ok(Recognize::Options(ms)) => r.state == DispatchState::Responding
                    && r.endpoint is None && (r.source matches
                ResponseSource::AllowList(got) && got == ms),
                Err(e) => r.state == DispatchState::Responding && r.endpoint is None && (
                r.source matches ResponseSource::NotRecognized(got) && got == e),
            },
    {
        match recognition {
            Ok(Recognize::Matched(i, caps)) => Dispatch {
                state: DispatchState::Extracting,
                endpoint: Some(i),
                captures: caps,
                source: ResponseSource::Handler,
            },
            Ok(Recognize::Options(ms)) => Dispatch {
                state: DispatchState::Responding,
                endpoint: None,
                captures: Vec::new(),
                source: ResponseSource::AllowList(ms),
            },
            Err(e) => Dispatch {
                state: DispatchState::Responding,
                endpoint: None,
                captures: Vec::new(),
                source: ResponseSource::NotRecognized(e),
            },
        }
    }

    /// Reports the extractor pipeline's poll: a finished pipeline moves
    /// on to the handler, a suspension stays in `Extracting` for the
    /// next poll, a failure goes to render that failure.
    pub fn on_extracted(&mut self, done: Result<bool, crate::extractor::ExtractError>)
        requires
            old(self).state == DispatchState::Extracting,
        ensures
            final(self).endpoint == old(self).endpoint,
            final(self).captures == old(self).captures,
            match done {
                Ok(true) => final(self).state == DispatchState::Invoking
                    && final(self).source == old(self).source,
                Ok(false) => *final(self) == *old(self),
                Err(e) => final(self).state == DispatchState::Responding
                    && (final(self).source matches ResponseSource::Failure(got) && got == e),
            },
    {
        match done {
            Ok(true) => self.state = DispatchState::Invoking,
            Ok(false) => {},
            Err(e) => {
                self.state = DispatchState::Responding;
                self.source = ResponseSource::Failure(e);
            },
        }
    }

    /// Reports the handler's poll: a finished handler goes to render
    /// its output, a suspension stays in `Invoking`, a failure goes to
    /// render that failure.
    pub fn on_invoked(&mut self, done: Result<bool, crate::extractor::ExtractError>)
        requires
            old(self).state == DispatchState::Invoking,
        ensures
            final(self).endpoint == old(self).endpoint,
            final(self).captures == old(self).captures,
            match done {
                Ok(true) => final(self).state == DispatchState::Responding
                    && final(self).source == old(self).source,
                Ok(false) => *final(self) == *old(self),
                Err(e) => final(self).state == DispatchState::Responding
                    && (final(self).source matches ResponseSource::Failure(got) && got == e),
            },
    {
        match done {
            Ok(true) => self.state = DispatchState::Responding,
            Ok(false) => {},
            Err(e) => {
                self.state = DispatchState::Responding;
                self.source = ResponseSource::Failure(e);
            },
        }
    }

    /// Reports that the response was rendered and handed to the
    /// transport: the machine is finished and must not be polled again.
    pub fn on_responded(&mut self)
        requires
            old(self).state == DispatchState::Responding,
        ensures
            final(self).state == DispatchState::Done,
            final(self).endpoint == old(self).endpoint,
            final(self).captures == old(self).captures,
            final(self).source == old(self).source,
    {
        self.state = DispatchState::Done;
    }

    /// Whether the machine may still be polled.
    pub fn is_done(&self) -> (r: bool)
        ensures
            r == (self.state == DispatchState::Done),
    {
        match self.state {
            DispatchState::Done => true,
            _ => false,
        }
    }
}

} // verus!
