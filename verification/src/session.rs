//! The state machine of one generation call.
//!
//! A call owns one connection for its duration.  The caller performs the
//! transport work — connecting, reading the status, pulling chunks — and
//! reports each outcome here; every decision about what that outcome
//! means is made, and proved, in this module.  The machine moves forward
//! only: setup failures and a non-success status end it before any
//! streaming, a mid-stream failure ends it losing the partial text, and a
//! clean close hands the gathered text out.  No transition retries or
//! returns to an earlier state.

use vstd::prelude::*;
use crate::error::GenerateError;
use crate::reassembler::{Reassembler, chunk_text};

verus! {

/// Where a generation call stands.  The final reading-out is not a
/// stored state: [`Session::finish`] consumes the machine.
pub enum SessionPhase {
    /// The request is being set up; nothing has been received.
    Init,
    /// The upstream service answered with a non-success status; its
    /// error body is still to be read.
    AwaitingErrorBody { status: u16 },
    /// The status was a success; the first chunk has yet to arrive.
    AwaitingFirstChunk,
    /// At least one chunk has arrived and been folded into the text.
    Streaming,
    /// The call failed; nothing more will be accumulated.
    Failed { error: GenerateError },
}

/// One generation call: its phase and the text gathered so far.
pub struct Session {
    pub phase: SessionPhase,
    pub text: Reassembler,
}

impl Session {
    /// A fresh call: nothing received, nothing gathered.
    pub fn new() -> (r: Self)
        ensures
            r.phase matches SessionPhase::Init,
            r.text@ == Seq::<char>::empty(),
    {
        Session { phase: SessionPhase::Init, text: Reassembler::new() }
    }

    /// The connection could not be made: the call fails with a transport
    /// error before any streaming.
    pub fn on_connect_failed(&mut self, message: String)
        requires
            old(self).phase matches SessionPhase::Init,
        ensures
            final(self).phase == (SessionPhase::Failed {
                error: GenerateError::Transport { message },
            }),
            final(self).text@ == old(self).text@,
    {
        self.phase = SessionPhase::Failed { error: GenerateError::Transport { message } };
    }

    /// The response headers arrived.  A success status (200–299) moves
    /// the call to awaiting its first chunk; any other status is an
    /// upstream error, and the result tells the caller to read the error
    /// body and report it.
    pub fn on_status(&mut self, status: u16) -> (need_body: bool)
        requires
            old(self).phase matches SessionPhase::Init,
        ensures
            need_body == !(200 <= status < 300),
            200 <= status < 300 ==> final(self).phase matches SessionPhase::AwaitingFirstChunk,
            !(200 <= status < 300) ==> final(self).phase == (SessionPhase::AwaitingErrorBody {
                status,
            }),
            final(self).text@ == old(self).text@,
    {
        if 200 <= status && status < 300 {
            self.phase = SessionPhase::AwaitingFirstChunk;
            false
        } else {
            self.phase = SessionPhase::AwaitingErrorBody { status };
            true
        }
    }

    /// The error body of a non-success response was read: the call fails
    /// with the upstream status and that body, and no text survives.
    pub fn on_error_body(&mut self, body: String)
        requires
            old(self).phase matches SessionPhase::AwaitingErrorBody { status: _ },
        ensures
            final(self).phase == (SessionPhase::Failed {
                error: GenerateError::Upstream { status: old(self).phase->status, body },
            }),
            final(self).text@ == old(self).text@,
    {
        let status = match self.phase {
            SessionPhase::AwaitingErrorBody { status } => status,
            _ => 0,
        };
        self.phase = SessionPhase::Failed { error: GenerateError::Upstream { status, body } };
    }

    /// One chunk arrived: the gathered text grows by exactly what the
    /// chunk contributes, and the call is streaming.
    pub fn on_chunk(&mut self, chunk: &[u8])
        requires
            old(self).phase matches SessionPhase::AwaitingFirstChunk || old(
                self,
            ).phase matches SessionPhase::Streaming,
        ensures
            final(self).phase matches SessionPhase::Streaming,
            final(self).text@ == old(self).text@ + chunk_text(chunk@),
    {
        self.phase = SessionPhase::Streaming;
        self.text.push_chunk(chunk);
    }

    /// The connection was cut while streaming: the call fails with a
    /// transport error and the partial text is lost.
    pub fn on_chunk_failed(&mut self, message: String)
        requires
            old(self).phase matches SessionPhase::AwaitingFirstChunk || old(
                self,
            ).phase matches SessionPhase::Streaming,
        ensures
            final(self).phase == (SessionPhase::Failed {
                error: GenerateError::Transport { message },
            }),
            final(self).text@ == old(self).text@,
    {
        self.phase = SessionPhase::Failed { error: GenerateError::Transport { message } };
    }

    /// The stream closed (or the call had already failed): a failed call
    /// yields its error and no text at all; a clean close yields exactly
    /// the gathered text.
    pub fn finish(self) -> (r: Result<String, GenerateError>)
        requires
            !(self.phase matches SessionPhase::Init),
            !(self.phase matches SessionPhase::AwaitingErrorBody { status: _ }),
        ensures
            match self.phase {
                SessionPhase::Failed { error } => r == Err::<String, GenerateError>(error),
                _ => r matches Ok(t) && t@ == self.text@,
            },
    {
        match self.phase {
            SessionPhase::Failed { error } => Err(error),
            _ => Ok(self.text.into_text()),
        }
    }
}

} // verus!
