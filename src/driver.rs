//! Decisions of the stream loop: how much to read at a time, and whether the
//! loop goes on after a read or a write.
use vstd::prelude::*;
use crate::pipe::{step_of, EPIPE, TransferStep, WriteError};

verus! {

/// Bytes read at a time when the input's capacity is not known.
pub const DEFAULT_CHUNK_SIZE: usize = 65536;

/// Whether the stream loop goes on.
#[derive(Debug, Clone, Copy, PartialEq, Eq, Structural)]
pub enum Flow {
    Continue,
    Stop,
}

/// The size of the input chunks: the pipe's maximum capacity where the input
/// is a pipe whose maximum is known, else the default.
pub fn chunk_size(input_pipe_max: Option<usize>) -> (r: usize)
    ensures
        r == match input_pipe_max {
            Some(m) => m,
            None => DEFAULT_CHUNK_SIZE,
        },
{
    match input_pipe_max {
        Some(m) => m,
        None => DEFAULT_CHUNK_SIZE,
    }
}

/// A read of `n` bytes: none means the input has ended.
pub fn after_read(n: usize) -> (r: Flow)
    ensures
        r == (if n == 0 { Flow::Stop } else { Flow::Continue }),
{
    if n == 0 {
        Flow::Stop
    } else {
        Flow::Continue
    }
}

/// What follows a write: a reader that has gone ends the stream normally;
/// any other failure is fatal.
pub open spec fn flow_after_write(res: Result<(), WriteError>) -> Result<Flow, WriteError> {
    match res {
        Ok(()) => Ok(Flow::Continue),
        Err(WriteError::BrokenPipe) => Ok(Flow::Stop),
        Err(e) => Err(e),
    }
}

/// Decides what follows a write of a decoded frame.
pub fn after_write(res: Result<(), WriteError>) -> (r: Result<Flow, WriteError>)
    ensures
        r == flow_after_write(res),
{
    match res {
        Ok(()) => Ok(Flow::Continue),
        Err(WriteError::BrokenPipe) => Ok(Flow::Stop),
        Err(e) => Err(e),
    }
}

/// A reader that closes its end of the pipe in the middle of a transfer ends
/// the stream cleanly: the transfer fails as a broken pipe, and the loop
/// stops without an error.
pub proof fn lemma_closed_reader_ends_cleanly(remaining: nat)
    ensures
        step_of(remaining, Err(EPIPE)) == TransferStep::Failed(WriteError::BrokenPipe),
        flow_after_write(Err(WriteError::BrokenPipe)) == Ok::<Flow, WriteError>(Flow::Stop),
{
}

} // verus!
