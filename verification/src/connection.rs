//! The bytes that have come from a peer and were not yet taken as frames.

use vstd::prelude::*;
use vstd::slice::slice_subrange;
use crate::frame::{decode, decoding, write_all, Decoded, Frame, FrameError};

verus! {

/// How a connection ends when its peer sends no more.
#[derive(Debug, Clone, Copy, PartialEq, Eq, Structural)]
pub enum Closing {
    /// The peer stopped between two frames.
    Clean,
    /// The peer stopped inside a frame.
    ResetByPeer,
    /// The peer sent bytes that are no frame.
    Malformed,
    /// The server is shutting down.
    Shutdown,
}

/// What a connection does next, between two frames.
#[derive(Debug)]
pub enum Step {
    /// A request has come whole: carry it out and write the answer.
    Dispatch(Frame),
    /// No whole request waits: read more bytes.
    Read,
    /// Stop serving this peer.
    Close(Closing),
}

/// A growable accumulator of received bytes.
pub struct ReadBuffer {
    data: Vec<u8>,
}

impl View for ReadBuffer {
    type V = Seq<u8>;

    closed spec fn view(&self) -> Seq<u8> {
        self.data@
    }
}

impl ReadBuffer {
    /// A buffer that holds nothing.
    pub fn new() -> (r: ReadBuffer)
        ensures
            r@ == Seq::<u8>::empty(),
    {
        ReadBuffer { data: Vec::new() }
    }

    /// The number of bytes that wait in the buffer.
    pub fn len(&self) -> (r: usize)
        ensures
            r == self@.len(),
    {
        self.data.len()
    }

    /// Adds bytes that have just come behind those that wait.
    pub fn feed(&mut self, bytes: &[u8])
        ensures
            final(self)@ == old(self)@ + bytes@,
    {
        write_all(&mut self.data, bytes);
    }

    /// Takes the next whole frame out of the buffer. Where the bytes that
    /// wait are no whole frame yet, or are refused, they all stay.
    pub fn next_frame(&mut self) -> (r: Result<Option<Frame>, FrameError>)
        ensures
            match decoding(old(self)@) {
                Decoded::Incomplete => r matches Ok(None) && final(self)@ == old(self)@,
                Decoded::Malformed => r is Err && final(self)@ == old(self)@,
                Decoded::Frame(v, n) => r matches Ok(Some(f)) && f@ == v && 0 < n <= old(self)@.len()
                    && final(self)@ == old(self)@.subrange(n, old(self)@.len() as int),
            },
    {
        match decode(self.data.as_slice()) {
            Ok(Some((frame, n))) => {
                let mut rest: Vec<u8> = Vec::new();
                write_all(&mut rest, slice_subrange(self.data.as_slice(), n, self.data.len()));
                self.data = rest;
                Ok(Some(frame))
            },
            Ok(None) => Ok(None),
            Err(e) => Err(e),
        }
    }

    /// What the connection does next. The shutdown signal is looked at here,
    /// between frames, and wins over a request that waits; bytes that are no
    /// frame end the connection.
    pub fn step(&mut self, shutdown: bool) -> (r: Step)
        ensures
            shutdown ==> (r matches Step::Close(c) && c == Closing::Shutdown),
            shutdown ==> final(self)@ == old(self)@,
            !shutdown ==> match decoding(old(self)@) {
                Decoded::Incomplete => r is Read && final(self)@ == old(self)@,
                Decoded::Malformed => r matches Step::Close(c) && c == Closing::Malformed
                    && final(self)@ == old(self)@,
                Decoded::Frame(v, n) => r matches Step::Dispatch(f) && f@ == v
                    && 0 < n <= old(self)@.len()
                    && final(self)@ == old(self)@.subrange(n, old(self)@.len() as int),
            },
    {
        if shutdown {
            return Step::Close(Closing::Shutdown);
        }
        match self.next_frame() {
            Ok(Some(frame)) => Step::Dispatch(frame),
            Ok(None) => Step::Read,
            Err(_) => Step::Close(Closing::Malformed),
        }
    }

    /// How the connection ends when the peer sends no more: cleanly where
    /// nothing waits, else as a reset inside a frame.
    pub fn at_eof(&self) -> (r: Closing)
        ensures
            r == (if self@.len() == 0 {
                Closing::Clean
            } else {
                Closing::ResetByPeer
            }),
    {
        if self.data.len() == 0 {
            Closing::Clean
        } else {
            Closing::ResetByPeer
        }
    }
}

} // verus!
