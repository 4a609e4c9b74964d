use vstd::prelude::*;

use crate::error::ProtocolError;
use crate::sentence::Sentence;
use crate::sentence::spec_serialize;
use crate::stream::Deserializer;
use crate::stream::Parse;
use crate::stream::parse;

verus! {

/// The protocol-facing state of one connection: whether it is still
/// usable, and the read-ahead bytes not yet consumed into sentences.
pub ghost struct TransportView {
    /// No fatal framing error has occurred and the transport has not been
    /// closed.
    pub is_open: bool,
    /// Bytes read off the stream but not yet consumed into sentences.
    pub pending: Seq<u8>,
}

/// The transport discipline over one duplex byte stream: one outbound
/// sentence per request, inbound bytes assembled incrementally into reply
/// sentences. The stream handle itself stays with the caller, which passes
/// raw bytes in and out; this keeps the framing logic independent of any
/// concrete socket type, so it can be exercised against in-memory buffers
/// and artificially fragmented sources as well. Any fatal framing error —
/// a partial write, an undefined tier pattern, a stream that ends before a
/// terminator — closes the transport; the caller must reconnect to
/// continue.
pub struct Transport {
    connected: bool,
    de: Deserializer,
}

impl View for Transport {
    type V = TransportView;

    closed spec fn view(&self) -> TransportView {
        TransportView { is_open: self.connected, pending: self.de@ }
    }
}

impl Transport {
    /// A transport for a freshly opened connection: open, nothing buffered.
    pub fn new() -> (t: Transport)
        ensures
            t@.is_open,
            t@.pending == Seq::<u8>::empty(),
    {
        Transport { connected: true, de: Deserializer::new() }
    }

    /// Whether the connection is still usable.
    pub fn is_open(&self) -> (r: bool)
        ensures
            r == self@.is_open,
    {
        self.connected
    }

    /// Closes the transport; every later operation fails with
    /// `ConnectionError`.
    pub fn close(&mut self)
        ensures
            !final (self)@.is_open,
            final (self)@.pending == old(self)@.pending,
    {
        self.connected = false;
    }

    /// Serializes `sentence` into the bytes that one atomic stream write
    /// must deliver. Fails with `ConnectionError` on a closed transport.
    pub fn prepare_send(&self, sentence: &Sentence) -> (r: Result<Vec<u8>, ProtocolError>)
        requires
            sentence.encodable(),
        ensures
            self@.is_open ==> (r matches Ok(bytes) && bytes@ == spec_serialize(sentence@)),
            !self@.is_open ==> (r matches Err(e) && e == ProtocolError::ConnectionError),
    {
        if !self.connected {
            Err(ProtocolError::ConnectionError)
        } else {
            Ok(sentence.serialize())
        }
    }

    /// Records what the underlying stream write reported. This protocol's
    /// wire writes are atomic framing units: fewer bytes delivered than
    /// requested corrupts all subsequent framing and cannot be locally
    /// repaired, so a short write is fatal (`PartialWrite`) and the
    /// transport closes. Fails with `ConnectionError` on a closed
    /// transport.
    pub fn note_write(&mut self, requested: usize, written: usize) -> (r: Result<
        (),
        ProtocolError,
    >)
        ensures
            !old(self)@.is_open ==> (r matches Err(e) && e == ProtocolError::ConnectionError
                && final (self)@ == old(self)@),
            old(self)@.is_open && written < requested ==> (r matches Err(e) && e
                == ProtocolError::PartialWrite && !final (self)@.is_open && final (self)@.pending
                == old(self)@.pending),
            old(self)@.is_open && written >= requested ==> (r is Ok && final (self)@ == old(
                self,
            )@),
    {
        if !self.connected {
            Err(ProtocolError::ConnectionError)
        } else if written < requested {
            self.connected = false;
            Err(ProtocolError::PartialWrite)
        } else {
            Ok(())
        }
    }

    /// Buffers one chunk that the caller read off the stream. A read that
    /// delivered no bytes means the stream ended; before a terminator that
    /// is fatal (`TruncatedStream`) and the transport closes. Fails with
    /// `ConnectionError` on a closed transport.
    pub fn on_read(&mut self, chunk: &Vec<u8>) -> (r: Result<(), ProtocolError>)
        ensures
            !old(self)@.is_open ==> (r matches Err(e) && e == ProtocolError::ConnectionError
                && final (self)@ == old(self)@),
            old(self)@.is_open && chunk@.len() == 0 ==> (r matches Err(e) && e
                == ProtocolError::TruncatedStream && !final (self)@.is_open && final (
            self)@.pending == old(self)@.pending),
            old(self)@.is_open && chunk@.len() > 0 ==> (r is Ok && final (self)@.is_open && final (
            self)@.pending == old(self)@.pending + chunk@),
    {
        if !self.connected {
            Err(ProtocolError::ConnectionError)
        } else if chunk.len() == 0 {
            self.connected = false;
            Err(ProtocolError::TruncatedStream)
        } else {
            self.de.feed(chunk);
            Ok(())
        }
    }

    /// Takes one complete reply sentence out of the read-ahead buffer, if
    /// one is already there. `Ok(None)` asks the caller to read more bytes
    /// off the stream and hand them to `on_read`. An undefined tier
    /// pattern among the buffered bytes is fatal (`MalformedLength`) and
    /// the transport closes, since byte alignment is lost. Fails with
    /// `ConnectionError` on a closed transport.
    pub fn poll_sentence(&mut self) -> (r: Result<Option<Sentence>, ProtocolError>)
        ensures
            !old(self)@.is_open ==> (r matches Err(e) && e == ProtocolError::ConnectionError
                && final (self)@ == old(self)@),
            old(self)@.is_open && parse(old(self)@.pending) is Incomplete ==> (r matches Ok(o)
                && o is None && final (self)@ == old(self)@),
            old(self)@.is_open && parse(old(self)@.pending) is Malformed ==> (r matches Err(e)
                && e == ProtocolError::MalformedLength && !final (self)@.is_open && final (
            self)@.pending == old(self)@.pending),
            parse(old(self)@.pending) matches Parse::Complete { words, consumed } ==> (old(
                self,
            )@.is_open ==> {
                &&& r matches Ok(o)
                &&& o matches Some(s)
                &&& s@ == words
                &&& s.wf()
                &&& final (self)@.is_open
                &&& final (self)@.pending == old(self)@.pending.skip(consumed as int)
            }),
    {
        if !self.connected {
            return Err(ProtocolError::ConnectionError);
        }
        match self.de.try_next() {
            Ok(o) => Ok(o),
            Err(e) => {
                self.connected = false;
                Err(e)
            },
        }
    }
}

} // verus!
