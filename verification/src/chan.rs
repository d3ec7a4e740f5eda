//! The channel, payload-producer and payload-consumer abstractions, and the
//! deterministic in-memory implementations used by proofs and tests.
//!
//! A channel read is modelled as consuming one `ReadEvent` from a script:
//! either a byte arrived, the configured receive timeout elapsed, or the
//! device failed.  Writes always succeed and are recorded; an adapter over a
//! device whose writes can fail surfaces that failure as a `Fault` read
//! event on the next read.

use vstd::prelude::*;

verus! {

/// One outcome of attempting to read a single octet from the channel.
#[derive(Clone, Copy, Debug, PartialEq, Eq, Structural)]
pub enum ReadEvent {
    /// An octet arrived.
    Byte(u8),
    /// The receive timeout elapsed before an octet arrived.
    TimedOut,
    /// The device reported a non-timeout error.
    Fault,
}

/// The error kind a channel read surfaces.
#[derive(Clone, Copy, Debug, PartialEq, Eq, Structural)]
pub enum ChanError {
    /// The receive timeout elapsed.
    TimedOut,
    /// The device reported a non-timeout error.
    Broken,
}

/// The event a read consumes and the script that remains: an exhausted
/// script behaves as an endless run of timeouts.
pub open spec fn next_event(s: Seq<ReadEvent>) -> (ReadEvent, Seq<ReadEvent>) {
    if s.len() == 0 {
        (ReadEvent::TimedOut, s)
    } else {
        (s[0], s.drop_first())
    }
}

/// A bidirectional octet stream with a configurable receive timeout.
///
/// `incoming` is the script of read outcomes the peer side will produce;
/// `written` is everything this side has sent.  Reads consume the script in
/// order; writes always succeed and never disturb the script.
pub trait Channel {
    /// The read outcomes not yet consumed.  An adapter over a real device
    /// stands for whatever the device will produce; the in-memory channel
    /// overrides this with its script.
    closed spec fn incoming(&self) -> Seq<ReadEvent> {
        Seq::empty()
    }

    /// The octets written so far.
    closed spec fn written(&self) -> Seq<u8> {
        Seq::empty()
    }

    /// Read one octet, or learn that the timeout elapsed or the device failed.
    fn poll(&mut self) -> (ev: ReadEvent)
        ensures
            final(self).written() == old(self).written(),
            ev == next_event(old(self).incoming()).0,
            final(self).incoming() == next_event(old(self).incoming()).1,
    ;

    /// Write one octet.
    fn write_byte(&mut self, b: u8)
        ensures
            final(self).incoming() == old(self).incoming(),
            final(self).written() == old(self).written().push(b),
    ;
}

/// A producer of payload octets, read strictly forward.
pub trait ByteSource {
    /// The octets not yet produced.
    closed spec fn remaining(&self) -> Seq<u8> {
        Seq::empty()
    }

    /// Produce up to `max` octets; fewer only at the end of the stream.
    fn read_chunk(&mut self, max: usize) -> (chunk: Vec<u8>)
        ensures
            chunk@.len() == vstd::math::min(max as int, old(self).remaining().len() as int),
            chunk@ == old(self).remaining().take(chunk@.len() as int),
            final(self).remaining() == old(self).remaining().skip(chunk@.len() as int),
    ;
}

/// A consumer of payload octets.
pub trait ByteSink {
    /// The octets consumed so far.
    closed spec fn received(&self) -> Seq<u8> {
        Seq::empty()
    }

    /// Consume all of `data`.
    fn put(&mut self, data: &Vec<u8>)
        ensures
            final(self).received() == old(self).received() + data@,
    ;
}

/// A channel whose peer side follows a fixed script; used by the tests.
pub struct ScriptChannel {
    events: Vec<ReadEvent>,
    pos: usize,
    sent: Vec<u8>,
}

impl ScriptChannel {
    /// A channel whose reads will produce exactly `events`.
    pub fn new(events: Vec<ReadEvent>) -> (c: ScriptChannel)
        ensures
            c.incoming() == events@,
            c.written() == Seq::<u8>::empty(),
    {
        ScriptChannel { events, pos: 0, sent: Vec::new() }
    }

    /// Everything written to the channel so far.
    pub fn sent(&self) -> (r: &Vec<u8>)
        ensures
            r@ == self.written(),
    {
        &self.sent
    }
}

impl Channel for ScriptChannel {
    closed spec fn incoming(&self) -> Seq<ReadEvent> {
        if self.pos <= self.events@.len() {
            self.events@.skip(self.pos as int)
        } else {
            Seq::empty()
        }
    }

    closed spec fn written(&self) -> Seq<u8> {
        self.sent@
    }

    fn poll(&mut self) -> (ev: ReadEvent) {
        if self.pos < self.events.len() {
            let ev = self.events[self.pos];
            self.pos = self.pos + 1;
            proof {
                assert(self.incoming() =~= next_event(old(self).incoming()).1);
            }
            ev
        } else {
            ReadEvent::TimedOut
        }
    }

    fn write_byte(&mut self, b: u8) {
        self.sent.push(b);
    }
}

/// A payload producer backed by a vector; used by the tests.
pub struct VecSource {
    data: Vec<u8>,
    pos: usize,
}

impl VecSource {
    /// A producer that will yield exactly `data`.
    pub fn new(data: Vec<u8>) -> (s: VecSource)
        ensures
            s.remaining() == data@,
    {
        VecSource { data, pos: 0 }
    }
}

impl ByteSource for VecSource {
    closed spec fn remaining(&self) -> Seq<u8> {
        if self.pos <= self.data@.len() {
            self.data@.skip(self.pos as int)
        } else {
            Seq::empty()
        }
    }

    fn read_chunk(&mut self, max: usize) -> (chunk: Vec<u8>) {
        if self.pos > self.data.len() {
            proof {
                assert(self.remaining() =~= Seq::<u8>::empty());
            }
            self.pos = self.data.len();
            proof {
                assert(self.remaining() =~= Seq::<u8>::empty());
            }
        }
        let avail = self.data.len() - self.pos;
        let n = if max < avail { max } else { avail };
        let mut chunk: Vec<u8> = Vec::new();
        let mut i: usize = 0;
        while i < n
            invariant
                i <= n,
                n <= avail,
                avail == self.data@.len() - self.pos,
                self.pos + n <= self.data@.len(),
                self.data@.len() <= usize::MAX,
                chunk@.len() == i as int,
                chunk@ == self.data@.skip(self.pos as int).take(n as int).take(i as int),
            decreases n - i,
        {
            proof {
                assert(self.data@.skip(self.pos as int).take(n as int)[i as int]
                    == self.data@[self.pos + i]);
                assert(self.data@.skip(self.pos as int).take(n as int).take(i + 1)
                    =~= self.data@.skip(self.pos as int).take(n as int).take(i as int)
                        .push(self.data@[self.pos + i]));
            }
            chunk.push(self.data[self.pos + i]);
            i = i + 1;
        }
        proof {
            assert(chunk@ =~= self.data@.skip(self.pos as int).take(n as int));
        }
        self.pos = self.pos + n;
        proof {
            assert(self.remaining() =~= old(self).remaining().skip(n as int));
        }
        chunk
    }
}

/// A payload consumer backed by a vector; used by the tests.
pub struct VecSink {
    data: Vec<u8>,
}

impl VecSink {
    /// An empty consumer.
    pub fn new() -> (s: VecSink)
        ensures
            s.received() == Seq::<u8>::empty(),
    {
        VecSink { data: Vec::new() }
    }

    /// Everything consumed so far.
    pub fn contents(&self) -> (r: &Vec<u8>)
        ensures
            r@ == self.received(),
    {
        &self.data
    }
}

impl ByteSink for VecSink {
    closed spec fn received(&self) -> Seq<u8> {
        self.data@
    }

    fn put(&mut self, data: &Vec<u8>) {
        let mut i: usize = 0;
        while i < data.len()
            invariant
                i <= data@.len(),
                self.data@ == old(self).data@ + data@.take(i as int),
            decreases data@.len() - i,
        {
            proof {
                assert(data@.take(i + 1) =~= data@.take(i as int).push(data@[i as int]));
            }
            self.data.push(data[i]);
            i = i + 1;
        }
        proof {
            assert(data@.take(data@.len() as int) =~= data@);
        }
    }
}

/// Write every octet of `data` to the channel, in order.
pub fn write_all<C: Channel>(dev: &mut C, data: &Vec<u8>)
    ensures
        final(dev).incoming() == old(dev).incoming(),
        final(dev).written() == old(dev).written() + data@,
{
    let mut i: usize = 0;
    while i < data.len()
        invariant
            i <= data@.len(),
            dev.incoming() == old(dev).incoming(),
            dev.written() == old(dev).written() + data@.take(i as int),
        decreases data@.len() - i,
    {
        proof {
            assert(data@.take(i + 1) =~= data@.take(i as int).push(data@[i as int]));
        }
        dev.write_byte(data[i]);
        i = i + 1;
    }
    proof {
        assert(data@.take(data@.len() as int) =~= data@);
    }
}

} // verus!
