//! Framing of packets on a byte stream: the state of a packet that is being
//! read piece by piece, and of one that is being written piece by piece.

use vstd::prelude::*;
use vstd::slice::*;
use crate::error::{Error, ErrorKind, ReasonCode, malformed};
use crate::v5::packet::{Packet, PacketView};
use crate::wire::{dec_varu32, decode_varu32, put_raw};

verus! {

/// How far the bytes read so far take a packet.
pub ghost enum Progress {
    /// Nothing has been read.
    Init,
    /// The first byte is there, the remaining length is not complete.
    Header,
    /// The fixed header is complete, and so many bytes are still missing.
    Remain(nat),
    /// The packet is complete.
    Fin,
    /// The remaining length runs into a fifth byte.
    Malformed,
    /// The remaining length is above what the connection allows.
    TooLarge,
}

/// The error for a packet that is longer than the connection allows.
pub open spec fn packet_too_large() -> Error {
    Error { kind: ErrorKind::MalformedPacket, code: ReasonCode::PacketTooLarge }
}

/// How far `data`, read from the start of a packet, takes that packet, on a
/// connection that allows a remaining length of up to `max`.
pub open spec fn progress(data: Seq<u8>, max: u32) -> Progress {
    if data.len() == 0 {
        Progress::Init
    } else {
        match dec_varu32(data, 1) {
            Ok((len, j)) => if len > max {
                Progress::TooLarge
            } else if data.len() < j + len {
                Progress::Remain((j + len - data.len()) as nat)
            } else if data.len() == j + len {
                Progress::Fin
            } else {
                Progress::Malformed
            },
            Err(_) => if data.len() <= 4 {
                Progress::Header
            } else {
                Progress::Malformed
            },
        }
    }
}

/// Reading fails with `e` on the first `k` bytes of `input`, behind the bytes
/// `seen`: together they are malformed, or too large for the connection.
pub open spec fn feed_fails_at(seen: Seq<u8>, max: u32, input: Seq<u8>, k: int, e: Error) -> bool {
    ||| progress(seen + input.take(k), max) == Progress::Malformed && e == malformed()
    ||| progress(seen + input.take(k), max) == Progress::TooLarge && e == packet_too_large()
}

/// The state of reading one packet off a connection.
#[derive(Debug, Clone, PartialEq, Eq)]
pub enum MQTTRead {
    /// Nothing of the next packet has been read.
    Init { max_size: u32 },
    /// The first byte has been read, the remaining length not wholly.
    Header { data: Vec<u8>, max_size: u32 },
    /// The fixed header has been read; `need` bytes of the packet are missing.
    Remain { data: Vec<u8>, need: usize, max_size: u32 },
    /// The packet has been read.
    Fin { data: Vec<u8>, max_size: u32 },
}

impl MQTTRead {
    /// The bytes read so far.
    pub open spec fn data(self) -> Seq<u8> {
        match self {
            MQTTRead::Init { .. } => Seq::empty(),
            MQTTRead::Header { data, .. } => data@,
            MQTTRead::Remain { data, .. } => data@,
            MQTTRead::Fin { data, .. } => data@,
        }
    }

    /// The largest remaining length that the connection allows.
    pub open spec fn max_size(self) -> u32 {
        match self {
            MQTTRead::Init { max_size } => max_size,
            MQTTRead::Header { max_size, .. } => max_size,
            MQTTRead::Remain { max_size, .. } => max_size,
            MQTTRead::Fin { max_size, .. } => max_size,
        }
    }

    /// The state says what the bytes read so far amount to.
    pub open spec fn wf(self) -> bool {
        match self {
            MQTTRead::Init { .. } => true,
            MQTTRead::Header { data, max_size } => progress(data@, max_size) == Progress::Header,
            MQTTRead::Remain { data, need, max_size } => progress(data@, max_size)
                == Progress::Remain(need as nat) && need > 0,
            MQTTRead::Fin { data, max_size } => progress(data@, max_size) == Progress::Fin,
        }
    }

    /// How many bytes the state asks for next: one while the fixed header is
    /// incomplete, then what is missing of the packet, and none once the packet
    /// is complete.
    pub open spec fn spec_want(&self) -> usize {
        match self {
            MQTTRead::Init { .. } => 1,
            MQTTRead::Header { .. } => 1,
            MQTTRead::Remain { need, .. } => *need,
            MQTTRead::Fin { .. } => 0,
        }
    }

    /// The state before anything is read, on a connection that allows a
    /// remaining length of up to `max_size`.
    pub fn new(max_size: u32) -> (r: MQTTRead)
        ensures
            r == (MQTTRead::Init { max_size }),
            r.wf(),
    {
        MQTTRead::Init { max_size }
    }

    #[verifier::when_used_as_spec(spec_want)]
    pub fn want(&self) -> (n: usize)
        ensures
            n == self.spec_want(),
    {
        match self {
            MQTTRead::Init { .. } => 1,
            MQTTRead::Header { .. } => 1,
            MQTTRead::Remain { need, .. } => *need,
            MQTTRead::Fin { .. } => 0,
        }
    }

    /// Whether the packet is complete.
    pub fn is_fin(&self) -> (b: bool)
        ensures
            b == (self is Fin),
    {
        match self {
            MQTTRead::Fin { .. } => true,
            _ => false,
        }
    }

    /// Takes one more byte of the fixed header.
    #[verifier::rlimit(40)]
    fn header_byte(data: Vec<u8>, max_size: u32, b: u8) -> (res: Result<MQTTRead, Error>)
        requires
            data@.len() == 0 || progress(data@, max_size) == Progress::Header,
        ensures
            match res {
                Ok(next) => next.wf() && next.data() == data@.push(b) && next.max_size() == max_size
                    && !(next is Init),
                Err(e) => (e == malformed() && progress(data@.push(b), max_size)
                    == Progress::Malformed) || (e == packet_too_large() && progress(
                    data@.push(b),
                    max_size,
                ) == Progress::TooLarge),
            },
    {
        let mut data = data;
        let ghost before = data@;
        data.push(b);
        if data.len() == 1 {
            return Ok(MQTTRead::Header { data, max_size });
        }
        assert(forall|k: int| 0 <= k < before.len() ==> data@[k] == before[k]);
        match decode_varu32(data.as_slice(), 1) {
            Ok((len, j)) => {
                if len > max_size {
                    Err(Error::new(ErrorKind::MalformedPacket, ReasonCode::PacketTooLarge))
                } else if len == 0 {
                    Ok(MQTTRead::Fin { data, max_size })
                } else {
                    Ok(MQTTRead::Remain { data, need: len as usize, max_size })
                }
            },
            Err(_) => {
                if data.len() <= 4 {
                    Ok(MQTTRead::Header { data, max_size })
                } else {
                    Err(Error::malformed())
                }
            },
        }
    }

    /// Takes the next bytes of `input`, from `n` on: one byte of the fixed
    /// header, or as much of the rest of the packet as is there.
    #[verifier::rlimit(40)]
    fn step(self, input: &[u8], n: usize) -> (res: Result<(MQTTRead, usize), Error>)
        requires
            self.wf(),
            n < input@.len(),
            !(self is Fin),
        ensures
            match res {
                Ok((next, m)) => {
                    &&& next.wf()
                    &&& n < m <= input@.len()
                    &&& next.data() == self.data() + input@.subrange(n as int, m as int)
                    &&& next.max_size() == self.max_size()
                    &&& !(next is Init)
                    &&& (m == input@.len() || next is Fin || m == n + 1)
                },
                Err(e) => (e == malformed() && progress(
                    self.data().push(input@[n as int]),
                    self.max_size(),
                ) == Progress::Malformed) || (e == packet_too_large() && progress(
                    self.data().push(input@[n as int]),
                    self.max_size(),
                ) == Progress::TooLarge),
            },
    {
        let ghost seen = self.data();
        match self {
            MQTTRead::Init { max_size } => {
                let b = input[n];
                assert(seen.push(b) =~= seen + input@.subrange(n as int, n + 1));
                match Self::header_byte(Vec::new(), max_size, b) {
                    Err(e) => Err(e),
                    Ok(next) => Ok((next, n + 1)),
                }
            },
            MQTTRead::Header { data, max_size } => {
                let b = input[n];
                assert(seen.push(b) =~= seen + input@.subrange(n as int, n + 1));
                match Self::header_byte(data, max_size, b) {
                    Err(e) => Err(e),
                    Ok(next) => Ok((next, n + 1)),
                }
            },
            MQTTRead::Remain { data, need, max_size } => {
                let mut data = data;
                let left: usize = input.len() - n;
                let k: usize = if need < left {
                    need
                } else {
                    left
                };
                let chunk = slice_subrange(input, n, n + k);
                put_raw(&mut data, chunk);
                assert(forall|i: int| 0 <= i < seen.len() ==> data@[i] == seen[i]);
                if k == need {
                    Ok((MQTTRead::Fin { data, max_size }, n + k))
                } else {
                    Ok((MQTTRead::Remain { data, need: need - k, max_size }, n + k))
                }
            },
            MQTTRead::Fin { .. } => unreached(),
        }
    }

    /// Takes the bytes of `input` as far as they take the packet: all of them,
    /// or as many as complete the packet. Returns the new state and how many
    /// bytes were taken. A remaining length that runs into a fifth byte is
    /// malformed; one above what the connection allows is malformed with the
    /// reason "packet too large".
    #[verifier::rlimit(40)]
    pub fn feed(self, input: &[u8]) -> (res: Result<(MQTTRead, usize), Error>)
        requires
            self.wf(),
        ensures
            match res {
                Ok((next, n)) => {
                    &&& next.wf()
                    &&& n <= input@.len()
                    &&& next.data() == self.data() + input@.take(n as int)
                    &&& next.max_size() == self.max_size()
                    &&& (n == input@.len() || next is Fin)
                    &&& (self is Fin ==> n == 0)
                },
                Err(e) => exists|k: int|
                    0 < k <= input@.len() && feed_fails_at(self.data(), self.max_size(), input@, k, e),
            },
    {
        let ghost start = self.data();
        let ghost max = self.max_size();
        let ghost was_fin = self is Fin;
        let mut st = self;
        let mut n: usize = 0;
        assert(start + input@.take(0) =~= start);
        while n < input.len() && !st.is_fin()
            invariant
                st.wf(),
                n <= input@.len(),
                st.data() == start + input@.take(n as int),
                st.max_size() == max,
                start == self.data(),
                max == self.max_size(),
                was_fin ==> n == 0 && st is Fin,
            decreases input@.len() - n,
        {
            let ghost seen = st.data();
            match st.step(input, n) {
                Err(e) => {
                    proof {
                        assert(seen.push(input@[n as int]) =~= start + input@.take(n + 1));
                        assert(feed_fails_at(start, max, input@, n + 1, e));
                    }
                    return Err(e);
                },
                Ok((next, m)) => {
                    proof {
                        assert(seen + input@.subrange(n as int, m as int) =~= start + input@.take(
                            m as int,
                        ));
                    }
                    st = next;
                    n = m;
                },
            }
        }
        Ok((st, n))
    }

    /// The packet that has been read.
    pub fn parse(&self) -> (res: Result<Packet, Error>)
        requires
            self is Fin,
        ensures
            match res {
                Ok(p) => PacketView::dec(self.data()) is Ok && PacketView::dec(self.data())->Ok_0.0
                    == p@,
                Err(e) => PacketView::dec(self.data()) == Err::<(PacketView, int), Error>(e),
            },
    {
        match self {
            MQTTRead::Fin { data, .. } => match Packet::decode(data.as_slice()) {
                Ok((p, _)) => Ok(p),
                Err(e) => Err(e),
            },
            _ => unreached(),
        }
    }

    /// The state before the next packet.
    pub fn reset(self) -> (r: MQTTRead)
        ensures
            r == (MQTTRead::Init { max_size: self.max_size() }),
            r.wf(),
    {
        match self {
            MQTTRead::Init { max_size } => MQTTRead::Init { max_size },
            MQTTRead::Header { max_size, .. } => MQTTRead::Init { max_size },
            MQTTRead::Remain { max_size, .. } => MQTTRead::Init { max_size },
            MQTTRead::Fin { max_size, .. } => MQTTRead::Init { max_size },
        }
    }
}

/// The state of writing one packet to a connection.
#[derive(Debug, Clone, PartialEq, Eq)]
pub enum MQTTWrite {
    /// A packet is loaded and nothing of it has been written.
    Init { data: Vec<u8> },
    /// The bytes of `data` before `start` have been written.
    Remain { data: Vec<u8>, start: usize },
    /// Nothing is left to write.
    Fin,
}

impl MQTTWrite {
    /// The bytes that are still to be written.
    pub open spec fn pending(self) -> Seq<u8> {
        match self {
            MQTTWrite::Init { data } => data@,
            MQTTWrite::Remain { data, start } => data@.subrange(start as int, data@.len() as int),
            MQTTWrite::Fin => Seq::empty(),
        }
    }

    /// Something is left to write unless the state is `Fin`.
    pub open spec fn wf(self) -> bool {
        match self {
            MQTTWrite::Init { data } => data@.len() > 0,
            MQTTWrite::Remain { data, start } => 0 < start < data@.len(),
            MQTTWrite::Fin => true,
        }
    }

    /// The state with nothing to write.
    pub fn new() -> (w: MQTTWrite)
        ensures
            w is Fin,
            w.wf(),
    {
        MQTTWrite::Fin
    }

    /// Whether nothing is left to write.
    pub fn is_fin(&self) -> (b: bool)
        ensures
            b == (self is Fin),
    {
        match self {
            MQTTWrite::Fin => true,
            _ => false,
        }
    }

    /// Loads the bytes of the next packet.
    pub fn reset(self, blob: &[u8]) -> (w: MQTTWrite)
        ensures
            w.wf(),
            w.pending() == blob@,
            w is Fin <==> blob@.len() == 0,
    {
        if blob.len() == 0 {
            MQTTWrite::Fin
        } else {
            let mut data: Vec<u8> = Vec::new();
            put_raw(&mut data, blob);
            assert(data@ =~= blob@);
            MQTTWrite::Init { data }
        }
    }

    /// A copy of the bytes that are still to be written.
    pub fn to_write(&self) -> (out: Vec<u8>)
        requires
            self.wf(),
        ensures
            out@ == self.pending(),
    {
        match self {
            MQTTWrite::Init { data } => crate::wire::copy_range(data.as_slice(), 0, data.len()),
            MQTTWrite::Remain { data, start } => crate::wire::copy_range(
                data.as_slice(),
                *start,
                data.len(),
            ),
            MQTTWrite::Fin => Vec::new(),
        }
    }

    /// The state after `n` of the pending bytes have been written.
    pub fn wrote(self, n: usize) -> (w: MQTTWrite)
        requires
            self.wf(),
            n <= self.pending().len(),
        ensures
            w.wf(),
            w.pending() == self.pending().subrange(n as int, self.pending().len() as int),
            w is Fin <==> n == self.pending().len(),
    {
        match self {
            MQTTWrite::Init { data } => {
                if n == data.len() {
                    MQTTWrite::Fin
                } else if n == 0 {
                    assert(data@.subrange(0, data@.len() as int) =~= data@);
                    MQTTWrite::Init { data }
                } else {
                    MQTTWrite::Remain { data, start: n }
                }
            },
            MQTTWrite::Remain { data, start } => {
                if n == data.len() - start {
                    MQTTWrite::Fin
                } else {
                    let ghost old_pending = data@.subrange(start as int, data@.len() as int);
                    assert(data@.subrange(start + n, data@.len() as int) =~= old_pending.subrange(
                        n as int,
                        old_pending.len() as int,
                    ));
                    MQTTWrite::Remain { data, start: start + n }
                }
            },
            MQTTWrite::Fin => MQTTWrite::Fin,
        }
    }
}

/// Of a complete packet, every part read from its start is on the way: no
/// such part is malformed or too large.
pub proof fn law_frame_prefixes(frame: Seq<u8>, max: u32, k: int)
    requires
        progress(frame, max) == Progress::Fin,
        0 <= k <= frame.len(),
    ensures
        progress(frame.take(k), max) != Progress::Malformed,
        progress(frame.take(k), max) != Progress::TooLarge,
        k < frame.len() ==> progress(frame.take(k), max) != Progress::Fin,
{
    let part = frame.take(k);
    if k >= 1 {
        assert(forall|i: int| 0 <= i < k ==> part[i] == frame[i]);
    }
}

/// A packet that arrives in pieces is read once it is whole, and not before:
/// a state that holds the first `k` bytes of a complete packet is `Fin`
/// exactly when it holds all of them.
pub proof fn law_read_whole(r: MQTTRead, frame: Seq<u8>, k: int)
    requires
        r.wf(),
        progress(frame, r.max_size()) == Progress::Fin,
        0 <= k <= frame.len(),
        r.data() == frame.take(k),
    ensures
        r is Fin <==> k == frame.len(),
{
    law_frame_prefixes(frame, r.max_size(), k);
    if k == frame.len() {
        assert(frame.take(k) =~= frame);
    }
}

} // verus!
