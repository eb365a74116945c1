//! The frame encoder: splits one user payload into a sequence of data
//! packets on one channel.
//!
//! Each packet carries up to `CHUNK_SIZE` payload bytes.  The first packet
//! carries the frame header (the last delivered reliable frame and the total
//! frame length, header included) and the frame-start flag; the last packet
//! carries the frame-end flag; every packet carries the shared reliability
//! flag, and sequence numbers are consecutive from the starting one.

use vstd::prelude::*;

use crate::packets::DataPacketView;
use crate::packets::FrameHeader;
use crate::packets::Packet;
use crate::packets::PacketView;
use crate::packets::DataPacket;
use crate::packets::spec_flags_byte;
use crate::packets::lemma_flags_byte;
use crate::packets::FLAG_FRAME_START;
use crate::packets::FLAG_FRAME_END;
use crate::packets::FLAG_RELIABLE;
use crate::packets::FRAME_HEADER_SIZE;

verus! {

/// Most payload bytes one data packet carries.
pub const CHUNK_SIZE: usize = 500;

/// How many packets a payload of this many bytes becomes.  An empty payload
/// still becomes one (empty) packet.
pub open spec fn spec_chunk_count(len: int) -> int {
    if len <= 0 {
        1
    } else {
        (len + 499) / 500
    }
}

/// Where the payload of the `k`-th packet begins.
pub open spec fn spec_chunk_begin(len: int, k: int) -> int {
    if k * 500 <= len {
        k * 500
    } else {
        len
    }
}

/// Where the payload of the `k`-th packet ends.
pub open spec fn spec_chunk_end(len: int, k: int) -> int {
    if (k + 1) * 500 <= len {
        (k + 1) * 500
    } else {
        len
    }
}

/// The payload bytes of the `k`-th packet.
pub open spec fn spec_frame_chunk(payload: Seq<u8>, k: int) -> Seq<u8> {
    payload.subrange(
        spec_chunk_begin(payload.len() as int, k),
        spec_chunk_end(payload.len() as int, k),
    )
}

/// The `k`-th data packet of the frame.
pub open spec fn spec_frame_data_packet(
    payload: Seq<u8>,
    s0: u64,
    last_reliable_frame: u64,
    reliable: bool,
    k: int,
) -> DataPacketView {
    let n = spec_chunk_count(payload.len() as int);
    DataPacketView {
        sequence_number: (s0 + k) as u64,
        flags: spec_flags_byte(k == 0, k == n - 1, reliable),
        payload: spec_frame_chunk(payload, k),
        header: if k == 0 {
            Some(
                FrameHeader {
                    last_reliable_frame,
                    length: (FRAME_HEADER_SIZE + payload.len()) as u32,
                },
            )
        } else {
            None
        },
    }
}

/// The `k`-th packet the encoder produces.
pub open spec fn spec_frame_packet(
    payload: Seq<u8>,
    channel: i16,
    s0: u64,
    last_reliable_frame: u64,
    reliable: bool,
    k: int,
) -> PacketView {
    PacketView::Data {
        chan: channel,
        packet: spec_frame_data_packet(payload, s0, last_reliable_frame, reliable, k),
    }
}

/// A frame never takes more packets than payload bytes plus one.
pub proof fn lemma_chunk_count_bounds(len: int)
    requires
        0 <= len,
    ensures
        1 <= spec_chunk_count(len) <= len + 1,
{
    if len > 0 {
        assert(1 <= (len + 499) / 500 <= len) by (nonlinear_arith)
            requires
                len >= 1,
        ;
    }
}

/// Arithmetic facts about the chunk boundaries.
proof fn lemma_chunk_bounds(len: int, k: int)
    requires
        0 <= len,
        0 <= k < spec_chunk_count(len),
    ensures
        k * 500 <= len || (len == 0 && k == 0),
        spec_chunk_begin(len, k) == k * 500,
        (len - k * 500 <= 500) <==> (k == spec_chunk_count(len) - 1),
        spec_chunk_end(len, k) == if len - k * 500 <= 500 {
            len
        } else {
            k * 500 + 500
        },
{
    let n = spec_chunk_count(len);
    if len == 0 {
    } else {
        assert(500 * n <= len + 499 && len + 499 < 500 * (n + 1) && k * 500 <= (n - 1) * 500 && (n
            - 1) * 500 <= len - 1 && len <= 500 * n && ((len - k * 500 <= 500) <==> (k == n - 1))
            && ((len - k * 500 <= 500 && (k + 1) * 500 <= len) ==> (k + 1) * 500 == len) && ((len
            - k * 500 > 500) ==> (k + 1) * 500 <= len)) by (nonlinear_arith)
            requires
                n == (len + 499) / 500,
                len >= 1,
                0 <= k < n,
        ;
    }
}

/// The chunks from the `k`-th one onward, concatenated.
pub open spec fn spec_chunks_concat_from(payload: Seq<u8>, k: int) -> Seq<u8>
    decreases spec_chunk_count(payload.len() as int) - k,
    when k <= spec_chunk_count(payload.len() as int)
{
    if k >= spec_chunk_count(payload.len() as int) {
        Seq::<u8>::empty()
    } else {
        spec_frame_chunk(payload, k) + spec_chunks_concat_from(payload, k + 1)
    }
}

/// The chunks from the `k`-th one onward concatenate to the payload from the
/// `k`-th chunk boundary onward.
proof fn lemma_chunks_concat_from(payload: Seq<u8>, k: int)
    requires
        0 <= k < spec_chunk_count(payload.len() as int),
    ensures
        spec_chunks_concat_from(payload, k) == payload.skip(spec_chunk_begin(
            payload.len() as int,
            k,
        )),
    decreases spec_chunk_count(payload.len() as int) - k,
{
    let len = payload.len() as int;
    let n = spec_chunk_count(len);
    lemma_chunk_bounds(len, k);
    if k == n - 1 {
        assert(spec_chunks_concat_from(payload, n) == Seq::<u8>::empty());
        assert(spec_frame_chunk(payload, k) + Seq::<u8>::empty() =~= payload.skip(
            spec_chunk_begin(len, k),
        ));
    } else {
        lemma_chunks_concat_from(payload, k + 1);
        lemma_chunk_bounds(len, k + 1);
        assert(spec_frame_chunk(payload, k) + payload.skip(spec_chunk_begin(len, k + 1))
            =~= payload.skip(spec_chunk_begin(len, k)));
    }
}

/// The concatenation of all the frame's chunks is the payload itself.
pub proof fn lemma_frame_chunks_cover_payload(payload: Seq<u8>)
    ensures
        spec_chunks_concat_from(payload, 0) == payload,
{
    let len = payload.len() as int;
    if len == 0 {
        assert(spec_chunks_concat_from(payload, 1) == Seq::<u8>::empty());
        assert(spec_frame_chunk(payload, 0) + Seq::<u8>::empty() =~= payload);
        assert(spec_chunks_concat_from(payload, 0) =~= payload);
    } else {
        lemma_chunks_concat_from(payload, 0);
        assert(payload.skip(0) =~= payload);
    }
}

/// The shape of each packet of a frame: consecutive sequence numbers from
/// the starting one, the frame-start flag and the header exactly on the
/// first, the frame-end flag exactly on the last, the reliability flag on
/// all, and a header length of the payload plus the header size.
pub proof fn lemma_frame_packet_form(
    payload: Seq<u8>,
    s0: u64,
    last_reliable_frame: u64,
    reliable: bool,
    k: int,
)
    requires
        0 <= k < spec_chunk_count(payload.len() as int),
        s0 + spec_chunk_count(payload.len() as int) <= u64::MAX,
        FRAME_HEADER_SIZE + payload.len() <= u32::MAX,
    ensures
        ({
            let dp = spec_frame_data_packet(payload, s0, last_reliable_frame, reliable, k);
            &&& dp.sequence_number == s0 + k
            &&& dp.is_frame_start() <==> k == 0
            &&& dp.is_frame_end() <==> k == spec_chunk_count(payload.len() as int) - 1
            &&& dp.is_reliable() == reliable
            &&& dp.wf()
            &&& dp.header matches Some(h) ==> h.last_reliable_frame == last_reliable_frame
                && h.length == FRAME_HEADER_SIZE + payload.len()
        }),
{
    let n = spec_chunk_count(payload.len() as int);
    lemma_flags_byte(k == 0, k == n - 1, reliable);
}

/// Splits a payload into data packets, yielding them one at a time.
#[derive(Debug, Clone, PartialEq, Eq)]
pub struct FrameEncoder {
    pub channel: i16,
    pub sn: u64,
    pub last_reliable_frame: u64,
    pub reliable: bool,
    pub first: bool,
    pub payload: Vec<u8>,
    pub position: usize,
}

impl FrameEncoder {
    /// Nothing is left to yield.
    pub open spec fn spec_done(self) -> bool {
        !self.first && self.position >= self.payload@.len()
    }

    /// The cursor sits inside the payload, the frame header's length fits,
    /// and enough sequence numbers are left.
    pub open spec fn wf(self) -> bool {
        &&& self.position <= self.payload@.len()
        &&& self.first ==> self.position == 0
        &&& FRAME_HEADER_SIZE + self.payload@.len() <= u32::MAX
        &&& !self.spec_done() ==> self.sn + (self.payload@.len() - self.position) + 1 <= u64::MAX
    }

    /// The packet the next call yields, when one is left.
    pub open spec fn spec_current_packet(self) -> PacketView {
        PacketView::Data {
            chan: self.channel,
            packet: DataPacketView {
                sequence_number: self.sn,
                flags: spec_flags_byte(
                    self.first,
                    self.payload@.len() - self.position <= 500,
                    self.reliable,
                ),
                payload: self.payload@.subrange(
                    self.position as int,
                    if self.payload@.len() - self.position <= 500 {
                        self.payload@.len() as int
                    } else {
                        self.position + 500
                    },
                ),
                header: if self.first {
                    Some(
                        FrameHeader {
                            last_reliable_frame: self.last_reliable_frame,
                            length: (FRAME_HEADER_SIZE + self.payload@.len()) as u32,
                        },
                    )
                } else {
                    None
                },
            },
        }
    }

    /// An encoder at the start of a frame.
    pub fn new(
        payload: Vec<u8>,
        channel: i16,
        starting_sequence_number: u64,
        last_reliable_frame: u64,
        reliable: bool,
    ) -> (r: FrameEncoder)
        requires
            FRAME_HEADER_SIZE + payload@.len() <= u32::MAX,
            starting_sequence_number + payload@.len() + 1 <= u64::MAX,
        ensures
            r.wf(),
            r.channel == channel,
            r.sn == starting_sequence_number,
            r.last_reliable_frame == last_reliable_frame,
            r.reliable == reliable,
            r.first,
            r.payload@ == payload@,
            r.position == 0,
    {
        FrameEncoder {
            channel,
            sn: starting_sequence_number,
            last_reliable_frame,
            reliable,
            first: true,
            payload,
            position: 0,
        }
    }

    /// Yields the next data packet of the frame, or nothing when the frame
    /// is exhausted.
    pub fn next(&mut self) -> (r: Option<Packet>)
        requires
            old(self).wf(),
        ensures
            final(self).wf(),
            old(self).spec_done() ==> r is None && *final(self) == *old(self),
            !old(self).spec_done() ==> (r matches Some(p) && p@ == old(self).spec_current_packet()
                && final(self).channel == old(self).channel && final(self).sn == old(self).sn + 1
                && final(self).last_reliable_frame == old(self).last_reliable_frame
                && final(self).reliable == old(self).reliable && !final(self).first
                && final(self).payload@ == old(self).payload@ && final(self).position == (if old(
                self,
            ).payload@.len() - old(self).position <= 500 {
                old(self).payload@.len() as int
            } else {
                old(self).position as int + 500
            })),
    {
        if !self.first && self.position >= self.payload.len() {
            return None;
        }
        let remaining = self.payload.len() - self.position;
        let take = if remaining <= CHUNK_SIZE {
            remaining
        } else {
            CHUNK_SIZE
        };
        let chunk_end = self.position + take;
        let mut chunk: Vec<u8> = Vec::new();
        let mut i: usize = self.position;
        while i < chunk_end
            invariant
                self.position <= i <= chunk_end <= self.payload@.len(),
                chunk@ == self.payload@.subrange(self.position as int, i as int),
            decreases chunk_end - i,
        {
            chunk.push(self.payload[i]);
            i = i + 1;
            proof {
                assert(chunk@ =~= self.payload@.subrange(self.position as int, i as int));
            }
        }
        let header = if self.first {
            Some(
                FrameHeader {
                    last_reliable_frame: self.last_reliable_frame,
                    length: (FRAME_HEADER_SIZE + self.payload.len()) as u32,
                },
            )
        } else {
            None
        };
        let is_end = remaining <= CHUNK_SIZE;
        let start_flag: u8 = if self.first {
            FLAG_FRAME_START
        } else {
            0
        };
        let end_flag: u8 = if is_end {
            FLAG_FRAME_END
        } else {
            0
        };
        let reliable_flag: u8 = if self.reliable {
            FLAG_RELIABLE
        } else {
            0
        };
        let flags: u8 = (start_flag | end_flag) | reliable_flag;
        let dp = DataPacket { sequence_number: self.sn, flags, payload: chunk, header };
        let packet = Packet::Data { chan: self.channel, packet: dp };
        proof {
            assert(packet@ =~= old(self).spec_current_packet());
        }
        self.first = false;
        self.sn = self.sn + 1;
        self.position = chunk_end;
        Some(packet)
    }

    /// Runs the encoder to completion: all the packets of the frame, in
    /// order.  The `k`-th one is exactly the `k`-th frame packet; together
    /// their payloads concatenate back to the frame's payload.
    pub fn collect_packets(&self) -> (r: Vec<Packet>)
        requires
            self.wf(),
            self.first,
        ensures
            r@.len() == spec_chunk_count(self.payload@.len() as int),
            forall|k: int|
                0 <= k < r@.len() ==> r@[k]@ == spec_frame_packet(
                    self.payload@,
                    self.channel,
                    self.sn,
                    self.last_reliable_frame,
                    self.reliable,
                    k,
                ),
    {
        let ghost payload = self.payload@;
        let ghost channel = self.channel;
        let ghost s0 = self.sn;
        let ghost lrf = self.last_reliable_frame;
        let ghost reliable = self.reliable;
        let ghost n = spec_chunk_count(self.payload@.len() as int);
        let cloned_payload = self.payload.clone();
        proof {
            assert(cloned_payload@ =~= self.payload@);
        }
        let mut enc = FrameEncoder {
            channel: self.channel,
            sn: self.sn,
            last_reliable_frame: self.last_reliable_frame,
            reliable: self.reliable,
            first: self.first,
            payload: cloned_payload,
            position: self.position,
        };
        let mut out: Vec<Packet> = Vec::new();
        proof {
            assert(spec_chunk_begin(payload.len() as int, 0) == 0);
        }
        loop
            invariant
                payload == self.payload@,
                channel == self.channel,
                s0 == self.sn,
                lrf == self.last_reliable_frame,
                reliable == self.reliable,
                enc.wf(),
                enc.channel == channel,
                enc.last_reliable_frame == lrf,
                enc.reliable == reliable,
                enc.payload@ == payload,
                n == spec_chunk_count(payload.len() as int),
                out@.len() <= n,
                enc.first <==> out@.len() == 0,
                enc.sn == s0 + out@.len(),
                enc.spec_done() <==> out@.len() == n,
                !enc.spec_done() ==> enc.position == spec_chunk_begin(
                    payload.len() as int,
                    out@.len() as int,
                ),
                forall|k: int|
                    0 <= k < out@.len() ==> out@[k]@ == spec_frame_packet(
                        payload,
                        channel,
                        s0,
                        lrf,
                        reliable,
                        k,
                    ),
            decreases n - out@.len() + (if enc.spec_done() {
                0int
            } else {
                1int
            }),
        {
            let ghost k = out@.len() as int;
            let ghost pre = enc;
            match enc.next() {
                Some(p) => {
                    proof {
                        lemma_chunk_bounds(payload.len() as int, k);
                        assert(p@ =~= spec_frame_packet(payload, channel, s0, lrf, reliable, k));
                        if k + 1 < n {
                            lemma_chunk_bounds(payload.len() as int, k + 1);
                        }
                    }
                    out.push(p);
                },
                None => {
                    proof {
                        assert(enc.spec_done());
                        assert(out@.len() == n);
                        assert(forall|j: int|
                            0 <= j < out@.len() ==> out@[j]@ == spec_frame_packet(
                                payload,
                                channel,
                                s0,
                                lrf,
                                reliable,
                                j,
                            ));
                    }
                    return out;
                },
            }
        }
    }
}

} // verus!
