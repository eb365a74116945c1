//! The outbound reliability manager: tracks unacknowledged outgoing
//! reliable data packets and schedules their retransmission with
//! exponential backoff.
//!
//! Every entry starts with a retransmit delay of `INITIAL_RETRY_MS`; each
//! retransmission multiplies the next delay by 1.1 (computed as `* 11 / 10`
//! on whole milliseconds, saturating).

use vstd::prelude::*;

use crate::packets::DataPacket;
use crate::packets::Packet;
use crate::packets::PacketView;

verus! {

/// Delay before the first retransmission, in milliseconds.
pub const INITIAL_RETRY_MS: u64 = 100;

/// One tracked outgoing data packet.
#[derive(Debug, Clone, PartialEq, Eq)]
pub struct AckRecord {
    /// The stored `Packet::Data` to retransmit.
    pub packet: Packet,
    /// When the next retransmission is due, in milliseconds.
    pub next_time_ms: u64,
    /// The delay to apply after the next retransmission, in milliseconds.
    pub duration_ms: u64,
}

/// The key a record is tracked under, for data packets.
pub open spec fn spec_packet_key(p: Packet) -> Option<(i16, u64)> {
    match p@ {
        PacketView::Data { chan, packet } => Some((chan, packet.sequence_number)),
        _ => None,
    }
}

/// Some record in the list is tracked under this key.
pub open spec fn spec_has_key(l: Seq<AckRecord>, key: (i16, u64)) -> bool {
    exists|i: int| 0 <= i < l.len() && spec_packet_key(l[i].packet) == Some(key)
}

/// The views of the packets of the records that are due at `now`.
pub open spec fn spec_due_packets(l: Seq<AckRecord>, now: u64) -> Seq<PacketView>
    decreases l.len(),
{
    if l.len() == 0 {
        Seq::<PacketView>::empty()
    } else {
        (if l[0].next_time_ms <= now {
            seq![l[0].packet@]
        } else {
            Seq::<PacketView>::empty()
        }) + spec_due_packets(l.skip(1), now)
    }
}

/// A copy of a data packet with the same mathematical value.
fn clone_data_packet(dp: &DataPacket) -> (r: DataPacket)
    ensures
        r@ == dp@,
{
    let payload = dp.payload.clone();
    proof {
        assert(payload@ =~= dp.payload@);
    }
    let r = DataPacket {
        sequence_number: dp.sequence_number,
        flags: dp.flags,
        payload,
        header: dp.header,
    };
    proof {
        assert(r@ =~= dp@);
    }
    r
}

/// A copy of a tracked data packet with the same mathematical value.
fn clone_tracked_packet(p: &Packet) -> (r: Packet)
    requires
        spec_packet_key(*p) is Some,
    ensures
        r@ == p@,
{
    match p {
        Packet::Data { chan, packet } => {
            let r = Packet::Data { chan: *chan, packet: clone_data_packet(packet) };
            proof {
                assert(r@ =~= p@);
            }
            r
        },
        _ => {
            proof {
                assert(false);
            }
            Packet::Ack { chan: 0, sequence_number: 0 }
        },
    }
}

/// Tracks outgoing reliable data packets until their acks arrive.
#[derive(Debug, Clone, PartialEq, Eq)]
pub struct AckManager {
    /// The tracked records; every tracked packet is a data packet, and no
    /// two share a channel and sequence number.
    pub packets: Vec<AckRecord>,
}

impl AckManager {
    /// Every record holds a data packet and keys are unique.
    pub open spec fn wf(self) -> bool {
        &&& forall|i: int|
            0 <= i < self.packets@.len() ==> (#[trigger] spec_packet_key(
                self.packets@[i].packet,
            )) is Some
        &&& forall|i: int, j: int|
            0 <= i < j < self.packets@.len() ==> spec_packet_key(self.packets@[i].packet)
                != spec_packet_key(self.packets@[j].packet)
    }

    /// An empty manager.
    pub fn new() -> (r: AckManager)
        ensures
            r.wf(),
            r.packets@.len() == 0,
    {
        AckManager { packets: Vec::new() }
    }

    /// Position of the record tracked under this key, if any.
    fn find_key(&self, chan: i16, sn: u64) -> (r: Option<usize>)
        ensures
            match r {
                Some(i) => i < self.packets@.len() && spec_packet_key(self.packets@[i as int].packet)
                    == Some((chan, sn)),
                None => !spec_has_key(self.packets@, (chan, sn)),
            },
    {
        let mut i: usize = 0;
        while i < self.packets.len()
            invariant
                i <= self.packets@.len(),
                forall|j: int|
                    0 <= j < i ==> spec_packet_key(self.packets@[j].packet) != Some((chan, sn)),
            decreases self.packets@.len() - i,
        {
            let hit = match &self.packets[i].packet {
                Packet::Data { chan: c, packet: dp } => *c == chan && dp.sequence_number == sn,
                _ => false,
            };
            if hit {
                return Some(i);
            }
            i = i + 1;
        }
        None
    }

    /// Accepts an outgoing reliable data packet or an incoming ack;
    /// anything else is not this manager's business.
    ///
    /// A reliable data packet is tracked (replacing any record under the
    /// same key) with its first retransmission due `INITIAL_RETRY_MS` from
    /// now; an unreliable one is never entered.  An ack removes the record
    /// it acknowledges.  Returns whether the packet was handled.
    pub fn submit_packet(&mut self, packet: Packet, now_ms: u64) -> (r: bool)
        requires
            old(self).wf(),
        ensures
            final(self).wf(),
            match packet {
                Packet::Ack { chan, sequence_number } => r == true && (match spec_find_index(
                    old(self).packets@,
                    (chan, sequence_number),
                ) {
                    Some(i) => final(self).packets@ == old(self).packets@.remove(i),
                    None => final(self).packets@ == old(self).packets@,
                }),
                Packet::Data { chan, packet: dp } => if !dp.spec_is_reliable() {
                    r == false && *final(self) == *old(self)
                } else {
                    r == true && (({
                    let cleaned = match spec_find_index(
                        old(self).packets@,
                        (chan, dp.sequence_number),
                    ) {
                        Some(i) => old(self).packets@.remove(i),
                        None => old(self).packets@,
                    };
                    final(self).packets@.len() == cleaned.len() + 1 && final(self).packets@.drop_last() == cleaned && final(self).packets@.last().packet@
                        == packet@ && final(self).packets@.last().next_time_ms == (
                    if now_ms + INITIAL_RETRY_MS <= u64::MAX {
                        (now_ms + INITIAL_RETRY_MS) as u64
                    } else {
                        u64::MAX
                    }) && final(self).packets@.last().duration_ms == 110 && (forall|x: int|
                        0 <= x < old(self).packets@.len() && spec_packet_key(
                            #[trigger] old(self).packets@[x].packet,
                        ) != Some((chan, dp.sequence_number)) ==> final(self).packets@.contains(
                            old(self).packets@[x],
                        ))
                }))
                },
                _ => r == false && *final(self) == *old(self),
            },
    {
        match &packet {
            Packet::Ack { chan, sequence_number } => {
                let c = *chan;
                let sn = *sequence_number;
                match self.find_key(c, sn) {
                    Some(i) => {
                        proof {
                            lemma_find_index_agrees(self.packets@, (c, sn), i as int);
                        }
                        self.packets.remove(i);
                        proof {
                            assert(forall|x: int|
                                0 <= x < self.packets@.len() ==> #[trigger] self.packets@[x]
                                    == if x < i {
                                    old(self).packets@[x]
                                } else {
                                    old(self).packets@[x + 1]
                                });
                        }
                    },
                    None => {
                        proof {
                            lemma_find_index_none(self.packets@, (c, sn));
                        }
                    },
                }
                true
            },
            Packet::Data { chan, packet: dp } => {
                if !dp.is_reliable() {
                    return false;
                }
                let c = *chan;
                let sn = dp.sequence_number;
                match self.find_key(c, sn) {
                    Some(i) => {
                        proof {
                            lemma_find_index_agrees(self.packets@, (c, sn), i as int);
                        }
                        self.packets.remove(i);
                        proof {
                            assert(forall|x: int|
                                0 <= x < self.packets@.len() ==> #[trigger] self.packets@[x]
                                    == if x < i {
                                    old(self).packets@[x]
                                } else {
                                    old(self).packets@[x + 1]
                                });
                        }
                    },
                    None => {
                        proof {
                            lemma_find_index_none(self.packets@, (c, sn));
                        }
                    },
                }
                let next = if now_ms <= u64::MAX - INITIAL_RETRY_MS {
                    now_ms + INITIAL_RETRY_MS
                } else {
                    u64::MAX
                };
                let ghost cleaned = self.packets@;
                let rec = AckRecord { packet, next_time_ms: next, duration_ms: 110 };
                proof {
                    assert(forall|x: int|
                        0 <= x < cleaned.len() ==> old(self).packets@.contains(
                            #[trigger] cleaned[x],
                        )) by {
                        assert(forall|x: int|
                            0 <= x < cleaned.len() ==> cleaned[x] == old(self).packets@[(
                            if cleaned.len() < old(self).packets@.len() && x
                                >= spec_find_index_val(old(self).packets@, (c, sn)) {
                                x + 1
                            } else {
                                x
                            })]);
                    }
                }
                self.packets.push(rec);
                proof {
                    assert(self.packets@.drop_last() =~= cleaned);
                    assert forall|x: int|
                        0 <= x < old(self).packets@.len() && spec_packet_key(
                            #[trigger] old(self).packets@[x].packet,
                        ) != Some((c, sn)) implies self.packets@.contains(
                        old(self).packets@[x],
                    ) by {
                        if cleaned.len() < old(self).packets@.len() {
                            let i = choose|i: int|
                                0 <= i < old(self).packets@.len() && cleaned == old(
                                    self,
                                ).packets@.remove(i) && spec_packet_key(
                                    old(self).packets@[i].packet,
                                ) == Some((c, sn));
                            if x < i {
                                assert(self.packets@[x] == old(self).packets@[x]);
                            } else {
                                assert(self.packets@[x - 1] == old(self).packets@[x]);
                            }
                        } else {
                            assert(self.packets@[x] == old(self).packets@[x]);
                        }
                    }
                }
                true
            },
            _ => false,
        }
    }

    /// Collects the packets whose retransmission is due, and reschedules
    /// each: the next retransmission moves `duration_ms` past now, and the
    /// delay after that grows by the factor 1.1.
    pub fn iter_needs_ack(&mut self, now_ms: u64) -> (r: Vec<Packet>)
        requires
            old(self).wf(),
        ensures
            final(self).wf(),
            final(self).packets@.len() == old(self).packets@.len(),
            forall|i: int|
                0 <= i < old(self).packets@.len() ==> (#[trigger] final(self).packets@[i]).packet@
                    == old(self).packets@[i].packet@,
            forall|i: int|
                0 <= i < old(self).packets@.len() && old(self).packets@[i].next_time_ms > now_ms
                    ==> (#[trigger] final(self).packets@[i]) == old(self).packets@[i],
            forall|i: int|
                0 <= i < old(self).packets@.len() && old(self).packets@[i].next_time_ms <= now_ms
                    ==> (#[trigger] final(self).packets@[i]).next_time_ms == (
                if now_ms + old(self).packets@[i].duration_ms <= u64::MAX {
                    (now_ms + old(self).packets@[i].duration_ms) as u64
                } else {
                    u64::MAX
                }) && final(self).packets@[i].duration_ms == (
                if old(self).packets@[i].duration_ms * 11 <= u64::MAX {
                    (old(self).packets@[i].duration_ms * 11 / 10) as u64
                } else {
                    (u64::MAX / 10) as u64
                }),
            r@.len() == spec_due_packets(old(self).packets@, now_ms).len(),
            forall|k: int|
                0 <= k < r@.len() ==> (#[trigger] r@[k]@) == spec_due_packets(
                    old(self).packets@,
                    now_ms,
                )[k],
    {
        let ghost l0 = self.packets@;
        let mut out: Vec<Packet> = Vec::new();
        let mut i: usize = 0;
        while i < self.packets.len()
            invariant
                self.wf(),
                i <= self.packets@.len(),
                self.packets@.len() == l0.len(),
                forall|j: int|
                    0 <= j < l0.len() ==> (#[trigger] self.packets@[j]).packet@ == l0[j].packet@,
                forall|j: int| i <= j < l0.len() ==> (#[trigger] self.packets@[j]) == l0[j],
                forall|j: int|
                    0 <= j < i && l0[j].next_time_ms > now_ms ==> (#[trigger] self.packets@[j])
                        == l0[j],
                forall|j: int|
                    0 <= j < i && l0[j].next_time_ms <= now_ms ==> (#[trigger] self.packets@[j]).next_time_ms
                        == (if now_ms + l0[j].duration_ms <= u64::MAX {
                        (now_ms + l0[j].duration_ms) as u64
                    } else {
                        u64::MAX
                    }) && self.packets@[j].duration_ms == (if l0[j].duration_ms * 11 <= u64::MAX {
                        (l0[j].duration_ms * 11 / 10) as u64
                    } else {
                        (u64::MAX / 10) as u64
                    }),
                out@.len() == spec_due_packets(l0.take(i as int), now_ms).len(),
                forall|k: int|
                    0 <= k < out@.len() ==> (#[trigger] out@[k]@) == spec_due_packets(
                        l0.take(i as int),
                        now_ms,
                    )[k],
            decreases l0.len() - i,
        {
            proof {
                lemma_due_packets_take_step(l0, now_ms, i as int);
            }
            if self.packets[i].next_time_ms <= now_ms {
                let due = clone_tracked_packet(&self.packets[i].packet);
                out.push(due);
                let dur = self.packets[i].duration_ms;
                let next = if now_ms <= u64::MAX - dur {
                    now_ms + dur
                } else {
                    u64::MAX
                };
                let new_dur = if dur <= u64::MAX / 11 {
                    dur * 11 / 10
                } else {
                    u64::MAX / 10
                };
                let rec = AckRecord {
                    packet: clone_tracked_packet(&self.packets[i].packet),
                    next_time_ms: next,
                    duration_ms: new_dur,
                };
                proof {
                    assert(dur <= u64::MAX / 11 ==> dur * 11 <= u64::MAX) by (nonlinear_arith);
                    assert(dur > u64::MAX / 11 ==> dur * 11 > u64::MAX) by (nonlinear_arith);
                }
                self.packets[i] = rec;
                proof {
                    assert(spec_packet_key(self.packets@[i as int].packet) == spec_packet_key(
                        l0[i as int].packet,
                    ));
                }
            }
            i = i + 1;
        }
        proof {
            assert(l0.take(l0.len() as int) =~= l0);
        }
        out
    }
}

/// Position of the record tracked under this key, if any.
pub open spec fn spec_find_index(l: Seq<AckRecord>, key: (i16, u64)) -> Option<int>
    decreases l.len(),
{
    if l.len() == 0 {
        None
    } else if spec_packet_key(l[0].packet) == Some(key) {
        Some(0)
    } else {
        match spec_find_index(l.skip(1), key) {
            Some(i) => Some(i + 1),
            None => None,
        }
    }
}

/// Shorthand for the found position.
pub open spec fn spec_find_index_val(l: Seq<AckRecord>, key: (i16, u64)) -> int {
    match spec_find_index(l, key) {
        Some(i) => i,
        None => 0,
    }
}

/// A hit preceded only by misses is what the search finds.
proof fn lemma_find_index_agrees(l: Seq<AckRecord>, key: (i16, u64), i: int)
    requires
        0 <= i < l.len(),
        spec_packet_key(l[i].packet) == Some(key),
        forall|j: int| 0 <= j < i ==> spec_packet_key(l[j].packet) != Some(key),
    ensures
        spec_find_index(l, key) == Some(i),
    decreases i,
{
    if i > 0 {
        lemma_find_index_agrees(l.skip(1), key, i - 1);
    }
}

/// Without a hit nothing is found.
proof fn lemma_find_index_none(l: Seq<AckRecord>, key: (i16, u64))
    requires
        forall|j: int| 0 <= j < l.len() ==> spec_packet_key(l[j].packet) != Some(key),
    ensures
        spec_find_index(l, key) is None,
    decreases l.len(),
{
    if l.len() > 0 {
        lemma_find_index_none(l.skip(1), key);
    }
}

/// Extending the prefix by one record extends its due list accordingly.
proof fn lemma_due_packets_take_step(l: Seq<AckRecord>, now: u64, i: int)
    requires
        0 <= i < l.len(),
    ensures
        spec_due_packets(l.take(i + 1), now) == spec_due_packets(l.take(i), now) + (
        if l[i].next_time_ms <= now {
            seq![l[i].packet@]
        } else {
            Seq::<PacketView>::empty()
        }),
    decreases i,
{
    if i == 0 {
        assert(l.take(1) =~= seq![l[0]]);
        assert(seq![l[0]].skip(1) =~= Seq::<AckRecord>::empty());
        assert(spec_due_packets(Seq::<AckRecord>::empty(), now) =~= Seq::<PacketView>::empty());
        assert(l.take(0) =~= Seq::<AckRecord>::empty());
        assert(spec_due_packets(l.take(1), now) =~= spec_due_packets(l.take(0), now) + (
        if l[0].next_time_ms <= now {
            seq![l[0].packet@]
        } else {
            Seq::<PacketView>::empty()
        }));
    } else {
        lemma_due_packets_take_step(l.skip(1), now, i - 1);
        assert(l.take(i + 1).skip(1) =~= l.skip(1).take(i));
        assert(l.take(i).skip(1) =~= l.skip(1).take(i - 1));
        assert(l.take(i + 1)[0] == l[0] && l.take(i)[0] == l[0]);
        assert(l.skip(1)[i - 1] == l[i]);
        assert(spec_due_packets(l.take(i + 1), now) =~= spec_due_packets(l.take(i), now) + (
        if l[i].next_time_ms <= now {
            seq![l[i].packet@]
        } else {
            Seq::<PacketView>::empty()
        }));
    }
}

} // verus!
