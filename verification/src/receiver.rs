//! The per-channel receiver: deduplicates and buffers incoming data
//! packets, enforces the per-channel memory limit with the
//! reliable-evicts-unreliable policy, emits acks for reliable packets in
//! order, and reassembles frames for in-order delivery gated by the
//! last-reliable-frame barrier.

use vstd::prelude::*;

use crate::packets::DataPacket;
use crate::packets::Packet;
use crate::packets::PacketView;
use vstd::multiset::Multiset;

verus! {

/// Default per-channel memory limit, in payload bytes.
pub const PER_CHANNEL_MEMORY_LIMIT_DEFAULT: usize = 1048576;

/// Sequence numbers strictly increase along the list.
pub open spec fn spec_sorted(l: Seq<DataPacket>) -> bool {
    forall|i: int, j: int|
        0 <= i < j < l.len() ==> l[i].sequence_number < l[j].sequence_number
}

/// Some packet in the list carries this sequence number.
pub open spec fn spec_contains_sn(l: Seq<DataPacket>, sn: u64) -> bool {
    exists|i: int| 0 <= i < l.len() && l[i].sequence_number == sn
}

/// Total payload bytes held by the list.
pub open spec fn spec_payload_sum(l: Seq<DataPacket>) -> int
    decreases l.len(),
{
    if l.len() == 0 {
        0
    } else {
        l[0].payload@.len() + spec_payload_sum(l.skip(1))
    }
}

/// A payload sum is never negative.
pub proof fn lemma_payload_sum_nonneg(l: Seq<DataPacket>)
    ensures
        spec_payload_sum(l) >= 0,
    decreases l.len(),
{
    if l.len() > 0 {
        lemma_payload_sum_nonneg(l.skip(1));
    }
}

/// Payload sums add over concatenation.
pub proof fn lemma_payload_sum_concat(a: Seq<DataPacket>, b: Seq<DataPacket>)
    ensures
        spec_payload_sum(a + b) == spec_payload_sum(a) + spec_payload_sum(b),
    decreases a.len(),
{
    if a.len() == 0 {
        assert(a + b =~= b);
    } else {
        lemma_payload_sum_concat(a.skip(1), b);
        assert((a + b).skip(1) =~= a.skip(1) + b);
    }
}

/// The unreliable-eviction scan: walks the list front to back dropping
/// unreliable packets until `need` bytes are freed.  Returns the packets
/// kept and the bytes freed.
pub open spec fn spec_evict_unreliable(l: Seq<DataPacket>, need: int) -> (Seq<DataPacket>, int)
    decreases l.len(),
{
    if need <= 0 || l.len() == 0 {
        (l, 0)
    } else if !l[0].spec_is_reliable() {
        let r = spec_evict_unreliable(l.skip(1), need - l[0].payload@.len());
        (r.0, r.1 + l[0].payload@.len())
    } else {
        let r = spec_evict_unreliable(l.skip(1), need);
        (seq![l[0]] + r.0, r.1)
    }
}

/// The reliable-eviction scan: drops packets from the tail (the newest,
/// highest sequence numbers) until `need` bytes are freed.  Returns the
/// packets kept and the bytes freed.
pub open spec fn spec_evict_reliable_tail(l: Seq<DataPacket>, need: int) -> (Seq<DataPacket>, int)
    decreases l.len(),
{
    if need <= 0 || l.len() == 0 {
        (l, 0)
    } else {
        let p = l.last();
        let r = spec_evict_reliable_tail(l.drop_last(), need - p.payload@.len());
        (r.0, r.1 + p.payload@.len())
    }
}

/// A payload sum of one packet is its payload length.
pub proof fn lemma_payload_sum_singleton(p: DataPacket)
    ensures
        spec_payload_sum(seq![p]) == p.payload@.len(),
{
    assert(seq![p].skip(1) =~= Seq::<DataPacket>::empty());
    assert(spec_payload_sum(Seq::<DataPacket>::empty()) == 0);
    assert(spec_payload_sum(seq![p]) == seq![p][0].payload@.len() + spec_payload_sum(
        seq![p].skip(1),
    ));
}

/// The unreliable-eviction scan keeps every reliable packet, in order, and
/// frees exactly the dropped payload bytes.
pub proof fn lemma_evict_unreliable_keeps_reliable(l: Seq<DataPacket>, need: int)
    ensures
        ({
            let r = spec_evict_unreliable(l, need);
            &&& spec_payload_sum(r.0) + r.1 == spec_payload_sum(l)
            &&& r.1 >= 0
            &&& forall|i: int|
                0 <= i < l.len() && l[i].spec_is_reliable() ==> r.0.contains(l[i])
            &&& forall|i: int| 0 <= i < r.0.len() ==> l.contains(r.0[i])
            &&& spec_sorted(l) ==> spec_sorted(r.0)
        }),
    decreases l.len(),
{
    let r = spec_evict_unreliable(l, need);
    if need <= 0 || l.len() == 0 {
    } else if !l[0].spec_is_reliable() {
        lemma_evict_unreliable_keeps_reliable(l.skip(1), need - l[0].payload@.len());
        assert(forall|i: int|
            1 <= i < l.len() ==> l[i] == l.skip(1)[i - 1]);
        assert forall|i: int| 0 <= i < l.len() && l[i].spec_is_reliable() implies r.0.contains(
            l[i],
        ) by {
            assert(l.skip(1)[i - 1] == l[i]);
        }
        assert forall|i: int| 0 <= i < r.0.len() implies l.contains(r.0[i]) by {
            assert(l.skip(1).contains(r.0[i]));
            let w = choose|w: int| 0 <= w < l.skip(1).len() && l.skip(1)[w] == r.0[i];
            assert(l[w + 1] == r.0[i]);
        }
    } else {
        lemma_evict_unreliable_keeps_reliable(l.skip(1), need);
        let rr = spec_evict_unreliable(l.skip(1), need);
        assert(spec_payload_sum(seq![l[0]] + rr.0) == spec_payload_sum(seq![l[0]])
            + spec_payload_sum(rr.0)) by {
            lemma_payload_sum_concat(seq![l[0]], rr.0);
        }
        lemma_payload_sum_singleton(l[0]);
        assert(forall|i: int| 1 <= i < l.len() ==> l[i] == l.skip(1)[i - 1]);
        assert forall|i: int| 0 <= i < l.len() && l[i].spec_is_reliable() implies r.0.contains(
            l[i],
        ) by {
            if i == 0 {
                assert(r.0[0] == l[0]);
            } else {
                assert(l.skip(1)[i - 1] == l[i]);
                assert(rr.0.contains(l[i]));
                let w = choose|w: int| 0 <= w < rr.0.len() && rr.0[w] == l[i];
                assert(r.0[w + 1] == l[i]);
            }
        }
        assert forall|i: int| 0 <= i < r.0.len() implies l.contains(r.0[i]) by {
            if i == 0 {
                assert(r.0[0] == l[0]);
            } else {
                assert(r.0[i] == rr.0[i - 1]);
                assert(l.skip(1).contains(rr.0[i - 1]));
                let w = choose|w: int| 0 <= w < l.skip(1).len() && l.skip(1)[w] == rr.0[i - 1];
                assert(l[w + 1] == r.0[i]);
            }
        }
        if spec_sorted(l) {
            assert(spec_sorted(l.skip(1)));
            assert forall|i: int, j: int| 0 <= i < j < r.0.len() implies r.0[i].sequence_number
                < r.0[j].sequence_number by {
                if i == 0 {
                    assert(r.0[j] == rr.0[j - 1]);
                    assert(l.skip(1).contains(rr.0[j - 1]));
                    let w = choose|w: int|
                        0 <= w < l.skip(1).len() && l.skip(1)[w] == rr.0[j - 1];
                    assert(l[w + 1] == rr.0[j - 1]);
                } else {
                    assert(r.0[i] == rr.0[i - 1] && r.0[j] == rr.0[j - 1]);
                }
            }
        }
    }
}

/// The tail-eviction scan keeps a prefix of the list and frees exactly the
/// dropped payload bytes.
pub proof fn lemma_evict_reliable_tail_form(l: Seq<DataPacket>, need: int)
    ensures
        ({
            let r = spec_evict_reliable_tail(l, need);
            &&& spec_payload_sum(r.0) + r.1 == spec_payload_sum(l)
            &&& r.1 >= 0
            &&& r.0.len() <= l.len()
            &&& r.0 == l.take(r.0.len() as int)
        }),
    decreases l.len(),
{
    let r = spec_evict_reliable_tail(l, need);
    if need <= 0 || l.len() == 0 {
        assert(r.0 =~= l.take(r.0.len() as int));
    } else {
        let p = l.last();
        lemma_evict_reliable_tail_form(l.drop_last(), need - p.payload@.len());
        assert(l.drop_last() + seq![p] =~= l);
        lemma_payload_sum_concat(l.drop_last(), seq![p]);
        lemma_payload_sum_singleton(p);
        let rr = spec_evict_reliable_tail(l.drop_last(), need - p.payload@.len());
        assert(rr.0 == l.drop_last().take(rr.0.len() as int));
        assert(l.drop_last().take(rr.0.len() as int) =~= l.take(rr.0.len() as int));
    }
}

/// Handles acking and reassembly of the data packets of one channel.
#[derive(Debug, Clone, PartialEq, Eq)]
pub struct DataPacketHandler {
    /// The user channel this receiver serves.
    pub channel: i16,
    /// Highest sequence number already acknowledged or known obsolete:
    /// everything at or below it is discarded on arrival.
    pub ignore_number: u64,
    /// Sequence number of the start packet of the last reliable frame
    /// delivered on this channel.
    pub last_reliable_frame: u64,
    /// Payload bytes currently buffered, both lists together.
    pub contained_payload: usize,
    /// The per-channel memory limit, in payload bytes.
    pub limit: usize,
    /// Buffered packets already acknowledged (or unreliable), ordered by
    /// sequence number, awaiting reassembly.
    pub acked_packets: Vec<DataPacket>,
    /// Buffered reliable packets not yet acknowledged, ordered by sequence
    /// number.
    pub unacked_packets: Vec<DataPacket>,
}

impl DataPacketHandler {
    /// Both lists are ordered and disjoint, the unacked list holds only
    /// reliable packets, every buffered packet is well formed, and the
    /// byte count is exact and within the limit.
    pub open spec fn wf(self) -> bool {
        &&& spec_sorted(self.acked_packets@)
        &&& spec_sorted(self.unacked_packets@)
        &&& forall|i: int|
            0 <= i < self.unacked_packets@.len() ==> (#[trigger] self.unacked_packets@[i]).spec_is_reliable()
                && self.unacked_packets@[i].wf()
        &&& forall|i: int|
            0 <= i < self.acked_packets@.len() ==> (#[trigger] self.acked_packets@[i]).wf()
        &&& forall|i: int, j: int|
            0 <= i < self.acked_packets@.len() && 0 <= j < self.unacked_packets@.len()
                ==> self.acked_packets@[i].sequence_number
                != self.unacked_packets@[j].sequence_number
        &&& self.contained_payload == spec_payload_sum(self.acked_packets@) + spec_payload_sum(
            self.unacked_packets@,
        )
        &&& self.contained_payload <= self.limit
    }

    /// A fresh receiver for one user channel, with the default memory
    /// limit and nothing buffered.
    pub fn new(chan: i16) -> (r: DataPacketHandler)
        ensures
            r.wf(),
            r.channel == chan,
            r.ignore_number == 0,
            r.last_reliable_frame == 0,
            r.contained_payload == 0,
            r.limit == PER_CHANNEL_MEMORY_LIMIT_DEFAULT,
            r.acked_packets@.len() == 0,
            r.unacked_packets@.len() == 0,
    {
        DataPacketHandler {
            channel: chan,
            ignore_number: 0,
            last_reliable_frame: 0,
            contained_payload: 0,
            limit: PER_CHANNEL_MEMORY_LIMIT_DEFAULT,
            acked_packets: Vec::new(),
            unacked_packets: Vec::new(),
        }
    }

    /// The ack packet for one sequence number on this channel.
    pub fn ack(&self, sn: u64) -> (r: Packet)
        ensures
            r@ == (PacketView::Ack { chan: self.channel, sequence_number: sn }),
    {
        Packet::Ack { chan: self.channel, sequence_number: sn }
    }
}

/// Whether some packet in the list carries this sequence number.
fn contains_sn(list: &Vec<DataPacket>, sn: u64) -> (r: bool)
    ensures
        r == spec_contains_sn(list@, sn),
{
    let mut i: usize = 0;
    while i < list.len()
        invariant
            i <= list@.len(),
            forall|j: int| 0 <= j < i ==> list@[j].sequence_number != sn,
        decreases list@.len() - i,
    {
        if list[i].sequence_number == sn {
            return true;
        }
        i = i + 1;
    }
    false
}

/// Inserts a packet into a list ordered by sequence number.
fn insert_sorted(list: &mut Vec<DataPacket>, p: DataPacket)
    requires
        spec_sorted(old(list)@),
        !spec_contains_sn(old(list)@, p.sequence_number),
    ensures
        spec_sorted(final(list)@),
        final(list)@.len() == old(list)@.len() + 1,
        exists|k: int|
            0 <= k <= old(list)@.len() && final(list)@ == old(list)@.take(k) + seq![p] + old(
                list,
            )@.skip(k),
        spec_payload_sum(final(list)@) == spec_payload_sum(old(list)@) + p.payload@.len(),
        forall|i: int|
            0 <= i < final(list)@.len() ==> old(list)@.contains(#[trigger] final(list)@[i])
                || final(list)@[i] == p,
        forall|i: int| 0 <= i < old(list)@.len() ==> final(list)@.contains(#[trigger] old(list)@[i]),
        final(list)@.contains(p),
    {
    let mut k: usize = 0;
    while k < list.len() && list[k].sequence_number < p.sequence_number
        invariant
            k <= list@.len(),
            spec_sorted(list@),
            *list == *old(list),
            forall|j: int| 0 <= j < k ==> list@[j].sequence_number < p.sequence_number,
        decreases list@.len() - k,
    {
        k = k + 1;
    }
    proof {
        assert(forall|j: int|
            k <= j < list@.len() ==> list@[j].sequence_number > p.sequence_number) by {
            assert(forall|j: int|
                k <= j < list@.len() ==> list@[j].sequence_number != p.sequence_number);
            assert(k < list@.len() ==> list@[k as int].sequence_number > p.sequence_number);
            assert(forall|j: int|
                k < j < list@.len() ==> list@[k as int].sequence_number
                    < list@[j].sequence_number);
        }
    }
    list.insert(k, p);
    proof {
        let ghost l0 = old(list)@;
        assert(list@ =~= l0.take(k as int) + seq![p] + l0.skip(k as int));
        assert(spec_payload_sum(list@) == spec_payload_sum(l0) + p.payload@.len()) by {
            lemma_payload_sum_concat(l0.take(k as int) + seq![p], l0.skip(k as int));
            lemma_payload_sum_concat(l0.take(k as int), seq![p]);
            lemma_payload_sum_singleton(p);
            lemma_payload_sum_concat(l0.take(k as int), l0.skip(k as int));
            assert(l0.take(k as int) + l0.skip(k as int) =~= l0);
        }
        assert(spec_sorted(list@)) by {
            assert(forall|j: int| 0 <= j < k ==> list@[j] == l0[j]);
            assert(list@[k as int] == p);
            assert(forall|j: int| k < j < list@.len() ==> list@[j] == l0[j - 1]);
        }
        assert(forall|i: int| 0 <= i < l0.len() ==> list@.contains(#[trigger] l0[i])) by {
            assert(forall|i: int| 0 <= i < k ==> list@[i] == l0[i]);
            assert(forall|i: int| k <= i < l0.len() ==> list@[i + 1] == l0[i]);
        }
        assert(list@.contains(p)) by {
            assert(list@[k as int] == p);
        }
    }
}


impl DataPacketHandler {
    /// Frees room for `amount` more payload bytes, when the limit demands
    /// it: first unreliable packets are dropped front to back from the
    /// buffered list, then — if still short — reliable packets are dropped
    /// from the newest end of the unacknowledged list.  Packets already
    /// acknowledged and reliable are never evicted.
    pub fn ensure_room(&mut self, amount: usize)
        requires
            old(self).wf(),
        ensures
            final(self).wf(),
            final(self).channel == old(self).channel,
            final(self).ignore_number == old(self).ignore_number,
            final(self).last_reliable_frame == old(self).last_reliable_frame,
            final(self).limit == old(self).limit,
            amount <= old(self).limit - old(self).contained_payload ==> *final(self) == *old(self),
            ({
                let need = amount - (old(self).limit - old(self).contained_payload);
                let ev1 = spec_evict_unreliable(old(self).acked_packets@, need);
                let ev2 = spec_evict_reliable_tail(old(self).unacked_packets@, need - ev1.1);
                amount > old(self).limit - old(self).contained_payload ==> final(self).acked_packets@ == ev1.0 && final(self).unacked_packets@ == ev2.0 && final(self).contained_payload == old(self).contained_payload - ev1.1 - ev2.1
            }),
            forall|i: int|
                0 <= i < old(self).acked_packets@.len() && (#[trigger] old(
                    self,
                ).acked_packets@[i]).spec_is_reliable() ==> final(self).acked_packets@.contains(
                    old(self).acked_packets@[i],
                ),
    {
        let have = self.limit - self.contained_payload;
        if amount <= have {
            return ;
        }
        let need: usize = amount - have;
        let ghost a0 = self.acked_packets@;
        let ghost u0 = self.unacked_packets@;
        proof {
            lemma_evict_unreliable_keeps_reliable(a0, need as int);
        }
        // Scan the buffered list front to back, dropping unreliable packets.
        let mut kept: Vec<DataPacket> = Vec::new();
        let mut freed: usize = 0;
        proof {
            lemma_payload_sum_nonneg(a0);
            lemma_payload_sum_nonneg(u0);
        }
        while self.acked_packets.len() > 0 && freed < need
            invariant
                self.channel == old(self).channel,
                self.ignore_number == old(self).ignore_number,
                self.last_reliable_frame == old(self).last_reliable_frame,
                self.limit == old(self).limit,
                self.contained_payload == old(self).contained_payload,
                self.unacked_packets@ == u0,
                need == amount - (old(self).limit - old(self).contained_payload),
                freed + spec_payload_sum(kept@) + spec_payload_sum(self.acked_packets@)
                    == spec_payload_sum(a0),
                freed <= spec_payload_sum(a0),
                spec_payload_sum(self.acked_packets@) >= 0,
                spec_payload_sum(kept@) >= 0,
                spec_payload_sum(a0) + spec_payload_sum(u0) == old(self).contained_payload,
                spec_payload_sum(u0) >= 0,
                spec_payload_sum(a0) >= 0,
                ({
                    let full = spec_evict_unreliable(a0, need as int);
                    let sub = spec_evict_unreliable(self.acked_packets@, need - freed);
                    full.0 == kept@ + sub.0 && full.1 == freed + sub.1
                }),
            decreases self.acked_packets@.len(),
        {
            let ghost cur = self.acked_packets@;
            proof {
                assert(spec_payload_sum(cur) == cur[0].payload@.len() + spec_payload_sum(
                    cur.skip(1),
                ));
                lemma_payload_sum_nonneg(cur.skip(1));
                lemma_payload_sum_nonneg(kept@);
                lemma_evict_unreliable_keeps_reliable(cur.skip(1), need - freed
                    - cur[0].payload@.len());
                lemma_evict_unreliable_keeps_reliable(cur.skip(1), need - freed);
            }
            let ghost kept0 = kept@;
            let p = self.acked_packets.remove(0);
            if p.is_reliable() {
                kept.push(p);
                proof {
                    let sub = spec_evict_unreliable(cur, need - freed);
                    assert(sub.0 == seq![cur[0]] + spec_evict_unreliable(
                        cur.skip(1),
                        need - freed,
                    ).0);
                    assert(kept@ =~= kept0 + seq![cur[0]]);
                    assert(kept@ + spec_evict_unreliable(cur.skip(1), need - freed).0 =~= kept0
                        + sub.0);
                    lemma_payload_sum_concat(kept0, seq![cur[0]]);
                    lemma_payload_sum_singleton(cur[0]);
                    lemma_payload_sum_nonneg(kept@);
                }
            } else {
                proof {
                    lemma_payload_sum_nonneg(spec_evict_unreliable(
                        cur.skip(1),
                        need - freed - cur[0].payload@.len(),
                    ).0);
                }
                freed = freed + p.borrow_payload().len();
            }
        }
        proof {
            let sub = spec_evict_unreliable(self.acked_packets@, need - freed);
            if self.acked_packets@.len() == 0 || need - freed <= 0 {
                assert(sub.0 == self.acked_packets@ && sub.1 == 0);
            }
        }
        kept.append(&mut self.acked_packets);
        self.acked_packets = kept;
        proof {
            let full = spec_evict_unreliable(a0, need as int);
            assert(self.acked_packets@ == full.0 && freed == full.1);
        }
        // If still short, drop reliable packets from the newest end of the
        // unacknowledged list.
        let mut freed_tail: usize = 0;
        proof {
            lemma_evict_reliable_tail_form(u0, need - freed);
        }
        while self.unacked_packets.len() > 0 && freed + freed_tail < need
            invariant
                self.channel == old(self).channel,
                self.ignore_number == old(self).ignore_number,
                self.last_reliable_frame == old(self).last_reliable_frame,
                self.limit == old(self).limit,
                self.contained_payload == old(self).contained_payload,
                self.acked_packets@ == spec_evict_unreliable(a0, need as int).0,
                freed == spec_evict_unreliable(a0, need as int).1,
                need == amount - (old(self).limit - old(self).contained_payload),
                freed_tail + spec_payload_sum(self.unacked_packets@) == spec_payload_sum(u0),
                freed_tail <= spec_payload_sum(u0),
                spec_payload_sum(self.unacked_packets@) >= 0,
                spec_payload_sum(a0) + spec_payload_sum(u0) == old(self).contained_payload,
                spec_payload_sum(u0) >= 0,
                spec_payload_sum(a0) >= 0,
                freed <= spec_payload_sum(a0),
                ({
                    let full = spec_evict_reliable_tail(u0, need - freed);
                    let sub = spec_evict_reliable_tail(
                        self.unacked_packets@,
                        need - freed - freed_tail,
                    );
                    full.0 == sub.0 && full.1 == freed_tail + sub.1
                }),
            decreases self.unacked_packets@.len(),
        {
            let ghost cur = self.unacked_packets@;
            proof {
                lemma_payload_sum_nonneg(cur.drop_last());
                lemma_payload_sum_concat(cur.drop_last(), seq![cur.last()]);
                lemma_payload_sum_singleton(cur.last());
                assert(cur.drop_last() + seq![cur.last()] =~= cur);
                lemma_evict_reliable_tail_form(cur.drop_last(), need - freed - freed_tail
                    - cur.last().payload@.len());
            }
            let p = match self.unacked_packets.pop() {
                Some(p) => p,
                None => {
                    proof {
                        assert(false);
                    }
                    return ;
                },
            };
            freed_tail = freed_tail + p.borrow_payload().len();
        }
        proof {
            let sub = spec_evict_reliable_tail(self.unacked_packets@, need - freed - freed_tail);
            if self.unacked_packets@.len() == 0 || need - freed - freed_tail <= 0 {
                assert(sub.0 == self.unacked_packets@ && sub.1 == 0);
            }
            let full = spec_evict_reliable_tail(u0, need - freed);
            assert(self.unacked_packets@ == full.0 && freed_tail == full.1);
        }
        self.contained_payload = self.contained_payload - freed - freed_tail;
        proof {
            let ev1 = spec_evict_unreliable(a0, need as int);
            let ev2 = spec_evict_reliable_tail(u0, need - freed);
            lemma_evict_unreliable_keeps_reliable(a0, need as int);
            lemma_evict_reliable_tail_form(u0, need - freed);
            assert(spec_sorted(self.unacked_packets@)) by {
                assert(forall|i: int|
                    0 <= i < ev2.0.len() ==> ev2.0[i] == u0[i]);
            }
            assert(forall|i: int|
                0 <= i < self.unacked_packets@.len() ==> (#[trigger] self.unacked_packets@[i])
                    == u0[i]);
            assert forall|i: int, j: int|
                0 <= i < self.acked_packets@.len() && 0 <= j < self.unacked_packets@.len() implies
                self.acked_packets@[i].sequence_number
                != self.unacked_packets@[j].sequence_number by {
                assert(a0.contains(self.acked_packets@[i]));
                let w = choose|w: int| 0 <= w < a0.len() && a0[w] == self.acked_packets@[i];
                assert(a0[w].sequence_number != u0[j].sequence_number);
            }
        }
    }
}


/// The ack-promotion walk: packets are taken off the front of the
/// unacknowledged list while each continues the acknowledged run (one past
/// the ignore number) or directly follows the last delivered reliable
/// frame; each taken packet becomes the new ignore number.  Returns the
/// packets promoted, the packets left, and the new ignore number.
pub open spec fn spec_promote(l: Seq<DataPacket>, ignore: u64, lrf: u64) -> (
    Seq<DataPacket>,
    Seq<DataPacket>,
    u64,
)
    decreases l.len(),
{
    if l.len() == 0 {
        (Seq::<DataPacket>::empty(), l, ignore)
    } else {
        let p = l[0];
        if p.sequence_number == ignore + 1 || p.sequence_number == lrf + 1 {
            let r = spec_promote(l.skip(1), p.sequence_number, lrf);
            (seq![p] + r.0, r.1, r.2)
        } else {
            (Seq::<DataPacket>::empty(), l, ignore)
        }
    }
}

/// A sorted insertion shows up in the multiset as one more copy of the
/// inserted packet.
proof fn proof_to_multiset_insert(s: Seq<DataPacket>, i: int, a: DataPacket)
    requires
        0 <= i <= s.len(),
    ensures
        s.insert(i, a).to_multiset() == s.to_multiset().insert(a),
{
    vstd::seq_lib::to_multiset_insert(s, i, a);
}

impl DataPacketHandler {
    /// Admits one incoming data packet, following the admission rules: a
    /// sequence number at or below the ignore number is obsolete (a
    /// reliable one gets its ack re-emitted); a duplicate of a buffered
    /// packet is discarded (again re-acked when reliable and already
    /// acknowledged); a fresh packet is buffered when it fits the memory
    /// limit, a reliable one evicting less important packets first.
    /// Returns the ack to re-emit, if any.
    pub fn handle_incoming_packet(&mut self, packet: DataPacket) -> (r: Option<Packet>)
        requires
            old(self).wf(),
            packet.wf(),
        ensures
            spec_admission_rel(*old(self), *final(self), packet, r),
    {
        let sn = packet.sequence_number;
        let reliable = packet.is_reliable();
        if sn <= self.ignore_number {
            if reliable {
                return Some(self.ack(sn));
            } else {
                return None;
            }
        }
        if contains_sn(&self.acked_packets, sn) {
            if reliable {
                return Some(self.ack(sn));
            } else {
                return None;
            }
        }
        if contains_sn(&self.unacked_packets, sn) {
            return None;
        }
        let len = packet.borrow_payload().len();
        if reliable {
            self.ensure_room(len);
        }
        if len > self.limit - self.contained_payload {
            return None;
        }
        let new_contained = self.contained_payload + len;
        proof {
            if reliable && len > old(self).limit - old(self).contained_payload {
                let have = old(self).limit - old(self).contained_payload;
                let ev1 = spec_evict_unreliable(old(self).acked_packets@, len - have);
                lemma_evict_unreliable_keeps_reliable(old(self).acked_packets@, len - have);
                lemma_evict_reliable_tail_form(old(self).unacked_packets@, len - have - ev1.1);
            }
            assert(forall|i: int|
                0 <= i < self.unacked_packets@.len() ==> (#[trigger] self.unacked_packets@[i])
                    == old(self).unacked_packets@[i]);
            assert(!spec_contains_sn(self.acked_packets@, sn)) by {
                assert forall|i: int| 0 <= i < self.acked_packets@.len() implies (
                #[trigger] self.acked_packets@[i]).sequence_number != sn by {
                    assert(old(self).acked_packets@.contains(self.acked_packets@[i]));
                    let w = choose|w: int|
                        0 <= w < old(self).acked_packets@.len() && old(self).acked_packets@[w]
                            == self.acked_packets@[i];
                }
            }
            assert(!spec_contains_sn(self.unacked_packets@, sn));
        }
        let ghost pre = *self;
        if reliable {
            insert_sorted(&mut self.unacked_packets, packet);
        } else {
            insert_sorted(&mut self.acked_packets, packet);
        }
        self.contained_payload = new_contained;
        proof {
            if reliable {
                let l0 = pre.unacked_packets@;
                let k = choose|k: int|
                    0 <= k <= l0.len() && self.unacked_packets@ == l0.take(k) + seq![packet]
                        + l0.skip(k);
                assert(self.unacked_packets@ =~= l0.insert(k, packet));
                proof_to_multiset_insert(l0, k, packet);
                assert forall|i: int, j: int|
                    0 <= i < self.acked_packets@.len() && 0 <= j < self.unacked_packets@.len()
                        implies self.acked_packets@[i].sequence_number
                    != self.unacked_packets@[j].sequence_number by {
                    assert(l0.contains(self.unacked_packets@[j]) || self.unacked_packets@[j]
                        == packet);
                }
            } else {
                let l0 = pre.acked_packets@;
                let k = choose|k: int|
                    0 <= k <= l0.len() && self.acked_packets@ == l0.take(k) + seq![packet]
                        + l0.skip(k);
                assert(self.acked_packets@ =~= l0.insert(k, packet));
                proof_to_multiset_insert(l0, k, packet);
                assert forall|i: int, j: int|
                    0 <= i < self.acked_packets@.len() && 0 <= j < self.unacked_packets@.len()
                        implies self.acked_packets@[i].sequence_number
                    != self.unacked_packets@[j].sequence_number by {
                    assert(l0.contains(self.acked_packets@[i]) || self.acked_packets@[i]
                        == packet);
                }
            }
        }
        None
    }
}


impl DataPacketHandler {
    /// Emits the acks that are due: walks the unacknowledged list in
    /// sequence-number order, and for each packet continuing the
    /// acknowledged run (or directly following the last delivered reliable
    /// frame) emits its ack, advances the ignore number to it, and moves it
    /// to the acknowledged list; the walk stops at the first gap.
    pub fn do_acks(&mut self) -> (acks: Vec<Packet>)
        requires
            old(self).wf(),
        ensures
            spec_promotion_rel(*old(self), *final(self), acks@),
    {
        let ghost u0 = self.unacked_packets@;
        let ghost ig0 = self.ignore_number;
        let ghost lrf = self.last_reliable_frame;
        let ghost a0 = self.acked_packets@;
        let mut acks: Vec<Packet> = Vec::new();
        let mut promoted_g: Ghost<Seq<DataPacket>> = Ghost(Seq::<DataPacket>::empty());
        proof {
            Seq::<DataPacket>::empty().to_multiset_ensures();
            assert(promoted_g@.to_multiset() =~= Multiset::<DataPacket>::empty());
            assert(a0.to_multiset().add(Multiset::<DataPacket>::empty()) =~= a0.to_multiset());
        }
        loop
            invariant
                self.wf(),
                self.channel == old(self).channel,
                self.last_reliable_frame == old(self).last_reliable_frame,
                self.limit == old(self).limit,
                self.contained_payload == old(self).contained_payload,
                u0 == old(self).unacked_packets@,
                ig0 == old(self).ignore_number,
                lrf == old(self).last_reliable_frame,
                a0 == old(self).acked_packets@,
                ({
                    let full = spec_promote(u0, ig0, lrf);
                    let sub = spec_promote(self.unacked_packets@, self.ignore_number, lrf);
                    full.0 == promoted_g@ + sub.0 && full.1 == sub.1 && full.2 == sub.2
                }),
                acks@.len() == promoted_g@.len(),
                forall|k: int|
                    0 <= k < promoted_g@.len() ==> acks@[k]@ == (PacketView::Ack {
                        chan: old(self).channel,
                        sequence_number: promoted_g@[k].sequence_number,
                    }),
                self.acked_packets@.to_multiset() == a0.to_multiset().add(
                    promoted_g@.to_multiset(),
                ),
            ensures
                self.wf(),
                self.channel == old(self).channel,
                self.last_reliable_frame == old(self).last_reliable_frame,
                self.limit == old(self).limit,
                self.contained_payload == old(self).contained_payload,
                ({
                    let pr = spec_promote(u0, ig0, lrf);
                    &&& pr.1 == self.unacked_packets@
                    &&& pr.2 == self.ignore_number
                    &&& pr.0 == promoted_g@
                    &&& self.acked_packets@.to_multiset() == a0.to_multiset().add(
                        promoted_g@.to_multiset(),
                    )
                }),
                acks@.len() == promoted_g@.len(),
                forall|k: int|
                    0 <= k < promoted_g@.len() ==> acks@[k]@ == (PacketView::Ack {
                        chan: old(self).channel,
                        sequence_number: promoted_g@[k].sequence_number,
                    }),
                u0 == old(self).unacked_packets@,
                ig0 == old(self).ignore_number,
                lrf == old(self).last_reliable_frame,
                a0 == old(self).acked_packets@,
            decreases self.unacked_packets@.len(),
        {
            if self.unacked_packets.len() == 0 {
                proof {
                    let sub = spec_promote(self.unacked_packets@, self.ignore_number, lrf);
                    assert(promoted_g@ + sub.0 =~= promoted_g@);
                }
                break ;
            }
            let head_sn = self.unacked_packets[0].sequence_number;
            let continues_run = head_sn > self.ignore_number && head_sn - self.ignore_number == 1;
            let follows_frame = head_sn > self.last_reliable_frame && head_sn
                - self.last_reliable_frame == 1;
            if !(continues_run || follows_frame) {
                proof {
                    let sub = spec_promote(self.unacked_packets@, self.ignore_number, lrf);
                    assert(promoted_g@ + sub.0 =~= promoted_g@);
                }
                break ;
            }
            let ghost cur = self.unacked_packets@;
            let p = self.unacked_packets.remove(0);
            let ack = self.ack(p.sequence_number);
            acks.push(ack);
            self.ignore_number = p.sequence_number;
            proof {
                assert(spec_payload_sum(cur) == cur[0].payload@.len() + spec_payload_sum(
                    cur.skip(1),
                ));
                assert(!spec_contains_sn(self.acked_packets@, p.sequence_number)) by {
                    assert(forall|i: int|
                        0 <= i < self.unacked_packets@.len()
                            ==> #[trigger] self.unacked_packets@[i] == cur[i + 1]);
                }
            }
            let ghost a_pre = self.acked_packets@;
            insert_sorted(&mut self.acked_packets, p);
            proof {
                let k = choose|k: int|
                    0 <= k <= a_pre.len() && self.acked_packets@ == a_pre.take(k) + seq![p]
                        + a_pre.skip(k);
                assert(self.acked_packets@ =~= a_pre.insert(k, p));
                proof_to_multiset_insert(a_pre, k, p);
            }
            let ghost before = promoted_g@;
            promoted_g = Ghost(promoted_g@.push(p));
            proof {
                assert(promoted_g@.to_multiset() =~= before.to_multiset().insert(p)) by {
                    before.to_multiset_ensures();
                }
                assert(self.acked_packets@.to_multiset() =~= a0.to_multiset().add(
                    promoted_g@.to_multiset(),
                ));
                assert(forall|i: int|
                    0 <= i < self.unacked_packets@.len() ==> (#[trigger] self.unacked_packets@[i])
                        == cur[i + 1]);
                assert(forall|i: int, j: int|
                    0 <= i < self.acked_packets@.len() && 0 <= j < self.unacked_packets@.len()
                        ==> self.acked_packets@[i].sequence_number
                        != self.unacked_packets@[j].sequence_number) by {
                    assert(forall|i: int|
                        0 <= i < self.acked_packets@.len() ==> a_pre.contains(
                            #[trigger] self.acked_packets@[i],
                        ) || self.acked_packets@[i] == p);
                }
            }
        }
        acks
    }
}


/// Index of the first packet carrying the frame-start flag.
pub open spec fn spec_first_start(l: Seq<DataPacket>) -> Option<int>
    decreases l.len(),
{
    if l.len() == 0 {
        None
    } else if l[0].spec_is_frame_start() {
        Some(0)
    } else {
        match spec_first_start(l.skip(1)) {
            Some(i) => Some(i + 1),
            None => None,
        }
    }
}

/// A start flag preceded only by flagless packets is the first one.
proof fn lemma_first_start_found(l: Seq<DataPacket>, i: int)
    requires
        0 <= i < l.len(),
        l[i].spec_is_frame_start(),
        forall|j: int| 0 <= j < i ==> !l[j].spec_is_frame_start(),
    ensures
        spec_first_start(l) == Some(i),
    decreases i,
{
    if i == 0 {
    } else {
        lemma_first_start_found(l.skip(1), i - 1);
    }
}

/// Without a start flag nothing is found.
proof fn lemma_first_start_none(l: Seq<DataPacket>)
    requires
        forall|j: int| 0 <= j < l.len() ==> !l[j].spec_is_frame_start(),
    ensures
        spec_first_start(l) is None,
    decreases l.len(),
{
    if l.len() > 0 {
        lemma_first_start_none(l.skip(1));
    }
}

/// The first start found lies inside the list, carries the flag, and
/// nothing before it does.
proof fn lemma_first_start_bounds(l: Seq<DataPacket>)
    ensures
        spec_first_start(l) matches Some(i) ==> 0 <= i < l.len() && l[i].spec_is_frame_start()
            && forall|j: int| 0 <= j < i ==> !l[j].spec_is_frame_start(),
    decreases l.len(),
{
    if l.len() > 0 && !l[0].spec_is_frame_start() {
        lemma_first_start_bounds(l.skip(1));
        assert(forall|j: int| 1 <= j < l.len() ==> l[j] == l.skip(1)[j - 1]);
    }
}

/// The walk from a frame's start packet to its end packet: steps forward
/// while each next packet directly continues the sequence numbers and does
/// not start a new frame, and stops at the first packet carrying the
/// frame-end flag.  A gap, a misplaced start, or a missing end aborts.
pub open spec fn spec_frame_end_index(l: Seq<DataPacket>, i: int) -> Option<int>
    decreases l.len() - i,
    when 0 <= i < l.len()
{
    if l[i].spec_is_frame_end() {
        Some(i)
    } else if i + 1 < l.len() && l[i + 1].sequence_number == l[i].sequence_number + 1 && !l[i
        + 1].spec_is_frame_start() {
        spec_frame_end_index(l, i + 1)
    } else {
        None
    }
}

/// The frame's end packet lies between the start and the end of the list.
proof fn lemma_frame_end_bounds(l: Seq<DataPacket>, i: int)
    requires
        0 <= i < l.len(),
    ensures
        spec_frame_end_index(l, i) matches Some(e) ==> i <= e < l.len(),
    decreases l.len() - i,
{
    if !l[i].spec_is_frame_end() && i + 1 < l.len() && l[i + 1].sequence_number
        == l[i].sequence_number + 1 && !l[i + 1].spec_is_frame_start() {
        lemma_frame_end_bounds(l, i + 1);
    }
}

/// Whether one frame is ready: its start is the lowest buffered start
/// packet, every reliable frame before it has been delivered, and its
/// packets sit in the buffer without gaps up to its end.
pub open spec fn spec_try_deliver(l: Seq<DataPacket>, lrf: u64) -> Option<(int, int)> {
    match spec_first_start(l) {
        None => None,
        Some(i) => match l[i].header {
            Some(h) => if h.last_reliable_frame == lrf {
                match spec_frame_end_index(l, i) {
                    Some(e) => Some((i, e)),
                    None => None,
                }
            } else {
                None
            },
            None => None,
        },
    }
}

/// The payloads of the packets `i..=e`, concatenated in order.
pub open spec fn spec_concat_payloads(l: Seq<DataPacket>, i: int, e: int) -> Seq<u8>
    decreases e + 1 - i,
    when i <= e + 1
{
    if i > e {
        Seq::<u8>::empty()
    } else {
        l[i].payload@ + spec_concat_payloads(l, i + 1, e)
    }
}

/// One round of frame delivery, repeated until no frame is ready: the
/// frames assembled, the packets left, and the new last reliable frame.
pub open spec fn spec_deliver_all(l: Seq<DataPacket>, lrf: u64) -> (
    Seq<Seq<u8>>,
    Seq<DataPacket>,
    u64,
)
    decreases l.len(),
    via spec_deliver_all_decreases
{
    match spec_try_deliver(l, lrf) {
        None => (Seq::<Seq<u8>>::empty(), l, lrf),
        Some(ie) => {
            let lrf2 = if l[ie.0].spec_is_reliable() {
                l[ie.0].sequence_number
            } else {
                lrf
            };
            let rest = spec_deliver_all(l.take(ie.0) + l.skip(ie.1 + 1), lrf2);
            (seq![spec_concat_payloads(l, ie.0, ie.1)] + rest.0, rest.1, rest.2)
        },
    }
}

#[via_fn]
proof fn spec_deliver_all_decreases(l: Seq<DataPacket>, lrf: u64) {
    match spec_try_deliver(l, lrf) {
        Some(ie) => {
            lemma_first_start_bounds(l);
            lemma_frame_end_bounds(l, ie.0);
        },
        None => {},
    }
}

impl DataPacketHandler {
    /// Attempts to deliver the one frame that is ready, if any: assembles
    /// its payload bytes, removes its packets from the buffer, and — when
    /// the frame was reliable — records its start packet as the last
    /// delivered reliable frame.
    #[verifier::rlimit(100)]
    fn deliver_one(&mut self) -> (r: Option<Vec<u8>>)
        requires
            old(self).wf(),
        ensures
            final(self).wf(),
            final(self).channel == old(self).channel,
            final(self).ignore_number == old(self).ignore_number,
            final(self).limit == old(self).limit,
            final(self).unacked_packets@ == old(self).unacked_packets@,
            match spec_try_deliver(old(self).acked_packets@, old(self).last_reliable_frame) {
                None => r is None && *final(self) == *old(self),
                Some(ie) => r matches Some(bytes) && bytes@ == spec_concat_payloads(
                    old(self).acked_packets@,
                    ie.0,
                    ie.1,
                ) && final(self).acked_packets@ == old(self).acked_packets@.take(ie.0) + old(
                    self,
                ).acked_packets@.skip(ie.1 + 1) && final(self).contained_payload == old(
                    self,
                ).contained_payload - spec_payload_sum(
                    old(self).acked_packets@.subrange(ie.0, ie.1 + 1),
                ) && final(self).last_reliable_frame == (
                if old(self).acked_packets@[ie.0].spec_is_reliable() {
                    old(self).acked_packets@[ie.0].sequence_number
                } else {
                    old(self).last_reliable_frame
                }),
            },
    {
        let ghost l = self.acked_packets@;
        // Find the lowest-sequence buffered packet that starts a frame.
        let mut i: usize = 0;
        loop
            invariant
                self.wf(),
                l == self.acked_packets@,
                i <= l.len(),
                forall|j: int| 0 <= j < i ==> !l[j].spec_is_frame_start(),
            ensures
                self.wf(),
                l == self.acked_packets@,
                *self == *old(self),
                if i < l.len() {
                    spec_first_start(l) == Some(i as int)
                } else {
                    spec_first_start(l) is None
                },
            decreases l.len() - i,
        {
            if i >= self.acked_packets.len() {
                proof {
                    lemma_first_start_none(l);
                }
                break ;
            }
            if self.acked_packets[i].is_frame_start() {
                proof {
                    lemma_first_start_found(l, i as int);
                }
                break ;
            }
            i = i + 1;
        }
        if i >= self.acked_packets.len() {
            return None;
        }
        // A reliable frame that is still owed delivery blocks everything.
        let blocked = match self.acked_packets[i].borrow_header() {
            Some(h) => h.last_reliable_frame != self.last_reliable_frame,
            None => true,
        };
        if blocked {
            return None;
        }
        // Walk the consecutive run to the frame's end.
        let mut e: usize = i;
        let mut complete = false;
        loop
            invariant
                self.wf(),
                l == self.acked_packets@,
                l.len() <= usize::MAX,
                i <= e < l.len(),
                spec_frame_end_index(l, i as int) == spec_frame_end_index(l, e as int),
            ensures
                self.wf(),
                l == self.acked_packets@,
                *self == *old(self),
                i <= e < l.len(),
                complete ==> spec_frame_end_index(l, i as int) == Some(e as int),
                !complete ==> spec_frame_end_index(l, i as int) is None,
            decreases l.len() - e,
        {
            if self.acked_packets[e].is_frame_end() {
                complete = true;
                break ;
            }
            if e + 1 < self.acked_packets.len() {
                let here_sn = self.acked_packets[e].sequence_number;
                let next_sn = self.acked_packets[e + 1].sequence_number;
                if next_sn > here_sn && next_sn - here_sn == 1 && !self.acked_packets[e
                    + 1].is_frame_start() {
                    e = e + 1;
                    continue ;
                }
            }
            complete = false;
            break ;
        }
        if !complete {
            return None;
        }
        // Assemble the frame and drop its packets from the buffer.
        let mut bytes: Vec<u8> = Vec::new();
        let mut freed: usize = 0;
        let mut j: usize = i;
        proof {
            lemma_payload_sum_nonneg(l.subrange(i as int, e + 1));
            lemma_payload_sum_split(l, i as int, e + 1);
            lemma_payload_sum_nonneg(l.take(i as int));
            lemma_payload_sum_nonneg(l.skip(e + 1));
            lemma_payload_sum_nonneg(self.unacked_packets@);
        }
        while j <= e
            invariant
                self.wf(),
                l == self.acked_packets@,
                l.len() <= usize::MAX,
                i <= j <= e + 1,
                i <= e < l.len(),
                bytes@ + spec_concat_payloads(l, j as int, e as int) == spec_concat_payloads(
                    l,
                    i as int,
                    e as int,
                ),
                freed + spec_payload_sum(l.subrange(j as int, e + 1)) == spec_payload_sum(
                    l.subrange(i as int, e + 1),
                ),
                spec_payload_sum(l.subrange(i as int, e + 1)) <= self.contained_payload,
                freed <= spec_payload_sum(l.subrange(i as int, e + 1)),
            decreases e + 1 - j,
        {
            proof {
                assert(l.subrange(j as int, e + 1)[0] == l[j as int]);
                assert(l.subrange(j as int, e + 1).skip(1) =~= l.subrange(j + 1, e + 1));
                lemma_payload_sum_nonneg(l.subrange(j + 1, e + 1));
            }
            let p = &self.acked_packets[j];
            bytes.extend_from_slice(p.borrow_payload().as_slice());
            freed = freed + p.borrow_payload().len();
            proof {
                assert(bytes@ + spec_concat_payloads(l, j + 1, e as int) =~= spec_concat_payloads(
                    l,
                    i as int,
                    e as int,
                ));
            }
            j = j + 1;
        }
        proof {
            assert(spec_concat_payloads(l, e + 1, e as int) =~= Seq::<u8>::empty());
            assert(bytes@ =~= spec_concat_payloads(l, i as int, e as int));
            assert(l.subrange(e + 1, e + 1) =~= Seq::<DataPacket>::empty());
            assert(freed == spec_payload_sum(l.subrange(i as int, e + 1)));
        }
        let is_reliable = self.acked_packets[i].is_reliable();
        let new_lrf = self.acked_packets[i].sequence_number;
        let mut removed: usize = 0;
        let total: usize = e - i + 1;
        while removed < total
            invariant
                i + total == e + 1,
                i <= e < l.len(),
                removed <= total,
                self.acked_packets@ == l.take(i as int) + l.skip(i + removed),
                self.channel == old(self).channel,
                self.ignore_number == old(self).ignore_number,
                self.limit == old(self).limit,
                self.last_reliable_frame == old(self).last_reliable_frame,
                self.contained_payload == old(self).contained_payload,
                self.unacked_packets@ == old(self).unacked_packets@,
            decreases total - removed,
        {
            proof {
                assert(l.take(i as int).len() == i);
                assert((l.take(i as int) + l.skip(i + removed)).remove(i as int) =~= l.take(
                    i as int,
                ) + l.skip(i + removed + 1));
            }
            let _removed = self.acked_packets.remove(i);
            removed = removed + 1;
            proof {
                assert(self.acked_packets@ =~= l.take(i as int) + l.skip(i + removed));
            }
        }
        self.contained_payload = self.contained_payload - freed;
        if is_reliable {
            self.last_reliable_frame = new_lrf;
        }
        proof {
            assert(self.acked_packets@ == l.take(i as int) + l.skip(e + 1));
            lemma_payload_sum_concat(l.take(i as int), l.skip(e + 1));
            assert(spec_sorted(self.acked_packets@)) by {
                assert forall|x: int, y: int|
                    0 <= x < y < self.acked_packets@.len() implies self.acked_packets@[x].sequence_number
                    < self.acked_packets@[y].sequence_number by {
                    let lx: int = if x < i {
                        x
                    } else {
                        x + (e + 1 - i)
                    };
                    let ly: int = if y < i {
                        y
                    } else {
                        y + (e + 1 - i)
                    };
                    assert(self.acked_packets@[x] == l[lx] && self.acked_packets@[y] == l[ly]);
                }
            }
            assert forall|x: int, y: int|
                0 <= x < self.acked_packets@.len() && 0 <= y < self.unacked_packets@.len() implies
                self.acked_packets@[x].sequence_number
                != self.unacked_packets@[y].sequence_number by {
                let lx: int = if x < i {
                    x
                } else {
                    x + (e + 1 - i)
                };
                assert(self.acked_packets@[x] == l[lx]);
            }
            assert(forall|x: int|
                0 <= x < self.acked_packets@.len() ==> (#[trigger] self.acked_packets@[x]).wf())
                by {
                assert(forall|x: int|
                    0 <= x < self.acked_packets@.len() ==> self.acked_packets@[x] == (if x < i {
                        l[x]
                    } else {
                        l[x + (e + 1 - i)]
                    }));
            }
        }
        Some(bytes)
    }

    /// Delivers every frame that is ready, in order: repeatedly finds the
    /// lowest buffered frame start, checks the reliable-frame barrier,
    /// reassembles the consecutive run to the frame's end, and hands the
    /// assembled payload out.
    pub fn deliver(&mut self) -> (frames: Vec<Vec<u8>>)
        requires
            old(self).wf(),
        ensures
            spec_delivery_rel(*old(self), *final(self), frames@),
    {
        let ghost l0 = self.acked_packets@;
        let ghost lrf0 = self.last_reliable_frame;
        let mut frames: Vec<Vec<u8>> = Vec::new();
        let mut delivered_g: Ghost<Seq<Seq<u8>>> = Ghost(Seq::<Seq<u8>>::empty());
        loop
            invariant
                self.wf(),
                self.channel == old(self).channel,
                self.ignore_number == old(self).ignore_number,
                self.limit == old(self).limit,
                self.unacked_packets@ == old(self).unacked_packets@,
                l0 == old(self).acked_packets@,
                lrf0 == old(self).last_reliable_frame,
                ({
                    let full = spec_deliver_all(l0, lrf0);
                    let sub = spec_deliver_all(self.acked_packets@, self.last_reliable_frame);
                    full.0 == delivered_g@ + sub.0 && full.1 == sub.1 && full.2 == sub.2
                }),
                frames@.len() == delivered_g@.len(),
                forall|k: int| 0 <= k < delivered_g@.len() ==> frames@[k]@ == delivered_g@[k],
            ensures
                self.wf(),
                self.channel == old(self).channel,
                self.ignore_number == old(self).ignore_number,
                self.limit == old(self).limit,
                self.unacked_packets@ == old(self).unacked_packets@,
                ({
                    let da = spec_deliver_all(old(self).acked_packets@, old(
                        self,
                    ).last_reliable_frame);
                    &&& self.acked_packets@ == da.1
                    &&& self.last_reliable_frame == da.2
                    &&& da.0 == delivered_g@
                }),
                frames@.len() == delivered_g@.len(),
                forall|k: int| 0 <= k < delivered_g@.len() ==> frames@[k]@ == delivered_g@[k],
            decreases self.acked_packets@.len(),
        {
            let ghost cur = self.acked_packets@;
            let ghost cur_lrf = self.last_reliable_frame;
            proof {
                match spec_try_deliver(cur, cur_lrf) {
                    Some(ie) => {
                        lemma_first_start_bounds(cur);
                        lemma_frame_end_bounds(cur, ie.0);
                    },
                    None => {},
                }
            }
            match self.deliver_one() {
                Some(b) => {
                    let ghost before = delivered_g@;
                    delivered_g = Ghost(delivered_g@.push(b@));
                    frames.push(b);
                    proof {
                        let ie = spec_try_deliver(cur, cur_lrf)->Some_0;
                        assert(delivered_g@ =~= before + seq![spec_concat_payloads(
                            cur,
                            ie.0,
                            ie.1,
                        )]);
                        let sub2 = spec_deliver_all(
                            self.acked_packets@,
                            self.last_reliable_frame,
                        );
                        assert(before + (seq![spec_concat_payloads(cur, ie.0, ie.1)] + sub2.0)
                            =~= delivered_g@ + sub2.0);
                    }
                },
                None => {
                    proof {
                        let sub = spec_deliver_all(self.acked_packets@, self.last_reliable_frame);
                        assert(delivered_g@ + sub.0 =~= delivered_g@);
                    }
                    break ;
                },
            }
        }
        frames
    }
}

/// A payload sum splits at any two cut points.
proof fn lemma_payload_sum_split(l: Seq<DataPacket>, i: int, e1: int)
    requires
        0 <= i <= e1 <= l.len(),
    ensures
        spec_payload_sum(l) == spec_payload_sum(l.take(i)) + spec_payload_sum(l.subrange(i, e1))
            + spec_payload_sum(l.skip(e1)),
{
    lemma_payload_sum_concat(l.take(i), l.subrange(i, e1));
    lemma_payload_sum_concat(l.take(i) + l.subrange(i, e1), l.skip(e1));
    assert(l.take(i) + l.subrange(i, e1) + l.skip(e1) =~= l);
    assert(l.take(i) + l.subrange(i, e1) =~= l.take(e1));
}


/// The memory-limit invariant: whatever sequence of admissions, acks and
/// deliveries a well-formed receiver has been through, the payload bytes it
/// buffers never exceed its limit.
pub proof fn lemma_memory_limit_holds(h: DataPacketHandler)
    requires
        h.wf(),
    ensures
        h.contained_payload <= h.limit,
{
}


/// The admission relation: everything `handle_incoming_packet` promises of
/// one incoming data packet, as a relation between the receiver before
/// (`pre`) and after (`post`), the packet, and the ack it re-emits.
pub open spec fn spec_admission_rel(
    pre: DataPacketHandler,
    post: DataPacketHandler,
    packet: DataPacket,
    r: Option<Packet>,
) -> bool {
    &&& post.wf()
    &&& post.channel == pre.channel
    &&& post.ignore_number == pre.ignore_number
    &&& post.last_reliable_frame == pre.last_reliable_frame
    &&& post.limit == pre.limit
    &&& ({
        let sn = packet.sequence_number;
        let obsolete = sn <= pre.ignore_number;
        let dup_acked = !obsolete && spec_contains_sn(pre.acked_packets@, sn);
        let dup_unacked = !obsolete && !dup_acked && spec_contains_sn(pre.unacked_packets@, sn);
        &&& (obsolete || dup_acked) && packet.spec_is_reliable() ==> r == Some(
            Packet::Ack { chan: pre.channel, sequence_number: sn },
        ) && post == pre
        &&& (obsolete || dup_acked) && !packet.spec_is_reliable() ==> r is None && post == pre
        &&& dup_unacked ==> r is None && post == pre
        &&& !obsolete && !dup_acked && !dup_unacked ==> r is None
    })
    &&& ({
        let sn = packet.sequence_number;
        let fresh = sn > pre.ignore_number && !spec_contains_sn(pre.acked_packets@, sn)
            && !spec_contains_sn(pre.unacked_packets@, sn);
        let len = packet.payload@.len();
        &&& fresh && !packet.spec_is_reliable() && len <= pre.limit - pre.contained_payload
            ==> post.unacked_packets@ == pre.unacked_packets@ && post.acked_packets@.to_multiset()
            == pre.acked_packets@.to_multiset().insert(packet) && post.contained_payload
            == pre.contained_payload + len
        &&& fresh && !packet.spec_is_reliable() && len > pre.limit - pre.contained_payload
            ==> post == pre
        &&& fresh && packet.spec_is_reliable() ==> {
            let have = pre.limit - pre.contained_payload;
            let ev1 = spec_evict_unreliable(pre.acked_packets@, len - have);
            let ev2 = spec_evict_reliable_tail(pre.unacked_packets@, len - have - ev1.1);
            let acked1 = if len <= have {
                pre.acked_packets@
            } else {
                ev1.0
            };
            let unacked1 = if len <= have {
                pre.unacked_packets@
            } else {
                ev2.0
            };
            let contained1 = if len <= have {
                pre.contained_payload as int
            } else {
                pre.contained_payload - ev1.1 - ev2.1
            };
            &&& post.acked_packets@ == acked1
            &&& (len <= pre.limit - contained1 ==> post.unacked_packets@.to_multiset()
                == unacked1.to_multiset().insert(packet) && post.contained_payload == contained1
                + len)
            &&& (len > pre.limit - contained1 ==> post.unacked_packets@ == unacked1
                && post.contained_payload == contained1)
        }
    })
}

/// The ack-promotion relation: everything `do_acks` promises, as a relation
/// between the receiver before and after and the acks emitted.
pub open spec fn spec_promotion_rel(
    pre: DataPacketHandler,
    post: DataPacketHandler,
    acks: Seq<Packet>,
) -> bool {
    &&& post.wf()
    &&& post.channel == pre.channel
    &&& post.last_reliable_frame == pre.last_reliable_frame
    &&& post.limit == pre.limit
    &&& post.contained_payload == pre.contained_payload
    &&& ({
        let pr = spec_promote(pre.unacked_packets@, pre.ignore_number, pre.last_reliable_frame);
        &&& post.unacked_packets@ == pr.1
        &&& post.ignore_number == pr.2
        &&& acks.len() == pr.0.len()
        &&& forall|k: int|
            0 <= k < pr.0.len() ==> acks[k]@ == (PacketView::Ack {
                chan: pre.channel,
                sequence_number: pr.0[k].sequence_number,
            })
        &&& post.acked_packets@.to_multiset() == pre.acked_packets@.to_multiset().add(
            pr.0.to_multiset(),
        )
    })
}

/// The delivery relation: everything `deliver` promises, as a relation
/// between the receiver before and after and the frames handed out.
pub open spec fn spec_delivery_rel(
    pre: DataPacketHandler,
    post: DataPacketHandler,
    frames: Seq<Vec<u8>>,
) -> bool {
    &&& post.wf()
    &&& post.channel == pre.channel
    &&& post.ignore_number == pre.ignore_number
    &&& post.limit == pre.limit
    &&& post.unacked_packets@ == pre.unacked_packets@
    &&& ({
        let da = spec_deliver_all(pre.acked_packets@, pre.last_reliable_frame);
        &&& post.acked_packets@ == da.1
        &&& post.last_reliable_frame == da.2
        &&& frames.len() == da.0.len()
        &&& forall|k: int| 0 <= k < da.0.len() ==> frames[k]@ == da.0[k]
    })
}

} // verus!
