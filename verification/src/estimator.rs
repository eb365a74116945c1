//! The roundtrip estimator: keeps outstanding echo probes, matches their
//! returns, and reports a rolling average roundtrip time once enough
//! samples are in.

use vstd::prelude::*;

use crate::packets::Packet;
use crate::packets::PacketView;
use crate::packets::Uuid;
use crate::packets::fresh_uuid;

verus! {

/// Outstanding echo probes older than this many milliseconds are dropped.
pub const ECHO_TTL_MS: u64 = 5000;

/// At most this many new echo probes go out per tick.
pub const MAX_NEW_ECHOES: usize = 5;

/// The probes young enough to keep at `now`.
pub open spec fn spec_keep_fresh(l: Seq<(Uuid, u64)>, now: u64) -> Seq<(Uuid, u64)>
    decreases l.len(),
{
    if l.len() == 0 {
        l
    } else {
        (if l[0].1 + ECHO_TTL_MS <= now {
            Seq::<(Uuid, u64)>::empty()
        } else {
            seq![l[0]]
        }) + spec_keep_fresh(l.skip(1), now)
    }
}

/// Position of the first outstanding probe with this UUID, if any.
pub open spec fn spec_find_probe(l: Seq<(Uuid, u64)>, probe: Uuid) -> Option<int>
    decreases l.len(),
{
    if l.len() == 0 {
        None
    } else if l[0].0 == probe {
        Some(0)
    } else {
        match spec_find_probe(l.skip(1), probe) {
            Some(i) => Some(i + 1),
            None => None,
        }
    }
}

/// Sum of the samples.
pub open spec fn spec_sample_sum(l: Seq<u32>) -> int
    decreases l.len(),
{
    if l.len() == 0 {
        0
    } else {
        l[0] + spec_sample_sum(l.skip(1))
    }
}

/// Maintains outstanding echo probes and the rolling roundtrip estimate of
/// one connection.
#[derive(Debug, Clone, PartialEq, Eq)]
pub struct RoundtripEstimator {
    /// Outstanding probes: the probe UUID and when it went out (ms).
    pub expected_echoes: Vec<(Uuid, u64)>,
    /// Roundtrip samples collected in this window, in milliseconds.
    pub estimation: Vec<u32>,
    /// How many samples make an estimate.
    pub required_echoes: usize,
    /// The last estimate reported, in milliseconds.
    pub last_estimate: Option<u32>,
}

impl RoundtripEstimator {
    /// An estimate needs at least one sample.
    pub open spec fn wf(self) -> bool {
        self.required_echoes >= 1
    }

    /// A fresh estimator that reports after `required_echoes` samples.
    pub fn new(required_echoes: usize) -> (r: RoundtripEstimator)
        requires
            required_echoes >= 1,
        ensures
            r.wf(),
            r.expected_echoes@.len() == 0,
            r.estimation@.len() == 0,
            r.required_echoes == required_echoes,
            r.last_estimate is None,
    {
        RoundtripEstimator {
            expected_echoes: Vec::new(),
            estimation: Vec::new(),
            required_echoes,
            last_estimate: None,
        }
    }

    /// The last estimate reported, if any.
    pub fn get_last_estimate(&self) -> (r: Option<u32>)
        ensures
            r == self.last_estimate,
    {
        self.last_estimate
    }

    /// One estimator tick: drops outstanding probes older than the TTL,
    /// then — while fewer probes than required are outstanding — sends up
    /// to `MAX_NEW_ECHOES` fresh ones, each stamped with now.  The probe
    /// UUIDs are random; whatever they are, each goes out once and is
    /// recorded once.
    pub fn tick(&mut self, now_ms: u64, endpoint_id: Uuid) -> (r: Vec<Packet>)
        requires
            old(self).wf(),
        ensures
            spec_estimator_tick_rel(
                *old(self),
                *final(self),
                now_ms,
                endpoint_id,
                r@.map_values(|p: Packet| p@),
            ),
    {
        let ghost l0 = self.expected_echoes@;
        // Drop the probes that have aged out.
        let mut kept: Vec<(Uuid, u64)> = Vec::new();
        let mut i: usize = 0;
        while i < self.expected_echoes.len()
            invariant
                i <= self.expected_echoes@.len(),
                l0 == self.expected_echoes@,
                spec_keep_fresh(l0.take(i as int), now_ms) == kept@,
            decreases l0.len() - i,
        {
            proof {
                lemma_keep_fresh_take_step(l0, now_ms, i as int);
            }
            let entry = self.expected_echoes[i];
            let expired = now_ms >= ECHO_TTL_MS && entry.1 <= now_ms - ECHO_TTL_MS;
            if !expired {
                kept.push(entry);
            }
            proof {
                assert(kept@ =~= spec_keep_fresh(l0.take(i + 1), now_ms));
            }
            i = i + 1;
        }
        proof {
            assert(l0.take(l0.len() as int) =~= l0);
        }
        self.expected_echoes = kept;
        let ghost keptg = self.expected_echoes@;
        let ghost fresh_len = self.expected_echoes@.len();
        proof {
            assert(keptg == spec_keep_fresh(l0, now_ms));
        }
        // Top the outstanding set back up, within the per-tick cap.
        let mut out: Vec<Packet> = Vec::new();
        if self.expected_echoes.len() < self.required_echoes {
            let missing = self.required_echoes - self.expected_echoes.len();
            let needed = if missing <= MAX_NEW_ECHOES {
                missing
            } else {
                MAX_NEW_ECHOES
            };
            let mut sent: usize = 0;
            while sent < needed
                invariant
                    sent <= needed,
                    needed <= MAX_NEW_ECHOES,
                    self.estimation@ == old(self).estimation@,
                    self.required_echoes == old(self).required_echoes,
                    self.last_estimate == old(self).last_estimate,
                    self.expected_echoes@.len() == fresh_len + sent,
                    fresh_len == keptg.len(),
                    self.expected_echoes@.take(fresh_len as int) == keptg,
                    out@.len() == sent,
                    forall|k: int|
                        0 <= k < sent ==> out@[k]@ == (PacketView::Echo {
                            endpoint: endpoint_id,
                            probe: self.expected_echoes@[fresh_len + k].0,
                        }) && (#[trigger] self.expected_echoes@[fresh_len + k]).1 == now_ms,
                decreases needed - sent,
            {
                let probe = fresh_uuid();
                let ghost pre = self.expected_echoes@;
                self.expected_echoes.push((probe, now_ms));
                out.push(Packet::Echo { endpoint: endpoint_id, probe });
                proof {
                    assert(self.expected_echoes@.take(fresh_len as int) =~= pre.take(
                        fresh_len as int,
                    ));
                }
                sent = sent + 1;
            }
        }
        proof {
            assert(self.expected_echoes@.take(fresh_len as int) =~= keptg);
        }
        out
    }

    /// Consumes a returned echo probe: when it matches an outstanding one,
    /// the elapsed time becomes a sample and the probe is retired.  Once
    /// enough samples are in, their mean becomes the new estimate, the
    /// window clears, and the estimate is returned for reporting.
    pub fn handle_echo(&mut self, probe: Uuid, now_ms: u64) -> (r: Option<u32>)
        requires
            old(self).wf(),
        ensures
            spec_echo_rel(*old(self), *final(self), probe, now_ms, r),
    {
        let found = find_probe_index(&self.expected_echoes, probe);
        match found {
            Some(i) => {
                let entry = self.expected_echoes[i];
                let elapsed: u64 = if now_ms >= entry.1 {
                    now_ms - entry.1
                } else {
                    0
                };
                let sample: u32 = if elapsed <= 0xffff_ffff {
                    elapsed as u32
                } else {
                    0xffff_ffff
                };
                self.estimation.push(sample);
                self.expected_echoes.remove(i);
            },
            None => {},
        }
        if self.estimation.len() >= self.required_echoes {
            let mut sum: u128 = 0;
            let mut k: usize = 0;
            let ghost samples = self.estimation@;
            while k < self.estimation.len()
                invariant
                    k <= samples.len(),
                    samples == self.estimation@,
                    self.estimation@.len() <= usize::MAX,
                    sum == spec_sample_sum(samples.take(k as int)),
                    sum <= k * 0xffff_ffff,
                decreases samples.len() - k,
            {
                proof {
                    lemma_sample_sum_take_step(samples, k as int);
                    assert((k + 1) * 0xffff_ffff == k * 0xffff_ffff + 0xffff_ffff)
                        by (nonlinear_arith);
                    assert((k + 1) * 0xffff_ffff <= u128::MAX) by (nonlinear_arith)
                        requires
                            0 <= k <= usize::MAX,
                    ;
                }
                sum = sum + self.estimation[k] as u128;
                k = k + 1;
            }
            proof {
                assert(samples.take(samples.len() as int) =~= samples);
                lemma_sample_sum_nonneg(samples);
                lemma_avg_fits(spec_sample_sum(samples), samples.len() as int);
            }
            let average: u128 = sum / (self.estimation.len() as u128);
            let average32: u32 = average as u32;
            self.estimation.clear();
            self.last_estimate = Some(average32);
            Some(average32)
        } else {
            None
        }
    }
}

/// Elapsed time between a probe's departure and its return, clamped to be
/// nonnegative and to fit a `u32`.
pub open spec fn spec_elapsed_ms(now: u64, sent: u64) -> u32 {
    if now >= sent {
        if now - sent <= 0xffff_ffff {
            (now - sent) as u32
        } else {
            0xffff_ffff
        }
    } else {
        0
    }
}

/// Extending the prefix by one probe extends its kept list accordingly.
proof fn lemma_keep_fresh_take_step(l: Seq<(Uuid, u64)>, now: u64, i: int)
    requires
        0 <= i < l.len(),
    ensures
        spec_keep_fresh(l.take(i + 1), now) == spec_keep_fresh(l.take(i), now) + (
        if l[i].1 + ECHO_TTL_MS <= now {
            Seq::<(Uuid, u64)>::empty()
        } else {
            seq![l[i]]
        }),
    decreases i,
{
    if i == 0 {
        assert(l.take(1) =~= seq![l[0]]);
        assert(seq![l[0]].skip(1) =~= Seq::<(Uuid, u64)>::empty());
        assert(l.take(0) =~= Seq::<(Uuid, u64)>::empty());
        assert(spec_keep_fresh(l.take(1), now) =~= spec_keep_fresh(l.take(0), now) + (
        if l[0].1 + ECHO_TTL_MS <= now {
            Seq::<(Uuid, u64)>::empty()
        } else {
            seq![l[0]]
        }));
    } else {
        lemma_keep_fresh_take_step(l.skip(1), now, i - 1);
        assert(l.take(i + 1).skip(1) =~= l.skip(1).take(i));
        assert(l.take(i).skip(1) =~= l.skip(1).take(i - 1));
        assert(l.take(i + 1)[0] == l[0] && l.take(i)[0] == l[0]);
        assert(l.skip(1)[i - 1] == l[i]);
        assert(spec_keep_fresh(l.take(i + 1), now) =~= spec_keep_fresh(l.take(i), now) + (
        if l[i].1 + ECHO_TTL_MS <= now {
            Seq::<(Uuid, u64)>::empty()
        } else {
            seq![l[i]]
        }));
    }
}

/// Position of the first outstanding probe with this UUID, if any.
fn find_probe_index(l: &Vec<(Uuid, u64)>, probe: Uuid) -> (r: Option<usize>)
    ensures
        match r {
            Some(i) => spec_find_probe(l@, probe) == Some(i as int) && i < l@.len() && l@[
                i as int
            ].0 == probe,
            None => spec_find_probe(l@, probe) is None,
        },
{
    let mut idx: usize = 0;
    while idx < l.len()
        invariant
            idx <= l@.len(),
            forall|j: int| 0 <= j < idx ==> l@[j].0 != probe,
        decreases l@.len() - idx,
    {
        if l[idx].0.hi == probe.hi && l[idx].0.lo == probe.lo {
            proof {
                assert(l@[idx as int].0 == probe);
                lemma_find_probe_agrees(l@, probe, idx as int);
            }
            return Some(idx);
        }
        idx = idx + 1;
    }
    proof {
        lemma_find_probe_none(l@, probe);
    }
    None
}

/// A hit preceded only by misses is what the search finds.
proof fn lemma_find_probe_agrees(l: Seq<(Uuid, u64)>, probe: Uuid, i: int)
    requires
        0 <= i < l.len(),
        l[i].0 == probe,
        forall|j: int| 0 <= j < i ==> l[j].0 != probe,
    ensures
        spec_find_probe(l, probe) == Some(i),
    decreases i,
{
    if i > 0 {
        lemma_find_probe_agrees(l.skip(1), probe, i - 1);
    }
}

/// Without a hit nothing is found.
proof fn lemma_find_probe_none(l: Seq<(Uuid, u64)>, probe: Uuid)
    requires
        forall|j: int| 0 <= j < l.len() ==> l[j].0 != probe,
    ensures
        spec_find_probe(l, probe) is None,
    decreases l.len(),
{
    if l.len() > 0 {
        lemma_find_probe_none(l.skip(1), probe);
    }
}

/// A sample sum is never negative.
proof fn lemma_sample_sum_nonneg(l: Seq<u32>)
    ensures
        spec_sample_sum(l) >= 0,
    decreases l.len(),
{
    if l.len() > 0 {
        lemma_sample_sum_nonneg(l.skip(1));
    }
}

/// Extending the prefix by one sample adds it to the sum.
proof fn lemma_sample_sum_take_step(l: Seq<u32>, i: int)
    requires
        0 <= i < l.len(),
    ensures
        spec_sample_sum(l.take(i + 1)) == spec_sample_sum(l.take(i)) + l[i],
    decreases i,
{
    if i == 0 {
        assert(l.take(1) =~= seq![l[0]]);
        assert(seq![l[0]].skip(1) =~= Seq::<u32>::empty());
        assert(l.take(0) =~= Seq::<u32>::empty());
    } else {
        lemma_sample_sum_take_step(l.skip(1), i - 1);
        assert(l.take(i + 1).skip(1) =~= l.skip(1).take(i));
        assert(l.take(i).skip(1) =~= l.skip(1).take(i - 1));
        assert(l.take(i + 1)[0] == l[0] && l.take(i)[0] == l[0]);
        assert(l.skip(1)[i - 1] == l[i]);
    }
}

/// A mean of `u32` samples fits a `u32`.
proof fn lemma_avg_fits(sum: int, len: int)
    requires
        len >= 1,
        0 <= sum <= len * 0xffff_ffff,
    ensures
        0 <= sum / len <= 0xffff_ffff,
{
    vstd::arithmetic::div_mod::lemma_fundamental_div_mod(sum, len);
    let q = sum / len;
    let m = sum % len;
    if q > 0xffff_ffff {
        assert(false) by (nonlinear_arith)
            requires
                sum == q * len + m,
                0 <= m < len,
                q >= 0x1_0000_0000,
                sum <= len * 0xffff_ffff,
                len >= 1,
        ;
    }
    if q < 0 {
        assert(false) by (nonlinear_arith)
            requires
                sum == q * len + m,
                0 <= m < len,
                q < 0,
                sum >= 0,
                len >= 1,
        ;
    }
}


/// The probe-refresh relation: everything `tick` promises, as a relation
/// between the estimator before and after and the views of the echo
/// packets issued.
pub open spec fn spec_estimator_tick_rel(
    pre: RoundtripEstimator,
    post: RoundtripEstimator,
    now_ms: u64,
    endpoint_id: Uuid,
    issued: Seq<PacketView>,
) -> bool {
    &&& post.wf()
    &&& post.estimation@ == pre.estimation@
    &&& post.required_echoes == pre.required_echoes
    &&& post.last_estimate == pre.last_estimate
    &&& ({
        let kept = spec_keep_fresh(pre.expected_echoes@, now_ms);
        &&& post.expected_echoes@.len() >= kept.len()
        &&& post.expected_echoes@.take(kept.len() as int) == kept
        &&& (kept.len() >= pre.required_echoes ==> post.expected_echoes@ == kept)
        &&& (kept.len() < pre.required_echoes ==> post.expected_echoes@.len() - kept.len() == (
        if pre.required_echoes - kept.len() <= MAX_NEW_ECHOES {
            pre.required_echoes - kept.len()
        } else {
            MAX_NEW_ECHOES as int
        }))
        &&& issued.len() == post.expected_echoes@.len() - kept.len()
        &&& forall|k: int|
            0 <= k < issued.len() ==> issued[k] == (PacketView::Echo {
                endpoint: endpoint_id,
                probe: post.expected_echoes@[kept.len() + k].0,
            }) && (#[trigger] post.expected_echoes@[kept.len() + k]).1 == now_ms
    })
}

/// The echo-return relation: everything `handle_echo` promises, as a
/// relation between the estimator before and after, the probe, and the
/// estimate reported, if any.
pub open spec fn spec_echo_rel(
    pre: RoundtripEstimator,
    post: RoundtripEstimator,
    probe: Uuid,
    now_ms: u64,
    r: Option<u32>,
) -> bool {
    &&& post.wf()
    &&& post.required_echoes == pre.required_echoes
    &&& ({
        let found = spec_find_probe(pre.expected_echoes@, probe);
        let sampled = match found {
            Some(i) => pre.estimation@.push(spec_elapsed_ms(now_ms, pre.expected_echoes@[i].1)),
            None => pre.estimation@,
        };
        &&& (match found {
            Some(i) => post.expected_echoes@ == pre.expected_echoes@.remove(i),
            None => post.expected_echoes@ == pre.expected_echoes@,
        })
        &&& (sampled.len() >= pre.required_echoes ==> {
            let avg = (spec_sample_sum(sampled) / sampled.len() as int) as u32;
            r == Some(avg) && post.last_estimate == Some(avg) && post.estimation@.len() == 0
        })
        &&& (sampled.len() < pre.required_echoes ==> r is None && post.estimation@ == sampled
            && post.last_estimate == pre.last_estimate)
    })
}

} // verus!
