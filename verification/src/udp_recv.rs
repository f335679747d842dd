//! UDP receiver: in-order reassembly, NACK generation and stall recovery.
//!
//! Packets are delivered strictly in sequence order. A packet ahead of the
//! next expected sequence number is held in the rearrange buffer and a NACK
//! is emitted for every missing number not asked for before; a packet behind
//! it is stale and dropped. After [`crate::STALL_ESCAPE_FRAMES`] frame
//! durations without an in-order delivery, an outstanding gap is abandoned
//! and the receiver resynchronizes on the next arriving packet.

use crate::msgs::{views, RTMsg, RTMsgView};
use vstd::prelude::*;

verus! {

/// Reorder state of one receiving endpoint.
pub struct UdpReceiver {
    /// The next sequence number to deliver in order.
    pub next_seq: i64,
    /// Monotonic time of the last in-order delivery, in microseconds.
    pub last_in_seq_micros: u64,
    /// Held-out future packets, in arrival order.
    pub rearrange_buf: Vec<RTMsg>,
    /// Highest sequence number a NACK was already requested up to
    /// (exclusive); suppresses duplicate requests.
    pub nacked_seq: i64,
}

/// `d` carries exactly the sequence numbers `start, start + 1, ..., end - 1`,
/// in that order.
pub open spec fn delivered_run(d: Seq<RTMsgView>, start: int, end: int) -> bool {
    &&& d.len() == end - start
    &&& forall|i: int| 0 <= i < d.len() ==> #[trigger] d[i].seq == start + i
}

impl UdpReceiver {
    pub open spec fn wf(self) -> bool {
        &&& 0 <= self.next_seq
        &&& 0 <= self.nacked_seq
        &&& forall|i: int|
            0 <= i < self.rearrange_buf@.len() ==> 0 <= #[trigger] self.rearrange_buf@[i]@.seq
                < i64::MAX
        &&& forall|i: int|
            0 <= i < self.rearrange_buf@.len() ==> #[trigger] self.rearrange_buf@[i]@.seq
                != self.next_seq
    }

    /// The next arriving packet resynchronizes the stream: the gap has been
    /// open longer than the stall-escape threshold and is wider than one.
    pub open spec fn stall_escape(self, m: RTMsgView, now_micros: u64) -> bool {
        &&& now_micros - self.last_in_seq_micros > crate::STALL_ESCAPE_FRAMES
            * crate::FRAME_DURATION_MICROS
        &&& m.seq - self.next_seq > 1
    }

    /// The sequence number delivery is expected to resume at once `m` has
    /// arrived: the packet's own number after a stall escape, the current
    /// one otherwise.
    pub open spec fn effective_next(self, m: RTMsgView, now_micros: u64) -> int {
        if self.stall_escape(m, now_micros) {
            m.seq as int
        } else {
            self.next_seq as int
        }
    }

    /// A fresh receiver expects sequence number zero.
    pub fn new() -> (r: UdpReceiver)
        ensures
            r.wf(),
            r.next_seq == 0,
            r.nacked_seq == 0,
            r.last_in_seq_micros == 0,
            r.rearrange_buf@.len() == 0,
    {
        UdpReceiver { next_seq: 0, last_in_seq_micros: 0, rearrange_buf: Vec::new(), nacked_seq: 0 }
    }

    /// Accepts one arriving packet and returns the packets now deliverable
    /// in order together with the sequence numbers to NACK.
    ///
    /// Deliveries are a consecutive run starting at the effective next
    /// sequence number, never below the previous one: across any series of
    /// calls, delivered sequence numbers are strictly increasing, and
    /// adjacent deliveries differ by one unless a stall escape or a stale
    /// drop stood between them. Every NACK lies at or above the previously
    /// acknowledged bound and below the new one, so no sequence number is
    /// ever NACKed twice.
    pub fn recv(&mut self, msg: RTMsg, now_micros: u64) -> (r: (Vec<RTMsg>, Vec<i64>))
        requires
            old(self).wf(),
            0 <= msg@.seq < i64::MAX,
            now_micros >= old(self).last_in_seq_micros,
        ensures
            final(self).wf(),
            ({
                let delivered = views(r.0@);
                let nacks = r.1@;
                let eff = old(self).effective_next(msg@, now_micros);
                let gap = msg@.seq > eff;
                let stale = msg@.seq < eff;
                &&& final(self).next_seq >= old(self).next_seq
                &&& final(self).nacked_seq >= old(self).nacked_seq
                &&& eff >= old(self).next_seq
                // after a stall of more than the escape threshold with a gap
                // wider than one, the arriving packet is delivered whatever
                // its sequence number
                &&& (old(self).stall_escape(msg@, now_micros) ==> delivered.len() >= 1
                    && delivered[0] == msg@)
                // in-order case: a consecutive run from eff is delivered,
                // beginning with the packet itself. The packets after it
                // come out of the rearrange buffer, which keeps exactly the
                // rest: nothing is invented, nothing discarded. Together
                // with well-formedness (no kept packet carries the final
                // next sequence number) the flush is maximal.
                &&& (msg@.seq == eff ==> {
                    &&& delivered_run(delivered, eff, final(self).next_seq as int)
                    &&& delivered.len() >= 1
                    &&& delivered[0] == msg@
                    &&& views(old(self).rearrange_buf@).to_multiset() == views(
                        final(self).rearrange_buf@,
                    ).to_multiset().add(delivered.skip(1).to_multiset())
                    &&& final(self).last_in_seq_micros == now_micros
                    &&& nacks.len() == 0
                    &&& final(self).nacked_seq == old(self).nacked_seq
                })
                // gap case: the packet is buffered and the missing numbers
                // not yet asked for are NACKed
                &&& (gap ==> {
                    let start = if old(self).next_seq >= old(self).nacked_seq {
                        old(self).next_seq as int
                    } else {
                        old(self).nacked_seq as int
                    };
                    &&& delivered.len() == 0
                    &&& final(self).next_seq == old(self).next_seq
                    &&& final(self).last_in_seq_micros == old(self).last_in_seq_micros
                    &&& final(self).rearrange_buf@ == old(self).rearrange_buf@.push(msg)
                    &&& nacks.len() == (if msg@.seq > start {
                        msg@.seq - start
                    } else {
                        0
                    })
                    &&& forall|i: int| 0 <= i < nacks.len() ==> #[trigger] nacks[i] == start + i
                    &&& forall|i: int|
                        0 <= i < nacks.len() ==> old(self).nacked_seq <= #[trigger] nacks[i]
                            < final(self).nacked_seq
                    &&& final(self).nacked_seq == (if msg@.seq >= old(self).nacked_seq {
                        msg@.seq as int
                    } else {
                        old(self).nacked_seq as int
                    })
                })
                // stale case: a duplicate or an abandoned number is dropped
                &&& (stale ==> {
                    &&& delivered.len() == 0
                    &&& nacks.len() == 0
                    &&& final(self).next_seq == old(self).next_seq
                    &&& final(self).nacked_seq == old(self).nacked_seq
                    &&& final(self).last_in_seq_micros == old(self).last_in_seq_micros
                    &&& final(self).rearrange_buf@ == old(self).rearrange_buf@
                })
                // every delivered packet is the arriving one or was buffered
                &&& forall|i: int|
                    0 <= i < delivered.len() ==> #[trigger] delivered[i] == msg@ || views(
                        old(self).rearrange_buf@,
                    ).contains(delivered[i])
            }),
    {
        let ghost old_self = *self;
        let mut delivered: Vec<RTMsg> = Vec::new();
        let mut nacks: Vec<i64> = Vec::new();

        // Stall escape: abandon an unrecoverable gap and resynchronize.
        if now_micros - self.last_in_seq_micros > crate::STALL_ESCAPE_FRAMES
            * crate::FRAME_DURATION_MICROS && msg.seq - self.next_seq > 1 {
            self.next_seq = msg.seq;
        }
        let ghost eff = self.next_seq as int;
        assert(eff == old_self.effective_next(msg@, now_micros));

        if msg.seq > self.next_seq {
            // Gap: request every missing number not already asked for.
            let start: i64 = if self.next_seq >= self.nacked_seq {
                self.next_seq
            } else {
                self.nacked_seq
            };
            let mut i: i64 = start;
            while i < msg.seq
                invariant
                    start <= i <= msg@.seq || i == start,
                    msg@.seq < i64::MAX,
                    nacks@.len() == i - start,
                    forall|k: int| 0 <= k < nacks@.len() ==> #[trigger] nacks@[k] == start + k,
                decreases msg@.seq - i,
            {
                nacks.push(i);
                i = i + 1;
            }
            if msg.seq >= self.nacked_seq {
                self.nacked_seq = msg.seq;
            }
            self.rearrange_buf.push(msg);
            proof {
                assert(views(delivered@).len() == 0);
            }
            return (delivered, nacks);
        } else if msg.seq < self.next_seq {
            // Stale: behind the stream; already delivered or abandoned.
            proof {
                assert(views(delivered@).len() == 0);
            }
            return (delivered, nacks);
        }

        // In order: deliver, then flush everything consecutive from the
        // rearrange buffer.
        let ghost msgv = msg@;
        proof {
            assert(views(delivered@.push(msg)) =~= views(delivered@).push(msgv));
        }
        delivered.push(msg);
        self.next_seq = self.next_seq + 1;
        self.last_in_seq_micros = now_micros;
        proof {
            assert(views(delivered@).len() == 1);
            assert(views(delivered@)[0] == msgv);
        }

        proof {
            assert forall|i: int|
                0 <= i < self.rearrange_buf@.len() implies old_self.rearrange_buf@.contains(
                #[trigger] self.rearrange_buf@[i],
            ) by {
                assert(old_self.rearrange_buf@[i] == self.rearrange_buf@[i]);
            }
            // one delivery so far, and it did not come out of the buffer
            broadcast use vstd::seq_lib::group_to_multiset_ensures;

            let dtail = views(delivered@).skip(1);
            assert(dtail =~= Seq::<RTMsgView>::empty());
            assert forall|a: RTMsgView| dtail.to_multiset().count(a) == 0nat by {
                assert(!dtail.contains(a));
            }
            assert(views(old_self.rearrange_buf@).to_multiset() =~= views(
                self.rearrange_buf@,
            ).to_multiset().add(dtail.to_multiset()));
        }
        loop
            invariant
                self.wf_flush(),
                eff < self.next_seq <= i64::MAX,
                delivered_run(views(delivered@), eff, self.next_seq as int),
                views(delivered@)[0] == msgv,
                self.nacked_seq == old_self.nacked_seq,
                self.last_in_seq_micros == now_micros,
                self.next_seq >= old_self.next_seq,
                views(old_self.rearrange_buf@).to_multiset() == views(
                    self.rearrange_buf@,
                ).to_multiset().add(views(delivered@).skip(1).to_multiset()),
                forall|i: int|
                    0 <= i < views(delivered@).len() ==> #[trigger] views(delivered@)[i] == msgv
                        || views(old_self.rearrange_buf@).contains(views(delivered@)[i]),
                forall|i: int|
                    0 <= i < self.rearrange_buf@.len()
                        ==> old_self.rearrange_buf@.contains(#[trigger] self.rearrange_buf@[i]),
            ensures
                self.wf(),
            decreases self.rearrange_buf@.len(),
        {
            let mut del_idx: Option<usize> = None;
            let mut idx: usize = 0;
            while idx < self.rearrange_buf.len()
                invariant
                    idx <= self.rearrange_buf@.len(),
                    match del_idx {
                        Some(d) => d < idx && self.rearrange_buf@[d as int]@.seq == self.next_seq,
                        None => forall|k: int|
                            0 <= k < idx ==> #[trigger] self.rearrange_buf@[k]@.seq
                                != self.next_seq,
                    },
                decreases self.rearrange_buf@.len() - idx,
            {
                if self.rearrange_buf[idx].seq == self.next_seq {
                    del_idx = Some(idx);
                }
                idx = idx + 1;
            }

            match del_idx {
                Some(d) => {
                    let ghost pre_buf = self.rearrange_buf@;
                    let ghost pre_delivered = delivered@;
                    let m = self.rearrange_buf.remove(d);
                    proof {
                        assert(0 <= m@.seq < i64::MAX);
                        assert(views(delivered@.push(m)) =~= views(delivered@).push(m@));
                        // the removed packet was buffered before this call
                        assert(pre_buf[d as int] == m);
                        assert(old_self.rearrange_buf@.contains(m));
                        let j = choose|j: int|
                            0 <= j < old_self.rearrange_buf@.len() && old_self.rearrange_buf@[j]
                                == m;
                        assert(views(old_self.rearrange_buf@)[j] == m@);
                        assert(views(old_self.rearrange_buf@).contains(m@));
                        // the packets still buffered were buffered before too
                        assert forall|i: int|
                            0 <= i < self.rearrange_buf@.len() implies old_self.rearrange_buf@.contains(
                            #[trigger] self.rearrange_buf@[i],
                        ) by {
                            if i < d {
                                assert(self.rearrange_buf@[i] == pre_buf[i]);
                            } else {
                                assert(self.rearrange_buf@[i] == pre_buf[i + 1]);
                            }
                        }
                    }
                    delivered.push(m);
                    self.next_seq = self.next_seq + 1;
                    proof {
                        // the flushed packet moves from the buffer to the
                        // tail of the deliveries: the accounting is kept
                        broadcast use vstd::seq_lib::group_to_multiset_ensures;

                        assert(views(self.rearrange_buf@) =~= views(pre_buf).remove(d as int));
                        assert(views(pre_buf).remove(d as int).to_multiset() == views(
                            pre_buf,
                        ).to_multiset().remove(views(pre_buf)[d as int]));
                        assert(views(delivered@) =~= views(pre_delivered).push(m@));
                        assert(views(delivered@).skip(1) =~= views(pre_delivered).skip(1).push(
                            m@,
                        ));
                        assert(views(pre_delivered).skip(1).push(m@).to_multiset() == views(
                            pre_delivered,
                        ).skip(1).to_multiset().insert(m@));
                        assert(views(old_self.rearrange_buf@).to_multiset() =~= views(
                            self.rearrange_buf@,
                        ).to_multiset().add(views(delivered@).skip(1).to_multiset()));
                    }
                },
                None => {
                    break ;
                },
            }
        }
        (delivered, nacks)
    }

    /// Well-formedness while the flush loop may still hold a packet equal to
    /// the next sequence number.
    pub open spec fn wf_flush(self) -> bool {
        &&& 0 <= self.next_seq
        &&& 0 <= self.nacked_seq
        &&& forall|i: int|
            0 <= i < self.rearrange_buf@.len() ==> 0 <= #[trigger] self.rearrange_buf@[i]@.seq
                < i64::MAX
    }
}

/// Law: a sequence number is never NACKed twice. Each call emits NACKs at or
/// above the acknowledged bound and raises the bound past them, and the
/// bound never decreases: every NACK of a later call names a strictly higher
/// sequence number than every NACK of an earlier one.
pub proof fn lemma_nacks_never_repeat(
    n1: Seq<i64>,
    lo1: int,
    hi1: int,
    n2: Seq<i64>,
    lo2: int,
    hi2: int,
)
    requires
        forall|i: int| 0 <= i < n1.len() ==> lo1 <= #[trigger] n1[i] < hi1,
        forall|i: int| 0 <= i < n2.len() ==> lo2 <= #[trigger] n2[i] < hi2,
        hi1 <= lo2,
    ensures
        forall|i: int, j: int| 0 <= i < n1.len() && 0 <= j < n2.len() ==> #[trigger] n2[j]
            > #[trigger] n1[i],
{
}

/// Law: delivered packets are strictly in order. When the runs of two
/// successive calls chain directly — no stall escape and nothing dropped
/// between them — every pair of adjacent deliveries differs by exactly one;
/// sequence numbers never repeat or go back in any case.
pub proof fn lemma_deliveries_in_order(
    d1: Seq<RTMsgView>,
    s1: int,
    e1: int,
    d2: Seq<RTMsgView>,
    s2: int,
    e2: int,
)
    requires
        delivered_run(d1, s1, e1),
        delivered_run(d2, s2, e2),
        e1 <= s2,
    ensures
        forall|i: int, j: int|
            0 <= i < j < (d1 + d2).len() ==> #[trigger] (d1 + d2)[i].seq < #[trigger] (d1
                + d2)[j].seq,
        s2 == e1 ==> forall|i: int|
            0 <= i < (d1 + d2).len() - 1 ==> #[trigger] (d1 + d2)[i + 1].seq == (d1 + d2)[i].seq
                + 1,
{
    let d = d1 + d2;
    assert forall|i: int, j: int| 0 <= i < j < d.len() implies d[i].seq < d[j].seq by {
        if j < d1.len() {
            assert(d[i] == d1[i] && d[j] == d1[j]);
        } else if i >= d1.len() {
            assert(d[i] == d2[i - d1.len()] && d[j] == d2[j - d1.len()]);
        } else {
            assert(d[i] == d1[i] && d[j] == d2[j - d1.len()]);
        }
    }
    if s2 == e1 {
        assert forall|i: int| 0 <= i < d.len() - 1 implies #[trigger] d[i + 1].seq == d[i].seq
            + 1 by {
            if i + 1 < d1.len() {
                assert(d[i] == d1[i] && d[i + 1] == d1[i + 1]);
            } else if i >= d1.len() {
                assert(d[i] == d2[i - d1.len()] && d[i + 1] == d2[i + 1 - d1.len()]);
            } else {
                assert(d[i] == d1[i] && d[i + 1] == d2[0]);
            }
        }
    }
}

} // verus!
