//! UDP sender: sequence numbering, serialization and bounded retransmission
//! history.
//!
//! Every outgoing payload receives the next sequence number of the single
//! space shared by audio and video, is serialized, and is retained with its
//! send time. Entries are evicted exactly when their age reaches
//! [`crate::HISTORY_WINDOW_MICROS`], never earlier. A NACK is answered with
//! the verbatim bytes of the packet it names, if it is still retained.

use crate::msgs::{spec_enc_rtmsg, RTMsg, RTMsgView};
use vstd::prelude::*;

verus! {

/// One retained packet with its enqueue time.
pub struct HistEntry {
    pub msg: RTMsg,
    pub at_micros: u64,
}

/// Mathematical model of a history entry.
pub struct HistEntryView {
    pub msg: RTMsgView,
    pub at_micros: u64,
}

impl View for HistEntry {
    type V = HistEntryView;

    open spec fn view(&self) -> HistEntryView {
        HistEntryView { msg: self.msg@, at_micros: self.at_micros }
    }
}

/// The models of the history entries, in queue order.
pub open spec fn hist_views(s: Seq<HistEntry>) -> Seq<HistEntryView> {
    s.map_values(|e: HistEntry| e@)
}

/// The history after dropping every leading entry whose age at `now` has
/// reached the retention window. With enqueue times in order, these are
/// exactly the entries that old.
pub open spec fn evict_old(h: Seq<HistEntryView>, now_micros: u64) -> Seq<HistEntryView>
    decreases h.len(),
{
    if h.len() > 0 && now_micros >= h[0].at_micros && now_micros - h[0].at_micros
        >= crate::HISTORY_WINDOW_MICROS {
        evict_old(h.drop_first(), now_micros)
    } else {
        h
    }
}

/// The retained packet with the given sequence number, if any.
pub open spec fn spec_find_hist(h: Seq<HistEntryView>, seq_no: i64) -> Option<RTMsgView>
    decreases h.len(),
{
    if h.len() == 0 {
        None
    } else if h[0].msg.seq == seq_no {
        Some(h[0].msg)
    } else {
        spec_find_hist(h.drop_first(), seq_no)
    }
}

/// Sending side of the UDP media transport.
pub struct UdpStream {
    /// The sequence number the next packet will carry.
    pub cur_seq: i64,
    /// Retained packets, oldest first.
    pub history: Vec<HistEntry>,
}

impl UdpStream {
    pub open spec fn wf(self) -> bool {
        &&& 0 <= self.cur_seq
        &&& forall|i: int|
            0 <= i < self.history@.len() ==> 0 <= #[trigger] self.history@[i]@.msg.seq
                < self.cur_seq
        &&& forall|i: int, j: int|
            0 <= i < j < self.history@.len() ==> #[trigger] self.history@[i]@.msg.seq
                < #[trigger] self.history@[j]@.msg.seq
        &&& forall|i: int, j: int|
            0 <= i < j < self.history@.len() ==> #[trigger] self.history@[i]@.at_micros
                <= #[trigger] self.history@[j]@.at_micros
        &&& forall|i: int|
            0 <= i < self.history@.len() ==> (#[trigger] self.history@[i]@.msg.data.len())
                <= crate::MAX_PACKET_DATA
    }

    /// A fresh sender; its first packet carries sequence number zero.
    pub fn new() -> (r: UdpStream)
        ensures
            r.wf(),
            r.cur_seq == 0,
            r.history@.len() == 0,
    {
        UdpStream { cur_seq: 0, history: Vec::new() }
    }

    /// Assigns the current sequence number to `data`, advances the space,
    /// retains the packet and returns the serialized datagram to transmit.
    /// Entries whose age has reached the retention window are evicted, and
    /// only those.
    pub fn send_packet(&mut self, data: Vec<u8>, is_audio: bool, now_micros: u64) -> (r: Vec<u8>)
        requires
            old(self).wf(),
            data@.len() <= crate::MAX_PACKET_DATA,
            old(self).cur_seq < i64::MAX,
            forall|i: int|
                0 <= i < old(self).history@.len() ==> now_micros
                    >= #[trigger] old(self).history@[i]@.at_micros,
        ensures
            final(self).wf(),
            r@ == spec_enc_rtmsg(
                RTMsgView { seq: old(self).cur_seq, is_audio, data: data@ },
            ),
            final(self).cur_seq == old(self).cur_seq + 1,
            hist_views(final(self).history@) == evict_old(
                hist_views(old(self).history@).push(
                    HistEntryView {
                        msg: RTMsgView { seq: old(self).cur_seq, is_audio, data: data@ },
                        at_micros: now_micros,
                    },
                ),
                now_micros,
            ),
    {
        let msg = RTMsg { seq: self.cur_seq, is_audio, data };
        self.cur_seq = self.cur_seq + 1;
        let buf = crate::msgs::encode_rtmsg(&msg);
        let entry = HistEntry { msg, at_micros: now_micros };
        let ghost pushed = hist_views(old(self).history@).push(entry@);
        proof {
            assert(hist_views(old(self).history@.push(entry)) =~= pushed);
        }
        self.history.push(entry);

        // Evict entries that have reached the retention window.
        loop
            invariant
                self.cur_seq == old(self).cur_seq + 1,
                self.history@.len() >= 1,
                evict_old(hist_views(self.history@), now_micros) == evict_old(pushed, now_micros),
                self.wf(),
                self.history@[self.history@.len() - 1] == entry,
                entry@.at_micros == now_micros,
                forall|i: int|
                    0 <= i < self.history@.len() ==> now_micros
                        >= #[trigger] self.history@[i]@.at_micros,
            ensures
                self.wf(),
                self.cur_seq == old(self).cur_seq + 1,
                hist_views(self.history@) == evict_old(pushed, now_micros),
            decreases self.history@.len(),
        {
            let front_age = now_micros - self.history[0].at_micros;
            if front_age >= crate::HISTORY_WINDOW_MICROS && self.history.len() > 1 {
                let ghost pre = self.history@;
                let _ = self.history.remove(0);
                proof {
                    assert(hist_views(pre).drop_first() =~= hist_views(self.history@));
                    assert(evict_old(hist_views(pre), now_micros) == evict_old(
                        hist_views(self.history@),
                        now_micros,
                    ));
                }
            } else {
                proof {
                    // the newest entry was enqueued now, so it never evicts;
                    // a front entry younger than the window stops eviction
                    if front_age >= crate::HISTORY_WINDOW_MICROS {
                        assert(self.history@.len() == 1);
                        assert(hist_views(self.history@)[0] == entry@);
                        assert(entry@.at_micros == now_micros);
                        assert(false);
                    }
                    assert(evict_old(hist_views(self.history@), now_micros) == hist_views(
                        self.history@,
                    ));
                }
                break ;
            }
        }
        buf
    }

    /// Answers a NACK: returns the verbatim serialized bytes of the retained
    /// packet with the given sequence number, or nothing when it has already
    /// been evicted, which the caller logs and drops.
    pub fn process_nack(&self, seq_no: i64) -> (r: Option<Vec<u8>>)
        requires
            self.wf(),
        ensures
            match r {
                Some(buf) => {
                    &&& spec_find_hist(hist_views(self.history@), seq_no) is Some
                    &&& buf@ == spec_enc_rtmsg(
                        spec_find_hist(hist_views(self.history@), seq_no)->Some_0,
                    )
                },
                None => spec_find_hist(hist_views(self.history@), seq_no) is None,
            },
    {
        let mut i: usize = 0;
        proof {
            assert(hist_views(self.history@).skip(0) =~= hist_views(self.history@));
        }
        while i < self.history.len()
            invariant
                self.wf(),
                i <= self.history@.len(),
                spec_find_hist(hist_views(self.history@), seq_no) == spec_find_hist(
                    hist_views(self.history@).skip(i as int),
                    seq_no,
                ),
            decreases self.history@.len() - i,
        {
            let ghost tail = hist_views(self.history@).skip(i as int);
            if self.history[i].msg.seq == seq_no {
                proof {
                    assert(tail[0] == self.history@[i as int]@);
                }
                return Some(crate::msgs::encode_rtmsg(&self.history[i].msg));
            }
            proof {
                assert(tail[0] == self.history@[i as int]@);
                assert(tail.drop_first() =~= hist_views(self.history@).skip(i + 1));
            }
            i = i + 1;
        }
        proof {
            assert(hist_views(self.history@).skip(i as int).len() == 0);
        }
        None
    }
}

/// Law: a packet is answerable the moment it is sent. The entry a send
/// appends carries the send time itself, so that send's eviction never
/// removes it, and a NACK for its sequence number returns exactly its
/// packet.
pub proof fn lemma_sent_packet_retained(h: Seq<HistEntryView>, now_micros: u64)
    requires
        h.len() > 0,
        forall|i: int, j: int|
            0 <= i < j < h.len() ==> #[trigger] h[i].at_micros <= #[trigger] h[j].at_micros,
        forall|i: int, j: int|
            0 <= i < j < h.len() ==> #[trigger] h[i].msg.seq < #[trigger] h[j].msg.seq,
        h.last().at_micros == now_micros,
    ensures
        evict_old(h, now_micros).contains(h.last()),
        spec_find_hist(evict_old(h, now_micros), h.last().msg.seq) == Some(h.last().msg),
{
    lemma_nack_within_window(h, now_micros, h.len() - 1);
}

/// Law: a packet sent within the retention window is still answered. If the
/// history holds an entry whose age at `now` is below the window, eviction
/// at `now` keeps it, and a NACK for its sequence number returns exactly its
/// packet.
pub proof fn lemma_nack_within_window(h: Seq<HistEntryView>, now_micros: u64, k: int)
    requires
        0 <= k < h.len(),
        forall|i: int, j: int|
            0 <= i < j < h.len() ==> #[trigger] h[i].at_micros <= #[trigger] h[j].at_micros,
        forall|i: int, j: int|
            0 <= i < j < h.len() ==> #[trigger] h[i].msg.seq < #[trigger] h[j].msg.seq,
        now_micros >= h[k].at_micros,
        now_micros - h[k].at_micros < crate::HISTORY_WINDOW_MICROS,
    ensures
        evict_old(h, now_micros).contains(h[k]),
        spec_find_hist(evict_old(h, now_micros), h[k].msg.seq) == Some(h[k].msg),
    decreases h.len(),
{
    if h.len() > 0 && now_micros >= h[0].at_micros && now_micros - h[0].at_micros
        >= crate::HISTORY_WINDOW_MICROS {
        // the front entry is older than the window, so it is not the one we
        // keep: eviction recurses past it
        assert(k > 0);
        let t = h.drop_first();
        assert(t[k - 1] == h[k]);
        assert forall|i: int, j: int| 0 <= i < j < t.len() implies #[trigger] t[i].at_micros
            <= #[trigger] t[j].at_micros by {
            assert(t[i] == h[i + 1] && t[j] == h[j + 1]);
        }
        assert forall|i: int, j: int| 0 <= i < j < t.len() implies #[trigger] t[i].msg.seq
            < #[trigger] t[j].msg.seq by {
            assert(t[i] == h[i + 1] && t[j] == h[j + 1]);
        }
        lemma_nack_within_window(t, now_micros, k - 1);
    } else {
        lemma_find_present(h, k);
    }
}

/// In a history with strictly increasing sequence numbers, looking up the
/// sequence number of a present entry finds exactly that entry's packet.
pub proof fn lemma_find_present(h: Seq<HistEntryView>, k: int)
    requires
        0 <= k < h.len(),
        forall|i: int, j: int|
            0 <= i < j < h.len() ==> #[trigger] h[i].msg.seq < #[trigger] h[j].msg.seq,
    ensures
        spec_find_hist(h, h[k].msg.seq) == Some(h[k].msg),
    decreases h.len(),
{
    if k == 0 {
    } else {
        assert(h[0].msg.seq < h[k].msg.seq);
        let t = h.drop_first();
        assert(t[k - 1] == h[k]);
        assert forall|i: int, j: int| 0 <= i < j < t.len() implies #[trigger] t[i].msg.seq
            < #[trigger] t[j].msg.seq by {
            assert(t[i] == h[i + 1] && t[j] == h[j + 1]);
        }
        lemma_find_present(t, k - 1);
    }
}

} // verus!
