//! TCP control-channel multiplexer: typed, ordered byte streams over one
//! connection.
//!
//! Frames `{chan_id, data}` are self-delimiting on the wire. Arriving frames
//! are dispatched to the queue of the sub-channel they name; frames for a
//! sub-channel not yet registered accumulate in a pending byte buffer that
//! the registration drains, so no data is lost across that race. Within one
//! sub-channel, bytes read concatenate to exactly the bytes written, in
//! order.

use crate::wire;
use vstd::prelude::*;

verus! {

/// Names one logical stream inside the control connection.
#[derive(PartialEq, Eq, Structural, Clone, Copy, Debug)]
pub enum ChannelId {
    /// Input events from the displayer to the capturer.
    Keys,
    /// Port-forward control messages.
    PortForwardControl,
    /// One port-forward tunnel, under the initiator's identifier.
    PortForwardSub(u64),
    /// Messages to the privileged helper process.
    IPC,
}

/// One frame of the control connection.
pub struct ChanPacket {
    pub chan_id: ChannelId,
    pub data: Vec<u8>,
}

/// Mathematical model of a control frame.
pub struct ChanPacketView {
    pub chan_id: ChannelId,
    pub data: Seq<u8>,
}

impl View for ChanPacket {
    type V = ChanPacketView;

    open spec fn view(&self) -> ChanPacketView {
        ChanPacketView { chan_id: self.chan_id, data: self.data@ }
    }
}

// ---------------------------------------------------------------------------
// Frame codec
// ---------------------------------------------------------------------------

pub open spec fn spec_enc_chan_id(c: ChannelId) -> Seq<u8> {
    match c {
        ChannelId::Keys => wire::spec_enc_u8(0),
        ChannelId::PortForwardControl => wire::spec_enc_u8(1),
        ChannelId::PortForwardSub(x) => wire::spec_enc_u8(2) + wire::spec_enc_u64(x),
        ChannelId::IPC => wire::spec_enc_u8(3),
    }
}

pub open spec fn spec_dec_chan_id(s: Seq<u8>, pos: int) -> Option<(ChannelId, int)> {
    match wire::spec_dec_u8(s, pos) {
        Some((t, p)) => if t == 0 {
            Some((ChannelId::Keys, p))
        } else if t == 1 {
            Some((ChannelId::PortForwardControl, p))
        } else if t == 2 {
            match wire::spec_dec_u64(s, p) {
                Some((x, p2)) => Some((ChannelId::PortForwardSub(x), p2)),
                None => None,
            }
        } else if t == 3 {
            Some((ChannelId::IPC, p))
        } else {
            None
        },
        None => None,
    }
}

pub fn enc_chan_id(out: &mut Vec<u8>, c: ChannelId)
    ensures
        final(out)@ == old(out)@ + spec_enc_chan_id(c),
{
    match c {
        ChannelId::Keys => wire::enc_u8(out, 0),
        ChannelId::PortForwardControl => wire::enc_u8(out, 1),
        ChannelId::PortForwardSub(x) => {
            wire::enc_u8(out, 2);
            wire::enc_u64(out, x);
            proof {
                assert(final(out)@ =~= old(out)@ + spec_enc_chan_id(c));
            }
        },
        ChannelId::IPC => wire::enc_u8(out, 3),
    }
}

pub fn dec_chan_id(buf: &Vec<u8>, pos: usize) -> (r: Option<(ChannelId, usize)>)
    ensures
        match r {
            Some((c, p)) => spec_dec_chan_id(buf@, pos as int) == Some((c, p as int)),
            None => spec_dec_chan_id(buf@, pos as int) is None,
        },
{
    match wire::dec_u8(buf, pos) {
        Some((t, p)) => {
            if t == 0 {
                Some((ChannelId::Keys, p))
            } else if t == 1 {
                Some((ChannelId::PortForwardControl, p))
            } else if t == 2 {
                match wire::dec_u64(buf, p) {
                    Some((x, p2)) => Some((ChannelId::PortForwardSub(x), p2)),
                    None => None,
                }
            } else if t == 3 {
                Some((ChannelId::IPC, p))
            } else {
                None
            }
        },
        None => None,
    }
}

pub proof fn lemma_dec_enc_chan_id(s: Seq<u8>, pos: int, c: ChannelId)
    requires
        0 <= pos,
        pos + spec_enc_chan_id(c).len() <= s.len(),
        s.subrange(pos, pos + spec_enc_chan_id(c).len()) == spec_enc_chan_id(c),
    ensures
        spec_dec_chan_id(s, pos) == Some((c, pos + spec_enc_chan_id(c).len())),
{
    vstd::bytes::lemma_auto_spec_u64_to_from_le_bytes();
    match c {
        ChannelId::Keys => {
            wire::lemma_dec_enc_u8(s, pos, 0);
        },
        ChannelId::PortForwardControl => {
            wire::lemma_dec_enc_u8(s, pos, 1);
        },
        ChannelId::PortForwardSub(x) => {
            let e1 = wire::spec_enc_u8(2);
            let e2 = wire::spec_enc_u64(x);
            let sub = s.subrange(pos, pos + spec_enc_chan_id(c).len());
            assert(sub.subrange(0, 2) =~= s.subrange(pos, pos + 2));
            assert(sub.subrange(0, 2) =~= e1);
            wire::lemma_dec_enc_u8(s, pos, 2);
            assert(sub.subrange(2, 11) =~= s.subrange(pos + 2, pos + 11));
            assert(sub.subrange(2, 11) =~= e2);
            wire::lemma_dec_enc_u64(s, pos + 2, x);
        },
        ChannelId::IPC => {
            wire::lemma_dec_enc_u8(s, pos, 3);
        },
    }
}

/// The wire image of one control frame.
pub open spec fn spec_enc_frame(f: ChanPacketView) -> Seq<u8>
    recommends
        f.data.len() <= u32::MAX,
{
    spec_enc_chan_id(f.chan_id) + wire::spec_enc_bytes(f.data)
}

/// The first frame of a byte stream starting at `pos`, with the position
/// just past it: frames are self-delimiting, so a stream of frames decodes
/// one after the other.
pub open spec fn spec_dec_frame(s: Seq<u8>, pos: int) -> Option<(ChanPacketView, int)> {
    match spec_dec_chan_id(s, pos) {
        Some((c, p)) => match wire::spec_dec_bytes(s, p) {
            Some((d, p2)) => Some((ChanPacketView { chan_id: c, data: d }, p2)),
            None => None,
        },
        None => None,
    }
}

/// Serializes one control frame for the TCP socket.
pub fn encode_frame(f: &ChanPacket) -> (r: Vec<u8>)
    requires
        f@.data.len() <= u32::MAX,
    ensures
        r@ == spec_enc_frame(f@),
{
    let mut out: Vec<u8> = Vec::new();
    enc_chan_id(&mut out, f.chan_id);
    wire::enc_bytes(&mut out, &f.data);
    proof {
        assert(out@ =~= spec_enc_frame(f@));
    }
    out
}

/// Parses the first control frame of the stream at `pos`; bytes after it
/// belong to the following frames.
pub fn decode_frame(buf: &Vec<u8>, pos: usize) -> (r: Option<(ChanPacket, usize)>)
    ensures
        match r {
            Some((f, p)) => spec_dec_frame(buf@, pos as int) == Some((f@, p as int)),
            None => spec_dec_frame(buf@, pos as int) is None,
        },
{
    match dec_chan_id(buf, pos) {
        Some((c, p)) => match wire::dec_bytes(buf, p) {
            Some((d, p2)) => Some((ChanPacket { chan_id: c, data: d }, p2)),
            None => None,
        },
        None => None,
    }
}

/// Law: deserializing a serialized control frame gives the frame back, even
/// with the following frames of the stream behind it.
pub proof fn lemma_frame_roundtrip(f: ChanPacketView, s: Seq<u8>, pos: int, rest: Seq<u8>)
    requires
        f.data.len() <= u32::MAX,
        0 <= pos <= s.len(),
        s.subrange(pos, s.len() as int) == spec_enc_frame(f) + rest,
    ensures
        spec_dec_frame(s, pos) == Some((f, pos + spec_enc_frame(f).len())),
{
    vstd::bytes::lemma_auto_spec_u32_to_from_le_bytes();
    let e1 = spec_enc_chan_id(f.chan_id);
    let e2 = wire::spec_enc_bytes(f.data);
    assert(s.subrange(pos, s.len() as int) =~= e1 + (e2 + rest));
    wire::lemma_enc_at(s, pos, e1, e2 + rest);
    lemma_dec_enc_chan_id(s, pos, f.chan_id);
    wire::lemma_enc_at(s, pos + e1.len(), e2, rest);
    wire::lemma_dec_enc_bytes(s, pos + e1.len(), f.data);
}


// ---------------------------------------------------------------------------
// Demultiplexer state
// ---------------------------------------------------------------------------

/// The inbound queue of one registered sub-channel: the payloads of its
/// arrived frames, oldest first.
pub struct SubEntry {
    pub id: ChannelId,
    pub frames: Vec<Vec<u8>>,
}

/// Bytes that arrived for a sub-channel before it was registered.
pub struct PendEntry {
    pub id: ChannelId,
    pub bytes: Vec<u8>,
}

/// The multiplexer over one TCP control connection. The socket loops live
/// outside: arriving frames are handed to [`TcpChan::dispatch`], and frames
/// queued by writers are drained with [`TcpChan::pop_outbound`] and written
/// to the socket in order.
pub struct TcpChan {
    pub subchans: Vec<SubEntry>,
    pub pending: Vec<PendEntry>,
    pub outbound: Vec<ChanPacket>,
}

/// Sends on one sub-channel.
pub struct SubChanWriter {
    pub chan_id: ChannelId,
}

/// Receives from one sub-channel; `r_buf` holds bytes of a partly consumed
/// frame, ahead of the sub-channel's queue.
pub struct SubChanReader {
    pub chan_id: ChannelId,
    pub r_buf: Vec<u8>,
}

/// The payloads of a queue of frames, in order.
pub open spec fn frame_datas(fs: Seq<Vec<u8>>) -> Seq<Seq<u8>> {
    fs.map_values(|f: Vec<u8>| f@)
}

pub open spec fn registered_in(s: Seq<SubEntry>, id: ChannelId) -> bool {
    exists|i: int| 0 <= i < s.len() && (#[trigger] s[i].id) == id
}

/// The queued frame payloads of a registered sub-channel.
pub open spec fn frames_in(s: Seq<SubEntry>, id: ChannelId) -> Seq<Seq<u8>> {
    if registered_in(s, id) {
        let i = choose|i: int| 0 <= i < s.len() && (#[trigger] s[i].id) == id;
        frame_datas(s[i].frames@)
    } else {
        Seq::empty()
    }
}

pub open spec fn pending_in(p: Seq<PendEntry>, id: ChannelId) -> bool {
    exists|i: int| 0 <= i < p.len() && (#[trigger] p[i].id) == id
}

/// The bytes held for a sub-channel not yet registered.
pub open spec fn bytes_in(p: Seq<PendEntry>, id: ChannelId) -> Seq<u8> {
    if pending_in(p, id) {
        let i = choose|i: int| 0 <= i < p.len() && (#[trigger] p[i].id) == id;
        p[i].bytes@
    } else {
        Seq::empty()
    }
}

pub open spec fn distinct_sub_ids(s: Seq<SubEntry>) -> bool {
    forall|i: int, j: int|
        0 <= i < j < s.len() ==> (#[trigger] s[i].id) != (#[trigger] s[j].id)
}

pub open spec fn distinct_pend_ids(p: Seq<PendEntry>) -> bool {
    forall|i: int, j: int|
        0 <= i < j < p.len() ==> (#[trigger] p[i].id) != (#[trigger] p[j].id)
}

impl TcpChan {
    /// At most one entry per sub-channel, and none both registered and
    /// pending.
    pub open spec fn wf(self) -> bool {
        &&& distinct_sub_ids(self.subchans@)
        &&& distinct_pend_ids(self.pending@)
        &&& forall|i: int, j: int|
            0 <= i < self.subchans@.len() && 0 <= j < self.pending@.len() ==> (
            #[trigger] self.subchans@[i].id) != (#[trigger] self.pending@[j].id)
    }

    pub open spec fn spec_registered(self, id: ChannelId) -> bool {
        registered_in(self.subchans@, id)
    }

    /// The queued frame payloads of a registered sub-channel.
    pub open spec fn chan_frames(self, id: ChannelId) -> Seq<Seq<u8>> {
        frames_in(self.subchans@, id)
    }

    pub open spec fn spec_pending(self, id: ChannelId) -> bool {
        pending_in(self.pending@, id)
    }

    /// The bytes held for a sub-channel not yet registered.
    pub open spec fn pending_bytes(self, id: ChannelId) -> Seq<u8> {
        bytes_in(self.pending@, id)
    }

    /// A multiplexer with no sub-channels and nothing queued.
    pub fn new() -> (r: TcpChan)
        ensures
            r.wf(),
            r.subchans@.len() == 0,
            r.pending@.len() == 0,
            r.outbound@.len() == 0,
    {
        TcpChan { subchans: Vec::new(), pending: Vec::new(), outbound: Vec::new() }
    }

    /// Whether a sub-channel with this identifier is registered.
    pub fn is_registered(&self, id: ChannelId) -> (r: bool)
        ensures
            r == self.spec_registered(id),
    {
        self.find_subchan(id).is_some()
    }

    fn find_subchan(&self, id: ChannelId) -> (r: Option<usize>)
        ensures
            match r {
                Some(i) => i < self.subchans@.len() && self.subchans@[i as int].id == id
                    && self.spec_registered(id),
                None => !self.spec_registered(id),
            },
    {
        let mut i: usize = 0;
        while i < self.subchans.len()
            invariant
                i <= self.subchans@.len(),
                forall|k: int| 0 <= k < i ==> (#[trigger] self.subchans@[k].id) != id,
            decreases self.subchans@.len() - i,
        {
            if self.subchans[i].id == id {
                return Some(i);
            }
            i = i + 1;
        }
        None
    }

    fn find_pending(&self, id: ChannelId) -> (r: Option<usize>)
        ensures
            match r {
                Some(i) => i < self.pending@.len() && self.pending@[i as int].id == id
                    && self.spec_pending(id),
                None => !self.spec_pending(id),
            },
    {
        let mut i: usize = 0;
        while i < self.pending.len()
            invariant
                i <= self.pending@.len(),
                forall|k: int| 0 <= k < i ==> (#[trigger] self.pending@[k].id) != id,
            decreases self.pending@.len() - i,
        {
            if self.pending[i].id == id {
                return Some(i);
            }
            i = i + 1;
        }
        None
    }

    /// Registers a sub-channel and returns its typed endpoints. Bytes that
    /// arrived for this identifier before registration seed the reader, so
    /// nothing is lost across the registered-after-first-frame race. Other
    /// sub-channels are untouched.
    pub fn create_subchan(&mut self, id: ChannelId) -> (r: (SubChanWriter, SubChanReader))
        requires
            old(self).wf(),
            !old(self).spec_registered(id),
        ensures
            final(self).wf(),
            r.0.chan_id == id,
            r.1.chan_id == id,
            r.1.r_buf@ == old(self).pending_bytes(id),
            final(self).spec_registered(id),
            final(self).chan_frames(id) == Seq::<Seq<u8>>::empty(),
            !final(self).spec_pending(id),
            final(self).outbound@ == old(self).outbound@,
            forall|c: ChannelId|
                c != id ==> frames_in(final(self).subchans@, c) == #[trigger] frames_in(
                    old(self).subchans@,
                    c,
                ),
            forall|c: ChannelId|
                c != id ==> registered_in(final(self).subchans@, c) == #[trigger] registered_in(
                    old(self).subchans@,
                    c,
                ),
            forall|c: ChannelId|
                c != id ==> bytes_in(final(self).pending@, c) == #[trigger] bytes_in(
                    old(self).pending@,
                    c,
                ),
            forall|c: ChannelId|
                c != id ==> pending_in(final(self).pending@, c) == #[trigger] pending_in(
                    old(self).pending@,
                    c,
                ),
    {
        let ghost old_self = *self;
        let ghost mut removed_at: int = 0;
        let mut had_pending: bool = false;
        let r_buf: Vec<u8> = match self.find_pending(id) {
            Some(i) => {
                had_pending = true;
                proof {
                    removed_at = i as int;
                }
                let e = self.pending.remove(i);
                proof {
                    old_self.pending@.remove_ensures(i as int);
                    lemma_unique_pending_at(old_self.pending@, id, i as int);
                    assert(!pending_in(self.pending@, id)) by {
                        assert forall|k: int| 0 <= k < self.pending@.len() implies (
                        #[trigger] self.pending@[k].id) != id by {
                            if k < i {
                                assert(self.pending@[k] == old_self.pending@[k]);
                            } else {
                                assert(self.pending@[k] == old_self.pending@[k + 1]);
                            }
                        }
                    }
                }
                e.bytes
            },
            None => Vec::new(),
        };
        self.subchans.push(SubEntry { id, frames: Vec::new() });

        proof {
            let n = old_self.subchans@.len() as int;
            assert(self.subchans@[n].id == id);
            assert(registered_in(self.subchans@, id));
            assert(frames_in(self.subchans@, id) =~= Seq::<Seq<u8>>::empty()) by {
                let i = choose|i: int|
                    0 <= i < self.subchans@.len() && (#[trigger] self.subchans@[i].id) == id;
                if i < n {
                    assert(old_self.subchans@[i].id == id);
                    assert(registered_in(old_self.subchans@, id));
                }
                assert(frame_datas(self.subchans@[i].frames@) =~= Seq::<Seq<u8>>::empty());
            }
            assert forall|c: ChannelId| c != id implies frames_in(self.subchans@, c)
                == #[trigger] frames_in(old_self.subchans@, c) by {
                lemma_subchan_push_other(old_self.subchans@, self.subchans@, c);
            }
            assert forall|c: ChannelId| c != id implies registered_in(self.subchans@, c)
                == #[trigger] registered_in(old_self.subchans@, c) by {
                lemma_subchan_push_other(old_self.subchans@, self.subchans@, c);
            }
            assert forall|c: ChannelId| c != id implies bytes_in(self.pending@, c)
                == #[trigger] bytes_in(old_self.pending@, c) by {
                if had_pending {
                    lemma_pending_remove_other(old_self.pending@, self.pending@, removed_at, c);
                }
            }
            assert forall|c: ChannelId| c != id implies pending_in(self.pending@, c)
                == #[trigger] pending_in(old_self.pending@, c) by {
                if had_pending {
                    lemma_pending_remove_other(old_self.pending@, self.pending@, removed_at, c);
                }
            }
        }
        (SubChanWriter { chan_id: id }, SubChanReader { chan_id: id, r_buf })
    }

    /// Takes one arriving frame from the socket reader: appends its payload
    /// to the queue of the sub-channel it names, or to the pending buffer
    /// when that sub-channel is not yet registered. Everything else is
    /// untouched.
    #[verifier::rlimit(50)]
    #[verifier::spinoff_prover]
    pub fn dispatch(&mut self, frame: ChanPacket)
        requires
            old(self).wf(),
        ensures
            final(self).wf(),
            final(self).outbound@ == old(self).outbound@,
            old(self).spec_registered(frame@.chan_id) ==> {
                &&& final(self).chan_frames(frame@.chan_id) == old(self).chan_frames(
                    frame@.chan_id,
                ).push(frame@.data)
                &&& final(self).pending@ == old(self).pending@
            },
            !old(self).spec_registered(frame@.chan_id) ==> {
                &&& final(self).pending_bytes(frame@.chan_id) == old(self).pending_bytes(
                    frame@.chan_id,
                ) + frame@.data
                &&& final(self).subchans@ == old(self).subchans@
            },
            forall|c: ChannelId|
                c != frame@.chan_id ==> frames_in(final(self).subchans@, c) == #[trigger] frames_in(
                    old(self).subchans@,
                    c,
                ),
            forall|c: ChannelId|
                c != frame@.chan_id ==> registered_in(final(self).subchans@, c)
                    == #[trigger] registered_in(old(self).subchans@, c),
            forall|c: ChannelId|
                c != frame@.chan_id ==> bytes_in(final(self).pending@, c) == #[trigger] bytes_in(
                    old(self).pending@,
                    c,
                ),
            forall|c: ChannelId|
                c != frame@.chan_id ==> pending_in(final(self).pending@, c)
                    == #[trigger] pending_in(old(self).pending@, c),
    {
        let ghost old_self = *self;
        let ghost mut sub_at: int = 0;
        let ghost mut pend_at: int = 0;
        let mut was_registered: bool = false;
        let mut was_pending: bool = false;
        let id = frame.chan_id;
        match self.find_subchan(id) {
            Some(i) => {
                was_registered = true;
                proof {
                    sub_at = i as int;
                    lemma_unique_subchan_at(old_self.subchans@, id, i as int);
                }
                let mut entry = self.subchans.remove(i);
                entry.frames.push(frame.data);
                self.subchans.insert(i, entry);
                proof {
                    old_self.subchans@.remove_ensures(i as int);
                    old_self.subchans@.remove(i as int).insert_ensures(
                        i as int,
                        self.subchans@[i as int],
                    );
                    assert(self.subchans@ =~= old_self.subchans@.update(
                        i as int,
                        self.subchans@[i as int],
                    ));
                    assert(self.subchans@[i as int].id == id);
                    lemma_unique_subchan_at(self.subchans@, id, i as int);
                    assert(frames_in(self.subchans@, id) =~= frames_in(
                        old_self.subchans@,
                        id,
                    ).push(frame@.data)) by {
                        assert(frame_datas(self.subchans@[i as int].frames@) =~= frame_datas(
                            old_self.subchans@[i as int].frames@,
                        ).push(frame@.data));
                    }
                }
            },
            None => {
                match self.find_pending(id) {
                    Some(i) => {
                        was_pending = true;
                        proof {
                            pend_at = i as int;
                            lemma_unique_pending_at(old_self.pending@, id, i as int);
                        }
                        let mut entry = self.pending.remove(i);
                        let mut data = frame.data;
                        entry.bytes.append(&mut data);
                        self.pending.insert(i, entry);
                        proof {
                            old_self.pending@.remove_ensures(i as int);
                            old_self.pending@.remove(i as int).insert_ensures(
                                i as int,
                                self.pending@[i as int],
                            );
                            assert(self.pending@ =~= old_self.pending@.update(
                                i as int,
                                self.pending@[i as int],
                            ));
                            assert(self.pending@[i as int].id == id);
                            lemma_unique_pending_at(self.pending@, id, i as int);
                            assert(bytes_in(self.pending@, id) == bytes_in(old_self.pending@, id)
                                + frame@.data);
                        }
                    },
                    None => {
                        self.pending.push(PendEntry { id, bytes: frame.data });
                        proof {
                            let n = old_self.pending@.len() as int;
                            assert(self.pending@[n].id == id);
                            assert(pending_in(self.pending@, id));
                            lemma_unique_pending_at(self.pending@, id, n);
                            assert(bytes_in(self.pending@, id) =~= bytes_in(
                                old_self.pending@,
                                id,
                            ) + frame@.data);
                        }
                    },
                }
            },
        }
        proof {
            assert forall|c: ChannelId| c != id implies frames_in(self.subchans@, c)
                == #[trigger] frames_in(old_self.subchans@, c) by {
                if was_registered {
                    lemma_subchan_update_other(old_self.subchans@, self.subchans@, sub_at, c);
                }
            }
            assert forall|c: ChannelId| c != id implies registered_in(self.subchans@, c)
                == #[trigger] registered_in(old_self.subchans@, c) by {
                if was_registered {
                    lemma_subchan_update_other(old_self.subchans@, self.subchans@, sub_at, c);
                }
            }
            assert forall|c: ChannelId| c != id implies bytes_in(self.pending@, c)
                == #[trigger] bytes_in(old_self.pending@, c) by {
                if was_registered {
                } else if was_pending {
                    lemma_pending_update_other(old_self.pending@, self.pending@, pend_at, c);
                } else {
                    lemma_pending_push_other(old_self.pending@, self.pending@, c);
                }
            }
            assert forall|c: ChannelId| c != id implies pending_in(self.pending@, c)
                == #[trigger] pending_in(old_self.pending@, c) by {
                if was_registered {
                } else if was_pending {
                    lemma_pending_update_other(old_self.pending@, self.pending@, pend_at, c);
                } else {
                    lemma_pending_push_other(old_self.pending@, self.pending@, c);
                }
            }
        }
    }

    /// Takes the oldest frame queued for the socket writer, which sends the
    /// frames in exactly this order.
    pub fn pop_outbound(&mut self) -> (r: Option<ChanPacket>)
        ensures
            final(self).subchans@ == old(self).subchans@,
            final(self).pending@ == old(self).pending@,
            old(self).outbound@.len() == 0 ==> r is None && final(self).outbound@ == old(
                self,
            ).outbound@,
            old(self).outbound@.len() > 0 ==> {
                &&& r matches Some(f) && f@ == old(self).outbound@[0]@
                &&& final(self).outbound@ == old(self).outbound@.drop_first()
            },
    {
        if self.outbound.len() == 0 {
            None
        } else {
            let f = self.outbound.remove(0);
            proof {
                assert(final(self).outbound@ =~= old(self).outbound@.drop_first());
            }
            Some(f)
        }
    }
}

impl SubChanWriter {
    /// Frames the bytes and queues them on the shared outbound queue; the
    /// whole buffer is always accepted.
    pub fn write(&self, chan: &mut TcpChan, data: Vec<u8>) -> (r: usize)
        ensures
            r == data@.len(),
            final(chan).outbound@ == old(chan).outbound@.push(
                ChanPacket { chan_id: self.chan_id, data },
            ),
            final(chan).subchans@ == old(chan).subchans@,
            final(chan).pending@ == old(chan).pending@,
    {
        let n = data.len();
        chan.outbound.push(ChanPacket { chan_id: self.chan_id, data });
        n
    }
}

/// What a reader will yield from now on: bytes of a partly consumed frame,
/// then the queued frame payloads, in order.
pub open spec fn reader_stream(r: SubChanReader, chan: TcpChan) -> Seq<u8> {
    r.r_buf@ + crate::packetize::concat_chunks(chan.chan_frames(r.chan_id))
}

impl SubChanReader {
    /// Reads up to `n` bytes: the next bytes of the sub-channel's stream, in
    /// order. Bytes come first from the partly consumed frame, then from the
    /// next queued frame; one call never crosses a frame boundary.
    #[verifier::rlimit(50)]
    #[verifier::spinoff_prover]
    pub fn read(&mut self, chan: &mut TcpChan, n: usize) -> (r: Vec<u8>)
        requires
            old(chan).wf(),
        ensures
            final(chan).wf(),
            final(chan).outbound@ == old(chan).outbound@,
            final(chan).pending@ == old(chan).pending@,
            final(self).chan_id == old(self).chan_id,
            r@ == reader_stream(*old(self), *old(chan)).take(r@.len() as int),
            reader_stream(*final(self), *final(chan)) == reader_stream(
                *old(self),
                *old(chan),
            ).skip(r@.len() as int),
            r@.len() <= n,
            n == 0 || reader_stream(*old(self), *old(chan)).len() == 0 ==> r@.len() == 0,
            old(self).r_buf@.len() > 0 ==> r@.len() == (if n <= old(self).r_buf@.len() {
                n as int
            } else {
                old(self).r_buf@.len() as int
            }),
            // progress: with nothing partly consumed, the call refills from
            // the next queued frame and hands its bytes out
            old(self).r_buf@.len() == 0 && old(chan).chan_frames(old(self).chan_id).len() > 0
                ==> r@.len() == (if n <= old(chan).chan_frames(old(self).chan_id)[0].len() {
                n as int
            } else {
                old(chan).chan_frames(old(self).chan_id)[0].len() as int
            }),
            forall|c: ChannelId|
                c != old(self).chan_id ==> frames_in(final(chan).subchans@, c)
                    == #[trigger] frames_in(old(chan).subchans@, c),
            forall|c: ChannelId|
                c != old(self).chan_id ==> registered_in(final(chan).subchans@, c)
                    == #[trigger] registered_in(old(chan).subchans@, c),
    {
        let ghost old_stream = reader_stream(*old(self), *old(chan));
        let ghost mut refill_at: int = 0;
        let mut refilled: bool = false;
        if self.r_buf.len() == 0 {
            // refill from the next queued frame, if any
            match chan.find_subchan(self.chan_id) {
                Some(i) => {
                    proof {
                        lemma_unique_subchan_at(chan.subchans@, self.chan_id, i as int);
                    }
                    let ghost pre_chan = *chan;
                    if chan.subchans[i].frames.len() > 0 {
                        refilled = true;
                        proof {
                            refill_at = i as int;
                        }
                        let mut entry = chan.subchans.remove(i);
                        let f = entry.frames.remove(0);
                        self.r_buf = f;
                        chan.subchans.insert(i, entry);
                        proof {
                            pre_chan.subchans@.remove_ensures(i as int);
                            pre_chan.subchans@.remove(i as int).insert_ensures(
                                i as int,
                                chan.subchans@[i as int],
                            );
                            assert(chan.subchans@ =~= pre_chan.subchans@.update(
                                i as int,
                                chan.subchans@[i as int],
                            ));
                            assert(chan.subchans@[i as int].id == self.chan_id);
                            lemma_unique_subchan_at(chan.subchans@, self.chan_id, i as int);
                            assert(frame_datas(chan.subchans@[i as int].frames@) =~= frame_datas(
                                pre_chan.subchans@[i as int].frames@,
                            ).drop_first());
                            assert(chan.chan_frames(self.chan_id) == pre_chan.chan_frames(
                                self.chan_id,
                            ).drop_first());
                            assert(reader_stream(*self, *chan) =~= old_stream);
                        }
                    } else {
                        proof {
                            assert(chan.chan_frames(self.chan_id) =~= Seq::<Seq<u8>>::empty());
                            assert(reader_stream(*self, *chan) =~= old_stream);
                        }
                    }
                },
                None => {
                    proof {
                        assert(reader_stream(*self, *chan) =~= old_stream);
                    }
                },
            }
        } else {
            proof {
                assert(reader_stream(*self, *chan) =~= old_stream);
            }
        }

        // hand out up to n bytes from the refilled buffer
        let take = if n < self.r_buf.len() {
            n
        } else {
            self.r_buf.len()
        };
        let ghost pre_buf = self.r_buf@;
        let out = vstd::slice::slice_to_vec(
            vstd::slice::slice_subrange(self.r_buf.as_slice(), 0, take),
        );
        let rest = self.r_buf.split_off(take);
        proof {
            assert(rest@ =~= pre_buf.skip(take as int));
        }
        self.r_buf = rest;
        proof {
            assert(out@ =~= reader_stream(*old(self), *old(chan)).take(out@.len() as int));
            assert(reader_stream(*self, *chan) =~= reader_stream(*old(self), *old(chan)).skip(
                out@.len() as int,
            ));
            assert forall|c: ChannelId| c != old(self).chan_id implies frames_in(
                chan.subchans@,
                c,
            ) == #[trigger] frames_in(old(chan).subchans@, c) by {
                if refilled {
                    lemma_subchan_update_other(old(chan).subchans@, chan.subchans@, refill_at, c);
                }
            }
            assert forall|c: ChannelId| c != old(self).chan_id implies registered_in(
                chan.subchans@,
                c,
            ) == #[trigger] registered_in(old(chan).subchans@, c) by {
                if refilled {
                    lemma_subchan_update_other(old(chan).subchans@, chan.subchans@, refill_at, c);
                }
            }
        }
        out
    }
}

// ---------------------------------------------------------------------------
// Frame-accounting lemmas for the demultiplexer
// ---------------------------------------------------------------------------

/// With distinct identifiers, the entry the witness picks for a registered
/// id is the unique one holding it.
proof fn lemma_unique_subchan_at(s: Seq<SubEntry>, id: ChannelId, i: int)
    requires
        distinct_sub_ids(s),
        0 <= i < s.len(),
        s[i].id == id,
    ensures
        registered_in(s, id),
        frames_in(s, id) == frame_datas(s[i].frames@),
{
    assert(registered_in(s, id));
    let k = choose|k: int| 0 <= k < s.len() && (#[trigger] s[k].id) == id;
    if k != i {
        assert(s[k].id != s[i].id);
        assert(false);
    }
}

proof fn lemma_unique_pending_at(p: Seq<PendEntry>, id: ChannelId, i: int)
    requires
        distinct_pend_ids(p),
        0 <= i < p.len(),
        p[i].id == id,
    ensures
        pending_in(p, id),
        bytes_in(p, id) == p[i].bytes@,
{
    assert(pending_in(p, id));
    let k = choose|k: int| 0 <= k < p.len() && (#[trigger] p[k].id) == id;
    if k != i {
        assert(p[k].id != p[i].id);
        assert(false);
    }
}

/// Updating one sub-channel entry leaves every other channel's view alone.
proof fn lemma_subchan_update_other(a: Seq<SubEntry>, b: Seq<SubEntry>, i: int, c: ChannelId)
    requires
        distinct_sub_ids(a),
        distinct_sub_ids(b),
        0 <= i < a.len(),
        b.len() == a.len(),
        forall|k: int| 0 <= k < a.len() && k != i ==> #[trigger] b[k] == a[k],
        b[i].id == a[i].id,
        c != a[i].id,
    ensures
        frames_in(b, c) == frames_in(a, c),
        registered_in(b, c) == registered_in(a, c),
{
    if registered_in(a, c) {
        let k = choose|k: int| 0 <= k < a.len() && (#[trigger] a[k].id) == c;
        assert(k != i);
        assert(b[k].id == c);
        lemma_unique_subchan_at(b, c, k);
        lemma_unique_subchan_at(a, c, k);
    } else {
        if registered_in(b, c) {
            let k = choose|k: int| 0 <= k < b.len() && (#[trigger] b[k].id) == c;
            assert(k != i);
            assert(a[k].id == c);
            assert(false);
        }
    }
}

/// Pushing a new sub-channel entry leaves every other channel's view alone.
proof fn lemma_subchan_push_other(a: Seq<SubEntry>, b: Seq<SubEntry>, c: ChannelId)
    requires
        distinct_sub_ids(a),
        distinct_sub_ids(b),
        b.len() == a.len() + 1,
        forall|k: int| 0 <= k < a.len() ==> #[trigger] b[k] == a[k],
        c != b[a.len() as int].id,
    ensures
        frames_in(b, c) == frames_in(a, c),
        registered_in(b, c) == registered_in(a, c),
{
    if registered_in(a, c) {
        let k = choose|k: int| 0 <= k < a.len() && (#[trigger] a[k].id) == c;
        assert(b[k].id == c);
        lemma_unique_subchan_at(b, c, k);
        lemma_unique_subchan_at(a, c, k);
    } else {
        if registered_in(b, c) {
            let k = choose|k: int| 0 <= k < b.len() && (#[trigger] b[k].id) == c;
            assert(k < a.len());
            assert(a[k].id == c);
            assert(false);
        }
    }
}

proof fn lemma_pending_update_other(a: Seq<PendEntry>, b: Seq<PendEntry>, i: int, c: ChannelId)
    requires
        distinct_pend_ids(a),
        distinct_pend_ids(b),
        0 <= i < a.len(),
        b.len() == a.len(),
        forall|k: int| 0 <= k < a.len() && k != i ==> #[trigger] b[k] == a[k],
        b[i].id == a[i].id,
        c != a[i].id,
    ensures
        bytes_in(b, c) == bytes_in(a, c),
        pending_in(b, c) == pending_in(a, c),
{
    if pending_in(a, c) {
        let k = choose|k: int| 0 <= k < a.len() && (#[trigger] a[k].id) == c;
        assert(k != i);
        assert(b[k].id == c);
        lemma_unique_pending_at(b, c, k);
        lemma_unique_pending_at(a, c, k);
    } else {
        if pending_in(b, c) {
            let k = choose|k: int| 0 <= k < b.len() && (#[trigger] b[k].id) == c;
            assert(k != i);
            assert(a[k].id == c);
            assert(false);
        }
    }
}

proof fn lemma_pending_push_other(a: Seq<PendEntry>, b: Seq<PendEntry>, c: ChannelId)
    requires
        distinct_pend_ids(a),
        distinct_pend_ids(b),
        b.len() == a.len() + 1,
        forall|k: int| 0 <= k < a.len() ==> #[trigger] b[k] == a[k],
        c != b[a.len() as int].id,
    ensures
        bytes_in(b, c) == bytes_in(a, c),
        pending_in(b, c) == pending_in(a, c),
{
    if pending_in(a, c) {
        let k = choose|k: int| 0 <= k < a.len() && (#[trigger] a[k].id) == c;
        assert(b[k].id == c);
        lemma_unique_pending_at(b, c, k);
        lemma_unique_pending_at(a, c, k);
    } else {
        if pending_in(b, c) {
            let k = choose|k: int| 0 <= k < b.len() && (#[trigger] b[k].id) == c;
            assert(k < a.len());
            assert(a[k].id == c);
            assert(false);
        }
    }
}

proof fn lemma_pending_remove_other(a: Seq<PendEntry>, b: Seq<PendEntry>, i: int, c: ChannelId)
    requires
        distinct_pend_ids(a),
        0 <= i < a.len(),
        b == a.remove(i),
        c != a[i].id,
    ensures
        bytes_in(b, c) == bytes_in(a, c),
        pending_in(b, c) == pending_in(a, c),
{
    a.remove_ensures(i);
    assert(distinct_pend_ids(b)) by {
        assert forall|x: int, y: int| 0 <= x < y < b.len() implies (#[trigger] b[x].id) != (
        #[trigger] b[y].id) by {
            let xa = if x < i { x } else { x + 1 };
            let ya = if y < i { y } else { y + 1 };
            assert(b[x] == a[xa] && b[y] == a[ya]);
        }
    }
    if pending_in(a, c) {
        let k = choose|k: int| 0 <= k < a.len() && (#[trigger] a[k].id) == c;
        assert(k != i);
        if k < i {
            assert(b[k].id == c);
            lemma_unique_pending_at(b, c, k);
        } else {
            assert(b[k - 1] == a[k]);
            lemma_unique_pending_at(b, c, k - 1);
        }
        lemma_unique_pending_at(a, c, k);
    } else {
        if pending_in(b, c) {
            let k = choose|k: int| 0 <= k < b.len() && (#[trigger] b[k].id) == c;
            if k < i {
                assert(a[k].id == c);
            } else {
                assert(a[k + 1].id == c);
            }
            assert(false);
        }
    }
}

/// Law: bytes within one sub-channel arrive in the exact order written.
/// Successive reads return successive pieces of the stream, so their
/// concatenation is an exact prefix of it: reading everything yields exactly
/// the bytes written, in order.
pub proof fn lemma_reads_concatenate(s: Seq<u8>, k1: int, k2: int)
    requires
        0 <= k1 <= s.len(),
        0 <= k2 <= s.len() - k1,
    ensures
        s.take(k1) + s.skip(k1).take(k2) == s.take(k1 + k2),
{
    assert(s.take(k1) + s.skip(k1).take(k2) =~= s.take(k1 + k2));
}

} // verus!
