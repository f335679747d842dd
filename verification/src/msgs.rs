//! Media packets: the datagram unit of the UDP transport.
//!
//! A packet carries a sequence number shared by audio and video, a stream
//! flag, and at most [`crate::MAX_PACKET_DATA`] payload bytes. A packet with
//! empty payload is a NACK: a request to retransmit the packet that carried
//! its sequence number.

use crate::wire;
use vstd::prelude::*;

verus! {

/// One media datagram.
pub struct RTMsg {
    /// Strictly increasing per sender, shared across audio and video.
    pub seq: i64,
    /// True for an encoded audio frame, false for video payload.
    pub is_audio: bool,
    /// Payload bytes; empty for a NACK.
    pub data: Vec<u8>,
}

/// Mathematical model of a media datagram.
pub struct RTMsgView {
    pub seq: i64,
    pub is_audio: bool,
    pub data: Seq<u8>,
}

impl View for RTMsg {
    type V = RTMsgView;

    open spec fn view(&self) -> RTMsgView {
        RTMsgView { seq: self.seq, is_audio: self.is_audio, data: self.data@ }
    }
}

impl RTMsgView {
    /// A packet the transport may carry.
    pub open spec fn wf(self) -> bool {
        self.data.len() <= crate::MAX_PACKET_DATA
    }
}

/// Where a delivered packet goes at the display endpoint.
pub enum MediaKind {
    /// A zero-length payload is a NACK on the return path; it is never a
    /// frame, whichever end sees it.
    Nack,
    /// One complete encoded audio frame, fed straight to the audio decoder.
    Audio,
    /// Video payload bytes for the NAL accumulator.
    Video,
}

impl RTMsg {
    /// True for a NACK: a packet that only names a sequence number.
    pub fn is_nack(&self) -> (r: bool)
        ensures
            r == (self@.data.len() == 0),
    {
        self.data.len() == 0
    }

    /// Routes a delivered packet: empty payloads are NACKs and carry no
    /// media; everything else goes to the decoder its stream flag names.
    pub fn classify(&self) -> (r: MediaKind)
        ensures
            self@.data.len() == 0 ==> r is Nack,
            self@.data.len() > 0 && self@.is_audio ==> r is Audio,
            self@.data.len() > 0 && !self@.is_audio ==> r is Video,
    {
        if self.data.len() == 0 {
            MediaKind::Nack
        } else if self.is_audio {
            MediaKind::Audio
        } else {
            MediaKind::Video
        }
    }
}

/// The wire image of a media packet.
pub open spec fn spec_enc_rtmsg(m: RTMsgView) -> Seq<u8>
    recommends
        m.data.len() <= u32::MAX,
{
    wire::spec_enc_i64(m.seq) + wire::spec_enc_bool(m.is_audio) + wire::spec_enc_bytes(m.data)
}

/// The media packet a datagram holds, if it is exactly one well-formed
/// encoding.
pub open spec fn spec_dec_rtmsg(s: Seq<u8>) -> Option<RTMsgView> {
    match wire::spec_dec_i64(s, 0) {
        Some((seq_no, p1)) => match wire::spec_dec_bool(s, p1) {
            Some((is_audio, p2)) => match wire::spec_dec_bytes(s, p2) {
                Some((data, p3)) => if p3 == s.len() {
                    Some(RTMsgView { seq: seq_no, is_audio, data })
                } else {
                    None
                },
                None => None,
            },
            None => None,
        },
        None => None,
    }
}

/// Serializes a media packet for the UDP socket.
pub fn encode_rtmsg(m: &RTMsg) -> (r: Vec<u8>)
    requires
        m@.data.len() <= u32::MAX,
    ensures
        r@ == spec_enc_rtmsg(m@),
        r@.len() == 15 + m@.data.len(),
{
    let mut out: Vec<u8> = Vec::new();
    wire::enc_i64(&mut out, m.seq);
    wire::enc_bool(&mut out, m.is_audio);
    wire::enc_bytes(&mut out, &m.data);
    proof {
        vstd::bytes::lemma_auto_spec_u64_to_from_le_bytes();
        vstd::bytes::lemma_auto_spec_u32_to_from_le_bytes();
        assert(out@ =~= spec_enc_rtmsg(m@));
    }
    out
}

/// Parses one datagram; anything but a single complete encoding is refused.
pub fn decode_rtmsg(buf: &Vec<u8>) -> (r: Option<RTMsg>)
    ensures
        match r {
            Some(m) => spec_dec_rtmsg(buf@) == Some(m@),
            None => spec_dec_rtmsg(buf@) is None,
        },
{
    match wire::dec_i64(buf, 0) {
        Some((seq_no, p1)) => match wire::dec_bool(buf, p1) {
            Some((is_audio, p2)) => match wire::dec_bytes(buf, p2) {
                Some((data, p3)) => if p3 == buf.len() {
                    Some(RTMsg { seq: seq_no, is_audio, data })
                } else {
                    None
                },
                None => None,
            },
            None => None,
        },
        None => None,
    }
}

/// Law: deserializing a serialized media packet gives the packet back.
/// Holds for every payload an encoding can carry, the empty NACK payload
/// and the largest datagram payload included.
pub proof fn lemma_rtmsg_roundtrip(m: RTMsgView)
    requires
        m.data.len() <= u32::MAX,
    ensures
        spec_dec_rtmsg(spec_enc_rtmsg(m)) == Some(m),
{
    vstd::bytes::lemma_auto_spec_u64_to_from_le_bytes();
    vstd::bytes::lemma_auto_spec_u32_to_from_le_bytes();
    let s = spec_enc_rtmsg(m);
    let e1 = wire::spec_enc_i64(m.seq);
    let e2 = wire::spec_enc_bool(m.is_audio);
    let e3 = wire::spec_enc_bytes(m.data);
    assert(s.subrange(0, s.len() as int) =~= e1 + (e2 + e3));
    wire::lemma_enc_at(s, 0, e1, e2 + e3);
    wire::lemma_dec_enc_i64(s, 0, m.seq);
    wire::lemma_enc_at(s, e1.len() as int, e2, e3);
    wire::lemma_dec_enc_bool(s, e1.len() as int, m.is_audio);
    wire::lemma_enc_at(s, e1.len() + e2.len() as int, e3, Seq::empty());
    wire::lemma_dec_enc_bytes(s, e1.len() + e2.len() as int, m.data);
}

/// The models of a sequence of packets, in order.
pub open spec fn views(s: Seq<RTMsg>) -> Seq<RTMsgView> {
    s.map_values(|m: RTMsg| m@)
}

/// Builds the NACK datagram for one missing sequence number.
pub fn encode_nack(seq_no: i64) -> (r: Vec<u8>)
    ensures
        r@ == spec_enc_rtmsg(RTMsgView { seq: seq_no, is_audio: false, data: Seq::empty() }),
{
    let m = RTMsg { seq: seq_no, is_audio: false, data: Vec::new() };
    encode_rtmsg(&m)
}

} // verus!
