//! Port forwarding over the control channel: SSH-like TCP tunnels.
//!
//! The initiator picks a fresh random 64-bit tunnel identifier, announces it
//! with `Connect{chan_id, addr}` on the `PortForwardControl` sub-channel and
//! opens the matching `PortForwardSub` sub-channel; the remote side dials the
//! address and splices. The control channel's ordering guarantees that the
//! announcement is seen before any tunnel byte.

use crate::chan::{
    bytes_in, frames_in, pending_in, registered_in, ChannelId, SubChanReader, SubChanWriter,
    TcpChan,
};
use crate::wire;
use vstd::prelude::*;

verus! {

/// A control message of the port forwarder.
pub enum ForwardMsg {
    /// Open a tunnel with the given identifier to the given address,
    /// resolved at the receiving end.
    Connect { chan_id: u64, addr: String },
    /// Shut the tunnel with the given identifier down.
    Close { chan_id: u64 },
}

/// Mathematical model of a port-forward control message.
pub enum ForwardMsgView {
    Connect { chan_id: u64, addr: Seq<char> },
    Close { chan_id: u64 },
}

impl View for ForwardMsg {
    type V = ForwardMsgView;

    open spec fn view(&self) -> ForwardMsgView {
        match self {
            ForwardMsg::Connect { chan_id, addr } => ForwardMsgView::Connect {
                chan_id: *chan_id,
                addr: addr@,
            },
            ForwardMsg::Close { chan_id } => ForwardMsgView::Close { chan_id: *chan_id },
        }
    }
}

/// A message to the privileged helper process.
pub enum IPCMsg {
    /// Start the USB-over-IP server.
    StartUSBIP,
}

/// The wire image of a port-forward control message.
pub open spec fn spec_enc_forward_msg(m: ForwardMsgView) -> Seq<u8> {
    match m {
        ForwardMsgView::Connect { chan_id, addr } => wire::spec_enc_u8(0) + wire::spec_enc_u64(
            chan_id,
        ) + wire::spec_enc_str(addr),
        ForwardMsgView::Close { chan_id } => wire::spec_enc_u8(1) + wire::spec_enc_u64(chan_id),
    }
}

/// The first control message of a byte stream at `pos`, with the position
/// just past it.
pub open spec fn spec_dec_forward_msg(s: Seq<u8>, pos: int) -> Option<(ForwardMsgView, int)> {
    match wire::spec_dec_u8(s, pos) {
        Some((tag, p)) => {
            if tag == 0 {
                match wire::spec_dec_u64(s, p) {
                    Some((chan_id, p2)) => match wire::spec_dec_str(s, p2) {
                        Some((addr, p3)) => Some((ForwardMsgView::Connect { chan_id, addr }, p3)),
                        None => None,
                    },
                    None => None,
                }
            } else if tag == 1 {
                match wire::spec_dec_u64(s, p) {
                    Some((chan_id, p2)) => Some((ForwardMsgView::Close { chan_id }, p2)),
                    None => None,
                }
            } else {
                None
            }
        },
        None => None,
    }
}

/// Serializes one port-forward control message.
pub fn encode_forward_msg(m: &ForwardMsg) -> (r: Vec<u8>)
    requires
        m@ matches ForwardMsgView::Connect { addr, .. } ==> addr.len() <= u32::MAX,
    ensures
        r@ == spec_enc_forward_msg(m@),
{
    let mut out: Vec<u8> = Vec::new();
    match m {
        ForwardMsg::Connect { chan_id, addr } => {
            wire::enc_u8(&mut out, 0);
            wire::enc_u64(&mut out, *chan_id);
            let cs = wire::string_to_chars(addr.as_str());
            wire::enc_str(&mut out, &cs);
        },
        ForwardMsg::Close { chan_id } => {
            wire::enc_u8(&mut out, 1);
            wire::enc_u64(&mut out, *chan_id);
        },
    }
    proof {
        assert(out@ =~= spec_enc_forward_msg(m@));
    }
    out
}

/// Parses the first port-forward control message of the stream at `pos`.
pub fn decode_forward_msg(buf: &Vec<u8>, pos: usize) -> (r: Option<(ForwardMsg, usize)>)
    ensures
        match r {
            Some((m, p)) => spec_dec_forward_msg(buf@, pos as int) == Some((m@, p as int)),
            None => spec_dec_forward_msg(buf@, pos as int) is None,
        },
{
    let (tag, p) = match wire::dec_u8(buf, pos) {
        Some(x) => x,
        None => {
            return None;
        },
    };
    if tag == 0 {
        let (chan_id, p2) = match wire::dec_u64(buf, p) {
            Some(x) => x,
            None => {
                return None;
            },
        };
        match wire::dec_str(buf, p2) {
            Some((cs, p3)) => {
                let addr = wire::string_from_chars(&cs);
                Some((ForwardMsg::Connect { chan_id, addr }, p3))
            },
            None => None,
        }
    } else if tag == 1 {
        match wire::dec_u64(buf, p) {
            Some((chan_id, p2)) => Some((ForwardMsg::Close { chan_id }, p2)),
            None => None,
        }
    } else {
        None
    }
}

/// Law: deserializing a serialized port-forward control message gives the
/// message back, even with the following messages of the stream behind it.
pub proof fn lemma_forward_msg_roundtrip(m: ForwardMsgView, s: Seq<u8>, pos: int, rest: Seq<u8>)
    requires
        0 <= pos <= s.len(),
        m matches ForwardMsgView::Connect { addr, .. } ==> addr.len() <= u32::MAX,
        s.subrange(pos, s.len() as int) == spec_enc_forward_msg(m) + rest,
    ensures
        spec_dec_forward_msg(s, pos) == Some((m, pos + spec_enc_forward_msg(m).len())),
{
    vstd::bytes::lemma_auto_spec_u64_to_from_le_bytes();
    vstd::bytes::lemma_auto_spec_u32_to_from_le_bytes();
    match m {
        ForwardMsgView::Connect { chan_id, addr } => {
            let e1 = wire::spec_enc_u8(0);
            let e2 = wire::spec_enc_u64(chan_id);
            let e3 = wire::spec_enc_str(addr);
            wire::lemma_enc_char_seq_len(addr);
            assert(s.subrange(pos, s.len() as int) =~= e1 + (e2 + (e3 + rest)));
            wire::lemma_enc_at(s, pos, e1, e2 + (e3 + rest));
            wire::lemma_dec_enc_u8(s, pos, 0);
            wire::lemma_enc_at(s, pos + 2, e2, e3 + rest);
            wire::lemma_dec_enc_u64(s, pos + 2, chan_id);
            wire::lemma_enc_at(s, pos + 11, e3, rest);
            wire::lemma_dec_enc_str(s, pos + 11, addr);
        },
        ForwardMsgView::Close { chan_id } => {
            let e1 = wire::spec_enc_u8(1);
            let e2 = wire::spec_enc_u64(chan_id);
            assert(s.subrange(pos, s.len() as int) =~= e1 + (e2 + rest));
            wire::lemma_enc_at(s, pos, e1, e2 + rest);
            wire::lemma_dec_enc_u8(s, pos, 1);
            wire::lemma_enc_at(s, pos + 2, e2, rest);
            wire::lemma_dec_enc_u64(s, pos + 2, chan_id);
        },
    }
}

/// The wire image of a helper message.
pub open spec fn spec_enc_ipc_msg(m: IPCMsg) -> Seq<u8> {
    wire::spec_enc_u8(0)
}

pub open spec fn spec_dec_ipc_msg(s: Seq<u8>, pos: int) -> Option<(IPCMsg, int)> {
    match wire::spec_dec_u8(s, pos) {
        Some((tag, p)) => if tag == 0 {
            Some((IPCMsg::StartUSBIP, p))
        } else {
            None
        },
        None => None,
    }
}

/// Serializes one helper message.
pub fn encode_ipc_msg(m: &IPCMsg) -> (r: Vec<u8>)
    ensures
        r@ == spec_enc_ipc_msg(*m),
{
    let mut out: Vec<u8> = Vec::new();
    wire::enc_u8(&mut out, 0);
    proof {
        assert(out@ =~= spec_enc_ipc_msg(*m));
    }
    out
}

/// Parses the first helper message of the stream at `pos`.
pub fn decode_ipc_msg(buf: &Vec<u8>, pos: usize) -> (r: Option<(IPCMsg, usize)>)
    ensures
        match r {
            Some((m, p)) => spec_dec_ipc_msg(buf@, pos as int) == Some((m, p as int)),
            None => spec_dec_ipc_msg(buf@, pos as int) is None,
        },
{
    match wire::dec_u8(buf, pos) {
        Some((tag, p)) => if tag == 0 {
            Some((IPCMsg::StartUSBIP, p))
        } else {
            None
        },
        None => None,
    }
}

/// Law: deserializing a serialized helper message gives the message back.
pub proof fn lemma_ipc_msg_roundtrip(m: IPCMsg, s: Seq<u8>, pos: int, rest: Seq<u8>)
    requires
        0 <= pos <= s.len(),
        s.subrange(pos, s.len() as int) == spec_enc_ipc_msg(m) + rest,
    ensures
        spec_dec_ipc_msg(s, pos) == Some((m, pos + spec_enc_ipc_msg(m).len())),
{
    wire::lemma_enc_at(s, pos, spec_enc_ipc_msg(m), rest);
    wire::lemma_dec_enc_u8(s, pos, 0);
}

/// Relies on rand::random: an arbitrary value of the type; nothing is
/// assumed of which one.
pub assume_specification<T>[ rand::random::<T> ]() -> (r: T)
    where
        rand::distr::StandardUniform: rand::distr::Distribution<T>,
;

/// The initiating side of the port forwarder: holds the writing end of the
/// `PortForwardControl` sub-channel.
pub struct PortForwarder {
    pub control_writer: SubChanWriter,
}

/// What the remote side does on a control message: dial an address and
/// splice it to the named tunnel, or shut a tunnel down.
pub enum ForwardAction {
    Dial { chan_id: u64, addr: String },
    Shutdown { chan_id: u64 },
}

impl PortForwarder {
    /// Registers the `PortForwardControl` sub-channel and returns the
    /// forwarder together with the control reader, which the remote loop
    /// drains.
    pub fn new(chan: &mut TcpChan) -> (r: (PortForwarder, SubChanReader))
        requires
            old(chan).wf(),
            !old(chan).spec_registered(ChannelId::PortForwardControl),
        ensures
            final(chan).wf(),
            r.0.control_writer.chan_id == ChannelId::PortForwardControl,
            r.1.chan_id == ChannelId::PortForwardControl,
            r.1.r_buf@ == old(chan).pending_bytes(ChannelId::PortForwardControl),
            final(chan).spec_registered(ChannelId::PortForwardControl),
            final(chan).chan_frames(ChannelId::PortForwardControl) == Seq::<Seq<u8>>::empty(),
            !final(chan).spec_pending(ChannelId::PortForwardControl),
            final(chan).outbound@ == old(chan).outbound@,
            forall|c: ChannelId|
                c != ChannelId::PortForwardControl ==> frames_in(final(chan).subchans@, c)
                    == #[trigger] frames_in(old(chan).subchans@, c),
            forall|c: ChannelId|
                c != ChannelId::PortForwardControl ==> registered_in(final(chan).subchans@, c)
                    == #[trigger] registered_in(old(chan).subchans@, c),
            forall|c: ChannelId|
                c != ChannelId::PortForwardControl ==> bytes_in(final(chan).pending@, c)
                    == #[trigger] bytes_in(old(chan).pending@, c),
            forall|c: ChannelId|
                c != ChannelId::PortForwardControl ==> pending_in(final(chan).pending@, c)
                    == #[trigger] pending_in(old(chan).pending@, c),
    {
        let (w, rd) = chan.create_subchan(ChannelId::PortForwardControl);
        (PortForwarder { control_writer: w }, rd)
    }

    /// Opens a new tunnel: picks a fresh random identifier, announces
    /// `Connect{chan_id, addr}` on the control sub-channel and registers the
    /// tunnel's own sub-channel. Returns nothing only when the drawn
    /// identifier already names a registered tunnel — impossible while no
    /// tunnel is open — and the caller may simply try again.
    pub fn request_connection(&self, chan: &mut TcpChan, addr: String) -> (r: Option<
        (SubChanWriter, SubChanReader),
    >)
        requires
            old(chan).wf(),
            self.control_writer.chan_id == ChannelId::PortForwardControl,
            addr@.len() <= u32::MAX,
        ensures
            final(chan).wf(),
            match r {
                Some((w, rd)) => {
                    &&& w.chan_id matches ChannelId::PortForwardSub(id)
                    &&& rd.chan_id == w.chan_id
                    &&& (w.chan_id matches ChannelId::PortForwardSub(id) ==> {
                        &&& final(chan).outbound@.len() == old(chan).outbound@.len() + 1
                        &&& final(chan).outbound@.subrange(0, old(chan).outbound@.len() as int)
                            == old(chan).outbound@
                        &&& final(chan).outbound@.last()@.chan_id
                            == ChannelId::PortForwardControl
                        &&& final(chan).outbound@.last()@.data == spec_enc_forward_msg(
                            ForwardMsgView::Connect { chan_id: id, addr: addr@ },
                        )
                        &&& final(chan).spec_registered(ChannelId::PortForwardSub(id))
                    })
                },
                None => {
                    // only an identifier clash refuses: with no tunnel
                    // registered, every drawn identifier succeeds
                    &&& *final(chan) == *old(chan)
                    &&& exists|id: u64|
                        #[trigger] old(chan).spec_registered(ChannelId::PortForwardSub(id))
                },
            },
    {
        let chan_id: u64 = rand::random::<u64>();
        if chan.is_registered(ChannelId::PortForwardSub(chan_id)) {
            proof {
                assert(old(chan).spec_registered(ChannelId::PortForwardSub(chan_id)));
            }
            return None;
        }
        let msg = ForwardMsg::Connect { chan_id, addr };
        let b = encode_forward_msg(&msg);
        let _ = self.control_writer.write(chan, b);
        let (w, rd) = chan.create_subchan(ChannelId::PortForwardSub(chan_id));
        proof {
            assert(chan.outbound@.subrange(0, old(chan).outbound@.len() as int) =~= old(
                chan,
            ).outbound@);
        }
        Some((w, rd))
    }
}

/// The remote side's decision on one arriving control message: `Connect`
/// dials the address for the named tunnel, `Close` shuts the tunnel down.
pub fn handle_forward_msg(msg: ForwardMsg) -> (r: ForwardAction)
    ensures
        match msg@ {
            ForwardMsgView::Connect { chan_id, addr } => r matches ForwardAction::Dial {
                chan_id: c,
                addr: a,
            } && c == chan_id && a@ == addr,
            ForwardMsgView::Close { chan_id } => (r matches ForwardAction::Shutdown { chan_id: c }
                && c == chan_id),
        },
{
    match msg {
        ForwardMsg::Connect { chan_id, addr } => ForwardAction::Dial { chan_id, addr },
        ForwardMsg::Close { chan_id } => ForwardAction::Shutdown { chan_id },
    }
}

} // verus!
