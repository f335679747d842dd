//! Rendezvous relay: pairs a capturer with a displayer and decides where
//! every datagram goes.
//!
//! Endpoints announce themselves with a single hello byte; once both are
//! known, each receives a confirmation byte, and from then on every datagram
//! from one peer is forwarded to the other. Peers are identified by opaque
//! tokens the socket loop assigns to their source addresses.

use vstd::prelude::*;

verus! {

/// The hello byte a capture endpoint sends to the relay.
pub const HELLO_CAPTURER: u8 = 0x00;

/// The hello byte a display endpoint sends to the relay.
pub const HELLO_DISPLAYER: u8 = 0x01;

/// The confirmation byte the relay answers with once both peers are known.
pub const CONFIRM: u8 = 0x01;

/// The relay's whole state: the current pair, and a sequence-gap statistic.
/// Nothing outlives the pair.
pub struct Relay {
    /// The capture endpoint's address token, once it has said hello.
    pub capturer: Option<u64>,
    /// The display endpoint's address token, once it has said hello.
    pub displayer: Option<u64>,
    /// The next sequence number the gap statistic expects.
    pub next_seq: i64,
}

/// Where the relay sends one forwarded datagram.
pub enum RelayRoute {
    /// Forward to the capture endpoint.
    ToCapturer,
    /// Forward to the display endpoint.
    ToDisplayer,
    /// The source is neither peer: drop, log only.
    Unknown,
}

impl Relay {
    /// A relay that knows neither peer yet.
    pub fn new() -> (r: Relay)
        ensures
            r.capturer is None,
            r.displayer is None,
            r.next_seq == 0,
    {
        Relay { capturer: None, displayer: None, next_seq: 0 }
    }

    /// Whether the pair is complete and media may flow.
    pub fn paired(&self) -> (r: bool)
        ensures
            r == (self.capturer is Some && self.displayer is Some),
    {
        self.capturer.is_some() && self.displayer.is_some()
    }

    /// Records one hello datagram: byte zero announces the capturer, byte
    /// one the displayer. Returns true when both peers are now known, at
    /// which point the caller sends each the confirmation byte.
    pub fn on_hello(&mut self, from: u64, first_byte: u8) -> (r: bool)
        requires
            first_byte == HELLO_CAPTURER || first_byte == HELLO_DISPLAYER,
        ensures
            first_byte == HELLO_CAPTURER ==> final(self).capturer == Some(from)
                && final(self).displayer == old(self).displayer,
            first_byte == HELLO_DISPLAYER ==> final(self).displayer == Some(from)
                && final(self).capturer == old(self).capturer,
            final(self).next_seq == old(self).next_seq,
            r == (final(self).capturer is Some && final(self).displayer is Some),
    {
        if first_byte == HELLO_CAPTURER {
            self.capturer = Some(from);
        } else {
            self.displayer = Some(from);
        }
        self.capturer.is_some() && self.displayer.is_some()
    }

    /// Decides where a media datagram goes: to the opposite peer, or
    /// nowhere when the source is neither.
    pub fn route(&self, from: u64) -> (r: RelayRoute)
        ensures
            self.displayer == Some(from) ==> r is ToCapturer,
            self.displayer != Some(from) && self.capturer == Some(from) ==> r is ToDisplayer,
            self.displayer != Some(from) && self.capturer != Some(from) ==> r is Unknown,
    {
        match self.displayer {
            Some(d) if d == from => {
                return RelayRoute::ToCapturer;
            },
            _ => {},
        }
        match self.capturer {
            Some(c) if c == from => RelayRoute::ToDisplayer,
            _ => RelayRoute::Unknown,
        }
    }

    /// Tracks the gap statistic over the sequence numbers that pass the
    /// relay: returns true when this one is not the expected next, which
    /// the caller logs; the next expectation follows the observed number.
    pub fn note_seq(&mut self, seq_no: i64) -> (r: bool)
        requires
            seq_no < i64::MAX,
        ensures
            r == (seq_no != old(self).next_seq),
            final(self).next_seq == seq_no + 1,
            final(self).capturer == old(self).capturer,
            final(self).displayer == old(self).displayer,
    {
        let gap = seq_no != self.next_seq;
        self.next_seq = seq_no + 1;
        gap
    }
}

/// The hello byte an endpoint sends the relay when it starts.
pub fn hello_byte(is_capturer: bool) -> (r: u8)
    ensures
        is_capturer ==> r == HELLO_CAPTURER,
        !is_capturer ==> r == HELLO_DISPLAYER,
{
    if is_capturer {
        HELLO_CAPTURER
    } else {
        HELLO_DISPLAYER
    }
}

/// Whether a datagram from the relay confirms the pairing.
pub fn is_confirmation(first_byte: u8) -> (r: bool)
    ensures
        r == (first_byte == CONFIRM),
{
    first_byte == CONFIRM
}

} // verus!
