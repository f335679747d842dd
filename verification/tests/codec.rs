use deskstream::chan::{decode_frame, encode_frame, ChanPacket, ChannelId};
use deskstream::input::{decode_key_event, encode_key_event, KeyEvent, PadAxis, PadButton};
use deskstream::msgs::{decode_rtmsg, encode_rtmsg, MediaKind, RTMsg};
use deskstream::portforward::{
    decode_forward_msg, decode_ipc_msg, encode_forward_msg, encode_ipc_msg, ForwardMsg, IPCMsg,
};

fn rt(seq: i64, is_audio: bool, data: Vec<u8>) -> RTMsg {
    RTMsg { seq, is_audio, data }
}

#[test]
fn media_packet_roundtrip() {
    let m = rt(42, false, vec![1, 2, 3, 250, 0, 7]);
    let bytes = encode_rtmsg(&m);
    let back = decode_rtmsg(&bytes).expect("well-formed encoding");
    assert_eq!(back.seq, 42);
    assert!(!back.is_audio);
    assert_eq!(back.data, vec![1, 2, 3, 250, 0, 7]);
}

#[test]
fn media_packet_roundtrip_audio_negative_seq() {
    let m = rt(-9_000_000_000, true, vec![0xff; 57]);
    let back = decode_rtmsg(&encode_rtmsg(&m)).expect("well-formed encoding");
    assert_eq!(back.seq, -9_000_000_000);
    assert!(back.is_audio);
    assert_eq!(back.data.len(), 57);
}

#[test]
fn nack_empty_payload_roundtrips() {
    let m = rt(7, false, vec![]);
    let bytes = encode_rtmsg(&m);
    let back = decode_rtmsg(&bytes).expect("a NACK is a well-formed packet");
    assert_eq!(back.seq, 7);
    assert!(!back.is_audio);
    assert!(back.data.is_empty());
    assert!(back.data.len() == 0);
}

#[test]
fn full_payload_is_one_datagram() {
    let m = rt(0, false, vec![0xab; 1400]);
    let bytes = encode_rtmsg(&m);
    // fixed overhead of the wire format over the payload
    assert_eq!(bytes.len(), 1415);
    let back = decode_rtmsg(&bytes).expect("well-formed encoding");
    assert_eq!(back.data.len(), 1400);
    assert_eq!(back.data, vec![0xab; 1400]);
}

#[test]
fn truncated_media_packet_is_refused() {
    let m = rt(3, true, vec![9, 9, 9]);
    let mut bytes = encode_rtmsg(&m);
    bytes.pop();
    assert!(decode_rtmsg(&bytes).is_none());
}

#[test]
fn trailing_garbage_is_refused() {
    let m = rt(3, true, vec![9, 9, 9]);
    let mut bytes = encode_rtmsg(&m);
    bytes.push(0);
    assert!(decode_rtmsg(&bytes).is_none());
}

#[test]
fn empty_datagram_is_refused() {
    assert!(decode_rtmsg(&vec![]).is_none());
}

#[test]
fn control_frame_roundtrip() {
    let f = ChanPacket { chan_id: ChannelId::Keys, data: vec![5, 6, 7] };
    let bytes = encode_frame(&f);
    let (back, used) = decode_frame(&bytes, 0).expect("well-formed frame");
    assert_eq!(used, bytes.len());
    assert!(matches!(back.chan_id, ChannelId::Keys));
    assert_eq!(back.data, vec![5, 6, 7]);
}

#[test]
fn control_frame_stream_decodes_in_order() {
    let f1 = ChanPacket { chan_id: ChannelId::PortForwardSub(0xdead_beef_0102_0304), data: vec![1] };
    let f2 = ChanPacket { chan_id: ChannelId::IPC, data: vec![] };
    let mut stream = encode_frame(&f1);
    stream.extend_from_slice(&encode_frame(&f2));
    let (b1, p1) = decode_frame(&stream, 0).expect("first frame");
    assert!(matches!(b1.chan_id, ChannelId::PortForwardSub(0xdead_beef_0102_0304)));
    assert_eq!(b1.data, vec![1]);
    let (b2, p2) = decode_frame(&stream, p1).expect("second frame");
    assert!(matches!(b2.chan_id, ChannelId::IPC));
    assert!(b2.data.is_empty());
    assert_eq!(p2, stream.len());
}

#[test]
fn control_frame_unknown_tag_is_refused() {
    let f = ChanPacket { chan_id: ChannelId::PortForwardControl, data: vec![] };
    let mut bytes = encode_frame(&f);
    // corrupt the channel tag
    bytes[1] = 200;
    assert!(decode_frame(&bytes, 0).is_none());
}

#[test]
fn key_event_roundtrip_all_variants() {
    let events = vec![
        KeyEvent::Key { letter: 'q', state: true },
        KeyEvent::Key { letter: '\u{10FFFF}', state: false },
        KeyEvent::Mouse { x_bits: (-3.5f64).to_bits(), y_bits: (0.25f64).to_bits() },
        KeyEvent::Click { button: 2, state: true },
        KeyEvent::GamepadButton { button: PadButton::LeftTrigger2, state: 255 },
        KeyEvent::GamepadAxis { axis: PadAxis::RightStickY, value_bits: (-1.0f32).to_bits() },
    ];
    let mut stream: Vec<u8> = Vec::new();
    for e in &events {
        stream.extend_from_slice(&encode_key_event(e));
    }
    let mut pos = 0usize;
    let mut back: Vec<KeyEvent> = Vec::new();
    while pos < stream.len() {
        let (e, p) = decode_key_event(&stream, pos).expect("well-formed event");
        back.push(e);
        pos = p;
    }
    assert_eq!(back, events);
    // the mouse deltas decode to the exact floating-point values
    match back[2] {
        KeyEvent::Mouse { x_bits, y_bits } => {
            assert_eq!(f64::from_bits(x_bits), -3.5);
            assert_eq!(f64::from_bits(y_bits), 0.25);
        }
        _ => panic!("expected a mouse event"),
    }
}

#[test]
fn key_event_surrogate_scalar_is_refused() {
    let e = KeyEvent::Key { letter: 'a', state: true };
    let mut bytes = encode_key_event(&e);
    // overwrite the encoded scalar with a surrogate value
    let bad: u64 = 0xD800;
    bytes[3..11].copy_from_slice(&bad.to_le_bytes());
    assert!(decode_key_event(&bytes, 0).is_none());
}

#[test]
fn forward_msg_roundtrip() {
    let m = ForwardMsg::Connect { chan_id: 77, addr: "target:22".to_string() };
    let bytes = encode_forward_msg(&m);
    let (back, used) = decode_forward_msg(&bytes, 0).expect("well-formed message");
    assert_eq!(used, bytes.len());
    match back {
        ForwardMsg::Connect { chan_id, addr } => {
            assert_eq!(chan_id, 77);
            assert_eq!(addr, "target:22");
        }
        _ => panic!("expected a connect"),
    }

    let c = ForwardMsg::Close { chan_id: 77 };
    let bytes = encode_forward_msg(&c);
    let (back, _) = decode_forward_msg(&bytes, 0).expect("well-formed message");
    assert!(matches!(back, ForwardMsg::Close { chan_id: 77 }));
}

#[test]
fn forward_msg_empty_and_unicode_addr() {
    for addr in ["", "h\u{00f6}st:1", "\u{1F600}:9"] {
        let m = ForwardMsg::Connect { chan_id: 1, addr: addr.to_string() };
        let (back, _) = decode_forward_msg(&encode_forward_msg(&m), 0).expect("round trip");
        match back {
            ForwardMsg::Connect { addr: a, .. } => assert_eq!(a, addr),
            _ => panic!("expected a connect"),
        }
    }
}

#[test]
fn ipc_msg_roundtrip() {
    let bytes = encode_ipc_msg(&IPCMsg::StartUSBIP);
    let (back, used) = decode_ipc_msg(&bytes, 0).expect("well-formed message");
    assert_eq!(used, bytes.len());
    assert!(matches!(back, IPCMsg::StartUSBIP));
}

#[test]
fn media_classification() {
    let nack = RTMsg { seq: 1, is_audio: false, data: vec![] };
    let audio = RTMsg { seq: 2, is_audio: true, data: vec![1] };
    let video = RTMsg { seq: 3, is_audio: false, data: vec![1] };
    // an empty audio-flagged packet is still a NACK, never a frame
    let odd = RTMsg { seq: 4, is_audio: true, data: vec![] };
    assert!(matches!(nack.classify(), MediaKind::Nack));
    assert!(matches!(audio.classify(), MediaKind::Audio));
    assert!(matches!(video.classify(), MediaKind::Video));
    assert!(matches!(odd.classify(), MediaKind::Nack));
}
