use deskstream::chan::{decode_frame, encode_frame, ChannelId, TcpChan};
use deskstream::portforward::{
    decode_forward_msg, handle_forward_msg, ForwardAction, ForwardMsg, PortForwarder,
};
use deskstream::relay::{hello_byte, is_confirmation, Relay, RelayRoute, CONFIRM};

#[test]
fn port_forward_tunnel_end_to_end() {
    // displayer side: a local client connected, so a tunnel is requested
    let mut d_chan = TcpChan::new();
    let (forwarder, _control_rx_local) = PortForwarder::new(&mut d_chan);
    let (tun_w, mut tun_r) = forwarder
        .request_connection(&mut d_chan, "target:22".to_string())
        .expect("fresh identifier");

    // the announcement precedes any tunnel byte on the wire
    let mut wire: Vec<u8> = Vec::new();
    while let Some(f) = d_chan.pop_outbound() {
        wire.extend_from_slice(&encode_frame(&f));
    }
    let (first, _) = decode_frame(&wire, 0).expect("well-formed frame");
    assert!(matches!(first.chan_id, ChannelId::PortForwardControl));
    let (msg, used) = decode_forward_msg(&first.data, 0).expect("well-formed control message");
    assert_eq!(used, first.data.len());
    let tunnel_id = match &msg {
        ForwardMsg::Connect { chan_id, addr } => {
            assert_eq!(addr, "target:22");
            *chan_id
        }
        _ => panic!("expected a connect"),
    };
    assert!(matches!(tun_w.chan_id, ChannelId::PortForwardSub(id) if id == tunnel_id));

    // capturer side: the control message decides to dial the address
    match handle_forward_msg(msg) {
        ForwardAction::Dial { chan_id, addr } => {
            assert_eq!(chan_id, tunnel_id);
            assert_eq!(addr, "target:22");
        }
        _ => panic!("expected a dial"),
    }
    let mut c_chan = TcpChan::new();
    let (c_tun_w, mut c_tun_r) = c_chan.create_subchan(ChannelId::PortForwardSub(tunnel_id));

    // client bytes travel displayer -> capturer byte for byte
    tun_w.write(&mut d_chan, b"ssh hello".to_vec());
    let f = d_chan.pop_outbound().unwrap();
    c_chan.dispatch(f);
    let got = c_tun_r.read(&mut c_chan, 64);
    assert_eq!(got, b"ssh hello".to_vec());

    // and the answer travels back on the same tunnel
    c_tun_w.write(&mut c_chan, b"SSH-2.0".to_vec());
    let f = c_chan.pop_outbound().unwrap();
    d_chan.dispatch(f);
    let got = tun_r.read(&mut d_chan, 64);
    assert_eq!(got, b"SSH-2.0".to_vec());
}

#[test]
fn close_message_decides_shutdown() {
    match handle_forward_msg(ForwardMsg::Close { chan_id: 12 }) {
        ForwardAction::Shutdown { chan_id } => assert_eq!(chan_id, 12),
        _ => panic!("expected a shutdown"),
    }
}

#[test]
fn relay_pairs_and_confirms() {
    let mut relay = Relay::new();
    assert!(!relay.paired());
    // the capturer says hello first
    let both = relay.on_hello(100, hello_byte(true));
    assert!(!both);
    // the displayer completes the pair; confirmations go out now
    let both = relay.on_hello(200, hello_byte(false));
    assert!(both);
    assert!(relay.paired());
    assert!(is_confirmation(CONFIRM));
    assert!(!is_confirmation(0));
}

#[test]
fn relay_routes_between_the_pair() {
    let mut relay = Relay::new();
    relay.on_hello(100, hello_byte(true));
    relay.on_hello(200, hello_byte(false));
    assert!(matches!(relay.route(100), RelayRoute::ToDisplayer));
    assert!(matches!(relay.route(200), RelayRoute::ToCapturer));
    assert!(matches!(relay.route(300), RelayRoute::Unknown));
}

#[test]
fn relay_hello_again_replaces_the_peer() {
    let mut relay = Relay::new();
    relay.on_hello(100, hello_byte(true));
    relay.on_hello(200, hello_byte(false));
    // a fresh hello from a new address takes the slot over
    relay.on_hello(300, hello_byte(false));
    assert!(matches!(relay.route(300), RelayRoute::ToCapturer));
    assert!(matches!(relay.route(200), RelayRoute::Unknown));
}

#[test]
fn relay_gap_statistic() {
    let mut relay = Relay::new();
    assert!(!relay.note_seq(0));
    assert!(!relay.note_seq(1));
    assert!(relay.note_seq(3));
    assert!(!relay.note_seq(4));
}
