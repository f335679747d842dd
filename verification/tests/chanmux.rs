use deskstream::chan::{decode_frame, encode_frame, ChanPacket, ChannelId, TcpChan};

#[test]
fn subchannel_bytes_arrive_in_order_written() {
    // writer side: two writes become two frames on the outbound queue
    let mut tx_chan = TcpChan::new();
    let (w, _r) = tx_chan.create_subchan(ChannelId::Keys);
    w.write(&mut tx_chan, vec![1, 2, 3]);
    w.write(&mut tx_chan, vec![4, 5]);

    // the socket loop drains the queue in order and sends each frame
    let mut wire: Vec<u8> = Vec::new();
    while let Some(f) = tx_chan.pop_outbound() {
        wire.extend_from_slice(&encode_frame(&f));
    }

    // receiver side: parse the stream and dispatch each frame
    let mut rx_chan = TcpChan::new();
    let (_w2, mut r2) = rx_chan.create_subchan(ChannelId::Keys);
    let mut pos = 0usize;
    while pos < wire.len() {
        let (f, p) = decode_frame(&wire, pos).expect("well-formed frame");
        rx_chan.dispatch(f);
        pos = p;
    }

    // bytes read concatenate to exactly the bytes written, in order
    let mut got: Vec<u8> = Vec::new();
    loop {
        let piece = r2.read(&mut rx_chan, 2);
        if piece.is_empty() {
            break;
        }
        got.extend_from_slice(&piece);
    }
    assert_eq!(got, vec![1, 2, 3, 4, 5]);
}

#[test]
fn pending_buffer_survives_late_registration() {
    // frames arrive before the sub-channel is registered
    let mut chan = TcpChan::new();
    chan.dispatch(ChanPacket { chan_id: ChannelId::IPC, data: vec![9] });
    chan.dispatch(ChanPacket { chan_id: ChannelId::IPC, data: vec![8, 7] });
    let (_w, mut r) = chan.create_subchan(ChannelId::IPC);
    // the pending bytes seed the reader in arrival order
    let got = r.read(&mut chan, 10);
    assert_eq!(got, vec![9, 8, 7]);
    assert!(r.read(&mut chan, 10).is_empty());
}

#[test]
fn subchannels_are_independent() {
    let mut chan = TcpChan::new();
    let (_wk, mut rk) = chan.create_subchan(ChannelId::Keys);
    let (_wi, mut ri) = chan.create_subchan(ChannelId::IPC);
    chan.dispatch(ChanPacket { chan_id: ChannelId::Keys, data: vec![1] });
    chan.dispatch(ChanPacket { chan_id: ChannelId::IPC, data: vec![2] });
    chan.dispatch(ChanPacket { chan_id: ChannelId::Keys, data: vec![3] });
    assert_eq!(rk.read(&mut chan, 8), vec![1]);
    assert_eq!(ri.read(&mut chan, 8), vec![2]);
    assert_eq!(rk.read(&mut chan, 8), vec![3]);
    assert!(ri.read(&mut chan, 8).is_empty());
}

#[test]
fn read_respects_frame_boundaries_and_length() {
    let mut chan = TcpChan::new();
    let (w, mut r) = chan.create_subchan(ChannelId::PortForwardSub(5));
    w.write(&mut chan, vec![10, 11, 12, 13]);
    let f = chan.pop_outbound().unwrap();
    chan.dispatch(f);
    // a short read leaves the rest of the frame buffered
    assert_eq!(r.read(&mut chan, 3), vec![10, 11, 12]);
    assert_eq!(r.read(&mut chan, 3), vec![13]);
    assert!(r.read(&mut chan, 3).is_empty());
}

#[test]
fn outbound_queue_is_fifo() {
    let mut chan = TcpChan::new();
    let (wa, _ra) = chan.create_subchan(ChannelId::Keys);
    let (wb, _rb) = chan.create_subchan(ChannelId::IPC);
    wa.write(&mut chan, vec![1]);
    wb.write(&mut chan, vec![2]);
    wa.write(&mut chan, vec![3]);
    let f1 = chan.pop_outbound().unwrap();
    let f2 = chan.pop_outbound().unwrap();
    let f3 = chan.pop_outbound().unwrap();
    assert!(chan.pop_outbound().is_none());
    assert!(matches!(f1.chan_id, ChannelId::Keys));
    assert!(matches!(f2.chan_id, ChannelId::IPC));
    assert!(matches!(f3.chan_id, ChannelId::Keys));
    assert_eq!((f1.data, f2.data, f3.data), (vec![1], vec![2], vec![3]));
}
