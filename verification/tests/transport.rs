use deskstream::msgs::{decode_rtmsg, encode_rtmsg, RTMsg};
use deskstream::packetize::packetize;
use deskstream::udp_recv::UdpReceiver;
use deskstream::udp_send::UdpStream;
use deskstream::{FRAME_DURATION_MICROS, HISTORY_WINDOW_MICROS};

fn deliver(rx: &mut UdpReceiver, seq: i64, now: u64) -> (Vec<i64>, Vec<i64>) {
    let msg = RTMsg { seq, is_audio: false, data: vec![seq as u8] };
    let (out, nacks) = rx.recv(msg, now);
    (out.iter().map(|m| m.seq).collect(), nacks)
}

#[test]
fn first_packet_has_seq_zero() {
    let mut tx = UdpStream::new();
    assert_eq!(tx.cur_seq, 0);
    let bytes = tx.send_packet(vec![1, 2, 3], false, 0);
    let sent = decode_rtmsg(&bytes).expect("sender emits well-formed datagrams");
    assert_eq!(sent.seq, 0);
    assert_eq!(tx.cur_seq, 1);
    let rx = UdpReceiver::new();
    assert_eq!(rx.next_seq, 0);
}

#[test]
fn sequence_space_is_shared_across_audio_and_video() {
    let mut tx = UdpStream::new();
    let v = decode_rtmsg(&tx.send_packet(vec![1], false, 0)).unwrap();
    let a = decode_rtmsg(&tx.send_packet(vec![2], true, 0)).unwrap();
    let v2 = decode_rtmsg(&tx.send_packet(vec![3], false, 0)).unwrap();
    assert_eq!((v.seq, a.seq, v2.seq), (0, 1, 2));
    assert!(a.is_audio && !v.is_audio);
}

#[test]
fn history_eviction_exactly_at_window() {
    let mut tx = UdpStream::new();
    let first = tx.send_packet(vec![10], false, 0);
    // one microsecond before the window: the entry must still be there
    tx.send_packet(vec![11], false, HISTORY_WINDOW_MICROS - 1);
    let kept = tx.process_nack(0).expect("younger than the window");
    assert_eq!(kept, first);
    // exactly at the window: the entry must be gone
    tx.send_packet(vec![12], false, HISTORY_WINDOW_MICROS);
    assert!(tx.process_nack(0).is_none());
    // the later entries survive
    assert!(tx.process_nack(1).is_some());
    assert!(tx.process_nack(2).is_some());
}

#[test]
fn nack_within_window_retransmits_verbatim() {
    let mut tx = UdpStream::new();
    let sent = tx.send_packet(vec![1, 2, 3], false, 1000);
    let replay = tx.process_nack(0).expect("still in history");
    assert_eq!(replay, sent);
}

#[test]
fn nack_for_evicted_packet_yields_nothing() {
    // seq 5 sent at t=0; at t=1.2s the history has evicted it
    let mut tx = UdpStream::new();
    for i in 0..6 {
        tx.send_packet(vec![i as u8], false, 0);
    }
    tx.send_packet(vec![99], false, 1_200_000);
    assert!(tx.process_nack(5).is_none());
}

#[test]
fn packetizer_splits_and_preserves_bytes() {
    let data: Vec<u8> = (0..3000u32).map(|i| (i % 251) as u8).collect();
    let chunks = packetize(&data);
    assert_eq!(chunks.len(), 3);
    assert_eq!(chunks[0].len(), 1400);
    assert_eq!(chunks[1].len(), 1400);
    assert_eq!(chunks[2].len(), 200);
    let glued: Vec<u8> = chunks.concat();
    assert_eq!(glued, data);
}

#[test]
fn packet_of_exactly_1400_bytes_is_one_chunk() {
    let data = vec![7u8; 1400];
    let chunks = packetize(&data);
    assert_eq!(chunks.len(), 1);
    assert_eq!(chunks[0], data);
    let empty = packetize(&vec![]);
    assert!(empty.is_empty());
}

#[test]
fn in_order_stream() {
    // sender emits 0,1,2,3; receiver sees them in order
    let mut rx = UdpReceiver::new();
    let mut all: Vec<i64> = Vec::new();
    for seq in 0..4 {
        let (out, nacks) = deliver(&mut rx, seq, 10 * seq as u64);
        assert!(nacks.is_empty());
        all.extend(out);
    }
    assert_eq!(all, vec![0, 1, 2, 3]);
    assert!(rx.rearrange_buf.is_empty());
}

#[test]
fn single_packet_loss_and_recovery() {
    // receiver observes 0,2,3; NACK for 1 on seq 2; replay completes it
    let mut rx = UdpReceiver::new();
    let (out, nacks) = deliver(&mut rx, 0, 0);
    assert_eq!(out, vec![0]);
    assert!(nacks.is_empty());

    let (out, nacks) = deliver(&mut rx, 2, 10);
    assert!(out.is_empty());
    assert_eq!(nacks, vec![1]);
    assert_eq!(rx.rearrange_buf.len(), 1);

    // seq 3 is also ahead: the receiver asks again from the high-water
    // mark, which sits at the still-missing 2's slot
    let (out, nacks) = deliver(&mut rx, 3, 20);
    assert!(out.is_empty());
    assert_eq!(nacks, vec![2]);
    assert_eq!(rx.rearrange_buf.len(), 2);

    // the sender replays seq 1
    let (out, nacks) = deliver(&mut rx, 1, 30);
    assert_eq!(out, vec![1, 2, 3]);
    assert!(nacks.is_empty());
    assert!(rx.rearrange_buf.is_empty());
}

#[test]
fn out_of_order_without_loss() {
    // receiver observes 0,2,1,3: one NACK for 1, no duplicate
    let mut rx = UdpReceiver::new();
    let (out, _) = deliver(&mut rx, 0, 0);
    assert_eq!(out, vec![0]);

    let (out, nacks) = deliver(&mut rx, 2, 10);
    assert!(out.is_empty());
    assert_eq!(nacks, vec![1]);
    assert_eq!(rx.nacked_seq, 2);

    let (out, nacks) = deliver(&mut rx, 1, 20);
    assert_eq!(out, vec![1, 2]);
    assert!(nacks.is_empty());

    let (out, nacks) = deliver(&mut rx, 3, 30);
    assert_eq!(out, vec![3]);
    assert!(nacks.is_empty());
}

#[test]
fn prolonged_loss_escape() {
    // delivered through seq 10 at t=0; seq 200 arrives at t=900ms, past the
    // stall threshold of 50 frame durations: resynchronize on 200
    let mut rx = UdpReceiver::new();
    let mut all: Vec<i64> = Vec::new();
    for seq in 0..11 {
        let (out, _) = deliver(&mut rx, seq, 0);
        all.extend(out);
    }
    assert_eq!(all.len(), 11);
    assert_eq!(rx.next_seq, 11);

    assert!(900_000 > 50 * FRAME_DURATION_MICROS);
    let (out, nacks) = deliver(&mut rx, 200, 900_000);
    assert_eq!(out, vec![200]);
    assert!(nacks.is_empty());
    assert_eq!(rx.next_seq, 201);
}

#[test]
fn gap_below_escape_threshold_still_nacks() {
    // the same gap below the threshold is treated as ordinary loss
    let mut rx = UdpReceiver::new();
    let (out, _) = deliver(&mut rx, 0, 0);
    assert_eq!(out, vec![0]);
    let (out, nacks) = deliver(&mut rx, 4, 800_000);
    assert!(out.is_empty());
    assert_eq!(nacks, vec![1, 2, 3]);
}

#[test]
fn stale_packet_is_dropped() {
    let mut rx = UdpReceiver::new();
    for seq in 0..3 {
        deliver(&mut rx, seq, 0);
    }
    let (out, nacks) = deliver(&mut rx, 1, 10);
    assert!(out.is_empty());
    assert!(nacks.is_empty());
    assert_eq!(rx.next_seq, 3);
    assert!(rx.rearrange_buf.is_empty());
}

#[test]
fn sender_to_receiver_end_to_end() {
    // packetize an encoded unit, send each chunk, decode and reassemble
    let unit: Vec<u8> = (0..2900u32).map(|i| (i % 256) as u8).collect();
    let mut tx = UdpStream::new();
    let mut rx = UdpReceiver::new();
    let mut received: Vec<u8> = Vec::new();
    for chunk in packetize(&unit) {
        let datagram = tx.send_packet(chunk, false, 0);
        let msg = decode_rtmsg(&datagram).expect("well-formed datagram");
        let (out, nacks) = rx.recv(msg, 0);
        assert!(nacks.is_empty());
        for m in out {
            received.extend_from_slice(&m.data);
        }
    }
    assert_eq!(received, unit);
}

#[test]
fn retransmitted_datagram_equals_original() {
    let mut tx = UdpStream::new();
    let original = tx.send_packet(vec![4, 5, 6], true, 100);
    let m1 = decode_rtmsg(&original).unwrap();
    let replay = tx.process_nack(m1.seq).expect("within the window");
    let m2 = decode_rtmsg(&replay).unwrap();
    assert_eq!(m1.seq, m2.seq);
    assert_eq!(m1.is_audio, m2.is_audio);
    assert_eq!(m1.data, m2.data);
    assert_eq!(original, replay);
}

#[test]
fn stall_escape_needs_strictly_more_than_threshold() {
    // at exactly the threshold the gap is still ordinary loss
    let mut rx = UdpReceiver::new();
    let (out, _) = deliver(&mut rx, 0, 0);
    assert_eq!(out, vec![0]);
    let threshold = 50 * FRAME_DURATION_MICROS;
    let (out, nacks) = deliver(&mut rx, 5, threshold);
    assert!(out.is_empty());
    assert_eq!(nacks, vec![1, 2, 3, 4]);
    // one microsecond past it, with a gap wider than one: resynchronize
    let (out, nacks) = deliver(&mut rx, 9, threshold + 1);
    assert_eq!(out, vec![9]);
    assert!(nacks.is_empty());
}

#[test]
fn loss_recovery_over_the_wire() {
    // the whole loss round trip in datagram bytes: send four, lose one,
    // NACK it, replay it, deliver all four in order
    let mut tx = UdpStream::new();
    let mut rx = UdpReceiver::new();
    let mut wire: Vec<Vec<u8>> = Vec::new();
    for k in 0..4u8 {
        wire.push(tx.send_packet(vec![k], false, 0));
    }
    wire.remove(1); // seq 1 is lost

    let mut delivered: Vec<i64> = Vec::new();
    let mut nack_wire: Vec<Vec<u8>> = Vec::new();
    for datagram in wire {
        let msg = decode_rtmsg(&datagram).expect("well-formed datagram");
        let (out, nacks) = rx.recv(msg, 0);
        delivered.extend(out.iter().map(|m| m.seq));
        for seq in nacks {
            nack_wire.push(deskstream::msgs::encode_nack(seq));
        }
    }
    assert_eq!(delivered, vec![0]);

    // the sender sees each NACK datagram and replays from its history
    for nack in nack_wire {
        let req = decode_rtmsg(&nack).expect("a NACK is a well-formed packet");
        assert!(req.data.is_empty());
        if let Some(replay) = tx.process_nack(req.seq) {
            let msg = decode_rtmsg(&replay).expect("well-formed datagram");
            let (out, _) = rx.recv(msg, 0);
            delivered.extend(out.iter().map(|m| m.seq));
        }
    }
    assert_eq!(delivered, vec![0, 1, 2, 3]);
}
