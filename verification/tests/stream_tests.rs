use qft::packet::{u16_from_be, SafeReadWritePacket};
use qft::stream::{IdleAction, SafeReadWrite};
use qft::{BROKEN_DELAY, ID_WRAP, LOST_DELAY};

#[test]
fn single_chunk_then_end() {
    let mut sender = SafeReadWrite::new();
    let mut receiver = SafeReadWrite::new();

    let (pkt, idn, wait) = sender.write_safe(&[0x00, 0x01, 0x02]);
    assert_eq!(idn, 0);
    assert!(!wait);
    assert_eq!(pkt, vec![0, 0, 0, 0x00, 0x01, 0x02]);

    let step = receiver.read_safe(&pkt);
    assert_eq!(step.delivered, Some(vec![0x00, 0x01, 0x02]));
    assert!(!step.eof);
    let ack = step.reply.expect("in-order packet must be acknowledged");
    assert_eq!(ack, vec![0, 0, 1]);
    assert_eq!(receiver.packet_count_in, 1);

    assert!(sender.on_ack(u16_from_be(ack[0], ack[1])));

    let (end_pkt, end_id, end_wait) = sender.end();
    assert_eq!(end_id, 1);
    assert!(end_wait);
    assert_eq!(end_pkt, vec![0, 1, 3]);

    let step = receiver.read_safe(&end_pkt);
    assert!(step.eof);
    assert_eq!(step.delivered, Some(vec![]));
    assert_eq!(receiver.packet_count_in, 2);
}

#[test]
fn chunk_boundaries_survive_in_order() {
    let chunks: Vec<Vec<u8>> = vec![vec![1, 2], vec![3], vec![4, 5, 6], vec![]];
    let mut sender = SafeReadWrite::new();
    let mut receiver = SafeReadWrite::new();
    let mut delivered: Vec<Vec<u8>> = Vec::new();
    for c in &chunks {
        let (pkt, idn, _) = sender.write_safe(c);
        let step = receiver.read_safe(&pkt);
        delivered.push(step.delivered.expect("in-order chunk must be delivered"));
        assert!(sender.on_ack(idn));
    }
    assert_eq!(delivered, chunks);
    let flat: Vec<u8> = delivered.into_iter().flatten().collect();
    assert_eq!(flat, vec![1, 2, 3, 4, 5, 6]);
}

#[test]
fn in_seq_advances_once_per_delivery_and_never_back() {
    let mut sender = SafeReadWrite::new();
    let mut receiver = SafeReadWrite::new();
    let (p0, _, _) = sender.write_safe(&[1]);
    let (p1, _, _) = sender.write_safe(&[2]);
    assert_eq!(receiver.packet_count_in, 0);
    let step = receiver.read_safe(&p1);
    assert!(step.delivered.is_none());
    assert_eq!(receiver.packet_count_in, 0);
    let step = receiver.read_safe(&p0);
    assert!(step.delivered.is_some());
    assert_eq!(receiver.packet_count_in, 1);
    let step = receiver.read_safe(&p0);
    assert!(step.delivered.is_none());
    assert_eq!(receiver.packet_count_in, 1);
    let step = receiver.read_safe(&p1);
    assert!(step.delivered.is_some());
    assert_eq!(receiver.packet_count_in, 2);
}

#[test]
fn ack_of_latest_empties_retransmit_map() {
    let mut sender = SafeReadWrite::new();
    let (_, _, _) = sender.write_safe(&[1]);
    let (_, _, _) = sender.write_safe(&[2]);
    let (_, idn, _) = sender.write_safe(&[3]);
    assert!(sender.on_ack(idn));
    let resends = sender.on_resend_request(0, false);
    assert!(resends.is_empty());
}

#[test]
fn ack_of_older_id_keeps_the_rest() {
    let mut sender = SafeReadWrite::new();
    let (p0, _, _) = sender.write_safe(&[1]);
    let (p1, _, _) = sender.write_safe(&[2]);
    assert!(!sender.on_ack(0));
    let resends = sender.on_resend_request(0, false);
    assert_eq!(resends, Vec::<Vec<u8>>::new());
    let resends = sender.on_resend_request(1, false);
    assert_eq!(resends, vec![p1.clone()]);
    drop(p0);
}

#[test]
fn resend_request_returns_run_in_order() {
    let mut sender = SafeReadWrite::new();
    let (p0, _, _) = sender.write_safe(&[1]);
    let (p1, _, _) = sender.write_safe(&[2]);
    let (p2, _, _) = sender.write_safe(&[3]);
    let resends = sender.on_resend_request(0, false);
    assert_eq!(resends, vec![p0, p1, p2]);
}

#[test]
fn resend_request_during_catch_up_is_quiet() {
    let mut sender = SafeReadWrite::new();
    let (_, _, _) = sender.write_safe(&[1]);
    let resends = sender.on_resend_request(0, true);
    assert!(resends.is_empty());
}

#[test]
fn receiver_asks_resend_on_forward_gap_only() {
    let mut receiver = SafeReadWrite::new();
    let future = qft::packet::frame_packet(7, SafeReadWritePacket::Write, &[1]);
    let step = receiver.read_safe(&future);
    assert!(step.delivered.is_none());
    assert_eq!(step.reply, Some(vec![0, 0, 2]));

    let stale = qft::packet::frame_packet(0xC000, SafeReadWritePacket::Write, &[1]);
    let step = receiver.read_safe(&stale);
    assert!(step.delivered.is_none());
    assert!(step.reply.is_none());

    let runt = vec![0, 0];
    let step = receiver.read_safe(&runt);
    assert!(step.delivered.is_none());
    assert!(step.reply.is_none());
    assert!(!step.eof);
}

#[test]
fn duplicate_is_re_acknowledged() {
    let mut sender = SafeReadWrite::new();
    let mut receiver = SafeReadWrite::new();
    let (p0, _, _) = sender.write_safe(&[9]);
    let first = receiver.read_safe(&p0);
    assert!(first.delivered.is_some());
    let dup = receiver.read_safe(&p0);
    assert!(dup.delivered.is_none());
    assert_eq!(dup.reply, Some(vec![0, 0, 1]));
}

#[test]
fn idle_decisions_follow_the_timers() {
    let mut sender = SafeReadWrite::new();
    let (pkt, idn, _) = sender.write_safe(&[1]);
    let start = 1_000_000;
    assert!(matches!(sender.idle_step(false, false, start, start), IdleAction::Proceed));
    assert!(matches!(sender.idle_step(true, false, start, start), IdleAction::KeepWaiting));
    assert!(matches!(
        sender.idle_step(true, true, start + LOST_DELAY + 1, start),
        IdleAction::GiveUp
    ));
    match sender.idle_step(true, false, start + BROKEN_DELAY + 1, start) {
        IdleAction::Retransmit(p) => assert_eq!(p, pkt),
        _ => panic!("broken connection must retransmit the latest packet"),
    }
    assert!(sender.on_ack(idn));
    assert!(matches!(
        sender.idle_step(true, false, start + BROKEN_DELAY + 1, start),
        IdleAction::Done
    ));
}

#[test]
fn wrap_of_the_id_space_completes() {
    let mut sender = SafeReadWrite::new();
    let mut receiver = SafeReadWrite::new();
    let total: u64 = 65537;
    for k in 0..total {
        let (pkt, idn, wait) = sender.write_safe(&[7]);
        assert_eq!(idn, (k % 65536) as u16);
        if idn == ID_WRAP {
            assert!(wait, "the sender must pause at the wrap boundary");
        }
        let step = receiver.read_safe(&pkt);
        assert_eq!(step.delivered, Some(vec![7]));
        let ack = step.reply.expect("in-order packet must be acknowledged");
        assert!(sender.on_ack(u16_from_be(ack[0], ack[1])));
    }
    assert_eq!(sender.packet_count_out, total);
    assert_eq!(receiver.packet_count_in, total);
}

#[test]
fn lost_packet_recovers_through_resend() {
    let mut sender = SafeReadWrite::new();
    let mut receiver = SafeReadWrite::new();
    let (p0, _, _) = sender.write_safe(&[1]);
    let (p1, _, _) = sender.write_safe(&[2]);
    let (p2, _, _) = sender.write_safe(&[3]);

    // p0 is lost; the receiver sees p1 first and asks to resend from 0.
    let step = receiver.read_safe(&p1);
    assert!(step.delivered.is_none());
    let req = step.reply.expect("forward gap must request a resend");
    assert_eq!(req[2], 2);
    let n = u16_from_be(req[0], req[1]);
    assert_eq!(n, 0);

    let resends = sender.on_resend_request(n, false);
    assert_eq!(resends, vec![p0, p1.clone(), p2.clone()]);
    let mut delivered: Vec<Vec<u8>> = Vec::new();
    for pkt in &resends {
        let step = receiver.read_safe(pkt);
        if let Some(p) = step.delivered {
            delivered.push(p);
        }
    }
    assert_eq!(delivered, vec![vec![1], vec![2], vec![3]]);
    assert_eq!(receiver.packet_count_in, 3);

    // Further requests inside the same catch-up episode stay quiet.
    let resends = sender.on_resend_request(n, true);
    assert!(resends.is_empty());
}

#[test]
fn many_unacknowledged_packets_force_waiting() {
    let mut sender = SafeReadWrite::new();
    let mut last_wait = true;
    for _ in 0..256 {
        let (_, _, wait) = sender.write_safe(&[1]);
        last_wait = wait;
    }
    assert_eq!(sender.in_flight(), 256);
    assert!(last_wait, "the 256th packet in flight must make the sender wait");
    let mut fresh = SafeReadWrite::new();
    let (_, _, wait) = fresh.write_safe(&[1]);
    assert!(!wait, "a single packet in flight does not make the sender wait");
}

#[test]
fn zero_length_stream_ends_immediately() {
    // A zero-byte transfer is one length header of zero and the end packet.
    let mut sender = SafeReadWrite::new();
    let mut receiver = SafeReadWrite::new();
    let len_bytes = qft::packet::u64_to_be_bytes(0);
    let (pkt, idn, _) = sender.write_safe(&len_bytes);
    let step = receiver.read_safe(&pkt);
    let header = step.delivered.expect("length header must be delivered");
    assert_eq!(qft::packet::u64_from_be_bytes(&header), 0);
    assert!(sender.on_ack(idn));
    let (end_pkt, _, _) = sender.end();
    let step = receiver.read_safe(&end_pkt);
    assert!(step.eof);
}
