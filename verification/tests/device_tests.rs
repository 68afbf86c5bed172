use artnet_hub::device::OutputDevice;

#[test]
fn full_coverage_flushes_exactly_once() {
    // Three universes: no flush before the last arrival, one flush at it,
    // arrived-set empty afterwards.
    let mut dev = OutputDevice::new(0, 2);
    assert!(!dev.add_universe(0, &vec![1u8; 510]));
    assert_eq!(dev.arrived_count, 1);
    assert_eq!(dev.queue.len(), 0);
    assert!(!dev.add_universe(1, &vec![2u8; 510]));
    assert_eq!(dev.arrived_count, 2);
    assert_eq!(dev.queue.len(), 0);
    assert!(dev.add_universe(2, &vec![3u8; 510]));
    assert_eq!(dev.arrived_count, 0);
    assert_eq!(dev.queue.len(), 3);
}

#[test]
fn payload_lands_at_local_offset() {
    // Device range [10, 12]: universe 11 is local index 1, so its bytes
    // land at offset 510; everything else stays zero.
    let mut dev = OutputDevice::new(10, 12);
    let flushed = dev.add_universe(11, &vec![0xABu8; 20]);
    assert!(!flushed);
    assert_eq!(dev.frame.len(), 3 * 510);
    for i in 0..dev.frame.len() {
        if (510..530).contains(&i) {
            assert_eq!(dev.frame[i], 0xAB);
        } else {
            assert_eq!(dev.frame[i], 0);
        }
    }
}

#[test]
fn oversize_payload_is_clamped_silently() {
    // 600 bytes in: exactly the first 510 are stored and emitted.
    let mut payload: Vec<u8> = Vec::new();
    for i in 0..600usize {
        payload.push((i % 256) as u8);
    }
    let mut dev = OutputDevice::new(0, 0);
    let flushed = dev.add_universe(0, &payload);
    assert!(flushed);
    let p = dev.queue.dequeue().unwrap();
    assert_eq!(p.payload.len(), 510);
    for i in 0..510usize {
        assert_eq!(p.payload[i], (i % 256) as u8);
    }
}

#[test]
fn sequence_skips_zero_and_wraps() {
    // One-universe device: each frame takes one stamp; stamps run
    // 1, 2, ..., 255 and then wrap to 1 without ever passing through 0.
    let mut dev = OutputDevice::new(5, 5);
    let mut seen: Vec<u8> = Vec::new();
    for _ in 0..256 {
        assert!(dev.add_universe(5, &vec![7u8; 510]));
        let p = dev.queue.dequeue().unwrap();
        assert_ne!(p.sequence, 0);
        seen.push(p.sequence);
    }
    for k in 0..255usize {
        assert_eq!(seen[k] as usize, k + 1);
    }
    assert_eq!(seen[255], 1);
}

#[test]
fn next_sequence_steps_and_wraps() {
    let mut dev = OutputDevice::new(0, 0);
    assert_eq!(dev.next_sequence(), 1);
    assert_eq!(dev.next_sequence(), 2);
    dev.sequence = 255;
    assert_eq!(dev.next_sequence(), 1);
}

#[test]
fn flush_emits_universes_in_ascending_order() {
    // Dispatch order equals flush order: the queue hands the packets of a
    // flush out front-first, universes ascending, stamps consecutive.
    let mut dev = OutputDevice::new(0, 3);
    for u in 0..4u16 {
        dev.add_universe(u, &vec![u as u8; 510]);
    }
    assert_eq!(dev.queue.len(), 4);
    for u in 0..4u16 {
        let p = dev.queue.dequeue().unwrap();
        assert_eq!(p.universe, u);
        assert_eq!(p.sequence, (u + 1) as u8);
        assert_eq!(p.payload, vec![u as u8; 510]);
    }
    assert!(dev.queue.dequeue().is_none());
}

#[test]
fn duplicate_universe_overwrites_without_counting() {
    // A duplicate within one frame overwrites the buffer region but does
    // not grow the arrived-set and raises no error.
    let mut dev = OutputDevice::new(0, 1);
    assert!(!dev.add_universe(0, &vec![0xFFu8; 510]));
    assert_eq!(dev.arrived_count, 1);
    assert!(!dev.add_universe(0, &vec![0x02u8; 510]));
    assert_eq!(dev.arrived_count, 1);
    assert!(dev.add_universe(1, &vec![0x01u8; 510]));
    let p0 = dev.queue.dequeue().unwrap();
    assert_eq!(p0.payload, vec![0x02u8; 510]);
}

#[test]
fn unwritten_frame_bytes_keep_previous_value() {
    // Bounded staleness: bytes outside any written range are not zeroed
    // between frames.
    let mut dev = OutputDevice::new(0, 1);
    dev.add_universe(0, &vec![0x55u8; 510]);
    dev.add_universe(1, &vec![0x66u8; 510]);
    // Second frame writes universe 0 with a short payload; the tail of its
    // slot and all of universe 1's slot keep the first frame's bytes.
    dev.add_universe(0, &vec![0x11u8; 10]);
    dev.add_universe(1, &vec![0x66u8; 510]);
    assert_eq!(dev.queue.len(), 4);
    dev.queue.dequeue();
    dev.queue.dequeue();
    let p0 = dev.queue.dequeue().unwrap();
    for i in 0..10usize {
        assert_eq!(p0.payload[i], 0x11);
    }
    for i in 10..510usize {
        assert_eq!(p0.payload[i], 0x55);
    }
}
