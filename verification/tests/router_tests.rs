use artnet_hub::mapper::{DeviceMapping, UniverseMapper};
use artnet_hub::router::{IngestResult, Router};

#[test]
fn two_universe_scenario_emits_two_packets() {
    // One device, input range [0, 1], offset 0: universe 0 with 510 bytes
    // of 0xFF, then universe 1 with 510 bytes of 0x01, give exactly two
    // packets — (0, seq 1, all 0xFF) then (1, seq 2, all 0x01) — and an
    // empty arrived-set.
    let mut router = Router::new(vec![DeviceMapping { lo: 0, hi: 1 }]);
    assert_eq!(router.ingest(0, &vec![0xFFu8; 510]), IngestResult::Stored);
    assert_eq!(router.ingest(1, &vec![0x01u8; 510]), IngestResult::Flushed);
    let dev = &mut router.devices[0];
    assert_eq!(dev.arrived_count, 0);
    assert_eq!(dev.queue.len(), 2);
    let p0 = dev.queue.dequeue().unwrap();
    assert_eq!(p0.universe, 0);
    assert_eq!(p0.sequence, 1);
    assert_eq!(p0.payload, vec![0xFFu8; 510]);
    let p1 = dev.queue.dequeue().unwrap();
    assert_eq!(p1.universe, 1);
    assert_eq!(p1.sequence, 2);
    assert_eq!(p1.payload, vec![0x01u8; 510]);
    assert!(dev.queue.dequeue().is_none());
}

#[test]
fn duplicate_before_completion_keeps_latest_payload() {
    // Universe 0 delivered twice (second all 0x02) before universe 1: no
    // flush on the duplicate, and the flushed universe-0 packet carries
    // 0x02, not 0xFF.
    let mut router = Router::new(vec![DeviceMapping { lo: 0, hi: 1 }]);
    assert_eq!(router.ingest(0, &vec![0xFFu8; 510]), IngestResult::Stored);
    assert_eq!(router.devices[0].arrived_count, 1);
    assert_eq!(router.ingest(0, &vec![0x02u8; 510]), IngestResult::Stored);
    assert_eq!(router.devices[0].arrived_count, 1);
    assert_eq!(router.ingest(1, &vec![0x01u8; 510]), IngestResult::Flushed);
    let dev = &mut router.devices[0];
    let p0 = dev.queue.dequeue().unwrap();
    assert_eq!(p0.universe, 0);
    assert_eq!(p0.payload, vec![0x02u8; 510]);
}

#[test]
fn unmapped_universe_changes_nothing() {
    // A universe outside every configured range is dropped and leaves all
    // aggregator states unchanged.
    let mut router = Router::new(vec![
        DeviceMapping { lo: 10, hi: 11 },
        DeviceMapping { lo: 20, hi: 23 },
    ]);
    assert_eq!(router.ingest(10, &vec![9u8; 510]), IngestResult::Stored);
    assert_eq!(router.ingest(5, &vec![1u8; 510]), IngestResult::Unmapped);
    assert_eq!(router.ingest(12, &vec![1u8; 510]), IngestResult::Unmapped);
    assert_eq!(router.devices[0].arrived_count, 1);
    assert_eq!(router.devices[0].queue.len(), 0);
    assert_eq!(router.devices[1].arrived_count, 0);
    assert_eq!(router.devices[1].queue.len(), 0);
}

#[test]
fn overlapping_ranges_resolve_to_later_device() {
    // Overlap is not validated: the device configured later wins.
    let mapper = UniverseMapper::new(vec![
        DeviceMapping { lo: 0, hi: 5 },
        DeviceMapping { lo: 3, hi: 8 },
    ]);
    assert_eq!(mapper.lookup(0), Some(0));
    assert_eq!(mapper.lookup(2), Some(0));
    assert_eq!(mapper.lookup(3), Some(1));
    assert_eq!(mapper.lookup(5), Some(1));
    assert_eq!(mapper.lookup(8), Some(1));
    assert_eq!(mapper.lookup(9), None);
    assert_eq!(mapper.lookup(65535), None);
}

#[test]
fn routing_demultiplexes_to_the_right_device() {
    let mut router = Router::new(vec![
        DeviceMapping { lo: 0, hi: 0 },
        DeviceMapping { lo: 1, hi: 1 },
    ]);
    assert_eq!(router.device_count(), 2);
    assert_eq!(router.ingest(1, &vec![4u8; 510]), IngestResult::Flushed);
    assert_eq!(router.devices[0].queue.len(), 0);
    assert_eq!(router.devices[1].queue.len(), 1);
    let p = router.devices[1].queue.dequeue().unwrap();
    // The packet carries the absolute universe id.
    assert_eq!(p.universe, 1);
    assert_eq!(p.sequence, 1);
}

#[test]
fn pacer_takes_packets_in_dispatch_order() {
    let mut router = Router::new(vec![DeviceMapping { lo: 0, hi: 1 }]);
    router.ingest(0, &vec![0xAAu8; 510]);
    router.ingest(1, &vec![0xBBu8; 510]);
    let first = router.pacer_next(0).unwrap().unwrap();
    let second = router.pacer_next(0).unwrap().unwrap();
    assert!(router.pacer_next(0).is_none());
    // Both are ArtDmx wire frames: 18 bytes of header + 510 data bytes.
    assert_eq!(first.len(), 528);
    assert_eq!(second.len(), 528);
    assert_eq!(&first[18..], vec![0xAAu8; 510].as_slice());
    assert_eq!(&second[18..], vec![0xBBu8; 510].as_slice());
    // Ascending universe ids in the port address field (little endian).
    assert_eq!(first[14], 0);
    assert_eq!(second[14], 1);
}
