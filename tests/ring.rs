use esp_dma::ring::{ConfigError, Descriptor, DescriptorRing, Owner};

fn chain(ring: &DescriptorRing) -> Vec<Descriptor> {
    (0..ring.len()).map(|i| ring.get(i)).collect()
}

#[test]
fn short_buffer_gives_one_link_with_eof() {
    let mut ring = DescriptorRing::new(4, 4096);
    assert_eq!(ring.fill(100), Ok(1));
    let d = ring.get(0);
    assert_eq!(d.length, 100);
    assert_eq!(d.capacity, 4096);
    assert!(d.end_of_frame);
    assert_eq!(d.next, None);
    assert_eq!(d.owner, Owner::Dma);
    assert_eq!(d.buffer_offset, 0);
    for i in 1..4 {
        assert_eq!(ring.get(i).owner, Owner::Cpu);
        assert_eq!(ring.get(i).length, 0);
    }
}

#[test]
fn buffer_of_exactly_one_link() {
    let mut ring = DescriptorRing::new(2, 64);
    assert_eq!(ring.fill(64), Ok(1));
    assert_eq!(ring.get(0).length, 64);
    assert!(ring.get(0).end_of_frame);
    assert!(!ring.get(1).end_of_frame);
}

#[test]
fn long_buffer_gives_ceil_links_in_order() {
    let mut ring = DescriptorRing::new(8, 100);
    assert_eq!(ring.fill(450), Ok(5));
    let lengths: Vec<usize> = (0..5).map(|i| ring.get(i).length).collect();
    assert_eq!(lengths, vec![100, 100, 100, 100, 50]);
    for i in 0..5 {
        let d = ring.get(i);
        assert_eq!(d.buffer_offset, i * 100);
        assert_eq!(d.end_of_frame, i == 4);
        assert_eq!(d.next, if i < 4 { Some(i + 1) } else { None });
    }
    assert_eq!(ring.get(5).owner, Owner::Cpu);
}

#[test]
fn filling_twice_gives_identical_chains() {
    let mut ring = DescriptorRing::new(5, 32);
    assert_eq!(ring.fill(130), Ok(5));
    let first = chain(&ring);
    assert_eq!(ring.fill(130), Ok(5));
    assert_eq!(chain(&ring), first);
}

#[test]
fn refill_with_shorter_buffer_idles_the_rest() {
    let mut ring = DescriptorRing::new(3, 10);
    assert_eq!(ring.fill(30), Ok(3));
    assert_eq!(ring.fill(5), Ok(1));
    assert_eq!(ring.get(0).length, 5);
    assert_eq!(ring.get(1).owner, Owner::Cpu);
    assert_eq!(ring.get(2).owner, Owner::Cpu);
}

#[test]
fn empty_buffer_is_refused_and_ring_kept() {
    let mut ring = DescriptorRing::new(3, 10);
    assert_eq!(ring.fill(25), Ok(3));
    let before = chain(&ring);
    assert_eq!(ring.fill(0), Err(ConfigError::ZeroLengthBuffer));
    assert_eq!(chain(&ring), before);
}

#[test]
fn buffer_larger_than_ring_queues_first_links() {
    let mut ring = DescriptorRing::new(3, 4096);
    assert_eq!(ring.fill(3 * 4096 + 1), Ok(4));
    for i in 0..3 {
        let d = ring.get(i);
        assert_eq!(d.length, 4096);
        assert_eq!(d.buffer_offset, i * 4096);
        assert!(!d.end_of_frame);
        assert_eq!(d.owner, Owner::Dma);
    }
    // the third link points back at slot 0, where the fourth will be queued
    assert_eq!(ring.get(2).next, Some(0));
}

#[test]
fn place_writes_link_into_its_slot() {
    let mut ring = DescriptorRing::new(3, 10);
    assert_eq!(ring.fill(45), Ok(5));
    ring.place(45, 3);
    let d = ring.get(0);
    assert_eq!(d.buffer_offset, 30);
    assert_eq!(d.length, 10);
    assert_eq!(d.next, Some(1));
    ring.place(45, 4);
    let d = ring.get(1);
    assert_eq!(d.buffer_offset, 40);
    assert_eq!(d.length, 5);
    assert!(d.end_of_frame);
    assert_eq!(d.next, None);
}

#[test]
fn ten_thousand_bytes_over_three_links() {
    let mut ring = DescriptorRing::new(3, 4096);
    assert_eq!(ring.fill(10000), Ok(3));
    assert_eq!(ring.get(0).length, 4096);
    assert_eq!(ring.get(1).length, 4096);
    assert_eq!(ring.get(2).length, 1808);
    assert!(!ring.get(0).end_of_frame);
    assert!(!ring.get(1).end_of_frame);
    assert!(ring.get(2).end_of_frame);
    assert_eq!(ring.get(2).buffer_offset, 8192);
    assert_eq!(ring.get(0).next, Some(1));
    assert_eq!(ring.get(1).next, Some(2));
    assert_eq!(ring.get(2).next, None);
}
