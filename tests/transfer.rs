use esp_dma::channel::{Channel, ChannelState, Spi2DmaSuitablePeripheral, TransferError};
use esp_dma::pdma::{Dma, DmaPeripheral, PeripheralClockControl};
use esp_dma::regs::{DmaPriority, RegisterBlock};
use esp_dma::ring::{ConfigError, DescriptorRing, Owner};

fn spi2_channel(links: usize, cap: usize) -> Channel<RegisterBlock, Spi2DmaSuitablePeripheral> {
    let mut clocks = PeripheralClockControl::new();
    let dma = Dma::new(DmaPeripheral {}, &mut clocks);
    dma.spi2channel.configure(
        false,
        DescriptorRing::new(links, cap),
        DescriptorRing::new(links, cap),
        DmaPriority::Priority0,
    )
}

fn pattern(len: usize) -> Vec<u8> {
    (0..len).map(|i| (i % 251) as u8).collect()
}

#[test]
fn dma_new_enables_clock() {
    let mut clocks = PeripheralClockControl::new();
    assert!(!clocks.is_dma_enabled());
    let _dma = Dma::new(DmaPeripheral {}, &mut clocks);
    assert!(clocks.is_dma_enabled());
}

#[test]
fn configure_sets_burst_mode_and_lane() {
    let mut clocks = PeripheralClockControl::new();
    let dma = Dma::new(DmaPeripheral {}, &mut clocks);
    let ch = dma.i2s0channel.configure(
        true,
        DescriptorRing::new(2, 64),
        DescriptorRing::new(2, 64),
        DmaPriority::Priority3,
    );
    let regs = ch.peripheral().snapshot();
    assert!(regs.lane_selected);
    assert!(regs.out_burst);
    assert!(regs.in_burst);
    assert!(!regs.out_started);
    assert_eq!(ch.tx().state(), ChannelState::Idle);
    assert_eq!(ch.rx().state(), ChannelState::Idle);
}

#[test]
fn transfer_starts_both_directions() {
    let ch = spi2_channel(4, 100);
    let handle = match ch.transfer(pattern(250), vec![0; 250]) {
        Ok(h) => h,
        Err(_) => panic!("transfer refused"),
    };
    let mut handle = handle;
    let regs = handle.peripheral_mut().snapshot();
    assert!(regs.out_started);
    assert!(regs.in_started);
    assert!(!regs.out_done);
    assert_eq!(handle.bytes_sent(), 0);
}

#[test]
fn zero_length_buffer_touches_no_register() {
    let ch = spi2_channel(3, 64);
    let before = ch.peripheral().snapshot();
    let rejected = match ch.transfer(Vec::new(), vec![0; 10]) {
        Ok(_) => panic!("empty send buffer accepted"),
        Err(e) => e,
    };
    assert_eq!(rejected.error(), ConfigError::ZeroLengthBuffer);
    let (ch, send, receive) = rejected.into_parts();
    assert_eq!(ch.peripheral().snapshot(), before);
    assert!(send.is_empty());
    assert_eq!(receive.len(), 10);
    assert_eq!(ch.tx().descriptor(0).owner, Owner::Cpu);

    let rejected = match ch.transfer(vec![1; 10], Vec::new()) {
        Ok(_) => panic!("empty receive buffer accepted"),
        Err(e) => e,
    };
    assert_eq!(rejected.error(), ConfigError::ZeroLengthBuffer);
    let (ch, _, _) = rejected.into_parts();
    assert_eq!(ch.peripheral().snapshot(), before);
}

#[test]
fn buffer_larger_than_ring_is_streamed() {
    let ch = spi2_channel(2, 64);
    let data = pattern(200);
    let mut handle = match ch.transfer(data.clone(), vec![0; 10]) {
        Ok(h) => h,
        Err(_) => panic!("transfer refused"),
    };
    assert!(!handle.is_done());
    assert_eq!(handle.bytes_sent(), 0);

    handle.peripheral_mut().signal_out_done(0);
    assert!(!handle.is_done());
    assert_eq!(handle.bytes_sent(), 64);
    // polling again on the same report confirms nothing new
    assert!(!handle.is_done());
    assert_eq!(handle.bytes_sent(), 64);

    handle.peripheral_mut().signal_out_done(1);
    assert!(!handle.is_done());
    assert_eq!(handle.bytes_sent(), 128);

    handle.peripheral_mut().signal_out_done(0);
    assert!(!handle.is_done());
    assert_eq!(handle.bytes_sent(), 192);

    handle.peripheral_mut().signal_out_eof(1);
    handle.peripheral_mut().signal_in_done(0);
    assert!(handle.is_done());
    assert_eq!(handle.bytes_sent(), 200);
    let (_, send, ch) = match handle.wait() {
        Ok(parts) => parts,
        Err(_) => panic!("transfer failed"),
    };
    assert_eq!(send, data);
    assert_eq!(ch.tx().link_count(), 4);
    assert_eq!(ch.tx().queued_links(), 4);
    // slots hold the third and fourth links after requeueing; the third was
    // confirmed and is the CPU's again
    assert_eq!(ch.tx().descriptor(0).buffer_offset, 128);
    assert_eq!(ch.tx().descriptor(0).owner, Owner::Cpu);
    assert_eq!(ch.tx().descriptor(1).owner, Owner::Dma);
    assert_eq!(ch.tx().descriptor(1).buffer_offset, 192);
    assert_eq!(ch.tx().descriptor(1).length, 8);
    assert!(ch.tx().descriptor(1).end_of_frame);
}

#[test]
fn streamed_receive_completes_on_last_link() {
    let ch = spi2_channel(2, 10);
    let mut handle = match ch.transfer(vec![1; 5], vec![0; 25]) {
        Ok(h) => h,
        Err(_) => panic!("transfer refused"),
    };
    handle.peripheral_mut().signal_out_eof(0);
    handle.peripheral_mut().signal_in_done(0);
    assert!(!handle.is_done());
    assert_eq!(handle.bytes_received(), 10);
    handle.peripheral_mut().signal_in_done(1);
    assert!(!handle.is_done());
    assert_eq!(handle.bytes_received(), 20);
    handle.peripheral_mut().signal_in_done(0);
    assert!(handle.is_done());
    assert_eq!(handle.bytes_received(), 25);
    let (receive, _, ch) = match handle.wait() {
        Ok(parts) => parts,
        Err(_) => panic!("transfer failed"),
    };
    assert_eq!(receive.len(), 25);
    assert_eq!(ch.received_len(), 25);
}

#[test]
fn new_transfer_succeeds_after_wait() {
    let ch = spi2_channel(2, 64);
    let mut handle = match ch.transfer(vec![7; 100], vec![0; 100]) {
        Ok(h) => h,
        Err(_) => panic!("first transfer refused"),
    };
    assert!(!handle.is_done());
    handle.peripheral_mut().signal_out_eof(1);
    handle.peripheral_mut().signal_in_done(1);
    assert!(handle.is_done());
    let (receive, send, ch) = match handle.wait() {
        Ok(parts) => parts,
        Err(_) => panic!("transfer failed"),
    };
    assert_eq!(send, vec![7; 100]);
    assert_eq!(receive.len(), 100);
    assert_eq!(ch.tx().state(), ChannelState::Idle);
    assert_eq!(ch.rx().state(), ChannelState::Idle);
    assert_eq!(ch.received_len(), 100);
    assert!(ch.transfer(vec![1; 10], vec![0; 10]).is_ok());
}

#[test]
fn transmit_descriptor_error_fails_wait() {
    let ch = spi2_channel(3, 4096);
    let mut handle = match ch.transfer(pattern(10000), vec![0; 10000]) {
        Ok(h) => h,
        Err(_) => panic!("transfer refused"),
    };
    handle.peripheral_mut().signal_out_done(0);
    assert!(!handle.is_done());
    assert_eq!(handle.bytes_sent(), 4096);
    handle.peripheral_mut().signal_out_descriptor_error();
    handle.peripheral_mut().signal_in_done(2);
    assert!(handle.is_done());
    // a later end-of-frame does not turn the error into a completion
    handle.peripheral_mut().signal_out_eof(2);
    assert!(handle.is_done());
    let failed = match handle.wait() {
        Ok(_) => panic!("transfer with a descriptor error completed"),
        Err(f) => f,
    };
    assert_eq!(failed.error(), TransferError::DescriptorChainCorrupt);
    let (receive, send, ch) = failed.into_parts();
    assert_eq!(send, pattern(10000));
    assert_eq!(receive.len(), 10000);
    assert_eq!(ch.tx().state(), ChannelState::Idle);
    assert!(ch.transfer(vec![1; 4], vec![0; 4]).is_ok());
}

#[test]
fn receive_descriptor_error_fails_wait() {
    let ch = spi2_channel(3, 64);
    let mut handle = match ch.transfer(vec![3; 100], vec![0; 100]) {
        Ok(h) => h,
        Err(_) => panic!("transfer refused"),
    };
    handle.peripheral_mut().signal_out_eof(1);
    handle.peripheral_mut().signal_in_descriptor_error();
    assert!(handle.is_done());
    match handle.wait() {
        Ok(_) => panic!("transfer with a descriptor error completed"),
        Err(f) => assert_eq!(f.error(), TransferError::DescriptorChainCorrupt),
    }
}

#[test]
fn three_links_done_in_order_then_wait_succeeds() {
    let ch = spi2_channel(3, 4096);
    let data = pattern(10000);
    let mut handle = match ch.transfer(data.clone(), vec![0; 10000]) {
        Ok(h) => h,
        Err(_) => panic!("transfer refused"),
    };
    handle.peripheral_mut().signal_out_done(0);
    handle.peripheral_mut().signal_in_done(0);
    assert!(!handle.is_done());
    assert_eq!(handle.bytes_sent(), 4096);
    assert_eq!(handle.bytes_received(), 4096);
    handle.peripheral_mut().signal_out_done(1);
    handle.peripheral_mut().signal_in_done(1);
    assert!(!handle.is_done());
    assert_eq!(handle.bytes_sent(), 8192);
    handle.peripheral_mut().signal_out_eof(2);
    handle.peripheral_mut().signal_in_done(2);
    assert!(handle.is_done());
    assert_eq!(handle.bytes_sent(), 10000);
    assert_eq!(handle.bytes_received(), 10000);
    let (_, send, ch) = match handle.wait() {
        Ok(parts) => parts,
        Err(_) => panic!("transfer failed"),
    };
    assert_eq!(send, data);
    assert_eq!(ch.tx().link_count(), 3);
    let lengths: Vec<usize> = (0..3).map(|i| ch.tx().descriptor(i).length).collect();
    assert_eq!(lengths, vec![4096, 4096, 1808]);
    assert!(ch.tx().descriptor(2).end_of_frame);
}

#[test]
fn early_end_of_frame_reports_partial_length() {
    let ch = spi2_channel(4, 64);
    let mut handle = match ch.transfer(vec![1; 8], vec![0; 200]) {
        Ok(h) => h,
        Err(_) => panic!("transfer refused"),
    };
    handle.peripheral_mut().signal_out_eof(0);
    handle.peripheral_mut().signal_in_suc_eof(1, 30);
    assert!(handle.is_done());
    let (receive, _, ch) = match handle.wait() {
        Ok(parts) => parts,
        Err(_) => panic!("transfer failed"),
    };
    assert_eq!(receive.len(), 200);
    assert_eq!(ch.received_len(), 94);
}

#[test]
fn loopback_chains_line_up() {
    let ch = spi2_channel(4, 50);
    let handle = match ch.transfer(pattern(180), vec![0; 180]) {
        Ok(h) => h,
        Err(_) => panic!("transfer refused"),
    };
    let mut handle = handle;
    handle.peripheral_mut().signal_out_eof(3);
    handle.peripheral_mut().signal_in_done(3);
    assert!(handle.is_done());
    let (_, _, ch) = match handle.wait() {
        Ok(parts) => parts,
        Err(_) => panic!("transfer failed"),
    };
    for i in 0..4 {
        let t = ch.tx().descriptor(i);
        let r = ch.rx().descriptor(i);
        assert_eq!(t.buffer_offset, r.buffer_offset);
        assert_eq!(t.length, r.length);
        assert_eq!(t.end_of_frame, r.end_of_frame);
    }
}

#[test]
fn looped_back_bytes_reach_the_receive_buffer() {
    let ch = spi2_channel(2, 4);
    let data = vec![1u8, 2, 3, 4, 5, 6, 7, 8, 9, 10];
    let mut handle = match ch.transfer(data.clone(), vec![0; 10]) {
        Ok(h) => h,
        Err(_) => panic!("transfer refused"),
    };
    for link in 0..3 {
        let slot = link % 2;
        let d = handle.channel().tx().descriptor(slot);
        assert_eq!(d.buffer_offset, link * 4);
        let chunk = data[d.buffer_offset..d.buffer_offset + d.length].to_vec();
        assert!(handle.dma_receive(slot, &chunk));
        if link < 2 {
            handle.peripheral_mut().signal_out_done(slot);
        } else {
            handle.peripheral_mut().signal_out_eof(slot);
        }
        handle.peripheral_mut().signal_in_done(slot);
        assert_eq!(handle.is_done(), link == 2);
    }
    let (receive, send, _) = match handle.wait() {
        Ok(parts) => parts,
        Err(_) => panic!("transfer failed"),
    };
    assert_eq!(receive, data);
    assert_eq!(send, data);
}

#[test]
fn receive_write_refused_outside_engine_slots() {
    let ch = spi2_channel(4, 8);
    let mut handle = match ch.transfer(vec![1; 4], vec![0; 12]) {
        Ok(h) => h,
        Err(_) => panic!("transfer refused"),
    };
    // slot 2 is idle: the receive chain has two links
    assert!(!handle.dma_receive(2, &vec![9; 2]));
    // more bytes than the link holds
    assert!(!handle.dma_receive(1, &vec![9; 5]));
    assert!(!handle.dma_receive(7, &vec![9; 1]));
    assert!(handle.dma_receive(1, &vec![9; 4]));
    handle.peripheral_mut().signal_out_eof(0);
    // the last receive link is done, which confirms the first one too
    handle.peripheral_mut().signal_in_done(1);
    assert!(handle.is_done());
    assert_eq!(handle.bytes_received(), 12);
    let (receive, _, _) = match handle.wait() {
        Ok(parts) => parts,
        Err(_) => panic!("transfer failed"),
    };
    assert_eq!(receive, vec![0, 0, 0, 0, 0, 0, 0, 0, 9, 9, 9, 9]);
}
