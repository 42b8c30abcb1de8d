use mangonel::descriptor::Descriptor;
use mangonel::ring::RingError;
use mangonel::socket::{Socket, SocketBuilder, SocketError};
use mangonel::umem::UmemError;
use std::collections::VecDeque;

fn builder(frame_size: u32, headroom: u32, ring_size: u32) -> SocketBuilder {
    SocketBuilder {
        frame_size,
        frame_headroom_size: headroom,
        ring_size,
        use_hugetlb: false,
        force_zero_copy: false,
    }
}

fn socket(frame_size: u32, headroom: u32, ring_size: u32) -> Socket {
    match builder(frame_size, headroom, ring_size).build("lo", 0) {
        Ok(s) => s,
        Err(e) => panic!("socket setup failed: {:?}", e),
    }
}

/// Frames held by the pool, the four rings and the application.
fn total(s: &Socket, held: usize) -> usize {
    (s.pool_len() + s.fill_ring_len() + s.completion_ring_len() + s.rx_ring_len() + s.tx_ring_len())
        as usize
        + held
}

#[test]
fn ring_size_zero_is_rejected() {
    let r = builder(4096, 0, 0).build("lo", 0);
    assert!(matches!(r, Err(SocketError::Umem(UmemError::Ring(RingError::Size(0))))));
}

#[test]
fn ring_size_three_is_rejected() {
    let r = builder(4096, 0, 3).build("lo", 0);
    assert!(matches!(r, Err(SocketError::Umem(UmemError::Ring(RingError::Size(3))))));
}

#[test]
fn ring_sizes_that_are_powers_of_two_are_accepted() {
    for size in [1u32, 2, 8, 1024] {
        assert!(builder(2048, 0, size).build("lo", 0).is_ok());
    }
    for size in [5u32, 6, 12, 1000] {
        let r = builder(2048, 0, size).build("lo", 0);
        assert!(matches!(r, Err(SocketError::Umem(UmemError::Ring(RingError::Size(n)))) if n == size));
    }
}

#[test]
fn odd_or_zero_frame_size_is_rejected() {
    let r = builder(0, 0, 8).build("lo", 0);
    assert!(matches!(r, Err(SocketError::Umem(UmemError::FrameSize(0)))));
    let r = builder(2047, 0, 8).build("lo", 0);
    assert!(matches!(r, Err(SocketError::Umem(UmemError::FrameSize(2047)))));
    let r = builder(4096, u32::MAX - 100, 8).build("lo", 0);
    assert!(matches!(r, Err(SocketError::Umem(UmemError::FrameSize(4096)))));
}

#[test]
fn ring_size_is_checked_before_frame_size_and_name() {
    let r = builder(3, 0, 3).build("a\0b", 0);
    assert!(matches!(r, Err(SocketError::Umem(UmemError::Ring(RingError::Size(3))))));
    let r = builder(3, 0, 4).build("a\0b", 0);
    assert!(matches!(r, Err(SocketError::Umem(UmemError::FrameSize(3)))));
}

#[test]
fn interface_name_with_nul_is_rejected() {
    let r = builder(4096, 0, 8).build("eth\0x", 0);
    assert!(matches!(r, Err(SocketError::InvalidInterfaceName(3))));
    let r = builder(4096, 0, 8).build("\0\0", 0);
    assert!(matches!(r, Err(SocketError::InvalidInterfaceName(0))));
}

#[test]
fn default_builder() {
    let b = SocketBuilder::default();
    assert_eq!(b.frame_size, 4096);
    assert_eq!(b.frame_headroom_size, 0);
    assert_eq!(b.ring_size, 2048);
    assert!(!b.use_hugetlb);
    assert!(!b.force_zero_copy);
    let s = b.build("enp5s0", 3).ok().unwrap();
    assert_eq!(s.pool_len(), 2048);
    assert_eq!(s.interface_name(), "enp5s0");
    assert_eq!(s.queue_id(), 3);
    assert_eq!(s.umem().length(), 4096 * 2048);
}

#[test]
fn first_receive_burst_posts_the_whole_pool() {
    let mut s = socket(4096, 0, 8);
    assert_eq!(s.pool_len(), 8);
    let mut out: VecDeque<Descriptor> = VecDeque::with_capacity(16);
    assert_eq!(s.rx_burst(&mut out, 16), 0);
    assert_eq!(out.len(), 0);
    assert_eq!(s.pool_len(), 0);
    assert_eq!(s.fill_ring_len(), 8);
}

#[test]
fn receive_with_no_room_takes_nothing() {
    let mut s = socket(2048, 0, 4);
    s.refill();
    assert!(s.deliver(60));
    let mut out: VecDeque<Descriptor> = VecDeque::new();
    assert_eq!(s.receive(&mut out, 0), 0);
    assert_eq!(s.rx_ring_len(), 1);
    assert_eq!(out.len(), 0);
}

#[test]
fn transmit_with_empty_input_submits_nothing() {
    let mut s = socket(2048, 0, 4);
    let mut input: VecDeque<Descriptor> = VecDeque::new();
    assert_eq!(s.tx_burst(&mut input), 0);
    assert_eq!(s.tx_ring_len(), 0);
    assert_eq!(s.pool_len(), 4);
}

#[test]
fn received_descriptors_match_the_ring() {
    let mut s = socket(2048, 0, 8);
    assert_eq!(s.refill(), false);
    assert!(s.deliver(60));
    assert!(s.deliver(1500));
    assert!(s.deliver(64));
    let mut out: VecDeque<Descriptor> = VecDeque::new();
    assert_eq!(s.receive(&mut out, 2), 2);
    assert_eq!(out.len(), 2);
    assert_eq!(s.rx_ring_len(), 1);
    assert_eq!((out[0].address(), out[0].length()), (0, 60));
    assert_eq!((out[1].address(), out[1].length()), (2048, 1500));
    assert_eq!(s.rx_burst(&mut out, 16), 1);
    assert_eq!((out[2].address(), out[2].length()), (4096, 64));
}

#[test]
fn payloads_start_past_the_headroom() {
    let mut s = socket(2048, 256, 4);
    s.refill();
    for len in [10u32, 20, 30, 40] {
        assert!(s.deliver(len));
    }
    assert!(!s.deliver(10));
    let mut out: VecDeque<Descriptor> = VecDeque::new();
    assert_eq!(s.rx_burst(&mut out, 8), 4);
    let length = s.umem().length();
    assert_eq!(length, 4 * 2304);
    for (k, d) in out.iter().enumerate() {
        assert_eq!(d.address(), k as u64 * 2304 + 256);
        assert_eq!(d.address() % 2304, 256);
        assert!(d.address() + d.length() as u64 <= length);
        assert_eq!(d.data_range(256, length), Some((k as u64 * 2304, d.length() as u64 + 256)));
        assert_eq!(d.data_range(257 + k as u32 * 2304, length), None);
        assert_eq!(d.data_range(256, d.address() + d.length() as u64 - 1), None);
        // A headroom as large as the frame area before the payload is fine.
        assert_eq!(
            d.data_range(d.address() as u32, length),
            Some((0, d.length() as u64 + d.address()))
        );
    }
}

#[test]
fn frame_larger_than_a_slot_is_not_delivered() {
    let mut s = socket(2048, 0, 2);
    s.refill();
    assert!(!s.deliver(2049));
    assert_eq!(s.rx_ring_len(), 0);
    assert_eq!(s.fill_ring_len(), 2);
    assert!(s.deliver(2048));
}

#[test]
fn transmit_consumes_from_the_front() {
    let mut s = socket(2048, 0, 4);
    s.refill();
    for len in [1u32, 2, 3, 4] {
        assert!(s.deliver(len));
    }
    let mut held: VecDeque<Descriptor> = VecDeque::new();
    assert_eq!(s.rx_burst(&mut held, 4), 4);
    let mut input: VecDeque<Descriptor> = VecDeque::new();
    input.push_back(held.pop_front().unwrap());
    input.push_back(held.pop_front().unwrap());
    input.push_back(held.pop_front().unwrap());
    assert_eq!(s.transmit(&mut input), 3);
    assert_eq!(input.len(), 0);
    assert_eq!(s.tx_ring_len(), 3);
    assert_eq!(total(&s, held.len()), 4);
}

#[test]
fn transmit_stops_when_the_ring_is_full() {
    let mut s = socket(2048, 0, 2);
    s.refill();
    assert!(s.deliver(100));
    assert!(s.deliver(200));
    let mut held: VecDeque<Descriptor> = VecDeque::new();
    assert_eq!(s.rx_burst(&mut held, 2), 2);
    assert_eq!(s.tx_burst(&mut held), 2);
    assert_eq!(s.tx_ring_len(), 2);
    // The kernel has sent nothing yet, so completions cannot be reaped.
    assert_eq!(s.reap(), 0);
    assert_eq!(s.complete_tx(), 2);
    assert_eq!(s.completion_ring_len(), 2);
    assert_eq!(s.reap(), 2);
    assert_eq!(s.pool_len(), 2);
}

#[test]
fn wakeup_flags_are_reported() {
    let mut s = socket(2048, 0, 2);
    assert!(!s.needs_wakeup());
    assert!(!s.tx_needs_wakeup());
    s.set_wakeup(true, false);
    assert!(s.needs_wakeup());
    assert!(s.refill());
    s.set_wakeup(false, true);
    assert!(!s.refill());
    assert!(s.tx_needs_wakeup());
}

#[test]
fn loopback_rounds_keep_every_frame() {
    let frames = 8usize;
    let mut s = socket(2048, 128, frames as u32);
    let mut held: VecDeque<Descriptor> = VecDeque::new();
    let mut sent_total = 0u32;
    let mut completed_total = 0u32;
    assert_eq!(total(&s, held.len()), frames);
    for round in 0..50u32 {
        s.refill();
        assert_eq!(total(&s, held.len()), frames);
        for i in 0..(round % 5) {
            s.deliver(64 + i);
            assert_eq!(total(&s, held.len()), frames);
        }
        s.rx_burst(&mut held, (round % 4) + 1);
        assert_eq!(total(&s, held.len()), frames);
        let sent = s.tx_burst(&mut held);
        sent_total += sent;
        assert_eq!(total(&s, held.len()), frames);
        completed_total += s.complete_tx();
        assert_eq!(total(&s, held.len()), frames);
    }
    // Send what the application still holds and let the kernel finish.
    loop {
        sent_total += s.tx_burst(&mut held);
        completed_total += s.complete_tx();
        if held.is_empty() && s.tx_ring_len() == 0 {
            break;
        }
    }
    s.reap();
    assert_eq!(sent_total, completed_total);
    assert_eq!(s.tx_ring_len(), 0);
    assert_eq!(total(&s, held.len()), frames);
}

#[test]
fn echoed_frames_are_never_lost_or_duplicated() {
    let frames = 16u32;
    let mut s = socket(2048, 0, frames);
    let mut held: VecDeque<Descriptor> = VecDeque::new();
    let mut generated = 0u32;
    let mut submitted = 0u32;
    let mut completed = 0u32;
    while generated < 100 {
        s.refill();
        if s.deliver(60) {
            generated += 1;
        }
        s.rx_burst(&mut held, 4);
        // Every frame held by the application is distinct.
        let mut seen: Vec<u64> = held.iter().map(|d| d.address() / 2048).collect();
        seen.sort();
        seen.dedup();
        assert_eq!(seen.len(), held.len());
        submitted += s.tx_burst(&mut held);
        completed += s.complete_tx();
    }
    completed += s.complete_tx();
    s.tx_burst(&mut held);
    assert_eq!(submitted, completed);
    assert_eq!(submitted, 100);
    assert_eq!(s.pool_len() + s.fill_ring_len(), frames);
}
