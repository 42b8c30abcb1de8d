use mangonel::packet::Packet;
use mangonel::pool::AddressPool;
use mangonel::ring::{RingBuffer, RingError, XdpDesc};
use mangonel::umem::{Umem, UmemError};
use mangonel::util::{check_power_of_two, is_power_of_two};

#[test]
fn power_of_two() {
    assert!(!is_power_of_two(0));
    assert!(is_power_of_two(1));
    assert!(is_power_of_two(2));
    assert!(!is_power_of_two(3));
    assert!(is_power_of_two(2048));
    assert!(!is_power_of_two(2049));
    assert!(is_power_of_two(1 << 31));
    assert!(!is_power_of_two(u32::MAX));
    assert!(!check_power_of_two(0));
    assert!(check_power_of_two(64));
    assert!(!check_power_of_two(96));
}

#[test]
fn pool_starts_with_every_offset() {
    let mut pool = AddressPool::new(4, 2304);
    assert_eq!(pool.len(), 4);
    assert_eq!(pool.capacity(), 4);
    assert_eq!(pool.free(), 0);
    assert_eq!(pool.push(7), Err(7));
    assert_eq!(pool.pop(), Some(0));
    assert_eq!(pool.pop(), Some(2304));
    assert_eq!(pool.free(), 2);
    assert_eq!(pool.push(99), Ok(()));
    assert_eq!(pool.pop(), Some(4608));
    assert_eq!(pool.pop(), Some(6912));
    assert_eq!(pool.pop(), Some(99));
    assert_eq!(pool.pop(), None);
    assert_eq!(pool.len(), 0);
}

#[test]
fn ring_rejects_sizes_that_are_not_powers_of_two() {
    assert!(matches!(RingBuffer::<u64>::new(0, 0), Err(RingError::Size(0))));
    assert!(matches!(RingBuffer::<u64>::new(6, 0), Err(RingError::Size(6))));
    assert!(RingBuffer::<u64>::new(4, 0).is_ok());
}

#[test]
fn ring_wraps_around() {
    let mut ring = RingBuffer::<XdpDesc>::new(4, XdpDesc { addr: 0, len: 0 }).ok().unwrap();
    assert_eq!(ring.capacity(), 4);
    assert_eq!(ring.free_slots(), 4);
    let (granted, start) = ring.reserve(3);
    assert_eq!((granted, start), (3, 0));
    for i in 0..3 {
        ring.write(start + i, XdpDesc { addr: i as u64 * 10, len: i });
    }
    assert_eq!(ring.len(), 0);
    ring.submit(3);
    assert_eq!(ring.len(), 3);
    assert_eq!(ring.peek(2), (2, 0));
    assert_eq!(ring.read(1), XdpDesc { addr: 10, len: 1 });
    ring.release(2);
    assert_eq!(ring.len(), 1);
    // Four more wanted, three free: the grant is clipped.
    let (granted, start) = ring.reserve(4);
    assert_eq!((granted, start), (3, 3));
    for i in 0..3 {
        ring.write(start + i, XdpDesc { addr: 100 + i as u64, len: 7 });
    }
    ring.submit(3);
    assert_eq!(ring.free_slots(), 0);
    assert_eq!(ring.reserve(1), (0, 2 + 4));
    assert_eq!(ring.peek(8), (4, 2));
    assert_eq!(ring.read(2), XdpDesc { addr: 20, len: 2 });
    assert_eq!(ring.read(3), XdpDesc { addr: 100, len: 7 });
    assert_eq!(ring.read(5), XdpDesc { addr: 102, len: 7 });
    ring.release(4);
    assert_eq!(ring.len(), 0);
    assert_eq!(ring.peek(1), (0, 2));
}

#[test]
fn umem_geometry() {
    let u = Umem::new(2048, 256, 16).ok().unwrap();
    assert_eq!(u.length(), 16 * 2304);
    assert_eq!(u.frame_size(), 2048);
    assert_eq!(u.frame_headroom_size(), 256);
    assert_eq!(u.frame_count(), 16);
    assert_eq!(u.fill_ring_len(), 0);
    assert!(matches!(Umem::new(2048, 0, 12), Err(UmemError::Ring(RingError::Size(12)))));
    assert!(matches!(Umem::new(2049, 0, 16), Err(UmemError::FrameSize(2049))));
}

#[test]
fn umem_fill_and_complete_move_offsets() {
    let mut u = Umem::new(2048, 0, 4).ok().unwrap();
    let mut pool = AddressPool::new(4, 2048);
    assert_eq!(u.fill(&mut pool), 4);
    assert_eq!(pool.len(), 0);
    assert_eq!(u.fill_ring_len(), 4);
    assert_eq!(u.fill(&mut pool), 0);
    assert_eq!(u.complete(&mut pool), 0);
    assert_eq!(pool.len(), 0);
}

#[test]
fn packet_macs() {
    let mut bytes: Vec<u8> = (0u8..20).collect();
    let mut p = Packet::new(&mut bytes);
    assert_eq!(p.destination_mac(), &[0, 1, 2, 3, 4, 5]);
    assert_eq!(p.source_mac(), &[6, 7, 8, 9, 10, 11]);
    p.set_destination_mac(&[0xaa; 6]);
    p.set_source_mac(&[0xbb, 0xbc, 0xbd, 0xbe, 0xbf, 0xc0]);
    p.set_source_ip();
    p.set_destination_ip();
    assert_eq!(p.destination_mac(), &[0xaa; 6]);
    assert_eq!(p.source_mac(), &[0xbb, 0xbc, 0xbd, 0xbe, 0xbf, 0xc0]);
    assert_eq!(bytes[12..], (12u8..20).collect::<Vec<u8>>()[..]);
}
