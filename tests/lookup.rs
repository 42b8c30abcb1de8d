use mangonel::buffer::Buffer;
use mangonel::device::{position_of, Driver, ErrorKind, EthernetDevice};
use mangonel::interface::{NetworkInterfaceError, Port};
use mangonel::pool::AddressPool;
use mangonel::umem::Umem;

fn names(list: &[&str]) -> Vec<String> {
    list.iter().map(|s| s.to_string()).collect()
}

#[test]
fn position_of_finds_the_first_match() {
    let list = names(&["lo", "eth0", "eth1", "eth0"]);
    assert_eq!(position_of(&list, "eth0"), Some(1));
    assert_eq!(position_of(&list, "lo"), Some(0));
    assert_eq!(position_of(&list, "eth2"), None);
    assert_eq!(position_of(&Vec::new(), "lo"), None);
}

#[test]
fn device_found_by_bdf() {
    let devices = vec![
        EthernetDevice { bdf: "0000:00:1f.6".to_string() },
        EthernetDevice { bdf: "0000:05:00.0".to_string() },
    ];
    let found = EthernetDevice::find_by_bdf(devices, "0000:05:00.0").ok().unwrap();
    assert_eq!(found.bdf, "0000:05:00.0");
    let devices = vec![EthernetDevice { bdf: "0000:00:1f.6".to_string() }];
    assert!(matches!(
        EthernetDevice::find_by_bdf(devices, "0000:05:00.0"),
        Err(ErrorKind::DeviceNotFound)
    ));
}

#[test]
fn driver_found_by_name() {
    let drivers = vec![Driver { name: "e1000e".to_string() }, Driver { name: "igb".to_string() }];
    let found = Driver::find_by_name(drivers, "igb").ok().unwrap();
    assert_eq!(found.name, "igb");
    assert!(matches!(Driver::find_by_name(Vec::new(), "igb"), Err(ErrorKind::DriverNotFound)));
}

#[test]
fn port_resolves_both_interfaces() {
    let list = names(&["lo", "wan0", "lan0"]);
    let port = Port::new("wan0", "lan0", &list).ok().unwrap();
    assert_eq!(port.wan(), 1);
    assert_eq!(port.lan(), 2);
    let port = Port::new("lo", "lo", &list).ok().unwrap();
    assert_eq!((port.wan(), port.lan()), (0, 0));
}

#[test]
fn port_names_the_missing_interface() {
    let list = names(&["lo", "wan0"]);
    match Port::new("wan1", "lo", &list) {
        Err(NetworkInterfaceError::DeviceDoesNotExist(name)) => assert_eq!(name, "wan1"),
        Ok(_) => panic!("wan1 does not exist"),
    }
    match Port::new("wan0", "lan0", &list) {
        Err(NetworkInterfaceError::DeviceDoesNotExist(name)) => assert_eq!(name, "lan0"),
        Ok(_) => panic!("lan0 does not exist"),
    }
    match Port::new("wan1", "lan1", &list) {
        Err(NetworkInterfaceError::DeviceDoesNotExist(name)) => assert_eq!(name, "wan1"),
        Ok(_) => panic!("neither exists"),
    }
}

#[test]
fn pool_as_a_buffer() {
    let mut pool = AddressPool::new(2, 4096);
    assert_eq!(Buffer::count(&pool), 2);
    assert_eq!(Buffer::free(&pool), 0);
    assert_eq!(Buffer::push(&mut pool, 5), Some(5));
    assert_eq!(Buffer::pop(&mut pool), Some(0));
    assert_eq!(Buffer::push(&mut pool, 5), None);
    assert_eq!(Buffer::pop(&mut pool), Some(4096));
    assert_eq!(Buffer::pop(&mut pool), Some(5));
    assert_eq!(Buffer::pop(&mut pool), None);
    assert_eq!(Buffer::count(&pool), 0);
    assert_eq!(Buffer::free(&pool), 2);
}

#[test]
fn fill_is_bounded_by_the_pool_and_the_ring() {
    let mut u = Umem::new(2048, 0, 4).ok().unwrap();
    let mut pool = AddressPool::new(4, 2048);
    pool.pop();
    pool.pop();
    pool.pop();
    assert_eq!(u.fill(&mut pool), 1);
    assert_eq!(u.fill_ring_len(), 1);
    assert_eq!(pool.len(), 0);
    let mut big = AddressPool::new(8, 2048);
    assert_eq!(u.fill(&mut big), 3);
    assert_eq!(big.len(), 5);
    assert_eq!(u.fill_ring_len(), 4);
}
