use pixelblaze_rs::sensor::{SensorClient, TargetAddr};

fn v4(a: u8, b: u8, c: u8, d: u8, port: u16) -> TargetAddr {
    let ip_lo = u32::from_be_bytes([a, b, c, d]) as u64;
    TargetAddr { ip_hi: 0, ip_lo, port, is_v6: false }
}

#[test]
fn new_client_has_no_targets() {
    let client = SensorClient::new(89);
    assert_eq!(client.sender_id(), 89);
    assert!(client.targets().is_empty());
}

#[test]
fn add_target_is_idempotent() {
    let mut client = SensorClient::new(1);
    let addr = v4(192, 168, 4, 1, 1889);
    client.add_target(addr);
    client.add_target(addr);
    assert_eq!(client.targets().len(), 1);
    assert_eq!(client.targets()[0], addr);
}

#[test]
fn remove_target_is_idempotent() {
    let mut client = SensorClient::new(1);
    let here = v4(127, 0, 0, 1, 1889);
    let there = v4(10, 0, 0, 2, 1889);
    client.add_target(here);
    client.add_target(there);
    client.remove_target(&there);
    client.remove_target(&there);
    assert_eq!(client.targets().len(), 1);
    assert_eq!(client.targets()[0], here);
}

#[test]
fn removing_an_absent_target_is_a_no_op() {
    let mut client = SensorClient::new(1);
    client.add_target(v4(127, 0, 0, 1, 1889));
    client.remove_target(&v4(8, 8, 8, 8, 53));
    assert_eq!(client.targets().len(), 1);
}

#[test]
fn duplicates_collapse_but_order_is_kept() {
    let mut client = SensorClient::new(1);
    let first = v4(10, 0, 0, 1, 1889);
    let second = v4(10, 0, 0, 2, 1889);
    client.add_target(first);
    client.add_target(second);
    client.add_target(first);
    assert_eq!(client.targets().as_slice(), &[first, second]);
}
