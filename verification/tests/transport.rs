//! Framing and chunking behaviour of the transport layer.

use ssd1306::transport::{BusWrite, RecordingBus, Write};

#[test]
fn command_byte_is_framed_with_zero_control_byte() {
    let mut bus = RecordingBus::new();
    bus.write_cmd(0x3C, 0xA4).unwrap();
    assert_eq!(bus.writes().as_slice(), &[(0x3C, vec![0x00, 0xA4])]);
}

#[test]
fn twenty_byte_payload_splits_into_sixteen_and_four() {
    let data: Vec<u8> = (1..=20).collect();
    let mut bus = RecordingBus::new();
    bus.write_data(0x3C, data.as_slice()).unwrap();
    let writes = bus.writes();
    assert_eq!(writes.len(), 2);

    let mut first = vec![0x40];
    first.extend_from_slice(&data[..16]);
    assert_eq!(writes[0], (0x3C, first));

    let mut second = vec![0x40];
    second.extend_from_slice(&data[16..]);
    assert_eq!(writes[1], (0x3C, second));
    assert_eq!(writes[0].1.len(), 17);
    assert_eq!(writes[1].1.len(), 5);
}

#[test]
fn sixteen_byte_payload_is_one_transfer() {
    let data = [7u8; 16];
    let mut bus = RecordingBus::new();
    bus.write_data(0x3C, &data).unwrap();
    let writes = bus.writes();
    assert_eq!(writes.len(), 1);
    let mut expected = vec![0x40];
    expected.extend_from_slice(&data);
    assert_eq!(writes[0], (0x3C, expected));
}

#[test]
fn empty_payload_performs_no_transfer() {
    let mut bus = RecordingBus::new();
    assert!(bus.write_data(0x3C, &[]).is_ok());
    assert!(bus.writes().is_empty());
}

#[test]
fn one_byte_payload_is_one_short_transfer() {
    let mut bus = RecordingBus::new();
    bus.write_data(0x10, &[0xAB]).unwrap();
    assert_eq!(bus.writes().as_slice(), &[(0x10, vec![0x40, 0xAB])]);
}

#[test]
fn thirty_three_byte_payload_splits_into_three_transfers() {
    let data = [0u8; 33];
    let mut bus = RecordingBus::new();
    bus.write_data(0x3C, &data).unwrap();
    let writes = bus.writes();
    assert_eq!(writes.len(), 3);
    assert_eq!(writes[0].1.len(), 17);
    assert_eq!(writes[1].1.len(), 17);
    assert_eq!(writes[2].1.len(), 2);
}

#[test]
fn bus_failure_surfaces_and_records_nothing_more() {
    let mut bus = RecordingBus::failing_after(1);
    assert!(bus.write_cmd(0x3C, 0x01).is_ok());
    assert!(bus.write_cmd(0x3C, 0x02).is_err());
    assert_eq!(bus.writes().as_slice(), &[(0x3C, vec![0x00, 0x01])]);
}

#[test]
fn data_transfer_aborts_at_failing_chunk() {
    let data = [9u8; 40];
    let mut bus = RecordingBus::failing_after(2);
    assert!(bus.write_data(0x3C, &data).is_err());
    let writes = bus.writes();
    assert_eq!(writes.len(), 2);
    assert_eq!(writes[0].1.len(), 17);
    assert_eq!(writes[1].1.len(), 17);
}

#[test]
fn raw_write_records_address_and_bytes() {
    let mut bus = RecordingBus::new();
    bus.write(0x42, &[1, 2, 3]).unwrap();
    assert_eq!(bus.writes().as_slice(), &[(0x42, vec![1, 2, 3])]);
}
