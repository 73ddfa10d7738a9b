//! End-to-end behaviour of the display controller: reset, the configuration
//! sequence, pixel mutation, and the full-frame draw.

use ssd1306::platform::{RecordingDelay, RecordingPin};
use ssd1306::transport::RecordingBus;
use ssd1306::{RangeError, Ssd1306, ADDRESS};

fn cmd_writes(bytes: &[u8]) -> Vec<(u8, Vec<u8>)> {
    bytes.iter().map(|&b| (ADDRESS, vec![0x00, b])).collect()
}

const INIT_BYTES_128X32: [u8; 26] = [
    0xAE, // display off
    0xD5, 0x80, // clock divide: fosc 0x8, ratio 0x0
    0xA8, 0x1F, // multiplex: height - 1
    0xD3, 0x00, // display offset 0
    0x40, // start line 0
    0x8D, 0x14, // charge pump on
    0x20, 0x00, // horizontal addressing mode
    0xA1, // segment remap on
    0xC8, // reverse COM direction
    0xDA, 0x02, // COM pins: sequential, no remap
    0x81, 0x8F, // contrast
    0xD9, 0xF1, // precharge: phase 1 = 0x1, phase 2 = 0xF
    0xDB, 0x40, // Vcomh deselect: auto
    0xA4, // all-on off
    0xA6, // invert off
    0x2E, // scrolling off
    0xAF, // display on
];

#[test]
fn init_sends_the_documented_sequence() {
    let mut disp = Ssd1306::new(RecordingBus::new(), ADDRESS, 128, 32);
    disp.init().unwrap();
    let bus = disp.free();
    assert_eq!(*bus.writes(), cmd_writes(&INIT_BYTES_128X32));
}

#[test]
fn draw_sends_address_ranges_then_chunked_frame() {
    let mut disp = Ssd1306::new(RecordingBus::new(), ADDRESS, 128, 32);
    disp.draw().unwrap();
    let bus = disp.free();
    let writes = bus.writes();

    let mut expected = cmd_writes(&[0x21, 0, 127]);
    expected.extend(cmd_writes(&[0x22, 0, 3]));
    // 128 * 32 / 8 = 512 zero bytes, chunked into 32 transfers of 16.
    for _ in 0..32 {
        let mut chunk = vec![0x40];
        chunk.extend_from_slice(&[0u8; 16]);
        expected.push((ADDRESS, chunk));
    }
    assert_eq!(*writes, expected);
}

#[test]
fn init_then_draw_streams_everything_in_order() {
    let mut disp = Ssd1306::new(RecordingBus::new(), ADDRESS, 128, 32);
    disp.init().unwrap();
    disp.draw().unwrap();
    let bus = disp.free();
    // 26 command transfers, then 3 + 3 command transfers, then 32 data chunks.
    assert_eq!(bus.writes().len(), 26 + 6 + 32);
}

#[test]
fn init_aborts_at_first_bus_error() {
    let mut disp = Ssd1306::new(RecordingBus::failing_after(3), ADDRESS, 128, 32);
    assert!(disp.init().is_err());
    let bus = disp.free();
    assert_eq!(*bus.writes(), cmd_writes(&INIT_BYTES_128X32[..3]));
}

#[test]
fn draw_propagates_data_stage_error() {
    let mut disp = Ssd1306::new(RecordingBus::failing_after(10), ADDRESS, 128, 32);
    assert!(disp.draw().is_err());
    let bus = disp.free();
    // 6 command transfers went through, then 4 data chunks before the fault.
    assert_eq!(bus.writes().len(), 10);
}

#[test]
fn reset_drives_high_low_high_with_documented_pauses() {
    let mut disp = Ssd1306::new(RecordingBus::new(), ADDRESS, 128, 32);
    let (pin, delay) = disp.reset(RecordingPin::new(), RecordingDelay::new());
    assert_eq!(*pin.driven(), vec![true, false, true]);
    assert_eq!(*delay.asked(), vec![1, 10]);
    // Nothing goes over the bus during reset.
    assert!(disp.free().writes().is_empty());
}

#[test]
fn set_then_clear_pixel_restores_a_cleared_frame() {
    let mut disp = Ssd1306::new(RecordingBus::new(), ADDRESS, 128, 32);
    disp.pixel_on(3, 5).unwrap();
    // Pixel (3, 5) lives in byte (5 / 8) * 128 + 3 = 3, bit 5.
    assert_eq!(disp.as_bytes()[3], 0x20);
    disp.pixel_off(3, 5).unwrap();
    assert!(disp.as_bytes().iter().all(|&b| b == 0));
}

#[test]
fn invert_pixel_twice_is_identity() {
    let mut disp = Ssd1306::new(RecordingBus::new(), ADDRESS, 128, 32);
    disp.pixel_on(10, 9).unwrap();
    let before = disp.as_bytes().clone();
    disp.invert_pixel(10, 9).unwrap();
    assert_eq!(disp.as_bytes()[(9 / 8) * 128 + 10], 0x00);
    disp.invert_pixel(10, 9).unwrap();
    assert_eq!(*disp.as_bytes(), before);
}

#[test]
fn pixel_ops_leave_other_pixels_alone() {
    let mut disp = Ssd1306::new(RecordingBus::new(), ADDRESS, 128, 32);
    disp.pixel_on(0, 0).unwrap();
    disp.pixel_on(127, 31).unwrap();
    disp.pixel_off(0, 0).unwrap();
    // Byte of (127, 31): (31 / 8) * 128 + 127 = 511, bit 31 % 8 = 7.
    assert_eq!(disp.as_bytes()[511], 0x80);
    assert_eq!(disp.as_bytes()[0], 0x00);
}

#[test]
fn clear_zeroes_every_byte() {
    let mut disp = Ssd1306::new(RecordingBus::new(), ADDRESS, 128, 32);
    disp.pixel_on(1, 1).unwrap();
    disp.pixel_on(100, 20).unwrap();
    disp.clear();
    assert_eq!(disp.as_bytes().len(), 512);
    assert!(disp.as_bytes().iter().all(|&b| b == 0));
}

#[test]
fn out_of_range_pixels_are_reported_not_applied() {
    let mut disp = Ssd1306::new(RecordingBus::new(), ADDRESS, 128, 32);
    assert_eq!(disp.pixel_on(128, 0), Err(RangeError::PixelOutOfBounds));
    assert_eq!(disp.pixel_off(0, 32), Err(RangeError::PixelOutOfBounds));
    assert_eq!(disp.invert_pixel(200, 200), Err(RangeError::PixelOutOfBounds));
    assert!(disp.as_bytes().iter().all(|&b| b == 0));
}

#[test]
fn free_returns_the_transport_with_its_history() {
    let mut disp = Ssd1306::new(RecordingBus::new(), ADDRESS, 64, 48);
    disp.draw().unwrap();
    let bus = disp.free();
    // 64 * 48 / 8 = 384 bytes: 6 command transfers then 24 data chunks.
    assert_eq!(bus.writes().len(), 6 + 24);
    assert_eq!(bus.writes()[3], (ADDRESS, vec![0x00, 0x22]));
    assert_eq!(bus.writes()[5], (ADDRESS, vec![0x00, 0x05]));
}
