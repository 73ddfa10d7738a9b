//! Byte-exact checks of every command encoding.

use ssd1306::cmd::{AddrMode, Command, HScrollDir, NFrames, Page, VHScrollDir, VcomhLevel};
use ssd1306::RangeError;

#[test]
fn contrast_encodes_exactly() {
    assert_eq!(Command::Contrast(0x8F).encode(), vec![0x81, 0x8F]);
    assert_eq!(Command::Contrast(0x00).encode(), vec![0x81, 0x00]);
}

#[test]
fn charge_pump_encodes_exactly() {
    assert_eq!(Command::ChargePump(true).encode(), vec![0x8D, 0x14]);
    assert_eq!(Command::ChargePump(false).encode(), vec![0x8D, 0x10]);
}

#[test]
fn page_address_encodes_exactly() {
    assert_eq!(
        Command::PageAddress(Page::Page1, Page::Page3).encode(),
        vec![0x22, 0x01, 0x03]
    );
    assert_eq!(
        Command::PageAddress(Page::Page0, Page::Page7).encode(),
        vec![0x22, 0x00, 0x07]
    );
}

#[test]
fn all_on_encodes_low_bit() {
    assert_eq!(Command::AllOn(false).encode(), vec![0xA4]);
    assert_eq!(Command::AllOn(true).encode(), vec![0xA5]);
}

#[test]
fn invert_encodes_low_bit() {
    assert_eq!(Command::Invert(false).encode(), vec![0xA6]);
    assert_eq!(Command::Invert(true).encode(), vec![0xA7]);
}

#[test]
fn display_on_encodes_low_bit() {
    assert_eq!(Command::DisplayOn(false).encode(), vec![0xAE]);
    assert_eq!(Command::DisplayOn(true).encode(), vec![0xAF]);
}

#[test]
fn hscroll_setup_encodes_exactly() {
    assert_eq!(
        Command::HScrollSetup(HScrollDir::LeftToRight, Page::Page0, Page::Page7, NFrames::F2)
            .encode(),
        vec![0x26, 0x00, 0x00, 0x07, 0x07, 0x00, 0xFF]
    );
    assert_eq!(
        Command::HScrollSetup(HScrollDir::RightToLeft, Page::Page2, Page::Page5, NFrames::F5)
            .encode(),
        vec![0x27, 0x00, 0x02, 0x00, 0x05, 0x00, 0xFF]
    );
}

#[test]
fn vhscroll_setup_encodes_exactly() {
    assert_eq!(
        Command::VHScrollSetup(
            VHScrollDir::VerticalRight,
            Page::Page1,
            Page::Page6,
            NFrames::F25,
            17
        )
        .encode(),
        vec![0x29, 0x00, 0x01, 0x06, 0x06, 17]
    );
    assert_eq!(
        Command::VHScrollSetup(
            VHScrollDir::VerticalLeft,
            Page::Page0,
            Page::Page0,
            NFrames::F256,
            0
        )
        .encode(),
        vec![0x2A, 0x00, 0x00, 0x03, 0x00, 0x00]
    );
}

#[test]
fn enable_scroll_encodes_low_bit() {
    assert_eq!(Command::EnableScroll(false).encode(), vec![0x2E]);
    assert_eq!(Command::EnableScroll(true).encode(), vec![0x2F]);
}

#[test]
fn vscroll_area_encodes_exactly() {
    assert_eq!(Command::VScrollArea(8, 48).encode(), vec![0xA3, 8, 48]);
}

#[test]
fn lower_col_start_keeps_low_nibble() {
    assert_eq!(Command::LowerColStart(0xAB).encode(), vec![0x0B]);
    assert_eq!(Command::LowerColStart(0x04).encode(), vec![0x04]);
}

#[test]
fn upper_col_start_keeps_low_bits() {
    assert_eq!(Command::UpperColStart(0xFF).encode(), vec![0x1F]);
    assert_eq!(Command::UpperColStart(0x12).encode(), vec![0x12]);
}

#[test]
fn address_mode_encodes_ordinal() {
    assert_eq!(Command::AddressMode(AddrMode::Horizontal).encode(), vec![0x20, 0x00]);
    assert_eq!(Command::AddressMode(AddrMode::Vertical).encode(), vec![0x20, 0x01]);
    assert_eq!(Command::AddressMode(AddrMode::Page).encode(), vec![0x20, 0x02]);
}

#[test]
fn column_address_encodes_exactly() {
    assert_eq!(Command::ColumnAddress(0, 127).encode(), vec![0x21, 0, 127]);
}

#[test]
fn page_start_encodes_ordinal() {
    assert_eq!(Command::PageStart(Page::Page0).encode(), vec![0xB0]);
    assert_eq!(Command::PageStart(Page::Page6).encode(), vec![0xB6]);
}

#[test]
fn start_line_keeps_six_bits() {
    assert_eq!(Command::StartLine(0).encode(), vec![0x40]);
    assert_eq!(Command::StartLine(63).encode(), vec![0x7F]);
    assert_eq!(Command::StartLine(0xC1).encode(), vec![0x41]);
}

#[test]
fn segment_remap_encodes_low_bit() {
    assert_eq!(Command::SegmentRemap(false).encode(), vec![0xA0]);
    assert_eq!(Command::SegmentRemap(true).encode(), vec![0xA1]);
}

#[test]
fn multiplex_encodes_exactly() {
    assert_eq!(Command::Multiplex(31).encode(), vec![0xA8, 31]);
}

#[test]
fn reverse_com_dir_encodes_bit_three() {
    assert_eq!(Command::ReverseComDir(false).encode(), vec![0xC0]);
    assert_eq!(Command::ReverseComDir(true).encode(), vec![0xC8]);
}

#[test]
fn display_offset_encodes_exactly() {
    assert_eq!(Command::DisplayOffset(19).encode(), vec![0xD3, 19]);
}

#[test]
fn com_pin_config_encodes_bits_four_and_five() {
    assert_eq!(Command::ComPinConfig(false, false).encode(), vec![0xDA, 0x02]);
    assert_eq!(Command::ComPinConfig(true, false).encode(), vec![0xDA, 0x12]);
    assert_eq!(Command::ComPinConfig(false, true).encode(), vec![0xDA, 0x22]);
    assert_eq!(Command::ComPinConfig(true, true).encode(), vec![0xDA, 0x32]);
}

#[test]
fn display_clock_div_packs_nibbles() {
    assert_eq!(Command::DisplayClockDiv(0x8, 0x0).encode(), vec![0xD5, 0x80]);
    assert_eq!(Command::DisplayClockDiv(0xF3, 0x2A).encode(), vec![0xD5, 0x3A]);
}

#[test]
fn precharge_period_packs_nibbles() {
    assert_eq!(Command::PreChargePeriod(0x1, 0xF).encode(), vec![0xD9, 0xF1]);
    assert_eq!(Command::PreChargePeriod(0x22, 0x13).encode(), vec![0xD9, 0x32]);
}

#[test]
fn vcomh_deselect_encodes_shifted_ordinal() {
    assert_eq!(Command::VcomhDeselect(VcomhLevel::V065).encode(), vec![0xDB, 0x10]);
    assert_eq!(Command::VcomhDeselect(VcomhLevel::V077).encode(), vec![0xDB, 0x20]);
    assert_eq!(Command::VcomhDeselect(VcomhLevel::V083).encode(), vec![0xDB, 0x30]);
    assert_eq!(Command::VcomhDeselect(VcomhLevel::Auto).encode(), vec![0xDB, 0x40]);
}

#[test]
fn noop_encodes_exactly() {
    assert_eq!(Command::Noop.encode(), vec![0xE3]);
}

#[test]
fn nframes_encode_documented_ordinals() {
    let cases = [
        (NFrames::F2, 0b111),
        (NFrames::F3, 0b100),
        (NFrames::F4, 0b101),
        (NFrames::F5, 0b000),
        (NFrames::F25, 0b110),
        (NFrames::F64, 0b001),
        (NFrames::F128, 0b010),
        (NFrames::F256, 0b011),
    ];
    for (f, v) in cases {
        assert_eq!(f.value(), v);
    }
}

#[test]
fn page_from_row_divides_by_eight() {
    assert_eq!(Page::from_row(0), Ok(Page::Page0));
    assert_eq!(Page::from_row(7), Ok(Page::Page0));
    assert_eq!(Page::from_row(8), Ok(Page::Page1));
    assert_eq!(Page::from_row(31), Ok(Page::Page3));
    assert_eq!(Page::from_row(63), Ok(Page::Page7));
}

#[test]
fn page_from_row_rejects_rows_beyond_last_page() {
    assert_eq!(Page::from_row(64), Err(RangeError::PageOutOfRange));
    assert_eq!(Page::from_row(255), Err(RangeError::PageOutOfRange));
}
