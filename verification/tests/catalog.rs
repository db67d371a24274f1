use sh1107g::cmds::charge_pump;
use sh1107g::cmds::clock_divide;
use sh1107g::cmds::column_address_high;
use sh1107g::cmds::column_address_low;
use sh1107g::cmds::com_pins;
use sh1107g::cmds::com_scan_direction;
use sh1107g::cmds::contrast;
use sh1107g::cmds::display_offset;
use sh1107g::cmds::display_power;
use sh1107g::cmds::display_start_line;
use sh1107g::cmds::entire_display;
use sh1107g::cmds::invert_display;
use sh1107g::cmds::multiplex_ratio;
use sh1107g::cmds::page_address;
use sh1107g::cmds::pre_charge_period;
use sh1107g::cmds::segment_remap;
use sh1107g::cmds::vcom_deselect_level;

#[test]
fn contrast_bytes() {
    assert_eq!(contrast(0x2F), vec![0x81, 0x2F]);
    assert_eq!(contrast(0x00), vec![0x81, 0x00]);
    assert_eq!(contrast(0xFF), vec![0x81, 0xFF]);
}

#[test]
fn display_offset_bytes() {
    assert_eq!(display_offset(0x60), vec![0xD3, 0x60]);
    assert_eq!(display_offset(0x00), vec![0xD3, 0x00]);
}

#[test]
fn page_address_bytes() {
    assert_eq!(page_address(5), vec![0xB5]);
    assert_eq!(page_address(0), vec![0xB0]);
    assert_eq!(page_address(15), vec![0xBF]);
    // Only the low nibble of the page number reaches the opcode.
    assert_eq!(page_address(0x15), vec![0xB5]);
}

#[test]
fn charge_pump_bytes() {
    assert_eq!(charge_pump(true), vec![0xAD, 0x8B]);
    assert_eq!(charge_pump(false), vec![0xAD, 0x8A]);
}

#[test]
fn display_power_bytes() {
    assert_eq!(display_power(true), vec![0xAF]);
    assert_eq!(display_power(false), vec![0xAE]);
}

#[test]
fn multiplex_ratio_bytes() {
    assert_eq!(multiplex_ratio(0x7F), vec![0xA8, 0x7F]);
}

#[test]
fn display_start_line_bytes() {
    assert_eq!(display_start_line(0x00), vec![0xDC, 0x00]);
    assert_eq!(display_start_line(0x45), vec![0xDC, 0x45]);
    // The line number is masked to seven bits.
    assert_eq!(display_start_line(0xFF), vec![0xDC, 0x7F]);
}

#[test]
fn clock_divide_packs_nibbles() {
    // Frequency nibble high, divide-ratio nibble low.
    assert_eq!(clock_divide(0x01, 0x05), vec![0xD5, 0x51]);
    assert_eq!(clock_divide(0x00, 0x00), vec![0xD5, 0x00]);
    assert_eq!(clock_divide(0x0F, 0x0F), vec![0xD5, 0xFF]);
    // Only the low nibble of each argument is packed.
    assert_eq!(clock_divide(0x21, 0x35), vec![0xD5, 0x51]);
}

#[test]
fn pre_charge_period_bytes() {
    assert_eq!(pre_charge_period(0x22), vec![0xD9, 0x22]);
}

#[test]
fn vcom_deselect_level_bytes() {
    assert_eq!(vcom_deselect_level(0x35), vec![0xDB, 0x35]);
}

#[test]
fn segment_remap_bytes() {
    assert_eq!(segment_remap(true), vec![0xA1]);
    assert_eq!(segment_remap(false), vec![0xA0]);
}

#[test]
fn com_scan_direction_bytes() {
    assert_eq!(com_scan_direction(true), vec![0xC8]);
    assert_eq!(com_scan_direction(false), vec![0xC0]);
}

#[test]
fn com_pins_bytes() {
    assert_eq!(com_pins(0x12), vec![0xDA, 0x12]);
}

#[test]
fn entire_display_bytes() {
    assert_eq!(entire_display(false), vec![0xA4]);
    assert_eq!(entire_display(true), vec![0xA5]);
}

#[test]
fn invert_display_bytes() {
    assert_eq!(invert_display(false), vec![0xA6]);
    assert_eq!(invert_display(true), vec![0xA7]);
}

#[test]
fn column_address_bytes() {
    assert_eq!(column_address_low(0x00), vec![0x00]);
    assert_eq!(column_address_high(0x00), vec![0x10]);
    assert_eq!(column_address_low(0x5A), vec![0x0A]);
    assert_eq!(column_address_high(0x5A), vec![0x15]);
    assert_eq!(column_address_low(0x7F), vec![0x0F]);
    assert_eq!(column_address_high(0x7F), vec![0x17]);
}
