use vstd::prelude::*;

verus! {

// Typed constructors for the controller's command bytes. Each returns the
// exact wire bytes of one command: one opcode byte, with its argument
// packed as the controller expects. Pure encoding; no state, no bus.

/// `[0xAF]` to switch the panel on, `[0xAE]` to switch it off.
pub fn display_power(on: bool) -> (r: Vec<u8>)
    ensures
        r@ == seq![if on { 0xAFu8 } else { 0xAEu8 }],
{
    cmd1(if on { 0xAF } else { 0xAE })
}

/// `[0x81, level]`: contrast control.
pub fn contrast(level: u8) -> (r: Vec<u8>)
    ensures
        r@ == seq![0x81u8, level],
{
    cmd2(0x81, level)
}

/// `[0xA8, ratio]`: multiplex ratio.
pub fn multiplex_ratio(ratio: u8) -> (r: Vec<u8>)
    ensures
        r@ == seq![0xA8u8, ratio],
{
    cmd2(0xA8, ratio)
}

/// `[0xD3, offset]`: display offset.
pub fn display_offset(offset: u8) -> (r: Vec<u8>)
    ensures
        r@ == seq![0xD3u8, offset],
{
    cmd2(0xD3, offset)
}

/// `[0xDC, line & 0x7F]`: display start line.
pub fn display_start_line(line: u8) -> (r: Vec<u8>)
    ensures
        r@ == seq![0xDCu8, line & 0x7F],
{
    cmd2(0xDC, line & 0x7F)
}

/// `[0xD5, arg]`: display clock divide ratio and oscillator frequency,
/// packed as one byte, the frequency in the high nibble.
pub fn clock_divide(divide_ratio: u8, oscillator_freq: u8) -> (r: Vec<u8>)
    ensures
        r@ == seq![0xD5u8, (((oscillator_freq & 0x0F) << 4u8) | (divide_ratio & 0x0F)) as u8],
{
    cmd2(0xD5, ((oscillator_freq & 0x0F) << 4u8) | (divide_ratio & 0x0F))
}

/// `[0xAD, 0x8B]` to enable the charge pump, `[0xAD, 0x8A]` to disable it.
pub fn charge_pump(enable: bool) -> (r: Vec<u8>)
    ensures
        r@ == seq![0xADu8, if enable { 0x8Bu8 } else { 0x8Au8 }],
{
    cmd2(0xAD, if enable { 0x8B } else { 0x8A })
}

/// `[0xD9, period]`: pre-charge period.
pub fn pre_charge_period(period: u8) -> (r: Vec<u8>)
    ensures
        r@ == seq![0xD9u8, period],
{
    cmd2(0xD9, period)
}

/// `[0xDB, level]`: VCOM deselect level.
pub fn vcom_deselect_level(level: u8) -> (r: Vec<u8>)
    ensures
        r@ == seq![0xDBu8, level],
{
    cmd2(0xDB, level)
}

/// `[0xA1]` to mirror the segment (column) order, `[0xA0]` for normal.
pub fn segment_remap(remap: bool) -> (r: Vec<u8>)
    ensures
        r@ == seq![if remap { 0xA1u8 } else { 0xA0u8 }],
{
    cmd1(if remap { 0xA1 } else { 0xA0 })
}

/// `[0xC8]` for remapped COM scan direction, `[0xC0]` for normal.
pub fn com_scan_direction(remapped: bool) -> (r: Vec<u8>)
    ensures
        r@ == seq![if remapped { 0xC8u8 } else { 0xC0u8 }],
{
    cmd1(if remapped { 0xC8 } else { 0xC0 })
}

/// `[0xDA, config]`: COM pins hardware configuration.
pub fn com_pins(config: u8) -> (r: Vec<u8>)
    ensures
        r@ == seq![0xDAu8, config],
{
    cmd2(0xDA, config)
}

/// `[0xA5]` to force the entire display on, `[0xA4]` to resume showing RAM.
pub fn entire_display(force_on: bool) -> (r: Vec<u8>)
    ensures
        r@ == seq![if force_on { 0xA5u8 } else { 0xA4u8 }],
{
    cmd1(if force_on { 0xA5 } else { 0xA4 })
}

/// `[0xA7]` for inverted display, `[0xA6]` for normal.
pub fn invert_display(invert: bool) -> (r: Vec<u8>)
    ensures
        r@ == seq![if invert { 0xA7u8 } else { 0xA6u8 }],
{
    cmd1(if invert { 0xA7 } else { 0xA6 })
}

/// `[0xB0 | (page & 0x0F)]`: page address select.
pub fn page_address(page: u8) -> (r: Vec<u8>)
    ensures
        r@ == seq![(0xB0u8 | (page & 0x0F)) as u8],
{
    cmd1(0xB0 | (page & 0x0F))
}

/// `[col & 0x0F]`: lower column address select.
pub fn column_address_low(col: u8) -> (r: Vec<u8>)
    ensures
        r@ == seq![(col & 0x0F) as u8],
{
    cmd1(col & 0x0F)
}

/// `[0x10 | ((col >> 4) & 0x0F)]`: higher column address select.
pub fn column_address_high(col: u8) -> (r: Vec<u8>)
    ensures
        r@ == seq![(0x10u8 | ((col >> 4u8) & 0x0F)) as u8],
{
    cmd1(0x10 | ((col >> 4u8) & 0x0F))
}

/// A one-byte command.
fn cmd1(opcode: u8) -> (r: Vec<u8>)
    ensures
        r@ == seq![opcode],
{
    let mut r: Vec<u8> = Vec::new();
    r.push(opcode);
    proof {
        assert(r@ =~= seq![opcode]);
    }
    r
}

/// A command with one argument byte.
fn cmd2(opcode: u8, arg: u8) -> (r: Vec<u8>)
    ensures
        r@ == seq![opcode, arg],
{
    let mut r: Vec<u8> = Vec::new();
    r.push(opcode);
    r.push(arg);
    proof {
        assert(r@ =~= seq![opcode, arg]);
    }
    r
}

} // verus!
