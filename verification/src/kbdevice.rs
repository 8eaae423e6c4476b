//! Device identity and descriptive data.  A `Device` is the identity tuple
//! used to match devices between two consecutive polls; a `DeviceInfos`
//! adds the descriptor strings read when the device was enumerated.  The
//! application fills both from the enumeration provider and hands them to
//! the reconciliation engine as plain values.

use vstd::prelude::*;

verus! {

/// Identity of an attached device for one poll: the bus and address the
/// operating system assigned plus the descriptor's vendor, product and
/// class codes.  Equality is structural.
#[derive(Clone, Copy, PartialEq, Eq, Structural)]
pub struct Device {
    pub bus: u8,
    pub address: u8,
    pub vendor_id: u16,
    pub product_id: u16,
    pub class_code: u8,
}

impl Device {
    pub fn new(bus: u8, address: u8, vendor_id: u16, product_id: u16, class_code: u8) -> (d:
        Device)
        ensures
            d == (Device { bus, address, vendor_id, product_id, class_code }),
    {
        Device { bus, address, vendor_id, product_id, class_code }
    }
}

/// One enumerated device: its identity and the best-effort descriptor
/// strings, each empty when it could not be read.
pub struct DeviceInfos {
    pub device: Device,
    pub manufacturer: String,
    pub product: String,
    pub serial: String,
}

/// Upper-case hexadecimal digit for a nibble.
pub open spec fn hex_digit(n: int) -> char {
    if n == 0 {
        '0'
    } else if n == 1 {
        '1'
    } else if n == 2 {
        '2'
    } else if n == 3 {
        '3'
    } else if n == 4 {
        '4'
    } else if n == 5 {
        '5'
    } else if n == 6 {
        '6'
    } else if n == 7 {
        '7'
    } else if n == 8 {
        '8'
    } else if n == 9 {
        '9'
    } else if n == 10 {
        'A'
    } else if n == 11 {
        'B'
    } else if n == 12 {
        'C'
    } else if n == 13 {
        'D'
    } else if n == 14 {
        'E'
    } else {
        'F'
    }
}

/// Four upper-case hexadecimal digits of a 16-bit value.
pub open spec fn hex4(v: int) -> Seq<char> {
    seq![
        hex_digit(v / 4096 % 16),
        hex_digit(v / 256 % 16),
        hex_digit(v / 16 % 16),
        hex_digit(v % 16),
    ]
}

/// The `VVVV:PPPP` form of a device's vendor and product ids.
pub open spec fn hex_id(d: Device) -> Seq<char> {
    hex4(d.vendor_id as int) + seq![':'] + hex4(d.product_id as int)
}

/// The display name derived for a device: the product string when present,
/// else the manufacturer string, else the `VVVV:PPPP` hex form.
pub open spec fn spec_name(d: DeviceInfos) -> Seq<char> {
    if d.product@.len() > 0 {
        d.product@
    } else if d.manufacturer@.len() > 0 {
        d.manufacturer@
    } else {
        hex_id(d.device)
    }
}

fn hex_digit_char(n: u16) -> (c: char)
    requires
        n < 16,
    ensures
        c == hex_digit(n as int),
{
    match n {
        0 => '0',
        1 => '1',
        2 => '2',
        3 => '3',
        4 => '4',
        5 => '5',
        6 => '6',
        7 => '7',
        8 => '8',
        9 => '9',
        10 => 'A',
        11 => 'B',
        12 => 'C',
        13 => 'D',
        14 => 'E',
        _ => 'F',
    }
}

/// Appends the four upper-case hex digits of `v` to `out`.
fn push_hex4(out: &mut String, v: u16)
    ensures
        final(out)@ == old(out)@ + hex4(v as int),
{
    out.push(hex_digit_char(v / 4096 % 16));
    out.push(hex_digit_char(v / 256 % 16));
    out.push(hex_digit_char(v / 16 % 16));
    out.push(hex_digit_char(v % 16));
    proof {
        assert(out@ =~= old(out)@ + hex4(v as int));
    }
}

/// The `VVVV:PPPP` hex form of a device, as checked against the ignore
/// list.
pub fn hex_form(d: &Device) -> (r: String)
    ensures
        r@ == hex_id(*d),
{
    let mut r = String::new();
    push_hex4(&mut r, d.vendor_id);
    r.push(':');
    push_hex4(&mut r, d.product_id);
    proof {
        assert(r@ =~= hex_id(*d));
    }
    r
}

impl DeviceInfos {
    /// Bundles an identity with the descriptor strings the provider read
    /// for it; a string that could not be read is passed as empty.
    pub fn new(device: Device, manufacturer: String, product: String, serial: String) -> (r:
        DeviceInfos)
        ensures
            r.device == device,
            r.manufacturer == manufacturer,
            r.product == product,
            r.serial == serial,
    {
        DeviceInfos { device, manufacturer, product, serial }
    }

    pub fn get_name(&self) -> (r: String)
        ensures
            r@ == spec_name(*self),
    {
        if !self.product.as_str().is_empty() {
            self.product.clone()
        } else if !self.manufacturer.as_str().is_empty() {
            self.manufacturer.clone()
        } else {
            hex_form(&self.device)
        }
    }
}

/// A copy of one enumerated entry, field for field.
pub fn clone_infos(d: &DeviceInfos) -> (r: DeviceInfos)
    ensures
        r == *d,
{
    DeviceInfos {
        device: d.device,
        manufacturer: d.manufacturer.clone(),
        product: d.product.clone(),
        serial: d.serial.clone(),
    }
}

} // verus!
