//! Vendor control transfers to the device: the setup fields and data stage of each
//! request, built from plain values.
use vstd::prelude::*;

verus! {

/// Direction bit of a host-to-device transfer.
pub const ENDPOINT_OUT: u8 = 0x00;

/// Direction bit of a device-to-host transfer.
pub const ENDPOINT_IN: u8 = 0x80;

/// Request-type bits of a vendor request.
pub const REQUEST_TYPE_VENDOR: u8 = 0x40;

/// Recipient bits of a request addressed to the device.
pub const RECIPIENT_DEVICE: u8 = 0x00;

/// Vendor request that reads or writes the device's internal RAM.
pub const RW_INTERNAL: u8 = 0xA0;

/// Time allowed for one control transfer, in milliseconds.
pub const CONTROL_TIMEOUT_MS: u64 = 1000;

/// Largest data stage that one control transfer carries.
pub const MAX_CONTROL_DATA: usize = 0xFFFF;

/// The setup fields of a vendor control transfer, with its data stage.
pub struct ControlRequest {
    pub request_type: u8,
    pub request: u8,
    pub value: u16,
    pub index: u16,
    pub data: Vec<u8>,
}

/// The low 16 bits of an address, the `value` of a RAM transfer.
pub open spec fn addr_low(address: u32) -> u16 {
    (address as int % 0x1_0000) as u16
}

/// The high 16 bits of an address, the `index` of a RAM transfer.
pub open spec fn addr_high(address: u32) -> u16 {
    (address as int / 0x1_0000) as u16
}

/// Splits a 32-bit RAM address into the `value` (low half) and `index` (high half)
/// fields of a control transfer.
pub fn split_address(address: u32) -> (r: (u16, u16))
    ensures
        r.0 == addr_low(address),
        r.1 == addr_high(address),
        r.0 as int + 0x1_0000 * r.1 as int == address as int,
{
    ((address % 0x1_0000) as u16, (address / 0x1_0000) as u16)
}

/// The control transfer that writes `data` into device RAM at `address`.
pub fn ram_write_request(address: u32, data: &[u8]) -> (r: ControlRequest)
    ensures
        r.request_type == ENDPOINT_OUT | REQUEST_TYPE_VENDOR | RECIPIENT_DEVICE,
        r.request == RW_INTERNAL,
        r.value == addr_low(address),
        r.index == addr_high(address),
        r.data@ == data@,
{
    let (value, index) = split_address(address);
    let mut bytes: Vec<u8> = Vec::new();
    let mut i: usize = 0;
    while i < data.len()
        invariant
            i <= data@.len(),
            bytes@ == data@.subrange(0, i as int),
        decreases data@.len() - i,
    {
        bytes.push(data[i]);
        i = i + 1;
        proof {
            assert(bytes@ =~= data@.subrange(0, i as int));
        }
    }
    proof {
        assert(bytes@ =~= data@);
    }
    ControlRequest {
        request_type: ENDPOINT_OUT | REQUEST_TYPE_VENDOR | RECIPIENT_DEVICE,
        request: RW_INTERNAL,
        value,
        index,
        data: bytes,
    }
}

/// The control transfer that reads `len` bytes of device RAM at `address`; its data
/// stage is the zeroed buffer that the device fills.
pub fn ram_read_request(address: u32, len: usize) -> (r: ControlRequest)
    ensures
        r.request_type == ENDPOINT_IN | REQUEST_TYPE_VENDOR | RECIPIENT_DEVICE,
        r.request == RW_INTERNAL,
        r.value == addr_low(address),
        r.index == addr_high(address),
        r.data@ == Seq::new(len as nat, |i: int| 0u8),
{
    let (value, index) = split_address(address);
    let mut buf: Vec<u8> = Vec::new();
    let mut i: usize = 0;
    while i < len
        invariant
            i <= len,
            buf@ == Seq::new(i as nat, |j: int| 0u8),
        decreases len - i,
    {
        buf.push(0u8);
        i = i + 1;
        proof {
            assert(buf@ =~= Seq::new(i as nat, |j: int| 0u8));
        }
    }
    ControlRequest {
        request_type: ENDPOINT_IN | REQUEST_TYPE_VENDOR | RECIPIENT_DEVICE,
        request: RW_INTERNAL,
        value,
        index,
        data: buf,
    }
}

} // verus!
