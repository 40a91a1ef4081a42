//! The WCH-Link vendor driver: the byte layout of its I/O-control requests
//! and replies, the device descriptor it reports, and the description of the
//! probes it exposes.
//!
//! The application uses this driver as the platform backend of Windows x86,
//! in place of the CH375 DLL backend of the original.
//!
//! Multi-byte fields travel little-endian, the byte order of the machines the
//! driver runs on.

use vstd::prelude::*;

use crate::error::Error;
use crate::text::{
    decimal, hex4, hex_digit_value, is_dec_digit, lemma_decimal_digits, push_decimal, push_hex4,
};

verus! {

/// Bytes in front of the payload of every driver request.
pub const HEADER_LEN: usize = 8;

/// Bytes in a USB device descriptor.
pub const DEVICE_DESCRIPTOR_LEN: usize = 18;

/// A request for the driver's I/O control: the buffer it is handed, how many
/// leading bytes of it are input, and how many bytes the driver may write back
/// into it.
pub struct DriverCommand {
    pub buffer: Vec<u8>,
    pub in_size: usize,
    pub out_size: usize,
}

/// `x` as four little-endian bytes.
pub open spec fn le_u32(x: u32) -> Seq<u8> {
    seq![
        (x % 256) as u8,
        ((x / 256) % 256) as u8,
        ((x / 65536) % 256) as u8,
        (x / 16777216) as u8,
    ]
}

/// The number that four little-endian bytes denote.
pub open spec fn le_u32_value(b: Seq<u8>) -> int {
    b[0] + b[1] * 256 + b[2] * 65536 + b[3] * 16777216
}

/// The number that two little-endian bytes denote.
pub open spec fn le_u16_value(b0: u8, b1: u8) -> u16 {
    (b0 + b1 * 256) as u16
}

/// Four little-endian bytes read back as the number they were made from: the
/// length and timeout fields of a request carry their value exactly.
pub proof fn lemma_le_u32_roundtrip(x: u32)
    ensures
        le_u32(x).len() == 4,
        le_u32_value(le_u32(x)) == x,
{
    let b = le_u32(x);
    assert(b[0] == x % 256);
    assert(b[1] == (x / 256) % 256);
    assert(b[2] == (x / 65536) % 256);
    assert(b[3] == x / 16777216);
}

/// Appends `x` as four little-endian bytes.
fn push_le_u32(v: &mut Vec<u8>, x: u32)
    ensures
        final(v)@ == old(v)@ + le_u32(x),
{
    v.push((x % 256) as u8);
    v.push(((x / 256) % 256) as u8);
    v.push(((x / 65536) % 256) as u8);
    v.push((x / 16777216) as u8);
    assert(v@ =~= old(v)@ + le_u32(x));
}

/// Appends `n` zero bytes.
fn push_zeros(v: &mut Vec<u8>, n: usize)
    ensures
        final(v)@ == old(v)@ + Seq::new(n as nat, |i: int| 0u8),
{
    let mut i: usize = 0;
    while i < n
        invariant
            i <= n,
            v@ == old(v)@ + Seq::new(i as nat, |k: int| 0u8),
        decreases n - i,
    {
        v.push(0u8);
        i += 1;
        assert(v@ =~= old(v)@ + Seq::new(i as nat, |k: int| 0u8));
    }
}

/// The bytes of a request to read `len` bytes from endpoint `ep`: the header
/// (endpoint number without its direction bit, minus one; read code 0x01;
/// length), then room for the reply.
pub open spec fn read_request_bytes(ep: u8, len: usize) -> Seq<u8> {
    seq![((ep % 128) - 1) as u8, 0u8, 0x01u8, 0u8] + le_u32(len as u32) + Seq::new(
        len as nat,
        |i: int| 0u8,
    )
}

/// The request that reads `len` bytes from endpoint `ep`.
pub fn read_endpoint_request(ep: u8, len: usize) -> (c: DriverCommand)
    requires
        ep % 128 >= 1,
        len <= usize::MAX - HEADER_LEN,
    ensures
        c.buffer@ == read_request_bytes(ep, len),
        c.in_size == HEADER_LEN,
        c.out_size == HEADER_LEN + len,
{
    assert(ep & 0x7f == ep % 128) by (bit_vector);
    let mut buffer: Vec<u8> = Vec::new();
    buffer.push((ep & 0x7f) - 1);
    buffer.push(0);
    buffer.push(0x01);
    buffer.push(0);
    push_le_u32(&mut buffer, len as u32);
    push_zeros(&mut buffer, len);
    assert(buffer@ =~= read_request_bytes(ep, len));
    DriverCommand { buffer, in_size: HEADER_LEN, out_size: HEADER_LEN + len }
}

/// The payload length that a read reply reports in its header.
pub open spec fn reported_len(reply: Seq<u8>) -> int {
    le_u32_value(reply.subrange(4, 8))
}

/// Takes the payload of a read reply into `buf`: the reported length, where
/// it fits into `buf`, with that many payload bytes at the front of `buf`;
/// `InvalidPayloadLength` with `buf` untouched where it does not fit.
pub fn read_endpoint_response(reply: &[u8], buf: &mut [u8]) -> (r: Result<usize, Error>)
    requires
        reply@.len() >= HEADER_LEN + old(buf)@.len(),
    ensures
        r is Ok <==> reported_len(reply@) <= old(buf)@.len(),
        r matches Ok(n) ==> n == reported_len(reply@) && final(buf)@ == reply@.subrange(
            8,
            8 + n,
        ) + old(buf)@.subrange(n as int, old(buf)@.len() as int),
        r matches Err(e) ==> e == Error::InvalidPayloadLength && final(buf)@ == old(buf)@,
{
    let length = (reply[4] as u32 + (reply[5] as u32) * 256 + (reply[6] as u32) * 65536 + (
    reply[7] as u32) * 16777216) as usize;
    assert(length == reported_len(reply@));
    if length > buf.len() {
        return Err(Error::InvalidPayloadLength);
    }
    let reply_len = reply.len();
    let mut i: usize = 0;
    while i < length
        invariant
            reply_len == reply@.len(),
            i <= length,
            length <= buf@.len(),
            buf@.len() == old(buf)@.len(),
            reply@.len() >= HEADER_LEN + old(buf)@.len(),
            forall|k: int| 0 <= k < i ==> #[trigger] buf@[k] == reply@[8 + k],
            forall|k: int| i <= k < buf@.len() ==> #[trigger] buf@[k] == old(buf)@[k],
        decreases length - i,
    {
        buf[i] = reply[8 + i];
        i += 1;
    }
    assert(buf@ =~= reply@.subrange(8, 8 + length as int) + old(buf)@.subrange(
        length as int,
        old(buf)@.len() as int,
    ));
    Ok(length)
}

/// A read reply whose length field is the one of the request (the device
/// filled all the room it was given) reports exactly the requested length, so
/// `read_endpoint_response` accepts it whole.
pub proof fn lemma_full_read_reply_accepted(ep: u8, len: usize, reply: Seq<u8>)
    requires
        len <= u32::MAX,
        reply.len() >= HEADER_LEN + len,
        reply.subrange(4, 8) == read_request_bytes(ep, len).subrange(4, 8),
    ensures
        reported_len(reply) == len,
{
    lemma_le_u32_roundtrip(len as u32);
    assert(read_request_bytes(ep, len).subrange(4, 8) =~= le_u32(len as u32));
}

/// The bytes of a request to write `data` to endpoint `ep`: the header
/// (endpoint number minus one; write code 0x02; length), then the data.
pub open spec fn write_request_bytes(ep: u8, data: Seq<u8>) -> Seq<u8> {
    seq![(ep - 1) as u8, 0u8, 0x02u8, 0u8] + le_u32(data.len() as u32) + data
}

/// The request that writes `data` to endpoint `ep`.
pub fn write_endpoint_request(ep: u8, data: &[u8]) -> (c: DriverCommand)
    requires
        ep >= 1,
        data@.len() <= usize::MAX - HEADER_LEN,
    ensures
        c.buffer@ == write_request_bytes(ep, data@),
        c.in_size == HEADER_LEN + data@.len(),
        c.out_size == HEADER_LEN,
{
    let mut buffer: Vec<u8> = Vec::new();
    buffer.push(ep - 1);
    buffer.push(0);
    buffer.push(0x02);
    buffer.push(0);
    push_le_u32(&mut buffer, data.len() as u32);
    let mut i: usize = 0;
    while i < data.len()
        invariant
            i <= data@.len(),
            buffer@ == seq![(ep - 1) as u8, 0u8, 0x02u8, 0u8] + le_u32(data@.len() as u32)
                + data@.subrange(0, i as int),
        decreases data@.len() - i,
    {
        buffer.push(data[i]);
        i += 1;
        assert(buffer@ =~= seq![(ep - 1) as u8, 0u8, 0x02u8, 0u8] + le_u32(data@.len() as u32)
            + data@.subrange(0, i as int));
    }
    assert(data@.subrange(0, data@.len() as int) =~= data@);
    let in_size = HEADER_LEN + data.len();
    DriverCommand { buffer, in_size, out_size: HEADER_LEN }
}

/// A write request carries the data unchanged after its header, and its
/// length field reads back as the data's length.
pub proof fn lemma_write_request_layout(ep: u8, data: Seq<u8>)
    requires
        data.len() <= u32::MAX,
    ensures
        write_request_bytes(ep, data).len() == HEADER_LEN + data.len(),
        write_request_bytes(ep, data).subrange(8, HEADER_LEN + data.len()) == data,
        le_u32_value(write_request_bytes(ep, data).subrange(4, 8)) == data.len(),
{
    let b = write_request_bytes(ep, data);
    lemma_le_u32_roundtrip(data.len() as u32);
    assert(b.subrange(4, 8) =~= le_u32(data.len() as u32));
    assert(b.subrange(8, HEADER_LEN + data.len()) =~= data);
}

/// The bytes of a request that sets the driver's transfer timeouts to
/// `timeout_ms` milliseconds (cut to 32 bits): the code 0x0F, the length 16,
/// then the timeout four times.
pub open spec fn timeout_request_bytes(timeout_ms: u128) -> Seq<u8> {
    let t = le_u32(timeout_ms as u32);
    seq![0x0Fu8, 0u8, 0u8, 0u8, 0x10u8, 0u8, 0u8, 0u8] + t + t + t + t
}

/// The request that sets the driver's transfer timeouts.
pub fn set_timeout_request(timeout_ms: u128) -> (c: DriverCommand)
    ensures
        c.buffer@ == timeout_request_bytes(timeout_ms),
        c.in_size == 24,
        c.out_size == 24,
{
    let ds = timeout_ms as u32;
    let mut buffer: Vec<u8> = Vec::new();
    buffer.push(0x0F);
    buffer.push(0);
    buffer.push(0);
    buffer.push(0);
    buffer.push(0x10);
    buffer.push(0);
    buffer.push(0);
    buffer.push(0);
    push_le_u32(&mut buffer, ds);
    push_le_u32(&mut buffer, ds);
    push_le_u32(&mut buffer, ds);
    push_le_u32(&mut buffer, ds);
    assert(buffer@ =~= timeout_request_bytes(timeout_ms));
    let len = buffer.len();
    DriverCommand { buffer, in_size: len, out_size: len }
}

/// Each of the four timeout fields of a timeout request reads back as the
/// timeout, cut to 32 bits.
pub proof fn lemma_timeout_fields(timeout_ms: u128, field: int)
    requires
        0 <= field < 4,
    ensures
        timeout_request_bytes(timeout_ms).len() == 24,
        le_u32_value(timeout_request_bytes(timeout_ms).subrange(8 + 4 * field, 12 + 4 * field))
            == timeout_ms % 0x1_0000_0000,
{
    let b = timeout_request_bytes(timeout_ms);
    lemma_le_u32_roundtrip(timeout_ms as u32);
    assert(b.subrange(8 + 4 * field, 12 + 4 * field) =~= le_u32(timeout_ms as u32));
    assert(timeout_ms as u32 == timeout_ms % 0x1_0000_0000) by (bit_vector);
}

/// The bytes of the request for the device descriptor: a standard
/// GET_DESCRIPTOR (device) control request for 18 bytes, then room for them.
pub open spec fn descriptor_request_bytes() -> Seq<u8> {
    seq![
        0x04u8,
        0x00u8,
        0x00u8,
        0x00u8,
        0x08u8,
        0x00u8,
        0x00u8,
        0x00u8,
        0x80u8,
        0x06u8,
        0x00u8,
        0x01u8,
        0x00u8,
        0x00u8,
        0x12u8,
        0x00u8,
    ] + Seq::new(10, |i: int| 0u8)
}

/// The request that reads the device descriptor.
pub fn device_descriptor_request() -> (c: DriverCommand)
    ensures
        c.buffer@ == descriptor_request_bytes(),
        c.buffer@.len() == HEADER_LEN + DEVICE_DESCRIPTOR_LEN,
        c.in_size == c.buffer@.len(),
        c.out_size == c.buffer@.len(),
{
    let mut buffer: Vec<u8> = Vec::new();
    buffer.push(0x04);
    buffer.push(0x00);
    buffer.push(0x00);
    buffer.push(0x00);
    buffer.push(0x08);
    buffer.push(0x00);
    buffer.push(0x00);
    buffer.push(0x00);
    buffer.push(0x80);
    buffer.push(0x06);
    buffer.push(0x00);
    buffer.push(0x01);
    buffer.push(0x00);
    buffer.push(0x00);
    buffer.push((DEVICE_DESCRIPTOR_LEN as u16 % 256) as u8);
    buffer.push((DEVICE_DESCRIPTOR_LEN as u16 / 256) as u8);
    push_zeros(&mut buffer, 10);
    assert(buffer@ =~= descriptor_request_bytes());
    let len = buffer.len();
    DriverCommand { buffer, in_size: len, out_size: len }
}

/// A standard USB device descriptor.
#[derive(Debug, Clone, Copy, PartialEq, Eq, Structural)]
pub struct DeviceDescriptor {
    pub length: u8,
    pub descriptor_type: u8,
    pub usb_version: u16,
    pub device_class: u8,
    pub device_sub_class: u8,
    pub device_protocol: u8,
    pub max_packet_size0: u8,
    pub vendor_id: u16,
    pub product_id: u16,
    pub device_version: u16,
    pub manufacturer_index: u8,
    pub product_index: u8,
    pub serial_number_index: u8,
    pub num_configurations: u8,
}

/// The descriptor that 18 bytes in USB wire layout denote.
pub open spec fn descriptor_from_bytes(b: Seq<u8>) -> DeviceDescriptor {
    DeviceDescriptor {
        length: b[0],
        descriptor_type: b[1],
        usb_version: le_u16_value(b[2], b[3]),
        device_class: b[4],
        device_sub_class: b[5],
        device_protocol: b[6],
        max_packet_size0: b[7],
        vendor_id: le_u16_value(b[8], b[9]),
        product_id: le_u16_value(b[10], b[11]),
        device_version: le_u16_value(b[12], b[13]),
        manufacturer_index: b[14],
        product_index: b[15],
        serial_number_index: b[16],
        num_configurations: b[17],
    }
}

/// Reads two little-endian bytes of `b` at `at`.
fn read_le_u16(b: &[u8], at: usize) -> (r: u16)
    requires
        at + 1 < b@.len(),
    ensures
        r == le_u16_value(b@[at as int], b@[at + 1]),
{
    b[at] as u16 + (b[at + 1] as u16) * 256
}

/// The device descriptor in the reply to the descriptor request: the 18
/// bytes after the header.
pub fn parse_device_descriptor(reply: &[u8]) -> (d: DeviceDescriptor)
    requires
        reply@.len() >= HEADER_LEN + DEVICE_DESCRIPTOR_LEN,
    ensures
        d == descriptor_from_bytes(reply@.subrange(8, 26)),
{
    let d = DeviceDescriptor {
        length: reply[8],
        descriptor_type: reply[9],
        usb_version: read_le_u16(reply, 10),
        device_class: reply[12],
        device_sub_class: reply[13],
        device_protocol: reply[14],
        max_packet_size0: reply[15],
        vendor_id: read_le_u16(reply, 16),
        product_id: read_le_u16(reply, 18),
        device_version: read_le_u16(reply, 20),
        manufacturer_index: reply[22],
        product_index: reply[23],
        serial_number_index: reply[24],
        num_configurations: reply[25],
    };
    assert(d == descriptor_from_bytes(reply@.subrange(8, 26)));
    d
}

/// Accepts the device behind the driver only where its descriptor carries
/// the vendor and product id sought.
pub fn check_device_identity(vid: u16, pid: u16, descriptor: &DeviceDescriptor) -> (r: Result<
    (),
    Error,
>)
    ensures
        r is Ok <==> descriptor.vendor_id == vid && descriptor.product_id == pid,
        r matches Err(e) ==> e == Error::ProbeNotFound,
{
    if descriptor.vendor_id != vid || descriptor.product_id != pid {
        return Err(Error::ProbeNotFound);
    }
    Ok(())
}

/// What the driver reports of one of its device interfaces.
#[derive(Debug)]
pub struct DriverInterface {
    /// The position of the interface in the driver's enumeration.
    pub index: u32,
    pub descriptor: DeviceDescriptor,
    /// The device path in UTF-16, ending in its NUL terminator.
    pub device_path: Vec<u16>,
}

/// The number of UTF-16 code units in a device path, from the size in bytes
/// that the driver requires for the interface detail record and the offset of
/// the path within that record.
pub fn device_path_units(required_size: u32, path_offset: usize) -> (r: usize)
    requires
        path_offset <= required_size,
    ensures
        r == (required_size - path_offset) / 2,
{
    (required_size as usize - path_offset) / 2
}

/// Whether the interface is a probe with the ids sought.
pub open spec fn is_driver_probe(i: DriverInterface, vid: u16, pid: u16) -> bool {
    i.descriptor.vendor_id == vid && i.descriptor.product_id == pid
}

/// The probes among `ifaces`, in enumeration order.
pub open spec fn driver_probes(ifaces: Seq<DriverInterface>, vid: u16, pid: u16) -> Seq<
    DriverInterface,
>
    decreases ifaces.len(),
{
    if ifaces.len() == 0 {
        Seq::empty()
    } else {
        let rest = driver_probes(ifaces.drop_last(), vid, pid);
        if is_driver_probe(ifaces.last(), vid, pid) {
            rest.push(ifaces.last())
        } else {
            rest
        }
    }
}

/// The text of UTF-16 code units, with each unpaired surrogate replaced by
/// U+FFFD.
pub uninterp spec fn utf16_lossy(units: Seq<u16>) -> Seq<char>;

/// Calls `String::from_utf16_lossy`. Claimed of it: the result is the
/// decoding named `utf16_lossy`, and code units that are no surrogates each
/// decode to the character with that code point.
#[verifier::external_body]
fn decode_utf16_lossy(units: &[u16]) -> (r: String)
    ensures
        r@ == utf16_lossy(units@),
        (forall|i: int| 0 <= i < units@.len() ==> #[trigger] units@[i] < 0xD800 || units@[i] > 0xDFFF)
            ==> r@ == units@.map_values(|u: u16| u as char),
{
    String::from_utf16_lossy(units)
}

/// The label that opens the description of the driver's interface `index`.
pub open spec fn driver_label(index: nat) -> Seq<char> {
    "<WCH-Link#"@ + decimal(index) + " WCHLinkDriver device>"@
}

/// The description of a driver interface that is a probe.
pub open spec fn driver_line(i: DriverInterface, vid: u16, pid: u16) -> Seq<char> {
    driver_label(i.index as nat) + " WCHLinkDriver Device "@ + hex4(vid) + ":"@ + hex4(pid)
        + " ("@ + utf16_lossy(i.device_path@.drop_last()) + ")"@
}

/// Whether no code unit is a UTF-16 surrogate.
pub open spec fn is_surrogate_free(units: Seq<u16>) -> bool {
    forall|k: int| 0 <= k < units.len() ==> #[trigger] units[k] < 0xD800 || units[k] > 0xDFFF
}

/// The description of one probe behind the driver.
fn describe_driver_device(i: &DriverInterface, vid: u16, pid: u16) -> (r: String)
    requires
        i.device_path@.len() >= 1,
    ensures
        r@ == driver_line(*i, vid, pid),
        is_surrogate_free(i.device_path@.drop_last()) ==> r@ == "<WCH-Link#"@ + decimal(i.index as nat) + " WCHLinkDriver device>"@
                + " WCHLinkDriver Device "@ + hex4(vid) + ":"@ + hex4(pid) + " ("@
                + i.device_path@.drop_last().map_values(|u: u16| u as char) + ")"@,
{
    let mut s = String::new();
    s.append("<WCH-Link#");
    push_decimal(&mut s, i.index as u64);
    s.append(" WCHLinkDriver device>");
    s.append(" WCHLinkDriver Device ");
    push_hex4(&mut s, vid);
    s.append(":");
    push_hex4(&mut s, pid);
    s.append(" (");
    let path = vstd::slice::slice_subrange(i.device_path.as_slice(), 0, i.device_path.len() - 1);
    assert(path@ =~= i.device_path@.drop_last());
    let text = decode_utf16_lossy(path);
    s.append(text.as_str());
    s.append(")");
    assert(s@ =~= driver_line(*i, vid, pid));
    assert(is_surrogate_free(i.device_path@.drop_last()) ==> s@ =~= "<WCH-Link#"@ + decimal(i.index as nat) + " WCHLinkDriver device>"@
                + " WCHLinkDriver Device "@ + hex4(vid) + ":"@ + hex4(pid) + " ("@
                + i.device_path@.drop_last().map_values(|u: u16| u as char) + ")"@);
    s
}

/// The driver's probes are built interface by interface in enumeration
/// order: none among no interfaces, and taking one more interface adds it at
/// the end exactly when its descriptor has the ids sought.
pub proof fn lemma_driver_probes_step(ifaces: Seq<DriverInterface>, vid: u16, pid: u16, i: int)
    requires
        0 <= i < ifaces.len(),
    ensures
        driver_probes(ifaces.take(0), vid, pid) == Seq::<DriverInterface>::empty(),
        driver_probes(ifaces.take(i + 1), vid, pid) == if ifaces[i].descriptor.vendor_id == vid
            && ifaces[i].descriptor.product_id == pid {
            driver_probes(ifaces.take(i), vid, pid).push(ifaces[i])
        } else {
            driver_probes(ifaces.take(i), vid, pid)
        },
{
    assert(ifaces.take(0) =~= Seq::<DriverInterface>::empty());
    assert(ifaces.take(i + 1).drop_last() =~= ifaces.take(i));
    assert(ifaces.take(i + 1).last() == ifaces[i]);
}

/// Describes the probes among the driver's interfaces, each under its
/// enumeration index.
pub fn list_devices(vid: u16, pid: u16, interfaces: &Vec<DriverInterface>) -> (r: Vec<String>)
    requires
        forall|k: int|
            0 <= k < interfaces@.len() && #[trigger] is_driver_probe(interfaces@[k], vid, pid)
                ==> interfaces@[k].device_path@.len() >= 1,
    ensures
        r.len() == driver_probes(interfaces@, vid, pid).len(),
        forall|j: int|
            0 <= j < r.len() ==> #[trigger] r[j]@ == driver_line(
                driver_probes(interfaces@, vid, pid)[j],
                vid,
                pid,
            ),
        forall|j: int|
            0 <= j < r.len() && is_surrogate_free(
                (#[trigger] driver_probes(interfaces@, vid, pid)[j]).device_path@.drop_last(),
            ) ==> r[j]@ == "<WCH-Link#"@ + decimal(driver_probes(interfaces@, vid, pid)[j].index as nat) + " WCHLinkDriver device>"@
                    + " WCHLinkDriver Device "@ + hex4(vid) + ":"@ + hex4(pid) + " ("@
                    + driver_probes(interfaces@, vid, pid)[j].device_path@.drop_last().map_values(|u: u16| u as char) + ")"@,
{
    let mut result: Vec<String> = Vec::new();
    let mut i: usize = 0;
    while i < interfaces.len()
        invariant
            i <= interfaces.len(),
            forall|k: int|
                0 <= k < interfaces@.len() && #[trigger] is_driver_probe(interfaces@[k], vid, pid)
                    ==> interfaces@[k].device_path@.len() >= 1,
            result.len() == driver_probes(interfaces@.take(i as int), vid, pid).len(),
            forall|j: int|
                0 <= j < result.len() ==> #[trigger] result[j]@ == driver_line(
                    driver_probes(interfaces@.take(i as int), vid, pid)[j],
                    vid,
                    pid,
                ),
            forall|j: int|
                0 <= j < result.len() && is_surrogate_free(
                    (#[trigger] driver_probes(interfaces@.take(i as int), vid, pid)[j]).device_path@.drop_last(),
                ) ==> result[j]@ == "<WCH-Link#"@ + decimal(driver_probes(interfaces@.take(i as int), vid, pid)[j].index as nat) + " WCHLinkDriver device>"@
                        + " WCHLinkDriver Device "@ + hex4(vid) + ":"@ + hex4(pid) + " ("@
                        + driver_probes(interfaces@.take(i as int), vid, pid)[j].device_path@.drop_last().map_values(|u: u16| u as char) + ")"@,
        decreases interfaces.len() - i,
    {
        proof {
            lemma_driver_probes_step(interfaces@, vid, pid, i as int);
        }
        let iface = &interfaces[i];
        if iface.descriptor.vendor_id == vid && iface.descriptor.product_id == pid {
            assert(is_driver_probe(interfaces@[i as int], vid, pid));
            let line = describe_driver_device(iface, vid, pid);
            result.push(line);
        }
        i += 1;
    }
    assert(interfaces@.take(interfaces.len() as int) =~= interfaces@);
    result
}

/// Each probe in the listing is an interface of the driver, and each
/// interface that is a probe is in the listing.
pub proof fn lemma_driver_probes_members(ifaces: Seq<DriverInterface>, vid: u16, pid: u16)
    ensures
        forall|j: int|
            0 <= j < driver_probes(ifaces, vid, pid).len() ==> is_driver_probe(
                #[trigger] driver_probes(ifaces, vid, pid)[j],
                vid,
                pid,
            ) && exists|i: int| 0 <= i < ifaces.len() && ifaces[i] == driver_probes(ifaces, vid, pid)[j],
        forall|k: int|
            0 <= k < ifaces.len() && #[trigger] is_driver_probe(ifaces[k], vid, pid) ==> exists|j: int|
                0 <= j < driver_probes(ifaces, vid, pid).len() && driver_probes(ifaces, vid, pid)[j]
                    == ifaces[k],
    decreases ifaces.len(),
{
    if ifaces.len() > 0 {
        let init = ifaces.drop_last();
        let dp = driver_probes(ifaces, vid, pid);
        let dp0 = driver_probes(init, vid, pid);
        lemma_driver_probes_members(init, vid, pid);
        assert forall|j: int| 0 <= j < dp.len() implies is_driver_probe(#[trigger] dp[j], vid, pid)
            && exists|i: int| 0 <= i < ifaces.len() && ifaces[i] == dp[j] by {
            if j < dp0.len() {
                assert(dp[j] == dp0[j]);
                let i = choose|i: int| 0 <= i < init.len() && init[i] == dp0[j];
                assert(ifaces[i] == dp[j]);
            } else {
                assert(dp[j] == ifaces[ifaces.len() - 1]);
            }
        }
        assert forall|k: int|
            0 <= k < ifaces.len() && #[trigger] is_driver_probe(ifaces[k], vid, pid) implies exists|
                j: int,
            | 0 <= j < dp.len() && dp[j] == ifaces[k] by {
            if k < init.len() {
                assert(init[k] == ifaces[k]);
                assert(is_driver_probe(init[k], vid, pid));
                let j = choose|j: int| 0 <= j < dp0.len() && dp0[j] == init[k];
                assert(dp[j] == dp0[j]);
            } else {
                assert(dp[dp.len() - 1] == ifaces[k]);
            }
        }
    }
}

/// A label is a prefix of a line that starts with a label only where both
/// name the same interface.
pub proof fn lemma_driver_label_prefix(a: nat, b: nat, rest: Seq<char>)
    requires
        driver_label(a).is_prefix_of(driver_label(b) + rest),
    ensures
        a == b,
{
    reveal_strlit(" WCHLinkDriver device>");
    let head = "<WCH-Link#"@;
    let tail = " WCHLinkDriver device>"@;
    let da = decimal(a);
    let db = decimal(b);
    let x = driver_label(a);
    let y = driver_label(b) + rest;
    lemma_decimal_digits(a);
    lemma_decimal_digits(b);
    assert(tail[0] == ' ');
    assert(hex_digit_value(' ') == -1);
    assert(forall|p: int| 0 <= p < x.len() ==> x[p] == y.subrange(0, x.len() as int)[p]);
    if da.len() < db.len() {
        let p: int = (head.len() + da.len()) as int;
        assert(x[p] == tail[0]);
        assert(y[p] == db[da.len() as int]);
        assert(is_dec_digit(db[da.len() as int]));
        assert(x[p] == y[p]);
    } else if da.len() > db.len() {
        let p: int = (head.len() + db.len()) as int;
        assert(x[p] == da[db.len() as int]);
        assert(is_dec_digit(da[db.len() as int]));
        assert(y[p] == tail[0]);
        assert(x[p] == y[p]);
    } else {
        assert forall|i: int| 0 <= i < da.len() implies da[i] == db[i] by {
            assert(x[head.len() + i] == da[i]);
            assert(y[head.len() + i] == db[i]);
            assert(x[head.len() + i] == y[head.len() + i]);
        }
        assert(da =~= db);
    }
}

/// Opening through the driver and listing the driver's probes agree: where
/// each interface carries its position as its index, the interface `k`
/// passes `check_device_identity` (its descriptor has the ids sought)
/// exactly when a line of `list_devices` begins with the label of probe `k`.
pub proof fn lemma_driver_open_agrees_with_listing(
    vid: u16,
    pid: u16,
    ifaces: Seq<DriverInterface>,
    k: int,
)
    requires
        0 <= k < ifaces.len(),
        forall|i: int| 0 <= i < ifaces.len() ==> #[trigger] ifaces[i].index == i,
    ensures
        is_driver_probe(ifaces[k], vid, pid) <==> exists|j: int|
            0 <= j < driver_probes(ifaces, vid, pid).len() && #[trigger] driver_label(
                k as nat,
            ).is_prefix_of(driver_line(driver_probes(ifaces, vid, pid)[j], vid, pid)),
{
    let dp = driver_probes(ifaces, vid, pid);
    lemma_driver_probes_members(ifaces, vid, pid);
    if is_driver_probe(ifaces[k], vid, pid) {
        let j = choose|j: int| 0 <= j < dp.len() && dp[j] == ifaces[k];
        assert(ifaces[k].index == k);
        let line = driver_line(dp[j], vid, pid);
        let label = driver_label(k as nat);
        assert(label =~= line.subrange(0, label.len() as int));
        assert(label.is_prefix_of(line));
    }
    assert forall|j: int|
        0 <= j < dp.len() && #[trigger] driver_label(k as nat).is_prefix_of(
            driver_line(dp[j], vid, pid),
        ) implies is_driver_probe(ifaces[k], vid, pid) by {
        let i = choose|i: int| 0 <= i < ifaces.len() && ifaces[i] == dp[j];
        assert(ifaces[i].index == i);
        let rest = " WCHLinkDriver Device "@ + hex4(vid) + ":"@ + hex4(pid) + " ("@ + utf16_lossy(
            dp[j].device_path@.drop_last(),
        ) + ")"@;
        assert(driver_line(dp[j], vid, pid) =~= driver_label(dp[j].index as nat) + rest);
        lemma_driver_label_prefix(k as nat, dp[j].index as nat, rest);
        assert(is_driver_probe(dp[j], vid, pid));
    }
}

/// The description of a driver probe, piece by piece: the interface index in
/// decimal, the ids sought as four hexadecimal digits each, and the lossy
/// decoding of the whole device path without its last unit (the terminator),
/// whatever the path's length.
pub proof fn lemma_driver_line_layout(i: DriverInterface, vid: u16, pid: u16)
    ensures
        driver_line(i, vid, pid) == "<WCH-Link#"@ + decimal(i.index as nat)
            + " WCHLinkDriver device>"@ + " WCHLinkDriver Device "@ + hex4(vid) + ":"@ + hex4(pid)
            + " ("@ + utf16_lossy(i.device_path@.subrange(0, i.device_path@.len() - 1)) + ")"@,
{
    assert(i.device_path@.drop_last() =~= i.device_path@.subrange(0, i.device_path@.len() - 1));
}

/// Every read request starts with the endpoint number without its direction
/// bit, minus one, then the read code 0x01, whatever the length; its length
/// field is the length in little-endian order, and the rest is zeros.
pub proof fn lemma_read_request_header(ep: u8, len: usize)
    ensures
        read_request_bytes(ep, len).len() == 8 + len,
        read_request_bytes(ep, len)[0] == ((ep % 128) - 1) as u8,
        read_request_bytes(ep, len)[1] == 0,
        read_request_bytes(ep, len)[2] == 0x01,
        read_request_bytes(ep, len)[3] == 0,
        read_request_bytes(ep, len)[4] == (len as u32) % 256,
        read_request_bytes(ep, len)[5] == ((len as u32) / 256) % 256,
        read_request_bytes(ep, len)[6] == ((len as u32) / 65536) % 256,
        read_request_bytes(ep, len)[7] == (len as u32) / 16777216,
        forall|k: int| 8 <= k < 8 + len ==> #[trigger] read_request_bytes(ep, len)[k] == 0,
{
}

/// Every write request starts with the endpoint number minus one, then the
/// write code 0x02, whatever the data; its length field is the data's length
/// in little-endian order, and the data follows it.
pub proof fn lemma_write_request_header(ep: u8, data: Seq<u8>)
    ensures
        write_request_bytes(ep, data).len() == 8 + data.len(),
        write_request_bytes(ep, data)[0] == (ep - 1) as u8,
        write_request_bytes(ep, data)[1] == 0,
        write_request_bytes(ep, data)[2] == 0x02,
        write_request_bytes(ep, data)[3] == 0,
        write_request_bytes(ep, data)[4] == (data.len() as u32) % 256,
        write_request_bytes(ep, data)[5] == ((data.len() as u32) / 256) % 256,
        write_request_bytes(ep, data)[6] == ((data.len() as u32) / 65536) % 256,
        write_request_bytes(ep, data)[7] == (data.len() as u32) / 16777216,
        forall|k: int| 0 <= k < data.len() ==> #[trigger] write_request_bytes(ep, data)[8 + k]
            == data[k],
{
}

/// Every timeout request starts with the code 0x0F and the length 16,
/// whatever the timeout, and then holds the timeout (cut to 32 bits) four
/// times in little-endian order.
pub proof fn lemma_timeout_request_header(timeout_ms: u128)
    ensures
        timeout_request_bytes(timeout_ms).len() == 24,
        timeout_request_bytes(timeout_ms).subrange(0, 8) == seq![
            0x0Fu8,
            0u8,
            0u8,
            0u8,
            0x10u8,
            0u8,
            0u8,
            0u8,
        ],
        forall|f: int|
            0 <= f < 4 ==> {
                &&& #[trigger] timeout_request_bytes(timeout_ms)[8 + 4 * f] == (timeout_ms as u32)
                    % 256
                &&& timeout_request_bytes(timeout_ms)[9 + 4 * f] == ((timeout_ms as u32) / 256) % 256
                &&& timeout_request_bytes(timeout_ms)[10 + 4 * f] == ((timeout_ms as u32) / 65536)
                    % 256
                &&& timeout_request_bytes(timeout_ms)[11 + 4 * f] == (timeout_ms as u32) / 16777216
            },
{
    assert(timeout_request_bytes(timeout_ms).subrange(0, 8) =~= seq![
        0x0Fu8,
        0u8,
        0u8,
        0u8,
        0x10u8,
        0u8,
        0u8,
        0u8,
    ]);
}

/// The length of a read reply is read from bytes 4 to 7, least significant
/// first.
pub proof fn lemma_reported_len_little_endian(reply: Seq<u8>)
    requires
        reply.len() >= 8,
    ensures
        reported_len(reply) == reply[4] + reply[5] * 256 + reply[6] * 65536 + reply[7] * 16777216,
{
}

/// The descriptor request is a standard GET_DESCRIPTOR request for the device
/// descriptor (request type 0x80, request 6, descriptor type 1, index 0,
/// language 0) asking for exactly the 18 bytes of a device descriptor, after
/// the driver's header; the room after it is zeros.
pub proof fn lemma_descriptor_request_layout()
    ensures
        descriptor_request_bytes().len() == HEADER_LEN + DEVICE_DESCRIPTOR_LEN,
        descriptor_request_bytes().subrange(8, 14) == seq![0x80u8, 0x06u8, 0x00u8, 0x01u8, 0x00u8, 0x00u8],
        descriptor_request_bytes()[14] + descriptor_request_bytes()[15] * 256 == DEVICE_DESCRIPTOR_LEN,
        forall|k: int| 16 <= k < 26 ==> #[trigger] descriptor_request_bytes()[k] == 0,
{
    assert(descriptor_request_bytes().subrange(8, 14) =~= seq![0x80u8, 0x06u8, 0x00u8, 0x01u8, 0x00u8, 0x00u8]);
}

/// A device descriptor's ids are read from bytes 8 to 11 of its 18 bytes,
/// each least significant byte first; its other fields sit at their USB
/// wire offsets.
pub proof fn lemma_descriptor_fields(b: Seq<u8>)
    requires
        b.len() == 18,
    ensures
        descriptor_from_bytes(b).vendor_id == b[8] + b[9] * 256,
        descriptor_from_bytes(b).product_id == b[10] + b[11] * 256,
        descriptor_from_bytes(b).usb_version == b[2] + b[3] * 256,
        descriptor_from_bytes(b).device_version == b[12] + b[13] * 256,
        descriptor_from_bytes(b).length == b[0],
        descriptor_from_bytes(b).descriptor_type == b[1],
        descriptor_from_bytes(b).device_class == b[4],
        descriptor_from_bytes(b).device_sub_class == b[5],
        descriptor_from_bytes(b).device_protocol == b[6],
        descriptor_from_bytes(b).max_packet_size0 == b[7],
        descriptor_from_bytes(b).manufacturer_index == b[14],
        descriptor_from_bytes(b).product_index == b[15],
        descriptor_from_bytes(b).serial_number_index == b[16],
        descriptor_from_bytes(b).num_configurations == b[17],
{
}

} // verus!
