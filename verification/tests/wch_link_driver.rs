use wlink::usb_device::wch_link_driver::{
    check_device_identity, device_descriptor_request, device_path_units, list_devices,
    parse_device_descriptor, read_endpoint_request, read_endpoint_response, set_timeout_request,
    write_endpoint_request, DeviceDescriptor, DriverInterface, DEVICE_DESCRIPTOR_LEN, HEADER_LEN,
};
use wlink::Error;

fn descriptor(vid: u16, pid: u16) -> DeviceDescriptor {
    DeviceDescriptor {
        length: 18,
        descriptor_type: 1,
        usb_version: 0x0110,
        device_class: 0xff,
        device_sub_class: 0,
        device_protocol: 0,
        max_packet_size0: 64,
        vendor_id: vid,
        product_id: pid,
        device_version: 0x0203,
        manufacturer_index: 1,
        product_index: 2,
        serial_number_index: 3,
        num_configurations: 1,
    }
}

#[test]
fn read_request_layout() {
    let c = read_endpoint_request(0x82, 64);
    let mut expected = vec![0x01, 0x00, 0x01, 0x00, 64, 0, 0, 0];
    expected.extend(std::iter::repeat(0u8).take(64));
    assert_eq!(c.buffer, expected);
    assert_eq!(c.in_size, 8);
    assert_eq!(c.out_size, 72);
}

#[test]
fn read_request_length_is_little_endian() {
    let c = read_endpoint_request(0x81, 0x1234);
    assert_eq!(&c.buffer[..8], &[0x00, 0x00, 0x01, 0x00, 0x34, 0x12, 0x00, 0x00]);
    assert_eq!(c.buffer.len(), HEADER_LEN + 0x1234);
}

#[test]
fn read_response_copies_the_reported_payload() {
    let mut reply = vec![0x01, 0x00, 0x01, 0x00, 3, 0, 0, 0];
    reply.extend_from_slice(&[9, 8, 7, 6, 5]);
    let mut buf = [0xAAu8; 5];
    assert_eq!(read_endpoint_response(&reply, &mut buf), Ok(3));
    assert_eq!(buf, [9, 8, 7, 0xAA, 0xAA]);
}

#[test]
fn read_response_accepts_a_full_reply() {
    let c = read_endpoint_request(0x82, 4);
    let mut reply = c.buffer.clone();
    reply[8..].copy_from_slice(&[1, 2, 3, 4]);
    let mut buf = [0u8; 4];
    assert_eq!(read_endpoint_response(&reply, &mut buf), Ok(4));
    assert_eq!(buf, [1, 2, 3, 4]);
}

#[test]
fn read_response_rejects_an_oversized_length() {
    let mut reply = vec![0x01, 0x00, 0x01, 0x00, 5, 0, 0, 0];
    reply.extend_from_slice(&[1, 2, 3, 4]);
    let mut buf = [0x55u8; 4];
    assert_eq!(read_endpoint_response(&reply, &mut buf), Err(Error::InvalidPayloadLength));
    assert_eq!(buf, [0x55; 4]);
    let mut big = vec![0u8, 0, 1, 0, 0, 0, 0, 1];
    big.extend_from_slice(&[0; 4]);
    assert_eq!(read_endpoint_response(&big, &mut buf), Err(Error::InvalidPayloadLength));
}

#[test]
fn read_response_of_zero_bytes() {
    let reply = vec![0u8; 8 + 2];
    let mut buf = [7u8; 2];
    assert_eq!(read_endpoint_response(&reply, &mut buf), Ok(0));
    assert_eq!(buf, [7, 7]);
}

#[test]
fn write_request_layout() {
    let c = write_endpoint_request(0x02, &[0x81, 0x0d, 0x01, 0x01]);
    assert_eq!(c.buffer, vec![0x01, 0x00, 0x02, 0x00, 4, 0, 0, 0, 0x81, 0x0d, 0x01, 0x01]);
    assert_eq!(c.in_size, 12);
    assert_eq!(c.out_size, 8);
}

#[test]
fn write_request_of_no_data() {
    let c = write_endpoint_request(1, &[]);
    assert_eq!(c.buffer, vec![0, 0, 2, 0, 0, 0, 0, 0]);
    assert_eq!(c.in_size, 8);
}

#[test]
fn timeout_request_layout() {
    let c = set_timeout_request(5000);
    assert_eq!(
        c.buffer,
        vec![
            0x0F, 0, 0, 0, 0x10, 0, 0, 0, 0x88, 0x13, 0, 0, 0x88, 0x13, 0, 0, 0x88, 0x13, 0, 0, 0x88,
            0x13, 0, 0
        ]
    );
    assert_eq!(c.in_size, 24);
    assert_eq!(c.out_size, 24);
}

#[test]
fn timeout_request_cuts_to_32_bits() {
    let c = set_timeout_request(0x1_0000_0001);
    assert_eq!(&c.buffer[8..12], &[1, 0, 0, 0]);
    assert_eq!(&c.buffer[20..24], &[1, 0, 0, 0]);
}

#[test]
fn descriptor_request_layout() {
    let c = device_descriptor_request();
    let mut expected = vec![
        0x04, 0x00, 0x00, 0x00, 0x08, 0x00, 0x00, 0x00, 0x80, 0x06, 0x00, 0x01, 0x00, 0x00, 0x12,
        0x00,
    ];
    expected.extend_from_slice(&[0; 10]);
    assert_eq!(c.buffer, expected);
    assert_eq!(c.buffer.len(), HEADER_LEN + DEVICE_DESCRIPTOR_LEN);
    assert_eq!(c.in_size, 26);
    assert_eq!(c.out_size, 26);
}

#[test]
fn descriptor_parse() {
    let mut reply = vec![0u8; 8];
    reply.extend_from_slice(&[
        18, 1, 0x10, 0x01, 0xff, 0x00, 0x00, 64, 0x86, 0x1a, 0x10, 0x80, 0x03, 0x02, 1, 2, 3, 1,
    ]);
    assert_eq!(parse_device_descriptor(&reply), descriptor(0x1a86, 0x8010));
}

#[test]
fn identity_check() {
    assert_eq!(check_device_identity(0x1a86, 0x8010, &descriptor(0x1a86, 0x8010)), Ok(()));
    assert_eq!(
        check_device_identity(0x1a86, 0x8010, &descriptor(0x1a86, 0x8012)),
        Err(Error::ProbeNotFound)
    );
    assert_eq!(
        check_device_identity(0x1a86, 0x8010, &descriptor(0x4348, 0x8010)),
        Err(Error::ProbeNotFound)
    );
}

#[test]
fn path_units_from_required_size() {
    assert_eq!(device_path_units(10, 4), 3);
    assert_eq!(device_path_units(4, 4), 0);
    assert_eq!(device_path_units(11, 4), 3);
}

#[test]
fn driver_listing_keeps_interface_indices() {
    let mk = |index: u32, pid: u16, path: Vec<u16>| DriverInterface {
        index,
        descriptor: descriptor(0x1a86, pid),
        device_path: path,
    };
    let mut p0: Vec<u16> = "dev0".encode_utf16().collect();
    p0.push(0);
    let mut p3: Vec<u16> = "d\u{e9}v".encode_utf16().collect();
    p3.push(0xD800);
    p3.push(0);
    let interfaces = vec![mk(0, 0x8010, p0), mk(1, 0x9999, vec![]), mk(3, 0x8010, p3)];
    let lines = list_devices(0x1a86, 0x8010, &interfaces);
    assert_eq!(
        lines,
        vec![
            "<WCH-Link#0 WCHLinkDriver device> WCHLinkDriver Device 1a86:8010 (dev0)".to_string(),
            "<WCH-Link#3 WCHLinkDriver device> WCHLinkDriver Device 1a86:8010 (d\u{e9}v\u{fffd})"
                .to_string(),
        ]
    );
}

#[test]
fn driver_identity_agrees_with_driver_listing() {
    let pids = [0x8010u16, 0x8012, 0x8010, 0x1111, 0x8010, 0x8010, 0x8010, 0x8010, 0x8010, 0x8010, 0x2222, 0x8010];
    let interfaces: Vec<DriverInterface> = pids
        .iter()
        .enumerate()
        .map(|(i, &pid)| {
            let mut path: Vec<u16> = format!("path{}", i).encode_utf16().collect();
            path.push(0);
            DriverInterface { index: i as u32, descriptor: descriptor(0x1a86, pid), device_path: path }
        })
        .collect();
    let lines = list_devices(0x1a86, 0x8010, &interfaces);
    for k in 0..interfaces.len() {
        let label = format!("<WCH-Link#{} WCHLinkDriver device>", k);
        let listed = lines.iter().any(|l| l.starts_with(&label));
        let opens = check_device_identity(0x1a86, 0x8010, &interfaces[k].descriptor).is_ok();
        assert_eq!(listed, opens, "interface {}", k);
    }
    assert_eq!(lines.len(), 9);
}
