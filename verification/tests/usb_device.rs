use wlink::usb_device::libusb::{
    get_speed, list_libusb_devices, nth_probe_index, UsbDeviceInfo, UsbSpeed,
};
use wlink::usb_device::{list_devices, open_nth, OpenTarget, DEFAULT_TIMEOUT_MS};
use wlink::Error;

const VID: u16 = 0x1a86;
const PID: u16 = 0x8010;

fn dev(vid: u16, pid: u16, serial: Option<&str>, speed: Option<UsbSpeed>) -> UsbDeviceInfo {
    UsbDeviceInfo {
        vendor_id: vid,
        product_id: pid,
        serial_number: serial.map(|s| s.to_string()),
        speed,
    }
}

#[test]
fn speed_labels() {
    assert_eq!(get_speed(Some(UsbSpeed::SuperPlus)), "USB-SS+ 10000 Mbps");
    assert_eq!(get_speed(Some(UsbSpeed::Super)), "USB-SS 5000 Mbps");
    assert_eq!(get_speed(Some(UsbSpeed::High)), "USB-HS 480 Mbps");
    assert_eq!(get_speed(Some(UsbSpeed::Full)), "USB-FS 12 Mbps");
    assert_eq!(get_speed(Some(UsbSpeed::Low)), "USB-LS 1.5 Mbps");
    assert_eq!(get_speed(None), "(unknown)");
}

#[test]
fn libusb_listing_filters_and_numbers_probes() {
    let devices = vec![
        dev(VID, PID, Some("ABC123"), Some(UsbSpeed::High)),
        dev(0x1234, PID, Some("X"), Some(UsbSpeed::Full)),
        dev(VID, 0x8012, None, None),
        dev(VID, PID, None, None),
    ];
    let lines = list_libusb_devices(VID, PID, &devices);
    assert_eq!(
        lines,
        vec![
            "<WCH-Link#0 nusb device> ID 1a86:8010 Serial ABC123 (USB-HS 480 Mbps)".to_string(),
            "<WCH-Link#1 nusb device> ID 1a86:8010 Serial N/A ((unknown))".to_string(),
        ]
    );
}

#[test]
fn libusb_listing_pads_ids_to_four_hex_digits() {
    let devices = vec![dev(0x000a, 0x00ff, Some("S"), Some(UsbSpeed::Low))];
    let lines = list_libusb_devices(0x000a, 0x00ff, &devices);
    assert_eq!(lines, vec!["<WCH-Link#0 nusb device> ID 000a:00ff Serial S (USB-LS 1.5 Mbps)".to_string()]);
}

#[test]
fn libusb_listing_numbers_past_nine_in_decimal() {
    let devices: Vec<UsbDeviceInfo> =
        (0..12).map(|_| dev(VID, PID, None, Some(UsbSpeed::Super))).collect();
    let lines = list_libusb_devices(VID, PID, &devices);
    assert_eq!(lines.len(), 12);
    assert_eq!(lines[10], "<WCH-Link#10 nusb device> ID 1a86:8010 Serial N/A (USB-SS 5000 Mbps)");
    assert_eq!(lines[11], "<WCH-Link#11 nusb device> ID 1a86:8010 Serial N/A (USB-SS 5000 Mbps)");
}

#[test]
fn libusb_listing_of_no_probes_is_empty() {
    let devices = vec![dev(1, 2, None, None)];
    assert!(list_libusb_devices(VID, PID, &devices).is_empty());
    assert!(list_libusb_devices(VID, PID, &Vec::new()).is_empty());
}

#[test]
fn nth_probe_index_skips_other_devices() {
    let devices = vec![
        dev(1, 2, None, None),
        dev(VID, PID, Some("a"), None),
        dev(3, 4, None, None),
        dev(VID, PID, Some("b"), None),
    ];
    assert_eq!(nth_probe_index(VID, PID, 0, &devices), Ok(1));
    assert_eq!(nth_probe_index(VID, PID, 1, &devices), Ok(3));
    assert_eq!(nth_probe_index(VID, PID, 2, &devices), Err(Error::ProbeNotFound));
    assert_eq!(nth_probe_index(VID, PID, 0, &Vec::new()), Err(Error::ProbeNotFound));
}

#[test]
fn open_nth_prefers_the_platform_backend() {
    let devices = vec![dev(VID, PID, None, None)];
    assert_eq!(open_nth(VID, PID, 0, true, &devices), Ok(OpenTarget::PlatformBackend));
    assert_eq!(open_nth(VID, PID, 5, true, &Vec::new()), Ok(OpenTarget::PlatformBackend));
}

#[test]
fn open_nth_falls_back_to_the_usb_stack() {
    let devices = vec![dev(0xffff, PID, None, None), dev(VID, PID, None, None)];
    assert_eq!(open_nth(VID, PID, 0, false, &devices), Ok(OpenTarget::Nusb(1)));
}

#[test]
fn open_nth_reports_probe_not_found() {
    let devices = vec![dev(VID, PID, None, None)];
    assert_eq!(open_nth(VID, PID, 1, false, &devices), Err(Error::ProbeNotFound));
    assert_eq!(open_nth(VID, PID, 0, false, &Vec::new()), Err(Error::ProbeNotFound));
}

#[test]
fn open_nth_picks_the_device_listed_under_that_number() {
    let devices = vec![
        dev(VID, PID, Some("first"), Some(UsbSpeed::Full)),
        dev(9, 9, Some("other"), None),
        dev(VID, PID, Some("second"), Some(UsbSpeed::High)),
    ];
    let platform = vec!["platform probe".to_string()];
    let lines = list_devices(VID, PID, &platform, &devices);
    for nth in 0..2usize {
        let k = match open_nth(VID, PID, nth, false, &devices) {
            Ok(OpenTarget::Nusb(k)) => k,
            other => panic!("unexpected {:?}", other),
        };
        let single = list_libusb_devices(VID, PID, &devices);
        assert_eq!(lines[1 + nth], single[nth]);
        let serial = devices[k].serial_number.clone().unwrap();
        assert!(lines[1 + nth].contains(&format!("#{} ", nth)));
        assert!(lines[1 + nth].contains(&serial));
    }
    assert_eq!(lines.len(), 3);
}

#[test]
fn listing_puts_platform_lines_first() {
    let platform = vec!["first platform line".to_string(), "second platform line".to_string()];
    let devices = vec![dev(VID, PID, Some("S1"), Some(UsbSpeed::Full)), dev(1, 1, None, None)];
    let lines = list_devices(VID, PID, &platform, &devices);
    assert_eq!(
        lines,
        vec![
            "first platform line".to_string(),
            "second platform line".to_string(),
            "<WCH-Link#0 nusb device> ID 1a86:8010 Serial S1 (USB-FS 12 Mbps)".to_string(),
        ]
    );
}

#[test]
fn listing_without_probes_is_empty() {
    assert!(list_devices(VID, PID, &Vec::new(), &Vec::new()).is_empty());
}

#[test]
fn default_timeout_is_five_seconds() {
    assert_eq!(DEFAULT_TIMEOUT_MS, 5000);
}
