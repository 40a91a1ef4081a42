//! Probes found through the generic USB stack: which enumerated devices are
//! probes, how each is described, and which one the n-th probe is.

use vstd::prelude::*;

use crate::error::Error;
use crate::text::{decimal, hex4, push_decimal, push_hex4};

verus! {

/// The connection speed of a USB device.
#[derive(Debug, Clone, Copy, PartialEq, Eq, Structural)]
pub enum UsbSpeed {
    Low,
    Full,
    High,
    Super,
    SuperPlus,
}

/// What the enumeration of the USB stack reports of one device.
#[derive(Debug)]
pub struct UsbDeviceInfo {
    pub vendor_id: u16,
    pub product_id: u16,
    /// The serial number string, where the device has one.
    pub serial_number: Option<String>,
    /// The connection speed, where the platform reports a known one.
    pub speed: Option<UsbSpeed>,
}

/// The label of a connection speed.
pub open spec fn speed_label(speed: Option<UsbSpeed>) -> Seq<char> {
    match speed {
        Some(UsbSpeed::SuperPlus) => "USB-SS+ 10000 Mbps"@,
        Some(UsbSpeed::Super) => "USB-SS 5000 Mbps"@,
        Some(UsbSpeed::High) => "USB-HS 480 Mbps"@,
        Some(UsbSpeed::Full) => "USB-FS 12 Mbps"@,
        Some(UsbSpeed::Low) => "USB-LS 1.5 Mbps"@,
        None => "(unknown)"@,
    }
}

/// The label of a connection speed; an unknown speed is `(unknown)`.
pub fn get_speed(speed: Option<UsbSpeed>) -> (r: &'static str)
    ensures
        r@ == speed_label(speed),
{
    match speed {
        Some(UsbSpeed::SuperPlus) => "USB-SS+ 10000 Mbps",
        Some(UsbSpeed::Super) => "USB-SS 5000 Mbps",
        Some(UsbSpeed::High) => "USB-HS 480 Mbps",
        Some(UsbSpeed::Full) => "USB-FS 12 Mbps",
        Some(UsbSpeed::Low) => "USB-LS 1.5 Mbps",
        None => "(unknown)",
    }
}

/// Whether `d` has the vendor and product id of the probes sought.
pub open spec fn is_probe(d: UsbDeviceInfo, vid: u16, pid: u16) -> bool {
    d.vendor_id == vid && d.product_id == pid
}

/// The probes among `devs`, in enumeration order.
pub open spec fn probes(devs: Seq<UsbDeviceInfo>, vid: u16, pid: u16) -> Seq<UsbDeviceInfo>
    decreases devs.len(),
{
    if devs.len() == 0 {
        Seq::empty()
    } else {
        let rest = probes(devs.drop_last(), vid, pid);
        if is_probe(devs.last(), vid, pid) {
            rest.push(devs.last())
        } else {
            rest
        }
    }
}

/// The serial number as printed: `N/A` where the device has none.
pub open spec fn serial_text(serial: Option<String>) -> Seq<char> {
    match serial {
        Some(s) => s@,
        None => "N/A"@,
    }
}

/// The description of the probe numbered `idx`.
pub open spec fn nusb_line(idx: nat, d: UsbDeviceInfo) -> Seq<char> {
    "<WCH-Link#"@ + decimal(idx) + " nusb device> ID "@ + hex4(d.vendor_id) + ":"@ + hex4(
        d.product_id,
    ) + " Serial "@ + serial_text(d.serial_number) + " ("@ + speed_label(d.speed) + ")"@
}

/// `devs[k]` is the probe numbered `nth`: a probe with exactly `nth` probes before it.
pub open spec fn is_nth_probe(devs: Seq<UsbDeviceInfo>, vid: u16, pid: u16, nth: int, k: int) -> bool {
    &&& 0 <= k < devs.len()
    &&& is_probe(devs[k], vid, pid)
    &&& probes(devs.take(k), vid, pid).len() == nth
}

/// The probes of a prefix of `devs` are a prefix of the probes of `devs`.
pub proof fn lemma_probes_prefix(devs: Seq<UsbDeviceInfo>, vid: u16, pid: u16, j: int)
    requires
        0 <= j <= devs.len(),
    ensures
        probes(devs.take(j), vid, pid).len() <= probes(devs, vid, pid).len(),
        forall|m: int|
            0 <= m < probes(devs.take(j), vid, pid).len() ==> #[trigger] probes(devs.take(j), vid, pid)[m]
                == probes(devs, vid, pid)[m],
    decreases devs.len(),
{
    if j == devs.len() {
        assert(devs.take(j) =~= devs);
    } else {
        let init = devs.drop_last();
        assert(devs.take(j) =~= init.take(j));
        lemma_probes_prefix(init, vid, pid, j);
    }
}

/// The probes are built device by device in enumeration order: none among no
/// devices, and taking one more device adds it at the end exactly when it
/// has the vendor and product id sought.
pub proof fn lemma_probes_step(devs: Seq<UsbDeviceInfo>, vid: u16, pid: u16, i: int)
    requires
        0 <= i < devs.len(),
    ensures
        probes(devs.take(0), vid, pid) == Seq::<UsbDeviceInfo>::empty(),
        probes(devs.take(i + 1), vid, pid) == if devs[i].vendor_id == vid && devs[i].product_id
            == pid {
            probes(devs.take(i), vid, pid).push(devs[i])
        } else {
            probes(devs.take(i), vid, pid)
        },
{
    assert(devs.take(0) =~= Seq::<UsbDeviceInfo>::empty());
    assert(devs.take(i + 1).drop_last() =~= devs.take(i));
    assert(devs.take(i + 1).last() == devs[i]);
}

/// The probe numbered `nth` is the `nth` entry of the probes, and there is one
/// such device only.
pub proof fn lemma_nth_probe(devs: Seq<UsbDeviceInfo>, vid: u16, pid: u16, nth: int, k: int)
    requires
        is_nth_probe(devs, vid, pid, nth, k),
    ensures
        nth < probes(devs, vid, pid).len(),
        probes(devs, vid, pid)[nth] == devs[k],
        forall|k2: int| #[trigger] is_nth_probe(devs, vid, pid, nth, k2) ==> k2 == k,
{
    lemma_probes_step(devs, vid, pid, k);
    lemma_probes_prefix(devs, vid, pid, k + 1);
    assert(probes(devs.take(k + 1), vid, pid)[nth] == devs[k]);
    assert forall|k2: int| #[trigger] is_nth_probe(devs, vid, pid, nth, k2) implies k2 == k by {
        if k2 != k {
            let (lo, hi) = if k < k2 {
                (k, k2)
            } else {
                (k2, k)
            };
            lemma_probes_step(devs, vid, pid, lo);
            assert(devs.take(hi).take(lo + 1) =~= devs.take(lo + 1));
            lemma_probes_prefix(devs.take(hi), vid, pid, lo + 1);
        }
    }
}

/// The labels of the connection speeds.
pub proof fn lemma_speed_labels()
    ensures
        speed_label(Some(UsbSpeed::SuperPlus)) == "USB-SS+ 10000 Mbps"@,
        speed_label(Some(UsbSpeed::Super)) == "USB-SS 5000 Mbps"@,
        speed_label(Some(UsbSpeed::High)) == "USB-HS 480 Mbps"@,
        speed_label(Some(UsbSpeed::Full)) == "USB-FS 12 Mbps"@,
        speed_label(Some(UsbSpeed::Low)) == "USB-LS 1.5 Mbps"@,
        speed_label(None) == "(unknown)"@,
{
}

/// The description of a device, piece by piece: its number in decimal, its
/// ids as four hexadecimal digits each, its serial number whole (`N/A`
/// where it has none), and the label of its speed.
pub proof fn lemma_nusb_line_layout(idx: nat, d: UsbDeviceInfo)
    ensures
        d.serial_number is Some ==> nusb_line(idx, d) == "<WCH-Link#"@ + decimal(idx)
            + " nusb device> ID "@ + hex4(d.vendor_id) + ":"@ + hex4(d.product_id) + " Serial "@
            + d.serial_number.unwrap()@ + " ("@ + speed_label(d.speed) + ")"@,
        d.serial_number is None ==> nusb_line(idx, d) == "<WCH-Link#"@ + decimal(idx)
            + " nusb device> ID "@ + hex4(d.vendor_id) + ":"@ + hex4(d.product_id)
            + " Serial N/A ("@ + speed_label(d.speed) + ")"@,
{
    reveal_strlit(" Serial ");
    reveal_strlit("N/A");
    reveal_strlit(" (");
    reveal_strlit(" Serial N/A (");
    let pre = "<WCH-Link#"@ + decimal(idx) + " nusb device> ID "@ + hex4(d.vendor_id) + ":"@
        + hex4(d.product_id);
    if d.serial_number is None {
        assert(" Serial "@ + "N/A"@ + " ("@ =~= " Serial N/A ("@);
        assert(nusb_line(idx, d) =~= pre + (" Serial "@ + "N/A"@ + " ("@) + speed_label(d.speed)
            + ")"@);
        assert(nusb_line(idx, d) =~= pre + " Serial N/A ("@ + speed_label(d.speed) + ")"@);
    } else {
        assert(nusb_line(idx, d) =~= pre + " Serial "@ + d.serial_number.unwrap()@ + " ("@
            + speed_label(d.speed) + ")"@);
    }
}

/// A description determines the serial number it shows: two devices with
/// the same number, ids and speed are described alike only where their
/// serial numbers are the same text, all of it.
pub proof fn lemma_nusb_line_determines_serial(idx: nat, d1: UsbDeviceInfo, d2: UsbDeviceInfo)
    requires
        d1.vendor_id == d2.vendor_id,
        d1.product_id == d2.product_id,
        d1.speed == d2.speed,
        d1.serial_number is Some,
        d2.serial_number is Some,
        nusb_line(idx, d1) == nusb_line(idx, d2),
    ensures
        d1.serial_number.unwrap()@ == d2.serial_number.unwrap()@,
{
    lemma_nusb_line_layout(idx, d1);
    lemma_nusb_line_layout(idx, d2);
    let x = "<WCH-Link#"@ + decimal(idx) + " nusb device> ID "@ + hex4(d1.vendor_id) + ":"@ + hex4(
        d1.product_id,
    ) + " Serial "@;
    let y = " ("@ + speed_label(d1.speed) + ")"@;
    let s1 = d1.serial_number.unwrap()@;
    let s2 = d2.serial_number.unwrap()@;
    assert(nusb_line(idx, d1) =~= x + s1 + y);
    assert(nusb_line(idx, d2) =~= x + s2 + y);
    assert(s1.len() == s2.len());
    assert(s1 =~= (x + s1 + y).subrange(x.len() as int, (x.len() + s1.len()) as int));
    assert(s2 =~= (x + s2 + y).subrange(x.len() as int, (x.len() + s2.len()) as int));
}

/// The probes are exactly the devices with the ids sought: each probe has
/// them and is one of the devices, and each device that has them is a probe.
pub proof fn lemma_probes_members(devs: Seq<UsbDeviceInfo>, vid: u16, pid: u16)
    ensures
        probes(devs, vid, pid).len() <= devs.len(),
        forall|j: int|
            0 <= j < probes(devs, vid, pid).len() ==> (#[trigger] probes(devs, vid, pid)[j]).vendor_id
                == vid && probes(devs, vid, pid)[j].product_id == pid && exists|i: int|
                0 <= i < devs.len() && devs[i] == probes(devs, vid, pid)[j],
        forall|k: int|
            0 <= k < devs.len() && (#[trigger] devs[k]).vendor_id == vid && devs[k].product_id
                == pid ==> exists|j: int|
                0 <= j < probes(devs, vid, pid).len() && probes(devs, vid, pid)[j] == devs[k],
    decreases devs.len(),
{
    if devs.len() > 0 {
        let init = devs.drop_last();
        let ps = probes(devs, vid, pid);
        let ps0 = probes(init, vid, pid);
        lemma_probes_members(init, vid, pid);
        assert forall|j: int| 0 <= j < ps.len() implies (#[trigger] ps[j]).vendor_id == vid
            && ps[j].product_id == pid && exists|i: int| 0 <= i < devs.len() && devs[i] == ps[j] by {
            if j < ps0.len() {
                assert(ps[j] == ps0[j]);
                let i = choose|i: int| 0 <= i < init.len() && init[i] == ps0[j];
                assert(devs[i] == ps[j]);
            } else {
                assert(ps[j] == devs[devs.len() - 1]);
            }
        }
        assert forall|k: int|
            0 <= k < devs.len() && (#[trigger] devs[k]).vendor_id == vid && devs[k].product_id
                == pid implies exists|j: int| 0 <= j < ps.len() && ps[j] == devs[k] by {
            if k < init.len() {
                assert(init[k] == devs[k]);
                let j = choose|j: int| 0 <= j < ps0.len() && ps0[j] == init[k];
                assert(ps[j] == ps0[j]);
            } else {
                assert(ps[ps.len() - 1] == devs[k]);
            }
        }
    }
}

/// The description of the probe numbered `idx`.
fn describe_nusb_device(idx: usize, d: &UsbDeviceInfo) -> (r: String)
    ensures
        r@ == nusb_line(idx as nat, *d),
{
    let mut s = String::new();
    s.append("<WCH-Link#");
    push_decimal(&mut s, idx as u64);
    s.append(" nusb device> ID ");
    push_hex4(&mut s, d.vendor_id);
    s.append(":");
    push_hex4(&mut s, d.product_id);
    s.append(" Serial ");
    match &d.serial_number {
        Some(serial) => s.append(serial.as_str()),
        None => s.append("N/A"),
    }
    s.append(" (");
    s.append(get_speed(d.speed));
    s.append(")");
    assert(s@ =~= nusb_line(idx as nat, *d));
    s
}

/// Describes the probes among `devices`, numbered from 0 in enumeration order.
pub fn list_libusb_devices(vid: u16, pid: u16, devices: &Vec<UsbDeviceInfo>) -> (r: Vec<String>)
    ensures
        r.len() == probes(devices@, vid, pid).len(),
        forall|j: int|
            0 <= j < r.len() ==> #[trigger] r[j]@ == nusb_line(
                j as nat,
                probes(devices@, vid, pid)[j],
            ),
{
    let mut result: Vec<String> = Vec::new();
    let mut idx: usize = 0;
    let mut i: usize = 0;
    while i < devices.len()
        invariant
            i <= devices.len(),
            idx == result.len(),
            idx <= i,
            idx == probes(devices@.take(i as int), vid, pid).len(),
            forall|j: int|
                0 <= j < result.len() ==> #[trigger] result[j]@ == nusb_line(
                    j as nat,
                    probes(devices@.take(i as int), vid, pid)[j],
                ),
        decreases devices.len() - i,
    {
        proof {
            lemma_probes_step(devices@, vid, pid, i as int);
        }
        let d = &devices[i];
        if d.vendor_id == vid && d.product_id == pid {
            let line = describe_nusb_device(idx, d);
            result.push(line);
            idx += 1;
        }
        i += 1;
    }
    assert(devices@.take(devices.len() as int) =~= devices@);
    result
}

/// The position in `devices` of the probe numbered `nth`, or
/// `ProbeNotFound` where there are not more than `nth` probes.
pub fn nth_probe_index(vid: u16, pid: u16, nth: usize, devices: &Vec<UsbDeviceInfo>) -> (r: Result<
    usize,
    Error,
>)
    ensures
        r is Ok <==> nth < probes(devices@, vid, pid).len(),
        r matches Ok(k) ==> is_nth_probe(devices@, vid, pid, nth as int, k as int),
        r matches Err(e) ==> e == Error::ProbeNotFound,
{
    let mut count: usize = 0;
    let mut i: usize = 0;
    while i < devices.len()
        invariant
            i <= devices.len(),
            count <= nth,
            count == probes(devices@.take(i as int), vid, pid).len(),
        decreases devices.len() - i,
    {
        proof {
            lemma_probes_step(devices@, vid, pid, i as int);
        }
        if devices[i].vendor_id == vid && devices[i].product_id == pid {
            if count == nth {
                proof {
                    lemma_nth_probe(devices@, vid, pid, nth as int, i as int);
                }
                return Ok(i);
            }
            count += 1;
        }
        i += 1;
    }
    assert(devices@.take(devices.len() as int) =~= devices@);
    Err(Error::ProbeNotFound)
}

} // verus!
