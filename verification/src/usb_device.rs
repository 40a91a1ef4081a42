//! The USB device layer: which backend opens the n-th probe, and the
//! listing of all probes.
//!
//! Two backends can reach a WCH-Link probe. On Windows x86 a platform backend
//! is tried first: there the CH375 DLL backend of the original stands, whose
//! source is not part of this project; the application puts the WCH-Link
//! vendor driver of `wch_link_driver` in its place. Everywhere, the generic USB
//! stack serves the probes the platform backend does not. Opening prefers the
//! platform backend; listing shows the platform backend's probes first.

pub mod libusb;
pub mod wch_link_driver;

use vstd::prelude::*;

use crate::error::Error;
use crate::usb_device::libusb::{
    is_nth_probe, lemma_nth_probe, list_libusb_devices, nth_probe_index, nusb_line, probes,
    UsbDeviceInfo,
};

verus! {

/// The transfer timeout of a freshly opened probe, in milliseconds.
pub const DEFAULT_TIMEOUT_MS: u64 = 5000;

/// The backend through which a probe is to be opened.
#[derive(Debug, Clone, Copy, PartialEq, Eq, Structural)]
pub enum OpenTarget {
    /// The platform backend (Windows x86), which has already opened the probe.
    PlatformBackend,
    /// Through the generic USB stack: the device at this position of its enumeration.
    Nusb(usize),
}

/// Chooses how to open the probe numbered `nth`.
///
/// `platform_opened` tells whether the platform backend opened probe `nth`
/// (always `false` where there is none); `usb_devices` is what the generic USB
/// stack enumerates. The platform backend's probe is taken where it opened;
/// otherwise the `nth` probe of the enumeration, or `ProbeNotFound` where
/// there are not that many.
pub fn open_nth(
    vid: u16,
    pid: u16,
    nth: usize,
    platform_opened: bool,
    usb_devices: &Vec<UsbDeviceInfo>,
) -> (r: Result<OpenTarget, Error>)
    ensures
        platform_opened ==> r == Ok::<OpenTarget, Error>(OpenTarget::PlatformBackend),
        !platform_opened ==> (r is Ok <==> nth < probes(usb_devices@, vid, pid).len()),
        !platform_opened ==> (r matches Ok(t) ==> (t matches OpenTarget::Nusb(k) && is_nth_probe(
            usb_devices@,
            vid,
            pid,
            nth as int,
            k as int,
        ))),
        r matches Err(e) ==> e == Error::ProbeNotFound,
{
    if platform_opened {
        return Ok(OpenTarget::PlatformBackend);
    }
    match nth_probe_index(vid, pid, nth, usb_devices) {
        Ok(k) => Ok(OpenTarget::Nusb(k)),
        Err(e) => Err(e),
    }
}

/// Every line of the listing: the platform backend's lines, then the probes
/// of the generic USB stack numbered from 0.
pub open spec fn listing(
    vid: u16,
    pid: u16,
    platform_lines: Seq<Seq<char>>,
    devices: Seq<UsbDeviceInfo>,
) -> Seq<Seq<char>> {
    platform_lines + probes(devices, vid, pid).map(|j: int, d: UsbDeviceInfo| nusb_line(j as nat, d))
}

/// Describes every probe: the lines of the platform backend (empty where
/// there is none), then the probes of the generic USB stack among
/// `usb_devices`.
pub fn list_devices(
    vid: u16,
    pid: u16,
    platform_lines: &Vec<String>,
    usb_devices: &Vec<UsbDeviceInfo>,
) -> (r: Vec<String>)
    ensures
        r@.map_values(|s: String| s@) == listing(
            vid,
            pid,
            platform_lines@.map_values(|s: String| s@),
            usb_devices@,
        ),
{
    let mut ret: Vec<String> = Vec::new();
    let mut i: usize = 0;
    while i < platform_lines.len()
        invariant
            i <= platform_lines.len(),
            ret@ == platform_lines@.subrange(0, i as int),
        decreases platform_lines.len() - i,
    {
        let line: String = platform_lines[i].clone();
        assert(line == platform_lines@[i as int]);
        ret.push(line);
        i += 1;
        assert(ret@ =~= platform_lines@.subrange(0, i as int));
    }
    assert(platform_lines@.subrange(0, platform_lines.len() as int) =~= platform_lines@);
    let ghost first = ret@;
    let mut rest = list_libusb_devices(vid, pid, usb_devices);
    let ghost second = rest@;
    ret.append(&mut rest);
    assert(ret@.map_values(|s: String| s@) =~= listing(
        vid,
        pid,
        platform_lines@.map_values(|s: String| s@),
        usb_devices@,
    )) by {
        assert(ret@ =~= first + second);
    }
    ret
}

/// Listing and opening agree: where `open_nth` picks the device at `k` of the
/// generic USB stack for `nth`, the listing describes that very device as
/// probe number `nth`, right after the platform backend's lines; and the
/// listing has one such line for each `nth` that `open_nth` can open there.
pub proof fn lemma_open_agrees_with_listing(
    vid: u16,
    pid: u16,
    nth: int,
    k: int,
    platform_lines: Seq<Seq<char>>,
    devices: Seq<UsbDeviceInfo>,
)
    requires
        is_nth_probe(devices, vid, pid, nth, k),
    ensures
        platform_lines.len() + nth < listing(
            vid,
            pid,
            platform_lines,
            devices,
        ).len(),
        listing(vid, pid, platform_lines, devices)[platform_lines.len() + nth]
            == nusb_line(nth as nat, devices[k]),
        listing(vid, pid, platform_lines, devices).len() == platform_lines.len()
            + probes(devices, vid, pid).len(),
{
    lemma_nth_probe(devices, vid, pid, nth, k);
}

/// The listing takes the platform backend's lines whole and in order, then
/// one line per probe of the generic USB stack in enumeration order; so
/// listing with more platform lines only puts them in front.
pub proof fn lemma_listing_parts(
    vid: u16,
    pid: u16,
    platform_lines: Seq<Seq<char>>,
    devices: Seq<UsbDeviceInfo>,
)
    ensures
        listing(vid, pid, platform_lines, devices).len() == platform_lines.len() + probes(
            devices,
            vid,
            pid,
        ).len(),
        forall|i: int|
            0 <= i < platform_lines.len() ==> #[trigger] listing(vid, pid, platform_lines, devices)[i]
                == platform_lines[i],
        forall|j: int|
            0 <= j < probes(devices, vid, pid).len() ==> #[trigger] listing(
                vid,
                pid,
                platform_lines,
                devices,
            )[platform_lines.len() + j] == nusb_line(j as nat, probes(devices, vid, pid)[j]),
        listing(vid, pid, platform_lines, devices) == platform_lines + listing(
            vid,
            pid,
            Seq::empty(),
            devices,
        ),
{
    assert(listing(vid, pid, platform_lines, devices) =~= platform_lines + listing(
        vid,
        pid,
        Seq::empty(),
        devices,
    ));
}

} // verus!
