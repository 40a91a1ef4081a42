# wlink USB device layer

The part of the WCH-Link tool that finds probes and talks to them over USB.

- `src/` is the verified library (Verus): which enumerated device is the
  n-th probe, how probes are listed, which backend opens a probe (the
  platform backend of Windows x86 first, then the generic USB stack), and
  the byte layout of the WCH-Link vendor driver's requests and replies
  (read/write/timeout requests, the device descriptor). Proof functions in
  `src/` state the laws that tie these together, for instance that the probe
  `open_nth` opens is the one the listing shows under that number.
- `app/` is the I/O around it: enumeration and bulk transfers through `nusb`,
  the Windows driver calls, and the `USBDeviceBackend` trait they implement.
  On Windows x86 the WCH-Link vendor driver stands in as the platform backend
  for the CH375 DLL backend of the original, whose source is not part of this
  project.
- `tests/` runs the library on concrete values.
