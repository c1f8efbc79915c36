# nect-rs

A driver library for the Xbox 360 Kinect (Kinect v1), with its logic
verified by Verus: every function of the library has a contract, and the
contracts are proved.

## Layout

- `src/` is the verified library.
  - `protocol.rs`, `camera_usb.rs`: the camera's command packets, the
    meaning of its replies, the register writes that start and stop the
    streams, and the motor's control requests.
  - `stream.rs`, `stream_bridge.rs`: reassembly of the isochronous packet
    stream into frames, with the state machine stated as a spec function and
    laws about whole frames.
  - `isoc.rs`: the decisions of isochronous streaming (which packets of a
    transfer are delivered, when a transfer is resubmitted, how long a stop
    waits).
  - `cameras.rs`: pixel format conversions (packed 10/11-bit samples, Bayer
    to RGB, YUV to RGB).
  - `registration.rs`: depth-to-millimetre conversion, depth-to-RGB
    registration, and the fixed-point registration polynomial.
  - `loader.rs`: firmware images and the bootloader protocol.
  - `modes.rs`, `flags.rs`, `usb.rs`: frame mode tables, camera flags, and
    recognising the Kinect's USB devices.
  - `device_core.rs`, `device.rs`: the state of the context and its devices,
    and what each device operation decides.
  - `codec.rs`, `text.rs`: byte order and numbers as text.
- `app/` holds what the library does not: USB access through `rusb` and
  `libusb`, isochronous transfers, callbacks, and the floating-point unit
  conversions and calibration tables. It asks the library what to send and
  hands it what came back.
- `tests/` exercises the library on concrete values.
