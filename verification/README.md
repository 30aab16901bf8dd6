# camux

The verified core of Camux, a webcam splitter. On Linux one camera is
previewed and routed to a virtual camera that other applications read at
the same time; on macOS the cameras are listed and described, while preview
and routing report that they are not available there yet.

- `src/` is the library, checked by Verus:
  - `text`: Unicode whitespace and control characters, trimming,
    whitespace collapsing, substring search, number formatting.
  - `settings`: the settings and their validation, the launch-at-login
    entries and the steps of replacing the settings, XML escaping and its
    round trip, the virtual camera's status.
  - `platform`: what the camera backends report; for Linux the device-node
    numbers, capability and control flags, virtual-camera detection,
    deduplication and ordering of cameras, process names and control
    changes; for macOS the virtual-camera test, four character codes,
    capabilities and availability.
  - `streaming`: complete MJPEG frames, the preview's frame mailbox, the
    registry of capture sessions and the virtual-camera route, and the
    choice of capture mode.
  - `cli`: the device table of the command line tool.
- `app/` is the program around it: device access through V4L2 and
  AVFoundation, files and processes, capture threads, and the floating-point
  frame-rate and window arithmetic.
- `tests/` runs the library on concrete values.
