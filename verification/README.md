# logipeek

Battery and DPI diagnostics for Logitech HID++ mice, with the protocol logic proved
correct in Verus.

## Layout

- `src/` — the verified library.
  - `hid/hidpp.rs` — HID++ packets, feature lookup, the ping, and the read-only exchange
    (at most two attempts, retried only after a timeout or a HID++ Busy error). Every
    transport keeps a ghost record of the requests it sent, so contracts state exactly what
    goes on the wire.
  - `hid/transport.rs` — request encoding, input-report padding and reply matching.
  - `hid/features/battery.rs`, `hid/features/dpi.rs` — the `0x1000`/`0x1004` battery and
    `0x2201` DPI features: parsers, supported values, nearest value (ties go up), and the
    at-most-once DPI write with its read-back.
  - `hid/device.rs` — endpoint scanning, the opaque device identity, target selection, the
    fast revalidating write and the full unique-target preflight.
  - `app/` — the tray snapshot and its texts, settings file format, slider mapping,
    low-battery alert, startup command, the worker's decisions, and the settings window's
    input decisions (hit testing, slider gestures, the preset editor).
  - `strings.rs` — small string helpers with exact contracts.
- `app/` — the command-line program (`--devices`, `--diag`, `--battery`, `--dpi`,
  `--set-dpi <DPI>`) and the I/O around the library: HID enumeration and the transport over
  `hidapi`, the worker thread, and the settings file on disk.
- `tests/` — tests of the library.

## What this build does not include

The Windows notification-area front end is not part of this build: there is no tray icon, no
settings window, no tray-only `--startup` mode and no registry store for the startup value, and
running the program without arguments prints the help. The decisions those parts rely on (the
state snapshot and its texts, the slider, presets, alerts, settings and startup rules, the
window's input handling, and the worker's steps) are in the library, and the worker thread and settings file code in `app/` are
ready for such a front end, but nothing in this build starts them.

## Laws

Besides the contracts of each function, the library proves that:

- a saved settings file reloads unchanged, and any text reads as savable settings
  (`app::settings::law_saved_settings_reload`, `law_parsed_settings_are_savable`);
- low-battery notifications fire once per crossing, over any number of later readings, and
  re-arm only after a recovery (`app::battery_alert`);
- the slider reads back the value it was placed at (`app::slider::law_list_position_round_trip`,
  `law_range_position_round_trip`);
- a quoted startup path reads back as the same single argument
  (`app::startup::law_quoted_path_reads_back`);
- a successful DPI read reports as many sensors as the device counted, numbered in order
  (`hid::features::dpi::law_dpi_read_reports_each_sensor`).
