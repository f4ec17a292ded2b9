# MySQL Tray Controller — verified core

A Windows tray controller for a MySQL or MariaDB service. This crate holds
the logic of the program, verified with Verus; `app/` wraps it into the
Windows tray application.

Layout:

- `src/text.rs` — the Unicode whitespace class, trimming, shortening text.
- `src/config.rs` — reading `config.ini` and writing it back; reading a saved
  file gives the saved configuration again when the service name is not
  empty, holds no line break, and has no whitespace or double quote at
  either end, and the refresh interval is within 1 to 60 seconds.
- `src/state.rs` — service states, their labels and colours, and what the
  menu and tooltip show for each.
- `src/service.rs` — start/stop/restart as steps against the Service Control
  Manager, the waiting loop and its outcome, elevated command lines, service
  detection.
- `src/icon.rs` — the shapes of the status icon, circle and rounded-rectangle
  pixels, colour shading, pixel addressing and the box filter.
- `src/tray.rs` — decisions of the tray's event loop, including when the
  status is next queried.
- `app/main.rs` — Windows I/O, the tray UI, and the floating-point rendering.
- `tests/` — tests of the library on concrete values.
