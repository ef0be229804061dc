# flipsaver

A flip-clock screensaver for Windows (`/s` full screen on every monitor,
`/p <hwnd>` live preview, `/c` settings dialog, `--version`), with an
optional world-clock board per monitor.

- `src/` is the verified library: the face and board layout arithmetic,
  the digit and row formatting, the `Settings.ini` reader and writer (with
  the proof that the reader gives back what the writer wrote), the ordered
  per-monitor settings map, the command line, the dialog template and its
  control mapping, the time-zone key matching, and the per-window
  decisions of the running saver (when to flip, when a flip is over, when
  to quit).
- `app/` is the Win32 front end around it: windows and the message loop,
  Direct2D/DirectWrite drawing, the dialog procedure, the time-zone
  database, file I/O, and the floating-point fold geometry of a flip.
- `tests/` runs the library on concrete values.
