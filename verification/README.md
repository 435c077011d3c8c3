# pasotsu-term

A serial terminal with two panes, and the file transfers XMODEM, XMODEM-1K and YMODEM.

`src/` is a library that Verus verifies. It does no input or output of its own.

- Transfers: `transfer` is the state machine that a caller feeds with bytes and time; `sender` and
  `receiver` are its two sides, `packet` and `names` what goes over the line, `io` the file work
  that a transfer asks its caller to do. `session`, `batch`, `link` and `faults` prove what two
  sides do together: that files arrive, under which names, and what becomes of damaged and lost
  packets.
- Terminal: `app` says what keys do, `ui` what the window shows, as a list of steps; `channel`,
  `ports`, `style` and `layout` hold what they work on.
- `screen` keeps its terminals in the `vt100` crate, `layout` asks `ratatui` to share out the
  window, and `names` decodes Shift_JIS with `encoding_rs`. What is taken on trust of these crates
  is written above each function that calls them.

`app/` is the program around it: arguments, serial ports, files, and drawing with `ratatui`.
