# rack_panel

The logic of a status display for a small rack-mount LCD (160 by 80 pixels,
behind a bridge on an I2C bus), written and verified in Verus, and a daemon
around it.

- `src/framebuffer.rs` — the frame, what drawing does to it, and which rows a
  flush has to send
- `src/st7735.rs` — the writes that put a block of pixels on the panel, and the
  time they take
- `src/header.rs`, `src/pages.rs`, `src/layout.rs` — what the header and the
  pages draw
- `src/rotation.rs`, `src/display.rs` — which page is up, when it is drawn
  again, and how a frame comes about
- `src/history.rs`, `src/stats.rs`, `src/host.rs`, `src/storage.rs` — samples of
  the host, the warnings they call for, and the texts they are read from
- `src/text.rs`, `src/numbers.rs`, `src/font.rs`, `src/color.rs`,
  `src/panel.rs` — what these rest on
- `src/laws.rs` — laws that relate several of these: a flush brings the panel
  up to date though only changed rows are sent, pages stay in their area, no
  page that wants to show is passed over, and others
- `app/` — the daemon: command line, bus, window, threads, files and commands

Glyphs come from embedded-graphics. Its text drawing, its fonts' sizes and its
color type, and two functions of the standard library, are the only code whose
behaviour is taken on trust in `src/`; each stands behind a declaration that
says what is taken.
