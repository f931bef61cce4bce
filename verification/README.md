# nomad

Shared mouse, keyboard and clipboard across the machines of a LAN. At start-up
a node looks for a server with mDNS; when one answers it joins it as a client
(a screen), otherwise it becomes the server (the controller, where the
physical keyboard and mouse are). The cursor crosses to a neighbouring machine
when it reaches an edge of a screen, as on an extended desktop.

## Layout

- `src/` — the library, verified with Verus:
  - `protocol` node identities (UUID values) and systems;
  - `codec` length-prefixed frames and the streaming frame decoder;
  - `layout`, `placement` screens in a 2D plane, neighbours across edges,
    placement of screens (saved position or appended to the right);
  - `edge` the edge-switching controller;
  - `orchestrator` the decisions of the server and client loops (events in,
    actions out);
  - `held`, `clip` keys whose release must follow their press, clipboard echo
    suppression;
  - `known`, `config`, `status` machines already seen, configuration values,
    state shown to the user;
  - `ipc` the control API: requests, replies, error texts, `set_layout`
    validation;
  - `keymap`, `input` portable keys and their injectable form per platform;
  - `discovery`, `daemon`, `menu`, `text` naming on mDNS, restart plans and
    screen choice, the tray menu model, text helpers.
- `app/` — the program: command line, network (tokio, mdns-sd), control
  socket (JSON Lines), configuration file (TOML), capture and injection
  backends, clipboard backend, and the real-valued cursor arithmetic.
- `tests/` — tests of the library.

## What the program does not do here

- There is no tray icon: the tray is a macOS/Windows feature, and on Linux the
  program runs headless. The menu model it would show (`menu`) is in the
  library.
- The screen resolution is not detected: the display-information backend
  (`display-info`) is not available in this build environment, so the
  program uses the library's fallback resolution (1920×1080).
- The capture, injection and clipboard backends (`rdev`, `enigo`, `arboard`)
  are not available in this build environment, so `app/` does not build here
  as it stands.
