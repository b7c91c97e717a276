# niribg

Wallpaper daemon for the niri Wayland compositor, with blur on overview: the
wallpaper is sharp while you work and fades to a blurred, dimmed backdrop
whenever niri's overview is open.

## Layout

- `src/` is the library: everything that is decided and computed, verified with
  Verus.
  - `color`, `paths`, `config`, `slots`, `state`: settings, and what they
    resolve to for an output.
  - `proto`, `client`, `cli`: requests, replies, the command line and the status
    table.
  - `daemon`: geometry, composition and crossfades (`render`, `anim`), render
    jobs (`worker`), one output (`output`), the whole state machine (`control`,
    `wallpaper`, `report`), and the edges of the sockets (`framing`, `niri`,
    `socket`, `ipc`).
- `app/` is the program around it: the event loop, Wayland, sockets, files, and
  what needs floating point.
- `tests/` runs the library.

The state machine turns events into actions. `app/` carries the actions out in
order and hands the next event in.
