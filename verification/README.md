# crabwalk

A crab walks along the bottom of the screen, over the panel, and animates to
reflect what coding-agent sessions are doing: asleep in its corner while
idle, a gait chosen by the tool in use while working, waving while a session
waits for input, a celebration when a session finishes and a tumble when a
tool fails.

## Layout

- `src/` is the verified library. Every function in it carries a contract
  that Verus proves.
  - `geom`: integer rectangles (union, inflate, clamp, hit tests).
  - `json`: a parsed JSON object reduced to the plain values the logic
    reads; the parse itself is serde_json's.
  - `event`, `tracker`: hook payloads read from bytes (as JSON, or salvaged
    when truncated), and folding
    every session into one aggregate state (`WaitingInput` over `Working`
    over `Idle`), with stale sessions retired.
  - `inbox`: which event files a poll reads (`.json`, oldest name first, a
    bounded batch) and which a sweep deletes (too old, then oldest first
    while over the byte budget).
  - `config`: defaults, the keys a config file overrides (read from its
    bytes), validation, the bytes that rewrite single keys while keeping
    the rest, and which directory the inbox is.
  - `sprites`, `brain`: the sprite manifest, the animation for each state,
    the animation clock, and how the crab should move.
  - `menu`: the right-click menu's state and close timer.
  - `app`: what a pointer press does, which part of the strip a surface
    covers, demo and replay timers, replay logs, repaint decisions.
  - `render`: erasing pixel rectangles and damage bookkeeping.
  - `platform`, `font`: backend choice, pixel-format conversion, input
    region updates, and where to look for a menu font.
- `app/` is the program around it: command line, files, the clock, the
  skia-rs renderer, the fractional-pixel positions of the crab and its menu,
  and the Wayland layer-shell and winit/wgpu backends.
- `tests/` exercises the library on concrete values.

## Running

The program reads `crabwalk.json` from the XDG config directory and
watches `crabwalk/inbox` under the host's state directory, where the
hooks write: `CRABWALK_STATE_DIR` overrides it, and `XDG_STATE_HOME` is
skipped inside a Flatpak. Sprite sheets are PNG files (`spritesheet.png`,
`spritesheet-fancy.png`, `spritesheet-party.png`) in a `sprites` directory
next to the executable, or in `CRABWALK_SPRITES`. `CRABWALK_BACKEND`
forces `floating` or `layer-shell`, and `CRABWALK_FONT` names a font file
for the menu.
