# texttv

A terminal reader for SVT Text-TV, written in Verus. The library under
`src/` holds the logic with machine-checked contracts; `app/` is the
program around it (command line, configuration file, network, terminal).

## Layout

- `src/cli.rs` — modes, sources, sizes, page-number validation, the section
  index, and what a run does (`command_of`).
- `src/config.rs` — the configuration file's fields and how flags, the file,
  the environment and defaults combine into a run's settings.
- `src/parse.rs` — texttv.nu's classed HTML into colored lines; SVT's page
  into subpage images and text.
- `src/render.rs` — the colored teletext stream, the plain text path and the
  decisions behind image output.
- `src/mosaic.rs` — mosaic glyph decoding, the pattern cache and the
  resolver's step function.
- `src/interactive.rs` — the browser's state machine: link scanning, key
  handling, fetch bookkeeping and the screen image.
- `src/ansi.rs`, `src/html.rs`, `src/json.rs`, `src/pixels.rs` — access to
  `owo-colors`, `crossterm`, `scraper`, `serde_json` and `image`, each call
  behind a trusted contract; `base64` is reached the same way from
  `src/parse.rs`, and `String::push` from `src/textutil.rs`.
- `src/fetch.rs` — page addresses and fetch error messages.
- `src/textutil.rs` — character classes, decimal formatting, string building.

The laws of the library are public proof functions named `law_*`.
