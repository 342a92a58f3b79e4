# meusic

The logic of meusic, a music library and internet-radio player, as a Verus
library with its behaviour stated in contracts and proved.

- `src/` — the verified library:
  - `library` — tracks from tags, the library order, sidebar groups,
    durations, `file://` URIs and cover-art file names;
  - `view` — browsing modes, search and group filtering, headings,
    scrolling and style classes;
  - `playback` — the play queue (repeat, shuffle, previous, error streak),
    the radio connection (backoff reconnects, stall watchdog, permanent
    failures), station editing and the now-playing texts;
  - `radio` — the loopback proxy's routing, query decoding, `Range`
    parsing, stream headers, and the ICY metadata reader: what to read next
    and what each read does, with the law that the client gets exactly the
    stream's audio;
  - `stations`, `settings`, `cover`, `mpris`, `tauri_mpris`, `mini`,
    `paths`, `order`, `text` — the smaller pieces and shared helpers.
- `tests/` — tests on concrete values.
- `app/` — a command-line front end: folder scanning with lofty, walkdir
  and rayon, the config files, the proxy server (tiny_http, ureq), the
  tray check (zbus) and logging.
