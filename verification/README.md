# boltscribe

The rules of the BoltScribe dictation assistant as a verified library:
configuration normalisation and import, shortcut parsing, input-device
ranking, the speech-recognition wire protocol and audio framing, the text
correction request and reply, the history store (pruning, deletion,
recording cleanup, paging), the input statistics, moving the data
directory, the Fn long-press trigger and the placement of the overlay.

- `src/` — the library, verified with Verus. Each public function states
  what it returns in its contract; `law_*` proof functions state properties
  that span calls (pruning never deletes a recording a kept record names,
  records go oldest first, device ranking honours the blacklist, an exported
  configuration imports back unchanged, a live session's result is
  consistent, …).
- `tests/` — tests on concrete values.
- `app/` — a command-line front end that reads and writes the configuration,
  the history files and the data directory, and computes the few
  floating-point quantities (audio levels, volumes, overlay geometry).

Outside crates: `flate2` (gzip of protocol frames), `dirs` (home and data
directories), `uuid` (recognising recording names) and `serde_json`
(reading JSON text: imported configurations and history lines) are called
from the library through small trusted wrappers; `serde`, `chrono` and
`anyhow` serve the front end.
