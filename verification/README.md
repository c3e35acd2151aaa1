# AppManager

The core of a manager for portable applications on Windows: a library of
applications in categories, kept next to the program, that can be scanned,
launched, and shared over a small HTTP server.

- `src/` is the core, with contracts that Verus proves: the catalogue
  (`catalog`, `actions`, `settings`, `model`), scanning (`scan`,
  `executables`), names and paths (`names`, `paths`, `layout`), icons
  (`icons`, `base64`), packages and pending uploads (`package`, `review`),
  the HTTP server and client (`http`, `server`, `client`, `wire`), transfers
  (`transfer`, `streams`, `sessions`), and what these are built from (`text`,
  `split`, `numbers`, `utf8`, `json`, `fnv`, `order`, `lists`). `exchange`
  proves that client and server understand each other.
- `app/` is the program around it: the window, files, sockets and zip
  archives. It hands plain values to the core and does what the core decides.
- `tests/` runs the core on concrete values.

JSON is read and written by `serde_json`, readings of Chinese characters come
from `pinyin`. What the proofs take for granted of them stands above the
functions that call them, in `src/json.rs` and `src/names.rs`.
