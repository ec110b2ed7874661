# Steam Workshop Utility

A tool for managing Steam Workshop items: it scans the local Steam libraries, shows each
game's downloaded workshop items with their status against the Workshop, and can
force Steam to download chosen items again (delete their folders, zero their entries
in `appworkshop_<appid>.acf`, queue the downloads and watch until they are up to date).
It can also subscribe to items with the logged-in Steam session and share collections
of items as text codes.

## Layout

- `src/` is the library, verified with Verus. Every public function states what it
  returns in its `ensures`; the laws of the library are public proof functions.
  - `model` — the application state and `AppModel::update`, which maps a message to
    the next state and the work to do (`Effect`s), with the invariant it keeps.
  - `listing` — what the window shows: the searched and sorted item list, game cards,
    bottom bar, status line and progress texts, and the message each control sends.
  - `acf` — the `appworkshop_<appid>.acf` patch.
  - `library`, `vdf`, `paths` — Steam library folders, app manifests, workshop folders,
    metadata matching, batching.
  - `appinfo` — the logo path in `appinfo.vdf`.
  - `api` — Web API and Steam Community requests.
  - `cookies` — reading the Steam session from the browser cookie store (the Linux
    keyring scheme and the Windows AES-GCM/DPAPI scheme).
  - `json` — one string read out of a JSON text along a path of keys.
  - `collection` — collection codes.
  - `general`, `text`, `sorting`, `types` — formatting, strings, stable sorting, data.
- `app/` is a command-line program around the library: file system, network, keyring
  and SQLite access, and the loop that performs the model's effects. On Windows the
  program cannot read the Steam session: the cookie key is protected by DPAPI
  (`CryptUnprotectData`), and no crate binding it is among this crate's dependencies,
  so that step reports an error; the library's Windows cookie functions take the DPAPI
  answers as arguments.
- `tests/` exercises the library on concrete values.
