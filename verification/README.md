# matrix_fileshare

Peer-to-peer file sharing over Matrix. A sender posts an offer for a file to
a room; a receiver asks for it and gets it either directly over Iroh or, as
a fallback, as 48 KiB base64 chunks in Matrix to-device messages; either
way the file is checked against the SHA-256 digest the offer announced.

`src/` is the verified library (Verus):

- `transfer` — cutting a file into chunks, taking chunks in (in any order,
  with repeats), the digest check, and the laws that tie sender and
  receiver together (a run of chunk calls that brings every chunk gives
  back exactly the file).
- `matrix_client` — session file locations, restoring a saved session or
  falling back to the password, homeserver addresses, login and sync
  failure messages, the paging scan for offers in a room's history,
  offer creation, media types, terminal progress lines, and what the sync
  loop does with each event.
- `cli` — commands, room identifiers typed in a shell, the printed tables,
  download requests.
- `state`, `events` — the records and protocol events; human-readable sizes.
- `table`, `codec`, `paths`, `text` — a keyed table, base64/SHA-256/hex,
  paths as text, and text helpers.

The transfers are kept in `OfferTable`, a vector of key/value pairs with no
key twice, rather than a std `HashMap<String, _>`: with `String` keys vstd's
map specification proves nothing of what an insertion does (a table that had
one `String` inserted could not be shown to hold one entry), so no contract
about the transfers could have been proved over it.

Paths are text. Where the platform's separator is `/`, `paths` follows the
Unix path grammar itself and states it; elsewhere (Windows) it hands the path
to std's `Path`, whose grammar there is not stated, so the contracts that
name a path say what it is on a platform whose separator is `/`. The
platform's data directory is taken as text too, so a data directory that is
not valid Unicode is read with its invalid parts replaced.

`app/` is the program around it: the Matrix SDK, Iroh, Tauri and clap, file
and network I/O, and serde forms of the library's records.
