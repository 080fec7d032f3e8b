# ludex_desktop

The core of the Ludex desktop client — the Windows companion that downloads,
extracts, installs and launches games from a Ludex server — written in Verus,
with each function's behaviour stated in its contract and proved.

## Layout

- `src/` — the verified library.
  - `text` — strings as character sequences: case folding, search, trimming,
    decimal numbers.
  - `names` — what a file name says: split-RAR volume stems, extensions, disc
    images, installers, helper executables, crack folders.
  - `paths` — Windows path prefixes (disk, UNC, device, verbatim), joining,
    file names, and the safe join that keeps archive entries inside the
    install folder with legal names.
  - `rar` — grouping split-RAR volumes into sets and choosing the first volume.
  - `walk` — the depth-first order in which folder trees are walked.
  - `scan` — choosing the disc image, installer, disc setup and main executable.
  - `slug_map` — a string-keyed map with its contents stated as a `Map`.
  - `config` — settings, install entries, the installed-games report.
  - `registry` — the pause/cancel controls of running downloads.
  - `download` — records, how a run starts and what its end removes, totals,
    progress, control actions and outcomes of a download.
  - `finalize` — what happens to a finished download, the order in which a
    payload is handled, and the notes for a disc setup to finish by hand.
  - `launch` — the PowerShell mount/dismount commands and their answers.
  - `http` — the server API's paths, resume requests and error messages.
  - `media` — cover content types, cache names and `data:` URLs.
  - `session` — login, connection, install flags and what playing launches.
- `tests/` — tests against the compiled library.
- `app/` — the commands around the library: files, the credential store,
  HTTP, archives and processes.
