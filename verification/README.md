# tamp_lib

The rules behind tamp, a tray app that compresses screen recordings to a
size target (Discord's 10 MB, say), written in Verus: each function states
what it returns in its contract and is proved to meet it.

## Layout

- `src/` — the verified library.
  - `settings` — presets, the preferences, the fresh profile, and `validate`
    (which problem is reported, in which order).
  - `scanner` — the `(tamped …)` output-name grammar, which files of a folder
    are sources, covered outputs or orphans, the newest-first listing.
  - `encoder` — job phases and eviction, cancellation, delivery and
    post-action messages, the ffmpeg error tail; `encoder::job` (the state
    machines of a single-output and a split job: reuse or encode, engine
    and hardware choice, cancel after the engine, the size re-check, post
    actions and journal record, all-or-nothing split sets),
    `encoder::convergence` (the size-convergence loop), `encoder::plan`
    (filter chain, output and part names), `encoder::args` (ffmpeg command
    lines), `encoder::retry` (retry vocabulary and the gif loop's decision),
    `encoder::bin` (where the bundled ffmpeg/ffprobe live).
  - `journal` — the conversion journal: dedup by output set, the cap,
    newest-first lookups, and the migration of legacy per-part records.
  - `durations` — which cache entries to evict.
  - `update_check` — which release, if any, is offered as an update.
  - `logging` — log rotation, levels, RFC 3339 timestamps (with a verified
    calendar).
  - `shortcuts`, `commands`, `context_menu`, `platform` — accelerators and
    notification text, command decisions, the Explorer menu's
    all-or-nothing registration, tray text and keyboard-layout rewriting.
  - `text` — character-level helpers the rest is built on.
- `tests/` — example-based tests of the library's public functions.
- `app/` — the I/O around the library: files, ffmpeg/ffprobe processes,
  the job worker that performs the steps the job machines ask for, the
  network request of the update check, and the floating-point parts of
  encode planning.

Laws that relate several functions are public proof functions named
`lemma_…` next to the functions they speak of.
