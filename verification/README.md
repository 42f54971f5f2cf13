# omega

An IPTV pipeline: it fetches JioTV and ZEE5 channel lists and programme
guides, reads IPTV-org M3U playlists, matches provider channels to
IPTV-org streams, and writes M3U playlists with genre and country
indexes, an XMLTV guide (plain and gzip) and a public manifest.

Layout:

- `src/` — the verified library (Verus). Name cleaning and the whole-number
  parts of similarity, the alias table, M3U parsing and writing, playlist
  buckets and indexes, XMLTV writing and escaping, the JSON model of provider
  records and the normalisation of JioTV and ZEE5 channels and programmes,
  stable ordering of schedules, guide assembly on tvg ids, the decisions of
  the pipelines (which rows become entries, which channels get a guide, the
  checks on written artifacts), the retry policy and the circuit breaker. Laws proved about them include
  that a written playlist reads back as its entries (`reread`), that
  cleaning a clean name changes nothing, and that taken targets are not
  offered again.
  Calls into chrono, strsim, sha2 and flate2 sit behind small trusted
  wrappers whose contracts say what those crates document.
- `app/` — the `omega` command: HTTP (reqwest), SQLite (sqlx), files, the
  command line (clap), and the floating-point match scores.
- `tests/` — tests of the library.
