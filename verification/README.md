# npm_cdn

The verified core of a CDN that resolves npm dependency trees.

- `src/` (Verus): the library, verified against its contracts (the clock
  reading `secs_since_epoch` has none: its result is the time).
  - `query`: base64 request decoding, specifier parsing, `parse_query`.
  - `deps`: the retry policy of resolution (`pkg_to_fetch`, `ResolveRetry`),
    alias folding, reply cache headers.
  - `error`, `error_reply`: errors, their HTTP status and texts, error replies.
  - `package`, `document`: registry metadata and the stored minimal form.
  - `store`, `cache`: checkpoint encoding, refresh rule, health answer, and
    the LRU package cache.
  - `strmap`, `text`: a string-keyed map and small text utilities.
- `app/`: the HTTP server (warp), RocksDB storage, registry downloads and
  serde copies of the library types.
- `tests/`: tests of the library.
