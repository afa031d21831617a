# picbad

Picbad is a self-hosted image and media host: per-user upload keys, storage
deduplicated by SHA-256, URL-driven image transforms, MP4 playback with byte
ranges, and an LRU cache of transformed variants.

The crate is split in two.

- `src/` is a library verified with Verus. It holds the service's rules and
  data structures, each public function with a contract:
  - `cache` — the transform cache: a sequence of files with unique keys, bounded
    in bytes, evicting least recently used files first; the eviction laws are
    proved over its model (`evict_spec`).
  - `auth` — account rules (first account administers, credential checks, roles,
    who may rotate keys, delete accounts or see files), bearer tokens and upload
    keys read from headers, upload keys and Argon2 password hashing.
  - `media` — format detection, the plan for serving a file (original, transform
    or refusal), byte ranges, links, paths of stored originals, HTML escaping.
  - `refusal` — every refusal with its HTTP status and message.
  - `schema` — the decisions of the database migration.
  - `text`, `digest`, `config`, `clock` — strings, decimal numbers, hex and
    SHA-256, paths, and the clock.
- `app/` is the web server around it (axum, sqlx, tokio, the `image` codecs):
  it reads requests, files and the database, and asks the library what to do.

`tests/` exercises the library on concrete values.
