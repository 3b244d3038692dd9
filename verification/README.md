# soncollection

A gallery for the "son" meme and its variants, with its rules proved by
Verus.

- `src/` is the library, its logic verified: the upload
  pipeline as a state machine, image decoding limits, squaring and the
  invisible provenance watermark, duplicate fingerprints, keyset pagination
  and its cursors, likes and reports, the sealed session and sign-in
  cookies, oEmbed and the embed card, sitemap, robots and `llms.txt`, the
  cache-header policy, and the decisions behind the gallery, detail, upload
  and admin pages. The calls into std's Unicode tables and
  into the `image`, `png`, `cookie`, `sha2`,
  `base64`, `rand` and `serde_json` crates sit behind small trusted
  wrappers that are not verified; their contracts say what each call
  does, and the proofs rest on them.
- `tests/` runs the library with those crates linked.
- `app/` is the server around it: configuration, the Axum router, the D1
  HTTP client, local image storage, the screening sidecar, Google sign-in
  and the admin browser relay.
