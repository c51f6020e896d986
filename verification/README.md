# Spotify Canvas Downloader

An HTTP service that resolves the Canvas media URL of a Spotify track, with
its rules written in Verus and proved.

- `src/` is the verified library: track ID validation and the API's answers
  (`api`, `error`), the configuration rules (`config`), the TOTP secret, its
  catalog and the token and secret caches (`spotify::auth`), and the Canvas
  endpoint's protobuf messages (`spotify::canvas`, on top of `wire`).
- `app/` is the server around it: environment, HTTP calls with `reqwest`,
  the `axum` routes, locks and logging. It performs what the library's step
  functions decide.
- `tests/` exercises the library, and checks the protobuf codec against
  `prost` on many generated bodies.
