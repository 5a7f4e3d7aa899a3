# daysquare backend

A small web backend that collects descriptions of web APIs.

- `src/` is the verified library (Verus):
  - `parsers/url.rs` parses API descriptions such as
    `https://spotify.com|v1/{artist,id}/hello?joe=5&bloe=4` into a base URL,
    a version, path parameters and query parameters;
  - `http/` resolves the scheme, host and client address of a request from
    its `Forwarded`, `X-Forwarded-*` and `Host` headers;
  - `configuration.rs` holds the settings and builds the listening and
    database addresses from them;
  - `tracelog/` holds the request id and root span handed to handlers;
  - `text.rs` holds the character-level building blocks (white space,
    trimming, splitting).
- `app/` is the server around it: reading the configuration file, the
  routes, the database and the tracing layer.
- `tests/` exercises the library.
