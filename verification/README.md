# fastapi_verified

The protocol, parsing and rendering core of a FastAPI-style web framework,
written in Verus. The functions of `src/` carry contracts that Verus proves,
with the exception of the trusted items listed below.

## Trusted items

Verus believes these without proof; each has a doc comment that says what it
claims of the outside code it calls.

- Wrappers (`#[verifier::external_body]` functions, each one call into std or an
  outside crate): `push_char`, `from_utf8`, `to_lowercase`, `to_uppercase`
  (`text.rs`); `parse_i64`, `parse_i32`, `parse_u64`, `parse_u32`
  (`matching.rs`); `string_from_utf8_lossy` (`query.rs`); `json_string_object`
  (`digest.rs`, serde_json); `io_error_text`, `utf8_error_text`
  (`websocket.rs`); `strip_ansi_codes` (regex) and `text_width` (unicode-width)
  (`output/testing.rs`).
- Names for results that only the outside code defines: `unicode_lowercase`,
  `unicode_uppercase`, `utf8_lossy`, `display_width`. What `json_string_object`
  and `strip_ansi_codes` return is spelled out (`json_object_text`,
  `ansi_stripped`).
- Declared outside types, carried through opaquely: `std::num::ParseIntError`,
  `std::io::Error`, `std::str::Utf8Error`, `std::time::Instant`,
  `serde_json::Value`.

## Layout

- `src/` — the verified library
  - `body.rs`, `body_stream.rs` — Content-Length and chunked request bodies, whole
    and streamed (the streams are state machines a driver feeds with reads)
  - `response.rs` — response serialization and the chunked encoder; what the
    encoder writes, the chunked decoder of `body.rs` reads back
  - `query.rs` — query strings and percent-decoding
  - `multipart.rs` — `multipart/form-data`: boundaries, headers, whole and
    incremental parsing, forms and uploads
  - `digest.rs` — HTTP Digest authentication, with MD5 and SHA-256
  - `websocket.rs` — the handshake (SHA-1, base64) and the frame codec
  - `api_router.rs` — routers and the rules by which included routers merge
  - `matching.rs`, `method.rs` — route matches and allowed-method lists
  - `schema.rs` — JSON Schema values for OpenAPI
  - `context.rs`, `dependency.rs` — body limits and dependency caching policy
  - `output/` — console rendering: themes, routing debug views, HTTP inspectors,
    dependency trees, shutdown progress, test reports, test-output helpers
  - `text.rs`, `scan.rs`, `bits.rs`, `duration.rs` — shared text, byte and number helpers
- `tests/` — tests run against the compiled library
- `app/` — the parts that do I/O, hold process-wide state, use floating point or
  need serde derives: upload spooling, socket and body drivers, the debug switch,
  color contrast, schema (de)serialization

## Not in this crate

- The derive and attribute macros of the framework: they generate code with
  `syn` and `quote` at compile time, walk token trees and carry floating-point
  range bounds, none of which Verus can hold.
- The output-capture helpers that switch a process-wide output mode around a
  closure and collect what it printed: they rest on global mutable state and on
  a console facade (`RichOutput`) that this crate does not define.
