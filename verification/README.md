# deboa

The core of an HTTP client, with its behaviour stated and proved in Verus:
building requests (methods, headers, cookies, forms, authentication),
reading a request written as text, reading typed values out of responses
(content type, content length, cookies), connection settings, and the text
expansion of the request macros.

Layout:

- `src/` — the verified library. `request.rs`, `request_ext.rs`,
  `request_text.rs` and `request_line.rs` build and parse requests;
  `response.rs` reads responses; `form.rs` encodes forms; `cookie.rs`,
  `header.rs`, `into_headers.rs` and `encoding.rs` hold the header-level
  rules; `macros.rs` expands the request macros; `laws.rs` proves how the
  operations relate (what a read gives back of a write).
  `http_map.rs`, `url.rs`, `uri.rs` and a few wrappers in other files are
  the trusted boundary to the `http`, `url`, `indexmap`, `hashbrown`,
  `urlencoding`, `base64`, `rand`, `minimime`, `proc-macro2` and `syn` crates.
- `app/` — what does I/O or speaks other crates' types: the async connection
  traits, reading multipart files, writing bodies to files, conversions to
  and from `http` and `std` types, and the macros over token streams.
- `tests/` — tests of the library.
