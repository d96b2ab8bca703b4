# decompressor

A reverse proxy that decodes `gzip` and `br` request bodies before forwarding
them upstream, for upstream services that cannot read compressed request
bodies. Responses come back as the upstream sent them.

## Layout

- `src/` is the verified library (Verus):
  - `proxy/encoding.rs` reads `Content-Encoding` (split at commas, trimmed,
    lowered) and decides between a plain body, a gzip body, a brotli body or a
    refusal;
  - `proxy/headers.rs` decides which request headers go upstream and adds the
    `X-Forwarded-*` headers;
  - `proxy/upstream.rs` resolves the upstream URL (refusing request targets
    that start with two slashes, which would name another host) and filters
    response headers;
  - `proxy/request.rs` runs those decisions in order for one request;
  - `proxy/error.rs` maps each failure to its HTTP status and text;
  - `proxy/header_map.rs` holds the trusted contracts of the `http` crate's
    header map that the rest is proved against;
  - `proxy/laws.rs` states properties of the proxy as a whole;
  - `config.rs` interprets the settings found in the environment.
- `app/` is the program: it reads the environment, serves HTTP with axum,
  streams and decodes bodies, and talks to the upstream with reqwest.
- `tests/` exercises the library on concrete requests.

## Settings

- `DECOMPRESSOR_LISTEN_ADDR` (default `0.0.0.0:5505`)
- `DECOMPRESSOR_UPSTREAM_URL` (default `http://127.0.0.1:8080`)
