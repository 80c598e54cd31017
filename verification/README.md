# loona

The core of an HTTP/1.1 and HTTP/2 server, written in Verus: buffer
management, the HTTP/2 frame layer, and the decisions an HTTP/2 server
connection makes, with their contracts proved.

- `src/` is the verified library:
  - `bufpool`, `roll`, `piece`, `bytes`: a reference-counted pool of
    fixed-size buffers, growable byte buffers over it, and pieces to write out
  - `frame`: HTTP/2 frame headers, flags, settings and payloads
  - `h2`, `process`, `headers`, `hpack`, `send`, `read`, `encoder`: the state of
    a server connection, what each frame read does to it, header blocks and
    their compression, what is sent within the flow-control windows, and the
    checks made while reading
  - `request`: a request head turned into a request, with its URI and header
    names parsed by the `http` crate; reason phrases of status codes
  - `http1`, `types`, `driver`, `chan`, `harness`, `service`: HTTP/1 heads,
    body and response types, the test servers' routes and handler, an
    in-memory reader, the listen line of a test server
  - `testgen`: the catalogue of conformance tests in a rustdoc index, and the
    source of the macro that turns it into `#[test]` functions
- `tests/` runs the library on concrete values.
- `app/` is ordinary Rust around it: error types with their messages, a
  blocking server loop that performs the reads and writes, the environment
  of a test server, and the generator that runs rustdoc and rustfmt around
  the catalogue.
