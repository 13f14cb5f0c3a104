# webserver

A small HTTP server whose logic is verified with Verus.

- `src/paths.rs`: building the path of a file from a base directory whose
  components are separated by `/` or `\`, joined the way `PathBuf::push` joins
  them on Unix or on Windows (`PathStyle`, with Windows drive, UNC, device and
  verbatim prefixes); the HTML page directory and its default.
- `src/pattern.rs`: splitting text with the `regex` crate.
- `src/http.rs`: routing a request to a page and framing the response bytes.
- `app/`: the server programs (thread pools, sockets, files, environment).
