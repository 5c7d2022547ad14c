# httpsd

An HTTP server whose protocol logic is written in [Verus](https://github.com/verus-lang/verus):
executable Rust with contracts that are proved.

- **Sans-I/O engines.** `proto` (HTTP/1.0 and 1.1), `h2` (HTTP/2) and `h3`
  (HTTP/3) turn bytes into requests and responses into bytes. They own no socket;
  HTTP/3 runs over a QUIC connection that owns none either.
  Time, file contents and name lookups are arguments.
- **Layers.** `tls` (on [purecrypto](https://crates.io/crates/purecrypto)) and
  `compress` (on [compcol](https://crates.io/crates/compcol)) are joined with the
  engines in `session`.
- **Applications.** `router`, `static_files` and the `Handler` trait; `interop`
  converts to and from the types of the [http](https://crates.io/crates/http)
  crate.
- **Automatic certificates.** `acme`: JSON, JWS, the order of an issuance as a
  state machine, the certificate cache, and where things are stored.
- **Runtimes.** `rt` decides for the thread-pool, mio, tokio and QUIC runtimes:
  throughput windows, connection limits, certificate routing, timers.
- **The program.** `cli`, `config`, `startup` and `privdrop`: options, settings,
  and the order in which privileges are dropped.

Each module defines the models that its contracts speak of beside its types.
Properties that relate several functions are public proof functions named
`law_…`.

What the outside crates do is stated in the contracts of the functions marked
`#[verifier::external_body]`; everything else in `src/` is proved.

`app/` holds the program itself: sockets, files, system calls, and the loops that
perform what the library decides. `tests/` runs the library, with the outside
crates linked.
