# tokio_tcpmux

Many virtual streams over one TCP connection. Every frame on the wire starts
with an eight-byte big-endian header word: the payload size in bits 63..32, the
stream id in bits 31..2 and the frame kind (data, open, open-acknowledge,
close) in bits 1..0.

Layout:

- `src/` — the verified library (Verus):
  - `messages.rs`: frame kinds and the header word, read and written through
    the `bitfield` crate, with the field layout proved;
  - `buffers.rs`: the `bytes` buffers frames are built in, and the big-endian
    encoding of the header word;
  - `frames.rs`: control frames, and the cutting of writes into data frames of
    at most the configured size, proved to lose and reorder nothing;
  - `state.rs`: round-robin allocation of stream ids;
  - `registry.rs`: the open and pending streams of a connection, and what each
    received header means for them. The stream tables are std `HashMap`s keyed
    by stream id (vstd specifies them); `app/` shares the registry between
    tasks behind a lock;
  - `mux.rs`: the configuration; `errors.rs`: the error type.
- `app/` — the asynchronous part on tokio: the connection's reader and writer
  tasks, `Mux::connect` / `Mux::accept`, and `MuxStream` as `AsyncRead` /
  `AsyncWrite`. It asks the library what to do and which bytes to send.
- `tests/` — tests of the library on concrete values.
