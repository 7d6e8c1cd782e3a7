# peanut

A small server that hands out pages and scripts over HTTP and exchanges binary messages over
WebSocket, on one thread.

- `src/` is the verified library. It holds all that the server decides: how frames are built and
  read (`frame`, `client`), how requests are answered (`text`, `http`, `handshake`, `server`), what
  an event on a socket leads to (`event`, `turn`, `write`), and when to tick and when to wait (`run`). Each
  function states in its contract what it does, and the proof functions named `law_..` state what
  holds of several of them together. It does no input or output.
- `app/` puts the library on real sockets with mio and calls the handlers of the server's user.
- `tests/` runs the library on concrete values.

The library relies on three crates. `ringbuf` holds the bytes of a connection that have arrived
or wait to leave, `sha1` and `base64` make the answer to a handshake. What is taken on trust of them
is said in the contracts of the functions marked `#[verifier::external_body]`.
