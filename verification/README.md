# raw-pty-stream

A bounded journal of terminal output that stays in step with the terminal's
parser, and the delivery of that output to clients.

A stream numbers every byte of output. Its journal keeps the latest bytes in
chunks, so that a client can resume exactly where it stopped as long as the
journal still holds what comes next; otherwise the client starts over from a
snapshot of the screen. A pump delivers a stream to one client in order, sends
nothing before the client has acknowledged the start, and never runs more than
one mebibyte ahead of the client's acknowledgements.

- `src/` is the library. Every function carries a contract that Verus proves.
  - `journal`: chunks, sequence positions, publication and trimming
  - `alt_screen`: recognition of switches to the alternate screen
  - `stream`: attaching, reading ranges, following a stream
  - `pump`: what is sent to a client next, and which acknowledgements count
  - `product`: release policy
  - `laws`: what holds across these operations
  - `delivery`: what holds of a whole delivery, whatever happens in between
- `app/` shares streams between threads and runs one delivery thread per client.
- `tests/` runs the library on concrete values.
