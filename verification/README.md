# romp

The frame layer of Romp, a simple STOMP server, written in Verus.

- `src/stomp/mod.rs`: commands, headers and frames, with their wire text.
- `src/stomp/parse.rs`: a parser that takes a frame one byte at a time,
  specified by a step function over plain values, and `parse_frame`, which
  runs it over a buffer.
- `src/stomp/text.rs`: string comparison, UTF-8 decoding and decimal numerals.
- `src/client.rs`: how the server answers a client's frames.
- `app/main.rs`: the server program: logging, the TCP listener, one thread
  per client that reads bytes from its socket into the parser and writes the
  answers back.
