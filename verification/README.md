# ucp

A copy tool in the spirit of `scp`: SSH starts a server process on the far
machine, and the file itself travels over UDT, framed by the old rcp protocol
and, by default, sealed with XSalsa20-Poly1305 (sodiumoxide).

Layout:

- `src/` is the verified library.
  - `numeral.rs`: rendering and reading unsigned numerals (octal modes,
    decimal lengths) with the round trip between the two.
  - `rcp.rs`: the `C` header line, white-space splitting, reading a line.
  - `transfer.rs`: the source and the sink of one transfer as state machines
    (event in, action out).
  - `agreement.rs`: laws over whole runs of the two machines.
  - `crypto.rs`: keys and nonces, their base64 text, and the sealed framing
    with the reader's buffering.
  - `frames.rs`: laws over many frames (nonces never repeat; a reader gets
    every message back in order).
  - `cli.rs`: the decisions of the command lines (which side is remote, what
    the server does, its address, its port search, its connect line).
  - `text.rs`: byte-to-character helpers.
- `app/` is the program: argument parsing, files, sockets, logging,
  daemonizing, and the loops that carry out the machines' actions.
- `tests/` runs the library on concrete values.
