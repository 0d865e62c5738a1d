# efficax

The server of the efficax game: clients connect over TCP, announce a UDP
port, send their input, and receive the positions of all players at every
tick.

- `src/` is the library, verified with Verus: the wire format of messages
  and frames, reassembly of a TCP byte stream, routing of outgoing packets,
  the pairing of TCP and UDP endpoints, the table of clients and the
  messages sent on join, leave and tick, the timing of the tick loop, and
  the integer bookkeeping of the zone (which cell lists which entity and
  static).
- `app/` is the program around it: sockets and tasks (tokio), the tick loop
  with its clock, the floating-point physics, and a small schema reader.
- `tests/` exercises the library on concrete values.
