# tinyproto

An HDLC protocol library whose behaviour is stated in contracts and proved
with Verus.

- `src/` is the verified library:
  - `proto::error`: error kinds and their numeric codes;
  - `proto::crc`: the frame checks (8-bit sum, FCS-16, FCS-32);
  - `proto::hdlc`: byte stuffing and framing (`framing`), a one-shot
    encoder/decoder (`low_level`), the streaming framing state machine
    (`low_level_ll`), framing with event bits and notifications
    (`high_level`), frame containers and processing pipelines;
  - `proto::light`: sending and reading single frames;
  - `proto::fd`: the Full-Duplex protocol (ABM/NRM, I/S/U frames, sliding
    window, retransmission), its rules as spec functions over a model of
    the station (`protocol`), and properties of those rules (`properties`).
- `tests/` runs the library on concrete values.
- `app/` holds what is not verified: callback-style handles, and the loops
  that move bytes to and from a channel, wait and give up after a timeout.

The library never blocks and never calls user code: it reports events in a
queue (`pop_event`) and hands out or takes bytes one call at a time, so that
every decision it makes has a contract.
