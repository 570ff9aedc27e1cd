# turbostroi

A Garry's Mod binary module that runs train scripts, each on a thread of
its own with its own Lua state, and lets the host and the trains exchange
byte messages.

- `src/` is the verified library:
  - `message.rs`: messages, byte buffers with a cursor; byte and integer
    reads and writes, seeking, handing the bytes over; the laws that a read
    gives back what a write stored.
  - `encoding.rs`: little-endian encoding and two's-complement reading.
  - `registry.rs`: the running trains by id.
  - `train.rs`: the control flow of a train's worker as a step function.
  - `affinity.rs`: CPU affinity masks to CPU lists and back.
  - `text.rs`: decimal text of numbers, for error messages.
- `app/` is the module itself: the Lua bindings, the worker threads and
  channels, and the operating-system calls that pin threads to CPUs.
- `tests/` runs the library on concrete values.
