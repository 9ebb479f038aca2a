# can_bus

CAN bus transport: one classical CAN frame is one Stream, the identifier beside
it; frames for SocketCAN, and a loopback bus for the protocols above it, with no
CAN interface needed. The `socketcan` crate makes the kernel's frames, so the
library builds on Linux. The library under `src/` is verified with Verus.

## Layout

- `frame`, `hex`, `uri`: the frame, and identifiers written into URIs and read
  back from them.
- `bus`: the `Bus` trait and `Loopback`, the in-process bus.
- `stream`, `transport`: Streams cut into frames and put together again, and
  `CanTransport`, which sends and receives them over a bus.
- `loopback`: `Session`, two nodes on one simulated bus.
- `kernel`: frames to and from the `socketcan` crate.
- `laws`: what holds of the library as a whole.

`app/` is ordinary Rust around it: buses shared between threads, the kernel
socket, and the Stream transport that the rest of the estate calls.

## The bus

A bus is changed by reading and writing it, so `receive` and `transmit` take it
mutably, and a transport owns its bus. Where several holders share one, the
sharing is `app/shared.rs`.

A bus may state, in the ghost functions of `Bus`, which outcomes it allows.
One that states nothing promises nothing; sending and receiving are specified
over it all the same. A whole `round`, or `take_one`, reads until the bus is
quiet and asks for a bus whose backlog is known. Where it is not, as on a
kernel bus, `begin_round` and `Gathering::after_in_round` are the same round
step by step, and the caller runs the loop.
