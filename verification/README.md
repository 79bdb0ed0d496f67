# cykusz_kernel

The networking stack, scheduler queues, signal tables, timers and byte
buffers of a small hobby kernel, written as a Verus library: each public
function states its behaviour in `requires` / `ensures`, and Verus proves it.

Layout:

- `src/net/` — Ethernet, ARP (with its cache), IPv4, ICMP, UDP, TCP (the
  connection state machine and its socket), DNS, DHCP, Unix sockets, port
  tables and the Internet checksum. Packets are byte sequences; the
  functions that answer a packet return the frames to send and the actions
  (wake readers, start a timer, ...) that the kernel then performs.
- `src/sched/` — the per-CPU run queues and the round-robin policy, the
  task table, and the lock count that puts off preemption.
- `src/session.rs` — process groups and sessions.
- `src/task/` — file tables and the address-space map of a task.
- `src/signal.rs` — signal masks, pending sets and handler entries.
- `src/timer.rs` — the list of armed timers, sorted by deadline.
- `src/params.rs` — the kernel command-line parameters.
- `src/utils/` — the ring buffer, alignment helpers.
- `src/bits.rs` — the bit-field operations the headers use.
- `tests/` — tests on concrete values.
- `app/` — what needs the machine: locks, statics, the driver interface and
  the loops that perform the actions the library decides.
