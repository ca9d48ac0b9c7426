# vmm_devices

Device models of a small virtual machine monitor, written in Verus: the MMIO bus, the
virtio-mmio transport with its split virtqueues, the block, network, entropy, balloon and vsock
devices, a serial console, token-bucket rate limiting, and snapshots of device state.

- `src/` is the library, all of it verified against the contracts it states. What holds across
  functions stands in public proof functions whose names begin with `law_`.
- `tests/` runs the library on concrete values, with real guest memory and a real UART.
- `app/` is ordinary Rust around it: files, taps, sockets, event descriptors, worker threads and
  serialisation. It hands the library plain values and performs what the library decides.

Guest memory is a `vm_memory::GuestMemoryMmap`. What the library takes for granted about it, about
the system's random number source and about the clock is declared in `src/guest_memory.rs`,
`src/virtio/rng/entropy.rs` and `src/rate_limit.rs`, and nowhere else.
