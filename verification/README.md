# vhost-user-sound

The logic of a vhost-user device that offers a VIRTIO sound card to a virtual
machine, verified with Verus.

- `src/stream.rs`: the command life cycle of a PCM stream, what a stream
  supports, and the reading of a request's payload out of guest memory.
- `src/audio_backends/pw_backend.rs`: what the PipeWire backend decides for each
  command, and the data on its way from the driver to the audio server.
- `src/audio_backends/ringbuffer.rs`: the ring buffer in between.
- `src/guest.rs`: the boundary to `vm-memory`. What is stated there of its
  functions is not proved.
- `src/virtio_sound.rs`: the numbers of the VIRTIO sound protocol.
- `app/`: the daemon and the connection to the PipeWire server, in ordinary
  Rust. It needs the PipeWire library of the system.
- `tests/`: tests of the library.

The proof functions whose names start with `law_` state what holds across calls,
for example that, where the guest leaves its memory alone, a request yields its
payload byte for byte however it is cut into reads, or that the audio server gets
exactly the bytes that the driver sent, in the order of sending.
