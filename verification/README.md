# mquictt

A verified library for [MQTT] over [QUIC]: the protocol logic of a publish/subscribe server and of
its client, written in Rust and proved with Verus.

QUIC carries many streams over one connection. A client opens one stream per topic that it
publishes to and one per topic that it subscribes to, so that data that is late on one of them does
not hold up the others.

## Layout

- `src/` is the library. It works on buffers that have been read from a stream, or that are about
  to be written to one.
  - `protocol` frames packets and reads publish streams; `packet` reads and writes packets with
    `mqttbytes`; `inbound` waits for a packet among those that come in.
  - `client` opens connections, publishes and subscribes.
  - `server` answers clients and tells what each stream is for; `registry` brings the subscribers
    and the publishers of a topic together; `relay` hands publishes on to subscribers, which
    `subscribers` keeps by keys.
  - `config` turns certificates and keys into TLS settings.
  - `laws` states what holds across these: packets are read back as they were written, however a
    stream is cut into reads, subscribers and publishers of a topic find each other whoever comes
    first, and what is published is what subscribers read.
- `app/` is the network around it: QUIC endpoints and streams with `quinn`, tasks with `tokio`,
  channels with `flume`, and the files that a configuration names.
- `tests/` runs the library with the crates that it depends on.

[MQTT]: https://mqtt.org/
[QUIC]: https://en.wikipedia.org/wiki/QUIC
