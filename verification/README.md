# mobiletunnel

A reconnecting TCP tunnel with stream multiplexing. Its typical use is an ssh
port forward that persists over network changes.

`src/` is the verified library: the wire formats, the reconnecting stream, the
multiplexer with its flow control, and the rules by which the tunnel is started
and kept up. Its functions decide and compute; they touch no socket, process or
clock. What they do is stated in their contracts, and what follows for the
tunnel as a whole in the proof functions whose names start with `law_`:

* `delivery.rs`: two ends of the reconnecting stream deliver every message once
  and in order, whatever becomes of their connections;
* `stream_codec.rs` and `channel_message.rs`: what is encoded is read back,
  however the bytes are cut into pieces;
* `stream_multiplexer.rs` and `internal_stream.rs`: each stream gets what was
  sent to it, and nothing else;
* `tunnel.rs`: both together, from the multiplexer at one end to the one at the
  other;
* `flow_control.rs`: the other end is paused and resumed in turn, and not left
  paused;
* `launch.rs`, `ssh_runner.rs` and `server_check_port.rs`: what one side of the
  ssh connection prints is understood by the other.

`app/` is the program round the library: sockets, channels, tasks, processes and
command line arguments. `main.rs` is `mobiletunnel`, and `mobiletunnel_server.rs`
the server for machines on which it is installed. `tests/` runs the library, with buffers in place of
sockets.
