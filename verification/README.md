# vpnhotspotd

The logic of a daemon that shares a device's network with the clients of a hotspot: it takes their packets from a
tun interface, relays them over sockets of its own, and answers them on behalf of who they were sent to.

`src/` is the library. Everything that decides something stands there, with its contract, and is proved with Verus:

- packets: `ip_wire`, `udp_wire`, `tcp_wire`, `ra_wire`, `checksum`, `octets`, `addr`, and how they are cut and put
  together again: `packet_writer`, `reassembly`, `roundtrip`, `repeats`, `ipv4_identification`;
- where packets go: `dispatch`, `gateway`, `output`, `tun_handoff`, `turn`;
- echo requests: `echo`, `echo_relay`, `echo_session`, `echo_socket`, `send_history`, `send_failure`, `egress`;
- TCP flows: `tcp_engine`, `tcp_queries`, `tcp_transfer`, `tcp_device`, `flow_setup`, `mailbox`, `transfer`, `fair`,
  `room`;
- replies of the upstream: `reply`, `reply_turn`, `reply_bound`, `resolver`;
- sessions with the app: `app_session`, `app_config`, `session_config`, `handoff`, `tun_check`, `protocol`, `transport`;
- failures that end no call: `nonfatal`, `coalescer`, `tallies`, `reporter`, `ending`;
- tasks and tables: `workers`, `rows`, `tasks`, `ended`, `preempt`, `process_io`, `budget`, `owned`, `scheduling`,
  `text`.

A property that spans functions is a public proof function whose name begins with `law_`. Calls into other crates are
made by small private functions that name the call and say what is taken for granted of it.

`tests/` runs the library, and the calls it makes, on concrete values. `app/` is the rest of the daemon: sockets,
descriptors, channels, tasks and the clock. It hands plain values to the library and does what the library says.

Times are nanoseconds since an instant of the caller's choice.
