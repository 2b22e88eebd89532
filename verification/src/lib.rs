//! The packet, session and scheduling logic of a VPN hotspot daemon, verified.

pub mod addr;
pub mod app_config;
pub mod app_session;
pub mod budget;
pub mod checksum;
pub mod coalescer;
pub mod dispatch;
pub mod echo;
pub mod echo_relay;
pub mod echo_session;
pub mod echo_socket;
pub mod egress;
pub mod ended;
pub mod ending;
pub mod fair;
pub mod flow_setup;
pub mod gateway;
pub mod handoff;
pub mod ip_wire;
pub mod ipv4_identification;
pub mod mailbox;
pub mod nonfatal;
pub mod octets;
pub mod output;
pub mod owned;
pub mod packet_writer;
pub mod preempt;
pub mod process_io;
pub mod protocol;
pub mod ra_wire;
pub mod reassembly;
pub mod repeats;
pub mod reply;
pub mod reply_bound;
pub mod reply_turn;
pub mod reporter;
pub mod resolver;
pub mod room;
pub mod roundtrip;
pub mod rows;
pub mod scheduling;
pub mod send_failure;
pub mod send_history;
pub mod session_config;
pub mod tallies;
pub mod tasks;
pub mod tcp_device;
pub mod tcp_engine;
pub mod tcp_queries;
pub mod tcp_transfer;
pub mod tcp_wire;
pub mod text;
pub mod transfer;
pub mod transport;
pub mod tun_check;
pub mod tun_handoff;
pub mod turn;
pub mod udp_wire;
pub mod workers;
