//! The decision and data core of a QUIC stack, with machine-checked contracts.
//!
//! Every state machine here is a plain value: locks, sockets, timers and wakers belong to the
//! caller, which hands in instants, bytes and outcomes and carries out what is returned.

mod base;
pub mod declaration;
mod interface;
pub mod params;
mod protocol;
mod recovery;
pub mod resolve;
mod tls;
mod transport;

pub use base::ack;
pub use base::addr;
pub use base::cid;
pub use base::error;
pub use base::packet_number;
pub use base::signals;
pub use base::sorted;
pub use base::table;
pub use base::varint;
pub use interface::admissibility;
pub use interface::handy;
pub use interface::local_endpoint;
pub use interface::location;
pub use interface::route;
pub use interface::subscribers;
pub use protocol::address;
pub use protocol::datagram;
pub use protocol::dock;
pub use protocol::forward;
pub use protocol::socket;
pub use protocol::stun;
pub use protocol::topology;
pub use recovery::crypto_stream;
pub use recovery::rcvd;
pub use recovery::sent;
pub use recovery::stream_buf;
pub use tls::authority;
pub use tls::backend;
pub use tls::certificates;
pub use tls::error as tls_error;
pub use tls::handshake;
pub use tls::incoming;
pub use tls::ocsp;
pub use tls::root;
pub use transport::acknowledgement;
pub use transport::assembly;
pub use transport::bursts;
pub use transport::channel;
pub use transport::connection;
pub use transport::conservation;
pub use transport::constraints;
pub use transport::control;
pub use transport::frames;
pub use transport::generations;
pub use transport::history;
pub use transport::keys;
pub use transport::packet;
pub use transport::path;
pub use transport::promises;
pub use transport::protection;
pub use transport::receive;
pub use transport::records;
pub use transport::router;
pub use transport::sealing;
pub use transport::sender;
pub use transport::space;
pub use transport::submission;
