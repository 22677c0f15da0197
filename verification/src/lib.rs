//! The logic of the `.root` overlay network: wire formats, exit policies, identities, the gossip
//! directory, circuits, and the decisions of a relay, a SOCKS5 client and a hidden service.
//!
//! Sockets, TLS and timers stay with the caller. The library takes what was read, says what is to
//! be written, and keeps the state in between.

use vstd::prelude::*;

pub mod addr;
pub mod build_laws;
pub mod bytes;
pub mod circuit;
pub mod client;
pub mod codec;
pub mod crypto;
pub mod descriptor;
pub mod directory;
pub mod directory_laws;
pub mod encoding;
pub mod exit_policy;
pub mod flow_laws;
pub mod gossip;
pub mod hidden_service;
pub mod identity;
pub mod link;
pub mod link_laws;
pub mod metrics;
pub mod onion;
pub mod onion_laws;
pub mod packet;
pub mod policy_laws;
pub mod random;
pub mod relay;
pub mod relay_laws;
pub mod service_laws;
pub mod socks;
pub mod socks_laws;
pub mod step_laws;
pub mod table;
pub mod text;
pub mod tls;
pub mod wire;
pub mod wire_laws;

pub use addr::{Ipv4Addr, Ipv6Addr, SocketAddr};
pub use circuit::{
    Circuit, CircuitManager, Stream, CIRCUIT_WINDOW_INCREMENT, CIRCUIT_WINDOW_START,
    STREAM_WINDOW_INCREMENT, STREAM_WINDOW_START,
};
pub use client::establish_circuit;
pub use descriptor::{HiddenServiceDescriptor, PeerInfo, RelayDescriptor};
pub use directory::{Directory, PeerStore};
pub use exit_policy::{ExitPolicy, PolicyAction};
pub use gossip::get_bootstrap_nodes;
pub use identity::{load_or_create_signing_key, resolve_root_domain, SigningKey, VerifyingKey};
pub use metrics::{BandwidthManager, Metrics};
pub use packet::Packet;
pub use socks::{
    SOCKS5_ADDR_DOMAIN, SOCKS5_ADDR_IPV4, SOCKS5_AUTH_NONE, SOCKS5_CMD_CONNECT, SOCKS5_VERSION,
};
pub use tls::generate_self_signed_cert;
pub use wire::{Cell, CellCommand, CircuitId, GossipMessage, Message, RelayCell, RelayCommand};
