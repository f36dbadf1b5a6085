//! Netplane: an SDN overlay network whose clients tunnel IPv4 traffic through
//! a relay server, end-to-end encrypted between peers.
pub mod text;
pub mod ipv4;
pub mod wire;
pub mod messages;
pub mod peer_messages;
pub mod message_type;
pub mod addressing;
pub mod packet;
pub mod noise;
pub mod codec;
pub mod auth;
pub mod session;
pub mod client;
pub mod peers;
pub mod server;
pub mod relay;
pub mod trafficlog;
pub mod dns;
pub mod http;
pub mod logfmt;
pub mod routing;
pub mod legacy;
pub mod model;
pub mod web;
pub mod link;
pub mod legacy_relay;
