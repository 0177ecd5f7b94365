//! A dual-mode UDP name-resolution core: a recursive DNS resolver that walks
//! the name hierarchy from a hard-coded root, and a content-delivery
//! load-balancer that answers queries for one configured hostname from a
//! client-to-server affinity table. Both share a byte-exact DNS wire-format
//! codec over a fixed 512-octet packet buffer, with RFC 1035 label-pointer
//! compression on decode.
//!
//! This crate holds the verified core: the packet buffer and codec, the
//! message model, the resolver's per-step decision logic, and the balancer's
//! answer synthesis. Socket, file and HTTP plumbing live outside.

pub mod codec_laws;
pub mod config;
pub mod dns_header;
pub mod dns_message;
pub mod dns_question;
pub mod dns_record;
pub mod dns_resolver;
pub mod errors;
pub mod load_balancer;
pub mod packet_buffer;

pub use errors::DnsError;
pub use packet_buffer::PacketBuffer;
