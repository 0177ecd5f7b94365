//! Error kinds of the codec and the two query handlers, and the helper
//! functions that name them.

use vstd::prelude::*;

verus! {

/// An error of the wire-format codec.
///
/// `OutOfBounds` is a read or write past the 512-octet packet buffer or past
/// a requested range; `JumpLimitExceeded` is more than five compression
/// pointers dereferenced while decoding one name; `LabelTooLong` is a label
/// of more than 63 octets on encode.
#[derive(Copy, Clone, Debug, PartialEq, Eq, Structural)]
pub enum DnsError {
    OutOfBounds,
    JumpLimitExceeded,
    LabelTooLong,
}

/// The error for a codec access past the buffer or a range.
pub fn index_out_of_bound() -> (r: DnsError)
    ensures
        r == DnsError::OutOfBounds,
{
    DnsError::OutOfBounds
}

/// The error for a name decode that dereferenced more than `limit` pointers.
pub fn jumps_limit(limit: u8) -> (r: DnsError)
    ensures
        r == DnsError::JumpLimitExceeded,
{
    DnsError::JumpLimitExceeded
}

/// The error for a label of more than 63 octets on encode.
pub fn label_len_limit() -> (r: DnsError)
    ensures
        r == DnsError::LabelTooLong,
{
    DnsError::LabelTooLong
}

/// Message for a connections file that is not the expected JSON.
pub fn failed_json_parse<'a>() -> (r: &'a str)
    ensures
        r@ == "Failed to parse JSON string"@,
{
    "Failed to parse JSON string"
}

/// Message for a path that could not be read.
pub fn failed_path_read(path: &str) -> (r: String)
    ensures
        r@ == "Failed to read from "@ + path@,
{
    let prefix: String = String::from_str("Failed to read from ");
    prefix.concat(path)
}

/// Message for an environment name that is neither `local` nor `production`.
pub fn failed_env_parse(value: &str) -> (r: String)
    ensures
        r@ == value@ + " is not a supported environment. User either `local` or `production`."@,
{
    let head: String = String::from_str(value);
    head.concat(" is not a supported environment. User either `local` or `production`.")
}

/// Message for a configuration that could not be read at startup.
pub fn failed_config_read<'a>() -> (r: &'a str)
    ensures
        r@ == "Failed to read configuration."@,
{
    "Failed to read configuration."
}

/// Message for a listen address that could not be bound.
pub fn failed_socket_bind<'a>() -> (r: &'a str)
    ensures
        r@ == "Failed to bind socket address to `UdpSocket`"@,
{
    "Failed to bind socket address to `UdpSocket`"
}

/// Message for a balancer with no upstream server to answer with.
pub fn failed_cdn_down<'a>() -> (r: &'a str)
    ensures
        r@ == "The CDN is currently down, Try again later!"@,
{
    "The CDN is currently down, Try again later!"
}

} // verus!
