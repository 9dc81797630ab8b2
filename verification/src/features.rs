//! Feature bits, and the protocol features of the `vhost` crate.

use vhost::vhost_user::message::VhostUserProtocolFeatures;
use vstd::prelude::*;

verus! {

pub const VIRTIO_F_RING_INDIRECT_DESC: u64 = 0x1000_0000;

pub const VIRTIO_F_RING_EVENT_IDX: u64 = 0x2000_0000;

pub const VHOST_USER_F_PROTOCOL_FEATURES: u64 = 0x4000_0000;

pub const VIRTIO_F_VERSION_1: u64 = 0x1_0000_0000;

pub const VIRTIO_BLK_F_RO: u64 = 0x20;

pub const VIRTIO_BLK_F_BLK_SIZE: u64 = 0x40;

pub const VIRTIO_BLK_F_FLUSH: u64 = 0x200;

pub const VIRTIO_BLK_F_MQ: u64 = 0x1000;

pub const VIRTIO_BLK_F_DISCARD: u64 = 0x2000;

pub const VIRTIO_BLK_F_WRITE_ZEROES: u64 = 0x4000;

/// The protocol feature that lets the frontend read the device configuration.
pub const PROTOCOL_CONFIG: u64 = 0x200;

/// `VhostUserProtocolFeatures::CONFIG`: the bit that the `vhost` crate gives to the
/// configuration messages.
#[verifier::external_body]
pub(crate) fn protocol_config() -> (bits: u64)
    ensures
        bits == PROTOCOL_CONFIG,
{
    VhostUserProtocolFeatures::CONFIG.bits()
}

/// `&` of two `VhostUserProtocolFeatures`: the bits that are in both. Bits without a
/// name are kept on the way in.
#[verifier::external_body]
pub(crate) fn protocol_common(a: u64, b: u64) -> (bits: u64)
    ensures
        bits == a & b,
{
    let left = VhostUserProtocolFeatures::from_bits_retain(a);
    let right = VhostUserProtocolFeatures::from_bits_retain(b);
    (left & right).bits()
}

/// `VhostUserProtocolFeatures::contains`: every bit of `f` is in `have`.
#[verifier::external_body]
pub(crate) fn protocol_contains(have: u64, f: u64) -> (yes: bool)
    ensures
        yes == (have & f == f),
{
    let have = VhostUserProtocolFeatures::from_bits_retain(have);
    have.contains(VhostUserProtocolFeatures::from_bits_retain(f))
}

} // verus!
