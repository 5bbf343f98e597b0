//! Ancillary facts observed with a received datagram.
use vstd::prelude::*;

use crate::event::PacketMeta;
use crate::timing::SystemTime;

verus! {

/// Largest lag, in nanoseconds, that a kernel receive timestamp may show
/// behind the paired userspace sample and still be used for measurement.
///
/// This guards against clock discontinuities. Ordinary wakeup latency is
/// orders of magnitude smaller.
pub const MAX_KERNEL_RX_LAG: u128 = 1_000_000_000;

#[derive(Debug, Clone, Copy, PartialEq, Eq, Structural)]
pub struct ReceiveMeta {
    pub traffic_class: Option<u8>,
    pub kernel_rx_timestamp: Option<SystemTime>,
}

impl Default for ReceiveMeta {
    fn default() -> (result: ReceiveMeta)
        ensures
            result.traffic_class is None,
            result.kernel_rx_timestamp is None,
    {
        ReceiveMeta { traffic_class: None, kernel_rx_timestamp: None }
    }
}

/// A kernel receive timestamp is plausible where it is not later than the
/// userspace sample and lags it by at most [`MAX_KERNEL_RX_LAG`].
pub open spec fn plausible_kernel_wall(kernel: SystemTime, userspace: SystemTime) -> bool {
    0 <= userspace.nanos - kernel.nanos <= MAX_KERNEL_RX_LAG
}

impl ReceiveMeta {
    /// Receive wall-clock endpoint to use for one-way delay: the kernel's
    /// timestamp where it is plausible, else the userspace sample.
    ///
    /// A timestamp that is rejected here stays observed metadata.
    pub fn preferred_receive_wall(&self, userspace_wall: SystemTime) -> (result: SystemTime)
        ensures
            result == match self.kernel_rx_timestamp {
                Some(kernel) => if plausible_kernel_wall(kernel, userspace_wall) {
                    kernel
                } else {
                    userspace_wall
                },
                None => userspace_wall,
            },
    {
        match self.kernel_rx_timestamp {
            Some(kernel_wall) => {
                if kernel_wall.nanos > userspace_wall.nanos {
                    return userspace_wall;
                }
                // The lag fits in `i128` unless the two samples lie on
                // opposite extremes of its range.
                match userspace_wall.nanos.checked_sub(kernel_wall.nanos) {
                    Some(lag) if lag as u128 <= MAX_KERNEL_RX_LAG => kernel_wall,
                    _ => userspace_wall,
                }
            },
            None => userspace_wall,
        }
    }
}

/// The packet metadata that `meta` stands for: the traffic class split into its
/// upper six and lower two bits, and the raw kernel timestamp.
pub open spec fn packet_meta(meta: ReceiveMeta) -> PacketMeta {
    PacketMeta {
        traffic_class: meta.traffic_class,
        dscp: match meta.traffic_class {
            Some(class) => Some(class >> 2u8),
            None => None,
        },
        ecn: match meta.traffic_class {
            Some(class) => Some(class & 0b11u8),
            None => None,
        },
        kernel_rx_timestamp: meta.kernel_rx_timestamp,
    }
}

impl From<ReceiveMeta> for PacketMeta {
    fn from(meta: ReceiveMeta) -> (result: PacketMeta) {
        PacketMeta {
            traffic_class: meta.traffic_class,
            dscp: match meta.traffic_class {
                Some(class) => Some(class >> 2u8),
                None => None,
            },
            ecn: match meta.traffic_class {
                Some(class) => Some(class & 0b11u8),
                None => None,
            },
            kernel_rx_timestamp: meta.kernel_rx_timestamp,
        }
    }
}

impl vstd::std_specs::convert::FromSpecImpl<ReceiveMeta> for PacketMeta {
    open spec fn obeys_from_spec() -> bool {
        true
    }

    open spec fn from_spec(meta: ReceiveMeta) -> PacketMeta {
        packet_meta(meta)
    }
}

/// The endpoint chosen for measurement is never later than the userspace
/// sample, never lags it by more than the bound, and its choice leaves the
/// reported kernel timestamp as it was observed.
pub proof fn law_measurement_endpoint_is_bounded(meta: ReceiveMeta, userspace: SystemTime)
    ensures
        ({
            let chosen = match meta.kernel_rx_timestamp {
                Some(kernel) => if plausible_kernel_wall(kernel, userspace) {
                    kernel
                } else {
                    userspace
                },
                None => userspace,
            };
            0 <= userspace.nanos - chosen.nanos <= MAX_KERNEL_RX_LAG
        }),
        packet_meta(meta).kernel_rx_timestamp == meta.kernel_rx_timestamp,
{
}

/// The two parts of an observed traffic class determine it, and are absent
/// exactly where it is absent.
pub proof fn law_traffic_class_splits(meta: ReceiveMeta)
    ensures
        packet_meta(meta).dscp is Some <==> meta.traffic_class is Some,
        packet_meta(meta).ecn is Some <==> meta.traffic_class is Some,
        meta.traffic_class matches Some(class) ==> {
            let dscp = packet_meta(meta).dscp->0;
            let ecn = packet_meta(meta).ecn->0;
            &&& dscp < 64
            &&& ecn < 4
            &&& class == (dscp << 2u8) | ecn
        },
{
    if let Some(class) = meta.traffic_class {
        assert(class == ((class >> 2u8) << 2u8) | (class & 0b11u8)) by (bit_vector);
        assert((class >> 2u8) < 64u8) by (bit_vector);
        assert((class & 0b11u8) < 4u8) by (bit_vector);
    }
}

/// A kernel timestamp is used where it is not later than the userspace sample
/// and at most a second before it, and the sample is used otherwise.
pub proof fn law_plausible_kernel_time_is_used(kernel: SystemTime, userspace: SystemTime)
    ensures
        plausible_kernel_wall(kernel, userspace) <==> kernel.nanos <= userspace.nanos
            && userspace.nanos <= kernel.nanos + 1_000_000_000,
{
}

/// The metadata of a packet shows what was observed: the traffic class as it
/// came, and its upper six and lower two bits apart.
pub proof fn law_metadata_shows_what_was_observed(meta: ReceiveMeta)
    ensures
        packet_meta(meta).traffic_class == meta.traffic_class,
        meta.traffic_class matches Some(class) ==> {
            &&& packet_meta(meta).dscp == Some((class / 4) as u8)
            &&& packet_meta(meta).ecn == Some((class % 4) as u8)
        },
{
    if let Some(class) = meta.traffic_class {
        assert(class >> 2u8 == class / 4) by (bit_vector);
        assert(class & 0b11u8 == class % 4) by (bit_vector);
    }
}

} // verus!
