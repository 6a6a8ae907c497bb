//! Firewall connection metrics: the plain shapes of the kernel's
//! connection events and their conversion into the control plane's
//! records, with explicit byte-order handling.

use vstd::prelude::*;

use crate::dns_records::LdIp;

verus! {

/// Address family tag of an IPv4 event.
pub const LANDSCAPE_IPV4_TYPE: u8 = 0;

/// Address family tag of an IPv6 event.
pub const LANDSCAPE_IPV6_TYPE: u8 = 1;

/// The two bytes of `x` exchanged.
pub open spec fn spec_swap16(x: u16) -> u16 {
    (((x & 0xff) << 8) | (x >> 8)) as u16
}

/// Exchanges the two bytes of `x`: a big-endian port read on a
/// little-endian machine.
pub fn swap16(x: u16) -> (r: u16)
    ensures
        r == spec_swap16(x),
{
    ((x & 0xff) << 8) | (x >> 8)
}

/// An address as the kernel event carries it: the IPv4 word and the
/// raw sixteen bytes.
#[derive(Debug, Clone, Copy, PartialEq, Eq, Structural)]
pub struct RawInetAddr {
    pub ip: u32,
    pub bits: u128,
}

/// One connection event as the kernel reports it, as plain values.
#[derive(Debug, Clone, Copy, PartialEq, Eq, Structural)]
pub struct RawConnEvent {
    pub src_addr: RawInetAddr,
    pub dst_addr: RawInetAddr,
    pub src_port: u16,
    pub dst_port: u16,
    pub l4_proto: u8,
    pub flow_id: u32,
    pub trace_id: u32,
    pub l3_proto: u8,
    pub create_time: u64,
    pub event_type: u8,
    pub report_time: u64,
}

/// One traffic metric event as the kernel reports it, as plain values.
#[derive(Debug, Clone, Copy, PartialEq, Eq, Structural)]
pub struct RawConnMetricEvent {
    pub src_addr: RawInetAddr,
    pub dst_addr: RawInetAddr,
    pub src_port: u16,
    pub dst_port: u16,
    pub l4_proto: u8,
    pub flow_id: u32,
    pub trace_id: u32,
    pub l3_proto: u8,
    pub create_time: u64,
    pub time: u64,
    pub ingress_bytes: u64,
    pub ingress_packets: u64,
    pub egress_bytes: u64,
    pub egress_packets: u64,
}

/// The identity of one connection.
#[derive(Debug, Clone, Copy, PartialEq, Eq, Hash, Structural)]
pub struct ConnectKey {
    pub src_ip: LdIp,
    pub dst_ip: LdIp,
    pub src_port: u16,
    pub dst_port: u16,
    pub l4_proto: u8,
    pub flow_id: u32,
    pub trace_id: u32,
    pub l3_proto: u8,
    pub create_time: u64,
}

/// One connection lifecycle report.
#[derive(Debug, Clone, Copy, PartialEq, Eq, Structural)]
pub struct ConnectInfo {
    pub key: ConnectKey,
    pub event_type: u8,
    pub report_time: u64,
}

/// One connection traffic report.
#[derive(Debug, Clone, Copy, PartialEq, Eq, Structural)]
pub struct ConnectMetric {
    pub key: ConnectKey,
    pub report_time: u64,
    pub ingress_bytes: u64,
    pub ingress_packets: u64,
    pub egress_bytes: u64,
    pub egress_packets: u64,
}

/// The IPv4 word of `x` with its four bytes reversed.
pub open spec fn spec_swap32(x: u32) -> u32 {
    (((x & 0xff) << 24) | (((x >> 8) & 0xff) << 16) | (((x >> 16) & 0xff) << 8) | (x
        >> 24)) as u32
}

/// Reverses the four bytes of `x`: a big-endian IPv4 word read on a
/// little-endian machine.
pub fn swap32(x: u32) -> (r: u32)
    ensures
        r == spec_swap32(x),
{
    ((x & 0xff) << 24) | (((x >> 8) & 0xff) << 16) | (((x >> 16) & 0xff) << 8) | (x >> 24)
}

/// The address an event carries: the byte-reversed IPv4 word under the
/// IPv4 tag, the sixteen raw bytes under the IPv6 tag, and the
/// unspecified IPv4 address under anything else.
pub open spec fn spec_convert_ip(raw: RawInetAddr, proto: u8) -> LdIp {
    if proto == LANDSCAPE_IPV4_TYPE {
        LdIp::V4(spec_swap32(raw.ip))
    } else if proto == LANDSCAPE_IPV6_TYPE {
        LdIp::V6(raw.bits)
    } else {
        LdIp::V4(0)
    }
}

pub fn convert_ip(raw: &RawInetAddr, proto: u8) -> (r: LdIp)
    ensures
        r == spec_convert_ip(*raw, proto),
{
    if proto == LANDSCAPE_IPV4_TYPE {
        LdIp::V4(swap32(raw.ip))
    } else if proto == LANDSCAPE_IPV6_TYPE {
        LdIp::V6(raw.bits)
    } else {
        LdIp::V4(0)
    }
}

/// The connection identity an event names.
pub open spec fn spec_key_of_event(
    src_addr: RawInetAddr,
    dst_addr: RawInetAddr,
    src_port: u16,
    dst_port: u16,
    l4_proto: u8,
    flow_id: u32,
    trace_id: u32,
    l3_proto: u8,
    create_time: u64,
) -> ConnectKey {
    ConnectKey {
        src_ip: spec_convert_ip(src_addr, l3_proto),
        dst_ip: spec_convert_ip(dst_addr, l3_proto),
        src_port: spec_swap16(src_port),
        dst_port: spec_swap16(dst_port),
        l4_proto,
        flow_id,
        trace_id,
        l3_proto,
        create_time,
    }
}

impl ConnectInfo {
    /// The lifecycle report of one raw connection event: addresses and
    /// ports are brought into host order, everything else carries
    /// over.
    pub fn from_raw(ev: &RawConnEvent) -> (r: ConnectInfo)
        ensures
            r.key == spec_key_of_event(
                ev.src_addr,
                ev.dst_addr,
                ev.src_port,
                ev.dst_port,
                ev.l4_proto,
                ev.flow_id,
                ev.trace_id,
                ev.l3_proto,
                ev.create_time,
            ),
            r.event_type == ev.event_type,
            r.report_time == ev.report_time,
    {
        let key = ConnectKey {
            src_ip: convert_ip(&ev.src_addr, ev.l3_proto),
            dst_ip: convert_ip(&ev.dst_addr, ev.l3_proto),
            src_port: swap16(ev.src_port),
            dst_port: swap16(ev.dst_port),
            l4_proto: ev.l4_proto,
            flow_id: ev.flow_id,
            trace_id: ev.trace_id,
            l3_proto: ev.l3_proto,
            create_time: ev.create_time,
        };
        ConnectInfo { key, event_type: ev.event_type, report_time: ev.report_time }
    }
}

impl ConnectMetric {
    /// The traffic report of one raw metric event: addresses and ports
    /// are brought into host order, counters carry over.
    pub fn from_raw(ev: &RawConnMetricEvent) -> (r: ConnectMetric)
        ensures
            r.key == spec_key_of_event(
                ev.src_addr,
                ev.dst_addr,
                ev.src_port,
                ev.dst_port,
                ev.l4_proto,
                ev.flow_id,
                ev.trace_id,
                ev.l3_proto,
                ev.create_time,
            ),
            r.report_time == ev.time,
            r.ingress_bytes == ev.ingress_bytes,
            r.ingress_packets == ev.ingress_packets,
            r.egress_bytes == ev.egress_bytes,
            r.egress_packets == ev.egress_packets,
    {
        let key = ConnectKey {
            src_ip: convert_ip(&ev.src_addr, ev.l3_proto),
            dst_ip: convert_ip(&ev.dst_addr, ev.l3_proto),
            src_port: swap16(ev.src_port),
            dst_port: swap16(ev.dst_port),
            l4_proto: ev.l4_proto,
            flow_id: ev.flow_id,
            trace_id: ev.trace_id,
            l3_proto: ev.l3_proto,
            create_time: ev.create_time,
        };
        ConnectMetric {
            key,
            report_time: ev.time,
            ingress_bytes: ev.ingress_bytes,
            ingress_packets: ev.ingress_packets,
            egress_bytes: ev.egress_bytes,
            egress_packets: ev.egress_packets,
        }
    }
}

} // verus!
