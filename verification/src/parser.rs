//! Header parsing: decodes raw IPv4/IPv6 header bytes and, inside them,
//! TCP header bytes into structured field sets. A truncated or malformed
//! header (fewer bytes than the declared header length, a bad option
//! length) yields no result rather than an error.

use vstd::prelude::*;
use vstd::slice::{slice_subrange, slice_to_vec};

use crate::addr::{AddrModel, IpAddress};

verus! {

pub const OPT_EOL: u8 = 0;

pub const OPT_NOP: u8 = 1;

pub const OPT_MSS: u8 = 2;

pub const OPT_WSCALE: u8 = 3;

pub const OPT_SACK_PERMITTED: u8 = 4;

pub const OPT_SACK: u8 = 5;

pub const OPT_TIMESTAMPS: u8 = 8;

/// The transport protocol identifier for TCP in an IP header.
pub const PROTO_TCP: u8 = 6;

#[derive(Debug, Clone, Copy, PartialEq, Eq, Structural)]
pub enum IpPacketType {
    Ipv4,
    Ipv6,
}

/// Parsed fields of one IP header.
pub struct IpPacketData {
    pub packet_type: IpPacketType,
    pub source_ip: IpAddress,
    pub destination_ip: IpAddress,
    pub ttl: u8,
    /// The two-bit flags field; absent for IPv6.
    pub flags: Option<u8>,
    /// IPv4: header length in 32-bit words; IPv6: 40 (bytes).
    pub header_length: u8,
    /// Bytes of IP header options; 0 for IPv6.
    pub options_length: u8,
    pub next_protocol: u8,
    /// The bytes following the IP header.
    pub payload: Vec<u8>,
}

/// Parsed fields of one TCP header.
pub struct TcpPacketData {
    pub source_port: u16,
    pub destination_port: u16,
    /// The nine-bit control flags field.
    pub flags: u16,
    /// Data offset, in 32-bit words.
    pub header_length: u8,
    pub window_size: u16,
    pub mss: Option<u16>,
    pub wscale: Option<u8>,
    pub sack_permitted: bool,
    pub timestamp: Option<u32>,
    /// Every option kind encountered, in order, duplicates preserved.
    pub options: Vec<u8>,
}

/// Mathematical model of parsed IP header fields.
#[verifier::ext_equal]
pub struct IpFieldsModel {
    pub packet_type: IpPacketType,
    pub source_ip: AddrModel,
    pub destination_ip: AddrModel,
    pub ttl: u8,
    pub flags: Option<u8>,
    pub header_length: u8,
    pub options_length: u8,
    pub next_protocol: u8,
    pub payload: Seq<u8>,
}

/// Mathematical model of parsed TCP header fields.
#[verifier::ext_equal]
pub struct TcpFieldsModel {
    pub source_port: u16,
    pub destination_port: u16,
    pub flags: u16,
    pub header_length: u8,
    pub window_size: u16,
    pub mss: Option<u16>,
    pub wscale: Option<u8>,
    pub sack_permitted: bool,
    pub timestamp: Option<u32>,
    pub options: Seq<u8>,
}

impl View for IpPacketData {
    type V = IpFieldsModel;

    open spec fn view(&self) -> IpFieldsModel {
        IpFieldsModel {
            packet_type: self.packet_type,
            source_ip: self.source_ip@,
            destination_ip: self.destination_ip@,
            ttl: self.ttl,
            flags: self.flags,
            header_length: self.header_length,
            options_length: self.options_length,
            next_protocol: self.next_protocol,
            payload: self.payload@,
        }
    }
}

impl View for TcpPacketData {
    type V = TcpFieldsModel;

    open spec fn view(&self) -> TcpFieldsModel {
        TcpFieldsModel {
            source_port: self.source_port,
            destination_port: self.destination_port,
            flags: self.flags,
            header_length: self.header_length,
            window_size: self.window_size,
            mss: self.mss,
            wscale: self.wscale,
            sack_permitted: self.sack_permitted,
            timestamp: self.timestamp,
            options: self.options@,
        }
    }
}

impl IpFieldsModel {
    /// The flags field is two bits wide and the addresses carry their
    /// declared number of groups.
    pub open spec fn wf(self) -> bool {
        &&& match self.flags {
            Some(f) => f < 4,
            None => true,
        }
        &&& self.source_ip.wf()
        &&& self.destination_ip.wf()
    }
}

impl IpPacketData {
    pub open spec fn wf(&self) -> bool {
        self@.wf()
    }
}

impl TcpFieldsModel {
    /// The control flags field is nine bits wide.
    pub open spec fn wf(self) -> bool {
        self.flags < 512
    }
}

impl TcpPacketData {
    pub open spec fn wf(&self) -> bool {
        self@.wf()
    }
}

/// Values extracted from a TCP options region.
#[verifier::ext_equal]
pub struct TcpOptionsModel {
    pub kinds: Seq<u8>,
    pub mss: Option<u16>,
    pub wscale: Option<u8>,
    pub sack_permitted: bool,
    pub timestamp: Option<u32>,
}

/// Walks a TCP options region. End-of-list and no-operation occupy one
/// byte; every other option carries a length byte covering kind, length
/// and payload. Each encountered kind is recorded in order; the payload
/// values of maximum-segment-size, window-scale and timestamps are
/// extracted (the last occurrence wins), and selective-ack-permitted is
/// recorded by presence. A length that is short, or that overruns the
/// region, or too small a payload for an extracted option, makes the
/// whole region malformed.
pub open spec fn parse_options(r: Seq<u8>) -> Option<TcpOptionsModel>
    decreases r.len(),
{
    if r.len() == 0 {
        Some(
            TcpOptionsModel {
                kinds: Seq::<u8>::empty(),
                mss: None,
                wscale: None,
                sack_permitted: false,
                timestamp: None,
            },
        )
    } else if r[0] == OPT_EOL || r[0] == OPT_NOP {
        match parse_options(r.drop_first()) {
            None => None,
            Some(rest) => Some(TcpOptionsModel { kinds: seq![r[0]] + rest.kinds, ..rest }),
        }
    } else if r.len() < 2 {
        None
    } else {
        let l = r[1] as int;
        if l < 2 || l > r.len() {
            None
        } else if r[0] == OPT_MSS && l < 4 {
            None
        } else if r[0] == OPT_WSCALE && l < 3 {
            None
        } else if r[0] == OPT_TIMESTAMPS && l < 6 {
            None
        } else {
            match parse_options(r.skip(l)) {
                None => None,
                Some(rest) => Some(
                    TcpOptionsModel {
                        kinds: seq![r[0]] + rest.kinds,
                        mss: if rest.mss is Some {
                            rest.mss
                        } else if r[0] == OPT_MSS {
                            Some(((r[2] as int) * 256 + (r[3] as int)) as u16)
                        } else {
                            None
                        },
                        wscale: if rest.wscale is Some {
                            rest.wscale
                        } else if r[0] == OPT_WSCALE {
                            Some(r[2])
                        } else {
                            None
                        },
                        sack_permitted: rest.sack_permitted || r[0] == OPT_SACK_PERMITTED,
                        timestamp: if rest.timestamp is Some {
                            rest.timestamp
                        } else if r[0] == OPT_TIMESTAMPS {
                            Some(
                                ((r[2] as int) * 0x1000000 + (r[3] as int) * 0x10000 + (
                                r[4] as int) * 0x100 + (r[5] as int)) as u32,
                            )
                        } else {
                            None
                        },
                    },
                ),
            }
        }
    }
}

/// Model of parsing an IPv4 header from its raw bytes.
pub open spec fn spec_parse_ipv4(b: Seq<u8>) -> Option<IpFieldsModel> {
    let ihl = (b[0] as int) % 16;
    if b.len() >= 20 && ihl >= 5 && 4 * ihl <= b.len() {
        Some(
            IpFieldsModel {
                packet_type: IpPacketType::Ipv4,
                source_ip: AddrModel::V4(b[12], b[13], b[14], b[15]),
                destination_ip: AddrModel::V4(b[16], b[17], b[18], b[19]),
                ttl: b[8],
                flags: Some((((b[6] as int) / 32) % 4) as u8),
                header_length: ihl as u8,
                options_length: (4 * ihl - 20) as u8,
                next_protocol: b[9],
                payload: b.skip(4 * ihl),
            },
        )
    } else {
        None
    }
}

/// The eight 16-bit big-endian groups starting at byte `start`.
pub open spec fn spec_groups(b: Seq<u8>, start: int) -> Seq<u16> {
    Seq::new(8, |i: int| ((b[start + 2 * i] as int) * 256 + (b[start + 2 * i + 1] as int)) as u16)
}

/// Model of parsing an IPv6 header from its raw bytes.
pub open spec fn spec_parse_ipv6(b: Seq<u8>) -> Option<IpFieldsModel> {
    if b.len() >= 40 {
        Some(
            IpFieldsModel {
                packet_type: IpPacketType::Ipv6,
                source_ip: AddrModel::V6(spec_groups(b, 8)),
                destination_ip: AddrModel::V6(spec_groups(b, 24)),
                ttl: b[7],
                flags: None,
                header_length: 40,
                options_length: 0,
                next_protocol: b[6],
                payload: b.skip(40),
            },
        )
    } else {
        None
    }
}

/// Model of parsing a TCP header from its raw bytes.
pub open spec fn spec_parse_tcp(b: Seq<u8>) -> Option<TcpFieldsModel> {
    let doff = (b[12] as int) / 16;
    if b.len() >= 20 && doff >= 5 && 4 * doff <= b.len() {
        match parse_options(b.subrange(20, 4 * doff)) {
            None => None,
            Some(o) => Some(
                TcpFieldsModel {
                    source_port: ((b[0] as int) * 256 + (b[1] as int)) as u16,
                    destination_port: ((b[2] as int) * 256 + (b[3] as int)) as u16,
                    flags: (((b[12] as int) % 2) * 256 + (b[13] as int)) as u16,
                    header_length: doff as u8,
                    window_size: ((b[14] as int) * 256 + (b[15] as int)) as u16,
                    mss: o.mss,
                    wscale: o.wscale,
                    sack_permitted: o.sack_permitted,
                    timestamp: o.timestamp,
                    options: o.kinds,
                },
            ),
        }
    } else {
        None
    }
}

/// Extracted TCP option values, executable form.
struct ParsedOptions {
    kinds: Vec<u8>,
    mss: Option<u16>,
    wscale: Option<u8>,
    sack_permitted: bool,
    timestamp: Option<u32>,
}

impl View for ParsedOptions {
    type V = TcpOptionsModel;

    closed spec fn view(&self) -> TcpOptionsModel {
        TcpOptionsModel {
            kinds: self.kinds@,
            mss: self.mss,
            wscale: self.wscale,
            sack_permitted: self.sack_permitted,
            timestamp: self.timestamp,
        }
    }
}

/// Walks the options region `r` from position `i` onward.
fn parse_options_from(r: &[u8], i: usize) -> (res: Option<ParsedOptions>)
    requires
        i <= r@.len(),
    ensures
        res is Some <==> parse_options(r@.skip(i as int)) is Some,
        res matches Some(o) ==> parse_options(r@.skip(i as int)) matches Some(m) && o@ =~= m,
    decreases r@.len() - i,
{
    let ghost tail = r@.skip(i as int);
    if i == r.len() {
        proof {
            assert(tail =~= Seq::<u8>::empty());
        }
        return Some(
            ParsedOptions {
                kinds: Vec::new(),
                mss: None,
                wscale: None,
                sack_permitted: false,
                timestamp: None,
            },
        );
    }
    let kind = r[i];
    proof {
        assert(tail[0] == r@[i as int]);
        assert(tail.drop_first() =~= r@.skip(i as int + 1));
    }
    if kind == OPT_EOL || kind == OPT_NOP {
        match parse_options_from(r, i + 1) {
            None => None,
            Some(mut rest) => {
                rest.kinds.insert(0, kind);
                proof {
                    assert(rest@.kinds =~= seq![tail[0]] + parse_options(
                        tail.drop_first(),
                    )->Some_0.kinds);
                }
                Some(rest)
            },
        }
    } else {
        if r.len() - i < 2 {
            return None;
        }
        let l = r[i + 1] as usize;
        proof {
            assert(tail[1] == r@[i as int + 1]);
        }
        if l < 2 || l > r.len() - i {
            return None;
        }
        if kind == OPT_MSS && l < 4 {
            return None;
        }
        if kind == OPT_WSCALE && l < 3 {
            return None;
        }
        if kind == OPT_TIMESTAMPS && l < 6 {
            return None;
        }
        proof {
            assert(tail.skip(l as int) =~= r@.skip(i as int + l as int));
            assert(forall|k: int| 2 <= k < l ==> tail[k] == r@[i as int + k]);
        }
        match parse_options_from(r, i + l) {
            None => None,
            Some(mut rest) => {
                if kind == OPT_MSS && rest.mss.is_none() {
                    rest.mss = Some((r[i + 2] as u16) * 256 + (r[i + 3] as u16));
                }
                if kind == OPT_WSCALE && rest.wscale.is_none() {
                    rest.wscale = Some(r[i + 2]);
                }
                if kind == OPT_SACK_PERMITTED {
                    rest.sack_permitted = true;
                }
                if kind == OPT_TIMESTAMPS && rest.timestamp.is_none() {
                    rest.timestamp = Some(
                        (r[i + 2] as u32) * 0x1000000 + (r[i + 3] as u32) * 0x10000 + (r[i
                            + 4] as u32) * 0x100 + (r[i + 5] as u32),
                    );
                }
                rest.kinds.insert(0, kind);
                proof {
                    let m = parse_options(tail)->Some_0;
                    assert(rest@.kinds =~= m.kinds);
                    assert(rest@ =~= m);
                }
                Some(rest)
            },
        }
    }
}

/// Parses an IPv4 header from its raw bytes. Yields nothing when the
/// buffer is shorter than the fixed header, the declared header length
/// is below five words, or the buffer is shorter than the declared
/// header length.
pub fn parse_ipv4_packet(b: &[u8]) -> (r: Option<IpPacketData>)
    ensures
        r is Some <==> spec_parse_ipv4(b@) is Some,
        r matches Some(d) ==> spec_parse_ipv4(b@) matches Some(m) && d@ =~= m && d.wf(),
{
    if b.len() < 20 {
        return None;
    }
    let ihl = b[0] % 16;
    if ihl < 5 {
        return None;
    }
    let hlen = (ihl as usize) * 4;
    if b.len() < hlen {
        return None;
    }
    let payload = slice_to_vec(slice_subrange(b, hlen, b.len()));
    proof {
        assert(b@.subrange(hlen as int, b@.len() as int) =~= b@.skip(4 * ((b@[0] as int) % 16)));
    }
    Some(
        IpPacketData {
            packet_type: IpPacketType::Ipv4,
            source_ip: IpAddress::V4(b[12], b[13], b[14], b[15]),
            destination_ip: IpAddress::V4(b[16], b[17], b[18], b[19]),
            ttl: b[8],
            flags: Some((b[6] / 32) % 4),
            header_length: ihl,
            options_length: ihl * 4 - 20,
            next_protocol: b[9],
            payload,
        },
    )
}

/// Reads the eight big-endian 16-bit groups starting at byte `start`.
fn read_groups(b: &[u8], start: usize) -> (g: Vec<u16>)
    requires
        start + 16 <= b@.len(),
    ensures
        g@ =~= spec_groups(b@, start as int),
{
    let n = b.len();
    let mut g: Vec<u16> = Vec::new();
    let mut j: usize = 0;
    while j < 8
        invariant
            start + 16 <= n == b@.len(),
            j <= 8,
            g@.len() == j,
            forall|k: int| 0 <= k < j ==> g@[k] == spec_groups(b@, start as int)[k],
        decreases 8 - j,
    {
        g.push((b[start + 2 * j] as u16) * 256 + (b[start + 2 * j + 1] as u16));
        j = j + 1;
    }
    g
}

/// Parses an IPv6 header from its raw bytes. Yields nothing when the
/// buffer is shorter than the fixed forty-byte header.
pub fn parse_ipv6_packet(b: &[u8]) -> (r: Option<IpPacketData>)
    ensures
        r is Some <==> spec_parse_ipv6(b@) is Some,
        r matches Some(d) ==> spec_parse_ipv6(b@) matches Some(m) && d@ =~= m && d.wf(),
{
    if b.len() < 40 {
        return None;
    }
    let source = read_groups(b, 8);
    let destination = read_groups(b, 24);
    let payload = slice_to_vec(slice_subrange(b, 40, b.len()));
    proof {
        assert(b@.subrange(40, b@.len() as int) =~= b@.skip(40));
    }
    Some(
        IpPacketData {
            packet_type: IpPacketType::Ipv6,
            source_ip: IpAddress::V6(source),
            destination_ip: IpAddress::V6(destination),
            ttl: b[7],
            flags: None,
            header_length: 40,
            options_length: 0,
            next_protocol: b[6],
            payload,
        },
    )
}

/// Parses a TCP header from its raw bytes. Yields nothing when the buffer
/// is shorter than the fixed header, the declared data offset is below
/// five words or past the buffer, or the options region is malformed.
pub fn parse_tcp_packet(b: &[u8]) -> (r: Option<TcpPacketData>)
    ensures
        r is Some <==> spec_parse_tcp(b@) is Some,
        r matches Some(d) ==> spec_parse_tcp(b@) matches Some(m) && d@ =~= m && d.wf(),
{
    if b.len() < 20 {
        return None;
    }
    let doff = b[12] / 16;
    if doff < 5 {
        return None;
    }
    let hlen = (doff as usize) * 4;
    if b.len() < hlen {
        return None;
    }
    let region = slice_subrange(b, 20, hlen);
    proof {
        assert(region@.skip(0) =~= b@.subrange(20, 4 * ((b@[12] as int) / 16)));
    }
    match parse_options_from(region, 0) {
        None => None,
        Some(o) => Some(
            TcpPacketData {
                source_port: (b[0] as u16) * 256 + (b[1] as u16),
                destination_port: (b[2] as u16) * 256 + (b[3] as u16),
                flags: ((b[12] % 2) as u16) * 256 + (b[13] as u16),
                header_length: doff,
                window_size: (b[14] as u16) * 256 + (b[15] as u16),
                mss: o.mss,
                wscale: o.wscale,
                sack_permitted: o.sack_permitted,
                timestamp: o.timestamp,
                options: o.kinds,
            },
        ),
    }
}

} // verus!
