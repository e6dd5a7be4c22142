//! The signature classifier: filters for pure connection-initiation
//! packets (SYN set, ACK clear), renders the canonical colon-joined
//! signature string, matches the fixed rule table for an OS guess, and
//! submits the result to the endpoint store.

use vstd::prelude::*;

use crate::addr::{addr_str, push_address};
use crate::parser::{
    parse_ipv4_packet, parse_ipv6_packet, parse_tcp_packet, spec_parse_ipv4, spec_parse_ipv6,
    spec_parse_tcp, IpFieldsModel, IpPacketData, IpPacketType, TcpFieldsModel, TcpPacketData,
    OPT_EOL, OPT_MSS, OPT_NOP, OPT_SACK, OPT_SACK_PERMITTED, OPT_TIMESTAMPS, OPT_WSCALE, PROTO_TCP,
};
use crate::store::{
    store_insert, ClientData, ClientModel, EntryModel, Store, OS,
};
use crate::text::{
    bin_str, count_char, dec_str, lemma_bin_str_colon_free, lemma_count_char_add,
    lemma_count_char_zero, lemma_dec_str_colon_free, lemma_split_char_len, push_bin_u16,
    push_dec_u16, split_char,
};

verus! {

pub const ETHERTYPE_IPV4: u16 = 0x0800;

pub const ETHERTYPE_IPV6: u16 = 0x86dd;

/// The SYN bit of the TCP control flags field.
pub const TCP_SYN: u16 = 0x002;

/// The ACK bit of the TCP control flags field.
pub const TCP_ACK: u16 = 0x010;

/// A pure connection-initiation packet: SYN set, ACK clear.
pub open spec fn is_syn_packet(flags: u16) -> bool {
    flags & TCP_SYN != 0 && flags & TCP_ACK == 0
}

/// The signature token for one TCP option kind; unrecognized kinds
/// render as `"?"`.
pub open spec fn token(kind: u8) -> Seq<char> {
    if kind == OPT_NOP {
        seq!['n', 'o', 'p']
    } else if kind == OPT_MSS {
        seq!['m', 's', 's']
    } else if kind == OPT_WSCALE {
        seq!['w', 's']
    } else if kind == OPT_SACK_PERMITTED {
        seq!['s', 'o', 'k']
    } else if kind == OPT_EOL {
        seq!['e', 'o', 'l']
    } else if kind == OPT_TIMESTAMPS {
        seq!['t', 's']
    } else if kind == OPT_SACK {
        seq!['s', 'a', 'c', 'k']
    } else {
        seq!['?']
    }
}

/// The tokens of the encountered option kinds, comma-joined.
pub open spec fn tokens_str(kinds: Seq<u8>) -> Seq<char>
    decreases kinds.len(),
{
    if kinds.len() == 0 {
        Seq::<char>::empty()
    } else if kinds.len() == 1 {
        token(kinds[0])
    } else {
        token(kinds[0]) + seq![','] + tokens_str(kinds.drop_first())
    }
}

/// The hop estimate: distance from the nearest typical starting TTL
/// (64 or 128), or `"?"` beyond both.
pub open spec fn hops_str(ttl: u8) -> Seq<char> {
    if ttl <= 64 {
        dec_str((64 - ttl) as nat)
    } else if ttl <= 128 {
        dec_str((128 - ttl) as nat)
    } else {
        seq!['?']
    }
}

/// The IP version field of the signature.
pub open spec fn version_field(t: IpPacketType) -> Seq<char> {
    match t {
        IpPacketType::Ipv4 => seq!['4'],
        IpPacketType::Ipv6 => seq!['6'],
    }
}

/// The TTL field of the signature: `"<ttl>+<hop-estimate>"`.
pub open spec fn ttl_field(ttl: u8) -> Seq<char> {
    dec_str(ttl as nat) + seq!['+'] + hops_str(ttl)
}

/// A decimal value, or `"?"` when absent.
pub open spec fn opt_dec_field(v: Option<u16>) -> Seq<char> {
    match v {
        Some(n) => dec_str(n as nat),
        None => seq!['?'],
    }
}

/// The IP flags field: two binary digits, or `"?"` when absent.
pub open spec fn ip_flags_field(f: Option<u8>) -> Seq<char> {
    match f {
        Some(v) => bin_str(v as nat, 2),
        None => seq!['?'],
    }
}

/// The canonical signature: nine fields joined with `':'` in fixed order —
/// IP version; TTL with hop estimate; IP options length; maximum segment
/// size; window size; window scale; option tokens comma-joined; IP flags
/// as two binary digits; TCP control flags as nine binary digits.
pub open spec fn signature_chars(ip: IpFieldsModel, tcp: TcpFieldsModel) -> Seq<char> {
    version_field(ip.packet_type) + seq![':'] + ttl_field(ip.ttl) + seq![':'] + dec_str(
        ip.options_length as nat,
    ) + seq![':'] + opt_dec_field(tcp.mss) + seq![':'] + dec_str(tcp.window_size as nat)
        + seq![':'] + opt_dec_field(
        match tcp.wscale {
            Some(w) => Some(w as u16),
            None => None,
        },
    ) + seq![':'] + tokens_str(tcp.options) + seq![':'] + ip_flags_field(ip.flags) + seq![':']
        + bin_str(tcp.flags as nat, 9)
}

/// The exact option-kind sequence of the Windows rule.
pub open spec fn windows_options() -> Seq<u8> {
    seq![OPT_MSS, OPT_NOP, OPT_WSCALE, OPT_NOP, OPT_NOP, OPT_SACK_PERMITTED]
}

/// The exact option-kind sequence of the macOS rule.
pub open spec fn macos_options() -> Seq<u8> {
    seq![
        OPT_MSS,
        OPT_NOP,
        OPT_WSCALE,
        OPT_NOP,
        OPT_NOP,
        OPT_TIMESTAMPS,
        OPT_SACK_PERMITTED,
        OPT_EOL,
        OPT_EOL,
    ]
}

/// The exact option-kind sequence of the Linux rule.
pub open spec fn linux_options() -> Seq<u8> {
    seq![OPT_MSS, OPT_SACK_PERMITTED, OPT_TIMESTAMPS, OPT_NOP, OPT_WSCALE]
}

/// The fixed, ordered rule table, first match wins: each rule pairs a TTL
/// condition with an exact option-kind sequence.
pub open spec fn os_of(ttl: u8, options: Seq<u8>) -> OS {
    if 64 < ttl && ttl < 128 && options == windows_options() {
        OS::Windows
    } else if ttl <= 64 && options == macos_options() {
        OS::MacOS
    } else if ttl <= 64 && options == linux_options() {
        OS::Linux
    } else {
        OS::Unknown
    }
}

/// The endpoint key `"<source-ip>:<source-port>"`.
pub open spec fn endpoint_key(ip: IpFieldsModel, tcp: TcpFieldsModel) -> Seq<char> {
    addr_str(ip.source_ip) + seq![':'] + dec_str(tcp.source_port as nat)
}

/// What classification yields for one parsed packet: nothing unless it is
/// a pure connection-initiation packet, else the endpoint key, the OS
/// guess and the signature.
pub open spec fn classify_model(ip: IpFieldsModel, tcp: TcpFieldsModel) -> Option<EntryModel> {
    if is_syn_packet(tcp.flags) {
        Some(
            EntryModel {
                key: endpoint_key(ip, tcp),
                value: ClientModel {
                    os: os_of(ip.ttl, tcp.options),
                    signature: signature_chars(ip, tcp),
                },
            },
        )
    } else {
        None
    }
}

/// The console-observable record of one classification.
pub struct ConsoleMessage {
    pub address: String,
    pub os: OS,
    pub signature: String,
}

impl View for ConsoleMessage {
    type V = EntryModel;

    open spec fn view(&self) -> EntryModel {
        EntryModel {
            key: self.address@,
            value: ClientModel { os: self.os, signature: self.signature@ },
        }
    }
}

impl ConsoleMessage {
    /// Copies an address and a classification result into one record.
    pub fn new(address: &String, client_data: &ClientData) -> (r: ConsoleMessage)
        ensures
            r@ == (EntryModel { key: address@, value: client_data@ }),
    {
        ConsoleMessage {
            address: address.clone(),
            os: client_data.os,
            signature: client_data.signature.clone(),
        }
    }
}

/// Appends the token for one option kind.
fn push_token(s: &mut String, kind: u8)
    ensures
        final(s)@ == old(s)@ + token(kind),
{
    if kind == OPT_NOP {
        proof {
            reveal_strlit("nop");
        }
        s.append("nop");
        proof {
            assert("nop"@ =~= token(kind));
        }
    } else if kind == OPT_MSS {
        proof {
            reveal_strlit("mss");
        }
        s.append("mss");
        proof {
            assert("mss"@ =~= token(kind));
        }
    } else if kind == OPT_WSCALE {
        proof {
            reveal_strlit("ws");
        }
        s.append("ws");
        proof {
            assert("ws"@ =~= token(kind));
        }
    } else if kind == OPT_SACK_PERMITTED {
        proof {
            reveal_strlit("sok");
        }
        s.append("sok");
        proof {
            assert("sok"@ =~= token(kind));
        }
    } else if kind == OPT_EOL {
        proof {
            reveal_strlit("eol");
        }
        s.append("eol");
        proof {
            assert("eol"@ =~= token(kind));
        }
    } else if kind == OPT_TIMESTAMPS {
        proof {
            reveal_strlit("ts");
        }
        s.append("ts");
        proof {
            assert("ts"@ =~= token(kind));
        }
    } else if kind == OPT_SACK {
        proof {
            reveal_strlit("sack");
        }
        s.append("sack");
        proof {
            assert("sack"@ =~= token(kind));
        }
    } else {
        proof {
            reveal_strlit("?");
        }
        s.append("?");
        proof {
            assert("?"@ =~= token(kind));
        }
    }
}

/// Appends the comma-joined tokens of `kinds[i..]`.
fn push_tokens(s: &mut String, kinds: &Vec<u8>, i: usize)
    requires
        i <= kinds@.len(),
    ensures
        final(s)@ == old(s)@ + tokens_str(kinds@.skip(i as int)),
    decreases kinds@.len() - i,
{
    let ghost tail = kinds@.skip(i as int);
    if i == kinds.len() {
        proof {
            assert(tail =~= Seq::<u8>::empty());
            assert(final(s)@ =~= old(s)@ + tokens_str(tail));
        }
    } else if i + 1 == kinds.len() {
        push_token(s, kinds[i]);
        proof {
            assert(tail =~= seq![kinds@[i as int]]);
        }
    } else {
        push_token(s, kinds[i]);
        proof {
            reveal_strlit(",");
        }
        s.append(",");
        push_tokens(s, kinds, i + 1);
        proof {
            assert(","@ =~= seq![',']);
            assert(tail[0] == kinds@[i as int]);
            assert(tail.drop_first() =~= kinds@.skip(i as int + 1));
            assert(final(s)@ =~= old(s)@ + tokens_str(tail));
        }
    }
}

/// Builds the canonical signature string for one parsed packet.
#[verifier::rlimit(100)]
pub fn gen_signature(ip: &IpPacketData, tcp: &TcpPacketData) -> (r: String)
    requires
        ip.wf(),
        tcp.wf(),
    ensures
        r@ == signature_chars(ip@, tcp@),
{
    proof {
        reveal_strlit(":");
        reveal_strlit("+");
        reveal_strlit("?");
        reveal_strlit("4");
        reveal_strlit("6");
    }
    let mut s = String::new();
    match ip.packet_type {
        IpPacketType::Ipv4 => s.append("4"),
        IpPacketType::Ipv6 => s.append("6"),
    }
    s.append(":");
    push_dec_u16(&mut s, ip.ttl as u16);
    s.append("+");
    if ip.ttl <= 64 {
        push_dec_u16(&mut s, (64 - ip.ttl) as u16);
    } else if ip.ttl <= 128 {
        push_dec_u16(&mut s, (128 - ip.ttl) as u16);
    } else {
        s.append("?");
    }
    s.append(":");
    push_dec_u16(&mut s, ip.options_length as u16);
    s.append(":");
    match tcp.mss {
        Some(m) => push_dec_u16(&mut s, m),
        None => s.append("?"),
    }
    s.append(":");
    push_dec_u16(&mut s, tcp.window_size);
    s.append(":");
    match tcp.wscale {
        Some(w) => push_dec_u16(&mut s, w as u16),
        None => s.append("?"),
    }
    s.append(":");
    push_tokens(&mut s, &tcp.options, 0);
    s.append(":");
    match ip.flags {
        Some(f) => push_bin_u16(&mut s, f as u16, 2),
        None => s.append("?"),
    }
    s.append(":");
    push_bin_u16(&mut s, tcp.flags, 9);
    proof {
        assert(tcp.options@.skip(0) =~= tcp.options@);
        assert(s@ =~= signature_chars(ip@, tcp@));
    }
    s
}

/// Element-wise equality of two byte vectors.
fn bytes_equal(a: &Vec<u8>, b: &Vec<u8>) -> (r: bool)
    ensures
        r == (a@ == b@),
{
    if a.len() != b.len() {
        return false;
    }
    let n = a.len();
    let mut i: usize = 0;
    while i < n
        invariant
            i <= n == a@.len() == b@.len(),
            forall|k: int| 0 <= k < i ==> a@[k] == b@[k],
        decreases n - i,
    {
        if a[i] != b[i] {
            return false;
        }
        i = i + 1;
    }
    proof {
        assert(a@ =~= b@);
    }
    true
}

fn windows_options_vec() -> (v: Vec<u8>)
    ensures
        v@ == windows_options(),
{
    let mut v: Vec<u8> = Vec::new();
    v.push(OPT_MSS);
    v.push(OPT_NOP);
    v.push(OPT_WSCALE);
    v.push(OPT_NOP);
    v.push(OPT_NOP);
    v.push(OPT_SACK_PERMITTED);
    proof {
        assert(v@ =~= windows_options());
    }
    v
}

fn macos_options_vec() -> (v: Vec<u8>)
    ensures
        v@ == macos_options(),
{
    let mut v: Vec<u8> = Vec::new();
    v.push(OPT_MSS);
    v.push(OPT_NOP);
    v.push(OPT_WSCALE);
    v.push(OPT_NOP);
    v.push(OPT_NOP);
    v.push(OPT_TIMESTAMPS);
    v.push(OPT_SACK_PERMITTED);
    v.push(OPT_EOL);
    v.push(OPT_EOL);
    proof {
        assert(v@ =~= macos_options());
    }
    v
}

fn linux_options_vec() -> (v: Vec<u8>)
    ensures
        v@ == linux_options(),
{
    let mut v: Vec<u8> = Vec::new();
    v.push(OPT_MSS);
    v.push(OPT_SACK_PERMITTED);
    v.push(OPT_TIMESTAMPS);
    v.push(OPT_NOP);
    v.push(OPT_WSCALE);
    proof {
        assert(v@ =~= linux_options());
    }
    v
}

/// Matches the fixed rule table, top to bottom, first match wins.
pub fn detect_os(ip: &IpPacketData, tcp: &TcpPacketData) -> (r: OS)
    ensures
        r == os_of(ip.ttl, tcp.options@),
{
    if ip.ttl > 64 && ip.ttl < 128 {
        let expected = windows_options_vec();
        if bytes_equal(&tcp.options, &expected) {
            return OS::Windows;
        }
    }
    if ip.ttl <= 64 {
        let expected = macos_options_vec();
        if bytes_equal(&tcp.options, &expected) {
            return OS::MacOS;
        }
        let expected = linux_options_vec();
        if bytes_equal(&tcp.options, &expected) {
            return OS::Linux;
        }
    }
    OS::Unknown
}

/// Classifies one parsed packet. Acts only on a pure connection-initiation
/// packet (SYN set, ACK clear): builds the endpoint key, the signature and
/// the OS guess, submits them to the store, and yields the console record.
/// Every other packet leaves the store untouched and yields nothing.
pub fn classify_packets(ip: &IpPacketData, tcp: &TcpPacketData, store: &mut Store) -> (r: Option<
    ConsoleMessage,
>)
    requires
        old(store).inv(),
        ip.wf(),
        tcp.wf(),
    ensures
        final(store).inv(),
        final(store).capacity() == old(store).capacity(),
        r is Some <==> classify_model(ip@, tcp@) is Some,
        r matches Some(cm) ==> classify_model(ip@, tcp@) == Some(cm@),
        final(store)@ == match classify_model(ip@, tcp@) {
            None => old(store)@,
            Some(e) => store_insert(old(store)@, e, old(store).capacity()),
        },
{
    if !(tcp.flags & TCP_SYN != 0 && tcp.flags & TCP_ACK == 0) {
        return None;
    }
    let mut address = String::new();
    push_address(&mut address, &ip.source_ip);
    proof {
        reveal_strlit(":");
    }
    address.append(":");
    push_dec_u16(&mut address, tcp.source_port);
    proof {
        assert(address@ =~= endpoint_key(ip@, tcp@));
    }
    let signature = gen_signature(ip, tcp);
    let os = detect_os(ip, tcp);
    let client_data = ClientData { os, signature };
    let console_message = ConsoleMessage::new(&address, &client_data);
    let ghost e = EntryModel { key: address@, value: client_data@ };
    proof {
        assert(e =~= classify_model(ip@, tcp@)->Some_0);
        assert(console_message@ =~= e);
    }
    store.add_new_client(address, client_data);
    Some(console_message)
}

/// What one delivered frame leads to: the parsed IP fields when the
/// ethertype hint names IPv4 or IPv6 and the header is well-formed, and
/// the parsed TCP fields when the next protocol is TCP and its header is
/// well-formed; otherwise nothing.
pub open spec fn frame_model(ethertype: u16, b: Seq<u8>) -> Option<(IpFieldsModel, TcpFieldsModel)> {
    let ip_opt = if ethertype == ETHERTYPE_IPV4 {
        spec_parse_ipv4(b)
    } else if ethertype == ETHERTYPE_IPV6 {
        spec_parse_ipv6(b)
    } else {
        None
    };
    match ip_opt {
        None => None,
        Some(ipm) => {
            if ipm.next_protocol == PROTO_TCP {
                match spec_parse_tcp(ipm.payload) {
                    None => None,
                    Some(tcpm) => Some((ipm, tcpm)),
                }
            } else {
                None
            }
        },
    }
}

/// Handles one raw frame: interprets it per the ethertype hint, parses
/// the embedded TCP header, and classifies. A frame that is not IP, not
/// TCP, or malformed at any stage is silently skipped.
pub fn handle_ethernet_packet(ethertype: u16, frame: &[u8], store: &mut Store) -> (r: Option<
    ConsoleMessage,
>)
    requires
        old(store).inv(),
    ensures
        final(store).inv(),
        final(store).capacity() == old(store).capacity(),
        match frame_model(ethertype, frame@) {
            None => r is None && final(store)@ == old(store)@,
            Some(parsed) => {
                &&& (r is Some <==> classify_model(parsed.0, parsed.1) is Some)
                &&& (r matches Some(cm) ==> classify_model(parsed.0, parsed.1) == Some(cm@))
                &&& final(store)@ == match classify_model(parsed.0, parsed.1) {
                    None => old(store)@,
                    Some(e) => store_insert(old(store)@, e, old(store).capacity()),
                }
            },
        },
{
    let ip_opt: Option<IpPacketData> = if ethertype == ETHERTYPE_IPV4 {
        parse_ipv4_packet(frame)
    } else if ethertype == ETHERTYPE_IPV6 {
        parse_ipv6_packet(frame)
    } else {
        None
    };
    match ip_opt {
        None => None,
        Some(ipd) => {
            if ipd.next_protocol == PROTO_TCP {
                match parse_tcp_packet(ipd.payload.as_slice()) {
                    None => None,
                    Some(tcpd) => classify_packets(&ipd, &tcpd, store),
                }
            } else {
                None
            }
        },
    }
}

/// Any option sequence and TTL pair that matches none of the three rules
/// is classified as Unknown.
pub proof fn lemma_unmatched_is_unknown(ttl: u8, options: Seq<u8>)
    requires
        !(64 < ttl && ttl < 128 && options == windows_options()),
        !(ttl <= 64 && options == macos_options()),
        !(ttl <= 64 && options == linux_options()),
    ensures
        os_of(ttl, options) == OS::Unknown,
{
}

proof fn lemma_token_colon_free(kind: u8)
    ensures
        count_char(token(kind), ':') == 0,
{
    lemma_count_char_zero(token(kind), ':');
}

proof fn lemma_tokens_str_colon_free(kinds: Seq<u8>)
    ensures
        count_char(tokens_str(kinds), ':') == 0,
    decreases kinds.len(),
{
    if kinds.len() == 0 {
    } else if kinds.len() == 1 {
        lemma_token_colon_free(kinds[0]);
    } else {
        lemma_token_colon_free(kinds[0]);
        lemma_count_char_zero(seq![','], ':');
        lemma_tokens_str_colon_free(kinds.drop_first());
        lemma_count_char_add(token(kinds[0]), seq![','], ':');
        lemma_count_char_add(token(kinds[0]) + seq![','], tokens_str(kinds.drop_first()), ':');
    }
}

proof fn lemma_hops_str_colon_free(ttl: u8)
    ensures
        count_char(hops_str(ttl), ':') == 0,
{
    if ttl <= 64 {
        lemma_dec_str_colon_free((64 - ttl) as nat);
    } else if ttl <= 128 {
        lemma_dec_str_colon_free((128 - ttl) as nat);
    } else {
        lemma_count_char_zero(seq!['?'], ':');
    }
}

proof fn lemma_ttl_field_colon_free(ttl: u8)
    ensures
        count_char(ttl_field(ttl), ':') == 0,
{
    lemma_dec_str_colon_free(ttl as nat);
    lemma_count_char_zero(seq!['+'], ':');
    lemma_hops_str_colon_free(ttl);
    lemma_count_char_add(dec_str(ttl as nat), seq!['+'], ':');
    lemma_count_char_add(dec_str(ttl as nat) + seq!['+'], hops_str(ttl), ':');
}

proof fn lemma_opt_dec_field_colon_free(v: Option<u16>)
    ensures
        count_char(opt_dec_field(v), ':') == 0,
{
    match v {
        Some(n) => lemma_dec_str_colon_free(n as nat),
        None => lemma_count_char_zero(seq!['?'], ':'),
    }
}

proof fn lemma_ip_flags_field_colon_free(f: Option<u8>)
    ensures
        count_char(ip_flags_field(f), ':') == 0,
{
    match f {
        Some(v) => lemma_bin_str_colon_free(v as nat, 2),
        None => lemma_count_char_zero(seq!['?'], ':'),
    }
}

/// Splitting any produced signature on `':'` yields exactly nine segments.
pub proof fn lemma_signature_nine_fields(ip: IpFieldsModel, tcp: TcpFieldsModel)
    ensures
        split_char(signature_chars(ip, tcp), ':').len() == 9,
{
    let sep = seq![':'];
    assert(count_char(sep, ':') == 1) by {
        assert(sep.drop_first() =~= Seq::<char>::empty());
        assert(count_char(Seq::<char>::empty(), ':') == 0);
    }
    let f1 = version_field(ip.packet_type);
    let f2 = ttl_field(ip.ttl);
    let f3 = dec_str(ip.options_length as nat);
    let f4 = opt_dec_field(tcp.mss);
    let f5 = dec_str(tcp.window_size as nat);
    let f6 = opt_dec_field(
        match tcp.wscale {
            Some(w) => Some(w as u16),
            None => None,
        },
    );
    let f7 = tokens_str(tcp.options);
    let f8 = ip_flags_field(ip.flags);
    let f9 = bin_str(tcp.flags as nat, 9);
    lemma_count_char_zero(f1, ':');
    lemma_ttl_field_colon_free(ip.ttl);
    lemma_dec_str_colon_free(ip.options_length as nat);
    lemma_opt_dec_field_colon_free(tcp.mss);
    lemma_dec_str_colon_free(tcp.window_size as nat);
    lemma_opt_dec_field_colon_free(
        match tcp.wscale {
            Some(w) => Some(w as u16),
            None => None,
        },
    );
    lemma_tokens_str_colon_free(tcp.options);
    lemma_ip_flags_field_colon_free(ip.flags);
    lemma_bin_str_colon_free(tcp.flags as nat, 9);
    lemma_count_char_add(f1, sep, ':');
    lemma_count_char_add(f1 + sep, f2, ':');
    lemma_count_char_add(f1 + sep + f2, sep, ':');
    lemma_count_char_add(f1 + sep + f2 + sep, f3, ':');
    lemma_count_char_add(f1 + sep + f2 + sep + f3, sep, ':');
    lemma_count_char_add(f1 + sep + f2 + sep + f3 + sep, f4, ':');
    lemma_count_char_add(f1 + sep + f2 + sep + f3 + sep + f4, sep, ':');
    lemma_count_char_add(f1 + sep + f2 + sep + f3 + sep + f4 + sep, f5, ':');
    lemma_count_char_add(f1 + sep + f2 + sep + f3 + sep + f4 + sep + f5, sep, ':');
    lemma_count_char_add(f1 + sep + f2 + sep + f3 + sep + f4 + sep + f5 + sep, f6, ':');
    lemma_count_char_add(f1 + sep + f2 + sep + f3 + sep + f4 + sep + f5 + sep + f6, sep, ':');
    lemma_count_char_add(f1 + sep + f2 + sep + f3 + sep + f4 + sep + f5 + sep + f6 + sep, f7, ':');
    lemma_count_char_add(
        f1 + sep + f2 + sep + f3 + sep + f4 + sep + f5 + sep + f6 + sep + f7,
        sep,
        ':',
    );
    lemma_count_char_add(
        f1 + sep + f2 + sep + f3 + sep + f4 + sep + f5 + sep + f6 + sep + f7 + sep,
        f8,
        ':',
    );
    lemma_count_char_add(
        f1 + sep + f2 + sep + f3 + sep + f4 + sep + f5 + sep + f6 + sep + f7 + sep + f8,
        sep,
        ':',
    );
    lemma_count_char_add(
        f1 + sep + f2 + sep + f3 + sep + f4 + sep + f5 + sep + f6 + sep + f7 + sep + f8 + sep,
        f9,
        ':',
    );
    assert(count_char(signature_chars(ip, tcp), ':') == 8);
    lemma_split_char_len(signature_chars(ip, tcp), ':');
}

} // verus!
