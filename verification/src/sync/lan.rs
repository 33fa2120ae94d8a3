//! Devices on the local network: how they announce themselves and are found.

use std::sync::Arc;
use vstd::prelude::*;

use crate::content::DeviceId;
use crate::hexcodec;
use crate::sync::cert::DeviceCert;
use crate::sync::protocol::PROTOCOL_VERSION;
use crate::text::{
    chars_of, decimal, decimal_text, parse_i64, push_decimal, signed_value, string_of_range, texts,
};

verus! {

/// How long a connection on the local network may take, in milliseconds.
pub const LAN_TIMEOUT_MS: u64 = 800;

/// An address of a device.
#[derive(Debug)]
pub enum IpText {
    V4(String),
    V6(String),
}

/// Where an address and a port are reached.
pub open spec fn endpoint_text(ip: IpText, port: u16) -> Seq<char> {
    match ip {
        IpText::V4(v) => v@ + seq![':'] + decimal(port as nat),
        IpText::V6(v) => seq!['['] + v@ + seq![']', ':'] + decimal(port as nat),
    }
}

/// Where an address and a port are reached.
pub fn endpoint(ip: &IpText, port: u16) -> (r: String)
    ensures
        r@ == endpoint_text(*ip, port),
{
    let mut out = String::new();
    match ip {
        IpText::V4(v) => {
            out.push_str(v.as_str());
            out.push(':');
        },
        IpText::V6(v) => {
            out.push('[');
            out.push_str(v.as_str());
            out.push(']');
            out.push(':');
        },
    }
    push_decimal(&mut out, port as u128);
    assert(out@ =~= endpoint_text(*ip, port));
    out
}

/// The endpoints of some addresses at a port.
pub fn endpoints(ips: &[IpText], port: u16) -> (r: Vec<String>)
    ensures
        texts(r@) == ips@.map_values(|ip: IpText| endpoint_text(ip, port)),
{
    let mut out: Vec<String> = Vec::new();
    let mut i: usize = 0;
    let ghost goal = ips@.map_values(|ip: IpText| endpoint_text(ip, port));
    assert(texts(out@) =~= goal.take(0));
    while i < ips.len()
        invariant
            i <= ips@.len(),
            goal == ips@.map_values(|ip: IpText| endpoint_text(ip, port)),
            texts(out@) == goal.take(i as int),
        decreases ips@.len() - i,
    {
        let ghost before = texts(out@);
        let e = endpoint(&ips[i], port);
        let ghost t = e@;
        out.push(e);
        assert(texts(out@) =~= before.push(t));
        assert(goal.take(i + 1) =~= goal.take(i as int).push(goal[i as int]));
        i += 1;
    }
    assert(goal.take(i as int) =~= goal);
    out
}

/// A device found on the local network.
#[derive(Debug)]
pub struct DiscoveredPeer {
    pub device_id: DeviceId,
    pub port: u16,
    pub fingerprint: Option<[u8; 32]>,
    pub addresses: Vec<String>,
}

/// An announcement as it was received, with the device identity already read.
#[derive(Debug)]
pub struct MdnsRecord {
    pub device_id: Option<DeviceId>,
    pub port: Option<String>,
    pub fp: Option<String>,
    pub service_port: u16,
    pub addresses: Vec<IpText>,
}

/// The port that a text writes, if it writes one.
pub open spec fn port_value(s: Seq<char>) -> Option<u16> {
    match signed_value(s) {
        Some(v) => if s[0] != '-' && 0 <= v <= u16::MAX {
            Some(v as u16)
        } else {
            None
        },
        None => None,
    }
}

/// The port that a text writes, if it writes one.
pub fn parse_port(s: &str) -> (r: Option<u16>)
    ensures
        r == port_value(s@),
{
    let cs = chars_of(s);
    match parse_i64(s) {
        Some(v) => {
            if cs.len() > 0 && cs[0] != '-' && 0 <= v && v <= 0xffff {
                Some(v as u16)
            } else {
                None
            }
        },
        None => None,
    }
}

/// The fingerprint that a text writes, if it writes one.
pub open spec fn fingerprint_value(s: Seq<char>) -> Option<Seq<u8>> {
    if hexcodec::is_hex(s) && hexcodec::hex_bytes(s).len() == 32 {
        Some(hexcodec::hex_bytes(s))
    } else {
        None
    }
}

/// The fingerprint that a text writes: thirty-two bytes in hexadecimal.
pub fn parse_fp(s: &str) -> (r: Option<[u8; 32]>)
    ensures
        match r {
            Some(a) => fingerprint_value(s@) == Some(a@),
            None => fingerprint_value(s@) is None,
        },
{
    match hexcodec::decode(s) {
        Ok(raw) => {
            if raw.len() != 32 {
                return None;
            }
            let mut out: [u8; 32] = [0u8; 32];
            let mut i: usize = 0;
            while i < 32
                invariant
                    i <= 32,
                    raw@.len() == 32,
                    forall|j: int| 0 <= j < i ==> out@[j] == raw@[j],
                decreases 32 - i,
            {
                out[i] = raw[i];
                i += 1;
            }
            assert(out@ =~= raw@);
            Some(out)
        },
        Err(_) => None,
    }
}

/// The port of an announcement: the one it names, else that of the service.
pub open spec fn record_port(rec: MdnsRecord) -> u16 {
    match rec.port {
        Some(p) => match port_value(p@) {
            Some(v) => v,
            None => rec.service_port,
        },
        None => rec.service_port,
    }
}

/// The device that an announcement is from: none if it names no device. A
/// fingerprint that cannot be read is left out.
pub fn parse_mdns_device(rec: &MdnsRecord) -> (r: Option<DiscoveredPeer>)
    ensures
        match rec.device_id {
            None => r is None,
            Some(id) => {
                &&& r matches Some(p)
                &&& p.device_id == id
                &&& p.port == record_port(*rec)
                &&& (match p.fingerprint {
                    Some(a) => Some(a@),
                    None => None,
                }) == (match rec.fp {
                    Some(f) => fingerprint_value(f@),
                    None => None,
                })
                &&& texts(p.addresses@) == rec.addresses@.map_values(
                    |ip: IpText| endpoint_text(ip, record_port(*rec)),
                )
            },
        },
{
    let device_id = match rec.device_id {
        Some(id) => id,
        None => return None,
    };
    let port: u16 = match &rec.port {
        Some(p) => match parse_port(p.as_str()) {
            Some(v) => v,
            None => rec.service_port,
        },
        None => rec.service_port,
    };
    let fingerprint = match &rec.fp {
        Some(f) => parse_fp(f.as_str()),
        None => None,
    };
    let addresses = endpoints(rec.addresses.as_slice(), port);
    Some(DiscoveredPeer { device_id, port, fingerprint, addresses })
}

/// The name under which a device announces itself: the first characters of its
/// identity.
pub open spec fn instance_text(id: Seq<char>) -> Seq<char> {
    if id.len() <= 8 {
        id
    } else {
        id.take(8)
    }
}

/// The first eight characters of a device's identity, or all if it has fewer.
pub fn short_id(id: &str) -> (r: String)
    ensures
        r@ == instance_text(id@),
{
    let cs = chars_of(id);
    let n: usize = if cs.len() <= 8 {
        cs.len()
    } else {
        8
    };
    assert(id@.subrange(0, n as int) =~= instance_text(id@));
    string_of_range(cs.as_slice(), 0, n)
}

/// What a device announces of itself.
#[derive(Debug)]
pub struct Announcement {
    pub instance: String,
    pub hostname: String,
    pub protocol_version: String,
    pub device_id: String,
    pub port: String,
    pub fp: String,
}

/// What a device announces of itself.
pub fn announce(device_id: &str, cert: &DeviceCert, port: u16) -> (r: Announcement)
    ensures
        r.instance@ == instance_text(device_id@),
        r.hostname@ == device_id@ + ".local."@,
        r.protocol_version@ == decimal(PROTOCOL_VERSION as nat),
        r.device_id@ == device_id@,
        r.port@ == decimal(port as nat),
        r.fp@ == hexcodec::hex_text(cert.fingerprint@),
{
    let mut hostname = device_id.to_owned();
    hostname.push_str(".local.");
    Announcement {
        instance: short_id(device_id),
        hostname,
        protocol_version: decimal_text(PROTOCOL_VERSION as u128),
        device_id: device_id.to_owned(),
        port: decimal_text(port as u128),
        fp: cert.fingerprint_hex(),
    }
}

/// A device finds another with the fingerprint and the port that it announced.
pub proof fn announcement_is_understood(fingerprint: Seq<u8>, port: u16)
    requires
        fingerprint.len() == 32,
    ensures
        fingerprint_value(hexcodec::hex_text(fingerprint)) == Some(fingerprint),
        port_value(decimal(port as nat)) == Some(port),
{
    hexcodec::decode_restores_encode(fingerprint);
    crate::text::lemma_decimal_reads_back(port as nat);
}

/// How long a connection on the local network may take, in milliseconds.
pub fn lan_timeout() -> (r: u64)
    ensures
        r == LAN_TIMEOUT_MS,
{
    LAN_TIMEOUT_MS
}

/// A certificate to be shared.
pub fn share_cert_arc(cert: DeviceCert) -> (r: Arc<DeviceCert>)
    ensures
        *r == cert,
{
    Arc::new(cert)
}

/// The service under which devices find each other, as it is announced.
pub fn service_type() -> (r: &'static str)
    ensures
        r@ == "_asterism._tcp.local."@,
{
    "_asterism._tcp.local."
}

/// The name of the service that devices announce.
pub fn mdns_name() -> (r: &'static str)
    ensures
        r@ == "_asterism._tcp.local"@,
{
    "_asterism._tcp.local"
}

/// A device is reached at its address and its port: a colon stands between the two, and
/// an address with colons of its own stands in brackets.
pub proof fn endpoints_name_address_and_port(v4: String, v6: String, port: u16)
    ensures
        endpoint_text(IpText::V4(v4), port) == v4@ + (seq![':'] + decimal(port as nat)),
        endpoint_text(IpText::V6(v6), port) == seq!['['] + (v6@ + (seq![']'] + (seq![':'] + decimal(
            port as nat,
        )))),
{
    assert(endpoint_text(IpText::V4(v4), port) =~= v4@ + (seq![':'] + decimal(port as nat)));
    assert(endpoint_text(IpText::V6(v6), port) =~= seq!['['] + (v6@ + (seq![']'] + (seq![':']
        + decimal(port as nat)))));
}

/// A text writes a port just if it is digits, behind at most a plus sign, whose value is
/// below 65536.
pub proof fn ports_are_read(s: Seq<char>)
    ensures
        port_value(s) is Some <==> signed_value(s) is Some && s[0] != '-' && signed_value(s)->0
            < 65536,
        port_value(s) is Some ==> port_value(s)->0 == signed_value(s)->0,
{
    if signed_value(s) is Some && s[0] != '-' {
        assert(signed_value(s)->0 >= 0);
    }
}

/// A device is taken to be at the port that it names, if that is one, and otherwise at
/// the port of its service.
pub proof fn named_port_counts_first(rec: MdnsRecord)
    ensures
        rec.port is Some && port_value(rec.port->0@) is Some ==> record_port(rec) == port_value(
            rec.port->0@,
        )->0,
        rec.port is None || port_value(rec.port->0@) is None ==> record_port(rec)
            == rec.service_port,
{
}

/// A text writes a fingerprint just if it is sixty-four hexadecimal digits, of either
/// case, and the fingerprint has thirty-two bytes: the value of each pair of digits.
pub proof fn fingerprints_are_sixty_four_digits(s: Seq<char>)
    ensures
        fingerprint_value(s) is Some <==> s.len() == 64 && forall|i: int|
            0 <= i < s.len() ==> ('0' <= #[trigger] s[i] <= '9' || 'a' <= s[i] <= 'f' || 'A' <= s[i]
                <= 'F'),
        fingerprint_value(s) is Some ==> fingerprint_value(s)->0.len() == 32
            && crate::text::lowered(s) == hexcodec::hex_text(fingerprint_value(s)->0),
{
    if s.len() == 64 && (forall|i: int|
        0 <= i < s.len() ==> ('0' <= #[trigger] s[i] <= '9' || 'a' <= s[i] <= 'f' || 'A' <= s[i]
            <= 'F')) {
        assert forall|i: int| 0 <= i < s.len() implies hexcodec::hex_digit_value(
            #[trigger] s[i],
        ) is Some by {}
        assert(hexcodec::is_hex(s));
    }
    if fingerprint_value(s) is Some {
        assert(s.len() == 64);
        assert forall|i: int| 0 <= i < s.len() implies ('0' <= #[trigger] s[i] <= '9' || 'a' <= s[i]
            <= 'f' || 'A' <= s[i] <= 'F') by {
            assert(hexcodec::hex_digit_value(s[i]) is Some);
        }
        let b = fingerprint_value(s)->0;
        let low = crate::text::lowered(s);
        assert forall|i: int| 0 <= i < 64 implies low[i] == hexcodec::hex_text(b)[i] by {
            let k = i / 2;
            assert(hexcodec::hex_digit_value(s[2 * k]) is Some);
            assert(hexcodec::hex_digit_value(s[2 * k + 1]) is Some);
            assert(hexcodec::hex_digit_value(s[i]) is Some);
            let high = hexcodec::hex_digit_value(s[2 * k])->0;
            let lower = hexcodec::hex_digit_value(s[2 * k + 1])->0;
            assert(b[k] == (high * 16 + lower) as u8);
            assert((high * 16 + lower) / 16 == high && (high * 16 + lower) % 16 == lower);
        }
        assert(low =~= hexcodec::hex_text(b));
    }
}

/// The name under which a device announces itself is the beginning of its identity,
/// eight characters if it has so many.
pub proof fn instance_is_the_beginning(id: Seq<char>)
    ensures
        instance_text(id).len() == (if id.len() < 8 {
            id.len()
        } else {
            8
        }),
        forall|i: int| 0 <= i < instance_text(id).len() ==> #[trigger] instance_text(id)[i] == id[i],
{
}


/// A device that announces itself, `a`, is found by what it announced: with its identity,
/// its port and its fingerprint, at each of its addresses.
pub proof fn announced_devices_are_found(
    text: &str,
    cert: DeviceCert,
    port: u16,
    a: Announcement,
    rec: MdnsRecord,
    id: DeviceId,
    r: Option<DiscoveredPeer>,
    i: int,
)
    requires
        call_ensures(announce, (text, &cert, port), a),
        rec.device_id == Some(id),
        rec.port == Some(a.port),
        rec.fp == Some(a.fp),
        call_ensures(parse_mdns_device, (&rec,), r),
    ensures
        a.device_id@ == text@,
        a.protocol_version@ == decimal(1),
        a.instance@.is_prefix_of(text@),
        r is Some,
        r->0.device_id == id,
        r->0.port == port,
        r->0.fingerprint is Some && r->0.fingerprint->0@ == cert.fingerprint@,
        r->0.addresses@.len() == rec.addresses@.len(),
        0 <= i < rec.addresses@.len() ==> r->0.addresses@[i]@ == endpoint_text(
            rec.addresses@[i],
            port,
        ),
{
    announcement_is_understood(cert.fingerprint@, port);
    instance_is_the_beginning(text@);
    assert(texts(r->0.addresses@).len() == r->0.addresses@.len());
    if 0 <= i < rec.addresses@.len() {
        assert(texts(r->0.addresses@)[i] == r->0.addresses@[i]@);
    }
}

/// A record is of a device just if it names one, and every address is an endpoint.
pub proof fn records_name_devices(
    rec: MdnsRecord,
    r: Option<DiscoveredPeer>,
    ips: &[IpText],
    port: u16,
    es: Vec<String>,
    i: int,
    t: u64,
)
    requires
        call_ensures(parse_mdns_device, (&rec,), r),
        call_ensures(endpoints, (ips, port), es),
        call_ensures(lan_timeout, (), t),
    ensures
        r is Some <==> rec.device_id is Some,
        r is Some ==> r->0.device_id == rec.device_id->0,
        rec.fp is None && r is Some ==> r->0.fingerprint is None,
        rec.port is None && r is Some ==> r->0.port == rec.service_port,
        es@.len() == ips@.len(),
        0 <= i < ips@.len() ==> es@[i]@ == endpoint_text(ips@[i], port),
        t == 800,
{
    assert(texts(es@).len() == es@.len());
    if 0 <= i < ips@.len() {
        assert(texts(es@)[i] == es@[i]@);
    }
}


} // verus!
