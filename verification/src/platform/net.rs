//! The addresses of this device and how their changes are noticed.

use vstd::prelude::*;

use crate::order::{lemma_text_order, sort_texts, sorted_texts, text_order};
use crate::sync::lan::{endpoint, endpoint_text, IpText};
use crate::text::{join, joined, same_text, texts};

verus! {

/// A network interface as the system reports it.
#[derive(Debug)]
pub struct Interface {
    pub name: String,
    pub ip: IpText,
    pub loopback: bool,
}

/// An address at which this device can be reached.
#[derive(Debug)]
pub struct LanCandidate {
    pub ip: IpText,
    pub port: u16,
}

impl LanCandidate {
    /// Where the device is reached.
    pub fn endpoint(&self) -> (r: String)
        ensures
            r@ == endpoint_text(self.ip, self.port),
    {
        endpoint(&self.ip, self.port)
    }
}

/// The address itself.
pub open spec fn ip_text(ip: IpText) -> Seq<char> {
    match ip {
        IpText::V4(v) => v@,
        IpText::V6(v) => v@,
    }
}

/// A copy of an address.
fn copy_ip(ip: &IpText) -> (r: IpText)
    ensures
        (r is V4) == (ip is V4),
        ip_text(r) == ip_text(*ip),
{
    match ip {
        IpText::V4(v) => IpText::V4(v.clone()),
        IpText::V6(v) => IpText::V6(v.clone()),
    }
}

/// The endpoints of the interfaces that others can reach, in order.
pub open spec fn reachable(ifaces: Seq<Interface>, port: u16) -> Seq<Seq<char>>
    decreases ifaces.len(),
{
    if ifaces.len() == 0 {
        Seq::empty()
    } else {
        let before = reachable(ifaces.drop_last(), port);
        if ifaces.last().loopback {
            before
        } else {
            before.push(endpoint_text(ifaces.last().ip, port))
        }
    }
}

/// The addresses at which others can reach this device.
pub fn local_candidates(ifaces: &[Interface], port: u16) -> (r: Vec<LanCandidate>)
    ensures
        r@.map_values(|c: LanCandidate| endpoint_text(c.ip, c.port)) == reachable(ifaces@, port),
        forall|i: int| 0 <= i < r@.len() ==> (#[trigger] r@[i]).port == port,
{
    let mut out: Vec<LanCandidate> = Vec::new();
    let mut i: usize = 0;
    assert(ifaces@.take(0).len() == 0);
    assert(out@.map_values(|c: LanCandidate| endpoint_text(c.ip, c.port)) =~= reachable(
        ifaces@.take(0),
        port,
    ));
    while i < ifaces.len()
        invariant
            i <= ifaces@.len(),
            out@.map_values(|c: LanCandidate| endpoint_text(c.ip, c.port)) == reachable(
                ifaces@.take(i as int),
                port,
            ),
            forall|k: int| 0 <= k < out@.len() ==> (#[trigger] out@[k]).port == port,
        decreases ifaces@.len() - i,
    {
        let ghost before = out@.map_values(|c: LanCandidate| endpoint_text(c.ip, c.port));
        proof {
            assert(ifaces@.take(i + 1).drop_last() =~= ifaces@.take(i as int));
            assert(ifaces@.take(i + 1).last() == ifaces@[i as int]);
        }
        if !ifaces[i].loopback {
            let c = LanCandidate { ip: copy_ip(&ifaces[i].ip), port };
            let ghost e = endpoint_text(c.ip, c.port);
            assert(e == endpoint_text(ifaces@[i as int].ip, port));
            out.push(c);
            assert(out@.map_values(|c: LanCandidate| endpoint_text(c.ip, c.port)) =~= before.push(
                e,
            ));
        }
        i += 1;
    }
    assert(ifaces@.take(i as int) =~= ifaces@);
    out
}

/// An interface in the fingerprint of the network.
pub open spec fn interface_text(i: Interface) -> Seq<char> {
    i.name@ + seq!['='] + ip_text(i.ip)
}

/// The interfaces in the fingerprint of the network.
pub open spec fn interface_texts(ifaces: Seq<Interface>) -> Seq<Seq<char>> {
    ifaces.map_values(|i: Interface| interface_text(i))
}

/// The fingerprint of the network: the interfaces in order.
pub open spec fn network_fingerprint(ifaces: Seq<Interface>) -> Seq<char> {
    joined(sorted_texts(interface_texts(ifaces)), "|"@)
}

/// The fingerprint of the network.
pub fn fingerprint(ifaces: &[Interface]) -> (r: String)
    ensures
        r@ == network_fingerprint(ifaces@),
{
    let mut parts: Vec<String> = Vec::new();
    let mut i: usize = 0;
    let ghost goal = interface_texts(ifaces@);
    assert(texts(parts@) =~= goal.take(0));
    while i < ifaces.len()
        invariant
            i <= ifaces@.len(),
            goal == interface_texts(ifaces@),
            texts(parts@) == goal.take(i as int),
        decreases ifaces@.len() - i,
    {
        let ghost before = texts(parts@);
        let mut s = ifaces[i].name.clone();
        s.push('=');
        match &ifaces[i].ip {
            IpText::V4(v) => s.push_str(v.as_str()),
            IpText::V6(v) => s.push_str(v.as_str()),
        }
        assert(s@ =~= interface_text(ifaces@[i as int]));
        let ghost t = s@;
        parts.push(s);
        assert(texts(parts@) =~= before.push(t));
        assert(goal.take(i + 1) =~= goal.take(i as int).push(goal[i as int]));
        i += 1;
    }
    assert(goal.take(i as int) =~= goal);
    let sorted = sort_texts(parts);
    join(sorted.as_slice(), "|")
}

/// Whether the network has changed, from its fingerprints then and now.
pub fn network_changed(last: &str, now: &str) -> (r: bool)
    ensures
        r == (last@ != now@),
{
    !same_text(last, now)
}

/// The order in which the system reports the interfaces makes no difference.
pub proof fn fingerprint_ignores_order(a: Seq<Interface>, b: Seq<Interface>)
    requires
        interface_texts(a).to_multiset() == interface_texts(b).to_multiset(),
    ensures
        network_fingerprint(a) == network_fingerprint(b),
{
    lemma_text_order();
    let x = interface_texts(a);
    let y = interface_texts(b);
    x.lemma_sort_by_ensures(text_order());
    y.lemma_sort_by_ensures(text_order());
    vstd::seq_lib::lemma_sorted_unique(sorted_texts(x), sorted_texts(y), text_order());
}

/// The addresses that others are told are those of all interfaces but the ones that only
/// this device can reach, in order.
pub proof fn all_reachable_interfaces_are_told(ifaces: Seq<Interface>, port: u16)
    ensures
        reachable(ifaces, port) == ifaces.filter(|i: Interface| !i.loopback).map_values(
            |i: Interface| endpoint_text(i.ip, port),
        ),
    decreases ifaces.len(),
{
    reveal(Seq::filter);
    let open = |i: Interface| !i.loopback;
    let at = |i: Interface| endpoint_text(i.ip, port);
    if ifaces.len() == 0 {
        assert(ifaces.filter(open).map_values(at) =~= Seq::<Seq<char>>::empty());
    } else {
        all_reachable_interfaces_are_told(ifaces.drop_last(), port);
        let before = ifaces.drop_last().filter(open);
        assert(before.push(ifaces.last()).map_values(at) =~= before.map_values(at).push(
            at(ifaces.last()),
        ));
    }
}

/// A change of an interface is noticed: as long as names hold no bar, two fingerprints
/// are equal only if the interfaces have the same names and addresses.
pub proof fn fingerprint_tells_networks_apart(a: Seq<Interface>, b: Seq<Interface>)
    requires
        a.len() > 0,
        b.len() > 0,
        forall|i: int|
            0 <= i < a.len() ==> !((#[trigger] a[i]).name@ + seq!['='] + ip_text(a[i].ip)).contains(
                '|',
            ),
        forall|i: int|
            0 <= i < b.len() ==> !((#[trigger] b[i]).name@ + seq!['='] + ip_text(b[i].ip)).contains(
                '|',
            ),
        network_fingerprint(a) == network_fingerprint(b),
    ensures
        a.map_values(|i: Interface| i.name@ + seq!['='] + ip_text(i.ip)).to_multiset()
            == b.map_values(|i: Interface| i.name@ + seq!['='] + ip_text(i.ip)).to_multiset(),
{
    reveal_strlit("|");
    assert("|"@ =~= seq!['|']);
    lemma_fingerprint_parts(a);
    lemma_fingerprint_parts(b);
    let x = interface_texts(a);
    let y = interface_texts(b);
    crate::order::sorting_keeps_the_texts(x);
    crate::order::sorting_keeps_the_texts(y);
    assert(x =~= a.map_values(|i: Interface| i.name@ + seq!['='] + ip_text(i.ip)));
    assert(y =~= b.map_values(|i: Interface| i.name@ + seq!['='] + ip_text(i.ip)));
}

proof fn lemma_fingerprint_parts(a: Seq<Interface>)
    requires
        a.len() > 0,
        forall|i: int|
            0 <= i < a.len() ==> !((#[trigger] a[i]).name@ + seq!['='] + ip_text(a[i].ip)).contains(
                '|',
            ),
    ensures
        crate::text::pieces(network_fingerprint(a), '|') == sorted_texts(interface_texts(a)),
{
    broadcast use vstd::seq_lib::group_to_multiset_ensures;

    reveal_strlit("|");
    assert("|"@ =~= seq!['|']);
    let x = interface_texts(a);
    let s = sorted_texts(x);
    crate::order::sorting_keeps_the_texts(x);
    assert(s.len() == x.len()) by {
        assert(s.to_multiset().len() == s.len());
        assert(x.to_multiset().len() == x.len());
    }
    assert forall|i: int| 0 <= i < s.len() implies !(#[trigger] s[i]).contains('|') by {
        assert(s.contains(s[i]));
        assert(s.to_multiset().count(s[i]) > 0);
        assert(x.to_multiset().count(s[i]) > 0);
        assert(x.contains(s[i]));
        let k = choose|k: int| 0 <= k < x.len() && x[k] == s[i];
        assert(x[k] == a[k].name@ + seq!['='] + ip_text(a[k].ip));
    }
    crate::text::joined_parts_are_the_pieces(s, '|');
}

/// The text of an address is the address, of either version.
pub proof fn address_text_is_the_address(v4: String, v6: String)
    ensures
        ip_text(IpText::V4(v4)) == v4@,
        ip_text(IpText::V6(v6)) == v6@,
{
}


/// Others are told, `r`, the addresses of all interfaces but those that only this device
/// can reach, in order and with the port.
pub proof fn others_are_told_the_addresses(
    ifaces: &[Interface],
    port: u16,
    r: Vec<LanCandidate>,
    i: int,
    e: String,
)
    requires
        call_ensures(local_candidates, (ifaces, port), r),
        0 <= i < r@.len() ==> call_ensures(LanCandidate::endpoint, (&r@[i],), e),
    ensures
        ({
            let open = ifaces@.filter(|f: Interface| !f.loopback);
            &&& r@.len() == open.len()
            &&& 0 <= i < r@.len() ==> r@[i].port == port && e@ == endpoint_text(open[i].ip, port)
        }),
{
    all_reachable_interfaces_are_told(ifaces@, port);
    let told = r@.map_values(|c: LanCandidate| endpoint_text(c.ip, c.port));
    assert(told.len() == r@.len());
    if 0 <= i < r@.len() {
        assert(told[i] == endpoint_text(r@[i].ip, r@[i].port));
    }
}

/// The network has changed just if its fingerprint has: a new, a lost or a renumbered
/// interface is noticed, and another order is not.
pub proof fn changes_of_the_network_are_noticed(
    a: &[Interface],
    b: &[Interface],
    x: String,
    y: String,
    last: &str,
    now: &str,
    r: bool,
)
    requires
        call_ensures(fingerprint, (a,), x),
        call_ensures(fingerprint, (b,), y),
        last@ == x@,
        now@ == y@,
        call_ensures(network_changed, (last, now), r),
        a@.len() > 0,
        b@.len() > 0,
        forall|i: int|
            0 <= i < a@.len() ==> !((#[trigger] a@[i]).name@ + seq!['='] + ip_text(
                a@[i].ip,
            )).contains('|'),
        forall|i: int|
            0 <= i < b@.len() ==> !((#[trigger] b@[i]).name@ + seq!['='] + ip_text(
                b@[i].ip,
            )).contains('|'),
    ensures
        !r <==> a@.map_values(|i: Interface| i.name@ + seq!['='] + ip_text(i.ip)).to_multiset()
            == b@.map_values(|i: Interface| i.name@ + seq!['='] + ip_text(i.ip)).to_multiset(),
{
    assert(interface_texts(a@) =~= a@.map_values(
        |i: Interface| i.name@ + seq!['='] + ip_text(i.ip),
    ));
    assert(interface_texts(b@) =~= b@.map_values(
        |i: Interface| i.name@ + seq!['='] + ip_text(i.ip),
    ));
    if !r {
        fingerprint_tells_networks_apart(a@, b@);
    }
    if interface_texts(a@).to_multiset() == interface_texts(b@).to_multiset() {
        fingerprint_ignores_order(a@, b@);
    }
}


} // verus!
