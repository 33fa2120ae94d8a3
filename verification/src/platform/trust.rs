//! The devices that this device trusts, and by which certificates.

use vstd::prelude::*;

use crate::content::DeviceId;
use crate::sync::lan::{fingerprint_value, parse_fp};
use crate::text::same_bytes;

verus! {

/// A trusted device and the fingerprint of its certificate.
#[derive(Debug)]
pub struct TrustedPeer {
    pub device_id: DeviceId,
    pub fingerprint_hex: String,
    pub name: String,
}

/// The trusted devices.
#[derive(Debug)]
pub struct TrustStore {
    pub peers: Vec<TrustedPeer>,
}

/// Whether a device is among some.
pub open spec fn knows(peers: Seq<TrustedPeer>, id: DeviceId) -> bool {
    exists|i: int| 0 <= i < peers.len() && (#[trigger] peers[i]).device_id == id
}

/// Whether a device is trusted with a certificate.
pub open spec fn trusts(peers: Seq<TrustedPeer>, id: DeviceId, fingerprint: Seq<u8>) -> bool {
    exists|i: int|
        0 <= i < peers.len() && (#[trigger] peers[i]).device_id == id && fingerprint_value(
            peers[i].fingerprint_hex@,
        ) == Some(fingerprint)
}

/// Whether a certificate is that of a trusted device.
pub open spec fn trusts_fingerprint(peers: Seq<TrustedPeer>, fingerprint: Seq<u8>) -> bool {
    exists|i: int|
        0 <= i < peers.len() && fingerprint_value((#[trigger] peers[i]).fingerprint_hex@) == Some(
            fingerprint,
        )
}

/// The fingerprints of trusted devices that can be read, in order.
pub open spec fn readable_fingerprints(peers: Seq<TrustedPeer>) -> Seq<Seq<u8>>
    decreases peers.len(),
{
    if peers.len() == 0 {
        Seq::empty()
    } else {
        let before = readable_fingerprints(peers.drop_last());
        match fingerprint_value(peers.last().fingerprint_hex@) {
            Some(fp) => before.push(fp),
            None => before,
        }
    }
}

/// Where a device first stands among some.
pub open spec fn first_place(peers: Seq<TrustedPeer>, id: DeviceId, from: int) -> Option<int>
    decreases peers.len() - from,
{
    if from < 0 || from >= peers.len() {
        None
    } else if peers[from].device_id == id {
        Some(from)
    } else {
        first_place(peers, id, from + 1)
    }
}

/// The trusted devices after a device was added: it takes the place it had, or
/// comes last.
pub open spec fn with_peer(peers: Seq<TrustedPeer>, peer: TrustedPeer) -> Seq<TrustedPeer> {
    match first_place(peers, peer.device_id, 0) {
        Some(i) => peers.update(i, peer),
        None => peers.push(peer),
    }
}

/// The trusted devices without one.
pub open spec fn without_peer(peers: Seq<TrustedPeer>, id: DeviceId) -> Seq<TrustedPeer>
    decreases peers.len(),
{
    if peers.len() == 0 {
        Seq::empty()
    } else if peers.last().device_id == id {
        without_peer(peers.drop_last(), id)
    } else {
        without_peer(peers.drop_last(), id).push(peers.last())
    }
}

impl TrustStore {
    /// The trusted devices as they were kept.
    pub fn load(peers: Vec<TrustedPeer>) -> (r: TrustStore)
        ensures
            r.peers == peers,
    {
        TrustStore { peers }
    }

    /// The trusted devices.
    pub fn peers(&self) -> (r: &[TrustedPeer])
        ensures
            r@ == self.peers@,
    {
        self.peers.as_slice()
    }

    /// The fingerprints of the trusted devices that can be read.
    pub fn fingerprints(&self) -> (r: Vec<[u8; 32]>)
        ensures
            r@.map_values(|a: [u8; 32]| a@) == readable_fingerprints(self.peers@),
    {
        let mut out: Vec<[u8; 32]> = Vec::new();
        let mut i: usize = 0;
        assert(self.peers@.take(0).len() == 0);
        assert(out@.map_values(|a: [u8; 32]| a@) =~= readable_fingerprints(self.peers@.take(0)));
        while i < self.peers.len()
            invariant
                i <= self.peers@.len(),
                out@.map_values(|a: [u8; 32]| a@) == readable_fingerprints(
                    self.peers@.take(i as int),
                ),
            decreases self.peers@.len() - i,
        {
            let ghost before = out@.map_values(|a: [u8; 32]| a@);
            proof {
                assert(self.peers@.take(i + 1).drop_last() =~= self.peers@.take(i as int));
                assert(self.peers@.take(i + 1).last() == self.peers@[i as int]);
            }
            if let Some(fp) = parse_fp(self.peers[i].fingerprint_hex.as_str()) {
                out.push(fp);
                assert(out@.map_values(|a: [u8; 32]| a@) =~= before.push(fp@));
            }
            i += 1;
        }
        assert(self.peers@.take(i as int) =~= self.peers@);
        out
    }

    /// Whether a device is trusted with whatever certificate.
    pub fn contains_device(&self, device_id: DeviceId) -> (r: bool)
        ensures
            r == knows(self.peers@, device_id),
    {
        let mut i: usize = 0;
        while i < self.peers.len()
            invariant
                i <= self.peers@.len(),
                forall|j: int| 0 <= j < i ==> (#[trigger] self.peers@[j]).device_id != device_id,
            decreases self.peers@.len() - i,
        {
            if self.peers[i].device_id == device_id {
                assert(self.peers@[i as int].device_id == device_id);
                return true;
            }
            i += 1;
        }
        false
    }

    /// Whether a device is trusted with a certificate.
    pub fn is_trusted(&self, device_id: DeviceId, fingerprint: &[u8; 32]) -> (r: bool)
        ensures
            r == trusts(self.peers@, device_id, fingerprint@),
    {
        let mut i: usize = 0;
        while i < self.peers.len()
            invariant
                i <= self.peers@.len(),
                forall|j: int|
                    0 <= j < i ==> !((#[trigger] self.peers@[j]).device_id == device_id
                        && fingerprint_value(self.peers@[j].fingerprint_hex@) == Some(
                        fingerprint@,
                    )),
            decreases self.peers@.len() - i,
        {
            if self.peers[i].device_id == device_id {
                if let Some(fp) = parse_fp(self.peers[i].fingerprint_hex.as_str()) {
                    if same_bytes(fp.as_slice(), fingerprint.as_slice()) {
                        assert(self.peers@[i as int].device_id == device_id);
                        return true;
                    }
                }
            }
            i += 1;
        }
        false
    }

    /// Whether a certificate is that of a trusted device.
    pub fn is_trusted_fp(&self, fingerprint: &[u8; 32]) -> (r: bool)
        ensures
            r == trusts_fingerprint(self.peers@, fingerprint@),
    {
        let mut i: usize = 0;
        while i < self.peers.len()
            invariant
                i <= self.peers@.len(),
                forall|j: int|
                    0 <= j < i ==> fingerprint_value((#[trigger] self.peers@[j]).fingerprint_hex@)
                        != Some(fingerprint@),
            decreases self.peers@.len() - i,
        {
            if let Some(fp) = parse_fp(self.peers[i].fingerprint_hex.as_str()) {
                if same_bytes(fp.as_slice(), fingerprint.as_slice()) {
                    assert(fingerprint_value(self.peers@[i as int].fingerprint_hex@) == Some(
                        fingerprint@,
                    ));
                    return true;
                }
            }
            i += 1;
        }
        false
    }

    /// Trusts a device with a certificate. A device that is known already gets
    /// the new certificate and name.
    pub fn add(&mut self, device_id: DeviceId, fingerprint_hex: String, name: String)
        ensures
            final(self).peers@ == with_peer(
                old(self).peers@,
                TrustedPeer { device_id, fingerprint_hex, name },
            ),
    {
        let peer = TrustedPeer { device_id, fingerprint_hex, name };
        let mut i: usize = 0;
        while i < self.peers.len()
            invariant
                i <= self.peers@.len(),
                self.peers@ == old(self).peers@,
                peer == (TrustedPeer { device_id, fingerprint_hex, name }),
                first_place(self.peers@, device_id, 0) == first_place(
                    self.peers@,
                    device_id,
                    i as int,
                ),
            decreases self.peers@.len() - i,
        {
            if self.peers[i].device_id == device_id {
                self.peers.set(i, peer);
                return ;
            }
            i += 1;
        }
        self.peers.push(peer);
    }

    /// Trusts a device no longer. Tells whether it was trusted.
    pub fn remove(&mut self, device_id: DeviceId) -> (r: bool)
        ensures
            final(self).peers@ == without_peer(old(self).peers@, device_id),
            r == knows(old(self).peers@, device_id),
    {
        let ghost all = self.peers@;
        let known = self.contains_device(device_id);
        let mut i: usize = 0;
        let mut seen: usize = 0;
        let n: usize = self.peers.len();
        assert(all.take(0).len() == 0);
        assert(all =~= without_peer(all.take(0), device_id) + all.skip(0));
        while seen < n
            invariant
                i <= seen <= n == all.len(),
                i == without_peer(all.take(seen as int), device_id).len(),
                self.peers@ == without_peer(all.take(seen as int), device_id) + all.skip(
                    seen as int,
                ),
            decreases n - seen,
        {
            let ghost kept = without_peer(all.take(seen as int), device_id);
            proof {
                assert(all.take(seen + 1).drop_last() =~= all.take(seen as int));
                assert(all.take(seen + 1).last() == all[seen as int]);
                assert(self.peers@[i as int] == all[seen as int]);
            }
            if self.peers[i].device_id == device_id {
                let _ = self.peers.remove(i);
                assert(self.peers@ =~= kept + all.skip(seen + 1));
            } else {
                assert(self.peers@ =~= kept.push(all[seen as int]) + all.skip(seen + 1));
                i += 1;
            }
            seen += 1;
        }
        assert(all.take(n as int) =~= all);
        assert(self.peers@ =~= without_peer(all, device_id));
        known
    }
}

/// A device that was removed is not trusted with any certificate, and the trust
/// in other devices is as it was.
pub proof fn removal_ends_trust(
    peers: Seq<TrustedPeer>,
    id: DeviceId,
    other: DeviceId,
    fingerprint: Seq<u8>,
)
    ensures
        !knows(without_peer(peers, id), id),
        !trusts(without_peer(peers, id), id, fingerprint),
        other != id ==> trusts(without_peer(peers, id), other, fingerprint) == trusts(
            peers,
            other,
            fingerprint,
        ),
    decreases peers.len(),
{
    if peers.len() > 0 {
        let shorter = peers.drop_last();
        removal_ends_trust(shorter, id, other, fingerprint);
        let last = peers.len() - 1;
        let before = without_peer(shorter, id);
        let after = without_peer(peers, id);
        if peers.last().device_id != id {
            assert(after == before.push(peers.last()));
            assert forall|i: int| 0 <= i < after.len() implies (#[trigger] after[i]).device_id
                != id by {
                if i < before.len() {
                    assert(after[i] == before[i]);
                }
            }
        }
        if other != id {
            if trusts(after, other, fingerprint) {
                let i = choose|i: int|
                    0 <= i < after.len() && (#[trigger] after[i]).device_id == other
                        && fingerprint_value(after[i].fingerprint_hex@) == Some(fingerprint);
                if i < before.len() {
                    assert(before[i] == after[i]);
                    assert(trusts(before, other, fingerprint));
                    let k = choose|k: int|
                        0 <= k < shorter.len() && (#[trigger] shorter[k]).device_id == other
                            && fingerprint_value(shorter[k].fingerprint_hex@) == Some(fingerprint);
                    assert(peers[k] == shorter[k]);
                } else {
                    assert(peers[last].device_id == other);
                }
            }
            if trusts(peers, other, fingerprint) {
                let k = choose|k: int|
                    0 <= k < peers.len() && (#[trigger] peers[k]).device_id == other
                        && fingerprint_value(peers[k].fingerprint_hex@) == Some(fingerprint);
                if k < last {
                    assert(shorter[k] == peers[k]);
                    assert(trusts(before, other, fingerprint));
                    let i = choose|i: int|
                        0 <= i < before.len() && (#[trigger] before[i]).device_id == other
                            && fingerprint_value(before[i].fingerprint_hex@) == Some(fingerprint);
                    assert(after[i] == before[i]);
                } else {
                    assert(after[before.len() as int] == peers[last]);
                }
            }
        }
    }
}

/// A device that was added is trusted with its certificate, if that can be read,
/// and the trust in other devices is as it was.
pub proof fn addition_is_trusted(
    peers: Seq<TrustedPeer>,
    peer: TrustedPeer,
    other: DeviceId,
    fingerprint: Seq<u8>,
)
    ensures
        knows(with_peer(peers, peer), peer.device_id),
        fingerprint_value(peer.fingerprint_hex@) is Some ==> trusts(
            with_peer(peers, peer),
            peer.device_id,
            fingerprint_value(peer.fingerprint_hex@)->0,
        ),
        other != peer.device_id ==> trusts(with_peer(peers, peer), other, fingerprint) == trusts(
            peers,
            other,
            fingerprint,
        ),
{
    lemma_first_place(peers, peer.device_id, 0);
    let after = with_peer(peers, peer);
    let at = match first_place(peers, peer.device_id, 0) {
        Some(i) => i,
        None => peers.len() as int,
    };
    assert(after[at] == peer);
    if other != peer.device_id {
        if trusts(after, other, fingerprint) {
            let i = choose|i: int|
                0 <= i < after.len() && (#[trigger] after[i]).device_id == other
                    && fingerprint_value(after[i].fingerprint_hex@) == Some(fingerprint);
            assert(after[i] == peers[i]);
        }
        if trusts(peers, other, fingerprint) {
            let i = choose|i: int|
                0 <= i < peers.len() && (#[trigger] peers[i]).device_id == other
                    && fingerprint_value(peers[i].fingerprint_hex@) == Some(fingerprint);
            assert(after[i] == peers[i]);
        }
    }
}

/// A device is trusted with a certificate just if it is among the trusted devices
/// with a fingerprint that reads as that of the certificate, wherever it stands; a
/// certificate alone is trusted if it is that of any of them.
pub proof fn trust_is_by_entry(peers: Seq<TrustedPeer>, i: int, fingerprint: Seq<u8>)
    requires
        0 <= i < peers.len(),
    ensures
        fingerprint_value(peers[i].fingerprint_hex@) == Some(fingerprint) ==> trusts(
            peers,
            peers[i].device_id,
            fingerprint,
        ) && trusts_fingerprint(peers, fingerprint) && readable_fingerprints(peers).contains(
            fingerprint,
        ),
        knows(peers, peers[i].device_id),
        !(exists|j: int|
            0 <= j < peers.len() && (#[trigger] peers[j]).device_id == peers[i].device_id
                && fingerprint_value(peers[j].fingerprint_hex@) == Some(fingerprint)) ==> !trusts(
            peers,
            peers[i].device_id,
            fingerprint,
        ),
    decreases peers.len(),
{
    let last = peers.len() - 1;
    let all = readable_fingerprints(peers);
    let before = readable_fingerprints(peers.drop_last());
    if fingerprint_value(peers[i].fingerprint_hex@) == Some(fingerprint) {
        if i < last {
            assert(peers.drop_last()[i] == peers[i]);
            trust_is_by_entry(peers.drop_last(), i, fingerprint);
            let k = choose|k: int| 0 <= k < before.len() && before[k] == fingerprint;
            assert(all[k] == fingerprint);
        } else {
            assert(all[before.len() as int] == fingerprint);
        }
    }
}

/// Only the fingerprints of trusted devices are among the readable ones.
pub proof fn readable_fingerprints_are_of_peers(peers: Seq<TrustedPeer>, k: int)
    requires
        0 <= k < readable_fingerprints(peers).len(),
    ensures
        trusts_fingerprint(peers, readable_fingerprints(peers)[k]),
        exists|i: int|
            0 <= i < peers.len() && fingerprint_value((#[trigger] peers[i]).fingerprint_hex@)
                == Some(readable_fingerprints(peers)[k]),
    decreases peers.len(),
{
    let shorter = peers.drop_last();
    let before = readable_fingerprints(shorter);
    if k < before.len() {
        readable_fingerprints_are_of_peers(shorter, k);
        let i = choose|i: int|
            0 <= i < shorter.len() && fingerprint_value((#[trigger] shorter[i]).fingerprint_hex@)
                == Some(before[k]);
        assert(peers[i] == shorter[i]);
    } else {
        assert(peers[peers.len() - 1] == peers.last());
    }
}

/// Removing a device keeps every other one, in order.
pub proof fn removal_keeps_the_others(peers: Seq<TrustedPeer>, id: DeviceId)
    ensures
        without_peer(peers, id) == peers.filter(|p: TrustedPeer| p.device_id != id),
    decreases peers.len(),
{
    reveal(Seq::filter);
    if peers.len() > 0 {
        removal_keeps_the_others(peers.drop_last(), id);
    }
}

/// Adding a device leaves every other one where it stands, and the device itself
/// stands with its new certificate and name: in its place if it was known, behind
/// the others if not.
pub proof fn addition_keeps_the_others(peers: Seq<TrustedPeer>, peer: TrustedPeer)
    ensures
        ({
            let after = with_peer(peers, peer);
            &&& after.len() == (if knows(peers, peer.device_id) {
                peers.len()
            } else {
                peers.len() + 1
            })
            &&& after.contains(peer)
            &&& !knows(peers, peer.device_id) ==> after.last() == peer
            &&& forall|i: int|
                0 <= i < peers.len() && (#[trigger] peers[i]).device_id != peer.device_id
                    ==> after[i] == peers[i]
        }),
{
    lemma_first_place(peers, peer.device_id, 0);
    lemma_first_place_found(peers, peer.device_id, 0);
    let after = with_peer(peers, peer);
    match first_place(peers, peer.device_id, 0) {
        Some(i) => {
            assert(after[i] == peer);
        },
        None => {
            assert(after[peers.len() as int] == peer);
        },
    }
}

proof fn lemma_first_place_found(peers: Seq<TrustedPeer>, id: DeviceId, from: int)
    requires
        0 <= from,
    ensures
        first_place(peers, id, from) is None <==> forall|i: int|
            from <= i < peers.len() ==> (#[trigger] peers[i]).device_id != id,
    decreases peers.len() - from,
{
    if from < peers.len() && peers[from].device_id != id {
        lemma_first_place_found(peers, id, from + 1);
    }
}

pub proof fn lemma_first_place(peers: Seq<TrustedPeer>, id: DeviceId, from: int)
    requires
        0 <= from,
    ensures
        first_place(peers, id, from) matches Some(i) ==> from <= i < peers.len()
            && peers[i].device_id == id,
    decreases peers.len() - from,
{
    if from < peers.len() && peers[from].device_id != id {
        lemma_first_place(peers, id, from + 1);
    }
}

/// A device that was trusted with a certificate is found trusted with it, and other
/// devices are as they were.
pub proof fn trust_is_given(
    store: &mut TrustStore,
    id: DeviceId,
    hex: String,
    name: String,
    added: (),
    fingerprint: [u8; 32],
    trusted: bool,
    known: bool,
    by_fp: bool,
    other: DeviceId,
    before: bool,
    after: bool,
)
    requires
        call_ensures(TrustStore::add, (store, id, hex, name), added),
        fingerprint_value(hex@) == Some(fingerprint@),
        call_ensures(TrustStore::is_trusted, (&*final(store), id, &fingerprint), trusted),
        call_ensures(TrustStore::contains_device, (&*final(store), id), known),
        call_ensures(TrustStore::is_trusted_fp, (&*final(store), &fingerprint), by_fp),
        other != id,
        call_ensures(TrustStore::is_trusted, (&*old(store), other, &fingerprint), before),
        call_ensures(TrustStore::is_trusted, (&*final(store), other, &fingerprint), after),
    ensures
        trusted && known && by_fp,
        before == after,
{
    let peer = TrustedPeer { device_id: id, fingerprint_hex: hex, name };
    addition_is_trusted(old(store).peers@, peer, other, fingerprint@);
    let ps = final(store).peers@;
    let i = choose|i: int|
        0 <= i < ps.len() && (#[trigger] ps[i]).device_id == id && fingerprint_value(
            ps[i].fingerprint_hex@,
        ) == Some(fingerprint@);
    assert(fingerprint_value(ps[i].fingerprint_hex@) == Some(fingerprint@));
}

/// A device that was removed is trusted no more, and the others are as they were.
pub proof fn trust_is_taken(
    store: &mut TrustStore,
    id: DeviceId,
    removed: bool,
    fingerprint: [u8; 32],
    trusted: bool,
    known: bool,
    other: DeviceId,
    before: bool,
    after: bool,
)
    requires
        call_ensures(TrustStore::remove, (store, id), removed),
        call_ensures(TrustStore::is_trusted, (&*final(store), id, &fingerprint), trusted),
        call_ensures(TrustStore::contains_device, (&*final(store), id), known),
        other != id,
        call_ensures(TrustStore::is_trusted, (&*old(store), other, &fingerprint), before),
        call_ensures(TrustStore::is_trusted, (&*final(store), other, &fingerprint), after),
    ensures
        removed <==> exists|i: int|
            0 <= i < old(store).peers@.len() && (#[trigger] old(store).peers@[i]).device_id == id,
        !trusted && !known,
        before == after,
{
    removal_ends_trust(old(store).peers@, id, other, fingerprint@);
    removal_ends_trust(old(store).peers@, id, id, fingerprint@);
}

/// The devices that are kept are loaded and listed, all of them.
pub proof fn kept_devices_are_listed(peers: Vec<TrustedPeer>, store: TrustStore, r: &[TrustedPeer])
    requires
        call_ensures(TrustStore::load, (peers,), store),
        call_ensures(TrustStore::peers, (&store,), r),
    ensures
        r@ == peers@,
{
}


} // verus!
