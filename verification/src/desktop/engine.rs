//! The engine that keeps devices in step: what each event asks for, what
//! becomes of each event in the queue, and whom to trust and send to.

use vstd::prelude::*;

use crate::content::{flags_allow_remote, ContentId, ContentItem, ContentStatus, DeviceId};
use crate::hexcodec;
use crate::platform::trust::{
    knows, trusts, with_peer, without_peer, TrustStore, TrustedPeer,
};
use crate::plugin::grant::{read_grant, ContentReadGrant, PermissionBroker};
use crate::storage::outbox::OutboxEvent;
use crate::sync::hub_client::DeviceDto;
use crate::sync::lan::{fingerprint_value, instance_text, parse_fp, short_id, DiscoveredPeer};
use crate::sync::protocol::{Envelope, MessageBody};
use crate::text::{contains_text, texts};

verus! {

/// How long a delivery waits after an item could not be read, in milliseconds.
pub const READ_RETRY_MS: i64 = 5000;

/// How long a delivery waits after the hub could not be told, in milliseconds.
pub const HUB_RETRY_MS: i64 = 8000;

/// What wakes the engine.
#[derive(Clone, Copy, Debug, PartialEq, Eq, Structural)]
pub enum EngineEvent {
    /// Another key for the account.
    ReplaceVault,
    /// An item was removed here.
    DeleteRemote,
    /// An item was added here.
    DrainOutbox,
    /// The settings or the trust have changed.
    Reload,
    /// The network has changed.
    NetworkChanged,
    /// Some seconds have passed.
    Tick,
    /// An hour has passed.
    Maintenance,
    /// Nobody needs the engine any more.
    Closed,
}

/// What the engine does.
#[derive(Clone, Copy, Debug, PartialEq, Eq, Structural)]
pub enum EngineStep {
    UseNewVault,
    ConsumeOutbox,
    FlushDeletes,
    RefreshTrust,
    ExchangeCandidates,
    BackfillUnsynced,
    PullHub,
    CollectBlobs,
    CollectOutbox,
    SweepOrphans,
    EvictCache,
    Stop,
}

/// What the engine does when it is woken, in order.
pub open spec fn steps_for(event: EngineEvent) -> Seq<EngineStep> {
    match event {
        EngineEvent::ReplaceVault => seq![EngineStep::UseNewVault],
        EngineEvent::DeleteRemote => seq![EngineStep::FlushDeletes],
        EngineEvent::DrainOutbox => seq![EngineStep::ConsumeOutbox],
        EngineEvent::Reload => seq![
            EngineStep::ConsumeOutbox,
            EngineStep::FlushDeletes,
            EngineStep::RefreshTrust,
            EngineStep::ExchangeCandidates,
            EngineStep::BackfillUnsynced,
            EngineStep::ConsumeOutbox,
            EngineStep::PullHub,
        ],
        EngineEvent::NetworkChanged => seq![EngineStep::ExchangeCandidates],
        EngineEvent::Tick => seq![
            EngineStep::ConsumeOutbox,
            EngineStep::RefreshTrust,
            EngineStep::ExchangeCandidates,
            EngineStep::FlushDeletes,
            EngineStep::PullHub,
        ],
        EngineEvent::Maintenance => seq![
            EngineStep::CollectBlobs,
            EngineStep::CollectOutbox,
            EngineStep::SweepOrphans,
            EngineStep::EvictCache,
        ],
        EngineEvent::Closed => seq![EngineStep::Stop],
    }
}

/// What the engine does when it is woken, in order.
pub fn run_loop_steps(event: EngineEvent) -> (r: Vec<EngineStep>)
    ensures
        r@ == steps_for(event),
{
    let out: Vec<EngineStep> = match event {
        EngineEvent::ReplaceVault => vec![EngineStep::UseNewVault],
        EngineEvent::DeleteRemote => vec![EngineStep::FlushDeletes],
        EngineEvent::DrainOutbox => vec![EngineStep::ConsumeOutbox],
        EngineEvent::Reload => vec![
            EngineStep::ConsumeOutbox,
            EngineStep::FlushDeletes,
            EngineStep::RefreshTrust,
            EngineStep::ExchangeCandidates,
            EngineStep::BackfillUnsynced,
            EngineStep::ConsumeOutbox,
            EngineStep::PullHub,
        ],
        EngineEvent::NetworkChanged => vec![EngineStep::ExchangeCandidates],
        EngineEvent::Tick => vec![
            EngineStep::ConsumeOutbox,
            EngineStep::RefreshTrust,
            EngineStep::ExchangeCandidates,
            EngineStep::FlushDeletes,
            EngineStep::PullHub,
        ],
        EngineEvent::Maintenance => vec![
            EngineStep::CollectBlobs,
            EngineStep::CollectOutbox,
            EngineStep::SweepOrphans,
            EngineStep::EvictCache,
        ],
        EngineEvent::Closed => vec![EngineStep::Stop],
    };
    assert(out@ =~= steps_for(event));
    out
}

/// When some seconds have passed, the settings have changed or the program starts,
/// the queue is looked at first, the hub is asked for new items last, and in between
/// removals are told and the trust is brought up to date. Each hour blobs, events,
/// orphans and the cache are cleaned up. The engine stops only when nobody needs it.
pub proof fn engine_does_what_is_due(event: EngineEvent)
    ensures
        event is Tick || event is Reload ==> {
            &&& steps_for(event).first() == EngineStep::ConsumeOutbox
            &&& steps_for(event).last() == EngineStep::PullHub
            &&& steps_for(event).contains(EngineStep::FlushDeletes)
            &&& steps_for(event).contains(EngineStep::RefreshTrust)
            &&& steps_for(event).contains(EngineStep::ExchangeCandidates)
        },
        event is Reload ==> exists|i: int|
            0 < i < steps_for(event).len() - 1 && #[trigger] steps_for(event)[i]
                == EngineStep::BackfillUnsynced && steps_for(event)[i + 1]
                == EngineStep::ConsumeOutbox,
        event is Maintenance ==> {
            &&& steps_for(event).contains(EngineStep::CollectBlobs)
            &&& steps_for(event).contains(EngineStep::CollectOutbox)
            &&& steps_for(event).contains(EngineStep::SweepOrphans)
            &&& steps_for(event).contains(EngineStep::EvictCache)
        },
        event is DrainOutbox ==> steps_for(event).contains(EngineStep::ConsumeOutbox),
        event is DeleteRemote ==> steps_for(event).contains(EngineStep::FlushDeletes),
        event is NetworkChanged ==> steps_for(event).contains(EngineStep::ExchangeCandidates),
        event is ReplaceVault ==> steps_for(event).contains(EngineStep::UseNewVault),
        steps_for(event).contains(EngineStep::Stop) <==> event is Closed,
        steps_for(event).contains(EngineStep::EvictCache) ==> event is Maintenance,
        steps_for(event).contains(EngineStep::UseNewVault) ==> event is ReplaceVault,
{
    let s = steps_for(event);
    match event {
        EngineEvent::Reload => {
            assert(s[1] == EngineStep::FlushDeletes && s[2] == EngineStep::RefreshTrust);
            assert(s[3] == EngineStep::ExchangeCandidates && s[4] == EngineStep::BackfillUnsynced);
        },
        EngineEvent::Tick => {
            assert(s[1] == EngineStep::RefreshTrust && s[2] == EngineStep::ExchangeCandidates);
            assert(s[3] == EngineStep::FlushDeletes);
        },
        EngineEvent::Maintenance => {
            assert(s[0] == EngineStep::CollectBlobs && s[1] == EngineStep::CollectOutbox);
            assert(s[2] == EngineStep::SweepOrphans && s[3] == EngineStep::EvictCache);
        },
        _ => {
            assert(s.len() == 1);
            assert(s[0] == s[0]);
        },
    }
}

/// A device near by is shown under its own identity, with all its addresses and its
/// port, and as trusted just if it told a certificate with which it is trusted.
pub proof fn peers_are_shown_truly(
    d: LanPeerDto,
    peer: DiscoveredPeer,
    id: String,
    peers: Seq<TrustedPeer>,
)
    requires
        shown_as(d, peer, id, peers),
    ensures
        d.device_id@ == id@,
        d.addresses@ == peer.addresses@,
        d.port == peer.port,
        peer.fingerprint is Some ==> fingerprint_value(d.fingerprint@) == Some(
            peer.fingerprint->0@,
        ),
        peer.fingerprint is None ==> d.fingerprint@.len() == 0 && !d.is_trusted,
        d.is_trusted <==> peer.fingerprint is Some && exists|i: int|
            0 <= i < peers.len() && (#[trigger] peers[i]).device_id == peer.device_id
                && fingerprint_value(peers[i].fingerprint_hex@) == Some(peer.fingerprint->0@),
{
    if let Some(fp) = peer.fingerprint {
        hexcodec::decode_restores_encode(fp@);
    }
}

/// The item that an event in the queue is about, as far as it could be read.
pub enum ItemLookup<'a> {
    Found(&'a ContentItem),
    Missing,
    Failed,
}

/// What becomes of an event for the local network.
#[derive(Clone, Copy, Debug, PartialEq, Eq, Structural)]
pub enum LanStep {
    /// It is dealt with.
    Ack,
    /// It waits, for milliseconds.
    Retry(i64),
    /// The item is sent to the devices near by, and then it is dealt with.
    PushThenAck,
}

/// What becomes of an event for the local network.
pub open spec fn lan_outcome(event: OutboxEvent, item: ItemLookup, auto_sync: bool) -> LanStep {
    if event.payload.from_remote {
        LanStep::Ack
    } else {
        match item {
            ItemLookup::Missing => LanStep::Ack,
            ItemLookup::Failed => LanStep::Retry(READ_RETRY_MS),
            ItemLookup::Found(i) => if flags_allow_remote(i.flags) && auto_sync {
                LanStep::PushThenAck
            } else {
                LanStep::Ack
            },
        }
    }
}

/// What becomes of an event for the local network: what came from elsewhere or
/// is gone is not sent, and neither is what may not leave.
pub fn consume_lan_outbox(event: &OutboxEvent, item: &ItemLookup, auto_sync: bool) -> (r: LanStep)
    ensures
        r == lan_outcome(*event, *item, auto_sync),
{
    if event.payload.from_remote {
        return LanStep::Ack;
    }
    match item {
        ItemLookup::Missing => LanStep::Ack,
        ItemLookup::Failed => LanStep::Retry(READ_RETRY_MS),
        ItemLookup::Found(i) => if i.may_sync_remote() && auto_sync {
            LanStep::PushThenAck
        } else {
            LanStep::Ack
        },
    }
}

/// What becomes of an event for the hub.
#[derive(Clone, Copy, Debug, PartialEq, Eq, Structural)]
pub enum HubStep {
    /// It is dealt with.
    Ack,
    /// It stays as it is.
    Leave,
    /// It waits, for milliseconds.
    Retry(i64),
    /// The item is published.
    Publish,
}

/// What becomes of an event for the hub.
pub open spec fn hub_outcome(
    event: OutboxEvent,
    item: ItemLookup,
    has_hub: bool,
    hub_ready: bool,
) -> HubStep {
    if event.payload.from_remote {
        HubStep::Ack
    } else if !has_hub {
        HubStep::Leave
    } else {
        match item {
            ItemLookup::Missing => HubStep::Ack,
            ItemLookup::Failed => HubStep::Retry(READ_RETRY_MS),
            ItemLookup::Found(i) => if !flags_allow_remote(i.flags) {
                HubStep::Ack
            } else if !hub_ready {
                HubStep::Retry(HUB_RETRY_MS)
            } else {
                HubStep::Publish
            },
        }
    }
}

/// What becomes of an event for the hub. Without a hub it stays as it is, so
/// that a hub that is set later is told.
pub fn consume_hub_outbox(
    event: &OutboxEvent,
    item: &ItemLookup,
    has_hub: bool,
    hub_ready: bool,
) -> (r: HubStep)
    ensures
        r == hub_outcome(*event, *item, has_hub, hub_ready),
{
    if event.payload.from_remote {
        return HubStep::Ack;
    }
    if !has_hub {
        return HubStep::Leave;
    }
    match item {
        ItemLookup::Missing => HubStep::Ack,
        ItemLookup::Failed => HubStep::Retry(READ_RETRY_MS),
        ItemLookup::Found(i) => if !i.may_sync_remote() {
            HubStep::Ack
        } else if !hub_ready {
            HubStep::Retry(HUB_RETRY_MS)
        } else {
            HubStep::Publish
        },
    }
}

/// What becomes of an event for the hub after its item was published or not.
pub fn after_publish(published: bool) -> (r: HubStep)
    ensures
        r == (if published {
            HubStep::Ack
        } else {
            HubStep::Retry(HUB_RETRY_MS)
        }),
{
    if published {
        HubStep::Ack
    } else {
        HubStep::Retry(HUB_RETRY_MS)
    }
}

/// An item that may not leave this device is neither sent to devices near by
/// nor published, whatever the settings are.
pub proof fn private_items_stay(
    item: ContentItem,
    event: OutboxEvent,
    auto_sync: bool,
    has_hub: bool,
    hub_ready: bool,
)
    requires
        !flags_allow_remote(item.flags),
    ensures
        lan_outcome(event, ItemLookup::Found(&item), auto_sync) == LanStep::Ack,
        hub_outcome(event, ItemLookup::Found(&item), has_hub, hub_ready) != HubStep::Publish,
{
}

/// What becomes of the event of an item that was added here and is found, of whatever
/// kind and with whatever contents. If its marks let it leave, it is sent to the
/// devices near by whenever synchronisation is on, and published whenever the hub can
/// be used; with a hub that cannot be used yet it waits, and without a hub it stays.
pub proof fn added_items_are_passed_on(
    item: ContentItem,
    event: OutboxEvent,
    auto_sync: bool,
    has_hub: bool,
    hub_ready: bool,
)
    requires
        !event.payload.from_remote,
    ensures
        ({
            let leaves = item.flags.remote_allowed && !item.flags.sensitive && !item.flags.local_only
                && !item.flags.transient;
            let lan = lan_outcome(event, ItemLookup::Found(&item), auto_sync);
            let hub = hub_outcome(event, ItemLookup::Found(&item), has_hub, hub_ready);
            &&& lan == LanStep::PushThenAck <==> leaves && auto_sync
            &&& lan == LanStep::Ack <==> !(leaves && auto_sync)
            &&& hub == HubStep::Leave <==> !has_hub
            &&& hub == HubStep::Publish <==> has_hub && leaves && hub_ready
            &&& hub == HubStep::Retry(8000) <==> has_hub && leaves && !hub_ready
            &&& hub == HubStep::Ack <==> has_hub && !leaves
        }),
{
}

/// What becomes of the event of an item that was added here and is not found: it is
/// dealt with if the item is gone, and is looked at again if it could not be read.
pub proof fn unfound_items_are_not_passed_on(
    event: OutboxEvent,
    auto_sync: bool,
    has_hub: bool,
    hub_ready: bool,
)
    requires
        !event.payload.from_remote,
    ensures
        lan_outcome(event, ItemLookup::Missing, auto_sync) == LanStep::Ack,
        lan_outcome(event, ItemLookup::Failed, auto_sync) == LanStep::Retry(5000),
        has_hub ==> hub_outcome(event, ItemLookup::Missing, has_hub, hub_ready) == HubStep::Ack,
        has_hub ==> hub_outcome(event, ItemLookup::Failed, has_hub, hub_ready) == HubStep::Retry(
            5000,
        ),
        !has_hub ==> hub_outcome(event, ItemLookup::Missing, has_hub, hub_ready) == HubStep::Leave
            && hub_outcome(event, ItemLookup::Failed, has_hub, hub_ready) == HubStep::Leave,
{
}

/// What came from another device is not passed on.
pub proof fn received_items_are_not_passed_on(
    event: OutboxEvent,
    item: ItemLookup,
    auto_sync: bool,
    has_hub: bool,
    hub_ready: bool,
)
    requires
        event.payload.from_remote,
    ensures
        lan_outcome(event, item, auto_sync) == LanStep::Ack,
        hub_outcome(event, item, has_hub, hub_ready) == HubStep::Ack,
{
}

/// How publishing an item ended.
#[derive(Clone, Copy, Debug, PartialEq, Eq, Structural)]
pub enum PublishResult {
    Published,
    /// The hub could not be used after all.
    NotReady,
    Failed,
}

/// The status of an item after it was published or not.
pub fn publish_one_status(result: PublishResult) -> (r: ContentStatus)
    ensures
        r == (match result {
            PublishResult::Published => ContentStatus::SyncedToHub,
            PublishResult::NotReady => ContentStatus::Local,
            PublishResult::Failed => ContentStatus::Failed,
        }),
{
    match result {
        PublishResult::Published => ContentStatus::SyncedToHub,
        PublishResult::NotReady => ContentStatus::Local,
        PublishResult::Failed => ContentStatus::Failed,
    }
}

/// Whether an item from a device near by is taken: the device must be trusted
/// with the certificate that it showed.
pub fn accepts_lan_item(trust: &TrustStore, from: DeviceId, shown: Option<[u8; 32]>) -> (r: bool)
    ensures
        r == (shown is Some && trusts(trust.peers@, from, shown->0@)),
{
    match shown {
        Some(fp) => trust.is_trusted(from, &fp),
        None => false,
    }
}

/// The certificate with which an item may be sent to a device: the device must
/// have told one, and be trusted with it.
pub fn push_lan_target(trust: &TrustStore, peer: &DiscoveredPeer) -> (r: Option<[u8; 32]>)
    ensures
        match peer.fingerprint {
            Some(fp) => if trusts(trust.peers@, peer.device_id, fp@) {
                r == Some(fp)
            } else {
                r is None
            },
            None => r is None,
        },
{
    match peer.fingerprint {
        Some(fp) => if trust.is_trusted(peer.device_id, &fp) {
            Some(fp)
        } else {
            None
        },
        None => None,
    }
}

/// The address to try next after the first `tried`: none once an item went
/// through or all were tried.
pub fn push_lan_next(addresses: usize, tried: usize, sent: bool) -> (r: Option<usize>)
    ensures
        r == (if sent || tried >= addresses {
            None
        } else {
            Some(tried)
        }),
{
    if sent || tried >= addresses {
        None
    } else {
        Some(tried)
    }
}

/// What a device at the hub does to the trust of this device.
pub open spec fn after_device(peers: Seq<TrustedPeer>, d: DeviceDto, own: DeviceId) -> Seq<
    TrustedPeer,
> {
    if d.id == own {
        peers
    } else if d.revoked {
        without_peer(peers, d.id)
    } else {
        match d.cert_fingerprint {
            Some(fp) => with_peer(
                peers,
                TrustedPeer { device_id: d.id, fingerprint_hex: fp, name: d.name },
            ),
            None => peers,
        }
    }
}

/// What the devices at the hub do to the trust of this device, one after the
/// other.
pub open spec fn after_devices(peers: Seq<TrustedPeer>, ds: Seq<DeviceDto>, own: DeviceId) -> Seq<
    TrustedPeer,
>
    decreases ds.len(),
{
    if ds.len() == 0 {
        peers
    } else {
        after_devices(after_device(peers, ds[0], own), ds.skip(1), own)
    }
}

/// Brings the trust of this device up to what the hub says: revoked devices are
/// dropped, others are trusted with the certificates they told. This device
/// itself is passed over.
pub fn refresh_trust(trust: &mut TrustStore, devices: Vec<DeviceDto>, own: DeviceId)
    ensures
        final(trust).peers@ == after_devices(old(trust).peers@, devices@, own),
{
    let ghost all = devices@;
    let mut rest = devices;
    while rest.len() > 0
        invariant
            after_devices(trust.peers@, rest@, own) == after_devices(
                old(trust).peers@,
                devices@,
                own,
            ),
        decreases rest@.len(),
    {
        let ghost before = rest@;
        let ghost peers = trust.peers@;
        let d = rest.remove(0);
        assert(rest@ =~= before.skip(1));
        assert(d == before[0]);
        if d.id != own {
            if d.revoked {
                let _ = trust.remove(d.id);
            } else if let Some(fp) = d.cert_fingerprint {
                trust.add(d.id, fp, d.name);
            }
        }
    }
}

/// Whether every word of the hub about a device is that it is revoked.
pub open spec fn only_revoked(ds: Seq<DeviceDto>, id: DeviceId) -> bool {
    forall|i: int| 0 <= i < ds.len() && (#[trigger] ds[i]).id == id ==> ds[i].revoked
}

/// A device that the hub says is revoked is not trusted afterwards.
pub proof fn revoked_device_is_dropped(
    peers: Seq<TrustedPeer>,
    ds: Seq<DeviceDto>,
    own: DeviceId,
    k: int,
)
    requires
        0 <= k < ds.len(),
        ds[k].id != own,
        only_revoked(ds, ds[k].id),
    ensures
        !knows(after_devices(peers, ds, own), ds[k].id),
    decreases ds.len(),
{
    let id = ds[k].id;
    let rest = ds.skip(1);
    let next = after_device(peers, ds[0], own);
    assert(only_revoked(rest, id)) by {
        assert forall|i: int| 0 <= i < rest.len() && (#[trigger] rest[i]).id == id implies rest[i].revoked by {
            assert(rest[i] == ds[i + 1]);
        }
    }
    if k > 0 {
        assert(rest[k - 1] == ds[k]);
        revoked_device_is_dropped(next, rest, own, k - 1);
    } else {
        crate::platform::trust::removal_ends_trust(peers, id, id, Seq::empty());
        lemma_unknown_stays(next, rest, own, id);
    }
}

/// A device that the hub last names as one of the account is trusted afterwards with
/// the certificate that the hub names for it, if that can be read.
pub proof fn named_device_is_trusted(
    peers: Seq<TrustedPeer>,
    ds: Seq<DeviceDto>,
    own: DeviceId,
    k: int,
)
    requires
        0 <= k < ds.len(),
        ds[k].id != own,
        !ds[k].revoked,
        ds[k].cert_fingerprint is Some,
        fingerprint_value(ds[k].cert_fingerprint->0@) is Some,
        forall|j: int| k < j < ds.len() ==> (#[trigger] ds[j]).id != ds[k].id,
    ensures
        trusts(
            after_devices(peers, ds, own),
            ds[k].id,
            fingerprint_value(ds[k].cert_fingerprint->0@)->0,
        ),
    decreases ds.len(),
{
    let d = ds[k];
    let fp = fingerprint_value(d.cert_fingerprint->0@)->0;
    let rest = ds.skip(1);
    let next = after_device(peers, ds[0], own);
    if k > 0 {
        assert(rest[k - 1] == d);
        assert forall|j: int| k - 1 < j < rest.len() implies (#[trigger] rest[j]).id != d.id by {
            assert(rest[j] == ds[j + 1]);
        }
        named_device_is_trusted(next, rest, own, k - 1);
    } else {
        crate::platform::trust::addition_is_trusted(
            peers,
            TrustedPeer {
                device_id: d.id,
                fingerprint_hex: d.cert_fingerprint->0,
                name: d.name,
            },
            d.id,
            fp,
        );
        assert forall|j: int| 0 <= j < rest.len() implies (#[trigger] rest[j]).id != d.id by {
            assert(rest[j] == ds[j + 1]);
        }
        unnamed_device_is_left_alone(next, rest, own, d.id, fp);
    }
}

/// What the hub says of other devices changes nothing in the trust in a device, and
/// nothing it says changes what is noted of this device itself.
pub proof fn unnamed_device_is_left_alone(
    peers: Seq<TrustedPeer>,
    ds: Seq<DeviceDto>,
    own: DeviceId,
    id: DeviceId,
    fingerprint: Seq<u8>,
)
    requires
        id == own || forall|j: int| 0 <= j < ds.len() ==> (#[trigger] ds[j]).id != id,
    ensures
        trusts(after_devices(peers, ds, own), id, fingerprint) == trusts(peers, id, fingerprint),
    decreases ds.len(),
{
    if ds.len() > 0 {
        let d = ds[0];
        let rest = ds.skip(1);
        if id != own {
            assert forall|j: int| 0 <= j < rest.len() implies (#[trigger] rest[j]).id != id by {
                assert(rest[j] == ds[j + 1]);
            }
        }
        if d.id != own {
            if d.revoked {
                crate::platform::trust::removal_ends_trust(peers, d.id, id, fingerprint);
            } else if d.cert_fingerprint is Some {
                crate::platform::trust::addition_is_trusted(
                    peers,
                    TrustedPeer {
                        device_id: d.id,
                        fingerprint_hex: d.cert_fingerprint->0,
                        name: d.name,
                    },
                    id,
                    fingerprint,
                );
            }
        }
        unnamed_device_is_left_alone(after_device(peers, d, own), rest, own, id, fingerprint);
    }
}

proof fn lemma_unknown_stays(
    peers: Seq<TrustedPeer>,
    ds: Seq<DeviceDto>,
    own: DeviceId,
    id: DeviceId,
)
    requires
        !knows(peers, id),
        only_revoked(ds, id),
    ensures
        !knows(after_devices(peers, ds, own), id),
    decreases ds.len(),
{
    if ds.len() > 0 {
        let d = ds[0];
        let rest = ds.skip(1);
        let next = after_device(peers, d, own);
        assert(only_revoked(rest, id)) by {
            assert forall|i: int| 0 <= i < rest.len() && (#[trigger] rest[i]).id == id implies rest[i].revoked by {
                assert(rest[i] == ds[i + 1]);
            }
        }
        assert(!knows(next, id)) by {
            if d.id == own {
            } else if d.revoked {
                lemma_without_unknown(peers, d.id, id);
            } else if d.cert_fingerprint is Some {
                let peer = TrustedPeer {
                    device_id: d.id,
                    fingerprint_hex: d.cert_fingerprint->0,
                    name: d.name,
                };
                assert(d.id != id);
                crate::platform::trust::lemma_first_place(peers, d.id, 0);
                assert forall|i: int| 0 <= i < next.len() implies (#[trigger] next[i]).device_id
                    != id by {
                    if next[i] != peer {
                        assert(next[i] == peers[i]);
                    }
                }
            }
        }
        lemma_unknown_stays(next, rest, own, id);
    }
}

proof fn lemma_without_unknown(peers: Seq<TrustedPeer>, gone: DeviceId, id: DeviceId)
    requires
        !knows(peers, id),
    ensures
        !knows(without_peer(peers, gone), id),
    decreases peers.len(),
{
    if peers.len() > 0 {
        let shorter = peers.drop_last();
        assert(!knows(shorter, id)) by {
            if knows(shorter, id) {
                let i = choose|i: int| 0 <= i < shorter.len() && (#[trigger] shorter[i]).device_id == id;
                assert(peers[i].device_id == id);
            }
        }
        lemma_without_unknown(shorter, gone, id);
        let before = without_peer(shorter, gone);
        let after = without_peer(peers, gone);
        if peers.last().device_id != gone {
            assert(peers[peers.len() - 1].device_id != id);
            assert forall|i: int| 0 <= i < after.len() implies (#[trigger] after[i]).device_id != id by {
                if i < before.len() {
                    assert(after[i] == before[i]);
                }
            }
        }
    }
}

/// The device that told where it can be reached on the local network, through
/// the hub. Other messages tell of none.
pub fn exchange_candidates(env: Envelope, lan_port: u16) -> (r: Option<DiscoveredPeer>)
    ensures
        match env.body {
            MessageBody::LanCandidates(c) => {
                &&& r matches Some(p)
                &&& p.device_id == env.device_id
                &&& p.port == lan_port
                &&& p.addresses == c.endpoints
                &&& (match p.fingerprint {
                    Some(a) => Some(a@),
                    None => None,
                }) == (match c.fingerprint_hex {
                    Some(f) => fingerprint_value(f@),
                    None => None,
                })
            },
            _ => r is None,
        },
{
    let device_id = env.device_id;
    match env.body {
        MessageBody::LanCandidates(c) => {
            let fingerprint = match &c.fingerprint_hex {
                Some(f) => parse_fp(f.as_str()),
                None => None,
            };
            Some(DiscoveredPeer { device_id, port: lan_port, fingerprint, addresses: c.endpoints })
        },
        _ => None,
    }
}

/// A device near by as it is shown.
#[derive(Debug)]
pub struct LanPeerDto {
    pub device_id: String,
    pub name: String,
    pub addresses: Vec<String>,
    pub port: u16,
    pub fingerprint: String,
    pub is_trusted: bool,
}

/// Whether this is how a device near by is shown. Its name is made of the
/// beginning of its identity.
pub open spec fn shown_as(
    d: LanPeerDto,
    peer: DiscoveredPeer,
    id: String,
    peers: Seq<TrustedPeer>,
) -> bool {
    &&& d.device_id == id
    &&& d.name@ == "Peer-"@ + instance_text(id@)
    &&& d.addresses == peer.addresses
    &&& d.port == peer.port
    &&& d.fingerprint@ == (match peer.fingerprint {
        Some(fp) => hexcodec::hex_text(fp@),
        None => Seq::empty(),
    })
    &&& d.is_trusted == (peer.fingerprint is Some && trusts(
        peers,
        peer.device_id,
        peer.fingerprint->0@,
    ))
}

/// A device near by as it is shown. `id` is its identity as text.
pub fn lan_peer_dto(peer: DiscoveredPeer, id: String, trust: &TrustStore) -> (r: LanPeerDto)
    ensures
        shown_as(r, peer, id, trust.peers@),
{
    let mut name = "Peer-".to_owned();
    let short = short_id(id.as_str());
    name.push_str(short.as_str());
    let is_trusted = match &peer.fingerprint {
        Some(fp) => trust.is_trusted(peer.device_id, fp),
        None => false,
    };
    let fingerprint = match &peer.fingerprint {
        Some(fp) => hexcodec::encode(fp.as_slice()),
        None => String::new(),
    };
    assert(peer.fingerprint is None ==> fingerprint@ =~= Seq::<char>::empty());
    LanPeerDto {
        device_id: id,
        name,
        addresses: peer.addresses,
        port: peer.port,
        fingerprint,
        is_trusted,
    }
}

/// The devices near by as they are shown, in the order in which they are given.
/// Each comes with its identity as text.
pub fn get_lan_peers(found: Vec<(DiscoveredPeer, String)>, trust: &TrustStore) -> (r: Vec<LanPeerDto>)
    ensures
        r@.len() == found@.len(),
        forall|i: int|
            0 <= i < r@.len() ==> shown_as(
                #[trigger] r@[i],
                found@[i].0,
                found@[i].1,
                trust.peers@,
            ),
{
    let mut rest = found;
    let mut out: Vec<LanPeerDto> = Vec::new();
    while rest.len() > 0
        invariant
            out@.len() + rest@.len() == found@.len(),
            rest@ == found@.skip(out@.len() as int),
            forall|i: int|
                0 <= i < out@.len() ==> shown_as(
                    #[trigger] out@[i],
                    found@[i].0,
                    found@[i].1,
                    trust.peers@,
                ),
        decreases rest@.len(),
    {
        let ghost n = out@.len() as int;
        assert(found@.skip(n)[0] == found@[n]);
        let (peer, id) = rest.remove(0);
        assert(rest@ =~= found@.skip(n + 1));
        out.push(lan_peer_dto(peer, id, trust));
    }
    out
}

/// Trusts a device that the user picked, if its identity could be read.
pub fn trust_peer(
    trust: &mut TrustStore,
    device: Result<DeviceId, String>,
    fingerprint_hex: String,
    name: String,
) -> (r: Result<(), String>)
    ensures
        match device {
            Ok(device_id) => {
                &&& r is Ok
                &&& final(trust).peers@ == with_peer(
                    old(trust).peers@,
                    TrustedPeer { device_id, fingerprint_hex, name },
                )
            },
            Err(m) => r == Err::<(), String>(m) && *final(trust) == *old(trust),
        },
{
    match device {
        Ok(device_id) => {
            trust.add(device_id, fingerprint_hex, name);
            Ok(())
        },
        Err(m) => Err(m),
    }
}

/// Trusts a device no longer, if its identity could be read.
pub fn untrust_peer(trust: &mut TrustStore, device: Result<DeviceId, String>) -> (r: Result<
    (),
    String,
>)
    ensures
        match device {
            Ok(device_id) => {
                &&& r is Ok
                &&& final(trust).peers@ == without_peer(old(trust).peers@, device_id)
            },
            Err(m) => r == Err::<(), String>(m) && *final(trust) == *old(trust),
        },
{
    match device {
        Ok(device_id) => {
            let _ = trust.remove(device_id);
            Ok(())
        },
        Err(m) => Err(m),
    }
}

/// The cached files that must stay: those that are pinned, and those of the item
/// on the clipboard.
pub fn cache_pins(pins: Vec<String>, on_clipboard: Option<String>) -> (r: Vec<String>)
    ensures
        match on_clipboard {
            Some(p) => texts(r@) == (if texts(pins@).contains(p@) {
                texts(pins@)
            } else {
                texts(pins@).push(p@)
            }),
            None => r == pins,
        },
{
    let ghost before = texts(pins@);
    let mut out = pins;
    if let Some(p) = on_clipboard {
        if !contains_text(out.as_slice(), p.as_str()) {
            let ghost t = p@;
            out.push(p);
            assert(texts(out@) =~= before.push(t));
        }
    }
    out
}

/// The right to read an item of any size in order to pass it on. The program
/// itself always has it.
pub fn host_read_grant(id: ContentId, now_ms: u64) -> (r: ContentReadGrant)
    ensures
        r@ == read_grant(id, u64::MAX, now_ms),
{
    PermissionBroker::host().grant_host_transfer(id, now_ms).unwrap()
}

/// What becomes, `lan` and `hub`, of the event of an item that was added here, of
/// whatever kind: it is sent to the devices near by just if its marks let it leave and
/// synchronisation is on, and published just if its marks let it leave and the hub can
/// be used.
pub proof fn queued_items_are_sent(
    event: OutboxEvent,
    item: ContentItem,
    auto_sync: bool,
    has_hub: bool,
    hub_ready: bool,
    lan: LanStep,
    hub: HubStep,
)
    requires
        call_ensures(consume_lan_outbox, (&event, &ItemLookup::Found(&item), auto_sync), lan),
        call_ensures(
            consume_hub_outbox,
            (&event, &ItemLookup::Found(&item), has_hub, hub_ready),
            hub,
        ),
    ensures
        ({
            let leaves = item.flags.remote_allowed && !item.flags.sensitive && !item.flags.local_only
                && !item.flags.transient;
            &&& lan == LanStep::PushThenAck <==> !event.payload.from_remote && leaves && auto_sync
            &&& lan != LanStep::PushThenAck ==> lan == LanStep::Ack
            &&& hub == HubStep::Publish <==> !event.payload.from_remote && has_hub && leaves
                && hub_ready
            &&& hub == HubStep::Leave <==> !event.payload.from_remote && !has_hub
            &&& !event.payload.from_remote && has_hub && leaves && !hub_ready ==> hub
                == HubStep::Retry(8000)
            &&& event.payload.from_remote ==> hub == HubStep::Ack
        }),
{
    if !event.payload.from_remote {
        added_items_are_passed_on(item, event, auto_sync, has_hub, hub_ready);
    }
}

/// What becomes of an event after its item was published, `r`, and the status that the
/// item then has, `status`.
pub proof fn publishing_is_noted(
    published: bool,
    r: HubStep,
    result: PublishResult,
    status: ContentStatus,
)
    requires
        call_ensures(after_publish, (published,), r),
        call_ensures(publish_one_status, (result,), status),
    ensures
        published <==> r == HubStep::Ack,
        !published ==> r == HubStep::Retry(8000),
        status == ContentStatus::SyncedToHub <==> result == PublishResult::Published,
        status == ContentStatus::Failed <==> result == PublishResult::Failed,
        status == ContentStatus::Local <==> result == PublishResult::NotReady,
{
}

/// An item from a device near by is taken, `r`, just if the device showed a certificate
/// with which it is trusted, and an item is sent to one, with the certificate `target`,
/// just if it told such a certificate.
pub proof fn only_trusted_devices_exchange_items(
    trust: TrustStore,
    from: DeviceId,
    shown: [u8; 32],
    r: bool,
    unshown: bool,
    peer: DiscoveredPeer,
    target: Option<[u8; 32]>,
)
    requires
        call_ensures(accepts_lan_item, (&trust, from, Some(shown)), r),
        call_ensures(accepts_lan_item, (&trust, from, None), unshown),
        call_ensures(push_lan_target, (&trust, &peer), target),
    ensures
        r <==> exists|i: int|
            0 <= i < trust.peers@.len() && (#[trigger] trust.peers@[i]).device_id == from
                && fingerprint_value(trust.peers@[i].fingerprint_hex@) == Some(shown@),
        !unshown,
        target is Some <==> peer.fingerprint is Some && exists|i: int|
            0 <= i < trust.peers@.len() && (#[trigger] trust.peers@[i]).device_id == peer.device_id
                && fingerprint_value(trust.peers@[i].fingerprint_hex@) == Some(
                peer.fingerprint->0@,
            ),
        target is Some ==> target == peer.fingerprint,
{
}

/// The addresses of a device are tried one after the other, `r`, until the item went
/// through or none is left.
pub proof fn every_address_is_tried(addresses: usize, tried: usize, sent: bool, r: Option<usize>)
    requires
        call_ensures(push_lan_next, (addresses, tried, sent), r),
    ensures
        r is Some <==> !sent && tried < addresses,
        r is Some ==> r == Some(tried),
{
}

/// The cached files that must stay, `r`, are all that are pinned and those of the item on
/// the clipboard.
pub proof fn pins_are_all_kept(
    pins: Vec<String>,
    on_clipboard: Option<String>,
    r: Vec<String>,
    name: Seq<char>,
)
    requires
        call_ensures(cache_pins, (pins, on_clipboard), r),
    ensures
        texts(r@).contains(name) <==> texts(pins@).contains(name) || (on_clipboard is Some
            && on_clipboard->0@ == name),
{
    let before = texts(pins@);
    let after = texts(r@);
    if let Some(p) = on_clipboard {
        if !before.contains(p@) {
            assert(after == before.push(p@));
            assert(after[before.len() as int] == p@);
            if before.contains(name) {
                let k = choose|k: int| 0 <= k < before.len() && before[k] == name;
                assert(after[k] == name);
            }
            if after.contains(name) {
                let k = choose|k: int| 0 <= k < after.len() && after[k] == name;
                if k < before.len() {
                    assert(before[k] == name);
                }
            }
        }
    }
}

/// The program may read every item of any size for the next minute, `r`, and what it is
/// handed is for that item alone.
pub proof fn the_program_may_pass_items_on(
    id: ContentId,
    now_ms: u64,
    r: ContentReadGrant,
    other: ContentId,
    later_ms: u64,
    valid: bool,
    bytes: u64,
)
    requires
        call_ensures(host_read_grant, (id, now_ms), r),
        call_ensures(ContentReadGrant::is_valid, (&r, other, later_ms), valid),
        call_ensures(ContentReadGrant::max_bytes, (&r,), bytes),
        now_ms + 60000 <= u64::MAX,
    ensures
        valid <==> other == id && later_ms < now_ms + 60000,
        bytes == u64::MAX,
{
}

/// A device that tells through the hub where it can be reached is noted, `r`, under its
/// own identity with all it told, and nothing else is noted so.
pub proof fn told_candidates_are_noted(env: Envelope, lan_port: u16, r: Option<DiscoveredPeer>)
    requires
        call_ensures(exchange_candidates, (env, lan_port), r),
    ensures
        r is Some <==> env.body is LanCandidates,
        r matches Some(p) ==> {
            &&& p.device_id == env.device_id
            &&& p.port == lan_port
            &&& p.addresses@ == env.body->LanCandidates_0.endpoints@
            &&& env.body->LanCandidates_0.fingerprint_hex is None ==> p.fingerprint is None
            &&& env.body->LanCandidates_0.fingerprint_hex matches Some(f) ==> (p.fingerprint is Some
                <==> fingerprint_value(f@) is Some) && (p.fingerprint is Some
                ==> p.fingerprint->0@ == fingerprint_value(f@)->0)
        },
{
}


/// A device that the user trusts is trusted with its certificate, and one that the user
/// does not trust any more is not; a device whose identity cannot be read changes nothing.
pub proof fn users_decide_on_trust(
    trust: &mut TrustStore,
    device: Result<DeviceId, String>,
    hex: String,
    name: String,
    r: Result<(), String>,
    other: DeviceId,
    fingerprint: Seq<u8>,
)
    requires
        call_ensures(trust_peer, (trust, device, hex, name), r),
    ensures
        r is Ok <==> device is Ok,
        device is Err ==> *final(trust) == *old(trust),
        device is Ok && fingerprint_value(hex@) is Some ==> trusts(
            final(trust).peers@,
            device->Ok_0,
            fingerprint_value(hex@)->0,
        ),
        device is Ok && other != device->Ok_0 ==> trusts(final(trust).peers@, other, fingerprint)
            == trusts(old(trust).peers@, other, fingerprint),
{
    if let Ok(id) = device {
        crate::platform::trust::addition_is_trusted(
            old(trust).peers@,
            TrustedPeer { device_id: id, fingerprint_hex: hex, name },
            other,
            fingerprint,
        );
    }
}

/// A device that the user does not trust any more is trusted with no certificate, and the
/// trust in others is as it was.
pub proof fn users_end_trust(
    trust: &mut TrustStore,
    device: Result<DeviceId, String>,
    r: Result<(), String>,
    other: DeviceId,
    fingerprint: Seq<u8>,
)
    requires
        call_ensures(untrust_peer, (trust, device), r),
    ensures
        r is Ok <==> device is Ok,
        device is Err ==> *final(trust) == *old(trust),
        device is Ok ==> !trusts(final(trust).peers@, device->Ok_0, fingerprint),
        device is Ok && other != device->Ok_0 ==> trusts(final(trust).peers@, other, fingerprint)
            == trusts(old(trust).peers@, other, fingerprint),
{
    if let Ok(id) = device {
        crate::platform::trust::removal_ends_trust(old(trust).peers@, id, other, fingerprint);
        crate::platform::trust::removal_ends_trust(old(trust).peers@, id, id, fingerprint);
    }
}

/// What the hub says of a device last counts: with a certificate that can be read it is
/// trusted, and revoked it is not. Other devices are as they were.
pub proof fn the_hub_decides_on_trust(
    trust: &mut TrustStore,
    devices: Vec<DeviceDto>,
    own: DeviceId,
    r: (),
    k: int,
    id: DeviceId,
    fingerprint: Seq<u8>,
)
    requires
        call_ensures(refresh_trust, (trust, devices, own), r),
        0 <= k < devices@.len(),
        devices@[k].id != own,
        forall|j: int| k < j < devices@.len() ==> (#[trigger] devices@[j]).id != devices@[k].id,
    ensures
        !devices@[k].revoked && devices@[k].cert_fingerprint is Some && fingerprint_value(
            devices@[k].cert_fingerprint->0@,
        ) is Some ==> trusts(
            final(trust).peers@,
            devices@[k].id,
            fingerprint_value(devices@[k].cert_fingerprint->0@)->0,
        ),
        id == own || (forall|j: int| 0 <= j < devices@.len() ==> (#[trigger] devices@[j]).id != id)
            ==> trusts(final(trust).peers@, id, fingerprint) == trusts(
            old(trust).peers@,
            id,
            fingerprint,
        ),
{
    if !devices@[k].revoked && devices@[k].cert_fingerprint is Some && fingerprint_value(
        devices@[k].cert_fingerprint->0@,
    ) is Some {
        named_device_is_trusted(old(trust).peers@, devices@, own, k);
    }
    if id == own || forall|j: int| 0 <= j < devices@.len() ==> (#[trigger] devices@[j]).id != id {
        unnamed_device_is_left_alone(old(trust).peers@, devices@, own, id, fingerprint);
    }
}

/// Every device near by is shown, in order, under its own identity.
pub proof fn every_device_is_shown(
    found: Vec<(DiscoveredPeer, String)>,
    trust: TrustStore,
    r: Vec<LanPeerDto>,
    i: int,
)
    requires
        call_ensures(get_lan_peers, (found, &trust), r),
    ensures
        r@.len() == found@.len(),
        0 <= i < r@.len() ==> {
            &&& r@[i].device_id@ == found@[i].1@
            &&& r@[i].addresses@ == found@[i].0.addresses@
            &&& r@[i].port == found@[i].0.port
            &&& r@[i].is_trusted <==> found@[i].0.fingerprint is Some && exists|k: int|
                0 <= k < trust.peers@.len() && (#[trigger] trust.peers@[k]).device_id
                    == found@[i].0.device_id && fingerprint_value(trust.peers@[k].fingerprint_hex@)
                    == Some(found@[i].0.fingerprint->0@)
        },
{
    if 0 <= i < r@.len() {
        peers_are_shown_truly(r@[i], found@[i].0, found@[i].1, trust.peers@);
    }
}

/// See [`engine_does_what_is_due`], of what the loop is told to do.
pub proof fn the_loop_does_what_is_due(event: EngineEvent, r: Vec<EngineStep>)
    requires
        call_ensures(run_loop_steps, (event,), r),
    ensures
        event is Tick || event is Reload ==> {
            &&& r@.first() == EngineStep::ConsumeOutbox
            &&& r@.last() == EngineStep::PullHub
            &&& r@.contains(EngineStep::FlushDeletes)
            &&& r@.contains(EngineStep::RefreshTrust)
            &&& r@.contains(EngineStep::ExchangeCandidates)
        },
        event is Reload ==> r@.contains(EngineStep::BackfillUnsynced),
        event is Maintenance ==> {
            &&& r@.contains(EngineStep::CollectBlobs)
            &&& r@.contains(EngineStep::CollectOutbox)
            &&& r@.contains(EngineStep::SweepOrphans)
            &&& r@.contains(EngineStep::EvictCache)
        },
        event is DrainOutbox ==> r@.contains(EngineStep::ConsumeOutbox),
        event is DeleteRemote ==> r@.contains(EngineStep::FlushDeletes),
        event is NetworkChanged ==> r@.contains(EngineStep::ExchangeCandidates),
        event is ReplaceVault ==> r@.contains(EngineStep::UseNewVault),
        r@.contains(EngineStep::Stop) <==> event is Closed,
{
    engine_does_what_is_due(event);
}


} // verus!
