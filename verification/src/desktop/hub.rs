//! Joining a hub, and letting others join.

use vstd::prelude::*;

use crate::content::DeviceId;
use crate::desktop::settings::SyncSettings;
use crate::hexcodec;
use crate::platform::trust::{addition_is_trusted, trusts, with_peer, TrustStore, TrustedPeer};
use crate::sync::lan::fingerprint_value;
use crate::sync::hub_client::HubClient;
use crate::sync::pairing::{
    canonical_code, is_code_like, looks_like_pairing_code, normalize_code, CODE_LEN,
};
use crate::text::{text_of, trim, trim_end_char, trim_end_matching, trimmed};

verus! {

/// A client for the hub that is set, with this device's token if it has one and
/// the hub's certificate if it is noted.
pub fn hub_client_from_settings(settings: &SyncSettings) -> (r: Result<HubClient, String>)
    ensures
        match settings.hub_url {
            None => r matches Err(m) && m@ == "no hub"@,
            Some(url) => {
                &&& r matches Ok(c)
                &&& c.base@ == trim_end_char(url@, '/')
                &&& (match settings.token {
                    Some(t) => c.token matches Some(ct) && ct@ == t@,
                    None => c.token is None,
                })
                &&& text_of(c.pin) == text_of(settings.hub_cert_sha256)
            },
        },
{
    match &settings.hub_url {
        None => Err("no hub".to_owned()),
        Some(url) => {
            let client = pinned_client(url.as_str(), settings);
            match &settings.token {
                Some(t) => Ok(client.with_token(t.clone())),
                None => Ok(client),
            }
        },
    }
}

/// A client for a hub at an address, with the certificate that is noted.
fn pinned_client(url: &str, settings: &SyncSettings) -> (r: HubClient)
    ensures
        r.base@ == trim_end_char(url@, '/'),
        r.token is None,
        text_of(r.pin) == text_of(settings.hub_cert_sha256),
{
    match &settings.hub_cert_sha256 {
        Some(p) => HubClient::with_pin(url, Some(p.as_str())),
        None => HubClient::with_pin(url, None),
    }
}

/// How this device joins a hub.
#[derive(Debug)]
pub enum BootstrapPlan {
    /// With a pairing code, in its canonical form.
    WithCode(String),
    /// As the first device, with the hub's secret, which gives a code.
    WithSecret(String),
}

/// Notes the address of the hub. Separators at its end do not count.
pub fn set_hub_url(settings: &mut SyncSettings, hub_url: &str)
    ensures
        final(settings).hub_url matches Some(u) && u@ == trim_end_char(hub_url@, '/'),
        *final(settings) == (SyncSettings { hub_url: final(settings).hub_url, ..*old(settings) }),
{
    settings.hub_url = Some(trim_end_matching(hub_url, '/'));
}

/// How this device joins a hub, by what the user typed.
pub fn bootstrap_hub_plan(typed: Option<&str>) -> (r: Result<BootstrapPlan, String>)
    ensures
        if typed is None || trimmed(typed->0@).len() == 0 {
            r matches Err(m) && m@
                == "first device needs the hub bootstrap secret; later devices need a pairing code"@
        } else if is_code_like(canonical_code(typed->0@), CODE_LEN as nat) {
            r matches Ok(BootstrapPlan::WithCode(c)) && c@ == canonical_code(typed->0@)
        } else {
            r matches Ok(BootstrapPlan::WithSecret(s)) && s@ == trimmed(typed->0@)
        },
{
    let typed = match typed {
        Some(t) => t,
        None => return Err(
            "first device needs the hub bootstrap secret; later devices need a pairing code".to_owned(),
        ),
    };
    let secret = trim(typed);
    if secret.as_str().is_empty() {
        return Err(
            "first device needs the hub bootstrap secret; later devices need a pairing code".to_owned(),
        );
    }
    if looks_like_pairing_code(typed) {
        Ok(BootstrapPlan::WithCode(normalize_code(typed)))
    } else {
        Ok(BootstrapPlan::WithSecret(secret))
    }
}

/// A device that the hub says may be trusted.
#[derive(Debug)]
pub struct TrustedDeviceDto {
    pub device_id: DeviceId,
    pub name: String,
    pub cert_fingerprint: Option<String>,
}

/// The trusted devices after what the hub said when this device joined.
pub open spec fn after_joining(
    peers: Seq<TrustedPeer>,
    ds: Seq<TrustedDeviceDto>,
    own: DeviceId,
) -> Seq<TrustedPeer>
    decreases ds.len(),
{
    if ds.len() == 0 {
        peers
    } else {
        let d = ds[0];
        let next = if d.device_id != own && d.cert_fingerprint is Some {
            with_peer(
                peers,
                TrustedPeer {
                    device_id: d.device_id,
                    fingerprint_hex: d.cert_fingerprint->0,
                    name: d.name,
                },
            )
        } else {
            peers
        };
        after_joining(next, ds.skip(1), own)
    }
}

/// Trusts the devices that the hub named when this device joined, with the
/// certificates they told. This device itself is passed over.
pub fn persist_trusted_devices(trust: &mut TrustStore, devices: Vec<TrustedDeviceDto>, own: DeviceId)
    ensures
        final(trust).peers@ == after_joining(old(trust).peers@, devices@, own),
{
    let mut rest = devices;
    while rest.len() > 0
        invariant
            after_joining(trust.peers@, rest@, own) == after_joining(
                old(trust).peers@,
                devices@,
                own,
            ),
        decreases rest@.len(),
    {
        let ghost before = rest@;
        let d = rest.remove(0);
        assert(rest@ =~= before.skip(1));
        if d.device_id != own {
            if let Some(fp) = d.cert_fingerprint {
                trust.add(d.device_id, fp, d.name);
            }
        }
    }
}

/// The wrapped account key and the salt to unwrap it with, if the hub gave a key.
/// The salt of the session counts before that of the offer, and a key without a
/// salt is refused.
pub fn bootstrap_hub_vault(
    wrapped: Option<String>,
    session_salt: Option<String>,
    offered_salt: Option<String>,
) -> (r: Result<Option<(String, String)>, String>)
    ensures
        match wrapped {
            None => r == Ok::<Option<(String, String)>, String>(None),
            Some(w) => match session_salt {
                Some(s) => r == Ok::<Option<(String, String)>, String>(Some((w, s))),
                None => match offered_salt {
                    Some(s) => r == Ok::<Option<(String, String)>, String>(Some((w, s))),
                    None => r matches Err(m) && m@ == "paired AVK wrap is missing KDF salt"@,
                },
            },
        },
{
    match wrapped {
        None => Ok(None),
        Some(w) => {
            let salt = match session_salt {
                Some(s) => Some(s),
                None => offered_salt,
            };
            match salt {
                Some(s) => Ok(Some((w, s))),
                None => Err("paired AVK wrap is missing KDF salt".to_owned()),
            }
        },
    }
}

/// The bytes of a wrapped account key, which the hub writes in hexadecimal.
pub fn unwrap_pairing_avk_begin(wrapped_hex: &str) -> (r: Result<Vec<u8>, String>)
    ensures
        match r {
            Ok(b) => hexcodec::is_hex(wrapped_hex@) && b@ == hexcodec::hex_bytes(wrapped_hex@),
            Err(m) => !hexcodec::is_hex(wrapped_hex@) && m@ == hexcodec::hex_error_message(
                wrapped_hex@,
            ),
        },
{
    hexcodec::decode(wrapped_hex)
}

/// The account key, once it was unwrapped.
pub fn unwrap_pairing_avk_end(plain: &[u8]) -> (r: Result<[u8; 32], String>)
    ensures
        match r {
            Ok(k) => plain@.len() == 32 && k@ == plain@,
            Err(m) => plain@.len() != 32 && m@ == "paired AVK must be 32 bytes"@,
        },
{
    if plain.len() != 32 {
        return Err("paired AVK must be 32 bytes".to_owned());
    }
    let mut out = [0u8; 32];
    let mut i: usize = 0;
    while i < 32
        invariant
            i <= 32,
            plain@.len() == 32,
            forall|j: int| 0 <= j < i ==> out@[j] == plain@[j],
        decreases 32 - i,
    {
        out[i] = plain[i];
        i += 1;
    }
    assert(out@ =~= plain@);
    Ok(out)
}

/// The client that asks for a pairing code for another device: this one must
/// have joined.
pub fn start_pairing_code(settings: &SyncSettings) -> (r: Result<HubClient, String>)
    ensures
        match settings.hub_url {
            None => r matches Err(m) && m@ == "set hub url first"@,
            Some(url) => match settings.token {
                None => r matches Err(m) && m@ == "connect this device first"@,
                Some(t) => {
                    &&& r matches Ok(c)
                    &&& c.base@ == trim_end_char(url@, '/')
                    &&& (c.token matches Some(ct) && ct@ == t@)
                    &&& text_of(c.pin) == text_of(settings.hub_cert_sha256)
                },
            },
        },
{
    match &settings.hub_url {
        None => Err("set hub url first".to_owned()),
        Some(url) => match &settings.token {
            None => Err("connect this device first".to_owned()),
            Some(t) => Ok(pinned_client(url.as_str(), settings).with_token(t.clone())),
        },
    }
}

/// Notes a pairing code that another device may use, and its salt.
pub fn note_pairing_code(settings: &mut SyncSettings, code: String, salt: String)
    ensures
        *final(settings) == (SyncSettings {
            pending_pair_code: Some(code),
            pending_pair_salt: Some(salt),
            ..*old(settings)
        }),
{
    settings.pending_pair_code = Some(code);
    settings.pending_pair_salt = Some(salt);
}

/// A client for the hub is made just if a hub is set, at the address that is set without
/// the separators at its end, with the token and the certificate that are noted. A pairing
/// code is asked for just with a token besides.
pub proof fn clients_use_the_settings(
    settings: SyncSettings,
    r: Result<HubClient, String>,
    p: Result<HubClient, String>,
    i: int,
)
    requires
        call_ensures(hub_client_from_settings, (&settings,), r),
        call_ensures(start_pairing_code, (&settings,), p),
    ensures
        r is Ok <==> settings.hub_url is Some,
        p is Ok <==> settings.hub_url is Some && settings.token is Some,
        r is Ok ==> {
            &&& r->Ok_0.base@.is_prefix_of(settings.hub_url->0@)
            &&& r->Ok_0.base@.len() <= i < settings.hub_url->0@.len() ==> settings.hub_url->0@[i]
                == '/'
            &&& r->Ok_0.base@.len() > 0 ==> r->Ok_0.base@.last() != '/'
            &&& text_of(r->Ok_0.token) == text_of(settings.token)
            &&& text_of(r->Ok_0.pin) == text_of(settings.hub_cert_sha256)
        },
        p is Ok ==> {
            &&& p->Ok_0.base@ == r->Ok_0.base@
            &&& text_of(p->Ok_0.token) == text_of(settings.token)
            &&& text_of(p->Ok_0.pin) == text_of(settings.hub_cert_sha256)
        },
{
    if settings.hub_url is Some {
        crate::text::trimming_takes_the_character_alone(settings.hub_url->0@, '/');
    }
}

/// The address of the hub is noted without the separators at its end, and nothing else
/// changes.
pub proof fn hub_addresses_are_noted(settings: &mut SyncSettings, url: &str, r: (), i: int)
    requires
        call_ensures(set_hub_url, (settings, url), r),
    ensures
        final(settings).hub_url is Some,
        final(settings).hub_url->0@.is_prefix_of(url@),
        final(settings).hub_url->0@.len() <= i < url@.len() ==> url@[i] == '/',
        final(settings).hub_url->0@.len() > 0 ==> final(settings).hub_url->0@.last() != '/',
        final(settings).token == old(settings).token && final(settings).webdav == old(
            settings,
        ).webdav,
        final(settings).hub_cert_sha256 == old(settings).hub_cert_sha256,
        final(settings).lan_port == old(settings).lan_port && final(settings).auto_sync == old(
            settings,
        ).auto_sync && final(settings).auto_receive == old(settings).auto_receive,
        final(settings).pending_pair_code == old(settings).pending_pair_code,
        final(settings).pending_pair_salt == old(settings).pending_pair_salt,
{
    crate::text::trimming_takes_the_character_alone(url@, '/');
}

/// Eight letters and digits that were typed are a code, in whatever case and with
/// whatever white space around them, and the code is written with capitals.
pub proof fn typed_codes_are_used(
    typed: &str,
    before: Seq<char>,
    code: Seq<char>,
    after: Seq<char>,
    r: Result<BootstrapPlan, String>,
)
    requires
        typed@ == before + code + after,
        forall|i: int| 0 <= i < before.len() ==> crate::text::is_white_space(#[trigger] before[i]),
        forall|i: int| 0 <= i < after.len() ==> crate::text::is_white_space(#[trigger] after[i]),
        code.len() == 8,
        forall|i: int|
            0 <= i < code.len() ==> ('a' <= #[trigger] code[i] <= 'z' || 'A' <= code[i] <= 'Z'
                || '0' <= code[i] <= '9'),
        call_ensures(bootstrap_hub_plan, (Some(typed),), r),
    ensures
        r is Ok && r->Ok_0 is WithCode,
        r->Ok_0->WithCode_0@ == crate::text::uppered(code),
{
    crate::sync::pairing::codes_are_recognised(before, code, after);
    let cut = crate::text::trimming_takes_white_space_alone(typed@);
    assert(typed@[before.len() as int] == code[0]);
}

/// Anything else that was typed is a secret, as it was typed but for the white space
/// around it. Nothing, or white space alone, joins no hub.
pub proof fn typed_secrets_are_used(typed: Option<&str>, r: Result<BootstrapPlan, String>)
    requires
        call_ensures(bootstrap_hub_plan, (typed,), r),
    ensures
        r is Ok <==> typed is Some && exists|i: int|
            0 <= i < typed->0@.len() && !crate::text::is_white_space(#[trigger] typed->0@[i]),
        r is Ok && r->Ok_0 is WithCode ==> r->Ok_0->WithCode_0@.len() == 8 && forall|i: int|
            0 <= i < 8 ==> ('A' <= #[trigger] r->Ok_0->WithCode_0@[i] <= 'Z' || '0'
                <= r->Ok_0->WithCode_0@[i] <= '9'),
        r is Ok && r->Ok_0 is WithSecret ==> r->Ok_0->WithSecret_0@ == trimmed(typed->0@),
{
    if typed is Some {
        let cut = crate::text::trimming_takes_white_space_alone(typed->0@);
        if is_code_like(canonical_code(typed->0@), CODE_LEN as nat) {
            crate::sync::pairing::only_codes_are_recognised(typed->0@);
        }
    }
}

/// When this device has joined a hub, a device that the hub named last with a certificate
/// that can be read is trusted with it, and the trust in devices that the hub did not
/// name, and in this one, is as it was.
pub proof fn devices_of_the_hub_are_trusted(
    trust: &mut TrustStore,
    devices: Vec<TrustedDeviceDto>,
    own: DeviceId,
    r: (),
    k: int,
    id: DeviceId,
    fingerprint: Seq<u8>,
)
    requires
        call_ensures(persist_trusted_devices, (trust, devices, own), r),
        0 <= k < devices@.len(),
        devices@[k].device_id != own,
        devices@[k].cert_fingerprint is Some,
        fingerprint_value(devices@[k].cert_fingerprint->0@) is Some,
        forall|j: int| k < j < devices@.len() ==> (#[trigger] devices@[j]).device_id
            != devices@[k].device_id,
    ensures
        trusts(
            final(trust).peers@,
            devices@[k].device_id,
            fingerprint_value(devices@[k].cert_fingerprint->0@)->0,
        ),
        id == own || (forall|j: int|
            0 <= j < devices@.len() ==> (#[trigger] devices@[j]).device_id != id) ==> trusts(
            final(trust).peers@,
            id,
            fingerprint,
        ) == trusts(old(trust).peers@, id, fingerprint),
{
    lemma_joined_is_trusted(old(trust).peers@, devices@, own, k);
    if id == own || forall|j: int|
        0 <= j < devices@.len() ==> (#[trigger] devices@[j]).device_id != id {
        lemma_unnamed_stays(old(trust).peers@, devices@, own, id, fingerprint);
    }
}

proof fn lemma_joined_is_trusted(
    peers: Seq<TrustedPeer>,
    ds: Seq<TrustedDeviceDto>,
    own: DeviceId,
    k: int,
)
    requires
        0 <= k < ds.len(),
        ds[k].device_id != own,
        ds[k].cert_fingerprint is Some,
        fingerprint_value(ds[k].cert_fingerprint->0@) is Some,
        forall|j: int| k < j < ds.len() ==> (#[trigger] ds[j]).device_id != ds[k].device_id,
    ensures
        trusts(
            after_joining(peers, ds, own),
            ds[k].device_id,
            fingerprint_value(ds[k].cert_fingerprint->0@)->0,
        ),
    decreases ds.len(),
{
    let d = ds[k];
    let rest = ds.skip(1);
    let peer = TrustedPeer {
        device_id: ds[0].device_id,
        fingerprint_hex: ds[0].cert_fingerprint->0,
        name: ds[0].name,
    };
    let next = if ds[0].device_id != own && ds[0].cert_fingerprint is Some {
        with_peer(peers, peer)
    } else {
        peers
    };
    if k > 0 {
        assert(rest[k - 1] == d);
        assert forall|j: int| k - 1 < j < rest.len() implies (#[trigger] rest[j]).device_id
            != d.device_id by {
            assert(rest[j] == ds[j + 1]);
        }
        lemma_joined_is_trusted(next, rest, own, k - 1);
    } else {
        let fp = fingerprint_value(d.cert_fingerprint->0@)->0;
        addition_is_trusted(peers, peer, d.device_id, fp);
        assert forall|j: int| 0 <= j < rest.len() implies (#[trigger] rest[j]).device_id
            != d.device_id by {
            assert(rest[j] == ds[j + 1]);
        }
        lemma_unnamed_stays(next, rest, own, d.device_id, fp);
    }
}

proof fn lemma_unnamed_stays(
    peers: Seq<TrustedPeer>,
    ds: Seq<TrustedDeviceDto>,
    own: DeviceId,
    id: DeviceId,
    fingerprint: Seq<u8>,
)
    requires
        id == own || forall|j: int| 0 <= j < ds.len() ==> (#[trigger] ds[j]).device_id != id,
    ensures
        trusts(after_joining(peers, ds, own), id, fingerprint) == trusts(peers, id, fingerprint),
    decreases ds.len(),
{
    if ds.len() > 0 {
        let d = ds[0];
        let rest = ds.skip(1);
        if id != own {
            assert forall|j: int| 0 <= j < rest.len() implies (#[trigger] rest[j]).device_id != id by {
                assert(rest[j] == ds[j + 1]);
            }
        }
        if d.device_id != own && d.cert_fingerprint is Some {
            let peer = TrustedPeer {
                device_id: d.device_id,
                fingerprint_hex: d.cert_fingerprint->0,
                name: d.name,
            };
            addition_is_trusted(peers, peer, id, fingerprint);
            lemma_unnamed_stays(with_peer(peers, peer), rest, own, id, fingerprint);
        } else {
            lemma_unnamed_stays(peers, rest, own, id, fingerprint);
        }
    }
}

/// A key that the hub gave is unwrapped with the salt of the session, or else with that of
/// the offer; without either it is refused. Without a key there is nothing to unwrap.
pub proof fn given_keys_are_unwrapped(
    wrapped: Option<String>,
    session: Option<String>,
    offered: Option<String>,
    r: Result<Option<(String, String)>, String>,
)
    requires
        call_ensures(bootstrap_hub_vault, (wrapped, session, offered), r),
    ensures
        r is Err <==> wrapped is Some && session is None && offered is None,
        r is Ok ==> (r->Ok_0 is Some <==> wrapped is Some),
        r is Ok && wrapped is Some ==> (r->Ok_0->0).0 == wrapped->0,
        r is Ok && wrapped is Some && session is Some ==> (r->Ok_0->0).1 == session->0,
        r is Ok && wrapped is Some && session is None ==> (r->Ok_0->0).1 == offered->0,
{
}

/// A wrapped key that was written in hexadecimal, `text`, is read back, and a key of just
/// thirty-two bytes is the account's.
pub proof fn account_keys_are_read(
    wrapped: Seq<u8>,
    text: &str,
    r: Result<Vec<u8>, String>,
    plain: &[u8],
    key: Result<[u8; 32], String>,
)
    requires
        text@ == hexcodec::hex_text(wrapped),
        call_ensures(unwrap_pairing_avk_begin, (text,), r),
        call_ensures(unwrap_pairing_avk_end, (plain,), key),
    ensures
        r is Ok && r->Ok_0@ == wrapped,
        key is Ok <==> plain@.len() == 32,
        key is Ok ==> key->Ok_0@ == plain@,
{
    hexcodec::decode_restores_encode(wrapped);
}

/// The code for another device is noted with its salt, and nothing else changes.
pub proof fn pairing_codes_are_noted(settings: &mut SyncSettings, code: String, salt: String, r: ())
    requires
        call_ensures(note_pairing_code, (settings, code, salt), r),
    ensures
        final(settings).pending_pair_code == Some(code),
        final(settings).pending_pair_salt == Some(salt),
        final(settings).hub_url == old(settings).hub_url && final(settings).token == old(
            settings,
        ).token,
        final(settings).webdav == old(settings).webdav,
        final(settings).hub_cert_sha256 == old(settings).hub_cert_sha256,
        final(settings).lan_port == old(settings).lan_port && final(settings).auto_sync == old(
            settings,
        ).auto_sync && final(settings).auto_receive == old(settings).auto_receive,
{
}


} // verus!
