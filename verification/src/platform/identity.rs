//! Who this device is.

use vstd::prelude::*;

use crate::content::DeviceId;
use crate::platform::hardening::Platform;

verus! {

/// The identity of this device and of its account.
#[derive(Debug)]
pub struct LocalIdentity {
    pub device_id: DeviceId,
    pub account_id: u128,
    pub device_name: String,
}

impl LocalIdentity {
    /// The identity that was kept, or a fresh one, and whether it is to be kept
    /// now.
    pub fn load_or_create(
        kept: Option<LocalIdentity>,
        fresh_device: DeviceId,
        fresh_account: u128,
        device_name: String,
    ) -> (r: (LocalIdentity, bool))
        ensures
            match kept {
                Some(id) => r == (id, false),
                None => r == (
                    LocalIdentity {
                        device_id: fresh_device,
                        account_id: fresh_account,
                        device_name,
                    },
                    true,
                ),
            },
    {
        match kept {
            Some(id) => (id, false),
            None => (
                LocalIdentity { device_id: fresh_device, account_id: fresh_account, device_name },
                true,
            ),
        }
    }
}

/// The name of a device until it is given another: that of the host, or one of
/// the platform's where the host has none.
pub fn default_device_name(hostname: Option<String>, platform: Platform) -> (r: String)
    ensures
        if hostname is Some && hostname->0@.len() > 0 {
            r == hostname->0
        } else {
            r@ == (match platform {
                Platform::MacOs => "Mac"@,
                Platform::Windows => "Windows PC"@,
                Platform::Other => "Asterism"@,
            })
        },
{
    if let Some(name) = hostname {
        if !name.as_str().is_empty() {
            return name;
        }
    }
    match platform {
        Platform::MacOs => "Mac".to_owned(),
        Platform::Windows => "Windows PC".to_owned(),
        Platform::Other => "Asterism".to_owned(),
    }
}

/// A device that has an identity keeps it; another gets a fresh one, which is kept from
/// then on.
pub proof fn identities_last(
    kept: Option<LocalIdentity>,
    device: DeviceId,
    account: u128,
    name: String,
    first: (LocalIdentity, bool),
    other_device: DeviceId,
    other_account: u128,
    other_name: String,
    again: (LocalIdentity, bool),
)
    requires
        call_ensures(LocalIdentity::load_or_create, (kept, device, account, name), first),
        call_ensures(
            LocalIdentity::load_or_create,
            (Some(first.0), other_device, other_account, other_name),
            again,
        ),
    ensures
        kept is Some ==> first.0 == kept->0,
        kept is None ==> first.0.device_id == device && first.0.account_id == account
            && first.0.device_name == name,
        first.1 <==> kept is None,
        again.0 == first.0,
        !again.1,
{
}

/// A device is named as its host is, if that has a name, and otherwise as devices of its
/// platform are.
pub proof fn devices_are_named_after_their_hosts(
    hostname: Option<String>,
    platform: Platform,
    r: String,
)
    requires
        call_ensures(default_device_name, (hostname, platform), r),
    ensures
        hostname is Some && hostname->0@.len() > 0 ==> r@ == hostname->0@,
        hostname is None || hostname->0@.len() == 0 ==> {
            &&& platform == Platform::MacOs ==> r@ == "Mac"@
            &&& platform == Platform::Windows ==> r@ == "Windows PC"@
            &&& platform == Platform::Other ==> r@ == "Asterism"@
        },
{
}


} // verus!
