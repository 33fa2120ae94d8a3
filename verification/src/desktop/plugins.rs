//! The plugins that the desktop program is made of.

use vstd::prelude::*;

use crate::plugin::ids::{ActionKey, PluginManifest, TrustTier};
use crate::text::texts;

verus! {

/// The names of services and permissions that a plugin declares, as a list.
fn names(a: &str, b: &str) -> (r: Vec<String>)
    ensures
        texts(r@) == seq![a@, b@],
{
    let mut out: Vec<String> = Vec::new();
    out.push(a.to_owned());
    out.push(b.to_owned());
    assert(texts(out@) =~= seq![a@, b@]);
    out
}

/// What the synchronisation plugin declares of itself.
pub fn sync_manifest() -> (r: PluginManifest)
    ensures
        r.id@ == "asterism.sync"@,
        r.trust_tier == TrustTier::RequiredBuiltin,
        texts(r.requires_services@) == seq!["asterism.domain"@],
        texts(r.permissions@) == seq!["content.read"@],
{
    let mut requires_services: Vec<String> = Vec::new();
    requires_services.push("asterism.domain".to_owned());
    let mut permissions: Vec<String> = Vec::new();
    permissions.push("content.read".to_owned());
    assert(texts(requires_services@) =~= seq!["asterism.domain"@]);
    assert(texts(permissions@) =~= seq!["content.read"@]);
    PluginManifest {
        id: "asterism.sync".to_owned(),
        trust_tier: TrustTier::RequiredBuiltin,
        requires_services,
        permissions,
    }
}

/// What the clipboard plugin declares of itself.
pub fn clipboard_manifest() -> (r: PluginManifest)
    ensures
        r.id@ == "asterism.clipboard"@,
        r.trust_tier == TrustTier::RequiredBuiltin,
        texts(r.requires_services@) == seq!["asterism.domain"@, "asterism.sync"@],
        texts(r.permissions@) == seq!["clipboard.read"@, "clipboard.write"@],
{
    PluginManifest {
        id: "asterism.clipboard".to_owned(),
        trust_tier: TrustTier::RequiredBuiltin,
        requires_services: names("asterism.domain", "asterism.sync"),
        permissions: names("clipboard.read", "clipboard.write"),
    }
}

/// What the plugin of the built-in actions declares of itself.
pub fn actions_manifest() -> (r: PluginManifest)
    ensures
        r.id@ == "asterism.actions"@,
        r.trust_tier == TrustTier::RequiredBuiltin,
        texts(r.requires_services@) == seq!["asterism.history"@, "asterism.sync"@],
        texts(r.permissions@) == seq![
            "content.read"@,
            "content.favorite"@,
            "content.delete"@,
            "clipboard.write"@,
        ],
{
    let mut permissions: Vec<String> = Vec::new();
    permissions.push("content.read".to_owned());
    permissions.push("content.favorite".to_owned());
    permissions.push("content.delete".to_owned());
    permissions.push("clipboard.write".to_owned());
    assert(texts(permissions@) =~= seq![
        "content.read"@,
        "content.favorite"@,
        "content.delete"@,
        "clipboard.write"@,
    ]);
    PluginManifest {
        id: "asterism.actions".to_owned(),
        trust_tier: TrustTier::RequiredBuiltin,
        requires_services: names("asterism.history", "asterism.sync"),
        permissions,
    }
}

/// A plugin that the desktop program mounts.
#[derive(Clone, Copy, Debug, PartialEq, Eq, Structural)]
pub enum BootPlugin {
    Domain,
    History,
    Sync,
    Clipboard,
    Capture,
    Media,
    Actions,
}

/// The plugins in the order in which they are mounted.
pub open spec fn boot_order() -> Seq<BootPlugin> {
    seq![
        BootPlugin::Domain,
        BootPlugin::History,
        BootPlugin::Sync,
        BootPlugin::Clipboard,
        BootPlugin::Capture,
        BootPlugin::Media,
        BootPlugin::Actions,
    ]
}

/// The plugins in the order in which they are mounted.
pub fn boot_plan() -> (r: Vec<BootPlugin>)
    ensures
        r@ == boot_order(),
{
    let out: Vec<BootPlugin> = vec![
        BootPlugin::Domain,
        BootPlugin::History,
        BootPlugin::Sync,
        BootPlugin::Clipboard,
        BootPlugin::Capture,
        BootPlugin::Media,
        BootPlugin::Actions,
    ];
    assert(out@ =~= boot_order());
    out
}

/// The plugins that a plugin of the desktop program needs, as its manifest names
/// them.
pub open spec fn needs(p: BootPlugin) -> Set<BootPlugin> {
    match p {
        BootPlugin::Sync => set![BootPlugin::Domain],
        BootPlugin::Clipboard => set![BootPlugin::Domain, BootPlugin::Sync],
        BootPlugin::Actions => set![BootPlugin::History, BootPlugin::Sync],
        _ => Set::empty(),
    }
}

/// Each plugin is mounted after those that it needs.
pub proof fn needed_plugins_come_first(k: int, p: BootPlugin)
    requires
        0 <= k < boot_order().len(),
        needs(boot_order()[k]).contains(p),
    ensures
        exists|j: int| 0 <= j < k && #[trigger] boot_order()[j] == p,
{
    assert(boot_order()[0] == BootPlugin::Domain);
    assert(boot_order()[1] == BootPlugin::History);
    assert(boot_order()[2] == BootPlugin::Sync);
}

/// The built-in actions, in the order in which they are entered.
pub fn builtin_actions() -> (r: Vec<ActionKey>)
    ensures
        r@ == seq![
            ActionKey::Copy,
            ActionKey::Favorite,
            ActionKey::Delete,
            ActionKey::Save,
            ActionKey::Send,
        ],
{
    let out: Vec<ActionKey> = vec![
        ActionKey::Copy,
        ActionKey::Favorite,
        ActionKey::Delete,
        ActionKey::Save,
        ActionKey::Send,
    ];
    assert(out@ =~= seq![
        ActionKey::Copy,
        ActionKey::Favorite,
        ActionKey::Delete,
        ActionKey::Save,
        ActionKey::Send,
    ]);
    out
}

/// Every plugin is mounted, and none twice.
pub proof fn every_plugin_is_mounted(r: Vec<BootPlugin>, p: BootPlugin)
    requires
        call_ensures(boot_plan, (), r),
    ensures
        r@.len() == 7,
        r@.contains(p),
        r@.no_duplicates(),
        r@[0] == BootPlugin::Domain,
        forall|i: int, j: int|
            0 <= i < 7 && 0 <= j < 7 && #[trigger] r@[i] == BootPlugin::Sync && (#[trigger] r@[j]
                == BootPlugin::Clipboard || r@[j] == BootPlugin::Actions) ==> i < j,
        forall|i: int, j: int|
            0 <= i < 7 && 0 <= j < 7 && #[trigger] r@[i] == BootPlugin::History && #[trigger] r@[j]
                == BootPlugin::Actions ==> i < j,
{
    assert(r@[0] == BootPlugin::Domain);
    assert(r@[1] == BootPlugin::History);
    assert(r@[2] == BootPlugin::Sync);
    assert(r@[3] == BootPlugin::Clipboard);
    assert(r@[4] == BootPlugin::Capture);
    assert(r@[5] == BootPlugin::Media);
    assert(r@[6] == BootPlugin::Actions);
}

/// Every built-in action is entered, and none twice.
pub proof fn builtin_actions_are_entered(r: Vec<ActionKey>)
    requires
        call_ensures(builtin_actions, (), r),
    ensures
        r@.len() == 5,
        r@.contains(ActionKey::Copy) && r@.contains(ActionKey::Save) && r@.contains(
            ActionKey::Delete,
        ) && r@.contains(ActionKey::Favorite) && r@.contains(ActionKey::Send),
{
    assert(r@[0] == ActionKey::Copy);
    assert(r@[1] == ActionKey::Favorite);
    assert(r@[2] == ActionKey::Delete);
    assert(r@[3] == ActionKey::Save);
    assert(r@[4] == ActionKey::Send);
}

/// The plugins of the program belong to it, under different names, and have the
/// permissions that their work needs: to read items, the clipboard, and every action on an
/// item.
pub proof fn plugins_may_do_their_work(
    sync: PluginManifest,
    clipboard: PluginManifest,
    actions: PluginManifest,
)
    requires
        call_ensures(sync_manifest, (), sync),
        call_ensures(clipboard_manifest, (), clipboard),
        call_ensures(actions_manifest, (), actions),
    ensures
        sync.trust_tier == TrustTier::RequiredBuiltin,
        clipboard.trust_tier == TrustTier::RequiredBuiltin,
        actions.trust_tier == TrustTier::RequiredBuiltin,
        sync.id@ != clipboard.id@ && sync.id@ != actions.id@ && clipboard.id@ != actions.id@,
        texts(sync.permissions@).contains("content.read"@) && sync.permissions@.len() == 1,
        texts(clipboard.permissions@).contains("clipboard.read"@) && texts(
            clipboard.permissions@,
        ).contains("clipboard.write"@) && clipboard.permissions@.len() == 2,
        texts(actions.permissions@).contains("content.read"@) && texts(
            actions.permissions@,
        ).contains("content.favorite"@) && texts(actions.permissions@).contains(
            "content.delete"@,
        ) && texts(actions.permissions@).contains("clipboard.write"@) && actions.permissions@.len()
            == 4,
        texts(sync.requires_services@).contains("asterism.domain"@),
        texts(clipboard.requires_services@).contains(sync.id@) && texts(
            clipboard.requires_services@,
        ).contains("asterism.domain"@),
        texts(actions.requires_services@).contains(sync.id@) && texts(
            actions.requires_services@,
        ).contains("asterism.history"@),
{
    reveal_strlit("asterism.sync");
    reveal_strlit("asterism.clipboard");
    reveal_strlit("asterism.actions");
    assert("asterism.sync"@.len() == 13);
    assert("asterism.clipboard"@.len() == 18);
    assert("asterism.actions"@.len() == 16);
    assert(texts(sync.permissions@)[0] == "content.read"@);
    assert(texts(sync.permissions@).len() == sync.permissions@.len());
    assert(texts(clipboard.permissions@)[0] == "clipboard.read"@);
    assert(texts(clipboard.permissions@)[1] == "clipboard.write"@);
    assert(texts(clipboard.permissions@).len() == clipboard.permissions@.len());
    assert(texts(actions.permissions@)[0] == "content.read"@);
    assert(texts(actions.permissions@)[1] == "content.favorite"@);
    assert(texts(actions.permissions@)[2] == "content.delete"@);
    assert(texts(actions.permissions@)[3] == "clipboard.write"@);
    assert(texts(actions.permissions@).len() == actions.permissions@.len());
    assert(texts(sync.requires_services@)[0] == "asterism.domain"@);
    assert(texts(clipboard.requires_services@)[0] == "asterism.domain"@);
    assert(texts(clipboard.requires_services@)[1] == "asterism.sync"@);
    assert(texts(actions.requires_services@)[0] == "asterism.history"@);
    assert(texts(actions.requires_services@)[1] == "asterism.sync"@);
}


} // verus!
