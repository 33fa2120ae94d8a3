//! The names of actions, and what plugins declare of themselves.

use vstd::prelude::*;

use crate::text::same_text;

verus! {

/// An action on an item. Actions with the same full name are the same.
#[derive(Clone, Copy, Debug, Eq)]
pub enum ActionKey {
    Copy,
    Save,
    Delete,
    Favorite,
    Send,
    CaptureFullscreen,
    CaptureRegion,
    /// The action with a full name, which a plugin may choose.
    Named(&'static str),
}

impl PartialEq for ActionKey {
    fn eq(&self, other: &Self) -> (r: bool) {
        same_text(self.as_str(), other.as_str())
    }
}

impl vstd::std_specs::cmp::PartialEqSpecImpl for ActionKey {
    open spec fn obeys_eq_spec() -> bool {
        true
    }

    open spec fn eq_spec(&self, other: &Self) -> bool {
        action_name(*self) == action_name(*other)
    }
}

/// An action as earlier versions named it.
#[derive(Clone, Copy, Debug, PartialEq, Eq, Structural)]
pub enum ActionId {
    Copy,
    Save,
    Delete,
    Favorite,
    SendToDevice,
}

/// The full name of an action.
pub open spec fn action_name(key: ActionKey) -> Seq<char> {
    match key {
        ActionKey::Copy => "asterism.history.copy"@,
        ActionKey::Save => "asterism.history.save"@,
        ActionKey::Delete => "asterism.history.delete"@,
        ActionKey::Favorite => "asterism.history.favorite"@,
        ActionKey::Send => "asterism.sync.send_to_device"@,
        ActionKey::CaptureFullscreen => "asterism.capture.screenshot"@,
        ActionKey::CaptureRegion => "asterism.capture.region"@,
        ActionKey::Named(name) => name@,
    }
}

/// The short name of an action that users may ask for, if it has one.
pub open spec fn short_name(key: ActionKey) -> Option<Seq<char>> {
    match key {
        ActionKey::Copy => Some("copy"@),
        ActionKey::Save => Some("save"@),
        ActionKey::Delete => Some("delete"@),
        ActionKey::Favorite => Some("favorite"@),
        ActionKey::Send => Some("send_to_device"@),
        _ => None,
    }
}

/// Whether a name is that of an action that users may ask for.
pub open spec fn names_action(raw: Seq<char>, key: ActionKey) -> bool {
    short_name(key) is Some && (raw == short_name(key)->0 || raw == action_name(key))
}

impl ActionKey {
    /// The full name of the action.
    pub fn as_str(self) -> (r: &'static str)
        ensures
            r@ == action_name(self),
    {
        match self {
            ActionKey::Copy => "asterism.history.copy",
            ActionKey::Save => "asterism.history.save",
            ActionKey::Delete => "asterism.history.delete",
            ActionKey::Favorite => "asterism.history.favorite",
            ActionKey::Send => "asterism.sync.send_to_device",
            ActionKey::CaptureFullscreen => "asterism.capture.screenshot",
            ActionKey::CaptureRegion => "asterism.capture.region",
            ActionKey::Named(name) => name,
        }
    }

    /// The action that an earlier version named so.
    pub fn from_legacy(id: ActionId) -> (r: ActionKey)
        ensures
            r == (match id {
                ActionId::Copy => ActionKey::Copy,
                ActionId::Save => ActionKey::Save,
                ActionId::Delete => ActionKey::Delete,
                ActionId::Favorite => ActionKey::Favorite,
                ActionId::SendToDevice => ActionKey::Send,
            }),
    {
        match id {
            ActionId::Copy => ActionKey::Copy,
            ActionId::Save => ActionKey::Save,
            ActionId::Delete => ActionKey::Delete,
            ActionId::Favorite => ActionKey::Favorite,
            ActionId::SendToDevice => ActionKey::Send,
        }
    }

    /// The action that a user asks for by its short or its full name. Captures
    /// cannot be asked for so. What is no name is handed back.
    pub fn from_user(raw: &str) -> (r: Result<ActionKey, String>)
        ensures
            match r {
                Ok(key) => names_action(raw@, key),
                Err(s) => s@ == raw@ && forall|key: ActionKey| !names_action(raw@, key),
            },
    {
        if same_text(raw, "copy") || same_text(raw, "asterism.history.copy") {
            Ok(ActionKey::Copy)
        } else if same_text(raw, "save") || same_text(raw, "asterism.history.save") {
            Ok(ActionKey::Save)
        } else if same_text(raw, "delete") || same_text(raw, "asterism.history.delete") {
            Ok(ActionKey::Delete)
        } else if same_text(raw, "favorite") || same_text(raw, "asterism.history.favorite") {
            Ok(ActionKey::Favorite)
        } else if same_text(raw, "send_to_device") || same_text(
            raw,
            "asterism.sync.send_to_device",
        ) {
            Ok(ActionKey::Send)
        } else {
            Err(raw.to_owned())
        }
    }
}

/// A name is that of one action at most.
pub proof fn names_are_unambiguous(raw: Seq<char>, a: ActionKey, b: ActionKey)
    requires
        names_action(raw, a),
        names_action(raw, b),
    ensures
        a == b,
{
    reveal_strlit("copy");
    reveal_strlit("save");
    reveal_strlit("delete");
    reveal_strlit("favorite");
    reveal_strlit("send_to_device");
    reveal_strlit("asterism.history.copy");
    reveal_strlit("asterism.history.save");
    reveal_strlit("asterism.history.delete");
    reveal_strlit("asterism.history.favorite");
    reveal_strlit("asterism.sync.send_to_device");
    assert("copy"@[0] == 'c' && "save"@[0] == 's');
    assert("asterism.history.copy"@[17] == 'c' && "asterism.history.save"@[17] == 's');
    assert("copy"@.len() == 4 && "save"@.len() == 4 && "delete"@.len() == 6);
    assert("favorite"@.len() == 8 && "send_to_device"@.len() == 14);
    assert("asterism.history.copy"@.len() == 21 && "asterism.history.save"@.len() == 21);
    assert("asterism.history.delete"@.len() == 23 && "asterism.history.favorite"@.len() == 25);
    assert("asterism.sync.send_to_device"@.len() == 28);
}

/// How far a plugin is trusted.
#[derive(Clone, Copy, Debug, PartialEq, Eq, Structural)]
pub enum TrustTier {
    /// As part of the program, which does not run without it.
    RequiredBuiltin,
    /// As another level of the kernel says.
    Other(u32),
}

/// What a plugin declares of itself.
#[derive(Debug)]
pub struct PluginManifest {
    pub id: String,
    pub trust_tier: TrustTier,
    pub requires_services: Vec<String>,
    pub permissions: Vec<String>,
}

/// What the kernel is told of a plugin.
#[derive(Debug)]
pub struct KernelManifest {
    pub id: String,
    pub requires_services: Vec<String>,
    pub permissions: Vec<String>,
    pub trust_tier: TrustTier,
}

impl PluginManifest {
    /// What the kernel is told of the plugin.
    pub fn kernel(self) -> (r: KernelManifest)
        ensures
            r.id == self.id,
            r.requires_services == self.requires_services,
            r.permissions == self.permissions,
            r.trust_tier == self.trust_tier,
    {
        KernelManifest {
            id: self.id,
            requires_services: self.requires_services,
            permissions: self.permissions,
            trust_tier: self.trust_tier,
        }
    }
}

/// An action that a user asks for is found by its short and by its full name, captures by
/// neither; and every action of earlier versions has the name that it had.
pub proof fn actions_are_found_by_name(
    raw: &str,
    r: Result<ActionKey, String>,
    id: ActionId,
    key: ActionKey,
)
    requires
        call_ensures(ActionKey::from_user, (raw,), r),
        call_ensures(ActionKey::from_legacy, (id,), key),
    ensures
        raw@ == "copy"@ || raw@ == "asterism.history.copy"@ <==> r is Ok && r->Ok_0 is Copy,
        raw@ == "save"@ || raw@ == "asterism.history.save"@ <==> r is Ok && r->Ok_0 is Save,
        raw@ == "delete"@ || raw@ == "asterism.history.delete"@ <==> r is Ok && r->Ok_0 is Delete,
        raw@ == "favorite"@ || raw@ == "asterism.history.favorite"@ <==> r is Ok
            && r->Ok_0 is Favorite,
        raw@ == "send_to_device"@ || raw@ == "asterism.sync.send_to_device"@ <==> r is Ok
            && r->Ok_0 is Send,
        r is Ok ==> r->Ok_0 is Copy || r->Ok_0 is Save || r->Ok_0 is Delete || r->Ok_0 is Favorite
            || r->Ok_0 is Send,
        r is Err ==> r->Err_0@ == raw@,
        id == ActionId::Copy <==> key is Copy,
        id == ActionId::Save <==> key is Save,
        id == ActionId::Delete <==> key is Delete,
        id == ActionId::Favorite <==> key is Favorite,
        id == ActionId::SendToDevice <==> key is Send,
{
    if let Ok(k) = r {
        if names_action(raw@, ActionKey::Copy) {
            names_are_unambiguous(raw@, k, ActionKey::Copy);
        }
        if names_action(raw@, ActionKey::Save) {
            names_are_unambiguous(raw@, k, ActionKey::Save);
        }
        if names_action(raw@, ActionKey::Delete) {
            names_are_unambiguous(raw@, k, ActionKey::Delete);
        }
        if names_action(raw@, ActionKey::Favorite) {
            names_are_unambiguous(raw@, k, ActionKey::Favorite);
        }
        if names_action(raw@, ActionKey::Send) {
            names_are_unambiguous(raw@, k, ActionKey::Send);
        }
    } else {
        assert(!names_action(raw@, ActionKey::Copy));
        assert(!names_action(raw@, ActionKey::Save));
        assert(!names_action(raw@, ActionKey::Delete));
        assert(!names_action(raw@, ActionKey::Favorite));
        assert(!names_action(raw@, ActionKey::Send));
    }
}

/// The full names of the actions.
pub proof fn actions_have_full_names(key: ActionKey, r: &'static str)
    requires
        call_ensures(ActionKey::as_str, (key,), r),
    ensures
        key is Copy ==> r@ == "asterism.history.copy"@,
        key is Save ==> r@ == "asterism.history.save"@,
        key is Delete ==> r@ == "asterism.history.delete"@,
        key is Favorite ==> r@ == "asterism.history.favorite"@,
        key is Send ==> r@ == "asterism.sync.send_to_device"@,
        key is CaptureFullscreen ==> r@ == "asterism.capture.screenshot"@,
        key is CaptureRegion ==> r@ == "asterism.capture.region"@,
        key matches ActionKey::Named(n) ==> r@ == n@,
{
}

/// The kernel is told what the plugin declares.
pub proof fn the_kernel_is_told_everything(m: PluginManifest, r: KernelManifest)
    requires
        call_ensures(PluginManifest::kernel, (m,), r),
    ensures
        r.id@ == m.id@,
        r.requires_services@ == m.requires_services@,
        r.permissions@ == m.permissions@,
        r.trust_tier == m.trust_tier,
{
}


} // verus!
