use asterism::content::{ContentId, ContentKind};
use asterism::desktop::plugins::{
    actions_manifest, boot_plan, builtin_actions, clipboard_manifest, sync_manifest, BootPlugin,
};
use asterism::plugin::action::{ActionError, ActionRegistry};
use asterism::plugin::grant::{ContentHandle, DeclaredPermissions, PermissionBroker};
use asterism::plugin::ids::{ActionId, ActionKey, PluginManifest, TrustTier};

const ID: ContentId = ContentId { raw: 7 };

#[derive(Debug, PartialEq)]
enum ActionResult {
    Copied { id: ContentId },
    Saved { path: String },
}

type Handler = Box<dyn Fn(ContentId, Option<String>) -> Result<ActionResult, ActionError>>;

#[test]
fn maps_legacy_wire_names() {
    assert_eq!(ActionKey::from_user("copy").unwrap(), ActionKey::Copy);
    assert_eq!(ActionKey::from_user("asterism.history.delete").unwrap(), ActionKey::Delete);
}

#[test]
fn every_wire_name_is_known() {
    let names = [
        ("copy", "asterism.history.copy", ActionKey::Copy, ActionId::Copy),
        ("save", "asterism.history.save", ActionKey::Save, ActionId::Save),
        ("delete", "asterism.history.delete", ActionKey::Delete, ActionId::Delete),
        ("favorite", "asterism.history.favorite", ActionKey::Favorite, ActionId::Favorite),
        ("send_to_device", "asterism.sync.send_to_device", ActionKey::Send, ActionId::SendToDevice),
    ];
    for (short, long, key, legacy) in names {
        assert_eq!(ActionKey::from_user(short).unwrap(), key);
        assert_eq!(ActionKey::from_user(long).unwrap(), key);
        assert_eq!(ActionKey::from_legacy(legacy), key);
        assert_eq!(key.as_str(), long);
    }
    assert_eq!(ActionKey::CaptureFullscreen.as_str(), "asterism.capture.screenshot");
    assert_eq!(ActionKey::CaptureRegion.as_str(), "asterism.capture.region");
    assert!(ActionKey::from_user("asterism.capture.region").is_err());
    assert!(ActionKey::from_user("Copy").is_err());
}

#[test]
fn unknown_action_fails() {
    let registry: ActionRegistry<Handler> = ActionRegistry::new();
    assert!(registry.execute(ActionKey::Copy, ID, None).is_err());
    assert!(matches!(
        registry.execute(ActionKey::Copy, ID, None),
        Err(ActionError::Failed(m)) if m == "unknown action asterism.history.copy"
    ));
}

#[test]
fn registered_action_runs() {
    let mut registry: ActionRegistry<Handler> = ActionRegistry::new();
    registry.register(ActionKey::Copy, Box::new(|id, _| Ok(ActionResult::Copied { id })));
    assert_eq!(
        registry.execute(ActionKey::Copy, ID, None).unwrap(),
        ActionResult::Copied { id: ID }
    );
}

#[test]
fn a_later_registration_replaces_an_earlier_one() {
    let calls = std::rc::Rc::new(std::cell::Cell::new(0));
    let counter = std::rc::Rc::clone(&calls);
    let mut registry: ActionRegistry<Handler> = ActionRegistry::new();
    registry.register(ActionKey::Copy, Box::new(|_, _| Err(ActionError::Unsupported)));
    registry.register(
        ActionKey::Save,
        Box::new(|_, path| Ok(ActionResult::Saved { path: path.unwrap_or_default() })),
    );
    registry.register(
        ActionKey::Copy,
        Box::new(move |id, _| {
            counter.set(counter.get() + 1);
            Ok(ActionResult::Copied { id })
        }),
    );
    assert_eq!(
        registry.execute(ActionKey::Copy, ID, None).unwrap(),
        ActionResult::Copied { id: ID }
    );
    assert_eq!(calls.get(), 1);
    assert_eq!(
        registry.execute(ActionKey::Save, ID, Some("/a".to_string())).unwrap(),
        ActionResult::Saved { path: "/a".to_string() }
    );
    registry.register(ActionKey::Save, Box::new(|_, _| Err(ActionError::Failed("full".into()))));
    assert!(matches!(
        registry.execute(ActionKey::Save, ID, None),
        Err(ActionError::Failed(m)) if m == "full"
    ));
    assert!(registry.contains(ActionKey::Save));
    let own = ActionKey::Named("a.plugin.print");
    assert!(!registry.contains(own));
    registry.register(own, Box::new(|id, _| Ok(ActionResult::Copied { id })));
    assert!(registry.execute(own, ID, None).is_ok());
    assert!(registry.contains(ActionKey::Named("asterism.history.save")));
    assert_eq!(ActionKey::Named("asterism.history.save"), ActionKey::Save);
    assert_ne!(own, ActionKey::Save);
    assert!(!registry.contains(ActionKey::Send));
}

#[test]
fn expired_grant_is_invalid() {
    let grant = PermissionBroker::host().grant_read(ID, 0).unwrap();
    assert!(!grant.is_valid(ID, 60_000));
    assert!(!grant.is_valid(ID, 60_002));
}

#[test]
fn grant_is_valid_for_a_minute_and_for_its_item_only() {
    let grant = PermissionBroker::host().grant_read(ID, 1_000).unwrap();
    assert!(grant.is_valid(ID, 1_000));
    assert!(grant.is_valid(ID, 60_999));
    assert!(!grant.is_valid(ID, 61_001));
    assert!(!grant.is_valid(ContentId { raw: 8 }, 1_000));
    assert_eq!(grant.max_bytes(), 64 * 1024 * 1024);
    assert_eq!(grant.content_id(), ID);
}

#[test]
fn plugin_broker_cannot_issue_host_or_undeclared_grants() {
    let plugin = PermissionBroker::for_plugin(&["content.read"]);
    assert!(plugin.grant_read(ID, 0).is_some());
    assert!(plugin.grant_command(ID, false, true).is_none());
    assert!(plugin.grant_host_transfer(ID, 0).is_none());
    assert!(plugin.grant_history().is_none());
    assert!(plugin.grant_write_selected("/tmp/out".to_string()).is_none());
    assert!(plugin.grant_save(ID, ContentKind::Gif, 0).is_none());
}

#[test]
fn save_grant_matches_copy_limits_and_needs_both_permissions() {
    let save = PermissionBroker::for_plugin(&["content.read", "filesystem.write.selected"]);
    let gif = save.grant_save(ID, ContentKind::Gif, 0).unwrap();
    let copy = PermissionBroker::for_plugin(&["clipboard.write"])
        .grant_copy(ID, ContentKind::Gif, 0)
        .unwrap();
    assert_eq!(gif.max_bytes(), copy.max_bytes());
    assert_eq!(gif.max_bytes(), 2 * 1024 * 1024 * 1024);
    assert!(
        PermissionBroker::for_plugin(&["content.read"])
            .grant_save(ID, ContentKind::Gif, 0)
            .is_none()
    );
}

#[test]
fn host_broker_can_transfer() {
    let host = PermissionBroker::host();
    assert!(host.is_host());
    assert!(host.grant_host_transfer(ID, 0).is_some());
    assert!(host.grant_command(ID, true, true).is_some());
    assert!(host.grant_history().is_some());
    assert!(host.grant_write_selected("/tmp/out".to_string()).is_some());
}

#[test]
fn command_grant_needs_a_command_and_its_permission() {
    let host = PermissionBroker::host();
    assert!(host.grant_command(ID, false, false).is_none());
    let manifest = PluginManifest {
        id: "a.plugin".to_string(),
        trust_tier: TrustTier::Other(1),
        requires_services: Vec::new(),
        permissions: vec!["content.favorite".to_string()],
    };
    let plugin = PermissionBroker::for_declared(DeclaredPermissions::of_mounted(manifest.kernel()));
    assert!(!plugin.is_host());
    let grant = plugin.grant_command(ID, true, false).unwrap();
    assert!(grant.favorite());
    assert!(!grant.delete());
    assert_eq!(grant.content_id(), ID);
    assert!(plugin.grant_command(ID, true, true).is_none());
    assert!(plugin.grant_read_handle(ContentHandle { id: ID }, 0).is_none());
}

#[test]
fn byte_limits_follow_the_kind() {
    assert_eq!(PermissionBroker::max_bytes_for(ContentKind::Files), u64::MAX);
    assert_eq!(PermissionBroker::max_bytes_for(ContentKind::Video), 2147483648);
    assert_eq!(PermissionBroker::max_bytes_for(ContentKind::Text), 67108864);
    let host = PermissionBroker::host();
    let handed = host.grant_read_handle(ContentHandle { id: ID }, 5).unwrap();
    assert_eq!(handed.max_bytes(), 67108864);
    assert_eq!(host.grant_host_transfer(ID, 5).unwrap().max_bytes(), u64::MAX);
    assert_eq!(host.grant_write_selected("/a".to_string()).unwrap().path(), "/a");
}

#[test]
fn desktop_plugins_declare_what_they_need() {
    let sync = sync_manifest().kernel();
    assert_eq!(sync.id, "asterism.sync");
    assert_eq!(sync.requires_services, vec!["asterism.domain".to_string()]);
    assert_eq!(sync.permissions, vec!["content.read".to_string()]);
    assert_eq!(sync.trust_tier, TrustTier::RequiredBuiltin);
    let clipboard = clipboard_manifest();
    assert_eq!(clipboard.trust_tier, TrustTier::RequiredBuiltin);
    assert_eq!(clipboard.requires_services[1], "asterism.sync");
    assert_eq!(clipboard.permissions[1], "clipboard.write");
    let actions = actions_manifest();
    assert_eq!(actions.trust_tier, TrustTier::RequiredBuiltin);
    assert_eq!(actions.requires_services[0], "asterism.history");
    assert_eq!(actions.permissions.len(), 4);
    let broker = PermissionBroker::for_declared(DeclaredPermissions::of_mounted(actions.kernel()));
    assert!(broker.grant_command(ID, true, true).is_some());
    assert!(broker.grant_write_selected("/a".to_string()).is_none());
    assert_eq!(builtin_actions()[4], ActionKey::Send);
    let plan = boot_plan();
    assert_eq!(plan.len(), 7);
    assert_eq!((plan[0], plan[6]), (BootPlugin::Domain, BootPlugin::Actions));
}
