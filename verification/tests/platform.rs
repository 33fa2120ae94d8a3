use asterism::content::DeviceId;
use asterism::platform::atomic::{atomic_write_next, temporary_extension, AtomicStep};
use asterism::platform::foreground::{foreground_app, from_executable, ForegroundApp};
use asterism::platform::hardening::{
    configure_autostart, ended_uncleanly, safe_join_relative, write_autostart_plist,
    write_linux_autostart_desktop, xml_escape, Autostart, JoinError, Platform,
};
use asterism::platform::identity::{default_device_name, LocalIdentity};
use asterism::platform::net::{
    fingerprint, local_candidates, network_changed, Interface, LanCandidate,
};
use asterism::platform::paths::{AppPaths, SystemDirs};
use asterism::platform::trust::TrustStore;
use asterism::sync::lan::IpText;

#[test]
fn clean_exit_allows_the_next_acquire() {
    // The marker is not there at first, and removed by a clean exit.
    assert!(!ended_uncleanly(false, 0));
    assert!(!ended_uncleanly(false, 7));
}

#[test]
fn a_marker_with_contents_tells_of_a_crash() {
    assert!(ended_uncleanly(true, 7));
    assert!(!ended_uncleanly(true, 0));
}

#[test]
fn path_traversal_prevention() {
    let base = "/var/app/data";
    assert!(safe_join_relative(base, "images/pic.png").is_ok());
    assert_eq!(
        safe_join_relative(base, "images/pic.png").unwrap(),
        "/var/app/data/images/pic.png"
    );
    assert!(safe_join_relative(base, "../etc/passwd").is_err());
    assert!(safe_join_relative(base, "sub/../../secret").is_err());
    assert!(safe_join_relative(base, "C:\\Windows\\system32").is_err());
    assert!(safe_join_relative(base, "file\0name").is_err());
}

#[test]
fn join_errors_tell_what_is_wrong() {
    let empty = safe_join_relative("/d", "//").unwrap_err();
    assert!(matches!(empty, JoinError::Invalid));
    assert_eq!(empty.message(), "invalid or empty relative path");
    let dot = safe_join_relative("/d", "a/./b").unwrap_err();
    assert!(matches!(dot, JoinError::Traversal));
    assert_eq!(dot.message(), "path traversal attempt detected");
    assert_eq!(safe_join_relative("/d", "\\a\\b").unwrap(), "/d/a/b");
}

#[test]
fn detect_is_non_empty() {
    let paths = AppPaths::detect(None, false, "/tmp");
    assert!(!paths.data_dir.is_empty());
    assert!(!paths.cache_dir.is_empty());
}

fn system_dirs() -> SystemDirs {
    SystemDirs {
        data_local_dir: "/h/data".to_string(),
        cache_dir: "/h/cache/asterism".to_string(),
        cache_parent: Some("/h/cache".to_string()),
        config_dir: "/h/config".to_string(),
    }
}

#[test]
fn paths_follow_the_system() {
    let fallback = AppPaths::detect(None, true, "/tmp");
    assert_eq!(fallback.data_dir, "/tmp/asterism");
    assert_eq!(fallback.cache_dir, "/tmp/asterism/cache");
    assert_eq!(fallback.config_dir, "/tmp/asterism/config");
    let other = AppPaths::detect(Some(system_dirs()), false, "/tmp");
    assert_eq!(other.data_dir, "/h/data");
    assert_eq!(other.cache_dir, "/h/cache/asterism");
    assert_eq!(other.config_dir, "/h/config");
    let mac = AppPaths::detect(Some(system_dirs()), true, "/tmp");
    assert_eq!(mac.cache_dir, "/h/cache/dev.asterism.desktop");
    assert_eq!(
        mac.ensure(),
        vec![
            "/h/data".to_string(),
            "/h/cache/dev.asterism.desktop/items".to_string(),
            "/h/config".to_string()
        ]
    );
    assert_eq!(other.item_cache("ab"), "/h/cache/asterism/items/ab");
}

#[test]
fn remove_drops_revoked_peer() {
    let mut store = TrustStore::load(Vec::new());
    let id = DeviceId { raw: 1 };
    store.add(id, "ab".repeat(32), "peer".into());
    assert!(store.contains_device(id));
    assert!(store.remove(id));
    assert!(!store.contains_device(id));
    let reloaded = TrustStore::load(store.peers);
    assert!(!reloaded.contains_device(id));
}

#[test]
fn trust_needs_device_and_fingerprint() {
    let mut store = TrustStore::load(Vec::new());
    let id = DeviceId { raw: 1 };
    store.add(id, "AB".repeat(32), "peer".into());
    assert!(store.is_trusted(id, &[0xab; 32]));
    assert!(!store.is_trusted(DeviceId { raw: 2 }, &[0xab; 32]));
    assert!(!store.is_trusted(id, &[0xac; 32]));
    assert!(store.is_trusted_fp(&[0xab; 32]));
    store.add(id, "cd".repeat(32), "renamed".into());
    assert_eq!(store.peers().len(), 1);
    assert_eq!(store.peers()[0].name, "renamed");
    assert!(!store.is_trusted_fp(&[0xab; 32]));
    store.add(DeviceId { raw: 2 }, "no hex".into(), "odd".into());
    assert_eq!(store.fingerprints(), vec![[0xcd; 32]]);
    assert!(!store.remove(DeviceId { raw: 3 }));
}

#[test]
fn atomic_write_goes_through_its_steps() {
    let mut step = AtomicStep::Create;
    let mut seen = 0;
    while !matches!(step, AtomicStep::Done | AtomicStep::Failed) {
        step = atomic_write_next(step, true);
        seen += 1;
    }
    assert!(matches!(step, AtomicStep::Done));
    assert_eq!(seen, 5);
    assert!(matches!(atomic_write_next(AtomicStep::Replace, false), AtomicStep::RemoveTemporary));
    assert!(matches!(atomic_write_next(AtomicStep::RemoveTemporary, true), AtomicStep::Failed));
    assert_eq!(temporary_extension(12, 34), "json.12.34.tmp");
}

#[test]
fn foreground_app_falls_back() {
    let none = foreground_app(None);
    assert!(none.name.is_none() && none.identifier.is_none());
    let app = foreground_app(Some(ForegroundApp { name: Some("Notes".into()), identifier: None }));
    assert_eq!(app.name.as_deref(), Some("Notes"));
    assert_eq!(from_executable(Some("notepad".into())).name.as_deref(), Some("notepad"));
}

#[test]
fn xml_is_escaped() {
    assert_eq!(xml_escape("a<b>&\"c'"), "a&lt;b&gt;&amp;&quot;c&apos;");
}

#[test]
fn autostart_files_name_the_program() {
    let plist = write_autostart_plist("a&b", "/bin/x");
    assert!(plist.contains("<key>Label</key><string>a&amp;b</string>"));
    assert!(plist.contains("<array><string>/bin/x</string></array>"));
    let desktop = write_linux_autostart_desktop("label", "/bin/x");
    assert_eq!(
        desktop,
        "[Desktop Entry]\nType=Application\nName=label\nExec=\"/bin/x\"\nHidden=false\nNoDisplay=false\nX-GNOME-Autostart-enabled=true\n"
    );
    match configure_autostart(Platform::Other, "/h", "label", "/bin/x") {
        Autostart::File { dir, path, body } => {
            assert_eq!(dir, "/h/.config/autostart");
            assert_eq!(path, "/h/.config/autostart/label.desktop");
            assert_eq!(body, desktop);
        }
        Autostart::Registry { .. } => panic!("expected a file"),
    }
    match configure_autostart(Platform::MacOs, "/h", "label", "/bin/x") {
        Autostart::File { path, .. } => {
            assert_eq!(path, "/h/Library/LaunchAgents/label.plist");
        }
        Autostart::Registry { .. } => panic!("expected a file"),
    }
    match configure_autostart(Platform::Windows, "/h", "label", "C:\\x.exe") {
        Autostart::Registry { value, report } => {
            assert_eq!(value, "\"C:\\x.exe\"");
            assert_eq!(
                report,
                "HKCU\\Software\\Microsoft\\Windows\\CurrentVersion\\Run -> label"
            );
        }
        Autostart::File { .. } => panic!("expected a registry entry"),
    }
}

#[test]
fn identity_is_kept_or_made() {
    let kept = LocalIdentity {
        device_id: DeviceId { raw: 1 },
        account_id: 2,
        device_name: "old".to_string(),
    };
    let (same, made) =
        LocalIdentity::load_or_create(Some(kept), DeviceId { raw: 3 }, 4, "new".to_string());
    assert_eq!(same.device_name, "old");
    assert!(!made);
    let (fresh, made) = LocalIdentity::load_or_create(None, DeviceId { raw: 3 }, 4, "new".into());
    assert_eq!(fresh.device_id, DeviceId { raw: 3 });
    assert_eq!(fresh.account_id, 4);
    assert!(made);
    assert_eq!(default_device_name(Some("host".into()), Platform::MacOs), "host");
    assert_eq!(default_device_name(Some(String::new()), Platform::MacOs), "Mac");
    assert_eq!(default_device_name(None, Platform::Windows), "Windows PC");
    assert_eq!(default_device_name(None, Platform::Other), "Asterism");
}

fn interface(name: &str, ip: IpText, loopback: bool) -> Interface {
    Interface { name: name.to_string(), ip, loopback }
}

#[test]
fn candidates_leave_out_loopback() {
    let v4 = LanCandidate { ip: IpText::V4("10.0.0.2".into()), port: 9 };
    assert_eq!(v4.endpoint(), "10.0.0.2:9");
    let v6 = LanCandidate { ip: IpText::V6("fe80::1".into()), port: 9 };
    assert_eq!(v6.endpoint(), "[fe80::1]:9");
    let all = [
        interface("lo", IpText::V4("127.0.0.1".into()), true),
        interface("en0", IpText::V4("10.0.0.2".into()), false),
    ];
    let found = local_candidates(&all, 9);
    assert_eq!(found.len(), 1);
    assert_eq!(found[0].endpoint(), "10.0.0.2:9");
}

#[test]
fn fingerprint_does_not_depend_on_order() {
    let a = [
        interface("lo", IpText::V4("127.0.0.1".into()), true),
        interface("en0", IpText::V4("10.0.0.2".into()), false),
    ];
    let b = [
        interface("en0", IpText::V4("10.0.0.2".into()), false),
        interface("lo", IpText::V4("127.0.0.1".into()), true),
    ];
    assert_eq!(fingerprint(&a), "en0=10.0.0.2|lo=127.0.0.1");
    assert_eq!(fingerprint(&a), fingerprint(&b));
    assert!(!network_changed(&fingerprint(&a), &fingerprint(&b)));
    assert!(network_changed(&fingerprint(&a), &fingerprint(&a[..1])));
}
