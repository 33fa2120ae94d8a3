//! What the user has set.

use vstd::prelude::*;

use crate::path::{join_path, joined_path};
use crate::sync::webdav::WebdavConfig;

verus! {

/// The port on the local network unless another is set.
pub const DEFAULT_LAN_PORT: u16 = 47820;

/// How devices are kept in step.
#[derive(Debug)]
pub struct SyncSettings {
    pub hub_url: Option<String>,
    pub token: Option<String>,
    pub lan_port: u16,
    pub auto_sync: bool,
    pub auto_receive: bool,
    pub pending_pair_code: Option<String>,
    pub pending_pair_salt: Option<String>,
    pub hub_cert_sha256: Option<String>,
    pub webdav: Option<WebdavConfig>,
}

/// What a setting is unless it is set otherwise.
pub fn default_true() -> (r: bool)
    ensures
        r,
{
    true
}

/// What a setting is unless it is set otherwise.
pub fn default_false() -> (r: bool)
    ensures
        !r,
{
    false
}

impl Default for SyncSettings {
    fn default() -> (r: Self)
        ensures
            r == default_sync(),
    {
        SyncSettings {
            hub_url: None,
            token: None,
            lan_port: DEFAULT_LAN_PORT,
            auto_sync: true,
            auto_receive: true,
            pending_pair_code: None,
            pending_pair_salt: None,
            hub_cert_sha256: None,
            webdav: None,
        }
    }
}

/// How devices are kept in step unless it is set otherwise.
pub open spec fn default_sync() -> SyncSettings {
    SyncSettings {
        hub_url: None,
        token: None,
        lan_port: DEFAULT_LAN_PORT,
        auto_sync: true,
        auto_receive: true,
        pending_pair_code: None,
        pending_pair_salt: None,
        hub_cert_sha256: None,
        webdav: None,
    }
}

/// What reading gave, with a failure as its characters.
pub open spec fn read_view<S>(r: Result<S, String>) -> Result<S, Seq<char>> {
    match r {
        Ok(s) => Ok(s),
        Err(m) => Err(m@),
    }
}

/// What parsing a file gave if there is one, with a failure as its characters.
pub open spec fn parsed_view<S>(r: Option<Result<S, String>>) -> Option<Result<S, Seq<char>>> {
    match r {
        Some(p) => Some(read_view(p)),
        None => None,
    }
}

/// How devices are kept in step by what parsing the file gave.
pub open spec fn tried_sync(parsed: Option<Result<SyncSettings, Seq<char>>>) -> Result<
    SyncSettings,
    Seq<char>,
> {
    match parsed {
        None => Ok(default_sync()),
        Some(Ok(s)) => Ok(s),
        Some(Err(m)) => Err("invalid sync.toml: "@ + m),
    }
}

/// How devices are kept in step by what reading the settings gave.
pub open spec fn loaded_sync(read: Result<SyncSettings, Seq<char>>) -> SyncSettings {
    match read {
        Ok(s) => s,
        Err(_) => default_sync(),
    }
}

/// Settings load as they were saved, and the defaults load if there is no file or
/// if it cannot be parsed. `write` stands for the text of settings, and `parse`
/// for reading it.
pub proof fn sync_settings_load_as_saved(
    write: spec_fn(SyncSettings) -> Seq<char>,
    parse: spec_fn(Seq<char>) -> Result<SyncSettings, Seq<char>>,
    s: SyncSettings,
    file: Seq<char>,
)
    requires
        parse(write(s)) == Ok::<SyncSettings, Seq<char>>(s),
    ensures
        loaded_sync(tried_sync(Some(parse(write(s))))) == s,
        loaded_sync(tried_sync(None)) == default_sync(),
        parse(file) is Err ==> loaded_sync(tried_sync(Some(parse(file)))) == default_sync(),
{
}

/// Whether a hub has been set.
pub open spec fn names_hub(s: SyncSettings) -> bool {
    s.hub_url is Some && s.hub_url->0@.len() > 0
}

/// Whether the hub can be used.
pub open spec fn can_use_hub(s: SyncSettings) -> bool {
    s.auto_sync && names_hub(s) && s.token is Some
}

impl SyncSettings {
    /// The file of these settings.
    pub fn path(config_dir: &str) -> (r: String)
        ensures
            r@ == joined_path(config_dir@, "sync.toml"@),
    {
        join_path(config_dir, "sync.toml")
    }

    /// The settings from what parsing their file gave: the defaults if there is
    /// no file. What is wrong with a file is told.
    pub fn try_load(parsed: Option<Result<SyncSettings, String>>) -> (r: Result<SyncSettings, String>)
        ensures
            read_view(r) == tried_sync(parsed_view(parsed)),
    {
        match parsed {
            None => Ok(SyncSettings::default()),
            Some(Ok(s)) => Ok(s),
            Some(Err(m)) => {
                let mut e = "invalid sync.toml: ".to_owned();
                e.push_str(m.as_str());
                Err(e)
            },
        }
    }

    /// The settings from what reading their file gave: the defaults if it cannot
    /// be read.
    pub fn load(read: Result<SyncSettings, String>) -> (r: SyncSettings)
        ensures
            r == loaded_sync(read_view(read)),
    {
        match read {
            Ok(s) => s,
            Err(_) => SyncSettings::default(),
        }
    }

    /// Whether a hub has been set.
    pub fn has_hub(&self) -> (r: bool)
        ensures
            r == names_hub(*self),
    {
        match &self.hub_url {
            Some(u) => !u.as_str().is_empty(),
            None => false,
        }
    }

    /// Whether the hub can be used: synchronisation is on, a hub is set, and
    /// this device has a token for it.
    pub fn hub_ready(&self) -> (r: bool)
        ensures
            r == can_use_hub(*self),
    {
        self.auto_sync && self.has_hub() && self.token.is_some()
    }

    /// Whether the WebDAV folder can be used.
    pub fn webdav_ready(&self) -> (r: bool)
        ensures
            r == (self.auto_sync && self.webdav is Some && self.webdav->0.enabled
                && self.webdav->0.url@.len() > 0),
    {
        self.auto_sync && match &self.webdav {
            Some(w) => w.enabled && !w.url.as_str().is_empty(),
            None => false,
        }
    }

    /// Notes the certificate of the hub, if none is noted yet. Tells whether it
    /// was.
    pub fn pin_hub(&mut self, observed: Option<String>) -> (r: bool)
        ensures
            r == (old(self).hub_cert_sha256 is None && observed is Some),
            *final(self) == (if r {
                SyncSettings { hub_cert_sha256: observed, ..*old(self) }
            } else {
                *old(self)
            }),
    {
        if self.hub_cert_sha256.is_some() {
            return false;
        }
        match observed {
            Some(fp) => {
                self.hub_cert_sha256 = Some(fp);
                true
            },
            None => false,
        }
    }
}

/// The first of two values that is there.
pub open spec fn first_of(a: Option<String>, b: Option<String>) -> Option<String> {
    if a is Some {
        a
    } else {
        b
    }
}

/// The settings to be kept when new ones are saved over others: what the window
/// does not know of is taken over.
pub open spec fn merged(settings: SyncSettings, current: SyncSettings) -> SyncSettings {
    SyncSettings {
        hub_cert_sha256: first_of(settings.hub_cert_sha256, current.hub_cert_sha256),
        pending_pair_salt: first_of(settings.pending_pair_salt, current.pending_pair_salt),
        pending_pair_code: if settings.pending_pair_salt is None {
            first_of(current.pending_pair_code, settings.pending_pair_code)
        } else {
            settings.pending_pair_code
        },
        ..settings
    }
}

/// The settings to be kept when new ones are saved over others: the certificate
/// of the hub and the pairing that is going on are not lost.
pub fn save_sync_settings(settings: SyncSettings, current: SyncSettings) -> (r: SyncSettings)
    ensures
        r == merged(settings, current),
{
    let mut next = settings;
    if next.hub_cert_sha256.is_none() {
        next.hub_cert_sha256 = current.hub_cert_sha256;
    }
    if next.pending_pair_salt.is_none() {
        next.pending_pair_salt = current.pending_pair_salt;
        if current.pending_pair_code.is_some() {
            next.pending_pair_code = current.pending_pair_code;
        }
    }
    next
}

/// A certificate that was noted stays noted, whatever the window saves without
/// one.
pub proof fn pin_survives_saving(settings: SyncSettings, current: SyncSettings)
    requires
        settings.hub_cert_sha256 is None,
    ensures
        merged(settings, current).hub_cert_sha256 == current.hub_cert_sha256,
{
}

/// The keys that start actions from anywhere.
#[derive(Debug)]
pub struct ShortcutSettings {
    pub toggle_window: String,
    pub capture_region: String,
    pub capture_fullscreen: String,
    pub record_gif: String,
    pub record_video: String,
}

/// The keys that show and hide the window, unless others are set.
pub fn default_shortcut_toggle_window() -> (r: String)
    ensures
        r@ == "Alt+V"@,
{
    "Alt+V".to_owned()
}

/// The keys that capture a region, unless others are set.
pub fn default_shortcut_capture_region() -> (r: String)
    ensures
        r@ == "Alt+A"@,
{
    "Alt+A".to_owned()
}

/// The keys that capture the screen, unless others are set.
pub fn default_shortcut_capture_fullscreen() -> (r: String)
    ensures
        r@ == "Alt+S"@,
{
    "Alt+S".to_owned()
}

/// The keys that record a moving picture, unless others are set.
pub fn default_shortcut_record_gif() -> (r: String)
    ensures
        r@ == "Alt+G"@,
{
    "Alt+G".to_owned()
}

/// The keys that record a video, unless others are set.
pub fn default_shortcut_record_video() -> (r: String)
    ensures
        r@ == "Alt+R"@,
{
    "Alt+R".to_owned()
}

/// Whether keys are those that are set unless others are.
pub open spec fn are_default_shortcuts(s: ShortcutSettings) -> bool {
    &&& s.toggle_window@ == "Alt+V"@
    &&& s.capture_region@ == "Alt+A"@
    &&& s.capture_fullscreen@ == "Alt+S"@
    &&& s.record_gif@ == "Alt+G"@
    &&& s.record_video@ == "Alt+R"@
}

impl Default for ShortcutSettings {
    fn default() -> (r: Self)
        ensures
            are_default_shortcuts(r),
    {
        ShortcutSettings {
            toggle_window: default_shortcut_toggle_window(),
            capture_region: default_shortcut_capture_region(),
            capture_fullscreen: default_shortcut_capture_fullscreen(),
            record_gif: default_shortcut_record_gif(),
            record_video: default_shortcut_record_video(),
        }
    }
}

/// How the program behaves.
#[derive(Debug)]
pub struct AppSettings {
    pub close_to_tray: bool,
    pub minimize_to_tray: bool,
    pub autostart: bool,
    pub shortcuts: ShortcutSettings,
}

/// Whether the program behaves as it does unless it is set otherwise.
pub open spec fn are_default_settings(s: AppSettings) -> bool {
    s.close_to_tray && s.minimize_to_tray && !s.autostart && are_default_shortcuts(s.shortcuts)
}

/// Whether a result is what parsing the file of these settings leads to.
pub open spec fn is_tried(
    parsed: Option<Result<AppSettings, Seq<char>>>,
    r: Result<AppSettings, Seq<char>>,
) -> bool {
    match parsed {
        None => r is Ok && are_default_settings(r->Ok_0),
        Some(Ok(s)) => r == Ok::<AppSettings, Seq<char>>(s),
        Some(Err(m)) => r == Err::<AppSettings, Seq<char>>("invalid app_settings.toml: "@ + m),
    }
}

/// Whether settings are what reading them leads to.
pub open spec fn is_loaded(read: Result<AppSettings, Seq<char>>, r: AppSettings) -> bool {
    match read {
        Ok(s) => r == s,
        Err(_) => are_default_settings(r),
    }
}

/// Settings load as they were saved, and the defaults load if there is no file or
/// if it cannot be parsed. `write` stands for the text of settings, and `parse`
/// for reading it; `loaded`, `absent` and `broken` are what is loaded from what
/// was written, without a file, and from any file.
pub proof fn app_settings_load_as_saved(
    write: spec_fn(AppSettings) -> Seq<char>,
    parse: spec_fn(Seq<char>) -> Result<AppSettings, Seq<char>>,
    s: AppSettings,
    file: Seq<char>,
    tried: Result<AppSettings, Seq<char>>,
    loaded: AppSettings,
    tried_absent: Result<AppSettings, Seq<char>>,
    absent: AppSettings,
    tried_broken: Result<AppSettings, Seq<char>>,
    broken: AppSettings,
)
    requires
        parse(write(s)) == Ok::<AppSettings, Seq<char>>(s),
        is_tried(Some(parse(write(s))), tried),
        is_loaded(tried, loaded),
        is_tried(None, tried_absent),
        is_loaded(tried_absent, absent),
        is_tried(Some(parse(file)), tried_broken),
        is_loaded(tried_broken, broken),
    ensures
        loaded == s,
        are_default_settings(absent),
        parse(file) is Err ==> are_default_settings(broken),
{
}

impl Default for AppSettings {
    fn default() -> (r: Self)
        ensures
            are_default_settings(r),
    {
        AppSettings {
            close_to_tray: default_true(),
            minimize_to_tray: default_true(),
            autostart: default_false(),
            shortcuts: ShortcutSettings::default(),
        }
    }
}

impl AppSettings {
    /// The file of these settings.
    pub fn path(config_dir: &str) -> (r: String)
        ensures
            r@ == joined_path(config_dir@, "app_settings.toml"@),
    {
        join_path(config_dir, "app_settings.toml")
    }

    /// The settings from what parsing their file gave: the defaults if there is
    /// no file. What is wrong with a file is told.
    pub fn try_load(parsed: Option<Result<AppSettings, String>>) -> (r: Result<AppSettings, String>)
        ensures
            is_tried(parsed_view(parsed), read_view(r)),
    {
        match parsed {
            None => Ok(AppSettings::default()),
            Some(Ok(s)) => Ok(s),
            Some(Err(m)) => {
                let mut e = "invalid app_settings.toml: ".to_owned();
                e.push_str(m.as_str());
                Err(e)
            },
        }
    }

    /// The settings from what reading their file gave: the defaults if it cannot
    /// be read.
    pub fn load(read: Result<AppSettings, String>) -> (r: AppSettings)
        ensures
            is_loaded(read_view(read), r),
    {
        match read {
            Ok(s) => s,
            Err(_) => AppSettings::default(),
        }
    }

    /// Whether a request to close a window hides it instead. Only the main
    /// window can be hidden so.
    pub fn hides_on_close(&self, window: &str) -> (r: bool)
        ensures
            r == (window@ == "main"@ && self.close_to_tray),
    {
        crate::text::same_text(window, "main") && self.close_to_tray
    }
}

/// The hub is used just if synchronisation is on, a hub that is not empty is set, and
/// there is a token; the WebDAV folder just if synchronisation and it are on and its
/// address is not empty.
pub proof fn services_are_used_when_set(s: SyncSettings, has: bool, hub: bool, webdav: bool)
    requires
        call_ensures(SyncSettings::has_hub, (&s,), has),
        call_ensures(SyncSettings::hub_ready, (&s,), hub),
        call_ensures(SyncSettings::webdav_ready, (&s,), webdav),
    ensures
        has <==> s.hub_url is Some && s.hub_url->0@ != Seq::<char>::empty(),
        hub <==> s.auto_sync && has && s.token is Some,
        webdav <==> s.auto_sync && s.webdav is Some && s.webdav->0.enabled && s.webdav->0.url@
            != Seq::<char>::empty(),
{
    if s.hub_url is Some && s.hub_url->0@.len() == 0 {
        assert(s.hub_url->0@ =~= Seq::<char>::empty());
    }
    if s.webdav is Some && s.webdav->0.url@.len() == 0 {
        assert(s.webdav->0.url@ =~= Seq::<char>::empty());
    }
}

/// The first certificate of the hub that is seen is noted, and no other takes its place;
/// all other settings stay.
pub proof fn first_certificate_is_noted(s: &mut SyncSettings, observed: Option<String>, r: bool)
    requires
        call_ensures(SyncSettings::pin_hub, (s, observed), r),
    ensures
        old(s).hub_cert_sha256 is Some ==> !r && *final(s) == *old(s),
        old(s).hub_cert_sha256 is None ==> final(s).hub_cert_sha256 == observed && (r
            <==> observed is Some),
        final(s).hub_url == old(s).hub_url && final(s).token == old(s).token,
        final(s).lan_port == old(s).lan_port && final(s).webdav == old(s).webdav,
        final(s).auto_sync == old(s).auto_sync && final(s).auto_receive == old(s).auto_receive,
        final(s).pending_pair_code == old(s).pending_pair_code,
        final(s).pending_pair_salt == old(s).pending_pair_salt,
{
}

/// Saving keeps what the user set, whatever was set before. The certificate of the hub and
/// the pairing that goes on are kept if nothing new is set for them.
pub proof fn saved_settings_are_those_set(
    settings: SyncSettings,
    current: SyncSettings,
    r: SyncSettings,
)
    requires
        call_ensures(save_sync_settings, (settings, current), r),
    ensures
        r.hub_url == settings.hub_url && r.token == settings.token,
        r.lan_port == settings.lan_port && r.webdav == settings.webdav,
        r.auto_sync == settings.auto_sync && r.auto_receive == settings.auto_receive,
        settings.hub_cert_sha256 is Some ==> r.hub_cert_sha256 == settings.hub_cert_sha256,
        settings.hub_cert_sha256 is None ==> r.hub_cert_sha256 == current.hub_cert_sha256,
        settings.pending_pair_salt is Some ==> r.pending_pair_salt == settings.pending_pair_salt
            && r.pending_pair_code == settings.pending_pair_code,
        settings.pending_pair_salt is None ==> r.pending_pair_salt == current.pending_pair_salt,
        settings.pending_pair_salt is None && current.pending_pair_code is Some
            ==> r.pending_pair_code == current.pending_pair_code,
        settings.pending_pair_salt is None && current.pending_pair_code is None
            ==> r.pending_pair_code == settings.pending_pair_code,
{
}

/// Settings that can be read are loaded as they are; without a file, or from one that
/// cannot be read, nothing is set but that devices are kept in step.
pub proof fn settings_are_loaded(
    parsed: Option<Result<SyncSettings, String>>,
    tried: Result<SyncSettings, String>,
    r: SyncSettings,
    app_parsed: Option<Result<AppSettings, String>>,
    app_tried: Result<AppSettings, String>,
    app: AppSettings,
)
    requires
        call_ensures(SyncSettings::try_load, (parsed,), tried),
        call_ensures(SyncSettings::load, (tried,), r),
        call_ensures(AppSettings::try_load, (app_parsed,), app_tried),
        call_ensures(AppSettings::load, (app_tried,), app),
    ensures
        tried is Ok <==> parsed is None || parsed->0 is Ok,
        parsed is Some && parsed->0 is Ok ==> r == parsed->0->Ok_0,
        parsed is None || parsed->0 is Err ==> {
            &&& r.hub_url is None && r.token is None && r.webdav is None
            &&& r.lan_port == 47820 && r.auto_sync && r.auto_receive
            &&& r.pending_pair_code is None && r.pending_pair_salt is None
            &&& r.hub_cert_sha256 is None
        },
        app_tried is Ok <==> app_parsed is None || app_parsed->0 is Ok,
        app_parsed is Some && app_parsed->0 is Ok ==> app == app_parsed->0->Ok_0,
        app_parsed is None || app_parsed->0 is Err ==> {
            &&& app.close_to_tray && app.minimize_to_tray && !app.autostart
            &&& app.shortcuts.toggle_window@ == "Alt+V"@
            &&& app.shortcuts.capture_region@ == "Alt+A"@
            &&& app.shortcuts.capture_fullscreen@ == "Alt+S"@
            &&& app.shortcuts.record_gif@ == "Alt+G"@
            &&& app.shortcuts.record_video@ == "Alt+R"@
        },
{
}

/// Only the main window is hidden when it is closed, and only if that is set.
pub proof fn only_the_main_window_hides(s: AppSettings, window: &str, r: bool)
    requires
        call_ensures(AppSettings::hides_on_close, (&s, window), r),
    ensures
        r ==> window@ == "main"@,
        window@ == "main"@ ==> r == s.close_to_tray,
{
}


} // verus!
