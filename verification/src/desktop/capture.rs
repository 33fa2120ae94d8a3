//! Captures of the screen: what is captured, what it is taken for, and what is
//! cleaned up.

use vstd::prelude::*;

use crate::content::{ContentFlags, ContentId, ContentKind, DeviceId};
use crate::desktop::recording::{selection_of, OverlayOutcome};
use crate::path::{join_path, joined_path};
use crate::platform::paths::AppPaths;
use crate::plugin::grant::{read_grant, ContentReadGrant, PermissionBroker, READ_LIMIT};
use crate::text::{decimal, decimal_text};

verus! {

/// What is to be recorded: a part of a monitor.
#[derive(Debug)]
pub struct RecordingTarget<M, S> {
    pub monitor: M,
    pub selection: S,
    pub width: u32,
    pub height: u32,
}

/// The part that the user chose, if any.
pub open spec fn chosen<S>(outcome: Option<OverlayOutcome<S>>) -> Option<S> {
    match outcome {
        Some(OverlayOutcome::Complete(s)) => Some(s),
        Some(OverlayOutcome::Download(s)) => Some(s),
        Some(OverlayOutcome::Pin(s)) => Some(s),
        Some(OverlayOutcome::Scroll(s)) => Some(s),
        _ => None,
    }
}

/// What is to be recorded, from the monitor, the user's choice, and the size of
/// the part chosen.
pub fn select_recording_target<M, S>(
    cancelled: bool,
    monitor: Option<M>,
    outcome: Option<OverlayOutcome<S>>,
    crop: Option<(u32, u32)>,
) -> (r: Result<RecordingTarget<M, S>, String>)
    ensures
        if cancelled {
            r matches Err(m) && m@ == "cancelled"@
        } else if monitor is None {
            r matches Err(m) && m@ == "no monitor"@
        } else if chosen(outcome) is None {
            r matches Err(m) && m@ == "cancelled"@
        } else {
            match crop {
                None => r matches Err(m) && m@ == "empty selection"@,
                Some((w, h)) => r == Ok::<RecordingTarget<M, S>, String>(
                    (RecordingTarget {
                        monitor: monitor->0,
                        selection: chosen(outcome)->0,
                        width: w,
                        height: h,
                    }),
                ),
            }
        },
{
    if cancelled {
        return Err("cancelled".to_owned());
    }
    let monitor = match monitor {
        Some(m) => m,
        None => return Err("no monitor".to_owned()),
    };
    let selection = match outcome {
        Some(o) => selection_of(o),
        None => None,
    };
    let selection = match selection {
        Some(s) => s,
        None => return Err("cancelled".to_owned()),
    };
    match crop {
        Some((width, height)) => Ok(RecordingTarget { monitor, selection, width, height }),
        None => Err("empty selection".to_owned()),
    }
}

/// Whether a recording whose time to start has come still starts.
pub fn wait_for_recording_start(stop_requested: bool) -> (r: Result<(), String>)
    ensures
        match r {
            Ok(_) => !stop_requested,
            Err(m) => stop_requested && m@ == "cancelled"@,
        },
{
    if stop_requested {
        Err("cancelled".to_owned())
    } else {
        Ok(())
    }
}

/// What something new in the history is taken for before it is looked at.
#[derive(Debug)]
pub struct ContentDraft {
    pub producer_plugin_id: String,
    pub source_device_id: DeviceId,
    pub source_event_id: String,
    pub change_token: Option<u64>,
    pub kind_hint: ContentKind,
    pub source_app: Option<String>,
    pub kind_override: Option<ContentKind>,
    pub mime_hint: Option<String>,
}

/// The draft of a capture of the screen, whose kind is certain. `event` is new
/// for each capture.
pub fn image_draft(
    producer: &str,
    own: DeviceId,
    event: String,
    kind: ContentKind,
    mime_hint: Option<String>,
) -> (r: ContentDraft)
    ensures
        r.producer_plugin_id@ == producer@,
        r.source_device_id == own,
        r.source_event_id == event,
        r.change_token is None,
        r.kind_hint == kind,
        r.source_app matches Some(a) && a@ == "asterism"@,
        r.kind_override == Some(kind),
        r.mime_hint == mime_hint,
{
    ContentDraft {
        producer_plugin_id: producer.to_owned(),
        source_device_id: own,
        source_event_id: event,
        change_token: None,
        kind_hint: kind,
        source_app: Some("asterism".to_owned()),
        kind_override: Some(kind),
        mime_hint,
    }
}

/// The draft of what was seen on the clipboard. The number of the change tells
/// one event from another.
pub fn clipboard_draft(own: DeviceId, change: u64, kind: ContentKind, source_app: Option<String>) -> (r:
    ContentDraft)
    ensures
        r.producer_plugin_id@ == "asterism.clipboard"@,
        r.source_device_id == own,
        r.source_event_id@ == decimal(change as nat),
        r.change_token == Some(change),
        r.kind_hint == kind,
        r.source_app == source_app,
        r.kind_override is None,
        r.mime_hint is None,
{
    ContentDraft {
        producer_plugin_id: "asterism.clipboard".to_owned(),
        source_device_id: own,
        source_event_id: decimal_text(change as u128),
        change_token: Some(change),
        kind_hint: kind,
        source_app,
        kind_override: None,
        mime_hint: None,
    }
}

/// The marks of a screenshot on the clipboard: it may leave this device.
pub fn screenshot_flags() -> (r: ContentFlags)
    ensures
        r == (ContentFlags {
            favorite: false,
            sensitive: false,
            local_only: false,
            transient: false,
            remote_allowed: true,
            from_remote: false,
            rest: 0,
        }),
{
    let mut flags = ContentFlags::empty();
    flags.remote_allowed = true;
    flags
}

/// The grant to read a picture, without which it is not shown.
pub fn image_grant(broker: &PermissionBroker, id: ContentId, now_ms: u64) -> (r: Result<
    ContentReadGrant,
    String,
>)
    ensures
        if broker.permits("content.read"@) {
            r matches Ok(g) && g@ == read_grant(id, READ_LIMIT, now_ms)
        } else {
            r matches Err(m) && m@ == "read grant denied"@
        },
{
    match broker.grant_read(id, now_ms) {
        Some(g) => Ok(g),
        None => Err("read grant denied".to_owned()),
    }
}

/// A capture that is going on, with the temporary paths it has made.
#[derive(Debug)]
pub struct CaptureSession {
    pub scope_id: u64,
    pub temps: Vec<String>,
}

/// The directory for the files of a capture.
pub open spec fn session_dir(cache_dir: Seq<char>, scope_id: nat) -> Seq<char> {
    joined_path(joined_path(cache_dir, "capture-sessions"@), decimal(scope_id))
}

impl CaptureSession {
    /// A capture that has made no files yet.
    pub fn new(scope_id: u64) -> (r: CaptureSession)
        ensures
            r.scope_id == scope_id,
            r.temps@.len() == 0,
    {
        CaptureSession { scope_id, temps: Vec::new() }
    }

    /// Notes a path to be removed when the capture ends.
    pub fn track_temp(&mut self, path: String)
        ensures
            final(self).scope_id == old(self).scope_id,
            final(self).temps@ == old(self).temps@.push(path),
    {
        self.temps.push(path);
    }

    /// The directory for the files of the capture, which is removed when it ends.
    pub fn temp_dir(&mut self, paths: &AppPaths) -> (r: String)
        ensures
            r@ == session_dir(paths.cache_dir@, old(self).scope_id as nat),
            final(self).scope_id == old(self).scope_id,
            final(self).temps@.len() == old(self).temps@.len() + 1,
            final(self).temps@.drop_last() == old(self).temps@,
            final(self).temps@.last()@ == r@,
    {
        let sessions = join_path(paths.cache_dir.as_str(), "capture-sessions");
        let number = decimal_text(self.scope_id as u128);
        let dir = join_path(sessions.as_str(), number.as_str());
        self.temps.push(dir.clone());
        assert(self.temps@.drop_last() =~= old(self).temps@);
        dir
    }

    /// The paths to be removed when the capture ends: the last made is removed
    /// first.
    pub fn removals(self) -> (r: Vec<String>)
        ensures
            r@ == self.temps@.reverse(),
    {
        let mut rest = self.temps;
        let mut out: Vec<String> = Vec::new();
        while rest.len() > 0
            invariant
                out@.len() + rest@.len() == self.temps@.len(),
                rest@ == self.temps@.take(rest@.len() as int),
                forall|i: int| 0 <= i < out@.len() ==> (#[trigger] out@[i]) == self.temps@[
                    self.temps@.len() - 1 - i],
            decreases rest@.len(),
        {
            let ghost before = rest@;
            match rest.pop() {
                Some(p) => {
                    assert(before == self.temps@.take(before.len() as int));
                    assert(rest@ =~= self.temps@.take(rest@.len() as int));
                    out.push(p);
                },
                None => {},
            }
        }
        assert(out@ =~= self.temps@.reverse());
        out
    }
}

/// A recording gets its target, `r`, just if there is a monitor on which the user chose a
/// part that is not empty, by whatever button; and then it is that part.
pub proof fn chosen_parts_are_recorded<M, S>(
    cancelled: bool,
    monitor: Option<M>,
    outcome: Option<OverlayOutcome<S>>,
    crop: Option<(u32, u32)>,
    r: Result<RecordingTarget<M, S>, String>,
)
    requires
        call_ensures(select_recording_target::<M, S>, (cancelled, monitor, outcome, crop), r),
    ensures
        r is Ok <==> !cancelled && monitor is Some && crop is Some && (outcome matches Some(o) && !(
        o is Cancel)),
        r is Ok ==> {
            let t = r->Ok_0;
            &&& t.monitor == monitor->0
            &&& outcome->0 matches OverlayOutcome::Complete(s) ==> t.selection == s
            &&& outcome->0 matches OverlayOutcome::Download(s) ==> t.selection == s
            &&& outcome->0 matches OverlayOutcome::Pin(s) ==> t.selection == s
            &&& outcome->0 matches OverlayOutcome::Scroll(s) ==> t.selection == s
            &&& Some((t.width, t.height)) == crop
        },
{
}

/// A recording starts when its time has come, unless it was stopped before.
pub proof fn unstopped_recordings_start(stop_requested: bool, r: Result<(), String>)
    requires
        call_ensures(wait_for_recording_start, (stop_requested,), r),
    ensures
        r is Ok <==> !stop_requested,
{
}

/// What is noted of a capture and of what was seen on the clipboard: the kind of a capture
/// is certain, and two changes of the clipboard never make the same event.
pub proof fn drafts_tell_events_apart(
    producer: &str,
    own: DeviceId,
    event: String,
    kind: ContentKind,
    mime: Option<String>,
    image: ContentDraft,
    c1: u64,
    c2: u64,
    app: Option<String>,
    d1: ContentDraft,
    d2: ContentDraft,
)
    requires
        call_ensures(image_draft, (producer, own, event, kind, mime), image),
        call_ensures(clipboard_draft, (own, c1, kind, app), d1),
        call_ensures(clipboard_draft, (own, c2, kind, app), d2),
    ensures
        image.source_event_id == event && image.source_device_id == own && image.mime_hint == mime,
        image.producer_plugin_id@ == producer@ && image.kind_hint == kind,
        image.kind_override == Some(kind) && image.change_token is None,
        image.source_app is Some && image.source_app->0@ == "asterism"@,
        d1.kind_override is None && d1.mime_hint is None,
        d1.source_device_id == own && d1.kind_hint == kind && d1.source_app == app,
        d1.producer_plugin_id@ == "asterism.clipboard"@,
        d1.change_token == Some(c1),
        c1 != c2 ==> d1.source_event_id@ != d2.source_event_id@,
{
    crate::text::integers_read_back(c1 as int, decimal(c1 as nat));
    crate::text::integers_read_back(c2 as int, decimal(c2 as nat));
}

/// A screenshot is kept in the history and may leave this device.
pub proof fn screenshots_may_leave(flags: ContentFlags)
    requires
        call_ensures(screenshot_flags, (), flags),
    ensures
        flags.remote_allowed,
        !flags.sensitive && !flags.local_only && !flags.transient,
        !flags.favorite && !flags.from_remote && flags.rest == 0,
{
}

/// The program may read pictures, each by a grant of its own for up to 64 MiB.
pub proof fn pictures_are_granted(
    broker: PermissionBroker,
    id: ContentId,
    now_ms: u64,
    r: Result<ContentReadGrant, String>,
    direct: Option<ContentReadGrant>,
)
    requires
        call_ensures(image_grant, (&broker, id, now_ms), r),
        call_ensures(PermissionBroker::grant_read, (&broker, id, now_ms), direct),
    ensures
        r is Ok <==> direct is Some,
        broker.of_host() ==> r is Ok,
        r is Ok ==> r->Ok_0@.content_id == id && r->Ok_0@.max_bytes == 64 * 1024 * 1024,
{
}

/// A path that was noted is removed when the capture ends, and the last noted goes first.
pub proof fn noted_paths_are_removed(session: &mut CaptureSession, path: String, r: (), all: Vec<String>)
    requires
        call_ensures(CaptureSession::track_temp, (session, path), r),
        call_ensures(CaptureSession::removals, (*final(session),), all),
    ensures
        final(session).scope_id == old(session).scope_id,
        all@.len() == old(session).temps@.len() + 1,
        all@[0] == path,
        forall|i: int|
            0 <= i < old(session).temps@.len() ==> all@[all@.len() - 1 - i]
                == #[trigger] old(session).temps@[i],
{
}

/// A new capture has nothing to remove. Its directory is noted to be removed, and is
/// inside the directory for temporary files.
pub proof fn directories_of_captures_are_removed(
    scope: u64,
    new: CaptureSession,
    session: &mut CaptureSession,
    paths: AppPaths,
    r: String,
    all: Vec<String>,
)
    requires
        call_ensures(CaptureSession::new, (scope,), new),
        call_ensures(CaptureSession::temp_dir, (session, &paths), r),
        call_ensures(CaptureSession::removals, (*final(session),), all),
    ensures
        new.temps@.len() == 0 && new.scope_id == scope,
        all@.len() == old(session).temps@.len() + 1,
        all@[0]@ == r@,
        paths.cache_dir@.is_prefix_of(r@),
        decimal(old(session).scope_id as nat).is_suffix_of(r@),
{
    let inner = joined_path(paths.cache_dir@, "capture-sessions"@);
    let n = decimal(old(session).scope_id as nat);
    crate::text::integers_read_back(old(session).scope_id as int, n);
    reveal_strlit("capture-sessions");
    assert("capture-sessions"@.len() == 16);
    crate::path::joined_path_is_inside(paths.cache_dir@, "capture-sessions"@);
    crate::path::joined_path_is_inside(inner, n);
}


} // verus!
