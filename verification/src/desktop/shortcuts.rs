//! Keys and menu entries that start actions.

use vstd::prelude::*;

use crate::desktop::settings::ShortcutSettings;
use crate::text::{same_text, trim, trimmed};

verus! {

/// The frames per second of a moving picture that is started by a key.
pub const SHORTCUT_GIF_FPS: u16 = 15;

/// The frames per second of a video that is started by a key.
pub const SHORTCUT_VIDEO_FPS: u32 = 30;

/// What a key or a menu entry starts.
#[derive(Clone, Copy, Debug, PartialEq, Eq, Structural)]
pub enum ShortcutAction {
    ToggleWindow,
    CaptureRegion,
    CaptureFullscreen,
    RecordGif,
    RecordVideo,
}

/// The name of an action.
pub open spec fn shortcut_name(a: ShortcutAction) -> Seq<char> {
    match a {
        ShortcutAction::ToggleWindow => "toggle_window"@,
        ShortcutAction::CaptureRegion => "capture_region"@,
        ShortcutAction::CaptureFullscreen => "capture_fullscreen"@,
        ShortcutAction::RecordGif => "record_gif"@,
        ShortcutAction::RecordVideo => "record_video"@,
    }
}

impl ShortcutAction {
    /// The action with a name.
    pub fn from_name(name: &str) -> (r: Option<ShortcutAction>)
        ensures
            match r {
                Some(a) => shortcut_name(a) == name@,
                None => forall|b: ShortcutAction| #[trigger] shortcut_name(b) != name@,
            },
    {
        if same_text(name, "toggle_window") {
            Some(ShortcutAction::ToggleWindow)
        } else if same_text(name, "capture_region") {
            Some(ShortcutAction::CaptureRegion)
        } else if same_text(name, "capture_fullscreen") {
            Some(ShortcutAction::CaptureFullscreen)
        } else if same_text(name, "record_gif") {
            Some(ShortcutAction::RecordGif)
        } else if same_text(name, "record_video") {
            Some(ShortcutAction::RecordVideo)
        } else {
            None
        }
    }
}

/// The main window.
#[derive(Clone, Copy, Debug, PartialEq, Eq, Structural)]
pub struct WindowState {
    pub visible: bool,
    pub focused: bool,
}

/// What is to be done for an action.
#[derive(Clone, Copy, Debug, PartialEq, Eq, Structural)]
pub enum ShortcutStep {
    Nothing,
    HideWindow,
    ShowWindow,
    CaptureRegion,
    CaptureFullscreen,
    RecordGif(u16),
    RecordVideo(u32),
}

/// Whether a capture that was started by a key is going on.
#[derive(Clone, Copy, Debug, PartialEq, Eq, Structural)]
pub struct CaptureGate {
    pub active: bool,
}

impl CaptureGate {
    /// No capture is going on.
    pub fn new() -> (r: CaptureGate)
        ensures
            !r.active,
    {
        CaptureGate { active: false }
    }

    /// What is to be done for an action. A window in front is hidden, another is
    /// shown. One capture of the screen goes on at a time.
    pub fn handle_shortcut_action(
        &mut self,
        action: Option<ShortcutAction>,
        window: Option<WindowState>,
    ) -> (r: ShortcutStep)
        ensures
            match action {
                None => r == ShortcutStep::Nothing && *final(self) == *old(self),
                Some(ShortcutAction::ToggleWindow) => {
                    &&& *final(self) == *old(self)
                    &&& r == (match window {
                        None => ShortcutStep::Nothing,
                        Some(w) => if w.visible && w.focused {
                            ShortcutStep::HideWindow
                        } else {
                            ShortcutStep::ShowWindow
                        },
                    })
                },
                Some(ShortcutAction::CaptureRegion) => {
                    &&& final(self).active
                    &&& r == (if old(self).active {
                        ShortcutStep::Nothing
                    } else {
                        ShortcutStep::CaptureRegion
                    })
                },
                Some(ShortcutAction::CaptureFullscreen) => {
                    &&& final(self).active
                    &&& r == (if old(self).active {
                        ShortcutStep::Nothing
                    } else {
                        ShortcutStep::CaptureFullscreen
                    })
                },
                Some(ShortcutAction::RecordGif) => {
                    &&& *final(self) == *old(self)
                    &&& r == ShortcutStep::RecordGif(SHORTCUT_GIF_FPS)
                },
                Some(ShortcutAction::RecordVideo) => {
                    &&& *final(self) == *old(self)
                    &&& r == ShortcutStep::RecordVideo(SHORTCUT_VIDEO_FPS)
                },
            },
    {
        match action {
            None => ShortcutStep::Nothing,
            Some(ShortcutAction::ToggleWindow) => match window {
                None => ShortcutStep::Nothing,
                Some(w) => if w.visible && w.focused {
                    ShortcutStep::HideWindow
                } else {
                    ShortcutStep::ShowWindow
                },
            },
            Some(ShortcutAction::CaptureRegion) => {
                let busy = self.active;
                self.active = true;
                if busy {
                    ShortcutStep::Nothing
                } else {
                    ShortcutStep::CaptureRegion
                }
            },
            Some(ShortcutAction::CaptureFullscreen) => {
                let busy = self.active;
                self.active = true;
                if busy {
                    ShortcutStep::Nothing
                } else {
                    ShortcutStep::CaptureFullscreen
                }
            },
            Some(ShortcutAction::RecordGif) => ShortcutStep::RecordGif(SHORTCUT_GIF_FPS),
            Some(ShortcutAction::RecordVideo) => ShortcutStep::RecordVideo(SHORTCUT_VIDEO_FPS),
        }
    }

    /// The capture has ended, well or not.
    pub fn capture_ended(&mut self)
        ensures
            !final(self).active,
    {
        self.active = false;
    }
}

/// What an entry of the tray menu does.
#[derive(Clone, Copy, Debug, PartialEq, Eq, Structural)]
pub enum MenuStep {
    Nothing,
    Start(ShortcutAction),
    Quit,
}

/// What an entry of the tray menu does.
pub fn menu_step(entry: &str) -> (r: MenuStep)
    ensures
        match r {
            MenuStep::Start(a) => shortcut_name(a) == entry@,
            MenuStep::Quit => entry@ == "quit"@ && forall|b: ShortcutAction|
                #[trigger] shortcut_name(b) != entry@,
            MenuStep::Nothing => entry@ != "quit"@ && forall|b: ShortcutAction|
                #[trigger] shortcut_name(b) != entry@,
        },
{
    match ShortcutAction::from_name(entry) {
        Some(a) => MenuStep::Start(a),
        None => if same_text(entry, "quit") {
            MenuStep::Quit
        } else {
            MenuStep::Nothing
        },
    }
}

/// The keys that are set for an action.
pub open spec fn keys_for(s: ShortcutSettings, a: ShortcutAction) -> Seq<char> {
    match a {
        ShortcutAction::ToggleWindow => s.toggle_window@,
        ShortcutAction::CaptureRegion => s.capture_region@,
        ShortcutAction::CaptureFullscreen => s.capture_fullscreen@,
        ShortcutAction::RecordGif => s.record_gif@,
        ShortcutAction::RecordVideo => s.record_video@,
    }
}

/// The actions in the order in which their keys are set up.
pub open spec fn action_order() -> Seq<ShortcutAction> {
    seq![
        ShortcutAction::ToggleWindow,
        ShortcutAction::CaptureRegion,
        ShortcutAction::CaptureFullscreen,
        ShortcutAction::RecordGif,
        ShortcutAction::RecordVideo,
    ]
}

/// The actions in the order in which their keys are set up.
pub fn shortcut_actions() -> (r: Vec<ShortcutAction>)
    ensures
        r@ == action_order(),
{
    let out: Vec<ShortcutAction> = vec![
        ShortcutAction::ToggleWindow,
        ShortcutAction::CaptureRegion,
        ShortcutAction::CaptureFullscreen,
        ShortcutAction::RecordGif,
        ShortcutAction::RecordVideo,
    ];
    assert(out@ =~= action_order());
    out
}

/// The keys for an action without white space around them; none if there are
/// none.
pub fn keys_text(s: &ShortcutSettings, a: ShortcutAction) -> (r: Option<String>)
    ensures
        match r {
            Some(t) => t@ == trimmed(keys_for(*s, a)) && t@.len() > 0,
            None => trimmed(keys_for(*s, a)).len() == 0,
        },
{
    let raw = match a {
        ShortcutAction::ToggleWindow => s.toggle_window.as_str(),
        ShortcutAction::CaptureRegion => s.capture_region.as_str(),
        ShortcutAction::CaptureFullscreen => s.capture_fullscreen.as_str(),
        ShortcutAction::RecordGif => s.record_gif.as_str(),
        ShortcutAction::RecordVideo => s.record_video.as_str(),
    };
    let t = trim(raw);
    if t.as_str().is_empty() {
        None
    } else {
        Some(t)
    }
}

/// The first of the actions from `from` on whose keys are refused, with the
/// message about it. `verdicts` holds, for each action in order, why its keys
/// are refused, if they are.
pub open spec fn refused_keys(
    s: ShortcutSettings,
    verdicts: Seq<Option<Seq<char>>>,
    from: int,
) -> Option<Seq<char>>
    decreases action_order().len() - from,
{
    if from < 0 || from >= action_order().len() {
        None
    } else {
        let keys = trimmed(keys_for(s, action_order()[from]));
        if keys.len() > 0 && verdicts[from] is Some {
            Some("无效快捷键 '"@ + keys + "': "@ + verdicts[from]->0)
        } else {
            refused_keys(s, verdicts, from + 1)
        }
    }
}

/// The verdicts as character sequences.
pub open spec fn verdict_texts(v: Seq<Option<String>>) -> Seq<Option<Seq<char>>> {
    v.map_values(
        |o: Option<String>|
            match o {
                Some(s) => Some(s@),
                None => None,
            },
    )
}

/// The actions whose keys are to be set up, if all keys are accepted. Nothing is
/// set up if some are not, so that the keys never change half.
pub fn register_shortcuts(s: &ShortcutSettings, verdicts: &[Option<String>]) -> (r: Result<
    Vec<ShortcutAction>,
    String,
>)
    requires
        verdicts@.len() == 5,
    ensures
        match refused_keys(*s, verdict_texts(verdicts@), 0) {
            Some(m) => r matches Err(e) && e@ == m,
            None => {
                &&& r matches Ok(actions)
                &&& actions@ == action_order().filter(
                    |a: ShortcutAction| trimmed(keys_for(*s, a)).len() > 0,
                )
            },
        },
{
    let order = shortcut_actions();
    let mut out: Vec<ShortcutAction> = Vec::new();
    let mut i: usize = 0;
    let ghost has_keys = |a: ShortcutAction| trimmed(keys_for(*s, a)).len() > 0;
    let ghost vs = verdict_texts(verdicts@);
    proof {
        reveal(Seq::filter);
        assert(action_order().take(0) =~= Seq::<ShortcutAction>::empty());
        assert(out@ =~= action_order().take(0).filter(has_keys));
    }
    while i < order.len()
        invariant
            i <= order@.len(),
            order@ == action_order(),
            order@.len() == 5,
            verdicts@.len() == 5,
            vs == verdict_texts(verdicts@),
            has_keys == (|a: ShortcutAction| trimmed(keys_for(*s, a)).len() > 0),
            refused_keys(*s, vs, 0) == refused_keys(*s, vs, i as int),
            out@ == action_order().take(i as int).filter(has_keys),
        decreases order@.len() - i,
    {
        let a = order[i];
        proof {
            reveal(Seq::filter);
            assert(action_order().take(i + 1).drop_last() =~= action_order().take(i as int));
            assert(action_order().take(i + 1).last() == a);
        }
        if let Some(keys) = keys_text(s, a) {
            if let Some(why) = &verdicts[i] {
                let mut m = "无效快捷键 '".to_owned();
                m.push_str(keys.as_str());
                m.push_str("': ");
                m.push_str(why.as_str());
                return Err(m);
            }
            out.push(a);
        }
        i += 1;
    }
    assert(action_order().take(i as int) =~= action_order());
    Ok(out)
}

/// The address of the recording toolbar's window.
pub fn toolbar_url(mode: &str, starts_at_epoch_ms: u128) -> (r: String)
    ensures
        r@ == "index.html?captureToolbar=1&mode="@ + mode@ + "&startsAt="@ + crate::text::decimal(
            starts_at_epoch_ms as nat,
        ),
{
    let mut out = "index.html?captureToolbar=1&mode=".to_owned();
    out.push_str(mode);
    out.push_str("&startsAt=");
    crate::text::push_decimal(&mut out, starts_at_epoch_ms);
    out
}

/// Each action has a name of its own by which it is found, and a menu entry of that name
/// starts it; the entry to quit quits.
pub proof fn actions_go_by_their_names(
    name: &str,
    found: Option<ShortcutAction>,
    entry: MenuStep,
)
    requires
        call_ensures(ShortcutAction::from_name, (name,), found),
        call_ensures(menu_step, (name,), entry),
    ensures
        found == Some(ShortcutAction::ToggleWindow) <==> name@ == "toggle_window"@,
        found == Some(ShortcutAction::CaptureRegion) <==> name@ == "capture_region"@,
        found == Some(ShortcutAction::CaptureFullscreen) <==> name@ == "capture_fullscreen"@,
        found == Some(ShortcutAction::RecordGif) <==> name@ == "record_gif"@,
        found == Some(ShortcutAction::RecordVideo) <==> name@ == "record_video"@,
        found is Some ==> entry == MenuStep::Start(found->0),
        found is None ==> (entry == MenuStep::Quit <==> name@ == "quit"@),
        found is None ==> (entry == MenuStep::Nothing <==> name@ != "quit"@),
        name@ == "quit"@ ==> found is None,
{
    reveal_strlit("toggle_window");
    reveal_strlit("capture_region");
    reveal_strlit("capture_fullscreen");
    reveal_strlit("record_gif");
    reveal_strlit("record_video");
    reveal_strlit("quit");
    assert("toggle_window"@.len() == 13);
    assert("capture_region"@.len() == 14);
    assert("capture_fullscreen"@.len() == 18);
    assert("record_gif"@.len() == 10);
    assert("record_video"@.len() == 12);
    assert("quit"@.len() == 4);
    assert(shortcut_name(ShortcutAction::ToggleWindow) == "toggle_window"@);
    assert(shortcut_name(ShortcutAction::CaptureRegion) == "capture_region"@);
    assert(shortcut_name(ShortcutAction::CaptureFullscreen) == "capture_fullscreen"@);
    assert(shortcut_name(ShortcutAction::RecordGif) == "record_gif"@);
    assert(shortcut_name(ShortcutAction::RecordVideo) == "record_video"@);
    if let Some(a) = found {
        if let MenuStep::Start(b) = entry {
            lemma_names_differ(a, b);
        }
    }
}

proof fn lemma_names_differ(a: ShortcutAction, b: ShortcutAction)
    requires
        shortcut_name(a) == shortcut_name(b),
    ensures
        a == b,
{
    reveal_strlit("toggle_window");
    reveal_strlit("capture_region");
    reveal_strlit("capture_fullscreen");
    reveal_strlit("record_gif");
    reveal_strlit("record_video");
    assert("toggle_window"@.len() == 13);
    assert("capture_region"@.len() == 14);
    assert("capture_fullscreen"@.len() == 18);
    assert("record_gif"@.len() == 10);
    assert("record_video"@.len() == 12);
}

/// What an action leads to, `r`: the window is hidden just if it is visible and in front,
/// and shown otherwise; a capture starts just if none is going on, and then one is; and
/// recordings start at 15 and at 30 frames a second, whatever is going on.
pub proof fn keys_do_what_they_say(
    gate: &mut CaptureGate,
    action: ShortcutAction,
    window: Option<WindowState>,
    r: ShortcutStep,
)
    requires
        call_ensures(CaptureGate::handle_shortcut_action, (gate, Some(action), window), r),
    ensures
        action == ShortcutAction::ToggleWindow && window is Some ==> {
            &&& r == ShortcutStep::HideWindow <==> window->0.visible && window->0.focused
            &&& r == ShortcutStep::ShowWindow <==> !(window->0.visible && window->0.focused)
        },
        action == ShortcutAction::CaptureRegion ==> {
            &&& r == ShortcutStep::CaptureRegion <==> !old(gate).active
            &&& r == ShortcutStep::Nothing <==> old(gate).active
        },
        action == ShortcutAction::CaptureFullscreen ==> {
            &&& r == ShortcutStep::CaptureFullscreen <==> !old(gate).active
            &&& r == ShortcutStep::Nothing <==> old(gate).active
        },
        action == ShortcutAction::RecordGif ==> r == ShortcutStep::RecordGif(15),
        action == ShortcutAction::RecordVideo ==> r == ShortcutStep::RecordVideo(30),
        final(gate).active <==> old(gate).active || action == ShortcutAction::CaptureRegion || action
            == ShortcutAction::CaptureFullscreen,
{
}

/// After a capture has ended another can start.
pub proof fn ended_captures_make_room(gate: &mut CaptureGate, r: ())
    requires
        call_ensures(CaptureGate::capture_ended, (gate,), r),
    ensures
        !final(gate).active,
{
}

/// Every action has its place in the order in which keys are set up, and none has two.
pub proof fn all_actions_get_their_keys(order: Vec<ShortcutAction>, a: ShortcutAction)
    requires
        call_ensures(shortcut_actions, (), order),
    ensures
        order@.len() == 5,
        order@.contains(a),
        order@.no_duplicates(),
{
    assert(order@[0] == ShortcutAction::ToggleWindow);
    assert(order@[1] == ShortcutAction::CaptureRegion);
    assert(order@[2] == ShortcutAction::CaptureFullscreen);
    assert(order@[3] == ShortcutAction::RecordGif);
    assert(order@[4] == ShortcutAction::RecordVideo);
}

/// The keys of an action are those that are set for it, without the white space around
/// them, and there are none just if nothing else is set.
pub proof fn keys_are_those_that_are_set(
    s: ShortcutSettings,
    a: ShortcutAction,
    raw: String,
    r: Option<String>,
) -> (cut: (int, int))
    requires
        call_ensures(keys_text, (&s, a), r),
        a == ShortcutAction::ToggleWindow ==> raw == s.toggle_window,
        a == ShortcutAction::CaptureRegion ==> raw == s.capture_region,
        a == ShortcutAction::CaptureFullscreen ==> raw == s.capture_fullscreen,
        a == ShortcutAction::RecordGif ==> raw == s.record_gif,
        a == ShortcutAction::RecordVideo ==> raw == s.record_video,
    ensures
        r is None <==> forall|i: int|
            0 <= i < raw@.len() ==> crate::text::is_white_space(#[trigger] raw@[i]),
        r is Some ==> {
            &&& 0 <= cut.0 < cut.1 <= raw@.len()
            &&& r->0@ == raw@.subrange(cut.0, cut.1)
            &&& !crate::text::is_white_space(raw@[cut.0])
            &&& !crate::text::is_white_space(raw@[cut.1 - 1])
            &&& forall|i: int|
                0 <= i < cut.0 || cut.1 <= i < raw@.len() ==> crate::text::is_white_space(
                    #[trigger] raw@[i],
                )
        },
{
    crate::text::trimming_takes_white_space_alone(raw@)
}

/// All keys are set up or none: setting up succeeds, `r`, just if no keys that are set are
/// refused, and then covers every action that has keys, in order.
pub proof fn keys_are_set_up_together(
    s: ShortcutSettings,
    verdicts: &[Option<String>],
    r: Result<Vec<ShortcutAction>, String>,
    order: Vec<ShortcutAction>,
    a: ShortcutAction,
    keys: Option<String>,
)
    requires
        verdicts@.len() == 5,
        call_ensures(register_shortcuts, (&s, verdicts), r),
        call_ensures(shortcut_actions, (), order),
        call_ensures(keys_text, (&s, a), keys),
    ensures
        r is Ok ==> (r->Ok_0@.contains(a) <==> keys is Some),
        r is Ok ==> r->Ok_0@.no_duplicates(),
        r is Ok && keys is Some ==> forall|i: int|
            0 <= i < 5 && #[trigger] order@[i] == a ==> verdicts@[i] is None,
        (forall|i: int| 0 <= i < 5 ==> (#[trigger] verdicts@[i]) is None) ==> r is Ok,
        r is Err ==> exists|i: int|
            0 <= i < 5 && (#[trigger] verdicts@[i]) is Some && trimmed(keys_for(s, order@[i])).len()
                > 0,
{
    broadcast use vstd::seq_lib::group_filter_ensures;

    let vs = verdict_texts(verdicts@);
    let has_keys = |a: ShortcutAction| trimmed(keys_for(s, a)).len() > 0;
    lemma_refused(s, vs, 0);
    all_actions_get_their_keys(order, a);
    lemma_filter_keeps_distinct(action_order(), has_keys);
    assert forall|i: int| 0 <= i < 5 implies (#[trigger] verdicts@[i]) is Some == vs[i] is Some by {}
    if r is Ok {
        let got = r->Ok_0@;
        if keys is Some {
            let i = choose|i: int| 0 <= i < order@.len() && order@[i] == a;
            assert(has_keys(a));
            assert(got.contains(a));
        }
        if got.contains(a) {
            let k = choose|k: int| 0 <= k < got.len() && got[k] == a;
            assert(has_keys(got[k]));
        }
        assert forall|i: int| 0 <= i < 5 && keys is Some && #[trigger] order@[i] == a implies verdicts@[i] is None by {
            assert(action_order()[i] == a);
        }
    }
}

proof fn lemma_refused(s: ShortcutSettings, verdicts: Seq<Option<Seq<char>>>, from: int)
    requires
        0 <= from <= 5,
    ensures
        refused_keys(s, verdicts, from) is Some <==> exists|i: int|
            from <= i < 5 && trimmed(keys_for(s, #[trigger] action_order()[i])).len() > 0
                && verdicts[i] is Some,
    decreases 5 - from,
{
    if from < 5 {
        lemma_refused(s, verdicts, from + 1);
        if refused_keys(s, verdicts, from + 1) is Some {
            let i = choose|i: int|
                from + 1 <= i < 5 && trimmed(keys_for(s, #[trigger] action_order()[i])).len() > 0
                    && verdicts[i] is Some;
            assert(trimmed(keys_for(s, action_order()[i])).len() > 0);
        }
        if trimmed(keys_for(s, action_order()[from])).len() > 0 && verdicts[from] is Some {
        } else if exists|i: int|
            from <= i < 5 && trimmed(keys_for(s, #[trigger] action_order()[i])).len() > 0
                && verdicts[i] is Some {
            let i = choose|i: int|
                from <= i < 5 && trimmed(keys_for(s, #[trigger] action_order()[i])).len() > 0
                    && verdicts[i] is Some;
            assert(from + 1 <= i);
        }
    }
}

proof fn lemma_filter_keeps_distinct(s: Seq<ShortcutAction>, p: spec_fn(ShortcutAction) -> bool)
    requires
        s.no_duplicates(),
    ensures
        s.filter(p).no_duplicates(),
    decreases s.len(),
{
    broadcast use vstd::seq_lib::group_filter_ensures;

    reveal(Seq::filter);
    if s.len() > 0 {
        let rest = s.drop_last();
        assert forall|i: int, j: int| 0 <= i < j < rest.len() implies rest[i] != rest[j] by {
            assert(s[i] != s[j]);
        }
        lemma_filter_keeps_distinct(rest, p);
        let f = rest.filter(p);
        if f.contains(s.last()) {
            let k = choose|k: int| 0 <= k < f.len() && f[k] == s.last();
            rest.lemma_filter_contains_rev(p, f[k]);
            let m = choose|m: int| 0 <= m < rest.len() && rest[m] == f[k];
            assert(s[m] == s[s.len() - 1]);
        }
    }
}

/// The toolbar's address tells modes and times apart from each other.
pub proof fn toolbar_addresses_tell_times_apart(mode: &str, a: u128, b: u128, x: String, y: String)
    requires
        call_ensures(toolbar_url, (mode, a), x),
        call_ensures(toolbar_url, (mode, b), y),
        x@ == y@,
    ensures
        a == b,
        "index.html?captureToolbar=1&mode="@.is_prefix_of(x@),
{
    let head = "index.html?captureToolbar=1&mode="@ + mode@ + "&startsAt="@;
    let da = crate::text::decimal(a as nat);
    let db = crate::text::decimal(b as nat);
    assert(x@.skip(head.len() as int) =~= da);
    assert(y@.skip(head.len() as int) =~= db);
    crate::text::integers_read_back(a as int, da);
    crate::text::integers_read_back(b as int, db);
}


} // verus!
