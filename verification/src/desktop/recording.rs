//! Recording the screen: who may record, and when each frame is due.
//!
//! Times are in microseconds of a clock that only moves forward.

use vstd::prelude::*;

use crate::platform::hardening::Platform;
use crate::text::same_text;

verus! {

/// The longest sleep while waiting for a frame, so that a cancellation is
/// noticed.
pub const WAIT_SLICE_US: u64 = 20000;

/// A recording that is going on.
#[derive(Clone, Copy, Debug, PartialEq, Eq, Structural)]
pub struct ActiveRecording {
    pub id: u64,
    pub stop: bool,
}

/// Lets one recording go on at a time.
#[derive(Debug)]
pub struct RecordingController {
    pub next_id: u64,
    pub active: Option<ActiveRecording>,
}

/// The right to record, given by a controller.
#[derive(Debug, PartialEq, Eq, Structural)]
pub struct RecordingLease {
    pub id: u64,
}

impl Default for RecordingController {
    fn default() -> (r: Self)
        ensures
            r.next_id == 0,
            r.active is None,
    {
        RecordingController { next_id: 0, active: None }
    }
}

impl RecordingController {
    /// Whether a lease is the one of the recording that goes on.
    pub open spec fn holds(&self, lease: RecordingLease) -> bool {
        self.active is Some && self.active->0.id == lease.id
    }

    /// Begins a recording, unless one goes on.
    pub fn begin(&mut self) -> (r: Result<RecordingLease, String>)
        ensures
            match r {
                Ok(lease) => {
                    &&& old(self).active is None
                    &&& lease.id == (if old(self).next_id == u64::MAX {
                        0
                    } else {
                        old(self).next_id + 1
                    })
                    &&& final(self).next_id == lease.id
                    &&& final(self).active == Some(ActiveRecording { id: lease.id, stop: false })
                },
                Err(m) => {
                    &&& old(self).active is Some
                    &&& m@ == "another recording is already active"@
                    &&& *final(self) == *old(self)
                },
            },
    {
        if self.active.is_some() {
            return Err("another recording is already active".to_owned());
        }
        let id: u64 = if self.next_id == u64::MAX {
            0
        } else {
            self.next_id + 1
        };
        self.next_id = id;
        self.active = Some(ActiveRecording { id, stop: false });
        Ok(RecordingLease { id })
    }

    /// Asks the recording that goes on to stop. Tells whether there is one.
    pub fn request_stop(&mut self) -> (r: bool)
        ensures
            r == (old(self).active is Some),
            final(self).next_id == old(self).next_id,
            match old(self).active {
                Some(a) => final(self).active == Some(ActiveRecording { id: a.id, stop: true }),
                None => final(self).active is None,
            },
    {
        match self.active {
            Some(a) => {
                self.active = Some(ActiveRecording { id: a.id, stop: true });
                true
            },
            None => false,
        }
    }

    /// Whether the recording of a lease is to stop. One that has ended is.
    pub fn stop_requested(&self, lease: &RecordingLease) -> (r: bool)
        ensures
            r == (!self.holds(*lease) || self.active->0.stop),
    {
        match &self.active {
            Some(a) => a.id != lease.id || a.stop,
            None => true,
        }
    }

    /// Ends the recording of a lease. Another recording goes on.
    pub fn release(&mut self, lease: RecordingLease)
        ensures
            final(self).next_id == old(self).next_id,
            final(self).active == (if old(self).holds(lease) {
                None
            } else {
                old(self).active
            }),
    {
        let held = match &self.active {
            Some(a) => a.id == lease.id,
            None => false,
        };
        if held {
            self.active = None;
        }
    }
}

/// The time of a frame after the start.
pub open spec fn frame_time_us(frame_index: int, fps: int) -> int {
    let total = if frame_index * 1000000 > u64::MAX {
        u64::MAX as int
    } else {
        frame_index * 1000000
    };
    total / (if fps >= 1 {
        fps
    } else {
        1
    })
}

/// The time of a frame after the start.
pub fn recording_timestamp_us(frame_index: u64, fps: u32) -> (r: u64)
    ensures
        r == frame_time_us(frame_index as int, fps as int),
{
    let total: u64 = match frame_index.checked_mul(1000000) {
        Some(t) => t,
        None => u64::MAX,
    };
    let rate: u64 = if fps >= 1 {
        fps as u64
    } else {
        1
    };
    total / rate
}

/// When a frame is due, or the last time there is.
pub open spec fn due_us(started_us: int, frame_index: int, fps: int) -> int {
    let t = started_us + frame_time_us(frame_index, fps);
    if t > u64::MAX {
        u64::MAX as int
    } else {
        t
    }
}

/// When a frame is due.
pub fn recording_deadline(started_us: u64, frame_index: u64, fps: u32) -> (r: u64)
    ensures
        r == due_us(started_us as int, frame_index as int, fps as int),
{
    started_us.saturating_add(recording_timestamp_us(frame_index, fps))
}

/// Frames are due in order, and none before the recording has started.
pub proof fn deadlines_are_ordered(started_us: u64, i: u64, j: u64, fps: u32)
    requires
        i <= j,
    ensures
        started_us <= due_us(started_us as int, i as int, fps as int),
        due_us(started_us as int, i as int, fps as int) <= due_us(
            started_us as int,
            j as int,
            fps as int,
        ),
{
    let rate = if fps >= 1 {
        fps as int
    } else {
        1
    };
    let a = if i * 1000000 > u64::MAX {
        u64::MAX as int
    } else {
        i * 1000000
    };
    let b = if j * 1000000 > u64::MAX {
        u64::MAX as int
    } else {
        j * 1000000
    };
    assert(a <= b);
    vstd::arithmetic::div_mod::lemma_div_is_ordered(a, b, rate);
    vstd::arithmetic::div_mod::lemma_div_pos_is_pos(a, rate);
}

/// A frame has the time that its place has at the rate of the recording, in whole
/// microseconds: `fps` frames make a second, at every rate. A rate of nothing counts
/// as one frame a second.
pub proof fn frames_follow_the_rate(frame_index: u64, fps: u32, k: u64)
    ensures
        frame_index * 1000000 <= u64::MAX && fps >= 1 ==> ({
            let t = frame_time_us(frame_index as int, fps as int);
            t * fps <= frame_index * 1000000 < (t + 1) * fps
        }),
        frame_index * 1000000 <= u64::MAX ==> frame_time_us(frame_index as int, 0) == frame_index
            * 1000000,
        fps >= 1 && k * fps * 1000000 <= u64::MAX ==> frame_time_us(k * fps, fps as int) == k
            * 1000000,
{
    let rate = if fps >= 1 {
        fps as int
    } else {
        1
    };
    let total = frame_index * 1000000;
    let t = total / rate;
    vstd::arithmetic::div_mod::lemma_fundamental_div_mod(total, rate);
    assert(t * rate <= total < (t + 1) * rate) by (nonlinear_arith)
        requires
            total == rate * t + total % rate,
            0 <= total % rate < rate,
    ;
    assert(total / 1 == total);
    if fps >= 1 {
        assert(k * fps * 1000000 == k * 1000000 * fps) by (nonlinear_arith);
        vstd::arithmetic::div_mod::lemma_div_multiples_vanish(k * 1000000, fps as int);
        assert(fps * (k * 1000000) == k * 1000000 * fps) by (nonlinear_arith);
    }
}

/// A frame is due when its time has passed since the start, or at the last time
/// there is.
pub proof fn deadline_is_start_and_time(started_us: u64, frame_index: u64, fps: u32)
    ensures
        ({
            let due = due_us(started_us as int, frame_index as int, fps as int);
            let t = frame_time_us(frame_index as int, fps as int);
            &&& started_us + t <= u64::MAX ==> due == started_us + t
            &&& started_us + t > u64::MAX ==> due == u64::MAX
        }),
        frame_index == 0 ==> due_us(started_us as int, 0, fps as int) == started_us,
{
    assert(0int / 1 == 0);
    if fps >= 1 {
        vstd::arithmetic::div_mod::lemma_basic_div(0, fps as int);
    }
}

/// A bounded number is within the bounds, is the number itself if that is, and the
/// nearer bound otherwise.
pub proof fn bounded_number_is_nearest(v: int, lo: int, hi: int)
    requires
        lo <= hi,
    ensures
        lo <= between(v, lo, hi) <= hi,
        lo <= v <= hi ==> between(v, lo, hi) == v,
        v < lo ==> between(v, lo, hi) == lo,
        v > hi ==> between(v, lo, hi) == hi,
{
}

/// What a recording does next.
#[derive(Clone, Copy, Debug, PartialEq, Eq, Structural)]
pub enum RecordStep {
    /// End and keep what was recorded.
    Finish,
    /// End and keep nothing.
    Cancel,
    /// Wait until a time, then take a frame with a time stamp.
    Frame { deadline_us: u64, timestamp_us: u64 },
}

/// A recording at some frame.
#[derive(Clone, Copy, Debug, PartialEq, Eq, Structural)]
pub struct Recorder {
    pub started_us: u64,
    pub fps: u32,
    pub frame_index: u64,
}

impl Recorder {
    /// A recording that starts now.
    pub fn new(started_us: u64, fps: u32) -> (r: Recorder)
        ensures
            r == (Recorder { started_us, fps, frame_index: 0 }),
    {
        Recorder { started_us, fps, frame_index: 0 }
    }

    /// What the recording does next. It takes at least one frame before it
    /// stops on request; a cancellation ends it at once.
    pub fn next(&self, stop_requested: bool, cancelled: bool) -> (r: RecordStep)
        ensures
            r == (if self.frame_index > 0 && stop_requested {
                RecordStep::Finish
            } else if cancelled {
                RecordStep::Cancel
            } else {
                RecordStep::Frame {
                    deadline_us: due_us(
                        self.started_us as int,
                        self.frame_index as int,
                        self.fps as int,
                    ) as u64,
                    timestamp_us: frame_time_us(self.frame_index as int, self.fps as int) as u64,
                }
            }),
    {
        if self.frame_index > 0 && stop_requested {
            RecordStep::Finish
        } else if cancelled {
            RecordStep::Cancel
        } else {
            RecordStep::Frame {
                deadline_us: recording_deadline(self.started_us, self.frame_index, self.fps),
                timestamp_us: recording_timestamp_us(self.frame_index, self.fps),
            }
        }
    }

    /// Goes on to the next frame.
    pub fn advance(&mut self)
        ensures
            final(self).started_us == old(self).started_us,
            final(self).fps == old(self).fps,
            final(self).frame_index == (if old(self).frame_index == u64::MAX {
                u64::MAX as int
            } else {
                old(self).frame_index + 1
            }),
    {
        self.frame_index = self.frame_index.saturating_add(1);
    }
}

/// What to do while waiting for a time.
#[derive(Clone, Copy, Debug, PartialEq, Eq, Structural)]
pub enum WaitStep {
    Cancel,
    Ready,
    Sleep(u64),
}

/// What to do while waiting for a time: sleep a little and look again, unless
/// the time has come or the recording is cancelled.
pub fn wait_until_recording_deadline(now_us: u64, deadline_us: u64, cancelled: bool) -> (r: WaitStep)
    ensures
        r == (if cancelled {
            WaitStep::Cancel
        } else if now_us >= deadline_us {
            WaitStep::Ready
        } else if deadline_us - now_us < WAIT_SLICE_US {
            WaitStep::Sleep((deadline_us - now_us) as u64)
        } else {
            WaitStep::Sleep(WAIT_SLICE_US)
        }),
{
    if cancelled {
        WaitStep::Cancel
    } else if now_us >= deadline_us {
        WaitStep::Ready
    } else if deadline_us - now_us < WAIT_SLICE_US {
        WaitStep::Sleep(deadline_us - now_us)
    } else {
        WaitStep::Sleep(WAIT_SLICE_US)
    }
}

/// A number brought between two bounds.
pub open spec fn between(v: int, lo: int, hi: int) -> int {
    if v < lo {
        lo
    } else if v > hi {
        hi
    } else {
        v
    }
}

/// The frames per second of a moving picture.
pub fn gif_fps(fps: u16) -> (r: u16)
    ensures
        r == between(fps as int, 8, 15),
{
    if fps < 8 {
        8
    } else if fps > 15 {
        15
    } else {
        fps
    }
}

/// The frames per second of a video.
pub fn video_fps(fps: u32, platform: Platform) -> (r: u32)
    ensures
        r == between(fps as int, 10, if platform == Platform::MacOs {
            60
        } else {
            30
        }),
{
    let most: u32 = if platform == Platform::MacOs {
        60
    } else {
        30
    };
    if fps < 10 {
        10
    } else if fps > most {
        most
    } else {
        fps
    }
}

/// The frames of a scrolling capture.
pub fn scroll_frames(frames: u32) -> (r: u32)
    ensures
        r == between(frames as int, 2, 40),
{
    if frames < 2 {
        2
    } else if frames > 40 {
        40
    } else {
        frames
    }
}

/// What a scrolling capture does next.
#[derive(Clone, Copy, Debug, PartialEq, Eq, Structural)]
pub enum ScrollStep {
    /// End and keep nothing.
    Cancel,
    /// End and keep the frames.
    Finish,
    /// Take a frame, after scrolling if it is not the first.
    Frame { scroll_first: bool },
}

/// What a scrolling capture does next: the frames have been taken, or the last
/// ones did not fit together any more, or the next is taken.
pub fn scroll_next(taken: u32, frames: u32, cancelled: bool, lost: bool) -> (r: ScrollStep)
    ensures
        r == (if lost || taken >= between(frames as int, 2, 40) {
            ScrollStep::Finish
        } else if cancelled {
            ScrollStep::Cancel
        } else {
            ScrollStep::Frame { scroll_first: taken > 0 }
        }),
{
    if lost || taken >= scroll_frames(frames) {
        ScrollStep::Finish
    } else if cancelled {
        ScrollStep::Cancel
    } else {
        ScrollStep::Frame { scroll_first: taken > 0 }
    }
}

/// Where the sound of a recording comes from.
#[derive(Clone, Copy, Debug, PartialEq, Eq, Structural)]
pub enum AudioSource {
    Silent,
    Microphone,
    System,
    Both,
}

/// Where the sound of a recording comes from, by name.
pub open spec fn audio_named(name: Option<Seq<char>>) -> AudioSource {
    match name {
        Some(n) => if n == "mic"@ {
            AudioSource::Microphone
        } else if n == "system"@ {
            AudioSource::System
        } else if n == "both"@ {
            AudioSource::Both
        } else {
            AudioSource::Silent
        },
        None => AudioSource::Silent,
    }
}

/// Where the sound of a recording comes from, by name; nowhere for other names.
pub fn audio_source(name: Option<&str>) -> (r: AudioSource)
    ensures
        r == audio_named(
            match name {
                Some(n) => Some(n@),
                None => None,
            },
        ),
{
    match name {
        Some(n) => if same_text(n, "mic") {
            AudioSource::Microphone
        } else if same_text(n, "system") {
            AudioSource::System
        } else if same_text(n, "both") {
            AudioSource::Both
        } else {
            AudioSource::Silent
        },
        None => AudioSource::Silent,
    }
}

/// The three names of sources give the microphone, the system and both of them; no
/// other name, and no name, gives any sound.
pub proof fn sound_follows_its_name(name: Seq<char>)
    ensures
        audio_named(Some(name)) == AudioSource::Microphone <==> name == "mic"@,
        audio_named(Some(name)) == AudioSource::System <==> name == "system"@,
        audio_named(Some(name)) == AudioSource::Both <==> name == "both"@,
        audio_named(None) == AudioSource::Silent,
{
    reveal_strlit("mic");
    reveal_strlit("system");
    reveal_strlit("both");
    assert("mic"@.len() == 3 && "system"@.len() == 6 && "both"@.len() == 4);
}

/// Whether a recording has to wait for leave to use the microphone.
pub fn must_ask_for_microphone(platform: Platform, audio: AudioSource, allowed: bool) -> (r: bool)
    ensures
        r == (platform == Platform::MacOs && (audio == AudioSource::Microphone || audio
            == AudioSource::Both) && !allowed),
{
    platform == Platform::MacOs && (audio == AudioSource::Microphone || audio == AudioSource::Both)
        && !allowed
}

/// What encodes a video.
#[derive(Clone, Copy, Debug, PartialEq, Eq, Structural)]
pub enum VideoEncoder {
    /// The encoder of the Mac, with sound.
    Mac,
    /// The encoder of Windows, which takes no time stamps.
    WindowsHardware,
    /// Single pictures in sequence.
    MotionJpeg,
}

/// What encodes a video: the encoder of the platform where there is one and it
/// can be used, else single pictures.
pub fn choose_encoder(platform: Platform, hardware_works: bool) -> (r: VideoEncoder)
    ensures
        r == (match platform {
            Platform::MacOs => VideoEncoder::Mac,
            Platform::Windows => if hardware_works {
                VideoEncoder::WindowsHardware
            } else {
                VideoEncoder::MotionJpeg
            },
            Platform::Other => VideoEncoder::MotionJpeg,
        }),
{
    match platform {
        Platform::MacOs => VideoEncoder::Mac,
        Platform::Windows => if hardware_works {
            VideoEncoder::WindowsHardware
        } else {
            VideoEncoder::MotionJpeg
        },
        Platform::Other => VideoEncoder::MotionJpeg,
    }
}

impl VideoEncoder {
    /// The media type of what the encoder makes.
    pub fn mime(&self) -> (r: &'static str)
        ensures
            r@ == (match *self {
                VideoEncoder::MotionJpeg => "video/x-msvideo"@,
                _ => "video/mp4"@,
            }),
    {
        match self {
            VideoEncoder::MotionJpeg => "video/x-msvideo",
            _ => "video/mp4",
        }
    }
}

/// How the choice of a region ended.
#[derive(Debug)]
pub enum OverlayOutcome<S> {
    Complete(S),
    Download(S),
    Pin(S),
    Scroll(S),
    Cancel,
}

/// The region that was chosen, whatever is to be done with it.
pub fn selection_of<S>(outcome: OverlayOutcome<S>) -> (r: Option<S>)
    ensures
        r == (match outcome {
            OverlayOutcome::Complete(s) => Some(s),
            OverlayOutcome::Download(s) => Some(s),
            OverlayOutcome::Pin(s) => Some(s),
            OverlayOutcome::Scroll(s) => Some(s),
            OverlayOutcome::Cancel => None,
        }),
{
    match outcome {
        OverlayOutcome::Complete(s) => Some(s),
        OverlayOutcome::Download(s) => Some(s),
        OverlayOutcome::Pin(s) => Some(s),
        OverlayOutcome::Scroll(s) => Some(s),
        OverlayOutcome::Cancel => None,
    }
}

/// The time stamp `r` that a frame is given: at every rate `fps` frames make a second,
/// and a frame is stamped with the whole microseconds that have passed by then. So
/// frame `fps` is stamped one second after the start, and the next frame of a rate of
/// at most a million a second is stamped later.
pub proof fn time_stamps_follow_the_rate(frame_index: u64, fps: u32, r: u64, next: u64)
    requires
        call_ensures(recording_timestamp_us, (frame_index, fps), r),
        frame_index * 1000000 + 1000000 <= u64::MAX,
        call_ensures(recording_timestamp_us, ((frame_index + 1) as u64, fps), next),
        fps >= 1,
    ensures
        r * fps <= frame_index * 1000000 < (r + 1) * fps,
        frame_index % (fps as u64) == 0 ==> r == frame_index / (fps as u64) * 1000000,
        fps <= 1000000 ==> r < next,
{
    frames_follow_the_rate(frame_index, fps, (frame_index / (fps as u64)) as u64);
    frames_follow_the_rate((frame_index + 1) as u64, fps, 0);
    let k = frame_index as int / fps as int;
    if frame_index % (fps as u64) == 0 {
        vstd::arithmetic::div_mod::lemma_fundamental_div_mod(frame_index as int, fps as int);
        assert(frame_index == k * fps) by (nonlinear_arith)
            requires
                frame_index == fps * k + 0,
        ;
    }
    if fps <= 1000000 && r >= next {
        assert(false) by (nonlinear_arith)
            requires
                r >= next,
                r * fps <= frame_index * 1000000,
                (frame_index + 1) * 1000000 < (next + 1) * fps,
                fps <= 1000000,
        ;
    }
}

/// The time `r` at which a frame is due is its time stamp after the start, or the last
/// time there is.
pub proof fn frames_are_due_at_their_stamps(
    started_us: u64,
    frame_index: u64,
    fps: u32,
    stamp: u64,
    r: u64,
)
    requires
        call_ensures(recording_timestamp_us, (frame_index, fps), stamp),
        call_ensures(recording_deadline, (started_us, frame_index, fps), r),
    ensures
        r == (if started_us + stamp <= u64::MAX {
            started_us + stamp
        } else {
            u64::MAX as int
        }),
{
}

/// What a recording does next, `r`: without a wish to end it takes the frame that it has
/// come to, due and stamped as that frame is. It is cancelled at once, but it stops only
/// after its first frame.
pub proof fn recordings_take_their_frames(
    rec: Recorder,
    stop_requested: bool,
    cancelled: bool,
    r: RecordStep,
    stamp: u64,
    due: u64,
)
    requires
        call_ensures(Recorder::next, (&rec, stop_requested, cancelled), r),
        call_ensures(recording_timestamp_us, (rec.frame_index, rec.fps), stamp),
        call_ensures(recording_deadline, (rec.started_us, rec.frame_index, rec.fps), due),
    ensures
        r == RecordStep::Finish <==> stop_requested && rec.frame_index >= 1,
        r == RecordStep::Cancel <==> cancelled && !(stop_requested && rec.frame_index >= 1),
        !cancelled && (!stop_requested || rec.frame_index == 0) ==> r == (RecordStep::Frame {
            deadline_us: due,
            timestamp_us: stamp,
        }),
{
}

/// Going on leads to the next frame at the same rate.
pub proof fn recordings_go_on(rec: &mut Recorder)
    requires
        call_ensures(Recorder::advance, (rec,), ()),
        old(rec).frame_index < u64::MAX,
    ensures
        final(rec).frame_index == old(rec).frame_index + 1,
        final(rec).fps == old(rec).fps,
        final(rec).started_us == old(rec).started_us,
{
}

/// While waiting, `r`: a cancellation is noticed at once, the frame is taken as soon as
/// its time has come, and until then nobody sleeps past that time nor longer than 20
/// milliseconds.
pub proof fn waiting_ends_in_time(now_us: u64, deadline_us: u64, cancelled: bool, r: WaitStep)
    requires
        call_ensures(wait_until_recording_deadline, (now_us, deadline_us, cancelled), r),
    ensures
        r == WaitStep::Cancel <==> cancelled,
        r == WaitStep::Ready <==> !cancelled && now_us >= deadline_us,
        r matches WaitStep::Sleep(us) ==> {
            &&& 0 < us <= 20000
            &&& now_us + us <= deadline_us
            &&& us == 20000 || now_us + us == deadline_us
        },
{
}

/// The rates and numbers of frames that are used: what was asked for, brought into the
/// range that each kind of recording has.
pub proof fn rates_are_as_asked_within_range(
    gif: u16,
    gif_r: u16,
    video: u32,
    platform: Platform,
    video_r: u32,
    frames: u32,
    frames_r: u32,
)
    requires
        call_ensures(gif_fps, (gif,), gif_r),
        call_ensures(video_fps, (video, platform), video_r),
        call_ensures(scroll_frames, (frames,), frames_r),
    ensures
        8 <= gif <= 15 ==> gif_r == gif,
        gif < 8 ==> gif_r == 8,
        gif > 15 ==> gif_r == 15,
        10 <= video <= 30 ==> video_r == video,
        platform == Platform::MacOs && 30 < video <= 60 ==> video_r == video,
        video < 10 ==> video_r == 10,
        platform == Platform::MacOs && video > 60 ==> video_r == 60,
        platform != Platform::MacOs && video > 30 ==> video_r == 30,
        2 <= frames <= 40 ==> frames_r == frames,
        frames < 2 ==> frames_r == 2,
        frames > 40 ==> frames_r == 40,
{
}

/// A scrolling capture, `r`, takes as many frames as it is to, scrolling before each but
/// the first, unless it is cancelled or the frames do not fit together any more.
pub proof fn scrolling_takes_its_frames(
    taken: u32,
    frames: u32,
    cancelled: bool,
    lost: bool,
    wanted: u32,
    r: ScrollStep,
)
    requires
        call_ensures(scroll_frames, (frames,), wanted),
        call_ensures(scroll_next, (taken, frames, cancelled, lost), r),
    ensures
        r == ScrollStep::Finish <==> lost || taken >= wanted,
        r == ScrollStep::Cancel <==> cancelled && !lost && taken < wanted,
        !cancelled && !lost && taken < wanted ==> r == (ScrollStep::Frame {
            scroll_first: taken != 0,
        }),
{
}

/// One recording goes on at a time: none begins while one does, and one that begins has
/// a lease of its own.
pub proof fn one_recording_at_a_time(
    c: &mut RecordingController,
    r: Result<RecordingLease, String>,
)
    requires
        call_ensures(RecordingController::begin, (c,), r),
    ensures
        r is Ok <==> old(c).active is None,
        r matches Ok(lease) ==> {
            &&& final(c).active == Some(ActiveRecording { id: lease.id, stop: false })
            &&& final(c).next_id == lease.id
            &&& lease.id != old(c).next_id
        },
        r is Err ==> *final(c) == *old(c),
{
}

/// A wish to stop reaches the recording that goes on and no other, and its lease is told
/// so.
pub proof fn wishes_to_stop_arrive(
    c: &mut RecordingController,
    r: bool,
    lease: RecordingLease,
    told: bool,
)
    requires
        call_ensures(RecordingController::request_stop, (c,), r),
        call_ensures(RecordingController::stop_requested, (&*final(c), &lease), told),
    ensures
        r <==> old(c).active is Some,
        old(c).active is Some ==> final(c).active is Some && final(c).active->0.id
            == old(c).active->0.id,
        told,
{
}

/// A recording that has ended makes room for another; the end of one lease does not end
/// the recording of another.
pub proof fn ended_recordings_make_room(c: &mut RecordingController, lease: RecordingLease)
    requires
        call_ensures(RecordingController::release, (c, lease), ()),
    ensures
        old(c).active matches Some(a) ==> (if a.id == lease.id {
            final(c).active is None
        } else {
            final(c).active == Some(a)
        }),
        old(c).active is None ==> final(c).active is None,
{
}

/// A recording with the microphone waits for leave on a Mac alone, and only as long as
/// it has none. A Mac and Windows encode with their own encoders where those work, and
/// the media type tells which form came out.
pub proof fn sound_and_encoder_follow_the_platform(
    platform: Platform,
    audio: AudioSource,
    allowed: bool,
    ask: bool,
    works: bool,
    encoder: VideoEncoder,
    mime: &'static str,
)
    requires
        call_ensures(must_ask_for_microphone, (platform, audio, allowed), ask),
        call_ensures(choose_encoder, (platform, works), encoder),
        call_ensures(VideoEncoder::mime, (&encoder,), mime),
    ensures
        ask <==> platform == Platform::MacOs && !allowed && (audio == AudioSource::Microphone
            || audio == AudioSource::Both),
        encoder == VideoEncoder::Mac <==> platform == Platform::MacOs,
        encoder == VideoEncoder::WindowsHardware <==> platform == Platform::Windows && works,
        encoder == VideoEncoder::MotionJpeg ==> mime@ == "video/x-msvideo"@,
        encoder != VideoEncoder::MotionJpeg ==> mime@ == "video/mp4"@,
{
}

/// Every choice of a region gives the region, whatever is to be done with it.
pub proof fn chosen_regions_are_used<S>(outcome: OverlayOutcome<S>, r: Option<S>)
    requires
        call_ensures(selection_of::<S>, (outcome,), r),
    ensures
        r is None <==> outcome is Cancel,
        outcome matches OverlayOutcome::Complete(s) ==> r == Some(s),
        outcome matches OverlayOutcome::Download(s) ==> r == Some(s),
        outcome matches OverlayOutcome::Pin(s) ==> r == Some(s),
        outcome matches OverlayOutcome::Scroll(s) ==> r == Some(s),
{
}


} // verus!
