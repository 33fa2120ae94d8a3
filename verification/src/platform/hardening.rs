//! Paths that stay inside a directory, start with the system, and traces of a
//! crash.

use vstd::prelude::*;

use crate::path::{join_path, joined_path};
use crate::sync::archive::{slash_name, slashed};
use crate::sync::webdav::{entities_are_read_back, entities_decoded, entities_written, entity};
use crate::text::{
    begins_with, contains_char, occurs_at, pieces, same_text, split, texts, trim_start_char, trim_start_matching,
};

verus! {

/// Why a relative path is refused.
#[derive(Clone, Copy, Debug, PartialEq, Eq, Structural)]
pub enum JoinError {
    /// It is empty or holds a character that no path can hold.
    Invalid,
    /// One of its parts would lead elsewhere.
    Traversal,
}

impl JoinError {
    /// The message shown for the error.
    pub fn message(&self) -> (r: &'static str)
        ensures
            r@ == (match *self {
                JoinError::Invalid => "invalid or empty relative path"@,
                JoinError::Traversal => "path traversal attempt detected"@,
            }),
    {
        match self {
            JoinError::Invalid => "invalid or empty relative path",
            JoinError::Traversal => "path traversal attempt detected",
        }
    }
}

/// A relative path with `/` for each `\`, and none at its start.
pub open spec fn clean_relative(relative: Seq<char>) -> Seq<char> {
    trim_start_char(slashed(relative), '/')
}

/// Whether a part of a path leads elsewhere than into the directory it names.
pub open spec fn leads_elsewhere(segment: Seq<char>) -> bool {
    segment == ".."@ || segment == "."@ || segment.contains(':')
}

/// Why a relative path is refused, if it is.
pub open spec fn join_refusal(relative: Seq<char>) -> Option<JoinError> {
    let clean = clean_relative(relative);
    if clean.len() == 0 || clean.contains('\0') {
        Some(JoinError::Invalid)
    } else if exists|i: int|
        0 <= i < pieces(clean, '/').len() && leads_elsewhere(#[trigger] pieces(clean, '/')[i]) {
        Some(JoinError::Traversal)
    } else {
        None
    }
}

/// The path of a relative path in a directory. What comes out is in the
/// directory: it is the directory, a separator and parts that lead nowhere else.
pub fn safe_join_relative(base_dir: &str, relative: &str) -> (r: Result<String, JoinError>)
    ensures
        match r {
            Ok(path) => {
                &&& join_refusal(relative@) is None
                &&& path@ == joined_path(base_dir@, clean_relative(relative@))
            },
            Err(e) => join_refusal(relative@) == Some(e),
        },
{
    let slashes = slash_name(relative);
    let clean = trim_start_matching(slashes.as_str(), '/');
    if clean.as_str().is_empty() || contains_char(clean.as_str(), '\0') {
        return Err(JoinError::Invalid);
    }
    let segments = split(clean.as_str(), '/');
    let ghost parts = pieces(clean@, '/');
    let mut i: usize = 0;
    while i < segments.len()
        invariant
            i <= segments@.len(),
            texts(segments@) == parts,
            parts == pieces(clean@, '/'),
            clean@ == clean_relative(relative@),
            clean@.len() > 0,
            !clean@.contains('\0'),
            forall|j: int| 0 <= j < i ==> !leads_elsewhere(#[trigger] parts[j]),
        decreases segments@.len() - i,
    {
        let s = &segments[i];
        proof {
            assert(texts(segments@)[i as int] == segments@[i as int]@);
        }
        if same_text(s.as_str(), "..") || same_text(s.as_str(), ".") || contains_char(
            s.as_str(),
            ':',
        ) {
            assert(leads_elsewhere(parts[i as int]));
            return Err(JoinError::Traversal);
        }
        i += 1;
    }
    Ok(join_path(base_dir, clean.as_str()))
}

/// Nothing of a path that was joined leads out of the directory: after the
/// directory comes a separator, and no part after it is empty at the start, goes
/// up, stays, or names a drive.
pub proof fn joined_path_stays_inside(base: Seq<char>, relative: Seq<char>)
    requires
        join_refusal(relative) is None,
        base.len() > 0,
    ensures
        ({
            let clean = clean_relative(relative);
            let path = joined_path(base, clean);
            &&& path.len() > base.len()
            &&& path.take(base.len() as int) == base
            &&& path.skip(path.len() - clean.len()) == clean
            &&& path[path.len() - clean.len() - 1] == '/'
            &&& clean[0] != '/'
            &&& forall|i: int|
                0 <= i < pieces(clean, '/').len() ==> !leads_elsewhere(
                    #[trigger] pieces(clean, '/')[i],
                )
        }),
{
    let clean = clean_relative(relative);
    lemma_trimmed_start(slashed(relative), '/');
    let path = joined_path(base, clean);
    assert(path.take(base.len() as int) =~= base);
    assert(path.skip(path.len() - clean.len()) =~= clean);
}

proof fn lemma_trimmed_start(s: Seq<char>, c: char)
    ensures
        trim_start_char(s, c).len() > 0 ==> trim_start_char(s, c)[0] != c,
    decreases s.len(),
{
    if s.len() > 0 && s[0] == c {
        lemma_trimmed_start(s.skip(1), c);
    }
}

/// How a character is written in XML text.
pub open spec fn xml_char(c: char) -> Seq<char> {
    if c == '&' {
        "&amp;"@
    } else if c == '<' {
        "&lt;"@
    } else if c == '>' {
        "&gt;"@
    } else if c == '"' {
        "&quot;"@
    } else if c == '\'' {
        "&apos;"@
    } else {
        seq![c]
    }
}

/// A text as XML text.
pub open spec fn xml_escaped(s: Seq<char>) -> Seq<char>
    decreases s.len(),
{
    if s.len() == 0 {
        Seq::empty()
    } else {
        xml_escaped(s.drop_last()) + xml_char(s.last())
    }
}

/// A text as XML text.
pub fn xml_escape(s: &str) -> (r: String)
    ensures
        r@ == xml_escaped(s@),
{
    let mut out = String::new();
    assert(s@.take(0).len() == 0);
    for c in it: s.chars()
        invariant
            it.seq() == s@,
            out@ == xml_escaped(s@.take(it.index())),
    {
        let ghost before = out@;
        proof {
            assert(s@.take(it.index() + 1).drop_last() =~= s@.take(it.index()));
            assert(s@.take(it.index() + 1).last() == c);
        }
        if c == '&' {
            out.push_str("&amp;");
        } else if c == '<' {
            out.push_str("&lt;");
        } else if c == '>' {
            out.push_str("&gt;");
        } else if c == '"' {
            out.push_str("&quot;");
        } else if c == '\'' {
            out.push_str("&apos;");
        } else {
            out.push(c);
        }
        assert(out@ =~= before + xml_char(c));
    }
    assert(s@.take(s@.len() as int) =~= s@);
    out
}

/// The system that a program is to start with.
#[derive(Clone, Copy, Debug, PartialEq, Eq, Structural)]
pub enum Platform {
    MacOs,
    Windows,
    Other,
}

/// What makes a program start with the system.
#[derive(Debug)]
pub enum Autostart {
    /// A file to be written, and the directory to be created for it.
    File { dir: String, path: String, body: String },
    /// A value to be set in the registry, and how the setting is reported.
    Registry { value: String, report: String },
}

/// The directory of the entries of programs that start with the system.
pub open spec fn autostart_dir(platform: Platform, home: Seq<char>) -> Seq<char> {
    if platform == Platform::MacOs {
        joined_path(home, "Library/LaunchAgents"@)
    } else {
        joined_path(home, ".config/autostart"@)
    }
}

/// The property list that starts a program.
pub open spec fn plist_body(label: Seq<char>, exe: Seq<char>) -> Seq<char> {
    "<?xml version=\"1.0\" encoding=\"UTF-8\"?>\n<!DOCTYPE plist PUBLIC \"-//Apple//DTD PLIST 1.0//EN\" \"http://www.apple.com/DTDs/PropertyList-1.0.dtd\">\n<plist version=\"1.0\"><dict>\n  <key>Label</key><string>"@
        + xml_escaped(label)
        + "</string>\n  <key>ProgramArguments</key><array><string>"@ + xml_escaped(exe)
        + "</string></array>\n  <key>RunAtLoad</key><true/>\n</dict></plist>\n"@
}

/// The desktop entry that starts a program.
pub open spec fn desktop_body(label: Seq<char>, exe: Seq<char>) -> Seq<char> {
    "[Desktop Entry]\nType=Application\nName="@ + label + "\nExec=\""@ + exe
        + "\"\nHidden=false\nNoDisplay=false\nX-GNOME-Autostart-enabled=true\n"@
}

/// The property list that starts a program.
pub fn write_autostart_plist(label: &str, exe: &str) -> (r: String)
    ensures
        r@ == plist_body(label@, exe@),
{
    let mut out = "<?xml version=\"1.0\" encoding=\"UTF-8\"?>\n<!DOCTYPE plist PUBLIC \"-//Apple//DTD PLIST 1.0//EN\" \"http://www.apple.com/DTDs/PropertyList-1.0.dtd\">\n<plist version=\"1.0\"><dict>\n  <key>Label</key><string>".to_owned();
    let escaped_label = xml_escape(label);
    let escaped_exe = xml_escape(exe);
    out.push_str(escaped_label.as_str());
    out.push_str("</string>\n  <key>ProgramArguments</key><array><string>");
    out.push_str(escaped_exe.as_str());
    out.push_str("</string></array>\n  <key>RunAtLoad</key><true/>\n</dict></plist>\n");
    out
}

/// The desktop entry that starts a program.
pub fn write_linux_autostart_desktop(label: &str, exe: &str) -> (r: String)
    ensures
        r@ == desktop_body(label@, exe@),
{
    let mut out = "[Desktop Entry]\nType=Application\nName=".to_owned();
    out.push_str(label);
    out.push_str("\nExec=\"");
    out.push_str(exe);
    out.push_str("\"\nHidden=false\nNoDisplay=false\nX-GNOME-Autostart-enabled=true\n");
    out
}

/// What makes a program start with the system, in a user's home directory.
pub fn configure_autostart(platform: Platform, home: &str, label: &str, exe: &str) -> (r: Autostart)
    ensures
        match platform {
            Platform::MacOs => {
                &&& r matches Autostart::File { dir, path, body }
                &&& dir@ == autostart_dir(platform, home@)
                &&& path@ == joined_path(dir@, label@ + ".plist"@)
                &&& body@ == plist_body(label@, exe@)
            },
            Platform::Windows => {
                &&& r matches Autostart::Registry { value, report }
                &&& value@ == seq!['"'] + exe@ + seq!['"']
                &&& report@
                    == "HKCU\\Software\\Microsoft\\Windows\\CurrentVersion\\Run -> "@ + label@
            },
            Platform::Other => {
                &&& r matches Autostart::File { dir, path, body }
                &&& dir@ == autostart_dir(platform, home@)
                &&& path@ == joined_path(dir@, label@ + ".desktop"@)
                &&& body@ == desktop_body(label@, exe@)
            },
        },
{
    match platform {
        Platform::MacOs => {
            let dir = join_path(home, "Library/LaunchAgents");
            let mut name = label.to_owned();
            name.push_str(".plist");
            let path = join_path(dir.as_str(), name.as_str());
            Autostart::File { dir, path, body: write_autostart_plist(label, exe) }
        },
        Platform::Windows => {
            let mut value = String::new();
            value.push('"');
            value.push_str(exe);
            value.push('"');
            assert(value@ =~= seq!['"'] + exe@ + seq!['"']);
            let mut report = "HKCU\\Software\\Microsoft\\Windows\\CurrentVersion\\Run -> ".to_owned();
            report.push_str(label);
            Autostart::Registry { value, report }
        },
        Platform::Other => {
            let dir = join_path(home, ".config/autostart");
            let mut name = label.to_owned();
            name.push_str(".desktop");
            let path = join_path(dir.as_str(), name.as_str());
            Autostart::File { dir, path, body: write_linux_autostart_desktop(label, exe) }
        },
    }
}

/// Whether the last session ended without removing its mark: the mark was there
/// and was not empty.
pub fn ended_uncleanly(marker_existed: bool, marker_len: u64) -> (r: bool)
    ensures
        r == (marker_existed && marker_len > 0),
{
    marker_existed && marker_len > 0
}

/// A relative path is accepted just if something is left of it without separators at
/// its beginning, it has no zero character, and none of its parts is `..` or `.` or
/// holds a colon. Ordinary names of any length and depth are.
pub proof fn ordinary_paths_are_accepted(relative: Seq<char>)
    ensures
        ({
            let clean = trim_start_char(slashed(relative), '/');
            &&& clean_relative(relative) == clean
            &&& join_refusal(relative) is None <==> {
                &&& clean.len() > 0
                &&& !clean.contains('\0')
                &&& forall|i: int|
                    0 <= i < pieces(clean, '/').len() ==> #[trigger] pieces(clean, '/')[i] != ".."@
                        && pieces(clean, '/')[i] != "."@ && !pieces(clean, '/')[i].contains(':')
            }
            &&& join_refusal(relative) == Some(JoinError::Invalid) <==> clean.len() == 0
                || clean.contains('\0')
        }),
{
    let clean = clean_relative(relative);
    if clean.len() > 0 && !clean.contains('\0') && (forall|i: int|
        0 <= i < pieces(clean, '/').len() ==> #[trigger] pieces(clean, '/')[i] != ".."@ && pieces(
            clean,
            '/',
        )[i] != "."@ && !pieces(clean, '/')[i].contains(':')) {
        assert forall|i: int| 0 <= i < pieces(clean, '/').len() implies !leads_elsewhere(
            #[trigger] pieces(clean, '/')[i],
        ) by {}
    }
    if join_refusal(relative) is None {
        assert forall|i: int| 0 <= i < pieces(clean, '/').len() implies #[trigger] pieces(
            clean,
            '/',
        )[i] != ".."@ && pieces(clean, '/')[i] != "."@ && !pieces(clean, '/')[i].contains(':') by {
            assert(!leads_elsewhere(pieces(clean, '/')[i]));
        }
    }
}

proof fn lemma_escaped_front(s: Seq<char>)
    requires
        s.len() > 0,
    ensures
        xml_escaped(s) == xml_char(s[0]) + xml_escaped(s.skip(1)),
    decreases s.len(),
{
    if s.len() == 1 {
        assert(s.drop_last() =~= Seq::<char>::empty());
        assert(s.skip(1) =~= Seq::<char>::empty());
        assert(xml_escaped(s) =~= xml_char(s[0]) + xml_escaped(s.skip(1)));
    } else {
        lemma_escaped_front(s.drop_last());
        assert(s.drop_last().skip(1) =~= s.skip(1).drop_last());
        assert(s.skip(1).last() == s.last());
        assert((xml_char(s[0]) + xml_escaped(s.skip(1).drop_last())) + xml_char(s.last())
            =~= xml_char(s[0]) + (xml_escaped(s.skip(1).drop_last()) + xml_char(s.last())));
    }
}

proof fn lemma_escaped_is_written(s: Seq<char>)
    ensures
        xml_escaped(s) == entities_written(s),
    decreases s.len(),
{
    if s.len() > 0 {
        lemma_escaped_front(s);
        lemma_escaped_is_written(s.skip(1));
        reveal_strlit("&amp;");
        reveal_strlit("&lt;");
        reveal_strlit("&gt;");
        reveal_strlit("&quot;");
        reveal_strlit("&apos;");
        assert(xml_char(s[0]) =~= entity(s[0]));
    }
}

/// A text as XML holds no mark of XML, whatever the text holds, and the text is read
/// back from it. A text with a semicolon may hold what looks like an entity itself.
pub proof fn xml_text_is_read_back(s: Seq<char>)
    ensures
        !s.contains(';') ==> entities_decoded(xml_escaped(s)) == s,
        !xml_escaped(s).contains('<'),
        !xml_escaped(s).contains('>'),
        !xml_escaped(s).contains('"'),
        !xml_escaped(s).contains('\''),
{
    lemma_escaped_is_written(s);
    if !s.contains(';') {
        entities_are_read_back(s);
    }
    lemma_no_marks(s, '<');
    lemma_no_marks(s, '>');
    lemma_no_marks(s, '"');
    lemma_no_marks(s, '\'');
}

proof fn lemma_no_marks(s: Seq<char>, c: char)
    requires
        c == '<' || c == '>' || c == '"' || c == '\'',
    ensures
        !entities_written(s).contains(c),
        !xml_escaped(s).contains(c),
    decreases s.len(),
{
    lemma_escaped_is_written(s);
    let w = entities_written(s);
    if s.len() > 0 && w.contains(c) {
        lemma_no_marks(s.skip(1), c);
        let i = choose|i: int| 0 <= i < w.len() && w[i] == c;
        let head = entity(s[0]);
        if i < head.len() {
            assert(head[i] == c);
        } else {
            assert(entities_written(s.skip(1))[i - head.len()] == c);
        }
    }
}

/// What makes a program start with the system names the program, escaped as its form
/// asks for, in the place for it, and its label.
pub proof fn autostart_names_the_program(label: Seq<char>, exe: Seq<char>)
    ensures
        exists|at: int| #[trigger]
            occurs_at(
                plist_body(label, exe),
                "</string>\n  <key>ProgramArguments</key><array><string>"@ + xml_escaped(exe)
                    + "</string></array>\n  <key>RunAtLoad</key><true/>\n</dict></plist>\n"@,
                at,
            ),
        exists|at: int| #[trigger] occurs_at(plist_body(label, exe), xml_escaped(label), at),
        exists|at: int| #[trigger]
            occurs_at(desktop_body(label, exe), "\nExec=\""@ + exe + "\"\n"@, at),
        begins_with(
            desktop_body(label, exe),
            "[Desktop Entry]\nType=Application\nName="@ + label + "\n"@,
        ),
{
    let plist = plist_body(label, exe);
    let tail = "</string>\n  <key>ProgramArguments</key><array><string>"@ + xml_escaped(exe)
        + "</string></array>\n  <key>RunAtLoad</key><true/>\n</dict></plist>\n"@;
    let front = plist.take(plist.len() - tail.len());
    assert(plist.subrange(plist.len() - tail.len(), plist.len() as int) =~= tail);
    assert(occurs_at(plist, tail, plist.len() - tail.len()));
    let at = front.len() - xml_escaped(label).len();
    assert(plist.subrange(at, at + xml_escaped(label).len()) =~= xml_escaped(label));
    assert(occurs_at(plist, xml_escaped(label), at));
    let entry = desktop_body(label, exe);
    reveal_strlit("\"\nHidden=false\nNoDisplay=false\nX-GNOME-Autostart-enabled=true\n");
    reveal_strlit("\"\n");
    reveal_strlit("\nExec=\"");
    reveal_strlit("\n");
    let head = "[Desktop Entry]\nType=Application\nName="@ + label;
    let run = "\nExec=\""@ + exe + "\"\n"@;
    let k = head.len() as int;
    assert(entry.subrange(k, k + run.len()) =~= run);
    assert(occurs_at(entry, run, k));
    assert(entry.subrange(0, k + 1) =~= head + "\n"@);
}


/// A file is placed, `r`, inside the directory, at the relative path without the
/// separators at its beginning and with slashes for backslashes.
pub proof fn placed_files_are_inside(base: &str, relative: &str, r: Result<String, JoinError>)
    requires
        call_ensures(safe_join_relative, (base, relative), r),
        r is Ok,
        base@.len() > 0,
    ensures
        base@.is_prefix_of(r->Ok_0@),
        trim_start_char(slashed(relative@), '/').is_suffix_of(r->Ok_0@),
        trim_start_char(slashed(relative@), '/').len() > 0,
        !pieces(trim_start_char(slashed(relative@), '/'), '/').contains(".."@),
{
    let clean = clean_relative(relative@);
    ordinary_paths_are_accepted(relative@);
    crate::text::trimming_takes_the_character_alone(slashed(relative@), '/');
    crate::path::joined_path_is_inside(base@, clean);
}

/// What makes a program start with the system names the program, and the program is
/// started again after it ended uncleanly just as the marker tells.
pub proof fn programs_start_with_the_system(
    platform: Platform,
    home: &str,
    label: &str,
    exe: &str,
    r: Autostart,
    existed: bool,
    len: u64,
    unclean: bool,
)
    requires
        call_ensures(configure_autostart, (platform, home, label, exe), r),
        call_ensures(ended_uncleanly, (existed, len), unclean),
    ensures
        r is Registry <==> platform == Platform::Windows,
        r matches Autostart::Registry { value, report } ==> {
            &&& value@.len() == exe@.len() + 2
            &&& value@.subrange(1, value@.len() - 1) == exe@
            &&& value@[0] == '"' && value@.last() == '"'
            &&& label@.is_suffix_of(report@)
        },
        !unclean <==> !existed || len == 0,
{
    if let Autostart::Registry { value, report } = r {
        assert(value@.subrange(1, value@.len() - 1) =~= exe@);
    }
}


} // verus!
