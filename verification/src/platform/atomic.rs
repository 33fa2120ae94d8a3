//! Replacing a file whole: the new contents are written beside it first.

use vstd::prelude::*;

use crate::text::{decimal, push_decimal};

verus! {

/// The ending of the file that new contents are written to.
pub fn temporary_extension(process_id: u32, nonce: u128) -> (r: String)
    ensures
        r@ == "json."@ + decimal(process_id as nat) + "."@ + decimal(nonce as nat) + ".tmp"@,
{
    let mut out = "json.".to_owned();
    push_decimal(&mut out, process_id as u128);
    out.push_str(".");
    push_decimal(&mut out, nonce);
    out.push_str(".tmp");
    out
}

/// A step of replacing a file.
#[derive(Clone, Copy, Debug, PartialEq, Eq, Structural)]
pub enum AtomicStep {
    /// Create the temporary file, which must not be there.
    Create,
    /// Write the contents to it.
    Write,
    /// Bring them to the disk.
    Sync,
    /// Put it in the place of the file.
    Replace,
    /// Bring the directory to the disk.
    SyncDir,
    /// Remove the temporary file.
    RemoveTemporary,
    /// The file was replaced.
    Done,
    /// The file was not replaced.
    Failed,
}

/// The step after one that went well or not. Whatever goes wrong, the temporary
/// file is removed and the replacement has failed.
pub fn atomic_write_next(step: AtomicStep, ok: bool) -> (r: AtomicStep)
    ensures
        r == (match step {
            AtomicStep::Done => AtomicStep::Done,
            AtomicStep::Failed => AtomicStep::Failed,
            AtomicStep::RemoveTemporary => AtomicStep::Failed,
            _ => if !ok {
                AtomicStep::RemoveTemporary
            } else {
                match step {
                    AtomicStep::Create => AtomicStep::Write,
                    AtomicStep::Write => AtomicStep::Sync,
                    AtomicStep::Sync => AtomicStep::Replace,
                    AtomicStep::Replace => AtomicStep::SyncDir,
                    _ => AtomicStep::Done,
                }
            },
        }),
{
    match step {
        AtomicStep::Done => AtomicStep::Done,
        AtomicStep::Failed => AtomicStep::Failed,
        AtomicStep::RemoveTemporary => AtomicStep::Failed,
        _ => if !ok {
            AtomicStep::RemoveTemporary
        } else {
            match step {
                AtomicStep::Create => AtomicStep::Write,
                AtomicStep::Write => AtomicStep::Sync,
                AtomicStep::Sync => AtomicStep::Replace,
                AtomicStep::Replace => AtomicStep::SyncDir,
                _ => AtomicStep::Done,
            }
        },
    }
}

/// A file that all goes well with is replaced in five steps, each once, and is on the disk
/// before it takes the other's place; whatever goes wrong, the temporary file is removed
/// and the replacement has failed.
pub proof fn files_are_replaced_whole(
    ok: bool,
    a: AtomicStep,
    b: AtomicStep,
    c: AtomicStep,
    d: AtomicStep,
    e: AtomicStep,
    step: AtomicStep,
    broken: AtomicStep,
    end: AtomicStep,
)
    requires
        call_ensures(atomic_write_next, (AtomicStep::Create, true), a),
        call_ensures(atomic_write_next, (a, true), b),
        call_ensures(atomic_write_next, (b, true), c),
        call_ensures(atomic_write_next, (c, true), d),
        call_ensures(atomic_write_next, (d, true), e),
        call_ensures(atomic_write_next, (step, false), broken),
        call_ensures(atomic_write_next, (broken, ok), end),
    ensures
        a == AtomicStep::Write && b == AtomicStep::Sync && c == AtomicStep::Replace && d
            == AtomicStep::SyncDir && e == AtomicStep::Done,
        step != AtomicStep::Done ==> end == AtomicStep::Failed,
        step == AtomicStep::Create || step == AtomicStep::Write || step == AtomicStep::Sync || step
            == AtomicStep::Replace || step == AtomicStep::SyncDir ==> broken
            == AtomicStep::RemoveTemporary,
        step == AtomicStep::Done ==> broken == AtomicStep::Done,
{
}

/// Two temporary files of one process have different names if their numbers differ.
pub proof fn temporary_files_differ(process_id: u32, m: u128, n: u128, x: String, y: String)
    requires
        call_ensures(temporary_extension, (process_id, m), x),
        call_ensures(temporary_extension, (process_id, n), y),
        m != n,
    ensures
        x@ != y@,
        ".tmp"@.is_suffix_of(x@),
{
    let head = "json."@ + decimal(process_id as nat) + "."@;
    let a = decimal(m as nat);
    let b = decimal(n as nat);
    let tail = ".tmp"@;
    crate::text::integers_read_back(m as int, a);
    crate::text::integers_read_back(n as int, b);
    if x@ == y@ {
        assert(x@.subrange(head.len() as int, x@.len() - tail.len()) =~= a);
        assert(y@.subrange(head.len() as int, y@.len() - tail.len()) =~= b);
    }
}


} // verus!
