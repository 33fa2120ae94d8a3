//! The steps that prepare the database.

use vstd::prelude::*;

use crate::text::{parse_i64, signed_value};

verus! {

/// The version that the database is marked with.
pub const SCHEMA_VERSION: i64 = 1;

/// The version that a database is marked with: none or an unreadable mark is
/// zero.
pub fn schema_version(mark: Option<&str>) -> (r: i64)
    ensures
        r == (match mark {
            None => 0int,
            Some(s) => match signed_value(s@) {
                Some(v) => if i64::MIN <= v <= i64::MAX {
                    v
                } else {
                    0
                },
                None => 0,
            },
        }),
{
    match mark {
        None => 0,
        Some(s) => match parse_i64(s) {
            Some(v) => v,
            None => 0,
        },
    }
}

/// A way to cut texts for the full-text index.
#[derive(Clone, Copy, Debug, PartialEq, Eq, Structural)]
pub enum Tokenizer {
    Trigram,
    Unicode61,
}

/// A step of preparing the full-text index.
#[derive(Clone, Copy, Debug, PartialEq, Eq, Structural)]
pub enum FtsStep {
    Create(Tokenizer),
    Record(Tokenizer),
    CreateTriggers,
}

/// The steps that prepare the full-text index: nothing if it is there. Else the
/// index is made with trigrams, or without where they are not to be had, the
/// choice is recorded, and the triggers that keep the index follow.
pub open spec fn fts_steps(exists: bool, trigram_works: bool) -> Seq<FtsStep> {
    if exists {
        Seq::empty()
    } else if trigram_works {
        seq![
            FtsStep::Create(Tokenizer::Trigram),
            FtsStep::Record(Tokenizer::Trigram),
            FtsStep::CreateTriggers,
        ]
    } else {
        seq![
            FtsStep::Create(Tokenizer::Trigram),
            FtsStep::Create(Tokenizer::Unicode61),
            FtsStep::Record(Tokenizer::Unicode61),
            FtsStep::CreateTriggers,
        ]
    }
}

/// The step after the first `done` steps, if any is left.
pub fn ensure_fts(exists: bool, trigram_works: bool, done: usize) -> (r: Option<FtsStep>)
    ensures
        r == (if done < fts_steps(exists, trigram_works).len() {
            Some(fts_steps(exists, trigram_works)[done as int])
        } else {
            None
        }),
{
    if exists {
        return None;
    }
    let steps: Vec<FtsStep> = if trigram_works {
        vec![
            FtsStep::Create(Tokenizer::Trigram),
            FtsStep::Record(Tokenizer::Trigram),
            FtsStep::CreateTriggers,
        ]
    } else {
        vec![
            FtsStep::Create(Tokenizer::Trigram),
            FtsStep::Create(Tokenizer::Unicode61),
            FtsStep::Record(Tokenizer::Unicode61),
            FtsStep::CreateTriggers,
        ]
    };
    assert(steps@ =~= fts_steps(exists, trigram_works));
    if done < steps.len() {
        Some(steps[done])
    } else {
        None
    }
}

impl Tokenizer {
    /// The name of the tokenizer.
    pub fn as_str(&self) -> (r: &'static str)
        ensures
            r@ == (match *self {
                Tokenizer::Trigram => "trigram"@,
                Tokenizer::Unicode61 => "unicode61"@,
            }),
    {
        match self {
            Tokenizer::Trigram => "trigram",
            Tokenizer::Unicode61 => "unicode61",
        }
    }
}

/// An index that is there is left alone. Otherwise trigrams are tried first, something
/// else only where they do not work, what was made last is what is recorded, and the
/// triggers come at the end.
pub proof fn index_is_prepared_once(exists: bool, trigram_works: bool)
    ensures
        ({
            let steps = fts_steps(exists, trigram_works);
            let n = steps.len() as int;
            &&& exists ==> n == 0
            &&& !exists ==> {
                &&& n >= 3
                &&& steps[0] == FtsStep::Create(Tokenizer::Trigram)
                &&& steps[n - 1] == FtsStep::CreateTriggers
                &&& steps[n - 3] is Create
                &&& steps[n - 2] == FtsStep::Record(steps[n - 3]->Create_0)
                &&& steps[n - 3]->Create_0 == (if trigram_works {
                    Tokenizer::Trigram
                } else {
                    Tokenizer::Unicode61
                })
                &&& trigram_works ==> n == 3
                &&& !trigram_works ==> n == 4
            }
        }),
{
}


/// A database is of the version whose number, in decimal, it is marked with, and of version
/// zero without such a mark.
pub proof fn marks_tell_the_version(n: i64, mark: &str, r: i64, none: i64)
    requires
        mark@ == crate::text::decimal_int(n as int),
        call_ensures(schema_version, (Some(mark),), r),
        call_ensures(schema_version, (None::<&str>,), none),
    ensures
        r == n,
        none == 0,
{
    crate::text::integers_read_back(n as int, mark@);
}

/// The index is made if it is not there, and its steps end; each tokenizer that is tried
/// last is the one that is recorded.
pub proof fn the_index_is_made(
    works: bool,
    there: Option<FtsStep>,
    first: Option<FtsStep>,
    second: Option<FtsStep>,
    third: Option<FtsStep>,
    fourth: Option<FtsStep>,
    fifth: Option<FtsStep>,
    done: usize,
)
    requires
        call_ensures(ensure_fts, (true, works, done), there),
        call_ensures(ensure_fts, (false, works, 0), first),
        call_ensures(ensure_fts, (false, works, 1), second),
        call_ensures(ensure_fts, (false, works, 2), third),
        call_ensures(ensure_fts, (false, works, 3), fourth),
        call_ensures(ensure_fts, (false, works, 4), fifth),
    ensures
        there is None,
        first == Some(FtsStep::Create(Tokenizer::Trigram)),
        works ==> second == Some(FtsStep::Record(Tokenizer::Trigram)) && third == Some(
            FtsStep::CreateTriggers,
        ) && fourth is None,
        !works ==> second == Some(FtsStep::Create(Tokenizer::Unicode61)) && third == Some(
            FtsStep::Record(Tokenizer::Unicode61),
        ) && fourth == Some(FtsStep::CreateTriggers) && fifth is None,
{
}


} // verus!
