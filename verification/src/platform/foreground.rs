//! The program in front.

use vstd::prelude::*;

verus! {

/// The program in front, as far as it can be told.
#[derive(Debug)]
pub struct ForegroundApp {
    pub name: Option<String>,
    pub identifier: Option<String>,
}

impl Default for ForegroundApp {
    fn default() -> (r: Self)
        ensures
            r.name is None,
            r.identifier is None,
    {
        ForegroundApp { name: None, identifier: None }
    }
}

/// The program in front from what the system reports: nothing is known of it
/// where the system reports none.
pub fn foreground_app(reported: Option<ForegroundApp>) -> (r: ForegroundApp)
    ensures
        match reported {
            Some(app) => r == app,
            None => r.name is None && r.identifier is None,
        },
{
    match reported {
        Some(app) => app,
        None => ForegroundApp { name: None, identifier: None },
    }
}

/// A program known only by its file: the name of the file stands for both.
pub fn from_executable(stem: Option<String>) -> (r: ForegroundApp)
    ensures
        match stem {
            Some(s) => r.name matches Some(n) && n@ == s@ && r.identifier == Some(s),
            None => r.name is None && r.identifier is None,
        },
{
    match stem {
        Some(s) => ForegroundApp { name: Some(s.clone()), identifier: Some(s) },
        None => ForegroundApp { name: None, identifier: None },
    }
}

/// What the system reports of the program in front is what is known of it; a program known
/// by its file alone goes by the name of the file.
pub proof fn reported_programs_are_known(
    reported: Option<ForegroundApp>,
    r: ForegroundApp,
    stem: Option<String>,
    f: ForegroundApp,
)
    requires
        call_ensures(foreground_app, (reported,), r),
        call_ensures(from_executable, (stem,), f),
    ensures
        reported is Some ==> r.name == reported->0.name && r.identifier == reported->0.identifier,
        reported is None ==> r.name is None && r.identifier is None,
        (f.name is Some) == (stem is Some) && (f.identifier is Some) == (stem is Some),
        stem is Some ==> f.name->0@ == stem->0@ && f.identifier->0@ == stem->0@,
{
}


} // verus!
