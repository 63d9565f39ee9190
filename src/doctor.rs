//! Results of the self-check.
use vstd::prelude::*;

verus! {

/// The outcome of one named check, with details for the reader.
pub struct CheckResult {
    pub name: String,
    pub ok: bool,
    pub details: String,
}

impl CheckResult {
    /// A check result from its parts.
    pub fn new(name: String, ok: bool, details: String) -> (r: CheckResult)
        ensures
            r.name@ == name@,
            r.ok == ok,
            r.details@ == details@,
    {
        CheckResult { name, ok, details }
    }
}

/// The result of checking that a path exists; `shown` is how the path is displayed.
pub fn check_path_exists(name: &str, exists: bool, shown: &str) -> (r: CheckResult)
    ensures
        r.name@ == name@,
        r.ok == exists,
        r.details@ == shown@,
{
    CheckResult::new(name.to_owned(), exists, shown.to_owned())
}

} // verus!
