//! How a failed page request is answered.

use vstd::prelude::*;

verus! {

/// What made a page request fail.
#[derive(Debug, Clone, Copy, PartialEq, Eq, Structural)]
pub enum RouteFailure {
    /// The store could not be read.
    Database,
    /// A deck has no last line.
    LastCsvRow,
    /// No such page.
    PageNotFound,
    /// Any other failure.
    Unknown,
}

/// The HTTP status and the error message answered for a failure.
pub fn failure_response(failure: RouteFailure) -> (r: (u16, String))
    ensures
        match failure {
            RouteFailure::Database => r.0 == 500 && r.1@
                == "the was an error retrieving data from database"@,
            RouteFailure::LastCsvRow => r.0 == 500 && r.1@ == "failed to get last csv row error"@,
            RouteFailure::PageNotFound => r.0 == 404 && r.1@ == "failed to get last csv row error"@,
            RouteFailure::Unknown => r.0 == 500 && r.1@ == "Unknown Internal Error"@,
        },
{
    match failure {
        RouteFailure::Database => (500, "the was an error retrieving data from database".to_owned()),
        RouteFailure::LastCsvRow => (500, "failed to get last csv row error".to_owned()),
        RouteFailure::PageNotFound => (404, "failed to get last csv row error".to_owned()),
        RouteFailure::Unknown => (500, "Unknown Internal Error".to_owned()),
    }
}

} // verus!
