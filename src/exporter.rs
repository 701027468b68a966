//! Routing of the metrics endpoint: one path serves the snapshot, every
//! other path is not found.

use vstd::prelude::*;

verus! {

/// What a request to the metrics listener gets.
#[derive(Clone, Copy, Debug, PartialEq, Eq, Structural)]
pub enum Route {
    Metrics,
    NotFound,
}

/// The path that serves the metrics snapshot.
pub open spec fn metrics_path() -> Seq<char> {
    "/metrics"@
}

/// Routes a request path: `/metrics` exactly, or not found.
pub fn route(path: &String) -> (r: Route)
    ensures
        r == (if path@ == metrics_path() {
            Route::Metrics
        } else {
            Route::NotFound
        }),
{
    if *path == "/metrics".to_string() {
        Route::Metrics
    } else {
        Route::NotFound
    }
}

} // verus!
