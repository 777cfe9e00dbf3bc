use vstd::prelude::*;

verus! {

/// The query of a redirect request.
#[derive(Debug, PartialEq, Eq)]
pub struct RedirectQuery {
    pub path: String,
    pub connection_id: String,
    pub size: Option<String>,
}

} // verus!
