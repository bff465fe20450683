//! The search for a playable location: random road points are tried one
//! after another until the street-view service finds a panorama near one,
//! giving up after [`MAX_ATTEMPTS`] tries. Each try is made by the caller;
//! the decision after it is made here.

use vstd::prelude::*;

use crate::geo::Location;

verus! {

/// How many road points are tried before the search gives up.
pub const MAX_ATTEMPTS: usize = 100;

/// Where the search stands after a try.
pub enum Search {
    /// A panorama was found: the search is over.
    Found(Location),
    /// Nothing was found yet; the number of tries made so far.
    Retry(usize),
    /// [`MAX_ATTEMPTS`] tries found nothing.
    GaveUp,
}

/// The state after the try numbered `tried` (counting from zero) came back
/// with `outcome`.
pub open spec fn search_step(tried: nat, outcome: Option<Location>) -> Search {
    match outcome {
        Some(l) => Search::Found(l),
        None => if tried + 1 < MAX_ATTEMPTS {
            Search::Retry((tried + 1) as usize)
        } else {
            Search::GaveUp
        },
    }
}

/// Decide how the search goes on after the try numbered `tried` came back
/// with `outcome` (a panorama, or nothing).
pub fn after_attempt(tried: usize, outcome: Option<Location>) -> (s: Search)
    requires
        tried < MAX_ATTEMPTS,
    ensures
        s == search_step(tried as nat, outcome),
{
    match outcome {
        Some(l) => Search::Found(l),
        None => if tried + 1 < MAX_ATTEMPTS {
            Search::Retry(tried + 1)
        } else {
            Search::GaveUp
        },
    }
}

/// A try that finds a panorama ends the search with that very panorama, its
/// position and identifier unchanged; a try that finds nothing asks for the
/// next try, and the last one gives up.
pub proof fn lemma_found_location_ends_search(tried: nat, l: Location)
    requires
        tried < MAX_ATTEMPTS,
    ensures
        search_step(tried, Some(l)) matches Search::Found(f) && f.coordinates == l.coordinates
            && f.pano_id == l.pano_id,
        tried + 1 < MAX_ATTEMPTS ==> (search_step(tried, None) matches Search::Retry(n) && n == tried + 1),
        tried + 1 == MAX_ATTEMPTS ==> search_step(tried, None) is GaveUp,
{
}

} // verus!
