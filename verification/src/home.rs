//! Files below the home directory.

use vstd::prelude::*;

verus! {

/// A file or directory below the home directory.
#[derive(Debug)]
pub struct Location {
    /// The home directory.
    pub home: String,
    /// The path from there.
    pub tail: &'static str,
}

/// The place of `tail` below the home directory, if there is one.
pub fn below(home: Option<&str>, tail: &'static str) -> (location: Option<Location>)
    ensures
        location is Some <==> home is Some,
        location matches Some(l) ==> l.home@ == home->0@ && l.tail == tail,
{
    match home {
        Some(home) => Some(Location { home: home.to_owned(), tail }),
        None => None,
    }
}

} // verus!
