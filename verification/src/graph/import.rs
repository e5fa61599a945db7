//! Importing graphs: the errors that importing gives, and road networks from OpenStreetMap data.
pub mod osm;
pub mod pbf;

use vstd::prelude::*;

verus! {

/// The ways in which importing a graph can fail.
#[derive(Debug)]
pub enum ImportError {
    /// The file is not there; the message names it.
    MissingFile(String),
    /// The file's content is not in the expected format.
    InvalidFormat(String),
}

} // verus!
