use vstd::prelude::*;

verus! {

/// Where a report goes: the console, an HTML page, or a CSV file.
#[derive(Debug, PartialEq, Eq, Structural)]
pub enum Output {
    Console,
    HTML,
    CSV,
}

} // verus!
