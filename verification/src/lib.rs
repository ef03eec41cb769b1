use vstd::prelude::*;

pub mod markdown;
pub mod text;
pub mod workspace;

verus! {

/// Returns the greeting of the core crate.
pub fn hello() -> (res: &'static str)
    ensures
        res@ == "Hello from oryn-rs"@,
{
    "Hello from oryn-rs"
}

} // verus!
