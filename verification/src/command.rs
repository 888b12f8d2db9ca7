//! Decisions of the command line front end.
use vstd::prelude::*;

verus! {

/// The number of parallel lookup workers: the number asked for, else the
/// number of CPUs where it can be told, else one.
pub fn worker_count(requested: Option<usize>, available: Option<usize>) -> (r: usize)
    ensures
        r == match requested {
            Some(n) => n,
            None => match available {
                Some(n) => n,
                None => 1,
            },
        },
{
    match requested {
        Some(n) => n,
        None => match available {
            Some(n) => n,
            None => 1,
        },
    }
}

} // verus!
