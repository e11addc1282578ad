//! The options the server is started with.

use vstd::prelude::*;

verus! {

/// Options gathered from the command line: the address of an upstream
/// resolver, if one was named. How the command line is read and validated is
/// the caller's concern; the codec only carries the outcome.
pub struct Args {
    /// where to forward questions that no local record answers
    pub resolver: Option<String>,
}

} // verus!
