use vstd::prelude::*;

pub mod prompt;
pub mod pyrunner;

verus! {

/// Brings the embedded interpreter up and runs a short greeting script,
/// discarding the outcome.
pub fn lib() {
    let req = crate::pyrunner::PyRunner::new();
    let _ = req.run_script("print('Hi')");
}

} // verus!
