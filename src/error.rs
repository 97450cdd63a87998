use vstd::prelude::*;

verus! {

/// Failures of the sampling and rendering pipeline. Every one of them is
/// terminal for the activity that reports it.
#[derive(Debug)]
pub enum Error<LCD> {
    /// The display surface reported a failure.
    Lcd(LCD),
    /// A bounded queue overflowed, or was found empty where an entry was owed.
    Queue,
    /// A displayed value did not fit in its text buffer.
    BufferWrite,
}

} // verus!
