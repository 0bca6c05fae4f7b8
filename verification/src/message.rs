//! Error messages as the commands report them.

use vstd::prelude::*;

verus! {

/// The message a command reports for an error: its `Display` text.
pub fn display_error<T: core::fmt::Display + ?Sized>(error: &T) -> (r: String)
    ensures
        vstd::string::to_string_from_display_ensures::<T>(error, r),
{
    error.to_string()
}

} // verus!
