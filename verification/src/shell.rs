//! Metadata of the manager's main window.

use vstd::prelude::*;

verus! {

/// Title and default size of the main window.
#[derive(Debug)]
pub struct ShellSpec {
    pub title: String,
    pub default_width: i32,
    pub default_height: i32,
}

/// The main window with the given (already translated) title, 820 by 680
/// pixels.
pub fn build_with_title(title: String) -> (s: ShellSpec)
    ensures
        s.title == title,
        s.default_width == 820,
        s.default_height == 680,
{
    ShellSpec { title, default_width: 820, default_height: 680 }
}

} // verus!
