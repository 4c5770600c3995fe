//! The command line of the note tool.

use vstd::prelude::*;

verus! {

/// The command line: the directory to search (the current one when none is
/// given), and two switches.
pub struct Cli {
    /// Directory to search in.
    pub dir: Option<String>,
    /// Pick dates to add to the note.
    pub add_date: bool,
    /// Keep the front matter out of the editor.
    pub remove_front_matter: bool,
}

} // verus!
