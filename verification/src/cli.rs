//! Options for a program built around the library: the input path (`-` for
//! standard input) and a flag reserved for a verbose breakdown mode.  The
//! surrounding program derives its argument parser on its own copy and
//! converts; the library only ever reads these plain fields.

use vstd::prelude::*;

verus! {

/// Program options: an input path and the verbose-breakdown flag.
#[derive(Clone, Debug)]
pub struct Opts {
    pub file: String,
    pub explain: bool,
}

} // verus!
