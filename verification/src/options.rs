use crate::constants::DEFAULT_HEIGHT;
use vstd::prelude::*;

verus! {

/// How a session is shown and what its result carries.
#[derive(Debug)]
pub struct Options {
    /// Put the immediate marker in front of a command whose last node is
    /// flagged immediate.
    pub print_immediate_tag: bool,
    /// Draw a border around the menu.
    pub border: bool,
    /// Height of the content area, borders not counted.
    pub height: usize,
}

impl Default for Options {
    /// No immediate marker, no border, the default height.
    fn default() -> (options: Options)
        ensures
            !options.print_immediate_tag,
            !options.border,
            options.height == DEFAULT_HEIGHT,
    {
        Options { print_immediate_tag: false, border: false, height: DEFAULT_HEIGHT }
    }
}

} // verus!
