//! Genesis front end: the terminal together with the place where worlds
//! are saved.

use vstd::prelude::*;
use crate::terminal::Terminal;

verus! {

/// Terminal front end implementation.
pub struct TerminalGenesis {
    /// Contains the terminal implementation.
    pub terminal: Terminal,
    /// Where everything should be saved.
    pub base_path: String,
}

impl TerminalGenesis {
    /// Creates a new instance.
    pub fn new(t: Terminal, path: String) -> (r: Self)
        ensures
            r.terminal == t,
            r.base_path == path,
    {
        TerminalGenesis { terminal: t, base_path: path }
    }
}

/// The characters a single-word input may hold: digits, letters, dash and
/// underscore.
pub open spec fn spec_valid_word_char(c: char) -> bool {
    ('0' <= c && c <= '9') || ('a' <= c && c <= 'z') || ('A' <= c && c <= 'Z') || c == '-' || c
        == '_'
}

/// Checks if a character is a valid word character (digit or letter).
pub fn is_valid_word(c: char) -> (r: bool)
    ensures
        r == spec_valid_word_char(c),
{
    (c >= '0' && c <= '9') || (c >= 'a' && c <= 'z') || (c >= 'A' && c <= 'Z') || c == '-' || c
        == '_'
}

} // verus!
