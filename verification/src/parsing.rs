pub mod component;
pub mod grammar;
pub mod content;
pub mod control_tag;
pub mod html_tag;
pub mod utils;

use vstd::prelude::*;

verus! {

/// A structural parse failure: a message and the index of the token the
/// diagnostic points at.  For an unterminated construct the position is the
/// index of the token that opened it, so the caret lands on the construct
/// left open rather than on the end of the input.
pub struct ParseError {
    pub message: String,
    pub position: usize,
}

/// The diagnostic for a control construct left open: it names the closing
/// marker that was expected.
pub open spec fn missing_closing_command_message(tag: Seq<char>) -> Seq<char> {
    "missing matching closing tag `{/"@ + tag + "}`"@
}

/// The diagnostic for an element left open: it names the closing tag that
/// was expected.
pub open spec fn missing_closing_tag_message(tag: Seq<char>) -> Seq<char> {
    "missing matching closing tag `</"@ + tag + ">`"@
}

} // verus!
