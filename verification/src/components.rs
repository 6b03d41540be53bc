use vstd::prelude::*;
use crate::page::Page;

verus! {

/// A renderable unit of a host application.  An implementation returns the
/// markup for one occurrence and may register head content on the page it
/// is handed; implementations are the host's own and carry no contract.
pub trait Component {
    fn to_render(&self, page: &mut Page) -> String;
}

} // verus!
