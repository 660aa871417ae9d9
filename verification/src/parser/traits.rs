use vstd::prelude::*;

use crate::parser::messages::{ParseResult, SerialMessage};
use crate::parser::parser::spec_add_line;

verus! {

/// A line classifier: it may hold a pending multi-line block between
/// calls, and turns completed lines or blocks into messages.
pub trait Parser: Sized {
    /// The pending multi-line block, if one is being collected.
    spec fn pending(&self) -> Option<Seq<char>>;

    /// Feed one line and classify what has accumulated.
    fn add_line(&mut self, line: &str) -> (r: ParseResult<SerialMessage>)
        ensures
            r@ == spec_add_line(old(self).pending(), line@).1,
            final(self).pending() == spec_add_line(old(self).pending(), line@).0,
    ;
}

} // verus!
