use vstd::prelude::*;

use crate::parser::messages::{spec_parse_message, ParseResult, SerialMessage, SpecParseResult,
    SpecSerialMessage};
use crate::parser::traits::Parser;

verus! {

/// The line parser: it keeps at most one pending multi-line block between
/// calls and classifies each completed line or block.
pub struct WiSunModuleParser {
    pending_message: Option<String>,
}

impl WiSunModuleParser {
    /// The pending block, if a multi-line block is being collected.
    pub closed spec fn pending(&self) -> Option<Seq<char>> {
        match self.pending_message {
            Some(ref s) => Some(s@),
            None => None,
        }
    }

    /// A parser with no pending block.
    pub fn new() -> (r: Self)
        ensures
            r.pending() is None,
    {
        WiSunModuleParser { pending_message: None }
    }

    /// Feed one line: classify the line joined onto any pending block, and
    /// retain the text exactly when more lines are needed.
    pub fn add_line(&mut self, line: &str) -> (r: ParseResult<SerialMessage>)
        ensures
            r@ == spec_add_line(old(self).pending(), line@).1,
            final(self).pending() == spec_add_line(old(self).pending(), line@).0,
    {
        let is_pending = self.pending_message.is_some();
        if !is_pending && line.unicode_len() == 0 {
            return ParseResult::Empty;
        }

        let all_line: String = match &self.pending_message {
            Some(l) => {
                let mut joined = l.clone();
                joined.append("\n");
                joined.append(line);
                proof {
                    reveal_strlit("\n");
                    assert(joined@ =~= old(self).pending().unwrap() + seq!['\n'] + line@);
                }
                joined
            },
            None => line.to_owned(),
        };

        self.pending_message = None;

        match SerialMessage::parse(all_line.as_str()) {
            ParseResult::Done(m) => ParseResult::Done(m),
            ParseResult::Rejected(s) => ParseResult::Rejected(s),
            ParseResult::More => {
                self.pending_message = Some(all_line);
                ParseResult::More
            },
            ParseResult::Empty => ParseResult::Empty,
        }
    }
}


impl Parser for WiSunModuleParser {
    closed spec fn pending(&self) -> Option<Seq<char>> {
        WiSunModuleParser::pending(self)
    }

    fn add_line(&mut self, line: &str) -> (r: ParseResult<SerialMessage>) {
        WiSunModuleParser::add_line(self, line)
    }
}

/// A PAN description is never produced before its block holds all seven
/// lines: whenever one step of the parser yields `PanDesc`, the text it
/// classified splits at line feeds into exactly seven lines.
pub proof fn lemma_pan_desc_needs_seven_lines(pending: Option<Seq<char>>, line: Seq<char>)
    ensures
        (spec_add_line(pending, line).1 matches SpecParseResult::Done(m) && m matches
            SpecSerialMessage::Event(crate::parser::event::SpecWiSunEvent::PanDesc(_)))
            ==> crate::text::spec_split(
            crate::text::SepKind::Lf,
            spec_joined(pending, line),
        ).len() == 7,
{
}

/// The text one parser step classifies: any pending block, a line feed,
/// then the new line.
pub open spec fn spec_joined(pending: Option<Seq<char>>, line: Seq<char>) -> Seq<char> {
    match pending {
        Some(p) => p + seq!['\n'] + line,
        None => line,
    }
}

/// One step of the parser: the new pending block and the outcome.
pub open spec fn spec_add_line(pending: Option<Seq<char>>, line: Seq<char>) -> (
    Option<Seq<char>>,
    SpecParseResult<SpecSerialMessage>,
) {
    if pending is None && line.len() == 0 {
        (None, SpecParseResult::Empty)
    } else {
        let all = match pending {
            Some(p) => p + seq!['\n'] + line,
            None => line,
        };
        match spec_parse_message(all) {
            SpecParseResult::Done(m) => (None, SpecParseResult::Done(m)),
            SpecParseResult::Rejected(s) => (None, SpecParseResult::Rejected(s)),
            SpecParseResult::More => (Some(all), SpecParseResult::More),
            SpecParseResult::Empty => (None, SpecParseResult::Empty),
        }
    }
}

} // verus!
