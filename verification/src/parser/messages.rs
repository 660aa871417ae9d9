use vstd::prelude::*;

use crate::parser::event::{spec_parse_wisun_event, SpecWiSunEvent, WiSunEvent};
use crate::text::spec_trim;

verus! {

/// What one call of the parser yields: a finished value, a rejected line,
/// nothing (an empty line), or a request for more lines of a block.
#[derive(Debug, PartialEq)]
pub enum ParseResult<T> {
    Done(T),
    Rejected(String),
    Empty,
    More,
}

/// Mathematical model of a `ParseResult`.
pub enum SpecParseResult<V> {
    Done(V),
    Rejected(Seq<char>),
    Empty,
    More,
}

impl<T: View> View for ParseResult<T> {
    type V = SpecParseResult<T::V>;

    open spec fn view(&self) -> SpecParseResult<T::V> {
        match self {
            ParseResult::Done(v) => SpecParseResult::Done(v@),
            ParseResult::Rejected(s) => SpecParseResult::Rejected(s@),
            ParseResult::Empty => SpecParseResult::Empty,
            ParseResult::More => SpecParseResult::More,
        }
    }
}

/// One message from the radio module: a command acknowledgement, a command
/// failure with its code, or an asynchronous event.
#[derive(Debug, PartialEq)]
pub enum SerialMessage {
    Ack,
    Fail(String),
    Event(WiSunEvent),
}

/// Mathematical model of a `SerialMessage`.
pub enum SpecSerialMessage {
    Ack,
    Fail(Seq<char>),
    Event(SpecWiSunEvent),
}

impl View for SerialMessage {
    type V = SpecSerialMessage;

    open spec fn view(&self) -> SpecSerialMessage {
        match self {
            SerialMessage::Ack => SpecSerialMessage::Ack,
            SerialMessage::Fail(s) => SpecSerialMessage::Fail(s@),
            SerialMessage::Event(e) => SpecSerialMessage::Event(e@),
        }
    }
}

/// Classify one line (or, for `EPANDESC`, an accumulated block): exactly
/// `OK`, a `FAIL ` prefix with its trimmed code, or an event line.
pub open spec fn spec_parse_message(data: Seq<char>) -> SpecParseResult<SpecSerialMessage> {
    if data == "OK"@ {
        SpecParseResult::Done(SpecSerialMessage::Ack)
    } else if data.len() >= 5 && data.take(5) == "FAIL "@ {
        SpecParseResult::Done(SpecSerialMessage::Fail(spec_trim(data.skip(5))))
    } else {
        match spec_parse_wisun_event(data) {
            SpecParseResult::Done(ev) => SpecParseResult::Done(SpecSerialMessage::Event(ev)),
            SpecParseResult::Rejected(_) => SpecParseResult::Rejected(data),
            SpecParseResult::More => SpecParseResult::More,
            SpecParseResult::Empty => SpecParseResult::Empty,
        }
    }
}

impl SerialMessage {
    /// Classify one line or accumulated block.
    pub fn parse(data: &str) -> (r: ParseResult<SerialMessage>)
        ensures
            r@ == spec_parse_message(data@),
    {
        let ok_lit = String::from_str("OK");
        if data.to_owned().eq(&ok_lit) {
            return ParseResult::Done(SerialMessage::Ack);
        }
        let n = data.unicode_len();
        if n >= 5 {
            let head = data.substring_char(0, 5).to_owned();
            let fail_lit = String::from_str("FAIL ");
            if head.eq(&fail_lit) {
                let suffix = data.substring_char(5, n);
                let code = crate::text::trim_str(suffix);
                proof {
                    assert(data@.take(5) =~= data@.subrange(0, 5));
                    assert(data@.skip(5) =~= data@.subrange(5, data@.len() as int));
                }
                return ParseResult::Done(SerialMessage::Fail(code));
            }
            proof {
                assert(data@.take(5) =~= data@.subrange(0, 5));
            }
        }
        match WiSunEvent::parse(data) {
            ParseResult::Done(ev) => ParseResult::Done(SerialMessage::Event(ev)),
            ParseResult::Rejected(_) => ParseResult::Rejected(data.to_owned()),
            ParseResult::More => ParseResult::More,
            ParseResult::Empty => ParseResult::Empty,
        }
    }
}

} // verus!
