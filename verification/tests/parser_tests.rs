use wisun::ipv6::Ipv6Addr;
use wisun::parser::event::{EventBody, EventKind, PanDescBody, UdpPacket, WiSunEvent};
use wisun::parser::messages::{ParseResult, SerialMessage};
use wisun::parser::parser::WiSunModuleParser;

#[test]
fn event_parse_empty() {
    assert_eq!(WiSunEvent::parse(""), ParseResult::Empty);
}

#[test]
fn parse_rx_udp() {
    let udp_packet = UdpPacket {
        sender: Ipv6Addr::parse("FE80:0000:0000:0000:1234:5678:1234:5678").unwrap(),
        source_port: 0x0E1A,
        dest: Ipv6Addr::parse("FE80:0000:0000:0000:1234:5678:90AB:CDEF").unwrap(),
        dest_port: 0x0E1A,
        sender_mac: [0xC0, 0xF9, 0x45, 0x00, 0x40, 0x21, 0x30, 0x77],
        secured: 1,
        data: vec![
            0x10, 0x81, 0x00, 0x00, 0x0E, 0xF0, 0x01, 0x0E, 0xF0, 0x01, 0x73, 0x01, 0xD5, 0x04,
            0x01, 0x02, 0x88, 0x01,
        ],
    };
    assert_eq!(
        WiSunEvent::parse("ERXUDP FE80:0000:0000:0000:1234:5678:1234:5678 FE80:0000:0000:0000:1234:5678:90AB:CDEF 0E1A 0E1A C0F9450040213077 1 0012 108100000EF0010EF0017301D50401028801"),
        ParseResult::Done(WiSunEvent::RxUdp(udp_packet))
    );
}

#[test]
fn parse_udp_sent() {
    let even_body = EventBody {
        kind: EventKind::FinishedUdpSend,
        sender: Ipv6Addr::parse("FE80:0000:0000:0000:1234:5678:90AB:CDEF").unwrap(),
    };
    assert_eq!(
        WiSunEvent::parse("EVENT 21 FE80:0000:0000:0000:1234:5678:90AB:CDEF 02"),
        ParseResult::Done(WiSunEvent::Event(even_body))
    );
}

#[test]
fn parse_finished_active_scan() {
    let even_body = EventBody {
        kind: EventKind::FinishedActiveScan,
        sender: Ipv6Addr::parse("FE80:0000:0000:0000:1234:5678:90AB:CDEF").unwrap(),
    };
    assert_eq!(
        WiSunEvent::parse("EVENT 22 FE80:0000:0000:0000:1234:5678:90AB:CDEF 02"),
        ParseResult::Done(WiSunEvent::Event(even_body))
    );
}

#[test]
fn parse_pana_connection_error() {
    let even_body = EventBody {
        kind: EventKind::ErrorOnPanaConnection,
        sender: Ipv6Addr::parse("FE80:0000:0000:0000:1234:5678:90AB:CDEF").unwrap(),
    };
    assert_eq!(
        WiSunEvent::parse("EVENT 24 FE80:0000:0000:0000:1234:5678:90AB:CDEF"),
        ParseResult::Done(WiSunEvent::Event(even_body))
    );
}

#[test]
fn parse_pana_connection_established() {
    let even_body = EventBody {
        kind: EventKind::EstablishedPanaConnection,
        sender: Ipv6Addr::parse("FE80:0000:0000:0000:1234:5678:90AB:CDEF").unwrap(),
    };
    assert_eq!(
        WiSunEvent::parse("EVENT 25 FE80:0000:0000:0000:1234:5678:90AB:CDEF"),
        ParseResult::Done(WiSunEvent::Event(even_body))
    );
}

#[test]
fn parse_pan_desc_single_line() {
    assert_eq!(WiSunEvent::parse("EPANDESC"), ParseResult::More);
}

#[test]
fn parse_pan_desc_2_lines() {
    assert_eq!(WiSunEvent::parse("EPANDESC\n  Channel:2F"), ParseResult::More);
}

#[test]
fn parse_pan_desc_3_lines() {
    assert_eq!(
        WiSunEvent::parse("EPANDESC\n  Channel:2F\n  Channel Page:09"),
        ParseResult::More
    );
}

#[test]
fn parse_pan_desc_4_lines() {
    assert_eq!(
        WiSunEvent::parse("EPANDESC\n  Channel:2F\n  Channel Page:09\n  Pan ID:3077"),
        ParseResult::More
    );
}

#[test]
fn parse_pan_desc_5_lines() {
    assert_eq!(
        WiSunEvent::parse(
            "EPANDESC\n  Channel:2F\n  Channel Page:09\n  Pan ID:3077\n  Addr:C0F9450040213077"
        ),
        ParseResult::More
    );
}

#[test]
fn parse_pan_desc_6_lines() {
    assert_eq!(
        WiSunEvent::parse(
            "EPANDESC\n  Channel:2F\n  Channel Page:09\n  Pan ID:3077\n  Addr:C0F9450040213077\n  LQI:73"
        ),
        ParseResult::More
    );
}

#[test]
fn parse_pan_desc_7_lines() {
    assert_eq!(
        WiSunEvent::parse(
            "EPANDESC\n  Channel:20\n  Channel Page:09\n  Pan ID:3077\n  Addr:1234567890ABCDEF\n  LQI:73\n  PairID:01234567"
        ),
        ParseResult::Done(WiSunEvent::PanDesc(PanDescBody {
            channel: 0x20,
            pan_id: 0x3077,
            addr: [0x12, 0x34, 0x56, 0x78, 0x90, 0xAB, 0xCD, 0xEF],
        }))
    );
}

#[test]
fn messages_parse_empty() {
    assert_eq!(SerialMessage::parse(""), ParseResult::Empty);
}

#[test]
fn parse_ok() {
    assert_eq!(SerialMessage::parse("OK"), ParseResult::Done(SerialMessage::Ack));
}

#[test]
fn parse_fail() {
    assert_eq!(
        SerialMessage::parse("FAIL 01"),
        ParseResult::Done(SerialMessage::Fail(String::from("01")))
    );
}

#[test]
fn parse_event_more() {
    assert_eq!(
        SerialMessage::parse("EPANDESC\n  Channel:2F\n  Channel Page:09"),
        ParseResult::More
    );
}

#[test]
fn parse_event_err() {
    assert!(matches!(SerialMessage::parse("EUNKNOWN"), ParseResult::Rejected(_)));
}

#[test]
fn parse_version_report() {
    assert_eq!(
        SerialMessage::parse("EVER 1.2.3"),
        ParseResult::Done(SerialMessage::Event(WiSunEvent::Version(String::from("1.2.3"))))
    );
}

#[test]
fn add_line_empty() {
    let mut parser = WiSunModuleParser::new();
    assert_eq!(parser.add_line(""), ParseResult::Empty);
}

#[test]
fn add_line_ok() {
    let mut parser = WiSunModuleParser::new();
    assert_eq!(parser.add_line("OK"), ParseResult::Done(SerialMessage::Ack));
}

#[test]
fn add_line_fail() {
    let mut parser = WiSunModuleParser::new();
    assert_eq!(
        parser.add_line("FAIL 01"),
        ParseResult::Done(SerialMessage::Fail(String::from("01")))
    );
}

#[test]
fn add_line_single_message() {
    let mut parser = WiSunModuleParser::new();
    let even_body = EventBody {
        kind: EventKind::EstablishedPanaConnection,
        sender: Ipv6Addr::parse("FE80:0000:0000:0000:1234:5678:90AB:CDEF").unwrap(),
    };
    assert_eq!(
        parser.add_line("EVENT 25 FE80:0000:0000:0000:1234:5678:90AB:CDEF"),
        ParseResult::Done(SerialMessage::Event(WiSunEvent::Event(even_body)))
    );
}

#[test]
fn add_line_unknown() {
    let mut parser = WiSunModuleParser::new();
    assert_eq!(parser.add_line("FOOBAR"), ParseResult::Rejected(String::from("FOOBAR")));
}

#[test]
fn add_line_multiline_event() {
    let mut parser = WiSunModuleParser::new();
    assert_eq!(parser.add_line("EPANDESC"), ParseResult::More);
    assert_eq!(parser.add_line("  Channel:20"), ParseResult::More);
    assert_eq!(parser.add_line("  Channel Page:09"), ParseResult::More);
    assert_eq!(parser.add_line("  Pan ID:3077"), ParseResult::More);
    assert_eq!(parser.add_line("  Addr:1234567890ABCDEF"), ParseResult::More);
    assert_eq!(parser.add_line("  LQI:73"), ParseResult::More);
    assert_eq!(
        parser.add_line("  PairID:01234567"),
        ParseResult::Done(SerialMessage::Event(WiSunEvent::PanDesc(PanDescBody {
            channel: 0x20,
            pan_id: 0x3077,
            addr: [0x12, 0x34, 0x56, 0x78, 0x90, 0xAB, 0xCD, 0xEF],
        })))
    );
}

#[test]
fn add_line_err() {
    let mut parser = WiSunModuleParser::new();
    assert_eq!(parser.add_line("EPANDESC"), ParseResult::More);
    match parser.add_line("OK") {
        ParseResult::Rejected(_) => {},
        _ => panic!("Err expected"),
    };
}

#[test]
fn ipv6_parse_rejects_short_form() {
    assert!(Ipv6Addr::parse("FE80::1").is_none());
}
