use wisun::ipv6::Ipv6Addr;
use wisun::parser::event::PanDescBody;
use wisun::serial::errors::Error as SerialError;
use wisun::wisun_module::client::{create_send_udp_base, ipv6_addr_full_string, ErrPolicy,
    MessagePredicate, WiSunClient};
use wisun::wisun_module::mock::MockSerial;

fn lines(ls: Vec<&str>) -> Vec<Result<String, SerialError>> {
    ls.into_iter().map(|l| Ok(l.to_string())).collect()
}

fn new_client(script: Vec<Result<String, SerialError>>) -> WiSunClient<MockSerial> {
    WiSunClient::attach(MockSerial::new(script))
}

#[test]
fn ok_when_read_ok() {
    let mut cli = new_client(lines(vec!["OK"]));
    cli.wait_ok().unwrap();
}

#[test]
fn read_again_when_not_ok() {
    let mut cli = new_client(lines(vec!["SKVER", "SKVER", "OK"]));
    cli.wait_ok().unwrap();
}

#[test]
fn read_again_when_timeout() {
    let mut cli = new_client(vec![Err(SerialError::Timeout), Ok("OK".to_string())]);
    cli.wait_ok().unwrap();
}

#[test]
fn error_when_fail() {
    let mut cli = new_client(lines(vec!["SKVER", "FAIL ER04"]));
    assert_eq!(cli.wait_ok().is_err(), true);
}

#[test]
fn timeout_when_stream_ends() {
    let mut cli = new_client(Vec::new());
    assert_eq!(cli.wait_ok().is_err(), true);
}

#[test]
fn ok_before_ever() {
    let mut cli = new_client(lines(vec!["OK", "EVER 1.2.3"]));
    let ver = cli.get_version().unwrap();
    assert_eq!(ver, "1.2.3".to_string());
    assert_eq!(b"SKVER\r\n".to_vec(), cli.connection().written);
}

#[test]
fn ever_before_ok() {
    let mut cli = new_client(lines(vec!["EVER 2.3.4", "OK"]));
    let ver = cli.get_version().unwrap();
    assert_eq!(ver, "2.3.4".to_string());
    assert_eq!(b"SKVER\r\n".to_vec(), cli.connection().written);
}

#[test]
fn get_ip() {
    let cli = new_client(Vec::new());
    let mac: [u8; 8] = [0x00, 0x1D, 0x12, 0x90, 0x12, 0x34, 0x56, 0x78];
    let expected = Ipv6Addr::parse("FE80:0000:0000:0000:021D:1290:1234:5678").unwrap();
    assert_eq!(expected, cli.get_ip(&mac));
}

#[test]
fn scan() {
    let mut cli = new_client(lines(vec![
        "OK",
        "EVENT 22 FE80:0000:0000:0000:1234:5678:90AB:CDEF",
        "OK",
        "EPANDESC",
        "  Channel:2F",
        "  Channel Page:09",
        "  Pan ID:3077",
        "  Addr:1234567890ABCDEF",
        "  LQI:73",
        "  PairID:01234567",
        "EVENT 22 FE80:0000:0000:0000:1234:5678:90AB:CDEF",
    ]));
    assert_eq!(
        PanDescBody {
            channel: 0x2F,
            pan_id: 0x3077,
            addr: [0x12, 0x34, 0x56, 0x78, 0x90, 0xAB, 0xCD, 0xEF],
        },
        cli.scan().unwrap()
    );
    assert_eq!(
        b"SKSCAN 2 FFFFFFFF 4\r\nSKSCAN 2 FFFFFFFF 5\r\n".to_vec(),
        cli.connection().written
    );
}

#[test]
fn scan_error_when_all_durations_exhausted() {
    let mut cli = new_client(lines(vec![
        "OK",
        "EVENT 22 FE80:0000:0000:0000:1234:5678:90AB:CDEF",
        "OK",
        "EVENT 22 FE80:0000:0000:0000:1234:5678:90AB:CDEF",
        "OK",
        "EVENT 22 FE80:0000:0000:0000:1234:5678:90AB:CDEF",
        "OK",
        "EVENT 22 FE80:0000:0000:0000:1234:5678:90AB:CDEF",
        "OK",
        "EVENT 22 FE80:0000:0000:0000:1234:5678:90AB:CDEF",
        "OK",
        "EVENT 22 FE80:0000:0000:0000:1234:5678:90AB:CDEF",
    ]));
    assert!(cli.scan().is_err());
}

#[test]
fn wait_fn_is_deterministic() {
    // P5 at work: the same buffered state and the same read sequence give
    // the same message back, twice over.
    let script = vec![
        "EPANDESC",
        "  Channel:2F",
        "  Channel Page:09",
        "  Pan ID:3077",
        "  Addr:1234567890ABCDEF",
        "  LQI:73",
        "  PairID:01234567",
        "EVENT 22 FE80:0000:0000:0000:1234:5678:90AB:CDEF",
        "OK",
    ];
    let mut cli1 = new_client(lines(script.clone()));
    let mut cli2 = new_client(lines(script));
    let r1 = cli1.wait_fn(
        MessagePredicate::IsEventOf(wisun::parser::event::EventKind::FinishedActiveScan),
        ErrPolicy::FailOnly,
    );
    let r2 = cli2.wait_fn(
        MessagePredicate::IsEventOf(wisun::parser::event::EventKind::FinishedActiveScan),
        ErrPolicy::FailOnly,
    );
    assert_eq!(r1.unwrap(), r2.unwrap());
    // The skimmed-past PAN description stays buffered in both, in order.
    let p1 = cli1.wait_fn(MessagePredicate::IsPanDesc, ErrPolicy::FailOnly);
    let p2 = cli2.wait_fn(MessagePredicate::IsPanDesc, ErrPolicy::FailOnly);
    assert_eq!(p1.unwrap(), p2.unwrap());
}

#[test]
fn ipv6_addr_full_string_test() {
    let ip = Ipv6Addr::parse("FE80:0000:0000:0000:1234:5678:90AB:CDEF").unwrap();
    assert_eq!(
        ipv6_addr_full_string(&ip),
        "FE80:0000:0000:0000:1234:5678:90AB:CDEF".to_string()
    );
}

#[test]
fn create_send_udp_base_test() {
    let addr = Ipv6Addr::parse("FE80:0000:0000:0000:1234:5678:90AB:CDEF").unwrap();

    assert_eq!(
        create_send_udp_base(&addr, 1, 30),
        "SKSENDTO 1 FE80:0000:0000:0000:1234:5678:90AB:CDEF 0E1A 1 001E "
    );
}

#[test]
fn power_read_requires_property_map() {
    let mut cli = new_client(Vec::new());
    match cli.get_power_consumption() {
        Err(wisun::wisun_module::errors::Error::CommandError(_)) => {},
        other => panic!("expected a command error, got {:?}", other),
    }
}

#[test]
fn property_map_read_requires_join() {
    let mut cli = new_client(Vec::new());
    match cli.get_property_map() {
        Err(wisun::wisun_module::errors::Error::CommandError(_)) => {},
        other => panic!("expected a command error, got {:?}", other),
    }
}

#[test]
fn connect_fails_when_property_map_reply_fails() {
    // The whole handshake succeeds, then the module answers the
    // property-map read request with FAIL: the driver aborts with a
    // command error instead of waiting forever.
    let mut cli = new_client(lines(vec![
        "OK",                                                  // SKSETPWD
        "OK",                                                  // SKSETRBID
        "OK",                                                  // SKSCAN
        "EPANDESC",
        "  Channel:2F",
        "  Channel Page:09",
        "  Pan ID:3077",
        "  Addr:1234567890ABCDEF",
        "  LQI:73",
        "  PairID:01234567",
        "EVENT 22 FE80:0000:0000:0000:1234:5678:90AB:CDEF",
        "OK",                                                  // SKSREG S2
        "OK",                                                  // SKSREG S3
        "OK",                                                  // SKJOIN
        "EVENT 25 FE80:0000:0000:0000:1234:5678:90AB:CDEF",
        "OK",                                                  // SKSENDTO
        "FAIL ER10",                                           // the read request fails
    ]));
    match cli.connect("BID1", "PWD") {
        Err(wisun::wisun_module::errors::Error::CommandError(s)) => {
            assert_eq!(s, "ER10".to_string());
        }
        other => panic!("expected a command error, got {:?}", other),
    }
}
