use std::collections::HashSet;

use wisun::echonet::enums::{EchonetObject, EchonetService, EchonetSmartMeterProperty};
use wisun::echonet::packet::{EchonetPacket, Edata, Property};
use wisun::echonet::property_map::PropertyMap;

type SmartMeterPacket = EchonetPacket<EchonetSmartMeterProperty>;
type SmartMeterProperty = Property<EchonetSmartMeterProperty>;
type SmartMeterEdata = Edata<EchonetSmartMeterProperty>;

fn expected_packet() -> SmartMeterPacket {
    EchonetPacket::new(
        0x0001,
        Edata {
            source_object: EchonetObject::SmartMeter,
            destination_object: EchonetObject::HemsController,
            echonet_service: EchonetService::ReadPropertyResponse,
            properties: vec![
                Property {
                    epc: EchonetSmartMeterProperty::InstantaneousElectricPower,
                    data: hex::decode("0000020E").unwrap(),
                },
                Property {
                    epc: EchonetSmartMeterProperty::InstantaneousElectricPower,
                    data: hex::decode("0000020F").unwrap(),
                },
            ],
        },
    )
}

#[test]
fn into_slice_test() {
    let expected = hex::decode("028801").unwrap();
    let actual: [u8; 3] = EchonetObject::SmartMeter.to_bytes();
    let actual = actual.to_vec();
    assert_eq!(expected, actual);
}

#[test]
fn from_slice_test() {
    let expected = EchonetObject::SmartMeter;
    let actual = EchonetObject::from_bytes([0x02, 0x88, 0x01]).unwrap();
    assert_eq!(expected, actual);
}

#[test]
fn packet_parse_test() {
    let bin = hex::decode("1081000102880105FF017202E7040000020EE7040000020F").unwrap();
    let expected = expected_packet();
    assert_eq!(EchonetPacket::parse(bin.as_slice()).unwrap(), expected);
}

#[test]
fn parse_invalid_ehd1() {
    let bin = hex::decode("1181000102880105FF017202E7040000020EE7040000020F").unwrap();
    assert_eq!(SmartMeterPacket::parse(bin.as_slice()).is_err(), true);
}

#[test]
fn parse_invalid_ehd2() {
    let bin = hex::decode("1082000102880105FF017202E7040000020EE7040000020F").unwrap();
    assert_eq!(SmartMeterPacket::parse(bin.as_slice()).is_err(), true);
}

#[test]
fn parse_error_too_short_1() {
    let bin = hex::decode("10810001").unwrap();
    assert_eq!(SmartMeterPacket::parse(bin.as_slice()).is_err(), true);
}

#[test]
fn packet_dump_test() {
    let bin = hex::decode("1081000102880105FF017202E7040000020EE7040000020F").unwrap();
    let packet = expected_packet();
    assert_eq!(bin, packet.dump());
}

#[test]
fn edata_parse_test() {
    let bin = hex::decode("02880105FF017202E7040000020EE7040000020F").unwrap();
    let expected = expected_packet().data;
    assert_eq!(Edata::parse(bin.as_slice()).unwrap(), expected);
}

#[test]
fn parse_test_less_property() {
    let bin = hex::decode("02880105FF017202E7040000020E").unwrap();
    assert_eq!(SmartMeterEdata::parse(bin.as_slice()).is_err(), true);
}

#[test]
fn edata_dump_test() {
    let data = expected_packet().data;
    let bin = hex::decode("02880105FF017202E7040000020EE7040000020F").unwrap();
    assert_eq!(data.dump(), bin);
}

#[test]
fn parse_test_1() {
    let bin = hex::decode("E7040000020E").unwrap();
    let expected = Property {
        epc: EchonetSmartMeterProperty::InstantaneousElectricPower,
        data: hex::decode("0000020E").unwrap(),
    };
    let (actual, data) = Property::parse(bin.as_slice()).unwrap();
    assert_eq!(data, expected);
    assert_eq!(actual, 6);
}

#[test]
fn parse_test_2() {
    let bin = hex::decode("E7040000020EE704000FF20E").unwrap();
    let expected = Property {
        epc: EchonetSmartMeterProperty::InstantaneousElectricPower,
        data: hex::decode("0000020E").unwrap(),
    };
    let (actual, data) = Property::parse(bin.as_slice()).unwrap();
    assert_eq!(data, expected);
    assert_eq!(actual, 6);
}

#[test]
fn parse_error_on_empty() {
    let bin = hex::decode("").unwrap();
    assert_eq!(SmartMeterProperty::parse(bin.as_slice()).is_err(), true);
}

#[test]
fn parse_error_on_insufficient_length() {
    let bin = hex::decode("E704000002").unwrap();
    assert_eq!(SmartMeterProperty::parse(bin.as_slice()).is_err(), true);
}

#[test]
fn property_dump_test() {
    let bin = hex::decode("E7040000020E").unwrap();
    let property = Property {
        epc: EchonetSmartMeterProperty::InstantaneousElectricPower,
        data: hex::decode("0000020E").unwrap(),
    };
    assert_eq!(bin, property.dump());
}

#[test]
fn property_get_i32_test() {
    let bin = hex::decode("E7040000020E").unwrap();
    let (consumed, property) = SmartMeterProperty::parse(bin.as_slice()).unwrap();
    assert_eq!(consumed, 6);
    assert_eq!(property.get_i32(), Some(526));
}

#[test]
fn property_get_i32_negative() {
    let property = SmartMeterProperty {
        epc: EchonetSmartMeterProperty::InstantaneousElectricPower,
        data: vec![0xFF, 0xFF, 0xFF, 0xFF],
    };
    assert_eq!(property.get_i32(), Some(-1));
    assert_eq!(property.get_u32(), Some(0xFFFF_FFFF));
}

#[test]
fn parse_unknown_property_code() {
    // 0x01 names no smart-meter property.
    let bin = vec![0x01, 0x00];
    assert_eq!(SmartMeterProperty::parse(bin.as_slice()).is_err(), true);
}

#[test]
fn parse_unknown_object_id() {
    let bin = hex::decode("02880205FF017200").unwrap();
    assert_eq!(SmartMeterEdata::parse(bin.as_slice()).is_err(), true);
}

#[test]
fn parse_unknown_service_code() {
    let bin = hex::decode("02880105FF011100").unwrap();
    assert_eq!(SmartMeterEdata::parse(bin.as_slice()).is_err(), true);
}

#[test]
fn parse_short() {
    let map = PropertyMap::parse(&[
        0x0A,
        0x80,
        0x81,
        0x82,
        0x83,
        0x88,
        0x8A,
        0x9D,
        0x9E,
        0x9F,
        0xE0,
    ])
        .unwrap();
    let expected: HashSet<u8> = vec![0x80, 0x81, 0x82, 0x83, 0x88, 0x8A, 0x9D, 0x9E, 0x9F, 0xE0]
        .into_iter()
        .collect();
    let actual: HashSet<u8> = map.property_ids().iter().copied().collect();
    assert_eq!(expected, actual);
}

#[test]
fn parse_long() {
    let map = PropertyMap::parse(&[
        0x16,
        0x0B,
        0x01,
        0x01,
        0x09,
        0x00,
        0x00,
        0x00,
        0x01,
        0x01,
        0x01,
        0x03,
        0x03,
        0x03,
        0x03,
        0x03,
        0x03,
    ])
        .unwrap();
    let expected: HashSet<u8> = vec![
        0x80, 0x81, 0x82, 0x83, 0x87, 0x88, 0x89, 0x8A, 0x8B, 0x8C, 0x8D, 0x8E, 0x8F, 0x90, 0x9A,
        0x9B, 0x9C, 0x9D, 0x9E, 0x9F, 0xB0, 0xB3,
    ]
        .into_iter()
        .collect();
    let actual: HashSet<u8> = map.property_ids().iter().copied().collect();
    assert_eq!(expected, actual);
}

#[test]
fn parse_long_count_mismatch() {
    // The count byte says 23 but the bitmap holds 22 properties.
    let map = PropertyMap::parse(&[
        0x17,
        0x0B,
        0x01,
        0x01,
        0x09,
        0x00,
        0x00,
        0x00,
        0x01,
        0x01,
        0x01,
        0x03,
        0x03,
        0x03,
        0x03,
        0x03,
        0x03,
    ]);
    assert!(map.is_err());
}

#[test]
fn parse_long_wrong_length() {
    assert!(PropertyMap::parse(&[0x16, 0x01, 0x02]).is_err());
}

#[test]
fn parse_short_with_duplicate_keys() {
    let map = PropertyMap::parse(&[0x02, 0x80, 0x80]).unwrap();
    let actual: HashSet<u8> = map.property_ids().iter().copied().collect();
    let expected: HashSet<u8> = vec![0x80].into_iter().collect();
    assert_eq!(expected, actual);
    assert_eq!(1, map.property_ids().len());
}

#[test]
fn round_trip_empty_property_list() {
    let packet: SmartMeterPacket = EchonetPacket::new(
        0xABCD,
        Edata {
            source_object: EchonetObject::HemsController,
            destination_object: EchonetObject::SmartMeter,
            echonet_service: EchonetService::ReadPropertyRequest,
            properties: vec![],
        },
    );
    let bin = packet.dump();
    assert_eq!(EchonetPacket::parse(bin.as_slice()).unwrap(), packet);
}
