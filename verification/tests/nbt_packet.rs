//! Decoding of NetBIOS name-service response fixtures.

use nbtscanner::addr::Ipv4Address;
use nbtscanner::nbt_packet::NetBiosPacket;

fn fixture_one() -> Vec<u8> {
    vec![
        0xA2, 0x48, 0x84, 0x00, 0x00, 0x00, 0x00, 0x01, 0x00, 0x00, 0x00, 0x00,
        0x20, 0x43, 0x4B, 0x41, 0x41, 0x41, 0x41, 0x41, 0x41, 0x41, 0x41, 0x41,
        0x41, 0x41, 0x41, 0x41, 0x41, 0x41, 0x41, 0x41, 0x41, 0x41, 0x41, 0x41,
        0x41, 0x41, 0x41, 0x41, 0x41, 0x41, 0x41, 0x41, 0x41, 0x00, 0x00, 0x21,
        0x00, 0x01, 0x00, 0x00, 0x00, 0x00, 0x00, 0x77, 0x04, 0x4A, 0x41, 0x43,
        0x4B, 0x49, 0x45, 0x47, 0x2D, 0x57, 0x53, 0x20, 0x20, 0x20, 0x20, 0x20,
        0x20, 0x44, 0x00, 0x4A, 0x41, 0x43, 0x4B, 0x49, 0x45, 0x47, 0x2D, 0x57,
        0x53, 0x20, 0x20, 0x20, 0x20, 0x20, 0x00, 0x44, 0x00, 0x53, 0x50, 0x49,
        0x43, 0x45, 0x20, 0x20, 0x20, 0x20, 0x20, 0x20, 0x20, 0x20, 0x20, 0x20,
        0x00, 0xC4, 0x00, 0x53, 0x50, 0x49, 0x43, 0x45, 0x20, 0x20, 0x20, 0x20,
        0x20, 0x20, 0x20, 0x20, 0x20, 0x20, 0x1E, 0xC4, 0x00, 0x2C, 0x41, 0x38,
        0xBA, 0xC3, 0x64, 0x00, 0x00, 0x00, 0x00, 0x00, 0x00, 0x00, 0x00, 0x00,
        0x00, 0x00, 0x00, 0x00, 0x00, 0x00, 0x00, 0x00, 0x00, 0x00, 0x00, 0x00,
        0x00, 0x00, 0x00, 0x00, 0x00, 0x00, 0x00, 0x00, 0x00, 0x00, 0x00, 0x00,
        0x00, 0x00, 0x00, 0x00, 0x00, 0x00, 0x00,
    ]
}

fn fixture_two() -> Vec<u8> {
    vec![
        0xA2, 0x48, 0x84, 0x00, 0x00, 0x00, 0x00, 0x01, 0x00, 0x00, 0x00, 0x00,
        0x20, 0x43, 0x4B, 0x41, 0x41, 0x41, 0x41, 0x41, 0x41, 0x41, 0x41, 0x41,
        0x41, 0x41, 0x41, 0x41, 0x41, 0x41, 0x41, 0x41, 0x41, 0x41, 0x41, 0x41,
        0x41, 0x41, 0x41, 0x41, 0x41, 0x41, 0x41, 0x41, 0x41, 0x00, 0x00, 0x21,
        0x00, 0x01, 0x00, 0x00, 0x00, 0x00, 0x00, 0x77, 0x04, 0x41, 0x4C, 0x45,
        0x58, 0x4B, 0x2D, 0x50, 0x43, 0x20, 0x20, 0x20, 0x20, 0x20, 0x20, 0x20,
        0x00, 0x44, 0x00, 0x53, 0x50, 0x49, 0x43, 0x45, 0x20, 0x20, 0x20, 0x20,
        0x20, 0x20, 0x20, 0x20, 0x20, 0x20, 0x00, 0xC4, 0x00, 0x41, 0x4C, 0x45,
        0x58, 0x4B, 0x2D, 0x50, 0x43, 0x20, 0x20, 0x20, 0x20, 0x20, 0x20, 0x20,
        0x20, 0x44, 0x00, 0x53, 0x50, 0x49, 0x43, 0x45, 0x20, 0x20, 0x20, 0x20,
        0x20, 0x20, 0x20, 0x20, 0x20, 0x20, 0x1E, 0xC4, 0x00, 0xD0, 0xBF, 0x9C,
        0xE4, 0x24, 0x90, 0x00, 0x00, 0x00, 0x00, 0x00, 0x00, 0x00, 0x00, 0x00,
        0x00, 0x00, 0x00, 0x00, 0x00, 0x00, 0x00, 0x00, 0x00, 0x00, 0x00, 0x00,
        0x00, 0x00, 0x00, 0x00, 0x00, 0x00, 0x00, 0x00, 0x00, 0x00, 0x00, 0x00,
        0x00, 0x00, 0x00, 0x00, 0x00, 0x00, 0x00,
    ]
}

fn packet_from(raw: Vec<u8>) -> NetBiosPacket {
    let mut data = [0u8; 1024];
    let length = raw.len();
    data[..length].copy_from_slice(&raw);
    NetBiosPacket::from(Ipv4Address::new(10, 192, 4, 35), data, length)
}

#[test]
#[allow(unused_variables)]
fn parse_name_and_group_from_data_correctly() {
    let data = [
        0xA2, 0x48, 0x84, 0x00, 0x00, 0x00, 0x00, 0x01, 0x00, 0x00, 0x00, 0x00,
        0x20, 0x43, 0x4B, 0x41, 0x41, 0x41, 0x41, 0x41, 0x41, 0x41, 0x41, 0x41,
        0x41, 0x41, 0x41, 0x41, 0x41, 0x41, 0x41, 0x41, 0x41, 0x41, 0x41, 0x41,
        0x41, 0x41, 0x41, 0x41, 0x41, 0x41, 0x41, 0x41, 0x41, 0x00, 0x00, 0x21,
        0x00, 0x01, 0x00, 0x00, 0x00, 0x00, 0x00, 0x77, 0x04, 0x4A, 0x41, 0x43,
        0x4B, 0x49, 0x45, 0x47, 0x2D, 0x57, 0x53, 0x20, 0x20, 0x20, 0x20, 0x20,
        0x20, 0x44, 0x00, 0x4A, 0x41, 0x43, 0x4B, 0x49, 0x45, 0x47, 0x2D, 0x57,
        0x53, 0x20, 0x20, 0x20, 0x20, 0x20, 0x00, 0x44, 0x00, 0x53, 0x50, 0x49,
        0x43, 0x45, 0x20, 0x20, 0x20, 0x20, 0x20, 0x20, 0x20, 0x20, 0x20, 0x20,
        0x00, 0xC4, 0x00, 0x53, 0x50, 0x49, 0x43, 0x45, 0x20, 0x20, 0x20, 0x20,
        0x20, 0x20, 0x20, 0x20, 0x20, 0x20, 0x1E, 0xC4, 0x00, 0x2C, 0x41, 0x38,
        0xBA, 0xC3, 0x64, 0x00, 0x00, 0x00, 0x00, 0x00, 0x00, 0x00, 0x00, 0x00,
        0x00, 0x00, 0x00, 0x00, 0x00, 0x00, 0x00, 0x00, 0x00, 0x00, 0x00, 0x00,
        0x00, 0x00, 0x00, 0x00, 0x00, 0x00, 0x00, 0x00, 0x00, 0x00, 0x00, 0x00,
        0x00, 0x00, 0x00, 0x00, 0x00, 0x00, 0x00,
    ];
    let expected = "SPICE\\JACKIEG-WS";
}

#[test]
#[allow(unused_variables)]
fn parse_name_and_group_from_data_correctly_2() {
    let data = [
        0xA2, 0x48, 0x84, 0x00, 0x00, 0x00, 0x00, 0x01, 0x00, 0x00, 0x00, 0x00,
        0x20, 0x43, 0x4B, 0x41, 0x41, 0x41, 0x41, 0x41, 0x41, 0x41, 0x41, 0x41,
        0x41, 0x41, 0x41, 0x41, 0x41, 0x41, 0x41, 0x41, 0x41, 0x41, 0x41, 0x41,
        0x41, 0x41, 0x41, 0x41, 0x41, 0x41, 0x41, 0x41, 0x41, 0x00, 0x00, 0x21,
        0x00, 0x01, 0x00, 0x00, 0x00, 0x00, 0x00, 0x77, 0x04, 0x41, 0x4C, 0x45,
        0x58, 0x4B, 0x2D, 0x50, 0x43, 0x20, 0x20, 0x20, 0x20, 0x20, 0x20, 0x20,
        0x00, 0x44, 0x00, 0x53, 0x50, 0x49, 0x43, 0x45, 0x20, 0x20, 0x20, 0x20,
        0x20, 0x20, 0x20, 0x20, 0x20, 0x20, 0x00, 0xC4, 0x00, 0x41, 0x4C, 0x45,
        0x58, 0x4B, 0x2D, 0x50, 0x43, 0x20, 0x20, 0x20, 0x20, 0x20, 0x20, 0x20,
        0x20, 0x44, 0x00, 0x53, 0x50, 0x49, 0x43, 0x45, 0x20, 0x20, 0x20, 0x20,
        0x20, 0x20, 0x20, 0x20, 0x20, 0x20, 0x1E, 0xC4, 0x00, 0xD0, 0xBF, 0x9C,
        0xE4, 0x24, 0x90, 0x00, 0x00, 0x00, 0x00, 0x00, 0x00, 0x00, 0x00, 0x00,
        0x00, 0x00, 0x00, 0x00, 0x00, 0x00, 0x00, 0x00, 0x00, 0x00, 0x00, 0x00,
        0x00, 0x00, 0x00, 0x00, 0x00, 0x00, 0x00, 0x00, 0x00, 0x00, 0x00, 0x00,
        0x00, 0x00, 0x00, 0x00, 0x00, 0x00, 0x00,
    ];
    let expected = "SPICE\\ALEXK-WS";
}

#[test]
#[allow(unused_variables)]
fn parse_mac_from_data_correctly() {
    let data = [
        0xA2, 0x48, 0x84, 0x00, 0x00, 0x00, 0x00, 0x01, 0x00, 0x00, 0x00, 0x00,
        0x20, 0x43, 0x4B, 0x41, 0x41, 0x41, 0x41, 0x41, 0x41, 0x41, 0x41, 0x41,
        0x41, 0x41, 0x41, 0x41, 0x41, 0x41, 0x41, 0x41, 0x41, 0x41, 0x41, 0x41,
        0x41, 0x41, 0x41, 0x41, 0x41, 0x41, 0x41, 0x41, 0x41, 0x00, 0x00, 0x21,
        0x00, 0x01, 0x00, 0x00, 0x00, 0x00, 0x00, 0x77, 0x04, 0x4A, 0x41, 0x43,
        0x4B, 0x49, 0x45, 0x47, 0x2D, 0x57, 0x53, 0x20, 0x20, 0x20, 0x20, 0x20,
        0x20, 0x44, 0x00, 0x4A, 0x41, 0x43, 0x4B, 0x49, 0x45, 0x47, 0x2D, 0x57,
        0x53, 0x20, 0x20, 0x20, 0x20, 0x20, 0x00, 0x44, 0x00, 0x53, 0x50, 0x49,
        0x43, 0x45, 0x20, 0x20, 0x20, 0x20, 0x20, 0x20, 0x20, 0x20, 0x20, 0x20,
        0x00, 0xC4, 0x00, 0x53, 0x50, 0x49, 0x43, 0x45, 0x20, 0x20, 0x20, 0x20,
        0x20, 0x20, 0x20, 0x20, 0x20, 0x20, 0x1E, 0xC4, 0x00, 0x2C, 0x41, 0x38,
        0xBA, 0xC3, 0x64, 0x00, 0x00, 0x00, 0x00, 0x00, 0x00, 0x00, 0x00, 0x00,
        0x00, 0x00, 0x00, 0x00, 0x00, 0x00, 0x00, 0x00, 0x00, 0x00, 0x00, 0x00,
        0x00, 0x00, 0x00, 0x00, 0x00, 0x00, 0x00, 0x00, 0x00, 0x00, 0x00, 0x00,
        0x00, 0x00, 0x00, 0x00, 0x00, 0x00, 0x00,
    ];
    let expected = "2c:41:38:ba:c3:64";
}

#[test]
#[allow(unused_variables)]
fn parse_services_from_data_correctly() {
    let data = [
        0xA2, 0x48, 0x84, 0x00, 0x00, 0x00, 0x00, 0x01, 0x00, 0x00, 0x00, 0x00,
        0x20, 0x43, 0x4B, 0x41, 0x41, 0x41, 0x41, 0x41, 0x41, 0x41, 0x41, 0x41,
        0x41, 0x41, 0x41, 0x41, 0x41, 0x41, 0x41, 0x41, 0x41, 0x41, 0x41, 0x41,
        0x41, 0x41, 0x41, 0x41, 0x41, 0x41, 0x41, 0x41, 0x41, 0x00, 0x00, 0x21,
        0x00, 0x01, 0x00, 0x00, 0x00, 0x00, 0x00, 0x77, 0x04, 0x4A, 0x41, 0x43,
        0x4B, 0x49, 0x45, 0x47, 0x2D, 0x57, 0x53, 0x20, 0x20, 0x20, 0x20, 0x20,
        0x20, 0x44, 0x00, 0x4A, 0x41, 0x43, 0x4B, 0x49, 0x45, 0x47, 0x2D, 0x57,
        0x53, 0x20, 0x20, 0x20, 0x20, 0x20, 0x00, 0x44, 0x00, 0x53, 0x50, 0x49,
        0x43, 0x45, 0x20, 0x20, 0x20, 0x20, 0x20, 0x20, 0x20, 0x20, 0x20, 0x20,
        0x00, 0xC4, 0x00, 0x53, 0x50, 0x49, 0x43, 0x45, 0x20, 0x20, 0x20, 0x20,
        0x20, 0x20, 0x20, 0x20, 0x20, 0x20, 0x1E, 0xC4, 0x00, 0x2C, 0x41, 0x38,
        0xBA, 0xC3, 0x64, 0x00, 0x00, 0x00, 0x00, 0x00, 0x00, 0x00, 0x00, 0x00,
        0x00, 0x00, 0x00, 0x00, 0x00, 0x00, 0x00, 0x00, 0x00, 0x00, 0x00, 0x00,
        0x00, 0x00, 0x00, 0x00, 0x00, 0x00, 0x00, 0x00, 0x00, 0x00, 0x00, 0x00,
        0x00, 0x00, 0x00, 0x00, 0x00, 0x00, 0x00,
    ];
    let expected = "SHARING";
}

#[test]
fn decodes_name_from_first_fixture() {
    let packet = packet_from(fixture_one());
    assert_eq!(packet.name(), "JACKIEG-WS");
}

#[test]
fn decodes_name_from_second_fixture() {
    let packet = packet_from(fixture_two());
    assert_eq!(packet.name(), "ALEXK-PC");
}

#[test]
fn group_falls_back_on_unprintable_bytes() {
    // The bytes after the first entry's name slot hold a NUL flag byte, so
    // the group cannot be read as printable text and the sentinel is used.
    let packet = packet_from(fixture_one());
    assert_eq!(packet.group(), "-");
}

#[test]
fn decodes_mac_from_first_fixture() {
    let packet = packet_from(fixture_one());
    assert_eq!(packet.mac_address(), "2C:41:38:BA:C3:64");
}

#[test]
fn decodes_mac_from_second_fixture() {
    let packet = packet_from(fixture_two());
    assert_eq!(packet.mac_address(), "D0:BF:9C:E4:24:90");
}

#[test]
fn joins_group_and_name_with_backslash() {
    let packet = packet_from(fixture_one());
    assert_eq!(packet.group_and_name(), "-\\JACKIEG-WS");
}

#[test]
fn group_reads_printable_bytes() {
    // A buffer whose group slot holds plain text decodes to that text.
    let mut data = [0u8; 1024];
    for b in data.iter_mut() {
        *b = b' ';
    }
    data[57..64].copy_from_slice(b"MYHOST ");
    data[72..77].copy_from_slice(b"GROUP");
    let packet = NetBiosPacket::from(Ipv4Address::new(1, 2, 3, 4), data, 1024);
    assert_eq!(packet.name(), "MYHOST");
    assert_eq!(packet.group(), "GROUP");
}

#[test]
fn name_falls_back_on_unprintable_bytes() {
    let mut data = [0u8; 1024];
    data[57] = 0x01;
    let packet = NetBiosPacket::from(Ipv4Address::new(1, 2, 3, 4), data, 1024);
    assert_eq!(packet.name(), "N/A");
}

#[test]
fn mac_is_suppressed_when_table_exceeds_received_length() {
    // A name count that places the MAC address beyond the received bytes
    // must not produce a MAC-looking string from unreceived buffer bytes.
    let raw = fixture_one();
    let mut data = [0u8; 1024];
    let length = raw.len();
    data[..length].copy_from_slice(&raw);
    data[56] = 60;
    let packet = NetBiosPacket::from(Ipv4Address::new(10, 192, 4, 35), data, length);
    assert_eq!(packet.mac_address(), "N/A");
}

#[test]
fn mac_renders_zero_bytes_positionally() {
    let data = [0u8; 1024];
    let packet = NetBiosPacket::from(Ipv4Address::new(1, 2, 3, 4), data, 1024);
    assert_eq!(packet.mac_address(), "00:00:00:00:00:00");
}

#[test]
fn hex_dump_brackets_received_bytes() {
    let mut data = [0u8; 1024];
    data[0] = 0xA2;
    data[1] = 0x48;
    data[2] = 0x0F;
    let packet = NetBiosPacket::from(Ipv4Address::new(1, 2, 3, 4), data, 3);
    assert_eq!(packet.hex_dump(), "[0xA2, 0x48, 0x0F, ]");
}
