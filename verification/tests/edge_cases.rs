//! Boundaries and error messages of the parsers.

use meshcore_rs::custom_vars::parse_custom_vars_text;
use meshcore_rs::error::Error;
use meshcore_rs::packets::{PayloadType, RouteType};
use meshcore_rs::parsing::{
    hex_decode, parse_channel_msg, parse_contact, parse_contact_msg, parse_custom_vars,
    parse_device_info, parse_discover_response, parse_mesh_packet_header, parse_neighbours,
    parse_path_discovery_response, parse_raw_advertisement, parse_self_info, parse_stats,
    read_bytes, read_string, read_u16_le, read_u32_le, FLAGS_OFFSET, FLAG_HAS_LOCATION, MIN_LEN,
};

fn protocol_message<T>(r: Result<T, Error>) -> String {
    match r {
        Err(Error::Protocol(m)) => m,
        _ => panic!("expected a protocol error"),
    }
}

fn param_message<T>(r: Result<T, Error>) -> String {
    match r {
        Err(Error::InvalidParam(m)) => m,
        _ => panic!("expected an invalid-parameter error"),
    }
}

#[test]
fn reader_errors_name_the_cause() {
    assert_eq!(protocol_message(read_u16_le(&[1, 2], usize::MAX)), "Offset overflow");
    assert_eq!(protocol_message(read_u32_le(&[1, 2, 3], 0)), "Buffer too short for u32");
    let r: Result<[u8; 4], Error> = read_bytes(&[1, 2, 3], 0);
    assert_eq!(protocol_message(r), "Buffer too short for 4 bytes");
    let r: Result<[u8; 4], Error> = read_bytes(&[1, 2, 3], usize::MAX - 1);
    assert_eq!(protocol_message(r), "Offset overflow");
}

#[test]
fn read_u16_le_at_end_of_buffer() {
    assert_eq!(read_u16_le(&[0, 0x34, 0x12], 1).unwrap(), 0x1234);
    assert!(read_u16_le(&[0, 0x34, 0x12], 2).is_err());
}

#[test]
fn read_string_offset_at_end_is_empty() {
    assert_eq!(read_string(b"abc", 3, 10), "");
}

#[test]
fn read_string_keeps_valid_multibyte_text() {
    assert_eq!(read_string("Café ☕".as_bytes(), 0, 32), "Café ☕");
    // A multi-byte character cut by the window is dropped.
    assert_eq!(read_string("ab☕".as_bytes(), 0, 4), "ab");
}

#[test]
fn too_short_messages_report_the_length() {
    assert_eq!(protocol_message(parse_contact(&[0u8; 100])), "Contact data too short: 100 bytes");
    assert_eq!(protocol_message(parse_self_info(&[0u8; 7])), "SelfInfo data too short: 7 bytes");
    assert_eq!(protocol_message(parse_contact_msg(&[0u8; 3])), "Contact message too short");
}

#[test]
fn self_info_without_radio_bandwidth_fails() {
    for len in 52..55 {
        assert_eq!(protocol_message(parse_self_info(&vec![0u8; len])), "Buffer too short for u32");
    }
    let info = parse_self_info(&[0u8; 57]).unwrap();
    assert_eq!(info.name, "");
}

#[test]
fn contact_without_modification_timestamp_reads_zero() {
    let mut data = vec![0u8; 145];
    data[35] = 7;
    data[36] = 0;
    data[37] = 9;
    let contact = parse_contact(&data).unwrap();
    assert_eq!(contact.last_modification_timestamp, 0);
    assert_eq!(contact.out_path, vec![7]);
    assert_eq!(contact.path_len, 0);
}

#[test]
fn message_text_replaces_invalid_utf8() {
    let mut data = vec![0u8; 12];
    data.extend_from_slice(b"ok\xff!");
    let msg = parse_contact_msg(&data).unwrap();
    assert_eq!(msg.text, "ok\u{FFFD}!");
    let mut chan = vec![1u8, 0, 0, 0, 0, 0, 0];
    chan.extend_from_slice("héllo".as_bytes());
    assert_eq!(parse_channel_msg(&chan).unwrap().text, "héllo");
}

#[test]
fn signed_message_needs_room_for_signature() {
    let mut data = vec![0u8; 14];
    data[7] = 2;
    let msg = parse_contact_msg(&data).unwrap();
    assert!(msg.signature.is_none());
    assert_eq!(msg.text, "\0\0");
}

#[test]
fn device_info_partial_v3_fields() {
    let info = parse_device_info(&[3, 127]).unwrap();
    assert_eq!(info.max_contacts, Some(254));
    assert!(info.max_channels.is_none());
    assert!(info.ble_pin.is_none());
    let info = parse_device_info(&[3, 128, 1]).unwrap();
    assert_eq!(info.max_contacts, Some(255));
    assert_eq!(info.max_channels, Some(1));
    assert!(parse_device_info(&[9]).unwrap().max_contacts.is_none());
}

#[test]
fn stats_error_messages() {
    assert_eq!(protocol_message(parse_stats(&[])), "Stats payload too short");
    assert_eq!(protocol_message(parse_stats(&[3])), "Unknown stats category");
}

#[test]
fn hex_decode_follows_from_str_radix() {
    assert_eq!(hex_decode("+f0A").unwrap(), vec![0x0f, 0x0a]);
    assert_eq!(hex_decode("0x0xAB").unwrap(), vec![0xab]);
    assert_eq!(param_message(hex_decode("-1")), "Invalid hex character");
    assert_eq!(param_message(hex_decode("abc")), "Hex string must have even length");
    assert_eq!(param_message(hex_decode("é")), "Invalid hex character");
}

#[test]
fn mesh_header_error_messages() {
    assert_eq!(protocol_message(parse_mesh_packet_header(&[])), "MeshPacketHeader payload too short");
    assert_eq!(protocol_message(parse_mesh_packet_header(&[0, 1, 2])), "Buffer too short for 4 bytes");
    assert_eq!(
        protocol_message(parse_mesh_packet_header(&[0, 1, 2, 3, 4])),
        "MeshPacketHeader missing path byte"
    );
    assert_eq!(protocol_message(parse_mesh_packet_header(&[1, 0x81, 9])), "MeshPacketHeader path truncated");
}

#[test]
fn mesh_header_decodes_every_field() {
    let data = [0b10_0111_01u8, 0b11_000001, 1, 2, 3, 4];
    let (header, rest) = parse_mesh_packet_header(&data).unwrap();
    assert_eq!(header.route_type, RouteType::Flood);
    assert_eq!(header.payload_type, PayloadType::AnonReq);
    assert_eq!(header.payload_version, 2);
    assert_eq!(header.path_hash_size, 4);
    assert_eq!(header.path, vec![1, 2, 3, 4]);
    assert!(rest.is_empty());
}

#[test]
fn raw_advertisement_truncated_location_message() {
    let mut data = vec![0u8; MIN_LEN];
    data[FLAGS_OFFSET] = FLAG_HAS_LOCATION;
    data.extend_from_slice(&[1, 2, 3, 4, 5, 6]);
    assert_eq!(protocol_message(parse_raw_advertisement(&data)), "Buffer too short for i32");
}

#[test]
fn neighbours_stop_at_first_entry_that_does_not_fit() {
    let mut data = vec![0u8; 4];
    data[2] = 3; // three announced
    data.extend_from_slice(&[0xA1, 0xA2, 1, 0, 0, 0, 8]);
    data.extend_from_slice(&[0xB1, 0xB2, 2, 0, 0]); // cut short
    let result = parse_neighbours(&data, 2).unwrap();
    assert_eq!(result.neighbours.len(), 1);
    assert_eq!(result.neighbours[0].pubkey, vec![0xA1, 0xA2]);
    assert_eq!(result.neighbours[0].secs_ago, 1);
    assert_eq!(result.neighbours[0].snr_raw, 8);
}

#[test]
fn discover_last_entry_may_be_cut_short() {
    let mut data = vec![0x11u8; 32];
    data.extend_from_slice(b"First\0");
    assert_eq!(data.len(), 38);
    let entries = parse_discover_response(&data);
    assert_eq!(entries.len(), 1);
    assert_eq!(entries[0].name, "First");
}

#[test]
fn path_discovery_error_messages() {
    assert_eq!(
        protocol_message(parse_path_discovery_response(&[0u8; 8])),
        "PathDiscoveryResponse payload too short"
    );
    let mut data = vec![0u8; 7];
    data.push(0b00_000001);
    data.push(0xAA);
    assert_eq!(
        protocol_message(parse_path_discovery_response(&data)),
        "PathDiscoveryResponse outbound path truncated"
    );
    let mut data = vec![0u8; 8];
    data.push(0b00_000001);
    assert_eq!(
        protocol_message(parse_path_discovery_response(&data)),
        "PathDiscoveryResponse inbound path truncated"
    );
}

#[test]
fn custom_vars_line_endings_and_overrides() {
    let vars = parse_custom_vars(b"a=1\r\nb=x=y\nnoequals\na=2\nc=\r");
    assert_eq!(vars.len(), 3);
    assert_eq!(vars.get("a").unwrap(), "2");
    assert_eq!(vars.get("b").unwrap(), "x=y");
    assert_eq!(vars.get("c").unwrap(), "\r");
    assert!(vars.get("noequals").is_none());
}

#[test]
fn custom_vars_from_text_and_lossy_bytes() {
    let vars = parse_custom_vars_text("k=v\n\n=empty");
    assert_eq!(vars.get("k").unwrap(), "v");
    assert_eq!(vars.get("").unwrap(), "empty");
    let vars = parse_custom_vars(b"k=\xff");
    assert_eq!(vars.get("k").unwrap(), "\u{FFFD}");
}

#[test]
fn error_message_is_the_stored_text() {
    let e = Error::protocol("Ack payload too short");
    assert_eq!(e.message(), "Ack payload too short");
    let e = Error::invalid_param("bad");
    assert_eq!(e.message(), "bad");
}

#[test]
fn custom_vars_insert_replaces_value() {
    let mut vars = meshcore_rs::custom_vars::CustomVars::new();
    assert!(vars.is_empty());
    vars.insert("x".to_string(), "1".to_string());
    vars.insert("y".to_string(), "2".to_string());
    vars.insert("x".to_string(), "3".to_string());
    assert_eq!(vars.len(), 2);
    assert_eq!(vars.get("x").unwrap(), "3");
    assert_eq!(vars.get("y").unwrap(), "2");
}
