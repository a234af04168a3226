//! Scenarios from the protocol parsers' documentation and history.

use meshcore_rs::error::Error;
use meshcore_rs::events::StatsCategory;
use meshcore_rs::packets::{PayloadType, RouteType};
use meshcore_rs::parsing::{
    hex_decode, hex_encode, parse_ack, parse_acl, parse_advert_response, parse_advertisement,
    parse_battery, parse_binary_response_frame, parse_channel_info, parse_channel_msg,
    parse_channel_msg_v3, parse_contact, parse_contact_end_timestamp, parse_contact_msg,
    parse_contact_msg_v3, parse_core_stats, parse_current_time, parse_custom_vars,
    parse_device_info, parse_discover_response, parse_mesh_packet_header, parse_mma,
    parse_msg_sent, parse_neighbours, parse_packet_stats, parse_path_discovery_response,
    parse_path_update, parse_private_key, parse_radio_stats, parse_raw_advertisement,
    parse_self_info, parse_sign_start, parse_stats, parse_status, parse_status_response,
    parse_telemetry_response, parse_trace_data, read_bytes, read_i16_le, read_i32_le,
    read_string, read_u16_le, read_u32_le, ADVERT_RESP_ADV_TYPE_OFFSET, ADVERT_RESP_FLAGS_OFFSET,
    ADVERT_RESP_LATLON_MIN_LEN, ADVERT_RESP_LAT_OFFSET, ADVERT_RESP_LON_OFFSET,
    ADVERT_RESP_MIN_LEN, ADVERT_RESP_NODE_DESC_OFFSET, ADVERT_RESP_NODE_NAME_OFFSET,
    ADVERT_RESP_PUBKEY_OFFSET, ADVERT_RESP_TAG_OFFSET, ADVERT_RESP_TIMESTAMP_OFFSET,
    BINARY_RESP_DATA_OFFSET, BINARY_RESP_MIN_LEN, BINARY_RESP_TAG_OFFSET, FLAGS_OFFSET,
    FLAG_HAS_FEATURE1, FLAG_HAS_FEATURE2, FLAG_HAS_LOCATION, FLAG_HAS_NAME, MIN_LEN,
    PAYLOAD_TYPE_SHIFT, PAYLOAD_VERSION_SHIFT, SIGNATURE_OFFSET, TIMESTAMP_OFFSET,
};
use meshcore_rs::{CHANNEL_NAME_LEN, CHANNEL_SECRET_LEN};

/// SNR in dB of a quarter-dB wire value.
fn snr_db(raw: i8) -> f32 {
    f32::from(raw) / 4.0
}

#[test]
fn test_read_u16_le() {
    let data = [0x34, 0x12];
    assert_eq!(read_u16_le(&data, 0).unwrap(), 0x1234);
}

#[test]
fn test_read_u16_le_with_offset() {
    let data = [0x00, 0x00, 0x34, 0x12];
    assert_eq!(read_u16_le(&data, 2).unwrap(), 0x1234);
}

#[test]
fn test_read_u16_le_buffer_too_short() {
    let data = [0x34];
    assert!(read_u16_le(&data, 0).is_err());
}

#[test]
fn test_read_i16_le() {
    // Test positive value
    let data = [0x34, 0x12];
    assert_eq!(read_i16_le(&data, 0).unwrap(), 0x1234);

    // Test negative value (-1)
    let data = [0xFF, 0xFF];
    assert_eq!(read_i16_le(&data, 0).unwrap(), -1);

    // Test negative value (-100)
    let data = (-100i16).to_le_bytes();
    assert_eq!(read_i16_le(&data, 0).unwrap(), -100);
}

#[test]
fn test_read_i16_le_buffer_too_short() {
    let data = [0x34];
    assert!(read_i16_le(&data, 0).is_err());
}

#[test]
fn test_read_u32_le() {
    let data = [0x78, 0x56, 0x34, 0x12];
    assert_eq!(read_u32_le(&data, 0).unwrap(), 0x12345678);
}

#[test]
fn test_read_u32_le_with_offset() {
    let data = [0x00, 0x00, 0x78, 0x56, 0x34, 0x12];
    assert_eq!(read_u32_le(&data, 2).unwrap(), 0x12345678);
}

#[test]
fn test_read_u32_le_buffer_too_short() {
    let data = [0x78, 0x56, 0x34];
    assert!(read_u32_le(&data, 0).is_err());
}

#[test]
fn test_read_i32_le() {
    // Test positive value
    let data = [0x78, 0x56, 0x34, 0x12];
    assert_eq!(read_i32_le(&data, 0).unwrap(), 0x12345678);

    // Test negative value (-1)
    let data = [0xFF, 0xFF, 0xFF, 0xFF];
    assert_eq!(read_i32_le(&data, 0).unwrap(), -1);

    // Test negative value (-1000000 for microdegrees)
    let data = (-1000000i32).to_le_bytes();
    assert_eq!(read_i32_le(&data, 0).unwrap(), -1000000);
}

#[test]
fn test_read_i32_le_buffer_too_short() {
    let data = [0x78, 0x56, 0x34];
    assert!(read_i32_le(&data, 0).is_err());
}

#[test]
fn test_read_string_null_terminated() {
    let data = b"hello\0world";
    assert_eq!(read_string(data, 0, 11), "hello");
}

#[test]
fn test_read_string_fixed_length() {
    let data = b"hello world";
    assert_eq!(read_string(data, 0, 5), "hello");
}

#[test]
fn test_read_string_with_offset() {
    let data = b"XXXhello\0";
    assert_eq!(read_string(data, 3, 6), "hello");
}

#[test]
fn test_read_string_empty() {
    let data = b"\0hello";
    assert_eq!(read_string(data, 0, 6), "");
}

#[test]
fn test_read_string_trims_whitespace() {
    let data = b"  hello  \0";
    assert_eq!(read_string(data, 0, 10), "hello");
}

#[test]
fn test_read_string_stops_at_control_character_when_not_null_terminated() {
    // No NUL anywhere in the 32-byte window (a real firmware quirk
    // observed on some advertisement pushes) — trailing bytes are
    // leftover garbage including raw control bytes.
    let mut data = b"39-HTJURA-YAN-RPT3".to_vec();
    data.extend_from_slice(&[0x01, 0x02, 0xFF, 0x03]); // garbage, no 0x00
    data.resize(32, 0x7F); // pad with DEL (a control character), not NUL
    assert_eq!(read_string(&data, 0, 32), "39-HTJURA-YAN-RPT3");
}

#[test]
fn test_read_string_stops_at_invalid_utf8_when_not_null_terminated() {
    let mut data = b"Node".to_vec();
    data.push(0x80); // invalid UTF-8 continuation byte with no leader
    data.extend_from_slice(&[0x41; 10]); // more bytes after the anomaly
    assert_eq!(read_string(&data, 0, data.len()), "Node");
}

#[test]
fn test_read_string_all_garbage_returns_empty() {
    let data = [0x01, 0x02, 0x03, 0x04];
    assert_eq!(read_string(&data, 0, 4), "");
}

#[test]
fn test_read_bytes() {
    let data = [0x01, 0x02, 0x03, 0x04, 0x05, 0x06];
    let result: [u8; 4] = read_bytes(&data, 1).unwrap();
    assert_eq!(result, [0x02, 0x03, 0x04, 0x05]);
}

#[test]
fn test_read_bytes_buffer_too_short() {
    let data = [0x01, 0x02];
    let result: Result<[u8; 4], Error> = read_bytes(&data, 0);
    assert!(result.is_err());
}

#[test]
fn test_hex_encode_decode() {
    let bytes = vec![0xde, 0xad, 0xbe, 0xef];
    let encoded = hex_encode(&bytes);
    assert_eq!(encoded, "deadbeef");

    let decoded = hex_decode(&encoded).unwrap();
    assert_eq!(decoded, bytes);
}

#[test]
fn test_hex_decode_with_0x_prefix() {
    let decoded = hex_decode("0xdeadbeef").unwrap();
    assert_eq!(decoded, vec![0xde, 0xad, 0xbe, 0xef]);
}

#[test]
fn test_hex_decode_odd_length() {
    assert!(hex_decode("abc").is_err());
}

#[test]
fn test_hex_decode_invalid_char() {
    assert!(hex_decode("ghij").is_err());
}

#[test]
fn test_hex_encode_empty() {
    assert_eq!(hex_encode(&[]), "");
}

#[test]
fn test_hex_decode_empty() {
    assert_eq!(hex_decode("").unwrap(), vec![]);
}

#[test]
fn test_parse_contact() {
    // Create a minimal valid contact buffer (145+ bytes)
    let mut data = vec![0u8; 149];
    // Public key (32 bytes)
    data[0..6].copy_from_slice(&[0x01, 0x02, 0x03, 0x04, 0x05, 0x06]);
    // contact_type
    data[32] = 1;
    // flags
    data[33] = 0x02;
    // path_len
    data[34] = 3;
    // out_path (starts at 35, 64 bytes)
    data[35..38].copy_from_slice(&[0x0A, 0x0B, 0x0C]);
    // adv_name (starts at 99, 32 bytes)
    data[99..104].copy_from_slice(b"Test\0");
    // last_advert (at 131, 4 bytes)
    data[131..135].copy_from_slice(&1000u32.to_le_bytes());
    // adv_lat (at 135, 4 bytes)
    data[135..139].copy_from_slice(&37774900i32.to_le_bytes());
    // adv_lon (at 139, 4 bytes)
    data[139..143].copy_from_slice(&(-122419400i32).to_le_bytes());
    // last_modification_timestamp (at 143, 4 bytes)
    data[143..147].copy_from_slice(&2000u32.to_le_bytes());

    let contact = parse_contact(&data).unwrap();
    assert_eq!(contact.contact_type, 1);
    assert_eq!(contact.flags, 0x02);
    assert_eq!(contact.path_len, 3);
    assert_eq!(contact.out_path, vec![0x0A, 0x0B, 0x0C]);
    assert_eq!(contact.adv_name, "Test");
    assert_eq!(contact.last_advert, 1000);
    assert_eq!(contact.adv_lat, 37774900);
    assert_eq!(contact.adv_lon, -122419400);
    assert_eq!(contact.last_modification_timestamp, 2000);
}

#[test]
fn test_parse_contact_too_short() {
    let data = vec![0u8; 100];
    assert!(parse_contact(&data).is_err());
}

#[test]
fn test_parse_self_info() {
    // Create a minimal valid self_info buffer (52+ bytes)
    let mut data = vec![0u8; 60];
    data[0] = 1; // adv_type
    data[1] = 20; // tx_power
    data[2] = 30; // max_tx_power
                  // public_key at 3
    data[3..6].copy_from_slice(&[0xAA, 0xBB, 0xCC]);
    // adv_lat at 35
    data[35..39].copy_from_slice(&37774900i32.to_le_bytes());
    // adv_lon at 39
    data[39..43].copy_from_slice(&(-122419400i32).to_le_bytes());
    data[43] = 2; // multi_acks
    data[44] = 1; // adv_loc_policy
    data[45] = 0b00_01_10_11; // telemetry modes packed
    data[46] = 1; // manual_add_contacts
                  // radio_freq at 47
    data[47..51].copy_from_slice(&915000000u32.to_le_bytes());
    // radio_bw at 51
    data[51..55].copy_from_slice(&125000u32.to_le_bytes());
    data[55] = 7; // sf
    data[56] = 5; // cr
                  // name at 57
    data[57..60].copy_from_slice(b"Dev");

    let info = parse_self_info(&data).unwrap();
    assert_eq!(info.adv_type, 1);
    assert_eq!(info.tx_power, 20);
    assert_eq!(info.max_tx_power, 30);
    assert_eq!(info.adv_lat, 37774900);
    assert_eq!(info.adv_lon, -122419400);
    assert_eq!(info.multi_acks, 2);
    assert_eq!(info.telemetry_mode_base, 0b11);
    assert_eq!(info.telemetry_mode_loc, 0b10);
    assert_eq!(info.telemetry_mode_env, 0b01);
    assert!(info.manual_add_contacts);
    assert_eq!(info.radio_freq, 915000000);
    assert_eq!(info.sf, 7);
    assert_eq!(info.cr, 5);
}

#[test]
fn test_parse_self_info_too_short() {
    let data = vec![0u8; 40];
    assert!(parse_self_info(&data).is_err());
}

#[test]
fn test_parse_status() {
    let mut data = vec![0u8; 52];
    // battery_mv at 0 (4.2V = 4200mV)
    data[0..2].copy_from_slice(&4200u16.to_le_bytes());
    // tx_queue_len at 2
    data[2..4].copy_from_slice(&5u16.to_le_bytes());
    // noise_floor at 4
    data[4..6].copy_from_slice(&(-90i16).to_le_bytes());
    // last_rssi at 6
    data[6..8].copy_from_slice(&(-50i16).to_le_bytes());
    // nb_recv at 8
    data[8..12].copy_from_slice(&1000u32.to_le_bytes());
    // nb_sent at 12
    data[12..16].copy_from_slice(&500u32.to_le_bytes());
    // airtime at 16
    data[16..20].copy_from_slice(&3600000u32.to_le_bytes());
    // uptime at 20
    data[20..24].copy_from_slice(&86400u32.to_le_bytes());
    // flood_sent at 24
    data[24..28].copy_from_slice(&100u32.to_le_bytes());
    // direct_sent at 28
    data[28..32].copy_from_slice(&400u32.to_le_bytes());
    // snr at 32 (raw, multiplied by 4)
    data[32] = 40; // SNR = 10.0
                   // dup_count at 36
    data[36..40].copy_from_slice(&10u32.to_le_bytes());
    // rx_airtime at 40
    data[40..44].copy_from_slice(&1800000u32.to_le_bytes());

    let sender = [0x01, 0x02, 0x03, 0x04, 0x05, 0x06];
    let status = parse_status(&data, sender).unwrap();

    assert_eq!(status.battery_mv, 4200);
    assert_eq!(status.tx_queue_len, 5);
    assert_eq!(status.noise_floor, -90);
    assert_eq!(status.last_rssi, -50);
    assert_eq!(status.nb_recv, 1000);
    assert_eq!(status.nb_sent, 500);
    assert_eq!(status.uptime, 86400);
    assert_eq!(snr_db(status.snr_raw), 10.0);
    assert_eq!(status.sender_prefix, sender);
}

#[test]
fn test_parse_status_too_short() {
    let data = vec![0u8; 40];
    assert!(parse_status(&data, [0; 6]).is_err());
}

#[test]
fn test_parse_contact_msg() {
    let mut data = vec![0u8; 20];
    // sender_prefix at 0
    data[0..6].copy_from_slice(&[0x01, 0x02, 0x03, 0x04, 0x05, 0x06]);
    data[6] = 2; // path_len
    data[7] = 1; // txt_type
                 // sender_timestamp at 8
    data[8..12].copy_from_slice(&1234567890u32.to_le_bytes());
    // text at 12
    data[12..20].copy_from_slice(b"Hi there");

    let msg = parse_contact_msg(&data).unwrap();
    assert_eq!(msg.sender_prefix, [0x01, 0x02, 0x03, 0x04, 0x05, 0x06]);
    assert_eq!(msg.path_len, 2);
    assert_eq!(msg.txt_type, 1);
    assert_eq!(msg.sender_timestamp, 1234567890);
    assert_eq!(msg.text, "Hi there");
    assert!(msg.signature.is_none());
}

#[test]
fn test_parse_contact_msg_with_signature() {
    let mut data = vec![0u8; 24];
    data[0..6].copy_from_slice(&[0x01, 0x02, 0x03, 0x04, 0x05, 0x06]);
    data[6] = 2;
    data[7] = 2; // txt_type = 2 means signed
    data[8..12].copy_from_slice(&1234567890u32.to_le_bytes());
    // signature at 12 (4 bytes)
    data[12..16].copy_from_slice(&[0xAA, 0xBB, 0xCC, 0xDD]);
    // text at 16
    data[16..24].copy_from_slice(b"Signed!!");

    let msg = parse_contact_msg(&data).unwrap();
    assert_eq!(msg.txt_type, 2);
    assert_eq!(msg.signature, Some([0xAA, 0xBB, 0xCC, 0xDD]));
    assert_eq!(msg.text, "Signed!!");
}

#[test]
fn test_parse_contact_msg_too_short() {
    let data = vec![0u8; 8];
    assert!(parse_contact_msg(&data).is_err());
}

#[test]
fn test_parse_contact_msg_v3() {
    let mut data = vec![0u8; 23];
    data[0] = 40; // snr_raw = 40, SNR = 10.0
                  // reserved bytes at 1-2
                  // sender_prefix at 3
    data[3..9].copy_from_slice(&[0x01, 0x02, 0x03, 0x04, 0x05, 0x06]);
    data[9] = 3; // path_len
    data[10] = 1; // txt_type
                  // sender_timestamp at 11
    data[11..15].copy_from_slice(&1234567890u32.to_le_bytes());
    // text at 15
    data[15..23].copy_from_slice(b"V3 msg!!");

    let msg = parse_contact_msg_v3(&data).unwrap();
    assert_eq!(msg.snr_raw.map(snr_db), Some(10.0));
    assert_eq!(msg.sender_prefix, [0x01, 0x02, 0x03, 0x04, 0x05, 0x06]);
    assert_eq!(msg.path_len, 3);
    assert_eq!(msg.text, "V3 msg!!");
}

#[test]
fn test_parse_contact_msg_v3_too_short() {
    let data = vec![0u8; 10];
    assert!(parse_contact_msg_v3(&data).is_err());
}

#[test]
fn test_parse_channel_msg() {
    let mut data = Vec::new();
    data.push(5); // channel_idx
    data.push(1); // path_len
    data.push(0); // txt_type
    data.extend_from_slice(&1234567890u32.to_le_bytes());
    data.extend_from_slice(b"Channel");

    let msg = parse_channel_msg(&data).unwrap();
    assert_eq!(msg.channel_idx, 5);
    assert_eq!(msg.path_len, 1);
    assert_eq!(msg.text, "Channel");
}

#[test]
fn test_parse_channel_msg_too_short() {
    let data = vec![0u8; 5];
    assert!(parse_channel_msg(&data).is_err());
}

#[test]
fn test_parse_channel_msg_v3() {
    let mut data = Vec::new();
    data.push(40); // snr_raw = 40, SNR = 10.0
    data.extend_from_slice(&[0x00, 0x00]); // reserved bytes
    data.push(5); // channel_idx
    data.push(2); // path_len
    data.push(0); // txt_type
    data.extend_from_slice(&1234567890u32.to_le_bytes());
    data.extend_from_slice(b"V3 chan");

    let msg = parse_channel_msg_v3(&data).unwrap();
    assert_eq!(msg.snr_raw.map(snr_db), Some(10.0));
    assert_eq!(msg.channel_idx, 5);
    assert_eq!(msg.path_len, 2);
    assert_eq!(msg.text, "V3 chan");
}

#[test]
fn test_parse_channel_msg_v3_too_short() {
    let data = vec![0u8; 8];
    assert!(parse_channel_msg_v3(&data).is_err());
}

#[test]
fn test_parse_acl() {
    let mut data = vec![0u8; 21]; // 3 entries
                                  // Entry 1
    data[0..6].copy_from_slice(&[0x01, 0x02, 0x03, 0x04, 0x05, 0x06]);
    data[6] = 0x01; // permissions
                    // Entry 2
    data[7..13].copy_from_slice(&[0x11, 0x12, 0x13, 0x14, 0x15, 0x16]);
    data[13] = 0x02;
    // Entry 3
    data[14..20].copy_from_slice(&[0x21, 0x22, 0x23, 0x24, 0x25, 0x26]);
    data[20] = 0x03;

    let entries = parse_acl(&data);
    assert_eq!(entries.len(), 3);
    assert_eq!(entries[0].prefix, [0x01, 0x02, 0x03, 0x04, 0x05, 0x06]);
    assert_eq!(entries[0].permissions, 0x01);
    assert_eq!(entries[2].permissions, 0x03);
}

#[test]
fn test_parse_acl_empty() {
    let entries = parse_acl(&[]);
    assert!(entries.is_empty());
}

#[test]
fn test_parse_neighbours() {
    let mut data = vec![0u8; 15];
    // total at 0
    data[0..2].copy_from_slice(&10u16.to_le_bytes());
    // count at 2
    data[2..4].copy_from_slice(&1u16.to_le_bytes());
    // Entry: pubkey (6) + secs_ago (4) + snr (1) = 11 bytes
    data[4..10].copy_from_slice(&[0x01, 0x02, 0x03, 0x04, 0x05, 0x06]);
    data[10..14].copy_from_slice(&300i32.to_le_bytes());
    data[14] = 40; // snr_raw = 40, SNR = 10.0

    let result = parse_neighbours(&data, 6).unwrap();
    assert_eq!(result.total, 10);
    assert_eq!(result.neighbours.len(), 1);
    assert_eq!(
        result.neighbours[0].pubkey,
        vec![0x01, 0x02, 0x03, 0x04, 0x05, 0x06]
    );
    assert_eq!(result.neighbours[0].secs_ago, 300);
    assert_eq!(snr_db(result.neighbours[0].snr_raw), 10.0);
}

#[test]
fn test_parse_neighbours_too_short() {
    let data = vec![0u8; 2];
    assert!(parse_neighbours(&data, 6).is_err());
}

#[test]
fn test_parse_mma() {
    let mut data = vec![0u8; 28]; // 2 entries
                                  // Entry 1
    data[0] = 1; // channel
    data[1] = 2; // entry_type
    data[2..6].copy_from_slice(&100i32.to_le_bytes()); // min
    data[6..10].copy_from_slice(&200i32.to_le_bytes()); // max
    data[10..14].copy_from_slice(&150i32.to_le_bytes()); // avg
                                                         // Entry 2
    data[14] = 2;
    data[15] = 3;
    data[16..20].copy_from_slice(&50i32.to_le_bytes());
    data[20..24].copy_from_slice(&100i32.to_le_bytes());
    data[24..28].copy_from_slice(&75i32.to_le_bytes());

    let entries = parse_mma(&data);
    assert_eq!(entries.len(), 2);
    assert_eq!(entries[0].channel, 1);
    assert_eq!(entries[0].entry_type, 2);
    assert_eq!(entries[0].min as f32, 100.0);
    assert_eq!(entries[0].max as f32, 200.0);
    assert_eq!(entries[0].avg as f32, 150.0);
}

#[test]
fn test_parse_mma_empty() {
    let entries = parse_mma(&[]);
    assert!(entries.is_empty());
}

#[test]
fn test_parse_device_info_empty() {
    assert!(parse_device_info(&[]).is_err());
}

#[test]
fn test_parse_device_info_v2() {
    // Pre-v3 firmware only has version code
    let data = [2u8]; // fw_version_code = 2
    let info = parse_device_info(&data).unwrap();
    assert_eq!(info.fw_version_code, 2);
    assert!(info.max_contacts.is_none());
    assert!(info.max_channels.is_none());
    assert!(info.ble_pin.is_none());
}

#[test]
fn test_parse_device_info_v3_partial() {
    // v3+ but not all fields present
    let mut data = vec![0u8; 10];
    data[0] = 3; // fw_version_code
    data[1] = 25; // max_contacts / 2
    data[2] = 4; // max_channels
    data[3..7].copy_from_slice(&5678u32.to_le_bytes()); // ble_pin

    let info = parse_device_info(&data).unwrap();
    assert_eq!(info.fw_version_code, 3);
    assert_eq!(info.max_contacts, Some(50)); // 25 * 2
    assert_eq!(info.max_channels, Some(4));
    assert_eq!(info.ble_pin, Some(5678));
    assert!(info.fw_build.is_none()); // Not enough data
    assert!(info.model.is_none());
    assert!(info.version.is_none());
    assert!(info.repeat.is_none());
}

#[test]
fn test_parse_device_info_full() {
    // Full v9+ device info
    let mut data = vec![0u8; 80];
    data[0] = 9; // fw_version_code
    data[1] = 50; // max_contacts / 2 = 100
    data[2] = 8; // max_channels
    data[3..7].copy_from_slice(&1234u32.to_le_bytes()); // ble_pin

    // fw_build at offset 7 (12 bytes)
    data[7..18].copy_from_slice(b"Feb 15 2025");

    // model at offset 19 (40 bytes)
    data[19..29].copy_from_slice(b"T-Deck Pro");

    // version at offset 59 (20 bytes)
    data[59..64].copy_from_slice(b"1.2.3");

    // repeat at offset 79
    data[79] = 1;

    let info = parse_device_info(&data).unwrap();
    assert_eq!(info.fw_version_code, 9);
    assert_eq!(info.max_contacts, Some(100));
    assert_eq!(info.max_channels, Some(8));
    assert_eq!(info.ble_pin, Some(1234));
    assert_eq!(info.fw_build.as_deref(), Some("Feb 15 2025"));
    assert_eq!(info.model.as_deref(), Some("T-Deck Pro"));
    assert_eq!(info.version.as_deref(), Some("1.2.3"));
    assert_eq!(info.repeat, Some(true));
}

#[test]
fn test_parse_device_info_repeat_false() {
    let mut data = vec![0u8; 80];
    data[0] = 9;
    data[79] = 0; // repeat disabled

    let info = parse_device_info(&data).unwrap();
    assert_eq!(info.repeat, Some(false));
}

#[test]
fn test_parse_device_info_max_contacts_overflow() {
    // Test that max_contacts * 2 doesn't overflow
    let mut data = vec![0u8; 3];
    data[0] = 3;
    data[1] = 200; // 200 * 2 = 400, but u8 max is 255, so saturates to 255

    let info = parse_device_info(&data).unwrap();
    // 200 * 2 would overflow u8, but we use saturating_mul
    assert_eq!(info.max_contacts, Some(255)); // Saturated
}

#[test]
fn test_parse_mesh_packet_header_flood_no_transport() {
    // route=Flood, payload_type=TextMsg, payload_ver=0
    let header_byte: u8 =
        ((PayloadType::TextMsg as u8) << PAYLOAD_TYPE_SHIFT) | RouteType::Flood as u8;
    // path_hash_size=1 (bits 6-7 = 0b00), path_len=2
    let path_byte = 0b00_000010;
    let data = [header_byte, path_byte, 0xAA, 0xBB, 0xCC, 0xDD];

    let (header, remaining) = parse_mesh_packet_header(&data).unwrap();
    assert_eq!(header.route_type, RouteType::Flood);
    assert_eq!(header.payload_type, PayloadType::TextMsg);
    assert_eq!(header.payload_version, 0);
    assert!(header.transport_code.is_none());
    assert_eq!(header.path_len, 2);
    assert_eq!(header.path_hash_size, 1);
    assert_eq!(header.path, vec![0xAA, 0xBB]);
    assert_eq!(remaining, &[0xCC, 0xDD]);
}

#[test]
fn test_parse_mesh_packet_header_with_transport_code() {
    // route=TransportFlood, payload_type=Advert, payload_ver=1
    let header_byte = (1u8 << PAYLOAD_VERSION_SHIFT)
        | ((PayloadType::Advert as u8) << PAYLOAD_TYPE_SHIFT)
        | RouteType::TransportFlood as u8;
    // path_hash_size=2 (bits 6-7 = 0b01 -> +1), path_len=1
    let path_byte = 0b01_000001;
    let data = [
        header_byte, // header
        0x11,
        0x22,
        0x33,
        0x44,      // transport code
        path_byte, // path descriptor
        0x01,
        0x02, // path (1 hop * 2 bytes)
        0x99, // remaining inner payload
    ];

    let (header, remaining) = parse_mesh_packet_header(&data).unwrap();
    assert_eq!(header.route_type, RouteType::TransportFlood);
    assert_eq!(header.payload_type, PayloadType::Advert);
    assert_eq!(header.payload_version, 1);
    assert_eq!(header.transport_code, Some([0x11, 0x22, 0x33, 0x44]));
    assert_eq!(header.path_len, 1);
    assert_eq!(header.path_hash_size, 2);
    assert_eq!(header.path, vec![0x01, 0x02]);
    assert_eq!(remaining, &[0x99]);
}

#[test]
fn test_parse_mesh_packet_header_empty() {
    assert!(parse_mesh_packet_header(&[]).is_err());
}

#[test]
fn test_parse_mesh_packet_header_missing_path_byte() {
    // Direct route, no transport code, but no path byte follows
    let data = [2u8];
    assert!(parse_mesh_packet_header(&data).is_err());
}

#[test]
fn test_parse_mesh_packet_header_path_truncated() {
    // path_len=5, path_hash_size=1 declared, but no path bytes follow
    let data = [1u8, 0b00_000101];
    assert!(parse_mesh_packet_header(&data).is_err());
}

#[test]
fn test_parse_mesh_packet_header_missing_transport_code() {
    // TransportDirect route requires a 4-byte transport code that isn't present
    let data = [3u8, 0x11, 0x22];
    assert!(parse_mesh_packet_header(&data).is_err());
}

#[test]
fn test_parse_raw_advertisement_with_name() {
    let mut data = vec![0u8; MIN_LEN];
    data[0..6].copy_from_slice(&[0x01, 0x02, 0x03, 0x04, 0x05, 0x06]); // pubkey prefix
    data[TIMESTAMP_OFFSET..TIMESTAMP_OFFSET + 4].copy_from_slice(&123456u32.to_le_bytes());
    data[SIGNATURE_OFFSET..SIGNATURE_OFFSET + 4].copy_from_slice(&[0xAA, 0xBB, 0xCC, 0xDD]); // signature prefix
    data[FLAGS_OFFSET] = FLAG_HAS_NAME;
    data.extend_from_slice(b"Node1");

    let adv = parse_raw_advertisement(&data).unwrap();
    assert_eq!(&adv.public_key[0..6], &[0x01, 0x02, 0x03, 0x04, 0x05, 0x06]);
    assert_eq!(adv.timestamp, 123456);
    assert_eq!(&adv.signature[0..4], &[0xAA, 0xBB, 0xCC, 0xDD]);
    assert_eq!(adv.adv_type, 0);
    assert!(adv.lat.is_none());
    assert!(adv.lon.is_none());
    assert_eq!(adv.name.as_deref(), Some("Node1"));
}

#[test]
fn test_parse_raw_advertisement_with_location() {
    let mut data = vec![0u8; MIN_LEN];
    data[FLAGS_OFFSET] = 1 | FLAG_HAS_LOCATION; // adv_type=1, has location
    data.extend_from_slice(&37774900i32.to_le_bytes());
    data.extend_from_slice(&(-122419400i32).to_le_bytes());

    let adv = parse_raw_advertisement(&data).unwrap();
    assert_eq!(adv.adv_type, 1);
    assert_eq!(adv.lat, Some(37774900));
    assert_eq!(adv.lon, Some(-122419400));
    assert!(adv.name.is_none());
}

#[test]
fn test_parse_raw_advertisement_skips_unknown_feature_blocks() {
    // flags: feature1 + feature2 + name, no location. Each feature
    // block is 2 bytes we don't decode but must still skip correctly,
    // otherwise the name would be read from the wrong offset (garbled,
    // or misaligned into the feature bytes).
    let mut data = vec![0u8; MIN_LEN];
    data[FLAGS_OFFSET] = FLAG_HAS_FEATURE1 | FLAG_HAS_FEATURE2 | FLAG_HAS_NAME;
    data.extend_from_slice(&[0xAA, 0xAA]); // feature1, skipped
    data.extend_from_slice(&[0xBB, 0xBB]); // feature2, skipped
    data.extend_from_slice(b"Node2");

    let adv = parse_raw_advertisement(&data).unwrap();
    assert!(adv.lat.is_none());
    assert!(adv.lon.is_none());
    assert_eq!(adv.name.as_deref(), Some("Node2"));
}

#[test]
fn test_parse_raw_advertisement_too_short() {
    let data = vec![0u8; MIN_LEN - 1];
    assert!(parse_raw_advertisement(&data).is_err());
}

#[test]
fn test_parse_raw_advertisement_truncated_location_fails() {
    // flags: has location (0x10) and name (0x80), but only 4 trailing
    // bytes — not enough for the 8-byte lat/lon. Must be rejected as a
    // parse failure rather than silently misreading the name from
    // inside the truncated location bytes.
    let mut data = vec![0u8; MIN_LEN];
    data[FLAGS_OFFSET] = FLAG_HAS_LOCATION | FLAG_HAS_NAME;
    data.extend_from_slice(&[0xAA, 0xBB, 0xCC, 0xDD]);

    assert!(parse_raw_advertisement(&data).is_err());
}

// ========== parse_advert_response tests ==========

/// Build a minimal valid AdvertResponse payload (74 bytes: tag + pubkey
/// + adv_type + node_name + timestamp + flags).
fn build_advert_response_payload() -> Vec<u8> {
    let mut data = Vec::new();
    data.extend_from_slice(&[0x01, 0x02, 0x03, 0x04]); // tag
    data.extend_from_slice(&[0xAA; 32]); // pubkey
    data.push(2); // adv_type
    let mut name = [0u8; 32];
    name[..5].copy_from_slice(b"TestN");
    data.extend_from_slice(&name); // node_name (32 bytes)
    data.extend_from_slice(&1700000000u32.to_le_bytes()); // timestamp
    data.push(0x05); // flags
    data
}

#[test]
fn test_parse_advert_response_too_short() {
    let data = vec![0u8; ADVERT_RESP_MIN_LEN - 1];
    assert!(parse_advert_response(&data).is_err());
}

#[test]
fn test_parse_advert_response_empty() {
    assert!(parse_advert_response(&[]).is_err());
}

#[test]
fn test_parse_advert_response_minimal() {
    let data = build_advert_response_payload();
    assert_eq!(data.len(), ADVERT_RESP_MIN_LEN);

    let resp = parse_advert_response(&data).unwrap();
    assert_eq!(resp.tag, [0x01, 0x02, 0x03, 0x04]);
    assert_eq!(resp.pubkey, [0xAA; 32]);
    assert_eq!(resp.adv_type, 2);
    assert_eq!(resp.node_name, "TestN");
    assert_eq!(resp.timestamp, 1700000000);
    assert_eq!(resp.flags, 0x05);
    assert!(resp.lat.is_none());
    assert!(resp.lon.is_none());
    assert!(resp.node_desc.is_none());
}

#[test]
fn test_parse_advert_response_with_latlon() {
    let mut data = build_advert_response_payload();
    data.extend_from_slice(&37774900i32.to_le_bytes()); // lat
    data.extend_from_slice(&(-122419400i32).to_le_bytes()); // lon
    assert_eq!(data.len(), ADVERT_RESP_LATLON_MIN_LEN);

    let resp = parse_advert_response(&data).unwrap();
    assert_eq!(resp.lat, Some(37774900));
    assert_eq!(resp.lon, Some(-122419400));
    assert!(resp.node_desc.is_none());
}

#[test]
fn test_parse_advert_response_with_latlon_and_desc() {
    let mut data = build_advert_response_payload();
    data.extend_from_slice(&37774900i32.to_le_bytes()); // lat
    data.extend_from_slice(&(-122419400i32).to_le_bytes()); // lon
    let mut desc = [0u8; 32];
    desc[..6].copy_from_slice(b"Relay1");
    data.extend_from_slice(&desc); // node_desc

    let resp = parse_advert_response(&data).unwrap();
    assert_eq!(resp.lat, Some(37774900));
    assert_eq!(resp.lon, Some(-122419400));
    assert_eq!(resp.node_desc.as_deref(), Some("Relay1"));
}

#[test]
fn test_parse_advert_response_partial_latlon_ignored() {
    // Payload extends past flags but not enough for both lat and lon
    let mut data = build_advert_response_payload();
    data.extend_from_slice(&[0xFF; 4]); // only 4 extra bytes, need 8

    let resp = parse_advert_response(&data).unwrap();
    // Not enough for lat+lon, so they remain None
    assert!(resp.lat.is_none());
    assert!(resp.lon.is_none());
}

#[test]
fn test_parse_advert_response_latlon_exact_no_desc() {
    // Exactly at LATLON_MIN_LEN: lat+lon present but no description
    let mut data = build_advert_response_payload();
    data.extend_from_slice(&0i32.to_le_bytes()); // lat = 0
    data.extend_from_slice(&0i32.to_le_bytes()); // lon = 0

    let resp = parse_advert_response(&data).unwrap();
    assert_eq!(resp.lat, Some(0));
    assert_eq!(resp.lon, Some(0));
    assert!(resp.node_desc.is_none());
}

#[test]
fn test_parse_advert_response_offset_constants() {
    // Verify the computed constants match the documented byte layout
    assert_eq!(ADVERT_RESP_TAG_OFFSET, 0);
    assert_eq!(ADVERT_RESP_PUBKEY_OFFSET, 4);
    assert_eq!(ADVERT_RESP_ADV_TYPE_OFFSET, 36);
    assert_eq!(ADVERT_RESP_NODE_NAME_OFFSET, 37);
    assert_eq!(ADVERT_RESP_TIMESTAMP_OFFSET, 69);
    assert_eq!(ADVERT_RESP_FLAGS_OFFSET, 73);
    assert_eq!(ADVERT_RESP_MIN_LEN, 74);
    assert_eq!(ADVERT_RESP_LAT_OFFSET, 74);
    assert_eq!(ADVERT_RESP_LON_OFFSET, 78);
    assert_eq!(ADVERT_RESP_LATLON_MIN_LEN, 82);
    assert_eq!(ADVERT_RESP_NODE_DESC_OFFSET, 82);
}

// ========== parse_battery tests ==========

#[test]
fn test_parse_battery_too_short() {
    assert!(parse_battery(&[]).is_err());
    assert!(parse_battery(&[0x01]).is_err());
}

#[test]
fn test_parse_battery_voltage_only() {
    let data = 3700u16.to_le_bytes();
    let info = parse_battery(&data).unwrap();
    assert_eq!(info.battery_mv, 3700);
    assert!(info.used_kb.is_none());
    assert!(info.total_kb.is_none());
}

#[test]
fn test_parse_battery_with_storage() {
    let mut data = Vec::new();
    data.extend_from_slice(&3800u16.to_le_bytes());
    data.extend_from_slice(&1024u32.to_le_bytes()); // used_kb
    data.extend_from_slice(&4096u32.to_le_bytes()); // total_kb
    let info = parse_battery(&data).unwrap();
    assert_eq!(info.battery_mv, 3800);
    assert_eq!(info.used_kb, Some(1024));
    assert_eq!(info.total_kb, Some(4096));
}

#[test]
fn test_parse_battery_partial_storage_ignored() {
    // 2 bytes voltage + 4 bytes used_kb, but no total_kb (6 bytes < 10)
    let mut data = Vec::new();
    data.extend_from_slice(&3500u16.to_le_bytes());
    data.extend_from_slice(&512u32.to_le_bytes());
    let info = parse_battery(&data).unwrap();
    assert_eq!(info.battery_mv, 3500);
    assert!(info.used_kb.is_none());
    assert!(info.total_kb.is_none());
}

// ========== parse_msg_sent tests ==========

#[test]
fn test_parse_msg_sent_too_short() {
    assert!(parse_msg_sent(&[]).is_err());
    assert!(parse_msg_sent(&[0; 8]).is_err());
}

#[test]
fn test_parse_msg_sent_valid() {
    let mut data = vec![0x02]; // message_type
    data.extend_from_slice(&[0xAA, 0xBB, 0xCC, 0xDD]); // expected_ack
    data.extend_from_slice(&10000u32.to_le_bytes()); // suggested_timeout
    let info = parse_msg_sent(&data).unwrap();
    assert_eq!(info.message_type, 0x02);
    assert_eq!(info.expected_ack, [0xAA, 0xBB, 0xCC, 0xDD]);
    assert_eq!(info.suggested_timeout, 10000);
}

// ========== parse_channel_info tests ==========

#[test]
fn test_parse_channel_info_too_short() {
    assert!(parse_channel_info(&[]).is_err());
    assert!(parse_channel_info(&[0; 48]).is_err()); // need 49
}

#[test]
fn test_parse_channel_info_valid() {
    let mut data = vec![3u8]; // channel_idx
    let mut name = [0u8; CHANNEL_NAME_LEN];
    name[..4].copy_from_slice(b"Test");
    data.extend_from_slice(&name);
    data.extend_from_slice(&[0xCC; CHANNEL_SECRET_LEN]);
    let info = parse_channel_info(&data).unwrap();
    assert_eq!(info.channel_idx, 3);
    assert_eq!(info.name, "Test");
    assert_eq!(info.secret, [0xCC; CHANNEL_SECRET_LEN]);
}

// ========== parse_stats tests ==========

#[test]
fn test_parse_stats_empty() {
    assert!(parse_stats(&[]).is_err());
}

#[test]
fn test_parse_stats_core() {
    let data = [0, 0x11, 0x22];
    let stats = parse_stats(&data).unwrap();
    assert_eq!(stats.category, StatsCategory::Core);
    assert_eq!(stats.raw, vec![0x11, 0x22]);
}

#[test]
fn test_parse_stats_radio() {
    let data = [1, 0xAA];
    let stats = parse_stats(&data).unwrap();
    assert_eq!(stats.category, StatsCategory::Radio);
}

#[test]
fn test_parse_stats_packets() {
    let data = [2];
    let stats = parse_stats(&data).unwrap();
    assert_eq!(stats.category, StatsCategory::Packets);
    assert!(stats.raw.is_empty());
}

#[test]
fn test_parse_stats_unknown_category_errors() {
    let data = [99, 0xFF];
    assert!(parse_stats(&data).is_err());
}

// ========== parse_core_stats tests ==========

#[test]
fn test_parse_core_stats_too_short() {
    assert!(parse_core_stats(&[]).is_err());
    assert!(parse_core_stats(&[0; 8]).is_err()); // need 9
}

#[test]
fn test_parse_core_stats_valid() {
    let mut data = Vec::new();
    data.extend_from_slice(&4012u16.to_le_bytes()); // battery_mv
    data.extend_from_slice(&123456u32.to_le_bytes()); // uptime_secs
    data.extend_from_slice(&7u16.to_le_bytes()); // errors
    data.push(3); // queue_len

    let stats = parse_core_stats(&data).unwrap();
    assert_eq!(stats.battery_mv, 4012);
    assert_eq!(stats.uptime_secs, 123456);
    assert_eq!(stats.errors, 7);
    assert_eq!(stats.queue_len, 3);
}

// ========== parse_radio_stats tests ==========

#[test]
fn test_parse_radio_stats_too_short() {
    assert!(parse_radio_stats(&[]).is_err());
    assert!(parse_radio_stats(&[0; 11]).is_err()); // need 12
}

#[test]
fn test_parse_radio_stats_valid() {
    let mut data = Vec::new();
    data.extend_from_slice(&(-120i16).to_le_bytes()); // noise_floor
    data.push((-80i8) as u8); // last_rssi
    data.push((33i8) as u8); // last_snr_scaled (33 / 4.0 = 8.25 dB)
    data.extend_from_slice(&120u32.to_le_bytes()); // tx_air_secs
    data.extend_from_slice(&340u32.to_le_bytes()); // rx_air_secs

    let stats = parse_radio_stats(&data).unwrap();
    assert_eq!(stats.noise_floor, -120);
    assert_eq!(stats.last_rssi, -80);
    assert_eq!(snr_db(stats.last_snr_scaled), 8.25);
    assert_eq!(stats.tx_air_secs, 120);
    assert_eq!(stats.rx_air_secs, 340);
}

// ========== parse_packet_stats tests ==========

#[test]
fn test_parse_packet_stats_too_short() {
    assert!(parse_packet_stats(&[]).is_err());
    assert!(parse_packet_stats(&[0; 23]).is_err()); // need at least 24
}

#[test]
fn test_parse_packet_stats_legacy_26_byte_frame_has_no_recv_errors() {
    let mut data = Vec::new();
    data.extend_from_slice(&1000u32.to_le_bytes()); // recv
    data.extend_from_slice(&500u32.to_le_bytes()); // sent
    data.extend_from_slice(&100u32.to_le_bytes()); // flood_tx
    data.extend_from_slice(&400u32.to_le_bytes()); // direct_tx
    data.extend_from_slice(&200u32.to_le_bytes()); // flood_rx
    data.extend_from_slice(&800u32.to_le_bytes()); // direct_rx
    assert_eq!(data.len(), 24);

    let stats = parse_packet_stats(&data).unwrap();
    assert_eq!(stats.recv, 1000);
    assert_eq!(stats.sent, 500);
    assert_eq!(stats.flood_tx, 100);
    assert_eq!(stats.direct_tx, 400);
    assert_eq!(stats.flood_rx, 200);
    assert_eq!(stats.direct_rx, 800);
    assert_eq!(stats.recv_errors, None);
}

#[test]
fn test_parse_packet_stats_30_byte_frame_has_recv_errors() {
    let mut data = Vec::new();
    data.extend_from_slice(&1000u32.to_le_bytes());
    data.extend_from_slice(&500u32.to_le_bytes());
    data.extend_from_slice(&100u32.to_le_bytes());
    data.extend_from_slice(&400u32.to_le_bytes());
    data.extend_from_slice(&200u32.to_le_bytes());
    data.extend_from_slice(&800u32.to_le_bytes());
    data.extend_from_slice(&5u32.to_le_bytes()); // recv_errors
    assert_eq!(data.len(), 28);

    let stats = parse_packet_stats(&data).unwrap();
    assert_eq!(stats.recv_errors, Some(5));
}

// ========== parse_advertisement tests ==========

#[test]
fn test_parse_advertisement_too_short() {
    assert!(parse_advertisement(&[]).is_err());
    assert!(parse_advertisement(&[0; 13]).is_err());
}

#[test]
fn test_parse_advertisement_minimal() {
    let mut data = vec![0x01, 0x02, 0x03, 0x04, 0x05, 0x06]; // prefix
    let mut name = [0u8; 32];
    name[..4].copy_from_slice(b"Node");
    data.extend_from_slice(&name);
    // No lat/lon
    let advert = parse_advertisement(&data).unwrap();
    assert_eq!(advert.prefix, [0x01, 0x02, 0x03, 0x04, 0x05, 0x06]);
    assert_eq!(advert.name, "Node");
    assert_eq!(advert.lat, 0);
    assert_eq!(advert.lon, 0);
}

#[test]
fn test_parse_advertisement_with_latlon() {
    let mut data = vec![0xAA; 6]; // prefix
    let mut name = [0u8; 32];
    name[..5].copy_from_slice(b"Hello");
    data.extend_from_slice(&name);
    data.extend_from_slice(&37774900i32.to_le_bytes()); // lat
    data.extend_from_slice(&(-122419400i32).to_le_bytes()); // lon
    let advert = parse_advertisement(&data).unwrap();
    assert_eq!(advert.name, "Hello");
    assert_eq!(advert.lat, 37774900);
    assert_eq!(advert.lon, -122419400);
}

// ========== parse_path_update tests ==========

#[test]
fn test_parse_path_update_too_short() {
    assert!(parse_path_update(&[]).is_err());
    assert!(parse_path_update(&[0; 6]).is_err());
}

#[test]
fn test_parse_path_update_no_path() {
    let mut data = vec![0x11, 0x22, 0x33, 0x44, 0x55, 0x66]; // prefix
    data.push(0x03); // path_len = 3
    let update = parse_path_update(&data).unwrap();
    assert_eq!(update.prefix, [0x11, 0x22, 0x33, 0x44, 0x55, 0x66]);
    assert_eq!(update.path_len, 3);
    assert!(update.path.is_empty());
}

#[test]
fn test_parse_path_update_with_path() {
    let mut data = vec![0xAA; 6]; // prefix
    data.push(0x02); // path_len = 2
    data.extend_from_slice(&[0xDE, 0xAD, 0xBE, 0xEF]);
    let update = parse_path_update(&data).unwrap();
    assert_eq!(update.path_len, 2);
    assert_eq!(update.path, vec![0xDE, 0xAD, 0xBE, 0xEF]);
}

#[test]
fn test_parse_path_update_negative_path_len() {
    let mut data = vec![0xBB; 6]; // prefix
    data.push(0xFF); // path_len as i8 = -1 (flood)
    let update = parse_path_update(&data).unwrap();
    assert_eq!(update.path_len, -1);
}

// ========== parse_trace_data tests ==========

#[test]
fn test_parse_trace_data_empty() {
    let trace = parse_trace_data(&[]);
    assert!(trace.hops.is_empty());
}

#[test]
fn test_parse_trace_data_single_hop() {
    let mut data = vec![0x01, 0x02, 0x03, 0x04, 0x05, 0x06]; // prefix
    data.push(40); // snr_raw = 40, snr = 10.0
    let trace = parse_trace_data(&data);
    assert_eq!(trace.hops.len(), 1);
    assert_eq!(trace.hops[0].prefix, [0x01, 0x02, 0x03, 0x04, 0x05, 0x06]);
    assert_eq!(snr_db(trace.hops[0].snr_raw), 10.0);
}

#[test]
fn test_parse_trace_data_multiple_hops() {
    let mut data = Vec::new();
    data.extend_from_slice(&[0xAA; 6]);
    data.push(20); // snr = 5.0
    data.extend_from_slice(&[0xBB; 6]);
    data.push((-8i8) as u8); // snr = -2.0
    let trace = parse_trace_data(&data);
    assert_eq!(trace.hops.len(), 2);
    assert_eq!(snr_db(trace.hops[0].snr_raw), 5.0);
    assert_eq!(snr_db(trace.hops[1].snr_raw), -2.0);
}

#[test]
fn test_parse_trace_data_trailing_bytes_ignored() {
    // 7 bytes for one hop + 3 trailing bytes (not enough for another hop)
    let mut data = vec![0xCC; 6];
    data.push(0);
    data.extend_from_slice(&[0xFF, 0xFF, 0xFF]); // trailing
    let trace = parse_trace_data(&data);
    assert_eq!(trace.hops.len(), 1);
}

// ========== parse_discover_response tests ==========

#[test]
fn test_parse_discover_response_empty() {
    let entries = parse_discover_response(&[]);
    assert!(entries.is_empty());
}

#[test]
fn test_parse_discover_response_single_entry() {
    let mut data = vec![0xAA; 32]; // pubkey
    let mut name = [0u8; 32];
    name[..5].copy_from_slice(b"Peer1");
    data.extend_from_slice(&name);
    let entries = parse_discover_response(&data);
    assert_eq!(entries.len(), 1);
    assert_eq!(entries[0].pubkey, vec![0xAA; 32]);
    assert_eq!(entries[0].name, "Peer1");
}

#[test]
fn test_parse_discover_response_multiple_entries() {
    let mut data = Vec::new();
    // Entry 1
    data.extend_from_slice(&[0x11; 32]);
    let mut name1 = [0u8; 32];
    name1[..2].copy_from_slice(b"A1");
    data.extend_from_slice(&name1);
    // Entry 2
    data.extend_from_slice(&[0x22; 32]);
    let mut name2 = [0u8; 32];
    name2[..2].copy_from_slice(b"B2");
    data.extend_from_slice(&name2);
    let entries = parse_discover_response(&data);
    assert_eq!(entries.len(), 2);
    assert_eq!(entries[0].name, "A1");
    assert_eq!(entries[1].name, "B2");
}

#[test]
fn test_parse_discover_response_too_short_entry_ignored() {
    // Less than 38 bytes, so no entries parsed
    let data = vec![0u8; 37];
    let entries = parse_discover_response(&data);
    assert!(entries.is_empty());
}

// ========== parse_status_response tests ==========

#[test]
fn test_parse_status_response_too_short() {
    assert!(parse_status_response(&[]).is_err());
    assert!(parse_status_response(&[0; 57]).is_err());
}

#[test]
fn test_parse_status_response_valid() {
    // Build a valid StatusResponse payload: 6-byte prefix + status data
    let mut data = vec![0x11, 0x22, 0x33, 0x44, 0x55, 0x66]; // sender prefix
                                                             // Status data: battery_mv(2) + tx_queue(2) + noise(2) + rssi(2) + recv(4)
                                                             // + sent(4) + airtime(4) + uptime(4) + flood(4) + direct(4) + snr(1)
                                                             // + dup(4) + rx_airtime(4) + padding... = at least 52 bytes
    let mut status_data = vec![0u8; 52];
    // battery_mv = 3700 at offset 0
    status_data[0..2].copy_from_slice(&3700u16.to_le_bytes());
    data.extend_from_slice(&status_data);
    let frame = parse_status_response(&data).unwrap();
    assert_eq!(frame.sender_prefix, [0x11, 0x22, 0x33, 0x44, 0x55, 0x66]);
    assert_eq!(frame.status.battery_mv, 3700);
}

// ========== parse_telemetry_response tests ==========

#[test]
fn test_parse_telemetry_response_too_short() {
    assert!(parse_telemetry_response(&[]).is_err());
    assert!(parse_telemetry_response(&[0; 3]).is_err());
}

#[test]
fn test_parse_telemetry_response_tag_only() {
    let data = [0xAA, 0xBB, 0xCC, 0xDD];
    let frame = parse_telemetry_response(&data).unwrap();
    assert_eq!(frame.tag, [0xAA, 0xBB, 0xCC, 0xDD]);
    assert!(frame.data.is_empty());
}

#[test]
fn test_parse_telemetry_response_with_data() {
    let mut data = vec![0x01, 0x02, 0x03, 0x04]; // tag
    data.extend_from_slice(&[0x10, 0x20, 0x30]); // LPP data
    let frame = parse_telemetry_response(&data).unwrap();
    assert_eq!(frame.tag, [0x01, 0x02, 0x03, 0x04]);
    assert_eq!(frame.data, vec![0x10, 0x20, 0x30]);
}

// ========== parse_custom_vars tests ==========

#[test]
fn test_parse_custom_vars_empty() {
    let vars = parse_custom_vars(&[]);
    assert!(vars.is_empty());
}

#[test]
fn test_parse_custom_vars_single() {
    let vars = parse_custom_vars(b"key=value");
    assert_eq!(vars.get("key").unwrap(), "value");
}

#[test]
fn test_parse_custom_vars_multiple() {
    let vars = parse_custom_vars(b"a=1\nb=2\nc=3");
    assert_eq!(vars.len(), 3);
    assert_eq!(vars.get("a").unwrap(), "1");
    assert_eq!(vars.get("b").unwrap(), "2");
    assert_eq!(vars.get("c").unwrap(), "3");
}

#[test]
fn test_parse_custom_vars_no_equals_skipped() {
    let vars = parse_custom_vars(b"good=yes\nbadline\nalso=ok");
    assert_eq!(vars.len(), 2);
    assert_eq!(vars.get("good").unwrap(), "yes");
    assert_eq!(vars.get("also").unwrap(), "ok");
}

// ========== parse_binary_response_frame tests ==========

#[test]
fn test_parse_binary_response_frame_too_short() {
    assert!(parse_binary_response_frame(&[]).is_err());
    assert!(parse_binary_response_frame(&[0; 4]).is_err());
}

#[test]
fn test_parse_binary_response_frame_minimal() {
    // subtype(1) + tag(4) = 5 bytes, no data
    let data = [0xFF, 0x01, 0x02, 0x03, 0x04];
    let frame = parse_binary_response_frame(&data).unwrap();
    assert_eq!(frame.tag, [0x01, 0x02, 0x03, 0x04]);
    assert!(frame.data.is_empty());
}

#[test]
fn test_parse_binary_response_frame_with_data() {
    let mut data = vec![0x00]; // subtype (skipped)
    data.extend_from_slice(&[0xAA, 0xBB, 0xCC, 0xDD]); // tag
    data.extend_from_slice(&[0x11, 0x22, 0x33]); // response data
    let frame = parse_binary_response_frame(&data).unwrap();
    assert_eq!(frame.tag, [0xAA, 0xBB, 0xCC, 0xDD]);
    assert_eq!(frame.data, vec![0x11, 0x22, 0x33]);
}

#[test]
fn test_parse_binary_response_frame_constants() {
    assert_eq!(BINARY_RESP_TAG_OFFSET, 1);
    assert_eq!(BINARY_RESP_DATA_OFFSET, 5);
    assert_eq!(BINARY_RESP_MIN_LEN, 5);
}

// ========== parse_contact_end_timestamp tests ==========

#[test]
fn test_parse_contact_end_timestamp_empty() {
    assert_eq!(parse_contact_end_timestamp(&[]).unwrap(), None);
}

#[test]
fn test_parse_contact_end_timestamp_too_short() {
    assert_eq!(
        parse_contact_end_timestamp(&[0x01, 0x02, 0x03]).unwrap(),
        None
    );
}

#[test]
fn test_parse_contact_end_timestamp_valid() {
    let data = 1700000000u32.to_le_bytes();
    assert_eq!(
        parse_contact_end_timestamp(&data).unwrap(),
        Some(1700000000)
    );
}

#[test]
fn test_parse_contact_end_timestamp_with_extra_bytes() {
    let mut data = 42u32.to_le_bytes().to_vec();
    data.extend_from_slice(&[0xFF, 0xFF]); // extra trailing bytes
    assert_eq!(parse_contact_end_timestamp(&data).unwrap(), Some(42));
}

// ========== parse_current_time tests ==========

#[test]
fn test_parse_current_time_too_short() {
    assert!(parse_current_time(&[]).is_err());
    assert!(parse_current_time(&[0x01, 0x02, 0x03]).is_err());
}

#[test]
fn test_parse_current_time_valid() {
    let data = 1700000000u32.to_le_bytes();
    assert_eq!(parse_current_time(&data).unwrap(), 1700000000);
}

// ========== parse_private_key tests ==========

#[test]
fn test_parse_private_key_too_short() {
    assert!(parse_private_key(&[]).is_err());
    assert!(parse_private_key(&[0; 63]).is_err());
}

#[test]
fn test_parse_private_key_valid() {
    let data = [0xAA; 64];
    assert_eq!(parse_private_key(&data).unwrap(), [0xAA; 64]);
}

// ========== parse_sign_start tests ==========

#[test]
fn test_parse_sign_start_too_short() {
    assert!(parse_sign_start(&[]).is_err());
    assert!(parse_sign_start(&[0x01, 0x02, 0x03]).is_err());
}

#[test]
fn test_parse_sign_start_valid() {
    let data = 4096u32.to_le_bytes();
    assert_eq!(parse_sign_start(&data).unwrap(), 4096);
}

// ========== parse_ack tests ==========

#[test]
fn test_parse_ack_too_short() {
    assert!(parse_ack(&[]).is_err());
    assert!(parse_ack(&[0x01, 0x02, 0x03]).is_err());
}

#[test]
fn test_parse_ack_valid() {
    let data = [0x11, 0x22, 0x33, 0x44];
    assert_eq!(parse_ack(&data).unwrap(), [0x11, 0x22, 0x33, 0x44]);
}

// ========== parse_path_discovery_response tests ==========

#[test]
fn test_parse_path_discovery_response_too_short() {
    assert!(parse_path_discovery_response(&[]).is_err());
    assert!(parse_path_discovery_response(&[0; 7]).is_err()); // need at least 9
}

#[test]
fn test_parse_path_discovery_response_no_paths() {
    let mut data = vec![0x00]; // reserved
    data.extend_from_slice(&[0x11, 0x22, 0x33, 0x44, 0x55, 0x66]); // pubkey prefix
    data.push(0x00); // out_path: hash_len=1, path_len=0
    data.push(0x00); // in_path: hash_len=1, path_len=0

    let resp = parse_path_discovery_response(&data).unwrap();
    assert_eq!(resp.pubkey_prefix, [0x11, 0x22, 0x33, 0x44, 0x55, 0x66]);
    assert_eq!(resp.out_path_len, 0);
    assert_eq!(resp.out_path_hash_len, 1);
    assert!(resp.out_path.is_empty());
    assert_eq!(resp.in_path_len, 0);
    assert_eq!(resp.in_path_hash_len, 1);
    assert!(resp.in_path.is_empty());
}

#[test]
fn test_parse_path_discovery_response_with_paths() {
    let mut data = vec![0x00]; // reserved
    data.extend_from_slice(&[0xAA; 6]); // pubkey prefix
                                        // out_path: hash_len=2 (bits 6-7 = 0b01 -> +1 = 2), path_len=2
    data.push(0b01_000010);
    data.extend_from_slice(&[0x01, 0x02, 0x03, 0x04]); // 2 hops * 2 bytes = 4
                                                       // in_path: hash_len=1 (bits 6-7 = 0b00 -> +1 = 1), path_len=3
    data.push(0b00_000011);
    data.extend_from_slice(&[0xA1, 0xA2, 0xA3]); // 3 hops * 1 byte = 3

    let resp = parse_path_discovery_response(&data).unwrap();
    assert_eq!(resp.out_path_len, 2);
    assert_eq!(resp.out_path_hash_len, 2);
    assert_eq!(resp.out_path, vec![0x01, 0x02, 0x03, 0x04]);
    assert_eq!(resp.in_path_len, 3);
    assert_eq!(resp.in_path_hash_len, 1);
    assert_eq!(resp.in_path, vec![0xA1, 0xA2, 0xA3]);
}

#[test]
fn test_parse_path_discovery_response_outbound_truncated() {
    let mut data = vec![0x00]; // reserved
    data.extend_from_slice(&[0xBB; 6]); // pubkey prefix
                                        // out_path: hash_len=1, path_len=5 (needs 5 bytes)
    data.push(0b00_000101);
    data.extend_from_slice(&[0x01, 0x02]); // only 2 bytes, need 5

    assert!(parse_path_discovery_response(&data).is_err());
}

#[test]
fn test_parse_path_discovery_response_inbound_truncated() {
    let mut data = vec![0x00]; // reserved
    data.extend_from_slice(&[0xCC; 6]); // pubkey prefix
    data.push(0x00); // out_path: no hops
                     // in_path: hash_len=1, path_len=2 (needs 2 bytes)
    data.push(0b00_000010);
    data.push(0xDD); // only 1 byte, need 2

    assert!(parse_path_discovery_response(&data).is_err());
}
