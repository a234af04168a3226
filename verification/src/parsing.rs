//! Binary parsing utilities for MeshCore protocol
use vstd::prelude::*;
use vstd::utf8::{decode_utf8, valid_utf8};
use crate::error::{protocol_err, Error};
use crate::events::{
    AclEntry, AdvertResponseData, AdvertisementData, BatteryInfo, ChannelInfoData, ChannelMessage,
    Contact, ContactMessage, CoreStatsData, DeviceInfoData, DiscoverEntry, MeshPacketHeader,
    MmaEntry, MsgSentInfo, Neighbour, NeighboursData, PacketStatsData, PathDiscoveryResponseData,
    PathUpdateData, RadioStatsData, RawAdvertisement, SelfInfo, StatsCategory, StatsData,
    StatusData, TraceHop, TraceInfo,
};
use crate::{CHANNEL_NAME_LEN, CHANNEL_SECRET_LEN};
use crate::packets::{payload_type_of, route_type_of, PayloadType, RouteType};
use crate::text::{
    decimal, keep_nonzero, lemma_plain_name_field, lemma_run_len, message_with_count,
    read_string_spec, run_len, tail_text, text_from, trim_ws,
};
use crate::wire::{
    byte_as_i8, bytes_at, i16_at, i16_le, i16_le_bytes, i32_at, i32_le, i32_le_bytes,
    lemma_i32_le_roundtrip, lemma_u16_le_roundtrip, lemma_u32_le_roundtrip, signed_byte, u16_at,
    u16_le, u16_le_bytes, u32_at, u32_le, u32_le_bytes,
};

pub use crate::custom_vars::parse_custom_vars;
pub use crate::hex::{hex_decode, hex_encode};
pub use crate::text::read_string;
pub use crate::wire::{read_bytes, read_i16_le, read_i32_le, read_u16_le, read_u32_le};

verus! {

/// The bytes of `s` before its first zero byte.
pub open spec fn before_nul(s: Seq<u8>) -> Seq<u8> {
    s.take(run_len(s, keep_nonzero()) as int)
}

/// Copies `data[start..end]` up to its first zero byte.
fn copy_before_nul(data: &[u8], start: usize, end: usize) -> (v: Vec<u8>)
    requires
        start <= end <= data.len(),
    ensures
        v@ == before_nul(data@.subrange(start as int, end as int)),
{
    let ghost s = data@.subrange(start as int, end as int);
    let mut v: Vec<u8> = Vec::new();
    let mut i: usize = start;
    while i < end && data[i] != 0
        invariant
            start <= i <= end <= data.len(),
            s == data@.subrange(start as int, end as int),
            v@ == s.take(i - start),
            forall|j: int| 0 <= j < i - start ==> s[j] != 0,
        decreases end - i,
    {
        assert(s[i - start] == data@[i as int]);
        v.push(data[i]);
        i += 1;
        assert(v@ =~= s.take(i - start));
    }
    proof {
        lemma_run_len(s, keep_nonzero(), i - start);
    }
    v
}

/// Copies `data[start..end]` into a vector.
fn copy_range(data: &[u8], start: usize, end: usize) -> (v: Vec<u8>)
    requires
        start <= end <= data.len(),
    ensures
        v@ == data@.subrange(start as int, end as int),
{
    vstd::slice::slice_to_vec(&data[start..end])
}

/// A contact's fields as a contact frame `d` lays them out.
pub open spec fn contact_layout(d: Seq<u8>, c: Contact) -> bool {
    &&& c.public_key@ == d.subrange(0, 32)
    &&& c.contact_type == d[32]
    &&& c.flags == d[33]
    &&& c.path_len == signed_byte(d[34])
    &&& c.out_path@ == before_nul(d.subrange(35, 99))
    &&& c.adv_name@ == read_string_spec(d, 99, 32)
    &&& c.last_advert == u32_le(d, 131)
    &&& c.adv_lat == i32_le(d, 135)
    &&& c.adv_lon == i32_le(d, 139)
    &&& c.last_modification_timestamp == (if d.len() >= 149 {
        u32_le(d, 143)
    } else {
        0
    })
}

/// Parse a contact from raw bytes (149 bytes)
///
/// The trailing last-modification timestamp is optional: a 145-byte frame
/// reads it as 0.
pub fn parse_contact(data: &[u8]) -> (r: Result<Contact, Error>)
    ensures
        data.len() < 145 ==> protocol_err(
            r,
            "Contact data too short: "@ + decimal(data.len() as nat) + " bytes"@,
        ),
        data.len() >= 145 ==> (r matches Ok(c) && contact_layout(data@, c)),
{
    if data.len() < 145 {
        return Err(
            Error::Protocol(message_with_count("Contact data too short: ", data.len(), " bytes")),
        );
    }
    let public_key: [u8; 32] = bytes_at(data, 0);
    let contact_type = data[32];
    let flags = data[33];
    let path_len = byte_as_i8(data[34]);
    let out_path = copy_before_nul(data, 35, 99);
    let adv_name = read_string(data, 99, 32);
    let last_advert = u32_at(data, 131);
    let adv_lat = i32_at(data, 135);
    let adv_lon = i32_at(data, 139);
    let last_modification_timestamp = if data.len() >= 149 {
        u32_at(data, 143)
    } else {
        0
    };
    Ok(
        Contact {
            public_key,
            contact_type,
            flags,
            path_len,
            out_path,
            adv_name,
            last_advert,
            adv_lat,
            adv_lon,
            last_modification_timestamp,
        },
    )
}

/// The node's own information as a self-info frame `d` lays it out.
pub open spec fn self_info_layout(d: Seq<u8>, s: SelfInfo) -> bool {
    &&& s.adv_type == d[0]
    &&& s.tx_power == d[1]
    &&& s.max_tx_power == d[2]
    &&& s.public_key@ == d.subrange(3, 35)
    &&& s.adv_lat == i32_le(d, 35)
    &&& s.adv_lon == i32_le(d, 39)
    &&& s.multi_acks == d[43]
    &&& s.adv_loc_policy == d[44]
    &&& s.telemetry_mode_base == d[45] % 4
    &&& s.telemetry_mode_loc == (d[45] / 4) % 4
    &&& s.telemetry_mode_env == (d[45] / 16) % 4
    &&& s.manual_add_contacts == (d[46] != 0)
    &&& s.radio_freq == u32_le(d, 47)
    &&& s.radio_bw == u32_le(d, 51)
    &&& s.sf == d[55]
    &&& s.cr == d[56]
    &&& s.name@ == (if d.len() > 57 {
        read_string_spec(d, 57, d.len() - 57)
    } else {
        Seq::<char>::empty()
    })
}

/// Parse self-info from raw bytes (109+ bytes)
///
/// A frame of 52 to 54 bytes fails on the radio bandwidth field, which
/// ends at byte 55. The spreading factor and coding rate (bytes 55 and 56)
/// are read as soon as the frame reaches 55 bytes, so frames of exactly 55
/// or 56 bytes, which do not hold them, are outside the parser's domain.
pub fn parse_self_info(data: &[u8]) -> (r: Result<SelfInfo, Error>)
    requires
        data.len() != 55,
        data.len() != 56,
    ensures
        data.len() < 52 ==> protocol_err(
            r,
            "SelfInfo data too short: "@ + decimal(data.len() as nat) + " bytes"@,
        ),
        52 <= data.len() < 55 ==> protocol_err(r, "Buffer too short for u32"@),
        data.len() >= 55 ==> (r matches Ok(s) && self_info_layout(data@, s)),
{
    if data.len() < 52 {
        return Err(
            Error::Protocol(message_with_count("SelfInfo data too short: ", data.len(), " bytes")),
        );
    }
    let adv_type = data[0];
    let tx_power = data[1];
    let max_tx_power = data[2];
    let public_key: [u8; 32] = bytes_at(data, 3);
    let adv_lat = i32_at(data, 35);
    let adv_lon = i32_at(data, 39);
    let multi_acks = data[43];
    let adv_loc_policy = data[44];
    let telemetry_byte = data[45];
    let telemetry_mode_base = telemetry_byte % 4;
    let telemetry_mode_loc = (telemetry_byte / 4) % 4;
    let telemetry_mode_env = (telemetry_byte / 16) % 4;
    let manual_add_contacts = data[46] != 0;
    let radio_freq = u32_at(data, 47);
    let radio_bw = match read_u32_le(data, 51) {
        Ok(v) => v,
        Err(e) => return Err(e),
    };
    let sf = data[55];
    let cr = data[56];
    let name = if data.len() > 57 {
        read_string(data, 57, data.len() - 57)
    } else {
        String::new()
    };
    Ok(
        SelfInfo {
            adv_type,
            tx_power,
            max_tx_power,
            public_key,
            adv_lat,
            adv_lon,
            multi_acks,
            adv_loc_policy,
            telemetry_mode_base,
            telemetry_mode_loc,
            telemetry_mode_env,
            manual_add_contacts,
            radio_freq,
            radio_bw,
            sf,
            cr,
            name,
        },
    )
}

/// `opt` holds a string whose characters are `cs`.
pub open spec fn holds_text(opt: Option<String>, cs: Seq<char>) -> bool {
    opt matches Some(s) && s@ == cs
}

/// The device information as a device-info frame `d` lays it out (after
/// the response code byte).
pub open spec fn device_info_layout(d: Seq<u8>, i: DeviceInfoData) -> bool {
    &&& i.fw_version_code == d[0]
    &&& if d[0] < 3 || d.len() < 2 {
        &&& i.max_contacts is None
        &&& i.max_channels is None
        &&& i.ble_pin is None
        &&& i.fw_build is None
        &&& i.model is None
        &&& i.version is None
        &&& i.repeat is None
    } else {
        &&& i.max_contacts == Some(
            (if 2 * d[1] > 255 {
                255
            } else {
                2 * d[1]
            }) as u8,
        )
        &&& i.max_channels == (if d.len() > 2 {
            Some(d[2])
        } else {
            None
        })
        &&& i.ble_pin == (if d.len() >= 7 {
            Some(u32_le(d, 3) as u32)
        } else {
            None
        })
        &&& if d.len() >= 19 {
            holds_text(i.fw_build, read_string_spec(d, 7, 12))
        } else {
            i.fw_build is None
        }
        &&& if d.len() >= 59 {
            holds_text(i.model, read_string_spec(d, 19, 40))
        } else {
            i.model is None
        }
        &&& if d.len() >= 79 {
            holds_text(i.version, read_string_spec(d, 59, 20))
        } else {
            i.version is None
        }
        &&& i.repeat == (if d.len() >= 80 {
            Some(d[79] != 0)
        } else {
            None
        })
    }
}

/// Parse device info response
///
/// Format (after response code byte):
/// - Byte 0: Firmware version code
/// - Byte 1: Max contacts / 2 (v3+)
/// - Byte 2: Max channels (v3+)
/// - Bytes 3-6: BLE PIN (u32 LE, v3+)
/// - Bytes 7-18: Firmware build date (12 bytes, null-terminated, v3+)
/// - Bytes 19-58: Model/manufacturer (40 bytes, null-terminated, v3+)
/// - Bytes 59-78: Version string (20 bytes, null-terminated, v3+)
/// - Byte 79: Repeat setting (v9+)
///
/// Max contacts saturates at 255.
pub fn parse_device_info(data: &[u8]) -> (r: Result<DeviceInfoData, Error>)
    ensures
        data.len() == 0 ==> protocol_err(r, "DeviceInfo payload too short"@),
        data.len() > 0 ==> (r matches Ok(i) && device_info_layout(data@, i)),
{
    if data.len() == 0 {
        return Err(Error::protocol("DeviceInfo payload too short"));
    }
    let fw_version_code = data[0];
    if fw_version_code < 3 || data.len() < 2 {
        return Ok(
            DeviceInfoData {
                fw_version_code,
                max_contacts: None,
                max_channels: None,
                ble_pin: None,
                fw_build: None,
                model: None,
                version: None,
                repeat: None,
            },
        );
    }
    let max_contacts = if data[1] > 127 {
        Some(255u8)
    } else {
        Some(data[1] * 2)
    };
    let max_channels = if data.len() > 2 {
        Some(data[2])
    } else {
        None
    };
    let ble_pin = if data.len() >= 7 {
        Some(u32_at(data, 3))
    } else {
        None
    };
    let fw_build = if data.len() >= 19 {
        Some(read_string(data, 7, 12))
    } else {
        None
    };
    let model = if data.len() >= 59 {
        Some(read_string(data, 19, 40))
    } else {
        None
    };
    let version = if data.len() >= 79 {
        Some(read_string(data, 59, 20))
    } else {
        None
    };
    let repeat = if data.len() >= 80 {
        Some(data[79] != 0)
    } else {
        None
    };
    Ok(
        DeviceInfoData {
            fw_version_code,
            max_contacts,
            max_channels,
            ble_pin,
            fw_build,
            model,
            version,
            repeat,
        },
    )
}

/// Status counters as a status body `d` lays them out.
pub open spec fn status_layout(d: Seq<u8>, sender_prefix: [u8; 6], s: StatusData) -> bool {
    &&& s.battery_mv == u16_le(d, 0)
    &&& s.tx_queue_len == u16_le(d, 2)
    &&& s.noise_floor == i16_le(d, 4)
    &&& s.last_rssi == i16_le(d, 6)
    &&& s.nb_recv == u32_le(d, 8)
    &&& s.nb_sent == u32_le(d, 12)
    &&& s.airtime == u32_le(d, 16)
    &&& s.uptime == u32_le(d, 20)
    &&& s.flood_sent == u32_le(d, 24)
    &&& s.direct_sent == u32_le(d, 28)
    &&& s.snr_raw == signed_byte(d[32])
    &&& s.dup_count == u32_le(d, 36)
    &&& s.rx_airtime == u32_le(d, 40)
    &&& s.sender_prefix == sender_prefix
}

/// Parse status response (52+ bytes)
pub fn parse_status(data: &[u8], sender_prefix: [u8; 6]) -> (r: Result<StatusData, Error>)
    ensures
        data.len() < 52 ==> protocol_err(
            r,
            "Status data too short: "@ + decimal(data.len() as nat) + " bytes"@,
        ),
        data.len() >= 52 ==> (r matches Ok(s) && status_layout(data@, sender_prefix, s)),
{
    if data.len() < 52 {
        return Err(
            Error::Protocol(message_with_count("Status data too short: ", data.len(), " bytes")),
        );
    }
    Ok(
        StatusData {
            battery_mv: u16_at(data, 0),
            tx_queue_len: u16_at(data, 2),
            noise_floor: i16_at(data, 4),
            last_rssi: i16_at(data, 6),
            nb_recv: u32_at(data, 8),
            nb_sent: u32_at(data, 12),
            airtime: u32_at(data, 16),
            uptime: u32_at(data, 20),
            flood_sent: u32_at(data, 24),
            direct_sent: u32_at(data, 28),
            snr_raw: byte_as_i8(data[32]),
            dup_count: u32_at(data, 36),
            rx_airtime: u32_at(data, 40),
            sender_prefix,
        },
    )
}

/// A signed text message (`txt_type` 2) carries a 4-byte signature before
/// its text when the frame is long enough to hold it.
pub open spec fn is_signed(txt_type: u8, len: int, text_at: int) -> bool {
    txt_type == 2 && len >= text_at + 4
}

/// `sig` is the 4-byte signature at `at` in `d` when `signed`, else absent.
pub open spec fn signature_layout(d: Seq<u8>, signed: bool, at: int, sig: Option<[u8; 4]>) -> bool {
    if signed {
        sig matches Some(s) && s@ == d.subrange(at, at + 4)
    } else {
        sig is None
    }
}

/// A direct message as a contact-message frame `d` lays it out; `base` is
/// where the sender prefix starts (0 in v2 frames, 3 in v3 frames).
pub open spec fn contact_msg_layout(d: Seq<u8>, base: int, m: ContactMessage) -> bool {
    let signed = is_signed(d[base + 7], d.len() as int, base + 12);
    let text_at = if signed {
        base + 16
    } else {
        base + 12
    };
    &&& m.sender_prefix@ == d.subrange(base, base + 6)
    &&& m.path_len == d[base + 6]
    &&& m.txt_type == d[base + 7]
    &&& m.sender_timestamp == u32_le(d, base + 8)
    &&& signature_layout(d, signed, base + 12, m.signature)
    &&& m.text@ == tail_text(d, text_at)
    &&& valid_utf8(d.subrange(text_at, d.len() as int)) ==> m.text@ == decode_utf8(
        d.subrange(text_at, d.len() as int),
    )
}

/// The message fields shared by both contact-message formats.
fn contact_msg_at(data: &[u8], base: usize) -> (m: ContactMessage)
    requires
        base == 0 || base == 3,
        data.len() >= base + 12,
    ensures
        contact_msg_layout(data@, base as int, m),
        m.snr_raw is None,
{
    let sender_prefix: [u8; 6] = bytes_at(data, base);
    let path_len = data[base + 6];
    let txt_type = data[base + 7];
    let sender_timestamp = u32_at(data, base + 8);
    let (signature, text_start) = if txt_type == 2 && data.len() >= base + 16 {
        let sig: [u8; 4] = bytes_at(data, base + 12);
        (Some(sig), base + 16)
    } else {
        (None, base + 12)
    };
    let text = text_from(data, text_start);
    ContactMessage {
        sender_prefix,
        path_len,
        txt_type,
        sender_timestamp,
        text,
        snr_raw: None,
        signature,
    }
}

/// Parse a contact message (v2 format)
pub fn parse_contact_msg(data: &[u8]) -> (r: Result<ContactMessage, Error>)
    ensures
        data.len() < 12 ==> protocol_err(r, "Contact message too short"@),
        data.len() >= 12 ==> (r matches Ok(m) && contact_msg_layout(data@, 0, m) && m.snr_raw is None),
{
    if data.len() < 12 {
        return Err(Error::protocol("Contact message too short"));
    }
    Ok(contact_msg_at(data, 0))
}

/// Parse a contact message v3 format (with SNR)
pub fn parse_contact_msg_v3(data: &[u8]) -> (r: Result<ContactMessage, Error>)
    ensures
        data.len() < 15 ==> protocol_err(r, "Contact message v3 too short"@),
        data.len() >= 15 ==> (r matches Ok(m) && contact_msg_layout(data@, 3, m) && m.snr_raw
            == Some(signed_byte(data@[0]) as i8)),
{
    if data.len() < 15 {
        return Err(Error::protocol("Contact message v3 too short"));
    }
    let snr_raw = byte_as_i8(data[0]);
    let mut msg = contact_msg_at(data, 3);
    msg.snr_raw = Some(snr_raw);
    Ok(msg)
}

/// A channel message as a channel-message frame `d` lays it out; `base` is
/// where the channel index starts (0 in v2 frames, 3 in v3 frames).
pub open spec fn channel_msg_layout(d: Seq<u8>, base: int, m: ChannelMessage) -> bool {
    &&& m.channel_idx == d[base]
    &&& m.path_len == d[base + 1]
    &&& m.txt_type == d[base + 2]
    &&& m.sender_timestamp == u32_le(d, base + 3)
    &&& m.text@ == tail_text(d, base + 7)
    &&& valid_utf8(d.subrange(base + 7, d.len() as int)) ==> m.text@ == decode_utf8(
        d.subrange(base + 7, d.len() as int),
    )
}

/// The message fields shared by both channel-message formats.
fn channel_msg_at(data: &[u8], base: usize) -> (m: ChannelMessage)
    requires
        base == 0 || base == 3,
        data.len() >= base + 7,
    ensures
        channel_msg_layout(data@, base as int, m),
        m.snr_raw is None,
{
    ChannelMessage {
        channel_idx: data[base],
        path_len: data[base + 1],
        txt_type: data[base + 2],
        sender_timestamp: u32_at(data, base + 3),
        text: text_from(data, base + 7),
        snr_raw: None,
    }
}

/// Parse a channel message (v2 format)
pub fn parse_channel_msg(data: &[u8]) -> (r: Result<ChannelMessage, Error>)
    ensures
        data.len() < 8 ==> protocol_err(r, "Channel message too short"@),
        data.len() >= 8 ==> (r matches Ok(m) && channel_msg_layout(data@, 0, m) && m.snr_raw is None),
{
    if data.len() < 8 {
        return Err(Error::protocol("Channel message too short"));
    }
    Ok(channel_msg_at(data, 0))
}

/// Parse a channel message v3 format (with SNR)
pub fn parse_channel_msg_v3(data: &[u8]) -> (r: Result<ChannelMessage, Error>)
    ensures
        data.len() < 11 ==> protocol_err(r, "Channel message v3 too short"@),
        data.len() >= 11 ==> (r matches Ok(m) && channel_msg_layout(data@, 3, m) && m.snr_raw
            == Some(signed_byte(data@[0]) as i8)),
{
    if data.len() < 11 {
        return Err(Error::protocol("Channel message v3 too short"));
    }
    let snr_raw = byte_as_i8(data[0]);
    let mut msg = channel_msg_at(data, 3);
    msg.snr_raw = Some(snr_raw);
    Ok(msg)
}

/// The access-control entries of an ACL frame `d`: one per complete 7-byte
/// record (6-byte prefix, then the permissions byte); trailing bytes that
/// do not fill a record are ignored.
pub open spec fn acl_layout(d: Seq<u8>, entries: Seq<AclEntry>) -> bool {
    &&& 7 * entries.len() <= d.len() < 7 * (entries.len() + 1)
    &&& forall|k: int|
        0 <= k < entries.len() ==> (#[trigger] entries[k]).prefix@ == d.subrange(7 * k, 7 * k + 6)
            && entries[k].permissions == d[7 * k + 6]
}

/// Parse ACL entries (7 bytes each)
pub fn parse_acl(data: &[u8]) -> (entries: Vec<AclEntry>)
    ensures
        acl_layout(data@, entries@),
{
    let mut entries: Vec<AclEntry> = Vec::new();
    let mut offset: usize = 0;
    while data.len() - offset >= 7
        invariant
            offset <= data.len(),
            offset == 7 * entries@.len(),
            forall|k: int|
                0 <= k < entries@.len() ==> (#[trigger] entries@[k]).prefix@ == data@.subrange(
                    7 * k,
                    7 * k + 6,
                ) && entries@[k].permissions == data@[7 * k + 6],
        decreases data.len() - offset,
    {
        let prefix: [u8; 6] = bytes_at(data, offset);
        let permissions = data[offset + 6];
        entries.push(AclEntry { prefix, permissions });
        offset += 7;
    }
    entries
}

/// The neighbour table of a neighbours frame `d` whose public keys are `pk`
/// bytes long. Entries of `pk + 5` bytes (key, `secs_ago` i32, SNR byte)
/// follow the 4-byte header; as many are read as the header's count names
/// and as fit completely in the frame.
pub open spec fn neighbours_layout(d: Seq<u8>, pk: int, n: NeighboursData) -> bool {
    let es = pk + 5;
    let count = u16_le(d, 2);
    let len = n.neighbours@.len() as int;
    &&& n.total == u16_le(d, 0)
    &&& len <= count
    &&& 4 + len * es <= d.len()
    &&& len < count ==> 4 + (len + 1) * es > d.len()
    &&& forall|k: int|
        0 <= k < len ==> {
            let off = 4 + k * es;
            &&& (#[trigger] n.neighbours@[k]).pubkey@ == d.subrange(off, off + pk)
            &&& n.neighbours@[k].secs_ago == i32_le(d, off + pk)
            &&& n.neighbours@[k].snr_raw == signed_byte(d[off + pk + 4])
        }
}

/// Parse neighbours response
///
/// The end of each entry is `offset + pubkey_len + 5`; public-key lengths
/// for which the end of the first announced entry does not fit in a
/// `usize` are outside the parser's domain.
pub fn parse_neighbours(data: &[u8], pubkey_len: usize) -> (r: Result<NeighboursData, Error>)
    requires
        pubkey_len <= usize::MAX - 5,
        data.len() >= 4 && u16_le(data@, 2) > 0 ==> pubkey_len <= usize::MAX - 9,
    ensures
        data.len() < 4 ==> protocol_err(r, "Neighbours data too short"@),
        data.len() >= 4 ==> (r matches Ok(n) && neighbours_layout(data@, pubkey_len as int, n)),
{
    if data.len() < 4 {
        return Err(Error::protocol("Neighbours data too short"));
    }
    let total = u16_at(data, 0);
    let count = u16_at(data, 2);
    let entry_size = pubkey_len + 5;
    let mut neighbours: Vec<Neighbour> = Vec::new();
    let mut offset: usize = 4;
    let mut i: u16 = 0;
    while i < count
        invariant
            data.len() >= 4,
            count == u16_le(data@, 2),
            entry_size == pubkey_len + 5,
            i <= count,
            i == neighbours@.len(),
            offset == 4 + i * entry_size,
            offset <= data.len(),
            forall|k: int|
                0 <= k < i ==> {
                    let off = 4 + k * entry_size;
                    &&& (#[trigger] neighbours@[k]).pubkey@ == data@.subrange(
                        off,
                        off + pubkey_len,
                    )
                    &&& neighbours@[k].secs_ago == i32_le(data@, off + pubkey_len)
                    &&& neighbours@[k].snr_raw == signed_byte(data@[off + pubkey_len + 4])
                },
        ensures
            i <= count,
            i == neighbours@.len(),
            4 + i * entry_size <= data.len(),
            i < count ==> 4 + (i + 1) * entry_size > data.len(),
            forall|k: int|
                0 <= k < i ==> {
                    let off = 4 + k * entry_size;
                    &&& (#[trigger] neighbours@[k]).pubkey@ == data@.subrange(
                        off,
                        off + pubkey_len,
                    )
                    &&& neighbours@[k].secs_ago == i32_le(data@, off + pubkey_len)
                    &&& neighbours@[k].snr_raw == signed_byte(data@[off + pubkey_len + 4])
                },
        decreases count - i,
    {
        if entry_size > data.len() - offset {
            assert(4 + (i + 1) * entry_size == offset + entry_size) by (nonlinear_arith)
                requires
                    offset == 4 + i * entry_size,
            ;
            break;
        }
        let pubkey = copy_range(data, offset, offset + pubkey_len);
        let secs_ago = i32_at(data, offset + pubkey_len);
        let snr_raw = byte_as_i8(data[offset + pubkey_len + 4]);
        neighbours.push(Neighbour { pubkey, secs_ago, snr_raw });
        assert(4 + (i + 1) * entry_size == offset + entry_size) by (nonlinear_arith)
            requires
                offset == 4 + i * entry_size,
        ;
        offset += entry_size;
        i += 1;
    }
    Ok(NeighboursData { total, neighbours })
}

/// The min/max/average entries of an MMA frame `d`: one per complete
/// 14-byte record (channel, type, then min, max and average as i32);
/// trailing bytes that do not fill a record are ignored.
pub open spec fn mma_layout(d: Seq<u8>, entries: Seq<MmaEntry>) -> bool {
    &&& 14 * entries.len() <= d.len() < 14 * (entries.len() + 1)
    &&& forall|k: int|
        0 <= k < entries.len() ==> {
            &&& (#[trigger] entries[k]).channel == d[14 * k]
            &&& entries[k].entry_type == d[14 * k + 1]
            &&& entries[k].min == i32_le(d, 14 * k + 2)
            &&& entries[k].max == i32_le(d, 14 * k + 6)
            &&& entries[k].avg == i32_le(d, 14 * k + 10)
        }
}

/// Parse MMA (Min/Max/Avg) entries
///
/// Each entry is: channel (1) + type (1) + min (4) + max (4) + avg (4) = 14
/// bytes; the three values are kept as the raw i32 the frame carries.
pub fn parse_mma(data: &[u8]) -> (entries: Vec<MmaEntry>)
    ensures
        mma_layout(data@, entries@),
{
    let mut entries: Vec<MmaEntry> = Vec::new();
    let mut offset: usize = 0;
    while data.len() - offset >= 14
        invariant
            offset <= data.len(),
            offset == 14 * entries@.len(),
            forall|k: int|
                0 <= k < entries@.len() ==> {
                    &&& (#[trigger] entries@[k]).channel == data@[14 * k]
                    &&& entries@[k].entry_type == data@[14 * k + 1]
                    &&& entries@[k].min == i32_le(data@, 14 * k + 2)
                    &&& entries@[k].max == i32_le(data@, 14 * k + 6)
                    &&& entries@[k].avg == i32_le(data@, 14 * k + 10)
                },
        decreases data.len() - offset,
    {
        entries.push(
            MmaEntry {
                channel: data[offset],
                entry_type: data[offset + 1],
                min: i32_at(data, offset + 2),
                max: i32_at(data, offset + 6),
                avg: i32_at(data, offset + 10),
            },
        );
        offset += 14;
    }
    entries
}

/// Bit position of the payload type field within a packet header byte (see
/// `parse_mesh_packet_header`); route type occupies bits 0-1 below it.
pub const PAYLOAD_TYPE_SHIFT: u8 = 2;

/// Bit position of the payload format version field within a packet header
/// byte.
pub const PAYLOAD_VERSION_SHIFT: u8 = 6;

/// Whether a packet whose header byte is `b` carries a transport code.
pub open spec fn has_transport_code(b: u8) -> bool {
    route_type_of(b).spec_has_transport_code()
}

/// Offset of the path byte in a mesh packet that starts with `d`: after the
/// header byte and, for transport routes, the 4-byte transport code.
pub open spec fn path_byte_offset(d: Seq<u8>) -> int {
    if has_transport_code(d[0]) {
        5
    } else {
        1
    }
}

/// Bytes per hop that path byte `pb` declares (bits 6-7, plus one).
pub open spec fn path_hash_size_of(pb: u8) -> int {
    pb / 64 + 1
}

/// Hop count that path byte `pb` declares (bits 0-5).
pub open spec fn path_len_of(pb: u8) -> int {
    (pb % 64) as int
}

/// Offset just past the path of a mesh packet that starts with `d`.
pub open spec fn mesh_path_end(d: Seq<u8>) -> int {
    let pb = d[path_byte_offset(d)];
    path_byte_offset(d) + 1 + path_len_of(pb) * path_hash_size_of(pb)
}

/// The header of a mesh packet `d`, and what follows it.
pub open spec fn mesh_header_layout(d: Seq<u8>, h: MeshPacketHeader, rest: Seq<u8>) -> bool {
    let at = path_byte_offset(d);
    let pb = d[at];
    &&& h.route_type == route_type_of(d[0])
    &&& h.payload_type == payload_type_of((d[0] / 4) as u8)
    &&& h.payload_version == d[0] / 64
    &&& if has_transport_code(d[0]) {
        h.transport_code matches Some(c) && c@ == d.subrange(1, 5)
    } else {
        h.transport_code is None
    }
    &&& h.path_len == path_len_of(pb)
    &&& h.path_hash_size == path_hash_size_of(pb)
    &&& h.path@ == d.subrange(at + 1, mesh_path_end(d))
    &&& rest == d.subrange(mesh_path_end(d), d.len() as int)
}

/// Parse the MeshCore over-the-air packet header (route type, payload type
/// and path) from the start of a buffer, as embedded in RAW_DATA/LOG_DATA
/// captures.
///
/// Returns the decoded header together with the remaining, unparsed inner
/// packet payload, or an error if `data` is too short to contain a header
/// and a path byte.
pub fn parse_mesh_packet_header(data: &[u8]) -> (r: Result<(MeshPacketHeader, &[u8]), Error>)
    ensures
        data.len() == 0 ==> protocol_err(r, "MeshPacketHeader payload too short"@),
        data.len() > 0 && has_transport_code(data@[0]) && data.len() < 5 ==> protocol_err(
            r,
            "Buffer too short for "@ + decimal(4) + " bytes"@,
        ),
        data.len() > 0 && (has_transport_code(data@[0]) ==> data.len() >= 5) && data.len()
            <= path_byte_offset(data@) ==> protocol_err(r, "MeshPacketHeader missing path byte"@),
        data.len() > path_byte_offset(data@) && mesh_path_end(data@) > data.len() ==> protocol_err(
            r,
            "MeshPacketHeader path truncated"@,
        ),
        data.len() > path_byte_offset(data@) && mesh_path_end(data@) <= data.len() ==> (r matches Ok(
            (h, rest),
        ) && mesh_header_layout(data@, h, rest@)),
{
    if data.len() == 0 {
        return Err(Error::protocol("MeshPacketHeader payload too short"));
    }
    let header_byte = data[0];
    let route_type = RouteType::from(header_byte);
    let payload_type = PayloadType::from(header_byte / 4);
    let payload_version = header_byte / 64;
    let mut offset: usize = 1;
    let transport_code = if route_type.has_transport_code() {
        let code: [u8; 4] = match read_bytes(data, offset) {
            Ok(c) => c,
            Err(e) => return Err(e),
        };
        offset = 5;
        Some(code)
    } else {
        None
    };
    if offset >= data.len() {
        return Err(Error::protocol("MeshPacketHeader missing path byte"));
    }
    let path_byte = data[offset];
    offset += 1;
    let path_hash_size = path_byte / 64 + 1;
    let path_len = path_byte % 64;
    assert(path_len as usize * path_hash_size as usize <= 252) by (nonlinear_arith)
        requires
            path_len < 64,
            path_hash_size <= 4,
    ;
    let path_bytes_len = path_len as usize * path_hash_size as usize;
    if path_bytes_len > data.len() - offset {
        return Err(Error::protocol("MeshPacketHeader path truncated"));
    }
    let path_end = offset + path_bytes_len;
    let path = copy_range(data, offset, path_end);
    let header = MeshPacketHeader {
        route_type,
        payload_type,
        payload_version,
        transport_code,
        path_len,
        path_hash_size,
        path,
    };
    Ok((header, &data[path_end..data.len()]))
}

/// Length of the advertiser's public key in a raw ADVERT payload.
pub const PUBLIC_KEY_LEN: usize = 32;

/// Offset of the timestamp in a raw ADVERT payload.
pub const TIMESTAMP_OFFSET: usize = 32;

/// Offset of the signature in a raw ADVERT payload.
pub const SIGNATURE_OFFSET: usize = 36;

/// Offset of the flags byte in a raw ADVERT payload.
pub const FLAGS_OFFSET: usize = 100;

/// Minimum length of a raw ADVERT payload (public key + timestamp +
/// signature + flags), before any of the optional trailing fields.
pub const MIN_LEN: usize = 101;

/// Advertiser type bits of the flags byte (see `Contact::contact_type`).
pub const FLAG_ADV_TYPE_MASK: u8 = 0x0F;

/// Flag bit: 8 bytes of location follow (lat, lon as i32 LE).
pub const FLAG_HAS_LOCATION: u8 = 0x10;

/// Flag bit: a 2-byte feature block follows, not currently decoded.
pub const FLAG_HAS_FEATURE1: u8 = 0x20;

/// Flag bit: a second 2-byte feature block follows, not currently decoded.
pub const FLAG_HAS_FEATURE2: u8 = 0x40;

/// Flag bit: the remaining bytes are the UTF-8 name.
pub const FLAG_HAS_NAME: u8 = 0x80;

/// Offset of the name in a raw ADVERT payload with flags byte `flags`: past
/// the location and the feature blocks that the flags announce.
pub open spec fn raw_advert_name_offset(flags: u8) -> int {
    MIN_LEN + (if flags & FLAG_HAS_LOCATION != 0 {
        8int
    } else {
        0
    }) + (if flags & FLAG_HAS_FEATURE1 != 0 {
        2int
    } else {
        0
    }) + (if flags & FLAG_HAS_FEATURE2 != 0 {
        2int
    } else {
        0
    })
}

/// The fields of a raw ADVERT payload `d`.
pub open spec fn raw_advert_layout(d: Seq<u8>, a: RawAdvertisement) -> bool {
    let flags = d[FLAGS_OFFSET as int];
    let name_at = raw_advert_name_offset(flags);
    &&& a.public_key@ == d.subrange(0, 32)
    &&& a.timestamp == u32_le(d, 32)
    &&& a.signature@ == d.subrange(36, 100)
    &&& a.adv_type == flags & FLAG_ADV_TYPE_MASK
    &&& if flags & FLAG_HAS_LOCATION != 0 {
        a.lat == Some(i32_le(d, 101) as i32) && a.lon == Some(i32_le(d, 105) as i32)
    } else {
        a.lat is None && a.lon is None
    }
    &&& if flags & FLAG_HAS_NAME != 0 && d.len() > name_at {
        holds_text(a.name, read_string_spec(d, name_at, d.len() - name_at))
    } else {
        a.name is None
    }
}

/// Parse a raw ADVERT payload (public key, timestamp, signature, flags and
/// optional location/name), as carried by a [`PayloadType::Advert`] packet.
///
/// A declared location that does not fit means the capture is truncated;
/// it is an error rather than a misread name.
pub fn parse_raw_advertisement(data: &[u8]) -> (r: Result<RawAdvertisement, Error>)
    ensures
        data.len() < MIN_LEN ==> protocol_err(r, "RawAdvertisement payload too short"@),
        data.len() >= MIN_LEN && data@[FLAGS_OFFSET as int] & FLAG_HAS_LOCATION != 0 && data.len()
            < MIN_LEN + 8 ==> protocol_err(r, "Buffer too short for i32"@),
        data.len() >= MIN_LEN && (data@[FLAGS_OFFSET as int] & FLAG_HAS_LOCATION != 0 ==> data.len()
            >= MIN_LEN + 8) ==> (r matches Ok(a) && raw_advert_layout(data@, a)),
{
    if data.len() < MIN_LEN {
        return Err(Error::protocol("RawAdvertisement payload too short"));
    }
    let public_key: [u8; 32] = bytes_at(data, 0);
    let timestamp = u32_at(data, TIMESTAMP_OFFSET);
    let signature: [u8; 64] = bytes_at(data, SIGNATURE_OFFSET);
    let flags = data[FLAGS_OFFSET];
    let adv_type = flags & FLAG_ADV_TYPE_MASK;
    let mut offset: usize = MIN_LEN;
    let (lat, lon) = if flags & FLAG_HAS_LOCATION != 0 {
        let lat = match read_i32_le(data, offset) {
            Ok(v) => v,
            Err(e) => return Err(e),
        };
        let lon = match read_i32_le(data, offset + 4) {
            Ok(v) => v,
            Err(e) => return Err(e),
        };
        offset = offset + 8;
        (Some(lat), Some(lon))
    } else {
        (None, None)
    };
    if flags & FLAG_HAS_FEATURE1 != 0 {
        offset = offset + 2;
    }
    if flags & FLAG_HAS_FEATURE2 != 0 {
        offset = offset + 2;
    }
    let name = if flags & FLAG_HAS_NAME != 0 && data.len() > offset {
        Some(read_string(data, offset, data.len() - offset))
    } else {
        None
    };
    Ok(RawAdvertisement { public_key, timestamp, signature, adv_type, lat, lon, name })
}

/// Length of the request tag echoed back in an advert response.
pub const ADVERT_RESP_TAG_LEN: usize = 4;
/// Length of the advertiser's public key in an advert response.
pub const ADVERT_RESP_PUBKEY_LEN: usize = 32;
/// Length of the advertisement type field.
pub const ADVERT_RESP_ADV_TYPE_LEN: usize = 1;
/// Fixed width of the node name field (padded / null-terminated).
pub const ADVERT_RESP_NODE_NAME_LEN: usize = 32;
/// Length of the timestamp field (u32 LE).
pub const ADVERT_RESP_TIMESTAMP_LEN: usize = 4;
/// Length of the flags field.
pub const ADVERT_RESP_FLAGS_LEN: usize = 1;
/// Offset of the request tag.
pub const ADVERT_RESP_TAG_OFFSET: usize = 0;
/// Offset of the public key.
pub const ADVERT_RESP_PUBKEY_OFFSET: usize = 4;
/// Offset of the advertisement type.
pub const ADVERT_RESP_ADV_TYPE_OFFSET: usize = 36;
/// Offset of the node name.
pub const ADVERT_RESP_NODE_NAME_OFFSET: usize = 37;
/// Offset of the timestamp.
pub const ADVERT_RESP_TIMESTAMP_OFFSET: usize = 69;
/// Offset of the flags byte.
pub const ADVERT_RESP_FLAGS_OFFSET: usize = 73;
/// Minimum payload length: tag + pubkey + adv_type + name + timestamp + flags.
pub const ADVERT_RESP_MIN_LEN: usize = 74;
/// Offset of the optional latitude field (i32 LE), present when the
/// payload extends beyond the flags byte.
pub const ADVERT_RESP_LAT_OFFSET: usize = 74;
/// Length of one coordinate field (i32 LE).
pub const ADVERT_RESP_COORD_LEN: usize = 4;
/// Offset of the optional longitude field (i32 LE).
pub const ADVERT_RESP_LON_OFFSET: usize = 78;
/// Minimum payload length to include both lat and lon.
pub const ADVERT_RESP_LATLON_MIN_LEN: usize = 82;
/// Offset of the optional node description field, present when the
/// payload extends beyond lat/lon.
pub const ADVERT_RESP_NODE_DESC_OFFSET: usize = 82;
/// Fixed width of the optional node description field.
pub const ADVERT_RESP_NODE_DESC_LEN: usize = 32;

/// The fields of an advert-response payload `d`.
pub open spec fn advert_response_layout(d: Seq<u8>, a: AdvertResponseData) -> bool {
    &&& a.tag@ == d.subrange(0, 4)
    &&& a.pubkey@ == d.subrange(4, 36)
    &&& a.adv_type == d[36]
    &&& a.node_name@ == read_string_spec(d, 37, 32)
    &&& a.timestamp == u32_le(d, 69)
    &&& a.flags == d[73]
    &&& if d.len() >= ADVERT_RESP_LATLON_MIN_LEN {
        &&& a.lat == Some(i32_le(d, 74) as i32)
        &&& a.lon == Some(i32_le(d, 78) as i32)
        &&& if d.len() > ADVERT_RESP_NODE_DESC_OFFSET {
            holds_text(a.node_desc, read_string_spec(d, 82, 32))
        } else {
            a.node_desc is None
        }
    } else {
        a.lat is None && a.lon is None && a.node_desc is None
    }
}

/// Parse an [`AdvertResponseData`] from a raw `PacketType::AdvertResponse`
/// payload.
///
/// Returns an error if the payload is too short to contain the mandatory
/// fields (tag + pubkey + adv_type + node_name + timestamp + flags = 74
/// bytes).
pub fn parse_advert_response(payload: &[u8]) -> (r: Result<AdvertResponseData, Error>)
    ensures
        payload.len() < ADVERT_RESP_MIN_LEN ==> protocol_err(r, "AdvertResponse payload too short"@),
        payload.len() >= ADVERT_RESP_MIN_LEN ==> (r matches Ok(a) && advert_response_layout(
            payload@,
            a,
        )),
{
    if payload.len() < ADVERT_RESP_MIN_LEN {
        return Err(Error::protocol("AdvertResponse payload too short"));
    }
    let tag: [u8; 4] = bytes_at(payload, ADVERT_RESP_TAG_OFFSET);
    let pubkey: [u8; 32] = bytes_at(payload, ADVERT_RESP_PUBKEY_OFFSET);
    let adv_type = payload[ADVERT_RESP_ADV_TYPE_OFFSET];
    let node_name = read_string(payload, ADVERT_RESP_NODE_NAME_OFFSET, ADVERT_RESP_NODE_NAME_LEN);
    let timestamp = u32_at(payload, ADVERT_RESP_TIMESTAMP_OFFSET);
    let flags = payload[ADVERT_RESP_FLAGS_OFFSET];
    let (lat, lon, node_desc) = if payload.len() >= ADVERT_RESP_LATLON_MIN_LEN {
        let lat = Some(i32_at(payload, ADVERT_RESP_LAT_OFFSET));
        let lon = Some(i32_at(payload, ADVERT_RESP_LON_OFFSET));
        let desc = if payload.len() > ADVERT_RESP_NODE_DESC_OFFSET {
            Some(read_string(payload, ADVERT_RESP_NODE_DESC_OFFSET, ADVERT_RESP_NODE_DESC_LEN))
        } else {
            None
        };
        (lat, lon, desc)
    } else {
        (None, None, None)
    };
    Ok(AdvertResponseData { tag, pubkey, adv_type, node_name, timestamp, flags, lat, lon, node_desc })
}

/// Minimum length for a Battery payload (just the voltage field).
pub const BATTERY_MIN_LEN: usize = 2;
/// Minimum length to include optional storage fields (used_kb + total_kb).
pub const BATTERY_STORAGE_MIN_LEN: usize = 10;

/// Parse a [`BatteryInfo`] from a `PacketType::Battery` payload.
///
/// Returns an error if the payload is too short to contain the voltage
/// field; the storage fields are read only when both are present.
pub fn parse_battery(payload: &[u8]) -> (r: Result<BatteryInfo, Error>)
    ensures
        payload.len() < BATTERY_MIN_LEN ==> protocol_err(r, "Battery payload too short"@),
        payload.len() >= BATTERY_MIN_LEN ==> (r matches Ok(b) && b.battery_mv == u16_le(payload@, 0)
            && if payload.len() >= BATTERY_STORAGE_MIN_LEN {
            b.used_kb == Some(u32_le(payload@, 2) as u32) && b.total_kb == Some(
                u32_le(payload@, 6) as u32,
            )
        } else {
            b.used_kb is None && b.total_kb is None
        }),
{
    if payload.len() < BATTERY_MIN_LEN {
        return Err(Error::protocol("Battery payload too short"));
    }
    let battery_mv = u16_at(payload, 0);
    let (used_kb, total_kb) = if payload.len() >= BATTERY_STORAGE_MIN_LEN {
        (Some(u32_at(payload, 2)), Some(u32_at(payload, 6)))
    } else {
        (None, None)
    };
    Ok(BatteryInfo { battery_mv, used_kb, total_kb })
}

/// Minimum length for a MsgSent payload.
pub const MSG_SENT_MIN_LEN: usize = 9;

/// Parse a [`MsgSentInfo`] from a `PacketType::MsgSent` payload.
///
/// Returns an error if the payload is too short.
pub fn parse_msg_sent(payload: &[u8]) -> (r: Result<MsgSentInfo, Error>)
    ensures
        payload.len() < MSG_SENT_MIN_LEN ==> protocol_err(r, "MsgSent payload too short"@),
        payload.len() >= MSG_SENT_MIN_LEN ==> (r matches Ok(m) && m.message_type == payload@[0]
            && m.expected_ack@ == payload@.subrange(1, 5) && m.suggested_timeout == u32_le(
            payload@,
            5,
        )),
{
    if payload.len() < MSG_SENT_MIN_LEN {
        return Err(Error::protocol("MsgSent payload too short"));
    }
    Ok(
        MsgSentInfo {
            message_type: payload[0],
            expected_ack: bytes_at(payload, 1),
            suggested_timeout: u32_at(payload, 5),
        },
    )
}

/// Parse a [`ChannelInfoData`] from a `PacketType::ChannelInfo` payload.
///
/// The firmware always sends `CHANNEL_INFO_LEN` bytes:
/// 1 (idx) + CHANNEL_NAME_LEN (name) + CHANNEL_SECRET_LEN (secret).
///
/// Returns an error if the payload is too short.
pub fn parse_channel_info(payload: &[u8]) -> (r: Result<ChannelInfoData, Error>)
    ensures
        payload.len() < 1 + CHANNEL_NAME_LEN + CHANNEL_SECRET_LEN ==> protocol_err(
            r,
            "ChannelInfo payload too short"@,
        ),
        payload.len() >= 1 + CHANNEL_NAME_LEN + CHANNEL_SECRET_LEN ==> (r matches Ok(c)
            && c.channel_idx == payload@[0] && c.name@ == read_string_spec(
            payload@,
            1,
            CHANNEL_NAME_LEN as int,
        ) && c.secret@ == payload@.subrange(33, 49)),
{
    if payload.len() < 1 + CHANNEL_NAME_LEN + CHANNEL_SECRET_LEN {
        return Err(Error::protocol("ChannelInfo payload too short"));
    }
    let channel_idx = payload[0];
    let name = read_string(payload, 1, CHANNEL_NAME_LEN);
    let secret: [u8; CHANNEL_SECRET_LEN] = bytes_at(payload, 1 + CHANNEL_NAME_LEN);
    Ok(ChannelInfoData { channel_idx, name, secret })
}

/// The category a stats frame's first byte names: 0 core, 1 radio,
/// 2 packets; other values name none.
pub open spec fn stats_category_of(b: u8) -> Option<StatsCategory> {
    if b == 0 {
        Some(StatsCategory::Core)
    } else if b == 1 {
        Some(StatsCategory::Radio)
    } else if b == 2 {
        Some(StatsCategory::Packets)
    } else {
        None
    }
}

/// Parse a [`StatsData`] (with its [`StatsCategory`]) from a
/// `PacketType::Stats` payload.
///
/// Returns an error if the payload is empty or names an unknown category.
pub fn parse_stats(payload: &[u8]) -> (r: Result<StatsData, Error>)
    ensures
        payload.len() == 0 ==> protocol_err(r, "Stats payload too short"@),
        payload.len() > 0 && stats_category_of(payload@[0]) is None ==> protocol_err(
            r,
            "Unknown stats category"@,
        ),
        payload.len() > 0 && stats_category_of(payload@[0]) is Some ==> (r matches Ok(st)
            && Some(st.category) == stats_category_of(payload@[0]) && st.raw@ == payload@.subrange(
            1,
            payload.len() as int,
        )),
{
    if payload.len() == 0 {
        return Err(Error::protocol("Stats payload too short"));
    }
    let category = if payload[0] == 0 {
        StatsCategory::Core
    } else if payload[0] == 1 {
        StatsCategory::Radio
    } else if payload[0] == 2 {
        StatsCategory::Packets
    } else {
        return Err(Error::protocol("Unknown stats category"));
    };
    Ok(StatsData { category, raw: copy_range(payload, 1, payload.len()) })
}

/// Length of a [`StatsCategory::Core`] payload (`raw`, i.e. after the
/// stats-type byte): `battery_mv:u16, uptime_secs:u32, errors:u16,
/// queue_len:u8`.
pub const CORE_STATS_LEN: usize = 9;

/// Parses a [`StatsCategory::Core`] payload's `raw` bytes into
/// [`CoreStatsData`].
pub fn parse_core_stats(data: &[u8]) -> (r: Result<CoreStatsData, Error>)
    ensures
        data.len() < CORE_STATS_LEN ==> protocol_err(r, "Core stats payload too short"@),
        data.len() >= CORE_STATS_LEN ==> (r matches Ok(c) && c.battery_mv == u16_le(data@, 0)
            && c.uptime_secs == u32_le(data@, 2) && c.errors == u16_le(data@, 6) && c.queue_len
            == data@[8]),
{
    if data.len() < CORE_STATS_LEN {
        return Err(Error::protocol("Core stats payload too short"));
    }
    Ok(
        CoreStatsData {
            battery_mv: u16_at(data, 0),
            uptime_secs: u32_at(data, 2),
            errors: u16_at(data, 6),
            queue_len: data[8],
        },
    )
}

/// Length of a [`StatsCategory::Radio`] payload (`raw`): `noise_floor:i16,
/// last_rssi:i8, last_snr_scaled:i8, tx_air_secs:u32, rx_air_secs:u32`.
pub const RADIO_STATS_LEN: usize = 12;

/// Parses a [`StatsCategory::Radio`] payload's `raw` bytes into
/// [`RadioStatsData`]. `last_snr_scaled` keeps the firmware's ×4 wire
/// encoding (the SNR in dB is `last_snr_scaled / 4`).
pub fn parse_radio_stats(data: &[u8]) -> (r: Result<RadioStatsData, Error>)
    ensures
        data.len() < RADIO_STATS_LEN ==> protocol_err(r, "Radio stats payload too short"@),
        data.len() >= RADIO_STATS_LEN ==> (r matches Ok(s) && s.noise_floor == i16_le(data@, 0)
            && s.last_rssi == signed_byte(data@[2]) && s.last_snr_scaled == signed_byte(data@[3])
            && s.tx_air_secs == u32_le(data@, 4) && s.rx_air_secs == u32_le(data@, 8)),
{
    if data.len() < RADIO_STATS_LEN {
        return Err(Error::protocol("Radio stats payload too short"));
    }
    Ok(
        RadioStatsData {
            noise_floor: i16_at(data, 0),
            last_rssi: byte_as_i8(data[2]),
            last_snr_scaled: byte_as_i8(data[3]),
            tx_air_secs: u32_at(data, 4),
            rx_air_secs: u32_at(data, 8),
        },
    )
}

/// Length of a [`StatsCategory::Packets`] payload (`raw`) without the
/// optional trailing `recv_errors:u32` (older firmware).
pub const PACKET_STATS_LEN: usize = 24;
/// Length of a [`StatsCategory::Packets`] payload (`raw`) including
/// `recv_errors:u32` (newer firmware).
pub const PACKET_STATS_LEN_WITH_ERRORS: usize = 28;

/// Parses a [`StatsCategory::Packets`] payload's `raw` bytes into
/// [`PacketStatsData`]. Accepts either the legacy 24-byte frame
/// (`recv_errors` becomes `None`) or the newer 28-byte one.
pub fn parse_packet_stats(data: &[u8]) -> (r: Result<PacketStatsData, Error>)
    ensures
        data.len() < PACKET_STATS_LEN ==> protocol_err(r, "Packet stats payload too short"@),
        data.len() >= PACKET_STATS_LEN ==> (r matches Ok(s) && s.recv == u32_le(data@, 0) && s.sent
            == u32_le(data@, 4) && s.flood_tx == u32_le(data@, 8) && s.direct_tx == u32_le(data@, 12)
            && s.flood_rx == u32_le(data@, 16) && s.direct_rx == u32_le(data@, 20) && s.recv_errors
            == (if data.len() >= PACKET_STATS_LEN_WITH_ERRORS {
            Some(u32_le(data@, 24) as u32)
        } else {
            None
        })),
{
    if data.len() < PACKET_STATS_LEN {
        return Err(Error::protocol("Packet stats payload too short"));
    }
    let recv_errors = if data.len() >= PACKET_STATS_LEN_WITH_ERRORS {
        Some(u32_at(data, 24))
    } else {
        None
    };
    Ok(
        PacketStatsData {
            recv: u32_at(data, 0),
            sent: u32_at(data, 4),
            flood_tx: u32_at(data, 8),
            direct_tx: u32_at(data, 12),
            flood_rx: u32_at(data, 16),
            direct_rx: u32_at(data, 20),
            recv_errors,
        },
    )
}

/// Minimum advertisement payload length (prefix + at least some name).
pub const ADVERT_MIN_LEN: usize = 14;

/// Parse an [`AdvertisementData`] from a `PacketType::Advertisement` payload.
///
/// Returns an error if the payload is too short to contain the prefix and
/// at least part of the name; a coordinate that does not fit reads as 0.
pub fn parse_advertisement(payload: &[u8]) -> (r: Result<AdvertisementData, Error>)
    ensures
        payload.len() < ADVERT_MIN_LEN ==> protocol_err(r, "Advertisement payload too short"@),
        payload.len() >= ADVERT_MIN_LEN ==> (r matches Ok(a) && a.prefix@ == payload@.subrange(0, 6)
            && a.name@ == read_string_spec(payload@, 6, 32) && a.lat == (if payload.len() >= 42 {
            i32_le(payload@, 38)
        } else {
            0
        }) && a.lon == (if payload.len() >= 46 {
            i32_le(payload@, 42)
        } else {
            0
        })),
{
    if payload.len() < ADVERT_MIN_LEN {
        return Err(Error::protocol("Advertisement payload too short"));
    }
    let prefix: [u8; 6] = bytes_at(payload, 0);
    let name = read_string(payload, 6, 32);
    let lat = if payload.len() >= 42 {
        i32_at(payload, 38)
    } else {
        0
    };
    let lon = if payload.len() >= 46 {
        i32_at(payload, 42)
    } else {
        0
    };
    Ok(AdvertisementData { prefix, name, lat, lon })
}

/// Minimum length for a PathUpdate payload (prefix + path_len byte).
pub const PATH_UPDATE_MIN_LEN: usize = 7;

/// Parse a [`PathUpdateData`] from a `PacketType::PathUpdate` payload.
///
/// Returns an error if the payload is too short.
pub fn parse_path_update(payload: &[u8]) -> (r: Result<PathUpdateData, Error>)
    ensures
        payload.len() < PATH_UPDATE_MIN_LEN ==> protocol_err(r, "PathUpdate payload too short"@),
        payload.len() >= PATH_UPDATE_MIN_LEN ==> (r matches Ok(u) && u.prefix@ == payload@.subrange(
            0,
            6,
        ) && u.path_len == signed_byte(payload@[6]) && u.path@ == payload@.subrange(
            7,
            payload.len() as int,
        )),
{
    if payload.len() < PATH_UPDATE_MIN_LEN {
        return Err(Error::protocol("PathUpdate payload too short"));
    }
    let prefix: [u8; 6] = bytes_at(payload, 0);
    let path_len = byte_as_i8(payload[6]);
    let path = if payload.len() > 7 {
        copy_range(payload, 7, payload.len())
    } else {
        assert(payload@.subrange(7, payload.len() as int) =~= Seq::<u8>::empty());
        Vec::new()
    };
    Ok(PathUpdateData { prefix, path_len, path })
}

/// The hops of a trace payload `d`: one per complete 7-byte record (6-byte
/// prefix, then the SNR byte); trailing bytes are ignored.
pub open spec fn trace_layout(d: Seq<u8>, hops: Seq<TraceHop>) -> bool {
    &&& 7 * hops.len() <= d.len() < 7 * (hops.len() + 1)
    &&& forall|k: int|
        0 <= k < hops.len() ==> (#[trigger] hops[k]).prefix@ == d.subrange(7 * k, 7 * k + 6)
            && hops[k].snr_raw == signed_byte(d[7 * k + 6])
}

/// Parse a [`TraceInfo`] from a `PacketType::TraceData` payload.
///
/// Returns a (possibly empty) list of trace hops.
pub fn parse_trace_data(payload: &[u8]) -> (t: TraceInfo)
    ensures
        trace_layout(payload@, t.hops@),
{
    let mut hops: Vec<TraceHop> = Vec::new();
    let mut offset: usize = 0;
    while payload.len() - offset >= 7
        invariant
            offset <= payload.len(),
            offset == 7 * hops@.len(),
            forall|k: int|
                0 <= k < hops@.len() ==> (#[trigger] hops@[k]).prefix@ == payload@.subrange(
                    7 * k,
                    7 * k + 6,
                ) && hops@[k].snr_raw == signed_byte(payload@[7 * k + 6]),
        decreases payload.len() - offset,
    {
        let prefix: [u8; 6] = bytes_at(payload, offset);
        let snr_raw = byte_as_i8(payload[offset + 6]);
        hops.push(TraceHop { prefix, snr_raw });
        offset += 7;
    }
    TraceInfo { hops }
}

/// The entries of a discover response `d`: one per 64-byte record (32-byte
/// key, 32-byte name) whose key and first six name bytes are present; the
/// last record may be cut short.
pub open spec fn discover_layout(d: Seq<u8>, entries: Seq<DiscoverEntry>) -> bool {
    &&& entries.len() == 0 || 64 * (entries.len() - 1) + 38 <= d.len()
    &&& 64 * entries.len() + 38 > d.len()
    &&& forall|k: int|
        0 <= k < entries.len() ==> (#[trigger] entries[k]).pubkey@ == d.subrange(
            64 * k,
            64 * k + 32,
        ) && entries[k].name@ == read_string_spec(d, 64 * k + 32, 32)
}

/// Parse a list of [`DiscoverEntry`] from a
/// `ControlType::NodeDiscoverResp` payload.
///
/// The `payload` should start *after* the control-type byte (i.e. at the
/// first entry). Like every slice, it holds at most `isize::MAX` bytes.
pub fn parse_discover_response(payload: &[u8]) -> (entries: Vec<DiscoverEntry>)
    requires
        payload.len() <= isize::MAX,
    ensures
        discover_layout(payload@, entries@),
{
    let mut entries: Vec<DiscoverEntry> = Vec::new();
    let mut offset: usize = 0;
    while offset <= payload.len() && payload.len() - offset >= 38
        invariant
            payload.len() <= isize::MAX,
            offset == 64 * entries@.len(),
            entries@.len() == 0 || 64 * (entries@.len() - 1) + 38 <= payload.len(),
            forall|k: int|
                0 <= k < entries@.len() ==> (#[trigger] entries@[k]).pubkey@ == payload@.subrange(
                    64 * k,
                    64 * k + 32,
                ) && entries@[k].name@ == read_string_spec(payload@, 64 * k + 32, 32),
        decreases payload.len() + 64 - offset,
    {
        let pubkey = copy_range(payload, offset, offset + 32);
        let name = read_string(payload, offset + 32, 32);
        entries.push(DiscoverEntry { pubkey, name });
        offset += 64;
    }
    entries
}

/// Minimum length for a CurrentTime payload.
pub const CURRENT_TIME_MIN_LEN: usize = 4;

/// Parse a Unix timestamp from a `PacketType::CurrentTime` payload.
pub fn parse_current_time(payload: &[u8]) -> (r: Result<u32, Error>)
    ensures
        payload.len() < CURRENT_TIME_MIN_LEN ==> protocol_err(r, "CurrentTime payload too short"@),
        payload.len() >= CURRENT_TIME_MIN_LEN ==> r == Ok::<u32, Error>(u32_le(payload@, 0) as u32),
{
    if payload.len() < CURRENT_TIME_MIN_LEN {
        return Err(Error::protocol("CurrentTime payload too short"));
    }
    Ok(u32_at(payload, 0))
}

/// Length of a private key.
pub const PRIVATE_KEY_LEN: usize = 64;

/// Parse a 64-byte private key from a `PacketType::PrivateKey` payload.
pub fn parse_private_key(payload: &[u8]) -> (r: Result<[u8; 64], Error>)
    ensures
        payload.len() < PRIVATE_KEY_LEN ==> protocol_err(r, "PrivateKey payload too short"@),
        payload.len() >= PRIVATE_KEY_LEN ==> (r matches Ok(k) && k@ == payload@.subrange(0, 64)),
{
    if payload.len() < PRIVATE_KEY_LEN {
        return Err(Error::protocol("PrivateKey payload too short"));
    }
    Ok(bytes_at(payload, 0))
}

/// Minimum length for a SignStart payload.
pub const SIGN_START_MIN_LEN: usize = 4;

/// Parse the `max_length` from a `PacketType::SignStart` payload.
pub fn parse_sign_start(payload: &[u8]) -> (r: Result<u32, Error>)
    ensures
        payload.len() < SIGN_START_MIN_LEN ==> protocol_err(r, "SignStart payload too short"@),
        payload.len() >= SIGN_START_MIN_LEN ==> r == Ok::<u32, Error>(u32_le(payload@, 0) as u32),
{
    if payload.len() < SIGN_START_MIN_LEN {
        return Err(Error::protocol("SignStart payload too short"));
    }
    Ok(u32_at(payload, 0))
}

/// Minimum length for an Ack payload.
pub const ACK_MIN_LEN: usize = 4;

/// Parse a 4-byte tag from a `PacketType::Ack` payload.
pub fn parse_ack(payload: &[u8]) -> (r: Result<[u8; 4], Error>)
    ensures
        payload.len() < ACK_MIN_LEN ==> protocol_err(r, "Ack payload too short"@),
        payload.len() >= ACK_MIN_LEN ==> (r matches Ok(t) && t@ == payload@.subrange(0, 4)),
{
    if payload.len() < ACK_MIN_LEN {
        return Err(Error::protocol("Ack payload too short"));
    }
    Ok(bytes_at(payload, 0))
}

/// Minimum length for a ContactEnd payload to contain a
/// `last_modification_timestamp`.
pub const CONTACT_END_TIMESTAMP_LEN: usize = 4;

/// Parse the optional `last_modification_timestamp` from a
/// `PacketType::ContactEnd` payload.
///
/// Returns `Ok(None)` if the payload is too short to contain the
/// timestamp (the timestamp is optional in the protocol).
pub fn parse_contact_end_timestamp(payload: &[u8]) -> (r: Result<Option<u32>, Error>)
    ensures
        r == Ok::<Option<u32>, Error>(
            if payload.len() >= CONTACT_END_TIMESTAMP_LEN {
                Some(u32_le(payload@, 0) as u32)
            } else {
                None
            },
        ),
{
    if payload.len() >= CONTACT_END_TIMESTAMP_LEN {
        Ok(Some(u32_at(payload, 0)))
    } else {
        Ok(None)
    }
}

/// Length of the sender prefix in a StatusResponse payload.
pub const STATUS_RESP_PREFIX_LEN: usize = 6;
/// Minimum length for a StatusResponse payload (prefix + status data).
pub const STATUS_RESP_MIN_LEN: usize = 58;

/// Parsed status response: sender prefix and status data.
#[derive(Debug, PartialEq, Eq)]
pub struct StatusResponseFrame {
    /// 6-byte public key prefix of the sender.
    pub sender_prefix: [u8; 6],
    /// Parsed status data.
    pub status: StatusData,
}

/// Parse a [`StatusResponseFrame`] from a `PacketType::StatusResponse`
/// payload.
///
/// Returns an error if the payload is too short or the status data cannot
/// be parsed. The status carries the same sender prefix as the frame.
pub fn parse_status_response(payload: &[u8]) -> (r: Result<StatusResponseFrame, Error>)
    ensures
        payload.len() < STATUS_RESP_MIN_LEN ==> protocol_err(r, "StatusResponse payload too short"@),
        payload.len() >= STATUS_RESP_MIN_LEN ==> (r matches Ok(f) && f.sender_prefix@
            == payload@.subrange(0, 6) && status_layout(
            payload@.subrange(6, payload.len() as int),
            f.sender_prefix,
            f.status,
        )),
{
    if payload.len() < STATUS_RESP_MIN_LEN {
        return Err(Error::protocol("StatusResponse payload too short"));
    }
    let sender_prefix: [u8; 6] = bytes_at(payload, 0);
    let status = match parse_status(&payload[STATUS_RESP_PREFIX_LEN..payload.len()], sender_prefix) {
        Ok(s) => s,
        Err(e) => return Err(e),
    };
    Ok(StatusResponseFrame { sender_prefix, status })
}

/// Minimum length for a TelemetryResponse payload (4-byte tag).
pub const TELEMETRY_RESP_MIN_LEN: usize = 4;

/// Parsed telemetry response: tag and LPP data.
#[derive(Debug, PartialEq, Eq)]
pub struct TelemetryResponseFrame {
    /// The 4-byte request tag.
    pub tag: [u8; 4],
    /// LPP telemetry data.
    pub data: Vec<u8>,
}

/// Parse a [`TelemetryResponseFrame`] from a
/// `PacketType::TelemetryResponse` payload.
///
/// Returns an error if the payload is too short.
pub fn parse_telemetry_response(payload: &[u8]) -> (r: Result<TelemetryResponseFrame, Error>)
    ensures
        payload.len() < TELEMETRY_RESP_MIN_LEN ==> protocol_err(
            r,
            "TelemetryResponse payload too short"@,
        ),
        payload.len() >= TELEMETRY_RESP_MIN_LEN ==> (r matches Ok(f) && f.tag@ == payload@.subrange(
            0,
            4,
        ) && f.data@ == payload@.subrange(4, payload.len() as int)),
{
    if payload.len() < TELEMETRY_RESP_MIN_LEN {
        return Err(Error::protocol("TelemetryResponse payload too short"));
    }
    let tag: [u8; 4] = bytes_at(payload, 0);
    let data = copy_range(payload, 4, payload.len());
    Ok(TelemetryResponseFrame { tag, data })
}

/// Length of the subtype byte that precedes the tag.
pub const BINARY_RESP_SUBTYPE_LEN: usize = 1;
/// Length of the 4-byte request tag echoed back in the response.
pub const BINARY_RESP_TAG_LEN: usize = 4;
/// Offset of the tag within the BinaryResponse payload.
pub const BINARY_RESP_TAG_OFFSET: usize = 1;
/// Offset where the response data begins.
pub const BINARY_RESP_DATA_OFFSET: usize = 5;
/// Minimum payload length (subtype + tag).
pub const BINARY_RESP_MIN_LEN: usize = 5;

/// Parsed binary response frame: tag and data extracted from the raw
/// `PacketType::BinaryResponse` payload.
#[derive(Debug, PartialEq, Eq)]
pub struct BinaryResponseFrame {
    /// The 4-byte request tag echoed by the firmware.
    pub tag: [u8; 4],
    /// The response data (everything after the tag).
    pub data: Vec<u8>,
}

/// Parse the frame envelope of a `PacketType::BinaryResponse` payload,
/// extracting the tag and data.
///
/// Firmware layout: `[subtype: 1][tag: 4][data...]`; the subtype byte is
/// skipped. Returns an error if the payload is too short to contain the
/// subtype byte and the 4-byte tag.
pub fn parse_binary_response_frame(payload: &[u8]) -> (r: Result<BinaryResponseFrame, Error>)
    ensures
        payload.len() < BINARY_RESP_MIN_LEN ==> protocol_err(r, "BinaryResponse payload too short"@),
        payload.len() >= BINARY_RESP_MIN_LEN ==> (r matches Ok(f) && f.tag@ == payload@.subrange(
            1,
            5,
        ) && f.data@ == payload@.subrange(5, payload.len() as int)),
{
    if payload.len() < BINARY_RESP_MIN_LEN {
        return Err(Error::protocol("BinaryResponse payload too short"));
    }
    let tag: [u8; 4] = bytes_at(payload, BINARY_RESP_TAG_OFFSET);
    let data = copy_range(payload, BINARY_RESP_DATA_OFFSET, payload.len());
    Ok(BinaryResponseFrame { tag, data })
}

/// Minimum path-discovery payload length: reserved + prefix +
/// out_path_byte + in_path_byte.
pub const PATH_DISC_MIN_LEN: usize = 9;

/// Offset just past the outbound path of a path-discovery payload `d`.
pub open spec fn out_path_end(d: Seq<u8>) -> int {
    8 + path_len_of(d[7]) * path_hash_size_of(d[7])
}

/// Offset just past the inbound path of a path-discovery payload `d`.
pub open spec fn in_path_end(d: Seq<u8>) -> int {
    let at = out_path_end(d);
    at + 1 + path_len_of(d[at]) * path_hash_size_of(d[at])
}

/// The fields of a path-discovery payload `d` (both paths present).
pub open spec fn path_discovery_layout(d: Seq<u8>, p: PathDiscoveryResponseData) -> bool {
    let ob = d[7];
    let out_end = out_path_end(d);
    let ib = d[out_end];
    &&& p.pubkey_prefix@ == d.subrange(1, 7)
    &&& p.out_path_len == path_len_of(ob)
    &&& p.out_path_hash_len == path_hash_size_of(ob)
    &&& p.out_path@ == d.subrange(8, out_end)
    &&& p.in_path_len == path_len_of(ib)
    &&& p.in_path_hash_len == path_hash_size_of(ib)
    &&& p.in_path@ == d.subrange(out_end + 1, in_path_end(d))
}

/// Parse a [`PathDiscoveryResponseData`] from a
/// `PacketType::PathDiscoveryResponse` payload.
///
/// Firmware layout: `[reserved: 1][pubkey_prefix: 6][out_path_byte: 1]
/// [out_path...][in_path_byte: 1][in_path...]`; a path byte encodes the
/// bytes per hop minus one in bits 6-7 and the hop count in bits 0-5.
/// Returns an error if the payload is too short or a path is truncated.
pub fn parse_path_discovery_response(payload: &[u8]) -> (r: Result<
    PathDiscoveryResponseData,
    Error,
>)
    ensures
        payload.len() < PATH_DISC_MIN_LEN ==> protocol_err(
            r,
            "PathDiscoveryResponse payload too short"@,
        ),
        payload.len() >= PATH_DISC_MIN_LEN && out_path_end(payload@) >= payload.len() ==> protocol_err(
            r,
            "PathDiscoveryResponse outbound path truncated"@,
        ),
        payload.len() >= PATH_DISC_MIN_LEN && out_path_end(payload@) < payload.len() && in_path_end(
            payload@,
        ) > payload.len() ==> protocol_err(r, "PathDiscoveryResponse inbound path truncated"@),
        payload.len() >= PATH_DISC_MIN_LEN && out_path_end(payload@) < payload.len() && in_path_end(
            payload@,
        ) <= payload.len() ==> (r matches Ok(p) && path_discovery_layout(payload@, p)),
{
    if payload.len() < PATH_DISC_MIN_LEN {
        return Err(Error::protocol("PathDiscoveryResponse payload too short"));
    }
    let pubkey_prefix: [u8; 6] = bytes_at(payload, 1);
    let out_path_byte = payload[7];
    let out_path_hash_len = out_path_byte / 64 + 1;
    let out_path_len = out_path_byte % 64;
    assert(out_path_len as usize * out_path_hash_len as usize <= 252) by (nonlinear_arith)
        requires
            out_path_len < 64,
            out_path_hash_len <= 4,
    ;
    let out_path_end = 8 + out_path_len as usize * out_path_hash_len as usize;
    if out_path_end >= payload.len() {
        return Err(Error::protocol("PathDiscoveryResponse outbound path truncated"));
    }
    let out_path = copy_range(payload, 8, out_path_end);
    let in_path_byte = payload[out_path_end];
    let in_path_hash_len = in_path_byte / 64 + 1;
    let in_path_len = in_path_byte % 64;
    assert(in_path_len as usize * in_path_hash_len as usize <= 252) by (nonlinear_arith)
        requires
            in_path_len < 64,
            in_path_hash_len <= 4,
    ;
    let in_path_end = out_path_end + 1 + in_path_len as usize * in_path_hash_len as usize;
    if in_path_end > payload.len() {
        return Err(Error::protocol("PathDiscoveryResponse inbound path truncated"));
    }
    let in_path = copy_range(payload, out_path_end + 1, in_path_end);
    Ok(
        PathDiscoveryResponseData {
            pubkey_prefix,
            out_path_len,
            out_path_hash_len,
            out_path,
            in_path_len,
            in_path_hash_len,
            in_path,
        },
    )
}

/// `bytes[at..at + n]` is a plainly written name: no NUL inside, a NUL or
/// the end of `bytes` (or of the field of `width` bytes) right after it,
/// and well-formed UTF-8 without control characters or U+FFFD.
pub open spec fn plain_name_at(bytes: Seq<u8>, at: int, width: int, n: int) -> bool {
    &&& 0 <= at
    &&& 0 <= n <= width
    &&& at + n <= bytes.len()
    &&& forall|j: int| at <= j < at + n ==> bytes[j] != 0
    &&& n < width && at + n < bytes.len() ==> bytes[at + n] == 0
    &&& valid_utf8(bytes.subrange(at, at + n))
    &&& forall|i: int|
        0 <= i < decode_utf8(bytes.subrange(at, at + n)).len() ==> {
            let u = (#[trigger] decode_utf8(bytes.subrange(at, at + n))[i]) as u32;
            &&& u > 0x1f
            &&& !(0x7f <= u && u <= 0x9f)
            &&& u != 0xfffd
        }
}

/// Law: a contact's name is the 32-byte field at byte 99: a plain name
/// written there, NUL-padded, reads back as its text (trimmed), whatever
/// scalar values it holds, emoji included.
pub proof fn lemma_contact_name(d: Seq<u8>, c: Contact, n: int)
    requires
        d.len() >= 145,
        contact_layout(d, c),
        plain_name_at(d, 99, 32, n),
    ensures
        c.adv_name@ == trim_ws(decode_utf8(d.subrange(99, 99 + n))),
{
    lemma_plain_name_field(d, 99, 32, n);
}

/// Law: the node's own name is the text from byte 57 to the end of the
/// self-info frame, just after the coding-rate byte at 56: a plain name
/// written there reads back as its text (trimmed).
pub proof fn lemma_self_info_name(d: Seq<u8>, s: SelfInfo, n: int)
    requires
        d.len() >= 57,
        self_info_layout(d, s),
        plain_name_at(d, 57, d.len() - 57, n),
    ensures
        s.name@ == trim_ws(decode_utf8(d.subrange(57, 57 + n))),
{
    if d.len() > 57 {
        lemma_plain_name_field(d, 57, d.len() - 57, n);
    } else {
        assert(d.subrange(57, 57 + n) =~= Seq::<u8>::empty());
        assert(trim_ws(decode_utf8(Seq::<u8>::empty())) =~= Seq::<char>::empty());
    }
}

/// Law: every counter of a status body is the little-endian value of its
/// own bytes: writing the counters with `to_le_bytes` at 0, 2, 4, 6, 8,
/// 12, 16, 20, 24, 28, 36 and 40 (the SNR byte at 32, bytes 33 to 35
/// reserved) and parsing gives them back.
pub proof fn lemma_status_fields(d: Seq<u8>, p: [u8; 6], s: StatusData)
    requires
        d.len() >= 52,
        status_layout(d, p, s),
    ensures
        u16_le_bytes(s.battery_mv) == d.subrange(0, 2),
        u16_le_bytes(s.tx_queue_len) == d.subrange(2, 4),
        i16_le_bytes(s.noise_floor) == d.subrange(4, 6),
        i16_le_bytes(s.last_rssi) == d.subrange(6, 8),
        u32_le_bytes(s.nb_recv) == d.subrange(8, 12),
        u32_le_bytes(s.nb_sent) == d.subrange(12, 16),
        u32_le_bytes(s.airtime) == d.subrange(16, 20),
        u32_le_bytes(s.uptime) == d.subrange(20, 24),
        u32_le_bytes(s.flood_sent) == d.subrange(24, 28),
        u32_le_bytes(s.direct_sent) == d.subrange(28, 32),
        (if s.snr_raw < 0 {
            s.snr_raw + 0x100
        } else {
            s.snr_raw as int
        }) == d[32],
        u32_le_bytes(s.dup_count) == d.subrange(36, 40),
        u32_le_bytes(s.rx_airtime) == d.subrange(40, 44),
{
    lemma_u16_le_bytes_of(d, 0);
    lemma_u16_le_bytes_of(d, 2);
    lemma_i16_le_bytes_of(d, 4);
    lemma_i16_le_bytes_of(d, 6);
    lemma_u32_le_bytes_of(d, 8);
    lemma_u32_le_bytes_of(d, 12);
    lemma_u32_le_bytes_of(d, 16);
    lemma_u32_le_bytes_of(d, 20);
    lemma_u32_le_bytes_of(d, 24);
    lemma_u32_le_bytes_of(d, 28);
    lemma_u32_le_bytes_of(d, 36);
    lemma_u32_le_bytes_of(d, 40);
}

/// The bytes of the u16 read at `at` are the bytes at `at`.
proof fn lemma_u16_le_bytes_of(d: Seq<u8>, at: int)
    requires
        0 <= at,
        at + 2 <= d.len(),
    ensures
        u16_le_bytes(u16_le(d, at) as u16) == d.subrange(at, at + 2),
{
    let b = d.subrange(at, at + 2);
    lemma_u16_le_roundtrip(0, b);
    assert(u16_le(b, 0) == u16_le(d, at));
}

/// The bytes of the i16 read at `at` are the bytes at `at`.
proof fn lemma_i16_le_bytes_of(d: Seq<u8>, at: int)
    requires
        0 <= at,
        at + 2 <= d.len(),
    ensures
        i16_le_bytes(i16_le(d, at) as i16) == d.subrange(at, at + 2),
{
    lemma_u16_le_bytes_of(d, at);
    assert((if (i16_le(d, at) as i16) < 0 {
        (i16_le(d, at) as i16) + 0x1_0000
    } else {
        (i16_le(d, at) as i16) as int
    }) == u16_le(d, at));
}

/// The bytes of the u32 read at `at` are the bytes at `at`.
proof fn lemma_u32_le_bytes_of(d: Seq<u8>, at: int)
    requires
        0 <= at,
        at + 4 <= d.len(),
    ensures
        u32_le_bytes(u32_le(d, at) as u32) == d.subrange(at, at + 4),
{
    let b = d.subrange(at, at + 4);
    lemma_u32_le_roundtrip(0, b);
    assert(u32_le(b, 0) == u32_le(d, at));
}

/// Law: in a v2 direct message, a `txt_type` of 2 (byte 7) with room for
/// it puts a 4-byte signature at bytes 12..16 and the text from byte 16;
/// otherwise there is no signature and the text starts at byte 12.
pub proof fn lemma_contact_msg_v2_signature(d: Seq<u8>, m: ContactMessage)
    requires
        d.len() >= 12,
        contact_msg_layout(d, 0, m),
    ensures
        d[7] == 2 && d.len() >= 16 ==> (m.signature matches Some(sig) && sig@ == d.subrange(12, 16)
            && m.text@ == tail_text(d, 16)),
        !(d[7] == 2 && d.len() >= 16) ==> (m.signature is None && m.text@ == tail_text(d, 12)),
{
}

/// Law: in a v3 direct message (SNR byte and two reserved bytes first), a
/// `txt_type` of 2 (byte 10) with room for it puts a 4-byte signature at
/// bytes 15..19 and the text from byte 19; otherwise there is no signature
/// and the text starts at byte 15.
pub proof fn lemma_contact_msg_v3_signature(d: Seq<u8>, m: ContactMessage)
    requires
        d.len() >= 15,
        contact_msg_layout(d, 3, m),
    ensures
        d[10] == 2 && d.len() >= 19 ==> (m.signature matches Some(sig) && sig@ == d.subrange(15, 19)
            && m.text@ == tail_text(d, 19)),
        !(d[10] == 2 && d.len() >= 19) ==> (m.signature is None && m.text@ == tail_text(d, 15)),
{
}

/// Law: a v3 direct message is a v2 one behind a 3-byte header: whatever
/// the header holds, both frames give the same sender, path, type,
/// timestamp, signature and text.
pub proof fn lemma_contact_msg_v3_is_shifted_v2(
    header: Seq<u8>,
    v2: Seq<u8>,
    m2: ContactMessage,
    m3: ContactMessage,
)
    requires
        header.len() == 3,
        v2.len() >= 12,
        contact_msg_layout(v2, 0, m2),
        contact_msg_layout(header + v2, 3, m3),
    ensures
        m3.sender_prefix@ == m2.sender_prefix@,
        m3.path_len == m2.path_len,
        m3.txt_type == m2.txt_type,
        m3.sender_timestamp == m2.sender_timestamp,
        match (m2.signature, m3.signature) {
            (Some(a), Some(b)) => a@ == b@,
            (None, None) => true,
            _ => false,
        },
        m3.text@ == m2.text@,
{
    let d = header + v2;
    assert(d.subrange(3, 9) =~= v2.subrange(0, 6));
    assert(d[9] == v2[6] && d[10] == v2[7]);
    assert(d[11] == v2[8] && d[12] == v2[9] && d[13] == v2[10] && d[14] == v2[11]);
    if v2.len() >= 16 {
        assert(d.subrange(15, 19) =~= v2.subrange(12, 16));
    }
    assert(d.subrange(15, d.len() as int) =~= v2.subrange(12, v2.len() as int));
    if v2.len() >= 16 {
        assert(d.subrange(19, d.len() as int) =~= v2.subrange(16, v2.len() as int));
    }
}

/// Law: a v3 channel message is a v2 one behind a 3-byte header: both
/// frames give the same channel, path, type, timestamp and text.
pub proof fn lemma_channel_msg_v3_is_shifted_v2(
    header: Seq<u8>,
    v2: Seq<u8>,
    m2: ChannelMessage,
    m3: ChannelMessage,
)
    requires
        header.len() == 3,
        v2.len() >= 7,
        channel_msg_layout(v2, 0, m2),
        channel_msg_layout(header + v2, 3, m3),
    ensures
        m3.channel_idx == m2.channel_idx,
        m3.path_len == m2.path_len,
        m3.txt_type == m2.txt_type,
        m3.sender_timestamp == m2.sender_timestamp,
        m3.text@ == m2.text@,
{
    let d = header + v2;
    assert(d[3] == v2[0] && d[4] == v2[1] && d[5] == v2[2]);
    assert(d[6] == v2[3] && d[7] == v2[4] && d[8] == v2[5] && d[9] == v2[6]);
    assert(d.subrange(10, d.len() as int) =~= v2.subrange(7, v2.len() as int));
}

/// Law: in a raw ADVERT payload the name, when the flags announce one
/// (bit 0x80), is the text that starts right after the fixed fields and
/// every block the flags announce: byte 101, plus 8 when a location
/// follows (bit 0x10: lat at 101, lon at 105), plus 2 for each feature
/// block (bits 0x20 and 0x40); with nothing left there, there is no name.
pub proof fn lemma_raw_advert_name_position(d: Seq<u8>, a: RawAdvertisement)
    requires
        d.len() >= 101,
        raw_advert_layout(d, a),
    ensures
        ({
            let f = d[100];
            let at = 101 + (if f & 0x10 != 0 {
                8int
            } else {
                0
            }) + (if f & 0x20 != 0 {
                2int
            } else {
                0
            }) + (if f & 0x40 != 0 {
                2int
            } else {
                0
            });
            if f & 0x80 != 0 && d.len() > at {
                a.name matches Some(name) && name@ == read_string_spec(d, at, d.len() - at)
            } else {
                a.name is None
            }
        }),
{
}

/// Law: a raw ADVERT announcing a location and a name and no feature block
/// gives back the latitude and longitude written (as `i32::to_le_bytes`)
/// at 101 and 105, and a plain name written from byte 109 as its text.
pub proof fn lemma_raw_advert_location_then_name(
    d: Seq<u8>,
    a: RawAdvertisement,
    lat: i32,
    lon: i32,
    n: int,
)
    requires
        d.len() > 109,
        raw_advert_layout(d, a),
        d[100] & 0x10 != 0,
        d[100] & 0x20 == 0,
        d[100] & 0x40 == 0,
        d[100] & 0x80 != 0,
        d.subrange(101, 105) == i32_le_bytes(lat),
        d.subrange(105, 109) == i32_le_bytes(lon),
        plain_name_at(d, 109, d.len() - 109, n),
    ensures
        a.lat == Some(lat),
        a.lon == Some(lon),
        a.name matches Some(name) && name@ == trim_ws(decode_utf8(d.subrange(109, 109 + n))),
{
    lemma_i32_le_roundtrip(lat);
    lemma_i32_le_roundtrip(lon);
    assert(i32_le(d, 101) == i32_le(d.subrange(101, 105), 0));
    assert(i32_le(d, 105) == i32_le(d.subrange(105, 109), 0));
    lemma_raw_advert_name_position(d, a);
    lemma_plain_name_field(d, 109, d.len() - 109, n);
}

} // verus!
