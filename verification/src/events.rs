//! The values the parsers produce.
//!
//! Signal-to-noise ratios travel on the wire as signed bytes in quarter-dB
//! steps; they are kept in that form here (`snr_raw`), and the SNR in dB is
//! that value divided by four.
use vstd::prelude::*;
use crate::packets::{PayloadType, RouteType};
use crate::CHANNEL_SECRET_LEN;

verus! {

/// A contact stored on the node.
#[derive(Debug, PartialEq, Eq)]
pub struct Contact {
    pub public_key: [u8; 32],
    pub contact_type: u8,
    pub flags: u8,
    /// Hop count of the stored path; -1 means no path (flood).
    pub path_len: i8,
    /// The stored path, up to its first zero byte.
    pub out_path: Vec<u8>,
    pub adv_name: String,
    pub last_advert: u32,
    /// Latitude in microdegrees.
    pub adv_lat: i32,
    /// Longitude in microdegrees.
    pub adv_lon: i32,
    pub last_modification_timestamp: u32,
}

/// The node's own identity and radio settings.
#[derive(Debug, PartialEq, Eq)]
pub struct SelfInfo {
    pub adv_type: u8,
    pub tx_power: u8,
    pub max_tx_power: u8,
    pub public_key: [u8; 32],
    pub adv_lat: i32,
    pub adv_lon: i32,
    pub multi_acks: u8,
    pub adv_loc_policy: u8,
    pub telemetry_mode_base: u8,
    pub telemetry_mode_loc: u8,
    pub telemetry_mode_env: u8,
    pub manual_add_contacts: bool,
    pub radio_freq: u32,
    pub radio_bw: u32,
    pub sf: u8,
    pub cr: u8,
    pub name: String,
}

/// Firmware and hardware description of the node.
#[derive(Debug, PartialEq, Eq)]
pub struct DeviceInfoData {
    pub fw_version_code: u8,
    pub max_contacts: Option<u8>,
    pub max_channels: Option<u8>,
    pub ble_pin: Option<u32>,
    pub fw_build: Option<String>,
    pub model: Option<String>,
    pub version: Option<String>,
    pub repeat: Option<bool>,
}

/// Status counters reported by a (remote) node.
#[derive(Debug, PartialEq, Eq)]
pub struct StatusData {
    pub battery_mv: u16,
    pub tx_queue_len: u16,
    pub noise_floor: i16,
    pub last_rssi: i16,
    pub nb_recv: u32,
    pub nb_sent: u32,
    pub airtime: u32,
    pub uptime: u32,
    pub flood_sent: u32,
    pub direct_sent: u32,
    /// Last SNR in quarter-dB steps.
    pub snr_raw: i8,
    pub dup_count: u32,
    pub rx_airtime: u32,
    pub sender_prefix: [u8; 6],
}

/// A direct message from a contact.
#[derive(Debug, PartialEq, Eq)]
pub struct ContactMessage {
    pub sender_prefix: [u8; 6],
    pub path_len: u8,
    pub txt_type: u8,
    pub sender_timestamp: u32,
    pub text: String,
    /// SNR in quarter-dB steps (v3 frames only).
    pub snr_raw: Option<i8>,
    pub signature: Option<[u8; 4]>,
}

/// A message received on a channel.
#[derive(Debug, PartialEq, Eq)]
pub struct ChannelMessage {
    pub channel_idx: u8,
    pub path_len: u8,
    pub txt_type: u8,
    pub sender_timestamp: u32,
    pub text: String,
    /// SNR in quarter-dB steps (v3 frames only).
    pub snr_raw: Option<i8>,
}

/// One access-control entry.
#[derive(Debug, PartialEq, Eq)]
pub struct AclEntry {
    pub prefix: [u8; 6],
    pub permissions: u8,
}

/// A neighbour heard by a node.
#[derive(Debug, PartialEq, Eq)]
pub struct Neighbour {
    pub pubkey: Vec<u8>,
    pub secs_ago: i32,
    /// SNR in quarter-dB steps.
    pub snr_raw: i8,
}

/// A node's neighbour table.
#[derive(Debug, PartialEq, Eq)]
pub struct NeighboursData {
    pub total: u16,
    pub neighbours: Vec<Neighbour>,
}

/// One min/max/average telemetry entry, with its raw values.
#[derive(Debug, PartialEq, Eq)]
pub struct MmaEntry {
    pub channel: u8,
    pub entry_type: u8,
    pub min: i32,
    pub max: i32,
    pub avg: i32,
}

/// The decoded header of an over-the-air mesh packet.
#[derive(Debug, PartialEq, Eq)]
pub struct MeshPacketHeader {
    pub route_type: RouteType,
    pub payload_type: PayloadType,
    pub payload_version: u8,
    pub transport_code: Option<[u8; 4]>,
    /// Number of hops in the path.
    pub path_len: u8,
    /// Bytes per hop in the path (1 to 4).
    pub path_hash_size: u8,
    pub path: Vec<u8>,
}

/// A raw ADVERT payload.
#[derive(Debug, PartialEq, Eq)]
pub struct RawAdvertisement {
    pub public_key: [u8; 32],
    pub timestamp: u32,
    pub signature: [u8; 64],
    pub adv_type: u8,
    pub lat: Option<i32>,
    pub lon: Option<i32>,
    pub name: Option<String>,
}

/// The reply to an advert request.
#[derive(Debug, PartialEq, Eq)]
pub struct AdvertResponseData {
    pub tag: [u8; 4],
    pub pubkey: [u8; 32],
    pub adv_type: u8,
    pub node_name: String,
    pub timestamp: u32,
    pub flags: u8,
    pub lat: Option<i32>,
    pub lon: Option<i32>,
    pub node_desc: Option<String>,
}

/// Battery voltage and, on newer firmware, storage use.
#[derive(Debug, PartialEq, Eq)]
pub struct BatteryInfo {
    pub battery_mv: u16,
    pub used_kb: Option<u32>,
    pub total_kb: Option<u32>,
}

/// Acknowledgement that a message was queued.
#[derive(Debug, PartialEq, Eq)]
pub struct MsgSentInfo {
    pub message_type: u8,
    pub expected_ack: [u8; 4],
    pub suggested_timeout: u32,
}

/// A channel's configuration.
#[derive(Debug, PartialEq, Eq)]
pub struct ChannelInfoData {
    pub channel_idx: u8,
    pub name: String,
    pub secret: [u8; CHANNEL_SECRET_LEN],
}

/// Which statistics a stats frame carries.
#[derive(Debug, Clone, Copy, PartialEq, Eq)]
pub enum StatsCategory {
    Core,
    Radio,
    Packets,
}

/// A stats frame: its category and the undecoded body.
#[derive(Debug, PartialEq, Eq)]
pub struct StatsData {
    pub category: StatsCategory,
    pub raw: Vec<u8>,
}

/// Core statistics.
#[derive(Debug, PartialEq, Eq)]
pub struct CoreStatsData {
    pub battery_mv: u16,
    pub uptime_secs: u32,
    pub errors: u16,
    pub queue_len: u8,
}

/// Radio statistics.
#[derive(Debug, PartialEq, Eq)]
pub struct RadioStatsData {
    pub noise_floor: i16,
    pub last_rssi: i8,
    /// Last SNR in quarter-dB steps.
    pub last_snr_scaled: i8,
    pub tx_air_secs: u32,
    pub rx_air_secs: u32,
}

/// Packet counters.
#[derive(Debug, PartialEq, Eq)]
pub struct PacketStatsData {
    pub recv: u32,
    pub sent: u32,
    pub flood_tx: u32,
    pub direct_tx: u32,
    pub flood_rx: u32,
    pub direct_rx: u32,
    /// Absent in the older, shorter frame.
    pub recv_errors: Option<u32>,
}

/// An advertisement pushed by the node.
#[derive(Debug, PartialEq, Eq)]
pub struct AdvertisementData {
    pub prefix: [u8; 6],
    pub name: String,
    pub lat: i32,
    pub lon: i32,
}

/// A contact's path changed.
#[derive(Debug, PartialEq, Eq)]
pub struct PathUpdateData {
    pub prefix: [u8; 6],
    pub path_len: i8,
    pub path: Vec<u8>,
}

/// One hop of a trace.
#[derive(Debug, PartialEq, Eq)]
pub struct TraceHop {
    pub prefix: [u8; 6],
    /// SNR in quarter-dB steps.
    pub snr_raw: i8,
}

/// The hops of a trace.
#[derive(Debug, PartialEq, Eq)]
pub struct TraceInfo {
    pub hops: Vec<TraceHop>,
}

/// A node found by discovery.
#[derive(Debug, PartialEq, Eq)]
pub struct DiscoverEntry {
    pub pubkey: Vec<u8>,
    pub name: String,
}

/// The outbound and inbound paths found by path discovery.
#[derive(Debug, PartialEq, Eq)]
pub struct PathDiscoveryResponseData {
    pub pubkey_prefix: [u8; 6],
    pub out_path_len: u8,
    pub out_path_hash_len: u8,
    pub out_path: Vec<u8>,
    pub in_path_len: u8,
    pub in_path_hash_len: u8,
    pub in_path: Vec<u8>,
}

} // verus!
