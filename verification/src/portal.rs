//! User-configurable settings, their flash image, and the setup portal.
//!
//! Flash image (all multi-byte fields little-endian):
//!
//! | offset | size | field                       |
//! |--------|------|-----------------------------|
//! | 0      | 4    | magic `b"MCFG"`             |
//! | 4      | 1    | format version (= 1)        |
//! | 5      | 1    | ssid length (<= 32)         |
//! | 6      | 1    | password length (<= 64)     |
//! | 7      | 1    | reserved (0)                |
//! | 8      | 32   | ssid bytes, zero-padded     |
//! | 40     | 64   | password bytes, zero-padded |
//! | 104    | 4    | multicast address           |
//! | 108    | 2    | data port                   |
//! | 110    | 1+1  | natnet major, minor         |
//! | 112    | 4    | rigid body id (i32)         |
//! | 116    | 1+1  | mav sysid, compid           |
//! | 118    | 4    | mavlink baud                |
//! | 122    | 2    | vpe rate (Hz)               |
//! | 124    | 2    | heartbeat rate (Hz)         |
//! | 126    | 2    | reserved (0)                |
//! | 128    | 4    | tracking timeout (ms)       |
//! | 132    | 4    | CRC32 (IEEE) of bytes 0..132|

pub mod bounded;
pub mod form;
pub mod html;



use vstd::prelude::*;
use vstd::string::StringSliceAdditionalSpecFns;
use vstd::utf8::{decode_utf8, encode_utf8, valid_utf8};

use crate::portal::bounded::{
    string32_as_str, string32_from, string32_text, string64_as_str, string64_from, string64_text,
};
use crate::text::str_from_utf8;
use crate::wire::{
    lemma_le16_roundtrip, lemma_le32_roundtrip, le16, le16_bytes, le32, le32_bytes, read_i32_le, read_u16_le, read_u32_le, signed32, unsigned32,
    write_u16_le, write_u32_le,
};

verus! {

/// "MCFG"
const MAGIC: [u8; 4] = [0x4D, 0x43, 0x46, 0x47];

const FORMAT_VERSION: u8 = 1;

pub const WIRE_LEN: usize = 136;

/// User-configurable settings
#[derive(Debug)]
pub struct Settings {
    /// WiFi SSID (<= 32 bytes)
    pub wifi_ssid: heapless::String<32>,
    /// WPA2 passphrase (<= 64 bytes)
    pub wifi_pass: heapless::String<64>,
    /// NatNet multicast group (Motive default 239.255.42.99)
    pub multicast_addr: [u8; 4],
    /// NatNet data port (Motive default 1511)
    pub data_port: u16,
    /// NatNet protocol version
    pub natnet_major: u8,
    pub natnet_minor: u8,
    /// Rigid body id
    pub rigid_body_id: i32,
    /// MAVLink identity (compid 197 = vision/odometry source)
    pub mav_sysid: u8,
    pub mav_compid: u8,
    /// UART1 baud to the flight controller
    pub mavlink_baud: u32,
    /// VISION_POSITION_ESTIMATE rate
    pub vpe_rate_hz: u16,
    /// HEARTBEAT rate
    pub heartbeat_rate_hz: u16,
    /// Stop TX after no fresh pose for this long, so EKF2 coasts
    pub track_timeout_ms: u32,
}

/// The factory settings.
pub open spec fn factory_settings() -> SettingsView {
    SettingsView {
        wifi_ssid: "mocap-wifi"@,
        wifi_pass: "mocap-password"@,
        multicast_addr: [239, 255, 42, 99],
        data_port: 1511,
        natnet_major: 3,
        natnet_minor: 1,
        rigid_body_id: 32,
        mav_sysid: 1,
        mav_compid: 197,
        mavlink_baud: 921_600,
        vpe_rate_hz: 100,
        heartbeat_rate_hz: 1,
        track_timeout_ms: 200,
    }
}

impl Default for Settings {
    fn default() -> (r: Self)
        ensures
            r@ == factory_settings(),
    {
        let ssid: &str = "mocap-wifi";
        let pass: &str = "mocap-password";
        proof {
            reveal_strlit("mocap-wifi");
            reveal_strlit("mocap-password");
            assert(vstd::string::is_ascii(ssid));
            assert(vstd::string::is_ascii(pass));
            vstd::string::is_ascii_spec_bytes(ssid);
            vstd::string::is_ascii_spec_bytes(pass);
        }
        let wifi_ssid = string32_from(ssid).unwrap();
        let wifi_pass = string64_from(pass).unwrap();
        Self {
            wifi_ssid,
            wifi_pass,
            multicast_addr: [239, 255, 42, 99],
            data_port: 1511,
            natnet_major: 3,
            natnet_minor: 1,
            rigid_body_id: 32,
            mav_sysid: 1,
            mav_compid: 197,
            mavlink_baud: 921_600,
            vpe_rate_hz: 100,
            heartbeat_rate_hz: 1,
            track_timeout_ms: 200,
        }
    }
}

/// What a `Settings` value holds.
pub struct SettingsView {
    pub wifi_ssid: Seq<char>,
    pub wifi_pass: Seq<char>,
    pub multicast_addr: [u8; 4],
    pub data_port: u16,
    pub natnet_major: u8,
    pub natnet_minor: u8,
    pub rigid_body_id: i32,
    pub mav_sysid: u8,
    pub mav_compid: u8,
    pub mavlink_baud: u32,
    pub vpe_rate_hz: u16,
    pub heartbeat_rate_hz: u16,
    pub track_timeout_ms: u32,
}

impl View for Settings {
    type V = SettingsView;

    open spec fn view(&self) -> SettingsView {
        SettingsView {
            wifi_ssid: string32_text(self.wifi_ssid),
            wifi_pass: string64_text(self.wifi_pass),
            multicast_addr: self.multicast_addr,
            data_port: self.data_port,
            natnet_major: self.natnet_major,
            natnet_minor: self.natnet_minor,
            rigid_body_id: self.rigid_body_id,
            mav_sysid: self.mav_sysid,
            mav_compid: self.mav_compid,
            mavlink_baud: self.mavlink_baud,
            vpe_rate_hz: self.vpe_rate_hz,
            heartbeat_rate_hz: self.heartbeat_rate_hz,
            track_timeout_ms: self.track_timeout_ms,
        }
    }
}

/// The first rule that `s` breaks, or `Ok` when it breaks none.
pub open spec fn settings_check(s: SettingsView) -> Result<(), &'static str> {
    if s.wifi_ssid.len() == 0 {
        Err("WiFi SSID must not be empty")
    } else if !(224 <= s.multicast_addr[0] <= 239) {
        Err("multicast address must be in 224.0.0.0/4")
    } else if s.data_port == 0 {
        Err("data port must not be 0")
    } else if !(2 <= s.natnet_major <= 4) {
        Err("NatNet major version must be 2..=4")
    } else if !(9_600 <= s.mavlink_baud <= 3_000_000) {
        Err("baud must be within 9600..=3000000")
    } else if s.heartbeat_rate_hz == 0 || s.vpe_rate_hz == 0 {
        Err("rates must be at least 1 Hz")
    } else if s.vpe_rate_hz < s.heartbeat_rate_hz || s.vpe_rate_hz % s.heartbeat_rate_hz != 0 {
        Err("VPE rate must be a multiple of the heartbeat rate")
    } else if s.track_timeout_ms < 10 {
        Err("tracking timeout must be at least 10 ms")
    } else {
        Ok(())
    }
}

/// The strings fit their slots of the flash image.
pub open spec fn fits_image(s: SettingsView) -> bool {
    &&& encode_utf8(s.wifi_ssid).len() <= 32
    &&& encode_utf8(s.wifi_pass).len() <= 64
}

/// One step of the reflected CRC-32 (IEEE, polynomial 0xEDB88320).
pub open spec fn crc_shift(c: u32) -> u32 {
    if c % 2 == 1 {
        (c / 2) ^ 0xEDB8_8320u32
    } else {
        c / 2
    }
}

/// The CRC register after taking in one byte.
pub open spec fn crc_byte(c: u32, b: u8) -> u32 {
    let x0 = c ^ (b as u32);
    crc_shift(crc_shift(crc_shift(crc_shift(crc_shift(crc_shift(crc_shift(crc_shift(x0))))))))
}

/// The CRC register after taking in `data`, starting from all ones.
pub open spec fn crc_register(data: Seq<u8>) -> u32
    decreases data.len(),
{
    if data.len() == 0 {
        0xFFFF_FFFFu32
    } else {
        crc_byte(crc_register(data.drop_last()), data.last())
    }
}

/// CRC-32 (IEEE 802.3) of `data`.
pub open spec fn crc32_of(data: Seq<u8>) -> u32 {
    !crc_register(data)
}

/// The magic bytes "MCFG" that open the flash image.
pub open spec fn image_magic() -> Seq<u8> {
    seq![0x4Du8, 0x43u8, 0x46u8, 0x47u8]
}

/// `b` followed by zeros up to `n` bytes.
pub open spec fn padded(b: Seq<u8>, n: int) -> Seq<u8> {
    b + Seq::new((n - b.len()) as nat, |i: int| 0u8)
}

/// Bytes 0..132 of the flash image of `s`.
pub open spec fn image_body(s: SettingsView) -> Seq<u8> {
    let ssid = encode_utf8(s.wifi_ssid);
    let pass = encode_utf8(s.wifi_pass);
    image_magic() + seq![1u8, ssid.len() as u8, pass.len() as u8, 0u8] + padded(ssid, 32)
        + padded(pass, 64) + s.multicast_addr@ + le16_bytes(s.data_port as int) + seq![
        s.natnet_major,
        s.natnet_minor,
    ] + le32_bytes(unsigned32(s.rigid_body_id as int)) + seq![s.mav_sysid, s.mav_compid]
        + le32_bytes(s.mavlink_baud as int) + le16_bytes(s.vpe_rate_hz as int) + le16_bytes(
        s.heartbeat_rate_hz as int,
    ) + seq![0u8, 0u8] + le32_bytes(s.track_timeout_ms as int)
}

/// The flash image of `s`: the body and its CRC.
pub open spec fn settings_image(s: SettingsView) -> Seq<u8> {
    image_body(s) + le32_bytes(crc32_of(image_body(s)) as int)
}

/// The settings that the first `WIRE_LEN` bytes of `d` hold, when the magic,
/// version, CRC, lengths, UTF-8 and validation rules all accept them.
pub open spec fn settings_from(d: Seq<u8>) -> Option<SettingsView> {
    if d.len() < WIRE_LEN || d.subrange(0, 4) != image_magic() || d[4] != 1 || crc32_of(
        d.subrange(0, 132),
    ) != le32(d, 132) || d[5] > 32 || d[6] > 64 || !valid_utf8(d.subrange(8, 8 + d[5]))
        || !valid_utf8(d.subrange(40, 40 + d[6])) {
        None
    } else {
        let s = SettingsView {
            wifi_ssid: decode_utf8(d.subrange(8, 8 + d[5])),
            wifi_pass: decode_utf8(d.subrange(40, 40 + d[6])),
            multicast_addr: [d[104], d[105], d[106], d[107]],
            data_port: le16(d, 108) as u16,
            natnet_major: d[110],
            natnet_minor: d[111],
            rigid_body_id: signed32(le32(d, 112)) as i32,
            mav_sysid: d[116],
            mav_compid: d[117],
            mavlink_baud: le32(d, 118) as u32,
            vpe_rate_hz: le16(d, 122) as u16,
            heartbeat_rate_hz: le16(d, 124) as u16,
            track_timeout_ms: le32(d, 128) as u32,
        };
        if settings_check(s) is Ok {
            Some(s)
        } else {
            None
        }
    }
}

impl Settings {
    pub fn validate(&self) -> (r: Result<(), &'static str>)
        ensures
            r == settings_check(self@),
    {
        if string32_as_str(&self.wifi_ssid).is_empty() {
            return Err("WiFi SSID must not be empty");
        }
        if !(224 <= self.multicast_addr[0] && self.multicast_addr[0] <= 239) {
            return Err("multicast address must be in 224.0.0.0/4");
        }
        if self.data_port == 0 {
            return Err("data port must not be 0");
        }
        if !(2 <= self.natnet_major && self.natnet_major <= 4) {
            return Err("NatNet major version must be 2..=4");
        }
        if !(9_600 <= self.mavlink_baud && self.mavlink_baud <= 3_000_000) {
            return Err("baud must be within 9600..=3000000");
        }
        if self.heartbeat_rate_hz == 0 || self.vpe_rate_hz == 0 {
            return Err("rates must be at least 1 Hz");
        }
        if self.vpe_rate_hz < self.heartbeat_rate_hz
            || self.vpe_rate_hz % self.heartbeat_rate_hz != 0 {
            return Err("VPE rate must be a multiple of the heartbeat rate");
        }
        if self.track_timeout_ms < 10 {
            return Err("tracking timeout must be at least 10 ms");
        }
        Ok(())
    }
}

impl Settings {
    /// Serialises into the flash image.
    pub fn to_bytes(&self, out: &mut [u8; WIRE_LEN])
        ensures
            final(out)@ == settings_image(self@),
            fits_image(self@),
    {
        let ghost v = self@;
        let ssid_str: &str = string32_as_str(&self.wifi_ssid);
        let pass_str: &str = string64_as_str(&self.wifi_pass);
        let ssid: &[u8] = ssid_str.as_bytes();
        let pass: &[u8] = pass_str.as_bytes();
        let ssid_len: usize = ssid.len();
        let pass_len: usize = pass.len();

        let mut i: usize = 0;
        while i < WIRE_LEN
            invariant
                i <= WIRE_LEN,
                forall|k: int| 0 <= k < i ==> out@[k] == 0,
            decreases WIRE_LEN - i,
        {
            out[i] = 0;
            i = i + 1;
        }
        out[0] = MAGIC[0];
        out[1] = MAGIC[1];
        out[2] = MAGIC[2];
        out[3] = MAGIC[3];
        out[4] = FORMAT_VERSION;
        out[5] = ssid_len as u8;
        out[6] = pass_len as u8;
        let mut j: usize = 0;
        while j < ssid_len
            invariant
                ssid_len == ssid@.len(),
                ssid_len <= 32,
                j <= ssid_len,
                forall|k: int| 0 <= k < 8 ==> out@[k] == (image_magic() + seq![1u8, ssid_len as u8, pass_len as u8, 0u8])[k],
                forall|k: int| 8 <= k < 8 + j ==> out@[k] == ssid@[k - 8],
                forall|k: int| 8 + j <= k < WIRE_LEN ==> out@[k] == 0,
            decreases ssid_len - j,
        {
            out[8 + j] = ssid[j];
            j = j + 1;
        }
        let mut j: usize = 0;
        while j < pass_len
            invariant
                ssid_len == ssid@.len(),
                pass_len == pass@.len(),
                ssid_len <= 32,
                pass_len <= 64,
                j <= pass_len,
                forall|k: int| 0 <= k < 8 ==> out@[k] == (image_magic() + seq![1u8, ssid_len as u8, pass_len as u8, 0u8])[k],
                forall|k: int| 8 <= k < 8 + ssid_len ==> out@[k] == ssid@[k - 8],
                forall|k: int| 8 + ssid_len <= k < 40 ==> out@[k] == 0,
                forall|k: int| 40 <= k < 40 + j ==> out@[k] == pass@[k - 40],
                forall|k: int| 40 + j <= k < WIRE_LEN ==> out@[k] == 0,
            decreases pass_len - j,
        {
            out[40 + j] = pass[j];
            j = j + 1;
        }
        out[104] = self.multicast_addr[0];
        out[105] = self.multicast_addr[1];
        out[106] = self.multicast_addr[2];
        out[107] = self.multicast_addr[3];
        write_u16_le(out, 108, self.data_port);
        out[110] = self.natnet_major;
        out[111] = self.natnet_minor;
        write_u32_le(out, 112, id_bits(self.rigid_body_id));
        out[116] = self.mav_sysid;
        out[117] = self.mav_compid;
        write_u32_le(out, 118, self.mavlink_baud);
        write_u16_le(out, 122, self.vpe_rate_hz);
        write_u16_le(out, 124, self.heartbeat_rate_hz);
        write_u32_le(out, 128, self.track_timeout_ms);
        let ghost body = image_body(v);
        assert(out@.subrange(0, 132) =~= body);
        let crc: u32 = crc32(vstd::slice::slice_subrange(out.as_slice(), 0, 132));
        write_u32_le(out, 132, crc);
        assert(out@ =~= settings_image(v));
    }
}

impl Settings {
    /// Reads settings back from a flash image; `None` unless the image is intact
    /// and the settings it holds pass validation.
    pub fn from_bytes(data: &[u8]) -> (r: Option<Settings>)
        ensures
            r is Some <==> settings_from(data@) is Some,
            r matches Some(s) ==> s@ == settings_from(data@)->0,
    {
        if data.len() < WIRE_LEN {
            return None;
        }
        if data[0] != MAGIC[0] || data[1] != MAGIC[1] || data[2] != MAGIC[2] || data[3]
            != MAGIC[3] || data[4] != FORMAT_VERSION {
            assert(data@.subrange(0, 4) != image_magic() || data@[4] != 1) by {
                if data@.subrange(0, 4) == image_magic() {
                    assert(data@[0] == data@.subrange(0, 4)[0]);
                    assert(data@[1] == data@.subrange(0, 4)[1]);
                    assert(data@[2] == data@.subrange(0, 4)[2]);
                    assert(data@[3] == data@.subrange(0, 4)[3]);
                }
            }
            return None;
        }
        assert(data@.subrange(0, 4) =~= image_magic());
        let crc_stored: u32 = read_u32_le(data, 132);
        if crc32(vstd::slice::slice_subrange(data, 0, 132)) != crc_stored {
            return None;
        }
        let ssid_len: usize = data[5] as usize;
        let pass_len: usize = data[6] as usize;
        if ssid_len > 32 || pass_len > 64 {
            return None;
        }
        let wifi_ssid = str_from32(vstd::slice::slice_subrange(data, 8, 8 + ssid_len))?;
        let wifi_pass = str_from64(vstd::slice::slice_subrange(data, 40, 40 + pass_len))?;
        let s = Settings {
            wifi_ssid,
            wifi_pass,
            multicast_addr: [data[104], data[105], data[106], data[107]],
            data_port: read_u16_le(data, 108),
            natnet_major: data[110],
            natnet_minor: data[111],
            rigid_body_id: read_i32_le(data, 112),
            mav_sysid: data[116],
            mav_compid: data[117],
            mavlink_baud: read_u32_le(data, 118),
            vpe_rate_hz: read_u16_le(data, 122),
            heartbeat_rate_hz: read_u16_le(data, 124),
            track_timeout_ms: read_u32_le(data, 128),
        };
        match s.validate() {
            Ok(()) => Some(s),
            Err(_) => None,
        }
    }
}

fn str_from32(bytes: &[u8]) -> (r: Option<heapless::String<32>>)
    ensures
        r is Some <==> valid_utf8(bytes@) && bytes@.len() <= 32,
        r matches Some(h) ==> string32_text(h) == decode_utf8(bytes@),
{
    let s: &str = str_from_utf8(bytes)?;
    proof {
        vstd::utf8::decode_utf8_encode_utf8(bytes@);
    }
    string32_from(s)
}

fn str_from64(bytes: &[u8]) -> (r: Option<heapless::String<64>>)
    ensures
        r is Some <==> valid_utf8(bytes@) && bytes@.len() <= 64,
        r matches Some(h) ==> string64_text(h) == decode_utf8(bytes@),
{
    let s: &str = str_from_utf8(bytes)?;
    proof {
        vstd::utf8::decode_utf8_encode_utf8(bytes@);
    }
    string64_from(s)
}

/// The two's-complement bit pattern of `v`.
fn id_bits(v: i32) -> (r: u32)
    ensures
        r == unsigned32(v as int),
{
    if v >= 0 {
        v as u32
    } else {
        let shifted: i64 = v as i64 + 0x1_0000_0000;
        shifted as u32
    }
}

/// Settings that pass validation and fit their slots read back unchanged from
/// the flash image they are written as.
pub proof fn lemma_image_roundtrip(s: SettingsView)
    requires
        fits_image(s),
        settings_check(s) is Ok,
    ensures
        settings_from(settings_image(s)) == Some(s),
{
    let d = settings_image(s);
    let body = image_body(s);
    let ssid = encode_utf8(s.wifi_ssid);
    let pass = encode_utf8(s.wifi_pass);
    assert(body.len() == 132);
    assert(d.len() == 136);
    assert(d.subrange(0, 132) =~= body);
    assert(d.subrange(0, 4) =~= image_magic());
    assert(d[4] == 1);
    assert(d[5] == ssid.len());
    assert(d[6] == pass.len());
    assert(d.subrange(132, 136) =~= le32_bytes(crc32_of(body) as int));
    lemma_le32_roundtrip(crc32_of(body) as int, d, 132);
    assert(d.subrange(8, 8 + d[5]) =~= ssid);
    assert(d.subrange(40, 40 + d[6]) =~= pass);
    vstd::utf8::encode_utf8_valid_utf8(s.wifi_ssid);
    vstd::utf8::encode_utf8_valid_utf8(s.wifi_pass);
    vstd::utf8::encode_utf8_decode_utf8(s.wifi_ssid);
    vstd::utf8::encode_utf8_decode_utf8(s.wifi_pass);
    assert(d.subrange(108, 110) =~= le16_bytes(s.data_port as int));
    lemma_le16_roundtrip(s.data_port as int, d, 108);
    assert(d.subrange(112, 116) =~= le32_bytes(unsigned32(s.rigid_body_id as int)));
    lemma_le32_roundtrip(unsigned32(s.rigid_body_id as int), d, 112);
    assert(d.subrange(118, 122) =~= le32_bytes(s.mavlink_baud as int));
    lemma_le32_roundtrip(s.mavlink_baud as int, d, 118);
    assert(d.subrange(122, 124) =~= le16_bytes(s.vpe_rate_hz as int));
    lemma_le16_roundtrip(s.vpe_rate_hz as int, d, 122);
    assert(d.subrange(124, 126) =~= le16_bytes(s.heartbeat_rate_hz as int));
    lemma_le16_roundtrip(s.heartbeat_rate_hz as int, d, 124);
    assert(d.subrange(128, 132) =~= le32_bytes(s.track_timeout_ms as int));
    lemma_le32_roundtrip(s.track_timeout_ms as int, d, 128);
    let back = settings_from(d)->0;
    assert(back.multicast_addr =~= s.multicast_addr);
    assert(back.wifi_ssid == s.wifi_ssid);
    assert(back.rigid_body_id == s.rigid_body_id);
    assert(back == s);
}

/// The factory settings pass validation and fit the flash image.
pub proof fn lemma_factory_settings_valid()
    ensures
        settings_check(factory_settings()) is Ok,
        fits_image(factory_settings()),
{
    reveal_strlit("mocap-wifi");
    reveal_strlit("mocap-password");
    let ssid: &str = "mocap-wifi";
    let pass: &str = "mocap-password";
    assert(vstd::string::is_ascii(ssid));
    assert(vstd::string::is_ascii(pass));
    vstd::string::is_ascii_spec_bytes(ssid);
    vstd::string::is_ascii_spec_bytes(pass);
}

/// The settings the bridge accepts are exactly those that meet every
/// documented rule: a non-empty SSID, a multicast group in 224.0.0.0/4, a
/// data port other than 0, NatNet major version 2 to 4, a baud rate from 9600
/// to 3000000, VPE and heartbeat rates of at least 1 Hz with the VPE rate a
/// whole multiple of the heartbeat rate, and a tracking timeout of at least
/// 10 ms.
pub proof fn lemma_valid_iff_rules(s: SettingsView)
    ensures
        settings_check(s) is Ok <==> {
            &&& s.wifi_ssid.len() > 0
            &&& 224 <= s.multicast_addr[0] && s.multicast_addr[0] <= 239
            &&& s.data_port != 0
            &&& 2 <= s.natnet_major && s.natnet_major <= 4
            &&& 9600 <= s.mavlink_baud && s.mavlink_baud <= 3_000_000
            &&& s.heartbeat_rate_hz >= 1 && s.vpe_rate_hz >= 1
            &&& s.vpe_rate_hz % s.heartbeat_rate_hz == 0
            &&& s.track_timeout_ms >= 10
        },
{
    if s.heartbeat_rate_hz >= 1 && s.vpe_rate_hz >= 1 && s.vpe_rate_hz % s.heartbeat_rate_hz
        == 0 {
        let v = s.vpe_rate_hz as int;
        let h = s.heartbeat_rate_hz as int;
        assert(v >= h) by (nonlinear_arith)
            requires
                h >= 1,
                v >= 1,
                v % h == 0,
        {
            if v < h {
                vstd::arithmetic::div_mod::lemma_small_mod(v as nat, h as nat);
            }
        }
    }
}

/// Every multicast group the bridge accepts lies in 224.0.0.0/4; any other
/// first octet is refused with that reason when the SSID is set.
pub proof fn lemma_accepted_group_is_multicast(s: SettingsView)
    ensures
        settings_check(s) is Ok ==> 224 <= s.multicast_addr[0] <= 239,
        s.wifi_ssid.len() > 0 && !(224 <= s.multicast_addr[0] <= 239) ==> settings_check(s)
            == Err::<(), &'static str>("multicast address must be in 224.0.0.0/4"),
{
}

/// Any baud rate from 9600 to 3000000 is accepted on otherwise valid
/// settings, and none outside it.
pub proof fn lemma_baud_range(s: SettingsView, baud: u32)
    requires
        settings_check(s) is Ok,
    ensures
        settings_check(SettingsView { mavlink_baud: baud, ..s }) is Ok <==> 9600 <= baud
            <= 3_000_000,
{
}

/// Clearing the first four bytes of a flash image, as a factory reset does,
/// leaves nothing that loads: the settings are gone.
pub proof fn lemma_erased_image_refused(d: Seq<u8>)
    requires
        d.len() >= 4,
        d[0] == 0 && d[1] == 0 && d[2] == 0 && d[3] == 0,
    ensures
        settings_from(d) is None,
{
    assert(d.subrange(0, 4)[0] == 0u8);
    assert(image_magic()[0] == 0x4Du8);
}

proof fn lemma_shift_linear(a: u32, b: u32)
    ensures
        crc_shift(a ^ b) == crc_shift(a) ^ crc_shift(b),
        a != 0 ==> crc_shift(a) != 0,
{
    assert(((a ^ b) % 2 == 1 ==> ((a ^ b) / 2) ^ 0xEDB8_8320u32 == (if a % 2 == 1 {
        (a / 2) ^ 0xEDB8_8320u32
    } else {
        a / 2
    }) ^ (if b % 2 == 1 {
        (b / 2) ^ 0xEDB8_8320u32
    } else {
        b / 2
    })) && ((a ^ b) % 2 != 1 ==> (a ^ b) / 2 == (if a % 2 == 1 {
        (a / 2) ^ 0xEDB8_8320u32
    } else {
        a / 2
    }) ^ (if b % 2 == 1 {
        (b / 2) ^ 0xEDB8_8320u32
    } else {
        b / 2
    }))) by (bit_vector);
    assert(a != 0 ==> (if a % 2 == 1 {
        (a / 2) ^ 0xEDB8_8320u32
    } else {
        a / 2
    }) != 0) by (bit_vector);
}

/// The CRC register step is linear: the step of a sum is the sum of the steps.
proof fn lemma_crc_byte_linear(c1: u32, c2: u32, x1: u8, x2: u8)
    ensures
        crc_byte(c1 ^ c2, x1 ^ x2) == crc_byte(c1, x1) ^ crc_byte(c2, x2),
{
    let y1 = c1 ^ (x1 as u32);
    let y2 = c2 ^ (x2 as u32);
    assert((c1 ^ c2) ^ ((x1 ^ x2) as u32) == (c1 ^ (x1 as u32)) ^ (c2 ^ (x2 as u32))) by (bit_vector);
    lemma_shift_linear(y1, y2);
    let (a1, b1) = (crc_shift(y1), crc_shift(y2));
    lemma_shift_linear(a1, b1);
    let (a2, b2) = (crc_shift(a1), crc_shift(b1));
    lemma_shift_linear(a2, b2);
    let (a3, b3) = (crc_shift(a2), crc_shift(b2));
    lemma_shift_linear(a3, b3);
    let (a4, b4) = (crc_shift(a3), crc_shift(b3));
    lemma_shift_linear(a4, b4);
    let (a5, b5) = (crc_shift(a4), crc_shift(b4));
    lemma_shift_linear(a5, b5);
    let (a6, b6) = (crc_shift(a5), crc_shift(b5));
    lemma_shift_linear(a6, b6);
    let (a7, b7) = (crc_shift(a6), crc_shift(b6));
    lemma_shift_linear(a7, b7);
}

/// A nonzero register stays nonzero through a step.
proof fn lemma_crc_byte_nonzero(c: u32, x: u8)
    requires
        c ^ (x as u32) != 0,
    ensures
        crc_byte(c, x) != 0,
{
    let y = c ^ (x as u32);
    lemma_shift_linear(y, 0);
    let y1 = crc_shift(y);
    lemma_shift_linear(y1, 0);
    let y2 = crc_shift(y1);
    lemma_shift_linear(y2, 0);
    let y3 = crc_shift(y2);
    lemma_shift_linear(y3, 0);
    let y4 = crc_shift(y3);
    lemma_shift_linear(y4, 0);
    let y5 = crc_shift(y4);
    lemma_shift_linear(y5, 0);
    let y6 = crc_shift(y5);
    lemma_shift_linear(y6, 0);
    let y7 = crc_shift(y6);
    lemma_shift_linear(y7, 0);
}

/// What a change `x` to one byte adds to the CRC register, `z` bytes before the end.
pub open spec fn crc_error(x: u8, z: nat) -> u32
    decreases z,
{
    if z == 0 {
        crc_byte(0, x)
    } else {
        crc_byte(crc_error(x, (z - 1) as nat), 0)
    }
}

proof fn lemma_crc_error_nonzero(x: u8, z: nat)
    requires
        x != 0,
    ensures
        crc_error(x, z) != 0,
    decreases z,
{
    if z == 0 {
        assert(x != 0 ==> 0u32 ^ (x as u32) != 0) by (bit_vector);
        lemma_crc_byte_nonzero(0, x);
    } else {
        lemma_crc_error_nonzero(x, (z - 1) as nat);
        let e = crc_error(x, (z - 1) as nat);
        assert(e != 0 ==> e ^ (0u8 as u32) != 0) by (bit_vector);
        lemma_crc_byte_nonzero(e, 0);
    }
}

/// Changing byte `p` of `b` by `x` changes the CRC register by `crc_error`.
proof fn lemma_crc_flip(b: Seq<u8>, p: int, x: u8)
    requires
        0 <= p < b.len(),
    ensures
        crc_register(b.update(p, b[p] ^ x)) == crc_register(b) ^ crc_error(
            x,
            (b.len() - 1 - p) as nat,
        ),
    decreases b.len(),
{
    let b2 = b.update(p, b[p] ^ x);
    let r = crc_register(b.drop_last());
    let last = b.last();
    assert(r ^ 0u32 == r) by (bit_vector);
    assert(last ^ 0u8 == last) by (bit_vector);
    if p == b.len() - 1 {
        assert(b2.drop_last() =~= b.drop_last());
        assert(b2.last() == last ^ x);
        lemma_crc_byte_linear(r, 0, last, x);
    } else {
        assert(b2.drop_last() =~= b.drop_last().update(p, b.drop_last()[p] ^ x));
        lemma_crc_flip(b.drop_last(), p, x);
        let e = crc_error(x, (b.len() - 2 - p) as nat);
        assert(b2.last() == last);
        lemma_crc_byte_linear(r, e, last, 0);
    }
}

/// Flipping any one bit of a saved image, checksum included, leaves an image
/// that does not load: the CRC-32 catches every single-bit error.
pub proof fn lemma_bit_flip_refused(s: SettingsView, p: int, k: u8)
    requires
        fits_image(s),
        settings_check(s) is Ok,
        0 <= p < WIRE_LEN,
        k < 8,
    ensures
        settings_from(settings_image(s).update(p, settings_image(s)[p] ^ (1u8 << k))) is None,
{
    let d = settings_image(s);
    lemma_image_roundtrip(s);
    assert(d.len() >= WIRE_LEN);
    let m: u8 = 1u8 << k;
    assert(k < 8 ==> (1u8 << k) != 0) by (bit_vector);
    let d2 = d.update(p, d[p] ^ m);
    let body = d.subrange(0, 132);
    assert(crc32_of(body) == le32(d, 132));
    if p < 132 {
        assert(d2.subrange(0, 132) =~= body.update(p, body[p] ^ m));
        assert(le32(d2, 132) == le32(d, 132));
        lemma_crc_flip(body, p, m);
        let e = crc_error(m, (131 - p) as nat);
        lemma_crc_error_nonzero(m, (131 - p) as nat);
        let c = crc_register(body);
        assert(e != 0 ==> c ^ e != c) by (bit_vector);
        assert(c ^ e != c ==> !(c ^ e) != !c) by (bit_vector);
        assert(crc32_of(d2.subrange(0, 132)) != le32(d2, 132));
    } else {
        assert(d2.subrange(0, 132) =~= body);
        let v = d[p];
        assert(m != 0 ==> v ^ m != v) by (bit_vector);
        assert(d2[p] != d[p]);
        assert(le32(d2, 132) != le32(d, 132));
    }
}

proof fn lemma_crc_step(c: u32)
    ensures
        (c >> 1u32) ^ (0xEDB8_8320u32 & 0u32.wrapping_sub(c & 1)) == crc_shift(c),
{
    assert(c & 1 == 0 || c & 1 == 1) by (bit_vector);
    assert(c >> 1u32 == c / 2) by (bit_vector);
    assert(c & 1 == c % 2) by (bit_vector);
    assert((c >> 1u32) ^ (0xEDB8_8320u32 & 0xFFFF_FFFFu32) == (c >> 1u32) ^ 0xEDB8_8320u32) by (
    bit_vector);
    assert((c >> 1u32) ^ (0xEDB8_8320u32 & 0u32) == (c >> 1u32)) by (bit_vector);
}

/// CRC-32 (IEEE) of `data`
fn crc32(data: &[u8]) -> (r: u32)
    ensures
        r == crc32_of(data@),
{
    let mut crc: u32 = 0xFFFF_FFFF;
    let n: usize = data.len();
    let mut i: usize = 0;
    while i < n
        invariant
            n == data@.len(),
            i <= n,
            crc == crc_register(data@.subrange(0, i as int)),
        decreases n - i,
    {
        let b: u8 = data[i];
        let ghost start = crc;
        crc = crc ^ (b as u32);
        let ghost x0 = crc;
        let mut k: u32 = 0;
        while k < 8
            invariant
                k <= 8,
                x0 == start ^ (b as u32),
                crc == (if k == 0 {
                    x0
                } else if k == 1 {
                    crc_shift(x0)
                } else if k == 2 {
                    crc_shift(crc_shift(x0))
                } else if k == 3 {
                    crc_shift(crc_shift(crc_shift(x0)))
                } else if k == 4 {
                    crc_shift(crc_shift(crc_shift(crc_shift(x0))))
                } else if k == 5 {
                    crc_shift(crc_shift(crc_shift(crc_shift(crc_shift(x0)))))
                } else if k == 6 {
                    crc_shift(crc_shift(crc_shift(crc_shift(crc_shift(crc_shift(x0))))))
                } else if k == 7 {
                    crc_shift(crc_shift(crc_shift(crc_shift(crc_shift(crc_shift(crc_shift(x0)))))))
                } else {
                    crc_byte(start, b)
                }),
            decreases 8 - k,
        {
            let mask: u32 = 0u32.wrapping_sub(crc & 1);
            proof {
                lemma_crc_step(crc);
            }
            crc = (crc >> 1) ^ (0xEDB8_8320 & mask);
            k = k + 1;
        }
        assert(data@.subrange(0, i + 1).drop_last() =~= data@.subrange(0, i as int));
        i = i + 1;
    }
    assert(data@.subrange(0, n as int) =~= data@);
    !crc
}

} // verus!
