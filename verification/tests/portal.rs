use mocap_bridge::portal::form::{apply_form, FIELD_KEYS};
use mocap_bridge::portal::html::{push_signed, render_page, render_reboot_page};
use mocap_bridge::portal::{Settings, WIRE_LEN};

fn crc32_ieee(data: &[u8]) -> u32 {
    let mut crc = 0xFFFF_FFFFu32;
    for &b in data {
        crc ^= b as u32;
        for _ in 0..8 {
            crc = if crc & 1 == 1 { (crc >> 1) ^ 0xEDB8_8320 } else { crc >> 1 };
        }
    }
    !crc
}

fn image(s: &Settings) -> [u8; WIRE_LEN] {
    let mut out = [0xAAu8; WIRE_LEN];
    s.to_bytes(&mut out);
    out
}

fn same(a: &Settings, b: &Settings) -> bool {
    a.wifi_ssid == b.wifi_ssid
        && a.wifi_pass == b.wifi_pass
        && a.multicast_addr == b.multicast_addr
        && a.data_port == b.data_port
        && a.natnet_major == b.natnet_major
        && a.natnet_minor == b.natnet_minor
        && a.rigid_body_id == b.rigid_body_id
        && a.mav_sysid == b.mav_sysid
        && a.mav_compid == b.mav_compid
        && a.mavlink_baud == b.mavlink_baud
        && a.vpe_rate_hz == b.vpe_rate_hz
        && a.heartbeat_rate_hz == b.heartbeat_rate_hz
        && a.track_timeout_ms == b.track_timeout_ms
}

#[test]
fn page_fits_portal_buffer() {
    // the portal renders into a 4096-byte page buffer
    let msg = "a fairly long validation error message for the banner";
    let page = render_page(&Settings::default(), Some(msg));
    assert!(page.len() <= 4096);
}

#[test]
fn defaults_match_the_documented_table() {
    let s = Settings::default();
    assert_eq!(s.wifi_ssid.as_str(), "mocap-wifi");
    assert_eq!(s.wifi_pass.as_str(), "mocap-password");
    assert_eq!(s.multicast_addr, [239, 255, 42, 99]);
    assert_eq!(s.data_port, 1511);
    assert_eq!((s.natnet_major, s.natnet_minor), (3, 1));
    assert_eq!(s.rigid_body_id, 32);
    assert_eq!((s.mav_sysid, s.mav_compid), (1, 197));
    assert_eq!(s.mavlink_baud, 921_600);
    assert_eq!((s.vpe_rate_hz, s.heartbeat_rate_hz), (100, 1));
    assert_eq!(s.track_timeout_ms, 200);
    assert_eq!(s.validate(), Ok(()));
}

#[test]
fn image_layout() {
    let mut s = Settings::default();
    s.rigid_body_id = -2;
    let d = image(&s);
    assert_eq!(&d[0..4], b"MCFG");
    assert_eq!(d[4], 1);
    assert_eq!(d[5], 10);
    assert_eq!(d[6], 14);
    assert_eq!(d[7], 0);
    assert_eq!(&d[8..18], b"mocap-wifi");
    assert!(d[18..40].iter().all(|&b| b == 0));
    assert_eq!(&d[40..54], b"mocap-password");
    assert!(d[54..104].iter().all(|&b| b == 0));
    assert_eq!(&d[104..108], &[239, 255, 42, 99]);
    assert_eq!(&d[108..110], &1511u16.to_le_bytes());
    assert_eq!((d[110], d[111]), (3, 1));
    assert_eq!(&d[112..116], &(-2i32).to_le_bytes());
    assert_eq!((d[116], d[117]), (1, 197));
    assert_eq!(&d[118..122], &921_600u32.to_le_bytes());
    assert_eq!(&d[122..124], &100u16.to_le_bytes());
    assert_eq!(&d[124..126], &1u16.to_le_bytes());
    assert_eq!(&d[126..128], &[0, 0]);
    assert_eq!(&d[128..132], &200u32.to_le_bytes());
    assert_eq!(&d[132..136], &crc32_ieee(&d[..132]).to_le_bytes());
}

#[test]
fn crc_is_ieee_crc32() {
    // the check value of CRC-32/ISO-HDLC
    assert_eq!(crc32_ieee(b"123456789"), 0xCBF4_3926);
    let d = image(&Settings::default());
    let stored = u32::from_le_bytes(d[132..136].try_into().unwrap());
    assert_eq!(stored, crc32_ieee(&d[..132]));
}

#[test]
fn image_roundtrip() {
    let mut s = Settings::default();
    s.wifi_ssid = heapless::String::try_from("Café <5G>").unwrap();
    s.wifi_pass = heapless::String::try_from("").unwrap();
    s.rigid_body_id = i32::MIN;
    s.mavlink_baud = 3_000_000;
    s.vpe_rate_hz = 250;
    s.heartbeat_rate_hz = 5;
    let d = image(&s);
    let back = Settings::from_bytes(&d).unwrap();
    assert!(same(&back, &s));
    // trailing bytes beyond the image are ignored
    let mut longer = d.to_vec();
    longer.extend_from_slice(&[1, 2, 3]);
    assert!(same(&Settings::from_bytes(&longer).unwrap(), &s));
}

#[test]
fn damaged_images_are_refused() {
    let d = image(&Settings::default());
    assert!(Settings::from_bytes(&d[..WIRE_LEN - 1]).is_none());
    for i in 0..WIRE_LEN {
        let mut bad = d;
        bad[i] ^= 0x01;
        assert!(Settings::from_bytes(&bad).is_none(), "flip at {i}");
    }
    // erased flash
    assert!(Settings::from_bytes(&[0xFF; WIRE_LEN]).is_none());
    // the erase marker the factory reset writes
    let mut erased = d;
    erased[..4].fill(0);
    assert!(Settings::from_bytes(&erased).is_none());
}

#[test]
fn invalid_settings_do_not_load() {
    let mut s = Settings::default();
    s.data_port = 0;
    let d = image(&s);
    assert!(Settings::from_bytes(&d).is_none());
}

#[test]
fn bad_utf8_or_lengths_do_not_load() {
    let mut d = image(&Settings::default());
    d[8] = 0xFF;
    let crc = crc32_ieee(&d[..132]);
    d[132..136].copy_from_slice(&crc.to_le_bytes());
    assert!(Settings::from_bytes(&d).is_none());
    let mut d = image(&Settings::default());
    d[5] = 33;
    let crc = crc32_ieee(&d[..132]);
    d[132..136].copy_from_slice(&crc.to_le_bytes());
    assert!(Settings::from_bytes(&d).is_none());
}

#[test]
fn validation_rules_in_order() {
    let ok = Settings::default;
    let mut s = ok();
    s.wifi_ssid = heapless::String::new();
    assert_eq!(s.validate(), Err("WiFi SSID must not be empty"));
    let mut s = ok();
    s.multicast_addr[0] = 240;
    assert_eq!(s.validate(), Err("multicast address must be in 224.0.0.0/4"));
    let mut s = ok();
    s.multicast_addr[0] = 224;
    assert_eq!(s.validate(), Ok(()));
    let mut s = ok();
    s.data_port = 0;
    assert_eq!(s.validate(), Err("data port must not be 0"));
    let mut s = ok();
    s.natnet_major = 5;
    assert_eq!(s.validate(), Err("NatNet major version must be 2..=4"));
    let mut s = ok();
    s.mavlink_baud = 9_599;
    assert_eq!(s.validate(), Err("baud must be within 9600..=3000000"));
    let mut s = ok();
    s.heartbeat_rate_hz = 0;
    assert_eq!(s.validate(), Err("rates must be at least 1 Hz"));
    let mut s = ok();
    s.vpe_rate_hz = 101;
    s.heartbeat_rate_hz = 2;
    assert_eq!(s.validate(), Err("VPE rate must be a multiple of the heartbeat rate"));
    let mut s = ok();
    s.vpe_rate_hz = 1;
    s.heartbeat_rate_hz = 2;
    assert_eq!(s.validate(), Err("VPE rate must be a multiple of the heartbeat rate"));
    let mut s = ok();
    s.track_timeout_ms = 9;
    assert_eq!(s.validate(), Err("tracking timeout must be at least 10 ms"));
    // the first broken rule is reported
    let mut s = ok();
    s.data_port = 0;
    s.track_timeout_ms = 0;
    assert_eq!(s.validate(), Err("data port must not be 0"));
}

#[test]
fn form_sets_every_field() {
    let mut s = Settings::default();
    let body = b"ssid=My+Net%21&pass=p%40ss&mcast=+239.1.2.3+&port=1512&nn_major=4&nn_minor=2\
&rbid=-7&sysid=2&compid=196&baud=115200&vpe_hz=50&hb_hz=5&timeout_ms=%20300";
    assert_eq!(apply_form(&mut s, body), Ok(()));
    assert_eq!(s.wifi_ssid.as_str(), "My Net!");
    assert_eq!(s.wifi_pass.as_str(), "p@ss");
    assert_eq!(s.multicast_addr, [239, 1, 2, 3]);
    assert_eq!(s.data_port, 1512);
    assert_eq!((s.natnet_major, s.natnet_minor), (4, 2));
    assert_eq!(s.rigid_body_id, -7);
    assert_eq!((s.mav_sysid, s.mav_compid), (2, 196));
    assert_eq!(s.mavlink_baud, 115_200);
    assert_eq!((s.vpe_rate_hz, s.heartbeat_rate_hz), (50, 5));
    assert_eq!(s.track_timeout_ms, 300);
}

#[test]
fn form_ignores_unknown_keys_and_empty_pieces() {
    let mut s = Settings::default();
    assert_eq!(apply_form(&mut s, b"&&source=qtm&port=+99&&"), Ok(()));
    assert_eq!(s.data_port, 99);
    let mut s = Settings::default();
    assert_eq!(apply_form(&mut s, b""), Ok(()));
    assert!(same(&s, &Settings::default()));
}

#[test]
fn form_errors() {
    let cases: [(&[u8], &str); 13] = [
        (b"ssid", "malformed form field (no '=')"),
        (b"port=%4", "truncated percent-escape"),
        (b"port=%zz", "bad percent-escape hex"),
        (b"port=%4g", "bad percent-escape hex"),
        (b"averyveryverylongkey=1", "form value too long"),
        (b"%FF=1", "form key is not UTF-8"),
        (b"ssid=%C3", "form value is not UTF-8"),
        (b"ssid=123456789012345678901234567890123", "SSID too long (max 32)"),
        (b"port=70000", "field is not a valid number"),
        (b"sysid=-1", "field is not a valid number"),
        (b"mcast=1.2.3", "multicast address needs 4 octets"),
        (b"mcast=1.2.3.4.5", "multicast address needs exactly 4 octets"),
        (b"mcast=1.2. 3.4", "multicast octet is not 0-255"),
    ];
    for (body, err) in cases {
        let mut s = Settings::default();
        assert_eq!(apply_form(&mut s, body), Err(err), "{:?}", String::from_utf8_lossy(body));
    }
}

#[test]
fn form_keeps_fields_before_an_error_and_validates_last() {
    let mut s = Settings::default();
    assert_eq!(apply_form(&mut s, b"port=2000&baud=x&sysid=9"), Err("field is not a valid number"));
    assert_eq!(s.data_port, 2000);
    assert_eq!(s.mav_sysid, 1);
    let mut s = Settings::default();
    assert_eq!(apply_form(&mut s, b"ssid="), Err("WiFi SSID must not be empty"));
    assert_eq!(s.wifi_ssid.as_str(), "");
}

#[test]
fn form_value_length_limit_is_64_decoded_bytes() {
    let mut s = Settings::default();
    let long = format!("pass={}", "a".repeat(64));
    assert_eq!(apply_form(&mut s, long.as_bytes()), Ok(()));
    assert_eq!(s.wifi_pass.len(), 64);
    let longer = format!("pass={}", "a".repeat(65));
    assert_eq!(apply_form(&mut s, longer.as_bytes()), Err("form value too long"));
}

#[test]
fn page_shows_escaped_settings_and_banner() {
    let mut s = Settings::default();
    s.wifi_ssid = heapless::String::try_from("a\"<b>&c").unwrap();
    s.rigid_body_id = -12;
    let page = render_page(&s, Some("bad <thing>"));
    assert!(page.contains("<p class=\"msg\">bad &lt;thing&gt;</p>"));
    assert!(page.contains("name=\"ssid\" value=\"a&quot;&lt;b&gt;&amp;c\""));
    assert!(page.contains("name=\"rbid\" type=\"number\" value=\"-12\""));
    assert!(page.contains("value=\"239.255.42.99\""));
    assert!(page.contains("value=\"921600\""));
    assert!(page.contains("value=\"200\""));
    assert!(page.starts_with("<!DOCTYPE html>"));
    assert!(page.ends_with("</body></html>"));
    let plain = render_page(&Settings::default(), None);
    assert!(!plain.contains("class=\"msg\""));
}

#[test]
fn reboot_page() {
    let page = render_reboot_page();
    assert!(page.contains("<h1>Settings saved</h1>"));
}

#[test]
fn saved_form_reloads() {
    let mut s = Settings::default();
    assert_eq!(apply_form(&mut s, b"ssid=lab&pass=secret&rbid=3"), Ok(()));
    let back = Settings::from_bytes(&image(&s)).unwrap();
    assert!(same(&back, &s));
}

#[test]
fn erased_image_is_refused() {
    let mut img = image(&Settings::default());
    assert!(Settings::from_bytes(&img).is_some());
    img[..4].copy_from_slice(&[0u8; 4]);
    assert!(Settings::from_bytes(&img).is_none());
}

#[test]
fn every_listed_key_is_a_form_field() {
    assert_eq!(FIELD_KEYS.len(), 13);
    for key in FIELD_KEYS {
        // an unknown key would be ignored: the settings would stay as they were
        let body = format!("{key}=2");
        let mut s = Settings::default();
        let r = apply_form(&mut s, body.as_bytes());
        assert!(r.is_err() || !same(&s, &Settings::default()), "key {key} was ignored");
    }
    let mut s = Settings::default();
    assert_eq!(apply_form(&mut s, b"source=2"), Ok(()));
    assert!(same(&s, &Settings::default()));
}

#[test]
fn signed_values_render_in_full() {
    let mut out = String::new();
    push_signed(&mut out, i64::MIN);
    assert_eq!(out, "-9223372036854775808");
    let mut out = String::from("x=");
    push_signed(&mut out, -7);
    push_signed(&mut out, 42);
    assert_eq!(out, "x=-742");
}

#[test]
fn page_address_reads_back_through_the_form() {
    for a in [[239u8, 255, 42, 99], [224, 0, 0, 0], [239, 9, 10, 255], [230, 100, 1, 7]] {
        let mut s = Settings::default();
        s.multicast_addr = a;
        let page = render_page(&s, None);
        let shown = format!("{}.{}.{}.{}", a[0], a[1], a[2], a[3]);
        assert!(page.contains(&format!("value=\"{shown}\"")));
        let mut t = Settings::default();
        assert_eq!(apply_form(&mut t, format!("mcast={shown}").as_bytes()), Ok(()));
        assert_eq!(t.multicast_addr, a);
    }
}
