//! Portal HTML

use vstd::prelude::*;

use crate::portal::bounded::{string32_as_str, string64_as_str};
use crate::portal::{Settings, SettingsView};

verus! {

/// The text of a character as HTML text: `& < > "` become entities.
pub open spec fn escape_char(c: char) -> Seq<char> {
    if c == '&' {
        "&amp;"@
    } else if c == '<' {
        "&lt;"@
    } else if c == '>' {
        "&gt;"@
    } else if c == '"' {
        "&quot;"@
    } else {
        seq![c]
    }
}

/// `s` escaped for HTML text and attribute values.
pub open spec fn escaped(s: Seq<char>) -> Seq<char>
    decreases s.len(),
{
    if s.len() == 0 {
        Seq::empty()
    } else {
        escaped(s.drop_last()) + escape_char(s.last())
    }
}

pub open spec fn digit_char(d: int) -> char {
    if d == 0 {
        '0'
    } else if d == 1 {
        '1'
    } else if d == 2 {
        '2'
    } else if d == 3 {
        '3'
    } else if d == 4 {
        '4'
    } else if d == 5 {
        '5'
    } else if d == 6 {
        '6'
    } else if d == 7 {
        '7'
    } else if d == 8 {
        '8'
    } else {
        '9'
    }
}

/// Decimal digits of `n`, without leading zeros.
pub open spec fn decimal(n: nat) -> Seq<char>
    decreases n,
{
    if n < 10 {
        seq![digit_char(n as int)]
    } else {
        decimal(n / 10) + seq![digit_char((n % 10) as int)]
    }
}

/// Decimal text of a signed value.
pub open spec fn signed_decimal(v: int) -> Seq<char> {
    if v < 0 {
        seq!['-'] + decimal((-v) as nat)
    } else {
        decimal(v as nat)
    }
}

fn digit_str(d: u64) -> (r: &'static str)
    requires
        d < 10,
    ensures
        r@ == seq![digit_char(d as int)],
{
    if d == 0 {
        proof {
            reveal_strlit("0");
        }
        "0"
    } else if d == 1 {
        proof {
            reveal_strlit("1");
        }
        "1"
    } else if d == 2 {
        proof {
            reveal_strlit("2");
        }
        "2"
    } else if d == 3 {
        proof {
            reveal_strlit("3");
        }
        "3"
    } else if d == 4 {
        proof {
            reveal_strlit("4");
        }
        "4"
    } else if d == 5 {
        proof {
            reveal_strlit("5");
        }
        "5"
    } else if d == 6 {
        proof {
            reveal_strlit("6");
        }
        "6"
    } else if d == 7 {
        proof {
            reveal_strlit("7");
        }
        "7"
    } else if d == 8 {
        proof {
            reveal_strlit("8");
        }
        "8"
    } else {
        proof {
            reveal_strlit("9");
        }
        "9"
    }
}

/// Appends the decimal digits of `n`.
pub fn push_decimal(out: &mut String, n: u64)
    ensures
        final(out)@ == old(out)@ + decimal(n as nat),
    decreases n,
{
    if n >= 10 {
        push_decimal(out, n / 10);
    }
    out.append(digit_str(n % 10));
}

/// Appends the decimal text of `v`.
pub fn push_signed(out: &mut String, v: i64)
    ensures
        final(out)@ == old(out)@ + signed_decimal(v as int),
{
    if v < 0 {
        proof {
            reveal_strlit("-");
        }
        out.append("-");
        // the magnitude of a negative `i64` always fits a `u64`
        let magnitude: u64 = if v == i64::MIN {
            0x8000_0000_0000_0000u64
        } else {
            (-v) as u64
        };
        push_decimal(out, magnitude);
        assert(final(out)@ =~= old(out)@ + signed_decimal(v as int));
    } else {
        push_decimal(out, v as u64);
    }
}

/// Appends `s` escaped for HTML.
pub fn push_escaped(out: &mut String, s: &str)
    ensures
        final(out)@ == old(out)@ + escaped(s@),
{
    let n: usize = s.unicode_len();
    let mut i: usize = 0;
    while i < n
        invariant
            n == s@.len(),
            i <= n,
            out@ == old(out)@ + escaped(s@.take(i as int)),
        decreases n - i,
    {
        let c: char = s.get_char(i);
        let ghost before = out@;
        if c == '&' {
            out.append("&amp;");
        } else if c == '<' {
            out.append("&lt;");
        } else if c == '>' {
            out.append("&gt;");
        } else if c == '"' {
            out.append("&quot;");
        } else {
            out.append(s.substring_char(i, i + 1));
            assert(s@.subrange(i as int, i + 1) =~= seq![c]);
        }
        assert(s@.take(i + 1).drop_last() =~= s@.take(i as int));
        assert(out@ =~= old(out)@ + escaped(s@.take(i + 1)));
        i = i + 1;
    }
    assert(s@.take(n as int) =~= s@);
}

pub const PAGE_HEAD: &'static str = "<!DOCTYPE html><html><head><meta name=\"viewport\" content=\"width=device-width, initial-scale=1\"><title>Mocap Bridge Setup</title><style>body{font-family:sans-serif;max-width:30em;margin:2em auto;padding:0 1em}label{display:block;margin:.8em 0 .2em}input,select{width:100%;box-sizing:border-box;padding:.4em}fieldset{margin:1em 0;border:1px solid #aaa;border-radius:4px}button{margin-top:1.2em;padding:.6em 1.2em;font-size:1em}.msg{padding:.6em;border:1px solid #c00;border-radius:4px;color:#c00}.note{color:#666;font-size:.85em}</style></head><body><h1>Mocap Bridge Setup</h1>";

pub const MSG_OPEN: &'static str = "<p class=\"msg\">";

pub const MSG_CLOSE: &'static str = "</p>";

pub const FORM_SSID: &'static str = "<form method=\"POST\" action=\"/save\"><fieldset><legend>WiFi (mocap network)</legend><label>SSID</label><input name=\"ssid\" value=\"";

pub const FORM_PASS: &'static str = "\" maxlength=\"32\" required><label>Password</label><input name=\"pass\" value=\"";

pub const FORM_RBID: &'static str = "\" maxlength=\"64\"></fieldset><fieldset><legend>Mocap system</legend><label>Rigid body</label><input name=\"rbid\" type=\"number\" value=\"";

pub const FORM_MCAST: &'static str = "\"><p class=\"note\">OptiTrack: the Streaming ID.</p></fieldset><fieldset><legend>NatNet (OptiTrack only)</legend><label>Multicast address</label><input name=\"mcast\" value=\"";

pub const DOT: &'static str = ".";

pub const FORM_PORT: &'static str = "\"><label>Data port</label><input name=\"port\" type=\"number\" min=\"1\" max=\"65535\" value=\"";

pub const FORM_NN_MAJOR: &'static str = "\"><label>NatNet version major</label><input name=\"nn_major\" type=\"number\" min=\"2\" max=\"4\" value=\"";

pub const FORM_NN_MINOR: &'static str = "\"><label>NatNet version minor</label><input name=\"nn_minor\" type=\"number\" min=\"0\" max=\"255\" value=\"";

pub const FORM_SYSID: &'static str = "\"></fieldset><fieldset><legend>MAVLink (flight controller)</legend><label>System id</label><input name=\"sysid\" type=\"number\" min=\"1\" max=\"255\" value=\"";

pub const FORM_COMPID: &'static str = "\"><label>Component id</label><input name=\"compid\" type=\"number\" min=\"1\" max=\"255\" value=\"";

pub const FORM_BAUD: &'static str = "\"><label>UART baud</label><input name=\"baud\" type=\"number\" value=\"";

pub const FORM_VPE: &'static str = "\"><label>VPE rate (Hz)</label><input name=\"vpe_hz\" type=\"number\" min=\"1\" max=\"1000\" value=\"";

pub const FORM_HB: &'static str = "\"><label>Heartbeat rate (Hz)</label><input name=\"hb_hz\" type=\"number\" min=\"1\" max=\"100\" value=\"";

pub const FORM_TIMEOUT: &'static str = "\"><label>Tracking timeout (ms)</label><input name=\"timeout_ms\" type=\"number\" min=\"10\" value=\"";

pub const FORM_TAIL: &'static str = "\"></fieldset><button type=\"submit\">Save &amp; restart with new settings</button></form><p class=\"note\">If the device can't join your network after saving, hold the BOOT button for 3 seconds to erase the settings and return to this setup page.</p></body></html>";

pub const REBOOT_PAGE: &'static str = "<!DOCTYPE html><html><head><meta name=\"viewport\" content=\"width=device-width, initial-scale=1\"><title>Rebooting</title></head><body style=\"font-family:sans-serif;max-width:30em;margin:2em auto\"><h1>Settings saved</h1><p>The bridge is restarting and will now connect to your network. This access point will disappear.</p><p>To change settings later, hold the BOOT button for 3 seconds then the device returns to setup mode with default settings.</p></body></html>";

/// The settings page: the form prefilled from `s`, after the error banner `msg` if any.
pub open spec fn page_text(s: SettingsView, msg: Option<Seq<char>>) -> Seq<char> {
    PAGE_HEAD@ + match msg {
        Some(m) => MSG_OPEN@ + escaped(m) + MSG_CLOSE@,
        None => Seq::empty(),
    } + FORM_SSID@ + escaped(s.wifi_ssid) + FORM_PASS@ + escaped(s.wifi_pass) + FORM_RBID@
        + signed_decimal(s.rigid_body_id as int) + FORM_MCAST@ + decimal(
        s.multicast_addr[0] as nat,
    ) + DOT@ + decimal(s.multicast_addr[1] as nat) + DOT@ + decimal(s.multicast_addr[2] as nat)
        + DOT@ + decimal(s.multicast_addr[3] as nat) + FORM_PORT@ + decimal(s.data_port as nat)
        + FORM_NN_MAJOR@ + decimal(s.natnet_major as nat) + FORM_NN_MINOR@ + decimal(
        s.natnet_minor as nat,
    ) + FORM_SYSID@ + decimal(s.mav_sysid as nat) + FORM_COMPID@ + decimal(s.mav_compid as nat)
        + FORM_BAUD@ + decimal(s.mavlink_baud as nat) + FORM_VPE@ + decimal(s.vpe_rate_hz as nat)
        + FORM_HB@ + decimal(s.heartbeat_rate_hz as nat) + FORM_TIMEOUT@ + decimal(
        s.track_timeout_ms as nat,
    ) + FORM_TAIL@
}

/// Whether `w` occurs somewhere in `t`.
pub open spec fn shows(t: Seq<char>, w: Seq<char>) -> bool {
    exists|i: int| 0 <= i && i + w.len() <= t.len() && #[trigger] t.subrange(i, i + w.len()) == w
}

proof fn lemma_shows_extend(x: Seq<char>, y: Seq<char>, w: Seq<char>)
    requires
        shows(x, w),
    ensures
        shows(x + y, w),
{
    let i = choose|i: int| 0 <= i && i + w.len() <= x.len() && #[trigger] x.subrange(i, i + w.len()) == w;
    assert((x + y).subrange(i, i + w.len()) =~= x.subrange(i, i + w.len()));
}

/// An input whose tag ends with `lit`, followed by the value `d` and a closing quote.
proof fn lemma_input_shows(z: Seq<char>, tag: Seq<char>, lit: Seq<char>, d: Seq<char>, next: Seq<char>)
    requires
        tag.len() >= lit.len(),
        tag.subrange(tag.len() - lit.len(), tag.len() as int) == lit,
        next.len() > 0,
        next[0] == '"',
    ensures
        shows(z + tag + d + next, lit + d + seq!['"']),
{
    let t = z + tag + d + next;
    let w = lit + d + seq!['"'];
    let i = z.len() + tag.len() - lit.len();
    assert(t.subrange(i, i + w.len()) =~= w);
}

/// The text "a.b.c.d" of the octets `a`, as the page writes the multicast address.
pub open spec fn quad_text(a: [u8; 4]) -> Seq<char> {
    decimal(a[0] as nat) + DOT@ + decimal(a[1] as nat) + DOT@ + decimal(a[2] as nat) + DOT@
        + decimal(a[3] as nat)
}

proof fn lemma_shows_ssid(s: SettingsView, msg: Option<Seq<char>>)
    ensures
        shows(page_text(s, msg), "name=\"ssid\" value=\""@ + escaped(s.wifi_ssid) + seq!['"']),
{
    reveal_strlit("name=\"ssid\" value=\"");
    reveal_strlit("<form method=\"POST\" action=\"/save\"><fieldset><legend>WiFi (mocap network)</legend><label>SSID</label><input name=\"ssid\" value=\"");
    reveal_strlit("\" maxlength=\"32\" required><label>Password</label><input name=\"pass\" value=\"");
    let lit = "name=\"ssid\" value=\""@;
    let w = lit + escaped(s.wifi_ssid) + seq!['"'];
    assert(FORM_SSID@.subrange(FORM_SSID@.len() - lit.len(), FORM_SSID@.len() as int) =~= lit);
    assert forall|x: Seq<char>, y: Seq<char>| shows(x, w) implies #[trigger] shows(x + y, w) by {
        lemma_shows_extend(x, y, w);
    }
    assert forall|z: Seq<char>| #[trigger] shows(((z + FORM_SSID@) + escaped(s.wifi_ssid)) + FORM_PASS@, w) by {
        lemma_input_shows(z, FORM_SSID@, lit, escaped(s.wifi_ssid), FORM_PASS@);
    }
    assert(shows(page_text(s, msg), w));
}

proof fn lemma_shows_pass(s: SettingsView, msg: Option<Seq<char>>)
    ensures
        shows(page_text(s, msg), "name=\"pass\" value=\""@ + escaped(s.wifi_pass) + seq!['"']),
{
    reveal_strlit("name=\"pass\" value=\"");
    reveal_strlit("\" maxlength=\"32\" required><label>Password</label><input name=\"pass\" value=\"");
    reveal_strlit("\" maxlength=\"64\"></fieldset><fieldset><legend>Mocap system</legend><label>Rigid body</label><input name=\"rbid\" type=\"number\" value=\"");
    let lit = "name=\"pass\" value=\""@;
    let w = lit + escaped(s.wifi_pass) + seq!['"'];
    assert(FORM_PASS@.subrange(FORM_PASS@.len() - lit.len(), FORM_PASS@.len() as int) =~= lit);
    assert forall|x: Seq<char>, y: Seq<char>| shows(x, w) implies #[trigger] shows(x + y, w) by {
        lemma_shows_extend(x, y, w);
    }
    assert forall|z: Seq<char>| #[trigger] shows(((z + FORM_PASS@) + escaped(s.wifi_pass)) + FORM_RBID@, w) by {
        lemma_input_shows(z, FORM_PASS@, lit, escaped(s.wifi_pass), FORM_RBID@);
    }
    assert(shows(page_text(s, msg), w));
}

proof fn lemma_shows_rbid(s: SettingsView, msg: Option<Seq<char>>)
    ensures
        shows(page_text(s, msg), "name=\"rbid\" type=\"number\" value=\""@ + signed_decimal(s.rigid_body_id as int) + seq!['"']),
{
    reveal_strlit("name=\"rbid\" type=\"number\" value=\"");
    reveal_strlit("\" maxlength=\"64\"></fieldset><fieldset><legend>Mocap system</legend><label>Rigid body</label><input name=\"rbid\" type=\"number\" value=\"");
    reveal_strlit("\"><p class=\"note\">OptiTrack: the Streaming ID.</p></fieldset><fieldset><legend>NatNet (OptiTrack only)</legend><label>Multicast address</label><input name=\"mcast\" value=\"");
    let lit = "name=\"rbid\" type=\"number\" value=\""@;
    let w = lit + signed_decimal(s.rigid_body_id as int) + seq!['"'];
    assert(FORM_RBID@.subrange(FORM_RBID@.len() - lit.len(), FORM_RBID@.len() as int) =~= lit);
    assert forall|x: Seq<char>, y: Seq<char>| shows(x, w) implies #[trigger] shows(x + y, w) by {
        lemma_shows_extend(x, y, w);
    }
    assert forall|z: Seq<char>| #[trigger] shows(((z + FORM_RBID@) + signed_decimal(s.rigid_body_id as int)) + FORM_MCAST@, w) by {
        lemma_input_shows(z, FORM_RBID@, lit, signed_decimal(s.rigid_body_id as int), FORM_MCAST@);
    }
    assert(shows(page_text(s, msg), w));
}

proof fn lemma_shows_port(s: SettingsView, msg: Option<Seq<char>>)
    ensures
        shows(page_text(s, msg), "name=\"port\" type=\"number\" min=\"1\" max=\"65535\" value=\""@ + decimal(s.data_port as nat) + seq!['"']),
{
    reveal_strlit("name=\"port\" type=\"number\" min=\"1\" max=\"65535\" value=\"");
    reveal_strlit("\"><label>Data port</label><input name=\"port\" type=\"number\" min=\"1\" max=\"65535\" value=\"");
    reveal_strlit("\"><label>NatNet version major</label><input name=\"nn_major\" type=\"number\" min=\"2\" max=\"4\" value=\"");
    let lit = "name=\"port\" type=\"number\" min=\"1\" max=\"65535\" value=\""@;
    let w = lit + decimal(s.data_port as nat) + seq!['"'];
    assert(FORM_PORT@.subrange(FORM_PORT@.len() - lit.len(), FORM_PORT@.len() as int) =~= lit);
    assert forall|x: Seq<char>, y: Seq<char>| shows(x, w) implies #[trigger] shows(x + y, w) by {
        lemma_shows_extend(x, y, w);
    }
    assert forall|z: Seq<char>| #[trigger] shows(((z + FORM_PORT@) + decimal(s.data_port as nat)) + FORM_NN_MAJOR@, w) by {
        lemma_input_shows(z, FORM_PORT@, lit, decimal(s.data_port as nat), FORM_NN_MAJOR@);
    }
    assert(shows(page_text(s, msg), w));
}

proof fn lemma_shows_nn_major(s: SettingsView, msg: Option<Seq<char>>)
    ensures
        shows(page_text(s, msg), "name=\"nn_major\" type=\"number\" min=\"2\" max=\"4\" value=\""@ + decimal(s.natnet_major as nat) + seq!['"']),
{
    reveal_strlit("name=\"nn_major\" type=\"number\" min=\"2\" max=\"4\" value=\"");
    reveal_strlit("\"><label>NatNet version major</label><input name=\"nn_major\" type=\"number\" min=\"2\" max=\"4\" value=\"");
    reveal_strlit("\"><label>NatNet version minor</label><input name=\"nn_minor\" type=\"number\" min=\"0\" max=\"255\" value=\"");
    let lit = "name=\"nn_major\" type=\"number\" min=\"2\" max=\"4\" value=\""@;
    let w = lit + decimal(s.natnet_major as nat) + seq!['"'];
    assert(FORM_NN_MAJOR@.subrange(FORM_NN_MAJOR@.len() - lit.len(), FORM_NN_MAJOR@.len() as int) =~= lit);
    assert forall|x: Seq<char>, y: Seq<char>| shows(x, w) implies #[trigger] shows(x + y, w) by {
        lemma_shows_extend(x, y, w);
    }
    assert forall|z: Seq<char>| #[trigger] shows(((z + FORM_NN_MAJOR@) + decimal(s.natnet_major as nat)) + FORM_NN_MINOR@, w) by {
        lemma_input_shows(z, FORM_NN_MAJOR@, lit, decimal(s.natnet_major as nat), FORM_NN_MINOR@);
    }
    assert(shows(page_text(s, msg), w));
}

proof fn lemma_shows_nn_minor(s: SettingsView, msg: Option<Seq<char>>)
    ensures
        shows(page_text(s, msg), "name=\"nn_minor\" type=\"number\" min=\"0\" max=\"255\" value=\""@ + decimal(s.natnet_minor as nat) + seq!['"']),
{
    reveal_strlit("name=\"nn_minor\" type=\"number\" min=\"0\" max=\"255\" value=\"");
    reveal_strlit("\"><label>NatNet version minor</label><input name=\"nn_minor\" type=\"number\" min=\"0\" max=\"255\" value=\"");
    reveal_strlit("\"></fieldset><fieldset><legend>MAVLink (flight controller)</legend><label>System id</label><input name=\"sysid\" type=\"number\" min=\"1\" max=\"255\" value=\"");
    let lit = "name=\"nn_minor\" type=\"number\" min=\"0\" max=\"255\" value=\""@;
    let w = lit + decimal(s.natnet_minor as nat) + seq!['"'];
    assert(FORM_NN_MINOR@.subrange(FORM_NN_MINOR@.len() - lit.len(), FORM_NN_MINOR@.len() as int) =~= lit);
    assert forall|x: Seq<char>, y: Seq<char>| shows(x, w) implies #[trigger] shows(x + y, w) by {
        lemma_shows_extend(x, y, w);
    }
    assert forall|z: Seq<char>| #[trigger] shows(((z + FORM_NN_MINOR@) + decimal(s.natnet_minor as nat)) + FORM_SYSID@, w) by {
        lemma_input_shows(z, FORM_NN_MINOR@, lit, decimal(s.natnet_minor as nat), FORM_SYSID@);
    }
    assert(shows(page_text(s, msg), w));
}

proof fn lemma_shows_sysid(s: SettingsView, msg: Option<Seq<char>>)
    ensures
        shows(page_text(s, msg), "name=\"sysid\" type=\"number\" min=\"1\" max=\"255\" value=\""@ + decimal(s.mav_sysid as nat) + seq!['"']),
{
    reveal_strlit("name=\"sysid\" type=\"number\" min=\"1\" max=\"255\" value=\"");
    reveal_strlit("\"></fieldset><fieldset><legend>MAVLink (flight controller)</legend><label>System id</label><input name=\"sysid\" type=\"number\" min=\"1\" max=\"255\" value=\"");
    reveal_strlit("\"><label>Component id</label><input name=\"compid\" type=\"number\" min=\"1\" max=\"255\" value=\"");
    let lit = "name=\"sysid\" type=\"number\" min=\"1\" max=\"255\" value=\""@;
    let w = lit + decimal(s.mav_sysid as nat) + seq!['"'];
    assert(FORM_SYSID@.subrange(FORM_SYSID@.len() - lit.len(), FORM_SYSID@.len() as int) =~= lit);
    assert forall|x: Seq<char>, y: Seq<char>| shows(x, w) implies #[trigger] shows(x + y, w) by {
        lemma_shows_extend(x, y, w);
    }
    assert forall|z: Seq<char>| #[trigger] shows(((z + FORM_SYSID@) + decimal(s.mav_sysid as nat)) + FORM_COMPID@, w) by {
        lemma_input_shows(z, FORM_SYSID@, lit, decimal(s.mav_sysid as nat), FORM_COMPID@);
    }
    assert(shows(page_text(s, msg), w));
}

proof fn lemma_shows_compid(s: SettingsView, msg: Option<Seq<char>>)
    ensures
        shows(page_text(s, msg), "name=\"compid\" type=\"number\" min=\"1\" max=\"255\" value=\""@ + decimal(s.mav_compid as nat) + seq!['"']),
{
    reveal_strlit("name=\"compid\" type=\"number\" min=\"1\" max=\"255\" value=\"");
    reveal_strlit("\"><label>Component id</label><input name=\"compid\" type=\"number\" min=\"1\" max=\"255\" value=\"");
    reveal_strlit("\"><label>UART baud</label><input name=\"baud\" type=\"number\" value=\"");
    let lit = "name=\"compid\" type=\"number\" min=\"1\" max=\"255\" value=\""@;
    let w = lit + decimal(s.mav_compid as nat) + seq!['"'];
    assert(FORM_COMPID@.subrange(FORM_COMPID@.len() - lit.len(), FORM_COMPID@.len() as int) =~= lit);
    assert forall|x: Seq<char>, y: Seq<char>| shows(x, w) implies #[trigger] shows(x + y, w) by {
        lemma_shows_extend(x, y, w);
    }
    assert forall|z: Seq<char>| #[trigger] shows(((z + FORM_COMPID@) + decimal(s.mav_compid as nat)) + FORM_BAUD@, w) by {
        lemma_input_shows(z, FORM_COMPID@, lit, decimal(s.mav_compid as nat), FORM_BAUD@);
    }
    assert(shows(page_text(s, msg), w));
}

proof fn lemma_shows_baud(s: SettingsView, msg: Option<Seq<char>>)
    ensures
        shows(page_text(s, msg), "name=\"baud\" type=\"number\" value=\""@ + decimal(s.mavlink_baud as nat) + seq!['"']),
{
    reveal_strlit("name=\"baud\" type=\"number\" value=\"");
    reveal_strlit("\"><label>UART baud</label><input name=\"baud\" type=\"number\" value=\"");
    reveal_strlit("\"><label>VPE rate (Hz)</label><input name=\"vpe_hz\" type=\"number\" min=\"1\" max=\"1000\" value=\"");
    let lit = "name=\"baud\" type=\"number\" value=\""@;
    let w = lit + decimal(s.mavlink_baud as nat) + seq!['"'];
    assert(FORM_BAUD@.subrange(FORM_BAUD@.len() - lit.len(), FORM_BAUD@.len() as int) =~= lit);
    assert forall|x: Seq<char>, y: Seq<char>| shows(x, w) implies #[trigger] shows(x + y, w) by {
        lemma_shows_extend(x, y, w);
    }
    assert forall|z: Seq<char>| #[trigger] shows(((z + FORM_BAUD@) + decimal(s.mavlink_baud as nat)) + FORM_VPE@, w) by {
        lemma_input_shows(z, FORM_BAUD@, lit, decimal(s.mavlink_baud as nat), FORM_VPE@);
    }
    assert(shows(page_text(s, msg), w));
}

proof fn lemma_shows_vpe_hz(s: SettingsView, msg: Option<Seq<char>>)
    ensures
        shows(page_text(s, msg), "name=\"vpe_hz\" type=\"number\" min=\"1\" max=\"1000\" value=\""@ + decimal(s.vpe_rate_hz as nat) + seq!['"']),
{
    reveal_strlit("name=\"vpe_hz\" type=\"number\" min=\"1\" max=\"1000\" value=\"");
    reveal_strlit("\"><label>VPE rate (Hz)</label><input name=\"vpe_hz\" type=\"number\" min=\"1\" max=\"1000\" value=\"");
    reveal_strlit("\"><label>Heartbeat rate (Hz)</label><input name=\"hb_hz\" type=\"number\" min=\"1\" max=\"100\" value=\"");
    let lit = "name=\"vpe_hz\" type=\"number\" min=\"1\" max=\"1000\" value=\""@;
    let w = lit + decimal(s.vpe_rate_hz as nat) + seq!['"'];
    assert(FORM_VPE@.subrange(FORM_VPE@.len() - lit.len(), FORM_VPE@.len() as int) =~= lit);
    assert forall|x: Seq<char>, y: Seq<char>| shows(x, w) implies #[trigger] shows(x + y, w) by {
        lemma_shows_extend(x, y, w);
    }
    assert forall|z: Seq<char>| #[trigger] shows(((z + FORM_VPE@) + decimal(s.vpe_rate_hz as nat)) + FORM_HB@, w) by {
        lemma_input_shows(z, FORM_VPE@, lit, decimal(s.vpe_rate_hz as nat), FORM_HB@);
    }
    assert(shows(page_text(s, msg), w));
}

proof fn lemma_shows_hb_hz(s: SettingsView, msg: Option<Seq<char>>)
    ensures
        shows(page_text(s, msg), "name=\"hb_hz\" type=\"number\" min=\"1\" max=\"100\" value=\""@ + decimal(s.heartbeat_rate_hz as nat) + seq!['"']),
{
    reveal_strlit("name=\"hb_hz\" type=\"number\" min=\"1\" max=\"100\" value=\"");
    reveal_strlit("\"><label>Heartbeat rate (Hz)</label><input name=\"hb_hz\" type=\"number\" min=\"1\" max=\"100\" value=\"");
    reveal_strlit("\"><label>Tracking timeout (ms)</label><input name=\"timeout_ms\" type=\"number\" min=\"10\" value=\"");
    let lit = "name=\"hb_hz\" type=\"number\" min=\"1\" max=\"100\" value=\""@;
    let w = lit + decimal(s.heartbeat_rate_hz as nat) + seq!['"'];
    assert(FORM_HB@.subrange(FORM_HB@.len() - lit.len(), FORM_HB@.len() as int) =~= lit);
    assert forall|x: Seq<char>, y: Seq<char>| shows(x, w) implies #[trigger] shows(x + y, w) by {
        lemma_shows_extend(x, y, w);
    }
    assert forall|z: Seq<char>| #[trigger] shows(((z + FORM_HB@) + decimal(s.heartbeat_rate_hz as nat)) + FORM_TIMEOUT@, w) by {
        lemma_input_shows(z, FORM_HB@, lit, decimal(s.heartbeat_rate_hz as nat), FORM_TIMEOUT@);
    }
    assert(shows(page_text(s, msg), w));
}

proof fn lemma_shows_timeout_ms(s: SettingsView, msg: Option<Seq<char>>)
    ensures
        shows(page_text(s, msg), "name=\"timeout_ms\" type=\"number\" min=\"10\" value=\""@ + decimal(s.track_timeout_ms as nat) + seq!['"']),
{
    reveal_strlit("name=\"timeout_ms\" type=\"number\" min=\"10\" value=\"");
    reveal_strlit("\"><label>Tracking timeout (ms)</label><input name=\"timeout_ms\" type=\"number\" min=\"10\" value=\"");
    reveal_strlit("\"></fieldset><button type=\"submit\">Save &amp; restart with new settings</button></form><p class=\"note\">If the device can't join your network after saving, hold the BOOT button for 3 seconds to erase the settings and return to this setup page.</p></body></html>");
    let lit = "name=\"timeout_ms\" type=\"number\" min=\"10\" value=\""@;
    let w = lit + decimal(s.track_timeout_ms as nat) + seq!['"'];
    assert(FORM_TIMEOUT@.subrange(FORM_TIMEOUT@.len() - lit.len(), FORM_TIMEOUT@.len() as int) =~= lit);
    assert forall|x: Seq<char>, y: Seq<char>| shows(x, w) implies #[trigger] shows(x + y, w) by {
        lemma_shows_extend(x, y, w);
    }
    assert forall|z: Seq<char>| #[trigger] shows(((z + FORM_TIMEOUT@) + decimal(s.track_timeout_ms as nat)) + FORM_TAIL@, w) by {
        lemma_input_shows(z, FORM_TIMEOUT@, lit, decimal(s.track_timeout_ms as nat), FORM_TAIL@);
    }
    assert(shows(page_text(s, msg), w));
}

proof fn lemma_shows_mcast(s: SettingsView, msg: Option<Seq<char>>)
    ensures
        shows(page_text(s, msg), "name=\"mcast\" value=\""@ + quad_text(s.multicast_addr) + seq!['"']),
{
    reveal_strlit("name=\"mcast\" value=\"");
    reveal_strlit("\"><p class=\"note\">OptiTrack: the Streaming ID.</p></fieldset><fieldset><legend>NatNet (OptiTrack only)</legend><label>Multicast address</label><input name=\"mcast\" value=\"");
    reveal_strlit("\"><label>Data port</label><input name=\"port\" type=\"number\" min=\"1\" max=\"65535\" value=\"");
    let lit = "name=\"mcast\" value=\""@;
    let a = s.multicast_addr;
    let w = lit + quad_text(a) + seq!['"'];
    assert(FORM_MCAST@.subrange(FORM_MCAST@.len() - lit.len(), FORM_MCAST@.len() as int) =~= lit);
    assert forall|x: Seq<char>, y: Seq<char>| shows(x, w) implies #[trigger] shows(x + y, w) by {
        lemma_shows_extend(x, y, w);
    }
    assert forall|z: Seq<char>|
        #[trigger] shows(
            ((((((((z + FORM_MCAST@) + decimal(a[0] as nat)) + DOT@) + decimal(a[1] as nat))
                + DOT@) + decimal(a[2] as nat)) + DOT@) + decimal(a[3] as nat)) + FORM_PORT@,
            w,
        ) by {
        lemma_input_shows(z, FORM_MCAST@, lit, quad_text(a), FORM_PORT@);
        assert(((((((((z + FORM_MCAST@) + decimal(a[0] as nat)) + DOT@) + decimal(a[1] as nat))
            + DOT@) + decimal(a[2] as nat)) + DOT@) + decimal(a[3] as nat)) + FORM_PORT@
            =~= ((z + FORM_MCAST@) + quad_text(a)) + FORM_PORT@);
    }
    assert(shows(page_text(s, msg), w));
}

/// The settings page shows every setting in the input named for it: each
/// input `name="..."` carries, as its value, the text of that very setting
/// (escaped where it is text, in decimal where it is a number, the address
/// as a dotted quad).
pub proof fn lemma_page_shows_settings(s: SettingsView, msg: Option<Seq<char>>)
    ensures
        shows(page_text(s, msg), "name=\"ssid\" value=\""@ + escaped(s.wifi_ssid) + seq!['"']),
        shows(page_text(s, msg), "name=\"pass\" value=\""@ + escaped(s.wifi_pass) + seq!['"']),
        shows(page_text(s, msg), "name=\"rbid\" type=\"number\" value=\""@ + signed_decimal(s.rigid_body_id as int) + seq!['"']),
        shows(page_text(s, msg), "name=\"port\" type=\"number\" min=\"1\" max=\"65535\" value=\""@ + decimal(s.data_port as nat) + seq!['"']),
        shows(page_text(s, msg), "name=\"nn_major\" type=\"number\" min=\"2\" max=\"4\" value=\""@ + decimal(s.natnet_major as nat) + seq!['"']),
        shows(page_text(s, msg), "name=\"nn_minor\" type=\"number\" min=\"0\" max=\"255\" value=\""@ + decimal(s.natnet_minor as nat) + seq!['"']),
        shows(page_text(s, msg), "name=\"sysid\" type=\"number\" min=\"1\" max=\"255\" value=\""@ + decimal(s.mav_sysid as nat) + seq!['"']),
        shows(page_text(s, msg), "name=\"compid\" type=\"number\" min=\"1\" max=\"255\" value=\""@ + decimal(s.mav_compid as nat) + seq!['"']),
        shows(page_text(s, msg), "name=\"baud\" type=\"number\" value=\""@ + decimal(s.mavlink_baud as nat) + seq!['"']),
        shows(page_text(s, msg), "name=\"vpe_hz\" type=\"number\" min=\"1\" max=\"1000\" value=\""@ + decimal(s.vpe_rate_hz as nat) + seq!['"']),
        shows(page_text(s, msg), "name=\"hb_hz\" type=\"number\" min=\"1\" max=\"100\" value=\""@ + decimal(s.heartbeat_rate_hz as nat) + seq!['"']),
        shows(page_text(s, msg), "name=\"timeout_ms\" type=\"number\" min=\"10\" value=\""@ + decimal(s.track_timeout_ms as nat) + seq!['"']),
        shows(page_text(s, msg), "name=\"mcast\" value=\""@ + quad_text(s.multicast_addr) + seq!['"']),
{
    lemma_shows_ssid(s, msg);
    lemma_shows_pass(s, msg);
    lemma_shows_rbid(s, msg);
    lemma_shows_port(s, msg);
    lemma_shows_nn_major(s, msg);
    lemma_shows_nn_minor(s, msg);
    lemma_shows_sysid(s, msg);
    lemma_shows_compid(s, msg);
    lemma_shows_baud(s, msg);
    lemma_shows_vpe_hz(s, msg);
    lemma_shows_hb_hz(s, msg);
    lemma_shows_timeout_ms(s, msg);
    lemma_shows_mcast(s, msg);
}

/// Render the settings form prefilled from `s`, with an optional error banner
pub fn render_page(s: &Settings, msg: Option<&str>) -> (r: String)
    ensures
        r@ == page_text(
            s@,
            match msg {
                Some(m) => Some(m@),
                None => None,
            },
        ),
{
    let mut out = String::new();
    out.append(PAGE_HEAD);
    let ghost after_head = out@;
    match msg {
        Some(m) => {
            out.append(MSG_OPEN);
            push_escaped(&mut out, m);
            out.append(MSG_CLOSE);
            assert(out@ =~= after_head + (MSG_OPEN@ + escaped(m@) + MSG_CLOSE@));
        },
        None => {
            assert(out@ =~= after_head + Seq::<char>::empty());
        },
    }
    out.append(FORM_SSID);
    push_escaped(&mut out, string32_as_str(&s.wifi_ssid));
    out.append(FORM_PASS);
    push_escaped(&mut out, string64_as_str(&s.wifi_pass));
    out.append(FORM_RBID);
    push_signed(&mut out, s.rigid_body_id as i64);
    out.append(FORM_MCAST);
    push_decimal(&mut out, s.multicast_addr[0] as u64);
    out.append(DOT);
    push_decimal(&mut out, s.multicast_addr[1] as u64);
    out.append(DOT);
    push_decimal(&mut out, s.multicast_addr[2] as u64);
    out.append(DOT);
    push_decimal(&mut out, s.multicast_addr[3] as u64);
    out.append(FORM_PORT);
    push_decimal(&mut out, s.data_port as u64);
    out.append(FORM_NN_MAJOR);
    push_decimal(&mut out, s.natnet_major as u64);
    out.append(FORM_NN_MINOR);
    push_decimal(&mut out, s.natnet_minor as u64);
    out.append(FORM_SYSID);
    push_decimal(&mut out, s.mav_sysid as u64);
    out.append(FORM_COMPID);
    push_decimal(&mut out, s.mav_compid as u64);
    out.append(FORM_BAUD);
    push_decimal(&mut out, s.mavlink_baud as u64);
    out.append(FORM_VPE);
    push_decimal(&mut out, s.vpe_rate_hz as u64);
    out.append(FORM_HB);
    push_decimal(&mut out, s.heartbeat_rate_hz as u64);
    out.append(FORM_TIMEOUT);
    push_decimal(&mut out, s.track_timeout_ms as u64);
    out.append(FORM_TAIL);
    out
}

/// Response to a successful save, shown just before reboot
pub fn render_reboot_page() -> (r: String)
    ensures
        r@ == REBOOT_PAGE@,
{
    let mut out = String::new();
    out.append(REBOOT_PAGE);
    out
}

} // verus!
