//! urlencoded form parsing for the portal form: bytes in, `Settings` out

use vstd::prelude::*;
use vstd::string::StringSliceAdditionalSpecFns;
use vstd::utf8::{decode_utf8, encode_utf8, valid_utf8};

use crate::portal::bounded::{
    string32_from, string64_from, vec16_as_slice, vec16_items, vec16_new, vec16_push,
    vec64_as_slice, vec64_items, vec64_new, vec64_push,
};
use crate::portal::{
    fits_image, lemma_image_roundtrip, settings_check, settings_from, settings_image, Settings,
    SettingsView,
};
use crate::portal::html::{decimal, digit_char, quad_text, signed_decimal};
use crate::text::{
    all_digits, char_from, digits_value, is_digit, trim_end, trim_start, find_char, i32_value, lemma_char_from_bounds, parse_i32, parse_unsigned,
    same_text, str_from_utf8, trim_bounds, trimmed, unsigned_value,
};
use crate::wire::{byte_from, find_byte, lemma_byte_from_bounds};

verus! {

/// The keys of the portal form, in the order the page lays them out.
pub const FIELD_KEYS: [&'static str; 13] = [
    "ssid",
    "pass",
    "mcast",
    "port",
    "nn_major",
    "nn_minor",
    "rbid",
    "sysid",
    "compid",
    "baud",
    "vpe_hz",
    "hb_hz",
    "timeout_ms",
];

/// Value of an ASCII hex digit.
pub open spec fn hex_value(b: u8) -> Option<u8> {
    if 48 <= b <= 57 {
        Some((b - 48) as u8)
    } else if 97 <= b <= 102 {
        Some((b - 97 + 10) as u8)
    } else if 65 <= b <= 70 {
        Some((b - 65 + 10) as u8)
    } else {
        None
    }
}

/// The hexadecimal digits, in upper and lower case.
pub open spec fn hex_digit_upper(d: int) -> u8 {
    "0123456789ABCDEF"@[d] as u8
}

pub open spec fn hex_digit_lower(d: int) -> u8 {
    "0123456789abcdef"@[d] as u8
}

/// A hexadecimal digit stands for its value, 0 to 15, in either case, and
/// no other byte is a hexadecimal digit.
pub proof fn lemma_hex_digits(d: int, b: u8)
    requires
        0 <= d < 16,
    ensures
        hex_value(hex_digit_upper(d)) == Some(d as u8),
        hex_value(hex_digit_lower(d)) == Some(d as u8),
        hex_value(b) is Some <==> (exists|e: int|
            0 <= e < 16 && (b == hex_digit_upper(e) || b == hex_digit_lower(e))),
{
    reveal_strlit("0123456789ABCDEF");
    reveal_strlit("0123456789abcdef");
    if hex_value(b) is Some {
        let e: int = hex_value(b)->0 as int;
        assert(0 <= e < 16);
        assert(b == hex_digit_upper(e) || b == hex_digit_lower(e));
    }
}

/// Every byte comes back from its percent-escape with two upper-case hex
/// digits, as browsers send it.
pub proof fn lemma_escape_decodes(v: u8, cap: int)
    requires
        cap >= 1,
    ensures
        percent_decoded(
            seq![37u8, hex_digit_upper((v / 16) as int), hex_digit_upper((v % 16) as int)],
            0,
            Seq::empty(),
            cap,
        ) == Ok::<Seq<u8>, &'static str>(seq![v]),
{
    let raw = seq![37u8, hex_digit_upper((v / 16) as int), hex_digit_upper((v % 16) as int)];
    lemma_hex_digits((v / 16) as int, 0);
    lemma_hex_digits((v % 16) as int, 0);
    assert(((v / 16) * 16 + v % 16) as u8 == v);
    assert(percent_decoded(raw, 3, seq![v], cap) == Ok::<Seq<u8>, &'static str>(seq![v]));
    assert(Seq::<u8>::empty().push(v) =~= seq![v]);
}

fn hex(b: u8) -> (r: Result<u8, &'static str>)
    ensures
        match hex_value(b) {
            Some(v) => r == Ok::<u8, &'static str>(v),
            None => r == Err::<u8, &'static str>("bad percent-escape hex"),
        },
{
    if 48u8 /* '0' */ <= b && b <= 57u8 /* '9' */ {
        Ok(b - 48u8 /* '0' */)
    } else if 97u8 /* 'a' */ <= b && b <= 102u8 /* 'f' */ {
        Ok(b - 97u8 /* 'a' */ + 10)
    } else if 65u8 /* 'A' */ <= b && b <= 70u8 /* 'F' */ {
        Ok(b - 65u8 /* 'A' */ + 10)
    } else {
        Err("bad percent-escape hex")
    }
}

/// Percent-decoding of `raw[i..]` appended to `out`, at most `cap` bytes in
/// all: `+` is a space, `%hh` a hex-coded byte, anything else itself.
pub open spec fn percent_decoded(raw: Seq<u8>, i: int, out: Seq<u8>, cap: int) -> Result<
    Seq<u8>,
    &'static str,
>
    decreases raw.len() - i,
{
    if i < 0 || i >= raw.len() {
        Ok(out)
    } else if raw[i] == 37 {
        // '%'
        if i + 1 >= raw.len() || i + 2 >= raw.len() {
            Err("truncated percent-escape")
        } else {
            match (hex_value(raw[i + 1]), hex_value(raw[i + 2])) {
                (Some(h), Some(l)) => if out.len() >= cap {
                    Err("form value too long")
                } else {
                    percent_decoded(raw, i + 3, out.push((h * 16 + l) as u8), cap)
                },
                _ => Err("bad percent-escape hex"),
            }
        }
    } else {
        let b: u8 = if raw[i] == 43 {
            // '+'
            32u8
        } else {
            raw[i]
        };
        if out.len() >= cap {
            Err("form value too long")
        } else {
            percent_decoded(raw, i + 1, out.push(b), cap)
        }
    }
}

/// One decoded byte of `raw` at `i`, and where the next one starts.
fn decode_unit(raw: &[u8], i: usize) -> (r: Result<(u8, usize), &'static str>)
    requires
        i < raw@.len(),
    ensures
        raw@[i as int] == 37 ==> {
            if i + 2 >= raw@.len() {
                r == Err::<(u8, usize), &'static str>("truncated percent-escape")
            } else {
                match (hex_value(raw@[i + 1]), hex_value(raw@[i + 2])) {
                    (Some(h), Some(l)) => r == Ok::<(u8, usize), &'static str>(
                        ((h * 16 + l) as u8, (i + 3) as usize),
                    ),
                    _ => r == Err::<(u8, usize), &'static str>("bad percent-escape hex"),
                }
            }
        },
        raw@[i as int] != 37 ==> r == Ok::<(u8, usize), &'static str>(
            (if raw@[i as int] == 43 {
                32u8
            } else {
                raw@[i as int]
            }, (i + 1) as usize),
        ),
{
    let len: usize = raw.len();
    if raw[i] == 43u8 /* '+' */ {
        Ok((32u8 /* ' ' */, i + 1))
    } else if raw[i] == 37u8 /* '%' */ {
        if i + 1 >= len || i + 2 >= len {
            return Err("truncated percent-escape");
        }
        let hi: u8 = hex(raw[i + 1])?;
        let lo: u8 = hex(raw[i + 2])?;
        Ok((hi * 16 + lo, i + 3))
    } else {
        Ok((raw[i], i + 1))
    }
}

/// Percent-decodes a form key (at most 16 bytes).
fn percent_decode_key(raw: &[u8]) -> (r: Result<heapless::Vec<u8, 16>, &'static str>)
    ensures
        match percent_decoded(raw@, 0, Seq::empty(), 16) {
            Ok(v) => r matches Ok(h) && vec16_items(h) == v,
            Err(e) => r == Err::<heapless::Vec<u8, 16>, &'static str>(e),
        },
{
    let mut out = vec16_new();
    let len: usize = raw.len();
    let mut i: usize = 0;
    while i < len
        invariant
            len == raw@.len(),
            i <= len,
            percent_decoded(raw@, 0, Seq::empty(), 16) == percent_decoded(
                raw@,
                i as int,
                vec16_items(out),
                16,
            ),
        decreases len - i,
    {
        let (b, next) = decode_unit(raw, i)?;
        if !vec16_push(&mut out, b) {
            return Err("form value too long");
        }
        i = next;
    }
    Ok(out)
}

/// Percent-decodes a form value (at most 64 bytes).
fn percent_decode_value(raw: &[u8]) -> (r: Result<heapless::Vec<u8, 64>, &'static str>)
    ensures
        match percent_decoded(raw@, 0, Seq::empty(), 64) {
            Ok(v) => r matches Ok(h) && vec64_items(h) == v,
            Err(e) => r == Err::<heapless::Vec<u8, 64>, &'static str>(e),
        },
{
    let mut out = vec64_new();
    let len: usize = raw.len();
    let mut i: usize = 0;
    while i < len
        invariant
            len == raw@.len(),
            i <= len,
            percent_decoded(raw@, 0, Seq::empty(), 64) == percent_decoded(
                raw@,
                i as int,
                vec64_items(out),
                64,
            ),
        decreases len - i,
    {
        let (b, next) = decode_unit(raw, i)?;
        if !vec64_push(&mut out, b) {
            return Err("form value too long");
        }
        i = next;
    }
    Ok(out)
}

/// A number field: the trimmed value parsed as an unsigned integer no greater than `max`.
pub open spec fn number_field(value: Seq<char>, max: int) -> Result<int, &'static str> {
    match unsigned_value(trimmed(value), max) {
        Some(v) => Ok(v),
        None => Err("field is not a valid number"),
    }
}

/// `value.trim().parse()` into an unsigned type whose largest value is `max`.
fn int_field(value: &str, max: u64) -> (r: Result<u64, &'static str>)
    ensures
        match number_field(value@, max as int) {
            Ok(v) => r == Ok::<u64, &'static str>(v as u64) && 0 <= v <= max,
            Err(e) => r == Err::<u64, &'static str>(e),
        },
{
    let len: usize = value.unicode_len();
    assert(value@.subrange(0, len as int) =~= value@);
    let (lo, hi) = trim_bounds(value, 0, len);
    match parse_unsigned(value, lo, hi, max) {
        Some(v) => Ok(v),
        None => Err("field is not a valid number"),
    }
}

/// The rigid body id field: the trimmed value parsed as an `i32`.
pub open spec fn id_field(value: Seq<char>) -> Result<int, &'static str> {
    match i32_value(trimmed(value)) {
        Some(v) => Ok(v),
        None => Err("field is not a valid number"),
    }
}

fn i32_field(value: &str) -> (r: Result<i32, &'static str>)
    ensures
        match id_field(value@) {
            Ok(v) => r == Ok::<i32, &'static str>(v as i32) && i32::MIN <= v <= i32::MAX,
            Err(e) => r == Err::<i32, &'static str>(e),
        },
{
    let len: usize = value.unicode_len();
    assert(value@.subrange(0, len as int) =~= value@);
    let (lo, hi) = trim_bounds(value, 0, len);
    match parse_i32(value, lo, hi) {
        Some(v) => Ok(v),
        None => Err("field is not a valid number"),
    }
}

/// The octets of a dotted quad, taken from the unsplit text `rest` (`None`
/// once the last '.'-separated part has been taken), from octet `k` on.
pub open spec fn quad_from(rest: Option<Seq<char>>, k: int) -> Result<Seq<u8>, &'static str>
    decreases 4 - k,
{
    if k >= 4 {
        if rest is Some {
            Err("multicast address needs exactly 4 octets")
        } else {
            Ok(Seq::empty())
        }
    } else {
        match rest {
            None => Err("multicast address needs 4 octets"),
            Some(r) => {
                let part = match char_from(r, '.', 0) {
                    Some(j) => r.subrange(0, j),
                    None => r,
                };
                let next = match char_from(r, '.', 0) {
                    Some(j) => Some(r.subrange(j + 1, r.len() as int)),
                    None => None,
                };
                match unsigned_value(part, 255) {
                    None => Err("multicast octet is not 0-255"),
                    Some(v) => match quad_from(next, k + 1) {
                        Ok(tail) => Ok(seq![v as u8] + tail),
                        Err(e) => Err(e),
                    },
                }
            },
        }
    }
}

/// A dotted quad "a.b.c.d" (surrounding whitespace ignored), each part 0-255.
pub open spec fn dotted_quad(value: Seq<char>) -> Result<Seq<u8>, &'static str> {
    quad_from(Some(trimmed(value)), 0)
}

fn parse_dotted_quad(value: &str) -> (r: Result<[u8; 4], &'static str>)
    ensures
        match dotted_quad(value@) {
            Ok(q) => r matches Ok(a) && a@ == q,
            Err(e) => r == Err::<[u8; 4], &'static str>(e),
        },
{
    let len: usize = value.unicode_len();
    assert(value@.subrange(0, len as int) =~= value@);
    let (lo, hi) = trim_bounds(value, 0, len);
    let mut out = [0u8; 4];
    let mut pos: usize = lo;
    let mut exhausted: bool = false;
    let mut k: usize = 0;
    while k < 4
        invariant
            k <= 4,
            lo <= pos <= hi,
            hi <= value@.len(),
            trimmed(value@) == value@.subrange(lo as int, hi as int),
            dotted_quad(value@) == match quad_from(
                if exhausted {
                    None
                } else {
                    Some(value@.subrange(pos as int, hi as int))
                },
                k as int,
            ) {
                Ok(tail) => Ok(out@.take(k as int) + tail),
                Err(e) => Err(e),
            },
        decreases 4 - k,
    {
        if exhausted {
            return Err("multicast address needs 4 octets");
        }
        let ghost r = value@.subrange(pos as int, hi as int);
        let end: usize = find_char(value, '.', pos, hi);
        proof {
            lemma_char_from_bounds(r, '.', 0);
        }
        if end < hi {
            assert(r.subrange(0, end - pos) =~= value@.subrange(pos as int, end as int));
            assert(r.subrange(end - pos + 1, r.len() as int) =~= value@.subrange(
                end + 1,
                hi as int,
            ));
        } else {
            assert(r =~= value@.subrange(pos as int, end as int));
        }
        let v: u64 = match parse_unsigned(value, pos, end, 255) {
            Some(v) => v,
            None => return Err("multicast octet is not 0-255"),
        };
        let ghost before = out@;
        out[k] = v as u8;
        assert(out@.take(k + 1) =~= before.take(k as int) + seq![v as u8]);
        if end < hi {
            pos = end + 1;
        } else {
            exhausted = true;
        }
        k = k + 1;
        proof {
            let tail_r = quad_from(
                if exhausted {
                    None
                } else {
                    Some(value@.subrange(pos as int, hi as int))
                },
                k as int,
            );
            if let Ok(tail) = tail_r {
                assert(out@.take(k as int) + tail =~= before.take(k - 1) + (seq![v as u8] + tail));
            }
        }
    }
    if !exhausted {
        return Err("multicast address needs exactly 4 octets");
    }
    assert(out@.take(4) =~= out@);
    assert(out@.take(4) + Seq::<u8>::empty() =~= out@);
    Ok(out)
}

proof fn lemma_digit_char(k: int)
    requires
        0 <= k < 10,
    ensures
        is_digit(digit_char(k)),
        digit_char(k) as int - '0' as int == k,
{
}

/// The decimal text of `n` is all digits and reads back as `n`.
proof fn lemma_decimal_reads_back(n: nat)
    ensures
        decimal(n).len() >= 1,
        all_digits(decimal(n)),
        digits_value(decimal(n)) == n,
    decreases n,
{
    let d = decimal(n);
    if n < 10 {
        lemma_digit_char(n as int);
        assert(d.drop_last() =~= Seq::<char>::empty());
        assert(digits_value(d) == digits_value(d.drop_last()) * 10 + (d.last() as int - '0' as int));
    } else {
        lemma_decimal_reads_back(n / 10);
        lemma_digit_char((n % 10) as int);
        assert(d.drop_last() =~= decimal(n / 10));
        assert(d.last() == digit_char((n % 10) as int));
        assert(digits_value(d) == digits_value(d.drop_last()) * 10 + (d.last() as int - '0' as int));
        assert(digits_value(d) == (n / 10) * 10 + n % 10);
        assert forall|i: int| 0 <= i < d.len() implies is_digit(#[trigger] d[i]) by {
            if i < d.len() - 1 {
                assert(d[i] == decimal(n / 10)[i]);
            }
        }
    }
}

/// No '.' occurs in `d` from `i` on.
proof fn lemma_no_dot(d: Seq<char>, i: int)
    requires
        all_digits(d),
        0 <= i,
    ensures
        char_from(d, '.', i) is None,
    decreases d.len() - i,
{
    if i < d.len() {
        assert(is_digit(d[i]));
        lemma_no_dot(d, i + 1);
    }
}

/// In `d + "." + rest`, with `d` all digits, the first '.' is the one after `d`.
proof fn lemma_first_dot(d: Seq<char>, rest: Seq<char>, i: int)
    requires
        all_digits(d),
        0 <= i <= d.len(),
    ensures
        char_from(d + seq!['.'] + rest, '.', i) == Some(d.len() as int),
    decreases d.len() - i,
{
    let s = d + seq!['.'] + rest;
    if i < d.len() {
        assert(s[i] == d[i]);
        assert(is_digit(d[i]));
        lemma_first_dot(d, rest, i + 1);
    } else {
        assert(s[i] == '.');
    }
}

/// An octet's decimal text parses back as the octet.
proof fn lemma_octet_reads_back(n: u8)
    ensures
        unsigned_value(decimal(n as nat), 255) == Some(n as int),
        all_digits(decimal(n as nat)),
        decimal(n as nat).len() >= 1,
{
    lemma_decimal_reads_back(n as nat);
    assert(is_digit(decimal(n as nat)[0]));
}

/// The last octet of a quad.
proof fn lemma_quad_last(n: u8)
    ensures
        quad_from(Some(decimal(n as nat)), 3) == Ok::<Seq<u8>, &'static str>(seq![n]),
{
    lemma_octet_reads_back(n);
    lemma_no_dot(decimal(n as nat), 0);
    assert(quad_from(None, 4) == Ok::<Seq<u8>, &'static str>(Seq::empty()));
    assert(seq![n] + Seq::<u8>::empty() =~= seq![n]);
}

/// An octet, a '.', and the rest of the quad.
proof fn lemma_quad_part(n: u8, tail: Seq<char>, k: int, t: Seq<u8>)
    requires
        0 <= k < 3,
        quad_from(Some(tail), k + 1) == Ok::<Seq<u8>, &'static str>(t),
    ensures
        quad_from(Some(decimal(n as nat) + seq!['.'] + tail), k) == Ok::<Seq<u8>, &'static str>(
            seq![n] + t,
        ),
{
    let d = decimal(n as nat);
    let r = d + seq!['.'] + tail;
    lemma_octet_reads_back(n);
    lemma_first_dot(d, tail, 0);
    assert(r.subrange(0, d.len() as int) =~= d);
    assert(r.subrange(d.len() + 1int, r.len() as int) =~= tail);
}

/// The form reads back the multicast address that the settings page shows.
pub proof fn lemma_quad_reads_back(a: [u8; 4])
    ensures
        dotted_quad(quad_text(a)) == Ok::<Seq<u8>, &'static str>(a@),
{
    reveal_strlit(".");
    let d0 = decimal(a[0] as nat);
    let d3 = decimal(a[3] as nat);
    let r3 = d3;
    let r2 = decimal(a[2] as nat) + seq!['.'] + r3;
    let r1 = decimal(a[1] as nat) + seq!['.'] + r2;
    let r0 = d0 + seq!['.'] + r1;
    assert(quad_text(a) =~= r0);
    lemma_octet_reads_back(a[0]);
    lemma_octet_reads_back(a[3]);
    // no surrounding whitespace: the text opens and closes with a digit
    assert(r0[0] == d0[0]);
    assert(r0.last() == d3[d3.len() - 1]);
    assert(is_digit(d0[0]) && is_digit(d3[d3.len() - 1]));
    assert(trim_start(r0) == r0);
    assert(trim_end(r0) == r0);
    lemma_quad_last(a[3]);
    lemma_quad_part(a[2], r3, 2, seq![a[3]]);
    lemma_quad_part(a[1], r2, 1, seq![a[2]] + seq![a[3]]);
    lemma_quad_part(a[0], r1, 0, seq![a[1]] + (seq![a[2]] + seq![a[3]]));
    assert(a@ =~= seq![a[0]] + (seq![a[1]] + (seq![a[2]] + seq![a[3]])));
}

/// The fields the form can set.
#[derive(Debug, Clone, Copy, PartialEq, Eq, Structural)]
pub enum FormField {
    Ssid,
    Pass,
    Mcast,
    Port,
    NnMajor,
    NnMinor,
    Rbid,
    Sysid,
    Compid,
    Baud,
    VpeHz,
    HbHz,
    TimeoutMs,
}

/// The field that a form key names; unknown keys name none.
pub open spec fn form_field(key: Seq<char>) -> Option<FormField> {
    if key == "ssid"@ {
        Some(FormField::Ssid)
    } else if key == "pass"@ {
        Some(FormField::Pass)
    } else if key == "mcast"@ {
        Some(FormField::Mcast)
    } else if key == "port"@ {
        Some(FormField::Port)
    } else if key == "nn_major"@ {
        Some(FormField::NnMajor)
    } else if key == "nn_minor"@ {
        Some(FormField::NnMinor)
    } else if key == "rbid"@ {
        Some(FormField::Rbid)
    } else if key == "sysid"@ {
        Some(FormField::Sysid)
    } else if key == "compid"@ {
        Some(FormField::Compid)
    } else if key == "baud"@ {
        Some(FormField::Baud)
    } else if key == "vpe_hz"@ {
        Some(FormField::VpeHz)
    } else if key == "hb_hz"@ {
        Some(FormField::HbHz)
    } else if key == "timeout_ms"@ {
        Some(FormField::TimeoutMs)
    } else {
        None
    }
}

/// Each key that the form lists names a field that the form sets.
pub proof fn lemma_field_keys_known()
    ensures
        forall|i: int| 0 <= i < FIELD_KEYS@.len() ==> form_field(#[trigger] FIELD_KEYS@[i]@) is Some,
{
    assert(FIELD_KEYS@.len() == 13);
    assert forall|i: int| 0 <= i < FIELD_KEYS@.len() implies form_field(
        #[trigger] FIELD_KEYS@[i]@,
    ) is Some by {
        if i == 0 {
            assert(FIELD_KEYS@[i] == "ssid");
        } else if i == 1 {
            assert(FIELD_KEYS@[i] == "pass");
        } else if i == 2 {
            assert(FIELD_KEYS@[i] == "mcast");
        } else if i == 3 {
            assert(FIELD_KEYS@[i] == "port");
        } else if i == 4 {
            assert(FIELD_KEYS@[i] == "nn_major");
        } else if i == 5 {
            assert(FIELD_KEYS@[i] == "nn_minor");
        } else if i == 6 {
            assert(FIELD_KEYS@[i] == "rbid");
        } else if i == 7 {
            assert(FIELD_KEYS@[i] == "sysid");
        } else if i == 8 {
            assert(FIELD_KEYS@[i] == "compid");
        } else if i == 9 {
            assert(FIELD_KEYS@[i] == "baud");
        } else if i == 10 {
            assert(FIELD_KEYS@[i] == "vpe_hz");
        } else if i == 11 {
            assert(FIELD_KEYS@[i] == "hb_hz");
        } else {
            assert(FIELD_KEYS@[i] == "timeout_ms");
        }
    }
}

fn field_of(key: &str) -> (r: Option<FormField>)
    ensures
        r == form_field(key@),
{
    if same_text(key, "ssid") {
        Some(FormField::Ssid)
    } else if same_text(key, "pass") {
        Some(FormField::Pass)
    } else if same_text(key, "mcast") {
        Some(FormField::Mcast)
    } else if same_text(key, "port") {
        Some(FormField::Port)
    } else if same_text(key, "nn_major") {
        Some(FormField::NnMajor)
    } else if same_text(key, "nn_minor") {
        Some(FormField::NnMinor)
    } else if same_text(key, "rbid") {
        Some(FormField::Rbid)
    } else if same_text(key, "sysid") {
        Some(FormField::Sysid)
    } else if same_text(key, "compid") {
        Some(FormField::Compid)
    } else if same_text(key, "baud") {
        Some(FormField::Baud)
    } else if same_text(key, "vpe_hz") {
        Some(FormField::VpeHz)
    } else if same_text(key, "hb_hz") {
        Some(FormField::HbHz)
    } else if same_text(key, "timeout_ms") {
        Some(FormField::TimeoutMs)
    } else {
        None
    }
}

/// The settings after field `f` takes `value`, or why it cannot.
#[verifier::opaque]
pub open spec fn field_update(s: SettingsView, f: FormField, value: Seq<char>) -> Result<
    SettingsView,
    &'static str,
> {
    match f {
        FormField::Ssid => if encode_utf8(value).len() <= 32 {
            Ok(SettingsView { wifi_ssid: value, ..s })
        } else {
            Err("SSID too long (max 32)")
        },
        FormField::Pass => if encode_utf8(value).len() <= 64 {
            Ok(SettingsView { wifi_pass: value, ..s })
        } else {
            Err("password too long (max 64)")
        },
        FormField::Mcast => match dotted_quad(value) {
            Ok(q) => Ok(SettingsView { multicast_addr: [q[0], q[1], q[2], q[3]], ..s }),
            Err(e) => Err(e),
        },
        FormField::Port => match number_field(value, 0xFFFF) {
            Ok(v) => Ok(SettingsView { data_port: v as u16, ..s }),
            Err(e) => Err(e),
        },
        FormField::NnMajor => match number_field(value, 0xFF) {
            Ok(v) => Ok(SettingsView { natnet_major: v as u8, ..s }),
            Err(e) => Err(e),
        },
        FormField::NnMinor => match number_field(value, 0xFF) {
            Ok(v) => Ok(SettingsView { natnet_minor: v as u8, ..s }),
            Err(e) => Err(e),
        },
        FormField::Rbid => match id_field(value) {
            Ok(v) => Ok(SettingsView { rigid_body_id: v as i32, ..s }),
            Err(e) => Err(e),
        },
        FormField::Sysid => match number_field(value, 0xFF) {
            Ok(v) => Ok(SettingsView { mav_sysid: v as u8, ..s }),
            Err(e) => Err(e),
        },
        FormField::Compid => match number_field(value, 0xFF) {
            Ok(v) => Ok(SettingsView { mav_compid: v as u8, ..s }),
            Err(e) => Err(e),
        },
        FormField::Baud => match number_field(value, 0xFFFF_FFFF) {
            Ok(v) => Ok(SettingsView { mavlink_baud: v as u32, ..s }),
            Err(e) => Err(e),
        },
        FormField::VpeHz => match number_field(value, 0xFFFF) {
            Ok(v) => Ok(SettingsView { vpe_rate_hz: v as u16, ..s }),
            Err(e) => Err(e),
        },
        FormField::HbHz => match number_field(value, 0xFFFF) {
            Ok(v) => Ok(SettingsView { heartbeat_rate_hz: v as u16, ..s }),
            Err(e) => Err(e),
        },
        FormField::TimeoutMs => match number_field(value, 0xFFFF_FFFF) {
            Ok(v) => Ok(SettingsView { track_timeout_ms: v as u32, ..s }),
            Err(e) => Err(e),
        },
    }
}

/// The decimal text of `n` is its own trimmed text.
proof fn lemma_decimal_trimmed(n: nat)
    ensures
        trimmed(decimal(n)) == decimal(n),
{
    lemma_decimal_reads_back(n);
    let d = decimal(n);
    assert(is_digit(d[0]) && is_digit(d[d.len() - 1]));
    assert(trim_start(d) == d);
    assert(trim_end(d) == d);
}

/// A number the page shows reads back through the form as itself.
proof fn lemma_number_reads_back(n: nat, max: int)
    requires
        n <= max,
    ensures
        number_field(decimal(n), max) == Ok::<int, &'static str>(n as int),
{
    lemma_decimal_trimmed(n);
    lemma_decimal_reads_back(n);
    assert(is_digit(decimal(n)[0]));
}

/// A rigid body id the page shows reads back through the form as itself.
proof fn lemma_id_reads_back(v: i32)
    ensures
        id_field(signed_decimal(v as int)) == Ok::<int, &'static str>(v as int),
{
    let t = signed_decimal(v as int);
    if v < 0 {
        let m: nat = (-(v as int)) as nat;
        lemma_decimal_reads_back(m);
        let d = decimal(m);
        assert(t == seq!['-'] + d);
        assert(t.drop_first() =~= d);
        assert(is_digit(d[d.len() - 1]));
        assert(t.last() == d[d.len() - 1]);
        assert(trim_start(t) == t);
        assert(trim_end(t) == t);
        assert(i32_value(t) == Some(v as int));
    } else {
        lemma_decimal_trimmed(v as nat);
        lemma_decimal_reads_back(v as nat);
        assert(is_digit(decimal(v as nat)[0]));
    }
}

/// Every value the settings page shows reads back through the form into the
/// same setting: each input's name is the form key of that setting, and
/// submitting the shown value leaves the settings as they were.
/// The form keys of the settings.
proof fn lemma_form_keys()
    ensures
        form_field("sysid"@) == Some(FormField::Sysid),
        form_field("compid"@) == Some(FormField::Compid),
        form_field("port"@) == Some(FormField::Port),
        form_field("nn_major"@) == Some(FormField::NnMajor),
        form_field("nn_minor"@) == Some(FormField::NnMinor),
        form_field("baud"@) == Some(FormField::Baud),
        form_field("vpe_hz"@) == Some(FormField::VpeHz),
        form_field("hb_hz"@) == Some(FormField::HbHz),
        form_field("timeout_ms"@) == Some(FormField::TimeoutMs),
        form_field("rbid"@) == Some(FormField::Rbid),
        form_field("mcast"@) == Some(FormField::Mcast),
        form_field("ssid"@) == Some(FormField::Ssid),
        form_field("pass"@) == Some(FormField::Pass),
{
    reveal_strlit("ssid"); reveal_strlit("pass"); reveal_strlit("mcast"); reveal_strlit("port"); reveal_strlit("nn_major");
    reveal_strlit("nn_minor"); reveal_strlit("rbid"); reveal_strlit("sysid"); reveal_strlit("compid");
    reveal_strlit("baud"); reveal_strlit("vpe_hz"); reveal_strlit("hb_hz"); reveal_strlit("timeout_ms");
    assert("pass"@[0] != "ssid"@[0]);
    assert("mcast"@.len() != "ssid"@.len());
    assert("mcast"@.len() != "pass"@.len());
    assert("port"@[0] != "ssid"@[0]);
    assert("port"@[1] != "pass"@[1]);
    assert("port"@.len() != "mcast"@.len());
    assert("nn_major"@.len() != "ssid"@.len());
    assert("nn_major"@.len() != "pass"@.len());
    assert("nn_major"@.len() != "mcast"@.len());
    assert("nn_major"@.len() != "port"@.len());
    assert("nn_minor"@.len() != "ssid"@.len());
    assert("nn_minor"@.len() != "pass"@.len());
    assert("nn_minor"@.len() != "mcast"@.len());
    assert("nn_minor"@.len() != "port"@.len());
    assert("nn_minor"@[4] != "nn_major"@[4]);
    assert("rbid"@[0] != "ssid"@[0]);
    assert("rbid"@[0] != "pass"@[0]);
    assert("rbid"@.len() != "mcast"@.len());
    assert("rbid"@[0] != "port"@[0]);
    assert("rbid"@.len() != "nn_major"@.len());
    assert("rbid"@.len() != "nn_minor"@.len());
    assert("sysid"@.len() != "ssid"@.len());
    assert("sysid"@.len() != "pass"@.len());
    assert("sysid"@[0] != "mcast"@[0]);
    assert("sysid"@.len() != "port"@.len());
    assert("sysid"@.len() != "nn_major"@.len());
    assert("sysid"@.len() != "nn_minor"@.len());
    assert("sysid"@.len() != "rbid"@.len());
    assert("compid"@.len() != "ssid"@.len());
    assert("compid"@.len() != "pass"@.len());
    assert("compid"@.len() != "mcast"@.len());
    assert("compid"@.len() != "port"@.len());
    assert("compid"@.len() != "nn_major"@.len());
    assert("compid"@.len() != "nn_minor"@.len());
    assert("compid"@.len() != "rbid"@.len());
    assert("compid"@.len() != "sysid"@.len());
    assert("baud"@[0] != "ssid"@[0]);
    assert("baud"@[0] != "pass"@[0]);
    assert("baud"@.len() != "mcast"@.len());
    assert("baud"@[0] != "port"@[0]);
    assert("baud"@.len() != "nn_major"@.len());
    assert("baud"@.len() != "nn_minor"@.len());
    assert("baud"@[0] != "rbid"@[0]);
    assert("baud"@.len() != "sysid"@.len());
    assert("baud"@.len() != "compid"@.len());
    assert("vpe_hz"@.len() != "ssid"@.len());
    assert("vpe_hz"@.len() != "pass"@.len());
    assert("vpe_hz"@.len() != "mcast"@.len());
    assert("vpe_hz"@.len() != "port"@.len());
    assert("vpe_hz"@.len() != "nn_major"@.len());
    assert("vpe_hz"@.len() != "nn_minor"@.len());
    assert("vpe_hz"@.len() != "rbid"@.len());
    assert("vpe_hz"@.len() != "sysid"@.len());
    assert("vpe_hz"@[0] != "compid"@[0]);
    assert("vpe_hz"@.len() != "baud"@.len());
    assert("hb_hz"@.len() != "ssid"@.len());
    assert("hb_hz"@.len() != "pass"@.len());
    assert("hb_hz"@[0] != "mcast"@[0]);
    assert("hb_hz"@.len() != "port"@.len());
    assert("hb_hz"@.len() != "nn_major"@.len());
    assert("hb_hz"@.len() != "nn_minor"@.len());
    assert("hb_hz"@.len() != "rbid"@.len());
    assert("hb_hz"@[0] != "sysid"@[0]);
    assert("hb_hz"@.len() != "compid"@.len());
    assert("hb_hz"@.len() != "baud"@.len());
    assert("hb_hz"@.len() != "vpe_hz"@.len());
    assert("timeout_ms"@.len() != "ssid"@.len());
    assert("timeout_ms"@.len() != "pass"@.len());
    assert("timeout_ms"@.len() != "mcast"@.len());
    assert("timeout_ms"@.len() != "port"@.len());
    assert("timeout_ms"@.len() != "nn_major"@.len());
    assert("timeout_ms"@.len() != "nn_minor"@.len());
    assert("timeout_ms"@.len() != "rbid"@.len());
    assert("timeout_ms"@.len() != "sysid"@.len());
    assert("timeout_ms"@.len() != "compid"@.len());
    assert("timeout_ms"@.len() != "baud"@.len());
    assert("timeout_ms"@.len() != "vpe_hz"@.len());
    assert("timeout_ms"@.len() != "hb_hz"@.len());
}

pub proof fn lemma_page_values_read_back(s: SettingsView)
    requires
        fits_image(s),
    ensures
        form_field("sysid"@) == Some(FormField::Sysid),
        field_update(s, FormField::Sysid, decimal(s.mav_sysid as nat)) == Ok::<SettingsView, &'static str>(s),
        form_field("compid"@) == Some(FormField::Compid),
        field_update(s, FormField::Compid, decimal(s.mav_compid as nat)) == Ok::<SettingsView, &'static str>(s),
        form_field("port"@) == Some(FormField::Port),
        field_update(s, FormField::Port, decimal(s.data_port as nat)) == Ok::<SettingsView, &'static str>(s),
        form_field("nn_major"@) == Some(FormField::NnMajor),
        field_update(s, FormField::NnMajor, decimal(s.natnet_major as nat)) == Ok::<SettingsView, &'static str>(s),
        form_field("nn_minor"@) == Some(FormField::NnMinor),
        field_update(s, FormField::NnMinor, decimal(s.natnet_minor as nat)) == Ok::<SettingsView, &'static str>(s),
        form_field("baud"@) == Some(FormField::Baud),
        field_update(s, FormField::Baud, decimal(s.mavlink_baud as nat)) == Ok::<SettingsView, &'static str>(s),
        form_field("vpe_hz"@) == Some(FormField::VpeHz),
        field_update(s, FormField::VpeHz, decimal(s.vpe_rate_hz as nat)) == Ok::<SettingsView, &'static str>(s),
        form_field("hb_hz"@) == Some(FormField::HbHz),
        field_update(s, FormField::HbHz, decimal(s.heartbeat_rate_hz as nat)) == Ok::<SettingsView, &'static str>(s),
        form_field("timeout_ms"@) == Some(FormField::TimeoutMs),
        field_update(s, FormField::TimeoutMs, decimal(s.track_timeout_ms as nat)) == Ok::<SettingsView, &'static str>(s),
        form_field("rbid"@) == Some(FormField::Rbid),
        field_update(s, FormField::Rbid, signed_decimal(s.rigid_body_id as int)) == Ok::<
            SettingsView,
            &'static str,
        >(s),
        form_field("mcast"@) == Some(FormField::Mcast),
        field_update(s, FormField::Mcast, quad_text(s.multicast_addr)) == Ok::<
            SettingsView,
            &'static str,
        >(s),
        form_field("ssid"@) == Some(FormField::Ssid),
        field_update(s, FormField::Ssid, s.wifi_ssid) == Ok::<SettingsView, &'static str>(s),
        form_field("pass"@) == Some(FormField::Pass),
        field_update(s, FormField::Pass, s.wifi_pass) == Ok::<SettingsView, &'static str>(s),
{
    lemma_form_keys();
    reveal(field_update);
    lemma_number_reads_back(s.mav_sysid as nat, 0xFF);
    lemma_number_reads_back(s.mav_compid as nat, 0xFF);
    lemma_number_reads_back(s.data_port as nat, 0xFFFF);
    lemma_number_reads_back(s.natnet_major as nat, 0xFF);
    lemma_number_reads_back(s.natnet_minor as nat, 0xFF);
    lemma_number_reads_back(s.mavlink_baud as nat, 0xFFFF_FFFF);
    lemma_number_reads_back(s.vpe_rate_hz as nat, 0xFFFF);
    lemma_number_reads_back(s.heartbeat_rate_hz as nat, 0xFFFF);
    lemma_number_reads_back(s.track_timeout_ms as nat, 0xFFFF_FFFF);
    lemma_id_reads_back(s.rigid_body_id);
    lemma_quad_reads_back(s.multicast_addr);
    let a = s.multicast_addr;
    let q = dotted_quad(quad_text(a))->Ok_0;
    assert([q[0], q[1], q[2], q[3]] =~= a);
}

fn set_field(s: &mut Settings, f: FormField, value: &str) -> (r: Result<(), &'static str>)
    ensures
        match field_update(old(s)@, f, value@) {
            Ok(t) => r is Ok && final(s)@ == t,
            Err(e) => r == Err::<(), &'static str>(e) && final(s)@ == old(s)@,
        },
{
    reveal(field_update);
    match f {
        FormField::Ssid => match string32_from(value) {
            Some(h) => {
                s.wifi_ssid = h;
                Ok(())
            },
            None => Err("SSID too long (max 32)"),
        },
        FormField::Pass => match string64_from(value) {
            Some(h) => {
                s.wifi_pass = h;
                Ok(())
            },
            None => Err("password too long (max 64)"),
        },
        FormField::Mcast => match parse_dotted_quad(value) {
            Ok(q) => {
                s.multicast_addr = q;
                assert(q =~= [q@[0], q@[1], q@[2], q@[3]]);
                Ok(())
            },
            Err(e) => Err(e),
        },
        FormField::Port => match int_field(value, 0xFFFF) {
            Ok(v) => {
                s.data_port = v as u16;
                Ok(())
            },
            Err(e) => Err(e),
        },
        FormField::NnMajor => match int_field(value, 0xFF) {
            Ok(v) => {
                s.natnet_major = v as u8;
                Ok(())
            },
            Err(e) => Err(e),
        },
        FormField::NnMinor => match int_field(value, 0xFF) {
            Ok(v) => {
                s.natnet_minor = v as u8;
                Ok(())
            },
            Err(e) => Err(e),
        },
        FormField::Rbid => match i32_field(value) {
            Ok(v) => {
                s.rigid_body_id = v;
                Ok(())
            },
            Err(e) => Err(e),
        },
        FormField::Sysid => match int_field(value, 0xFF) {
            Ok(v) => {
                s.mav_sysid = v as u8;
                Ok(())
            },
            Err(e) => Err(e),
        },
        FormField::Compid => match int_field(value, 0xFF) {
            Ok(v) => {
                s.mav_compid = v as u8;
                Ok(())
            },
            Err(e) => Err(e),
        },
        FormField::Baud => match int_field(value, 0xFFFF_FFFF) {
            Ok(v) => {
                s.mavlink_baud = v as u32;
                Ok(())
            },
            Err(e) => Err(e),
        },
        FormField::VpeHz => match int_field(value, 0xFFFF) {
            Ok(v) => {
                s.vpe_rate_hz = v as u16;
                Ok(())
            },
            Err(e) => Err(e),
        },
        FormField::HbHz => match int_field(value, 0xFFFF) {
            Ok(v) => {
                s.heartbeat_rate_hz = v as u16;
                Ok(())
            },
            Err(e) => Err(e),
        },
        FormField::TimeoutMs => match int_field(value, 0xFFFF_FFFF) {
            Ok(v) => {
                s.track_timeout_ms = v as u32;
                Ok(())
            },
            Err(e) => Err(e),
        },
    }
}

/// The settings after one `key=value` pair of the form, or why the pair is refused.
#[verifier::opaque]
pub open spec fn pair_update(s: SettingsView, pair: Seq<u8>) -> Result<SettingsView, &'static str> {
    match byte_from(pair, 61, 0) {
        // '='
        None => Err("malformed form field (no '=')"),
        Some(eq) => match percent_decoded(pair.subrange(0, eq), 0, Seq::empty(), 16) {
            Err(e) => Err(e),
            Ok(key) => match percent_decoded(
                pair.subrange(eq + 1, pair.len() as int),
                0,
                Seq::empty(),
                64,
            ) {
                Err(e) => Err(e),
                Ok(value) => if !valid_utf8(key) {
                    Err("form key is not UTF-8")
                } else if !valid_utf8(value) {
                    Err("form value is not UTF-8")
                } else {
                    match form_field(decode_utf8(key)) {
                        None => Ok(s),
                        Some(f) => field_update(s, f, decode_utf8(value)),
                    }
                },
            },
        },
    }
}

fn apply_pair(s: &mut Settings, pair: &[u8]) -> (r: Result<(), &'static str>)
    ensures
        match pair_update(old(s)@, pair@) {
            Ok(t) => r is Ok && final(s)@ == t,
            Err(e) => r == Err::<(), &'static str>(e) && final(s)@ == old(s)@,
        },
{
    reveal(pair_update);
    let len: usize = pair.len();
    let eq: usize = find_byte(pair, 61u8 /* '=' */, 0, len);
    assert(pair@.subrange(0, len as int) =~= pair@);
    if eq == len {
        return Err("malformed form field (no '=')");
    }
    let key_raw: &[u8] = vstd::slice::slice_subrange(pair, 0, eq);
    let value_raw: &[u8] = vstd::slice::slice_subrange(pair, eq + 1, len);
    let key = percent_decode_key(key_raw)?;
    let value = percent_decode_value(value_raw)?;
    let key: &str = match str_from_utf8(vec16_as_slice(&key)) {
        Some(k) => k,
        None => return Err("form key is not UTF-8"),
    };
    let value: &str = match str_from_utf8(vec64_as_slice(&value)) {
        Some(v) => v,
        None => return Err("form value is not UTF-8"),
    };
    match field_of(key) {
        None => Ok(()),  // unknown key: ignore
        Some(f) => {
            set_field(s, f, value)
        },
    }
}

/// The settings after the `&`-separated pieces of `rest` (empty pieces are
/// skipped), and the first refusal, if any.
pub open spec fn apply_pieces(s: SettingsView, rest: Seq<u8>) -> (SettingsView, Result<
    (),
    &'static str,
>)
    decreases rest.len(),
{
    match byte_from(rest, 38, 0) {
        // '&'
        Some(a) => {
            let piece = rest.subrange(0, a);
            let step = if piece.len() == 0 {
                Ok(s)
            } else {
                pair_update(s, piece)
            };
            match step {
                Err(e) => (s, Err(e)),
                Ok(t) => if 0 <= a < rest.len() {
                    apply_pieces(t, rest.subrange(a + 1, rest.len() as int))
                } else {
                    (t, Ok(()))
                },
            }
        },
        None => {
            let step = if rest.len() == 0 {
                Ok(s)
            } else {
                pair_update(s, rest)
            };
            match step {
                Err(e) => (s, Err(e)),
                Ok(t) => (t, Ok(())),
            }
        },
    }
}

/// The settings after applying a submitted form body to `s`, and the outcome:
/// the first refused field, or else the validation of the result.
pub open spec fn form_outcome(s: SettingsView, body: Seq<u8>) -> (SettingsView, Result<
    (),
    &'static str,
>) {
    let (t, r) = apply_pieces(s, body);
    match r {
        Err(e) => (t, Err(e)),
        Ok(()) => (t, settings_check(t)),
    }
}

proof fn lemma_pair_keeps_fit(s: SettingsView, pair: Seq<u8>)
    requires
        fits_image(s),
    ensures
        pair_update(s, pair) matches Ok(t) ==> fits_image(t),
{
    reveal(pair_update);
    reveal(field_update);
}

proof fn lemma_pieces_keep_fit(s: SettingsView, rest: Seq<u8>)
    requires
        fits_image(s),
    ensures
        fits_image(apply_pieces(s, rest).0),
    decreases rest.len(),
{
    match byte_from(rest, 38, 0) {
        Some(a) => {
            let piece = rest.subrange(0, a);
            if piece.len() != 0 {
                lemma_pair_keeps_fit(s, piece);
            }
            let step = if piece.len() == 0 {
                Ok(s)
            } else {
                pair_update(s, piece)
            };
            if let Ok(t) = step {
                if 0 <= a < rest.len() {
                    lemma_pieces_keep_fit(t, rest.subrange(a + 1, rest.len() as int));
                }
            }
        },
        None => {
            if rest.len() != 0 {
                lemma_pair_keeps_fit(s, rest);
            }
        },
    }
}

/// A form the portal accepts leaves settings that pass validation, and they
/// read back unchanged from the flash image they are saved as.
pub proof fn lemma_accepted_form_persists(s: SettingsView, body: Seq<u8>)
    requires
        fits_image(s),
        form_outcome(s, body).1 is Ok,
    ensures
        settings_check(form_outcome(s, body).0) is Ok,
        settings_from(settings_image(form_outcome(s, body).0)) == Some(form_outcome(s, body).0),
{
    lemma_pieces_keep_fit(s, body);
    lemma_image_roundtrip(form_outcome(s, body).0);
}

pub fn apply_form(s: &mut Settings, body: &[u8]) -> (r: Result<(), &'static str>)
    ensures
        (final(s)@, r) == form_outcome(old(s)@, body@),
{
    let len: usize = body.len();
    let mut start: usize = 0;
    assert(body@.subrange(0, len as int) =~= body@);
    loop
        invariant
            start <= len,
            len == body@.len(),
            form_outcome(old(s)@, body@) == form_outcome(s@, body@.subrange(start as int, len as int)),
        decreases len - start,
    {
        let ghost rest = body@.subrange(start as int, len as int);
        let ghost before = s@;
        let end: usize = find_byte(body, 38u8 /* '&' */, start, len);
        proof {
            lemma_byte_from_bounds(rest, 38, 0);
        }
        let piece: &[u8] = vstd::slice::slice_subrange(body, start, end);
        assert(piece@ =~= rest.subrange(0, end - start));
        if end > start {
            match apply_pair(s, piece) {
                Ok(()) => {},
                Err(e) => {
                    assert(form_outcome(before, rest) == (before, Err::<(), &'static str>(e)));
                    return Err(e);
                },
            }
        }
        if end == len {
            assert(piece@ =~= rest);
            assert(apply_pieces(before, rest) == (s@, Ok::<(), &'static str>(())));
            return s.validate();
        }
        assert(rest.subrange(end - start + 1, rest.len() as int) =~= body@.subrange(
            end + 1,
            len as int,
        ));
        assert(apply_pieces(before, rest) == apply_pieces(s@, body@.subrange(end + 1, len as int)));
        start = end + 1;
    }
}

} // verus!
