//! Govee BLE packet layout: twenty bytes, `0x33`, a command, a zero-padded
//! payload and an XOR checksum of the first nineteen bytes.
use vstd::prelude::*;
use crate::network::{words, words_of};
use crate::text::{
    char_vecs, chars_of, debug_quoted, debug_text, hex_value, is_ascii_hexdigit, is_hexdigit, push_chars,
    push_str, skip_chars, string_of, trim, trim_str,
};

verus! {

/// UUID of the Govee light-control characteristic that every packet is written to.
pub const CONTROL_CHARACTERISTIC: &'static str = "00010203-0405-0607-0809-0a0b0c0d2b11";

/// What `uuid::Uuid::parse_str` answers for a text: the UUID as a
/// big-endian 128-bit number, or the text of its parse error.
pub uninterp spec fn parsed_uuid(text: Seq<char>) -> Result<u128, Seq<char>>;

/// The hyphenated form `xxxxxxxx-xxxx-xxxx-xxxx-xxxxxxxxxxxx`: 36
/// characters, hyphens at 8, 13, 18 and 23, hexadecimal digits elsewhere.
pub open spec fn is_hyphenated_uuid(t: Seq<char>) -> bool {
    &&& t.len() == 36
    &&& forall|i: int|
        0 <= i < 36 ==> if i == 8 || i == 13 || i == 18 || i == 23 {
            #[trigger] t[i] == '-'
        } else {
            is_ascii_hexdigit(t[i])
        }
}

/// The 32 digits of a hyphenated UUID.
pub open spec fn uuid_digits(t: Seq<char>) -> Seq<char> {
    t.subrange(0, 8) + t.subrange(9, 13) + t.subrange(14, 18) + t.subrange(19, 23) + t.subrange(
        24,
        36,
    )
}

/// Hexadecimal digits read as one big-endian number.
pub open spec fn hex_number(d: Seq<char>) -> nat
    decreases d.len(),
{
    if d.len() == 0 {
        0
    } else {
        hex_number(d.drop_last()) * 16 + hex_value(d.last())
    }
}

/// A successful parse of the value `v`.
pub open spec fn parsed_value(v: nat) -> Result<u128, String> {
    Ok(v as u128)
}

/// Parses a UUID with `uuid::Uuid::parse_str`, giving the value as
/// `Uuid::as_u128` does or the error's display text. For the hyphenated form
/// the crate's parser reads the 32 digits (either case) as a big-endian
/// number; the other accepted forms and the error texts are left to the name.
#[verifier::external_body]
fn parse_uuid(text: &str) -> (r: Result<u128, String>)
    ensures
        match r {
            Ok(v) => parsed_uuid(text@) == Ok::<u128, Seq<char>>(v),
            Err(e) => parsed_uuid(text@) == Err::<u128, Seq<char>>(e@),
        },
        is_hyphenated_uuid(text@) ==> r == parsed_value(hex_number(uuid_digits(text@))),
{
    match uuid::Uuid::parse_str(text) {
        Ok(u) => Ok(u.as_u128()),
        Err(e) => Err(e.to_string()),
    }
}

/// The characteristic's UUID from a parse result; a parse error is
/// reported as an invalid control UUID.
pub fn control_uuid_from(parsed: Result<u128, String>) -> (r: Result<u128, String>)
    ensures
        match parsed {
            Ok(v) => r == Ok::<u128, String>(v),
            Err(e) => r matches Err(m) && m@ == "invalid control UUID: "@ + e@,
        },
{
    match parsed {
        Ok(v) => Ok(v),
        Err(e) => {
            let mut m = chars_of("invalid control UUID: ");
            push_str(&mut m, e.as_str());
            Err(string_of(&m))
        },
    }
}

/// The UUID of the control characteristic, as the lights advertise it.
pub fn control_characteristic_uuid() -> (r: Result<u128, String>)
    ensures
        r == Ok::<u128, String>(0x0001_0203_0405_0607_0809_0a0b_0c0d_2b11),
{
    proof {
        reveal_strlit("00010203-0405-0607-0809-0a0b0c0d2b11");
        let t = CONTROL_CHARACTERISTIC@;
        assert(is_hyphenated_uuid(t));
        let d = uuid_digits(t);
        reveal_strlit("000102030405060708090a0b0c0d2b11");
        assert(d =~= "000102030405060708090a0b0c0d2b11"@);
        lemma_hex_number_of_control(d);
    }
    control_uuid_from(parse_uuid(CONTROL_CHARACTERISTIC))
}

proof fn lemma_hex_number_of_control(d: Seq<char>)
    requires
        d == "000102030405060708090a0b0c0d2b11"@,
    ensures
        hex_number(d) == 0x0001_0203_0405_0607_0809_0a0b_0c0d_2b11,
{
    reveal_strlit("000102030405060708090a0b0c0d2b11");
    assert(hex_number(d.take(0)) == 0);
    assert(d.take(1).drop_last() =~= d.take(0));
    assert(hex_number(d.take(1)) == 0);
    assert(d.take(2).drop_last() =~= d.take(1));
    assert(hex_number(d.take(2)) == 0);
    assert(d.take(3).drop_last() =~= d.take(2));
    assert(hex_number(d.take(3)) == 0);
    assert(d.take(4).drop_last() =~= d.take(3));
    assert(hex_number(d.take(4)) == 1);
    assert(d.take(5).drop_last() =~= d.take(4));
    assert(hex_number(d.take(5)) == 16);
    assert(d.take(6).drop_last() =~= d.take(5));
    assert(hex_number(d.take(6)) == 258);
    assert(d.take(7).drop_last() =~= d.take(6));
    assert(hex_number(d.take(7)) == 4128);
    assert(d.take(8).drop_last() =~= d.take(7));
    assert(hex_number(d.take(8)) == 66051);
    assert(d.take(9).drop_last() =~= d.take(8));
    assert(hex_number(d.take(9)) == 1056816);
    assert(d.take(10).drop_last() =~= d.take(9));
    assert(hex_number(d.take(10)) == 16909060);
    assert(d.take(11).drop_last() =~= d.take(10));
    assert(hex_number(d.take(11)) == 270544960);
    assert(d.take(12).drop_last() =~= d.take(11));
    assert(hex_number(d.take(12)) == 4328719365);
    assert(d.take(13).drop_last() =~= d.take(12));
    assert(hex_number(d.take(13)) == 69259509840);
    assert(d.take(14).drop_last() =~= d.take(13));
    assert(hex_number(d.take(14)) == 1108152157446);
    assert(d.take(15).drop_last() =~= d.take(14));
    assert(hex_number(d.take(15)) == 17730434519136);
    assert(d.take(16).drop_last() =~= d.take(15));
    assert(hex_number(d.take(16)) == 283686952306183);
    assert(d.take(17).drop_last() =~= d.take(16));
    assert(hex_number(d.take(17)) == 4538991236898928);
    assert(d.take(18).drop_last() =~= d.take(17));
    assert(hex_number(d.take(18)) == 72623859790382856);
    assert(d.take(19).drop_last() =~= d.take(18));
    assert(hex_number(d.take(19)) == 1161981756646125696);
    assert(d.take(20).drop_last() =~= d.take(19));
    assert(hex_number(d.take(20)) == 18591708106338011145);
    assert(d.take(21).drop_last() =~= d.take(20));
    assert(hex_number(d.take(21)) == 297467329701408178320);
    assert(d.take(22).drop_last() =~= d.take(21));
    assert(hex_number(d.take(22)) == 4759477275222530853130);
    assert(d.take(23).drop_last() =~= d.take(22));
    assert(hex_number(d.take(23)) == 76151636403560493650080);
    assert(d.take(24).drop_last() =~= d.take(23));
    assert(hex_number(d.take(24)) == 1218426182456967898401291);
    assert(d.take(25).drop_last() =~= d.take(24));
    assert(hex_number(d.take(25)) == 19494818919311486374420656);
    assert(d.take(26).drop_last() =~= d.take(25));
    assert(hex_number(d.take(26)) == 311917102708983781990730508);
    assert(d.take(27).drop_last() =~= d.take(26));
    assert(hex_number(d.take(27)) == 4990673643343740511851688128);
    assert(d.take(28).drop_last() =~= d.take(27));
    assert(hex_number(d.take(28)) == 79850778293499848189627010061);
    assert(d.take(29).drop_last() =~= d.take(28));
    assert(hex_number(d.take(29)) == 1277612452695997571034032160978);
    assert(d.take(30).drop_last() =~= d.take(29));
    assert(hex_number(d.take(30)) == 20441799243135961136544514575659);
    assert(d.take(31).drop_last() =~= d.take(30));
    assert(hex_number(d.take(31)) == 327068787890175378184712233210545);
    assert(d.take(32).drop_last() =~= d.take(31));
    assert(hex_number(d.take(32)) == 5233100606242806050955395731368721);
    assert(d.take(32) =~= d);
}

/// The two packet dialects of supported lights.
#[derive(Debug, Clone, Copy, PartialEq, Eq, Structural)]
pub enum DeviceProfile {
    Classic,
    H6005,
}

impl DeviceProfile {
    /// The mode byte of ordinary (manual) color control.
    pub open spec fn spec_manual_mode(self) -> u8 {
        match self {
            DeviceProfile::Classic => 0x02,
            DeviceProfile::H6005 => 0x0d,
        }
    }

    pub fn manual_mode(self) -> (m: u8)
        ensures
            m == self.spec_manual_mode(),
    {
        match self {
            DeviceProfile::Classic => 0x02,
            DeviceProfile::H6005 => 0x0d,
        }
    }
}

/// XOR of all bytes of a sequence.
pub open spec fn xor_all(s: Seq<u8>) -> u8
    decreases s.len(),
{
    if s.len() == 0 {
        0
    } else {
        xor_all(s.drop_last()) ^ s.last()
    }
}

/// The nineteen bytes before the checksum: marker, command, payload, zero padding.
pub open spec fn frame_body(command: u8, payload: Seq<u8>) -> Seq<u8> {
    seq![0x33u8, command] + payload + Seq::new((17 - payload.len()) as nat, |i: int| 0u8)
}

/// A complete packet: the body followed by its XOR checksum.
pub open spec fn frame_bytes(command: u8, payload: Seq<u8>) -> Seq<u8> {
    frame_body(command, payload).push(xor_all(frame_body(command, payload)))
}

pub open spec fn color_payload(profile: DeviceProfile, rgb: Seq<u8>) -> Seq<u8> {
    seq![profile.spec_manual_mode(), rgb[0], rgb[1], rgb[2]]
}

/// The temperature written into an H6005 white packet: the requested Kelvin,
/// or zero when none was given.
pub open spec fn kelvin_value(kelvin: Option<u16>) -> u16 {
    match kelvin {
        Some(k) => k,
        None => 0,
    }
}

/// Dedicated-white payloads differ by profile. Classic (H6001): mode `02`,
/// `FF FF FF`, the white flag `01`, then RGB; it takes no temperature. H6005:
/// mode `0D`, RGB, the Kelvin value big-endian, then RGB again.
pub open spec fn white_payload(profile: DeviceProfile, rgb: Seq<u8>, kelvin: Option<u16>) -> Seq<
    u8,
> {
    match profile {
        DeviceProfile::Classic => seq![0x02u8, 0xffu8, 0xffu8, 0xffu8, 0x01u8, rgb[0], rgb[1], rgb[2]],
        DeviceProfile::H6005 => seq![
            0x0du8,
            rgb[0],
            rgb[1],
            rgb[2],
            (kelvin_value(kelvin) / 256) as u8,
            (kelvin_value(kelvin) % 256) as u8,
            rgb[0],
            rgb[1],
            rgb[2],
        ],
    }
}

/// Every packet XORs to zero: the checksum cancels the body.
pub proof fn lemma_frame_checksum(command: u8, payload: Seq<u8>)
    requires
        payload.len() <= 17,
    ensures
        frame_bytes(command, payload).len() == 20,
        frame_bytes(command, payload)[0] == 0x33,
        frame_bytes(command, payload)[1] == command,
        xor_all(frame_bytes(command, payload)) == 0,
{
    let body = frame_body(command, payload);
    let x = xor_all(body);
    assert(frame_bytes(command, payload).drop_last() =~= body);
    assert(x ^ x == 0) by (bit_vector);
}

fn frame(command: u8, payload: &[u8]) -> (bytes: [u8; 20])
    requires
        payload@.len() <= 17,
    ensures
        bytes@ == frame_bytes(command, payload@),
{
    let mut bytes = [0u8; 20];
    bytes[0] = 0x33;
    bytes[1] = command;
    let mut i: usize = 0;
    while i < payload.len()
        invariant
            i <= payload@.len() <= 17,
            bytes@.len() == 20,
            bytes@[0] == 0x33,
            bytes@[1] == command,
            forall|k: int| 0 <= k < i ==> bytes@[k + 2] == payload@[k],
            forall|k: int| i + 2 <= k < 20 ==> bytes@[k] == 0,
        decreases payload@.len() - i,
    {
        bytes[i + 2] = payload[i];
        i += 1;
    }
    let ghost body = frame_body(command, payload@);
    assert(bytes@.take(19) =~= body);
    let mut checksum: u8 = 0;
    let mut j: usize = 0;
    while j < 19
        invariant
            j <= 19,
            bytes@.len() == 20,
            bytes@.take(19) == body,
            checksum == xor_all(body.take(j as int)),
        decreases 19 - j,
    {
        assert(body.take(j + 1).drop_last() =~= body.take(j as int));
        checksum = checksum ^ bytes[j];
        j += 1;
    }
    assert(body.take(19) =~= body);
    bytes[19] = checksum;
    assert(bytes@ =~= frame_bytes(command, payload@));
    bytes
}

/// Ordinary RGB color: command `0x05`, the profile's mode byte, then RGB.
pub fn color_frame(profile: DeviceProfile, rgb: [u8; 3]) -> (bytes: [u8; 20])
    ensures
        bytes@ == frame_bytes(0x05, color_payload(profile, rgb@)),
{
    let payload = [profile.manual_mode(), rgb[0], rgb[1], rgb[2]];
    let r = frame(0x05, payload.as_slice());
    assert(payload@ =~= color_payload(profile, rgb@));
    r
}

/// Dedicated-white color (command `0x05`) in the profile's own layout; the
/// Kelvin value is used by H6005 lights only.
pub fn white_frame(profile: DeviceProfile, rgb: [u8; 3], kelvin: Option<u16>) -> (bytes: [u8; 20])
    ensures
        bytes@ == frame_bytes(0x05, white_payload(profile, rgb@, kelvin)),
{
    match profile {
        DeviceProfile::Classic => {
            let payload = [0x02, 0xff, 0xff, 0xff, 0x01, rgb[0], rgb[1], rgb[2]];
            let r = frame(0x05, payload.as_slice());
            assert(payload@ =~= white_payload(profile, rgb@, kelvin));
            r
        },
        DeviceProfile::H6005 => {
            let k: u16 = match kelvin {
                Some(k) => k,
                None => 0,
            };
            let high = (k / 256) as u8;
            let low = (k % 256) as u8;
            let payload = [0x0d, rgb[0], rgb[1], rgb[2], high, low, rgb[0], rgb[1], rgb[2]];
            let r = frame(0x05, payload.as_slice());
            assert(payload@ =~= white_payload(profile, rgb@, kelvin));
            r
        },
    }
}

/// Brightness packet (command `0x04`) for an 8-bit brightness level.
pub fn brightness_level_frame(level: u8) -> (bytes: [u8; 20])
    ensures
        bytes@ == frame_bytes(0x04, seq![level]),
{
    let payload = [level];
    let r = frame(0x04, payload.as_slice());
    assert(payload@ =~= seq![level]);
    r
}

/// Power packet (command `0x01`): `01` for on, `00` for off.
pub fn power_frame(on: bool) -> (bytes: [u8; 20])
    ensures
        bytes@ == frame_bytes(0x01, seq![if on { 1u8 } else { 0u8 }]),
{
    let payload = [if on { 1u8 } else { 0u8 }];
    let r = frame(0x01, payload.as_slice());
    assert(payload@ =~= seq![if on { 1u8 } else { 0u8 }]);
    r
}

/// The keep-alive no-op: `AA 01`, seventeen zero bytes, and the XOR checksum `AB`.
pub open spec fn keep_alive_bytes() -> Seq<u8> {
    seq![0xaau8, 0x01u8] + Seq::new(17, |i: int| 0u8) + seq![0xabu8]
}

/// The no-op a held link receives every two seconds; it changes nothing on
/// the light and also XORs to zero.
pub fn keep_alive_frame() -> (bytes: [u8; 20])
    ensures
        bytes@ == keep_alive_bytes(),
        xor_all(bytes@) == 0,
{
    let mut bytes = [0u8; 20];
    bytes[0] = 0xaa;
    bytes[1] = 0x01;
    bytes[19] = 0xab;
    assert(bytes@ =~= keep_alive_bytes());
    proof {
        let b = bytes@;
        assert forall|k: int| 2 <= k <= 19 implies xor_all(#[trigger] b.take(k)) == 0xabu8 by {
            lemma_zero_tail_xor(b, k);
        }
        assert(b.take(20) =~= b);
        assert(b.take(19).drop_last() =~= b.take(18));
        assert(b.take(20).drop_last() =~= b.take(19));
        assert(0xabu8 ^ 0xabu8 == 0) by (bit_vector);
    }
    bytes
}

proof fn lemma_zero_tail_xor(b: Seq<u8>, k: int)
    requires
        b == keep_alive_bytes(),
        2 <= k <= 19,
    ensures
        xor_all(b.take(k)) == 0xabu8,
    decreases k,
{
    if k == 2 {
        assert(b.take(2).drop_last() =~= b.take(1));
        assert(b.take(1).drop_last() =~= b.take(0));
        assert(b[0] == 0xaau8 && b[1] == 0x01u8);
        assert(xor_all(b.take(0)) == 0);
        assert(b.take(1).last() == b[0]);
        assert(b.take(2).last() == b[1]);
        assert(0u8 ^ 0xaau8 == 0xaau8) by (bit_vector);
        assert(xor_all(b.take(1)) == 0xaau8);
        assert(0xaau8 ^ 0x01u8 == 0xabu8) by (bit_vector);
    } else {
        lemma_zero_tail_xor(b, k - 1);
        assert(b.take(k).drop_last() =~= b.take(k - 1));
        assert(b.take(k).last() == b[k - 1]);
        assert(b[k - 1] == 0);
        assert(0xabu8 ^ 0u8 == 0xabu8) by (bit_vector);
    }
}

/// One byte of an experimental payload: two hexadecimal digits.
pub open spec fn is_byte_word(w: Seq<char>) -> bool {
    w.len() == 2 && is_ascii_hexdigit(w[0]) && is_ascii_hexdigit(w[1])
}

/// The bytes an experimental payload spells: one to seventeen
/// whitespace-separated pairs of hexadecimal digits (either case), such as
/// `04 08`; any other text spells none.
pub open spec fn experiment_bytes(payload: Seq<char>) -> Option<Seq<u8>> {
    let ws = words(payload);
    if 1 <= ws.len() <= 17 && forall|i: int| 0 <= i < ws.len() ==> is_byte_word(#[trigger] ws[i]) {
        Some(Seq::new(ws.len(), |i: int| hex_pair_value(ws[i][0], ws[i][1])))
    } else {
        None
    }
}

pub open spec fn experiment_error() -> Seq<char> {
    "experimental payload must be 1 to 17 hexadecimal bytes, such as 04 08"@
}

/// An experimental packet: the payload's bytes after the fixed `33 05`
/// color/mode prefix, padded and checksummed like every packet.
pub fn experiment_frame(payload: &str) -> (r: Result<[u8; 20], String>)
    ensures
        match experiment_bytes(payload@) {
            Some(b) => r matches Ok(f) && f@ == frame_bytes(0x05, b),
            None => r matches Err(m) && m@ == experiment_error(),
        },
{
    let text = chars_of(payload);
    let ws = words_of(&text);
    let ghost all = char_vecs(ws@);
    if ws.len() < 1 || ws.len() > 17 {
        return Err("experimental payload must be 1 to 17 hexadecimal bytes, such as 04 08".to_string());
    }
    let mut bytes: Vec<u8> = Vec::new();
    let mut i: usize = 0;
    while i < ws.len()
        invariant
            i <= ws@.len() <= 17,
            all == char_vecs(ws@),
            all == words(payload@),
            bytes@.len() == i,
            forall|j: int| 0 <= j < i ==> is_byte_word(#[trigger] all[j]),
            forall|j: int| 0 <= j < i ==> #[trigger] bytes@[j] == hex_pair_value(all[j][0], all[j][1]),
        decreases ws@.len() - i,
    {
        let w = &ws[i];
        assert(w@ == all[i as int]);
        if w.len() != 2 || !is_hexdigit(w[0]) || !is_hexdigit(w[1]) {
            assert(!is_byte_word(all[i as int]));
            return Err("experimental payload must be 1 to 17 hexadecimal bytes, such as 04 08".to_string());
        }
        bytes.push(hex_pair(w[0], w[1]));
        i += 1;
    }
    assert(bytes@ =~= Seq::new(all.len(), |j: int| hex_pair_value(all[j][0], all[j][1])));
    Ok(frame(0x05, bytes.as_slice()))
}

/// The six hexadecimal digits of a color: trimmed text with one leading `#` removed.
pub open spec fn hex_color_digits(value: Seq<char>) -> Seq<char> {
    let t = trim(value);
    if t.len() > 0 && t[0] == '#' {
        t.drop_first()
    } else {
        t
    }
}

/// Whether `value` is a CSS-style color such as `#ff6b2c` (case-insensitive,
/// `#` optional, surrounding whitespace ignored).
pub open spec fn is_hex_color(value: Seq<char>) -> bool {
    let h = hex_color_digits(value);
    &&& h.len() == 6
    &&& forall|i: int| 0 <= i < 6 ==> is_ascii_hexdigit(#[trigger] h[i])
}

pub open spec fn hex_pair_value(hi: char, lo: char) -> u8 {
    (hex_value(hi) * 16 + hex_value(lo)) as u8
}

/// The RGB value of a color accepted by `is_hex_color`.
pub open spec fn hex_color_rgb(value: Seq<char>) -> Seq<u8> {
    let h = hex_color_digits(value);
    seq![hex_pair_value(h[0], h[1]), hex_pair_value(h[2], h[3]), hex_pair_value(h[4], h[5])]
}

pub open spec fn hex_color_error(value: Seq<char>) -> Seq<char> {
    "expected a color like #ff6b2c, got "@ + debug_text(value)
}

fn hex_pair(hi: char, lo: char) -> (b: u8)
    requires
        is_ascii_hexdigit(hi),
        is_ascii_hexdigit(lo),
    ensures
        b == hex_pair_value(hi, lo),
{
    let h = hex_nibble(hi);
    let l = hex_nibble(lo);
    h * 16 + l
}

fn hex_nibble(c: char) -> (n: u8)
    requires
        is_ascii_hexdigit(c),
    ensures
        n == hex_value(c),
        n < 16,
{
    if '0' <= c && c <= '9' {
        (c as u32 - 48) as u8
    } else if 'a' <= c && c <= 'f' {
        (c as u32 - 87) as u8
    } else {
        (c as u32 - 55) as u8
    }
}

/// Parses a color such as `#00a1FF` into RGB.
pub fn parse_hex_color(value: &str) -> (r: Result<[u8; 3], String>)
    ensures
        match r {
            Ok(rgb) => is_hex_color(value@) && rgb@ == hex_color_rgb(value@),
            Err(m) => !is_hex_color(value@) && m@ == hex_color_error(value@),
        },
{
    let t = trim_str(value);
    let h = if t.len() > 0 && t[0] == '#' {
        skip_chars(&t, 1)
    } else {
        t
    };
    assert(h@ == hex_color_digits(value@)) by {
        if trim(value@).len() > 0 && trim(value@)[0] == '#' {
            assert(trim(value@).skip(1) =~= trim(value@).drop_first());
        }
    }
    let mut ok = h.len() == 6;
    let mut i: usize = 0;
    while ok && i < h.len()
        invariant
            h@ == hex_color_digits(value@),
            ok ==> h@.len() == 6,
            !ok ==> !is_hex_color(value@),
            ok ==> forall|k: int| 0 <= k < i ==> is_ascii_hexdigit(#[trigger] h@[k]),
            i <= h@.len(),
        decreases h@.len() - i,
    {
        if !is_hexdigit(h[i]) {
            assert(!is_ascii_hexdigit(h@[i as int]));
            ok = false;
        }
        i += 1;
    }
    if !ok {
        let mut m = chars_of("expected a color like #ff6b2c, got ");
        let q = debug_quoted(value);
        let qc = chars_of(q.as_str());
        push_chars(&mut m, &qc);
        return Err(string_of(&m));
    }
    let rgb = [hex_pair(h[0], h[1]), hex_pair(h[2], h[3]), hex_pair(h[4], h[5])];
    assert(rgb@ =~= hex_color_rgb(value@));
    Ok(rgb)
}

}
