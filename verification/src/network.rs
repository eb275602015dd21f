//! Home-network identity: the Wi-Fi interfaces, the IPv4 default router and
//! a SHA-256 fingerprint of the router's hardware address, read from the
//! text printed by macOS network tools.
use vstd::prelude::*;
use crate::digest::{sha256, sha256_hex};
use crate::text::{
    char_vecs, chars_eq, chars_of, decimal, hex_bytes, hex_value, is_ascii_digit,
    is_ascii_hexdigit, is_digit, lemma_hex_bytes_shape, is_hexdigit, is_space, is_whitespace, push_chars, push_decimal,
    push_str, skip_chars, starts_with, string_of, trim, trim_chars,
};

verus! {

/// The router fingerprint of the current network, if one could be read.
#[derive(Debug)]
pub struct HomeNetworkStatus {
    pub fingerprint: Option<String>,
}

pub open spec fn strip_cr(line: Seq<char>) -> Seq<char> {
    if line.len() > 0 && line.last() == '\r' {
        line.drop_last()
    } else {
        line
    }
}

/// `str::lines` continued from a partial line `cur`.
pub open spec fn lines_from(cur: Seq<char>, rest: Seq<char>) -> Seq<Seq<char>>
    decreases rest.len(),
{
    if rest.len() == 0 {
        if cur.len() == 0 {
            seq![]
        } else {
            seq![cur]
        }
    } else if rest[0] == '\n' {
        seq![strip_cr(cur)] + lines_from(seq![], rest.drop_first())
    } else {
        lines_from(cur.push(rest[0]), rest.drop_first())
    }
}

/// `str::lines`: split at `\n`, drop one `\r` before each `\n`, no empty
/// last line.
pub open spec fn lines(s: Seq<char>) -> Seq<Seq<char>> {
    lines_from(seq![], s)
}

/// `str::split` at one separator character, keeping empty pieces.
pub open spec fn split_from(cur: Seq<char>, rest: Seq<char>, sep: char) -> Seq<Seq<char>>
    decreases rest.len(),
{
    if rest.len() == 0 {
        seq![cur]
    } else if rest[0] == sep {
        seq![cur] + split_from(seq![], rest.drop_first(), sep)
    } else {
        split_from(cur.push(rest[0]), rest.drop_first(), sep)
    }
}

pub open spec fn split(s: Seq<char>, sep: char) -> Seq<Seq<char>> {
    split_from(seq![], s, sep)
}

/// `str::split_whitespace` continued from a partial word `cur`.
pub open spec fn words_from(cur: Seq<char>, rest: Seq<char>) -> Seq<Seq<char>>
    decreases rest.len(),
{
    if rest.len() == 0 {
        if cur.len() == 0 {
            seq![]
        } else {
            seq![cur]
        }
    } else if is_whitespace(rest[0]) {
        (if cur.len() == 0 {
            seq![]
        } else {
            seq![cur]
        }) + words_from(seq![], rest.drop_first())
    } else {
        words_from(cur.push(rest[0]), rest.drop_first())
    }
}

pub open spec fn words(s: Seq<char>) -> Seq<Seq<char>> {
    words_from(seq![], s)
}

pub fn lines_of(s: &Vec<char>) -> (r: Vec<Vec<char>>)
    ensures
        char_vecs(r@) == lines(s@),
{
    let mut out: Vec<Vec<char>> = Vec::new();
    let mut cur: Vec<char> = Vec::new();
    let mut i: usize = 0;
    assert(s@.skip(0) =~= s@);
    while i < s.len()
        invariant
            i <= s.len(),
            char_vecs(out@) + lines_from(cur@, s@.skip(i as int)) == lines(s@),
        decreases s.len() - i,
    {
        let ghost before = char_vecs(out@);
        assert(s@.skip(i as int).drop_first() =~= s@.skip(i + 1));
        assert(s@.skip(i as int)[0] == s@[i as int]);
        if s[i] == '\n' {
            let mut line = cur;
            if line.len() > 0 && line[line.len() - 1] == '\r' {
                line.pop();
                assert(line@ =~= strip_cr(cur@));
            }
            out.push(line);
            cur = Vec::new();
            assert(char_vecs(out@) =~= before + seq![strip_cr(cur@)].take(0) + seq![line@]);
            assert(char_vecs(out@) + lines_from(cur@, s@.skip(i + 1)) =~= before + (seq![
                line@,
            ] + lines_from(seq![], s@.skip(i + 1))));
        } else {
            cur.push(s[i]);
        }
        i += 1;
    }
    if cur.len() > 0 {
        out.push(cur);
        assert(char_vecs(out@) =~= lines(s@));
    } else {
        assert(char_vecs(out@) =~= lines(s@));
    }
    out
}

pub fn split_chars(s: &Vec<char>, sep: char) -> (r: Vec<Vec<char>>)
    ensures
        char_vecs(r@) == split(s@, sep),
{
    let mut out: Vec<Vec<char>> = Vec::new();
    let mut cur: Vec<char> = Vec::new();
    let mut i: usize = 0;
    assert(s@.skip(0) =~= s@);
    while i < s.len()
        invariant
            i <= s.len(),
            char_vecs(out@) + split_from(cur@, s@.skip(i as int), sep) == split(s@, sep),
        decreases s.len() - i,
    {
        let ghost before = char_vecs(out@);
        assert(s@.skip(i as int).drop_first() =~= s@.skip(i + 1));
        assert(s@.skip(i as int)[0] == s@[i as int]);
        if s[i] == sep {
            let ghost piece = cur@;
            out.push(cur);
            cur = Vec::new();
            assert(char_vecs(out@) =~= before + seq![piece]);
            assert(char_vecs(out@) + split_from(cur@, s@.skip(i + 1), sep) =~= before + (seq![
                piece,
            ] + split_from(seq![], s@.skip(i + 1), sep)));
        } else {
            cur.push(s[i]);
        }
        i += 1;
    }
    let ghost before = char_vecs(out@);
    out.push(cur);
    assert(char_vecs(out@) =~= split(s@, sep));
    out
}

pub fn words_of(s: &Vec<char>) -> (r: Vec<Vec<char>>)
    ensures
        char_vecs(r@) == words(s@),
{
    let mut out: Vec<Vec<char>> = Vec::new();
    let mut cur: Vec<char> = Vec::new();
    let mut i: usize = 0;
    assert(s@.skip(0) =~= s@);
    while i < s.len()
        invariant
            i <= s.len(),
            char_vecs(out@) + words_from(cur@, s@.skip(i as int)) == words(s@),
        decreases s.len() - i,
    {
        let ghost before = char_vecs(out@);
        assert(s@.skip(i as int).drop_first() =~= s@.skip(i + 1));
        assert(s@.skip(i as int)[0] == s@[i as int]);
        if is_space(s[i]) {
            if cur.len() > 0 {
                let ghost piece = cur@;
                out.push(cur);
                cur = Vec::new();
                assert(char_vecs(out@) =~= before + seq![piece]);
                assert(char_vecs(out@) + words_from(cur@, s@.skip(i + 1)) =~= before + (seq![
                    piece,
                ] + words_from(seq![], s@.skip(i + 1))));
            } else {
                assert(cur@ =~= Seq::<char>::empty());
                assert(words_from(cur@, s@.skip(i as int)) =~= words_from(cur@, s@.skip(i + 1)));
            }
        } else {
            cur.push(s[i]);
        }
        i += 1;
    }
    if cur.len() > 0 {
        out.push(cur);
    }
    assert(char_vecs(out@) =~= words(s@));
    out
}

pub open spec fn has_prefix(s: Seq<char>, p: Seq<char>) -> bool {
    p.len() <= s.len() && s.take(p.len() as int) == p
}

/// `en` followed by a non-empty decimal number, as macOS names Ethernet-style interfaces.
pub open spec fn is_en_device(d: Seq<char>) -> bool {
    &&& d.len() > 2
    &&& d[0] == 'e'
    &&& d[1] == 'n'
    &&& forall|i: int| 2 <= i < d.len() ==> is_ascii_digit(#[trigger] d[i])
}

pub open spec fn is_wifi_port(p: Seq<char>) -> bool {
    p == "Wi-Fi"@ || p == "AirPort"@
}

/// The devices listed under Wi-Fi hardware ports in `networksetup
/// -listallhardwareports` output, continuing with the given port state.
pub open spec fn interfaces_from(ls: Seq<Seq<char>>, wifi: bool) -> Seq<Seq<char>>
    decreases ls.len(),
{
    if ls.len() == 0 {
        seq![]
    } else {
        let line = ls[0];
        if has_prefix(line, "Hardware Port: "@) {
            interfaces_from(
                ls.drop_first(),
                is_wifi_port(trim(line.skip("Hardware Port: "@.len() as int))),
            )
        } else if wifi && has_prefix(line, "Device: "@) {
            let d = trim(line.skip("Device: "@.len() as int));
            (if is_en_device(d) {
                seq![d]
            } else {
                seq![]
            }) + interfaces_from(ls.drop_first(), wifi)
        } else {
            interfaces_from(ls.drop_first(), wifi)
        }
    }
}

/// A `Hardware Port:` line of the listing.
pub open spec fn port_line(line: Seq<char>) -> bool {
    has_prefix(line, "Hardware Port: "@)
}

/// A `Hardware Port:` line that names the Wi-Fi port (`Wi-Fi`, or `AirPort`
/// on older systems), ignoring surrounding whitespace.
pub open spec fn wifi_port_line(line: Seq<char>) -> bool {
    &&& port_line(line)
    &&& (trim(line.skip(15)) == "Wi-Fi"@ || trim(line.skip(15)) == "AirPort"@)
}

/// Line `j` falls under a Wi-Fi port: the nearest `Hardware Port:` line
/// before it names Wi-Fi.
pub open spec fn under_wifi_port(ls: Seq<Seq<char>>, j: int) -> bool {
    exists|p: int|
        0 <= p < j && #[trigger] wifi_port_line(ls[p]) && forall|q: int|
            p < q < j ==> !port_line(#[trigger] ls[q])
}

proof fn lemma_interfaces_come_from_wifi_devices(ls: Seq<Seq<char>>, wifi: bool, k: int)
    requires
        0 <= k < interfaces_from(ls, wifi).len(),
    ensures
        exists|j: int|
            0 <= j < ls.len() && has_prefix(#[trigger] ls[j], "Device: "@)
                && interfaces_from(ls, wifi)[k] == trim(ls[j].skip(8)) && (under_wifi_port(ls, j)
                || (wifi && forall|q: int| 0 <= q < j ==> !port_line(#[trigger] ls[q]))),
    decreases ls.len(),
{
    assert("Hardware Port: "@.len() == 15) by { reveal_strlit("Hardware Port: "); }
    assert("Device: "@.len() == 8) by { reveal_strlit("Device: "); }
    let line = ls[0];
    let rest = ls.drop_first();
    if port_line(line) {
        let w = is_wifi_port(trim(line.skip(15)));
        lemma_interfaces_come_from_wifi_devices(rest, w, k);
        let j0 = choose|j: int|
            0 <= j < rest.len() && has_prefix(#[trigger] rest[j], "Device: "@)
                && interfaces_from(rest, w)[k] == trim(rest[j].skip(8)) && (under_wifi_port(rest, j)
                || (w && forall|q: int| 0 <= q < j ==> !port_line(#[trigger] rest[q])));
        let j = j0 + 1;
        assert(ls[j] == rest[j0]);
        if under_wifi_port(rest, j0) {
            let p0 = choose|p: int|
                0 <= p < j0 && #[trigger] wifi_port_line(rest[p]) && forall|q: int|
                    p < q < j0 ==> !port_line(#[trigger] rest[q]);
            assert(ls[p0 + 1] == rest[p0]);
            assert forall|q: int| p0 + 1 < q < j implies !port_line(#[trigger] ls[q]) by {
                assert(ls[q] == rest[q - 1]);
            }
            assert(wifi_port_line(ls[p0 + 1]));
        } else {
            assert(wifi_port_line(ls[0]));
            assert forall|q: int| 0 < q < j implies !port_line(#[trigger] ls[q]) by {
                assert(ls[q] == rest[q - 1]);
            }
            assert(wifi_port_line(ls[0]));
        }
        assert(under_wifi_port(ls, j));
    } else if wifi && has_prefix(line, "Device: "@) {
        let d = trim(line.skip(8));
        let head: Seq<Seq<char>> = if is_en_device(d) { seq![d] } else { seq![] };
        assert(interfaces_from(ls, wifi) == head + interfaces_from(rest, wifi));
        if k < head.len() {
            assert(interfaces_from(ls, wifi)[k] == d);
            assert(has_prefix(ls[0], "Device: "@));
        } else {
            let k1 = k - head.len();
            assert(interfaces_from(ls, wifi)[k] == interfaces_from(rest, wifi)[k1]);
            lemma_interfaces_come_from_wifi_devices(rest, wifi, k1);
            let j0 = choose|j: int|
                0 <= j < rest.len() && has_prefix(#[trigger] rest[j], "Device: "@)
                    && interfaces_from(rest, wifi)[k1] == trim(rest[j].skip(8)) && (under_wifi_port(
                    rest,
                    j,
                ) || (wifi && forall|q: int| 0 <= q < j ==> !port_line(#[trigger] rest[q])));
            let j = j0 + 1;
            assert(ls[j] == rest[j0]);
            lemma_shift_under_wifi(ls, j0);
        }
    } else {
        lemma_interfaces_come_from_wifi_devices(rest, wifi, k);
        let j0 = choose|j: int|
            0 <= j < rest.len() && has_prefix(#[trigger] rest[j], "Device: "@)
                && interfaces_from(rest, wifi)[k] == trim(rest[j].skip(8)) && (under_wifi_port(rest, j)
                || (wifi && forall|q: int| 0 <= q < j ==> !port_line(#[trigger] rest[q])));
        let j = j0 + 1;
        assert(ls[j] == rest[j0]);
        lemma_shift_under_wifi(ls, j0);
    }
}

/// Prepending a line that is not a port line keeps what line `j` falls under.
proof fn lemma_shift_under_wifi(ls: Seq<Seq<char>>, j0: int)
    requires
        ls.len() > 0,
        0 <= j0 < ls.len() - 1,
        !port_line(ls[0]),
    ensures
        under_wifi_port(ls.drop_first(), j0) ==> under_wifi_port(ls, j0 + 1),
        (forall|q: int| 0 <= q < j0 ==> !port_line(#[trigger] ls.drop_first()[q])) ==> (forall|q: int|
            0 <= q < j0 + 1 ==> !port_line(#[trigger] ls[q])),
{
    let rest = ls.drop_first();
    if under_wifi_port(rest, j0) {
        let p0 = choose|p: int|
            0 <= p < j0 && #[trigger] wifi_port_line(rest[p]) && forall|q: int|
                p < q < j0 ==> !port_line(#[trigger] rest[q]);
        assert(ls[p0 + 1] == rest[p0]);
        assert forall|q: int| p0 + 1 < q < j0 + 1 implies !port_line(#[trigger] ls[q]) by {
            assert(ls[q] == rest[q - 1]);
        }
        assert(wifi_port_line(ls[p0 + 1]));
    }
    if forall|q: int| 0 <= q < j0 ==> !port_line(#[trigger] rest[q]) {
        assert forall|q: int| 0 <= q < j0 + 1 implies !port_line(#[trigger] ls[q]) by {
            if q > 0 {
                assert(ls[q] == rest[q - 1]);
            }
        }
    }
}

proof fn lemma_interfaces_are_en_devices(ls: Seq<Seq<char>>, wifi: bool, k: int)
    requires
        0 <= k < interfaces_from(ls, wifi).len(),
    ensures
        is_en_device(interfaces_from(ls, wifi)[k]),
    decreases ls.len(),
{
    let line = ls[0];
    let rest = ls.drop_first();
    if has_prefix(line, "Hardware Port: "@) {
        lemma_interfaces_are_en_devices(rest, is_wifi_port(trim(line.skip("Hardware Port: "@.len() as int))), k);
    } else if wifi && has_prefix(line, "Device: "@) {
        let d = trim(line.skip("Device: "@.len() as int));
        let head: Seq<Seq<char>> = if is_en_device(d) { seq![d] } else { seq![] };
        assert(interfaces_from(ls, wifi) == head + interfaces_from(rest, wifi));
        if k >= head.len() {
            lemma_interfaces_are_en_devices(rest, wifi, k - head.len());
        }
    } else {
        lemma_interfaces_are_en_devices(rest, wifi, k);
    }
}

proof fn lemma_wifi_devices_reported(ls: Seq<Seq<char>>, wifi: bool, j: int)
    requires
        0 <= j < ls.len(),
        has_prefix(ls[j], "Device: "@),
        is_en_device(trim(ls[j].skip(8))),
        under_wifi_port(ls, j) || (wifi && forall|q: int| 0 <= q < j ==> !port_line(#[trigger] ls[q])),
    ensures
        interfaces_from(ls, wifi).contains(trim(ls[j].skip(8))),
    decreases ls.len(),
{
    assert("Hardware Port: "@.len() == 15) by { reveal_strlit("Hardware Port: "); }
    assert("Device: "@.len() == 8) by { reveal_strlit("Device: "); }
    let d = trim(ls[j].skip(8));
    let line = ls[0];
    let rest = ls.drop_first();
    if j == 0 {
        if under_wifi_port(ls, 0) {
            let p = choose|p: int|
                0 <= p < 0 && #[trigger] wifi_port_line(ls[p]) && forall|q: int|
                    p < q < 0 ==> !port_line(#[trigger] ls[q]);
        }
        assert(!port_line(line)) by {
            reveal_strlit("Hardware Port: ");
            reveal_strlit("Device: ");
            assert(line.take(8)[0] == line[0]);
            assert(line[0] == 'D');
            if port_line(line) {
                assert(line.take(15)[0] == line[0]);
            }
        }
        assert(interfaces_from(ls, wifi) == seq![d] + interfaces_from(rest, wifi));
        assert((seq![d] + interfaces_from(rest, wifi))[0] == d);
    } else {
        assert(rest[j - 1] == ls[j]);
        if port_line(line) {
            let w = is_wifi_port(trim(line.skip(15)));
            if under_wifi_port(ls, j) {
                let p = choose|p: int|
                    0 <= p < j && #[trigger] wifi_port_line(ls[p]) && forall|q: int|
                        p < q < j ==> !port_line(#[trigger] ls[q]);
                if p > 0 {
                    assert(rest[p - 1] == ls[p]);
                    assert forall|q: int| p - 1 < q < j - 1 implies !port_line(#[trigger] rest[q]) by {
                        assert(rest[q] == ls[q + 1]);
                    }
                    assert(under_wifi_port(rest, j - 1));
                } else {
                    assert forall|q: int| 0 <= q < j - 1 implies !port_line(#[trigger] rest[q]) by {
                        assert(rest[q] == ls[q + 1]);
                    }
                }
            } else {
                assert(!port_line(ls[0]));
            }
            lemma_wifi_devices_reported(rest, w, j - 1);
        } else {
            if under_wifi_port(ls, j) {
                let p = choose|p: int|
                    0 <= p < j && #[trigger] wifi_port_line(ls[p]) && forall|q: int|
                        p < q < j ==> !port_line(#[trigger] ls[q]);
                assert(p > 0);
                assert(rest[p - 1] == ls[p]);
                assert forall|q: int| p - 1 < q < j - 1 implies !port_line(#[trigger] rest[q]) by {
                    assert(rest[q] == ls[q + 1]);
                }
                assert(under_wifi_port(rest, j - 1));
            } else {
                assert forall|q: int| 0 <= q < j - 1 implies !port_line(#[trigger] rest[q]) by {
                    assert(rest[q] == ls[q + 1]);
                }
            }
            lemma_wifi_devices_reported(rest, wifi, j - 1);
            let tail = interfaces_from(rest, wifi);
            let i = choose|i: int| 0 <= i < tail.len() && tail[i] == d;
            if wifi && has_prefix(line, "Device: "@) {
                let d0 = trim(line.skip(8));
                let head: Seq<Seq<char>> = if is_en_device(d0) { seq![d0] } else { seq![] };
                assert(interfaces_from(ls, wifi) == head + tail);
                assert((head + tail)[head.len() + i] == d);
            } else {
                assert(interfaces_from(ls, wifi) == tail);
            }
        }
    }
}

/// Every interface reported as Wi-Fi is the device of a `Device:` line of
/// the listing whose nearest preceding `Hardware Port:` line names Wi-Fi
/// (or AirPort): a device under any other port is never reported, whatever
/// ports came before.
pub proof fn lemma_wifi_interfaces_sit_under_wifi_ports(output: Seq<char>, k: int)
    requires
        0 <= k < interfaces_from(lines(output), false).len(),
    ensures
        exists|j: int|
            0 <= j < lines(output).len() && has_prefix(#[trigger] lines(output)[j], "Device: "@)
                && interfaces_from(lines(output), false)[k] == trim(lines(output)[j].skip(8))
                && under_wifi_port(lines(output), j),
        interfaces_from(lines(output), false)[k].len() > 2,
        interfaces_from(lines(output), false)[k][0] == 'e',
        interfaces_from(lines(output), false)[k][1] == 'n',
        forall|i: int|
            2 <= i < interfaces_from(lines(output), false)[k].len() ==> '0' <= #[trigger] interfaces_from(
                lines(output),
                false,
            )[k][i] <= '9',
{
    lemma_interfaces_come_from_wifi_devices(lines(output), false, k);
    lemma_interfaces_are_en_devices(lines(output), false, k);
}

/// Conversely, every `Device:` line whose nearest preceding `Hardware Port:`
/// line names Wi-Fi (or AirPort) and whose device is `en` followed by digits
/// is reported.
pub proof fn lemma_devices_under_wifi_ports_reported(output: Seq<char>, j: int)
    requires
        0 <= j < lines(output).len(),
        has_prefix(lines(output)[j], "Device: "@),
        under_wifi_port(lines(output), j),
        trim(lines(output)[j].skip(8)).len() > 2,
        trim(lines(output)[j].skip(8))[0] == 'e',
        trim(lines(output)[j].skip(8))[1] == 'n',
        forall|i: int|
            2 <= i < trim(lines(output)[j].skip(8)).len() ==> '0' <= #[trigger] trim(
                lines(output)[j].skip(8),
            )[i] <= '9',
    ensures
        interfaces_from(lines(output), false).contains(trim(lines(output)[j].skip(8))),
{
    lemma_wifi_devices_reported(lines(output), false, j);
}

fn is_en(d: &Vec<char>) -> (b: bool)
    ensures
        b == is_en_device(d@),
{
    if d.len() <= 2 || d[0] != 'e' || d[1] != 'n' {
        return false;
    }
    let mut i: usize = 2;
    while i < d.len()
        invariant
            2 <= i <= d.len(),
            forall|k: int| 2 <= k < i ==> is_ascii_digit(#[trigger] d@[k]),
        decreases d.len() - i,
    {
        if !is_digit(d[i]) {
            assert(!is_ascii_digit(d@[i as int]));
            return false;
        }
        i += 1;
    }
    true
}

/// The Wi-Fi interfaces named in a hardware-port listing, without assuming `en0`.
pub fn wifi_interfaces(output: &str) -> (r: Vec<String>)
    ensures
        r@.len() == interfaces_from(lines(output@), false).len(),
        forall|i: int| 0 <= i < r@.len() ==> #[trigger] r@[i]@ == interfaces_from(lines(output@), false)[i],
{
    let text = chars_of(output);
    let ls = lines_of(&text);
    let ghost all = char_vecs(ls@);
    let port = chars_of("Hardware Port: ");
    let device = chars_of("Device: ");
    let wifi_name = chars_of("Wi-Fi");
    let airport = chars_of("AirPort");
    let mut wifi = false;
    let mut found: Vec<Vec<char>> = Vec::new();
    let mut i: usize = 0;
    assert(all.skip(0) =~= all);
    while i < ls.len()
        invariant
            i <= ls.len(),
            all == char_vecs(ls@),
            all == lines(output@),
            port@ == "Hardware Port: "@,
            device@ == "Device: "@,
            wifi_name@ == "Wi-Fi"@,
            airport@ == "AirPort"@,
            char_vecs(found@) + interfaces_from(all.skip(i as int), wifi) == interfaces_from(
                all,
                false,
            ),
        decreases ls.len() - i,
    {
        let line = &ls[i];
        assert(all.skip(i as int).drop_first() =~= all.skip(i + 1));
        assert(all.skip(i as int)[0] == line@);
        let ghost before = char_vecs(found@);
        if starts_with(line, &port) {
            let p = trim_chars(&skip_chars(line, port.len()));
            wifi = chars_eq(&p, &wifi_name) || chars_eq(&p, &airport);
        } else if wifi && starts_with(line, &device) {
            let d = trim_chars(&skip_chars(line, device.len()));
            if is_en(&d) {
                let ghost dv = d@;
                found.push(d);
                assert(char_vecs(found@) =~= before + seq![dv]);
            } else {
                assert(char_vecs(found@) =~= before + Seq::<Seq<char>>::empty());
            }
        }
        i += 1;
    }
    assert(all.skip(ls.len() as int) =~= Seq::<Seq<char>>::empty());
    let mut r: Vec<String> = Vec::new();
    let mut k: usize = 0;
    while k < found.len()
        invariant
            k <= found.len(),
            r@.len() == k,
            char_vecs(found@) == interfaces_from(lines(output@), false),
            forall|j: int| 0 <= j < k ==> #[trigger] r@[j]@ == found@[j]@,
        decreases found.len() - k,
    {
        r.push(string_of(&found[k]));
        k += 1;
    }
    r
}


/// The value after `key` on the first line whose trimmed text starts with
/// `key`, itself trimmed: how `route -n get` output is read.
pub open spec fn field_value(ls: Seq<Seq<char>>, key: Seq<char>) -> Option<Seq<char>>
    decreases ls.len(),
{
    if ls.len() == 0 {
        None
    } else if has_prefix(trim(ls[0]), key) {
        Some(trim(trim(ls[0]).skip(key.len() as int)))
    } else {
        field_value(ls.drop_first(), key)
    }
}

pub open spec fn digits_value(t: Seq<char>) -> nat
    decreases t.len(),
{
    if t.len() == 0 {
        0
    } else {
        digits_value(t.drop_last()) * 10 + (t.last() as nat - 48) as nat
    }
}

/// One decimal octet of a dotted IPv4 address: 1 to 3 digits, no leading
/// zero unless it is the single digit `0`, at most 255.
pub open spec fn octet_value(t: Seq<char>) -> Option<u8> {
    if 1 <= t.len() <= 3 && (forall|i: int| 0 <= i < t.len() ==> is_ascii_digit(#[trigger] t[i]))
        && (t.len() == 1 || t[0] != '0') && digits_value(t) <= 255 {
        Some(digits_value(t) as u8)
    } else {
        None
    }
}

/// A dotted-quad IPv4 address: exactly four octets separated by dots.
pub open spec fn parse_ipv4(t: Seq<char>) -> Option<Seq<u8>> {
    let parts = split(t, '.');
    if parts.len() == 4 && octet_value(parts[0]) is Some && octet_value(parts[1]) is Some
        && octet_value(parts[2]) is Some && octet_value(parts[3]) is Some {
        Some(
            seq![
                octet_value(parts[0])->0,
                octet_value(parts[1])->0,
                octet_value(parts[2])->0,
                octet_value(parts[3])->0,
            ],
        )
    } else {
        None
    }
}

/// An address that can be a router: not unspecified, loopback, multicast or broadcast.
pub open spec fn usable_router(a: Seq<u8>) -> bool {
    &&& !(a[0] == 0 && a[1] == 0 && a[2] == 0 && a[3] == 0)
    &&& a[0] != 127
    &&& !(224 <= a[0] <= 239)
    &&& !(a[0] == 255 && a[1] == 255 && a[2] == 255 && a[3] == 255)
}

/// The default router of `interface` in `route -n get -ifscope <if> default`
/// output; `None` when the route belongs to another interface (such as a VPN).
pub open spec fn spec_router_address(output: Seq<char>, interface: Seq<char>) -> Option<Seq<u8>> {
    let ls = lines(output);
    match field_value(ls, "interface:"@) {
        None => None,
        Some(i) => if i != interface {
            None
        } else {
            match field_value(ls, "gateway:"@) {
                None => None,
                Some(g) => match parse_ipv4(g) {
                    None => None,
                    Some(a) => if usable_router(a) {
                        Some(a)
                    } else {
                        None
                    },
                },
            }
        },
    }
}

fn find_field(ls: &Vec<Vec<char>>, key: &Vec<char>) -> (r: Option<Vec<char>>)
    ensures
        match r {
            Some(v) => field_value(char_vecs(ls@), key@) == Some(v@),
            None => field_value(char_vecs(ls@), key@) is None,
        },
{
    let ghost all = char_vecs(ls@);
    let mut i: usize = 0;
    assert(all.skip(0) =~= all);
    while i < ls.len()
        invariant
            i <= ls.len(),
            all == char_vecs(ls@),
            field_value(all.skip(i as int), key@) == field_value(all, key@),
        decreases ls.len() - i,
    {
        assert(all.skip(i as int).drop_first() =~= all.skip(i + 1));
        assert(all.skip(i as int)[0] == ls@[i as int]@);
        let t = trim_chars(&ls[i]);
        if starts_with(&t, key) {
            let v = trim_chars(&skip_chars(&t, key.len()));
            return Some(v);
        }
        i += 1;
    }
    assert(all.skip(ls.len() as int) =~= Seq::<Seq<char>>::empty());
    None
}

fn parse_octet(t: &Vec<char>) -> (r: Option<u8>)
    ensures
        r == octet_value(t@),
{
    if t.len() < 1 || t.len() > 3 {
        return None;
    }
    let mut value: u32 = 0;
    let mut i: usize = 0;
    while i < t.len()
        invariant
            i <= t.len() <= 3,
            forall|k: int| 0 <= k < i ==> is_ascii_digit(#[trigger] t@[k]),
            value == digits_value(t@.take(i as int)),
            i == 0 ==> value == 0,
            i == 1 ==> value < 10,
            i == 2 ==> value < 100,
            value < 1000,
        decreases t.len() - i,
    {
        if !is_digit(t[i]) {
            assert(!is_ascii_digit(t@[i as int]));
            return None;
        }
        assert(t@.take(i + 1).drop_last() =~= t@.take(i as int));
        value = value * 10 + (t[i] as u32 - 48);
        i += 1;
    }
    assert(t@.take(t.len() as int) =~= t@);
    if t.len() > 1 && t[0] == '0' {
        return None;
    }
    if value > 255 {
        return None;
    }
    Some(value as u8)
}

pub fn parse_ipv4_chars(t: &Vec<char>) -> (r: Option<[u8; 4]>)
    ensures
        match r {
            Some(a) => parse_ipv4(t@) == Some(a@),
            None => parse_ipv4(t@) is None,
        },
{
    let parts = split_chars(t, '.');
    assert(char_vecs(parts@) == split(t@, '.'));
    if parts.len() != 4 {
        return None;
    }
    assert(parts@[0]@ == split(t@, '.')[0]);
    assert(parts@[1]@ == split(t@, '.')[1]);
    assert(parts@[2]@ == split(t@, '.')[2]);
    assert(parts@[3]@ == split(t@, '.')[3]);
    let a = match parse_octet(&parts[0]) {
        Some(v) => v,
        None => return None,
    };
    let b = match parse_octet(&parts[1]) {
        Some(v) => v,
        None => return None,
    };
    let c = match parse_octet(&parts[2]) {
        Some(v) => v,
        None => return None,
    };
    let d = match parse_octet(&parts[3]) {
        Some(v) => v,
        None => return None,
    };
    let r = [a, b, c, d];
    assert(r@ =~= parse_ipv4(t@)->0);
    Some(r)
}

/// The default router of `interface` read from `route` output.
pub fn router_address(output: &str, interface: &str) -> (r: Option<[u8; 4]>)
    ensures
        match r {
            Some(a) => spec_router_address(output@, interface@) == Some(a@),
            None => spec_router_address(output@, interface@) is None,
        },
{
    let text = chars_of(output);
    let ls = lines_of(&text);
    let found = match find_field(&ls, &chars_of("interface:")) {
        Some(v) => v,
        None => return None,
    };
    if !chars_eq(&found, &chars_of(interface)) {
        return None;
    }
    let gateway = match find_field(&ls, &chars_of("gateway:")) {
        Some(v) => v,
        None => return None,
    };
    let a = match parse_ipv4_chars(&gateway) {
        Some(a) => a,
        None => return None,
    };
    let unspecified = a[0] == 0 && a[1] == 0 && a[2] == 0 && a[3] == 0;
    let broadcast = a[0] == 255 && a[1] == 255 && a[2] == 255 && a[3] == 255;
    if unspecified || a[0] == 127 || (224 <= a[0] && a[0] <= 239) || broadcast {
        return None;
    }
    Some(a)
}

/// Dotted decimal notation of an IPv4 address, as `Ipv4Addr` displays it.
pub open spec fn dotted(a: Seq<u8>) -> Seq<char> {
    decimal(a[0] as nat) + seq!['.'] + decimal(a[1] as nat) + seq!['.'] + decimal(a[2] as nat)
        + seq!['.'] + decimal(a[3] as nat)
}

/// One part of a colon-separated hardware address: one or two hex digits.
pub open spec fn mac_part_value(p: Seq<char>) -> Option<u8> {
    if p.len() == 1 && is_ascii_hexdigit(p[0]) {
        Some(hex_value(p[0]) as u8)
    } else if p.len() == 2 && is_ascii_hexdigit(p[0]) && is_ascii_hexdigit(p[1]) {
        Some((hex_value(p[0]) * 16 + hex_value(p[1])) as u8)
    } else {
        None
    }
}

/// The six bytes of a hardware address written as `aa:bb:cc:dd:ee:ff`
/// (leading zeros optional).
pub open spec fn mac_bytes(field: Seq<char>) -> Option<Seq<u8>> {
    let parts = split(field, ':');
    if parts.len() == 6 && (forall|i: int| 0 <= i < 6 ==> #[trigger] mac_part_value(parts[i]) is Some) {
        Some(Seq::new(6, |i: int| mac_part_value(parts[i])->0))
    } else {
        None
    }
}

/// Only a nonzero unicast Ethernet address can identify a router.
pub open spec fn identifying_mac(b: Seq<u8>) -> bool {
    !(forall|i: int| 0 <= i < 6 ==> #[trigger] b[i] == 0) && b[0] % 2 == 0
}

/// The router's address in one `arp -n` line: `? (<router>) at <mac> on <interface> ...`.
pub open spec fn line_mac(line: Seq<char>, router: Seq<u8>, interface: Seq<char>) -> Option<
    Seq<u8>,
> {
    let f = words(line);
    if f.len() >= 6 && f[1] == seq!['('] + dotted(router) + seq![')'] && f[2] == "at"@ && f[4]
        == "on"@ && f[5] == interface {
        match mac_bytes(f[3]) {
            Some(b) => if identifying_mac(b) {
                Some(b)
            } else {
                None
            },
            None => None,
        }
    } else {
        None
    }
}

pub open spec fn first_mac(ls: Seq<Seq<char>>, router: Seq<u8>, interface: Seq<char>) -> Option<
    Seq<u8>,
>
    decreases ls.len(),
{
    if ls.len() == 0 {
        None
    } else {
        match line_mac(ls[0], router, interface) {
            Some(b) => Some(b),
            None => first_mac(ls.drop_first(), router, interface),
        }
    }
}

/// The saved identity of a home network.
pub open spec fn fingerprint_text(mac: Seq<u8>) -> Seq<char> {
    "router-sha256:"@ + hex_bytes(sha256(mac))
}

fn parse_mac_part(p: &Vec<char>) -> (r: Option<u8>)
    ensures
        r == mac_part_value(p@),
{
    if p.len() == 1 && is_hexdigit(p[0]) {
        Some(hex_nibble(p[0]))
    } else if p.len() == 2 && is_hexdigit(p[0]) && is_hexdigit(p[1]) {
        Some(hex_nibble(p[0]) * 16 + hex_nibble(p[1]))
    } else {
        None
    }
}

fn hex_nibble(c: char) -> (n: u8)
    requires
        is_ascii_hexdigit(c),
    ensures
        n == hex_value(c),
        n < 16,
{
    if '0' <= c && c <= '9' {
        (c as u32 - 48) as u8
    } else if 'a' <= c && c <= 'f' {
        (c as u32 - 87) as u8
    } else {
        (c as u32 - 55) as u8
    }
}

fn parse_mac(field: &Vec<char>) -> (r: Option<Vec<u8>>)
    ensures
        match r {
            Some(b) => mac_bytes(field@) == Some(b@),
            None => mac_bytes(field@) is None,
        },
{
    let parts = split_chars(field, ':');
    let ghost ps = split(field@, ':');
    if parts.len() != 6 {
        return None;
    }
    let mut bytes: Vec<u8> = Vec::new();
    let mut i: usize = 0;
    while i < 6
        invariant
            i <= 6,
            parts@.len() == 6,
            char_vecs(parts@) == ps,
            ps == split(field@, ':'),
            bytes@.len() == i,
            forall|k: int| 0 <= k < i ==> #[trigger] mac_part_value(ps[k]) == Some(bytes@[k]),
        decreases 6 - i,
    {
        assert(parts@[i as int]@ == ps[i as int]);
        match parse_mac_part(&parts[i]) {
            Some(v) => bytes.push(v),
            None => {
                return None;
            },
        }
        i += 1;
    }
    assert(bytes@ =~= Seq::new(6, |k: int| mac_part_value(ps[k])->0));
    Some(bytes)
}

fn address_text(router: [u8; 4]) -> (r: Vec<char>)
    ensures
        r@ == seq!['('] + dotted(router@) + seq![')'],
{
    let mut v: Vec<char> = Vec::new();
    v.push('(');
    push_decimal(&mut v, router[0] as u64);
    v.push('.');
    push_decimal(&mut v, router[1] as u64);
    v.push('.');
    push_decimal(&mut v, router[2] as u64);
    v.push('.');
    push_decimal(&mut v, router[3] as u64);
    v.push(')');
    assert(v@ =~= seq!['('] + dotted(router@) + seq![')']);
    v
}

fn line_router_mac(line: &Vec<char>, address: &Vec<char>, interface: &Vec<char>, router: [u8; 4]) -> (r:
    Option<Vec<u8>>)
    requires
        address@ == seq!['('] + dotted(router@) + seq![')'],
    ensures
        match r {
            Some(b) => line_mac(line@, router@, interface@) == Some(b@),
            None => line_mac(line@, router@, interface@) is None,
        },
{
    let f = words_of(line);
    let ghost fw = words(line@);
    if f.len() < 6 {
        return None;
    }
    assert(f@[1]@ == fw[1]);
    assert(f@[2]@ == fw[2]);
    assert(f@[3]@ == fw[3]);
    assert(f@[4]@ == fw[4]);
    assert(f@[5]@ == fw[5]);
    if !chars_eq(&f[1], address) || !chars_eq(&f[2], &chars_of("at")) || !chars_eq(
        &f[4],
        &chars_of("on"),
    ) || !chars_eq(&f[5], interface) {
        return None;
    }
    let bytes = match parse_mac(&f[3]) {
        Some(b) => b,
        None => return None,
    };
    let mut all_zero = true;
    let mut i: usize = 0;
    while i < 6
        invariant
            i <= 6,
            bytes@.len() == 6,
            all_zero == (forall|k: int| 0 <= k < i ==> #[trigger] bytes@[k] == 0),
        decreases 6 - i,
    {
        if bytes[i] != 0 {
            all_zero = false;
        }
        i += 1;
    }
    if all_zero || bytes[0] % 2 != 0 {
        return None;
    }
    Some(bytes)
}

/// The fingerprint of the router's hardware address in `arp -n` output:
/// the first line naming `router` on `interface` with a usable address.
pub fn router_fingerprint(output: &str, router: [u8; 4], interface: &str) -> (r: Option<String>)
    ensures
        match first_mac(lines(output@), router@, interface@) {
            Some(mac) => r matches Some(t) && t@ == fingerprint_text(mac),
            None => r is None,
        },
        r matches Some(t) ==> network_matches(Some(t@), Some(t@)),
{
    let text = chars_of(output);
    let ls = lines_of(&text);
    let ghost all = char_vecs(ls@);
    let address = address_text(router);
    let iface = chars_of(interface);
    let mut i: usize = 0;
    assert(all.skip(0) =~= all);
    while i < ls.len()
        invariant
            i <= ls.len(),
            all == char_vecs(ls@),
            all == lines(output@),
            address@ == seq!['('] + dotted(router@) + seq![')'],
            iface@ == interface@,
            first_mac(all.skip(i as int), router@, interface@) == first_mac(all, router@, interface@),
        decreases ls.len() - i,
    {
        assert(all.skip(i as int).drop_first() =~= all.skip(i + 1));
        assert(all.skip(i as int)[0] == ls@[i as int]@);
        match line_router_mac(&ls[i], &address, &iface, router) {
            Some(mac) => {
                let mut v = chars_of("router-sha256:");
                let h = sha256_hex(mac.as_slice());
                push_str(&mut v, h.as_str());
                proof {
                    let p = "router-sha256:"@;
                    lemma_hex_bytes_shape(sha256(mac@));
                    assert(v@.take(p.len() as int) =~= p);
                    assert forall|k: int| p.len() <= k < v@.len() implies is_ascii_hexdigit(
                        #[trigger] v@[k],
                    ) by {
                        assert(v@[k] == h@[k - p.len()]);
                    }
                }
                return Some(string_of(&v));
            },
            None => {},
        }
        i += 1;
    }
    assert(all.skip(ls.len() as int) =~= Seq::<Seq<char>>::empty());
    None
}

/// A saved router identity: `router-sha256:` and 64 hexadecimal digits.
pub open spec fn is_fingerprint(s: Seq<char>) -> bool {
    let p = "router-sha256:"@;
    &&& has_prefix(s, p)
    &&& s.len() == p.len() + 64
    &&& forall|i: int| p.len() <= i < s.len() ==> is_ascii_hexdigit(#[trigger] s[i])
}

pub open spec fn network_matches(saved: Option<Seq<char>>, current: Option<Seq<char>>) -> bool {
    match (saved, current) {
        (Some(s), Some(c)) => s == c && is_fingerprint(s),
        _ => false,
    }
}

pub open spec fn opt_chars(s: Option<&str>) -> Option<Seq<char>> {
    match s {
        Some(t) => Some(t@),
        None => None,
    }
}

/// The current network is the saved home network only when both are
/// present, equal, and a router fingerprint (older SSID selections never match).
pub fn matches_saved_network(saved: Option<&str>, current: Option<&str>) -> (b: bool)
    ensures
        b == network_matches(opt_chars(saved), opt_chars(current)),
{
    match (saved, current) {
        (Some(saved_text), Some(current_text)) => {
            let s = chars_of(saved_text);
            if !chars_eq(&s, &chars_of(current_text)) {
                return false;
            }
            let p = chars_of("router-sha256:");
            if !starts_with(&s, &p) || s.len() - p.len() != 64 {
                return false;
            }
            let mut i: usize = p.len();
            while i < s.len()
                invariant
                    p.len() <= i <= s.len(),
                    p@ == "router-sha256:"@,
                    s@ == saved_text@,
                    s@ == current_text@,
                    saved == Some(saved_text),
                    current == Some(current_text),
                    forall|k: int| p@.len() <= k < i ==> is_ascii_hexdigit(#[trigger] s@[k]),
                decreases s.len() - i,
            {
                if !is_hexdigit(s[i]) {
                    assert(!is_ascii_hexdigit(saved_text@[i as int]));
                    assert(!is_fingerprint(saved_text@));
                    return false;
                }
                i += 1;
            }
            true
        },
        _ => false,
    }
}

}
