//! Choosing which configured lights a command reaches, and recognizing them
//! again in Bluetooth advertisements.
use vstd::prelude::*;
use crate::settings::DeviceConfig;
use crate::text::{
    ascii_lower, chars_eq, chars_of, debug_quoted, debug_text, eq_ignore_ascii_case,
    eq_ignore_case, is_alphanumeric, is_ascii_alphanumeric, push_chars, push_str, string_of,
    to_lower, decimal, join_strings, joined, push_decimal, string_views,
};

verus! {

/// A light seen during discovery.
#[derive(Debug, Clone)]
pub struct DiscoveredDevice {
    pub name: String,
    pub identifier: String,
}

/// Identifier comparison key: ASCII letters and digits only, lowercased.
pub open spec fn normalized(s: Seq<char>) -> Seq<char>
    decreases s.len(),
{
    if s.len() == 0 {
        seq![]
    } else if is_ascii_alphanumeric(s.last()) {
        normalized(s.drop_last()).push(ascii_lower(s.last()))
    } else {
        normalized(s.drop_last())
    }
}

pub fn normalize_chars(value: &str) -> (r: Vec<char>)
    ensures
        r@ == normalized(value@),
{
    let v = chars_of(value);
    let mut out: Vec<char> = Vec::new();
    let mut i: usize = 0;
    while i < v.len()
        invariant
            i <= v.len(),
            v@ == value@,
            out@ == normalized(v@.take(i as int)),
        decreases v.len() - i,
    {
        assert(v@.take(i + 1).drop_last() =~= v@.take(i as int));
        if is_alphanumeric(v[i]) {
            out.push(to_lower(v[i]));
        }
        i += 1;
    }
    assert(v@.take(v.len() as int) =~= v@);
    out
}

/// Bluetooth identifiers are compared ignoring case and punctuation.
pub fn normalize(value: &str) -> (r: String)
    ensures
        r@ == normalized(value@),
{
    string_of(&normalize_chars(value))
}

proof fn lemma_normalized_fold(s: Seq<char>)
    ensures
        normalized(s) == normalized(Seq::new(s.len(), |i: int| ascii_lower(s[i]))),
    decreases s.len(),
{
    if s.len() > 0 {
        let l = Seq::new(s.len(), |i: int| ascii_lower(s[i]));
        lemma_normalized_fold(s.drop_last());
        assert(l.drop_last() =~= Seq::new(
            s.drop_last().len(),
            |i: int| ascii_lower(s.drop_last()[i]),
        ));
    }
}

/// Identifiers that differ only in ASCII case have the same key.
pub proof fn lemma_normalize_ignores_case(a: Seq<char>, b: Seq<char>)
    requires
        eq_ignore_case(a, b),
    ensures
        normalized(a) == normalized(b),
{
    lemma_normalized_fold(a);
    lemma_normalized_fold(b);
    assert(Seq::new(a.len(), |i: int| ascii_lower(a[i])) =~= Seq::new(
        b.len(),
        |i: int| ascii_lower(b[i]),
    ));
}

/// Whether a configured light is addressed by a command for `wanted`
/// (every enabled light when no name is given, names compared ignoring ASCII case).
pub open spec fn selected(d: DeviceConfig, wanted: Option<Seq<char>>) -> bool {
    d.enabled && match wanted {
        None => true,
        Some(w) => eq_ignore_case(d.name@, w),
    }
}

/// Indices of the addressed lights, in configuration order.
pub open spec fn selected_indices(devices: Seq<DeviceConfig>, wanted: Option<Seq<char>>) -> Seq<
    nat,
>
    decreases devices.len(),
{
    if devices.len() == 0 {
        seq![]
    } else {
        let prev = selected_indices(devices.drop_last(), wanted);
        if selected(devices.last(), wanted) {
            prev.push((devices.len() - 1) as nat)
        } else {
            prev
        }
    }
}

pub open spec fn opt_text(s: Option<&str>) -> Option<Seq<char>> {
    match s {
        Some(t) => Some(t@),
        None => None,
    }
}

pub open spec fn no_selection_error(wanted: Option<Seq<char>>) -> Seq<char> {
    match wanted {
        Some(w) => "no enabled device named "@ + debug_text(w),
        None => "No lights connected."@,
    }
}

/// The lights a command reaches, or why there are none.
pub fn select_devices(devices: &Vec<DeviceConfig>, wanted: Option<&str>) -> (r: Result<
    Vec<usize>,
    String,
>)
    ensures
        match r {
            Ok(v) => v@.len() > 0 && v@.len() == selected_indices(devices@, opt_text(wanted)).len()
                && forall|i: int|
                0 <= i < v@.len() ==> #[trigger] v@[i] == selected_indices(
                    devices@,
                    opt_text(wanted),
                )[i],
            Err(m) => selected_indices(devices@, opt_text(wanted)).len() == 0 && m@
                == no_selection_error(opt_text(wanted)),
        },
{
    let ghost w = opt_text(wanted);
    let wanted_chars: Option<Vec<char>> = match wanted {
        Some(t) => Some(chars_of(t)),
        None => None,
    };
    let mut out: Vec<usize> = Vec::new();
    let mut i: usize = 0;
    while i < devices.len()
        invariant
            i <= devices.len(),
            w == opt_text(wanted),
            match wanted_chars {
                Some(c) => w == Some(c@),
                None => w is None,
            },
            out@.len() == selected_indices(devices@.take(i as int), w).len(),
            forall|k: int|
                0 <= k < out@.len() ==> #[trigger] out@[k] == selected_indices(
                    devices@.take(i as int),
                    w,
                )[k],
        decreases devices.len() - i,
    {
        assert(devices@.take(i + 1).drop_last() =~= devices@.take(i as int));
        let d = &devices[i];
        let chosen = d.enabled && match &wanted_chars {
            None => true,
            Some(c) => eq_ignore_ascii_case(&chars_of(d.name.as_str()), c),
        };
        if chosen {
            out.push(i);
        }
        i += 1;
    }
    assert(devices@.take(devices.len() as int) =~= devices@);
    if out.len() == 0 {
        return Err(
            match wanted {
                Some(name) => {
                    let mut m = chars_of("no enabled device named ");
                    push_str(&mut m, debug_quoted(name).as_str());
                    string_of(&m)
                },
                None => "No lights connected.".to_string(),
            },
        );
    }
    Ok(out)
}

pub open spec fn observation_matches_spec(
    device_identifier: Seq<char>,
    observed_identifier: Seq<char>,
    observed_name: Option<Seq<char>>,
) -> bool {
    ||| normalized(observed_identifier) == normalized(device_identifier)
    ||| (observed_name matches Some(n) && eq_ignore_case(n, device_identifier))
}

/// A fresh advertisement belongs to a configured light when its identifier
/// matches, or its advertised name equals the configured identifier
/// ignoring ASCII case.
pub fn observation_matches(
    device_identifier: &str,
    observed_identifier: &str,
    observed_name: Option<&str>,
) -> (b: bool)
    ensures
        b == observation_matches_spec(
            device_identifier@,
            observed_identifier@,
            opt_text(observed_name),
        ),
{
    if chars_eq(&normalize_chars(observed_identifier), &normalize_chars(device_identifier)) {
        return true;
    }
    match observed_name {
        Some(n) => eq_ignore_ascii_case(&chars_of(n), &chars_of(device_identifier)),
        None => false,
    }
}

/// Splits the still-missing lights into those an advertisement matches
/// and those still missing, each in their given order.
pub fn partition_missing(
    missing: &Vec<DeviceConfig>,
    observed_identifier: &str,
    observed_name: Option<&str>,
) -> (r: (Vec<usize>, Vec<usize>))
    ensures
        forall|k: int|
            0 <= k < r.0@.len() ==> #[trigger] r.0@[k] < missing@.len()
                && observation_matches_spec(
                missing@[r.0@[k] as int].identifier@,
                observed_identifier@,
                opt_text(observed_name),
            ),
        forall|k: int|
            0 <= k < r.1@.len() ==> #[trigger] r.1@[k] < missing@.len()
                && !observation_matches_spec(
                missing@[r.1@[k] as int].identifier@,
                observed_identifier@,
                opt_text(observed_name),
            ),
        r.0@.len() + r.1@.len() == missing@.len(),
        forall|a: int, b: int| 0 <= a < b < r.0@.len() ==> r.0@[a] < r.0@[b],
        forall|a: int, b: int| 0 <= a < b < r.1@.len() ==> r.1@[a] < r.1@[b],
{
    let mut matched: Vec<usize> = Vec::new();
    let mut remaining: Vec<usize> = Vec::new();
    let mut i: usize = 0;
    while i < missing.len()
        invariant
            i <= missing.len(),
            matched@.len() + remaining@.len() == i,
            forall|k: int|
                0 <= k < matched@.len() ==> #[trigger] matched@[k] < i
                    && observation_matches_spec(
                    missing@[matched@[k] as int].identifier@,
                    observed_identifier@,
                    opt_text(observed_name),
                ),
            forall|k: int|
                0 <= k < remaining@.len() ==> #[trigger] remaining@[k] < i
                    && !observation_matches_spec(
                    missing@[remaining@[k] as int].identifier@,
                    observed_identifier@,
                    opt_text(observed_name),
                ),
            forall|a: int, b: int| 0 <= a < b < matched@.len() ==> matched@[a] < matched@[b],
            forall|a: int, b: int| 0 <= a < b < remaining@.len() ==> remaining@[a] < remaining@[b],
        decreases missing.len() - i,
    {
        if observation_matches(missing[i].identifier.as_str(), observed_identifier, observed_name) {
            matched.push(i);
        } else {
            remaining.push(i);
        }
        i += 1;
    }
    (matched, remaining)
}

/// Names joined by `", "`.
pub open spec fn join_names(names: Seq<Seq<char>>) -> Seq<char>
    decreases names.len(),
{
    if names.len() == 0 {
        seq![]
    } else if names.len() == 1 {
        names[0]
    } else {
        join_names(names.drop_last()) + ", "@ + names.last()
    }
}

pub open spec fn device_names(devices: Seq<DeviceConfig>) -> Seq<Seq<char>> {
    Seq::new(devices.len(), |i: int| devices[i].name@)
}

/// The error for lights that never advertised within the scan window.
pub fn missing_lights_error(missing: &Vec<DeviceConfig>) -> (m: String)
    ensures
        m@ == "could not find "@ + join_names(device_names(missing@)) + " over Bluetooth"@,
{
    let ghost names = device_names(missing@);
    let mut v: Vec<char> = Vec::new();
    let mut i: usize = 0;
    while i < missing.len()
        invariant
            i <= missing.len(),
            names == device_names(missing@),
            v@ == join_names(names.take(i as int)),
        decreases missing.len() - i,
    {
        assert(names.take(i + 1).drop_last() =~= names.take(i as int));
        if i > 0 {
            push_str(&mut v, ", ");
        }
        push_str(&mut v, missing[i].name.as_str());
        assert(v@ =~= join_names(names.take(i + 1)));
        i += 1;
    }
    assert(names.take(missing.len() as int) =~= names);
    let mut m = chars_of("could not find ");
    push_chars(&mut m, &v);
    push_str(&mut m, " over Bluetooth");
    string_of(&m)
}

pub open spec fn contains_seq(s: Seq<char>, p: Seq<char>) -> bool {
    exists|i: int| 0 <= i <= s.len() - p.len() && #[trigger] s.subrange(i, i + p.len()) == p
}

pub open spec fn lowercase(s: Seq<char>) -> Seq<char> {
    Seq::new(s.len(), |i: int| ascii_lower(s[i]))
}

/// Advertised names that look like Govee lights: containing `govee` or
/// `ihoment`, or starting with `h`, ignoring ASCII case.
pub open spec fn is_light_name_spec(name: Seq<char>) -> bool {
    let l = lowercase(name);
    contains_seq(l, "govee"@) || contains_seq(l, "ihoment"@) || (l.len() > 0 && l[0] == 'h')
}

fn contains_chars(s: &Vec<char>, p: &Vec<char>) -> (b: bool)
    ensures
        b == contains_seq(s@, p@),
{
    if p.len() > s.len() {
        return false;
    }
    if p.len() == 0 {
        assert(s@.subrange(0int, 0int + p@.len()) =~= p@);
        return true;
    }
    let last = s.len() - p.len();
    let mut i: usize = 0;
    while i <= last
        invariant
            last == s@.len() - p@.len(),
            1 <= p@.len() <= s@.len() <= usize::MAX,
            i <= last + 1,
            forall|k: int| 0 <= k < i ==> #[trigger] s@.subrange(k, k + p@.len()) != p@,
        decreases last + 1 - i,
    {
        let mut j: usize = 0;
        let mut same = true;
        while j < p.len()
            invariant
                j <= p@.len(),
                i <= last,
                last == s@.len() - p@.len(),
                1 <= p@.len() <= s@.len() <= usize::MAX,
                same ==> forall|k: int| 0 <= k < j ==> s@[i + k] == p@[k],
                !same ==> s@.subrange(i as int, i + p@.len()) != p@,
            decreases p@.len() - j,
        {
            if s[i + j] != p[j] {
                assert(s@.subrange(i as int, i + p@.len())[j as int] != p@[j as int]);
                same = false;
            }
            j += 1;
        }
        if same {
            assert(s@.subrange(i as int, i + p@.len()) =~= p@);
            return true;
        }
        i += 1;
    }
    false
}

pub fn is_light_name(name: &str) -> (b: bool)
    ensures
        b == is_light_name_spec(name@),
{
    let v = chars_of(name);
    let mut l: Vec<char> = Vec::new();
    let mut i: usize = 0;
    while i < v.len()
        invariant
            i <= v.len(),
            v@ == name@,
            l@ =~= lowercase(v@).take(i as int),
        decreases v.len() - i,
    {
        l.push(to_lower(v[i]));
        i += 1;
    }
    assert(l@ =~= lowercase(name@));
    contains_chars(&l, &chars_of("govee")) || contains_chars(&l, &chars_of("ihoment")) || (l.len()
        > 0 && l[0] == 'h')
}


/// What a light command reports once every selected light was written:
/// how many were updated, or every error.
pub fn apply_outcome(updated: usize, errors: &Vec<String>) -> (r: Result<String, String>)
    ensures
        errors@.len() == 0 ==> (r matches Ok(m) && m@ == "Updated "@ + decimal(updated as nat)
            + " light(s)"@),
        errors@.len() > 0 ==> (r matches Err(m) && m@ == joined(string_views(errors@), "; "@)),
{
    if errors.len() == 0 {
        let mut m = chars_of("Updated ");
        push_decimal(&mut m, updated as u64);
        push_str(&mut m, " light(s)");
        Ok(string_of(&m))
    } else {
        Err(join_strings(errors, "; "))
    }
}


/// Texts in the order `str` compares them: character by character, a prefix first.
pub open spec fn text_le(a: Seq<char>, b: Seq<char>) -> bool
    decreases a.len(),
{
    if a.len() == 0 {
        true
    } else if b.len() == 0 {
        false
    } else if a[0] != b[0] {
        (a[0] as u32) < (b[0] as u32)
    } else {
        text_le(a.drop_first(), b.drop_first())
    }
}

fn text_le_exec(a: &Vec<char>, b: &Vec<char>) -> (r: bool)
    ensures
        r == text_le(a@, b@),
{
    let mut i: usize = 0;
    assert(a@.skip(0) =~= a@);
    assert(b@.skip(0) =~= b@);
    assert(a@.take(0) =~= b@.take(0));
    while i < a.len() && i < b.len()
        invariant
            i <= a@.len(),
            i <= b@.len(),
            a@.take(i as int) == b@.take(i as int),
            text_le(a@, b@) == text_le(a@.skip(i as int), b@.skip(i as int)),
        decreases a@.len() - i,
    {
        if a[i] != b[i] {
            assert(a@.skip(i as int)[0] == a@[i as int]);
            assert(b@.skip(i as int)[0] == b@[i as int]);
            return (a[i] as u32) < (b[i] as u32);
        }
        assert(a@.skip(i as int).drop_first() =~= a@.skip(i + 1));
        assert(b@.skip(i as int).drop_first() =~= b@.skip(i + 1));
        assert(a@.take(i + 1) =~= a@.take(i as int).push(a@[i as int]));
        assert(b@.take(i + 1) =~= b@.take(i as int).push(b@[i as int]));
        i += 1;
    }
    i == a.len()
}

/// Where a stable sort by name inserts a device named `name`: before the
/// first device whose name sorts after it.
pub open spec fn insert_point(s: Seq<DiscoveredDevice>, name: Seq<char>) -> nat
    decreases s.len(),
{
    if s.len() == 0 {
        0
    } else if !text_le(s[0].name@, name) {
        0
    } else {
        1 + insert_point(s.drop_first(), name)
    }
}

/// The devices stably sorted by name (insertion in input order).
pub open spec fn sorted_by_name(s: Seq<DiscoveredDevice>) -> Seq<DiscoveredDevice>
    decreases s.len(),
{
    if s.len() == 0 {
        s
    } else {
        let t = sorted_by_name(s.drop_last());
        t.insert(insert_point(t, s.last().name@) as int, s.last())
    }
}

/// Consecutive devices with the same identifier collapse to the first.
pub open spec fn dedup_identifiers(s: Seq<DiscoveredDevice>) -> Seq<DiscoveredDevice>
    decreases s.len(),
{
    if s.len() == 0 {
        s
    } else {
        let t = dedup_identifiers(s.drop_last());
        if t.len() > 0 && t.last().identifier@ == s.last().identifier@ {
            t
        } else {
            t.push(s.last())
        }
    }
}

proof fn lemma_insert_point(s: Seq<DiscoveredDevice>, name: Seq<char>, p: int)
    requires
        0 <= p <= s.len(),
        forall|j: int| 0 <= j < p ==> text_le(#[trigger] s[j].name@, name),
        p < s.len() ==> !text_le(s[p].name@, name),
    ensures
        insert_point(s, name) == p,
    decreases s.len(),
{
    if s.len() > 0 && p > 0 {
        assert(text_le(s[0].name@, name));
        let t = s.drop_first();
        assert forall|j: int| 0 <= j < p - 1 implies text_le(#[trigger] t[j].name@, name) by {
            assert(t[j] == s[j + 1]);
        }
        lemma_insert_point(t, name, p - 1);
    }
}

/// The discovered lights as the interface lists them: sorted by name, with
/// repeated sightings of one identifier next to each other collapsed.
pub fn arrange_discovered(devices: Vec<DiscoveredDevice>) -> (r: Vec<DiscoveredDevice>)
    ensures
        r@ == dedup_identifiers(sorted_by_name(devices@)),
{
    let ghost input = devices@;
    let n = devices.len();
    let mut rest = devices;
    let mut sorted: Vec<DiscoveredDevice> = Vec::new();
    let mut k: usize = 0;
    while rest.len() > 0
        invariant
            k + rest@.len() == input.len(),
            input.len() == n,
            rest@ == input.skip(k as int),
            sorted@ == sorted_by_name(input.take(k as int)),
        decreases rest@.len(),
    {
        let d = rest.remove(0);
        assert(d == input[k as int]);
        let name = chars_of(d.name.as_str());
        let mut p: usize = 0;
        while p < sorted.len() && text_le_exec(&chars_of(sorted[p].name.as_str()), &name)
            invariant
                p <= sorted@.len(),
                name@ == d.name@,
                forall|j: int| 0 <= j < p ==> text_le(#[trigger] sorted@[j].name@, d.name@),
            decreases sorted@.len() - p,
        {
            p += 1;
        }
        proof {
            lemma_insert_point(sorted@, d.name@, p as int);
            assert(input.take(k + 1).drop_last() =~= input.take(k as int));
            assert(input.take(k + 1).last() == d);
        }
        sorted.insert(p, d);
        assert(rest@ =~= input.skip(k + 1));
        k += 1;
    }
    assert(input.take(k as int) =~= input);
    let ghost all = sorted@;
    let mut out: Vec<DiscoveredDevice> = Vec::new();
    let mut i: usize = 0;
    let m = sorted.len();
    let mut source = sorted;
    while source.len() > 0
        invariant
            i + source@.len() == all.len(),
            all.len() == m,
            source@ == all.skip(i as int),
            out@ == dedup_identifiers(all.take(i as int)),
        decreases source@.len(),
    {
        let d = source.remove(0);
        assert(d == all[i as int]);
        proof {
            assert(all.take(i + 1).drop_last() =~= all.take(i as int));
            assert(all.take(i + 1).last() == d);
        }
        let repeated = out.len() > 0 && chars_eq(
            &chars_of(out[out.len() - 1].identifier.as_str()),
            &chars_of(d.identifier.as_str()),
        );
        if !repeated {
            out.push(d);
        }
        assert(source@ =~= all.skip(i + 1));
        i += 1;
    }
    assert(all.take(i as int) =~= all);
    out
}

}
