//! Wake-on-LAN: reading MAC addresses and building the magic packet that
//! wakes a machine, by its MAC address, IP address or host name.
use vstd::prelude::*;
use vstd::string::StringExecFns;

use crate::ip_manager::{
    get_mac_by_hostname, get_mac_by_ip, lemma_mac_for_hostname_first_match, lemma_mac_for_ip_first_match,
    mac_for_hostname, mac_for_ip, names,
};
use crate::ipv4::{ipv4_text, lemma_ipv4_text_roundtrip, parse_ipv4, Ipv4};
use crate::network_scanner::NetworkDevice;
use crate::text::chars_of;

verus! {

// ---------------------------------------------------------------------------
// Upper case
// ---------------------------------------------------------------------------

/// What `str::to_uppercase` returns for a text (Unicode upper case).
pub uninterp spec fn str_to_uppercase(s: Seq<char>) -> Seq<char>;

pub open spec fn is_ascii_text(s: Seq<char>) -> bool {
    forall|i: int| 0 <= i < s.len() ==> (#[trigger] s[i] as u32) < 128
}

/// ASCII upper case: `a`..=`z` become `A`..=`Z`, every other character stays.
pub open spec fn ascii_upper(s: Seq<char>) -> Seq<char> {
    Seq::new(
        s.len(),
        |i: int|
            if 97 <= (s[i] as u32) && (s[i] as u32) <= 122 {
                ((s[i] as u32) - 32) as char
            } else {
                s[i]
            },
    )
}

/// The upper case of a text: the ASCII upper case for ASCII text, as the
/// documentation's example and Unicode's case mapping of ASCII letters show,
/// and what `str::to_uppercase` gives otherwise.
pub open spec fn upper_case(s: Seq<char>) -> Seq<char> {
    if is_ascii_text(s) {
        ascii_upper(s)
    } else {
        str_to_uppercase(s)
    }
}

/// Calls `str::to_uppercase`. Its result is `upper_case` of the input's
/// characters: the ASCII upper case on ASCII input, and what the name
/// `str_to_uppercase` stands for on other input, of which nothing is said.
#[verifier::external_body]
fn to_uppercase(s: &str) -> (r: String)
    ensures
        r@ == upper_case(s@),
        !is_ascii_text(s@) ==> r@ == str_to_uppercase(s@),
{
    s.to_uppercase()
}

// ---------------------------------------------------------------------------
// MAC addresses
// ---------------------------------------------------------------------------

/// `s` without the separators `:` and `-`.
pub open spec fn mac_digits(s: Seq<char>) -> Seq<char>
    decreases s.len(),
{
    if s.len() == 0 {
        s
    } else if s.last() == ':' || s.last() == '-' {
        mac_digits(s.drop_last())
    } else {
        mac_digits(s.drop_last()).push(s.last())
    }
}

/// The number of bytes that encode `c` in UTF-8.
pub open spec fn utf8_width(c: char) -> int {
    let u = c as u32;
    if u < 0x80 {
        1
    } else if u < 0x800 {
        2
    } else if u < 0x10000 {
        3
    } else {
        4
    }
}

/// The number of bytes that encode `s` in UTF-8 (`str::len`).
pub open spec fn utf8_len(s: Seq<char>) -> int
    decreases s.len(),
{
    if s.len() == 0 {
        0
    } else {
        utf8_len(s.drop_last()) + utf8_width(s.last())
    }
}

/// The value of a digit in base 16 (`char::to_digit(16)`).
pub open spec fn hex_value(c: char) -> Option<u8> {
    let u = c as u32;
    if 48 <= u && u <= 57 {
        Some((u - 48) as u8)
    } else if 65 <= u && u <= 70 {
        Some((u - 55) as u8)
    } else if 97 <= u && u <= 102 {
        Some((u - 87) as u8)
    } else {
        None
    }
}

/// The byte that two hexadecimal digits denote.
pub open spec fn hex_pair(c0: char, c1: char) -> Option<u8> {
    match (hex_value(c0), hex_value(c1)) {
        (Some(h), Some(l)) => Some((h * 16 + l) as u8),
        _ => None,
    }
}

/// The six bytes that twelve digits denote, pair by pair.
pub open spec fn mac_bytes(t: Seq<char>) -> Option<Seq<u8>> {
    if t.len() == 12 && forall|k: int| 0 <= k < 6 ==> #[trigger] hex_pair(t[2 * k], t[2 * k + 1]) is Some {
        Some(Seq::new(6, |k: int| hex_pair(t[2 * k], t[2 * k + 1])->0))
    } else {
        None
    }
}

pub open spec fn mac_length_error(mac: Seq<char>) -> Seq<char> {
    "无效的MAC地址长度: "@ + mac
}

pub open spec fn mac_error(mac: Seq<char>) -> Seq<char> {
    "无效的MAC地址: "@ + mac
}

/// What reading the MAC address `mac` gives, once it has been put in upper case
/// as `upper`: separators are dropped, the rest must be twelve bytes long, and
/// it must read as six hexadecimal pairs.
pub open spec fn mac_from_upper(mac: Seq<char>, upper: Seq<char>) -> Result<Seq<u8>, Seq<char>> {
    let t = mac_digits(upper);
    if utf8_len(t) != 12 {
        Err(mac_length_error(mac))
    } else {
        match mac_bytes(t) {
            Some(b) => Ok(b),
            None => Err(mac_error(mac)),
        }
    }
}

/// What reading the MAC address `mac` gives.
pub open spec fn parse_mac(mac: Seq<char>) -> Result<Seq<u8>, Seq<char>> {
    mac_from_upper(mac, upper_case(mac))
}

/// For ASCII text, reading a MAC address goes through its ASCII upper case.
pub proof fn lemma_parse_mac_ascii(mac: Seq<char>)
    requires
        is_ascii_text(mac),
    ensures
        parse_mac(mac) == mac_from_upper(mac, ascii_upper(mac)),
{
}

// ---------------------------------------------------------------------------
// Writing a MAC address
// ---------------------------------------------------------------------------

/// The hexadecimal digit for `d` (below 16), as a lower or upper case letter
/// where it is one.
pub open spec fn hex_digit(d: int, lower: bool) -> char {
    if d < 10 {
        (48 + d) as char
    } else if lower {
        (87 + d) as char
    } else {
        (55 + d) as char
    }
}

/// A byte as two hexadecimal digits (`{:02X}`, or `{:02x}` for `lower`).
pub open spec fn hex_byte_text(v: u8, lower: bool) -> Seq<char> {
    seq![hex_digit(v as int / 16, lower), hex_digit(v as int % 16, lower)]
}

/// The six bytes of `b` written as pairs of hexadecimal digits, with `sep`
/// between two pairs.
pub open spec fn mac_text(b: Seq<u8>, sep: Seq<char>, lower: bool) -> Seq<char> {
    hex_byte_text(b[0], lower) + sep + hex_byte_text(b[1], lower) + sep + hex_byte_text(b[2], lower)
        + sep + hex_byte_text(b[3], lower) + sep + hex_byte_text(b[4], lower) + sep
        + hex_byte_text(b[5], lower)
}

pub open spec fn is_separator_text(sep: Seq<char>) -> bool {
    forall|i: int| 0 <= i < sep.len() ==> #[trigger] sep[i] == ':' || sep[i] == '-'
}

proof fn lemma_mac_digits_append(s: Seq<char>, t: Seq<char>)
    ensures
        mac_digits(s + t) == mac_digits(s) + mac_digits(t),
    decreases t.len(),
{
    if t.len() == 0 {
        assert(s + t =~= s);
        assert(mac_digits(s) + mac_digits(t) =~= mac_digits(s));
    } else {
        assert((s + t).drop_last() =~= s + t.drop_last());
        assert((s + t).last() == t.last());
        lemma_mac_digits_append(s, t.drop_last());
        if !(t.last() == ':' || t.last() == '-') {
            assert(mac_digits(s) + mac_digits(t.drop_last()).push(t.last()) =~= (mac_digits(s)
                + mac_digits(t.drop_last())).push(t.last()));
        }
    }
}

proof fn lemma_mac_digits_separators(sep: Seq<char>)
    requires
        is_separator_text(sep),
    ensures
        mac_digits(sep) == Seq::<char>::empty(),
    decreases sep.len(),
{
    if sep.len() > 0 {
        assert(sep[sep.len() - 1] == ':' || sep[sep.len() - 1] == '-');
        lemma_mac_digits_separators(sep.drop_last());
    }
}

proof fn lemma_hex_digit(d: int, lower: bool)
    requires
        0 <= d < 16,
    ensures
        hex_value(hex_digit(d, lower)) == Some(d as u8),
        (hex_digit(d, lower) as u32) < 128,
        hex_digit(d, lower) != ':' && hex_digit(d, lower) != '-',
        ascii_upper(seq![hex_digit(d, lower)]) == seq![hex_digit(d, false)],
{
    assert(ascii_upper(seq![hex_digit(d, lower)]) =~= seq![hex_digit(d, false)]);
}

proof fn lemma_hex_byte_text(v: u8, lower: bool)
    ensures
        mac_digits(hex_byte_text(v, lower)) == hex_byte_text(v, lower),
        is_ascii_text(hex_byte_text(v, lower)),
        ascii_upper(hex_byte_text(v, lower)) == hex_byte_text(v, false),
        hex_pair(hex_byte_text(v, false)[0], hex_byte_text(v, false)[1]) == Some(v),
{
    let t = hex_byte_text(v, lower);
    lemma_hex_digit(v as int / 16, lower);
    lemma_hex_digit(v as int % 16, lower);
    lemma_hex_digit(v as int / 16, false);
    lemma_hex_digit(v as int % 16, false);
    let a = t.drop_last();
    assert(a.last() == t[0]);
    assert(a.drop_last() =~= Seq::<char>::empty());
    assert(mac_digits(a.drop_last()) =~= Seq::<char>::empty());
    assert(mac_digits(a) =~= a);
    assert(t.last() == t[1]);
    assert(mac_digits(t) =~= t);
    assert(ascii_upper(t) =~= hex_byte_text(v, false));
    assert((v as int / 16) * 16 + v as int % 16 == v as int);
}

proof fn lemma_ascii_append(s: Seq<char>, t: Seq<char>)
    ensures
        is_ascii_text(s) && is_ascii_text(t) ==> is_ascii_text(s + t),
        ascii_upper(s + t) == ascii_upper(s) + ascii_upper(t),
{
    assert(ascii_upper(s + t) =~= ascii_upper(s) + ascii_upper(t));
    if is_ascii_text(s) && is_ascii_text(t) {
        assert forall|i: int| 0 <= i < (s + t).len() implies (#[trigger] (s + t)[i] as u32) < 128 by {
            if i < s.len() {
                assert((s + t)[i] == s[i]);
            } else {
                assert((s + t)[i] == t[i - s.len()]);
            }
        }
    }
}

proof fn lemma_separators_text(sep: Seq<char>)
    requires
        is_separator_text(sep),
    ensures
        is_ascii_text(sep),
        ascii_upper(sep) == sep,
{
    assert(ascii_upper(sep) =~= sep);
}

proof fn lemma_utf8_len_ascii(s: Seq<char>)
    requires
        is_ascii_text(s),
    ensures
        utf8_len(s) == s.len(),
    decreases s.len(),
{
    if s.len() > 0 {
        assert(is_ascii_text(s.drop_last())) by {
            assert forall|i: int| 0 <= i < s.drop_last().len() implies (#[trigger] s.drop_last()[i] as u32)
                < 128 by {
                assert(s.drop_last()[i] == s[i]);
            }
        }
        assert((s.last() as u32) < 128) by {
            assert(s.last() == s[s.len() - 1]);
        }
        lemma_utf8_len_ascii(s.drop_last());
    }
}

/// A MAC address written as six pairs of hexadecimal digits, in upper or
/// lower case, with `:`, `-` or nothing between the pairs, reads back as the
/// six bytes it was written from.
#[verifier::spinoff_prover]
#[verifier::rlimit(40)]
pub proof fn lemma_mac_text_roundtrip(b: Seq<u8>, sep: Seq<char>, lower: bool)
    requires
        b.len() == 6,
        is_separator_text(sep),
    ensures
        parse_mac(mac_text(b, sep, lower)) == Ok::<Seq<u8>, Seq<char>>(b),
{
    let h0 = hex_byte_text(b[0], lower);
    let h1 = hex_byte_text(b[1], lower);
    let h2 = hex_byte_text(b[2], lower);
    let h3 = hex_byte_text(b[3], lower);
    let h4 = hex_byte_text(b[4], lower);
    let h5 = hex_byte_text(b[5], lower);
    lemma_hex_byte_text(b[0], lower);
    lemma_hex_byte_text(b[1], lower);
    lemma_hex_byte_text(b[2], lower);
    lemma_hex_byte_text(b[3], lower);
    lemma_hex_byte_text(b[4], lower);
    lemma_hex_byte_text(b[5], lower);
    lemma_separators_text(sep);
    lemma_mac_digits_separators(sep);
    let p1 = h0 + sep;
    let p2 = p1 + h1;
    let p3 = p2 + sep;
    let p4 = p3 + h2;
    let p5 = p4 + sep;
    let p6 = p5 + h3;
    let p7 = p6 + sep;
    let p8 = p7 + h4;
    let p9 = p8 + sep;
    let m = p9 + h5;
    assert(m == mac_text(b, sep, lower));
    lemma_ascii_append(h0, sep);
    lemma_ascii_append(p1, h1);
    lemma_ascii_append(p2, sep);
    lemma_ascii_append(p3, h2);
    lemma_ascii_append(p4, sep);
    lemma_ascii_append(p5, h3);
    lemma_ascii_append(p6, sep);
    lemma_ascii_append(p7, h4);
    lemma_ascii_append(p8, sep);
    lemma_ascii_append(p9, h5);
    assert(is_ascii_text(m));
    lemma_parse_mac_ascii(m);
    let u = ascii_upper(m);
    let g0 = hex_byte_text(b[0], false);
    let g1 = hex_byte_text(b[1], false);
    let g2 = hex_byte_text(b[2], false);
    let g3 = hex_byte_text(b[3], false);
    let g4 = hex_byte_text(b[4], false);
    let g5 = hex_byte_text(b[5], false);
    lemma_hex_byte_text(b[0], false);
    lemma_hex_byte_text(b[1], false);
    lemma_hex_byte_text(b[2], false);
    lemma_hex_byte_text(b[3], false);
    lemma_hex_byte_text(b[4], false);
    lemma_hex_byte_text(b[5], false);
    let q1 = g0 + sep;
    let q2 = q1 + g1;
    let q3 = q2 + sep;
    let q4 = q3 + g2;
    let q5 = q4 + sep;
    let q6 = q5 + g3;
    let q7 = q6 + sep;
    let q8 = q7 + g4;
    let q9 = q8 + sep;
    assert(u == q9 + g5);
    lemma_mac_digits_append(g0, sep);
    lemma_mac_digits_append(q1, g1);
    lemma_mac_digits_append(q2, sep);
    lemma_mac_digits_append(q3, g2);
    lemma_mac_digits_append(q4, sep);
    lemma_mac_digits_append(q5, g3);
    lemma_mac_digits_append(q6, sep);
    lemma_mac_digits_append(q7, g4);
    lemma_mac_digits_append(q8, sep);
    lemma_mac_digits_append(q9, g5);
    let t = mac_digits(u);
    assert(sep + Seq::<char>::empty() =~= sep);
    assert(t =~= g0 + g1 + g2 + g3 + g4 + g5);
    assert(t.len() == 12);
    assert(is_ascii_text(t)) by {
        assert forall|i: int| 0 <= i < t.len() implies (#[trigger] t[i] as u32) < 128 by {
            lemma_hex_digit((b[i / 2] as int) / 16, false);
            lemma_hex_digit((b[i / 2] as int) % 16, false);
        }
    }
    lemma_utf8_len_ascii(t);
    assert forall|k: int| 0 <= k < 6 implies #[trigger] hex_pair(t[2 * k], t[2 * k + 1]) == Some(b[k]) by {
        assert(t[2 * k] == hex_byte_text(b[k], false)[0]);
        assert(t[2 * k + 1] == hex_byte_text(b[k], false)[1]);
        lemma_hex_byte_text(b[k], false);
    }
    assert(mac_bytes(t) == Some(b)) by {
        assert(Seq::new(6, |k: int| hex_pair(t[2 * k], t[2 * k + 1])->0) =~= b);
    }
}

fn hex_value_exec(c: char) -> (r: Option<u8>)
    ensures
        r == hex_value(c),
{
    let u = c as u32;
    if 48 <= u && u <= 57 {
        Some((u - 48) as u8)
    } else if 65 <= u && u <= 70 {
        Some((u - 55) as u8)
    } else if 97 <= u && u <= 102 {
        Some((u - 87) as u8)
    } else {
        None
    }
}

fn hex_pair_exec(c0: char, c1: char) -> (r: Option<u8>)
    ensures
        r == hex_pair(c0, c1),
{
    match (hex_value_exec(c0), hex_value_exec(c1)) {
        (Some(h), Some(l)) => Some(h * 16 + l),
        _ => None,
    }
}

/// The characters of `s` other than `:` and `-`.
pub fn mac_digits_exec(s: &[char]) -> (r: Vec<char>)
    ensures
        r@ == mac_digits(s@),
{
    let mut r: Vec<char> = Vec::new();
    let mut i: usize = 0;
    while i < s.len()
        invariant
            i <= s.len(),
            r@ == mac_digits(s@.take(i as int)),
        decreases s.len() - i,
    {
        proof {
            assert(s@.take(i + 1).drop_last() =~= s@.take(i as int));
        }
        if s[i] != ':' && s[i] != '-' {
            r.push(s[i]);
        }
        i += 1;
    }
    assert(s@.take(s@.len() as int) =~= s@);
    r
}

/// Whether `s` is written as a MAC address: without `:` and `-`, twelve
/// hexadecimal digits.
pub open spec fn is_mac_text(s: Seq<char>) -> bool {
    let t = mac_digits(s);
    t.len() == 12 && forall|i: int| 0 <= i < 12 ==> #[trigger] hex_value(t[i]) is Some
}

/// Whether `s` is written as a MAC address.
pub fn is_mac_text_exec(s: &[char]) -> (r: bool)
    ensures
        r == is_mac_text(s@),
{
    let clean = mac_digits_exec(s);
    if clean.len() != 12 {
        return false;
    }
    let mut i: usize = 0;
    while i < 12
        invariant
            clean@ == mac_digits(s@),
            clean@.len() == 12,
            i <= 12,
            forall|j: int| 0 <= j < i ==> #[trigger] hex_value(clean@[j]) is Some,
        decreases 12 - i,
    {
        if hex_value_exec(clean[i]).is_none() {
            return false;
        }
        i += 1;
    }
    true
}

/// Whether `s` takes exactly twelve bytes in UTF-8.
pub fn utf8_len_is_12(s: &[char]) -> (r: bool)
    ensures
        r == (utf8_len(s@) == 12),
{
    let mut n: usize = 0;
    let mut i: usize = 0;
    while i < s.len()
        invariant
            i <= s.len(),
            n == utf8_len(s@.take(i as int)),
            n <= 12,
        decreases s.len() - i,
    {
        proof {
            assert(s@.take(i + 1).drop_last() =~= s@.take(i as int));
        }
        let u = s[i] as u32;
        let w: usize = if u < 0x80 {
            1
        } else if u < 0x800 {
            2
        } else if u < 0x10000 {
            3
        } else {
            4
        };
        n = n + w;
        i += 1;
        if n > 12 {
            proof {
                lemma_utf8_len_grows(s@, i as int);
            }
            return false;
        }
    }
    assert(s@.take(s@.len() as int) =~= s@);
    n == 12
}

proof fn lemma_utf8_len_grows(s: Seq<char>, i: int)
    requires
        0 <= i <= s.len(),
    ensures
        utf8_len(s) >= utf8_len(s.take(i)),
    decreases s.len() - i,
{
    if i < s.len() {
        lemma_utf8_len_grows(s, i + 1);
        assert(s.take(i + 1).drop_last() =~= s.take(i));
    } else {
        assert(s.take(i) =~= s);
    }
}

/// Reads the MAC address `mac` from its upper-case form `upper`: separators
/// `:` and `-` are dropped, the rest must take twelve bytes and read as six
/// hexadecimal pairs. Errors carry `mac` in their message.
pub fn mac_from_uppercase(mac: &str, upper: &str) -> (r: Result<[u8; 6], String>)
    ensures
        match r {
            Ok(b) => mac_from_upper(mac@, upper@) == Ok::<Seq<u8>, Seq<char>>(b@),
            Err(e) => mac_from_upper(mac@, upper@) == Err::<Seq<u8>, Seq<char>>(e@),
        },
{
    let cs = chars_of(upper);
    let t = mac_digits_exec(cs.as_slice());
    if !utf8_len_is_12(t.as_slice()) {
        let mut e = String::from_str("无效的MAC地址长度: ");
        e.append(mac);
        return Err(e);
    }
    if t.len() != 12 {
        let mut e = String::from_str("无效的MAC地址: ");
        e.append(mac);
        return Err(e);
    }
    let mut bytes: Vec<u8> = Vec::new();
    let mut k: usize = 0;
    while k < 6
        invariant
            t@.len() == 12,
            t@ == mac_digits(upper@),
            utf8_len(t@) == 12,
            k <= 6,
            bytes@.len() == k,
            forall|j: int| 0 <= j < k ==> #[trigger] hex_pair(t@[2 * j], t@[2 * j + 1]) == Some(bytes@[j]),
        decreases 6 - k,
    {
        match hex_pair_exec(t[2 * k], t[2 * k + 1]) {
            Some(v) => {
                bytes.push(v);
            },
            None => {
                let ghost kk = k as int;
                assert(hex_pair(t@[2 * kk], t@[2 * kk + 1]) is None);
                assert(mac_bytes(t@) is None);
                let mut e = String::from_str("无效的MAC地址: ");
                e.append(mac);
                return Err(e);
            },
        }
        k += 1;
    }
    let b = [bytes[0], bytes[1], bytes[2], bytes[3], bytes[4], bytes[5]];
    assert(b@ =~= mac_bytes(t@)->0);
    Ok(b)
}

/// Reads a MAC address such as `1C:7E:51:A1:50:EB` or `1c-7e-51-a1-50-eb` into
/// its six bytes.
pub fn parse_mac_address(mac_address: &str) -> (r: Result<[u8; 6], String>)
    ensures
        is_ascii_text(mac_address@) ==> parse_mac(mac_address@) == mac_from_upper(
            mac_address@,
            ascii_upper(mac_address@),
        ),
        match r {
            Ok(b) => parse_mac(mac_address@) == Ok::<Seq<u8>, Seq<char>>(b@),
            Err(e) => parse_mac(mac_address@) == Err::<Seq<u8>, Seq<char>>(e@),
        },
{
    let upper = to_uppercase(mac_address);
    mac_from_uppercase(mac_address, upper.as_str())
}

/// Checks that `mac_address` reads as a MAC address.
pub fn validate_mac_address(mac_address: &str) -> (r: Result<(), String>)
    ensures
        match r {
            Ok(_) => parse_mac(mac_address@) is Ok,
            Err(e) => parse_mac(mac_address@) == Err::<Seq<u8>, Seq<char>>(e@),
        },
{
    match parse_mac_address(mac_address) {
        Ok(_) => Ok(()),
        Err(e) => Err(e),
    }
}

// ---------------------------------------------------------------------------
// The magic packet
// ---------------------------------------------------------------------------

/// The Wake-on-LAN magic packet for `mac`: six bytes `0xFF`, then the six
/// bytes of the MAC address sixteen times over, 102 bytes in all.
pub open spec fn magic_packet(mac: Seq<u8>) -> Seq<u8> {
    Seq::new(102, |i: int| if i < 6 { 0xFFu8 } else { mac[(i - 6) % 6] })
}

/// Builds the magic packet for the MAC address `mac`.
pub fn build_magic_packet(mac: [u8; 6]) -> (r: Vec<u8>)
    ensures
        r@ == magic_packet(mac@),
{
    let mut p: Vec<u8> = Vec::new();
    let mut i: usize = 0;
    while i < 6
        invariant
            i <= 6,
            p@.len() == i,
            forall|j: int| 0 <= j < i ==> p@[j] == 0xFFu8,
        decreases 6 - i,
    {
        p.push(0xFF);
        i += 1;
    }
    let mut r: usize = 0;
    while r < 16
        invariant
            r <= 16,
            p@.len() == 6 + 6 * r,
            forall|j: int| 0 <= j < 6 ==> p@[j] == 0xFFu8,
            forall|j: int| 6 <= j < 6 + 6 * r ==> p@[j] == mac@[(j - 6) % 6],
        decreases 16 - r,
    {
        let mut k: usize = 0;
        while k < 6
            invariant
                r < 16,
                k <= 6,
                p@.len() == 6 + 6 * r + k,
                forall|j: int| 0 <= j < 6 ==> p@[j] == 0xFFu8,
                forall|j: int| 6 <= j < 6 + 6 * r + k ==> p@[j] == mac@[(j - 6) % 6],
            decreases 6 - k,
        {
            assert((6 + 6 * r + k - 6) % 6 == k as int) by (nonlinear_arith)
                requires
                    k < 6,
            ;
            p.push(mac[k]);
            k += 1;
        }
        r += 1;
    }
    assert(p@ =~= magic_packet(mac@));
    p
}

/// What waking the MAC address `mac` broadcasts: its magic packet, or the
/// error that reading the address gives.
pub open spec fn wol_mac_payload(mac: Seq<char>) -> Result<Seq<u8>, Seq<char>> {
    match parse_mac(mac) {
        Ok(b) => Ok(magic_packet(b)),
        Err(e) => Err(e),
    }
}

/// Waking by a MAC address sends the magic packet of the bytes it reads as,
/// and fails with the reading's error otherwise.
pub proof fn lemma_wol_mac_reads_address(mac: Seq<char>)
    ensures
        parse_mac(mac) matches Ok(b) ==> wol_mac_payload(mac) == Ok::<Seq<u8>, Seq<char>>(
            magic_packet(b),
        ),
        parse_mac(mac) matches Err(e) ==> wol_mac_payload(mac) == Err::<Seq<u8>, Seq<char>>(e),
{
}

/// A MAC address written as six hexadecimal pairs, in upper or lower case,
/// with `:`, `-` or nothing between them, wakes its device: the packet is six
/// bytes `0xFF` followed by the six bytes sixteen times, 102 bytes in all.
pub proof fn lemma_wol_mac_text(b: Seq<u8>, sep: Seq<char>, lower: bool)
    requires
        b.len() == 6,
        is_separator_text(sep),
    ensures
        wol_mac_payload(mac_text(b, sep, lower)) matches Ok(p) && p.len() == 102 && (forall|i: int|
            0 <= i < 6 ==> #[trigger] p[i] == 0xFFu8) && (forall|i: int|
            6 <= i < 102 ==> #[trigger] p[i] == b[(i - 6) % 6]),
{
    lemma_mac_text_roundtrip(b, sep, lower);
}

/// Wakes a device by its MAC address: the magic packet to broadcast (to
/// `255.255.255.255:9`), or why the address does not read as one.
pub fn wol_mac(mac_address: &str) -> (r: Result<Vec<u8>, String>)
    ensures
        match r {
            Ok(p) => wol_mac_payload(mac_address@) == Ok::<Seq<u8>, Seq<char>>(p@),
            Err(e) => wol_mac_payload(mac_address@) == Err::<Seq<u8>, Seq<char>>(e@),
        },
{
    if let Err(e) = validate_mac_address(mac_address) {
        return Err(e);
    }
    match parse_mac_address(mac_address) {
        Ok(mac) => Ok(build_magic_packet(mac)),
        Err(e) => Err(e),
    }
}


// ---------------------------------------------------------------------------
// Waking by IP address or host name
// ---------------------------------------------------------------------------

/// What waking the device with IP address `ip_address` broadcasts, given the
/// devices found on the network.
pub open spec fn wol_ip_payload(devices: Seq<NetworkDevice>, ip_address: Seq<char>) -> Result<
    Seq<u8>,
    Seq<char>,
> {
    match parse_ipv4(ip_address) {
        None => Err("无效的IP地址: "@ + ip_address),
        Some(ip) => match mac_for_ip(devices, ip) {
            None => Err("无法找到IP "@ + ip_address + " 对应的MAC地址"@),
            Some(mac) => wol_mac_payload(mac),
        },
    }
}

/// What waking the device with host name `hostname` broadcasts, given the
/// devices found on the network.
pub open spec fn wol_hostname_payload(devices: Seq<NetworkDevice>, hostname: Seq<char>) -> Result<
    Seq<u8>,
    Seq<char>,
> {
    match mac_for_hostname(devices, hostname) {
        None => Err("无法找到主机名 "@ + hostname + " 对应的MAC地址"@),
        Some(mac) => wol_mac_payload(mac),
    }
}

/// Waking by the IP address `ip` in dotted-decimal text wakes the first of
/// `devices` whose address is `ip` (all four octets): the MAC address
/// written `m` as six hexadecimal pairs gives the magic packet of its bytes
/// `b`. When no device has that address, waking fails.
pub proof fn lemma_wol_ip_wakes_first_match(
    devices: Seq<NetworkDevice>,
    ip: Ipv4,
    i: int,
    b: Seq<u8>,
    sep: Seq<char>,
    lower: bool,
)
    requires
        b.len() == 6,
        is_separator_text(sep),
    ensures
        0 <= i < devices.len() && devices[i].ip == ip && devices[i].mac@ == mac_text(b, sep, lower)
            && (forall|j: int| 0 <= j < i ==> devices[j].ip != ip) ==> wol_ip_payload(
            devices,
            ipv4_text(ip),
        ) == Ok::<Seq<u8>, Seq<char>>(magic_packet(b)),
        (forall|j: int| 0 <= j < devices.len() ==> #[trigger] devices[j].ip != ip) ==> wol_ip_payload(
            devices,
            ipv4_text(ip),
        ) is Err,
{
    lemma_ipv4_text_roundtrip(ip);
    lemma_mac_for_ip_first_match(devices, ip);
    lemma_mac_text_roundtrip(b, sep, lower);
}

/// Waking by a host name wakes the first of `devices` that carries it; when
/// none does, waking fails.
pub proof fn lemma_wol_hostname_wakes_first_match(
    devices: Seq<NetworkDevice>,
    hostname: Seq<char>,
    i: int,
    b: Seq<u8>,
    sep: Seq<char>,
    lower: bool,
)
    requires
        b.len() == 6,
        is_separator_text(sep),
    ensures
        0 <= i < devices.len() && names(devices[i], hostname) && devices[i].mac@ == mac_text(
            b,
            sep,
            lower,
        ) && (forall|j: int| 0 <= j < i ==> !names(devices[j], hostname)) ==> wol_hostname_payload(
            devices,
            hostname,
        ) == Ok::<Seq<u8>, Seq<char>>(magic_packet(b)),
        (forall|j: int| 0 <= j < devices.len() ==> !names(#[trigger] devices[j], hostname))
            ==> wol_hostname_payload(devices, hostname) is Err,
{
    lemma_mac_for_hostname_first_match(devices, hostname);
    lemma_mac_text_roundtrip(b, sep, lower);
}

/// Wakes a device by its IP address: the address must read as IPv4 and
/// belong to one of `devices`, whose MAC address gives the magic packet.
pub fn wol_ip(devices: &Vec<NetworkDevice>, ip_address: &str) -> (r: Result<Vec<u8>, String>)
    ensures
        match r {
            Ok(p) => wol_ip_payload(devices@, ip_address@) == Ok::<Seq<u8>, Seq<char>>(p@),
            Err(e) => wol_ip_payload(devices@, ip_address@) == Err::<Seq<u8>, Seq<char>>(e@),
        },
{
    let ip = match Ipv4::parse(ip_address) {
        Some(ip) => ip,
        None => {
            let mut e = String::from_str("无效的IP地址: ");
            e.append(ip_address);
            return Err(e);
        },
    };
    let mac_address = match get_mac_by_ip(devices, &ip) {
        Some(m) => m,
        None => {
            let mut e = String::from_str("无法找到IP ");
            e.append(ip_address);
            e.append(" 对应的MAC地址");
            return Err(e);
        },
    };
    wol_mac(mac_address.as_str())
}

/// Wakes a device by its host name: one of `devices` must carry it, whose MAC
/// address gives the magic packet.
pub fn wol_hostname(devices: &Vec<NetworkDevice>, hostname: &str) -> (r: Result<Vec<u8>, String>)
    ensures
        match r {
            Ok(p) => wol_hostname_payload(devices@, hostname@) == Ok::<Seq<u8>, Seq<char>>(p@),
            Err(e) => wol_hostname_payload(devices@, hostname@) == Err::<Seq<u8>, Seq<char>>(e@),
        },
{
    let mac_address = match get_mac_by_hostname(devices, hostname) {
        Some(m) => m,
        None => {
            let mut e = String::from_str("无法找到主机名 ");
            e.append(hostname);
            e.append(" 对应的MAC地址");
            return Err(e);
        },
    };
    wol_mac(mac_address.as_str())
}

} // verus!
