//! IPv4 addresses in dotted-decimal notation: reading them as
//! `Ipv4Addr::from_str` does, and writing them as its `Display` does.
use vstd::prelude::*;

use crate::text::{
    char_views, chars_of, lemma_split_char_concat, lemma_split_char_single, split_char,
    split_on_char, string_of,
};

verus! {

/// An IPv4 address, by its four octets in network order.
#[derive(Clone, Copy, Debug, PartialEq, Eq, Structural, Hash)]
pub struct Ipv4 {
    pub a: u8,
    pub b: u8,
    pub c: u8,
    pub d: u8,
}

pub open spec fn is_digit(c: char) -> bool {
    48 <= (c as u32) && (c as u32) <= 57
}

pub open spec fn digit_value(c: char) -> int {
    (c as u32) - 48
}

pub open spec fn digit_char(d: int) -> char {
    (d + 48) as char
}

/// The number that a run of decimal digits denotes.
pub open spec fn decimal_value(t: Seq<char>) -> int
    decreases t.len(),
{
    if t.len() == 0 {
        0
    } else {
        decimal_value(t.drop_last()) * 10 + digit_value(t.last())
    }
}

/// An octet as the standard parser accepts it: one to three decimal digits,
/// no `0` in front of another digit, and a value of at most 255.
pub open spec fn is_octet_text(t: Seq<char>) -> bool {
    &&& 1 <= t.len() <= 3
    &&& forall|i: int| 0 <= i < t.len() ==> is_digit(#[trigger] t[i])
    &&& t.len() > 1 ==> t[0] != '0'
    &&& decimal_value(t) <= 255
}

/// The address that `s` denotes: exactly four octets separated by dots.
pub open spec fn parse_ipv4(s: Seq<char>) -> Option<Ipv4> {
    let parts = split_char(s, '.');
    if parts.len() == 4 && is_octet_text(parts[0]) && is_octet_text(parts[1]) && is_octet_text(
        parts[2],
    ) && is_octet_text(parts[3]) {
        Some(
            Ipv4 {
                a: decimal_value(parts[0]) as u8,
                b: decimal_value(parts[1]) as u8,
                c: decimal_value(parts[2]) as u8,
                d: decimal_value(parts[3]) as u8,
            },
        )
    } else {
        None
    }
}

/// The decimal digits of an octet, without leading zeros.
pub open spec fn octet_text(n: u8) -> Seq<char> {
    let m = n as int;
    if m < 10 {
        seq![digit_char(m)]
    } else if m < 100 {
        seq![digit_char(m / 10), digit_char(m % 10)]
    } else {
        seq![digit_char(m / 100), digit_char((m / 10) % 10), digit_char(m % 10)]
    }
}

/// The dotted-decimal text of an address, e.g. `192.168.0.1`.
pub open spec fn ipv4_text(ip: Ipv4) -> Seq<char> {
    octet_text(ip.a) + seq!['.'] + octet_text(ip.b) + seq!['.'] + octet_text(ip.c) + seq!['.']
        + octet_text(ip.d)
}

/// The text of an octet is an octet text without dots, denoting the octet.
pub proof fn lemma_octet_text(n: u8)
    ensures
        is_octet_text(octet_text(n)),
        decimal_value(octet_text(n)) == n,
        forall|i: int| 0 <= i < octet_text(n).len() ==> octet_text(n)[i] != '.',
{
    let t = octet_text(n);
    let m = n as int;
    reveal_with_fuel(decimal_value, 4);
    if m < 10 {
        assert(t.drop_last() =~= Seq::<char>::empty());
    } else if m < 100 {
        assert(t.drop_last() =~= seq![digit_char(m / 10)]);
        assert(t.drop_last().drop_last() =~= Seq::<char>::empty());
    } else {
        assert(t.drop_last() =~= seq![digit_char(m / 100), digit_char((m / 10) % 10)]);
        assert(t.drop_last().drop_last() =~= seq![digit_char(m / 100)]);
        assert(t.drop_last().drop_last().drop_last() =~= Seq::<char>::empty());
        assert(m / 100 * 100 + (m / 10) % 10 * 10 + m % 10 == m);
    }
}

/// Reading back the text of an address gives the address: the dotted-decimal
/// writer and reader agree on every address.
pub proof fn lemma_ipv4_text_roundtrip(ip: Ipv4)
    ensures
        parse_ipv4(ipv4_text(ip)) == Some(ip),
{
    let ta = octet_text(ip.a);
    let tb = octet_text(ip.b);
    let tc = octet_text(ip.c);
    let td = octet_text(ip.d);
    lemma_octet_text(ip.a);
    lemma_octet_text(ip.b);
    lemma_octet_text(ip.c);
    lemma_octet_text(ip.d);
    lemma_split_char_single(ta, '.');
    lemma_split_char_single(tb, '.');
    lemma_split_char_single(tc, '.');
    lemma_split_char_single(td, '.');
    let dot = seq!['.'];
    lemma_split_char_concat(ta, tb, '.');
    lemma_split_char_concat(ta + dot + tb, tc, '.');
    lemma_split_char_concat(ta + dot + tb + dot + tc, td, '.');
    let parts = split_char(ipv4_text(ip), '.');
    assert(parts =~= seq![ta, tb, tc, td]);
}

impl Ipv4 {
    /// Builds an address from its octets (`Ipv4Addr::new`).
    pub fn new(a: u8, b: u8, c: u8, d: u8) -> (r: Ipv4)
        ensures
            r == (Ipv4 { a, b, c, d }),
    {
        Ipv4 { a, b, c, d }
    }

    /// Reads an address in dotted-decimal notation; `None` where
    /// `Ipv4Addr::from_str` reports an error.
    pub fn parse(s: &str) -> (r: Option<Ipv4>)
        ensures
            r == parse_ipv4(s@),
    {
        let cs = chars_of(s);
        parse_ipv4_chars(cs.as_slice())
    }

    /// The dotted-decimal text of the address, as `Ipv4Addr`'s `Display` writes it.
    pub fn to_string(&self) -> (r: String)
        ensures
            r@ == ipv4_text(*self),
    {
        let mut cs: Vec<char> = Vec::new();
        push_octet(&mut cs, self.a);
        cs.push('.');
        push_octet(&mut cs, self.b);
        cs.push('.');
        push_octet(&mut cs, self.c);
        cs.push('.');
        push_octet(&mut cs, self.d);
        assert(cs@ =~= ipv4_text(*self));
        string_of(cs.as_slice())
    }
}

fn push_octet(cs: &mut Vec<char>, n: u8)
    ensures
        final(cs)@ == old(cs)@ + octet_text(n),
{
    if n < 10 {
        cs.push(digit_char_exec(n));
    } else if n < 100 {
        cs.push(digit_char_exec(n / 10));
        cs.push(digit_char_exec(n % 10));
    } else {
        cs.push(digit_char_exec(n / 100));
        cs.push(digit_char_exec((n / 10) % 10));
        cs.push(digit_char_exec(n % 10));
    }
    assert(final(cs)@ =~= old(cs)@ + octet_text(n));
}

fn digit_char_exec(d: u8) -> (c: char)
    requires
        d < 10,
    ensures
        c == digit_char(d as int),
{
    if d == 0 {
        '0'
    } else if d == 1 {
        '1'
    } else if d == 2 {
        '2'
    } else if d == 3 {
        '3'
    } else if d == 4 {
        '4'
    } else if d == 5 {
        '5'
    } else if d == 6 {
        '6'
    } else if d == 7 {
        '7'
    } else if d == 8 {
        '8'
    } else {
        '9'
    }
}

/// The value of an octet text, `None` where the text is not one.
fn octet_of(t: &[char]) -> (r: Option<u8>)
    ensures
        r == (if is_octet_text(t@) {
            Some(decimal_value(t@) as u8)
        } else {
            None
        }),
{
    let n = t.len();
    if n < 1 || n > 3 {
        return None;
    }
    if n > 1 && t[0] == '0' {
        return None;
    }
    let mut v: u32 = 0;
    let mut k: usize = 0;
    while k < n
        invariant
            n == t@.len(),
            1 <= n <= 3,
            k <= n,
            forall|i: int| 0 <= i < k ==> is_digit(#[trigger] t@[i]),
            v == decimal_value(t@.take(k as int)),
            k == 0 ==> v == 0,
            k == 1 ==> v < 10,
            k == 2 ==> v < 100,
            k == 3 ==> v < 1000,
        decreases n - k,
    {
        let c = t[k];
        let u = c as u32;
        if u < 48 || u > 57 {
            return None;
        }
        proof {
            assert(t@.take(k + 1).drop_last() =~= t@.take(k as int));
        }
        v = v * 10 + (u - 48);
        k += 1;
    }
    assert(t@.take(n as int) =~= t@);
    if v > 255 {
        None
    } else {
        Some(v as u8)
    }
}

fn parse_ipv4_chars(s: &[char]) -> (r: Option<Ipv4>)
    ensures
        r == parse_ipv4(s@),
{
    let parts = split_on_char(s, '.');
    if parts.len() != 4 {
        return None;
    }
    proof {
        assert forall|i: int| 0 <= i < 4 implies split_char(s@, '.')[i] == parts@[i]@ by {
            assert(char_views(parts@)[i] == parts@[i]@);
        }
    }
    let a = octet_of(parts[0].as_slice());
    let b = octet_of(parts[1].as_slice());
    let c = octet_of(parts[2].as_slice());
    let d = octet_of(parts[3].as_slice());
    match (a, b, c, d) {
        (Some(a), Some(b), Some(c), Some(d)) => Some(Ipv4 { a, b, c, d }),
        _ => None,
    }
}

} // verus!
