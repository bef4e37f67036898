//! Looking up a host name over mDNS: the name queried for an address, and
//! the host name read from the answer.
use vstd::prelude::*;
use vstd::string::StringExecFns;

use crate::text::{chars_of, slice_take, string_of};

verus! {

/// The name queried for `target_ip`: its reverse-lookup name under `local.`.
pub fn mdns_query_name(target_ip: &str) -> (r: String)
    ensures
        r@ == target_ip@ + ".in-addr.arpa."@ + "local."@,
{
    let mut r = String::from_str(target_ip);
    r.append(".in-addr.arpa.");
    r.append("local.");
    r
}

/// `str::trim_end_matches(suffix)` for a non-empty `suffix`: `s` without all
/// the copies of `suffix` at its end.
pub open spec fn trim_end_matches(s: Seq<char>, suffix: Seq<char>) -> Seq<char>
    decreases s.len(),
{
    if suffix.len() > 0 && suffix.is_suffix_of(s) {
        trim_end_matches(s.take(s.len() - suffix.len()), suffix)
    } else {
        s
    }
}

/// The host name in an mDNS answer's name: the name without its `.local`
/// endings.
pub fn hostname_from_mdns_name(name: &str) -> (r: String)
    ensures
        r@ == trim_end_matches(name@, ".local"@),
{
    let cs = chars_of(name);
    let suffix = chars_of(".local");
    proof {
        reveal_strlit(".local");
    }
    let n = suffix.len();
    let mut e: usize = cs.len();
    assert(cs@.take(e as int) =~= cs@);
    while e >= n && ends_with_at(cs.as_slice(), suffix.as_slice(), e)
        invariant
            e <= cs@.len(),
            n == suffix@.len(),
            n > 0,
            trim_end_matches(cs@, suffix@) == trim_end_matches(cs@.take(e as int), suffix@),
        decreases e,
    {
        assert(cs@.take(e as int).take(e - n) =~= cs@.take(e - n));
        e = e - n;
    }
    proof {
        if e >= n {
            assert(!suffix@.is_suffix_of(cs@.take(e as int)));
        } else {
            assert(!suffix@.is_suffix_of(cs@.take(e as int)));
        }
    }
    let t = slice_take(cs.as_slice(), e);
    string_of(t.as_slice())
}

/// Whether `s[..e]` ends with `suffix`.
fn ends_with_at(s: &[char], suffix: &[char], e: usize) -> (r: bool)
    requires
        suffix@.len() <= e <= s@.len(),
    ensures
        r == suffix@.is_suffix_of(s@.take(e as int)),
{
    let n = suffix.len();
    let start = e - n;
    let mut k: usize = 0;
    while k < n
        invariant
            k <= n,
            n == suffix@.len(),
            start + n == e,
            e <= s@.len(),
            forall|m: int| 0 <= m < k ==> s@[start + m] == suffix@[m],
        decreases n - k,
    {
        if s[start + k] != suffix[k] {
            proof {
                let t = s@.take(e as int);
                assert(t[t.len() - suffix@.len() + k] == s@[start + k]);
            }
            return false;
        }
        k += 1;
    }
    proof {
        let t = s@.take(e as int);
        assert(t.subrange(t.len() - suffix@.len(), t.len() as int) =~= suffix@);
    }
    true
}

} // verus!
