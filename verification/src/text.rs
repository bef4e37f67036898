//! Character-level text handling shared by the parsers of command output:
//! splitting on a character, trimming, prefixes, words and lines, with the
//! meaning of each operation stated over `Seq<char>`.
use vstd::prelude::*;

verus! {

// ---------------------------------------------------------------------------
// Views of collections of texts
// ---------------------------------------------------------------------------

/// The character sequences held by a sequence of character vectors.
pub open spec fn char_views(v: Seq<Vec<char>>) -> Seq<Seq<char>> {
    Seq::new(v.len(), |i: int| v[i]@)
}

/// The characters of an optional string.
pub open spec fn opt_string_view(r: Option<String>) -> Option<Seq<char>> {
    match r {
        Some(s) => Some(s@),
        None => None,
    }
}

/// The character sequences held by a sequence of strings.
pub open spec fn string_views(v: Seq<String>) -> Seq<Seq<char>> {
    Seq::new(v.len(), |i: int| v[i]@)
}

// ---------------------------------------------------------------------------
// Characters
// ---------------------------------------------------------------------------

/// Unicode `White_Space`, the property behind `char::is_whitespace`.
pub open spec fn is_ws(c: char) -> bool {
    let u = c as u32;
    ||| u == 0x09
    ||| u == 0x0A
    ||| u == 0x0B
    ||| u == 0x0C
    ||| u == 0x0D
    ||| u == 0x20
    ||| u == 0x85
    ||| u == 0xA0
    ||| u == 0x1680
    ||| (0x2000 <= u && u <= 0x200A)
    ||| u == 0x2028
    ||| u == 0x2029
    ||| u == 0x202F
    ||| u == 0x205F
    ||| u == 0x3000
}

pub fn is_whitespace(c: char) -> (r: bool)
    ensures
        r == is_ws(c),
{
    let u = c as u32;
    u == 0x09 || u == 0x0A || u == 0x0B || u == 0x0C || u == 0x0D || u == 0x20 || u == 0x85
        || u == 0xA0 || u == 0x1680 || (0x2000 <= u && u <= 0x200A) || u == 0x2028 || u
        == 0x2029 || u == 0x202F || u == 0x205F || u == 0x3000
}

/// Appends one character to a string with `String::push`. The contract
/// claims what its documentation says: afterwards the string holds its old
/// characters followed by `c`.
#[verifier::external_body]
fn push_char(s: &mut String, c: char)
    ensures
        final(s)@ == old(s)@.push(c),
{
    s.push(c);
}

/// The characters of a string slice, in order.
pub fn chars_of(s: &str) -> (r: Vec<char>)
    ensures
        r@ == s@,
{
    let mut r: Vec<char> = Vec::new();
    for c in it: s.chars()
        invariant
            r@ == it.seq().take(it.index() as int),
    {
        r.push(c);
    }
    r
}

/// A string holding exactly the given characters.
pub fn string_of(cs: &[char]) -> (r: String)
    ensures
        r@ == cs@,
{
    let mut r = String::new();
    let mut i: usize = 0;
    while i < cs.len()
        invariant
            i <= cs.len(),
            r@ == cs@.take(i as int),
        decreases cs.len() - i,
    {
        proof {
            assert(cs@.take(i + 1) =~= cs@.take(i as int).push(cs@[i as int]));
        }
        push_char(&mut r, cs[i]);
        i += 1;
    }
    proof {
        assert(cs@.take(cs@.len() as int) =~= cs@);
    }
    r
}


// ---------------------------------------------------------------------------
// Splitting on one character
// ---------------------------------------------------------------------------

/// The pieces of `s` between occurrences of `sep`, as `str::split(sep)` gives
/// them: there is always at least one piece, and empty pieces are kept.
pub open spec fn split_char(s: Seq<char>, sep: char) -> Seq<Seq<char>>
    decreases s.len(),
{
    if s.len() == 0 {
        seq![Seq::<char>::empty()]
    } else {
        let p = split_char(s.drop_last(), sep);
        if s.last() == sep {
            p.push(Seq::<char>::empty())
        } else {
            p.update(p.len() - 1, p.last().push(s.last()))
        }
    }
}

pub proof fn lemma_split_char_nonempty(s: Seq<char>, sep: char)
    ensures
        split_char(s, sep).len() >= 1,
    decreases s.len(),
{
    if s.len() > 0 {
        lemma_split_char_nonempty(s.drop_last(), sep);
    }
}

/// Splits `s` at every `sep`.
pub fn split_on_char(s: &[char], sep: char) -> (r: Vec<Vec<char>>)
    ensures
        char_views(r@) == split_char(s@, sep),
{
    let mut done: Vec<Vec<char>> = Vec::new();
    let mut cur: Vec<char> = Vec::new();
    let mut i: usize = 0;
    while i < s.len()
        invariant
            i <= s.len(),
            char_views(done@).push(cur@) =~= split_char(s@.take(i as int), sep),
        decreases s.len() - i,
    {
        let ghost before = split_char(s@.take(i as int), sep);
        proof {
            assert(s@.take(i + 1).drop_last() =~= s@.take(i as int));
            lemma_split_char_nonempty(s@.take(i as int), sep);
        }
        if s[i] == sep {
            done.push(cur);
            cur = Vec::new();
            assert(char_views(done@).push(cur@) =~= before.push(Seq::<char>::empty()));
        } else {
            cur.push(s[i]);
            assert(char_views(done@).push(cur@) =~= before.update(
                before.len() - 1,
                before.last().push(s@[i as int]),
            ));
        }
        i += 1;
    }
    done.push(cur);
    proof {
        assert(s@.take(s@.len() as int) =~= s@);
    }
    done
}

/// Splitting `x`, a separator, then `y` gives the pieces of `x` followed by those of `y`.
pub proof fn lemma_split_char_concat(x: Seq<char>, y: Seq<char>, sep: char)
    ensures
        split_char(x + seq![sep] + y, sep) == split_char(x, sep) + split_char(y, sep),
    decreases y.len(),
{
    let z = x + seq![sep] + y;
    if y.len() == 0 {
        assert(z.drop_last() =~= x);
        assert(split_char(x, sep) + split_char(y, sep) =~= split_char(x, sep).push(
            Seq::<char>::empty(),
        ));
    } else {
        let y1 = y.drop_last();
        assert(z.drop_last() =~= x + seq![sep] + y1);
        lemma_split_char_concat(x, y1, sep);
        lemma_split_char_nonempty(y1, sep);
        lemma_split_char_nonempty(x, sep);
        let px = split_char(x, sep);
        let py = split_char(y1, sep);
        if y.last() == sep {
            assert((px + py).push(Seq::<char>::empty()) =~= px + py.push(Seq::<char>::empty()));
        } else {
            assert((px + py).update((px + py).len() - 1, (px + py).last().push(y.last())) =~= px
                + py.update(py.len() - 1, py.last().push(y.last())));
        }
    }
}

/// A text without the separator is a single piece.
pub proof fn lemma_split_char_single(x: Seq<char>, sep: char)
    requires
        forall|i: int| 0 <= i < x.len() ==> x[i] != sep,
    ensures
        split_char(x, sep) == seq![x],
    decreases x.len(),
{
    if x.len() == 0 {
        assert(x =~= Seq::<char>::empty());
    } else {
        assert(x[x.len() - 1] != sep);
        lemma_split_char_single(x.drop_last(), sep);
        assert(x.drop_last().push(x.last()) =~= x);
        assert(split_char(x.drop_last(), sep).update(0, x.drop_last().push(x.last())) =~= seq![
            x,
        ]);
        assert(split_char(x, sep) =~= seq![x]);
    }
}

// ---------------------------------------------------------------------------
// Trimming and prefixes
// ---------------------------------------------------------------------------

/// `s` without its leading whitespace (`str::trim_start`).
pub open spec fn trim_start(s: Seq<char>) -> Seq<char>
    decreases s.len(),
{
    if s.len() > 0 && is_ws(s[0]) {
        trim_start(s.drop_first())
    } else {
        s
    }
}

pub fn trim_start_chars(s: &[char]) -> (r: Vec<char>)
    ensures
        r@ == trim_start(s@),
{
    let mut j: usize = 0;
    assert(s@.skip(0) =~= s@);
    while j < s.len() && is_whitespace(s[j])
        invariant
            j <= s.len(),
            trim_start(s@) == trim_start(s@.skip(j as int)),
        decreases s.len() - j,
    {
        proof {
            assert(s@.skip(j as int).drop_first() =~= s@.skip(j + 1));
        }
        j += 1;
    }
    slice_skip(s, j)
}

/// The characters of `s` from position `j` on.
pub fn slice_skip(s: &[char], j: usize) -> (r: Vec<char>)
    requires
        j <= s@.len(),
    ensures
        r@ == s@.skip(j as int),
{
    let mut r: Vec<char> = Vec::new();
    let mut k: usize = j;
    while k < s.len()
        invariant
            j <= k <= s.len(),
            r@ =~= s@.subrange(j as int, k as int),
        decreases s.len() - k,
    {
        r.push(s[k]);
        k += 1;
    }
    r
}

/// The characters of `s` before position `j`.
pub fn slice_take(s: &[char], j: usize) -> (r: Vec<char>)
    requires
        j <= s@.len(),
    ensures
        r@ == s@.take(j as int),
{
    let mut r: Vec<char> = Vec::new();
    let mut k: usize = 0;
    while k < j
        invariant
            k <= j <= s.len(),
            r@ =~= s@.take(k as int),
        decreases j - k,
    {
        r.push(s[k]);
        k += 1;
    }
    r
}

/// Whether `p` occurs in `s` starting at position `i`.
pub open spec fn occurs_at(s: Seq<char>, p: Seq<char>, i: int) -> bool {
    0 <= i && i + p.len() <= s.len() && s.subrange(i, i + p.len()) == p
}

pub fn occurs_at_exec(s: &[char], p: &[char], i: usize) -> (r: bool)
    ensures
        r == occurs_at(s@, p@, i as int),
{
    if i > s.len() || p.len() > s.len() - i {
        return false;
    }
    let mut k: usize = 0;
    while k < p.len()
        invariant
            k <= p.len(),
            i + p.len() <= s.len(),
            forall|m: int| 0 <= m < k ==> s@[i + m] == p@[m],
        decreases p.len() - k,
    {
        if s[i + k] != p[k] {
            assert(s@.subrange(i as int, i + p@.len())[k as int] != p@[k as int]);
            return false;
        }
        k += 1;
    }
    assert(s@.subrange(i as int, i + p@.len()) =~= p@);
    true
}

/// Whether `s` starts with `p`.
pub fn starts_with(s: &[char], p: &[char]) -> (r: bool)
    ensures
        r == p@.is_prefix_of(s@),
{
    let r = occurs_at_exec(s, p, 0);
    proof {
        if r {
            assert(s@.subrange(0, p@.len() as int) == p@);
        }
        if p@.is_prefix_of(s@) {
            assert(s@.subrange(0, p@.len() as int) =~= p@);
        }
    }
    r
}

/// `str::strip_prefix`: the rest of `s` after `p`, when `s` starts with `p`.
pub open spec fn strip_prefix(s: Seq<char>, p: Seq<char>) -> Option<Seq<char>> {
    if p.is_prefix_of(s) {
        Some(s.skip(p.len() as int))
    } else {
        None
    }
}

pub fn strip_prefix_chars(s: &[char], p: &[char]) -> (r: Option<Vec<char>>)
    ensures
        match r {
            Some(v) => strip_prefix(s@, p@) == Some(v@),
            None => strip_prefix(s@, p@) is None,
        },
{
    if starts_with(s, p) {
        Some(slice_skip(s, p.len()))
    } else {
        None
    }
}

/// The first position from `i` on at which `p` occurs in `s`.
pub open spec fn find_from(s: Seq<char>, p: Seq<char>, i: int) -> Option<int>
    decreases s.len() + 1 - i,
{
    if i < 0 || i + p.len() > s.len() {
        None
    } else if occurs_at(s, p, i) {
        Some(i)
    } else {
        find_from(s, p, i + 1)
    }
}

/// The first position at which `p` occurs in `s` (`str::find`).
pub open spec fn find(s: Seq<char>, p: Seq<char>) -> Option<int> {
    find_from(s, p, 0)
}

pub proof fn lemma_find_from(s: Seq<char>, p: Seq<char>, i: int)
    requires
        0 <= i,
    ensures
        match find_from(s, p, i) {
            Some(j) => i <= j && occurs_at(s, p, j) && forall|k: int|
                i <= k < j ==> !occurs_at(s, p, k),
            None => forall|k: int| i <= k ==> !occurs_at(s, p, k),
        },
    decreases s.len() + 1 - i,
{
    if i + p.len() > s.len() {
    } else if occurs_at(s, p, i) {
    } else {
        lemma_find_from(s, p, i + 1);
    }
}

pub fn find_chars(s: &[char], p: &[char]) -> (r: Option<usize>)
    ensures
        match r {
            Some(j) => find(s@, p@) == Some(j as int),
            None => find(s@, p@) is None,
        },
{
    let mut i: usize = 0;
    loop
        invariant
            i <= s.len(),
            find(s@, p@) == find_from(s@, p@, i as int),
        decreases s.len() + 1 - i,
    {
        if p.len() > s.len() - i {
            return None;
        }
        if occurs_at_exec(s, p, i) {
            return Some(i);
        }
        if p.len() == 0 {
            assert(s@.subrange(i as int, i as int) =~= p@);
        }
        i += 1;
    }
}

/// Whether `p` occurs anywhere in `s` (`str::contains`).
pub open spec fn contains_text(s: Seq<char>, p: Seq<char>) -> bool {
    exists|i: int| occurs_at(s, p, i)
}

pub fn contains_chars(s: &[char], p: &[char]) -> (r: bool)
    ensures
        r == contains_text(s@, p@),
{
    let r = find_chars(s, p);
    proof {
        lemma_find_from(s@, p@, 0);
        if let Some(j) = r {
            assert(occurs_at(s@, p@, j as int));
        }
    }
    r.is_some()
}

/// The second piece of `s` split at `p` (`s.split(p).nth(1)`): the text between the
/// first occurrence of `p` and the next one, or the end.
pub open spec fn second_piece(s: Seq<char>, p: Seq<char>) -> Option<Seq<char>> {
    match find(s, p) {
        None => None,
        Some(i) => {
            let rest = s.skip(i + p.len());
            match find(rest, p) {
                Some(j) => Some(rest.take(j)),
                None => Some(rest),
            }
        },
    }
}

pub fn second_piece_chars(s: &[char], p: &[char]) -> (r: Option<Vec<char>>)
    ensures
        match r {
            Some(v) => second_piece(s@, p@) == Some(v@),
            None => second_piece(s@, p@) is None,
        },
{
    match find_chars(s, p) {
        None => None,
        Some(i) => {
            proof {
                lemma_find_from(s@, p@, 0);
                assert(occurs_at(s@, p@, i as int));
                assert(i + p@.len() <= s@.len());
            }
            let plen = p.len();
            let slen = s.len();
            assert(plen == p@.len() && slen == s@.len());
            let rest = slice_skip(s, i + plen);
            match find_chars(rest.as_slice(), p) {
                Some(j) => {
                    proof {
                        lemma_find_from(rest@, p@, 0);
                    }
                    Some(slice_take(rest.as_slice(), j))
                },
                None => Some(rest),
            }
        },
    }
}


// ---------------------------------------------------------------------------
// Words and lines
// ---------------------------------------------------------------------------

/// The pieces of `s` between whitespace characters, empty pieces included.
pub open spec fn split_ws(s: Seq<char>) -> Seq<Seq<char>>
    decreases s.len(),
{
    if s.len() == 0 {
        seq![Seq::<char>::empty()]
    } else {
        let p = split_ws(s.drop_last());
        if is_ws(s.last()) {
            p.push(Seq::<char>::empty())
        } else {
            p.update(p.len() - 1, p.last().push(s.last()))
        }
    }
}

pub proof fn lemma_split_ws_nonempty(s: Seq<char>)
    ensures
        split_ws(s).len() >= 1,
    decreases s.len(),
{
    if s.len() > 0 {
        lemma_split_ws_nonempty(s.drop_last());
    }
}

/// A piece kept by `split_whitespace`: a non-empty one.
pub open spec fn keep_word(w: Seq<char>) -> Option<Seq<char>> {
    if w.len() > 0 {
        Some(w)
    } else {
        None
    }
}

/// `str::split_whitespace`: the maximal runs of non-whitespace characters.
pub open spec fn words(s: Seq<char>) -> Seq<Seq<char>> {
    split_ws(s).filter_map(|w: Seq<char>| keep_word(w))
}

proof fn lemma_filter_map_push(p: Seq<Seq<char>>, x: Seq<char>)
    ensures
        p.push(x).filter_map(|w: Seq<char>| keep_word(w)) == if x.len() > 0 {
            p.filter_map(|w: Seq<char>| keep_word(w)).push(x)
        } else {
            p.filter_map(|w: Seq<char>| keep_word(w))
        },
{
    assert(p.push(x).drop_last() =~= p);
    assert(p.push(x).last() == x);
    if x.len() > 0 {
        assert(p.filter_map(|w: Seq<char>| keep_word(w)) + seq![x] =~= p.filter_map(
            |w: Seq<char>| keep_word(w),
        ).push(x));
    }
}

/// The words of `s`, as `str::split_whitespace` yields them.
pub fn split_whitespace(s: &[char]) -> (r: Vec<Vec<char>>)
    ensures
        char_views(r@) == words(s@),
{
    let mut done: Vec<Vec<char>> = Vec::new();
    let mut cur: Vec<char> = Vec::new();
    let ghost mut pieces: Seq<Seq<char>> = Seq::empty();
    let mut i: usize = 0;
    while i < s.len()
        invariant
            i <= s.len(),
            pieces.push(cur@) =~= split_ws(s@.take(i as int)),
            char_views(done@) =~= pieces.filter_map(|w: Seq<char>| keep_word(w)),
        decreases s.len() - i,
    {
        proof {
            assert(s@.take(i + 1).drop_last() =~= s@.take(i as int));
            lemma_split_ws_nonempty(s@.take(i as int));
        }
        if is_whitespace(s[i]) {
            proof {
                lemma_filter_map_push(pieces, cur@);
                pieces = pieces.push(cur@);
            }
            if cur.len() > 0 {
                done.push(cur);
            }
            cur = Vec::new();
            assert(pieces.push(cur@) =~= split_ws(s@.take(i + 1)));
        } else {
            cur.push(s[i]);
            assert(pieces.push(cur@) =~= split_ws(s@.take(i + 1)));
        }
        i += 1;
    }
    proof {
        assert(s@.take(s@.len() as int) =~= s@);
        lemma_filter_map_push(pieces, cur@);
    }
    if cur.len() > 0 {
        done.push(cur);
    }
    assert(char_views(done@) =~= words(s@));
    done
}

/// `s` without one trailing carriage return.
pub open spec fn strip_cr(l: Seq<char>) -> Seq<char> {
    if l.len() > 0 && l.last() == '\r' {
        l.drop_last()
    } else {
        l
    }
}

/// `str::lines`: the pieces between newlines, each line ending being `\n` or
/// `\r\n`, and no empty line after a final line ending.
pub open spec fn lines(s: Seq<char>) -> Seq<Seq<char>> {
    let ps = split_char(s, '\n');
    let body = Seq::new((ps.len() - 1) as nat, |i: int| strip_cr(ps[i]));
    if ps.last().len() == 0 {
        body
    } else {
        body.push(ps.last())
    }
}

pub fn lines_of(s: &[char]) -> (r: Vec<Vec<char>>)
    ensures
        char_views(r@) == lines(s@),
{
    let ps = split_on_char(s, '\n');
    proof {
        lemma_split_char_nonempty(s@, '\n');
    }
    let n = ps.len();
    let mut r: Vec<Vec<char>> = Vec::new();
    let mut i: usize = 0;
    while i + 1 < n
        invariant
            1 <= n == ps@.len(),
            i + 1 <= n,
            char_views(ps@) == split_char(s@, '\n'),
            char_views(r@) =~= Seq::new(i as nat, |k: int| strip_cr(ps@[k]@)),
        decreases n - i,
    {
        let l = &ps[i];
        let ll = l.len();
        let ghost old_r = char_views(r@);
        if ll > 0 && l[ll - 1] == '\r' {
            let t = slice_take(l.as_slice(), ll - 1);
            proof {
                assert(t@ =~= l@.drop_last());
            }
            r.push(t);
            assert(char_views(ps@)[i as int] == l@);
        } else {
            let t = copy_chars(l.as_slice());
            r.push(t);
        }
        assert(char_views(r@) =~= old_r.push(strip_cr(ps@[i as int]@)));
        i += 1;
    }
    let last = &ps[n - 1];
    proof {
        assert(char_views(ps@)[n - 1] == last@);
    }
    let ghost ss = split_char(s@, '\n');
    let ghost body = Seq::new((ss.len() - 1) as nat, |k: int| strip_cr(ss[k]));
    proof {
        assert forall|k: int| 0 <= k < n implies ss[k] == ps@[k]@ by {
            assert(char_views(ps@)[k] == ps@[k]@);
        }
        assert(char_views(r@) =~= body);
    }
    if last.len() > 0 {
        r.push(copy_chars(last.as_slice()));
        assert(char_views(r@) =~= body.push(ss.last()));
    }
    assert(char_views(r@) =~= lines(s@));
    r
}

/// A vector holding the characters of `s`.
pub fn copy_chars(s: &[char]) -> (r: Vec<char>)
    ensures
        r@ == s@,
{
    let r = slice_take(s, s.len());
    assert(s@.take(s@.len() as int) =~= s@);
    r
}


// ---------------------------------------------------------------------------
// Comparison, trimming a character, first match
// ---------------------------------------------------------------------------

/// Whether two character sequences are equal.
pub fn eq_chars(a: &[char], b: &[char]) -> (r: bool)
    ensures
        r == (a@ == b@),
{
    if a.len() != b.len() {
        return false;
    }
    let mut i: usize = 0;
    while i < a.len()
        invariant
            a@.len() == b@.len(),
            i <= a.len(),
            forall|k: int| 0 <= k < i ==> a@[k] == b@[k],
        decreases a.len() - i,
    {
        if a[i] != b[i] {
            return false;
        }
        i += 1;
    }
    assert(a@ =~= b@);
    true
}

/// `s` without any leading `c`.
pub open spec fn trim_start_char(s: Seq<char>, c: char) -> Seq<char>
    decreases s.len(),
{
    if s.len() > 0 && s[0] == c {
        trim_start_char(s.drop_first(), c)
    } else {
        s
    }
}

/// `s` without any trailing `c`.
pub open spec fn trim_end_char(s: Seq<char>, c: char) -> Seq<char>
    decreases s.len(),
{
    if s.len() > 0 && s.last() == c {
        trim_end_char(s.drop_last(), c)
    } else {
        s
    }
}

/// `str::trim_matches(c)`: `s` without any leading or trailing `c`.
pub open spec fn trim_matches(s: Seq<char>, c: char) -> Seq<char> {
    trim_end_char(trim_start_char(s, c), c)
}

pub fn trim_matches_chars(s: &[char], c: char) -> (r: Vec<char>)
    ensures
        r@ == trim_matches(s@, c),
{
    let mut j: usize = 0;
    assert(s@.skip(0) =~= s@);
    while j < s.len() && s[j] == c
        invariant
            j <= s.len(),
            trim_start_char(s@, c) == trim_start_char(s@.skip(j as int), c),
        decreases s.len() - j,
    {
        assert(s@.skip(j as int).drop_first() =~= s@.skip(j + 1));
        j += 1;
    }
    let t = slice_skip(s, j);
    let mut e: usize = t.len();
    assert(t@.take(e as int) =~= t@);
    while e > 0 && t[e - 1] == c
        invariant
            e <= t@.len(),
            trim_end_char(t@, c) == trim_end_char(t@.take(e as int), c),
        decreases e,
    {
        assert(t@.take(e as int).drop_last() =~= t@.take(e - 1));
        e -= 1;
    }
    slice_take(t.as_slice(), e)
}

/// The first `Some` that `f` gives over `ls`, in order.
pub open spec fn first_some(ls: Seq<Seq<char>>, f: spec_fn(Seq<char>) -> Option<Seq<char>>) -> Option<Seq<char>>
    decreases ls.len(),
{
    if ls.len() == 0 {
        None
    } else {
        match f(ls[0]) {
            Some(x) => Some(x),
            None => first_some(ls.drop_first(), f),
        }
    }
}


/// The first `Some` is that of the first element on which `f` gives one; there
/// is none exactly when `f` gives `None` on every element.
pub proof fn lemma_first_some_first_match(
    ls: Seq<Seq<char>>,
    f: spec_fn(Seq<char>) -> Option<Seq<char>>,
)
    ensures
        forall|i: int|
            0 <= i < ls.len() && #[trigger] f(ls[i]) is Some && (forall|j: int|
                0 <= j < i ==> f(ls[j]) is None) ==> first_some(ls, f) == f(ls[i]),
        (first_some(ls, f) is None) <==> (forall|i: int| 0 <= i < ls.len() ==> #[trigger] f(ls[i]) is None),
    decreases ls.len(),
{
    if ls.len() > 0 {
        let rest = ls.drop_first();
        lemma_first_some_first_match(rest, f);
        assert forall|i: int|
            0 <= i < ls.len() && #[trigger] f(ls[i]) is Some && (forall|j: int|
                0 <= j < i ==> f(ls[j]) is None) implies first_some(ls, f) == f(ls[i]) by {
            if i > 0 {
                assert(f(ls[0]) is None);
                assert(rest[i - 1] == ls[i]);
                assert forall|j: int| 0 <= j < i - 1 implies f(rest[j]) is None by {
                    assert(rest[j] == ls[j + 1]);
                }
            }
        }
        if f(ls[0]) is None {
            if forall|i: int| 0 <= i < rest.len() ==> #[trigger] f(rest[i]) is None {
                assert forall|i: int| 0 <= i < ls.len() implies #[trigger] f(ls[i]) is None by {
                    if i > 0 {
                        assert(rest[i - 1] == ls[i]);
                    }
                }
            }
            if forall|i: int| 0 <= i < ls.len() ==> #[trigger] f(ls[i]) is None {
                assert forall|i: int| 0 <= i < rest.len() implies #[trigger] f(rest[i]) is None by {
                    assert(rest[i] == ls[i + 1]);
                }
            }
        }
    }
}

/// What `first_some` gives is what `f` gives on one of the elements.
pub proof fn lemma_first_some_witness(ls: Seq<Seq<char>>, f: spec_fn(Seq<char>) -> Option<Seq<char>>)
    ensures
        first_some(ls, f) is Some ==> exists|i: int|
            0 <= i < ls.len() && #[trigger] f(ls[i]) == first_some(ls, f),
    decreases ls.len(),
{
    if ls.len() > 0 {
        let rest = ls.drop_first();
        lemma_first_some_witness(rest, f);
        if f(ls[0]) is Some {
            assert(f(ls[0]) == first_some(ls, f));
        } else if first_some(rest, f) is Some {
            let i = choose|i: int| 0 <= i < rest.len() && #[trigger] f(rest[i]) == first_some(rest, f);
            assert(rest[i] == ls[i + 1]);
            assert(f(ls[i + 1]) == first_some(ls, f));
        }
    }
}

/// A text read line by line: a first line `l` (without a line break) ended
/// by `\n` gives `l`, without a trailing `\r`, before the lines of the rest.
pub proof fn lemma_lines_first(l: Seq<char>, rest: Seq<char>)
    requires
        forall|i: int| 0 <= i < l.len() ==> l[i] != '\n',
    ensures
        lines(l + seq!['\n'] + rest) == seq![strip_cr(l)] + lines(rest),
{
    lemma_split_char_concat(l, rest, '\n');
    lemma_split_char_single(l, '\n');
    lemma_split_char_nonempty(rest, '\n');
    let ps = split_char(l + seq!['\n'] + rest, '\n');
    let pr = split_char(rest, '\n');
    assert(ps == seq![l] + pr);
    assert(ps.last() == pr.last());
    let body = Seq::new((ps.len() - 1) as nat, |i: int| strip_cr(ps[i]));
    let body_r = Seq::new((pr.len() - 1) as nat, |i: int| strip_cr(pr[i]));
    assert(body =~= seq![strip_cr(l)] + body_r);
    if pr.last().len() != 0 {
        assert(body.push(ps.last()) =~= seq![strip_cr(l)] + body_r.push(pr.last()));
    }
}

// ---------------------------------------------------------------------------
// Replacing
// ---------------------------------------------------------------------------

/// `str::replace(from, to)` for a non-empty `from`: every occurrence of `from`,
/// found left to right without overlap, becomes `to`.
pub open spec fn replace_all(s: Seq<char>, from: Seq<char>, to: Seq<char>) -> Seq<char>
    decreases s.len(),
{
    if s.len() == 0 {
        s
    } else if from.len() > 0 && from.is_prefix_of(s) {
        to + replace_all(s.skip(from.len() as int), from, to)
    } else {
        seq![s[0]] + replace_all(s.drop_first(), from, to)
    }
}

pub fn replace_chars(s: &[char], from: &[char], to: &[char]) -> (r: Vec<char>)
    requires
        from@.len() > 0,
    ensures
        r@ == replace_all(s@, from@, to@),
{
    let mut out: Vec<char> = Vec::new();
    let mut i: usize = 0;
    assert(s@.skip(0) =~= s@);
    while i < s.len()
        invariant
            i <= s@.len(),
            from@.len() > 0,
            replace_all(s@, from@, to@) =~= out@ + replace_all(s@.skip(i as int), from@, to@),
        decreases s.len() - i,
    {
        let ghost rest = s@.skip(i as int);
        if occurs_at_exec(s, from, i) {
            assert(s@.subrange(i as int, i + from@.len()) == from@);
            assert(from@.is_prefix_of(rest)) by {
                assert forall|k: int| 0 <= k < from@.len() implies from@[k] == rest[k] by {
                    assert(s@.subrange(i as int, i + from@.len())[k] == s@[i + k]);
                }
            }
            assert(rest.skip(from@.len() as int) =~= s@.skip(i + from@.len()));
            let mut k: usize = 0;
            let ghost base = out@;
            while k < to.len()
                invariant
                    k <= to@.len(),
                    out@ =~= base + to@.take(k as int),
                decreases to.len() - k,
            {
                out.push(to[k]);
                k += 1;
            }
            assert(to@.take(to@.len() as int) =~= to@);
            i = i + from.len();
        } else {
            proof {
                if from@.is_prefix_of(rest) {
                    assert(s@.subrange(i as int, i + from@.len()) =~= from@);
                }
            }
            assert(rest.drop_first() =~= s@.skip(i + 1));
            out.push(s[i]);
            i += 1;
        }
    }
    assert(s@.skip(i as int) =~= Seq::<char>::empty());
    out
}

} // verus!
