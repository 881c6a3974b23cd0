//! Character-level text helpers shared by the parsers: Unicode whitespace
//! trimming, ASCII case folding, searching, and lossy UTF-8 decoding.

use vstd::prelude::*;
use vstd::string::*;
use vstd::utf8::*;
use vstd::std_specs::iter::IteratorSpec;

verus! {

/// Unicode `White_Space`, the set `char::is_whitespace` tests.
pub open spec fn is_ws(c: char) -> bool {
    let u = c as u32;
    (0x9 <= u <= 0xD) || u == 0x20 || u == 0x85 || u == 0xA0 || u == 0x1680 || (0x2000 <= u
        <= 0x200A) || u == 0x2028 || u == 0x2029 || u == 0x202F || u == 0x205F || u == 0x3000
}

/// Number of whitespace characters at the front of `s`.
pub open spec fn lead_ws(s: Seq<char>) -> int
    decreases s.len(),
{
    if s.len() > 0 && is_ws(s[0]) {
        1 + lead_ws(s.drop_first())
    } else {
        0
    }
}

/// Number of whitespace characters at the back of `s`.
pub open spec fn trail_ws(s: Seq<char>) -> int
    decreases s.len(),
{
    if s.len() > 0 && is_ws(s.last()) {
        1 + trail_ws(s.drop_last())
    } else {
        0
    }
}

/// `s` without leading and trailing whitespace (`str::trim`).
pub open spec fn trim(s: Seq<char>) -> Seq<char> {
    let t = s.skip(lead_ws(s));
    t.take(t.len() - trail_ws(t))
}

/// ASCII upper-case letters mapped to lower case, everything else kept.
pub open spec fn lower_char(c: char) -> char {
    if 'A' <= c <= 'Z' {
        ((c as u32) + 32) as char
    } else {
        c
    }
}

/// `str::to_ascii_lowercase` on a character sequence.
pub open spec fn ascii_lower(s: Seq<char>) -> Seq<char> {
    s.map_values(|c: char| lower_char(c))
}

/// Index of the first `c` in `s`, or `s.len()` when there is none.
pub open spec fn first_index_of(s: Seq<char>, c: char) -> int
    decreases s.len(),
{
    if s.len() == 0 {
        0
    } else if s[0] == c {
        0
    } else {
        1 + first_index_of(s.drop_first(), c)
    }
}

/// `p` occurs in `s` starting at index `i`.
pub open spec fn occurs_at(s: Seq<char>, p: Seq<char>, i: int) -> bool {
    0 <= i && i + p.len() <= s.len() && s.subrange(i, i + p.len()) == p
}

/// Index of the first occurrence of `p` in `s` at or after `i`, or -1 when
/// there is none (`str::find`, counted in characters).
pub open spec fn find_from(s: Seq<char>, p: Seq<char>, i: int) -> int
    decreases s.len() + 1 - i,
{
    if i < 0 || i + p.len() > s.len() {
        -1
    } else if occurs_at(s, p, i) {
        i
    } else {
        find_from(s, p, i + 1)
    }
}

/// `s` contains `p` (`str::contains`).
pub open spec fn contains_seq(s: Seq<char>, p: Seq<char>) -> bool {
    find_from(s, p, 0) >= 0
}

/// `s` ends with `p` (`str::ends_with`).
pub open spec fn ends_with_seq(s: Seq<char>, p: Seq<char>) -> bool {
    p.len() <= s.len() && s.skip(s.len() - p.len()) == p
}

/// `s` starts with `p` (`str::starts_with`).
pub open spec fn starts_with_seq(s: Seq<char>, p: Seq<char>) -> bool {
    p.len() <= s.len() && s.take(p.len() as int) == p
}

/// `s` with every occurrence of `pat` replaced by `rep`, scanning from the
/// left without overlaps (`str::replace` with a non-empty pattern).
pub open spec fn replace_all(s: Seq<char>, pat: Seq<char>, rep: Seq<char>) -> Seq<char>
    decreases s.len(),
{
    if s.len() == 0 {
        s
    } else if pat.len() > 0 && starts_with_seq(s, pat) {
        rep + replace_all(s.skip(pat.len() as int), pat, rep)
    } else {
        seq![s[0]] + replace_all(s.skip(1), pat, rep)
    }
}

/// The characters `String::from_utf8_lossy` produces for `bytes`.
pub uninterp spec fn utf8_lossy_chars(bytes: Seq<u8>) -> Seq<char>;

pub proof fn lemma_first_index_bound(s: Seq<char>, c: char)
    ensures
        0 <= first_index_of(s, c) <= s.len(),
        first_index_of(s, c) < s.len() ==> s[first_index_of(s, c)] == c,
        forall|j: int| 0 <= j < first_index_of(s, c) ==> s[j] != c,
    decreases s.len(),
{
    if s.len() > 0 && s[0] != c {
        lemma_first_index_bound(s.drop_first(), c);
        assert forall|j: int| 0 <= j < first_index_of(s, c) implies s[j] != c by {
            if j > 0 {
                assert(s[j] == s.drop_first()[j - 1]);
            }
        }
    }
}

/// Bounds of `lead_ws`, and the characters on either side of it.
pub proof fn lemma_lead_ws(s: Seq<char>)
    ensures
        0 <= lead_ws(s) <= s.len(),
        forall|j: int| 0 <= j < lead_ws(s) ==> is_ws(#[trigger] s[j]),
        lead_ws(s) < s.len() ==> !is_ws(s[lead_ws(s)]),
    decreases s.len(),
{
    if s.len() > 0 && is_ws(s[0]) {
        lemma_lead_ws(s.drop_first());
        assert forall|j: int| 0 <= j < lead_ws(s) implies is_ws(#[trigger] s[j]) by {
            if j > 0 {
                assert(s[j] == s.drop_first()[j - 1]);
            }
        }
    }
}

/// Bounds of `trail_ws`, and the characters on either side of it.
pub proof fn lemma_trail_ws(s: Seq<char>)
    ensures
        0 <= trail_ws(s) <= s.len(),
        forall|j: int| s.len() - trail_ws(s) <= j < s.len() ==> is_ws(#[trigger] s[j]),
        trail_ws(s) < s.len() ==> !is_ws(s[s.len() - 1 - trail_ws(s)]),
    decreases s.len(),
{
    if s.len() > 0 && is_ws(s.last()) {
        let u = s.drop_last();
        lemma_trail_ws(u);
        assert forall|j: int| s.len() - trail_ws(s) <= j < s.len() implies is_ws(#[trigger] s[j]) by {
            if j < s.len() - 1 {
                assert(s[j] == u[j]);
            }
        }
        if trail_ws(s) < s.len() {
            assert(s[s.len() - 1 - trail_ws(s)] == u[u.len() - 1 - trail_ws(u)]);
        }
    }
}

/// Trailing whitespace never reaches past a non-whitespace character.
pub proof fn lemma_trail_ws_concat(u: Seq<char>, r: Seq<char>)
    requires
        u.len() > 0,
        !is_ws(u.last()),
    ensures
        trail_ws(u + r) == trail_ws(r),
    decreases r.len(),
{
    if r.len() == 0 {
        assert(u + r =~= u);
    } else {
        assert((u + r).last() == r.last());
        if is_ws(r.last()) {
            assert((u + r).drop_last() =~= u + r.drop_last());
            lemma_trail_ws_concat(u, r.drop_last());
        }
    }
}

/// Leading whitespace never reaches past a non-whitespace character.
pub proof fn lemma_lead_ws_concat(q: Seq<char>, x: Seq<char>)
    requires
        x.len() > 0,
        !is_ws(x[0]),
    ensures
        lead_ws(q + x) == lead_ws(q),
    decreases q.len(),
{
    if q.len() == 0 {
        assert(q + x =~= x);
    } else {
        assert((q + x)[0] == q[0]);
        if is_ws(q[0]) {
            assert((q + x).drop_first() =~= q.drop_first() + x);
            lemma_lead_ws_concat(q.drop_first(), x);
        }
    }
}

/// Trimming `q + u + r`, where `u` neither starts nor ends with whitespace,
/// trims only the front of `q` and the back of `r`.
pub proof fn lemma_trim_around(q: Seq<char>, u: Seq<char>, r: Seq<char>)
    requires
        u.len() > 0,
        !is_ws(u[0]),
        !is_ws(u.last()),
    ensures
        0 <= lead_ws(q) <= q.len(),
        0 <= trail_ws(r) <= r.len(),
        trim(q + u + r) == q.skip(lead_ws(q)) + u + r.take(r.len() - trail_ws(r)),
{
    let s = q + u + r;
    assert(s =~= q + (u + r));
    lemma_lead_ws_concat(q, u + r);
    lemma_lead_ws(q);
    lemma_trail_ws(r);
    let a = lead_ws(q);
    let t = s.skip(a);
    let qu = q.skip(a) + u;
    assert(t =~= qu + r);
    assert(qu.last() == u.last());
    lemma_trail_ws_concat(qu, r);
    assert(t.take(t.len() - trail_ws(t)) =~= q.skip(a) + u + r.take(r.len() - trail_ws(r)));
}

/// `trim(s)` is the stretch of `s` between its leading and its trailing
/// whitespace: it is empty, or it starts and ends with a non-whitespace
/// character.
pub proof fn lemma_trim_range(s: Seq<char>) -> (ab: (int, int))
    ensures
        0 <= ab.0 <= ab.1 <= s.len(),
        trim(s) == s.subrange(ab.0, ab.1),
        forall|j: int| 0 <= j < ab.0 ==> is_ws(#[trigger] s[j]),
        forall|j: int| ab.1 <= j < s.len() ==> is_ws(#[trigger] s[j]),
        ab.0 < ab.1 ==> !is_ws(s[ab.0]) && !is_ws(s[ab.1 - 1]),
{
    let a = lead_ws(s);
    lemma_lead_ws(s);
    let t = s.skip(a);
    lemma_trail_ws(t);
    let b = s.len() - trail_ws(t);
    assert(trim(s) =~= s.subrange(a, b));
    assert forall|j: int| b <= j < s.len() implies is_ws(#[trigger] s[j]) by {
        assert(s[j] == t[j - a]);
    }
    if a < b {
        assert(s[a] == t[0]);
        assert(s[b - 1] == t[t.len() - 1 - trail_ws(t)]);
    }
    (a, b)
}

/// A text that neither starts nor ends with whitespace is its own trim.
pub proof fn lemma_trim_unpadded(c: Seq<char>)
    requires
        c.len() > 0 ==> !is_ws(c[0]) && !is_ws(c.last()),
    ensures
        trim(c) == c,
{
    assert(c.skip(0) =~= c);
    assert(c.take(c.len() as int) =~= c);
}

/// Trimming twice trims no more than trimming once.
pub proof fn lemma_trim_idempotent(s: Seq<char>)
    ensures
        trim(trim(s)) == trim(s),
{
    let ab = lemma_trim_range(s);
    let c = trim(s);
    if c.len() > 0 {
        assert(c[0] == s[ab.0]);
        assert(c.last() == s[ab.1 - 1]);
    }
    lemma_trim_unpadded(c);
}

/// Where `find_from` lands: on the first occurrence at or after `i`, or on
/// -1 when there is none.
pub proof fn lemma_find_from(s: Seq<char>, p: Seq<char>, i: int)
    requires
        0 <= i,
    ensures
        find_from(s, p, i) == -1 ==> forall|k: int| i <= k ==> !#[trigger] occurs_at(s, p, k),
        find_from(s, p, i) != -1 ==> {
            &&& i <= find_from(s, p, i)
            &&& occurs_at(s, p, find_from(s, p, i))
            &&& forall|k: int| i <= k < find_from(s, p, i) ==> !#[trigger] occurs_at(s, p, k)
        },
    decreases s.len() + 1 - i,
{
    if i + p.len() > s.len() {
    } else if occurs_at(s, p, i) {
    } else {
        lemma_find_from(s, p, i + 1);
    }
}

/// Whether `c` is Unicode whitespace (`char::is_whitespace`).
pub fn is_whitespace(c: char) -> (b: bool)
    ensures
        b == is_ws(c),
{
    let u = c as u32;
    (0x9 <= u && u <= 0xD) || u == 0x20 || u == 0x85 || u == 0xA0 || u == 0x1680 || (0x2000 <= u
        && u <= 0x200A) || u == 0x2028 || u == 0x2029 || u == 0x202F || u == 0x205F || u == 0x3000
}

/// ASCII lower-casing of one character (`char::to_ascii_lowercase`).
pub fn to_lower_char(c: char) -> (r: char)
    ensures
        r == lower_char(c),
{
    if 'A' <= c && c <= 'Z' {
        let u: u8 = (c as u32 + 32) as u8;
        u as char
    } else {
        c
    }
}

/// Positions `(a, b)` such that `v[a..b]` is `v[lo..hi]` trimmed.
pub fn trim_range(v: &Vec<char>, lo: usize, hi: usize) -> (r: (usize, usize))
    requires
        lo <= hi <= v@.len(),
    ensures
        lo <= r.0 <= r.1 <= hi,
        v@.subrange(r.0 as int, r.1 as int) == trim(v@.subrange(lo as int, hi as int)),
{
    let mut a = lo;
    while a < hi && is_whitespace(v[a])
        invariant
            lo <= a <= hi <= v@.len(),
            lead_ws(v@.subrange(lo as int, hi as int)) == (a - lo) + lead_ws(
                v@.subrange(a as int, hi as int),
            ),
        decreases hi - a,
    {
        assert(v@.subrange(a as int, hi as int).drop_first() =~= v@.subrange(a + 1, hi as int));
        a = a + 1;
    }
    let mut b = hi;
    while b > a && is_whitespace(v[b - 1])
        invariant
            lo <= a <= b <= hi <= v@.len(),
            trail_ws(v@.subrange(a as int, hi as int)) == (hi - b) + trail_ws(
                v@.subrange(a as int, b as int),
            ),
        decreases b - a,
    {
        assert(v@.subrange(a as int, b as int).drop_last() =~= v@.subrange(a as int, b - 1));
        b = b - 1;
    }
    proof {
        let s = v@.subrange(lo as int, hi as int);
        assert(s.skip(a - lo) =~= v@.subrange(a as int, hi as int));
        let t = v@.subrange(a as int, hi as int);
        assert(t.take(t.len() - trail_ws(t)) =~= v@.subrange(a as int, b as int));
    }
    (a, b)
}

/// Index of the first `c` in `v[lo..hi]`, or `hi` when there is none.
pub fn find_char(v: &Vec<char>, lo: usize, hi: usize, c: char) -> (r: usize)
    requires
        lo <= hi <= v@.len(),
    ensures
        r == lo + first_index_of(v@.subrange(lo as int, hi as int), c),
        lo <= r <= hi,
{
    let mut i = lo;
    while i < hi && v[i] != c
        invariant
            lo <= i <= hi <= v@.len(),
            first_index_of(v@.subrange(lo as int, hi as int), c) == (i - lo) + first_index_of(
                v@.subrange(i as int, hi as int),
                c,
            ),
        decreases hi - i,
    {
        assert(v@.subrange(i as int, hi as int).drop_first() =~= v@.subrange(i + 1, hi as int));
        i = i + 1;
    }
    i
}

/// Whether `a` and `b` hold the same characters.
pub fn str_eq(a: &str, b: &str) -> (r: bool)
    ensures
        r == (a@ == b@),
{
    let n = a.unicode_len();
    if n != b.unicode_len() {
        return false;
    }
    let mut k: usize = 0;
    while k < n
        invariant
            n == a@.len(),
            n == b@.len(),
            k <= n,
            forall|j: int| 0 <= j < k ==> a@[j] == b@[j],
        decreases n - k,
    {
        if a.get_char(k) != b.get_char(k) {
            return false;
        }
        k = k + 1;
    }
    assert(a@ =~= b@);
    true
}

/// Whether `v[i..i + pat.len()]` is `pat`.
pub fn matches_at(v: &Vec<char>, i: usize, pat: &str) -> (r: bool)
    requires
        i + pat@.len() <= v@.len(),
    ensures
        r == (v@.subrange(i as int, i + pat@.len()) == pat@),
{
    let m = pat.unicode_len();
    let vlen = v.len();
    let mut k: usize = 0;
    while k < m
        invariant
            m == pat@.len(),
            vlen == v@.len(),
            i + m <= v@.len(),
            k <= m,
            forall|j: int| 0 <= j < k ==> v@[i + j] == pat@[j],
        decreases m - k,
    {
        assert(i + k < v@.len());
        if v[i + k] != pat.get_char(k) {
            assert(v@.subrange(i as int, i + m)[k as int] != pat@[k as int]);
            return false;
        }
        k = k + 1;
    }
    assert(v@.subrange(i as int, i + m) =~= pat@);
    true
}

/// Index of the first occurrence of `pat` in `v[lo..hi]` (`str::find`).
pub fn find_str(v: &Vec<char>, lo: usize, hi: usize, pat: &str) -> (r: Option<usize>)
    requires
        lo <= hi <= v@.len(),
    ensures
        match r {
            Some(i) => find_from(v@.subrange(lo as int, hi as int), pat@, 0) == i - lo && lo <= i
                && i + pat@.len() <= hi,
            None => find_from(v@.subrange(lo as int, hi as int), pat@, 0) == -1,
        },
{
    let ghost sub = v@.subrange(lo as int, hi as int);
    let m = pat.unicode_len();
    if m > hi - lo {
        return None;
    }
    if m == 0 {
        assert(sub.subrange(0, 0) =~= pat@);
        return Some(lo);
    }
    let vlen = v.len();
    let mut i = lo;
    while i <= hi - m
        invariant
            vlen == v@.len(),
            1 <= m,
            lo <= i <= hi,
            m <= hi - lo,
            m == pat@.len(),
            hi <= v@.len(),
            sub == v@.subrange(lo as int, hi as int),
            find_from(sub, pat@, 0) == find_from(sub, pat@, i - lo),
        decreases hi - i,
    {
        let hit = matches_at(v, i, pat);
        assert(sub.subrange(i - lo, i - lo + m) =~= v@.subrange(i as int, i + m));
        if hit {
            return Some(i);
        }
        i = i + 1;
    }
    None
}

/// Whether `v[lo..hi]` ends with `pat` (`str::ends_with`).
pub fn ends_with_str(v: &Vec<char>, lo: usize, hi: usize, pat: &str) -> (r: bool)
    requires
        lo <= hi <= v@.len(),
    ensures
        r == ends_with_seq(v@.subrange(lo as int, hi as int), pat@),
{
    let m = pat.unicode_len();
    if m > hi - lo {
        return false;
    }
    let r = matches_at(v, hi - m, pat);
    assert(v@.subrange(lo as int, hi as int).skip(hi - lo - m) =~= v@.subrange(hi - m, hi as int));
    r
}

/// Whether `v[lo..hi]` contains `pat` (`str::contains`).
pub fn contains_str(v: &Vec<char>, lo: usize, hi: usize, pat: &str) -> (r: bool)
    requires
        lo <= hi <= v@.len(),
    ensures
        r == contains_seq(v@.subrange(lo as int, hi as int), pat@),
{
    find_str(v, lo, hi, pat).is_some()
}

/// `s` with every occurrence of `pat` replaced by `rep` (`str::replace`).
pub fn replace_str(s: &str, pat: &str, rep: &str) -> (r: String)
    requires
        pat@.len() > 0,
    ensures
        r@ == replace_all(s@, pat@, rep@),
{
    let v = chars_of(s);
    let n = v.len();
    let m = pat.unicode_len();
    let mut out = String::new();
    let mut i: usize = 0;
    assert(v@.skip(0) =~= s@);
    while i < n
        invariant
            v@ == s@,
            n == v@.len(),
            m == pat@.len(),
            m > 0,
            i <= n,
            out@ + replace_all(v@.skip(i as int), pat@, rep@) == replace_all(s@, pat@, rep@),
        decreases n - i,
    {
        let ghost rest = v@.skip(i as int);
        if m <= n - i && matches_at(&v, i, pat) {
            proof {
                assert(rest.take(m as int) =~= v@.subrange(i as int, i + m));
                assert(rest.skip(m as int) =~= v@.skip(i + m));
            }
            out.append(rep);
            assert(out@ + replace_all(v@.skip(i + m), pat@, rep@) =~= replace_all(s@, pat@, rep@));
            i = i + m;
        } else {
            proof {
                if m <= n - i {
                    assert(rest.take(m as int) =~= v@.subrange(i as int, i + m));
                }
                assert(rest.skip(1) =~= v@.skip(i + 1));
            }
            let one = s.substring_char(i, i + 1);
            assert(one@ =~= seq![v@[i as int]]);
            out.append(one);
            assert(out@ + replace_all(v@.skip(i + 1), pat@, rep@) =~= replace_all(s@, pat@, rep@));
            i = i + 1;
        }
    }
    assert(v@.skip(n as int) =~= Seq::<char>::empty());
    assert(out@ =~= replace_all(s@, pat@, rep@));
    out
}

/// The characters of `s`, in order.
pub fn chars_of(s: &str) -> (v: Vec<char>)
    ensures
        v@ == s@,
{
    let n = s.unicode_len();
    let mut v: Vec<char> = Vec::new();
    let mut it = s.chars();
    let mut i: usize = 0;
    while i < n
        invariant
            n == s@.len(),
            i <= n,
            v@ == s@.take(i as int),
            it.remaining() == s@.skip(i as int),
            it.obeys_prophetic_iter_laws(),
        decreases n - i,
    {
        let next = it.next();
        proof {
            assert(s@.skip(i as int).len() > 0);
        }
        match next {
            Some(c) => {
                assert(c == s@[i as int]);
                v.push(c);
                assert(v@ =~= s@.take(i + 1));
                assert(it.remaining() =~= s@.skip(i + 1));
            },
            None => {
                assert(false);
            },
        }
        i = i + 1;
    }
    assert(v@ =~= s@);
    v
}

/// Decodes `bytes` as UTF-8, replacing each invalid sequence with U+FFFD
/// (`String::from_utf8_lossy`). The result is named by `utf8_lossy_chars`;
/// the standard library documents that valid UTF-8 comes back unchanged,
/// which the second clause states. How invalid input is replaced is left
/// unsaid.
#[verifier::external_body]
pub(crate) fn utf8_lossy(bytes: &[u8]) -> (s: String)
    ensures
        s@ == utf8_lossy_chars(bytes@),
        valid_utf8(bytes@) ==> s@ == decode_utf8(bytes@),
{
    String::from_utf8_lossy(bytes).into_owned()
}

} // verus!
