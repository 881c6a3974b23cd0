//! Asset ids and the asset caches: pulling the numeric id out of the many
//! ways a place file spells an asset reference, and the keyed caches that
//! hold downloaded, bundled and generated assets.

use vstd::prelude::*;
use vstd::string::*;
use crate::textures::{
    DecodedImage, Material, generate_texture, is_texture,
};
use crate::text::{
    chars_of, contains_seq, find_from, find_str, is_ws, lead_ws, lemma_find_from,
    lemma_trim_around, lemma_trim_idempotent, lemma_trim_range, lemma_trim_unpadded, occurs_at,
    str_eq, trail_ws, trim, trim_range,
};

verus! {

// ---------------------------------------------------------------------------
// Asset ids
// ---------------------------------------------------------------------------

/// An ASCII decimal digit.
pub open spec fn is_digit(c: char) -> bool {
    '0' <= c && c <= '9'
}

/// Number of digits at the front of `s`.
pub open spec fn lead_digits(s: Seq<char>) -> int
    decreases s.len(),
{
    if s.len() > 0 && is_digit(s[0]) {
        1 + lead_digits(s.drop_first())
    } else {
        0
    }
}

/// The run of digits just after the first occurrence of `p` in `s` (empty
/// when `p` does not occur, or no digit follows it).
pub open spec fn digits_after(s: Seq<char>, p: Seq<char>) -> Seq<char> {
    let i = find_from(s, p, 0);
    if i < 0 {
        Seq::empty()
    } else {
        let t = s.skip(i + p.len());
        t.take(lead_digits(t))
    }
}

/// Every digit of `s`, in order.
pub open spec fn all_digits(s: Seq<char>) -> Seq<char> {
    s.filter(|c: char| is_digit(c))
}

/// The asset id a reference names: after trimming, the digits that follow
/// the first `id=`, `rbxassetid://`, `asset/?id=` or `assetId/` (tried in
/// that order, the first that gives digits wins); failing those, all the
/// digits of the text when there are at least four; otherwise none.
pub open spec fn asset_id_of(s: Seq<char>) -> Option<Seq<char>> {
    let c = trim(s);
    if c.len() == 0 {
        None
    } else if digits_after(c, "id="@).len() > 0 {
        Some(digits_after(c, "id="@))
    } else if digits_after(c, "rbxassetid://"@).len() > 0 {
        Some(digits_after(c, "rbxassetid://"@))
    } else if digits_after(c, "asset/?id="@).len() > 0 {
        Some(digits_after(c, "asset/?id="@))
    } else if digits_after(c, "assetId/"@).len() > 0 {
        Some(digits_after(c, "assetId/"@))
    } else if all_digits(c).len() >= 4 {
        Some(all_digits(c))
    } else {
        None
    }
}

pub proof fn lemma_lead_digits_bound(s: Seq<char>)
    ensures
        0 <= lead_digits(s) <= s.len(),
        forall|j: int| 0 <= j < lead_digits(s) ==> is_digit(s[j]),
        lead_digits(s) < s.len() ==> !is_digit(s[lead_digits(s)]),
    decreases s.len(),
{
    if s.len() > 0 && is_digit(s[0]) {
        lemma_lead_digits_bound(s.drop_first());
        assert forall|j: int| 0 <= j < lead_digits(s) implies is_digit(s[j]) by {
            if j > 0 {
                assert(s[j] == s.drop_first()[j - 1]);
            }
        }
    }
}

/// An asset id is a non-empty run of ASCII digits.
pub proof fn law_asset_id_is_digits(s: Seq<char>)
    ensures
        match asset_id_of(s) {
            Some(id) => id.len() > 0 && forall|k: int| 0 <= k < id.len() ==> is_digit(#[trigger] id[k]),
            None => true,
        },
{
    let c = trim(s);
    assert forall|p: Seq<char>| #![trigger digits_after(c, p)]
        forall|k: int| 0 <= k < digits_after(c, p).len() ==> is_digit(#[trigger] digits_after(c, p)[k]) by {
        let i = find_from(c, p, 0);
        if i >= 0 {
            let t = c.skip(i + p.len());
            lemma_lead_digits_bound(t);
        }
    }
    assert forall|k: int| 0 <= k < all_digits(c).len() implies is_digit(#[trigger] all_digits(c)[k]) by {
        c.lemma_filter_pred(|ch: char| is_digit(ch), k);
    }
}

/// End of the run of digits in `v` that starts at `a` and stops at `hi`.
fn digit_run_end(v: &Vec<char>, a: usize, hi: usize) -> (e: usize)
    requires
        a <= hi <= v@.len(),
    ensures
        a <= e <= hi,
        e - a == lead_digits(v@.subrange(a as int, hi as int)),
{
    let mut e = a;
    while e < hi && '0' <= v[e] && v[e] <= '9'
        invariant
            a <= e <= hi <= v@.len(),
            lead_digits(v@.subrange(a as int, hi as int)) == (e - a) + lead_digits(
                v@.subrange(e as int, hi as int),
            ),
        decreases hi - e,
    {
        assert(v@.subrange(e as int, hi as int).drop_first() =~= v@.subrange(e + 1, hi as int));
        e = e + 1;
    }
    e
}

/// The digits right after the first `pat` in `s[lo..hi]`, when there are
/// any (`v` holds the characters of `s`).
fn id_after(s: &str, v: &Vec<char>, lo: usize, hi: usize, pat: &str) -> (r: Option<String>)
    requires
        v@ == s@,
        lo <= hi <= v@.len(),
    ensures
        match r {
            Some(x) => x@ == digits_after(v@.subrange(lo as int, hi as int), pat@) && x@.len()
                > 0,
            None => digits_after(v@.subrange(lo as int, hi as int), pat@).len() == 0,
        },
{
    let ghost c = v@.subrange(lo as int, hi as int);
    match find_str(v, lo, hi, pat) {
        None => None,
        Some(i) => {
            let m = pat.unicode_len();
            let start = i + m;
            let end = digit_run_end(v, start, hi);
            proof {
                let t = c.skip(i - lo + m);
                assert(t =~= v@.subrange(start as int, hi as int));
                lemma_lead_digits_bound(t);
                assert(t.take(lead_digits(t)) =~= v@.subrange(start as int, end as int));
            }
            if end > start {
                Some(String::from_str(s.substring_char(start, end)))
            } else {
                None
            }
        },
    }
}

/// Pulls the numeric asset id out of an asset reference such as
/// `rbxassetid://1818`, `http://www.roblox.com/asset/?id=1818` or a bare
/// number.
pub fn extract_asset_id(raw_str: &str) -> (r: Option<String>)
    ensures
        match asset_id_of(raw_str@) {
            Some(x) => r is Some && r->Some_0@ == x,
            None => r is None,
        },
{
    let v = chars_of(raw_str);
    let n = v.len();
    let (lo, hi) = trim_range(&v, 0, n);
    assert(v@.subrange(0, n as int) =~= raw_str@);
    let ghost c = v@.subrange(lo as int, hi as int);
    assert(c == trim(raw_str@));
    if lo == hi {
        return None;
    }
    let r = id_after(raw_str, &v, lo, hi, "id=");
    if r.is_some() {
        return r;
    }
    let r = id_after(raw_str, &v, lo, hi, "rbxassetid://");
    if r.is_some() {
        return r;
    }
    let r = id_after(raw_str, &v, lo, hi, "asset/?id=");
    if r.is_some() {
        return r;
    }
    let r = id_after(raw_str, &v, lo, hi, "assetId/");
    if r.is_some() {
        return r;
    }
    let mut digits = String::new();
    let mut count: usize = 0;
    let mut k = lo;
    while k < hi
        invariant
            v@ == raw_str@,
            lo <= k <= hi <= v@.len(),
            digits@ == all_digits(v@.subrange(lo as int, k as int)),
            count == digits@.len(),
            count <= k - lo,
        decreases hi - k,
    {
        let ch = v[k];
        proof {
            let s1 = v@.subrange(lo as int, k + 1);
            assert(s1.drop_last() =~= v@.subrange(lo as int, k as int));
            assert(s1.last() == ch);
            reveal(Seq::filter);
        }
        if '0' <= ch && ch <= '9' {
            let one = raw_str.substring_char(k, k + 1);
            assert(one@ =~= seq![ch]);
            digits.append(one);
            count = count + 1;
        }
        k = k + 1;
    }
    if count >= 4 {
        Some(digits)
    } else {
        None
    }
}

/// An occurrence of `p` in `a + b` that lies within `a` is one in `a`,
/// and one that lies within `b` is one in `b`.
proof fn lemma_occurs_concat(a: Seq<char>, b: Seq<char>, p: Seq<char>, k: int)
    ensures
        k + p.len() <= a.len() ==> (occurs_at(a + b, p, k) <==> occurs_at(a, p, k)),
        k >= a.len() ==> (occurs_at(a + b, p, k) <==> occurs_at(b, p, k - a.len())),
{
    if 0 <= k && k + p.len() <= a.len() {
        assert((a + b).subrange(k, k + p.len()) =~= a.subrange(k, k + p.len()));
    }
    if k >= a.len() && k + p.len() <= a.len() + b.len() {
        assert((a + b).subrange(k, k + p.len()) =~= b.subrange(
            k - a.len(),
            k - a.len() + p.len(),
        ));
    }
}

/// `s` contains `p` exactly when `p` occurs in `s` somewhere.
proof fn lemma_contains_iff(s: Seq<char>, p: Seq<char>)
    ensures
        contains_seq(s, p) <==> exists|k: int| #[trigger] occurs_at(s, p, k),
{
    lemma_find_from(s, p, 0);
    if contains_seq(s, p) {
        assert(occurs_at(s, p, find_from(s, p, 0)));
    }
}

/// A pattern that holds no digit cannot run across a non-empty run of
/// digits: in `u + d + r` it occurs only inside `u` or inside `r`.
proof fn lemma_no_match_across(u: Seq<char>, d: Seq<char>, r: Seq<char>, p: Seq<char>)
    requires
        d.len() > 0,
        p.len() > 0,
        forall|k: int| 0 <= k < d.len() ==> is_digit(#[trigger] d[k]),
        forall|k: int| 0 <= k < p.len() ==> !is_digit(#[trigger] p[k]),
        !contains_seq(u, p),
        !contains_seq(r, p),
    ensures
        !contains_seq(u + d + r, p),
{
    let c = u + d + r;
    lemma_contains_iff(u, p);
    lemma_contains_iff(r, p);
    lemma_contains_iff(c, p);
    if contains_seq(c, p) {
        let k = choose|k: int| #[trigger] occurs_at(c, p, k);
        let ud = u + d;
        if k + p.len() <= u.len() {
            lemma_occurs_concat(u + d, r, p, k);
            lemma_occurs_concat(u, d, p, k);
            assert(occurs_at(u, p, k));
        } else if k >= u.len() + d.len() {
            lemma_occurs_concat(u + d, r, p, k);
            assert(occurs_at(r, p, k - ud.len()));
        } else {
            let j = if k >= u.len() { k } else { u.len() as int };
            assert(c.subrange(k, k + p.len())[j - k] == c[j]);
            assert(c[j] == d[j - u.len()]);
            assert(is_digit(p[j - k]));
        }
    }
}

/// A pattern one of whose characters never appears in `s` does not occur
/// in `s`.
proof fn lemma_missing_char(s: Seq<char>, p: Seq<char>, o: int)
    requires
        0 <= o < p.len(),
        forall|j: int| 0 <= j < s.len() ==> #[trigger] s[j] != p[o],
    ensures
        !contains_seq(s, p),
{
    lemma_contains_iff(s, p);
    if contains_seq(s, p) {
        let k = choose|k: int| #[trigger] occurs_at(s, p, k);
        assert(s.subrange(k, k + p.len())[o] == s[k + o]);
    }
}

/// The patterns hold no digit, and `id=` ends `asset/?id=`.
proof fn lemma_literals()
    ensures
        forall|k: int| 0 <= k < "id="@.len() ==> !is_digit(#[trigger] "id="@[k]),
        forall|k: int| 0 <= k < "rbxassetid://"@.len() ==> !is_digit(#[trigger] "rbxassetid://"@[k]),
        "asset/?id="@.subrange(7, 10) == "id="@,
{
    reveal_strlit("id=");
    reveal_strlit("rbxassetid://");
    reveal_strlit("asset/?id=");
    assert("asset/?id="@.subrange(7, 10) =~= "id="@);
}

/// An occurrence of `p` inside an occurrence of a longer pattern.
proof fn lemma_occurs_inner(c: Seq<char>, p: Seq<char>, k: int, o: int, p2: Seq<char>)
    requires
        occurs_at(c, p, k),
        0 <= o,
        o + p2.len() <= p.len(),
        p.subrange(o, o + p2.len()) == p2,
    ensures
        occurs_at(c, p2, k + o),
{
    assert(c.subrange(k + o, k + o + p2.len()) =~= c.subrange(k, k + p.len()).subrange(
        o,
        o + p2.len(),
    ));
}

/// What a prefix of `x` contains, `x` contains too.
proof fn lemma_contains_prefix(x: Seq<char>, n: int, p: Seq<char>)
    requires
        0 <= n <= x.len(),
        contains_seq(x.take(n), p),
    ensures
        contains_seq(x, p),
{
    lemma_contains_iff(x.take(n), p);
    lemma_contains_iff(x, p);
    let k = choose|k: int| #[trigger] occurs_at(x.take(n), p, k);
    assert(x =~= x.take(n) + x.skip(n));
    lemma_occurs_concat(x.take(n), x.skip(n), p, k);
}

/// What a suffix of `x` contains, `x` contains too.
proof fn lemma_contains_suffix(x: Seq<char>, a: int, p: Seq<char>)
    requires
        0 <= a <= x.len(),
        contains_seq(x.skip(a), p),
    ensures
        contains_seq(x, p),
{
    lemma_contains_iff(x.skip(a), p);
    lemma_contains_iff(x, p);
    let k = choose|k: int| #[trigger] occurs_at(x.skip(a), p, k);
    assert(x =~= x.take(a) + x.skip(a));
    lemma_occurs_concat(x.take(a), x.skip(a), p, k + a);
}

/// When the first `p` of `q + p` is the one at its end, the same holds
/// after dropping a front part of `q`.
proof fn lemma_first_in_suffix(q: Seq<char>, p: Seq<char>, a: int)
    requires
        0 <= a <= q.len(),
        find_from(q + p, p, 0) == q.len(),
    ensures
        find_from(q.skip(a) + p, p, 0) == q.len() - a,
{
    let x = q + p;
    let y = q.skip(a) + p;
    assert(x =~= q.take(a) + y);
    lemma_find_from(x, p, 0);
    lemma_find_from(y, p, 0);
    assert forall|k: int| 0 <= k < q.len() - a implies !occurs_at(y, p, k) by {
        lemma_occurs_concat(q.take(a), y, p, k + a);
    }
    lemma_occurs_concat(q.take(a), y, p, q.len() as int);
}

/// A run of digits followed by a non-digit, or by nothing, is read whole.
proof fn lemma_lead_digits_concat(d: Seq<char>, r: Seq<char>)
    requires
        forall|k: int| 0 <= k < d.len() ==> is_digit(#[trigger] d[k]),
        r.len() > 0 ==> !is_digit(r[0]),
    ensures
        lead_digits(d + r) == d.len(),
    decreases d.len(),
{
    if d.len() == 0 {
        assert(d + r =~= r);
    } else {
        assert((d + r)[0] == d[0]);
        assert((d + r).drop_first() =~= d.drop_first() + r);
        assert forall|k: int| 0 <= k < d.drop_first().len() implies is_digit(
            #[trigger] d.drop_first()[k],
        ) by {
            assert(d.drop_first()[k] == d[k + 1]);
        }
        lemma_lead_digits_concat(d.drop_first(), r);
    }
}

/// When the first `p` of `q + p + d + r` is the one after `q`, the digits
/// after it are the run `d`.
proof fn lemma_digits_after_first(q: Seq<char>, p: Seq<char>, d: Seq<char>, r: Seq<char>)
    requires
        find_from(q + p, p, 0) == q.len(),
        forall|k: int| 0 <= k < d.len() ==> is_digit(#[trigger] d[k]),
        r.len() > 0 ==> !is_digit(r[0]),
    ensures
        digits_after(q + p + d + r, p) == d,
{
    let c = q + p + d + r;
    let qp = q + p;
    assert(c =~= qp + (d + r));
    lemma_find_from(qp, p, 0);
    lemma_find_from(c, p, 0);
    assert forall|k: int| 0 <= k < q.len() implies !occurs_at(c, p, k) by {
        lemma_occurs_concat(qp, d + r, p, k);
    }
    lemma_occurs_concat(qp, d + r, p, q.len() as int);
    let t = c.skip((q.len() + p.len()) as int);
    assert(t =~= d + r);
    lemma_lead_digits_concat(d, r);
    assert(t.take(d.len() as int) =~= d);
}

/// A sequence of digits keeps every character under `all_digits`.
proof fn lemma_all_digits_of_digits(d: Seq<char>)
    requires
        forall|k: int| 0 <= k < d.len() ==> is_digit(#[trigger] d[k]),
    ensures
        all_digits(d) == d,
    decreases d.len(),
{
    reveal(Seq::filter);
    if d.len() > 0 {
        lemma_all_digits_of_digits(d.drop_last());
        assert(d.drop_last().push(d.last()) =~= d);
    }
}

/// Whitespace around a reference does not change the id it names.
pub proof fn law_asset_id_ignores_padding(s: Seq<char>)
    ensures
        asset_id_of(trim(s)) == asset_id_of(s),
{
    lemma_trim_idempotent(s);
}

/// Trims `q + u + d + r`, where `u` starts with a non-whitespace character
/// and `d` is a non-empty run of digits: the result is `q` without its
/// leading whitespace, `u`, `d`, and a prefix of `r` that starts like `r`.
proof fn lemma_trim_reference(q: Seq<char>, u: Seq<char>, d: Seq<char>, r: Seq<char>) -> (qr: (
    int,
    int,
))
    requires
        u.len() > 0,
        !is_ws(u[0]),
        d.len() > 0,
        forall|k: int| 0 <= k < d.len() ==> is_digit(#[trigger] d[k]),
    ensures
        0 <= qr.0 <= q.len(),
        0 <= qr.1 <= r.len(),
        trim(q + u + d + r) == q.skip(qr.0) + u + d + r.take(qr.1),
        qr.1 > 0 ==> r.take(qr.1)[0] == r[0],
{
    let ud = u + d;
    assert(ud[0] == u[0]);
    assert(ud.last() == d.last());
    assert(is_digit(d[d.len() - 1]));
    assert(q + u + d + r =~= q + ud + r);
    lemma_trim_around(q, ud, r);
    assert(q.skip(lead_ws(q)) + ud + r.take(r.len() - trail_ws(r)) =~= q.skip(lead_ws(q)) + u + d
        + r.take(r.len() - trail_ws(r)));
    (lead_ws(q), r.len() - trail_ws(r))
}

/// The digits that follow the first `id=` of a reference are its id, as
/// in `http://www.roblox.com/asset/?id=1818`: whatever precedes that `id=`
/// and whatever follows the run of digits.
pub proof fn law_asset_id_after_id_eq(q: Seq<char>, d: Seq<char>, r: Seq<char>)
    requires
        find_from(q + "id="@, "id="@, 0) == q.len(),
        d.len() > 0,
        forall|k: int| 0 <= k < d.len() ==> is_digit(#[trigger] d[k]),
        r.len() > 0 ==> !is_digit(r[0]),
    ensures
        asset_id_of(q + "id="@ + d + r) == Some(d),
{
    let p = "id="@;
    reveal_strlit("id=");
    let qr = lemma_trim_reference(q, p, d, r);
    let q2 = q.skip(qr.0);
    let r2 = r.take(qr.1);
    lemma_first_in_suffix(q, p, qr.0);
    lemma_digits_after_first(q2, p, d, r2);
}

/// The digits that follow `rbxassetid://` are the id, whatever follows
/// the run, when nothing before them spells `id=` and nothing after them
/// does either.
pub proof fn law_asset_id_after_rbxassetid(q: Seq<char>, d: Seq<char>, r: Seq<char>)
    requires
        find_from(q + "rbxassetid://"@, "rbxassetid://"@, 0) == q.len(),
        !contains_seq(q + "rbxassetid://"@, "id="@),
        d.len() > 0,
        forall|k: int| 0 <= k < d.len() ==> is_digit(#[trigger] d[k]),
        r.len() > 0 ==> !is_digit(r[0]),
        !contains_seq(r, "id="@),
    ensures
        asset_id_of(q + "rbxassetid://"@ + d + r) == Some(d),
{
    let p = "rbxassetid://"@;
    reveal_strlit("rbxassetid://");
    reveal_strlit("id=");
    lemma_literals();
    let qr = lemma_trim_reference(q, p, d, r);
    let q2 = q.skip(qr.0);
    let r2 = r.take(qr.1);
    assert(q2 + p =~= (q + p).skip(qr.0));
    if contains_seq(q2 + p, "id="@) {
        lemma_contains_suffix(q + p, qr.0, "id="@);
    }
    if contains_seq(r2, "id="@) {
        lemma_contains_prefix(r, qr.1, "id="@);
    }
    lemma_no_match_across(q2 + p, d, r2, "id="@);
    lemma_first_in_suffix(q, p, qr.0);
    lemma_digits_after_first(q2, p, d, r2);
}

/// With no `id=` and no `rbxassetid://` anywhere in it, a reference names
/// the digits that follow its first `assetId/`, whatever follows the run.
pub proof fn law_asset_id_after_asset_id_path(q: Seq<char>, d: Seq<char>, r: Seq<char>)
    requires
        find_from(q + "assetId/"@, "assetId/"@, 0) == q.len(),
        !contains_seq(q + "assetId/"@, "id="@),
        !contains_seq(q + "assetId/"@, "rbxassetid://"@),
        d.len() > 0,
        forall|k: int| 0 <= k < d.len() ==> is_digit(#[trigger] d[k]),
        r.len() > 0 ==> !is_digit(r[0]),
        !contains_seq(r, "id="@),
        !contains_seq(r, "rbxassetid://"@),
    ensures
        asset_id_of(q + "assetId/"@ + d + r) == Some(d),
{
    let p = "assetId/"@;
    reveal_strlit("assetId/");
    reveal_strlit("rbxassetid://");
    reveal_strlit("id=");
    lemma_literals();
    let qr = lemma_trim_reference(q, p, d, r);
    let q2 = q.skip(qr.0);
    let r2 = r.take(qr.1);
    let c = q2 + p + d + r2;
    assert(q2 + p =~= (q + p).skip(qr.0));
    if contains_seq(q2 + p, "id="@) {
        lemma_contains_suffix(q + p, qr.0, "id="@);
    }
    if contains_seq(r2, "id="@) {
        lemma_contains_prefix(r, qr.1, "id="@);
    }
    if contains_seq(q2 + p, "rbxassetid://"@) {
        lemma_contains_suffix(q + p, qr.0, "rbxassetid://"@);
    }
    if contains_seq(r2, "rbxassetid://"@) {
        lemma_contains_prefix(r, qr.1, "rbxassetid://"@);
    }
    lemma_no_match_across(q2 + p, d, r2, "id="@);
    lemma_no_match_across(q2 + p, d, r2, "rbxassetid://"@);
    lemma_no_asset_query(c);
    lemma_first_in_suffix(q, p, qr.0);
    lemma_digits_after_first(q2, p, d, r2);
}

/// A text without `id=` holds no `asset/?id=` either.
proof fn lemma_no_asset_query(c: Seq<char>)
    requires
        !contains_seq(c, "id="@),
    ensures
        !contains_seq(c, "asset/?id="@),
{
    lemma_literals();
    lemma_contains_iff(c, "asset/?id="@);
    lemma_contains_iff(c, "id="@);
    if contains_seq(c, "asset/?id="@) {
        let k = choose|k: int| #[trigger] occurs_at(c, "asset/?id="@, k);
        reveal_strlit("asset/?id=");
        reveal_strlit("id=");
        lemma_occurs_inner(c, "asset/?id="@, k, 7, "id="@);
    }
}

/// A reference with no `id=`, `rbxassetid://` or `assetId/` in it names
/// all of its digits when it has at least four, and nothing otherwise
/// (`a1b2c3d4` names `1234`, `v1.2` names nothing).
pub proof fn law_asset_id_digits_only(s: Seq<char>)
    requires
        !contains_seq(trim(s), "id="@),
        !contains_seq(trim(s), "rbxassetid://"@),
        !contains_seq(trim(s), "assetId/"@),
    ensures
        asset_id_of(s) == (if all_digits(s).len() >= 4 {
            Some(all_digits(s))
        } else {
            None
        }),
{
    let c = trim(s);
    lemma_no_asset_query(c);
    let ab = lemma_trim_range(s);
    let pre = s.subrange(0, ab.0);
    let post = s.subrange(ab.1, s.len() as int);
    assert(s =~= pre + c + post);
    let pred = |ch: char| is_digit(ch);
    Seq::filter_distributes_over_add(pre + c, post, pred);
    Seq::filter_distributes_over_add(pre, c, pred);
    assert forall|j: int| 0 <= j < pre.len() implies !pred(#[trigger] pre[j]) by {
        assert(is_ws(s[j]));
    }
    assert forall|j: int| 0 <= j < post.len() implies !pred(#[trigger] post[j]) by {
        assert(is_ws(s[ab.1 + j]));
    }
    pre.lemma_all_neg_filter_empty(pred);
    post.lemma_all_neg_filter_empty(pred);
    assert(all_digits(s) =~= all_digits(c));
}

/// Reading the id out of an id gives it back, when it is long enough to be
/// read as a bare number (at least four digits).
pub proof fn law_asset_id_idempotent(s: Seq<char>)
    ensures
        match asset_id_of(s) {
            Some(id) => asset_id_of(id) == (if id.len() >= 4 {
                Some(id)
            } else {
                None
            }),
            None => true,
        },
{
    law_asset_id_is_digits(s);
    if let Some(id) = asset_id_of(s) {
        assert(is_digit(id[0]) && is_digit(id.last()));
        lemma_trim_unpadded(id);
        reveal_strlit("id=");
        reveal_strlit("rbxassetid://");
        reveal_strlit("asset/?id=");
        reveal_strlit("assetId/");
        lemma_missing_char(id, "id="@, 0);
        lemma_missing_char(id, "rbxassetid://"@, 0);
        lemma_missing_char(id, "asset/?id="@, 0);
        lemma_missing_char(id, "assetId/"@, 0);
        lemma_all_digits_of_digits(id);
    }
}

// ---------------------------------------------------------------------------
// Caches
// ---------------------------------------------------------------------------

/// The map a list of (key, value) entries describes, later entries winning.
pub open spec fn entries_map<V>(s: Seq<(String, V)>) -> Map<Seq<char>, V>
    decreases s.len(),
{
    if s.len() == 0 {
        Map::empty()
    } else {
        entries_map(s.drop_last()).insert(s.last().0@, s.last().1)
    }
}

/// No key occurs twice among the entries.
pub open spec fn keys_distinct<V>(s: Seq<(String, V)>) -> bool {
    forall|i: int, j: int| 0 <= i < j < s.len() ==> s[i].0@ != s[j].0@
}

pub proof fn lemma_entries_map<V>(s: Seq<(String, V)>)
    requires
        keys_distinct(s),
    ensures
        forall|k: Seq<char>|
            entries_map(s).dom().contains(k) <==> exists|i: int| 0 <= i < s.len() && s[i].0@ == k,
        forall|i: int| 0 <= i < s.len() ==> entries_map(s)[#[trigger] s[i].0@] == s[i].1,
    decreases s.len(),
{
    if s.len() > 0 {
        let t = s.drop_last();
        assert(keys_distinct(t));
        lemma_entries_map(t);
        assert forall|k: Seq<char>|
            entries_map(s).dom().contains(k) <==> exists|i: int| 0 <= i < s.len() && s[i].0@ == k by {
            if entries_map(s).dom().contains(k) {
                if k == s.last().0@ {
                    assert(s[s.len() - 1].0@ == k);
                } else {
                    assert(entries_map(t).dom().contains(k));
                    let i = choose|i: int| 0 <= i < t.len() && t[i].0@ == k;
                    assert(t[i] == s[i]);
                    assert(s[i].0@ == k);
                }
            }
            if exists|i: int| 0 <= i < s.len() && s[i].0@ == k {
                let i = choose|i: int| 0 <= i < s.len() && s[i].0@ == k;
                if i < s.len() - 1 {
                    assert(t[i] == s[i]);
                    assert(t[i].0@ == k);
                }
            }
        }
        assert forall|i: int| 0 <= i < s.len() implies entries_map(s)[#[trigger] s[i].0@] == s[i].1 by {
            if i < s.len() - 1 {
                assert(t[i] == s[i]);
                assert(s[i].0@ != s[s.len() - 1].0@);
            }
        }
    }
}

/// A cache of assets, keyed by the text of their reference.
pub struct AssetCache<V> {
    entries: Vec<(String, V)>,
}

impl<V> View for AssetCache<V> {
    type V = Map<Seq<char>, V>;

    /// The cached assets by key.
    closed spec fn view(&self) -> Map<Seq<char>, V> {
        entries_map(self.entries@)
    }
}

impl<V> AssetCache<V> {
    #[verifier::type_invariant]
    closed spec fn keys_unique(self) -> bool {
        keys_distinct(self.entries@)
    }

    /// An empty cache.
    pub fn new() -> (c: Self)
        ensures
            c@ == Map::<Seq<char>, V>::empty(),
    {
        AssetCache { entries: Vec::new() }
    }

    /// Index of the entry for `key`, if there is one.
    fn position(&self, key: &str) -> (r: Option<usize>)
        ensures
            match r {
                Some(i) => i < self.entries@.len() && self.entries@[i as int].0@ == key@,
                None => forall|i: int|
                    0 <= i < self.entries@.len() ==> self.entries@[i].0@ != key@,
            },
    {
        let n = self.entries.len();
        let mut i: usize = 0;
        while i < n
            invariant
                n == self.entries@.len(),
                i <= n,
                forall|j: int| 0 <= j < i ==> self.entries@[j].0@ != key@,
            decreases n - i,
        {
            if str_eq(self.entries[i].0.as_str(), key) {
                return Some(i);
            }
            i = i + 1;
        }
        None
    }

    /// The asset cached under `key`, if any.
    pub fn get(&self, key: &str) -> (r: Option<&V>)
        ensures
            match r {
                Some(v) => self@.dom().contains(key@) && *v == self@[key@],
                None => !self@.dom().contains(key@),
            },
    {
        proof {
            use_type_invariant(self);
            lemma_entries_map(self.entries@);
        }
        match self.position(key) {
            Some(i) => {
                assert(self.entries@[i as int].0@ == key@);
                Some(&self.entries[i].1)
            },
            None => None,
        }
    }

    /// Caches `value` under `key`, replacing what was there.
    pub fn insert(&mut self, key: String, value: V)
        ensures
            final(self)@ == old(self)@.insert(key@, value),
    {
        proof {
            use_type_invariant(&*self);
        }
        let ghost old_entries = self.entries@;
        let mut entries: Vec<(String, V)> = Vec::new();
        std::mem::swap(&mut entries, &mut self.entries);
        assert(entries@ == old_entries);
        let ghost k = key@;
        let pos = {
            let c = AssetCache { entries };
            let p = c.position(key.as_str());
            entries = c.entries;
            p
        };
        match pos {
            Some(i) => {
                entries.set(i, (key, value));
                proof {
                    let s = entries@;
                    assert(s =~= old_entries.update(i as int, s[i as int]));
                    assert(keys_distinct(s));
                    lemma_entries_map(old_entries);
                    lemma_entries_map(s);
                    assert forall|q: Seq<char>|
                        entries_map(s).dom().contains(q) <==> entries_map(
                            old_entries,
                        ).insert(k, value).dom().contains(q) by {
                        if exists|j: int| 0 <= j < old_entries.len() && old_entries[j].0@ == q {
                            let j = choose|j: int|
                                0 <= j < old_entries.len() && old_entries[j].0@ == q;
                            assert(s[j].0@ == q);
                        }
                        if exists|j: int| 0 <= j < s.len() && s[j].0@ == q {
                            let j = choose|j: int| 0 <= j < s.len() && s[j].0@ == q;
                            if j != i {
                                assert(old_entries[j].0@ == q);
                            }
                        }
                    }
                    assert forall|q: Seq<char>| #[trigger]
                        entries_map(s).dom().contains(q) implies entries_map(s)[q] == entries_map(
                            old_entries,
                        ).insert(k, value)[q] by {
                        let j = choose|j: int| 0 <= j < s.len() && s[j].0@ == q;
                        assert(entries_map(s)[s[j].0@] == s[j].1);
                        if j != i {
                            assert(old_entries[j] == s[j]);
                            assert(entries_map(old_entries)[old_entries[j].0@] == old_entries[j].1);
                        }
                    }
                    assert(entries_map(s) =~= entries_map(old_entries).insert(k, value));
                }
            },
            None => {
                entries.push((key, value));
                proof {
                    let s = entries@;
                    assert(s.drop_last() =~= old_entries);
                    assert(keys_distinct(s));
                }
            },
        }
        self.entries = entries;
    }
}

// ---------------------------------------------------------------------------
// Images
// ---------------------------------------------------------------------------

/// What `image::load_from_memory` followed by `to_rgba8` gives for `bytes`:
/// width, height and RGBA pixels, or `None` when the bytes are not an image
/// the decoder accepts.
pub uninterp spec fn decoded_rgba8(bytes: Seq<u8>) -> Option<(u32, u32, Seq<u8>)>;

/// Decodes `bytes` with `image::load_from_memory` (the format is guessed
/// from the leading bytes) and converts the picture to 8-bit RGBA with
/// `DynamicImage::to_rgba8`. The result is named by `decoded_rgba8`; which
/// byte strings decode, and to what, is left to the `image` crate.
#[verifier::external_body]
fn load_rgba8(bytes: &[u8]) -> (r: Option<(u32, u32, Vec<u8>)>)
    ensures
        match r {
            Some((w, h, px)) => decoded_rgba8(bytes@) == Some((w, h, px@)),
            None => decoded_rgba8(bytes@) is None,
        },
{
    match image::load_from_memory(bytes) {
        Ok(img) => {
            let rgba = img.to_rgba8();
            Some((rgba.width(), rgba.height(), rgba.into_raw()))
        },
        Err(_) => None,
    }
}

/// The image a decoded RGBA picture makes.
pub fn image_from_rgba8(width: u32, height: u32, rgba: Vec<u8>) -> (img: DecodedImage)
    ensures
        img.width == width,
        img.height == height,
        img.rgba@ == rgba@,
{
    DecodedImage { width: width as usize, height: height as usize, rgba }
}

/// Decodes a PNG or JPEG file into RGBA pixels.
pub fn decode_image_bytes(bytes: &[u8]) -> (r: Option<DecodedImage>)
    ensures
        match decoded_rgba8(bytes@) {
            Some((w, h, px)) => r is Some && r->Some_0.width == w && r->Some_0.height == h
                && r->Some_0.rgba@ == px,
            None => r is None,
        },
{
    match load_rgba8(bytes) {
        Some((w, h, px)) => Some(image_from_rgba8(w, h, px)),
        None => None,
    }
}

/// A copy of `img`.
pub fn copy_image(img: &DecodedImage) -> (c: DecodedImage)
    ensures
        c.width == img.width,
        c.height == img.height,
        c.rgba@ == img.rgba@,
{
    let rgba = img.rgba.clone();
    assert(rgba@ =~= img.rgba@);
    DecodedImage { width: img.width, height: img.height, rgba }
}

/// A fresh, empty cache of decoded images.
pub fn image_cache() -> (c: AssetCache<DecodedImage>)
    ensures
        c@ == Map::<Seq<char>, DecodedImage>::empty(),
{
    AssetCache::new()
}

/// A fresh, empty cache of raw asset bytes (sounds, and anything without a
/// decoder of its own).
pub fn raw_cache() -> (c: AssetCache<Vec<u8>>)
    ensures
        c@ == Map::<Seq<char>, Vec<u8>>::empty(),
{
    AssetCache::new()
}

/// The bytes cached under `id`, if any.
pub fn get_cached_raw(cache: &AssetCache<Vec<u8>>, id: &str) -> (r: Option<Vec<u8>>)
    ensures
        match r {
            Some(b) => cache@.dom().contains(id@) && b@ == cache@[id@]@,
            None => !cache@.dom().contains(id@),
        },
{
    match cache.get(id) {
        Some(b) => {
            let c = b.clone();
            assert(c@ =~= b@);
            Some(c)
        },
        None => None,
    }
}

/// Caches `bytes` under `id`.
pub fn store_cached_raw(cache: &mut AssetCache<Vec<u8>>, id: String, bytes: Vec<u8>)
    ensures
        final(cache)@ == old(cache)@.insert(id@, bytes),
{
    cache.insert(id, bytes);
}

/// Caches `img` under `image_id`.
pub fn store_cached_image(cache: &mut AssetCache<DecodedImage>, image_id: String, img: DecodedImage)
    ensures
        final(cache)@ == old(cache)@.insert(image_id@, img),
{
    cache.insert(image_id, img);
}

/// Reading a cache after a write gives back what was written under that key
/// and leaves every other key as it was.
pub proof fn law_cache_read_after_write<V>(
    before: Map<Seq<char>, V>,
    after: Map<Seq<char>, V>,
    key: Seq<char>,
    value: V,
    other: Seq<char>,
)
    requires
        after == before.insert(key, value),
    ensures
        after.dom().contains(key),
        after[key] == value,
        other != key ==> (after.dom().contains(other) <==> before.dom().contains(other)),
        other != key && before.dom().contains(other) ==> after[other] == before[other],
{
}

// ---------------------------------------------------------------------------
// Finding an image
// ---------------------------------------------------------------------------

/// The textures the editor draws itself, named by the keys `__studs`,
/// `__inlets`, `__brick`, `__diamond_plate`, `__wood_planks`,
/// `__cobblestone`, `__grass` and `__concrete`.
#[derive(PartialEq, Eq, Debug, Clone, Copy)]
pub enum ProceduralTexture {
    /// Round studs with a lit bevel, shaded with trigonometry.
    Studs,
    /// Round inlets with a lit rim, shaded with trigonometry.
    Inlets,
    /// One of the material textures.
    Material(Material),
}

/// The procedural texture a cache key names.
pub open spec fn procedural_for(key: Seq<char>) -> Option<ProceduralTexture> {
    if key == "__studs"@ {
        Some(ProceduralTexture::Studs)
    } else if key == "__inlets"@ {
        Some(ProceduralTexture::Inlets)
    } else if key == "__brick"@ {
        Some(ProceduralTexture::Material(Material::Brick))
    } else if key == "__diamond_plate"@ {
        Some(ProceduralTexture::Material(Material::DiamondPlate))
    } else if key == "__wood_planks"@ {
        Some(ProceduralTexture::Material(Material::WoodPlanks))
    } else if key == "__cobblestone"@ {
        Some(ProceduralTexture::Material(Material::Cobblestone))
    } else if key == "__grass"@ {
        Some(ProceduralTexture::Material(Material::Grass))
    } else if key == "__concrete"@ {
        Some(ProceduralTexture::Material(Material::Concrete))
    } else {
        None
    }
}

/// The procedural texture `key` names, if any.
pub fn procedural_texture(key: &str) -> (r: Option<ProceduralTexture>)
    ensures
        r == procedural_for(key@),
{
    if str_eq(key, "__studs") {
        Some(ProceduralTexture::Studs)
    } else if str_eq(key, "__inlets") {
        Some(ProceduralTexture::Inlets)
    } else if str_eq(key, "__brick") {
        Some(ProceduralTexture::Material(Material::Brick))
    } else if str_eq(key, "__diamond_plate") {
        Some(ProceduralTexture::Material(Material::DiamondPlate))
    } else if str_eq(key, "__wood_planks") {
        Some(ProceduralTexture::Material(Material::WoodPlanks))
    } else if str_eq(key, "__cobblestone") {
        Some(ProceduralTexture::Material(Material::Cobblestone))
    } else if str_eq(key, "__grass") {
        Some(ProceduralTexture::Material(Material::Grass))
    } else if str_eq(key, "__concrete") {
        Some(ProceduralTexture::Material(Material::Concrete))
    } else {
        None
    }
}

/// The files on the device where a downloaded asset with this id may have
/// been saved, in the order they are tried; `ext` is the file extension.
pub open spec fn download_paths(id: Seq<char>, ext: Seq<char>) -> Seq<Seq<char>> {
    seq![
        "/Android/media/com.yourname.rbxleditor/scripts/asset/"@ + id + ext,
        "/home/user/Android-rbxl/asset/"@ + id + ext,
        "/home/user/asset/"@ + id + ext,
        "/sdcard/Download/"@ + id + ext,
    ]
}

/// The device files to try for a cache key: those of its asset id, or none
/// when it names no id.
pub open spec fn download_paths_for(key: Seq<char>, ext: Seq<char>) -> Seq<Seq<char>> {
    match asset_id_of(key) {
        Some(id) => download_paths(id, ext),
        None => Seq::empty(),
    }
}

/// The device files to try for `key`, with extension `ext` (see
/// `download_paths_for`).
pub fn download_candidates(key: &str, ext: &str) -> (r: Vec<String>)
    ensures
        r@.map_values(|s: String| s@) == download_paths_for(key@, ext@),
{
    let mut out: Vec<String> = Vec::new();
    match extract_asset_id(key) {
        Some(id) => {
            let prefixes = vec![
                "/Android/media/com.yourname.rbxleditor/scripts/asset/",
                "/home/user/Android-rbxl/asset/",
                "/home/user/asset/",
                "/sdcard/Download/",
            ];
            let mut i: usize = 0;
            while i < 4
                invariant
                    prefixes@.len() == 4,
                    prefixes@[0]@ == "/Android/media/com.yourname.rbxleditor/scripts/asset/"@,
                    prefixes@[1]@ == "/home/user/Android-rbxl/asset/"@,
                    prefixes@[2]@ == "/home/user/asset/"@,
                    prefixes@[3]@ == "/sdcard/Download/"@,
                    i <= 4,
                    out@.len() == i,
                    forall|j: int|
                        0 <= j < i ==> #[trigger] out@[j]@ == prefixes@[j]@ + id@ + ext@,
                decreases 4 - i,
            {
                let mut f = String::from_str(prefixes[i]);
                f.append(id.as_str());
                f.append(ext);
                out.push(f);
                i = i + 1;
            }
            assert(out@.map_values(|s: String| s@) =~= download_paths(id@, ext@));
        },
        None => {
            assert(out@.map_values(|s: String| s@) =~= Seq::<Seq<char>>::empty());
        },
    }
    out
}

/// Where `get_cached_image` found an image, or what it needs the platform
/// to do before it can.
pub enum ImageLookup {
    /// The image was cached, or has just been drawn and cached.
    Found(DecodedImage),
    /// Draw this float-shaded texture and cache it under `key`
    /// (`store_cached_image`).
    Draw { key: String, texture: ProceduralTexture },
    /// Try the bundled file (if any), then the device files, in order:
    /// hand each file's bytes to `accept_image_bytes` until one is accepted.
    Load { key: String, bundled: Option<String>, files: Vec<String> },
}

/// The outcome `get_cached_image` owes for a cache key and cache contents.
pub open spec fn image_lookup_ok(
    key: Seq<char>,
    before: Map<Seq<char>, DecodedImage>,
    after: Map<Seq<char>, DecodedImage>,
    r: ImageLookup,
) -> bool {
    if before.dom().contains(key) {
        &&& after == before
        &&& r matches ImageLookup::Found(img)
        &&& img.width == before[key].width && img.height == before[key].height
        &&& img.rgba@ == before[key].rgba@
    } else {
        match procedural_for(key) {
            Some(ProceduralTexture::Material(m)) => {
                &&& r matches ImageLookup::Found(img)
                &&& is_texture(m, img)
                &&& after.dom() == before.dom().insert(key)
                &&& is_texture(m, after[key])
                &&& forall|q: Seq<char>| q != key && before.dom().contains(q) ==> after[q] == before[q]
            },
            Some(t) => {
                &&& after == before
                &&& r matches ImageLookup::Draw { key: k, texture }
                &&& k@ == key && texture == t
            },
            None => {
                &&& after == before
                &&& r matches ImageLookup::Load { key: k, bundled, files }
                &&& k@ == key
                &&& match crate::bundled::builtin_image_file(key) {
                    Some(f) => bundled is Some && bundled->Some_0@ == f,
                    None => bundled is None,
                }
                &&& files@.map_values(|s: String| s@) == download_paths_for(key, ".png"@)
            },
        }
    }
}

/// Looks an image up by reference: from the cache, else by drawing the
/// procedural texture the reference names, else says which bundled and
/// device files to try. The reference is trimmed first; that is the key
/// the image is cached under.
pub fn get_cached_image(cache: &mut AssetCache<DecodedImage>, image_id: &str) -> (r: ImageLookup)
    ensures
        image_lookup_ok(trim(image_id@), old(cache)@, final(cache)@, r),
{
    let v = chars_of(image_id);
    let n = v.len();
    let (lo, hi) = trim_range(&v, 0, n);
    assert(v@.subrange(0, n as int) =~= image_id@);
    let key = image_id.substring_char(lo, hi);
    match cache.get(key) {
        Some(img) => {
            return ImageLookup::Found(copy_image(img));
        },
        None => {},
    }
    match procedural_texture(key) {
        Some(ProceduralTexture::Material(m)) => {
            let img = generate_texture(m);
            let out = copy_image(&img);
            cache.insert(String::from_str(key), img);
            ImageLookup::Found(out)
        },
        Some(t) => ImageLookup::Draw { key: String::from_str(key), texture: t },
        None => ImageLookup::Load {
            key: String::from_str(key),
            bundled: crate::bundled::get_builtin_image_bytes(key),
            files: download_candidates(key, ".png"),
        },
    }
}

/// An image stored under a key is what any later lookup of that key gives
/// back, however the reference is padded with whitespace: the cached entry
/// wins over procedural, bundled and device sources, and the lookup leaves
/// the cache as it was.
pub proof fn law_cached_image_wins(
    stored: Map<Seq<char>, DecodedImage>,
    key: Seq<char>,
    img: DecodedImage,
    image_id: Seq<char>,
    after: Map<Seq<char>, DecodedImage>,
    r: ImageLookup,
)
    requires
        trim(image_id) == key,
        image_lookup_ok(trim(image_id), stored.insert(key, img), after, r),
    ensures
        after == stored.insert(key, img),
        r matches ImageLookup::Found(found) && found.width == img.width && found.height
            == img.height && found.rgba@ == img.rgba@,
{
}

/// Each procedural key draws its own texture: a lookup of `__brick`,
/// `__diamond_plate`, `__wood_planks`, `__cobblestone`, `__grass` or
/// `__concrete` (however padded) that misses the cache gives that
/// material's texture and caches it under the key; `__studs` and
/// `__inlets` ask for the stud and inlet textures to be drawn.
pub proof fn law_procedural_keys(
    image_id: Seq<char>,
    before: Map<Seq<char>, DecodedImage>,
    after: Map<Seq<char>, DecodedImage>,
    r: ImageLookup,
)
    requires
        !before.dom().contains(trim(image_id)),
        image_lookup_ok(trim(image_id), before, after, r),
    ensures
        trim(image_id) == "__brick"@ ==> (r matches ImageLookup::Found(img) && is_texture(
            Material::Brick,
            img,
        ) && is_texture(Material::Brick, after["__brick"@])),
        trim(image_id) == "__diamond_plate"@ ==> (r matches ImageLookup::Found(img) && is_texture(
            Material::DiamondPlate,
            img,
        ) && is_texture(Material::DiamondPlate, after["__diamond_plate"@])),
        trim(image_id) == "__wood_planks"@ ==> (r matches ImageLookup::Found(img) && is_texture(
            Material::WoodPlanks,
            img,
        ) && is_texture(Material::WoodPlanks, after["__wood_planks"@])),
        trim(image_id) == "__cobblestone"@ ==> (r matches ImageLookup::Found(img) && is_texture(
            Material::Cobblestone,
            img,
        ) && is_texture(Material::Cobblestone, after["__cobblestone"@])),
        trim(image_id) == "__grass"@ ==> (r matches ImageLookup::Found(img) && is_texture(
            Material::Grass,
            img,
        ) && is_texture(Material::Grass, after["__grass"@])),
        trim(image_id) == "__concrete"@ ==> (r matches ImageLookup::Found(img) && is_texture(
            Material::Concrete,
            img,
        ) && is_texture(Material::Concrete, after["__concrete"@])),
        trim(image_id) == "__studs"@ ==> (r matches ImageLookup::Draw { key, texture } && key@
            == "__studs"@ && texture == ProceduralTexture::Studs && after == before),
        trim(image_id) == "__inlets"@ ==> (r matches ImageLookup::Draw { key, texture } && key@
            == "__inlets"@ && texture == ProceduralTexture::Inlets && after == before),
{
    reveal_strlit("__studs");
    reveal_strlit("__inlets");
    reveal_strlit("__brick");
    reveal_strlit("__diamond_plate");
    reveal_strlit("__wood_planks");
    reveal_strlit("__cobblestone");
    reveal_strlit("__grass");
    reveal_strlit("__concrete");
    assert("__grass"@[2] != "__studs"@[2] && "__grass"@[2] != "__brick"@[2]);
    assert("__brick"@[2] != "__studs"@[2]);
    assert("__wood_planks"@[2] != "__cobblestone"@[2]);
}

/// Decodes a candidate file for `key` and, when it decodes, caches the
/// image under `key` and returns it.
pub fn accept_image_bytes(cache: &mut AssetCache<DecodedImage>, key: String, bytes: &[u8]) -> (r:
    Option<DecodedImage>)
    ensures
        match decoded_rgba8(bytes@) {
            Some((w, h, px)) => {
                &&& r is Some
                &&& r->Some_0.width == w && r->Some_0.height == h && r->Some_0.rgba@ == px
                &&& final(cache)@.dom() == old(cache)@.dom().insert(key@)
                &&& final(cache)@[key@].rgba@ == px
                &&& final(cache)@[key@].width == w && final(cache)@[key@].height == h
                &&& forall|q: Seq<char>|
                    q != key@ && old(cache)@.dom().contains(q) ==> final(cache)@[q] == old(cache)@[q]
            },
            None => r is None && final(cache)@ == old(cache)@,
        },
{
    match decode_image_bytes(bytes) {
        Some(img) => {
            let out = copy_image(&img);
            cache.insert(key, img);
            Some(out)
        },
        None => None,
    }
}

// ---------------------------------------------------------------------------
// Finding a mesh
// ---------------------------------------------------------------------------

/// Where `get_cached_mesh` found a mesh, or which files to read for it.
pub enum MeshLookup<'a, V> {
    /// The mesh is cached.
    Found(&'a V),
    /// Try the bundled file (if any), then the device files, in order; the
    /// first that parses is cached under `key`.
    Load { key: String, bundled: Option<String>, files: Vec<String> },
}

/// Looks a mesh up by reference: from the cache, else says which bundled and
/// device files to try. The reference is trimmed first; that is the key the
/// mesh is cached under.
pub fn get_cached_mesh<'a, V>(cache: &'a AssetCache<V>, mesh_id: &str) -> (r: MeshLookup<'a, V>)
    ensures
        cache@.dom().contains(trim(mesh_id@)) ==> (r matches MeshLookup::Found(m) && *m
            == cache@[trim(mesh_id@)]),
        !cache@.dom().contains(trim(mesh_id@)) ==> (r matches MeshLookup::Load {
            key,
            bundled,
            files,
        } && key@ == trim(mesh_id@) && files@.map_values(|s: String| s@) == download_paths_for(
            trim(mesh_id@),
            ".mesh"@,
        ) && match crate::bundled::builtin_mesh_file(trim(mesh_id@)) {
            Some(f) => bundled is Some && bundled->Some_0@ == f,
            None => bundled is None,
        }),
{
    let v = chars_of(mesh_id);
    let n = v.len();
    let (lo, hi) = trim_range(&v, 0, n);
    assert(v@.subrange(0, n as int) =~= mesh_id@);
    let key = mesh_id.substring_char(lo, hi);
    match cache.get(key) {
        Some(m) => MeshLookup::Found(m),
        None => MeshLookup::Load {
            key: String::from_str(key),
            bundled: crate::bundled::get_builtin_mesh_bytes(key),
            files: download_candidates(key, ".mesh"),
        },
    }
}

// ---------------------------------------------------------------------------
// Sounds
// ---------------------------------------------------------------------------

/// What playing a sound by reference comes to.
pub enum AudioRequest {
    /// The sound is cached: play these bytes.
    Play(Vec<u8>),
    /// The sound is not cached: start downloading `id`, and report `message`.
    Fetch { id: String, message: String },
}

/// Plays a cached sound, or asks for it to be downloaded when it is not
/// cached yet.
pub fn play_cached_or_fetch(cache: &AssetCache<Vec<u8>>, id: &str) -> (r: AudioRequest)
    ensures
        cache@.dom().contains(id@) ==> (r matches AudioRequest::Play(b) && b@ == cache@[id@]@),
        !cache@.dom().contains(id@) ==> (r matches AudioRequest::Fetch { id: i, message } && i@
            == id@ && message@ == "audio not cached yet; started download"@),
{
    match get_cached_raw(cache, id) {
        Some(bytes) => AudioRequest::Play(bytes),
        None => AudioRequest::Fetch {
            id: String::from_str(id),
            message: String::from_str("audio not cached yet; started download"),
        },
    }
}

} // verus!
