//! Decisions behind the GUI preview and the explorer tree that do not
//! depend on drawing: which classes are GUI objects, the explorer's class
//! icons, the font a text object asks for, and reading Roblox rich-text
//! markup (entities and tag attributes).

use vstd::prelude::*;
use vstd::string::*;
use vstd::utf8::*;
use crate::text::{
    ascii_lower, chars_of, find_char, find_from, find_str, first_index_of, is_whitespace, is_ws, lead_ws, lemma_first_index_bound, replace_all, replace_str, str_eq, to_lower_char, starts_with_seq, trim, trim_range,
};

verus! {

/// Kinds of input and layout events a previewed GUI object can raise.
#[derive(PartialEq, Eq, Debug, Clone, Copy)]
pub enum GuiRuntimeEventKind {
    Layout,
    MouseEnter,
    MouseLeave,
    MouseButton1Down,
    MouseButton1Up,
    MouseButton1Click,
    Activated,
    ActivatedKeyboard,
    InputChanged,
    Focused,
    FocusLost,
    SelectionGained,
    SelectionLost,
    TextChanged,
}

// ---------------------------------------------------------------------------
// Classes
// ---------------------------------------------------------------------------

/// The classes laid out and drawn as GUI objects.
pub open spec fn gui_object_class(class: Seq<char>) -> bool {
    class == "Frame"@ || class == "CanvasGroup"@ || class == "TextLabel"@ || class
        == "TextButton"@ || class == "TextBox"@ || class == "ImageLabel"@ || class
        == "ImageButton"@ || class == "ScrollingFrame"@ || class == "ViewportFrame"@ || class
        == "VideoFrame"@
}

/// Whether instances of `class` are GUI objects.
pub fn is_gui_object(class: &str) -> (r: bool)
    ensures
        r == gui_object_class(class@),
{
    str_eq(class, "Frame") || str_eq(class, "CanvasGroup") || str_eq(class, "TextLabel")
        || str_eq(class, "TextButton") || str_eq(class, "TextBox") || str_eq(class, "ImageLabel")
        || str_eq(class, "ImageButton") || str_eq(class, "ScrollingFrame") || str_eq(
        class,
        "ViewportFrame",
    ) || str_eq(class, "VideoFrame")
}

/// The explorer's icon for a class: a scroll for scripts, a page for local
/// scripts, a package for module scripts, a folder, a globe for the
/// workspace, a bust for the players service, and a small square otherwise.
pub open spec fn icon_for(class: Seq<char>) -> Seq<char> {
    if class == "Script"@ {
        "\u{1F4DC}"@
    } else if class == "LocalScript"@ {
        "\u{1F4C4}"@
    } else if class == "ModuleScript"@ {
        "\u{1F4E6}"@
    } else if class == "Folder"@ {
        "\u{1F4C1}"@
    } else if class == "Workspace"@ {
        "\u{1F310}"@
    } else if class == "Players"@ {
        "\u{1F464}"@
    } else {
        "\u{25FE}"@
    }
}

/// The explorer's icon for `class` (see `icon_for`).
pub fn class_icon(class: &str) -> (r: &'static str)
    ensures
        r@ == icon_for(class@),
{
    if str_eq(class, "Script") {
        "\u{1F4DC}"
    } else if str_eq(class, "LocalScript") {
        "\u{1F4C4}"
    } else if str_eq(class, "ModuleScript") {
        "\u{1F4E6}"
    } else if str_eq(class, "Folder") {
        "\u{1F4C1}"
    } else if str_eq(class, "Workspace") {
        "\u{1F310}"
    } else if str_eq(class, "Players") {
        "\u{1F464}"
    } else {
        "\u{25FE}"
    }
}

// ---------------------------------------------------------------------------
// Fonts
// ---------------------------------------------------------------------------

/// The bundled font family a text object uses, from its font's kind and
/// weight: Source Sans, Montserrat, Arimo, Builder Mono, Builder Extended,
/// or Builder Sans, each in the nearest weight the bundle has.
pub open spec fn font_family_name(
    monospace: bool,
    extended: bool,
    source_sans: bool,
    montserrat: bool,
    arimo: bool,
    italic: bool,
    weight: u16,
) -> Seq<char> {
    if source_sans {
        if italic {
            "SourceSansItalic"@
        } else if weight >= 700 {
            "SourceSansBold"@
        } else if weight >= 600 {
            "SourceSansSemiBold"@
        } else if weight <= 300 {
            "SourceSansLight"@
        } else {
            "SourceSansRegular"@
        }
    } else if montserrat {
        if weight >= 800 {
            "MontserratBlack"@
        } else if weight >= 700 {
            "MontserratBold"@
        } else if weight >= 500 {
            "MontserratMedium"@
        } else {
            "MontserratRegular"@
        }
    } else if arimo {
        if weight >= 700 {
            "ArimoBold"@
        } else {
            "ArimoRegular"@
        }
    } else if monospace {
        if weight >= 600 {
            "BuilderMonoBold"@
        } else if weight <= 300 {
            "BuilderMonoLight"@
        } else {
            "BuilderMonoRegular"@
        }
    } else if extended {
        if weight >= 800 {
            "BuilderExtendedExtraBold"@
        } else if weight >= 700 {
            "BuilderExtendedBold"@
        } else if weight >= 600 {
            "BuilderExtendedSemiBold"@
        } else if weight <= 300 {
            "BuilderExtendedLight"@
        } else {
            "BuilderExtendedRegular"@
        }
    } else if weight >= 800 {
        "BuilderSansExtraBold"@
    } else if weight >= 600 {
        "BuilderSansBold"@
    } else if weight >= 500 {
        "BuilderSansMedium"@
    } else if weight <= 100 {
        "BuilderSansThin"@
    } else if weight <= 300 {
        "BuilderSansLight"@
    } else {
        "BuilderSansRegular"@
    }
}

/// The name of the bundled font family for a text object (see
/// `font_family_name`).
pub fn roblox_font_family(
    monospace: bool,
    extended: bool,
    source_sans: bool,
    montserrat: bool,
    arimo: bool,
    italic: bool,
    weight: u16,
) -> (r: &'static str)
    ensures
        r@ == font_family_name(monospace, extended, source_sans, montserrat, arimo, italic, weight),
{
    if source_sans {
        if italic {
            "SourceSansItalic"
        } else if weight >= 700 {
            "SourceSansBold"
        } else if weight >= 600 {
            "SourceSansSemiBold"
        } else if weight <= 300 {
            "SourceSansLight"
        } else {
            "SourceSansRegular"
        }
    } else if montserrat {
        if weight >= 800 {
            "MontserratBlack"
        } else if weight >= 700 {
            "MontserratBold"
        } else if weight >= 500 {
            "MontserratMedium"
        } else {
            "MontserratRegular"
        }
    } else if arimo {
        if weight >= 700 {
            "ArimoBold"
        } else {
            "ArimoRegular"
        }
    } else if monospace {
        if weight >= 600 {
            "BuilderMonoBold"
        } else if weight <= 300 {
            "BuilderMonoLight"
        } else {
            "BuilderMonoRegular"
        }
    } else if extended {
        if weight >= 800 {
            "BuilderExtendedExtraBold"
        } else if weight >= 700 {
            "BuilderExtendedBold"
        } else if weight >= 600 {
            "BuilderExtendedSemiBold"
        } else if weight <= 300 {
            "BuilderExtendedLight"
        } else {
            "BuilderExtendedRegular"
        }
    } else if weight >= 800 {
        "BuilderSansExtraBold"
    } else if weight >= 600 {
        "BuilderSansBold"
    } else if weight >= 500 {
        "BuilderSansMedium"
    } else if weight <= 100 {
        "BuilderSansThin"
    } else if weight <= 300 {
        "BuilderSansLight"
    } else {
        "BuilderSansRegular"
    }
}

// ---------------------------------------------------------------------------
// Rich text
// ---------------------------------------------------------------------------

/// Rich-text entities decoded: `&lt;`, `&gt;`, `&quot;`, `&apos;` and, last,
/// `&amp;`, each replaced everywhere in turn.
pub open spec fn decoded_entities(s: Seq<char>) -> Seq<char> {
    replace_all(
        replace_all(
            replace_all(replace_all(replace_all(s, "&lt;"@, "<"@), "&gt;"@, ">"@), "&quot;"@, "\""@),
            "&apos;"@,
            "'"@,
        ),
        "&amp;"@,
        "&"@,
    )
}

/// Decodes the entities of a rich-text run (see `decoded_entities`).
pub fn decode_rich_entities(text: &str) -> (r: String)
    ensures
        r@ == decoded_entities(text@),
{
    proof {
        reveal_strlit("&lt;");
        reveal_strlit("&gt;");
        reveal_strlit("&quot;");
        reveal_strlit("&apos;");
        reveal_strlit("&amp;");
    }
    let a = replace_str(text, "&lt;", "<");
    let b = replace_str(a.as_str(), "&gt;", ">");
    let c = replace_str(b.as_str(), "&quot;", "\"");
    let d = replace_str(c.as_str(), "&apos;", "'");
    replace_str(d.as_str(), "&amp;", "&")
}

/// Index of the first whitespace character of `s`, or its length.
pub open spec fn first_ws(s: Seq<char>) -> int
    decreases s.len(),
{
    if s.len() == 0 {
        0
    } else if is_ws(s[0]) {
        0
    } else {
        1 + first_ws(s.drop_first())
    }
}

/// Number of copies of `c` at the end of `s`.
pub open spec fn trailing_count(s: Seq<char>, c: char) -> int
    decreases s.len(),
{
    if s.len() > 0 && s.last() == c {
        1 + trailing_count(s.drop_last(), c)
    } else {
        0
    }
}

/// The first whitespace-separated word of `s`, or nothing
/// (`str::split_whitespace().next()`).
pub open spec fn first_word(s: Seq<char>) -> Seq<char> {
    let t = s.skip(lead_ws(s));
    t.take(first_ws(t))
}

/// The value of attribute `name` in a rich-text tag: found by searching the
/// lower-cased tag for `name=`; a value in single or double quotes runs to
/// the matching quote (or the end), an unquoted one is the first word after
/// the `=`, less trailing slashes.
pub open spec fn attribute_value(tag: Seq<char>, name: Seq<char>) -> Option<Seq<char>> {
    let pos = find_from(ascii_lower(tag), name + "="@, 0);
    if pos < 0 {
        None
    } else {
        let rest = tag.skip(pos + name.len() + 1);
        if rest.len() > 0 && (rest[0] == '"' || rest[0] == '\'') {
            let value = rest.skip(1);
            Some(value.take(first_index_of(value, rest[0])))
        } else {
            let w = first_word(rest);
            Some(w.take(w.len() - trailing_count(w, '/')))
        }
    }
}

/// The lower-cased characters of `s`.
fn lower_chars(s: &str) -> (v: Vec<char>)
    ensures
        v@ == ascii_lower(s@),
{
    let src = chars_of(s);
    let n = src.len();
    let mut v: Vec<char> = Vec::new();
    let mut k: usize = 0;
    while k < n
        invariant
            src@ == s@,
            n == src@.len(),
            k <= n,
            v@ == ascii_lower(s@).take(k as int),
        decreases n - k,
    {
        v.push(to_lower_char(src[k]));
        assert(v@ =~= ascii_lower(s@).take(k + 1));
        k = k + 1;
    }
    assert(v@ =~= ascii_lower(s@));
    v
}

/// Reads attribute `name` of a rich-text tag (see `attribute_value`).
pub fn rich_attribute(tag: &str, name: &str) -> (r: Option<String>)
    ensures
        match attribute_value(tag@, name@) {
            Some(v) => r is Some && r->Some_0@ == v,
            None => r is None,
        },
{
    let tv = chars_of(tag);
    let n = tv.len();
    let lower = lower_chars(tag);
    proof {
        reveal_strlit("=");
    }
    let mut pat = String::from_str(name);
    pat.append("=");
    assert(pat@.len() == name@.len() + 1);
    assert(lower@.subrange(0, n as int) =~= ascii_lower(tag@));
    match find_str(&lower, 0, n, pat.as_str()) {
        None => None,
        Some(pos) => {
            let start = pos + name.unicode_len() + 1;
            let ghost rest = tag@.skip(start as int);
            assert(rest =~= tv@.subrange(start as int, n as int));
            if start < n && (tv[start] == '"' || tv[start] == '\'') {
                let q = tv[start];
                let e = find_char(&tv, start + 1, n, q);
                assert(rest.skip(1) =~= tv@.subrange(start + 1, n as int));
                let value = tag.substring_char(start + 1, e);
                assert(value@ =~= rest.skip(1).take(first_index_of(rest.skip(1), rest[0])));
                Some(String::from_str(value))
            } else {
                let mut a = start;
                while a < n && is_whitespace(tv[a])
                    invariant
                        n == tv@.len(),
                        start <= a <= n,
                        lead_ws(tv@.subrange(start as int, n as int)) == (a - start) + lead_ws(
                            tv@.subrange(a as int, n as int),
                        ),
                    decreases n - a,
                {
                    assert(tv@.subrange(a as int, n as int).drop_first() =~= tv@.subrange(
                        a + 1,
                        n as int,
                    ));
                    a = a + 1;
                }
                let mut b = a;
                while b < n && !is_whitespace(tv[b])
                    invariant
                        n == tv@.len(),
                        a <= b <= n,
                        first_ws(tv@.subrange(a as int, n as int)) == (b - a) + first_ws(
                            tv@.subrange(b as int, n as int),
                        ),
                    decreases n - b,
                {
                    assert(tv@.subrange(b as int, n as int).drop_first() =~= tv@.subrange(
                        b + 1,
                        n as int,
                    ));
                    b = b + 1;
                }
                let mut c = b;
                while c > a && tv[c - 1] == '/'
                    invariant
                        n == tv@.len(),
                        a <= c <= b <= n,
                        trailing_count(tv@.subrange(a as int, b as int), '/') == (b - c)
                            + trailing_count(tv@.subrange(a as int, c as int), '/'),
                    decreases c - a,
                {
                    assert(tv@.subrange(a as int, c as int).drop_last() =~= tv@.subrange(
                        a as int,
                        c - 1,
                    ));
                    c = c - 1;
                }
                proof {
                    assert(rest.skip(a - start) =~= tv@.subrange(a as int, n as int));
                    let t = tv@.subrange(a as int, n as int);
                    assert(t.take(b - a) =~= tv@.subrange(a as int, b as int));
                    let w = tv@.subrange(a as int, b as int);
                    assert(w.take(c - a) =~= tv@.subrange(a as int, c as int));
                }
                Some(String::from_str(tag.substring_char(a, c)))
            }
        },
    }
}

// ---------------------------------------------------------------------------
// Colours
// ---------------------------------------------------------------------------

/// The value of digit `c` in base `radix` (10 or 16), if it is one.
pub open spec fn digit_value(c: char, radix: nat) -> Option<nat> {
    if '0' <= c && c <= '9' {
        Some((c as u32 - 48) as nat)
    } else if radix == 16 && 'a' <= c && c <= 'f' {
        Some((c as u32 - 87) as nat)
    } else if radix == 16 && 'A' <= c && c <= 'F' {
        Some((c as u32 - 55) as nat)
    } else {
        None
    }
}

/// The number the digits `s` spell in base `radix`, if all are digits.
pub open spec fn digits_value(s: Seq<char>, radix: nat) -> Option<nat>
    decreases s.len(),
{
    if s.len() == 0 {
        Some(0)
    } else {
        match (digits_value(s.drop_last(), radix), digit_value(s.last(), radix)) {
            (Some(v), Some(d)) => Some(v * radix + d),
            _ => None,
        }
    }
}

/// An unsigned number in base `radix` no larger than `max`, written as
/// digits after an optional `+` (`u32::from_str_radix`, `u8::from_str`).
pub open spec fn parse_unsigned(s: Seq<char>, radix: nat, max: nat) -> Option<nat> {
    let body = if s.len() > 0 && s[0] == '+' {
        s.skip(1)
    } else {
        s
    };
    if body.len() == 0 {
        None
    } else {
        match digits_value(body, radix) {
            Some(v) => if v <= max {
                Some(v)
            } else {
                None
            },
            None => None,
        }
    }
}

/// The pieces of `s` between the separators `c` (`str::split`).
pub open spec fn split_on(s: Seq<char>, c: char) -> Seq<Seq<char>>
    decreases s.len(),
{
    let i = first_index_of(s, c);
    if 0 <= i < s.len() {
        seq![s.take(i)] + split_on(s.skip(i + 1), c)
    } else {
        seq![s]
    }
}

/// The pieces that, trimmed, are numbers from 0 to 255, in order.
pub open spec fn byte_values(parts: Seq<Seq<char>>) -> Seq<u8>
    decreases parts.len(),
{
    if parts.len() == 0 {
        Seq::empty()
    } else {
        let rest = byte_values(parts.drop_last());
        match parse_unsigned(trim(parts.last()), 10, 255) {
            Some(v) => rest.push(v as u8),
            None => rest,
        }
    }
}

/// Number of copies of `c` at the start of `s`.
pub open spec fn leading_count(s: Seq<char>, c: char) -> int
    decreases s.len(),
{
    if s.len() > 0 && s[0] == c {
        1 + leading_count(s.drop_first(), c)
    } else {
        0
    }
}

/// A rich-text colour with alpha `alpha`, from `#RRGGBB` (any number of
/// leading `#`, six bytes of hexadecimal after them) or `rgb(r,g,b)`
/// (three numbers from 0 to 255 among the comma-separated pieces), as
/// unmultiplied red, green, blue and alpha.
pub open spec fn rich_color(value: Seq<char>, alpha: u8) -> Option<(u8, u8, u8, u8)> {
    let v = trim(value);
    let hex = v.skip(leading_count(v, '#'));
    if encode_utf8(hex).len() == 6 {
        match parse_unsigned(hex, 16, 0xFFFF_FFFF) {
            Some(rgb) => Some(
                (((rgb / 65536) % 256) as u8, ((rgb / 256) % 256) as u8, (rgb % 256) as u8, alpha),
            ),
            None => None,
        }
    } else if starts_with_seq(v, "rgb("@) && v.len() >= 5 && v.last() == ')' {
        let vals = byte_values(split_on(v.subrange(4, v.len() - 1), ','));
        if vals.len() == 3 {
            Some((vals[0], vals[1], vals[2], alpha))
        } else {
            None
        }
    } else {
        None
    }
}

/// Once the digits read so far exceed `max`, so does the whole number.
pub proof fn lemma_digits_grow(s: Seq<char>, k: int, radix: nat)
    requires
        0 <= k <= s.len(),
        radix >= 1,
        digits_value(s, radix) is Some,
    ensures
        digits_value(s.take(k), radix) is Some,
        digits_value(s.take(k), radix)->0 <= digits_value(s, radix)->0,
    decreases s.len() - k,
{
    if k < s.len() {
        assert(s.drop_last().take(k) =~= s.take(k)) by {
            assert(k <= s.drop_last().len());
        }
        assert(digits_value(s.drop_last(), radix) is Some);
        lemma_digits_grow(s.drop_last(), k, radix);
        let v = digits_value(s.drop_last(), radix)->0;
        assert(v <= v * radix) by (nonlinear_arith)
            requires
                radix >= 1,
        ;
    } else {
        assert(s.take(k) =~= s);
    }
}

/// The value of digit `c` in base `radix` (see `digit_value`).
fn digit_of(c: char, radix: u64) -> (r: Option<u64>)
    requires
        radix == 10 || radix == 16,
    ensures
        match digit_value(c, radix as nat) {
            Some(d) => r == Some(d as u64),
            None => r is None,
        },
{
    if '0' <= c && c <= '9' {
        Some((c as u32 - 48) as u64)
    } else if radix == 16 && 'a' <= c && c <= 'f' {
        Some((c as u32 - 87) as u64)
    } else if radix == 16 && 'A' <= c && c <= 'F' {
        Some((c as u32 - 55) as u64)
    } else {
        None
    }
}

/// Parses `v[lo..hi]` as an unsigned number (see `parse_unsigned`).
fn parse_radix(v: &Vec<char>, lo: usize, hi: usize, radix: u64, max: u64) -> (r: Option<u64>)
    requires
        lo <= hi <= v@.len(),
        radix == 10 || radix == 16,
        max <= 0xFFFF_FFFF,
    ensures
        match parse_unsigned(v@.subrange(lo as int, hi as int), radix as nat, max as nat) {
            Some(x) => r == Some(x as u64),
            None => r is None,
        },
{
    let ghost s = v@.subrange(lo as int, hi as int);
    let start = if lo < hi && v[lo] == '+' {
        lo + 1
    } else {
        lo
    };
    let ghost body = v@.subrange(start as int, hi as int);
    assert(body =~= (if s.len() > 0 && s[0] == '+' {
        s.skip(1)
    } else {
        s
    }));
    if start == hi {
        return None;
    }
    let mut acc: u64 = 0;
    let mut i = start;
    assert(body.take(0) =~= Seq::<char>::empty());
    while i < hi
        invariant
            lo <= start <= i <= hi <= v@.len(),
            start < hi,
            radix == 10 || radix == 16,
            max <= 0xFFFF_FFFF,
            s == v@.subrange(lo as int, hi as int),
            body == (if s.len() > 0 && s[0] == '+' {
                s.skip(1)
            } else {
                s
            }),
            body == v@.subrange(start as int, hi as int),
            digits_value(body.take(i - start), radix as nat) == Some(acc as nat),
            acc <= max,
        decreases hi - i,
    {
        assert(body.take(i - start + 1).drop_last() =~= body.take(i - start));
        assert(body.take(i - start + 1).last() == v@[i as int]);
        match digit_of(v[i], radix) {
            None => {
                proof {
                    let k = i - start;
                    assert(digits_value(body.take(k + 1), radix as nat) is None);
                    if digits_value(body, radix as nat) is Some {
                        lemma_digits_grow(body, k + 1, radix as nat);
                        assert(false);
                    }
                    assert(parse_unsigned(s, radix as nat, max as nat) is None);
                }
                return None;
            },
            Some(d) => {
                assert(acc * radix + d <= 0xFFFF_FFFF * 16 + 15) by (nonlinear_arith)
                    requires
                        acc <= 0xFFFF_FFFF,
                        radix <= 16,
                        d < 16,
                ;
                let next = acc * radix + d;
                assert(digits_value(body.take(i - start + 1), radix as nat) == Some(next as nat));
                if next > max {
                    proof {
                        let k = i - start;
                        if digits_value(body, radix as nat) is Some {
                            lemma_digits_grow(body, k + 1, radix as nat);
                            assert(digits_value(body, radix as nat)->0 > max);
                        }
                        assert(parse_unsigned(s, radix as nat, max as nat) is None);
                    }
                    return None;
                }
                acc = next;
            },
        }
        i = i + 1;
    }
    assert(body.take(hi - start) =~= body);
    Some(acc)
}

/// The numbers from 0 to 255 among the comma-separated pieces of
/// `v[lo..hi]` (see `byte_values`).
fn rgb_values(v: &Vec<char>, lo: usize, hi: usize) -> (vals: Vec<u8>)
    requires
        lo <= hi <= v@.len(),
    ensures
        vals@ == byte_values(split_on(v@.subrange(lo as int, hi as int), ',')),
{
    let ghost body = v@.subrange(lo as int, hi as int);
    let mut vals: Vec<u8> = Vec::new();
    let mut start = lo;
    let ghost mut done: Seq<Seq<char>> = Seq::empty();
    assert(done + split_on(v@.subrange(start as int, hi as int), ',') =~= split_on(body, ','));
    loop
        invariant_except_break
            done + split_on(v@.subrange(start as int, hi as int), ',') == split_on(body, ','),
        invariant
            lo <= start <= hi <= v@.len(),
            body == v@.subrange(lo as int, hi as int),
            vals@ == byte_values(done),
        ensures
            done == split_on(body, ','),
            vals@ == byte_values(done),
        decreases hi - start,
    {
        let ghost rest = v@.subrange(start as int, hi as int);
        let comma = find_char(v, start, hi, ',');
        proof {
            lemma_first_index_bound(rest, ',');
        }
        let (plo, phi) = trim_range(v, start, comma);
        let ghost piece = v@.subrange(start as int, comma as int);
        assert(piece =~= rest.take(comma - start));
        let parsed = parse_radix(v, plo, phi, 10, 255);
        let ghost before = done;
        proof {
            done = done.push(piece);
            assert(done.drop_last() =~= before);
        }
        match parsed {
            Some(x) => {
                vals.push(x as u8);
            },
            None => {},
        }
        assert(vals@ =~= byte_values(done));
        if comma < hi {
            assert(rest.skip(comma - start + 1) =~= v@.subrange(comma + 1, hi as int));
            assert(done + split_on(v@.subrange(comma + 1, hi as int), ',') =~= split_on(body, ','));
            start = comma + 1;
        } else {
            assert(done =~= split_on(body, ','));
            break;
        }
    }
    vals
}

/// Parses a rich-text colour (see `rich_color`).
pub fn parse_rich_color(value: &str, alpha: u8) -> (r: Option<(u8, u8, u8, u8)>)
    ensures
        r == rich_color(value@, alpha),
{
    let v = chars_of(value);
    let n = v.len();
    let (lo, hi) = trim_range(&v, 0, n);
    assert(v@.subrange(0, n as int) =~= value@);
    let ghost t = v@.subrange(lo as int, hi as int);
    let mut h = lo;
    while h < hi && v[h] == '#'
        invariant
            lo <= h <= hi <= v@.len(),
            t == v@.subrange(lo as int, hi as int),
            leading_count(t, '#') == (h - lo) + leading_count(v@.subrange(h as int, hi as int), '#'),
        decreases hi - h,
    {
        assert(v@.subrange(h as int, hi as int).drop_first() =~= v@.subrange(h + 1, hi as int));
        h = h + 1;
    }
    assert(t.skip(h - lo) =~= v@.subrange(h as int, hi as int));
    let hex = value.substring_char(h, hi);
    if hex.as_bytes().len() == 6 {
        return match parse_radix(&v, h, hi, 16, 0xFFFF_FFFF) {
            Some(rgb) => Some(
                (((rgb / 65536) % 256) as u8, ((rgb / 256) % 256) as u8, (rgb % 256) as u8, alpha),
            ),
            None => None,
        };
    }
    proof {
        reveal_strlit("rgb(");
    }
    if !(hi - lo >= 5 && v[lo] == 'r' && v[lo + 1] == 'g' && v[lo + 2] == 'b' && v[lo + 3] == '('
        && v[hi - 1] == ')') {
        proof {
            if starts_with_seq(t, "rgb("@) && t.len() >= 5 {
                assert(t.take(4)[0] == 'r' && t.take(4)[1] == 'g' && t.take(4)[2] == 'b' && t.take(
                    4,
                )[3] == '(');
            }
        }
        return None;
    }
    assert(starts_with_seq(t, "rgb("@)) by {
        assert(t.take(4) =~= "rgb("@);
    }
    let b_lo = lo + 4;
    let b_hi = hi - 1;
    assert(v@.subrange(b_lo as int, b_hi as int) =~= t.subrange(4, t.len() - 1));
    let vals = rgb_values(&v, b_lo, b_hi);
    if vals.len() == 3 {
        Some((vals[0], vals[1], vals[2], alpha))
    } else {
        None
    }
}

} // verus!
