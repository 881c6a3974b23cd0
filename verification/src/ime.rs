//! The soft-keyboard bridge's decisions: turning each change of the
//! keyboard's text buffer into editor key and text events, and when to show,
//! hide and re-seed the keyboard.
//!
//! The bridge keeps a mirror of the last text the keyboard committed. Each
//! frame it compares the keyboard's buffer with the mirror: characters that
//! disappeared become Backspace presses and new characters become text
//! (newlines become Enter presses); a composing region is forwarded as a
//! preedit instead. The buffer starts with a run of padding so that a
//! Backspace typed before anything else is still a visible change.

use vstd::prelude::*;
use vstd::string::*;
use vstd::utf8::*;
use crate::text::{chars_of, find_char, first_index_of, lemma_first_index_bound, str_eq};

verus! {

broadcast use vstd::utf8::group_utf8_lib;

/// Padding kept at the front of the keyboard's buffer (eight spaces).
pub open spec fn ime_pad() -> Seq<char> {
    "        "@
}

/// The buffer is re-seeded once it grows past this many bytes.
pub const MAX_BUFFER: usize = 2048;

// ---------------------------------------------------------------------------
// Diffing two buffers
// ---------------------------------------------------------------------------

/// Length of the longest common prefix of `o` and `n`.
pub open spec fn common_prefix(o: Seq<char>, n: Seq<char>) -> int
    decreases o.len(),
{
    if o.len() > 0 && n.len() > 0 && o[0] == n[0] {
        1 + common_prefix(o.drop_first(), n.drop_first())
    } else {
        0
    }
}

/// Length of the longest common suffix of `o` and `n` that leaves the
/// first `p` characters of each alone.
pub open spec fn common_suffix(o: Seq<char>, n: Seq<char>, p: int) -> int
    decreases o.len(),
{
    if o.len() > 0 && o.len() > p && n.len() > p && o.last() == n.last() {
        1 + common_suffix(o.drop_last(), n.drop_last(), p)
    } else {
        0
    }
}

/// How `n` differs from `o`: the number of characters of `o` removed
/// between the common prefix and the common suffix, and the characters of
/// `n` put in their place.
pub open spec fn diff_spec(o: Seq<char>, n: Seq<char>) -> (int, Seq<char>) {
    let p = common_prefix(o, n);
    let s = common_suffix(o, n, p);
    (o.len() - p - s, n.subrange(p, n.len() - s))
}

pub proof fn lemma_common_prefix(o: Seq<char>, n: Seq<char>)
    ensures
        0 <= common_prefix(o, n) <= o.len(),
        common_prefix(o, n) <= n.len(),
        forall|j: int| 0 <= j < common_prefix(o, n) ==> o[j] == n[j],
    decreases o.len(),
{
    if o.len() > 0 && n.len() > 0 && o[0] == n[0] {
        lemma_common_prefix(o.drop_first(), n.drop_first());
        assert forall|j: int| 0 <= j < common_prefix(o, n) implies o[j] == n[j] by {
            if j > 0 {
                assert(o[j] == o.drop_first()[j - 1]);
                assert(n[j] == n.drop_first()[j - 1]);
            }
        }
    }
}

/// The `j`-th characters from the end of `o` and of `n` agree.
pub open spec fn tail_match(o: Seq<char>, n: Seq<char>, j: int) -> bool {
    o[o.len() - 1 - j] == n[n.len() - 1 - j]
}

pub proof fn lemma_common_suffix(o: Seq<char>, n: Seq<char>, p: int)
    requires
        0 <= p,
    ensures
        0 <= common_suffix(o, n, p),
        p + common_suffix(o, n, p) <= o.len() || common_suffix(o, n, p) == 0,
        p + common_suffix(o, n, p) <= n.len() || common_suffix(o, n, p) == 0,
        forall|j: int| 0 <= j < common_suffix(o, n, p) ==> #[trigger] tail_match(o, n, j),
    decreases o.len(),
{
    if o.len() > 0 && o.len() > p && n.len() > p && o.last() == n.last() {
        let o2 = o.drop_last();
        let n2 = n.drop_last();
        lemma_common_suffix(o2, n2, p);
        assert forall|j: int| 0 <= j < common_suffix(o, n, p) implies #[trigger] tail_match(
            o,
            n,
            j,
        ) by {
            if j > 0 {
                assert(tail_match(o2, n2, j - 1));
                assert(o[o.len() - 1 - j] == o2[o2.len() - 1 - (j - 1)]);
                assert(n[n.len() - 1 - j] == n2[n2.len() - 1 - (j - 1)]);
            }
        }
    }
}

/// Replaying a diff on the old buffer gives the new one: keep the common
/// prefix, drop the deleted characters after it, put the inserted ones in
/// their place, and keep the rest.
pub proof fn law_diff_replays(o: Seq<char>, n: Seq<char>)
    ensures
        ({
            let p = common_prefix(o, n);
            let (deleted, inserted) = diff_spec(o, n);
            &&& 0 <= deleted
            &&& p + deleted <= o.len()
            &&& n == o.take(p) + inserted + o.skip(p + deleted)
        }),
{
    let p = common_prefix(o, n);
    lemma_common_prefix(o, n);
    let s = common_suffix(o, n, p);
    lemma_common_suffix(o, n, p);
    let (deleted, inserted) = diff_spec(o, n);
    assert(n =~= o.take(p) + inserted + o.skip(p + deleted)) by {
        assert forall|j: int| 0 <= j < n.len() implies n[j] == (o.take(p) + inserted + o.skip(
            p + deleted,
        ))[j] by {
            if j >= n.len() - s {
                let k = n.len() - 1 - j;
                assert(tail_match(o, n, k));
            }
        }
    }
}

/// How `new` differs from `old` (see `diff_spec`): the number of characters
/// deleted, and the characters inserted, between the common prefix and the
/// common suffix.
pub fn diff(old: &str, new: &str) -> (r: (usize, String))
    ensures
        r.0 == diff_spec(old@, new@).0,
        r.1@ == diff_spec(old@, new@).1,
{
    let o = chars_of(old);
    let n = chars_of(new);
    let olen = o.len();
    let nlen = n.len();
    let mut prefix: usize = 0;
    assert(o@.skip(0) =~= o@ && n@.skip(0) =~= n@);
    while prefix < olen && prefix < nlen && o[prefix] == n[prefix]
        invariant
            olen == o@.len(),
            nlen == n@.len(),
            prefix <= olen,
            prefix <= nlen,
            common_prefix(o@, n@) == prefix + common_prefix(
                o@.skip(prefix as int),
                n@.skip(prefix as int),
            ),
        decreases olen - prefix,
    {
        assert(o@.skip(prefix as int).drop_first() =~= o@.skip(prefix + 1));
        assert(n@.skip(prefix as int).drop_first() =~= n@.skip(prefix + 1));
        prefix = prefix + 1;
    }
    proof {
        assert(common_prefix(o@, n@) == prefix);
    }
    let mut suffix: usize = 0;
    assert(o@.take(olen as int) =~= o@ && n@.take(nlen as int) =~= n@);
    while suffix < olen - prefix && suffix < nlen - prefix && o[olen - 1 - suffix] == n[nlen - 1
        - suffix]
        invariant
            olen == o@.len(),
            nlen == n@.len(),
            prefix <= olen,
            prefix <= nlen,
            suffix <= olen - prefix,
            suffix <= nlen - prefix,
            common_suffix(o@, n@, prefix as int) == suffix + common_suffix(
                o@.take(olen - suffix),
                n@.take(nlen - suffix),
                prefix as int,
            ),
        decreases olen - prefix - suffix,
    {
        assert(o@.take(olen - suffix).drop_last() =~= o@.take(olen - suffix - 1));
        assert(n@.take(nlen - suffix).drop_last() =~= n@.take(nlen - suffix - 1));
        suffix = suffix + 1;
    }
    proof {
        assert(o@.take(olen as int) =~= o@);
    }
    let deleted = olen - prefix - suffix;
    let inserted = String::from_str(new.substring_char(prefix, nlen - suffix));
    (deleted, inserted)
}

// ---------------------------------------------------------------------------
// Events for the editor
// ---------------------------------------------------------------------------

/// The keys the bridge presses.
#[derive(PartialEq, Eq, Debug, Clone, Copy)]
pub enum ImeKey {
    Backspace,
    Enter,
}

/// An input event for the editor.
pub enum ImeOutput {
    /// A key pressed or released.
    Key { key: ImeKey, pressed: bool },
    /// Text typed.
    Text(String),
    /// The keyboard's current composition (empty to clear it).
    Preedit(String),
    /// A finished composition.
    Commit(String),
    /// The keyboard was opened.
    Enabled,
    /// The keyboard was closed.
    Disabled,
}

/// An input event, with its text as characters.
pub enum ImeOutputView {
    Key { key: ImeKey, pressed: bool },
    Text(Seq<char>),
    Preedit(Seq<char>),
    Commit(Seq<char>),
    Enabled,
    Disabled,
}

impl View for ImeOutput {
    type V = ImeOutputView;

    open spec fn view(&self) -> ImeOutputView {
        match self {
            ImeOutput::Key { key, pressed } => ImeOutputView::Key { key: *key, pressed: *pressed },
            ImeOutput::Text(t) => ImeOutputView::Text(t@),
            ImeOutput::Preedit(t) => ImeOutputView::Preedit(t@),
            ImeOutput::Commit(t) => ImeOutputView::Commit(t@),
            ImeOutput::Enabled => ImeOutputView::Enabled,
            ImeOutput::Disabled => ImeOutputView::Disabled,
        }
    }
}

/// The events of a list, each with its text as characters.
pub open spec fn events_view(e: Seq<ImeOutput>) -> Seq<ImeOutputView> {
    e.map_values(|x: ImeOutput| x@)
}

/// A press and a release of `key`.
pub open spec fn tap(key: ImeKey) -> Seq<ImeOutputView> {
    seq![ImeOutputView::Key { key, pressed: true }, ImeOutputView::Key { key, pressed: false }]
}

/// `d` taps of Backspace.
pub open spec fn backspaces(d: nat) -> Seq<ImeOutputView>
    decreases d,
{
    if d == 0 {
        Seq::empty()
    } else {
        backspaces((d - 1) as nat) + tap(ImeKey::Backspace)
    }
}

/// `s` with every `\r\n` and every other `\r` turned into `\n`.
pub open spec fn normalize_newlines(s: Seq<char>) -> Seq<char>
    decreases s.len(),
{
    if s.len() == 0 {
        s
    } else if s[0] == '\r' && s.len() >= 2 && s[1] == '\n' {
        seq!['\n'] + normalize_newlines(s.skip(2))
    } else if s[0] == '\r' {
        seq!['\n'] + normalize_newlines(s.skip(1))
    } else {
        seq![s[0]] + normalize_newlines(s.skip(1))
    }
}

/// The events for typed text: each line as text (empty lines give none),
/// with a tap of Enter between consecutive lines.
pub open spec fn line_events(s: Seq<char>) -> Seq<ImeOutputView>
    decreases s.len(),
{
    let i = first_index_of(s, '\n');
    let head = if i > 0 {
        seq![ImeOutputView::Text(s.take(i))]
    } else {
        Seq::empty()
    };
    if 0 <= i < s.len() {
        head + tap(ImeKey::Enter) + line_events(s.skip(i + 1))
    } else {
        head
    }
}

/// Appends a press and a release of `key`.
fn push_tap(events: &mut Vec<ImeOutput>, key: ImeKey)
    ensures
        events_view(final(events)@) == events_view(old(events)@) + tap(key),
{
    events.push(ImeOutput::Key { key, pressed: true });
    events.push(ImeOutput::Key { key, pressed: false });
    assert(events_view(events@) =~= events_view(old(events)@) + tap(key));
}

/// `s` with its line breaks normalised (see `normalize_newlines`).
pub fn normalize_line_breaks(s: &str) -> (r: String)
    ensures
        r@ == normalize_newlines(s@),
{
    let v = chars_of(s);
    let n = v.len();
    let mut out = String::new();
    let mut i: usize = 0;
    assert(v@.skip(0) =~= s@);
    while i < n
        invariant
            v@ == s@,
            n == v@.len(),
            i <= n,
            out@ + normalize_newlines(v@.skip(i as int)) == normalize_newlines(s@),
        decreases n - i,
    {
        let ghost rest = v@.skip(i as int);
        if v[i] == '\r' && i + 1 < n && v[i + 1] == '\n' {
            proof {
                assert(rest.skip(2) =~= v@.skip(i + 2));
                reveal_strlit("\n");
            }
            out.append("\n");
            assert(out@ + normalize_newlines(v@.skip(i + 2)) =~= normalize_newlines(s@));
            i = i + 2;
        } else if v[i] == '\r' {
            proof {
                assert(rest.skip(1) =~= v@.skip(i + 1));
                reveal_strlit("\n");
            }
            out.append("\n");
            assert(out@ + normalize_newlines(v@.skip(i + 1)) =~= normalize_newlines(s@));
            i = i + 1;
        } else {
            proof {
                assert(rest.skip(1) =~= v@.skip(i + 1));
            }
            let one = s.substring_char(i, i + 1);
            assert(one@ =~= seq![v@[i as int]]);
            out.append(one);
            assert(out@ + normalize_newlines(v@.skip(i + 1)) =~= normalize_newlines(s@));
            i = i + 1;
        }
    }
    assert(v@.skip(n as int) =~= Seq::<char>::empty());
    assert(out@ =~= normalize_newlines(s@));
    out
}

/// Appends the events for typed text `s` (see `line_events`).
fn push_lines(events: &mut Vec<ImeOutput>, s: &str)
    ensures
        events_view(final(events)@) == events_view(old(events)@) + line_events(s@),
{
    let v = chars_of(s);
    let n = v.len();
    let mut start: usize = 0;
    assert(v@.skip(0) =~= s@);
    assert(events_view(old(events)@) + line_events(s@) == events_view(events@) + line_events(
        v@.skip(0),
    ));
    loop
        invariant
            v@ == s@,
            n == v@.len(),
            start <= n,
            events_view(old(events)@) + line_events(s@) == events_view(events@) + line_events(
                v@.skip(start as int),
            ),
        decreases n - start,
    {
        let ghost rest = v@.skip(start as int);
        let nl = find_char(&v, start, n, '\n');
        proof {
            assert(v@.subrange(start as int, n as int) =~= rest);
            lemma_first_index_bound(rest, '\n');
        }
        let ghost before = events_view(events@);
        if nl > start {
            let line = s.substring_char(start, nl);
            assert(line@ =~= rest.take(nl - start));
            events.push(ImeOutput::Text(String::from_str(line)));
            assert(events_view(events@) =~= before + seq![ImeOutputView::Text(rest.take(nl - start))]);
        } else {
            assert(events_view(events@) =~= before);
        }
        if nl < n {
            push_tap(events, ImeKey::Enter);
            assert(rest.skip(nl - start + 1) =~= v@.skip(nl + 1));
            assert(events_view(old(events)@) + line_events(s@) =~= events_view(events@)
                + line_events(v@.skip(nl + 1)));
            start = nl + 1;
        } else {
            assert(events_view(old(events)@) + line_events(s@) =~= events_view(events@));
            return;
        }
    }
}

// ---------------------------------------------------------------------------
// The bridge's state
// ---------------------------------------------------------------------------

/// What the bridge remembers between frames.
pub struct ImeState {
    /// The editor has keyboard focus.
    pub active: bool,
    /// The keyboard's buffer as last committed.
    pub mirror: String,
    /// The keyboard has been seen on screen since it was last opened.
    pub seen_visible: bool,
    /// The keyboard holds a composing region.
    pub composing: bool,
    /// The last composition forwarded as a preedit.
    pub last_preedit: String,
}

/// The bridge's state, with its texts as characters.
pub struct ImeStateView {
    pub active: bool,
    pub mirror: Seq<char>,
    pub seen_visible: bool,
    pub composing: bool,
    pub last_preedit: Seq<char>,
}

impl View for ImeState {
    type V = ImeStateView;

    open spec fn view(&self) -> ImeStateView {
        ImeStateView {
            active: self.active,
            mirror: self.mirror@,
            seen_visible: self.seen_visible,
            composing: self.composing,
            last_preedit: self.last_preedit@,
        }
    }
}

/// The state before the keyboard has ever been used.
pub fn ime_state() -> (s: ImeState)
    ensures
        s@ == (ImeStateView {
            active: false,
            mirror: Seq::empty(),
            seen_visible: false,
            composing: false,
            last_preedit: Seq::empty(),
        }),
{
    ImeState {
        active: false,
        mirror: String::new(),
        seen_visible: false,
        composing: false,
        last_preedit: String::new(),
    }
}

/// The state after re-seeding the keyboard's buffer with the padding.
pub open spec fn reseeded(s: ImeStateView) -> ImeStateView {
    ImeStateView { mirror: ime_pad(), composing: false, last_preedit: Seq::empty(), ..s }
}

/// Re-seeds the mirror with the padding (the caller sets the keyboard's
/// buffer to the same text, caret at the end).
fn reseed(state: &mut ImeState)
    ensures
        final(state)@ == reseeded(old(state)@),
{
    state.mirror = String::from_str("        ");
    state.composing = false;
    state.last_preedit = String::new();
}

/// The text of a composing region given as byte offsets into the
/// keyboard's buffer, or, when the offsets do not delimit characters of it,
/// the text inserted since the mirror.
pub open spec fn compose_candidate(text: Seq<char>, mirror: Seq<char>, start: int, end: int) -> Seq<
    char,
> {
    let b = encode_utf8(text);
    if start <= end && end <= b.len() && is_char_boundary(b, start) && is_char_boundary(b, end) {
        decode_utf8(b.subrange(start, end))
    } else {
        diff_spec(mirror, text).1
    }
}

/// What one poll of the keyboard does: the next state, the events for the
/// editor, and whether the keyboard's buffer must be re-seeded.
pub open spec fn begin_frame_spec(
    s: ImeStateView,
    text: Seq<char>,
    text_bytes: int,
    compose: Option<(usize, usize)>,
) -> (ImeStateView, Seq<ImeOutputView>, bool) {
    if !s.active {
        (s, Seq::empty(), false)
    } else if compose is Some {
        let region = compose->Some_0;
        let c = compose_candidate(text, s.mirror, region.0 as int, region.1 as int);
        if !s.composing || c != s.last_preedit {
            (
                ImeStateView { composing: true, last_preedit: c, ..s },
                seq![ImeOutputView::Preedit(c)],
                false,
            )
        } else {
            (s, Seq::empty(), false)
        }
    } else if text == s.mirror && !s.composing {
        (s, Seq::empty(), false)
    } else {
        let (deleted, inserted) = diff_spec(s.mirror, text);
        let ins = normalize_newlines(inserted);
        let typed = if s.composing {
            seq![ImeOutputView::Preedit(Seq::empty())] + if ins.len() > 0 {
                seq![ImeOutputView::Commit(ins)]
            } else {
                Seq::empty()
            }
        } else {
            line_events(ins)
        };
        let next = ImeStateView { mirror: text, composing: false, last_preedit: Seq::empty(), ..s };
        let reseed = !(ime_pad().len() <= text.len() && text.take(ime_pad().len() as int)
            == ime_pad()) || text_bytes > MAX_BUFFER;
        (
            if reseed {
                reseeded(next)
            } else {
                next
            },
            backspaces(deleted as nat) + typed,
            reseed,
        )
    }
}

/// What one poll of the keyboard produced.
pub struct BeginFrame {
    /// Events for the editor, in order.
    pub events: Vec<ImeOutput>,
    /// The keyboard's buffer must be set back to the padding.
    pub reseed: bool,
}

/// The composing region's text (see `compose_candidate`).
fn candidate_text(text: &str, mirror: &str, start: usize, end: usize) -> (r: String)
    ensures
        r@ == compose_candidate(text@, mirror@, start as int, end as int),
{
    let ghost b = encode_utf8(text@);
    let blen = text.as_bytes().len();
    if start <= end && end <= blen && text.is_char_boundary(start) && text.is_char_boundary(end) {
        let (a, _) = text.split_at(end);
        assert(a.spec_bytes() =~= b.subrange(0, end as int));
        proof {
            let ab = a.spec_bytes();
            encode_utf8_valid_utf8(text@);
            encode_utf8_valid_utf8(a@);
            if start < end {
                assert(ab[start as int] == b[start as int]);
                is_char_boundary_iff_not_is_continuation_byte(b, start as int);
                is_char_boundary_iff_not_is_continuation_byte(ab, start as int);
            } else {
                is_char_boundary_start_end_of_seq(ab);
            }
        }
        let (_, c) = a.split_at(start);
        assert(c.spec_bytes() =~= b.subrange(start as int, end as int));
        proof {
            encode_utf8_decode_utf8(c@);
        }
        String::from_str(c)
    } else {
        let (_, ins) = diff(mirror, text);
        ins
    }
}

/// Polls the keyboard: compares its buffer `text` (and composing region,
/// as byte offsets) with the mirror and turns the change into editor
/// events (see `begin_frame_spec`).
pub fn begin_frame(state: &mut ImeState, text: String, compose: Option<(usize, usize)>) -> (r:
    BeginFrame)
    ensures
        (final(state)@, events_view(r.events@), r.reseed) == begin_frame_spec(
            old(state)@,
            text@,
            encode_utf8(text@).len() as int,
            compose,
        ),
{
    let mut events: Vec<ImeOutput> = Vec::new();
    if !state.active {
        return BeginFrame { events, reseed: false };
    }
    match compose {
        Some((start, end)) => {
            let candidate = candidate_text(text.as_str(), state.mirror.as_str(), start, end);
            if !state.composing || !str_eq(candidate.as_str(), state.last_preedit.as_str()) {
                let shown = String::from_str(candidate.as_str());
                events.push(ImeOutput::Preedit(shown));
                state.composing = true;
                state.last_preedit = candidate;
            }
            return BeginFrame { events, reseed: false };
        },
        None => {},
    }
    if str_eq(text.as_str(), state.mirror.as_str()) && !state.composing {
        return BeginFrame { events, reseed: false };
    }
    let (deleted, raw) = diff(state.mirror.as_str(), text.as_str());
    let inserted = normalize_line_breaks(raw.as_str());
    let finishing_composition = state.composing;
    let mut k: usize = 0;
    while k < deleted
        invariant
            k <= deleted,
            events_view(events@) == backspaces(k as nat),
        decreases deleted - k,
    {
        push_tap(&mut events, ImeKey::Backspace);
        k = k + 1;
    }
    if finishing_composition {
        events.push(ImeOutput::Preedit(String::new()));
        let ghost mid = events_view(events@);
        assert(mid =~= backspaces(deleted as nat) + seq![ImeOutputView::Preedit(Seq::empty())]);
        if inserted.as_str().unicode_len() > 0 {
            events.push(ImeOutput::Commit(inserted));
            assert(events_view(events@) =~= mid + seq![ImeOutputView::Commit(
                normalize_newlines(diff_spec(old(state)@.mirror, text@).1),
            )]);
        }
    } else {
        push_lines(&mut events, inserted.as_str());
    }
    assert(events_view(events@) == begin_frame_spec(
        old(state)@,
        text@,
        encode_utf8(text@).len() as int,
        compose,
    ).1);
    let text_bytes = text.as_str().as_bytes().len();
    state.mirror = text;
    state.composing = false;
    state.last_preedit = String::new();
    proof {
        reveal_strlit("        ");
    }
    let starts_with_pad = if state.mirror.as_str().unicode_len() >= 8 {
        let head = state.mirror.as_str().substring_char(0, 8);
        assert(head@ == text@.take(8));
        str_eq(head, "        ")
    } else {
        false
    };
    assert(starts_with_pad == (ime_pad().len() <= text@.len() && text@.take(
        ime_pad().len() as int,
    ) == ime_pad()));
    let reseed_needed = !starts_with_pad || text_bytes > MAX_BUFFER;
    if reseed_needed {
        reseed(state);
    }
    BeginFrame { events, reseed: reseed_needed }
}

/// Notes whether the keyboard is on screen; returns whether the editor
/// should give up keyboard focus because the user dismissed the keyboard
/// after it had appeared.
pub fn ime_visibility(state: &mut ImeState, system_visible: bool) -> (surrender: bool)
    ensures
        final(state)@ == (ImeStateView {
            seen_visible: old(state)@.seen_visible || (old(state)@.active && system_visible),
            ..old(state)@
        }),
        surrender == (old(state)@.active && (old(state)@.seen_visible || system_visible)
            && !system_visible),
{
    if state.active && system_visible {
        state.seen_visible = true;
    }
    state.active && state.seen_visible && !system_visible
}

/// What the end of a frame asks of the platform.
pub struct EndFrame {
    /// Events for the editor, in order.
    pub events: Vec<ImeOutput>,
    /// `Some(true)`: configure the keyboard for code, re-seed its buffer
    /// and show it; `Some(false)`: hide it.
    pub show_keyboard: Option<bool>,
}

/// Matches the keyboard to the editor's focus: opens it when the editor
/// starts wanting keyboard input, closes it when the editor stops.
pub fn end_frame(state: &mut ImeState, wants_keyboard: bool) -> (r: EndFrame)
    ensures
        wants_keyboard && !old(state)@.active ==> {
            &&& final(state)@ == reseeded(
                ImeStateView { active: true, seen_visible: false, ..old(state)@ },
            )
            &&& events_view(r.events@) == seq![ImeOutputView::Enabled]
            &&& r.show_keyboard == Some(true)
        },
        !wants_keyboard && old(state)@.active ==> {
            &&& final(state)@ == (ImeStateView {
                active: false,
                seen_visible: false,
                composing: false,
                last_preedit: Seq::empty(),
                ..old(state)@
            })
            &&& events_view(r.events@) == (if old(state)@.composing {
                seq![ImeOutputView::Preedit(Seq::empty()), ImeOutputView::Disabled]
            } else {
                seq![ImeOutputView::Disabled]
            })
            &&& r.show_keyboard == Some(false)
        },
        wants_keyboard == old(state)@.active ==> {
            &&& final(state)@ == old(state)@
            &&& r.events@.len() == 0
            &&& r.show_keyboard is None
        },
{
    let mut events: Vec<ImeOutput> = Vec::new();
    if wants_keyboard && !state.active {
        state.active = true;
        state.seen_visible = false;
        reseed(state);
        events.push(ImeOutput::Enabled);
        assert(events_view(events@) =~= seq![ImeOutputView::Enabled]);
        EndFrame { events, show_keyboard: Some(true) }
    } else if !wants_keyboard && state.active {
        if state.composing {
            events.push(ImeOutput::Preedit(String::new()));
        }
        events.push(ImeOutput::Disabled);
        assert(events_view(events@) =~= (if old(state)@.composing {
            seq![ImeOutputView::Preedit(Seq::empty()), ImeOutputView::Disabled]
        } else {
            seq![ImeOutputView::Disabled]
        }));
        state.active = false;
        state.seen_visible = false;
        state.composing = false;
        state.last_preedit = String::new();
        EndFrame { events, show_keyboard: Some(false) }
    } else {
        EndFrame { events, show_keyboard: None }
    }
}

/// After a poll that took in a committed change, the mirror still starts
/// with the padding, and it is either exactly the padding (just re-seeded)
/// or no longer than `MAX_BUFFER` bytes.
pub proof fn law_mirror_keeps_padding(
    s: ImeStateView,
    text: Seq<char>,
    compose: Option<(usize, usize)>,
)
    requires
        s.active,
        compose is None,
        !(text == s.mirror && !s.composing),
    ensures
        ({
            let next = begin_frame_spec(s, text, encode_utf8(text).len() as int, compose).0;
            &&& ime_pad().len() <= next.mirror.len()
            &&& next.mirror.take(ime_pad().len() as int) == ime_pad()
            &&& next.mirror == ime_pad() || encode_utf8(next.mirror).len() <= MAX_BUFFER
        }),
{
    reveal_strlit("        ");
    assert(ime_pad().take(8) =~= ime_pad());
}

// ---------------------------------------------------------------------------
// Replaying the events in the editor
// ---------------------------------------------------------------------------

/// One event applied to an editor holding `st.0` with its cursor at `st.1`:
/// a Backspace press removes the character before the cursor, an Enter
/// press, text and a commit are inserted at the cursor; releases, preedits
/// and the keyboard's opening and closing change no text.
pub open spec fn apply_event(st: (Seq<char>, int), e: ImeOutputView) -> (Seq<char>, int) {
    let (buf, cur) = st;
    match e {
        ImeOutputView::Key { key: ImeKey::Backspace, pressed: true } => if cur > 0 {
            (buf.take(cur - 1) + buf.skip(cur), cur - 1)
        } else {
            st
        },
        ImeOutputView::Key { key: ImeKey::Enter, pressed: true } => (
            buf.take(cur) + seq!['\n'] + buf.skip(cur),
            cur + 1,
        ),
        ImeOutputView::Text(t) => (buf.take(cur) + t + buf.skip(cur), cur + t.len()),
        ImeOutputView::Commit(t) => (buf.take(cur) + t + buf.skip(cur), cur + t.len()),
        _ => st,
    }
}

/// The events `ev` applied in order.
pub open spec fn replay(st: (Seq<char>, int), ev: Seq<ImeOutputView>) -> (Seq<char>, int)
    decreases ev.len(),
{
    if ev.len() == 0 {
        st
    } else {
        apply_event(replay(st, ev.drop_last()), ev.last())
    }
}

proof fn lemma_replay_concat(st: (Seq<char>, int), a: Seq<ImeOutputView>, b: Seq<ImeOutputView>)
    ensures
        replay(st, a + b) == replay(replay(st, a), b),
    decreases b.len(),
{
    if b.len() == 0 {
        assert(a + b =~= a);
    } else {
        assert((a + b).drop_last() =~= a + b.drop_last());
        lemma_replay_concat(st, a, b.drop_last());
    }
}

proof fn lemma_replay_one(st: (Seq<char>, int), e: ImeOutputView)
    ensures
        replay(st, seq![e]) == apply_event(st, e),
{
    assert(seq![e].drop_last() =~= Seq::<ImeOutputView>::empty());
    assert(seq![e].last() == e);
    assert(replay(st, Seq::<ImeOutputView>::empty()) == st);
}

proof fn lemma_replay_tap(st: (Seq<char>, int), key: ImeKey)
    ensures
        replay(st, tap(key)) == apply_event(st, ImeOutputView::Key { key, pressed: true }),
{
    let press = ImeOutputView::Key { key, pressed: true };
    let release = ImeOutputView::Key { key, pressed: false };
    assert(tap(key) =~= seq![press] + seq![release]);
    lemma_replay_concat(st, seq![press], seq![release]);
    lemma_replay_one(st, press);
    lemma_replay_one(apply_event(st, press), release);
}

proof fn lemma_replay_backspaces(buf: Seq<char>, cur: int, d: nat)
    requires
        d <= cur <= buf.len(),
    ensures
        replay((buf, cur), backspaces(d)) == (buf.take(cur - d) + buf.skip(cur), cur - d),
    decreases d,
{
    if d == 0 {
        assert(buf.take(cur) + buf.skip(cur) =~= buf);
    } else {
        let prev = backspaces((d - 1) as nat);
        lemma_replay_backspaces(buf, cur, (d - 1) as nat);
        lemma_replay_concat((buf, cur), prev, tap(ImeKey::Backspace));
        let mid = buf.take(cur - d + 1) + buf.skip(cur);
        lemma_replay_tap((mid, cur - d + 1), ImeKey::Backspace);
        assert(mid.take(cur - d) + mid.skip(cur - d + 1) =~= buf.take(cur - d) + buf.skip(cur));
    }
}

proof fn lemma_replay_insert(buf: Seq<char>, cur: int, t: Seq<char>)
    requires
        0 <= cur <= buf.len(),
    ensures
        replay((buf, cur), seq![ImeOutputView::Text(t)]) == (
            buf.take(cur) + t + buf.skip(cur),
            cur + t.len(),
        ),
        replay((buf, cur), seq![ImeOutputView::Commit(t)]) == (
            buf.take(cur) + t + buf.skip(cur),
            cur + t.len(),
        ),
{
    lemma_replay_one((buf, cur), ImeOutputView::Text(t));
    lemma_replay_one((buf, cur), ImeOutputView::Commit(t));
}

proof fn lemma_replay_lines(buf: Seq<char>, cur: int, s: Seq<char>)
    requires
        0 <= cur <= buf.len(),
    ensures
        replay((buf, cur), line_events(s)) == (buf.take(cur) + s + buf.skip(cur), cur + s.len()),
    decreases s.len(),
{
    let i = first_index_of(s, '\n');
    lemma_first_index_bound(s, '\n');
    let head = if i > 0 {
        seq![ImeOutputView::Text(s.take(i))]
    } else {
        Seq::empty()
    };
    let b1 = buf.take(cur) + s.take(i) + buf.skip(cur);
    let c1 = cur + i;
    assert(replay((buf, cur), head) == (b1, c1)) by {
        if i > 0 {
            lemma_replay_insert(buf, cur, s.take(i));
        } else {
            assert(b1 =~= buf);
        }
    }
    if 0 <= i < s.len() {
        let t = tap(ImeKey::Enter);
        lemma_replay_concat((buf, cur), head + t, line_events(s.skip(i + 1)));
        lemma_replay_concat((buf, cur), head, t);
        lemma_replay_tap((b1, c1), ImeKey::Enter);
        let b2 = b1.take(c1) + seq!['\n'] + b1.skip(c1);
        assert(b2.take(c1 + 1) =~= buf.take(cur) + s.take(i + 1));
        assert(b2.skip(c1 + 1) =~= buf.skip(cur));
        lemma_replay_lines(b2, c1 + 1, s.skip(i + 1));
        assert(s.take(i + 1) + s.skip(i + 1) =~= s);
        assert(buf.take(cur) + s.take(i + 1) + s.skip(i + 1) + buf.skip(cur) =~= buf.take(cur) + s
            + buf.skip(cur));
    } else {
        assert(s.take(i) =~= s);
    }
}

proof fn lemma_normalize_plain(s: Seq<char>)
    requires
        forall|k: int| 0 <= k < s.len() ==> s[k] != '\r',
    ensures
        normalize_newlines(s) == s,
    decreases s.len(),
{
    if s.len() > 0 {
        assert forall|k: int| 0 <= k < s.skip(1).len() implies s.skip(1)[k] != '\r' by {
            assert(s.skip(1)[k] == s[k + 1]);
        }
        lemma_normalize_plain(s.skip(1));
        assert(seq![s[0]] + s.skip(1) =~= s);
    }
}

/// Replaying a frame's events in the editor turns the mirror into the
/// keyboard's new buffer: with the editor's cursor just before the tail the
/// two buffers share, the Backspaces remove the characters that were
/// replaced, and the text, Enter presses and commit put the new ones in
/// their place (for a buffer without carriage returns, which are turned
/// into newlines). So in particular every Backspace comes before any text.
pub proof fn law_frame_events_replay(
    s: ImeStateView,
    text: Seq<char>,
    text_bytes: int,
)
    requires
        s.active,
        forall|k: int| 0 <= k < text.len() ==> text[k] != '\r',
    ensures
        ({
            let ev = begin_frame_spec(s, text, text_bytes, None).1;
            let p = common_prefix(s.mirror, text);
            let cursor = s.mirror.len() - common_suffix(s.mirror, text, p);
            replay((s.mirror, cursor), ev).0 == text
        }),
{
    let o = s.mirror;
    let p = common_prefix(o, text);
    let sfx = common_suffix(o, text, p);
    let cursor = o.len() - sfx;
    lemma_common_prefix(o, text);
    lemma_common_suffix(o, text, p);
    law_diff_replays(o, text);
    let ev = begin_frame_spec(s, text, text_bytes, None).1;
    if text == o && !s.composing {
        assert(ev.len() == 0);
    } else {
        let (deleted, inserted) = diff_spec(o, text);
        assert forall|k: int| 0 <= k < inserted.len() implies inserted[k] != '\r' by {
            assert(inserted[k] == text[p + k]);
        }
        lemma_normalize_plain(inserted);
        lemma_replay_backspaces(o, cursor, deleted as nat);
        let b1 = o.take(p) + o.skip(cursor);
        assert(b1.take(p) =~= o.take(p));
        assert(b1.skip(p) =~= o.skip(cursor));
        let typed = if s.composing {
            seq![ImeOutputView::Preedit(Seq::empty())] + if inserted.len() > 0 {
                seq![ImeOutputView::Commit(inserted)]
            } else {
                Seq::empty()
            }
        } else {
            line_events(inserted)
        };
        assert(ev == backspaces(deleted as nat) + typed);
        lemma_replay_concat((o, cursor), backspaces(deleted as nat), typed);
        if s.composing {
            let pre = seq![ImeOutputView::Preedit(Seq::<char>::empty())];
            lemma_replay_one((b1, p), ImeOutputView::Preedit(Seq::<char>::empty()));
            if inserted.len() > 0 {
                lemma_replay_concat((b1, p), pre, seq![ImeOutputView::Commit(inserted)]);
                lemma_replay_insert(b1, p, inserted);
            } else {
                assert(pre + Seq::<ImeOutputView>::empty() =~= pre);
                assert(o.take(p) + o.skip(cursor) =~= o.take(p) + inserted + o.skip(cursor));
            }
        } else {
            lemma_replay_lines(b1, p, inserted);
        }
    }
}

} // verus!
