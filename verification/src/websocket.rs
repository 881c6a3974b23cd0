//! The server side of the RFC 6455 WebSocket protocol that the Studio
//! companion plugin speaks: the opening handshake and text/ping framing.

use vstd::prelude::*;
use vstd::string::*;
use vstd::utf8::*;
use crate::base64::{base64_encode, base64_spec};
use crate::sha1::{Sha1, be_u64_bytes, sha1_digest};
use crate::text::{
    ascii_lower, chars_of, find_char, first_index_of, lemma_first_index_bound, lower_char,
    to_lower_char, trim, trim_range, utf8_lossy, utf8_lossy_chars,
};

verus! {

// ---------------------------------------------------------------------------
// Opening handshake
// ---------------------------------------------------------------------------

/// Largest request header the server reads before giving up.
pub const MAX_HANDSHAKE_BYTES: usize = 16384;

/// Longest key (in UTF-8 bytes) whose accept value can be computed: with
/// the GUID appended, the message's length in bits must fit in 64 bits.
pub const MAX_KEY_BYTES: u64 = 0x1FFF_FFFF_FFFF_FFDB;

/// Where reading the client's request header stands.
#[derive(PartialEq, Eq, Debug, Clone, Copy)]
pub enum HandshakeRead {
    /// The header is not finished yet: read another byte.
    NeedMore,
    /// The header ended with an empty line.
    Complete,
    /// More than `MAX_HANDSHAKE_BYTES` bytes arrived without an end.
    TooLarge,
}

/// The request read so far ends with `\r\n\r\n` (and is longer than that).
pub open spec fn ends_header(b: Seq<u8>) -> bool {
    b.len() > 4 && b[b.len() - 4] == 13u8 && b[b.len() - 3] == 10u8 && b[b.len() - 2] == 13u8
        && b[b.len() - 1] == 10u8
}

/// Decides, after each byte read, whether the request header is complete,
/// too large, or still arriving.
pub fn handshake_read_state(buf: &[u8]) -> (r: HandshakeRead)
    ensures
        r == (if ends_header(buf@) {
            HandshakeRead::Complete
        } else if buf@.len() > MAX_HANDSHAKE_BYTES {
            HandshakeRead::TooLarge
        } else {
            HandshakeRead::NeedMore
        }),
{
    let n = buf.len();
    if n > 4 && buf[n - 4] == 13 && buf[n - 3] == 10 && buf[n - 2] == 13 && buf[n - 1] == 10 {
        HandshakeRead::Complete
    } else if n > MAX_HANDSHAKE_BYTES {
        HandshakeRead::TooLarge
    } else {
        HandshakeRead::NeedMore
    }
}

/// The header name the key is sent under, compared in lower case.
pub open spec fn key_header_name() -> Seq<char> {
    "sec-websocket-key"@
}

/// The key carried by the line `t[a..e]`: the text after the first `:`,
/// trimmed, when the text before it is the key header's name.
pub open spec fn line_key(t: Seq<char>, a: int, e: int) -> Option<Seq<char>> {
    let line = t.subrange(a, e);
    let p = first_index_of(line, ':');
    if p < line.len() && ascii_lower(trim(line.take(p))) == key_header_name() {
        Some(trim(line.skip(p + 1)))
    } else {
        None
    }
}

/// End of the line starting at `start`: the first `\n` after it (or the end
/// of the text), less a `\r` just before that `\n`.
pub open spec fn line_end(t: Seq<char>, start: int) -> int {
    let nl = start + first_index_of(t.skip(start), '\n');
    if nl < t.len() && nl > start && t[nl - 1] == '\r' {
        nl - 1
    } else {
        nl
    }
}

/// The key of the first line from `start` on that carries one, reading the
/// text line by line as `str::lines` does.
pub open spec fn key_from(t: Seq<char>, start: int) -> Option<Seq<char>>
    decreases t.len() - start,
{
    if start < 0 || start >= t.len() {
        None
    } else {
        let nl = start + first_index_of(t.skip(start), '\n');
        proof {
            lemma_first_index_bound(t.skip(start), '\n');
        }
        match line_key(t, start, line_end(t, start)) {
            Some(v) => Some(v),
            None => if nl < t.len() {
                key_from(t, nl + 1)
            } else {
                None
            },
        }
    }
}

/// The `Sec-WebSocket-Key` value of a request header text.
pub open spec fn websocket_key(t: Seq<char>) -> Option<Seq<char>> {
    key_from(t, 0)
}

/// The key GUID of RFC 6455, as ASCII bytes
/// (`258EAFA5-E914-47DA-95CA-C5AB0DC85B11`).
pub open spec fn websocket_guid() -> Seq<u8> {
    seq![
        0x32u8, 0x35, 0x38, 0x45, 0x41, 0x46, 0x41, 0x35, 0x2d, 0x45, 0x39, 0x31, 0x34, 0x2d, 0x34,
        0x37, 0x44, 0x41, 0x2d, 0x39, 0x35, 0x43, 0x41, 0x2d, 0x43, 0x35, 0x41, 0x42, 0x30, 0x44,
        0x43, 0x38, 0x35, 0x42, 0x31, 0x31,
    ]
}

/// `Sec-WebSocket-Accept` for a key: base64 of SHA-1 of the key's UTF-8
/// bytes followed by the GUID.
pub open spec fn accept_for(key: Seq<char>) -> Seq<char> {
    base64_spec(sha1_digest(encode_utf8(key) + websocket_guid()))
}

/// The `101 Switching Protocols` response carrying `accept`.
pub open spec fn handshake_response_text(accept: Seq<char>) -> Seq<char> {
    "HTTP/1.1 101 Switching Protocols\r\nUpgrade: websocket\r\nConnection: Upgrade\r\nSec-WebSocket-Accept: "@
        + accept + "\r\n\r\n"@
}

/// Why the opening handshake was refused.
#[derive(PartialEq, Eq, Debug, Clone, Copy)]
pub enum HandshakeError {
    /// The request has no `Sec-WebSocket-Key` header line.
    MissingKey,
    /// The key is longer than `MAX_KEY_BYTES` bytes, too long to hash.
    KeyTooLong,
}

/// Whether `v[a..b]`, lower-cased, is the key header's name.
fn is_key_name(v: &Vec<char>, a: usize, b: usize) -> (r: bool)
    requires
        a <= b <= v@.len(),
    ensures
        r == (ascii_lower(v@.subrange(a as int, b as int)) == key_header_name()),
{
    let name = "sec-websocket-key";
    assert(name@ =~= key_header_name());
    let m = name.unicode_len();
    let ghost sub = v@.subrange(a as int, b as int);
    if b - a != m {
        assert(ascii_lower(v@.subrange(a as int, b as int)).len() != key_header_name().len());
        return false;
    }
    let mut k: usize = 0;
    while k < m
        invariant
            m == name@.len(),
            b - a == m,
            a <= b <= v@.len(),
            sub == v@.subrange(a as int, b as int),
            name@ == key_header_name(),
            k <= m,
            forall|j: int| 0 <= j < k ==> lower_char(#[trigger] v@[a + j]) == name@[j],
        decreases m - k,
    {
        if to_lower_char(v[a + k]) != name.get_char(k) {
            assert(sub[k as int] == v@[a + k]);
            assert(ascii_lower(sub)[k as int] == lower_char(sub[k as int]));
            assert(ascii_lower(sub)[k as int] != key_header_name()[k as int]);
            return false;
        }
        k = k + 1;
    }
    assert forall|j: int| 0 <= j < m implies ascii_lower(sub)[j] == key_header_name()[j] by {
        assert(sub[j] == v@[a + j]);
    }
    assert(ascii_lower(sub) =~= key_header_name());
    true
}

/// Finds the `Sec-WebSocket-Key` header in the request text `v` and returns
/// the character range of its trimmed value.
pub fn find_websocket_key(v: &Vec<char>) -> (r: Option<(usize, usize)>)
    ensures
        match r {
            Some((a, b)) => a <= b <= v@.len() && websocket_key(v@) == Some(
                v@.subrange(a as int, b as int),
            ),
            None => websocket_key(v@) is None,
        },
{
    let n = v.len();
    let mut start: usize = 0;
    while start < n
        invariant
            n == v@.len(),
            start <= n,
            websocket_key(v@) == key_from(v@, start as int),
        decreases n - start,
    {
        let nl = find_char(v, start, n, '\n');
        assert(v@.subrange(start as int, n as int) =~= v@.skip(start as int));
        let e = if nl < n && nl > start && v[nl - 1] == '\r' {
            nl - 1
        } else {
            nl
        };
        assert(e == line_end(v@, start as int));
        let p = find_char(v, start, e, ':');
        let ghost line = v@.subrange(start as int, e as int);
        assert(p - start == first_index_of(line, ':'));
        if p < e {
            let (na, nb) = trim_range(v, start, p);
            assert(line.take(p - start) =~= v@.subrange(start as int, p as int));
            if is_key_name(v, na, nb) {
                let (va, vb) = trim_range(v, p + 1, e);
                assert(line.skip(p - start + 1) =~= v@.subrange(p + 1, e as int));
                return Some((va, vb));
            }
        }
        assert(line_key(v@, start as int, e as int) is None);
        if nl < n {
            start = nl + 1;
        } else {
            return None;
        }
    }
    None
}

/// Computes `Sec-WebSocket-Accept` for `key`.
pub fn accept_key(key: &str) -> (r: String)
    requires
        key.spec_bytes().len() <= MAX_KEY_BYTES,
    ensures
        r@ == accept_for(key@),
{
    let guid: [u8; 36] = [
        0x32, 0x35, 0x38, 0x45, 0x41, 0x46, 0x41, 0x35, 0x2d, 0x45, 0x39, 0x31, 0x34, 0x2d, 0x34,
        0x37, 0x44, 0x41, 0x2d, 0x39, 0x35, 0x43, 0x41, 0x2d, 0x43, 0x35, 0x41, 0x42, 0x30, 0x44,
        0x43, 0x38, 0x35, 0x42, 0x31, 0x31,
    ];
    assert(guid@ =~= websocket_guid());
    let mut sha = Sha1::new();
    sha.update(key.as_bytes());
    sha.update(guid.as_slice());
    let digest = sha.finalize();
    base64_encode(digest.as_slice())
}

/// Handles the opening handshake: finds the key in the request header
/// `request` (decoded lossily as UTF-8) and builds the response.
pub fn handshake_response(request: &[u8]) -> (r: Result<String, HandshakeError>)
    ensures
        match websocket_key(utf8_lossy_chars(request@)) {
            None => r == Err::<String, HandshakeError>(HandshakeError::MissingKey),
            Some(k) => if encode_utf8(k).len() > MAX_KEY_BYTES {
                r == Err::<String, HandshakeError>(HandshakeError::KeyTooLong)
            } else {
                r is Ok && r->Ok_0@ == handshake_response_text(accept_for(k))
            },
        },
{
    let text = utf8_lossy(request);
    let chars = chars_of(text.as_str());
    match find_websocket_key(&chars) {
        None => Err(HandshakeError::MissingKey),
        Some((a, b)) => {
            let key = text.as_str().substring_char(a, b);
            let klen = key.as_bytes().len();
            assert(klen == key.spec_bytes().len());
            if klen as u64 > MAX_KEY_BYTES {
                Err(HandshakeError::KeyTooLong)
            } else {
                let accept = accept_key(key);
                let mut resp = String::from_str(
                    "HTTP/1.1 101 Switching Protocols\r\nUpgrade: websocket\r\nConnection: Upgrade\r\nSec-WebSocket-Accept: ",
                );
                resp.append(accept.as_str());
                resp.append("\r\n\r\n");
                Ok(resp)
            }
        },
    }
}

// ---------------------------------------------------------------------------
// Framing
// ---------------------------------------------------------------------------

/// Largest payload a received frame may declare (16 MiB).
pub const MAX_FRAME_PAYLOAD: u64 = 0x100_0000;

/// The 7-bit length field of a frame header.
pub open spec fn len7(b: Seq<u8>) -> u8 {
    b[1] & 0x7Fu8
}

/// The mask bit of a frame header.
pub open spec fn is_masked(b: Seq<u8>) -> bool {
    b[1] & 0x80u8 != 0
}

/// Offset of the masking key (just after the extended length, if any).
pub open spec fn mask_start(b: Seq<u8>) -> int {
    if len7(b) == 126 {
        4
    } else if len7(b) == 127 {
        10
    } else {
        2
    }
}

/// Offset of the payload.
pub open spec fn payload_start(b: Seq<u8>) -> int {
    mask_start(b) + if is_masked(b) {
        4int
    } else {
        0int
    }
}

/// The header (lengths and masking key) has fully arrived.
pub open spec fn header_complete(b: Seq<u8>) -> bool {
    b.len() >= 2 && b.len() >= payload_start(b)
}

/// The declared payload length.
pub open spec fn payload_len(b: Seq<u8>) -> u64 {
    if len7(b) == 126 {
        ((b[2] as u64) << 8u64) | (b[3] as u64)
    } else if len7(b) == 127 {
        ((b[2] as u64) << 56u64) | ((b[3] as u64) << 48u64) | ((b[4] as u64) << 40u64) | ((
        b[5] as u64) << 32u64) | ((b[6] as u64) << 24u64) | ((b[7] as u64) << 16u64) | ((
        b[8] as u64) << 8u64) | (b[9] as u64)
    } else {
        len7(b) as u64
    }
}

/// The payload, unmasked with the masking key when the mask bit is set.
pub open spec fn unmasked_payload(b: Seq<u8>) -> Seq<u8> {
    let ps = payload_start(b);
    let ms = mask_start(b);
    Seq::new(
        payload_len(b) as nat,
        |i: int|
            if is_masked(b) {
                b[ps + i] ^ b[ms + (i % 4)]
            } else {
                b[ps + i]
            },
    )
}

/// A frame as read off the wire.
pub struct RawFrame {
    pub fin: bool,
    pub opcode: u8,
    pub payload: Vec<u8>,
}

/// The outcome of decoding the bytes received so far.
pub enum FrameDecode {
    /// More bytes are needed.
    Incomplete,
    /// The frame declares a payload larger than `MAX_FRAME_PAYLOAD`.
    TooLarge,
    /// A whole frame, and the number of bytes it took.
    Complete(RawFrame, usize),
}

/// The frame at the start of `b` is fully present.
pub open spec fn frame_complete(b: Seq<u8>) -> bool {
    header_complete(b) && payload_len(b) <= MAX_FRAME_PAYLOAD && b.len() >= payload_start(b)
        + payload_len(b)
}

/// What decoding `b` yields, stated field by field.
pub open spec fn decodes_to(b: Seq<u8>, r: FrameDecode) -> bool {
    match r {
        FrameDecode::Incomplete => !header_complete(b) || (payload_len(b) <= MAX_FRAME_PAYLOAD
            && b.len() < payload_start(b) + payload_len(b)),
        FrameDecode::TooLarge => header_complete(b) && payload_len(b) > MAX_FRAME_PAYLOAD,
        FrameDecode::Complete(f, n) => {
            &&& frame_complete(b)
            &&& f.fin == (b[0] & 0x80u8 != 0)
            &&& f.opcode == b[0] & 0x0Fu8
            &&& f.payload@ == unmasked_payload(b)
            &&& n == payload_start(b) + payload_len(b)
        },
    }
}

/// Decodes the frame at the start of `buf`.
pub fn decode_frame(buf: &[u8]) -> (r: FrameDecode)
    ensures
        decodes_to(buf@, r),
{
    let n = buf.len();
    if n < 2 {
        return FrameDecode::Incomplete;
    }
    let b0 = buf[0];
    let b1 = buf[1];
    let l7: u8 = b1 & 0x7F;
    let masked = b1 & 0x80 != 0;
    let ms: usize = if l7 == 126 {
        4
    } else if l7 == 127 {
        10
    } else {
        2
    };
    let ps: usize = if masked {
        ms + 4
    } else {
        ms
    };
    if n < ps {
        return FrameDecode::Incomplete;
    }
    let len: u64 = if l7 == 126 {
        ((buf[2] as u64) << 8) | (buf[3] as u64)
    } else if l7 == 127 {
        ((buf[2] as u64) << 56) | ((buf[3] as u64) << 48) | ((buf[4] as u64) << 40) | ((
        buf[5] as u64) << 32) | ((buf[6] as u64) << 24) | ((buf[7] as u64) << 16) | ((
        buf[8] as u64) << 8) | (buf[9] as u64)
    } else {
        l7 as u64
    };
    assert(len == payload_len(buf@));
    if len > MAX_FRAME_PAYLOAD {
        return FrameDecode::TooLarge;
    }
    let plen = len as usize;
    if n - ps < plen {
        return FrameDecode::Incomplete;
    }
    let mut payload: Vec<u8> = Vec::with_capacity(plen);
    let mut i: usize = 0;
    while i < plen
        invariant
            i <= plen,
            plen == payload_len(buf@),
            ps == payload_start(buf@),
            ms == mask_start(buf@),
            masked == is_masked(buf@),
            n == buf@.len(),
            ps + plen <= buf@.len(),
            ms + 4 <= buf@.len() || !masked,
            payload@ == unmasked_payload(buf@).take(i as int),
        decreases plen - i,
    {
        let byte = buf[ps + i];
        let v = if masked {
            byte ^ buf[ms + (i % 4)]
        } else {
            byte
        };
        payload.push(v);
        assert(payload@ =~= unmasked_payload(buf@).take(i + 1));
        i = i + 1;
    }
    assert(payload@ =~= unmasked_payload(buf@));
    FrameDecode::Complete(RawFrame { fin: b0 & 0x80 != 0, opcode: b0 & 0x0F, payload }, ps + plen)
}

/// A decoded message, by opcode.
pub enum Frame {
    Text(String),
    Binary(Vec<u8>),
    Close,
    Ping(Vec<u8>),
    Pong(Vec<u8>),
}

/// What a frame with `opcode` and `payload` means: text frames are decoded
/// lossily as UTF-8, and unknown opcodes are treated as binary.
pub open spec fn frame_means(opcode: u8, payload: Seq<u8>, f: Frame) -> bool {
    match f {
        Frame::Text(s) => opcode == 1 && s@ == utf8_lossy_chars(payload) && (valid_utf8(payload)
            ==> s@ == decode_utf8(payload)),
        Frame::Binary(p) => opcode != 1 && opcode != 8 && opcode != 9 && opcode != 10 && p@
            == payload,
        Frame::Close => opcode == 8,
        Frame::Ping(p) => opcode == 9 && p@ == payload,
        Frame::Pong(p) => opcode == 10 && p@ == payload,
    }
}

/// Interprets a raw frame.
pub fn frame_from_raw(raw: RawFrame) -> (f: Frame)
    ensures
        frame_means(raw.opcode, raw.payload@, f),
{
    match raw.opcode {
        1 => Frame::Text(utf8_lossy(raw.payload.as_slice())),
        8 => Frame::Close,
        9 => Frame::Ping(raw.payload),
        10 => Frame::Pong(raw.payload),
        _ => Frame::Binary(raw.payload),
    }
}

/// The length field of a server frame carrying `n` payload bytes.
pub open spec fn length_field(n: nat) -> Seq<u8> {
    if n < 126 {
        seq![n as u8]
    } else if n <= 0xFFFF {
        seq![126u8, (n / 256) as u8, (n % 256) as u8]
    } else {
        seq![127u8] + be_u64_bytes(n as u64)
    }
}

/// An unmasked, final text frame with payload `p`.
pub open spec fn text_frame(p: Seq<u8>) -> Seq<u8> {
    seq![0x81u8] + length_field(p.len()) + p
}

/// A pong frame echoing `data`; its one-byte length is `data.len()` cut to
/// eight bits.
pub open spec fn pong_frame(data: Seq<u8>) -> Seq<u8> {
    seq![0x8Au8, data.len() as u8] + data
}

/// The bytes of a final, unmasked text frame carrying `text`.
pub fn encode_text_frame(text: &str) -> (out: Vec<u8>)
    ensures
        out@ == text_frame(text.spec_bytes()),
{
    let payload = text.as_bytes();
    let len = payload.len();
    let mut out: Vec<u8> = Vec::new();
    out.push(0x81u8);
    if len < 126 {
        out.push(len as u8);
    } else if len <= 0xFFFF {
        out.push(126u8);
        out.push((len / 256) as u8);
        out.push((len % 256) as u8);
    } else {
        let l = len as u64;
        out.push(127u8);
        out.push((l >> 56u64) as u8);
        out.push((l >> 48u64) as u8);
        out.push((l >> 40u64) as u8);
        out.push((l >> 32u64) as u8);
        out.push((l >> 24u64) as u8);
        out.push((l >> 16u64) as u8);
        out.push((l >> 8u64) as u8);
        out.push(l as u8);
    }
    let ghost hdr = out@;
    assert(hdr =~= seq![0x81u8] + length_field(len as nat));
    let mut i: usize = 0;
    while i < len
        invariant
            i <= len,
            len == payload@.len(),
            out@ == hdr + payload@.take(i as int),
        decreases len - i,
    {
        out.push(payload[i]);
        assert(out@ =~= hdr + payload@.take(i + 1));
        i = i + 1;
    }
    assert(payload@.take(len as int) =~= payload@);
    out
}

/// The bytes of a pong frame echoing `data`.
pub fn encode_pong(data: &[u8]) -> (out: Vec<u8>)
    ensures
        out@ == pong_frame(data@),
{
    let mut out: Vec<u8> = Vec::new();
    out.push(0x8Au8);
    out.push(data.len() as u8);
    let n = data.len();
    let mut i: usize = 0;
    while i < n
        invariant
            i <= n,
            n == data@.len(),
            out@ == seq![0x8Au8, data@.len() as u8] + data@.take(i as int),
        decreases n - i,
    {
        out.push(data[i]);
        assert(out@ =~= seq![0x8Au8, data@.len() as u8] + data@.take(i + 1));
        i = i + 1;
    }
    assert(data@.take(n as int) =~= data@);
    out
}

/// What the connection loop does with a received frame.
pub enum FrameAction {
    /// Hand the text to the message parser.
    Deliver(String),
    /// Write these bytes back to the client.
    Reply(Vec<u8>),
    /// End the connection.
    Close,
    /// Nothing to do.
    Ignore,
}

/// Text is delivered, a ping is answered with a pong carrying its payload,
/// a close ends the connection, and binary frames and pongs are ignored.
pub fn frame_action(f: Frame) -> (a: FrameAction)
    ensures
        match f {
            Frame::Text(s) => a == FrameAction::Deliver(s),
            Frame::Ping(d) => a is Reply && a->Reply_0@ == pong_frame(d@),
            Frame::Close => a is Close,
            _ => a is Ignore,
        },
{
    match f {
        Frame::Text(s) => FrameAction::Deliver(s),
        Frame::Ping(d) => FrameAction::Reply(encode_pong(d.as_slice())),
        Frame::Close => FrameAction::Close,
        Frame::Binary(_) => FrameAction::Ignore,
        Frame::Pong(_) => FrameAction::Ignore,
    }
}

// ---------------------------------------------------------------------------
// Laws
// ---------------------------------------------------------------------------

/// Reassembling the big-endian bytes of a 64-bit value gives it back.
proof fn lemma_be_u64_roundtrip(v: u64)
    ensures
        ((((v >> 56u64) as u8) as u64) << 56u64) | ((((v >> 48u64) as u8) as u64) << 48u64) | ((((v
            >> 40u64) as u8) as u64) << 40u64) | ((((v >> 32u64) as u8) as u64) << 32u64) | ((((v
            >> 24u64) as u8) as u64) << 24u64) | ((((v >> 16u64) as u8) as u64) << 16u64) | ((((v
            >> 8u64) as u8) as u64) << 8u64) | ((v as u8) as u64) == v,
{
    assert(((((v >> 56u64) as u8) as u64) << 56u64) | ((((v >> 48u64) as u8) as u64) << 48u64) | ((((v
        >> 40u64) as u8) as u64) << 40u64) | ((((v >> 32u64) as u8) as u64) << 32u64) | ((((v
        >> 24u64) as u8) as u64) << 24u64) | ((((v >> 16u64) as u8) as u64) << 16u64) | ((((v
        >> 8u64) as u8) as u64) << 8u64) | ((v as u8) as u64) == v) by (bit_vector);
}

/// A text frame the server writes reads back as the same text: at the
/// start of any byte stream, the decoder finds a complete, final, unmasked
/// text frame that takes exactly the frame's bytes, whose payload is the
/// text's UTF-8 encoding and decodes to the text.
pub proof fn law_text_frame_roundtrip(t: Seq<char>, rest: Seq<u8>)
    requires
        encode_utf8(t).len() <= MAX_FRAME_PAYLOAD,
    ensures
        ({
            let p = encode_utf8(t);
            let b = text_frame(p) + rest;
            &&& frame_complete(b)
            &&& b[0] & 0x80u8 != 0
            &&& b[0] & 0x0Fu8 == 1
            &&& !is_masked(b)
            &&& unmasked_payload(b) == p
            &&& payload_start(b) + payload_len(b) == text_frame(p).len()
            &&& decode_utf8(unmasked_payload(b)) == t
        }),
{
    let p = encode_utf8(t);
    let n = p.len();
    let b = text_frame(p) + rest;
    assert(0x81u8 & 0x80u8 != 0 && 0x81u8 & 0x0Fu8 == 1) by (bit_vector);
    assert(b[0] == 0x81u8);
    if n < 126 {
        let x = n as u8;
        assert(b[1] == x);
        assert(x & 0x7Fu8 == x && x & 0x80u8 == 0) by (bit_vector)
            requires
                x < 126,
        ;
        assert(payload_start(b) == 2);
    } else if n <= 0xFFFF {
        let v = n as u64;
        assert(b[1] == 126u8 && b[2] == (n / 256) as u8 && b[3] == (n % 256) as u8);
        assert(126u8 & 0x7Fu8 == 126u8 && 126u8 & 0x80u8 == 0) by (bit_vector);
        assert(((((v / 256) as u8) as u64) << 8u64) | (((v % 256) as u8) as u64) == v)
            by (bit_vector)
            requires
                v <= 0xFFFF,
        ;
        assert(payload_start(b) == 4);
    } else {
        let v = n as u64;
        assert(b[1] == 127u8);
        assert(127u8 & 0x7Fu8 == 127u8 && 127u8 & 0x80u8 == 0) by (bit_vector);
        assert(b.subrange(2, 10) =~= be_u64_bytes(v));
        lemma_be_u64_roundtrip(v);
        assert(payload_start(b) == 10);
    }
    assert(payload_len(b) == n);
    assert(unmasked_payload(b) =~= p);
    encode_utf8_decode_utf8(t);
}

/// A pong the server writes reads back as a final pong carrying the same
/// data, for data shorter than 126 bytes (longer data overflows the
/// one-byte length the server writes).
pub proof fn law_pong_roundtrip(data: Seq<u8>, rest: Seq<u8>)
    requires
        data.len() < 126,
    ensures
        ({
            let b = pong_frame(data) + rest;
            &&& frame_complete(b)
            &&& b[0] & 0x80u8 != 0
            &&& b[0] & 0x0Fu8 == 10
            &&& unmasked_payload(b) == data
            &&& payload_start(b) + payload_len(b) == pong_frame(data).len()
        }),
{
    let b = pong_frame(data) + rest;
    let x = data.len() as u8;
    assert(0x8Au8 & 0x80u8 != 0 && 0x8Au8 & 0x0Fu8 == 10) by (bit_vector);
    assert(b[0] == 0x8Au8 && b[1] == x);
    assert(x & 0x7Fu8 == x && x & 0x80u8 == 0) by (bit_vector)
        requires
            x < 126,
    ;
    assert(payload_len(b) == data.len());
    assert(unmasked_payload(b) =~= data);
}

} // verus!
