//! Incremental SHA-1 (FIPS 180-4), used once per WebSocket handshake.

use vstd::prelude::*;

verus! {

/// The five 32-bit chaining words of SHA-1.
pub type HashState = (u32, u32, u32, u32, u32);

/// The initial chaining value H(0).
pub open spec fn initial_state() -> HashState {
    (0x67452301u32, 0xEFCDAB89u32, 0x98BADCFEu32, 0x10325476u32, 0xC3D2E1F0u32)
}

/// Left rotation of a 32-bit word by `n` bits (0 < n < 32).
pub open spec fn rotl(x: u32, n: u32) -> u32 {
    (x << n) | (x >> ((32 - n) as u32))
}

/// Big-endian 32-bit word number `i` of a 64-byte block.
pub open spec fn be_word(block: Seq<u8>, i: int) -> u32 {
    ((block[4 * i] as u32) << 24u32) | ((block[4 * i + 1] as u32) << 16u32) | ((block[4 * i
        + 2] as u32) << 8u32) | (block[4 * i + 3] as u32)
}

/// The message schedule W(i) of a 64-byte block.
pub open spec fn sched(block: Seq<u8>, i: int) -> u32
    decreases i,
{
    if i < 16 {
        be_word(block, i)
    } else {
        rotl(
            sched(block, i - 3) ^ sched(block, i - 8) ^ sched(block, i - 14) ^ sched(block, i - 16),
            1,
        )
    }
}

/// The round function f(i) and constant K(i).
pub open spec fn round_fk(i: int, b: u32, c: u32, d: u32) -> (u32, u32) {
    if i < 20 {
        ((b & c) | ((!b) & d), 0x5A827999u32)
    } else if i < 40 {
        (b ^ c ^ d, 0x6ED9EBA1u32)
    } else if i < 60 {
        ((b & c) | (b & d) | (c & d), 0x8F1BBCDCu32)
    } else {
        (b ^ c ^ d, 0xCA62C1D6u32)
    }
}

/// One of the eighty rounds.
pub open spec fn step(s: HashState, i: int, w: u32) -> HashState {
    let fk = round_fk(i, s.1, s.2, s.3);
    let temp = rotl(s.0, 5).wrapping_add(fk.0).wrapping_add(s.4).wrapping_add(fk.1).wrapping_add(
        w,
    );
    (temp, s.0, rotl(s.1, 30), s.2, s.3)
}

/// The working variables after the first `n` rounds over `block`.
pub open spec fn rounds(h: HashState, block: Seq<u8>, n: int) -> HashState
    decreases n,
{
    if n <= 0 {
        h
    } else {
        step(rounds(h, block, n - 1), n - 1, sched(block, n - 1))
    }
}

/// The compression function: the chaining value after one 64-byte block.
pub open spec fn compress(h: HashState, block: Seq<u8>) -> HashState {
    let s = rounds(h, block, 80);
    (
        h.0.wrapping_add(s.0),
        h.1.wrapping_add(s.1),
        h.2.wrapping_add(s.2),
        h.3.wrapping_add(s.3),
        h.4.wrapping_add(s.4),
    )
}

/// The chaining value after compressing every whole 64-byte block of `m`,
/// front to back, starting from `h`; a trailing partial block is ignored.
pub open spec fn hash_from(h: HashState, m: Seq<u8>) -> HashState
    decreases m.len(),
{
    if m.len() < 64 {
        h
    } else {
        hash_from(compress(h, m.take(64)), m.skip(64))
    }
}

/// Number of zero bytes SHA-1 padding puts between 0x80 and the length.
pub open spec fn zero_pad_len(len: nat) -> nat {
    ((119 - (len % 64)) % 64) as nat
}

/// Big-endian bytes of a 64-bit value.
pub open spec fn be_u64_bytes(v: u64) -> Seq<u8> {
    seq![
        (v >> 56u64) as u8,
        (v >> 48u64) as u8,
        (v >> 40u64) as u8,
        (v >> 32u64) as u8,
        (v >> 24u64) as u8,
        (v >> 16u64) as u8,
        (v >> 8u64) as u8,
        v as u8,
    ]
}

/// Big-endian bytes of a 32-bit value.
pub open spec fn be_u32_bytes(v: u32) -> Seq<u8> {
    seq![(v >> 24u32) as u8, (v >> 16u32) as u8, (v >> 8u32) as u8, v as u8]
}

/// The padded message: `m`, a 0x80 byte, zeros, and the bit length.
pub open spec fn pad(m: Seq<u8>) -> Seq<u8> {
    m + seq![0x80u8] + Seq::new(zero_pad_len(m.len()), |i: int| 0u8) + be_u64_bytes(
        (m.len() * 8) as u64,
    )
}

/// The 20 digest bytes of a final chaining value.
pub open spec fn digest_bytes(h: HashState) -> Seq<u8> {
    be_u32_bytes(h.0) + be_u32_bytes(h.1) + be_u32_bytes(h.2) + be_u32_bytes(h.3) + be_u32_bytes(
        h.4,
    )
}

/// The SHA-1 digest of a byte string.
pub open spec fn sha1_digest(m: Seq<u8>) -> Seq<u8> {
    digest_bytes(hash_from(initial_state(), pad(m)))
}

/// Block-wise hashing composes: hashing `a` then `b` from where `a` left off
/// is hashing `a + b`, whenever `a` is a whole number of blocks.
pub proof fn lemma_hash_from_concat(h: HashState, a: Seq<u8>, b: Seq<u8>)
    requires
        a.len() % 64 == 0,
    ensures
        hash_from(h, a + b) == hash_from(hash_from(h, a), b),
    decreases a.len(),
{
    if a.len() == 0 {
        assert(a + b =~= b);
    } else {
        assert((a + b).take(64) =~= a.take(64));
        assert((a + b).skip(64) =~= a.skip(64) + b);
        lemma_hash_from_concat(compress(h, a.take(64)), a.skip(64), b);
    }
}

/// Hashing exactly one block is one compression.
pub proof fn lemma_hash_from_block(h: HashState, block: Seq<u8>)
    requires
        block.len() == 64,
    ensures
        hash_from(h, block) == compress(h, block),
{
    assert(block.take(64) =~= block);
    assert(block.skip(64).len() == 0);
    assert(hash_from(compress(h, block), block.skip(64)) == compress(h, block));
}

/// SHA-1 state that accepts input in pieces.
pub struct Sha1 {
    h: HashState,
    buf: Vec<u8>,
    total: u64,
    data: Ghost<Seq<u8>>,
}

fn rotl_exec(x: u32, n: u32) -> (r: u32)
    requires
        0 < n < 32,
    ensures
        r == rotl(x, n),
{
    (x << n) | (x >> (32 - n))
}

impl Sha1 {
    /// Every byte handed to `update` so far, in order.
    pub closed spec fn message(&self) -> Seq<u8> {
        self.data@
    }

    /// The hasher's running state: the chaining value, the buffered bytes
    /// not yet compressed, and the byte count.
    pub closed spec fn state(&self) -> (HashState, Seq<u8>, u64) {
        (self.h, self.buf@, self.total)
    }

    /// How a message was split across `update` calls never matters: two
    /// hashers holding the same message are in the same state (and so give
    /// the same digest).
    pub proof fn law_state_depends_on_message_only(x: Sha1, y: Sha1)
        requires
            x.wf(),
            y.wf(),
            x.message() == y.message(),
        ensures
            x.state() == y.state(),
    {
        let d = x.data@;
        let n = d.len() as int;
        let bx = x.buf@.len() as int;
        let by_ = y.buf@.len() as int;
        assert(bx == n % 64) by (nonlinear_arith)
            requires
                0 <= bx < 64,
                (n - bx) % 64 == 0,
                bx <= n,
        ;
        assert(by_ == n % 64) by (nonlinear_arith)
            requires
                0 <= by_ < 64,
                (n - by_) % 64 == 0,
                by_ <= n,
        ;
    }

    /// The buffered tail is the part of the message after the last whole
    /// block, and the chaining value covers every whole block before it.
    pub closed spec fn wf(&self) -> bool {
        let d = self.data@;
        let done = d.len() - self.buf@.len();
        &&& self.total as int == d.len()
        &&& self.buf@.len() < 64
        &&& self.buf@.len() <= d.len()
        &&& done % 64 == 0
        &&& self.buf@ == d.skip(done)
        &&& self.h == hash_from(initial_state(), d.take(done))
    }

    /// A fresh hasher with an empty message.
    pub fn new() -> (s: Self)
        ensures
            s.wf(),
            s.message() == Seq::<u8>::empty(),
    {
        let s = Sha1 {
            h: (0x67452301u32, 0xEFCDAB89u32, 0x98BADCFEu32, 0x10325476u32, 0xC3D2E1F0u32),
            buf: Vec::new(),
            total: 0,
            data: Ghost(Seq::empty()),
        };
        assert(s.data@.take(0) =~= Seq::<u8>::empty());
        assert(s.data@.skip(0) =~= s.buf@);
        s
    }

    /// Compresses the 64 bytes of `block` starting at `off` into the state.
    fn process_block(&mut self, block: &[u8], off: usize)
        requires
            off + 64 <= block@.len(),
        ensures
            final(self).h == compress(old(self).h, block@.subrange(off as int, off + 64)),
            final(self).buf == old(self).buf,
            final(self).total == old(self).total,
            final(self).data == old(self).data,
    {
        let ghost blk = block@.subrange(off as int, off + 64);
        let mut w: Vec<u32> = Vec::with_capacity(80);
        let blen = block.len();
        let mut i: usize = 0;
        while i < 16
            invariant
                i <= 16,
                blen == block@.len(),
                off + 64 <= block@.len(),
                blk == block@.subrange(off as int, off + 64),
                w@.len() == i,
                forall|j: int| 0 <= j < i ==> #[trigger] w@[j] == sched(blk, j),
            decreases 16 - i,
        {
            let k: usize = off + 4 * i;
            let word: u32 = ((block[k] as u32) << 24) | ((block[k + 1] as u32) << 16) | ((block[k
                + 2] as u32) << 8) | (block[k + 3] as u32);
            assert(word == be_word(blk, i as int));
            w.push(word);
            i = i + 1;
        }
        while i < 80
            invariant
                16 <= i <= 80,
                w@.len() == i,
                forall|j: int| 0 <= j < i ==> #[trigger] w@[j] == sched(blk, j),
            decreases 80 - i,
        {
            let x: u32 = w[i - 3] ^ w[i - 8] ^ w[i - 14] ^ w[i - 16];
            let nw = rotl_exec(x, 1);
            assert(nw == sched(blk, i as int));
            w.push(nw);
            i = i + 1;
        }
        let h0 = self.h;
        let (mut a, mut b, mut c, mut d, mut e) = h0;
        let mut r: usize = 0;
        while r < 80
            invariant
                r <= 80,
                w@.len() == 80,
                forall|j: int| 0 <= j < 80 ==> #[trigger] w@[j] == sched(blk, j),
                (a, b, c, d, e) == rounds(h0, blk, r as int),
            decreases 80 - r,
        {
            let (f, k): (u32, u32) = if r < 20 {
                ((b & c) | ((!b) & d), 0x5A827999u32)
            } else if r < 40 {
                (b ^ c ^ d, 0x6ED9EBA1u32)
            } else if r < 60 {
                ((b & c) | (b & d) | (c & d), 0x8F1BBCDCu32)
            } else {
                (b ^ c ^ d, 0xCA62C1D6u32)
            };
            let temp: u32 = rotl_exec(a, 5).wrapping_add(f).wrapping_add(e).wrapping_add(
                k,
            ).wrapping_add(w[r]);
            e = d;
            d = c;
            c = rotl_exec(b, 30);
            b = a;
            a = temp;
            r = r + 1;
        }
        self.h =
        (
            h0.0.wrapping_add(a),
            h0.1.wrapping_add(b),
            h0.2.wrapping_add(c),
            h0.3.wrapping_add(d),
            h0.4.wrapping_add(e),
        );
    }

    /// Appends `data` to the message, compressing every block it completes.
    pub fn update(&mut self, data: &[u8])
        requires
            old(self).wf(),
            old(self).message().len() + data@.len() <= u64::MAX,
        ensures
            final(self).wf(),
            final(self).message() == old(self).message() + data@,
    {
        let ghost d0 = self.data@;
        let ghost done0: int = d0.len() - self.buf@.len();
        self.total = self.total + data.len() as u64;
        self.data = Ghost(d0 + data@);
        let ghost dd = self.data@;
        let mut buf: Vec<u8> = Vec::new();
        std::mem::swap(&mut buf, &mut self.buf);
        assert(buf@ =~= dd.subrange(done0, d0.len() as int));
        let mut i: usize = 0;
        while i < data.len()
            invariant
                i <= data@.len(),
                buf@ == dd.subrange(done0, d0.len() + i),
                dd == d0 + data@,
                0 <= done0 <= d0.len(),
            decreases data@.len() - i,
        {
            buf.push(data[i]);
            i = i + 1;
        }
        assert(buf@ =~= dd.skip(done0));
        assert(dd.take(done0) =~= d0.take(done0));
        let mut off: usize = 0;
        while buf.len() - off >= 64
            invariant
                off <= buf@.len(),
                off % 64 == 0,
                buf@ == dd.skip(done0),
                0 <= done0,
                done0 % 64 == 0,
                done0 + buf@.len() == dd.len(),
                self.data@ == dd,
                self.total as int == dd.len(),
                self.h == hash_from(initial_state(), dd.take(done0 + off)),
            decreases buf@.len() - off,
        {
            let ghost hprev = self.h;
            self.process_block(&buf, off);
            proof {
                let blk = buf@.subrange(off as int, off + 64);
                assert(dd.take(done0 + off + 64) =~= dd.take(done0 + off) + blk);
                lemma_hash_from_concat(initial_state(), dd.take(done0 + off), blk);
                lemma_hash_from_block(hprev, blk);
            }
            off = off + 64;
        }
        let mut rest: Vec<u8> = Vec::new();
        let mut j: usize = off;
        while j < buf.len()
            invariant
                off <= j <= buf@.len(),
                rest@ == buf@.subrange(off as int, j as int),
            decreases buf@.len() - j,
        {
            rest.push(buf[j]);
            j = j + 1;
        }
        self.buf = rest;
        proof {
            assert(self.buf@ =~= dd.skip(done0 + off));
        }
    }

    /// Pads the message and returns its 20-byte digest.
    pub fn finalize(self) -> (out: [u8; 20])
        requires
            self.wf(),
            self.message().len() * 8 <= u64::MAX,
        ensures
            out@ == sha1_digest(self.message()),
    {
        let ghost d = self.data@;
        let ghost done: int = d.len() - self.buf@.len();
        let bit_len: u64 = self.total * 8;
        let mut me = self;
        let mut tail: Vec<u8> = Vec::new();
        std::mem::swap(&mut tail, &mut me.buf);
        let ghost h_before = me.h;
        assert(d.len() % 64 == tail@.len() % 64) by {
            assert(d.len() == done + tail@.len());
        }
        let buf = padded_tail(tail, bit_len);
        proof {
            assert(d =~= d.take(done) + d.skip(done));
            assert(pad(d) =~= d.take(done) + buf@);
            lemma_hash_from_concat(initial_state(), d.take(done), buf@);
        }
        me.process_block(&buf, 0);
        if buf.len() == 128 {
            proof {
                let b0 = buf@.subrange(0, 64);
                let b1 = buf@.subrange(64, 128);
                assert(buf@.take(64) =~= b0);
                assert(buf@.skip(64) =~= b1);
                lemma_hash_from_block(compress(h_before, b0), b1);
            }
            me.process_block(&buf, 64);
        } else {
            proof {
                assert(buf@.subrange(0, 64) =~= buf@);
                lemma_hash_from_block(h_before, buf@);
            }
        }
        digest_array(me.h)
    }
}

/// The padding SHA-1 appends after the final partial block `tail`.
fn padded_tail(tail: Vec<u8>, bit_len: u64) -> (buf: Vec<u8>)
    requires
        tail@.len() < 64,
    ensures
        buf@ == tail@ + seq![0x80u8] + Seq::new(zero_pad_len(tail@.len()), |i: int| 0u8)
            + be_u64_bytes(bit_len),
        buf@.len() == 64 || buf@.len() == 128,
{
    let ghost t = tail@;
    let mut buf = tail;
    let zeros: usize = (119 - buf.len()) % 64;
    buf.push(0x80u8);
    let mut z: usize = 0;
    while z < zeros
        invariant
            z <= zeros,
            buf@ == t + seq![0x80u8] + Seq::new(z as nat, |i: int| 0u8),
        decreases zeros - z,
    {
        buf.push(0u8);
        assert(buf@ =~= t + seq![0x80u8] + Seq::new((z + 1) as nat, |i: int| 0u8));
        z = z + 1;
    }
    buf.push((bit_len >> 56u64) as u8);
    buf.push((bit_len >> 48u64) as u8);
    buf.push((bit_len >> 40u64) as u8);
    buf.push((bit_len >> 32u64) as u8);
    buf.push((bit_len >> 24u64) as u8);
    buf.push((bit_len >> 16u64) as u8);
    buf.push((bit_len >> 8u64) as u8);
    buf.push(bit_len as u8);
    assert(buf@ =~= t + seq![0x80u8] + Seq::new(zeros as nat, |i: int| 0u8) + be_u64_bytes(
        bit_len,
    ));
    buf
}

/// The 20 big-endian bytes of the five chaining words.
fn digest_array(h: HashState) -> (out: [u8; 20])
    ensures
        out@ == digest_bytes(h),
{
    let (h0, h1, h2, h3, h4) = h;
    let out = [
        (h0 >> 24) as u8,
        (h0 >> 16) as u8,
        (h0 >> 8) as u8,
        h0 as u8,
        (h1 >> 24) as u8,
        (h1 >> 16) as u8,
        (h1 >> 8) as u8,
        h1 as u8,
        (h2 >> 24) as u8,
        (h2 >> 16) as u8,
        (h2 >> 8) as u8,
        h2 as u8,
        (h3 >> 24) as u8,
        (h3 >> 16) as u8,
        (h3 >> 8) as u8,
        h3 as u8,
        (h4 >> 24) as u8,
        (h4 >> 16) as u8,
        (h4 >> 8) as u8,
        h4 as u8,
    ];
    assert(out@ =~= digest_bytes(h));
    out
}

} // verus!
