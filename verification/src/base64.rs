//! Standard base64 (RFC 4648 alphabet, `=` padding) encoding.

use vstd::prelude::*;
use vstd::string::*;

verus! {

/// The 64 symbols of the standard alphabet, in value order.
pub open spec fn b64_alphabet() -> Seq<char> {
    "ABCDEFGHIJKLMNOPQRSTUVWXYZabcdefghijklmnopqrstuvwxyz0123456789+/"@
}

/// Three bytes packed big-endian into the low 24 bits of a word.
pub open spec fn triple(b0: u8, b1: u8, b2: u8) -> u32 {
    ((b0 as u32) << 16u32) | ((b1 as u32) << 8u32) | (b2 as u32)
}

/// The 6-bit group of `t` that starts `shift` bits up.
pub open spec fn sextet(t: u32, shift: u32) -> int {
    ((t >> shift) & 0x3Fu32) as int
}

/// The four symbols for the first (up to) three bytes of `d`.
pub open spec fn b64_group(d: Seq<u8>) -> Seq<char> {
    let b1: u8 = if d.len() > 1 {
        d[1]
    } else {
        0u8
    };
    let b2: u8 = if d.len() > 2 {
        d[2]
    } else {
        0u8
    };
    let t = triple(d[0], b1, b2);
    let a = b64_alphabet();
    seq![
        a[sextet(t, 18)],
        a[sextet(t, 12)],
        if d.len() > 1 {
            a[sextet(t, 6)]
        } else {
            '='
        },
        if d.len() > 2 {
            a[sextet(t, 0)]
        } else {
            '='
        },
    ]
}

/// Base64 of `d`: one group of four symbols per three input bytes, the last
/// group padded with `=` for a missing byte.
pub open spec fn base64_spec(d: Seq<u8>) -> Seq<char>
    decreases d.len(),
{
    if d.len() == 0 {
        Seq::empty()
    } else if d.len() <= 3 {
        b64_group(d)
    } else {
        b64_group(d) + base64_spec(d.skip(3))
    }
}

/// Base64 output is four symbols for every started group of three input
/// bytes.
pub proof fn law_base64_length(d: Seq<u8>)
    ensures
        base64_spec(d).len() == 4 * ((d.len() + 2) / 3),
    decreases d.len(),
{
    if d.len() > 3 {
        law_base64_length(d.skip(3));
    }
}

/// Every symbol of base64 output is from the alphabet or is the padding
/// `=`.
pub proof fn law_base64_alphabet(d: Seq<u8>)
    ensures
        forall|i: int|
            0 <= i < base64_spec(d).len() ==> (b64_alphabet().contains(#[trigger] base64_spec(d)[i])
                || base64_spec(d)[i] == '='),
    decreases d.len(),
{
    reveal_strlit("ABCDEFGHIJKLMNOPQRSTUVWXYZabcdefghijklmnopqrstuvwxyz0123456789+/");
    if d.len() > 0 {
        let g = b64_group(d);
        let b1: u8 = if d.len() > 1 {
            d[1]
        } else {
            0u8
        };
        let b2: u8 = if d.len() > 2 {
            d[2]
        } else {
            0u8
        };
        let t = triple(d[0], b1, b2);
        assert(0 <= sextet(t, 18) < 64 && 0 <= sextet(t, 12) < 64 && 0 <= sextet(t, 6) < 64 && 0
            <= sextet(t, 0) < 64) by {
            assert(t >> 18u32 & 0x3Fu32 < 64u32) by (bit_vector);
            assert(t >> 12u32 & 0x3Fu32 < 64u32) by (bit_vector);
            assert(t >> 6u32 & 0x3Fu32 < 64u32) by (bit_vector);
            assert(t >> 0u32 & 0x3Fu32 < 64u32) by (bit_vector);
        }
        assert(forall|i: int| 0 <= i < 4 ==> b64_alphabet().contains(#[trigger] g[i]) || g[i]
            == '=') by {
            assert(b64_alphabet().contains(b64_alphabet()[sextet(t, 18)]));
            assert(b64_alphabet().contains(b64_alphabet()[sextet(t, 12)]));
            assert(b64_alphabet().contains(b64_alphabet()[sextet(t, 6)]));
            assert(b64_alphabet().contains(b64_alphabet()[sextet(t, 0)]));
        }
        if d.len() > 3 {
            law_base64_alphabet(d.skip(3));
            let r = base64_spec(d.skip(3));
            assert forall|i: int| 0 <= i < base64_spec(d).len() implies (b64_alphabet().contains(
                #[trigger] base64_spec(d)[i],
            ) || base64_spec(d)[i] == '=') by {
                if i >= 4 {
                    assert(base64_spec(d)[i] == r[i - 4]);
                } else {
                    assert(base64_spec(d)[i] == g[i]);
                }
            }
        }
    }
}

/// Appends the alphabet symbol for 6-bit value `v` to `out`.
fn push_symbol(out: &mut String, table: &str, v: u32)
    requires
        table@ == b64_alphabet(),
        v < 64,
    ensures
        final(out)@ == old(out)@.push(b64_alphabet()[v as int]),
{
    proof {
        reveal_strlit("ABCDEFGHIJKLMNOPQRSTUVWXYZabcdefghijklmnopqrstuvwxyz0123456789+/");
    }
    let k = v as usize;
    let sym = table.substring_char(k, k + 1);
    out.append(sym);
    assert(sym@ =~= seq![b64_alphabet()[v as int]]);
}

/// Base64-encodes `data` with the standard alphabet and `=` padding.
pub fn base64_encode(data: &[u8]) -> (out: String)
    ensures
        out@ == base64_spec(data@),
{
    let table: &str = "ABCDEFGHIJKLMNOPQRSTUVWXYZabcdefghijklmnopqrstuvwxyz0123456789+/";
    proof {
        reveal_strlit("=");
    }
    let mut out = String::new();
    let n = data.len();
    let mut i: usize = 0;
    assert(data@.skip(0) =~= data@);
    while i < n
        invariant
            n == data@.len(),
            i <= n,
            table@ == b64_alphabet(),
            "="@ == seq!['='],
            base64_spec(data@) == out@ + base64_spec(data@.skip(i as int)),
        decreases n - i,
    {
        let ghost rest = data@.skip(i as int);
        let ghost before = out@;
        let b0: u32 = data[i] as u32;
        let b1: u32 = if n - i > 1 {
            data[i + 1] as u32
        } else {
            0
        };
        let b2: u32 = if n - i > 2 {
            data[i + 2] as u32
        } else {
            0
        };
        let t: u32 = (b0 << 16) | (b1 << 8) | b2;
        assert(t == triple(rest[0], if rest.len() > 1 {
            rest[1]
        } else {
            0u8
        }, if rest.len() > 2 {
            rest[2]
        } else {
            0u8
        }));
        assert((t >> 18) & 0x3F < 64 && (t >> 12) & 0x3F < 64 && (t >> 6) & 0x3F < 64 && t & 0x3F
            < 64) by (bit_vector);
        push_symbol(&mut out, table, (t >> 18) & 0x3F);
        push_symbol(&mut out, table, (t >> 12) & 0x3F);
        if n - i > 1 {
            push_symbol(&mut out, table, (t >> 6) & 0x3F);
        } else {
            out.append("=");
        }
        if n - i > 2 {
            push_symbol(&mut out, table, t & 0x3F);
        } else {
            out.append("=");
        }
        assert(rest.len() == n - i);
        assert(out@ =~= before + b64_group(rest)) by {
            let a = b64_alphabet();
            let x1: u8 = if rest.len() > 1 {
                rest[1]
            } else {
                0u8
            };
            let x2: u8 = if rest.len() > 2 {
                rest[2]
            } else {
                0u8
            };
            assert(triple(rest[0], x1, x2) == t);
            assert(sextet(t, 18) == ((t >> 18) & 0x3F) as int);
            assert(sextet(t, 12) == ((t >> 12) & 0x3F) as int);
            assert(sextet(t, 6) == ((t >> 6) & 0x3F) as int);
            assert(sextet(t, 0) == (t & 0x3F) as int) by {
                assert(t >> 0u32 == t) by (bit_vector);
            }
            assert(b64_group(rest) =~= seq![
                a[sextet(t, 18)],
                a[sextet(t, 12)],
                if rest.len() > 1 {
                    a[sextet(t, 6)]
                } else {
                    '='
                },
                if rest.len() > 2 {
                    a[sextet(t, 0)]
                } else {
                    '='
                },
            ]);
        }
        if n - i > 3 {
            assert(rest.skip(3) =~= data@.skip(i + 3));
            i = i + 3;
        } else {
            assert(data@.skip(n as int).len() == 0);
            i = n;
        }
    }
    out
}

} // verus!
