//! The Lit template digest (as `@lit-labs/ssr-client`'s
//! `digestForTemplateResult` computes it) and its Base64 encoding.
use vstd::prelude::*;

verus! {

// ---------------------------------------------------------------------------
// Specifications
// ---------------------------------------------------------------------------

/// The UTF-16 code units of `c`: one unit below U+10000, else a surrogate pair.
pub open spec fn utf16_of_char(c: char) -> Seq<u16> {
    let v = c as u32;
    if v < 0x10000 {
        seq![v as u16]
    } else {
        let w = v - 0x10000;
        seq![(0xD800 + w / 1024) as u16, (0xDC00 + w % 1024) as u16]
    }
}

/// The UTF-16 code units of `s`, in order.
pub open spec fn utf16_units(s: Seq<char>) -> Seq<u16>
    decreases s.len(),
{
    if s.len() == 0 {
        Seq::empty()
    } else {
        utf16_units(s.drop_last()) + utf16_of_char(s.last())
    }
}

/// One DJB2 step on a 32-bit accumulator: `h * 33` (wrapping), xor the unit.
pub open spec fn mix(h: u32, unit: u16) -> u32 {
    ((h as u64 * 33) as u32) ^ (unit as u32)
}

/// Feeds `unit` into accumulator 0 (`odd` false) or accumulator 1 (`odd` true).
pub open spec fn hash_step(h: (u32, u32), odd: bool, unit: u16) -> (u32, u32) {
    if odd {
        (h.0, mix(h.1, unit))
    } else {
        (mix(h.0, unit), h.1)
    }
}

/// The accumulators after feeding the units `u` of one string, the unit at
/// index `k` going to accumulator `k % 2`.
pub open spec fn hash_units(h: (u32, u32), u: Seq<u16>) -> (u32, u32)
    decreases u.len(),
{
    if u.len() == 0 {
        h
    } else {
        hash_step(hash_units(h, u.drop_last()), (u.len() - 1) % 2 == 1, u.last())
    }
}

/// The accumulators after feeding every string of `ss`, both starting at 5381;
/// the unit index restarts with each string.
pub open spec fn hash_strings(ss: Seq<Seq<char>>) -> (u32, u32)
    decreases ss.len(),
{
    if ss.len() == 0 {
        (5381, 5381)
    } else {
        hash_units(hash_strings(ss.drop_last()), utf16_units(ss.last()))
    }
}

/// The little-endian bytes of `h`.
pub open spec fn le_bytes(h: u32) -> Seq<u8> {
    seq![(h % 256) as u8, (h / 256 % 256) as u8, (h / 65536 % 256) as u8, (h / 16777216) as u8]
}

/// The character of the standard Base64 alphabet (RFC 4648) for `n < 64`.
pub open spec fn b64_char(n: int) -> char {
    if n < 26 {
        (65 + n) as char
    } else if n < 52 {
        (97 + n - 26) as char
    } else if n < 62 {
        (48 + n - 52) as char
    } else if n == 62 {
        '+'
    } else {
        '/'
    }
}

/// The value of `c` in the standard Base64 alphabet, or -1 for a character
/// outside it (the padding `=` among them).
pub open spec fn b64_value(c: char) -> int {
    let v = c as int;
    if 65 <= v <= 90 {
        v - 65
    } else if 97 <= v <= 122 {
        v - 97 + 26
    } else if 48 <= v <= 57 {
        v - 48 + 52
    } else if c == '+' {
        62
    } else if c == '/' {
        63
    } else {
        -1
    }
}

/// `c` is a letter, a digit, `+`, `/` or the padding `=`.
pub open spec fn is_b64_alphabet(c: char) -> bool {
    b64_value(c) >= 0 || c == '='
}

/// Decodes one group of four characters; `last` says whether it ends the
/// text, the only place where `=` padding may stand.
pub open spec fn b64_decode_quad(q: Seq<char>, last: bool) -> Option<Seq<u8>> {
    let v0 = b64_value(q[0]);
    let v1 = b64_value(q[1]);
    let v2 = b64_value(q[2]);
    let v3 = b64_value(q[3]);
    let x0 = (v0 * 4 + v1 / 16) as u8;
    let x1 = ((v1 % 16) * 16 + v2 / 4) as u8;
    let x2 = ((v2 % 4) * 64 + v3) as u8;
    if v0 < 0 || v1 < 0 {
        None
    } else if last && q[2] == '=' && q[3] == '=' {
        Some(seq![x0])
    } else if last && v2 >= 0 && q[3] == '=' {
        Some(seq![x0, x1])
    } else if v2 >= 0 && v3 >= 0 {
        Some(seq![x0, x1, x2])
    } else {
        None
    }
}

/// Standard Base64 decoding (RFC 4648): `None` where `s` is not a sequence of
/// four-character groups over the alphabet, padded only at its end.
pub open spec fn base64_decode(s: Seq<char>) -> Option<Seq<u8>>
    decreases s.len(),
{
    if s.len() == 0 {
        Some(Seq::empty())
    } else if s.len() < 4 {
        None
    } else {
        match (b64_decode_quad(s.take(4), s.len() == 4), base64_decode(s.skip(4))) {
            (Some(x), Some(y)) => Some(x + y),
            _ => None,
        }
    }
}

/// The four characters that encode the (up to) three bytes `b[0..3]`, with `=`
/// padding for missing bytes.
pub open spec fn b64_quad(b: Seq<u8>) -> Seq<char> {
    let b0 = b[0] as int;
    let b1 = if b.len() > 1 {
        b[1] as int
    } else {
        0
    };
    let b2 = if b.len() > 2 {
        b[2] as int
    } else {
        0
    };
    seq![
        b64_char(b0 / 4),
        b64_char((b0 % 4) * 16 + b1 / 16),
        if b.len() > 1 {
            b64_char((b1 % 16) * 4 + b2 / 64)
        } else {
            '='
        },
        if b.len() > 2 {
            b64_char(b2 % 64)
        } else {
            '='
        },
    ]
}

/// Base64 (RFC 4648, standard alphabet, `=` padding) of `b`.
pub open spec fn base64(b: Seq<u8>) -> Seq<char>
    decreases b.len(),
{
    if b.len() == 0 {
        Seq::empty()
    } else if b.len() <= 3 {
        b64_quad(b)
    } else {
        b64_quad(b) + base64(b.skip(3))
    }
}

/// The digest of the static strings `ss` of a template: Base64 of the eight
/// little-endian bytes of the two accumulators.
pub open spec fn template_digest(ss: Seq<Seq<char>>) -> Seq<char> {
    let h = hash_strings(ss);
    base64(le_bytes(h.0) + le_bytes(h.1))
}

// ---------------------------------------------------------------------------
// Lemmas
// ---------------------------------------------------------------------------

pub proof fn lemma_base64_len(b: Seq<u8>)
    ensures
        base64(b).len() == 4 * ((b.len() + 2) / 3),
    decreases b.len(),
{
    if b.len() > 3 {
        lemma_base64_len(b.skip(3));
    }
}

/// Every digest is twelve characters long.
pub proof fn lemma_digest_len(ss: Seq<Seq<char>>)
    ensures
        template_digest(ss).len() == 12,
{
    let h = hash_strings(ss);
    lemma_base64_len(le_bytes(h.0) + le_bytes(h.1));
}

proof fn lemma_b64_char_value(n: int)
    requires
        0 <= n < 64,
    ensures
        b64_value(b64_char(n)) == n,
        b64_char(n) != '=',
{
}

proof fn lemma_b64_group_arith(b0: int, b1: int, b2: int)
    requires
        0 <= b0 < 256,
        0 <= b1 < 256,
        0 <= b2 < 256,
    ensures
        0 <= b0 / 4 < 64,
        0 <= (b0 % 4) * 16 + b1 / 16 < 64,
        0 <= (b1 % 16) * 4 + b2 / 64 < 64,
        0 <= b2 % 64 < 64,
        (b0 / 4) * 4 + ((b0 % 4) * 16 + b1 / 16) / 16 == b0,
        (((b0 % 4) * 16 + b1 / 16) % 16) * 16 + ((b1 % 16) * 4 + b2 / 64) / 4 == b1,
        (((b1 % 16) * 4 + b2 / 64) % 4) * 64 + b2 % 64 == b2,
{
}

/// Each group of `base64(b)` decodes back to the bytes it encodes.
proof fn lemma_b64_quad_decodes(b: Seq<u8>)
    requires
        b.len() >= 1,
    ensures
        b64_decode_quad(b64_quad(b), b.len() <= 3) == Some(
            if b.len() <= 3 {
                b
            } else {
                b.take(3)
            },
        ),
        forall|i: int| 0 <= i < 4 ==> is_b64_alphabet(#[trigger] b64_quad(b)[i]),
{
    let q = b64_quad(b);
    let b0 = b[0] as int;
    let b1: int = if b.len() > 1 {
        b[1] as int
    } else {
        0
    };
    let b2: int = if b.len() > 2 {
        b[2] as int
    } else {
        0
    };
    lemma_b64_group_arith(b0, b1, b2);
    let v0 = b0 / 4;
    let v1 = (b0 % 4) * 16 + b1 / 16;
    let v2 = (b1 % 16) * 4 + b2 / 64;
    let v3 = b2 % 64;
    lemma_b64_char_value(v0);
    lemma_b64_char_value(v1);
    lemma_b64_char_value(v2);
    lemma_b64_char_value(v3);
    assert(b64_value(q[0]) == v0);
    assert(b64_value(q[1]) == v1);
    if b.len() == 1 {
        assert(seq![b0 as u8] =~= b);
    } else if b.len() == 2 {
        assert(b64_value(q[2]) == v2);
        assert(seq![b0 as u8, b1 as u8] =~= b);
    } else {
        assert(b64_value(q[2]) == v2);
        assert(b64_value(q[3]) == v3);
        if b.len() == 3 {
            assert(seq![b0 as u8, b1 as u8, b2 as u8] =~= b);
        } else {
            assert(seq![b0 as u8, b1 as u8, b2 as u8] =~= b.take(3));
        }
    }
}

/// `base64(b)` is made of the standard alphabet and `=`, and decodes back to
/// `b`.
pub(crate) proof fn lemma_base64_decodes(b: Seq<u8>)
    ensures
        forall|i: int| 0 <= i < base64(b).len() ==> is_b64_alphabet(#[trigger] base64(b)[i]),
        base64_decode(base64(b)) == Some(b),
    decreases b.len(),
{
    if b.len() == 0 {
    } else {
        lemma_b64_quad_decodes(b);
        let q = b64_quad(b);
        if b.len() <= 3 {
            assert(base64(b) == q);
            assert(q.take(4) =~= q);
            assert(q.skip(4) =~= Seq::<char>::empty());
            assert(base64_decode(q.skip(4)) == Some(Seq::<u8>::empty()));
            assert(b + Seq::<u8>::empty() =~= b);
            assert(base64_decode(q) == Some(b));
        } else {
            let r = base64(b.skip(3));
            lemma_base64_decodes(b.skip(3));
            lemma_base64_len(b.skip(3));
            let s = q + r;
            assert(s.take(4) =~= q);
            assert(s.skip(4) =~= r);
            assert(b.take(3) + b.skip(3) =~= b);
            assert(base64(b) == s);
            assert(s.len() > 4);
            assert(base64_decode(s) == Some(b.take(3) + b.skip(3)));
            assert forall|i: int| 0 <= i < s.len() implies is_b64_alphabet(#[trigger] s[i]) by {
                if i >= 4 {
                    assert(s[i] == r[i - 4]);
                }
            }
        }
    }
}

proof fn lemma_hash_units_push(h: (u32, u32), u: Seq<u16>, x: u16)
    ensures
        hash_units(h, u.push(x)) == hash_step(hash_units(h, u), u.len() % 2 == 1, x),
{
    assert(u.push(x).drop_last() =~= u);
}

// ---------------------------------------------------------------------------
// Executable code
// ---------------------------------------------------------------------------

fn mix_exec(h: u32, unit: u16) -> (res: u32)
    ensures
        res == mix(h, unit),
{
    ((h as u64 * 33) as u32) ^ (unit as u32)
}

fn hash_step_exec(h: (u32, u32), odd: bool, unit: u16) -> (res: (u32, u32))
    ensures
        res == hash_step(h, odd, unit),
{
    if odd {
        (h.0, mix_exec(h.1, unit))
    } else {
        (mix_exec(h.0, unit), h.1)
    }
}

/// Feeds the UTF-16 units of `s` into the accumulators `h`.
fn hash_string(h: (u32, u32), s: &Vec<char>) -> (res: (u32, u32))
    ensures
        res == hash_units(h, utf16_units(s@)),
{
    let mut state = h;
    let mut odd = false;
    let mut k: usize = 0;
    while k < s.len()
        invariant
            k <= s.len(),
            state == hash_units(h, utf16_units(s@.take(k as int))),
            odd == (utf16_units(s@.take(k as int)).len() % 2 == 1),
        decreases s.len() - k,
    {
        let ghost before = utf16_units(s@.take(k as int));
        let c = s[k];
        assert(s@.take(k + 1).drop_last() =~= s@.take(k as int));
        let cp = c as u32;
        assert(s@.take(k + 1).last() == c);
        proof {
            vstd::utf8::char_is_scalar(c);
        }
        assert(utf16_units(s@.take(k + 1)) == before + utf16_of_char(c));
        if cp < 0x10000 {
            let unit = cp as u16;
            proof {
                lemma_hash_units_push(h, before, unit);
                assert(utf16_units(s@.take(k + 1)) =~= before.push(unit));
            }
            state = hash_step_exec(state, odd, unit);
            odd = !odd;
        } else {
            assert(cp <= 0x10FFFF);
            let w = cp - 0x10000;
            let hi = (0xD800 + w / 1024) as u16;
            let lo = (0xDC00 + w % 1024) as u16;
            proof {
                lemma_hash_units_push(h, before, hi);
                lemma_hash_units_push(h, before.push(hi), lo);
                assert(utf16_units(s@.take(k + 1)) =~= before.push(hi).push(lo));
            }
            state = hash_step_exec(state, odd, hi);
            odd = !odd;
            state = hash_step_exec(state, odd, lo);
            odd = !odd;
        }
        k = k + 1;
    }
    assert(s@.take(s.len() as int) =~= s@);
    state
}

fn push_le_bytes(out: &mut Vec<u8>, h: u32)
    ensures
        final(out)@ == old(out)@ + le_bytes(h),
{
    out.push((h % 256) as u8);
    out.push((h / 256 % 256) as u8);
    out.push((h / 65536 % 256) as u8);
    out.push((h / 16777216) as u8);
    assert(out@ =~= old(out)@ + le_bytes(h));
}

fn b64_char_exec(n: u8) -> (c: char)
    requires
        n < 64,
    ensures
        c == b64_char(n as int),
{
    if n < 26 {
        (65u8 + n) as char
    } else if n < 52 {
        (97u8 + n - 26) as char
    } else if n < 62 {
        (48u8 + n - 52) as char
    } else if n == 62 {
        '+'
    } else {
        '/'
    }
}

/// Base64 (RFC 4648, standard alphabet, `=` padding) of `bytes`.
pub fn base64_encode(bytes: &Vec<u8>) -> (res: Vec<char>)
    ensures
        res@ == base64(bytes@),
{
    let len = bytes.len();
    let mut out: Vec<char> = Vec::new();
    let mut i: usize = 0;
    assert(bytes@.skip(0) =~= bytes@);
    while i < len
        invariant
            i <= len == bytes.len(),
            base64(bytes@) == out@ + base64(bytes@.skip(i as int)),
        decreases len - i,
    {
        let ghost rest = bytes@.skip(i as int);
        let b0 = bytes[i];
        let b1: u8 = if len - i > 1 {
            bytes[i + 1]
        } else {
            0
        };
        let b2: u8 = if len - i > 2 {
            bytes[i + 2]
        } else {
            0
        };
        let c0 = b64_char_exec(b0 / 4);
        let c1 = b64_char_exec((b0 % 4) * 16 + b1 / 16);
        let c2 = if len - i > 1 {
            b64_char_exec((b1 % 16) * 4 + b2 / 64)
        } else {
            '='
        };
        let c3 = if len - i > 2 {
            b64_char_exec(b2 % 64)
        } else {
            '='
        };
        let ghost old_out = out@;
        out.push(c0);
        out.push(c1);
        out.push(c2);
        out.push(c3);
        assert(b64_quad(rest) =~= seq![c0, c1, c2, c3]);
        if len - i <= 3 {
            assert(out@ =~= old_out + b64_quad(rest));
            assert(bytes@.skip(len as int) =~= Seq::<u8>::empty());
            assert(out@ + Seq::<char>::empty() =~= out@);
            i = len;
        } else {
            assert(rest.skip(3) =~= bytes@.skip(i + 3));
            assert(old_out + (b64_quad(rest) + base64(rest.skip(3))) =~= out@ + base64(
                bytes@.skip(i + 3),
            ));
            i = i + 3;
        }
    }
    out
}

/// The digest of the static strings `parts` of a template.
pub fn digest_of(parts: &Vec<Vec<char>>) -> (res: Vec<char>)
    ensures
        res@ == template_digest(parts.deep_view()),
        res@.len() == 12,
{
    let mut h: (u32, u32) = (5381, 5381);
    let mut k: usize = 0;
    while k < parts.len()
        invariant
            k <= parts.len(),
            h == hash_strings(parts.deep_view().take(k as int)),
        decreases parts.len() - k,
    {
        let ghost ss = parts.deep_view().take(k as int + 1);
        assert(ss.drop_last() =~= parts.deep_view().take(k as int));
        assert(parts[k as int].deep_view() =~= parts[k as int]@);
        h = hash_string(h, &parts[k]);
        k = k + 1;
    }
    assert(parts.deep_view().take(parts.len() as int) =~= parts.deep_view());
    let mut bytes: Vec<u8> = Vec::new();
    push_le_bytes(&mut bytes, h.0);
    push_le_bytes(&mut bytes, h.1);
    assert(bytes@ =~= le_bytes(h.0) + le_bytes(h.1));
    proof {
        lemma_digest_len(parts.deep_view());
    }
    base64_encode(&bytes)
}

} // verus!
