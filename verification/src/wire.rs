//! Wire primitives: a deterministic, self-describing binary encoding.
//!
//! Every field starts with a one-byte type tag; integers are fixed-width
//! little-endian; byte strings and text are length-prefixed. Encoders state
//! exactly which bytes they produce, decoders state exactly which bytes they
//! accept, so serialize-then-deserialize is provably the identity.

use vstd::prelude::*;

verus! {

pub const TAG_I64: u8 = 0x01;
pub const TAG_U64: u8 = 0x02;
pub const TAG_U8: u8 = 0x03;
pub const TAG_FALSE: u8 = 0x04;
pub const TAG_TRUE: u8 = 0x05;
pub const TAG_BIN: u8 = 0x06;
pub const TAG_STR: u8 = 0x07;

// ---------------------------------------------------------------------------
// Specification-level encodings
// ---------------------------------------------------------------------------

pub open spec fn spec_enc_u64(x: u64) -> Seq<u8> {
    seq![TAG_U64] + vstd::bytes::spec_u64_to_le_bytes(x)
}

pub open spec fn spec_enc_i64(x: i64) -> Seq<u8> {
    seq![TAG_I64] + vstd::bytes::spec_u64_to_le_bytes(x as u64)
}

pub open spec fn spec_enc_u8(x: u8) -> Seq<u8> {
    seq![TAG_U8, x]
}

pub open spec fn spec_enc_bool(b: bool) -> Seq<u8> {
    if b {
        seq![TAG_TRUE]
    } else {
        seq![TAG_FALSE]
    }
}

pub open spec fn spec_enc_bytes(d: Seq<u8>) -> Seq<u8>
    recommends
        d.len() <= u32::MAX,
{
    seq![TAG_BIN] + vstd::bytes::spec_u32_to_le_bytes(d.len() as u32) + d
}

/// Each character as its scalar value, four bytes little-endian.
pub open spec fn spec_enc_char_seq(s: Seq<char>) -> Seq<u8>
    decreases s.len(),
{
    if s.len() == 0 {
        Seq::empty()
    } else {
        vstd::bytes::spec_u32_to_le_bytes(s[0] as u32) + spec_enc_char_seq(s.drop_first())
    }
}

pub open spec fn spec_enc_str(s: Seq<char>) -> Seq<u8>
    recommends
        s.len() <= u32::MAX,
{
    seq![TAG_STR] + vstd::bytes::spec_u32_to_le_bytes(s.len() as u32) + spec_enc_char_seq(s)
}

pub proof fn lemma_i64_u64_roundtrip(x: i64)
    ensures
        (x as u64) as i64 == x,
{
    assert((x as u64) as i64 == x) by (bit_vector);
}

// ---------------------------------------------------------------------------
// Executable encoders: append the encoding of one field to `out`
// ---------------------------------------------------------------------------

pub fn enc_u64(out: &mut Vec<u8>, x: u64)
    ensures
        final(out)@ == old(out)@ + spec_enc_u64(x),
{
    out.push(TAG_U64);
    let mut bytes = vstd::bytes::u64_to_le_bytes(x);
    out.append(&mut bytes);
    proof {
        assert(final(out)@ =~= old(out)@ + spec_enc_u64(x));
    }
}

pub fn enc_i64(out: &mut Vec<u8>, x: i64)
    ensures
        final(out)@ == old(out)@ + spec_enc_i64(x),
{
    out.push(TAG_I64);
    let mut bytes = vstd::bytes::u64_to_le_bytes(#[verifier::truncate] (x as u64));
    out.append(&mut bytes);
    proof {
        assert(final(out)@ =~= old(out)@ + spec_enc_i64(x));
    }
}

pub fn enc_u8(out: &mut Vec<u8>, x: u8)
    ensures
        final(out)@ == old(out)@ + spec_enc_u8(x),
{
    out.push(TAG_U8);
    out.push(x);
    proof {
        assert(final(out)@ =~= old(out)@ + spec_enc_u8(x));
    }
}

pub fn enc_bool(out: &mut Vec<u8>, b: bool)
    ensures
        final(out)@ == old(out)@ + spec_enc_bool(b),
{
    if b {
        out.push(TAG_TRUE);
    } else {
        out.push(TAG_FALSE);
    }
    proof {
        assert(final(out)@ =~= old(out)@ + spec_enc_bool(b));
    }
}

pub fn enc_bytes(out: &mut Vec<u8>, d: &Vec<u8>)
    requires
        d@.len() <= u32::MAX,
    ensures
        final(out)@ == old(out)@ + spec_enc_bytes(d@),
{
    out.push(TAG_BIN);
    let mut lenb = vstd::bytes::u32_to_le_bytes(d.len() as u32);
    out.append(&mut lenb);
    let ghost mid = out@;
    let mut i: usize = 0;
    while i < d.len()
        invariant
            i <= d@.len(),
            out@ == mid + d@.subrange(0, i as int),
        decreases d@.len() - i,
    {
        out.push(d[i]);
        i = i + 1;
        proof {
            assert(out@ =~= mid + d@.subrange(0, i as int));
        }
    }
    proof {
        assert(d@.subrange(0, d@.len() as int) =~= d@);
        assert(final(out)@ =~= old(out)@ + spec_enc_bytes(d@));
    }
}

pub fn enc_str(out: &mut Vec<u8>, s: &Vec<char>)
    requires
        s@.len() <= u32::MAX,
    ensures
        final(out)@ == old(out)@ + spec_enc_str(s@),
{
    out.push(TAG_STR);
    let mut lenb = vstd::bytes::u32_to_le_bytes(s.len() as u32);
    out.append(&mut lenb);
    let ghost mid = out@;
    let mut i: usize = 0;
    while i < s.len()
        invariant
            i <= s@.len(),
            out@ == mid + spec_enc_char_seq(s@.subrange(0, i as int)),
        decreases s@.len() - i,
    {
        let c = s[i];
        let mut cb = vstd::bytes::u32_to_le_bytes(c as u32);
        out.append(&mut cb);
        proof {
            lemma_enc_char_seq_snoc(s@.subrange(0, i as int), c);
            assert(s@.subrange(0, i as int).push(c) =~= s@.subrange(0, i as int + 1));
        }
        i = i + 1;
    }
    proof {
        assert(s@.subrange(0, s@.len() as int) =~= s@);
        assert(final(out)@ =~= old(out)@ + spec_enc_str(s@));
    }
}

pub proof fn lemma_enc_char_seq_snoc(s: Seq<char>, c: char)
    ensures
        spec_enc_char_seq(s.push(c)) == spec_enc_char_seq(s) + vstd::bytes::spec_u32_to_le_bytes(
            c as u32,
        ),
    decreases s.len(),
{
    if s.len() == 0 {
        assert(s.push(c)[0] == c);
        assert(s.push(c).drop_first() =~= s);
        assert(spec_enc_char_seq(s.push(c)) =~= spec_enc_char_seq(s)
            + vstd::bytes::spec_u32_to_le_bytes(c as u32));
    } else {
        assert(s.push(c)[0] == s[0]);
        assert(s.push(c).drop_first() =~= s.drop_first().push(c));
        lemma_enc_char_seq_snoc(s.drop_first(), c);
        assert(spec_enc_char_seq(s.push(c)) =~= spec_enc_char_seq(s)
            + vstd::bytes::spec_u32_to_le_bytes(c as u32));
    }
}

// ---------------------------------------------------------------------------
// Specification-level decoders: each reads one field at `pos` and yields the
// value with the position just past it, or nothing if the bytes there are not
// an encoding of that field.
// ---------------------------------------------------------------------------

pub open spec fn spec_dec_u64(s: Seq<u8>, pos: int) -> Option<(u64, int)> {
    if 0 <= pos && pos + 9 <= s.len() && s[pos] == TAG_U64 {
        Some((vstd::bytes::spec_u64_from_le_bytes(s.subrange(pos + 1, pos + 9)), pos + 9))
    } else {
        None
    }
}

pub open spec fn spec_dec_i64(s: Seq<u8>, pos: int) -> Option<(i64, int)> {
    if 0 <= pos && pos + 9 <= s.len() && s[pos] == TAG_I64 {
        Some(
            (vstd::bytes::spec_u64_from_le_bytes(s.subrange(pos + 1, pos + 9)) as i64, pos + 9),
        )
    } else {
        None
    }
}

pub open spec fn spec_dec_u8(s: Seq<u8>, pos: int) -> Option<(u8, int)> {
    if 0 <= pos && pos + 2 <= s.len() && s[pos] == TAG_U8 {
        Some((s[pos + 1], pos + 2))
    } else {
        None
    }
}

pub open spec fn spec_dec_bool(s: Seq<u8>, pos: int) -> Option<(bool, int)> {
    if 0 <= pos && pos + 1 <= s.len() && (s[pos] == TAG_TRUE || s[pos] == TAG_FALSE) {
        Some((s[pos] == TAG_TRUE, pos + 1))
    } else {
        None
    }
}

pub open spec fn spec_dec_bytes(s: Seq<u8>, pos: int) -> Option<(Seq<u8>, int)> {
    if 0 <= pos && pos + 5 <= s.len() && s[pos] == TAG_BIN {
        let n = vstd::bytes::spec_u32_from_le_bytes(s.subrange(pos + 1, pos + 5)) as int;
        if pos + 5 + n <= s.len() {
            Some((s.subrange(pos + 5, pos + 5 + n), pos + 5 + n))
        } else {
            None
        }
    } else {
        None
    }
}

/// A Unicode scalar value: what a `char` may hold.
pub open spec fn is_scalar_value(x: u32) -> bool {
    x < 0xD800 || (0xE000 <= x && x <= 0x10FFFF)
}

pub proof fn lemma_char_scalar_roundtrip(c: char)
    ensures
        is_scalar_value(c as u32),
        (c as u32) as char == c,
{
    vstd::utf8::char_is_scalar(c);
    vstd::utf8::char_u32_cast(c, c as u32);
}

pub open spec fn spec_dec_char_seq(s: Seq<u8>, pos: int, count: int) -> Option<(Seq<char>, int)>
    decreases count,
{
    if count <= 0 {
        Some((Seq::empty(), pos))
    } else if 0 <= pos && pos + 4 <= s.len() {
        let v = vstd::bytes::spec_u32_from_le_bytes(s.subrange(pos, pos + 4));
        if is_scalar_value(v) {
            match spec_dec_char_seq(s, pos + 4, count - 1) {
                Some((cs, p)) => Some((seq![v as char] + cs, p)),
                None => None,
            }
        } else {
            None
        }
    } else {
        None
    }
}

pub open spec fn spec_dec_str(s: Seq<u8>, pos: int) -> Option<(Seq<char>, int)> {
    if 0 <= pos && pos + 5 <= s.len() && s[pos] == TAG_STR {
        let n = vstd::bytes::spec_u32_from_le_bytes(s.subrange(pos + 1, pos + 5)) as int;
        spec_dec_char_seq(s, pos + 5, n)
    } else {
        None
    }
}

// ---------------------------------------------------------------------------
// Decode-of-encode lemmas: a field decoder applied where an encoding was laid
// down yields back the encoded value.
// ---------------------------------------------------------------------------

pub proof fn lemma_dec_enc_u64(s: Seq<u8>, pos: int, x: u64)
    requires
        0 <= pos,
        pos + 9 <= s.len(),
        s.subrange(pos, pos + 9) == spec_enc_u64(x),
    ensures
        spec_dec_u64(s, pos) == Some((x, pos + 9)),
{
    vstd::bytes::lemma_auto_spec_u64_to_from_le_bytes();
    assert(s[pos] == spec_enc_u64(x)[0]);
    assert(s.subrange(pos + 1, pos + 9) =~= spec_enc_u64(x).skip(1));
    assert(spec_enc_u64(x).skip(1) =~= vstd::bytes::spec_u64_to_le_bytes(x));
}

pub proof fn lemma_dec_enc_i64(s: Seq<u8>, pos: int, x: i64)
    requires
        0 <= pos,
        pos + 9 <= s.len(),
        s.subrange(pos, pos + 9) == spec_enc_i64(x),
    ensures
        spec_dec_i64(s, pos) == Some((x, pos + 9)),
{
    vstd::bytes::lemma_auto_spec_u64_to_from_le_bytes();
    assert(s[pos] == spec_enc_i64(x)[0]);
    assert(s.subrange(pos + 1, pos + 9) =~= spec_enc_i64(x).skip(1));
    assert(spec_enc_i64(x).skip(1) =~= vstd::bytes::spec_u64_to_le_bytes(x as u64));
    lemma_i64_u64_roundtrip(x);
}

pub proof fn lemma_dec_enc_u8(s: Seq<u8>, pos: int, x: u8)
    requires
        0 <= pos,
        pos + 2 <= s.len(),
        s.subrange(pos, pos + 2) == spec_enc_u8(x),
    ensures
        spec_dec_u8(s, pos) == Some((x, pos + 2)),
{
    assert(s[pos] == spec_enc_u8(x)[0]);
    assert(s[pos + 1] == spec_enc_u8(x)[1]);
}

pub proof fn lemma_dec_enc_bool(s: Seq<u8>, pos: int, b: bool)
    requires
        0 <= pos,
        pos + 1 <= s.len(),
        s.subrange(pos, pos + 1) == spec_enc_bool(b),
    ensures
        spec_dec_bool(s, pos) == Some((b, pos + 1)),
{
    assert(s[pos] == spec_enc_bool(b)[0]);
}

pub proof fn lemma_dec_enc_bytes(s: Seq<u8>, pos: int, d: Seq<u8>)
    requires
        0 <= pos,
        d.len() <= u32::MAX,
        pos + 5 + d.len() <= s.len(),
        s.subrange(pos, pos + 5 + d.len()) == spec_enc_bytes(d),
    ensures
        spec_dec_bytes(s, pos) == Some((d, pos + 5 + d.len())),
{
    vstd::bytes::lemma_auto_spec_u32_to_from_le_bytes();
    let e = spec_enc_bytes(d);
    assert(s[pos] == e[0]);
    assert(s.subrange(pos + 1, pos + 5) =~= e.subrange(1, 5));
    assert(e.subrange(1, 5) =~= vstd::bytes::spec_u32_to_le_bytes(d.len() as u32));
    assert(vstd::bytes::spec_u32_from_le_bytes(s.subrange(pos + 1, pos + 5)) == d.len() as u32);
    assert(s.subrange(pos + 5, pos + 5 + d.len()) =~= e.subrange(5, 5 + d.len() as int));
    assert(e.subrange(5, 5 + d.len() as int) =~= d);
}

pub proof fn lemma_dec_enc_char_seq(s: Seq<u8>, pos: int, cs: Seq<char>)
    requires
        0 <= pos,
        pos + 4 * cs.len() <= s.len(),
        s.subrange(pos, pos + spec_enc_char_seq(cs).len()) == spec_enc_char_seq(cs),
        spec_enc_char_seq(cs).len() == 4 * cs.len(),
    ensures
        spec_dec_char_seq(s, pos, cs.len() as int) == Some((cs, pos + 4 * cs.len())),
    decreases cs.len(),
{
    vstd::bytes::lemma_auto_spec_u32_to_from_le_bytes();
    if cs.len() == 0 {
    } else {
        let e = spec_enc_char_seq(cs);
        let c = cs[0];
        let rest = cs.drop_first();
        lemma_enc_char_seq_len(rest);
        lemma_enc_char_seq_len(cs);
        assert(e == vstd::bytes::spec_u32_to_le_bytes(c as u32) + spec_enc_char_seq(rest));
        assert(forall|j: int| 0 <= j < e.len() ==> s[pos + j] == #[trigger] e[j]) by {
            assert(forall|j: int|
                0 <= j < e.len() ==> s.subrange(pos, pos + e.len() as int)[j] == #[trigger] e[j]);
        }
        assert(s.subrange(pos, pos + 4) =~= vstd::bytes::spec_u32_to_le_bytes(c as u32));
        let v = vstd::bytes::spec_u32_from_le_bytes(s.subrange(pos, pos + 4));
        assert(v == c as u32);
        lemma_char_scalar_roundtrip(c);
        let er = spec_enc_char_seq(rest);
        assert forall|k: int| 0 <= k < er.len() implies s.subrange(pos + 4, pos + 4 + er.len())[k]
            == er[k] by {
            assert(s[pos + 4 + k] == e[4 + k]);
            assert(e[4 + k] == er[k]);
        }
        assert(s.subrange(pos + 4, pos + 4 + er.len()) =~= er);
        lemma_dec_enc_char_seq(s, pos + 4, rest);
        assert(seq![c] + rest =~= cs);
    }
}

pub proof fn lemma_enc_char_seq_len(cs: Seq<char>)
    ensures
        spec_enc_char_seq(cs).len() == 4 * cs.len(),
    decreases cs.len(),
{
    vstd::bytes::lemma_auto_spec_u32_to_from_le_bytes();
    if cs.len() == 0 {
    } else {
        lemma_enc_char_seq_len(cs.drop_first());
    }
}

/// Peels the first field off an encoded tail: when the bytes of `s` from
/// `pos` on read `e + rest`, then `e` sits at `pos` and `rest` just after it.
pub proof fn lemma_enc_at(s: Seq<u8>, pos: int, e: Seq<u8>, rest: Seq<u8>)
    requires
        0 <= pos <= s.len(),
        s.subrange(pos, s.len() as int) == e + rest,
    ensures
        pos + e.len() + rest.len() == s.len(),
        s.subrange(pos, pos + e.len()) == e,
        s.subrange(pos + e.len(), s.len() as int) == rest,
{
    let tail = s.subrange(pos, s.len() as int);
    assert(tail.len() == e.len() + rest.len());
    assert forall|j: int| 0 <= j < e.len() implies s.subrange(pos, pos + e.len() as int)[j]
        == e[j] by {
        assert(s[pos + j] == tail[j]);
        assert(tail[j] == e[j]);
    }
    assert(s.subrange(pos, pos + e.len() as int) =~= e);
    assert forall|j: int| 0 <= j < rest.len() implies s.subrange(
        pos + e.len() as int,
        s.len() as int,
    )[j] == rest[j] by {
        assert(s[pos + e.len() + j] == tail[e.len() + j]);
        assert(tail[e.len() + j] == rest[j]);
    }
    assert(s.subrange(pos + e.len() as int, s.len() as int) =~= rest);
}

// ---------------------------------------------------------------------------
// Executable decoders, each pinned to its specification-level decoder
// ---------------------------------------------------------------------------

pub fn dec_u64(buf: &Vec<u8>, pos: usize) -> (r: Option<(u64, usize)>)
    ensures
        match r {
            Some((x, p)) => spec_dec_u64(buf@, pos as int) == Some((x, p as int)),
            None => spec_dec_u64(buf@, pos as int) is None,
        },
{
    if pos < buf.len() && buf.len() - pos >= 9 && buf[pos] == TAG_U64 {
        let sub = vstd::slice::slice_subrange(buf.as_slice(), pos + 1, pos + 9);
        let x = vstd::bytes::u64_from_le_bytes(sub);
        Some((x, pos + 9))
    } else {
        None
    }
}

pub fn dec_i64(buf: &Vec<u8>, pos: usize) -> (r: Option<(i64, usize)>)
    ensures
        match r {
            Some((x, p)) => spec_dec_i64(buf@, pos as int) == Some((x, p as int)),
            None => spec_dec_i64(buf@, pos as int) is None,
        },
{
    if pos < buf.len() && buf.len() - pos >= 9 && buf[pos] == TAG_I64 {
        let sub = vstd::slice::slice_subrange(buf.as_slice(), pos + 1, pos + 9);
        let x = vstd::bytes::u64_from_le_bytes(sub);
        Some((#[verifier::truncate] (x as i64), pos + 9))
    } else {
        None
    }
}

pub fn dec_u8(buf: &Vec<u8>, pos: usize) -> (r: Option<(u8, usize)>)
    ensures
        match r {
            Some((x, p)) => spec_dec_u8(buf@, pos as int) == Some((x, p as int)),
            None => spec_dec_u8(buf@, pos as int) is None,
        },
{
    if pos < buf.len() && buf.len() - pos >= 2 && buf[pos] == TAG_U8 {
        Some((buf[pos + 1], pos + 2))
    } else {
        None
    }
}

pub fn dec_bool(buf: &Vec<u8>, pos: usize) -> (r: Option<(bool, usize)>)
    ensures
        match r {
            Some((x, p)) => spec_dec_bool(buf@, pos as int) == Some((x, p as int)),
            None => spec_dec_bool(buf@, pos as int) is None,
        },
{
    if pos < buf.len() && (buf[pos] == TAG_TRUE || buf[pos] == TAG_FALSE) {
        Some((buf[pos] == TAG_TRUE, pos + 1))
    } else {
        None
    }
}

pub fn dec_bytes(buf: &Vec<u8>, pos: usize) -> (r: Option<(Vec<u8>, usize)>)
    ensures
        match r {
            Some((d, p)) => spec_dec_bytes(buf@, pos as int) == Some((d@, p as int)),
            None => spec_dec_bytes(buf@, pos as int) is None,
        },
{
    if pos < buf.len() && buf.len() - pos >= 5 && buf[pos] == TAG_BIN {
        let lsub = vstd::slice::slice_subrange(buf.as_slice(), pos + 1, pos + 5);
        let n32 = vstd::bytes::u32_from_le_bytes(lsub);
        if (n32 as u64) <= (buf.len() - pos - 5) as u64 {
            let n = n32 as usize;
            let dsub = vstd::slice::slice_subrange(buf.as_slice(), pos + 5, pos + 5 + n);
            let d = vstd::slice::slice_to_vec(dsub);
            Some((d, pos + 5 + n))
        } else {
            None
        }
    } else {
        None
    }
}

/// Relies on char::from_u32: yields the character with the given scalar
/// value, or nothing when the value is a surrogate or beyond the last
/// code point.
#[verifier::external_body]
fn char_from_u32(x: u32) -> (r: Option<char>)
    ensures
        r == (if is_scalar_value(x) {
            Some(x as char)
        } else {
            None::<char>
        }),
{
    char::from_u32(x)
}

pub fn dec_str(buf: &Vec<u8>, pos: usize) -> (r: Option<(Vec<char>, usize)>)
    ensures
        match r {
            Some((cs, p)) => spec_dec_str(buf@, pos as int) == Some((cs@, p as int)),
            None => spec_dec_str(buf@, pos as int) is None,
        },
{
    if !(pos < buf.len() && buf.len() - pos >= 5 && buf[pos] == TAG_STR) {
        return None;
    }
    let lsub = vstd::slice::slice_subrange(buf.as_slice(), pos + 1, pos + 5);
    let n32 = vstd::bytes::u32_from_le_bytes(lsub);
    let ghost total = n32 as int;
    let mut out: Vec<char> = Vec::new();
    let mut p: usize = pos + 5;
    let mut left: u32 = n32;
    while left > 0
        invariant
            pos + 5 <= p <= buf@.len() || left == n32,
            p == pos + 5 + 4 * (n32 - left),
            left <= n32,
            out@.len() == n32 - left,
            spec_dec_str(buf@, pos as int) == (match spec_dec_char_seq(
                buf@,
                p as int,
                left as int,
            ) {
                Some((cs, q)) => Some((out@ + cs, q)),
                None => None::<(Seq<char>, int)>,
            }),
        decreases left,
    {
        if !(p < buf.len() && buf.len() - p >= 4) {
            return None;
        }
        let csub = vstd::slice::slice_subrange(buf.as_slice(), p, p + 4);
        let v = vstd::bytes::u32_from_le_bytes(csub);
        match char_from_u32(v) {
            Some(c) => {
                out.push(c);
                proof {
                    let rest = spec_dec_char_seq(buf@, p + 4, left - 1);
                    if rest is Some {
                        assert(out@.drop_last() + (seq![c] + rest->Some_0.0) =~= out@
                            + rest->Some_0.0);
                    }
                }
                p = p + 4;
                left = left - 1;
            },
            None => {
                return None;
            },
        }
    }
    proof {
        assert(out@ + Seq::<char>::empty() =~= out@);
    }
    Some((out, p))
}

// ---------------------------------------------------------------------------
// Characters and text
// ---------------------------------------------------------------------------

/// A single character, carried as its scalar value in a u64 field.
pub open spec fn spec_enc_char(c: char) -> Seq<u8> {
    spec_enc_u64(c as u32 as u64)
}

pub open spec fn spec_dec_char(s: Seq<u8>, pos: int) -> Option<(char, int)> {
    match spec_dec_u64(s, pos) {
        Some((x, p)) => if x <= u32::MAX && is_scalar_value(x as u32) {
            Some(((x as u32) as char, p))
        } else {
            None
        },
        None => None,
    }
}

pub fn enc_char(out: &mut Vec<u8>, c: char)
    ensures
        final(out)@ == old(out)@ + spec_enc_char(c),
{
    enc_u64(out, c as u32 as u64);
}

pub fn dec_char(buf: &Vec<u8>, pos: usize) -> (r: Option<(char, usize)>)
    ensures
        match r {
            Some((c, p)) => spec_dec_char(buf@, pos as int) == Some((c, p as int)),
            None => spec_dec_char(buf@, pos as int) is None,
        },
{
    match dec_u64(buf, pos) {
        Some((x, p)) => {
            if x <= u32::MAX as u64 {
                match char_from_u32(x as u32) {
                    Some(c) => Some((c, p)),
                    None => None,
                }
            } else {
                None
            }
        },
        None => None,
    }
}

pub proof fn lemma_dec_enc_char(s: Seq<u8>, pos: int, c: char)
    requires
        0 <= pos,
        pos + 9 <= s.len(),
        s.subrange(pos, pos + 9) == spec_enc_char(c),
    ensures
        spec_dec_char(s, pos) == Some((c, pos + 9)),
{
    lemma_dec_enc_u64(s, pos, c as u32 as u64);
    lemma_char_scalar_roundtrip(c);
}

/// Relies on str::chars: the characters of the string, in order.
#[verifier::external_body]
pub(crate) fn string_to_chars(s: &str) -> (r: Vec<char>)
    ensures
        r@ == s@,
{
    s.chars().collect()
}

/// Relies on String's FromIterator impl over char: collecting characters
/// yields the string holding exactly those characters, in order.
#[verifier::external_body]
pub(crate) fn string_from_chars(v: &Vec<char>) -> (r: String)
    ensures
        r@ == v@,
{
    v.iter().collect()
}

pub proof fn lemma_dec_enc_str(s: Seq<u8>, pos: int, cs: Seq<char>)
    requires
        0 <= pos,
        cs.len() <= u32::MAX,
        pos + 5 + 4 * cs.len() <= s.len(),
        s.subrange(pos, pos + 5 + 4 * cs.len()) == spec_enc_str(cs),
    ensures
        spec_dec_str(s, pos) == Some((cs, pos + 5 + 4 * cs.len())),
{
    vstd::bytes::lemma_auto_spec_u32_to_from_le_bytes();
    lemma_enc_char_seq_len(cs);
    let e = spec_enc_str(cs);
    assert(e.len() == 5 + 4 * cs.len());
    assert(s[pos] == e[0]);
    assert(s.subrange(pos + 1, pos + 5) =~= e.subrange(1, 5));
    assert(e.subrange(1, 5) =~= vstd::bytes::spec_u32_to_le_bytes(cs.len() as u32));
    assert(vstd::bytes::spec_u32_from_le_bytes(s.subrange(pos + 1, pos + 5)) == cs.len() as u32);
    assert(s.subrange(pos + 5, pos + 5 + 4 * cs.len()) =~= e.subrange(5, e.len() as int));
    assert(e.subrange(5, e.len() as int) =~= spec_enc_char_seq(cs));
    lemma_dec_enc_char_seq(s, pos + 5, cs);
}

} // verus!

