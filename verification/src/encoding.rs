//! The value encodings of the `base64`, `base64offset`, `wide`, `utf16le`, `utf16be` and
//! `utf16` field modifiers: a value is turned into bytes (UTF-8, or UTF-16 with either byte
//! order), and the bytes into the base64 texts that an event field is searched for.
use vstd::prelude::*;
use vstd::utf8::encode_utf8;
use crate::backends::{base64_encode, base64_of};
use crate::detection::{Base64Mode, Modifiers, TextEncoding};
use crate::text::{chars_of, string_from_chars};

verus! {

/// The UTF-16 code units of a character: one below `0x10000`, otherwise a surrogate pair.
pub open spec fn utf16_units(c: char) -> Seq<int> {
    let n = (c as u32) as int;
    if n < 0x10000 {
        seq![n]
    } else {
        seq![0xD800 + (n - 0x10000) / 1024, 0xDC00 + (n - 0x10000) % 1024]
    }
}

/// The two bytes of a code unit, most significant first when `big_endian`.
pub open spec fn unit_bytes(u: int, big_endian: bool) -> Seq<u8> {
    if big_endian {
        seq![(u / 256) as u8, (u % 256) as u8]
    } else {
        seq![(u % 256) as u8, (u / 256) as u8]
    }
}

/// The bytes of one character in UTF-16.
pub open spec fn char_utf16(c: char, big_endian: bool) -> Seq<u8> {
    let us = utf16_units(c);
    if us.len() == 1 {
        unit_bytes(us[0], big_endian)
    } else {
        unit_bytes(us[0], big_endian) + unit_bytes(us[1], big_endian)
    }
}

/// The UTF-16 encoding of a text, without a byte order mark.
pub open spec fn utf16_bytes(s: Seq<char>, big_endian: bool) -> Seq<u8>
    decreases s.len(),
{
    if s.len() == 0 {
        Seq::empty()
    } else {
        utf16_bytes(s.drop_last(), big_endian) + char_utf16(s.last(), big_endian)
    }
}

/// The bytes that a text is encoded into: UTF-8 unless an encoding modifier says otherwise;
/// `utf16` is little-endian UTF-16 after the byte order mark `FF FE`.
pub open spec fn encoded_bytes(enc: TextEncoding, s: Seq<char>) -> Seq<u8> {
    match enc {
        TextEncoding::Utf8 => encode_utf8(s),
        TextEncoding::Utf16Le => utf16_bytes(s, false),
        TextEncoding::Utf16Be => utf16_bytes(s, true),
        TextEncoding::Utf16 => seq![0xFFu8, 0xFEu8] + utf16_bytes(s, false),
    }
}

/// `n` space bytes.
pub open spec fn spaces(n: int) -> Seq<u8> {
    Seq::new(n as nat, |j: int| 0x20u8)
}

/// The `i`-th text (`i` in 0, 1, 2) that `base64offset` searches for: the base64 encoding of
/// the bytes after `i` filler bytes, without the characters that depend on the filler or on
/// the bytes that follow.
pub open spec fn offset_variant(b: Seq<u8>, i: int) -> Seq<char> {
    let e = base64_of(spaces(i) + b);
    let start = if i == 0 { 0int } else if i == 1 { 2int } else { 3int };
    let r = (b.len() + i) % 3;
    let cut = if r == 0 { 0int } else if r == 1 { 3int } else { 2int };
    if start <= e.len() - cut {
        e.subrange(start, e.len() - cut)
    } else {
        Seq::empty()
    }
}

/// The encoded bytes are few enough to be encoded (no allocation can be larger).
pub open spec fn encodable(b: Seq<u8>) -> bool {
    b.len() + 2 <= usize::MAX / 2
}

/// The texts that a field is searched for under the base64 modifiers of `m`: the base64
/// encoding of the value's bytes (`base64`), or its three offset variants (`base64offset`).
pub open spec fn encoded_patterns(m: Modifiers, p: Seq<char>) -> Seq<Seq<char>> {
    let b = encoded_bytes(m.encoding, p);
    if !encodable(b) {
        Seq::empty()
    } else {
        match m.base64 {
            Base64Mode::Off => seq![p],
            Base64Mode::Plain => seq![base64_of(b)],
            Base64Mode::Offset => seq![offset_variant(b, 0), offset_variant(b, 1), offset_variant(b, 2)],
        }
    }
}

/// Appends the bytes of a code unit (see [`unit_bytes`]).
fn push_unit(out: &mut Vec<u8>, u: u32, big_endian: bool)
    requires
        u < 0x10000,
    ensures
        final(out)@ == old(out)@ + unit_bytes(u as int, big_endian),
{
    let hi = (u / 256) as u8;
    let lo = (u % 256) as u8;
    if big_endian {
        out.push(hi);
        out.push(lo);
    } else {
        out.push(lo);
        out.push(hi);
    }
}

/// The UTF-16 encoding of the characters (see [`utf16_bytes`]), after `out`.
fn push_utf16(out: &mut Vec<u8>, cs: &[char], big_endian: bool)
    ensures
        final(out)@ == old(out)@ + utf16_bytes(cs@, big_endian),
{
    let ghost start = out@;
    let mut i: usize = 0;
    assert(cs@.take(0) =~= Seq::<char>::empty());
    while i < cs.len()
        invariant
            0 <= i <= cs@.len(),
            out@ == start + utf16_bytes(cs@.take(i as int), big_endian),
        decreases cs@.len() - i,
    {
        let c = cs[i];
        let n = c as u32;
        proof {
            vstd::utf8::char_is_scalar(c);
        }
        assert(cs@.take(i + 1).drop_last() =~= cs@.take(i as int));
        assert(cs@.take(i + 1).last() == c);
        let ghost before = out@;
        assert(utf16_bytes(cs@.take(i + 1), big_endian)
            == utf16_bytes(cs@.take(i as int), big_endian) + char_utf16(c, big_endian));
        if n < 0x10000 {
            push_unit(out, n, big_endian);
            assert(char_utf16(c, big_endian) == unit_bytes(n as int, big_endian));
        } else {
            let d = n - 0x10000;
            push_unit(out, 0xD800 + d / 1024, big_endian);
            push_unit(out, 0xDC00 + d % 1024, big_endian);
            assert(utf16_units(c) == seq![0xD800 + d / 1024, 0xDC00 + d % 1024]);
            assert(char_utf16(c, big_endian) == unit_bytes(0xD800 + d / 1024, big_endian)
                + unit_bytes(0xDC00 + d % 1024, big_endian));
        }
        assert(out@ =~= start + utf16_bytes(cs@.take(i + 1), big_endian));
        i = i + 1;
    }
    assert(cs@.take(cs@.len() as int) =~= cs@);
}

/// The bytes that the text is encoded into (see [`encoded_bytes`]).
pub fn text_bytes(enc: TextEncoding, s: &str) -> (res: Vec<u8>)
    ensures
        res@ == encoded_bytes(enc, s@),
{
    let mut out: Vec<u8> = Vec::new();
    match enc {
        TextEncoding::Utf8 => {
            let b = s.as_bytes();
            let mut i: usize = 0;
            while i < b.len()
                invariant
                    0 <= i <= b@.len(),
                    b@ == encode_utf8(s@),
                    out@ == b@.take(i as int),
                decreases b@.len() - i,
            {
                out.push(b[i]);
                assert(b@.take(i + 1) =~= b@.take(i as int).push(b@[i as int]));
                i = i + 1;
            }
            assert(b@.take(b@.len() as int) =~= b@);
        },
        TextEncoding::Utf16Le => {
            let cs = chars_of(s);
            push_utf16(&mut out, cs.as_slice(), false);
            assert(out@ =~= utf16_bytes(s@, false));
        },
        TextEncoding::Utf16Be => {
            let cs = chars_of(s);
            push_utf16(&mut out, cs.as_slice(), true);
            assert(out@ =~= utf16_bytes(s@, true));
        },
        TextEncoding::Utf16 => {
            out.push(0xFF);
            out.push(0xFE);
            let cs = chars_of(s);
            push_utf16(&mut out, cs.as_slice(), false);
        },
    }
    out
}

/// The `i`-th offset variant of the bytes (see [`offset_variant`]).
fn offset_text(b: &Vec<u8>, i: usize) -> (res: String)
    requires
        i < 3,
        encodable(b@),
    ensures
        res@ == offset_variant(b@, i as int),
{
    let mut padded: Vec<u8> = Vec::new();
    let mut k: usize = 0;
    while k < i
        invariant
            0 <= k <= i,
            i < 3,
            padded@ == spaces(k as int),
        decreases i - k,
    {
        padded.push(0x20);
        assert(padded@ =~= spaces(k + 1));
        k = k + 1;
    }
    let mut j: usize = 0;
    while j < b.len()
        invariant
            0 <= j <= b@.len(),
            padded@ == spaces(i as int) + b@.take(j as int),
        decreases b@.len() - j,
    {
        padded.push(b[j]);
        assert(b@.take(j + 1) =~= b@.take(j as int).push(b@[j as int]));
        j = j + 1;
    }
    assert(b@.take(b@.len() as int) =~= b@);
    let e = base64_encode(padded.as_slice());
    let ec = chars_of(e.as_str());
    let start: usize = if i == 0 { 0 } else if i == 1 { 2 } else { 3 };
    let r = (b.len() % 3 + i) % 3;
    assert(r as int == (b@.len() + i) % 3) by (nonlinear_arith)
        requires r as int == (b@.len() as int % 3 + i as int) % 3, i < 3;
    let cut: usize = if r == 0 { 0 } else if r == 1 { 3 } else { 2 };
    if cut <= ec.len() && start <= ec.len() - cut {
        let end = ec.len() - cut;
        let piece = vstd::slice::slice_subrange(ec.as_slice(), start, end);
        string_from_chars(piece)
    } else {
        String::new()
    }
}

/// The texts that the value `p` is searched for under `m` (see [`encoded_patterns`]).
pub fn patterns_of(m: &Modifiers, p: &str) -> (res: Vec<String>)
    ensures
        res@.len() == encoded_patterns(*m, p@).len(),
        forall|k: int| 0 <= k < res@.len() ==> (#[trigger] res@[k])@ == encoded_patterns(*m, p@)[k],
{
    let b = text_bytes(m.encoding, p);
    let mut out: Vec<String> = Vec::new();
    if b.len() > usize::MAX / 2 - 2 {
        return out;
    }
    match m.base64 {
        Base64Mode::Off => {
            out.push(p.to_owned());
        },
        Base64Mode::Plain => {
            out.push(base64_encode(b.as_slice()));
        },
        Base64Mode::Offset => {
            out.push(offset_text(&b, 0));
            out.push(offset_text(&b, 1));
            out.push(offset_text(&b, 2));
        },
    }
    out
}

} // verus!
