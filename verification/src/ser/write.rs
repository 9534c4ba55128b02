use vstd::prelude::*;

use crate::info::tag::{Len, LenNum, Tag};

verus! {

/// `256` raised to the power `k`.
pub open spec fn pow256(k: nat) -> nat
    decreases k,
{
    if k == 0 {
        1
    } else {
        256 * pow256((k - 1) as nat)
    }
}

/// The base-128 digits of `n` (most significant first), each with the
/// continuation bit set; empty for zero.
pub open spec fn spec_base128_high(n: nat) -> Seq<u8>
    decreases n,
{
    if n == 0 {
        seq![]
    } else {
        spec_base128_high(n / 128).push((n % 128 + 128) as u8)
    }
}

/// Base-128 encoding of `n`: the digits above the lowest carry the
/// continuation bit, the lowest digit does not. Zero is the single byte `0x00`.
pub open spec fn spec_base128(n: nat) -> Seq<u8> {
    spec_base128_high(n / 128).push((n % 128) as u8)
}

/// The identifier octets of a tag: one byte for tag numbers below 31,
/// otherwise `0x1f` in the low bits followed by the base-128 tag number.
pub open spec fn spec_tag_bytes(tag: Tag) -> Seq<u8> {
    if tag.tagnum < 31 {
        seq![(tag.spec_tag_byte() + tag.tagnum) as u8]
    } else {
        seq![(tag.spec_tag_byte() + 0x1f) as u8] + spec_base128(tag.tagnum as nat)
    }
}

/// The big-endian bytes of `n` without leading zeros; empty for zero.
pub open spec fn spec_be_bytes(n: nat) -> Seq<u8>
    decreases n,
{
    if n == 0 {
        seq![]
    } else {
        spec_be_bytes(n / 256).push((n % 256) as u8)
    }
}

/// Definite length octets: short form below 128, otherwise `0x80 | k`
/// followed by the `k` significant big-endian bytes of the length.
pub open spec fn spec_len_def_bytes(n: nat) -> Seq<u8> {
    if n < 128 {
        seq![n as u8]
    } else {
        seq![(0x80 + spec_be_bytes(n).len()) as u8] + spec_be_bytes(n)
    }
}

/// Length octets of a definite or indefinite length.
pub open spec fn spec_len_bytes(len: Len) -> Seq<u8> {
    match len {
        Len::Def(n) => spec_len_def_bytes(n as nat),
        Len::Indef => seq![0x80u8],
    }
}

/// Identifier and length octets.
pub open spec fn spec_header_bytes(tag: Tag, len: Len) -> Seq<u8> {
    spec_tag_bytes(tag) + spec_len_bytes(len)
}

/// A complete primitive encoding: identifier, definite length, content.
pub open spec fn spec_primitive_bytes(tag: Tag, content: Seq<u8>) -> Seq<u8> {
    spec_tag_bytes(tag) + spec_len_def_bytes(content.len()) + content
}

pub open spec fn abs(v: int) -> nat {
    if v < 0 {
        (-v) as nat
    } else {
        v as nat
    }
}

/// The shortest two's complement big-endian encoding of `v` (DER INTEGER content).
pub open spec fn spec_int_content(v: int) -> Seq<u8>
    decreases abs(v),
{
    if -128 <= v < 128 {
        seq![(v % 256) as u8]
    } else {
        spec_int_content(v / 256).push((v % 256) as u8)
    }
}

/// Content octets of BOOLEAN.
pub open spec fn spec_bool_content(value: bool) -> Seq<u8> {
    if value {
        seq![0xffu8]
    } else {
        seq![0x00u8]
    }
}

/// The base-128 encodings of the arcs, one after another.
pub open spec fn spec_arcs_bytes(arcs: Seq<u64>) -> Seq<u8>
    decreases arcs.len(),
{
    if arcs.len() == 0 {
        seq![]
    } else {
        spec_arcs_bytes(arcs.drop_last()) + spec_base128(arcs.last() as nat)
    }
}

/// The first content octet of an OBJECT IDENTIFIER: `40 * arc0 + arc1`, each arc
/// taken modulo 256.
pub open spec fn spec_oid_first_byte(value: Seq<u64>) -> int {
    (value[0] % 256) * 40 + value[1] % 256
}

/// Whether an OBJECT IDENTIFIER can be written: two leading arcs whose first
/// octet fits in a byte.
pub open spec fn oid_writable(value: Seq<u64>) -> bool {
    value.len() >= 2 && spec_oid_first_byte(value) < 256
}

/// Content octets of an OBJECT IDENTIFIER.
pub open spec fn spec_oid_content(value: Seq<u64>) -> Seq<u8> {
    seq![spec_oid_first_byte(value) as u8] + spec_arcs_bytes(value.skip(2))
}

// ---------------------------------------------------------------------------
// Lemmas on the encodings
pub proof fn lemma_be_bytes_len(n: nat, k: nat)
    requires
        n < pow256(k),
    ensures
        spec_be_bytes(n).len() <= k,
        n != 0 ==> spec_be_bytes(n).len() >= 1,
    decreases k,
{
    if n != 0 {
        if k == 0 {
            assert(false);
        } else {
            assert(n / 256 < pow256((k - 1) as nat));
            lemma_be_bytes_len(n / 256, (k - 1) as nat);
        }
    }
}

/// `128` raised to the power `k`.
pub open spec fn pow128(k: nat) -> nat
    decreases k,
{
    if k == 0 {
        1
    } else {
        128 * pow128((k - 1) as nat)
    }
}

pub proof fn lemma_base128_high_len(n: nat, k: nat)
    requires
        n < pow128(k),
    ensures
        spec_base128_high(n).len() <= k,
        n != 0 ==> spec_base128_high(n).len() >= 1,
    decreases k,
{
    if n != 0 {
        if k == 0 {
            assert(false);
        } else {
            assert(n / 128 < pow128((k - 1) as nat));
            lemma_base128_high_len(n / 128, (k - 1) as nat);
        }
    }
}

/// A 64-bit number takes at most ten base-128 digits.
pub proof fn lemma_base128_len(n: u64)
    ensures
        1 <= spec_base128(n as nat).len() <= 10,
{
    reveal_with_fuel(pow128, 10);
    assert(pow128(9) == 0x8000_0000_0000_0000);
    lemma_base128_high_len(n as nat / 128, 9);
}

/// The arcs encoding splits at its first arc.
pub proof fn lemma_arcs_bytes_cons(x: u64, s: Seq<u64>)
    ensures
        spec_arcs_bytes(seq![x] + s) == spec_base128(x as nat) + spec_arcs_bytes(s),
    decreases s.len(),
{
    if s.len() == 0 {
        assert(seq![x] + s == seq![x]);
        assert(seq![x].drop_last() == Seq::<u64>::empty());
        assert(spec_arcs_bytes(Seq::<u64>::empty()) == Seq::<u8>::empty());
        assert(spec_arcs_bytes(seq![x]) == spec_base128(x as nat));
        assert(spec_base128(x as nat) + spec_arcs_bytes(s) == spec_base128(x as nat));
    } else {
        lemma_arcs_bytes_cons(x, s.drop_last());
        assert((seq![x] + s).drop_last() == seq![x] + s.drop_last());
        assert((seq![x] + s).last() == s.last());
        assert(spec_arcs_bytes(seq![x] + s) == spec_arcs_bytes(seq![x] + s.drop_last())
            + spec_base128(s.last() as nat));
    }
}

/// The arcs encoding of `arcs` is at most ten bytes per arc.
pub proof fn lemma_arcs_bytes_len(arcs: Seq<u64>)
    ensures
        spec_arcs_bytes(arcs).len() <= 10 * arcs.len(),
    decreases arcs.len(),
{
    if arcs.len() > 0 {
        lemma_arcs_bytes_len(arcs.drop_last());
        lemma_base128_len(arcs.last());
    }
}

pub proof fn lemma_pow256_8()
    ensures
        pow256(8) == 0x1_0000_0000_0000_0000,
{
    reveal_with_fuel(pow256, 9);
}

// ---------------------------------------------------------------------------
// Writers
#[inline]
pub fn write_byte(w: &mut Vec<u8>, byte: u8) -> (r: Result<(), std::io::Error>)
    ensures
        r is Ok,
        final(w)@ == old(w)@.push(byte),
{
    w.push(byte);
    Ok(())
}

fn base128_high(n: u64) -> (v: Vec<u8>)
    ensures
        v@ == spec_base128_high(n as nat),
    decreases n,
{
    if n == 0 {
        Vec::new()
    } else {
        let mut v = base128_high(n / 128);
        v.push((n % 128 + 128) as u8);
        v
    }
}

#[inline]
pub fn write_base128(w: &mut Vec<u8>, u: u64) -> (r: Result<(), std::io::Error>)
    ensures
        r is Ok,
        final(w)@ == old(w)@ + spec_base128(u as nat),
{
    let mut high = base128_high(u / 128);
    w.append(&mut high);
    w.push((u % 128) as u8);
    Ok(())
}

#[inline]
pub fn write_tag(w: &mut Vec<u8>, tag: &Tag) -> (r: Result<(), std::io::Error>)
    ensures
        r is Ok,
        final(w)@ == old(w)@ + spec_tag_bytes(*tag),
{
    let tag_byte = tag.tag_byte();
    assert(tag_byte % 32 == 0);
    if tag.is_short() {
        let n = tag.tagnum() as u8;
        assert(tag_byte | n == tag_byte + n) by (bit_vector)
            requires
                tag_byte % 32 == 0,
                n < 31,
        ;
        write_byte(w, tag_byte | n)
    } else {
        assert(tag_byte | 0x1f == tag_byte + 0x1f) by (bit_vector)
            requires
                tag_byte % 32 == 0,
        ;
        let _ = write_byte(w, tag_byte | 0x1f);
        write_base128(w, tag.tagnum())
    }
}

fn be_bytes(n: u64) -> (v: Vec<u8>)
    ensures
        v@ == spec_be_bytes(n as nat),
    decreases n,
{
    if n == 0 {
        Vec::new()
    } else {
        let mut v = be_bytes(n / 256);
        v.push((n % 256) as u8);
        v
    }
}

#[inline]
pub fn write_len_def(w: &mut Vec<u8>, n: usize) -> (r: Result<(), std::io::Error>)
    ensures
        r is Ok,
        final(w)@ == old(w)@ + spec_len_def_bytes(n as nat),
{
    if n < 128 {
        write_byte(w, n as u8)
    } else {
        let mut chunk = be_bytes(n as u64);
        proof {
            lemma_pow256_8();
            lemma_be_bytes_len(n as nat, 8);
        }
        let k = chunk.len() as u8;
        assert(k | 0x80 == 0x80 + k) by (bit_vector)
            requires
                k <= 8,
        ;
        let _ = write_byte(w, k | 0x80);
        w.append(&mut chunk);
        Ok(())
    }
}

#[inline]
pub fn write_len_indef(w: &mut Vec<u8>) -> (r: Result<(), std::io::Error>)
    ensures
        r is Ok,
        final(w)@ == old(w)@.push(0x80),
{
    write_byte(w, 0x80)
}

#[inline]
pub fn write_len(w: &mut Vec<u8>, length: &Len) -> (r: Result<(), std::io::Error>)
    ensures
        r is Ok,
        final(w)@ == old(w)@ + spec_len_bytes(*length),
{
    match *length {
        Len::Def(l) => write_len_def(w, l),
        Len::Indef => write_len_indef(w),
    }
}

#[inline]
pub fn _write_header(w: &mut Vec<u8>, tag: &Tag, len: LenNum) -> (r: Result<(), std::io::Error>)
    ensures
        r is Ok,
        final(w)@ == old(w)@ + spec_tag_bytes(*tag) + spec_len_def_bytes(len as nat),
{
    let _ = write_tag(w, tag);
    write_len_def(w, len)
}

#[inline]
pub fn write_header(w: &mut Vec<u8>, tag: &Tag, len: &Len) -> (r: Result<(), std::io::Error>)
    ensures
        r is Ok,
        final(w)@ == old(w)@ + spec_header_bytes(*tag, *len),
{
    let _ = write_tag(w, tag);
    let r = write_len(w, len);
    assert(final(w)@ == old(w)@ + spec_header_bytes(*tag, *len));
    r
}


#[inline]
pub fn write_primitive(w: &mut Vec<u8>, tag: &Tag, slice: &[u8]) -> (r: Result<(), std::io::Error>)
    ensures
        r is Ok,
        final(w)@ == old(w)@ + spec_primitive_bytes(*tag, slice@),
{
    let _ = _write_header(w, tag, slice.len());
    w.extend_from_slice(slice);
    Ok(())
}

#[inline]
pub fn write_boolean(w: &mut Vec<u8>, tag: &Tag, value: bool) -> (r: Result<(), std::io::Error>)
    ensures
        r is Ok,
        final(w)@ == old(w)@ + spec_primitive_bytes(*tag, spec_bool_content(value)),
{
    let _ = _write_header(w, tag, 1);
    let r = write_byte(w, if value { 0xff } else { 0x00 });
    assert(final(w)@ == old(w)@ + spec_primitive_bytes(*tag, spec_bool_content(value)));
    r
}

/// `v / 256`, rounded down.
fn floor_div_256(v: i128) -> (q: i128)
    ensures
        q == v / 256,
{
    if v >= 0 {
        v / 256
    } else {
        let p: i128 = -(v + 1);
        let d: i128 = p / 256;
        assert(v / 256 == -d - 1);
        -d - 1
    }
}

/// The DER INTEGER content octets of `v`.
fn int_content(v: i128) -> (c: Vec<u8>)
    requires
        -0x1_0000_0000_0000_0000 <= v < 0x1_0000_0000_0000_0000,
    ensures
        c@ == spec_int_content(v as int),
    decreases abs(v as int),
{
    let q = floor_div_256(v);
    let b = (v - 256 * q) as u8;
    if -128 <= v && v < 128 {
        let mut c = Vec::new();
        c.push(b);
        c
    } else {
        let mut c = int_content(q);
        c.push(b);
        c
    }
}

/// Writes `value` as a primitive INTEGER with the given tag.
fn write_integer(w: &mut Vec<u8>, tag: &Tag, value: i128) -> (r: Result<(), std::io::Error>)
    requires
        -0x1_0000_0000_0000_0000 <= value < 0x1_0000_0000_0000_0000,
    ensures
        r is Ok,
        final(w)@ == old(w)@ + spec_primitive_bytes(*tag, spec_int_content(value as int)),
{
    let c = int_content(value);
    write_primitive(w, tag, c.as_slice())
}

pub fn write_i8(w: &mut Vec<u8>, tag: &Tag, value: i8) -> (r: Result<(), std::io::Error>)
    ensures
        r is Ok,
        final(w)@ == old(w)@ + spec_primitive_bytes(*tag, spec_int_content(value as int)),
{
    write_integer(w, tag, value as i128)
}

pub fn write_i16(w: &mut Vec<u8>, tag: &Tag, value: i16) -> (r: Result<(), std::io::Error>)
    ensures
        r is Ok,
        final(w)@ == old(w)@ + spec_primitive_bytes(*tag, spec_int_content(value as int)),
{
    write_integer(w, tag, value as i128)
}

pub fn write_i32(w: &mut Vec<u8>, tag: &Tag, value: i32) -> (r: Result<(), std::io::Error>)
    ensures
        r is Ok,
        final(w)@ == old(w)@ + spec_primitive_bytes(*tag, spec_int_content(value as int)),
{
    write_integer(w, tag, value as i128)
}

pub fn write_i64(w: &mut Vec<u8>, tag: &Tag, value: i64) -> (r: Result<(), std::io::Error>)
    ensures
        r is Ok,
        final(w)@ == old(w)@ + spec_primitive_bytes(*tag, spec_int_content(value as int)),
{
    write_integer(w, tag, value as i128)
}

pub fn write_isize(w: &mut Vec<u8>, tag: &Tag, value: isize) -> (r: Result<(), std::io::Error>)
    ensures
        r is Ok,
        final(w)@ == old(w)@ + spec_primitive_bytes(*tag, spec_int_content(value as int)),
{
    write_integer(w, tag, value as i128)
}

pub fn write_u8(w: &mut Vec<u8>, tag: &Tag, value: u8) -> (r: Result<(), std::io::Error>)
    ensures
        r is Ok,
        final(w)@ == old(w)@ + spec_primitive_bytes(*tag, spec_int_content(value as int)),
{
    write_integer(w, tag, value as i128)
}

pub fn write_u16(w: &mut Vec<u8>, tag: &Tag, value: u16) -> (r: Result<(), std::io::Error>)
    ensures
        r is Ok,
        final(w)@ == old(w)@ + spec_primitive_bytes(*tag, spec_int_content(value as int)),
{
    write_integer(w, tag, value as i128)
}

pub fn write_u32(w: &mut Vec<u8>, tag: &Tag, value: u32) -> (r: Result<(), std::io::Error>)
    ensures
        r is Ok,
        final(w)@ == old(w)@ + spec_primitive_bytes(*tag, spec_int_content(value as int)),
{
    write_integer(w, tag, value as i128)
}

pub fn write_u64(w: &mut Vec<u8>, tag: &Tag, value: u64) -> (r: Result<(), std::io::Error>)
    ensures
        r is Ok,
        final(w)@ == old(w)@ + spec_primitive_bytes(*tag, spec_int_content(value as int)),
{
    write_integer(w, tag, value as i128)
}

pub fn write_usize(w: &mut Vec<u8>, tag: &Tag, value: usize) -> (r: Result<(), std::io::Error>)
    ensures
        r is Ok,
        final(w)@ == old(w)@ + spec_primitive_bytes(*tag, spec_int_content(value as int)),
{
    write_integer(w, tag, value as i128)
}

pub fn write_bit_string(w: &mut Vec<u8>, tag: &Tag, unused_bits: u8, bytes: &[u8]) -> (r: Result<(), std::io::Error>)
    requires
        unused_bits < 8,
        bytes@.len() < usize::MAX,
    ensures
        r is Ok,
        final(w)@ == old(w)@ + spec_primitive_bytes(*tag, seq![unused_bits] + bytes@),
{
    let _ = _write_header(w, tag, bytes.len() + 1);
    let _ = write_byte(w, unused_bits);
    w.extend_from_slice(bytes);
    assert(final(w)@ == old(w)@ + spec_primitive_bytes(*tag, seq![unused_bits] + bytes@));
    Ok(())
}

pub fn write_octet_string(w: &mut Vec<u8>, tag: &Tag, value: &[u8]) -> (r: Result<(), std::io::Error>)
    ensures
        r is Ok,
        final(w)@ == old(w)@ + spec_primitive_bytes(*tag, value@),
{
    let _ = _write_header(w, tag, value.len());
    w.extend_from_slice(value);
    Ok(())
}

pub fn write_null(w: &mut Vec<u8>, tag: &Tag) -> (r: Result<(), std::io::Error>)
    ensures
        r is Ok,
        final(w)@ == old(w)@ + spec_primitive_bytes(*tag, seq![]),
{
    let r = _write_header(w, tag, 0);
    assert(final(w)@ == old(w)@ + spec_primitive_bytes(*tag, seq![]));
    r
}

/// Writes the base-128 encoding of `n` so that it ends at index `pos` of `buf`,
/// and returns the index where it starts.
pub fn _rwrite_base128(buf: &mut Vec<u8>, pos: usize, n: u64) -> (start: usize)
    requires
        pos < old(buf)@.len(),
        spec_base128(n as nat).len() <= pos + 1,
    ensures
        start + spec_base128(n as nat).len() == pos + 1,
        final(buf)@ == old(buf)@.take(start as int) + spec_base128(n as nat) + old(buf)@.skip(
            pos + 1,
        ),
{
    let ghost whole = spec_base128(n as nat);
    let ghost end = pos + 1;
    let mut n = n;
    let mut pos = pos;
    buf.set(pos, (n % 128) as u8);
    n = n / 128;
    while n > 0
        invariant
            pos < end <= old(buf)@.len(),
            buf@.len() == old(buf)@.len(),
            whole.len() <= end,
            whole == spec_base128_high(n as nat) + buf@.subrange(pos as int, end),
            buf@.take(pos as int) == old(buf)@.take(pos as int),
            buf@.skip(end) == old(buf)@.skip(end),
        decreases n,
    {
        let ghost old_buf = buf@;
        let ghost suffix = buf@.subrange(pos as int, end);
        assert(spec_base128_high(n as nat) == spec_base128_high(n as nat / 128).push(
            (n % 128 + 128) as u8,
        ));
        pos = pos - 1;
        buf.set(pos, (n % 128 + 128) as u8);
        assert(buf@.subrange(pos as int, end) == seq![(n % 128 + 128) as u8] + suffix);
        assert(buf@.take(pos as int) == old_buf.take(pos as int));
        assert(buf@.skip(end) == old_buf.skip(end));
        n = n / 128;
    }
    assert(spec_base128_high(0) == Seq::<u8>::empty());
    assert(buf@ == buf@.take(pos as int) + buf@.subrange(pos as int, end) + buf@.skip(end));
    pos
}

pub fn write_short_object_identifier(w: &mut Vec<u8>, tag: &Tag, value: &[u64]) -> (r: Result<(), std::io::Error>)
    requires
        oid_writable(value@),
        value@.len() <= 130,
    ensures
        r is Ok,
        final(w)@ == old(w)@ + spec_primitive_bytes(*tag, spec_oid_content(value@)),
{
    let first = ((value[0] % 256) as u8) * 40 + (value[1] % 256) as u8;
    let tail = value.split_at(2).1;
    let mut buf: Vec<u8> = vec![0; 1280];
    let mut pos: usize = 1280;
    let mut i: usize = tail.len();
    proof {
        lemma_arcs_bytes_len(tail@);
    }
    while i > 0
        invariant
            tail@ == value@.skip(2),
            tail@.len() <= 128,
            i <= tail@.len(),
            buf@.len() == 1280,
            pos <= 1280,
            10 * i <= pos,
            buf@.skip(pos as int) == spec_arcs_bytes(tail@.skip(i as int)),
        decreases i,
    {
        i = i - 1;
        let u = tail[i];
        proof {
            lemma_base128_len(u);
            lemma_arcs_bytes_cons(u, tail@.skip(i + 1));
            assert(tail@.skip(i as int) == seq![u] + tail@.skip(i + 1));
        }
        let ghost old_buf = buf@;
        pos = _rwrite_base128(&mut buf, pos - 1, u);
        assert(buf@.skip(pos as int) == spec_base128(u as nat) + old_buf.skip(pos + spec_base128(u as nat).len()));
    }
    assert(tail@.skip(0) == tail@);
    let content = buf.split_at(pos).1;
    let _ = _write_header(w, tag, content.len() + 1);
    let _ = write_byte(w, first);
    w.extend_from_slice(content);
    assert(final(w)@ == old(w)@ + spec_primitive_bytes(*tag, spec_oid_content(value@)));
    Ok(())
}

pub fn write_object_identifier(w: &mut Vec<u8>, tag: &Tag, value: &[u64]) -> (r: Result<(), std::io::Error>)
    requires
        oid_writable(value@),
        10 * value@.len() < usize::MAX,
    ensures
        r is Ok,
        final(w)@ == old(w)@ + spec_primitive_bytes(*tag, spec_oid_content(value@)),
{
    let mut buf: Vec<u8> = Vec::new();
    let mut i: usize = 2;
    while i < value.len()
        invariant
            2 <= i <= value@.len(),
            buf@ == spec_arcs_bytes(value@.subrange(2, i as int)),
        decreases value@.len() - i,
    {
        let _ = write_base128(&mut buf, value[i]);
        assert(value@.subrange(2, i + 1).drop_last() == value@.subrange(2, i as int));
        i = i + 1;
    }
    assert(value@.subrange(2, value@.len() as int) == value@.skip(2));
    proof {
        lemma_arcs_bytes_len(value@.skip(2));
    }
    let first = ((value[0] % 256) as u8) * 40 + (value[1] % 256) as u8;
    let _ = _write_header(w, tag, buf.len() + 1);
    let _ = write_byte(w, first);
    w.append(&mut buf);
    assert(final(w)@ == old(w)@ + spec_primitive_bytes(*tag, spec_oid_content(value@)));
    Ok(())
}

} // verus!
