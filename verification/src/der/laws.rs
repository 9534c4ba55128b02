//! What reading gives back of what was written, at the level of the DER octets.
use vstd::prelude::*;

use crate::der::read::{
    min, shifted, spec_base128_from, spec_read_arcs, spec_read_bit_string, spec_read_boolean,
    spec_read_object_identifier, spec_read_octet_string, spec_read_signed, spec_read_unsigned,
    spec_twos_value, lemma_be_value_first, lemma_be_value_bound, spec_be_value, spec_class_of, spec_content_type_of,
    spec_read_base128, spec_read_header, spec_read_len, spec_read_len_def, spec_read_tag,
    two_pow_64, usize_bytes, ReadFailure,
};
use crate::der::reader::{spec_decode_header, DecodeKind};
use crate::info::tag::{Len, Tag};
use crate::ser::write::{
    abs, lemma_arcs_bytes_cons, lemma_be_bytes_len, pow256, spec_arcs_bytes, spec_bool_content,
    spec_int_content, spec_oid_content, spec_oid_first_byte, spec_base128, spec_base128_high, spec_be_bytes,
    spec_header_bytes, spec_len_bytes, spec_len_def_bytes, spec_primitive_bytes, spec_tag_bytes,
};

verus! {

proof fn lemma_shifted_shifted<T>(o: Result<(T, int), ReadFailure>, a: int, b: int)
    ensures
        shifted(shifted(o, a), b) == shifted(o, a + b),
{
}

/// Reading the continuation digits of `m` from the front of `high(m) + tail`
/// leaves `tail` to be read with `m * 128` accumulated.
proof fn lemma_base128_high_read(m: nat, tail: Seq<u8>)
    ensures
        spec_base128_from(spec_base128_high(m) + tail, 0) == shifted(
            spec_base128_from(tail, m * 128),
            spec_base128_high(m).len() as int,
        ),
    decreases m,
{
    if m == 0 {
        assert(spec_base128_high(0) + tail == tail);
    } else {
        let d = (m % 128 + 128) as u8;
        let t2 = seq![d] + tail;
        lemma_base128_high_read(m / 128, t2);
        assert(spec_base128_high(m) + tail == spec_base128_high(m / 128) + t2);
        assert(t2[0] == d);
        assert(t2.drop_first() == tail);
        assert(((m / 128) * 128 + d - 128) * 128 == m * 128);
        lemma_shifted_shifted(
            spec_base128_from(tail, m * 128),
            1,
            spec_base128_high(m / 128).len() as int,
        );
    }
}

/// Base-128: reading back a written 64-bit number gives the number and
/// consumes exactly its encoding.
pub proof fn lemma_base128_roundtrip(n: u64, rest: Seq<u8>)
    ensures
        spec_read_base128(spec_base128(n as nat) + rest) == Ok::<(u64, int), ReadFailure>(
            (n, spec_base128(n as nat).len() as int),
        ),
{
    let m = n as nat / 128;
    let last = (n % 128) as u8;
    let tail = seq![last] + rest;
    lemma_base128_high_read(m, tail);
    assert(spec_base128(n as nat) + rest == spec_base128_high(m) + tail);
    assert(tail[0] == last);
    assert(spec_base128_from(tail, m * 128) == Ok::<(nat, int), ReadFailure>((n as nat, 1)));
    vstd::arithmetic::div_mod::lemma_small_mod(n as nat, two_pow_64());
}

/// Tags: reading back written identifier octets gives the tag.
pub proof fn lemma_tag_roundtrip(tag: Tag, rest: Seq<u8>)
    ensures
        spec_read_tag(spec_tag_bytes(tag) + rest) == Ok::<(Tag, int), ReadFailure>(
            (tag, spec_tag_bytes(tag).len() as int),
        ),
{
    let s = spec_tag_bytes(tag) + rest;
    let b = s[0];
    let low: int = if tag.tagnum < 31 { tag.tagnum as int } else { 31 };
    assert(b == tag.class.spec_bits() + tag.content_type.spec_bits() + low);
    assert(spec_class_of(b) == tag.class);
    assert(spec_content_type_of(b) == tag.content_type);
    assert(b % 32 == low);
    if tag.tagnum >= 31 {
        lemma_base128_roundtrip(tag.tagnum, rest);
        assert(s.drop_first() == spec_base128(tag.tagnum as nat) + rest);
    }
}

proof fn lemma_be_bytes_value(n: nat)
    ensures
        spec_be_value(spec_be_bytes(n)) == n,
    decreases n,
{
    if n != 0 {
        lemma_be_bytes_value(n / 256);
        assert(spec_be_bytes(n).drop_last() == spec_be_bytes(n / 256));
    }
}

proof fn lemma_usize_pow()
    ensures
        1 <= usize_bytes() <= 8,
        usize::MAX < pow256(usize_bytes()),
{
    reveal_with_fuel(pow256, 9);
}

/// Definite lengths: reading back written length octets gives the length.
pub proof fn lemma_len_def_roundtrip(n: usize, rest: Seq<u8>)
    ensures
        spec_read_len_def(spec_len_def_bytes(n as nat) + rest) == Ok::<(usize, int), ReadFailure>(
            (n, spec_len_def_bytes(n as nat).len() as int),
        ),
        spec_read_len(spec_len_def_bytes(n as nat) + rest) == Ok::<(Len, int), ReadFailure>(
            (Len::Def(n), spec_len_def_bytes(n as nat).len() as int),
        ),
{
    let s = spec_len_def_bytes(n as nat) + rest;
    if n >= 128 {
        let be = spec_be_bytes(n as nat);
        lemma_usize_pow();
        lemma_be_bytes_len(n as nat, usize_bytes());
        lemma_be_bytes_value(n as nat);
        assert(s.drop_first() == be + rest);
        assert((be + rest).take(be.len() as int) == be);
        assert(s[0] - 128 == be.len());
    }
}

/// Lengths, definite or indefinite: reading back written length octets gives the length.
pub proof fn lemma_len_roundtrip(len: Len, rest: Seq<u8>)
    ensures
        spec_read_len(spec_len_bytes(len) + rest) == Ok::<(Len, int), ReadFailure>(
            (len, spec_len_bytes(len).len() as int),
        ),
{
    match len {
        Len::Def(n) => lemma_len_def_roundtrip(n, rest),
        Len::Indef => {},
    }
}

/// Headers: reading back written identifier and length octets gives the tag and length.
pub proof fn lemma_header_roundtrip(tag: Tag, len: Len, rest: Seq<u8>)
    ensures
        spec_read_header(spec_header_bytes(tag, len) + rest) == Ok::<((Tag, Len), int), ReadFailure>(
            ((tag, len), spec_header_bytes(tag, len).len() as int),
        ),
{
    let tb = spec_tag_bytes(tag);
    let s = spec_header_bytes(tag, len) + rest;
    lemma_tag_roundtrip(tag, spec_len_bytes(len) + rest);
    assert(s == tb + (spec_len_bytes(len) + rest));
    lemma_len_roundtrip(len, rest);
    assert(s.skip(tb.len() as int) == spec_len_bytes(len) + rest);
}

/// A primitive encoding reads back as its tag, its definite length and then its
/// content.
pub proof fn lemma_primitive_roundtrip(tag: Tag, content: Seq<u8>, rest: Seq<u8>)
    requires
        content.len() <= usize::MAX,
    ensures
        ({
            let s = spec_primitive_bytes(tag, content) + rest;
            let t = spec_tag_bytes(tag).len() as int;
            let l = spec_len_def_bytes(content.len()).len() as int;
            &&& spec_read_tag(s) == Ok::<(Tag, int), ReadFailure>((tag, t))
            &&& spec_read_len_def(s.skip(t)) == Ok::<(usize, int), ReadFailure>(
                (content.len() as usize, l),
            )
            &&& s.skip(t + l) == content + rest
        }),
{
    let s = spec_primitive_bytes(tag, content) + rest;
    let tb = spec_tag_bytes(tag);
    let lb = spec_len_def_bytes(content.len());
    assert(s == tb + (lb + (content + rest)));
    lemma_tag_roundtrip(tag, lb + (content + rest));
    assert(s.skip(tb.len() as int) == lb + (content + rest));
    lemma_len_def_roundtrip(content.len() as usize, content + rest);
    assert(s.skip((tb.len() + lb.len()) as int) == content + rest);
}

/// Half of `256^k`: the bound of `k`-byte two's complement values.
pub open spec fn half_pow256(k: nat) -> nat {
    pow256(k) / 2
}

proof fn lemma_int_content_nonempty(v: int)
    ensures
        spec_int_content(v).len() >= 1,
    decreases abs(v),
{
    if !(-128 <= v < 128) {
        lemma_int_content_nonempty(v / 256);
    }
}

/// The shortest two's complement encoding reads back as the value.
proof fn lemma_int_content_value(v: int)
    ensures
        spec_twos_value(spec_int_content(v)) == v,
    decreases abs(v),
{
    let c = spec_int_content(v);
    if -128 <= v < 128 {
        assert(c.drop_last().len() == 0);
        assert(spec_be_value(c.drop_last()) == 0);
        assert(c.last() == (v % 256) as u8);
        assert(spec_be_value(c) == v % 256);
        assert(pow256(1) == 256) by {
            reveal_with_fuel(pow256, 2);
        }
    } else {
        let q = v / 256;
        let c1 = spec_int_content(q);
        lemma_int_content_value(q);
        lemma_int_content_nonempty(q);
        assert(c.drop_last() == c1);
        assert(c[0] == c1[0]);
        assert(pow256(c.len()) == 256 * pow256(c1.len()));
        assert(spec_be_value(c) == spec_be_value(c1) * 256 + v % 256);
    }
}

/// The content of a 64-bit value takes at most nine bytes.
pub proof fn lemma_int_content_short(v: int)
    requires
        -0x8000_0000_0000_0000 <= v < 0x1_0000_0000_0000_0000,
    ensures
        1 <= spec_int_content(v).len() <= 9,
{
    reveal_with_fuel(pow256, 10);
    lemma_int_content_len(v, 9);
    lemma_int_content_nonempty(v);
}

/// A value that fits in `k` bytes of two's complement takes at most `k` bytes.
proof fn lemma_int_content_len(v: int, k: nat)
    requires
        k >= 1,
        -(half_pow256(k) as int) <= v < half_pow256(k),
    ensures
        spec_int_content(v).len() <= k,
    decreases k,
{
    if !(-128 <= v < 128) {
        if k == 1 {
            assert(pow256(1) == 256) by {
                reveal_with_fuel(pow256, 2);
            }
            assert(false);
        } else {
            let p = pow256((k - 2) as nat);
            assert(pow256((k - 1) as nat) == 256 * p);
            assert(pow256(k) == 256 * (256 * p));
            assert(half_pow256(k) == 256 * (128 * p));
            assert(half_pow256((k - 1) as nat) == 128 * p);
            lemma_int_content_len(v / 256, (k - 1) as nat);
        }
    }
}

/// Splitting a big-endian value at its first byte.
proof fn lemma_be_value_split_first(s: Seq<u8>)
    requires
        s.len() > 0,
    ensures
        spec_be_value(s) == s[0] * pow256((s.len() - 1) as nat) + spec_be_value(s.drop_first()),
    decreases s.len(),
{
    if s.len() == 1 {
        assert(s.drop_first().len() == 0);
        assert(s.drop_last().len() == 0);
        assert(pow256(0) == 1);
        assert(s[0] * pow256(0) == s[0]);
        assert(spec_be_value(s.drop_last()) == 0);
        assert(spec_be_value(s.drop_first()) == 0);
        assert(spec_be_value(s) == s[0]);
    } else {
        let d = s.drop_last();
        lemma_be_value_split_first(d);
        assert(d.drop_first() == s.drop_first().drop_last());
        assert(s.drop_first().last() == s.last());
        assert(d[0] == s[0]);
        assert(spec_be_value(s.drop_first()) == spec_be_value(d.drop_first()) * 256 + s.last());
        assert(spec_be_value(s) == spec_be_value(d) * 256 + s.last());
        let p = pow256((d.len() - 1) as nat);
        assert(pow256((s.len() - 1) as nat) == 256 * p);
        let x = spec_be_value(d.drop_first()) as int;
        let b = spec_be_value(d) as int;
        let s0 = s[0] as int;
        assert(b * 256 == s0 * (256 * p) + x * 256) by (nonlinear_arith)
            requires
                b == s0 * p + x,
        ;
    }
}

/// INTEGER into a type of `size` bytes: reading back the written content of a
/// value of that type gives the value.
pub proof fn lemma_signed_roundtrip(v: int, size: nat, rest: Seq<u8>)
    requires
        size >= 1,
        -(half_pow256(size) as int) <= v < half_pow256(size),
    ensures
        spec_read_signed(spec_int_content(v) + rest, spec_int_content(v).len(), size)
            == Ok::<(int, int), ReadFailure>((v, spec_int_content(v).len() as int)),
{
    let c = spec_int_content(v);
    lemma_int_content_len(v, size);
    lemma_int_content_nonempty(v);
    lemma_int_content_value(v);
    assert((c + rest).take(c.len() as int) == c);
}

/// INTEGER into an unsigned type of `size` bytes: reading back the written content
/// of a value of that type gives the value.
pub proof fn lemma_unsigned_roundtrip(v: nat, size: nat, rest: Seq<u8>)
    requires
        size >= 1,
        v < pow256(size),
    ensures
        spec_read_unsigned(spec_int_content(v as int) + rest, spec_int_content(v as int).len(), size)
            == Ok::<(nat, int), ReadFailure>((v, spec_int_content(v as int).len() as int)),
{
    let c = spec_int_content(v as int);
    let s = c + rest;
    let p = pow256(size);
    assert(pow256(size + 1) == 256 * p);
    lemma_int_content_len(v as int, size + 1);
    lemma_int_content_nonempty(v as int);
    lemma_int_content_value(v as int);
    lemma_be_value_bound(c);
    if c[0] >= 128 {
        assert(false);
    }
    assert(spec_be_value(c) == v);
    if c.len() <= size {
        assert(s.take(c.len() as int) == c);
    } else {
        lemma_be_value_first(c);
        assert(c.len() - 1 == size);
        if c[0] > 0 {
            assert(c[0] * p >= p) by (nonlinear_arith)
                requires
                    c[0] > 0,
                    p >= 0,
            ;
        }
        assert(c[0] == 0);
        lemma_be_value_split_first(c);
        assert(s.subrange(1, c.len() as int) == c.drop_first());
    }
}

/// BOOLEAN: reading back written content gives the value.
pub proof fn lemma_boolean_roundtrip(value: bool, rest: Seq<u8>)
    ensures
        spec_read_boolean(spec_bool_content(value) + rest, 1) == Ok::<(bool, int), ReadFailure>(
            (value, 1),
        ),
{
}

/// OCTET STRING: reading back written content gives the bytes.
pub proof fn lemma_octet_string_roundtrip(value: Seq<u8>, rest: Seq<u8>)
    ensures
        spec_read_octet_string(value + rest, value.len()) == Ok::<(Seq<u8>, int), ReadFailure>(
            (value, value.len() as int),
        ),
{
    assert((value + rest).take(value.len() as int) == value);
}

/// BIT STRING: reading back written content gives the unused-bit count and the
/// bytes, for a count below 8 that is zero when there are no bytes.
pub proof fn lemma_bit_string_roundtrip(unused: u8, bytes: Seq<u8>, rest: Seq<u8>)
    requires
        unused < 8,
        bytes.len() == 0 ==> unused == 0,
    ensures
        spec_read_bit_string(seq![unused] + bytes + rest, bytes.len() + 1) == Ok::<
            ((u8, Seq<u8>), int),
            ReadFailure,
        >(((unused, bytes), (bytes.len() + 1) as int)),
{
    let s = seq![unused] + bytes + rest;
    assert(s[0] == unused);
    assert(s.len() - 1 >= bytes.len());
    assert(min(bytes.len() as int, s.len() - 1) == bytes.len());
    assert(s.subrange(1, (1 + bytes.len()) as int) == bytes);
    if bytes.len() == 0 {
        assert(bytes == Seq::<u8>::empty());
    }
}

/// A run of written arcs reads back as the arcs.
proof fn lemma_arcs_roundtrip(arcs: Seq<u64>)
    ensures
        spec_read_arcs(spec_arcs_bytes(arcs)) == Ok::<Seq<u64>, ReadFailure>(arcs),
    decreases arcs.len(),
{
    if arcs.len() > 0 {
        let x = arcs[0];
        let t = arcs.skip(1);
        assert(arcs == seq![x] + t);
        lemma_arcs_bytes_cons(x, t);
        lemma_base128_roundtrip(x, spec_arcs_bytes(t));
        lemma_arcs_roundtrip(t);
        let c = spec_arcs_bytes(arcs);
        let n = spec_base128(x as nat).len() as int;
        assert(c.skip(n) == spec_arcs_bytes(t));
        assert(c.len() > 0);
    } else {
        assert(spec_arcs_bytes(arcs) == Seq::<u8>::empty());
        assert(arcs == Seq::<u64>::empty());
    }
}

/// OBJECT IDENTIFIER: reading back written content gives the arcs, when the first
/// two arcs `a`, `b` have `b < 40` and `40 * a + b < 256` (so that the first octet
/// holds them and can be split again).
pub proof fn lemma_object_identifier_roundtrip(value: Seq<u64>, rest: Seq<u8>)
    requires
        value.len() >= 2,
        value[1] < 40,
        value[0] * 40 + value[1] < 256,
    ensures
        spec_read_object_identifier(spec_oid_content(value) + rest, spec_oid_content(value).len())
            == Ok::<(Seq<u64>, int), ReadFailure>((value, spec_oid_content(value).len() as int)),
{
    let c = spec_oid_content(value);
    let s = c + rest;
    let b0 = spec_oid_first_byte(value);
    assert(value[0] < 256);
    assert(value[0] % 256 == value[0]);
    assert(value[1] % 256 == value[1]);
    assert(b0 / 40 == value[0]);
    assert(b0 % 40 == value[1]);
    lemma_arcs_roundtrip(value.skip(2));
    assert(s.subrange(1, c.len() as int) == spec_arcs_bytes(value.skip(2)));
    assert(seq![value[0], value[1]] + value.skip(2) == value);
}

/// A written OBJECT IDENTIFIER reads back whole: its tag, its length, then its
/// arcs taking exactly the content, whatever follows; the first two arcs `a`, `b`
/// have `b < 40` and `40 * a + b < 256`, and the content's length fits in `usize`.
pub proof fn lemma_object_identifier_frame_roundtrip(tag: Tag, value: Seq<u64>, rest: Seq<u8>)
    requires
        value.len() >= 2,
        value[1] < 40,
        value[0] * 40 + value[1] < 256,
        spec_oid_content(value).len() <= usize::MAX,
    ensures
        ({
            let c = spec_oid_content(value);
            let s = spec_primitive_bytes(tag, c) + rest;
            let t = spec_tag_bytes(tag).len() as int;
            let l = spec_len_def_bytes(c.len()).len() as int;
            &&& spec_read_tag(s) == Ok::<(Tag, int), ReadFailure>((tag, t))
            &&& spec_read_len_def(s.skip(t)) == Ok::<(usize, int), ReadFailure>((c.len() as usize, l))
            &&& spec_read_object_identifier(s.skip(t + l), c.len()) == Ok::<(Seq<u64>, int), ReadFailure>(
                (value, c.len() as int),
            )
        }),
{
    let c = spec_oid_content(value);
    lemma_primitive_roundtrip(tag, c, rest);
    lemma_object_identifier_roundtrip(value, rest);
}

/// A header is accepted only under its own tag: reading a written header where
/// the tag `expected` is wanted gives its length and size when the written tag
/// equals `expected` in class, number and content type, and otherwise a
/// mismatch that names both tags.
pub proof fn lemma_decode_header_checks_tag(written: Tag, expected: Tag, len: usize, rest: Seq<u8>)
    ensures
        spec_decode_header(spec_header_bytes(written, Len::Def(len)) + rest, None, expected) == if written
            == expected {
            Ok::<(usize, int), DecodeKind>((len, spec_header_bytes(written, Len::Def(len)).len() as int))
        } else {
            Err::<(usize, int), DecodeKind>(DecodeKind::TagMismatch(expected, written))
        },
{
    let tb = spec_tag_bytes(written);
    let s = spec_header_bytes(written, Len::Def(len)) + rest;
    lemma_tag_roundtrip(written, spec_len_bytes(Len::Def(len)) + rest);
    assert(s == tb + (spec_len_bytes(Len::Def(len)) + rest));
    lemma_len_def_roundtrip(len, rest);
    assert(s.skip(tb.len() as int) == spec_len_def_bytes(len as nat) + rest);
}

} // verus!
