use vstd::prelude::*;
use vstd::arithmetic::div_mod::{lemma_add_mod_noop, lemma_mul_mod_noop_left, lemma_small_mod};

use crate::info::tag::{Class, ContentType, Len, LenNum, Tag};
use crate::io::unexpected_eof;
use crate::ser::write::pow256;

verus! {

#[derive(Debug)]
pub enum ReadError {
    InvalidTag,
    InvalidLength,
    InvalidValue,
    IoError(std::io::Error),
}

impl From<std::io::Error> for ReadError {
    fn from(e: std::io::Error) -> (r: Self) {
        ReadError::IoError(e)
    }
}

impl vstd::std_specs::convert::FromSpecImpl<std::io::Error> for ReadError {
    open spec fn obeys_from_spec() -> bool {
        true
    }

    open spec fn from_spec(e: std::io::Error) -> ReadError {
        ReadError::IoError(e)
    }
}

/// The kinds of failure that the readers' contracts tell apart.
#[derive(Debug, Copy, Clone, PartialEq, Eq, Structural)]
pub enum ReadFailure {
    /// The input ended before the value did.
    Eof,
    /// A malformed tag.
    Tag,
    /// A length that the value cannot have.
    Length,
    /// Content that the value cannot have.
    Value,
}

impl ReadError {
    pub open spec fn failure(&self) -> ReadFailure {
        match self {
            ReadError::InvalidTag => ReadFailure::Tag,
            ReadError::InvalidLength => ReadFailure::Length,
            ReadError::InvalidValue => ReadFailure::Value,
            ReadError::IoError(_) => ReadFailure::Eof,
        }
    }
}

pub open spec fn two_pow_64() -> nat {
    0x1_0000_0000_0000_0000
}

/// `after` is what is left of `before` once some prefix was consumed.
pub open spec fn is_suffix(after: Seq<u8>, before: Seq<u8>) -> bool {
    after.len() <= before.len() && after == before.skip(before.len() - after.len())
}

pub proof fn lemma_suffix_refl(s: Seq<u8>)
    ensures
        is_suffix(s, s),
{
    assert(s.skip(0) =~= s);
}

pub proof fn lemma_suffix_trans(a: Seq<u8>, b: Seq<u8>, c: Seq<u8>)
    requires
        is_suffix(a, b),
        is_suffix(b, c),
    ensures
        is_suffix(a, c),
{
    assert(a =~= c.skip(c.len() - a.len()));
}

pub proof fn lemma_skip_suffix(s: Seq<u8>, n: int)
    requires
        0 <= n <= s.len(),
    ensures
        is_suffix(s.skip(n), s),
{
    assert(s.skip(n) =~= s.skip(s.len() - s.skip(n).len()));
}

/// What a reader does to its input: on success it yields the value of `outcome`
/// and consumes exactly the number of bytes that `outcome` names; on failure it
/// reports the failure of `outcome` and leaves some suffix of the input.
pub open spec fn reads<T>(
    res: Result<T, ReadError>,
    outcome: Result<(T, int), ReadFailure>,
    before: Seq<u8>,
    after: Seq<u8>,
) -> bool {
    match outcome {
        Ok((v, n)) => {
            &&& res matches Ok(x) && x == v
            &&& 0 <= n <= before.len()
            &&& after == before.skip(n)
        },
        Err(f) => {
            &&& res matches Err(e) && e.failure() == f
            &&& is_suffix(after, before)
        },
    }
}

/// `reads` for values that are compared by their view.
pub open spec fn reads_view<T: View>(
    res: Result<T, ReadError>,
    outcome: Result<(T::V, int), ReadFailure>,
    before: Seq<u8>,
    after: Seq<u8>,
) -> bool {
    match outcome {
        Ok((v, n)) => {
            &&& res matches Ok(x) && x@ == v
            &&& 0 <= n <= before.len()
            &&& after == before.skip(n)
        },
        Err(f) => {
            &&& res matches Err(e) && e.failure() == f
            &&& is_suffix(after, before)
        },
    }
}

/// Where a failed integer read leaves the input: a length that the type cannot
/// have is refused before anything is read; a leading byte that does not fit
/// is consumed alone; an input that runs out is used up.
pub open spec fn unsigned_failure_leaves<T>(res: Result<T, ReadError>, before: Seq<u8>, after: Seq<u8>) -> bool {
    match res {
        Err(ReadError::IoError(_)) => after.len() == 0,
        Err(ReadError::InvalidValue) => after == before.drop_first(),
        Err(ReadError::InvalidLength) => after == before,
        Err(ReadError::InvalidTag) => false,
        Ok(_) => true,
    }
}

/// Where a failed two's complement read leaves the input: a length that the
/// type cannot have is refused before anything is read; an input that runs out
/// is used up.
pub open spec fn signed_failure_leaves<T>(res: Result<T, ReadError>, before: Seq<u8>, after: Seq<u8>) -> bool {
    match res {
        Err(ReadError::IoError(_)) => after.len() == 0,
        Err(ReadError::InvalidLength) => after == before,
        Err(_) => false,
        Ok(_) => true,
    }
}

/// Where a failed read of length octets leaves the input: the first octet is
/// consumed before a length is refused, and a leading zero-less ninth length
/// byte is consumed too before its value is refused; an input that runs out is
/// used up.
pub open spec fn len_failure_leaves<T>(res: Result<T, ReadError>, before: Seq<u8>, after: Seq<u8>) -> bool {
    match res {
        Err(ReadError::IoError(_)) => after.len() == 0,
        Err(ReadError::InvalidLength) => after == before.drop_first(),
        Err(ReadError::InvalidValue) => after == before.skip(2),
        Err(ReadError::InvalidTag) => false,
        Ok(_) => true,
    }
}

/// Applies `f` to the value of a successful outcome.
pub open spec fn map_value<A, B>(o: Result<(A, int), ReadFailure>, f: spec_fn(A) -> B) -> Result<(B, int), ReadFailure> {
    match o {
        Ok((v, n)) => Ok((f(v), n)),
        Err(e) => Err(e),
    }
}

/// Adds `k` consumed bytes to a successful outcome.
pub open spec fn shifted<T>(o: Result<(T, int), ReadFailure>, k: int) -> Result<(T, int), ReadFailure> {
    match o {
        Ok((v, n)) => Ok((v, n + k)),
        Err(f) => Err(f),
    }
}

/// Base-128 digits read from the front of `s`, continuing the number `acc`
/// (already multiplied by 128): the value and the bytes consumed, up to and
/// including the first byte without the continuation bit.
pub open spec fn spec_base128_from(s: Seq<u8>, acc: nat) -> Result<(nat, int), ReadFailure>
    decreases s.len(),
{
    if s.len() == 0 {
        Err(ReadFailure::Eof)
    } else if s[0] >= 128 {
        shifted(spec_base128_from(s.drop_first(), ((acc + s[0] - 128) * 128) as nat), 1)
    } else {
        Ok(((acc + s[0]) as nat, 1))
    }
}

/// A base-128 number at the front of `s`, taken modulo 2^64.
pub open spec fn spec_read_base128(s: Seq<u8>) -> Result<(u64, int), ReadFailure> {
    match spec_base128_from(s, 0) {
        Ok((v, n)) => Ok(((v % two_pow_64()) as u64, n)),
        Err(f) => Err(f),
    }
}

/// The class that the two high bits of an identifier octet name.
pub open spec fn spec_class_of(b: u8) -> Class {
    if b / 64 == 0 {
        Class::Universal
    } else if b / 64 == 1 {
        Class::Application
    } else if b / 64 == 2 {
        Class::ContextSpecific
    } else {
        Class::Private
    }
}

/// The content type that the constructed bit of an identifier octet names.
pub open spec fn spec_content_type_of(b: u8) -> ContentType {
    if (b / 32) % 2 == 1 {
        ContentType::Constructed
    } else {
        ContentType::Primitive
    }
}

/// A tag at the front of `s`: the low five bits of the first byte are the tag
/// number, unless they are all set, in which case a base-128 number follows.
pub open spec fn spec_read_tag(s: Seq<u8>) -> Result<(Tag, int), ReadFailure> {
    if s.len() == 0 {
        Err(ReadFailure::Eof)
    } else {
        let b = s[0];
        let class = spec_class_of(b);
        let content_type = spec_content_type_of(b);
        if b % 32 != 31 {
            Ok((Tag { class, tagnum: (b % 32) as u64, content_type }, 1))
        } else {
            match spec_read_base128(s.drop_first()) {
                Ok((v, n)) => Ok((Tag { class, tagnum: v, content_type }, n + 1)),
                Err(f) => Err(f),
            }
        }
    }
}

/// The big-endian value of `s`.
pub open spec fn spec_be_value(s: Seq<u8>) -> nat
    decreases s.len(),
{
    if s.len() == 0 {
        0
    } else {
        spec_be_value(s.drop_last()) * 256 + s.last() as nat
    }
}

/// The two's complement value of `s`, read big-endian.
pub open spec fn spec_twos_value(s: Seq<u8>) -> int {
    if s.len() > 0 && s[0] >= 128 {
        spec_be_value(s) - pow256(s.len())
    } else {
        spec_be_value(s) as int
    }
}

/// An unsigned integer of `len` content bytes read into a type of `size` bytes:
/// up to `size` bytes are taken big-endian; `size + 1` bytes are accepted when the
/// first of them is zero.
pub open spec fn spec_read_unsigned(s: Seq<u8>, len: nat, size: nat) -> Result<(nat, int), ReadFailure> {
    if len == 0 {
        Err(ReadFailure::Length)
    } else if len <= size {
        if s.len() < len {
            Err(ReadFailure::Eof)
        } else {
            Ok((spec_be_value(s.take(len as int)), len as int))
        }
    } else if len == size + 1 {
        if s.len() == 0 {
            Err(ReadFailure::Eof)
        } else if s[0] != 0 {
            Err(ReadFailure::Value)
        } else if s.len() < len {
            Err(ReadFailure::Eof)
        } else {
            Ok((spec_be_value(s.subrange(1, len as int)), len as int))
        }
    } else {
        Err(ReadFailure::Length)
    }
}

/// A signed integer of `len` content bytes, two's complement, into a type of
/// `size` bytes.
pub open spec fn spec_read_signed(s: Seq<u8>, len: nat, size: nat) -> Result<(int, int), ReadFailure> {
    if len == 0 || len > size {
        Err(ReadFailure::Length)
    } else if s.len() < len {
        Err(ReadFailure::Eof)
    } else {
        Ok((spec_twos_value(s.take(len as int)), len as int))
    }
}

/// Bytes in a `usize`.
pub open spec fn usize_bytes() -> nat {
    (usize::BITS / 8) as nat
}

/// A definite length read as `usize` from `len` bytes.
pub open spec fn spec_read_usize(s: Seq<u8>, len: nat) -> Result<(usize, int), ReadFailure> {
    match spec_read_unsigned(s, len, usize_bytes()) {
        Ok((v, n)) => Ok((v as usize, n)),
        Err(f) => Err(f),
    }
}

/// Length octets: short form, the indefinite form `0x80`, or `0x80 | k`
/// followed by `k` big-endian bytes.
pub open spec fn spec_read_len(s: Seq<u8>) -> Result<(Len, int), ReadFailure> {
    if s.len() == 0 {
        Err(ReadFailure::Eof)
    } else if s[0] < 128 {
        Ok((Len::Def(s[0] as usize), 1))
    } else if s[0] == 0x80 {
        Ok((Len::Indef, 1))
    } else {
        match spec_read_usize(s.drop_first(), (s[0] - 128) as nat) {
            Ok((v, n)) => Ok((Len::Def(v), n + 1)),
            Err(f) => Err(f),
        }
    }
}

/// Definite length octets; the indefinite form is refused.
pub open spec fn spec_read_len_def(s: Seq<u8>) -> Result<(LenNum, int), ReadFailure> {
    if s.len() == 0 {
        Err(ReadFailure::Eof)
    } else if s[0] < 128 {
        Ok((s[0] as usize, 1))
    } else if s[0] == 0x80 {
        Err(ReadFailure::Length)
    } else {
        shifted(spec_read_usize(s.drop_first(), (s[0] - 128) as nat), 1)
    }
}

/// Identifier then length octets.
pub open spec fn spec_read_header(s: Seq<u8>) -> Result<((Tag, Len), int), ReadFailure> {
    match spec_read_tag(s) {
        Ok((t, n)) => match spec_read_len(s.skip(n)) {
            Ok((l, m)) => Ok(((t, l), n + m)),
            Err(f) => Err(f),
        },
        Err(f) => Err(f),
    }
}

/// BOOLEAN content: one byte, true unless zero.
pub open spec fn spec_read_boolean(s: Seq<u8>, len: nat) -> Result<(bool, int), ReadFailure> {
    if len != 1 {
        Err(ReadFailure::Length)
    } else if s.len() == 0 {
        Err(ReadFailure::Eof)
    } else {
        Ok((s[0] != 0, 1))
    }
}

pub open spec fn min(a: int, b: int) -> int {
    if a <= b {
        a
    } else {
        b
    }
}

/// BIT STRING content: the unused-bit count, then the bits; the bytes after the
/// first are those of the `len - 1` that the input still holds.
pub open spec fn spec_read_bit_string(s: Seq<u8>, len: nat) -> Result<((u8, Seq<u8>), int), ReadFailure> {
    if len == 0 {
        Err(ReadFailure::Length)
    } else if s.len() == 0 {
        Err(ReadFailure::Eof)
    } else if s[0] == 0 && len == 1 {
        Ok(((0u8, Seq::<u8>::empty()), 1))
    } else if s[0] > 7 || (s[0] > 0 && len == 1) {
        Err(ReadFailure::Value)
    } else {
        let m = min(len - 1, s.len() - 1);
        Ok(((s[0], s.subrange(1, 1 + m)), 1 + m))
    }
}

/// OCTET STRING content: the first `len` bytes, or all that are left when fewer.
pub open spec fn spec_read_octet_string(s: Seq<u8>, len: nat) -> Result<(Seq<u8>, int), ReadFailure> {
    let m = min(len as int, s.len() as int);
    Ok((s.take(m), m))
}

/// A run of base-128 numbers that fills `c` exactly.
pub open spec fn spec_read_arcs(c: Seq<u8>) -> Result<Seq<u64>, ReadFailure>
    decreases c.len(),
{
    if c.len() == 0 {
        Ok(Seq::empty())
    } else {
        match spec_read_base128(c) {
            Ok((v, n)) => if 0 < n <= c.len() {
                match spec_read_arcs(c.skip(n)) {
                    Ok(rest) => Ok(seq![v] + rest),
                    Err(f) => Err(f),
                }
            } else {
                Err(ReadFailure::Eof)
            },
            Err(f) => Err(f),
        }
    }
}

/// OBJECT IDENTIFIER content of `len` bytes: the first byte holds `40 * a + b`,
/// base-128 arcs fill the rest. Any shortfall of input is an end of input.
pub open spec fn spec_read_object_identifier(s: Seq<u8>, len: nat) -> Result<(Seq<u64>, int), ReadFailure> {
    if len == 0 || s.len() < len {
        Err(ReadFailure::Eof)
    } else {
        let b0 = s[0];
        match spec_read_arcs(s.subrange(1, len as int)) {
            Ok(arcs) => Ok((seq![(b0 / 40) as u64, (b0 % 40) as u64] + arcs, len as int)),
            Err(f) => Err(f),
        }
    }
}

// ---------------------------------------------------------------------------
pub proof fn lemma_be_value_bound(s: Seq<u8>)
    ensures
        spec_be_value(s) < pow256(s.len()),
    decreases s.len(),
{
    if s.len() > 0 {
        lemma_be_value_bound(s.drop_last());
    }
}

/// The first byte bounds the value: `s[0] * 256^(k-1) <= v < (s[0] + 1) * 256^(k-1)`.
pub proof fn lemma_be_value_first(s: Seq<u8>)
    requires
        s.len() > 0,
    ensures
        s[0] * pow256((s.len() - 1) as nat) <= spec_be_value(s),
        spec_be_value(s) < (s[0] + 1) * pow256((s.len() - 1) as nat),
    decreases s.len(),
{
    if s.len() > 1 {
        let d = s.drop_last();
        lemma_be_value_first(d);
        let p = pow256((d.len() - 1) as nat);
        let x = s[0] as int;
        let b = spec_be_value(d) as int;
        assert(d[0] == s[0]);
        assert(x * p <= b < (x + 1) * p);
        assert(256 * (x * p) <= 256 * b) by (nonlinear_arith)
            requires
                x * p <= b,
        ;
        assert(256 * b + 256 <= 256 * ((x + 1) * p)) by (nonlinear_arith)
            requires
                b < (x + 1) * p,
        ;
        assert(x * (256 * p) == 256 * (x * p)) by (nonlinear_arith);
        assert((x + 1) * (256 * p) == 256 * ((x + 1) * p)) by (nonlinear_arith);
        assert(pow256((s.len() - 1) as nat) == 256 * p);
        assert(spec_be_value(s) == 256 * b + s.last());
        let q = pow256((s.len() - 1) as nat) as int;
        assert(x * q <= 256 * b + s.last()) by (nonlinear_arith)
            requires
                q == 256 * p,
                x * p <= b,
                s.last() >= 0,
        ;
    } else {
        assert(s.drop_last().len() == 0);
        assert(spec_be_value(s.drop_last()) == 0);
        assert(spec_be_value(s) == s[0]);
        assert(pow256(0) == 1);
        assert((s.len() - 1) as nat == 0);
        assert(s[0] * pow256((s.len() - 1) as nat) == s[0]);
    }
}

pub proof fn lemma_pow256_mono(i: nat, j: nat)
    requires
        i <= j,
    ensures
        1 <= pow256(i) <= pow256(j),
    decreases j,
{
    if i < j {
        lemma_pow256_mono(i, (j - 1) as nat);
    } else if j > 0 {
        lemma_pow256_mono(0, (j - 1) as nat);
    }
}

/// Two's complement values of `k` bytes lie in `[-256^k / 2, 256^k / 2)`.
pub proof fn lemma_twos_range(s: Seq<u8>)
    requires
        s.len() > 0,
    ensures
        -(pow256(s.len()) / 2) <= spec_twos_value(s) < pow256(s.len()) / 2,
{
    lemma_be_value_first(s);
    lemma_be_value_bound(s);
    let p = pow256((s.len() - 1) as nat);
    assert(pow256(s.len()) == 256 * p);
    if s[0] >= 128 {
        assert(128 * p <= s[0] * p) by (nonlinear_arith)
            requires
                s[0] >= 128,
                p >= 0,
        ;
    } else {
        assert((s[0] + 1) * p <= 128 * p) by (nonlinear_arith)
            requires
                s[0] < 128,
                p >= 0,
        ;
    }
}

pub proof fn lemma_base128_from_len(s: Seq<u8>, acc: nat)
    ensures
        spec_base128_from(s, acc) matches Ok((v, n)) ==> 1 <= n <= s.len(),
    decreases s.len(),
{
    if s.len() > 0 && s[0] >= 128 {
        lemma_base128_from_len(s.drop_first(), ((acc + s[0] - 128) * 128) as nat);
    }
}

// ---------------------------------------------------------------------------
pub proof fn lemma_base128_step(acc: nat, i: u64, d: u64)
    requires
        i as nat == acc % two_pow_64(),
        i % 128 == 0,
        d < 128,
    ensures
        ((i | d) << 7u64) as int == ((acc + d) * 128) % (two_pow_64() as int),
        ((i | d) << 7u64) % 128 == 0,
{
    let m = two_pow_64() as int;
    assert((i | d) == i + d) by (bit_vector)
        requires
            i % 128 == 0,
            d < 128,
    ;
    let x = i | d;
    assert((x << 7u64) as int == (x as int * 128) % 0x1_0000_0000_0000_0000) by (bit_vector);
    assert((x << 7u64) % 128 == 0) by (bit_vector);
    lemma_add_mod_noop(acc as int, d as int, m);
    lemma_small_mod(d as nat, m as nat);
    lemma_small_mod((i + d) as nat, m as nat);
    assert(((acc + d) as int) % m == (i + d) as int);
    lemma_mul_mod_noop_left((acc + d) as int, 128, m);
}

// ---------------------------------------------------------------------------
pub fn read_byte(r: &mut &[u8]) -> (res: Result<u8, std::io::Error>)
    ensures
        old(r)@.len() == 0 ==> res is Err && final(r)@ == old(r)@,
        old(r)@.len() > 0 ==> (res matches Ok(b) && b == old(r)@[0] && final(r)@ == old(r)@.drop_first()),
{
    if r.len() == 0 {
        return Err(unexpected_eof());
    }
    let b = r[0];
    let rest: &[u8] = &r[1..r.len()];
    *r = rest;
    Ok(b)
}

/// Reads the next `n` bytes. Where fewer are left, all of them are consumed and
/// the read fails.
fn read_exact<'a>(r: &mut &'a [u8], n: usize) -> (res: Result<&'a [u8], std::io::Error>)
    ensures
        old(r)@.len() < n ==> res is Err && final(r)@ == Seq::<u8>::empty(),
        old(r)@.len() >= n ==> (res matches Ok(b) && b@ == old(r)@.take(n as int) && final(r)@
            == old(r)@.skip(n as int)),
{
    if r.len() < n {
        let rest: &'a [u8] = &r[r.len()..r.len()];
        *r = rest;
        return Err(unexpected_eof());
    }
    let (head, rest) = r.split_at(n);
    *r = rest;
    Ok(head)
}

#[inline]
pub fn read_base128(r: &mut &[u8]) -> (res: Result<u64, ReadError>)
    ensures
        reads(res, spec_read_base128(old(r)@), old(r)@, final(r)@),
        res is Err ==> final(r)@.len() == 0,
{
    let ghost orig = r@;
    let ghost mut acc: nat = 0;
    let mut i: u64 = 0;
    let mut result: Option<Result<u64, ReadError>> = None;
    assert(orig.skip(0) == orig);
    while result.is_none()
        invariant_except_break
            result.is_none(),
            i as nat == acc % two_pow_64(),
            i % 128 == 0,
            spec_base128_from(orig, 0) == shifted(spec_base128_from(r@, acc), orig.len() - r@.len()),
        invariant
            is_suffix(r@, orig),
            result matches Some(res) ==> reads(res, spec_read_base128(orig), orig, r@),
            result matches Some(Err(_)) ==> r@.len() == 0,
        ensures
            result matches Some(res) && reads(res, spec_read_base128(orig), orig, r@),
            result matches Some(Err(_)) ==> r@.len() == 0,
        decreases r@.len(),
    {
        let ghost before = r@;
        match read_byte(r) {
            Err(e) => {
                assert(spec_base128_from(r@, acc) == Err::<(nat, int), ReadFailure>(ReadFailure::Eof));
                result = Some(Err(ReadError::IoError(e)));
                break;
            },
            Ok(byte) => {
                assert(before.drop_first() == orig.skip(orig.len() - r@.len()));
                if byte & 0x80 == 0x80 {
                    assert(byte & 0x80 == 0x80 ==> byte >= 128 && byte & 0x7f == byte - 128) by (bit_vector);
                    let d = (byte & 0x7f) as u64;
                    proof {
                        lemma_base128_step(acc, i, d);
                        acc = ((acc + d) * 128) as nat;
                    }
                    i = (i | d) << 7u64;
                    proof {
                        lemma_skip_suffix(orig, orig.len() - r@.len());
                    }
                } else {
                    assert(byte & 0x80 != 0x80 ==> byte < 128) by (bit_vector);
                    let d = byte as u64;
                    assert(i | d == i + d) by (bit_vector)
                        requires
                            i % 128 == 0,
                            d < 128,
                    ;
                    proof {
                        lemma_add_mod_noop(acc as int, d as int, two_pow_64() as int);
                        lemma_small_mod(d as nat, two_pow_64());
                        lemma_small_mod((i + d) as nat, two_pow_64());
                    }
                    i = i | d;
                    proof {
                        let n = orig.len() - r@.len();
                        assert(spec_base128_from(before, acc) == Ok::<(nat, int), ReadFailure>(((acc + d) as nat, 1)));
                        assert(spec_base128_from(orig, 0) == Ok::<(nat, int), ReadFailure>(((acc + d) as nat, n)));
                        assert(((acc + d) as nat % two_pow_64()) as u64 == i);
                        assert(r@ == orig.skip(n));
                        assert(spec_read_base128(orig) == Ok::<(u64, int), ReadFailure>((i, n)));
                    }
                    result = Some(Ok(i));
                    break;
                }
            },
        }
    }
    match result {
        Some(res) => res,
        None => Err(ReadError::InvalidValue),
    }
}

#[inline]
pub fn read_tag(r: &mut &[u8]) -> (res: Result<Tag, ReadError>)
    ensures
        reads(res, spec_read_tag(old(r)@), old(r)@, final(r)@),
        res is Err ==> final(r)@.len() == 0,
{
    let ghost orig = r@;
    assert(orig.skip(0) == orig);
    let tag_byte = match read_byte(r) {
        Ok(b) => b,
        Err(e) => {
            return Err(ReadError::IoError(e));
        },
    };
    let class_num = tag_byte & 0xc0;
    let content_type = tag_byte & 0x20;
    assert(Class::is_class_code(class_num) && Class::spec_from(class_num) == spec_class_of(tag_byte))
        by {
        assert(class_num == 0x00 || class_num == 0x40 || class_num == 0x80 || class_num == 0xc0)
            by (bit_vector)
            requires
                class_num == tag_byte & 0xc0,
        ;
        assert(tag_byte & 0xc0 == 0x00 <==> tag_byte / 64 == 0) by (bit_vector);
        assert(tag_byte & 0xc0 == 0x40 <==> tag_byte / 64 == 1) by (bit_vector);
        assert(tag_byte & 0xc0 == 0x80 <==> tag_byte / 64 == 2) by (bit_vector);
    }
    assert((content_type == 0x00 || content_type == 0x20) && ContentType::spec_from(content_type)
        == spec_content_type_of(tag_byte)) by {
        assert(content_type == 0x00 || content_type == 0x20) by (bit_vector)
            requires
                content_type == tag_byte & 0x20,
        ;
        assert(tag_byte & 0x20 == 0x00 <==> (tag_byte / 32) % 2 == 0) by (bit_vector);
    }
    assert(tag_byte & 0x1f == tag_byte % 32) by (bit_vector);
    let tagnum = if (tag_byte & 0x1f) != 0x1f {
        (tag_byte & 0x1f) as u64
    } else {
        assert(r@ == orig.drop_first());
        match read_base128(r) {
            Ok(v) => v,
            Err(e) => {
                proof {
                    lemma_skip_suffix(orig, 1);
                    lemma_suffix_trans(r@, orig.drop_first(), orig);
                }
                return Err(e);
            },
        }
    };
    assert(r@ == orig.skip(orig.len() - r@.len()));
    Ok(Tag::new(Class::from(class_num), tagnum, ContentType::from(content_type)))
}

/// `256^k` for `k <= 8`.
fn pow256_exec(k: usize) -> (p: u128)
    requires
        k <= 8,
    ensures
        p == pow256(k as nat),
{
    let mut p: u128 = 1;
    let mut i: usize = 0;
    while i < k
        invariant
            i <= k <= 8,
            p == pow256(i as nat),
        decreases k - i,
    {
        proof {
            lemma_pow256_mono((i + 1) as nat, 8);
            crate::ser::write::lemma_pow256_8();
        }
        p = p * 256;
        i = i + 1;
    }
    p
}

/// The big-endian value of at most eight bytes.
fn be_value(b: &[u8]) -> (v: u64)
    requires
        b@.len() <= 8,
    ensures
        v == spec_be_value(b@),
{
    let mut v: u64 = 0;
    let mut i: usize = 0;
    while i < b.len()
        invariant
            i <= b@.len() <= 8,
            v == spec_be_value(b@.take(i as int)),
        decreases b@.len() - i,
    {
        proof {
            lemma_be_value_bound(b@.take(i + 1));
            lemma_pow256_mono((i + 1) as nat, 8);
            crate::ser::write::lemma_pow256_8();
            assert(b@.take(i + 1).drop_last() == b@.take(i as int));
        }
        v = v * 256 + b[i] as u64;
        i = i + 1;
    }
    assert(b@.take(b@.len() as int) == b@);
    v
}

/// Reads an unsigned integer of `len` content bytes for a type of `size` bytes.
fn read_unsigned(r: &mut &[u8], len: usize, size: usize) -> (res: Result<u64, ReadError>)
    requires
        1 <= size <= 8,
    ensures
        reads(res, map_value(spec_read_unsigned(old(r)@, len as nat, size as nat), |v: nat| v as u64), old(r)@, final(r)@),
        unsigned_failure_leaves(res, old(r)@, final(r)@),
        spec_read_unsigned(old(r)@, len as nat, size as nat) matches Ok((v, _)) ==> v < pow256(size as nat),
{
    let ghost orig = r@;
    proof {
        lemma_suffix_refl(orig);
    }
    if len == 0 {
        Err(ReadError::InvalidLength)
    } else if len <= size {
        match read_exact(r, len) {
            Err(e) => {
                proof { lemma_suffix_refl(r@); assert(r@ =~= orig.skip(orig.len() as int)); }
                Err(ReadError::IoError(e))
            },
            Ok(b) => {
                let v = be_value(b);
                proof {
                    lemma_be_value_bound(b@);
                    lemma_pow256_mono(len as nat, size as nat);
                }
                Ok(v)
            },
        }
    } else if len == size + 1 {
        match read_byte(r) {
            Err(e) => Err(ReadError::IoError(e)),
            Ok(first) => {
                if first != 0 {
                    proof { lemma_skip_suffix(orig, 1); }
                    Err(ReadError::InvalidValue)
                } else {
                    let ghost mid = r@;
                    match read_exact(r, size) {
                        Err(e) => {
                            proof { assert(r@ =~= orig.skip(orig.len() as int)); }
                            Err(ReadError::IoError(e))
                        },
                        Ok(b) => {
                            let v = be_value(b);
                            proof {
                                lemma_be_value_bound(b@);
                                assert(b@ == orig.subrange(1, len as int));
                                assert(r@ == orig.skip(len as int));
                            }
                            Ok(v)
                        },
                    }
                }
            },
        }
    } else {
        Err(ReadError::InvalidLength)
    }
}

/// Reads a two's complement integer of `len` content bytes for a type of `size` bytes.
fn read_signed(r: &mut &[u8], len: usize, size: usize) -> (res: Result<i64, ReadError>)
    requires
        1 <= size <= 8,
    ensures
        reads(res, map_value(spec_read_signed(old(r)@, len as nat, size as nat), |v: int| v as i64), old(r)@, final(r)@),
        signed_failure_leaves(res, old(r)@, final(r)@),
        spec_read_signed(old(r)@, len as nat, size as nat) matches Ok((v, _)) ==> -(pow256(size as nat) / 2) <= v < pow256(size as nat) / 2,
{
    let ghost orig = r@;
    proof {
        lemma_suffix_refl(orig);
    }
    if len == 0 || len > size {
        Err(ReadError::InvalidLength)
    } else {
        match read_exact(r, len) {
            Err(e) => {
                proof { assert(r@ =~= orig.skip(orig.len() as int)); }
                Err(ReadError::IoError(e))
            },
            Ok(b) => {
                let u = be_value(b);
                proof {
                    lemma_twos_range(b@);
                    lemma_pow256_mono(len as nat, size as nat);
                    lemma_pow256_mono(size as nat, 8);
                    crate::ser::write::lemma_pow256_8();
                    lemma_be_value_bound(b@);
                }
                let v: i128 = if b[0] >= 128 {
                    u as i128 - pow256_exec(len) as i128
                } else {
                    u as i128
                };
                assert(v == spec_twos_value(b@));
                Ok(v as i64)
            },
        }
    }
}

#[inline]
pub fn read_i8(r: &mut &[u8], len: LenNum) -> (res: Result<i8, ReadError>)
    ensures
        reads(res, map_value(spec_read_signed(old(r)@, len as nat, 1), |v: int| v as i8), old(r)@, final(r)@),
        signed_failure_leaves(res, old(r)@, final(r)@),
{
    proof { reveal_with_fuel(pow256, 2); }
    match read_signed(r, len, 1) {
        Ok(v) => Ok(v as i8),
        Err(e) => Err(e),
    }
}

#[inline]
pub fn read_i16(r: &mut &[u8], len: LenNum) -> (res: Result<i16, ReadError>)
    ensures
        reads(res, map_value(spec_read_signed(old(r)@, len as nat, 2), |v: int| v as i16), old(r)@, final(r)@),
        signed_failure_leaves(res, old(r)@, final(r)@),
{
    proof { reveal_with_fuel(pow256, 3); }
    match read_signed(r, len, 2) {
        Ok(v) => Ok(v as i16),
        Err(e) => Err(e),
    }
}

#[inline]
pub fn read_i32(r: &mut &[u8], len: LenNum) -> (res: Result<i32, ReadError>)
    ensures
        reads(res, map_value(spec_read_signed(old(r)@, len as nat, 4), |v: int| v as i32), old(r)@, final(r)@),
        signed_failure_leaves(res, old(r)@, final(r)@),
{
    proof { reveal_with_fuel(pow256, 5); }
    match read_signed(r, len, 4) {
        Ok(v) => Ok(v as i32),
        Err(e) => Err(e),
    }
}

#[inline]
pub fn read_i64(r: &mut &[u8], len: LenNum) -> (res: Result<i64, ReadError>)
    ensures
        reads(res, map_value(spec_read_signed(old(r)@, len as nat, 8), |v: int| v as i64), old(r)@, final(r)@),
        signed_failure_leaves(res, old(r)@, final(r)@),
{
    read_signed(r, len, 8)
}

#[inline]
pub fn read_u8(r: &mut &[u8], len: LenNum) -> (res: Result<u8, ReadError>)
    ensures
        reads(res, map_value(spec_read_unsigned(old(r)@, len as nat, 1), |v: nat| v as u8), old(r)@, final(r)@),
        unsigned_failure_leaves(res, old(r)@, final(r)@),
{
    proof { reveal_with_fuel(pow256, 2); }
    match read_unsigned(r, len, 1) {
        Ok(v) => Ok(v as u8),
        Err(e) => Err(e),
    }
}

#[inline]
pub fn read_u16(r: &mut &[u8], len: LenNum) -> (res: Result<u16, ReadError>)
    ensures
        reads(res, map_value(spec_read_unsigned(old(r)@, len as nat, 2), |v: nat| v as u16), old(r)@, final(r)@),
        unsigned_failure_leaves(res, old(r)@, final(r)@),
{
    proof { reveal_with_fuel(pow256, 3); }
    match read_unsigned(r, len, 2) {
        Ok(v) => Ok(v as u16),
        Err(e) => Err(e),
    }
}

#[inline]
pub fn read_u32(r: &mut &[u8], len: LenNum) -> (res: Result<u32, ReadError>)
    ensures
        reads(res, map_value(spec_read_unsigned(old(r)@, len as nat, 4), |v: nat| v as u32), old(r)@, final(r)@),
        unsigned_failure_leaves(res, old(r)@, final(r)@),
{
    proof { reveal_with_fuel(pow256, 5); }
    match read_unsigned(r, len, 4) {
        Ok(v) => Ok(v as u32),
        Err(e) => Err(e),
    }
}

#[inline]
pub fn read_u64(r: &mut &[u8], len: LenNum) -> (res: Result<u64, ReadError>)
    ensures
        reads(res, map_value(spec_read_unsigned(old(r)@, len as nat, 8), |v: nat| v as u64), old(r)@, final(r)@),
        unsigned_failure_leaves(res, old(r)@, final(r)@),
{
    read_unsigned(r, len, 8)
}

#[inline]
pub fn read_usize(r: &mut &[u8], len: LenNum) -> (res: Result<usize, ReadError>)
    ensures
        reads(res, spec_read_usize(old(r)@, len as nat), old(r)@, final(r)@),
        unsigned_failure_leaves(res, old(r)@, final(r)@),
{
    let size: usize = (usize::BITS / 8) as usize;
    proof {
        reveal_with_fuel(pow256, 9);
    }
    match read_unsigned(r, len, size) {
        Ok(v) => Ok(v as usize),
        Err(e) => Err(e),
    }
}

#[inline]
pub fn read_len(r: &mut &[u8]) -> (res: Result<Len, ReadError>)
    ensures
        reads(res, spec_read_len(old(r)@), old(r)@, final(r)@),
        len_failure_leaves(res, old(r)@, final(r)@),
{
    let ghost orig = r@;
    proof {
        lemma_suffix_refl(orig);
    }
    let head = match read_byte(r) {
        Ok(b) => b,
        Err(e) => {
            return Err(ReadError::IoError(e));
        },
    };
    let len: LenNum = head as LenNum & 0x7f;
    assert(head & 0x80 == 0 <==> head < 128) by (bit_vector);
    assert(head >= 128 ==> (head as usize) & 0x7f == head - 128) by (bit_vector);
    if head & 0x80 == 0 {
        assert((head as usize) & 0x7f == head as usize) by (bit_vector)
            requires
                head < 128,
        ;
        Ok(Len::Def(len))
    } else if head == 0x80 {
        Ok(Len::Indef)
    } else {
        let ghost mid = r@;
        match read_usize(r, len) {
            Ok(v) => {
                assert(r@ == orig.skip(orig.len() - r@.len()));
                Ok(Len::Def(v))
            },
            Err(e) => {
                proof {
                    lemma_skip_suffix(orig, 1);
                    lemma_suffix_trans(r@, mid, orig);
                }
                Err(e)
            },
        }
    }
}

#[inline]
pub fn read_len_def(r: &mut &[u8]) -> (res: Result<LenNum, ReadError>)
    ensures
        reads(res, spec_read_len_def(old(r)@), old(r)@, final(r)@),
        len_failure_leaves(res, old(r)@, final(r)@),
{
    let ghost orig = r@;
    proof {
        lemma_suffix_refl(orig);
    }
    let l = match read_byte(r) {
        Ok(b) => b,
        Err(e) => {
            return Err(ReadError::IoError(e));
        },
    };
    assert(l & 0x80 == 0 <==> l < 128) by (bit_vector);
    assert(l >= 128 ==> l & 0x7f == l - 128) by (bit_vector);
    if l & 0x80 == 0 {
        assert(l & 0x7f == l) by (bit_vector)
            requires
                l < 128,
        ;
        Ok((l & 0x7f) as usize)
    } else if l > 0x80 {
        let ghost mid = r@;
        let res = read_usize(r, (l & 0x7f) as LenNum);
        proof {
            if res is Err {
                lemma_skip_suffix(orig, 1);
                lemma_suffix_trans(r@, mid, orig);
            } else {
                assert(r@ == orig.skip(orig.len() - r@.len()));
            }
        }
        res
    } else {
        proof {
            lemma_skip_suffix(orig, 1);
        }
        Err(ReadError::InvalidLength)
    }
}

pub fn read_header(r: &mut &[u8]) -> (res: Result<(Tag, Len), ReadError>)
    ensures
        reads(res, spec_read_header(old(r)@), old(r)@, final(r)@),
        res matches Err(e) ==> match spec_read_tag(old(r)@) {
            Ok((t, n)) => len_failure_leaves(Err::<usize, ReadError>(e), old(r)@.skip(n), final(r)@),
            Err(_) => final(r)@.len() == 0,
        },
{
    let ghost orig = r@;
    let tag = match read_tag(r) {
        Ok(t) => t,
        Err(e) => {
            return Err(e);
        },
    };
    let ghost mid = r@;
    let len = match read_len(r) {
        Ok(l) => l,
        Err(e) => {
            proof {
                lemma_suffix_trans(r@, mid, orig);
            }
            return Err(e);
        },
    };
    assert(r@ == orig.skip(orig.len() - r@.len()));
    Ok((tag, len))
}

pub fn read_boolean(r: &mut &[u8], len: LenNum) -> (res: Result<bool, ReadError>)
    ensures
        reads(res, spec_read_boolean(old(r)@, len as nat), old(r)@, final(r)@),
        res is Err ==> if len != 1 {
            final(r)@ == old(r)@
        } else {
            final(r)@.len() == 0
        },
{
    proof {
        lemma_suffix_refl(old(r)@);
    }
    if len == 1 {
        let byte = match read_byte(r) {
            Ok(b) => b,
            Err(e) => {
                return Err(ReadError::IoError(e));
            },
        };
        Ok(byte != 0)
    } else {
        Err(ReadError::InvalidLength)
    }
}

/// Reads up to `n` bytes: all of them when the input holds that many, otherwise
/// what is left.
fn read_upto(r: &mut &[u8], n: usize) -> (b: Vec<u8>)
    ensures
        b@ == old(r)@.take(min(n as int, old(r)@.len() as int)),
        final(r)@ == old(r)@.skip(min(n as int, old(r)@.len() as int)),
{
    let m = if n < r.len() { n } else { r.len() };
    let (head, rest) = r.split_at(m);
    *r = rest;
    vstd::slice::slice_to_vec(head)
}

pub fn read_bit_string(r: &mut &[u8], len: LenNum) -> (res: Result<(u8, Vec<u8>), ReadError>)
    ensures
        reads_view(res, spec_read_bit_string(old(r)@, len as nat), old(r)@, final(r)@),
        len == 0 ==> final(r)@ == old(r)@,
        res matches Err(ReadError::InvalidValue) ==> final(r)@ == old(r)@.drop_first(),
        res matches Err(ReadError::IoError(_)) ==> final(r)@.len() == 0,
{
    let ghost orig = r@;
    proof {
        lemma_suffix_refl(orig);
    }
    if len == 0 {
        return Err(ReadError::InvalidLength);
    }
    let unused: u8 = match read_u8(r, 1) {
        Ok(u) => u,
        Err(e) => {
            return Err(e);
        },
    };
    assert(unused == orig[0]) by {
        reveal_with_fuel(spec_be_value, 2);
        assert(orig.take(1).drop_last() == Seq::<u8>::empty());
    }
    if unused == 0 && len == 1 {
        return Ok((unused, vec![]));
    } else if unused > 7 || (unused > 0 && len == 1) {
        proof {
            lemma_skip_suffix(orig, 1);
        }
        return Err(ReadError::InvalidValue);
    }
    let buf = read_upto(r, len - 1);
    assert(buf@ == orig.subrange(1, 1 + min(len - 1, orig.len() - 1)));
    assert(r@ == orig.skip(1 + min(len - 1, orig.len() - 1)));
    Ok((unused, buf))
}

pub fn read_octet_string(r: &mut &[u8], len: LenNum) -> (res: Result<Vec<u8>, ReadError>)
    ensures
        reads_view(res, spec_read_octet_string(old(r)@, len as nat), old(r)@, final(r)@),
{
    let buf = read_upto(r, len);
    Ok(buf)
}

pub fn read_object_identifier(r: &mut &[u8], len: LenNum) -> (res: Result<Vec<u64>, ReadError>)
    ensures
        reads_view(res, spec_read_object_identifier(old(r)@, len as nat), old(r)@, final(r)@),
        res is Err ==> final(r)@ == old(r)@.skip(min(len as int, old(r)@.len() as int)),
{
    let ghost orig = r@;
    if len == 0 {
        proof {
            lemma_suffix_refl(orig);
        }
        return Err(ReadError::IoError(unexpected_eof()));
    }
    if r.len() < len {
        let rest: &[u8] = &r[r.len()..r.len()];
        *r = rest;
        proof {
            assert(r@ =~= orig.skip(orig.len() as int));
        }
        return Err(ReadError::IoError(unexpected_eof()));
    }
    let (content, rest) = r.split_at(len);
    let mut nested: &[u8] = content;
    let i0 = match read_byte(&mut nested) {
        Ok(b) => b,
        Err(e) => {
            return Err(ReadError::IoError(e));
        },
    };
    let mut buf: Vec<u64> = Vec::new();
    buf.push((i0 / 40) as u64);
    buf.push((i0 % 40) as u64);
    let ghost c = nested@;
    let mut failed: Option<ReadError> = None;
    assert(buf@.skip(2) == Seq::<u64>::empty());
    assert(c.skip(0) == c);
    while nested.len() > 0
        invariant_except_break
            failed.is_none(),
        invariant
            buf@.len() >= 2,
            buf@.take(2) == seq![(i0 / 40) as u64, (i0 % 40) as u64],
            is_suffix(nested@, c),
            failed.is_none() ==> match spec_read_arcs(c) {
                Ok(all) => spec_read_arcs(nested@) matches Ok(tail) && all == buf@.skip(2) + tail,
                Err(f) => spec_read_arcs(nested@) == Err::<Seq<u64>, ReadFailure>(f),
            },
            failed matches Some(e) ==> spec_read_arcs(c) matches Err(f) && e.failure() == f,
        ensures
            failed.is_none() ==> nested@.len() == 0,
        decreases nested@.len(),
    {
        let ghost before = nested@;
        let ghost before_buf = buf@;
        match read_base128(&mut nested) {
            Ok(v) => {
                let ghost n = before.len() - nested@.len();
                proof {
                    lemma_base128_from_len(before, 0);
                    assert(spec_read_arcs(before) == match spec_read_arcs(before.skip(n)) {
                        Ok(rest) => Ok(seq![v] + rest),
                        Err(f) => Err::<Seq<u64>, ReadFailure>(f),
                    });
                    lemma_skip_suffix(before, n);
                    lemma_suffix_trans(nested@, before, c);
                }
                buf.push(v);
                proof {
                    assert(buf@.take(2) == before_buf.take(2));
                    assert(buf@.skip(2) == before_buf.skip(2).push(v));
                    match spec_read_arcs(c) {
                        Ok(all) => {
                            let tail = spec_read_arcs(nested@)->Ok_0;
                            assert(before_buf.skip(2) + (seq![v] + tail) == buf@.skip(2) + tail);
                        },
                        Err(f) => {},
                    }
                }
            },
            Err(e) => {
                proof {
                    assert(spec_read_arcs(before) == Err::<Seq<u64>, ReadFailure>(e.failure()));
                    lemma_suffix_trans(nested@, before, c);
                }
                failed = Some(e);
                break;
            },
        }
    }
    *r = rest;
    assert(c == orig.subrange(1, len as int));
    match failed {
        Some(e) => {
            proof {
                lemma_skip_suffix(orig, len as int);
            }
            Err(e)
        },
        None => {
            proof {
                assert(c == orig.subrange(1, len as int));
                assert(spec_read_arcs(nested@) == Ok::<Seq<u64>, ReadFailure>(Seq::empty()));
                assert(buf@ == buf@.take(2) + buf@.skip(2));
                assert(r@ == orig.skip(len as int));
            }
            Ok(buf)
        },
    }
}

} // verus!
