//! Text renderings of values: decimal, binary and hexadecimal digits, as the
//! UTF-8 bytes of the text.
use vstd::prelude::*;
use crate::universal::object_identifier::{is_digit, lemma_decimal_value, spec_parse_digits, spec_parse_u64};
use vstd::string::StringSliceAdditionalSpecFns;
use vstd::utf8::{
    encode_utf8, encode_utf8_valid_utf8, is_ascii_chars, is_ascii_chars_encode_utf8, valid_utf8,
    valid_utf8_concat,
};

verus! {

/// Decimal digits of `n`, most significant first, without leading zeros.
pub open spec fn spec_decimal(n: nat) -> Seq<u8>
    decreases n,
{
    if n < 10 {
        seq![(48 + n) as u8]
    } else {
        spec_decimal(n / 10).push((48 + n % 10) as u8)
    }
}

/// A signed number in decimal, with `-` in front when negative.
pub open spec fn spec_signed_decimal(v: int) -> Seq<u8> {
    if v < 0 {
        seq![45u8] + spec_decimal((-v) as nat)
    } else {
        spec_decimal(v as nat)
    }
}

/// Binary digits of `n`, most significant first, without leading zeros.
pub open spec fn spec_binary(n: nat) -> Seq<u8>
    decreases n,
{
    if n < 2 {
        seq![(48 + n) as u8]
    } else {
        spec_binary(n / 2).push((48 + n % 2) as u8)
    }
}

/// An upper-case hexadecimal digit.
pub open spec fn spec_hex_digit(d: nat) -> u8 {
    if d < 10 {
        (48 + d) as u8
    } else {
        (55 + d) as u8
    }
}

/// A byte as two upper-case hexadecimal digits.
pub open spec fn spec_hex_byte(b: u8) -> Seq<u8> {
    seq![spec_hex_digit(b as nat / 16), spec_hex_digit(b as nat % 16)]
}

/// Bytes in upper-case hexadecimal, separated by spaces.
pub open spec fn spec_hex_text(data: Seq<u8>) -> Seq<u8>
    decreases data.len(),
{
    if data.len() == 0 {
        Seq::empty()
    } else if data.len() == 1 {
        spec_hex_byte(data[0])
    } else {
        spec_hex_text(data.drop_last()) + seq![32u8] + spec_hex_byte(data.last())
    }
}

/// Numbers in decimal, separated by dots.
pub open spec fn spec_dotted_text(arcs: Seq<u64>) -> Seq<u8>
    decreases arcs.len(),
{
    if arcs.len() == 0 {
        Seq::empty()
    } else if arcs.len() == 1 {
        spec_decimal(arcs[0] as nat)
    } else {
        spec_dotted_text(arcs.drop_last()) + seq![46u8] + spec_decimal(arcs.last() as nat)
    }
}

/// Bytes in binary, one after another.
pub open spec fn spec_binary_text(data: Seq<u8>) -> Seq<u8>
    decreases data.len(),
{
    if data.len() == 0 {
        Seq::empty()
    } else {
        spec_binary_text(data.drop_last()) + spec_binary(data.last() as nat)
    }
}

/// Every byte is ASCII.
pub open spec fn is_ascii_bytes(s: Seq<u8>) -> bool {
    forall|i: int| 0 <= i < s.len() ==> #[trigger] s[i] < 128
}

/// ASCII bytes are valid UTF-8.
pub proof fn lemma_ascii_valid_utf8(s: Seq<u8>)
    requires
        is_ascii_bytes(s),
    ensures
        valid_utf8(s),
{
    let chars = Seq::new(s.len(), |i: int| s[i] as char);
    assert forall|i: int| 0 <= i < chars.len() implies '\0' <= #[trigger] chars[i] <= '\u{7f}' by {
        assert(s[i] < 128);
    }
    assert(is_ascii_chars(chars));
    is_ascii_chars_encode_utf8(chars);
    assert forall|i: int| 0 <= i < s.len() implies encode_utf8(chars)[i] == s[i] by {
        assert(chars[i] as u8 == encode_utf8(chars)[i]);
        assert(s[i] < 128);
    }
    assert(encode_utf8(chars) =~= s);
    encode_utf8_valid_utf8(chars);
}

/// Calls `String::from_utf8`: the bytes as a `String` when they are valid UTF-8,
/// whose UTF-8 encoding is then those bytes; nothing when they are not.
#[verifier::external_body]
pub(crate) fn string_from_utf8(bytes: Vec<u8>) -> (r: Option<String>)
    ensures
        r is Some <==> valid_utf8(bytes@),
        r matches Some(s) ==> encode_utf8(s@) == bytes@,
{
    match String::from_utf8(bytes) {
        Ok(s) => Some(s),
        Err(_) => None,
    }
}

/// The text of ASCII bytes.
pub fn ascii_string(bytes: Vec<u8>) -> (s: String)
    requires
        is_ascii_bytes(bytes@),
    ensures
        encode_utf8(s@) == bytes@,
{
    proof {
        lemma_ascii_valid_utf8(bytes@);
    }
    string_from_utf8(bytes).unwrap()
}

/// Appends the decimal digits of `v`.
pub fn push_decimal(out: &mut Vec<u8>, v: u64)
    ensures
        final(out)@ == old(out)@ + spec_decimal(v as nat),
        is_ascii_bytes(old(out)@) ==> is_ascii_bytes(final(out)@),
    decreases v,
{
    if v >= 10 {
        push_decimal(out, v / 10);
    }
    let ghost mid = out@;
    out.push(48 + (v % 10) as u8);
    assert(out@ == mid.push((48 + v % 10) as u8));
    assert(is_ascii_bytes(mid) ==> is_ascii_bytes(out@)) by {
        if is_ascii_bytes(mid) {
            assert forall|i: int| 0 <= i < out@.len() implies #[trigger] out@[i] < 128 by {
                if i < mid.len() {
                    assert(out@[i] == mid[i]);
                }
            }
        }
    }
}

/// Appends the binary digits of `v`.
pub fn push_binary(out: &mut Vec<u8>, v: u8)
    ensures
        final(out)@ == old(out)@ + spec_binary(v as nat),
        is_ascii_bytes(old(out)@) ==> is_ascii_bytes(final(out)@),
    decreases v,
{
    if v >= 2 {
        push_binary(out, v / 2);
    }
    let ghost mid = out@;
    out.push(48 + v % 2);
    assert(out@ == mid.push((48 + v % 2) as u8));
    assert(is_ascii_bytes(mid) ==> is_ascii_bytes(out@)) by {
        if is_ascii_bytes(mid) {
            assert forall|i: int| 0 <= i < out@.len() implies #[trigger] out@[i] < 128 by {
                if i < mid.len() {
                    assert(out@[i] == mid[i]);
                }
            }
        }
    }
}

fn hex_digit(d: u8) -> (c: u8)
    requires
        d < 16,
    ensures
        c == spec_hex_digit(d as nat),
        c < 128,
{
    if d < 10 {
        48 + d
    } else {
        55 + d
    }
}

/// Appends a byte as two upper-case hexadecimal digits.
pub fn push_hex_byte(out: &mut Vec<u8>, b: u8)
    ensures
        final(out)@ == old(out)@ + spec_hex_byte(b),
        is_ascii_bytes(old(out)@) ==> is_ascii_bytes(final(out)@),
{
    let hi = hex_digit(b / 16);
    let lo = hex_digit(b % 16);
    out.push(hi);
    out.push(lo);
    assert(out@ =~= old(out)@ + spec_hex_byte(b));
}

/// Writes bytes in upper-case hexadecimal, separated by spaces.
pub fn hex_text(data: &[u8]) -> (out: Vec<u8>)
    ensures
        out@ == spec_hex_text(data@),
        is_ascii_bytes(out@),
{
    let mut out: Vec<u8> = Vec::new();
    let mut i: usize = 0;
    while i < data.len()
        invariant
            i <= data@.len(),
            out@ == spec_hex_text(data@.take(i as int)),
            is_ascii_bytes(out@),
        decreases data@.len() - i,
    {
        if i > 0 {
            out.push(32u8);
            assert(is_ascii_bytes(out@)) by {
                assert forall|k: int| 0 <= k < out@.len() implies #[trigger] out@[k] < 128 by {
                    if k < out@.len() - 1 {
                        assert(out@[k] == out@.drop_last()[k]);
                    }
                }
            }
        }
        push_hex_byte(&mut out, data[i]);
        assert(data@.take(i + 1).drop_last() =~= data@.take(i as int));
        i = i + 1;
    }
    assert(data@.take(data@.len() as int) =~= data@);
    out
}

/// Writes numbers in decimal, separated by dots.
pub fn dotted_text(arcs: &[u64]) -> (out: Vec<u8>)
    ensures
        out@ == spec_dotted_text(arcs@),
        is_ascii_bytes(out@),
{
    let mut out: Vec<u8> = Vec::new();
    let mut i: usize = 0;
    while i < arcs.len()
        invariant
            i <= arcs@.len(),
            out@ == spec_dotted_text(arcs@.take(i as int)),
            is_ascii_bytes(out@),
        decreases arcs@.len() - i,
    {
        if i > 0 {
            out.push(46u8);
            assert(is_ascii_bytes(out@)) by {
                assert forall|k: int| 0 <= k < out@.len() implies #[trigger] out@[k] < 128 by {
                    if k < out@.len() - 1 {
                        assert(out@[k] == out@.drop_last()[k]);
                    }
                }
            }
        }
        push_decimal(&mut out, arcs[i]);
        assert(arcs@.take(i + 1).drop_last() =~= arcs@.take(i as int));
        i = i + 1;
    }
    assert(arcs@.take(arcs@.len() as int) =~= arcs@);
    out
}

/// Writes bytes in binary, one after another.
pub fn binary_text(data: &[u8]) -> (out: Vec<u8>)
    ensures
        out@ == spec_binary_text(data@),
        is_ascii_bytes(out@),
{
    let mut out: Vec<u8> = Vec::new();
    let mut i: usize = 0;
    while i < data.len()
        invariant
            i <= data@.len(),
            out@ == spec_binary_text(data@.take(i as int)),
            is_ascii_bytes(out@),
        decreases data@.len() - i,
    {
        push_binary(&mut out, data[i]);
        assert(data@.take(i + 1).drop_last() =~= data@.take(i as int));
        i = i + 1;
    }
    assert(data@.take(data@.len() as int) =~= data@);
    out
}

/// Writes a signed number in decimal.
pub fn signed_text(v: i64) -> (out: Vec<u8>)
    ensures
        out@ == spec_signed_decimal(v as int),
        is_ascii_bytes(out@),
{
    let mut out: Vec<u8> = Vec::new();
    if v < 0 {
        out.push(45u8);
        let m: u64 = if v == i64::MIN {
            0x8000_0000_0000_0000u64
        } else {
            (-v) as u64
        };
        push_decimal(&mut out, m);
    } else {
        push_decimal(&mut out, v as u64);
    }
    out
}

/// Writes an unsigned number in decimal.
pub fn unsigned_text(v: u64) -> (out: Vec<u8>)
    ensures
        out@ == spec_decimal(v as nat),
        is_ascii_bytes(out@),
{
    let mut out: Vec<u8> = Vec::new();
    push_decimal(&mut out, v);
    assert(out@ =~= spec_decimal(v as nat));
    out
}

/// A label, a colon and a space, then a text.
pub fn labeled(label: &str, text: &[u8]) -> (s: String)
    requires
        valid_utf8(text@),
    ensures
        encode_utf8(s@) == label.spec_bytes() + seq![58u8, 32u8] + text@,
{
    let mut bytes = vstd::slice::slice_to_vec(label.as_bytes());
    bytes.push(58u8);
    bytes.push(32u8);
    let ghost head = bytes@;
    bytes.extend_from_slice(text);
    assert(bytes@ =~= head + text@);
    proof {
        encode_utf8_valid_utf8(label@);
        let sep = seq![58u8, 32u8];
        assert(is_ascii_bytes(sep));
        lemma_ascii_valid_utf8(sep);
        assert(head =~= label.spec_bytes() + sep);
        valid_utf8_concat(label.spec_bytes(), sep);
        valid_utf8_concat(head, text@);
    }
    string_from_utf8(bytes).unwrap()
}

/// The upper-case hexadecimal digits, in order.
pub open spec fn hex_alphabet() -> Seq<u8> {
    seq![48u8, 49u8, 50u8, 51u8, 52u8, 53u8, 54u8, 55u8, 56u8, 57u8, 65u8, 66u8, 67u8, 68u8, 69u8, 70u8]
}

/// A byte is written as the digits `0123456789ABCDEF` at its high and its low
/// four bits.
pub proof fn lemma_hex_byte_digits(b: u8)
    ensures
        spec_hex_byte(b) == seq![hex_alphabet()[b as int / 16], hex_alphabet()[b as int % 16]],
{
    assert forall|d: nat| d < 16 implies spec_hex_digit(d) == #[trigger] hex_alphabet()[d as int] by {
        if d == 0 {} else if d == 1 {} else if d == 2 {} else if d == 3 {} else if d == 4 {}
        else if d == 5 {} else if d == 6 {} else if d == 7 {} else if d == 8 {} else if d == 9 {}
        else if d == 10 {} else if d == 11 {} else if d == 12 {} else if d == 13 {} else if d == 14 {}
        else {}
    }
    assert(spec_hex_digit(b as nat / 16) == hex_alphabet()[(b as nat / 16) as int]);
    assert(spec_hex_digit(b as nat % 16) == hex_alphabet()[(b as nat % 16) as int]);
}

/// The decimal text of a signed number starts with `-` exactly when the number
/// is negative; what follows the sign (or the whole text, when there is none)
/// reads back as the number's magnitude.
pub proof fn lemma_signed_decimal_reads_back(v: int)
    requires
        -0x1_0000_0000_0000_0000 < v < 0x1_0000_0000_0000_0000,
    ensures
        spec_signed_decimal(v).len() >= 1,
        (spec_signed_decimal(v)[0] == 45u8) <==> v < 0,
        v < 0 ==> spec_parse_u64(spec_signed_decimal(v).drop_first()) == Some((-v) as u64),
        v >= 0 ==> spec_parse_u64(spec_signed_decimal(v)) == Some(v as u64),
{
    let m: nat = if v < 0 { (-v) as nat } else { v as nat };
    lemma_decimal_value(m);
    let d = spec_decimal(m);
    assert(is_digit(d[0]));
    if v < 0 {
        assert((seq![45u8] + d).drop_first() =~= d);
        assert((seq![45u8] + d)[0] == 45u8);
    }
    assert(d.len() > 0 && (forall|i: int| 0 <= i < d.len() ==> is_digit(#[trigger] d[i])));
    assert(spec_parse_digits(d) == Some(m as u64));
}

/// The decimal text of a number reads back as the number.
pub proof fn lemma_decimal_reads_back(n: u64)
    ensures
        spec_parse_u64(spec_decimal(n as nat)) == Some(n),
{
    lemma_decimal_value(n as nat);
    let d = spec_decimal(n as nat);
    assert(is_digit(d[0]));
    assert(spec_parse_digits(d) == Some(n));
}

/// The hexadecimal text of bytes: for the byte at `i`, its two digits from
/// `0123456789ABCDEF` at `3 * i` and `3 * i + 1`, and a space at `3 * i + 2`
/// between it and the next byte.
#[verifier::spinoff_prover]
pub proof fn lemma_hex_text_layout(data: Seq<u8>)
    ensures
        data.len() == 0 ==> spec_hex_text(data).len() == 0,
        data.len() > 0 ==> spec_hex_text(data).len() == 3 * data.len() - 1,
        forall|i: int| 0 <= i < data.len() ==> #[trigger] spec_hex_text(data)[3 * i] == hex_alphabet()[data[i] as int / 16],
        forall|i: int| 0 <= i < data.len() ==> #[trigger] spec_hex_text(data)[3 * i + 1] == hex_alphabet()[data[i] as int % 16],
        forall|i: int| 0 <= i < data.len() - 1 ==> #[trigger] spec_hex_text(data)[3 * i + 2] == 32u8,
    decreases data.len(),
{
    let t = spec_hex_text(data);
    if data.len() == 1 {
        lemma_hex_byte_digits(data[0]);
        assert(t == spec_hex_byte(data[0]));
        assert forall|i: int| 0 <= i < data.len() implies #[trigger] spec_hex_text(data)[3 * i] == hex_alphabet()[data[i] as int / 16] by {
            assert(i == 0);
        }
        assert forall|i: int| 0 <= i < data.len() implies #[trigger] spec_hex_text(data)[3 * i + 1] == hex_alphabet()[data[i] as int % 16] by {
            assert(i == 0);
        }
    } else if data.len() > 1 {
        let init = data.drop_last();
        lemma_hex_text_layout(init);
        lemma_hex_byte_digits(data.last());
        let ti = spec_hex_text(init);
        assert(t == ti + seq![32u8] + spec_hex_byte(data.last()));
        assert forall|i: int| 0 <= i < data.len() implies #[trigger] spec_hex_text(data)[3 * i] == hex_alphabet()[data[i] as int / 16] by {
            if i < init.len() {
                assert(spec_hex_text(init)[3 * i] == hex_alphabet()[init[i] as int / 16]);
                assert(init[i] == data[i]);
                assert(t[3 * i] == ti[3 * i]);
            } else {
                assert(3 * i == ti.len() + 1);
                assert(t[3 * i] == spec_hex_byte(data.last())[0]);
            }
        }
        assert forall|i: int| 0 <= i < data.len() implies #[trigger] spec_hex_text(data)[3 * i + 1] == hex_alphabet()[data[i] as int % 16] by {
            if i < init.len() {
                assert(spec_hex_text(init)[3 * i + 1] == hex_alphabet()[init[i] as int % 16]);
                assert(init[i] == data[i]);
                assert(t[3 * i + 1] == ti[3 * i + 1]);
            } else {
                assert(3 * i + 1 == ti.len() + 2);
                assert(t[3 * i + 1] == spec_hex_byte(data.last())[1]);
            }
        }
        assert forall|i: int| 0 <= i < data.len() - 1 implies #[trigger] spec_hex_text(data)[3 * i + 2] == 32u8 by {
            if i < init.len() - 1 {
                assert(spec_hex_text(init)[3 * i + 2] == 32u8);
                assert(t[3 * i + 2] == ti[3 * i + 2]);
            } else {
                assert(3 * i + 2 == ti.len());
            }
        }
    }
}

/// The number that binary digits write.
pub open spec fn spec_binary_value(d: Seq<u8>) -> nat
    decreases d.len(),
{
    if d.len() == 0 {
        0
    } else {
        spec_binary_value(d.drop_last()) * 2 + (d.last() - 48) as nat
    }
}

/// The binary text of a number is made of `0` and `1`, starts with `1` unless
/// the number is zero, and reads back as the number.
pub proof fn lemma_binary_reads_back(n: nat)
    ensures
        spec_binary(n).len() >= 1,
        forall|i: int| 0 <= i < spec_binary(n).len() ==> #[trigger] spec_binary(n)[i] == 48u8 || spec_binary(n)[i] == 49u8,
        (spec_binary(n)[0] == 48u8) <==> n == 0,
        spec_binary_value(spec_binary(n)) == n,
    decreases n,
{
    let d = spec_binary(n);
    if n >= 2 {
        lemma_binary_reads_back(n / 2);
        assert(d.drop_last() == spec_binary(n / 2));
        assert(d.last() == (48 + n % 2) as u8);
        assert((d.last() - 48) as nat == n % 2);
        assert((n / 2) * 2 + n % 2 == n);
        assert(spec_binary_value(d) == spec_binary_value(d.drop_last()) * 2 + (d.last() - 48) as nat);
        assert(d[0] == spec_binary(n / 2)[0]);
        assert forall|i: int| 0 <= i < d.len() implies #[trigger] d[i] == 48u8 || d[i] == 49u8 by {
            if i < d.len() - 1 {
                assert(d[i] == spec_binary(n / 2)[i]);
            }
        }
    } else {
        assert(d.drop_last() =~= Seq::<u8>::empty());
        assert(d.last() == (48 + n) as u8);
        assert(spec_binary_value(d) == spec_binary_value(Seq::<u8>::empty()) * 2 + n);
    }
}

} // verus!
