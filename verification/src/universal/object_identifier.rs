use vstd::prelude::*;

use crate::de::Asn1Deserialize;
use crate::der::read::spec_read_object_identifier;
use crate::der::reader::{spec_decode_primitive, DecodeError, DecodeKind, Deserializer};
use crate::der::writer::{tag_or, EncodeError, Serializer};
use crate::info::tag::Tag;
use crate::info::universal::{spec_tag_object_identifier, tag_object_identifier, TYPE_OBJECT_IDENTIFIER};
use crate::info::{Asn1DisplayExt, Asn1Tagged, Asn1Typed};
use crate::ser::write::{oid_writable, spec_oid_content, spec_primitive_bytes};
use crate::ser::Asn1Serialize;
use crate::text::{ascii_string, dotted_text, labeled, lemma_ascii_valid_utf8, spec_decimal, spec_dotted_text};
use vstd::string::StringSliceAdditionalSpecFns;
use vstd::utf8::encode_utf8;

verus! {

/// ASN.1 OBJECT IDENTIFIER: its arcs.
#[derive(Debug, PartialEq, Eq, PartialOrd, Ord)]
pub struct ObjectIdentifier(Vec<u64>);

impl View for ObjectIdentifier {
    type V = Seq<u64>;

    closed spec fn view(&self) -> Seq<u64> {
        self.0@
    }
}

impl Clone for ObjectIdentifier {
    fn clone(&self) -> (o: Self)
        ensures
            o@ == self@,
    {
        let data = self.0.clone();
        assert(data@ =~= self.0@);
        ObjectIdentifier(data)
    }
}

impl ObjectIdentifier {
    pub fn new(data: Vec<u64>) -> (o: Self)
        ensures
            o@ == data@,
    {
        ObjectIdentifier(data)
    }

    pub fn into_inner(self) -> (v: Vec<u64>)
        ensures
            v@ == self@,
    {
        self.0
    }

    pub fn from_slice(slice: &[u64]) -> (o: Self)
        ensures
            o@ == slice@,
    {
        ObjectIdentifier(vstd::slice::slice_to_vec(slice))
    }

    pub fn as_slice(&self) -> (s: &[u64])
        ensures
            s@ == self@,
    {
        self.0.as_slice()
    }

    /// The arcs, to be changed in place.
    pub fn as_mut_slice(&mut self) -> (s: &mut [u64])
        ensures
            s@ == old(self)@,
            final(self)@ == final(s)@,
    {
        self.0.as_mut_slice()
    }

    /// The arcs in decimal, separated by dots.
    pub fn to_string(&self) -> (s: String)
        ensures
            encode_utf8(s@) == spec_dotted_text(self@),
    {
        ascii_string(dotted_text(self.0.as_slice()))
    }
}

/// The error of a text that is not an OBJECT IDENTIFIER.
#[derive(Debug)]
pub struct ParseObjectIdError {
    _priv: (),
}

impl ParseObjectIdError {
    pub fn new() -> (e: ParseObjectIdError) {
        ParseObjectIdError { _priv: () }
    }

    /// What the error says.
    pub fn description(&self) -> (d: &'static str)
        ensures
            d@ == "provided string is not a valid Object Identifier (dot separated natural numbers)"@,
    {
        "provided string is not a valid Object Identifier (dot separated natural numbers)"
    }
}

impl From<()> for ParseObjectIdError {
    fn from(u: ()) -> (e: ParseObjectIdError) {
        ParseObjectIdError { _priv: () }
    }
}

impl vstd::std_specs::convert::FromSpecImpl<()> for ParseObjectIdError {
    open spec fn obeys_from_spec() -> bool {
        true
    }

    closed spec fn from_spec(u: ()) -> ParseObjectIdError {
        ParseObjectIdError { _priv: () }
    }
}

/// An ASCII decimal digit.
pub open spec fn is_digit(b: u8) -> bool {
    48 <= b <= 57
}

/// The number that decimal digits write.
pub open spec fn spec_digits_value(d: Seq<u8>) -> nat
    decreases d.len(),
{
    if d.len() == 0 {
        0
    } else {
        spec_digits_value(d.drop_last()) * 10 + (d.last() - 48) as nat
    }
}

/// At least one digit, and only digits, writing a number that fits in a `u64`.
pub open spec fn spec_parse_digits(d: Seq<u8>) -> Option<u64> {
    if d.len() > 0 && (forall|i: int| 0 <= i < d.len() ==> is_digit(#[trigger] d[i])) && spec_digits_value(d) <= u64::MAX {
        Some(spec_digits_value(d) as u64)
    } else {
        None
    }
}

/// A `u64` written in decimal, as `u64::from_str` reads it: an optional `+`,
/// then at least one digit, the number fitting in a `u64`.
pub open spec fn spec_parse_u64(s: Seq<u8>) -> Option<u64> {
    if s.len() > 0 && s[0] == 43 {
        spec_parse_digits(s.drop_first())
    } else {
        spec_parse_digits(s)
    }
}

/// The pieces of a text between its dots, the first and the last included
/// even when empty.
pub open spec fn spec_dot_pieces(s: Seq<u8>) -> Seq<Seq<u8>>
    decreases s.len(),
{
    if s.len() == 0 {
        seq![Seq::empty()]
    } else {
        let p = spec_dot_pieces(s.drop_last());
        if s.last() == 46 {
            p.push(Seq::empty())
        } else {
            p.update(p.len() - 1, p.last().push(s.last()))
        }
    }
}

/// The arcs that a text of dot-separated numbers gives, when every piece is a
/// number.
pub open spec fn spec_parse_oid(s: Seq<u8>) -> Option<Seq<u64>> {
    let p = spec_dot_pieces(s);
    if forall|j: int| 0 <= j < p.len() ==> (#[trigger] spec_parse_u64(p[j])) is Some {
        Some(Seq::new(p.len(), |j: int| spec_parse_u64(p[j])->Some_0))
    } else {
        None
    }
}

/// Reads a `u64` written in decimal, as `u64::from_str` does.
pub fn parse_u64(s: &[u8]) -> (r: Option<u64>)
    ensures
        r == spec_parse_u64(s@),
{
    let start: usize = if s.len() > 0 && s[0] == 43 {
        1
    } else {
        0
    };
    let ghost d = if s@.len() > 0 && s@[0] == 43 {
        s@.drop_first()
    } else {
        s@
    };
    assert(d == s@.skip(start as int));
    if start == s.len() {
        return None;
    }
    let mut acc: u64 = 0;
    let mut over = false;
    let mut i: usize = start;
    while i < s.len()
        invariant
            start <= i <= s@.len(),
            start < s@.len(),
            d == s@.skip(start as int),
            spec_parse_u64(s@) == spec_parse_digits(d),
            forall|k: int| 0 <= k < i - start ==> is_digit(#[trigger] d[k]),
            !over ==> acc == spec_digits_value(d.take(i - start)),
            over ==> spec_digits_value(d.take(i - start)) > u64::MAX,
        decreases s@.len() - i,
    {
        let b = s[i];
        if b < 48 || b > 57 {
            assert(d[i - start] == b);
            assert(!is_digit(d[i - start]));
            return None;
        }
        let dig = (b - 48) as u64;
        let ghost prev = spec_digits_value(d.take(i - start));
        assert(d.take(i + 1 - start).drop_last() =~= d.take(i - start));
        assert(spec_digits_value(d.take(i + 1 - start)) == prev * 10 + dig);
        if !over {
            if acc > (u64::MAX - dig) / 10 {
                assert(acc * 10 + dig > u64::MAX) by (nonlinear_arith)
                    requires
                        acc > (u64::MAX - dig) / 10,
                        dig <= 9,
                ;
                over = true;
            } else {
                assert(acc * 10 + dig <= u64::MAX) by (nonlinear_arith)
                    requires
                        acc <= (u64::MAX - dig) / 10,
                        dig <= 9,
                ;
                acc = acc * 10 + dig;
            }
        } else {
            assert(prev * 10 + dig >= prev) by (nonlinear_arith)
                requires
                    prev >= 0,
                    dig >= 0,
            ;
        }
        i = i + 1;
    }
    assert(d.take(i - start) =~= d);
    if over {
        None
    } else {
        Some(acc)
    }
}

proof fn lemma_dot_pieces_nonempty(s: Seq<u8>)
    ensures
        spec_dot_pieces(s).len() >= 1,
    decreases s.len(),
{
    if s.len() > 0 {
        lemma_dot_pieces_nonempty(s.drop_last());
    }
}

impl std::str::FromStr for ObjectIdentifier {
    type Err = ParseObjectIdError;

    /// Reads dot-separated decimal arcs.
    fn from_str(s: &str) -> (r: Result<Self, Self::Err>)
        ensures
            match spec_parse_oid(s.spec_bytes()) {
                Some(arcs) => r matches Ok(o) && o@ == arcs,
                None => r is Err,
            },
    {
        let bytes = s.as_bytes();
        let mut arcs: Vec<u64> = Vec::new();
        let mut ok = true;
        let mut start: usize = 0;
        let mut i: usize = 0;
        let ghost mut done: Seq<Seq<u8>> = Seq::empty();
        assert(bytes@.take(0) =~= Seq::<u8>::empty());
        assert(bytes@.subrange(0, 0) =~= Seq::<u8>::empty());
        while i < bytes.len()
            invariant
                start <= i <= bytes@.len(),
                spec_dot_pieces(bytes@.take(i as int)) == done.push(bytes@.subrange(start as int, i as int)),
                ok <==> forall|j: int| 0 <= j < done.len() ==> (#[trigger] spec_parse_u64(done[j])) is Some,
                ok ==> arcs@ == Seq::new(done.len(), |j: int| spec_parse_u64(done[j])->Some_0),
            decreases bytes@.len() - i,
        {
            let ghost cur = bytes@.subrange(start as int, i as int);
            assert(bytes@.take(i + 1).drop_last() =~= bytes@.take(i as int));
            assert(bytes@.take(i + 1).last() == bytes@[i as int]);
            if bytes[i] == 46 {
                let piece = &bytes[start..i];
                assert(piece@ =~= cur);
                match parse_u64(piece) {
                    Some(v) => {
                        if ok {
                            arcs.push(v);
                        }
                    },
                    None => {
                        ok = false;
                    },
                }
                proof {
                    let old_done = done;
                    done = done.push(cur);
                    assert(done[old_done.len() as int] == cur);
                    assert forall|j: int| 0 <= j < old_done.len() implies done[j] == old_done[j] by {}
                    if ok {
                        assert(arcs@ =~= Seq::new(done.len(), |j: int| spec_parse_u64(done[j])->Some_0));
                    }
                    assert(bytes@.subrange(i + 1, i + 1) =~= Seq::<u8>::empty());
                }
                start = i + 1;
            } else {
                proof {
                    assert(bytes@.subrange(start as int, i + 1) =~= cur.push(bytes@[i as int]));
                    assert(done.push(cur).update(done.len() as int, cur.push(bytes@[i as int])) =~= done.push(
                        bytes@.subrange(start as int, i + 1),
                    ));
                }
            }
            i = i + 1;
        }
        assert(bytes@.take(bytes@.len() as int) =~= bytes@);
        let piece = &bytes[start..bytes.len()];
        let ghost cur = bytes@.subrange(start as int, bytes@.len() as int);
        assert(piece@ =~= cur);
        let ghost all = done.push(cur);
        assert(all[done.len() as int] == cur);
        assert forall|j: int| 0 <= j < done.len() implies all[j] == done[j] by {}
        match parse_u64(piece) {
            Some(v) => {
                if ok {
                    arcs.push(v);
                    assert(arcs@ =~= Seq::new(all.len(), |j: int| spec_parse_u64(all[j])->Some_0));
                    Ok(ObjectIdentifier::new(arcs))
                } else {
                    Err(ParseObjectIdError::new())
                }
            },
            None => Err(ParseObjectIdError::new()),
        }
    }
}

impl Default for ObjectIdentifier {
    fn default() -> (o: ObjectIdentifier)
        ensures
            o@ == seq![0u64, 0u64],
    {
        ObjectIdentifier::new(vec![0, 0])
    }
}

impl Asn1Tagged for ObjectIdentifier {
    fn asn1_tag() -> (t: Tag)
        ensures
            t == spec_tag_object_identifier(),
    {
        tag_object_identifier()
    }
}

impl Asn1Typed for ObjectIdentifier {
    fn asn1_type() -> (t: &'static str)
        ensures
            t@ == TYPE_OBJECT_IDENTIFIER@,
    {
        TYPE_OBJECT_IDENTIFIER
    }
}

impl Asn1Serialize for ObjectIdentifier {
    /// Two leading arcs whose first octet fits in a byte.
    open spec fn spec_serializable(&self) -> bool {
        oid_writable(self@) && 10 * self@.len() < usize::MAX
    }

    open spec fn spec_der(&self, tag: Option<Tag>) -> Seq<u8> {
        spec_primitive_bytes(tag_or(tag, spec_tag_object_identifier()), spec_oid_content(self@))
    }

    fn asn1_serialize(&self, serializer: &mut Serializer) -> (r: Result<(), EncodeError>) {
        serializer.serialize_object_identifier(self.as_slice())
    }
}

impl Asn1Deserialize for ObjectIdentifier {
    type Model = Seq<u64>;

    open spec fn obeys_asn1_decode() -> bool {
        true
    }

    open spec fn spec_model(&self) -> Seq<u64> {
        self@
    }

    open spec fn spec_asn1_decode(input: Seq<u8>, peeked: Option<Tag>, implicit: Option<Tag>) -> Result<(Seq<u64>, int), DecodeKind> {
        spec_decode_primitive(input, peeked, tag_or(implicit, spec_tag_object_identifier()), |s: Seq<u8>, l: nat| spec_read_object_identifier(s, l))
    }

    fn asn1_deserialize(deserializer: &mut Deserializer) -> (r: Result<Self, DecodeError>) {
        match deserializer.deserialize_object_identifier() {
            Ok(v) => Ok(ObjectIdentifier::new(v)),
            Err(e) => Err(e),
        }
    }
}

impl Asn1DisplayExt for ObjectIdentifier {
    fn asn1_fmt(&self) -> (s: String)
        ensures
            encode_utf8(s@) == TYPE_OBJECT_IDENTIFIER.spec_bytes() + seq![58u8, 32u8] + spec_dotted_text(self@),
    {
        let text = dotted_text(self.0.as_slice());
        proof {
            lemma_ascii_valid_utf8(text@);
        }
        labeled(TYPE_OBJECT_IDENTIFIER, text.as_slice())
    }
}

/// The decimal digits of a number are digits, the first not a `+`, and they
/// write the number.
pub proof fn lemma_decimal_value(n: nat)
    ensures
        spec_decimal(n).len() >= 1,
        forall|i: int| 0 <= i < spec_decimal(n).len() ==> is_digit(#[trigger] spec_decimal(n)[i]),
        spec_digits_value(spec_decimal(n)) == n,
    decreases n,
{
    if n >= 10 {
        lemma_decimal_value(n / 10);
        let d = spec_decimal(n);
        assert(d.drop_last() == spec_decimal(n / 10));
        assert(d.last() == (48 + n % 10) as u8);
        assert((d.last() - 48) as nat == n % 10);
        assert((n / 10) * 10 + n % 10 == n);
        assert(d.len() >= 1);
        assert(spec_digits_value(d) == spec_digits_value(d.drop_last()) * 10 + (d.last() - 48) as nat);
        assert(spec_digits_value(d) == n);
        assert forall|i: int| 0 <= i < d.len() implies is_digit(#[trigger] d[i]) by {
            if i < d.len() - 1 {
                assert(d[i] == spec_decimal(n / 10)[i]);
            }
        }
    } else {
        assert(spec_decimal(n).drop_last() =~= Seq::<u8>::empty());
        assert(spec_decimal(n).last() == (48 + n) as u8);
        assert(spec_digits_value(spec_decimal(n)) == spec_digits_value(Seq::<u8>::empty()) * 10 + n);
    }
}

/// The pieces of a text followed by bytes without a dot: the last piece grows
/// by those bytes.
proof fn lemma_dot_pieces_append(s: Seq<u8>, t: Seq<u8>)
    requires
        forall|i: int| 0 <= i < t.len() ==> #[trigger] t[i] != 46,
    ensures
        spec_dot_pieces(s + t) == spec_dot_pieces(s).update(
            spec_dot_pieces(s).len() - 1,
            spec_dot_pieces(s).last() + t,
        ),
    decreases t.len(),
{
    lemma_dot_pieces_nonempty(s);
    let p = spec_dot_pieces(s);
    if t.len() == 0 {
        assert(s + t =~= s);
        assert(p.last() + t =~= p.last());
        assert(p.update(p.len() - 1, p.last() + t) =~= p);
    } else {
        let init = t.drop_last();
        assert forall|i: int| 0 <= i < init.len() implies #[trigger] init[i] != 46 by {
            assert(init[i] == t[i]);
        }
        lemma_dot_pieces_append(s, init);
        assert((s + t).drop_last() =~= s + init);
        assert((s + t).last() == t.last());
        assert(t.last() != 46);
        let q = spec_dot_pieces(s + init);
        assert(q.len() == p.len());
        assert(q.last() == p.last() + init);
        assert((p.last() + init).push(t.last()) =~= p.last() + t);
        assert(spec_dot_pieces(s + t) == q.update(q.len() - 1, q.last().push(t.last())));
        assert(q.update(q.len() - 1, q.last().push(t.last())) =~= p.update(p.len() - 1, p.last() + t));
    }
}

/// The pieces of dot-separated decimal numbers are the numbers' digits.
proof fn lemma_dotted_pieces(arcs: Seq<u64>)
    requires
        arcs.len() >= 1,
    ensures
        spec_dot_pieces(spec_dotted_text(arcs)) == Seq::new(arcs.len(), |i: int| spec_decimal(arcs[i] as nat)),
    decreases arcs.len(),
{
    let last = spec_decimal(arcs.last() as nat);
    lemma_decimal_value(arcs.last() as nat);
    assert forall|i: int| 0 <= i < last.len() implies #[trigger] last[i] != 46 by {
        assert(is_digit(last[i]));
    }
    if arcs.len() == 1 {
        lemma_dot_pieces_append(Seq::empty(), last);
        assert(Seq::<u8>::empty() + last =~= last);
        assert(Seq::<u8>::empty() + last =~= last);
        assert(spec_dotted_text(arcs) == last);
        assert(spec_dot_pieces(Seq::<u8>::empty()) == seq![Seq::<u8>::empty()]);
        assert(spec_dot_pieces(spec_dotted_text(arcs)) =~= Seq::new(arcs.len(), |i: int| spec_decimal(arcs[i] as nat)));
    } else {
        let init = arcs.drop_last();
        lemma_dotted_pieces(init);
        let head = spec_dotted_text(init) + seq![46u8];
        assert(head.drop_last() =~= spec_dotted_text(init));
        assert(spec_dot_pieces(head) == spec_dot_pieces(spec_dotted_text(init)).push(Seq::empty()));
        lemma_dot_pieces_append(head, last);
        assert(spec_dotted_text(arcs) == head + last);
        assert(Seq::<u8>::empty() + last =~= last);
        assert(spec_dot_pieces(spec_dotted_text(arcs)) =~= Seq::new(arcs.len(), |i: int| spec_decimal(arcs[i] as nat)));
    }
}

/// What `from_str` reads of the text that `to_string` writes of an
/// OBJECT IDENTIFIER with at least one arc is that identifier.
pub proof fn lemma_parse_dotted_text(arcs: Seq<u64>)
    requires
        arcs.len() >= 1,
    ensures
        spec_parse_oid(spec_dotted_text(arcs)) == Some(arcs),
{
    lemma_dotted_pieces(arcs);
    let p = spec_dot_pieces(spec_dotted_text(arcs));
    assert forall|j: int| 0 <= j < p.len() implies (#[trigger] spec_parse_u64(p[j])) == Some(arcs[j]) by {
        lemma_decimal_value(arcs[j] as nat);
        let d = spec_decimal(arcs[j] as nat);
        assert(p[j] == d);
        assert(is_digit(d[0]));
    }
    assert(Seq::new(p.len(), |j: int| spec_parse_u64(p[j])->Some_0) =~= arcs);
}

} // verus!
