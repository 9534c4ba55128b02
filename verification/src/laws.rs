//! What reading gives back of what was written, for every type that the library
//! reads and writes.
use vstd::prelude::*;

use crate::de::Asn1Deserialize;
use crate::der::laws::{
    lemma_bit_string_roundtrip, lemma_boolean_roundtrip, lemma_object_identifier_roundtrip, lemma_octet_string_roundtrip, lemma_primitive_roundtrip,
    lemma_signed_roundtrip, lemma_unsigned_roundtrip,
};
use crate::der::read::{
    map_value, min, spec_read_bit_string, spec_read_boolean, spec_read_object_identifier,
    spec_read_octet_string, spec_read_signed, spec_read_unsigned, ReadFailure,
};
use crate::der::reader::{spec_decode_header, spec_decode_primitive, spec_next_tag, DecodeKind};
use crate::der::writer::tag_or;
use crate::info::tag::{Len, Tag};
use crate::info::universal::{
    spec_tag_bit_string, spec_tag_boolean, spec_tag_integer, spec_tag_null,
    spec_tag_object_identifier, spec_tag_octet_string, spec_tag_sequence,
};
use crate::ser::write::{
    pow256, spec_bool_content, spec_header_bytes, spec_int_content, spec_len_def_bytes, spec_oid_content, spec_primitive_bytes, spec_tag_bytes,
};
use crate::ser::Asn1Serialize;
use crate::universal::bitstring::BitString;
use crate::universal::object_identifier::ObjectIdentifier;
use crate::universal::octet_string::OctetString;
use crate::universal::sequence_of::{spec_decode_elems, spec_elems_readable, spec_models, spec_seq_content};

verus! {

/// A primitive encoding reads back through a content reader that gives `v` for
/// the content followed by anything.
pub proof fn lemma_decode_primitive_roundtrip<T>(
    tag: Tag,
    content: Seq<u8>,
    rest: Seq<u8>,
    reader: spec_fn(Seq<u8>, nat) -> Result<(T, int), ReadFailure>,
    v: T,
)
    requires
        content.len() <= usize::MAX,
        reader(content + rest, content.len()) == Ok::<(T, int), ReadFailure>((v, content.len() as int)),
    ensures
        spec_decode_primitive(spec_primitive_bytes(tag, content) + rest, None, tag, reader)
            == Ok::<(T, int), DecodeKind>((v, spec_primitive_bytes(tag, content).len() as int)),
{
    lemma_primitive_roundtrip(tag, content, rest);
    let s = spec_primitive_bytes(tag, content) + rest;
    let t = spec_tag_bytes(tag).len() as int;
    let l = spec_len_def_bytes(content.len()).len() as int;
    assert(spec_next_tag(s, None) == Ok::<(Tag, int), ReadFailure>((tag, t)));
    assert(spec_decode_header(s, None, tag) == Ok::<(usize, int), DecodeKind>((content.len() as usize, t + l)));
}

/// Types whose written values read back as themselves.
pub trait Asn1Roundtrip: Asn1Serialize + Asn1Deserialize {
    /// The values of the type that read back as written.
    spec fn spec_roundtrips(&self) -> bool;

    /// The type reads as `spec_asn1_decode` says.
    proof fn lemma_obeys()
        ensures
            Self::obeys_asn1_decode(),
    ;

    /// Reading back what a value writes, under the same implicit tag (if any),
    /// gives the value and takes exactly its encoding, whatever follows; the
    /// encoding is never empty and can be read.
    proof fn lemma_roundtrip(&self, tag: Option<Tag>, rest: Seq<u8>)
        requires
            self.spec_serializable(),
            self.spec_roundtrips(),
        ensures
            Self::spec_asn1_decode(self.spec_der(tag) + rest, None, tag) == Ok::<(Self::Model, int), DecodeKind>(
                (self.spec_model(), self.spec_der(tag).len() as int),
            ),
            self.spec_der(tag).len() >= 1,
            Self::spec_asn1_readable(self.spec_der(tag) + rest, None, tag),
    ;
}

impl Asn1Roundtrip for bool {
    open spec fn spec_roundtrips(&self) -> bool {
        true
    }

    proof fn lemma_obeys() {
    }

    proof fn lemma_roundtrip(&self, tag: Option<Tag>, rest: Seq<u8>) {
        lemma_boolean_roundtrip(*self, rest);
        lemma_decode_primitive_roundtrip(
            tag_or(tag, spec_tag_boolean()),
            spec_bool_content(*self),
            rest,
            |s: Seq<u8>, l: nat| spec_read_boolean(s, l),
            *self,
        );
    }
}

impl Asn1Roundtrip for i8 {
    open spec fn spec_roundtrips(&self) -> bool {
        true
    }

    proof fn lemma_obeys() {
    }

    proof fn lemma_roundtrip(&self, tag: Option<Tag>, rest: Seq<u8>) {
        reveal_with_fuel(pow256, 9);
        lemma_signed_roundtrip(*self as int, 1, rest);
        crate::der::laws::lemma_int_content_short(*self as int);
        lemma_decode_primitive_roundtrip(
            tag_or(tag, spec_tag_integer()),
            spec_int_content(*self as int),
            rest,
            |s: Seq<u8>, l: nat| map_value(spec_read_signed(s, l, 1), |v: int| v as i8),
            *self,
        );
    }
}

impl Asn1Roundtrip for i16 {
    open spec fn spec_roundtrips(&self) -> bool {
        true
    }

    proof fn lemma_obeys() {
    }

    proof fn lemma_roundtrip(&self, tag: Option<Tag>, rest: Seq<u8>) {
        reveal_with_fuel(pow256, 9);
        lemma_signed_roundtrip(*self as int, 2, rest);
        crate::der::laws::lemma_int_content_short(*self as int);
        lemma_decode_primitive_roundtrip(
            tag_or(tag, spec_tag_integer()),
            spec_int_content(*self as int),
            rest,
            |s: Seq<u8>, l: nat| map_value(spec_read_signed(s, l, 2), |v: int| v as i16),
            *self,
        );
    }
}

impl Asn1Roundtrip for i32 {
    open spec fn spec_roundtrips(&self) -> bool {
        true
    }

    proof fn lemma_obeys() {
    }

    proof fn lemma_roundtrip(&self, tag: Option<Tag>, rest: Seq<u8>) {
        reveal_with_fuel(pow256, 9);
        lemma_signed_roundtrip(*self as int, 4, rest);
        crate::der::laws::lemma_int_content_short(*self as int);
        lemma_decode_primitive_roundtrip(
            tag_or(tag, spec_tag_integer()),
            spec_int_content(*self as int),
            rest,
            |s: Seq<u8>, l: nat| map_value(spec_read_signed(s, l, 4), |v: int| v as i32),
            *self,
        );
    }
}

impl Asn1Roundtrip for i64 {
    open spec fn spec_roundtrips(&self) -> bool {
        true
    }

    proof fn lemma_obeys() {
    }

    proof fn lemma_roundtrip(&self, tag: Option<Tag>, rest: Seq<u8>) {
        reveal_with_fuel(pow256, 9);
        lemma_signed_roundtrip(*self as int, 8, rest);
        crate::der::laws::lemma_int_content_short(*self as int);
        lemma_decode_primitive_roundtrip(
            tag_or(tag, spec_tag_integer()),
            spec_int_content(*self as int),
            rest,
            |s: Seq<u8>, l: nat| map_value(spec_read_signed(s, l, 8), |v: int| v as i64),
            *self,
        );
    }
}

impl Asn1Roundtrip for isize {
    open spec fn spec_roundtrips(&self) -> bool {
        true
    }

    proof fn lemma_obeys() {
    }

    proof fn lemma_roundtrip(&self, tag: Option<Tag>, rest: Seq<u8>) {
        reveal_with_fuel(pow256, 9);
        lemma_signed_roundtrip(*self as int, 8, rest);
        crate::der::laws::lemma_int_content_short(*self as int);
        lemma_decode_primitive_roundtrip(
            tag_or(tag, spec_tag_integer()),
            spec_int_content(*self as int),
            rest,
            |s: Seq<u8>, l: nat| map_value(map_value(spec_read_signed(s, l, 8), |v: int| v as i64), |v: i64| v as isize),
            *self,
        );
    }
}

impl Asn1Roundtrip for u8 {
    open spec fn spec_roundtrips(&self) -> bool {
        true
    }

    proof fn lemma_obeys() {
    }

    proof fn lemma_roundtrip(&self, tag: Option<Tag>, rest: Seq<u8>) {
        reveal_with_fuel(pow256, 9);
        lemma_unsigned_roundtrip(*self as nat, 1, rest);
        crate::der::laws::lemma_int_content_short(*self as int);
        lemma_decode_primitive_roundtrip(
            tag_or(tag, spec_tag_integer()),
            spec_int_content(*self as int),
            rest,
            |s: Seq<u8>, l: nat| map_value(spec_read_unsigned(s, l, 1), |v: nat| v as u8),
            *self,
        );
    }
}

impl Asn1Roundtrip for u16 {
    open spec fn spec_roundtrips(&self) -> bool {
        true
    }

    proof fn lemma_obeys() {
    }

    proof fn lemma_roundtrip(&self, tag: Option<Tag>, rest: Seq<u8>) {
        reveal_with_fuel(pow256, 9);
        lemma_unsigned_roundtrip(*self as nat, 2, rest);
        crate::der::laws::lemma_int_content_short(*self as int);
        lemma_decode_primitive_roundtrip(
            tag_or(tag, spec_tag_integer()),
            spec_int_content(*self as int),
            rest,
            |s: Seq<u8>, l: nat| map_value(spec_read_unsigned(s, l, 2), |v: nat| v as u16),
            *self,
        );
    }
}

impl Asn1Roundtrip for u32 {
    open spec fn spec_roundtrips(&self) -> bool {
        true
    }

    proof fn lemma_obeys() {
    }

    proof fn lemma_roundtrip(&self, tag: Option<Tag>, rest: Seq<u8>) {
        reveal_with_fuel(pow256, 9);
        lemma_unsigned_roundtrip(*self as nat, 4, rest);
        crate::der::laws::lemma_int_content_short(*self as int);
        lemma_decode_primitive_roundtrip(
            tag_or(tag, spec_tag_integer()),
            spec_int_content(*self as int),
            rest,
            |s: Seq<u8>, l: nat| map_value(spec_read_unsigned(s, l, 4), |v: nat| v as u32),
            *self,
        );
    }
}

impl Asn1Roundtrip for u64 {
    open spec fn spec_roundtrips(&self) -> bool {
        true
    }

    proof fn lemma_obeys() {
    }

    proof fn lemma_roundtrip(&self, tag: Option<Tag>, rest: Seq<u8>) {
        reveal_with_fuel(pow256, 9);
        lemma_unsigned_roundtrip(*self as nat, 8, rest);
        crate::der::laws::lemma_int_content_short(*self as int);
        lemma_decode_primitive_roundtrip(
            tag_or(tag, spec_tag_integer()),
            spec_int_content(*self as int),
            rest,
            |s: Seq<u8>, l: nat| map_value(spec_read_unsigned(s, l, 8), |v: nat| v as u64),
            *self,
        );
    }
}

impl Asn1Roundtrip for usize {
    open spec fn spec_roundtrips(&self) -> bool {
        true
    }

    proof fn lemma_obeys() {
    }

    proof fn lemma_roundtrip(&self, tag: Option<Tag>, rest: Seq<u8>) {
        reveal_with_fuel(pow256, 9);
        lemma_unsigned_roundtrip(*self as nat, 8, rest);
        crate::der::laws::lemma_int_content_short(*self as int);
        lemma_decode_primitive_roundtrip(
            tag_or(tag, spec_tag_integer()),
            spec_int_content(*self as int),
            rest,
            |s: Seq<u8>, l: nat| map_value(map_value(spec_read_unsigned(s, l, 8), |v: nat| v as u64), |v: u64| v as usize),
            *self,
        );
    }
}

impl Asn1Roundtrip for () {
    open spec fn spec_roundtrips(&self) -> bool {
        true
    }

    proof fn lemma_obeys() {
    }

    proof fn lemma_roundtrip(&self, tag: Option<Tag>, rest: Seq<u8>) {
        let t = tag_or(tag, spec_tag_null());
        let c = Seq::<u8>::empty();
        lemma_primitive_roundtrip(t, c, rest);
        let s = spec_primitive_bytes(t, c) + rest;
        let tl = spec_tag_bytes(t).len() as int;
        assert(spec_next_tag(s, None) == Ok::<(Tag, int), ReadFailure>((t, tl)));
    }
}

impl Asn1Roundtrip for OctetString {
    open spec fn spec_roundtrips(&self) -> bool {
        self@.len() <= usize::MAX
    }

    proof fn lemma_obeys() {
    }

    proof fn lemma_roundtrip(&self, tag: Option<Tag>, rest: Seq<u8>) {
        lemma_octet_string_roundtrip(self@, rest);
        lemma_decode_primitive_roundtrip(
            tag_or(tag, spec_tag_octet_string()),
            self@,
            rest,
            |s: Seq<u8>, l: nat| spec_read_octet_string(s, l),
            self@,
        );
    }
}

impl Asn1Roundtrip for BitString {
    /// Well formed (fewer than 8 unused bits, none without bytes).
    open spec fn spec_roundtrips(&self) -> bool {
        crate::universal::bitstring::bit_string_wf(self@.0, self@.1)
    }

    proof fn lemma_obeys() {
    }

    proof fn lemma_roundtrip(&self, tag: Option<Tag>, rest: Seq<u8>) {
        let u = self@.0 as u8;
        lemma_bit_string_roundtrip(u, self@.1, rest);
        assert(seq![u] + self@.1 + rest == (seq![u] + self@.1) + rest);
        lemma_decode_primitive_roundtrip(
            tag_or(tag, spec_tag_bit_string()),
            seq![u] + self@.1,
            rest,
            |s: Seq<u8>, l: nat| spec_read_bit_string(s, l),
            (u, self@.1),
        );
    }
}

impl Asn1Roundtrip for ObjectIdentifier {
    /// The first two arcs `a`, `b` have `b < 40` and `40 * a + b < 256`.
    open spec fn spec_roundtrips(&self) -> bool {
        self@.len() >= 2 && self@[1] < 40 && self@[0] * 40 + self@[1] < 256
    }

    proof fn lemma_obeys() {
    }

    proof fn lemma_roundtrip(&self, tag: Option<Tag>, rest: Seq<u8>) {
        lemma_object_identifier_roundtrip(self@, rest);
        crate::ser::write::lemma_arcs_bytes_len(self@.skip(2));
        lemma_decode_primitive_roundtrip(
            tag_or(tag, spec_tag_object_identifier()),
            spec_oid_content(self@),
            rest,
            |s: Seq<u8>, l: nat| spec_read_object_identifier(s, l),
            self@,
        );
    }
}

/// The content of a SEQUENCE OF is its first element's encoding followed by the
/// content of the others.
pub proof fn lemma_seq_content_cons<T: Asn1Serialize>(s: Seq<T>)
    requires
        s.len() > 0,
    ensures
        spec_seq_content(s) == s[0].spec_der(None) + spec_seq_content(s.drop_first()),
    decreases s.len(),
{
    if s.len() == 1 {
        assert(s.drop_last() =~= Seq::<T>::empty());
        assert(s.drop_first() =~= Seq::<T>::empty());
        assert(spec_seq_content(s) =~= s[0].spec_der(None) + spec_seq_content(s.drop_first()));
    } else {
        let init = s.drop_last();
        lemma_seq_content_cons(init);
        assert(init.drop_first() =~= s.drop_first().drop_last());
        assert(init[0] == s[0]);
        assert(s.drop_first().last() == s.last());
        assert(spec_seq_content(s) =~= s[0].spec_der(None) + spec_seq_content(s.drop_first()));
    }
}

/// Reading elements from the content of a SEQUENCE OF, as long as it is, gives
/// back every element.
pub proof fn lemma_decode_elems_roundtrip<T: Asn1Roundtrip>(s: Seq<T>)
    requires
        forall|i: int| 0 <= i < s.len() ==> #[trigger] s[i].spec_serializable() && s[i].spec_roundtrips(),
    ensures
        spec_decode_elems::<T>(spec_seq_content(s), spec_seq_content(s).len())
            == Ok::<(Seq<T::Model>, int), DecodeKind>((spec_models(s), spec_seq_content(s).len() as int)),
        spec_elems_readable::<T>(spec_seq_content(s), spec_seq_content(s).len()),
    decreases s.len(),
{
    if s.len() == 0 {
        assert(spec_models(s) =~= Seq::<T::Model>::empty());
    } else {
        lemma_seq_content_cons(s);
        let d = s[0].spec_der(None);
        let tail = s.drop_first();
        let t = spec_seq_content(tail);
        assert(s[0].spec_serializable() && s[0].spec_roundtrips());
        s[0].lemma_roundtrip(None, t);
        assert((d + t).skip(d.len() as int) =~= t);
        assert forall|i: int| 0 <= i < tail.len() implies #[trigger] tail[i].spec_serializable() && tail[i].spec_roundtrips() by {
            assert(tail[i] == s[i + 1]);
        }
        lemma_decode_elems_roundtrip(tail);
        assert(seq![s[0].spec_model()] + spec_models(tail) =~= spec_models(s));
    }
}

impl<T: Asn1Roundtrip> Asn1Roundtrip for Vec<T> {
    /// Every element reads back as written, and the content's length fits in
    /// `usize`.
    open spec fn spec_roundtrips(&self) -> bool {
        &&& forall|i: int| 0 <= i < self@.len() ==> #[trigger] self@[i].spec_roundtrips()
        &&& spec_seq_content(self@).len() <= usize::MAX
    }

    proof fn lemma_obeys() {
        T::lemma_obeys();
    }

    proof fn lemma_roundtrip(&self, tag: Option<Tag>, rest: Seq<u8>) {
        let c = spec_seq_content(self@);
        let t = tag_or(tag, spec_tag_sequence());
        assert(spec_header_bytes(t, Len::Def(c.len() as usize)) + c == spec_primitive_bytes(t, c));
        lemma_primitive_roundtrip(t, c, rest);
        let input = spec_primitive_bytes(t, c) + rest;
        let tl = spec_tag_bytes(t).len() as int;
        let ll = spec_len_def_bytes(c.len()).len() as int;
        assert(spec_next_tag(input, None) == Ok::<(Tag, int), ReadFailure>((t, tl)));
        assert(spec_decode_header(input, None, t) == Ok::<(usize, int), DecodeKind>((c.len() as usize, tl + ll)));
        assert(input.skip(tl + ll).take(min(c.len() as int, input.len() - (tl + ll))) =~= c);
        lemma_decode_elems_roundtrip(self@);
        assert(spec_models(self@) == self.spec_model());
        assert(spec_header_bytes(t, Len::Def(c.len() as usize)).len() >= 1);
    }
}

} // verus!
