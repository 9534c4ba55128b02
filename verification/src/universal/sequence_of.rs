use vstd::prelude::*;

use crate::de::Asn1Deserialize;
use crate::der::read::min;
use crate::der::read::lemma_suffix_trans;
use crate::der::reader::{lemma_decode_header_consumes, spec_decode_header, DecodeError, DecodeKind, Deserializer};
use crate::der::writer::{tag_or, EncodeError, Serializer};
use crate::info::tag::{Len, Tag};
use crate::info::universal::{spec_tag_sequence, tag_sequence, TYPE_SEQUENCE_OF};
use crate::info::{Asn1Tagged, Asn1Typed};
use crate::ser::write::spec_header_bytes;
use crate::ser::Asn1Serialize;

verus! {

/// The DER octets of the elements, one after another.
pub open spec fn spec_seq_content<T: Asn1Serialize>(s: Seq<T>) -> Seq<u8>
    decreases s.len(),
{
    if s.len() == 0 {
        Seq::empty()
    } else {
        spec_seq_content(s.drop_last()) + s.last().spec_der(None)
    }
}

/// Elements read one after another from the content `c` while the declared
/// length `left` is not used up: their models and the bytes they take.
pub open spec fn spec_decode_elems<T: Asn1Deserialize>(c: Seq<u8>, left: nat) -> Result<(Seq<T::Model>, int), DecodeKind>
    decreases left,
{
    if left == 0 {
        Ok((Seq::empty(), 0))
    } else {
        match T::spec_asn1_decode(c, None, None) {
            Ok((v, m)) => if 1 <= m <= c.len() && m <= left {
                match spec_decode_elems::<T>(c.skip(m), (left - m) as nat) {
                    Ok((vs, u)) => Ok((seq![v] + vs, m + u)),
                    Err(k) => Err(k),
                }
            } else {
                Err(DecodeKind::InvalidValue)
            },
            Err(k) => Err(k),
        }
    }
}

impl<T> Asn1Tagged for Vec<T> {
    fn asn1_tag() -> (t: Tag)
        ensures
            t == spec_tag_sequence(),
    {
        tag_sequence()
    }
}

impl<T> Asn1Typed for Vec<T> {
    fn asn1_type() -> (t: &'static str)
        ensures
            t@ == TYPE_SEQUENCE_OF@,
    {
        TYPE_SEQUENCE_OF
    }
}

impl<T: Asn1Serialize> Asn1Serialize for Vec<T> {
    open spec fn spec_serializable(&self) -> bool {
        forall|i: int| 0 <= i < self@.len() ==> #[trigger] self@[i].spec_serializable()
    }

    open spec fn spec_der(&self, tag: Option<Tag>) -> Seq<u8> {
        spec_header_bytes(
            tag_or(tag, spec_tag_sequence()),
            Len::Def(spec_seq_content(self@).len() as usize),
        ) + spec_seq_content(self@)
    }

    fn asn1_serialize(&self, serializer: &mut Serializer) -> (r: Result<(), EncodeError>) {
        let ghost tag = tag_or(serializer.implicit(), spec_tag_sequence());
        let mut seq = match serializer.serialize_sequence() {
            Ok(s) => s,
            Err(e) => {
                return Err(e);
            },
        };
        let mut i: usize = 0;
        while i < self.len()
            invariant
                i <= self@.len(),
                forall|j: int| 0 <= j < self@.len() ==> #[trigger] self@[j].spec_serializable(),
                seq.content() == spec_seq_content(self@.take(i as int)),
                seq.tag() == tag,
            decreases self@.len() - i,
        {
            let _ = seq.serialize_field(&self[i]);
            assert(self@.take(i + 1).drop_last() == self@.take(i as int));
            i = i + 1;
        }
        assert(self@.take(self@.len() as int) == self@);
        seq.finish(serializer)
    }
}

/// Every element read from the content `c` while the declared length `left` is
/// not used up can be read, and takes some of the content (an element that took
/// none would never let the reading end).
pub open spec fn spec_elems_readable<T: Asn1Deserialize>(c: Seq<u8>, left: nat) -> bool
    decreases left,
{
    if left == 0 {
        true
    } else {
        T::spec_asn1_readable(c, None, None) && match T::spec_asn1_decode(c, None, None) {
            Ok((v, m)) => if 1 <= m <= c.len() && m <= left {
                spec_elems_readable::<T>(c.skip(m), (left - m) as nat)
            } else {
                false
            },
            Err(_) => true,
        }
    }
}

/// What reading a SEQUENCE OF gives: its header (under the implicit tag, if any),
/// then elements read from its content until the declared length is used up.
pub open spec fn spec_decode_seq_of<T: Asn1Deserialize>(input: Seq<u8>, peeked: Option<Tag>, implicit: Option<Tag>) -> Result<(Seq<T::Model>, int), DecodeKind> {
    match spec_decode_header(input, peeked, tag_or(implicit, spec_tag_sequence())) {
        Ok((len, n)) => match spec_decode_elems::<T>(input.skip(n).take(min(len as int, input.len() - n)), len as nat) {
            Ok((vs, u)) => Ok((vs, n + u)),
            Err(k) => Err(k),
        },
        Err(k) => Err(k),
    }
}

/// The models of the elements of `s`, in order.
pub open spec fn spec_models<T: Asn1Deserialize>(s: Seq<T>) -> Seq<T::Model> {
    Seq::new(s.len(), |i: int| s[i].spec_model())
}

impl<T: Asn1Deserialize> Asn1Deserialize for Vec<T> {
    type Model = Seq<T::Model>;

    open spec fn obeys_asn1_decode() -> bool {
        T::obeys_asn1_decode()
    }

    open spec fn spec_model(&self) -> Seq<T::Model> {
        spec_models(self@)
    }

    open spec fn spec_asn1_decode(input: Seq<u8>, peeked: Option<Tag>, implicit: Option<Tag>) -> Result<(Seq<T::Model>, int), DecodeKind> {
        spec_decode_seq_of::<T>(input, peeked, implicit)
    }

    /// Every element that the content holds can be read.
    open spec fn spec_asn1_readable(input: Seq<u8>, peeked: Option<Tag>, implicit: Option<Tag>) -> bool {
        match spec_decode_header(input, peeked, tag_or(implicit, spec_tag_sequence())) {
            Ok((len, n)) => spec_elems_readable::<T>(input.skip(n).take(min(len as int, input.len() - n)), len as nat),
            Err(_) => true,
        }
    }

    fn asn1_deserialize(deserializer: &mut Deserializer) -> (r: Result<Self, DecodeError>) {
        let ghost orig = *deserializer;
        let ghost n = spec_decode_header(orig.input(), orig.peeked(), orig.spec_expected(spec_tag_sequence()))->Ok_0.1;
        let ghost len = spec_decode_header(orig.input(), orig.peeked(), orig.spec_expected(spec_tag_sequence()))->Ok_0.0;
        let mut seq = match deserializer.begin_seq() {
            Ok(s) => s,
            Err(e) => {
                return Err(e);
            },
        };
        let ghost c0 = seq.rest();
        proof {
            lemma_decode_header_consumes(orig.input(), orig.peeked(), orig.spec_expected(spec_tag_sequence()));
        }
        let ghost all = spec_decode_elems::<T>(c0, len as nat);
        let ghost obeys = T::obeys_asn1_decode();
        let mut out: Vec<T> = Vec::new();
        let mut failed: Option<DecodeError> = None;
        assert(c0.skip(0) == c0);
        assert(spec_models(out@) == Seq::<T::Model>::empty());
        while seq.remaining() > 0
            invariant_except_break
                failed is None,
                seq.consumed() + seq.left() == len,
                seq.consumed() <= c0.len(),
                seq.rest() == c0.skip(seq.consumed() as int),
                seq.rest().len() <= seq.left(),
                obeys ==> spec_elems_readable::<T>(seq.rest(), seq.left()),
                obeys ==> match all {
                    Ok((vs, u)) => spec_decode_elems::<T>(seq.rest(), seq.left()) matches Ok((vs2, u2))
                        && vs == spec_models(out@) + vs2 && u == seq.consumed() + u2,
                    Err(k) => spec_decode_elems::<T>(seq.rest(), seq.left()) == Err::<(Seq<T::Model>, int), DecodeKind>(k),
                },
            invariant
                obeys == T::obeys_asn1_decode(),
                seq.base() == orig.input().skip(n),
                obeys ==> (failed matches Some(e) ==> all matches Err(k) && e.kind() == k),
            ensures
                failed is None ==> {
                    &&& seq.left() == 0
                    &&& seq.consumed() + seq.left() == len
                    &&& seq.consumed() <= c0.len()
                    &&& obeys ==> match all {
                        Ok((vs, u)) => spec_decode_elems::<T>(seq.rest(), seq.left()) matches Ok((vs2, u2))
                            && vs == spec_models(out@) + vs2 && u == seq.consumed() + u2,
                        Err(k) => spec_decode_elems::<T>(seq.rest(), seq.left()) == Err::<(Seq<T::Model>, int), DecodeKind>(k),
                    }
                },
            decreases seq.left(),
        {
            let ghost rest = seq.rest();
            let ghost left = seq.left();
            let ghost before = spec_models(out@);
            let ghost consumed = seq.consumed();
            let left_before = seq.remaining();
            match seq.next_field::<T>() {
                Ok(v) => {
                    if seq.remaining() >= left_before {
                        // a field that takes no input would never end the sequence; the
                        // readable inputs of a type that states its reading exclude it
                        failed = Some(DecodeError::InvalidValue("field of no length"));
                        break;
                    }
                    let ghost m = seq.consumed() - consumed;
                    let ghost vm = v.spec_model();
                    out.push(v);
                    proof {
                        assert(spec_models(out@) =~= before.push(vm));
                        if obeys {
                            assert(m == T::spec_asn1_decode(rest, None, None)->Ok_0.1);
                            assert(c0.skip(seq.consumed() as int) =~= rest.skip(m));
                            match all {
                                Ok((vs, u)) => {
                                    let vs2 = spec_decode_elems::<T>(rest, left)->Ok_0.0;
                                    let vs3 = spec_decode_elems::<T>(seq.rest(), seq.left())->Ok_0.0;
                                    assert(vs2 == seq![vm] + vs3);
                                    assert(before + vs2 =~= spec_models(out@) + vs3);
                                },
                                Err(k) => {},
                            }
                        }
                    }
                },
                Err(e) => {
                    failed = Some(e);
                    break;
                },
            }
        }
        let ghost after_header = deserializer.input();
        deserializer.end_seq(seq);
        proof {
            lemma_suffix_trans(deserializer.input(), after_header, orig.input());
        }
        match failed {
            Some(e) => Err(e),
            None => {
                proof {
                    assert(spec_models(out@) + Seq::<T::Model>::empty() == spec_models(out@));
                    let s1 = orig.input().skip(n);
                    assert(c0.len() <= s1.len());
                    assert(spec_decode_header(orig.input(), orig.peeked(), orig.spec_expected(spec_tag_sequence())) is Ok);
                    assert(0 <= n <= orig.input().len());
                    assert(seq.consumed() <= s1.len());
                    assert(s1.skip(seq.consumed() as int) =~= orig.input().skip(n + seq.consumed()));
                }
                Ok(out)
            },
        }
    }
}

} // verus!
