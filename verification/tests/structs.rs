use asn1::de::Asn1Error;
use asn1::der::{DecodeError, Deserializer, EncodeError, SeqAccessor, Serializer};
use asn1::info::tag::Class;
use asn1::{
    from_asn1, to_asn1, Asn1Deserialize, Asn1Serialize, Asn1Tagged, Asn1Visitor,
    OctetString, Tag,
};

fn ser_deser<T: Asn1Serialize + Asn1Deserialize>(v: &T) -> T {
    let buf = to_asn1(v).unwrap();
    from_asn1(&buf[..]).unwrap()
}

#[derive(Debug, PartialEq, PartialOrd, Copy, Clone)]
struct TestStruct(i8, i32, i32);

#[derive(Debug, PartialEq, PartialOrd, Copy, Clone)]
struct TestStruct2(TestStruct, TestStruct);

impl Asn1Tagged for TestStruct {
    fn asn1_tag() -> Tag {
        Tag::constructed(Class::Application, 30)
    }
}

impl Asn1Tagged for TestStruct2 {
    fn asn1_tag() -> Tag {
        Tag::constructed(Class::Application, 31)
    }
}

impl Asn1Serialize for TestStruct {
    fn asn1_serialize(&self, serializer: &mut Serializer) -> Result<(), EncodeError> {
        serializer.serialize_tagged(Self::asn1_tag())?;
        let mut s = serializer.serialize_sequence()?;
        s.serialize_field(&self.0)?;
        s.serialize_field(&self.1)?;
        s.serialize_field(&self.2)?;
        s.finish(serializer)
    }
}

struct TestStructVisitor;

impl Asn1Visitor for TestStructVisitor {
    type Value = TestStruct;

    fn visit_seq(self, seq: &mut SeqAccessor) -> Result<TestStruct, DecodeError> {
        Ok(TestStruct(seq.next_field()?, seq.next_field()?, seq.next_field()?))
    }
}

impl Asn1Deserialize for TestStruct {
    type Model = TestStruct;

    fn asn1_deserialize(deserializer: &mut Deserializer) -> Result<Self, DecodeError> {
        deserializer.deserialize_tagged(TestStruct::asn1_tag())?;
        deserializer.deserialize_seq(TestStructVisitor)
    }
}

impl Asn1Serialize for TestStruct2 {
    fn asn1_serialize(&self, serializer: &mut Serializer) -> Result<(), EncodeError> {
        serializer.serialize_tagged(Self::asn1_tag())?;
        let mut s = serializer.serialize_sequence()?;
        s.serialize_field(&self.0)?;
        s.serialize_field(&self.1)?;
        s.finish(serializer)
    }
}

struct TestStruct2Visitor;

impl Asn1Visitor for TestStruct2Visitor {
    type Value = TestStruct2;

    fn visit_seq(self, seq: &mut SeqAccessor) -> Result<TestStruct2, DecodeError> {
        Ok(TestStruct2(seq.next_field()?, seq.next_field()?))
    }
}

impl Asn1Deserialize for TestStruct2 {
    type Model = TestStruct2;

    fn asn1_deserialize(deserializer: &mut Deserializer) -> Result<Self, DecodeError> {
        deserializer.deserialize_tagged(TestStruct2::asn1_tag())?;
        deserializer.deserialize_seq(TestStruct2Visitor)
    }
}

#[test]
fn choice() {
    let test_obj = TestStruct(-127, -0x7fffff, 0x0fffffff);
    let mut writer = Serializer::new(Vec::with_capacity(128));
    test_obj.asn1_serialize(&mut writer).unwrap();
    let buf = writer.into_inner();

    let mut reader = Deserializer::new(buf.as_slice());
    struct MyVisitor;
    impl Asn1Visitor for MyVisitor {
        type Value = TestStruct;

        fn visit_choice(self, tag: &Tag, deserializer: &mut Deserializer) -> Result<Self::Value, DecodeError> {
            if *tag == TestStruct::asn1_tag() {
                TestStruct::asn1_deserialize(deserializer)
            } else {
                Err(Asn1Error::invalid_tag(""))
            }
        }
    }

    let actual_obj = reader.deserialize_choice(MyVisitor).unwrap();

    assert_eq!(test_obj, actual_obj);
}

#[test]
fn struct_to_asn1() {
    let test_obj = TestStruct(-127, -0x7fffff, 0x0fffffff);
    let mut writer = Serializer::new(Vec::with_capacity(128));
    test_obj.asn1_serialize(&mut writer).unwrap();
    let buf = writer.into_inner();

    assert_eq!(
        buf.as_slice(),
        &[0x7e, 0x0e, 0x02, 0x01, 0x81, 0x02, 0x03, 0x80, 0x00, 0x01, 0x02, 0x04, 0x0f, 0xff, 0xff, 0xff]
    );
}

#[test]
fn struct_from_asn1() {
    let buf: Vec<u8> = vec![
        0x7e, 0x0e, 0x02, 0x01, 0x81, 0x02, 0x03, 0x80, 0x00, 0x01, 0x02, 0x04, 0x0f, 0xff, 0xff, 0xff,
    ];
    let mut reader = Deserializer::new(&buf[..]);

    let test_obj = TestStruct(-127, -0x7fffff, 0x0fffffff);
    assert_eq!(TestStruct::asn1_deserialize(&mut reader).unwrap(), test_obj);
}

#[test]
fn struct2_to_asn1() {
    let test_obj = TestStruct(-127, -0x7fffff, 0x0fffffff);
    let test_obj2 = TestStruct2(test_obj, test_obj);

    let mut writer = Serializer::new(Vec::with_capacity(128));
    test_obj2.asn1_serialize(&mut writer).unwrap();
    let buf = writer.into_inner();
    assert_eq!(
        buf.as_slice(),
        vec![
            0x7fu8, 0x1f, 0x20, 0x7e, 0x0e, 0x02, 0x01, 0x81, 0x02, 0x03, 0x80, 0x00, 0x01, 0x02, 0x04,
            0x0f, 0xff, 0xff, 0xff, 0x7e, 0x0e, 0x02, 0x01, 0x81, 0x02, 0x03, 0x80, 0x00, 0x01, 0x02,
            0x04, 0x0f, 0xff, 0xff, 0xff
        ]
        .as_slice()
    );
}

#[test]
fn struct2_roundtrip_and_sequence_of() {
    let test_obj = TestStruct(-127, -0x7fffff, 0x0fffffff);
    let test_obj2 = TestStruct2(test_obj, TestStruct(0, 1, -1));
    assert_eq!(ser_deser(&test_obj2), test_obj2);

    let many: Vec<TestStruct2> = vec![test_obj2; 64];
    let back: Vec<TestStruct2> = ser_deser(&many);
    assert_eq!(back, many);
}

#[derive(Debug, PartialEq, PartialOrd)]
struct MySeq(i32, i32, i32);

impl Asn1Tagged for MySeq {
    fn asn1_tag() -> Tag {
        asn1::info::tag_sequence()
    }
}

impl Asn1Serialize for MySeq {
    fn asn1_serialize(&self, serializer: &mut Serializer) -> Result<(), EncodeError> {
        let mut seq_serializer = serializer.serialize_sequence()?;
        seq_serializer.serialize_field(&self.0)?;
        seq_serializer.serialize_field(&self.1)?;
        seq_serializer.serialize_field(&self.2)?;
        seq_serializer.finish(serializer)
    }
}

struct SeqVisitor;

impl Asn1Visitor for SeqVisitor {
    type Value = MySeq;

    fn visit_seq(self, seq: &mut SeqAccessor) -> Result<MySeq, DecodeError> {
        Ok(MySeq(seq.next_field()?, seq.next_field()?, seq.next_field()?))
    }
}

impl Asn1Deserialize for MySeq {
    type Model = (i32, i32, i32);

    fn asn1_deserialize(deserializer: &mut Deserializer) -> Result<Self, DecodeError> {
        deserializer.deserialize_seq(SeqVisitor)
    }
}

#[test]
fn seq() {
    let new_seq = MySeq(0, 15, 65535);
    assert_eq!(new_seq, ser_deser(&new_seq));
}

#[test]
fn null_octet_string() {
    let v = OctetString::new(Vec::new());
    assert_eq!(v, ser_deser(&v))
}

#[test]
fn library_ser_deser_gives_back_values() {
    let v = OctetString::from_slice(b"hello");
    assert_eq!(asn1::ser_deser(&v), v);
    let n: Vec<i64> = (0..64).map(|i| i * 1024).collect();
    assert_eq!(asn1::ser_deser(&n), n);
}

#[test]
fn seq_field_missing_is_an_error() {
    // a SEQUENCE holding two INTEGERs where three are read
    let buf = [0x30u8, 0x06, 0x02, 0x01, 0x00, 0x02, 0x01, 0x0f];
    let r: Result<MySeq, DecodeError> = from_asn1(&buf[..]);
    assert!(r.is_err());
}

#[test]
fn wrong_tag_is_a_mismatch() {
    let buf = [0x04u8, 0x01, 0x00];
    let r: Result<i32, DecodeError> = from_asn1(&buf[..]);
    match r {
        Err(DecodeError::TagMismatch(expected, got)) => {
            assert_eq!(expected, <i32 as Asn1Tagged>::asn1_tag());
            assert_eq!(got, Tag::primitive(Class::Universal, 4));
        }
        other => panic!("expected a tag mismatch, got {:?}", other),
    }
}
