use vstd::prelude::*;

verus! {

/// Tag number of an ASN.1 tag.
pub type TagNum = u64;

/// Length of an ASN.1 value's content, in bytes.
pub type LenNum = usize;

/// ASN.1 BER/DER tag class.
#[derive(Debug, Copy, Clone, PartialEq, Eq, PartialOrd, Ord, Hash, Structural)]
pub enum Class {
    /// ASN.1 UNIVERSAL class
    Universal,
    /// ASN.1 APPLICATION class
    Application,
    /// ASN.1 CONTEXT SPECIFIC class
    ContextSpecific,
    /// ASN.1 PRIVATE class
    Private,
}

impl Class {
    /// The two high bits of an identifier octet that encode this class.
    pub open spec fn spec_bits(self) -> u8 {
        match self {
            Class::Universal => 0x00,
            Class::Application => 0x40,
            Class::ContextSpecific => 0x80,
            Class::Private => 0xc0,
        }
    }

    /// Codes that name a class: the masked identifier bits, or the class index 0 to 3.
    pub open spec fn is_class_code(i: u8) -> bool {
        i == 0x00 || i == 0x40 || i == 0x01 || i == 0x80 || i == 0x02 || i == 0xc0 || i == 0x03
    }

    pub open spec fn spec_from(i: u8) -> Class {
        if i == 0x00 {
            Class::Universal
        } else if i == 0x40 || i == 0x01 {
            Class::Application
        } else if i == 0x80 || i == 0x02 {
            Class::ContextSpecific
        } else {
            Class::Private
        }
    }

    /// The identifier bits of this class.
    pub fn bits(self) -> (b: u8)
        ensures
            b == self.spec_bits(),
    {
        match self {
            Class::Universal => 0x00,
            Class::Application => 0x40,
            Class::ContextSpecific => 0x80,
            Class::Private => 0xc0,
        }
    }

    /// The class named by `i`: the identifier bits (`0x00`, `0x40`, `0x80`, `0xc0`)
    /// or the class index (`0` to `3`).
    pub fn from(i: u8) -> (c: Class)
        requires
            Class::is_class_code(i),
        ensures
            c == Class::spec_from(i),
    {
        if i == 0x00 {
            Class::Universal
        } else if i == 0x40 || i == 0x01 {
            Class::Application
        } else if i == 0x80 || i == 0x02 {
            Class::ContextSpecific
        } else {
            Class::Private
        }
    }
}

/// Whether an ASN.1 value is primitive or constructed.
#[derive(Debug, Copy, Clone, PartialEq, Eq, PartialOrd, Ord, Hash, Structural)]
pub enum ContentType {
    Primitive,
    Constructed,
}

impl ContentType {
    /// The identifier bit that encodes this content type.
    pub open spec fn spec_bits(self) -> u8 {
        match self {
            ContentType::Primitive => 0x00,
            ContentType::Constructed => 0x20,
        }
    }

    pub open spec fn spec_from(i: u8) -> ContentType {
        if i == 0x00 {
            ContentType::Primitive
        } else {
            ContentType::Constructed
        }
    }

    pub fn bits(self) -> (b: u8)
        ensures
            b == self.spec_bits(),
    {
        match self {
            ContentType::Primitive => 0x00,
            ContentType::Constructed => 0x20,
        }
    }

    /// The content type named by the constructed bit `i` (`0x00` or `0x20`).
    pub fn from(i: u8) -> (c: ContentType)
        requires
            i == 0x00 || i == 0x20,
        ensures
            c == ContentType::spec_from(i),
    {
        if i == 0x00 {
            ContentType::Primitive
        } else {
            ContentType::Constructed
        }
    }
}

/// ASN.1 Tag.
#[derive(Debug, Copy, Clone, PartialEq, Eq, PartialOrd, Ord, Hash, Structural)]
pub struct Tag {
    pub class: Class,
    pub tagnum: TagNum,
    pub content_type: ContentType,
}

impl Tag {
    /// Create new ASN.1 tag.
    pub fn new(class: Class, tagnum: u64, content_type: ContentType) -> (t: Self)
        ensures
            t == (Tag { class, tagnum, content_type }),
    {
        Tag { class: class, tagnum: tagnum, content_type: content_type }
    }

    pub fn primitive(class: Class, tagnum: u64) -> (t: Self)
        ensures
            t == (Tag { class, tagnum, content_type: ContentType::Primitive }),
    {
        Tag { class: class, tagnum: tagnum, content_type: ContentType::Primitive }
    }

    pub fn constructed(class: Class, tagnum: u64) -> (t: Self)
        ensures
            t == (Tag { class, tagnum, content_type: ContentType::Constructed }),
    {
        Tag { class: class, tagnum: tagnum, content_type: ContentType::Constructed }
    }

    /// Create new ASN.1 tag (usable where a tag is fixed in advance).
    #[inline]
    pub fn const_new(class: Class, tagnum: u64, content_type: ContentType) -> (t: Self)
        ensures
            t == (Tag { class, tagnum, content_type }),
    {
        Tag { class: class, tagnum: tagnum, content_type: content_type }
    }

    /// Create new empty tag (0x00).
    #[inline]
    pub fn zero() -> (t: Self)
        ensures
            t == (Tag { class: Class::Universal, tagnum: 0, content_type: ContentType::Primitive }),
    {
        Tag { class: Class::Universal, tagnum: 0, content_type: ContentType::Primitive }
    }

    /// Get Tag's class.
    #[inline]
    pub fn class(&self) -> (c: Class)
        ensures
            c == self.class,
    {
        self.class
    }

    /// Get Tag's tag num.
    #[inline]
    pub fn tagnum(&self) -> (n: TagNum)
        ensures
            n == self.tagnum,
    {
        self.tagnum
    }

    #[inline]
    pub fn content_type(&self) -> (c: ContentType)
        ensures
            c == self.content_type,
    {
        self.content_type
    }

    /// The class and constructed bits of the identifier octet.
    pub open spec fn spec_tag_byte(self) -> u8 {
        (self.class.spec_bits() + self.content_type.spec_bits()) as u8
    }

    /// The class and constructed bits of the identifier octet; the low five bits
    /// (the tag number, or `0x1f` for the long form) are left clear.
    #[inline]
    pub fn tag_byte(&self) -> (b: u8)
        ensures
            b == self.spec_tag_byte(),
    {
        let c = self.class.bits();
        let t = self.content_type.bits();
        assert(c | t == c + t) by (bit_vector)
            requires
                c == 0x00 || c == 0x40 || c == 0x80 || c == 0xc0,
                t == 0x00 || t == 0x20,
        ;
        c | t
    }

    pub open spec fn spec_is_short(self) -> bool {
        self.tagnum < 31
    }

    /// Check if Tag can be represented in one byte.
    #[inline]
    pub fn is_short(&self) -> (b: bool)
        ensures
            b == self.spec_is_short(),
    {
        self.tagnum < 31
    }

    /// Check if Tag represents a constructed ASN.1 value.
    #[inline]
    pub fn is_constructed(&self) -> (b: bool)
        ensures
            b == (self.content_type == ContentType::Constructed),
    {
        ContentType::Constructed == self.content_type
    }
}

/// ASN.1 Length.
#[derive(Debug, Copy, Clone, PartialEq, Eq, PartialOrd, Structural)]
pub enum Len {
    /// Indefinite length.
    Indef,
    /// Definite length.
    Def(LenNum),
}

impl Len {
    /// Create new definite Length.
    pub fn new(n: LenNum) -> (l: Self)
        ensures
            l == Len::Def(n),
    {
        Len::Def(n)
    }

    /// Create new indefinite Length.
    pub fn new_indef() -> (l: Self)
        ensures
            l == Len::Indef,
    {
        Len::Indef
    }

    pub open spec fn spec_as_num(self) -> Option<LenNum> {
        match self {
            Len::Def(l) => Some(l),
            Len::Indef => None,
        }
    }

    /// The number of content bytes, if the length is definite.
    pub fn as_num(self) -> (o: Option<LenNum>)
        ensures
            o == self.spec_as_num(),
    {
        match self {
            Len::Def(l) => Some(l),
            Len::Indef => None,
        }
    }
}

impl From<Len> for Option<LenNum> {
    fn from(len: Len) -> (o: Self) {
        match len {
            Len::Def(l) => Some(l),
            Len::Indef => None,
        }
    }
}

impl vstd::std_specs::convert::FromSpecImpl<Len> for Option<LenNum> {
    open spec fn obeys_from_spec() -> bool {
        true
    }

    open spec fn from_spec(len: Len) -> Option<LenNum> {
        len.spec_as_num()
    }
}

impl From<Option<LenNum>> for Len {
    fn from(o: Option<LenNum>) -> (l: Self) {
        match o {
            Some(l) => Len::Def(l),
            None => Len::Indef,
        }
    }
}

impl vstd::std_specs::convert::FromSpecImpl<Option<LenNum>> for Len {
    open spec fn obeys_from_spec() -> bool {
        true
    }

    open spec fn from_spec(o: Option<LenNum>) -> Len {
        match o {
            Some(l) => Len::Def(l),
            None => Len::Indef,
        }
    }
}

impl From<LenNum> for Len {
    fn from(l: LenNum) -> (r: Self) {
        Len::Def(l)
    }
}

impl vstd::std_specs::convert::FromSpecImpl<LenNum> for Len {
    open spec fn obeys_from_spec() -> bool {
        true
    }

    open spec fn from_spec(l: LenNum) -> Len {
        Len::Def(l)
    }
}

} // verus!
