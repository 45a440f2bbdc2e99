//! The tag of an encoded value: its class, its number, and whether the value
//! is constructed from nested values or is a primitive leaf.

use crate::codec::der_tag_text;
use crate::codec::tag_text;
use vstd::prelude::*;

verus! {

/// The four tag classes, in the order of the two leading bits of the
/// identifier octet.
#[derive(Clone, Copy, Debug, PartialEq, Eq, Structural)]
pub enum Class {
    Universal,
    Application,
    ContextSpecific,
    Private,
}

/// What a tag stands for, as far as the decoder tells values apart.
#[derive(Clone, Copy, Debug, PartialEq, Eq, Structural)]
pub enum TagKind {
    Boolean,
    Integer,
    BitString,
    OctetString,
    Null,
    ObjectIdentifier,
    Utf8String,
    Sequence,
    SetOf,
    PrintableString,
    Ia5String,
    UtcTime,
    Application,
    ContextSpecific,
    Private,
    Other,
}

/// A tag, as the three parts of a single identifier octet.
#[derive(Clone, Copy, Debug, PartialEq, Eq, Structural)]
pub struct Tag {
    pub class: Class,
    pub number: u8,
    pub constructed: bool,
}

/// Identifier octet of the universal `NULL` tag.
pub const NULL_OCTET: u8 = 0x05;

/// Identifier octet of the universal `UTF8String` tag.
pub const UTF8_STRING_OCTET: u8 = 0x0c;

/// Identifier octet of the universal `PrintableString` tag.
pub const PRINTABLE_STRING_OCTET: u8 = 0x13;

/// Identifier octet of the universal `GeneralString` tag, which is read as
/// a `PrintableString`.
pub const GENERAL_STRING_OCTET: u8 = 0x1b;

impl Class {
    /// The class held in the two leading bits of `octet`.
    pub open spec fn spec_of_octet(octet: u8) -> Class {
        if octet < 0x40 {
            Class::Universal
        } else if octet < 0x80 {
            Class::Application
        } else if octet < 0xc0 {
            Class::ContextSpecific
        } else {
            Class::Private
        }
    }

    /// The value of the two leading bits that stand for this class.
    pub open spec fn spec_bits(self) -> u8 {
        match self {
            Class::Universal => 0x00,
            Class::Application => 0x40,
            Class::ContextSpecific => 0x80,
            Class::Private => 0xc0,
        }
    }

    pub fn of_octet(octet: u8) -> (class: Class)
        ensures
            class == Class::spec_of_octet(octet),
    {
        if octet < 0x40 {
            Class::Universal
        } else if octet < 0x80 {
            Class::Application
        } else if octet < 0xc0 {
            Class::ContextSpecific
        } else {
            Class::Private
        }
    }

    pub fn bits(&self) -> (bits: u8)
        ensures
            bits == self.spec_bits(),
    {
        match self {
            Class::Universal => 0x00,
            Class::Application => 0x40,
            Class::ContextSpecific => 0x80,
            Class::Private => 0xc0,
        }
    }
}

impl Tag {
    /// The tag that an identifier octet encodes: class in bits 8 and 7,
    /// the constructed flag in bit 6, the number in the five low bits.
    pub open spec fn spec_from_octet(octet: u8) -> Tag {
        Tag {
            class: Class::spec_of_octet(octet),
            number: (octet % 32) as u8,
            constructed: (octet / 32) % 2 == 1,
        }
    }

    /// The identifier octet of this tag. Only the five low bits of the number
    /// have room in it.
    pub open spec fn spec_octet(self) -> u8 {
        (self.class.spec_bits() + (if self.constructed { 32int } else { 0int }) + self.number % 32) as u8
    }

    /// The kind of value this tag announces. A universal tag counts only in
    /// the form (primitive or constructed) that the encoding rules give it.
    pub open spec fn spec_kind(self) -> TagKind {
        match self.class {
            Class::Application => TagKind::Application,
            Class::ContextSpecific => TagKind::ContextSpecific,
            Class::Private => TagKind::Private,
            Class::Universal => if self.constructed {
                if self.number == 16 {
                    TagKind::Sequence
                } else if self.number == 17 {
                    TagKind::SetOf
                } else {
                    TagKind::Other
                }
            } else {
                if self.number == 1 {
                    TagKind::Boolean
                } else if self.number == 2 {
                    TagKind::Integer
                } else if self.number == 3 {
                    TagKind::BitString
                } else if self.number == 4 {
                    TagKind::OctetString
                } else if self.number == 5 {
                    TagKind::Null
                } else if self.number == 6 {
                    TagKind::ObjectIdentifier
                } else if self.number == 12 {
                    TagKind::Utf8String
                } else if self.number == 19 {
                    TagKind::PrintableString
                } else if self.number == 22 {
                    TagKind::Ia5String
                } else if self.number == 23 {
                    TagKind::UtcTime
                } else {
                    TagKind::Other
                }
            },
        }
    }

    /// Whether a node with this tag can be expanded: true for the kinds whose
    /// content is shown as rows of its own.
    pub open spec fn spec_expandable(self) -> bool {
        let kind = self.spec_kind();
        kind == TagKind::Sequence || kind == TagKind::SetOf || kind == TagKind::OctetString
            || kind == TagKind::ContextSpecific || kind == TagKind::Application || kind
            == TagKind::Private
    }

    /// The label of the tag in the display: the text that the `der` crate
    /// prints for it, and no text for a tag that crate does not know.
    pub open spec fn spec_label(self) -> Seq<char> {
        match der_tag_text(self.spec_octet()) {
            Some(text) => text,
            None => Seq::empty(),
        }
    }

    pub fn from_octet(octet: u8) -> (tag: Tag)
        ensures
            tag == Tag::spec_from_octet(octet),
    {
        Tag { class: Class::of_octet(octet), number: octet % 32, constructed: (octet / 32) % 2 == 1 }
    }

    pub fn octet(&self) -> (octet: u8)
        ensures
            octet == self.spec_octet(),
    {
        let flag: u8 = if self.constructed { 32 } else { 0 };
        self.class.bits() + flag + self.number % 32
    }

    pub fn label(&self) -> (text: String)
        ensures
            text@ == self.spec_label(),
    {
        match tag_text(self.octet()) {
            Some(text) => text,
            None => String::new(),
        }
    }

    pub fn kind(&self) -> (kind: TagKind)
        ensures
            kind == self.spec_kind(),
    {
        match self.class {
            Class::Application => TagKind::Application,
            Class::ContextSpecific => TagKind::ContextSpecific,
            Class::Private => TagKind::Private,
            Class::Universal => if self.constructed {
                if self.number == 16 {
                    TagKind::Sequence
                } else if self.number == 17 {
                    TagKind::SetOf
                } else {
                    TagKind::Other
                }
            } else {
                if self.number == 1 {
                    TagKind::Boolean
                } else if self.number == 2 {
                    TagKind::Integer
                } else if self.number == 3 {
                    TagKind::BitString
                } else if self.number == 4 {
                    TagKind::OctetString
                } else if self.number == 5 {
                    TagKind::Null
                } else if self.number == 6 {
                    TagKind::ObjectIdentifier
                } else if self.number == 12 {
                    TagKind::Utf8String
                } else if self.number == 19 {
                    TagKind::PrintableString
                } else if self.number == 22 {
                    TagKind::Ia5String
                } else if self.number == 23 {
                    TagKind::UtcTime
                } else {
                    TagKind::Other
                }
            },
        }
    }
}

/// An identifier octet and the tag read from it stand for each other.
pub proof fn lemma_octet_round_trip(octet: u8)
    ensures
        Tag::spec_from_octet(octet).spec_octet() == octet,
{
}

} // verus!
