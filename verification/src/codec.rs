//! The calls into the `der` crate. Every function with a body here is
//! believed, not proved: it hands plain values to one decoder of that crate
//! and hands plain values back, or makes an error of that crate, and its
//! contract says what the crate's source shows.

use der::Decode;
use der::Reader;
use der::Tagged;
use vstd::prelude::*;

verus! {

/// `der::Error`, carried through as the crate hands it out; nothing is read
/// from it here.
#[verifier::external_type_specification]
#[verifier::external_body]
pub struct ExDerError(der::Error);

/// The longest input, and so the longest content, that the `der` crate reads.
pub const MAX_DER_LENGTH: usize = 0x0fff_ffff;

/// What `der::Any::from_der` makes of a buffer that must hold exactly one
/// encoded value: the identifier octet and the content octets, or nothing
/// where the crate rejects the buffer.
pub uninterp spec fn der_whole(bytes: Seq<u8>) -> Option<(u8, Seq<u8>)>;

/// What a `der::SliceReader` over `bytes`, advanced to `pos`, decodes next as
/// a `der::Any`: the identifier octet, the content octets and the position
/// after the value, or nothing where the crate rejects what it finds.
pub uninterp spec fn der_next(bytes: Seq<u8>, pos: nat) -> Option<(u8, Seq<u8>, nat)>;

/// The dotted-decimal text of the `OBJECT IDENTIFIER` that the `der` crate
/// decodes from its content.
pub uninterp spec fn der_oid(content: Seq<u8>) -> Option<Seq<char>>;

/// The date and time text of the `UTCTime` that the `der` crate decodes from
/// its content.
pub uninterp spec fn der_utc_time(content: Seq<u8>) -> Option<Seq<char>>;

/// The label that the `der` crate prints for the tag with this identifier
/// octet, or nothing where it knows no such tag.
pub uninterp spec fn der_tag_text(octet: u8) -> Option<Seq<char>>;

/// The number that the octets spell in base 256, most significant first.
pub open spec fn be_value(bytes: Seq<u8>) -> nat
    decreases bytes.len(),
{
    if bytes.len() == 0 {
        0
    } else {
        be_value(bytes.drop_last()) * 256 + bytes.last() as nat
    }
}

/// The content of an `INTEGER` that is not negative and has room in 128
/// bits, in the one form that the encoding rules give it: a single zero
/// octet; or a zero octet before an octet with its top bit set, 17 octets at
/// most; or a first octet from 1 to 127, 16 octets at most. The number is the
/// one the octets spell, most significant first.
pub open spec fn uint_content(content: Seq<u8>) -> Option<u128> {
    if 1 <= content.len() <= 17 && ((content.len() == 1 && content[0] == 0) || (content.len() >= 2
        && content[0] == 0 && content[1] >= 0x80) || (1 <= content[0] <= 0x7f && content.len()
        <= 16)) {
        Some(be_value(content) as u128)
    } else {
        None
    }
}

/// The content of a `BOOLEAN`: one octet, all zeros or all ones.
pub open spec fn bool_content(content: Seq<u8>) -> Option<bool> {
    if content.len() == 1 && content[0] == 0x00 {
        Some(false)
    } else if content.len() == 1 && content[0] == 0xff {
        Some(true)
    } else {
        None
    }
}

/// The content of a `BIT STRING`: a count of unused bits, at most seven and
/// zero where nothing follows, and after it the octets that hold the bits.
pub open spec fn bit_string_content(content: Seq<u8>) -> Option<Seq<u8>> {
    if 1 <= content.len() <= MAX_DER_LENGTH && content[0] <= 7 && (content[0] == 0
        || content.len() >= 2) {
        Some(content.skip(1))
    } else {
        None
    }
}

/// The octets as characters, one for one.
pub open spec fn ascii_text(content: Seq<u8>) -> Seq<char> {
    Seq::new(content.len(), |i: int| content[i] as char)
}

/// The content of an `IA5String`: octets below 128.
pub open spec fn ia5_content(content: Seq<u8>) -> Option<Seq<char>> {
    if content.len() <= MAX_DER_LENGTH && forall|i: int|
        0 <= i < content.len() ==> content[i] <= 0x7f {
        Some(ascii_text(content))
    } else {
        None
    }
}

/// The characters a `PrintableString` may hold: letters, digits, the space
/// and `'()+,-./:=?`.
pub open spec fn is_printable_byte(b: u8) -> bool {
    (0x41 <= b <= 0x5a) || (0x61 <= b <= 0x7a) || (0x30 <= b <= 0x39) || b == 0x20 || b == 0x27
        || b == 0x28 || b == 0x29 || b == 0x2b || b == 0x2c || b == 0x2d || b == 0x2e || b == 0x2f
        || b == 0x3a || b == 0x3d || b == 0x3f
}

/// The content of a `PrintableString`.
pub open spec fn printable_content(content: Seq<u8>) -> Option<Seq<char>> {
    if content.len() <= MAX_DER_LENGTH && forall|i: int|
        0 <= i < content.len() ==> is_printable_byte(#[trigger] content[i]) {
        Some(ascii_text(content))
    } else {
        None
    }
}

/// Calls `der::Any::from_der`. On success the identifier octet is the first
/// octet of the buffer, and the content is the octets that end the buffer,
/// after a header of at least two octets, in a buffer no longer than the
/// crate reads; which buffers succeed is left to the crate.
#[verifier::external_body]
pub(crate) fn decode_whole(bytes: &[u8]) -> (r: Result<(u8, Vec<u8>), der::Error>)
    ensures
        match r {
            Ok((octet, content)) => {
                &&& der_whole(bytes@) == Some((octet, content@))
                &&& content@.len() + 2 <= bytes@.len() <= MAX_DER_LENGTH
                &&& octet == bytes@[0]
                &&& content@ == bytes@.subrange(bytes@.len() - content@.len(), bytes@.len() as int)
            },
            Err(_) => der_whole(bytes@) is None,
        },
{
    let any = der::Any::from_der(bytes)?;
    Ok((any.tag().octet(), any.value().to_vec()))
}

/// Makes a `der::SliceReader` over `bytes`, skips `pos` octets with
/// `read_slice` and calls `decode` for a `der::Any`. On success the
/// identifier octet is the octet at `pos`, and the reader stands inside the
/// buffer, after a header of at least two octets and the content, which is
/// the octets that end where the reader stands.
#[verifier::external_body]
pub(crate) fn decode_next(bytes: &[u8], pos: usize) -> (r: Result<
    (u8, Vec<u8>, usize),
    der::Error,
>)
    ensures
        match r {
            Ok((octet, content, next)) => {
                &&& der_next(bytes@, pos as nat) == Some((octet, content@, next as nat))
                &&& pos + 2 + content@.len() <= next <= bytes@.len()
                &&& octet == bytes@[pos as int]
                &&& content@ == bytes@.subrange(next - content@.len(), next as int)
            },
            Err(_) => der_next(bytes@, pos as nat) is None,
        },
{
    let mut reader = der::SliceReader::new(bytes)?;
    reader.read_slice(der::Length::try_from(pos)?)?;
    let any: der::Any = reader.decode()?;
    let next = usize::try_from(reader.position())?;
    Ok((any.tag().octet(), any.value().to_vec(), next))
}

/// Calls `decode_as::<u128>` on an `INTEGER` with this content.
#[verifier::external_body]
pub(crate) fn decode_uint(content: &[u8]) -> (r: Result<u128, der::Error>)
    ensures
        match r {
            Ok(v) => uint_content(content@) == Some(v),
            Err(_) => uint_content(content@) is None,
        },
{
    der::AnyRef::new(der::Tag::Integer, content)?.decode_as::<u128>()
}

/// Calls `decode_as::<Null>` on a `NULL` with this content, which the crate
/// accepts exactly where the content is empty.
#[verifier::external_body]
pub(crate) fn decode_null(content: &[u8]) -> (r: Result<(), der::Error>)
    ensures
        r is Ok <==> content@.len() == 0,
{
    der::AnyRef::new(der::Tag::Null, content)?.decode_as::<der::asn1::Null>().map(|_| ())
}

/// Makes the `der::Error` of the kind `ErrorKind::Overflow`, with which the
/// crate reports a number that has no room.
#[verifier::external_body]
pub(crate) fn overflow_error() -> der::Error {
    der::Error::from(der::ErrorKind::Overflow)
}

/// Calls `decode_as::<bool>` on a `BOOLEAN` with this content.
#[verifier::external_body]
pub(crate) fn decode_bool(content: &[u8]) -> (r: Result<bool, der::Error>)
    ensures
        match r {
            Ok(b) => bool_content(content@) == Some(b),
            Err(_) => bool_content(content@) is None,
        },
{
    der::AnyRef::new(der::Tag::Boolean, content)?.decode_as::<bool>()
}

/// Calls `decode_as::<BitString>` on a `BIT STRING` with this content and
/// hands back its `raw_bytes`.
#[verifier::external_body]
pub(crate) fn decode_bit_string(content: &[u8]) -> (r: Result<Vec<u8>, der::Error>)
    ensures
        match r {
            Ok(bits) => bit_string_content(content@) == Some(bits@),
            Err(_) => bit_string_content(content@) is None,
        },
{
    let any = der::AnyRef::new(der::Tag::BitString, content)?;
    any.decode_as::<der::asn1::BitString>().map(|b| b.raw_bytes().to_vec())
}

/// Calls `decode_as::<ObjectIdentifier>` on an `OBJECT IDENTIFIER` with this
/// content and hands back the text that the identifier prints as.
#[verifier::external_body]
pub(crate) fn decode_oid(content: &[u8]) -> (r: Result<String, der::Error>)
    ensures
        match r {
            Ok(text) => der_oid(content@) == Some(text@),
            Err(_) => der_oid(content@) is None,
        },
{
    let any = der::AnyRef::new(der::Tag::ObjectIdentifier, content)?;
    any.decode_as::<der::asn1::ObjectIdentifier>().map(|oid| oid.to_string())
}

/// Calls `decode_as::<Ia5String>` on an `IA5String` with this content and
/// hands back its text.
#[verifier::external_body]
pub(crate) fn decode_ia5(content: &[u8]) -> (r: Result<String, der::Error>)
    ensures
        match r {
            Ok(text) => ia5_content(content@) == Some(text@),
            Err(_) => ia5_content(content@) is None,
        },
{
    let any = der::AnyRef::new(der::Tag::Ia5String, content)?;
    any.decode_as::<der::asn1::Ia5String>().map(|s| s.to_string())
}

/// Calls `decode_as::<PrintableString>` on a `PrintableString` with this
/// content and hands back its text.
#[verifier::external_body]
pub(crate) fn decode_printable(content: &[u8]) -> (r: Result<String, der::Error>)
    ensures
        match r {
            Ok(text) => printable_content(content@) == Some(text@),
            Err(_) => printable_content(content@) is None,
        },
{
    let any = der::AnyRef::new(der::Tag::PrintableString, content)?;
    any.decode_as::<der::asn1::PrintableString>().map(|s| s.to_string())
}

/// Calls `decode_as::<UtcTime>` on a `UTCTime` with this content and hands
/// back the text that its date and time print as.
#[verifier::external_body]
pub(crate) fn decode_utc_time(content: &[u8]) -> (r: Result<String, der::Error>)
    ensures
        match r {
            Ok(text) => der_utc_time(content@) == Some(text@),
            Err(_) => der_utc_time(content@) is None,
        },
{
    let any = der::AnyRef::new(der::Tag::UtcTime, content)?;
    any.decode_as::<der::asn1::UtcTime>().map(|t| t.to_date_time().to_string())
}

/// Calls `der::Tag::try_from` on the octet and hands back the text that the
/// tag prints as.
#[verifier::external_body]
pub(crate) fn tag_text(octet: u8) -> (r: Option<String>)
    ensures
        match r {
            Some(text) => der_tag_text(octet) == Some(text@),
            None => der_tag_text(octet) is None,
        },
{
    der::Tag::try_from(octet).ok().map(|tag| tag.to_string())
}

} // verus!
