//! The text of a row: a marker, an indent, the label of the tag, and the
//! value as far as it is shown in the row itself.

use crate::asn1_der::ASN1Node;
use crate::asn1_der::ASN1Value;
use crate::asn1_der::NodeView;
use crate::asn1_der::ValueView;
use crate::text::binary;
use crate::text::binary_text;
use crate::text::bool_text;
use crate::text::debug_quoted;
use crate::text::debug_text;
use crate::text::decimal;
use crate::text::decimal_text;
use crate::text::lossy_utf8;
use crate::text::repair_utf8;
use crate::text::spaces;
use crate::text::spaces_text;
use crate::text::utf8_text;
use vstd::prelude::*;
use vstd::utf8::decode_utf8;

verus! {

/// The value as a row shows it. A number is in decimal, a bit string in
/// binary digits, a sequence gives the count of its fields, text stands in
/// quotes, and a value that wraps another shows nothing: its content has a
/// row of its own. The octets of a UTF-8 string are shown as the text they
/// encode once repaired: what is valid is kept, and what is not is replaced.
pub open spec fn display_text(value: ValueView) -> Seq<char> {
    match value {
        ValueView::Boolean(b) => bool_text(b),
        ValueView::Integer(n) => decimal_text(n as nat),
        ValueView::BitString(bits) => binary_text(bits),
        ValueView::OctetString(_) => Seq::empty(),
        ValueView::Null => "Null"@,
        ValueView::ObjectIdentifier(text) => text,
        ValueView::Utf8String(bytes) => debug_text(decode_utf8(lossy_utf8(bytes))),
        ValueView::Sequence(children) => "(field(s): "@ + decimal_text(children.len()) + ")"@,
        ValueView::SetOf(_) => Seq::empty(),
        ValueView::PrintableString(text) => debug_text(text),
        ValueView::Ia5String(text) => debug_text(text),
        ValueView::UtcTime(text) => debug_text(text),
        ValueView::Application(_) => Seq::empty(),
        ValueView::ContextSpecific(_) => Seq::empty(),
        ValueView::Private(_) => Seq::empty(),
        ValueView::Other(text) => debug_text(text),
    }
}

/// The marker at the start of a row: `-` on an expanded row, `+` on one that
/// can be expanded, a space on any other.
pub open spec fn marker_text(node: NodeView) -> Seq<char> {
    if node.expandable {
        if node.expanded {
            "- "@
        } else {
            "+ "@
        }
    } else {
        "  "@
    }
}

/// The text of a row: marker, two spaces of indent for each level, label and
/// value, with one space between the parts.
pub open spec fn row_text(node: NodeView) -> Seq<char> {
    marker_text(node) + " "@ + spaces_text(2 * node.level) + " "@ + node.tag.spec_label() + " "@
        + display_text(node.value)
}

impl ASN1Node {
    /// The value as a row shows it.
    pub fn display_value(&self) -> (text: String)
        ensures
            text@ == display_text(self@.value),
    {
        match &self.value {
            ASN1Value::Integer(n) => decimal(*n),
            ASN1Value::OctetString(_) => String::new(),
            ASN1Value::Sequence(children) => {
                let count = decimal(children.len() as u128);
                let mut text = String::from_str("(field(s): ");
                text.append(count.as_str());
                text.append(")");
                text
            },
            ASN1Value::SetOf(_) => String::new(),
            ASN1Value::Boolean(b) => {
                if *b {
                    String::from_str("true")
                } else {
                    String::from_str("false")
                }
            },
            ASN1Value::Null => String::from_str("Null"),
            ASN1Value::ObjectIdentifier(text) => text.clone(),
            ASN1Value::Utf8String(bytes) => {
                let repaired = repair_utf8(bytes.as_slice());
                let text = match utf8_text(repaired.as_slice()) {
                    Some(text) => text,
                    None => String::new(),
                };
                debug_quoted(text.as_str())
            },
            ASN1Value::PrintableString(text) => debug_quoted(text.as_str()),
            ASN1Value::Ia5String(text) => debug_quoted(text.as_str()),
            ASN1Value::UtcTime(text) => debug_quoted(text.as_str()),
            ASN1Value::BitString(bits) => binary(bits.as_slice()),
            ASN1Value::ContextSpecific(_) => String::new(),
            ASN1Value::Application(_) => String::new(),
            ASN1Value::Private(_) => String::new(),
            ASN1Value::Other(text) => debug_quoted(text.as_str()),
        }
    }

    /// The text of the row.
    pub fn get_view_content(&mut self) -> (text: String)
        ensures
            text@ == row_text(old(self)@),
            *final(self) == *old(self),
    {
        let indent = spaces(2 * (self.level as u64));
        let marker = if self.expandable {
            if self.expanded {
                "- "
            } else {
                "+ "
            }
        } else {
            "  "
        };
        let label = self.tag.label();
        let value = self.display_value();
        let mut text = String::from_str(marker);
        text.append(" ");
        text.append(indent.as_str());
        text.append(" ");
        text.append(label.as_str());
        text.append(" ");
        text.append(value.as_str());
        text
    }
}

} // verus!
