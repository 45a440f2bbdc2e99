//! The decoded tree: its nodes and values, their mathematical model, and the
//! decoder that builds a tree from a buffer.
//!
//! The decoder is strict: a buffer that is not one well-formed value, or that
//! holds a value that is not, is rejected as a whole. There is one exception.
//! The content of an `OCTET STRING` is decoded as a tree on a trial basis, and
//! where that fails for any reason the `OCTET STRING` holds a `NULL` node in
//! place of its content.
//!
//! The content of a `SET` is decoded as a single value, as the content of a
//! constructed application, context-specific or private value is. The content
//! of a primitive one is kept as it stands, in a leaf that is shown as text.
//! A `GeneralString` is read as a `PrintableString` wherever a value starts.
//! A `NULL` has no content. A node that holds nodes has its children one
//! level deeper, so it is rejected at the deepest level a `u32` can count.

use crate::codec::bit_string_content;
use crate::codec::bool_content;
use crate::codec::decode_bit_string;
use crate::codec::decode_bool;
use crate::codec::decode_ia5;
use crate::codec::decode_next;
use crate::codec::decode_null;
use crate::codec::decode_oid;
use crate::codec::decode_printable;
use crate::codec::decode_uint;
use crate::codec::decode_utc_time;
use crate::codec::decode_whole;
use crate::codec::der_next;
use crate::codec::der_oid;
use crate::codec::der_utc_time;
use crate::codec::der_whole;
use crate::codec::ia5_content;
use crate::codec::overflow_error;
use crate::codec::printable_content;
use crate::codec::uint_content;
use crate::shape::lemma_parse_any_decoded;
use crate::shape::lemma_parse_asn1_decoded;
use crate::shape::untouched;
use crate::shape::well_leveled;
use crate::tag::GENERAL_STRING_OCTET;
use crate::tag::NULL_OCTET;
use crate::tag::PRINTABLE_STRING_OCTET;
use crate::tag::Tag;
use crate::tag::TagKind;
use crate::tag::UTF8_STRING_OCTET;
use crate::text::debug_quoted;
use crate::text::debug_text;
use crate::text::lossy_utf8;
use crate::text::repair_utf8;
use vstd::prelude::*;
use vstd::slice::slice_to_vec;

verus! {

/// Why a buffer was rejected: the error of the `der` crate's decoder that
/// refused it.
#[derive(Debug)]
pub struct Asn1Error(pub der::Error);

impl From<der::Error> for Asn1Error {
    fn from(error: der::Error) -> (r: Self)
        ensures
            r.0 == error,
    {
        Asn1Error(error)
    }
}

impl vstd::std_specs::convert::FromSpecImpl<der::Error> for Asn1Error {
    open spec fn obeys_from_spec() -> bool {
        true
    }

    open spec fn from_spec(error: der::Error) -> Self {
        Asn1Error(error)
    }
}

/// The value of a node, one case for each kind of tag that the decoder tells
/// apart. The cases that hold nodes are the ones a row can be expanded into.
#[derive(Debug)]
pub enum ASN1Value {
    Boolean(bool),
    Integer(u128),
    BitString(Vec<u8>),
    OctetString(Box<ASN1Node>),
    Null,
    ObjectIdentifier(String),
    Utf8String(Vec<u8>),
    Sequence(Vec<ASN1Node>),
    SetOf(Box<ASN1Node>),
    PrintableString(String),
    Ia5String(String),
    UtcTime(String),
    Application(Box<ASN1Node>),
    ContextSpecific(Box<ASN1Node>),
    Private(Box<ASN1Node>),
    Other(String),
}

impl From<ASN1Node> for ASN1Value {
    fn from(node: ASN1Node) -> (value: Self)
        ensures
            value == node.value,
    {
        node.value
    }
}

impl vstd::std_specs::convert::FromSpecImpl<ASN1Node> for ASN1Value {
    open spec fn obeys_from_spec() -> bool {
        true
    }

    open spec fn from_spec(node: ASN1Node) -> Self {
        node.value
    }
}

/// A node of the tree, with what a row of the display needs beside its value.
#[derive(Debug)]
pub struct ASN1Node {
    pub tag: Tag,
    pub value: ASN1Value,
    pub level: u32,
    pub expandable: bool,
    pub expanded: bool,
    pub visible: bool,
    pub index: usize,
}

/// The model of a value: what it holds, free of how it is stored.
pub enum ValueView {
    Boolean(bool),
    Integer(u128),
    BitString(Seq<u8>),
    OctetString(Box<NodeView>),
    Null,
    ObjectIdentifier(Seq<char>),
    Utf8String(Seq<u8>),
    Sequence(Seq<NodeView>),
    SetOf(Box<NodeView>),
    PrintableString(Seq<char>),
    Ia5String(Seq<char>),
    UtcTime(Seq<char>),
    Application(Box<NodeView>),
    ContextSpecific(Box<NodeView>),
    Private(Box<NodeView>),
    Other(Seq<char>),
}

impl ValueView {
    /// Whether the value holds nodes of its own.
    pub open spec fn is_container(self) -> bool {
        self is Sequence || self is SetOf || self is OctetString || self is ContextSpecific
            || self is Application || self is Private
    }
}

/// The model of a node.
pub struct NodeView {
    pub tag: Tag,
    pub value: ValueView,
    pub level: nat,
    pub expandable: bool,
    pub expanded: bool,
    pub visible: bool,
    pub index: nat,
}

/// The model of a node.
pub open spec fn node_view(node: ASN1Node) -> NodeView
    decreases node,
{
    NodeView {
        tag: node.tag,
        value: value_view(node.value),
        level: node.level as nat,
        expandable: node.expandable,
        expanded: node.expanded,
        visible: node.visible,
        index: node.index as nat,
    }
}

/// The model of a value.
pub open spec fn value_view(value: ASN1Value) -> ValueView
    decreases value,
{
    match value {
        ASN1Value::Boolean(b) => ValueView::Boolean(b),
        ASN1Value::Integer(n) => ValueView::Integer(n),
        ASN1Value::BitString(bits) => ValueView::BitString(bits@),
        ASN1Value::OctetString(child) => ValueView::OctetString(Box::new(node_view(*child))),
        ASN1Value::Null => ValueView::Null,
        ASN1Value::ObjectIdentifier(text) => ValueView::ObjectIdentifier(text@),
        ASN1Value::Utf8String(bytes) => ValueView::Utf8String(bytes@),
        ASN1Value::Sequence(children) => ValueView::Sequence(
            Seq::new(
                children@.len(),
                |i: int|
                    if 0 <= i < children@.len() {
                        node_view(children@[i])
                    } else {
                        arbitrary()
                    },
            ),
        ),
        ASN1Value::SetOf(child) => ValueView::SetOf(Box::new(node_view(*child))),
        ASN1Value::PrintableString(text) => ValueView::PrintableString(text@),
        ASN1Value::Ia5String(text) => ValueView::Ia5String(text@),
        ASN1Value::UtcTime(text) => ValueView::UtcTime(text@),
        ASN1Value::Application(child) => ValueView::Application(Box::new(node_view(*child))),
        ASN1Value::ContextSpecific(child) => ValueView::ContextSpecific(
            Box::new(node_view(*child)),
        ),
        ASN1Value::Private(child) => ValueView::Private(Box::new(node_view(*child))),
        ASN1Value::Other(text) => ValueView::Other(text@),
    }
}

impl View for ASN1Node {
    type V = NodeView;

    open spec fn view(&self) -> NodeView {
        node_view(*self)
    }
}

impl View for ASN1Value {
    type V = ValueView;

    open spec fn view(&self) -> ValueView {
        value_view(*self)
    }
}

/// The models of a run of nodes, in order.
pub open spec fn views(nodes: Seq<ASN1Node>) -> Seq<NodeView> {
    Seq::new(nodes.len(), |i: int| nodes[i]@)
}

impl ASN1Value {
    /// Whether the value holds nodes of its own.
    pub open spec fn spec_is_container(self) -> bool {
        self is Sequence || self is SetOf || self is OctetString || self is ContextSpecific
            || self is Application || self is Private
    }

    pub fn is_container(&self) -> (b: bool)
        ensures
            b == self.spec_is_container(),
    {
        match self {
            ASN1Value::Sequence(_)
            | ASN1Value::SetOf(_)
            | ASN1Value::OctetString(_)
            | ASN1Value::ContextSpecific(_)
            | ASN1Value::Application(_)
            | ASN1Value::Private(_) => true,
            _ => false,
        }
    }

    /// A copy of the value and of every node below it.
    #[verifier::loop_isolation(false)]
    pub fn duplicate(&self) -> (copy: Self)
        ensures
            copy@ == self@,
        decreases self,
    {
        match self {
            ASN1Value::Boolean(b) => ASN1Value::Boolean(*b),
            ASN1Value::Integer(n) => ASN1Value::Integer(*n),
            ASN1Value::BitString(bits) => ASN1Value::BitString(slice_to_vec(bits.as_slice())),
            ASN1Value::OctetString(child) => ASN1Value::OctetString(Box::new(child.duplicate())),
            ASN1Value::Null => ASN1Value::Null,
            ASN1Value::ObjectIdentifier(text) => ASN1Value::ObjectIdentifier(text.clone()),
            ASN1Value::Utf8String(bytes) => ASN1Value::Utf8String(slice_to_vec(bytes.as_slice())),
            ASN1Value::Sequence(children) => {
                let mut copies: Vec<ASN1Node> = Vec::new();
                let mut i: usize = 0;
                while i < children.len()
                    invariant
                        i <= children.len(),
                        copies.len() == i,
                        forall|j: int| 0 <= j < i ==> copies[j]@ == children[j]@,
                    decreases children.len() - i,
                {
                    let copy = children[i].duplicate();
                    copies.push(copy);
                    i = i + 1;
                }
                let copy = ASN1Value::Sequence(copies);
                assert(copy@->Sequence_0 =~= self@->Sequence_0);
                copy
            },
            ASN1Value::SetOf(child) => ASN1Value::SetOf(Box::new(child.duplicate())),
            ASN1Value::PrintableString(text) => ASN1Value::PrintableString(text.clone()),
            ASN1Value::Ia5String(text) => ASN1Value::Ia5String(text.clone()),
            ASN1Value::UtcTime(text) => ASN1Value::UtcTime(text.clone()),
            ASN1Value::Application(child) => ASN1Value::Application(Box::new(child.duplicate())),
            ASN1Value::ContextSpecific(child) => ASN1Value::ContextSpecific(
                Box::new(child.duplicate()),
            ),
            ASN1Value::Private(child) => ASN1Value::Private(Box::new(child.duplicate())),
            ASN1Value::Other(text) => ASN1Value::Other(text.clone()),
        }
    }
}

impl ASN1Node {
    /// A collapsed node that has no place in a flat list yet.
    pub fn new(tag: Tag, value: ASN1Value, level: u32, expandable: bool, visible: bool) -> (node:
        Self)
        ensures
            node == (ASN1Node { tag, value, level, expandable, expanded: false, visible, index: 0 }),
    {
        ASN1Node { tag, value, level, expandable, expanded: false, visible, index: 0 }
    }

    /// Flips `expanded` where the value holds nodes of its own, and leaves
    /// every other node as it is.
    pub fn toggle_expand(&mut self)
        ensures
            *final(self) == (ASN1Node {
                expanded: if old(self).value.spec_is_container() {
                    !old(self).expanded
                } else {
                    old(self).expanded
                },
                ..*old(self)
            }),
    {
        if self.value.is_container() {
            self.expanded = !self.expanded;
        }
    }

    /// A copy of the node and of every node below it.
    pub fn duplicate(&self) -> (copy: Self)
        ensures
            copy@ == self@,
        decreases self,
    {
        ASN1Node {
            tag: self.tag,
            value: self.value.duplicate(),
            level: self.level,
            expandable: self.expandable,
            expanded: self.expanded,
            visible: self.visible,
            index: self.index,
        }
    }
}

/// Whether a node with this tag can be expanded.
pub fn is_node_expandable(tag: Tag) -> (b: bool)
    ensures
        b == tag.spec_expandable(),
{
    match tag.kind() {
        TagKind::Sequence
        | TagKind::SetOf
        | TagKind::OctetString
        | TagKind::ContextSpecific
        | TagKind::Application
        | TagKind::Private => true,
        _ => false,
    }
}

/// A node as the decoder leaves it: collapsed, hidden, without a place in a
/// flat list, and expandable as its tag says.
pub open spec fn fresh(tag: Tag, value: ValueView, level: nat) -> NodeView {
    NodeView {
        tag,
        value,
        level,
        expandable: tag.spec_expandable(),
        expanded: false,
        visible: false,
        index: 0,
    }
}

/// The `NULL` node that stands for the content of an `OCTET STRING` that does
/// not decode.
pub open spec fn placeholder(level: nat) -> NodeView {
    fresh(Tag::spec_from_octet(NULL_OCTET), ValueView::Null, level)
}

/// The leaf that holds the content of a primitive application,
/// context-specific or private value as it stands.
pub open spec fn opaque_leaf(content: Seq<u8>, level: nat) -> NodeView {
    fresh(Tag::spec_from_octet(UTF8_STRING_OCTET), ValueView::Utf8String(content), level)
}

/// The buffer with a `GeneralString` identifier octet at `pos` replaced by
/// that of `PrintableString`: a value that starts at `pos` is read as the
/// kind of string that the decoder supports.
pub open spec fn normalized_at(data: Seq<u8>, pos: int) -> Seq<u8> {
    if 0 <= pos < data.len() && data[pos] == GENERAL_STRING_OCTET {
        data.update(pos, PRINTABLE_STRING_OCTET)
    } else {
        data
    }
}

/// The buffer with a leading `GeneralString` identifier octet replaced by
/// that of `PrintableString`.
pub open spec fn normalized(data: Seq<u8>) -> Seq<u8> {
    normalized_at(data, 0)
}

/// The text of a node whose tag the decoder does not support.
pub open spec fn unsupported_text(tag: Tag) -> Seq<char> {
    "Unsupported tag: "@ + debug_text(tag.spec_label())
}

/// The tree that a buffer holding exactly one encoded value decodes to, with
/// its root at `level`; nothing where the buffer is rejected.
pub open spec fn spec_parse_asn1(data: Seq<u8>, level: nat) -> Option<NodeView>
    decreases data.len(), 0int, 0int,
{
    match der_whole(normalized(data)) {
        Some((octet, content)) => if content.len() < data.len() {
            spec_parse_any(Tag::spec_from_octet(octet), content, level)
        } else {
            None
        },
        None => None,
    }
}

/// The node that a tag and its content octets decode to. A node that holds
/// nodes is rejected at the deepest level a `u32` can count, where the level
/// of its children has no room.
pub open spec fn spec_parse_any(tag: Tag, content: Seq<u8>, level: nat) -> Option<NodeView>
    decreases content.len(), 2int, 0int,
{
    if tag.spec_expandable() && level >= u32::MAX {
        None
    } else {
        match spec_parse_value(tag, content, level) {
            Some(value) => Some(fresh(tag, value, level)),
            None => None,
        }
    }
}

/// The content of a value that wraps one nested value, decoded one level
/// down.
pub open spec fn spec_nested(content: Seq<u8>, level: nat) -> Option<Box<NodeView>>
    decreases content.len(), 1int, 0int,
{
    match spec_parse_asn1(content, level + 1) {
        Some(child) => Some(Box::new(child)),
        None => None,
    }
}

/// The content of an application, context-specific or private value: where
/// the tag is constructed, the one value that the content holds, decoded one
/// level down; where it is primitive, a leaf that holds the content as it
/// stands.
pub open spec fn spec_wrapped(tag: Tag, content: Seq<u8>, level: nat) -> Option<Box<NodeView>>
    decreases content.len(), 1int, 1int,
{
    if tag.constructed {
        spec_nested(content, level)
    } else {
        Some(Box::new(opaque_leaf(content, level + 1)))
    }
}

/// The value that the content octets of a node with this tag decode to. The
/// nodes in it are one level below `level`.
pub open spec fn spec_parse_value(tag: Tag, content: Seq<u8>, level: nat) -> Option<ValueView>
    decreases content.len(), 1int, 2int,
{
    match tag.spec_kind() {
        TagKind::Boolean => match bool_content(content) {
            Some(b) => Some(ValueView::Boolean(b)),
            None => None,
        },
        TagKind::Integer => match uint_content(content) {
            Some(n) => Some(ValueView::Integer(n)),
            None => None,
        },
        TagKind::BitString => match bit_string_content(content) {
            Some(bits) => Some(ValueView::BitString(bits)),
            None => None,
        },
        TagKind::OctetString => match spec_nested(content, level) {
            Some(child) => Some(ValueView::OctetString(child)),
            None => Some(ValueView::OctetString(Box::new(placeholder(level + 1)))),
        },
        TagKind::Null => if content.len() == 0 {
            Some(ValueView::Null)
        } else {
            None
        },
        TagKind::ObjectIdentifier => match der_oid(content) {
            Some(text) => Some(ValueView::ObjectIdentifier(text)),
            None => None,
        },
        TagKind::Utf8String => Some(ValueView::Utf8String(lossy_utf8(content))),
        TagKind::Sequence => match spec_children(content, 0, level + 1) {
            Some(children) => Some(ValueView::Sequence(children)),
            None => None,
        },
        TagKind::SetOf => match spec_nested(content, level) {
            Some(child) => Some(ValueView::SetOf(child)),
            None => None,
        },
        TagKind::PrintableString => match printable_content(content) {
            Some(text) => Some(ValueView::PrintableString(text)),
            None => None,
        },
        TagKind::Ia5String => match ia5_content(content) {
            Some(text) => Some(ValueView::Ia5String(text)),
            None => None,
        },
        TagKind::UtcTime => match der_utc_time(content) {
            Some(text) => Some(ValueView::UtcTime(text)),
            None => None,
        },
        TagKind::Application => match spec_wrapped(tag, content, level) {
            Some(child) => Some(ValueView::Application(child)),
            None => None,
        },
        TagKind::ContextSpecific => match spec_wrapped(tag, content, level) {
            Some(child) => Some(ValueView::ContextSpecific(child)),
            None => None,
        },
        TagKind::Private => match spec_wrapped(tag, content, level) {
            Some(child) => Some(ValueView::Private(child)),
            None => None,
        },
        TagKind::Other => Some(ValueView::Other(unsupported_text(tag))),
    }
}

/// The nodes, all at `level`, that the encoded values from `pos` to the end
/// of the content decode to, in the order met; nothing where one of them is
/// rejected or the content ends inside one. Each value is read with a
/// `GeneralString` identifier octet taken for that of a `PrintableString`.
pub open spec fn spec_children(content: Seq<u8>, pos: nat, level: nat) -> Option<Seq<NodeView>>
    decreases content.len(), 0int, content.len() - pos,
{
    if pos >= content.len() {
        Some(Seq::empty())
    } else {
        match der_next(normalized_at(content, pos as int), pos) {
            Some((octet, value, next)) => if pos < next <= content.len() && value.len()
                < content.len() {
                match spec_parse_any(Tag::spec_from_octet(octet), value, level) {
                    Some(child) => match spec_children(content, next, level) {
                        Some(rest) => Some(seq![child] + rest),
                        None => None,
                    },
                    None => None,
                }
            } else {
                None
            },
            None => None,
        }
    }
}

/// The nodes met so far, followed by those still to come.
pub open spec fn followed_by(done: Seq<NodeView>, rest: Option<Seq<NodeView>>) -> Option<
    Seq<NodeView>,
> {
    match rest {
        Some(rest) => Some(done + rest),
        None => None,
    }
}

/// Decodes a buffer that holds exactly one encoded value into a tree with its
/// root at `level`. A leading `GeneralString` identifier octet is read as
/// that of a `PrintableString`. The buffer is rejected where it is not one
/// well-formed value, or where a value in it is. In the tree every child is
/// one level below its parent, and every node is collapsed and hidden.
pub fn parse_asn1(data: &[u8], level: u32) -> (r: Result<ASN1Node, Asn1Error>)
    ensures
        match r {
            Ok(node) => {
                &&& spec_parse_asn1(data@, level as nat) == Some(node@)
                &&& node.level == level
                &&& well_leveled(node@)
                &&& untouched(node@)
                &&& data@.len() >= 2
                &&& node.tag == Tag::spec_from_octet(normalized(data@)[0])
            },
            Err(_) => spec_parse_asn1(data@, level as nat) is None,
        },
    decreases data@.len(), 0int, 0int,
{
    proof {
        lemma_parse_asn1_decoded(data@, level as nat);
    }
    let decoded = if data.len() > 0 && data[0] == GENERAL_STRING_OCTET {
        let mut patched = slice_to_vec(data);
        patched.set(0, PRINTABLE_STRING_OCTET);
        decode_whole(patched.as_slice())
    } else {
        decode_whole(data)
    };
    match decoded {
        Err(e) => Err(Asn1Error(e)),
        Ok((octet, content)) => parse_any(Tag::from_octet(octet), content.as_slice(), level),
    }
}

/// Decodes the content octets of a value with the given tag into a node at
/// `level`. An `OCTET STRING` whose content does not decode as a tree holds a
/// `NULL` node in its place; the content of a primitive application,
/// context-specific or private value is kept in a leaf as it stands; a tag
/// that is not supported gives a leaf that says so; every other failure
/// rejects the value, and so does a node that holds nodes at the deepest
/// level a `u32` can count.
pub fn parse_any(tag: Tag, content: &[u8], level: u32) -> (r: Result<ASN1Node, Asn1Error>)
    ensures
        match r {
            Ok(node) => spec_parse_any(tag, content@, level as nat) == Some(node@) && node.level
                == level && well_leveled(node@) && untouched(node@),
            Err(_) => spec_parse_any(tag, content@, level as nat) is None,
        },
    decreases content@.len(), 2int, 0int,
{
    proof {
        lemma_parse_any_decoded(tag, content@, level as nat);
    }
    if is_node_expandable(tag) && level == u32::MAX {
        return Err(Asn1Error(overflow_error()));
    }
    let value = match tag.kind() {
        TagKind::Boolean => match decode_bool(content) {
            Ok(b) => ASN1Value::Boolean(b),
            Err(e) => { return Err(Asn1Error(e)); },
        },
        TagKind::Integer => match decode_uint(content) {
            Ok(n) => ASN1Value::Integer(n),
            Err(e) => { return Err(Asn1Error(e)); },
        },
        TagKind::BitString => match decode_bit_string(content) {
            Ok(bits) => ASN1Value::BitString(bits),
            Err(e) => { return Err(Asn1Error(e)); },
        },
        TagKind::OctetString => match parse_asn1(content, level + 1) {
            Ok(child) => ASN1Value::OctetString(Box::new(child)),
            Err(_) => {
                let child = ASN1Node::new(
                    Tag::from_octet(NULL_OCTET),
                    ASN1Value::Null,
                    level + 1,
                    false,
                    false,
                );
                assert(child@ == placeholder((level + 1) as nat));
                ASN1Value::OctetString(Box::new(child))
            },
        },
        TagKind::Null => match decode_null(content) {
            Ok(_) => ASN1Value::Null,
            Err(e) => { return Err(Asn1Error(e)); },
        },
        TagKind::ObjectIdentifier => match decode_oid(content) {
            Ok(text) => ASN1Value::ObjectIdentifier(text),
            Err(e) => { return Err(Asn1Error(e)); },
        },
        TagKind::Utf8String => ASN1Value::Utf8String(repair_utf8(content)),
        TagKind::Sequence => match parse_children(content, level + 1) {
            Ok(children) => {
                let value = ASN1Value::Sequence(children);
                assert(value@->Sequence_0 =~= views(children@));
                value
            },
            Err(e) => { return Err(e); },
        },
        TagKind::SetOf => match parse_asn1(content, level + 1) {
            Ok(child) => ASN1Value::SetOf(Box::new(child)),
            Err(e) => { return Err(e); },
        },
        TagKind::PrintableString => match decode_printable(content) {
            Ok(text) => ASN1Value::PrintableString(text),
            Err(e) => { return Err(Asn1Error(e)); },
        },
        TagKind::Ia5String => match decode_ia5(content) {
            Ok(text) => ASN1Value::Ia5String(text),
            Err(e) => { return Err(Asn1Error(e)); },
        },
        TagKind::UtcTime => match decode_utc_time(content) {
            Ok(text) => ASN1Value::UtcTime(text),
            Err(e) => { return Err(Asn1Error(e)); },
        },
        TagKind::Application => match parse_wrapped(tag, content, level) {
            Ok(child) => ASN1Value::Application(child),
            Err(e) => { return Err(e); },
        },
        TagKind::ContextSpecific => match parse_wrapped(tag, content, level) {
            Ok(child) => ASN1Value::ContextSpecific(child),
            Err(e) => { return Err(e); },
        },
        TagKind::Private => match parse_wrapped(tag, content, level) {
            Ok(child) => ASN1Value::Private(child),
            Err(e) => { return Err(e); },
        },
        TagKind::Other => {
            let label = tag.label();
            let quoted = debug_quoted(label.as_str());
            ASN1Value::Other(String::from_str("Unsupported tag: ").concat(quoted.as_str()))
        },
    };
    Ok(ASN1Node::new(tag, value, level, is_node_expandable(tag), false))
}

/// Decodes the content of an application, context-specific or private value
/// into the node that the value wraps, one level below `level`.
fn parse_wrapped(tag: Tag, content: &[u8], level: u32) -> (r: Result<Box<ASN1Node>, Asn1Error>)
    requires
        level < u32::MAX,
    ensures
        match r {
            Ok(child) => spec_wrapped(tag, content@, level as nat) == Some(Box::new((*child)@)),
            Err(_) => spec_wrapped(tag, content@, level as nat) is None,
        },
    decreases content@.len(), 1int, 1int,
{
    if tag.constructed {
        match parse_asn1(content, level + 1) {
            Ok(child) => Ok(Box::new(child)),
            Err(e) => Err(e),
        }
    } else {
        let leaf = ASN1Node::new(
            Tag::from_octet(UTF8_STRING_OCTET),
            ASN1Value::Utf8String(slice_to_vec(content)),
            level + 1,
            false,
            false,
        );
        assert(leaf@ == opaque_leaf(content@, (level + 1) as nat));
        Ok(Box::new(leaf))
    }
}

/// Decodes the encoded values that fill the content of a `SEQUENCE`, one
/// after the other, into nodes at `level`. Each value is read with a
/// `GeneralString` identifier octet taken for that of a `PrintableString`.
#[verifier::loop_isolation(false)]
pub fn parse_children(content: &[u8], level: u32) -> (r: Result<Vec<ASN1Node>, Asn1Error>)
    ensures
        match r {
            Ok(children) => spec_children(content@, 0, level as nat) == Some(views(children@)),
            Err(_) => spec_children(content@, 0, level as nat) is None,
        },
    decreases content@.len(), 0int, content@.len(),
{
    let mut children: Vec<ASN1Node> = Vec::new();
    let mut pos: usize = 0;
    assert(Seq::<NodeView>::empty() + spec_children(content@, 0, level as nat).unwrap()
        =~= spec_children(content@, 0, level as nat).unwrap());
    while pos < content.len()
        invariant
            pos <= content.len(),
            spec_children(content@, 0, level as nat) == followed_by(
                views(children@),
                spec_children(content@, pos as nat, level as nat),
            ),
        decreases content.len() - pos,
    {
        let decoded = if content[pos] == GENERAL_STRING_OCTET {
            let mut patched = slice_to_vec(content);
            patched.set(pos, PRINTABLE_STRING_OCTET);
            decode_next(patched.as_slice(), pos)
        } else {
            decode_next(content, pos)
        };
        match decoded {
            Err(e) => {
                return Err(Asn1Error(e));
            },
            Ok((octet, value, next)) => {
                match parse_any(Tag::from_octet(octet), value.as_slice(), level) {
                    Err(e) => {
                        return Err(e);
                    },
                    Ok(child) => {
                        let ghost done = views(children@);
                        children.push(child);
                        proof {
                            assert(views(children@) =~= done + seq![child@]);
                            let rest = spec_children(content@, next as nat, level as nat);
                            if rest is Some {
                                assert(done + (seq![child@] + rest.unwrap()) =~= (done
                                    + seq![child@]) + rest.unwrap());
                            }
                        }
                        pos = next;
                    },
                }
            },
        }
    }
    assert(views(children@) + Seq::<NodeView>::empty() =~= views(children@));
    Ok(children)
}

/// The rows of a tree in the order of the display: a node, and after it the
/// rows of each of its children in turn.
pub open spec fn preorder(node: NodeView) -> Seq<NodeView>
    decreases node, 1int,
{
    seq![node] + rows_below(node)
}

/// The rows of the trees below a node: those of each child of a sequence in
/// turn, those of the one node that a wrapping value holds, and none below
/// a leaf.
pub open spec fn rows_below(node: NodeView) -> Seq<NodeView>
    decreases node, 0int,
{
    match node.value {
        ValueView::Sequence(children) => preorder_all(children),
        ValueView::OctetString(child)
        | ValueView::SetOf(child)
        | ValueView::Application(child)
        | ValueView::ContextSpecific(child)
        | ValueView::Private(child) => preorder(*child),
        _ => Seq::empty(),
    }
}

/// The rows of a run of trees, one tree after the other.
pub open spec fn preorder_all(nodes: Seq<NodeView>) -> Seq<NodeView>
    decreases nodes, 0int,
{
    if nodes.len() == 0 {
        Seq::empty()
    } else {
        preorder_all(nodes.drop_last()) + preorder(nodes.last())
    }
}

/// The rows with the position of each as its `index`.
pub open spec fn numbered(rows: Seq<NodeView>) -> Seq<NodeView> {
    Seq::new(rows.len(), |i: int| NodeView { index: i as nat, ..rows[i] })
}

/// Lays a tree out as the list of its rows: a copy of each node, parents
/// before children, children in their stored order, and each row with its
/// position in the list as its `index`. The list has one row for each node
/// of the tree, so the positions are the numbers from 0 up to the count of
/// the nodes, each once.
pub fn flatten_nodes(node: &ASN1Node) -> (nodes: Vec<ASN1Node>)
    ensures
        views(nodes@) == numbered(preorder(node@)),
        nodes@.len() == preorder(node@).len(),
        forall|i: int|
            0 <= i < nodes@.len() ==> (#[trigger] nodes@[i])@ == (NodeView {
                index: i as nat,
                ..preorder(node@)[i]
            }),
        forall|i: int| 0 <= i < nodes@.len() ==> (#[trigger] nodes@[i]).index == i,
{
    let mut nodes = walk_nodes(node);
    let ghost flat = views(nodes@);
    let mut i: usize = 0;
    while i < nodes.len()
        invariant
            i <= nodes@.len(),
            nodes@.len() == flat.len(),
            forall|j: int|
                0 <= j < flat.len() ==> (#[trigger] nodes@[j])@ == if j < i {
                    NodeView { index: j as nat, ..flat[j] }
                } else {
                    flat[j]
                },
        decreases nodes@.len() - i,
    {
        nodes[i].index = i;
        i = i + 1;
    }
    assert(views(nodes@) =~= numbered(flat));
    nodes
}

/// Walks a tree, parents before children, children in their stored order,
/// and gives a copy of each node as it is.
#[verifier::loop_isolation(false)]
pub fn walk_nodes(node: &ASN1Node) -> (nodes: Vec<ASN1Node>)
    ensures
        views(nodes@) == preorder(node@),
    decreases node,
{
    let mut nodes: Vec<ASN1Node> = Vec::new();
    nodes.push(node.duplicate());
    assert(views(nodes@) =~= seq![node@]);
    match &node.value {
        ASN1Value::Sequence(children) => {
            let ghost below = node@.value->Sequence_0;
            assert(below =~= views(children@));
            let mut i: usize = 0;
            assert(views(children@).take(0) =~= Seq::empty());
            assert(views(nodes@) =~= seq![node@] + Seq::<NodeView>::empty());
            while i < children.len()
                invariant
                    i <= children.len(),
                    views(nodes@) == seq![node@] + preorder_all(views(children@).take(i as int)),
                decreases children.len() - i,
            {
                let ghost before = views(nodes@);
                let mut rows = walk_nodes(&children[i]);
                let ghost added = views(rows@);
                nodes.append(&mut rows);
                proof {
                    let next = views(children@).take(i + 1);
                    assert(next.drop_last() =~= views(children@).take(i as int));
                    assert(next.last() == children@[i as int]@);
                    assert(views(nodes@) =~= before + added);
                    assert(before + added =~= seq![node@] + preorder_all(next));
                }
                i = i + 1;
            }
            assert(views(children@).take(i as int) =~= views(children@));
        },
        ASN1Value::OctetString(child)
        | ASN1Value::SetOf(child)
        | ASN1Value::Application(child)
        | ASN1Value::ContextSpecific(child)
        | ASN1Value::Private(child) => {
            let ghost before = views(nodes@);
            let mut rows = walk_nodes(child);
            let ghost added = views(rows@);
            nodes.append(&mut rows);
            assert(views(nodes@) =~= before + added);
        },
        _ => {
            assert(views(nodes@) =~= seq![node@] + Seq::<NodeView>::empty());
        },
    }
    nodes
}

} // verus!
