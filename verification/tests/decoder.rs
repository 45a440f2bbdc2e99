use asn1_viewer::asn1_der::flatten_nodes;
use asn1_viewer::asn1_der::is_node_expandable;
use asn1_viewer::asn1_der::parse_any;
use asn1_viewer::asn1_der::parse_asn1;
use asn1_viewer::asn1_der::parse_children;
use asn1_viewer::asn1_der::walk_nodes;
use asn1_viewer::asn1_der::ASN1Node;
use asn1_viewer::asn1_der::ASN1Value;
use asn1_viewer::tag::Class;
use asn1_viewer::tag::Tag;
use asn1_viewer::tag::TagKind;

fn child_of(node: &ASN1Node) -> &ASN1Node {
    match &node.value {
        ASN1Value::OctetString(child) => child,
        ASN1Value::SetOf(child) => child,
        ASN1Value::Application(child) => child,
        ASN1Value::ContextSpecific(child) => child,
        ASN1Value::Private(child) => child,
        _ => panic!("the node wraps no child"),
    }
}

fn children_of(node: &ASN1Node) -> &Vec<ASN1Node> {
    match &node.value {
        ASN1Value::Sequence(children) => children,
        _ => panic!("the node is no sequence"),
    }
}

fn levels_in_order(node: &ASN1Node) -> bool {
    match &node.value {
        ASN1Value::Sequence(children) => {
            children.iter().all(|c| c.level == node.level + 1 && levels_in_order(c))
        }
        ASN1Value::OctetString(c)
        | ASN1Value::SetOf(c)
        | ASN1Value::Application(c)
        | ASN1Value::ContextSpecific(c)
        | ASN1Value::Private(c) => c.level == node.level + 1 && levels_in_order(c),
        _ => true,
    }
}

#[test]
fn decodes_a_small_integer() {
    let node = parse_asn1(&[0x02, 0x01, 0x05], 0).unwrap();
    assert!(matches!(node.value, ASN1Value::Integer(5)));
    assert_eq!(node.level, 0);
    assert!(!node.expandable);
    assert!(!node.expanded);
    assert!(!node.visible);
    assert_eq!(node.index, 0);
    assert_eq!(node.tag, Tag { class: Class::Universal, number: 2, constructed: false });
}

#[test]
fn decodes_integers_most_significant_octet_first() {
    let node = parse_asn1(&[0x02, 0x02, 0x01, 0x00], 0).unwrap();
    assert!(matches!(node.value, ASN1Value::Integer(256)));
    let node = parse_asn1(&[0x02, 0x03, 0x00, 0xff, 0xff], 0).unwrap();
    assert!(matches!(node.value, ASN1Value::Integer(65535)));
    let mut big = vec![0x02, 0x11, 0x00];
    big.extend_from_slice(&[0xff; 16]);
    let node = parse_asn1(&big, 0).unwrap();
    assert!(matches!(node.value, ASN1Value::Integer(u128::MAX)));
}

#[test]
fn rejects_a_negative_integer() {
    assert!(parse_asn1(&[0x02, 0x01, 0x80], 0).is_err());
}

#[test]
fn rejects_an_integer_wider_than_128_bits() {
    let mut wide = vec![0x02, 0x11, 0x01];
    wide.extend_from_slice(&[0x00; 16]);
    assert!(parse_asn1(&wide, 0).is_err());
}

#[test]
fn rejects_an_integer_with_a_needless_leading_zero() {
    assert!(parse_asn1(&[0x02, 0x02, 0x00, 0x05], 0).is_err());
}

#[test]
fn rejects_an_empty_buffer() {
    assert!(parse_asn1(&[], 0).is_err());
}

#[test]
fn rejects_a_truncated_value() {
    assert!(parse_asn1(&[0x02, 0x02, 0x05], 0).is_err());
}

#[test]
fn rejects_trailing_octets() {
    assert!(parse_asn1(&[0x02, 0x01, 0x05, 0x00], 0).is_err());
}

#[test]
fn rejects_an_indefinite_length() {
    assert!(parse_asn1(&[0x30, 0x80, 0x00, 0x00], 0).is_err());
}

#[test]
fn decodes_booleans() {
    let node = parse_asn1(&[0x01, 0x01, 0xff], 0).unwrap();
    assert!(matches!(node.value, ASN1Value::Boolean(true)));
    let node = parse_asn1(&[0x01, 0x01, 0x00], 0).unwrap();
    assert!(matches!(node.value, ASN1Value::Boolean(false)));
}

#[test]
fn rejects_a_boolean_that_is_neither_all_zeros_nor_all_ones() {
    assert!(parse_asn1(&[0x01, 0x01, 0x01], 0).is_err());
    assert!(parse_asn1(&[0x01, 0x02, 0xff, 0xff], 0).is_err());
    assert!(parse_asn1(&[0x01, 0x00], 0).is_err());
}

#[test]
fn decodes_null_with_no_content() {
    let node = parse_asn1(&[0x05, 0x00], 3).unwrap();
    assert!(matches!(node.value, ASN1Value::Null));
    assert_eq!(node.level, 3);
}

#[test]
fn rejects_null_with_content() {
    assert!(parse_asn1(&[0x05, 0x01, 0x07], 0).is_err());
    assert!(parse_asn1(&[0x05, 0x02, 0x00, 0x00], 0).is_err());
    assert!(parse_asn1(&[0x30, 0x05, 0x05, 0x00, 0x05, 0x01, 0x00], 0).is_err());
}

#[test]
fn decodes_a_bit_string_to_the_octets_after_the_unused_count() {
    let node = parse_asn1(&[0x03, 0x03, 0x04, 0xa5, 0xf0], 0).unwrap();
    match node.value {
        ASN1Value::BitString(bits) => assert_eq!(bits, vec![0xa5, 0xf0]),
        _ => panic!("no bit string"),
    }
    let node = parse_asn1(&[0x03, 0x01, 0x00], 0).unwrap();
    match node.value {
        ASN1Value::BitString(bits) => assert!(bits.is_empty()),
        _ => panic!("no bit string"),
    }
}

#[test]
fn rejects_a_malformed_bit_string() {
    assert!(parse_asn1(&[0x03, 0x00], 0).is_err());
    assert!(parse_asn1(&[0x03, 0x02, 0x08, 0xff], 0).is_err());
    assert!(parse_asn1(&[0x03, 0x01, 0x01], 0).is_err());
}

#[test]
fn decodes_an_object_identifier_to_dotted_decimal() {
    let node = parse_asn1(&[0x06, 0x06, 0x2a, 0x86, 0x48, 0x86, 0xf7, 0x0d], 0).unwrap();
    match node.value {
        ASN1Value::ObjectIdentifier(text) => assert_eq!(text, "1.2.840.113549"),
        _ => panic!("no object identifier"),
    }
}

#[test]
fn rejects_an_empty_object_identifier() {
    assert!(parse_asn1(&[0x06, 0x00], 0).is_err());
}

#[test]
fn decodes_text_strings() {
    let node = parse_asn1(&[0x13, 0x05, b'H', b'e', b'l', b'l', b'o'], 0).unwrap();
    match node.value {
        ASN1Value::PrintableString(text) => assert_eq!(text, "Hello"),
        _ => panic!("no printable string"),
    }
    let node = parse_asn1(&[0x16, 0x03, b'a', b'@', b'b'], 0).unwrap();
    match node.value {
        ASN1Value::Ia5String(text) => assert_eq!(text, "a@b"),
        _ => panic!("no IA5 string"),
    }
}

#[test]
fn rejects_text_outside_the_character_set() {
    assert!(parse_asn1(&[0x13, 0x03, b'a', b'@', b'b'], 0).is_err());
    assert!(parse_asn1(&[0x13, 0x01, b'*'], 0).is_err());
    assert!(parse_asn1(&[0x16, 0x01, 0x80], 0).is_err());
}

#[test]
fn repairs_invalid_utf8() {
    let node = parse_asn1(&[0x0c, 0x03, b'a', 0xff, b'b'], 0).unwrap();
    match node.value {
        ASN1Value::Utf8String(bytes) => assert_eq!(bytes, "a\u{fffd}b".as_bytes().to_vec()),
        _ => panic!("no UTF-8 string"),
    }
    let node = parse_asn1(&[0x0c, 0x02, 0xc3, 0xa9], 0).unwrap();
    match node.value {
        ASN1Value::Utf8String(bytes) => assert_eq!(bytes, vec![0xc3, 0xa9]),
        _ => panic!("no UTF-8 string"),
    }
}

#[test]
fn decodes_a_utc_time() {
    let mut data = vec![0x17, 0x0d];
    data.extend_from_slice(b"230102030405Z");
    let node = parse_asn1(&data, 0).unwrap();
    match node.value {
        ASN1Value::UtcTime(text) => assert_eq!(text, "2023-01-02T03:04:05Z"),
        _ => panic!("no UTC time"),
    }
    let mut data = vec![0x17, 0x0d];
    data.extend_from_slice(b"990102030405Z");
    let node = parse_asn1(&data, 0).unwrap();
    match node.value {
        ASN1Value::UtcTime(text) => assert_eq!(text, "1999-01-02T03:04:05Z"),
        _ => panic!("no UTC time"),
    }
}

#[test]
fn rejects_a_malformed_utc_time() {
    let mut data = vec![0x17, 0x0b];
    data.extend_from_slice(b"2301020304Z");
    assert!(parse_asn1(&data, 0).is_err());
    let mut data = vec![0x17, 0x0d];
    data.extend_from_slice(b"231302030405Z");
    assert!(parse_asn1(&data, 0).is_err());
}

#[test]
fn reads_a_general_string_as_a_printable_string() {
    let node = parse_asn1(&[0x1b, 0x02, b'o', b'k'], 0).unwrap();
    assert_eq!(node.tag.kind(), TagKind::PrintableString);
    match node.value {
        ASN1Value::PrintableString(text) => assert_eq!(text, "ok"),
        _ => panic!("no printable string"),
    }
}

#[test]
fn reads_a_general_string_inside_a_sequence_too() {
    let data = [0x30, 0x0b, 0x1b, 0x02, b'o', b'k', 0x02, 0x01, 0x1b, 0x1b, 0x02, b'n', b'o'];
    let root = parse_asn1(&data, 0).unwrap();
    let children = children_of(&root);
    assert_eq!(children.len(), 3);
    assert_eq!(children[0].tag.kind(), TagKind::PrintableString);
    assert!(matches!(&children[0].value, ASN1Value::PrintableString(text) if text == "ok"));
    assert!(matches!(children[1].value, ASN1Value::Integer(0x1b)));
    assert!(matches!(&children[2].value, ASN1Value::PrintableString(text) if text == "no"));
    let nested = [0x30, 0x06, 0x30, 0x04, 0x1b, 0x02, b'o', b'k'];
    let root = parse_asn1(&nested, 0).unwrap();
    let inner = children_of(&children_of(&root)[0]);
    assert!(matches!(&inner[0].value, ASN1Value::PrintableString(text) if text == "ok"));
    assert!(parse_asn1(&[0x30, 0x03, 0x1b, 0x01, b'*'], 0).is_err());
}

#[test]
fn decodes_a_sequence_in_order() {
    let root = parse_asn1(&[0x30, 0x06, 0x02, 0x01, 0x05, 0x01, 0x01, 0xff], 0).unwrap();
    assert_eq!(root.level, 0);
    assert!(root.expandable);
    let children = children_of(&root);
    assert_eq!(children.len(), 2);
    assert!(matches!(children[0].value, ASN1Value::Integer(5)));
    assert_eq!(children[0].level, 1);
    assert!(matches!(children[1].value, ASN1Value::Boolean(true)));
    assert_eq!(children[1].level, 1);
}

#[test]
fn decodes_an_empty_sequence() {
    let root = parse_asn1(&[0x30, 0x00], 0).unwrap();
    assert!(children_of(&root).is_empty());
}

#[test]
fn rejects_a_sequence_that_ends_inside_a_unit() {
    assert!(parse_asn1(&[0x30, 0x04, 0x02, 0x01, 0x05, 0x01], 0).is_err());
    assert!(parse_asn1(&[0x30, 0x03, 0x02, 0x02, 0x05], 0).is_err());
}

#[test]
fn rejects_a_sequence_with_a_bad_unit() {
    assert!(parse_asn1(&[0x30, 0x06, 0x02, 0x01, 0x05, 0x02, 0x01, 0x80], 0).is_err());
}

#[test]
fn decodes_the_content_of_an_octet_string() {
    let data = [0x04, 0x08, 0x30, 0x06, 0x02, 0x01, 0x05, 0x01, 0x01, 0xff];
    let root = parse_asn1(&data, 0).unwrap();
    assert!(root.expandable);
    let inner = child_of(&root);
    assert_eq!(inner.level, 1);
    let children = children_of(inner);
    assert_eq!(children.len(), 2);
    assert_eq!(children[0].level, 2);
    assert!(matches!(children[0].value, ASN1Value::Integer(5)));
}

#[test]
fn puts_null_in_place_of_octet_string_content_that_does_not_decode() {
    for data in [
        vec![0x04, 0x03, 0xde, 0xad, 0xbe],
        vec![0x04, 0x00],
        vec![0x04, 0x03, 0x02, 0x01, 0x80],
    ] {
        let root = parse_asn1(&data, 2).unwrap();
        assert!(matches!(root.value, ASN1Value::OctetString(_)));
        let inner = child_of(&root);
        assert!(matches!(inner.value, ASN1Value::Null));
        assert_eq!(inner.tag, Tag::from_octet(0x05));
        assert_eq!(inner.level, 3);
        assert!(!inner.expandable);
        assert!(!inner.visible);
    }
}

#[test]
fn decodes_the_content_of_a_set_as_one_unit() {
    let root = parse_asn1(&[0x31, 0x03, 0x02, 0x01, 0x07], 0).unwrap();
    assert!(matches!(root.value, ASN1Value::SetOf(_)));
    assert!(matches!(child_of(&root).value, ASN1Value::Integer(7)));
    assert_eq!(child_of(&root).level, 1);
}

#[test]
fn rejects_a_set_whose_content_is_not_one_unit() {
    assert!(parse_asn1(&[0x31, 0x00], 0).is_err());
    assert!(parse_asn1(&[0x31, 0x06, 0x02, 0x01, 0x07, 0x02, 0x01, 0x08], 0).is_err());
}

#[test]
fn decodes_application_and_private_content() {
    let root = parse_asn1(&[0x61, 0x03, 0x02, 0x01, 0x07], 0).unwrap();
    assert_eq!(root.tag, Tag { class: Class::Application, number: 1, constructed: true });
    assert!(matches!(root.value, ASN1Value::Application(_)));
    assert!(matches!(child_of(&root).value, ASN1Value::Integer(7)));
    let root = parse_asn1(&[0xe2, 0x03, 0x02, 0x01, 0x07], 0).unwrap();
    assert_eq!(root.tag, Tag { class: Class::Private, number: 2, constructed: true });
    assert!(matches!(root.value, ASN1Value::Private(_)));
    assert!(matches!(child_of(&root).value, ASN1Value::Integer(7)));
}

#[test]
fn rejects_constructed_content_that_is_no_unit() {
    assert!(parse_asn1(&[0x61, 0x02, 0xde, 0xad], 0).is_err());
    assert!(parse_asn1(&[0xe1, 0x00], 0).is_err());
    assert!(parse_asn1(&[0x61, 0x03, 0x02, 0x01, 0x80], 0).is_err());
}

#[test]
fn keeps_primitive_application_and_private_content_as_a_leaf() {
    let root = parse_asn1(&[0x41, 0x02, 0xde, 0xad], 1).unwrap();
    assert_eq!(root.tag, Tag { class: Class::Application, number: 1, constructed: false });
    assert!(root.expandable);
    assert!(matches!(root.value, ASN1Value::Application(_)));
    let leaf = child_of(&root);
    assert_eq!(leaf.tag, Tag::from_octet(0x0c));
    assert_eq!(leaf.level, 2);
    assert!(!leaf.expandable);
    assert!(matches!(&leaf.value, ASN1Value::Utf8String(bytes) if bytes == &vec![0xde, 0xad]));
    let root = parse_asn1(&[0xc1, 0x00], 0).unwrap();
    assert!(matches!(root.value, ASN1Value::Private(_)));
    let leaf = child_of(&root);
    assert!(matches!(&leaf.value, ASN1Value::Utf8String(bytes) if bytes.is_empty()));
    let root = parse_asn1(&[0xc2, 0x03, 0x02, 0x01, 0x07], 0).unwrap();
    let leaf = child_of(&root);
    assert!(matches!(&leaf.value, ASN1Value::Utf8String(bytes) if bytes == &vec![0x02, 0x01, 0x07]));
}

#[test]
fn rejects_a_node_that_holds_nodes_where_levels_end() {
    let error = parse_asn1(&[0x30, 0x00], u32::MAX).unwrap_err();
    assert_eq!(error.0.kind(), der::ErrorKind::Overflow);
    assert!(parse_asn1(&[0x04, 0x00], u32::MAX).is_err());
    assert!(parse_asn1(&[0x80, 0x01, 0x00], u32::MAX).is_err());
    assert!(parse_asn1(&[0x30, 0x04, 0x30, 0x02, 0x05, 0x00], u32::MAX - 1).is_err());
    let leaf = parse_asn1(&[0x05, 0x00], u32::MAX).unwrap();
    assert_eq!(leaf.level, u32::MAX);
    let root = parse_asn1(&[0x30, 0x02, 0x05, 0x00], u32::MAX - 1).unwrap();
    assert_eq!(children_of(&root)[0].level, u32::MAX);
    let wrapped = parse_asn1(&[0x04, 0x04, 0x30, 0x02, 0x05, 0x00], u32::MAX - 1).unwrap();
    assert!(matches!(child_of(&wrapped).value, ASN1Value::Null));
    assert_eq!(child_of(&wrapped).level, u32::MAX);
}

#[test]
fn decodes_constructed_context_specific_content() {
    let root = parse_asn1(&[0xa0, 0x03, 0x02, 0x01, 0x02], 0).unwrap();
    assert_eq!(root.tag, Tag { class: Class::ContextSpecific, number: 0, constructed: true });
    assert!(root.expandable);
    assert!(matches!(child_of(&root).value, ASN1Value::Integer(2)));
    assert!(parse_asn1(&[0xa0, 0x02, 0xde, 0xad], 0).is_err());
}

#[test]
fn keeps_primitive_context_specific_content_as_a_leaf() {
    let root = parse_asn1(&[0x82, 0x03, b'a', 0xff, b'c'], 4).unwrap();
    assert!(root.expandable);
    let leaf = child_of(&root);
    assert_eq!(leaf.tag, Tag::from_octet(0x0c));
    assert_eq!(leaf.level, 5);
    assert!(!leaf.expandable);
    assert!(!leaf.visible);
    match &leaf.value {
        ASN1Value::Utf8String(bytes) => assert_eq!(bytes, &vec![b'a', 0xff, b'c']),
        _ => panic!("no leaf"),
    }
}

#[test]
fn gives_an_unsupported_tag_a_leaf_that_says_so() {
    let root = parse_asn1(&[0x0a, 0x01, 0x01], 0).unwrap();
    assert!(!root.expandable);
    match root.value {
        ASN1Value::Other(text) => assert_eq!(text, "Unsupported tag: \"ENUMERATED\""),
        _ => panic!("no placeholder"),
    }
    let root = parse_asn1(&[0x18, 0x01, 0x01], 0).unwrap();
    match root.value {
        ASN1Value::Other(text) => assert_eq!(text, "Unsupported tag: \"GeneralizedTime\""),
        _ => panic!("no placeholder"),
    }
}

#[test]
fn rejects_an_identifier_octet_that_stands_for_no_tag() {
    assert!(parse_asn1(&[0x1f, 0x01, 0x01], 0).is_err());
    assert!(parse_asn1(&[0x10, 0x00], 0).is_err());
}

#[test]
fn parse_any_takes_tag_and_content() {
    let node = parse_any(Tag::from_octet(0x02), &[0x2a], 7).unwrap();
    assert!(matches!(node.value, ASN1Value::Integer(42)));
    assert_eq!(node.level, 7);
    let node = parse_any(Tag::from_octet(0x30), &[0x05, 0x00, 0x05, 0x00], 0).unwrap();
    assert_eq!(children_of(&node).len(), 2);
    assert!(parse_any(Tag::from_octet(0x01), &[], 0).is_err());
    let node = parse_any(Tag::from_octet(0x22), &[0x2a], 0).unwrap();
    assert!(matches!(node.value, ASN1Value::Other(_)));
}

#[test]
fn parse_children_walks_the_content() {
    let children = parse_children(&[0x02, 0x01, 0x01, 0x30, 0x00, 0x05, 0x00], 9).unwrap();
    assert_eq!(children.len(), 3);
    assert!(children.iter().all(|c| c.level == 9));
    assert!(matches!(children[0].value, ASN1Value::Integer(1)));
    assert!(matches!(children[1].value, ASN1Value::Sequence(_)));
    assert!(matches!(children[2].value, ASN1Value::Null));
    assert!(parse_children(&[], 0).unwrap().is_empty());
    assert!(parse_children(&[0x02], 0).is_err());
}

#[test]
fn reads_a_long_form_length() {
    let mut data = vec![0x04, 0x81, 0x80];
    data.extend_from_slice(&[0xaa; 128]);
    let root = parse_asn1(&data, 0).unwrap();
    assert!(matches!(root.value, ASN1Value::OctetString(_)));
    let mut data = vec![0x04, 0x81, 0x7f];
    data.extend_from_slice(&[0xaa; 127]);
    assert!(parse_asn1(&data, 0).is_err());
}

#[test]
fn every_child_is_one_level_below_its_parent() {
    let data = [
        0x30, 0x17, 0x30, 0x0a, 0x04, 0x03, 0x02, 0x01, 0x05, 0xa1, 0x03, 0x02, 0x01, 0x07,
        0x31, 0x02, 0x05, 0x00, 0x04, 0x02, 0xff, 0xff, 0x02, 0x01, 0x09,
    ];
    let root = parse_asn1(&data, 0).unwrap();
    assert!(levels_in_order(&root));
    let root = parse_asn1(&data, 10).unwrap();
    assert_eq!(root.level, 10);
    assert!(levels_in_order(&root));
}

#[test]
fn expandable_goes_by_the_tag() {
    for octet in [0x30u8, 0x31, 0x04, 0xa0, 0x80, 0x60, 0x40, 0xe0, 0xc0] {
        assert!(is_node_expandable(Tag::from_octet(octet)));
    }
    for octet in [0x01u8, 0x02, 0x03, 0x05, 0x06, 0x0c, 0x13, 0x16, 0x17, 0x0a, 0x10, 0x24] {
        assert!(!is_node_expandable(Tag::from_octet(octet)));
    }
}

#[test]
fn flattens_parents_before_children() {
    let data = [
        0x30, 0x0d, 0x02, 0x01, 0x01, 0x04, 0x05, 0x30, 0x03, 0x01, 0x01, 0x00, 0x31, 0x02, 0x05,
        0x00,
    ];
    assert!(parse_asn1(&data, 0).is_err());
    let data = [
        0x30, 0x0e, 0x02, 0x01, 0x01, 0x04, 0x05, 0x30, 0x03, 0x01, 0x01, 0x00, 0x31, 0x02, 0x05,
        0x00,
    ];
    let root = parse_asn1(&data, 0).unwrap();
    let rows = flatten_nodes(&root);
    let kinds: Vec<TagKind> = rows.iter().map(|r| r.tag.kind()).collect();
    assert_eq!(
        kinds,
        vec![
            TagKind::Sequence,
            TagKind::Integer,
            TagKind::OctetString,
            TagKind::Sequence,
            TagKind::Boolean,
            TagKind::SetOf,
            TagKind::Null,
        ]
    );
    let levels: Vec<u32> = rows.iter().map(|r| r.level).collect();
    assert_eq!(levels, vec![0, 1, 1, 2, 3, 1, 2]);
    let indices: Vec<usize> = rows.iter().map(|r| r.index).collect();
    assert_eq!(indices, vec![0, 1, 2, 3, 4, 5, 6]);
    assert!(rows.iter().all(|r| !r.visible && !r.expanded));
    let walked = walk_nodes(&root);
    assert_eq!(walked.len(), rows.len());
    assert!(walked.iter().all(|r| r.index == 0));
    let leaf = parse_asn1(&[0x05, 0x00], 0).unwrap();
    let rows = flatten_nodes(&leaf);
    assert_eq!(rows.len(), 1);
    assert_eq!(rows[0].index, 0);
}

#[test]
fn a_copy_holds_what_the_node_holds() {
    let data = [0x30, 0x08, 0x04, 0x03, 0x02, 0x01, 0x05, 0x13, 0x01, b'x'];
    let mut root = parse_asn1(&data, 0).unwrap();
    root.visible = true;
    root.expanded = true;
    root.index = 4;
    let copy = root.duplicate();
    assert_eq!(format!("{:?}", copy), format!("{:?}", root));
}

#[test]
fn toggle_expand_flips_nodes_that_hold_nodes() {
    let mut node = parse_asn1(&[0x30, 0x00], 0).unwrap();
    node.toggle_expand();
    assert!(node.expanded);
    node.toggle_expand();
    assert!(!node.expanded);
    let mut leaf = parse_asn1(&[0x05, 0x00], 0).unwrap();
    leaf.toggle_expand();
    assert!(!leaf.expanded);
}

#[test]
fn new_nodes_start_collapsed() {
    let node = ASN1Node::new(Tag::from_octet(0x05), ASN1Value::Null, 3, false, true);
    assert_eq!(node.level, 3);
    assert!(node.visible);
    assert!(!node.expanded);
    assert!(!node.expandable);
    assert_eq!(node.index, 0);
}
