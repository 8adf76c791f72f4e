use node_compiler::types::{NodeKind, NodeValue, WireType};

fn call(in_types: Vec<WireType>, out_types: Vec<WireType>) -> NodeKind {
    NodeKind::FunctionCall { def_index: 0, name: "double".to_string(), in_types, out_types }
}

#[test]
fn wire_type_labels() {
    assert_eq!(WireType::Bit.label(), "Bit");
    assert_eq!(WireType::Byte.label(), "Byte");
    assert_eq!(WireType::Word.label(), "Word");
}

#[test]
fn value_wire_types() {
    assert_eq!(NodeValue::Bit(true).wire_type(), WireType::Bit);
    assert_eq!(NodeValue::Byte(7).wire_type(), WireType::Byte);
    assert_eq!(NodeValue::Word(7).wire_type(), WireType::Word);
    assert_eq!(NodeValue::Bytes(vec![1, 2]).wire_type(), WireType::Byte);
}

#[test]
fn value_accessors() {
    assert_eq!(NodeValue::Bit(true).as_bit(), Some(true));
    assert_eq!(NodeValue::Byte(3).as_bit(), None);
    assert_eq!(NodeValue::Byte(3).as_byte(), Some(3));
    assert_eq!(NodeValue::Word(3).as_byte(), None);
    assert_eq!(NodeValue::Word(0xABCD).as_word(), Some(0xABCD));
    assert_eq!(NodeValue::Bytes(vec![3]).as_word(), None);
    assert_eq!(NodeValue::Bytes(vec![3]).as_byte(), None);
}

#[test]
fn short_display_of_bits() {
    assert_eq!(NodeValue::Bit(true).short_display(), "1");
    assert_eq!(NodeValue::Bit(false).short_display(), "0");
}

#[test]
fn short_display_of_byte_and_word() {
    assert_eq!(NodeValue::Byte(10).short_display(), "0x0A");
    assert_eq!(NodeValue::Byte(0).short_display(), "0x00");
    assert_eq!(NodeValue::Byte(255).short_display(), "0xFF");
    assert_eq!(NodeValue::Word(42).short_display(), "0x000000000000002A");
    assert_eq!(NodeValue::Word(u64::MAX).short_display(), "0xFFFFFFFFFFFFFFFF");
}

#[test]
fn short_display_of_bytes() {
    assert_eq!(NodeValue::Bytes(vec![]).short_display(), "[]");
    assert_eq!(NodeValue::Bytes(vec![1, 2, 0xAB]).short_display(), "[01 02 AB]");
    assert_eq!(
        NodeValue::Bytes(vec![0, 1, 2, 3, 4, 5, 6, 7]).short_display(),
        "[00 01 02 03 04 05 06 07]"
    );
    assert_eq!(
        NodeValue::Bytes(vec![0, 1, 2, 3, 4, 5, 6, 7, 8, 9]).short_display(),
        "[00 01 02 03 04 05 06 07 …+2]"
    );
}

#[test]
fn node_titles() {
    assert_eq!(NodeKind::Source { filename: String::new() }.node_title(), "SOURCE");
    assert_eq!(NodeKind::Sink.node_title(), "SINK");
    assert_eq!(NodeKind::Constant(vec![]).node_title(), "CONSTANT");
    assert_eq!(NodeKind::Nand.node_title(), "NAND");
    assert_eq!(NodeKind::Shr.node_title(), "SHR");
    assert_eq!(NodeKind::Mod.node_title(), "MOD");
    assert_eq!(NodeKind::Concat { count: 3 }.node_title(), "CONCAT (3)");
    assert_eq!(NodeKind::Concat { count: 12 }.node_title(), "CONCAT (12)");
    assert_eq!(NodeKind::Unpack.node_title(), "UNPACK");
    assert_eq!(call(vec![], vec![]).node_title(), "double");
}

#[test]
fn port_counts() {
    assert_eq!(NodeKind::Source { filename: String::new() }.input_count(), 0);
    assert_eq!(NodeKind::Source { filename: String::new() }.output_count(), 1);
    assert_eq!(NodeKind::Sink.input_count(), 1);
    assert_eq!(NodeKind::Sink.output_count(), 0);
    let c = NodeKind::Constant(vec![NodeValue::Bit(true), NodeValue::Word(1)]);
    assert_eq!(c.input_count(), 0);
    assert_eq!(c.output_count(), 2);
    assert_eq!(NodeKind::Not.input_count(), 1);
    assert_eq!(NodeKind::Add.input_count(), 2);
    assert_eq!(NodeKind::Add.output_count(), 1);
    assert_eq!(NodeKind::Slice.input_count(), 2);
    assert_eq!(NodeKind::Pack.input_count(), 8);
    assert_eq!(NodeKind::Pack.output_count(), 1);
    assert_eq!(NodeKind::Unpack.input_count(), 1);
    assert_eq!(NodeKind::Unpack.output_count(), 8);
    assert_eq!(NodeKind::Concat { count: 5 }.input_count(), 5);
    let f = call(vec![WireType::Byte; 3], vec![WireType::Word; 2]);
    assert_eq!(f.input_count(), 3);
    assert_eq!(f.output_count(), 2);
}

#[test]
fn pin_wire_types() {
    assert_eq!(NodeKind::Slice.input_wire_type(0), WireType::Word);
    assert_eq!(NodeKind::Slice.input_wire_type(1), WireType::Byte);
    assert_eq!(NodeKind::Pack.input_wire_type(6), WireType::Bit);
    assert_eq!(NodeKind::And.input_wire_type(0), WireType::Byte);
    assert_eq!(NodeKind::Sink.input_wire_type(0), WireType::Byte);
    assert_eq!(NodeKind::Unpack.output_wire_type(3), WireType::Bit);
    assert_eq!(NodeKind::Add.output_wire_type(0), WireType::Byte);
    let c = NodeKind::Constant(vec![NodeValue::Bit(true), NodeValue::Word(1)]);
    assert_eq!(c.output_wire_type(0), WireType::Bit);
    assert_eq!(c.output_wire_type(1), WireType::Word);
    assert_eq!(c.output_wire_type(2), WireType::Byte);
    let f = call(vec![WireType::Bit, WireType::Word], vec![WireType::Word]);
    assert_eq!(f.input_wire_type(0), WireType::Bit);
    assert_eq!(f.input_wire_type(1), WireType::Word);
    assert_eq!(f.input_wire_type(2), WireType::Byte);
    assert_eq!(f.output_wire_type(0), WireType::Word);
    assert_eq!(f.output_wire_type(1), WireType::Byte);
}

#[test]
fn input_labels() {
    assert_eq!(NodeKind::Sink.input_label(0), "in");
    assert_eq!(NodeKind::And.input_label(0), "a");
    assert_eq!(NodeKind::Sub.input_label(1), "b");
    assert_eq!(NodeKind::Not.input_label(0), "a");
    assert_eq!(NodeKind::Shl.input_label(0), "a");
    assert_eq!(NodeKind::Shr.input_label(1), "amount");
    assert_eq!(NodeKind::Concat { count: 4 }.input_label(2), "in[2]");
    assert_eq!(NodeKind::Slice.input_label(0), "in");
    assert_eq!(NodeKind::Slice.input_label(1), "offset");
    assert_eq!(NodeKind::Pack.input_label(7), "bit[7]");
    assert_eq!(NodeKind::Unpack.input_label(0), "in");
    assert_eq!(call(vec![WireType::Byte; 2], vec![]).input_label(1), "in[1]");
    assert_eq!(NodeKind::Constant(vec![]).input_label(12), "in[12]");
}

#[test]
fn input_labels_are_distinct() {
    let kinds = vec![
        NodeKind::And,
        NodeKind::Shl,
        NodeKind::Slice,
        NodeKind::Pack,
        NodeKind::Concat { count: 12 },
        call(vec![WireType::Byte; 11], vec![]),
    ];
    for k in &kinds {
        let labels: Vec<String> = (0..k.input_count()).map(|p| k.input_label(p)).collect();
        for p in 0..labels.len() {
            for q in p + 1..labels.len() {
                assert_ne!(labels[p], labels[q]);
            }
        }
    }
}
