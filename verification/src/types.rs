use vstd::prelude::*;

use crate::text::{append_decimal, append_hex, decimal, hex_digits, lemma_numbered_injective, string_of};

verus! {

/// The type carried by a wire between two pins.
#[derive(Clone, Copy, Debug, PartialEq, Eq, Structural)]
pub enum WireType {
    Bit,
    Byte,
    Word,
}

/// Mathematical model of a runtime value.
pub enum ValueModel {
    Bit(bool),
    Byte(u8),
    Word(u64),
    Bytes(Seq<u8>),
}

/// A runtime value flowing along a wire.
#[derive(Debug)]
pub enum NodeValue {
    Bit(bool),
    Byte(u8),
    Word(u64),
    /// Produced by `Concat`; travels on `Byte` wires.
    Bytes(Vec<u8>),
}

impl View for NodeValue {
    type V = ValueModel;

    open spec fn view(&self) -> ValueModel {
        match self {
            NodeValue::Bit(b) => ValueModel::Bit(*b),
            NodeValue::Byte(b) => ValueModel::Byte(*b),
            NodeValue::Word(w) => ValueModel::Word(*w),
            NodeValue::Bytes(v) => ValueModel::Bytes(v@),
        }
    }
}

/// The wire type on which a value travels.
pub open spec fn value_wire_type(v: ValueModel) -> WireType {
    match v {
        ValueModel::Bit(_) => WireType::Bit,
        ValueModel::Byte(_) => WireType::Byte,
        ValueModel::Word(_) => WireType::Word,
        ValueModel::Bytes(_) => WireType::Byte,
    }
}

/// The model of an optional value.
pub open spec fn opt_view(o: Option<NodeValue>) -> Option<ValueModel> {
    match o {
        Some(v) => Some(v@),
        None => None,
    }
}

impl WireType {
    /// Human-readable name of the wire type.
    pub fn label(self) -> (r: &'static str)
        ensures
            r@ == (match self {
                WireType::Bit => "Bit"@,
                WireType::Byte => "Byte"@,
                WireType::Word => "Word"@,
            }),
    {
        match self {
            WireType::Bit => "Bit",
            WireType::Byte => "Byte",
            WireType::Word => "Word",
        }
    }
}

impl Clone for NodeValue {
    fn clone(&self) -> (r: Self)
        ensures
            r@ == self@,
    {
        match self {
            NodeValue::Bit(b) => NodeValue::Bit(*b),
            NodeValue::Byte(b) => NodeValue::Byte(*b),
            NodeValue::Word(w) => NodeValue::Word(*w),
            NodeValue::Bytes(v) => NodeValue::Bytes(v.clone()),
        }
    }
}

/// Copies an optional value, keeping its model.
pub fn clone_opt_value(o: &Option<NodeValue>) -> (r: Option<NodeValue>)
    ensures
        opt_view(r) == opt_view(*o),
{
    match o {
        Some(v) => Some(v.clone()),
        None => None,
    }
}

impl NodeValue {
    /// The wire type on which this value travels.
    pub fn wire_type(&self) -> (r: WireType)
        ensures
            r == value_wire_type(self@),
    {
        match self {
            NodeValue::Bit(_) => WireType::Bit,
            NodeValue::Byte(_) => WireType::Byte,
            NodeValue::Word(_) => WireType::Word,
            NodeValue::Bytes(_) => WireType::Byte,
        }
    }

    /// The boolean inside a `Bit` value.
    pub fn as_bit(&self) -> (r: Option<bool>)
        ensures
            r == (match self@ {
                ValueModel::Bit(b) => Some(b),
                _ => None,
            }),
    {
        if let NodeValue::Bit(v) = self {
            Some(*v)
        } else {
            None
        }
    }

    /// The octet inside a `Byte` value.
    pub fn as_byte(&self) -> (r: Option<u8>)
        ensures
            r == (match self@ {
                ValueModel::Byte(b) => Some(b),
                _ => None,
            }),
    {
        if let NodeValue::Byte(v) = self {
            Some(*v)
        } else {
            None
        }
    }

    /// The machine word inside a `Word` value.
    pub fn as_word(&self) -> (r: Option<u64>)
        ensures
            r == (match self@ {
                ValueModel::Word(w) => Some(w),
                _ => None,
            }),
    {
        if let NodeValue::Word(v) = self {
            Some(*v)
        } else {
            None
        }
    }
}

/// The kind of a node in the editor. Nodes are untyped: the wire types that reach an
/// operation decide at which width it computes.
#[derive(Debug)]
pub enum NodeKind {
    Source { filename: String },
    Sink,
    Constant(Vec<NodeValue>),
    And,
    Or,
    Xor,
    Not,
    Nand,
    Nor,
    Shl,
    Shr,
    Add,
    Sub,
    Mul,
    Div,
    Mod,
    Concat { count: u8 },
    Slice,
    Pack,
    Unpack,
    FunctionCall {
        def_index: usize,
        /// Cached for display; `def_index` is the authoritative link.
        name: String,
        in_types: Vec<WireType>,
        out_types: Vec<WireType>,
    },
}

impl NodeKind {
    /// Number of input ports.
    #[verifier::allow_in_spec]
    pub fn input_count(&self) -> usize
        returns
            (match self {
                NodeKind::Source { .. } => 0usize,
                NodeKind::Sink => 1usize,
                NodeKind::Constant(_) => 0usize,
                NodeKind::Not | NodeKind::Unpack => 1usize,
                NodeKind::And | NodeKind::Or | NodeKind::Xor | NodeKind::Nand | NodeKind::Nor
                | NodeKind::Shl | NodeKind::Shr | NodeKind::Add | NodeKind::Sub | NodeKind::Mul
                | NodeKind::Div | NodeKind::Mod | NodeKind::Slice => 2usize,
                NodeKind::Pack => 8usize,
                NodeKind::Concat { count } => *count as usize,
                NodeKind::FunctionCall { in_types, .. } => in_types.len(),
            }),
    {
        match self {
            NodeKind::Source { .. } => 0,
            NodeKind::Sink => 1,
            NodeKind::Constant(_) => 0,
            NodeKind::Not | NodeKind::Unpack => 1,
            NodeKind::And | NodeKind::Or | NodeKind::Xor | NodeKind::Nand | NodeKind::Nor
            | NodeKind::Shl | NodeKind::Shr | NodeKind::Add | NodeKind::Sub | NodeKind::Mul
            | NodeKind::Div | NodeKind::Mod | NodeKind::Slice => 2,
            NodeKind::Pack => 8,
            NodeKind::Concat { count } => *count as usize,
            NodeKind::FunctionCall { in_types, .. } => in_types.len(),
        }
    }

    /// Number of output ports.
    #[verifier::allow_in_spec]
    pub fn output_count(&self) -> usize
        returns
            (match self {
                NodeKind::Source { .. } => 1usize,
                NodeKind::Sink => 0usize,
                NodeKind::Constant(vals) => vals.len(),
                NodeKind::Unpack => 8usize,
                NodeKind::FunctionCall { out_types, .. } => out_types.len(),
                _ => 1usize,
            }),
    {
        match self {
            NodeKind::Source { .. } => 1,
            NodeKind::Sink => 0,
            NodeKind::Constant(vals) => vals.len(),
            NodeKind::Unpack => 8,
            NodeKind::FunctionCall { out_types, .. } => out_types.len(),
            _ => 1,
        }
    }

    /// Wire type expected at input `port`.
    #[verifier::allow_in_spec]
    pub fn input_wire_type(&self, port: usize) -> WireType
        returns
            (match self {
                NodeKind::Slice => if port == 0 { WireType::Word } else { WireType::Byte },
                NodeKind::Pack => WireType::Bit,
                NodeKind::FunctionCall { in_types, .. } =>
                    if port < in_types.len() { in_types@[port as int] } else { WireType::Byte },
                _ => WireType::Byte,
            }),
    {
        match self {
            NodeKind::Sink | NodeKind::Concat { .. } => WireType::Byte,
            NodeKind::And | NodeKind::Or | NodeKind::Xor | NodeKind::Not | NodeKind::Nand
            | NodeKind::Nor | NodeKind::Shl | NodeKind::Shr | NodeKind::Add | NodeKind::Sub
            | NodeKind::Mul | NodeKind::Div | NodeKind::Mod => WireType::Byte,
            NodeKind::Slice => {
                if port == 0 {
                    WireType::Word
                } else {
                    WireType::Byte
                }
            },
            NodeKind::Pack => WireType::Bit,
            NodeKind::Unpack => WireType::Byte,
            NodeKind::FunctionCall { in_types, .. } => {
                if port < in_types.len() {
                    in_types[port]
                } else {
                    WireType::Byte
                }
            },
            _ => WireType::Byte,
        }
    }

    /// Wire type produced at output `port`.
    #[verifier::allow_in_spec]
    pub fn output_wire_type(&self, port: usize) -> WireType
        returns
            (match self {
                NodeKind::Constant(values) =>
                    if port < values.len() { value_wire_type(values@[port as int]@) } else { WireType::Byte },
                NodeKind::Unpack => WireType::Bit,
                NodeKind::FunctionCall { out_types, .. } =>
                    if port < out_types.len() { out_types@[port as int] } else { WireType::Byte },
                _ => WireType::Byte,
            }),
    {
        match self {
            NodeKind::Constant(values) => {
                if port < values.len() {
                    values[port].wire_type()
                } else {
                    WireType::Byte
                }
            },
            NodeKind::Unpack => WireType::Bit,
            NodeKind::FunctionCall { out_types, .. } => {
                if port < out_types.len() {
                    out_types[port]
                } else {
                    WireType::Byte
                }
            },
            _ => WireType::Byte,
        }
    }
}


/// Mathematical model of a node kind.
pub enum KindModel {
    Source { filename: Seq<char> },
    Sink,
    Constant(Seq<ValueModel>),
    And,
    Or,
    Xor,
    Not,
    Nand,
    Nor,
    Shl,
    Shr,
    Add,
    Sub,
    Mul,
    Div,
    Mod,
    Concat { count: u8 },
    Slice,
    Pack,
    Unpack,
    FunctionCall {
        def_index: usize,
        name: Seq<char>,
        in_types: Seq<WireType>,
        out_types: Seq<WireType>,
    },
}

/// The models of a sequence of values.
pub open spec fn values_view(values: Seq<NodeValue>) -> Seq<ValueModel> {
    values.map_values(|v: NodeValue| v@)
}

impl View for NodeKind {
    type V = KindModel;

    open spec fn view(&self) -> KindModel {
        match self {
            NodeKind::Source { filename } => KindModel::Source { filename: filename@ },
            NodeKind::Sink => KindModel::Sink,
            NodeKind::Constant(values) => KindModel::Constant(values_view(values@)),
            NodeKind::And => KindModel::And,
            NodeKind::Or => KindModel::Or,
            NodeKind::Xor => KindModel::Xor,
            NodeKind::Not => KindModel::Not,
            NodeKind::Nand => KindModel::Nand,
            NodeKind::Nor => KindModel::Nor,
            NodeKind::Shl => KindModel::Shl,
            NodeKind::Shr => KindModel::Shr,
            NodeKind::Add => KindModel::Add,
            NodeKind::Sub => KindModel::Sub,
            NodeKind::Mul => KindModel::Mul,
            NodeKind::Div => KindModel::Div,
            NodeKind::Mod => KindModel::Mod,
            NodeKind::Concat { count } => KindModel::Concat { count: *count },
            NodeKind::Slice => KindModel::Slice,
            NodeKind::Pack => KindModel::Pack,
            NodeKind::Unpack => KindModel::Unpack,
            NodeKind::FunctionCall { def_index, name, in_types, out_types } => KindModel::FunctionCall {
                def_index: *def_index,
                name: name@,
                in_types: in_types@,
                out_types: out_types@,
            },
        }
    }
}

/// Wire type expected at input `port` of a node of kind `k`.
pub open spec fn in_type_of(k: KindModel, port: usize) -> WireType {
    match k {
        KindModel::Slice => if port == 0 { WireType::Word } else { WireType::Byte },
        KindModel::Pack => WireType::Bit,
        KindModel::FunctionCall { in_types, .. } =>
            if port < in_types.len() { in_types[port as int] } else { WireType::Byte },
        _ => WireType::Byte,
    }
}

/// Wire type produced at output `port` of a node of kind `k`.
pub open spec fn out_type_of(k: KindModel, port: usize) -> WireType {
    match k {
        KindModel::Constant(values) =>
            if port < values.len() { value_wire_type(values[port as int]) } else { WireType::Byte },
        KindModel::Unpack => WireType::Bit,
        KindModel::FunctionCall { out_types, .. } =>
            if port < out_types.len() { out_types[port as int] } else { WireType::Byte },
        _ => WireType::Byte,
    }
}

/// The pin types of a node depend on its model only.
pub proof fn lemma_pin_types_by_model(k: &NodeKind, port: usize)
    ensures
        k.input_wire_type(port) == in_type_of(k@, port),
        k.output_wire_type(port) == out_type_of(k@, port),
{
}

/// Copies a sequence of values, keeping their models.
pub fn clone_values(values: &Vec<NodeValue>) -> (r: Vec<NodeValue>)
    ensures
        values_view(r@) == values_view(values@),
{
    let mut r: Vec<NodeValue> = Vec::new();
    let mut i: usize = 0;
    while i < values.len()
        invariant
            i <= values@.len(),
            r@.len() == i,
            forall|j: int| 0 <= j < i ==> r@[j]@ == values@[j]@,
        decreases values@.len() - i,
    {
        r.push(values[i].clone());
        i = i + 1;
    }
    assert(values_view(r@) =~= values_view(values@));
    r
}

/// Copies a sequence of wire types.
pub fn clone_wire_types(types: &Vec<WireType>) -> (r: Vec<WireType>)
    ensures
        r@ == types@,
{
    let mut r: Vec<WireType> = Vec::new();
    let mut i: usize = 0;
    while i < types.len()
        invariant
            i <= types@.len(),
            r@ == types@.subrange(0, i as int),
        decreases types@.len() - i,
    {
        r.push(types[i]);
        i = i + 1;
    }
    assert(r@ =~= types@);
    r
}

impl Clone for NodeKind {
    fn clone(&self) -> (r: Self)
        ensures
            r@ == self@,
    {
        match self {
            NodeKind::Source { filename } => NodeKind::Source { filename: filename.clone() },
            NodeKind::Sink => NodeKind::Sink,
            NodeKind::Constant(values) => NodeKind::Constant(clone_values(values)),
            NodeKind::And => NodeKind::And,
            NodeKind::Or => NodeKind::Or,
            NodeKind::Xor => NodeKind::Xor,
            NodeKind::Not => NodeKind::Not,
            NodeKind::Nand => NodeKind::Nand,
            NodeKind::Nor => NodeKind::Nor,
            NodeKind::Shl => NodeKind::Shl,
            NodeKind::Shr => NodeKind::Shr,
            NodeKind::Add => NodeKind::Add,
            NodeKind::Sub => NodeKind::Sub,
            NodeKind::Mul => NodeKind::Mul,
            NodeKind::Div => NodeKind::Div,
            NodeKind::Mod => NodeKind::Mod,
            NodeKind::Concat { count } => NodeKind::Concat { count: *count },
            NodeKind::Slice => NodeKind::Slice,
            NodeKind::Pack => NodeKind::Pack,
            NodeKind::Unpack => NodeKind::Unpack,
            NodeKind::FunctionCall { def_index, name, in_types, out_types } => NodeKind::FunctionCall {
                def_index: *def_index,
                name: name.clone(),
                in_types: clone_wire_types(in_types),
                out_types: clone_wire_types(out_types),
            },
        }
    }
}


/// Two upper-case hexadecimal digits of a byte.
pub open spec fn hex2(b: u8) -> Seq<char> {
    hex_digits(b as nat, 2, true)
}

/// The bytes of `s` in two-digit hexadecimal, separated by single spaces.
pub open spec fn joined_hex(s: Seq<u8>) -> Seq<char>
    decreases s.len(),
{
    if s.len() == 0 {
        Seq::empty()
    } else if s.len() == 1 {
        hex2(s[0])
    } else {
        joined_hex(s.drop_last()) + " "@ + hex2(s.last())
    }
}

/// The short text shown for a value: `0`/`1` for a bit, `0x` and two or sixteen
/// upper-case hexadecimal digits for a byte or a word, and for a byte stream its first
/// eight bytes in brackets, followed by ` …+` and the number of the others.
pub open spec fn short_display_of(v: ValueModel) -> Seq<char> {
    match v {
        ValueModel::Bit(b) => if b {
            "1"@
        } else {
            "0"@
        },
        ValueModel::Byte(x) => "0x"@ + hex_digits(x as nat, 2, true),
        ValueModel::Word(x) => "0x"@ + hex_digits(x as nat, 16, true),
        ValueModel::Bytes(bs) => "["@ + joined_hex(
            bs.take(
                if bs.len() > 8 {
                    8
                } else {
                    bs.len() as int
                },
            ),
        ) + (if bs.len() > 8 {
            " …+"@ + decimal((bs.len() - 8) as nat)
        } else {
            Seq::empty()
        }) + "]"@,
    }
}

impl NodeValue {
    /// Short text for a value, as shown next to an output pin.
    pub fn short_display(&self) -> (r: String)
        ensures
            r@ == short_display_of(self@),
    {
        match self {
            NodeValue::Bit(v) => {
                if *v {
                    string_of("1")
                } else {
                    string_of("0")
                }
            },
            NodeValue::Byte(v) => {
                let mut s = string_of("0x");
                append_hex(&mut s, *v as u64, 2, true);
                s
            },
            NodeValue::Word(v) => {
                let mut s = string_of("0x");
                append_hex(&mut s, *v, 16, true);
                s
            },
            NodeValue::Bytes(v) => {
                let mut s = string_of("[");
                let n: usize = if v.len() > 8 {
                    8
                } else {
                    v.len()
                };
                let mut i: usize = 0;
                while i < n
                    invariant
                        i <= n,
                        n <= v@.len(),
                        s@ == "["@ + joined_hex(v@.take(i as int)),
                    decreases n - i,
                {
                    let ghost before = s@;
                    if i > 0 {
                        s.append(" ");
                    }
                    append_hex(&mut s, v[i] as u64, 2, true);
                    proof {
                        assert(v@.take(i + 1).drop_last() =~= v@.take(i as int));
                        if i == 0 {
                            assert(v@.take(0) =~= Seq::<u8>::empty());
                            assert(s@ =~= "["@ + joined_hex(v@.take(i + 1)));
                        } else {
                            assert(s@ =~= "["@ + joined_hex(v@.take(i + 1)));
                        }
                    }
                    i = i + 1;
                }
                if v.len() > 8 {
                    s.append(" …+");
                    append_decimal(&mut s, (v.len() - 8) as u64);
                }
                s.append("]");
                proof {
                    if v@.len() > 8 {
                        assert(s@ =~= short_display_of(self@));
                    } else {
                        assert(s@ =~= short_display_of(self@));
                    }
                }
                s
            },
        }
    }
}

/// The title shown on a node.
pub open spec fn title_of(k: KindModel) -> Seq<char> {
    match k {
        KindModel::Source { .. } => "SOURCE"@,
        KindModel::Sink => "SINK"@,
        KindModel::Constant(_) => "CONSTANT"@,
        KindModel::And => "AND"@,
        KindModel::Or => "OR"@,
        KindModel::Xor => "XOR"@,
        KindModel::Not => "NOT"@,
        KindModel::Nand => "NAND"@,
        KindModel::Nor => "NOR"@,
        KindModel::Shl => "SHL"@,
        KindModel::Shr => "SHR"@,
        KindModel::Add => "ADD"@,
        KindModel::Sub => "SUB"@,
        KindModel::Mul => "MUL"@,
        KindModel::Div => "DIV"@,
        KindModel::Mod => "MOD"@,
        KindModel::Concat { count } => "CONCAT ("@ + decimal(count as nat) + ")"@,
        KindModel::Slice => "SLICE"@,
        KindModel::Pack => "PACK"@,
        KindModel::Unpack => "UNPACK"@,
        KindModel::FunctionCall { name, .. } => name,
    }
}

/// The label of input `port`.
pub open spec fn input_label_of(k: KindModel, port: usize) -> Seq<char> {
    match k {
        KindModel::Sink => "in"@,
        KindModel::And | KindModel::Or | KindModel::Xor | KindModel::Nand | KindModel::Nor
        | KindModel::Add | KindModel::Sub | KindModel::Mul | KindModel::Div | KindModel::Mod => {
            if port == 0 {
                "a"@
            } else {
                "b"@
            }
        },
        KindModel::Not => "a"@,
        KindModel::Shl | KindModel::Shr => if port == 0 {
            "a"@
        } else {
            "amount"@
        },
        KindModel::Slice => if port == 0 {
            "in"@
        } else {
            "offset"@
        },
        KindModel::Pack => "bit["@ + decimal(port as nat) + "]"@,
        KindModel::Unpack => "in"@,
        _ => "in["@ + decimal(port as nat) + "]"@,
    }
}

/// The input pins of a node have pairwise different labels.
pub proof fn law_input_labels_distinct(k: NodeKind, p: usize, q: usize)
    requires
        p < q < k.input_count(),
    ensures
        input_label_of(k@, p) != input_label_of(k@, q),
{
    reveal_strlit("a");
    reveal_strlit("b");
    reveal_strlit("amount");
    reveal_strlit("in");
    reveal_strlit("offset");
    match k@ {
        KindModel::Pack => {
            if input_label_of(k@, p) == input_label_of(k@, q) {
                lemma_numbered_injective("bit["@, p as nat, q as nat, "]"@);
            }
        },
        KindModel::Concat { .. } | KindModel::FunctionCall { .. } => {
            if input_label_of(k@, p) == input_label_of(k@, q) {
                lemma_numbered_injective("in["@, p as nat, q as nat, "]"@);
            }
        },
        _ => {
            assert("a"@[0] != "b"@[0]);
            assert("a"@.len() != "amount"@.len());
            assert("in"@.len() != "offset"@.len());
        },
    }
}

/// `prefix`, the decimal numeral of `n`, then `suffix`.
fn numbered(prefix: &str, n: u64, suffix: &str) -> (r: String)
    ensures
        r@ == prefix@ + decimal(n as nat) + suffix@,
{
    let mut s = string_of(prefix);
    append_decimal(&mut s, n);
    s.append(suffix);
    s
}

impl NodeKind {
    /// The title shown on the node.
    pub fn node_title(&self) -> (r: String)
        ensures
            r@ == title_of(self@),
    {
        match self {
            NodeKind::Source { .. } => string_of("SOURCE"),
            NodeKind::Sink => string_of("SINK"),
            NodeKind::Constant(_) => string_of("CONSTANT"),
            NodeKind::And => string_of("AND"),
            NodeKind::Or => string_of("OR"),
            NodeKind::Xor => string_of("XOR"),
            NodeKind::Not => string_of("NOT"),
            NodeKind::Nand => string_of("NAND"),
            NodeKind::Nor => string_of("NOR"),
            NodeKind::Shl => string_of("SHL"),
            NodeKind::Shr => string_of("SHR"),
            NodeKind::Add => string_of("ADD"),
            NodeKind::Sub => string_of("SUB"),
            NodeKind::Mul => string_of("MUL"),
            NodeKind::Div => string_of("DIV"),
            NodeKind::Mod => string_of("MOD"),
            NodeKind::Concat { count } => numbered("CONCAT (", *count as u64, ")"),
            NodeKind::Slice => string_of("SLICE"),
            NodeKind::Pack => string_of("PACK"),
            NodeKind::Unpack => string_of("UNPACK"),
            NodeKind::FunctionCall { name, .. } => name.clone(),
        }
    }

    /// The label of input `port`.
    pub fn input_label(&self, port: usize) -> (r: String)
        ensures
            r@ == input_label_of(self@, port),
    {
        match self {
            NodeKind::Sink => string_of("in"),
            NodeKind::And | NodeKind::Or | NodeKind::Xor | NodeKind::Nand | NodeKind::Nor
            | NodeKind::Add | NodeKind::Sub | NodeKind::Mul | NodeKind::Div | NodeKind::Mod => {
                if port == 0 {
                    string_of("a")
                } else {
                    string_of("b")
                }
            },
            NodeKind::Not => string_of("a"),
            NodeKind::Shl | NodeKind::Shr => {
                if port == 0 {
                    string_of("a")
                } else {
                    string_of("amount")
                }
            },
            NodeKind::Concat { .. } => numbered("in[", port as u64, "]"),
            NodeKind::Slice => {
                if port == 0 {
                    string_of("in")
                } else {
                    string_of("offset")
                }
            },
            NodeKind::Pack => numbered("bit[", port as u64, "]"),
            NodeKind::Unpack => string_of("in"),
            _ => numbered("in[", port as u64, "]"),
        }
    }
}

} // verus!
