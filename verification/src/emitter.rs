//! Binary module-encoding primitives of the WebAssembly binary format:
//! unsigned LEB128 integers, length-prefixed vectors, and the byte-value
//! tables (sections, value types, block types, opcodes, export kinds) a code
//! generator consumes. The numeric values are an external wire-format
//! contract and must be reproduced byte for byte.

use vstd::prelude::*;

verus! {

/// The unsigned little-endian base-128 encoding of `v`: seven payload bits
/// per byte, high bit set on every byte except the last.
pub open spec fn spec_leb128(v: nat) -> Seq<u8>
    decreases v,
{
    if v < 128 {
        seq![v as u8]
    } else {
        seq![(v % 128 + 128) as u8] + spec_leb128(v / 128)
    }
}

/// A standard unsigned LEB128 decoder over a complete byte sequence: the
/// sequence must be exactly one encoded integer, or the result is `None`.
pub open spec fn spec_leb128_decode(s: Seq<u8>) -> Option<nat>
    decreases s.len(),
{
    if s.len() == 0 {
        None
    } else if s[0] < 128 {
        if s.len() == 1 {
            Some(s[0] as nat)
        } else {
            None
        }
    } else {
        match spec_leb128_decode(s.drop_first()) {
            Option::None => None,
            Option::Some(rest) => Some((s[0] - 128) as nat + 128 * rest),
        }
    }
}

/// Relies on `leb128::write::unsigned`: it emits `val & 0x7f` with the
/// continuation bit 0x80 whenever `val >> 7` is nonzero, then shifts, until
/// the value is exhausted; writing to a `Vec` cannot fail.
#[verifier::external_body]
fn leb128_write_unsigned(value: u64) -> (r: Vec<u8>)
    ensures
        r@ == spec_leb128(value as nat),
{
    let mut result = Vec::new();
    let _ = leb128::write::unsigned(&mut result, value);
    result
}

/// Encodes `value` as unsigned LEB128.
pub fn unsigned_leb128(value: u64) -> (r: Vec<u8>)
    ensures
        r@ == spec_leb128(value as nat),
{
    leb128_write_unsigned(value)
}

/// The binary-format convention for vectors: the element bytes prefixed with
/// their LEB128-encoded count.
pub open spec fn spec_encode_vector(data: Seq<u8>) -> Seq<u8> {
    spec_leb128(data.len()) + data
}

/// Length-prefixes `data` as the binary format encodes vectors.
pub fn encode_vector(data: Vec<u8>) -> (r: Vec<u8>)
    ensures
        r@ == spec_encode_vector(data@),
{
    let mut data = data;
    let mut r = unsigned_leb128(data.len() as u64);
    r.append(&mut data);
    r
}

/// An encoded vector starts with the encoded length of its data and is
/// exactly that prefix followed by the data.
pub proof fn lemma_encode_vector_shape(data: Seq<u8>)
    ensures
        spec_encode_vector(data).len() == spec_leb128(data.len()).len() + data.len(),
        spec_encode_vector(data).subrange(0, spec_leb128(data.len()).len() as int) == spec_leb128(
            data.len(),
        ),
{
    assert(spec_encode_vector(data).subrange(0, spec_leb128(data.len()).len() as int)
        =~= spec_leb128(data.len()));
}

/// Decoding an unsigned LEB128 encoding with a standard decoder gives back
/// the encoded value.
pub proof fn lemma_leb128_round_trip(v: nat)
    ensures
        spec_leb128_decode(spec_leb128(v)) == Some(v),
    decreases v,
{
    if v < 128 {
    } else {
        lemma_leb128_round_trip(v / 128);
        assert(spec_leb128(v).drop_first() =~= spec_leb128(v / 128));
        assert((v % 128) + 128 * (v / 128) == v) by (nonlinear_arith);
    }
}

/// Section identifiers of the binary format.
pub enum Section {
    Custom,
    Type,
    Import,
    Func,
    Table,
    Memory,
    Global,
    Export,
    Start,
    Element,
    Code,
    Data,
}

impl Section {
    /// The byte value of this section identifier.
    pub open spec fn spec_byte(self) -> u8 {
        match self {
            Section::Custom => 0,
            Section::Type => 1,
            Section::Import => 2,
            Section::Func => 3,
            Section::Table => 4,
            Section::Memory => 5,
            Section::Global => 6,
            Section::Export => 7,
            Section::Start => 8,
            Section::Element => 9,
            Section::Code => 10,
            Section::Data => 11,
        }
    }

    #[verifier::when_used_as_spec(spec_byte)]
    pub fn byte(self) -> (b: u8)
        ensures
            b == self.spec_byte(),
    {
        match self {
            Section::Custom => 0,
            Section::Type => 1,
            Section::Import => 2,
            Section::Func => 3,
            Section::Table => 4,
            Section::Memory => 5,
            Section::Global => 6,
            Section::Export => 7,
            Section::Start => 8,
            Section::Element => 9,
            Section::Code => 10,
            Section::Data => 11,
        }
    }
}

/// Value types of the binary format.
pub enum Valtype {
    I32,
    F32,
}

impl Valtype {
    /// The byte value of this value type.
    pub open spec fn spec_byte(self) -> u8 {
        match self {
            Valtype::I32 => 0x7f,
            Valtype::F32 => 0x7d,
        }
    }

    #[verifier::when_used_as_spec(spec_byte)]
    pub fn byte(self) -> (b: u8)
        ensures
            b == self.spec_byte(),
    {
        match self {
            Valtype::I32 => 0x7f,
            Valtype::F32 => 0x7d,
        }
    }
}

/// Block types of the binary format.
pub enum Blocktype {
    Void,
}

impl Blocktype {
    /// The byte value of this block type.
    pub open spec fn spec_byte(self) -> u8 {
        match self {
            Blocktype::Void => 0x40,
        }
    }

    #[verifier::when_used_as_spec(spec_byte)]
    pub fn byte(self) -> (b: u8)
        ensures
            b == self.spec_byte(),
    {
        match self {
            Blocktype::Void => 0x40,
        }
    }
}

/// Instruction opcodes of the binary format.
pub enum Opcodes {
    Block,
    Loop,
    Br,
    BrIf,
    End,
    Call,
    GetLocal,
    SetLocal,
    I32Store8,
    I32Const,
    F32Const,
    I32Eqz,
    I32Eq,
    F32Eq,
    F32Lt,
    F32Gt,
    I32And,
    F32Add,
    F32Sub,
    F32Mul,
    F32Div,
    I32truncF32s,
}

impl Opcodes {
    /// The byte value of this opcode.
    pub open spec fn spec_byte(self) -> u8 {
        match self {
            Opcodes::Block => 0x02,
            Opcodes::Loop => 0x03,
            Opcodes::Br => 0x0c,
            Opcodes::BrIf => 0x0d,
            Opcodes::End => 0x0b,
            Opcodes::Call => 0x10,
            Opcodes::GetLocal => 0x20,
            Opcodes::SetLocal => 0x21,
            Opcodes::I32Store8 => 0x3a,
            Opcodes::I32Const => 0x41,
            Opcodes::F32Const => 0x43,
            Opcodes::I32Eqz => 0x45,
            Opcodes::I32Eq => 0x46,
            Opcodes::F32Eq => 0x5b,
            Opcodes::F32Lt => 0x5d,
            Opcodes::F32Gt => 0x5e,
            Opcodes::I32And => 0x71,
            Opcodes::F32Add => 0x92,
            Opcodes::F32Sub => 0x93,
            Opcodes::F32Mul => 0x94,
            Opcodes::F32Div => 0x95,
            Opcodes::I32truncF32s => 0xa8,
        }
    }

    #[verifier::when_used_as_spec(spec_byte)]
    pub fn byte(self) -> (b: u8)
        ensures
            b == self.spec_byte(),
    {
        match self {
            Opcodes::Block => 0x02,
            Opcodes::Loop => 0x03,
            Opcodes::Br => 0x0c,
            Opcodes::BrIf => 0x0d,
            Opcodes::End => 0x0b,
            Opcodes::Call => 0x10,
            Opcodes::GetLocal => 0x20,
            Opcodes::SetLocal => 0x21,
            Opcodes::I32Store8 => 0x3a,
            Opcodes::I32Const => 0x41,
            Opcodes::F32Const => 0x43,
            Opcodes::I32Eqz => 0x45,
            Opcodes::I32Eq => 0x46,
            Opcodes::F32Eq => 0x5b,
            Opcodes::F32Lt => 0x5d,
            Opcodes::F32Gt => 0x5e,
            Opcodes::I32And => 0x71,
            Opcodes::F32Add => 0x92,
            Opcodes::F32Sub => 0x93,
            Opcodes::F32Mul => 0x94,
            Opcodes::F32Div => 0x95,
            Opcodes::I32truncF32s => 0xa8,
        }
    }
}

/// Export kinds of the binary format.
pub enum ExportType {
    Func,
    Table,
    Mem,
    Global,
}

impl ExportType {
    /// The byte value of this export kind.
    pub open spec fn spec_byte(self) -> u8 {
        match self {
            ExportType::Func => 0x00,
            ExportType::Table => 0x01,
            ExportType::Mem => 0x02,
            ExportType::Global => 0x03,
        }
    }

    #[verifier::when_used_as_spec(spec_byte)]
    pub fn byte(self) -> (b: u8)
        ensures
            b == self.spec_byte(),
    {
        match self {
            ExportType::Func => 0x00,
            ExportType::Table => 0x01,
            ExportType::Mem => 0x02,
            ExportType::Global => 0x03,
        }
    }
}

/// The byte that introduces a function type.
pub const FUNCTION_TYPE: u8 = 0x60;

/// The encoding of an empty vector or type list.
pub const EMPTY_ARRAY: u8 = 0x0;

/// The four magic bytes that open every module.
pub fn magic_module_header() -> (r: Vec<u8>)
    ensures
        r@ == seq![0x00u8, 0x61u8, 0x73u8, 0x6du8],
{
    let mut r: Vec<u8> = Vec::new();
    r.push(0x00);
    r.push(0x61);
    r.push(0x73);
    r.push(0x6d);
    proof {
        assert(r@ =~= seq![0x00u8, 0x61u8, 0x73u8, 0x6du8]);
    }
    r
}

/// The four version bytes that follow the magic bytes.
pub fn module_version() -> (r: Vec<u8>)
    ensures
        r@ == seq![0x01u8, 0x00u8, 0x00u8, 0x00u8],
{
    let mut r: Vec<u8> = Vec::new();
    r.push(0x01);
    r.push(0x00);
    r.push(0x00);
    r.push(0x00);
    proof {
        assert(r@ =~= seq![0x01u8, 0x00u8, 0x00u8, 0x00u8]);
    }
    r
}

} // verus!
