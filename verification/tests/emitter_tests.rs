use compiler::emitter::{
    encode_vector, magic_module_header, module_version, unsigned_leb128, Blocktype, ExportType,
    Opcodes, Section, Valtype, EMPTY_ARRAY, FUNCTION_TYPE,
};

#[test]
fn leb128_small_values() {
    assert_eq!(unsigned_leb128(0), vec![0x00]);
    assert_eq!(unsigned_leb128(1), vec![0x01]);
    assert_eq!(unsigned_leb128(127), vec![0x7f]);
}

#[test]
fn leb128_multi_byte_values() {
    assert_eq!(unsigned_leb128(128), vec![0x80, 0x01]);
    assert_eq!(unsigned_leb128(16384), vec![0x80, 0x80, 0x01]);
    assert_eq!(unsigned_leb128(624485), vec![0xe5, 0x8e, 0x26]);
}

#[test]
fn leb128_max_value() {
    assert_eq!(
        unsigned_leb128(u64::MAX),
        vec![0xff, 0xff, 0xff, 0xff, 0xff, 0xff, 0xff, 0xff, 0xff, 0x01]
    );
}

#[test]
fn leb128_round_trips_through_standard_decoder() {
    for value in [0u64, 1, 127, 128, 16384, u64::MAX] {
        let encoded = unsigned_leb128(value);
        let mut reader = encoded.as_slice();
        let decoded = leb128::read::unsigned(&mut reader).unwrap();
        assert_eq!(decoded, value);
        assert!(reader.is_empty(), "decoder must consume the whole encoding");
    }
}

#[test]
fn encode_vector_prefixes_length() {
    let data = vec![9u8, 8, 7];
    let encoded = encode_vector(data.clone());
    let prefix = unsigned_leb128(data.len() as u64);
    assert_eq!(encoded.len(), prefix.len() + data.len());
    assert_eq!(&encoded[..prefix.len()], prefix.as_slice());
    assert_eq!(&encoded[prefix.len()..], data.as_slice());
}

#[test]
fn encode_vector_long_data() {
    let data = vec![0xabu8; 200];
    let encoded = encode_vector(data.clone());
    // 200 needs two LEB128 bytes: 0xc8 0x01.
    assert_eq!(encoded.len(), 202);
    assert_eq!(&encoded[..2], &[0xc8, 0x01]);
    assert_eq!(&encoded[2..], data.as_slice());
}

#[test]
fn encode_vector_empty() {
    let encoded = encode_vector(vec![]);
    assert_eq!(encoded, vec![0x00]);
}

#[test]
fn section_bytes() {
    assert_eq!(Section::Custom.byte(), 0);
    assert_eq!(Section::Type.byte(), 1);
    assert_eq!(Section::Import.byte(), 2);
    assert_eq!(Section::Func.byte(), 3);
    assert_eq!(Section::Table.byte(), 4);
    assert_eq!(Section::Memory.byte(), 5);
    assert_eq!(Section::Global.byte(), 6);
    assert_eq!(Section::Export.byte(), 7);
    assert_eq!(Section::Start.byte(), 8);
    assert_eq!(Section::Element.byte(), 9);
    assert_eq!(Section::Code.byte(), 10);
    assert_eq!(Section::Data.byte(), 11);
}

#[test]
fn valtype_and_blocktype_bytes() {
    assert_eq!(Valtype::I32.byte(), 0x7f);
    assert_eq!(Valtype::F32.byte(), 0x7d);
    assert_eq!(Blocktype::Void.byte(), 0x40);
}

#[test]
fn opcode_bytes() {
    assert_eq!(Opcodes::Block.byte(), 0x02);
    assert_eq!(Opcodes::Loop.byte(), 0x03);
    assert_eq!(Opcodes::Br.byte(), 0x0c);
    assert_eq!(Opcodes::BrIf.byte(), 0x0d);
    assert_eq!(Opcodes::End.byte(), 0x0b);
    assert_eq!(Opcodes::Call.byte(), 0x10);
    assert_eq!(Opcodes::GetLocal.byte(), 0x20);
    assert_eq!(Opcodes::SetLocal.byte(), 0x21);
    assert_eq!(Opcodes::I32Store8.byte(), 0x3a);
    assert_eq!(Opcodes::I32Const.byte(), 0x41);
    assert_eq!(Opcodes::F32Const.byte(), 0x43);
    assert_eq!(Opcodes::I32Eqz.byte(), 0x45);
    assert_eq!(Opcodes::I32Eq.byte(), 0x46);
    assert_eq!(Opcodes::F32Eq.byte(), 0x5b);
    assert_eq!(Opcodes::F32Lt.byte(), 0x5d);
    assert_eq!(Opcodes::F32Gt.byte(), 0x5e);
    assert_eq!(Opcodes::I32And.byte(), 0x71);
    assert_eq!(Opcodes::F32Add.byte(), 0x92);
    assert_eq!(Opcodes::F32Sub.byte(), 0x93);
    assert_eq!(Opcodes::F32Mul.byte(), 0x94);
    assert_eq!(Opcodes::F32Div.byte(), 0x95);
    assert_eq!(Opcodes::I32truncF32s.byte(), 0xa8);
}

#[test]
fn export_type_bytes() {
    assert_eq!(ExportType::Func.byte(), 0x00);
    assert_eq!(ExportType::Table.byte(), 0x01);
    assert_eq!(ExportType::Mem.byte(), 0x02);
    assert_eq!(ExportType::Global.byte(), 0x03);
}

#[test]
fn module_header_constants() {
    assert_eq!(magic_module_header(), vec![0x00, 0x61, 0x73, 0x6d]);
    assert_eq!(module_version(), vec![0x01, 0x00, 0x00, 0x00]);
    assert_eq!(FUNCTION_TYPE, 0x60);
    assert_eq!(EMPTY_ARRAY, 0x00);
}
