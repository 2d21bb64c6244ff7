use synq_codec::synq::bytecode::{Instruction, OpCode, Register};
use synq_codec::synq::compiler::{compile_ast, map_attribute_key};
use synq_codec::error::ParseError;
use synq_codec::synq::lexer::try_tokenize;
use synq_codec::synq::parser::Parser;
use synq_codec::synq::try_compile;

fn compile(input: &str) -> Vec<u8> {
    try_compile(input).unwrap().unwrap()
}

#[test]
fn frame_with_attributes() {
    let bytes = compile("@codec minimal\n@over NATS\n@x\nframe Block {\n  sender u64\n  receiver u64\n}\n");
    assert_eq!(
        bytes,
        vec![0x20, 0, 0x01, 0x20, 0, 0x02, 0x20, 0, 0xFF, 0x10, 0x12, 0, 0, 0x12, 1, 1, 0x11, 0]
    );
}

#[test]
fn photons_follow_frames() {
    let bytes = compile("synq S {\nmessage a(A) returns (B) {}\nmessage b(B) returns (C) {}\n}\nframe F {\n}\n");
    assert_eq!(bytes, vec![0x10, 0x11, 0, 0x14, 0x16, 0, 1, 0x16, 1, 2, 0x15]);
}

#[test]
fn empty_source_compiles_to_nothing() {
    assert_eq!(compile("package x"), Vec::<u8>::new());
}

#[test]
fn attribute_keys() {
    assert_eq!(map_attribute_key("codec"), 0x01);
    assert_eq!(map_attribute_key("over"), 0x02);
    assert_eq!(map_attribute_key("other"), 0xFF);
}

#[test]
fn opcodes() {
    assert_eq!(OpCode::ReadU8.code(), 0x01);
    assert_eq!(OpCode::WriteString.code(), 0x0A);
    assert_eq!(OpCode::BeginFrame.code(), 0x10);
    assert_eq!(OpCode::DefMessage.code(), 0x16);
    assert_eq!(OpCode::LoadAttr.code(), 0x20);
    assert_eq!(OpCode::JumpIfNull.code(), 0x21);
    assert_eq!(OpCode::Yield.code(), 0xFF);
}

#[test]
fn emit_each_instruction() {
    let cases = vec![
        (Instruction::ReadU64 { dest: Register(3) }, vec![0x03, 3]),
        (Instruction::WriteU64 { src: Register(4) }, vec![0x04, 4]),
        (Instruction::ReadF64 { dest: Register(5) }, vec![0x05, 5]),
        (Instruction::WriteF64 { src: Register(6) }, vec![0x06, 6]),
        (Instruction::BeginFrame, vec![0x10]),
        (Instruction::EndFrame { src: Register(7) }, vec![0x11, 7]),
        (Instruction::StoreField { src: Register(1), index: 2 }, vec![0x12, 1, 2]),
        (Instruction::LoadField { dest: Register(1), index: 9 }, vec![0x13, 1, 9]),
        (Instruction::BeginPhoton, vec![0x14]),
        (Instruction::EndPhoton, vec![0x15]),
        (Instruction::DefMessage { req_frame: 4, res_frame: 5 }, vec![0x16, 4, 5]),
        (Instruction::LoadAttr { dest: Register(0), attr_id: 2 }, vec![0x20, 0, 2]),
        (Instruction::Yield { src: Register(8) }, vec![0xFF, 8]),
    ];
    for (inst, expected) in cases {
        let mut buf = vec![0xAA];
        inst.emit(&mut buf);
        let mut want = vec![0xAA];
        want.extend(expected);
        assert_eq!(buf, want);
    }
}

#[test]
fn field_positions_wrap_at_256() {
    let mut src = String::from("frame F {\n");
    for i in 0..257 {
        src.push_str(&format!("  f{} u8\n", i));
    }
    src.push_str("}\n");
    let bytes = compile(&src);
    assert_eq!(bytes.len(), 1 + 3 * 257 + 2);
    let last = &bytes[1 + 3 * 256..1 + 3 * 257];
    assert_eq!(last, &[0x12, 0, 0]);
}

#[test]
fn compiling_in_stages_gives_the_same_bytes() {
    let input = "@codec minimal\nframe Block {\n  sender u64\n}\nsynq S {\nmessage a(Block) returns (Block) {}\n}\n";
    let tokens = try_tokenize(input).unwrap().unwrap();
    let mut parser = Parser::new(&tokens);
    let ast = parser.parse().unwrap();
    assert_eq!(compile_ast(&ast), compile(input));
}

#[test]
fn try_compile_reports_a_lexer_error() {
    match try_compile("frame A {\n  $x u8\n}") {
        Some(Err(ParseError::Unexpected { typ, line, col })) => {
            assert_eq!((typ.as_str(), line, col), ("$", 1, 2));
        }
        _ => panic!("expected an error"),
    }
}

#[test]
fn try_compile_reports_a_parser_error() {
    match try_compile("frame A {\noptional") {
        Some(Err(ParseError::Unexpected { typ, line, col })) => {
            assert_eq!((typ.as_str(), line, col), ("EOF", 1, 8));
        }
        _ => panic!("expected an error"),
    }
}

#[test]
fn try_compile_reports_a_panicking_input() {
    assert!(try_compile(">$").is_none());
    assert!(try_compile("const").is_none());
}
