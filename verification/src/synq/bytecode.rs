//! The instructions of the compiled form and their byte encoding.
use vstd::prelude::*;

verus! {

/// The operation codes; [`OpCode::code`] gives each one's byte.
#[derive(Debug, Clone, Copy, PartialEq, Eq, Structural)]
pub enum OpCode {
    ReadU8,
    WriteU8,
    ReadU64,
    WriteU64,
    ReadF64,
    WriteF64,
    ReadVarint,
    WriteVarint,
    ReadString,
    WriteString,
    BeginFrame,
    EndFrame,
    StoreField,
    LoadField,
    BeginPhoton,
    EndPhoton,
    DefMessage,
    LoadAttr,
    JumpIfNull,
    Yield,
}

/// The byte that stands for each operation.
pub open spec fn op_byte(op: OpCode) -> u8 {
    match op {
        OpCode::ReadU8 => 0x01,
        OpCode::WriteU8 => 0x02,
        OpCode::ReadU64 => 0x03,
        OpCode::WriteU64 => 0x04,
        OpCode::ReadF64 => 0x05,
        OpCode::WriteF64 => 0x06,
        OpCode::ReadVarint => 0x07,
        OpCode::WriteVarint => 0x08,
        OpCode::ReadString => 0x09,
        OpCode::WriteString => 0x0A,
        OpCode::BeginFrame => 0x10,
        OpCode::EndFrame => 0x11,
        OpCode::StoreField => 0x12,
        OpCode::LoadField => 0x13,
        OpCode::BeginPhoton => 0x14,
        OpCode::EndPhoton => 0x15,
        OpCode::DefMessage => 0x16,
        OpCode::LoadAttr => 0x20,
        OpCode::JumpIfNull => 0x21,
        OpCode::Yield => 0xFF,
    }
}

impl OpCode {
    /// The byte that stands for this operation.
    pub fn code(self) -> (res: u8)
        ensures
            res == op_byte(self),
    {
        match self {
            OpCode::ReadU8 => 0x01,
            OpCode::WriteU8 => 0x02,
            OpCode::ReadU64 => 0x03,
            OpCode::WriteU64 => 0x04,
            OpCode::ReadF64 => 0x05,
            OpCode::WriteF64 => 0x06,
            OpCode::ReadVarint => 0x07,
            OpCode::WriteVarint => 0x08,
            OpCode::ReadString => 0x09,
            OpCode::WriteString => 0x0A,
            OpCode::BeginFrame => 0x10,
            OpCode::EndFrame => 0x11,
            OpCode::StoreField => 0x12,
            OpCode::LoadField => 0x13,
            OpCode::BeginPhoton => 0x14,
            OpCode::EndPhoton => 0x15,
            OpCode::DefMessage => 0x16,
            OpCode::LoadAttr => 0x20,
            OpCode::JumpIfNull => 0x21,
            OpCode::Yield => 0xFF,
        }
    }
}

/// A register number.
#[derive(Debug, Clone, Copy, PartialEq, Eq, Structural)]
pub struct Register(pub u8);

/// One instruction.
#[derive(Debug, Clone, PartialEq, Eq, Structural)]
pub enum Instruction {
    ReadU8 { dest: Register },
    WriteU8 { src: Register },
    ReadU64 { dest: Register },
    WriteU64 { src: Register },
    ReadF64 { dest: Register },
    WriteF64 { src: Register },
    ReadVarint { dest: Register },
    WriteVarint { src: Register },
    ReadString { dest: Register },
    WriteString { src: Register },
    BeginFrame,
    EndFrame { src: Register },
    StoreField { src: Register, index: u8 },
    LoadField { dest: Register, index: u8 },
    BeginPhoton,
    EndPhoton,
    DefMessage { req_frame: u8, res_frame: u8 },
    LoadAttr { dest: Register, attr_id: u8 },
    Yield { src: Register },
}

/// The instructions that have an encoding: all but the byte, varint and
/// string reads and writes.
pub open spec fn has_encoding(i: Instruction) -> bool {
    !(i is ReadU8 || i is WriteU8 || i is ReadVarint || i is WriteVarint || i is ReadString
        || i is WriteString)
}

/// The bytes of an instruction: its operation byte, then its operands in
/// the order they are declared.
pub open spec fn encode(i: Instruction) -> Seq<u8> {
    match i {
        Instruction::ReadU64 { dest } => seq![op_byte(OpCode::ReadU64), dest.0],
        Instruction::WriteU64 { src } => seq![op_byte(OpCode::WriteU64), src.0],
        Instruction::ReadF64 { dest } => seq![op_byte(OpCode::ReadF64), dest.0],
        Instruction::WriteF64 { src } => seq![op_byte(OpCode::WriteF64), src.0],
        Instruction::BeginFrame => seq![op_byte(OpCode::BeginFrame)],
        Instruction::EndFrame { src } => seq![op_byte(OpCode::EndFrame), src.0],
        Instruction::StoreField { src, index } => seq![op_byte(OpCode::StoreField), src.0, index],
        Instruction::LoadField { dest, index } => seq![op_byte(OpCode::LoadField), dest.0, index],
        Instruction::BeginPhoton => seq![op_byte(OpCode::BeginPhoton)],
        Instruction::EndPhoton => seq![op_byte(OpCode::EndPhoton)],
        Instruction::DefMessage { req_frame, res_frame } => seq![
            op_byte(OpCode::DefMessage),
            req_frame,
            res_frame,
        ],
        Instruction::LoadAttr { dest, attr_id } => seq![op_byte(OpCode::LoadAttr), dest.0, attr_id],
        Instruction::Yield { src } => seq![op_byte(OpCode::Yield), src.0],
        _ => Seq::empty(),
    }
}

/// The bytes of a sequence of instructions, one after the other.
pub open spec fn encode_all(is: Seq<Instruction>) -> Seq<u8>
    decreases is.len(),
{
    if is.len() == 0 {
        Seq::empty()
    } else {
        encode_all(is.drop_last()) + encode(is.last())
    }
}

impl Instruction {
    /// Appends the bytes of this instruction to `buf`.
    pub fn emit(&self, buf: &mut Vec<u8>)
        requires
            has_encoding(*self),
        ensures
            final(buf)@ == old(buf)@ + encode(*self),
    {
        match self {
            Instruction::ReadU64 { dest } => {
                buf.push(OpCode::ReadU64.code());
                buf.push(dest.0);
            },
            Instruction::WriteU64 { src } => {
                buf.push(OpCode::WriteU64.code());
                buf.push(src.0);
            },
            Instruction::ReadF64 { dest } => {
                buf.push(OpCode::ReadF64.code());
                buf.push(dest.0);
            },
            Instruction::WriteF64 { src } => {
                buf.push(OpCode::WriteF64.code());
                buf.push(src.0);
            },
            Instruction::BeginFrame => {
                buf.push(OpCode::BeginFrame.code());
            },
            Instruction::EndFrame { src } => {
                buf.push(OpCode::EndFrame.code());
                buf.push(src.0);
            },
            Instruction::StoreField { src, index } => {
                buf.push(OpCode::StoreField.code());
                buf.push(src.0);
                buf.push(*index);
            },
            Instruction::LoadField { dest, index } => {
                buf.push(OpCode::LoadField.code());
                buf.push(dest.0);
                buf.push(*index);
            },
            Instruction::BeginPhoton => {
                buf.push(OpCode::BeginPhoton.code());
            },
            Instruction::EndPhoton => {
                buf.push(OpCode::EndPhoton.code());
            },
            Instruction::DefMessage { req_frame, res_frame } => {
                buf.push(OpCode::DefMessage.code());
                buf.push(*req_frame);
                buf.push(*res_frame);
            },
            Instruction::LoadAttr { dest, attr_id } => {
                buf.push(OpCode::LoadAttr.code());
                buf.push(dest.0);
                buf.push(*attr_id);
            },
            Instruction::Yield { src } => {
                buf.push(OpCode::Yield.code());
                buf.push(src.0);
            },
            _ => {},
        }
        assert(buf@ =~= old(buf)@ + encode(*self));
    }
}

/// The instruction at the start of `b` and the number of its bytes, if
/// `b` starts with one that has an encoding.
pub open spec fn decode_one(b: Seq<u8>) -> Option<(Instruction, int)> {
    if b.len() == 0 {
        None
    } else {
        let op = b[0];
        if op == 0x10u8 {
            Some((Instruction::BeginFrame, 1))
        } else if op == 0x14u8 {
            Some((Instruction::BeginPhoton, 1))
        } else if op == 0x15u8 {
            Some((Instruction::EndPhoton, 1))
        } else if b.len() < 2 {
            None
        } else if op == 0x03u8 {
            Some((Instruction::ReadU64 { dest: Register(b[1]) }, 2))
        } else if op == 0x04u8 {
            Some((Instruction::WriteU64 { src: Register(b[1]) }, 2))
        } else if op == 0x05u8 {
            Some((Instruction::ReadF64 { dest: Register(b[1]) }, 2))
        } else if op == 0x06u8 {
            Some((Instruction::WriteF64 { src: Register(b[1]) }, 2))
        } else if op == 0x11u8 {
            Some((Instruction::EndFrame { src: Register(b[1]) }, 2))
        } else if op == 0xFFu8 {
            Some((Instruction::Yield { src: Register(b[1]) }, 2))
        } else if b.len() < 3 {
            None
        } else if op == 0x12u8 {
            Some((Instruction::StoreField { src: Register(b[1]), index: b[2] }, 3))
        } else if op == 0x13u8 {
            Some((Instruction::LoadField { dest: Register(b[1]), index: b[2] }, 3))
        } else if op == 0x16u8 {
            Some((Instruction::DefMessage { req_frame: b[1], res_frame: b[2] }, 3))
        } else if op == 0x20u8 {
            Some((Instruction::LoadAttr { dest: Register(b[1]), attr_id: b[2] }, 3))
        } else {
            None
        }
    }
}

/// The instructions that `b` encodes, read from the front, if it is a
/// whole number of encoded instructions.
pub open spec fn decode_all(b: Seq<u8>) -> Option<Seq<Instruction>>
    decreases b.len(),
{
    if b.len() == 0 {
        Some(Seq::empty())
    } else {
        match decode_one(b) {
            Some((i, n)) => if 0 < n <= b.len() {
                match decode_all(b.skip(n)) {
                    Some(rest) => Some(seq![i] + rest),
                    None => None,
                }
            } else {
                None
            },
            None => None,
        }
    }
}

/// The bytes of two sequences of instructions are those of the first, then
/// those of the second.
pub proof fn lemma_encode_all_concat(a: Seq<Instruction>, b: Seq<Instruction>)
    ensures
        encode_all(a + b) == encode_all(a) + encode_all(b),
    decreases b.len(),
{
    if b.len() == 0 {
        assert(a + b =~= a);
        assert(encode_all(a) + encode_all(b) =~= encode_all(a));
    } else {
        lemma_encode_all_concat(a, b.drop_last());
        assert((a + b).drop_last() =~= a + b.drop_last());
        assert((a + b).last() == b.last());
        assert(encode_all(a + b) =~= encode_all(a) + encode_all(b));
    }
}

proof fn lemma_decode_one(i: Instruction, rest: Seq<u8>)
    requires
        has_encoding(i),
    ensures
        encode(i).len() >= 1,
        decode_one(encode(i) + rest) == Some((i, encode(i).len() as int)),
{
    let e = encode(i) + rest;
    match i {
        Instruction::ReadU64 { dest } => assert(e[0] == 0x03u8 && e[1] == dest.0),
        Instruction::WriteU64 { src } => assert(e[0] == 0x04u8 && e[1] == src.0),
        Instruction::ReadF64 { dest } => assert(e[0] == 0x05u8 && e[1] == dest.0),
        Instruction::WriteF64 { src } => assert(e[0] == 0x06u8 && e[1] == src.0),
        Instruction::BeginFrame => assert(e[0] == 0x10u8),
        Instruction::EndFrame { src } => assert(e[0] == 0x11u8 && e[1] == src.0),
        Instruction::StoreField { src, index } => assert(e[0] == 0x12u8 && e[1] == src.0 && e[2]
            == index),
        Instruction::LoadField { dest, index } => assert(e[0] == 0x13u8 && e[1] == dest.0 && e[2]
            == index),
        Instruction::BeginPhoton => assert(e[0] == 0x14u8),
        Instruction::EndPhoton => assert(e[0] == 0x15u8),
        Instruction::DefMessage { req_frame, res_frame } => assert(e[0] == 0x16u8 && e[1]
            == req_frame && e[2] == res_frame),
        Instruction::LoadAttr { dest, attr_id } => assert(e[0] == 0x20u8 && e[1] == dest.0 && e[2]
            == attr_id),
        Instruction::Yield { src } => assert(e[0] == 0xFFu8 && e[1] == src.0),
        _ => {},
    }
}

/// Law: the bytes of a sequence of instructions that all have an encoding
/// decode back to that sequence.
pub proof fn law_decode_inverts_encode(is: Seq<Instruction>)
    requires
        forall|k: int| 0 <= k < is.len() ==> has_encoding(#[trigger] is[k]),
    ensures
        decode_all(encode_all(is)) == Some(is),
    decreases is.len(),
{
    if is.len() > 0 {
        let i = is[0];
        let rest = is.skip(1);
        assert(is =~= seq![i] + rest);
        lemma_encode_all_concat(seq![i], rest);
        assert(seq![i].drop_last() =~= Seq::<Instruction>::empty());
        assert(encode_all(Seq::<Instruction>::empty()) =~= Seq::<u8>::empty());
        assert(seq![i].last() == i);
        assert(encode_all(seq![i]) =~= encode(i));
        lemma_decode_one(i, encode_all(rest));
        let b = encode(i) + encode_all(rest);
        assert(b.skip(encode(i).len() as int) =~= encode_all(rest));
        law_decode_inverts_encode(rest);
        assert(seq![i] + rest =~= is);
    }
}

/// Law: two sequences of instructions that have an encoding and encode to
/// the same bytes are the same sequence.
pub proof fn law_encode_all_injective(a: Seq<Instruction>, b: Seq<Instruction>)
    requires
        forall|k: int| 0 <= k < a.len() ==> has_encoding(#[trigger] a[k]),
        forall|k: int| 0 <= k < b.len() ==> has_encoding(#[trigger] b[k]),
        encode_all(a) == encode_all(b),
    ensures
        a == b,
{
    law_decode_inverts_encode(a);
    law_decode_inverts_encode(b);
}

} // verus!
