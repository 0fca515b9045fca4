//! The bytecode container: instruction bytes, a line per byte, and a constant pool.
use crate::value::{Value, ValueModel};
use vstd::prelude::*;

verus! {

/// The operations of the virtual machine, one byte each.
#[derive(Debug, Clone, Copy, PartialEq, Eq, Structural)]
pub enum OpCode {
    Return,
    Add,
    Subtract,
    Multiply,
    Divide,
    Negate,
    Constant,
    Null,
    True,
    False,
    Equal,
    Greater,
    Less,
    Not,
    Print,
    JumpIfFalse,
    Pop,
    DefineGlobal,
    GetGlobal,
    SetGlobal,
}

pub open spec fn op_byte(op: OpCode) -> u8 {
    match op {
        OpCode::Return => 0,
        OpCode::Add => 1,
        OpCode::Subtract => 2,
        OpCode::Multiply => 3,
        OpCode::Divide => 4,
        OpCode::Negate => 5,
        OpCode::Constant => 6,
        OpCode::Null => 7,
        OpCode::True => 8,
        OpCode::False => 9,
        OpCode::Equal => 10,
        OpCode::Greater => 11,
        OpCode::Less => 12,
        OpCode::Not => 13,
        OpCode::Print => 14,
        OpCode::JumpIfFalse => 15,
        OpCode::Pop => 16,
        OpCode::DefineGlobal => 17,
        OpCode::GetGlobal => 18,
        OpCode::SetGlobal => 19,
    }
}

pub open spec fn decode_spec(b: u8) -> Option<OpCode> {
    if b == 0 { Some(OpCode::Return) }
    else if b == 1 { Some(OpCode::Add) }
    else if b == 2 { Some(OpCode::Subtract) }
    else if b == 3 { Some(OpCode::Multiply) }
    else if b == 4 { Some(OpCode::Divide) }
    else if b == 5 { Some(OpCode::Negate) }
    else if b == 6 { Some(OpCode::Constant) }
    else if b == 7 { Some(OpCode::Null) }
    else if b == 8 { Some(OpCode::True) }
    else if b == 9 { Some(OpCode::False) }
    else if b == 10 { Some(OpCode::Equal) }
    else if b == 11 { Some(OpCode::Greater) }
    else if b == 12 { Some(OpCode::Less) }
    else if b == 13 { Some(OpCode::Not) }
    else if b == 14 { Some(OpCode::Print) }
    else if b == 15 { Some(OpCode::JumpIfFalse) }
    else if b == 16 { Some(OpCode::Pop) }
    else if b == 17 { Some(OpCode::DefineGlobal) }
    else if b == 18 { Some(OpCode::GetGlobal) }
    else if b == 19 { Some(OpCode::SetGlobal) }
    else { None }
}

/// The number of operand bytes that follow an opcode byte.
pub open spec fn operand_count(b: u8) -> nat {
    match decode_spec(b) {
        Some(OpCode::Constant) => 1,
        Some(OpCode::DefineGlobal) => 1,
        Some(OpCode::GetGlobal) => 1,
        Some(OpCode::SetGlobal) => 1,
        Some(OpCode::JumpIfFalse) => 2,
        _ => 0,
    }
}

/// Decoding from `start` steps over whole instructions and ends exactly at the
/// end of `code`.
pub open spec fn decodes_from(code: Seq<u8>, start: int) -> bool
    decreases code.len() - start,
{
    if start < 0 || start > code.len() {
        false
    } else if start == code.len() {
        true
    } else {
        let next = start + 1 + operand_count(code[start]);
        if next > code.len() {
            false
        } else {
            decodes_from(code, next)
        }
    }
}

/// `code` is a sequence of whole instructions.
pub open spec fn well_encoded(code: Seq<u8>) -> bool {
    decodes_from(code, 0)
}

/// The 16-bit big-endian number held in two bytes.
pub open spec fn u16_of(hi: u8, lo: u8) -> int {
    hi as int * 256 + lo as int
}

impl OpCode {
    pub fn byte(self) -> (r: u8)
        ensures
            r == op_byte(self),
    {
        match self {
            OpCode::Return => 0,
            OpCode::Add => 1,
            OpCode::Subtract => 2,
            OpCode::Multiply => 3,
            OpCode::Divide => 4,
            OpCode::Negate => 5,
            OpCode::Constant => 6,
            OpCode::Null => 7,
            OpCode::True => 8,
            OpCode::False => 9,
            OpCode::Equal => 10,
            OpCode::Greater => 11,
            OpCode::Less => 12,
            OpCode::Not => 13,
            OpCode::Print => 14,
            OpCode::JumpIfFalse => 15,
            OpCode::Pop => 16,
            OpCode::DefineGlobal => 17,
            OpCode::GetGlobal => 18,
            OpCode::SetGlobal => 19,
        }
    }

    /// The operation that a byte stands for, if any.
    pub fn decode(b: u8) -> (r: Option<OpCode>)
        ensures
            r == decode_spec(b),
    {
        if b == 0 { Some(OpCode::Return) }
        else if b == 1 { Some(OpCode::Add) }
        else if b == 2 { Some(OpCode::Subtract) }
        else if b == 3 { Some(OpCode::Multiply) }
        else if b == 4 { Some(OpCode::Divide) }
        else if b == 5 { Some(OpCode::Negate) }
        else if b == 6 { Some(OpCode::Constant) }
        else if b == 7 { Some(OpCode::Null) }
        else if b == 8 { Some(OpCode::True) }
        else if b == 9 { Some(OpCode::False) }
        else if b == 10 { Some(OpCode::Equal) }
        else if b == 11 { Some(OpCode::Greater) }
        else if b == 12 { Some(OpCode::Less) }
        else if b == 13 { Some(OpCode::Not) }
        else if b == 14 { Some(OpCode::Print) }
        else if b == 15 { Some(OpCode::JumpIfFalse) }
        else if b == 16 { Some(OpCode::Pop) }
        else if b == 17 { Some(OpCode::DefineGlobal) }
        else if b == 18 { Some(OpCode::GetGlobal) }
        else if b == 19 { Some(OpCode::SetGlobal) }
        else { None }
    }
}

/// Compiled bytecode.
#[derive(Debug)]
pub struct Chunk {
    pub code: Vec<u8>,
    pub lines: Vec<usize>,
    pub constants: Vec<Value>,
}

/// The most constants that a one-byte index can reach.
pub const MAX_CONSTANTS: usize = 256;

/// Why compilation stopped.
#[derive(Debug, Clone, Copy, PartialEq, Eq, Structural)]
pub enum CompileError {
    /// A chunk cannot hold more constants than a one-byte index reaches.
    TooManyConstants,
    /// A conditional jump reaches past what a 16-bit offset can express.
    JumpTooLarge,
}

impl Chunk {
    pub open spec fn wf(&self) -> bool {
        &&& self.code@.len() == self.lines@.len()
        &&& self.constants@.len() <= MAX_CONSTANTS
    }

    pub open spec fn constants_model(&self) -> Seq<ValueModel> {
        self.constants@.map_values(|v: Value| v@)
    }

    pub fn new() -> (r: Chunk)
        ensures
            r.wf(),
            r.code@.len() == 0,
            r.constants@.len() == 0,
    {
        Chunk { code: Vec::new(), lines: Vec::new(), constants: Vec::new() }
    }
}

/// Appends one byte, with the line that it came from; returns its offset.
pub fn emit_byte(chunk: &mut Chunk, byte: u8, line: usize) -> (r: usize)
    requires
        old(chunk).wf(),
    ensures
        final(chunk).wf(),
        final(chunk).code@ == old(chunk).code@.push(byte),
        final(chunk).lines@ == old(chunk).lines@.push(line),
        final(chunk).constants@ == old(chunk).constants@,
        r == old(chunk).code@.len(),
{
    chunk.code.push(byte);
    chunk.lines.push(line);
    chunk.code.len() - 1
}

/// Appends two bytes, with the line that they came from; returns the offset of
/// the second.
pub fn emit_bytes(chunk: &mut Chunk, byte: u8, byte2: u8, line: usize) -> (r: usize)
    requires
        old(chunk).wf(),
    ensures
        final(chunk).wf(),
        final(chunk).code@ == old(chunk).code@.push(byte).push(byte2),
        final(chunk).lines@ == old(chunk).lines@.push(line).push(line),
        final(chunk).constants@ == old(chunk).constants@,
        r == old(chunk).code@.len() + 1,
{
    emit_byte(chunk, byte, line);
    emit_byte(chunk, byte2, line)
}

/// Adds a value to the constant pool and returns its index, or fails where
/// the pool is full.
pub fn add_constant_dont_emit(chunk: &mut Chunk, value: Value) -> (r: Result<u8, CompileError>)
    requires
        old(chunk).wf(),
    ensures
        final(chunk).wf(),
        final(chunk).code@ == old(chunk).code@,
        final(chunk).lines@ == old(chunk).lines@,
        r is Err <==> old(chunk).constants@.len() == MAX_CONSTANTS,
        r is Err ==> r == Err::<u8, CompileError>(CompileError::TooManyConstants)
            && final(chunk).constants@ == old(chunk).constants@,
        r is Ok ==> r->Ok_0 == old(chunk).constants@.len() && final(chunk).constants@
            == old(chunk).constants@.push(value),
{
    if chunk.constants.len() >= MAX_CONSTANTS {
        return Err(CompileError::TooManyConstants);
    }
    chunk.constants.push(value);
    Ok((chunk.constants.len() - 1) as u8)
}

/// Adds a value to the constant pool and emits the instruction that loads it.
pub fn add_constant(chunk: &mut Chunk, value: Value, line: usize) -> (r: Result<(), CompileError>)
    requires
        old(chunk).wf(),
    ensures
        final(chunk).wf(),
        r is Err <==> old(chunk).constants@.len() == MAX_CONSTANTS,
        r is Err ==> r == Err::<(), CompileError>(CompileError::TooManyConstants)
            && final(chunk).code@ == old(chunk).code@ && final(chunk).lines@ == old(
            chunk,
        ).lines@ && final(chunk).constants@ == old(chunk).constants@,
        r is Ok ==> final(chunk).constants@ == old(chunk).constants@.push(value)
            && final(chunk).code@ == old(chunk).code@.push(op_byte(OpCode::Constant)).push(
            old(chunk).constants@.len() as u8,
        ) && final(chunk).lines@ == old(chunk).lines@.push(line).push(line),
{
    let index = match add_constant_dont_emit(chunk, value) {
        Ok(i) => i,
        Err(e) => return Err(e),
    };
    emit_bytes(chunk, OpCode::Constant.byte(), index, line);
    Ok(())
}

/// The width in bytes of the instruction whose opcode is `b`.
pub fn instruction_width(b: u8) -> (r: usize)
    ensures
        r == 1 + operand_count(b),
{
    match OpCode::decode(b) {
        Some(OpCode::Constant) => 2,
        Some(OpCode::DefineGlobal) => 2,
        Some(OpCode::GetGlobal) => 2,
        Some(OpCode::SetGlobal) => 2,
        Some(OpCode::JumpIfFalse) => 3,
        _ => 1,
    }
}

/// The operand of the instruction at `o` names a constant of the kind that
/// the instruction needs: any constant for `Constant`, a string for the
/// instructions on globals.
pub open spec fn operand_ok(code: Seq<u8>, o: int, consts: Seq<ValueModel>) -> bool {
    match decode_spec(code[o]) {
        Some(OpCode::Constant) => (code[o + 1] as int) < consts.len(),
        Some(OpCode::DefineGlobal) | Some(OpCode::GetGlobal) | Some(OpCode::SetGlobal) => (code[o
            + 1] as int) < consts.len() && consts[code[o + 1] as int] is Str,
        _ => true,
    }
}

/// From `start` on, `code` is whole instructions whose operands name
/// constants of `consts` of the right kind, and each conditional jump lands
/// where such instructions start again, or at the very end.
pub open spec fn valid_from(code: Seq<u8>, start: int, consts: Seq<ValueModel>) -> bool
    decreases code.len() - start,
{
    if start < 0 || start > code.len() {
        false
    } else if start == code.len() {
        true
    } else {
        let next = start + 1 + operand_count(code[start]);
        if next > code.len() {
            false
        } else {
            &&& operand_ok(code, start, consts)
            &&& valid_from(code, next, consts)
            &&& decode_spec(code[start]) == Some(OpCode::JumpIfFalse) ==> {
                let target = next + u16_of(code[start + 1], code[start + 2]);
                target <= code.len() && valid_from(code, target, consts)
            }
        }
    }
}

/// `code` is whole instructions whose operands name suitable constants.
pub open spec fn valid_code(code: Seq<u8>, consts: Seq<ValueModel>) -> bool {
    valid_from(code, 0, consts)
}

/// `c1` is the start of `c2`.
pub open spec fn extends(c1: Seq<ValueModel>, c2: Seq<ValueModel>) -> bool {
    c1.len() <= c2.len() && c2.subrange(0, c1.len() as int) == c1
}

proof fn lemma_valid_decodes_from(code: Seq<u8>, start: int, consts: Seq<ValueModel>)
    requires
        valid_from(code, start, consts),
    ensures
        decodes_from(code, start),
    decreases code.len() - start,
{
    if start < code.len() {
        lemma_valid_decodes_from(code, start + 1 + operand_count(code[start]), consts);
    }
}

/// Valid code is well encoded.
pub proof fn lemma_valid_well_encoded(code: Seq<u8>, consts: Seq<ValueModel>)
    requires
        valid_code(code, consts),
    ensures
        well_encoded(code),
{
    lemma_valid_decodes_from(code, 0, consts);
}

proof fn lemma_valid_shift(a: Seq<u8>, b: Seq<u8>, j: int, consts: Seq<ValueModel>)
    requires
        0 <= j,
    ensures
        valid_from(a + b, a.len() + j, consts) == valid_from(b, j, consts),
    decreases b.len() - j,
{
    if j < b.len() {
        assert((a + b)[a.len() + j] == b[j]);
        let next = j + 1 + operand_count(b[j]);
        if next <= b.len() {
            if j + 1 < b.len() {
                assert((a + b)[a.len() + j + 1] == b[j + 1]);
            }
            if j + 2 < b.len() {
                assert((a + b)[a.len() + j + 2] == b[j + 2]);
            }
            lemma_valid_shift(a, b, next, consts);
            if decode_spec(b[j]) == Some(OpCode::JumpIfFalse) {
                let target = next + u16_of(b[j + 1], b[j + 2]);
                if target <= b.len() {
                    lemma_valid_shift(a, b, target, consts);
                }
            }
        }
    }
}

proof fn lemma_valid_append_from(a: Seq<u8>, b: Seq<u8>, i: int, consts: Seq<ValueModel>)
    requires
        valid_from(a, i, consts),
        valid_code(b, consts),
    ensures
        valid_from(a + b, i, consts),
    decreases a.len() - i,
{
    if i == a.len() {
        lemma_valid_shift(a, b, 0, consts);
    } else {
        assert((a + b)[i] == a[i]);
        if i + 1 < a.len() {
            assert((a + b)[i + 1] == a[i + 1]);
        }
        if i + 2 < a.len() {
            assert((a + b)[i + 2] == a[i + 2]);
        }
        let next = i + 1 + operand_count(a[i]);
        lemma_valid_append_from(a, b, next, consts);
        if decode_spec(a[i]) == Some(OpCode::JumpIfFalse) {
            lemma_valid_append_from(a, b, next + u16_of(a[i + 1], a[i + 2]), consts);
        }
    }
}

/// Valid code after valid code is valid.
pub proof fn lemma_valid_append(a: Seq<u8>, b: Seq<u8>, consts: Seq<ValueModel>)
    requires
        valid_code(a, consts),
        valid_code(b, consts),
    ensures
        valid_code(a + b, consts),
{
    lemma_valid_append_from(a, b, 0, consts);
}

proof fn lemma_valid_extends_from(code: Seq<u8>, start: int, c1: Seq<ValueModel>, c2: Seq<ValueModel>)
    requires
        valid_from(code, start, c1),
        extends(c1, c2),
    ensures
        valid_from(code, start, c2),
    decreases code.len() - start,
{
    if start < code.len() {
        if start + 1 < code.len() && (code[start + 1] as int) < c1.len() {
            assert(c2[code[start + 1] as int] == c1[code[start + 1] as int]);
        }
        let next = start + 1 + operand_count(code[start]);
        lemma_valid_extends_from(code, next, c1, c2);
        if decode_spec(code[start]) == Some(OpCode::JumpIfFalse) {
            lemma_valid_extends_from(code, next + u16_of(code[start + 1], code[start + 2]), c1, c2);
        }
    }
}

/// Code stays valid as constants are added.
pub proof fn lemma_valid_extends(code: Seq<u8>, c1: Seq<ValueModel>, c2: Seq<ValueModel>)
    requires
        valid_code(code, c1),
        extends(c1, c2),
    ensures
        valid_code(code, c2),
{
    lemma_valid_extends_from(code, 0, c1, c2);
}

/// One instruction other than a jump whose operand is suitable is valid.
pub proof fn lemma_instruction_valid(code: Seq<u8>, consts: Seq<ValueModel>)
    requires
        code.len() >= 1,
        code.len() == 1 + operand_count(code[0]),
        operand_ok(code, 0, consts),
        decode_spec(code[0]) != Some(OpCode::JumpIfFalse),
    ensures
        valid_code(code, consts),
{
    assert(valid_from(code, code.len() as int, consts));
}

/// A conditional jump over exactly the valid code that follows it is valid.
pub proof fn lemma_jump_over_valid(hi: u8, lo: u8, body: Seq<u8>, consts: Seq<ValueModel>)
    requires
        valid_code(body, consts),
        u16_of(hi, lo) == body.len(),
    ensures
        valid_code(seq![op_byte(OpCode::JumpIfFalse), hi, lo] + body, consts),
{
    let ins = seq![op_byte(OpCode::JumpIfFalse), hi, lo];
    let c = ins + body;
    lemma_valid_shift(ins, body, 0, consts);
    assert(c[0] == op_byte(OpCode::JumpIfFalse));
    assert(c[1] == hi);
    assert(c[2] == lo);
    assert(valid_from(c, c.len() as int, consts));
}

/// The offsets at which a walk from `start` over the instructions of `code`
/// finds an instruction.
pub open spec fn offsets_from(code: Seq<u8>, start: int) -> Seq<int>
    decreases code.len() - start,
{
    if start < 0 || start >= code.len() {
        Seq::empty()
    } else {
        let next = start + 1 + operand_count(code[start]);
        if next > code.len() {
            seq![start]
        } else {
            seq![start] + offsets_from(code, next)
        }
    }
}

/// Consecutive offsets `k` and `k + 1` of `o` are one instruction apart.
pub open spec fn next_ok(code: Seq<u8>, o: Seq<int>, k: int) -> bool {
    0 <= o[k] < code.len() && o[k + 1] == o[k] + 1 + operand_count(code[o[k]])
}

/// The offsets `o`, found by a walk from `s`, lie back to back and the last
/// instruction ends exactly at the end of `code`.
pub open spec fn tiles(code: Seq<u8>, o: Seq<int>, s: int) -> bool {
    &&& (o.len() == 0 <==> s == code.len())
    &&& o.len() > 0 ==> o[0] == s && 0 <= o.last() < code.len() && o.last() + 1 + operand_count(
        code[o.last()],
    ) == code.len()
    &&& forall|k: int| 0 <= k < o.len() - 1 ==> #[trigger] next_ok(code, o, k)
}

proof fn lemma_offsets_tile_from(code: Seq<u8>, s: int)
    requires
        decodes_from(code, s),
    ensures
        tiles(code, offsets_from(code, s), s),
    decreases code.len() - s,
{
    if s < code.len() {
        let next = s + 1 + operand_count(code[s]);
        lemma_offsets_tile_from(code, next);
        let o = offsets_from(code, s);
        let rest = offsets_from(code, next);
        assert(o == seq![s] + rest);
        assert forall|k: int| 0 <= k < o.len() - 1 implies #[trigger] next_ok(code, o, k) by {
            if k > 0 {
                assert(next_ok(code, rest, k - 1));
            }
        }
    }
}

/// Walking a well-encoded chunk instruction by instruction finds its
/// instructions back to back: the first at offset 0, each next one a full
/// instruction width after the one before, and the last one ending exactly at
/// the end of the code, so that the widths add up to the code's length.
pub proof fn lemma_instruction_walk_tiles(code: Seq<u8>)
    requires
        well_encoded(code),
    ensures
        tiles(code, offsets_from(code, 0), 0),
{
    lemma_offsets_tile_from(code, 0);
}

/// The offset of each instruction of the chunk, found by stepping over each
/// instruction's operands.
pub fn disassemble_chunk(chunk: &Chunk) -> (r: Vec<usize>)
    ensures
        r@.map_values(|o: usize| o as int) == offsets_from(chunk.code@, 0),
{
    let mut r: Vec<usize> = Vec::new();
    let mut offset: usize = 0;
    while offset < chunk.code.len()
        invariant
            r@.map_values(|o: usize| o as int) + offsets_from(chunk.code@, offset as int)
                == offsets_from(chunk.code@, 0),
        decreases chunk.code@.len() - offset,
    {
        let width = instruction_width(chunk.code[offset]);
        let ghost before = r@;
        let ghost old_offset = offset;
        r.push(offset);
        assert(r@.map_values(|o: usize| o as int) =~= before.map_values(|o: usize| o as int).push(
            offset as int,
        ));
        let ghost next: int = offset + width;
        assert(offsets_from(chunk.code@, offset as int) == seq![offset as int] + offsets_from(
            chunk.code@,
            next,
        ));
        if width >= chunk.code.len() - offset {
            assert(offsets_from(chunk.code@, next) == Seq::<int>::empty());
            assert(r@.map_values(|o: usize| o as int) =~= offsets_from(chunk.code@, 0));
            return r;
        }
        offset = offset + width;
        assert(r@.map_values(|o: usize| o as int) + offsets_from(chunk.code@, offset as int)
            =~= before.map_values(|o: usize| o as int) + (seq![old_offset as int] + offsets_from(chunk.code@, next)));
    }
    assert(r@.map_values(|o: usize| o as int) =~= offsets_from(chunk.code@, 0));
    r
}

} // verus!
