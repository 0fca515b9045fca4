//! The virtual machine: a fetch-decode-execute loop over a chunk, with an
//! operand stack and a table of globals.
//!
//! The machine stops where it needs float arithmetic on two numbers and hands
//! the operation to its caller, which pushes the result and runs it again.
use crate::chunk::{decode_spec, op_byte, u16_of, valid_code, valid_from, well_encoded, Chunk, OpCode};
use crate::codegen::{initial_state, program_spec};
use crate::compiler::{compile, Diagnostic};
use crate::scanner::Token;
use crate::globals::{globals_map, Globals};
use crate::value::{
    add_strings, copy_chars, lemma_concat_laws, values_greater, concat, is_falsy, is_falsy_value, num_neg, number_negate, orderable,
    values_equal, values_equal_spec, values_less, values_less_spec, Value, ValueModel,
};
use vstd::prelude::*;

verus! {

/// The float operations that the caller carries out.
#[derive(Debug, Clone, Copy, PartialEq, Eq, Structural)]
pub enum ArithOp {
    Add,
    Subtract,
    Multiply,
    Divide,
}

/// Why execution stopped with an error.
#[derive(Debug, Clone, Copy, PartialEq, Eq, Structural)]
pub enum RuntimeError {
    /// An instruction needed more values than the stack held.
    StackUnderflow,
    /// An operand had a type that the instruction does not accept.
    TypeMismatch,
    /// A global was read before any value was bound to its name.
    UndefinedVariable,
    /// An operand byte was missing, or named no suitable constant.
    MalformedCode,
    /// A byte that names no instruction.
    UnknownOpcode,
}

/// The overall outcome of interpreting a program.
#[derive(Debug, Clone, Copy, PartialEq, Eq, Structural)]
pub enum InterpretResult {
    Success,
    CompileError,
    RuntimeError,
}

/// Why the machine stopped running.
#[derive(Debug, Clone, Copy, PartialEq, Eq, Structural)]
pub enum Action {
    /// The program is done.
    Halt,
    /// The program failed.
    Fault(RuntimeError),
    /// The caller is to apply the operation to the two numbers (bits of
    /// binary64 values, left operand first) and push the result.
    Arithmetic(ArithOp, u64, u64),
}

/// The mathematical model of the machine.
pub ghost struct VmModel {
    pub code: Seq<u8>,
    pub constants: Seq<ValueModel>,
    pub ip: int,
    pub stack: Seq<ValueModel>,
    pub globals: Map<Seq<char>, ValueModel>,
    pub printed: Seq<ValueModel>,
    pub last_popped: Option<ValueModel>,
}

pub open spec fn values_model(s: Seq<Value>) -> Seq<ValueModel> {
    s.map_values(|v: Value| v@)
}

pub open spec fn fault(m: VmModel, e: RuntimeError) -> (VmModel, Option<Action>) {
    (m, Some(Action::Fault(e)))
}

/// The stack without its top `n` values.
pub open spec fn below(m: VmModel, n: int) -> Seq<ValueModel> {
    m.stack.subrange(0, m.stack.len() - n)
}

/// The string constant that the operand byte after the opcode names.
pub open spec fn name_operand(m: VmModel) -> Option<Seq<char>> {
    if m.ip + 1 < m.code.len() && (m.code[m.ip + 1] as int) < m.constants.len()
        && m.constants[m.code[m.ip + 1] as int] is Str {
        Some(m.constants[m.code[m.ip + 1] as int]->Str_0)
    } else {
        None
    }
}

pub open spec fn op_push(m: VmModel, v: ValueModel) -> (VmModel, Option<Action>) {
    (VmModel { ip: m.ip + 1, stack: m.stack.push(v), ..m }, None)
}

pub open spec fn op_pop(m: VmModel, then: Option<Action>) -> (VmModel, Option<Action>) {
    if m.stack.len() == 0 {
        fault(m, RuntimeError::StackUnderflow)
    } else {
        (
            VmModel { ip: m.ip + 1, stack: below(m, 1), last_popped: Some(m.stack.last()), ..m },
            then,
        )
    }
}

pub open spec fn op_print(m: VmModel) -> (VmModel, Option<Action>) {
    if m.stack.len() == 0 {
        fault(m, RuntimeError::StackUnderflow)
    } else {
        (VmModel { ip: m.ip + 1, stack: below(m, 1), printed: m.printed.push(m.stack.last()), ..m }, None)
    }
}

pub open spec fn op_constant(m: VmModel) -> (VmModel, Option<Action>) {
    if m.ip + 1 >= m.code.len() || m.code[m.ip + 1] as int >= m.constants.len() {
        fault(m, RuntimeError::MalformedCode)
    } else {
        (
            VmModel {
                ip: m.ip + 2,
                stack: m.stack.push(m.constants[m.code[m.ip + 1] as int]),
                ..m
            },
            None,
        )
    }
}

pub open spec fn op_define(m: VmModel, keep: bool) -> (VmModel, Option<Action>) {
    if m.stack.len() == 0 {
        fault(m, RuntimeError::StackUnderflow)
    } else if name_operand(m) is None {
        fault(m, RuntimeError::MalformedCode)
    } else {
        (
            VmModel {
                ip: m.ip + 2,
                stack: if keep { m.stack } else { below(m, 1) },
                globals: m.globals.insert(name_operand(m)->Some_0, m.stack.last()),
                ..m
            },
            None,
        )
    }
}

pub open spec fn op_get(m: VmModel) -> (VmModel, Option<Action>) {
    if name_operand(m) is None {
        fault(m, RuntimeError::MalformedCode)
    } else if !m.globals.contains_key(name_operand(m)->Some_0) {
        fault(m, RuntimeError::UndefinedVariable)
    } else {
        (
            VmModel {
                ip: m.ip + 2,
                stack: m.stack.push(m.globals[name_operand(m)->Some_0]),
                ..m
            },
            None,
        )
    }
}

pub open spec fn op_not(m: VmModel) -> (VmModel, Option<Action>) {
    if m.stack.len() == 0 {
        fault(m, RuntimeError::StackUnderflow)
    } else {
        match m.stack.last() {
            ValueModel::Bool(b) => (
                VmModel { ip: m.ip + 1, stack: below(m, 1).push(ValueModel::Bool(!b)), ..m },
                None,
            ),
            _ => fault(m, RuntimeError::TypeMismatch),
        }
    }
}

pub open spec fn op_negate(m: VmModel) -> (VmModel, Option<Action>) {
    if m.stack.len() == 0 {
        fault(m, RuntimeError::StackUnderflow)
    } else {
        match m.stack.last() {
            ValueModel::Number(n) => (
                VmModel { ip: m.ip + 1, stack: below(m, 1).push(ValueModel::Number(num_neg(n))), ..m },
                None,
            ),
            ValueModel::Bool(b) => (
                VmModel { ip: m.ip + 1, stack: below(m, 1).push(ValueModel::Bool(!b)), ..m },
                None,
            ),
            _ => fault(m, RuntimeError::TypeMismatch),
        }
    }
}

/// `Equal`, `Less` or `Greater` on the two top values, left operand deeper.
pub open spec fn op_compare(m: VmModel, op: OpCode) -> (VmModel, Option<Action>) {
    if m.stack.len() < 2 {
        fault(m, RuntimeError::StackUnderflow)
    } else {
        let l = m.stack[m.stack.len() - 2];
        let r = m.stack.last();
        if op != OpCode::Equal && !(orderable(l) && orderable(r)) {
            fault(m, RuntimeError::TypeMismatch)
        } else {
            let b = if op == OpCode::Equal {
                values_equal_spec(l, r)
            } else if op == OpCode::Less {
                values_less_spec(l, r)
            } else {
                values_less_spec(r, l)
            };
            (VmModel { ip: m.ip + 1, stack: below(m, 2).push(ValueModel::Bool(b)), ..m }, None)
        }
    }
}

/// `Add`, `Subtract`, `Multiply` or `Divide` on the two top values: two
/// strings concatenate under `Add`; two numbers go to the caller.
pub open spec fn op_arith(m: VmModel, op: ArithOp) -> (VmModel, Option<Action>) {
    if m.stack.len() < 2 {
        fault(m, RuntimeError::StackUnderflow)
    } else {
        match (m.stack[m.stack.len() - 2], m.stack.last()) {
            (ValueModel::Str(a), ValueModel::Str(b)) => if op == ArithOp::Add {
                (VmModel { ip: m.ip + 1, stack: below(m, 2).push(ValueModel::Str(concat(a, b))), ..m }, None)
            } else {
                fault(m, RuntimeError::TypeMismatch)
            },
            (ValueModel::Number(a), ValueModel::Number(b)) => (
                VmModel { ip: m.ip + 1, stack: below(m, 2), ..m },
                Some(Action::Arithmetic(op, a, b)),
            ),
            _ => fault(m, RuntimeError::TypeMismatch),
        }
    }
}

/// Pops the condition and jumps forward by the 16-bit operand where it is falsy.
pub open spec fn op_jump_if_false(m: VmModel) -> (VmModel, Option<Action>) {
    if m.ip + 2 >= m.code.len() {
        fault(m, RuntimeError::MalformedCode)
    } else if m.stack.len() == 0 {
        fault(m, RuntimeError::StackUnderflow)
    } else {
        let offset = u16_of(m.code[m.ip + 1], m.code[m.ip + 2]);
        (
            VmModel {
                ip: m.ip + 3 + if is_falsy(m.stack.last()) { offset } else { 0 },
                stack: below(m, 1),
                ..m
            },
            None,
        )
    }
}

/// Executes the instruction at `m.ip`. `None` means that execution goes on.
pub open spec fn step_spec(m: VmModel) -> (VmModel, Option<Action>) {
    match decode_spec(m.code[m.ip]) {
        Some(OpCode::Return) => op_pop(m, Some(Action::Halt)),
        Some(OpCode::Pop) => op_pop(m, None),
        Some(OpCode::Constant) => op_constant(m),
        Some(OpCode::True) => op_push(m, ValueModel::Bool(true)),
        Some(OpCode::False) => op_push(m, ValueModel::Bool(false)),
        Some(OpCode::Null) => op_push(m, ValueModel::Null),
        Some(OpCode::Not) => op_not(m),
        Some(OpCode::Negate) => op_negate(m),
        Some(OpCode::Equal) => op_compare(m, OpCode::Equal),
        Some(OpCode::Less) => op_compare(m, OpCode::Less),
        Some(OpCode::Greater) => op_compare(m, OpCode::Greater),
        Some(OpCode::Add) => op_arith(m, ArithOp::Add),
        Some(OpCode::Subtract) => op_arith(m, ArithOp::Subtract),
        Some(OpCode::Multiply) => op_arith(m, ArithOp::Multiply),
        Some(OpCode::Divide) => op_arith(m, ArithOp::Divide),
        Some(OpCode::DefineGlobal) => op_define(m, false),
        Some(OpCode::SetGlobal) => op_define(m, true),
        Some(OpCode::GetGlobal) => op_get(m),
        Some(OpCode::Print) => op_print(m),
        Some(OpCode::JumpIfFalse) => op_jump_if_false(m),
        None => fault(m, RuntimeError::UnknownOpcode),
    }
}

/// Every instruction that does not stop the machine moves it forward.
pub proof fn lemma_step_advances(m: VmModel)
    requires
        0 <= m.ip < m.code.len(),
    ensures
        step_spec(m).1 is None ==> step_spec(m).0.ip > m.ip,
        step_spec(m).0.code == m.code,
        step_spec(m).0.constants == m.constants,
{
}

/// Runs from `m` until the code ends or an instruction stops the machine.
pub open spec fn run_spec(m: VmModel) -> (VmModel, Action)
    decreases m.code.len() - m.ip,
    via run_spec_decreases
{
    if m.ip < 0 || m.ip >= m.code.len() {
        (m, Action::Halt)
    } else {
        let (next, stop) = step_spec(m);
        match stop {
            Some(a) => (next, a),
            None => if next.ip <= m.code.len() {
                run_spec(next)
            } else {
                (next, Action::Halt)
            },
        }
    }
}

/// At the start of an instruction of valid code, no operand is missing or
/// unsuitable, and the machine is left at the start of an instruction or at
/// the end of the code.
pub proof fn lemma_valid_step(m: VmModel)
    requires
        0 <= m.ip < m.code.len(),
        valid_from(m.code, m.ip, m.constants),
    ensures
        step_spec(m).1 != Some(Action::Fault(RuntimeError::MalformedCode)),
        valid_from(step_spec(m).0.code, step_spec(m).0.ip, step_spec(m).0.constants),
{
}

/// Running valid code from the start of an instruction never meets a missing
/// or unsuitable operand, and stops at the start of an instruction or at the
/// end of the code, from where it can run on.
pub proof fn lemma_valid_run(m: VmModel)
    requires
        valid_from(m.code, m.ip, m.constants),
    ensures
        run_spec(m).1 != Action::Fault(RuntimeError::MalformedCode),
        valid_from(run_spec(m).0.code, run_spec(m).0.ip, run_spec(m).0.constants),
    decreases m.code.len() - m.ip,
{
    if 0 <= m.ip < m.code.len() {
        lemma_step_advances(m);
        lemma_valid_step(m);
        let (next, stop) = step_spec(m);
        if stop is None && next.ip <= m.code.len() {
            lemma_valid_run(next);
        }
    }
}

/// Reading a global that was never bound stops the machine with an
/// undefined-variable error; nothing is pushed.
pub proof fn lemma_undefined_global_faults(m: VmModel)
    requires
        0 <= m.ip < m.code.len(),
        m.code[m.ip] == op_byte(OpCode::GetGlobal),
        name_operand(m) is Some,
        !m.globals.contains_key(name_operand(m)->Some_0),
    ensures
        step_spec(m) == (m, Some(Action::Fault(RuntimeError::UndefinedVariable))),
{
}

/// A conditional jump is taken exactly when the popped condition is null or
/// `false`: a number (zero included), a string or `true` falls through.
pub proof fn lemma_jump_only_on_falsy(m: VmModel)
    requires
        0 <= m.ip,
        m.ip + 2 < m.code.len(),
        m.code[m.ip] == op_byte(OpCode::JumpIfFalse),
        m.stack.len() > 0,
    ensures
        step_spec(m).1 is None,
        step_spec(m).0.stack == below(m, 1),
        step_spec(m).0.ip == m.ip + 3 + if m.stack.last() is Null || m.stack.last() == ValueModel::Bool(
            false,
        ) {
            u16_of(m.code[m.ip + 1], m.code[m.ip + 2])
        } else {
            0
        },
{
}

/// `+` on two strings pushes their concatenation: appending the empty string
/// on either side gives the other operand back, and the length is the sum of
/// the lengths.
pub proof fn lemma_string_add(m: VmModel, a: Seq<char>, b: Seq<char>)
    requires
        0 <= m.ip < m.code.len(),
        m.code[m.ip] == op_byte(OpCode::Add),
        m.stack.len() >= 2,
        m.stack[m.stack.len() - 2] == ValueModel::Str(a),
        m.stack.last() == ValueModel::Str(b),
    ensures
        step_spec(m).1 is None,
        step_spec(m).0.stack == below(m, 2).push(ValueModel::Str(concat(a, b))),
        b.len() == 0 ==> concat(a, b) == a,
        a.len() == 0 ==> concat(a, b) == b,
        concat(a, b).len() == a.len() + b.len(),
{
    lemma_concat_laws(a, b, Seq::empty());
    lemma_concat_laws(b, Seq::empty(), Seq::empty());
    if b.len() == 0 {
        assert(b =~= Seq::<char>::empty());
    }
    if a.len() == 0 {
        assert(a =~= Seq::<char>::empty());
    }
}

#[via_fn]
proof fn run_spec_decreases(m: VmModel) {
    if 0 <= m.ip < m.code.len() {
        lemma_step_advances(m);
    }
}

/// Room past the end of the code for the furthest jump.
pub const JUMP_ROOM: usize = 0x10004;

/// A machine that runs one chunk.
pub struct VirtualMachine {
    pub chunk: Chunk,
    pub ip: usize,
    pub stack: Vec<Value>,
    pub globals: Globals,
    pub printed: Vec<Value>,
    pub last_popped: Option<Value>,
}

pub open spec fn option_model(v: Option<Value>) -> Option<ValueModel> {
    match v {
        Some(x) => Some(x@),
        None => None,
    }
}

impl View for VirtualMachine {
    type V = VmModel;

    open spec fn view(&self) -> VmModel {
        VmModel {
            code: self.chunk.code@,
            constants: values_model(self.chunk.constants@),
            ip: self.ip as int,
            stack: values_model(self.stack@),
            globals: globals_map(self.globals.entries@),
            printed: values_model(self.printed@),
            last_popped: option_model(self.last_popped),
        }
    }
}

proof fn lemma_values_push(s: Seq<Value>, v: Value)
    ensures
        values_model(s.push(v)) == values_model(s).push(v@),
{
    assert(values_model(s.push(v)) =~= values_model(s).push(v@));
}

proof fn lemma_values_drop(s: Seq<Value>, n: int)
    requires
        0 <= n <= s.len(),
    ensures
        values_model(s.subrange(0, s.len() - n)) == values_model(s).subrange(0, s.len() - n),
{
    assert(values_model(s.subrange(0, s.len() - n)) =~= values_model(s).subrange(0, s.len() - n));
}

impl VirtualMachine {
    pub open spec fn inv(&self) -> bool {
        &&& self.chunk.wf()
        &&& self.globals.wf()
        &&& self.chunk.code@.len() + JUMP_ROOM <= usize::MAX
        &&& self.ip <= self.chunk.code@.len() + JUMP_ROOM
    }

    /// A machine at the start of the chunk, with an empty stack and no globals.
    pub fn new(chunk: Chunk) -> (r: VirtualMachine)
        requires
            chunk.wf(),
            chunk.code@.len() + JUMP_ROOM <= usize::MAX,
        ensures
            r.inv(),
            r.chunk == chunk,
            r@.ip == 0,
            r@.stack.len() == 0,
            r@.globals == Map::<Seq<char>, ValueModel>::empty(),
            r@.printed.len() == 0,
            r@.last_popped is None,
    {
        VirtualMachine {
            chunk,
            ip: 0,
            stack: Vec::new(),
            globals: Globals::new(),
            printed: Vec::new(),
            last_popped: None,
        }
    }

    /// Pushes the result of an arithmetic request.
    pub fn push_number(&mut self, bits: u64)
        requires
            old(self).inv(),
        ensures
            final(self).inv(),
            final(self)@ == (VmModel { stack: old(self)@.stack.push(ValueModel::Number(bits)), ..old(self)@ }),
    {
        let ghost s = self.stack@;
        self.stack.push(Value::Number(bits));
        proof {
            lemma_values_push(s, Value::Number(bits));
        }
    }

    fn pop_top(&mut self) -> (r: Value)
        requires
            old(self).stack@.len() > 0,
        ensures
            final(self).stack@ == old(self).stack@.drop_last(),
            values_model(final(self).stack@) == values_model(old(self).stack@).subrange(
                0,
                old(self).stack@.len() - 1,
            ),
            r@ == values_model(old(self).stack@).last(),
            final(self).chunk == old(self).chunk,
            final(self).ip == old(self).ip,
            final(self).globals == old(self).globals,
            final(self).printed == old(self).printed,
            final(self).last_popped == old(self).last_popped,
    {
        proof {
            lemma_values_drop(self.stack@, 1);
            assert(self.stack@.drop_last() =~= self.stack@.subrange(0, self.stack@.len() - 1));
        }
        match self.stack.pop() {
            Some(v) => v,
            None => Value::Null,
        }
    }

    fn push_top(&mut self, v: Value)
        ensures
            final(self).stack@ == old(self).stack@.push(v),
            values_model(final(self).stack@) == values_model(old(self).stack@).push(v@),
            final(self).chunk == old(self).chunk,
            final(self).ip == old(self).ip,
            final(self).globals == old(self).globals,
            final(self).printed == old(self).printed,
            final(self).last_popped == old(self).last_popped,
    {
        proof {
            lemma_values_push(self.stack@, v);
        }
        self.stack.push(v);
    }

    fn exec_push(&mut self, v: Value) -> (r: Option<Action>)
        requires
            old(self).inv(),
            old(self).ip < old(self).chunk.code@.len(),
        ensures
            final(self).inv(),
            (final(self)@, r) == op_push(old(self)@, v@),
    {
        self.push_top(v);
        self.ip += 1;
        None
    }

    fn exec_pop(&mut self, then: Option<Action>) -> (r: Option<Action>)
        requires
            old(self).inv(),
            old(self).ip < old(self).chunk.code@.len(),
        ensures
            final(self).inv(),
            (final(self)@, r) == op_pop(old(self)@, then),
    {
        if self.stack.len() == 0 {
            return Some(Action::Fault(RuntimeError::StackUnderflow));
        }
        let v = self.pop_top();
        self.last_popped = Some(v);
        self.ip += 1;
        then
    }

    fn exec_print(&mut self) -> (r: Option<Action>)
        requires
            old(self).inv(),
            old(self).ip < old(self).chunk.code@.len(),
        ensures
            final(self).inv(),
            (final(self)@, r) == op_print(old(self)@),
    {
        if self.stack.len() == 0 {
            return Some(Action::Fault(RuntimeError::StackUnderflow));
        }
        let v = self.pop_top();
        proof {
            lemma_values_push(self.printed@, v);
        }
        self.printed.push(v);
        self.ip += 1;
        None
    }

    fn exec_constant(&mut self) -> (r: Option<Action>)
        requires
            old(self).inv(),
            old(self).ip < old(self).chunk.code@.len(),
        ensures
            final(self).inv(),
            (final(self)@, r) == op_constant(old(self)@),
    {
        if self.ip + 1 >= self.chunk.code.len() {
            return Some(Action::Fault(RuntimeError::MalformedCode));
        }
        let index = self.chunk.code[self.ip + 1] as usize;
        if index >= self.chunk.constants.len() {
            return Some(Action::Fault(RuntimeError::MalformedCode));
        }
        let v = self.chunk.constants[index].copy();
        self.push_top(v);
        self.ip += 2;
        None
    }

    /// The name that the operand byte after the opcode refers to.
    fn name_operand(&self) -> (r: Option<Vec<char>>)
        requires
            self.inv(),
            self.ip < self.chunk.code@.len(),
        ensures
            r is None <==> name_operand(self@) is None,
            r is Some ==> r->Some_0@ == name_operand(self@)->Some_0,
    {
        if self.ip + 1 >= self.chunk.code.len() {
            return None;
        }
        let index = self.chunk.code[self.ip + 1] as usize;
        if index >= self.chunk.constants.len() {
            return None;
        }
        match &self.chunk.constants[index] {
            Value::Str(name) => Some(copy_chars(name)),
            _ => None,
        }
    }

    fn exec_define(&mut self, keep: bool) -> (r: Option<Action>)
        requires
            old(self).inv(),
            old(self).ip < old(self).chunk.code@.len(),
        ensures
            final(self).inv(),
            (final(self)@, r) == op_define(old(self)@, keep),
    {
        if self.stack.len() == 0 {
            return Some(Action::Fault(RuntimeError::StackUnderflow));
        }
        let name = match self.name_operand() {
            Some(n) => n,
            None => return Some(Action::Fault(RuntimeError::MalformedCode)),
        };
        let value = if keep {
            self.stack[self.stack.len() - 1].copy()
        } else {
            self.pop_top()
        };
        self.globals.insert(name, value);
        self.ip += 2;
        proof {
            if keep {
                assert(values_model(self.stack@) =~= old(self)@.stack);
            }
        }
        None
    }

    fn exec_get(&mut self) -> (r: Option<Action>)
        requires
            old(self).inv(),
            old(self).ip < old(self).chunk.code@.len(),
        ensures
            final(self).inv(),
            (final(self)@, r) == op_get(old(self)@),
    {
        let name = match self.name_operand() {
            Some(n) => n,
            None => return Some(Action::Fault(RuntimeError::MalformedCode)),
        };
        let v = match self.globals.get(&name) {
            Some(v) => v.copy(),
            None => return Some(Action::Fault(RuntimeError::UndefinedVariable)),
        };
        self.push_top(v);
        self.ip += 2;
        None
    }

    fn exec_not(&mut self) -> (r: Option<Action>)
        requires
            old(self).inv(),
            old(self).ip < old(self).chunk.code@.len(),
        ensures
            final(self).inv(),
            (final(self)@, r) == op_not(old(self)@),
    {
        if self.stack.len() == 0 {
            return Some(Action::Fault(RuntimeError::StackUnderflow));
        }
        let b = match &self.stack[self.stack.len() - 1] {
            Value::Bool(b) => *b,
            _ => return Some(Action::Fault(RuntimeError::TypeMismatch)),
        };
        self.pop_top();
        self.push_top(Value::Bool(!b));
        self.ip += 1;
        None
    }

    fn exec_negate(&mut self) -> (r: Option<Action>)
        requires
            old(self).inv(),
            old(self).ip < old(self).chunk.code@.len(),
        ensures
            final(self).inv(),
            (final(self)@, r) == op_negate(old(self)@),
    {
        if self.stack.len() == 0 {
            return Some(Action::Fault(RuntimeError::StackUnderflow));
        }
        let result = match &self.stack[self.stack.len() - 1] {
            Value::Bool(b) => Value::Bool(!*b),
            Value::Number(n) => Value::Number(number_negate(*n)),
            _ => return Some(Action::Fault(RuntimeError::TypeMismatch)),
        };
        self.pop_top();
        self.push_top(result);
        self.ip += 1;
        None
    }

    fn exec_compare(&mut self, op: OpCode) -> (r: Option<Action>)
        requires
            old(self).inv(),
            old(self).ip < old(self).chunk.code@.len(),
            op == OpCode::Equal || op == OpCode::Less || op == OpCode::Greater,
        ensures
            final(self).inv(),
            (final(self)@, r) == op_compare(old(self)@, op),
    {
        let n = self.stack.len();
        if n < 2 {
            return Some(Action::Fault(RuntimeError::StackUnderflow));
        }
        let b = match op {
            OpCode::Equal => values_equal(&self.stack[n - 2], &self.stack[n - 1]),
            OpCode::Less => match values_less(&self.stack[n - 2], &self.stack[n - 1]) {
                Ok(b) => b,
                Err(_) => return Some(Action::Fault(RuntimeError::TypeMismatch)),
            },
            _ => match values_greater(&self.stack[n - 2], &self.stack[n - 1]) {
                Ok(b) => b,
                Err(_) => return Some(Action::Fault(RuntimeError::TypeMismatch)),
            },
        };
        self.pop_top();
        self.pop_top();
        self.push_top(Value::Bool(b));
        self.ip += 1;
        proof {
            assert(values_model(old(self).stack@).subrange(0, n - 1).subrange(0, n - 2)
                =~= values_model(old(self).stack@).subrange(0, n - 2));
        }
        None
    }

    fn exec_arith(&mut self, op: ArithOp) -> (r: Option<Action>)
        requires
            old(self).inv(),
            old(self).ip < old(self).chunk.code@.len(),
        ensures
            final(self).inv(),
            (final(self)@, r) == op_arith(old(self)@, op),
    {
        let n = self.stack.len();
        if n < 2 {
            return Some(Action::Fault(RuntimeError::StackUnderflow));
        }
        proof {
            assert(values_model(old(self).stack@).subrange(0, n - 1).subrange(0, n - 2)
                =~= values_model(old(self).stack@).subrange(0, n - 2));
        }
        match (&self.stack[n - 2], &self.stack[n - 1]) {
            (Value::Str(a), Value::Str(b)) => {
                if op != ArithOp::Add {
                    return Some(Action::Fault(RuntimeError::TypeMismatch));
                }
                let joined = add_strings(a, b);
                self.pop_top();
                self.pop_top();
                self.push_top(Value::Str(joined));
                self.ip += 1;
                None
            },
            (Value::Number(a), Value::Number(b)) => {
                let (left, right) = (*a, *b);
                self.pop_top();
                self.pop_top();
                self.ip += 1;
                Some(Action::Arithmetic(op, left, right))
            },
            _ => Some(Action::Fault(RuntimeError::TypeMismatch)),
        }
    }

    fn exec_jump_if_false(&mut self) -> (r: Option<Action>)
        requires
            old(self).inv(),
            old(self).ip < old(self).chunk.code@.len(),
        ensures
            final(self).inv(),
            (final(self)@, r) == op_jump_if_false(old(self)@),
    {
        if self.ip + 2 >= self.chunk.code.len() {
            return Some(Action::Fault(RuntimeError::MalformedCode));
        }
        if self.stack.len() == 0 {
            return Some(Action::Fault(RuntimeError::StackUnderflow));
        }
        let offset = self.chunk.code[self.ip + 1] as usize * 256 + self.chunk.code[self.ip + 2] as usize;
        let condition = self.pop_top();
        if is_falsy_value(&condition) {
            self.ip = self.ip + 3 + offset;
        } else {
            self.ip = self.ip + 3;
        }
        None
    }

    /// Executes the instruction at the instruction pointer.
    pub fn step(&mut self) -> (r: Option<Action>)
        requires
            old(self).inv(),
            old(self).ip < old(self).chunk.code@.len(),
        ensures
            final(self).inv(),
            (final(self)@, r) == step_spec(old(self)@),
    {
        let instruction = self.chunk.code[self.ip];
        match OpCode::decode(instruction) {
            Some(OpCode::Return) => self.exec_pop(Some(Action::Halt)),
            Some(OpCode::Pop) => self.exec_pop(None),
            Some(OpCode::Constant) => self.exec_constant(),
            Some(OpCode::True) => self.exec_push(Value::Bool(true)),
            Some(OpCode::False) => self.exec_push(Value::Bool(false)),
            Some(OpCode::Null) => self.exec_push(Value::Null),
            Some(OpCode::Not) => self.exec_not(),
            Some(OpCode::Negate) => self.exec_negate(),
            Some(OpCode::Equal) => self.exec_compare(OpCode::Equal),
            Some(OpCode::Less) => self.exec_compare(OpCode::Less),
            Some(OpCode::Greater) => self.exec_compare(OpCode::Greater),
            Some(OpCode::Add) => self.exec_arith(ArithOp::Add),
            Some(OpCode::Subtract) => self.exec_arith(ArithOp::Subtract),
            Some(OpCode::Multiply) => self.exec_arith(ArithOp::Multiply),
            Some(OpCode::Divide) => self.exec_arith(ArithOp::Divide),
            Some(OpCode::DefineGlobal) => self.exec_define(false),
            Some(OpCode::SetGlobal) => self.exec_define(true),
            Some(OpCode::GetGlobal) => self.exec_get(),
            Some(OpCode::Print) => self.exec_print(),
            Some(OpCode::JumpIfFalse) => self.exec_jump_if_false(),
            None => Some(Action::Fault(RuntimeError::UnknownOpcode)),
        }
    }
}

/// Runs the machine until the code ends, an instruction fails, or float
/// arithmetic is needed.
pub fn run(vm: &mut VirtualMachine) -> (r: Action)
    requires
        old(vm).inv(),
    ensures
        final(vm).inv(),
        (final(vm)@, r) == run_spec(old(vm)@),
        valid_from(old(vm)@.code, old(vm)@.ip, old(vm)@.constants) ==> r != Action::Fault(
            RuntimeError::MalformedCode,
        ) && valid_from(final(vm)@.code, final(vm)@.ip, final(vm)@.constants),
{
    proof {
        if valid_from(vm@.code, vm@.ip, vm@.constants) {
            lemma_valid_run(vm@);
        }
    }
    while vm.ip < vm.chunk.code.len()
        invariant
            vm.inv(),
            run_spec(vm@) == run_spec(old(vm)@),
            valid_from(old(vm)@.code, old(vm)@.ip, old(vm)@.constants) ==> run_spec(old(vm)@).1
                != Action::Fault(RuntimeError::MalformedCode) && valid_from(
                run_spec(old(vm)@).0.code,
                run_spec(old(vm)@).0.ip,
                run_spec(old(vm)@).0.constants,
            ),
        decreases vm.chunk.code@.len() + JUMP_ROOM - vm.ip,
    {
        proof {
            lemma_step_advances(vm@);
        }
        match vm.step() {
            Some(a) => return a,
            None => {},
        }
    }
    Action::Halt
}

/// Compiles the tokens (with the value of each number token, by position)
/// and sets up a machine at the start of the chunk; a compile error where
/// compilation fails.
pub fn interpret(tokens: Vec<Token>, numbers: Vec<u64>) -> (r: Result<(VirtualMachine, Vec<Diagnostic>), InterpretResult>)
    requires
        numbers@.len() == tokens@.len(),
    ensures
        r is Err ==> r->Err_0 == InterpretResult::CompileError,
        ({
            let result = program_spec(tokens@, numbers@, initial_state());
            &&& r is Err <==> (result.failed is Some || result.code.len() + JUMP_ROOM > usize::MAX)
            &&& r is Ok ==> r->Ok_0.0@.code == result.code && r->Ok_0.0@.constants == result.consts
                && r->Ok_0.1@ == result.diags
        }),
        r is Ok ==> {
            let vm = r->Ok_0.0;
            &&& vm.inv()
            &&& well_encoded(vm.chunk.code@)
            &&& valid_code(vm@.code, vm@.constants)
            &&& vm@.ip == 0
            &&& vm@.stack.len() == 0
            &&& vm@.globals == Map::<Seq<char>, ValueModel>::empty()
            &&& vm@.printed.len() == 0
        },
{
    match compile(tokens, numbers) {
        Ok(compiled) => {
            if compiled.chunk.code.len() > usize::MAX - JUMP_ROOM {
                return Err(InterpretResult::CompileError);
            }
            Ok((VirtualMachine::new(compiled.chunk), compiled.diagnostics))
        },
        Err(_) => Err(InterpretResult::CompileError),
    }
}

} // verus!
