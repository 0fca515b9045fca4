//! The single-pass compiler: a precedence-climbing expression parser and a
//! recursive statement parser that emit bytecode straight into a chunk.
use crate::chunk::{
    add_constant, add_constant_dont_emit, decode_spec, emit_byte, emit_bytes, extends,
    lemma_instruction_valid, lemma_instruction_walk_tiles, lemma_jump_over_valid,
    lemma_valid_append, lemma_valid_extends, lemma_valid_well_encoded, offsets_from, op_byte,
    operand_count, operand_ok, tiles, u16_of, valid_code, valid_from, well_encoded, Chunk,
    CompileError, OpCode,
};
use crate::codegen::{
    block_items_spec, block_spec, consume_spec, declaration_spec, emit, expression_spec,
    expression_statement_spec, handler_spec, identifier_spec, if_statement_spec, infix_spec,
    initial_state, line_at, literal_byte, load_const, precedence_spec, print_statement_spec, program_spec,
    report, statement_spec, var_declaration_spec, CState,
};
use crate::scanner::{Token, TokenType};
use crate::value::{copy_chars, copy_range, Value, ValueModel};
use vstd::prelude::*;

verus! {

/// Binding strength, weakest first.
#[derive(Debug, Clone, Copy, PartialEq, Eq, Structural)]
pub enum Precedence {
    Lowest,
    Assignment,
    Or,
    And,
    Equality,
    Comparison,
    Term,
    Factor,
    Unary,
    Call,
    Primary,
}

pub open spec fn level(p: Precedence) -> nat {
    match p {
        Precedence::Lowest => 0,
        Precedence::Assignment => 1,
        Precedence::Or => 2,
        Precedence::And => 3,
        Precedence::Equality => 4,
        Precedence::Comparison => 5,
        Precedence::Term => 6,
        Precedence::Factor => 7,
        Precedence::Unary => 8,
        Precedence::Call => 9,
        Precedence::Primary => 10,
    }
}

pub fn precedence_level(p: Precedence) -> (r: u8)
    ensures
        r == level(p),
{
    match p {
        Precedence::Lowest => 0,
        Precedence::Assignment => 1,
        Precedence::Or => 2,
        Precedence::And => 3,
        Precedence::Equality => 4,
        Precedence::Comparison => 5,
        Precedence::Term => 6,
        Precedence::Factor => 7,
        Precedence::Unary => 8,
        Precedence::Call => 9,
        Precedence::Primary => 10,
    }
}

/// The next stronger level; `Primary` is its own successor.
pub open spec fn next_prec_spec(p: Precedence) -> Precedence {
    match p {
        Precedence::Lowest => Precedence::Assignment,
        Precedence::Assignment => Precedence::Or,
        Precedence::Or => Precedence::And,
        Precedence::And => Precedence::Equality,
        Precedence::Equality => Precedence::Comparison,
        Precedence::Comparison => Precedence::Term,
        Precedence::Term => Precedence::Factor,
        Precedence::Factor => Precedence::Unary,
        Precedence::Unary => Precedence::Call,
        Precedence::Call => Precedence::Primary,
        Precedence::Primary => Precedence::Primary,
    }
}

pub fn next_prec(precedence: Precedence) -> (r: Precedence)
    ensures
        r == next_prec_spec(precedence),
        level(r) == if level(precedence) == 10 { 10 } else { level(precedence) + 1 },
{
    match precedence {
        Precedence::Lowest => Precedence::Assignment,
        Precedence::Assignment => Precedence::Or,
        Precedence::Or => Precedence::And,
        Precedence::And => Precedence::Equality,
        Precedence::Equality => Precedence::Comparison,
        Precedence::Comparison => Precedence::Term,
        Precedence::Term => Precedence::Factor,
        Precedence::Factor => Precedence::Unary,
        Precedence::Unary => Precedence::Call,
        Precedence::Call => Precedence::Primary,
        Precedence::Primary => Precedence::Primary,
    }
}

/// The parse functions that the rule table refers to.
#[derive(Debug, Clone, Copy, PartialEq, Eq, Structural)]
pub enum Handler {
    Grouping,
    Unary,
    Binary,
    Variable,
    String,
    Number,
    Literal,
}

/// How a token parses at the start of an expression and after one.
#[derive(Debug, Clone, Copy, PartialEq, Eq, Structural)]
pub struct ParseRule {
    pub prefix: Option<Handler>,
    pub infix: Option<Handler>,
    pub precedence: Precedence,
}

pub open spec fn rule_spec(t: TokenType) -> ParseRule {
    match t {
        TokenType::LeftParen => ParseRule { prefix: Some(Handler::Grouping), infix: None, precedence: Precedence::Lowest },
        TokenType::Minus => ParseRule { prefix: Some(Handler::Unary), infix: Some(Handler::Binary), precedence: Precedence::Term },
        TokenType::Plus => ParseRule { prefix: None, infix: Some(Handler::Binary), precedence: Precedence::Term },
        TokenType::Slash => ParseRule { prefix: None, infix: Some(Handler::Binary), precedence: Precedence::Factor },
        TokenType::Star => ParseRule { prefix: None, infix: Some(Handler::Binary), precedence: Precedence::Factor },
        TokenType::BangEqual => ParseRule { prefix: None, infix: Some(Handler::Binary), precedence: Precedence::Equality },
        TokenType::EqualEqual => ParseRule { prefix: None, infix: Some(Handler::Binary), precedence: Precedence::Equality },
        TokenType::Greater => ParseRule { prefix: None, infix: Some(Handler::Binary), precedence: Precedence::Comparison },
        TokenType::GreaterEqual => ParseRule { prefix: None, infix: Some(Handler::Binary), precedence: Precedence::Comparison },
        TokenType::Less => ParseRule { prefix: None, infix: Some(Handler::Binary), precedence: Precedence::Comparison },
        TokenType::LessEqual => ParseRule { prefix: None, infix: Some(Handler::Binary), precedence: Precedence::Comparison },
        TokenType::Identifier => ParseRule { prefix: Some(Handler::Variable), infix: None, precedence: Precedence::Lowest },
        TokenType::String => ParseRule { prefix: Some(Handler::String), infix: None, precedence: Precedence::Lowest },
        TokenType::Number => ParseRule { prefix: Some(Handler::Number), infix: None, precedence: Precedence::Lowest },
        TokenType::False => ParseRule { prefix: Some(Handler::Literal), infix: None, precedence: Precedence::Lowest },
        TokenType::Null => ParseRule { prefix: Some(Handler::Literal), infix: None, precedence: Precedence::Lowest },
        TokenType::True => ParseRule { prefix: Some(Handler::Literal), infix: None, precedence: Precedence::Lowest },
        _ => ParseRule { prefix: None, infix: None, precedence: Precedence::Lowest },
    }
}

/// The rule table.
pub fn get_rule(token_type: TokenType) -> (r: ParseRule)
    ensures
        r == rule_spec(token_type),
{
    match token_type {
        TokenType::LeftParen => ParseRule { prefix: Some(Handler::Grouping), infix: None, precedence: Precedence::Lowest },
        TokenType::Minus => ParseRule { prefix: Some(Handler::Unary), infix: Some(Handler::Binary), precedence: Precedence::Term },
        TokenType::Plus => ParseRule { prefix: None, infix: Some(Handler::Binary), precedence: Precedence::Term },
        TokenType::Slash => ParseRule { prefix: None, infix: Some(Handler::Binary), precedence: Precedence::Factor },
        TokenType::Star => ParseRule { prefix: None, infix: Some(Handler::Binary), precedence: Precedence::Factor },
        TokenType::BangEqual => ParseRule { prefix: None, infix: Some(Handler::Binary), precedence: Precedence::Equality },
        TokenType::EqualEqual => ParseRule { prefix: None, infix: Some(Handler::Binary), precedence: Precedence::Equality },
        TokenType::Greater => ParseRule { prefix: None, infix: Some(Handler::Binary), precedence: Precedence::Comparison },
        TokenType::GreaterEqual => ParseRule { prefix: None, infix: Some(Handler::Binary), precedence: Precedence::Comparison },
        TokenType::Less => ParseRule { prefix: None, infix: Some(Handler::Binary), precedence: Precedence::Comparison },
        TokenType::LessEqual => ParseRule { prefix: None, infix: Some(Handler::Binary), precedence: Precedence::Comparison },
        TokenType::Identifier => ParseRule { prefix: Some(Handler::Variable), infix: None, precedence: Precedence::Lowest },
        TokenType::String => ParseRule { prefix: Some(Handler::String), infix: None, precedence: Precedence::Lowest },
        TokenType::Number => ParseRule { prefix: Some(Handler::Number), infix: None, precedence: Precedence::Lowest },
        TokenType::False => ParseRule { prefix: Some(Handler::Literal), infix: None, precedence: Precedence::Lowest },
        TokenType::Null => ParseRule { prefix: Some(Handler::Literal), infix: None, precedence: Precedence::Lowest },
        TokenType::True => ParseRule { prefix: Some(Handler::Literal), infix: None, precedence: Precedence::Lowest },
        _ => ParseRule { prefix: None, infix: None, precedence: Precedence::Lowest },
    }
}

/// The bytes that a binary operator compiles to.
pub open spec fn operator_code(t: TokenType) -> Seq<u8> {
    match t {
        TokenType::EqualEqual => seq![op_byte(OpCode::Equal)],
        TokenType::BangEqual => seq![op_byte(OpCode::Equal), op_byte(OpCode::Not)],
        TokenType::Greater => seq![op_byte(OpCode::Greater)],
        TokenType::GreaterEqual => seq![op_byte(OpCode::Less), op_byte(OpCode::Not)],
        TokenType::Less => seq![op_byte(OpCode::Less)],
        TokenType::LessEqual => seq![op_byte(OpCode::Greater), op_byte(OpCode::Not)],
        TokenType::Plus => seq![op_byte(OpCode::Add)],
        TokenType::Minus => seq![op_byte(OpCode::Subtract)],
        TokenType::Star => seq![op_byte(OpCode::Multiply)],
        _ => seq![op_byte(OpCode::Divide)],
    }
}

pub open spec fn is_binary_operator(t: TokenType) -> bool {
    rule_spec(t).infix == Some(Handler::Binary)
}

/// The characters of a string literal's lexeme between its quotes.
pub open spec fn string_contents(lexeme: Seq<char>) -> Seq<char> {
    if lexeme.len() >= 2 {
        lexeme.subrange(1, lexeme.len() - 1)
    } else {
        Seq::empty()
    }
}

/// A problem that the compiler reports and parses past.
#[derive(Debug, Clone, Copy, PartialEq, Eq, Structural)]
pub enum Diagnostic {
    /// No expression can start at this token position.
    ExpectedExpression { index: usize },
    /// A token of the given kind was needed at this token position.
    ExpectedToken { expected: TokenType, index: usize },
}

/// The state of one compilation: the tokens, the value of each number token
/// (the bits of a binary64, by token position), the position of the next
/// token, the chunk being built, and what has been reported.
pub struct Compiler {
    pub tokens: Vec<Token>,
    pub numbers: Vec<u64>,
    pub index: usize,
    pub chunk: Chunk,
    pub diagnostics: Vec<Diagnostic>,
}

/// The code `b` is the code `a` followed by whole instructions whose
/// operands name suitable constants of `consts`.
pub open spec fn appends_valid(a: Seq<u8>, b: Seq<u8>, consts: Seq<ValueModel>) -> bool {
    &&& a.len() <= b.len()
    &&& b.subrange(0, a.len() as int) == a
    &&& valid_code(b.subrange(a.len() as int, b.len() as int), consts)
}

proof fn lemma_appends_valid_refl(a: Seq<u8>, consts: Seq<ValueModel>)
    ensures
        appends_valid(a, a, consts),
        extends(consts, consts),
{
    assert(a.subrange(0, a.len() as int) =~= a);
    assert(a.subrange(a.len() as int, a.len() as int) =~= Seq::<u8>::empty());
    assert(valid_from(Seq::<u8>::empty(), 0, consts));
    assert(consts.subrange(0, consts.len() as int) =~= consts);
}

proof fn lemma_extends_trans(c1: Seq<ValueModel>, c2: Seq<ValueModel>, c3: Seq<ValueModel>)
    requires
        extends(c1, c2),
        extends(c2, c3),
    ensures
        extends(c1, c3),
{
    assert(c3.subrange(0, c1.len() as int) =~= c3.subrange(0, c2.len() as int).subrange(0, c1.len() as int));
}

proof fn lemma_appends_valid_trans(
    a: Seq<u8>,
    b: Seq<u8>,
    c: Seq<u8>,
    c1: Seq<ValueModel>,
    c2: Seq<ValueModel>,
)
    requires
        appends_valid(a, b, c1),
        appends_valid(b, c, c2),
        extends(c1, c2),
    ensures
        appends_valid(a, c, c2),
{
    let x = b.subrange(a.len() as int, b.len() as int);
    let y = c.subrange(b.len() as int, c.len() as int);
    assert(c.subrange(0, a.len() as int) =~= b.subrange(0, a.len() as int)) by {
        assert(c.subrange(0, b.len() as int) == b);
    }
    assert(c.subrange(a.len() as int, c.len() as int) =~= x + y) by {
        assert(c.subrange(0, b.len() as int) == b);
    }
    lemma_valid_extends(x, c1, c2);
    lemma_valid_append(x, y, c2);
}

/// Appending one instruction with a suitable operand.
proof fn lemma_append_instruction(a: Seq<u8>, ins: Seq<u8>, consts: Seq<ValueModel>)
    requires
        ins.len() >= 1,
        ins.len() == 1 + operand_count(ins[0]),
        operand_ok(ins, 0, consts),
        decode_spec(ins[0]) != Some(OpCode::JumpIfFalse),
    ensures
        appends_valid(a, a + ins, consts),
        extends(consts, consts),
{
    lemma_instruction_valid(ins, consts);
    assert((a + ins).subrange(0, a.len() as int) =~= a);
    assert((a + ins).subrange(a.len() as int, (a + ins).len() as int) =~= ins);
    assert(consts.subrange(0, consts.len() as int) =~= consts);
}

proof fn lemma_extends_index(c1: Seq<ValueModel>, c2: Seq<ValueModel>, i: int)
    requires
        extends(c1, c2),
        0 <= i < c1.len(),
    ensures
        c2[i] == c1[i],
{
    assert(c2.subrange(0, c1.len() as int)[i] == c2[i]);
}

/// Adding a constant extends the pool's model by the constant's model.
proof fn lemma_constants_push(s: Seq<Value>, v: Value)
    ensures
        s.push(v).map_values(|x: Value| x@) == s.map_values(|x: Value| x@).push(v@),
        extends(s.map_values(|x: Value| x@), s.push(v).map_values(|x: Value| x@)),
{
    assert(s.push(v).map_values(|x: Value| x@) =~= s.map_values(|x: Value| x@).push(v@));
    assert(s.push(v).map_values(|x: Value| x@).subrange(0, s.len() as int) =~= s.map_values(
        |x: Value| x@,
    ));
}

/// The error that a result carries, if any.
pub open spec fn outcome<T>(r: Result<T, CompileError>) -> Option<CompileError> {
    match r {
        Ok(_) => None,
        Err(e) => Some(e),
    }
}

impl Compiler {
    pub open spec fn model(&self) -> CState {
        CState {
            index: self.index as int,
            code: self.chunk.code@,
            lines: self.chunk.lines@,
            consts: self.chunk.constants_model(),
            diags: self.diagnostics@,
            failed: None,
        }
    }

    pub open spec fn model_after(&self, failed: Option<CompileError>) -> CState {
        CState { failed, ..self.model() }
    }

    pub open spec fn inv(&self) -> bool {
        &&& self.numbers@.len() == self.tokens@.len()
        &&& self.index <= self.tokens@.len()
        &&& self.chunk.wf()
    }

    /// What every step of the compiler keeps: the tokens, the numbers, the
    /// invariant, a position that only moves forward, a constant pool that
    /// only grows, and, while no error stops it, a code that only grows by
    /// valid instructions.
    pub open spec fn steps_to(&self, next: &Compiler, ok: bool) -> bool {
        &&& next.tokens@ == self.tokens@
        &&& next.numbers@ == self.numbers@
        &&& next.inv()
        &&& self.index <= next.index
        &&& extends(self.chunk.constants_model(), next.chunk.constants_model())
        &&& ok ==> appends_valid(
            self.chunk.code@,
            next.chunk.code@,
            next.chunk.constants_model(),
        )
    }

    /// A step that moves past at least one token whenever one is left.
    pub open spec fn progresses(&self, next: &Compiler) -> bool {
        self.index < self.tokens@.len() ==> self.index < next.index
    }

    pub open spec fn kind_at(&self, i: int) -> TokenType {
        self.tokens@[i].token_type
    }

    /// The line of the token just consumed, for the bytes emitted for it.
    fn line(&self) -> (r: usize)
        ensures
            r == line_at(self.tokens@, self.model()),
    {
        if self.index > 0 && self.index <= self.tokens.len() {
            self.tokens[self.index - 1].line
        } else {
            0
        }
    }

    fn emit_op(&mut self, op: OpCode)
        requires
            old(self).inv(),
            operand_count(op_byte(op)) == 0,
        ensures
            old(self).steps_to(final(self), true),
            final(self).index == old(self).index,
            final(self).chunk.code@ == old(self).chunk.code@.push(op_byte(op)),
            final(self).chunk.constants@ == old(self).chunk.constants@,
            final(self).model() == emit(old(self).tokens@, old(self).model(), seq![op_byte(op)]),
    {
        let line = self.line();
        emit_byte(&mut self.chunk, op.byte(), line);
        proof {
            assert(self.chunk.lines@ =~= old(self).chunk.lines@ + Seq::new(1, |i: int| line));
            lemma_append_instruction(old(self).chunk.code@, seq![op_byte(op)], self.chunk.constants_model());
            assert(old(self).chunk.code@ + seq![op_byte(op)] =~= old(self).chunk.code@.push(op_byte(op)));
        }
    }

    fn emit_op_pair(&mut self, op: OpCode, op2: OpCode)
        requires
            old(self).inv(),
            operand_count(op_byte(op)) == 0,
            operand_count(op_byte(op2)) == 0,
        ensures
            old(self).steps_to(final(self), true),
            final(self).index == old(self).index,
            final(self).chunk.code@ == old(self).chunk.code@.push(op_byte(op)).push(op_byte(op2)),
            final(self).chunk.constants@ == old(self).chunk.constants@,
            final(self).model() == emit(old(self).tokens@, old(self).model(), seq![op_byte(op), op_byte(op2)]),
    {
        self.emit_op(op);
        let ghost mid = *self;
        self.emit_op(op2);
        proof {
            lemma_steps_trans(*old(self), mid, *self, true);
            assert(self.chunk.code@ =~= old(self).chunk.code@ + seq![op_byte(op), op_byte(op2)]);
            assert(self.chunk.lines@ =~= old(self).chunk.lines@ + Seq::new(
                2,
                |i: int| line_at(old(self).tokens@, old(self).model()),
            ));
        }
    }

    fn emit_with_operand(&mut self, op: OpCode, operand: u8)
        requires
            old(self).inv(),
            operand_count(op_byte(op)) == 1,
            operand_ok(seq![op_byte(op), operand], 0, old(self).chunk.constants_model()),
        ensures
            old(self).steps_to(final(self), true),
            final(self).index == old(self).index,
            final(self).chunk.code@ == old(self).chunk.code@.push(op_byte(op)).push(operand),
            final(self).chunk.constants@ == old(self).chunk.constants@,
            final(self).model() == emit(old(self).tokens@, old(self).model(), seq![op_byte(op), operand]),
    {
        let line = self.line();
        emit_bytes(&mut self.chunk, op.byte(), operand, line);
        proof {
            assert(self.chunk.lines@ =~= old(self).chunk.lines@ + Seq::new(2, |i: int| line));
            lemma_append_instruction(
                old(self).chunk.code@,
                seq![op_byte(op), operand],
                self.chunk.constants_model(),
            );
            assert(old(self).chunk.code@ + seq![op_byte(op), operand] =~= old(self).chunk.code@.push(
                op_byte(op),
            ).push(operand));
        }
    }
}

/// Moves past the token at `*index` where it is of the given kind.
pub fn advance_true_if_match(token_type: TokenType, all_tokens: &Vec<Token>, index: &mut usize) -> (r: bool)
    requires
        *old(index) <= all_tokens@.len(),
    ensures
        r == (*old(index) < all_tokens@.len() && all_tokens@[*old(index) as int].token_type
            == token_type),
        *final(index) == if r { *old(index) + 1 } else { *old(index) as int },
{
    if *index >= all_tokens.len() || all_tokens[*index].token_type != token_type {
        return false;
    }
    *index += 1;
    true
}

proof fn lemma_steps_trans(a: Compiler, b: Compiler, c: Compiler, ok: bool)
    requires
        a.steps_to(&b, ok),
        b.steps_to(&c, ok),
    ensures
        a.steps_to(&c, ok),
{
    lemma_extends_trans(a.chunk.constants_model(), b.chunk.constants_model(), c.chunk.constants_model());
    if ok {
        lemma_appends_valid_trans(
            a.chunk.code@,
            b.chunk.code@,
            c.chunk.code@,
            b.chunk.constants_model(),
            c.chunk.constants_model(),
        );
    }
}

impl Compiler {
    /// Moves past the next token where it is of the expected kind; otherwise
    /// reports it and stays.
    pub fn consume(&mut self, expected: TokenType) -> (r: bool)
        requires
            old(self).inv(),
        ensures
            old(self).steps_to(final(self), true),
            final(self).chunk.code@ == old(self).chunk.code@,
            final(self).chunk.constants@ == old(self).chunk.constants@,
            r == (old(self).index < old(self).tokens@.len() && old(self).kind_at(
                old(self).index as int,
            ) == expected),
            final(self).index == if r { old(self).index + 1 } else { old(self).index as int },
            final(self).model() == consume_spec(old(self).tokens@, old(self).model(), expected),
    {
        proof {
            lemma_appends_valid_refl(self.chunk.code@, self.chunk.constants_model());
        }
        if advance_true_if_match(expected, &self.tokens, &mut self.index) {
            return true;
        }
        let index = self.index;
        self.diagnostics.push(Diagnostic::ExpectedToken { expected, index });
        false
    }

    fn expected_expression(&mut self, index: usize)
        requires
            old(self).inv(),
        ensures
            final(self).model() == report(old(self).model(), Diagnostic::ExpectedExpression { index }),
            old(self).steps_to(final(self), true),
            final(self).index == old(self).index,
            final(self).chunk.code@ == old(self).chunk.code@,
            final(self).chunk.constants@ == old(self).chunk.constants@,
    {
        proof {
            lemma_appends_valid_refl(self.chunk.code@, self.chunk.constants_model());
        }
        self.diagnostics.push(Diagnostic::ExpectedExpression { index });
    }

    /// Parses an expression whose operators bind at least as strongly as
    /// `precedence`.
    pub fn parse_precedence(&mut self, precedence: Precedence) -> (r: Result<(), CompileError>)
        requires
            old(self).inv(),
        ensures
            old(self).steps_to(final(self), r is Ok),
            old(self).progresses(final(self)),
            final(self).model_after(outcome(r)) == precedence_spec(
                old(self).tokens@,
                old(self).numbers@,
                old(self).model(),
                precedence,
            ),
        decreases old(self).tokens@.len() - old(self).index, 0nat,
    {
        if self.index >= self.tokens.len() {
            let index = self.index;
            self.expected_expression(index);
            return Ok(());
        }
        proof {
            lemma_appends_valid_refl(self.chunk.code@, self.chunk.constants_model());
        }
        self.index += 1;
        let prefix = get_rule(self.tokens[self.index - 1].token_type).prefix;
        match prefix {
            Some(h) => {
                let ghost mid = *self;
                let r = self.dispatch(h);
                proof {
                    lemma_steps_trans(*old(self), mid, *self, r is Ok);
                }
                if r.is_err() {
                    return r;
                }
            },
            None => {
                let ghost mid = *self;
                let index = self.index - 1;
                self.expected_expression(index);
                proof {
                    lemma_steps_trans(*old(self), mid, *self, true);
                }
            },
        }
        proof {
            assert(precedence_spec(old(self).tokens@, old(self).numbers@, old(self).model(), precedence)
                == infix_spec(old(self).tokens@, old(self).numbers@, self.model(), precedence));
        }
        while self.index < self.tokens.len()
            invariant
                old(self).steps_to(self, true),
                old(self).index < self.index,
                precedence_spec(old(self).tokens@, old(self).numbers@, old(self).model(), precedence)
                    == infix_spec(old(self).tokens@, old(self).numbers@, self.model(), precedence),
            decreases self.tokens@.len() - self.index,
        {
            let rule = get_rule(self.tokens[self.index].token_type);
            if precedence_level(precedence) <= precedence_level(rule.precedence) {
                let ghost mid = *self;
                self.index += 1;
                match rule.infix {
                    Some(h) => {
                        let r = self.dispatch(h);
                        proof {
                            lemma_appends_valid_refl(mid.chunk.code@, mid.chunk.constants_model());
                            lemma_steps_trans(*old(self), mid, *self, r is Ok);
                        }
                        if r.is_err() {
                            return r;
                        }
                    },
                    None => {},
                }
            } else {
                return Ok(());
            }
        }
        Ok(())
    }

    /// Runs the parse function that the rule table names for the token just
    /// consumed.
    fn dispatch(&mut self, h: Handler) -> (r: Result<(), CompileError>)
        requires
            old(self).inv(),
            1 <= old(self).index,
            rule_spec(old(self).kind_at(old(self).index - 1)).prefix == Some(h) || rule_spec(
                old(self).kind_at(old(self).index - 1),
            ).infix == Some(h),
        ensures
            old(self).steps_to(final(self), r is Ok),
            final(self).model_after(outcome(r)) == handler_spec(
                old(self).tokens@,
                old(self).numbers@,
                old(self).model(),
                h,
            ),
        decreases old(self).tokens@.len() - old(self).index, 3nat,
    {
        match h {
            Handler::Grouping => self.grouping(),
            Handler::Unary => self.unary(),
            Handler::Binary => self.binary(),
            Handler::Variable => self.variable(),
            Handler::String => self.string(),
            Handler::Number => self.number(),
            Handler::Literal => {
                self.literal();
                Ok(())
            },
        }
    }

    /// Adds the name that the token just consumed spells to the constant
    /// pool, and returns its index.
    pub fn identifier_constant(&mut self) -> (r: Result<u8, CompileError>)
        requires
            old(self).inv(),
            1 <= old(self).index,
        ensures
            old(self).steps_to(final(self), true),
            final(self).index == old(self).index,
            final(self).chunk.code@ == old(self).chunk.code@,
            r is Err <==> old(self).chunk.constants@.len() == 256,
            r is Ok ==> r->Ok_0 == old(self).chunk.constants@.len()
                && final(self).chunk.constants@.len() == old(self).chunk.constants@.len() + 1
                && final(self).chunk.constants_model()[r->Ok_0 as int] == ValueModel::Str(
                old(self).tokens@[old(self).index - 1].data@,
            ),
            final(self).model_after(outcome(r)) == identifier_spec(old(self).tokens@, old(self).model()),
    {
        let name = copy_chars(&self.tokens[self.index - 1].data);
        let value = Value::Str(name);
        let ghost old_constants = self.chunk.constants@;
        let r = add_constant_dont_emit(&mut self.chunk, value);
        proof {
            if r is Ok {
                lemma_constants_push(old_constants, value);
            }
            lemma_appends_valid_refl(self.chunk.code@, self.chunk.constants_model());
            lemma_appends_valid_refl(self.chunk.code@, old(self).chunk.constants_model());
        }
        r
    }

    /// Consumes a variable's name and adds it to the constant pool.
    pub fn parse_variable(&mut self) -> (r: Result<u8, CompileError>)
        requires
            old(self).inv(),
            1 <= old(self).index,
        ensures
            old(self).steps_to(final(self), true),
            final(self).chunk.code@ == old(self).chunk.code@,
            r is Ok ==> r->Ok_0 == old(self).chunk.constants@.len(),
            r is Ok ==> r->Ok_0 < final(self).chunk.constants@.len(),
            r is Ok ==> final(self).chunk.constants_model()[r->Ok_0 as int] is Str,
            final(self).model_after(outcome(r)) == identifier_spec(
                old(self).tokens@,
                consume_spec(old(self).tokens@, old(self).model(), TokenType::Identifier),
            ),
    {
        let ghost start = *self;
        self.consume(TokenType::Identifier);
        let ghost mid = *self;
        let r = self.identifier_constant();
        proof {
            lemma_steps_trans(start, mid, *self, true);
        }
        r
    }

    /// A variable's value, or an assignment to it.
    fn variable(&mut self) -> (r: Result<(), CompileError>)
        requires
            old(self).inv(),
            1 <= old(self).index,
        ensures
            old(self).steps_to(final(self), r is Ok),
            final(self).model_after(outcome(r)) == handler_spec(
                old(self).tokens@,
                old(self).numbers@,
                old(self).model(),
                Handler::Variable,
            ),
        decreases old(self).tokens@.len() - old(self).index, 2nat,
    {
        let ghost start = *self;
        let constant_index = match self.identifier_constant() {
            Ok(i) => i,
            Err(e) => return Err(e),
        };
        let ghost mid = *self;
        if advance_true_if_match(TokenType::Equal, &self.tokens, &mut self.index) {
            proof {
                lemma_appends_valid_refl(mid.chunk.code@, mid.chunk.constants_model());
                lemma_steps_trans(start, mid, *self, true);
            }
            let ghost mid2 = *self;
            let r = self.expression();
            proof {
                lemma_steps_trans(start, mid2, *self, r is Ok);
            }
            if r.is_err() {
                return r;
            }
            let ghost mid3 = *self;
            proof {
                lemma_extends_index(mid.chunk.constants_model(), self.chunk.constants_model(), constant_index as int);
            }
            self.emit_with_operand(OpCode::SetGlobal, constant_index);
            proof {
                lemma_steps_trans(start, mid3, *self, true);
            }
        } else {
            self.emit_with_operand(OpCode::GetGlobal, constant_index);
            proof {
                lemma_steps_trans(start, mid, *self, true);
            }
        }
        Ok(())
    }

    /// A string literal, without its quotes.
    fn string(&mut self) -> (r: Result<(), CompileError>)
        requires
            old(self).inv(),
            1 <= old(self).index,
        ensures
            old(self).steps_to(final(self), r is Ok),
            r is Ok ==> final(self).chunk.constants@.last()@ == ValueModel::Str(
                string_contents(old(self).tokens@[old(self).index - 1].data@),
            ),
            final(self).model_after(outcome(r)) == handler_spec(
                old(self).tokens@,
                old(self).numbers@,
                old(self).model(),
                Handler::String,
            ),
    {
        let data = &self.tokens[self.index - 1].data;
        let contents = if data.len() >= 2 {
            copy_range(data, 1, data.len() - 1)
        } else {
            Vec::new()
        };
        assert(contents@ == string_contents(self.tokens@[self.index - 1].data@));
        self.emit_constant(Value::Str(contents))
    }

    fn emit_constant(&mut self, value: Value) -> (r: Result<(), CompileError>)
        requires
            old(self).inv(),
        ensures
            old(self).steps_to(final(self), r is Ok),
            final(self).index == old(self).index,
            r is Err <==> old(self).chunk.constants@.len() == 256,
            r is Ok ==> final(self).chunk.constants@ == old(self).chunk.constants@.push(value)
                && final(self).chunk.code@ == old(self).chunk.code@.push(op_byte(OpCode::Constant)).push(
                old(self).chunk.constants@.len() as u8,
            ),
            final(self).model_after(outcome(r)) == load_const(old(self).tokens@, old(self).model(), value@),
    {
        let line = self.line();
        let ghost value_model = value@;
        let r = add_constant(&mut self.chunk, value, line);
        proof {
            let c = old(self).chunk.code@;
            if r is Ok {
                let ins = seq![op_byte(OpCode::Constant), old(self).chunk.constants@.len() as u8];
                lemma_constants_push(old(self).chunk.constants@, value);
                lemma_append_instruction(c, ins, self.chunk.constants_model());
                assert(c + ins =~= c.push(ins[0]).push(ins[1]));
                assert(self.chunk.lines@ =~= old(self).chunk.lines@ + Seq::new(2, |i: int| line));
            } else {
                lemma_appends_valid_refl(c, self.chunk.constants_model());
            }
        }
        r
    }

    /// A number literal.
    fn number(&mut self) -> (r: Result<(), CompileError>)
        requires
            old(self).inv(),
            1 <= old(self).index,
        ensures
            old(self).steps_to(final(self), r is Ok),
            r is Ok ==> final(self).chunk.constants@.last()@ == ValueModel::Number(
                old(self).numbers@[old(self).index - 1],
            ),
            final(self).model_after(outcome(r)) == handler_spec(
                old(self).tokens@,
                old(self).numbers@,
                old(self).model(),
                Handler::Number,
            ),
    {
        let bits = self.numbers[self.index - 1];
        self.emit_constant(Value::Number(bits))
    }

    /// `true`, `false` or `null`.
    fn literal(&mut self)
        requires
            old(self).inv(),
            1 <= old(self).index,
            rule_spec(old(self).kind_at(old(self).index - 1)).prefix == Some(Handler::Literal),
        ensures
            old(self).steps_to(final(self), true),
            final(self).chunk.code@ == old(self).chunk.code@.push(
                match old(self).kind_at(old(self).index - 1) {
                    TokenType::True => op_byte(OpCode::True),
                    TokenType::False => op_byte(OpCode::False),
                    _ => op_byte(OpCode::Null),
                },
            ),
            final(self).model() == emit(
                old(self).tokens@,
                old(self).model(),
                seq![literal_byte(old(self).kind_at(old(self).index - 1))],
            ),
    {
        match self.tokens[self.index - 1].token_type {
            TokenType::True => self.emit_op(OpCode::True),
            TokenType::False => self.emit_op(OpCode::False),
            _ => self.emit_op(OpCode::Null),
        }
    }

    /// A binary operator and its right operand, which binds one level more
    /// strongly than the operator.
    fn binary(&mut self) -> (r: Result<(), CompileError>)
        requires
            old(self).inv(),
            1 <= old(self).index,
            is_binary_operator(old(self).kind_at(old(self).index - 1)),
        ensures
            old(self).steps_to(final(self), r is Ok),
            r is Ok ==> {
                let code = final(self).chunk.code@;
                let op = operator_code(old(self).kind_at(old(self).index - 1));
                code.len() >= op.len() && code.subrange(code.len() - op.len(), code.len() as int) == op
            },
            final(self).model_after(outcome(r)) == handler_spec(
                old(self).tokens@,
                old(self).numbers@,
                old(self).model(),
                Handler::Binary,
            ),
        decreases old(self).tokens@.len() - old(self).index, 2nat,
    {
        let last_token_type = self.tokens[self.index - 1].token_type;
        let rule = get_rule(last_token_type);
        let ghost start = *self;
        let r = self.parse_precedence(next_prec(rule.precedence));
        if r.is_err() {
            return r;
        }
        let ghost mid = *self;
        match last_token_type {
            TokenType::EqualEqual => self.emit_op(OpCode::Equal),
            TokenType::BangEqual => self.emit_op_pair(OpCode::Equal, OpCode::Not),
            TokenType::Greater => self.emit_op(OpCode::Greater),
            TokenType::GreaterEqual => self.emit_op_pair(OpCode::Less, OpCode::Not),
            TokenType::Less => self.emit_op(OpCode::Less),
            TokenType::LessEqual => self.emit_op_pair(OpCode::Greater, OpCode::Not),
            TokenType::Plus => self.emit_op(OpCode::Add),
            TokenType::Minus => self.emit_op(OpCode::Subtract),
            TokenType::Star => self.emit_op(OpCode::Multiply),
            _ => self.emit_op(OpCode::Divide),
        }
        proof {
            lemma_steps_trans(start, mid, *self, true);
            let code = self.chunk.code@;
            let op = operator_code(last_token_type);
            assert(code.subrange(code.len() - op.len(), code.len() as int) =~= op);
        }
        Ok(())
    }

    /// A minus sign and the operand that it negates.
    fn unary(&mut self) -> (r: Result<(), CompileError>)
        requires
            1 <= old(self).index,
            old(self).inv(),
        ensures
            old(self).steps_to(final(self), r is Ok),
            r is Ok ==> final(self).chunk.code@.last() == op_byte(OpCode::Negate),
            final(self).model_after(outcome(r)) == handler_spec(
                old(self).tokens@,
                old(self).numbers@,
                old(self).model(),
                Handler::Unary,
            ),
        decreases old(self).tokens@.len() - old(self).index, 2nat,
    {
        let ghost start = *self;
        let r = self.parse_precedence(Precedence::Unary);
        if r.is_err() {
            return r;
        }
        let ghost mid = *self;
        self.emit_op(OpCode::Negate);
        proof {
            lemma_steps_trans(start, mid, *self, true);
        }
        Ok(())
    }

    /// A parenthesised expression.
    fn grouping(&mut self) -> (r: Result<(), CompileError>)
        requires
            1 <= old(self).index,
            old(self).inv(),
        ensures
            old(self).steps_to(final(self), r is Ok),
            final(self).model_after(outcome(r)) == handler_spec(
                old(self).tokens@,
                old(self).numbers@,
                old(self).model(),
                Handler::Grouping,
            ),
        decreases old(self).tokens@.len() - old(self).index, 2nat,
    {
        let ghost start = *self;
        let r = self.expression();
        if r.is_err() {
            return r;
        }
        let ghost mid = *self;
        self.consume(TokenType::RightParen);
        proof {
            lemma_steps_trans(start, mid, *self, true);
        }
        Ok(())
    }

    /// An expression at the weakest level that binds.
    pub fn expression(&mut self) -> (r: Result<(), CompileError>)
        requires
            old(self).inv(),
        ensures
            old(self).steps_to(final(self), r is Ok),
            old(self).progresses(final(self)),
            final(self).model_after(outcome(r)) == expression_spec(
                old(self).tokens@,
                old(self).numbers@,
                old(self).model(),
            ),
        decreases old(self).tokens@.len() - old(self).index, 1nat,
    {
        self.parse_precedence(Precedence::Assignment)
    }
}

/// Overwrites the two placeholder bytes at `offset` with the big-endian
/// distance from the byte after them to the end of the code; fails where that
/// distance does not fit in 16 bits.
pub fn patch_jump(chunk: &mut Chunk, offset: usize) -> (r: Result<(), CompileError>)
    requires
        old(chunk).wf(),
        offset + 2 <= old(chunk).code@.len(),
    ensures
        final(chunk).wf(),
        final(chunk).constants@ == old(chunk).constants@,
        final(chunk).lines@ == old(chunk).lines@,
        r is Err <==> old(chunk).code@.len() - (offset + 2) > 0xffff,
        r is Err ==> r == Err::<(), CompileError>(CompileError::JumpTooLarge)
            && final(chunk).code@ == old(chunk).code@,
        r is Ok ==> final(chunk).code@.len() == old(chunk).code@.len() && (forall|k: int|
            0 <= k < old(chunk).code@.len() && k != offset && k != offset + 1 ==> final(chunk).code@[k]
                == old(chunk).code@[k]) && u16_of(final(chunk).code@[offset as int], final(chunk).code@[offset + 1])
            == old(chunk).code@.len() - (offset + 2),
        r is Ok ==> final(chunk).code@ == old(chunk).code@.update(
            offset as int,
            ((old(chunk).code@.len() - (offset + 2)) / 256) as u8,
        ).update(offset + 1, ((old(chunk).code@.len() - (offset + 2)) % 256) as u8),
{
    let jump = chunk.code.len() - (offset + 2);
    if jump > 0xffff {
        return Err(CompileError::JumpTooLarge);
    }
    chunk.code[offset] = (jump / 256) as u8;
    chunk.code[offset + 1] = (jump % 256) as u8;
    Ok(())
}

impl Compiler {
    /// Emits a conditional jump with a placeholder offset, and returns the
    /// offset of the placeholder. The code is valid again once the jump is
    /// patched.
    fn emit_jump(&mut self) -> (r: usize)
        requires
            old(self).inv(),
        ensures
            old(self).steps_to(final(self), false),
            final(self).chunk.constants@ == old(self).chunk.constants@,
            final(self).index == old(self).index,
            final(self).chunk.code@ == old(self).chunk.code@ + seq![
                op_byte(OpCode::JumpIfFalse),
                0xffu8,
                0xffu8,
            ],
            r == old(self).chunk.code@.len() + 1,
            final(self).model() == emit(
                old(self).tokens@,
                old(self).model(),
                seq![op_byte(OpCode::JumpIfFalse), 0xffu8, 0xffu8],
            ),
    {
        let line = self.line();
        emit_byte(&mut self.chunk, OpCode::JumpIfFalse.byte(), line);
        let offset = emit_bytes(&mut self.chunk, 0xff, 0xff, line) - 1;
        proof {
            let c = old(self).chunk.code@;
            let ins = seq![op_byte(OpCode::JumpIfFalse), 0xffu8, 0xffu8];
            lemma_appends_valid_refl(c, self.chunk.constants_model());
            assert(self.chunk.code@ =~= c + ins);
            assert(self.chunk.lines@ =~= old(self).chunk.lines@ + Seq::new(3, |i: int| line));
        }
        offset
    }

    /// An expression whose value is discarded.
    pub fn expression_statement(&mut self) -> (r: Result<(), CompileError>)
        requires
            old(self).inv(),
        ensures
            old(self).steps_to(final(self), r is Ok),
            old(self).progresses(final(self)),
            r is Ok ==> final(self).chunk.code@.last() == op_byte(OpCode::Pop),
            final(self).model_after(outcome(r)) == expression_statement_spec(
                old(self).tokens@,
                old(self).numbers@,
                old(self).model(),
            ),
        decreases old(self).tokens@.len() - old(self).index, 2nat,
    {
        let ghost start = *self;
        let r = self.expression();
        if r.is_err() {
            return r;
        }
        let ghost mid = *self;
        self.consume(TokenType::Semicolon);
        let ghost mid2 = *self;
        self.emit_op(OpCode::Pop);
        proof {
            lemma_steps_trans(mid, mid2, *self, true);
            lemma_steps_trans(start, mid, *self, true);
        }
        Ok(())
    }

    /// `print` and the expression whose value it prints.
    pub fn print_statement(&mut self) -> (r: Result<(), CompileError>)
        requires
            old(self).inv(),
        ensures
            old(self).steps_to(final(self), r is Ok),
            r is Ok ==> final(self).chunk.code@.last() == op_byte(OpCode::Print),
            final(self).model_after(outcome(r)) == print_statement_spec(
                old(self).tokens@,
                old(self).numbers@,
                old(self).model(),
            ),
        decreases old(self).tokens@.len() - old(self).index, 2nat,
    {
        let ghost start = *self;
        let r = self.expression();
        if r.is_err() {
            return r;
        }
        let ghost mid = *self;
        self.emit_op(OpCode::Print);
        let ghost mid2 = *self;
        self.consume(TokenType::Semicolon);
        proof {
            lemma_steps_trans(mid, mid2, *self, true);
            lemma_steps_trans(start, mid, *self, true);
        }
        Ok(())
    }

    /// `if`, a condition, the statement run when it holds, and an optional
    /// `else` statement. The jump over the first statement is back-patched
    /// once that statement is compiled.
    pub fn if_statement(&mut self) -> (r: Result<(), CompileError>)
        requires
            old(self).inv(),
        ensures
            old(self).steps_to(final(self), r is Ok),
            final(self).model_after(outcome(r)) == if_statement_spec(
                old(self).tokens@,
                old(self).numbers@,
                old(self).model(),
            ),
            r is Ok ==> ({
                let cond = expression_spec(old(self).tokens@, old(self).numbers@, old(self).model());
                let p = cond.code.len() as int + 1;
                let then_done = statement_spec(
                    old(self).tokens@,
                    old(self).numbers@,
                    emit(
                        old(self).tokens@,
                        cond,
                        seq![op_byte(OpCode::JumpIfFalse), 0xffu8, 0xffu8],
                    ),
                );
                &&& final(self).chunk.code@[p - 1] == op_byte(OpCode::JumpIfFalse)
                &&& u16_of(final(self).chunk.code@[p], final(self).chunk.code@[p + 1])
                    == then_done.code.len() - (p + 2)
            }),
        decreases old(self).tokens@.len() - old(self).index, 5nat,
    {
        let ghost start = *self;
        let r = self.expression();
        if r.is_err() {
            return r;
        }
        let ghost s1 = *self;
        let offset = self.emit_jump();
        let ghost s2 = *self;
        let r = self.statement();
        proof {
            lemma_steps_trans(start, s1, s2, false);
            lemma_steps_trans(start, s2, *self, false);
        }
        if r.is_err() {
            return r;
        }
        let ghost s3 = *self;
        let r = patch_jump(&mut self.chunk, offset);
        if r.is_err() {
            return r;
        }
        proof {
            // The code is now that of `s1`, the patched jump, and the whole
            // instructions of the first statement.
            let c1 = s1.chunk.code@;
            let c3 = s3.chunk.code@;
            let c4 = self.chunk.code@;
            let ins = seq![op_byte(OpCode::JumpIfFalse), c4[offset as int], c4[offset + 1]];
            let body = c3.subrange(c1.len() as int + 3, c3.len() as int);
            assert(c3.subrange(0, c1.len() as int + 3) == s2.chunk.code@) by {
                assert(c3.subrange(0, s2.chunk.code@.len() as int) == s2.chunk.code@);
            }
            assert(c3.subrange(s2.chunk.code@.len() as int, c3.len() as int) == body);
            let consts = self.chunk.constants_model();
            lemma_extends_trans(s1.chunk.constants_model(), s2.chunk.constants_model(), s3.chunk.constants_model());
            lemma_jump_over_valid(c4[offset as int], c4[offset + 1], body, consts);
            assert(s2.chunk.code@ == c1 + seq![op_byte(OpCode::JumpIfFalse), 0xffu8, 0xffu8]);
            assert(c4.len() == c3.len());
            assert forall|k: int| 0 <= k < c1.len() implies c4[k] == c1[k] by {
                assert(c4[k] == c3[k]);
                assert(c3.subrange(0, s2.chunk.code@.len() as int)[k] == c3[k]);
                assert(s2.chunk.code@[k] == c1[k]);
            }
            assert forall|k: int| 0 <= k < body.len() implies c4[c1.len() + 3 + k] == body[k] by {
                assert(c4[c1.len() + 3 + k] == c3[c1.len() + 3 + k]);
            }
            assert(c4[c1.len() as int] == c3[c1.len() as int]);
            assert(c3.subrange(0, s2.chunk.code@.len() as int)[c1.len() as int] == c3[c1.len() as int]);
            assert(c4.subrange(c1.len() as int, c4.len() as int) =~= ins + body);
            assert(c4.subrange(0, c1.len() as int) =~= c1);
            assert(appends_valid(c1, c4, consts));
            assert(s1.steps_to(self, true));
            lemma_steps_trans(start, s1, *self, true);
        }
        let ghost s4 = *self;
        if advance_true_if_match(TokenType::Else, &self.tokens, &mut self.index) {
            proof {
                lemma_appends_valid_refl(s4.chunk.code@, s4.chunk.constants_model());
                lemma_steps_trans(start, s4, *self, true);
            }
            let ghost s5 = *self;
            let r = self.statement();
            proof {
                lemma_steps_trans(start, s5, *self, r is Ok);
                if r is Ok {
                    let p = s1.chunk.code@.len() as int + 1;
                    assert(self.chunk.code@.subrange(0, s5.chunk.code@.len() as int)[p - 1]
                        == self.chunk.code@[p - 1]);
                    assert(self.chunk.code@.subrange(0, s5.chunk.code@.len() as int)[p]
                        == self.chunk.code@[p]);
                    assert(self.chunk.code@.subrange(0, s5.chunk.code@.len() as int)[p + 1]
                        == self.chunk.code@[p + 1]);
                }
            }
            return r;
        }
        Ok(())
    }

    /// Declarations up to the closing brace.
    pub fn block(&mut self) -> (r: Result<(), CompileError>)
        requires
            old(self).inv(),
        ensures
            old(self).steps_to(final(self), r is Ok),
            final(self).model_after(outcome(r)) == block_spec(
                old(self).tokens@,
                old(self).numbers@,
                old(self).model(),
            ),
        decreases old(self).tokens@.len() - old(self).index, 7nat,
    {
        proof {
            lemma_appends_valid_refl(self.chunk.code@, self.chunk.constants_model());
        }
        while self.index < self.tokens.len() && self.tokens[self.index].token_type
            != TokenType::RightBrace
            invariant
                old(self).steps_to(self, true),
                block_items_spec(old(self).tokens@, old(self).numbers@, old(self).model())
                    == block_items_spec(old(self).tokens@, old(self).numbers@, self.model()),
            decreases self.tokens@.len() - self.index,
        {
            let ghost mid = *self;
            let r = self.declaration();
            proof {
                lemma_steps_trans(*old(self), mid, *self, r is Ok);
            }
            if r.is_err() {
                return r;
            }
        }
        let ghost mid = *self;
        self.consume(TokenType::RightBrace);
        proof {
            lemma_steps_trans(*old(self), mid, *self, true);
        }
        Ok(())
    }

    /// A `print`, `if` or block statement, or an expression statement.
    pub fn statement(&mut self) -> (r: Result<(), CompileError>)
        requires
            old(self).inv(),
        ensures
            old(self).steps_to(final(self), r is Ok),
            old(self).progresses(final(self)),
            r is Ok && old(self).index < old(self).tokens@.len() && old(self).kind_at(
                old(self).index as int,
            ) == TokenType::Print ==> final(self).chunk.code@.last() == op_byte(OpCode::Print),
            r is Ok && !(old(self).index < old(self).tokens@.len() && (old(self).kind_at(
                old(self).index as int,
            ) == TokenType::Print || old(self).kind_at(old(self).index as int) == TokenType::If
                || old(self).kind_at(old(self).index as int) == TokenType::LeftBrace))
                ==> final(self).chunk.code@.last() == op_byte(OpCode::Pop),
            final(self).model_after(outcome(r)) == statement_spec(
                old(self).tokens@,
                old(self).numbers@,
                old(self).model(),
            ),
        decreases old(self).tokens@.len() - old(self).index, 4nat,
    {
        proof {
            lemma_appends_valid_refl(self.chunk.code@, self.chunk.constants_model());
        }
        let ghost start = *self;
        if advance_true_if_match(TokenType::Print, &self.tokens, &mut self.index) {
            let ghost mid = *self;
            let r = self.print_statement();
            proof {
                lemma_steps_trans(start, mid, *self, r is Ok);
            }
            r
        } else if advance_true_if_match(TokenType::If, &self.tokens, &mut self.index) {
            let ghost mid = *self;
            let r = self.if_statement();
            proof {
                lemma_steps_trans(start, mid, *self, r is Ok);
            }
            r
        } else if advance_true_if_match(TokenType::LeftBrace, &self.tokens, &mut self.index) {
            let ghost mid = *self;
            let r = self.block();
            proof {
                lemma_steps_trans(start, mid, *self, r is Ok);
            }
            r
        } else {
            self.expression_statement()
        }
    }

    /// `var`, a name, an optional initial value, and a semicolon.
    pub fn var_declaration(&mut self) -> (r: Result<(), CompileError>)
        requires
            old(self).inv(),
            1 <= old(self).index,
        ensures
            old(self).steps_to(final(self), r is Ok),
            r is Ok ==> {
                let code = final(self).chunk.code@;
                code.len() >= 2 && code[code.len() - 2] == op_byte(OpCode::DefineGlobal)
                    && code[code.len() - 1] < final(self).chunk.constants@.len()
            },
            final(self).model_after(outcome(r)) == var_declaration_spec(
                old(self).tokens@,
                old(self).numbers@,
                old(self).model(),
            ),
        decreases old(self).tokens@.len() - old(self).index, 2nat,
    {
        let ghost start = *self;
        let global_constant_index = match self.parse_variable() {
            Ok(i) => i,
            Err(e) => return Err(e),
        };
        let ghost s1 = *self;
        if advance_true_if_match(TokenType::Equal, &self.tokens, &mut self.index) {
            proof {
                lemma_appends_valid_refl(s1.chunk.code@, s1.chunk.constants_model());
                lemma_steps_trans(start, s1, *self, true);
            }
            let ghost s2 = *self;
            let r = self.expression();
            proof {
                lemma_steps_trans(start, s2, *self, r is Ok);
                assert(extends(s1.chunk.constants_model(), self.chunk.constants_model()));
            }
            if r.is_err() {
                return r;
            }
        } else {
            self.emit_op(OpCode::Null);
            proof {
                lemma_appends_valid_refl(s1.chunk.code@, s1.chunk.constants_model());
                lemma_steps_trans(start, s1, *self, true);
            }
        }
        let ghost s3 = *self;
        self.consume(TokenType::Semicolon);
        let ghost s4 = *self;
        proof {
            lemma_extends_trans(s1.chunk.constants_model(), s3.chunk.constants_model(), s4.chunk.constants_model());
            lemma_extends_index(s1.chunk.constants_model(), self.chunk.constants_model(), global_constant_index as int);
        }
        self.emit_with_operand(OpCode::DefineGlobal, global_constant_index);
        proof {
            lemma_steps_trans(s3, s4, *self, true);
            lemma_steps_trans(start, s3, *self, true);
        }
        Ok(())
    }

    /// A variable declaration or a statement.
    pub fn declaration(&mut self) -> (r: Result<(), CompileError>)
        requires
            old(self).inv(),
        ensures
            old(self).steps_to(final(self), r is Ok),
            old(self).progresses(final(self)),
            r is Ok && old(self).index < old(self).tokens@.len() && old(self).kind_at(
                old(self).index as int,
            ) == TokenType::Var ==> {
                let code = final(self).chunk.code@;
                code.len() >= 2 && code[code.len() - 2] == op_byte(OpCode::DefineGlobal)
            },
            final(self).model_after(outcome(r)) == declaration_spec(
                old(self).tokens@,
                old(self).numbers@,
                old(self).model(),
            ),
        decreases old(self).tokens@.len() - old(self).index, 6nat,
    {
        proof {
            lemma_appends_valid_refl(self.chunk.code@, self.chunk.constants_model());
        }
        let ghost start = *self;
        if advance_true_if_match(TokenType::Var, &self.tokens, &mut self.index) {
            let ghost mid = *self;
            let r = self.var_declaration();
            proof {
                lemma_steps_trans(start, mid, *self, r is Ok);
            }
            r
        } else {
            self.statement()
        }
    }
}

/// What a successful compilation yields: the chunk and the problems that
/// were reported and parsed past.
pub struct Compiled {
    pub chunk: Chunk,
    pub diagnostics: Vec<Diagnostic>,
}

/// Compiles a token sequence into one chunk. `numbers[i]` is the value of
/// token `i` where that token is a number literal.
pub fn compile(tokens: Vec<Token>, numbers: Vec<u64>) -> (r: Result<Compiled, CompileError>)
    requires
        numbers@.len() == tokens@.len(),
    ensures
        r is Ok ==> r->Ok_0.chunk.wf() && well_encoded(r->Ok_0.chunk.code@) && valid_code(
            r->Ok_0.chunk.code@,
            r->Ok_0.chunk.constants_model(),
        ),
        r is Ok ==> tiles(r->Ok_0.chunk.code@, offsets_from(r->Ok_0.chunk.code@, 0), 0),
        ({
            let result = program_spec(tokens@, numbers@, initial_state());
            &&& r is Err <==> result.failed is Some
            &&& r is Err ==> r->Err_0 == result.failed->Some_0
            &&& r is Ok ==> r->Ok_0.chunk.code@ == result.code && r->Ok_0.chunk.lines@ == result.lines && r->Ok_0.chunk.constants_model()
                == result.consts && r->Ok_0.diagnostics@ == result.diags
        }),
{
    let mut compiler = Compiler {
        tokens,
        numbers,
        index: 0,
        chunk: Chunk::new(),
        diagnostics: Vec::new(),
    };
    proof {
        assert(valid_from(compiler.chunk.code@, 0, compiler.chunk.constants_model()));
    }
    proof {
        assert(compiler.chunk.constants_model() =~= Seq::<ValueModel>::empty());
        assert(compiler.chunk.code@ =~= Seq::<u8>::empty());
        assert(compiler.chunk.lines@ =~= Seq::<usize>::empty());
        assert(compiler.diagnostics@ =~= Seq::<Diagnostic>::empty());
        assert(compiler.model() == initial_state());
    }
    while compiler.index < compiler.tokens.len()
        invariant
            compiler.inv(),
            compiler.tokens@ == tokens@,
            compiler.numbers@ == numbers@,
            valid_code(compiler.chunk.code@, compiler.chunk.constants_model()),
            program_spec(tokens@, numbers@, initial_state()) == program_spec(
                tokens@,
                numbers@,
                compiler.model(),
            ),
        decreases compiler.tokens@.len() - compiler.index,
    {
        let ghost before = compiler.chunk.code@;
        let ghost before_constants = compiler.chunk.constants_model();
        let ghost before_model = compiler.model();
        let step = compiler.declaration();
        proof {
            let after_model = compiler.model_after(outcome(step));
            assert(program_spec(tokens@, numbers@, before_model) == if after_model.failed is Some {
                after_model
            } else {
                program_spec(tokens@, numbers@, after_model)
            });
        }
        match step {
            Ok(()) => {},
            Err(e) => return Err(e),
        }
        proof {
            let after = compiler.chunk.code@;
            let consts = compiler.chunk.constants_model();
            assert(after =~= before + after.subrange(before.len() as int, after.len() as int)) by {
                assert(after.subrange(0, before.len() as int) == before);
            }
            lemma_valid_extends(before, before_constants, consts);
            lemma_valid_append(before, after.subrange(before.len() as int, after.len() as int), consts);
        }
    }
    proof {
        lemma_valid_well_encoded(compiler.chunk.code@, compiler.chunk.constants_model());
        lemma_instruction_walk_tiles(compiler.chunk.code@);
    }
    Ok(Compiled { chunk: compiler.chunk, diagnostics: compiler.diagnostics })
}

} // verus!
