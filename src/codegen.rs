//! What each construct compiles to: the compiler's state after each parse
//! function, as a function of the tokens, the number values and the state
//! before it.
use crate::chunk::{op_byte, CompileError, OpCode};
use crate::compiler::{
    level, next_prec_spec, operator_code, rule_spec, string_contents, Diagnostic, Handler,
    Precedence,
};
use crate::scanner::{Token, TokenType};
use crate::value::ValueModel;
use vstd::prelude::*;

verus! {

/// The model of a compiler's state: the position of the next token, the code,
/// the constant pool, the diagnostics, and the error that stopped it, if any.
pub ghost struct CState {
    pub index: int,
    pub code: Seq<u8>,
    pub lines: Seq<usize>,
    pub consts: Seq<ValueModel>,
    pub diags: Seq<Diagnostic>,
    pub failed: Option<CompileError>,
}

/// The state before the first token.
pub open spec fn initial_state() -> CState {
    CState {
        index: 0,
        code: Seq::empty(),
        lines: Seq::empty(),
        consts: Seq::empty(), diags: Seq::empty(), failed: None }
}

pub open spec fn in_range(t: Seq<Token>, st: CState) -> bool {
    0 <= st.index <= t.len()
}

pub open spec fn at(t: Seq<Token>, st: CState, k: TokenType) -> bool {
    0 <= st.index < t.len() && t[st.index].token_type == k
}

pub open spec fn advance(st: CState) -> CState {
    CState { index: st.index + 1, ..st }
}

/// The line of the token just consumed, which the bytes emitted for it carry.
pub open spec fn line_at(t: Seq<Token>, st: CState) -> usize {
    if 0 < st.index <= t.len() {
        t[st.index - 1].line
    } else {
        0
    }
}

pub open spec fn emit(t: Seq<Token>, st: CState, bytes: Seq<u8>) -> CState {
    CState {
        code: st.code + bytes,
        lines: st.lines + Seq::new(bytes.len(), |i: int| line_at(t, st)),
        ..st
    }
}

pub open spec fn report(st: CState, d: Diagnostic) -> CState {
    CState { diags: st.diags.push(d), ..st }
}

pub open spec fn fail(st: CState, e: CompileError) -> CState {
    CState { failed: Some(e), ..st }
}

/// The value enters the pool; an error where the pool is full.
pub open spec fn add_const(st: CState, v: ValueModel) -> CState {
    if st.consts.len() == 256 {
        fail(st, CompileError::TooManyConstants)
    } else {
        CState { consts: st.consts.push(v), ..st }
    }
}

/// The value enters the pool and an instruction loads it.
pub open spec fn load_const(t: Seq<Token>, st: CState, v: ValueModel) -> CState {
    if st.consts.len() == 256 {
        fail(st, CompileError::TooManyConstants)
    } else {
        emit(
            t,
            CState { consts: st.consts.push(v), ..st },
            seq![op_byte(OpCode::Constant), st.consts.len() as u8],
        )
    }
}

/// A pool holds up to 256 constants: one with room takes the next value at
/// the next index, and a full one stops the compilation with
/// `TooManyConstants` and nothing added.
pub proof fn lemma_constant_limit(t: Seq<Token>, st: CState, v: ValueModel)
    requires
        st.consts.len() <= 256,
        st.failed is None,
    ensures
        st.consts.len() < 256 ==> add_const(st, v).failed is None && add_const(st, v).consts
            == st.consts.push(v),
        st.consts.len() < 256 ==> load_const(t, st, v).failed is None && load_const(t, st, v).consts
            == st.consts.push(v) && load_const(t, st, v).code == st.code + seq![
            op_byte(OpCode::Constant),
            st.consts.len() as u8,
        ],
        st.consts.len() == 256 ==> add_const(st, v) == fail(st, CompileError::TooManyConstants),
        st.consts.len() == 256 ==> load_const(t, st, v) == fail(st, CompileError::TooManyConstants),
{
}

pub open spec fn consume_spec(t: Seq<Token>, st: CState, k: TokenType) -> CState {
    if at(t, st, k) {
        advance(st)
    } else {
        report(st, Diagnostic::ExpectedToken { expected: k, index: st.index as usize })
    }
}

pub open spec fn literal_byte(k: TokenType) -> u8 {
    match k {
        TokenType::True => op_byte(OpCode::True),
        TokenType::False => op_byte(OpCode::False),
        _ => op_byte(OpCode::Null),
    }
}

/// The name that the token before `st.index` spells enters the pool.
pub open spec fn identifier_spec(t: Seq<Token>, st: CState) -> CState {
    add_const(st, ValueModel::Str(t[st.index - 1].data@))
}

/// An expression whose operators bind at least as strongly as `p`: a prefix
/// part, then infix parts.
pub open spec fn precedence_spec(t: Seq<Token>, n: Seq<u64>, st: CState, p: Precedence) -> CState
    decreases t.len() - st.index, 0nat,
{
    if !in_range(t, st) {
        st
    } else if st.index == t.len() {
        report(st, Diagnostic::ExpectedExpression { index: st.index as usize })
    } else {
        let st1 = advance(st);
        let st2 = match rule_spec(t[st.index].token_type).prefix {
            Some(h) => handler_spec(t, n, st1, h),
            None => report(st1, Diagnostic::ExpectedExpression { index: st.index as usize }),
        };
        if st2.failed is Some || st2.index < st1.index || st2.index > t.len() {
            st2
        } else {
            infix_spec(t, n, st2, p)
        }
    }
}

/// Infix parts while the next token binds at least as strongly as `p`.
pub open spec fn infix_spec(t: Seq<Token>, n: Seq<u64>, st: CState, p: Precedence) -> CState
    decreases t.len() - st.index, 0nat,
{
    if !in_range(t, st) || st.index == t.len() {
        st
    } else {
        let r = rule_spec(t[st.index].token_type);
        if level(p) <= level(r.precedence) {
            let st1 = advance(st);
            let st2 = match r.infix {
                Some(h) => handler_spec(t, n, st1, h),
                None => st1,
            };
            if st2.failed is Some || st2.index < st1.index || st2.index > t.len() {
                st2
            } else {
                infix_spec(t, n, st2, p)
            }
        } else {
            st
        }
    }
}

/// The parse function that the rule table names, run after its token.
pub open spec fn handler_spec(t: Seq<Token>, n: Seq<u64>, st: CState, h: Handler) -> CState
    decreases t.len() - st.index, 3nat,
{
    if !in_range(t, st) || st.index < 1 {
        st
    } else {
        match h {
            Handler::Grouping => {
                let st1 = expression_spec(t, n, st);
                if st1.failed is Some {
                    st1
                } else {
                    consume_spec(t, st1, TokenType::RightParen)
                }
            },
            Handler::Unary => {
                let st1 = precedence_spec(t, n, st, Precedence::Unary);
                if st1.failed is Some {
                    st1
                } else {
                    emit(t, st1, seq![op_byte(OpCode::Negate)])
                }
            },
            Handler::Binary => {
                let k = t[st.index - 1].token_type;
                let st1 = precedence_spec(t, n, st, next_prec_spec(rule_spec(k).precedence));
                if st1.failed is Some {
                    st1
                } else {
                    emit(t, st1, operator_code(k))
                }
            },
            Handler::Variable => {
                let st1 = identifier_spec(t, st);
                let slot = st.consts.len() as u8;
                if st1.failed is Some {
                    st1
                } else if at(t, st1, TokenType::Equal) {
                    let st2 = expression_spec(t, n, advance(st1));
                    if st2.failed is Some {
                        st2
                    } else {
                        emit(t, st2, seq![op_byte(OpCode::SetGlobal), slot])
                    }
                } else {
                    emit(t, st1, seq![op_byte(OpCode::GetGlobal), slot])
                }
            },
            Handler::String => load_const(
                t,
                st,
                ValueModel::Str(string_contents(t[st.index - 1].data@)),
            ),
            Handler::Number => load_const(t, st, ValueModel::Number(n[st.index - 1])),
            Handler::Literal => emit(t, st, seq![literal_byte(t[st.index - 1].token_type)]),
        }
    }
}

pub open spec fn expression_spec(t: Seq<Token>, n: Seq<u64>, st: CState) -> CState
    decreases t.len() - st.index, 1nat,
{
    if !in_range(t, st) {
        st
    } else {
        precedence_spec(t, n, st, Precedence::Assignment)
    }
}

pub open spec fn expression_statement_spec(t: Seq<Token>, n: Seq<u64>, st: CState) -> CState
    decreases t.len() - st.index, 2nat,
{
    if !in_range(t, st) {
        st
    } else {
        let st1 = expression_spec(t, n, st);
        if st1.failed is Some {
            st1
        } else {
            emit(t, consume_spec(t, st1, TokenType::Semicolon), seq![op_byte(OpCode::Pop)])
        }
    }
}

pub open spec fn print_statement_spec(t: Seq<Token>, n: Seq<u64>, st: CState) -> CState
    decreases t.len() - st.index, 2nat,
{
    if !in_range(t, st) {
        st
    } else {
        let st1 = expression_spec(t, n, st);
        if st1.failed is Some {
            st1
        } else {
            consume_spec(t, emit(t, st1, seq![op_byte(OpCode::Print)]), TokenType::Semicolon)
        }
    }
}

/// The two jump bytes at `p` and `p + 1` set to the big-endian `jump`.
pub open spec fn patch(st: CState, p: int, jump: int) -> CState {
    CState { code: st.code.update(p, (jump / 256) as u8).update(p + 1, (jump % 256) as u8), ..st }
}

pub open spec fn if_statement_spec(t: Seq<Token>, n: Seq<u64>, st: CState) -> CState
    decreases t.len() - st.index, 5nat,
{
    if !in_range(t, st) {
        st
    } else {
        let st1 = expression_spec(t, n, st);
        if st1.failed is Some || st1.index < st.index || st1.index > t.len() {
            st1
        } else {
            let p = st1.code.len() as int + 1;
            let st2 = emit(t, st1, seq![op_byte(OpCode::JumpIfFalse), 0xffu8, 0xffu8]);
            let st3 = statement_spec(t, n, st2);
            if st3.failed is Some || st3.index < st.index {
                st3
            } else {
                let jump = st3.code.len() - (p + 2);
                if jump > 0xffff {
                    fail(st3, CompileError::JumpTooLarge)
                } else {
                    let st4 = patch(st3, p, jump);
                    if at(t, st4, TokenType::Else) {
                        statement_spec(t, n, advance(st4))
                    } else {
                        st4
                    }
                }
            }
        }
    }
}

/// Declarations up to a closing brace or the end.
pub open spec fn block_items_spec(t: Seq<Token>, n: Seq<u64>, st: CState) -> CState
    decreases t.len() - st.index, 7nat,
{
    if !in_range(t, st) || st.index == t.len() || t[st.index].token_type == TokenType::RightBrace {
        st
    } else {
        let st1 = declaration_spec(t, n, st);
        if st1.failed is Some || st1.index <= st.index || st1.index > t.len() {
            st1
        } else {
            block_items_spec(t, n, st1)
        }
    }
}

pub open spec fn block_spec(t: Seq<Token>, n: Seq<u64>, st: CState) -> CState
    decreases t.len() - st.index, 8nat,
{
    if !in_range(t, st) {
        st
    } else {
        let st1 = block_items_spec(t, n, st);
        if st1.failed is Some {
            st1
        } else {
            consume_spec(t, st1, TokenType::RightBrace)
        }
    }
}

pub open spec fn statement_spec(t: Seq<Token>, n: Seq<u64>, st: CState) -> CState
    decreases t.len() - st.index, 4nat,
{
    if !in_range(t, st) {
        st
    } else if at(t, st, TokenType::Print) {
        print_statement_spec(t, n, advance(st))
    } else if at(t, st, TokenType::If) {
        if_statement_spec(t, n, advance(st))
    } else if at(t, st, TokenType::LeftBrace) {
        block_spec(t, n, advance(st))
    } else {
        expression_statement_spec(t, n, st)
    }
}

pub open spec fn var_declaration_spec(t: Seq<Token>, n: Seq<u64>, st: CState) -> CState
    decreases t.len() - st.index, 2nat,
{
    if !in_range(t, st) || st.index < 1 {
        st
    } else {
        let st0 = consume_spec(t, st, TokenType::Identifier);
        let st1 = identifier_spec(t, st0);
        let slot = st.consts.len() as u8;
        if st1.failed is Some {
            st1
        } else {
            let st2 = if at(t, st1, TokenType::Equal) {
                expression_spec(t, n, advance(st1))
            } else {
                emit(t, st1, seq![op_byte(OpCode::Null)])
            };
            if st2.failed is Some {
                st2
            } else {
                emit(
                    t,
                    consume_spec(t, st2, TokenType::Semicolon),
                    seq![op_byte(OpCode::DefineGlobal), slot],
                )
            }
        }
    }
}

pub open spec fn declaration_spec(t: Seq<Token>, n: Seq<u64>, st: CState) -> CState
    decreases t.len() - st.index, 6nat,
{
    if !in_range(t, st) {
        st
    } else if at(t, st, TokenType::Var) {
        var_declaration_spec(t, n, advance(st))
    } else {
        statement_spec(t, n, st)
    }
}

/// Declarations until the tokens run out.
pub open spec fn program_spec(t: Seq<Token>, n: Seq<u64>, st: CState) -> CState
    decreases t.len() - st.index,
{
    if !in_range(t, st) || st.index == t.len() {
        st
    } else {
        let st1 = declaration_spec(t, n, st);
        if st1.failed is Some || st1.index <= st.index || st1.index > t.len() {
            st1
        } else {
            program_spec(t, n, st1)
        }
    }
}

} // verus!
