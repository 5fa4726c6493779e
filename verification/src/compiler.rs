use crate::chunk::{
    lemma_code_concat, lemma_constant_code, lemma_simple_op_code, net_effect, spec_op_byte,
    CONSTANT_BYTE, Chunk, OpCode, is_simple_op,
};
use crate::token::{Kind, Token, TokenV};
use crate::value::{views_of, Value, ValueV};
use vstd::prelude::*;
use vstd::string::StrSliceExecFns;

verus! {

/// The prefix handlers a token kind can have in the Pratt table.
#[derive(Debug, Clone, Copy, PartialEq, Eq, Structural)]
pub enum PrefixFn {
    Grouping,
    Unary,
    NumberLit,
    StringLit,
    Literal,
}

/// The infix handlers a token kind can have in the Pratt table.
#[derive(Debug, Clone, Copy, PartialEq, Eq, Structural)]
pub enum InfixFn {
    Binary,
}

/// One row of the Pratt table: the prefix handler, the infix handler, and
/// the binding power of the token as an infix operator.
#[derive(Debug, Clone, Copy)]
pub struct ParseRule {
    pub prefix: Option<PrefixFn>,
    pub infix: Option<InfixFn>,
    pub precedence: Presidence,
}

/// The precedence ladder, lowest to highest.
#[allow(non_camel_case_types)]
#[derive(Debug, Clone, Copy, PartialEq, Eq, Structural)]
pub enum Presidence {
    PREC_NONE,
    PREC_ASSIGNMENT,
    PREC_OR,
    PREC_AND,
    PREC_EQUALITY,
    PREC_COMPARISON,
    PREC_TERM,
    PREC_FACTOR,
    PREC_UNARY,
    PREC_CALL,
    PREC_PRIMARY,
}

/// The numeric level of each precedence, for comparisons.
pub open spec fn spec_prec_level(p: Presidence) -> int {
    match p {
        Presidence::PREC_NONE => 0,
        Presidence::PREC_ASSIGNMENT => 1,
        Presidence::PREC_OR => 2,
        Presidence::PREC_AND => 3,
        Presidence::PREC_EQUALITY => 4,
        Presidence::PREC_COMPARISON => 5,
        Presidence::PREC_TERM => 6,
        Presidence::PREC_FACTOR => 7,
        Presidence::PREC_UNARY => 8,
        Presidence::PREC_CALL => 9,
        Presidence::PREC_PRIMARY => 10,
    }
}

/// The precedence one step above `p`, if any.
pub open spec fn spec_prec_next(p: Presidence) -> Option<Presidence> {
    match p {
        Presidence::PREC_NONE => Some(Presidence::PREC_ASSIGNMENT),
        Presidence::PREC_ASSIGNMENT => Some(Presidence::PREC_OR),
        Presidence::PREC_OR => Some(Presidence::PREC_AND),
        Presidence::PREC_AND => Some(Presidence::PREC_EQUALITY),
        Presidence::PREC_EQUALITY => Some(Presidence::PREC_COMPARISON),
        Presidence::PREC_COMPARISON => Some(Presidence::PREC_TERM),
        Presidence::PREC_TERM => Some(Presidence::PREC_FACTOR),
        Presidence::PREC_FACTOR => Some(Presidence::PREC_UNARY),
        Presidence::PREC_UNARY => Some(Presidence::PREC_CALL),
        Presidence::PREC_CALL => Some(Presidence::PREC_PRIMARY),
        Presidence::PREC_PRIMARY => None,
    }
}

impl Presidence {
    /// The numeric level of this precedence.
    pub fn level(&self) -> (n: u8)
        ensures
            n as int == spec_prec_level(*self),
    {
        match self {
            Presidence::PREC_NONE => 0,
            Presidence::PREC_ASSIGNMENT => 1,
            Presidence::PREC_OR => 2,
            Presidence::PREC_AND => 3,
            Presidence::PREC_EQUALITY => 4,
            Presidence::PREC_COMPARISON => 5,
            Presidence::PREC_TERM => 6,
            Presidence::PREC_FACTOR => 7,
            Presidence::PREC_UNARY => 8,
            Presidence::PREC_CALL => 9,
            Presidence::PREC_PRIMARY => 10,
        }
    }

    /// The next-higher precedence; `None` only above `PREC_PRIMARY`.
    pub fn next(&self) -> (r: Option<Presidence>)
        ensures
            r == spec_prec_next(*self),
    {
        match self {
            Presidence::PREC_NONE => Some(Presidence::PREC_ASSIGNMENT),
            Presidence::PREC_ASSIGNMENT => Some(Presidence::PREC_OR),
            Presidence::PREC_OR => Some(Presidence::PREC_AND),
            Presidence::PREC_AND => Some(Presidence::PREC_EQUALITY),
            Presidence::PREC_EQUALITY => Some(Presidence::PREC_COMPARISON),
            Presidence::PREC_COMPARISON => Some(Presidence::PREC_TERM),
            Presidence::PREC_TERM => Some(Presidence::PREC_FACTOR),
            Presidence::PREC_FACTOR => Some(Presidence::PREC_UNARY),
            Presidence::PREC_UNARY => Some(Presidence::PREC_CALL),
            Presidence::PREC_CALL => Some(Presidence::PREC_PRIMARY),
            Presidence::PREC_PRIMARY => None,
        }
    }
}

/// The Pratt table as a function of the token kind.
pub open spec fn spec_rule(k: Kind) -> ParseRule {
    match k {
        Kind::LeftParen => ParseRule {
            prefix: Some(PrefixFn::Grouping),
            infix: None,
            precedence: Presidence::PREC_NONE,
        },
        Kind::Minus => ParseRule {
            prefix: Some(PrefixFn::Unary),
            infix: Some(InfixFn::Binary),
            precedence: Presidence::PREC_TERM,
        },
        Kind::Plus => ParseRule {
            prefix: None,
            infix: Some(InfixFn::Binary),
            precedence: Presidence::PREC_TERM,
        },
        Kind::Slash => ParseRule {
            prefix: None,
            infix: Some(InfixFn::Binary),
            precedence: Presidence::PREC_FACTOR,
        },
        Kind::Star => ParseRule {
            prefix: None,
            infix: Some(InfixFn::Binary),
            precedence: Presidence::PREC_FACTOR,
        },
        Kind::Bang => ParseRule {
            prefix: Some(PrefixFn::Unary),
            infix: None,
            precedence: Presidence::PREC_UNARY,
        },
        Kind::BangEqual => ParseRule {
            prefix: None,
            infix: Some(InfixFn::Binary),
            precedence: Presidence::PREC_EQUALITY,
        },
        Kind::EqualEqual => ParseRule {
            prefix: None,
            infix: Some(InfixFn::Binary),
            precedence: Presidence::PREC_EQUALITY,
        },
        Kind::Greater => ParseRule {
            prefix: None,
            infix: Some(InfixFn::Binary),
            precedence: Presidence::PREC_COMPARISON,
        },
        Kind::GreaterEqual => ParseRule {
            prefix: None,
            infix: Some(InfixFn::Binary),
            precedence: Presidence::PREC_COMPARISON,
        },
        Kind::Less => ParseRule {
            prefix: None,
            infix: Some(InfixFn::Binary),
            precedence: Presidence::PREC_COMPARISON,
        },
        Kind::LessEqual => ParseRule {
            prefix: None,
            infix: Some(InfixFn::Binary),
            precedence: Presidence::PREC_COMPARISON,
        },
        Kind::StringLiteral => ParseRule {
            prefix: Some(PrefixFn::StringLit),
            infix: None,
            precedence: Presidence::PREC_NONE,
        },
        Kind::NumberLiteral => ParseRule {
            prefix: Some(PrefixFn::NumberLit),
            infix: None,
            precedence: Presidence::PREC_NONE,
        },
        Kind::True => ParseRule {
            prefix: Some(PrefixFn::Literal),
            infix: None,
            precedence: Presidence::PREC_NONE,
        },
        Kind::False => ParseRule {
            prefix: Some(PrefixFn::Literal),
            infix: None,
            precedence: Presidence::PREC_NONE,
        },
        Kind::Nil => ParseRule {
            prefix: Some(PrefixFn::Literal),
            infix: None,
            precedence: Presidence::PREC_NONE,
        },
        _ => ParseRule { prefix: None, infix: None, precedence: Presidence::PREC_NONE },
    }
}

/// Builds one row of the Pratt table.
pub fn run(prefix: Option<PrefixFn>, infix: Option<InfixFn>, presidence: Presidence) -> (r:
    ParseRule)
    ensures
        r.prefix == prefix,
        r.infix == infix,
        r.precedence == presidence,
{
    ParseRule { prefix, infix, precedence: presidence }
}

/// Looks the token kind up in the Pratt table.
pub fn rule_for_token(token: &Kind) -> (r: ParseRule)
    ensures
        r == spec_rule(*token),
{
    match token {
        Kind::LeftParen => run(Some(PrefixFn::Grouping), None, Presidence::PREC_NONE),
        Kind::Minus => run(Some(PrefixFn::Unary), Some(InfixFn::Binary), Presidence::PREC_TERM),
        Kind::Plus => run(None, Some(InfixFn::Binary), Presidence::PREC_TERM),
        Kind::Slash => run(None, Some(InfixFn::Binary), Presidence::PREC_FACTOR),
        Kind::Star => run(None, Some(InfixFn::Binary), Presidence::PREC_FACTOR),
        Kind::Bang => run(Some(PrefixFn::Unary), None, Presidence::PREC_UNARY),
        Kind::BangEqual => run(None, Some(InfixFn::Binary), Presidence::PREC_EQUALITY),
        Kind::EqualEqual => run(None, Some(InfixFn::Binary), Presidence::PREC_EQUALITY),
        Kind::Greater => run(None, Some(InfixFn::Binary), Presidence::PREC_COMPARISON),
        Kind::GreaterEqual => run(None, Some(InfixFn::Binary), Presidence::PREC_COMPARISON),
        Kind::Less => run(None, Some(InfixFn::Binary), Presidence::PREC_COMPARISON),
        Kind::LessEqual => run(None, Some(InfixFn::Binary), Presidence::PREC_COMPARISON),
        Kind::StringLiteral => run(Some(PrefixFn::StringLit), None, Presidence::PREC_NONE),
        Kind::NumberLiteral => run(Some(PrefixFn::NumberLit), None, Presidence::PREC_NONE),
        Kind::True => run(Some(PrefixFn::Literal), None, Presidence::PREC_NONE),
        Kind::False => run(Some(PrefixFn::Literal), None, Presidence::PREC_NONE),
        Kind::Nil => run(Some(PrefixFn::Literal), None, Presidence::PREC_NONE),
        _ => run(None, None, Presidence::PREC_NONE),
    }
}

/// The text of a string literal with its surrounding quotes stripped.
pub open spec fn strip_quotes(s: Seq<char>) -> Seq<char> {
    if s.len() >= 2 {
        s.subrange(1, s.len() - 1)
    } else {
        s
    }
}

/// The parser state: the token under the cursor, the one before it, and the
/// two error flags.
pub struct Parser {
    pub current: Token,
    pub previous: Token,
    pub has_error: bool,
    pub panic_mode: bool,
}

/// One compile-time diagnostic, kept for the caller to print.
pub struct CompileError {
    pub line: usize,
    pub kind: Kind,
    pub lexeme: String,
    pub message: String,
}

/// One diagnostic at the specification level.
pub struct ErrV {
    pub line: int,
    pub kind: Kind,
    pub lexeme: Seq<char>,
    pub message: Seq<char>,
}

impl View for CompileError {
    type V = ErrV;

    open spec fn view(&self) -> ErrV {
        ErrV {
            line: self.line as int,
            kind: self.kind,
            lexeme: self.lexeme@,
            message: self.message@,
        }
    }
}

/// The diagnostic views of a recorded sequence.
pub open spec fn err_views(s: Seq<CompileError>) -> Seq<ErrV> {
    s.map_values(|e: CompileError| e@)
}

/// The compiler's mathematical state: the cursor positions, the two parser
/// tokens, the error flags, the chunk being built, and the diagnostics.
pub struct CompV {
    pub pos: int,
    pub cur_pos: int,
    pub prev_pos: int,
    pub current: TokenV,
    pub previous: TokenV,
    pub has_error: bool,
    pub panic_mode: bool,
    pub code: Seq<u8>,
    pub lines: Seq<usize>,
    pub consts: Seq<ValueV>,
    pub errors: Seq<ErrV>,
}

/// The state a fresh compiler starts in: everything empty, the cursors at
/// the stream's start, and a synthetic `Eof` token under the cursor until
/// the first `advance` fetches a real one.
pub open spec fn spec_fresh_comp() -> CompV {
    CompV {
        pos: 0,
        cur_pos: 0,
        prev_pos: 0,
        current: (TokenV { kind: Kind::Eof, line: 0, index_in_source: 0, string: Seq::empty() }),
        previous: (TokenV { kind: Kind::Eof, line: 0, index_in_source: 0, string: Seq::empty() }),
        has_error: false,
        panic_mode: false,
        code: Seq::empty(),
        lines: Seq::empty(),
        consts: Seq::empty(),
        errors: Seq::empty(),
    }
}

/// The specification compiler is a function of the token stream and the
/// decoded number table: compiling one source twice gives the same verdict
/// and byte-identical chunks — code, line table and constant pool alike,
/// the constants compared as mathematical values, so equal string text
/// rather than one shared handle.
pub proof fn lemma_compile_deterministic(
    fuel: nat,
    toks: Seq<TokenV>,
    nums: Seq<u64>,
    st: CompV,
    r1: (bool, CompV),
    r2: (bool, CompV),
)
    requires
        spec_compile(fuel, toks, nums, st) == Some(r1),
        spec_compile(fuel, toks, nums, st) == Some(r2),
    ensures
        r1 == r2,
{
}

/// The state after a diagnostic is recorded against the current token: both
/// flags raised and the diagnostic appended, nothing else touched.
pub open spec fn spec_error_at(st: CompV, msg: Seq<char>) -> CompV {
    CompV {
        has_error: true,
        panic_mode: true,
        errors: st.errors.push(
            ErrV {
                line: st.current.line,
                kind: st.current.kind,
                lexeme: st.current.string,
                message: msg,
            },
        ),
        ..st
    }
}

/// The fetch half of `advance`: the token under `pos` becomes current and,
/// unless it is `Eof`, is moved past; an `Error` token is recorded as a
/// diagnostic, with its own text as the message, and skipped.
pub open spec fn spec_advance_loop(toks: Seq<TokenV>, st: CompV) -> CompV
    decreases toks.len() - st.pos,
{
    if !(0 <= st.pos < toks.len()) {
        st
    } else {
        let t = toks[st.pos];
        let st2 = CompV {
            pos: if t.kind == Kind::Eof {
                st.pos
            } else {
                st.pos + 1
            },
            cur_pos: st.pos,
            current: t,
            ..st
        };
        if t.kind == Kind::Error {
            spec_advance_loop(toks, spec_error_at(st2, t.string))
        } else {
            st2
        }
    }
}

/// `advance`: the current token becomes the previous one, and the next
/// non-`Error` token becomes current.
pub open spec fn spec_advance(toks: Seq<TokenV>, st: CompV) -> CompV {
    spec_advance_loop(toks, CompV { previous: st.current, prev_pos: st.cur_pos, ..st })
}

/// `consume`: the expected kind is advanced past; any other kind is
/// reported with the message, consuming nothing.
pub open spec fn spec_consume(toks: Seq<TokenV>, token: Kind, msg: Seq<char>, st: CompV) -> CompV {
    if st.current.kind == token {
        spec_advance(toks, st)
    } else {
        spec_error_at(st, msg)
    }
}

/// One emitted code byte, recorded against the previous token's line.
pub open spec fn spec_emit_byte(st: CompV, byte: u8) -> CompV {
    CompV { code: st.code.push(byte), lines: st.lines.push(st.previous.line as usize), ..st }
}

/// Two code bytes emitted in a row, on the same line.
pub open spec fn spec_emit_two(st: CompV, byte_1: u8, byte_2: u8) -> CompV {
    spec_emit_byte(spec_emit_byte(st, byte_1), byte_2)
}

/// `make_constnat`: the operand byte for a value appended to the pool; past
/// 256 entries the one-byte encoding overflows, which is reported, and
/// index 0 is substituted.
pub open spec fn spec_make_constnat(st: CompV, v: ValueV) -> (u8, CompV) {
    let grown = CompV { consts: st.consts.push(v), ..st };
    if st.consts.len() <= 255 {
        (st.consts.len() as u8, grown)
    } else {
        (0u8, spec_error_at(grown, "Too many constants"@))
    }
}

/// `emit_constant`: the value goes to the pool and an `Op_Constnats`
/// instruction naming its operand byte is emitted.
pub open spec fn spec_emit_constant(st: CompV, v: ValueV) -> CompV {
    let bc = spec_make_constnat(st, v);
    spec_emit_two(bc.1, CONSTANT_BYTE, bc.0)
}

/// `number`: the decoded bit pattern of the literal under `previous`
/// becomes a number constant.
pub open spec fn spec_number(nums: Seq<u64>, st: CompV) -> CompV {
    spec_emit_constant(
        st,
        ValueV::Num(
            if 0 <= st.prev_pos < nums.len() {
                nums[st.prev_pos]
            } else {
                0
            },
        ),
    )
}

/// `string`: the text under `previous`, quotes stripped, becomes a string
/// constant.
pub open spec fn spec_string(st: CompV) -> CompV {
    spec_emit_constant(st, ValueV::Str(strip_quotes(st.previous.string)))
}

/// `literal`: the one-byte instruction for the keyword under `previous`.
pub open spec fn spec_literal(st: CompV) -> CompV {
    if st.previous.kind == Kind::True {
        spec_emit_byte(st, spec_op_byte(OpCode::OP_TRUE))
    } else if st.previous.kind == Kind::Nil {
        spec_emit_byte(st, spec_op_byte(OpCode::OP_NIL))
    } else {
        spec_emit_byte(st, spec_op_byte(OpCode::OP_FALSE))
    }
}

/// `parsePrecedence`: one token is consumed and its prefix rule applied — a
/// missing rule is reported — then infix operators fold in.  The `fuel`
/// bounds the recursion; the remaining input always suffices, and `None`
/// stands only for fuel running out.
pub open spec fn spec_parse_prec(
    fuel: nat,
    toks: Seq<TokenV>,
    nums: Seq<u64>,
    prec: Presidence,
    st: CompV,
) -> Option<CompV>
    decreases fuel, 1int,
{
    if fuel == 0 {
        None
    } else {
        let st1 = spec_advance(toks, st);
        match spec_rule(st1.previous.kind).prefix {
            None => Some(spec_error_at(st1, "Expected expression"@)),
            Some(pf) => {
                let mid = if pf == PrefixFn::Grouping {
                    spec_grouping((fuel - 1) as nat, toks, nums, st1)
                } else if pf == PrefixFn::Unary {
                    spec_unary((fuel - 1) as nat, toks, nums, st1)
                } else if pf == PrefixFn::NumberLit {
                    Some(spec_number(nums, st1))
                } else if pf == PrefixFn::StringLit {
                    Some(spec_string(st1))
                } else {
                    Some(spec_literal(st1))
                };
                match mid {
                    None => None,
                    Some(st2) => spec_infix_loop((fuel - 1) as nat, toks, nums, prec, st2),
                }
            },
        }
    }
}

/// The infix half of `parsePrecedence`: while the current token binds at
/// least as tightly as `prec`, it is consumed and its infix rule applied; a
/// binding token without an infix rule is reported.
pub open spec fn spec_infix_loop(
    fuel: nat,
    toks: Seq<TokenV>,
    nums: Seq<u64>,
    prec: Presidence,
    st: CompV,
) -> Option<CompV>
    decreases fuel, 0int,
{
    if !(spec_prec_level(prec) <= spec_prec_level(spec_rule(st.current.kind).precedence)) {
        Some(st)
    } else if fuel == 0 {
        None
    } else {
        let st1 = spec_advance(toks, st);
        if spec_rule(st1.previous.kind).infix == Some(InfixFn::Binary) {
            match spec_binary((fuel - 1) as nat, toks, nums, st1) {
                None => None,
                Some(st2) => spec_infix_loop((fuel - 1) as nat, toks, nums, prec, st2),
            }
        } else {
            Some(spec_error_at(st1, "Expected expression"@))
        }
    }
}

/// `binary`: the right operand at the next-higher precedence — which makes
/// the operator left-associative — then its instruction: `+` ADD, `-`
/// SUBTRACT, `*` MULTIPLY, `/` DIVIDE, `==` EQUAL, `!=` EQUAL NOT, `>`
/// GREATER, `<` LESS, `<=` GREATER NOT, `>=` LESS NOT.
pub open spec fn spec_binary(fuel: nat, toks: Seq<TokenV>, nums: Seq<u64>, st: CompV) -> Option<
    CompV,
>
    decreases fuel, 2int,
{
    let op = st.previous.kind;
    let np = match spec_prec_next(spec_rule(op).precedence) {
        Some(p) => p,
        None => Presidence::PREC_PRIMARY,
    };
    match spec_parse_prec(fuel, toks, nums, np, st) {
        None => None,
        Some(st2) => Some(
            if op == Kind::Plus {
                spec_emit_byte(st2, spec_op_byte(OpCode::OP_ADD))
            } else if op == Kind::Minus {
                spec_emit_byte(st2, spec_op_byte(OpCode::OP_SUBTRACT))
            } else if op == Kind::Star {
                spec_emit_byte(st2, spec_op_byte(OpCode::OP_MULTIPLY))
            } else if op == Kind::Slash {
                spec_emit_byte(st2, spec_op_byte(OpCode::OP_DIVIDE))
            } else if op == Kind::EqualEqual {
                spec_emit_byte(st2, spec_op_byte(OpCode::OP_EQUAL))
            } else if op == Kind::BangEqual {
                spec_emit_two(st2, spec_op_byte(OpCode::OP_EQUAL), spec_op_byte(OpCode::OP_NOT))
            } else if op == Kind::Greater {
                spec_emit_byte(st2, spec_op_byte(OpCode::OP_GREATER))
            } else if op == Kind::Less {
                spec_emit_byte(st2, spec_op_byte(OpCode::OP_LESS))
            } else if op == Kind::LessEqual {
                spec_emit_two(st2, spec_op_byte(OpCode::OP_GREATER), spec_op_byte(OpCode::OP_NOT))
            } else if op == Kind::GreaterEqual {
                spec_emit_two(st2, spec_op_byte(OpCode::OP_LESS), spec_op_byte(OpCode::OP_NOT))
            } else {
                st2
            },
        ),
    }
}

/// `unary`: the operand at `PREC_UNARY`, then NEGATE for `-` or NOT for
/// `!`.
pub open spec fn spec_unary(fuel: nat, toks: Seq<TokenV>, nums: Seq<u64>, st: CompV) -> Option<
    CompV,
>
    decreases fuel, 2int,
{
    let op = st.previous.kind;
    match spec_parse_prec(fuel, toks, nums, Presidence::PREC_UNARY, st) {
        None => None,
        Some(st2) => Some(
            if op == Kind::Minus {
                spec_emit_byte(st2, spec_op_byte(OpCode::OP_NEGATE))
            } else {
                spec_emit_byte(st2, spec_op_byte(OpCode::OP_NOT))
            },
        ),
    }
}

/// `expression`: a full expression at assignment precedence.
pub open spec fn spec_expression(fuel: nat, toks: Seq<TokenV>, nums: Seq<u64>, st: CompV) -> Option<
    CompV,
>
    decreases fuel, 3int,
{
    spec_parse_prec(fuel, toks, nums, Presidence::PREC_ASSIGNMENT, st)
}

/// `grouping`: a parenthesized expression; the `(` is already consumed.
pub open spec fn spec_grouping(fuel: nat, toks: Seq<TokenV>, nums: Seq<u64>, st: CompV) -> Option<
    CompV,
>
    decreases fuel, 4int,
{
    match spec_expression(fuel, toks, nums, st) {
        None => None,
        Some(st2) => Some(
            spec_consume(toks, Kind::RightParen, "Expected ) after expression"@, st2),
        ),
    }
}

/// `printStatement`: `(` expression `)` `;` then `OP_PRINT`; the `print`
/// keyword is already consumed.
pub open spec fn spec_print_statement(
    fuel: nat,
    toks: Seq<TokenV>,
    nums: Seq<u64>,
    st: CompV,
) -> Option<CompV>
    decreases fuel, 5int,
{
    let st1 = spec_consume(toks, Kind::LeftParen, "Expected ( before Expression "@, st);
    match spec_expression(fuel, toks, nums, st1) {
        None => None,
        Some(st2) => {
            let st3 = spec_consume(toks, Kind::RightParen, "Expected ( after Expression "@, st2);
            let st4 = spec_consume(toks, Kind::Semicolon, "Expected ; after Expression "@, st3);
            Some(spec_emit_byte(st4, spec_op_byte(OpCode::OP_PRINT)))
        },
    }
}

/// `statement`: a `print` statement; any other token is reported.
pub open spec fn spec_statement(fuel: nat, toks: Seq<TokenV>, nums: Seq<u64>, st: CompV) -> Option<
    CompV,
>
    decreases fuel, 6int,
{
    if st.current.kind == Kind::Print {
        spec_print_statement(fuel, toks, nums, spec_advance(toks, st))
    } else {
        Some(spec_error_at(st, "Expected statement"@))
    }
}

/// `declaration`: in this language, a statement.
pub open spec fn spec_declaration(fuel: nat, toks: Seq<TokenV>, nums: Seq<u64>, st: CompV) -> Option<
    CompV,
>
    decreases fuel, 7int,
{
    spec_statement(fuel, toks, nums, st)
}

/// The declaration loop of `compile`: declarations until `Eof` — whose
/// token is then consumed — stopping early in panic mode.
pub open spec fn spec_compile_loop(
    fuel: nat,
    toks: Seq<TokenV>,
    nums: Seq<u64>,
    st: CompV,
) -> Option<CompV>
    decreases fuel, 8int,
{
    if st.current.kind == Kind::Eof {
        Some(spec_advance(toks, st))
    } else if fuel == 0 {
        None
    } else {
        match spec_declaration(fuel, toks, nums, st) {
            None => None,
            Some(st2) => {
                if st2.panic_mode {
                    Some(st2)
                } else {
                    spec_compile_loop((fuel - 1) as nat, toks, nums, st2)
                }
            },
        }
    }
}

/// `compile`: flags cleared, the stream primed with one `advance`,
/// declarations until `Eof`, the trailing `Eof` consumed, and the closing
/// `Return` appended; the verdict is the error flag's complement.
pub open spec fn spec_compile(fuel: nat, toks: Seq<TokenV>, nums: Seq<u64>, st: CompV) -> Option<
    (bool, CompV),
>
    decreases fuel, 9int,
{
    let st0 = CompV { has_error: false, panic_mode: false, ..st };
    let st1 = spec_advance(toks, st0);
    match spec_compile_loop(fuel, toks, nums, st1) {
        None => None,
        Some(st2) => {
            let st3 = spec_consume(toks, Kind::Eof, "Expected End of expression"@, st2);
            let st4 = spec_emit_byte(st3, spec_op_byte(OpCode::Return));
            Some((!st4.has_error, st4))
        },
    }
}

/// Giving the specification compiler more fuel never changes a result it
/// already reaches.
pub proof fn lemma_parse_prec_mono(
    f1: nat,
    f2: nat,
    toks: Seq<TokenV>,
    nums: Seq<u64>,
    prec: Presidence,
    st: CompV,
)
    requires
        f1 <= f2,
        spec_parse_prec(f1, toks, nums, prec, st) is Some,
    ensures
        spec_parse_prec(f2, toks, nums, prec, st) == spec_parse_prec(f1, toks, nums, prec, st),
    decreases f1, 1int,
{
    if f1 > 0 {
        let st1 = spec_advance(toks, st);
        if let Some(pf) = spec_rule(st1.previous.kind).prefix {
            let mid = if pf == PrefixFn::Grouping {
                spec_grouping((f1 - 1) as nat, toks, nums, st1)
            } else if pf == PrefixFn::Unary {
                spec_unary((f1 - 1) as nat, toks, nums, st1)
            } else if pf == PrefixFn::NumberLit {
                Some(spec_number(nums, st1))
            } else if pf == PrefixFn::StringLit {
                Some(spec_string(st1))
            } else {
                Some(spec_literal(st1))
            };
            if mid is Some {
                if pf == PrefixFn::Grouping {
                    lemma_grouping_mono((f1 - 1) as nat, (f2 - 1) as nat, toks, nums, st1);
                }
                if pf == PrefixFn::Unary {
                    lemma_unary_mono((f1 - 1) as nat, (f2 - 1) as nat, toks, nums, st1);
                }
                if spec_infix_loop((f1 - 1) as nat, toks, nums, prec, mid.unwrap()) is Some {
                    lemma_infix_loop_mono(
                        (f1 - 1) as nat,
                        (f2 - 1) as nat,
                        toks,
                        nums,
                        prec,
                        mid.unwrap(),
                    );
                }
            }
        }
    }
}

/// Fuel monotonicity for the infix half of `parsePrecedence`.
pub proof fn lemma_infix_loop_mono(
    f1: nat,
    f2: nat,
    toks: Seq<TokenV>,
    nums: Seq<u64>,
    prec: Presidence,
    st: CompV,
)
    requires
        f1 <= f2,
        spec_infix_loop(f1, toks, nums, prec, st) is Some,
    ensures
        spec_infix_loop(f2, toks, nums, prec, st) == spec_infix_loop(f1, toks, nums, prec, st),
    decreases f1, 0int,
{
    if spec_prec_level(prec) <= spec_prec_level(spec_rule(st.current.kind).precedence) && f1 > 0 {
        let st1 = spec_advance(toks, st);
        if spec_rule(st1.previous.kind).infix == Some(InfixFn::Binary) {
            let b1 = spec_binary((f1 - 1) as nat, toks, nums, st1);
            if b1 is Some {
                lemma_binary_mono((f1 - 1) as nat, (f2 - 1) as nat, toks, nums, st1);
                if spec_infix_loop((f1 - 1) as nat, toks, nums, prec, b1.unwrap()) is Some {
                    lemma_infix_loop_mono(
                        (f1 - 1) as nat,
                        (f2 - 1) as nat,
                        toks,
                        nums,
                        prec,
                        b1.unwrap(),
                    );
                }
            }
        }
    }
}

/// Fuel monotonicity for `binary`.
pub proof fn lemma_binary_mono(f1: nat, f2: nat, toks: Seq<TokenV>, nums: Seq<u64>, st: CompV)
    requires
        f1 <= f2,
        spec_binary(f1, toks, nums, st) is Some,
    ensures
        spec_binary(f2, toks, nums, st) == spec_binary(f1, toks, nums, st),
    decreases f1, 2int,
{
    let np = match spec_prec_next(spec_rule(st.previous.kind).precedence) {
        Some(p) => p,
        None => Presidence::PREC_PRIMARY,
    };
    if spec_parse_prec(f1, toks, nums, np, st) is Some {
        lemma_parse_prec_mono(f1, f2, toks, nums, np, st);
    }
}

/// Fuel monotonicity for `unary`.
pub proof fn lemma_unary_mono(f1: nat, f2: nat, toks: Seq<TokenV>, nums: Seq<u64>, st: CompV)
    requires
        f1 <= f2,
        spec_unary(f1, toks, nums, st) is Some,
    ensures
        spec_unary(f2, toks, nums, st) == spec_unary(f1, toks, nums, st),
    decreases f1, 2int,
{
    if spec_parse_prec(f1, toks, nums, Presidence::PREC_UNARY, st) is Some {
        lemma_parse_prec_mono(f1, f2, toks, nums, Presidence::PREC_UNARY, st);
    }
}

/// Fuel monotonicity for `expression`.
pub proof fn lemma_expression_mono(f1: nat, f2: nat, toks: Seq<TokenV>, nums: Seq<u64>, st: CompV)
    requires
        f1 <= f2,
        spec_expression(f1, toks, nums, st) is Some,
    ensures
        spec_expression(f2, toks, nums, st) == spec_expression(f1, toks, nums, st),
    decreases f1, 3int,
{
    lemma_parse_prec_mono(f1, f2, toks, nums, Presidence::PREC_ASSIGNMENT, st);
}

/// Fuel monotonicity for `grouping`.
pub proof fn lemma_grouping_mono(f1: nat, f2: nat, toks: Seq<TokenV>, nums: Seq<u64>, st: CompV)
    requires
        f1 <= f2,
        spec_grouping(f1, toks, nums, st) is Some,
    ensures
        spec_grouping(f2, toks, nums, st) == spec_grouping(f1, toks, nums, st),
    decreases f1, 4int,
{
    if spec_expression(f1, toks, nums, st) is Some {
        lemma_expression_mono(f1, f2, toks, nums, st);
    }
}

/// Fuel monotonicity for `printStatement`.
pub proof fn lemma_print_statement_mono(
    f1: nat,
    f2: nat,
    toks: Seq<TokenV>,
    nums: Seq<u64>,
    st: CompV,
)
    requires
        f1 <= f2,
        spec_print_statement(f1, toks, nums, st) is Some,
    ensures
        spec_print_statement(f2, toks, nums, st) == spec_print_statement(f1, toks, nums, st),
    decreases f1, 5int,
{
    let st1 = spec_consume(toks, Kind::LeftParen, "Expected ( before Expression "@, st);
    if spec_expression(f1, toks, nums, st1) is Some {
        lemma_expression_mono(f1, f2, toks, nums, st1);
    }
}

/// Fuel monotonicity for `statement`.
pub proof fn lemma_statement_mono(f1: nat, f2: nat, toks: Seq<TokenV>, nums: Seq<u64>, st: CompV)
    requires
        f1 <= f2,
        spec_statement(f1, toks, nums, st) is Some,
    ensures
        spec_statement(f2, toks, nums, st) == spec_statement(f1, toks, nums, st),
    decreases f1, 6int,
{
    if st.current.kind == Kind::Print {
        lemma_print_statement_mono(f1, f2, toks, nums, spec_advance(toks, st));
    }
}

/// Fuel monotonicity for `declaration`.
pub proof fn lemma_declaration_mono(f1: nat, f2: nat, toks: Seq<TokenV>, nums: Seq<u64>, st: CompV)
    requires
        f1 <= f2,
        spec_declaration(f1, toks, nums, st) is Some,
    ensures
        spec_declaration(f2, toks, nums, st) == spec_declaration(f1, toks, nums, st),
    decreases f1, 7int,
{
    lemma_statement_mono(f1, f2, toks, nums, st);
}

/// Fuel monotonicity for the declaration loop.
pub proof fn lemma_compile_loop_mono(f1: nat, f2: nat, toks: Seq<TokenV>, nums: Seq<u64>, st: CompV)
    requires
        f1 <= f2,
        spec_compile_loop(f1, toks, nums, st) is Some,
    ensures
        spec_compile_loop(f2, toks, nums, st) == spec_compile_loop(f1, toks, nums, st),
    decreases f1, 8int,
{
    if st.current.kind != Kind::Eof && f1 > 0 {
        let d1 = spec_declaration(f1, toks, nums, st);
        if d1 is Some {
            lemma_declaration_mono(f1, f2, toks, nums, st);
            if !d1.unwrap().panic_mode {
                if spec_compile_loop((f1 - 1) as nat, toks, nums, d1.unwrap()) is Some {
                    lemma_compile_loop_mono(
                        (f1 - 1) as nat,
                        (f2 - 1) as nat,
                        toks,
                        nums,
                        d1.unwrap(),
                    );
                }
            }
        }
    }
}

/// The single-pass Pratt compiler.  It owns the token stream, a table with
/// the decoded bit pattern of every number literal (aligned with the token
/// stream by index), the parser state, and the chunk being filled.
///
/// The caller decodes each `NumberLiteral` lexeme to the bits of an IEEE-754
/// double before compiling; everything after that decoding is verified.
pub struct Compiler {
    pub tokens: Vec<Token>,
    pub numbers: Vec<u64>,
    pub pos: usize,
    pub cur_pos: usize,
    pub prev_pos: usize,
    pub parser: Parser,
    pub current: Chunk,
    pub errors: Vec<CompileError>,
}

impl Compiler {
    /// The token stream is non-empty, exactly its last token is `Eof`, the
    /// number table is aligned with it, the cursors are in range, and the
    /// chunk invariant holds.
    pub open spec fn wf(self) -> bool {
        &&& self.tokens@.len() >= 1
        &&& self.tokens@.last().kind == Kind::Eof
        &&& (forall|i: int|
            0 <= i < self.tokens@.len() - 1 ==> (#[trigger] self.tokens@[i].kind) != Kind::Eof)
        &&& self.numbers@.len() == self.tokens@.len()
        &&& self.pos < self.tokens@.len()
        &&& self.cur_pos < self.tokens@.len()
        &&& self.prev_pos < self.tokens@.len()
        &&& self.current.wf()
    }

    /// How much input is left to consume: the unfetched tokens, plus one for
    /// a fetched token that is not yet past.
    pub open spec fn measure(self) -> int {
        self.tokens@.len() - self.pos + if self.parser.current.kind != Kind::Eof {
            1int
        } else {
            0int
        }
    }

    /// Whether the stream holds no `Error` token.
    pub open spec fn no_error_tokens(self) -> bool {
        forall|i: int|
            0 <= i < self.tokens@.len() ==> (#[trigger] self.tokens@[i].kind) != Kind::Error
    }

    /// The compiler's mathematical state.
    pub open spec fn comp_v(self) -> CompV {
        CompV {
            pos: self.pos as int,
            cur_pos: self.cur_pos as int,
            prev_pos: self.prev_pos as int,
            current: self.parser.current@,
            previous: self.parser.previous@,
            has_error: self.parser.has_error,
            panic_mode: self.parser.panic_mode,
            code: self.current.code@,
            lines: self.current.lines@,
            consts: views_of(self.current.constants.values@),
            errors: err_views(self.errors@),
        }
    }

    /// Net stack effect of the code emitted so far.
    pub open spec fn net(self) -> int {
        net_effect(self.current.code@)
    }

    /// What one parsing step keeps: the inputs, the stickiness of the error
    /// flags, the bound on the remaining input, and the tie between the
    /// error flag and the diagnostics: errors only accumulate, and raising
    /// the flag records at least one.
    pub open spec fn parse_step(old_c: Compiler, new_c: Compiler) -> bool {
        &&& new_c.tokens@ == old_c.tokens@
        &&& new_c.numbers@ == old_c.numbers@
        &&& (old_c.parser.has_error ==> new_c.parser.has_error)
        &&& (old_c.parser.panic_mode ==> new_c.parser.panic_mode)
        &&& new_c.measure() <= old_c.measure()
        &&& new_c.errors@.len() >= old_c.errors@.len()
        &&& (new_c.parser.has_error && !old_c.parser.has_error ==> new_c.errors@.len()
            > old_c.errors@.len())
        &&& (!new_c.parser.has_error ==> new_c.errors@ == old_c.errors@)
    }

    /// A compiler over a scanned token stream and the decoded bit patterns
    /// of its number literals (`numbers[i]` is read when `tokens[i]` is a
    /// `NumberLiteral`).  The chunk starts empty.
    pub fn new(tokens: Vec<Token>, numbers: Vec<u64>) -> (c: Compiler)
        requires
            tokens@.len() >= 1,
            tokens@.last().kind == Kind::Eof,
            forall|i: int| 0 <= i < tokens@.len() - 1 ==> (#[trigger] tokens@[i].kind) != Kind::Eof,
            numbers@.len() == tokens@.len(),
        ensures
            c.wf(),
            c.tokens@ == tokens@,
            c.numbers@ == numbers@,
            c.pos == 0,
            c.current.code@.len() == 0,
            c.current.constants.values@.len() == 0,
            c.errors@.len() == 0,
            !c.parser.has_error,
            !c.parser.panic_mode,
            c.measure() == tokens@.len(),
            c.comp_v() == spec_fresh_comp(),
    {
        let c = Compiler {
            tokens,
            numbers,
            pos: 0,
            cur_pos: 0,
            prev_pos: 0,
            parser: Parser {
                current: Token {
                    kind: Kind::Eof,
                    line: 0,
                    index_in_source: 0,
                    string: String::new(),
                },
                previous: Token {
                    kind: Kind::Eof,
                    line: 0,
                    index_in_source: 0,
                    string: String::new(),
                },
                has_error: false,
                panic_mode: false,
            },
            current: Chunk::new(),
            errors: Vec::new(),
        };
        proof {
            assert(views_of(c.current.constants.values@) =~= Seq::<ValueV>::empty());
            assert(err_views(c.errors@) =~= Seq::<ErrV>::empty());
            assert(c.current.code@ =~= Seq::<u8>::empty());
            assert(c.current.lines@ =~= Seq::<usize>::empty());
            assert(c.comp_v() == spec_fresh_comp());
        }
        c
    }

    /// Records a diagnostic against the token under the cursor and raises
    /// both error flags.
    #[allow(non_snake_case)]
    pub(crate) fn errorAt(&mut self, data: &String)
        requires
            old(self).wf(),
        ensures
            final(self).wf(),
            Self::parse_step(*old(self), *final(self)),
            final(self).parser.has_error,
            final(self).parser.panic_mode,
            final(self).parser.current == old(self).parser.current,
            final(self).parser.previous == old(self).parser.previous,
            final(self).pos == old(self).pos,
            final(self).cur_pos == old(self).cur_pos,
            final(self).prev_pos == old(self).prev_pos,
            final(self).current == old(self).current,
            final(self).measure() == old(self).measure(),
            final(self).errors@.len() == old(self).errors@.len() + 1,
            err_views(final(self).errors@) == err_views(old(self).errors@).push(
                (ErrV {
                    line: old(self).parser.current.line as int,
                    kind: old(self).parser.current.kind,
                    lexeme: old(self).parser.current.string@,
                    message: data@,
                }),
            ),
            final(self).comp_v() == spec_error_at(old(self).comp_v(), data@),
    {
        let error = CompileError {
            line: self.parser.current.line,
            kind: self.parser.current.kind,
            lexeme: self.parser.current.string.clone(),
            message: data.clone(),
        };
        proof {
            assert(err_views(self.errors@.push(error)) =~= err_views(self.errors@).push(error@));
        }
        self.errors.push(error);
        self.parser.panic_mode = true;
        self.parser.has_error = true;
    }

    /// Records a diagnostic against the current token.
    #[allow(non_snake_case)]
    pub(crate) fn errorAtCurrent(&mut self, data: &String)
        requires
            old(self).wf(),
        ensures
            final(self).wf(),
            Self::parse_step(*old(self), *final(self)),
            final(self).parser.has_error,
            final(self).parser.panic_mode,
            final(self).parser.current == old(self).parser.current,
            final(self).parser.previous == old(self).parser.previous,
            final(self).pos == old(self).pos,
            final(self).cur_pos == old(self).cur_pos,
            final(self).prev_pos == old(self).prev_pos,
            final(self).current == old(self).current,
            final(self).measure() == old(self).measure(),
            final(self).errors@.len() == old(self).errors@.len() + 1,
            final(self).comp_v() == spec_error_at(old(self).comp_v(), data@),
    {
        self.errorAt(data);
    }

    /// Moves the cursor one token forward: the current token becomes the
    /// previous one, and the next non-`Error` token becomes current.  Each
    /// skipped `Error` token is reported as a diagnostic.  At the end of the
    /// stream the current token stays `Eof`.
    pub fn advance(&mut self)
        requires
            old(self).wf(),
        ensures
            final(self).wf(),
            Self::parse_step(*old(self), *final(self)),
            final(self).current == old(self).current,
            final(self).parser.previous == old(self).parser.current,
            final(self).prev_pos == old(self).cur_pos,
            final(self).parser.current == final(self).tokens@[final(self).cur_pos as int],
            final(self).parser.current.kind != Kind::Error,
            old(self).parser.current.kind != Kind::Eof ==> final(self).measure() < old(self).measure(),
            old(self).no_error_tokens() ==> {
                &&& final(self).parser.has_error == old(self).parser.has_error
                &&& final(self).parser.panic_mode == old(self).parser.panic_mode
                &&& final(self).errors@ == old(self).errors@
                &&& final(self).cur_pos == old(self).pos
                &&& final(self).pos == if old(self).tokens@[old(self).pos as int].kind
                    == Kind::Eof {
                    old(self).pos as int
                } else {
                    old(self).pos + 1
                }
            },
            final(self).comp_v() == spec_advance(
                crate::scanner::token_views(old(self).tokens@),
                old(self).comp_v(),
            ),
    {
        let ghost toks = crate::scanner::token_views(self.tokens@);
        self.parser.previous = self.parser.current.clone();
        self.prev_pos = self.cur_pos;
        let ghost target = spec_advance_loop(toks, self.comp_v());
        proof {
            assert(self.comp_v() == (CompV {
                previous: old(self).parser.current@,
                prev_pos: old(self).cur_pos as int,
                ..old(self).comp_v()
            }));
        }
        loop
            invariant_except_break
                toks == crate::scanner::token_views(self.tokens@),
                target == spec_advance_loop(toks, self.comp_v()),
                self.wf(),
                self.tokens@ == old(self).tokens@,
                self.numbers@ == old(self).numbers@,
                self.current == old(self).current,
                self.parser.previous == old(self).parser.current,
                self.prev_pos == old(self).cur_pos,
                old(self).pos <= self.pos,
                old(self).parser.has_error ==> self.parser.has_error,
                old(self).parser.panic_mode ==> self.parser.panic_mode,
                self.errors@.len() >= old(self).errors@.len(),
                self.parser.has_error && !old(self).parser.has_error ==> self.errors@.len() > old(
                    self,
                ).errors@.len(),
                !self.parser.has_error ==> self.errors@ == old(self).errors@,
                old(self).no_error_tokens() ==> {
                    &&& self.parser.has_error == old(self).parser.has_error
                    &&& self.parser.panic_mode == old(self).parser.panic_mode
                    &&& self.errors@ == old(self).errors@
                    &&& self.pos == old(self).pos
                },
            ensures
                self.wf(),
                self.tokens@ == old(self).tokens@,
                self.numbers@ == old(self).numbers@,
                self.current == old(self).current,
                self.parser.previous == old(self).parser.current,
                self.prev_pos == old(self).cur_pos,
                old(self).pos <= self.cur_pos,
                old(self).parser.has_error ==> self.parser.has_error,
                old(self).parser.panic_mode ==> self.parser.panic_mode,
                self.errors@.len() >= old(self).errors@.len(),
                self.parser.has_error && !old(self).parser.has_error ==> self.errors@.len() > old(
                    self,
                ).errors@.len(),
                !self.parser.has_error ==> self.errors@ == old(self).errors@,
                self.parser.current == self.tokens@[self.cur_pos as int],
                self.parser.current.kind != Kind::Error,
                self.parser.current.kind != Kind::Eof ==> self.pos == self.cur_pos + 1,
                self.parser.current.kind == Kind::Eof ==> self.pos == self.cur_pos,
                old(self).no_error_tokens() ==> {
                    &&& self.parser.has_error == old(self).parser.has_error
                    &&& self.parser.panic_mode == old(self).parser.panic_mode
                    &&& self.errors@ == old(self).errors@
                    &&& self.cur_pos == old(self).pos
                },
                self.comp_v() == target,
            decreases self.tokens@.len() - self.pos,
        {
            let ghost head = self.comp_v();
            let n = self.tokens.len();
            let t = self.tokens[self.pos].clone();
            proof {
                assert(toks[self.pos as int] == self.tokens@[self.pos as int]@);
            }
            let k = t.kind;
            self.cur_pos = self.pos;
            if k != Kind::Eof {
                proof {
                    assert(self.tokens@[self.pos as int].kind != Kind::Eof);
                    assert(self.pos < n - 1);
                }
                self.pos = self.pos + 1;
            }
            self.parser.current = t;
            proof {
                assert(self.comp_v() == (CompV {
                    pos: if toks[head.pos].kind == Kind::Eof {
                        head.pos
                    } else {
                        head.pos + 1
                    },
                    cur_pos: head.pos,
                    current: toks[head.pos],
                    ..head
                }));
            }
            if k != Kind::Error {
                break ;
            }
            let msg = self.parser.current.string.clone();
            self.errorAtCurrent(&msg);
        }
    }

    /// Whether the current token has the given kind.
    pub(crate) fn check(&self, token: Kind) -> (r: bool)
        ensures
            r == (self.parser.current.kind == token),
    {
        self.parser.current.kind == token
    }

    /// Consumes the current token if it has the given kind.
    pub(crate) fn match_token(&mut self, token: Kind) -> (r: bool)
        requires
            old(self).wf(),
        ensures
            final(self).wf(),
            Self::parse_step(*old(self), *final(self)),
            final(self).current == old(self).current,
            r == (old(self).parser.current.kind == token),
            !r ==> *final(self) == *old(self),
            r ==> final(self).parser.current == final(self).tokens@[final(self).cur_pos as int]
                && final(self).parser.current.kind != Kind::Error,
            r ==> final(self).comp_v() == spec_advance(
                crate::scanner::token_views(old(self).tokens@),
                old(self).comp_v(),
            ),
            r && token != Kind::Eof ==> final(self).measure() < old(self).measure(),
            old(self).no_error_tokens() ==> {
                &&& final(self).parser.has_error == old(self).parser.has_error
                &&& final(self).parser.panic_mode == old(self).parser.panic_mode
                &&& final(self).errors@ == old(self).errors@
            },
    {
        if !self.check(token) {
            return false;
        }
        self.advance();
        true
    }

    /// Consumes the current token if it has the given kind; otherwise
    /// reports the message against it.
    pub fn consume(&mut self, token: Kind, message: String)
        requires
            old(self).wf(),
        ensures
            final(self).wf(),
            Self::parse_step(*old(self), *final(self)),
            final(self).current == old(self).current,
            final(self).comp_v() == spec_consume(
                crate::scanner::token_views(old(self).tokens@),
                token,
                message@,
                old(self).comp_v(),
            ),
            old(self).parser.current.kind != token ==> final(self).parser.has_error,
            old(self).parser.current.kind == token && old(self).no_error_tokens() ==> {
                &&& final(self).parser.has_error == old(self).parser.has_error
                &&& final(self).parser.panic_mode == old(self).parser.panic_mode
                &&& final(self).errors@ == old(self).errors@
                &&& final(self).parser.current == final(self).tokens@[final(self).cur_pos as int]
            },
    {
        if self.parser.current.kind == token {
            self.advance();
            return ;
        }
        self.errorAtCurrent(&message);
    }

    /// Appends one zero-operand opcode byte, recorded against the previous
    /// token's line.
    #[allow(non_snake_case)]
    pub(crate) fn emitByte(&mut self, byte: u8)
        requires
            old(self).wf(),
            is_simple_op(byte),
        ensures
            final(self).wf(),
            Self::parse_step(*old(self), *final(self)),
            *final(self) == (Compiler { current: final(self).current, ..*old(self) }),
            final(self).current.code@ == old(self).current.code@.push(byte),
            final(self).current.lines@ == old(self).current.lines@.push(
                old(self).parser.previous.line,
            ),
            final(self).current.constants == old(self).current.constants,
            final(self).net() == old(self).net() + crate::chunk::simple_op_effect(byte),
            final(self).comp_v() == spec_emit_byte(old(self).comp_v(), byte),
    {
        let line = self.parser.previous.line;
        proof {
            lemma_simple_op_code(byte, self.current.constants.values@.len());
            lemma_code_concat(
                self.current.code@,
                seq![byte],
                self.current.constants.values@.len(),
            );
            assert(self.current.code@ + seq![byte] =~= self.current.code@.push(byte));
        }
        self.current.write_chunk(byte, line);
    }

    /// Appends two code bytes, recorded against the previous token's line:
    /// either two zero-operand opcodes, or an `Op_Constnats` opcode and an
    /// in-range pool index.
    #[allow(non_snake_case)]
    pub(crate) fn emit_Bytes(&mut self, byte_1: u8, byte_2: u8)
        requires
            old(self).wf(),
            (is_simple_op(byte_1) && is_simple_op(byte_2)) || (byte_1 == CONSTANT_BYTE && (
            byte_2 as nat) < old(self).current.constants.values@.len()),
        ensures
            final(self).wf(),
            Self::parse_step(*old(self), *final(self)),
            *final(self) == (Compiler { current: final(self).current, ..*old(self) }),
            final(self).current.code@ == old(self).current.code@ + seq![byte_1, byte_2],
            final(self).current.constants == old(self).current.constants,
            final(self).net() == old(self).net() + if byte_1 == CONSTANT_BYTE {
                1int
            } else {
                crate::chunk::simple_op_effect(byte_1) + crate::chunk::simple_op_effect(byte_2)
            },
            final(self).comp_v() == spec_emit_two(old(self).comp_v(), byte_1, byte_2),
    {
        let line = self.parser.previous.line;
        proof {
            let n = self.current.constants.values@.len();
            if byte_1 == CONSTANT_BYTE {
                lemma_constant_code(byte_2, n);
            } else {
                lemma_simple_op_code(byte_1, n);
                lemma_simple_op_code(byte_2, n);
                lemma_code_concat(seq![byte_1], seq![byte_2], n);
                assert(seq![byte_1] + seq![byte_2] =~= seq![byte_1, byte_2]);
            }
            lemma_code_concat(self.current.code@, seq![byte_1, byte_2], n);
            assert(self.current.code@ + seq![byte_1, byte_2] =~= self.current.code@.push(
                byte_1,
            ).push(byte_2));
        }
        self.current.write_chunk(byte_1, line);
        self.current.write_chunk(byte_2, line);
    }

    /// Adds a value to the pool and returns the operand byte for it.  Past
    /// 256 pool entries the limit of the one-byte encoding is hit: an error
    /// is logged and index 0 is substituted.
    #[allow(non_snake_case)]
    pub(crate) fn make_constnat(&mut self, value: Value) -> (b: u8)
        requires
            old(self).wf(),
        ensures
            final(self).wf(),
            Self::parse_step(*old(self), *final(self)),
            final(self).current.code == old(self).current.code,
            final(self).current.lines == old(self).current.lines,
            final(self).current.constants.values@ == old(self).current.constants.values@.push(
                value,
            ),
            (b as nat) < final(self).current.constants.values@.len(),
            final(self).measure() == old(self).measure(),
            final(self).parser.current == old(self).parser.current,
            final(self).parser.previous == old(self).parser.previous,
            final(self).pos == old(self).pos,
            final(self).cur_pos == old(self).cur_pos,
            final(self).prev_pos == old(self).prev_pos,
            old(self).current.constants.values@.len() <= 255 ==> {
                &&& b == old(self).current.constants.values@.len()
                &&& final(self).parser == old(self).parser
                &&& final(self).errors@ == old(self).errors@
            },
            old(self).current.constants.values@.len() > 255 ==> {
                &&& b == 0
                &&& final(self).parser.has_error
            },
            (b, final(self).comp_v()) == spec_make_constnat(old(self).comp_v(), value@),
    {
        proof {
            crate::value::lemma_views_push(self.current.constants.values@, value);
        }
        let constnat = self.current.addConstant(value);
        if constnat > 255 {
            self.errorAtCurrent(&"Too many constants".to_owned());
            return 0;
        }
        constnat as u8
    }

    /// Appends an `Op_Constnats` instruction pushing `value`, which is added
    /// to the pool.
    pub(crate) fn emit_constant(&mut self, value: Value)
        requires
            old(self).wf(),
        ensures
            final(self).wf(),
            Self::parse_step(*old(self), *final(self)),
            final(self).measure() == old(self).measure(),
            final(self).parser.current == old(self).parser.current,
            final(self).parser.previous == old(self).parser.previous,
            final(self).pos == old(self).pos,
            final(self).cur_pos == old(self).cur_pos,
            final(self).prev_pos == old(self).prev_pos,
            final(self).current.constants.values@ == old(self).current.constants.values@.push(
                value,
            ),
            final(self).net() == old(self).net() + 1,
            old(self).current.constants.values@.len() <= 255 ==> {
                &&& final(self).current.code@ == old(self).current.code@ + seq![
                    CONSTANT_BYTE,
                    (old(self).current.constants.values@.len() as u8),
                ]
                &&& final(self).parser == old(self).parser
                &&& final(self).errors@ == old(self).errors@
            },
            final(self).comp_v() == spec_emit_constant(old(self).comp_v(), value@),
    {
        let byte = self.make_constnat(value);
        self.emit_Bytes(CONSTANT_BYTE, byte);
    }

    /// Emits the number literal under `previous` as a constant, using the
    /// bit pattern the caller decoded for it.
    pub(crate) fn number(&mut self)
        requires
            old(self).wf(),
        ensures
            final(self).wf(),
            Self::parse_step(*old(self), *final(self)),
            final(self).measure() == old(self).measure(),
            final(self).parser.current == old(self).parser.current,
            final(self).net() == old(self).net() + 1,
            final(self).current.constants.values@ == old(self).current.constants.values@.push(
                (Value {
                    type_v: crate::value::ValueType::VAL_NUMBER(
                        old(self).numbers@[old(self).prev_pos as int],
                    ),
                }),
            ),
            final(self).comp_v() == spec_number(old(self).numbers@, old(self).comp_v()),
    {
        let val = self.numbers[self.prev_pos];
        self.emit_constant(Value::number_value(val));
    }

    /// Emits the string literal under `previous` as a constant, quotes
    /// stripped.
    pub fn string(&mut self)
        requires
            old(self).wf(),
        ensures
            final(self).wf(),
            Self::parse_step(*old(self), *final(self)),
            final(self).measure() == old(self).measure(),
            final(self).parser.current == old(self).parser.current,
            final(self).net() == old(self).net() + 1,
            final(self).current.constants.values@.len() == old(
                self,
            ).current.constants.values@.len() + 1,
            final(self).current.constants.values@.last()@ == crate::value::ValueV::Str(
                strip_quotes(old(self).parser.previous.string@),
            ),
            final(self).comp_v() == spec_string(old(self).comp_v()),
    {
        let str = self.parser.previous.string.clone();
        let n: usize = str.as_str().unicode_len();
        let value = if n >= 2 {
            Value::obj_value(str.as_str().substring_char(1, n - 1))
        } else {
            Value::obj_value(str.as_str())
        };
        self.emit_constant(value);
    }

    /// Emits the one-byte instruction for the literal keyword under
    /// `previous`.
    pub fn literal(&mut self)
        requires
            old(self).wf(),
            old(self).parser.previous.kind == Kind::True || old(self).parser.previous.kind
                == Kind::False || old(self).parser.previous.kind == Kind::Nil,
        ensures
            final(self).wf(),
            Self::parse_step(*old(self), *final(self)),
            final(self).measure() == old(self).measure(),
            final(self).parser.current == old(self).parser.current,
            final(self).parser.has_error == old(self).parser.has_error,
            final(self).net() == old(self).net() + 1,
            final(self).comp_v() == spec_literal(old(self).comp_v()),
    {
        match self.parser.previous.kind {
            Kind::True => self.emitByte(OpCode::OP_TRUE.as_byte()),
            Kind::Nil => self.emitByte(OpCode::OP_NIL.as_byte()),
            Kind::False => self.emitByte(OpCode::OP_FALSE.as_byte()),
            _ => {
                proof {
                    assert(false);
                }
            },
        }
    }

    /// Parses an expression at the lowest precedence.
    pub(crate) fn expression(&mut self)
        requires
            old(self).wf(),
        ensures
            final(self).wf(),
            Self::parse_step(*old(self), *final(self)),
            !final(self).parser.has_error ==> final(self).net() == old(self).net() + 1,
            spec_expression(
                old(self).measure() as nat,
                crate::scanner::token_views(old(self).tokens@),
                old(self).numbers@,
                old(self).comp_v(),
            ) == Some(final(self).comp_v()),
        decreases old(self).measure(), 2int,
    {
        self.parsePrecedence(Presidence::PREC_ASSIGNMENT);
    }

    /// Parses a parenthesized expression; the `(` is already consumed.
    pub(crate) fn grouping(&mut self)
        requires
            old(self).wf(),
        ensures
            final(self).wf(),
            Self::parse_step(*old(self), *final(self)),
            !final(self).parser.has_error ==> final(self).net() == old(self).net() + 1,
            spec_grouping(
                old(self).measure() as nat,
                crate::scanner::token_views(old(self).tokens@),
                old(self).numbers@,
                old(self).comp_v(),
            ) == Some(final(self).comp_v()),
        decreases old(self).measure(), 3int,
    {
        self.expression();
        self.consume(Kind::RightParen, "Expected ) after expression".to_owned());
    }

    /// Parses a unary operator application; the operator is already
    /// consumed.
    pub fn unary(&mut self)
        requires
            old(self).wf(),
            old(self).parser.previous.kind == Kind::Minus || old(self).parser.previous.kind
                == Kind::Bang,
        ensures
            final(self).wf(),
            Self::parse_step(*old(self), *final(self)),
            !final(self).parser.has_error ==> final(self).net() == old(self).net() + 1,
            spec_unary(
                old(self).measure() as nat,
                crate::scanner::token_views(old(self).tokens@),
                old(self).numbers@,
                old(self).comp_v(),
            ) == Some(final(self).comp_v()),
        decreases old(self).measure(), 3int,
    {
        let operator_type = self.parser.previous.kind;
        self.parsePrecedence(Presidence::PREC_UNARY);
        match operator_type {
            Kind::Minus => self.emitByte(OpCode::OP_NEGATE.as_byte()),
            Kind::Bang => self.emitByte(OpCode::OP_NOT.as_byte()),
            _ => {
                proof {
                    assert(false);
                }
            },
        }
    }

    /// Parses the right operand of a binary operator and emits the
    /// operator's instruction; the operator is already consumed and its left
    /// operand already compiled.  The right operand is gathered at the next
    /// higher precedence, which makes the operator left-associative.
    pub fn binary(&mut self)
        requires
            old(self).wf(),
            spec_rule(old(self).parser.previous.kind).infix == Some(InfixFn::Binary),
        ensures
            final(self).wf(),
            Self::parse_step(*old(self), *final(self)),
            !final(self).parser.has_error ==> final(self).net() == old(self).net(),
            spec_binary(
                old(self).measure() as nat,
                crate::scanner::token_views(old(self).tokens@),
                old(self).numbers@,
                old(self).comp_v(),
            ) == Some(final(self).comp_v()),
        decreases old(self).measure(), 3int,
    {
        let token_kind = self.parser.previous.kind;
        let rule = rule_for_token(&token_kind);
        let next_prec = match rule.precedence.next() {
            Some(p) => p,
            None => {
                proof {
                    assert(false);
                }
                Presidence::PREC_PRIMARY
            },
        };
        self.parsePrecedence(next_prec);
        match token_kind {
            Kind::Plus => self.emitByte(OpCode::OP_ADD.as_byte()),
            Kind::Minus => self.emitByte(OpCode::OP_SUBTRACT.as_byte()),
            Kind::Star => self.emitByte(OpCode::OP_MULTIPLY.as_byte()),
            Kind::Slash => self.emitByte(OpCode::OP_DIVIDE.as_byte()),
            Kind::EqualEqual => self.emitByte(OpCode::OP_EQUAL.as_byte()),
            Kind::BangEqual => self.emit_Bytes(OpCode::OP_EQUAL.as_byte(), OpCode::OP_NOT.as_byte()),
            Kind::Greater => self.emitByte(OpCode::OP_GREATER.as_byte()),
            Kind::Less => self.emitByte(OpCode::OP_LESS.as_byte()),
            Kind::LessEqual => self.emit_Bytes(OpCode::OP_GREATER.as_byte(), OpCode::OP_NOT.as_byte()),
            Kind::GreaterEqual => self.emit_Bytes(OpCode::OP_LESS.as_byte(), OpCode::OP_NOT.as_byte()),
            _ => {
                proof {
                    assert(false);
                }
            },
        }
    }

    /// The Pratt driver: consumes one token, applies its prefix rule, then
    /// folds infix operators while their binding power reaches `precedence`;
    /// the outcome is exactly what [`spec_parse_prec`] gives.  When no
    /// error is raised, the emitted code pushes exactly one value.
    #[allow(non_snake_case)]
    pub(crate) fn parsePrecedence(&mut self, precedence: Presidence)
        requires
            old(self).wf(),
            spec_prec_level(precedence) >= 1,
        ensures
            final(self).wf(),
            Self::parse_step(*old(self), *final(self)),
            !final(self).parser.has_error ==> final(self).net() == old(self).net() + 1,
            spec_parse_prec(
                old(self).measure() as nat,
                crate::scanner::token_views(old(self).tokens@),
                old(self).numbers@,
                precedence,
                old(self).comp_v(),
            ) == Some(final(self).comp_v()),
        decreases old(self).measure(), 0int,
    {
        let ghost toks = crate::scanner::token_views(self.tokens@);
        let ghost nums = self.numbers@;
        let ghost fuel0 = (old(self).measure() - 1) as nat;
        self.advance();
        let ghost st1 = self.comp_v();
        let prefix = rule_for_token(&self.parser.previous.kind).prefix;
        match prefix {
            None => {
                self.errorAtCurrent(&"Expected expression".to_owned());
                return ;
            },
            Some(PrefixFn::Grouping) => {
                let ghost f1 = self.measure() as nat;
                self.grouping();
                proof {
                    lemma_grouping_mono(f1, fuel0, toks, nums, st1);
                }
            },
            Some(PrefixFn::Unary) => {
                let ghost f1 = self.measure() as nat;
                self.unary();
                proof {
                    lemma_unary_mono(f1, fuel0, toks, nums, st1);
                }
            },
            Some(PrefixFn::NumberLit) => self.number(),
            Some(PrefixFn::StringLit) => self.string(),
            Some(PrefixFn::Literal) => self.literal(),
        }
        let ghost mid = self.comp_v();
        proof {
            assert(spec_rule(st1.previous.kind).prefix is Some);
            if spec_infix_loop(self.measure() as nat, toks, nums, precedence, mid) is Some {
                lemma_infix_loop_mono(
                    self.measure() as nat,
                    fuel0,
                    toks,
                    nums,
                    precedence,
                    mid,
                );
            }
        }
        loop
            invariant_except_break
                self.wf(),
                self.tokens@ == old(self).tokens@,
                self.numbers@ == old(self).numbers@,
                toks == crate::scanner::token_views(self.tokens@),
                nums == self.numbers@,
                old(self).parser.has_error ==> self.parser.has_error,
                old(self).parser.panic_mode ==> self.parser.panic_mode,
                self.errors@.len() >= old(self).errors@.len(),
                self.parser.has_error && !old(self).parser.has_error ==> self.errors@.len() > old(
                    self,
                ).errors@.len(),
                !self.parser.has_error ==> self.errors@ == old(self).errors@,
                self.measure() < old(self).measure(),
                self.measure() <= fuel0,
                spec_prec_level(precedence) >= 1,
                !self.parser.has_error ==> self.net() == old(self).net() + 1,
                (spec_infix_loop(self.measure() as nat, toks, nums, precedence, self.comp_v())
                    is Some) ==> spec_infix_loop(fuel0, toks, nums, precedence, mid)
                    == spec_infix_loop(self.measure() as nat, toks, nums, precedence, self.comp_v()),
            ensures
                self.wf(),
                self.tokens@ == old(self).tokens@,
                self.numbers@ == old(self).numbers@,
                old(self).parser.has_error ==> self.parser.has_error,
                old(self).parser.panic_mode ==> self.parser.panic_mode,
                self.errors@.len() >= old(self).errors@.len(),
                self.parser.has_error && !old(self).parser.has_error ==> self.errors@.len() > old(
                    self,
                ).errors@.len(),
                !self.parser.has_error ==> self.errors@ == old(self).errors@,
                self.measure() < old(self).measure(),
                !self.parser.has_error ==> self.net() == old(self).net() + 1,
                spec_infix_loop(fuel0, toks, nums, precedence, mid) == Some(self.comp_v()),
            decreases self.measure(),
        {
            let ghost head = self.comp_v();
            let ghost m = self.measure() as nat;
            let rule = rule_for_token(&self.parser.current.kind);
            if !(precedence.level() <= rule.precedence.level()) {
                proof {
                    assert(spec_infix_loop(m, toks, nums, precedence, head) == Some(head));
                }
                break ;
            }
            proof {
                assert(self.parser.current.kind != Kind::Eof);
            }
            self.advance();
            let ghost s1 = self.comp_v();
            let infix = rule_for_token(&self.parser.previous.kind).infix;
            match infix {
                Some(InfixFn::Binary) => {
                    let ghost f1 = self.measure() as nat;
                    self.binary();
                    proof {
                        lemma_binary_mono(f1, (m - 1) as nat, toks, nums, s1);
                        let s2 = self.comp_v();
                        if spec_infix_loop(self.measure() as nat, toks, nums, precedence, s2)
                            is Some {
                            lemma_infix_loop_mono(
                                self.measure() as nat,
                                (m - 1) as nat,
                                toks,
                                nums,
                                precedence,
                                s2,
                            );
                        }
                    }
                },
                None => {
                    self.errorAtCurrent(&"Expected expression".to_owned());
                    proof {
                        assert(spec_infix_loop(m, toks, nums, precedence, head) == Some(
                            self.comp_v(),
                        ));
                    }
                    break ;
                },
            }
        }
    }

    /// Parses one `print` statement; anything else is reported as an error.
    /// When no error is raised, the emitted code leaves the stack as it was.
    pub(crate) fn statement(&mut self)
        requires
            old(self).wf(),
        ensures
            final(self).wf(),
            Self::parse_step(*old(self), *final(self)),
            !final(self).parser.has_error ==> final(self).net() == old(self).net(),
            final(self).parser.panic_mode || final(self).measure() < old(self).measure(),
            spec_statement(
                old(self).measure() as nat,
                crate::scanner::token_views(old(self).tokens@),
                old(self).numbers@,
                old(self).comp_v(),
            ) == Some(final(self).comp_v()),
    {
        let ghost toks = crate::scanner::token_views(self.tokens@);
        let ghost nums = self.numbers@;
        let ghost fuel0 = old(self).measure() as nat;
        if self.match_token(Kind::Print) {
            let ghost f1 = self.measure() as nat;
            let ghost s1 = self.comp_v();
            self.printStatement();
            proof {
                lemma_print_statement_mono(f1, fuel0, toks, nums, s1);
            }
        } else {
            self.errorAtCurrent(&"Expected statement".to_owned());
        }
    }

    /// Parses one declaration; in this language that is a statement.
    pub(crate) fn declaration(&mut self)
        requires
            old(self).wf(),
        ensures
            final(self).wf(),
            Self::parse_step(*old(self), *final(self)),
            !final(self).parser.has_error ==> final(self).net() == old(self).net(),
            final(self).parser.panic_mode || final(self).measure() < old(self).measure(),
            spec_declaration(
                old(self).measure() as nat,
                crate::scanner::token_views(old(self).tokens@),
                old(self).numbers@,
                old(self).comp_v(),
            ) == Some(final(self).comp_v()),
    {
        self.statement();
    }

    /// Parses `print` `(` expression `)` `;` and emits `OP_PRINT`; the
    /// `print` keyword is already consumed.
    #[allow(non_snake_case)]
    pub(crate) fn printStatement(&mut self)
        requires
            old(self).wf(),
        ensures
            final(self).wf(),
            Self::parse_step(*old(self), *final(self)),
            !final(self).parser.has_error ==> final(self).net() == old(self).net(),
            spec_print_statement(
                old(self).measure() as nat,
                crate::scanner::token_views(old(self).tokens@),
                old(self).numbers@,
                old(self).comp_v(),
            ) == Some(final(self).comp_v()),
    {
        let ghost toks = crate::scanner::token_views(self.tokens@);
        let ghost nums = self.numbers@;
        let ghost fuel0 = old(self).measure() as nat;
        self.consume(Kind::LeftParen, "Expected ( before Expression ".to_owned());
        let ghost f1 = self.measure() as nat;
        let ghost s1 = self.comp_v();
        self.expression();
        proof {
            lemma_expression_mono(f1, fuel0, toks, nums, s1);
        }
        self.consume(Kind::RightParen, "Expected ( after Expression ".to_owned());
        self.consume(Kind::Semicolon, "Expected ; after Expression ".to_owned());
        self.emitByte(OpCode::OP_PRINT.as_byte());
    }

    /// Appends the final `Return` instruction.
    pub(crate) fn emit_return(&mut self)
        requires
            old(self).wf(),
        ensures
            final(self).wf(),
            Self::parse_step(*old(self), *final(self)),
            *final(self) == (Compiler { current: final(self).current, ..*old(self) }),
            final(self).current.code@ == old(self).current.code@.push(
                spec_op_byte(OpCode::Return),
            ),
            final(self).current.constants == old(self).current.constants,
            final(self).net() == old(self).net() - 1,
            final(self).comp_v() == spec_emit_byte(old(self).comp_v(), spec_op_byte(OpCode::Return)),
    {
        self.emitByte(OpCode::Return.as_byte());
    }

    /// Closes compilation of the chunk with a `Return` instruction.
    #[allow(non_snake_case)]
    pub(crate) fn endCompiler(&mut self)
        requires
            old(self).wf(),
        ensures
            final(self).wf(),
            Self::parse_step(*old(self), *final(self)),
            *final(self) == (Compiler { current: final(self).current, ..*old(self) }),
            final(self).current.code@ == old(self).current.code@.push(
                spec_op_byte(OpCode::Return),
            ),
            final(self).current.constants == old(self).current.constants,
            final(self).net() == old(self).net() - 1,
            final(self).comp_v() == spec_emit_byte(old(self).comp_v(), spec_op_byte(OpCode::Return)),
    {
        self.emit_return();
    }

    /// Compiles the whole token stream into the chunk: declarations until
    /// `Eof`, then a final `Return`.  Returns whether no error was raised.
    ///
    /// The whole outcome — verdict, code, line table, constant pool and
    /// diagnostics — is exactly what [`spec_compile`] gives for the token
    /// stream and the number table, so compilation is a function of its
    /// input.  Whatever happens, the chunk invariant holds afterwards and
    /// the code ends in `Return`.  On success, starting from an empty
    /// chunk, the code is a sequence of statements that each leave the
    /// stack unchanged, closed by `Return`: its net stack effect is exactly
    /// -1.  An empty token stream compiles to the single `Return`
    /// instruction.
    pub fn compile(&mut self) -> (r: bool)
        requires
            old(self).wf(),
        ensures
            final(self).wf(),
            final(self).tokens@ == old(self).tokens@,
            final(self).numbers@ == old(self).numbers@,
            r == !final(self).parser.has_error,
            final(self).errors@.len() >= old(self).errors@.len(),
            !r ==> final(self).errors@.len() > old(self).errors@.len(),
            r ==> final(self).errors@ == old(self).errors@,
            final(self).current.wf(),
            final(self).current.code@.len() >= 1,
            final(self).current.code@.last() == spec_op_byte(OpCode::Return),
            r && old(self).current.code@.len() == 0 ==> net_effect(final(self).current.code@)
                == -1,
            old(self).current.code@.len() == 0 && old(self).tokens@.len() == 1 ==> {
                &&& r
                &&& final(self).current.code@ =~= seq![spec_op_byte(OpCode::Return)]
                &&& final(self).current.constants.values@ == old(
                    self,
                ).current.constants.values@
            },
            spec_compile(
                old(self).measure() as nat,
                crate::scanner::token_views(old(self).tokens@),
                old(self).numbers@,
                old(self).comp_v(),
            ) == Some((r, final(self).comp_v())),
    {
        let ghost toks = crate::scanner::token_views(self.tokens@);
        let ghost nums = self.numbers@;
        let ghost fuel0 = old(self).measure() as nat;
        self.parser.panic_mode = false;
        self.parser.has_error = false;
        proof {
            assert(self.comp_v() == (CompV {
                has_error: false,
                panic_mode: false,
                ..old(self).comp_v()
            }));
        }
        self.advance();
        let ghost st1 = self.comp_v();
        proof {
            if spec_compile_loop(self.measure() as nat, toks, nums, st1) is Some {
                lemma_compile_loop_mono(self.measure() as nat, fuel0, toks, nums, st1);
            }
        }
        loop
            invariant_except_break
                self.wf(),
                self.tokens@ == old(self).tokens@,
                self.numbers@ == old(self).numbers@,
                toks == crate::scanner::token_views(self.tokens@),
                nums == self.numbers@,
                self.errors@.len() >= old(self).errors@.len(),
                self.parser.has_error ==> self.errors@.len() > old(self).errors@.len(),
                !self.parser.has_error ==> self.errors@ == old(self).errors@,
                !self.parser.has_error ==> self.net() == net_effect(old(self).current.code@),
                self.measure() <= fuel0,
                (spec_compile_loop(self.measure() as nat, toks, nums, self.comp_v()) is Some)
                    ==> spec_compile_loop(fuel0, toks, nums, st1) == spec_compile_loop(
                    self.measure() as nat,
                    toks,
                    nums,
                    self.comp_v(),
                ),
                old(self).tokens@.len() == 1 ==> {
                    &&& self.current.code@ == old(self).current.code@
                    &&& self.current.constants.values@ == old(self).current.constants.values@
                    &&& !self.parser.has_error
                    &&& self.parser.current.kind == Kind::Eof
                },
            ensures
                self.wf(),
                self.tokens@ == old(self).tokens@,
                self.numbers@ == old(self).numbers@,
                self.errors@.len() >= old(self).errors@.len(),
                self.parser.has_error ==> self.errors@.len() > old(self).errors@.len(),
                !self.parser.has_error ==> self.errors@ == old(self).errors@,
                !self.parser.has_error ==> self.net() == net_effect(old(self).current.code@),
                spec_compile_loop(fuel0, toks, nums, st1) == Some(self.comp_v()),
                old(self).tokens@.len() == 1 ==> {
                    &&& self.current.code@ == old(self).current.code@
                    &&& self.current.constants.values@ == old(self).current.constants.values@
                    &&& !self.parser.has_error
                    &&& self.parser.current.kind == Kind::Eof
                },
            decreases self.measure(),
        {
            let ghost head = self.comp_v();
            let ghost m = self.measure() as nat;
            if self.match_token(Kind::Eof) {
                proof {
                    assert(spec_compile_loop(m, toks, nums, head) == Some(self.comp_v()));
                }
                break ;
            }
            self.declaration();
            proof {
                let s2 = self.comp_v();
                if !s2.panic_mode {
                    if spec_compile_loop(self.measure() as nat, toks, nums, s2) is Some {
                        lemma_compile_loop_mono(
                            self.measure() as nat,
                            (m - 1) as nat,
                            toks,
                            nums,
                            s2,
                        );
                    }
                }
            }
            if self.parser.panic_mode {
                proof {
                    assert(spec_compile_loop(m, toks, nums, head) == Some(self.comp_v()));
                }
                break ;
            }
        }
        self.consume(Kind::Eof, "Expected End of expression".to_owned());
        self.endCompiler();
        proof {
            if old(self).current.code@.len() == 0 && old(self).tokens@.len() == 1 {
                assert(self.current.code@ =~= seq![spec_op_byte(OpCode::Return)]);
            }
        }
        !self.parser.has_error
    }
}

} // verus!
