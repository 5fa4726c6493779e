use crate::chunk::{Chunk, OpCode, CONSTANT_BYTE};
use crate::value::{
    lemma_views_drop_last, lemma_views_push, lemma_views_take, lt_bits, neg_bits, negate_bits,
    number_lt, values_equal, views_of, Value, ValueType, ValueV,
};
use vstd::prelude::*;
use vstd::string::StringExecFns;

verus! {

/// The terminal status of a run.
#[allow(non_camel_case_types)]
#[derive(Debug, Clone, Copy, PartialEq, Eq, Structural)]
pub enum InterpretResult {
    INTERPRET_OK,
    INTERPRET_COMPILE_ERROR,
    INTERPRET_RUNTIME_ERROR,
}

/// A runtime diagnostic: the message and, when the line table covers the
/// failing instruction, its source line.
#[derive(Debug)]
pub struct RuntimeError {
    pub message: String,
    pub line: Option<usize>,
}

/// How a run pauses or ends.  `NeedsArith` asks the caller to compute
/// `lhs op rhs` on the IEEE-754 doubles with those bit patterns and hand the
/// result back through [`VM::resume_with_number`]; the four arithmetic
/// instructions are the only work the machine does not do itself.
#[derive(Debug, Clone, Copy, PartialEq, Eq, Structural)]
pub enum RunStep {
    NeedsArith { op: OpCode, lhs: u64, rhs: u64 },
    Halted(InterpretResult),
}

/// The mathematical state of the machine: instruction pointer, stack,
/// output so far, and the recorded runtime error, if any.
pub struct VmV {
    pub ip: int,
    pub stack: Seq<ValueV>,
    pub output: Seq<ValueV>,
    pub error: Option<(Seq<char>, Option<int>)>,
}

/// The outcome of one dispatch step, at the specification level.
pub enum StepV {
    Cont(VmV),
    Arith(OpCode, u64, u64, VmV),
    Halt(InterpretResult, VmV),
}

/// Nil and false are falsy; every other value is truthy.
pub open spec fn falsy(v: ValueV) -> bool {
    v == ValueV::Nil || v == ValueV::Bool(false)
}

/// The state after a runtime error raised with the instruction pointer at
/// `ip`: the stack is cleared and the diagnostic recorded, with the source
/// line of the byte before `ip` when the line table covers it.
pub open spec fn spec_error(st: VmV, lines: Seq<usize>, ip: int, msg: Seq<char>) -> VmV {
    VmV {
        ip: ip,
        stack: Seq::empty(),
        output: st.output,
        error: Some(
            (
                msg,
                if ip >= 1 && ip - 1 < lines.len() {
                    Some(lines[ip - 1] as int)
                } else {
                    None
                },
            ),
        ),
    }
}

/// One step of a binary instruction `b`, taken with the operands popped
/// right first: the top of the stack is the right operand.  Arithmetic on
/// two numbers pauses for the caller; `+` on two strings concatenates;
/// comparisons order numbers; anything else is a runtime type error.
pub open spec fn spec_binop(b: u8, lines: Seq<usize>, st: VmV, ip1: int) -> StepV {
    if st.stack.len() < 2 {
        StepV::Halt(
            InterpretResult::INTERPRET_RUNTIME_ERROR,
            spec_error(st, lines, ip1, "stack underflow"@),
        )
    } else {
        let rhs = st.stack[st.stack.len() - 1];
        let lhs = st.stack[st.stack.len() - 2];
        let rest = st.stack.take(st.stack.len() - 2);
        let popped = VmV { ip: ip1, stack: rest, output: st.output, error: st.error };
        if b == 2 {
            match (lhs, rhs) {
                (ValueV::Num(x), ValueV::Num(y)) => StepV::Arith(OpCode::OP_ADD, x, y, popped),
                (ValueV::Str(x), ValueV::Str(y)) => StepV::Cont(
                    VmV {
                        ip: ip1,
                        stack: rest.push(ValueV::Str(x + y)),
                        output: st.output,
                        error: st.error,
                    },
                ),
                _ => StepV::Halt(
                    InterpretResult::INTERPRET_RUNTIME_ERROR,
                    spec_error(st, lines, ip1, "Operands must be two numbers or two strings"@),
                ),
            }
        } else if b == 3 || b == 4 || b == 5 {
            match (lhs, rhs) {
                (ValueV::Num(x), ValueV::Num(y)) => StepV::Arith(
                    if b == 3 {
                        OpCode::OP_SUBTRACT
                    } else if b == 4 {
                        OpCode::OP_MULTIPLY
                    } else {
                        OpCode::OP_DIVIDE
                    },
                    x,
                    y,
                    popped,
                ),
                _ => StepV::Halt(
                    InterpretResult::INTERPRET_RUNTIME_ERROR,
                    spec_error(st, lines, ip1, "Operands must be numbers"@),
                ),
            }
        } else if b == 12 {
            match (lhs, rhs) {
                (ValueV::Num(x), ValueV::Num(y)) => StepV::Cont(
                    VmV {
                        ip: ip1,
                        stack: rest.push(ValueV::Bool(lt_bits(y, x))),
                        output: st.output,
                        error: st.error,
                    },
                ),
                _ => StepV::Halt(
                    InterpretResult::INTERPRET_RUNTIME_ERROR,
                    spec_error(st, lines, ip1, "Operands must be numbers"@),
                ),
            }
        } else {
            match (lhs, rhs) {
                (ValueV::Num(x), ValueV::Num(y)) => StepV::Cont(
                    VmV {
                        ip: ip1,
                        stack: rest.push(ValueV::Bool(lt_bits(x, y))),
                        output: st.output,
                        error: st.error,
                    },
                ),
                _ => StepV::Halt(
                    InterpretResult::INTERPRET_RUNTIME_ERROR,
                    spec_error(st, lines, ip1, "Operands must be numbers"@),
                ),
            }
        }
    }
}

/// One dispatch step of the machine over the given code, line table and
/// constant pool.  Decodes the byte at `st.ip`, performs its stack effect,
/// and says whether the machine continues, pauses for arithmetic, or halts.
/// Running off the code, an unknown opcode, a bad constant index or a stack
/// underflow halt with a runtime error: a sound compiler never produces
/// them.
pub open spec fn spec_step(code: Seq<u8>, lines: Seq<usize>, consts: Seq<ValueV>, st: VmV) -> StepV {
    if !(0 <= st.ip < code.len()) {
        StepV::Halt(
            InterpretResult::INTERPRET_RUNTIME_ERROR,
            spec_error(st, lines, st.ip, "invalid bytecode"@),
        )
    } else {
        let b = code[st.ip];
        let ip1 = st.ip + 1;
        if b == 0 {
            if st.stack.len() >= 1 {
                StepV::Halt(
                    InterpretResult::INTERPRET_OK,
                    VmV {
                        ip: ip1,
                        stack: st.stack.drop_last(),
                        output: st.output.push(st.stack.last()),
                        error: st.error,
                    },
                )
            } else {
                StepV::Halt(
                    InterpretResult::INTERPRET_OK,
                    VmV { ip: ip1, stack: st.stack, output: st.output, error: st.error },
                )
            }
        } else if b == 1 {
            if st.stack.len() == 0 {
                StepV::Halt(
                    InterpretResult::INTERPRET_RUNTIME_ERROR,
                    spec_error(st, lines, ip1, "stack underflow"@),
                )
            } else {
                match st.stack.last() {
                    ValueV::Num(n) => StepV::Cont(
                        VmV {
                            ip: ip1,
                            stack: st.stack.drop_last().push(ValueV::Num(neg_bits(n))),
                            output: st.output,
                            error: st.error,
                        },
                    ),
                    _ => StepV::Halt(
                        InterpretResult::INTERPRET_RUNTIME_ERROR,
                        spec_error(st, lines, ip1, "Operand must be a number"@),
                    ),
                }
            }
        } else if b == 2 || b == 3 || b == 4 || b == 5 || b == 12 || b == 13 {
            spec_binop(b, lines, st, ip1)
        } else if b == 6 {
            if ip1 >= code.len() {
                StepV::Halt(
                    InterpretResult::INTERPRET_RUNTIME_ERROR,
                    spec_error(st, lines, ip1, "invalid bytecode"@),
                )
            } else {
                let idx = code[ip1] as int;
                let ip2 = ip1 + 1;
                if idx >= consts.len() {
                    StepV::Halt(
                        InterpretResult::INTERPRET_RUNTIME_ERROR,
                        spec_error(st, lines, ip2, "invalid bytecode"@),
                    )
                } else {
                    StepV::Cont(
                        VmV {
                            ip: ip2,
                            stack: st.stack.push(consts[idx]),
                            output: st.output,
                            error: st.error,
                        },
                    )
                }
            }
        } else if b == 7 || b == 8 || b == 9 {
            let v = if b == 7 {
                ValueV::Nil
            } else if b == 8 {
                ValueV::Bool(true)
            } else {
                ValueV::Bool(false)
            };
            StepV::Cont(
                VmV { ip: ip1, stack: st.stack.push(v), output: st.output, error: st.error },
            )
        } else if b == 10 {
            if st.stack.len() == 0 {
                StepV::Halt(
                    InterpretResult::INTERPRET_RUNTIME_ERROR,
                    spec_error(st, lines, ip1, "stack underflow"@),
                )
            } else {
                StepV::Cont(
                    VmV {
                        ip: ip1,
                        stack: st.stack.drop_last().push(ValueV::Bool(falsy(st.stack.last()))),
                        output: st.output,
                        error: st.error,
                    },
                )
            }
        } else if b == 11 {
            if st.stack.len() < 2 {
                StepV::Halt(
                    InterpretResult::INTERPRET_RUNTIME_ERROR,
                    spec_error(st, lines, ip1, "stack underflow"@),
                )
            } else {
                let rhs = st.stack[st.stack.len() - 1];
                let lhs = st.stack[st.stack.len() - 2];
                StepV::Cont(
                    VmV {
                        ip: ip1,
                        stack: st.stack.take(st.stack.len() - 2).push(
                            ValueV::Bool(values_equal(lhs, rhs)),
                        ),
                        output: st.output,
                        error: st.error,
                    },
                )
            }
        } else if b == 14 {
            if st.stack.len() == 0 {
                StepV::Halt(
                    InterpretResult::INTERPRET_RUNTIME_ERROR,
                    spec_error(st, lines, ip1, "stack underflow"@),
                )
            } else {
                StepV::Cont(
                    VmV {
                        ip: ip1,
                        stack: st.stack.drop_last(),
                        output: st.output.push(st.stack.last()),
                        error: st.error,
                    },
                )
            }
        } else {
            StepV::Halt(
                InterpretResult::INTERPRET_RUNTIME_ERROR,
                spec_error(st, lines, ip1, "invalid bytecode"@),
            )
        }
    }
}

/// How a whole run pauses or ends, at the specification level.
pub enum RunV {
    Paused(OpCode, u64, u64, VmV),
    Halted(InterpretResult, VmV),
}

/// The machine run to its first pause or halt: [`spec_step`] iterated from
/// `st`.  Every instruction moves the instruction pointer forward, so the
/// remaining code bounds the iteration.
pub open spec fn spec_run(code: Seq<u8>, lines: Seq<usize>, consts: Seq<ValueV>, st: VmV) -> RunV
    decreases (if 0 <= st.ip <= code.len() {
        code.len() - st.ip
    } else {
        0int
    }),
{
    match spec_step(code, lines, consts, st) {
        StepV::Cont(st2) => {
            if st.ip < st2.ip <= code.len() {
                spec_run(code, lines, consts, st2)
            } else {
                RunV::Halted(InterpretResult::INTERPRET_RUNTIME_ERROR, st2)
            }
        },
        StepV::Arith(op, x, y, st2) => RunV::Paused(op, x, y, st2),
        StepV::Halt(res, st2) => RunV::Halted(res, st2),
    }
}

/// A continuing step always moves forward within the code, so the guard in
/// [`spec_run`] never fails: the run really is the iterated step.
pub proof fn lemma_spec_run_total(code: Seq<u8>, lines: Seq<usize>, consts: Seq<ValueV>, st: VmV)
    ensures
        match spec_step(code, lines, consts, st) {
            StepV::Cont(st2) => st.ip < st2.ip <= code.len() && spec_run(code, lines, consts, st)
                == spec_run(code, lines, consts, st2),
            StepV::Arith(op, x, y, st2) => spec_run(code, lines, consts, st) == RunV::Paused(
                op,
                x,
                y,
                st2,
            ),
            StepV::Halt(res, st2) => spec_run(code, lines, consts, st) == RunV::Halted(res, st2),
        },
{
}

/// On a well-formed instruction stream, a step taken from an instruction
/// boundary always decodes: the machine never stops on `invalid bytecode`,
/// and a step that continues or pauses lands on an instruction boundary of a
/// still well-formed stream.  This is what the chunk invariant — every
/// opcode known, every constant operand within the pool — buys at run time.
pub proof fn lemma_wf_code_step(code: Seq<u8>, lines: Seq<usize>, consts: Seq<ValueV>, st: VmV)
    requires
        0 <= st.ip < code.len(),
        crate::chunk::code_wf(code.skip(st.ip), consts.len()),
    ensures
        match spec_step(code, lines, consts, st) {
            StepV::Cont(st2) => st.ip < st2.ip <= code.len() && crate::chunk::code_wf(
                code.skip(st2.ip),
                consts.len(),
            ),
            StepV::Arith(op, x, y, st2) => st2.ip == st.ip + 1 && crate::chunk::code_wf(
                code.skip(st2.ip),
                consts.len(),
            ),
            StepV::Halt(res, st2) => res == InterpretResult::INTERPRET_OK || (match st2.error {
                Some(e) => e.0 != "invalid bytecode"@,
                None => false,
            }),
        },
{
    let tail = code.skip(st.ip);
    assert(tail[0] == code[st.ip]);
    let b = code[st.ip];
    broadcast use vstd::string::group_string_axioms;

    reveal_strlit("invalid bytecode");
    reveal_strlit("stack underflow");
    reveal_strlit("Operand must be a number");
    reveal_strlit("Operands must be numbers");
    reveal_strlit("Operands must be two numbers or two strings");
    assert("invalid bytecode"@.len() == 16);
    assert("stack underflow"@.len() == 15);
    assert("Operand must be a number"@.len() == 24);
    assert("Operands must be numbers"@.len() == 24);
    assert("Operands must be two numbers or two strings"@.len() == 43);
    if b == CONSTANT_BYTE {
        assert(tail.len() >= 2 && (tail[1] as nat) < consts.len());
        assert(tail[1] == code[st.ip + 1]);
        assert(tail.skip(2) =~= code.skip(st.ip + 2));
    } else {
        assert(crate::chunk::is_simple_op(b));
        assert(tail.skip(1) =~= code.skip(st.ip + 1));
    }
}

/// The stack machine.  It owns a chunk, an instruction pointer, a value
/// stack, the values printed so far, and the runtime error it stopped on,
/// if any.  The caller performs number arithmetic for it (see [`RunStep`])
/// and renders the output values.
pub struct VM {
    pub chunk: Chunk,
    pub ip: usize,
    pub stack: Vec<Value>,
    pub output: Vec<Value>,
    pub error: Option<RuntimeError>,
}

impl VM {
    /// The mathematical values in the constant pool.
    pub open spec fn consts_v(self) -> Seq<ValueV> {
        views_of(self.chunk.constants.values@)
    }

    /// The mathematical values on the stack, bottom first.
    pub open spec fn stack_v(self) -> Seq<ValueV> {
        views_of(self.stack@)
    }

    /// The mathematical values printed so far, oldest first.
    pub open spec fn output_v(self) -> Seq<ValueV> {
        views_of(self.output@)
    }

    /// The machine's mathematical state.
    pub open spec fn state_v(self) -> VmV {
        VmV {
            ip: self.ip as int,
            stack: self.stack_v(),
            output: self.output_v(),
            error: match self.error {
                Some(e) => Some(
                    (
                        e.message@,
                        match e.line {
                            Some(l) => Some(l as int),
                            None => None,
                        },
                    ),
                ),
                None => None,
            },
        }
    }

    /// How much code is left to run; every instruction moves forward, so
    /// this shrinks at each step.
    pub open spec fn fuel(self) -> int {
        if self.ip <= self.chunk.code@.len() {
            self.chunk.code@.len() - self.ip
        } else {
            0
        }
    }

    /// A machine over `chunk`, at its first byte, with an empty stack.
    pub fn new(chunk: Chunk) -> (vm: VM)
        ensures
            vm.chunk == chunk,
            vm.ip == 0,
            vm.stack@.len() == 0,
            vm.output@.len() == 0,
            vm.error is None,
    {
        VM { chunk, ip: 0, stack: Vec::with_capacity(256), output: Vec::new(), error: None }
    }

    /// Whether two runtime values are equal: structural within a tag, false
    /// across tags, IEEE-754 equality for numbers.
    #[allow(non_snake_case)]
    pub fn valueEqual(val1: Value, val2: Value) -> (r: bool)
        ensures
            r == values_equal(val1@, val2@),
    {
        match (&val1.type_v, &val2.type_v) {
            (ValueType::VAL_NIL, ValueType::VAL_NIL) => true,
            (ValueType::VAL_BOOL(a), ValueType::VAL_BOOL(b)) => a == b,
            (ValueType::VAL_NUMBER(a), ValueType::VAL_NUMBER(b)) => crate::value::number_eq(
                *a,
                *b,
            ),
            (ValueType::VAL_STRING(a), ValueType::VAL_STRING(b)) => *a == *b,
            _ => false,
        }
    }

    /// Whether the value behaves as false: nil and false only.
    pub fn is_falsely(value: Value) -> (r: bool)
        ensures
            r == falsy(value@),
    {
        value.is_nil() || value.is_bool() && !value.as_bool()
    }

    /// Records a runtime diagnostic with the source line of the instruction
    /// before `ip`, and clears the stack.
    #[allow(non_snake_case)]
    pub fn runtime_Error(&mut self, msg: &str)
        ensures
            final(self).chunk == old(self).chunk,
            final(self).ip == old(self).ip,
            final(self).output == old(self).output,
            final(self).stack@.len() == 0,
            final(self).state_v() == spec_error(
                old(self).state_v(),
                old(self).chunk.lines@,
                old(self).ip as int,
                msg@,
            ),
    {
        let line = if self.ip >= 1 && self.ip - 1 < self.chunk.lines.len() {
            Some(self.chunk.lines[self.ip - 1])
        } else {
            None
        };
        self.error = Some(RuntimeError { message: msg.to_owned(), line });
        self.stack.clear();
        proof {
            assert(views_of(self.stack@) =~= Seq::<ValueV>::empty());
        }
    }

    /// The value `index` slots below the top of the stack.
    pub fn peek(&self, index: usize) -> (v: Value)
        requires
            index < self.stack@.len(),
        ensures
            v@ == self.stack_v()[self.stack_v().len() - 1 - index],
    {
        let len = self.stack.len();
        self.stack[len - 1 - index].clone()
    }

    /// Reads the byte under the instruction pointer and moves past it.
    pub fn read_byte(&mut self) -> (b: u8)
        requires
            old(self).ip < old(self).chunk.code@.len(),
        ensures
            b == old(self).chunk.code@[old(self).ip as int],
            final(self).ip == old(self).ip + 1,
            final(self).chunk == old(self).chunk,
            final(self).stack == old(self).stack,
            final(self).output == old(self).output,
            final(self).error == old(self).error,
    {
        let n = self.chunk.code.len();
        let byte = self.chunk.code[self.ip];
        proof {
            assert(self.ip < n);
        }
        self.ip = self.ip + 1;
        byte
    }

    /// Performs one binary instruction: pops the right operand, then the
    /// left.  Arithmetic on two numbers pauses for the caller; `+` on two
    /// strings concatenates; comparisons order numbers by their bits; other
    /// operand tags are runtime type errors.
    #[allow(non_snake_case)]
    fn binar_op(&mut self, bi_op: OpCode) -> (r: Option<RunStep>)
        requires
            bi_op == OpCode::OP_ADD || bi_op == OpCode::OP_SUBTRACT || bi_op
                == OpCode::OP_MULTIPLY || bi_op == OpCode::OP_DIVIDE || bi_op
                == OpCode::OP_GREATER || bi_op == OpCode::OP_LESS,
        ensures
            final(self).chunk == old(self).chunk,
            final(self).ip == old(self).ip,
            (match spec_binop(
                crate::chunk::spec_op_byte(bi_op),
                old(self).chunk.lines@,
                old(self).state_v(),
                old(self).ip as int,
            ) {
                StepV::Cont(st) => r is None && final(self).state_v() == st,
                StepV::Arith(op, x, y, st) => r == Some(RunStep::NeedsArith { op, lhs: x, rhs: y })
                    && final(self).state_v() == st,
                StepV::Halt(res, st) => r == Some(RunStep::Halted(res)) && final(self).state_v()
                    == st,
            }),
    {
        let ghost pre = self.stack@;
        let value_1 = match self.stack.pop() {
            Some(v) => v,
            None => {
                self.runtime_Error("stack underflow");
                return Some(RunStep::Halted(InterpretResult::INTERPRET_RUNTIME_ERROR));
            },
        };
        let value_2 = match self.stack.pop() {
            Some(v) => v,
            None => {
                self.runtime_Error("stack underflow");
                return Some(RunStep::Halted(InterpretResult::INTERPRET_RUNTIME_ERROR));
            },
        };
        proof {
            assert(self.stack@ =~= pre.take(pre.len() - 2));
            lemma_views_take(pre, pre.len() - 2);
        }
        let both_numbers = value_2.is_number() && value_1.is_number();
        match bi_op {
            OpCode::OP_ADD => {
                if both_numbers {
                    Some(
                        RunStep::NeedsArith {
                            op: OpCode::OP_ADD,
                            lhs: value_2.as_number(),
                            rhs: value_1.as_number(),
                        },
                    )
                } else if value_2.is_obj() && value_1.is_obj() {
                    let joined = value_2.as_obj().concat(value_1.as_obj().as_str());
                    let result = Value { type_v: ValueType::VAL_STRING(joined) };
                    proof {
                        lemma_views_push(self.stack@, result);
                    }
                    self.stack.push(result);
                    None
                } else {
                    self.runtime_Error("Operands must be two numbers or two strings");
                    Some(RunStep::Halted(InterpretResult::INTERPRET_RUNTIME_ERROR))
                }
            },
            OpCode::OP_SUBTRACT => {
                if both_numbers {
                    Some(
                        RunStep::NeedsArith {
                            op: OpCode::OP_SUBTRACT,
                            lhs: value_2.as_number(),
                            rhs: value_1.as_number(),
                        },
                    )
                } else {
                    self.runtime_Error("Operands must be numbers");
                    Some(RunStep::Halted(InterpretResult::INTERPRET_RUNTIME_ERROR))
                }
            },
            OpCode::OP_MULTIPLY => {
                if both_numbers {
                    Some(
                        RunStep::NeedsArith {
                            op: OpCode::OP_MULTIPLY,
                            lhs: value_2.as_number(),
                            rhs: value_1.as_number(),
                        },
                    )
                } else {
                    self.runtime_Error("Operands must be numbers");
                    Some(RunStep::Halted(InterpretResult::INTERPRET_RUNTIME_ERROR))
                }
            },
            OpCode::OP_DIVIDE => {
                if both_numbers {
                    Some(
                        RunStep::NeedsArith {
                            op: OpCode::OP_DIVIDE,
                            lhs: value_2.as_number(),
                            rhs: value_1.as_number(),
                        },
                    )
                } else {
                    self.runtime_Error("Operands must be numbers");
                    Some(RunStep::Halted(InterpretResult::INTERPRET_RUNTIME_ERROR))
                }
            },
            OpCode::OP_GREATER => {
                if both_numbers {
                    let result = Value::bool_value(
                        number_lt(value_1.as_number(), value_2.as_number()),
                    );
                    proof {
                        lemma_views_push(self.stack@, result);
                    }
                    self.stack.push(result);
                    None
                } else {
                    self.runtime_Error("Operands must be numbers");
                    Some(RunStep::Halted(InterpretResult::INTERPRET_RUNTIME_ERROR))
                }
            },
            OpCode::OP_LESS => {
                if both_numbers {
                    let result = Value::bool_value(
                        number_lt(value_2.as_number(), value_1.as_number()),
                    );
                    proof {
                        lemma_views_push(self.stack@, result);
                    }
                    self.stack.push(result);
                    None
                } else {
                    self.runtime_Error("Operands must be numbers");
                    Some(RunStep::Halted(InterpretResult::INTERPRET_RUNTIME_ERROR))
                }
            },
            _ => {
                proof {
                    assert(false);
                }
                None
            },
        }
    }

    /// Decodes and performs the instruction under the instruction pointer.
    /// `None` means the machine took a step and can take another; otherwise
    /// it paused for arithmetic or halted, exactly as [`spec_step`] says.
    pub fn step(&mut self) -> (r: Option<RunStep>)
        ensures
            final(self).chunk == old(self).chunk,
            (match spec_step(
                old(self).chunk.code@,
                old(self).chunk.lines@,
                old(self).consts_v(),
                old(self).state_v(),
            ) {
                StepV::Cont(st) => r is None && final(self).state_v() == st,
                StepV::Arith(op, x, y, st) => r == Some(RunStep::NeedsArith { op, lhs: x, rhs: y })
                    && final(self).state_v() == st,
                StepV::Halt(res, st) => r == Some(RunStep::Halted(res)) && final(self).state_v()
                    == st,
            }),
            r is None ==> old(self).ip < final(self).ip && final(self).ip <= old(self).chunk.code@.len(),
    {
        let code_len = self.chunk.code.len();
        if self.ip >= code_len {
            self.runtime_Error("invalid bytecode");
            return Some(RunStep::Halted(InterpretResult::INTERPRET_RUNTIME_ERROR));
        }
        let instruction = self.read_byte();
        let op = match OpCode::try_from(instruction) {
            Ok(op) => op,
            Err(_) => {
                self.runtime_Error("invalid bytecode");
                return Some(RunStep::Halted(InterpretResult::INTERPRET_RUNTIME_ERROR));
            },
        };
        match op {
            OpCode::Return => {
                match self.stack.pop() {
                    Some(val) => {
                        proof {
                            lemma_views_drop_last(old(self).stack@);
                            lemma_views_push(self.output@, val);
                            assert(old(self).stack@.subrange(0, old(self).stack@.len() - 1)
                                =~= old(self).stack@.drop_last());
                        }
                        self.output.push(val);
                    },
                    None => {},
                }
                Some(RunStep::Halted(InterpretResult::INTERPRET_OK))
            },
            OpCode::OP_NEGATE => {
                if self.stack.len() == 0 {
                    self.runtime_Error("stack underflow");
                    return Some(RunStep::Halted(InterpretResult::INTERPRET_RUNTIME_ERROR));
                }
                if !self.peek(0).is_number() {
                    self.runtime_Error("Operand must be a number");
                    return Some(RunStep::Halted(InterpretResult::INTERPRET_RUNTIME_ERROR));
                }
                let value = match self.stack.pop() {
                    Some(v) => v,
                    None => Value::nil_value(),
                };
                proof {
                    lemma_views_drop_last(old(self).stack@);
                    assert(old(self).stack@.subrange(0, old(self).stack@.len() - 1) =~= old(self).stack@.drop_last());
                }
                let negated = Value::number_value(negate_bits(value.as_number()));
                proof {
                    lemma_views_push(self.stack@, negated);
                }
                self.stack.push(negated);
                None
            },
            OpCode::OP_ADD => self.binar_op(OpCode::OP_ADD),
            OpCode::OP_SUBTRACT => self.binar_op(OpCode::OP_SUBTRACT),
            OpCode::OP_MULTIPLY => self.binar_op(OpCode::OP_MULTIPLY),
            OpCode::OP_DIVIDE => self.binar_op(OpCode::OP_DIVIDE),
            OpCode::OP_GREATER => self.binar_op(OpCode::OP_GREATER),
            OpCode::OP_LESS => self.binar_op(OpCode::OP_LESS),
            OpCode::Op_Constnats => {
                if self.ip >= code_len {
                    self.runtime_Error("invalid bytecode");
                    return Some(RunStep::Halted(InterpretResult::INTERPRET_RUNTIME_ERROR));
                }
                let idx = self.chunk.code[self.ip];
                if (idx as usize) < self.chunk.constants.values.len() {
                    let v = self.read_constant();
                    proof {
                        lemma_views_push(self.stack@, v);
                    }
                    self.stack.push(v);
                    None
                } else {
                    self.read_byte();
                    self.runtime_Error("invalid bytecode");
                    Some(RunStep::Halted(InterpretResult::INTERPRET_RUNTIME_ERROR))
                }
            },
            OpCode::OP_NIL => {
                let v = Value::nil_value();
                proof {
                    lemma_views_push(self.stack@, v);
                }
                self.stack.push(v);
                None
            },
            OpCode::OP_TRUE => {
                let v = Value::bool_value(true);
                proof {
                    lemma_views_push(self.stack@, v);
                }
                self.stack.push(v);
                None
            },
            OpCode::OP_FALSE => {
                let v = Value::bool_value(false);
                proof {
                    lemma_views_push(self.stack@, v);
                }
                self.stack.push(v);
                None
            },
            OpCode::OP_NOT => {
                let value = match self.stack.pop() {
                    Some(v) => v,
                    None => {
                        self.runtime_Error("stack underflow");
                        return Some(RunStep::Halted(InterpretResult::INTERPRET_RUNTIME_ERROR));
                    },
                };
                proof {
                    lemma_views_drop_last(old(self).stack@);
                    assert(old(self).stack@.subrange(0, old(self).stack@.len() - 1) =~= old(self).stack@.drop_last());
                }
                let result = Value::bool_value(Self::is_falsely(value));
                proof {
                    lemma_views_push(self.stack@, result);
                }
                self.stack.push(result);
                None
            },
            OpCode::OP_EQUAL => {
                let ghost pre = self.stack@;
                let val1 = match self.stack.pop() {
                    Some(v) => v,
                    None => {
                        self.runtime_Error("stack underflow");
                        return Some(RunStep::Halted(InterpretResult::INTERPRET_RUNTIME_ERROR));
                    },
                };
                let val2 = match self.stack.pop() {
                    Some(v) => v,
                    None => {
                        self.runtime_Error("stack underflow");
                        return Some(RunStep::Halted(InterpretResult::INTERPRET_RUNTIME_ERROR));
                    },
                };
                proof {
                    assert(self.stack@ =~= pre.take(pre.len() - 2));
                    lemma_views_take(pre, pre.len() - 2);
                }
                let result = Value::bool_value(Self::valueEqual(val2, val1));
                proof {
                    lemma_views_push(self.stack@, result);
                }
                self.stack.push(result);
                None
            },
            OpCode::OP_PRINT => {
                let value = match self.stack.pop() {
                    Some(v) => v,
                    None => {
                        self.runtime_Error("stack underflow");
                        return Some(RunStep::Halted(InterpretResult::INTERPRET_RUNTIME_ERROR));
                    },
                };
                proof {
                    lemma_views_drop_last(old(self).stack@);
                    lemma_views_push(self.output@, value);
                    assert(old(self).stack@.subrange(0, old(self).stack@.len() - 1) =~= old(self).stack@.drop_last());
                }
                self.output.push(value);
                None
            },
        }
    }

    /// Runs until the machine halts or pauses for arithmetic: the iterated
    /// [`spec_step`] of the starting state, exactly as [`spec_run`] says.
    /// Output only grows; a runtime error leaves its diagnostic behind and
    /// an empty stack; a pause or a clean halt raises no error.
    pub fn run(&mut self) -> (r: RunStep)
        ensures
            final(self).chunk == old(self).chunk,
            (match spec_run(
                old(self).chunk.code@,
                old(self).chunk.lines@,
                old(self).consts_v(),
                old(self).state_v(),
            ) {
                RunV::Paused(op, x, y, st2) => r == RunStep::NeedsArith { op, lhs: x, rhs: y }
                    && final(self).state_v() == st2,
                RunV::Halted(res, st2) => r == RunStep::Halted(res) && final(self).state_v()
                    == st2,
            }),
            (match r {
                RunStep::Halted(InterpretResult::INTERPRET_COMPILE_ERROR) => false,
                RunStep::Halted(InterpretResult::INTERPRET_RUNTIME_ERROR) => final(self).error
                    is Some && final(self).stack_v().len() == 0,
                RunStep::Halted(InterpretResult::INTERPRET_OK) => old(self).error is None ==> final(self).error is None,
                RunStep::NeedsArith { .. } => old(self).error is None ==> final(self).error
                    is None,
            }),
            old(self).output_v().len() <= final(self).output_v().len(),
            forall|i: int|
                0 <= i < old(self).output_v().len() ==> final(self).output_v()[i] == old(self).output_v()[i],
    {
        let ghost code = self.chunk.code@;
        let ghost lines = self.chunk.lines@;
        let ghost consts = self.consts_v();
        let ghost target = spec_run(code, lines, consts, self.state_v());
        loop
            invariant
                self.chunk == old(self).chunk,
                code == self.chunk.code@,
                lines == self.chunk.lines@,
                consts == self.consts_v(),
                target == spec_run(code, lines, consts, old(self).state_v()),
                target == spec_run(code, lines, consts, self.state_v()),
                old(self).error is None ==> self.error is None,
                old(self).output_v().len() <= self.output_v().len(),
                forall|i: int|
                    0 <= i < old(self).output_v().len() ==> self.output_v()[i] == old(self).output_v()[i],
            decreases self.fuel(),
        {
            proof {
                lemma_spec_run_total(code, lines, consts, self.state_v());
            }
            let r = self.step();
            match r {
                Some(outcome) => {
                    return outcome;
                },
                None => {},
            }
        }
    }

    /// Hands the machine the IEEE-754 result of the arithmetic it paused
    /// for: the value with these bits is pushed, and the run can go on.
    pub fn resume_with_number(&mut self, bits: u64)
        ensures
            final(self).chunk == old(self).chunk,
            final(self).ip == old(self).ip,
            final(self).error == old(self).error,
            final(self).output == old(self).output,
            final(self).stack_v() == old(self).stack_v().push(ValueV::Num(bits)),
    {
        let v = Value::number_value(bits);
        proof {
            lemma_views_push(self.stack@, v);
        }
        self.stack.push(v);
    }

    /// Starts the chunk from its first byte with a clean stack, output and
    /// error, and runs until the machine halts or pauses: the iterated
    /// [`spec_step`] of the freshly reset state.
    pub fn interpret(&mut self) -> (r: RunStep)
        ensures
            final(self).chunk == old(self).chunk,
            (match spec_run(
                old(self).chunk.code@,
                old(self).chunk.lines@,
                old(self).consts_v(),
                (VmV { ip: 0, stack: Seq::empty(), output: Seq::empty(), error: None }),
            ) {
                RunV::Paused(op, x, y, st2) => r == RunStep::NeedsArith { op, lhs: x, rhs: y }
                    && final(self).state_v() == st2,
                RunV::Halted(res, st2) => r == RunStep::Halted(res) && final(self).state_v()
                    == st2,
            }),
            (match r {
                RunStep::Halted(InterpretResult::INTERPRET_COMPILE_ERROR) => false,
                RunStep::Halted(InterpretResult::INTERPRET_RUNTIME_ERROR) => final(self).error
                    is Some && final(self).stack_v().len() == 0,
                RunStep::Halted(InterpretResult::INTERPRET_OK) => final(self).error is None,
                RunStep::NeedsArith { .. } => final(self).error is None,
            }),
    {
        self.ip = 0;
        self.stack.clear();
        self.output.clear();
        self.error = None;
        proof {
            assert(views_of(self.stack@) =~= Seq::<ValueV>::empty());
            assert(views_of(self.output@) =~= Seq::<ValueV>::empty());
            assert(self.state_v() == (VmV {
                ip: 0,
                stack: Seq::empty(),
                output: Seq::empty(),
                error: None,
            }));
        }
        self.run()
    }

    /// Reads a constant-pool index operand and returns a copy of the value
    /// it names.
    pub fn read_constant(&mut self) -> (v: Value)
        requires
            old(self).ip < old(self).chunk.code@.len(),
            (old(self).chunk.code@[old(self).ip as int] as int) < old(self).chunk.constants.values@.len(),
        ensures
            final(self).ip == old(self).ip + 1,
            final(self).chunk == old(self).chunk,
            final(self).stack == old(self).stack,
            final(self).output == old(self).output,
            final(self).error == old(self).error,
            v@ == old(self).consts_v()[old(self).chunk.code@[old(self).ip as int] as int],
    {
        let byte = self.read_byte();
        self.chunk.constants.values[byte as usize].clone()
    }
}

} // verus!
