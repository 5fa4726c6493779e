use crate::text::{
    append_padded_decimal, append_right_aligned, spaces, spec_padded_decimal, spec_right_aligned,
};
use crate::value::{Value, ValueArray};
use vstd::prelude::*;
use vstd::string::StringExecFns;

verus! {

/// The instruction set.  Each instruction is one opcode byte; `Op_Constnats`
/// is followed by one inline operand byte, an index into the constant pool.
#[allow(non_camel_case_types)]
#[derive(Debug, Clone, Copy, PartialEq, Eq, Structural)]
pub enum OpCode {
    Return,
    OP_NEGATE,
    OP_ADD,
    OP_SUBTRACT,
    OP_MULTIPLY,
    OP_DIVIDE,
    Op_Constnats,
    OP_NIL,
    OP_TRUE,
    OP_FALSE,
    OP_NOT,
    OP_EQUAL,
    OP_GREATER,
    OP_LESS,
    OP_PRINT,
}

/// Number of opcodes; every byte below this decodes.
pub const N_OPCODES: u8 = 15;

/// The byte that encodes `Op_Constnats`.
pub const CONSTANT_BYTE: u8 = 6;

/// The encoding of each opcode as a byte.
pub open spec fn spec_op_byte(op: OpCode) -> u8 {
    match op {
        OpCode::Return => 0,
        OpCode::OP_NEGATE => 1,
        OpCode::OP_ADD => 2,
        OpCode::OP_SUBTRACT => 3,
        OpCode::OP_MULTIPLY => 4,
        OpCode::OP_DIVIDE => 5,
        OpCode::Op_Constnats => 6,
        OpCode::OP_NIL => 7,
        OpCode::OP_TRUE => 8,
        OpCode::OP_FALSE => 9,
        OpCode::OP_NOT => 10,
        OpCode::OP_EQUAL => 11,
        OpCode::OP_GREATER => 12,
        OpCode::OP_LESS => 13,
        OpCode::OP_PRINT => 14,
    }
}

impl OpCode {
    /// The byte this opcode is written as.
    pub fn as_byte(&self) -> (b: u8)
        ensures
            b == spec_op_byte(*self),
    {
        match self {
            OpCode::Return => 0,
            OpCode::OP_NEGATE => 1,
            OpCode::OP_ADD => 2,
            OpCode::OP_SUBTRACT => 3,
            OpCode::OP_MULTIPLY => 4,
            OpCode::OP_DIVIDE => 5,
            OpCode::Op_Constnats => 6,
            OpCode::OP_NIL => 7,
            OpCode::OP_TRUE => 8,
            OpCode::OP_FALSE => 9,
            OpCode::OP_NOT => 10,
            OpCode::OP_EQUAL => 11,
            OpCode::OP_GREATER => 12,
            OpCode::OP_LESS => 13,
            OpCode::OP_PRINT => 14,
        }
    }

    /// Decodes a byte: every byte below `N_OPCODES` names exactly one opcode,
    /// every other byte is rejected.
    pub fn try_from(value: u8) -> (r: Result<OpCode, &'static str>)
        ensures
            match r {
                Ok(op) => value < N_OPCODES && spec_op_byte(op) == value,
                Err(_) => value >= N_OPCODES,
            },
    {
        match value {
            0 => Ok(OpCode::Return),
            1 => Ok(OpCode::OP_NEGATE),
            2 => Ok(OpCode::OP_ADD),
            3 => Ok(OpCode::OP_SUBTRACT),
            4 => Ok(OpCode::OP_MULTIPLY),
            5 => Ok(OpCode::OP_DIVIDE),
            6 => Ok(OpCode::Op_Constnats),
            7 => Ok(OpCode::OP_NIL),
            8 => Ok(OpCode::OP_TRUE),
            9 => Ok(OpCode::OP_FALSE),
            10 => Ok(OpCode::OP_NOT),
            11 => Ok(OpCode::OP_EQUAL),
            12 => Ok(OpCode::OP_GREATER),
            13 => Ok(OpCode::OP_LESS),
            14 => Ok(OpCode::OP_PRINT),
            _ => Err("unknown opcode"),
        }
    }
}

/// Whether byte `b` encodes an opcode that takes no inline operand.
pub open spec fn is_simple_op(b: u8) -> bool {
    b < N_OPCODES && b != CONSTANT_BYTE
}

/// Net stack effect of the zero-operand opcode `b`: literal pushes gain one
/// slot, the unary operators replace the top, and the binary operators,
/// `OP_PRINT` and `Return` pop one.
pub open spec fn simple_op_effect(b: u8) -> int {
    if b == spec_op_byte(OpCode::OP_NIL) || b == spec_op_byte(OpCode::OP_TRUE) || b
        == spec_op_byte(OpCode::OP_FALSE) {
        1
    } else if b == spec_op_byte(OpCode::OP_NEGATE) || b == spec_op_byte(OpCode::OP_NOT) {
        0
    } else {
        -1
    }
}

/// Whether a byte sequence is well-formed bytecode against a pool of `nconst`
/// constants: every opcode byte decodes, and every `Op_Constnats` is followed
/// by exactly one operand byte that indexes into the pool.
pub open spec fn code_wf(code: Seq<u8>, nconst: nat) -> bool
    decreases code.len(),
{
    if code.len() == 0 {
        true
    } else if code[0] == CONSTANT_BYTE {
        &&& code.len() >= 2
        &&& (code[1] as nat) < nconst
        &&& code_wf(code.skip(2), nconst)
    } else {
        &&& is_simple_op(code[0])
        &&& code_wf(code.skip(1), nconst)
    }
}

/// Net stack effect of executing a byte sequence from start to end.
pub open spec fn net_effect(code: Seq<u8>) -> int
    decreases code.len(),
{
    if code.len() == 0 {
        0
    } else if code[0] == CONSTANT_BYTE {
        if code.len() >= 2 {
            1 + net_effect(code.skip(2))
        } else {
            1
        }
    } else {
        simple_op_effect(code[0]) + net_effect(code.skip(1))
    }
}

/// Bytecode stays well-formed when the constant pool grows.
pub proof fn lemma_code_wf_weaken(code: Seq<u8>, n1: nat, n2: nat)
    requires
        code_wf(code, n1),
        n1 <= n2,
    ensures
        code_wf(code, n2),
    decreases code.len(),
{
    if code.len() != 0 {
        if code[0] == CONSTANT_BYTE {
            lemma_code_wf_weaken(code.skip(2), n1, n2);
        } else {
            lemma_code_wf_weaken(code.skip(1), n1, n2);
        }
    }
}

/// Well-formedness and net stack effect distribute over concatenation.
pub proof fn lemma_code_concat(a: Seq<u8>, b: Seq<u8>, n: nat)
    requires
        code_wf(a, n),
        code_wf(b, n),
    ensures
        code_wf(a + b, n),
        net_effect(a + b) == net_effect(a) + net_effect(b),
    decreases a.len(),
{
    if a.len() == 0 {
        assert(a + b =~= b);
    } else if a[0] == CONSTANT_BYTE {
        lemma_code_concat(a.skip(2), b, n);
        assert((a + b).skip(2) =~= a.skip(2) + b);
    } else {
        lemma_code_concat(a.skip(1), b, n);
        assert((a + b).skip(1) =~= a.skip(1) + b);
    }
}

/// A single zero-operand opcode is well-formed code with its own effect.
pub proof fn lemma_simple_op_code(b: u8, n: nat)
    requires
        is_simple_op(b),
    ensures
        code_wf(seq![b], n),
        net_effect(seq![b]) == simple_op_effect(b),
{
    let s = seq![b];
    assert(s.len() == 1 && s[0] == b);
    assert(s.skip(1) =~= Seq::<u8>::empty());
    assert(code_wf(Seq::<u8>::empty(), n));
    assert(net_effect(Seq::<u8>::empty()) == 0);
}

/// An `Op_Constnats` instruction with an in-range index is well-formed code
/// that pushes one value.
pub proof fn lemma_constant_code(idx: u8, n: nat)
    requires
        (idx as nat) < n,
    ensures
        code_wf(seq![CONSTANT_BYTE, idx], n),
        net_effect(seq![CONSTANT_BYTE, idx]) == 1,
{
    let s = seq![CONSTANT_BYTE, idx];
    assert(s.len() == 2 && s[0] == CONSTANT_BYTE && s[1] == idx);
    assert(s.skip(2) =~= Seq::<u8>::empty());
    assert(code_wf(Seq::<u8>::empty(), n));
    assert(net_effect(Seq::<u8>::empty()) == 0);
}

/// The texts of a sequence of rendered constants.
pub open spec fn texts_of(s: Seq<String>) -> Seq<Seq<char>> {
    s.map_values(|x: String| x@)
}

/// The listing name of the zero-operand opcode byte `b`.
pub open spec fn spec_opcode_name(b: u8) -> Seq<char> {
    if b == 0 {
        "OP_RETURN"@
    } else if b == 1 {
        "OP_NEGATE"@
    } else if b == 2 {
        "OP_ADD"@
    } else if b == 3 {
        "OP_SUBTRACT"@
    } else if b == 4 {
        "OP_MULTIPLY"@
    } else if b == 5 {
        "OP_DIVIDE"@
    } else if b == 7 {
        "OP_NIL"@
    } else if b == 8 {
        "OP_TRUE"@
    } else if b == 9 {
        "OP_FALSE"@
    } else if b == 10 {
        "OP_NOT"@
    } else if b == 11 {
        "OP_EQUAL"@
    } else if b == 12 {
        "OP_GREATER"@
    } else if b == 13 {
        "OP_LESS"@
    } else if b == 14 {
        "OP_PRINT"@
    } else {
        "OP_UNKNOWN"@
    }
}

/// The two leading columns of a listing row: the byte offset zero-padded to
/// four digits, then the source line, or `|` when it repeats the previous
/// byte's line.
pub open spec fn spec_instr_header(lines: Seq<usize>, offset: int) -> Seq<char> {
    spec_padded_decimal(offset as nat, 4) + " "@ + if offset > 0 && lines[offset] == lines[offset
        - 1] {
        "   | "@
    } else {
        spec_padded_decimal(lines[offset] as nat, 4) + " "@
    }
}

/// How many bytes the instruction at `offset` covers in a listing.
pub open spec fn spec_instr_len(code: Seq<u8>, offset: int) -> int {
    if code[offset] == CONSTANT_BYTE && offset + 2 <= code.len() {
        2
    } else {
        1
    }
}

/// One listing row: the two columns, then the opcode name; an `Op_Constnats`
/// row also shows the operand and the rendered constant it names.
pub open spec fn spec_instr_text(
    code: Seq<u8>,
    lines: Seq<usize>,
    rendered: Seq<Seq<char>>,
    offset: int,
) -> Seq<char> {
    spec_instr_header(lines, offset) + if code[offset] == CONSTANT_BYTE {
        "OP_CONSTANT"@ + spaces(6) + spec_right_aligned(code[offset + 1] as nat, 4) + "-> "@
            + rendered[code[offset + 1] as int] + "\n\n"@
    } else {
        spec_opcode_name(code[offset]) + "\n"@
    }
}

/// The listing of every instruction from `offset` to the end of the code.
pub open spec fn spec_disassemble_from(
    code: Seq<u8>,
    lines: Seq<usize>,
    rendered: Seq<Seq<char>>,
    offset: int,
) -> Seq<char>
    decreases code.len() - offset,
{
    if offset < 0 || offset >= code.len() {
        Seq::empty()
    } else {
        spec_instr_text(code, lines, rendered, offset) + spec_disassemble_from(
            code,
            lines,
            rendered,
            offset + spec_instr_len(code, offset),
        )
    }
}

/// The whole listing: a banner row with the name, then every instruction.
pub open spec fn spec_disassemble_chunk(
    code: Seq<u8>,
    lines: Seq<usize>,
    rendered: Seq<Seq<char>>,
    name: Seq<char>,
) -> Seq<char> {
    "== "@ + name + " ==\n"@ + spec_disassemble_from(code, lines, rendered, 0)
}

/// A listing is a function of the chunk and the rendered constants alone:
/// disassembling one chunk twice gives the same text.
pub proof fn lemma_disassembly_deterministic(
    code: Seq<u8>,
    lines: Seq<usize>,
    rendered: Seq<Seq<char>>,
    name: Seq<char>,
    t1: Seq<char>,
    t2: Seq<char>,
)
    requires
        t1 == spec_disassemble_chunk(code, lines, rendered, name),
        t2 == spec_disassemble_chunk(code, lines, rendered, name),
    ensures
        t1 == t2,
{
}

/// The listing name of the zero-operand opcode byte `b`.
pub fn opcode_name(byte: u8) -> (r: &'static str)
    ensures
        r@ == spec_opcode_name(byte),
{
    if byte == 0 {
        "OP_RETURN"
    } else if byte == 1 {
        "OP_NEGATE"
    } else if byte == 2 {
        "OP_ADD"
    } else if byte == 3 {
        "OP_SUBTRACT"
    } else if byte == 4 {
        "OP_MULTIPLY"
    } else if byte == 5 {
        "OP_DIVIDE"
    } else if byte == 7 {
        "OP_NIL"
    } else if byte == 8 {
        "OP_TRUE"
    } else if byte == 9 {
        "OP_FALSE"
    } else if byte == 10 {
        "OP_NOT"
    } else if byte == 11 {
        "OP_EQUAL"
    } else if byte == 12 {
        "OP_GREATER"
    } else if byte == 13 {
        "OP_LESS"
    } else if byte == 14 {
        "OP_PRINT"
    } else {
        "OP_UNKNOWN"
    }
}

/// The unit of compiled code: a byte buffer of instructions, a parallel
/// buffer with the source line of every byte, and a constant pool.
#[derive(Debug)]
pub struct Chunk {
    pub code: Vec<u8>,
    pub lines: Vec<usize>,
    pub constants: ValueArray,
}

impl Chunk {
    /// The line table has one entry per byte of code.
    pub open spec fn lines_aligned(&self) -> bool {
        self.code@.len() == self.lines@.len()
    }

    /// The instruction stream is well-formed against the pool.
    pub open spec fn code_well_formed(&self) -> bool {
        code_wf(self.code@, self.constants.values@.len())
    }

    /// The chunk invariant: line table aligned and bytecode well-formed.
    pub open spec fn wf(&self) -> bool {
        self.lines_aligned() && self.code_well_formed()
    }

    /// An empty chunk.
    pub fn new() -> (c: Self)
        ensures
            c.wf(),
            c.code@.len() == 0,
            c.lines@.len() == 0,
            c.constants.values@.len() == 0,
    {
        Chunk { code: Vec::new(), lines: Vec::new(), constants: ValueArray::new() }
    }

    /// Appends one byte of code together with the source line it came from.
    #[allow(non_snake_case)]
    pub fn write_chunk(&mut self, opcode: u8, line: usize)
        ensures
            final(self).code@ == old(self).code@.push(opcode),
            final(self).lines@ == old(self).lines@.push(line),
            final(self).constants == old(self).constants,
    {
        self.code.push(opcode);
        self.lines.push(line);
    }

    /// Appends the listing row of the instruction at `offset` to `out` and
    /// returns the offset of the next instruction.  `rendered` gives the
    /// text to show for each constant; the caller renders them, since a
    /// number's text comes from its IEEE-754 value.
    #[allow(non_snake_case)]
    #[verifier::rlimit(100)]
    pub fn disassembleInstruction(
        &self,
        offset: usize,
        rendered: &Vec<String>,
        out: &mut String,
    ) -> (next: usize)
        requires
            offset < self.code@.len(),
            self.lines_aligned(),
            code_wf(self.code@.skip(offset as int), self.constants.values@.len()),
            rendered@.len() == self.constants.values@.len(),
        ensures
            final(out)@ == old(out)@ + spec_instr_text(
                self.code@,
                self.lines@,
                texts_of(rendered@),
                offset as int,
            ),
            next == offset + spec_instr_len(self.code@, offset as int),
            offset < next <= self.code@.len(),
            code_wf(self.code@.skip(next as int), self.constants.values@.len()),
    {
        proof {
            assert(self.code@.skip(offset as int)[0] == self.code@[offset as int]);
        }
        let ghost header = spec_instr_header(self.lines@, offset as int);
        append_padded_decimal(out, offset, 4);
        out.append(" ");
        if offset > 0 && self.lines[offset] == self.lines[offset - 1] {
            out.append("   | ");
        } else {
            append_padded_decimal(out, self.lines[offset], 4);
            out.append(" ");
        }
        proof {
            assert(out@ =~= old(out)@ + header);
        }
        let code_len = self.code.len();
        let instruction = self.code[offset];
        if instruction == CONSTANT_BYTE {
            proof {
                let tail = self.code@.skip(offset as int);
                assert(tail.len() >= 2 && (tail[1] as nat) < self.constants.values@.len());
                assert(offset + 2 <= code_len);
                assert(tail[1] == self.code@[offset + 1]);
                assert(tail.skip(2) =~= self.code@.skip(offset + 2));
            }
            let idx = self.code[offset + 1];
            out.append("OP_CONSTANT");
            out.append("      ");
            proof {
                reveal_strlit("      ");
                assert("      "@ =~= spaces(6));
                assert(out@ =~= (old(out)@ + header) + ("OP_CONSTANT"@ + spaces(6)));
            }
            append_right_aligned(out, idx as usize, 4);
            out.append("-> ");
            out.append(rendered[idx as usize].as_str());
            out.append("\n\n");
            proof {
                assert(texts_of(rendered@)[idx as int] == rendered@[idx as int]@);
                assert(out@ =~= old(out)@ + spec_instr_text(
                    self.code@,
                    self.lines@,
                    texts_of(rendered@),
                    offset as int,
                ));
            }
            offset + 2
        } else {
            proof {
                let tail = self.code@.skip(offset as int);
                assert(tail.skip(1) =~= self.code@.skip(offset + 1));
            }
            out.append(opcode_name(instruction));
            out.append("\n");
            proof {
                assert(out@ =~= old(out)@ + spec_instr_text(
                    self.code@,
                    self.lines@,
                    texts_of(rendered@),
                    offset as int,
                ));
            }
            offset + 1
        }
    }

    /// The whole listing of this chunk under the given name, one row per
    /// instruction, with each constant shown as the caller rendered it.
    #[allow(non_snake_case)]
    pub fn disassembleChunk(&self, name: &str, rendered: &Vec<String>) -> (r: String)
        requires
            self.wf(),
            rendered@.len() == self.constants.values@.len(),
        ensures
            r@ == spec_disassemble_chunk(
                self.code@,
                self.lines@,
                texts_of(rendered@),
                name@,
            ),
    {
        let mut out = String::new();
        out.append("== ");
        out.append(name);
        out.append(" ==\n");
        let ghost full = spec_disassemble_chunk(
            self.code@,
            self.lines@,
            texts_of(rendered@),
            name@,
        );
        let mut offset: usize = 0;
        proof {
            assert(self.code@.skip(0) =~= self.code@);
            assert(out@ + spec_disassemble_from(
                self.code@,
                self.lines@,
                texts_of(rendered@),
                0,
            ) =~= full);
        }
        while offset < self.code.len()
            invariant
                rendered@.len() == self.constants.values@.len(),
                self.lines_aligned(),
                offset <= self.code@.len(),
                code_wf(self.code@.skip(offset as int), self.constants.values@.len()),
                full == spec_disassemble_chunk(
                    self.code@,
                    self.lines@,
                    texts_of(rendered@),
                    name@,
                ),
                out@ + spec_disassemble_from(
                    self.code@,
                    self.lines@,
                    texts_of(rendered@),
                    offset as int,
                ) == full,
            decreases self.code@.len() - offset,
        {
            let ghost before = out@;
            let ghost old_offset = offset as int;
            offset = self.disassembleInstruction(offset, rendered, &mut out);
            proof {
                assert(out@ + spec_disassemble_from(
                    self.code@,
                    self.lines@,
                    texts_of(rendered@),
                    offset as int,
                ) =~= before + spec_disassemble_from(
                    self.code@,
                    self.lines@,
                    texts_of(rendered@),
                    old_offset,
                ));
            }
        }
        proof {
            assert(spec_disassemble_from(
                self.code@,
                self.lines@,
                texts_of(rendered@),
                offset as int,
            ) =~= Seq::<char>::empty());
            assert(out@ =~= out@ + Seq::<char>::empty());
        }
        out
    }

    /// Appends a value to the constant pool and returns its index.
    #[allow(non_snake_case)]
    pub fn addConstant(&mut self, value: Value) -> (idx: usize)
        ensures
            final(self).constants.values@ == old(self).constants.values@.push(value),
            idx == old(self).constants.values@.len(),
            final(self).code == old(self).code,
            final(self).lines == old(self).lines,
            old(self).code_well_formed() ==> final(self).code_well_formed(),
    {
        proof {
            if old(self).code_well_formed() {
                lemma_code_wf_weaken(
                    self.code@,
                    self.constants.values@.len(),
                    self.constants.values@.len() + 1,
                );
            }
        }
        self.constants.values.push(value);
        self.constants.values.len() - 1
    }
}

} // verus!
