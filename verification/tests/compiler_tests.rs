use nlox::chunk::Chunk;
use nlox::compiler::Compiler;
use nlox::scanner::scan_tokens;
use nlox::token::Kind;
use nlox::value::ValueType;

const OP_RETURN: u8 = 0;
const OP_ADD: u8 = 2;
const OP_SUBTRACT: u8 = 3;
const OP_MULTIPLY: u8 = 4;
const OP_NOT: u8 = 10;
const OP_EQUAL: u8 = 11;
const OP_GREATER: u8 = 12;
const OP_LESS: u8 = 13;
const OP_PRINT: u8 = 14;
const OP_CONSTANT: u8 = 6;

fn compile_source(source: &str) -> (bool, Chunk) {
    let tokens = scan_tokens(String::from(source));
    let mut numbers: Vec<u64> = vec![0; tokens.len()];
    for (i, t) in tokens.iter().enumerate() {
        if t.kind == Kind::NumberLiteral {
            numbers[i] = t.string.parse::<f64>().unwrap().to_bits();
        }
    }
    let mut compiler = Compiler::new(tokens, numbers);
    let ok = compiler.compile();
    (ok, compiler.current)
}

/// Walks the code as instructions, checking decodability and constant
/// operands, and returns the operand of each OP_CONSTANT in order.
fn constant_operands(chunk: &Chunk) -> Vec<u8> {
    let mut operands = Vec::new();
    let mut offset = 0;
    while offset < chunk.code.len() {
        let byte = chunk.code[offset];
        assert!(byte < 15, "every opcode byte decodes");
        if byte == OP_CONSTANT {
            assert!(offset + 1 < chunk.code.len(), "constant has its operand");
            let idx = chunk.code[offset + 1];
            assert!(
                (idx as usize) < chunk.constants.values.len(),
                "constant index within the pool"
            );
            operands.push(idx);
            offset += 2;
        } else {
            offset += 1;
        }
    }
    operands
}

#[test]
fn empty_input_compiles_to_return_only() {
    let (ok, chunk) = compile_source("");
    assert!(ok);
    assert_eq!(chunk.code, vec![OP_RETURN]);
    assert_eq!(chunk.constants.values.len(), 0);
}

#[test]
fn lines_parallel_code() {
    for source in ["", "print(1);", "print(1 +\n2 * 3);", "print(\"a\" + \"b\");"] {
        let (_, chunk) = compile_source(source);
        assert_eq!(chunk.code.len(), chunk.lines.len());
    }
}

#[test]
fn compiled_code_ends_with_return() {
    for source in ["", "print(1);", "print((1 + 2) * 3);", "print(!nil);"] {
        let (ok, chunk) = compile_source(source);
        assert!(ok);
        assert_eq!(*chunk.code.last().unwrap(), OP_RETURN);
    }
}

#[test]
fn constants_are_always_in_range() {
    for source in ["print(1 + 2 * 3);", "print(\"x\" + \"y\");", "print(1 < 2 == true);"] {
        let (ok, chunk) = compile_source(source);
        assert!(ok);
        constant_operands(&chunk);
    }
}

#[test]
fn print_expression_bytecode() {
    let (ok, chunk) = compile_source("print(1 + 2 * 3);");
    assert!(ok);
    assert_eq!(
        chunk.code,
        vec![
            OP_CONSTANT,
            0,
            OP_CONSTANT,
            1,
            OP_CONSTANT,
            2,
            OP_MULTIPLY,
            OP_ADD,
            OP_PRINT,
            OP_RETURN
        ]
    );
    assert_eq!(chunk.constants.values.len(), 3);
}

#[test]
fn comparison_chains_compile_left_to_right() {
    let (ok, chunk) = compile_source("print(1 < 2 == true);");
    assert!(ok);
    assert_eq!(
        chunk.code,
        vec![OP_CONSTANT, 0, OP_CONSTANT, 1, OP_LESS, 8, OP_EQUAL, OP_PRINT, OP_RETURN]
    );
}

#[test]
fn not_equal_and_ordered_comparisons_expand() {
    let (ok, chunk) = compile_source("print(1 != 2);");
    assert!(ok);
    assert_eq!(
        chunk.code,
        vec![OP_CONSTANT, 0, OP_CONSTANT, 1, OP_EQUAL, OP_NOT, OP_PRINT, OP_RETURN]
    );

    let (ok, chunk) = compile_source("print(1 <= 2);");
    assert!(ok);
    assert_eq!(
        chunk.code,
        vec![OP_CONSTANT, 0, OP_CONSTANT, 1, OP_GREATER, OP_NOT, OP_PRINT, OP_RETURN]
    );

    let (ok, chunk) = compile_source("print(1 >= 2);");
    assert!(ok);
    assert_eq!(
        chunk.code,
        vec![OP_CONSTANT, 0, OP_CONSTANT, 1, OP_LESS, OP_NOT, OP_PRINT, OP_RETURN]
    );
}

#[test]
fn subtraction_emits_subtract() {
    let (ok, chunk) = compile_source("print(5 - 2);");
    assert!(ok);
    assert_eq!(
        chunk.code,
        vec![OP_CONSTANT, 0, OP_CONSTANT, 1, OP_SUBTRACT, OP_PRINT, OP_RETURN]
    );
}

#[test]
fn string_constant_loses_its_quotes() {
    let (ok, chunk) = compile_source("print(\"foo\");");
    assert!(ok);
    match &chunk.constants.values[0].type_v {
        ValueType::VAL_STRING(s) => assert_eq!(s, "foo"),
        other => panic!("expected a string constant, got {:?}", other),
    }
}

#[test]
fn number_constant_holds_decoded_bits() {
    let (ok, chunk) = compile_source("print(1.5);");
    assert!(ok);
    match chunk.constants.values[0].type_v {
        ValueType::VAL_NUMBER(bits) => assert_eq!(f64::from_bits(bits), 1.5),
        ref other => panic!("expected a number constant, got {:?}", other),
    }
}

#[test]
fn same_source_compiles_to_identical_chunks() {
    for source in ["print(1 + 2 * 3);", "print((\"a\" + \"b\") == \"ab\");", ""] {
        let (ok1, c1) = compile_source(source);
        let (ok2, c2) = compile_source(source);
        assert_eq!(ok1, ok2);
        assert_eq!(c1.code, c2.code);
        assert_eq!(c1.lines, c2.lines);
        assert_eq!(c1.constants.values.len(), c2.constants.values.len());
        for (v1, v2) in c1.constants.values.iter().zip(c2.constants.values.iter()) {
            match (&v1.type_v, &v2.type_v) {
                (ValueType::VAL_NIL, ValueType::VAL_NIL) => {}
                (ValueType::VAL_BOOL(a), ValueType::VAL_BOOL(b)) => assert_eq!(a, b),
                (ValueType::VAL_NUMBER(a), ValueType::VAL_NUMBER(b)) => assert_eq!(a, b),
                (ValueType::VAL_STRING(a), ValueType::VAL_STRING(b)) => assert_eq!(a, b),
                _ => panic!("constant tags differ"),
            }
        }
    }
}

#[test]
fn pool_of_256_constants_compiles() {
    let mut source = String::from("print(0");
    for i in 1..256 {
        source.push_str(&format!(" + {}", i));
    }
    source.push_str(");");
    let (ok, chunk) = compile_source(&source);
    assert!(ok);
    assert_eq!(chunk.constants.values.len(), 256);
    let operands = constant_operands(&chunk);
    assert_eq!(operands.len(), 256);
    assert_eq!(*operands.last().unwrap(), 255);
}

#[test]
fn constant_past_the_limit_reports_and_emits_index_zero() {
    let mut source = String::from("print(0");
    for i in 1..257 {
        source.push_str(&format!(" + {}", i));
    }
    source.push_str(");");
    let (ok, chunk) = compile_source(&source);
    assert!(!ok);
    assert_eq!(*chunk.code.last().unwrap(), OP_RETURN);
    let operands = constant_operands(&chunk);
    assert_eq!(operands.len(), 257);
    assert_eq!(*operands.last().unwrap(), 0);
}

#[test]
fn statement_without_print_is_rejected() {
    let (ok, _) = compile_source("1 + 2;");
    assert!(!ok);
}

#[test]
fn missing_operand_is_rejected() {
    let (ok, _) = compile_source("print(1 + );");
    assert!(!ok);
}

#[test]
fn compile_errors_carry_the_message() {
    let tokens = scan_tokens(String::from("print(1;"));
    let numbers: Vec<u64> = vec![0; tokens.len()];
    let mut compiler = Compiler::new(tokens, numbers);
    let ok = compiler.compile();
    assert!(!ok);
    assert!(!compiler.errors.is_empty());
    assert!(compiler.errors[0].message.contains("Expected"));
}
