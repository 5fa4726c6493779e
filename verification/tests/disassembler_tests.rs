use nlox::chunk::Chunk;
use nlox::compiler::Compiler;
use nlox::scanner::scan_tokens;
use nlox::token::Kind;
use nlox::value::{Value, ValueType};

fn compile_source(source: &str) -> (bool, Chunk) {
    let tokens = scan_tokens(String::from(source));
    let mut numbers: Vec<u64> = vec![0; tokens.len()];
    for (i, t) in tokens.iter().enumerate() {
        if t.kind == Kind::NumberLiteral {
            numbers[i] = t.string.parse::<f64>().unwrap().to_bits();
        }
    }
    let mut compiler = Compiler::new(tokens, numbers);
    let ok = compiler.compile();
    (ok, compiler.current)
}

fn render_constants(chunk: &Chunk) -> Vec<String> {
    chunk
        .constants
        .values
        .iter()
        .map(|v| match &v.type_v {
            ValueType::VAL_NIL => String::from("nil"),
            ValueType::VAL_BOOL(b) => format!("{}", b),
            ValueType::VAL_NUMBER(bits) => format!("{}", f64::from_bits(*bits)),
            ValueType::VAL_STRING(s) => s.clone(),
        })
        .collect()
}

#[test]
fn disassembling_twice_gives_identical_text() {
    let (ok, chunk) = compile_source("print(1.5 + 2 * 3);");
    assert!(ok);
    let rendered = render_constants(&chunk);
    let first = chunk.disassembleChunk("code", &rendered);
    let second = chunk.disassembleChunk("code", &rendered);
    assert_eq!(first, second);
    assert!(!first.is_empty());
}

#[test]
fn listing_of_an_empty_program() {
    let (ok, chunk) = compile_source("");
    assert!(ok);
    let rendered = render_constants(&chunk);
    let text = chunk.disassembleChunk("main", &rendered);
    assert_eq!(text, "== main ==\n0000 0001 OP_RETURN\n");
}

#[test]
fn listing_shows_constants_and_repeated_lines() {
    let mut chunk = Chunk::new();
    let idx = chunk.addConstant(Value::number_value(2.5f64.to_bits()));
    chunk.write_chunk(6, 7);
    chunk.write_chunk(idx as u8, 7);
    chunk.write_chunk(0, 7);
    let rendered = render_constants(&chunk);
    let text = chunk.disassembleChunk("test", &rendered);
    assert_eq!(
        text,
        "== test ==\n0000 0007 OP_CONSTANT         0-> 2.5\n\n0002    | OP_RETURN\n"
    );
}

#[test]
fn offsets_advance_by_instruction_width() {
    let (ok, chunk) = compile_source("print(1 + 2);");
    assert!(ok);
    let rendered = render_constants(&chunk);
    let mut out = String::new();
    let mut offset = 0;
    let mut offsets = Vec::new();
    while offset < chunk.code.len() {
        offsets.push(offset);
        offset = chunk.disassembleInstruction(offset, &rendered, &mut out);
    }
    // two constants of two bytes each, then add, print, return
    assert_eq!(offsets, vec![0, 2, 4, 5, 6]);
    assert_eq!(offset, chunk.code.len());
}
