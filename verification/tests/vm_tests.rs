use nlox::chunk::{Chunk, OpCode};
use nlox::compiler::Compiler;
use nlox::scanner::scan_tokens;
use nlox::token::Kind;
use nlox::value::{number_eq, number_is_nan, number_lt, Value, ValueType};
use nlox::vm::{InterpretResult, RunStep, VM};

fn compile_source(source: &str) -> (bool, Chunk) {
    let tokens = scan_tokens(String::from(source));
    let mut numbers: Vec<u64> = vec![0; tokens.len()];
    for (i, t) in tokens.iter().enumerate() {
        if t.kind == Kind::NumberLiteral {
            numbers[i] = t.string.parse::<f64>().unwrap().to_bits();
        }
    }
    let mut compiler = Compiler::new(tokens, numbers);
    let ok = compiler.compile();
    (ok, compiler.current)
}

/// Drives the machine to a halt, doing its IEEE-754 arithmetic for it.
fn drive(vm: &mut VM) -> InterpretResult {
    let mut step = vm.interpret();
    loop {
        match step {
            RunStep::NeedsArith { op, lhs, rhs } => {
                let a = f64::from_bits(lhs);
                let b = f64::from_bits(rhs);
                let result = match op {
                    OpCode::OP_ADD => a + b,
                    OpCode::OP_SUBTRACT => a - b,
                    OpCode::OP_MULTIPLY => a * b,
                    OpCode::OP_DIVIDE => a / b,
                    other => panic!("machine asked for a non-arithmetic op {:?}", other),
                };
                vm.resume_with_number(result.to_bits());
                step = vm.run();
            }
            RunStep::Halted(result) => return result,
        }
    }
}

fn render(v: &Value) -> String {
    match &v.type_v {
        ValueType::VAL_NIL => String::from("nil"),
        ValueType::VAL_BOOL(b) => format!("{}", b),
        ValueType::VAL_NUMBER(bits) => format!("{}", f64::from_bits(*bits)),
        ValueType::VAL_STRING(s) => s.clone(),
    }
}

/// Compiles and runs a program; returns the terminal status and the printed
/// lines.
fn run_source(source: &str) -> (InterpretResult, Vec<String>, VM) {
    let (ok, chunk) = compile_source(source);
    let mut vm = VM::new(chunk);
    if !ok {
        return (InterpretResult::INTERPRET_COMPILE_ERROR, Vec::new(), vm);
    }
    let result = drive(&mut vm);
    let printed = vm.output.iter().map(render).collect();
    (result, printed, vm)
}

fn expect_output(source: &str, expected: &str) {
    let (result, printed, _) = run_source(source);
    assert_eq!(result, InterpretResult::INTERPRET_OK, "program: {}", source);
    assert_eq!(printed, vec![String::from(expected)], "program: {}", source);
}

#[test]
fn addition_binds_looser_than_multiplication() {
    expect_output("print(1 + 2 * 3);", "7");
}

#[test]
fn grouping_overrides_precedence() {
    expect_output("print((1 + 2) * 3);", "9");
}

#[test]
fn unary_minus_negates() {
    expect_output("print(-2 + 5);", "3");
}

#[test]
fn not_nil_is_true() {
    expect_output("print(!nil);", "true");
}

#[test]
fn string_concatenation() {
    expect_output("print(\"foo\" + \"bar\");", "foobar");
}

#[test]
fn comparison_feeds_equality() {
    expect_output("print(1 < 2 == true);", "true");
}

#[test]
fn adding_number_and_string_is_a_runtime_error() {
    let (result, printed, vm) = run_source("print(1 + \"x\");");
    assert_eq!(result, InterpretResult::INTERPRET_RUNTIME_ERROR);
    assert!(printed.is_empty());
    let error = vm.error.expect("a runtime diagnostic is recorded");
    assert_eq!(error.message, "Operands must be two numbers or two strings");
    assert_eq!(error.line, Some(1));
    assert!(vm.stack.is_empty());
}

#[test]
fn subtracting_a_string_is_a_runtime_error() {
    let (result, _, vm) = run_source("print(1 - \"x\");");
    assert_eq!(result, InterpretResult::INTERPRET_RUNTIME_ERROR);
    assert_eq!(vm.error.unwrap().message, "Operands must be numbers");
}

#[test]
fn negating_a_boolean_is_a_runtime_error() {
    let (result, _, vm) = run_source("print(-true);");
    assert_eq!(result, InterpretResult::INTERPRET_RUNTIME_ERROR);
    let error = vm.error.unwrap();
    assert_eq!(error.message, "Operand must be a number");
    assert_eq!(error.line, Some(1));
}

#[test]
fn error_line_follows_the_source() {
    // every byte is emitted with the line of the token before the cursor, so
    // the ADD emitted after its right operand carries that operand's line
    let (result, _, vm) = run_source("print(\n\n1 +\n\"x\");");
    assert_eq!(result, InterpretResult::INTERPRET_RUNTIME_ERROR);
    assert_eq!(vm.error.unwrap().line, Some(4));
}

#[test]
fn zero_over_zero_is_nan_and_nan_is_not_equal_to_itself() {
    let (result, printed, _) = run_source("print(0 / 0);");
    assert_eq!(result, InterpretResult::INTERPRET_OK);
    assert_eq!(printed, vec![String::from("NaN")]);

    expect_output("print(0 / 0 == 0 / 0);", "false");

    let nan = (0.0f64 / 0.0f64).to_bits();
    assert!(number_is_nan(nan));
    assert!(!number_eq(nan, nan));
    assert!(!number_lt(nan, nan));
}

#[test]
fn division_is_ieee_754() {
    expect_output("print(1 / 0);", "inf");
    expect_output("print(-1 / 0);", "-inf");
    expect_output("print(7 / 2);", "3.5");
}

#[test]
fn the_two_zeros_are_equal() {
    expect_output("print(0 == -0);", "true");
    expect_output("print(0 < -0);", "false");
}

#[test]
fn comparisons_order_numbers() {
    expect_output("print(2 <= 2);", "true");
    expect_output("print(1 >= 2);", "false");
    expect_output("print(2 > 1);", "true");
    expect_output("print(6 / 2 - 1);", "2");
}

#[test]
fn equality_is_false_across_tags() {
    expect_output("print(1 == \"1\");", "false");
    expect_output("print(nil == false);", "false");
    expect_output("print(nil == nil);", "true");
    expect_output("print(\"a\" == \"a\");", "true");
    expect_output("print(\"a\" == \"b\");", "false");
}

#[test]
fn only_nil_and_false_are_falsy() {
    expect_output("print(!false);", "true");
    expect_output("print(!0);", "false");
    expect_output("print(!\"\");", "false");
    expect_output("print(!!nil);", "false");
}

#[test]
fn bit_model_matches_hardware_comparisons() {
    let samples = [
        0.0f64, -0.0, 1.0, -1.0, 0.5, -0.5, 1.5, 2.0, 1e300, -1e300, 5e-324, -5e-324,
        f64::INFINITY, f64::NEG_INFINITY, f64::NAN, f64::MAX, f64::MIN,
    ];
    for &a in &samples {
        for &b in &samples {
            let (x, y) = (a.to_bits(), b.to_bits());
            assert_eq!(number_lt(x, y), a < b, "lt on {} and {}", a, b);
            assert_eq!(number_eq(x, y), a == b, "eq on {} and {}", a, b);
        }
    }
    for &a in &samples {
        assert_eq!(
            f64::from_bits(nlox::value::negate_bits(a.to_bits())).to_bits(),
            (-a).to_bits(),
            "negation of {}",
            a
        );
    }
}

#[test]
fn compile_error_stops_before_running() {
    let (result, printed, vm) = run_source("print(1;");
    assert_eq!(result, InterpretResult::INTERPRET_COMPILE_ERROR);
    assert!(printed.is_empty());
    assert!(vm.error.is_none());
}

#[test]
fn machine_survives_a_hand_built_chunk() {
    let mut chunk = Chunk::new();
    let idx = chunk.addConstant(Value::number_value(2.5f64.to_bits()));
    chunk.write_chunk(6, 1);
    chunk.write_chunk(idx as u8, 1);
    chunk.write_chunk(0, 1);
    let mut vm = VM::new(chunk);
    let result = drive(&mut vm);
    assert_eq!(result, InterpretResult::INTERPRET_OK);
    assert_eq!(vm.output.len(), 1);
    assert_eq!(render(&vm.output[0]), "2.5");
}

#[test]
fn value_predicates_and_payloads() {
    let n = Value::number_value(3.0f64.to_bits());
    assert!(n.is_number());
    assert!(!n.is_nil() && !n.is_bool() && !n.is_obj());
    assert_eq!(f64::from_bits(n.as_number()), 3.0);

    let s = Value::obj_value("hi");
    assert!(s.is_obj());
    assert_eq!(s.as_obj(), "hi");

    let b = Value::bool_value(true);
    assert!(b.is_bool() && b.as_bool());

    let nil = Value::nil_value();
    assert!(nil.is_nil());

    assert!(VM::valueEqual(
        Value::obj_value("ab"),
        Value::obj_value("ab")
    ));
    assert!(!VM::valueEqual(Value::obj_value("ab"), Value::bool_value(true)));
    assert!(VM::is_falsely(Value::nil_value()));
    assert!(VM::is_falsely(Value::bool_value(false)));
    assert!(!VM::is_falsely(Value::number_value(0)));
}

#[test]
fn repeated_negation() {
    expect_output("print(--3);", "3");
    expect_output("print(---3);", "-3");
}

#[test]
fn fractional_literals_round_trip() {
    expect_output("print(123.456);", "123.456");
    expect_output("print(0.456);", "0.456");
    expect_output("print(1.5 + 2.25);", "3.75");
}

#[test]
fn nested_grouping() {
    expect_output("print(((1 + 2)) * ((3)));", "9");
}

#[test]
fn dot_without_fraction_digit_stays_a_dot() {
    // "1." scans as the number 1 followed by a dot, which cannot close the
    // print argument
    let (result, _, _) = run_source("print(1.);");
    assert_eq!(result, InterpretResult::INTERPRET_COMPILE_ERROR);
}

#[test]
fn several_statements_print_in_order() {
    let (result, printed, _) = run_source("print(1); print(2 + 3); print(\"x\");");
    assert_eq!(result, InterpretResult::INTERPRET_OK);
    assert_eq!(printed, vec![
        String::from("1"),
        String::from("5"),
        String::from("x")
    ]);
}

#[test]
fn opcode_bytes_round_trip() {
    for byte in 0u8..15 {
        let op = OpCode::try_from(byte).expect("bytes below 15 decode");
        assert_eq!(op.as_byte(), byte);
    }
    assert!(OpCode::try_from(15).is_err());
    assert!(OpCode::try_from(255).is_err());
}
