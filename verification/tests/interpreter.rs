use arc::error::ArcError;
use arc::output::{err, out, start_capture, take_capture, Capture};
use arc::vm::{Action, ArithmeticOp, ComparisonOp, Event, VM};

/// Answers an action of the machine; gives the outcome once the program ends.
fn answer(vm: &mut VM, action: Action) -> Option<Result<(), ArcError>> {
    let event = match action {
        Action::Continue => return None,
        Action::Finished(result) => return Some(result),
        Action::Fault => panic!("the machine reached a state that compiled code never produces"),
        Action::ParseNumber(text) => {
            let value: f64 = std::str::from_utf8(&text).unwrap().parse().unwrap();
            Event::Number(value.to_bits())
        }
        Action::Arithmetic(op, a, b) => {
            let (x, y) = (f64::from_bits(a), f64::from_bits(b));
            let r = match op {
                ArithmeticOp::Add => x + y,
                ArithmeticOp::Subtract => x - y,
                ArithmeticOp::Multiply => x * y,
                ArithmeticOp::Divide => x / y,
            };
            Event::Number(r.to_bits())
        }
        Action::Compare(op, a, b) => {
            let (x, y) = (f64::from_bits(a), f64::from_bits(b));
            Event::Boolean(match op {
                ComparisonOp::Greater => x > y,
                ComparisonOp::Less => x < y,
                ComparisonOp::Equal => x == y,
            })
        }
        Action::Negate(a) => Event::Number((-f64::from_bits(a)).to_bits()),
        Action::FormatNumber(a) => Event::Text(format!("{}", f64::from_bits(a)).into_bytes()),
        Action::Clock => Event::Number(1234.0f64.to_bits()),
    };
    vm.resume(event);
    None
}

fn flush(vm: &mut VM, capture: &mut Capture) {
    let (o, e) = vm.take_output();
    // Every test starts capturing first, so both streams always land in `capture`.
    assert!(out(capture, &o));
    assert!(err(capture, &e));
}

fn interpret(vm: &mut VM, capture: &mut Capture, source: &str) -> Result<(), ArcError> {
    let loaded = vm.interpret(source);
    flush(vm, capture);
    loaded?;
    loop {
        let action = vm.step();
        let done = answer(vm, action);
        flush(vm, capture);
        if let Some(result) = done {
            return result;
        }
    }
}

/// Runs `source` in a fresh machine; gives the outcome and the captured streams.
fn run(source: &str) -> (Result<(), ArcError>, String, String) {
    let mut capture = Capture::new();
    start_capture(&mut capture);
    let mut vm = VM::new();
    let result = interpret(&mut vm, &mut capture, source);
    let (o, e) = take_capture(&mut capture);
    (result, String::from_utf8(o).unwrap(), String::from_utf8(e).unwrap())
}

#[test]
fn captures_print_output() {
    let mut capture = Capture::new();
    start_capture(&mut capture);
    let mut vm = VM::new();
    interpret(&mut vm, &mut capture, "print(\"hello\");").unwrap();
    let (out, err) = take_capture(&mut capture);
    assert_eq!(out, b"hello\n".to_vec());
    assert_eq!(err, b"".to_vec());
}

#[test]
fn captures_runtime_error_output() {
    let mut capture = Capture::new();
    start_capture(&mut capture);
    let mut vm = VM::new();
    assert!(interpret(&mut vm, &mut capture, "1 + true;").is_err());
    let (_, err) = take_capture(&mut capture);
    let err = String::from_utf8(err).unwrap();
    assert!(err.contains("Operands must be two numbers or two strings."));
}

#[test]
fn captures_compile_error_output() {
    let mut capture = Capture::new();
    start_capture(&mut capture);
    let mut vm = VM::new();
    assert!(interpret(&mut vm, &mut capture, "var 1 = 2;").is_err());
    let (_, err) = take_capture(&mut capture);
    let err = String::from_utf8(err).unwrap();
    assert!(err.contains("Error"));
}

#[test]
fn compile_error_report_is_exact() {
    let (result, out, err) = run("var 1 = 2;");
    assert_eq!(result, Err(ArcError::CompileError));
    assert_eq!(out, "");
    assert_eq!(err, "[line 1] Error at '1': Expected variable name.\n");
}

#[test]
fn missing_operand_is_reported_at_end() {
    let (result, _, err) = run("1 +");
    assert_eq!(result, Err(ArcError::CompileError));
    assert_eq!(err, "[line 1] Error at end: Expect expression.\n");
}

#[test]
fn runtime_error_reports_message_and_trace() {
    let (result, _, err) = run("1 + true;");
    assert_eq!(result, Err(ArcError::RuntimeError));
    assert_eq!(err, "Operands must be two numbers or two strings.\n[line 1] in script\n");
}

#[test]
fn arithmetic_follows_precedence() {
    let (result, out, _) = run("print(1 + 2 * 3);\nprint((1 + 2) * 3);\nprint(10 - 4 / 2);\nprint(-3 + 1);");
    assert_eq!(result, Ok(()));
    assert_eq!(out, "7\n9\n8\n-2\n");
}

#[test]
fn numbers_print_like_doubles() {
    let (_, out, _) = run("print(1.50); print(1 / 0); print(0.1 + 0.2);");
    assert_eq!(out, "1.5\ninf\n0.30000000000000004\n");
}

#[test]
fn strings_concatenate() {
    let (result, out, _) = run("print(\"ab\" + \"cd\");");
    assert_eq!(result, Ok(()));
    assert_eq!(out, "abcd\n");
}

#[test]
fn globals_define_read_and_assign() {
    let (result, out, _) = run("var a = 1; a = a + 1; print(a); var b; print(b);");
    assert_eq!(result, Ok(()));
    assert_eq!(out, "2\nnil\n");
}

#[test]
fn undefined_global_is_a_runtime_error() {
    let (result, out, err) = run("print(x);");
    assert_eq!(result, Err(ArcError::RuntimeError));
    assert_eq!(out, "");
    assert_eq!(err, "Undefined variable 'x'.\n[line 1] in script\n");
}

#[test]
fn assigning_an_undefined_global_is_a_runtime_error() {
    let (result, _, err) = run("y = 1;");
    assert_eq!(result, Err(ArcError::RuntimeError));
    assert_eq!(err, "Undefined variable 'y'.\n[line 1] in script\n");
}

#[test]
fn locals_live_in_blocks() {
    let (result, out, _) = run("{ var a = 1; { var b = 2; print(a + b); } a = 5; print(a); }");
    assert_eq!(result, Ok(()));
    assert_eq!(out, "3\n5\n");
}

#[test]
fn control_flow_if_while_for() {
    let source = "var x = 0;\nif (x == 0) print(\"zero\"); else print(\"other\");\nif (x > 1) print(\"big\"); else print(\"small\");\nvar i = 0; while (i < 3) { print(i); i = i + 1; }\nfor (var j = 0; j < 2; j = j + 1) print(j * 10);";
    let (result, out, _) = run(source);
    assert_eq!(result, Ok(()));
    assert_eq!(out, "zero\nsmall\n0\n1\n2\n0\n10\n");
}

#[test]
fn logical_operators_short_circuit() {
    let (result, out, _) = run("print(nil or 2); print(false and 1); print(1 and 2); print(!nil); print(!0);");
    assert_eq!(result, Ok(()));
    assert_eq!(out, "2\nfalse\n2\ntrue\nfalse\n");
}

#[test]
fn comparisons_and_equality() {
    let (result, out, _) = run("print(1 < 2); print(2 <= 1); print(3 >= 3); print(1 != 2); print(\"a\" == \"a\"); print(nil == false); print(print == print);");
    assert_eq!(result, Ok(()));
    assert_eq!(out, "true\nfalse\ntrue\ntrue\ntrue\nfalse\nfalse\n");
}

#[test]
fn functions_take_arguments_and_return() {
    let source = "fun add(a, b) { return a + b; }\nprint(add(1, 2));\nprint(add);\nfun fib(n) { if (n < 2) return n; return fib(n - 1) + fib(n - 2); }\nprint(fib(10));";
    let (result, out, _) = run(source);
    assert_eq!(result, Ok(()));
    assert_eq!(out, "3\n<fn add>\n55\n");
}

#[test]
fn wrong_argument_count_is_a_runtime_error() {
    let (result, _, err) = run("fun add(a, b) {\n return a + b;\n}\nadd(1);");
    assert_eq!(result, Err(ArcError::RuntimeError));
    assert_eq!(err, "Expected 2 arguments but got 1.\n[line 4] in script\n");
}

#[test]
fn trace_names_every_frame() {
    let (result, _, err) = run("fun f() {\n  return 1 + nil;\n}\nf();");
    assert_eq!(result, Err(ArcError::RuntimeError));
    assert_eq!(err, "Operands must be two numbers or two strings.\n[line 2] in f()\n[line 4] in script\n");
}

#[test]
fn deep_recursion_overflows_the_frame_stack() {
    let (result, _, err) = run("fun f() { f(); }\nf();");
    assert_eq!(result, Err(ArcError::RuntimeError));
    let mut expected = String::from("Stack overflow.\n");
    for _ in 0..63 {
        expected.push_str("[line 1] in f()\n");
    }
    expected.push_str("[line 2] in script\n");
    assert_eq!(err, expected);
}

#[test]
fn calling_a_non_function_is_a_runtime_error() {
    let (result, _, err) = run("1();");
    assert_eq!(result, Err(ArcError::RuntimeError));
    assert_eq!(err, "Can only call functions and classes.\n[line 1] in script\n");
}

#[test]
fn negating_a_non_number_is_a_runtime_error() {
    let (result, _, err) = run("-\"a\";");
    assert_eq!(result, Err(ArcError::RuntimeError));
    assert_eq!(err, "Operand must be a number.\n[line 1] in script\n");
}

#[test]
fn comparing_a_non_number_is_a_runtime_error() {
    let (result, _, err) = run("1 < \"a\";");
    assert_eq!(result, Err(ArcError::RuntimeError));
    assert_eq!(err, "Operands must be numbers.\n[line 1] in script\n");
}

#[test]
fn builtin_type_of_names_types() {
    let source = "fun g() {}\nprint(type_of(1)); print(type_of(\"s\")); print(type_of(nil)); print(type_of(true)); print(type_of(print)); print(type_of(g)); print(type_of(clock()));";
    let (result, out, _) = run(source);
    assert_eq!(result, Ok(()));
    assert_eq!(out, "number\nstring\nnil\nboolean\nnative\nfunction\nnumber\n");
}

#[test]
fn builtin_with_wrong_argument_count_fails_silently() {
    let (result, out, err) = run("print(1, 2);");
    assert_eq!(result, Err(ArcError::RuntimeError));
    assert_eq!(out, "");
    assert_eq!(err, "");
}

#[test]
fn returning_from_top_level_is_a_compile_error() {
    let (result, _, err) = run("return 1;");
    assert_eq!(result, Err(ArcError::CompileError));
    assert_eq!(err, "[line 1] Error at 'return': Can't return from top-level code.\n");
}

#[test]
fn local_in_its_own_initializer_is_a_compile_error() {
    let (result, _, err) = run("{ var a = a; }");
    assert_eq!(result, Err(ArcError::CompileError));
    assert_eq!(err, "[line 1] Error at 'a': Can't read local variable in its own initializer\n");
}

#[test]
fn duplicate_local_is_a_compile_error() {
    let (result, _, err) = run("{ var a = 1; var a = 2; }");
    assert_eq!(result, Err(ArcError::CompileError));
    assert_eq!(err, "[line 1] Error at 'a': Already a variable with this name in this scope.\n");
}

#[test]
fn invalid_assignment_target_is_a_compile_error() {
    let (result, _, err) = run("1 + 2 = 3;");
    assert_eq!(result, Err(ArcError::CompileError));
    assert_eq!(err, "[line 1] Error at '=': Invalid assignment target.\n");
}

#[test]
fn errors_resume_at_the_next_statement() {
    let (result, _, err) = run("var 1;\nvar 2;");
    assert_eq!(result, Err(ArcError::CompileError));
    assert_eq!(err, "[line 1] Error at '1': Expected variable name.\n[line 2] Error at '2': Expected variable name.\n");
}

#[test]
fn scanner_errors_are_reported() {
    let (result, _, err) = run("\"abc");
    assert_eq!(result, Err(ArcError::CompileError));
    assert_eq!(err, "[line 1] Error: Unterminated string.\n");
    let (result, _, err) = run("@;");
    assert_eq!(result, Err(ArcError::CompileError));
    assert_eq!(err, "[line 1] Error: Unexpected character.\n");
}

#[test]
fn one_machine_runs_several_programs() {
    let mut capture = Capture::new();
    start_capture(&mut capture);
    let mut vm = VM::new();
    assert_eq!(interpret(&mut vm, &mut capture, "var a = 40;"), Ok(()));
    assert_eq!(interpret(&mut vm, &mut capture, "print(a + 2);"), Ok(()));
    let (out, _) = take_capture(&mut capture);
    assert_eq!(out, b"42\n".to_vec());
}
