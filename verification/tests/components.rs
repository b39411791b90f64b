use arc::chunk::Chunk;
use arc::compiler::{Compiler, Local};
use arc::disassembler::{compute_jump_target, Disassembler, LineValue};
use arc::error::ArcError;
use arc::globals::Globals;
use arc::instruction::Instruction;
use arc::output::{err, out, start_capture, take_capture, Capture};
use arc::parser::{trim_quotes_exec, Parser};
use arc::parserule::{build_rules, kind_index, ParseFn};
use arc::playground::RunResult;
use arc::precedence::Precedence;
use arc::scanner::Scanner;
use arc::text::push_decimal;
use arc::token::{Token, TokenType};
use arc::value::{Constant, FunctionType, Native, Value};
use arc::vm::{values_equal, Action, Event, VM};

fn scan_all(source: &str) -> Vec<(TokenType, u32, String)> {
    let mut scanner = Scanner::new(source);
    let mut tokens = Vec::new();
    loop {
        let token = scanner.scan_token();
        let kind = token.kind;
        tokens.push((kind, token.line, String::from_utf8(token.lexeme).unwrap()));
        if kind == TokenType::EoF {
            return tokens;
        }
    }
}

fn kinds(source: &str) -> Vec<TokenType> {
    scan_all(source).into_iter().map(|(kind, _, _)| kind).collect()
}

#[test]
fn scanner_reads_a_statement() {
    let tokens = scan_all("var x = 1.5; // note\nprint(x);");
    let expected: Vec<(TokenType, u32, &str)> = vec![
        (TokenType::Var, 1, "var"),
        (TokenType::Identifier, 1, "x"),
        (TokenType::Equal, 1, "="),
        (TokenType::Number, 1, "1.5"),
        (TokenType::Semicolon, 1, ";"),
        (TokenType::Identifier, 2, "print"),
        (TokenType::LeftParen, 2, "("),
        (TokenType::Identifier, 2, "x"),
        (TokenType::RightParen, 2, ")"),
        (TokenType::Semicolon, 2, ";"),
        (TokenType::EoF, 2, ""),
    ];
    assert_eq!(tokens.len(), expected.len());
    for (got, want) in tokens.iter().zip(expected.iter()) {
        assert_eq!(got.0, want.0);
        assert_eq!(got.1, want.1);
        assert_eq!(got.2, want.2);
    }
}

#[test]
fn scanner_knows_every_keyword() {
    let found = kinds("and class else false for fun if nil or return super this true var while");
    let expected = vec![
        TokenType::And,
        TokenType::Class,
        TokenType::Else,
        TokenType::False,
        TokenType::For,
        TokenType::Fun,
        TokenType::If,
        TokenType::Nil,
        TokenType::Or,
        TokenType::Return,
        TokenType::Super,
        TokenType::This,
        TokenType::True,
        TokenType::Var,
        TokenType::While,
        TokenType::EoF,
    ];
    assert_eq!(found, expected);
}

#[test]
fn scanner_tells_identifiers_from_keywords() {
    let found = kinds("print andy _x fun2 classy orr");
    assert_eq!(found.len(), 7);
    for kind in &found[..6] {
        assert_eq!(*kind, TokenType::Identifier);
    }
    assert_eq!(found[6], TokenType::EoF);
}

#[test]
fn scanner_reads_one_and_two_byte_operators() {
    let found = kinds("!= == <= >= ! = < > - + / * , . { }");
    let expected = vec![
        TokenType::BangEqual,
        TokenType::EqualEqual,
        TokenType::LessEqual,
        TokenType::GreaterEqual,
        TokenType::Bang,
        TokenType::Equal,
        TokenType::Less,
        TokenType::Greater,
        TokenType::Minus,
        TokenType::Plus,
        TokenType::Slash,
        TokenType::Star,
        TokenType::Comma,
        TokenType::Dot,
        TokenType::LeftBrace,
        TokenType::RightBrace,
        TokenType::EoF,
    ];
    assert_eq!(found, expected);
}

#[test]
fn scanner_reports_bad_input_as_error_tokens() {
    let tokens = scan_all("\"open");
    assert_eq!(tokens[0].0, TokenType::Error);
    assert_eq!(tokens[0].2, "Unterminated string.");
    let tokens = scan_all("@");
    assert_eq!(tokens[0].0, TokenType::Error);
    assert_eq!(tokens[0].2, "Unexpected character.");
}

#[test]
fn scanner_counts_lines_inside_strings() {
    let tokens = scan_all("\"a\nb\" x");
    assert_eq!(tokens[0].0, TokenType::String);
    assert_eq!(tokens[0].2, "\"a\nb\"");
    assert_eq!(tokens[0].1, 2);
    assert_eq!(tokens[1].1, 2);
}

#[test]
fn scanner_number_needs_digits_after_the_dot() {
    let tokens = scan_all("12. 3.25");
    assert_eq!(tokens[0].0, TokenType::Number);
    assert_eq!(tokens[0].2, "12");
    assert_eq!(tokens[1].0, TokenType::Dot);
    assert_eq!(tokens[2].2, "3.25");
}

#[test]
fn scanner_stays_at_the_end() {
    // Scanning always progresses: each token ends past where it began, and
    // once the end is reached every further token is `EoF`.
    let mut scanner = Scanner::new("a  b // c");
    assert_eq!(scanner.scan_token().kind, TokenType::Identifier);
    assert_eq!(scanner.scan_token().kind, TokenType::Identifier);
    for _ in 0..3 {
        assert_eq!(scanner.scan_token().kind, TokenType::EoF);
    }
}

#[test]
fn precedence_climbs_one_step_at_a_time() {
    let order = [
        Precedence::Lowest,
        Precedence::Assignment,
        Precedence::Or,
        Precedence::And,
        Precedence::Equality,
        Precedence::Comparison,
        Precedence::Term,
        Precedence::Factor,
        Precedence::Unary,
        Precedence::Call,
        Precedence::Primary,
    ];
    for i in 0..10 {
        assert_eq!(order[i].next(), order[i + 1]);
        assert_eq!(order[i].rank() as usize, i);
        assert!(order[i].le(order[i + 1]));
        assert!(!order[i + 1].le(order[i]));
    }
    assert_eq!(Precedence::Primary.next(), Precedence::Lowest);
}

#[test]
fn rule_table_gives_binary_operators_their_precedence() {
    let rules = build_rules();
    let plus = rules[kind_index(TokenType::Plus)];
    assert_eq!(plus.prefix, None);
    assert_eq!(plus.infix, Some(ParseFn::Binary));
    assert_eq!(plus.precedence, Precedence::Term);
    let star = rules[kind_index(TokenType::Star)];
    assert_eq!(star.precedence, Precedence::Factor);
    let minus = rules[kind_index(TokenType::Minus)];
    assert_eq!(minus.prefix, Some(ParseFn::Unary));
    let semicolon = rules[kind_index(TokenType::Semicolon)];
    assert_eq!(semicolon.prefix, None);
    assert_eq!(semicolon.infix, None);
    assert_eq!(semicolon.precedence, Precedence::Lowest);
}

#[test]
fn compiler_emits_bytecode_for_an_expression_statement() {
    let (result, diagnostics) = Parser::new("1 + 2;").compile();
    assert!(diagnostics.is_empty());
    let function = match result {
        Ok(f) => f,
        Err(_) => panic!("expected the script to compile"),
    };
    assert_eq!(function.arity, 0);
    assert!(function.name.is_empty());
    assert_eq!(
        function.chunk.code,
        vec![
            Instruction::Constant(0),
            Instruction::Constant(1),
            Instruction::Add,
            Instruction::Pop,
            Instruction::Nil,
            Instruction::Return,
        ]
    );
    assert_eq!(function.chunk.lines, vec![1, 1, 1, 1, 1, 1]);
    assert!(matches!(&function.chunk.constants[0], Constant::Number(t) if t == b"1"));
    assert!(matches!(&function.chunk.constants[1], Constant::Number(t) if t == b"2"));
}

#[test]
fn compiler_groups_operators_by_precedence_from_the_left() {
    let (result, diagnostics) = Parser::new("1 - 2 * 3 - 4;").compile();
    assert!(diagnostics.is_empty());
    let function = match result {
        Ok(f) => f,
        Err(_) => panic!("expected the script to compile"),
    };
    assert_eq!(
        function.chunk.code,
        vec![
            Instruction::Constant(0),
            Instruction::Constant(1),
            Instruction::Constant(2),
            Instruction::Multiply,
            Instruction::Subtract,
            Instruction::Constant(3),
            Instruction::Subtract,
            Instruction::Pop,
            Instruction::Nil,
            Instruction::Return,
        ]
    );
    assert!(matches!(&function.chunk.constants[3], Constant::Number(t) if t == b"4"));
}

#[test]
fn compiler_reads_a_call_with_grouped_arguments() {
    let (result, diagnostics) = Parser::new("f((1), -2);").compile();
    assert!(diagnostics.is_empty());
    let function = match result {
        Ok(f) => f,
        Err(_) => panic!("expected the script to compile"),
    };
    assert_eq!(
        function.chunk.code,
        vec![
            Instruction::GetGlobal(0),
            Instruction::Constant(1),
            Instruction::Constant(2),
            Instruction::Negate,
            Instruction::Call(2),
            Instruction::Pop,
            Instruction::Nil,
            Instruction::Return,
        ]
    );
}

#[test]
fn compiler_patches_jumps_of_an_if_statement() {
    let (result, _) = Parser::new("if (true) print 1;").compile();
    // `print` is an ordinary identifier, so `print 1` is a syntax error.
    assert!(result.is_err());
    let (result, _) = Parser::new("if (true) 1;").compile();
    let function = match result {
        Ok(f) => f,
        Err(_) => panic!("expected the script to compile"),
    };
    assert_eq!(
        function.chunk.code,
        vec![
            Instruction::True,
            Instruction::JumpIfFalse(4),
            Instruction::Pop,
            Instruction::Constant(0),
            Instruction::Pop,
            Instruction::Jump(1),
            Instruction::Pop,
            Instruction::Nil,
            Instruction::Return,
        ]
    );
}

#[test]
fn compiler_fails_exactly_when_it_reports() {
    for source in ["var x = 1;", "{ var y; }", "fun f(a) { return a; }"] {
        let (result, diagnostics) = Parser::new(source).compile();
        assert!(result.is_ok());
        assert!(diagnostics.is_empty());
    }
    for source in ["var;", "1 +", "@", "\"open", "}"] {
        let (result, diagnostics) = Parser::new(source).compile();
        assert_eq!(result.err(), Some(ArcError::CompileError));
        assert!(!diagnostics.is_empty());
    }
}

#[test]
fn lexical_errors_always_fail_compilation() {
    let (result, diagnostics) = Parser::new("1; #").compile();
    assert!(result.is_err());
    assert_eq!(diagnostics, b"[line 1] Error: Unexpected character.\n".to_vec());
    // While the parser recovers from a syntax error, an error token is not
    // reported again, and compilation fails all the same.
    let (result, diagnostics) = Parser::new("var = 1; # ok;").compile();
    assert!(result.is_err());
    assert_eq!(diagnostics, b"[line 1] Error at '=': Expected variable name.\n".to_vec());
}

#[test]
fn string_literal_loses_its_quotes() {
    assert_eq!(trim_quotes_exec(&b"\"abc\"".to_vec()), b"abc".to_vec());
    assert_eq!(trim_quotes_exec(&b"\"\"".to_vec()), b"".to_vec());
}

#[test]
fn chunk_keeps_code_lines_and_constants() {
    let mut chunk = Chunk::new();
    chunk.write(Instruction::Nil, 3);
    chunk.write(Instruction::Return, 4);
    let first = chunk.add_constant(Constant::String(b"a".to_vec()));
    let second = chunk.add_constant(Constant::Number(b"2".to_vec()));
    assert_eq!(first, 0);
    assert_eq!(second, 1);
    assert!(matches!(chunk.get_constant(0), Constant::String(t) if t == b"a"));
    assert!(matches!(chunk.get_constant(1), Constant::Number(t) if t == b"2"));
    assert_eq!(chunk.get_count(), 2);
    assert_eq!(chunk.get_line(1), 4);
    assert_eq!(chunk.get_instruction(0), Instruction::Nil);
    chunk.set_instruction(0, Instruction::True);
    assert_eq!(chunk.get_instruction(0), Instruction::True);
}

fn sample_chunk() -> Chunk {
    let mut chunk = Chunk::new();
    let number = chunk.add_constant(Constant::Number(b"1.5".to_vec()));
    let name = chunk.add_constant(Constant::String(b"x".to_vec()));
    chunk.write(Instruction::Constant(number), 1);
    chunk.write(Instruction::DefineGlobal(name), 1);
    chunk.write(Instruction::GetLocal(3), 2);
    chunk.write(Instruction::Jump(2), 2);
    chunk.write(Instruction::Loop(4), 3);
    chunk.write(Instruction::Return, 3);
    chunk
}

fn text(line: &arc::disassembler::Line) -> String {
    String::from_utf8(line.text.clone()).unwrap()
}

#[test]
fn disassembler_lists_every_instruction() {
    let chunk = sample_chunk();
    let lines = Disassembler::new(&chunk).disassemble_chunk(b"test");
    assert_eq!(lines.len(), 8);
    assert_eq!(text(&lines[0]), "== BEGIN test ==\n");
    assert_eq!(text(&lines[1]), "0000    1 OP_CONSTANT         0 '");
    assert!(matches!(&lines[1].value, LineValue::Number(t) if t == b"1.5"));
    assert_eq!(text(&lines[2]), "0001    | OP_DEFINE_GLOBAL    1 'x'\n");
    assert_eq!(text(&lines[3]), "0002    2 OP_GET_LOCAL        3\n");
    assert_eq!(text(&lines[4]), "0003    | OP_JUMP             3 -> 6\n");
    assert_eq!(text(&lines[5]), "0004    3 OP_LOOP             4 -> 1\n");
    assert_eq!(text(&lines[6]), "0005    | OP_RETURN\n");
    assert!(matches!(lines[6].value, LineValue::Done));
    assert_eq!(text(&lines[7]), "== END test\n");
}

#[test]
fn chunk_listing_has_a_header_and_no_footer() {
    let chunk = sample_chunk();
    let lines = chunk.disassemble(b"sample");
    assert_eq!(lines.len(), 7);
    assert_eq!(text(&lines[0]), "== sample ==\n");
    assert_eq!(text(&lines[6]), "0005    | OP_RETURN\n");
}

#[test]
fn disassembler_flags_constants_outside_the_chunk() {
    let mut chunk = Chunk::new();
    chunk.write(Instruction::Constant(7), 1);
    let lines = Disassembler::new(&chunk).disassemble_chunk(b"bad");
    assert!(matches!(lines[1].value, LineValue::Fault));
}

#[test]
fn jump_targets_use_eight_bit_arithmetic() {
    assert_eq!(compute_jump_target(3, 2, 1), Some(6));
    assert_eq!(compute_jump_target(4, 4, -1), Some(1));
    assert_eq!(compute_jump_target(120, 10, 1), None);
}

#[test]
fn globals_read_back_what_was_written() {
    let mut globals = Globals::new();
    assert!(globals.get(b"a").is_none());
    globals.insert(b"a".to_vec(), Value::Boolean(true));
    globals.insert(b"b".to_vec(), Value::Nil);
    globals.insert(b"a".to_vec(), Value::String(b"s".to_vec()));
    assert!(matches!(globals.get(b"a"), Some(Value::String(t)) if t == b"s"));
    assert!(matches!(globals.get(b"b"), Some(Value::Nil)));
    assert!(globals.get(b"c").is_none());
}

#[test]
fn capture_gives_back_each_stream_in_order() {
    let mut capture = Capture::new();
    assert!(!out(&mut capture, b"lost"));
    start_capture(&mut capture);
    assert!(out(&mut capture, b"a"));
    assert!(err(&mut capture, b"b"));
    assert!(out(&mut capture, b"c"));
    assert_eq!(take_capture(&mut capture), (b"ac".to_vec(), b"b".to_vec()));
    assert!(!err(&mut capture, b"after"));
    assert_eq!(take_capture(&mut capture), (Vec::new(), Vec::new()));
}

#[test]
fn machine_waits_exactly_while_work_is_asked() {
    let mut vm = VM::new();
    assert_eq!(vm.interpret("print(1);"), Ok(()));
    let mut steps = 0;
    loop {
        assert!(!vm.is_waiting());
        let action = vm.step();
        steps += 1;
        match action {
            Action::Continue => {}
            Action::Finished(result) => {
                assert_eq!(result, Ok(()));
                break;
            }
            Action::ParseNumber(text) => {
                assert_eq!(text, b"1".to_vec());
                assert!(vm.is_waiting());
                assert!(matches!(vm.resume(Event::Number(1.0f64.to_bits())), Action::Continue));
            }
            Action::FormatNumber(bits) => {
                assert_eq!(bits, 1.0f64.to_bits());
                assert!(vm.is_waiting());
                assert!(matches!(vm.resume(Event::Text(b"1".to_vec())), Action::Continue));
            }
            _ => panic!("unexpected action"),
        }
    }
    assert_eq!(steps, 6);
    assert_eq!(vm.take_output(), (b"1\n".to_vec(), Vec::new()));
    assert_eq!(vm.take_output(), (Vec::new(), Vec::new()));
    assert!(vm.current_frame().is_none());
    assert!(vm.stack().is_empty());
}

#[test]
fn arithmetic_is_asked_of_the_caller() {
    let mut vm = VM::new();
    assert_eq!(vm.interpret("2 * 3;"), Ok(()));
    let mut asked = false;
    loop {
        match vm.step() {
            Action::Continue => {}
            Action::Finished(result) => {
                assert_eq!(result, Ok(()));
                break;
            }
            Action::ParseNumber(text) => {
                let n: f64 = String::from_utf8(text).unwrap().parse().unwrap();
                vm.resume(Event::Number(n.to_bits()));
            }
            Action::Arithmetic(op, a, b) => {
                assert_eq!(op, arc::vm::ArithmeticOp::Multiply);
                assert_eq!((f64::from_bits(a), f64::from_bits(b)), (2.0, 3.0));
                asked = true;
                vm.resume(Event::Number(6.0f64.to_bits()));
            }
            _ => panic!("unexpected action"),
        }
    }
    assert!(asked);
}

#[test]
fn a_failed_compilation_leaves_the_machine_as_it_was() {
    let mut vm = VM::new();
    assert_eq!(vm.interpret("var;"), Err(ArcError::CompileError));
    assert!(vm.current_frame().is_none());
    assert!(vm.stack().is_empty());
    let (out, err) = vm.take_output();
    assert!(out.is_empty());
    assert_eq!(err, b"[line 1] Error at ';': Expected variable name.\n".to_vec());
}

#[test]
fn equality_of_values_is_symmetric() {
    let values = vec![
        Value::Nil,
        Value::Boolean(true),
        Value::Boolean(false),
        Value::String(b"a".to_vec()),
        Value::String(b"b".to_vec()),
        Value::Native(Native::print()),
        Value::Number(1.0f64.to_bits()),
    ];
    for a in &values {
        for b in &values {
            assert_eq!(values_equal(a, b), values_equal(b, a));
        }
    }
    assert_eq!(values_equal(&Value::Nil, &Value::Nil), Some(true));
    assert_eq!(values_equal(&Value::Nil, &Value::Boolean(false)), Some(false));
    assert_eq!(values_equal(&values[5], &values[5]), Some(false));
    assert_eq!(values_equal(&values[6], &values[6]), None);
}

#[test]
fn only_nil_and_false_are_falsey() {
    assert!(Value::Nil.is_falsey());
    assert!(Value::Boolean(false).is_falsey());
    assert!(!Value::Boolean(true).is_falsey());
    assert!(!Value::Number(0f64.to_bits()).is_falsey());
    assert!(!Value::String(Vec::new()).is_falsey());
}

#[test]
fn natives_have_their_arity() {
    assert_eq!(Native::print().arity, 1);
    assert_eq!(Native::clock().arity, 0);
    assert_eq!(Native::type_of().arity, 1);
}

#[test]
fn tokens_and_locals_hold_what_they_were_given() {
    let token = Token::new(TokenType::Identifier, 7, b"abc".to_vec());
    let local = Local::new(token, -1);
    assert_eq!(local.depth, -1);
    assert_eq!(local.name.line, 7);
    assert_eq!(local.name.lexeme, b"abc".to_vec());
    let null = Token::null();
    assert_eq!(null.kind, TokenType::Error);
    assert!(null.lexeme.is_empty());
}

#[test]
fn compiler_counts_names_in_the_innermost_block() {
    let mut compiler = Compiler::new(Vec::new(), FunctionType::Script);
    compiler.scope_depth = 1;
    compiler.locals.push(Local::new(Token::new(TokenType::Identifier, 1, b"a".to_vec()), 1));
    let a = Token::new(TokenType::Identifier, 1, b"a".to_vec());
    let b = Token::new(TokenType::Identifier, 1, b"b".to_vec());
    assert_eq!(compiler.is_same_scope(&a), 1);
    assert_eq!(compiler.is_same_scope(&b), 0);
}

#[test]
fn decimal_text_of_integers() {
    let mut out = b"n=".to_vec();
    push_decimal(&mut out, 0);
    push_decimal(&mut out, 1204);
    assert_eq!(out, b"n=01204".to_vec());
}

#[test]
fn run_result_reports_what_it_holds() {
    let result = RunResult::new(true, String::from("hi\n"), String::new());
    assert!(result.ok());
    assert_eq!(result.stdout(), "hi\n");
    assert_eq!(result.stderr(), "");
}

fn assert_well_formed(function: &arc::value::Function) {
    let code = &function.chunk.code;
    let constants = &function.chunk.constants;
    for (i, instruction) in code.iter().enumerate() {
        match *instruction {
            Instruction::Jump(j) | Instruction::JumpIfFalse(j) => assert!(i + 1 + j <= code.len()),
            Instruction::Loop(j) => assert!(j <= i + 1),
            Instruction::Constant(k) => assert!(k < constants.len()),
            Instruction::GetGlobal(k) | Instruction::DefineGlobal(k) | Instruction::SetGlobal(k) => {
                assert!(matches!(constants[k], Constant::String(_)))
            }
            _ => {}
        }
    }
    for constant in constants {
        if let Constant::Function(inner) = constant {
            assert_well_formed(inner);
        }
    }
}

#[test]
fn compiled_code_is_well_formed() {
    let source = "var n = 0;\nfun count(limit) {\n  var i = 0;\n  while (i < limit and true) { i = i + 1; }\n  for (var j = 0; j < 3; j = j + 1) { if (j == 1 or false) n = n + j; else n = n - 1; }\n  return i;\n}\nprint(count(4));";
    let (result, diagnostics) = Parser::new(source).compile();
    assert!(diagnostics.is_empty());
    match result {
        Ok(function) => assert_well_formed(&function),
        Err(_) => panic!("expected the script to compile"),
    }
}

#[test]
fn well_formed_programs_run_without_faults() {
    let mut vm = VM::new();
    let source = "var total = 0; for (var i = 0; i < 4; i = i + 1) { if (i == 2) total = total + 10; else total = total + 1; } print(total);";
    assert_eq!(vm.interpret(source), Ok(()));
    let mut printed = Vec::new();
    loop {
        match vm.step() {
            Action::Continue => {}
            Action::Finished(result) => {
                assert_eq!(result, Ok(()));
                break;
            }
            Action::Fault => panic!("a well-formed program faulted"),
            Action::ParseNumber(text) => {
                let n: f64 = String::from_utf8(text).unwrap().parse().unwrap();
                vm.resume(Event::Number(n.to_bits()));
            }
            Action::Arithmetic(op, a, b) => {
                let (x, y) = (f64::from_bits(a), f64::from_bits(b));
                let r = match op {
                    arc::vm::ArithmeticOp::Add => x + y,
                    arc::vm::ArithmeticOp::Subtract => x - y,
                    arc::vm::ArithmeticOp::Multiply => x * y,
                    arc::vm::ArithmeticOp::Divide => x / y,
                };
                vm.resume(Event::Number(r.to_bits()));
            }
            Action::Compare(op, a, b) => {
                let (x, y) = (f64::from_bits(a), f64::from_bits(b));
                let r = match op {
                    arc::vm::ComparisonOp::Greater => x > y,
                    arc::vm::ComparisonOp::Less => x < y,
                    arc::vm::ComparisonOp::Equal => x == y,
                };
                vm.resume(Event::Boolean(r));
            }
            Action::FormatNumber(bits) => {
                let text = format!("{}", f64::from_bits(bits));
                printed.push(text.clone());
                vm.resume(Event::Text(text.into_bytes()));
            }
            _ => panic!("unexpected action"),
        }
    }
    assert_eq!(printed, vec![String::from("13")]);
    assert_eq!(vm.take_output().0, b"13\n".to_vec());
}

#[test]
fn an_empty_program_compiles_to_a_bare_return() {
    for source in ["", "  // only a comment\n"] {
        let (result, diagnostics) = Parser::new(source).compile();
        assert!(diagnostics.is_empty());
        match result {
            Ok(function) => assert_eq!(function.chunk.code, vec![Instruction::Nil, Instruction::Return]),
            Err(_) => panic!("expected an empty program to compile"),
        }
    }
}

#[test]
fn a_builtin_given_the_wrong_count_leaves_clean_stacks() {
    let mut vm = VM::new();
    assert_eq!(vm.interpret("print(1, 2);"), Ok(()));
    loop {
        match vm.step() {
            Action::Continue => {}
            Action::ParseNumber(text) => {
                let n: f64 = String::from_utf8(text).unwrap().parse().unwrap();
                vm.resume(Event::Number(n.to_bits()));
            }
            Action::Finished(result) => {
                assert_eq!(result, Err(ArcError::RuntimeError));
                break;
            }
            _ => panic!("unexpected action"),
        }
    }
    assert!(vm.stack().is_empty());
    assert!(vm.current_frame().is_none());
}
