use onfex::ast::{Expr, Stmt};
use onfex::compiler::Compiler;
use onfex::document::OnfexPloneDoph;
use onfex::error::OnfexError;
use onfex::lexer::Lexer;
use onfex::parser::Parser;
use onfex::token::TokenKind;
use onfex::values::{Type, Value};
use onfex::vm::{Event, Reply, Step, VM};
use onfex::ast::TypeKind;

fn lex_all(src: &str) -> Vec<TokenKind> {
    let mut lx = Lexer::new(src.to_string());
    let mut out = Vec::new();
    loop {
        let t = lx.next_token().expect("token");
        let end = matches!(t.kind, TokenKind::EOF);
        out.push(t.kind);
        if end {
            break;
        }
    }
    out
}

fn float_of(v: &Value) -> f64 {
    match v {
        Value::Int(i) => *i as f64,
        Value::Float(t) => t.parse::<f64>().unwrap(),
        _ => panic!("not a number"),
    }
}

/// Runs a program on the stack machine, answering its events: the printed
/// text, and how it ended.
fn run(src: &str, lines: &[&str]) -> (String, String) {
    let doc = OnfexPloneDoph::with_code("p".to_string(), "t.onfex".to_string(), false, src.to_string());
    let program = match doc.compile_program() {
        Ok(p) => p,
        Err(e) => return (String::new(), format!("error: {}", e.message())),
    };
    let mut vm = VM::new(program);
    let mut out = String::new();
    let mut input = lines.iter();
    let mut step = vm.step();
    loop {
        match step {
            Step::Continue => step = vm.step(),
            Step::Event(Event::Print { text, newline }) => {
                out.push_str(&text);
                if newline {
                    out.push('\n');
                }
                step = vm.reply(Reply::Printed);
            },
            Step::Event(Event::ReadLine { prompt }) => {
                out.push_str(&prompt);
                let l = input.next().expect("input line").to_string();
                step = vm.reply(Reply::Line(l));
            },
            Step::Event(Event::FloatConst { text }) => {
                let f: f64 = text.parse().unwrap();
                step = vm.reply(Reply::Float(f.to_string()));
            },
            Step::Event(Event::FloatOp { left, op, right }) => {
                let (a, b) = (float_of(&left), float_of(&right));
                let t = match op.as_str() {
                    "+" => Type::new(TypeKind::Float, Value::Float((a + b).to_string())),
                    "-" => Type::new(TypeKind::Float, Value::Float((a - b).to_string())),
                    "*" => Type::new(TypeKind::Float, Value::Float((a * b).to_string())),
                    "/" => Type::new(TypeKind::Float, Value::Float((a / b).to_string())),
                    "<" => Type::new(TypeKind::Bool, Value::Bool(a < b)),
                    ">" => Type::new(TypeKind::Bool, Value::Bool(a > b)),
                    "<=" => Type::new(TypeKind::Bool, Value::Bool(a <= b)),
                    ">=" => Type::new(TypeKind::Bool, Value::Bool(a >= b)),
                    _ => Type::new(TypeKind::Bool, Value::Bool(a == b)),
                };
                step = vm.reply(Reply::Value(t));
            },
            Step::Event(Event::Panic(m)) => return (out, format!("panic: {}", m)),
            Step::Event(Event::Finished(Ok(()))) => return (out, "ok".to_string()),
            Step::Event(Event::Finished(Err(e))) => return (out, format!("error: {}", e.message())),
        }
    }
}

#[test]
fn lexer_reads_an_assignment() {
    let toks = lex_all("valt x = 42;");
    assert_eq!(toks.len(), 6);
    assert!(matches!(toks[0], TokenKind::Valt));
    assert!(matches!(&toks[1], TokenKind::Identifier(s) if s == "x"));
    assert!(matches!(toks[2], TokenKind::Equal));
    assert!(matches!(toks[3], TokenKind::Number(42)));
    assert!(matches!(toks[4], TokenKind::Semi));
    assert!(matches!(toks[5], TokenKind::EOF));
}

#[test]
fn lexer_positions_count_lines_and_columns() {
    let mut lx = Lexer::new("a\n  bb".to_string());
    let t1 = lx.next_token().unwrap();
    let t2 = lx.next_token().unwrap();
    assert_eq!((t1.line, t1.col), (1, 1));
    assert_eq!((t2.line, t2.col), (2, 3));
}

#[test]
fn lexer_keywords_kinds_and_literals() {
    let toks = lex_all("intg trunth frunth noph \"hi\" 1.50 ==");
    assert!(matches!(toks[0], TokenKind::TyKd(TypeKind::Int)));
    assert!(matches!(toks[1], TokenKind::Bool(true)));
    assert!(matches!(toks[2], TokenKind::Bool(false)));
    assert!(matches!(toks[3], TokenKind::Void));
    assert!(matches!(&toks[4], TokenKind::String(s) if s == "hi"));
    assert!(matches!(&toks[5], TokenKind::Float(s) if s == "1.50"));
    assert!(matches!(toks[6], TokenKind::DEqual));
}

#[test]
fn lexer_errors() {
    let e = Lexer::new("\"abc".to_string()).next_token().unwrap_err();
    assert_eq!(e.message(), "unterminated string");
    let e = Lexer::new("1.2.3".to_string()).next_token().unwrap_err();
    assert_eq!(e.message(), "invalid float literal '1.2.3'");
    let e = Lexer::new("  @".to_string()).next_token().unwrap_err();
    assert_eq!(e.message(), "invalid character '@'");
    assert_eq!(e.location(), Some((1, 3)));
    let e = Lexer::new("99999999999999999999".to_string()).next_token().unwrap_err();
    assert_eq!(e.message(), "invalid integer literal '99999999999999999999'");
}

#[test]
fn parser_builds_a_call_statement() {
    let mut p = Parser::new(Lexer::new("mehen { pyrintnosFowLt!(\"hi {}\", 1); }".to_string())).unwrap();
    let prog = p.parse().unwrap();
    assert_eq!(prog.len(), 1);
    match &prog[0].stmt {
        Stmt::Mehen(body) => {
            assert_eq!(body.len(), 1);
            match &body[0].stmt {
                Stmt::ExprNode(e) => match &*e.expr {
                    Expr::Call(callee, args, fields) => {
                        assert!(matches!(&**callee, Expr::Macro(m) if m == "pyrintnosFowLt"));
                        assert_eq!(args.len(), 2);
                        assert!(fields.is_empty());
                    },
                    _ => panic!("not a call"),
                },
                _ => panic!("not an expression"),
            }
        },
        _ => panic!("not mehen"),
    }
}

#[test]
fn parser_negates_literals() {
    let mut p = Parser::new(Lexer::new("valt a = -5; valt b = -2.5;".to_string())).unwrap();
    let prog = p.parse().unwrap();
    match &prog[0].stmt {
        Stmt::Assign(n, e) => {
            assert_eq!(n, "a");
            assert!(matches!(&*e.expr, Expr::Int(-5)));
        },
        _ => panic!(),
    }
    match &prog[1].stmt {
        Stmt::Assign(_, e) => assert!(matches!(&*e.expr, Expr::Float(t) if t == "-2.5")),
        _ => panic!(),
    }
}

#[test]
fn parser_reports_what_it_expected() {
    let mut p = Parser::new(Lexer::new("valt = 3;".to_string())).unwrap();
    let e = p.parse().unwrap_err();
    assert!(matches!(e, OnfexError::Parser { .. }));
    assert_eq!(e.message(), "variable name esp wraithnosan, Equal gephnosan");
    assert_eq!(e.location(), Some((1, 6)));
}

#[test]
fn parser_greater_than_takes_the_next_token() {
    // `>` not followed by `=` is read as `>=` and swallows the token after it.
    let mut p = Parser::new(Lexer::new("3 > 2;".to_string())).unwrap();
    let e = p.parse().unwrap_err();
    assert_eq!(e.message(), "an expression esp wraithnosan, Semi gephnosan");
}

#[test]
fn parser_struct_with_fields_and_method() {
    let src = "strouct P { prube x: intg, prive y: intg } impelnos { frounct get(s: srel) -> intg { erutnos s.x; } }";
    let mut p = Parser::new(Lexer::new(src.to_string())).unwrap();
    let prog = p.parse().unwrap();
    match &prog[0].stmt {
        Stmt::StrctCre(name, fields, methods) => {
            assert_eq!(name, "P");
            assert_eq!(fields.len(), 2);
            assert_eq!(fields[0].0, "x");
            assert!(fields[0].1.glb);
            assert!(!fields[1].1.glb);
            assert_eq!(methods.len(), 1);
            assert_eq!(methods[0].0, "get");
        },
        _ => panic!("not a strouct"),
    }
}

#[test]
fn compiler_rejects_imports() {
    let mut p = Parser::new(Lexer::new("urso osp;".to_string())).unwrap();
    let prog = p.parse().unwrap();
    let e = Compiler::new().compile(&prog).unwrap_err();
    assert!(e.message().starts_with("Bytecode Ern: 'urso' / 'mot'"));
}

#[test]
fn compiler_rejects_varargs() {
    let mut p = Parser::new(Lexer::new("frounct f(!xs: intg) -> intg { erutnos 1; }".to_string())).unwrap();
    let prog = p.parse().unwrap();
    let e = Compiler::new().compile(&prog).unwrap_err();
    assert_eq!(e.message(), "Bytecode Ern: 'f' afon '...' (vararg) promterlnos esp desteklenmiyor");
}

#[test]
fn vm_prints_arithmetic() {
    let (out, end) = run("valt x = 2; pyrintnosFowLt!(\"x is {}\", x + 3);", &[]);
    assert_eq!(out, "x is 5\n");
    assert_eq!(end, "ok");
}

#[test]
fn vm_calls_a_function() {
    let (out, end) = run("frounct double(n: intg) -> intg { erutnos n * 2; } pyrintnosFowLt!(\"{}\", double(21));", &[]);
    assert_eq!(out, "42\n");
    assert_eq!(end, "ok");
}

#[test]
fn vm_checks_argument_kinds() {
    let (_, end) = run("frounct f(n: intg) -> intg { erutnos n; } f(\"a\");", &[]);
    assert_eq!(end, "error: intg esp ountf wraithnosan sterg esp gephnosan");
}

#[test]
fn vm_shows_a_struct_instance() {
    let src = "strouct Point { prube x: intg, prive y: intg } valt p = Point(){ y: 2, x: 1 }; pyrintnosFowLt!(\"{}\", p);";
    let (out, end) = run(src, &[]);
    assert_eq!(out, "Point { x: 1, y: 2 }\n");
    assert_eq!(end, "ok");
}

#[test]
fn vm_refuses_private_fields_outside() {
    let src = "strouct Point { prube x: intg, prive y: intg } valt p = Point(){ x: 1, y: 2 }; pyrintnos!(\"{}\", p.y);";
    let (_, end) = run(src, &[]);
    assert_eq!(end, "error: WrossnosStrouct Ern: 'y' alt 'Point' priv esp gephnosan (impelnos disponden erisim)");
}

#[test]
fn vm_runs_a_method_with_srel() {
    let src = "strouct Counter { prive n: intg } impelnos { frounct get(s: srel) -> intg { erutnos s.n; } } valt c = Counter(){ n: 7 }; pyrintnosFowLt!(\"{}\", c.get());";
    let (out, end) = run(src, &[]);
    assert_eq!(out, "7\n");
    assert_eq!(end, "ok");
}

#[test]
fn vm_less_than_is_read_as_at_most() {
    let (out, _) = run("ifnt (2 < 2;) { pyrintnosFowLt!(\"yes\"); } elsnt { pyrintnosFowLt!(\"no\"); }", &[]);
    assert_eq!(out, "yes\n");
    let (out, _) = run("ifnt (3 < 2;) { pyrintnosFowLt!(\"yes\"); } elsnt { pyrintnosFowLt!(\"no\"); }", &[]);
    assert_eq!(out, "no\n");
}

#[test]
fn vm_hands_floats_to_the_caller() {
    let (out, end) = run("pyrintnosFowLt!(\"{}\", 1.5 + 2);", &[]);
    assert_eq!(out, "3.5\n");
    assert_eq!(end, "ok");
}

#[test]
fn vm_reads_a_trimmed_line() {
    let (out, end) = run("valt name = morfenlnos!(\"who? \"); pyrintnosFowLt!(\"hi {}\", name);", &["  bob \n"]);
    assert_eq!(out, "who? hi \"bob\"\n");
    assert_eq!(end, "ok");
}

#[test]
fn vm_aborts_on_integer_overflow() {
    let (_, end) = run("pyrintnos!(\"{}\", 9223372036854775807 + 1);", &[]);
    assert_eq!(end, "panic: attempt to add with overflow");
}

#[test]
fn vm_division_by_zero_is_an_error() {
    let (_, end) = run("pyrintnos!(\"{}\", 1 / 0);", &[]);
    assert_eq!(end, "error: Sifrhen Ern: sifrhen tarafalt bölnos oft nophe");
}

#[test]
fn vm_unknown_builtin() {
    let (_, end) = run("foo!();", &[]);
    assert_eq!(end, "error: 'foo' bir fonksiyon oft nophe");
}

#[test]
fn vm_missing_variable() {
    let (_, end) = run("pyrintnos!(\"{}\", nope);", &[]);
    assert_eq!(end, "error: değişken 'nope' bulunamadı");
}

#[test]
fn vm_format_without_enough_arguments_keeps_braces() {
    let (out, _) = run("pyrintnos!(\"{} and {}\", trunth);", &[]);
    assert_eq!(out, "trunth1 and {}");
}

#[test]
fn vm_function_result_kind_is_checked() {
    let (_, end) = run("frounct f(n: intg) -> sterg { erutnos n; } f(1);", &[]);
    assert_eq!(end, "error: sterg esp ountf wraithnosan intg esp gephnosan");
}

#[test]
fn vm_reassignment_reads_back() {
    let (out, end) = run("valt x = 1; x = 5; pyrintnosFowLt!(\"{}\", x);", &[]);
    assert_eq!(out, "5\n");
    assert_eq!(end, "ok");
}

#[test]
fn compiler_compiles_an_empty_program() {
    let doc = OnfexPloneDoph::with_code("p".to_string(), "t.onfex".to_string(), false, "  \n".to_string());
    let p = doc.compile_program().unwrap();
    assert_eq!(p.main.code.len(), 1);
    assert!(matches!(p.main.code[0], onfex::bytecode::OpCode::PushVoid));
    let doc = OnfexPloneDoph::with_code("p".to_string(), "t.onfex".to_string(), false, "~".to_string());
    assert!(matches!(doc.compile_program(), Err(OnfexError::Lexer { .. })));
}

#[test]
fn vm_field_reads_back_what_was_written() {
    let (out, end) = run("strouct P { prube x: intg } valt p = P(){ x: 1 }; p.x = 7; pyrintnosFowLt!(\"{}\", p.x);", &[]);
    assert_eq!(out, "7\n");
    assert_eq!(end, "ok");
}
