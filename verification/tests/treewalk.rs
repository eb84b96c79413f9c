use onfex::ast::TypeKind;
use onfex::interpreter::{module_place, run_source, Answer, Outcome, Request};
use onfex::values::{Type, Value};

fn float_of(v: &Value) -> f64 {
    match v {
        Value::Int(i) => *i as f64,
        Value::Float(t) => t.parse::<f64>().unwrap(),
        _ => panic!("not a number"),
    }
}

fn copy_answer(a: &Answer) -> Answer {
    match a {
        Answer::Printed => Answer::Printed,
        Answer::Line(s) => Answer::Line(s.clone()),
        Answer::Failed(s) => Answer::Failed(s.clone()),
        Answer::Float(s) => Answer::Float(s.clone()),
        Answer::Value(t) => Answer::Value(Type::new(t.kind, t.value.duplicate())),
        Answer::File(f) => Answer::File(f.clone()),
    }
}

struct Run {
    out: String,
    end: String,
    files: Vec<String>,
}

/// Runs `src` on the tree-walking engine, answering what it asks: the text
/// printed, how the run ended, and the files it asked for.
fn drive(src: &str, path: &str, self_access: bool, lines: &[&str], files: &[(&str, Option<&str>)], depth: usize) -> Run {
    let mut answers: Vec<Answer> = Vec::new();
    let mut out = String::new();
    let mut asked = Vec::new();
    let mut input = lines.iter();
    loop {
        let given: Vec<Answer> = answers.iter().map(copy_answer).collect();
        let n = given.len();
        let (outcome, used) = run_source(src.to_string(), path.to_string(), false, self_access, given, depth);
        assert!(used <= n);
        match outcome {
            Outcome::Ask(req) => {
                assert_eq!(used, n);
                let a = match req {
                    Request::Print { text, newline } => {
                        out.push_str(&text);
                        if newline {
                            out.push('\n');
                        }
                        Answer::Printed
                    },
                    Request::ReadLine { prompt } => {
                        out.push_str(&prompt);
                        Answer::Line(input.next().expect("input line").to_string())
                    },
                    Request::FloatConst { text } => {
                        let f: f64 = text.parse().unwrap();
                        Answer::Float(f.to_string())
                    },
                    Request::FloatOp { left, op, right } => {
                        let (a, b) = (float_of(&left), float_of(&right));
                        Answer::Value(match op.as_str() {
                            "+" => Type::new(TypeKind::Float, Value::Float((a + b).to_string())),
                            "-" => Type::new(TypeKind::Float, Value::Float((a - b).to_string())),
                            "*" => Type::new(TypeKind::Float, Value::Float((a * b).to_string())),
                            "/" => Type::new(TypeKind::Float, Value::Float((a / b).to_string())),
                            "<" => Type::new(TypeKind::Bool, Value::Bool(a < b)),
                            ">" => Type::new(TypeKind::Bool, Value::Bool(a > b)),
                            "<=" => Type::new(TypeKind::Bool, Value::Bool(a <= b)),
                            ">=" => Type::new(TypeKind::Bool, Value::Bool(a >= b)),
                            _ => Type::new(TypeKind::Bool, Value::Bool(a == b)),
                        })
                    },
                    Request::ReadFile { path } => {
                        asked.push(path.clone());
                        let found = files.iter().find(|(p, _)| *p == path).expect("known file");
                        Answer::File(found.1.map(|c| c.to_string()))
                    },
                    Request::Command { program, args } => {
                        let mut line = program.clone();
                        for a in &args {
                            line.push('|');
                            line.push_str(a);
                        }
                        asked.push(line);
                        Answer::Line(format!("{} ran\n", program))
                    },
                };
                answers.push(a);
            },
            Outcome::Done(Ok(())) => return Run { out, end: "ok".to_string(), files: asked },
            Outcome::Done(Err(e)) => return Run { out, end: format!("error: {}", e.message()), files: asked },
            Outcome::Abort(m) => return Run { out, end: format!("panic: {}", m), files: asked },
            Outcome::TooDeep => return Run { out, end: "too deep".to_string(), files: asked },
        }
    }
}

fn run(src: &str) -> Run {
    drive(src, "root", false, &[], &[], 200)
}

#[test]
fn tree_prints_arithmetic() {
    let r = run("valt x = 2; pyrintnosFowLt!(\"x is {}\", x + 3);");
    assert_eq!(r.out, "x is 5\n");
    assert_eq!(r.end, "ok");
}

#[test]
fn tree_calls_a_function() {
    let r = run("frounct double(n: intg) -> intg { erutnos n * 2; } pyrintnosFowLt!(\"{}\", double(21));");
    assert_eq!(r.out, "42\n");
    assert_eq!(r.end, "ok");
}

#[test]
fn tree_refuses_a_second_parameter() {
    let r = run("frounct f(a: intg, b: intg) -> intg { erutnos a; } f(1, 2);");
    assert_eq!(r.end, "error: 2 afon promter esp wraithnosan 2 esp gephnosan");
}

#[test]
fn tree_checks_argument_and_result_kinds() {
    let r = run("frounct f(n: intg) -> intg { erutnos n; } f(\"a\");");
    assert_eq!(r.end, "error: intg esp ountf wraithnosan sterg esp gephnosan");
    let r = run("frounct f(n: intg) -> sterg { erutnos n; } f(1);");
    assert_eq!(r.end, "error: sterg esp ountf wraithnosan intg esp gephnosan");
    let r = run("frounct f(n: intg) -> intg { n; } f(1);");
    assert_eq!(r.end, "error: intg esp ountf wraithnosan nophe esp gephnosan");
}

#[test]
fn tree_collects_and_spreads_arguments() {
    let src = "frounct one(n: intg) -> intg { erutnos n; } frounct f(!xs: intg) -> intg { erutnos one(!xs); } pyrintnosFowLt!(\"{}\", f(7));";
    let r = run(src);
    assert_eq!(r.out, "7\n");
    assert_eq!(r.end, "ok");
    let src = "frounct one(n: intg) -> intg { erutnos n; } frounct f(!xs: intg) -> intg { erutnos one(!xs); } f(7, 8);";
    assert_eq!(run(src).end, "error: 1 afon promter esp wraithnosan 2 esp gephnosan");
    let src = "frounct f(!xs: intg) -> nophe { pyrintnosFowLt!(\"{}\", xs); } f(1, 2);";
    assert_eq!(run(src).out, "<METHAVEOT>\n");
    assert_eq!(run("frounct f(!xs: intg) -> nophe { } f();").end, "error: 1+ afon promter esp wraithnosan 0 esp gephnosan");
}

#[test]
fn tree_function_without_parameters_panics() {
    let r = run("frounct f() -> nophe { } f();");
    assert_eq!(r.end, "panic: index out of bounds: the len is 0 but the index is 0");
}

#[test]
fn tree_struct_instances_and_methods() {
    let src = "strouct Counter { prive n: intg } impelnos { frounct get(s: srel) -> intg { erutnos s.n; } } valt c = Counter(){ n: 7 }; pyrintnosFowLt!(\"{}\", c.get());";
    let r = run(src);
    assert_eq!(r.out, "7\n");
    assert_eq!(r.end, "ok");
    let src = "strouct S { prube a: intg } impelnos { frounct make(n: intg) -> intg { erutnos n + 1; } } pyrintnosFowLt!(\"{}\", S.make(1));";
    assert_eq!(run(src).out, "2\n");
}

#[test]
fn tree_shows_fields_in_name_order() {
    let src = "strouct Point { prube y: intg, prube x: intg } valt p = Point(){ y: 2, x: 1 }; pyrintnosFowLt!(\"{}\", p);";
    let r = run(src);
    assert_eq!(r.out, "Point { x: 1, y: 2 }\n");
}

#[test]
fn tree_refuses_private_fields_outside() {
    let src = "strouct Point { prube x: intg, prive y: intg } valt p = Point(){ x: 1, y: 2 }; pyrintnos!(\"{}\", p.y);";
    assert_eq!(run(src).end, "error: WrossnosStrouct Ern: 'y' alt 'Point' priv esp gephnosan (impelnos disponden erisim)");
}

#[test]
fn tree_instances_are_shared() {
    let src = "strouct P { prube x: intg } valt p = P(){ x: 1 }; valt q = p; q.x = 9; pyrintnosFowLt!(\"{}\", p.x);";
    let r = run(src);
    assert_eq!(r.out, "9\n");
    assert_eq!(r.end, "ok");
}

#[test]
fn tree_struct_construction_errors() {
    assert_eq!(run("strouct S { prube a: intg } S(1);").end,
        "error: WrossnosStrouct Ern: 'S' strouct örneği alt sadece alan(field) esp gephnosan, promter oft nophe");
    assert_eq!(run("strouct S { prube a: intg } S(){ b: 1 };").end,
        "error: WrossnosStrouct Ern: 'a' alt strouct 'S' afma gephnosan nophe");
    assert_eq!(run("strouct S { prube a: intg } S(){ a: 1, b: 2 };").end,
        "error: WrossnosStrouct Ern: 'b' alt strouct 'S' meovinden oft nophe");
    assert_eq!(run("strouct S { prube a: intg } valt s = S(){ a: 1 }; s.zz();").end,
        "error: WrossnosStrouct Ern: 'S' metodnos 'zz' esp gephnosan");
}

#[test]
fn tree_if_else_has_its_own_scope() {
    let r = run("ifnt (trunth;) { valt y = 1; } pyrintnos!(\"{}\", y);");
    assert_eq!(r.end, "error: variable 'y' not found");
    let r = run("ifnt (frunth;) { pyrintnosFowLt!(\"yes\"); } elsnt { pyrintnosFowLt!(\"no\"); }");
    assert_eq!(r.out, "no\n");
}

#[test]
fn tree_mehen_runs_unless_imported() {
    let r = run("mehen { pyrintnosFowLt!(\"main\"); }");
    assert_eq!(r.out, "main\n");
    let (outcome, used) = run_source("mehen { pyrintnosFowLt!(\"main\"); }".to_string(), "root".to_string(), true, false, Vec::new(), 50);
    assert!(matches!(outcome, Outcome::Done(Ok(()))));
    assert_eq!(used, 0);
}

#[test]
fn tree_return_at_the_top_stops_the_program() {
    let r = run("pyrintnosFowLt!(\"a\"); erutnos; pyrintnosFowLt!(\"b\");");
    assert_eq!(r.out, "a\n");
    assert_eq!(r.end, "ok");
}

#[test]
fn tree_reassignment_and_references() {
    let r = run("valt x = 1; valt r = &x; x = 2; pyrintnosFowLt!(\"{} {}\", *r, r);");
    assert_eq!(r.out, "2 <repherfal:&1>\n");
    assert_eq!(run("valt x = 1; *x;").end, "error: cannot dereference a non-reference value");
}

#[test]
fn tree_lists_and_maps() {
    let r = run("valt v = [1, \"a\"]; pyrintnosFowLt!(\"{}\", v);");
    assert_eq!(r.out, "<Vektöre [ 1 | \"a\" ]>\n");
}

#[test]
fn tree_hands_floats_to_the_caller() {
    let r = run("pyrintnosFowLt!(\"{}\", 1.5 + 2);");
    assert_eq!(r.out, "3.5\n");
}

#[test]
fn tree_reads_a_trimmed_line() {
    let r = drive("valt name = morfenlnos!(\"who? \"); pyrintnosFowLt!(\"hi {}\", name);", "root", false, &["  bob \n"], &[], 100);
    assert_eq!(r.out, "who? hi \"bob\"\n");
    assert_eq!(r.end, "ok");
}

#[test]
fn tree_integer_overflow_and_division_by_zero() {
    assert_eq!(run("pyrintnos!(\"{}\", 9223372036854775807 + 1);").end, "panic: attempt to add with overflow");
    assert_eq!(run("pyrintnos!(\"{}\", 1 / 0);").end, "error: Sifrhen Ern: sifrhen tarafalt bölnos oft nophe");
}

#[test]
fn tree_unknown_names() {
    assert_eq!(run("foo!();").end, "error: 'foo' is not a function");
    assert_eq!(run("pyrintnos!(\"{}\", nope);").end, "error: variable 'nope' not found");
    assert_eq!(run("valt x = 1; x(2);").end, "error: 'x' is not a function");
    assert_eq!(run("urso neomOnfex;").end, "error: library 'neomOnfex' not found");
    assert_eq!(run("wrossnosLrib a = b;").end, "error: WrossnosLrib Ern: keoninferins lrib b");
}

#[test]
fn tree_recursion_without_end_is_too_deep() {
    let r = drive("frounct f(n: intg) -> intg { erutnos f(n); } f(1);", "root", false, &[], &[], 30);
    assert_eq!(r.end, "too deep");
}

#[test]
fn tree_imports_a_module() {
    let module = "frounct twice(n: intg) -> intg { erutnos n * 2; } valt k = 5; mehen { pyrintnosFowLt!(\"not run\"); }";
    let src = "mot \"lib/m.onfex\"; pyrintnosFowLt!(\"{} {}\", m!->twice(4), m!->k);";
    let r = drive(src, "root", false, &[], &[("/lib/m.onfex", Some(module))], 100);
    assert_eq!(r.out, "8 5\n");
    assert_eq!(r.end, "ok");
    assert_eq!(r.files, vec!["/lib/m.onfex".to_string()]);
}

#[test]
fn tree_renames_a_module() {
    let module = "valt k = 5;";
    let src = "mot \"m.onfex\"; wrossnosMot \"n\" = \"m\"; pyrintnosFowLt!(\"{}\", n!->k); m!->k;";
    let r = drive(src, "root", false, &[], &[("/m.onfex", Some(module))], 100);
    assert_eq!(r.out, "5\n");
    assert_eq!(r.end, "error: undefined module 'm'");
    let src = "mot \"m.onfex\"; wrossnosMot \"a-b\" = \"m\";";
    let r = drive(src, "root", false, &[], &[("/m.onfex", Some(module))], 100);
    assert_eq!(r.end, "error: WrossnosMot Ern: meess asp");
}

#[test]
fn tree_missing_module_file_is_reported() {
    let src = "mot \"x/m.onfex\"; m!->k;";
    let r = drive(src, "root", false, &[], &[("/x/m.onfex", None)], 100);
    assert!(r.out.contains("Dophcumt Opernal Ern: ern oft rendnen dophcumt: /x"));
    assert_eq!(r.end, "error: undefined module variable 'm!->k'");
}

#[test]
fn tree_module_errors_stop_the_run() {
    let src = "mot \"m.onfex\";";
    let r = drive(src, "root", false, &[], &[("/m.onfex", Some("pyrintnos!(\"{}\", q);"))], 100);
    assert!(r.out.contains("variable 'q' not found"));
    assert_eq!(r.end, "panic: called `Option::unwrap()` on a `None` value");
}

#[test]
fn tree_modules_refused_when_run_alone() {
    let r = drive("mot \"m.onfex\";", "", true, &[], &[], 100);
    assert_eq!(r.end, "error: Mot Ern: Mot Freat keonaertenosfer");
}

#[test]
fn tree_module_place_resolves_the_parent_folder() {
    let (folder, file) = module_place("../lib/m.onfex", "/home/u");
    assert_eq!(folder, "//home/u/lib");
    assert_eq!(file, "m.onfex");
    let (folder, file) = module_place("m.onfex", "x");
    assert_eq!(folder, "");
    assert_eq!(file, "m.onfex");
}

#[test]
fn tree_asks_only_after_using_every_answer() {
    let (outcome, used) = run_source("pyrintnos!(\"a\"); pyrintnos!(\"b\");".to_string(), "root".to_string(), false, false, vec![Answer::Printed], 50);
    assert_eq!(used, 1);
    match outcome {
        Outcome::Ask(Request::Print { text, newline }) => {
            assert_eq!(text, "b");
            assert!(!newline);
        },
        _ => panic!("expected a request"),
    }
}

#[test]
fn tree_failed_printing_is_an_error() {
    let (outcome, _) = run_source("pyrintnos!(\"a\");".to_string(), "root".to_string(), false, false,
        vec![Answer::Failed("failed to flush stdout: broken pipe".to_string())], 50);
    match outcome {
        Outcome::Done(Err(e)) => assert_eq!(e.message(), "failed to flush stdout: broken pipe"),
        _ => panic!("expected an error"),
    }
}

#[test]
fn tree_shows_a_map() {
    let r = run("valt v = {1: 2}; pyrintnosFowLt!(\"{}\", v);");
    assert_eq!(r.out, "<Map {1 : 2}>\n");
}

#[test]
fn tree_loads_the_shell_library() {
    let r = run("urso osp; pyrintnosFowLt!(\"{}\", osp->verzen);");
    assert_eq!(r.out, "\"0.5.1\"\n");
    assert_eq!(run("urso osp; osp->nope;").end, "error: undefined var 'osp->nope'");
    assert_eq!(run("osp->verzen;").end, "error: undefined library 'osp'");
    assert_eq!(run("osp->termifal(\"ls\");").end, "error: undefined library'osp'");
    assert_eq!(run("urso osp; osp->nope();").end, "error: undefined function 'osp->nope'");
}

#[test]
fn tree_shell_functions_run_commands() {
    let r = run("urso osp; valt x = osp->termifal(\"echo hi there\"); pyrintnosFowLt!(\"{}\", x);");
    assert_eq!(r.files, vec!["echo|hi|there".to_string()]);
    assert_eq!(r.out, "\"echo ran\"\n");
    let r = run("urso osp; osp->systessPyrintlbrof(\"ls\", \"-a\");");
    assert_eq!(r.files, vec!["ls|-a".to_string()]);
    assert_eq!(r.out, "ls ran\n");
    let r = run("urso osp; osp->grosserCernos(\"d\");");
    assert_eq!(r.files, vec!["mkdir|d".to_string()]);
    assert_eq!(run("urso osp; osp->cg();").end, "error: Promter Ern: cg frounct asp 1 promter beg gephnosfer");
    assert_eq!(run("urso osp; osp->systess(1);").end, "error: Typect Ern:sterge esp wraithnosan");
    assert_eq!(run("urso osp; osp->systess();").end, "panic: index out of bounds: the len is 0 but the index is 0");
}

#[test]
fn tree_renames_a_library() {
    let r = run("urso osp; wrossnosLrib s = osp; pyrintnosFowLt!(\"{}\", s->verzen); osp->verzen;");
    assert_eq!(r.out, "\"0.5.1\"\n");
    assert_eq!(r.end, "error: undefined library 'osp'");
}

#[test]
fn tree_command_output_loses_its_last_character() {
    assert_eq!(onfex::interpreter::without_last_char("abc\n").ok(), Some("abc".to_string()));
    assert!(onfex::interpreter::without_last_char("").is_err());
}

#[test]
fn tree_reassignment_in_an_inner_scope_stays_there() {
    let r = run("valt x = 1; ifnt (trunth;) { x = 2; pyrintnosFowLt!(\"{}\", x); } pyrintnosFowLt!(\"{}\", x);");
    assert_eq!(r.out, "1\n1\n");
    let r = run("valt x = 1; x = 3; pyrintnosFowLt!(\"{}\", x);");
    assert_eq!(r.out, "3\n");
}

#[test]
fn tree_blank_and_unreadable_programs() {
    let (outcome, used) = run_source("  \n\t ".to_string(), "root".to_string(), false, false, Vec::new(), 10);
    assert!(matches!(outcome, Outcome::Done(Ok(()))));
    assert_eq!(used, 0);
    let (outcome, used) = run_source("@".to_string(), "root".to_string(), false, false, Vec::new(), 10);
    match outcome {
        Outcome::Done(Err(e)) => assert_eq!(e.message(), "invalid character '@'"),
        _ => panic!("expected a lexer error"),
    }
    assert_eq!(used, 0);
}
