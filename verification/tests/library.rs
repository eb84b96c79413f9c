use onfex::assoc::trim;
use onfex::ast::TypeKind;
use onfex::document::OnfexPloneDoph;
use onfex::error::OnfexError;
use onfex::names::check_string;
use onfex::ostools::split_command;
use onfex::values::{binop, BinResult, Type, Value};
use onfex::vm::fill_placeholders;
use onfex::v2::decimal::OnfexDecimal;
use onfex::v2::document::OnfexPloneDoph as Doc2;
use onfex::v2::error::OnfexError as Error2;
use onfex::v2::qkt::{bwi8, Qtrit, Trit, Triner};
use onfex::v2::report::report_pieces;
use onfex::v2::source::{split_lines, SourceContext, SourceStack};
use onfex::v2::types::TypeKind as Kind2;
use onfex::v2::builtins::check_field_visibility;
use onfex::v2::types::Field;
use std::cmp::Ordering;

fn dec(v: i128, s: u32) -> OnfexDecimal {
    OnfexDecimal::new(v, s, 64).unwrap()
}

#[test]
fn decimal_is_normalised() {
    let d = dec(1500, 3);
    assert_eq!((d.value, d.scale, d.size), (15, 1, 64));
    assert_eq!(d.to_string(), "1.5");
    let z = OnfexDecimal::new(0, 5, 16).unwrap();
    assert_eq!((z.value, z.scale), (0, 0));
    assert_eq!(z.to_string(), "0");
}

#[test]
fn decimal_renders_small_and_negative_numbers() {
    assert_eq!(dec(5, 3).to_string(), "0.005");
    assert_eq!(dec(-1234, 2).to_string(), "-12.34");
    assert_eq!(dec(7, 0).to_string(), "7");
}

#[test]
fn decimal_add_aligns_scales() {
    let s = dec(15, 1).add(dec(25, 2)).unwrap();
    assert_eq!(s.to_string(), "1.75");
    let t = dec(25, 2).add(dec(15, 1)).unwrap();
    assert_eq!(s, t);
}

#[test]
fn decimal_sub_mul_div() {
    assert_eq!(dec(1, 0).sub(dec(25, 2)).unwrap().to_string(), "0.75");
    assert_eq!(dec(15, 1).mul(dec(15, 1)).unwrap().to_string(), "2.25");
    assert_eq!(dec(1, 0).div(dec(3, 0)).unwrap().to_string(), "0.333333333333333333");
    assert_eq!(dec(-1, 0).div(dec(4, 0)).unwrap().to_string(), "-0.25");
    let e = dec(1, 0).div(dec(0, 0)).unwrap_err();
    assert_eq!(e.message(), "Valt Ern: ernen bron kleün");
}

#[test]
fn decimal_rem_follows_the_dividend() {
    assert_eq!(dec(7, 0).rem(dec(3, 0)).unwrap().to_string(), "1");
    assert_eq!(dec(-7, 0).rem(dec(3, 0)).unwrap().to_string(), "-1");
    assert_eq!(dec(7, 0).rem(dec(-3, 0)).unwrap().to_string(), "1");
    assert_eq!(dec(75, 1).rem(dec(2, 0)).unwrap().to_string(), "1.5");
    let e = dec(1, 0).rem(dec(0, 0)).unwrap_err();
    assert_eq!(e.message(), "Valt Ern: division by zero");
}

#[test]
fn decimal_neg_twice_is_identity() {
    let d = dec(15, 1);
    let n = d.neg().unwrap();
    assert_eq!(n.to_string(), "-1.5");
    assert_eq!(n.neg().unwrap(), d);
}

#[test]
fn decimal_size_errors() {
    let e = OnfexDecimal::new(1, 0, 32).unwrap_err();
    assert_eq!(e.message(), "Valt Ern: keonvald decmal seznev '32'");
    let e = OnfexDecimal::from_i128_with_size(40000, 16).unwrap_err();
    assert_eq!(e.message(), "Valt Ern: decmal valtue '40000' asp intf '16' quad neat fertnosfer ");
    let e = OnfexDecimal::zero_with_size(8).unwrap_err();
    assert_eq!(e.message(), "Valt Ern: keonvald decmal seznev '8'");
    let e = dec(9223372036854775807, 0).add(dec(1, 0)).unwrap_err();
    assert_eq!(e.message(), "Valt Ern: decmal valtue '9223372036854775808' asp intf '64' quad neat fertnosfer ");
}

#[test]
fn decimal_set_size_and_with_size() {
    let mut d = dec(40000, 0);
    assert!(d.set_size(16).is_err());
    assert_eq!(d.size(), 16);
    let mut e = dec(12, 0);
    let err = e.set_size(7).unwrap_err();
    assert_eq!(err.message(), "Valt Ern: invalid decimal size '7'");
    assert_eq!(e.size(), 64);
    assert_eq!(dec(12, 0).with_size(16).unwrap().size(), 16);
    assert_eq!(OnfexDecimal::zero().to_string(), "0");
    assert_eq!(OnfexDecimal::from_i128(-3).unwrap().to_string(), "-3");
}

#[test]
fn decimal_compares_numbers() {
    assert_eq!(dec(15, 1).cmp(&dec(125, 2)), Ordering::Greater);
    assert_eq!(dec(15, 1).partial_cmp(&dec(150, 2)), Some(Ordering::Equal));
    assert_eq!(dec(-1, 0).cmp(&dec(1, 3)), Ordering::Less);
}

#[test]
fn decimal_normalize_keeps_the_number() {
    let mut d = OnfexDecimal { value: 1200, scale: 3, size: 64 };
    d.normalize();
    assert_eq!((d.value, d.scale), (12, 1));
}

#[test]
fn qtrit_parts_must_be_in_range() {
    assert!(bwi8(-100, 100, 100));
    assert!(!bwi8(-100, 101, 100));
    assert!(Qtrit::new(1, 2, 3).is_ok());
    let e = Qtrit::new(101, 0, 0).err().unwrap();
    assert!(matches!(e, Error2::Qtriner { line: None, col: None, .. }));
    assert_eq!(e.message(), "Qtriner Ern: valtues asp serl -100 perl 100 ien neomrar wanphnosfer");
}

#[test]
fn trit_holds_what_was_set() {
    let mut t = Trit::new(Triner::onpe);
    assert_eq!(t.veotGephnos(), Some(Triner::onpe));
    t.veotSernos(Some(Triner::netrep));
    assert_eq!(t.veotGephnos(), Some(Triner::netrep));
    t.veotSernos(None);
    assert_eq!(t.veotGephnos(), None);
}

#[test]
fn type_kinds_of_the_first_revision() {
    assert!(matches!(TypeKind::from_string("intg"), Some(TypeKind::Int)));
    assert!(matches!(TypeKind::from_string("sterg"), Some(TypeKind::Str)));
    assert!(TypeKind::from_string("sterge").is_none());
    assert_eq!(TypeKind::Ref.to_string(), "repherfal");
    assert_eq!(TypeKind::Vect.to_string(), "<METHAVEOT>");
    assert!(TypeKind::Vect.equal(TypeKind::Sprd));
    assert!(!TypeKind::Int.equal(TypeKind::Float));
}

#[test]
fn type_kinds_of_the_later_revision() {
    assert_eq!(Kind2::Dynamic("Vektore".to_string()).to_string(), "Vektore");
    assert!(matches!(Kind2::from_string("sterge"), Some(Kind2::Str)));
    assert_eq!(Kind2::Str.to_string(), "sterg");
    assert!(Kind2::Dynamic("sterg".to_string()) == Kind2::Str);
    assert!(Kind2::ColStr.equal(Kind2::MonoT));
}

#[test]
fn names_allow_the_alphabet_digits_and_underscore() {
    assert!(check_string("abc_ö1Ü"));
    assert!(check_string(""));
    assert!(!check_string("a-b"));
    assert!(!check_string("ç"));
}

#[test]
fn commands_split_at_single_spaces() {
    let (cmd, args) = split_command("ls -la /tmp");
    assert_eq!(cmd, "ls");
    assert_eq!(args, vec!["-la".to_string(), "/tmp".to_string()]);
    let (cmd, args) = split_command("a  b");
    assert_eq!(cmd, "a");
    assert_eq!(args, vec!["".to_string(), "b".to_string()]);
    let (cmd, args) = split_command("");
    assert_eq!(cmd, "");
    assert!(args.is_empty());
}

#[test]
fn trimming_removes_outer_white_space() {
    assert_eq!(trim(" hi there\n"), "hi there");
    assert_eq!(trim("\t\n"), "");
}

#[test]
fn placeholders_are_filled_in_order() {
    let args = vec!["1".to_string(), "2".to_string()];
    assert_eq!(fill_placeholders("{} + {} = {}", &args), "1 + 2 = {}");
    assert_eq!(fill_placeholders("{", &args), "{");
}

#[test]
fn binop_on_values() {
    let i = |n: i64| Type::new(TypeKind::Int, Value::Int(n));
    let s = |t: &str| Type::new(TypeKind::Str, Value::Str(t.to_string()));
    match binop(i(7), "/", i(-2)).unwrap() {
        BinResult::Value(t) => assert!(matches!(t.value, Value::Int(-3))),
        _ => panic!(),
    }
    match binop(i(3), "==", i(3)).unwrap() {
        BinResult::Value(t) => assert!(matches!(t.value, Value::Bool(true))),
        _ => panic!(),
    }
    match binop(s("ab"), "+", s("cd")).unwrap() {
        BinResult::Value(t) => assert!(matches!(&t.value, Value::Str(x) if x == "abcd")),
        _ => panic!(),
    }
    assert_eq!(binop(s("a"), "-", s("b")).err().unwrap().message(), "WrossnosOp Ern: sterge alt '-' oft alnos nophe");
    assert_eq!(binop(i(1), "+", s("b")).err().unwrap().message(), "Typect Ern: '+' oft intg alt sterg arasalt alnos nophe");
    assert_eq!(binop(i(1), "%", i(2)).err().unwrap().message(), "WrossnosOp Ern: '%' oft alnos nophe");
    assert!(matches!(binop(i(i64::MIN), "/", i(-1)).unwrap(), BinResult::Overflow(_)));
}

#[test]
fn source_lines_follow_str_lines() {
    assert_eq!(split_lines("a\r\nb\n"), vec!["a".to_string(), "b".to_string()]);
    assert_eq!(split_lines("a\n\nb"), vec!["a".to_string(), "".to_string(), "b".to_string()]);
    assert!(split_lines("").is_empty());
    assert_eq!(split_lines("x\r"), vec!["x\r".to_string()]);
}

#[test]
fn source_stack_pops_back_to_the_outer_file() {
    let mut st = SourceStack::new();
    assert!(st.current_source().is_none());
    st.push_source_context("main.onfex".to_string(), "a\nb");
    st.push_source_context("lib.onfex".to_string(), "c");
    assert_eq!(st.current_source().unwrap().filename, "lib.onfex");
    st.pop_source_context();
    let cur = st.current_source().unwrap();
    assert_eq!(cur.filename, "main.onfex");
    assert_eq!(cur.lines, vec!["a".to_string(), "b".to_string()]);
}

fn plain(e: &Error2, src: &Option<SourceContext>) -> String {
    report_pieces(e, src).iter().map(|p| p.text.clone()).collect::<String>()
}

#[test]
fn report_without_position() {
    let e = Error2::runtime("boom".to_string());
    assert_eq!(plain(&e, &None), "Error: boom\n  = Runtime Ern: (konum bilgisi mevcut değil)");
}

#[test]
fn report_points_at_the_line() {
    let e = Error2::parser("bad".to_string(), 2, 3);
    let src = Some(SourceContext { filename: "m.onfex".to_string(), lines: vec!["one".to_string(), "two".to_string()] });
    assert_eq!(plain(&e, &src), "Error: bad\n --> m.onfex:2:3\n  |\n2 | two\n  |   ^\n  =: Parser Ern");
    let far = Error2::lexer("x".to_string(), 9, 1);
    assert_eq!(plain(&far, &None), "Error: x\n --> <onfex>:9:1\n  |\n  | (kaynak satırı gephnosan)\n  =: Lexer Ern");
}

#[test]
fn runtime_errors_learn_the_innermost_position() {
    let e = Error2::runtime("m".to_string()).with_location_default(3, 4);
    assert_eq!(e.location(), Some((3, 4)));
    let e = e.with_location_default(7, 8);
    assert_eq!(e.location(), Some((3, 4)));
    assert_eq!(e.kind(), "Runtime Ern");
    let p = Error2::parser("p".to_string(), 1, 1).with_location_default(5, 5);
    assert_eq!(p.location(), Some((1, 1)));
}

#[test]
fn first_revision_errors_render_framed() {
    let e = OnfexError::lexer("oops".to_string(), 1, 2);
    let bar = "──────────────────────────────────────────";
    assert_eq!(e.render(), format!("——Lexer Error {}\n Error  : oops\n   Location : line 1, column 2\n -{}", bar, bar));
    let r = OnfexError::runtime("bad".to_string());
    assert_eq!(r.kind(), "Runtime Error");
    assert_eq!(r.location(), None);
    assert_eq!(r.render(), format!("——Runtime Error {}\n Error  : bad\n   Location : (not tracked for runtime errors)\n -{}", bar, bar));
}

#[test]
fn documents_know_their_version() {
    let d = OnfexPloneDoph::with_code("p".to_string(), "a.onfex".to_string(), false, String::new());
    assert!(d.verifyVersion("0.7.1".to_string()));
    assert!(!d.verifyVersion("2.0.0".to_string()));
    let d2 = Doc2::with_code("p".to_string(), "std.onfex".to_string(), false, String::new());
    assert!(d2.verifyVersion("2.0.0".to_string()));
    assert!(d2.skip_std_injection());
    let d3 = Doc2::with_code("p".to_string(), "main.onfex".to_string(), false, String::new());
    assert!(!d3.skip_std_injection());
    let d4 = Doc2::with_code("p".to_string(), "main.onfex".to_string(), true, String::new());
    assert!(d4.skip_std_injection());
}

#[test]
fn field_visibility_of_the_later_revision() {
    let f = Field { glb: false, name: "y".to_string(), typ: Kind2::Int };
    assert!(check_field_visibility("P", &f, &Some("P".to_string())).is_ok());
    let e = check_field_visibility("P", &f, &None).unwrap_err();
    assert_eq!(e.message(), "Valt Ern: 'y' asp 'P' prive freld");
}
