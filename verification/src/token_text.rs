//! How a token kind is shown in messages: the name of its variant, followed
//! by its payload in brackets where it has one (`Identifier("x")`,
//! `Number(5)`, `Float(1.5)`, `Semi`).
use vstd::prelude::*;
use crate::ast::TypeKind;
use crate::text::{chars_of, owned, push_char, push_str, signed_decimal, string_of_range, i64_to_string};
use crate::token::{Tok, TokenKind};

verus! {

// ---------------------------------------------------------------------------
// Quoted text
// ---------------------------------------------------------------------------

/// A lower-case hexadecimal digit.
pub open spec fn hex_digit(d: int) -> char {
    if d < 10 { crate::text::digit_char(d) }
    else if d == 10 { 'a' } else if d == 11 { 'b' } else if d == 12 { 'c' }
    else if d == 13 { 'd' } else if d == 14 { 'e' } else { 'f' }
}

/// Whether `c` is an ASCII control character.
pub open spec fn ascii_control(c: char) -> bool {
    (c as u32) < 0x20 || (c as u32) == 0x7f
}

/// How one character stands inside quotes: the quote mark, the backslash,
/// new line, carriage return, tab and NUL get a backslash escape, the other
/// ASCII control characters are written as `\u{..}` with their code in
/// lower-case hexadecimal, and every other character stands as it is.
pub open spec fn escaped_char(c: char) -> Seq<char> {
    if c == '"' { seq!['\\', '"'] }
    else if c == '\\' { seq!['\\', '\\'] }
    else if c == '\n' { seq!['\\', 'n'] }
    else if c == '\r' { seq!['\\', 'r'] }
    else if c == '\t' { seq!['\\', 't'] }
    else if c == '\0' { seq!['\\', '0'] }
    else if ascii_control(c) {
        let n = c as u32 as int;
        if n < 16 { seq!['\\', 'u', '{', hex_digit(n), '}'] }
        else { seq!['\\', 'u', '{', hex_digit(n / 16), hex_digit(n % 16), '}'] }
    }
    else { seq![c] }
}

/// The characters of `s`, each as `escaped_char` writes it.
pub open spec fn escaped(s: Seq<char>) -> Seq<char>
    decreases s.len(),
{
    if s.len() == 0 { Seq::empty() } else { escaped(s.drop_last()) + escaped_char(s.last()) }
}

/// `s` between double quotes, escaped.
pub open spec fn quoted(s: Seq<char>) -> Seq<char> {
    seq!['"'] + escaped(s) + seq!['"']
}

fn hex_digit_of(d: u32) -> (c: char)
    requires
        d < 16,
    ensures
        c == hex_digit(d as int),
{
    if d == 0 { '0' } else if d == 1 { '1' } else if d == 2 { '2' } else if d == 3 { '3' }
    else if d == 4 { '4' } else if d == 5 { '5' } else if d == 6 { '6' } else if d == 7 { '7' }
    else if d == 8 { '8' } else if d == 9 { '9' } else if d == 10 { 'a' } else if d == 11 { 'b' }
    else if d == 12 { 'c' } else if d == 13 { 'd' } else if d == 14 { 'e' } else { 'f' }
}

/// Appends `c` as it stands inside quotes.
fn push_escaped_char(out: &mut String, c: char)
    ensures
        final(out)@ == old(out)@ + escaped_char(c),
{
    let pair = if c == '"' { Some('"') }
        else if c == '\\' { Some('\\') }
        else if c == '\n' { Some('n') }
        else if c == '\r' { Some('r') }
        else if c == '\t' { Some('t') }
        else if c == '\0' { Some('0') }
        else { None };
    match pair {
        Some(e) => {
            push_char(out, '\\');
            push_char(out, e);
        },
        None => {
            let n: u32 = c as u32;
            if n < 0x20 || n == 0x7f {
                push_char(out, '\\');
                push_char(out, 'u');
                push_char(out, '{');
                if n < 16 {
                    push_char(out, hex_digit_of(n));
                } else {
                    push_char(out, hex_digit_of(n / 16));
                    push_char(out, hex_digit_of(n % 16));
                }
                push_char(out, '}');
            } else {
                push_char(out, c);
            }
        },
    }
    assert(final(out)@ =~= old(out)@ + escaped_char(c));
}

/// Appends `s` between double quotes, escaped.
fn push_quoted(out: &mut String, s: &str)
    ensures
        final(out)@ == old(out)@ + quoted(s@),
{
    let v = chars_of(s);
    push_char(out, '"');
    let ghost start = old(out)@;
    let mut i: usize = 0;
    while i < v.len()
        invariant
            0 <= i <= v@.len(),
            v@ == s@,
            out@ == start + seq!['"'] + escaped(v@.subrange(0, i as int)),
        decreases v.len() - i,
    {
        push_escaped_char(out, v[i]);
        assert(v@.subrange(0, i + 1).drop_last() =~= v@.subrange(0, i as int));
        i = i + 1;
    }
    assert(v@.subrange(0, v@.len() as int) =~= v@);
    push_char(out, '"');
    assert(final(out)@ =~= old(out)@ + quoted(s@));
}

// ---------------------------------------------------------------------------
// Floating-point literals
// ---------------------------------------------------------------------------

/// The index of the first `.` in `s` at or after `i`, or the length of `s`.
pub open spec fn dot_from(s: Seq<char>, i: int) -> int
    decreases s.len() - i,
{
    if i >= s.len() { s.len() as int } else if s[i] == '.' { i } else { dot_from(s, i + 1) }
}

/// `s` without its leading `0` characters.
pub open spec fn without_leading_zeros(s: Seq<char>) -> Seq<char>
    decreases s.len(),
{
    if s.len() > 0 && s[0] == '0' { without_leading_zeros(s.drop_first()) } else { s }
}

/// `s` without its trailing `0` characters.
pub open spec fn without_trailing_zeros(s: Seq<char>) -> Seq<char>
    decreases s.len(),
{
    if s.len() > 0 && s.last() == '0' { without_trailing_zeros(s.drop_last()) } else { s }
}

/// `s`, or `0` where `s` is empty.
pub open spec fn or_zero(s: Seq<char>) -> Seq<char> {
    if s.len() == 0 { seq!['0'] } else { s }
}

/// How a floating-point literal is shown: its whole part without leading
/// zeros and its fraction without trailing zeros, each written `0` where
/// nothing is left, joined by a dot (`007.50` shows as `7.5`, `3.` as
/// `3.0`). This is the shortest text of the literal's value as long as the
/// value lies between 1e-4 and 1e16 and its digits are exact in a double;
/// outside that range a double shows in exponent form, which is not written
/// here.
pub open spec fn float_text(s: Seq<char>) -> Seq<char> {
    let d = dot_from(s, 0);
    let whole = without_leading_zeros(s.subrange(0, d));
    let frac = if d < s.len() { without_trailing_zeros(s.subrange(d + 1, s.len() as int)) } else { Seq::empty() };
    or_zero(whole) + seq!['.'] + or_zero(frac)
}

/// Appends the text of a floating-point literal (`float_text`).
fn push_float_text(out: &mut String, s: &str)
    ensures
        final(out)@ == old(out)@ + float_text(s@),
{
    let v = chars_of(s);
    let n = v.len();
    let mut d: usize = 0;
    while d < n && v[d] != '.'
        invariant
            0 <= d <= n == v@.len(),
            v@ == s@,
            dot_from(v@, 0) == dot_from(v@, d as int),
        decreases n - d,
    {
        d = d + 1;
    }
    let ghost whole = v@.subrange(0, d as int);
    let mut a: usize = 0;
    while a < d && v[a] == '0'
        invariant
            0 <= a <= d <= n == v@.len(),
            whole == v@.subrange(0, d as int),
            without_leading_zeros(whole) == without_leading_zeros(v@.subrange(a as int, d as int)),
        decreases d - a,
    {
        assert(v@.subrange(a as int, d as int).drop_first() =~= v@.subrange(a + 1, d as int));
        a = a + 1;
    }
    assert(without_leading_zeros(v@.subrange(a as int, d as int)) == v@.subrange(a as int, d as int));
    let start: usize = if d < n { d + 1 } else { n };
    let ghost frac = v@.subrange(start as int, n as int);
    let mut b: usize = n;
    while b > start && v[b - 1] == '0'
        invariant
            start <= b <= n == v@.len(),
            frac == v@.subrange(start as int, n as int),
            without_trailing_zeros(frac) == without_trailing_zeros(v@.subrange(start as int, b as int)),
        decreases b - start,
    {
        assert(v@.subrange(start as int, b as int).drop_last() =~= v@.subrange(start as int, b - 1));
        b = b - 1;
    }
    assert(without_trailing_zeros(v@.subrange(start as int, b as int)) == v@.subrange(start as int, b as int));
    let ghost before = out@;
    if a == d {
        push_char(out, '0');
    } else {
        let w = string_of_range(&v, a, d);
        push_str(out, w.as_str());
    }
    push_char(out, '.');
    if b == start {
        push_char(out, '0');
    } else {
        let f = string_of_range(&v, start, b);
        push_str(out, f.as_str());
    }
    proof {
        if d >= n {
            assert(frac =~= Seq::<char>::empty());
        }
    }
    assert(final(out)@ =~= old(out)@ + float_text(s@));
}

// ---------------------------------------------------------------------------
// Token kinds
// ---------------------------------------------------------------------------

/// The name of a type kind's variant.
pub open spec fn type_kind_variant(k: TypeKind) -> Seq<char> {
    match k {
        TypeKind::Int => "Int"@,
        TypeKind::Float => "Float"@,
        TypeKind::Str => "Str"@,
        TypeKind::Vect => "Vect"@,
        TypeKind::Lib => "Lib"@,
        TypeKind::Bool => "Bool"@,
        TypeKind::Void => "Void"@,
        TypeKind::Ref => "Ref"@,
        TypeKind::ArrayT => "ArrayT"@,
        TypeKind::BufferT => "BufferT"@,
        TypeKind::MonoT => "MonoT"@,
        TypeKind::FuncInht => "FuncInht"@,
        TypeKind::StrctT => "StrctT"@,
        TypeKind::Srel => "Srel"@,
        TypeKind::srel => "srel"@,
        TypeKind::Sprd => "Sprd"@,
    }
}

fn type_kind_variant_str(k: TypeKind) -> (s: &'static str)
    ensures
        s@ == type_kind_variant(k),
{
    match k {
        TypeKind::Int => "Int",
        TypeKind::Float => "Float",
        TypeKind::Str => "Str",
        TypeKind::Vect => "Vect",
        TypeKind::Lib => "Lib",
        TypeKind::Bool => "Bool",
        TypeKind::Void => "Void",
        TypeKind::Ref => "Ref",
        TypeKind::ArrayT => "ArrayT",
        TypeKind::BufferT => "BufferT",
        TypeKind::MonoT => "MonoT",
        TypeKind::FuncInht => "FuncInht",
        TypeKind::StrctT => "StrctT",
        TypeKind::Srel => "Srel",
        TypeKind::srel => "srel",
        TypeKind::Sprd => "Sprd",
    }
}

/// The name of a payload-free token kind's variant.
pub open spec fn plain_variant(t: Tok) -> Seq<char> {
    match t {
        Tok::TypeL => "TypeL"@,
        Tok::TypeM => "TypeM"@,
        Tok::Void => "Void"@,
        Tok::Mehen => "Mehen"@,
        Tok::Return => "Return"@,
        Tok::Urso => "Urso"@,
        Tok::Mod => "Mod"@,
        Tok::elsnt => "elsnt"@,
        Tok::ifnt => "ifnt"@,
        Tok::As => "As"@,
        Tok::Valt => "Valt"@,
        Tok::Func => "Func"@,
        Tok::Strct => "Strct"@,
        Tok::Priv => "Priv"@,
        Tok::Pub => "Pub"@,
        Tok::Impl => "Impl"@,
        Tok::Semi => "Semi"@,
        Tok::Star => "Star"@,
        Tok::Clam => "Clam"@,
        Tok::And => "And"@,
        Tok::Colon => "Colon"@,
        Tok::Minus => "Minus"@,
        Tok::Plus => "Plus"@,
        Tok::Div => "Div"@,
        Tok::Perc => "Perc"@,
        Tok::Lt => "Lt"@,
        Tok::Gt => "Gt"@,
        Tok::Equal => "Equal"@,
        Tok::DEqual => "DEqual"@,
        Tok::LParen => "LParen"@,
        Tok::RParen => "RParen"@,
        Tok::LBrace => "LBrace"@,
        Tok::RBrace => "RBrace"@,
        Tok::LBracket => "LBracket"@,
        Tok::RBracket => "RBracket"@,
        Tok::Comma => "Comma"@,
        Tok::Dot => "Dot"@,
        _ => "EOF"@,
    }
}

/// How a token kind is shown: the name of its variant, and its payload in
/// brackets where it has one (texts quoted and escaped, numbers in decimal,
/// floating-point literals as `float_text` writes them, type kinds by the
/// name of their variant).
pub open spec fn kind_text_spec(t: Tok) -> Seq<char> {
    match t {
        Tok::Identifier(s) => "Identifier("@ + quoted(s) + ")"@,
        Tok::TyKd(k) => "TyKd("@ + type_kind_variant(k) + ")"@,
        Tok::Number(n) => "Number("@ + signed_decimal(n as int) + ")"@,
        Tok::Float(s) => "Float("@ + float_text(s) + ")"@,
        Tok::Text(s) => "String("@ + quoted(s) + ")"@,
        Tok::Bool(b) => "Bool("@ + (if b { "true"@ } else { "false"@ }) + ")"@,
        _ => plain_variant(t),
    }
}

fn plain_variant_str(k: &TokenKind) -> (s: &'static str)
    ensures
        s@ == plain_variant(k@),
{
    match k {
        TokenKind::TypeL => "TypeL",
        TokenKind::TypeM => "TypeM",
        TokenKind::Void => "Void",
        TokenKind::Mehen => "Mehen",
        TokenKind::Return => "Return",
        TokenKind::Urso => "Urso",
        TokenKind::Mod => "Mod",
        TokenKind::elsnt => "elsnt",
        TokenKind::ifnt => "ifnt",
        TokenKind::As => "As",
        TokenKind::Valt => "Valt",
        TokenKind::Func => "Func",
        TokenKind::Strct => "Strct",
        TokenKind::Priv => "Priv",
        TokenKind::Pub => "Pub",
        TokenKind::Impl => "Impl",
        TokenKind::Semi => "Semi",
        TokenKind::Star => "Star",
        TokenKind::Clam => "Clam",
        TokenKind::And => "And",
        TokenKind::Colon => "Colon",
        TokenKind::Minus => "Minus",
        TokenKind::Plus => "Plus",
        TokenKind::Div => "Div",
        TokenKind::Perc => "Perc",
        TokenKind::Lt => "Lt",
        TokenKind::Gt => "Gt",
        TokenKind::Equal => "Equal",
        TokenKind::DEqual => "DEqual",
        TokenKind::LParen => "LParen",
        TokenKind::RParen => "RParen",
        TokenKind::LBrace => "LBrace",
        TokenKind::RBrace => "RBrace",
        TokenKind::LBracket => "LBracket",
        TokenKind::RBracket => "RBracket",
        TokenKind::Comma => "Comma",
        TokenKind::Dot => "Dot",
        _ => "EOF",
    }
}

/// How a token kind is shown in messages (see `kind_text_spec`).
pub fn kind_text(k: &TokenKind) -> (s: String)
    ensures
        s@ == kind_text_spec(k@),
{
    match k {
        TokenKind::Identifier(x) => {
            let mut s = owned("Identifier(");
            push_quoted(&mut s, x.as_str());
            push_str(&mut s, ")");
            s
        },
        TokenKind::TyKd(t) => {
            let mut s = owned("TyKd(");
            push_str(&mut s, type_kind_variant_str(*t));
            push_str(&mut s, ")");
            s
        },
        TokenKind::Number(n) => {
            let mut s = owned("Number(");
            let d = i64_to_string(*n);
            push_str(&mut s, d.as_str());
            push_str(&mut s, ")");
            s
        },
        TokenKind::Float(x) => {
            let mut s = owned("Float(");
            push_float_text(&mut s, x.as_str());
            push_str(&mut s, ")");
            s
        },
        TokenKind::String(x) => {
            let mut s = owned("String(");
            push_quoted(&mut s, x.as_str());
            push_str(&mut s, ")");
            s
        },
        TokenKind::Bool(b) => {
            let mut s = owned("Bool(");
            if *b { push_str(&mut s, "true"); } else { push_str(&mut s, "false"); }
            push_str(&mut s, ")");
            s
        },
        _ => owned(plain_variant_str(k)),
    }
}

} // verus!
