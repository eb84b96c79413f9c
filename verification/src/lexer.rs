//! The lexer: turns Onfex source text into tokens, one at a time.
use vstd::prelude::*;
use crate::ast::{kind_named, TypeKind};
use crate::error::OnfexError;
use crate::text::{
    is_alphanumeric, is_ascii_digit, is_ascii_letter, is_numeric, is_whitespace, push_char,
    push_str, string_of_range, unicode_alphanumeric, unicode_numeric, unicode_whitespace,
};
use crate::token::{Tok, Token, TokenKind};

verus! {

broadcast use vstd::string::group_string_axioms;

// ---------------------------------------------------------------------------
// Specification of lexing
// ---------------------------------------------------------------------------

/// The first position at or after `p` that holds neither white space nor a
/// comment: a comment runs from a `#` to the next `#` (or to the end of the
/// text).
pub open spec fn ws_end(s: Seq<char>, p: int) -> int
    decreases s.len() - p,
{
    if 0 <= p < s.len() && unicode_whitespace(s[p]) {
        ws_end(s, p + 1)
    } else if 0 <= p < s.len() && s[p] == '#' {
        proof { lemma_comment_end_bounds(s, p + 1); }
        ws_end(s, comment_end(s, p + 1))
    } else {
        p
    }
}

/// The position just after the `#` that closes a comment whose text starts at
/// `q` (the end of the text if the comment is not closed).
pub open spec fn comment_end(s: Seq<char>, q: int) -> int
    decreases s.len() - q,
{
    if 0 <= q < s.len() {
        if s[q] == '#' { q + 1 } else { comment_end(s, q + 1) }
    } else {
        q
    }
}

pub proof fn lemma_comment_end_bounds(s: Seq<char>, q: int)
    ensures
        q <= comment_end(s, q),
        0 <= q <= s.len() ==> comment_end(s, q) <= s.len(),
    decreases s.len() - q,
{
    if 0 <= q < s.len() && s[q] != '#' {
        lemma_comment_end_bounds(s, q + 1);
    }
}

/// The end of the run of digits and dots that starts at `p`.
pub open spec fn num_end(s: Seq<char>, p: int) -> int
    decreases s.len() - p,
{
    if 0 <= p < s.len() && (unicode_numeric(s[p]) || s[p] == '.') { num_end(s, p + 1) } else { p }
}

/// The position of the first `"` at or after `p` (the end of the text if none).
pub open spec fn str_end(s: Seq<char>, p: int) -> int
    decreases s.len() - p,
{
    if 0 <= p < s.len() && s[p] != '"' { str_end(s, p + 1) } else { p }
}

/// The end of the run of alphanumeric characters that starts at `p`.
pub open spec fn word_end(s: Seq<char>, p: int) -> int
    decreases s.len() - p,
{
    if 0 <= p < s.len() && unicode_alphanumeric(s[p]) { word_end(s, p + 1) } else { p }
}

/// Line and column after reading `s[from..to]`, starting at `line`/`col`: a
/// line feed starts a new line at column 1, any other character moves one
/// column on.
pub open spec fn advance_lc(s: Seq<char>, from: int, to: int, line: int, col: int) -> (int, int)
    decreases to - from,
{
    if to <= from {
        (line, col)
    } else {
        let (l, c) = advance_lc(s, from, to - 1, line, col);
        if s[to - 1] == '\n' { (l + 1, 1) } else { (l, c + 1) }
    }
}

/// Whether every character of `n` is an ASCII digit.
pub open spec fn ascii_digits(n: Seq<char>) -> bool {
    forall|i: int| 0 <= i < n.len() ==> is_ascii_digit(#[trigger] n[i])
}

/// The number that the ASCII digits `n` write in base ten.
pub open spec fn digits_value(n: Seq<char>) -> int
    decreases n.len(),
{
    if n.len() == 0 {
        0
    } else {
        digits_value(n.drop_last()) * 10 + (n.last() as int - '0' as int)
    }
}

/// The value of an integer literal: ASCII digits whose value fits in `i64`
/// (what `str::parse::<i64>` accepts from a text that starts with a digit).
pub open spec fn int_literal(n: Seq<char>) -> Option<i64> {
    if n.len() > 0 && ascii_digits(n) && digits_value(n) <= i64::MAX {
        Some(digits_value(n) as i64)
    } else {
        None
    }
}

/// The number of dots in `n`.
pub open spec fn dots(n: Seq<char>) -> nat
    decreases n.len(),
{
    if n.len() == 0 {
        0
    } else {
        dots(n.drop_last()) + if n.last() == '.' { 1nat } else { 0nat }
    }
}

/// Whether a run of digits and dots that starts with a digit is a valid
/// floating-point literal (what `str::parse::<f64>` accepts from such a text):
/// ASCII digits with exactly one dot.
pub open spec fn float_literal_ok(n: Seq<char>) -> bool {
    (forall|i: int| 0 <= i < n.len() ==> is_ascii_digit(#[trigger] n[i]) || n[i] == '.')
        && dots(n) == 1
}

/// The token that a word (a letter followed by alphanumerics) stands for.
pub open spec fn word_token(w: Seq<char>) -> Tok {
    if kind_named(w) is Some { Tok::TyKd(kind_named(w).unwrap()) }
    else if w == "mehen"@ { Tok::Mehen }
    else if w == "frounct"@ { Tok::Func }
    else if w == "strouct"@ { Tok::Strct }
    else if w == "urso"@ { Tok::Urso }
    else if w == "mot"@ { Tok::Mod }
    else if w == "erutnos"@ { Tok::Return }
    else if w == "ifnt"@ { Tok::ifnt }
    else if w == "prube"@ { Tok::Pub }
    else if w == "prive"@ { Tok::Priv }
    else if w == "impelnos"@ { Tok::Impl }
    else if w == "elsnt"@ { Tok::elsnt }
    else if w == "wrossnosLrib"@ { Tok::TypeL }
    else if w == "wrossnosMot"@ { Tok::TypeM }
    else if w == "valt"@ { Tok::Valt }
    else if w == "asken"@ { Tok::As }
    else if w == "trunth"@ { Tok::Bool(true) }
    else if w == "frunth"@ { Tok::Bool(false) }
    else if w == "noph"@ { Tok::Void }
    else { Tok::Identifier(w) }
}

/// The token that a single punctuation character stands for, if any
/// (`=` is handled apart, as it may start `==`).
pub open spec fn punct_token(c: char) -> Option<Tok> {
    if c == '(' { Some(Tok::LParen) }
    else if c == ')' { Some(Tok::RParen) }
    else if c == '[' { Some(Tok::LBracket) }
    else if c == ']' { Some(Tok::RBracket) }
    else if c == '{' { Some(Tok::LBrace) }
    else if c == '}' { Some(Tok::RBrace) }
    else if c == ',' { Some(Tok::Comma) }
    else if c == '.' { Some(Tok::Dot) }
    else if c == ';' { Some(Tok::Semi) }
    else if c == ':' { Some(Tok::Colon) }
    else if c == '-' { Some(Tok::Minus) }
    else if c == '+' { Some(Tok::Plus) }
    else if c == '/' { Some(Tok::Div) }
    else if c == '%' { Some(Tok::Perc) }
    else if c == '>' { Some(Tok::Gt) }
    else if c == '<' { Some(Tok::Lt) }
    else if c == '*' { Some(Tok::Star) }
    else if c == '&' { Some(Tok::And) }
    else if c == '!' { Some(Tok::Clam) }
    else { None }
}

/// Reading a token that starts at `p` (white space already skipped): the
/// token or the message of the error, and the position after what was read.
pub open spec fn lex_at(s: Seq<char>, p: int) -> (Result<Tok, Seq<char>>, int) {
    if p >= s.len() {
        (Ok(Tok::EOF), p)
    } else {
        let c = s[p];
        if punct_token(c) is Some {
            (Ok(punct_token(c).unwrap()), p + 1)
        } else if c == '=' {
            if p + 1 < s.len() && s[p + 1] == '=' { (Ok(Tok::DEqual), p + 2) } else { (Ok(Tok::Equal), p + 1) }
        } else if is_ascii_digit(c) {
            let q = num_end(s, p);
            let n = s.subrange(p, q);
            if dots(n) > 0 {
                if float_literal_ok(n) {
                    (Ok(Tok::Float(n)), q)
                } else {
                    (Err("invalid float literal '"@ + n + "'"@), q)
                }
            } else {
                match int_literal(n) {
                    Some(v) => (Ok(Tok::Number(v)), q),
                    None => (Err("invalid integer literal '"@ + n + "'"@), q),
                }
            }
        } else if c == '"' {
            let q = str_end(s, p + 1);
            if q >= s.len() {
                (Err("unterminated string"@), q)
            } else {
                (Ok(Tok::Text(s.subrange(p + 1, q))), q + 1)
            }
        } else if is_ascii_letter(c) {
            let q = word_end(s, p);
            (Ok(word_token(s.subrange(p, q))), q)
        } else {
            (Err("invalid character '"@ + seq![c] + "'"@), p)
        }
    }
}

/// Reading the token at `p` would index past the end: a `=` that is the last
/// character of the source.
pub open spec fn lex_faults_at(s: Seq<char>, p: int) -> bool {
    p == s.len() - 1 && s[p] == '='
}


/// Reading `s[a..c]` is reading `s[a..b]` and then `s[b..c]`.
pub proof fn lemma_advance_compose(s: Seq<char>, a: int, b: int, c: int, line: int, col: int)
    requires
        a <= b <= c,
    ensures
        advance_lc(s, a, c, line, col) == ({
            let (l, k) = advance_lc(s, a, b, line, col);
            advance_lc(s, b, c, l, k)
        }),
    decreases c - b,
{
    if c > b {
        lemma_advance_compose(s, a, b, c - 1, line, col);
    }
}

/// A longer run of ASCII digits writes a number at least as large.
pub proof fn lemma_digits_grow(n: Seq<char>, i: int, j: int)
    requires
        0 <= i <= j <= n.len(),
        ascii_digits(n.subrange(0, j)),
    ensures
        digits_value(n.subrange(0, i)) <= digits_value(n.subrange(0, j)),
        0 <= digits_value(n.subrange(0, i)),
    decreases j - i,
{
    if j > i {
        lemma_digits_grow(n, i, j - 1);
        assert(n.subrange(0, j).drop_last() == n.subrange(0, j - 1));
        assert(ascii_digits(n.subrange(0, j - 1))) by {
            assert forall|k: int| 0 <= k < j - 1 implies is_ascii_digit(#[trigger] n.subrange(0, j - 1)[k]) by {
                assert(n.subrange(0, j - 1)[k] == n.subrange(0, j)[k]);
            }
        }
        lemma_digits_grow(n, j - 1, j - 1);
        assert(is_ascii_digit(n.subrange(0, j)[j - 1]));
    } else {
        lemma_digits_nonneg(n.subrange(0, i));
    }
}

/// ASCII digits write a number that is not negative.
pub proof fn lemma_digits_nonneg(n: Seq<char>)
    requires
        ascii_digits(n),
    ensures
        0 <= digits_value(n),
    decreases n.len(),
{
    if n.len() > 0 {
        assert(ascii_digits(n.drop_last())) by {
            assert forall|k: int| 0 <= k < n.len() - 1 implies is_ascii_digit(#[trigger] n.drop_last()[k]) by {
                assert(n.drop_last()[k] == n[k]);
            }
        }
        lemma_digits_nonneg(n.drop_last());
        assert(is_ascii_digit(n[n.len() - 1]));
    }
}


/// The value of the integer literal `v[from..to]` (see `int_literal`).
fn parse_int_literal(v: &Vec<char>, from: usize, to: usize) -> (r: Option<i64>)
    requires
        from <= to <= v@.len(),
    ensures
        r == int_literal(v@.subrange(from as int, to as int)),
{
    let ghost n = v@.subrange(from as int, to as int);
    if from == to {
        return None;
    }
    let mut acc: i64 = 0;
    let mut overflow = false;
    let mut i = from;
    while i < to
        invariant
            from <= i <= to <= v@.len(),
            n == v@.subrange(from as int, to as int),
            ascii_digits(n.subrange(0, i - from)),
            !overflow ==> acc as int == digits_value(n.subrange(0, i - from)),
            overflow ==> digits_value(n.subrange(0, i - from)) > i64::MAX,
            0 <= acc,
        decreases to - i,
    {
        let c = v[i];
        if !('0' <= c && c <= '9') {
            assert(n[i - from] == c);
            assert(!ascii_digits(n));
            return None;
        }
        proof {
            assert(n.subrange(0, i + 1 - from).drop_last() == n.subrange(0, i - from));
            assert(n.subrange(0, i + 1 - from)[i - from] == c);
            assert(ascii_digits(n.subrange(0, i + 1 - from))) by {
                assert forall|k: int| 0 <= k < i + 1 - from implies is_ascii_digit(#[trigger] n.subrange(0, i + 1 - from)[k]) by {
                    if k < i - from {
                        assert(n.subrange(0, i + 1 - from)[k] == n.subrange(0, i - from)[k]);
                    }
                }
            }
            lemma_digits_nonneg(n.subrange(0, i - from));
        }
        let d: i64 = (c as u32 - '0' as u32) as i64;
        if !overflow {
            if acc > (i64::MAX - d) / 10 {
                overflow = true;
            } else {
                acc = acc * 10 + d;
            }
        }
        i = i + 1;
    }
    assert(n.subrange(0, to - from) == n);
    if overflow {
        None
    } else {
        Some(acc)
    }
}

/// Whether `v[from..to]` is a valid floating-point literal (see
/// `float_literal_ok`).
fn check_float_literal(v: &Vec<char>, from: usize, to: usize) -> (r: bool)
    requires
        from <= to <= v@.len(),
    ensures
        r == float_literal_ok(v@.subrange(from as int, to as int)),
{
    let ghost n = v@.subrange(from as int, to as int);
    let mut count: usize = 0;
    let mut i = from;
    while i < to
        invariant
            from <= i <= to <= v@.len(),
            n == v@.subrange(from as int, to as int),
            forall|k: int| 0 <= k < i - from ==> is_ascii_digit(#[trigger] n[k]) || n[k] == '.',
            count as nat == dots(n.subrange(0, i - from)),
            count <= i - from,
        decreases to - i,
    {
        let c = v[i];
        assert(n[i - from] == c);
        if !(('0' <= c && c <= '9') || c == '.') {
            return false;
        }
        assert(n.subrange(0, i + 1 - from).drop_last() == n.subrange(0, i - from));
        if c == '.' {
            count = count + 1;
        }
        i = i + 1;
    }
    assert(n.subrange(0, to - from) == n);
    count == 1
}

/// The token kind that the word `w` stands for (see `word_token`).
fn word_kind(w: String) -> (k: TokenKind)
    ensures
        k@ == word_token(w@),
{
    match TypeKind::from_string(w.as_str()) {
        Some(t) => { return TokenKind::TyKd(t); },
        None => {},
    }
    let ws = w.as_str();
    if crate::text::str_eq(ws, "mehen") { TokenKind::Mehen }
    else if crate::text::str_eq(ws, "frounct") { TokenKind::Func }
    else if crate::text::str_eq(ws, "strouct") { TokenKind::Strct }
    else if crate::text::str_eq(ws, "urso") { TokenKind::Urso }
    else if crate::text::str_eq(ws, "mot") { TokenKind::Mod }
    else if crate::text::str_eq(ws, "erutnos") { TokenKind::Return }
    else if crate::text::str_eq(ws, "ifnt") { TokenKind::ifnt }
    else if crate::text::str_eq(ws, "prube") { TokenKind::Pub }
    else if crate::text::str_eq(ws, "prive") { TokenKind::Priv }
    else if crate::text::str_eq(ws, "impelnos") { TokenKind::Impl }
    else if crate::text::str_eq(ws, "elsnt") { TokenKind::elsnt }
    else if crate::text::str_eq(ws, "wrossnosLrib") { TokenKind::TypeL }
    else if crate::text::str_eq(ws, "wrossnosMot") { TokenKind::TypeM }
    else if crate::text::str_eq(ws, "valt") { TokenKind::Valt }
    else if crate::text::str_eq(ws, "asken") { TokenKind::As }
    else if crate::text::str_eq(ws, "trunth") { TokenKind::Bool(true) }
    else if crate::text::str_eq(ws, "frunth") { TokenKind::Bool(false) }
    else if crate::text::str_eq(ws, "noph") { TokenKind::Void }
    else { TokenKind::Identifier(w) }
}

/// The token kind of a single punctuation character (see `punct_token`).
fn punct_kind(c: char) -> (k: Option<TokenKind>)
    ensures
        match k {
            Some(t) => punct_token(c) == Some(t@),
            None => punct_token(c) is None,
        },
{
    match c {
        '(' => Some(TokenKind::LParen),
        ')' => Some(TokenKind::RParen),
        '[' => Some(TokenKind::LBracket),
        ']' => Some(TokenKind::RBracket),
        '{' => Some(TokenKind::LBrace),
        '}' => Some(TokenKind::RBrace),
        ',' => Some(TokenKind::Comma),
        '.' => Some(TokenKind::Dot),
        ';' => Some(TokenKind::Semi),
        ':' => Some(TokenKind::Colon),
        '-' => Some(TokenKind::Minus),
        '+' => Some(TokenKind::Plus),
        '/' => Some(TokenKind::Div),
        '%' => Some(TokenKind::Perc),
        '>' => Some(TokenKind::Gt),
        '<' => Some(TokenKind::Lt),
        '*' => Some(TokenKind::Star),
        '&' => Some(TokenKind::And),
        '!' => Some(TokenKind::Clam),
        _ => None,
    }
}

// ---------------------------------------------------------------------------
// The lexer
// ---------------------------------------------------------------------------

/// The lexer: the characters of the source and the position of the next one
/// to read, with its line and column.
pub struct Lexer {
    chars: Vec<char>,
    pos: usize,
    line: usize,
    col: usize,
}

impl Lexer {
    /// The characters of the source.
    pub closed spec fn source(&self) -> Seq<char> {
        self.chars@
    }

    /// The position of the next character to read.
    pub closed spec fn position(&self) -> int {
        self.pos as int
    }

    /// The line of the next character to read.
    pub closed spec fn line_at(&self) -> int {
        self.line as int
    }

    /// The column of the next character to read.
    pub closed spec fn col_at(&self) -> int {
        self.col as int
    }

    /// The state is consistent: the position is within the source, and line
    /// and column are at least 1 and at most one past the position.
    pub closed spec fn wf(&self) -> bool {
        &&& self.chars@.len() < usize::MAX
        &&& self.pos <= self.chars@.len()
        &&& 1 <= self.line <= self.pos + 1
        &&& 1 <= self.col <= self.pos + 1
    }

    /// The position of a consistent lexer lies within its source.
    pub proof fn lemma_position_in_source(&self)
        requires
            self.wf(),
        ensures
            0 <= self.position() <= self.source().len(),
    {
    }

    /// Whether reading the next token would index past the end of the source.
    pub open spec fn faults(&self) -> bool {
        lex_faults_at(self.source(), ws_end(self.source(), self.position()))
    }

    /// A lexer at the start of `code`.
    pub fn new(code: String) -> (r: Self)
        requires
            code@.len() < usize::MAX,
        ensures
            r.wf(),
            r.source() == code@,
            r.position() == 0,
            r.line_at() == 1,
            r.col_at() == 1,
    {
        Lexer { chars: crate::text::chars_of(code.as_str()), pos: 0, line: 1, col: 1 }
    }

    fn advance(&mut self)
        requires
            old(self).wf(),
        ensures
            final(self).wf(),
            final(self).chars@ == old(self).chars@,
            old(self).pos < old(self).chars@.len() ==> final(self).pos == old(self).pos + 1,
            old(self).pos >= old(self).chars@.len() ==> final(self).pos == old(self).pos,
            (final(self).line as int, final(self).col as int) == advance_lc(
                old(self).chars@,
                old(self).pos as int,
                final(self).pos as int,
                old(self).line as int,
                old(self).col as int,
            ),
    {
        if self.pos < self.chars.len() {
            if self.chars[self.pos] == '\n' {
                self.line = self.line + 1;
                self.col = 1;
            } else {
                self.col = self.col + 1;
            }
            self.pos = self.pos + 1;
            assert(advance_lc(old(self).chars@, old(self).pos as int, old(self).pos as int, old(self).line as int, old(self).col as int) == (old(self).line as int, old(self).col as int));
        }
    }

    /// Moves one character on, keeping line and column in step.
    fn step_keeps(&mut self)
        requires
            old(self).wf(),
            old(self).pos < old(self).chars@.len(),
        ensures
            final(self).wf(),
            final(self).chars@ == old(self).chars@,
            final(self).pos == old(self).pos + 1,
            (final(self).line as int, final(self).col as int) == ({
                let (l, c) = (old(self).line as int, old(self).col as int);
                if old(self).chars@[old(self).pos as int] == '\n' { (l + 1, 1int) } else { (l, c + 1) }
            }),
    {
        self.advance();
        assert(advance_lc(old(self).chars@, old(self).pos as int, old(self).pos as int, old(self).line as int, old(self).col as int) == (old(self).line as int, old(self).col as int));
    }

    fn skip(&mut self)
        requires
            old(self).wf(),
        ensures
            final(self).wf(),
            final(self).chars@ == old(self).chars@,
            final(self).pos as int == ws_end(old(self).chars@, old(self).pos as int),
            old(self).pos <= final(self).pos,
            (final(self).line as int, final(self).col as int) == advance_lc(
                old(self).chars@,
                old(self).pos as int,
                final(self).pos as int,
                old(self).line as int,
                old(self).col as int,
            ),
    {
        let ghost s = self.chars@;
        let ghost p0 = self.pos as int;
        let ghost l0 = self.line as int;
        let ghost c0 = self.col as int;
        while self.pos < self.chars.len() && (is_whitespace(self.chars[self.pos]) || self.chars[self.pos] == '#')
            invariant
                self.wf(),
                self.chars@ == s,
                p0 <= self.pos,
                ws_end(s, p0) == ws_end(s, self.pos as int),
                (self.line as int, self.col as int) == advance_lc(s, p0, self.pos as int, l0, c0),
            decreases s.len() - self.pos,
        {
            if self.chars[self.pos] == '#' {
                let ghost h = self.pos as int;
                proof { assert(!unicode_whitespace('#')); }
                self.step_keeps();
                while self.pos < self.chars.len() && self.chars[self.pos] != '#'
                    invariant
                        self.wf(),
                        self.chars@ == s,
                        p0 <= h < self.pos <= s.len(),
                        ws_end(s, p0) == ws_end(s, h),
                        s[h] == '#',
                        comment_end(s, h + 1) == comment_end(s, self.pos as int),
                        (self.line as int, self.col as int) == advance_lc(s, p0, self.pos as int, l0, c0),
                    decreases s.len() - self.pos,
                {
                    self.step_keeps();
                }
                if self.pos < self.chars.len() {
                    self.step_keeps();
                }
                assert(comment_end(s, h + 1) == self.pos as int);
            } else {
                self.step_keeps();
            }
        }
    }

    fn read_number(&mut self) -> (float: bool)
        requires
            old(self).wf(),
        ensures
            final(self).wf(),
            final(self).chars@ == old(self).chars@,
            final(self).pos as int == num_end(old(self).chars@, old(self).pos as int),
            old(self).pos <= final(self).pos,
            (final(self).line as int, final(self).col as int) == advance_lc(
                old(self).chars@,
                old(self).pos as int,
                final(self).pos as int,
                old(self).line as int,
                old(self).col as int,
            ),
            float == (dots(old(self).chars@.subrange(old(self).pos as int, final(self).pos as int)) > 0),
            old(self).pos < old(self).chars@.len() && is_ascii_digit(old(self).chars@[old(self).pos as int])
                ==> final(self).pos > old(self).pos,
    {
        let ghost s = self.chars@;
        let ghost p0 = self.pos as int;
        let ghost l0 = self.line as int;
        let ghost c0 = self.col as int;
        let mut float = false;
        while self.pos < self.chars.len() && (is_numeric(self.chars[self.pos]) || self.chars[self.pos] == '.')
            invariant
                self.wf(),
                self.chars@ == s,
                p0 <= self.pos,
                num_end(s, p0) == num_end(s, self.pos as int),
                0 <= p0,
                (self.line as int, self.col as int) == advance_lc(s, p0, self.pos as int, l0, c0),
                float == (dots(s.subrange(p0, self.pos as int)) > 0),
            decreases s.len() - self.pos,
        {
            assert(s.subrange(p0, self.pos + 1).drop_last() =~= s.subrange(p0, self.pos as int));
            if self.chars[self.pos] == '.' {
                float = true;
            }
            self.step_keeps();
        }
        float
    }

    fn read_word(&mut self)
        requires
            old(self).wf(),
        ensures
            final(self).wf(),
            final(self).chars@ == old(self).chars@,
            final(self).pos as int == word_end(old(self).chars@, old(self).pos as int),
            old(self).pos <= final(self).pos,
            old(self).pos < old(self).chars@.len() && is_ascii_letter(old(self).chars@[old(self).pos as int])
                ==> final(self).pos > old(self).pos,
            (final(self).line as int, final(self).col as int) == advance_lc(
                old(self).chars@,
                old(self).pos as int,
                final(self).pos as int,
                old(self).line as int,
                old(self).col as int,
            ),
    {
        let ghost s = self.chars@;
        let ghost p0 = self.pos as int;
        let ghost l0 = self.line as int;
        let ghost c0 = self.col as int;
        while self.pos < self.chars.len() && is_alphanumeric(self.chars[self.pos])
            invariant
                self.wf(),
                self.chars@ == s,
                p0 <= self.pos,
                word_end(s, p0) == word_end(s, self.pos as int),
                (self.line as int, self.col as int) == advance_lc(s, p0, self.pos as int, l0, c0),
            decreases s.len() - self.pos,
        {
            self.step_keeps();
        }
    }

    fn read_text(&mut self)
        requires
            old(self).wf(),
        ensures
            final(self).wf(),
            final(self).chars@ == old(self).chars@,
            final(self).pos as int == str_end(old(self).chars@, old(self).pos as int),
            old(self).pos <= final(self).pos,
            (final(self).line as int, final(self).col as int) == advance_lc(
                old(self).chars@,
                old(self).pos as int,
                final(self).pos as int,
                old(self).line as int,
                old(self).col as int,
            ),
    {
        let ghost s = self.chars@;
        let ghost p0 = self.pos as int;
        let ghost l0 = self.line as int;
        let ghost c0 = self.col as int;
        while self.pos < self.chars.len() && self.chars[self.pos] != '"'
            invariant
                self.wf(),
                self.chars@ == s,
                p0 <= self.pos,
                str_end(s, p0) == str_end(s, self.pos as int),
                (self.line as int, self.col as int) == advance_lc(s, p0, self.pos as int, l0, c0),
            decreases s.len() - self.pos,
        {
            self.step_keeps();
        }
    }

    /// Reads the next token. White space before it is skipped; at the end of
    /// the source the token is `EOF`. The token carries the line and column of
    /// its first character; an error carries the same position.
    pub fn next_token(&mut self) -> (r: Result<Token, OnfexError>)
        requires
            old(self).wf(),
            !old(self).faults(),
        ensures
            final(self).wf(),
            final(self).source() == old(self).source(),
            final(self).position() >= old(self).position(),
            r is Ok && r->Ok_0.kind@ is EOF ==> final(self).position() == old(self).source().len(),
            r is Ok && !(r->Ok_0.kind@ is EOF) ==> final(self).position() > old(self).position(),
            r is Ok && r->Ok_0.kind@ is Number ==> r->Ok_0.kind@->Number_0 >= 0,
            ({
                let s = old(self).source();
                let p = ws_end(s, old(self).position());
                let (res, end) = lex_at(s, p);
                let (tl, tc) = advance_lc(s, old(self).position(), p, old(self).line_at(), old(self).col_at());
                let (fl, fc) = advance_lc(s, old(self).position(), end, old(self).line_at(), old(self).col_at());
                &&& final(self).position() == end
                &&& final(self).line_at() == fl
                &&& final(self).col_at() == fc
                &&& match r {
                    Ok(t) => res == Ok::<Tok, Seq<char>>(t.kind@) && t.line == tl && t.col == tc,
                    Err(e) => match e {
                        OnfexError::Lexer { message, line, col } =>
                            res == Err::<Tok, Seq<char>>(message@) && line == tl && col == tc,
                        _ => false,
                    },
                }
            }),
    {
        let ghost s = self.chars@;
        let ghost p0 = self.pos as int;
        let ghost l0 = self.line as int;
        let ghost c0 = self.col as int;
        self.skip();
        let line = self.line;
        let col = self.col;
        let ghost p = self.pos as int;
        if self.pos >= self.chars.len() {
            return Ok(Token { kind: TokenKind::EOF, line, col });
        }
        let ch = self.chars[self.pos];
        match punct_kind(ch) {
            Some(kind) => {
                self.advance();
                proof { lemma_advance_compose(s, p0, p, p + 1, l0, c0); }
                return Ok(Token { kind, line, col });
            },
            None => {},
        }
        if ch == '=' {
            self.advance();
            proof { lemma_advance_compose(s, p0, p, p + 1, l0, c0); }
            let chk = self.chars[self.pos];
            if chk == '=' {
                self.advance();
                proof { lemma_advance_compose(s, p0, p + 1, p + 2, l0, c0); }
                return Ok(Token { kind: TokenKind::DEqual, line, col });
            } else {
                return Ok(Token { kind: TokenKind::Equal, line, col });
            }
        }
        if '0' <= ch && ch <= '9' {
            let start = self.pos;
            let float = self.read_number();
            proof { lemma_advance_compose(s, p0, p, self.pos as int, l0, c0); }
            let n = string_of_range(&self.chars, start, self.pos);
            if float {
                if check_float_literal(&self.chars, start, self.pos) {
                    return Ok(Token { kind: TokenKind::Float(n), line, col });
                } else {
                    let mut m = String::new();
                    push_str(&mut m, "invalid float literal '");
                    push_str(&mut m, n.as_str());
                    push_str(&mut m, "'");
                    return Err(OnfexError::lexer(m, line, col));
                }
            } else {
                match parse_int_literal(&self.chars, start, self.pos) {
                    Some(v) => {
                        proof { lemma_digits_nonneg(s.subrange(start as int, self.pos as int)); }
                        return Ok(Token { kind: TokenKind::Number(v), line, col });
                    },
                    None => {
                        let mut m = String::new();
                        push_str(&mut m, "invalid integer literal '");
                        push_str(&mut m, n.as_str());
                        push_str(&mut m, "'");
                        return Err(OnfexError::lexer(m, line, col));
                    },
                }
            }
        }
        if ch == '"' {
            self.advance();
            let start = self.pos;
            self.read_text();
            proof {
                lemma_advance_compose(s, p0, p, p + 1, l0, c0);
                lemma_advance_compose(s, p0, p + 1, self.pos as int, l0, c0);
            }
            if self.pos >= self.chars.len() {
                return Err(OnfexError::lexer(crate::text::owned("unterminated string"), line, col));
            }
            let text = string_of_range(&self.chars, start, self.pos);
            let ghost q = self.pos as int;
            self.advance();
            proof { lemma_advance_compose(s, p0, q, q + 1, l0, c0); }
            return Ok(Token { kind: TokenKind::String(text), line, col });
        }
        if ('a' <= ch && ch <= 'z') || ('A' <= ch && ch <= 'Z') {
            let start = self.pos;
            self.read_word();
            proof { lemma_advance_compose(s, p0, p, self.pos as int, l0, c0); }
            let w = string_of_range(&self.chars, start, self.pos);
            return Ok(Token { kind: word_kind(w), line, col });
        }
        let mut m = String::new();
        push_str(&mut m, "invalid character '");
        push_char(&mut m, ch);
        push_str(&mut m, "'");
        assert(m@ =~= "invalid character '"@ + seq![ch] + "'"@);
        Err(OnfexError::lexer(m, line, col))
    }
}

} // verus!
