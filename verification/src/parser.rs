//! The parser: builds the syntax tree of an Onfex program from its tokens,
//! by recursive descent with one token of look-ahead.
use vstd::prelude::*;
use crate::ast::{Expr, ExprNode, Field, Param, Stmt, StmtNode, TypeKind};
use crate::error::OnfexError;
use crate::lexer::{lex_at, ws_end, Lexer};
use crate::text::{owned, push_str};
use crate::token::{tag, tok_tag, Tok, Token, TokenKind};
use crate::token_text::{kind_text, kind_text_spec};
use crate::values::{in_i64, int_outcome, IntOutcome, Value};

verus! {

broadcast use vstd::string::group_string_axioms;

/// A source the lexer can read to the end without indexing past it: it does
/// not end with `=` (a `=` looks at the character after it).
pub open spec fn source_ok(s: Seq<char>) -> bool {
    !(s.len() > 0 && s.last() == '=')
}

/// An error of the lexer or of the parser.
/// The message of a parse error: what was expected, then how the token that
/// stood there is shown.
pub open spec fn expected_message(expected: Seq<char>, found: Tok) -> Seq<char> {
    expected + " esp wraithnosan, "@ + kind_text_spec(found) + " gephnosan"@
}

pub open spec fn syntax_error(e: OnfexError) -> bool {
    e is Lexer || e is Parser
}

/// The token `n` places after the one that starts at or after `p` (after
/// white space and comments), if the lexer reads every token up to it.
pub open spec fn lex_nth(s: Seq<char>, p: int, n: nat) -> Option<Tok>
    decreases n,
{
    match lex_at(s, ws_end(s, p)).0 {
        Ok(t) => if n == 0 { Some(t) } else { lex_nth(s, lex_at(s, ws_end(s, p)).1, (n - 1) as nat) },
        Err(_) => None,
    }
}

/// The tokens that make an expression on their own: a literal or a name.
pub open spec fn single_token(t: Tok) -> bool {
    t is Number || t is Float || t is Text || t is Bool || t is Void || t is Identifier
}

/// The tokens after which such a token is a whole expression: not a call,
/// member read, `::`, `!`, `->` or binary operator.
pub open spec fn ends_expression(t: Tok) -> bool {
    !(t is LParen || t is Dot || t is Colon || t is Clam || t is Minus || t is Plus || t is Div || t is Star
        || t is Gt || t is Lt || t is DEqual)
}

/// Whether `e` is the expression that the single token `t` makes.
pub open spec fn expr_of_token(e: Expr, t: Tok) -> bool {
    match t {
        Tok::Number(x) => e == Expr::Int(x),
        Tok::Float(x) => e matches Expr::Float(y) && y@ == x,
        Tok::Text(x) => e matches Expr::Str(y) && y@ == x,
        Tok::Bool(b) => e == Expr::Bool(b),
        Tok::Void => e == Expr::Void,
        Tok::Identifier(x) => e matches Expr::Variable(y) && y@ == x,
        _ => false,
    }
}

/// A parser: the lexer, the current token and the one after it.
pub struct Parser {
    lexer: Lexer,
    current: Token,
    next: Token,
}

impl Parser {
    /// The source being parsed.
    pub closed spec fn source(&self) -> Seq<char> {
        self.lexer.source()
    }

    /// The kind of the current token.
    pub closed spec fn current_kind(&self) -> Tok {
        self.current.kind@
    }

    /// The token `i` places from the current one: the current token, the
    /// next one, then those the lexer reads after them (`None` from the first
    /// it cannot read). After the end, `EOF` follows `EOF`.
    pub closed spec fn tok_ahead(&self, i: nat) -> Option<Tok> {
        if i == 0 {
            Some(self.current.kind@)
        } else if i == 1 {
            Some(self.next.kind@)
        } else {
            lex_nth(self.lexer.source(), self.lexer.position(), (i - 2) as nat)
        }
    }

    /// The line and column of the current token.
    pub closed spec fn current_pos(&self) -> (usize, usize) {
        (self.current.line, self.current.col)
    }

    /// The line and column of the next token.
    pub closed spec fn next_pos(&self) -> (usize, usize) {
        (self.next.line, self.next.col)
    }

    /// The kind of the next token.
    pub closed spec fn next_kind(&self) -> Tok {
        self.next.kind@
    }

    /// Whether the tokens from the current one to `k` places on can all be
    /// read.
    pub open spec fn reads(&self, k: nat) -> bool {
        forall|i: nat| i <= k ==> #[trigger] self.tok_ahead(i) is Some
    }

    /// The current and next tokens are the first two of the stream.
    pub proof fn lemma_first_two(&self)
        ensures
            self.tok_ahead(0) == Some(self.current_kind()),
            self.tok_ahead(1) == Some(self.next_kind()),
    {
    }

    /// Moving on twice is moving on by the sum.
    pub proof fn lemma_moved_then(a: Parser, b: Parser, c: Parser, k1: nat, k2: nat)
        requires
            Self::moved(a, b, k1),
            Self::moved(b, c, k2),
        ensures
            Self::moved(a, c, k1 + k2),
    {
        assert forall|i: nat| #[trigger] c.tok_ahead(i) == a.tok_ahead(i + (k1 + k2)) by {
            assert(c.tok_ahead(i) == b.tok_ahead(i + k2));
            assert(b.tok_ahead(i + k2) == a.tok_ahead(i + k2 + k1));
        }
    }

    /// After moving `k` tokens on, the tokens that could be read still can,
    /// and the current and next tokens are the ones `k` and `k + 1` places on.
    pub proof fn lemma_moved_reads(a: Parser, b: Parser, k: nat, j: nat)
        requires
            Self::moved(a, b, k),
            a.reads(j + k),
            j >= 1,
        ensures
            b.reads(j),
            a.tok_ahead(k) == Some(b.current_kind()),
            a.tok_ahead(k + 1) == Some(b.next_kind()),
    {
        assert(b.tok_ahead(0) == a.tok_ahead(k));
        assert(b.tok_ahead(1) == a.tok_ahead(1 + k));
        assert forall|i: nat| i <= j implies #[trigger] b.tok_ahead(i) is Some by {
            assert(b.tok_ahead(i) == a.tok_ahead(i + k));
        }
    }

    /// `name = e;` starts `at` places on, with `e` a single token.
    pub open spec fn simple_assign_at(&self, at: nat) -> bool {
        &&& self.tok_ahead(at) matches Some(Tok::Identifier(_))
        &&& self.tok_ahead(at + 1) == Some(Tok::Equal)
        &&& self.tok_ahead(at + 2) matches Some(t) && single_token(t)
        &&& self.tok_ahead(at + 3) == Some(Tok::Semi)
        &&& self.reads(at + 5)
    }

    /// Whether `s` is the assignment of the single-token expression `at + 2`
    /// places on to the name `at` places on.
    pub open spec fn assigns_token_at(&self, at: nat, name: String, node: ExprNode) -> bool {
        &&& self.tok_ahead(at) == Some(Tok::Identifier(name@))
        &&& expr_of_token(*node.expr, self.tok_ahead(at + 2)->Some_0)
    }

    /// Whether the tokens are `n` statements of one single-token expression
    /// each (`e;`), and then the end.
    pub open spec fn expr_stmts(&self, n: nat) -> bool {
        &&& forall|j: nat| j < n ==> (#[trigger] self.tok_ahead(2 * j) matches Some(t) && single_token(t))
            && self.tok_ahead(2 * j + 1) == Some(Tok::Semi)
        &&& self.tok_ahead(2 * n) == Some(Tok::EOF)
        &&& self.reads(2 * n + 1)
    }

    /// What the first statement of a program is known to be from the tokens
    /// it starts with: a keyword gives its kind of statement; `mot` and a
    /// name or text and `;` give the module statement (a bare name gets
    /// `.onfex`); a literal or name and `;` give that expression.
    pub open spec fn first_shape(&self, sn: StmtNode) -> bool {
        &&& (self.current_kind() is Mod ==> sn.stmt is Mod)
        &&& (self.current_kind() is ifnt ==> sn.stmt is IfElse)
        &&& (self.current_kind() is Func ==> sn.stmt is FuncCre)
        &&& (self.current_kind() is Valt ==> sn.stmt is Assign)
        &&& (self.current_kind() is Return ==> sn.stmt is Return)
        &&& (self.current_kind() is Urso ==> sn.stmt is Import)
        &&& ((self.current_kind() is Mod && self.tok_ahead(2) == Some(Tok::Semi) && self.reads(4)) ==> (
            (self.next_kind() matches Tok::Text(t) ==> (sn.stmt matches Stmt::Mod(n) && n@ == t))
            && (self.next_kind() matches Tok::Identifier(t) ==> (sn.stmt matches Stmt::Mod(n) && n@ == t + ".onfex"@))))
        &&& ((single_token(self.current_kind()) && self.next_kind() is Semi && self.reads(3))
            ==> (sn.stmt matches Stmt::ExprNode(e) && expr_of_token(*e.expr, self.current_kind())))
        &&& (self.simple_if_head() ==> self.if_shape(sn))
    }

    /// Whether the tokens are `m ! ( "t" )` (a macro called on one text)
    /// and a token that is not `{` and ends the expression, all readable.
    pub open spec fn text_macro_at(&self) -> bool {
        &&& self.current_kind() is Identifier
        &&& self.next_kind() is Clam
        &&& self.tok_ahead(2) == Some(Tok::LParen)
        &&& (self.tok_ahead(3) matches Some(t) && t is Text)
        &&& self.tok_ahead(4) == Some(Tok::RParen)
        &&& (self.tok_ahead(5) matches Some(t) && ends_expression(t) && !(t is LBrace))
        &&& self.reads(6)
    }

    /// The expression such tokens make: the macro called on the text.
    pub open spec fn text_macro_expr(&self, e: Expr) -> bool {
        e matches Expr::Call(c, args, ft)
            && (*c matches Expr::Macro(m) && m@ == self.current_kind()->Identifier_0)
            && args@.len() == 1 && (args@[0] matches Expr::Str(x) && x@ == self.tok_ahead(3)->Some_0->Text_0)
            && ft@.len() == 0
    }

    /// Whether the tokens are such a call followed by `;`, and two more can
    /// be read.
    pub open spec fn text_macro_stmt_at(&self) -> bool {
        &&& self.text_macro_at()
        &&& self.tok_ahead(5) == Some(Tok::Semi)
        &&& self.reads(7)
    }

    /// Whether the tokens from `k` places on are `m ! ( "t" ) ;`.
    pub open spec fn macro_tokens_at(&self, k: nat) -> bool {
        &&& (self.tok_ahead(k) matches Some(t) && t is Identifier)
        &&& self.tok_ahead(k + 1) == Some(Tok::Clam)
        &&& self.tok_ahead(k + 2) == Some(Tok::LParen)
        &&& (self.tok_ahead(k + 3) matches Some(t) && t is Text)
        &&& self.tok_ahead(k + 4) == Some(Tok::RParen)
        &&& self.tok_ahead(k + 5) == Some(Tok::Semi)
    }

    /// Whether `e` is the call those tokens make.
    pub open spec fn macro_expr_at(&self, e: Expr, k: nat) -> bool {
        e matches Expr::Call(c, args, ft)
            && (*c matches Expr::Macro(m) && m@ == self.tok_ahead(k)->Some_0->Identifier_0)
            && args@.len() == 1 && (args@[0] matches Expr::Str(x) && x@ == self.tok_ahead(k + 3)->Some_0->Text_0)
            && ft@.len() == 0
    }

    /// Whether the tokens are `n` such statements, then the end.
    pub open spec fn macro_stmts(&self, n: nat) -> bool {
        &&& forall|j: nat| j < n ==> #[trigger] self.macro_tokens_at(6 * j)
        &&& self.tok_ahead(6 * n) == Some(Tok::EOF)
        &&& self.reads(6 * n + 1)
    }

    /// Whether the tokens are `n` (at least one) literals or names separated
    /// by commas and followed by `)`, all readable with the one after them.
    pub open spec fn token_args(&self, n: nat) -> bool {
        &&& n >= 1
        &&& forall|j: nat| j < n ==> (#[trigger] self.tok_ahead(2 * j) matches Some(t) && single_token(t))
            && self.tok_ahead(2 * j + 1) == Some(if j + 1 < n { Tok::Comma } else { Tok::RParen })
        &&& self.reads(2 * n + 1)
    }

    /// Whether the tokens are `mot`, a name or a text, `;` and the end.
    pub open spec fn lone_module(&self) -> bool {
        &&& self.current_kind() is Mod
        &&& (self.next_kind() is Text || self.next_kind() is Identifier)
        &&& self.tok_ahead(2) == Some(Tok::Semi)
        &&& self.tok_ahead(3) == Some(Tok::EOF)
        &&& self.reads(4)
    }

    /// The number of such statements is determined by the tokens.
    pub proof fn lemma_expr_stmts_unique(&self, n: nat, m: nat)
        requires
            self.expr_stmts(n),
            self.expr_stmts(m),
        ensures
            n == m,
    {
        if m < n {
            assert(self.tok_ahead(2 * m) matches Some(t) && single_token(t));
        } else if n < m {
            assert(self.tok_ahead(2 * n) matches Some(t) && single_token(t));
        }
    }

    /// `new` is `old` moved `k` tokens on.
    pub open spec fn moved(old: Parser, new: Parser, k: nat) -> bool {
        &&& new.wf()
        &&& new.source() == old.source()
        &&& forall|i: nat| #[trigger] new.tok_ahead(i) == old.tok_ahead(i + k)
    }

    /// The state is consistent: the lexer is, it never reads past the end,
    /// and once the end is reached only `EOF` follows.
    pub closed spec fn wf(&self) -> bool {
        &&& self.lexer.wf()
        &&& source_ok(self.lexer.source())
        &&& (self.next.kind@ is EOF ==> self.lexer.position() == self.lexer.source().len())
        &&& (self.current.kind@ is EOF ==> self.next.kind@ is EOF)
        &&& (self.current.kind@ is Number ==> self.current.kind@->Number_0 >= 0)
        &&& (self.next.kind@ is Number ==> self.next.kind@->Number_0 >= 0)
    }

    /// How much is left to read: twice the characters left, and one for each
    /// of the two tokens held that is not `EOF`. Every token consumed makes
    /// it smaller.
    pub closed spec fn rank(&self) -> nat {
        (2 * (self.lexer.source().len() - self.lexer.position())
            + (if self.current.kind@ is EOF { 0int } else { 1int })
            + (if self.next.kind@ is EOF { 0int } else { 1int })) as nat
    }

    /// `new` is `old` after consuming at least one token.
    pub open spec fn consumed(old: Parser, new: Parser) -> bool {
        &&& new.wf()
        &&& new.source() == old.source()
        &&& new.rank() < old.rank()
    }

    /// `new` is `old` after consuming any number of tokens.
    pub open spec fn kept(old: Parser, new: Parser) -> bool {
        &&& new.wf()
        &&& new.source() == old.source()
        &&& new.rank() <= old.rank()
    }

    /// A parser over the tokens of `lexer`, with the first two read.
    pub fn new(lexer: Lexer) -> (r: Result<Self, OnfexError>)
        requires
            lexer.wf(),
            source_ok(lexer.source()),
        ensures
            r is Ok ==> r->Ok_0.wf() && r->Ok_0.source() == lexer.source(),
            r is Err ==> r->Err_0 is Lexer,
            r is Ok ==> lex_at(lexer.source(), ws_end(lexer.source(), lexer.position())).0
                == Ok::<Tok, Seq<char>>(r->Ok_0.current_kind()),
            lex_at(lexer.source(), ws_end(lexer.source(), lexer.position())).0 is Err ==> r is Err,
            lex_at(lexer.source(), ws_end(lexer.source(), lexer.position())).0 == Ok::<Tok, Seq<char>>(Tok::EOF) ==> r is Ok,
            lex_nth(lexer.source(), lexer.position(), 1) is Some ==> r is Ok,
            r matches Ok(p) ==> forall|i: nat| #[trigger] p.tok_ahead(i) == lex_nth(lexer.source(), lexer.position(), i),
    {
        let ghost src = lexer.source();
        let ghost p0 = lexer.position();
        let mut lexer = lexer;
        proof { lexer.lemma_position_in_source(); }
        let current = match lexer.next_token() {
            Ok(t) => t,
            Err(e) => { return Err(e); },
        };
        proof {
            lexer.lemma_position_in_source();
            if current.kind@ is EOF {
                assert(lexer.position() == src.len());
                assert(ws_end(src, src.len() as int) == src.len());
                assert(lex_at(src, src.len() as int).0 == Ok::<Tok, Seq<char>>(Tok::EOF));
            }
        }
        let ghost e1 = lexer.position();
        let next = match lexer.next_token() {
            Ok(t) => t,
            Err(e) => {
                assert(lex_nth(src, p0, 1) == lex_nth(src, e1, 0));
                return Err(e);
            },
        };
        let p = Parser { lexer, current, next };
        proof {
            let e2 = p.lexer.position();
            assert forall|i: nat| #[trigger] p.tok_ahead(i) == lex_nth(src, p0, i) by {
                if i == 1 {
                    assert(lex_nth(src, p0, 1) == lex_nth(src, e1, 0));
                } else if i >= 2 {
                    assert(lex_nth(src, p0, i) == lex_nth(src, e1, (i - 1) as nat));
                    assert(lex_nth(src, e1, (i - 1) as nat) == lex_nth(src, e2, (i - 2) as nat));
                }
            }
        }
        Ok(p)
    }

    /// Moves one token on (at the end, stays there).
    fn advance(&mut self) -> (r: Result<(), OnfexError>)
        requires
            old(self).wf(),
        ensures
            r is Ok ==> Self::kept(*old(self), *final(self)),
            r is Ok && !(old(self).current.kind@ is EOF) ==> Self::consumed(*old(self), *final(self)),
            r is Err ==> r->Err_0 is Lexer,
            r is Ok <==> old(self).tok_ahead(2) is Some,
            r is Ok ==> Self::moved(*old(self), *final(self), 1) && final(self).current_pos() == old(self).next_pos(),
    {
        proof { self.lexer.lemma_position_in_source(); }
        self.current = self.next.duplicate();
        match self.lexer.next_token() {
            Ok(t) => {
                self.next = t;
                proof { self.lexer.lemma_position_in_source(); }
                Ok(())
            },
            Err(e) => Err(e),
        }
    }

    /// The error for a token that is not the one expected.
    fn unexpected(&self, expected: &str) -> (e: OnfexError)
        ensures
            e is Parser,
            e matches OnfexError::Parser { message, line, col } && message@ == expected_message(expected@, self.current.kind@)
                && (line, col) == self.current_pos(),
    {
        let mut m = owned(expected);
        push_str(&mut m, " esp wraithnosan, ");
        let k = kind_text(&self.current.kind);
        push_str(&mut m, k.as_str());
        push_str(&mut m, " gephnosan");
        assert(m@ =~= expected_message(expected@, self.current.kind@));
        OnfexError::parser(m, self.current.line, self.current.col)
    }

    /// Consumes the current token if it is of the variant of `tk`; fails
    /// otherwise.
    fn expect(&mut self, tk: TokenKind) -> (r: Result<(), OnfexError>)
        requires
            old(self).wf(),
            !(tk@ is EOF),
        ensures
            r is Ok ==> tok_tag(old(self).current.kind@) == tok_tag(tk@) && Self::consumed(*old(self), *final(self)),
            r is Err ==> syntax_error(r->Err_0),
            tok_tag(old(self).current.kind@) != tok_tag(tk@) ==> r is Err && r->Err_0 is Parser,
            tok_tag(old(self).current.kind@) != tok_tag(tk@) ==> (r matches Err(OnfexError::Parser { line, col, .. })
                && (line, col) == old(self).current_pos()),
            tok_tag(old(self).current.kind@) != tok_tag(tk@) ==> (r matches Err(OnfexError::Parser { message, .. })
                && message@ == expected_message(kind_text_spec(tk@), old(self).current.kind@)),
            (tok_tag(old(self).current.kind@) == tok_tag(tk@) && old(self).tok_ahead(2) is Some)
                ==> r is Ok && Self::moved(*old(self), *final(self), 1),
    {
        if tag(&self.current.kind) != tag(&tk) {
            let mut m = kind_text(&tk);
            push_str(&mut m, " esp wraithnosan, ");
            let k = kind_text(&self.current.kind);
            push_str(&mut m, k.as_str());
            push_str(&mut m, " gephnosan");
            assert(m@ =~= expected_message(kind_text_spec(tk@), self.current.kind@));
            return Err(OnfexError::parser(m, self.current.line, self.current.col));
        }
        self.advance()
    }

    /// Consumes the current token if it is of the variant of `tk`, and
    /// otherwise goes on as if it had been there.
    fn skip_if(&mut self, tk: TokenKind) -> (r: Result<(), OnfexError>)
        requires
            old(self).wf(),
            !(tk@ is EOF),
        ensures
            r is Ok ==> Self::kept(*old(self), *final(self)),
            r is Ok && tok_tag(old(self).current.kind@) != tok_tag(tk@) ==> *final(self) == *old(self),
            r is Ok && tok_tag(old(self).current.kind@) == tok_tag(tk@) ==> Self::consumed(*old(self), *final(self)),
            r is Err ==> r->Err_0 is Lexer,
            (tok_tag(old(self).current.kind@) == tok_tag(tk@) && old(self).tok_ahead(2) is Some)
                ==> r is Ok && Self::moved(*old(self), *final(self), 1),
    {
        if tag(&self.current.kind) != tag(&tk) {
            return Ok(());
        }
        self.advance()
    }

    // -----------------------------------------------------------------
    // Expressions
    // -----------------------------------------------------------------

    /// A literal, a bracketed expression, a list or map literal, `&name`,
    /// `*e`, `!e`, a negated number, or a name (possibly `lib->name`,
    /// `mod!->name` or `macro!`, possibly called).
    #[verifier::spinoff_prover]
    #[verifier::rlimit(60)]
    fn primary(&mut self) -> (r: Result<Expr, OnfexError>)
        requires
            old(self).wf(),
        ensures
            r is Ok ==> Self::consumed(*old(self), *final(self)),
            r is Err ==> syntax_error(r->Err_0),
            r is Ok && r->Ok_0 is Int ==> r->Ok_0->Int_0 != i64::MIN,
            old(self).current_kind() matches Tok::Number(x) ==> (r is Ok ==> r->Ok_0 == Expr::Int(x)),
            old(self).current_kind() matches Tok::Bool(b) ==> (r is Ok ==> r->Ok_0 == Expr::Bool(b)),
            old(self).current_kind() is Void ==> (r is Ok ==> r->Ok_0 == Expr::Void),
            old(self).current_kind() matches Tok::Text(t) ==> (r is Ok ==> (r->Ok_0 matches Expr::Str(x) && x@ == t)),
            old(self).current_kind() matches Tok::Float(t) ==> (r is Ok ==> (r->Ok_0 matches Expr::Float(x) && x@ == t)),
            (single_token(old(self).current_kind()) && old(self).reads(2)
                && (old(self).current_kind() is Identifier ==> ends_expression(old(self).next_kind())))
                ==> (r matches Ok(e) && expr_of_token(e, old(self).current_kind()) && Self::moved(*old(self), *final(self), 1)
                    && final(self).current_pos() == old(self).next_pos()),
            old(self).text_macro_at() ==> (r matches Ok(e) && old(self).text_macro_expr(e)
                && Self::moved(*old(self), *final(self), 5)),
        decreases old(self).rank(), 1nat,
    {
        let ghost s0 = *self;
        let ghost tm = s0.text_macro_at();
        proof { self.lemma_first_two(); }
        let kind = self.current.kind.duplicate();
        match kind {
            TokenKind::Number(x) => {
                self.advance()?;
                Ok(Expr::Int(x))
            },
            TokenKind::Float(x) => {
                self.advance()?;
                Ok(Expr::Float(x))
            },
            TokenKind::String(x) => {
                self.advance()?;
                Ok(Expr::Str(x))
            },
            TokenKind::Bool(x) => {
                self.advance()?;
                Ok(Expr::Bool(x))
            },
            TokenKind::Void => {
                self.advance()?;
                Ok(Expr::Void)
            },
            TokenKind::Minus => {
                self.advance()?;
                let e = self.expr()?;
                match e {
                    Expr::Int(x) => Ok(Expr::Int(-x)),
                    Expr::Float(x) => Ok(Expr::Float(negate_literal(x))),
                    _ => Err(self.unexpected("intg ophe flotg")),
                }
            },
            TokenKind::LParen => {
                self.advance()?;
                let res = self.expr()?;
                self.expect(TokenKind::RParen)?;
                Ok(res)
            },
            TokenKind::LBracket => {
                let node = self.list_expr(owned("vektöre"))?;
                Ok(*node.expr)
            },
            TokenKind::LBrace => {
                let node = self.dict_expr(owned("mappe"))?;
                Ok(*node.expr)
            },
            TokenKind::And => {
                self.advance()?;
                let n = match &self.current.kind {
                    TokenKind::Identifier(x) => x.clone(),
                    _ => { return Err(self.unexpected("identifier after '&'")); },
                };
                self.advance()?;
                Ok(Expr::AddressOf(n))
            },
            TokenKind::Star => {
                self.advance()?;
                let inner = self.expr()?;
                Ok(Expr::Deref(Box::new(inner)))
            },
            TokenKind::Clam => {
                self.advance()?;
                let inner = self.expr()?;
                Ok(Expr::Spread(Box::new(inner)))
            },
            TokenKind::Identifier(n) => {
                self.advance()?;
                proof {
                    assert(self.tok_ahead(0) == old(self).tok_ahead(1));
                    self.lemma_first_two();
                }
                let ghost s1 = *self;
                proof { if tm { Self::lemma_moved_reads(s0, s1, 1, 5); } }
                let ex: Expr;
                if matches!(self.current.kind, TokenKind::Colon) {
                    self.advance()?;
                    self.expect(TokenKind::Colon)?;
                    if matches!(self.current.kind, TokenKind::LBracket) {
                        let _node = self.list_expr(n)?;
                    } else if matches!(self.current.kind, TokenKind::LBrace) {
                        let _node = self.dict_expr(n)?;
                    }
                    return Err(self.unexpected("'[' or '{' after '::'"));
                } else if matches!(self.current.kind, TokenKind::Clam) {
                    self.advance()?;
                    proof {
                        if tm {
                            let s2 = *self;
                            Self::lemma_moved_then(s0, s1, s2, 1, 1);
                            Self::lemma_moved_reads(s0, s2, 2, 4);
                        }
                    }
                    if !matches!(self.current.kind, TokenKind::Minus) {
                        ex = Expr::Macro(n);
                    } else {
                        self.expect(TokenKind::Minus)?;
                        self.expect(TokenKind::Gt)?;
                        let n2 = match &self.current.kind {
                            TokenKind::Identifier(x) => x.clone(),
                            _ => { return Err(self.unexpected("identifier after '->'")); },
                        };
                        self.advance()?;
                        ex = Expr::ModVariable(n, n2);
                    }
                } else if matches!(self.current.kind, TokenKind::Minus) {
                    self.advance()?;
                    self.expect(TokenKind::Gt)?;
                    let n2 = match &self.current.kind {
                        TokenKind::Identifier(x) => x.clone(),
                        _ => { return Err(self.unexpected("identifier after '->'")); },
                    };
                    self.advance()?;
                    if matches!(self.current.kind, TokenKind::Colon) {
                        self.advance()?;
                        self.expect(TokenKind::Colon)?;
                        if matches!(self.current.kind, TokenKind::LBracket) {
                            let _node = self.list_expr(n2)?;
                        } else if matches!(self.current.kind, TokenKind::LBrace) {
                            let _node = self.dict_expr(n2)?;
                        }
                        return Err(self.unexpected("'[' or '{' after '::'"));
                    } else {
                        ex = Expr::LibVariable(n, n2);
                    }
                } else {
                    ex = Expr::Variable(n);
                }
                let ghost s2 = *self;
                if matches!(self.current.kind, TokenKind::LParen) {
                    let r = self.call(ex);
                    proof { if tm { Self::lemma_moved_then(s0, s2, *self, 2, 3); } }
                    return r;
                }
                Ok(ex)
            },
            _ => Err(self.unexpected("an expression")),
        }
    }

    /// Member reads `.name` and method calls `.name(args)` after `e`.
    fn chain(&mut self, e: Expr) -> (r: Result<Expr, OnfexError>)
        requires
            old(self).wf(),
        ensures
            r is Ok ==> Self::kept(*old(self), *final(self)),
            r is Ok ==> r->Ok_0 == e || r->Ok_0 is MethodCall || r->Ok_0 is Member,
            !(old(self).current.kind@ is Dot) ==> r == Ok::<Expr, OnfexError>(e) && *final(self) == *old(self),
            old(self).current.kind@ is Dot ==> (r is Ok ==> (r->Ok_0 is MethodCall || r->Ok_0 is Member)),
            r is Err ==> syntax_error(r->Err_0),
        decreases old(self).rank(), 0nat,
    {
        let ghost start = *self;
        let ghost e0 = e;
        let mut ex = e;
        while matches!(self.current.kind, TokenKind::Dot)
            invariant
                Self::kept(start, *self),
                start.rank() == old(self).rank(),
                start == *old(self),
                ex == e0 || ex is MethodCall || ex is Member,
                *self == start ==> ex == e0,
                start.current.kind@ is Dot ==> (*self == start || ex is MethodCall || ex is Member),
                !(start.current.kind@ is Dot) ==> *self == start,
            decreases self.rank(),
        {
            self.advance()?;
            let n2 = match &self.current.kind {
                TokenKind::Identifier(x) => x.clone(),
                _ => { return Err(self.unexpected("identifier after '.'")); },
            };
            self.advance()?;
            if matches!(self.current.kind, TokenKind::LParen) {
                self.advance()?;
                let args = self.args()?;
                self.skip_if(TokenKind::RParen)?;
                ex = Expr::MethodCall(Box::new(ex), n2, args);
            } else {
                ex = Expr::Member(Box::new(ex), n2);
            }
        }
        Ok(ex)
    }

    /// Binary operators after `e`, each taking the whole expression that
    /// follows as its right operand.
    fn bp(&mut self, e: Expr) -> (r: Result<Expr, OnfexError>)
        requires
            old(self).wf(),
        ensures
            r is Ok ==> Self::kept(*old(self), *final(self)),
            r is Ok ==> r->Ok_0 == e || r->Ok_0 is BinaryOp,
            !binary_operator(old(self).current.kind@) ==> r == Ok::<Expr, OnfexError>(e) && *final(self) == *old(self),
            binary_operator(old(self).current.kind@) ==> (r is Ok ==> r->Ok_0 is BinaryOp),
            r is Err ==> syntax_error(r->Err_0),
            r is Ok ==> !binary_operator(final(self).current.kind@),
            binary_operator(old(self).current.kind@) ==> (r matches Ok(x) ==> (x matches Expr::BinaryOp(l, op, _)
                && *l == e && op@ == operator_text(old(self).current.kind@, old(self).next.kind@))),
        decreases old(self).rank(), 0nat,
    {
        let ghost start = *self;
        let ghost e0 = e;
        let mut ex = e;
        while matches!(
            self.current.kind,
            TokenKind::Plus | TokenKind::Minus | TokenKind::Div | TokenKind::Star | TokenKind::Gt | TokenKind::Lt
                | TokenKind::DEqual
        )
            invariant
                Self::kept(start, *self),
                start.rank() == old(self).rank(),
                start == *old(self),
                ex == e0 || ex is BinaryOp,
                *self == start ==> ex == e0,
                binary_operator(start.current.kind@) ==> (*self == start || ex is BinaryOp),
                !binary_operator(start.current.kind@) ==> *self == start,
                *self == start || ((ex matches Expr::BinaryOp(l, op, _) && *l == e0
                    && op@ == operator_text(start.current.kind@, start.next.kind@)) && !binary_operator(self.current.kind@)),
            decreases self.rank(),
        {
            let op = match &self.current.kind {
                TokenKind::Plus => owned("+"),
                TokenKind::Minus => owned("-"),
                TokenKind::Div => owned("/"),
                TokenKind::Star => owned("*"),
                TokenKind::Gt => {
                    if matches!(self.next.kind, TokenKind::Equal) {
                        owned(">")
                    } else {
                        self.advance()?;
                        owned(">=")
                    }
                },
                TokenKind::Lt => {
                    if matches!(self.next.kind, TokenKind::Equal) {
                        self.advance()?;
                        owned("<")
                    } else {
                        owned("<=")
                    }
                },
                TokenKind::DEqual => owned("=="),
                _ => owned("none"),
            };
            let ghost mid = *self;
            self.advance()?;
            assert(self.rank() < start.rank());
            let right = self.expr()?;
            ex = Expr::BinaryOp(Box::new(ex), op, Box::new(right));
        }
        Ok(ex)
    }

    /// An expression: a primary, its member reads and calls, and the binary
    /// operators after it.
    fn expr(&mut self) -> (r: Result<Expr, OnfexError>)
        requires
            old(self).wf(),
        ensures
            r is Ok ==> Self::consumed(*old(self), *final(self)),
            r is Err ==> syntax_error(r->Err_0),
            r is Ok && r->Ok_0 is Int ==> r->Ok_0->Int_0 != i64::MIN,
            (single_token(old(self).current_kind()) && ends_expression(old(self).next_kind()) && old(self).reads(2))
                ==> (r matches Ok(e) && expr_of_token(e, old(self).current_kind()) && Self::moved(*old(self), *final(self), 1)
                    && final(self).current_pos() == old(self).next_pos()),
            old(self).text_macro_at() ==> (r matches Ok(e) && old(self).text_macro_expr(e)
                && Self::moved(*old(self), *final(self), 5)),
            r is Ok ==> !binary_operator(final(self).current_kind()),
        decreases old(self).rank(), 2nat,
    {
        proof { self.lemma_first_two(); }
        let ghost cond = single_token(self.current_kind()) && ends_expression(self.next_kind()) && self.reads(2);
        let ghost tm = self.text_macro_at();
        let e = self.primary()?;
        proof {
            if cond {
                assert(self.tok_ahead(0) == old(self).tok_ahead(1));
                self.lemma_first_two();
            }
            if tm {
                Self::lemma_moved_reads(*old(self), *self, 5, 1);
            }
        }
        let e = self.chain(e)?;
        self.bp(e)
    }

    /// An expression with the position of its first token.
    fn exprnode(&mut self) -> (r: Result<ExprNode, OnfexError>)
        requires
            old(self).wf(),
        ensures
            r is Ok ==> Self::consumed(*old(self), *final(self)),
            r is Err ==> syntax_error(r->Err_0),
            (single_token(old(self).current_kind()) && ends_expression(old(self).next_kind()) && old(self).reads(2))
                ==> (r matches Ok(n) && expr_of_token(*n.expr, old(self).current_kind())
                    && (n.line, n.col) == old(self).current_pos() && Self::moved(*old(self), *final(self), 1)
                    && final(self).current_pos() == old(self).next_pos()),
            old(self).text_macro_at() ==> (r matches Ok(n) && old(self).text_macro_expr(*n.expr)
                && Self::moved(*old(self), *final(self), 5)),
        decreases old(self).rank(), 3nat,
    {
        let line = self.current.line;
        let col = self.current.col;
        let e = self.expr()?;
        Ok(ExprNode::new(e, line, col))
    }

    /// `[e, e, ...]`, named `auf`.
    fn list_expr(&mut self, auf: String) -> (r: Result<ExprNode, OnfexError>)
        requires
            old(self).wf(),
            !(old(self).current.kind@ is EOF),
        ensures
            r is Ok ==> Self::consumed(*old(self), *final(self)),
            r is Ok ==> *r->Ok_0.expr is List,
            r is Err ==> syntax_error(r->Err_0),
        decreases old(self).rank(), 0nat,
    {
        let line = self.current.line;
        let col = self.current.col;
        let ghost start = *self;
        self.advance()?;
        let mut vals: Vec<ExprNode> = Vec::new();
        loop
            invariant
                Self::consumed(start, *self),
                start.rank() == old(self).rank(),
            decreases self.rank(),
        {
            if matches!(self.current.kind, TokenKind::RBracket) {
                break;
            }
            vals.push(self.exprnode()?);
            if matches!(self.current.kind, TokenKind::Comma) {
                self.advance()?;
            } else {
                break;
            }
        }
        self.expect(TokenKind::RBracket)?;
        Ok(ExprNode::new(Expr::List(auf, vals), line, col))
    }

    /// `{k: v, ...}`, named `auf`.
    fn dict_expr(&mut self, auf: String) -> (r: Result<ExprNode, OnfexError>)
        requires
            old(self).wf(),
            !(old(self).current.kind@ is EOF),
        ensures
            r is Ok ==> Self::consumed(*old(self), *final(self)),
            r is Ok ==> *r->Ok_0.expr is Dict,
            r is Err ==> syntax_error(r->Err_0),
        decreases old(self).rank(), 0nat,
    {
        let line = self.current.line;
        let col = self.current.col;
        let ghost start = *self;
        self.advance()?;
        let mut vals: Vec<(ExprNode, ExprNode)> = Vec::new();
        loop
            invariant
                Self::consumed(start, *self),
                start.rank() == old(self).rank(),
            decreases self.rank(),
        {
            if matches!(self.current.kind, TokenKind::RBrace) {
                break;
            }
            let key = self.exprnode()?;
            self.expect(TokenKind::Colon)?;
            let val = self.exprnode()?;
            vals.push((key, val));
            if matches!(self.current.kind, TokenKind::Comma) {
                self.advance()?;
            } else {
                break;
            }
        }
        self.expect(TokenKind::RBrace)?;
        Ok(ExprNode::new(Expr::Dict(auf, vals), line, col))
    }

    /// Call arguments up to (not including) `)`.
    fn args(&mut self) -> (r: Result<Vec<Expr>, OnfexError>)
        requires
            old(self).wf(),
        ensures
            r is Ok ==> Self::kept(*old(self), *final(self)),
            old(self).current.kind@ is RParen ==> (r matches Ok(v) && v@.len() == 0) && *final(self) == *old(self),
            !(old(self).current.kind@ is RParen) ==> (r matches Ok(v) ==> v@.len() > 0),
            r is Err ==> syntax_error(r->Err_0),
            (single_token(old(self).current_kind()) && old(self).next_kind() is RParen && old(self).reads(2))
                ==> (r matches Ok(v) && v@.len() == 1 && expr_of_token(v@[0], old(self).current_kind())
                    && Self::moved(*old(self), *final(self), 1)),
            forall|n: nat| #[trigger] old(self).token_args(n) ==> (r matches Ok(v) && v@.len() == n
                && (forall|k: int| 0 <= k < n ==> expr_of_token(#[trigger] v@[k], old(self).tok_ahead((2 * k) as nat)->Some_0))
                && Self::moved(*old(self), *final(self), (2 * n - 1) as nat)),
        decreases old(self).rank(), 3nat,
    {
        let ghost start = *self;
        let ghost many = exists|n: nat| start.token_args(n);
        let ghost nn: nat = choose|n: nat| start.token_args(n);
        let ghost one = single_token(start.current_kind()) && start.next_kind() is RParen && start.reads(2);
        proof { self.lemma_first_two(); }
        let mut v: Vec<Expr> = Vec::new();
        if matches!(self.current.kind, TokenKind::RParen) {
            return Ok(v);
        }
        loop
            invariant_except_break
                many ==> start.token_args(nn) && v@.len() < nn && Self::moved(start, *self, 2 * (v@.len() as nat))
                    && forall|k: int| 0 <= k < v@.len() ==> expr_of_token(#[trigger] v@[k], start.tok_ahead((2 * k) as nat)->Some_0),
            invariant
                Self::kept(start, *self),
                start.rank() == old(self).rank(),
                start == *old(self),
                !(start.current.kind@ is RParen),
                v@.len() > 0 || *self == start,
                one == (single_token(start.current_kind()) && start.next_kind() is RParen && start.reads(2)),
                one ==> (v@.len() == 0 && *self == start) || (v@.len() == 1 && expr_of_token(v@[0], start.current_kind())
                    && Self::moved(start, *self, 1) && self.current_kind() is RParen),
                many == exists|n: nat| start.token_args(n),
            ensures
                v@.len() > 0,
                one ==> v@.len() == 1 && expr_of_token(v@[0], start.current_kind()) && Self::moved(start, *self, 1),
                many ==> v@.len() == nn && Self::moved(start, *self, (2 * nn - 1) as nat)
                    && forall|k: int| 0 <= k < nn ==> expr_of_token(#[trigger] v@[k], start.tok_ahead((2 * k) as nat)->Some_0),
            decreases self.rank(),
        {
            let ghost sj = *self;
            let ghost j: nat = v@.len() as nat;
            proof {
                if many {
                    assert(start.tok_ahead(2 * j) matches Some(t) && single_token(t));
                    Self::lemma_moved_reads(start, sj, 2 * j, 2);
                    sj.lemma_first_two();
                }
            }
            proof { if one && v@.len() == 1 { self.lemma_first_two(); } }
            if matches!(self.current.kind, TokenKind::RParen) {
                break;
            }
            v.push(self.expr()?);
            proof {
                if one {
                    assert(sj == start);
                    self.lemma_first_two();
                    assert(self.tok_ahead(0) == start.tok_ahead(1));
                }
                if many {
                    Self::lemma_moved_then(start, sj, *self, 2 * j, 1);
                    self.lemma_first_two();
                    assert(self.tok_ahead(0) == start.tok_ahead(2 * j + 1));
                }
            }
            if matches!(self.current.kind, TokenKind::Comma) {
                let ghost s1 = *self;
                self.advance()?;
                proof {
                    if many {
                        Self::lemma_moved_then(start, s1, *self, 2 * j + 1, 1);
                        assert(2 * j + 1 + 1 == 2 * (v@.len() as nat));
                    }
                }
            } else {
                break;
            }
        }
        proof {
            assert forall|n: nat| #[trigger] start.token_args(n) implies n == nn by {
                if n < nn {
                    let j: nat = (n - 1) as nat;
                    assert(start.tok_ahead(2 * j) matches Some(t) && single_token(t));
                    assert(start.tok_ahead(2 * j + 1) == Some(Tok::RParen));
                } else if nn < n {
                    let j: nat = (nn - 1) as nat;
                    assert(start.tok_ahead(2 * j) matches Some(t) && single_token(t));
                    assert(start.tok_ahead(2 * j + 1) == Some(Tok::RParen));
                }
            }
        }
        Ok(v)
    }

    /// Field initialisers `name: e, ...` after a call, up to `}`; a name
    /// given twice keeps the last value.
    fn mtch(&mut self) -> (r: Result<Vec<(String, Expr)>, OnfexError>)
        requires
            old(self).wf(),
        ensures
            r is Ok ==> Self::kept(*old(self), *final(self)),
            old(self).current.kind@ is RBrace ==> (r matches Ok(v) && v@.len() == 0) && *final(self) == *old(self),
            !(old(self).current.kind@ is RBrace) ==> (r matches Ok(v) ==> v@.len() > 0),
            r is Err ==> syntax_error(r->Err_0),
        decreases old(self).rank(), 0nat,
    {
        let ghost start = *self;
        let mut v: Vec<(String, Expr)> = Vec::new();
        if matches!(self.current.kind, TokenKind::RBrace) {
            return Ok(v);
        }
        loop
            invariant
                Self::kept(start, *self),
                start.rank() == old(self).rank(),
                start == *old(self),
                !(start.current.kind@ is RBrace),
                v@.len() > 0 || *self == start,
            ensures
                v@.len() > 0,
            decreases self.rank(),
        {
            if matches!(self.current.kind, TokenKind::RBrace) {
                break;
            }
            let n = match &self.current.kind {
                TokenKind::Identifier(x) => x.clone(),
                _ => { return Err(self.unexpected("texth")); },
            };
            self.advance()?;
            self.skip_if(TokenKind::Colon)?;
            let e = self.expr()?;
            proof { keys_of(v@).index_of_first_ensures(n@); }
            put(&mut v, n, e);
            if !matches!(self.current.kind, TokenKind::Comma) {
                break;
            } else {
                self.advance()?;
            }
        }
        Ok(v)
    }

    /// A call of `e`: `(args)`, then field initialisers in braces if any.
    fn call(&mut self, e: Expr) -> (r: Result<Expr, OnfexError>)
        requires
            old(self).wf(),
            old(self).current.kind@ is LParen,
        ensures
            r is Ok ==> Self::consumed(*old(self), *final(self)),
            r is Ok ==> r->Ok_0 is Call,
            r is Err ==> syntax_error(r->Err_0),
            ((old(self).next_kind() matches Tok::Text(t)) && old(self).tok_ahead(2) == Some(Tok::RParen)
                && (old(self).tok_ahead(3) matches Some(t) && !(t is LBrace)) && old(self).reads(4))
                ==> (r matches Ok(c) && (c matches Expr::Call(f, args, ft) && *f == e && args@.len() == 1
                    && expr_of_token(args@[0], old(self).next_kind()) && ft@.len() == 0)
                    && Self::moved(*old(self), *final(self), 3)),
        decreases old(self).rank(), 0nat,
    {
        let ghost s0 = *self;
        let ghost h = (s0.next_kind() matches Tok::Text(t)) && s0.tok_ahead(2) == Some(Tok::RParen)
            && (s0.tok_ahead(3) matches Some(t) && !(t is LBrace)) && s0.reads(4);
        proof { self.lemma_first_two(); }
        self.skip_if(TokenKind::LParen)?;
        let ghost s1 = *self;
        proof { if h { Self::lemma_moved_reads(s0, s1, 1, 3); } }
        let args = self.args()?;
        let ghost s2 = *self;
        proof { if h { Self::lemma_moved_then(s0, s1, s2, 1, 1); Self::lemma_moved_reads(s0, s2, 2, 2); } }
        self.skip_if(TokenKind::RParen)?;
        let ghost s3 = *self;
        proof { if h { Self::lemma_moved_then(s0, s2, s3, 2, 1); Self::lemma_moved_reads(s0, s3, 3, 1); } }
        let mut mt: Vec<(String, Expr)> = Vec::new();
        if matches!(self.current.kind, TokenKind::LBrace) {
            self.advance()?;
            mt = self.mtch()?;
            self.skip_if(TokenKind::RBrace)?;
        }
        Ok(Expr::Call(Box::new(e), args, mt))
    }

    // -----------------------------------------------------------------
    // Statements
    // -----------------------------------------------------------------

    /// Statements up to the closing `}` of a block (not consumed).
    fn block_body(&mut self) -> (r: Result<Vec<StmtNode>, OnfexError>)
        requires
            old(self).wf(),
        ensures
            r is Ok ==> Self::kept(*old(self), *final(self)),
            old(self).current.kind@ is RBrace ==> (r matches Ok(v) && v@.len() == 0) && *final(self) == *old(self),
            !(old(self).current.kind@ is RBrace) ==> (r matches Ok(v) ==> v@.len() > 0),
            r is Err ==> syntax_error(r->Err_0),
        decreases old(self).rank(), 6nat,
    {
        let ghost start = *self;
        let mut body: Vec<StmtNode> = Vec::new();
        while !matches!(self.current.kind, TokenKind::RBrace)
            invariant
                Self::kept(start, *self),
                start.rank() == old(self).rank(),
                start == *old(self),
                body@.len() == 0 ==> *self == start,
                start.current.kind@ is RBrace ==> body@.len() == 0 && *self == start,
                !(start.current.kind@ is RBrace) ==> (body@.len() > 0 || *self == start),
            decreases self.rank(),
        {
            body.push(self.statement()?);
        }
        Ok(body)
    }

    /// `urso name;`
    fn import_stmt(&mut self) -> (r: Result<StmtNode, OnfexError>)
        requires
            old(self).wf(),
            !(old(self).current.kind@ is EOF),
        ensures
            r is Ok ==> Self::consumed(*old(self), *final(self)),
            r is Ok ==> r->Ok_0.stmt is Import,
            r is Err ==> syntax_error(r->Err_0),
    {
        let line = self.current.line;
        let col = self.current.col;
        self.advance()?;
        let name = match &self.current.kind {
            TokenKind::Identifier(x) => x.clone(),
            _ => { return Err(self.unexpected("library2 name")); },
        };
        self.advance()?;
        self.expect(TokenKind::Semi)?;
        Ok(StmtNode::new(Stmt::Import(name), line, col))
    }

    /// `mehen { ... }`: the entry block.
    fn mehen(&mut self) -> (r: Result<StmtNode, OnfexError>)
        requires
            old(self).wf(),
            !(old(self).current.kind@ is EOF),
        ensures
            r is Ok ==> Self::consumed(*old(self), *final(self)),
            r is Ok ==> r->Ok_0.stmt is Mehen,
            r is Err ==> syntax_error(r->Err_0),
        decreases old(self).rank(), 4nat,
    {
        let line = self.current.line;
        let col = self.current.col;
        self.advance()?;
        self.expect(TokenKind::LBrace)?;
        let body = self.block_body()?;
        self.expect(TokenKind::RBrace)?;
        Ok(StmtNode::new(Stmt::Mehen(body), line, col))
    }

    /// Whether the tokens are `ifnt ( t ; ) {` with `t` a literal or a name,
    /// and the two after them can be read.
    pub open spec fn simple_if_head(&self) -> bool {
        &&& self.current_kind() is ifnt
        &&& self.next_kind() is LParen
        &&& (self.tok_ahead(2) matches Some(t) && single_token(t))
        &&& self.tok_ahead(3) == Some(Tok::Semi)
        &&& self.tok_ahead(4) == Some(Tok::RParen)
        &&& self.tok_ahead(5) == Some(Tok::LBrace)
        &&& self.reads(8)
    }

    /// What an `ifnt` read from a `simple_if_head` is: its condition is the
    /// expression of the token in brackets; its first block is empty exactly
    /// when `}` follows `{`; and after an empty first block, its second block
    /// is empty when no `elsnt` follows, and otherwise exactly when `}`
    /// follows the `{` after `elsnt`.
    pub open spec fn if_shape(&self, sn: StmtNode) -> bool {
        sn.stmt matches Stmt::IfElse(c, body, eb)
            && (c.stmt matches Stmt::ExprNode(e) && expr_of_token(*e.expr, self.tok_ahead(2)->Some_0))
            && (body@.len() == 0 <==> self.tok_ahead(6) == Some(Tok::RBrace))
            && eb is Some
            && (self.tok_ahead(6) == Some(Tok::RBrace) ==> (
                ((self.tok_ahead(7) == Some(Tok::elsnt) && self.tok_ahead(8) == Some(Tok::LBrace)
                    && self.reads(10)) ==> (eb->Some_0@.len() == 0 <==> self.tok_ahead(9) == Some(Tok::RBrace)))
                && (self.tok_ahead(7) != Some(Tok::elsnt) ==> eb->Some_0@.len() == 0)))
    }

    /// `ifnt (condition) { ... } elsnt { ... }`; without `elsnt` the second
    /// block is empty.
    #[verifier::spinoff_prover]
    #[verifier::rlimit(60)]
    fn if_stmt(&mut self) -> (r: Result<StmtNode, OnfexError>)
        requires
            old(self).wf(),
            old(self).current.kind@ is ifnt,
        ensures
            r is Ok ==> Self::consumed(*old(self), *final(self)),
            r is Ok ==> r->Ok_0.stmt is IfElse,
            r is Err ==> syntax_error(r->Err_0),
            old(self).simple_if_head() ==> (r matches Ok(sn) ==> old(self).if_shape(sn)),
        decreases old(self).rank(), 4nat,
    {
        let ghost s0 = *self;
        let ghost h = s0.simple_if_head();
        let line = self.current.line;
        let col = self.current.col;
        proof { self.lemma_first_two(); }
        self.advance()?;
        let ghost s1 = *self;
        proof { if h { Self::lemma_moved_reads(s0, s1, 1, 7); } }
        self.expect(TokenKind::LParen)?;
        let ghost s2 = *self;
        proof { if h { Self::lemma_moved_then(s0, s1, s2, 1, 1); Self::lemma_moved_reads(s0, s2, 2, 6); } }
        let cond = self.statement()?;
        let ghost s3 = *self;
        proof { if h { Self::lemma_moved_then(s0, s2, s3, 2, 2); Self::lemma_moved_reads(s0, s3, 4, 4); } }
        self.expect(TokenKind::RParen)?;
        let ghost s4 = *self;
        proof { if h { Self::lemma_moved_then(s0, s3, s4, 4, 1); Self::lemma_moved_reads(s0, s4, 5, 3); } }
        self.expect(TokenKind::LBrace)?;
        let ghost s5 = *self;
        proof { if h { Self::lemma_moved_then(s0, s4, s5, 5, 1); Self::lemma_moved_reads(s0, s5, 6, 2); } }
        let body = self.block_body()?;
        self.expect(TokenKind::RBrace)?;
        let ghost s7 = *self;
        let ghost e6 = h && s0.tok_ahead(6) == Some(Tok::RBrace);
        proof { if e6 { Self::lemma_moved_then(s0, s5, s7, 6, 1); Self::lemma_moved_reads(s0, s7, 7, 1); } }
        if matches!(self.current.kind, TokenKind::elsnt) {
            let ghost e10 = e6 && s0.tok_ahead(8) == Some(Tok::LBrace) && s0.reads(10);
            self.advance()?;
            let ghost s8 = *self;
            proof { if e10 { Self::lemma_moved_then(s0, s7, s8, 7, 1); Self::lemma_moved_reads(s0, s8, 8, 2); } }
            self.expect(TokenKind::LBrace)?;
            let ghost s9 = *self;
            proof { if e10 { Self::lemma_moved_then(s0, s8, s9, 8, 1); Self::lemma_moved_reads(s0, s9, 9, 1); } }
            let body2 = self.block_body()?;
            self.expect(TokenKind::RBrace)?;
            return Ok(StmtNode::new(Stmt::IfElse(Box::new(cond), body, Some(body2)), line, col));
        }
        Ok(StmtNode::new(Stmt::IfElse(Box::new(cond), body, Some(Vec::new())), line, col))
    }

    /// The fields of a `strouct`: `prube name: kind, prive name: kind, ...`
    /// up to `}`; a name given twice keeps the last field.
    fn fields(&mut self) -> (r: Result<Vec<(String, Field)>, OnfexError>)
        requires
            old(self).wf(),
        ensures
            r is Ok ==> Self::kept(*old(self), *final(self)),
            old(self).current.kind@ is RBrace ==> (r matches Ok(v) && v@.len() == 0) && *final(self) == *old(self),
            !(old(self).current.kind@ is RBrace) ==> (r matches Ok(v) ==> v@.len() > 0),
            r matches Ok(v) ==> forall|i: int| 0 <= i < v@.len() ==> #[trigger] v@[i].0@ == v@[i].1.name@,
            r is Err ==> syntax_error(r->Err_0),
    {
        let ghost start = *self;
        let mut v: Vec<(String, Field)> = Vec::new();
        if matches!(self.current.kind, TokenKind::RBrace) {
            return Ok(v);
        }
        loop
            invariant
                Self::kept(start, *self),
                start == *old(self),
                forall|i: int| 0 <= i < v@.len() ==> #[trigger] v@[i].0@ == v@[i].1.name@,
                !(start.current.kind@ is RBrace),
                v@.len() > 0 || *self == start,
            ensures
                v@.len() > 0,
            decreases self.rank(),
        {
            if matches!(self.current.kind, TokenKind::RBrace) {
                break;
            }
            let pb = match &self.current.kind {
                TokenKind::Pub => true,
                TokenKind::Priv => false,
                _ => { return Err(self.unexpected("prub ophe prive esp wraithnosan")); },
            };
            self.advance()?;
            let n = match &self.current.kind {
                TokenKind::Identifier(x) => x.clone(),
                _ => { return Err(self.unexpected("texth")); },
            };
            self.advance()?;
            self.skip_if(TokenKind::Colon)?;
            let tykd = match &self.current.kind {
                TokenKind::TyKd(x) => *x,
                _ => { return Err(self.unexpected("typect")); },
            };
            self.advance()?;
            let name = n.clone();
            let ghost v0 = v@;
            let ghost k0 = n@;
            proof { keys_of(v0).index_of_first_ensures(k0); }
            put(&mut v, n, Field { glb: pb, name, typ: tykd });
            proof {
                assert forall|i: int| 0 <= i < v@.len() implies #[trigger] v@[i].0@ == v@[i].1.name@ by {
                    match keys_of(v0).index_of_first(k0) {
                        Some(j) => {
                            if i == j {
                                assert(keys_of(v0)[j] == v0[j].0@);
                            } else {
                                assert(v@[i] == v0[i]);
                            }
                        },
                        None => {
                            if i < v0.len() {
                                assert(v@[i] == v0[i]);
                            }
                        },
                    }
                }
            }
            if !matches!(self.current.kind, TokenKind::Comma) {
                break;
            } else {
                self.advance()?;
            }
        }
        Ok(v)
    }

    /// The parameters of a function up to `)`: `name: kind, ...`; a `!`
    /// before a name makes it collect the remaining arguments and ends the
    /// list.
    fn params(&mut self) -> (r: Result<Vec<Param>, OnfexError>)
        requires
            old(self).wf(),
        ensures
            r is Ok ==> Self::kept(*old(self), *final(self)),
            old(self).current.kind@ is RParen ==> (r matches Ok(v) && v@.len() == 0) && *final(self) == *old(self),
            !(old(self).current.kind@ is RParen) ==> (r matches Ok(v) ==> v@.len() > 0),
            r matches Ok(v) ==> forall|i: int| 0 <= i < v@.len() - 1 ==> !(#[trigger] v@[i]).vararg,
            r is Err ==> syntax_error(r->Err_0),
    {
        let ghost start = *self;
        let mut v: Vec<Param> = Vec::new();
        let mut vg = false;
        if matches!(self.current.kind, TokenKind::RParen) {
            return Ok(v);
        }
        loop
            invariant_except_break
                !vg,
                forall|i: int| 0 <= i < v@.len() ==> !(#[trigger] v@[i]).vararg,
            invariant
                Self::kept(start, *self),
                start == *old(self),
                !(start.current.kind@ is RParen),
                v@.len() > 0 || *self == start,
                forall|i: int| 0 <= i < v@.len() - 1 ==> !(#[trigger] v@[i]).vararg,
            ensures
                v@.len() > 0,
            decreases self.rank(),
        {
            if matches!(self.current.kind, TokenKind::RParen) {
                break;
            }
            if matches!(self.current.kind, TokenKind::Clam) {
                vg = true;
                self.advance()?;
            }
            let name = match &self.current.kind {
                TokenKind::Identifier(x) => x.clone(),
                _ => { return Err(self.unexpected("parameter h name")); },
            };
            self.advance()?;
            self.expect(TokenKind::Colon)?;
            let ty = match &self.current.kind {
                TokenKind::TyKd(x) => *x,
                _ => { return Err(self.unexpected("a type")); },
            };
            self.advance()?;
            let ghost v0 = v@;
            v.push(Param { name, kind: ty, vararg: vg });
            proof {
                assert forall|i: int| 0 <= i < v@.len() - 1 implies !(#[trigger] v@[i]).vararg by {
                    assert(v@[i] == v0[i]);
                }
            }
            if matches!(self.current.kind, TokenKind::Comma) {
                self.advance()?;
            } else {
                break;
            }
            if vg {
                break;
            }
        }
        Ok(v)
    }

    /// `frounct name(params) -> kind { ... }`
    fn fc(&mut self) -> (r: Result<StmtNode, OnfexError>)
        requires
            old(self).wf(),
            !(old(self).current.kind@ is EOF),
        ensures
            r is Ok ==> Self::consumed(*old(self), *final(self)),
            r is Ok ==> r->Ok_0.stmt is FuncCre,
            r is Err ==> syntax_error(r->Err_0),
        decreases old(self).rank(), 4nat,
    {
        let line = self.current.line;
        let col = self.current.col;
        self.advance()?;
        let name = match &self.current.kind {
            TokenKind::Identifier(x) => x.clone(),
            _ => { return Err(self.unexpected("function name")); },
        };
        self.advance()?;
        self.expect(TokenKind::LParen)?;
        let pars = self.params()?;
        self.expect(TokenKind::RParen)?;
        self.expect(TokenKind::Minus)?;
        self.expect(TokenKind::Gt)?;
        let out = match &self.current.kind {
            TokenKind::TyKd(x) => *x,
            _ => { return Err(self.unexpected("a return type")); },
        };
        self.advance()?;
        self.expect(TokenKind::LBrace)?;
        let body = self.block_body()?;
        self.expect(TokenKind::RBrace)?;
        Ok(StmtNode::new(Stmt::FuncCre(name, pars, body, out), line, col))
    }

    /// `strouct Name { fields } impelnos { frounct ... }`; a method name
    /// given twice keeps the last method.
    fn srct(&mut self) -> (r: Result<StmtNode, OnfexError>)
        requires
            old(self).wf(),
            !(old(self).current.kind@ is EOF),
        ensures
            r is Ok ==> Self::consumed(*old(self), *final(self)),
            r is Ok ==> r->Ok_0.stmt is StrctCre,
            r is Err ==> syntax_error(r->Err_0),
        decreases old(self).rank(), 4nat,
    {
        let line = self.current.line;
        let col = self.current.col;
        self.advance()?;
        let name = match &self.current.kind {
            TokenKind::Identifier(x) => x.clone(),
            _ => { return Err(self.unexpected("struct name")); },
        };
        self.advance()?;
        self.expect(TokenKind::LBrace)?;
        let fields = self.fields()?;
        self.expect(TokenKind::RBrace)?;
        let mut body: Vec<(String, Stmt)> = Vec::new();
        if matches!(self.current.kind, TokenKind::Impl) {
            self.advance()?;
            self.expect(TokenKind::LBrace)?;
            let ghost start = *self;
            while !matches!(self.current.kind, TokenKind::RBrace)
                invariant
                    Self::kept(start, *self),
                    start.rank() < old(self).rank(),
                decreases self.rank(),
            {
                if matches!(self.current.kind, TokenKind::Func) {
                    let res = self.fc()?.stmt;
                    let k = match &res {
                        Stmt::FuncCre(n, _, _, _) => n.clone(),
                        _ => { return Err(self.unexpected("frounct")); },
                    };
                    put(&mut body, k, res);
                } else {
                    return Err(self.unexpected("frounct"));
                }
            }
            self.expect(TokenKind::RBrace)?;
        }
        Ok(StmtNode::new(Stmt::StrctCre(name, fields, body), line, col))
    }

    /// `valt name = e;` (a new variable) or `name = e;` (a new value).
    fn assign(&mut self, is_re: bool) -> (r: Result<StmtNode, OnfexError>)
        requires
            old(self).wf(),
            !(old(self).current.kind@ is EOF),
        ensures
            r is Ok ==> Self::consumed(*old(self), *final(self)),
            r is Ok ==> (if is_re { r->Ok_0.stmt is ReAssign } else { r->Ok_0.stmt is Assign }),
            r is Err ==> syntax_error(r->Err_0),
            (is_re && old(self).simple_assign_at(0)) ==> (r matches Ok(sn) && sn.stmt matches Stmt::ReAssign(name, node)
                && old(self).assigns_token_at(0, name, node) && Self::moved(*old(self), *final(self), 4)),
            (!is_re && old(self).simple_assign_at(1)) ==> (r matches Ok(sn) && sn.stmt matches Stmt::Assign(name, node)
                && old(self).assigns_token_at(1, name, node) && Self::moved(*old(self), *final(self), 5)),
        decreases old(self).rank(), 4nat,
    {
        let ghost start = *self;
        let ghost k0: nat = if is_re { 0 } else { 1 };
        let ghost simple = start.simple_assign_at(k0);
        proof {
            assert(start.tok_ahead(0 + 0) == start.tok_ahead(0));
            assert(Self::moved(start, start, 0)) by {
                assert forall|i: nat| #[trigger] start.tok_ahead(i) == start.tok_ahead(i + 0) by {}
            }
        }
        if !is_re {
            self.advance()?;
        }
        let ghost s1 = *self;
        proof {
            if simple {
                if !is_re {
                    assert(start.tok_ahead(2) is Some);
                } else {
                    assert(s1 == start);
                }
                assert(Self::moved(start, s1, k0));
                Self::lemma_moved_reads(start, s1, k0, 4);
            }
        }
        let line = self.current.line;
        let col = self.current.col;
        let name = match &self.current.kind {
            TokenKind::Identifier(x) => x.clone(),
            _ => { return Err(self.unexpected("variable name")); },
        };
        self.advance()?;
        let ghost s2 = *self;
        proof {
            if simple {
                Self::lemma_moved_then(start, s1, s2, k0, 1);
                Self::lemma_moved_reads(start, s2, k0 + 1, 3);
            }
        }
        self.expect(TokenKind::Equal)?;
        let ghost s3 = *self;
        proof {
            if simple {
                Self::lemma_moved_then(start, s2, s3, k0 + 1, 1);
                Self::lemma_moved_reads(start, s3, k0 + 2, 2);
            }
        }
        let val = self.exprnode()?;
        let ghost s4 = *self;
        proof {
            if simple {
                Self::lemma_moved_then(start, s3, s4, k0 + 2, 1);
                Self::lemma_moved_reads(start, s4, k0 + 3, 2);
            }
        }
        self.expect(TokenKind::Semi)?;
        proof {
            if simple {
                Self::lemma_moved_then(start, s4, *self, k0 + 3, 1);
            }
        }
        let stmt = if is_re {
            Stmt::ReAssign(name, val)
        } else {
            Stmt::Assign(name, val)
        };
        Ok(StmtNode::new(stmt, line, col))
    }

    /// One statement.
    #[verifier::spinoff_prover]
    #[verifier::rlimit(80)]
    fn statement(&mut self) -> (r: Result<StmtNode, OnfexError>)
        requires
            old(self).wf(),
        ensures
            r is Ok ==> Self::consumed(*old(self), *final(self)),
            old(self).current_kind() is Mehen ==> (r is Ok ==> r->Ok_0.stmt is Mehen),
            old(self).current_kind() is Strct ==> (r is Ok ==> r->Ok_0.stmt is StrctCre),
            old(self).current_kind() is Urso ==> (r is Ok ==> r->Ok_0.stmt is Import),
            old(self).current_kind() is Mod ==> (r is Ok ==> r->Ok_0.stmt is Mod),
            old(self).current_kind() is Func ==> (r is Ok ==> r->Ok_0.stmt is FuncCre),
            old(self).current_kind() is Return ==> (r is Ok ==> r->Ok_0.stmt is Return),
            old(self).current_kind() is Valt ==> (r is Ok ==> r->Ok_0.stmt is Assign),
            old(self).current_kind() is TypeL ==> (r is Ok ==> r->Ok_0.stmt is TypeLib),
            old(self).current_kind() is TypeM ==> (r is Ok ==> r->Ok_0.stmt is TypeMod),
            old(self).current_kind() is ifnt ==> (r is Ok ==> r->Ok_0.stmt is IfElse),
            old(self).simple_if_head() ==> (r matches Ok(sn) ==> old(self).if_shape(sn)),
            old(self).text_macro_stmt_at() ==> (r matches Ok(sn) && (sn.stmt matches Stmt::ExprNode(n)
                && old(self).text_macro_expr(*n.expr)) && Self::moved(*old(self), *final(self), 6)),
            r is Err ==> syntax_error(r->Err_0),
            (single_token(old(self).current_kind()) && old(self).next_kind() is Semi && old(self).reads(3))
                ==> (r matches Ok(sn) && sn.stmt matches Stmt::ExprNode(e) && expr_of_token(*e.expr, old(self).current_kind())
                    && Self::moved(*old(self), *final(self), 2)),
            (single_token(old(self).current_kind()) && ends_expression(old(self).next_kind())
                && !(old(self).next_kind() is Semi) && !(old(self).next_kind() is Equal) && old(self).reads(2))
                ==> (r matches Err(OnfexError::Parser { line, col, .. }) && (line, col) == old(self).next_pos()),
            (old(self).current_kind() is Valt && old(self).simple_assign_at(1)) ==> (r matches Ok(sn)
                && sn.stmt matches Stmt::Assign(name, node) && old(self).assigns_token_at(1, name, node)
                && Self::moved(*old(self), *final(self), 5)),
            old(self).simple_assign_at(0) ==> (r matches Ok(sn)
                && sn.stmt matches Stmt::ReAssign(name, node) && old(self).assigns_token_at(0, name, node)
                && Self::moved(*old(self), *final(self), 4)),
            (old(self).current_kind() is Return && old(self).next_kind() is Semi && old(self).reads(3))
                ==> (r matches Ok(sn) && sn.stmt == Stmt::Return(None) && Self::moved(*old(self), *final(self), 2)),
            (old(self).current_kind() is Mod && old(self).tok_ahead(2) == Some(Tok::Semi) && old(self).reads(4))
                ==> ((old(self).next_kind() matches Tok::Text(t) ==> (r matches Ok(sn) && sn.stmt matches Stmt::Mod(n)
                        && n@ == t && Self::moved(*old(self), *final(self), 3)))
                    && (old(self).next_kind() matches Tok::Identifier(t) ==> (r matches Ok(sn) && sn.stmt matches Stmt::Mod(n)
                        && n@ == t + ".onfex"@ && Self::moved(*old(self), *final(self), 3)))),
        decreases old(self).rank(), 5nat,
    {
        let ghost start = *self;
        proof { self.lemma_first_two(); reveal_strlit(".onfex"); }
        let kind = self.current.kind.duplicate();
        match kind {
            TokenKind::Mehen => self.mehen(),
            TokenKind::Strct => self.srct(),
            TokenKind::Urso => self.import_stmt(),
            TokenKind::Mod => {
                let line = self.current.line;
                let col = self.current.col;
                let ghost cond = start.tok_ahead(2) == Some(Tok::Semi) && start.reads(4);
                self.advance()?;
                let ghost s1 = *self;
                proof { if cond { Self::lemma_moved_reads(start, s1, 1, 3); } }
                let name = match &self.current.kind {
                    TokenKind::String(x) => x.clone(),
                    TokenKind::Identifier(x) => {
                        let mut f = x.clone();
                        push_str(&mut f, ".onfex");
                        f
                    },
                    _ => { return Err(self.unexpected("Mot Ern: Sterge wraithnosan")); },
                };
                self.advance()?;
                let ghost s2 = *self;
                proof {
                    if cond {
                        Self::lemma_moved_then(start, s1, s2, 1, 1);
                        Self::lemma_moved_reads(start, s2, 2, 2);
                    }
                }
                self.expect(TokenKind::Semi)?;
                proof { if cond { Self::lemma_moved_then(start, s2, *self, 2, 1); } }
                Ok(StmtNode::new(Stmt::Mod(name), line, col))
            },
            TokenKind::Func => self.fc(),
            TokenKind::Return => {
                let line = self.current.line;
                let col = self.current.col;
                let ghost cond = start.next_kind() is Semi && start.reads(3);
                self.advance()?;
                let ghost s1 = *self;
                proof { if cond { Self::lemma_moved_reads(start, s1, 1, 2); } }
                if matches!(self.current.kind, TokenKind::Semi) {
                    self.advance()?;
                    proof { if cond { Self::lemma_moved_then(start, s1, *self, 1, 1); } }
                    return Ok(StmtNode::new(Stmt::Return(None), line, col));
                }
                let val = self.exprnode()?;
                self.expect(TokenKind::Semi)?;
                Ok(StmtNode::new(Stmt::Return(Some(val)), line, col))
            },
            TokenKind::Valt => self.assign(false),
            TokenKind::Identifier(_) => {
                if matches!(self.next.kind, TokenKind::Equal) {
                    return self.assign(true);
                }
                let ghost simple = ends_expression(start.next_kind()) && start.reads(2);
                let ghost tms = start.text_macro_stmt_at();
                let e = self.exprnode()?;
                let ghost s1 = *self;
                proof {
                    if simple {
                        assert(s1.tok_ahead(0) == start.tok_ahead(1));
                        s1.lemma_first_two();
                        if start.reads(3) {
                            Self::lemma_moved_reads(start, s1, 1, 2);
                        }
                    }
                    if tms {
                        Self::lemma_moved_reads(start, s1, 5, 2);
                    }
                }
                let line = e.line;
                let col = e.col;
                if matches!(self.current.kind, TokenKind::Equal) {
                    match *e.expr {
                        Expr::Member(base, field) => {
                            self.advance()?;
                            let val = self.exprnode()?;
                            self.expect(TokenKind::Semi)?;
                            let basenode = ExprNode::new(*base, line, col);
                            return Ok(StmtNode::new(Stmt::MemberAssign(basenode, field, val), line, col));
                        },
                        _ => {
                            return Err(self.unexpected("';' (atama sadece 'x.alan' hedeflerinde geçerli)"));
                        },
                    }
                }
                self.expect(TokenKind::Semi)?;
                proof {
                    if simple && start.reads(3) { Self::lemma_moved_then(start, s1, *self, 1, 1); }
                    if tms { Self::lemma_moved_then(start, s1, *self, 5, 1); }
                }
                Ok(StmtNode::new(Stmt::ExprNode(e), line, col))
            },
            TokenKind::TypeL => {
                self.advance()?;
                let name = match &self.current.kind {
                    TokenKind::Identifier(x) => x.clone(),
                    _ => { return Err(self.unexpected("texth")); },
                };
                self.advance()?;
                self.skip_if(TokenKind::Equal)?;
                let name2 = match &self.current.kind {
                    TokenKind::Identifier(x) => x.clone(),
                    _ => { return Err(self.unexpected("texth")); },
                };
                let line = self.current.line;
                let col = self.current.col;
                self.advance()?;
                self.skip_if(TokenKind::Semi)?;
                Ok(StmtNode::new(Stmt::TypeLib(name, name2), line, col))
            },
            TokenKind::TypeM => {
                self.advance()?;
                let name = match &self.current.kind {
                    TokenKind::String(x) => x.clone(),
                    _ => { return Err(self.unexpected("texth")); },
                };
                self.advance()?;
                self.skip_if(TokenKind::Equal)?;
                let name2 = match &self.current.kind {
                    TokenKind::String(x) => x.clone(),
                    _ => { return Err(self.unexpected("texth")); },
                };
                let line = self.current.line;
                let col = self.current.col;
                self.advance()?;
                self.skip_if(TokenKind::Semi)?;
                Ok(StmtNode::new(Stmt::TypeMod(name, name2), line, col))
            },
            TokenKind::ifnt => self.if_stmt(),
            _ => {
                let ghost simple = single_token(start.current_kind()) && ends_expression(start.next_kind()) && start.reads(2);
                let e = self.exprnode()?;
                let ghost s1 = *self;
                proof {
                    if simple {
                        assert(s1.tok_ahead(0) == start.tok_ahead(1));
                        s1.lemma_first_two();
                        if start.reads(3) {
                            Self::lemma_moved_reads(start, s1, 1, 2);
                        }
                    }
                }
                let line = e.line;
                let col = e.col;
                self.expect(TokenKind::Semi)?;
                proof { if simple && start.reads(3) { Self::lemma_moved_then(start, s1, *self, 1, 1); } }
                Ok(StmtNode::new(Stmt::ExprNode(e), line, col))
            },
        }
    }

    /// Parses the whole program: statements up to the end of the source.
    pub fn parse(&mut self) -> (r: Result<Vec<StmtNode>, OnfexError>)
        requires
            old(self).wf(),
        ensures
            r is Ok ==> final(self).wf() && final(self).current_kind() is EOF,
            r is Err ==> syntax_error(r->Err_0),
            old(self).current_kind() is EOF ==> (r matches Ok(v) && v@.len() == 0),
            (single_token(old(self).current_kind()) && old(self).next_kind() is EOF && old(self).reads(2))
                ==> (r matches Err(OnfexError::Parser { line, col, .. }) && (line, col) == old(self).next_pos()),
            forall|n: nat| #[trigger] old(self).expr_stmts(n) ==> (r matches Ok(v) && v@.len() == n
                && forall|k: int| 0 <= k < n ==> ((#[trigger] v@[k]).stmt matches Stmt::ExprNode(e)
                    && expr_of_token(*e.expr, old(self).tok_ahead(2 * (k as nat))->Some_0))),
            !(old(self).current_kind() is EOF) ==> (r matches Ok(v) ==> v@.len() > 0 && old(self).first_shape(v@[0])),
            old(self).lone_module() ==> (r matches Ok(v) && v@.len() == 1),
            forall|n: nat| #[trigger] old(self).macro_stmts(n) ==> (r matches Ok(v) && v@.len() == n
                && forall|k: int| 0 <= k < n ==> ((#[trigger] v@[k]).stmt matches Stmt::ExprNode(e)
                    && old(self).macro_expr_at(*e.expr, (6 * k) as nat))),
    {
        let ghost start = *self;
        let ghost simple = exists|n: nat| start.expr_stmts(n);
        let ghost n: nat = choose|n: nat| start.expr_stmts(n);
        let ghost mac = exists|n: nat| start.macro_stmts(n);
        let ghost nm: nat = choose|n: nat| start.macro_stmts(n);
        proof {
            self.lemma_first_two();
            assert(Self::moved(start, start, 0)) by {
                assert forall|i: nat| #[trigger] start.tok_ahead(i) == start.tok_ahead(i + 0) by {}
            }
        }
        let mut v: Vec<StmtNode> = Vec::new();
        while !matches!(self.current.kind, TokenKind::EOF)
            invariant
                self.wf(),
                old(self).current_kind() is EOF ==> (v@.len() == 0 && self.current_kind() is EOF),
                start == *old(self),
                simple == exists|m: nat| start.expr_stmts(m),
                (single_token(start.current_kind()) && start.next_kind() is EOF && start.reads(2))
                    ==> v@.len() == 0 && *self == start,
                simple ==> start.expr_stmts(n) && v@.len() <= n && Self::moved(start, *self, 2 * (v@.len() as nat))
                    && forall|k: int| 0 <= k < v@.len() ==> ((#[trigger] v@[k]).stmt matches Stmt::ExprNode(e)
                        && expr_of_token(*e.expr, start.tok_ahead(2 * (k as nat))->Some_0)),
                v@.len() == 0 ==> *self == start,
                v@.len() > 0 ==> start.first_shape(v@[0]),
                start.lone_module() ==> v@.len() <= 1 && (v@.len() == 1 ==> Self::moved(start, *self, 3)),
                mac == exists|m: nat| start.macro_stmts(m),
                mac ==> start.macro_stmts(nm) && v@.len() <= nm && Self::moved(start, *self, 6 * (v@.len() as nat))
                    && forall|k: int| 0 <= k < v@.len() ==> ((#[trigger] v@[k]).stmt matches Stmt::ExprNode(e)
                        && start.macro_expr_at(*e.expr, (6 * k) as nat)),
            decreases self.rank(),
        {
            let ghost j: nat = v@.len() as nat;
            let ghost sj = *self;
            proof {
                if simple {
                    if j == n {
                        Self::lemma_moved_reads(start, sj, 2 * j, 1);
                        assert(false);
                    }
                    assert(start.tok_ahead(2 * j) matches Some(t) && single_token(t));
                    assert(start.tok_ahead(2 * j + 1) == Some(Tok::Semi));
                    Self::lemma_moved_reads(start, sj, 2 * j, 3);
                    assert(sj.next_kind() is Semi);
                    assert(single_token(sj.current_kind()));
                }
                if mac {
                    if j == nm {
                        Self::lemma_moved_reads(start, sj, 6 * j, 1);
                        assert(false);
                    }
                    assert(start.macro_tokens_at(6 * j));
                    Self::lemma_moved_reads(start, sj, 6 * j, 7);
                    assert(sj.tok_ahead(2) == start.tok_ahead(6 * j + 2));
                    assert(sj.tok_ahead(3) == start.tok_ahead(6 * j + 3));
                    assert(sj.tok_ahead(4) == start.tok_ahead(6 * j + 4));
                    assert(sj.tok_ahead(5) == start.tok_ahead(6 * j + 5));
                    assert(sj.text_macro_stmt_at());
                }
            }
            let s = match self.statement() {
                Ok(s) => s,
                Err(e) => {
                    proof {
                        assert(!simple);
                        assert forall|m: nat| !#[trigger] start.expr_stmts(m) by {
                            if start.expr_stmts(m) {
                                assert(simple);
                            }
                        }
                    }
                    return Err(e);
                },
            };
            proof { if simple { Self::lemma_moved_then(start, sj, *self, 2 * j, 2); } }
            proof {
                if mac {
                    Self::lemma_moved_then(start, sj, *self, 6 * j, 6);
                    sj.lemma_first_two();
                    assert(sj.tok_ahead(3) == start.tok_ahead(6 * j + 3));
                    assert(6 * j + 6 == 6 * (j + 1));
                }
            }
            proof {
                if start.lone_module() {
                    assert(j == 0);
                    assert(Self::moved(start, *self, 3));
                    self.lemma_first_two();
                    assert(self.current_kind() is EOF);
                }
            }
            v.push(s);
            proof {
                if simple {
                    assert(2 * j + 2 == 2 * (v@.len() as nat));
                }
            }
        }
        proof {
            if simple && v@.len() < n {
                let j: nat = v@.len() as nat;
                assert(start.tok_ahead(2 * j) matches Some(t) && single_token(t));
                Self::lemma_moved_reads(start, *self, 2 * j, 1);
            }
            assert forall|m: nat| #[trigger] start.expr_stmts(m) implies m == n by {
                start.lemma_expr_stmts_unique(m, n);
            }
            if mac && v@.len() < nm {
                let j: nat = v@.len() as nat;
                assert(start.macro_tokens_at(6 * j));
                Self::lemma_moved_reads(start, *self, 6 * j, 1);
            }
            assert forall|m: nat| #[trigger] start.macro_stmts(m) implies m == nm by {
                if m < nm {
                    assert(start.macro_tokens_at(6 * m));
                } else if nm < m {
                    assert(start.macro_tokens_at(6 * nm));
                }
            }
        }
        Ok(v)
    }
}

/// The text of the negation of a floating-point literal: a leading `-` is
/// dropped, otherwise one is put in front.
pub open spec fn negated_literal(t: Seq<char>) -> Seq<char> {
    if t.len() > 0 && t[0] == '-' { t.drop_first() } else { seq!['-'] + t }
}

fn negate_literal(t: String) -> (r: String)
    ensures
        r@ == negated_literal(t@),
{
    let cs = crate::text::chars_of(t.as_str());
    if cs.len() > 0 && cs[0] == '-' {
        let r = crate::text::string_of_range(&cs, 1, cs.len());
        assert(cs@.subrange(1, cs@.len() as int) =~= t@.drop_first());
        r
    } else {
        let mut r = owned("-");
        push_str(&mut r, t.as_str());
        proof { reveal_strlit("-"); }
        assert(r@ =~= seq!['-'] + t@);
        r
    }
}

/// The names of an association list.
pub open spec fn keys_of<T>(v: Seq<(String, T)>) -> Seq<Seq<char>> {
    v.map_values(|p: (String, T)| p.0@)
}

/// The tokens that start a binary operator.
/// The operator a binary operator token stands for, given the token after
/// it: `+`, `-`, `/`, `*`, `==`; `>` followed by `=` is `>` and otherwise
/// `>=`; `<` followed by `=` is `<` and otherwise `<=`.
pub open spec fn operator_text(t: Tok, next: Tok) -> Seq<char> {
    match t {
        Tok::Plus => "+"@,
        Tok::Minus => "-"@,
        Tok::Div => "/"@,
        Tok::Star => "*"@,
        Tok::Gt => if next is Equal { ">"@ } else { ">="@ },
        Tok::Lt => if next is Equal { "<"@ } else { "<="@ },
        Tok::DEqual => "=="@,
        _ => "none"@,
    }
}

/// What the operator tokens mean on two integers `a` and `b`, the one
/// before the token being `a`: `+` adds, `-` subtracts `b` from `a`, `*`
/// multiplies, `==` tests equality, `<` read as `<=` unless `=` follows it,
/// `>` read as `>=` unless `=` follows it.
pub proof fn law_operator_tokens_mean_their_operations(next: Tok, a: i64, b: i64)
    ensures
        in_i64(a + b) ==> int_outcome(a as int, operator_text(Tok::Plus, next), b as int) == IntOutcome::Value(Value::Int((a + b) as i64)),
        in_i64(a - b) ==> int_outcome(a as int, operator_text(Tok::Minus, next), b as int) == IntOutcome::Value(Value::Int((a - b) as i64)),
        in_i64(a * b) ==> int_outcome(a as int, operator_text(Tok::Star, next), b as int) == IntOutcome::Value(Value::Int((a * b) as i64)),
        int_outcome(a as int, operator_text(Tok::DEqual, next), b as int) == IntOutcome::Value(Value::Bool(a == b)),
        int_outcome(a as int, operator_text(Tok::Lt, next), b as int)
            == IntOutcome::Value(Value::Bool(if next is Equal { a < b } else { a <= b })),
        int_outcome(a as int, operator_text(Tok::Gt, next), b as int)
            == IntOutcome::Value(Value::Bool(if next is Equal { a > b } else { a >= b })),
{
    reveal_strlit("+");
    reveal_strlit("-");
    reveal_strlit("*");
    reveal_strlit("/");
    reveal_strlit("<");
    reveal_strlit(">");
    reveal_strlit("<=");
    reveal_strlit(">=");
    reveal_strlit("==");
    assert("+"@[0] != "-"@[0] && "+"@[0] != "*"@[0] && "-"@[0] != "*"@[0]);
    assert("/"@[0] != "*"@[0] && "/"@[0] != "-"@[0] && "/"@[0] != "+"@[0]);
    assert("<"@[0] != ">"@[0] && "<"@[0] != "+"@[0] && "<"@[0] != "-"@[0] && "<"@[0] != "*"@[0] && "<"@[0] != "/"@[0]);
    assert(">"@[0] != "+"@[0] && ">"@[0] != "-"@[0] && ">"@[0] != "*"@[0] && ">"@[0] != "/"@[0]);
    assert("=="@[0] != "<"@[0] && "=="@[0] != ">"@[0] && "=="@[0] != "+"@[0] && "=="@[0] != "-"@[0]
        && "=="@[0] != "*"@[0] && "=="@[0] != "/"@[0]);
    assert("<="@.len() != "<"@.len() && ">="@.len() != ">"@.len());
    assert(">="@[0] != "<="@[0] && ">="@[0] != "<"@[0] && ">="@[0] != "+"@[0] && ">="@[0] != "-"@[0]
        && ">="@[0] != "*"@[0] && ">="@[0] != "/"@[0]);
    assert("<="@[0] != ">"@[0] && "<="@[0] != "+"@[0] && "<="@[0] != "-"@[0] && "<="@[0] != "*"@[0] && "<="@[0] != "/"@[0]);
}

pub open spec fn binary_operator(t: Tok) -> bool {
    t is Plus || t is Minus || t is Div || t is Star || t is Gt || t is Lt || t is DEqual
}

/// Binds `k` to `x` in an association list: the entry of that name is
/// replaced where there is one, otherwise the binding is added at the end.
pub fn put<T>(v: &mut Vec<(String, T)>, k: String, x: T)
    ensures
        ({
            let i = keys_of(old(v)@).index_of_first(k@);
            match i {
                Some(j) => final(v)@ == old(v)@.update(j, (old(v)@[j].0, x)),
                None => final(v)@ == old(v)@.push((k, x)),
            }
        }),
{
    let mut i: usize = 0;
    let n = v.len();
    while i < n
        invariant
            n == v@.len(),
            v@ == old(v)@,
            0 <= i <= n,
            forall|j: int| 0 <= j < i ==> keys_of(v@)[j] != k@,
        decreases n - i,
    {
        if crate::text::str_eq(v[i].0.as_str(), k.as_str()) {
            let name = v[i].0.clone();
            proof {
                assert(keys_of(v@)[i as int] == k@);
                let found = keys_of(v@).index_of_first(k@);
                keys_of(v@).index_of_first_ensures(k@);
            }
            v.set(i, (name, x));
            return;
        }
        i = i + 1;
    }
    proof {
        keys_of(old(v)@).index_of_first_ensures(k@);
    }
    v.push((k, x));
}

} // verus!
