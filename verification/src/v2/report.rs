//! How an error is shown to the user: the message, and, where its position is
//! known, the file, the line it points at and a caret under the column. The
//! layout is a list of styled pieces; painting a piece uses `colored`.
use vstd::prelude::*;
use colored::ColoredString;
use colored::Colorize;
use crate::text::{decimal, owned, push_char, push_decimal, push_str};
use crate::v2::error::OnfexError;
use crate::v2::source::SourceContext;

verus! {

broadcast use vstd::string::group_string_axioms;

#[verifier::external_type_specification]
#[verifier::external_body]
pub struct ExColoredString(ColoredString);

/// Calls `Colorize::bright_red` on a text. Whether the text is shown in
/// colour depends on the terminal and the environment, so nothing is stated.
#[verifier::external_body]
fn bright_red(s: &str) -> ColoredString {
    s.bright_red()
}

/// Calls `Colorize::bright_blue` on a text (nothing is stated, as above).
#[verifier::external_body]
fn bright_blue(s: &str) -> ColoredString {
    s.bright_blue()
}

/// Calls `Colorize::bold` on a text (nothing is stated, as above).
#[verifier::external_body]
fn bold_text(s: &str) -> ColoredString {
    s.bold()
}

/// Calls `Colorize::dimmed` on a text (nothing is stated, as above).
#[verifier::external_body]
fn dimmed_text(s: &str) -> ColoredString {
    s.dimmed()
}

/// Calls `Colorize::bold` on a coloured text (nothing is stated, as above).
#[verifier::external_body]
fn bold_colored(c: ColoredString) -> ColoredString {
    c.bold()
}

/// The display of a coloured text (`ToString` through its `Display`): the
/// text, with escape sequences around it when colours are enabled; which of
/// the two depends on the environment, so nothing is stated.
#[verifier::external_body]
fn colored_display(c: &ColoredString) -> String {
    c.to_string()
}

/// How a piece of an error report is painted.
#[derive(Debug, Clone, Copy, PartialEq, Eq, Structural)]
pub enum Style {
    Plain,
    /// Bright red and bold.
    Alert,
    /// Bright blue and bold.
    Accent,
    /// Bold.
    Strong,
    /// Dimmed.
    Faint,
}

/// A piece of text and its style.
#[derive(Debug)]
pub struct Piece {
    pub text: String,
    pub style: Style,
}

/// `n` spaces.
pub open spec fn spaces(n: nat) -> Seq<char> {
    Seq::new(n, |i: int| ' ')
}

/// The line of the source an error at line `line` points at, if the source
/// has it (lines count from 1; line 0 means the first).
pub open spec fn line_shown(src: Option<SourceContext>, line: usize) -> Option<Seq<char>> {
    match src {
        Some(c) => {
            let i = if line == 0 { 0int } else { line - 1 };
            if i < c.lines@.len() { Some(c.lines@[i]@) } else { None }
        },
        None => None,
    }
}

/// The pieces of the report of `e`, given the source being read.
pub open spec fn report_spec(e: OnfexError, src: Option<SourceContext>) -> Seq<(Seq<char>, Style)> {
    let head = seq![
        ("Error"@, Style::Alert),
        (":"@, Style::Strong),
        (" "@, Style::Plain),
        (e.message_spec(), Style::Strong),
        ("\n"@, Style::Plain),
    ];
    match e.location_spec() {
        Some((line, col)) => {
            let filename = match src { Some(c) => c.filename@, None => "<onfex>"@ };
            let gutter = decimal(line as nat);
            let pad = spaces(gutter.len());
            let arrow = seq![
                (pad, Style::Plain),
                ("-->"@, Style::Accent),
                (" "@ + filename + ":"@ + gutter + ":"@ + decimal(col as nat) + "\n"@, Style::Plain),
                (pad + " "@, Style::Plain),
                ("|"@, Style::Accent),
                ("\n"@, Style::Plain),
            ];
            let body = match line_shown(src, line) {
                Some(text) => seq![
                    (gutter, Style::Accent),
                    (" "@, Style::Plain),
                    ("|"@, Style::Accent),
                    (" "@ + text + "\n"@, Style::Plain),
                    (pad + " "@, Style::Plain),
                    ("|"@, Style::Accent),
                    (" "@ + spaces(if col == 0 { 0nat } else { (col - 1) as nat }), Style::Plain),
                    ("^"@, Style::Alert),
                    ("\n"@, Style::Plain),
                ],
                None => seq![
                    (pad + " "@, Style::Plain),
                    ("|"@, Style::Accent),
                    (" (kaynak satırı gephnosan)\n"@, Style::Plain),
                ],
            };
            let tail = seq![
                (pad + " "@, Style::Plain),
                ("="@, Style::Accent),
                (": "@, Style::Plain),
                (e.kind_spec(), Style::Faint),
            ];
            head + arrow + body + tail
        },
        None => head + seq![
            ("  "@, Style::Plain),
            ("="@, Style::Accent),
            (" "@, Style::Plain),
            (e.kind_spec(), Style::Faint),
            (": "@, Style::Plain),
            ("(konum bilgisi mevcut değil)"@, Style::Faint),
        ],
    }
}

/// The view of a list of pieces.
pub open spec fn pieces_view(v: Seq<Piece>) -> Seq<(Seq<char>, Style)> {
    v.map_values(|p: Piece| (p.text@, p.style))
}

fn put_piece(v: &mut Vec<Piece>, text: String, style: Style)
    ensures
        pieces_view(final(v)@) == pieces_view(old(v)@).push((text@, style)),
{
    v.push(Piece { text, style });
    assert(pieces_view(v@) =~= pieces_view(old(v)@).push((text@, style)));
}

fn spaces_exec(n: usize) -> (s: String)
    ensures
        s@ == spaces(n as nat),
{
    let mut s = String::new();
    let mut i: usize = 0;
    while i < n
        invariant
            0 <= i <= n,
            s@ == spaces(i as nat),
        decreases n - i,
    {
        push_char(&mut s, ' ');
        assert(s@ =~= spaces((i + 1) as nat));
        i = i + 1;
    }
    s
}

fn decimal_string(n: usize) -> (s: String)
    ensures
        s@ == decimal(n as nat),
{
    let mut s = String::new();
    push_decimal(&mut s, n as u128);
    assert(s@ =~= decimal(n as nat));
    s
}

/// The pieces of the report of `e` (see `report_spec`).
pub fn report_pieces(e: &OnfexError, src: &Option<SourceContext>) -> (r: Vec<Piece>)
    ensures
        pieces_view(r@) == report_spec(*e, *src),
{
    let mut v: Vec<Piece> = Vec::new();
    put_piece(&mut v, owned("Error"), Style::Alert);
    put_piece(&mut v, owned(":"), Style::Strong);
    put_piece(&mut v, owned(" "), Style::Plain);
    put_piece(&mut v, owned(e.message()), Style::Strong);
    put_piece(&mut v, owned("\n"), Style::Plain);
    let ghost head = pieces_view(v@);
    match e.location() {
        Some((line, col)) => {
            let filename = match src {
                Some(c) => c.filename.clone(),
                None => owned("<onfex>"),
            };
            let gutter = decimal_string(line);
            let pad = spaces_exec(gutter.unicode_len());
            put_piece(&mut v, pad.clone(), Style::Plain);
            put_piece(&mut v, owned("-->"), Style::Accent);
            let mut t = owned(" ");
            push_str(&mut t, filename.as_str());
            push_str(&mut t, ":");
            push_str(&mut t, gutter.as_str());
            push_str(&mut t, ":");
            push_decimal(&mut t, col as u128);
            push_str(&mut t, "\n");
            put_piece(&mut v, t, Style::Plain);
            let mut padded = pad.clone();
            push_str(&mut padded, " ");
            put_piece(&mut v, padded.clone(), Style::Plain);
            put_piece(&mut v, owned("|"), Style::Accent);
            put_piece(&mut v, owned("\n"), Style::Plain);
            let idx: usize = if line == 0 { 0 } else { line - 1 };
            let shown: Option<String> = match src {
                Some(c) => if idx < c.lines.len() { Some(c.lines[idx].clone()) } else { None },
                None => None,
            };
            match shown {
                Some(text) => {
                    put_piece(&mut v, gutter, Style::Accent);
                    put_piece(&mut v, owned(" "), Style::Plain);
                    put_piece(&mut v, owned("|"), Style::Accent);
                    let mut l = owned(" ");
                    push_str(&mut l, text.as_str());
                    push_str(&mut l, "\n");
                    put_piece(&mut v, l, Style::Plain);
                    put_piece(&mut v, padded.clone(), Style::Plain);
                    put_piece(&mut v, owned("|"), Style::Accent);
                    let mut caret = owned(" ");
                    let sp = spaces_exec(if col == 0 { 0 } else { col - 1 });
                    push_str(&mut caret, sp.as_str());
                    put_piece(&mut v, caret, Style::Plain);
                    put_piece(&mut v, owned("^"), Style::Alert);
                    put_piece(&mut v, owned("\n"), Style::Plain);
                },
                None => {
                    put_piece(&mut v, padded.clone(), Style::Plain);
                    put_piece(&mut v, owned("|"), Style::Accent);
                    put_piece(&mut v, owned(" (kaynak satırı gephnosan)\n"), Style::Plain);
                },
            }
            put_piece(&mut v, padded, Style::Plain);
            put_piece(&mut v, owned("="), Style::Accent);
            put_piece(&mut v, owned(": "), Style::Plain);
            put_piece(&mut v, owned(e.kind()), Style::Faint);
        },
        None => {
            put_piece(&mut v, owned("  "), Style::Plain);
            put_piece(&mut v, owned("="), Style::Accent);
            put_piece(&mut v, owned(" "), Style::Plain);
            put_piece(&mut v, owned(e.kind()), Style::Faint);
            put_piece(&mut v, owned(": "), Style::Plain);
            put_piece(&mut v, owned("(konum bilgisi mevcut değil)"), Style::Faint);
        },
    }
    assert(pieces_view(v@) =~= report_spec(*e, *src));
    v
}

/// A piece painted in its style; a plain piece is its text.
pub fn paint(p: &Piece) -> (s: String)
    ensures
        p.style == Style::Plain ==> s@ == p.text@,
{
    match p.style {
        Style::Plain => p.text.clone(),
        Style::Alert => {
            let c = bold_colored(bright_red(p.text.as_str()));
            colored_display(&c)
        },
        Style::Accent => {
            let c = bold_colored(bright_blue(p.text.as_str()));
            colored_display(&c)
        },
        Style::Strong => {
            let c = bold_text(p.text.as_str());
            colored_display(&c)
        },
        Style::Faint => {
            let c = dimmed_text(p.text.as_str());
            colored_display(&c)
        },
    }
}

/// The texts one after another.
pub open spec fn concat_all(ts: Seq<Seq<char>>) -> Seq<char>
    decreases ts.len(),
{
    if ts.len() == 0 { seq![] } else { concat_all(ts.drop_last()) + ts.last() }
}

/// Whether `ts` are the pieces `ps` as painted: one text for each piece,
/// a plain piece as its own text (how a styled one is painted depends on
/// whether the terminal takes colours).
pub open spec fn painted_as(ts: Seq<Seq<char>>, ps: Seq<(Seq<char>, Style)>) -> bool {
    &&& ts.len() == ps.len()
    &&& forall|i: int| 0 <= i < ps.len() ==> ((#[trigger] ps[i]).1 == Style::Plain ==> ts[i] == ps[i].0)
}

impl OnfexError {
    /// The report of this error as it is displayed: its pieces, painted, one
    /// after another.
    pub fn render(&self, src: &Option<SourceContext>) -> (s: String)
        ensures
            exists|ts: Seq<Seq<char>>| painted_as(ts, report_spec(*self, *src)) && s@ == concat_all(ts),
    {
        let pieces = report_pieces(self, src);
        let ghost ps = pieces_view(pieces@);
        let mut s = String::new();
        let ghost mut ts: Seq<Seq<char>> = seq![];
        let mut i: usize = 0;
        while i < pieces.len()
            invariant
                0 <= i <= pieces@.len(),
                ps == pieces_view(pieces@),
                ts.len() == i,
                forall|j: int| 0 <= j < i ==> ((#[trigger] ps[j]).1 == Style::Plain ==> ts[j] == ps[j].0),
                s@ == concat_all(ts),
            decreases pieces@.len() - i,
        {
            let t = paint(&pieces[i]);
            proof {
                assert(ts.push(t@).drop_last() =~= ts);
                ts = ts.push(t@);
            }
            push_str(&mut s, t.as_str());
            i = i + 1;
        }
        assert(painted_as(ts, ps));
        s
    }
}

} // verus!
