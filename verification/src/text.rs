//! Character classes, decimal rendering and string building shared by the
//! whole library.
use vstd::prelude::*;
use vstd::std_specs::iter::IteratorSpec;
use vstd::string::StrSliceExecFns;

verus! {

broadcast use vstd::string::group_string_axioms;

// ---------------------------------------------------------------------------
// Unicode character classes
// ---------------------------------------------------------------------------

/// Whether `c` has the Unicode `White_Space` property (`char::is_whitespace`):
/// the control characters tab to carriage return, space, next line, no-break
/// space, the Ogham space mark, the spaces from en quad to hair space, the
/// line and paragraph separators, the narrow no-break space, the medium
/// mathematical space and the ideographic space.
pub open spec fn unicode_whitespace(c: char) -> bool {
    ||| ('\u{9}' <= c && c <= '\u{d}')
    ||| c == ' '
    ||| c == '\u{85}'
    ||| c == '\u{a0}'
    ||| c == '\u{1680}'
    ||| ('\u{2000}' <= c && c <= '\u{200a}')
    ||| c == '\u{2028}'
    ||| c == '\u{2029}'
    ||| c == '\u{202f}'
    ||| c == '\u{205f}'
    ||| c == '\u{3000}'
}

/// Whether `c` is in one of the Unicode number categories (`char::is_numeric`).
pub uninterp spec fn unicode_numeric(c: char) -> bool;

/// Whether `c` is alphabetic or numeric in Unicode (`char::is_alphanumeric`).
pub uninterp spec fn unicode_alphanumeric(c: char) -> bool;

pub open spec fn is_ascii_digit(c: char) -> bool {
    '0' <= c && c <= '9'
}

pub open spec fn is_ascii_letter(c: char) -> bool {
    ('a' <= c && c <= 'z') || ('A' <= c && c <= 'Z')
}

/// Whether `c` has the Unicode `White_Space` property (what
/// `char::is_whitespace` answers), by its list of code points.
pub fn is_whitespace(c: char) -> (b: bool)
    ensures
        b == unicode_whitespace(c),
        (c == ' ' || c == '\t' || c == '\n' || c == '\r') ==> b,
{
    ('\u{9}' <= c && c <= '\u{d}')
        || c == ' '
        || c == '\u{85}'
        || c == '\u{a0}'
        || c == '\u{1680}'
        || ('\u{2000}' <= c && c <= '\u{200a}')
        || c == '\u{2028}'
        || c == '\u{2029}'
        || c == '\u{202f}'
        || c == '\u{205f}'
        || c == '\u{3000}'
}

/// Calls `char::is_numeric`. The documentation defines the result as membership
/// in the Unicode number categories (named here `unicode_numeric`); among the
/// ASCII characters exactly the digits are in them.
#[verifier::external_body]
pub fn is_numeric(c: char) -> (b: bool)
    ensures
        b == unicode_numeric(c),
        is_ascii_digit(c) ==> b,
        c < '\u{80}' ==> (b <==> is_ascii_digit(c)),
{
    c.is_numeric()
}

/// Calls `char::is_alphanumeric`: alphabetic or numeric in Unicode (named here
/// `unicode_alphanumeric`); among the ASCII characters exactly the letters and
/// digits qualify.
#[verifier::external_body]
pub fn is_alphanumeric(c: char) -> (b: bool)
    ensures
        b == unicode_alphanumeric(c),
        (is_ascii_letter(c) || is_ascii_digit(c)) ==> b,
        c < '\u{80}' ==> (b <==> (is_ascii_letter(c) || is_ascii_digit(c))),
{
    c.is_alphanumeric()
}

// ---------------------------------------------------------------------------
// String building
// ---------------------------------------------------------------------------

/// Calls `String::push`: appends one character.
#[verifier::external_body]
pub fn push_char(s: &mut String, c: char)
    ensures
        final(s)@ == old(s)@.push(c),
{
    s.push(c);
}

/// Calls `String::push_str`: appends the characters of `t`.
#[verifier::external_body]
pub fn push_str(s: &mut String, t: &str)
    ensures
        final(s)@ == old(s)@ + t@,
{
    s.push_str(t);
}

/// A fresh string holding the characters of the literal or slice `s`.
pub fn owned(s: &str) -> (r: String)
    ensures
        r@ == s@,
{
    let mut r = String::new();
    push_str(&mut r, s);
    r
}

/// Collects the characters of `s`, in order.
pub fn chars_of(s: &str) -> (v: Vec<char>)
    ensures
        v@ == s@,
{
    let mut v: Vec<char> = Vec::new();
    let mut it = s.chars();
    loop
        invariant
            it.obeys_prophetic_iter_laws(),
            v@ + it.remaining() == s@,
        ensures
            v@ == s@,
        decreases s@.len() - v@.len(),
    {
        match it.next() {
            Some(c) => {
                v.push(c);
            },
            None => {
                assert(it.remaining().len() == 0);
                assert(v@ + it.remaining() == v@);
                break;
            },
        }
    }
    v
}

/// A string holding the characters `v[from..to]`.
pub fn string_of_range(v: &Vec<char>, from: usize, to: usize) -> (s: String)
    requires
        from <= to <= v@.len(),
    ensures
        s@ == v@.subrange(from as int, to as int),
{
    let mut s = String::new();
    let mut i = from;
    while i < to
        invariant
            from <= i <= to <= v@.len(),
            s@ == v@.subrange(from as int, i as int),
        decreases to - i,
    {
        push_char(&mut s, v[i]);
        assert(v@.subrange(from as int, i + 1) == v@.subrange(from as int, i as int).push(v@[i as int]));
        i = i + 1;
    }
    s
}

/// Whether the characters of `s` are exactly those of `lit`.
pub fn str_is(s: &Vec<char>, lit: &str) -> (b: bool)
    ensures
        b == (s@ == lit@),
{
    let n = lit.unicode_len();
    if n != s.len() {
        return false;
    }
    let mut i: usize = 0;
    while i < n
        invariant
            n == lit@.len() == s@.len(),
            0 <= i <= n,
            forall|j: int| 0 <= j < i ==> s@[j] == lit@[j],
        decreases n - i,
    {
        if s[i] != lit.get_char(i) {
            return false;
        }
        i = i + 1;
    }
    assert(s@ =~= lit@);
    true
}

// ---------------------------------------------------------------------------
// Decimal rendering of integers
// ---------------------------------------------------------------------------

pub open spec fn digit_char(d: int) -> char {
    if d == 0 { '0' } else if d == 1 { '1' } else if d == 2 { '2' } else if d == 3 { '3' }
    else if d == 4 { '4' } else if d == 5 { '5' } else if d == 6 { '6' } else if d == 7 { '7' }
    else if d == 8 { '8' } else { '9' }
}

/// The decimal digits of `n`, most significant first, without leading zeros
/// (`"0"` for zero).
pub open spec fn decimal(n: nat) -> Seq<char>
    decreases n,
{
    if n < 10 {
        seq![digit_char(n as int)]
    } else {
        decimal(n / 10).push(digit_char((n % 10) as int))
    }
}

/// The decimal rendering of a signed integer, with a leading `-` when negative.
pub open spec fn signed_decimal(n: int) -> Seq<char> {
    if n < 0 {
        seq!['-'] + decimal((-n) as nat)
    } else {
        decimal(n as nat)
    }
}

fn digit_of(d: u128) -> (c: char)
    requires
        d < 10,
    ensures
        c == digit_char(d as int),
{
    if d == 0 { '0' } else if d == 1 { '1' } else if d == 2 { '2' } else if d == 3 { '3' }
    else if d == 4 { '4' } else if d == 5 { '5' } else if d == 6 { '6' } else if d == 7 { '7' }
    else if d == 8 { '8' } else { '9' }
}

/// Appends the decimal digits of `n` to `s`.
pub fn push_decimal(s: &mut String, n: u128)
    ensures
        final(s)@ == old(s)@ + decimal(n as nat),
    decreases n,
{
    if n < 10 {
        push_char(s, digit_of(n));
        assert(old(s)@.push(digit_char(n as int)) =~= old(s)@ + decimal(n as nat));
    } else {
        push_decimal(s, n / 10);
        push_char(s, digit_of(n % 10));
        assert(old(s)@ + decimal((n / 10) as nat) + seq![digit_char((n % 10) as int)]
            =~= old(s)@ + decimal(n as nat));
    }
}

/// The decimal rendering of an unsigned integer (`u64::to_string`).
pub fn u64_to_string(n: u64) -> (s: String)
    ensures
        s@ == decimal(n as nat),
{
    let mut s = String::new();
    push_decimal(&mut s, n as u128);
    assert(Seq::<char>::empty() + decimal(n as nat) =~= decimal(n as nat));
    s
}

/// The decimal rendering of a signed integer (`i64::to_string`).
pub fn i64_to_string(n: i64) -> (s: String)
    ensures
        s@ == signed_decimal(n as int),
{
    let mut s = String::new();
    if n < 0 {
        push_char(&mut s, '-');
        let m: u128 = ((-(n + 1)) as u128) + 1;
        push_decimal(&mut s, m);
    } else {
        push_decimal(&mut s, n as u128);
        assert(Seq::<char>::empty() + decimal(n as nat) =~= decimal(n as nat));
    }
    s
}

} // verus!

verus! {

/// Whether two string slices hold the same characters.
pub fn str_eq(a: &str, b: &str) -> (r: bool)
    ensures
        r == (a@ == b@),
{
    let n = a.unicode_len();
    if n != b.unicode_len() {
        return false;
    }
    let mut i: usize = 0;
    while i < n
        invariant
            n == a@.len() == b@.len(),
            0 <= i <= n,
            forall|j: int| 0 <= j < i ==> a@[j] == b@[j],
        decreases n - i,
    {
        if a.get_char(i) != b.get_char(i) {
            return false;
        }
        i = i + 1;
    }
    assert(a@ =~= b@);
    true
}

/// `s` with each occurrence of `pat` replaced by `rep`, taken from the left
/// without overlaps (`str::replace`, for a pattern that is not empty).
pub open spec fn replaced(s: Seq<char>, pat: Seq<char>, rep: Seq<char>) -> Seq<char>
    decreases s.len(),
{
    if s.len() == 0 || pat.len() == 0 {
        s
    } else if pat.len() <= s.len() && s.subrange(0, pat.len() as int) == pat {
        rep + replaced(s.skip(pat.len() as int), pat, rep)
    } else {
        seq![s[0]] + replaced(s.skip(1), pat, rep)
    }
}

/// Whether `pat` occurs in `cs` at position `i`.
fn occurs_at(cs: &Vec<char>, i: usize, pat: &Vec<char>) -> (r: bool)
    requires
        i <= cs@.len(),
    ensures
        r == (i + pat@.len() <= cs@.len() && cs@.subrange(i as int, i + pat@.len()) == pat@),
{
    if pat.len() > cs.len() - i {
        return false;
    }
    let mut k: usize = 0;
    while k < pat.len()
        invariant
            i + pat@.len() <= cs@.len(),
            cs@.len() <= usize::MAX,
            0 <= k <= pat@.len(),
            forall|j: int| 0 <= j < k ==> cs@[i + j] == pat@[j],
        decreases pat@.len() - k,
    {
        if cs[i + k] != pat[k] {
            assert(cs@.subrange(i as int, i + pat@.len())[k as int] != pat@[k as int]);
            return false;
        }
        k = k + 1;
    }
    assert(cs@.subrange(i as int, i + pat@.len()) =~= pat@);
    true
}

/// `s` with every occurrence of `pat` replaced by `rep` (see `replaced`).
pub fn replace_all(s: &str, pat: &str, rep: &str) -> (r: String)
    requires
        pat@.len() > 0,
    ensures
        r@ == replaced(s@, pat@, rep@),
{
    let cs = chars_of(s);
    let ps = chars_of(pat);
    let mut out = String::new();
    let mut i: usize = 0;
    assert(cs@.skip(0) =~= cs@);
    while i < cs.len()
        invariant
            cs@ == s@,
            ps@ == pat@,
            pat@.len() > 0,
            0 <= i <= cs@.len(),
            out@ + replaced(cs@.skip(i as int), pat@, rep@) == replaced(s@, pat@, rep@),
        decreases cs@.len() - i,
    {
        let ghost rest = cs@.skip(i as int);
        if occurs_at(&cs, i, &ps) {
            assert(rest.subrange(0, pat@.len() as int) =~= cs@.subrange(i as int, i + pat@.len()));
            assert(rest.skip(pat@.len() as int) =~= cs@.skip(i + pat@.len()));
            push_str(&mut out, rep);
            i = i + ps.len();
        } else {
            assert(pat@.len() <= rest.len() ==> rest.subrange(0, pat@.len() as int) =~= cs@.subrange(i as int, i + pat@.len()));
            assert(rest.skip(1) =~= cs@.skip(i + 1));
            push_char(&mut out, cs[i]);
            i = i + 1;
        }
    }
    assert(cs@.skip(i as int) =~= Seq::<char>::empty());
    assert(out@ + Seq::<char>::empty() =~= out@);
    out
}

} // verus!
