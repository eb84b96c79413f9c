//! Exact decimal numbers: an integer and a count of decimal places, bounded to
//! the range of a 16- or 64-bit integer.
use vstd::prelude::*;
use vstd::arithmetic::power::pow;
use crate::text::{decimal, push_char, push_decimal, push_str};
use crate::v2::error::OnfexError;

verus! {

broadcast use vstd::string::group_string_axioms;

/// The number `value / 10^scale`, held to the range of a `size`-bit integer
/// (`size` is 16 or 64).
#[derive(Debug, Clone, Copy, PartialEq, Eq, Structural)]
pub struct OnfexDecimal {
    pub value: i128,
    pub scale: u32,
    pub size: u8,
}

// ---------------------------------------------------------------------------
// Specification
// ---------------------------------------------------------------------------

pub open spec fn p10(n: nat) -> int {
    pow(10, n)
}

/// The sizes a decimal may have.
pub open spec fn size_ok(size: u8) -> bool {
    size == 16 || size == 64
}

/// Whether `value` lies in the range of a `size`-bit signed integer.
pub open spec fn fits(value: int, size: u8) -> bool {
    if size == 16 {
        i16::MIN <= value <= i16::MAX
    } else {
        i64::MIN <= value <= i64::MAX
    }
}

/// `value / 10^scale` with trailing zero digits removed (zero has scale 0).
pub open spec fn norm(value: int, scale: nat) -> (int, nat)
    decreases scale,
{
    if value == 0 {
        (0, 0)
    } else if scale > 0 && value % 10 == 0 {
        norm(value / 10, (scale - 1) as nat)
    } else {
        (value, scale)
    }
}

/// No trailing zero digit after the point; zero has no decimal places.
pub open spec fn normalized(value: int, scale: nat) -> bool {
    &&& value == 0 ==> scale == 0
    &&& (value != 0 && scale > 0) ==> value % 10 != 0
}

/// The zeros that pad a fraction.
pub open spec fn zeros(n: nat) -> Seq<char>
    decreases n,
{
    if n == 0 { seq![] } else { zeros((n - 1) as nat).push('0') }
}

pub open spec fn abs(v: int) -> nat {
    if v < 0 { (-v) as nat } else { v as nat }
}

/// The decimal text of `value / 10^scale`: the digits of the magnitude with a
/// point `scale` places from the right (a `0.` and zeros in front when the
/// digits are fewer), and a `-` when negative; zero is `0`.
pub open spec fn render(value: int, scale: nat) -> Seq<char> {
    if value == 0 {
        "0"@
    } else {
        let digits = decimal(abs(value));
        let body = if scale == 0 {
            digits
        } else if digits.len() <= scale {
            "0."@ + zeros((scale - digits.len()) as nat) + digits
        } else {
            let split = digits.len() - scale;
            digits.subrange(0, split) + "."@ + digits.subrange(split, digits.len() as int)
        };
        if value < 0 { "-"@ + body } else { body }
    }
}

pub open spec fn msg_bad_size(size: u8) -> Seq<char> {
    "Valt Ern: keonvald decmal seznev '"@ + decimal(size as nat) + "'"@
}

pub open spec fn msg_invalid_size(size: u8) -> Seq<char> {
    "Valt Ern: invalid decimal size '"@ + decimal(size as nat) + "'"@
}

pub open spec fn msg_out_of_range(value: int, scale: nat, size: u8) -> Seq<char> {
    "Valt Ern: decmal valtue '"@ + render(value, scale) + "' asp intf '"@ + decimal(size as nat)
        + "' quad neat fertnosfer "@
}

pub open spec fn msg_scale_too_big(n: nat) -> Seq<char> {
    "Valt Ern: decmal skalnev '"@ + decimal(n) + "' asp banev fras "@
}

/// The message of a runtime error, if `r` is one.
pub open spec fn runtime_message(e: OnfexError) -> Option<Seq<char>> {
    match e {
        OnfexError::Runtime { message, line: None, col: None } => Some(message@),
        _ => None,
    }
}

/// What building a decimal from `value`, `scale` and `size` gives: the
/// normalised number, or the message of the error.
pub open spec fn make(value: int, scale: nat, size: u8) -> Result<OnfexDecimal, Seq<char>> {
    if !size_ok(size) {
        Err(msg_bad_size(size))
    } else {
        let (v, s) = norm(value, scale);
        if fits(v, size) {
            Ok(OnfexDecimal { value: v as i128, scale: s as u32, size })
        } else {
            Err(msg_out_of_range(v, s, size))
        }
    }
}

/// Building a decimal renders the value in its error message only where the
/// size is valid and the value does not fit; that rendering faults on the
/// most negative `i128`.
pub open spec fn make_faults(value: int, size: u8) -> bool {
    size_ok(size) && value == i128::MIN
}

/// Whether `r` is the outcome `spec` describes.
pub open spec fn outcome<T>(r: Result<T, OnfexError>, spec: Result<T, Seq<char>>) -> bool {
    match (r, spec) {
        (Ok(a), Ok(b)) => a == b,
        (Err(e), Err(m)) => runtime_message(e) == Some(m),
        _ => false,
    }
}

/// The two values brought to a common scale (the larger one), or the message
/// of the error when a power of ten or a product does not fit in `i128`.
pub open spec fn align_spec(a: OnfexDecimal, b: OnfexDecimal) -> Result<(int, int, nat), Seq<char>> {
    if a.scale == b.scale {
        Ok((a.value as int, b.value as int, a.scale as nat))
    } else if a.scale > b.scale {
        let diff = (a.scale - b.scale) as nat;
        if p10(diff) > i128::MAX {
            Err(msg_scale_too_big(diff))
        } else if b.value * p10(diff) < i128::MIN || b.value * p10(diff) > i128::MAX {
            Err("Valt Ern: decimal algernen esp opherflarnosan"@)
        } else {
            Ok((a.value as int, b.value * p10(diff), a.scale as nat))
        }
    } else {
        let diff = (b.scale - a.scale) as nat;
        if p10(diff) > i128::MAX {
            Err(msg_scale_too_big(diff))
        } else if a.value * p10(diff) < i128::MIN || a.value * p10(diff) > i128::MAX {
            Err("Valt Ern: decimal alignment overflow"@)
        } else {
            Ok((a.value * p10(diff), b.value as int, b.scale as nat))
        }
    }
}

pub open spec fn in_i128(v: int) -> bool {
    i128::MIN <= v <= i128::MAX
}

/// The sum, with the size of the left operand.
pub open spec fn add_spec(a: OnfexDecimal, b: OnfexDecimal) -> Result<OnfexDecimal, Seq<char>> {
    match align_spec(a, b) {
        Err(m) => Err(m),
        Ok((x, y, s)) => if in_i128(x + y) { make(x + y, s, a.size) } else {
            Err("Valt Ern: decimal addition overflow"@)
        },
    }
}

/// The difference, with the size of the left operand.
pub open spec fn sub_spec(a: OnfexDecimal, b: OnfexDecimal) -> Result<OnfexDecimal, Seq<char>> {
    match align_spec(a, b) {
        Err(m) => Err(m),
        Ok((x, y, s)) => if in_i128(x - y) { make(x - y, s, a.size) } else {
            Err("Valt Ern: decimal subtraction overflow"@)
        },
    }
}

/// The product, with the size of the left operand.
pub open spec fn mul_spec(a: OnfexDecimal, b: OnfexDecimal) -> Result<OnfexDecimal, Seq<char>> {
    if !in_i128(a.value * b.value) {
        Err("Valt Ern: decimal multiplication overflow"@)
    } else if a.scale + b.scale > u32::MAX {
        Err("Valt Ern: decimal scale overflow"@)
    } else {
        make(a.value * b.value, (a.scale + b.scale) as nat, a.size)
    }
}

/// Division truncating towards zero, as Rust's `/` on integers.
pub open spec fn tdiv(a: int, b: int) -> int {
    let q = abs(a) / abs(b);
    if (a < 0) == (b < 0) { q as int } else { -(q as int) }
}

/// Remainder whose sign follows the dividend, as Rust's `%` on integers.
pub open spec fn trem(a: int, b: int) -> int {
    let r = abs(a) % abs(b);
    if a < 0 { -(r as int) } else { r as int }
}

/// The quotient to eighteen places, truncated, with the size of the left
/// operand.
pub open spec fn div_spec(a: OnfexDecimal, b: OnfexDecimal) -> Result<OnfexDecimal, Seq<char>> {
    if b.value == 0 {
        Err("Valt Ern: ernen bron kleün"@)
    } else if !in_i128(a.value * p10(18)) {
        Err("Valt Ern: decimal division overflow"@)
    } else if a.scale + 18 > u32::MAX || a.scale + 18 < b.scale {
        Err("Valt Ern: decimal scale overflow"@)
    } else {
        make(tdiv(a.value * p10(18), b.value as int), (a.scale + 18 - b.scale) as nat, a.size)
    }
}

/// The negation.
pub open spec fn neg_spec(a: OnfexDecimal) -> Result<OnfexDecimal, Seq<char>> {
    if a.value == i128::MIN {
        Err("Valt Ern: decimal negation overflow"@)
    } else {
        make(-a.value, a.scale as nat, a.size)
    }
}

/// The remainder of the aligned values, its sign following the left operand.
pub open spec fn rem_spec(a: OnfexDecimal, b: OnfexDecimal) -> Result<OnfexDecimal, Seq<char>> {
    if b.value == 0 {
        Err("Valt Ern: division by zero"@)
    } else {
        match align_spec(a, b) {
            Err(m) => Err(m),
            Ok((x, y, s)) => make(trem(x, y), s, a.size),
        }
    }
}

impl OnfexDecimal {
    /// A value of the type is consistent: valid size, normalised, in range.
    pub open spec fn wf(&self) -> bool {
        &&& size_ok(self.size)
        &&& normalized(self.value as int, self.scale as nat)
        &&& fits(self.value as int, self.size)
    }

    /// The number this decimal stands for is `num / 10^scale`; two decimals
    /// stand for the same number when their cross products agree.
    pub open spec fn same_number(&self, other: OnfexDecimal) -> bool {
        self.value * p10(other.scale as nat) == other.value * p10(self.scale as nat)
    }
}

} // verus!

verus! {

/// Normalisation keeps the number: `v / 10^s` equals `norm(v, s)`.
pub proof fn lemma_norm_same_number(value: int, scale: nat)
    ensures
        value * p10(norm(value, scale).1) == norm(value, scale).0 * p10(scale),
        normalized(norm(value, scale).0, norm(value, scale).1),
        norm(value, scale).1 <= scale,
        value == 0 <==> norm(value, scale).0 == 0,
        value > 0 <==> norm(value, scale).0 > 0,
        abs(norm(value, scale).0) <= abs(value),
    decreases scale,
{
    if value == 0 {
        assert(value * p10(0) == 0 * p10(scale)) by (nonlinear_arith)
            requires value == 0;
    } else if scale > 0 && value % 10 == 0 {
        let w = value / 10;
        let (v, s) = norm(w, (scale - 1) as nat);
        lemma_norm_same_number(w, (scale - 1) as nat);
        assert(value == w * 10);
        assert(p10(scale) == 10 * p10((scale - 1) as nat)) by {
            reveal(pow);
        }
        let a = p10(s);
        let b = p10((scale - 1) as nat);
        assert(w * a == v * b);
        assert(value * a == v * p10(scale)) by (nonlinear_arith)
            requires
                value == w * 10,
                w * a == v * b,
                p10(scale) == 10 * b;
        assert(abs(w) <= abs(value));
        assert(w > 0 <==> value > 0);
        assert(w != 0);
        assert(norm(value, scale) == norm(w, (scale - 1) as nat));
        assert(value * p10(s) == v * p10(scale));
    } else {
        assert(norm(value, scale) == (value, scale));
    }
}

fn digits_of_magnitude(value: i128) -> (d: Vec<char>)
    requires
        value != i128::MIN,
    ensures
        d@ == decimal(abs(value as int)),
{
    let m: u128 = if value < 0 { (-value) as u128 } else { value as u128 };
    let mut s = String::new();
    push_decimal(&mut s, m);
    assert(Seq::<char>::empty() + decimal(m as nat) =~= decimal(m as nat));
    crate::text::chars_of(s.as_str())
}

/// The decimal text of `value / 10^scale` (see `render`).
pub fn render_number(value: i128, scale: u32) -> (s: String)
    requires
        value != i128::MIN,
    ensures
        s@ == render(value as int, scale as nat),
{
    let mut s = String::new();
    if value == 0 {
        push_str(&mut s, "0");
        return s;
    }
    if value < 0 {
        push_str(&mut s, "-");
    }
    let d = digits_of_magnitude(value);
    let len = d.len();
    let ghost pre = s@;
    if scale == 0 {
        let mut i: usize = 0;
        while i < len
            invariant
                len == d@.len(),
                0 <= i <= len,
                s@ == pre + d@.subrange(0, i as int),
            decreases len - i,
        {
            push_char(&mut s, d[i]);
            assert(d@.subrange(0, i + 1) == d@.subrange(0, i as int).push(d@[i as int]));
            i = i + 1;
        }
        assert(d@.subrange(0, len as int) == d@);
    } else if (len as u64) <= (scale as u64) {
        push_str(&mut s, "0.");
        let pad = scale as usize - len;
        let mut k: usize = 0;
        while k < pad
            invariant
                0 <= k <= pad,
                s@ == pre + "0."@ + zeros(k as nat),
            decreases pad - k,
        {
            push_char(&mut s, '0');
            k = k + 1;
        }
        let ghost pre2 = s@;
        let mut i: usize = 0;
        while i < len
            invariant
                len == d@.len(),
                0 <= i <= len,
                s@ == pre2 + d@.subrange(0, i as int),
            decreases len - i,
        {
            push_char(&mut s, d[i]);
            assert(d@.subrange(0, i + 1) == d@.subrange(0, i as int).push(d@[i as int]));
            i = i + 1;
        }
        assert(d@.subrange(0, len as int) == d@);
    } else {
        let split = len - scale as usize;
        let mut i: usize = 0;
        while i < len
            invariant
                len == d@.len(),
                0 < split < len,
                0 <= i <= len,
                i <= split ==> s@ == pre + d@.subrange(0, i as int),
                i > split ==> s@ == pre + d@.subrange(0, split as int) + "."@ + d@.subrange(split as int, i as int),
            decreases len - i,
        {
            if i == split {
                push_char(&mut s, '.');
                proof { reveal_strlit("."); }
            }
            push_char(&mut s, d[i]);
            proof {
                if i < split {
                    assert(d@.subrange(0, i + 1) == d@.subrange(0, i as int).push(d@[i as int]));
                } else if i == split {
                    assert(d@.subrange(split as int, i + 1) == seq![d@[i as int]]);
                    assert(s@ == pre + d@.subrange(0, split as int) + "."@ + d@.subrange(split as int, i + 1));
                } else {
                    assert(d@.subrange(split as int, i + 1) == d@.subrange(split as int, i as int).push(d@[i as int]));
                }
            }
            i = i + 1;
        }
        assert(d@.subrange(0, len as int) == d@);
    }
    proof {
        if value < 0 {
            assert(pre == "-"@);
        } else {
            assert(pre == Seq::<char>::empty());
        }
    }
    assert(s@ =~= render(value as int, scale as nat));
    s
}

} // verus!

verus! {

fn size_message(prefix: &str, size: u8) -> (m: String)
    ensures
        m@ == prefix@ + decimal(size as nat) + "'"@,
{
    let mut m = String::new();
    push_str(&mut m, prefix);
    push_decimal(&mut m, size as u128);
    push_str(&mut m, "'");
    m
}

impl OnfexDecimal {
    /// Builds the decimal `value / 10^scale` of the given size (16 or 64),
    /// normalised; fails when the size is neither or the value does not fit.
    pub fn new(value: i128, scale: u32, size: u8) -> (r: Result<Self, OnfexError>)
        requires
            !make_faults(value as int, size),
        ensures
            outcome(r, make(value as int, scale as nat, size)),
            r is Ok ==> r->Ok_0.wf(),
    {
        if !(size == 16 || size == 64) {
            return Err(OnfexError::runtime(size_message("Valt Ern: keonvald decmal seznev '", size)));
        }
        let mut result = OnfexDecimal { value, scale, size };
        result.normalize();
        proof { lemma_norm_same_number(value as int, scale as nat); }
        match result.check_size() {
            Ok(()) => Ok(result),
            Err(e) => Err(e),
        }
    }

    /// The decimal zero (64-bit).
    pub fn zero() -> (r: Self)
        ensures
            r == (OnfexDecimal { value: 0, scale: 0, size: 64 }),
            r.wf(),
    {
        OnfexDecimal { value: 0, scale: 0, size: 64 }
    }

    /// Zero with the given size; fails when the size is not 16 or 64.
    pub fn zero_with_size(size: u8) -> (r: Result<Self, OnfexError>)
        ensures
            outcome(r, make(0, 0, size)),
    {
        Self::new(0, 0, size)
    }

    /// The integer `value` as a 64-bit decimal.
    pub fn from_i128(value: i128) -> (r: Result<Self, OnfexError>)
        requires
            value != i128::MIN,
        ensures
            outcome(r, make(value as int, 0, 64)),
    {
        Self::new(value, 0, 64)
    }

    /// The integer `value` as a decimal of the given size.
    pub fn from_i128_with_size(value: i128, size: u8) -> (r: Result<Self, OnfexError>)
        requires
            !make_faults(value as int, size),
        ensures
            outcome(r, make(value as int, 0, size)),
    {
        Self::new(value, 0, size)
    }

    /// Fails when the size is not 16 or 64, or the value does not fit it.
    fn check_size(&self) -> (r: Result<(), OnfexError>)
        requires
            size_ok(self.size) ==> self.value != i128::MIN,
        ensures
            !size_ok(self.size) ==> outcome(r, Err(msg_invalid_size(self.size))),
            size_ok(self.size) && fits(self.value as int, self.size) ==> r is Ok,
            size_ok(self.size) && !fits(self.value as int, self.size) ==> outcome(
                r,
                Err(msg_out_of_range(self.value as int, self.scale as nat, self.size)),
            ),
    {
        let (min, max): (i128, i128) = if self.size == 16 {
            (-32768, 32767)
        } else if self.size == 64 {
            (-9223372036854775808, 9223372036854775807)
        } else {
            return Err(OnfexError::runtime(size_message("Valt Ern: invalid decimal size '", self.size)));
        };
        if self.value < min || self.value > max {
            let mut m = String::new();
            push_str(&mut m, "Valt Ern: decmal valtue '");
            let t = render_number(self.value, self.scale);
            push_str(&mut m, t.as_str());
            push_str(&mut m, "' asp intf '");
            push_decimal(&mut m, self.size as u128);
            push_str(&mut m, "' quad neat fertnosfer ");
            return Err(OnfexError::runtime(m));
        }
        Ok(())
    }

    /// Removes trailing zero digits after the point; zero gets scale 0. The
    /// number stays the same.
    pub fn normalize(&mut self)
        ensures
            (final(self).value as int, final(self).scale as nat) == norm(old(self).value as int, old(self).scale as nat),
            final(self).size == old(self).size,
    {
        if self.value == 0 {
            self.scale = 0;
            return;
        }
        while self.scale > 0 && self.value % 10 == 0
            invariant
                self.value != 0,
                self.size == old(self).size,
                norm(self.value as int, self.scale as nat) == norm(old(self).value as int, old(self).scale as nat),
            decreases self.scale,
        {
            self.value = self.value / 10;
            self.scale = self.scale - 1;
        }
    }

    /// `10^n`, or an error when it does not fit in `i128`.
    fn pow10(n: u32) -> (r: Result<i128, OnfexError>)
        ensures
            p10(n as nat) <= i128::MAX ==> r == Ok::<i128, OnfexError>(p10(n as nat) as i128),
            p10(n as nat) > i128::MAX ==> outcome(r, Err(msg_scale_too_big(n as nat))),
    {
        let mut acc: i128 = 1;
        let mut i: u32 = 0;
        proof { reveal(pow); }
        assert(p10(0) == 1);
        while i < n
            invariant
                0 <= i <= n,
                acc as int == p10(i as nat),
            decreases n - i,
        {
            proof {
                reveal(pow);
                assert(p10((i + 1) as nat) == 10 * p10(i as nat));
            }
            match acc.checked_mul(10) {
                Some(x) => {
                    acc = x;
                },
                None => {
                    proof { lemma_pow_grows(i as nat + 1, n as nat); }
                    let mut m = String::new();
                    push_str(&mut m, "Valt Ern: decmal skalnev '");
                    push_decimal(&mut m, n as u128);
                    push_str(&mut m, "' asp banev fras ");
                    return Err(OnfexError::runtime(m));
                },
            }
            i = i + 1;
        }
        Ok(acc)
    }
}

/// Ten to the eighteenth.
pub proof fn lemma_p10_18()
    ensures
        p10(18) == 1000000000000000000,
{
    reveal(pow);
    assert(p10(0) == 1);
    assert(p10(1) == 10);
    assert(p10(2) == 100);
    assert(p10(3) == 1000);
    assert(p10(4) == 10000);
    assert(p10(5) == 100000);
    assert(p10(6) == 1000000);
    assert(p10(7) == 10000000);
    assert(p10(8) == 100000000);
    assert(p10(9) == 1000000000);
    assert(p10(10) == 10000000000);
    assert(p10(11) == 100000000000);
    assert(p10(12) == 1000000000000);
    assert(p10(13) == 10000000000000);
    assert(p10(14) == 100000000000000);
    assert(p10(15) == 1000000000000000);
    assert(p10(16) == 10000000000000000);
    assert(p10(17) == 100000000000000000);
    assert(p10(18) == 1000000000000000000);
}

/// Euclidean division by a negative divisor, in terms of its magnitude.
proof fn lemma_negative_divisor(x: int, d: int)
    requires
        x >= 0,
        d < 0,
    ensures
        x / d == -(x / (-d)),
        x % d == x % (-d),
{
    let q = x / (-d);
    let r = x % (-d);
    vstd::arithmetic::div_mod::lemma_fundamental_div_mod(x, -d);
    assert(x == (-q) * d + r) by (nonlinear_arith)
        requires
            x == (-d) * q + r;
    assert(x / d == -q && x % d == r) by (nonlinear_arith)
        requires
            x == (-q) * d + r,
            0 <= r < -d,
            d < 0;
}

/// Rust's `/` and `%` on signed integers, as vstd states them through
/// Euclidean division, are the truncating `tdiv` and `trem`.
pub proof fn lemma_truncating(a: int, b: int)
    requires
        b != 0,
    ensures
        (if a >= 0 { a / b } else { -((-a) / b) }) == tdiv(a, b),
        (if a >= 0 { a % b } else { -((-a) % b) }) == trem(a, b),
        abs(tdiv(a, b)) <= abs(a),
        abs(trem(a, b)) < abs(b),
{
    let m = abs(a) as int;
    let n = abs(b) as int;
    if b < 0 {
        lemma_negative_divisor(m, b);
    }
    vstd::arithmetic::div_mod::lemma_fundamental_div_mod(m, n);
    assert(m / n <= m) by (nonlinear_arith)
        requires
            m >= 0,
            n >= 1,
            m == n * (m / n) + m % n,
            0 <= m % n;
}

/// Powers of ten grow with the exponent.
pub proof fn lemma_pow_grows(a: nat, b: nat)
    requires
        a <= b,
    ensures
        p10(a) <= p10(b),
        p10(a) > 0,
    decreases b - a,
{
    reveal(pow);
    vstd::arithmetic::power::lemma_pow_positive(10, a);
    if a < b {
        lemma_pow_grows(a, (b - 1) as nat);
        assert(p10(b) == 10 * p10((b - 1) as nat));
    }
}

} // verus!

verus! {

/// The outcome of bringing `a` and `b` to a common scale.
pub open spec fn align_outcome(r: Result<(i128, i128, u32), OnfexError>, a: OnfexDecimal, b: OnfexDecimal) -> bool {
    match (r, align_spec(a, b)) {
        (Ok((x, y, s)), Ok((x2, y2, s2))) => x == x2 && y == y2 && s == s2,
        (Err(e), Err(m)) => runtime_message(e) == Some(m),
        _ => false,
    }
}

/// Building a decimal from the aligned sum/difference would fault.
pub open spec fn aligned_faults(a: OnfexDecimal, b: OnfexDecimal, plus: bool) -> bool {
    match align_spec(a, b) {
        Ok((x, y, s)) => make_faults(if plus { x + y } else { x - y }, a.size),
        Err(_) => false,
    }
}

/// The remainder of the aligned values would overflow: the most negative
/// `i128` divided by -1.
pub open spec fn rem_faults(a: OnfexDecimal, b: OnfexDecimal) -> bool {
    b.value != 0 && match align_spec(a, b) {
        Ok((x, y, s)) => x == i128::MIN && y == -1,
        Err(_) => false,
    }
}

impl OnfexDecimal {
    /// Both values at the larger of the two scales.
    pub(crate) fn align(self, other: Self) -> (r: Result<(i128, i128, u32), OnfexError>)
        ensures
            align_outcome(r, self, other),
    {
        if self.scale == other.scale {
            return Ok((self.value, other.value, self.scale));
        }
        if self.scale > other.scale {
            let diff = self.scale - other.scale;
            let multiplier = match Self::pow10(diff) {
                Ok(m) => m,
                Err(e) => { return Err(e); },
            };
            proof { lemma_pow_grows(0, diff as nat); }
            assert(multiplier as int == p10(diff as nat));
            let other_value = match other.value.checked_mul(multiplier) {
                Some(value) => value,
                None => {
                    return Err(OnfexError::runtime(crate::text::owned("Valt Ern: decimal algernen esp opherflarnosan")));
                },
            };
            Ok((self.value, other_value, self.scale))
        } else {
            let diff = other.scale - self.scale;
            let multiplier = match Self::pow10(diff) {
                Ok(m) => m,
                Err(e) => { return Err(e); },
            };
            proof { lemma_pow_grows(0, diff as nat); }
            assert(multiplier as int == p10(diff as nat));
            let self_value = match self.value.checked_mul(multiplier) {
                Some(value) => value,
                None => {
                    return Err(OnfexError::runtime(crate::text::owned("Valt Ern: decimal alignment overflow")));
                },
            };
            Ok((self_value, other.value, other.scale))
        }
    }

    /// The sum (size of `self`).
    pub fn add(self, rhs: Self) -> (r: Result<Self, OnfexError>)
        requires
            !aligned_faults(self, rhs, true),
        ensures
            outcome(r, add_spec(self, rhs)),
    {
        let (a, b, scale) = match self.align(rhs) {
            Ok(t) => t,
            Err(e) => { return Err(e); },
        };
        let value = match a.checked_add(b) {
            Some(value) => value,
            None => {
                return Err(OnfexError::runtime(crate::text::owned("Valt Ern: decimal addition overflow")));
            },
        };
        Self::new(value, scale, self.size)
    }

    /// The difference (size of `self`).
    pub fn sub(self, rhs: Self) -> (r: Result<Self, OnfexError>)
        requires
            !aligned_faults(self, rhs, false),
        ensures
            outcome(r, sub_spec(self, rhs)),
    {
        let (a, b, scale) = match self.align(rhs) {
            Ok(t) => t,
            Err(e) => { return Err(e); },
        };
        let value = match a.checked_sub(b) {
            Some(value) => value,
            None => {
                return Err(OnfexError::runtime(crate::text::owned("Valt Ern: decimal subtraction overflow")));
            },
        };
        Self::new(value, scale, self.size)
    }

    /// The product (size of `self`).
    pub fn mul(self, rhs: Self) -> (r: Result<Self, OnfexError>)
        requires
            !make_faults(self.value * rhs.value, self.size),
        ensures
            outcome(r, mul_spec(self, rhs)),
    {
        let value = match self.value.checked_mul(rhs.value) {
            Some(value) => value,
            None => {
                return Err(OnfexError::runtime(crate::text::owned("Valt Ern: decimal multiplication overflow")));
            },
        };
        let scale = match self.scale.checked_add(rhs.scale) {
            Some(scale) => scale,
            None => {
                return Err(OnfexError::runtime(crate::text::owned("Valt Ern: decimal scale overflow")));
            },
        };
        Self::new(value, scale, self.size)
    }

    /// The quotient to eighteen decimal places, truncated (size of `self`).
    pub fn div(self, rhs: Self) -> (r: Result<Self, OnfexError>)
        ensures
            outcome(r, div_spec(self, rhs)),
    {
        if rhs.value == 0 {
            return Err(OnfexError::runtime(crate::text::owned("Valt Ern: ernen bron kleün")));
        }
        proof { lemma_p10_18(); }
        let multiplier = match Self::pow10(18) {
            Ok(m) => m,
            Err(e) => { return Err(e); },
        };
        let numerator = match self.value.checked_mul(multiplier) {
            Some(value) => value,
            None => {
                return Err(OnfexError::runtime(crate::text::owned("Valt Ern: decimal division overflow")));
            },
        };
        assert(numerator != i128::MIN) by {
            assert(numerator == self.value * 1000000000000000000);
        }
        let value = numerator / rhs.value;
        proof { lemma_truncating(numerator as int, rhs.value as int); }
        let scale = match self.scale.checked_add(18) {
            Some(x) => match x.checked_sub(rhs.scale) {
                Some(y) => y,
                None => {
                    return Err(OnfexError::runtime(crate::text::owned("Valt Ern: decimal scale overflow")));
                },
            },
            None => {
                return Err(OnfexError::runtime(crate::text::owned("Valt Ern: decimal scale overflow")));
            },
        };
        assert(value != i128::MIN);
        Self::new(value, scale, self.size)
    }

    /// The negation; fails on the most negative `i128`.
    pub fn neg(self) -> (r: Result<Self, OnfexError>)
        ensures
            outcome(r, neg_spec(self)),
    {
        if self.value == i128::MIN {
            return Err(OnfexError::runtime(crate::text::owned("Valt Ern: decimal negation overflow")));
        }
        let value = -self.value;
        Self::new(value, self.scale, self.size)
    }

    /// The remainder of the aligned values, its sign following `self` (size
    /// of `self`).
    pub fn rem(self, rhs: Self) -> (r: Result<Self, OnfexError>)
        requires
            !rem_faults(self, rhs),
        ensures
            outcome(r, rem_spec(self, rhs)),
    {
        if rhs.value == 0 {
            return Err(OnfexError::runtime(crate::text::owned("Valt Ern: division by zero")));
        }
        let (a, b, scale) = match self.align(rhs) {
            Ok(t) => t,
            Err(e) => { return Err(e); },
        };
        proof {
            if self.scale > rhs.scale {
                lemma_pow_grows(0, (self.scale - rhs.scale) as nat);
                assert(b != 0) by (nonlinear_arith)
                    requires
                        b == rhs.value * p10((self.scale - rhs.scale) as nat),
                        rhs.value != 0,
                        p10((self.scale - rhs.scale) as nat) > 0;
            }
            lemma_truncating(a as int, b as int);
        }
        let value = a % b;
        Self::new(value, scale, self.size)
    }

    /// The decimal text of this number (see `render`).
    pub fn to_string(&self) -> (s: String)
        requires
            self.value != i128::MIN,
        ensures
            s@ == render(self.value as int, self.scale as nat),
    {
        render_number(self.value, self.scale)
    }

    /// The same number with another size (16 or 64).
    pub fn with_size(self, size: u8) -> (r: Result<Self, OnfexError>)
        requires
            !make_faults(self.value as int, size),
        ensures
            outcome(r, make(self.value as int, self.scale as nat, size)),
    {
        Self::new(self.value, self.scale, size)
    }

    /// The size: 16 or 64 bits.
    pub fn size(&self) -> (s: u8)
        ensures
            s == self.size,
    {
        self.size
    }

    /// Changes the size; fails, leaving the decimal unchanged, when the size is
    /// not 16 or 64, and fails, with the size changed, when the value does not
    /// fit the new size.
    pub fn set_size(&mut self, sz: u8) -> (r: Result<(), OnfexError>)
        requires
            !make_faults(old(self).value as int, sz),
        ensures
            !size_ok(sz) ==> *final(self) == *old(self) && outcome(r, Err(msg_invalid_size(sz))),
            size_ok(sz) ==> *final(self) == (OnfexDecimal { size: sz, ..*old(self) }),
            size_ok(sz) && fits(old(self).value as int, sz) ==> r is Ok,
            size_ok(sz) && !fits(old(self).value as int, sz) ==> outcome(
                r,
                Err(msg_out_of_range(old(self).value as int, old(self).scale as nat, sz)),
            ),
    {
        if !(sz == 16 || sz == 64) {
            return Err(OnfexError::runtime(size_message("Valt Ern: invalid decimal size '", sz)));
        }
        self.size = sz;
        self.check_size()
    }
}

} // verus!

verus! {

/// The value of `a` written at the scale `a.scale + b.scale`: comparing
/// `cross(a, b)` with `cross(b, a)` compares the two numbers.
pub open spec fn cross(a: OnfexDecimal, b: OnfexDecimal) -> int {
    a.value * p10(b.scale as nat)
}

impl OnfexDecimal {
    /// No trailing zero digit after the point; zero has no decimal places.
    pub open spec fn is_normalized(&self) -> bool {
        normalized(self.value as int, self.scale as nat)
    }
}

/// A value scaled by a positive power of ten ends in the digit zero.
proof fn lemma_scaled_ends_in_zero(v: int, d: nat)
    requires
        d >= 1,
    ensures
        (v * p10(d)) % 10 == 0,
{
    reveal(pow);
    assert(p10(d) == 10 * p10((d - 1) as nat));
    let q = v * p10((d - 1) as nat);
    assert(v * p10(d) == 10 * q) by (nonlinear_arith)
        requires
            p10(d) == 10 * p10((d - 1) as nat),
            q == v * p10((d - 1) as nat);
    vstd::arithmetic::div_mod::lemma_mod_multiples_basic(q, 10);
}

/// Two normalised decimals of the same size whose values agree at a common
/// scale are the same.
pub proof fn lemma_aligned_equal_identical(a: OnfexDecimal, b: OnfexDecimal)
    requires
        a.is_normalized(),
        b.is_normalized(),
        a.size == b.size,
        align_spec(a, b) matches Ok((x, y, _)) && x == y,
    ensures
        a == b,
{
    if a.scale > b.scale {
        lemma_scaled_ends_in_zero(b.value as int, (a.scale - b.scale) as nat);
    } else if b.scale > a.scale {
        lemma_scaled_ends_in_zero(a.value as int, (b.scale - a.scale) as nat);
    }
}

/// Bringing two decimals to a common scale keeps their order.
pub proof fn lemma_align_keeps_order(a: OnfexDecimal, b: OnfexDecimal)
    requires
        align_spec(a, b) is Ok,
    ensures
        ({
            let (x, y, s) = align_spec(a, b)->Ok_0;
            &&& (x < y <==> cross(a, b) < cross(b, a))
            &&& (x == y <==> cross(a, b) == cross(b, a))
        }),
{
    let (x, y, s) = align_spec(a, b)->Ok_0;
    let pa = p10(a.scale as nat);
    let pb = p10(b.scale as nat);
    lemma_pow_grows(0, a.scale as nat);
    lemma_pow_grows(0, b.scale as nat);
    if a.scale == b.scale {
        assert(x < y <==> x * pb < y * pa) by (nonlinear_arith)
            requires pa == pb, pa > 0;
        assert(x == y <==> x * pb == y * pa) by (nonlinear_arith)
            requires pa == pb, pa > 0;
    } else if a.scale > b.scale {
        let d = (a.scale - b.scale) as nat;
        let pd = p10(d);
        vstd::arithmetic::power::lemma_pow_adds(10, d, b.scale as nat);
        assert(pa == pd * pb);
        assert(x < y <==> x * pb < y * pb) by (nonlinear_arith)
            requires pb > 0;
        assert(x == y <==> x * pb == y * pb) by (nonlinear_arith)
            requires pb > 0;
        assert(y * pb == b.value * pa) by (nonlinear_arith)
            requires y == b.value * pd, pa == pd * pb;
    } else {
        let d = (b.scale - a.scale) as nat;
        let pd = p10(d);
        vstd::arithmetic::power::lemma_pow_adds(10, d, a.scale as nat);
        assert(pb == pd * pa);
        assert(x < y <==> x * pa < y * pa) by (nonlinear_arith)
            requires pa > 0;
        assert(x == y <==> x * pa == y * pa) by (nonlinear_arith)
            requires pa > 0;
        assert(x * pa == a.value * pb) by (nonlinear_arith)
            requires x == a.value * pd, pb == pd * pa;
    }
}

} // verus!

verus! {

/// A decimal that is built successfully is well formed and stands for the
/// number it was built from: `value / 10^scale`.
pub proof fn law_make_keeps_number(value: int, scale: u32, size: u8)
    requires
        make(value, scale as nat, size) is Ok,
    ensures
        make(value, scale as nat, size)->Ok_0.wf(),
        value * p10(make(value, scale as nat, size)->Ok_0.scale as nat) == make(
            value,
            scale as nat,
            size,
        )->Ok_0.value * p10(scale as nat),
{
    lemma_norm_same_number(value, scale as nat);
}

/// Addition commutes for decimals of the same size: one order succeeds
/// exactly when the other does, with the same result.
pub proof fn law_add_commutes(a: OnfexDecimal, b: OnfexDecimal)
    requires
        a.size == b.size,
    ensures
        add_spec(a, b) is Ok <==> add_spec(b, a) is Ok,
        add_spec(a, b) is Ok ==> add_spec(a, b) == add_spec(b, a),
{
}

/// The sum is exact: `c = a + b` as numbers, that is
/// `c.value / 10^c.scale == (cross(a, b) + cross(b, a)) / 10^(a.scale + b.scale)`.
pub proof fn law_add_exact(a: OnfexDecimal, b: OnfexDecimal)
    requires
        add_spec(a, b) is Ok,
    ensures
        ({
            let c = add_spec(a, b)->Ok_0;
            c.value * p10((a.scale + b.scale) as nat) == (cross(a, b) + cross(b, a)) * p10(c.scale as nat)
        }),
{
    let (x, y, sc) = align_spec(a, b)->Ok_0;
    let c = add_spec(a, b)->Ok_0;
    lemma_norm_same_number(x + y, sc);
    let pc = p10(c.scale as nat);
    let pS = p10(sc);
    assert((x + y) * pc == c.value * pS);
    let pa = p10(a.scale as nat);
    let pb = p10(b.scale as nat);
    vstd::arithmetic::power::lemma_pow_adds(10, a.scale as nat, b.scale as nat);
    let pab = p10((a.scale + b.scale) as nat);
    assert(pab == pa * pb);
    if a.scale >= b.scale {
        if a.scale > b.scale {
            let d = (a.scale - b.scale) as nat;
            vstd::arithmetic::power::lemma_pow_adds(10, d, b.scale as nat);
            assert(pa == p10(d) * pb);
            assert(y == b.value * p10(d));
        } else {
            assert(y == b.value);
            assert(pa == pb);
            vstd::arithmetic::power::lemma_pow_adds(10, 0, b.scale as nat);
            assert(p10(0) == 1) by { reveal(pow); }
        }
        let pd = if a.scale > b.scale { p10((a.scale - b.scale) as nat) } else { 1 };
        assert(pa == pd * pb) by {
            if a.scale == b.scale { assert(pa == pb); }
        }
        assert(y == b.value * pd);
        assert(x == a.value);
        assert(sc == a.scale);
        let cv = c.value as int;
        let av = a.value as int;
        let bv = b.value as int;
        assert((x + y) * pb == av * pb + bv * pa) by (nonlinear_arith)
            requires
                pa == pd * pb,
                y == bv * pd,
                x == av;
        assert(cv * pab == cv * pS * pb) by (nonlinear_arith)
            requires
                pS == pa,
                pab == pa * pb;
        assert(cv * pS * pb == (x + y) * pc * pb) by (nonlinear_arith)
            requires
                (x + y) * pc == cv * pS;
        assert((x + y) * pc * pb == ((x + y) * pb) * pc) by (nonlinear_arith);
        assert(cross(a, b) + cross(b, a) == av * pb + bv * pa);
    } else {
        let d = (b.scale - a.scale) as nat;
        vstd::arithmetic::power::lemma_pow_adds(10, d, a.scale as nat);
        let pd = p10(d);
        assert(pb == pd * pa);
        assert(x == a.value * pd);
        assert(y == b.value);
        assert(sc == b.scale);
        let cv = c.value as int;
        let av = a.value as int;
        let bv = b.value as int;
        assert((x + y) * pa == av * pb + bv * pa) by (nonlinear_arith)
            requires
                pb == pd * pa,
                x == av * pd,
                y == bv;
        assert(cv * pab == cv * pS * pa) by (nonlinear_arith)
            requires
                pS == pb,
                pab == pa * pb;
        assert(cv * pS * pa == (x + y) * pc * pa) by (nonlinear_arith)
            requires
                (x + y) * pc == cv * pS;
        assert((x + y) * pc * pa == ((x + y) * pa) * pc) by (nonlinear_arith);
        assert(cross(a, b) + cross(b, a) == av * pb + bv * pa);
    }
}

/// The product is exact: `c.value / 10^c.scale` equals
/// `a.value * b.value / 10^(a.scale + b.scale)`.
pub proof fn law_mul_exact(a: OnfexDecimal, b: OnfexDecimal)
    requires
        mul_spec(a, b) is Ok,
    ensures
        ({
            let c = mul_spec(a, b)->Ok_0;
            c.value * p10((a.scale + b.scale) as nat) == a.value * b.value * p10(c.scale as nat)
        }),
{
    lemma_norm_same_number(a.value * b.value, (a.scale + b.scale) as nat);
}

/// Negating a well-formed decimal twice gives it back, whenever its negation
/// fits its size.
pub proof fn law_neg_twice(a: OnfexDecimal)
    requires
        a.wf(),
        fits(-a.value, a.size),
    ensures
        neg_spec(a) is Ok,
        neg_spec(neg_spec(a)->Ok_0) == Ok::<OnfexDecimal, Seq<char>>(a),
{
    assert(norm(-a.value, a.scale as nat) == (-a.value, a.scale as nat)) by {
        if a.value != 0 && a.scale > 0 {
            assert((-a.value) % 10 != 0) by (nonlinear_arith)
                requires
                    a.value % 10 != 0;
        }
    }
    let n = neg_spec(a)->Ok_0;
    assert(n.value == -a.value);
    assert(norm(a.value as int, a.scale as nat) == (a.value as int, a.scale as nat));
}

} // verus!
