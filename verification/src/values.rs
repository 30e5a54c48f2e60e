//! The typed value domain shared by storage and expression evaluation:
//! strings, decimal numbers and null.
//!
//! Numbers are kept exactly, as a sign, an integer mantissa and a decimal
//! scale: the value of `NumberValueType { neg, mant, scale }` is
//! `(-1)^neg * mant / 10^scale`. Two numbers are equal when their values
//! are, so `1.50` and `1.5` compare equal. Comparisons across variants,
//! and any ordering query that involves null, are incomparable and yield
//! no ordering at all.
use vstd::prelude::*;
use vstd::string::StrSliceExecFns;

verus! {

/// Result of comparing two values of the same variant.
#[derive(Clone, Copy, Debug, PartialEq, Eq, Structural)]
pub enum ValueOrdering {
    Less,
    Equal,
    Greater,
}

/// A string value.
#[derive(Debug)]
pub struct StringTypeValue {
    pub value: String,
}

/// An exact decimal number: `(-1)^neg * mant / 10^scale`, with `scale`
/// bounded so that cross-multiplied comparisons stay inside `i128`.
#[derive(Clone, Copy, Debug)]
pub struct NumberValueType {
    neg: bool,
    mant: u64,
    scale: u8,
}

/// Largest decimal scale a number may carry.
pub const MAX_SCALE: u8 = 18;

/// `10^e` over the integers.
pub open spec fn pow10(e: nat) -> int
    decreases e,
{
    if e == 0 {
        1
    } else {
        10 * pow10((e - 1) as nat)
    }
}

pub proof fn lemma_pow10_pos(e: nat)
    ensures
        pow10(e) >= 1,
    decreases e,
{
    if e > 0 {
        lemma_pow10_pos((e - 1) as nat);
    }
}

pub proof fn lemma_pow10_mono(i: nat, j: nat)
    requires
        i <= j,
    ensures
        pow10(i) <= pow10(j),
    decreases j,
{
    if i < j {
        lemma_pow10_mono(i, (j - 1) as nat);
        lemma_pow10_pos((j - 1) as nat);
    }
}

/// `10^e` as a machine integer, for scales a number may carry.
fn pow10_u64(e: u8) -> (r: u64)
    requires
        e <= MAX_SCALE,
    ensures
        r as int == pow10(e as nat),
        1 <= r <= 1_000_000_000_000_000_000,
{
    let mut r: u64 = 1;
    let mut i: u8 = 0;
    while i < e
        invariant
            i <= e <= MAX_SCALE,
            r as int == pow10(i as nat),
        decreases e - i,
    {
        proof {
            lemma_pow10_mono(i as nat, 17);
            reveal_with_fuel(pow10, 19);
            assert(pow10(17) == 100_000_000_000_000_000);
        }
        r = r * 10;
        i = i + 1;
    }
    proof {
        lemma_pow10_mono(e as nat, 18);
        lemma_pow10_pos(e as nat);
        reveal_with_fuel(pow10, 19);
        assert(pow10(18) == 1_000_000_000_000_000_000);
    }
    r
}

impl NumberValueType {
    #[verifier::type_invariant]
    spec fn bounded_scale(self) -> bool {
        self.scale <= MAX_SCALE
    }

    /// The signed integer numerator of this number.
    pub closed spec fn numerator(self) -> int {
        if self.neg {
            -(self.mant as int)
        } else {
            self.mant as int
        }
    }

    /// The number of decimal places: the value is `numerator / 10^denom_exp`.
    pub closed spec fn denom_exp(self) -> nat {
        self.scale as nat
    }

    /// Builds a number from its parts; rejects a scale too large to compare.
    pub fn from_parts(neg: bool, mant: u64, scale: u8) -> (r: Option<NumberValueType>)
        ensures
            scale <= MAX_SCALE <==> r is Some,
            match r {
                Some(n) => n.numerator() == (if neg { -(mant as int) } else { mant as int })
                    && n.denom_exp() == scale as nat,
                None => true,
            },
    {
        if scale <= MAX_SCALE {
            Some(NumberValueType { neg, mant, scale })
        } else {
            None
        }
    }

    /// The whole number `n`.
    pub fn from_u64(n: u64) -> (r: NumberValueType)
        ensures
            r.numerator() == n as int,
            r.denom_exp() == 0,
    {
        NumberValueType { neg: false, mant: n, scale: 0 }
    }

    /// Whether the sign is negative; for a zero mantissa the sign
    /// carries no meaning and either answer denotes the same number.
    pub fn is_negative(&self) -> (r: bool)
        ensures
            self.numerator() != 0 ==> r == (self.numerator() < 0),
    {
        self.neg
    }

    pub fn mantissa(&self) -> (r: u64)
        ensures
            r as int == (if self.numerator() < 0 {
                -self.numerator()
            } else {
                self.numerator()
            }),
    {
        self.mant
    }

    pub fn scale(&self) -> (r: u8)
        ensures
            r as nat == self.denom_exp(),
    {
        self.scale
    }
}

/// Order of two numbers, by their exact values: `a/10^s` against `b/10^t`
/// compares as `a * 10^t` against `b * 10^s`.
pub open spec fn spec_number_cmp(a: NumberValueType, b: NumberValueType) -> ValueOrdering {
    let x = a.numerator() * pow10(b.denom_exp());
    let y = b.numerator() * pow10(a.denom_exp());
    if x < y {
        ValueOrdering::Less
    } else if x == y {
        ValueOrdering::Equal
    } else {
        ValueOrdering::Greater
    }
}

pub open spec fn spec_number_eq(a: NumberValueType, b: NumberValueType) -> bool {
    spec_number_cmp(a, b) == ValueOrdering::Equal
}

impl NumberValueType {
    /// Compares two numbers by their exact decimal values.
    pub fn compare(&self, other: &NumberValueType) -> (r: ValueOrdering)
        ensures
            r == spec_number_cmp(*self, *other),
    {
        proof {
            use_type_invariant(*self);
            use_type_invariant(*other);
        }
        let pa = pow10_u64(self.scale);
        let pb = pow10_u64(other.scale);
        proof {
            assert((self.mant as u128) * (pb as u128) <= 0x7fff_ffff_ffff_ffff_ffff_ffff_ffff_ffffu128
                && (other.mant as u128) * (pa as u128)
                    <= 0x7fff_ffff_ffff_ffff_ffff_ffff_ffff_ffffu128) by (nonlinear_arith)
                requires
                    self.mant <= u64::MAX,
                    other.mant <= u64::MAX,
                    1 <= pa <= 1_000_000_000_000_000_000,
                    1 <= pb <= 1_000_000_000_000_000_000,
            ;
        }
        // magnitudes of the two cross-multiplied sides
        let ma: u128 = (self.mant as u128) * (pb as u128);
        let mb: u128 = (other.mant as u128) * (pa as u128);
        proof {
            lemma_signed_magnitude(self.numerator(), pb as int, ma as int);
            lemma_signed_magnitude(other.numerator(), pa as int, mb as int);
        }
        if self.mant == 0 && other.mant == 0 {
            ValueOrdering::Equal
        } else if self.mant == 0 {
            if other.neg {
                ValueOrdering::Greater
            } else {
                ValueOrdering::Less
            }
        } else if other.mant == 0 {
            if self.neg {
                ValueOrdering::Less
            } else {
                ValueOrdering::Greater
            }
        } else if self.neg && !other.neg {
            ValueOrdering::Less
        } else if !self.neg && other.neg {
            ValueOrdering::Greater
        } else if !self.neg {
            // both positive
            if ma < mb {
                ValueOrdering::Less
            } else if ma == mb {
                ValueOrdering::Equal
            } else {
                ValueOrdering::Greater
            }
        } else {
            // both negative: the larger magnitude is the smaller value
            if mb < ma {
                ValueOrdering::Less
            } else if ma == mb {
                ValueOrdering::Equal
            } else {
                ValueOrdering::Greater
            }
        }
    }
}

/// Lexicographic order on character sequences, by code point; a proper
/// prefix comes before every extension of it.
pub open spec fn str_lt(a: Seq<char>, b: Seq<char>) -> bool
    decreases a.len(),
{
    if b.len() == 0 {
        false
    } else if a.len() == 0 {
        true
    } else if a[0] != b[0] {
        (a[0] as u32) < (b[0] as u32)
    } else {
        str_lt(a.skip(1), b.skip(1))
    }
}

/// A common prefix does not decide the order: it is decided by what follows.
proof fn lemma_str_lt_skip(a: Seq<char>, b: Seq<char>, i: int)
    requires
        0 <= i <= a.len(),
        i <= b.len(),
        forall|j: int| 0 <= j < i ==> a[j] == b[j],
    ensures
        str_lt(a, b) == str_lt(a.skip(i), b.skip(i)),
    decreases i,
{
    if i > 0 {
        lemma_str_lt_skip(a.skip(1), b.skip(1), i - 1);
        assert(a.skip(1).skip(i - 1) =~= a.skip(i));
        assert(b.skip(1).skip(i - 1) =~= b.skip(i));
    } else {
        assert(a.skip(0) =~= a);
        assert(b.skip(0) =~= b);
    }
}

/// Compares two strings lexicographically by code point.
pub fn string_cmp(a: &String, b: &String) -> (r: ValueOrdering)
    ensures
        (r == ValueOrdering::Less) == str_lt(a@, b@),
        (r == ValueOrdering::Equal) == (a@ == b@),
        (r == ValueOrdering::Greater) == str_lt(b@, a@),
{
    let la = a.as_str().unicode_len();
    let lb = b.as_str().unicode_len();
    let mut i: usize = 0;
    while i < la && i < lb
        invariant
            i <= la == a@.len(),
            i <= lb == b@.len(),
            forall|j: int| 0 <= j < i ==> a@[j] == b@[j],
        decreases la - i,
    {
        let ca = a.as_str().get_char(i);
        let cb = b.as_str().get_char(i);
        if ca != cb {
            proof {
                lemma_str_lt_skip(a@, b@, i as int);
                lemma_str_lt_skip(b@, a@, i as int);
                assert(a@.skip(i as int)[0] == a@[i as int]);
                assert(b@.skip(i as int)[0] == b@[i as int]);
            }
            if (ca as u32) < (cb as u32) {
                return ValueOrdering::Less;
            } else {
                return ValueOrdering::Greater;
            }
        }
        i = i + 1;
    }
    proof {
        lemma_str_lt_skip(a@, b@, i as int);
        lemma_str_lt_skip(b@, a@, i as int);
        if la == lb {
            assert(a@ =~= b@);
        }
    }
    if la == lb {
        ValueOrdering::Equal
    } else if la < lb {
        ValueOrdering::Less
    } else {
        ValueOrdering::Greater
    }
}

/// Relates a signed product to the product of its magnitude: for `p > 0`,
/// `n * p` has the sign of `n` and magnitude `|n| * p`.
proof fn lemma_signed_magnitude(n: int, p: int, m: int)
    requires
        p >= 1,
        m == (if n < 0 {
            -n
        } else {
            n
        }) * p,
    ensures
        n > 0 ==> n * p == m && m > 0,
        n == 0 ==> n * p == 0 && m == 0,
        n < 0 ==> n * p == -m && m > 0,
{
    assert(n > 0 ==> n * p == m && m > 0) by (nonlinear_arith)
        requires
            p >= 1,
            m == (if n < 0 { -n } else { n }) * p,
    ;
    assert(n == 0 ==> n * p == 0 && m == 0) by (nonlinear_arith)
        requires
            p >= 1,
            m == (if n < 0 { -n } else { n }) * p,
    ;
    assert(n < 0 ==> n * p == -m && m > 0) by (nonlinear_arith)
        requires
            p >= 1,
            m == (if n < 0 { -n } else { n }) * p,
    ;
}

pub open spec fn is_digit_char(c: char) -> bool {
    48 <= c as u32 <= 57
}

/// The value of a decimal digit character.
pub open spec fn digit_val(c: char) -> int {
    c as u32 - 48
}

/// The integer a sequence of decimal digits denotes, most significant first.
pub open spec fn digits_val(s: Seq<char>) -> int
    decreases s.len(),
{
    if s.len() == 0 {
        0
    } else {
        digits_val(s.drop_last()) * 10 + digit_val(s.last())
    }
}

pub open spec fn all_digits(s: Seq<char>) -> bool {
    forall|i: int| 0 <= i < s.len() ==> is_digit_char(s[i])
}

proof fn lemma_digits_val_nonneg(s: Seq<char>)
    requires
        all_digits(s),
    ensures
        digits_val(s) >= 0,
    decreases s.len(),
{
    if s.len() > 0 {
        assert(all_digits(s.drop_last()));
        lemma_digits_val_nonneg(s.drop_last());
    }
}

/// Appending digits never shrinks the denoted integer.
proof fn lemma_digits_val_prefix(s: Seq<char>, i: int)
    requires
        all_digits(s),
        0 <= i <= s.len(),
    ensures
        digits_val(s.take(i)) <= digits_val(s),
    decreases s.len(),
{
    if i == s.len() {
        assert(s.take(i) =~= s);
    } else {
        assert(all_digits(s.drop_last()));
        assert(s.take(i) =~= s.drop_last().take(i));
        lemma_digits_val_prefix(s.drop_last(), i);
        lemma_digits_val_nonneg(s.drop_last());
    }
}

/// Index of the first `.` in `s` at or after `i`; `s.len()` if there is none.
pub open spec fn find_dot(s: Seq<char>, i: int) -> int
    decreases s.len() - i,
{
    if i < 0 || i >= s.len() {
        s.len() as int
    } else if s[i] == '.' {
        i
    } else {
        find_dot(s, i + 1)
    }
}

proof fn lemma_find_dot_at(s: Seq<char>, i: int, k: int)
    requires
        0 <= i <= k <= s.len(),
        forall|j: int| i <= j < k ==> s[j] != '.',
        k < s.len() ==> s[k] == '.',
    ensures
        find_dot(s, i) == if k < s.len() {
            k
        } else {
            s.len() as int
        },
    decreases k - i,
{
    if i < k {
        lemma_find_dot_at(s, i + 1, k);
    }
}

/// What a numeric literal denotes: an optional sign, then decimal digits
/// with at most one point and at least one digit. The result is the sign,
/// the digits read as one integer, and the count of fractional digits, so
/// the denoted value is `(-1)^sign * digits / 10^frac`.
/// The literal with its optional sign stripped.
pub open spec fn parse_tail(s: Seq<char>) -> Seq<char> {
    if s.len() > 0 && (s[0] == '-' || s[0] == '+') {
        s.skip(1)
    } else {
        s
    }
}

pub open spec fn spec_parse_number(s: Seq<char>) -> Option<(bool, int, nat)> {
    let neg = s.len() > 0 && s[0] == '-';
    let t = parse_tail(s);
    let d = find_dot(t, 0);
    let intd = t.take(d);
    let fracd = if d < t.len() {
        t.skip(d + 1)
    } else {
        Seq::empty()
    };
    if all_digits(intd) && all_digits(fracd) && intd.len() + fracd.len() >= 1 {
        Some((neg, digits_val(intd + fracd), fracd.len()))
    } else {
        None
    }
}
proof fn lemma_find_dot_range(s: Seq<char>, i: int)
    requires
        0 <= i <= s.len(),
    ensures
        i <= find_dot(s, i) <= s.len(),
        find_dot(s, i) < s.len() ==> s[find_dot(s, i)] == '.',
    decreases s.len() - i,
{
    if i < s.len() && s[i] != '.' {
        lemma_find_dot_range(s, i + 1);
    }
}

proof fn lemma_find_dot_ge(s: Seq<char>, i: int, k: int)
    requires
        0 <= i <= k <= s.len(),
        forall|j: int| i <= j < k ==> s[j] != '.',
    ensures
        find_dot(s, i) >= k,
    decreases k - i,
{
    lemma_find_dot_range(s, i);
    if i < k {
        lemma_find_dot_ge(s, i + 1, k);
    }
}

/// Bridges a scan prefix to the spec decomposition: positions of the tail
/// are positions of the whole string shifted by the sign, and the first
/// point of the tail is where the scan saw it.
proof fn lemma_parse_decompose(s: Seq<char>, start: int, i: int, dot_idx: int, seen_dot: bool)
    requires
        0 <= start <= 1,
        start <= i <= s.len(),
        (start == 1) == (s.len() > 0 && (s[0] == '-' || s[0] == '+')),
        !seen_dot ==> forall|j: int| start <= j < i ==> #[trigger] s[j] != '.',
        seen_dot ==> start <= dot_idx < i && s[dot_idx] == '.' && (forall|j: int|
            start <= j < dot_idx ==> #[trigger] s[j] != '.'),
    ensures
        ({
            let t = parse_tail(s);
            let d = find_dot(t, 0);
            &&& t.len() == s.len() - start
            &&& (forall|j: int| 0 <= j < t.len() ==> #[trigger] t[j] == s[j + start])
            &&& 0 <= d <= t.len()
            &&& (seen_dot ==> d == dot_idx - start)
            &&& (!seen_dot ==> d >= i - start)
        }),
{
    let t = parse_tail(s);
    if start == 1 {
        assert(t =~= s.skip(1));
    } else {
        assert(t =~= s);
    }
    assert(t.len() == s.len() - start);
    assert forall|j: int| 0 <= j < t.len() implies #[trigger] t[j] == s[j + start] by {}
    lemma_find_dot_range(t, 0);
    if seen_dot {
        assert forall|j: int| 0 <= j < dot_idx - start implies #[trigger] t[j] != '.' by {
            assert(t[j] == s[j + start]);
        }
        assert(t[dot_idx - start] == s[dot_idx]);
        lemma_find_dot_at(t, 0, dot_idx - start);
    } else {
        assert forall|j: int| 0 <= j < i - start implies #[trigger] t[j] != '.' by {
            assert(t[j] == s[j + start]);
        }
        lemma_find_dot_ge(t, 0, i - start);
    }
}

/// The number value with the given sign, mantissa and scale.
pub closed spec fn spec_number_from_parts(neg: bool, mant: int, scale: nat) -> NumberValueType {
    NumberValueType { neg, mant: mant as u64, scale: scale as u8 }
}

/// What the parts of a number value mean, for parts in range.
pub proof fn lemma_number_from_parts(neg: bool, mant: int, scale: nat)
    requires
        0 <= mant <= u64::MAX,
        scale <= MAX_SCALE,
    ensures
        spec_number_from_parts(neg, mant, scale).numerator() == (if neg {
            -mant
        } else {
            mant
        }),
        spec_number_from_parts(neg, mant, scale).denom_exp() == scale,
{
}

/// The number a literal denotes, when its parts fit the machine
/// representation; nothing otherwise.
pub open spec fn spec_parse_to_number(s: Seq<char>) -> Option<NumberValueType> {
    match spec_parse_number(s) {
        Some(p) => if p.1 <= u64::MAX as int && p.2 <= MAX_SCALE as nat {
            Some(spec_number_from_parts(p.0, p.1, p.2))
        } else {
            None
        },
        None => None,
    }
}

/// Parses a numeric literal into an exact decimal number. Fails on anything
/// that is not sign-digits-point-digits, on a mantissa beyond `u64`, and on
/// more than `MAX_SCALE` fractional digits.
#[verifier::rlimit(100)]
pub fn parse_number_literal(s: &str) -> (r: Option<NumberValueType>)
    ensures
        r == spec_parse_to_number(s@),
{
    let n = s.unicode_len();
    let mut start: usize = 0;
    let mut neg = false;
    if n > 0 {
        let c0 = s.get_char(0);
        if c0 == '-' {
            neg = true;
            start = 1;
        } else if c0 == '+' {
            start = 1;
        }
    }
    let mut i: usize = start;
    let mut mant: u64 = 0;
    let mut ndigits: usize = 0;
    let mut fracd: u8 = 0;
    let mut seen_dot = false;
    let ghost mut dot_idx: int = 0;
    while i < n
        invariant
            n == s@.len(),
            start <= i <= n,
            start <= 1,
            neg == (s@.len() > 0 && s@[0] == '-'),
            (start == 1) == (s@.len() > 0 && (s@[0] == '-' || s@[0] == '+')),
            !seen_dot ==> {
                &&& forall|j: int|
                    start <= j < i ==> is_digit_char(#[trigger] s@[j]) && s@[j] != '.'
                &&& mant as int == digits_val(s@.subrange(start as int, i as int))
                &&& ndigits == i - start
                &&& fracd == 0
            },
            seen_dot ==> {
                &&& start <= dot_idx < i
                &&& s@[dot_idx] == '.'
                &&& forall|j: int|
                    start <= j < dot_idx ==> is_digit_char(#[trigger] s@[j]) && s@[j] != '.'
                &&& forall|j: int| dot_idx < j < i ==> is_digit_char(#[trigger] s@[j])
                &&& mant as int == digits_val(
                    s@.subrange(start as int, dot_idx) + s@.subrange(dot_idx + 1, i as int),
                )
                &&& fracd as int == i - dot_idx - 1
                &&& fracd <= MAX_SCALE
                &&& ndigits == i - start - 1
            },
        decreases n - i,
    {
        let c = s.get_char(i);
        let u = c as u32;
        if c == '.' {
            if seen_dot {
                proof {
                    lemma_parse_decompose(s@, start as int, i as int, dot_idx, true);
                    let tt = parse_tail(s@);
                    let dstar = find_dot(tt, 0);
                    let fr = tt.skip(dstar + 1);
                    assert(fr[i - dot_idx - 1] == tt[i - start]);
                    assert(tt[i - start] == s@[i as int]);
                    assert(!all_digits(fr)) by {
                        assert(!is_digit_char(fr[i - dot_idx - 1]));
                    }
                    assert(spec_parse_number(s@) is None);
                }
                return None;
            }
            seen_dot = true;
            proof {
                dot_idx = i as int;
            }
        } else if 48 <= u && u <= 57 {
            let ghost prefix_digits = if seen_dot {
                s@.subrange(start as int, dot_idx) + s@.subrange(dot_idx + 1, i as int)
            } else {
                s@.subrange(start as int, i as int)
            };
            let ghost new_digits = prefix_digits + seq![c];
            proof {
                assert(digits_val(new_digits) == digits_val(prefix_digits) * 10 + digit_val(c))
                    by {
                    assert(new_digits.drop_last() =~= prefix_digits);
                    assert(new_digits.last() == c);
                }
            }
            let d = (u - 48) as u64;
            let big = match mant.checked_mul(10) {
                Some(m10) => m10.checked_add(d),
                None => None,
            };
            match big {
                None => {
                    proof {
                        lemma_parse_decompose(s@, start as int, i as int, dot_idx, seen_dot);
                        let tt = parse_tail(s@);
                        let dstar = find_dot(tt, 0);
                        if spec_parse_number(s@) is Some {
                            let intd = tt.take(dstar);
                            let frd = if dstar < tt.len() {
                                tt.skip(dstar + 1)
                            } else {
                                Seq::<char>::empty()
                            };
                            let dd = intd + frd;
                            assert forall|k: int| 0 <= k < dd.len() implies is_digit_char(
                                #[trigger] dd[k],
                            ) by {
                                if k < intd.len() {
                                    assert(dd[k] == intd[k]);
                                } else {
                                    assert(dd[k] == frd[k - intd.len()]);
                                }
                            }
                            assert(all_digits(dd));
                            if !seen_dot {
                                assert(tt[i - start] == s@[i as int]);
                                assert forall|j: int| 0 <= j < i + 1 - start implies #[trigger] tt[j]
                                    != '.' by {
                                    assert(tt[j] == s@[j + start]);
                                }
                                lemma_find_dot_ge(tt, 0, i + 1 - start);
                            }
                            assert(new_digits.len() <= dd.len());
                            assert(dd.take(new_digits.len() as int) =~= new_digits);
                            lemma_digits_val_prefix(dd, new_digits.len() as int);
                        }
                    }
                    return None;
                },
                Some(m) => {
                    if seen_dot {
                        if fracd == MAX_SCALE {
                            proof {
                                lemma_parse_decompose(s@, start as int, i as int, dot_idx, true);
                                let tt = parse_tail(s@);
                                let dstar = find_dot(tt, 0);
                                if spec_parse_number(s@) is Some {
                                    let frd = tt.skip(dstar + 1);
                                    assert(frd.len() == n - dot_idx - 1);
                                    assert(frd.len() > MAX_SCALE as int);
                                }
                            }
                            return None;
                        }
                        fracd = fracd + 1;
                    }
                    mant = m;
                    ndigits = ndigits + 1;
                    proof {
                        if seen_dot {
                            assert(s@.subrange(start as int, dot_idx) + s@.subrange(
                                dot_idx + 1,
                                i as int + 1,
                            ) =~= new_digits);
                        } else {
                            assert(s@.subrange(start as int, i as int + 1) =~= new_digits);
                        }
                    }
                },
            }
        } else {
            proof {
                lemma_parse_decompose(s@, start as int, i as int, dot_idx, seen_dot);
                let tt = parse_tail(s@);
                let dstar = find_dot(tt, 0);
                if seen_dot {
                    let frd = tt.skip(dstar + 1);
                    assert(frd[i - dot_idx - 1] == tt[i - start]);
                    assert(tt[i - start] == s@[i as int]);
                    assert(!all_digits(frd)) by {
                        assert(!is_digit_char(frd[i - dot_idx - 1]));
                    }
                } else {
                    assert forall|j: int| 0 <= j < i + 1 - start implies #[trigger] tt[j]
                        != '.' by {
                        assert(tt[j] == s@[j + start]);
                    }
                    lemma_find_dot_ge(tt, 0, i + 1 - start);
                    let intd = tt.take(dstar);
                    assert(intd[i - start] == tt[i - start]);
                    assert(tt[i - start] == s@[i as int]);
                    assert(!all_digits(intd)) by {
                        assert(!is_digit_char(intd[i - start]));
                    }
                }
                assert(spec_parse_number(s@) is None);
            }
            return None;
        }
        i = i + 1;
    }
    if ndigits == 0 {
        proof {
            lemma_parse_decompose(s@, start as int, i as int, dot_idx, seen_dot);
            let tt = parse_tail(s@);
            let dstar = find_dot(tt, 0);
            if seen_dot {
                assert(tt.take(dstar).len() == 0);
                assert(dstar < tt.len());
                assert(tt.skip(dstar + 1).len() == 0);
            } else {
                assert(tt.len() == 0);
                assert(tt.take(dstar).len() == 0);
            }
            assert(spec_parse_number(s@) is None);
        }
        return None;
    }
    proof {
        lemma_parse_decompose(s@, start as int, i as int, dot_idx, seen_dot);
        let tt = parse_tail(s@);
        let dstar = find_dot(tt, 0);
        let intd = tt.take(dstar);
        let frd = if dstar < tt.len() {
            tt.skip(dstar + 1)
        } else {
            Seq::<char>::empty()
        };
        if seen_dot {
            assert(dstar < tt.len());
            assert(intd =~= s@.subrange(start as int, dot_idx));
            assert(frd =~= s@.subrange(dot_idx + 1, n as int));
            assert forall|k: int| 0 <= k < intd.len() implies is_digit_char(
                #[trigger] intd[k],
            ) by {
                assert(intd[k] == s@[start + k]);
            }
            assert forall|k: int| 0 <= k < frd.len() implies is_digit_char(#[trigger] frd[k]) by {
                assert(frd[k] == s@[dot_idx + 1 + k]);
            }
            assert(intd + frd =~= s@.subrange(start as int, dot_idx) + s@.subrange(
                dot_idx + 1,
                n as int,
            ));
        } else {
            assert forall|j: int| 0 <= j < n - start implies #[trigger] tt[j] != '.' by {
                assert(tt[j] == s@[j + start]);
            }
            lemma_find_dot_ge(tt, 0, n - start);
            assert(dstar == tt.len());
            assert(intd =~= tt);
            assert(frd.len() == 0);
            assert forall|k: int| 0 <= k < intd.len() implies is_digit_char(
                #[trigger] intd[k],
            ) by {
                assert(intd[k] == s@[start + k]);
            }
            assert(intd + frd =~= s@.subrange(start as int, n as int));
        }
    }
    Some(NumberValueType { neg, mant, scale: fracd })
}
/// The value domain: a string, an exact decimal number, or null.
#[derive(Debug)]
pub enum TypeValue {
    StringTypeValue(StringTypeValue),
    NumberValueType(NumberValueType),
    NullValueType,
}

/// Whether two values are of the same variant.
pub open spec fn same_variant(a: TypeValue, b: TypeValue) -> bool {
    match (a, b) {
        (TypeValue::StringTypeValue(_), TypeValue::StringTypeValue(_)) => true,
        (TypeValue::NumberValueType(_), TypeValue::NumberValueType(_)) => true,
        (TypeValue::NullValueType, TypeValue::NullValueType) => true,
        _ => false,
    }
}

/// Value equality: same variant and equal content; null equals only null.
/// Numbers compare by value, so `1.50` equals `1.5`.
pub open spec fn spec_type_value_eq(a: TypeValue, b: TypeValue) -> bool {
    match (a, b) {
        (TypeValue::StringTypeValue(x), TypeValue::StringTypeValue(y)) => x.value@ == y.value@,
        (TypeValue::NumberValueType(x), TypeValue::NumberValueType(y)) => spec_number_eq(x, y),
        (TypeValue::NullValueType, TypeValue::NullValueType) => true,
        _ => false,
    }
}

/// Value order: strings lexicographically, numbers by value; every other
/// pairing, null included, is incomparable and has no order.
pub open spec fn spec_type_value_cmp(a: TypeValue, b: TypeValue) -> Option<ValueOrdering> {
    match (a, b) {
        (TypeValue::StringTypeValue(x), TypeValue::StringTypeValue(y)) => Some(
            if str_lt(x.value@, y.value@) {
                ValueOrdering::Less
            } else if x.value@ == y.value@ {
                ValueOrdering::Equal
            } else {
                ValueOrdering::Greater
            },
        ),
        (TypeValue::NumberValueType(x), TypeValue::NumberValueType(y)) => Some(
            spec_number_cmp(x, y),
        ),
        _ => None,
    }
}

/// Values of differing variants are never equal (null/null aside, which is
/// the same variant), and no ordering relates them.
pub proof fn lemma_cross_variant_incomparable(a: TypeValue, b: TypeValue)
    requires
        !same_variant(a, b),
    ensures
        !spec_type_value_eq(a, b),
        spec_type_value_cmp(a, b) is None,
{
}

/// Decides value equality.
pub fn type_value_eq(a: &TypeValue, b: &TypeValue) -> (r: bool)
    ensures
        r == spec_type_value_eq(*a, *b),
{
    match (a, b) {
        (TypeValue::StringTypeValue(x), TypeValue::StringTypeValue(y)) => x.value == y.value,
        (TypeValue::NumberValueType(x), TypeValue::NumberValueType(y)) => match x.compare(y) {
            ValueOrdering::Equal => true,
            _ => false,
        },
        (TypeValue::NullValueType, TypeValue::NullValueType) => true,
        _ => false,
    }
}

/// Decides the value order; `None` for an incomparable pair.
pub fn type_value_partial_cmp(a: &TypeValue, b: &TypeValue) -> (r: Option<ValueOrdering>)
    ensures
        r == spec_type_value_cmp(*a, *b),
{
    match (a, b) {
        (TypeValue::StringTypeValue(x), TypeValue::StringTypeValue(y)) => Some(
            string_cmp(&x.value, &y.value),
        ),
        (TypeValue::NumberValueType(x), TypeValue::NumberValueType(y)) => Some(x.compare(y)),
        _ => None,
    }
}

impl TypeValue {
    /// An owned copy of this value.
    pub fn duplicate(&self) -> (r: TypeValue)
        ensures
            r == *self,
    {
        match self {
            TypeValue::StringTypeValue(s) => TypeValue::StringTypeValue(
                StringTypeValue { value: s.value.clone() },
            ),
            TypeValue::NumberValueType(n) => TypeValue::NumberValueType(*n),
            TypeValue::NullValueType => TypeValue::NullValueType,
        }
    }
}

impl PartialEq for TypeValue {
    fn eq(&self, other: &TypeValue) -> (r: bool) {
        type_value_eq(self, other)
    }
}

impl vstd::std_specs::cmp::PartialEqSpecImpl for TypeValue {
    open spec fn obeys_eq_spec() -> bool {
        true
    }

    open spec fn eq_spec(&self, other: &TypeValue) -> bool {
        spec_type_value_eq(*self, *other)
    }
}

} // verus!
