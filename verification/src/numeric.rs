//! Numbers: IEEE-754 double-precision values carried as their 64-bit
//! encodings.
//!
//! Arithmetic and comparison on *small integers* — values that are exactly
//! an integer of magnitude below 2^53 — are computed in verified code and
//! specified exactly: on such values every IEEE operation is exact, so
//! integer arithmetic on the decoded values is the floating-point result,
//! with one care taken for the sign of zero: a zero product or quotient is
//! negative when the operand signs differ, and a zero remainder takes the
//! dividend's sign, exactly as IEEE prescribes.
//! Everything else (fractions, huge values, infinities, NaNs, decimal
//! parsing and printing) is delegated to the `rustc_apfloat` software
//! floating-point library behind trusted wrappers whose results are named
//! by uninterpreted functions.

use vstd::prelude::*;

use rustc_apfloat::Float;

verus! {

/// Bit mask of the sign bit.
pub const SIGN_BIT: u64 = 0x8000_0000_0000_0000;

/// Encoding of positive zero.
pub const ZERO_BITS: u64 = 0;

/// Encoding of one.
pub const ONE_BITS: u64 = 0x3FF0_0000_0000_0000;

/// 2^53: the first integer magnitude a double cannot count to exactly.
pub const SMALL_LIMIT: i64 = 0x20_0000_0000_0000;

// ---------------------------------------------------------------------------
// Decoding small integers from the IEEE encoding
// ---------------------------------------------------------------------------

/// The exponent field.
pub open spec fn exp_of(b: u64) -> u64 {
    (b >> 52) & 0x7ff
}

/// The fraction field.
pub open spec fn frac_of(b: u64) -> u64 {
    b & 0xF_FFFF_FFFF_FFFF
}

/// Whether `b` encodes positive zero or an integer of magnitude in
/// [1, 2^53). Negative zero is excluded, so every small integer has one
/// encoding.
pub open spec fn is_small_int(b: u64) -> bool {
    if exp_of(b) == 0 {
        b == 0
    } else {
        1023 <= exp_of(b) <= 1075 && frac_of(b) & low_mask((1075 - exp_of(b)) as u64) == 0
    }
}

/// The low `t` one bits, for `t <= 63`.
pub open spec fn low_mask(t: u64) -> u64 {
    ((1u64 << t) - 1) as u64
}

/// The magnitude of a small integer encoding.
pub open spec fn small_mag(b: u64) -> u64 {
    if exp_of(b) == 0 {
        0
    } else {
        (((1u64 << 52) | frac_of(b)) >> ((1075 - exp_of(b)) as u64)) as u64
    }
}

/// The value of a small integer encoding.
pub open spec fn small_int_val(b: u64) -> int {
    if b >> 63 == 1 {
        -(small_mag(b) as int)
    } else {
        small_mag(b) as int
    }
}

/// Whether `v` lies in the exactly-representable integer range.
pub open spec fn in_small_range(v: int) -> bool {
    -(SMALL_LIMIT as int) < v < SMALL_LIMIT as int
}

/// The absolute value.
pub open spec fn abs_int(v: int) -> int {
    if v >= 0 {
        v
    } else {
        -v
    }
}

/// Position of the highest set bit.
pub open spec fn log2(n: u64) -> nat
    decreases n,
{
    if n < 2 {
        0
    } else {
        1 + log2(n / 2)
    }
}

/// The IEEE encoding of a small integer value.
pub open spec fn enc_small(v: int) -> u64 {
    if v == 0 {
        0
    } else {
        let mag = (if v >= 0 {
            v
        } else {
            -v
        }) as u64;
        let sign: u64 = if v >= 0 {
            0
        } else {
            SIGN_BIT
        };
        let h = log2(mag);
        (sign | (((1023 + h) as u64) << 52) | ((mag << ((52 - h) as u64)) & 0xF_FFFF_FFFF_FFFF))
            as u64
    }
}

// ---------------------------------------------------------------------------
// Names for what the software floating-point library returns
// ---------------------------------------------------------------------------

/// IEEE addition on encodings, nearest-ties-to-even.
pub uninterp spec fn add_bits(a: u64, b: u64) -> u64;

/// IEEE subtraction on encodings, nearest-ties-to-even.
pub uninterp spec fn sub_bits(a: u64, b: u64) -> u64;

/// IEEE multiplication on encodings, nearest-ties-to-even.
pub uninterp spec fn mul_bits(a: u64, b: u64) -> u64;

/// IEEE division on encodings, nearest-ties-to-even.
pub uninterp spec fn div_bits(a: u64, b: u64) -> u64;

/// IEEE remainder on encodings with C `fmod` semantics.
pub uninterp spec fn rem_bits(a: u64, b: u64) -> u64;

/// The IEEE comparison of two encodings.
pub uninterp spec fn float_cmp(a: u64, b: u64) -> NumCmp;

/// The encoding a decimal numeric literal parses to, if it parses.
pub uninterp spec fn parse_num_bits(s: Seq<char>) -> Option<u64>;

/// The decimal rendering of an encoding.
pub uninterp spec fn float_display(b: u64) -> Seq<char>;

/// The value a number literal denotes: what it parses to, or zero when
/// the lexeme does not parse.
pub open spec fn num_value_of(lex: Seq<char>) -> u64 {
    match parse_num_bits(lex) {
        Some(b) => b,
        None => ZERO_BITS,
    }
}

/// The encoding of an unsigned integer, nearest-ties-to-even.
pub uninterp spec fn bits_of_uint(n: u64) -> u64;

/// Outcome of an IEEE comparison: NaN operands compare unordered.
#[derive(Debug, Clone, Copy, PartialEq, Eq, Structural)]
pub enum NumCmp {
    Lt,
    Eq,
    Gt,
    Unordered,
}

// ---------------------------------------------------------------------------
// Trusted wrappers around rustc_apfloat
// ---------------------------------------------------------------------------

/// Relies on rustc_apfloat's `Add for IeeeFloat<DoubleS>`: IEEE addition,
/// nearest-ties-to-even.
#[verifier::external_body]
pub(crate) fn add_raw(a: u64, b: u64) -> (r: u64)
    ensures
        r == add_bits(a, b),
{
    let x = rustc_apfloat::ieee::Double::from_bits(a as u128);
    let y = rustc_apfloat::ieee::Double::from_bits(b as u128);
    (x + y).value.to_bits() as u64
}

/// Relies on rustc_apfloat's `Sub for IeeeFloat<DoubleS>`: IEEE subtraction,
/// nearest-ties-to-even.
#[verifier::external_body]
pub(crate) fn sub_raw(a: u64, b: u64) -> (r: u64)
    ensures
        r == sub_bits(a, b),
{
    let x = rustc_apfloat::ieee::Double::from_bits(a as u128);
    let y = rustc_apfloat::ieee::Double::from_bits(b as u128);
    (x - y).value.to_bits() as u64
}

/// Relies on rustc_apfloat's `Mul for IeeeFloat<DoubleS>`: IEEE
/// multiplication, nearest-ties-to-even.
#[verifier::external_body]
pub(crate) fn mul_raw(a: u64, b: u64) -> (r: u64)
    ensures
        r == mul_bits(a, b),
{
    let x = rustc_apfloat::ieee::Double::from_bits(a as u128);
    let y = rustc_apfloat::ieee::Double::from_bits(b as u128);
    (x * y).value.to_bits() as u64
}

/// Relies on rustc_apfloat's `Div for IeeeFloat<DoubleS>`: IEEE division,
/// nearest-ties-to-even.
#[verifier::external_body]
pub(crate) fn div_raw(a: u64, b: u64) -> (r: u64)
    ensures
        r == div_bits(a, b),
{
    let x = rustc_apfloat::ieee::Double::from_bits(a as u128);
    let y = rustc_apfloat::ieee::Double::from_bits(b as u128);
    (x / y).value.to_bits() as u64
}

/// Relies on rustc_apfloat's `Rem for IeeeFloat<DoubleS>`, which implements
/// C `fmod`, the semantics of `%` on doubles.
#[verifier::external_body]
pub(crate) fn rem_raw(a: u64, b: u64) -> (r: u64)
    ensures
        r == rem_bits(a, b),
{
    let x = rustc_apfloat::ieee::Double::from_bits(a as u128);
    let y = rustc_apfloat::ieee::Double::from_bits(b as u128);
    (x % y).value.to_bits() as u64
}

/// Relies on rustc_apfloat's `PartialOrd for IeeeFloat<DoubleS>`: the IEEE
/// comparison, under which NaN operands are unordered.
#[verifier::external_body]
pub(crate) fn cmp_raw(a: u64, b: u64) -> (r: NumCmp)
    ensures
        r == float_cmp(a, b),
{
    let x = rustc_apfloat::ieee::Double::from_bits(a as u128);
    let y = rustc_apfloat::ieee::Double::from_bits(b as u128);
    match x.partial_cmp(&y) {
        Some(core::cmp::Ordering::Less) => NumCmp::Lt,
        Some(core::cmp::Ordering::Equal) => NumCmp::Eq,
        Some(core::cmp::Ordering::Greater) => NumCmp::Gt,
        None => NumCmp::Unordered,
    }
}

/// Relies on rustc_apfloat's `FromStr for IeeeFloat<DoubleS>`: correctly
/// rounded decimal parsing; a malformed string is rejected, not panicked on.
#[verifier::external_body]
pub(crate) fn parse_raw(s: &Vec<char>) -> (r: Option<u64>)
    ensures
        r == parse_num_bits(s@),
{
    let text: std::string::String = s.iter().collect();
    match text.parse::<rustc_apfloat::ieee::Double>() {
        Ok(d) => Some(d.to_bits() as u64),
        Err(_) => None,
    }
}

/// Relies on rustc_apfloat's `Display for IeeeFloat<DoubleS>`: a decimal
/// rendering determined by the value alone.
#[verifier::external_body]
pub(crate) fn display_raw(b: u64) -> (r: Vec<char>)
    ensures
        r@ == float_display(b),
{
    let text = format!("{}", rustc_apfloat::ieee::Double::from_bits(b as u128));
    text.chars().collect()
}

/// Relies on rustc_apfloat's `Float::from_u128`: conversion of an unsigned
/// integer, nearest-ties-to-even.
#[verifier::external_body]
pub(crate) fn from_uint_raw(n: u64) -> (r: u64)
    ensures
        r == bits_of_uint(n),
{
    rustc_apfloat::ieee::Double::from_u128(n as u128).value.to_bits() as u64
}

// ---------------------------------------------------------------------------
// The exact semantics the evaluator uses
// ---------------------------------------------------------------------------

/// Addition: exact on small integers whose sum is small, IEEE otherwise.
pub open spec fn add_sem(a: u64, b: u64) -> u64 {
    if is_small_int(a) && is_small_int(b) && in_small_range(
        small_int_val(a) + small_int_val(b),
    ) {
        enc_small(small_int_val(a) + small_int_val(b))
    } else {
        add_bits(a, b)
    }
}

/// Subtraction: exact on small integers whose difference is small, IEEE
/// otherwise.
pub open spec fn sub_sem(a: u64, b: u64) -> u64 {
    if is_small_int(a) && is_small_int(b) && in_small_range(
        small_int_val(a) - small_int_val(b),
    ) {
        enc_small(small_int_val(a) - small_int_val(b))
    } else {
        sub_bits(a, b)
    }
}

/// Multiplication: exact on small integers whose product is small, IEEE
/// otherwise. A zero product is negative zero when the signs differ.
pub open spec fn mul_sem(a: u64, b: u64) -> u64 {
    if is_small_int(a) && is_small_int(b) && in_small_range(
        small_int_val(a) * small_int_val(b),
    ) {
        if small_int_val(a) * small_int_val(b) == 0 && ((small_int_val(a) < 0) != (small_int_val(
            b,
        ) < 0)) {
            SIGN_BIT
        } else {
            enc_small(small_int_val(a) * small_int_val(b))
        }
    } else {
        mul_bits(a, b)
    }
}

/// The exact quotient of `a` by `b`, when the division leaves no
/// remainder: the quotient of the magnitudes, with the usual sign rule.
pub open spec fn exact_quot(a: int, b: int) -> int {
    let qm = abs_int(a) / abs_int(b);
    if (a < 0) != (b < 0) {
        -qm
    } else {
        qm
    }
}

/// Whether `b` divides `a` evenly.
pub open spec fn divides_exactly(a: int, b: int) -> bool {
    abs_int(a) % abs_int(b) == 0
}

/// Division: exact on small integers that divide evenly, IEEE otherwise.
/// A zero quotient is negative zero when the signs differ.
pub open spec fn div_sem(a: u64, b: u64) -> u64 {
    if is_small_int(a) && is_small_int(b) && small_int_val(b) != 0 && divides_exactly(
        small_int_val(a),
        small_int_val(b),
    ) {
        if exact_quot(small_int_val(a), small_int_val(b)) == 0 && ((small_int_val(a) < 0) != (
        small_int_val(b) < 0)) {
            SIGN_BIT
        } else {
            enc_small(exact_quot(small_int_val(a), small_int_val(b)))
        }
    } else {
        div_bits(a, b)
    }
}

/// The truncating remainder of two integers, the value `fmod` computes on
/// them: the remainder of the magnitudes, with the dividend's sign.
pub open spec fn trunc_rem(a: int, b: int) -> int {
    let rm = abs_int(a) % abs_int(b);
    if a < 0 {
        -rm
    } else {
        rm
    }
}

/// Remainder: exact on small integers with a nonzero divisor, IEEE `fmod`
/// otherwise. A zero remainder takes the dividend's sign.
pub open spec fn rem_sem(a: u64, b: u64) -> u64 {
    if is_small_int(a) && is_small_int(b) && small_int_val(b) != 0 {
        if trunc_rem(small_int_val(a), small_int_val(b)) == 0 && small_int_val(a) < 0 {
            SIGN_BIT
        } else {
            enc_small(trunc_rem(small_int_val(a), small_int_val(b)))
        }
    } else {
        rem_bits(a, b)
    }
}

/// Negation flips the sign bit, exactly, on every value.
pub open spec fn neg_sem(a: u64) -> u64 {
    a ^ SIGN_BIT
}

/// Comparison: exact on small integers, IEEE otherwise.
pub open spec fn cmp_sem(a: u64, b: u64) -> NumCmp {
    if is_small_int(a) && is_small_int(b) {
        if small_int_val(a) < small_int_val(b) {
            NumCmp::Lt
        } else if small_int_val(a) == small_int_val(b) {
            NumCmp::Eq
        } else {
            NumCmp::Gt
        }
    } else {
        float_cmp(a, b)
    }
}

/// A number is truthy exactly when it is greater than zero.
pub open spec fn truthy_num(b: u64) -> bool {
    cmp_sem(b, ZERO_BITS) == NumCmp::Gt
}

/// The rendering of a number: verified decimal digits for small integers,
/// the library's rendering for everything else.
pub open spec fn display_num(b: u64) -> Seq<char> {
    if is_small_int(b) {
        if small_int_val(b) < 0 {
            seq!['-'] + dec_str(small_mag(b) as nat)
        } else {
            dec_str(small_mag(b) as nat)
        }
    } else {
        float_display(b)
    }
}

/// The decimal digits of `n`, most significant first.
pub open spec fn dec_str(n: nat) -> Seq<char>
    decreases n,
{
    if n < 10 {
        seq![digit_char(n)]
    } else {
        dec_str(n / 10).push(digit_char(n % 10))
    }
}

/// The digit character for `d < 10`.
pub open spec fn digit_char(d: nat) -> char {
    if d == 0 {
        '0'
    } else if d == 1 {
        '1'
    } else if d == 2 {
        '2'
    } else if d == 3 {
        '3'
    } else if d == 4 {
        '4'
    } else if d == 5 {
        '5'
    } else if d == 6 {
        '6'
    } else if d == 7 {
        '7'
    } else if d == 8 {
        '8'
    } else {
        '9'
    }
}

// ---------------------------------------------------------------------------
// Verified executable arithmetic
// ---------------------------------------------------------------------------

/// Decodes a small integer encoding, or reports that `b` is not one.
pub fn decode_small(b: u64) -> (r: Option<i64>)
    ensures
        r is Some <==> is_small_int(b),
        r matches Some(v) ==> v as int == small_int_val(b) && in_small_range(v as int),
{
    let e = (b >> 52) & 0x7ff;
    let f = b & 0xF_FFFF_FFFF_FFFF;
    if e == 0 {
        if b == 0 {
            assert(small_mag(b) == 0);
            assert(b >> 63 == 0) by (bit_vector)
                requires
                    b == 0,
            ;
            Some(0)
        } else {
            None
        }
    } else if 1023 <= e && e <= 1075 {
        let t = 1075 - e;
        assert(1u64 << t >= 1) by (bit_vector)
            requires
                t <= 52,
        ;
        let mask = (1u64 << t) - 1;
        assert(mask == low_mask(t));
        if f & mask == 0 {
            let base = (1u64 << 52) | f;
            let mag = base >> t;
            assert(mag == small_mag(b));
            assert(base < 0x20_0000_0000_0000u64) by (bit_vector)
                requires
                    base == (1u64 << 52) | f && f == b & 0xF_FFFF_FFFF_FFFF,
            ;
            assert(mag <= base) by (bit_vector)
                requires
                    mag == base >> t,
            ;
            if b >> 63 == 1 {
                Some(-(mag as i64))
            } else {
                Some(mag as i64)
            }
        } else {
            None
        }
    } else {
        None
    }
}

/// The highest set bit of `n < 2^k` is below `k`.
proof fn lemma_log2_bound(n: u64, k: u64)
    requires
        1 <= n,
        1 <= k <= 63,
        n < (1u64 << k),
    ensures
        log2(n) < k,
    decreases n,
{
    if n < 2 {
    } else {
        assert(2 <= k) by (bit_vector)
            requires
                n < (1u64 << k) && n >= 2 && 1 <= k <= 63,
        ;
        assert(n / 2 < (1u64 << ((k - 1) as u64))) by (bit_vector)
            requires
                n < (1u64 << k) && 2 <= k <= 63,
        ;
        lemma_log2_bound(n / 2, (k - 1) as u64);
    }
}

/// Encodes a small integer value.
pub fn encode_small(v: i64) -> (r: u64)
    requires
        in_small_range(v as int),
    ensures
        r == enc_small(v as int),
{
    if v == 0 {
        return 0;
    }
    let mag: u64 = if v >= 0 {
        v as u64
    } else {
        (-v) as u64
    };
    let sign: u64 = if v < 0 {
        SIGN_BIT
    } else {
        0
    };
    proof {
        assert(mag < (1u64 << 53)) by (bit_vector)
            requires
                mag < 0x20_0000_0000_0000u64,
        ;
        lemma_log2_bound(mag, 53);
    }
    let mut h: u64 = 0;
    let mut m: u64 = mag;
    while m > 1
        invariant
            1 <= m <= mag,
            log2(mag) == h + log2(m),
            log2(mag) <= 52,
        decreases m,
    {
        assert(log2(m) == 1 + log2(m / 2));
        m = m / 2;
        h = h + 1;
    }
    assert(m == 1);
    assert(log2(m) == 0);
    assert(h == log2(mag));
    let r = sign | ((1023 + h) << 52) | ((mag << (52 - h)) & 0xF_FFFF_FFFF_FFFF);
    r
}

/// Addition with the exact small-integer fast path.
pub fn add_num(a: u64, b: u64) -> (r: u64)
    ensures
        r == add_sem(a, b),
{
    match (decode_small(a), decode_small(b)) {
        (Some(x), Some(y)) => {
            let s = x + y;
            if -SMALL_LIMIT < s && s < SMALL_LIMIT {
                encode_small(s)
            } else {
                add_raw(a, b)
            }
        },
        _ => add_raw(a, b),
    }
}

/// Subtraction with the exact small-integer fast path.
pub fn sub_num(a: u64, b: u64) -> (r: u64)
    ensures
        r == sub_sem(a, b),
{
    match (decode_small(a), decode_small(b)) {
        (Some(x), Some(y)) => {
            let s = x - y;
            if -SMALL_LIMIT < s && s < SMALL_LIMIT {
                encode_small(s)
            } else {
                sub_raw(a, b)
            }
        },
        _ => sub_raw(a, b),
    }
}

/// Multiplication with the exact small-integer fast path.
pub fn mul_num(a: u64, b: u64) -> (r: u64)
    ensures
        r == mul_sem(a, b),
{
    match (decode_small(a), decode_small(b)) {
        (Some(x), Some(y)) => {
            proof {
                assert(-(0x20_0000_0000_0000 * 0x20_0000_0000_0000) < (x as int) * (y as int)
                    < 0x20_0000_0000_0000 * 0x20_0000_0000_0000) by (nonlinear_arith)
                    requires
                        -0x20_0000_0000_0000 < (x as int),
                        (x as int) < 0x20_0000_0000_0000,
                        -0x20_0000_0000_0000 < (y as int),
                        (y as int) < 0x20_0000_0000_0000,
                ;
            }
            let p = (x as i128) * (y as i128);
            if -(SMALL_LIMIT as i128) < p && p < SMALL_LIMIT as i128 {
                if p == 0 && ((x < 0) != (y < 0)) {
                    SIGN_BIT
                } else {
                    encode_small(p as i64)
                }
            } else {
                mul_raw(a, b)
            }
        },
        _ => mul_raw(a, b),
    }
}

/// Division with the exact small-integer fast path.
pub fn div_num(a: u64, b: u64) -> (r: u64)
    ensures
        r == div_sem(a, b),
{
    match (decode_small(a), decode_small(b)) {
        (Some(x), Some(y)) => {
            if y != 0 {
                let am: u64 = if x >= 0 {
                    x as u64
                } else {
                    (-x) as u64
                };
                let bm: u64 = if y >= 0 {
                    y as u64
                } else {
                    (-y) as u64
                };
                if am % bm == 0 {
                    let qm = am / bm;
                    proof {
                        assert(qm <= am) by (nonlinear_arith)
                            requires
                                bm >= 1 && qm == am / bm,
                        ;
                    }
                    let q: i64 = if (x < 0) != (y < 0) {
                        -(qm as i64)
                    } else {
                        qm as i64
                    };
                    if q == 0 && ((x < 0) != (y < 0)) {
                        SIGN_BIT
                    } else {
                        encode_small(q)
                    }
                } else {
                    div_raw(a, b)
                }
            } else {
                div_raw(a, b)
            }
        },
        _ => div_raw(a, b),
    }
}

/// Remainder with the exact small-integer fast path.
pub fn rem_num(a: u64, b: u64) -> (r: u64)
    ensures
        r == rem_sem(a, b),
{
    match (decode_small(a), decode_small(b)) {
        (Some(x), Some(y)) => {
            if y != 0 {
                let am: u64 = if x >= 0 {
                    x as u64
                } else {
                    (-x) as u64
                };
                let bm: u64 = if y >= 0 {
                    y as u64
                } else {
                    (-y) as u64
                };
                let rm = am % bm;
                proof {
                    assert(rm < bm) by (nonlinear_arith)
                        requires
                            bm >= 1 && rm == am % bm,
                    ;
                }
                let t: i64 = if x < 0 {
                    -(rm as i64)
                } else {
                    rm as i64
                };
                if t == 0 && x < 0 {
                    SIGN_BIT
                } else {
                    encode_small(t)
                }
            } else {
                rem_raw(a, b)
            }
        },
        _ => rem_raw(a, b),
    }
}

/// Negation: flips the sign bit.
pub fn neg_num(a: u64) -> (r: u64)
    ensures
        r == neg_sem(a),
{
    a ^ SIGN_BIT
}

/// Comparison with the exact small-integer fast path.
pub fn cmp_num(a: u64, b: u64) -> (r: NumCmp)
    ensures
        r == cmp_sem(a, b),
{
    match (decode_small(a), decode_small(b)) {
        (Some(x), Some(y)) => {
            if x < y {
                NumCmp::Lt
            } else if x == y {
                NumCmp::Eq
            } else {
                NumCmp::Gt
            }
        },
        _ => cmp_raw(a, b),
    }
}

/// Whether a number counts as true in a condition.
pub fn truthy(b: u64) -> (r: bool)
    ensures
        r == truthy_num(b),
{
    proof {
        assert((0u64 >> 52) & 0x7ff == 0u64 && 0u64 >> 63 == 0u64) by (bit_vector);
        assert(is_small_int(ZERO_BITS) && small_int_val(ZERO_BITS) == 0);
    }
    match cmp_num(b, ZERO_BITS) {
        NumCmp::Gt => true,
        _ => false,
    }
}

/// The decimal digits of `n`, most significant first.
pub fn dec_digits(n: u64) -> (r: Vec<char>)
    ensures
        r@ == dec_str(n as nat),
    decreases n,
{
    let d = n % 10;
    let c = if d == 0 {
        '0'
    } else if d == 1 {
        '1'
    } else if d == 2 {
        '2'
    } else if d == 3 {
        '3'
    } else if d == 4 {
        '4'
    } else if d == 5 {
        '5'
    } else if d == 6 {
        '6'
    } else if d == 7 {
        '7'
    } else if d == 8 {
        '8'
    } else {
        '9'
    };
    if n < 10 {
        let mut v: Vec<char> = Vec::new();
        v.push(c);
        assert(v@ =~= seq![digit_char(n as nat)]);
        v
    } else {
        let mut v = dec_digits(n / 10);
        v.push(c);
        assert(v@ =~= dec_str((n / 10) as nat).push(digit_char((n % 10) as nat)));
        v
    }
}

/// Renders a number: verified digits for small integers, the library's
/// rendering otherwise.
pub fn display_number(b: u64) -> (r: Vec<char>)
    ensures
        r@ == display_num(b),
{
    match decode_small(b) {
        Some(v) => {
            if v < 0 {
                let mut out: Vec<char> = Vec::new();
                out.push('-');
                let digits = dec_digits((-v) as u64);
                let mut k: usize = 0;
                while k < digits.len()
                    invariant
                        0 <= k <= digits.len(),
                        digits@ == dec_str(small_mag(b) as nat),
                        out@ == seq!['-'] + digits@.subrange(0, k as int),
                    decreases digits.len() - k,
                {
                    out.push(digits[k]);
                    assert(out@ =~= seq!['-'] + digits@.subrange(0, k + 1 as int));
                    k = k + 1;
                }
                assert(digits@.subrange(0, digits@.len() as int) =~= digits@);
                out
            } else {
                assert(v as int == small_mag(b) as int);
                dec_digits(v as u64)
            }
        },
        None => display_raw(b),
    }
}


// ---------------------------------------------------------------------------
// Exactness of the small-integer encoding
// ---------------------------------------------------------------------------

/// Shifting a number right by the position of its highest set bit leaves
/// exactly that bit.
proof fn lemma_mag_shift(mag: u64)
    requires
        1 <= mag,
        mag < 0x20_0000_0000_0000u64,
    ensures
        mag >> (log2(mag) as u64) == 1,
    decreases mag,
{
    if mag < 2 {
        assert(mag >> 0u64 == mag) by (bit_vector);
    } else {
        lemma_mag_shift(mag / 2);
        assert(mag / 2 < (1u64 << 53)) by (bit_vector)
            requires
                mag < 0x20_0000_0000_0000u64,
        ;
        lemma_log2_bound(mag / 2, 53);
        let k = log2(mag / 2) as u64;
        assert(mag >> ((k + 1) as u64) == (mag / 2) >> k) by (bit_vector)
            requires
                k <= 62,
        ;
    }
}

/// The encoding of a small integer decodes to that integer: the encoding
/// is well-formed and carries the value exactly.
pub proof fn lemma_enc_small_roundtrip(v: int)
    requires
        in_small_range(v),
    ensures
        is_small_int(enc_small(v)),
        small_int_val(enc_small(v)) == v,
{
    if v == 0 {
        assert((0u64 >> 52) & 0x7ff == 0u64) by (bit_vector);
        assert(0u64 >> 63 == 0u64) by (bit_vector);
    } else {
        let mag = (if v >= 0 {
            v
        } else {
            -v
        }) as u64;
        let s: u64 = if v >= 0 {
            0u64
        } else {
            SIGN_BIT
        };
        assert(mag < (1u64 << 53)) by (bit_vector)
            requires
                mag < 0x20_0000_0000_0000u64,
        ;
        lemma_log2_bound(mag, 53);
        lemma_mag_shift(mag);
        let h = log2(mag) as u64;
        let e_field: u64 = (1023 + h) as u64;
        let sh: u64 = (52 - h) as u64;
        let fr: u64 = (mag << sh) & 0xF_FFFF_FFFF_FFFF;
        let b0: u64 = s | (e_field << 52) | fr;
        assert(enc_small(v) == b0);
        assert((b0 >> 52) & 0x7ff == e_field && b0 & 0xF_FFFF_FFFF_FFFF == fr && fr & (((1u64
            << sh) - 1) as u64) == 0 && ((1u64 << 52) | fr) >> sh == mag && b0 >> 63 == (if s
            == 0x8000_0000_0000_0000u64 {
            1u64
        } else {
            0u64
        })) by (bit_vector)
            requires
                b0 == s | (e_field << 52) | fr,
                fr == (mag << sh) & 0xF_FFFF_FFFF_FFFF,
                e_field == 1023 + h,
                sh == 52 - h,
                h <= 52,
                mag >> h == 1,
                s == 0u64 || s == 0x8000_0000_0000_0000u64,
        ;
        assert(exp_of(b0) == e_field);
        assert(low_mask((1075 - exp_of(b0)) as u64) == ((1u64 << sh) - 1) as u64);
        assert(is_small_int(b0));
        assert(small_mag(b0) == mag);
    }
}

/// On small integers whose sum is small, addition is exact.
pub proof fn lemma_small_add_exact(a: u64, b: u64)
    requires
        is_small_int(a),
        is_small_int(b),
        in_small_range(small_int_val(a) + small_int_val(b)),
    ensures
        is_small_int(add_sem(a, b)),
        small_int_val(add_sem(a, b)) == small_int_val(a) + small_int_val(b),
{
    lemma_enc_small_roundtrip(small_int_val(a) + small_int_val(b));
}

/// On small integers whose difference is small, subtraction is exact.
pub proof fn lemma_small_sub_exact(a: u64, b: u64)
    requires
        is_small_int(a),
        is_small_int(b),
        in_small_range(small_int_val(a) - small_int_val(b)),
    ensures
        is_small_int(sub_sem(a, b)),
        small_int_val(sub_sem(a, b)) == small_int_val(a) - small_int_val(b),
{
    lemma_enc_small_roundtrip(small_int_val(a) - small_int_val(b));
}

/// On small integers whose product is small, multiplication is exact.
/// A zero product of differing signs is excluded: its result is negative
/// zero, which no small integer encodes.
pub proof fn lemma_small_mul_exact(a: u64, b: u64)
    requires
        is_small_int(a),
        is_small_int(b),
        in_small_range(small_int_val(a) * small_int_val(b)),
        small_int_val(a) * small_int_val(b) != 0 || ((small_int_val(a) < 0) == (small_int_val(
            b,
        ) < 0)),
    ensures
        is_small_int(mul_sem(a, b)),
        small_int_val(mul_sem(a, b)) == small_int_val(a) * small_int_val(b),
{
    lemma_enc_small_roundtrip(small_int_val(a) * small_int_val(b));
}

} // verus!
