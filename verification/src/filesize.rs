//! File size formatting for human-readable output.
//!
//! Sizes are shown in binary units (1024-based: KiB, MiB, GiB) or decimal
//! units (1000-based: kB, MB, GB). A size below one unit is shown in bytes, as
//! an integer. Any other size is shown in the largest unit that it fills at
//! least once, with a fixed number of decimals, rounded to the nearest value
//! that can be shown; a value half way between two is rounded to the one
//! whose last digit is even.
use crate::strings::{digit_char, digit_of, push_decimal};
use vstd::prelude::*;

verus! {

/// Size unit system to use for formatting.
#[derive(Debug, Clone, Copy, PartialEq, Eq, Structural)]
pub enum SizeUnit {
    /// Binary units (1024-based): KiB, MiB, GiB, etc.
    Binary,
    /// Decimal units (1000-based): kB, MB, GB, etc.
    Decimal,
}

impl Default for SizeUnit {
    fn default() -> (unit: SizeUnit)
        ensures
            unit == SizeUnit::Binary,
    {
        SizeUnit::Binary
    }
}

impl SizeUnit {
    /// How many of one unit make the next larger one.
    pub open spec fn base(self) -> nat {
        match self {
            SizeUnit::Binary => 1024,
            SizeUnit::Decimal => 1000,
        }
    }

    /// The name of the unit that is `steps` steps above the byte, for up to
    /// six steps.
    pub open spec fn name(self, steps: nat) -> Seq<char> {
        match self {
            SizeUnit::Binary => if steps == 0 {
                "bytes"@
            } else if steps == 1 {
                "KiB"@
            } else if steps == 2 {
                "MiB"@
            } else if steps == 3 {
                "GiB"@
            } else if steps == 4 {
                "TiB"@
            } else if steps == 5 {
                "PiB"@
            } else {
                "EiB"@
            },
            SizeUnit::Decimal => if steps == 0 {
                "bytes"@
            } else if steps == 1 {
                "kB"@
            } else if steps == 2 {
                "MB"@
            } else if steps == 3 {
                "GB"@
            } else if steps == 4 {
                "TB"@
            } else if steps == 5 {
                "PB"@
            } else {
                "EB"@
            },
        }
    }

    fn unit_name(self, steps: u64) -> (name: &'static str)
        ensures
            name@ == self.name(steps as nat),
    {
        match self {
            SizeUnit::Binary => {
                if steps == 0 {
                    "bytes"
                } else if steps == 1 {
                    "KiB"
                } else if steps == 2 {
                    "MiB"
                } else if steps == 3 {
                    "GiB"
                } else if steps == 4 {
                    "TiB"
                } else if steps == 5 {
                    "PiB"
                } else {
                    "EiB"
                }
            },
            SizeUnit::Decimal => {
                if steps == 0 {
                    "bytes"
                } else if steps == 1 {
                    "kB"
                } else if steps == 2 {
                    "MB"
                } else if steps == 3 {
                    "GB"
                } else if steps == 4 {
                    "TB"
                } else if steps == 5 {
                    "PB"
                } else {
                    "EB"
                }
            },
        }
    }
}

/// How many times `size` can be divided by `base` before it is below
/// `base`: the steps from the byte to the largest unit that `size` fills.
pub open spec fn unit_steps(size: nat, base: nat) -> nat
    decreases size,
    via unit_steps_decreases
{
    if base < 2 || size < base {
        0
    } else {
        1 + unit_steps(size / base, base)
    }
}

#[via_fn]
proof fn unit_steps_decreases(size: nat, base: nat) {
    if base >= 2 && size >= base {
        assert(size / base < size) by (nonlinear_arith)
            requires
                base >= 2,
                size >= base,
        ;
    }
}

/// How many bytes make the largest unit that `size` fills: `base` to the
/// power of the steps up to that unit.
pub open spec fn unit_size(size: nat, base: nat) -> nat
    decreases size,
    via unit_size_decreases
{
    if base < 2 || size < base {
        1
    } else {
        base * unit_size(size / base, base)
    }
}

#[via_fn]
proof fn unit_size_decreases(size: nat, base: nat) {
    if base >= 2 && size >= base {
        assert(size / base < size) by (nonlinear_arith)
            requires
                base >= 2,
                size >= base,
        ;
    }
}

/// The first `n` decimals of `rem / den`, for `rem < den`.
pub open spec fn decimals(rem: nat, den: nat, n: nat) -> Seq<int>
    decreases n,
{
    if n == 0 || den == 0 {
        Seq::<int>::empty()
    } else {
        seq![((rem * 10) / den) as int] + decimals((rem * 10) % den, den, (n - 1) as nat)
    }
}

/// What is left of `rem / den` behind its first `n` decimals, in units of
/// `1 / den` of the last decimal place.
pub open spec fn left_over(rem: nat, den: nat, n: nat) -> nat
    decreases n,
{
    if n == 0 || den == 0 {
        rem
    } else {
        left_over((rem * 10) % den, den, (n - 1) as nat)
    }
}

/// A number written in decimals, one more in its last place: the new digits,
/// and whether the whole part is to be raised too.
pub open spec fn raised(digits: Seq<int>) -> (Seq<int>, bool)
    decreases digits.len(),
{
    if digits.len() == 0 {
        (digits, true)
    } else if digits.last() < 9 {
        (digits.drop_last().push(digits.last() + 1), false)
    } else {
        let (front, carry) = raised(digits.drop_last());
        (front.push(0), carry)
    }
}

/// Whether `whole` with the decimals `digits`, with `rest / den` of the last
/// place left over, is rounded up: where more than half is left over, or
/// exactly half and the last digit is odd.
pub open spec fn rounds_up(whole: nat, digits: Seq<int>, rest: nat, den: nat) -> bool {
    let last = if digits.len() == 0 {
        (whole % 2) as int
    } else {
        digits.last() % 2
    };
    2 * rest > den || (2 * rest == den && last == 1)
}

/// The characters of a sequence of digits.
pub open spec fn digit_chars(digits: Seq<int>) -> Seq<char> {
    Seq::new(digits.len(), |i: int| digit_char(digits[i]))
}

/// `size / den` written with `n` decimals, rounded to the nearest: the whole
/// part, and behind a point the decimals if there are any.
pub open spec fn fixed_point(size: nat, den: nat, n: nat) -> Seq<char> {
    let whole = size / den;
    let digits = decimals(size % den, den, n);
    let rest = left_over(size % den, den, n);
    let (shown, carry) = if rounds_up(whole, digits, rest, den) {
        raised(digits)
    } else {
        (digits, false)
    };
    let front = crate::strings::decimal(
        if carry {
            whole + 1
        } else {
            whole
        },
    );
    if n == 0 {
        front
    } else {
        front + seq!['.'] + digit_chars(shown)
    }
}

/// The size of a number of bytes given with a sign.
pub open spec fn magnitude(size: i64) -> nat {
    if size < 0 {
        (-size) as nat
    } else {
        size as nat
    }
}

/// A size in bytes as a human-readable text: `"-"` first for a negative
/// size; a size below one unit in bytes; any other in the largest unit it
/// fills, with `precision` decimals.
pub open spec fn formatted(size: i64, unit: SizeUnit, precision: usize) -> Seq<char> {
    let sign = if size < 0 {
        seq!['-']
    } else {
        Seq::<char>::empty()
    };
    let bytes = magnitude(size);
    if bytes < unit.base() {
        sign + crate::strings::decimal(bytes) + " bytes"@
    } else {
        let steps = unit_steps(bytes, unit.base());
        sign + fixed_point(bytes, unit_size(bytes, unit.base()), precision as nat) + seq![' ']
            + unit.name(steps)
    }
}

/// Digits held in bytes, read as integers.
pub open spec fn digits_of(v: Seq<u8>) -> Seq<int> {
    Seq::new(v.len(), |i: int| v[i] as int)
}

/// Raises the number that `digits` writes by one in its last place; returns
/// whether the whole part is to be raised too.
fn raise(digits: &mut Vec<u8>) -> (carry: bool)
    requires
        forall|i: int| 0 <= i < old(digits).len() ==> old(digits)[i] <= 9,
    ensures
        (digits_of(final(digits)@), carry) == raised(digits_of(old(digits)@)),
        forall|i: int| 0 <= i < final(digits).len() ==> final(digits)[i] <= 9,
{
    let ghost first = digits_of(digits@);
    let mut k = digits.len();
    let mut carry = true;
    proof {
        assert(first.take(k as int) =~= first);
        assert(raised(first).0 + digits_of(digits@).skip(k as int) =~= raised(first).0);
    }
    while k > 0 && carry
        invariant
            k <= digits.len(),
            digits.len() == first.len(),
            forall|i: int| 0 <= i < digits.len() ==> digits[i] <= 9,
            forall|i: int| 0 <= i < k ==> digits[i] as int == first[i],
            carry ==> raised(first) == (
                raised(first.take(k as int)).0 + digits_of(digits@).skip(k as int),
                raised(first.take(k as int)).1,
            ),
            !carry ==> raised(first) == (digits_of(digits@), false),
        decreases k,
    {
        let ghost before = digits_of(digits@);
        let ghost head = first.take(k as int);
        proof {
            assert(head.drop_last() =~= first.take(k - 1));
            assert(head.last() == first[k - 1]);
        }
        if digits[k - 1] < 9 {
            let d = digits[k - 1] + 1;
            digits.set(k - 1, d);
            carry = false;
            proof {
                assert(digits_of(digits@) =~= head.drop_last().push(head.last() + 1) + before.skip(
                    k as int,
                ));
            }
        } else {
            digits.set(k - 1, 0);
            proof {
                assert(raised(head).0 + before.skip(k as int) =~= raised(first.take(k - 1)).0
                    + digits_of(digits@).skip(k - 1));
            }
        }
        k = k - 1;
    }
    proof {
        if carry {
            assert(first.take(0) =~= Seq::<int>::empty());
            assert(Seq::<int>::empty() + digits_of(digits@).skip(0) =~= digits_of(digits@));
        }
    }
    carry
}

/// The largest unit that `bytes` fills: the steps up to it, and its size in
/// bytes.
fn scale(bytes: u64, base: u64) -> (out: (u64, u64))
    requires
        base >= 2,
    ensures
        out.0 == unit_steps(bytes as nat, base as nat),
        out.1 == unit_size(bytes as nat, base as nat),
        out.1 >= 1,
{
    let mut rest = bytes;
    let mut steps: u64 = 0;
    let mut den: u64 = 1;
    while rest >= base
        invariant
            base >= 2,
            unit_steps(bytes as nat, base as nat) == steps + unit_steps(rest as nat, base as nat),
            unit_size(bytes as nat, base as nat) == den * unit_size(rest as nat, base as nat),
            den * rest <= bytes,
            steps < den,
        decreases rest,
    {
        proof {
            assert(den * base * (rest / base) <= den * rest && den * base <= den * rest
                && den * base >= 2 * den) by (nonlinear_arith)
                requires
                    rest >= base,
                    base >= 2,
                    den >= 1,
            ;
            assert(den * (base * unit_size((rest / base) as nat, base as nat)) == (den * base)
                * unit_size((rest / base) as nat, base as nat)) by (nonlinear_arith);
            assert(rest / base < rest) by (nonlinear_arith)
                requires
                    rest >= base,
                    base >= 2,
            ;
        }
        rest = rest / base;
        steps = steps + 1;
        den = den * base;
    }
    assert(den == unit_size(bytes as nat, base as nat)) by (nonlinear_arith)
        requires
            unit_size(bytes as nat, base as nat) == den * unit_size(rest as nat, base as nat),
            unit_size(rest as nat, base as nat) == 1,
    ;
    (steps, den)
}

/// The first `precision` decimals of `first / den`, and what is left over
/// behind them.
fn expand(first: u64, den: u64, precision: usize) -> (out: (Vec<u8>, u128))
    requires
        first < den,
    ensures
        digits_of(out.0@) == decimals(first as nat, den as nat, precision as nat),
        out.1 == left_over(first as nat, den as nat, precision as nat),
        out.1 < den,
        forall|k: int| 0 <= k < out.0.len() ==> out.0[k] <= 9,
{
    let mut rem: u128 = first as u128;
    let wide: u128 = den as u128;
    let mut digits: Vec<u8> = Vec::new();
    let mut i: usize = 0;
    while i < precision
        invariant
            i <= precision,
            wide == den,
            den >= 1,
            rem < wide,
            digits.len() == i,
            forall|k: int| 0 <= k < digits.len() ==> digits[k] <= 9,
            digits_of(digits@) + decimals(rem as nat, den as nat, (precision - i) as nat)
                == decimals(first as nat, den as nat, precision as nat),
            left_over(rem as nat, den as nat, (precision - i) as nat) == left_over(
                first as nat,
                den as nat,
                precision as nat,
            ),
        decreases precision - i,
    {
        let ghost before = digits_of(digits@);
        let ghost tail = decimals(
            ((rem * 10) % (wide as int)) as nat,
            den as nat,
            (precision - i - 1) as nat,
        );
        proof {
            assert((rem * 10) / (wide as int) <= 9) by (nonlinear_arith)
                requires
                    rem < wide,
                    wide >= 1,
            ;
        }
        let d = ((rem * 10) / wide) as u8;
        rem = (rem * 10) % wide;
        digits.push(d);
        proof {
            assert(digits_of(digits@) + tail =~= before + (seq![d as int] + tail));
        }
        i = i + 1;
    }
    proof {
        assert(digits_of(digits@) + Seq::<int>::empty() =~= digits_of(digits@));
    }
    (digits, rem)
}

/// Appends the characters of `digits` to `out`.
fn push_digits(out: &mut String, digits: &Vec<u8>)
    requires
        forall|t: int| 0 <= t < digits.len() ==> digits[t] <= 9,
    ensures
        final(out)@ == old(out)@ + digit_chars(digits_of(digits@)),
{
    let ghost start = out@;
    let mut k: usize = 0;
    proof {
        assert(start + digit_chars(digits_of(digits@)).take(0) =~= start);
    }
    while k < digits.len()
        invariant
            k <= digits.len(),
            forall|t: int| 0 <= t < digits.len() ==> digits[t] <= 9,
            out@ == start + digit_chars(digits_of(digits@)).take(k as int),
        decreases digits.len() - k,
    {
        out.push(digit_of(digits[k] as u128));
        proof {
            let all = digit_chars(digits_of(digits@));
            assert(all.take(k + 1) =~= all.take(k as int).push(all[k as int]));
            assert(out@ =~= start + all.take(k + 1));
        }
        k = k + 1;
    }
    proof {
        let all = digit_chars(digits_of(digits@));
        assert(all.take(digits.len() as int) =~= all);
    }
}

/// Appends `bytes / den` with `precision` decimals, rounded to the nearest.
fn push_fixed_point(out: &mut String, bytes: u64, den: u64, precision: usize)
    requires
        den >= 1,
        bytes <= 0x8000_0000_0000_0000,
    ensures
        final(out)@ == old(out)@ + fixed_point(bytes as nat, den as nat, precision as nat),
{
    let whole = bytes / den;
    let first = bytes % den;
    let (mut digits, rem) = expand(first, den, precision);
    let last_odd = if digits.len() == 0 {
        whole % 2 == 1
    } else {
        digits[digits.len() - 1] % 2 == 1
    };
    let up = 2 * rem > den as u128 || (2 * rem == den as u128 && last_odd);
    let carry = if up {
        raise(&mut digits)
    } else {
        false
    };
    let front = if carry {
        whole + 1
    } else {
        whole
    };
    push_decimal(out, front as u128);
    if precision > 0 {
        out.push('.');
        push_digits(out, &digits);
    }
    proof {
        let shown = fixed_point(bytes as nat, den as nat, precision as nat);
        assert(out@ =~= old(out)@ + shown);
    }
}

/// Format a size in bytes to a human-readable string.
///
/// `size` can be negative for deltas; `unit` chooses binary (1024) or
/// decimal (1000) units; `precision` is the number of decimal places.
pub fn format_size(size: i64, unit: SizeUnit, precision: usize) -> (out: String)
    ensures
        out@ == formatted(size, unit, precision),
{
    let base: u64 = match unit {
        SizeUnit::Binary => 1024,
        SizeUnit::Decimal => 1000,
    };
    let bytes: u64 = if size < 0 {
        if size == i64::MIN {
            9223372036854775808u64
        } else {
            (-size) as u64
        }
    } else {
        size as u64
    };
    let mut out = String::new();
    if size < 0 {
        out.push('-');
    }
    let ghost sign = out@;
    proof {
        assert(sign =~= if size < 0 {
            seq!['-']
        } else {
            Seq::<char>::empty()
        });
    }
    if bytes < base {
        push_decimal(&mut out, bytes as u128);
        out.append(" bytes");
        return out;
    }
    let (steps, den) = scale(bytes, base);
    push_fixed_point(&mut out, bytes, den, precision);
    out.push(' ');
    out.append(unit.unit_name(steps));
    proof {
        let shown = fixed_point(bytes as nat, den as nat, precision as nat);
        assert(out@ =~= sign + shown + seq![' '] + unit.name(steps as nat));
    }
    out
}

/// Wraps an unsigned size into the signed range, as a cast does: a size
/// above the largest signed value becomes negative.
pub open spec fn wrapped(size: u64) -> i64 {
    if size <= i64::MAX {
        size as i64
    } else {
        (size - 0x1_0000_0000_0000_0000) as i64
    }
}

fn wrap(size: u64) -> (out: i64)
    ensures
        out == wrapped(size),
{
    if size <= 9223372036854775807u64 {
        size as i64
    } else {
        let below = u64::MAX - size;
        -(below as i64) - 1
    }
}

/// Format a size in bytes to a human-readable string using decimal
/// (1000-based) units, with one decimal place.
pub fn decimal(size: u64) -> (out: String)
    ensures
        out@ == formatted(wrapped(size), SizeUnit::Decimal, 1),
{
    format_size(wrap(size), SizeUnit::Decimal, 1)
}

/// Format a size in bytes to a human-readable string using decimal
/// (1000-based) units with custom precision.
pub fn decimal_with_precision(size: u64, precision: usize) -> (out: String)
    ensures
        out@ == formatted(wrapped(size), SizeUnit::Decimal, precision),
{
    format_size(wrap(size), SizeUnit::Decimal, precision)
}

/// Format a size in bytes to a human-readable string using binary
/// (1024-based) units, with one decimal place.
pub fn binary(size: u64) -> (out: String)
    ensures
        out@ == formatted(wrapped(size), SizeUnit::Binary, 1),
{
    format_size(wrap(size), SizeUnit::Binary, 1)
}

/// Format a size in bytes to a human-readable string using binary
/// (1024-based) units with custom precision.
pub fn binary_with_precision(size: u64, precision: usize) -> (out: String)
    ensures
        out@ == formatted(wrapped(size), SizeUnit::Binary, precision),
{
    format_size(wrap(size), SizeUnit::Binary, precision)
}

} // verus!
