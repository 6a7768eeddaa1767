use vstd::prelude::*;
use crate::ast::{Atom, AtomView, Real};
use crate::text::{digit_of, digit_value, to_chars};

verus! {

/// Why a text is no number.
#[derive(Copy, Clone, Debug, PartialEq, Eq, Structural)]
pub enum NumberParseError {
    InvalidBase,
    InvalidDigit,
    Empty,
    SeparatorInWrongPosition,
    /// The number does not fit the integer type that holds it.
    Overflow,
}

/// The scale beyond which no further digit of a fraction is taken: two to
/// the power 53.
pub const PRECISION: u64 = 0x20_0000_0000_0000;

/// `s` without its underscores.
pub open spec fn significant(s: Seq<char>) -> Seq<char>
    decreases s.len(),
{
    if s.len() == 0 {
        s
    } else if s.last() == '_' {
        significant(s.drop_last())
    } else {
        significant(s.drop_last()).push(s.last())
    }
}

/// The radix that the prefix of `s` selects, and the index at which the
/// digits begin: `0x`, `0b` and `0o` select sixteen, two and eight; a `0`
/// before another `0` or a `.` belongs to a decimal number; any other
/// character behind a leading `0` selects nothing.
pub open spec fn radix_of(s: Seq<char>) -> Option<(u32, int)> {
    if s.len() >= 2 && s[0] == '0' {
        if s[1] == 'x' {
            Some((16u32, 2int))
        } else if s[1] == 'b' {
            Some((2u32, 2int))
        } else if s[1] == 'o' {
            Some((8u32, 2int))
        } else if s[1] == '0' || s[1] == '.' {
            Some((10u32, 0int))
        } else {
            None
        }
    } else {
        Some((10u32, 0int))
    }
}

/// The digits of `d` from `i` on, subtracted one by one from `acc` shifted:
/// the negated value of the number they write.
pub open spec fn integer_at(d: Seq<char>, i: int, radix: u32, acc: int) -> Result<
    int,
    NumberParseError,
>
    decreases d.len() - i,
{
    if i < 0 || i >= d.len() {
        Ok(acc)
    } else {
        match digit_of(d[i], radix) {
            None => Err(NumberParseError::InvalidDigit),
            Some(v) => {
                let n = acc * radix - v;
                if n < isize::MIN {
                    Err(NumberParseError::Overflow)
                } else {
                    integer_at(d, i + 1, radix, n)
                }
            },
        }
    }
}

/// The integer that the digits `d` write.
pub open spec fn integer_of(d: Seq<char>, radix: u32, negative: bool) -> Result<
    AtomView,
    NumberParseError,
> {
    match integer_at(d, 0, radix, 0) {
        Ok(n) => if negative {
            Ok(AtomView::Integer(n as isize))
        } else if -n > isize::MAX {
            Err(NumberParseError::Overflow)
        } else {
            Ok(AtomView::Integer((-n) as isize))
        },
        Err(e) => Err(e),
    }
}

/// The value of the digits of `d` from `i` up to the separator, added to
/// `acc` shifted, and the index of the separator.
pub open spec fn whole_at(d: Seq<char>, i: int, radix: u32, acc: int) -> Result<
    (int, int),
    NumberParseError,
>
    decreases d.len() - i,
{
    if i < 0 || i >= d.len() {
        Err(NumberParseError::SeparatorInWrongPosition)
    } else if d[i] == '.' {
        Ok((acc, i))
    } else {
        match digit_of(d[i], radix) {
            None => Err(NumberParseError::InvalidDigit),
            Some(v) => {
                let n = acc * radix + v;
                if n > u64::MAX {
                    Err(NumberParseError::Overflow)
                } else {
                    whole_at(d, i + 1, radix, n)
                }
            },
        }
    }
}

/// The fraction that the digits of `d` from `i` on write, over its scale,
/// and the index behind the last digit taken. Digits are taken until the
/// scale passes `PRECISION`.
pub open spec fn fraction_at(d: Seq<char>, i: int, radix: u32, acc: int, scale: int) -> Result<
    (int, int, int),
    NumberParseError,
>
    decreases d.len() - i,
{
    if i < 0 || i >= d.len() {
        Ok((acc, scale, i))
    } else {
        match digit_of(d[i], radix) {
            None => Err(NumberParseError::InvalidDigit),
            Some(v) => {
                let f = (acc + v) * radix;
                let s = scale * radix;
                if s > PRECISION {
                    Ok((f, s, i + 1))
                } else {
                    fraction_at(d, i + 1, radix, f, s)
                }
            },
        }
    }
}

/// Whether `d` holds nothing but digits from `i` on.
pub open spec fn only_digits(d: Seq<char>, i: int, radix: u32) -> bool {
    forall|k: int| i <= k < d.len() ==> (#[trigger] digit_of(d[k], radix)).is_some()
}

/// The real that the digits `d` write. A digit must stand on either side of
/// the separator.
pub open spec fn real_of(d: Seq<char>, radix: u32, negative: bool) -> Result<
    AtomView,
    NumberParseError,
> {
    if d.len() == 0 || d[0] == '.' {
        Err(NumberParseError::SeparatorInWrongPosition)
    } else {
        match whole_at(d, 0, radix, 0) {
            Err(e) => Err(e),
            Ok((whole, dot)) => if dot + 1 >= d.len() {
                Err(NumberParseError::SeparatorInWrongPosition)
            } else {
                match fraction_at(d, dot + 1, radix, 0, radix as int) {
                    Err(e) => Err(e),
                    Ok((fraction, scale, next)) => if only_digits(d, next, radix) {
                        Ok(
                            AtomView::Real(
                                Real {
                                    negative,
                                    whole: whole as u64,
                                    fraction: fraction as u64,
                                    scale: scale as u64,
                                },
                            ),
                        )
                    } else {
                        Err(NumberParseError::InvalidDigit)
                    },
                }
            },
        }
    }
}

/// The number that the text `s` writes: an integer, or a real where `s`
/// holds a `.`. Underscores between the digits count for nothing, and a `-`
/// may stand before the digits.
#[verifier::opaque]
pub open spec fn number_of(s: Seq<char>) -> Result<AtomView, NumberParseError> {
    if s.len() == 1 && s[0] == '0' {
        Ok(AtomView::Integer(0))
    } else {
        match radix_of(s) {
            None => Err(NumberParseError::InvalidBase),
            Some((radix, start)) => if s.len() == 0 {
                Err(NumberParseError::Empty)
            } else {
                let negative = start < s.len() && s[start] == '-';
                let from = if negative {
                    start + 1
                } else {
                    start
                };
                let d = significant(s.subrange(from, s.len() as int));
                if s.contains('.') {
                    real_of(d, radix, negative)
                } else {
                    integer_of(d, radix, negative)
                }
            },
        }
    }
}

fn has_separator(chars: &[char]) -> (r: bool)
    ensures
        r == chars@.contains('.'),
{
    let mut i: usize = 0;
    while i < chars.len()
        invariant
            i <= chars@.len(),
            forall|k: int| 0 <= k < i ==> chars@[k] != '.',
        decreases chars@.len() - i,
    {
        if chars[i] == '.' {
            return true;
        }
        i += 1;
    }
    false
}

fn read_integer(d: &[char], radix: u32, negative: bool) -> (r: Result<Atom, NumberParseError>)
    requires
        2 <= radix <= 16,
    ensures
        match r {
            Ok(a) => integer_of(d@, radix, negative) == Ok::<AtomView, NumberParseError>(a@),
            Err(e) => integer_of(d@, radix, negative) == Err::<AtomView, NumberParseError>(e),
        },
{
    let mut acc: isize = 0;
    let mut i: usize = 0;
    while i < d.len()
        invariant
            2 <= radix <= 16,
            i <= d@.len(),
            acc <= 0,
            integer_at(d@, 0, radix, 0) == integer_at(d@, i as int, radix, acc as int),
        decreases d@.len() - i,
    {
        match digit_value(d[i], radix) {
            None => {
                return Err(NumberParseError::InvalidDigit);
            },
            Some(v) => {
                assert(acc * radix <= 0) by (nonlinear_arith)
                    requires
                        acc <= 0,
                        radix >= 0,
                ;
                match acc.checked_mul(radix as isize) {
                    None => {
                        return Err(NumberParseError::Overflow);
                    },
                    Some(shifted) => match shifted.checked_sub(v as isize) {
                        None => {
                            return Err(NumberParseError::Overflow);
                        },
                        Some(n) => {
                            acc = n;
                        },
                    },
                }
            },
        }
        i += 1;
    }
    if negative {
        Ok(Atom::Integer(acc))
    } else {
        if acc == isize::MIN {
            Err(NumberParseError::Overflow)
        } else {
            Ok(Atom::Integer(-acc))
        }
    }
}

#[verifier::loop_isolation(false)]
fn read_real(d: &[char], radix: u32, negative: bool) -> (r: Result<Atom, NumberParseError>)
    requires
        2 <= radix <= 16,
    ensures
        match r {
            Ok(a) => real_of(d@, radix, negative) == Ok::<AtomView, NumberParseError>(a@),
            Err(e) => real_of(d@, radix, negative) == Err::<AtomView, NumberParseError>(e),
        },
{
    if d.len() == 0 || d[0] == '.' {
        return Err(NumberParseError::SeparatorInWrongPosition);
    }
    let mut whole: u64 = 0;
    let mut i: usize = 0;
    let mut found = false;
    while !found
        invariant
            i <= d@.len(),
            !found ==> whole_at(d@, 0, radix, 0) == whole_at(d@, i as int, radix, whole as int),
            found ==> i < d@.len() && whole_at(d@, 0, radix, 0) == Ok::<
                (int, int),
                NumberParseError,
            >((whole as int, i as int)),
        decreases
                d@.len() - i + (if found {
                    0int
                } else {
                    1int
                }),
    {
        if i >= d.len() {
            return Err(NumberParseError::SeparatorInWrongPosition);
        }
        if d[i] == '.' {
            found = true;
        } else {
            match digit_value(d[i], radix) {
                None => {
                    return Err(NumberParseError::InvalidDigit);
                },
                Some(v) => {
                    assert(whole * radix >= 0) by (nonlinear_arith)
                        requires
                            whole >= 0,
                            radix >= 0,
                    ;
                    match whole.checked_mul(radix as u64) {
                        None => {
                            return Err(NumberParseError::Overflow);
                        },
                        Some(shifted) => match shifted.checked_add(v as u64) {
                            None => {
                                return Err(NumberParseError::Overflow);
                            },
                            Some(n) => {
                                whole = n;
                            },
                        },
                    }
                },
            }
            i += 1;
        }
    }
    if i + 1 >= d.len() {
        return Err(NumberParseError::SeparatorInWrongPosition);
    }
    let ghost dot = i as int;
    let mut fraction: u64 = 0;
    let mut scale: u64 = radix as u64;
    i += 1;
    let mut full = false;
    while i < d.len() && !full
        invariant
            2 <= radix <= 16,
            dot < i <= d@.len(),
            fraction + radix <= scale,
            !full ==> scale <= PRECISION,
            scale <= PRECISION * 16,
            !full ==> fraction_at(d@, dot + 1, radix, 0, radix as int) == fraction_at(
                d@,
                i as int,
                radix,
                fraction as int,
                scale as int,
            ),
            full ==> fraction_at(d@, dot + 1, radix, 0, radix as int) == Ok::<
                (int, int, int),
                NumberParseError,
            >((fraction as int, scale as int, i as int)),
        decreases d@.len() - i,
    {
        match digit_value(d[i], radix) {
            None => {
                return Err(NumberParseError::InvalidDigit);
            },
            Some(v) => {
                assert((fraction + v) * radix + radix <= scale * radix) by (nonlinear_arith)
                    requires
                        fraction + v + 1 <= scale,
                        radix >= 0,
                ;
                assert(scale * radix <= PRECISION * 16) by (nonlinear_arith)
                    requires
                        0 <= scale <= PRECISION,
                        0 <= radix <= 16,
                ;
                assert((fraction + v) * radix >= 0) by (nonlinear_arith)
                    requires
                        fraction + v >= 0,
                        radix >= 0,
                ;
                fraction = (fraction + v as u64) * (radix as u64);
                scale = scale * (radix as u64);
                i += 1;
                if scale > PRECISION {
                    full = true;
                }
            },
        }
    }
    let ghost next = i as int;
    while i < d.len()
        invariant
            0 <= next <= i <= d@.len(),
            forall|k: int| next <= k < i ==> (#[trigger] digit_of(d@[k], radix)).is_some(),
        decreases d@.len() - i,
    {
        if digit_value(d[i], radix).is_none() {
            return Err(NumberParseError::InvalidDigit);
        }
        i += 1;
    }
    Ok(Atom::Real(Real { negative, whole, fraction, scale }))
}

/// Reads the number that `chars` write.
pub fn read_number(chars: &[char]) -> (r: Result<Atom, NumberParseError>)
    ensures
        match r {
            Ok(a) => number_of(chars@) == Ok::<AtomView, NumberParseError>(a@),
            Err(e) => number_of(chars@) == Err::<AtomView, NumberParseError>(e),
        },
{
    proof {
        reveal(number_of);
    }
    let n = chars.len();
    if n == 1 && chars[0] == '0' {
        return Ok(Atom::Integer(0));
    }
    let mut radix: u32 = 10;
    let mut start: usize = 0;
    if n >= 2 && chars[0] == '0' {
        let c = chars[1];
        if c == 'x' {
            radix = 16;
            start = 2;
        } else if c == 'b' {
            radix = 2;
            start = 2;
        } else if c == 'o' {
            radix = 8;
            start = 2;
        } else if c == '0' || c == '.' {
        } else {
            return Err(NumberParseError::InvalidBase);
        }
    }
    if n == 0 {
        return Err(NumberParseError::Empty);
    }
    let negative = start < n && chars[start] == '-';
    let from: usize = if negative {
        start + 1
    } else {
        start
    };
    let mut d: Vec<char> = Vec::new();
    let mut k: usize = from;
    assert(chars@.subrange(from as int, k as int) =~= Seq::<char>::empty());
    while k < n
        invariant
            n == chars@.len(),
            from <= k <= n,
            d@ == significant(chars@.subrange(from as int, k as int)),
        decreases n - k,
    {
        proof {
            reveal(number_of);
        }
        let c = chars[k];
        assert(chars@.subrange(from as int, k + 1).drop_last() =~= chars@.subrange(
            from as int,
            k as int,
        ));
        if c != '_' {
            d.push(c);
        }
        k += 1;
    }
    if has_separator(chars) {
        read_real(d.as_slice(), radix, negative)
    } else {
        read_integer(d.as_slice(), radix, negative)
    }
}

/// Reads the number that the text `s` writes.
pub fn parse_number(s: &str) -> (r: Result<Atom, NumberParseError>)
    ensures
        match r {
            Ok(a) => number_of(s@) == Ok::<AtomView, NumberParseError>(a@),
            Err(e) => number_of(s@) == Err::<AtomView, NumberParseError>(e),
        },
{
    let chars = to_chars(s);
    read_number(chars.as_slice())
}

} // verus!
