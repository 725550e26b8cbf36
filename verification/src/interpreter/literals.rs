use vstd::prelude::*;

verus! {

/// Why a string failed to convert into an unsigned integer, in the order in
/// which `usize::from_str_radix` reports it.
#[derive(Debug, Clone, Copy, PartialEq, Eq, Structural)]
pub enum IntErrorKind {
    Empty,
    InvalidDigit,
    PosOverflow,
}

pub open spec fn digit_value(c: char, radix: nat) -> Option<nat> {
    if '0' <= c && c <= '9' && (c as nat) - ('0' as nat) < radix {
        Some(((c as nat) - ('0' as nat)) as nat)
    } else {
        None
    }
}

/// Left-to-right accumulation of `digits` in base `radix`, stopping at the
/// first character that is not a digit or at the first step whose value
/// exceeds `usize::MAX`.
pub open spec fn fold_digits(digits: Seq<char>, radix: nat) -> Result<nat, IntErrorKind>
    decreases digits.len(),
{
    if digits.len() == 0 {
        Ok(0)
    } else {
        match fold_digits(digits.drop_last(), radix) {
            Err(e) => Err(e),
            Ok(v) => match digit_value(digits.last(), radix) {
                None => Err(IntErrorKind::InvalidDigit),
                Some(d) => if v * radix + d > usize::MAX {
                    Err(IntErrorKind::PosOverflow)
                } else {
                    Ok(v * radix + d)
                },
            },
        }
    }
}

/// The value that `usize::from_str_radix(s, radix)` yields: an optional
/// leading `+`, then at least one digit.
pub open spec fn parse_unsigned(s: Seq<char>, radix: nat) -> Result<usize, IntErrorKind> {
    if s.len() == 0 {
        Err(IntErrorKind::Empty)
    } else if s[0] == '+' && s.len() == 1 {
        Err(IntErrorKind::InvalidDigit)
    } else {
        let digits = if s[0] == '+' { s.skip(1) } else { s };
        match fold_digits(digits, radix) {
            Ok(v) => Ok(v as usize),
            Err(e) => Err(e),
        }
    }
}

proof fn lemma_fold_bound(digits: Seq<char>, radix: nat)
    ensures
        fold_digits(digits, radix) matches Ok(v) ==> v <= usize::MAX,
    decreases digits.len(),
{
    if digits.len() > 0 {
        lemma_fold_bound(digits.drop_last(), radix);
    }
}

proof fn lemma_fold_err_extends(digits: Seq<char>, k: int, radix: nat)
    requires
        0 <= k <= digits.len(),
        fold_digits(digits.take(k), radix) is Err,
    ensures
        fold_digits(digits, radix) == fold_digits(digits.take(k), radix),
    decreases digits.len() - k,
{
    if k < digits.len() {
        assert(digits.take(k + 1).drop_last() =~= digits.take(k));
        lemma_fold_err_extends(digits, k + 1, radix);
    } else {
        assert(digits.take(k) =~= digits);
    }
}

/// Converts `s` to an unsigned integer in base 2 or 10, as
/// `usize::from_str_radix` does.
pub fn parse_unsigned_exec(s: &[char], radix: usize) -> (res: Result<usize, IntErrorKind>)
    requires
        radix == 2 || radix == 10,
    ensures
        res == parse_unsigned(s@, radix as nat),
{
    let n = s.len();
    if n == 0 {
        return Err(IntErrorKind::Empty);
    }
    if s[0] == '+' && n == 1 {
        return Err(IntErrorKind::InvalidDigit);
    }
    let start: usize = if s[0] == '+' { 1 } else { 0 };
    let ghost digits = if s@[0] == '+' { s@.skip(1) } else { s@ };
    let mut acc: usize = 0;
    let mut i: usize = start;
    while i < n
        invariant
            start <= i <= n,
            n == s@.len(),
            radix == 2 || radix == 10,
            digits == s@.subrange(start as int, n as int),
            n > 0,
            !(s@[0] == '+' && n == 1),
            digits == (if s@[0] == '+' { s@.skip(1) } else { s@ }),
            fold_digits(digits.take(i - start), radix as nat) == Ok::<nat, IntErrorKind>(acc as nat),
        decreases n - i,
    {
        let c = s[i];
        assert(digits.take(i - start + 1).drop_last() =~= digits.take(i - start));
        assert(digits.take(i - start + 1).last() == c);
        let d: usize;
        if '0' <= c && c <= '9' && ((c as u32) - ('0' as u32)) < (radix as u32) {
            d = ((c as u32) - ('0' as u32)) as usize;
        } else {
            proof {
                assert(digit_value(c, radix as nat) is None);
                assert(fold_digits(digits.take(i - start + 1), radix as nat) == Err::<nat, IntErrorKind>(IntErrorKind::InvalidDigit));
                lemma_fold_err_extends(digits, i - start + 1, radix as nat);
            }
            return Err(IntErrorKind::InvalidDigit);
        }
        if acc > (usize::MAX - d) / radix {
            proof {
                assert(acc * radix + d > usize::MAX) by (nonlinear_arith)
                    requires acc > (usize::MAX - d) as int / radix as int, radix > 0, d <= usize::MAX;
                assert(digit_value(c, radix as nat) == Some(d as nat));
                assert(fold_digits(digits.take(i - start + 1), radix as nat) == Err::<nat, IntErrorKind>(IntErrorKind::PosOverflow));
                lemma_fold_err_extends(digits, i - start + 1, radix as nat);
            }
            return Err(IntErrorKind::PosOverflow);
        }
        proof {
            assert(acc * radix + d <= usize::MAX) by (nonlinear_arith)
                requires acc <= (usize::MAX - d) as int / radix as int, radix > 0, d <= usize::MAX;
        }
        acc = acc * radix + d;
        i = i + 1;
    }
    assert(digits.take(n - start) =~= digits);
    Ok(acc)
}

/// The characters after the first two bytes of `s` (a bits literal starts
/// with `0b`); defined where byte 2 falls on a character boundary.
pub open spec fn bits_digits(s: Seq<char>) -> Seq<char> {
    if (s[0] as u32) < 0x80 { s.skip(2) } else { s.skip(1) }
}

/// Byte 2 of the UTF-8 encoding of `s` is a character boundary.
pub open spec fn bits_literal_sliceable(s: Seq<char>) -> bool {
    ||| s.len() >= 2 && (s[0] as u32) < 0x80 && (s[1] as u32) < 0x80
    ||| s.len() >= 1 && 0x80 <= (s[0] as u32) < 0x800
}

pub fn bits_digits_exec(s: &[char]) -> (res: &[char])
    requires
        bits_literal_sliceable(s@),
    ensures
        res@ == bits_digits(s@),
{
    if (s[0] as u32) < 0x80 {
        &s[2..s.len()]
    } else {
        &s[1..s.len()]
    }
}

} // verus!
