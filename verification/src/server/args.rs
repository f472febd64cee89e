//! Numeric command-line values of the server: decimal numbers read the way
//! `str::parse` reads them for unsigned integers.
use vstd::prelude::*;
use vstd::string::StringSliceAdditionalSpecFns;

verus! {

/// Why a string is not an unsigned decimal number.
#[derive(Debug, Clone, Copy, PartialEq, Eq, Structural)]
pub enum IntErrorKind {
    /// The string is empty.
    Empty,
    /// A byte is not a decimal digit (or the string is a lone `+`).
    InvalidDigit,
    /// The number is too large for the target type.
    PosOverflow,
}

/// Why a command-line value was refused.
#[derive(Debug, Clone, PartialEq, Eq)]
pub enum ArgError {
    /// The flag expects a positive integer and got something that is no number.
    NotPositiveInteger { flag: String, kind: IntErrorKind },
    /// The flag expects a value greater than 0 and got 0.
    Zero { flag: String },
    /// The flag expects a non-negative integer and got something that is no number.
    NotNonNegativeInteger { flag: String, kind: IntErrorKind },
}

/// Whether a byte is one of `0` to `9`.
pub open spec fn is_digit(b: u8) -> bool {
    48 <= b <= 57
}

/// The number that a run of decimal digits writes.
pub open spec fn decimal_value(ds: Seq<u8>) -> nat
    decreases ds.len(),
{
    if ds.len() == 0 {
        0
    } else {
        decimal_value(ds.drop_last()) * 10 + (ds.last() - 48) as nat
    }
}

/// How many digits `ds` starts with.
pub open spec fn digit_run(ds: Seq<u8>) -> nat
    decreases ds.len(),
{
    if ds.len() == 0 || !is_digit(ds[0]) {
        0
    } else {
        1 + digit_run(ds.drop_first())
    }
}

/// The bytes after an optional leading `+`.
pub open spec fn unsigned_digits(s: Seq<u8>) -> Seq<u8> {
    if s.len() > 0 && s[0] == 43 {
        s.drop_first()
    } else {
        s
    }
}

/// What `str::parse` makes of the bytes `s` for an unsigned type whose largest
/// value is `max`: an optional `+`, then digits only; a number beyond `max`
/// overflows, and an overflow in the leading digits is reported before a later
/// non-digit.
pub open spec fn spec_parse_unsigned(s: Seq<u8>, max: nat) -> Result<nat, IntErrorKind> {
    let ds = unsigned_digits(s);
    if s.len() == 0 {
        Err(IntErrorKind::Empty)
    } else if ds.len() == 0 {
        Err(IntErrorKind::InvalidDigit)
    } else if decimal_value(ds.take(digit_run(ds) as int)) > max {
        Err(IntErrorKind::PosOverflow)
    } else if digit_run(ds) < ds.len() {
        Err(IntErrorKind::InvalidDigit)
    } else {
        Ok(decimal_value(ds))
    }
}

/// The first `k` bytes of `ds` are digits exactly when its digit run is at least `k`.
proof fn lemma_digit_run(ds: Seq<u8>, k: int)
    requires
        0 <= k <= ds.len(),
    ensures
        (forall|i: int| 0 <= i < k ==> is_digit(#[trigger] ds[i])) <==> digit_run(ds) >= k,
        digit_run(ds) <= ds.len(),
    decreases k,
{
    if k > 0 {
        lemma_digit_run(ds.drop_first(), k - 1);
        if digit_run(ds) >= k {
            assert forall|i: int| 0 <= i < k implies is_digit(#[trigger] ds[i]) by {
                if i > 0 {
                    assert(ds.drop_first()[i - 1] == ds[i]);
                }
            }
        }
        if forall|i: int| 0 <= i < k ==> is_digit(#[trigger] ds[i]) {
            assert forall|i: int| 0 <= i < k - 1 implies is_digit(#[trigger] ds.drop_first()[i]) by {
                assert(is_digit(ds[i + 1]));
            }
        }
    } else {
        lemma_digit_run_bound(ds);
    }
}

/// A digit run is no longer than the bytes it runs over.
proof fn lemma_digit_run_bound(ds: Seq<u8>)
    ensures
        digit_run(ds) <= ds.len(),
    decreases ds.len(),
{
    if ds.len() > 0 {
        lemma_digit_run_bound(ds.drop_first());
    }
}

/// A longer prefix of digits writes a number at least as large.
proof fn lemma_decimal_monotone(ds: Seq<u8>, j: int, k: int)
    requires
        0 <= j <= k <= ds.len(),
        forall|i: int| 0 <= i < k ==> is_digit(#[trigger] ds[i]),
    ensures
        decimal_value(ds.take(j)) <= decimal_value(ds.take(k)),
    decreases k - j,
{
    if j < k {
        lemma_decimal_monotone(ds, j, k - 1);
        assert(ds.take(k).drop_last() =~= ds.take(k - 1));
    }
}

/// Reads the bytes `s` as `str::parse` reads an unsigned number no larger than `max`.
fn parse_unsigned(s: &[u8], max: u64) -> (res: Result<u64, IntErrorKind>)
    requires
        max >= 9,
    ensures
        res matches Ok(r) ==> r <= max,
        match spec_parse_unsigned(s@, max as nat) {
            Ok(v) => res matches Ok(r) && r == v,
            Err(e) => res == Err::<u64, IntErrorKind>(e),
        },
{
    if s.len() == 0 {
        return Err(IntErrorKind::Empty);
    }
    let start: usize = if s[0] == 43 { 1 } else { 0 };
    let ghost ds = unsigned_digits(s@);
    assert(ds =~= s@.skip(start as int));
    if start == s.len() {
        return Err(IntErrorKind::InvalidDigit);
    }
    let mut acc: u64 = 0;
    let mut i: usize = start;
    while i < s.len()
        invariant
            start <= i <= s.len(),
            ds == s@.skip(start as int),
            ds == unsigned_digits(s@),
            ds.len() > 0,
            s@.len() > 0,
            max >= 9,
            forall|j: int| 0 <= j < i - start ==> is_digit(#[trigger] ds[j]),
            acc == decimal_value(ds.take(i - start)),
            acc <= max,
        decreases s.len() - i,
    {
        let b = s[i];
        proof {
            lemma_digit_run(ds, i - start);
        }
        assert(ds[i - start] == b);
        if b < 48 || b > 57 {
            proof {
                lemma_digit_run(ds, i - start + 1);
                assert(digit_run(ds) == i - start);
            }
            return Err(IntErrorKind::InvalidDigit);
        }
        let d: u64 = (b - 48) as u64;
        assert(ds.take(i - start + 1).drop_last() =~= ds.take(i - start));
        if acc > (max - d) / 10 {
            assert(acc * 10 + d > max) by (nonlinear_arith)
                requires
                    acc > (max - d) / 10,
                    d <= max,
            {
            }
            proof {
                lemma_digit_run(ds, i - start + 1);
                lemma_digit_run_bound(ds);
                lemma_digit_run(ds, digit_run(ds) as int);
                lemma_decimal_monotone(ds, i - start + 1, digit_run(ds) as int);
            }
            return Err(IntErrorKind::PosOverflow);
        }
        assert(acc * 10 + d <= max) by (nonlinear_arith)
            requires
                acc <= (max - d) / 10,
                d <= max,
        {
        }
        acc = acc * 10 + d;
        i = i + 1;
    }
    proof {
        lemma_digit_run(ds, ds.len() as int);
        assert(ds.take(ds.len() as int) =~= ds);
    }
    Ok(acc)
}

/// Reads a value that must be an integer greater than 0.
pub fn parse_u64(value: &str, flag: &str) -> (res: Result<u64, ArgError>)
    ensures
        match spec_parse_unsigned(value.spec_bytes(), u64::MAX as nat) {
            Ok(v) => if v == 0 {
                res matches Err(ArgError::Zero { flag: f }) && f@ == flag@
            } else {
                res matches Ok(r) && r == v
            },
            Err(e) => res matches Err(ArgError::NotPositiveInteger { flag: f, kind })
                && f@ == flag@ && kind == e,
        },
{
    match parse_unsigned(value.as_bytes(), u64::MAX) {
        Ok(parsed) => {
            if parsed == 0 {
                Err(ArgError::Zero { flag: flag.to_owned() })
            } else {
                Ok(parsed)
            }
        },
        Err(kind) => Err(ArgError::NotPositiveInteger { flag: flag.to_owned(), kind }),
    }
}

/// Reads a value that must be a non-negative integer.
pub fn parse_usize(value: &str, flag: &str) -> (res: Result<usize, ArgError>)
    ensures
        match spec_parse_unsigned(value.spec_bytes(), usize::MAX as nat) {
            Ok(v) => res matches Ok(r) && r == v,
            Err(e) => res matches Err(ArgError::NotNonNegativeInteger { flag: f, kind })
                && f@ == flag@ && kind == e,
        },
{
    match parse_unsigned(value.as_bytes(), usize::MAX as u64) {
        Ok(parsed) => Ok(parsed as usize),
        Err(kind) => Err(ArgError::NotNonNegativeInteger { flag: flag.to_owned(), kind }),
    }
}

} // verus!
