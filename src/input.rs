//! Validation of the operator's inputs: a size budget in mebibytes and a
//! retention period in days, both written as decimal numbers with an optional
//! leading `+`. Invalid input
//! is refused before any filesystem access.
use vstd::prelude::*;

verus! {

/// Input that cannot be used.
#[derive(PartialEq, Eq, Structural, Debug, Clone, Copy)]
pub enum InputError {
    /// The size budget is not a number of mebibytes that fits in bytes.
    InvalidBudget,
    /// The retention period is not a number of days that fits in seconds.
    InvalidCutoff,
}

pub open spec fn is_digit(b: u8) -> bool {
    48u8 <= b <= 57u8
}

/// The text is a non-empty run of ASCII digits.
pub open spec fn all_digits(s: Seq<u8>) -> bool {
    s.len() > 0 && forall|i: int| 0 <= i < s.len() ==> is_digit(#[trigger] s[i])
}

/// Decimal value of the first `k` bytes of `s`.
pub open spec fn decimal_prefix(s: Seq<u8>, k: int) -> int
    decreases k,
{
    if k <= 0 {
        0
    } else {
        decimal_prefix(s, k - 1) * 10 + (s[k - 1] - 48u8)
    }
}

/// Decimal value of `s`.
pub open spec fn decimal(s: Seq<u8>) -> int {
    decimal_prefix(s, s.len() as int)
}

proof fn lemma_decimal_prefix_grows(s: Seq<u8>, j: int, k: int)
    requires
        0 <= j <= k <= s.len(),
        all_digits(s),
    ensures
        0 <= decimal_prefix(s, j) <= decimal_prefix(s, k),
    decreases k,
{
    if k > j {
        lemma_decimal_prefix_grows(s, j, k - 1);
        assert(is_digit(s[k - 1]));
    } else if j > 0 {
        lemma_decimal_prefix_grows(s, j - 1, j - 1);
        assert(is_digit(s[j - 1]));
    }
}

/// The digits of a number written with an optional leading `+`.
pub open spec fn unsigned_text(s: Seq<u8>) -> Seq<u8> {
    if s.len() > 0 && s[0] == 43u8 {
        s.drop_first()
    } else {
        s
    }
}

/// The number that `text` spells in decimal, after an optional leading `+`;
/// `None` when the rest is not a non-empty run of digits or its value does
/// not fit in a `u64`.
pub fn parse_decimal(text: &Vec<u8>) -> (r: Option<u64>)
    ensures
        match r {
            Some(v) => all_digits(unsigned_text(text@)) && v == decimal(unsigned_text(text@)),
            None => !all_digits(unsigned_text(text@)) || decimal(unsigned_text(text@)) > u64::MAX,
        },
{
    if text.len() > 0 && text[0] == 43u8 {
        let mut rest: Vec<u8> = Vec::new();
        let mut k: usize = 1;
        while k < text.len()
            invariant
                1 <= k <= text@.len(),
                rest@ == text@.subrange(1, k as int),
            decreases text.len() - k,
        {
            rest.push(text[k]);
            k = k + 1;
            assert(rest@ =~= text@.subrange(1, k as int));
        }
        assert(rest@ =~= text@.drop_first());
        parse_digits(&rest)
    } else {
        parse_digits(text)
    }
}

/// The number that `text` spells in decimal; `None` when it is not a
/// non-empty run of digits or its value does not fit in a `u64`.
fn parse_digits(text: &Vec<u8>) -> (r: Option<u64>)
    ensures
        match r {
            Some(v) => all_digits(text@) && v == decimal(text@),
            None => !all_digits(text@) || decimal(text@) > u64::MAX,
        },
{
    if text.len() == 0 {
        return None;
    }
    let mut k: usize = 0;
    while k < text.len()
        invariant
            k <= text@.len(),
            forall|i: int| 0 <= i < k ==> is_digit(#[trigger] text@[i]),
        decreases text.len() - k,
    {
        if !(48u8 <= text[k] && text[k] <= 57u8) {
            return None;
        }
        k = k + 1;
    }
    let mut value: u64 = 0;
    let mut k: usize = 0;
    while k < text.len()
        invariant
            k <= text@.len(),
            all_digits(text@),
            value == decimal_prefix(text@, k as int),
        decreases text.len() - k,
    {
        let d = (text[k] - 48u8) as u64;
        let next = match value.checked_mul(10) {
            Some(t) => t.checked_add(d),
            None => None,
        };
        match next {
            Some(v) => {
                value = v;
            },
            None => {
                proof {
                    assert(is_digit(text@[k as int]));
                    lemma_decimal_prefix_grows(text@, k + 1, text@.len() as int);
                }
                return None;
            },
        }
        k = k + 1;
    }
    Some(value)
}

/// A size budget given in mebibytes, in bytes; `None` when it does not fit.
pub fn megabytes_to_bytes(mb: u64) -> (r: Option<u64>)
    ensures
        match r {
            Some(b) => b == mb * 1048576,
            None => mb * 1048576 > u64::MAX,
        },
{
    mb.checked_mul(1048576)
}

/// A retention period given in days, in seconds; `None` when it does not fit.
pub fn days_to_seconds(days: u64) -> (r: Option<u64>)
    ensures
        match r {
            Some(s) => s == days * 86400,
            None => days * 86400 > u64::MAX,
        },
{
    days.checked_mul(86400)
}

/// The byte budget that `text` gives in mebibytes.
pub fn parse_budget(text: &Vec<u8>) -> (r: Result<u64, InputError>)
    ensures
        match r {
            Ok(b) => all_digits(unsigned_text(text@)) && b == decimal(unsigned_text(text@)) * 1048576,
            Err(e) => e == InputError::InvalidBudget && (!all_digits(unsigned_text(text@)) || decimal(
                unsigned_text(text@),
            ) * 1048576 > u64::MAX),
        },
{
    match parse_decimal(text) {
        Some(mb) => match megabytes_to_bytes(mb) {
            Some(b) => Ok(b),
            None => Err(InputError::InvalidBudget),
        },
        None => {
            proof {
                let t = unsigned_text(text@);
                if all_digits(t) {
                    lemma_decimal_prefix_grows(t, 0, t.len() as int);
                    assert(decimal(t) * 1048576 >= decimal(t)) by (nonlinear_arith)
                        requires
                            decimal(t) >= 0,
                    ;
                }
            }
            Err(InputError::InvalidBudget)
        },
    }
}

/// The retention period in seconds that `text` gives in days.
pub fn parse_days(text: &Vec<u8>) -> (r: Result<u64, InputError>)
    ensures
        match r {
            Ok(s) => all_digits(unsigned_text(text@)) && s == decimal(unsigned_text(text@)) * 86400,
            Err(e) => e == InputError::InvalidCutoff && (!all_digits(unsigned_text(text@)) || decimal(
                unsigned_text(text@),
            ) * 86400 > u64::MAX),
        },
{
    match parse_decimal(text) {
        Some(d) => match days_to_seconds(d) {
            Some(s) => Ok(s),
            None => Err(InputError::InvalidCutoff),
        },
        None => {
            proof {
                let t = unsigned_text(text@);
                if all_digits(t) {
                    lemma_decimal_prefix_grows(t, 0, t.len() as int);
                    assert(decimal(t) * 86400 >= decimal(t)) by (nonlinear_arith)
                        requires
                            decimal(t) >= 0,
                    ;
                }
            }
            Err(InputError::InvalidCutoff)
        },
    }
}

} // verus!
