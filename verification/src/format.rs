use vstd::prelude::*;
use vstd::string::StrSliceExecFns;

use crate::errors::{FieldId, ReadError};
use crate::reader::ReadResult;

verus! {

/// One elementary format of a sub-field value.
#[derive(Debug, Clone, Copy, PartialEq, Eq, Structural)]
pub enum FormatKind {
    /// `b1w`: a `w`-byte little-endian unsigned binary integer.
    BinaryUnsigned(u8),
    /// `b2w`: a `w`-byte little-endian two's-complement integer.
    BinarySigned(u8),
    /// `A`: text delimited by the next unit terminator.
    TextDelimited,
    /// `A(n)`: exactly `n` bytes of text.
    TextFixed(u64),
    /// `I(n)`: exactly `n` ASCII digit bytes read as an unsigned decimal.
    IntegerFixed(u64),
    /// `B(n)`: a bit field of `n` bits, `n` a multiple of 8, kept as raw
    /// bytes.
    Bits(u64),
}

/// One item of a format-control list: a format with its repeat count.
#[derive(Debug, Clone, Copy, PartialEq, Eq, Structural)]
pub struct FormatControl {
    pub count: u64,
    pub kind: FormatKind,
}

/// True of a character that is an ASCII decimal digit.
pub open spec fn is_digit_char(c: char) -> bool {
    0x30 <= c as u32 <= 0x39
}

/// The first position in `[i, end)` holding a non-digit, or `end` when all
/// are digits.
pub open spec fn digits_end(s: Seq<char>, i: int, end: int) -> int
    decreases end - i,
{
    if i >= end {
        end
    } else if !is_digit_char(s[i]) {
        i
    } else {
        digits_end(s, i + 1, end)
    }
}

/// The value of the digit run `[i, k)` read as an unsigned decimal.
pub open spec fn char_run_value(s: Seq<char>, i: int, k: int) -> int
    decreases k - i,
{
    if i >= k {
        0
    } else {
        char_run_value(s, i, k - 1) * 10 + (s[k - 1] as u32 - 0x30)
    }
}

/// Parses one format item at `i`: an optional repeat count followed by one
/// format, ending at a comma or at `end`.
pub open spec fn spec_parse_item(s: Seq<char>, i: int, end: int) -> Option<(FormatControl, int)> {
    let k = digits_end(s, i, end);
    let count = if k == i {
        1int
    } else {
        char_run_value(s, i, k)
    };
    if count < 1 || count > u64::MAX {
        None
    } else {
        match spec_parse_kind(s, k, end) {
            None => None,
            Some((kind, j)) => Some((FormatControl { count: count as u64, kind }, j)),
        }
    }
}

/// Parses one parenthesized decimal argument at `i`, as in `(40)`.
pub open spec fn spec_parse_paren_arg(s: Seq<char>, i: int, end: int) -> Option<(int, int)> {
    if i >= end || s[i] != '(' {
        None
    } else {
        let d = digits_end(s, i + 1, end);
        if d == i + 1 {
            None
        } else if d >= end || s[d] != ')' {
            None
        } else {
            let n = char_run_value(s, i + 1, d);
            if n < 1 || n > u64::MAX {
                None
            } else {
                Some((n, d + 1))
            }
        }
    }
}

/// Parses one format at `i`: a binary format `b` with two digits, or one
/// of the letters `A`, `I`, `B`, the last two with a mandatory
/// parenthesized width.
pub open spec fn spec_parse_kind(s: Seq<char>, i: int, end: int) -> Option<(FormatKind, int)> {
    if i >= end {
        None
    } else if s[i] == 'b' {
        if i + 3 > end || !is_digit_char(s[i + 1]) || !is_digit_char(s[i + 2]) {
            None
        } else {
            let sub = s[i + 1] as u32 - 0x30;
            let w = s[i + 2] as u32 - 0x30;
            if w < 1 || w > 8 {
                None
            } else if sub == 1 {
                Some((FormatKind::BinaryUnsigned(w as u8), i + 3))
            } else if sub == 2 {
                Some((FormatKind::BinarySigned(w as u8), i + 3))
            } else {
                None
            }
        }
    } else if s[i] == 'A' {
        if i + 1 < end && s[i + 1] == '(' {
            match spec_parse_paren_arg(s, i + 1, end) {
                None => None,
                Some((n, j)) => Some((FormatKind::TextFixed(n as u64), j)),
            }
        } else {
            Some((FormatKind::TextDelimited, i + 1))
        }
    } else if s[i] == 'I' {
        match spec_parse_paren_arg(s, i + 1, end) {
            None => None,
            Some((n, j)) => Some((FormatKind::IntegerFixed(n as u64), j)),
        }
    } else if s[i] == 'B' {
        match spec_parse_paren_arg(s, i + 1, end) {
            None => None,
            Some((n, j)) => {
                if n % 8 != 0 {
                    None
                } else {
                    Some((FormatKind::Bits(n as u64), j))
                }
            },
        }
    } else {
        None
    }
}

/// Parses the comma-separated format items between `i` and `end`.
pub open spec fn spec_parse_items(s: Seq<char>, i: int, end: int) -> Option<Seq<FormatControl>>
    decreases end - i,
    when i <= end
    via spec_parse_items_decreases
{
    match spec_parse_item(s, i, end) {
        None => None,
        Some((fc, j)) => {
            if j == end {
                Some(seq![fc])
            } else if j > end || s[j] != ',' {
                None
            } else {
                match spec_parse_items(s, j + 1, end) {
                    None => None,
                    Some(rest) => Some(seq![fc] + rest),
                }
            }
        },
    }
}

/// A parsed item always ends past where it began and never past `end`.
pub proof fn lemma_parse_item_advance(s: Seq<char>, i: int, end: int)
    requires
        i <= end,
        spec_parse_item(s, i, end) is Some,
    ensures
        i < (spec_parse_item(s, i, end)->0).1 <= end,
{
    lemma_digits_end_bounds(s, i, end);
    let k = digits_end(s, i, end);
    lemma_parse_kind_advance(s, k, end);
}

/// The digit run never leaves the range it scans.
pub proof fn lemma_digits_end_bounds(s: Seq<char>, i: int, end: int)
    requires
        i <= end,
    ensures
        i <= digits_end(s, i, end) <= end,
    decreases end - i,
{
    if i < end && is_digit_char(s[i]) {
        lemma_digits_end_bounds(s, i + 1, end);
    }
}

/// A parsed format always ends past where it began and never past `end`.
pub proof fn lemma_parse_kind_advance(s: Seq<char>, i: int, end: int)
    requires
        i <= end,
        spec_parse_kind(s, i, end) is Some,
    ensures
        i < (spec_parse_kind(s, i, end)->0).1 <= end,
{
    if i < end && s[i] == 'A' && i + 1 < end && s[i + 1] == '(' {
        lemma_digits_end_bounds(s, i + 2, end);
    } else if i < end && (s[i] == 'I' || s[i] == 'B') && i + 1 < end && s[i + 1] == '(' {
        lemma_digits_end_bounds(s, i + 2, end);
    }
}

#[via_fn]
proof fn spec_parse_items_decreases(s: Seq<char>, i: int, end: int) {
    if spec_parse_item(s, i, end) is Some {
        lemma_parse_item_advance(s, i, end);
    }
}

/// Parses a whole format-control string: a parenthesized, comma-separated
/// list of repeat-counted formats. An empty pair of parentheses declares
/// no formats.
pub open spec fn spec_parse_format_controls(s: Seq<char>) -> Option<Seq<FormatControl>> {
    if s.len() < 2 || s[0] != '(' || s[s.len() - 1] != ')' {
        None
    } else if s.len() == 2 {
        Some(Seq::empty())
    } else {
        spec_parse_items(s, 1, s.len() - 1)
    }
}

/// Decodes the digit run `[i, k)` of an already-scanned format string.
fn parse_run_value(s: &str, i: usize, k: usize) -> (r: Option<u64>)
    requires
        i <= k <= s@.len(),
        forall|m: int| i <= m < k ==> is_digit_char(#[trigger] s@[m]),
    ensures
        char_run_value(s@, i as int, k as int) <= u64::MAX ==> r == Some(
            char_run_value(s@, i as int, k as int) as u64,
        ),
        char_run_value(s@, i as int, k as int) > u64::MAX ==> r is None,
{
    let mut acc: u64 = 0;
    let mut m: usize = i;
    proof {
        lemma_char_run_value_nonneg(s@, i as int, i as int);
    }
    while m < k
        invariant
            i <= m <= k <= s@.len(),
            forall|q: int| i <= q < k ==> is_digit_char(#[trigger] s@[q]),
            acc == char_run_value(s@, i as int, m as int),
        decreases k - m,
    {
        let c = s.get_char(m);
        let d: u64 = (c as u32 - 0x30) as u64;
        let next = match acc.checked_mul(10) {
            Some(v) => v.checked_add(d),
            None => None,
        };
        match next {
            Some(v) => {
                acc = v;
                m = m + 1;
            },
            None => {
                proof {
                    lemma_char_run_value_monotone(s@, i as int, m + 1, k as int);
                }
                return None;
            },
        }
    }
    Some(acc)
}

/// A digit run's value is never negative.
pub proof fn lemma_char_run_value_nonneg(s: Seq<char>, i: int, k: int)
    requires
        forall|m: int| i <= m < k ==> is_digit_char(#[trigger] s[m]),
    ensures
        char_run_value(s, i, k) >= 0,
    decreases k - i,
{
    if i < k {
        lemma_char_run_value_nonneg(s, i, k - 1);
    }
}

/// Extending a digit run never shrinks its value.
pub proof fn lemma_char_run_value_monotone(s: Seq<char>, i: int, k1: int, k2: int)
    requires
        i <= k1 <= k2,
        forall|m: int| i <= m < k2 ==> is_digit_char(#[trigger] s[m]),
    ensures
        0 <= char_run_value(s, i, k1) <= char_run_value(s, i, k2),
    decreases k2 - k1,
{
    lemma_char_run_value_nonneg(s, i, k1);
    if k1 < k2 {
        lemma_char_run_value_monotone(s, i, k1 + 1, k2);
        lemma_char_run_value_nonneg(s, i, k1);
    }
}

/// Scans the digit run starting at `i`.
fn scan_digits(s: &str, i: usize, end: usize) -> (r: usize)
    requires
        i <= end <= s@.len(),
    ensures
        r == digits_end(s@, i as int, end as int),
        i <= r <= end,
{
    let mut m: usize = i;
    while m < end
        invariant
            i <= m <= end <= s@.len(),
            digits_end(s@, i as int, end as int) == digits_end(s@, m as int, end as int),
        decreases end - m,
    {
        let c = s.get_char(m);
        if !(c as u32 >= 0x30 && c as u32 <= 0x39) {
            return m;
        }
        m = m + 1;
    }
    m
}

/// Parses one parenthesized decimal argument.
fn parse_paren_arg(s: &str, i: usize, end: usize) -> (r: Option<(u64, usize)>)
    requires
        i <= end <= s@.len(),
    ensures
        match spec_parse_paren_arg(s@, i as int, end as int) {
            Some((n, j)) => r is Some && (r->0).0 == n && (r->0).1 == j,
            None => r is None,
        },
{
    if i >= end {
        return None;
    }
    if s.get_char(i) != '(' {
        return None;
    }
    let d = scan_digits(s, i + 1, end);
    if d == i + 1 {
        return None;
    }
    if d >= end {
        return None;
    }
    if s.get_char(d) != ')' {
        return None;
    }
    proof {
        lemma_digits_end_is_digits(s@, i + 1, end as int);
        lemma_char_run_value_nonneg(s@, i + 1, d as int);
    }
    let n = match parse_run_value(s, i + 1, d) {
        Some(v) => v,
        None => {
            return None;
        },
    };
    if n < 1 {
        return None;
    }
    Some((n, d + 1))
}

/// Every position before the scanned digit run's end holds a digit.
pub proof fn lemma_digits_end_is_digits(s: Seq<char>, i: int, end: int)
    requires
        i <= end,
    ensures
        forall|m: int| i <= m < digits_end(s, i, end) ==> is_digit_char(#[trigger] s[m]),
    decreases end - i,
{
    if i < end && is_digit_char(s[i]) {
        lemma_digits_end_is_digits(s, i + 1, end);
    }
}

/// Parses one format at `i`.
fn parse_kind(s: &str, i: usize, end: usize) -> (r: Option<(FormatKind, usize)>)
    requires
        i <= end <= s@.len(),
    ensures
        match spec_parse_kind(s@, i as int, end as int) {
            Some((kind, j)) => r is Some && (r->0).0 == kind && (r->0).1 == j,
            None => r is None,
        },
{
    if i >= end {
        return None;
    }
    let c = s.get_char(i);
    if c == 'b' {
        if end - i < 3 {
            return None;
        }
        let c1 = s.get_char(i + 1);
        let c2 = s.get_char(i + 2);
        if !(c1 as u32 >= 0x30 && c1 as u32 <= 0x39) || !(c2 as u32 >= 0x30 && c2 as u32 <= 0x39) {
            return None;
        }
        let sub = c1 as u32 - 0x30;
        let w = c2 as u32 - 0x30;
        if w < 1 || w > 8 {
            return None;
        }
        if sub == 1 {
            Some((FormatKind::BinaryUnsigned(w as u8), i + 3))
        } else if sub == 2 {
            Some((FormatKind::BinarySigned(w as u8), i + 3))
        } else {
            None
        }
    } else if c == 'A' {
        if i + 1 < end && s.get_char(i + 1) == '(' {
            match parse_paren_arg(s, i + 1, end) {
                Some((n, j)) => Some((FormatKind::TextFixed(n), j)),
                None => None,
            }
        } else {
            Some((FormatKind::TextDelimited, i + 1))
        }
    } else if c == 'I' {
        match parse_paren_arg(s, i + 1, end) {
            Some((n, j)) => Some((FormatKind::IntegerFixed(n), j)),
            None => None,
        }
    } else if c == 'B' {
        match parse_paren_arg(s, i + 1, end) {
            Some((n, j)) => {
                if n % 8 != 0 {
                    None
                } else {
                    Some((FormatKind::Bits(n), j))
                }
            },
            None => None,
        }
    } else {
        None
    }
}

/// Parses one repeat-counted format item at `i`.
fn parse_item(s: &str, i: usize, end: usize) -> (r: Option<(FormatControl, usize)>)
    requires
        i <= end <= s@.len(),
    ensures
        match spec_parse_item(s@, i as int, end as int) {
            Some((fc, j)) => r is Some && (r->0).0 == fc && (r->0).1 == j,
            None => r is None,
        },
{
    let k = scan_digits(s, i, end);
    proof {
        lemma_digits_end_is_digits(s@, i as int, end as int);
        lemma_char_run_value_nonneg(s@, i as int, k as int);
    }
    let count: u64 = if k == i {
        1
    } else {
        match parse_run_value(s, i, k) {
            Some(v) => v,
            None => {
                return None;
            },
        }
    };
    if count < 1 {
        return None;
    }
    match parse_kind(s, k, end) {
        Some((kind, j)) => Some((FormatControl { count, kind }, j)),
        None => None,
    }
}

/// Parses a whole format-control string, such as a comma-separated list of
/// binary widths in parentheses; yields the format items in order, or
/// fails naming the format controls as the offending field.
#[verifier::loop_isolation(false)]
pub fn parse_format_controls(s: &str) -> (r: ReadResult<Vec<FormatControl>>)
    ensures
        match spec_parse_format_controls(s@) {
            Some(fcs) => r is Ok && r->Ok_0@ == fcs,
            None => r == Err::<Vec<FormatControl>, ReadError>(
                ReadError::FormatViolation(FieldId::FormatControls),
            ),
        },
{
    let len = s.unicode_len();
    if len < 2 {
        return Err(ReadError::FormatViolation(FieldId::FormatControls));
    }
    if s.get_char(0) != '(' || s.get_char(len - 1) != ')' {
        return Err(ReadError::FormatViolation(FieldId::FormatControls));
    }
    let mut items: Vec<FormatControl> = Vec::new();
    if len == 2 {
        proof {
            assert(items@ =~= Seq::<FormatControl>::empty());
        }
        return Ok(items);
    }
    let end = len - 1;
    let mut i: usize = 1;
    loop
        invariant
            1 <= i <= end,
            match spec_parse_items(s@, i as int, end as int) {
                Some(rest) => spec_parse_items(s@, 1, end as int) == Some(items@ + rest),
                None => spec_parse_items(s@, 1, end as int) is None,
            },
        decreases end - i,
    {
        let (fc, j) = match parse_item(s, i, end) {
            Some(v) => v,
            None => {
                return Err(ReadError::FormatViolation(FieldId::FormatControls));
            },
        };
        proof {
            lemma_parse_item_advance(s@, i as int, end as int);
        }
        let ghost prev = items@;
        items.push(fc);
        proof {
            assert(items@ =~= prev + seq![fc]);
        }
        if j == end {
            proof {
                assert(spec_parse_items(s@, i as int, end as int) == Some(seq![fc]));
                assert(prev + seq![fc] =~= prev + seq![fc]);
            }
            return Ok(items);
        }
        if s.get_char(j) != ',' {
            return Err(ReadError::FormatViolation(FieldId::FormatControls));
        }
        proof {
            match spec_parse_items(s@, j + 1, end as int) {
                Some(rest2) => {
                    assert(spec_parse_items(s@, i as int, end as int) == Some(seq![fc] + rest2));
                    assert(prev + (seq![fc] + rest2) =~= (prev + seq![fc]) + rest2);
                },
                None => {
                    assert(spec_parse_items(s@, i as int, end as int) is None);
                },
            }
        }
        i = j + 1;
    }
}

} // verus!
