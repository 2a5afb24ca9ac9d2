//! Decimal rendering and reading of the integers that appear in the
//! persisted snapshot and in request paths: catalog ids, conversation
//! ids and the schema version.

use vstd::prelude::*;

verus! {

/// The decimal digit character for a value below ten.
pub open spec fn spec_digit_char(d: int) -> char {
    if d == 0 {
        '0'
    } else if d == 1 {
        '1'
    } else if d == 2 {
        '2'
    } else if d == 3 {
        '3'
    } else if d == 4 {
        '4'
    } else if d == 5 {
        '5'
    } else if d == 6 {
        '6'
    } else if d == 7 {
        '7'
    } else if d == 8 {
        '8'
    } else {
        '9'
    }
}

/// The decimal rendering of an unsigned value, most significant digit
/// first, with no leading zero except for zero itself.
pub open spec fn spec_u64_chars(n: int) -> Seq<char>
    decreases n,
{
    if n < 10 {
        seq![spec_digit_char(n)]
    } else {
        spec_u64_chars(n / 10).push(spec_digit_char(n % 10))
    }
}

/// The decimal rendering of a signed value: a minus sign before the
/// magnitude for negative values.
pub open spec fn spec_i64_chars(n: int) -> Seq<char> {
    if n >= 0 {
        spec_u64_chars(n)
    } else {
        seq!['-'] + spec_u64_chars(-n)
    }
}

/// Whether a character is a decimal digit.
pub open spec fn is_digit_char(c: char) -> bool {
    48 <= c as u32 && c as u32 <= 57
}

/// The value of a decimal digit character.
pub open spec fn spec_digit_val(c: char) -> int {
    c as u32 - 48
}

/// The value of a digit string, most significant digit first.
pub open spec fn spec_digits_val(s: Seq<char>) -> int
    decreases s.len(),
{
    if s.len() == 0 {
        0
    } else {
        spec_digits_val(s.drop_last()) * 10 + spec_digit_val(s.last())
    }
}

/// Every character of the sequence is a decimal digit.
pub open spec fn all_digits(s: Seq<char>) -> bool {
    forall|i: int| 0 <= i < s.len() ==> is_digit_char(#[trigger] s[i])
}

/// A rendered unsigned value is a nonempty digit string that reads
/// back to the value it renders.
pub proof fn lemma_u64_chars_val(n: int)
    requires
        n >= 0,
    ensures
        spec_u64_chars(n).len() >= 1,
        all_digits(spec_u64_chars(n)),
        spec_digits_val(spec_u64_chars(n)) == n,
    decreases n,
{
    if n < 10 {
        let s = spec_u64_chars(n);
        assert(s.len() == 1);
        assert(s[0] == spec_digit_char(n));
        assert(is_digit_char(spec_digit_char(n))) by {
            assert('0' as u32 == 48 && '1' as u32 == 49 && '2' as u32 == 50 && '3' as u32 == 51
                && '4' as u32 == 52 && '5' as u32 == 53 && '6' as u32 == 54 && '7' as u32 == 55
                && '8' as u32 == 56 && '9' as u32 == 57);
        }
        assert(spec_digit_val(spec_digit_char(n)) == n) by {
            assert('0' as u32 == 48 && '1' as u32 == 49 && '2' as u32 == 50 && '3' as u32 == 51
                && '4' as u32 == 52 && '5' as u32 == 53 && '6' as u32 == 54 && '7' as u32 == 55
                && '8' as u32 == 56 && '9' as u32 == 57);
        }
        assert(s.drop_last() =~= Seq::<char>::empty());
        assert(spec_digits_val(s) == spec_digits_val(s.drop_last()) * 10 + spec_digit_val(s.last()));
    } else {
        lemma_u64_chars_val(n / 10);
        let hi = spec_u64_chars(n / 10);
        let d = spec_digit_char(n % 10);
        let s = spec_u64_chars(n);
        assert(s == hi.push(d));
        assert(s.drop_last() =~= hi);
        assert(s.last() == d);
        assert(is_digit_char(d) && spec_digit_val(d) == n % 10) by {
            assert('0' as u32 == 48 && '1' as u32 == 49 && '2' as u32 == 50 && '3' as u32 == 51
                && '4' as u32 == 52 && '5' as u32 == 53 && '6' as u32 == 54 && '7' as u32 == 55
                && '8' as u32 == 56 && '9' as u32 == 57);
        }
        assert forall|i: int| 0 <= i < s.len() implies is_digit_char(#[trigger] s[i]) by {
            if i < hi.len() {
                assert(s[i] == hi[i]);
            } else {
                assert(s[i] == d);
            }
        }
        assert(spec_digits_val(s) == spec_digits_val(hi) * 10 + (n % 10));
        assert(spec_digits_val(hi) == n / 10);
        assert(n / 10 * 10 + n % 10 == n) by (nonlinear_arith)
            requires n >= 0;
    }
}

/// A digit string's value is never negative.
pub proof fn lemma_digits_val_nonneg(s: Seq<char>)
    requires
        all_digits(s),
    ensures
        spec_digits_val(s) >= 0,
    decreases s.len(),
{
    if s.len() > 0 {
        assert forall|i: int|
            0 <= i < s.drop_last().len() implies is_digit_char(#[trigger] s.drop_last()[i]) by {
            assert(s.drop_last()[i] == s[i]);
        }
        lemma_digits_val_nonneg(s.drop_last());
        assert(is_digit_char(s.last()));
    }
}

/// A digit string's value is at least the value of any prefix.
pub proof fn lemma_digits_val_prefix(s: Seq<char>, m: int)
    requires
        all_digits(s),
        0 <= m <= s.len(),
    ensures
        spec_digits_val(s) >= spec_digits_val(s.take(m)),
    decreases s.len() - m,
{
    if m < s.len() {
        lemma_digits_val_prefix(s, m + 1);
        assert(s.take(m + 1).drop_last() =~= s.take(m));
        assert(s.take(m + 1).last() == s[m]);
        assert forall|i: int| 0 <= i < m implies is_digit_char(#[trigger] s.take(m)[i]) by {
            assert(s.take(m)[i] == s[i]);
        }
        lemma_digits_val_nonneg(s.take(m));
        assert(is_digit_char(s[m]));
        assert(spec_digits_val(s.take(m + 1)) == spec_digits_val(s.take(m)) * 10 + spec_digit_val(
            s[m],
        ));
    } else {
        assert(s.take(m) =~= s);
    }
}

/// The digit character for a value below ten.
pub fn digit_char(d: u64) -> (c: char)
    requires
        d < 10,
    ensures
        c == spec_digit_char(d as int),
{
    if d == 0 {
        '0'
    } else if d == 1 {
        '1'
    } else if d == 2 {
        '2'
    } else if d == 3 {
        '3'
    } else if d == 4 {
        '4'
    } else if d == 5 {
        '5'
    } else if d == 6 {
        '6'
    } else if d == 7 {
        '7'
    } else if d == 8 {
        '8'
    } else {
        '9'
    }
}

/// Appends the decimal rendering of an unsigned value.
pub fn push_u64_chars(n: u64, out: &mut Vec<char>)
    ensures
        final(out)@ == old(out)@ + spec_u64_chars(n as int),
    decreases n,
{
    if n < 10 {
        out.push(digit_char(n));
        proof {
            assert(final(out)@ =~= old(out)@ + spec_u64_chars(n as int));
        }
    } else {
        push_u64_chars(n / 10, out);
        out.push(digit_char(n % 10));
        proof {
            assert(final(out)@ =~= old(out)@ + spec_u64_chars(n as int));
        }
    }
}

/// Appends the decimal rendering of a signed value.
pub fn push_i64_chars(n: i64, out: &mut Vec<char>)
    ensures
        final(out)@ == old(out)@ + spec_i64_chars(n as int),
{
    if n >= 0 {
        push_u64_chars(n as u64, out);
    } else {
        out.push('-');
        let mag: u64 = ((-(n + 1)) as u64) + 1;
        proof {
            assert(mag as int == -(n as int));
        }
        push_u64_chars(mag, out);
        proof {
            assert(final(out)@ =~= old(out)@ + spec_i64_chars(n as int));
        }
    }
}

} // verus!
