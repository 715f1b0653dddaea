use vstd::prelude::*;

verus! {

/// An ASCII decimal digit.
pub open spec fn is_digit(c: char) -> bool {
    '0' <= c && c <= '9'
}

/// The value of an ASCII decimal digit.
pub open spec fn digit_value(c: char) -> int {
    c as int - '0' as int
}

/// Every character is an ASCII decimal digit.
pub open spec fn all_digits(f: Seq<char>) -> bool {
    forall|i: int| 0 <= i < f.len() ==> is_digit(#[trigger] f[i])
}

/// The number that a run of decimal digits spells, most significant first.
pub open spec fn digits_value(f: Seq<char>) -> int
    decreases f.len(),
{
    if f.len() == 0 {
        0
    } else {
        digits_value(f.drop_last()) * 10 + digit_value(f.last())
    }
}

/// A run of digits never spells a negative number.
pub proof fn lemma_digits_value_nonneg(f: Seq<char>)
    requires
        all_digits(f),
    ensures
        digits_value(f) >= 0,
    decreases f.len(),
{
    if f.len() > 0 {
        lemma_digits_value_nonneg(f.drop_last());
        assert(is_digit(f[f.len() - 1]));
    }
}

/// What `str::parse` makes of `f` as an unsigned decimal: an optional `+`,
/// then one or more ASCII digits.
pub open spec fn unsigned_text(f: Seq<char>) -> Option<int> {
    let d = if f.len() > 0 && f[0] == '+' { f.drop_first() } else { f };
    if d.len() > 0 && all_digits(d) {
        Some(digits_value(d))
    } else {
        None
    }
}

/// What `str::parse` makes of `f` as a signed decimal: an optional `+` or
/// `-`, then one or more ASCII digits.
pub open spec fn signed_text(f: Seq<char>) -> Option<int> {
    if f.len() > 0 && f[0] == '-' {
        let d = f.drop_first();
        if d.len() > 0 && all_digits(d) {
            Some(-digits_value(d))
        } else {
            None
        }
    } else {
        unsigned_text(f)
    }
}

} // verus!
