//! The written form of a number: which tokens of a line are numeric.
//!
//! A numeric token is an optional sign, then a mantissa, then an optional
//! exponent. The mantissa is a run of decimal digits that may hold one
//! decimal point, before, between or behind the digits, and holds at least
//! one digit. The exponent is the letter `e` or `E`, an optional sign, and
//! at least one digit. Nothing else is numeric: no blanks, no names of
//! infinities or of values that are not numbers.

use vstd::prelude::*;

verus! {

/// The decimal point.
pub const POINT: u8 = 46;

/// The plus sign.
pub const PLUS: u8 = 43;

/// The minus sign.
pub const MINUS: u8 = 45;

/// The small letter that opens an exponent.
pub const SMALL_E: u8 = 101;

/// The capital letter that opens an exponent.
pub const CAPITAL_E: u8 = 69;

/// The byte is a decimal digit.
pub open spec fn is_digit(b: u8) -> bool {
    48 <= b <= 57
}

/// The byte is a sign.
pub open spec fn is_sign(b: u8) -> bool {
    b == PLUS || b == MINUS
}

/// The byte opens an exponent.
pub open spec fn is_exponent_mark(b: u8) -> bool {
    b == SMALL_E || b == CAPITAL_E
}

/// Every byte of `s` from `from` up to and without `to` is a digit.
pub open spec fn digits_between(s: Seq<u8>, from: int, to: int) -> bool {
    forall|i: int| from <= i < to ==> is_digit(#[trigger] s[i])
}

/// The bytes of `s` from `from` up to and without `to` are a mantissa: at
/// least one digit, and digits only but for at most one decimal point.
pub open spec fn mantissa_between(s: Seq<u8>, from: int, to: int) -> bool {
    ||| from < to && digits_between(s, from, to)
    ||| exists|p: int|
        from <= p < to && #[trigger] s[p] == POINT && to - from >= 2 && digits_between(s, from, p)
            && digits_between(s, p + 1, to)
}

/// The bytes of `s` from `from` up to and without `to` are an exponent: its
/// mark, then at least one digit, with or without a sign before the digits.
pub open spec fn exponent_between(s: Seq<u8>, from: int, to: int) -> bool {
    &&& from < to
    &&& is_exponent_mark(s[from])
    &&& {
        ||| from + 1 < to && digits_between(s, from + 1, to)
        ||| from + 2 < to && is_sign(s[from + 1]) && digits_between(s, from + 2, to)
    }
}

/// The bytes of `s` from `from` up to and without `to` are a mantissa, with
/// or without an exponent behind it.
pub open spec fn decimal_between(s: Seq<u8>, from: int, to: int) -> bool {
    exists|end: int|
        from <= end <= to && #[trigger] mantissa_between(s, from, end) && (end == to
            || exponent_between(s, end, to))
}

/// The token is numeric: a mantissa with or without an exponent, with or
/// without a sign before it.
pub open spec fn numeric(token: Seq<u8>) -> bool {
    ||| decimal_between(token, 0, token.len() as int)
    ||| token.len() >= 1 && is_sign(token[0]) && decimal_between(token, 1, token.len() as int)
}

/// Where the run of digits that starts at `from` ends.
fn skip_digits(token: &[u8], from: usize) -> (to: usize)
    requires
        from <= token@.len(),
    ensures
        from <= to <= token@.len(),
        digits_between(token@, from as int, to as int),
        to == token@.len() || !is_digit(token@[to as int]),
{
    let mut to: usize = from;
    while to < token.len() && 48 <= token[to] && token[to] <= 57
        invariant
            from <= to <= token@.len(),
            digits_between(token@, from as int, to as int),
        decreases token@.len() - to,
    {
        to += 1;
    }
    to
}

/// A mantissa that an exponent or the end of the token follows can end in
/// one place only: where a scan from its start stops, which has taken the
/// digits, one decimal point if it met one, and the digits behind that.
proof fn lemma_mantissa_end(s: Seq<u8>, from: int, p: int, end: int, other: int)
    requires
        0 <= from <= p <= end <= s.len(),
        digits_between(s, from, p),
        p == s.len() || !is_digit(s[p]),
        p < s.len() && s[p] == POINT ==> p + 1 <= end && digits_between(s, p + 1, end) && (end
            == s.len() || !is_digit(s[end])),
        !(p < s.len() && s[p] == POINT) ==> end == p,
        from <= other <= s.len(),
        mantissa_between(s, from, other),
        other == s.len() || exponent_between(s, other, s.len() as int),
    ensures
        other == end,
{
    if from < other && digits_between(s, from, other) {
        if other > p {
            assert(is_digit(s[p]));
        }
        if other < p {
            assert(is_digit(s[other]));
        }
    } else {
        let q = choose|q: int|
            from <= q < other && #[trigger] s[q] == POINT && other - from >= 2 && digits_between(
                s,
                from,
                q,
            ) && digits_between(s, q + 1, other);
        if q > p {
            assert(is_digit(s[p]));
        }
        if q < p {
            assert(is_digit(s[q]));
        }
        if other > end {
            assert(is_digit(s[end]));
        }
        if other < end {
            assert(is_digit(s[other]));
        }
    }
}

/// Says whether a token is numeric.
pub fn is_numeric(token: &[u8]) -> (yes: bool)
    ensures
        yes == numeric(token@),
{
    let n: usize = token.len();
    let from: usize = if n > 0 && (token[0] == PLUS || token[0] == MINUS) {
        1
    } else {
        0
    };
    let p: usize = skip_digits(token, from);
    let has_point: bool = p < n && token[p] == POINT;
    let end: usize = if has_point {
        skip_digits(token, p + 1)
    } else {
        p
    };
    proof {
        let s = token@;
        assert forall|other: int|
            from <= other <= n && #[trigger] mantissa_between(s, from as int, other) && (other == n
                || exponent_between(s, other, n as int)) implies other == end by {
            lemma_mantissa_end(s, from as int, p as int, end as int, other);
        }
        if from == 1 {
            // a mantissa does not start with a sign
            assert forall|other: int|
                0 <= other <= n && #[trigger] mantissa_between(s, 0, other) implies false by {
                if 0 < other && digits_between(s, 0, other) {
                    assert(is_digit(s[0]));
                } else {
                    let q = choose|q: int|
                        0 <= q < other && #[trigger] s[q] == POINT && other - 0 >= 2
                            && digits_between(s, 0, q) && digits_between(s, q + 1, other);
                    if q > 0 {
                        assert(is_digit(s[0]));
                    }
                }
            }
            assert(!decimal_between(s, 0, n as int));
        }
        assert(numeric(s) == decimal_between(s, from as int, n as int));
        assert(decimal_between(s, from as int, n as int) == (mantissa_between(
            s,
            from as int,
            end as int,
        ) && (end == n || exponent_between(s, end as int, n as int))));
    }
    let digits: usize = if has_point {
        (p - from) + (end - p - 1)
    } else {
        p - from
    };
    if digits == 0 {
        proof {
            let s = token@;
            if mantissa_between(s, from as int, end as int) {
                if from < end && digits_between(s, from as int, end as int) {
                    assert(is_digit(s[p as int]));
                } else {
                    let q = choose|q: int|
                        from <= q < end && #[trigger] s[q] == POINT && end - from >= 2
                            && digits_between(s, from as int, q) && digits_between(
                            s,
                            q + 1,
                            end as int,
                        );
                    assert(false);
                }
            }
        }
        return false;
    }
    proof {
        let s = token@;
        if has_point {
            assert(s[p as int] == POINT);
        }
        assert(mantissa_between(s, from as int, end as int));
    }
    if end == n {
        return true;
    }
    if !(token[end] == SMALL_E || token[end] == CAPITAL_E) {
        return false;
    }
    let signed: bool = end + 1 < n && (token[end + 1] == PLUS || token[end + 1] == MINUS);
    let first: usize = if signed {
        end + 2
    } else {
        end + 1
    };
    if first >= n {
        return false;
    }
    let stop: usize = skip_digits(token, first);
    proof {
        let s = token@;
        if stop < n {
            assert(!digits_between(s, first as int, n as int));
        }
        if signed {
            assert(!is_digit(s[end + 1]));
            assert(!digits_between(s, end + 1, n as int));
        }
    }
    stop == n
}

} // verus!
