//! The argument inferencer: turns a raw command-line token into a wire
//! [`Value`] by trying candidate readings in a fixed priority order —
//! boolean literal first, then signed 64-bit integer, then 64-bit float,
//! then the verbatim string.
//!
//! Floating-point parsing cannot be carried out here, so the float reading
//! of the token is supplied by the caller as the IEEE-754 bit pattern it
//! parsed (or `None` when the token is not a float); every other reading is
//! decided and proved in this module.

use vstd::prelude::*;
use vstd::string::StrSliceExecFns;

use crate::value::{Value, ValueModel};

verus! {

broadcast use vstd::string::group_string_axioms;

/// Character-for-character equality of two string slices.
pub fn str_eq(a: &str, b: &str) -> (r: bool)
    ensures
        r == (a@ == b@),
{
    let an = a.unicode_len();
    let bn = b.unicode_len();
    if an != bn {
        assert(a@ != b@) by {
            assert(a@.len() != b@.len());
        }
        return false;
    }
    let mut i: usize = 0;
    while i < an
        invariant
            an == a@.len(),
            an == b@.len(),
            0 <= i <= an,
            forall|j: int| 0 <= j < i ==> a@[j] == b@[j],
        decreases an - i,
    {
        if a.get_char(i) != b.get_char(i) {
            return false;
        }
        i += 1;
    }
    proof {
        assert(a@ =~= b@);
    }
    true
}

/// Whether `c` is an ASCII decimal digit.
pub open spec fn is_digit(c: char) -> bool {
    '0' <= c && c <= '9'
}

/// The numeric value of an ASCII decimal digit.
pub open spec fn digit_val(c: char) -> int {
    c as u32 - '0' as u32
}

/// Whether every character of `s` is an ASCII decimal digit.
pub open spec fn all_digits(s: Seq<char>) -> bool {
    forall|i: int| 0 <= i < s.len() ==> is_digit(#[trigger] s[i])
}

/// The value of a sequence of decimal digits, most significant first.
pub open spec fn digits_value(s: Seq<char>) -> int
    decreases s.len(),
{
    if s.len() == 0 {
        0
    } else {
        digits_value(s.drop_last()) * 10 + digit_val(s.last())
    }
}

/// Whether `s` is a decimal integer literal: an optional sign followed by
/// at least one digit, with nothing else.
pub open spec fn is_int_literal(s: Seq<char>) -> bool {
    if s.len() > 0 && (s[0] == '+' || s[0] == '-') {
        s.len() > 1 && all_digits(s.drop_first())
    } else {
        s.len() > 0 && all_digits(s)
    }
}

/// The mathematical value of an integer literal.
pub open spec fn int_literal_value(s: Seq<char>) -> int {
    if s.len() > 0 && s[0] == '-' {
        -digits_value(s.drop_first())
    } else if s.len() > 0 && s[0] == '+' {
        digits_value(s.drop_first())
    } else {
        digits_value(s)
    }
}

/// Whether `s` is an integer literal whose value fits in a signed 64-bit
/// integer — exactly the tokens the wire protocol reads as `Int64`.
pub open spec fn is_i64_literal(s: Seq<char>) -> bool {
    is_int_literal(s) && i64::MIN <= int_literal_value(s) <= i64::MAX
}

/// A digit sequence has a non-negative value.
proof fn lemma_digits_value_nonneg(s: Seq<char>)
    requires
        all_digits(s),
    ensures
        digits_value(s) >= 0,
    decreases s.len(),
{
    if s.len() > 0 {
        assert(all_digits(s.drop_last())) by {
            assert(forall|i: int|
                0 <= i < s.len() - 1 ==> #[trigger] s.drop_last()[i] == s[i]);
        }
        lemma_digits_value_nonneg(s.drop_last());
    }
}

/// Extending a digit sequence never decreases its value.
proof fn lemma_digits_value_prefix_le(s: Seq<char>, n: int)
    requires
        all_digits(s),
        0 <= n <= s.len(),
    ensures
        digits_value(s.take(n)) <= digits_value(s),
    decreases s.len() - n,
{
    if n < s.len() {
        let t = s.take(n + 1);
        assert(all_digits(t)) by {
            assert(forall|i: int| 0 <= i < n + 1 ==> #[trigger] t[i] == s[i]);
        }
        assert(t.drop_last() =~= s.take(n));
        lemma_digits_value_nonneg(s.take(n));
        assert(digits_value(t) == digits_value(s.take(n)) * 10 + digit_val(t.last()));
        assert(digit_val(t.last()) >= 0);
        assert(digits_value(s.take(n)) <= digits_value(s.take(n)) * 10);
        lemma_digits_value_prefix_le(s, n + 1);
    } else {
        assert(s.take(n) =~= s);
    }
}

/// Parses `token` as a signed 64-bit decimal integer, consuming the whole
/// token: the executable counterpart of [`is_i64_literal`] and
/// [`int_literal_value`].
pub fn parse_i64(token: &str) -> (r: Option<i64>)
    ensures
        match r {
            Some(v) => is_i64_literal(token@) && v == int_literal_value(token@),
            None => !is_i64_literal(token@),
        },
{
    let ghost s = token@;
    let n = token.unicode_len();
    if n == 0 {
        return None;
    }
    let first = token.get_char(0);
    let neg = first == '-';
    let start: usize = if first == '-' || first == '+' {
        1
    } else {
        0
    };
    if start == 1 && n == 1 {
        // A bare sign has no digits.
        return None;
    }
    let ghost digits = s.subrange(start as int, n as int);
    // The magnitude bound: |i64::MIN| when negative, i64::MAX when not.
    let limit: u64 = if neg {
        9223372036854775808
    } else {
        9223372036854775807
    };
    let mut acc: u64 = 0;
    let mut i: usize = start;
    while i < n
        invariant
            s == token@,
            n == s.len(),
            start <= i <= n,
            start == 0 || start == 1,
            start == 1 ==> n > 1,
            start == 1 ==> (s[0] == '+' || s[0] == '-'),
            start == 0 ==> !(s[0] == '+' || s[0] == '-'),
            neg == (s.len() > 0 && s[0] == '-'),
            limit == if neg { 9223372036854775808u64 } else { 9223372036854775807u64 },
            digits == s.subrange(start as int, n as int),
            all_digits(digits.take(i - start)),
            acc == digits_value(digits.take(i - start)),
            acc <= limit,
        decreases n - i,
    {
        let c = token.get_char(i);
        if c < '0' || c > '9' {
            assert(!is_int_literal(s)) by {
                assert(digits[i - start] == c);
                assert(!is_digit(c));
                if start == 1 {
                    assert(s.drop_first() =~= digits);
                } else {
                    assert(s =~= digits);
                }
            }
            return None;
        }
        let d: u64 = ((c as u32) - 48) as u64;
        assert(d == digit_val(c) && d <= 9);
        if acc > (limit - d) / 10 {
            // Any completion of this prefix overflows the i64 range.
            proof {
                let pre = digits.take(i - start + 1);
                assert(pre.drop_last() =~= digits.take(i - start));
                assert(pre.last() == c);
                assert(digits_value(pre) == acc * 10 + d);
                assert(acc * 10 + d > limit) by (nonlinear_arith)
                    requires
                        acc > (limit - d) / 10,
                        d <= 9,
                        d <= limit,
                ;
                if is_int_literal(s) {
                    let full = if s[0] == '+' || s[0] == '-' {
                        s.drop_first()
                    } else {
                        s
                    };
                    assert(full =~= digits);
                    assert(all_digits(digits));
                    assert(all_digits(pre)) by {
                        assert(forall|k: int|
                            0 <= k < pre.len() ==> #[trigger] pre[k] == digits[k]);
                    }
                    lemma_digits_value_prefix_le(digits, i - start + 1);
                    assert(digits_value(digits) > limit);
                    if neg {
                        assert(int_literal_value(s) == -digits_value(digits));
                        assert(int_literal_value(s) < i64::MIN);
                    } else {
                        assert(int_literal_value(s) == digits_value(digits));
                        assert(int_literal_value(s) > i64::MAX);
                    }
                }
            }
            return None;
        }
        proof {
            let pre = digits.take(i - start + 1);
            assert(pre.drop_last() =~= digits.take(i - start));
            assert(pre.last() == c);
            assert(all_digits(pre)) by {
                assert(forall|k: int|
                    0 <= k < pre.len() - 1 ==> #[trigger] pre[k] == digits.take(i - start)[k]);
            }
            assert(acc * 10 + d <= limit) by (nonlinear_arith)
                requires
                    acc <= (limit - d) / 10,
                    d <= limit,
            ;
        }
        acc = acc * 10 + d;
        i += 1;
    }
    proof {
        assert(digits.take(n - start) =~= digits);
        if start == 1 {
            assert(s.drop_first() =~= digits);
        } else {
            assert(s =~= digits);
        }
        assert(is_int_literal(s));
        if neg {
            assert(int_literal_value(s) == -digits_value(digits));
        } else if s[0] == '+' {
            assert(int_literal_value(s) == digits_value(digits));
        } else {
            assert(int_literal_value(s) == digits_value(digits));
        }
    }
    if neg {
        if acc == 9223372036854775808 {
            Some(i64::MIN)
        } else {
            Some(-(acc as i64))
        }
    } else {
        Some(acc as i64)
    }
}

/// The model of [`infer`]: the reading the inferencer must choose for a
/// token, given the token's characters and its float reading (the IEEE-754
/// bits the token parses to, when it parses as a 64-bit float at all).
pub open spec fn inferred(s: Seq<char>, float: Option<u64>) -> ValueModel {
    if s == "true"@ {
        ValueModel::Bool(true)
    } else if s == "false"@ {
        ValueModel::Bool(false)
    } else if is_i64_literal(s) {
        ValueModel::Int64(int_literal_value(s) as i64)
    } else if float is Some {
        ValueModel::Float64(float->0)
    } else {
        ValueModel::Str(s)
    }
}

/// Boolean literals take priority: a token that is exactly `true` or
/// `false` — case-sensitively — always infers to the corresponding
/// boolean, whatever other readings it might have.
pub proof fn lemma_bool_literal_inference(s: Seq<char>, float: Option<u64>)
    ensures
        s == "true"@ ==> inferred(s, float) == ValueModel::Bool(true),
        s == "false"@ ==> inferred(s, float) == ValueModel::Bool(false),
{
    reveal_strlit("true");
    reveal_strlit("false");
    assert("true"@.len() == 4);
    assert("false"@.len() == 5);
}

/// Integer literals take priority over the float and string readings: a
/// token that reads as an in-range signed 64-bit integer always infers to
/// exactly that integer.
pub proof fn lemma_int_literal_inference(s: Seq<char>, float: Option<u64>)
    requires
        is_i64_literal(s),
    ensures
        inferred(s, float) == ValueModel::Int64(int_literal_value(s) as i64),
{
    reveal_strlit("true");
    reveal_strlit("false");
    if s == "true"@ {
        assert(s[0] == 't');
        assert(!is_digit(s[0]));
        assert(!is_int_literal(s));
    }
    if s == "false"@ {
        assert(s[0] == 'f');
        assert(!is_digit(s[0]));
        assert(!is_int_literal(s));
    }
}

/// Infers a wire value from a raw token: boolean literals first, then
/// 64-bit integers, then floats, then the string itself, verbatim.  Total —
/// every token yields a value.
///
/// `float` is the token's float reading, supplied by the caller: the
/// IEEE-754 bits the token parses to as a 64-bit float, or `None` when it
/// does not.  It is consulted only after the boolean and integer readings
/// have failed.
pub fn infer(token: &str, float: Option<u64>) -> (r: Value)
    ensures
        r.model() == inferred(token@, float),
{
    if str_eq(token, "true") {
        Value::Bool(true)
    } else if str_eq(token, "false") {
        Value::Bool(false)
    } else if let Some(i) = parse_i64(token) {
        Value::Int64(i)
    } else if let Some(bits) = float {
        Value::Float64(bits)
    } else {
        Value::Str(token.to_owned())
    }
}

} // verus!
