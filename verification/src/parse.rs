//! Loading a program from its textual form: one line of comma-separated
//! signed decimal integers. [`program_values`] is the specification of
//! what a text denotes; [`parse_program_text`] is the verified parser.

use vstd::prelude::*;
use vstd::string::is_ascii_spec_bytes;
use vstd::utf8::is_ascii_chars;

use crate::model::VmError;

verus! {

/// The comma byte that separates tokens.
pub const SEPARATOR: u8 = 44;

/// The byte that begins a negative token.
pub const MINUS: u8 = 45;

/// Whether `c` is an ASCII decimal digit.
pub open spec fn is_digit(c: u8) -> bool {
    48 <= c <= 57
}

/// `t` consists of decimal digits only (possibly none).
pub open spec fn digits_only(t: Seq<u8>) -> bool {
    forall|i: int| 0 <= i < t.len() ==> is_digit(#[trigger] t[i])
}

/// `t` is a non-empty run of decimal digits.
pub open spec fn all_digits(t: Seq<u8>) -> bool {
    t.len() > 0 && digits_only(t)
}

/// The number denoted by a run of decimal digits, most significant first.
pub open spec fn digits_value(t: Seq<u8>) -> int
    decreases t.len(),
{
    if t.len() == 0 {
        0
    } else {
        digits_value(t.drop_last()) * 10 + (t.last() - 48)
    }
}

/// The value a token denotes: an optional leading minus sign followed by
/// at least one decimal digit, and the result must fit a 64-bit signed
/// integer. Anything else is malformed.
pub open spec fn token_value(t: Seq<u8>) -> Option<i64> {
    if t.len() > 0 && t[0] == MINUS {
        let d = t.subrange(1, t.len() as int);
        if all_digits(d) && -digits_value(d) >= i64::MIN {
            Some((-digits_value(d)) as i64)
        } else {
            None
        }
    } else {
        if all_digits(t) && digits_value(t) <= i64::MAX {
            Some(digits_value(t) as i64)
        } else {
            None
        }
    }
}

/// Position of the first separator at or after `from`, or the length of
/// `b` if there is none.
pub open spec fn token_end(b: Seq<u8>, from: int) -> int
    decreases b.len() - from,
{
    if from < 0 || from >= b.len() {
        b.len() as int
    } else if b[from] == SEPARATOR {
        from
    } else {
        token_end(b, from + 1)
    }
}

/// The first separator position is indeed a separator, and nothing before
/// it is one.
pub proof fn lemma_token_end_bounds(b: Seq<u8>, from: int)
    requires
        0 <= from <= b.len(),
    ensures
        from <= token_end(b, from) <= b.len(),
        token_end(b, from) < b.len() ==> b[token_end(b, from)] == SEPARATOR,
        forall|m: int| from <= m < token_end(b, from) ==> b[m] != SEPARATOR,
    decreases b.len() - from,
{
    if from < b.len() && b[from] != SEPARATOR {
        lemma_token_end_bounds(b, from + 1);
    }
}

/// A scan that saw no separator in `[from, j)` and stopped at the end or
/// at a separator has found exactly `token_end`.
pub proof fn lemma_token_end_scan(b: Seq<u8>, from: int, j: int)
    requires
        0 <= from <= j <= b.len(),
        forall|m: int| from <= m < j ==> b[m] != SEPARATOR,
        j < b.len() ==> b[j] == SEPARATOR,
    ensures
        token_end(b, from) == j,
    decreases j - from,
{
    if from < j {
        lemma_token_end_scan(b, from + 1, j);
    }
}

/// The tokens of `b` from position `from` on: maximal runs of
/// non-separator bytes. A trailing separator yields a final empty token,
/// and an empty text consists of one empty token.
pub open spec fn tokens_from(b: Seq<u8>, from: int) -> Seq<Seq<u8>>
    decreases b.len() - from,
        via tokens_from_decreases
{
    if from < 0 || from > b.len() {
        seq![]
    } else {
        let end = token_end(b, from);
        if end == b.len() {
            seq![b.subrange(from, end)]
        } else {
            seq![b.subrange(from, end)] + tokens_from(b, end + 1)
        }
    }
}

#[via_fn]
proof fn tokens_from_decreases(b: Seq<u8>, from: int) {
    if 0 <= from <= b.len() {
        lemma_token_end_bounds(b, from);
    }
}

/// What a byte text denotes: the values of its comma-separated tokens, or
/// nothing if any token is malformed.
pub open spec fn parse_program(b: Seq<u8>) -> Option<Seq<i64>> {
    let toks = tokens_from(b, 0);
    if forall|k: int| 0 <= k < toks.len() ==> (#[trigger] token_value(toks[k])) is Some {
        Some(
            Seq::new(
                toks.len(),
                |k: int|
                    match token_value(toks[k]) {
                        Some(v) => v,
                        None => 0,
                    },
            ),
        )
    } else {
        None
    }
}

/// An ASCII character sequence as the bytes that encode it.
pub open spec fn ascii_bytes(s: Seq<char>) -> Seq<u8> {
    Seq::new(s.len(), |i: int| s[i] as u8)
}

/// What a program text denotes: the values of its comma-separated tokens.
/// A text with a character outside ASCII is malformed, as is any token
/// that is not a signed decimal integer fitting 64 bits.
pub open spec fn program_values(s: Seq<char>) -> Option<Seq<i64>> {
    if is_ascii_chars(s) {
        parse_program(ascii_bytes(s))
    } else {
        None
    }
}

/// The value of a digit run is never negative.
proof fn lemma_digits_value_nonneg(t: Seq<u8>)
    requires
        digits_only(t),
    ensures
        digits_value(t) >= 0,
    decreases t.len(),
{
    if t.len() > 0 {
        lemma_digits_value_nonneg(t.drop_last());
    }
}

/// The value of a prefix of a digit run is at most the value of the run.
proof fn lemma_digits_value_prefix(t: Seq<u8>, i: int)
    requires
        digits_only(t),
        0 <= i <= t.len(),
    ensures
        digits_value(t.subrange(0, i)) <= digits_value(t),
    decreases t.len() - i,
{
    if i < t.len() {
        lemma_digits_value_prefix(t, i + 1);
        lemma_digits_value_nonneg(t.subrange(0, i));
        assert(t.subrange(0, i + 1).drop_last() =~= t.subrange(0, i));
        assert(t.subrange(0, i + 1).last() == t[i]);
        assert(is_digit(t[i]));
        assert(digits_value(t.subrange(0, i + 1)) == digits_value(t.subrange(0, i)) * 10 + (
        t.subrange(0, i + 1).last() - 48));
    } else {
        assert(t.subrange(0, t.len() as int) =~= t);
    }
}

/// A token whose digits already exceed the 64-bit range part way through
/// cannot denote a 64-bit value, whatever follows.
proof fn lemma_overflowing_token(t: Seq<u8>, start: int, i: int, partial: int)
    requires
        0 <= start <= i < t.len(),
        start == 0 || (start == 1 && t[0] == MINUS),
        forall|m: int| start <= m <= i ==> is_digit(#[trigger] t[m]),
        partial > u64::MAX,
        partial <= digits_value(t.subrange(start, i + 1)),
    ensures
        token_value(t) is None,
{
    let d = t.subrange(start, t.len() as int);
    if all_digits(d) {
        assert(t.subrange(start, i + 1) =~= d.subrange(0, i + 1 - start));
        lemma_digits_value_prefix(d, i + 1 - start);
        assert(digits_value(d) > u64::MAX);
        if start == 0 {
            assert(d =~= t);
        }
    } else {
        if start == 0 {
            assert(d =~= t);
        }
    }
}

/// Parse one token as a 64-bit signed decimal integer.
fn parse_token(t: &[u8]) -> (r: Result<i64, VmError>)
    ensures
        match r {
            Ok(v) => token_value(t@) == Some(v),
            Err(e) => e == VmError::MalformedProgramText && token_value(t@) is None,
        },
{
    let len = t.len();
    let neg = len > 0 && t[0] == MINUS;
    let start: usize = if neg {
        1
    } else {
        0
    };
    if start >= len {
        return Err(VmError::MalformedProgramText);
    }
    let ghost d = t@.subrange(start as int, len as int);
    let mut acc: u64 = 0;
    let mut i: usize = start;
    while i < len
        invariant
            len == t@.len(),
            start <= i <= len,
            start < len,
            neg ==> start == 1 && t@[0] == MINUS,
            !neg ==> start == 0 && t@[0] != MINUS,
            d == t@.subrange(start as int, len as int),
            forall|m: int| start <= m < i ==> is_digit(#[trigger] t@[m]),
            acc == digits_value(t@.subrange(start as int, i as int)),
        decreases len - i,
    {
        let c = t[i];
        if !(c >= 48 && c <= 57) {
            proof {
                assert(d[i - start] == t@[i as int]);
                assert(!all_digits(d));
                if !neg {
                    assert(d =~= t@);
                }
            }
            return Err(VmError::MalformedProgramText);
        }
        let ghost prefix = t@.subrange(start as int, i as int);
        let ghost prefix1 = t@.subrange(start as int, i + 1);
        proof {
            assert(prefix1.drop_last() =~= prefix);
            assert(digits_value(prefix1) == digits_value(prefix) * 10 + (c - 48));
        }
        let hi = match acc.checked_mul(10) {
            Some(x) => x,
            None => {
                proof {
                    lemma_overflowing_token(t@, start as int, i as int, acc * 10);
                }
                return Err(VmError::MalformedProgramText);
            },
        };
        acc = match hi.checked_add((c - 48) as u64) {
            Some(x) => x,
            None => {
                proof {
                    lemma_overflowing_token(t@, start as int, i as int, acc * 10 + (c - 48));
                }
                return Err(VmError::MalformedProgramText);
            },
        };
        i = i + 1;
    }
    proof {
        assert(t@.subrange(start as int, i as int) =~= d);
        assert(all_digits(d));
        if !neg {
            assert(d =~= t@);
        }
    }
    if neg {
        if acc > 9223372036854775808u64 {
            return Err(VmError::MalformedProgramText);
        }
        if acc == 9223372036854775808u64 {
            Ok(i64::MIN)
        } else {
            Ok(0i64 - (acc as i64))
        }
    } else {
        if acc > 9223372036854775807u64 {
            return Err(VmError::MalformedProgramText);
        }
        Ok(acc as i64)
    }
}

/// Parse a whole program text into its memory values.
///
/// Returns the values in order on success; any malformed token, or a
/// character outside ASCII, fails the load with `MalformedProgramText`.
pub fn parse_program_text(data: &String) -> (r: Result<Vec<i64>, VmError>)
    ensures
        match r {
            Ok(vals) => program_values(data@) == Some(vals@),
            Err(e) => e == VmError::MalformedProgramText && program_values(data@) is None,
        },
{
    let st: &str = data.as_str();
    if !st.is_ascii() {
        return Err(VmError::MalformedProgramText);
    }
    let bytes: &[u8] = st.as_bytes();
    proof {
        is_ascii_spec_bytes(st);
        assert(bytes@ =~= ascii_bytes(data@));
    }
    let ghost toks = tokens_from(bytes@, 0);
    proof {
        assert(toks.subrange(0, toks.len() as int) =~= toks);
    }
    let mut vals: Vec<i64> = Vec::new();
    let mut start: usize = 0;
    loop
        invariant
            bytes@ == ascii_bytes(data@),
            is_ascii_chars(data@),
            0 <= start <= bytes@.len(),
            toks == tokens_from(bytes@, 0),
            vals@.len() <= toks.len(),
            tokens_from(bytes@, start as int) == toks.subrange(
                vals@.len() as int,
                toks.len() as int,
            ),
            forall|k: int|
                0 <= k < vals@.len() ==> token_value(#[trigger] toks[k]) == Some(vals@[k]),
        decreases bytes@.len() - start,
    {
        let ghost kk = vals@.len() as int;
        let mut j: usize = start;
        while j < bytes.len() && bytes[j] != SEPARATOR
            invariant
                start <= j <= bytes@.len(),
                forall|m: int| start <= m < j ==> bytes@[m] != SEPARATOR,
            decreases bytes@.len() - j,
        {
            j = j + 1;
        }
        let ghost tok = bytes@.subrange(start as int, j as int);
        let ghost rest = toks.subrange(kk, toks.len() as int);
        proof {
            lemma_token_end_scan(bytes@, start as int, j as int);
            if j == bytes@.len() {
                assert(tokens_from(bytes@, start as int) == seq![tok]);
            } else {
                assert(tokens_from(bytes@, start as int) == seq![tok] + tokens_from(
                    bytes@,
                    j + 1,
                ));
            }
            assert(rest.len() >= 1);
            assert(rest[0] == tok);
            assert(toks[kk] == tok);
        }
        let v = match parse_token(&bytes[start..j]) {
            Ok(v) => v,
            Err(_) => {
                proof {
                    assert(token_value(toks[kk]) is None);
                    assert(parse_program(bytes@) is None);
                }
                return Err(VmError::MalformedProgramText);
            },
        };
        vals.push(v);
        if j == bytes.len() {
            proof {
                assert(rest.len() == 1);
                assert(toks.len() == vals@.len());
                assert(forall|k: int|
                    0 <= k < toks.len() ==> (#[trigger] token_value(toks[k])) is Some);
                let built = Seq::new(
                    toks.len(),
                    |k: int|
                        match token_value(toks[k]) {
                            Some(v) => v,
                            None => 0,
                        },
                );
                assert(built =~= vals@);
            }
            return Ok(vals);
        }
        start = j + 1;
        proof {
            let tail = tokens_from(bytes@, start as int);
            assert(tail.len() == rest.len() - 1);
            assert forall|m: int| 0 <= m < tail.len() implies tail[m] == toks.subrange(
                kk + 1,
                toks.len() as int,
            )[m] by {
                assert(tail[m] == rest[m + 1]);
                assert(rest[m + 1] == toks[kk + 1 + m]);
            }
            assert(tail =~= toks.subrange(vals@.len() as int, toks.len() as int));
        }
    }
}

} // verus!
