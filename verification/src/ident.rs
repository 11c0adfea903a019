//! The identifier normalizer: extracts and classifies an ISBN-like string
//! into a ten-digit or thirteen-digit numeric identifier, or neither.

use vstd::prelude::*;
use crate::error::BookError;
use crate::text::{all_digits, digits_value, is_digit, is_digit_char, lemma_digits_value_bound, pow10};

verus! {

/// A character that can be part of an ISBN body: a digit or the check
/// character `X`. Everything else (hyphens, spaces) is separator noise.
pub open spec fn is_ident_char(c: char) -> bool {
    is_digit_char(c) || c == 'X' || c == 'x'
}

/// The identifier characters of `s`, in order, with separator noise removed.
pub open spec fn spec_ident_chars(s: Seq<char>) -> Seq<char>
    decreases s.len(),
{
    if s.len() == 0 {
        Seq::<char>::empty()
    } else if is_ident_char(s.last()) {
        spec_ident_chars(s.drop_last()).push(s.last())
    } else {
        spec_ident_chars(s.drop_last())
    }
}

/// What the normalizer finds in a string.
#[derive(Clone, Copy, Debug, PartialEq, Eq, Structural)]
pub enum IsbnClass {
    /// Ten identifier characters, all digits.
    Isbn10(i64),
    /// Thirteen identifier characters, all digits.
    Isbn13(i64),
    /// Any other number of identifier characters.
    Unrecognized,
}

/// Classification of a string by the count of its identifier characters:
/// ten or thirteen digits parse to an integer, a ten- or thirteen-character
/// body that is not numeric is malformed, and any other length is
/// unrecognized.
pub open spec fn spec_classify(s: Seq<char>) -> Result<IsbnClass, BookError> {
    let t = spec_ident_chars(s);
    if t.len() == 10 {
        if all_digits(t) {
            Ok(IsbnClass::Isbn10(digits_value(t) as i64))
        } else {
            Err(BookError::MalformedIdentifier)
        }
    } else if t.len() == 13 {
        if all_digits(t) {
            Ok(IsbnClass::Isbn13(digits_value(t) as i64))
        } else {
            Err(BookError::MalformedIdentifier)
        }
    } else {
        Ok(IsbnClass::Unrecognized)
    }
}

/// A string of digits is all identifier characters, so the normalizer
/// keeps it whole.
proof fn lemma_ident_chars_of_digits(s: Seq<char>)
    requires
        all_digits(s),
    ensures
        spec_ident_chars(s) == s,
    decreases s.len(),
{
    if s.len() > 0 {
        assert(all_digits(s.drop_last()));
        lemma_ident_chars_of_digits(s.drop_last());
        assert(s.drop_last().push(s.last()) =~= s);
    }
}

/// Law: a ten-digit numeric string classifies as a ten-digit identifier
/// carrying its value, a thirteen-digit numeric string as a
/// thirteen-digit one, and a numeric string of any other length as
/// unrecognized.
pub proof fn lemma_classify_numeric_by_length(s: Seq<char>)
    requires
        all_digits(s),
    ensures
        s.len() == 10 ==> spec_classify(s) == Ok::<IsbnClass, BookError>(
            IsbnClass::Isbn10(digits_value(s) as i64),
        ),
        s.len() == 13 ==> spec_classify(s) == Ok::<IsbnClass, BookError>(
            IsbnClass::Isbn13(digits_value(s) as i64),
        ),
        s.len() != 10 && s.len() != 13 ==> spec_classify(s) == Ok::<IsbnClass, BookError>(
            IsbnClass::Unrecognized,
        ),
{
    lemma_ident_chars_of_digits(s);
}

proof fn lemma_pow10_mono(a: int, b: int)
    requires
        0 <= a <= b,
    ensures
        pow10(a) <= pow10(b),
    decreases b - a,
{
    if a < b {
        lemma_pow10_mono(a, b - 1);
        assert(pow10(b) == pow10(b - 1) * 10);
        assert(pow10(a) >= 1) by {
            lemma_pow10_pos(a);
        }
        lemma_pow10_pos(b - 1);
    }
}

proof fn lemma_pow10_pos(n: int)
    ensures
        pow10(n) >= 1,
    decreases (if n <= 0 { 0int } else { n }),
{
    if n > 0 {
        lemma_pow10_pos(n - 1);
    }
}

/// Exec mirror of [`is_ident_char`].
fn is_ident(c: char) -> (b: bool)
    ensures
        b == is_ident_char(c),
{
    is_digit(c) || c == 'X' || c == 'x'
}

/// Classifies an ISBN-like string per [`spec_classify`]: separator noise is
/// dropped, ten digits give `Isbn10`, thirteen give `Isbn13`, a body of the
/// right length that is not numeric is a `MalformedIdentifier`, and any
/// other body length is `Unrecognized`.
pub fn classify_isbn(s: &str) -> (r: Result<IsbnClass, BookError>)
    ensures
        r == spec_classify(s@),
{
    let n = s.unicode_len();
    let mut chars: Vec<char> = Vec::new();
    proof {
        assert(s@.take(0) =~= Seq::<char>::empty());
        assert(chars@ =~= spec_ident_chars(s@.take(0)));
    }
    let mut i: usize = 0;
    while i < n
        invariant
            0 <= i <= n,
            n == s@.len(),
            chars@ == spec_ident_chars(s@.take(i as int)),
        decreases n - i,
    {
        let c = s.get_char(i);
        proof {
            assert(s@.take(i + 1 as int).drop_last() =~= s@.take(i as int));
            assert(s@.take(i + 1 as int).last() == s@[i as int]);
        }
        if is_ident(c) {
            chars.push(c);
        }
        i = i + 1;
    }
    proof {
        assert(s@.take(n as int) =~= s@);
    }
    let len = chars.len();
    if len != 10 && len != 13 {
        return Ok(IsbnClass::Unrecognized);
    }
    let ghost t = spec_ident_chars(s@);
    let mut acc: u64 = 0;
    let mut j: usize = 0;
    proof {
        assert(t.take(0) =~= Seq::<char>::empty());
    }
    while j < len
        invariant
            0 <= j <= len,
            len == chars@.len(),
            len == 10 || len == 13,
            chars@ == t,
            t == spec_ident_chars(s@),
            all_digits(t.take(j as int)),
            acc == digits_value(t.take(j as int)),
        decreases len - j,
    {
        let c = chars[j];
        proof {
            assert(t.take(j + 1 as int).drop_last() =~= t.take(j as int));
            assert(t.take(j + 1 as int).last() == t[j as int]);
        }
        if !is_digit(c) {
            proof {
                assert(!is_digit_char(t[j as int]));
                assert(!all_digits(t));
            }
            return Err(BookError::MalformedIdentifier);
        }
        let d: u64 = (c as u32 - '0' as u32) as u64;
        proof {
            assert(all_digits(t.take(j + 1 as int))) by {
                assert(forall|k: int|
                    0 <= k < j + 1 ==> is_digit_char(#[trigger] t.take(j + 1 as int)[k])) by {
                    assert(forall|k: int|
                        0 <= k < j ==> #[trigger] t.take(j + 1 as int)[k] == t.take(j as int)[k]);
                    assert(t.take(j + 1 as int)[j as int] == c);
                }
            }
            lemma_digits_value_bound(t.take(j + 1 as int));
            lemma_pow10_mono(j + 1, 13);
            reveal_with_fuel(pow10, 14);
            assert(pow10(13) == 10_000_000_000_000);
            crate::text::lemma_digits_value_nonneg(t.take(j as int));
        }
        acc = acc * 10 + d;
        j = j + 1;
    }
    proof {
        assert(t.take(len as int) =~= t);
        lemma_digits_value_bound(t);
        lemma_pow10_mono(len as int, 13);
        reveal_with_fuel(pow10, 14);
        assert(pow10(13) == 10_000_000_000_000);
        crate::text::lemma_digits_value_nonneg(t);
    }
    if len == 10 {
        Ok(IsbnClass::Isbn10(acc as i64))
    } else {
        Ok(IsbnClass::Isbn13(acc as i64))
    }
}

} // verus!
