//! Text utilities shared by the normalizer, the adapters and the edit
//! session: decimal parsing, whitespace trimming, comma splitting and
//! concatenation, each specified over the character sequence of its input.

use vstd::prelude::*;

verus! {

/// `c` is one of the ten decimal digits.
pub open spec fn is_digit_char(c: char) -> bool {
    '0' <= c && c <= '9'
}

/// The numeric value of a decimal digit.
pub open spec fn digit_val(c: char) -> int {
    c as int - '0' as int
}

/// Every character of `s` is a decimal digit.
pub open spec fn all_digits(s: Seq<char>) -> bool {
    forall|i: int| 0 <= i < s.len() ==> is_digit_char(#[trigger] s[i])
}

/// The value of `s` read as a base-ten numeral.
pub open spec fn digits_value(s: Seq<char>) -> int
    decreases s.len(),
{
    if s.len() == 0 {
        0
    } else {
        digits_value(s.drop_last()) * 10 + digit_val(s.last())
    }
}

pub proof fn lemma_digits_value_nonneg(s: Seq<char>)
    requires
        all_digits(s),
    ensures
        digits_value(s) >= 0,
    decreases s.len(),
{
    if s.len() > 0 {
        assert(all_digits(s.drop_last()));
        lemma_digits_value_nonneg(s.drop_last());
    }
}

/// Ten to the power of `n`.
pub open spec fn pow10(n: int) -> int
    decreases n,
{
    if n <= 0 {
        1
    } else {
        pow10(n - 1) * 10
    }
}

/// A numeral's value stays below ten to the power of its length.
pub proof fn lemma_digits_value_bound(s: Seq<char>)
    requires
        all_digits(s),
    ensures
        digits_value(s) < pow10(s.len() as int),
    decreases s.len(),
{
    if s.len() > 0 {
        let d = s.drop_last();
        assert(all_digits(d));
        lemma_digits_value_bound(d);
        assert(pow10(s.len() as int) == pow10(d.len() as int) * 10);
        assert(digits_value(s) == digits_value(d) * 10 + digit_val(s.last()));
        assert(digits_value(d) * 10 <= (pow10(d.len() as int) - 1) * 10) by (nonlinear_arith)
            requires
                digits_value(d) <= pow10(d.len() as int) - 1,
        ;
        assert(digit_val(s.last()) <= 9);
    }
}

/// Extending a numeral on the right cannot shrink its value.
proof fn lemma_digits_value_prefix(s: Seq<char>, j: int)
    requires
        all_digits(s),
        0 <= j <= s.len(),
    ensures
        digits_value(s.take(j)) <= digits_value(s),
    decreases s.len() - j,
{
    if j == s.len() {
        assert(s.take(j) =~= s);
    } else {
        let t = s.take(j + 1);
        assert(t.drop_last() =~= s.take(j));
        assert(digits_value(t) == digits_value(s.take(j)) * 10 + digit_val(t.last()));
        assert(all_digits(s.take(j)));
        lemma_digits_value_nonneg(s.take(j));
        assert(digits_value(s.take(j)) <= digits_value(s.take(j)) * 10 + digit_val(t.last()));
        lemma_digits_value_prefix(s, j + 1);
    }
}

/// Exec mirror of [`is_digit_char`].
pub fn is_digit(c: char) -> (b: bool)
    ensures
        b == is_digit_char(c),
{
    '0' <= c && c <= '9'
}

/// Parses the suffix of `s` that starts at character `from` as an unsigned
/// base-ten numeral: all digits, at least one, value within `u64`.
fn parse_magnitude(s: &str, from: usize) -> (r: Option<u64>)
    requires
        from <= s@.len(),
    ensures
        match r {
            Some(v) => {
                let t = s@.skip(from as int);
                t.len() > 0 && all_digits(t) && v == digits_value(t)
            },
            None => {
                let t = s@.skip(from as int);
                !(t.len() > 0 && all_digits(t) && digits_value(t) <= u64::MAX)
            },
        },
{
    let ghost t = s@.skip(from as int);
    let n = s.unicode_len();
    if from == n {
        return None;
    }
    let mut acc: u64 = 0;
    let mut i: usize = from;
    while i < n
        invariant
            from <= i <= n,
            n == s@.len(),
            t == s@.skip(from as int),
            all_digits(s@.subrange(from as int, i as int)),
            acc == digits_value(s@.subrange(from as int, i as int)),
        decreases n - i,
    {
        let c = s.get_char(i);
        let ghost pre = s@.subrange(from as int, i as int);
        let ghost ext = s@.subrange(from as int, i + 1 as int);
        proof {
            assert(ext.drop_last() =~= pre);
            assert(ext.last() == s@[i as int]);
        }
        if !is_digit(c) {
            proof {
                assert(t[i - from] == s@[i as int]);
                assert(!all_digits(t));
            }
            return None;
        }
        let d: u64 = (c as u32 - '0' as u32) as u64;
        let shifted = match acc.checked_mul(10) {
            Some(x) => x,
            None => {
                proof {
                    lemma_overflow_implies_invalid(s@, from as int, i as int);
                }
                return None;
            },
        };
        acc = match shifted.checked_add(d) {
            Some(x) => x,
            None => {
                proof {
                    lemma_overflow_implies_invalid(s@, from as int, i as int);
                }
                return None;
            },
        };
        i = i + 1;
    }
    proof {
        assert(s@.subrange(from as int, n as int) =~= t);
    }
    Some(acc)
}

/// If the numeral up to position `i` already exceeds `u64::MAX` when one
/// more digit is appended, the whole suffix is not a `u64` numeral.
proof fn lemma_overflow_implies_invalid(s: Seq<char>, from: int, i: int)
    requires
        0 <= from <= i < s.len(),
        all_digits(s.subrange(from, i)),
        is_digit_char(s[i]),
        digits_value(s.subrange(from, i)) * 10 + digit_val(s[i]) > u64::MAX,
    ensures
        !(all_digits(s.skip(from)) && digits_value(s.skip(from)) <= u64::MAX),
{
    let t = s.skip(from);
    if all_digits(t) {
        let ext = s.subrange(from, i + 1);
        assert(ext.drop_last() =~= s.subrange(from, i));
        assert(ext.last() == s[i]);
        assert(digits_value(ext) > u64::MAX);
        assert(ext =~= t.take(i + 1 - from));
        lemma_digits_value_prefix(t, i + 1 - from);
    }
}

/// `s` is what `u32` accepts as a base-ten numeral: an optional leading
/// `+`, then one or more digits, value at most `u32::MAX`.
pub open spec fn is_u32_string(s: Seq<char>) -> bool {
    if s.len() > 0 && s[0] == '+' {
        is_bounded_magnitude(s.skip(1), u32::MAX as int)
    } else {
        is_bounded_magnitude(s, u32::MAX as int)
    }
}

/// A nonempty all-digit numeral whose value is at most `bound`.
pub open spec fn is_bounded_magnitude(t: Seq<char>, bound: int) -> bool {
    t.len() > 0 && all_digits(t) && digits_value(t) <= bound
}

/// The value of a numeral accepted by [`is_u32_string`].
pub open spec fn spec_u32_value(s: Seq<char>) -> int {
    if s.len() > 0 && s[0] == '+' {
        digits_value(s.skip(1))
    } else {
        digits_value(s)
    }
}

/// Parses an unsigned 32-bit numeral, as `str::parse::<u32>` reads it:
/// optional `+`, digits only, no surrounding whitespace.
pub fn parse_u32(s: &str) -> (r: Option<u32>)
    ensures
        match r {
            Some(v) => is_u32_string(s@) && v == spec_u32_value(s@),
            None => !is_u32_string(s@),
        },
{
    let n = s.unicode_len();
    if n == 0 {
        return None;
    }
    let from: usize = if s.get_char(0) == '+' {
        1
    } else {
        0
    };
    proof {
        if from == 0 {
            assert(s@.skip(0) =~= s@);
        }
    }
    match parse_magnitude(s, from) {
        Some(m) => {
            if m <= u32::MAX as u64 {
                Some(m as u32)
            } else {
                None
            }
        },
        None => None,
    }
}

/// `s` is what `i64` accepts as a base-ten numeral: an optional sign,
/// then one or more digits, value within the signed 64-bit range.
pub open spec fn is_i64_string(s: Seq<char>) -> bool {
    if s.len() == 0 {
        false
    } else if s[0] == '-' {
        is_bounded_magnitude(s.skip(1), i64::MAX as int + 1)
    } else if s[0] == '+' {
        is_bounded_magnitude(s.skip(1), i64::MAX as int)
    } else {
        is_bounded_magnitude(s, i64::MAX as int)
    }
}

/// The value of a numeral accepted by [`is_i64_string`].
pub open spec fn spec_i64_value(s: Seq<char>) -> int {
    if s.len() > 0 && s[0] == '-' {
        -digits_value(s.skip(1))
    } else if s.len() > 0 && s[0] == '+' {
        digits_value(s.skip(1))
    } else {
        digits_value(s)
    }
}

/// Parses a signed 64-bit numeral, as `str::parse::<i64>` reads it.
pub fn parse_i64(s: &str) -> (r: Option<i64>)
    ensures
        match r {
            Some(v) => is_i64_string(s@) && v == spec_i64_value(s@),
            None => !is_i64_string(s@),
        },
{
    let n = s.unicode_len();
    if n == 0 {
        return None;
    }
    let c0 = s.get_char(0);
    let neg = c0 == '-';
    let from: usize = if neg || c0 == '+' {
        1
    } else {
        0
    };
    proof {
        if from == 0 {
            assert(s@.skip(0) =~= s@);
        }
    }
    match parse_magnitude(s, from) {
        Some(m) => {
            if neg {
                if m <= i64::MAX as u64 {
                    Some(-(m as i64))
                } else if m == i64::MAX as u64 + 1 {
                    Some(i64::MIN)
                } else {
                    None
                }
            } else {
                if m <= i64::MAX as u64 {
                    Some(m as i64)
                } else {
                    None
                }
            }
        },
        None => None,
    }
}

/// `c` is whitespace as `char::is_whitespace` accepts it — the Unicode
/// White_Space set, the very characters `str::trim` strips.
pub open spec fn is_space_char(c: char) -> bool {
    ||| c == '\u{0009}'  // horizontal tab
    ||| c == '\u{000A}'  // line feed
    ||| c == '\u{000B}'  // vertical tab
    ||| c == '\u{000C}'  // form feed
    ||| c == '\u{000D}'  // carriage return
    ||| c == ' '
    ||| c == '\u{0085}'  // next line
    ||| c == '\u{00A0}'  // no-break space
    ||| c == '\u{1680}'  // ogham space mark
    ||| ('\u{2000}' <= c && c <= '\u{200A}')  // en quad through hair space
    ||| c == '\u{2028}'  // line separator
    ||| c == '\u{2029}'  // paragraph separator
    ||| c == '\u{202F}'  // narrow no-break space
    ||| c == '\u{205F}'  // medium mathematical space
    ||| c == '\u{3000}'  // ideographic space
}

/// `s` with leading whitespace removed.
pub open spec fn trim_start_rec(s: Seq<char>) -> Seq<char>
    decreases s.len(),
{
    if s.len() > 0 && is_space_char(s[0]) {
        trim_start_rec(s.drop_first())
    } else {
        s
    }
}

/// `s` with trailing whitespace removed.
pub open spec fn trim_end_rec(s: Seq<char>) -> Seq<char>
    decreases s.len(),
{
    if s.len() > 0 && is_space_char(s.last()) {
        trim_end_rec(s.drop_last())
    } else {
        s
    }
}

/// `s` with whitespace removed from both ends.
pub open spec fn spec_trim(s: Seq<char>) -> Seq<char> {
    trim_end_rec(trim_start_rec(s))
}

/// Exec mirror of [`is_space_char`].
pub fn is_space(c: char) -> (b: bool)
    ensures
        b == is_space_char(c),
{
    c == '\u{0009}' || c == '\u{000A}' || c == '\u{000B}' || c == '\u{000C}' || c == '\u{000D}'
        || c == ' ' || c == '\u{0085}' || c == '\u{00A0}' || c == '\u{1680}' || ('\u{2000}' <= c
        && c <= '\u{200A}') || c == '\u{2028}' || c == '\u{2029}' || c == '\u{202F}' || c
        == '\u{205F}' || c == '\u{3000}'
}

/// Strips whitespace, as `str::trim` does, from both ends of `s`.
pub fn trim_str(s: &str) -> (r: &str)
    ensures
        r@ == spec_trim(s@),
{
    let n = s.unicode_len();
    proof {
        assert(s@.skip(0) =~= s@);
    }
    let mut a: usize = 0;
    while a < n && is_space(s.get_char(a))
        invariant
            0 <= a <= n,
            n == s@.len(),
            trim_start_rec(s@) == trim_start_rec(s@.skip(a as int)),
        decreases n - a,
    {
        proof {
            assert(s@.skip(a as int).drop_first() =~= s@.skip(a + 1 as int));
        }
        a = a + 1;
    }
    proof {
        if a == n {
            assert(s@.skip(a as int) =~= Seq::<char>::empty());
        }
        assert(trim_start_rec(s@.skip(a as int)) == s@.skip(a as int));
        assert(s@.skip(a as int) =~= s@.subrange(a as int, n as int));
    }
    let mut b: usize = n;
    while b > a && is_space(s.get_char(b - 1))
        invariant
            a <= b <= n,
            n == s@.len(),
            trim_start_rec(s@) == s@.skip(a as int),
            trim_end_rec(s@.skip(a as int)) == trim_end_rec(s@.subrange(a as int, b as int)),
        decreases b,
    {
        proof {
            assert(s@.subrange(a as int, b as int).drop_last() =~= s@.subrange(
                a as int,
                b - 1 as int,
            ));
        }
        b = b - 1;
    }
    proof {
        if b == a {
            assert(s@.subrange(a as int, b as int) =~= Seq::<char>::empty());
        }
        assert(trim_end_rec(s@.subrange(a as int, b as int)) == s@.subrange(a as int, b as int));
    }
    s.substring_char(a, b)
}

/// The segments of `s` between commas, in order; a string without commas
/// is one segment, and every comma separates two (possibly empty) segments.
pub open spec fn spec_split_commas(s: Seq<char>) -> Seq<Seq<char>>
    decreases s.len(),
{
    if s.len() == 0 {
        seq![Seq::<char>::empty()]
    } else {
        let rest = spec_split_commas(s.drop_first());
        if s[0] == ',' {
            seq![Seq::<char>::empty()] + rest
        } else {
            seq![seq![s[0]] + rest[0]] + rest.skip(1)
        }
    }
}

proof fn lemma_split_commas_len(s: Seq<char>)
    ensures
        spec_split_commas(s).len() >= 1,
    decreases s.len(),
{
    if s.len() > 0 {
        lemma_split_commas_len(s.drop_first());
    }
}

/// Appending one character extends the split on the right: a comma opens a
/// new empty segment, any other character extends the last segment.
proof fn lemma_split_commas_push(s: Seq<char>, c: char)
    ensures
        spec_split_commas(s.push(c)) == (if c == ',' {
            spec_split_commas(s).push(Seq::<char>::empty())
        } else {
            let sp = spec_split_commas(s);
            sp.update(sp.len() - 1, sp.last().push(c))
        }),
    decreases s.len(),
{
    lemma_split_commas_len(s);
    if s.len() == 0 {
        assert(s.push(c).drop_first() =~= s);
        assert(spec_split_commas(s) =~~= seq![Seq::<char>::empty()]);
        if c == ',' {
            assert(spec_split_commas(s.push(c)) =~= spec_split_commas(s).push(
                Seq::<char>::empty(),
            ));
        } else {
            assert(seq![s.push(c)[0]] + spec_split_commas(s.push(c).drop_first())[0] =~= seq![c]);
            assert(spec_split_commas(s.push(c)) =~= spec_split_commas(s).update(
                0,
                Seq::<char>::empty().push(c),
            ));
        }
    } else {
        let t = s.drop_first();
        lemma_split_commas_len(t);
        assert(s.push(c).drop_first() =~= t.push(c));
        lemma_split_commas_push(t, c);
        let rest = spec_split_commas(t);
        let restc = spec_split_commas(t.push(c));
        if c == ',' {
            if s[0] == ',' {
                assert(spec_split_commas(s.push(c)) =~= spec_split_commas(s).push(
                    Seq::<char>::empty(),
                ));
            } else {
                assert(restc[0] == rest[0]);
                assert(restc.skip(1) =~= rest.skip(1).push(Seq::<char>::empty()));
                assert(spec_split_commas(s.push(c)) =~= spec_split_commas(s).push(
                    Seq::<char>::empty(),
                ));
            }
        } else {
            let sp = spec_split_commas(s);
            if s[0] == ',' {
                if rest.len() == 1 {
                    assert(restc =~= seq![rest[0].push(c)]);
                    assert(spec_split_commas(s.push(c)) =~= sp.update(
                        sp.len() - 1,
                        sp.last().push(c),
                    ));
                } else {
                    assert(restc =~= rest.update(rest.len() - 1, rest.last().push(c)));
                    assert(spec_split_commas(s.push(c)) =~= sp.update(
                        sp.len() - 1,
                        sp.last().push(c),
                    ));
                }
            } else {
                if rest.len() == 1 {
                    assert(restc =~= seq![rest[0].push(c)]);
                    assert(sp =~= seq![seq![s[0]] + rest[0]]);
                    assert(seq![s.push(c)[0]] + restc[0] =~= (seq![s[0]] + rest[0]).push(c));
                    assert(spec_split_commas(s.push(c)) =~= sp.update(
                        sp.len() - 1,
                        sp.last().push(c),
                    ));
                } else {
                    assert(restc[0] == rest[0]);
                    assert(seq![s.push(c)[0]] + restc[0] =~= seq![s[0]] + rest[0]);
                    assert(restc.skip(1) =~= rest.skip(1).update(
                        rest.len() - 2,
                        rest.last().push(c),
                    ));
                    assert(spec_split_commas(s.push(c)) =~= sp.update(
                        sp.len() - 1,
                        sp.last().push(c),
                    ));
                }
            }
        }
    }
}

/// Splits `s` at every comma, keeping empty segments, as
/// `str::split(',')` does.
pub fn split_commas(s: &str) -> (r: Vec<String>)
    ensures
        r.deep_view() == spec_split_commas(s@),
{
    let n = s.unicode_len();
    let mut out: Vec<String> = Vec::new();
    proof {
        assert(s@.take(0) =~= Seq::<char>::empty());
        assert(out.deep_view() =~= Seq::<Seq<char>>::empty());
        assert(spec_split_commas(s@.take(0)) =~~= out.deep_view().push(s@.subrange(0, 0)));
    }
    let mut start: usize = 0;
    let mut i: usize = 0;
    while i < n
        invariant
            0 <= start <= i <= n,
            n == s@.len(),
            spec_split_commas(s@.take(i as int)) == out.deep_view().push(
                s@.subrange(start as int, i as int),
            ),
        decreases n - i,
    {
        let c = s.get_char(i);
        proof {
            assert(s@.take(i + 1 as int) =~= s@.take(i as int).push(s@[i as int]));
            lemma_split_commas_push(s@.take(i as int), s@[i as int]);
            lemma_split_commas_len(s@.take(i as int));
        }
        if c == ',' {
            let seg = s.substring_char(start, i).to_owned();
            let ghost pre = out.deep_view();
            out.push(seg);
            proof {
                assert(out.deep_view() =~= pre.push(seg@));
                assert(spec_split_commas(s@.take(i + 1 as int)) =~~= out.deep_view().push(
                    s@.subrange(i + 1 as int, i + 1 as int),
                ));
            }
            start = i + 1;
        } else {
            proof {
                let sp = spec_split_commas(s@.take(i as int));
                assert(sp.last() == s@.subrange(start as int, i as int));
                assert(s@.subrange(start as int, i as int).push(s@[i as int]) =~= s@.subrange(
                    start as int,
                    i + 1 as int,
                ));
                assert(sp.update(sp.len() - 1, sp.last().push(s@[i as int])) =~~= out.deep_view()
                    .push(s@.subrange(start as int, i + 1 as int)));
            }
        }
        i = i + 1;
    }
    let seg = s.substring_char(start, n).to_owned();
    let ghost pre = out.deep_view();
    out.push(seg);
    proof {
        assert(s@.take(n as int) =~= s@);
        assert(out.deep_view() =~= pre.push(seg@));
    }
    out
}

/// The concatenation of a sequence of strings, in order.
pub open spec fn spec_concat(vs: Seq<Seq<char>>) -> Seq<char>
    decreases vs.len(),
{
    if vs.len() == 0 {
        Seq::<char>::empty()
    } else {
        spec_concat(vs.drop_last()) + vs.last()
    }
}

/// Concatenates all strings of `vs` into one.
pub fn concat_all(vs: &Vec<String>) -> (r: String)
    ensures
        r@ == spec_concat(vs.deep_view()),
{
    let mut r = String::new();
    let mut i: usize = 0;
    while i < vs.len()
        invariant
            0 <= i <= vs.len(),
            r@ == spec_concat(vs.deep_view().take(i as int)),
        decreases vs.len() - i,
    {
        r.append(vs[i].as_str());
        proof {
            assert(vs.deep_view().take(i + 1 as int).drop_last() =~= vs.deep_view().take(i as int));
            assert(vs.deep_view().take(i + 1 as int).last() == vs.deep_view()[i as int]);
        }
        i = i + 1;
    }
    proof {
        assert(vs.deep_view().take(vs.deep_view().len() as int) =~= vs.deep_view());
    }
    r
}

/// Character-by-character string equality.
pub fn str_eq(a: &str, b: &str) -> (r: bool)
    ensures
        r == (a@ == b@),
{
    let n = a.unicode_len();
    let m = b.unicode_len();
    if n != m {
        return false;
    }
    let mut i: usize = 0;
    while i < n
        invariant
            0 <= i <= n,
            n == a@.len(),
            n == b@.len(),
            forall|j: int| 0 <= j < i ==> a@[j] == b@[j],
        decreases n - i,
    {
        if a.get_char(i) != b.get_char(i) {
            return false;
        }
        i = i + 1;
    }
    proof {
        assert(a@ =~= b@);
    }
    true
}

} // verus!
