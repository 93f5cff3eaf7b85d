//! Character and digit-string utilities shared by the tokenizer, the
//! record parser and the time-window filter.

use vstd::prelude::*;
use vstd::string::*;

verus! {

/// True when `c` is an ASCII decimal digit.
pub open spec fn is_digit_char(c: char) -> bool {
    48 <= c as u32 && c as u32 <= 57
}

/// Numeric value of one decimal digit character.
pub open spec fn digit_val(c: char) -> int {
    c as u32 - 48
}

/// Every character of `s` is a decimal digit.
pub open spec fn all_digits(s: Seq<char>) -> bool {
    forall|i: int| 0 <= i < s.len() ==> is_digit_char(#[trigger] s[i])
}

/// Value of a digit string read in base ten.
pub open spec fn digits_val(s: Seq<char>) -> int
    decreases s.len(),
{
    if s.len() == 0 {
        0
    } else {
        digits_val(s.drop_last()) * 10 + digit_val(s.last())
    }
}

/// A digit string never denotes a negative value.
pub proof fn lemma_digits_val_nonneg(s: Seq<char>)
    requires
        all_digits(s),
    ensures
        digits_val(s) >= 0,
    decreases s.len(),
{
    if s.len() > 0 {
        assert(is_digit_char(s[s.len() - 1]));
        assert(all_digits(s.drop_last()));
        lemma_digits_val_nonneg(s.drop_last());
    }
}

/// A digit string is worth at least as much as any of its prefixes.
pub proof fn lemma_digits_val_take_le(s: Seq<char>, i: int)
    requires
        all_digits(s),
        0 <= i <= s.len(),
    ensures
        digits_val(s.take(i)) <= digits_val(s),
    decreases s.len(),
{
    if i == s.len() {
        assert(s.take(i) =~= s);
    } else {
        assert(all_digits(s.drop_last()));
        assert(s.drop_last().take(i) =~= s.take(i));
        lemma_digits_val_take_le(s.drop_last(), i);
        lemma_digits_val_nonneg(s.drop_last());
        assert(is_digit_char(s[s.len() - 1]));
    }
}

/// Meaning of a decimal integer literal with an optional leading minus
/// sign: the signed value when the text is well formed and fits in an
/// `i64`, and nothing otherwise.
pub open spec fn parse_i64_spec(s: Seq<char>) -> Option<i64> {
    if s.len() > 0 && s[0] == '-' {
        let mag = s.subrange(1, s.len() as int);
        if mag.len() > 0 && all_digits(mag) && digits_val(mag) <= 0x8000000000000000 {
            Some((0 - digits_val(mag)) as i64)
        } else {
            None
        }
    } else {
        if s.len() > 0 && all_digits(s) && digits_val(s) <= 0x7fffffffffffffff {
            Some(digits_val(s) as i64)
        } else {
            None
        }
    }
}

/// Reads a decimal integer with an optional leading minus sign.
/// Returns `None` on empty input, a stray character, or a value outside
/// the `i64` range.
#[verifier::loop_isolation(false)]
pub fn parse_i64(s: &str) -> (r: Option<i64>)
    ensures
        r == parse_i64_spec(s@),
{
    let n: usize = s.unicode_len();
    let neg: bool = n > 0 && s.get_char(0) == '-';
    let start: usize = if neg {
        1
    } else {
        0
    };
    let ghost mag: Seq<char> = s@.subrange(start as int, n as int);
    proof {
        assert(!neg ==> mag =~= s@);
    }
    if n == start {
        return None;
    }
    let mut acc: u64 = 0;
    let mut i: usize = start;
    while i < n
        invariant
            start <= i <= n,
            start < n,
            n == s@.len(),
            mag == s@.subrange(start as int, n as int),
            all_digits(mag.take(i - start)),
            acc == digits_val(mag.take(i - start)),
            acc <= 0x8000000000000000,
        decreases n - i,
    {
        let c = s.get_char(i);
        let code: u32 = c as u32;
        if code < 48 || code > 57 {
            assert(mag[i - start] == s@[i as int]);
            assert(!is_digit_char(mag[i - start]));
            return None;
        }
        let d: u64 = (code - 48) as u64;
        proof {
            assert(mag[i - start] == s@[i as int]);
            assert(mag.take(i - start).push(mag[i - start]) =~= mag.take(i + 1 - start));
            assert(mag.take(i + 1 - start).drop_last() =~= mag.take(i - start));
            assert(digits_val(mag.take(i + 1 - start)) == acc * 10 + digit_val(c));
        }
        if acc > 922337203685477580 {
            proof {
                if all_digits(mag) {
                    lemma_digits_val_take_le(mag, i + 1 - start);
                }
            }
            return None;
        }
        let next: u64 = acc * 10 + d;
        if next > 0x8000000000000000 {
            proof {
                if all_digits(mag) {
                    lemma_digits_val_take_le(mag, i + 1 - start);
                }
            }
            return None;
        }
        acc = next;
        i = i + 1;
    }
    proof {
        assert(mag.take(n - start) =~= mag);
    }
    if neg {
        proof {
            lemma_digits_val_nonneg(mag);
        }
        if acc <= 0x7fffffffffffffff {
            Some(-(acc as i64))
        } else {
            Some(i64::MIN)
        }
    } else {
        if acc <= 0x7fffffffffffffff {
            Some(acc as i64)
        } else {
            None
        }
    }
}

/// Lexicographic order on character sequences, comparing scalar values
/// position by position; a proper prefix comes first.
pub open spec fn lex_le(a: Seq<char>, b: Seq<char>) -> bool
    decreases a.len(),
{
    if a.len() == 0 {
        true
    } else if b.len() == 0 {
        false
    } else if a[0] != b[0] {
        (a[0] as u32) < (b[0] as u32)
    } else {
        lex_le(a.drop_first(), b.drop_first())
    }
}

/// Any two character sequences are ordered one way or the other.
pub proof fn lemma_lex_le_total(a: Seq<char>, b: Seq<char>)
    ensures
        lex_le(a, b) || lex_le(b, a),
    decreases a.len(),
{
    if a.len() > 0 && b.len() > 0 {
        if a[0] == b[0] {
            lemma_lex_le_total(a.drop_first(), b.drop_first());
        } else {
            vstd::utf8::char_u32_cast(a[0], a[0] as u32);
            vstd::utf8::char_u32_cast(b[0], b[0] as u32);
        }
    }
}

/// Sequences ordered both ways are equal.
pub proof fn lemma_lex_le_antisymmetric(a: Seq<char>, b: Seq<char>)
    requires
        lex_le(a, b),
        lex_le(b, a),
    ensures
        a == b,
    decreases a.len(),
{
    if a.len() > 0 && b.len() > 0 && a[0] == b[0] {
        lemma_lex_le_antisymmetric(a.drop_first(), b.drop_first());
        assert(a =~= seq![a[0]] + a.drop_first());
        assert(b =~= seq![b[0]] + b.drop_first());
    } else {
        assert(a =~= b);
    }
}

/// The lexicographic order is transitive.
pub proof fn lemma_lex_le_transitive(a: Seq<char>, b: Seq<char>, c: Seq<char>)
    requires
        lex_le(a, b),
        lex_le(b, c),
    ensures
        lex_le(a, c),
    decreases a.len(),
{
    if a.len() > 0 && b.len() > 0 && c.len() > 0 {
        if a[0] == b[0] && b[0] == c[0] {
            lemma_lex_le_transitive(a.drop_first(), b.drop_first(), c.drop_first());
        }
    }
}

/// Compares two strings in the lexicographic order of their characters.
#[verifier::loop_isolation(false)]
pub fn str_lex_le(a: &str, b: &str) -> (r: bool)
    ensures
        r == lex_le(a@, b@),
{
    let na: usize = a.unicode_len();
    let nb: usize = b.unicode_len();
    let mut i: usize = 0;
    proof {
        assert(a@.skip(0) =~= a@);
        assert(b@.skip(0) =~= b@);
    }
    while i < na && i < nb
        invariant
            0 <= i <= na,
            0 <= i <= nb,
            lex_le(a@, b@) == lex_le(a@.skip(i as int), b@.skip(i as int)),
            lex_le(b@, a@) == lex_le(b@.skip(i as int), a@.skip(i as int)),
        decreases na - i,
    {
        let ca = a.get_char(i);
        let cb = b.get_char(i);
        proof {
            assert(a@.skip(i as int)[0] == a@[i as int]);
            assert(b@.skip(i as int)[0] == b@[i as int]);
            assert(a@.skip(i as int).drop_first() =~= a@.skip(i + 1));
            assert(b@.skip(i as int).drop_first() =~= b@.skip(i + 1));
        }
        if ca != cb {
            return (ca as u32) < (cb as u32);
        }
        i = i + 1;
    }
    proof {
        if i >= na {
            assert(a@.skip(i as int).len() == 0);
        } else {
            assert(b@.skip(i as int).len() == 0);
            assert(a@.skip(i as int).len() > 0);
        }
    }
    na <= nb
}

/// Index of the first occurrence of `c` in `s`, or `-1` when absent.
pub open spec fn find_first(s: Seq<char>, c: char) -> int
    decreases s.len(),
{
    if s.len() == 0 {
        -1
    } else if s[0] == c {
        0
    } else if find_first(s.drop_first(), c) == -1 {
        -1
    } else {
        1 + find_first(s.drop_first(), c)
    }
}

/// What `find_first` returns: `-1` exactly when `c` is absent, and
/// otherwise the least index holding `c`.
pub proof fn lemma_find_first(s: Seq<char>, c: char)
    ensures
        find_first(s, c) == -1 ==> forall|i: int| 0 <= i < s.len() ==> #[trigger] s[i] != c,
        find_first(s, c) != -1 ==> 0 <= find_first(s, c) < s.len() && s[find_first(s, c)] == c
            && forall|i: int| 0 <= i < find_first(s, c) ==> #[trigger] s[i] != c,
    decreases s.len(),
{
    if s.len() > 0 && s[0] != c {
        lemma_find_first(s.drop_first(), c);
        assert(forall|i: int| 1 <= i < s.len() ==> #[trigger] s[i] == s.drop_first()[i - 1]);
    }
}

/// A duration field's well-formed text: the sentinel `-1`, a nonempty
/// run of digits, or digits on both sides of one decimal point.
pub open spec fn is_plain_decimal(s: Seq<char>) -> bool {
    let d = find_first(s, '.');
    if d == -1 {
        s.len() > 0 && all_digits(s)
    } else {
        1 <= d && d + 1 < s.len() && all_digits(s.take(d)) && all_digits(s.skip(d + 1))
    }
}

/// See `is_plain_decimal`; the sentinel `-1` stands for a connection
/// that closed before the duration was measured.
pub open spec fn is_duration_text(s: Seq<char>) -> bool {
    (s.len() == 2 && s[0] == '-' && s[1] == '1') || is_plain_decimal(s)
}

/// True when every character of `s` between `from` and `to` is a digit.
#[verifier::loop_isolation(false)]
pub fn digits_in_range(s: &str, from: usize, to: usize) -> (r: bool)
    requires
        from <= to <= s@.len(),
    ensures
        r == all_digits(s@.subrange(from as int, to as int)),
{
    let ghost part = s@.subrange(from as int, to as int);
    let mut j: usize = from;
    while j < to
        invariant
            from <= j <= to,
            all_digits(part.take(j - from)),
        decreases to - j,
    {
        let c = s.get_char(j);
        let code: u32 = c as u32;
        if code < 48 || code > 57 {
            assert(part[j - from] == s@[j as int]);
            return false;
        }
        proof {
            assert(part.take(j - from).push(part[j - from]) =~= part.take(j + 1 - from));
        }
        j = j + 1;
    }
    proof {
        assert(part.take(to - from) =~= part);
    }
    true
}

/// Checks the text of a duration field: the sentinel `-1`, or an
/// unsigned decimal number with digits on both sides of at most one
/// decimal point.
#[verifier::loop_isolation(false)]
pub fn is_duration(s: &str) -> (r: bool)
    ensures
        r == is_duration_text(s@),
{
    let n: usize = s.unicode_len();
    if n == 2 && s.get_char(0) == '-' && s.get_char(1) == '1' {
        return true;
    }
    let mut dot: usize = 0;
    let mut found: bool = false;
    let mut i: usize = 0;
    while i < n && !found
        invariant
            0 <= i <= n,
            !found ==> forall|j: int| 0 <= j < i ==> s@[j] != '.',
            found ==> 0 <= dot < n && s@[dot as int] == '.' && forall|j: int|
                0 <= j < dot ==> s@[j] != '.',
        decreases n - i + (if found { 0int } else { 1int }),
    {
        if s.get_char(i) == '.' {
            dot = i;
            found = true;
        } else {
            i = i + 1;
        }
    }
    proof {
        lemma_find_first(s@, '.');
    }
    if !found {
        proof {
            if find_first(s@, '.') != -1 {
                assert(s@[find_first(s@, '.')] == '.');
            }
            assert(s@.subrange(0, n as int) =~= s@);
        }
        n > 0 && digits_in_range(s, 0, n)
    } else {
        proof {
            let d = find_first(s@, '.');
            if d == -1 {
                assert(s@[dot as int] != '.');
            } else {
                if d < dot {
                    assert(s@[d] != '.');
                } else if dot < d {
                    assert(s@[dot as int] != '.');
                }
            }
            assert(find_first(s@, '.') == dot);
            assert(s@.take(dot as int) =~= s@.subrange(0, dot as int));
            assert(s@.skip(dot + 1) =~= s@.subrange(dot + 1, n as int));
        }
        if !(dot >= 1 && dot + 1 < n) {
            return false;
        }
        digits_in_range(s, 0, dot) && digits_in_range(s, dot + 1, n)
    }
}

/// Relies on String's FromIterator impl over characters: collecting a
/// character sequence yields the string holding exactly those characters
/// in order.
#[verifier::external_body]
pub fn chars_to_string(v: &Vec<char>) -> (s: String)
    ensures
        s@ == v@,
{
    v.iter().collect()
}

/// The parsed value of a numeric field that is allowed to be absent:
/// the field's own value when it parses, and the sentinel `-1` otherwise.
pub open spec fn sentinel_i64(s: Seq<char>) -> i64 {
    match parse_i64_spec(s) {
        Some(v) => v,
        None => -1i64,
    }
}

/// Reads a tolerant numeric field: its value when it parses as an `i64`,
/// and the sentinel `-1` on any parse failure.
pub fn parse_sentinel_i64(s: &str) -> (r: i64)
    ensures
        r == sentinel_i64(s@),
{
    match parse_i64(s) {
        Some(v) => v,
        None => -1,
    }
}

} // verus!
