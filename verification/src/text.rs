//! Character-level helpers shared by the file-name and link scanners.

use vstd::prelude::*;

verus! {

broadcast use vstd::string::group_string_axioms;

/// The characters of a string slice, in order.
pub fn chars_of(s: &str) -> (v: Vec<char>)
    ensures
        v@ == s@,
{
    let mut v: Vec<char> = Vec::new();
    for c in it: s.chars()
        invariant
            v@ == it.seq().take(it.index() as int),
    {
        v.push(c);
    }
    v
}

/// `c` is one of the ASCII digits `0` to `9`.
pub open spec fn is_ascii_digit(c: char) -> bool {
    '0' <= c && c <= '9'
}

/// Every character of `s` is an ASCII digit.
pub open spec fn all_ascii_digits(s: Seq<char>) -> bool {
    forall|i: int| 0 <= i < s.len() ==> #[trigger] is_ascii_digit(s[i])
}

/// The value of an ASCII digit.
pub open spec fn digit_value(c: char) -> nat {
    (c as int - '0' as int) as nat
}

/// The number that the decimal digits `s` spell, most significant first
/// (the empty sequence spells zero).
pub open spec fn decimal_value(s: Seq<char>) -> nat
    decreases s.len(),
{
    if s.len() == 0 {
        0
    } else {
        decimal_value(s.drop_last()) * 10 + digit_value(s.last())
    }
}

/// What `str::parse::<u32>` gives on a run of characters that holds no sign:
/// the value when the run is non-empty, all ASCII digits, and fits in a `u32`.
pub open spec fn parsed_u32(s: Seq<char>) -> Option<u32> {
    if s.len() > 0 && all_ascii_digits(s) && decimal_value(s) <= u32::MAX {
        Some(decimal_value(s) as u32)
    } else {
        None
    }
}

/// A prefix of a digit string never spells more than the whole string.
proof fn lemma_decimal_prefix_le(s: Seq<char>, k: int)
    requires
        0 <= k <= s.len(),
        all_ascii_digits(s),
    ensures
        decimal_value(s.take(k)) <= decimal_value(s),
    decreases s.len(),
{
    if k < s.len() {
        assert(all_ascii_digits(s.drop_last())) by {
            assert forall|i: int| 0 <= i < s.drop_last().len() implies #[trigger] is_ascii_digit(
                s.drop_last()[i],
            ) by {
                assert(is_ascii_digit(s[i]));
            }
        }
        assert(s.drop_last().take(k) =~= s.take(k));
        lemma_decimal_prefix_le(s.drop_last(), k);
    } else {
        assert(s.take(k) =~= s);
    }
}

/// Reads the decimal number that `chars[start..end]` spells, as
/// `str::parse::<u32>` would on a run without a sign.
pub fn parse_u32_digits(chars: &Vec<char>, start: usize, end: usize) -> (r: Option<u32>)
    requires
        start <= end <= chars.len(),
    ensures
        r == parsed_u32(chars@.subrange(start as int, end as int)),
{
    let ghost s = chars@.subrange(start as int, end as int);
    if start == end {
        return None;
    }
    let mut i = start;
    while i < end
        invariant
            start <= i <= end <= chars.len(),
            s == chars@.subrange(start as int, end as int),
            forall|j: int| 0 <= j < i - start ==> #[trigger] is_ascii_digit(s[j]),
        decreases end - i,
    {
        if !('0' <= chars[i] && chars[i] <= '9') {
            assert(!is_ascii_digit(s[i - start]));
            return None;
        }
        i = i + 1;
    }
    assert(all_ascii_digits(s));
    let mut acc: u32 = 0;
    let mut i = start;
    while i < end
        invariant
            start <= i <= end <= chars.len(),
            s == chars@.subrange(start as int, end as int),
            all_ascii_digits(s),
            acc == decimal_value(s.take(i - start)),
        decreases end - i,
    {
        let ghost k = i - start;
        assert(s.take(k + 1).drop_last() =~= s.take(k));
        assert(s.take(k + 1).last() == s[k]);
        assert(is_ascii_digit(s[k]));
        let d = (chars[i] as u32) - ('0' as u32);
        match acc.checked_mul(10) {
            None => {
                proof {
                    lemma_decimal_prefix_le(s, k + 1);
                }
                return None;
            },
            Some(m) => match m.checked_add(d) {
                None => {
                    proof {
                        lemma_decimal_prefix_le(s, k + 1);
                    }
                    return None;
                },
                Some(v) => {
                    acc = v;
                },
            },
        }
        i = i + 1;
    }
    assert(s.take(end - start) =~= s);
    Some(acc)
}

/// Whether `c` belongs to the class `\d` of the `regex` crate, which in its
/// default Unicode mode is the Unicode general category Nd (decimal number).
pub uninterp spec fn is_unicode_decimal(c: char) -> bool;

/// Asks the `regex` crate (`Regex::new`, `Regex::is_match`) whether the
/// one-character string `c` matches `^\d$`. The contract claims that the
/// answer is `is_unicode_decimal(c)`, which depends on `c` alone, and that
/// among the ASCII characters exactly the digits `0` to `9` are in the class,
/// as the crate's documentation of `\d` (Nd) and its table `perl_decimal`
/// show (its first range is `'0'..='9'`, and the next starts at U+0660).
/// Which characters beyond ASCII are in the class is left unsaid. The pattern is valid, so `Regex::new` does not fail.
#[verifier::external_body]
pub(crate) fn is_decimal_char(c: char) -> (r: bool)
    ensures
        r == is_unicode_decimal(c),
        is_ascii_digit(c) ==> r,
        (c as int) < 128 ==> (r <==> is_ascii_digit(c)),
{
    let mut buf = [0u8; 4];
    match regex::Regex::new(r"^\d$") {
        Ok(re) => re.is_match(c.encode_utf8(&mut buf)),
        Err(_) => false,
    }
}

} // verus!
