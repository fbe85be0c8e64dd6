//! RFC file names: `<number>-<short title>.md`.

use vstd::prelude::*;
use crate::errors::Error;
use crate::links::{has_at, lit_at};
use crate::text::{all_ascii_digits, chars_of, is_ascii_digit, parse_u32_digits, parsed_u32};

verus! {

/// The end of the run of ASCII digits that starts at `j`.
pub open spec fn ascii_digit_run_end(t: Seq<char>, j: int) -> int
    decreases t.len() - j,
{
    if 0 <= j < t.len() && is_ascii_digit(t[j]) {
        ascii_digit_run_end(t, j + 1)
    } else {
        j
    }
}

/// `.md`
pub open spec fn markdown_extension() -> Seq<char> {
    seq!['.', 'm', 'd']
}

/// No character of `s` is a line feed.
pub open spec fn no_line_feed(s: Seq<char>) -> bool {
    forall|i: int| 0 <= i < s.len() ==> s[i] != '\n'
}

/// The number and short title that an RFC file name `<number>-<title>.md`
/// gives, as the pattern `^(\d+)-(.*)\.md$` and `str::parse::<u32>` read it:
/// the number is the leading run of digits, followed by `-`; the title is
/// what stands between that `-` and the final `.md`, and holds no line feed;
/// the number must fit in a `u32`. (A run of Unicode digits that are not
/// ASCII is matched by `\d` but then fails to parse, so it makes the name
/// invalid either way.)
pub open spec fn file_name_parts(t: Seq<char>) -> Option<(u32, Seq<char>)> {
    let k = ascii_digit_run_end(t, 0);
    if 0 < k && k + 4 <= t.len() && t[k] == '-' && has_at(t, t.len() - 3, markdown_extension())
        && no_line_feed(t.subrange(k + 1, t.len() - 3)) && parsed_u32(t.subrange(0, k)) is Some {
        Some((parsed_u32(t.subrange(0, k))->0, t.subrange(k + 1, t.len() - 3)))
    } else {
        None
    }
}

/// The run of digits at the start of `d + rest` ends where `d` ends, when
/// `d` is all digits and `rest` does not start with one.
proof fn lemma_digit_run_of_prefix(t: Seq<char>, d: Seq<char>, j: int)
    requires
        0 <= j <= d.len() < t.len(),
        t.take(d.len() as int) == d,
        all_ascii_digits(d),
        !is_ascii_digit(t[d.len() as int]),
    ensures
        ascii_digit_run_end(t, j) == d.len(),
    decreases d.len() - j,
{
    if j < d.len() {
        assert(t[j] == d[j]);
        assert(is_ascii_digit(d[j]));
        lemma_digit_run_of_prefix(t, d, j + 1);
    }
}

/// A file name made of a run of digits that fits in a `u32`, `-`, a title
/// without line feeds, and `.md` reads back as that number and that title.
pub proof fn law_file_name_read_back(digits: Seq<char>, title: Seq<char>)
    requires
        parsed_u32(digits) is Some,
        no_line_feed(title),
    ensures
        file_name_parts(digits + seq!['-'] + title + markdown_extension()) == Some(
            (parsed_u32(digits)->0, title),
        ),
{
    let t = digits + seq!['-'] + title + markdown_extension();
    let k = digits.len() as int;
    assert(t.take(k) =~= digits);
    assert(t[k] == '-');
    lemma_digit_run_of_prefix(t, digits, 0);
    assert(t.subrange(0, k) =~= digits);
    assert(t.subrange(k + 1, t.len() - 3) =~= title);
    assert(t.subrange(t.len() - 3, t.len() as int) =~= markdown_extension());
}

/// A file name that reads as a number and a title is a run of digits that
/// spells the number, `-`, the title, and `.md`.
pub proof fn law_file_name_shape(name: Seq<char>)
    requires
        file_name_parts(name) is Some,
    ensures
        ({
            let k = ascii_digit_run_end(name, 0);
            let digits = name.subrange(0, k);
            let (number, title) = file_name_parts(name)->0;
            &&& name == digits + seq!['-'] + title + markdown_extension()
            &&& parsed_u32(digits) == Some(number)
        }),
{
    let k = ascii_digit_run_end(name, 0);
    let (number, title) = file_name_parts(name)->0;
    assert(name =~= name.subrange(0, k) + seq!['-'] + title + markdown_extension());
}

/// Reads the number and the short title from an RFC file name such as
/// `0256-remove-refcounting-gc-of-t.md`; fails with
/// `UnexpectedFileNameFormat` holding the name when it has another shape.
#[verifier::loop_isolation(false)]
pub fn parse_file_name(file_name: &str) -> (r: Result<(u32, String), Error>)
    ensures
        match r {
            Ok((number, title)) => file_name_parts(file_name@) == Some((number, title@)),
            Err(e) => {
                &&& file_name_parts(file_name@) is None
                &&& e matches Error::UnexpectedFileNameFormat(name) && name@ == file_name@
            },
        },
{
    let t = chars_of(file_name);
    let ghost tv = t@;
    let mut k: usize = 0;
    while k < t.len() && '0' <= t[k] && t[k] <= '9'
        invariant
            k <= t.len(),
            ascii_digit_run_end(tv, 0) == ascii_digit_run_end(tv, k as int),
            tv == t@,
        decreases t.len() - k,
    {
        k = k + 1;
    }
    let ext = ['.', 'm', 'd'];
    assert(ext@ =~= markdown_extension());
    if k == 0 || t.len() < 4 || k > t.len() - 4 || t[k] != '-' || !lit_at(&t, t.len() - 3, &ext) {
        return Err(Error::UnexpectedFileNameFormat(file_name.to_owned()));
    }
    let title_end = t.len() - 3;
    let mut j = k + 1;
    while j < title_end
        invariant
            k + 1 <= j <= title_end,
            title_end + 3 == t.len(),
            tv == t@,
            forall|m: int| k + 1 <= m < j ==> tv[m] != '\n',
        decreases title_end - j,
    {
        if t[j] == '\n' {
            assert(tv.subrange(k + 1, title_end as int)[j - (k + 1)] == '\n');
            return Err(Error::UnexpectedFileNameFormat(file_name.to_owned()));
        }
        j = j + 1;
    }
    assert(no_line_feed(tv.subrange(k + 1, title_end as int)));
    match parse_u32_digits(&t, 0, k) {
        Some(number) => {
            let title = file_name.substring_char(k + 1, title_end).to_owned();
            Ok((number, title))
        },
        None => Err(Error::UnexpectedFileNameFormat(file_name.to_owned())),
    }
}

} // verus!
