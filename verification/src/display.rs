//! How an RFC is shown: the colours of its heading and of its tracking
//! issues, and the text of both.

use vstd::prelude::*;
use crate::github::{IssueModel, State};
use crate::rfc::Rfc;
use crate::text::{decimal_value, all_ascii_digits, is_ascii_digit, digit_value};

verus! {

/// A terminal colour.
#[derive(Debug, PartialEq, Eq, Structural, Copy, Clone)]
pub enum Color {
    Blue,
    Green,
    Red,
    Magenta,
}

/// The colour of an issue in a given state: open is green, closed red,
/// merged magenta.
pub open spec fn state_color(state: State) -> Color {
    match state {
        State::Open => Color::Green,
        State::Closed => Color::Red,
        State::Merged => Color::Magenta,
    }
}

/// Open issues are shown green, closed ones red, merged ones magenta.
pub proof fn law_state_colors()
    ensures
        state_color(State::Open) == Color::Green,
        state_color(State::Closed) == Color::Red,
        state_color(State::Merged) == Color::Magenta,
{
}

/// The colour of an issue in the given state.
pub fn state_to_color(state: State) -> (r: Color)
    ensures
        r == state_color(state),
{
    match state {
        State::Open => Color::Green,
        State::Closed => Color::Red,
        State::Merged => Color::Magenta,
    }
}

/// The colour of an RFC's heading: blue when no issue tracks it, green
/// when one of its tracking issues is open, red otherwise.
pub open spec fn heading_color_of(issues: Seq<IssueModel>) -> Color {
    if issues.len() == 0 {
        Color::Blue
    } else if exists|i: int| 0 <= i < issues.len() && #[trigger] issues[i].state == State::Open {
        Color::Green
    } else {
        Color::Red
    }
}

/// The colour of the heading of `rfc`.
pub fn heading_color(rfc: &Rfc) -> (r: Color)
    ensures
        r == heading_color_of(rfc@.2),
{
    let n = rfc.issues.len();
    if n == 0 {
        return Color::Blue;
    }
    let mut i: usize = 0;
    while i < n
        invariant
            n == rfc.issues@.len() == rfc@.2.len(),
            i <= n,
            forall|j: int| 0 <= j < i ==> #[trigger] rfc@.2[j].state != State::Open,
        decreases n - i,
    {
        assert(rfc@.2[i as int] == rfc.issues@[i as int]@);
        if rfc.issues[i].state() == State::Open {
            assert(rfc@.2[i as int].state == State::Open);
            return Color::Green;
        }
        i = i + 1;
    }
    Color::Red
}

/// The decimal digit character of `d`, which is below ten.
pub open spec fn digit_char(d: nat) -> char {
    ('0' as int + d) as char
}

/// The decimal representation of `n`, without leading zeros (`0` for zero).
pub open spec fn decimal_digits(n: nat) -> Seq<char>
    decreases n,
{
    if n < 10 {
        seq![digit_char(n)]
    } else {
        decimal_digits(n / 10).push(digit_char(n % 10))
    }
}

/// `count` copies of `c`.
pub open spec fn repeat_char(c: char, count: int) -> Seq<char> {
    Seq::new(if count > 0 { count as nat } else { 0 }, |_i: int| c)
}

/// `n` in decimal, with zeros in front up to `width` characters (`{:0width}`).
pub open spec fn zero_padded(n: nat, width: int) -> Seq<char> {
    repeat_char('0', width - decimal_digits(n).len()) + decimal_digits(n)
}

/// `s` with spaces after it up to `width` characters (`{:<width}`).
pub open spec fn left_aligned(s: Seq<char>, width: int) -> Seq<char> {
    s + repeat_char(' ', width - s.len())
}

/// The heading of an RFC: `#`, its number padded to four digits, a space,
/// and its short title padded to thirty characters (`#{:04} {:<30}`).
pub open spec fn heading_chars(number: u32, title: Seq<char>) -> Seq<char> {
    seq!['#'] + zero_padded(number as nat, 4) + seq![' '] + left_aligned(title, 30)
}

/// How a tracking issue is shown: `#` and its number padded to four digits
/// (`#{:04}`).
pub open spec fn ticket_chars(number: u32) -> Seq<char> {
    seq!['#'] + zero_padded(number as nat, 4)
}

/// Reading back the digits of `n` gives `n`.
pub proof fn lemma_decimal_digits_read_back(n: nat)
    ensures
        all_ascii_digits(decimal_digits(n)),
        decimal_value(decimal_digits(n)) == n,
        decimal_digits(n).len() > 0,
    decreases n,
{
    if n < 10 {
        assert(is_ascii_digit(digit_char(n)));
        assert(digit_value(digit_char(n)) == n);
        assert(decimal_digits(n).drop_last() =~= Seq::<char>::empty());
        assert(decimal_value(decimal_digits(n)) == decimal_value(Seq::<char>::empty()) * 10
            + digit_value(digit_char(n)));
    } else {
        lemma_decimal_digits_read_back(n / 10);
        let d = decimal_digits(n);
        assert(d.drop_last() =~= decimal_digits(n / 10));
        assert(is_ascii_digit(digit_char((n % 10) as nat)));
        assert(digit_value(digit_char((n % 10) as nat)) == n % 10);
        assert forall|i: int| 0 <= i < d.len() implies #[trigger] is_ascii_digit(d[i]) by {
            if i < d.len() - 1 {
                assert(d[i] == decimal_digits(n / 10)[i]);
            }
        }
        assert(decimal_value(d) == decimal_value(d.drop_last()) * 10 + digit_value(d.last()));
        assert((n / 10) * 10 + n % 10 == n) by (nonlinear_arith);
    }
}

/// Zeros in front of digits do not change the number they spell.
proof fn lemma_leading_zeros(m: int, s: Seq<char>)
    requires
        all_ascii_digits(s),
    ensures
        all_ascii_digits(repeat_char('0', m) + s),
        decimal_value(repeat_char('0', m) + s) == decimal_value(s),
    decreases s.len() + (if m > 0 { m } else { 0 }),
{
    let z = repeat_char('0', m);
    assert forall|i: int| 0 <= i < (z + s).len() implies #[trigger] is_ascii_digit((z + s)[i]) by {
        if i >= z.len() {
            assert((z + s)[i] == s[i - z.len()]);
        }
    }
    if s.len() > 0 {
        assert((z + s).drop_last() =~= z + s.drop_last());
        assert(all_ascii_digits(s.drop_last())) by {
            assert forall|i: int| 0 <= i < s.drop_last().len() implies #[trigger] is_ascii_digit(
                s.drop_last()[i],
            ) by {
                assert(is_ascii_digit(s[i]));
            }
        }
        lemma_leading_zeros(m, s.drop_last());
    } else if m > 0 {
        assert((z + s).drop_last() =~= repeat_char('0', m - 1) + s);
        lemma_leading_zeros(m - 1, s);
        assert(digit_value('0') == 0);
    } else {
        assert(z + s =~= s);
    }
}

/// The digits of a positive number do not start with a zero.
proof fn lemma_decimal_digits_first(n: nat)
    requires
        n > 0,
    ensures
        decimal_digits(n)[0] != '0',
    decreases n,
{
    if n >= 10 {
        lemma_decimal_digits_first(n / 10);
        lemma_decimal_digits_read_back(n / 10);
        assert(decimal_digits(n)[0] == decimal_digits(n / 10)[0]);
    }
}

/// Ten to the power `k`.
pub open spec fn ten_pow(k: nat) -> nat
    decreases k,
{
    if k == 0 {
        1
    } else {
        10 * ten_pow((k - 1) as nat)
    }
}

/// A number below ten to the `k` has at most `k` digits.
proof fn lemma_decimal_digits_len_le(n: nat, k: nat)
    requires
        k >= 1,
        n < ten_pow(k),
    ensures
        decimal_digits(n).len() <= k,
    decreases n,
{
    if n >= 10 {
        if k == 1 {
            assert(ten_pow(1) == 10 * ten_pow(0));
        }
        let p = ten_pow((k - 1) as nat);
        assert(n / 10 < p) by (nonlinear_arith)
            requires
                n < 10 * p,
        ;
        lemma_decimal_digits_len_le(n / 10, (k - 1) as nat);
    }
}

/// A number at or above ten to the `k` has more than `k` digits.
proof fn lemma_decimal_digits_len_gt(n: nat, k: nat)
    requires
        n >= ten_pow(k),
    ensures
        decimal_digits(n).len() > k,
    decreases k,
{
    if k > 0 {
        let p = ten_pow((k - 1) as nat);
        assert(p >= 1) by {
            lemma_ten_pow_positive((k - 1) as nat);
        }
        assert(n / 10 >= p && n >= 10) by (nonlinear_arith)
            requires
                n >= 10 * p,
                p >= 1,
        ;
        lemma_decimal_digits_len_gt(n / 10, (k - 1) as nat);
    }
}

/// Powers of ten are positive.
proof fn lemma_ten_pow_positive(k: nat)
    ensures
        ten_pow(k) >= 1,
    decreases k,
{
    if k > 0 {
        lemma_ten_pow_positive((k - 1) as nat);
    }
}

/// A number below ten thousand has at most four digits; one at or above it
/// has more.
proof fn lemma_decimal_digits_len(n: nat)
    ensures
        n < 10000 ==> decimal_digits(n).len() <= 4,
        n >= 10000 ==> decimal_digits(n).len() > 4,
{
    assert(ten_pow(0) == 1);
    assert(ten_pow(1) == 10);
    assert(ten_pow(2) == 100);
    assert(ten_pow(3) == 1000);
    assert(ten_pow(4) == 10000);
    if n < 10000 {
        lemma_decimal_digits_len_le(n, 4);
    } else {
        lemma_decimal_digits_len_gt(n, 4);
    }
}

/// How a tracking issue is shown: `#`, then digits that spell its number,
/// exactly four of them when the number is below ten thousand (zeros in
/// front), and otherwise as many as the number needs, without a leading
/// zero.
pub proof fn law_ticket_shows_number(number: u32)
    ensures
        ({
            let t = ticket_chars(number);
            let d = t.drop_first();
            &&& t.len() >= 5
            &&& t[0] == '#'
            &&& all_ascii_digits(d)
            &&& decimal_value(d) == number
            &&& number < 10000 ==> d.len() == 4
            &&& number >= 10000 ==> d[0] != '0'
        }),
{
    let n = number as nat;
    let dd = decimal_digits(n);
    lemma_decimal_digits_read_back(n);
    lemma_decimal_digits_len(n);
    lemma_leading_zeros(4 - dd.len(), dd);
    let t = ticket_chars(number);
    assert(t.drop_first() =~= zero_padded(n, 4));
    if number >= 10000 {
        lemma_decimal_digits_first(n);
        assert(zero_padded(n, 4) =~= dd);
    }
}

/// The heading of an RFC: `#`, then digits that spell its number (exactly
/// four when the number is below ten thousand, otherwise without a leading
/// zero), a space, the short title, and spaces after it up to thirty
/// characters.
pub proof fn law_heading_shows_number_and_title(number: u32, title: Seq<char>)
    ensures
        ({
            let h = heading_chars(number, title);
            let padded: int = if title.len() < 30 { 30 } else { title.len() as int };
            let w: int = h.len() - 2 - padded;
            let d = h.subrange(1, 1 + w);
            &&& w >= 4
            &&& h[0] == '#'
            &&& all_ascii_digits(d)
            &&& decimal_value(d) == number
            &&& number < 10000 ==> w == 4
            &&& number >= 10000 ==> d[0] != '0'
            &&& h[1 + w] == ' '
            &&& h.subrange(2 + w, 2 + w + title.len()) == title
            &&& forall|m: int| 2 + w + title.len() <= m < h.len() ==> h[m] == ' '
        }),
{
    law_ticket_shows_number(number);
    let h = heading_chars(number, title);
    let z = zero_padded(number as nat, 4);
    assert(ticket_chars(number).drop_first() =~= z);
    let padded: int = if title.len() < 30 { 30 } else { title.len() as int };
    assert(left_aligned(title, 30).len() == padded);
    let w = z.len() as int;
    assert(h.subrange(1, 1 + w) =~= z);
    assert(h.subrange(2 + w, 2 + w + title.len()) =~= title);
    assert forall|m: int| 2 + w + title.len() <= m < h.len() implies h[m] == ' ' by {
        assert(h[m] == left_aligned(title, 30)[m - 2 - w]);
    }
}

/// The colour of an RFC's heading: blue when no issue tracks it, green
/// exactly when at least one of its tracking issues, wherever it stands, is
/// open, and red otherwise.
pub proof fn law_heading_color(issues: Seq<IssueModel>)
    ensures
        issues.len() == 0 ==> heading_color_of(issues) == Color::Blue,
        forall|i: int|
            0 <= i < issues.len() && #[trigger] issues[i].state == State::Open
                ==> heading_color_of(issues) == Color::Green,
        issues.len() > 0 && (forall|i: int| 0 <= i < issues.len() ==> #[trigger] issues[i].state
            != State::Open) ==> heading_color_of(issues) == Color::Red,
{
}

/// The order of an RFC's tracking issues does not change the colour of its
/// heading.
pub proof fn law_heading_color_ignores_order(a: Seq<IssueModel>, b: Seq<IssueModel>)
    ensures
        heading_color_of(a + b) == heading_color_of(b + a),
{
    let ab = a + b;
    let ba = b + a;
    law_heading_color(ab);
    law_heading_color(ba);
    if exists|i: int| 0 <= i < ab.len() && #[trigger] ab[i].state == State::Open {
        let i = choose|i: int| 0 <= i < ab.len() && #[trigger] ab[i].state == State::Open;
        if i < a.len() {
            assert(ba[b.len() + i] == ab[i]);
        } else {
            assert(ba[i - a.len()] == ab[i]);
        }
    } else if exists|i: int| 0 <= i < ba.len() && #[trigger] ba[i].state == State::Open {
        let i = choose|i: int| 0 <= i < ba.len() && #[trigger] ba[i].state == State::Open;
        if i < b.len() {
            assert(ab[a.len() + i] == ba[i]);
        } else {
            assert(ab[i - b.len()] == ba[i]);
        }
    }
}

/// Appends the decimal digits of `n` to `out`.
fn push_decimal(out: &mut Vec<char>, n: u32)
    ensures
        final(out)@ == old(out)@ + decimal_digits(n as nat),
    decreases n,
{
    if n < 10 {
        out.push(((n as u8) + 48) as char);
        assert(((n as u8) + 48) as char == digit_char(n as nat));
    } else {
        push_decimal(out, n / 10);
        out.push((((n % 10) as u8) + 48) as char);
        assert((((n % 10) as u8) + 48) as char == digit_char((n % 10) as nat));
        assert(decimal_digits(n as nat) == decimal_digits((n / 10) as nat).push(
            digit_char((n % 10) as nat),
        ));
    }
}

/// Appends `count` copies of `c` to `out`.
fn push_repeated(out: &mut Vec<char>, c: char, count: usize)
    ensures
        final(out)@ == old(out)@ + repeat_char(c, count as int),
{
    let ghost start = out@;
    let mut k: usize = 0;
    while k < count
        invariant
            k <= count,
            out@ == start + repeat_char(c, k as int),
        decreases count - k,
    {
        out.push(c);
        assert(repeat_char(c, k + 1) =~= repeat_char(c, k as int).push(c));
        k = k + 1;
    }
}

/// Appends `n` padded with zeros to four digits.
fn push_zero_padded4(out: &mut Vec<char>, n: u32)
    ensures
        final(out)@ == old(out)@ + zero_padded(n as nat, 4),
{
    let mut digits: Vec<char> = Vec::new();
    push_decimal(&mut digits, n);
    assert(digits@ =~= decimal_digits(n as nat));
    let ghost start = out@;
    if digits.len() < 4 {
        push_repeated(out, '0', 4 - digits.len());
    } else {
        push_repeated(out, '0', 0);
    }
    let mut k: usize = 0;
    let ghost mid = out@;
    assert(mid == start + repeat_char('0', 4 - decimal_digits(n as nat).len()));
    while k < digits.len()
        invariant
            k <= digits.len(),
            out@ == mid + digits@.take(k as int),
        decreases digits.len() - k,
    {
        out.push(digits[k]);
        assert(digits@.take(k + 1) =~= digits@.take(k as int).push(digits@[k as int]));
        k = k + 1;
    }
    assert(digits@.take(digits.len() as int) =~= digits@);
    assert(out@ =~= start + zero_padded(n as nat, 4));
}

/// Makes a `String` of the characters `chars` (`String::from_iter`).
#[verifier::external_body]
fn string_from_chars(chars: &Vec<char>) -> (r: String)
    ensures
        r@ == chars@,
{
    chars.iter().collect()
}

/// The heading of an RFC (`#{:04} {:<30}` of its number and short title).
pub fn heading_text(number: u32, short_title: &str) -> (r: String)
    ensures
        r@ == heading_chars(number, short_title@),
{
    let title = crate::text::chars_of(short_title);
    let mut out: Vec<char> = Vec::new();
    out.push('#');
    push_zero_padded4(&mut out, number);
    out.push(' ');
    let ghost before_title = out@;
    let mut k: usize = 0;
    while k < title.len()
        invariant
            k <= title.len(),
            out@ == before_title + title@.take(k as int),
        decreases title.len() - k,
    {
        out.push(title[k]);
        assert(title@.take(k + 1) =~= title@.take(k as int).push(title@[k as int]));
        k = k + 1;
    }
    assert(title@.take(title.len() as int) =~= title@);
    if title.len() < 30 {
        push_repeated(&mut out, ' ', 30 - title.len());
    } else {
        push_repeated(&mut out, ' ', 0);
    }
    assert(out@ =~= heading_chars(number, short_title@));
    string_from_chars(&out)
}

/// How a tracking issue is shown (`#{:04}` of its number).
pub fn ticket_text(number: u32) -> (r: String)
    ensures
        r@ == ticket_chars(number),
{
    let mut out: Vec<char> = Vec::new();
    out.push('#');
    push_zero_padded4(&mut out, number);
    assert(out@ =~= ticket_chars(number));
    string_from_chars(&out)
}

} // verus!
