//! The day on which a subscription ends.

use vstd::arithmetic::power::{lemma_pow_increases, pow};
use vstd::prelude::*;

use crate::text::{all_digits, concat2, decimal, decimal_text, is_digit, is_white};
use crate::text::{decimal_denotes_the_number, digits_are_read_in_base_ten, digits_value};
use crate::text::{repeat, repeated, trim, trimmed, trimming_takes_off_white_space};

verus! {

/// The date that a string stands for in the form `%Y-%m-%d`: year, month and day.
pub uninterp spec fn calendar_date(s: Seq<char>) -> Option<(i32, u32, u32)>;

/// `chrono::NaiveDate::parse_from_str` with the form `%Y-%m-%d`. Month and day are those of
/// a calendar date, and a date written out in that form is read back.
#[verifier::external_body]
fn parse_date(s: &str) -> (r: Option<(i32, u32, u32)>)
    ensures
        r == calendar_date(s@),
        r matches Some((year, month, day)) ==> 1 <= month <= 12 && 1 <= day <= 31,
        r matches Some((year, month, day)) ==> calendar_date(
            date_text(year as int, month as int, day as int),
        ) == r,
{
    match chrono::NaiveDate::parse_from_str(s, "%Y-%m-%d") {
        Ok(date) => Some((
            chrono::Datelike::year(&date),
            chrono::Datelike::month(&date),
            chrono::Datelike::day(&date),
        )),
        Err(_) => None,
    }
}

/// A number with zeros before it up to `n` digits.
pub open spec fn padded(value: int, n: int) -> Seq<char> {
    let digits = decimal(value);
    if digits.len() < n {
        repeated('0', n - digits.len()) + digits
    } else {
        digits
    }
}

/// A year in at least four digits, with a sign where it has more or is negative.
pub open spec fn year_text(year: int) -> Seq<char> {
    if year < 0 {
        seq!['-'] + padded(-year, 4)
    } else if year > 9999 {
        seq!['+'] + padded(year, 4)
    } else {
        padded(year, 4)
    }
}

/// A date in the form `YYYY-MM-DD`.
pub open spec fn date_text(year: int, month: int, day: int) -> Seq<char> {
    year_text(year) + seq!['-'] + padded(month, 2) + seq!['-'] + padded(day, 2)
}

/// A number with zeros before it up to `n` digits.
fn pad_number(value: u64, n: usize) -> (r: String)
    ensures
        r@ == padded(value as int, n as int),
{
    let digits: String = decimal_text(value);
    let len: usize = digits.as_str().unicode_len();
    if len < n {
        concat2(repeat('0', n - len).as_str(), digits.as_str())
    } else {
        digits
    }
}

/// A date in the form `YYYY-MM-DD`.
fn format_date(year: i32, month: u32, day: u32) -> (r: String)
    ensures
        r@ == date_text(year as int, month as int, day as int),
{
    let mut r: String = repeat('-', 0);
    if year < 0 {
        r.push('-');
        r.append(pad_number((-(year as i64)) as u64, 4).as_str());
    } else if year > 9999 {
        r.push('+');
        r.append(pad_number(year as u64, 4).as_str());
    } else {
        r.append(pad_number(year as u64, 4).as_str());
    }
    assert(r@ == year_text(year as int));
    r.push('-');
    r.append(pad_number(month as u64, 2).as_str());
    r.push('-');
    r.append(pad_number(day as u64, 2).as_str());
    assert(r@ == date_text(year as int, month as int, day as int));
    r
}

/// What a note of the last day comes to: nothing for a blank one, else the date in the form
/// `YYYY-MM-DD`, or an error where it is no date.
pub open spec fn expiry(value: Seq<char>) -> Result<Option<Seq<char>>, ()> {
    let t = trimmed(value);
    if t.len() == 0 {
        Ok(None)
    } else {
        match calendar_date(t) {
            Some((year, month, day)) => Ok(
                Some(date_text(year as int, month as int, day as int)),
            ),
            None => Err(()),
        }
    }
}

/// Every character of a number is a digit.
proof fn lemma_decimal_digits(n: int)
    requires
        0 <= n,
    ensures
        decimal(n).len() > 0,
        all_digits(decimal(n)),
    decreases n,
{
    if n >= 10 {
        lemma_decimal_digits(n / 10);
    }
}

/// Every character of a padded number is a digit.
proof fn lemma_padded_digits(value: int, n: int)
    requires
        0 <= value,
    ensures
        padded(value, n).len() > 0,
        all_digits(padded(value, n)),
{
    lemma_decimal_digits(value);
}

/// A date has no white space at either end.
proof fn lemma_date_is_trimmed(year: int, month: int, day: int)
    requires
        0 <= month,
        0 <= day,
    ensures
        trimmed(date_text(year, month, day)) == date_text(year, month, day),
        date_text(year, month, day).len() > 0,
{
    lemma_padded_digits(
        if year < 0 {
            -year
        } else {
            year
        },
        4,
    );
    lemma_padded_digits(day, 2);
    let t = date_text(year, month, day);
    let y = year_text(year);
    let d = padded(day, 2);
    assert(y.len() > 0);
    assert(t[0] == y[0]);
    assert(t.last() == d.last());
    assert(is_digit(d[d.len() - 1]));
    if 0 <= year <= 9999 {
        assert(is_digit(padded(year, 4)[0]));
    }
    assert(!is_white(t[0]));
    assert(!is_white(t.last()));
}

/// The note that a date comes to, where there is one.
pub fn expiry_of(date: Option<(i32, u32, u32)>) -> (r: Result<Option<String>, ()>)
    ensures
        match date {
            Some((year, month, day)) => r matches Ok(Some(text)) && text@ == date_text(
                year as int,
                month as int,
                day as int,
            ),
            None => r is Err,
        },
{
    match date {
        Some((year, month, day)) => Ok(Some(format_date(year, month, day))),
        None => Err(()),
    }
}

/// The note of the last day in the form `YYYY-MM-DD`. A blank note clears it; one that is no
/// date is refused. A note in that form stays as it is.
pub fn normalize_subscription_expiry(value: &str) -> (r: Result<Option<String>, ()>)
    ensures
        match r {
            Ok(Some(date)) => expiry(value@) == Ok::<Option<Seq<char>>, ()>(Some(date@)),
            Ok(None) => expiry(value@) == Ok::<Option<Seq<char>>, ()>(None),
            Err(_) => expiry(value@) is Err,
        },
        r matches Ok(Some(date)) ==> expiry(date@) == Ok::<Option<Seq<char>>, ()>(Some(date@)),
{
    let t: String = trim(value);
    if t.as_str().is_empty() {
        return Ok(None);
    }
    let date: Option<(i32, u32, u32)> = parse_date(t.as_str());
    proof {
        if let Some((year, month, day)) = date {
            lemma_date_is_trimmed(year as int, month as int, day as int);
        }
    }
    expiry_of(date)
}

/// A number with zeros before it denotes the same number, in at least as many digits as asked
/// for, and in no more where it needs no more.
pub proof fn padded_number_denotes_the_number(value: int, n: int)
    requires
        0 <= value,
        0 <= n,
    ensures
        all_digits(padded(value, n)),
        digits_value(padded(value, n)) == value,
        padded(value, n).len() >= n,
        value < pow(10, n as nat) && n >= 1 ==> padded(value, n).len() == n,
{
    decimal_denotes_the_number(value);
    lemma_padded_digits(value, n);
    let digits = decimal(value);
    if digits.len() < n {
        lemma_zeros_before(n - digits.len(), digits);
    }
    if value < pow(10, n as nat) && n >= 1 && digits.len() > n {
        lemma_pow_increases(10, n as nat, (digits.len() - 1) as nat);
    }
}

proof fn lemma_zeros_before(k: int, s: Seq<char>)
    requires
        0 <= k,
    ensures
        digits_value(repeated('0', k) + s) == digits_value(s),
    decreases k,
{
    if k > 0 {
        let t = repeated('0', k - 1) + s;
        assert(repeated('0', k) + s =~= seq!['0'] + t);
        digits_are_read_in_base_ten('0', t);
        assert(0 * pow(10, t.len()) == 0) by (nonlinear_arith);
        lemma_zeros_before(k - 1, s);
    } else {
        assert(repeated('0', 0) + s =~= s);
    }
}

/// A date of the first ten thousand years is written in ten characters: the year in four digits,
/// the month in two and the day in two, with hyphens between them.
pub proof fn dates_are_written_year_first(year: int, month: int, day: int)
    requires
        0 <= year <= 9999,
        1 <= month <= 12,
        1 <= day <= 31,
    ensures
        ({
            let s = date_text(year, month, day);
            &&& s.len() == 10
            &&& s[4] == '-' && s[7] == '-'
            &&& all_digits(s.subrange(0, 4)) && digits_value(s.subrange(0, 4)) == year
            &&& all_digits(s.subrange(5, 7)) && digits_value(s.subrange(5, 7)) == month
            &&& all_digits(s.subrange(8, 10)) && digits_value(s.subrange(8, 10)) == day
        }),
{
    reveal_with_fuel(pow, 6);
    padded_number_denotes_the_number(year, 4);
    padded_number_denotes_the_number(month, 2);
    padded_number_denotes_the_number(day, 2);
    let s = date_text(year, month, day);
    assert(s.subrange(0, 4) =~= padded(year, 4));
    assert(s.subrange(5, 7) =~= padded(month, 2));
    assert(s.subrange(8, 10) =~= padded(day, 2));
}

/// A year before the first one has a minus sign, one after 9999 a plus sign.
pub proof fn far_years_have_a_sign(year: int)
    ensures
        year < 0 ==> year_text(year)[0] == '-' && digits_value(year_text(year).drop_first())
            == -year,
        year > 9999 ==> year_text(year)[0] == '+' && digits_value(year_text(year).drop_first())
            == year,
{
    if year < 0 {
        padded_number_denotes_the_number(-year, 4);
        assert((seq!['-'] + padded(-year, 4)).drop_first() =~= padded(-year, 4));
    }
    if year > 9999 {
        padded_number_denotes_the_number(year, 4);
        assert((seq!['+'] + padded(year, 4)).drop_first() =~= padded(year, 4));
    }
}

/// A blank note clears the last day, white space around a note does not matter, a note that is
/// no date is refused, and any other is kept as its date.
pub proof fn notes_come_to_dates(value: Seq<char>)
    ensures
        (forall|i: int| 0 <= i < value.len() ==> is_white(#[trigger] value[i])) ==> expiry(value)
            == Ok::<Option<Seq<char>>, ()>(None),
        (exists|i: int| 0 <= i < value.len() && !is_white(#[trigger] value[i])) ==> (expiry(
            value,
        ) is Err <==> calendar_date(trimmed(value)) is None),
        (exists|i: int| 0 <= i < value.len() && !is_white(#[trigger] value[i])) ==> (calendar_date(
            trimmed(value),
        ) matches Some((y, m, d)) ==> expiry(value) == Ok::<Option<Seq<char>>, ()>(
            Some(date_text(y as int, m as int, d as int)),
        )),
{
    trimming_takes_off_white_space(value);
}

} // verus!
