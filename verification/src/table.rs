//! The account table of the command line.
//!
//! Columns are aligned by display width, so that names in Chinese or with emoji do not move
//! the borders.

use unicode_width::UnicodeWidthChar;
use vstd::prelude::*;
use vstd::utf8::encode_utf8;

use crate::quota::{clamped, find_window, seconds_until, whole_seconds, window_quota};
use crate::quota::{Quota, QuotaWindow, Stamp};
use crate::recommend::{all_seven_day_exhausted, known_quotas, seven_day_exhausted};
use crate::recommend::{seven_day_gone, shown_name, QuotaOutcome, Row};
use crate::text::{chars_of, concat2, concat3, decimal, decimal_text, repeat, repeated, text_of};
use crate::text::texts;

verus! {

/// Where the content of a cell stands.
#[derive(Debug, Clone, Copy, PartialEq, Eq, Structural)]
pub enum Align {
    Left,
    Center,
    Right,
}

/// The columns that a character takes by its East Asian width; nothing for a control
/// character.
pub uninterp spec fn unicode_columns(c: char) -> Option<usize>;

/// `UnicodeWidthChar::width`. Printable ASCII characters and the ellipsis take one column.
/// No character takes more than three, and none below U+0800 more than two.
#[verifier::external_body]
fn unicode_width_of(c: char) -> (r: Option<usize>)
    ensures
        r == unicode_columns(c),
        ' ' <= c <= '~' ==> r == Some(1usize),
        c == '…' ==> r == Some(1usize),
        r matches Some(n) ==> n <= 3,
        r matches Some(n) ==> c as u32 >= 0x800 || n <= 2,
        r matches Some(n) ==> c as u32 >= 0x80 || n <= 1,
{
    c.width()
}

/// Whether the character belongs to a script that terminals show two columns wide although
/// its nominal width is one.
pub open spec fn decorative(c: char) -> bool {
    let u = c as u32;
    ||| 0x1950 <= u <= 0x197F
    ||| 0x1980 <= u <= 0x19DF
    ||| 0x1A20 <= u <= 0x1AAF
    ||| 0x1B00 <= u <= 0x1B7F
    ||| 0xAA00 <= u <= 0xAA5F
}

/// Whether the character belongs to Tai Le, New Tai Lue, Tai Tham, Balinese or Cham, which
/// terminals show two columns wide.
pub fn is_decorative_wide_script(c: char) -> (r: bool)
    ensures
        r == decorative(c),
{
    let u: u32 = c as u32;
    (0x1950 <= u && u <= 0x197F) || (0x1980 <= u && u <= 0x19DF) || (0x1A20 <= u && u <= 0x1AAF)
        || (0x1B00 <= u && u <= 0x1B7F) || (0xAA00 <= u && u <= 0xAA5F)
}

/// The columns that a character takes in the table. A control character takes one.
pub open spec fn char_columns(c: char) -> int {
    if ' ' <= c <= '~' || c == '…' {
        1
    } else {
        match unicode_columns(c) {
            Some(n) => if n == 1 && decorative(c) {
                2
            } else {
                n as int
            },
            None => if decorative(c) {
                2
            } else {
                1
            },
        }
    }
}

/// The columns that a string takes in the table.
pub open spec fn columns(s: Seq<char>) -> int
    decreases s.len(),
{
    if s.len() == 0 {
        0
    } else {
        char_columns(s[0]) + columns(s.drop_first())
    }
}

/// The columns that a character takes in the table.
pub fn char_width(c: char) -> (r: usize)
    ensures
        r == char_columns(c),
        r <= 3,
        r <= encode_utf8(seq![c]).len(),
{
    let base: usize = match unicode_width_of(c) {
        Some(n) => n,
        None => 1,
    };
    proof {
        lemma_encoded_length(c);
    }
    if base == 1 && is_decorative_wide_script(c) {
        2
    } else {
        base
    }
}

/// How many bytes one character takes in UTF-8.
proof fn lemma_encoded_length(c: char)
    ensures
        c as u32 >= 0x800 ==> encode_utf8(seq![c]).len() >= 3,
        c as u32 >= 0x80 ==> encode_utf8(seq![c]).len() >= 2,
        encode_utf8(seq![c]).len() >= 1,
{
    vstd::utf8::char_is_scalar(c);
    reveal_with_fuel(encode_utf8, 2);
    assert(seq![c].drop_first().len() == 0);
    assert(seq![c][0] == c);
}

/// The encoding of a string without its first character is shorter.
proof fn lemma_encoded_rest(s: Seq<char>)
    requires
        s.len() > 0,
    ensures
        encode_utf8(s).len() == encode_utf8(seq![s[0]]).len() + encode_utf8(s.drop_first()).len(),
{
    reveal_with_fuel(encode_utf8, 2);
    assert(seq![s[0]].drop_first().len() == 0);
    assert(seq![s[0]][0] == s[0]);
}

/// The encoding of a string without its first `i` characters is no longer.
proof fn lemma_encoded_skip(s: Seq<char>, i: int)
    requires
        0 <= i <= s.len(),
    ensures
        encode_utf8(s.skip(i)).len() <= encode_utf8(s).len(),
    decreases i,
{
    if i > 0 {
        lemma_encoded_skip(s, i - 1);
        lemma_encoded_rest(s.skip(i - 1));
        assert(s.skip(i - 1).drop_first() == s.skip(i));
    } else {
        assert(s.skip(0) == s);
    }
}

/// The columns that a string takes in the table.
pub fn str_width(s: &str) -> (r: usize)
    ensures
        r == columns(s@),
{
    let v: Vec<char> = chars_of(s);
    let bytes: usize = s.as_bytes().len();
    let mut w: usize = 0;
    let mut i: usize = v.len();
    assert(s@.skip(i as int).len() == 0);
    while i > 0
        invariant
            i <= v@.len(),
            v@ == s@,
            bytes == encode_utf8(s@).len(),
            w == columns(s@.skip(i as int)),
            w <= encode_utf8(s@.skip(i as int)).len(),
        decreases i,
    {
        i = i - 1;
        proof {
            let rest = s@.skip(i as int);
            lemma_encoded_rest(rest);
            lemma_encoded_skip(s@, i as int);
            assert(rest.drop_first() == s@.skip(i + 1));
            assert(rest[0] == s@[i as int]);
        }
        w = w + char_width(v[i]);
    }
    assert(s@.skip(0) == s@);
    w
}

/// The columns of two strings in a row.
proof fn lemma_columns_concat(a: Seq<char>, b: Seq<char>)
    ensures
        columns(a + b) == columns(a) + columns(b),
    decreases a.len(),
{
    if a.len() == 0 {
        assert(a + b == b);
    } else {
        lemma_columns_concat(a.drop_first(), b);
        assert((a + b).drop_first() == a.drop_first() + b);
        assert((a + b)[0] == a[0]);
    }
}

/// The columns of a run of a printable ASCII character.
proof fn lemma_columns_repeated(c: char, n: int)
    requires
        ' ' <= c <= '~',
        0 <= n,
    ensures
        columns(repeated(c, n)) == n,
    decreases n,
{
    if n > 0 {
        lemma_columns_repeated(c, n - 1);
        assert(repeated(c, n).drop_first() == repeated(c, n - 1));
        assert(repeated(c, n)[0] == c);
    }
}

/// How many characters of the string fit into `width` columns.
pub open spec fn fitting(s: Seq<char>, width: int) -> int
    decreases s.len(),
{
    if s.len() == 0 || char_columns(s[0]) > width {
        0
    } else {
        1 + fitting(s.drop_first(), width - char_columns(s[0]))
    }
}

/// The string, cut where it takes more than `width` columns. A cut string ends in an
/// ellipsis, which is part of the width; no column leaves no room for it.
pub open spec fn shortened(s: Seq<char>, width: int) -> Seq<char> {
    if columns(s) <= width {
        s
    } else if width >= 1 {
        s.take(fitting(s, width - 1)).push('…')
    } else {
        s.take(fitting(s, width))
    }
}

/// The string, cut or padded to `width` columns.
pub open spec fn fitted(s: Seq<char>, width: int, align: Align) -> Seq<char> {
    let body = shortened(s, width);
    let pad = width - columns(body);
    match align {
        Align::Left => body + repeated(' ', pad),
        Align::Center => repeated(' ', pad / 2) + body + repeated(' ', pad - pad / 2),
        Align::Right => repeated(' ', pad) + body,
    }
}

/// What fits takes no more than `width` columns, and the next character does not fit.
proof fn lemma_fitting(s: Seq<char>, width: int)
    requires
        0 <= width,
    ensures
        0 <= fitting(s, width) <= s.len(),
        columns(s.take(fitting(s, width))) <= width,
        fitting(s, width) < s.len() ==> columns(s.take(fitting(s, width))) + char_columns(
            s[fitting(s, width)],
        ) > width,
    decreases s.len(),
{
    let k = fitting(s, width);
    if s.len() == 0 || char_columns(s[0]) > width {
        assert(s.take(0).len() == 0);
    } else {
        let rest = s.drop_first();
        let left = width - char_columns(s[0]);
        lemma_fitting(rest, left);
        assert(s.take(k).drop_first() == rest.take(k - 1));
        assert(s.take(k)[0] == s[0]);
        if k < s.len() {
            assert(rest[k - 1] == s[k]);
        }
    }
}

/// A cut or padded string takes exactly the columns asked for.
pub proof fn fitted_has_width(s: Seq<char>, width: int, align: Align)
    requires
        0 <= width,
    ensures
        columns(shortened(s, width)) <= width,
        columns(fitted(s, width, align)) == width,
{
    let body = shortened(s, width);
    if columns(s) > width {
        lemma_fitting(s, width);
        if width >= 1 {
            lemma_fitting(s, width - 1);
            lemma_columns_push_ellipsis(s.take(fitting(s, width - 1)));
        }
    }
    let pad = width - columns(body);
    lemma_columns_repeated(' ', pad);
    lemma_columns_repeated(' ', pad / 2);
    lemma_columns_repeated(' ', pad - pad / 2);
    lemma_columns_concat(body, repeated(' ', pad));
    lemma_columns_concat(repeated(' ', pad), body);
    lemma_columns_concat(repeated(' ', pad / 2), body);
    lemma_columns_concat(repeated(' ', pad / 2) + body, repeated(' ', pad - pad / 2));
}

/// An ellipsis takes one column.
proof fn lemma_columns_push_ellipsis(head: Seq<char>)
    ensures
        columns(head.push('…')) == columns(head) + 1,
{
    lemma_columns_concat(head, seq!['…']);
    assert(head.push('…') == head + seq!['…']);
    reveal_with_fuel(columns, 2);
    assert(seq!['…'].drop_first().len() == 0);
    assert(seq!['…'][0] == '…');
}

/// A string that fits is not cut; any other is cut to a beginning of it, as long as fits, and
/// ends in an ellipsis.
pub proof fn only_a_cut_string_has_an_ellipsis(s: Seq<char>, width: int)
    requires
        1 <= width,
    ensures
        columns(s) <= width ==> shortened(s, width) == s,
        columns(s) > width ==> {
            let k = shortened(s, width).len() - 1;
            &&& shortened(s, width) == s.take(k).push('…')
            &&& 0 <= k < s.len()
            &&& columns(s.take(k)) < width
            &&& columns(s.take(k)) + char_columns(s[k]) >= width
        },
{
    if columns(s) > width {
        lemma_fitting(s, width - 1);
        if fitting(s, width - 1) == s.len() {
            assert(s.take(s.len() as int) == s);
        }
    }
}

proof fn lemma_all_fit(s: Seq<char>, width: int)
    requires
        columns(s) <= width,
    ensures
        fitting(s, width) == s.len(),
    decreases s.len(),
{
    if s.len() > 0 {
        lemma_columns_nonnegative(s.drop_first());
        lemma_all_fit(s.drop_first(), width - char_columns(s[0]));
    }
}

proof fn lemma_columns_nonnegative(s: Seq<char>)
    ensures
        columns(s) >= 0,
    decreases s.len(),
{
    if s.len() > 0 {
        lemma_columns_nonnegative(s.drop_first());
    }
}

/// How many characters fit into `width` columns, and the columns they take.
fn fitting_chars(v: &Vec<char>, width: usize) -> (r: (usize, usize))
    ensures
        r.0 == fitting(v@, width as int),
        r.0 <= v@.len(),
        r.1 == columns(v@.take(r.0 as int)),
        r.1 <= width,
{
    let mut w: usize = 0;
    let mut k: usize = 0;
    assert(v@.take(0).len() == 0);
    assert(v@.skip(0) == v@);
    while k < v.len()
        invariant_except_break
            fitting(v@, width as int) == k + fitting(v@.skip(k as int), width - w),
        invariant
            k <= v@.len(),
            w <= width,
            w == columns(v@.take(k as int)),
        ensures
            fitting(v@, width as int) == k,
        decreases v@.len() - k,
    {
        let cw: usize = char_width(v[k]);
        let ghost rest = v@.skip(k as int);
        assert(rest[0] == v@[k as int]);
        if cw > width - w {
            break;
        }
        proof {
            lemma_columns_concat(v@.take(k as int), seq![v@[k as int]]);
            assert(v@.take(k as int) + seq![v@[k as int]] == v@.take(k + 1));
            reveal_with_fuel(columns, 2);
            assert(seq![v@[k as int]].drop_first().len() == 0);
            assert(seq![v@[k as int]][0] == v@[k as int]);
            assert(rest.drop_first() == v@.skip(k + 1));
        }
        w = w + cw;
        k = k + 1;
    }
    (k, w)
}

/// Cuts or pads a string to `width` columns.
pub fn pad_cell(s: &str, width: usize, align: Align) -> (r: String)
    ensures
        r@ == fitted(s@, width as int, align),
        columns(r@) == width,
{
    proof {
        fitted_has_width(s@, width as int, align);
    }
    let v: Vec<char> = chars_of(s);
    let (whole, whole_width): (usize, usize) = fitting_chars(&v, width);
    let mut body: String = text_of(&v, 0, whole);
    let mut used: usize = whole_width;
    assert(body@ == s@.take(whole as int));
    proof {
        if columns(s@) <= width {
            lemma_all_fit(s@, width as int);
        }
        if whole == s@.len() {
            assert(s@.take(s@.len() as int) == s@);
        }
    }
    if whole < v.len() && width >= 1 {
        let (k, w): (usize, usize) = fitting_chars(&v, width - 1);
        body = text_of(&v, 0, k);
        assert(body@ == s@.take(k as int));
        proof {
            lemma_columns_push_ellipsis(body@);
        }
        body.push('…');
        used = w + 1;
    }
    assert(body@ == shortened(s@, width as int));
    let pad: usize = width - used;
    match align {
        Align::Left => concat2(body.as_str(), repeat(' ', pad).as_str()),
        Align::Center => {
            let left: usize = pad / 2;
            concat3(repeat(' ', left).as_str(), body.as_str(), repeat(' ', pad - left).as_str())
        },
        Align::Right => concat2(repeat(' ', pad).as_str(), body.as_str()),
    }
}

/// A cell with a blank at both ends; `width` counts the blanks.
pub open spec fn cell_text(content: Seq<char>, width: int, align: Align) -> Seq<char> {
    seq![' '] + fitted(
        content,
        if width < 2 {
            0
        } else {
            width - 2
        },
        align,
    ) + seq![' ']
}

/// A cell with a blank at both ends; `width` counts the blanks.
pub fn cell(content: &str, width: usize, align: Align) -> (r: String)
    ensures
        r@ == cell_text(content@, width as int, align),
        width >= 2 ==> columns(r@) == width,
{
    let inner: usize = if width < 2 {
        0
    } else {
        width - 2
    };
    let body: String = pad_cell(content, inner, align);
    let mut r: String = repeat(' ', 1);
    r.append(body.as_str());
    r.push(' ');
    proof {
        assert(repeated(' ', 1) == seq![' ']);
        assert(r@ == cell_text(content@, width as int, align));
        lemma_columns_repeated(' ', 1);
        lemma_columns_concat(seq![' '], body@);
        lemma_columns_concat(seq![' '] + body@, seq![' ']);
    }
    r
}

/// The border of a table with columns of these widths.
pub open spec fn border(widths: Seq<usize>) -> Seq<char>
    decreases widths.len(),
{
    if widths.len() == 0 {
        seq!['+']
    } else {
        seq!['+'] + repeated('-', widths[0] as int) + border(widths.drop_first())
    }
}

/// The border of a table with columns of these widths.
pub fn sep_line(widths: &Vec<usize>) -> (r: String)
    ensures
        r@ == border(widths@),
{
    let mut s: String = repeat('+', 0);
    let mut i: usize = 0;
    assert(widths@.skip(0) == widths@);
    assert(s@ + border(widths@) == border(widths@));
    while i < widths.len()
        invariant
            i <= widths@.len(),
            s@ + border(widths@.skip(i as int)) == border(widths@),
        decreases widths@.len() - i,
    {
        let ghost before = s@;
        let ghost rest = widths@.skip(i as int);
        s.push('+');
        s.append(repeat('-', widths[i]).as_str());
        proof {
            assert(rest.drop_first() == widths@.skip(i + 1));
            assert(rest[0] == widths@[i as int]);
            assert(s@ == before + (seq!['+'] + repeated('-', widths@[i as int] as int)));
            assert(s@ + border(widths@.skip(i + 1)) == before + (seq!['+'] + repeated(
                '-',
                widths@[i as int] as int,
            ) + border(widths@.skip(i + 1))));
        }
        i = i + 1;
    }
    s.push('+');
    assert(widths@.skip(i as int).len() == 0);
    s
}

/// A time span in its largest unit and the next one: `1d4h`, `3h15m`, `45m`, `30s`. A
/// negative span is `0s`.
pub open spec fn relative(secs: int) -> Seq<char> {
    let s = if secs < 0 {
        0
    } else {
        secs
    };
    let days = s / 86_400;
    let hours = (s % 86_400) / 3_600;
    let mins = (s % 3_600) / 60;
    if days > 0 {
        decimal(days) + seq!['d'] + decimal(hours) + seq!['h']
    } else if hours > 0 {
        decimal(hours) + seq!['h'] + decimal(mins) + seq!['m']
    } else if mins > 0 {
        decimal(mins) + seq!['m']
    } else {
        decimal(s) + seq!['s']
    }
}

/// A time span of whole seconds in its largest unit and the next one.
pub fn fmt_relative(secs: i64) -> (r: String)
    ensures
        r@ == relative(secs as int),
{
    let s: u64 = if secs < 0 {
        0
    } else {
        secs as u64
    };
    let days: u64 = s / 86_400;
    let hours: u64 = (s % 86_400) / 3_600;
    let mins: u64 = (s % 3_600) / 60;
    if days > 0 {
        let mut r: String = decimal_text(days);
        r.push('d');
        r.append(decimal_text(hours).as_str());
        r.push('h');
        assert(r@ == relative(secs as int));
        r
    } else if hours > 0 {
        let mut r: String = decimal_text(hours);
        r.push('h');
        r.append(decimal_text(mins).as_str());
        r.push('m');
        assert(r@ == relative(secs as int));
        r
    } else if mins > 0 {
        let mut r: String = decimal_text(mins);
        r.push('m');
        r
    } else {
        let mut r: String = decimal_text(s);
        r.push('s');
        r
    }
}

/// The string with blanks before it up to a length of `n`.
pub open spec fn right_aligned(s: Seq<char>, n: int) -> Seq<char> {
    if s.len() < n {
        repeated(' ', n - s.len()) + s
    } else {
        s
    }
}

/// The string with blanks after it up to a length of `n`.
pub open spec fn left_aligned(s: Seq<char>, n: int) -> Seq<char> {
    if s.len() < n {
        s + repeated(' ', n - s.len())
    } else {
        s
    }
}

/// The string with blanks before it up to a length of `n`.
pub fn align_right(s: &str, n: usize) -> (r: String)
    ensures
        r@ == right_aligned(s@, n as int),
{
    let len: usize = chars_of(s).len();
    if len < n {
        concat2(repeat(' ', n - len).as_str(), s)
    } else {
        s.to_string()
    }
}

/// The string with blanks after it up to a length of `n`.
pub fn align_left(s: &str, n: usize) -> (r: String)
    ensures
        r@ == left_aligned(s@, n as int),
{
    let len: usize = chars_of(s).len();
    if len < n {
        concat2(s, repeat(' ', n - len).as_str())
    } else {
        s.to_string()
    }
}

/// The used percentage of a window, in at least four places.
pub open spec fn percent_text(quotas: Seq<Quota>, window: QuotaWindow) -> Seq<char> {
    match window_quota(quotas, window) {
        Some(quota) => right_aligned(
            match quota.usage {
                Some(usage) => usage.percent@ + seq!['%'],
                None => "n/a"@,
            },
            4,
        ),
        None => "n/a"@,
    }
}

/// The time to the reset of a window, in at least two places.
pub open spec fn reset_text(quotas: Seq<Quota>, window: QuotaWindow, now: Stamp) -> Seq<char> {
    match window_quota(quotas, window) {
        Some(quota) => left_aligned(
            match quota.reset_at {
                Some(reset) => relative(clamped(whole_seconds(now, reset))),
                None => "—"@,
            },
            2,
        ),
        None => "—"@,
    }
}

/// The used percentage of a window and the time to its reset.
pub fn fmt_window(quotas: &Vec<Quota>, window: QuotaWindow, now: Stamp) -> (r: (String, String))
    ensures
        r.0@ == percent_text(quotas@, window),
        r.1@ == reset_text(quotas@, window, now),
{
    match find_window(quotas, window) {
        Some(quota) => {
            let percent: String = match &quota.usage {
                Some(usage) => {
                    let mut p: String = usage.percent.clone();
                    p.push('%');
                    p
                },
                None => "n/a".to_string(),
            };
            let reset: String = match &quota.reset_at {
                Some(at) => fmt_relative(seconds_until(&now, at)),
                None => "—".to_string(),
            };
            (align_right(percent.as_str(), 4), align_left(reset.as_str(), 2))
        },
        None => ("n/a".to_string(), "—".to_string()),
    }
}

/// What the table says of one window of a row.
pub open spec fn window_cell(row: Row, window: QuotaWindow, now: Stamp) -> Seq<char> {
    match known_quotas(row) {
        Some(quotas) => percent_text(quotas, window) + " · "@ + right_aligned(
            reset_text(quotas, window, now),
            5,
        ),
        None => "n/a ·   —"@,
    }
}

/// What the table says of one window of a row.
fn window_text(row: &Row, window: QuotaWindow, now: Stamp) -> (r: String)
    ensures
        r@ == window_cell(*row, window, now),
{
    match row.quotas() {
        Some(quotas) => {
            let (percent, reset): (String, String) = fmt_window(quotas, window, now);
            concat3(percent.as_str(), " · ", align_right(reset.as_str(), 5).as_str())
        },
        None => "n/a ·   —".to_string(),
    }
}

/// The account column of a row: the name, and the id where it differs.
pub open spec fn account_cell(row: Row) -> Seq<char> {
    let name = shown_name(row)@;
    if name == row.account.id@ {
        name
    } else {
        name + " ("@ + row.account.id@ + ")"@
    }
}

/// The failure of a row, where its quotas could not be had.
pub open spec fn failure(row: Row) -> Option<Seq<char>> {
    match row.quota {
        Some(QuotaOutcome::Failed(why)) => Some(why@),
        _ => None,
    }
}

/// The widths of the six columns, with the blanks at both ends.
pub open spec fn table_widths() -> Seq<usize> {
    seq![4usize, 5usize, 36usize, 14usize, 14usize, 12usize]
}

/// The cells between bars.
pub open spec fn barred(cells: Seq<Seq<char>>) -> Seq<char>
    decreases cells.len(),
{
    if cells.len() == 0 {
        seq!['|']
    } else {
        seq!['|'] + cells[0] + barred(cells.drop_first())
    }
}

/// The header of the table.
pub open spec fn header_cells() -> Seq<Seq<char>> {
    seq![
        cell_text("#"@, 4, Align::Center),
        cell_text("ON"@, 5, Align::Center),
        cell_text("ACCOUNT"@, 36, Align::Center),
        cell_text("5H"@, 14, Align::Center),
        cell_text("7D"@, 14, Align::Center),
        cell_text("RECOMMEND"@, 12, Align::Center),
    ]
}

/// The cells of the row with number `n`.
pub open spec fn row_cells(row: Row, n: int, recommended: bool, now: Stamp) -> Seq<Seq<char>> {
    seq![
        cell_text(decimal(n), 4, Align::Right),
        cell_text(
            if row.account.active {
                "*"@
            } else {
                " "@
            },
            5,
            Align::Center,
        ),
        cell_text(account_cell(row), 36, Align::Left),
        cell_text(
            match failure(row) {
                Some(why) => why,
                None => window_cell(row, QuotaWindow::FiveHour, now),
            },
            14,
            Align::Left,
        ),
        cell_text(
            match failure(row) {
                Some(_) => "—"@,
                None => window_cell(row, QuotaWindow::SevenDay, now),
            },
            14,
            Align::Right,
        ),
        cell_text(
            if recommended {
                "← use"@
            } else {
                ""@
            },
            12,
            Align::Left,
        ),
    ]
}

/// The lines of the table proper: header and rows between borders.
pub open spec fn grid(rows: Seq<Row>, recommended: Option<usize>, now: Stamp) -> Seq<Seq<char>> {
    seq![border(table_widths()), barred(header_cells()), border(table_widths())] + Seq::new(
        rows.len(),
        |i: int|
            barred(
                row_cells(
                    rows[i],
                    i + 1,
                    recommended matches Some(k) && k == i,
                    now,
                ),
            ),
    ) + seq![border(table_widths())]
}

/// The lines below the table.
pub open spec fn conclusion(rows: Seq<Row>, recommended: Option<usize>) -> Seq<Seq<char>> {
    match recommended {
        Some(k) => {
            let row = rows[k as int];
            let line = "recommend: kimi/"@ + row.account.id@ + " "@ + shown_name(row)@ + (
            if seven_day_gone(row) {
                " (7d exhausted)"@
            } else {
                ""@
            });
            if forall|i: int| 0 <= i < rows.len() ==> seven_day_gone(#[trigger] rows[i]) {
                seq![
                    line,
                    "⚠ all accounts' 7d quota is exhausted; only 5h remains available"@,
                ]
            } else {
                seq![line]
            }
        },
        None => seq!["no account has remaining 5h quota; all are exhausted or unknown"@],
    }
}

/// Everything that the table prints.
pub open spec fn table_lines(rows: Seq<Row>, recommended: Option<usize>, now: Stamp) -> Seq<
    Seq<char>,
> {
    grid(rows, recommended, now) + seq![Seq::<char>::empty()] + conclusion(rows, recommended)
}

/// The cells between bars.
fn bar_line(cells: &Vec<String>) -> (r: String)
    ensures
        r@ == barred(texts(cells@)),
{
    let mut s: String = repeat('|', 0);
    let mut i: usize = 0;
    let ghost all = texts(cells@);
    assert(all.skip(0) == all);
    assert(s@ + barred(all) == barred(all));
    while i < cells.len()
        invariant
            i <= cells@.len(),
            all == texts(cells@),
            s@ + barred(all.skip(i as int)) == barred(all),
        decreases cells@.len() - i,
    {
        let ghost before = s@;
        let ghost rest = all.skip(i as int);
        s.push('|');
        s.append(cells[i].as_str());
        proof {
            assert(rest.drop_first() == all.skip(i + 1));
            assert(rest[0] == cells@[i as int]@);
            assert(s@ + barred(all.skip(i + 1)) == before + (seq!['|'] + cells@[i as int]@ + barred(
                all.skip(i + 1),
            )));
        }
        i = i + 1;
    }
    s.push('|');
    assert(all.skip(i as int).len() == 0);
    s
}

/// The widths of the six columns.
fn widths() -> (r: Vec<usize>)
    ensures
        r@ == table_widths(),
{
    let mut v: Vec<usize> = Vec::new();
    v.push(4);
    v.push(5);
    v.push(36);
    v.push(14);
    v.push(14);
    v.push(12);
    v
}

/// The header line.
fn header_line() -> (r: String)
    ensures
        r@ == barred(header_cells()),
{
    let mut v: Vec<String> = Vec::new();
    v.push(cell("#", 4, Align::Center));
    v.push(cell("ON", 5, Align::Center));
    v.push(cell("ACCOUNT", 36, Align::Center));
    v.push(cell("5H", 14, Align::Center));
    v.push(cell("7D", 14, Align::Center));
    v.push(cell("RECOMMEND", 12, Align::Center));
    assert(texts(v@) == header_cells());
    bar_line(&v)
}

/// The line of the row with number `n`.
fn row_line(row: &Row, n: u64, recommended: bool, now: Stamp) -> (r: String)
    ensures
        r@ == barred(row_cells(*row, n as int, recommended, now)),
{
    let name: String = row.display_name();
    let shown: String = if *name.as_str() == *row.account.id.as_str() {
        name
    } else {
        let head: String = concat3(name.as_str(), " (", row.account.id.as_str());
        concat2(head.as_str(), ")")
    };
    let (short, long): (String, String) = match &row.quota {
        Some(QuotaOutcome::Failed(why)) => (why.clone(), "—".to_string()),
        _ => (
            window_text(row, QuotaWindow::FiveHour, now),
            window_text(row, QuotaWindow::SevenDay, now),
        ),
    };
    let mut v: Vec<String> = Vec::new();
    v.push(cell(decimal_text(n).as_str(), 4, Align::Right));
    v.push(
        cell(
            if row.account.active {
                "*"
            } else {
                " "
            },
            5,
            Align::Center,
        ),
    );
    v.push(cell(shown.as_str(), 36, Align::Left));
    v.push(cell(short.as_str(), 14, Align::Left));
    v.push(cell(long.as_str(), 14, Align::Right));
    v.push(
        cell(
            if recommended {
                "← use"
            } else {
                ""
            },
            12,
            Align::Left,
        ),
    );
    assert(texts(v@) == row_cells(*row, n as int, recommended, now));
    bar_line(&v)
}

/// The account table with its conclusion, line by line.
pub fn render_table(rows: &Vec<Row>, recommend_idx: Option<usize>, now: Stamp) -> (r: Vec<String>)
    requires
        recommend_idx matches Some(k) ==> k < rows@.len(),
    ensures
        texts(r@) == table_lines(rows@, recommend_idx, now),
{
    let border_line: String = sep_line(&widths());
    let mut lines: Vec<String> = Vec::new();
    lines.push(border_line.clone());
    lines.push(header_line());
    lines.push(border_line.clone());
    let ghost g = grid(rows@, recommend_idx, now);
    assert(texts(lines@) == g.take(3));
    let mut i: usize = 0;
    while i < rows.len()
        invariant
            i <= rows.len(),
            g == grid(rows@, recommend_idx, now),
            texts(lines@) == g.take(i + 3),
        decreases rows@.len() - i,
    {
        let recommended: bool = match recommend_idx {
            Some(k) => k == i,
            None => false,
        };
        let ghost before = lines@;
        lines.push(row_line(&rows[i], i as u64 + 1, recommended, now));
        assert(texts(lines@) == texts(before).push(lines@.last()@));
        assert(g.take(i + 4) == g.take(i + 3).push(g[i + 3]));
        i = i + 1;
    }
    let ghost before = lines@;
    lines.push(border_line);
    proof {
        assert(texts(lines@) == texts(before).push(border(table_widths())));
        assert(texts(lines@) == g);
    }
    lines.push(repeat(' ', 0));
    proof {
        assert(repeated(' ', 0) == Seq::<char>::empty());
        assert(texts(lines@) == g + seq![Seq::<char>::empty()]);
    }
    let ghost body = g + seq![Seq::<char>::empty()];
    match recommend_idx {
        Some(k) => {
            let row: &Row = &rows[k];
            let head: String = concat3(
                "recommend: kimi/",
                row.account.id.as_str(),
                " ",
            );
            let note: &str = if seven_day_exhausted(row) {
                " (7d exhausted)"
            } else {
                ""
            };
            lines.push(concat3(head.as_str(), row.display_name().as_str(), note));
            if all_seven_day_exhausted(rows) {
                lines.push(
                    "⚠ all accounts' 7d quota is exhausted; only 5h remains available".to_string(),
                );
            }
        },
        None => {
            lines.push(
                "no account has remaining 5h quota; all are exhausted or unknown".to_string(),
            );
        },
    }
    assert(texts(lines@) == body + conclusion(rows@, recommend_idx));
    lines
}

/// The columns of a border.
proof fn lemma_border_columns(widths: Seq<usize>)
    ensures
        columns(border(widths)) == total(widths),
    decreases widths.len(),
{
    lemma_columns_repeated('+', 1);
    assert(repeated('+', 1) == seq!['+']);
    if widths.len() > 0 {
        let line = repeated('-', widths[0] as int);
        lemma_border_columns(widths.drop_first());
        lemma_columns_repeated('-', widths[0] as int);
        lemma_columns_concat(seq!['+'], line);
        lemma_columns_concat(seq!['+'] + line, border(widths.drop_first()));
    }
}

/// The columns of a table with columns of these widths.
pub open spec fn total(widths: Seq<usize>) -> int
    decreases widths.len(),
{
    if widths.len() == 0 {
        1
    } else {
        1 + widths[0] + total(widths.drop_first())
    }
}

/// The columns of cells between bars.
proof fn lemma_barred_columns(cells: Seq<Seq<char>>, widths: Seq<usize>)
    requires
        cells.len() == widths.len(),
        forall|i: int| 0 <= i < cells.len() ==> columns(#[trigger] cells[i]) == widths[i],
    ensures
        columns(barred(cells)) == total(widths),
    decreases cells.len(),
{
    lemma_columns_repeated('|', 1);
    assert(repeated('|', 1) == seq!['|']);
    if cells.len() > 0 {
        let rest = cells.drop_first();
        let rest_widths = widths.drop_first();
        assert forall|i: int| 0 <= i < rest.len() implies columns(#[trigger] rest[i])
            == rest_widths[i] by {
            assert(rest[i] == cells[i + 1]);
        }
        lemma_barred_columns(rest, rest_widths);
        lemma_columns_concat(seq!['|'], cells[0]);
        lemma_columns_concat(seq!['|'] + cells[0], barred(rest));
    }
}

/// The columns of a cell.
proof fn lemma_cell_columns(content: Seq<char>, width: int, align: Align)
    requires
        2 <= width,
    ensures
        columns(cell_text(content, width, align)) == width,
{
    let body = fitted(content, width - 2, align);
    fitted_has_width(content, width - 2, align);
    lemma_columns_repeated(' ', 1);
    assert(repeated(' ', 1) == seq![' ']);
    lemma_columns_concat(seq![' '], body);
    lemma_columns_concat(seq![' '] + body, seq![' ']);
}

/// Every line of the table proper takes the same number of columns, whatever the names,
/// errors and quotas in it.
pub proof fn grid_lines_are_aligned(rows: Seq<Row>, recommended: Option<usize>, now: Stamp, i: int)
    requires
        0 <= i < grid(rows, recommended, now).len(),
    ensures
        columns(grid(rows, recommended, now)[i]) == 92,
{
    let widths = table_widths();
    assert(total(widths) == 92) by {
        reveal_with_fuel(total, 7);
        assert(widths.drop_first() == seq![5usize, 36usize, 14usize, 14usize, 12usize]);
        assert(widths.drop_first().drop_first() == seq![36usize, 14usize, 14usize, 12usize]);
        assert(widths.drop_first().drop_first().drop_first() == seq![14usize, 14usize, 12usize]);
        assert(widths.drop_first().drop_first().drop_first().drop_first() == seq![
            14usize,
            12usize,
        ]);
        assert(widths.drop_first().drop_first().drop_first().drop_first().drop_first()
            == seq![12usize]);
        assert(widths.drop_first().drop_first().drop_first().drop_first().drop_first().drop_first().len()
            == 0);
    }
    lemma_border_columns(widths);
    let header = header_cells();
    lemma_cell_columns("#"@, 4, Align::Center);
    lemma_cell_columns("ON"@, 5, Align::Center);
    lemma_cell_columns("ACCOUNT"@, 36, Align::Center);
    lemma_cell_columns("5H"@, 14, Align::Center);
    lemma_cell_columns("7D"@, 14, Align::Center);
    lemma_cell_columns("RECOMMEND"@, 12, Align::Center);
    assert forall|k: int| 0 <= k < header.len() implies columns(#[trigger] header[k])
        == widths[k] by {}
    lemma_barred_columns(header, widths);
    if 3 <= i < rows.len() + 3 {
        let row = rows[i - 3];
        let marked = recommended matches Some(k) && k == i - 3;
        let cells = row_cells(row, i - 2, marked, now);
        lemma_cell_columns(decimal(i - 2), 4, Align::Right);
        lemma_cell_columns(
            if row.account.active {
                "*"@
            } else {
                " "@
            },
            5,
            Align::Center,
        );
        lemma_cell_columns(account_cell(row), 36, Align::Left);
        lemma_cell_columns(
            match failure(row) {
                Some(why) => why,
                None => window_cell(row, QuotaWindow::FiveHour, now),
            },
            14,
            Align::Left,
        );
        lemma_cell_columns(
            match failure(row) {
                Some(_) => "—"@,
                None => window_cell(row, QuotaWindow::SevenDay, now),
            },
            14,
            Align::Right,
        );
        lemma_cell_columns(
            if marked {
                "← use"@
            } else {
                ""@
            },
            12,
            Align::Left,
        );
        assert forall|k: int| 0 <= k < cells.len() implies columns(#[trigger] cells[k])
            == widths[k] by {}
        lemma_barred_columns(cells, widths);
    }
}

/// A span of a day or more is shown in days and the hours after them.
pub proof fn days_and_hours_are_shown(days: int, hours: int, rest: int)
    requires
        1 <= days,
        0 <= hours < 24,
        0 <= rest < 3600,
    ensures
        relative(days * 86_400 + hours * 3600 + rest) == decimal(days) + seq!['d'] + decimal(hours)
            + seq!['h'],
{
    let s = days * 86_400 + hours * 3600 + rest;
    assert(s / 86_400 == days && (s % 86_400) / 3_600 == hours);
}

/// A span of an hour or more, but less than a day, is shown in hours and the minutes after them.
pub proof fn hours_and_minutes_are_shown(hours: int, minutes: int, rest: int)
    requires
        1 <= hours < 24,
        0 <= minutes < 60,
        0 <= rest < 60,
    ensures
        relative(hours * 3600 + minutes * 60 + rest) == decimal(hours) + seq!['h'] + decimal(minutes)
            + seq!['m'],
{
    let s = hours * 3600 + minutes * 60 + rest;
    assert(s / 86_400 == 0 && (s % 86_400) / 3_600 == hours && (s % 3_600) / 60 == minutes);
}

/// A span of less than an hour is shown in minutes, one of less than a minute in seconds, and
/// one that is over as nothing left.
pub proof fn minutes_or_seconds_are_shown(minutes: int, rest: int, past: int)
    requires
        1 <= minutes < 60,
        0 <= rest < 60,
        past <= 0,
    ensures
        relative(minutes * 60 + rest) == decimal(minutes) + seq!['m'],
        relative(rest) == decimal(rest) + seq!['s'],
        relative(past) == seq!['0', 's'],
{
    let s = minutes * 60 + rest;
    assert(s / 86_400 == 0 && (s % 86_400) / 3_600 == 0 && (s % 3_600) / 60 == minutes);
    assert(decimal(0) == seq!['0']);
    assert(seq!['0'] + seq!['s'] =~= seq!['0', 's']);
}

/// Every span has one of these forms: its numbers denote it, down to the smaller unit.
pub proof fn shown_numbers_denote_the_span(secs: int)
    requires
        0 <= secs,
    ensures
        secs >= 86_400 ==> exists|d: int, h: int|
            {
                &&& relative(secs) == #[trigger] decimal(d) + seq!['d'] + #[trigger] decimal(h)
                    + seq!['h']
                &&& 1 <= d && 0 <= h < 24
                &&& d * 86_400 + h * 3_600 <= secs < d * 86_400 + (h + 1) * 3_600
            },
        3_600 <= secs < 86_400 ==> exists|h: int, m: int|
            {
                &&& relative(secs) == #[trigger] decimal(h) + seq!['h'] + #[trigger] decimal(m)
                    + seq!['m']
                &&& 1 <= h < 24 && 0 <= m < 60
                &&& h * 3_600 + m * 60 <= secs < h * 3_600 + (m + 1) * 60
            },
        60 <= secs < 3_600 ==> exists|m: int|
            relative(secs) == #[trigger] decimal(m) + seq!['m'] && m * 60 <= secs < (m + 1) * 60,
        secs < 60 ==> relative(secs) == decimal(secs) + seq!['s'],
{
    if secs >= 86_400 {
        let (d, h, r) = (secs / 86_400, (secs % 86_400) / 3_600, secs % 3_600);
        assert(secs == d * 86_400 + h * 3600 + r);
        days_and_hours_are_shown(d, h, r);
    } else if secs >= 3_600 {
        let (h, m, r) = (secs / 3_600, (secs % 3_600) / 60, secs % 60);
        assert(secs == h * 3600 + m * 60 + r);
        hours_and_minutes_are_shown(h, m, r);
    } else if secs >= 60 {
        let (m, r) = (secs / 60, secs % 60);
        assert(secs == m * 60 + r);
        minutes_or_seconds_are_shown(m, r, 0);
    } else {
        minutes_or_seconds_are_shown(1, secs, 0);
    }
}

/// An aligned string keeps its characters together at one side, with blanks at the other up to
/// the length; a longer one stays as it is.
pub proof fn aligned_strings_are_filled_with_blanks(s: Seq<char>, n: int, i: int)
    requires
        0 <= n,
    ensures
        right_aligned(s, n).len() == if s.len() < n {
            n
        } else {
            s.len() as int
        },
        left_aligned(s, n).len() == right_aligned(s, n).len(),
        s.is_suffix_of(right_aligned(s, n)),
        s.is_prefix_of(left_aligned(s, n)),
        0 <= i < n - s.len() ==> right_aligned(s, n)[i] == ' ',
        s.len() <= i < n ==> left_aligned(s, n)[i] == ' ',
{
    let (r, l) = (right_aligned(s, n), left_aligned(s, n));
    assert(s =~= r.subrange(r.len() - s.len(), r.len() as int));
    assert(s =~= l.subrange(0, s.len() as int));
}

/// A cell holds what is left of the content after cutting, with blanks after it, before it, or
/// at both ends; at both ends there are as many, or one more after it.
pub proof fn cells_are_filled_with_blanks(s: Seq<char>, width: int, before: int)
    requires
        0 <= width,
    ensures
        ({
            let body = shortened(s, width);
            let room = width - columns(body);
            &&& room >= 0
            &&& body.is_prefix_of(fitted(s, width, Align::Left))
            &&& body.is_suffix_of(fitted(s, width, Align::Right))
            &&& fitted(s, width, Align::Left).len() == body.len() + room
            &&& fitted(s, width, Align::Right).len() == body.len() + room
            &&& fitted(s, width, Align::Center).len() == body.len() + room
            &&& room - 1 <= 2 * before <= room ==> fitted(s, width, Align::Center).subrange(
                before,
                before + body.len(),
            ) == body
            &&& 0 <= before < room ==> fitted(s, width, Align::Right)[before] == ' ' && fitted(
                s,
                width,
                Align::Left,
            )[body.len() + before] == ' '
        }),
{
    fitted_has_width(s, width, Align::Left);
    let body = shortened(s, width);
    let room = width - columns(body);
    let (l, r, c) = (
        fitted(s, width, Align::Left),
        fitted(s, width, Align::Right),
        fitted(s, width, Align::Center),
    );
    assert(body =~= l.subrange(0, body.len() as int));
    assert(body =~= r.subrange(r.len() - body.len(), r.len() as int));
    if room - 1 <= 2 * before <= room {
        assert(before == room / 2);
        assert(c.subrange(before, before + body.len()) =~= body);
    }
}

/// The columns of a string are those of its characters taken together.
pub proof fn columns_are_counted_by_character(a: Seq<char>, c: char, b: Seq<char>)
    ensures
        columns(a + seq![c] + b) == columns(a) + char_columns(c) + columns(b),
        columns(seq![c]) == char_columns(c),
        columns(Seq::<char>::empty()) == 0,
{
    lemma_columns_concat(a + seq![c], b);
    lemma_columns_concat(a, seq![c]);
    reveal_with_fuel(columns, 2);
    assert(seq![c].drop_first().len() == 0);
    assert(seq![c][0] == c);
}

/// A character takes the columns of its nominal width, one where it has none. Only in the scripts
/// that terminals draw wide does a width of one become two.
pub proof fn only_decorative_scripts_are_widened(c: char)
    ensures
        ' ' <= c <= '~' ==> char_columns(c) == 1,
        c > '~' && c != '…' && !decorative(c) ==> char_columns(c) == match unicode_columns(c) {
            Some(n) => n as int,
            None => 1,
        },
        c > '~' && c != '…' && decorative(c) ==> char_columns(c) == match unicode_columns(c) {
            Some(n) => if n == 1 {
                2
            } else {
                n as int
            },
            None => 2,
        },
        decorative(c) <==> 0x1950 <= c as u32 <= 0x19DF || 0x1A20 <= c as u32 <= 0x1AAF || 0x1B00
            <= c as u32 <= 0x1B7F || 0xAA00 <= c as u32 <= 0xAA5F,
{
}

/// The border of two groups of columns is that of each, with the corner between them once.
pub proof fn borders_are_put_together(a: Seq<usize>, w: usize, b: Seq<usize>)
    ensures
        border(a + b) == border(a).drop_last() + border(b),
        border(seq![w]) == seq!['+'] + repeated('-', w as int) + seq!['+'],
        border(Seq::<usize>::empty()) == seq!['+'],
    decreases a.len(),
{
    reveal_with_fuel(border, 2);
    assert(seq![w].drop_first().len() == 0);
    assert(seq![w][0] == w);
    if a.len() == 0 {
        assert(a + b == b);
        assert(seq!['+'].drop_last() + border(b) =~= border(b));
    } else {
        borders_are_put_together(a.drop_first(), w, b);
        assert((a + b).drop_first() == a.drop_first() + b);
        lemma_border_ends(a.drop_first());
        let head = seq!['+'] + repeated('-', a[0] as int);
        assert(border(a) == head + border(a.drop_first()));
        assert((head + border(a.drop_first())).drop_last() =~= head + border(
            a.drop_first(),
        ).drop_last());
        assert(border(a + b) =~= border(a).drop_last() + border(b));
    }
}

proof fn lemma_border_ends(a: Seq<usize>)
    ensures
        border(a).len() > 0,
    decreases a.len(),
{
    if a.len() > 0 {
        lemma_border_ends(a.drop_first());
    }
}

/// A bar stands before, between and after the cells of a line.
pub proof fn cells_stand_between_bars(a: Seq<Seq<char>>, c: Seq<char>, b: Seq<Seq<char>>)
    ensures
        barred(a + b) == barred(a).drop_last() + barred(b),
        barred(seq![c]) == seq!['|'] + c + seq!['|'],
        barred(Seq::<Seq<char>>::empty()) == seq!['|'],
    decreases a.len(),
{
    reveal_with_fuel(barred, 2);
    assert(seq![c].drop_first().len() == 0);
    assert(seq![c][0] == c);
    if a.len() == 0 {
        assert(a + b == b);
        assert(seq!['|'].drop_last() + barred(b) =~= barred(b));
    } else {
        cells_stand_between_bars(a.drop_first(), c, b);
        assert((a + b).drop_first() == a.drop_first() + b);
        lemma_barred_ends(a.drop_first());
        let head = seq!['|'] + a[0];
        assert((head + barred(a.drop_first())).drop_last() =~= head + barred(
            a.drop_first(),
        ).drop_last());
        assert(barred(a + b) =~= barred(a).drop_last() + barred(b));
    }
}

proof fn lemma_barred_ends(a: Seq<Seq<char>>)
    ensures
        barred(a).len() > 0,
    decreases a.len(),
{
    if a.len() > 0 {
        lemma_barred_ends(a.drop_first());
    }
}

/// A window is shown by the first quota that has it: the used percentage and the time to the
/// reset, each with a stand-in where it is not known.
pub proof fn window_shows_its_first_quota(
    quotas: Seq<Quota>,
    window: QuotaWindow,
    now: Stamp,
    i: int,
)
    requires
        0 <= i < quotas.len(),
        quotas[i].window == window,
        forall|k: int| 0 <= k < i ==> (#[trigger] quotas[k]).window != window,
    ensures
        quotas[i].usage matches Some(usage) ==> (usage.percent@ + seq!['%']).is_suffix_of(
            percent_text(quotas, window),
        ) && percent_text(quotas, window).len() >= 4,
        quotas[i].usage is None ==> percent_text(quotas, window) == seq![' '] + "n/a"@,
        quotas[i].reset_at matches Some(reset) ==> relative(
            clamped(whole_seconds(now, reset)),
        ).is_prefix_of(reset_text(quotas, window, now)),
        quotas[i].reset_at is None ==> reset_text(quotas, window, now) == "—"@ + seq![' '],
{
    crate::quota::first_quota_of_a_window_counts(quotas, window, i);
    reveal_strlit("n/a");
    reveal_strlit("—");
    if let Some(usage) = quotas[i].usage {
        aligned_strings_are_filled_with_blanks(usage.percent@ + seq!['%'], 4, 0);
    } else {
        assert(repeated(' ', 1) =~= seq![' ']);
        assert("n/a"@.len() == 3);
    }
    if let Some(reset) = quotas[i].reset_at {
        aligned_strings_are_filled_with_blanks(relative(clamped(whole_seconds(now, reset))), 2, 0);
    } else {
        assert(repeated(' ', 1) =~= seq![' ']);
        assert("—"@.len() == 1);
    }
}

/// The columns of a row show, in this order, its number, a star for the active account, the
/// name, the five-hour window, the seven-day window, and a mark for the recommended account.
/// Where the query failed, its words stand in place of the five-hour window.
pub proof fn columns_of_a_row(row: Row, n: int, recommended: bool, now: Stamp)
    ensures
        ({
            let cells = row_cells(row, n, recommended, now);
            &&& cells.len() == 6
            &&& cells[0] == cell_text(decimal(n), 4, Align::Right)
            &&& row.account.active ==> cells[1] == cell_text("*"@, 5, Align::Center)
            &&& !row.account.active ==> cells[1] == cell_text(" "@, 5, Align::Center)
            &&& shown_name(row)@ == row.account.id@ ==> cells[2] == cell_text(
                row.account.id@,
                36,
                Align::Left,
            )
            &&& shown_name(row)@ != row.account.id@ ==> cells[2] == cell_text(
                shown_name(row)@ + " ("@ + row.account.id@ + ")"@,
                36,
                Align::Left,
            )
            &&& row.quota matches Some(QuotaOutcome::Failed(why)) ==> cells[3] == cell_text(
                why@,
                14,
                Align::Left,
            ) && cells[4] == cell_text("—"@, 14, Align::Right)
            &&& known_quotas(row) matches Some(quotas) ==> cells[3] == cell_text(
                percent_text(quotas, QuotaWindow::FiveHour) + " · "@ + right_aligned(
                    reset_text(quotas, QuotaWindow::FiveHour, now),
                    5,
                ),
                14,
                Align::Left,
            )
            &&& known_quotas(row) matches Some(quotas) ==> cells[4] == cell_text(
                percent_text(quotas, QuotaWindow::SevenDay) + " · "@ + right_aligned(
                    reset_text(quotas, QuotaWindow::SevenDay, now),
                    5,
                ),
                14,
                Align::Right,
            )
            &&& recommended ==> cells[5] == cell_text("← use"@, 12, Align::Left)
            &&& !recommended ==> cells[5] == cell_text(""@, 12, Align::Left)
        }),
{
}

/// The table has a line for each row in the order of the rows, numbered from one, between a
/// header and a border; the recommended row is the only one that is marked as such.
pub proof fn every_row_has_its_line(rows: Seq<Row>, recommended: Option<usize>, now: Stamp, i: int)
    requires
        0 <= i < rows.len(),
    ensures
        ({
            let lines = table_lines(rows, recommended, now);
            &&& lines[0] == border(table_widths())
            &&& lines[1] == barred(header_cells())
            &&& lines[2] == border(table_widths())
            &&& recommended == Some(i as usize) && i <= usize::MAX ==> lines[3 + i] == barred(
                row_cells(rows[i], i + 1, true, now),
            )
            &&& (recommended matches Some(k) ==> k != i) ==> lines[3 + i] == barred(
                row_cells(rows[i], i + 1, false, now),
            )
            &&& lines[3int + rows.len()] == border(table_widths())
            &&& lines[4int + rows.len()].len() == 0
            &&& lines.skip(5int + rows.len()) == conclusion(rows, recommended)
        }),
{
    let g = grid(rows, recommended, now);
    let lines = table_lines(rows, recommended, now);
    assert(g.len() == rows.len() + 4);
    assert(lines.skip(5int + rows.len()) =~= conclusion(rows, recommended));
}

/// Below the table stands the recommended account, with a warning only where the seven-day
/// window of every account is gone, or else that there is none.
pub proof fn conclusion_names_the_recommended_account(rows: Seq<Row>, recommended: Option<usize>)
    requires
        recommended matches Some(k) ==> k < rows.len(),
    ensures
        ({
            let lines = conclusion(rows, recommended);
            &&& recommended is None ==> lines.len() == 1 && lines[0]
                == "no account has remaining 5h quota; all are exhausted or unknown"@
            &&& recommended matches Some(k) ==> {
                let row = rows[k as int];
                let head = "recommend: kimi/"@ + row.account.id@ + " "@ + shown_name(row)@;
                &&& seven_day_gone(row) ==> lines[0] == head + " (7d exhausted)"@
                &&& !seven_day_gone(row) ==> lines[0] == head
                &&& lines.len() == 1 || lines.len() == 2
                &&& lines.len() == 2 <==> forall|i: int|
                    0 <= i < rows.len() ==> seven_day_gone(#[trigger] rows[i])
            }
        }),
{
    reveal_strlit("");
    if let Some(k) = recommended {
        let row = rows[k as int];
        let head = "recommend: kimi/"@ + row.account.id@ + " "@ + shown_name(row)@;
        assert(head + ""@ =~= head);
    }
}

/// A cell has a blank at both ends, and between them what fits into the columns that are left.
pub proof fn cells_have_blanks_at_both_ends(content: Seq<char>, room: int, align: Align)
    requires
        0 <= room,
    ensures
        cell_text(content, room + 2, align).first() == ' ',
        cell_text(content, room + 2, align).last() == ' ',
        cell_text(content, room + 2, align).drop_first().drop_last() == fitted(
            content,
            room,
            align,
        ),
{
    let f = fitted(content, room, align);
    let c = cell_text(content, room + 2, align);
    assert(c =~= seq![' '] + f + seq![' ']);
    assert(c.drop_first().drop_last() =~= f);
}

} // verus!
