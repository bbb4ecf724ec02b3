//! Strings as sequences of characters: the few operations that the rest of the
//! library states its contracts over.

use vstd::arithmetic::power::pow;
use vstd::prelude::*;

verus! {

/// `String::push` appends one character.
pub assume_specification[ String::push ](s: &mut String, c: char)
    ensures
        final(s)@ == old(s)@.push(c),
;

/// `==` on two string slices holds exactly when they hold the same characters.
pub assume_specification[ <str as PartialEq>::eq ](a: &str, b: &str) -> (r: bool)
    ensures
        r == (a@ == b@),
;

/// The characters of Unicode's `White_Space` property.
pub open spec fn is_white(c: char) -> bool {
    let u = c as u32;
    ||| 0x09 <= u <= 0x0d
    ||| u == 0x20
    ||| u == 0x85
    ||| u == 0xa0
    ||| u == 0x1680
    ||| 0x2000 <= u <= 0x200a
    ||| u == 0x2028
    ||| u == 0x2029
    ||| u == 0x202f
    ||| u == 0x205f
    ||| u == 0x3000
}

/// `s` without its leading white space.
pub open spec fn trim_start(s: Seq<char>) -> Seq<char>
    decreases s.len(),
{
    if s.len() > 0 && is_white(s[0]) {
        trim_start(s.drop_first())
    } else {
        s
    }
}

/// `s` without its trailing white space.
pub open spec fn trim_end(s: Seq<char>) -> Seq<char>
    decreases s.len(),
{
    if s.len() > 0 && is_white(s.last()) {
        trim_end(s.drop_last())
    } else {
        s
    }
}

/// `s` without white space at either end.
pub open spec fn trimmed(s: Seq<char>) -> Seq<char> {
    trim_end(trim_start(s))
}

/// Whether `part` occurs in `s` at position `i`.
pub open spec fn occurs_at(s: Seq<char>, part: Seq<char>, i: int) -> bool {
    &&& 0 <= i
    &&& i + part.len() <= s.len()
    &&& s.subrange(i, i + part.len()) == part
}

/// Whether `part` occurs in `s`.
pub open spec fn has_part(s: Seq<char>, part: Seq<char>) -> bool {
    exists|i: int| #[trigger] occurs_at(s, part, i)
}

/// Lexicographic order by code point.
pub open spec fn lex_less(a: Seq<char>, b: Seq<char>) -> bool
    decreases a.len(),
{
    if b.len() == 0 {
        false
    } else if a.len() == 0 {
        true
    } else {
        a[0] < b[0] || (a[0] == b[0] && lex_less(a.drop_first(), b.drop_first()))
    }
}

/// Nothing comes before itself in the order of strings.
pub proof fn lemma_lex_irreflexive(a: Seq<char>)
    ensures
        !lex_less(a, a),
    decreases a.len(),
{
    if a.len() > 0 {
        lemma_lex_irreflexive(a.drop_first());
    }
}

/// The order of strings is transitive.
pub proof fn lemma_lex_transitive(a: Seq<char>, b: Seq<char>, c: Seq<char>)
    requires
        lex_less(a, b),
        lex_less(b, c),
    ensures
        lex_less(a, c),
    decreases a.len(),
{
    if a.len() > 0 && b.len() > 0 && c.len() > 0 {
        if a[0] == b[0] && b[0] == c[0] {
            lemma_lex_transitive(a.drop_first(), b.drop_first(), c.drop_first());
        }
    }
}

/// Of two different strings one comes before the other.
pub proof fn lemma_lex_total(a: Seq<char>, b: Seq<char>)
    ensures
        lex_less(a, b) || lex_less(b, a) || a == b,
    decreases a.len(),
{
    if a.len() > 0 && b.len() > 0 && a[0] == b[0] {
        lemma_lex_total(a.drop_first(), b.drop_first());
        if a.drop_first() == b.drop_first() {
            assert(a == seq![a[0]] + a.drop_first());
            assert(b == seq![b[0]] + b.drop_first());
        }
    } else if a.len() == 0 && b.len() == 0 {
        assert(a == b);
    }
}

/// The decimal digit `d`.
pub open spec fn digit(d: int) -> char {
    (48 + d) as char
}

/// `n` in decimal, without leading zeros.
pub open spec fn decimal(n: int) -> Seq<char>
    decreases n,
{
    if n < 10 {
        seq![digit(n)]
    } else {
        decimal(n / 10).push(digit(n % 10))
    }
}

/// `n` in decimal, with a minus sign before a negative number.
pub open spec fn signed_decimal(n: int) -> Seq<char> {
    if n < 0 {
        seq!['-'] + decimal(-n)
    } else {
        decimal(n)
    }
}

/// `s` repeated `n` times.
pub open spec fn repeated(c: char, n: int) -> Seq<char> {
    Seq::new(n as nat, |i: int| c)
}

/// Whether `c` is an ASCII digit.
pub open spec fn is_digit(c: char) -> bool {
    '0' <= c <= '9'
}

/// Whether every character of `s` is an ASCII digit.
pub open spec fn all_digits(s: Seq<char>) -> bool {
    forall|i: int| 0 <= i < s.len() ==> is_digit(#[trigger] s[i])
}

/// The number that a sequence of decimal digits denotes.
pub open spec fn digits_value(s: Seq<char>) -> int
    decreases s.len(),
{
    if s.len() == 0 {
        0
    } else {
        digits_value(s.drop_last()) * 10 + (s.last() as int - 48)
    }
}

/// The integer that `s` denotes: an optional sign, then one or more digits.
pub open spec fn integer_value(s: Seq<char>) -> Option<int> {
    if s.len() > 0 && s[0] == '-' {
        if s.len() > 1 && all_digits(s.drop_first()) {
            Some(-digits_value(s.drop_first()))
        } else {
            None
        }
    } else if s.len() > 0 && s[0] == '+' {
        if s.len() > 1 && all_digits(s.drop_first()) {
            Some(digits_value(s.drop_first()))
        } else {
            None
        }
    } else if s.len() > 0 && all_digits(s) {
        Some(digits_value(s))
    } else {
        None
    }
}

/// The strings of a vector, as sequences of characters.
pub open spec fn texts(v: Seq<String>) -> Seq<Seq<char>> {
    v.map_values(|s: String| s@)
}

/// Whether one of the strings of a vector is `s`.
pub open spec fn lists(v: Seq<String>, s: Seq<char>) -> bool {
    exists|i: int| 0 <= i < v.len() && (#[trigger] v[i])@ == s
}

/// Whether the strings of a vector are pairwise distinct.
pub open spec fn distinct(v: Seq<String>) -> bool {
    forall|i: int, j: int| 0 <= i < j < v.len() ==> (#[trigger] v[i])@ != (#[trigger] v[j])@
}

/// The characters of `s`.
pub fn chars_of(s: &str) -> (v: Vec<char>)
    ensures
        v@ == s@,
{
    let mut v: Vec<char> = Vec::new();
    for c in it: s.chars()
        invariant
            v@ == s@.take(it.index() as int),
            it.seq() == s@,
    {
        v.push(c);
    }
    v
}

/// The string of the characters `from` up to `to`.
pub fn text_of(v: &Vec<char>, from: usize, to: usize) -> (s: String)
    requires
        from <= to <= v@.len(),
    ensures
        s@ == v@.subrange(from as int, to as int),
{
    let mut s: String = String::new();
    let mut i: usize = from;
    while i < to
        invariant
            from <= i <= to <= v@.len(),
            s@ == v@.subrange(from as int, i as int),
        decreases to - i,
    {
        s.push(v[i]);
        i = i + 1;
    }
    s
}

/// Whether `c` is white space.
pub fn is_white_space(c: char) -> (r: bool)
    ensures
        r == is_white(c),
{
    let u: u32 = c as u32;
    (0x09 <= u && u <= 0x0d) || u == 0x20 || u == 0x85 || u == 0xa0 || u == 0x1680 || (0x2000 <= u
        && u <= 0x200a) || u == 0x2028 || u == 0x2029 || u == 0x202f || u == 0x205f || u == 0x3000
}

/// `s` without white space at either end.
pub fn trim(s: &str) -> (r: String)
    ensures
        r@ == trimmed(s@),
{
    let v: Vec<char> = chars_of(s);
    let mut from: usize = 0;
    assert(v@.skip(0) == s@);
    while from < v.len() && is_white_space(v[from])
        invariant
            from <= v@.len(),
            v@ == s@,
            trim_start(s@) == trim_start(v@.skip(from as int)),
        decreases v@.len() - from,
    {
        proof {
            assert(v@.skip(from as int).drop_first() == v@.skip(from + 1));
        }
        from = from + 1;
    }
    let mut to: usize = v.len();
    assert(v@.skip(from as int) == v@.subrange(from as int, to as int));
    while from < to && is_white_space(v[to - 1])
        invariant
            from <= to <= v@.len(),
            trim_end(v@.skip(from as int)) == trim_end(v@.subrange(from as int, to as int)),
        decreases to,
    {
        proof {
            assert(v@.subrange(from as int, to as int).drop_last() == v@.subrange(
                from as int,
                to - 1,
            ));
        }
        to = to - 1;
    }
    text_of(&v, from, to)
}

/// Whether `s` begins with `prefix`.
pub fn starts_with(s: &str, prefix: &str) -> (r: bool)
    ensures
        r == prefix@.is_prefix_of(s@),
{
    strip_prefix(s, prefix).is_some()
}

/// Whether `s` ends in `suffix`.
pub fn ends_with(s: &str, suffix: &str) -> (r: bool)
    ensures
        r == suffix@.is_suffix_of(s@),
{
    let v: Vec<char> = chars_of(s);
    let e: Vec<char> = chars_of(suffix);
    if e.len() > v.len() {
        return false;
    }
    let from: usize = v.len() - e.len();
    let ghost tail = s@.subrange(from as int, s@.len() as int);
    let mut i: usize = 0;
    while i < e.len()
        invariant
            i <= e@.len(),
            from + e.len() == v.len(),
            v@ == s@,
            e@ == suffix@,
            tail == s@.subrange(from as int, s@.len() as int),
            forall|k: int| 0 <= k < i ==> e@[k] == tail[k],
        decreases e@.len() - i,
    {
        assert(tail[i as int] == v@[from + i]);
        if e[i] != v[from + i] {
            assert(suffix@ != tail);
            return false;
        }
        i = i + 1;
    }
    assert(suffix@ == tail);
    true
}

/// What follows `prefix` in `s`, where `s` begins with it.
pub fn strip_prefix(s: &str, prefix: &str) -> (r: Option<String>)
    ensures
        r is Some <==> prefix@.is_prefix_of(s@),
        r matches Some(t) ==> t@ == s@.skip(prefix@.len() as int),
{
    let v: Vec<char> = chars_of(s);
    let p: Vec<char> = chars_of(prefix);
    if p.len() > v.len() {
        return None;
    }
    let mut i: usize = 0;
    while i < p.len()
        invariant
            i <= p@.len() <= v@.len(),
            v@ == s@,
            p@ == prefix@,
            forall|k: int| 0 <= k < i ==> p@[k] == v@[k],
        decreases p@.len() - i,
    {
        if p[i] != v[i] {
            assert(prefix@[i as int] != s@.subrange(0, prefix@.len() as int)[i as int]);
            return None;
        }
        i = i + 1;
    }
    assert(prefix@ =~= s@.subrange(0, prefix@.len() as int));
    assert(s@.skip(prefix@.len() as int) == v@.subrange(p@.len() as int, v@.len() as int));
    Some(text_of(&v, p.len(), v.len()))
}

/// What precedes `suffix` in `s`, where `s` ends with it.
pub fn strip_suffix(s: &str, suffix: &str) -> (r: Option<String>)
    ensures
        r is Some <==> suffix@.is_suffix_of(s@),
        r matches Some(t) ==> t@ == s@.take(s@.len() - suffix@.len()),
{
    let v: Vec<char> = chars_of(s);
    let p: Vec<char> = chars_of(suffix);
    if p.len() > v.len() {
        return None;
    }
    let d: usize = v.len() - p.len();
    let mut i: usize = 0;
    while i < p.len()
        invariant
            i <= p@.len() <= v@.len(),
            d == v.len() - p.len(),
            v@ == s@,
            p@ == suffix@,
            forall|k: int| 0 <= k < i ==> p@[k] == v@[d + k],
        decreases p@.len() - i,
    {
        if p[i] != v[d + i] {
            assert(suffix@[i as int] != s@.subrange(d as int, s@.len() as int)[i as int]);
            return None;
        }
        i = i + 1;
    }
    assert(suffix@ =~= s@.subrange(d as int, s@.len() as int));
    assert(s@.take(d as int) == v@.subrange(0, d as int));
    Some(text_of(&v, 0, d))
}

/// The first position of `c` in `v`.
pub fn position_of(v: &Vec<char>, c: char) -> (r: Option<usize>)
    ensures
        match r {
            Some(i) => i < v@.len() && v@[i as int] == c && !v@.take(i as int).contains(c),
            None => !v@.contains(c),
        },
{
    let mut i: usize = 0;
    while i < v.len()
        invariant
            i <= v@.len(),
            forall|k: int| 0 <= k < i ==> v@[k] != c,
        decreases v@.len() - i,
    {
        if v[i] == c {
            return Some(i);
        }
        i = i + 1;
    }
    None
}

/// Whether `c` occurs in `s`.
pub fn has_char(s: &str, c: char) -> (r: bool)
    ensures
        r == s@.contains(c),
{
    let v: Vec<char> = chars_of(s);
    position_of(&v, c).is_some()
}

/// Whether `part` occurs in `s`.
pub fn contains(s: &str, part: &str) -> (r: bool)
    ensures
        r == has_part(s@, part@),
{
    let v: Vec<char> = chars_of(s);
    let p: Vec<char> = chars_of(part);
    if p.len() > v.len() {
        return false;
    }
    let mut at: usize = 0;
    while at <= v.len() - p.len()
        invariant
            p@.len() <= v@.len(),
            at <= v@.len() - p@.len() + 1,
            v@ == s@,
            p@ == part@,
            forall|k: int| 0 <= k < at ==> !#[trigger] occurs_at(s@, part@, k),
        decreases v@.len() - p@.len() + 1 - at,
    {
        let mut i: usize = 0;
        while i < p.len() && p[i] == v[at + i]
            invariant
                i <= p@.len(),
                at + p.len() <= v.len(),
                forall|k: int| 0 <= k < i ==> p@[k] == v@[at + k],
            decreases p@.len() - i,
        {
            i = i + 1;
        }
        if i == p.len() {
            assert(s@.subrange(at as int, at + part@.len()) =~= part@);
            assert(occurs_at(s@, part@, at as int));
            return true;
        }
        assert(s@.subrange(at as int, at + part@.len())[i as int] != part@[i as int]);
        if at == v.len() - p.len() {
            return false;
        }
        at = at + 1;
    }
    false
}

/// Whether `a` comes before `b` in lexicographic order.
pub fn text_less(a: &str, b: &str) -> (r: bool)
    ensures
        r == lex_less(a@, b@),
{
    let v: Vec<char> = chars_of(a);
    let w: Vec<char> = chars_of(b);
    let mut i: usize = 0;
    assert(v@.skip(0) == a@);
    assert(w@.skip(0) == b@);
    while i < v.len() && i < w.len() && v[i] == w[i]
        invariant
            i <= v@.len(),
            i <= w@.len(),
            lex_less(a@, b@) == lex_less(v@.skip(i as int), w@.skip(i as int)),
        decreases v@.len() - i,
    {
        proof {
            assert(v@.skip(i as int).drop_first() == v@.skip(i + 1));
            assert(w@.skip(i as int).drop_first() == w@.skip(i + 1));
        }
        i = i + 1;
    }
    if i == w.len() {
        false
    } else if i == v.len() {
        true
    } else {
        v[i] < w[i]
    }
}

/// `n` in decimal.
pub fn decimal_text(n: u64) -> (r: String)
    ensures
        r@ == decimal(n as int),
    decreases n,
{
    let d: u8 = (n % 10) as u8;
    let c: char = (48 + d) as char;
    assert(c == digit(n as int % 10));
    if n < 10 {
        let mut r: String = String::new();
        r.push(c);
        assert(r@ =~= seq![c]);
        r
    } else {
        let mut r: String = decimal_text(n / 10);
        r.push(c);
        r
    }
}

/// `n` in decimal, signed.
pub fn signed_text(n: i64) -> (r: String)
    ensures
        r@ == signed_decimal(n as int),
{
    if n < 0 {
        let m: u64 = (-(n as i128)) as u64;
        let mut r: String = String::new();
        r.push('-');
        assert(r@ =~= seq!['-']);
        let t: String = decimal_text(m);
        r.append(t.as_str());
        r
    } else {
        decimal_text(n as u64)
    }
}

/// `c` repeated `n` times.
pub fn repeat(c: char, n: usize) -> (r: String)
    ensures
        r@ == repeated(c, n as int),
{
    let mut r: String = String::new();
    let mut i: usize = 0;
    while i < n
        invariant
            i <= n,
            r@ == repeated(c, i as int),
        decreases n - i,
    {
        r.push(c);
        i = i + 1;
    }
    r
}

/// The two strings one after the other.
pub fn concat2(a: &str, b: &str) -> (r: String)
    ensures
        r@ == a@ + b@,
{
    let mut r: String = a.to_string();
    r.append(b);
    r
}

/// The three strings one after another.
pub fn concat3(a: &str, b: &str, c: &str) -> (r: String)
    ensures
        r@ == a@ + b@ + c@,
{
    let mut r: String = a.to_string();
    r.append(b);
    r.append(c);
    r
}

/// Whether one of the strings of `v` is `s`.
pub fn lists_text(v: &Vec<String>, s: &str) -> (r: bool)
    ensures
        r == lists(v@, s@),
{
    let mut i: usize = 0;
    while i < v.len()
        invariant
            i <= v@.len(),
            forall|k: int| 0 <= k < i ==> (#[trigger] v@[k])@ != s@,
        decreases v@.len() - i,
    {
        if *v[i].as_str() == *s {
            return true;
        }
        i = i + 1;
    }
    false
}

/// The number that a sequence of characters denotes as `usize`: an optional plus
/// sign, then one or more digits.
pub open spec fn index_value(s: Seq<char>) -> Option<int> {
    let rest = if s.len() > 0 && s[0] == '+' {
        s.drop_first()
    } else {
        s
    };
    if rest.len() > 0 && all_digits(rest) && digits_value(rest) <= usize::MAX {
        Some(digits_value(rest))
    } else {
        None
    }
}

/// A longer row of digits denotes no smaller number.
proof fn lemma_digits_grow(s: Seq<char>, n: int)
    requires
        all_digits(s),
        0 <= n <= s.len(),
    ensures
        0 <= digits_value(s.take(n)) <= digits_value(s),
    decreases s.len(),
{
    if s.len() == 0 {
        assert(s.take(n) == s);
    } else {
        assert(is_digit(s[s.len() - 1]));
        assert(all_digits(s.drop_last())) by {
            assert forall|i: int| 0 <= i < s.len() - 1 implies is_digit(
                #[trigger] s.drop_last()[i],
            ) by {
                assert(is_digit(s[i]));
            }
        }
        if n == s.len() {
            lemma_digits_grow(s.drop_last(), s.len() - 1);
            assert(s.take(n) == s);
            assert(s.drop_last().take(s.len() - 1) == s.drop_last());
        } else {
            lemma_digits_grow(s.drop_last(), n);
            assert(s.take(n) == s.drop_last().take(n));
        }
    }
}

/// The number that the digits of `v` from `from` on denote, where there is at least
/// one, all are digits and the number is at most `limit`.
fn parse_digits(v: &Vec<char>, from: usize, limit: u64) -> (r: Option<u64>)
    requires
        from <= v@.len(),
    ensures
        ({
            let s = v@.skip(from as int);
            match r {
                Some(n) => s.len() > 0 && all_digits(s) && digits_value(s) == n && n <= limit,
                None => !(s.len() > 0 && all_digits(s) && digits_value(s) <= limit),
            }
        }),
{
    let ghost s = v@.skip(from as int);
    if from == v.len() {
        return None;
    }
    let mut acc: u64 = 0;
    let mut i: usize = from;
    assert(s.take(0).len() == 0);
    while i < v.len()
        invariant
            from <= i <= v@.len(),
            s == v@.skip(from as int),
            acc <= limit,
            acc == digits_value(s.take(i - from)),
            forall|k: int| 0 <= k < i - from ==> is_digit(#[trigger] s[k]),
        decreases v@.len() - i,
    {
        let c: char = v[i];
        assert(s[i - from] == c);
        if !('0' <= c && c <= '9') {
            assert(!is_digit(s[i - from]));
            return None;
        }
        let d: u64 = (c as u32 - 48) as u64;
        let next: u128 = acc as u128 * 10 + d as u128;
        proof {
            assert(s.take(i - from + 1).drop_last() == s.take(i - from));
            assert(digits_value(s.take(i - from + 1)) == next);
        }
        if next > limit as u128 {
            proof {
                if all_digits(s) {
                    lemma_digits_grow(s, i - from + 1);
                }
            }
            return None;
        }
        acc = next as u64;
        i = i + 1;
    }
    assert(s.take(v@.len() - from) == s);
    Some(acc)
}

/// The integer that `s` denotes, where it fits `i64`.
pub fn parse_i64(s: &str) -> (r: Option<i64>)
    ensures
        r == match integer_value(s@) {
            Some(n) => if i64::MIN <= n <= i64::MAX {
                Some(n as i64)
            } else {
                None
            },
            None => None::<i64>,
        },
{
    let v: Vec<char> = chars_of(s);
    if v.len() == 0 {
        return None;
    }
    assert(v@.skip(1) == s@.drop_first());
    assert(v@.skip(0) == s@);
    if v[0] == '-' {
        match parse_digits(&v, 1, 0x8000_0000_0000_0000) {
            Some(n) => Some((-(n as i128)) as i64),
            None => None,
        }
    } else {
        let from: usize = if v[0] == '+' { 1 } else { 0 };
        match parse_digits(&v, from, 0x7fff_ffff_ffff_ffff) {
            Some(n) => Some(n as i64),
            None => None,
        }
    }
}

/// The number that `s` denotes as `usize`.
pub fn parse_usize(s: &str) -> (r: Option<usize>)
    ensures
        match r {
            Some(n) => index_value(s@) == Some(n as int),
            None => index_value(s@) is None,
        },
{
    let v: Vec<char> = chars_of(s);
    assert(v@.skip(0) == s@);
    let from: usize = if v.len() > 0 && v[0] == '+' { 1 } else { 0 };
    assert(from == 1 ==> v@.skip(1) == s@.drop_first());
    match parse_digits(&v, from, usize::MAX as u64) {
        Some(n) => {
            Some(n as usize)
        },
        None => None,
    }
}

/// The lower-case hexadecimal digit `d`.
pub open spec fn hex_digit(d: int) -> char {
    if d < 10 {
        (48 + d) as char
    } else {
        (87 + d) as char
    }
}

/// Whether `c` is a lower-case hexadecimal digit.
pub open spec fn is_lower_hex(c: char) -> bool {
    '0' <= c <= '9' || 'a' <= c <= 'f'
}

/// Two lower-case hexadecimal digits for each byte.
pub open spec fn hex_text(b: Seq<u8>) -> Seq<char> {
    Seq::new(
        2 * b.len(),
        |i: int|
            if i % 2 == 0 {
                hex_digit(b[i / 2] as int / 16)
            } else {
                hex_digit(b[i / 2] as int % 16)
            },
    )
}

/// A hexadecimal text has two digits for each byte.
pub proof fn lemma_hex_text(b: Seq<u8>)
    ensures
        hex_text(b).len() == 2 * b.len(),
        forall|i: int| 0 <= i < hex_text(b).len() ==> is_lower_hex(#[trigger] hex_text(b)[i]),
{
}

/// The first `n` bytes of `b` in hexadecimal.
pub fn hex_of(b: &Vec<u8>, n: usize) -> (r: String)
    requires
        n <= b@.len(),
    ensures
        r@ == hex_text(b@.take(n as int)),
{
    let mut r: String = String::new();
    let mut i: usize = 0;
    while i < n
        invariant
            i <= n <= b@.len(),
            r@ == hex_text(b@.take(i as int)),
        decreases n - i,
    {
        let x: u8 = b[i];
        let ghost before = r@;
        r.push(hex_char(x / 16));
        r.push(hex_char(x % 16));
        assert(r@ =~= hex_text(b@.take(i + 1))) by {
            assert forall|k: int| 0 <= k < 2 * (i + 1) implies r@[k] == hex_text(
                b@.take(i + 1),
            )[k] by {
                if k < 2 * i {
                    assert(before[k] == hex_text(b@.take(i as int))[k]);
                }
            }
        }
        i = i + 1;
    }
    r
}

/// The lower-case hexadecimal digit of a number below 16.
pub(crate) fn hex_char(d: u8) -> (c: char)
    requires
        d < 16,
    ensures
        c == hex_digit(d as int),
{
    if d < 10 {
        (48 + d) as char
    } else {
        (87 + d) as char
    }
}

/// A copy of a vector of strings.
pub fn copy_texts(v: &Vec<String>) -> (r: Vec<String>)
    ensures
        r@ == v@,
{
    let mut r: Vec<String> = Vec::new();
    let mut i: usize = 0;
    while i < v.len()
        invariant
            i <= v@.len(),
            r@ == v@.take(i as int),
        decreases v@.len() - i,
    {
        r.push(v[i].clone());
        i = i + 1;
    }
    r
}

/// A copy of an optional string.
pub fn copy_option(o: &Option<String>) -> (r: Option<String>)
    ensures
        r == *o,
{
    match o {
        Some(s) => Some(s.clone()),
        None => None,
    }
}

/// What is left after trimming is a part of the text: only white space goes at either end, and
/// none is left there.
pub proof fn trimming_takes_off_white_space(s: Seq<char>)
    ensures
        exists|i: int, j: int|
            {
                &&& 0 <= i <= j <= s.len()
                &&& trimmed(s) == #[trigger] s.subrange(i, j)
                &&& forall|k: int| 0 <= k < i ==> is_white(#[trigger] s[k])
                &&& forall|k: int| j <= k < s.len() ==> is_white(#[trigger] s[k])
                &&& i < j ==> !is_white(s[i]) && !is_white(s[j - 1])
            },
        trimmed(s).len() == 0 <==> forall|k: int| 0 <= k < s.len() ==> is_white(#[trigger] s[k]),
{
    let i = lemma_start_of(s);
    let t = trim_start(s);
    let n = lemma_end_of(t);
    let j = i + n;
    assert(t == s.subrange(i, s.len() as int));
    assert(trimmed(s) == s.subrange(i, j));
    assert forall|k: int| j <= k < s.len() implies is_white(#[trigger] s[k]) by {
        assert(t[k - i] == s[k]);
    }
    if i < j {
        assert(t[0] == s[i]);
        assert(t[n - 1] == s[j - 1]);
    }
}

/// How many characters trimming takes off at the start.
proof fn lemma_start_of(s: Seq<char>) -> (i: int)
    ensures
        0 <= i <= s.len(),
        trim_start(s) == s.subrange(i, s.len() as int),
        forall|k: int| 0 <= k < i ==> is_white(#[trigger] s[k]),
        i < s.len() ==> !is_white(s[i]),
    decreases s.len(),
{
    if s.len() > 0 && is_white(s[0]) {
        let rest = s.drop_first();
        let i = lemma_start_of(rest);
        assert(rest.subrange(i, rest.len() as int) == s.subrange(i + 1, s.len() as int));
        assert forall|k: int| 0 <= k < i + 1 implies is_white(#[trigger] s[k]) by {
            if k > 0 {
                assert(rest[k - 1] == s[k]);
            }
        }
        i + 1
    } else {
        assert(s == s.subrange(0, s.len() as int));
        0
    }
}

/// How many characters trimming leaves at the end.
proof fn lemma_end_of(s: Seq<char>) -> (n: int)
    ensures
        0 <= n <= s.len(),
        trim_end(s) == s.subrange(0, n),
        forall|k: int| n <= k < s.len() ==> is_white(#[trigger] s[k]),
        n > 0 ==> !is_white(s[n - 1]),
    decreases s.len(),
{
    if s.len() > 0 && is_white(s.last()) {
        let rest = s.drop_last();
        let n = lemma_end_of(rest);
        assert(rest.subrange(0, n) == s.subrange(0, n));
        assert forall|k: int| n <= k < s.len() implies is_white(#[trigger] s[k]) by {
            if k < rest.len() {
                assert(rest[k] == s[k]);
            }
        }
        n
    } else {
        assert(s == s.subrange(0, s.len() as int));
        s.len() as int
    }
}

/// A string comes before another where it is a beginning of it, or has the lower code point at
/// the first place where they differ.
pub proof fn order_of_strings(a: Seq<char>, b: Seq<char>, k: int)
    requires
        0 <= k <= a.len(),
        k <= b.len(),
        forall|i: int| 0 <= i < k ==> a[i] == b[i],
    ensures
        k == a.len() && k < b.len() ==> lex_less(a, b),
        k == b.len() ==> !lex_less(a, b),
        k < a.len() && k < b.len() && a[k] != b[k] ==> (lex_less(a, b) <==> (a[k] as int) < (
        b[k] as int)),
    decreases k,
{
    if k > 0 {
        assert forall|i: int| 0 <= i < k - 1 implies a.drop_first()[i] == b.drop_first()[i] by {
            assert(a[i + 1] == b[i + 1]);
        }
        order_of_strings(a.drop_first(), b.drop_first(), k - 1);
        assert(a[0] == b[0]);
    }
}

/// A number in decimal is made of digits that denote it, and has as many as it needs: more
/// than one only where the number is not below the power of ten that they begin with.
pub proof fn decimal_denotes_the_number(n: int)
    requires
        0 <= n,
    ensures
        all_digits(decimal(n)),
        digits_value(decimal(n)) == n,
        decimal(n).len() >= 1,
        n < pow(10, decimal(n).len()),
        decimal(n).len() > 1 ==> n >= pow(10, (decimal(n).len() - 1) as nat),
    decreases n,
{
    reveal_with_fuel(pow, 3);
    reveal_with_fuel(digits_value, 2);
    if n >= 10 {
        let q = n / 10;
        decimal_denotes_the_number(q);
        let t = decimal(q);
        assert(decimal(n).drop_last() == t);
        assert(decimal(n).last() == digit(n % 10));
        lemma_pow_step(t.len());
        assert(n == 10 * q + n % 10);
        if t.len() > 1 {
            lemma_pow_step((t.len() - 1) as nat);
        }
        assert forall|i: int| 0 <= i < decimal(n).len() implies is_digit(
            #[trigger] decimal(n)[i],
        ) by {
            if i < t.len() {
                assert(decimal(n)[i] == t[i]);
            }
        }
    } else {
        assert(decimal(n).drop_last().len() == 0);
        assert(decimal(n).last() == digit(n));
    }
}

proof fn lemma_pow_step(k: nat)
    ensures
        pow(10, k + 1) == 10 * pow(10, k),
{
    reveal(pow);
}

/// A digit before others counts as often as the power of ten of its place; so the digits are
/// read in base ten, the most significant one first.
pub proof fn digits_are_read_in_base_ten(d: char, s: Seq<char>)
    ensures
        digits_value(seq![d] + s) == (d as int - '0' as int) * pow(10, s.len()) + digits_value(s),
    decreases s.len(),
{
    let t = seq![d] + s;
    if s.len() == 0 {
        reveal_with_fuel(pow, 2);
        assert(t.drop_last().len() == 0);
        reveal_with_fuel(digits_value, 2);
        assert(t.last() == d);
    } else {
        assert(t.drop_last() == seq![d] + s.drop_last());
        assert(t.last() == s.last());
        digits_are_read_in_base_ten(d, s.drop_last());
        lemma_pow_step(s.drop_last().len());
        let p = pow(10, s.drop_last().len());
        let x = d as int - '0' as int;
        assert((x * p) * 10 == x * (10 * p)) by (nonlinear_arith);
    }
}

/// An integer is read as it is written: with a minus sign where it is negative, and with or
/// without a plus sign where it is not.
pub proof fn written_integer_is_read_back(n: int)
    ensures
        integer_value(signed_decimal(n)) == Some(n),
        n >= 0 ==> integer_value(seq!['+'] + decimal(n)) == Some(n),
        n < 0 ==> signed_decimal(n)[0] == '-' && integer_value(signed_decimal(n).drop_first())
            == Some(-n),
{
    if n < 0 {
        decimal_denotes_the_number(-n);
        let s = seq!['-'] + decimal(-n);
        assert(s.drop_first() == decimal(-n));
        assert(is_digit(decimal(-n)[0]));
    } else {
        decimal_denotes_the_number(n);
        let s = seq!['+'] + decimal(n);
        assert(s.drop_first() == decimal(n));
        assert(is_digit(decimal(n)[0]));
    }
}

/// A text with a character that is neither a digit nor a sign at its start is no integer.
pub proof fn only_digits_are_read(s: Seq<char>, i: int)
    requires
        0 <= i < s.len(),
        !('0' <= s[i] <= '9'),
        i == 0 ==> s[0] != '-' && s[0] != '+',
    ensures
        integer_value(s) is None,
        index_value(s) is None,
{
    assert(!is_digit(s[i]));
    if i > 0 {
        assert(s.drop_first()[i - 1] == s[i]);
    }
}

/// A number is read as an index as it is written, with or without a plus sign, where it fits;
/// a number with a minus sign is not.
pub proof fn written_index_is_read_back(n: int)
    requires
        0 <= n,
    ensures
        index_value(decimal(n)) == if n <= usize::MAX {
            Some(n)
        } else {
            None
        },
        index_value(seq!['+'] + decimal(n)) == index_value(decimal(n)),
        index_value(seq!['-'] + decimal(n)) is None,
{
    decimal_denotes_the_number(n);
    let plus = seq!['+'] + decimal(n);
    assert(plus.drop_first() == decimal(n));
    assert(is_digit(decimal(n)[0]));
    let minus = seq!['-'] + decimal(n);
    assert(!is_digit(minus[0]));
}

/// Each byte can be read from its two hexadecimal digits, the first of which counts sixteen
/// times.
pub proof fn hex_digits_denote_the_bytes(b: Seq<u8>, i: int)
    requires
        0 <= i < b.len(),
    ensures
        hex_text(b).len() == 2 * b.len(),
        ({
            let (x, y) = (hex_text(b)[2 * i], hex_text(b)[2 * i + 1]);
            let high = if x <= '9' {
                x as int - '0' as int
            } else {
                x as int - 'a' as int + 10
            };
            let low = if y <= '9' {
                y as int - '0' as int
            } else {
                y as int - 'a' as int + 10
            };
            &&& b[i] == 16 * high + low
            &&& 0 <= high < 16
            &&& 0 <= low < 16
        }),
{
    assert((2 * i) / 2 == i && (2 * i) % 2 == 0);
    assert((2 * i + 1) / 2 == i && (2 * i + 1) % 2 == 1);
}

/// An empty list holds no string, and a string that is put on a list is the only one that it
/// holds more.
pub proof fn put_strings_are_listed(v: Seq<String>, x: String, s: Seq<char>)
    ensures
        !lists(Seq::empty(), s),
        lists(v.push(x), s) <==> lists(v, s) || x@ == s,
{
    let w = v.push(x);
    assert(w[v.len() as int] == x);
    if lists(v, s) {
        let i = choose|i: int| 0 <= i < v.len() && (#[trigger] v[i])@ == s;
        assert(w[i]@ == s);
    }
    if lists(w, s) && x@ != s {
        let i = choose|i: int| 0 <= i < w.len() && (#[trigger] w[i])@ == s;
        assert(v[i]@ == s);
    }
}

/// The strings of a list stay distinct exactly where one that is not on it is put on it.
pub proof fn new_strings_stay_distinct(v: Seq<String>, x: String)
    ensures
        distinct(Seq::empty()),
        distinct(v.push(x)) <==> distinct(v) && !lists(v, x@),
{
    let w = v.push(x);
    assert(w[v.len() as int] == x);
    assert(forall|i: int| 0 <= i < v.len() ==> w[i] == v[i]);
    if distinct(w) {
        assert forall|i: int, j: int| 0 <= i < j < v.len() implies (#[trigger] v[i])@ != (
        #[trigger] v[j])@ by {
            assert(w[i]@ != w[j]@);
        }
        if lists(v, x@) {
            let i = choose|i: int| 0 <= i < v.len() && (#[trigger] v[i])@ == x@;
            assert(w[i]@ != w[v.len() as int]@);
        }
    }
    if distinct(v) && !lists(v, x@) {
        assert forall|i: int, j: int| 0 <= i < j < w.len() implies (#[trigger] w[i])@ != (
        #[trigger] w[j])@ by {
            assert(v[i]@ != x@);
            if j < v.len() {
                assert(v[i]@ != v[j]@);
            }
        }
    }
}

/// White space are the five control characters from the tabulator on, the blanks of all widths,
/// the next-line character and the two separators.
pub proof fn white_space_has_these_characters(c: char)
    ensures
        is_white(c) <==> set![
            9int,
            10,
            11,
            12,
            13,
            32,
            133,
            160,
            5760,
            8192,
            8193,
            8194,
            8195,
            8196,
            8197,
            8198,
            8199,
            8200,
            8201,
            8202,
            8232,
            8233,
            8239,
            8287,
            12288,
        ].contains(c as int),
{
}

/// A string has a part exactly where it is made of something, the part and something more.
pub proof fn parts_stand_between(s: Seq<char>, part: Seq<char>, before: Seq<char>, after: Seq<char>)
    ensures
        has_part(before + part + after, part),
        has_part(s, part) ==> exists|a: Seq<char>, b: Seq<char>|
            s == #[trigger] ((a + part) + b),
        part.len() > s.len() ==> !has_part(s, part),
{
    let w = before + part + after;
    let i = before.len() as int;
    assert(w.subrange(i, i + part.len()) =~= part);
    assert(occurs_at(w, part, i));
    if has_part(s, part) {
        let k = choose|k: int| #[trigger] occurs_at(s, part, k);
        let a = s.subrange(0, k);
        let b = s.subrange(k + part.len(), s.len() as int);
        assert(s =~= (a + part) + b);
    }
}

/// A repeated character stands at every place, as many times as asked for.
pub proof fn repeated_characters_are_alike(c: char, n: int, i: int)
    requires
        0 <= i < n,
    ensures
        repeated(c, n).len() == n,
        repeated(c, n)[i] == c,
        repeated(c, 0).len() == 0,
{
}

/// The texts of strings stand in their order.
pub proof fn texts_stand_in_order(v: Seq<String>, i: int)
    requires
        0 <= i < v.len(),
    ensures
        texts(v).len() == v.len(),
        texts(v)[i] == v[i]@,
{
}

} // verus!
