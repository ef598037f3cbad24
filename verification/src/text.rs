//! The pieces of the kept text: numbers, flags, texts and dates, each with
//! the way it is written and the way it is read back.

use crate::date::{Date, DateView};
use vstd::prelude::*;
use vstd::string::*;

verus! {

/// `String::push`: std documents that it appends the character to the end.
pub assume_specification[ String::push ](text: &mut String, c: char)
    ensures
        final(text)@ == old(text)@.push(c),
;

/// No year of a date is further from 0 than this.
pub const FARTHEST_YEAR: usize = 262143;

/// The text begins with the character `c`.
pub open spec fn starts_with(s: Seq<char>, c: char) -> bool {
    s.len() > 0 && s[0] == c
}

/// The first character of the text, if it has one.
pub open spec fn head(s: Seq<char>) -> Option<char> {
    if s.len() > 0 {
        Some(s[0])
    } else {
        None
    }
}

pub open spec fn is_digit(c: char) -> bool {
    '0' <= c <= '9'
}

/// The text does not go on with a digit.
pub open spec fn ends_number(s: Seq<char>) -> bool {
    s.len() == 0 || !is_digit(s[0])
}

pub open spec fn digit_value(c: char) -> nat {
    (c as int - 48) as nat
}

pub open spec fn digit_char(d: nat) -> char {
    (d + 48) as char
}

/// How many digits the text begins with.
pub open spec fn digit_run(s: Seq<char>) -> nat
    decreases s.len(),
{
    if s.len() > 0 && is_digit(s[0]) {
        1 + digit_run(s.skip(1))
    } else {
        0
    }
}

/// The number that a text of digits stands for, in base ten.
pub open spec fn digits_value(s: Seq<char>) -> nat
    decreases s.len(),
{
    if s.len() == 0 {
        0
    } else {
        digits_value(s.drop_last()) * 10 + digit_value(s.last())
    }
}

/// A number in base ten, without leading zeros.
pub open spec fn nat_text(n: nat) -> Seq<char>
    decreases n,
{
    if n < 10 {
        seq![digit_char(n)]
    } else {
        nat_text(n / 10).push(digit_char(n % 10))
    }
}

/// A number that may be negative: a minus sign, if any, and its size.
pub open spec fn int_text(n: int) -> Seq<char> {
    if n < 0 {
        seq!['-'] + nat_text((-n) as nat)
    } else {
        nat_text(n as nat)
    }
}

/// A flag: `t` or `f`.
pub open spec fn bool_text(b: bool) -> Seq<char> {
    if b {
        seq!['t']
    } else {
        seq!['f']
    }
}

/// A text: the number of its characters, a colon, the characters.
pub open spec fn string_text(t: Seq<char>) -> Seq<char> {
    nat_text(t.len()) + seq![':'] + t
}

/// A date: year, month and day with `-` between them and `;` at the end.
pub open spec fn date_text(d: DateView) -> Seq<char> {
    int_text(d.year) + seq!['-'] + nat_text(d.month as nat) + seq!['-'] + nat_text(d.day as nat)
        + seq![';']
}

/// Reads the character `c`; gives what follows it.
pub open spec fn parse_char(s: Seq<char>, c: char) -> Option<Seq<char>> {
    if starts_with(s, c) {
        Some(s.skip(1))
    } else {
        None
    }
}

/// Reads the digits that the text begins with, one at least; gives their
/// number and what follows them.
pub open spec fn parse_nat(s: Seq<char>) -> Option<(nat, Seq<char>)> {
    let run = digit_run(s);
    if run == 0 {
        None
    } else {
        Some((digits_value(s.take(run as int)), s.skip(run as int)))
    }
}

pub open spec fn parse_int(s: Seq<char>) -> Option<(int, Seq<char>)> {
    if starts_with(s, '-') {
        match parse_nat(s.skip(1)) {
            Some((n, rest)) => Some((-(n as int), rest)),
            None => None,
        }
    } else {
        match parse_nat(s) {
            Some((n, rest)) => Some((n as int, rest)),
            None => None,
        }
    }
}

pub open spec fn parse_bool(s: Seq<char>) -> Option<(bool, Seq<char>)> {
    if starts_with(s, 't') {
        Some((true, s.skip(1)))
    } else if starts_with(s, 'f') {
        Some((false, s.skip(1)))
    } else {
        None
    }
}

pub open spec fn parse_string(s: Seq<char>) -> Option<(Seq<char>, Seq<char>)> {
    match parse_nat(s) {
        Some((n, after_len)) => match parse_char(after_len, ':') {
            Some(body) => if n <= body.len() {
                Some((body.take(n as int), body.skip(n as int)))
            } else {
                None
            },
            None => None,
        },
        None => None,
    }
}

/// Reads three numbers and the marks between them; they must make a day
/// that exists.
pub open spec fn parse_date(s: Seq<char>) -> Option<(DateView, Seq<char>)> {
    match parse_int(s) {
        Some((year, s1)) => match parse_char(s1, '-') {
            Some(s2) => match parse_nat(s2) {
                Some((month, s3)) => match parse_char(s3, '-') {
                    Some(s4) => match parse_nat(s4) {
                        Some((day, s5)) => match parse_char(s5, ';') {
                            Some(rest) => {
                                let date = DateView {
                                    year,
                                    month: month as int,
                                    day: day as int,
                                };
                                if date.is_valid() {
                                    Some((date, rest))
                                } else {
                                    None
                                }
                            },
                            None => None,
                        },
                        None => None,
                    },
                    None => None,
                },
                None => None,
            },
            None => None,
        },
        None => None,
    }
}

/// The run of digits at the start of a text ends at the first character
/// that is no digit.
pub proof fn lemma_digit_run(s: Seq<char>)
    ensures
        digit_run(s) <= s.len(),
        forall|i: int| 0 <= i < digit_run(s) ==> is_digit(#[trigger] s[i]),
        digit_run(s) < s.len() ==> !is_digit(s[digit_run(s) as int]),
    decreases s.len(),
{
    if s.len() > 0 && is_digit(s[0]) {
        let tail = s.skip(1);
        lemma_digit_run(tail);
        assert forall|i: int| 0 <= i < digit_run(s) implies is_digit(#[trigger] s[i]) by {
            if i > 0 {
                assert(s[i] == tail[i - 1]);
            }
        }
        if digit_run(s) < s.len() {
            assert(s[digit_run(s) as int] == tail[digit_run(tail) as int]);
        }
    }
}

/// Where the first `k` characters are digits, the run has `k` digits at least.
pub proof fn lemma_digit_run_at_least(s: Seq<char>, k: int)
    requires
        0 <= k <= s.len(),
        forall|i: int| 0 <= i < k ==> is_digit(#[trigger] s[i]),
    ensures
        digit_run(s) >= k,
{
    lemma_digit_run(s);
}

/// Where the first `k` characters are digits and the next is none, the run
/// has `k` digits.
pub proof fn lemma_digit_run_is(s: Seq<char>, k: int)
    requires
        0 <= k <= s.len(),
        forall|i: int| 0 <= i < k ==> is_digit(#[trigger] s[i]),
        k == s.len() || !is_digit(s[k]),
    ensures
        digit_run(s) == k,
{
    lemma_digit_run(s);
}

/// One more digit never makes the number smaller.
pub proof fn lemma_digits_value_grows(s: Seq<char>, j: int, k: int)
    requires
        0 <= j <= k <= s.len(),
    ensures
        digits_value(s.take(j)) <= digits_value(s.take(k)),
    decreases k - j,
{
    if j < k {
        lemma_digits_value_grows(s, j, k - 1);
        assert(s.take(k).drop_last() =~= s.take(k - 1));
    }
}

/// The text of a number is made of digits and stands for that number.
pub proof fn lemma_nat_text(n: nat)
    ensures
        nat_text(n).len() >= 1,
        forall|i: int| 0 <= i < nat_text(n).len() ==> is_digit(#[trigger] nat_text(n)[i]),
        digits_value(nat_text(n)) == n,
    decreases n,
{
    if n < 10 {
        assert(nat_text(n).drop_last() =~= Seq::<char>::empty());
        assert(digits_value(nat_text(n).drop_last()) == 0);
    } else {
        lemma_nat_text(n / 10);
        assert(nat_text(n).drop_last() =~= nat_text(n / 10));
    }
}

/// A number that was written is read back, and reading stops at its end.
pub proof fn lemma_parse_nat(n: nat, rest: Seq<char>)
    requires
        ends_number(rest),
    ensures
        parse_nat(nat_text(n) + rest) == Some((n, rest)),
{
    let text = nat_text(n);
    let s = text + rest;
    lemma_nat_text(n);
    assert forall|i: int| 0 <= i < text.len() implies is_digit(#[trigger] s[i]) by {
        assert(s[i] == text[i]);
    }
    if rest.len() > 0 {
        assert(s[text.len() as int] == rest[0]);
    }
    lemma_digit_run_is(s, text.len() as int);
    assert(s.take(text.len() as int) =~= text);
    assert(s.skip(text.len() as int) =~= rest);
}

pub proof fn lemma_parse_int(n: int, rest: Seq<char>)
    requires
        ends_number(rest),
    ensures
        parse_int(int_text(n) + rest) == Some((n, rest)),
{
    if n < 0 {
        let size = (-n) as nat;
        let s = int_text(n) + rest;
        assert(s.skip(1) =~= nat_text(size) + rest);
        lemma_parse_nat(size, rest);
    } else {
        lemma_nat_text(n as nat);
        assert((int_text(n) + rest)[0] == nat_text(n as nat)[0]);
        lemma_parse_nat(n as nat, rest);
    }
}

pub proof fn lemma_parse_bool(b: bool, rest: Seq<char>)
    ensures
        parse_bool(bool_text(b) + rest) == Some((b, rest)),
{
    assert((bool_text(b) + rest).skip(1) =~= rest);
}

/// A text that was written is read back whole, whatever its characters
/// and whatever follows it.
pub proof fn lemma_parse_string(t: Seq<char>, rest: Seq<char>)
    ensures
        parse_string(string_text(t) + rest) == Some((t, rest)),
{
    let after_len = seq![':'] + t + rest;
    assert(string_text(t) + rest =~= nat_text(t.len()) + after_len);
    lemma_parse_nat(t.len(), after_len);
    let body = t + rest;
    assert(after_len.skip(1) =~= body);
    assert(body.take(t.len() as int) =~= t);
    assert(body.skip(t.len() as int) =~= rest);
}

/// A date that was written is read back, if it is a day that exists.
pub proof fn lemma_parse_date(d: DateView, rest: Seq<char>)
    requires
        d.is_valid(),
    ensures
        parse_date(date_text(d) + rest) == Some((d, rest)),
{
    let s5 = seq![';'] + rest;
    let s4 = nat_text(d.day as nat) + s5;
    let s3 = seq!['-'] + s4;
    let s2 = nat_text(d.month as nat) + s3;
    let s1 = seq!['-'] + s2;
    assert(date_text(d) + rest =~= int_text(d.year) + s1);
    lemma_parse_int(d.year, s1);
    assert(s1.skip(1) =~= s2);
    lemma_parse_nat(d.month as nat, s3);
    assert(s3.skip(1) =~= s4);
    lemma_parse_nat(d.day as nat, s5);
    assert(s5.skip(1) =~= rest);
}

/// The characters of a text, one by one.
pub(crate) fn chars_of(text: &str) -> (chars: Vec<char>)
    ensures
        chars@ == text@,
{
    let mut chars: Vec<char> = Vec::new();
    for c in it: text.chars()
        invariant
            it.seq() == text@,
            chars@ == it.seq().take(it.index()),
    {
        chars.push(c);
    }
    chars
}

/// Whether the character at `pos` is `c`.
pub(crate) fn at(buf: &Vec<char>, pos: usize, c: char) -> (found: bool)
    requires
        pos <= buf.len(),
    ensures
        found == starts_with(buf@.skip(pos as int), c),
        found ==> pos < buf.len() && parse_char(buf@.skip(pos as int), c) == Some(
            buf@.skip(pos + 1),
        ),
        !found ==> parse_char(buf@.skip(pos as int), c) is None,
{
    if pos < buf.len() && buf[pos] == c {
        assert(buf@.skip(pos as int).skip(1) =~= buf@.skip(pos + 1));
        true
    } else {
        false
    }
}

/// The digit at `pos`, if a digit stands there.
fn digit_at(buf: &Vec<char>, pos: usize) -> (digit: Option<usize>)
    requires
        pos <= buf.len(),
    ensures
        digit is Some <==> pos < buf.len() && is_digit(buf@[pos as int]),
        digit matches Some(d) ==> d == digit_value(buf@[pos as int]) && d <= 9,
{
    if pos < buf.len() {
        let c = buf[pos];
        if '0' <= c && c <= '9' {
            return Some(((c as u32) - 48) as usize);
        }
    }
    None
}

/// Reads a number of at most `limit`. Gives the number and the place after
/// its digits; nothing where no digit stands at `pos` or the number is
/// larger than `limit`.
pub(crate) fn read_nat(buf: &Vec<char>, pos: usize, limit: usize) -> (out: Option<(usize, usize)>)
    requires
        pos <= buf.len(),
    ensures
        match out {
            Some((n, next)) => {
                &&& n <= limit
                &&& pos < next <= buf.len()
                &&& parse_nat(buf@.skip(pos as int)) == Some((n as nat, buf@.skip(next as int)))
            },
            None => parse_nat(buf@.skip(pos as int)) matches Some((n, _)) ==> n > limit,
        },
{
    let ghost s = buf@.skip(pos as int);
    let mut next = pos;
    let mut n: usize = 0;
    let mut digit = digit_at(buf, next);
    while digit.is_some()
        invariant
            s == buf@.skip(pos as int),
            pos <= next <= buf.len(),
            n <= limit,
            n == digits_value(s.take(next - pos)),
            forall|i: int| 0 <= i < next - pos ==> is_digit(#[trigger] s[i]),
            digit is Some <==> next < buf.len() && is_digit(buf@[next as int]),
            digit matches Some(d) ==> d == digit_value(buf@[next as int]) && d <= 9,
        decreases buf.len() - next,
    {
        let d = digit.unwrap();
        proof {
            let longer = s.take(next + 1 - pos);
            assert(longer.drop_last() =~= s.take(next - pos));
            assert(longer.last() == buf@[next as int]);
            assert(digits_value(longer) == n * 10 + d);
        }
        if d > limit || n > (limit - d) / 10 {
            proof {
                lemma_digit_run(s);
                lemma_digit_run_at_least(s, next + 1 - pos);
                lemma_digits_value_grows(s, next + 1 - pos, digit_run(s) as int);
            }
            return None;
        }
        n = n * 10 + d;
        next += 1;
        digit = digit_at(buf, next);
    }
    proof {
        lemma_digit_run_is(s, next - pos);
        assert(s.skip(next - pos) =~= buf@.skip(next as int));
    }
    if next == pos {
        None
    } else {
        Some((n, next))
    }
}

pub(crate) fn read_bool(buf: &Vec<char>, pos: usize) -> (out: Option<(bool, usize)>)
    requires
        pos <= buf.len(),
    ensures
        match out {
            Some((b, next)) => pos < next <= buf.len() && parse_bool(buf@.skip(pos as int))
                == Some((b, buf@.skip(next as int))),
            None => parse_bool(buf@.skip(pos as int)) is None,
        },
{
    if at(buf, pos, 't') {
        Some((true, pos + 1))
    } else if at(buf, pos, 'f') {
        Some((false, pos + 1))
    } else {
        None
    }
}

pub(crate) fn read_string(buf: &Vec<char>, pos: usize) -> (out: Option<(String, usize)>)
    requires
        pos <= buf.len(),
    ensures
        match out {
            Some((text, next)) => pos < next <= buf.len() && parse_string(buf@.skip(pos as int))
                == Some((text@, buf@.skip(next as int))),
            None => parse_string(buf@.skip(pos as int)) is None,
        },
{
    let (n, colon) = match read_nat(buf, pos, buf.len()) {
        Some(found) => found,
        None => {
            proof {
                lemma_digit_run(buf@.skip(pos as int));
            }
            return None;
        },
    };
    if !at(buf, colon, ':') {
        return None;
    }
    let start = colon + 1;
    if n > buf.len() - start {
        return None;
    }
    let ghost body = buf@.skip(start as int);
    let mut text = String::new();
    let mut i: usize = 0;
    while i < n
        invariant
            start + n <= buf.len(),
            i <= n,
            body == buf@.skip(start as int),
            text@ == body.take(i as int),
        decreases n - i,
    {
        text.push(buf[start + i]);
        assert(body.take(i + 1) =~= body.take(i as int).push(buf@[start + i]));
        i += 1;
    }
    assert(body.skip(n as int) =~= buf@.skip(start + n));
    Some((text, start + n))
}

pub(crate) fn read_date(buf: &Vec<char>, pos: usize) -> (out: Option<(Date, usize)>)
    requires
        pos <= buf.len(),
    ensures
        match out {
            Some((date, next)) => {
                &&& date.wf()
                &&& pos < next <= buf.len()
                &&& parse_date(buf@.skip(pos as int)) == Some((date@, buf@.skip(next as int)))
            },
            None => parse_date(buf@.skip(pos as int)) is None,
        },
{
    let negative = at(buf, pos, '-');
    let digits = if negative {
        pos + 1
    } else {
        pos
    };
    let (size, after_year) = read_nat(buf, digits, FARTHEST_YEAR)?;
    let year: i32 = if negative {
        -(size as i32)
    } else {
        size as i32
    };
    assert(parse_int(buf@.skip(pos as int)) == Some((year as int, buf@.skip(after_year as int))));
    if !at(buf, after_year, '-') {
        return None;
    }
    let (month, after_month) = read_nat(buf, after_year + 1, 12)?;
    if !at(buf, after_month, '-') {
        return None;
    }
    let (day, after_day) = read_nat(buf, after_month + 1, 31)?;
    if !at(buf, after_day, ';') {
        return None;
    }
    match Date::from_ymd_opt(year, month as u32, day as u32) {
        Some(date) => Some((date, after_day + 1)),
        None => None,
    }
}

/// Writes a number in base ten.
pub(crate) fn write_nat(out: &mut String, n: usize)
    ensures
        final(out)@ == old(out)@ + nat_text(n as nat),
    decreases n,
{
    if n >= 10 {
        write_nat(out, n / 10);
    }
    let digit = (48u8 + (n % 10) as u8) as char;
    out.push(digit);
    assert(digit == digit_char((n % 10) as nat));
    assert(out@ =~= old(out)@ + nat_text(n as nat));
}

pub(crate) fn write_bool(out: &mut String, b: bool)
    ensures
        final(out)@ == old(out)@ + bool_text(b),
{
    if b {
        out.push('t');
    } else {
        out.push('f');
    }
    assert(out@ =~= old(out)@ + bool_text(b));
}

pub(crate) fn write_string(out: &mut String, text: &String)
    ensures
        final(out)@ == old(out)@ + string_text(text@),
{
    write_nat(out, text.as_str().unicode_len());
    out.push(':');
    out.append(text.as_str());
    assert(out@ =~= old(out)@ + string_text(text@));
}

pub(crate) fn write_date(out: &mut String, date: Date)
    requires
        date.wf(),
    ensures
        final(out)@ == old(out)@ + date_text(date@),
{
    let year = date.year();
    if year < 0 {
        out.push('-');
        write_nat(out, (-year) as usize);
    } else {
        write_nat(out, year as usize);
    }
    assert(out@ =~= old(out)@ + int_text(date@.year));
    out.push('-');
    write_nat(out, date.month() as usize);
    out.push('-');
    write_nat(out, date.day() as usize);
    out.push(';');
    assert(out@ =~= old(out)@ + date_text(date@));
}

} // verus!
