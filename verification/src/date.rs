//! The date extractor.
//!
//! Two ways of writing a date are known. The first names the month in
//! Portuguese, as in `15 de março de 2024`; the second is all numbers, as in
//! `15/03/2024`. Either may give the year with two digits, which stand for a
//! year of the current or of the last century ([`resolved_year`]). A date is
//! looked for line by line, the named form in every line before the numeric
//! form in any; a line whose first candidate is no day of the calendar gives
//! no date, and the search goes on with the next line.
use vstd::prelude::*;
use crate::calendar::{
    chrono_current_year, midnight_of, midnight_timestamp, resolve_year, resolved_year, stamp,
};
use crate::pattern::{captures, regex_captures};
use crate::text::{rows, text_lines, text_lines_of, to_chars, to_string};

verus! {

/// A numeric date: day, month and year, with a slash between them.
pub const NUMERIC_DATE: &'static str = "(\\d{1,2})/(\\d{1,2})/(\\d{2,4})";

/// A date with the month by its Portuguese name: day, `de`, month, `de`,
/// year, with or without whitespace between them.
pub const NAMED_DATE: &'static str = "(\\d{1,2})\\s*de\\s*([^\\d\\s]+)\\s*de\\s*(\\d{2,4})";

/// `c` is one of the digits `0` to `9`.
pub open spec fn is_digit(c: char) -> bool {
    '0' <= c && c <= '9'
}

/// The number that the digits `s` write in base ten.
pub open spec fn decimal_value(s: Seq<char>) -> int
    decreases s.len(),
{
    if s.len() == 0 {
        0
    } else {
        10 * decimal_value(s.drop_last()) + (s.last() as int - '0' as int)
    }
}

/// The number that `s` writes, where `s` is made of one to four digits and
/// of nothing else.
pub open spec fn number_of(s: Seq<char>) -> Option<int> {
    if 1 <= s.len() <= 4 && (forall|i: int| 0 <= i < s.len() ==> is_digit(#[trigger] s[i])) {
        Some(decimal_value(s))
    } else {
        None
    }
}

/// Reads a number of one to four digits.
pub fn parse_digits(digits: &[char]) -> (r: Option<u32>)
    ensures
        match r {
            Some(n) => number_of(digits@) == Some(n as int) && n <= 9999,
            None => number_of(digits@).is_none(),
        },
{
    let n = digits.len();
    if n < 1 || n > 4 {
        return None;
    }
    let mut value: u32 = 0;
    let mut i: usize = 0;
    while i < n
        invariant
            n == digits.len(),
            1 <= n <= 4,
            i <= n,
            forall|j: int| 0 <= j < i ==> is_digit(#[trigger] digits@[j]),
            value == decimal_value(digits@.take(i as int)),
            i == 0 ==> value == 0,
            i == 1 ==> value <= 9,
            i == 2 ==> value <= 99,
            i == 3 ==> value <= 999,
            i == 4 ==> value <= 9999,
        decreases n - i,
    {
        let c = digits[i];
        if !('0' <= c && c <= '9') {
            return None;
        }
        proof {
            assert(digits@.take(i + 1).drop_last() == digits@.take(i as int));
            assert(digits@.take(i + 1).last() == c);
        }
        value = value * 10 + (c as u32 - '0' as u32);
        i += 1;
    }
    proof {
        assert(digits@.take(n as int) == digits@);
    }
    Some(value)
}

/// The day or the month that `s` writes: a number of one or two digits.
pub open spec fn day_or_month(s: Seq<char>) -> Option<int> {
    if s.len() <= 2 {
        number_of(s)
    } else {
        None
    }
}

/// The year that `s` writes when read in `current_year`: four digits are the
/// year itself, two digits are resolved by [`resolved_year`], and anything
/// else is no year.
pub open spec fn year_from(s: Seq<char>, current_year: int) -> Option<int> {
    match number_of(s) {
        Some(n) => if s.len() == 2 {
            Some(resolved_year(n, current_year))
        } else if s.len() == 4 {
            Some(n)
        } else {
            None
        },
        None => None,
    }
}

/// Reads a day or a month.
pub fn parse_day_or_month(s: &str) -> (r: Option<u32>)
    ensures
        match r {
            Some(n) => day_or_month(s@) == Some(n as int),
            None => day_or_month(s@).is_none(),
        },
{
    let digits = to_chars(s);
    if digits.len() > 2 {
        return None;
    }
    parse_digits(digits.as_slice())
}

/// Reads a year of two or four digits, in `current_year`.
pub fn parse_year(s: &str, current_year: i32) -> (r: Option<i32>)
    ensures
        match r {
            Some(y) => year_from(s@, current_year as int) == Some(y as int),
            None => year_from(s@, current_year as int).is_none(),
        },
{
    let digits = to_chars(s);
    match parse_digits(digits.as_slice()) {
        Some(n) => {
            if digits.len() == 2 {
                proof {
                    lemma_two_digits(digits@);
                }
                Some(resolve_year(n as u8, current_year))
            } else if digits.len() == 4 {
                Some(n as i32)
            } else {
                None
            }
        },
        None => None,
    }
}

/// A number of two digits is at most 99.
proof fn lemma_two_digits(s: Seq<char>)
    requires
        s.len() == 2,
        number_of(s).is_some(),
    ensures
        0 <= decimal_value(s) <= 99,
{
    let one = s.drop_last();
    assert(is_digit(s[0]) && is_digit(s[1]));
    assert(one.drop_last().len() == 0);
    assert(decimal_value(one) == 10 * decimal_value(one.drop_last()) + (one.last() as int
        - '0' as int));
}

/// A small letter for each of the capital letters that the names of the
/// months can be written with; any other character is left as it is.
pub open spec fn small(c: char) -> char {
    if 'A' <= c && c <= 'Z' {
        ((c as u8) + 32) as char
    } else if c == 'Ç' {
        'ç'
    } else {
        c
    }
}

/// The small letter of `c`.
pub fn to_small(c: char) -> (r: char)
    ensures
        r == small(c),
{
    if 'A' <= c && c <= 'Z' {
        ((c as u8) + 32) as char
    } else if c == 'Ç' {
        'ç'
    } else {
        c
    }
}

/// The names of the twelve months, January first.
pub open spec fn month_names() -> Seq<Seq<char>> {
    seq![
        "janeiro"@,
        "fevereiro"@,
        "março"@,
        "abril"@,
        "maio"@,
        "junho"@,
        "julho"@,
        "agosto"@,
        "setembro"@,
        "outubro"@,
        "novembro"@,
        "dezembro"@,
    ]
}

/// `word` is `name` when capital and small letters count as the same.
pub open spec fn is_name(word: Seq<char>, name: Seq<char>) -> bool {
    word.map_values(|c: char| small(c)) == name
}

/// The number of the first month from the `k`-th on, counted from zero,
/// whose name `word` is.
pub open spec fn month_from(word: Seq<char>, k: int) -> Option<int>
    decreases 12 - k,
{
    if k < 0 || k >= 12 {
        None
    } else if is_name(word, month_names()[k]) {
        Some(k + 1)
    } else {
        month_from(word, k + 1)
    }
}

/// The number, 1 to 12, of the month that `word` names.
pub open spec fn month_number(word: Seq<char>) -> Option<int> {
    month_from(word, 0)
}

/// Tests whether `word` is `name`, capital and small letters counted as the
/// same.
pub fn names_month(word: &[char], name: &str) -> (r: bool)
    ensures
        r == is_name(word@, name@),
{
    let letters = to_chars(name);
    if word.len() != letters.len() {
        return false;
    }
    let mut i: usize = 0;
    while i < word.len()
        invariant
            word.len() == letters.len(),
            letters@ == name@,
            i <= word.len(),
            forall|j: int| 0 <= j < i ==> small(#[trigger] word@[j]) == letters@[j],
        decreases word.len() - i,
    {
        if to_small(word[i]) != letters[i] {
            proof {
                assert(word@.map_values(|c: char| small(c))[i as int] == small(word@[i as int]));
            }
            return false;
        }
        i += 1;
    }
    proof {
        assert(word@.map_values(|c: char| small(c)) =~= name@);
    }
    true
}

/// Finds the month that `word` names.
pub fn parse_month(word: &str) -> (r: Option<u32>)
    ensures
        match r {
            Some(m) => month_number(word@) == Some(m as int) && 1 <= m <= 12,
            None => month_number(word@).is_none(),
        },
{
    let names: [&str; 12] = [
        "janeiro",
        "fevereiro",
        "março",
        "abril",
        "maio",
        "junho",
        "julho",
        "agosto",
        "setembro",
        "outubro",
        "novembro",
        "dezembro",
    ];
    let letters = to_chars(word);
    let mut k: usize = 0;
    while k < 12
        invariant
            k <= 12,
            letters@ == word@,
            forall|i: int| 0 <= i < 12 ==> (#[trigger] names@[i])@ == month_names()[i],
            month_number(word@) == month_from(word@, k as int),
        decreases 12 - k,
    {
        if names_month(letters.as_slice(), names[k]) {
            return Some(k as u32 + 1);
        }
        k += 1;
    }
    None
}

/// The text that group `i` of a match took, where the match has such a group
/// and the group took part.
pub open spec fn group_text(groups: Seq<Option<Seq<char>>>, i: int) -> Option<Seq<char>> {
    if 0 <= i < groups.len() {
        groups[i]
    } else {
        None
    }
}

/// The timestamp of the start of the day that the three parts give, where
/// each of them was read and together they are a day of the calendar.
pub open spec fn date_of_parts(day: Option<int>, month: Option<int>, year: Option<int>) -> Option<
    int,
> {
    match (day, month, year) {
        (Some(d), Some(m), Some(y)) => midnight_of(y, m, d),
        _ => None,
    }
}

/// The two ways of writing a date, in the order in which they are tried.
#[derive(Clone, Copy, Debug, PartialEq, Eq)]
pub enum DateFormat {
    /// Day, `de`, the name of the month, `de`, year.
    Named,
    /// Day, month and year as numbers between slashes.
    Numeric,
}

/// The regular expression that finds a date written in `format`. Its first
/// group takes the day, its second the month and its third the year.
pub open spec fn pattern_of(format: DateFormat) -> Seq<char> {
    match format {
        DateFormat::Named => NAMED_DATE@,
        DateFormat::Numeric => NUMERIC_DATE@,
    }
}

/// The month that `s` gives in a date written in `format`.
pub open spec fn month_in(format: DateFormat, s: Seq<char>) -> Option<int> {
    match format {
        DateFormat::Named => month_number(s),
        DateFormat::Numeric => day_or_month(s),
    }
}

/// The date that the groups of a match give, read in `current_year`: the
/// timestamp of the start of that day, or nothing where a group is missing,
/// a part cannot be read, or the day does not exist.
pub open spec fn date_of_groups(
    format: DateFormat,
    groups: Seq<Option<Seq<char>>>,
    current_year: int,
) -> Option<int> {
    match (group_text(groups, 1), group_text(groups, 2), group_text(groups, 3)) {
        (Some(d), Some(m), Some(y)) => date_of_parts(
            day_or_month(d),
            month_in(format, m),
            year_from(y, current_year),
        ),
        _ => None,
    }
}

/// The text of group `i`, where there is one.
fn group_at(groups: &Vec<Option<String>>, i: usize) -> (r: Option<&str>)
    ensures
        match r {
            Some(s) => group_text(groups.deep_view(), i as int) == Some(s@),
            None => group_text(groups.deep_view(), i as int).is_none(),
        },
{
    if i < groups.len() {
        proof {
            assert(groups.deep_view()[i as int] == groups@[i as int].deep_view());
        }
        match &groups[i] {
            Some(s) => Some(s.as_str()),
            None => None,
        }
    } else {
        None
    }
}

/// Turns the groups of a match of the pattern of `format` into a date: the
/// part of the extractor that follows the search.
pub fn date_from_groups(format: DateFormat, groups: &Vec<Option<String>>, current_year: i32) -> (r:
    Option<i64>)
    ensures
        stamp(r) == date_of_groups(format, groups.deep_view(), current_year as int),
{
    let day_text = match group_at(groups, 1) {
        Some(s) => s,
        None => {
            return None;
        },
    };
    let month_text = match group_at(groups, 2) {
        Some(s) => s,
        None => {
            return None;
        },
    };
    let year_text = match group_at(groups, 3) {
        Some(s) => s,
        None => {
            return None;
        },
    };
    let day = match parse_day_or_month(day_text) {
        Some(d) => d,
        None => {
            return None;
        },
    };
    let month_read = match format {
        DateFormat::Named => parse_month(month_text),
        DateFormat::Numeric => parse_day_or_month(month_text),
    };
    let month = match month_read {
        Some(m) => m,
        None => {
            return None;
        },
    };
    let year = match parse_year(year_text, current_year) {
        Some(y) => y,
        None => {
            return None;
        },
    };
    midnight_timestamp(year, month, day)
}

/// The date that the first candidate in `line` gives: what
/// [`date_of_groups`] makes of the first match of the pattern of `format` in
/// `line`, and nothing where the pattern does not match.
pub open spec fn line_date(format: DateFormat, line: Seq<char>, current_year: int) -> Option<int> {
    match regex_captures(pattern_of(format), line) {
        Some(groups) => date_of_groups(format, groups, current_year),
        None => None,
    }
}

/// Looks for a date written in `format` in `line`.
pub fn extract_in_format(format: DateFormat, line: &str, current_year: i32) -> (r: Option<i64>)
    ensures
        stamp(r) == line_date(format, line@, current_year as int),
{
    let pattern = match format {
        DateFormat::Named => NAMED_DATE,
        DateFormat::Numeric => NUMERIC_DATE,
    };
    match captures(pattern, line) {
        Some(groups) => date_from_groups(format, &groups, current_year),
        None => None,
    }
}

/// Looks for a date with a named month in `line`, read in `current_year`.
pub fn extract_portuguese_date(line: &str, current_year: i32) -> (r: Option<i64>)
    ensures
        stamp(r) == line_date(DateFormat::Named, line@, current_year as int),
{
    extract_in_format(DateFormat::Named, line, current_year)
}

/// Looks for a numeric date in `line`, read in `current_year`.
pub fn extract_date(line: &str, current_year: i32) -> (r: Option<i64>)
    ensures
        stamp(r) == line_date(DateFormat::Numeric, line@, current_year as int),
{
    extract_in_format(DateFormat::Numeric, line, current_year)
}

/// The date of the first of `lines` that gives one in `format`.
pub open spec fn first_date(format: DateFormat, lines: Seq<Seq<char>>, current_year: int) -> Option<
    int,
>
    decreases lines.len(),
{
    if lines.len() == 0 {
        None
    } else {
        match line_date(format, lines[0], current_year) {
            Some(t) => Some(t),
            None => first_date(format, lines.drop_first(), current_year),
        }
    }
}

/// The date of a text read in `current_year`: the first date with a named
/// month that a line of the text gives, and where no line gives one, the
/// first numeric date that a line gives.
pub open spec fn text_date(text: Seq<char>, current_year: int) -> Option<int> {
    match first_date(DateFormat::Named, text_lines(text), current_year) {
        Some(t) => Some(t),
        None => first_date(DateFormat::Numeric, text_lines(text), current_year),
    }
}

/// `first_date` by the place of the line: the date comes from the first line
/// that gives one, and there is none only where no line gives one.
pub proof fn lemma_first_date(format: DateFormat, lines: Seq<Seq<char>>, current_year: int)
    ensures
        match first_date(format, lines, current_year) {
            Some(t) => exists|i: int|
                0 <= i < lines.len() && line_date(format, #[trigger] lines[i], current_year)
                    == Some(t) && forall|j: int|
                    0 <= j < i ==> line_date(format, #[trigger] lines[j], current_year).is_none(),
            None => forall|j: int|
                0 <= j < lines.len() ==> line_date(
                    format,
                    #[trigger] lines[j],
                    current_year,
                ).is_none(),
        },
    decreases lines.len(),
{
    if lines.len() > 0 {
        let rest = lines.drop_first();
        lemma_first_date(format, rest, current_year);
        match line_date(format, lines[0], current_year) {
            Some(t) => {
                assert(line_date(format, lines[0], current_year) == Some(t));
            },
            None => {
                match first_date(format, rest, current_year) {
                    Some(t) => {
                        let i = choose|i: int|
                            0 <= i < rest.len() && line_date(format, #[trigger] rest[i], current_year)
                                == Some(t) && forall|j: int|
                                0 <= j < i ==> line_date(
                                    format,
                                    #[trigger] rest[j],
                                    current_year,
                                ).is_none();
                        assert(lines[i + 1] == rest[i]);
                        assert forall|j: int| 0 <= j < i + 1 implies line_date(
                            format,
                            #[trigger] lines[j],
                            current_year,
                        ).is_none() by {
                            if j > 0 {
                                assert(lines[j] == rest[j - 1]);
                            }
                        }
                    },
                    None => {
                        assert forall|j: int| 0 <= j < lines.len() implies line_date(
                            format,
                            #[trigger] lines[j],
                            current_year,
                        ).is_none() by {
                            if j > 0 {
                                assert(lines[j] == rest[j - 1]);
                            }
                        }
                    },
                }
            },
        }
    }
}

/// Looks through `lines` for the first date written in `format`.
pub fn first_date_in(format: DateFormat, lines: &Vec<Vec<char>>, current_year: i32) -> (r: Option<
    i64,
>)
    ensures
        stamp(r) == first_date(format, rows(lines@), current_year as int),
{
    let ghost all = rows(lines@);
    let mut i: usize = 0;
    proof {
        assert(all.skip(0) == all);
    }
    while i < lines.len()
        invariant
            i <= lines.len(),
            all == rows(lines@),
            first_date(format, all, current_year as int) == first_date(
                format,
                all.skip(i as int),
                current_year as int,
            ),
        decreases lines.len() - i,
    {
        let line = to_string(lines[i].as_slice());
        proof {
            assert(all.skip(i as int)[0] == line@);
            assert(all.skip(i as int).drop_first() == all.skip(i + 1));
        }
        let found = extract_in_format(format, line.as_str(), current_year);
        if found.is_some() {
            return found;
        }
        i += 1;
    }
    None
}

/// The date of `text`, read in `current_year`.
pub fn return_date_in_year(text: &str, current_year: i32) -> (r: Option<i64>)
    ensures
        stamp(r) == text_date(text@, current_year as int),
{
    let lines = text_lines_of(text);
    let named = first_date_in(DateFormat::Named, &lines, current_year);
    if named.is_some() {
        return named;
    }
    first_date_in(DateFormat::Numeric, &lines, current_year)
}

/// The date of `text`, read in the year that the clock of the machine gives:
/// [`text_date`] for that year, whichever it is.
pub fn return_date(formatted_text: &str) -> (r: Option<i64>)
    ensures
        exists|year: i32| stamp(r) == #[trigger] text_date(formatted_text@, year as int),
{
    let year = chrono_current_year();
    let found = return_date_in_year(formatted_text, year);
    proof {
        assert(stamp(found) == text_date(formatted_text@, year as int));
    }
    found
}

} // verus!
