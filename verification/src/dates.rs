//! How SQL Server writes dates in its styles, and which texts are such dates.

use crate::text;
use vstd::prelude::*;

verus! {

/// Whether `chrono` reads a date from the text in that format.
pub uninterp spec fn date_parses(text: Seq<char>, format: Seq<char>) -> bool;

/// What stands at a place of a format.
pub enum Part {
    /// A year of four digits.
    Year,
    /// The last two digits of a year from 1970 to 2069.
    ShortYear,
    Month,
    /// The first three letters of the English name of a month.
    MonthName,
    Day,
    /// An hour of the day.
    Hour,
    /// An hour of half a day.
    Hour12,
    Minute,
    Second,
    /// A fraction of a second, after a dot. It may be absent.
    Fraction,
    /// The half of the day.
    Half,
    /// That character itself.
    Mark(char),
}

/// The part that a letter after a percent sign stands for.
pub open spec fn part_of(letter: char) -> Part {
    match letter {
        'Y' => Part::Year,
        'y' => Part::ShortYear,
        'm' => Part::Month,
        'b' => Part::MonthName,
        'd' => Part::Day,
        'H' => Part::Hour,
        'I' => Part::Hour12,
        'M' => Part::Minute,
        'S' => Part::Second,
        'p' => Part::Half,
        _ => Part::Mark(letter),
    }
}

/// The parts of a format, one after the other.
pub open spec fn parts(format: Seq<char>) -> Seq<Part>
    decreases format.len(),
{
    if format.len() == 0 {
        seq![]
    } else if format[0] != '%' || format.len() == 1 {
        seq![Part::Mark(format[0])] + parts(format.skip(1))
    } else if format[1] == '.' && format.len() > 2 {
        seq![Part::Fraction] + parts(format.skip(3))
    } else {
        seq![part_of(format[1])] + parts(format.skip(2))
    }
}

impl Part {
    /// The number of characters that the part takes, none for a fraction.
    pub open spec fn size(self) -> int {
        match self {
            Part::Year => 4,
            Part::MonthName => 3,
            Part::Fraction => 0,
            Part::Mark(_) => 1,
            _ => 2,
        }
    }

    /// The text is written like the part. A day and an hour of half a day may have a space in place
    /// of a leading zero.
    pub open spec fn fits(self, text: Seq<char>) -> bool {
        match self {
            Part::Mark(c) => text == seq![c],
            Part::MonthName => month_number(text) > 0,
            Part::Half => text == "AM"@ || text == "PM"@,
            Part::Fraction => text.len() == 0 || (2 <= text.len() <= 10 && text[0] == '.'
                && all_digits(text.skip(1))),
            Part::Day | Part::Hour12 => text.len() == 2 && (text[0] == ' ' || text::is_digit(
                text[0],
            )) && text::is_digit(text[1]),
            _ => text.len() == self.size() && all_digits(text),
        }
    }

    /// The number that a part of a time denotes is one that a clock shows. A minute may have a
    /// leap second.
    pub open spec fn is_on_clock(self, text: Seq<char>) -> bool {
        match self {
            Part::Hour => number(text) <= 23,
            Part::Hour12 => 1 <= number(text) <= 12,
            Part::Minute => number(text) <= 59,
            Part::Second => number(text) <= 60,
            _ => true,
        }
    }
}

/// Every character is a decimal digit.
pub open spec fn all_digits(text: Seq<char>) -> bool {
    forall|i: int| 0 <= i < text.len() ==> text::is_digit(#[trigger] text[i])
}

/// The number that digits denote, with or without a space before them.
pub open spec fn number(text: Seq<char>) -> nat {
    if text.len() > 0 && text[0] == ' ' {
        text::digits_value(text.skip(1))
    } else {
        text::digits_value(text)
    }
}

/// The number of a month by the first three letters of its name, or zero for other texts.
pub open spec fn month_number(name: Seq<char>) -> nat {
    if name == "Jan"@ {
        1
    } else if name == "Feb"@ {
        2
    } else if name == "Mar"@ {
        3
    } else if name == "Apr"@ {
        4
    } else if name == "May"@ {
        5
    } else if name == "Jun"@ {
        6
    } else if name == "Jul"@ {
        7
    } else if name == "Aug"@ {
        8
    } else if name == "Sep"@ {
        9
    } else if name == "Oct"@ {
        10
    } else if name == "Nov"@ {
        11
    } else if name == "Dec"@ {
        12
    } else {
        0
    }
}

/// The number of characters that the parts take, without a fraction.
pub open spec fn total_size(parts: Seq<Part>) -> int
    decreases parts.len(),
{
    if parts.len() == 0 {
        0
    } else {
        parts[0].size() + total_size(parts.skip(1))
    }
}

/// The number of characters of a text that its first part takes. A fraction takes what the others
/// leave.
pub open spec fn first_size(parts: Seq<Part>, text: Seq<char>) -> int {
    if parts[0] is Fraction {
        text.len() - total_size(parts)
    } else {
        parts[0].size()
    }
}

/// The text is written like the parts, one after the other.
pub open spec fn fits(parts: Seq<Part>, text: Seq<char>) -> bool
    decreases parts.len(),
{
    if parts.len() == 0 {
        text.len() == 0
    } else {
        let size = first_size(parts, text);
        &&& 0 <= size <= text.len()
        &&& parts[0].fits(text.take(size))
        &&& fits(parts.skip(1), text.skip(size))
    }
}

/// A year, a month and a day, whether the calendar has it or not.
pub struct Date {
    pub year: nat,
    pub month: nat,
    pub day: nat,
}

/// The date that a part and what comes behind it say.
pub open spec fn said(part: Part, text: Seq<char>, rest: Date) -> Date {
    match part {
        Part::Year => Date { year: number(text), ..rest },
        Part::ShortYear => Date {
            year: if number(text) < 70 {
                2000 + number(text)
            } else {
                1900 + number(text)
            },
            ..rest
        },
        Part::Month => Date { month: number(text), ..rest },
        Part::MonthName => Date { month: month_number(text), ..rest },
        Part::Day => Date { day: number(text), ..rest },
        _ => rest,
    }
}

/// The date that a text says which is written like the parts.
pub open spec fn date_of(parts: Seq<Part>, text: Seq<char>) -> Date
    decreases parts.len(),
{
    if parts.len() == 0 {
        Date { year: 0, month: 0, day: 0 }
    } else {
        let size = first_size(parts, text);
        said(parts[0], text.take(size), date_of(parts.skip(1), text.skip(size)))
    }
}

/// The time that a text says which is written like the parts is one that a clock shows.
pub open spec fn is_on_clock(parts: Seq<Part>, text: Seq<char>) -> bool
    decreases parts.len(),
{
    parts.len() > 0 ==> {
        let size = first_size(parts, text);
        &&& parts[0].is_on_clock(text.take(size))
        &&& is_on_clock(parts.skip(1), text.skip(size))
    }
}

/// A text that is written like the parts says a day of the calendar and a time of the clock.
pub open spec fn is_real(parts: Seq<Part>, text: Seq<char>) -> bool {
    let date = date_of(parts, text);
    &&& 1 <= date.month <= 12
    &&& 1 <= date.day <= days_in_month(date.year, date.month)
    &&& is_on_clock(parts, text)
}

/// The number of days of a month.
pub open spec fn days_in_month(year: nat, month: nat) -> nat {
    if month == 2 {
        if year % 4 == 0 && (year % 100 != 0 || year % 400 == 0) {
            29
        } else {
            28
        }
    } else if month == 4 || month == 6 || month == 9 || month == 11 {
        30
    } else {
        31
    }
}

/// `c` is a letter of the English alphabet.
pub open spec fn is_letter(c: char) -> bool {
    ('A' <= c && c <= 'Z') || ('a' <= c && c <= 'z')
}

/// No text that is read in the format has `c` in it: it is neither a digit, white space, a sign, a
/// punctuation mark of dates, nor a letter of a format with names or with that letter.
pub open spec fn is_foreign(format: Seq<char>, c: char) -> bool {
    &&& !text::is_digit(c) && !text::is_space(c) && c != '+' && c != '-'
    &&& c != '.' && c != '/' && c != ',' && c != ':'
    &&& is_letter(c) ==> !format.contains('b') && !format.contains('p') && !format.contains(c)
}

/// SQL Server writes dates in that format, in some style.
pub open spec fn is_in_use(format: Seq<char>) -> bool {
    exists|style: int, i: int|
        0 <= i < date_patterns(style).len() && #[trigger] date_patterns(style)[i] == format
}

/// Whether a text is read as a date in a format, as far as it is settled. A text that is written
/// like the parts of the format is read where the calendar has that day and the clock that time. A
/// text is not read that is empty, lacks a mark of the format other than a space, or has a
/// character that is foreign to it.
pub open spec fn is_settled(text: Seq<char>, format: Seq<char>, reads: bool) -> bool {
    &&& fits(parts(format), text) ==> reads == is_real(parts(format), text)
    &&& text.len() == 0 ==> !reads
    &&& forall|c: char| #[trigger]
        parts(format).contains(Part::Mark(c)) && c != ' ' && !text.contains(c) ==> !reads
    &&& forall|i: int| 0 <= i < text.len() && is_foreign(format, #[trigger] text[i]) ==> !reads
}

/// `NaiveDate::parse_from_str`: whether it reads a date from the text in that format. In the formats
/// of SQL Server, a text that is written in full is a date where the calendar has its day and the
/// clock its time, and a text that is empty, without a mark of the format or with a character that
/// no such date has is none. What it makes of other texts and formats is left to the name.
#[verifier::external_body]
fn parses_as_date(text: &str, format: &str) -> (r: bool)
    ensures
        r == date_parses(text@, format@),
        is_in_use(format@) ==> is_settled(text@, format@, r),
{
    chrono::NaiveDate::parse_from_str(text, format).is_ok()
}

/// The formats in which SQL Server writes a column of days, or of days and times, in that style.
/// There are none for styles that write no day, count in another calendar, or do not exist.
pub open spec fn date_patterns(style: int) -> Seq<Seq<char>> {
    if style == 1 {
        seq!["%m/%d/%y"@]
    } else if style == 2 {
        seq!["%y.%m.%d"@]
    } else if style == 3 {
        seq!["%d/%m/%y"@]
    } else if style == 4 {
        seq!["%d.%m.%y"@]
    } else if style == 5 {
        seq!["%d-%m-%y"@]
    } else if style == 6 {
        seq!["%d %b %y"@]
    } else if style == 7 {
        seq!["%b %d, %y"@]
    } else if style == 10 {
        seq!["%m-%d-%y"@]
    } else if style == 11 {
        seq!["%y/%m/%d"@]
    } else if style == 12 {
        seq!["%y%m%d"@]
    } else if style == 22 {
        seq!["%m/%d/%y"@, "%m/%d/%y %I:%M:%S %p"@]
    } else if style == 23 {
        seq!["%Y-%m-%d"@]
    } else if style == 101 {
        seq!["%m/%d/%Y"@]
    } else if style == 102 {
        seq!["%Y.%m.%d"@]
    } else if style == 103 {
        seq!["%d/%m/%Y"@]
    } else if style == 104 {
        seq!["%d.%m.%Y"@]
    } else if style == 105 {
        seq!["%d-%m-%Y"@]
    } else if style == 106 {
        seq!["%d %b %Y"@]
    } else if style == 107 {
        seq!["%b %d, %Y"@]
    } else if style == 110 {
        seq!["%m-%d-%Y"@]
    } else if style == 111 {
        seq!["%Y/%m/%d"@]
    } else if style == 112 {
        seq!["%Y%m%d"@]
    } else if style == 100 {
        seq!["%b %d %Y"@, "%b %d %Y %I:%M%p"@]
    } else if style == 9 || style == 109 {
        seq!["%b %d %Y"@, "%b %d %Y %I:%M:%S%.f%p"@]
    } else if style == 13 || style == 113 {
        seq!["%d %b %Y"@, "%d %b %Y %H:%M:%S%.f"@]
    } else if style == 20 || style == 120 {
        seq!["%Y-%m-%d"@, "%Y-%m-%d %H:%M:%S"@]
    } else if style == 21 || style == 25 || style == 121 {
        seq!["%Y-%m-%d"@, "%Y-%m-%d %H:%M:%S%.f"@]
    } else if style == 126 {
        seq!["%Y-%m-%d"@, "%Y-%m-%dT%H:%M:%S%.f"@]
    } else if style == 127 {
        seq!["%Y-%m-%d"@, "%Y-%m-%dT%H:%M:%S%.f"@, "%Y-%m-%dT%H:%M:%S%.fZ"@]
    } else {
        seq![]
    }
}

/// The characters of each string of a list.
pub open spec fn views(strings: Seq<&'static str>) -> Seq<Seq<char>> {
    strings.map_values(|s: &'static str| s@)
}

/// The list of one format.
fn one(format: &'static str) -> (r: Vec<&'static str>)
    ensures
        views(r@) == seq![format@],
{
    let out: Vec<&'static str> = vec![format];
    assert(views(out@) =~= seq![format@]);
    out
}

/// The list of a format of days, and a format of days and times.
fn two(day: &'static str, time: &'static str) -> (r: Vec<&'static str>)
    ensures
        views(r@) == seq![day@, time@],
{
    let out: Vec<&'static str> = vec![day, time];
    assert(views(out@) =~= seq![day@, time@]);
    out
}

/// The formats in which SQL Server writes a column of days, or of days and times, in that style.
pub fn formats(style: u16) -> (r: Vec<&'static str>)
    ensures
        views(r@) == date_patterns(style as int),
{
    if style == 1 {
        one("%m/%d/%y")
    } else if style == 2 {
        one("%y.%m.%d")
    } else if style == 3 {
        one("%d/%m/%y")
    } else if style == 4 {
        one("%d.%m.%y")
    } else if style == 5 {
        one("%d-%m-%y")
    } else if style == 6 {
        one("%d %b %y")
    } else if style == 7 {
        one("%b %d, %y")
    } else if style == 10 {
        one("%m-%d-%y")
    } else if style == 11 {
        one("%y/%m/%d")
    } else if style == 12 {
        one("%y%m%d")
    } else if style == 22 {
        two("%m/%d/%y", "%m/%d/%y %I:%M:%S %p")
    } else if style == 23 {
        one("%Y-%m-%d")
    } else if style == 101 {
        one("%m/%d/%Y")
    } else if style == 102 {
        one("%Y.%m.%d")
    } else if style == 103 {
        one("%d/%m/%Y")
    } else if style == 104 {
        one("%d.%m.%Y")
    } else if style == 105 {
        one("%d-%m-%Y")
    } else if style == 106 {
        one("%d %b %Y")
    } else if style == 107 {
        one("%b %d, %Y")
    } else if style == 110 {
        one("%m-%d-%Y")
    } else if style == 111 {
        one("%Y/%m/%d")
    } else if style == 112 {
        one("%Y%m%d")
    } else if style == 100 {
        two("%b %d %Y", "%b %d %Y %I:%M%p")
    } else if style == 9 || style == 109 {
        two("%b %d %Y", "%b %d %Y %I:%M:%S%.f%p")
    } else if style == 13 || style == 113 {
        two("%d %b %Y", "%d %b %Y %H:%M:%S%.f")
    } else if style == 20 || style == 120 {
        two("%Y-%m-%d", "%Y-%m-%d %H:%M:%S")
    } else if style == 21 || style == 25 || style == 121 {
        two("%Y-%m-%d", "%Y-%m-%d %H:%M:%S%.f")
    } else if style == 126 {
        two("%Y-%m-%d", "%Y-%m-%dT%H:%M:%S%.f")
    } else if style == 127 {
        let mut out = two("%Y-%m-%d", "%Y-%m-%dT%H:%M:%S%.f");
        let ghost so_far = views(out@);
        out.push("%Y-%m-%dT%H:%M:%S%.fZ");
        assert(views(out@) =~= so_far.push("%Y-%m-%dT%H:%M:%S%.fZ"@));
        assert(views(out@) =~= date_patterns(127));
        out
    } else {
        let out: Vec<&'static str> = Vec::new();
        assert(views(out@) =~= seq![]);
        out
    }
}

/// The text is a date in that style: `chrono` reads a date from it in one of the formats of the
/// style. In a style without formats every text counts but the empty one.
pub open spec fn is_date_text(text: Seq<char>, style: int) -> bool {
    if date_patterns(style).len() == 0 {
        text.len() > 0
    } else {
        exists|i: int|
            0 <= i < date_patterns(style).len() && date_parses(
                text,
                #[trigger] date_patterns(style)[i],
            )
    }
}

/// What the formats of a style make of the text is settled.
pub open spec fn all_follow(text: Seq<char>, style: int) -> bool {
    forall|i: int|
        0 <= i < date_patterns(style).len() ==> follows(text, #[trigger] date_patterns(style)[i])
}

/// What `chrono` makes of the text in a format is settled.
pub open spec fn follows(text: Seq<char>, format: Seq<char>) -> bool {
    is_settled(text, format, date_parses(text, format))
}

/// Whether the text is a date in that style.
pub fn is_date(text: &str, style: u16) -> (r: bool)
    ensures
        r == is_date_text(text@, style as int),
        all_follow(text@, style as int),
{
    let known = formats(style);
    let ghost patterns = date_patterns(style as int);
    if known.len() == 0 {
        assert(patterns.len() == 0);
        return !text.is_empty();
    }
    let mut found: bool = false;
    let mut i: usize = 0;
    while i < known.len()
        invariant
            i <= known@.len(),
            patterns == date_patterns(style as int),
            views(known@) == patterns,
            found == exists|j: int| 0 <= j < i && date_parses(text@, #[trigger] patterns[j]),
            forall|j: int| 0 <= j < i ==> follows(text@, #[trigger] patterns[j]),
        decreases known@.len() - i,
    {
        assert(patterns[i as int] == known@[i as int]@);
        let reads: bool = parses_as_date(text, known[i]);
        found = found || reads;
        i += 1;
    }
    found
}

/// The formats of each style: the day, the month and the year in the order of the country that the
/// style is named for, with the year in two digits below 100 and in four above, and a time behind it
/// where the style writes one.
pub proof fn law_formats_of_styles(style: int)
    ensures
        style == 1 ==> date_patterns(style) == seq!["%m/%d/%y"@],
        style == 2 ==> date_patterns(style) == seq!["%y.%m.%d"@],
        style == 3 ==> date_patterns(style) == seq!["%d/%m/%y"@],
        style == 4 ==> date_patterns(style) == seq!["%d.%m.%y"@],
        style == 5 ==> date_patterns(style) == seq!["%d-%m-%y"@],
        style == 6 ==> date_patterns(style) == seq!["%d %b %y"@],
        style == 7 ==> date_patterns(style) == seq!["%b %d, %y"@],
        style == 9 || style == 109 ==> date_patterns(style) == seq!["%b %d %Y"@, "%b %d %Y %I:%M:%S%.f%p"@],
        style == 10 ==> date_patterns(style) == seq!["%m-%d-%y"@],
        style == 11 ==> date_patterns(style) == seq!["%y/%m/%d"@],
        style == 12 ==> date_patterns(style) == seq!["%y%m%d"@],
        style == 13 || style == 113 ==> date_patterns(style) == seq!["%d %b %Y"@, "%d %b %Y %H:%M:%S%.f"@],
        style == 20 || style == 120 ==> date_patterns(style) == seq!["%Y-%m-%d"@, "%Y-%m-%d %H:%M:%S"@],
        style == 21 || style == 25 || style == 121 ==> date_patterns(style) == seq!["%Y-%m-%d"@, "%Y-%m-%d %H:%M:%S%.f"@],
        style == 22 ==> date_patterns(style) == seq!["%m/%d/%y"@, "%m/%d/%y %I:%M:%S %p"@],
        style == 23 ==> date_patterns(style) == seq!["%Y-%m-%d"@],
        style == 100 ==> date_patterns(style) == seq!["%b %d %Y"@, "%b %d %Y %I:%M%p"@],
        style == 101 ==> date_patterns(style) == seq!["%m/%d/%Y"@],
        style == 102 ==> date_patterns(style) == seq!["%Y.%m.%d"@],
        style == 103 ==> date_patterns(style) == seq!["%d/%m/%Y"@],
        style == 104 ==> date_patterns(style) == seq!["%d.%m.%Y"@],
        style == 105 ==> date_patterns(style) == seq!["%d-%m-%Y"@],
        style == 106 ==> date_patterns(style) == seq!["%d %b %Y"@],
        style == 107 ==> date_patterns(style) == seq!["%b %d, %Y"@],
        style == 110 ==> date_patterns(style) == seq!["%m-%d-%Y"@],
        style == 111 ==> date_patterns(style) == seq!["%Y/%m/%d"@],
        style == 112 ==> date_patterns(style) == seq!["%Y%m%d"@],
        style == 126 ==> date_patterns(style) == seq!["%Y-%m-%d"@, "%Y-%m-%dT%H:%M:%S%.f"@],
        style == 127 ==> date_patterns(style) == seq!["%Y-%m-%d"@, "%Y-%m-%dT%H:%M:%S%.f"@, "%Y-%m-%dT%H:%M:%S%.fZ"@],
        (style != 1 && style != 2 && style != 3 && style != 4 && style != 5 && style != 6 && style != 7 && style != 9 && style != 10 && style != 11 && style != 12 && style != 13 && style != 20 && style != 21 && style != 22 && style != 23 && style != 25 && style != 100 && style != 101 && style != 102 && style != 103 && style != 104 && style != 105 && style != 106 && style != 107 && style != 109 && style != 110 && style != 111 && style != 112 && style != 113 && style != 120 && style != 121 && style != 126 && style != 127) ==> date_patterns(style).len() == 0,
{
}

/// The list of texts holds the characters of each string, in the same place.
pub proof fn law_views_keep_places(strings: Seq<&'static str>, i: int)
    requires
        0 <= i < strings.len(),
    ensures
        views(strings).len() == strings.len(),
        views(strings)[i] == strings[i]@,
{
}

/// A text is a date in a style where it is read in one of the formats of the style, and in a style
/// without formats where it is not empty.
pub proof fn law_one_format_is_enough(text: Seq<char>, style: int, k: int)
    ensures
        0 <= k < date_patterns(style).len() && date_parses(text, date_patterns(style)[k])
            ==> is_date_text(text, style),
        date_patterns(style).len() > 0 && (forall|i: int|
            0 <= i < date_patterns(style).len() ==> !date_parses(
                text,
                #[trigger] date_patterns(style)[i],
            )) ==> !is_date_text(text, style),
        date_patterns(style).len() == 0 ==> (is_date_text(text, style) <==> text.len() > 0),
{
}

/// What is written like a part and what is written like others behind it are written like all of
/// them.
proof fn lemma_part_before(part: Part, rest: Seq<Part>, a: Seq<char>, t: Seq<char>)
    requires
        part !is Fraction,
        part.fits(a),
        part.size() == a.len(),
    ensures
        fits(seq![part] + rest, a + t) == fits(rest, t),
        date_of(seq![part] + rest, a + t) == said(part, a, date_of(rest, t)),
        is_on_clock(seq![part] + rest, a + t) == (part.is_on_clock(a) && is_on_clock(rest, t)),
{
    let all = seq![part] + rest;
    let text = a + t;
    let size = a.len() as int;
    assert(all.skip(1) =~= rest);
    assert(text.take(size) =~= a);
    assert(text.skip(size) =~= t);
    assert(first_size(all, text) == size);
}

/// A format of three parts with a mark between them, and a text of three pieces that are written
/// like them, with that mark between them.
proof fn lemma_three_parts(
    format: Seq<char>,
    letters: (char, char, char),
    mark: char,
    pieces: (Seq<char>, Seq<char>, Seq<char>),
)
    requires
        format == seq!['%', letters.0, mark, '%', letters.1, mark, '%', letters.2],
        mark != '%',
        letters.0 != '.' && letters.1 != '.' && letters.2 != '.',
        part_of(letters.0).fits(pieces.0) && part_of(letters.0).size() == pieces.0.len(),
        part_of(letters.1).fits(pieces.1) && part_of(letters.1).size() == pieces.1.len(),
        part_of(letters.2).fits(pieces.2) && part_of(letters.2).size() == pieces.2.len(),
    ensures
        ({
            let text = pieces.0 + seq![mark] + pieces.1 + seq![mark] + pieces.2;
            let (a, b, c) = (part_of(letters.0), part_of(letters.1), part_of(letters.2));
            let nothing = Date { year: 0, month: 0, day: 0 };
            &&& fits(parts(format), text)
            &&& date_of(parts(format), text) == said(
                a,
                pieces.0,
                said(b, pieces.1, said(c, pieces.2, nothing)),
            )
            &&& is_on_clock(parts(format), text) == (a.is_on_clock(pieces.0) && b.is_on_clock(
                pieces.1,
            ) && c.is_on_clock(pieces.2))
        }),
{
    let (a, b, c) = (part_of(letters.0), part_of(letters.1), part_of(letters.2));
    let (x, y, z) = pieces;
    let between = Part::Mark(mark);
    assert(parts(format) =~= seq![a] + (seq![between] + (seq![b] + (seq![between] + (seq![c]
        + seq![]))))) by {
        reveal_with_fuel(parts, 6);
        assert(format.skip(2).skip(1).skip(2).skip(1).skip(2) =~= seq![]);
    }
    let none = Seq::<char>::empty();
    let no_part = Seq::<Part>::empty();
    let t4 = z + none;
    let t3 = seq![mark] + t4;
    let t2 = y + t3;
    let t1 = seq![mark] + t2;
    assert(x + seq![mark] + y + seq![mark] + z =~= x + t1);
    let p4 = seq![c] + no_part;
    let p3 = seq![between] + p4;
    let p2 = seq![b] + p3;
    let p1 = seq![between] + p2;
    lemma_part_before(c, no_part, z, none);
    lemma_part_before(between, p4, seq![mark], t4);
    lemma_part_before(b, p3, y, t3);
    lemma_part_before(between, p2, seq![mark], t2);
    lemma_part_before(a, p1, x, t1);
}

/// A number below a hundred in two digits.
pub open spec fn two_digits(n: nat) -> Seq<char> {
    seq![text::digit(n / 10), text::digit(n % 10)]
}

/// A number below ten thousand in four digits.
pub open spec fn four_digits(n: nat) -> Seq<char> {
    seq![
        text::digit(n / 1000),
        text::digit(n / 100 % 10),
        text::digit(n / 10 % 10),
        text::digit(n % 10),
    ]
}

/// Two digits denote the number that is written in them.
proof fn lemma_written_numbers(n: nat)
    requires
        n < 100,
    ensures
        number(two_digits(n)) == n,
        all_digits(two_digits(n)),
        two_digits(n).len() == 2,
        text::is_digit(two_digits(n)[0]) && text::is_digit(two_digits(n)[1]),
{
    let s = two_digits(n);
    reveal_with_fuel(text::digits_value, 3);
    assert(s.drop_last() =~= seq![text::digit(n / 10)]);
    assert(s.drop_last().drop_last() =~= seq![]);
}

/// Four digits denote the number that is written in them.
proof fn lemma_written_year(n: nat)
    requires
        n < 10000,
    ensures
        number(four_digits(n)) == n,
        all_digits(four_digits(n)),
        four_digits(n).len() == 4,
{
    let s = four_digits(n);
    reveal_with_fuel(text::digits_value, 5);
    assert(s.drop_last() =~= seq![
        text::digit(n / 1000),
        text::digit(n / 100 % 10),
        text::digit(n / 10 % 10),
    ]);
    assert(s.drop_last().drop_last() =~= seq![text::digit(n / 1000), text::digit(n / 100 % 10)]);
    assert(s.drop_last().drop_last().drop_last() =~= seq![text::digit(n / 1000)]);
    assert(s.drop_last().drop_last().drop_last().drop_last() =~= seq![]);
}

/// A month has 31 days, but for four months of 30 days, and for February, which has 29 in a leap year
/// and 28 in others.
pub proof fn law_calendar(year: nat, month: nat)
    ensures
        month == 1 || month == 3 || month == 5 || month == 7 || month == 8 || month == 10 || month
            == 12 ==> days_in_month(year, month) == 31,
        month == 4 || month == 6 || month == 9 || month == 11 ==> days_in_month(year, month) == 30,
        year % 400 == 0 ==> days_in_month(year, 2) == 29,
        year % 100 == 0 && year % 400 != 0 ==> days_in_month(year, 2) == 28,
        year % 4 == 0 && year % 100 != 0 ==> days_in_month(year, 2) == 29,
        year % 4 != 0 ==> days_in_month(year, 2) == 28,
{
    assert(year % 400 == 0 ==> year % 4 == 0) by (nonlinear_arith);
}

/// In these styles the day comes first, and then the month and the year: a text is a date where the
/// calendar has that day.
pub proof fn law_days_before_months(style: int, mark: char, year: nat, month: nat, day: nat)
    requires
        (style == 103 && mark == '/') || (style == 104 && mark == '.') || (style == 105 && mark == '-') || (style == 3 && mark == '/') || (style == 4 && mark == '.') || (style == 5 && mark == '-'),
        day < 100 && month < 100 && year < 10000,
    ensures
        ((style == 103 && mark == '/') || (style == 104 && mark == '.') || (style == 105 && mark == '-')) && all_follow(two_digits(day) + seq![mark] + two_digits(month) + seq![mark] + four_digits(year), style) ==> is_date_text(
            two_digits(day) + seq![mark] + two_digits(month) + seq![mark] + four_digits(year),
            style,
        ) == (1 <= month <= 12 && 1 <= day <= days_in_month(year, month)),
        ((style == 3 && mark == '/') || (style == 4 && mark == '.') || (style == 5 && mark == '-')) && 1970 <= year <= 2069 && all_follow(two_digits(day) + seq![mark] + two_digits(month) + seq![mark] + two_digits(year % 100), style) ==> is_date_text(
            two_digits(day) + seq![mark] + two_digits(month) + seq![mark] + two_digits(year % 100),
            style,
        ) == (1 <= month <= 12 && 1 <= day <= days_in_month(year, month)),
{
    lemma_written_numbers(day);
    lemma_written_numbers(month);
    lemma_written_numbers(year % 100);
    lemma_written_year(year);
    let format = date_patterns(style)[0];
    reveal_strlit("%d/%m/%Y");
    reveal_strlit("%d.%m.%Y");
    reveal_strlit("%d-%m-%Y");
    reveal_strlit("%d/%m/%y");
    reveal_strlit("%d.%m.%y");
    reveal_strlit("%d-%m-%y");
    if (style == 103 && mark == '/') || (style == 104 && mark == '.') || (style == 105 && mark == '-') {
        assert(format =~= seq!['%', 'd', mark, '%', 'm', mark, '%', 'Y']);
        lemma_three_parts(format, ('d', 'm', 'Y'), mark, (two_digits(day), two_digits(month), four_digits(year)));
        let text = two_digits(day) + seq![mark] + two_digits(month) + seq![mark] + four_digits(year);
        if all_follow(text, style) {
            law_calendar_days_are_dates(text, style, 0);
        }
    } else if 1970 <= year <= 2069 {
        assert(format =~= seq!['%', 'd', mark, '%', 'm', mark, '%', 'y']);
        lemma_three_parts(format, ('d', 'm', 'y'), mark, (two_digits(day), two_digits(month), two_digits(year % 100)));
        let text = two_digits(day) + seq![mark] + two_digits(month) + seq![mark] + two_digits(year % 100);
        if all_follow(text, style) {
            law_calendar_days_are_dates(text, style, 0);
        }
    }
}

/// In these styles the month comes first, and then the day and the year: a text is a date where the
/// calendar has that day.
pub proof fn law_months_before_days(style: int, mark: char, year: nat, month: nat, day: nat)
    requires
        (style == 101 && mark == '/') || (style == 110 && mark == '-') || (style == 1 && mark == '/') || (style == 10 && mark == '-'),
        day < 100 && month < 100 && year < 10000,
    ensures
        ((style == 101 && mark == '/') || (style == 110 && mark == '-')) && all_follow(two_digits(month) + seq![mark] + two_digits(day) + seq![mark] + four_digits(year), style) ==> is_date_text(
            two_digits(month) + seq![mark] + two_digits(day) + seq![mark] + four_digits(year),
            style,
        ) == (1 <= month <= 12 && 1 <= day <= days_in_month(year, month)),
        ((style == 1 && mark == '/') || (style == 10 && mark == '-')) && 1970 <= year <= 2069 && all_follow(two_digits(month) + seq![mark] + two_digits(day) + seq![mark] + two_digits(year % 100), style) ==> is_date_text(
            two_digits(month) + seq![mark] + two_digits(day) + seq![mark] + two_digits(year % 100),
            style,
        ) == (1 <= month <= 12 && 1 <= day <= days_in_month(year, month)),
{
    lemma_written_numbers(day);
    lemma_written_numbers(month);
    lemma_written_numbers(year % 100);
    lemma_written_year(year);
    let format = date_patterns(style)[0];
    reveal_strlit("%m/%d/%Y");
    reveal_strlit("%m-%d-%Y");
    reveal_strlit("%m/%d/%y");
    reveal_strlit("%m-%d-%y");
    if (style == 101 && mark == '/') || (style == 110 && mark == '-') {
        assert(format =~= seq!['%', 'm', mark, '%', 'd', mark, '%', 'Y']);
        lemma_three_parts(format, ('m', 'd', 'Y'), mark, (two_digits(month), two_digits(day), four_digits(year)));
        let text = two_digits(month) + seq![mark] + two_digits(day) + seq![mark] + four_digits(year);
        if all_follow(text, style) {
            law_calendar_days_are_dates(text, style, 0);
        }
    } else if 1970 <= year <= 2069 {
        assert(format =~= seq!['%', 'm', mark, '%', 'd', mark, '%', 'y']);
        lemma_three_parts(format, ('m', 'd', 'y'), mark, (two_digits(month), two_digits(day), two_digits(year % 100)));
        let text = two_digits(month) + seq![mark] + two_digits(day) + seq![mark] + two_digits(year % 100);
        if all_follow(text, style) {
            law_calendar_days_are_dates(text, style, 0);
        }
    }
}

/// In these styles the year comes first, and then the month and the day: a text is a date where the
/// calendar has that day.
pub proof fn law_years_before_months(style: int, mark: char, year: nat, month: nat, day: nat)
    requires
        (style == 23 && mark == '-') || (style == 102 && mark == '.') || (style == 111 && mark == '/') || (style == 2 && mark == '.') || (style == 11 && mark == '/'),
        day < 100 && month < 100 && year < 10000,
    ensures
        ((style == 23 && mark == '-') || (style == 102 && mark == '.') || (style == 111 && mark == '/')) && all_follow(four_digits(year) + seq![mark] + two_digits(month) + seq![mark] + two_digits(day), style) ==> is_date_text(
            four_digits(year) + seq![mark] + two_digits(month) + seq![mark] + two_digits(day),
            style,
        ) == (1 <= month <= 12 && 1 <= day <= days_in_month(year, month)),
        ((style == 2 && mark == '.') || (style == 11 && mark == '/')) && 1970 <= year <= 2069 && all_follow(two_digits(year % 100) + seq![mark] + two_digits(month) + seq![mark] + two_digits(day), style) ==> is_date_text(
            two_digits(year % 100) + seq![mark] + two_digits(month) + seq![mark] + two_digits(day),
            style,
        ) == (1 <= month <= 12 && 1 <= day <= days_in_month(year, month)),
{
    lemma_written_numbers(day);
    lemma_written_numbers(month);
    lemma_written_numbers(year % 100);
    lemma_written_year(year);
    let format = date_patterns(style)[0];
    reveal_strlit("%Y-%m-%d");
    reveal_strlit("%Y.%m.%d");
    reveal_strlit("%Y/%m/%d");
    reveal_strlit("%y.%m.%d");
    reveal_strlit("%y/%m/%d");
    if (style == 23 && mark == '-') || (style == 102 && mark == '.') || (style == 111 && mark == '/') {
        assert(format =~= seq!['%', 'Y', mark, '%', 'm', mark, '%', 'd']);
        lemma_three_parts(format, ('Y', 'm', 'd'), mark, (four_digits(year), two_digits(month), two_digits(day)));
        let text = four_digits(year) + seq![mark] + two_digits(month) + seq![mark] + two_digits(day);
        if all_follow(text, style) {
            law_calendar_days_are_dates(text, style, 0);
        }
    } else if 1970 <= year <= 2069 {
        assert(format =~= seq!['%', 'y', mark, '%', 'm', mark, '%', 'd']);
        lemma_three_parts(format, ('y', 'm', 'd'), mark, (two_digits(year % 100), two_digits(month), two_digits(day)));
        let text = two_digits(year % 100) + seq![mark] + two_digits(month) + seq![mark] + two_digits(day);
        if all_follow(text, style) {
            law_calendar_days_are_dates(text, style, 0);
        }
    }
}

/// A text that is written like a format of the style is a date where the calendar has its day and
/// the clock its time. In a style of one format it is none otherwise.
pub proof fn law_calendar_days_are_dates(text: Seq<char>, style: int, k: int)
    requires
        all_follow(text, style),
        0 <= k < date_patterns(style).len(),
        fits(parts(date_patterns(style)[k]), text),
    ensures
        is_real(parts(date_patterns(style)[k]), text) ==> is_date_text(text, style),
        date_patterns(style).len() == 1 ==> is_date_text(text, style) == is_real(
            parts(date_patterns(style)[k]),
            text,
        ),
{
    assert(follows(text, date_patterns(style)[k]));
}

/// An empty text is no date in any style, nor is one with a character that is foreign to every
/// format of the style.
pub proof fn law_foreign_texts_are_no_dates(text: Seq<char>, style: int, at: int)
    requires
        all_follow(text, style),
        text.len() == 0 || (date_patterns(style).len() > 0 && 0 <= at < text.len() && forall|k: int|
            0 <= k < date_patterns(style).len() ==> is_foreign(
                #[trigger] date_patterns(style)[k],
                text[at],
            )),
    ensures
        !is_date_text(text, style),
{
    assert forall|k: int| 0 <= k < date_patterns(style).len() implies !date_parses(
        text,
        #[trigger] date_patterns(style)[k],
    ) by {
        assert(follows(text, date_patterns(style)[k]));
    }
}

} // verus!
