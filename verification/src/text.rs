//! Operations on text, seen as sequences of characters.

use vstd::prelude::*;
use vstd::string::*;

verus! {

/// `needle` stands in `hay`, starting at position `at`.
pub open spec fn stands_at(hay: Seq<char>, needle: Seq<char>, at: int) -> bool {
    0 <= at && at + needle.len() <= hay.len() && hay.subrange(at, at + needle.len()) == needle
}

/// `needle` stands somewhere in `hay`.
pub open spec fn occurs(hay: Seq<char>, needle: Seq<char>) -> bool {
    exists|at: int| stands_at(hay, needle, at)
}

/// The characters of each string of a list.
pub open spec fn texts(strings: Seq<String>) -> Seq<Seq<char>> {
    strings.map_values(|s: String| s@)
}

/// The parts one after the other, with `separator` between neighbours.
pub open spec fn joined(parts: Seq<Seq<char>>, separator: Seq<char>) -> Seq<char>
    decreases parts.len(),
{
    if parts.len() <= 1 {
        if parts.len() == 1 {
            parts[0]
        } else {
            seq![]
        }
    } else {
        joined(parts.drop_last(), separator) + separator + parts.last()
    }
}

/// The text with every occurrence of `c` taken out.
pub open spec fn without(text: Seq<char>, c: char) -> Seq<char>
    decreases text.len(),
{
    if text.len() == 0 {
        text
    } else if text.last() == c {
        without(text.drop_last(), c)
    } else {
        without(text.drop_last(), c).push(text.last())
    }
}

/// The pieces of a text between the places where `c` stands.
pub open spec fn pieces(text: Seq<char>, c: char) -> Seq<Seq<char>>
    decreases text.len(),
{
    if text.len() == 0 {
        seq![seq![]]
    } else {
        let earlier = pieces(text.drop_last(), c);
        if text.last() == c {
            earlier.push(seq![])
        } else {
            earlier.update(earlier.len() - 1, earlier.last().push(text.last()))
        }
    }
}

/// The first position of `c` in a text, or the text's length where it does not occur.
pub open spec fn position(text: Seq<char>, c: char) -> int
    decreases text.len(),
{
    if text.len() == 0 {
        0
    } else {
        let earlier = position(text.drop_last(), c);
        if earlier < text.len() - 1 || text.last() == c {
            earlier
        } else {
            text.len() as int
        }
    }
}

/// `c` is white space in the sense of Unicode.
pub open spec fn is_space(c: char) -> bool {
    ||| c == ' '
    ||| '\t' <= c && c <= '\r'
    ||| c == '\u{85}'
    ||| c == '\u{a0}'
    ||| c == '\u{1680}'
    ||| '\u{2000}' <= c && c <= '\u{200a}'
    ||| c == '\u{2028}'
    ||| c == '\u{2029}'
    ||| c == '\u{202f}'
    ||| c == '\u{205f}'
    ||| c == '\u{3000}'
}

/// The text without the white space at its start.
pub open spec fn trimmed_start(text: Seq<char>) -> Seq<char>
    decreases text.len(),
{
    if text.len() > 0 && is_space(text[0]) {
        trimmed_start(text.skip(1))
    } else {
        text
    }
}

/// The text without the white space at its end.
pub open spec fn trimmed_end(text: Seq<char>) -> Seq<char>
    decreases text.len(),
{
    if text.len() > 0 && is_space(text.last()) {
        trimmed_end(text.drop_last())
    } else {
        text
    }
}

/// The text without the white space around it.
pub open spec fn trimmed(text: Seq<char>) -> Seq<char> {
    trimmed_end(trimmed_start(text))
}

/// The decimal digit for `d`, a number below ten.
pub open spec fn digit(d: nat) -> char {
    (48 + d) as char
}

/// The decimal digits of `n`, without leading zeros.
pub open spec fn digits(n: nat) -> Seq<char>
    decreases n,
{
    if n < 10 {
        seq![digit(n)]
    } else {
        digits(n / 10).push(digit(n % 10))
    }
}

/// The decimal notation of `n`.
pub open spec fn decimal(n: int) -> Seq<char> {
    if n < 0 {
        seq!['-'] + digits((-n) as nat)
    } else {
        digits(n as nat)
    }
}

/// `c` is one of the ten decimal digits.
pub open spec fn is_digit(c: char) -> bool {
    '0' <= c && c <= '9'
}

/// The number that a sequence of decimal digits denotes.
pub open spec fn digits_value(s: Seq<char>) -> nat
    decreases s.len(),
{
    if s.len() == 0 {
        0
    } else {
        (digits_value(s.drop_last()) * 10 + (s.last() as nat - 48)) as nat
    }
}

/// The number that a text of one or more decimal digits denotes.
pub open spec fn whole_number(s: Seq<char>) -> Option<nat> {
    if s.len() > 0 && (forall|i: int| 0 <= i < s.len() ==> is_digit(#[trigger] s[i])) {
        Some(digits_value(s))
    } else {
        None
    }
}

/// The number that decimal digits, with or without a sign before them, denote.
pub open spec fn signed_number(s: Seq<char>) -> Option<int> {
    if s.len() > 0 && s[0] == '-' {
        match whole_number(s.skip(1)) {
            Some(n) => Some(-n),
            None => None,
        }
    } else {
        match unsigned_number(s) {
            Some(n) => Some(n as int),
            None => None,
        }
    }
}

/// The number that decimal digits, with or without a plus sign before them, denote.
pub open spec fn unsigned_number(s: Seq<char>) -> Option<nat> {
    if s.len() > 0 && s[0] == '+' {
        whole_number(s.skip(1))
    } else {
        whole_number(s)
    }
}

/// The number that a text denotes as an `i32`, if it denotes one in range.
pub open spec fn i32_of(s: Seq<char>) -> Option<i32> {
    match signed_number(s) {
        Some(n) => if i32::MIN <= n <= i32::MAX {
            Some(n as i32)
        } else {
            None
        },
        None => None,
    }
}

/// The number that a text denotes as a `u16`, if it denotes one in range.
pub open spec fn u16_of(s: Seq<char>) -> Option<u16> {
    match unsigned_number(s) {
        Some(n) => if n <= u16::MAX {
            Some(n as u16)
        } else {
            None
        },
        None => None,
    }
}

/// The number that a text denotes as a `usize`, if it denotes one in range.
pub open spec fn usize_of(s: Seq<char>) -> Option<usize> {
    match unsigned_number(s) {
        Some(n) => if n <= usize::MAX {
            Some(n as usize)
        } else {
            None
        },
        None => None,
    }
}

/// The characters of a string, one by one.
pub fn characters(s: &str) -> (r: Vec<char>)
    ensures
        r@ == s@,
{
    let mut out: Vec<char> = Vec::new();
    for c in it: s.chars()
        invariant
            it.seq() == s@,
            out@ == s@.take(it.index() as int),
    {
        out.push(c);
    }
    out
}

/// Whether `needle` stands in `hay` at position `at`.
fn is_at(hay: &Vec<char>, needle: &Vec<char>, at: usize) -> (r: bool)
    requires
        at + needle@.len() <= hay@.len(),
    ensures
        r == stands_at(hay@, needle@, at as int),
{
    let size: usize = hay.len();
    let mut i: usize = 0;
    while i < needle.len()
        invariant
            i <= needle@.len(),
            at + needle@.len() <= size,
            size == hay@.len(),
            forall|j: int| 0 <= j < i ==> hay@[at + j] == needle@[j],
        decreases needle@.len() - i,
    {
        if hay[at + i] != needle[i] {
            assert(hay@.subrange(at as int, at + needle@.len())[i as int] != needle@[i as int]);
            return false;
        }
        i += 1;
    }
    assert(hay@.subrange(at as int, at + needle@.len()) =~= needle@);
    true
}

/// Whether `needle` stands somewhere in `hay`.
pub fn contains(hay: &str, needle: &str) -> (r: bool)
    ensures
        r == occurs(hay@, needle@),
{
    let h = characters(hay);
    let n = characters(needle);
    if n.len() > h.len() {
        return false;
    }
    let last: usize = h.len() - n.len();
    let mut at: usize = 0;
    while at <= last
        invariant
            h@ == hay@,
            n@ == needle@,
            last == h@.len() - n@.len(),
            at <= last + 1,
            forall|j: int| 0 <= j < at ==> !stands_at(h@, n@, j),
        decreases last + 1 - at,
    {
        if is_at(&h, &n, at) {
            return true;
        }
        if at == last {
            return false;
        }
        at += 1;
    }
    false
}

/// Whether two strings hold the same text.
pub fn same_text(a: &str, b: &str) -> (r: bool)
    ensures
        r == (a@ == b@),
{
    let x = characters(a);
    let y = characters(b);
    if x.len() != y.len() {
        return false;
    }
    let r = is_at(&x, &y, 0);
    assert(x@.subrange(0, y@.len() as int) =~= x@);
    r
}

/// The strings one after the other, with `separator` between neighbours.
pub fn join(parts: &Vec<String>, separator: &str) -> (r: String)
    ensures
        r@ == joined(texts(parts@), separator@),
{
    let mut out = String::new();
    let mut i: usize = 0;
    while i < parts.len()
        invariant
            i <= parts@.len(),
            out@ == joined(texts(parts@).take(i as int), separator@),
        decreases parts@.len() - i,
    {
        proof {
            assert(texts(parts@).take(i + 1).drop_last() =~= texts(parts@).take(i as int));
            assert(texts(parts@).take(i + 1).last() == parts@[i as int]@);
        }
        if i > 0 {
            out.append(separator);
        }
        out.append(parts[i].as_str());
        i += 1;
    }
    assert(texts(parts@).take(i as int) =~= texts(parts@));
    out
}

/// The text without its double quotes.
pub fn strip_quotes(text: &str) -> (r: String)
    ensures
        r@ == without(text@, '"'),
{
    let all = characters(text);
    let mut out = String::new();
    let mut i: usize = 0;
    while i < all.len()
        invariant
            i <= all@.len(),
            all@ == text@,
            out@ == without(text@.take(i as int), '"'),
        decreases all@.len() - i,
    {
        proof {
            assert(text@.take(i + 1).drop_last() =~= text@.take(i as int));
            assert(text@.take(i + 1).last() == text@[i as int]);
            assert(text@.subrange(i as int, i + 1) =~= seq![text@[i as int]]);
        }
        if all[i] != '"' {
            let ghost before = out@;
            out.append(text.substring_char(i, i + 1));
            assert(before + seq![text@[i as int]] =~= before.push(text@[i as int]));
        }
        i += 1;
    }
    assert(text@.take(i as int) =~= text@);
    out
}

/// The pieces of a text between the places where `c` stands.
pub fn split(text: &str, c: char) -> (r: Vec<String>)
    ensures
        texts(r@) == pieces(text@, c),
        r@.len() > 0,
{
    let all = characters(text);
    let mut out: Vec<String> = Vec::new();
    let mut start: usize = 0;
    let mut i: usize = 0;
    assert(text@.subrange(0, 0) =~= seq![]);
    assert(pieces(text@.take(0), c) =~= texts(out@).push(seq![]));
    while i < all.len()
        invariant
            start <= i <= all@.len(),
            all@ == text@,
            pieces(text@.take(i as int), c) == texts(out@).push(text@.subrange(start as int, i as int)),
        decreases all@.len() - i,
    {
        let ghost known = texts(out@);
        proof {
            assert(text@.take(i + 1).drop_last() =~= text@.take(i as int));
            assert(text@.take(i + 1).last() == text@[i as int]);
            let last = text@.subrange(start as int, i as int);
            assert(known.push(last).update(known.len() as int, last.push(text@[i as int])) =~= known.push(
                last.push(text@[i as int]),
            ));
            assert(last.push(text@[i as int]) =~= text@.subrange(start as int, i + 1));
        }
        if all[i] == c {
            out.push(text.substring_char(start, i).to_owned());
            start = i + 1;
            assert(texts(out@) =~= known.push(out@.last()@));
            assert(text@.subrange(start as int, i + 1) =~= seq![]);
        }
        i += 1;
    }
    let ghost known = texts(out@);
    out.push(text.substring_char(start, i).to_owned());
    assert(texts(out@) =~= known.push(out@.last()@));
    assert(text@.take(i as int) =~= text@);
    out
}

/// The first position of `c` in a text, or the text's length where it does not occur.
pub fn find(text: &str, c: char) -> (r: usize)
    ensures
        r == position(text@, c),
        r <= text@.len(),
        r < text@.len() <==> text@.contains(c),
{
    let all = characters(text);
    let mut i: usize = 0;
    let mut found: Option<usize> = None;
    while i < all.len()
        invariant
            i <= all@.len(),
            all@ == text@,
            match found {
                Some(p) => p < i && text@[p as int] == c && position(text@.take(i as int), c) == p,
                None => position(text@.take(i as int), c) == i && forall|j: int|
                    0 <= j < i ==> text@[j] != c,
            },
        decreases all@.len() - i,
    {
        proof {
            assert(text@.take(i + 1).drop_last() =~= text@.take(i as int));
            assert(text@.take(i + 1).last() == text@[i as int]);
        }
        if found.is_none() && all[i] == c {
            found = Some(i);
        }
        i += 1;
    }
    assert(text@.take(i as int) =~= text@);
    match found {
        Some(p) => p,
        None => i,
    }
}

/// The decimal digit for a number below ten.
fn digit_text(d: u32) -> (r: &'static str)
    requires
        d < 10,
    ensures
        r@ == seq![digit(d as nat)],
{
    proof {
        reveal_strlit("0");
        reveal_strlit("1");
        reveal_strlit("2");
        reveal_strlit("3");
        reveal_strlit("4");
        reveal_strlit("5");
        reveal_strlit("6");
        reveal_strlit("7");
        reveal_strlit("8");
        reveal_strlit("9");
    }
    if d == 0 {
        "0"
    } else if d == 1 {
        "1"
    } else if d == 2 {
        "2"
    } else if d == 3 {
        "3"
    } else if d == 4 {
        "4"
    } else if d == 5 {
        "5"
    } else if d == 6 {
        "6"
    } else if d == 7 {
        "7"
    } else if d == 8 {
        "8"
    } else {
        "9"
    }
}

/// Writes the decimal digits of `n` at the end of `out`.
fn append_digits(out: &mut String, n: u32)
    ensures
        final(out)@ == old(out)@ + digits(n as nat),
    decreases n,
{
    if n >= 10 {
        append_digits(out, n / 10);
        out.append(digit_text(n % 10));
        assert(out@ =~= old(out)@ + digits(n as nat));
    } else {
        out.append(digit_text(n));
    }
}

/// The decimal notation of `n`.
pub fn decimal_text(n: i32) -> (r: String)
    ensures
        r@ == decimal(n as int),
{
    if n < 0 {
        let magnitude: i64 = -(n as i64);
        let mut out = String::from_str("-");
        proof {
            reveal_strlit("-");
        }
        append_digits(&mut out, magnitude as u32);
        assert(out@ =~= decimal(n as int));
        out
    } else {
        let mut out = String::new();
        append_digits(&mut out, n as u32);
        assert(out@ =~= decimal(n as int));
        out
    }
}

/// The number that the characters from `from` on denote, where it is at most `limit`.
fn number_from(all: &Vec<char>, from: usize, limit: u64) -> (r: Option<u64>)
    requires
        from <= all@.len(),
    ensures
        r == (match whole_number(all@.skip(from as int)) {
            Some(n) => if n <= limit {
                Some(n as u64)
            } else {
                None::<u64>
            },
            None => None::<u64>,
        }),
{
    if from == all.len() {
        return None;
    }
    let ghost s = all@.skip(from as int);
    let mut value: u128 = 0;
    let mut over: bool = false;
    let mut i: usize = from;
    while i < all.len()
        invariant
            from <= i <= all@.len(),
            s == all@.skip(from as int),
            forall|j: int| 0 <= j < i - from ==> is_digit(#[trigger] s[j]),
            !over ==> value == digits_value(s.take(i - from)) && value <= limit,
            over ==> digits_value(s.take(i - from)) > limit,
        decreases all@.len() - i,
    {
        let c = all[i];
        assert(s[i - from] == c);
        if c < '0' || c > '9' {
            assert(!is_digit(s[i - from]));
            return None;
        }
        proof {
            assert(s.take(i + 1 - from).drop_last() =~= s.take(i - from));
        }
        if !over {
            value = value * 10 + (c as u128 - 48);
            if value > limit as u128 {
                over = true;
            }
        }
        i += 1;
    }
    assert(s.take(i - from) =~= s);
    if over {
        None
    } else {
        Some(value as u64)
    }
}

/// Reads an `i32` in decimal notation; a sign may stand before the digits.
pub fn parse_i32(text: &str) -> (r: Option<i32>)
    ensures
        r == i32_of(text@),
{
    let all = characters(text);
    if all.len() > 0 && all[0] == '-' {
        match number_from(&all, 1, 2147483648) {
            Some(n) => Some((-(n as i64)) as i32),
            None => None,
        }
    } else {
        let from: usize = if all.len() > 0 && all[0] == '+' {
            1
        } else {
            0
        };
        assert(all@.skip(0) =~= all@);
        match number_from(&all, from, 2147483647) {
            Some(n) => Some(n as i32),
            None => None,
        }
    }
}

/// Reads a `u16` in decimal notation; a plus sign may stand before the digits.
pub fn parse_u16(text: &str) -> (r: Option<u16>)
    ensures
        r == u16_of(text@),
{
    let all = characters(text);
    let from: usize = if all.len() > 0 && all[0] == '+' {
        1
    } else {
        0
    };
    assert(all@.skip(0) =~= all@);
    match number_from(&all, from, 65535) {
        Some(n) => Some(n as u16),
        None => None,
    }
}

/// Reads a `usize` in decimal notation; a plus sign may stand before the digits.
pub fn parse_usize(text: &str) -> (r: Option<usize>)
    ensures
        r == usize_of(text@),
{
    let all = characters(text);
    let from: usize = if all.len() > 0 && all[0] == '+' {
        1
    } else {
        0
    };
    assert(all@.skip(0) =~= all@);
    match number_from(&all, from, usize::MAX as u64) {
        Some(n) => Some(n as usize),
        None => None,
    }
}

/// The digits of a number are one or more decimal digits, and denote that number.
pub proof fn law_digits_denote(n: nat)
    ensures
        digits(n).len() > 0,
        whole_number(digits(n)) == Some(n),
    decreases n,
{
    let s = digits(n);
    if n >= 10 {
        law_digits_denote(n / 10);
        assert(s.drop_last() =~= digits(n / 10));
        assert forall|i: int| 0 <= i < s.len() implies is_digit(#[trigger] s[i]) by {
            if i < s.len() - 1 {
                assert(is_digit(digits(n / 10)[i]));
            }
        }
    } else {
        assert(s.drop_last() =~= seq![]);
        assert(digits_value(s.drop_last()) == 0);
    }
}

/// Reading the decimal notation of an `i32` gives that `i32` back.
pub proof fn law_decimal_reads_back(n: i32)
    ensures
        i32_of(decimal(n as int)) == Some(n),
{
    if n < 0 {
        let magnitude = (-(n as int)) as nat;
        law_digits_denote(magnitude);
        assert(decimal(n as int).skip(1) =~= digits(magnitude));
    } else {
        law_digits_denote(n as nat);
        assert(is_digit(digits(n as nat)[0]));
    }
}

/// The decimal notation of a number is its digits without leading zeros, after a minus sign where
/// the number is negative.
pub proof fn law_decimal_notation(n: int)
    ensures
        n >= 0 ==> whole_number(decimal(n)) == Some(n as nat),
        n > 0 ==> decimal(n)[0] != '0',
        n == 0 ==> decimal(n) == seq!['0'],
        n < 0 ==> decimal(n) == seq!['-'] + decimal(-n),
{
    if n >= 0 {
        law_digits_denote(n as nat);
        lemma_no_leading_zero(n as nat);
    }
}

/// The digits of a number other than zero do not start with zero.
proof fn lemma_no_leading_zero(n: nat)
    ensures
        n > 0 ==> digits(n)[0] != '0',
    decreases n,
{
    if n >= 10 {
        lemma_no_leading_zero(n / 10);
        law_digits_denote(n / 10);
    }
}

/// Digits denote a number by their places: one more digit makes it ten times as much and the digit.
pub proof fn law_digits_have_places(s: Seq<char>, d: nat)
    requires
        d < 10,
    ensures
        digits_value(seq![]) == 0,
        digits_value(s.push(digit(d))) == 10 * digits_value(s) + d,
        digit(d) as nat == '0' as nat + d,
        is_digit(digit(d)),
{
    assert(s.push(digit(d)).drop_last() =~= s);
}

/// The decimal digits are the characters from zero to nine.
pub proof fn law_ten_digits(c: char)
    ensures
        is_digit(c) <==> exists|d: nat| d < 10 && c == #[trigger] digit(d),
        is_digit(c) <==> '0' as nat <= c as nat <= '9' as nat,
{
    if is_digit(c) {
        let d = (c as nat - 48) as nat;
        assert(digit(d) == c);
    }
}

/// Digits, with or without a plus sign before them, denote the number of their places where it is in
/// range, and after a minus sign the negative one.
pub proof fn law_digits_are_numbers(d: Seq<char>)
    requires
        d.len() > 0,
        forall|i: int| 0 <= i < d.len() ==> is_digit(#[trigger] d[i]),
    ensures
        i32_of(d) == if digits_value(d) <= i32::MAX {
            Some(digits_value(d) as i32)
        } else {
            None
        },
        i32_of(seq!['+'] + d) == i32_of(d),
        i32_of(seq!['-'] + d) == if -digits_value(d) >= i32::MIN {
            Some((-digits_value(d)) as i32)
        } else {
            None
        },
        u16_of(d) == if digits_value(d) <= u16::MAX {
            Some(digits_value(d) as u16)
        } else {
            None
        },
        u16_of(seq!['+'] + d) == u16_of(d),
        u16_of(seq!['-'] + d) is None,
        usize_of(d) == if digits_value(d) <= usize::MAX {
            Some(digits_value(d) as usize)
        } else {
            None
        },
        usize_of(seq!['+'] + d) == usize_of(d),
        usize_of(seq!['-'] + d) is None,
{
    let plus = seq!['+'] + d;
    let minus = seq!['-'] + d;
    assert(is_digit(d[0]));
    assert(whole_number(d) == Some(digits_value(d)));
    assert(plus.skip(1) =~= d);
    assert(minus.skip(1) =~= d);
    assert(!is_digit(minus[0]));
}

/// No other text denotes a number: none that is empty but for a sign, or that has a character that
/// is no digit, other than a sign at its start.
pub proof fn law_other_texts_are_no_numbers(d: Seq<char>, at: int)
    requires
        d.len() == 0 || (0 <= at < d.len() && !is_digit(d[at])),
    ensures
        i32_of(seq!['+'] + d) is None && i32_of(seq!['-'] + d) is None,
        u16_of(seq!['+'] + d) is None && u16_of(seq!['-'] + d) is None,
        usize_of(seq!['+'] + d) is None && usize_of(seq!['-'] + d) is None,
        d.len() == 0 || (d[0] != '+' && d[0] != '-') ==> i32_of(d) is None && u16_of(d) is None
            && usize_of(d) is None,
{
    let plus = seq!['+'] + d;
    let minus = seq!['-'] + d;
    assert(whole_number(d) is None);
    assert(plus.skip(1) =~= d);
    assert(minus.skip(1) =~= d);
    assert(!is_digit(minus[0]));
}

/// Reading the decimal notation of a number that is not negative gives that number back.
pub proof fn law_unsigned_reads_back(n: u16, m: usize)
    ensures
        u16_of(decimal(n as int)) == Some(n),
        usize_of(decimal(m as int)) == Some(m),
{
    law_digits_denote(n as nat);
    law_digits_denote(m as nat);
    assert(is_digit(digits(n as nat)[0]));
    assert(is_digit(digits(m as nat)[0]));
}

/// The list of texts holds the characters of each string, in the same place.
pub proof fn law_texts_keep_places(strings: Seq<String>, i: int)
    requires
        0 <= i < strings.len(),
    ensures
        texts(strings).len() == strings.len(),
        texts(strings)[i] == strings[i]@,
{
}

/// A text stands in another where that one is something, the text, and something more.
pub proof fn law_occurs(hay: Seq<char>, needle: Seq<char>, lead: Seq<char>, rest: Seq<char>)
    ensures
        occurs(lead + needle + rest, needle),
        occurs(hay, needle) ==> exists|a: Seq<char>, b: Seq<char>|
            hay == #[trigger] ((a + needle) + b),
        needle.len() > hay.len() ==> !occurs(hay, needle),
{
    let whole = lead + needle + rest;
    let start = lead.len() as int;
    assert(whole.subrange(start, start + needle.len()) =~= needle);
    assert(stands_at(whole, needle, start));
    if occurs(hay, needle) {
        let at = choose|at: int| stands_at(hay, needle, at);
        let a = hay.take(at);
        let b = hay.skip(at + needle.len());
        assert(hay =~= (a + needle) + b);
    }
}

/// Parts are joined by a separator between neighbours: one part is itself, and two lists of parts
/// have the separator between what each is joined to.
pub proof fn law_joined(
    some: Seq<Seq<char>>,
    more: Seq<Seq<char>>,
    part: Seq<char>,
    separator: Seq<char>,
)
    ensures
        joined(seq![], separator) == Seq::<char>::empty(),
        joined(seq![part], separator) == part,
        some.len() > 0 && more.len() > 0 ==> joined(some + more, separator) == joined(
            some,
            separator,
        ) + separator + joined(more, separator),
    decreases more.len(),
{
    if some.len() > 0 && more.len() > 0 {
        let shorter = more.drop_last();
        assert((some + more).drop_last() =~= some + shorter);
        assert((some + more).last() == more.last());
        if shorter.len() > 0 {
            law_joined(some, shorter, part, separator);
            assert(joined(some + more, separator) =~= joined(some, separator) + separator + joined(
                more,
                separator,
            ));
        } else {
            assert(some + shorter =~= some);
        }
    }
}

/// Taking a character out of a text takes out every one of it and nothing else: of two texts, one
/// after the other, it leaves what it leaves of each.
pub proof fn law_without(a: Seq<char>, b: Seq<char>, c: char, other: char)
    ensures
        without(seq![c], c) == Seq::<char>::empty(),
        other != c ==> without(seq![other], c) == seq![other],
        without(a + b, c) == without(a, c) + without(b, c),
        !without(b, c).contains(c),
    decreases b.len(),
{
    assert(seq![c].drop_last() =~= seq![]);
    assert(seq![other].drop_last() =~= seq![]);
    assert(without(seq![], c) =~= seq![]);
    if b.len() == 0 {
        assert(a + b =~= a);
        assert(without(a, c) + without(b, c) =~= without(a, c));
    } else {
        let shorter = b.drop_last();
        law_without(a, shorter, c, other);
        assert((a + b).drop_last() =~= a + shorter);
        let left = without(shorter, c);
        assert(without(a, c) + left.push(b.last()) =~= (without(a, c) + left).push(b.last()));
        assert forall|i: int| 0 <= i < without(b, c).len() implies without(b, c)[i] != c by {
            if i < left.len() {
                assert(left.contains(left[i]));
            }
        }
    }
}

/// The pieces of a text have no separator in them, and joined by it they are the text.
pub proof fn law_pieces(s: Seq<char>, c: char)
    ensures
        pieces(s, c).len() > 0,
        joined(pieces(s, c), seq![c]) == s,
        forall|i: int| 0 <= i < pieces(s, c).len() ==> !(#[trigger] pieces(s, c)[i]).contains(c),
    decreases s.len(),
{
    if s.len() > 0 {
        let shorter = s.drop_last();
        let earlier = pieces(shorter, c);
        let all = pieces(s, c);
        law_pieces(shorter, c);
        if s.last() == c {
            assert(all.drop_last() =~= earlier);
            assert(joined(all, seq![c]) =~= shorter + seq![c] + seq![]);
            assert(joined(all, seq![c]) =~= s);
            assert forall|i: int| 0 <= i < all.len() implies !(#[trigger] all[i]).contains(c) by {
                if i < earlier.len() {
                    assert(!earlier[i].contains(c));
                }
            }
        } else {
            let last = earlier.last();
            assert(all.drop_last() =~= earlier.drop_last());
            assert(all.last() == last.push(s.last()));
            if earlier.len() == 1 {
                assert(joined(all, seq![c]) =~= s);
            } else {
                let lead = joined(earlier.drop_last(), seq![c]) + seq![c];
                assert(joined(earlier, seq![c]) == lead + last);
                assert(joined(all, seq![c]) == lead + last.push(s.last()));
                assert(lead + last.push(s.last()) =~= (lead + last).push(s.last()));
                assert(joined(all, seq![c]) =~= s);
            }
            assert forall|i: int| 0 <= i < all.len() implies !(#[trigger] all[i]).contains(c) by {
                if i < earlier.len() - 1 {
                    assert(!earlier[i].contains(c));
                } else {
                    assert(!earlier[earlier.len() - 1].contains(c));
                    assert forall|j: int| 0 <= j < all[i].len() implies all[i][j] != c by {
                        if j < last.len() {
                            assert(last.contains(last[j]));
                        }
                    }
                }
            }
        }
    } else {
        assert(pieces(s, c)[0] =~= seq![]);
        assert(s =~= seq![]);
    }
}

/// The position of a character is where it first stands, or the length of the text where it does
/// not.
pub proof fn law_position(s: Seq<char>, c: char)
    ensures
        0 <= position(s, c) <= s.len(),
        position(s, c) < s.len() ==> s[position(s, c)] == c,
        forall|j: int| 0 <= j < position(s, c) ==> #[trigger] s[j] != c,
    decreases s.len(),
{
    if s.len() > 0 {
        let shorter = s.drop_last();
        law_position(shorter, c);
        assert forall|j: int| 0 <= j < position(s, c) implies #[trigger] s[j] != c by {
            if j < shorter.len() {
                assert(shorter[j] == s[j]);
            }
        }
    }
}

/// The pieces of two texts with a separator between them are those of the one and then those of the
/// other, and a text without the separator is its only piece.
pub proof fn law_pieces_of_both(a: Seq<char>, b: Seq<char>, c: char)
    ensures
        pieces(a + seq![c] + b, c) == pieces(a, c) + pieces(b, c),
        !b.contains(c) ==> pieces(b, c) == seq![b],
    decreases b.len(),
{
    let whole = a + seq![c] + b;
    if b.len() == 0 {
        assert(b =~= seq![]);
        assert(whole.drop_last() =~= a);
        assert(pieces(whole, c) =~= pieces(a, c) + pieces(b, c));
        assert(pieces(b, c) =~= seq![b]);
    } else {
        let shorter = b.drop_last();
        law_pieces_of_both(a, shorter, c);
        law_pieces(shorter, c);
        assert(whole.drop_last() =~= a + seq![c] + shorter);
        assert(pieces(whole, c) =~= pieces(a, c) + pieces(b, c));
        if !b.contains(c) {
            assert(b.contains(b.last()));
            assert forall|i: int| 0 <= i < shorter.len() implies shorter[i] != c by {
                assert(b.contains(b[i]));
            }
            assert(shorter.push(b.last()) =~= b);
            assert(pieces(b, c) =~= seq![b]);
        }
    }
}

} // verus!
