//! The lines of the INI file in which an import keeps how far it has come.

use crate::config;
use crate::text;
use vstd::prelude::*;
use vstd::string::*;

verus! {

/// Every line with `key` in it becomes `line`.
pub open spec fn replaced(
    lines: Seq<Seq<char>>,
    key: Seq<char>,
    line: Seq<char>,
) -> Seq<Seq<char>> {
    lines.map_values(
        |old_line: Seq<char>|
            if text::occurs(old_line, key) {
                line
            } else {
                old_line
            },
    )
}

/// Some line has `key` in it.
pub open spec fn mentioned(lines: Seq<Seq<char>>, key: Seq<char>) -> bool {
    exists|i: int| 0 <= i < lines.len() && text::occurs(#[trigger] lines[i], key)
}

/// Every line with `key` in it becomes `line`; where there is none, `line` comes after the others.
pub open spec fn with_line(
    lines: Seq<Seq<char>>,
    key: Seq<char>,
    line: Seq<char>,
) -> Seq<Seq<char>> {
    if mentioned(lines, key) {
        replaced(lines, key, line)
    } else {
        lines.push(line)
    }
}

/// A key is mentioned in lines and one more where it is mentioned in the lines or in that one.
proof fn lemma_mentioned_in_more(lines: Seq<Seq<char>>, line: Seq<char>, key: Seq<char>)
    ensures
        mentioned(lines.push(line), key) == (mentioned(lines, key) || text::occurs(line, key)),
{
    let more = lines.push(line);
    if mentioned(more, key) && !text::occurs(line, key) {
        let i = choose|i: int| 0 <= i < more.len() && text::occurs(#[trigger] more[i], key);
        assert(lines[i] == more[i]);
    }
    if mentioned(lines, key) {
        let i = choose|i: int| 0 <= i < lines.len() && text::occurs(#[trigger] lines[i], key);
        assert(more[i] == lines[i]);
    }
    assert(more[lines.len() as int] == line);
}

/// The lines with `line` in place of every one with `key` in it, or after them where there is
/// none, put together with line breaks.
fn put_line(lines: &Vec<String>, key: &str, line: &str) -> (r: String)
    ensures
        r@ == text::joined(with_line(text::texts(lines@), key@, line@), "\n"@),
{
    let ghost known = text::texts(lines@);
    let mut added: bool = false;
    let mut out: Vec<String> = Vec::new();
    let mut i: usize = 0;
    while i < lines.len()
        invariant
            i <= lines@.len(),
            known == text::texts(lines@),
            text::texts(out@) == replaced(known.take(i as int), key@, line@),
            added == mentioned(known.take(i as int), key@),
        decreases lines@.len() - i,
    {
        let ghost so_far = text::texts(out@);
        let ghost now = known[i as int];
        proof {
            assert(known.take(i + 1) =~= known.take(i as int).push(now));
            lemma_mentioned_in_more(known.take(i as int), now, key@);
        }
        if text::contains(lines[i].as_str(), key) {
            added = true;
            out.push(line.to_owned());
            assert(text::texts(out@) =~= so_far.push(line@));
        } else {
            out.push(lines[i].clone());
            assert(text::texts(out@) =~= so_far.push(now));
        }
        assert(text::texts(out@) =~= replaced(known.take(i + 1), key@, line@));
        i += 1;
    }
    assert(known.take(i as int) =~= known);
    if !added {
        let ghost so_far = text::texts(out@);
        out.push(line.to_owned());
        assert(text::texts(out@) =~= so_far.push(line@));
        assert(so_far =~= known) by {
            assert forall|j: int| 0 <= j < known.len() implies #[trigger] so_far[j] == known[j] by {
                assert(!text::occurs(known[j], key@));
            }
        }
    }
    text::join(&out, "\n")
}

/// The line that records the last row.
pub open spec fn last_row_line(last_row: i32) -> Seq<char> {
    "LAST_ROW="@ + text::decimal(last_row as int)
}

/// The text of the INI file of those lines, with `last_row` on record as the last row.
pub fn update_last_row(lines: &Vec<String>, last_row: i32) -> (r: String)
    ensures
        r@ == text::joined(
            with_line(text::texts(lines@), "LAST_ROW"@, last_row_line(last_row)),
            "\n"@,
        ),
{
    let number = text::decimal_text(last_row);
    let line = String::from_str("LAST_ROW=").concat(number.as_str());
    put_line(lines, "LAST_ROW", line.as_str())
}

/// The text of the INI file of those lines, with the index on record as created.
pub fn mark_index_created(lines: &Vec<String>) -> (r: String)
    ensures
        r@ == text::joined(
            with_line(text::texts(lines@), "ES_INDEX_CREATED"@, "ES_INDEX_CREATED=yes"@),
            "\n"@,
        ),
{
    put_line(lines, "ES_INDEX_CREATED", "ES_INDEX_CREATED=yes")
}

/// A line that does not mention the key of a record stays as it is and where it is.
pub proof fn law_other_lines_stay(
    lines: Seq<Seq<char>>,
    key: Seq<char>,
    line: Seq<char>,
    i: int,
)
    requires
        0 <= i < lines.len(),
        !text::occurs(lines[i], key),
    ensures
        with_line(lines, key, line).len() >= lines.len(),
        with_line(lines, key, line)[i] == lines[i],
{
}

/// A record takes the place of every line that mentions its key, whatever else stands on it, and of
/// no other line. Where no line mentions the key, the record comes after all of them.
pub proof fn law_record_takes_places(
    lines: Seq<Seq<char>>,
    key: Seq<char>,
    line: Seq<char>,
    i: int,
)
    ensures
        0 <= i < lines.len() && text::occurs(lines[i], key) ==> with_line(lines, key, line)[i]
            == line,
        0 <= i < lines.len() && !text::occurs(lines[i], key) ==> with_line(lines, key, line)[i]
            == lines[i],
        (exists|j: int| 0 <= j < lines.len() && text::occurs(#[trigger] lines[j], key))
            ==> with_line(lines, key, line).len() == lines.len(),
        (forall|j: int| 0 <= j < lines.len() ==> !text::occurs(#[trigger] lines[j], key))
            ==> with_line(lines, key, line) == lines.push(line),
{
    if 0 <= i < lines.len() && text::occurs(lines[i], key) {
        assert(mentioned(lines, key));
    }
}

/// The record of the last row is its key, an equals sign and the decimal notation of the row.
pub proof fn law_last_row_line(last_row: i32)
    ensures
        last_row_line(last_row) == "LAST_ROW"@.push('=') + text::decimal(last_row as int),
{
    reveal_strlit("LAST_ROW");
    reveal_strlit("LAST_ROW=");
    assert("LAST_ROW="@ =~= "LAST_ROW"@.push('='));
}

/// A record mentions its key afterwards, in no line but its own.
pub proof fn law_record_is_kept(lines: Seq<Seq<char>>, key: Seq<char>, line: Seq<char>)
    requires
        text::occurs(line, key),
    ensures
        mentioned(with_line(lines, key, line), key),
        forall|i: int|
            0 <= i < with_line(lines, key, line).len() && text::occurs(
                #[trigger] with_line(lines, key, line)[i],
                key,
            ) ==> with_line(lines, key, line)[i] == line,
{
    let after = with_line(lines, key, line);
    if mentioned(lines, key) {
        let i = choose|i: int| 0 <= i < lines.len() && text::occurs(#[trigger] lines[i], key);
        assert(after[i] == line);
    } else {
        assert(after[lines.len() as int] == line);
        assert forall|i: int| 0 <= i < after.len() && text::occurs(#[trigger] after[i], key) implies after[i]
            == line by {
            if i < lines.len() {
                assert(after[i] == lines[i]);
            }
        }
    }
}

/// A later record takes the place of an earlier one of the same key.
pub proof fn law_later_record_wins(
    lines: Seq<Seq<char>>,
    key: Seq<char>,
    earlier: Seq<char>,
    later: Seq<char>,
)
    requires
        text::occurs(earlier, key),
    ensures
        with_line(with_line(lines, key, earlier), key, later) == with_line(lines, key, later),
{
    law_record_is_kept(lines, key, earlier);
    let first = with_line(lines, key, earlier);
    let second = replaced(first, key, later);
    let direct = with_line(lines, key, later);
    assert forall|i: int| 0 <= i < second.len() implies #[trigger] second[i] == direct[i] by {
        if mentioned(lines, key) {
            assert(first[i] == if text::occurs(lines[i], key) {
                earlier
            } else {
                lines[i]
            });
        } else if i < lines.len() {
            assert(!text::occurs(lines[i], key));
        }
    }
    assert(second =~= direct);
}

/// Where the first separator of a text without backslashes stands at `k`, that is its position.
proof fn lemma_bare_position(s: Seq<char>, a: char, b: char, k: int)
    requires
        0 <= k < s.len(),
        s[k] == a || s[k] == b,
        forall|j: int| 0 <= j < k ==> s[j] != a && s[j] != b && s[j] != '\\',
    ensures
        config::bare_position(s, a, b) == k,
    decreases s.len(),
{
    if k > 0 {
        let rest = s.skip(1);
        assert forall|j: int| 0 <= j < k - 1 implies rest[j] != a && rest[j] != b && rest[j]
            != '\\' by {
            assert(rest[j] == s[j + 1]);
        }
        assert(rest[k - 1] == s[k]);
        assert(s[0] != a && s[0] != b && s[0] != '\\');
        lemma_bare_position(rest, a, b, k - 1);
    }
}

/// A position lies within the text or at its end.
proof fn lemma_position_in_bounds(s: Seq<char>, a: char, b: char)
    ensures
        0 <= config::bare_position(s, a, b) <= s.len(),
    decreases s.len(),
{
    if s.len() > 1 {
        lemma_position_in_bounds(s.skip(2), a, b);
    }
    if s.len() > 0 {
        lemma_position_in_bounds(s.skip(1), a, b);
    }
}

/// A text without backslashes has no escapes.
proof fn lemma_no_escapes(s: Seq<char>)
    requires
        !s.contains('\\'),
    ensures
        config::unescaped(s) == Some(s),
    decreases s.len(),
{
    if s.len() > 0 {
        let rest = s.skip(1);
        assert(s.contains(s[0]));
        assert forall|j: int| 0 <= j < rest.len() implies rest[j] != '\\' by {
            assert(rest[j] == s[j + 1]);
            assert(s.contains(s[j + 1]));
        }
        lemma_no_escapes(rest);
        assert(seq![s[0]] + rest =~= s);
    }
}

/// Text without white space at its ends is trimmed.
proof fn lemma_already_trimmed(s: Seq<char>)
    requires
        s.len() > 0 ==> !text::is_space(s[0]) && !text::is_space(s.last()),
    ensures
        text::trimmed(s) == s,
{
}

/// What is left without the white space at the start stands at the end.
proof fn lemma_trimmed_start(s: Seq<char>) -> (k: int)
    ensures
        0 <= k <= s.len(),
        text::trimmed_start(s) == s.skip(k),
    decreases s.len(),
{
    if s.len() > 0 && text::is_space(s[0]) {
        let k = lemma_trimmed_start(s.skip(1));
        assert(s.skip(1).skip(k) =~= s.skip(k + 1));
        k + 1
    } else {
        assert(s.skip(0) =~= s);
        0
    }
}

/// What is left without the white space at the end stands at the start.
proof fn lemma_trimmed_end(s: Seq<char>) -> (k: int)
    ensures
        0 <= k <= s.len(),
        text::trimmed_end(s) == s.take(k),
    decreases s.len(),
{
    if s.len() > 0 && text::is_space(s.last()) {
        let k = lemma_trimmed_end(s.drop_last());
        assert(s.drop_last().take(k) =~= s.take(k));
        k
    } else {
        assert(s.take(s.len() as int) =~= s);
        s.len() as int
    }
}

/// The line gives a value to the key.
pub open spec fn assigns(line: Seq<char>, key: Seq<char>) -> bool {
    match config::assignment(line) {
        Some((found, _)) => found == key,
        None => false,
    }
}

/// The value that a line gives, where it gives one.
pub open spec fn assigned(line: Seq<char>) -> Seq<char> {
    match config::assignment(line) {
        Some((_, value)) => value,
        None => seq![],
    }
}

/// A line that gives a value to a key mentions the key, where it has no backslash in front of the
/// value.
pub proof fn law_plain_lines_mention_their_key(line: Seq<char>, key: Seq<char>)
    requires
        assigns(line, key),
        !line.take(config::bare_position(line, '=', ':')).contains('\\'),
    ensures
        text::occurs(line, key),
{
    let at = config::bare_position(line, '=', ':');
    lemma_position_in_bounds(line, '=', ':');
    let before = line.take(at);
    lemma_no_escapes(before);
    let from = lemma_trimmed_start(before);
    let rest = before.skip(from);
    let size = lemma_trimmed_end(rest);
    assert(key == rest.take(size));
    assert(line.subrange(from, from + key.len()) =~= key);
    assert(text::stands_at(line, key, from));
}

/// A line that gives a simple value to a simple key is read as that.
proof fn lemma_assignment(key: Seq<char>, value: Seq<char>)
    requires
        config::simple_key(key),
        config::simple_value(value),
    ensures
        config::assignment(config::entry(key, value)) == Some((key, value)),
        config::is_entry(config::entry(key, value)),
        text::occurs(config::entry(key, value), key),
{
    let line = config::entry(key, value);
    let size = key.len() as int;
    assert forall|j: int| 0 <= j < size implies line[j] != '=' && line[j] != ':' && line[j]
        != '\\' by {
        assert(line[j] == key[j]);
        assert(key.contains(key[j]));
    }
    lemma_bare_position(line, '=', ':', size);
    assert(line.take(size) =~= key);
    assert(line.skip(size + 1) =~= value);
    assert(line[0] == key[0]);
    lemma_no_escapes(key);
    lemma_no_escapes(value);
    lemma_already_trimmed(key);
    lemma_already_trimmed(value);
    assert(text::trimmed_start(value) == value);
    assert forall|c: char| line.contains(c) implies key.contains(c) || value.contains(c) || c
        == '=' by {
        let j = choose|j: int| 0 <= j < line.len() && line[j] == c;
        if j < size {
            assert(key[j] == c);
        } else if j > size {
            assert(value[j - size - 1] == c);
        }
    }
    assert(!line.contains('\n') && !line.contains('\r'));
    assert forall|i: int| 0 <= i < line.len() - 1 implies #[trigger] line[i] != '\r' by {
        assert(line.contains(line[i]));
    }
    assert(line.subrange(0, size) =~= key);
    assert(text::stands_at(line, key, 0));
}

/// Of the lines from `from` on, line `at` is the first one that gives a value to the key.
pub open spec fn first_from(lines: Seq<Seq<char>>, from: int, at: int, key: Seq<char>) -> bool {
    &&& from <= at < lines.len()
    &&& assigns(lines[at], key)
    &&& forall|j: int| from <= j < at ==> !assigns(#[trigger] lines[j], key)
}

/// Line `at` is the first one of the section that gives a value to the key.
pub open spec fn first_assigns(lines: Seq<Seq<char>>, at: int, key: Seq<char>) -> bool {
    first_from(lines, config::head_at(lines) + 1, at, key)
}

/// A key that no line gives a value to has none.
proof fn lemma_absent(lines: Seq<Seq<char>>, from: int, key: Seq<char>)
    requires
        0 <= from,
        forall|j: int| from <= j < lines.len() ==> !assigns(#[trigger] lines[j], key),
    ensures
        !config::entries_from(lines, from).contains_key(key),
    decreases lines.len(),
{
    if lines.len() > from {
        let shorter = lines.drop_last();
        assert forall|j: int| from <= j < shorter.len() implies !assigns(#[trigger] shorter[j], key) by {
            assert(shorter[j] == lines[j]);
        }
        lemma_absent(shorter, from, key);
        assert(!assigns(lines[lines.len() - 1], key));
    }
}

/// A key that some line gives a value to has one.
proof fn lemma_present(lines: Seq<Seq<char>>, from: int, at: int, key: Seq<char>)
    requires
        0 <= from <= at < lines.len(),
        assigns(lines[at], key),
    ensures
        config::entries_from(lines, from).contains_key(key),
    decreases lines.len(),
{
    if at < lines.len() - 1 {
        assert(lines.drop_last()[at] == lines[at]);
        lemma_present(lines.drop_last(), from, at, key);
    }
}

/// A key has the value that the first line for it gives.
proof fn lemma_first_value(lines: Seq<Seq<char>>, from: int, at: int, key: Seq<char>)
    requires
        0 <= from,
        first_from(lines, from, at, key),
    ensures
        config::entries_from(lines, from).contains_pair(key, assigned(lines[at])),
    decreases lines.len(),
{
    let shorter = lines.drop_last();
    assert forall|j: int| from <= j < at implies !assigns(#[trigger] shorter[j], key) by {
        assert(shorter[j] == lines[j]);
    }
    if at < lines.len() - 1 {
        assert(shorter[at] == lines[at]);
        lemma_first_value(shorter, from, at, key);
    } else {
        lemma_absent(shorter, from, key);
    }
}

/// A key that has a value has a first line that gives it.
proof fn lemma_has_first(lines: Seq<Seq<char>>, from: int, key: Seq<char>) -> (at: int)
    requires
        0 <= from,
        config::entries_from(lines, from).contains_key(key),
    ensures
        first_from(lines, from, at, key),
    decreases lines.len(),
{
    let shorter = lines.drop_last();
    if config::entries_from(shorter, from).contains_key(key) {
        let at = lemma_has_first(shorter, from, key);
        assert(shorter[at] == lines[at]);
        assert forall|j: int| from <= j < at implies !assigns(#[trigger] lines[j], key) by {
            assert(shorter[j] == lines[j]);
        }
        at
    } else {
        let at = lines.len() - 1;
        assert(assigns(lines[at], key));
        assert forall|j: int| from <= j < at implies !assigns(#[trigger] lines[j], key) by {
            if assigns(lines[j], key) {
                assert(shorter[j] == lines[j]);
                lemma_present(shorter, from, j, key);
            }
        }
        at
    }
}

/// The head stands at `head` where no line before it is one.
proof fn lemma_head(lines: Seq<Seq<char>>, head: int)
    requires
        0 <= head < lines.len(),
        config::is_head(lines[head]),
        forall|i: int| 0 <= i < head ==> !config::is_head(#[trigger] lines[i]),
    ensures
        config::head_at(lines) == head,
    decreases lines.len(),
{
    if head > 0 {
        let rest = lines.skip(1);
        assert(!config::is_head(lines[0]));
        assert(rest[head - 1] == lines[head]);
        assert forall|i: int| 0 <= i < head - 1 implies !config::is_head(#[trigger] rest[i]) by {
            assert(rest[i] == lines[i + 1]);
        }
        lemma_head(rest, head - 1);
    }
}

/// The head is one, and no line before it is.
proof fn lemma_head_found(lines: Seq<Seq<char>>)
    ensures
        0 <= config::head_at(lines) <= lines.len(),
        config::head_at(lines) < lines.len() ==> config::is_head(lines[config::head_at(lines)]),
        forall|i: int|
            0 <= i < config::head_at(lines) ==> !config::is_head(#[trigger] lines[i]),
    decreases lines.len(),
{
    if lines.len() > 0 && !config::is_head(lines[0]) {
        let rest = lines.skip(1);
        lemma_head_found(rest);
        assert forall|i: int| 0 <= i < config::head_at(lines) implies !config::is_head(
            #[trigger] lines[i],
        ) by {
            if i > 0 {
                assert(rest[i - 1] == lines[i]);
            }
        }
    }
}

/// An entry is no head of a section.
proof fn lemma_entry_is_no_head(line: Seq<char>)
    requires
        config::is_entry(line),
    ensures
        !config::is_head(line),
{
    reveal_strlit("[CONFIG]");
    reveal_strlit("[CONFIG]\r");
    if config::is_head(line) {
        assert(text::trimmed_start(line) == line);
        assert(line[0] == '[');
    }
}

/// The head of the section does not mention a key that is no part of it.
proof fn lemma_head_is_no_record(line: Seq<char>, key: Seq<char>)
    requires
        config::is_head(line),
        !text::occurs("[CONFIG]\r"@, key),
    ensures
        !text::occurs(line, key),
{
    reveal_strlit("[CONFIG]");
    reveal_strlit("[CONFIG]\r");
    let longer = "[CONFIG]\r"@;
    assert forall|at: int| !text::stands_at(line, key, at) by {
        if text::stands_at(line, key, at) {
            assert(longer.subrange(at, at + key.len()) =~= line.subrange(at, at + key.len()));
            assert(text::stands_at(longer, key, at));
        }
    }
}

/// A record of the key comes first in the section: some line of the section mentions the key and
/// none before it gives the key a value, or no line mentions the key and none of the section gives
/// it a value. (A line that does so without mentioning it has an escape in its key.)
pub open spec fn can_record(lines: Seq<Seq<char>>, key: Seq<char>) -> bool {
    if mentioned(lines, key) {
        exists|at: int| #[trigger] record_counts(lines, at, key)
    } else {
        forall|i: int|
            config::head_at(lines) < i < lines.len() ==> !assigns(#[trigger] lines[i], key)
    }
}

/// Line `at` of the section mentions the key, and no line of the section before it gives the key a
/// value.
pub open spec fn record_counts(lines: Seq<Seq<char>>, at: int, key: Seq<char>) -> bool {
    &&& config::head_at(lines) < at < lines.len()
    &&& text::occurs(lines[at], key)
    &&& forall|i: int| config::head_at(lines) < i < at ==> !assigns(#[trigger] lines[i], key)
}

/// Where no line has a backslash in front of its value and no line before the section mentions the
/// key, a record of the key comes first.
pub proof fn law_plain_files_can_record(lines: Seq<Seq<char>>, key: Seq<char>)
    requires
        forall|i: int|
            config::head_at(lines) < i < lines.len() ==> !(#[trigger] lines[i]).take(
                config::bare_position(lines[i], '=', ':'),
            ).contains('\\'),
        forall|i: int|
            0 <= i <= config::head_at(lines) && i < lines.len() ==> !text::occurs(
                #[trigger] lines[i],
                key,
            ),
    ensures
        can_record(lines, key),
{
    let head = config::head_at(lines);
    lemma_head_found(lines);
    assert forall|i: int|
        head < i < lines.len() && assigns(#[trigger] lines[i], key) implies text::occurs(
        lines[i],
        key,
    ) by {
        law_plain_lines_mention_their_key(lines[i], key);
    }
    if mentioned(lines, key) {
        let some = choose|i: int| 0 <= i < lines.len() && text::occurs(#[trigger] lines[i], key);
        let at = lemma_first_mention(lines, key, head + 1, some);
        assert(record_counts(lines, at, key));
    } else {
        assert forall|i: int| head < i < lines.len() implies !assigns(#[trigger] lines[i], key) by {
            assert(!text::occurs(lines[i], key));
        }
    }
}

/// Where some line mentions the key, there is a first one.
proof fn lemma_first_mention(lines: Seq<Seq<char>>, key: Seq<char>, from: int, some: int) -> (at: int)
    requires
        0 <= from <= some < lines.len(),
        text::occurs(lines[some], key),
    ensures
        from <= at <= some,
        text::occurs(lines[at], key),
        forall|i: int| from <= i < at ==> !text::occurs(#[trigger] lines[i], key),
    decreases some - from,
{
    if text::occurs(lines[from], key) {
        from
    } else {
        lemma_first_mention(lines, key, from + 1, some)
    }
}

/// After a record each line is the line of the record, or one from before that does not mention the
/// key.
proof fn lemma_lines_after(lines: Seq<Seq<char>>, key: Seq<char>, line: Seq<char>, j: int)
    requires
        0 <= j < with_line(lines, key, line).len(),
    ensures
        with_line(lines, key, line)[j] == line || (j < lines.len() && with_line(lines, key, line)[j]
            == lines[j] && !text::occurs(lines[j], key)),
{
    if j < lines.len() && !mentioned(lines, key) {
        assert(!text::occurs(lines[j], key));
    }
}

/// A simple file is one after a record, with its head at the same place.
proof fn lemma_simple_after(lines: Seq<Seq<char>>, key: Seq<char>, line: Seq<char>)
    requires
        config::simple_file(lines),
        config::is_entry(line),
        text::occurs(line, key),
        !text::occurs("[CONFIG]\r"@, key),
    ensures
        config::simple_file(with_line(lines, key, line)),
        config::head_at(with_line(lines, key, line)) == config::head_at(lines),
{
    let after = with_line(lines, key, line);
    let head = config::head_at(lines);
    lemma_head_found(lines);
    lemma_entry_is_no_head(line);
    lemma_head_is_no_record(lines[head], key);
    law_other_lines_stay(lines, key, line, head);
    assert forall|i: int| 0 <= i < head implies !config::is_head(#[trigger] after[i]) by {
        lemma_lines_after(lines, key, line, i);
        assert(!config::is_head(lines[i]));
    }
    lemma_head(after, head);
    assert forall|i: int| 0 <= i < after.len() && i != head implies config::is_silent(
        #[trigger] after[i],
    ) || config::is_entry(after[i]) by {
        lemma_lines_after(lines, key, line, i);
        if after[i] != line {
            assert(config::is_silent(lines[i]) || config::is_entry(lines[i]));
        }
    }
}

/// A record comes first in the section of its file.
proof fn lemma_record_comes_first(
    lines: Seq<Seq<char>>,
    key: Seq<char>,
    line: Seq<char>,
) -> (at: int)
    requires
        config::head_at(lines) < lines.len(),
        config::head_at(with_line(lines, key, line)) == config::head_at(lines),
        can_record(lines, key),
        assigns(line, key),
        text::occurs(line, key),
    ensures
        first_assigns(with_line(lines, key, line), at, key),
        with_line(lines, key, line)[at] == line,
        record_counts(with_line(lines, key, line), at, key),
{
    let after = with_line(lines, key, line);
    let head = config::head_at(lines);
    lemma_head_found(lines);
    if mentioned(lines, key) {
        let some = choose|at: int| #[trigger] record_counts(lines, at, key);
        let at = lemma_first_mention(lines, key, head + 1, some);
        assert(after[at] == line);
        assert forall|j: int| head < j < at implies !assigns(#[trigger] after[j], key) by {
            assert(!text::occurs(lines[j], key));
            law_other_lines_stay(lines, key, line, j);
            assert(!assigns(lines[j], key));
        }
        at
    } else {
        let at = lines.len() as int;
        assert(after[at] == line);
        assert forall|j: int| head < j < at implies !assigns(#[trigger] after[j], key) by {
            assert(after[j] == lines[j]);
            assert(!assigns(lines[j], key));
        }
        at
    }
}

/// Recording a value in a simple file gives its key that value, whatever the file held. Every key
/// whose first line does not mention the key of the record has its value from before, and no other
/// key gets one. The file is one in which the key can be recorded again.
pub proof fn law_record_reads_back(lines: Seq<Seq<char>>, key: Seq<char>, value: Seq<char>)
    requires
        config::simple_file(lines),
        can_record(lines, key),
        config::simple_key(key),
        config::simple_value(value),
        !text::occurs("[CONFIG]\r"@, key),
    ensures
        can_record(with_line(lines, key, config::entry(key, value)), key),
        config::simple_file(with_line(lines, key, config::entry(key, value))),
        config::simple_entries(with_line(lines, key, config::entry(key, value))).contains_pair(
            key,
            value,
        ),
        forall|at: int, other: Seq<char>| #[trigger]
            first_assigns(lines, at, other) && !text::occurs(lines[at], key) && other != key
                ==> config::simple_entries(lines).contains_key(other) && config::simple_entries(
                with_line(lines, key, config::entry(key, value)),
            ).contains_pair(other, config::simple_entries(lines)[other]),
        forall|other: Seq<char>| #[trigger]
            config::simple_entries(
                with_line(lines, key, config::entry(key, value)),
            ).contains_key(other) ==> other == key || config::simple_entries(lines).contains_key(
                other,
            ),
{
    let line = config::entry(key, value);
    let after = with_line(lines, key, line);
    lemma_assignment(key, value);
    lemma_simple_after(lines, key, line);
    lemma_head_found(lines);
    let from = config::head_at(lines) + 1;
    let first = lemma_record_comes_first(lines, key, line);
    lemma_first_value(after, from, first, key);
    assert forall|at: int, other: Seq<char>| #[trigger]
        first_assigns(lines, at, other) && !text::occurs(lines[at], key) && other
            != key implies config::simple_entries(lines).contains_key(other)
        && config::simple_entries(after).contains_pair(
        other,
        config::simple_entries(lines)[other],
    ) by {
        lemma_first_value(lines, from, at, other);
        law_other_lines_stay(lines, key, line, at);
        assert forall|j: int| from <= j < at implies !assigns(#[trigger] after[j], other) by {
            lemma_lines_after(lines, key, line, j);
            if after[j] != line {
                assert(!assigns(lines[j], other));
            }
        }
        lemma_first_value(after, from, at, other);
    }
    assert forall|other: Seq<char>| #[trigger]
        config::simple_entries(after).contains_key(other) implies other == key
        || config::simple_entries(lines).contains_key(other) by {
        let at = lemma_has_first(after, from, other);
        lemma_lines_after(lines, key, line, at);
        if after[at] != line {
            lemma_present(lines, from, at, other);
        }
    }
}

/// Every line that mentions `key` is a comment or gives a value to `key` itself.
pub open spec fn only_own_lines(lines: Seq<Seq<char>>, key: Seq<char>) -> bool {
    forall|i: int|
        0 <= i < lines.len() && text::occurs(#[trigger] lines[i], key) ==> match config::assignment(
            lines[i],
        ) {
            Some((found, _)) => found == key,
            None => true,
        }
}

/// Where the key of a record stands on lines of its own alone, recording a value changes no other
/// entry.
pub proof fn law_record_changes_one_entry(
    lines: Seq<Seq<char>>,
    key: Seq<char>,
    value: Seq<char>,
)
    requires
        config::simple_file(lines),
        can_record(lines, key),
        config::simple_key(key),
        config::simple_value(value),
        !text::occurs("[CONFIG]\r"@, key),
        only_own_lines(lines, key),
    ensures
        config::simple_entries(with_line(lines, key, config::entry(key, value)))
            == config::simple_entries(lines).insert(key, value),
{
    let before = config::simple_entries(lines);
    let after = config::simple_entries(with_line(lines, key, config::entry(key, value)));
    law_record_reads_back(lines, key, value);
    assert forall|other: Seq<char>| #[trigger] before.contains_key(other) && other
        != key implies after.contains_pair(other, before[other]) by {
        lemma_head_found(lines);
        let at = lemma_has_first(lines, config::head_at(lines) + 1, other);
        assert(first_assigns(lines, at, other));
        assert(!text::occurs(lines[at], key));
    }
    assert(after =~= before.insert(key, value));
}

/// No key is missing that was there before a value was recorded.
proof fn lemma_none_missing_after(
    keys: Seq<Seq<char>>,
    entries: Map<Seq<char>, Seq<char>>,
    key: Seq<char>,
    value: Seq<char>,
)
    requires
        config::first_missing(keys, entries) is None,
    ensures
        config::first_missing(keys, entries.insert(key, value)) is None,
    decreases keys.len(),
{
    if keys.len() > 0 {
        lemma_none_missing_after(keys.drop_last(), entries, key, value);
    }
}

/// The decimal notation of a number stands in an INI file as it is.
proof fn lemma_decimal_is_simple(n: int)
    ensures
        config::simple_value(text::decimal(n)),
{
    let magnitude = (if n < 0 {
        -n
    } else {
        n
    }) as nat;
    text::law_digits_denote(magnitude);
    let value = text::decimal(n);
    assert forall|i: int| 0 <= i < value.len() implies value[i] == '-' || text::is_digit(
        #[trigger] value[i],
    ) by {
        if n < 0 && i > 0 {
            assert(value[i] == text::digits(magnitude)[i - 1]);
        }
    }
    assert(value[0] == '-' || text::is_digit(value[0]));
    assert(value[value.len() - 1] == '-' || text::is_digit(value[value.len() - 1]));
}

/// The line of the last row is one that gives a simple value to a simple key.
proof fn lemma_last_row_line(last_row: i32)
    ensures
        last_row_line(last_row) == config::entry("LAST_ROW"@, text::decimal(last_row as int)),
        config::simple_key("LAST_ROW"@),
        config::simple_value(text::decimal(last_row as int)),
        !text::occurs("[CONFIG]\r"@, "LAST_ROW"@),
{
    let key = "LAST_ROW"@;
    reveal_strlit("LAST_ROW");
    reveal_strlit("LAST_ROW=");
    reveal_strlit("[CONFIG]\r");
    assert(last_row_line(last_row) =~= config::entry(key, text::decimal(last_row as int)));
    assert(!text::occurs("[CONFIG]\r"@, key)) by {
        assert forall|at: int| !text::stands_at("[CONFIG]\r"@, key, at) by {
            if text::stands_at("[CONFIG]\r"@, key, at) {
                assert("[CONFIG]\r"@.subrange(at, at + key.len())[0] == "[CONFIG]\r"@[at]);
            }
        }
    }
    lemma_decimal_is_simple(last_row as int);
}

/// An import takes up its work where the last one left it: after `last_row` was recorded in a
/// simple file, `last_row` is what the settings of the file have as the last row. Every key whose
/// first line does not mention `LAST_ROW` has its value from before.
pub proof fn law_import_resumes(lines: Seq<Seq<char>>, last_row: i32, after: config::Settings)
    requires
        config::simple_file(lines),
        can_record(lines, "LAST_ROW"@),
        after.follows(
            config::simple_entries(with_line(lines, "LAST_ROW"@, last_row_line(last_row))),
        ),
    ensures
        config::simple_file(with_line(lines, "LAST_ROW"@, last_row_line(last_row))),
        after.last_row == Some(last_row),
        forall|at: int, other: Seq<char>| #[trigger]
            first_assigns(lines, at, other) && !text::occurs(lines[at], "LAST_ROW"@) && other
                != "LAST_ROW"@
                ==> config::simple_entries(
                with_line(lines, "LAST_ROW"@, last_row_line(last_row)),
            ).contains_pair(other, config::simple_entries(lines)[other]),
{
    lemma_last_row_line(last_row);
    law_record_reads_back(lines, "LAST_ROW"@, text::decimal(last_row as int));
    text::law_decimal_reads_back(last_row);
}

/// Recording the last row in a simple file with sound settings leaves them sound, where `LAST_ROW`
/// stands on lines of its own alone.
pub proof fn law_settings_stay_sound(lines: Seq<Seq<char>>, last_row: i32)
    requires
        config::simple_file(lines),
        can_record(lines, "LAST_ROW"@),
        only_own_lines(lines, "LAST_ROW"@),
        config::problem(config::simple_entries(lines)) is None,
    ensures
        config::problem(
            config::simple_entries(with_line(lines, "LAST_ROW"@, last_row_line(last_row))),
        ) is None,
{
    let key = "LAST_ROW"@;
    let value = text::decimal(last_row as int);
    lemma_last_row_line(last_row);
    law_record_changes_one_entry(lines, key, value);
    text::law_decimal_reads_back(last_row);
    lemma_none_missing_after(config::required(), config::simple_entries(lines), key, value);
    reveal_strlit("LAST_ROW");
    reveal_strlit("SQL_PORT");
    reveal_strlit("THREADS");
    reveal_strlit("DATE_FORMAT");
    reveal_strlit("CATCHALL");
    assert("SQL_PORT"@[0] != key[0]);
    assert("THREADS"@[0] != key[0]);
    assert("DATE_FORMAT"@[0] != key[0]);
    assert("CATCHALL"@[0] != key[0]);
}

/// The line of the index is one that gives a simple value to a simple key.
proof fn lemma_index_line()
    ensures
        "ES_INDEX_CREATED=yes"@ == config::entry("ES_INDEX_CREATED"@, "yes"@),
        config::simple_key("ES_INDEX_CREATED"@),
        config::simple_value("yes"@),
        !text::occurs("[CONFIG]\r"@, "ES_INDEX_CREATED"@),
{
    reveal_strlit("ES_INDEX_CREATED");
    reveal_strlit("ES_INDEX_CREATED=yes");
    reveal_strlit("yes");
    reveal_strlit("[CONFIG]\r");
    assert("ES_INDEX_CREATED=yes"@ =~= config::entry("ES_INDEX_CREATED"@, "yes"@));
}

/// An index that was recorded as created in a simple file is taken for created from then on,
/// whatever the file said of it. Every key whose first line does not mention `ES_INDEX_CREATED` has
/// its value from before.
pub proof fn law_index_is_created_once(lines: Seq<Seq<char>>, after: config::Settings)
    requires
        config::simple_file(lines),
        can_record(lines, "ES_INDEX_CREATED"@),
        after.follows(
            config::simple_entries(
                with_line(lines, "ES_INDEX_CREATED"@, "ES_INDEX_CREATED=yes"@),
            ),
        ),
    ensures
        config::simple_file(with_line(lines, "ES_INDEX_CREATED"@, "ES_INDEX_CREATED=yes"@)),
        after.index_created,
        forall|at: int, other: Seq<char>| #[trigger]
            first_assigns(lines, at, other) && !text::occurs(lines[at], "ES_INDEX_CREATED"@)
                && other != "ES_INDEX_CREATED"@
                ==> config::simple_entries(
                with_line(lines, "ES_INDEX_CREATED"@, "ES_INDEX_CREATED=yes"@),
            ).contains_pair(other, config::simple_entries(lines)[other]),
{
    lemma_index_line();
    law_record_reads_back(lines, "ES_INDEX_CREATED"@, "yes"@);
}

/// Recording the index as created in a simple file with sound settings leaves them sound, where
/// `ES_INDEX_CREATED` stands on lines of its own alone.
pub proof fn law_settings_stay_sound_with_index(lines: Seq<Seq<char>>)
    requires
        config::simple_file(lines),
        can_record(lines, "ES_INDEX_CREATED"@),
        only_own_lines(lines, "ES_INDEX_CREATED"@),
        config::problem(config::simple_entries(lines)) is None,
    ensures
        config::problem(
            config::simple_entries(
                with_line(lines, "ES_INDEX_CREATED"@, "ES_INDEX_CREATED=yes"@),
            ),
        ) is None,
{
    let key = "ES_INDEX_CREATED"@;
    lemma_index_line();
    law_record_changes_one_entry(lines, key, "yes"@);
    lemma_none_missing_after(config::required(), config::simple_entries(lines), key, "yes"@);
    reveal_strlit("ES_INDEX_CREATED");
    reveal_strlit("LAST_ROW");
    reveal_strlit("SQL_PORT");
    reveal_strlit("THREADS");
    reveal_strlit("DATE_FORMAT");
    reveal_strlit("CATCHALL");
    assert("LAST_ROW"@[0] != key[0]);
    assert("SQL_PORT"@[0] != key[0]);
    assert("THREADS"@[0] != key[0]);
    assert("DATE_FORMAT"@[0] != key[0]);
    assert("CATCHALL"@[0] != key[0]);
}

} // verus!
