//! The settings that the `CONFIG` section of an INI file holds.

use crate::layout::{self, CatchAll, GeoField, Layout};
use crate::text;
use ini::{Ini, Properties};
use vstd::prelude::*;
use vstd::string::*;

verus! {

/// An INI file as the `ini` crate holds it, opaque to proofs but for `sections`.
#[verifier::external_type_specification]
#[verifier::external_body]
pub struct ExIni(ini::Ini);

/// A section of an INI file, opaque to proofs but for `entries`.
#[verifier::external_type_specification]
#[verifier::external_body]
pub struct ExProperties(ini::Properties);

/// An error of the INI parser, opaque to proofs.
#[verifier::external_type_specification]
#[verifier::external_body]
pub struct ExParseError(ini::ParseError);

/// The first value of each key of a section.
pub uninterp spec fn entries(section: ini::Properties) -> Map<Seq<char>, Seq<char>>;

/// The named sections of an INI file: of each name the first one, with the first value of each
/// of its keys.
pub uninterp spec fn sections(file: ini::Ini) -> Map<Seq<char>, Map<Seq<char>, Seq<char>>>;

/// The named sections that the INI parser finds in a text, or nothing where it reports an error.
pub uninterp spec fn ini_read(text: Seq<char>) -> Option<
    Map<Seq<char>, Map<Seq<char>, Seq<char>>>,
>;

/// The line that gives `value` to `key`.
pub open spec fn entry(key: Seq<char>, value: Seq<char>) -> Seq<char> {
    key + seq!['='] + value
}

/// A key that stands in an INI file as it is: no separator or backslash in it, no white space
/// around it, and nothing at its start that makes a comment or a section of its line.
pub open spec fn simple_key(key: Seq<char>) -> bool {
    &&& !key.contains('\\') && !key.contains('\n') && !key.contains('\r')
    &&& !key.contains('=') && !key.contains(':')
    &&& key.len() > 0
    &&& key[0] != ';' && key[0] != '#' && key[0] != '['
    &&& !text::is_space(key[0]) && !text::is_space(key.last())
}

/// A value that stands in an INI file as it is: no backslash in it, no white space around it, and
/// no quote at its start.
pub open spec fn simple_value(value: Seq<char>) -> bool {
    &&& !value.contains('\\') && !value.contains('\n') && !value.contains('\r')
    &&& value.len() > 0 ==> {
        &&& value[0] != '"' && value[0] != '\''
        &&& !text::is_space(value[0]) && !text::is_space(value.last())
    }
}

/// Where `a` or `b` first stands without a backslash before it, or the length of the text where
/// neither does. A backslash that has one before it counts as any other character.
pub open spec fn bare_position(s: Seq<char>, a: char, b: char) -> int
    decreases s.len(),
{
    if s.len() == 0 || s[0] == a || s[0] == b {
        0
    } else if s[0] == '\\' && s.len() > 1 {
        2 + bare_position(s.skip(2), a, b)
    } else {
        1 + bare_position(s.skip(1), a, b)
    }
}

/// The character that a backslash and `c` stand for. The form with a number in it is left out.
pub open spec fn escaped_char(c: char) -> Option<char> {
    match c {
        '0' => Some('\0'),
        'a' => Some('\u{7}'),
        'b' => Some('\u{8}'),
        't' => Some('\t'),
        'r' => Some('\r'),
        'n' => Some('\n'),
        'x' => None,
        _ => Some(c),
    }
}

/// The text with the characters that its escapes stand for, or nothing where it has an escape with
/// a number or ends in the middle of one.
pub open spec fn unescaped(s: Seq<char>) -> Option<Seq<char>>
    decreases s.len(),
{
    if s.len() == 0 {
        Some(s)
    } else if s[0] != '\\' {
        match unescaped(s.skip(1)) {
            Some(rest) => Some(seq![s[0]] + rest),
            None => None,
        }
    } else if s.len() == 1 {
        None
    } else {
        match (escaped_char(s[1]), unescaped(s.skip(2))) {
            (Some(c), Some(rest)) => Some(seq![c] + rest),
            _ => None,
        }
    }
}

/// The value that stands behind a separator: without the white space around it, with the
/// characters that its escapes stand for, and without the quotes that it starts with and the next
/// ones of their kind. Nothing comes out of quotes that are not closed.
pub open spec fn value_of(written: Seq<char>) -> Option<Seq<char>> {
    let value = text::trimmed_start(written);
    if value.len() == 0 || (value[0] != '"' && value[0] != '\'') {
        match unescaped(value) {
            Some(plain) => Some(text::trimmed(plain)),
            None => None,
        }
    } else {
        let quoted = value.skip(1);
        let end = bare_position(quoted, value[0], value[0]);
        if end >= quoted.len() {
            None
        } else {
            match (unescaped(quoted.take(end)), unescaped(quoted.skip(end + 1))) {
                (Some(inside), Some(behind)) => Some(text::trimmed(inside + behind)),
                _ => None,
            }
        }
    }
}

/// The line is a comment.
pub open spec fn is_comment(line: Seq<char>) -> bool {
    line.len() > 0 && (line[0] == ';' || line[0] == '#')
}

/// The line says nothing: it is a comment, or there is only white space on it.
pub open spec fn is_silent(line: Seq<char>) -> bool {
    !line.contains('\n') && (is_comment(line) || text::trimmed(line).len() == 0)
}

/// The key that a line gives a value to, with that value. An equals sign or a colon stands between
/// them. White space around them does not count.
pub open spec fn assignment(line: Seq<char>) -> Option<(Seq<char>, Seq<char>)> {
    let at = bare_position(line, '=', ':');
    if is_comment(line) || at >= line.len() {
        None
    } else {
        match (unescaped(line.take(at)), value_of(line.skip(at + 1))) {
            (Some(key), Some(value)) => Some((text::trimmed(key), value)),
            _ => None,
        }
    }
}

/// The line gives a value to a key, and nothing at its start makes a section of it. It may end in a
/// carriage return.
pub open spec fn is_entry(line: Seq<char>) -> bool {
    let start = text::trimmed_start(line);
    &&& !line.contains('\n')
    &&& forall|i: int| 0 <= i < line.len() - 1 ==> #[trigger] line[i] != '\r'
    &&& start.len() > 0 && start[0] != ';' && start[0] != '#' && start[0] != '['
    &&& match assignment(line) {
        Some((key, _)) => key.len() > 0,
        None => false,
    }
}

/// The line is the head of the `CONFIG` section. It may end in a carriage return.
pub open spec fn is_head(line: Seq<char>) -> bool {
    line == "[CONFIG]"@ || line == "[CONFIG]\r"@
}

/// Where the head of the section stands, or the number of lines where there is none.
pub open spec fn head_at(lines: Seq<Seq<char>>) -> int
    decreases lines.len(),
{
    if lines.len() == 0 || is_head(lines[0]) {
        0
    } else {
        1 + head_at(lines.skip(1))
    }
}

/// There is a `CONFIG` section and no other one, and each line before and after its head is an entry
/// or says nothing.
pub open spec fn simple_file(lines: Seq<Seq<char>>) -> bool {
    &&& head_at(lines) < lines.len()
    &&& forall|i: int|
        0 <= i < lines.len() && i != head_at(lines) ==> is_silent(#[trigger] lines[i]) || is_entry(
            lines[i],
        )
}

/// The first value that the lines from that one on give to each key.
pub open spec fn entries_from(lines: Seq<Seq<char>>, from: int) -> Map<Seq<char>, Seq<char>>
    decreases lines.len(),
{
    if lines.len() <= from || lines.len() == 0 {
        Map::empty()
    } else {
        let earlier = entries_from(lines.drop_last(), from);
        match assignment(lines.last()) {
            Some((key, value)) => if earlier.contains_key(key) {
                earlier
            } else {
                earlier.insert(key, value)
            },
            None => earlier,
        }
    }
}

/// The first value that the lines of the section of a simple file give to each key.
pub open spec fn simple_entries(lines: Seq<Seq<char>>) -> Map<Seq<char>, Seq<char>> {
    entries_from(lines, head_at(lines) + 1)
}

/// `Ini::load_from_str`: the file that a text holds, or the parser's error. Of a file that has a
/// `CONFIG` section and no other one, with an entry, a comment or nothing on each line, it gives each
/// key its first value, both without the white space around them, with quotes and escapes resolved.
/// What it makes of other texts is left to the name.
#[verifier::external_body]
fn read_ini(text: &str) -> (r: Result<Ini, ini::ParseError>)
    ensures
        match r {
            Ok(file) => ini_read(text@) == Some(sections(file)),
            Err(_) => ini_read(text@) is None,
        },
        forall|lines: Seq<Seq<char>>| #[trigger]
            simple_file(lines) && text@ == text::joined(lines, "\n"@) ==> match r {
                Ok(file) => sections(file).contains_pair("CONFIG"@, simple_entries(lines)),
                Err(_) => false,
            },
{
    Ini::load_from_str(text)
}

/// `Ini::section` of a name: the first section of that name, or nothing where there is none.
#[verifier::external_body]
fn section<'a>(file: &'a Ini, name: &str) -> (r: Option<&'a Properties>)
    ensures
        match r {
            Some(found) => sections(*file).contains_pair(name@, entries(*found)),
            None => !sections(*file).contains_key(name@),
        },
{
    file.section(Some(name))
}

/// `Properties::get`: the first value of a key, or nothing where the section lacks the key.
#[verifier::external_body]
fn lookup<'a>(config: &'a Properties, key: &str) -> (r: Option<&'a str>)
    ensures
        match r {
            Some(value) => entries(*config).contains_pair(key@, value@),
            None => !entries(*config).contains_key(key@),
        },
{
    config.get(key)
}

/// The keys that a configuration must have.
pub open spec fn required() -> Seq<Seq<char>> {
    seq![
        "SQL_HOST"@,
        "SQL_PORT"@,
        "SQL_USER"@,
        "SQL_PASS"@,
        "SQL_DB"@,
        "SQL_PREFIX"@,
        "SQL_TABLE"@,
        "ELASTIC_HOST"@,
        "ELASTIC_INDEX"@,
        "ROWS_AT_ONCE"@,
        "THREADS"@,
        "DATE_FORMAT"@,
    ]
}

/// The first of `keys` that `config` lacks.
pub open spec fn first_missing(
    keys: Seq<Seq<char>>,
    config: Map<Seq<char>, Seq<char>>,
) -> Option<Seq<char>>
    decreases keys.len(),
{
    if keys.len() == 0 {
        None
    } else {
        match first_missing(keys.drop_last(), config) {
            Some(key) => Some(key),
            None => if config.contains_key(keys.last()) {
                None
            } else {
                Some(keys.last())
            },
        }
    }
}

/// Checks that every required key has a value; the error is the first key that has none.
pub fn validate_config(config: &Properties) -> (r: Result<(), String>)
    ensures
        match r {
            Ok(_) => first_missing(required(), entries(*config)) is None,
            Err(key) => first_missing(required(), entries(*config)) == Some(key@),
        },
{
    let keys: Vec<&str> = vec![
        "SQL_HOST",
        "SQL_PORT",
        "SQL_USER",
        "SQL_PASS",
        "SQL_DB",
        "SQL_PREFIX",
        "SQL_TABLE",
        "ELASTIC_HOST",
        "ELASTIC_INDEX",
        "ROWS_AT_ONCE",
        "THREADS",
        "DATE_FORMAT",
    ];
    let ghost wanted = required();
    assert(wanted.len() == keys@.len());
    assert(forall|i: int| 0 <= i < keys@.len() ==> (#[trigger] keys@[i])@ == wanted[i]);
    let mut i: usize = 0;
    while i < keys.len()
        invariant
            i <= keys@.len(),
            wanted == required(),
            wanted.len() == keys@.len(),
            forall|j: int| 0 <= j < keys@.len() ==> (#[trigger] keys@[j])@ == wanted[j],
            first_missing(wanted.take(i as int), entries(*config)) is None,
        decreases keys@.len() - i,
    {
        proof {
            assert(wanted.take(i + 1).drop_last() =~= wanted.take(i as int));
            assert(wanted.take(i + 1).last() == wanted[i as int]);
        }
        if lookup(config, keys[i]).is_none() {
            proof {
                lemma_first_missing_stays(wanted, i + 1, entries(*config));
            }
            return Err(keys[i].to_owned());
        }
        i += 1;
    }
    assert(wanted.take(i as int) =~= wanted);
    Ok(())
}

/// What the first keys lack first, all keys lack first.
proof fn lemma_first_missing_stays(
    keys: Seq<Seq<char>>,
    k: int,
    config: Map<Seq<char>, Seq<char>>,
)
    requires
        0 <= k <= keys.len(),
        first_missing(keys.take(k), config) is Some,
    ensures
        first_missing(keys, config) == first_missing(keys.take(k), config),
    decreases keys.len(),
{
    if k == keys.len() {
        assert(keys.take(k) =~= keys);
    } else {
        assert(keys.drop_last().take(k) =~= keys.take(k));
        lemma_first_missing_stays(keys.drop_last(), k, config);
    }
}

/// The value of a key, or `default` where the key has none.
pub open spec fn value_or(
    config: Map<Seq<char>, Seq<char>>,
    key: Seq<char>,
    default: Seq<char>,
) -> Seq<char> {
    if config.contains_key(key) {
        config[key]
    } else {
        default
    }
}

/// The value of a key, or `default` where the key has none.
fn get_or(config: &Properties, key: &str, default: &str) -> (r: String)
    ensures
        r@ == value_or(entries(*config), key@, default@),
{
    match lookup(config, key) {
        Some(value) => value.to_owned(),
        None => default.to_owned(),
    }
}

/// The name and password for ElasticSearch.
pub struct ElasticAuth {
    pub username: String,
    pub password: String,
}

/// The name and password for ElasticSearch; each is empty where the configuration has none.
pub fn get_elastic_auth(config: &Properties) -> (r: ElasticAuth)
    ensures
        r.username@ == value_or(entries(*config), "ELASTIC_USER"@, ""@),
        r.password@ == value_or(entries(*config), "ELASTIC_PASS"@, ""@),
{
    ElasticAuth {
        username: get_or(config, "ELASTIC_USER", ""),
        password: get_or(config, "ELASTIC_PASS", ""),
    }
}

/// The point field of a configuration: none where its name is not given or left empty.
pub open spec fn geo_of(config: Map<Seq<char>, Seq<char>>) -> Option<layout::GeoModel> {
    let name = value_or(config, "ELASTIC_GEO_FIELD"@, ""@);
    if name.len() == 0 {
        None
    } else {
        Some(
            layout::GeoModel {
                name,
                longitude: value_or(config, "SQL_LON_FIELD"@, "locLongWGS84_wh"@),
                latitude: value_or(config, "SQL_LAT_FIELD"@, "locLatWGS84_wh"@),
            },
        )
    }
}

/// The point field of a configuration: none where its name is not given or left empty.
fn geo_field(config: &Properties) -> (r: Option<GeoField>)
    ensures
        match r {
            Some(geo) => geo_of(entries(*config)) == Some(geo@),
            None => geo_of(entries(*config)) is None,
        },
{
    let name = get_or(config, "ELASTIC_GEO_FIELD", "");
    if name.as_str().unicode_len() == 0 {
        None
    } else {
        Some(
            GeoField {
                name,
                longitude: get_or(config, "SQL_LON_FIELD", "locLongWGS84_wh"),
                latitude: get_or(config, "SQL_LAT_FIELD", "locLatWGS84_wh"),
            },
        )
    }
}

/// The combined fields that a configuration lists, none where it has no list. Nothing comes out
/// where the list is malformed.
pub open spec fn configured_catchalls(config: Map<Seq<char>, Seq<char>>) -> Option<
    Seq<layout::CatchAllModel>,
> {
    if config.contains_key("CATCHALL"@) {
        layout::catchalls_of(config["CATCHALL"@])
    } else {
        Some(seq![])
    }
}

/// The combined fields that a configuration lists, or `None` where the list is malformed.
fn catchalls(config: &Properties) -> (r: Option<Vec<CatchAll>>)
    ensures
        match r {
            Some(found) => configured_catchalls(entries(*config)) == Some(layout::models(found@)),
            None => configured_catchalls(entries(*config)) is None,
        },
{
    match lookup(config, "CATCHALL") {
        Some(list) => layout::parse_catchalls(list),
        None => {
            let none: Vec<CatchAll> = Vec::new();
            assert(layout::models(none@) =~= seq![]);
            Some(none)
        },
    }
}

/// The style number of a date format, one of 1 to 130.
pub open spec fn date_style_of(value: Seq<char>) -> Option<u16> {
    match text::u16_of(value) {
        Some(n) => if 1 <= n <= 130 {
            Some(n)
        } else {
            None
        },
        None => None,
    }
}

/// Reads the style number of a date format, one of 1 to 130.
pub fn parse_date_style(value: &str) -> (r: Option<u16>)
    ensures
        r == date_style_of(value@),
{
    match text::parse_u16(value) {
        Some(n) => if 1 <= n && n <= 130 {
            Some(n)
        } else {
            None
        },
        None => None,
    }
}

/// What is wrong with the values of a `CONFIG` section.
pub enum SettingsError {
    /// A required key has no value.
    Missing(String),
    /// The port is not a number of 16 bits.
    Port,
    /// The last row is not a number of 32 bits.
    LastRow,
    /// The number of threads is not a number.
    Threads,
    /// The date format is not one of 1 to 130.
    DateFormat,
    /// The list of combined fields starts with members that belong to none.
    Catchall,
}

/// A `SettingsError` as mathematics sees it.
pub enum Problem {
    Missing(Seq<char>),
    Port,
    LastRow,
    Threads,
    DateFormat,
    Catchall,
}

impl View for SettingsError {
    type V = Problem;

    open spec fn view(&self) -> Problem {
        match *self {
            SettingsError::Missing(key) => Problem::Missing(key@),
            SettingsError::Port => Problem::Port,
            SettingsError::LastRow => Problem::LastRow,
            SettingsError::Threads => Problem::Threads,
            SettingsError::DateFormat => Problem::DateFormat,
            SettingsError::Catchall => Problem::Catchall,
        }
    }
}

/// The first thing that is wrong with a configuration.
pub open spec fn problem(config: Map<Seq<char>, Seq<char>>) -> Option<Problem> {
    match first_missing(required(), config) {
        Some(key) => Some(Problem::Missing(key)),
        None => {
            if text::u16_of(config["SQL_PORT"@]) is None {
                Some(Problem::Port)
            } else if config.contains_key("LAST_ROW"@) && text::i32_of(config["LAST_ROW"@]) is None {
                Some(Problem::LastRow)
            } else if text::usize_of(config["THREADS"@]) is None {
                Some(Problem::Threads)
            } else if date_style_of(config["DATE_FORMAT"@]) is None {
                Some(Problem::DateFormat)
            } else if configured_catchalls(config) is None {
                Some(Problem::Catchall)
            } else {
                None
            }
        },
    }
}

/// The settings of an import.
pub struct Settings {
    /// The host of the SQL server.
    pub host: String,
    /// The port of the SQL server.
    pub port: u16,
    /// The user at the SQL server.
    pub user: String,
    /// The password at the SQL server.
    pub password: String,
    /// The database that holds the table.
    pub database: String,
    /// The schema that holds the table.
    pub prefix: String,
    /// The table to import.
    pub table: String,
    /// The address of ElasticSearch.
    pub elastic_host: String,
    /// The index to import into.
    pub elastic_index: String,
    /// The name and password for ElasticSearch.
    pub auth: ElasticAuth,
    /// The number of rows of a batch, as it is written.
    pub rows_at_once: String,
    /// The index exists already.
    pub index_created: bool,
    /// The last primary key that was imported, where one is on record.
    pub last_row: Option<i32>,
    /// The number of threads that process rows.
    pub threads: usize,
    /// The style in which dates are fetched.
    pub date_style: u16,
    /// The fields that documents have beside the columns of the table.
    pub layout: Layout,
}

impl Settings {
    /// The settings say what a configuration says.
    pub open spec fn follows(self, config: Map<Seq<char>, Seq<char>>) -> bool {
        &&& self.host@ == config["SQL_HOST"@]
        &&& text::u16_of(config["SQL_PORT"@]) == Some(self.port)
        &&& self.user@ == config["SQL_USER"@]
        &&& self.password@ == config["SQL_PASS"@]
        &&& self.database@ == config["SQL_DB"@]
        &&& self.prefix@ == config["SQL_PREFIX"@]
        &&& self.table@ == config["SQL_TABLE"@]
        &&& self.elastic_host@ == config["ELASTIC_HOST"@]
        &&& self.elastic_index@ == config["ELASTIC_INDEX"@]
        &&& self.auth.username@ == value_or(config, "ELASTIC_USER"@, ""@)
        &&& self.auth.password@ == value_or(config, "ELASTIC_PASS"@, ""@)
        &&& self.rows_at_once@ == config["ROWS_AT_ONCE"@]
        &&& self.index_created == (value_or(config, "ES_INDEX_CREATED"@, "no"@) == "yes"@)
        &&& self.last_row == if config.contains_key("LAST_ROW"@) {
            text::i32_of(config["LAST_ROW"@])
        } else {
            None
        }
        &&& text::usize_of(config["THREADS"@]) == Some(self.threads)
        &&& date_style_of(config["DATE_FORMAT"@]) == Some(self.date_style)
        &&& self.layout@.geo == geo_of(config)
        &&& configured_catchalls(config) == Some(self.layout@.catchalls)
    }
}

/// A required key has a value where none is missing.
proof fn lemma_none_missing(keys: Seq<Seq<char>>, config: Map<Seq<char>, Seq<char>>, i: int)
    requires
        first_missing(keys, config) is None,
        0 <= i < keys.len(),
    ensures
        config.contains_key(keys[i]),
    decreases keys.len(),
{
    if i < keys.len() - 1 {
        lemma_none_missing(keys.drop_last(), config, i);
    }
}

/// Reads the settings of a `CONFIG` section; the error is the first thing that is wrong with it.
pub fn read_settings(config: &Properties) -> (r: Result<Settings, SettingsError>)
    ensures
        match r {
            Ok(settings) => problem(entries(*config)) is None && settings.follows(entries(*config)),
            Err(error) => problem(entries(*config)) == Some(error@),
        },
{
    match validate_config(config) {
        Ok(_) => {},
        Err(key) => {
            return Err(SettingsError::Missing(key));
        },
    }
    proof {
        assert forall|i: int| 0 <= i < required().len() implies entries(*config).contains_key(
            #[trigger] required()[i],
        ) by {
            lemma_none_missing(required(), entries(*config), i);
        }
        assert(required()[0] == "SQL_HOST"@);
        assert(required()[1] == "SQL_PORT"@);
        assert(required()[2] == "SQL_USER"@);
        assert(required()[3] == "SQL_PASS"@);
        assert(required()[4] == "SQL_DB"@);
        assert(required()[5] == "SQL_PREFIX"@);
        assert(required()[6] == "SQL_TABLE"@);
        assert(required()[7] == "ELASTIC_HOST"@);
        assert(required()[8] == "ELASTIC_INDEX"@);
        assert(required()[9] == "ROWS_AT_ONCE"@);
        assert(required()[10] == "THREADS"@);
        assert(required()[11] == "DATE_FORMAT"@);
    }
    let port: u16 = match text::parse_u16(get_or(config, "SQL_PORT", "").as_str()) {
        Some(n) => n,
        None => {
            return Err(SettingsError::Port);
        },
    };
    let last_row: Option<i32> = match lookup(config, "LAST_ROW") {
        Some(value) => match text::parse_i32(value) {
            Some(n) => Some(n),
            None => {
                return Err(SettingsError::LastRow);
            },
        },
        None => None,
    };
    let threads: usize = match text::parse_usize(get_or(config, "THREADS", "").as_str()) {
        Some(n) => n,
        None => {
            return Err(SettingsError::Threads);
        },
    };
    let date_style: u16 = match parse_date_style(get_or(config, "DATE_FORMAT", "").as_str()) {
        Some(n) => n,
        None => {
            return Err(SettingsError::DateFormat);
        },
    };
    let catchalls = match catchalls(config) {
        Some(found) => found,
        None => {
            return Err(SettingsError::Catchall);
        },
    };
    Ok(
        Settings {
            host: get_or(config, "SQL_HOST", ""),
            port,
            user: get_or(config, "SQL_USER", ""),
            password: get_or(config, "SQL_PASS", ""),
            database: get_or(config, "SQL_DB", ""),
            prefix: get_or(config, "SQL_PREFIX", ""),
            table: get_or(config, "SQL_TABLE", ""),
            elastic_host: get_or(config, "ELASTIC_HOST", ""),
            elastic_index: get_or(config, "ELASTIC_INDEX", ""),
            auth: get_elastic_auth(config),
            rows_at_once: get_or(config, "ROWS_AT_ONCE", ""),
            index_created: text::same_text(get_or(config, "ES_INDEX_CREATED", "no").as_str(), "yes"),
            last_row,
            threads,
            date_style,
            layout: Layout { geo: geo_field(config), catchalls },
        },
    )
}

/// Why an INI file gives no settings.
pub enum ConfigError {
    /// The file is not in INI format.
    Unreadable(ini::ParseError),
    /// The file has no `CONFIG` section.
    NoSection,
    /// A value of the section is missing or malformed.
    Settings(SettingsError),
}

/// The text without the byte order mark that may stand before it.
pub open spec fn unmarked(file: Seq<char>) -> Seq<char> {
    if file.len() > 0 && file[0] == '\u{feff}' {
        file.skip(1)
    } else {
        file
    }
}

/// Reads the settings from the text of an INI file, with or without a byte order mark. The
/// settings of a simple file are those that its lines give.
pub fn load_settings(file: &str) -> (r: Result<Settings, ConfigError>)
    ensures
        match (r, ini_read(unmarked(file@))) {
            (Ok(settings), Some(found)) => found.contains_key("CONFIG"@) && problem(
                found["CONFIG"@],
            ) is None && settings.follows(found["CONFIG"@]),
            (Err(ConfigError::NoSection), Some(found)) => !found.contains_key("CONFIG"@),
            (Err(ConfigError::Settings(error)), Some(found)) => found.contains_key("CONFIG"@)
                && problem(found["CONFIG"@]) == Some(error@),
            (Err(ConfigError::Unreadable(_)), None) => true,
            _ => false,
        },
        forall|lines: Seq<Seq<char>>| #[trigger]
            simple_file(lines) && unmarked(file@) == text::joined(lines, "\n"@) ==> match (
                r,
                problem(simple_entries(lines)),
            ) {
                (Ok(settings), None) => settings.follows(simple_entries(lines)),
                (Err(ConfigError::Settings(error)), Some(found)) => error@ == found,
                _ => false,
            },
{
    let size: usize = file.unicode_len();
    let content = if size > 0 && file.get_char(0) == '\u{feff}' {
        file.substring_char(1, size)
    } else {
        file
    };
    assert(content@ =~= unmarked(file@));
    let found = match read_ini(content) {
        Ok(found) => found,
        Err(error) => {
            return Err(ConfigError::Unreadable(error));
        },
    };
    match section(&found, "CONFIG") {
        Some(config) => match read_settings(config) {
            Ok(settings) => Ok(settings),
            Err(error) => Err(ConfigError::Settings(error)),
        },
        None => Err(ConfigError::NoSection),
    }
}

/// The value of a key is what the configuration gives it, and the default stands in only where it
/// gives none.
pub proof fn law_defaults_stand_in(
    config: Map<Seq<char>, Seq<char>>,
    key: Seq<char>,
    default: Seq<char>,
)
    ensures
        config.contains_key(key) ==> value_or(config, key, default) == config[key],
        !config.contains_key(key) ==> value_or(config, key, default) == default,
{
}

/// Settings that follow a configuration have of each key the value that it gives, whatever that is,
/// and the default where it gives none.
pub proof fn law_settings_say_what_is_configured(
    settings: Settings,
    config: Map<Seq<char>, Seq<char>>,
)
    requires
        settings.follows(config),
    ensures
        settings.host@ == config["SQL_HOST"@],
        text::u16_of(config["SQL_PORT"@]) == Some(settings.port),
        settings.user@ == config["SQL_USER"@],
        settings.password@ == config["SQL_PASS"@],
        settings.database@ == config["SQL_DB"@],
        settings.prefix@ == config["SQL_PREFIX"@],
        settings.table@ == config["SQL_TABLE"@],
        settings.elastic_host@ == config["ELASTIC_HOST"@],
        settings.elastic_index@ == config["ELASTIC_INDEX"@],
        settings.rows_at_once@ == config["ROWS_AT_ONCE"@],
        text::usize_of(config["THREADS"@]) == Some(settings.threads),
        text::u16_of(config["DATE_FORMAT"@]) == Some(settings.date_style),
        1 <= settings.date_style <= 130,
        config.contains_key("ELASTIC_USER"@) ==> settings.auth.username@ == config["ELASTIC_USER"@],
        !config.contains_key("ELASTIC_USER"@) ==> settings.auth.username@.len() == 0,
        config.contains_key("ELASTIC_PASS"@) ==> settings.auth.password@ == config["ELASTIC_PASS"@],
        !config.contains_key("ELASTIC_PASS"@) ==> settings.auth.password@.len() == 0,
        settings.index_created <==> config.contains_key("ES_INDEX_CREATED"@)
            && config["ES_INDEX_CREATED"@] == "yes"@,
        config.contains_key("LAST_ROW"@) ==> settings.last_row == text::i32_of(config["LAST_ROW"@]),
        !config.contains_key("LAST_ROW"@) ==> settings.last_row is None,
        settings.layout.geo is Some <==> config.contains_key("ELASTIC_GEO_FIELD"@)
            && config["ELASTIC_GEO_FIELD"@].len() > 0,
        settings.layout.geo is Some ==> settings.layout.geo->0.name@ == config["ELASTIC_GEO_FIELD"@],
        settings.layout.geo is Some && config.contains_key("SQL_LON_FIELD"@)
            ==> settings.layout.geo->0.longitude@ == config["SQL_LON_FIELD"@],
        settings.layout.geo is Some && !config.contains_key("SQL_LON_FIELD"@)
            ==> settings.layout.geo->0.longitude@ == "locLongWGS84_wh"@,
        settings.layout.geo is Some && config.contains_key("SQL_LAT_FIELD"@)
            ==> settings.layout.geo->0.latitude@ == config["SQL_LAT_FIELD"@],
        settings.layout.geo is Some && !config.contains_key("SQL_LAT_FIELD"@)
            ==> settings.layout.geo->0.latitude@ == "locLatWGS84_wh"@,
        config.contains_key("CATCHALL"@) ==> layout::catchalls_of(config["CATCHALL"@]) == Some(
            layout::models(settings.layout.catchalls@),
        ),
        !config.contains_key("CATCHALL"@) ==> settings.layout.catchalls@.len() == 0,
{
    reveal_strlit("");
    reveal_strlit("no");
    reveal_strlit("yes");
    assert("no"@.len() != "yes"@.len());
    assert(layout::models(settings.layout.catchalls@).len() == settings.layout.catchalls@.len());
}

/// The keys that must be there are these twelve, and they are missed in this order.
pub proof fn law_required_keys()
    ensures
        required().len() == 12,
        required()[0] == "SQL_HOST"@,
        required()[1] == "SQL_PORT"@,
        required()[2] == "SQL_USER"@,
        required()[3] == "SQL_PASS"@,
        required()[4] == "SQL_DB"@,
        required()[5] == "SQL_PREFIX"@,
        required()[6] == "SQL_TABLE"@,
        required()[7] == "ELASTIC_HOST"@,
        required()[8] == "ELASTIC_INDEX"@,
        required()[9] == "ROWS_AT_ONCE"@,
        required()[10] == "THREADS"@,
        required()[11] == "DATE_FORMAT"@,
{
}

/// The first key of the list that the configuration lacks is the one that is missed, and none is
/// missed where it has all of them.
pub proof fn law_first_missing_key(
    keys: Seq<Seq<char>>,
    config: Map<Seq<char>, Seq<char>>,
    k: int,
)
    ensures
        (forall|i: int| 0 <= i < keys.len() ==> config.contains_key(#[trigger] keys[i]))
            <==> first_missing(keys, config) is None,
        0 <= k < keys.len() && !config.contains_key(keys[k]) && (forall|i: int|
            0 <= i < k ==> config.contains_key(#[trigger] keys[i])) ==> first_missing(keys, config)
            == Some(keys[k]),
    decreases keys.len(),
{
    if keys.len() > 0 {
        let shorter = keys.drop_last();
        law_first_missing_key(shorter, config, k);
        if forall|i: int| 0 <= i < keys.len() ==> config.contains_key(#[trigger] keys[i]) {
            assert forall|i: int| 0 <= i < shorter.len() implies config.contains_key(
                #[trigger] shorter[i],
            ) by {
                assert(config.contains_key(keys[i]));
            }
            assert(config.contains_key(keys[keys.len() - 1]));
        }
        if first_missing(keys, config) is None {
            assert forall|i: int| 0 <= i < keys.len() implies config.contains_key(
                #[trigger] keys[i],
            ) by {
                if i < shorter.len() {
                    assert(config.contains_key(shorter[i]));
                }
            }
        }
        if 0 <= k < shorter.len() && (forall|i: int|
            0 <= i < k ==> config.contains_key(#[trigger] keys[i])) {
            assert forall|i: int| 0 <= i < k implies config.contains_key(#[trigger] shorter[i]) by {
                assert(config.contains_key(keys[i]));
            }
        } else if k == shorter.len() && (forall|i: int|
            0 <= i < k ==> config.contains_key(#[trigger] keys[i])) {
            assert forall|i: int| 0 <= i < shorter.len() implies config.contains_key(
                #[trigger] shorter[i],
            ) by {
                assert(config.contains_key(keys[i]));
            }
        }
    }
}

/// A configuration is sound where it has every required key, its port, threads and date style are
/// numbers in range, its last row is one where it has one, and so is its list of combined fields.
/// What is wrong otherwise is reported in this order.
pub proof fn law_what_is_wrong(config: Map<Seq<char>, Seq<char>>)
    requires
        first_missing(required(), config) is None,
    ensures
        ({
            let port = text::u16_of(config["SQL_PORT"@]) is Some;
            let row = config.contains_key("LAST_ROW"@) ==> text::i32_of(config["LAST_ROW"@]) is Some;
            let threads = text::usize_of(config["THREADS"@]) is Some;
            let style = text::u16_of(config["DATE_FORMAT"@]) is Some && 1 <= text::u16_of(
                config["DATE_FORMAT"@],
            )->0 <= 130;
            let list = config.contains_key("CATCHALL"@) ==> layout::catchalls_of(
                config["CATCHALL"@],
            ) is Some;
            &&& problem(config) is None <==> port && row && threads && style && list
            &&& problem(config) == Some(Problem::Port) <==> !port
            &&& problem(config) == Some(Problem::LastRow) <==> port && !row
            &&& problem(config) == Some(Problem::Threads) <==> port && row && !threads
            &&& problem(config) == Some(Problem::DateFormat) <==> port && row && threads && !style
            &&& problem(config) == Some(Problem::Catchall) <==> port && row && threads && style
                && !list
        }),
{
}

/// A configuration that lacks a required key is wrong for that, whatever else is wrong with it.
pub proof fn law_missing_keys_come_first(config: Map<Seq<char>, Seq<char>>, k: int)
    requires
        0 <= k < required().len(),
        !config.contains_key(required()[k]),
        forall|i: int| 0 <= i < k ==> config.contains_key(#[trigger] required()[i]),
    ensures
        problem(config) == Some(Problem::Missing(required()[k])),
{
    law_first_missing_key(required(), config, k);
}

/// The date styles are the numbers from 1 to 130, however they are written.
pub proof fn law_date_styles(value: Seq<char>, n: u16)
    ensures
        date_style_of(value) == Some(n) <==> text::u16_of(value) == Some(n) && 1 <= n <= 130,
        1 <= n <= 130 ==> date_style_of(text::decimal(n as int)) == Some(n),
{
    text::law_unsigned_reads_back(n, 0);
}

/// A byte order mark before a text does not count, and nothing else is taken from a text.
pub proof fn law_byte_order_mark(file: Seq<char>)
    ensures
        unmarked(seq!['\u{feff}'] + file) == file,
        file.len() == 0 || file[0] != '\u{feff}' ==> unmarked(file) == file,
{
    let marked = seq!['\u{feff}'] + file;
    assert(marked.skip(1) =~= file);
}

/// What mathematics sees of a settings error is what it says.
pub proof fn law_settings_error_is_seen(error: SettingsError)
    ensures
        error matches SettingsError::Missing(key) ==> error@ == Problem::Missing(key@),
        error is Port <==> error@ is Port,
        error is LastRow <==> error@ is LastRow,
        error is Threads <==> error@ is Threads,
        error is DateFormat <==> error@ is DateFormat,
        error is Catchall <==> error@ is Catchall,
{
}

} // verus!
