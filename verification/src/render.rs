//! Rendering of log events as text lines or JSON objects, timestamps, and the
//! default watched directory.

use vstd::prelude::*;
use crate::config::ConfigStruct;
use crate::text::{digit_char, hex2};
use crate::types::{event_type_name, level_name, EventType, LogEvent, LogFormat, LogLevel};

verus! {

/// The error of serde_json's serialisers.
#[verifier::external_type_specification]
#[verifier::external_body]
pub struct ExJsonError(serde_json::Error);

/// What `format!("{:?}", s)` gives for a string: the quoted, escaped literal.
pub uninterp spec fn debug_string_text(s: Seq<char>) -> Seq<char>;

/// What chrono prints for a Unix time in seconds with the pattern
/// `%Y-%m-%d %H:%M:%S` (UTC), or `None` where chrono has no date for it.
pub uninterp spec fn utc_timestamp_text(secs: int) -> Option<Seq<char>>;

/// How a character stands in a JSON string literal: quote, backslash and the
/// control characters escaped (the short forms where JSON has one, `\u00xx`
/// with lower-case hexadecimal otherwise), every other character as it is.
pub open spec fn json_char_escape(c: char) -> Seq<char> {
    if c == '"' {
        seq!['\\', '"']
    } else if c == '\\' {
        seq!['\\', '\\']
    } else if c == '\u{8}' {
        seq!['\\', 'b']
    } else if c == '\t' {
        seq!['\\', 't']
    } else if c == '\n' {
        seq!['\\', 'n']
    } else if c == '\u{c}' {
        seq!['\\', 'f']
    } else if c == '\r' {
        seq!['\\', 'r']
    } else if (c as u32) < 0x20 {
        seq!['\\', 'u', '0', '0'] + hex2((c as u32) as u8)
    } else {
        seq![c]
    }
}

/// The characters of a string escaped for a JSON string literal.
pub open spec fn json_escaped(s: Seq<char>) -> Seq<char>
    decreases s.len(),
{
    if s.len() == 0 {
        Seq::empty()
    } else {
        json_char_escape(s[0]) + json_escaped(s.drop_first())
    }
}

/// A string as a JSON string literal: escaped, between quote marks.
pub open spec fn json_quoted(s: Seq<char>) -> Seq<char> {
    seq!['"'] + json_escaped(s) + seq!['"']
}

/// The value of a hexadecimal digit, either case.
pub open spec fn hex_digit_value(c: char) -> int {
    if '0' <= c && c <= '9' {
        c as int - '0' as int
    } else if 'a' <= c && c <= 'f' {
        c as int - 'a' as int + 10
    } else {
        c as int - 'A' as int + 10
    }
}

/// The character that a two-character JSON escape `\x` stands for.
pub open spec fn json_short_unescape(c: char) -> char {
    if c == 'b' {
        '\u{8}'
    } else if c == 't' {
        '\t'
    } else if c == 'n' {
        '\n'
    } else if c == 'f' {
        '\u{c}'
    } else if c == 'r' {
        '\r'
    } else {
        c
    }
}

/// The character that a `\uXXXX` escape stands for.
pub open spec fn json_code_unescape(a: char, b: char, c: char, d: char) -> char {
    (hex_digit_value(a) * 4096 + hex_digit_value(b) * 256 + hex_digit_value(c) * 16 + hex_digit_value(d)) as char
}

/// Reads the body of a JSON string literal, after its opening quote: the
/// characters it stands for and what follows its closing quote, or `None`
/// where the text ends first.
pub open spec fn json_read_string(t: Seq<char>) -> Option<(Seq<char>, Seq<char>)>
    decreases t.len(),
{
    if t.len() == 0 {
        None
    } else if t[0] == '"' {
        Some((Seq::empty(), t.skip(1)))
    } else if t[0] == '\\' && t.len() >= 6 && t[1] == 'u' {
        match json_read_string(t.skip(6)) {
            Some((v, rest)) => Some((seq![json_code_unescape(t[2], t[3], t[4], t[5])] + v, rest)),
            None => None,
        }
    } else if t[0] == '\\' && t.len() >= 2 {
        match json_read_string(t.skip(2)) {
            Some((v, rest)) => Some((seq![json_short_unescape(t[1])] + v, rest)),
            None => None,
        }
    } else {
        match json_read_string(t.skip(1)) {
            Some((v, rest)) => Some((seq![t[0]] + v, rest)),
            None => None,
        }
    }
}

/// Reads a field of the event object: the text up to and with the field's
/// opening quote must be `prefix`; then the string literal is read.
pub open spec fn json_read_field(t: Seq<char>, prefix: Seq<char>) -> Option<(Seq<char>, Seq<char>)> {
    if prefix.len() <= t.len() && t.take(prefix.len() as int) == prefix {
        json_read_string(t.skip(prefix.len() as int))
    } else {
        None
    }
}

/// Reads an event object in the layout that `json_text` writes: level,
/// event type, timestamp and details, or `None` where the text is not in
/// that layout.
pub open spec fn json_read_event(t: Seq<char>) -> Option<(Seq<char>, Seq<char>, Seq<char>, Seq<char>)> {
    match json_read_field(t, "{\"level\":\""@) {
        Some((level, r1)) => match json_read_field(r1, ",\"event_type\":\""@) {
            Some((kind, r2)) => match json_read_field(r2, ",\"timestamp\":\""@) {
                Some((timestamp, r3)) => match json_read_field(r3, ",\"details\":\""@) {
                    Some((details, r4)) => if r4 == "}"@ {
                        Some((level, kind, timestamp, details))
                    } else {
                        None
                    },
                    None => None,
                },
                None => None,
            },
            None => None,
        },
        None => None,
    }
}

proof fn lemma_read_escaped_char(c: char, t: Seq<char>)
    ensures
        json_read_string(json_char_escape(c) + t) == match json_read_string(t) {
            Some((v, rest)) => Some((seq![c] + v, rest)),
            None => None::<(Seq<char>, Seq<char>)>,
        },
{
    let e = json_char_escape(c);
    let u = e + t;
    if c == '"' || c == '\\' || c == '\u{8}' || c == '\t' || c == '\n' || c == '\u{c}' || c == '\r' {
        assert(u.skip(2) =~= t);
    } else if (c as u32) < 0x20 {
        let b = (c as u32) as u8;
        assert(u.skip(6) =~= t);
        assert(u[2] == '0' && u[3] == '0');
        assert(u[4] == digit_char((b / 16) as nat));
        assert(u[5] == digit_char((b % 16) as nat));
        assert(b / 16 < 2);
        assert(hex_digit_value(u[4]) == b / 16);
        assert(hex_digit_value(u[5]) == b % 16) by {
            let d = b % 16;
            assert(d < 16);
        }
        assert(json_code_unescape(u[2], u[3], u[4], u[5]) == c);
    } else {
        assert(u.skip(1) =~= t);
    }
}

proof fn lemma_read_escaped(s: Seq<char>, t: Seq<char>)
    ensures
        json_read_string(json_escaped(s) + seq!['"'] + t) == Some((s, t)),
    decreases s.len(),
{
    if s.len() == 0 {
        assert(json_escaped(s) + seq!['"'] + t =~= seq!['"'] + t);
        assert((seq!['"'] + t).skip(1) =~= t);
    } else {
        let rest = json_escaped(s.drop_first()) + seq!['"'] + t;
        lemma_read_escaped(s.drop_first(), t);
        lemma_read_escaped_char(s[0], rest);
        assert(json_escaped(s) + seq!['"'] + t =~= json_char_escape(s[0]) + rest);
        assert(seq![s[0]] + s.drop_first() =~= s);
    }
}

proof fn lemma_read_field(prefix: Seq<char>, s: Seq<char>, t: Seq<char>)
    ensures
        json_read_field(prefix + json_escaped(s) + seq!['"'] + t, prefix) == Some((s, t)),
{
    let u = prefix + json_escaped(s) + seq!['"'] + t;
    assert(u.take(prefix.len() as int) =~= prefix);
    assert(u.skip(prefix.len() as int) =~= json_escaped(s) + seq!['"'] + t);
    lemma_read_escaped(s, t);
}

/// A JSON event object reads back as the event it was written from: its
/// level and type names, timestamp and details, each string unescaped to
/// exactly what was written.
pub proof fn lemma_json_event_reads_back(level: LogLevel, kind: EventType, timestamp: Seq<char>, details: Seq<char>)
    ensures
        json_read_event(json_text(level, kind, timestamp, details))
            == Some((level_name(level), event_type_name(kind), timestamp, details)),
{
    let p1 = "{\"level\":\""@;
    let p2 = ",\"event_type\":\""@;
    let p3 = ",\"timestamp\":\""@;
    let p4 = ",\"details\":\""@;
    let close = "}"@;
    let l = level_name(level);
    let k = event_type_name(kind);
    reveal_strlit("{\"level\":\"");
    reveal_strlit("{\"level\":");
    reveal_strlit(",\"event_type\":\"");
    reveal_strlit(",\"event_type\":");
    reveal_strlit(",\"timestamp\":\"");
    reveal_strlit(",\"timestamp\":");
    reveal_strlit(",\"details\":\"");
    reveal_strlit(",\"details\":");
    reveal_strlit("}");
    let r4 = close;
    let r3 = p4 + json_escaped(details) + seq!['"'] + r4;
    let r2 = p3 + json_escaped(timestamp) + seq!['"'] + r3;
    let r1 = p2 + json_escaped(k) + seq!['"'] + r2;
    let whole = p1 + json_escaped(l) + seq!['"'] + r1;
    assert(json_text(level, kind, timestamp, details) =~= whole);
    lemma_read_field(p1, l, r1);
    lemma_read_field(p2, k, r2);
    lemma_read_field(p3, timestamp, r3);
    lemma_read_field(p4, details, r4);
}

/// Calls `serde_json::to_string` on a string. Claimed: it succeeds (it writes
/// into a `Vec`, which takes every write) and gives the string as a JSON
/// string literal, `json_quoted`.
#[verifier::external_body]
fn json_string(s: &str) -> (res: Result<String, serde_json::Error>)
    ensures
        res is Ok,
        res matches Ok(j) ==> j@ == json_quoted(s@),
{
    serde_json::to_string(s)
}

/// Calls std's `Debug` formatting (`format!("{:?}", s)`) on a string.
/// Claimed: the result is the text `debug_string_text` names for the argument.
#[verifier::external_body]
pub(crate) fn debug_string(s: &str) -> (res: String)
    ensures
        res@ == debug_string_text(s@),
{
    format!("{:?}", s)
}

/// What `format!("{:?}", path)` gives for a path made from a string: the
/// quoted, escaped path.
pub uninterp spec fn path_debug_text(p: Seq<char>) -> Seq<char>;

/// Calls std's `Debug` formatting on the path `Path::new(p)`. Claimed: the
/// result is the text `path_debug_text` names for the argument.
#[verifier::external_body]
pub(crate) fn debug_path(p: &str) -> (res: String)
    ensures
        res@ == path_debug_text(p@),
{
    format!("{:?}", std::path::Path::new(p))
}

/// Whether a Unix time in seconds falls in the years 0 to 9999 (UTC), the
/// years that `%Y` prints as four digits with no sign.
pub open spec fn four_digit_year_seconds(secs: int) -> bool {
    -62_167_219_200 <= secs && secs < 253_402_300_800
}

/// Whether a character is an ASCII decimal digit.
pub open spec fn is_digit_char(c: char) -> bool {
    '0' <= c && c <= '9'
}

/// A number below 100 as two decimal digits.
pub open spec fn two_digits(n: int) -> Seq<char> {
    seq![digit_char((n / 10) as nat), digit_char((n % 10) as nat)]
}

/// The `%H:%M:%S` part for a Unix time in seconds: the time of day in UTC.
pub open spec fn clock_time_text(secs: int) -> Seq<char> {
    let d = secs % 86_400;
    two_digits(d / 3600) + seq![':'] + two_digits((d % 3600) / 60) + seq![':'] + two_digits(d % 60)
}

/// The layout `YYYY-MM-DD HH:MM:SS`: nineteen characters, the separators in
/// their places and digits everywhere else.
pub open spec fn has_clock_layout(t: Seq<char>) -> bool {
    &&& t.len() == 19
    &&& t[4] == '-' && t[7] == '-' && t[10] == ' ' && t[13] == ':' && t[16] == ':'
    &&& forall|i: int| 0 <= i < 19 && i != 4 && i != 7 && i != 10 && i != 13 && i != 16
        ==> is_digit_char(#[trigger] t[i])
}

/// What holds of chrono's `%Y-%m-%d %H:%M:%S` text `t` for the Unix time
/// `secs`: in the four-digit years it has the clock layout and ends with the
/// time of day.
pub open spec fn clock_text_facts(secs: int, t: Seq<char>) -> bool {
    four_digit_year_seconds(secs) ==> has_clock_layout(t) && t.subrange(11, 19) == clock_time_text(secs)
}

/// Calls chrono's `DateTime::<Utc>::from_timestamp(secs, 0)` and formats the
/// date with `%Y-%m-%d %H:%M:%S`. Claimed: the result is what
/// `utc_timestamp_text` names for `secs`; there is one for every second in
/// the years 0 to 9999; and there it is `YYYY-MM-DD HH:MM:SS` with the UTC
/// time of day at the end. Which date the first ten characters show is not
/// claimed: that is chrono's calendar.
#[verifier::external_body]
pub(crate) fn format_unix_timestamp(secs: i64) -> (res: Option<String>)
    ensures
        match res {
            Some(t) => utc_timestamp_text(secs as int) == Some(t@),
            None => utc_timestamp_text(secs as int) is None,
        },
        four_digit_year_seconds(secs as int) ==> res is Some,
        res matches Some(t) ==> clock_text_facts(secs as int, t@),
{
    match chrono::DateTime::from_timestamp(secs, 0) {
        Some(dt) => Some(dt.format("%Y-%m-%d %H:%M:%S").to_string()),
        None => None,
    }
}

/// Whether a text is what chrono prints, with `%Y-%m-%d %H:%M:%S`, for some
/// Unix time in seconds not before the epoch, with the layout and time of
/// day that `clock_text_facts` gives.
pub open spec fn is_clock_text(t: Seq<char>) -> bool {
    exists|secs: int| 0 <= secs && utc_timestamp_text(secs) == Some(t) && clock_text_facts(secs, t)
}

/// The current UTC time as `%Y-%m-%d %H:%M:%S`, read from chrono's
/// `Utc::now()`. Claimed: the text is the one chrono prints for some whole
/// second not before the epoch (the pattern shows no fraction of a second,
/// and `now` stops on a clock set before 1970), laid out as
/// `clock_text_facts` says. Which second is not claimed: it depends on the
/// clock.
#[verifier::external_body]
pub fn current_timestamp() -> (t: String)
    ensures
        is_clock_text(t@),
{
    chrono::Utc::now().format("%Y-%m-%d %H:%M:%S").to_string()
}

/// The text block of an event in the plain-text format.
pub open spec fn plaintext_text(level: LogLevel, kind: EventType, timestamp: Seq<char>, details: Seq<char>) -> Seq<char> {
    "Log: "@ + level_name(level) + "\nTime: "@ + timestamp + "\nType: "@ + event_type_name(kind)
        + "\nDetails: "@ + details + "\n"@
}

/// The JSON object of an event: fields in declaration order, no spaces.
pub open spec fn json_text(level: LogLevel, kind: EventType, timestamp: Seq<char>, details: Seq<char>) -> Seq<char> {
    "{\"level\":"@ + json_quoted(level_name(level)) + ",\"event_type\":"@ + json_quoted(event_type_name(kind))
        + ",\"timestamp\":"@ + json_quoted(timestamp) + ",\"details\":"@ + json_quoted(details) + "}"@
}

/// The event as `{:?}` prints it.
pub open spec fn debug_text(level: LogLevel, kind: EventType, timestamp: Seq<char>, details: Seq<char>) -> Seq<char> {
    "LogEvent { level: "@ + level_name(level) + ", event_type: "@ + event_type_name(kind) + ", timestamp: "@
        + debug_string_text(timestamp) + ", details: "@ + debug_string_text(details) + " }"@
}

/// The text written for an event in the given format.
pub open spec fn event_text(format: LogFormat, level: LogLevel, kind: EventType, timestamp: Seq<char>, details: Seq<char>) -> Seq<char> {
    match format {
        LogFormat::Json => json_text(level, kind, timestamp, details),
        LogFormat::Plaintext => plaintext_text(level, kind, timestamp, details),
    }
}

/// The text written for an event.
pub open spec fn rendered_event(format: LogFormat, e: LogEvent) -> Seq<char> {
    event_text(format, e.level, e.event_type, e.timestamp@, e.details@)
}

/// The plain-text block of an event.
fn plaintext_block(event: &LogEvent) -> (text: String)
    ensures
        text@ == plaintext_text(event.level, event.event_type, event.timestamp@, event.details@),
{
    let mut s = String::from_str("Log: ");
    s.append(event.level.name());
    s.append("\nTime: ");
    s.append(event.timestamp.as_str());
    s.append("\nType: ");
    s.append(event.event_type.name());
    s.append("\nDetails: ");
    s.append(event.details.as_str());
    s.append("\n");
    s
}

/// The `{:?}` rendering of an event.
fn debug_block(event: &LogEvent) -> (text: String)
    ensures
        text@ == debug_text(event.level, event.event_type, event.timestamp@, event.details@),
{
    let mut s = String::from_str("LogEvent { level: ");
    s.append(event.level.name());
    s.append(", event_type: ");
    s.append(event.event_type.name());
    s.append(", timestamp: ");
    let ts = debug_string(event.timestamp.as_str());
    s.append(ts.as_str());
    s.append(", details: ");
    let details = debug_string(event.details.as_str());
    s.append(details.as_str());
    s.append(" }");
    s
}

/// The JSON object of an event; `None` if serde_json reported an error,
/// which it does not for strings.
fn json_object(event: &LogEvent) -> (text: Option<String>)
    ensures
        text matches Some(t) && t@ == json_text(event.level, event.event_type, event.timestamp@, event.details@),
{
    let level = json_string(event.level.name());
    let kind = json_string(event.event_type.name());
    let ts = json_string(event.timestamp.as_str());
    let details = json_string(event.details.as_str());
    match (level, kind, ts, details) {
        (Ok(level), Ok(kind), Ok(ts), Ok(details)) => {
            let mut s = String::from_str("{\"level\":");
            s.append(level.as_str());
            s.append(",\"event_type\":");
            s.append(kind.as_str());
            s.append(",\"timestamp\":");
            s.append(ts.as_str());
            s.append(",\"details\":");
            s.append(details.as_str());
            s.append("}");
            Some(s)
        },
        _ => None,
    }
}

/// Renders an event in the configured format.
pub fn format_log_event(config: &ConfigStruct, event: &LogEvent) -> (text: String)
    ensures
        text@ == rendered_event(config.log_format, *event),
{
    match config.log_format {
        LogFormat::Json => match json_object(event) {
            Some(j) => j,
            None => debug_block(event),
        },
        LogFormat::Plaintext => plaintext_block(event),
    }
}

/// The directory watched when none is given: `./` on Windows, the platform
/// sources elsewhere.
pub fn default_root_dir(target_is_windows: bool) -> (dir: String)
    ensures
        dir@ == (if target_is_windows { "./"@ } else { "./src/platform"@ }),
{
    if target_is_windows {
        String::from_str("./")
    } else {
        String::from_str("./src/platform")
    }
}

} // verus!
