//! What is decided before anything is drawn: how a time stamp reads, and of
//! what kind a line or a tag is, so that the caller can pick a colour.

use crate::search::{begins_with, contains, has_str, starts_with};
use crate::text::{
    chars_of, copy_str, lowercase, replace_char, replace_each, str_eq, string_of, to_lowercase,
    trim, trim_ws, Class,
};
use vstd::prelude::*;
use vstd::utf8::{decode_utf8, encode_utf8, is_char_boundary};

verus! {

/// A time stamp as it is shown: of one of 19 bytes or more the first 19 bytes,
/// with a space in place of each `T`; a shorter one as it is.
pub open spec fn shown_timestamp(ts: Seq<char>) -> Seq<char> {
    if encode_utf8(ts).len() >= 19 {
        replace_char(decode_utf8(encode_utf8(ts).subrange(0, 19)), 'T', " "@)
    } else {
        ts
    }
}

/// The time stamp as it is shown: `2024-01-15T10:30:00.123456Z` reads
/// `2024-01-15 10:30:00`.
pub fn format_timestamp(ts: &str) -> (r: String)
    requires
        encode_utf8(ts@).len() <= usize::MAX,
        encode_utf8(ts@).len() >= 19 ==> is_char_boundary(encode_utf8(ts@), 19),
    ensures
        r@ == shown_timestamp(ts@),
{
    if ts.len() >= 19 {
        let (head, _) = ts.split_at(19);
        proof {
            vstd::utf8::encode_utf8_decode_utf8(head@);
            assert(encode_utf8(head@) == encode_utf8(ts@).subrange(0, 19));
        }
        string_of(&replace_each(&chars_of(head), 'T', " "))
    } else {
        copy_str(ts)
    }
}

/// The line of a script as it is shown: as it is.
pub fn colorize_script_line(line: &str) -> (r: String)
    ensures
        r@ == line@,
{
    copy_str(line)
}

/// What a line of a script is, for the colour in which it is shown.
#[derive(Debug, Clone, Copy, PartialEq, Eq, Structural)]
pub enum LineKind {
    Comment,
    DockerCommand,
    EnvVar,
    Port,
    Volume,
    Other,
}

/// What a line of a script is, by its beginning, white space around it aside.
pub open spec fn line_kind(line: Seq<char>) -> LineKind {
    let t = trim(line, Class::Space);
    if starts_with(t, "#"@) {
        LineKind::Comment
    } else if starts_with(t, "docker "@) {
        LineKind::DockerCommand
    } else if contains(t, "=-e "@) || starts_with(t, "-e "@) {
        LineKind::EnvVar
    } else if contains(t, "=-p "@) || starts_with(t, "-p "@) {
        LineKind::Port
    } else if contains(t, "=-v "@) || starts_with(t, "-v "@) {
        LineKind::Volume
    } else {
        LineKind::Other
    }
}

/// What the line of a script is.
pub fn get_line_kind(line: &str) -> (r: LineKind)
    ensures
        r == line_kind(line@),
{
    let t = trim_ws(&chars_of(line));
    if begins_with(&t, "#") {
        LineKind::Comment
    } else if begins_with(&t, "docker ") {
        LineKind::DockerCommand
    } else if has_str(&t, "=-e ") || begins_with(&t, "-e ") {
        LineKind::EnvVar
    } else if has_str(&t, "=-p ") || begins_with(&t, "-p ") {
        LineKind::Port
    } else if has_str(&t, "=-v ") || begins_with(&t, "-v ") {
        LineKind::Volume
    } else {
        LineKind::Other
    }
}

/// How grave a line of a log is.
#[derive(Debug, Clone, Copy, PartialEq, Eq, Structural)]
pub enum LogLevel {
    Error,
    Warning,
    Info,
    Debug,
    Plain,
}

/// How grave a line of a log is, given the line in lower case: by the first
/// of the words for error, warning, information and debugging that it holds.
pub open spec fn log_level(lower: Seq<char>) -> LogLevel {
    if contains(lower, "error"@) || contains(lower, "exception"@) {
        LogLevel::Error
    } else if contains(lower, "warn"@) {
        LogLevel::Warning
    } else if contains(lower, "info"@) {
        LogLevel::Info
    } else if contains(lower, "debug"@) {
        LogLevel::Debug
    } else {
        LogLevel::Plain
    }
}

/// How grave a line of a log is, given the line in lower case.
pub fn log_level_of_lowercase(lower: &str) -> (r: LogLevel)
    ensures
        r == log_level(lower@),
{
    let l = chars_of(lower);
    if has_str(&l, "error") || has_str(&l, "exception") {
        LogLevel::Error
    } else if has_str(&l, "warn") {
        LogLevel::Warning
    } else if has_str(&l, "info") {
        LogLevel::Info
    } else if has_str(&l, "debug") {
        LogLevel::Debug
    } else {
        LogLevel::Plain
    }
}

/// How grave the line of a log is, letter case aside.
pub fn get_log_level(line: &str) -> (r: LogLevel)
    ensures
        r == log_level(lowercase(line@)),
{
    log_level_of_lowercase(to_lowercase(line).as_str())
}

/// The colour in which a tag is shown.
#[derive(Debug, Clone, Copy, PartialEq, Eq, Structural)]
pub enum TagColor {
    Red,
    Yellow,
    Green,
    Cyan,
    Magenta,
    Blue,
    LightBlue,
    LightRed,
    DarkGray,
}

/// The colour of a tag, given the tag in lower case: by what the tag names.
pub open spec fn tag_color(lower: Seq<char>) -> TagColor {
    if lower == "prod"@ || lower == "production"@ {
        TagColor::Red
    } else if lower == "staging"@ || lower == "stage"@ {
        TagColor::Yellow
    } else if lower == "dev"@ || lower == "development"@ {
        TagColor::Green
    } else if lower == "test"@ || lower == "testing"@ {
        TagColor::Cyan
    } else if lower == "db"@ || lower == "database"@ {
        TagColor::Magenta
    } else if lower == "web"@ || lower == "frontend"@ {
        TagColor::Blue
    } else if lower == "api"@ || lower == "backend"@ {
        TagColor::LightBlue
    } else if lower == "critical"@ || lower == "important"@ {
        TagColor::LightRed
    } else {
        TagColor::DarkGray
    }
}

/// The colour of a tag, given the tag in lower case.
pub fn tag_color_of_lowercase(lower: &str) -> (r: TagColor)
    ensures
        r == tag_color(lower@),
{
    if str_eq(lower, "prod") || str_eq(lower, "production") {
        TagColor::Red
    } else if str_eq(lower, "staging") || str_eq(lower, "stage") {
        TagColor::Yellow
    } else if str_eq(lower, "dev") || str_eq(lower, "development") {
        TagColor::Green
    } else if str_eq(lower, "test") || str_eq(lower, "testing") {
        TagColor::Cyan
    } else if str_eq(lower, "db") || str_eq(lower, "database") {
        TagColor::Magenta
    } else if str_eq(lower, "web") || str_eq(lower, "frontend") {
        TagColor::Blue
    } else if str_eq(lower, "api") || str_eq(lower, "backend") {
        TagColor::LightBlue
    } else if str_eq(lower, "critical") || str_eq(lower, "important") {
        TagColor::LightRed
    } else {
        TagColor::DarkGray
    }
}

/// The colour of a tag, letter case aside.
pub fn get_tag_color(tag: &str) -> (r: TagColor)
    ensures
        r == tag_color(lowercase(tag@)),
{
    tag_color_of_lowercase(to_lowercase(tag).as_str())
}

} // verus!
