//! What the log bridge hands to a C host: the numeric level of an event and
//! the text line built from its target, name and fields.
use vstd::prelude::*;
use vstd::string::StringExecFns;

verus! {

/// The level of a log event.
#[derive(Clone, Copy, Debug, PartialEq, Eq)]
pub enum LogLevel {
    Error,
    Warn,
    Info,
    Debug,
    Trace,
}

/// The host's level number of a log level (OBS `blog()` levels).
pub open spec fn level_number(level: LogLevel) -> i32 {
    match level {
        LogLevel::Error => 400,
        LogLevel::Warn => 300,
        LogLevel::Info => 250,
        LogLevel::Debug => 200,
        LogLevel::Trace => 100,
    }
}

/// The host's level number of `level`.
pub fn map_level(level: LogLevel) -> (n: i32)
    ensures
        n == level_number(level),
{
    match level {
        LogLevel::Error => 400,
        LogLevel::Warn => 300,
        LogLevel::Info => 250,
        LogLevel::Debug => 200,
        LogLevel::Trace => 100,
    }
}

/// The field text of an event: field values joined by `"; "`.
pub struct FieldBuf {
    pub out: String,
}

/// The field text after one more field: the separator only between fields.
pub open spec fn with_field(out: Seq<char>, value: Seq<char>) -> Seq<char> {
    if out.len() == 0 {
        value
    } else {
        out + "; "@ + value
    }
}

impl Default for FieldBuf {
    /// Empty field text.
    fn default() -> (b: Self)
        ensures
            b.out@ == Seq::<char>::empty(),
    {
        FieldBuf { out: String::new() }
    }
}

impl FieldBuf {
    /// Appends one field's text.
    pub fn record_str(&mut self, value: &str)
        ensures
            final(self).out@ == with_field(old(self).out@, value@),
    {
        if !self.out.as_str().is_empty() {
            self.out.append("; ");
        }
        self.out.append(value);
    }
}

/// The line forwarded for an event: `[target] name`, then ` — ` and the
/// fields when there are any.
pub open spec fn log_line(target: Seq<char>, name: Seq<char>, fields: Seq<char>) -> Seq<char> {
    let head = "["@ + target + "] "@ + name;
    if fields.len() == 0 {
        head
    } else {
        head + " — "@ + fields
    }
}

/// Builds the line forwarded for an event.
pub fn format_log_line(target: &str, name: &str, fields: &str) -> (line: String)
    ensures
        line@ == log_line(target@, name@, fields@),
{
    let mut line = "[".to_owned();
    line.append(target);
    line.append("] ");
    line.append(name);
    if !fields.is_empty() {
        line.append(" — ");
        line.append(fields);
    }
    line
}

} // verus!
