//! Temporary files and the lines of the log.

use vstd::prelude::*;
use vstd::string::StringSliceAdditionalSpecFns;

use crate::text::{decimal, push_decimal, push_str, string_from_utf8};

verus! {

/// Temporary files.
pub struct TempFile;

/// The name of a temporary file made at a time (seconds and nanoseconds
/// since the Unix epoch): `tiny_<secs>_<nanos>.tmp`.
pub open spec fn temp_name(secs: u64, nanos: u32) -> Seq<u8> {
    "tiny_".spec_bytes() + decimal(secs as nat) + "_".spec_bytes() + decimal(nanos as nat)
        + ".tmp".spec_bytes()
}

impl TempFile {
    /// The name of a temporary file made at a time (see `temp_name`).
    pub fn name_for(secs: u64, nanos: u32) -> (res: Vec<u8>)
        ensures
            res@ == temp_name(secs, nanos),
    {
        let mut out: Vec<u8> = Vec::new();
        push_str(&mut out, "tiny_");
        push_decimal(&mut out, secs);
        push_str(&mut out, "_");
        push_decimal(&mut out, nanos as u64);
        push_str(&mut out, ".tmp");
        assert(out@ =~= temp_name(secs, nanos));
        out
    }
}

/// The kind of a log message.
#[derive(Debug, Clone, Copy)]
pub enum LogView {
    Info,
    Warning,
    Stop,
    Error,
    Critical,
}

/// A log message.
#[derive(Debug)]
pub struct LogText {
    pub view: LogView,
    pub number: u16,
    pub text: Option<String>,
    pub file: String,
    pub line: u32,
}

/// The name of a kind of message.
pub open spec fn view_name(v: LogView) -> &'static str {
    match v {
        LogView::Info => "Info",
        LogView::Warning => "Warning",
        LogView::Stop => "Stop",
        LogView::Error => "Error",
        LogView::Critical => "Critical",
    }
}

/// The line a message is saved as, for a process and a time:
/// `ID: <pid> Time: <time> Type: <kind>. Number: <n> Line:<line> File:<file> <text>`.
pub open spec fn log_line(t: LogText, pid: u32, time: Seq<u8>) -> Seq<u8> {
    "ID: ".spec_bytes() + decimal(pid as nat) + " Time: ".spec_bytes() + time + " Type: ".spec_bytes()
        + view_name(t.view).spec_bytes() + ". Number: ".spec_bytes() + decimal(t.number as nat)
        + " Line:".spec_bytes() + decimal(t.line as nat) + " File:".spec_bytes() + vstd::utf8::encode_utf8(
        t.file@,
    ) + " ".spec_bytes() + match t.text {
        Some(s) => vstd::utf8::encode_utf8(s@),
        None => Seq::empty(),
    } + "\n".spec_bytes()
}

/// Messages of the log.
pub struct Log;

impl Log {
    fn make(view: LogView, number: u16, text: Option<String>, line: u32, file: &str) -> (res: LogText)
        ensures
            res.view == view,
            res.number == number,
            res.text == text,
            res.line == line,
            res.file@ == file@,
    {
        LogText { view, number, text, file: file.to_owned(), line }
    }

    /// An informational message.
    pub fn info(number: u16, text: Option<String>, line: u32, file: &str) -> (res: LogText)
        ensures
            res.view is Info && res.number == number && res.text == text && res.line == line
                && res.file@ == file@,
    {
        Log::make(LogView::Info, number, text, line, file)
    }

    /// A warning: the program may go on.
    pub fn warning(number: u16, text: Option<String>, line: u32, file: &str) -> (res: LogText)
        ensures
            res.view is Warning && res.number == number && res.text == text && res.line == line
                && res.file@ == file@,
    {
        Log::make(LogView::Warning, number, text, line, file)
    }

    /// A stop message: the program must stop softly.
    pub fn stop(number: u16, text: Option<String>, line: u32, file: &str) -> (res: LogText)
        ensures
            res.view is Stop && res.number == number && res.text == text && res.line == line
                && res.file@ == file@,
    {
        Log::make(LogView::Stop, number, text, line, file)
    }

    /// An error message: the program stops at once.
    pub fn error(number: u16, text: Option<String>, line: u32, file: &str) -> (res: LogText)
        ensures
            res.view is Error && res.number == number && res.text == text && res.line == line
                && res.file@ == file@,
    {
        Log::make(LogView::Error, number, text, line, file)
    }

    /// The line a message is saved as (see `log_line`).
    pub fn line(t: &LogText, pid: u32, time: &str) -> (res: Vec<u8>)
        ensures
            res@ == log_line(*t, pid, time.spec_bytes()),
    {
        let mut out: Vec<u8> = Vec::new();
        push_str(&mut out, "ID: ");
        push_decimal(&mut out, pid as u64);
        push_str(&mut out, " Time: ");
        push_str(&mut out, time);
        push_str(&mut out, " Type: ");
        let name: &str = match t.view {
            LogView::Info => "Info",
            LogView::Warning => "Warning",
            LogView::Stop => "Stop",
            LogView::Error => "Error",
            LogView::Critical => "Critical",
        };
        push_str(&mut out, name);
        push_str(&mut out, ". Number: ");
        push_decimal(&mut out, t.number as u64);
        push_str(&mut out, " Line:");
        push_decimal(&mut out, t.line as u64);
        push_str(&mut out, " File:");
        push_str(&mut out, t.file.as_str());
        push_str(&mut out, " ");
        match &t.text {
            Some(s) => push_str(&mut out, s.as_str()),
            None => {},
        }
        push_str(&mut out, "\n");
        assert(out@ =~= log_line(*t, pid, time.spec_bytes()));
        out
    }
}

} // verus!
