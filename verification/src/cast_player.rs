//! Playing recorded terminal sessions (asciicast files): how the player is
//! asked for, and what each recorded event does.
use vstd::prelude::*;

use crate::text::{push_str, str_eq, trim, trim_string, views};

verus! {

/// The kinds of events a cast records.
#[derive(Clone, Copy, Debug, PartialEq, Eq, Structural)]
pub enum CastEventKind {
    /// Output written to the terminal: played back.
    Output,
    /// Input typed: skipped.
    Input,
    /// A resize: skipped.
    Resize,
}

/// The kind an event's type code names (`o`, `i` or `r`).
pub open spec fn event_kind_of(code: Seq<char>) -> Option<CastEventKind> {
    if code == "o"@ {
        Some(CastEventKind::Output)
    } else if code == "i"@ {
        Some(CastEventKind::Input)
    } else if code == "r"@ {
        Some(CastEventKind::Resize)
    } else {
        None
    }
}

/// The kind named by an event's type code (`o`, `i` or `r`).
pub fn cast_event_kind(code: &str) -> (r: Option<CastEventKind>)
    ensures
        r == event_kind_of(code@),
{
    if str_eq(code, "o") {
        Some(CastEventKind::Output)
    } else if str_eq(code, "i") {
        Some(CastEventKind::Input)
    } else if str_eq(code, "r") {
        Some(CastEventKind::Resize)
    } else {
        None
    }
}

/// Whether an event of this kind is written to the terminal.
pub fn event_is_played(kind: CastEventKind) -> (r: bool)
    ensures
        r == (kind == CastEventKind::Output),
{
    kind == CastEventKind::Output
}

/// Whether a cast header with this `version` field can be played: a header
/// without a version, or of version 2.
pub fn header_version_supported(version: Option<u64>) -> (r: bool)
    ensures
        r == match version {
            Some(v) => v == 2,
            None => true,
        },
{
    match version {
        Some(v) => v == 2,
        None => true,
    }
}

/// Why a cast cannot be played.
#[derive(Clone, Debug, PartialEq, Eq)]
pub enum CastError {
    /// The file is empty.
    EmptyFile,
    /// The first line is not JSON.
    InvalidHeader,
    /// The header names a version other than 2.
    UnsupportedVersion,
    /// An event line is not JSON.
    InvalidEventJson,
    /// An event is not a JSON array.
    NotArray,
    /// An event does not have three items; it has this many.
    WrongItemCount(usize),
    /// An event's time is not a number.
    TimeNotNumber,
    /// An event's type is not a string.
    TypeNotString,
    /// An event's data is not a string.
    DataNotString,
    /// An event's type is none of `o`, `i`, `r`; it is this.
    UnsupportedType(String),
}

/// The `version` field of a cast header as `serde_json` reads the header
/// text: `None` when the text is not JSON; else the field when it is an
/// unsigned integer, `None` inside when it is missing or is anything else.
pub uninterp spec fn cast_header_version(text: Seq<char>) -> Option<Option<u64>>;

/// Reads a cast header with `serde_json::from_str` into a JSON value and
/// takes its `version` field with `as_u64`.  The result is named by
/// `cast_header_version`; JSON parsing is not stated here.
#[verifier::external_body]
fn read_cast_header_version(text: &str) -> (r: Option<Option<u64>>)
    ensures
        r == cast_header_version(text@),
{
    serde_json::from_str::<serde_json::Value>(text).ok().map(|v| v.get("version").and_then(|v| v.as_u64()))
}

/// Whether the first line of a cast can start playback: a blank line is
/// no header and is accepted; else it must be JSON whose version, if any,
/// is 2.
pub open spec fn header_outcome(header: Seq<char>) -> Result<(), CastError> {
    if trim(header).len() == 0 {
        Ok(())
    } else {
        match cast_header_version(trim(header)) {
            None => Err(CastError::InvalidHeader),
            Some(v) => if match v {
                Some(n) => n == 2,
                None => true,
            } {
                Ok(())
            } else {
                Err(CastError::UnsupportedVersion)
            },
        }
    }
}

/// Checks the first line of a cast (see `header_outcome`).
pub fn check_cast_header(header: &str) -> (r: Result<(), CastError>)
    ensures
        r == header_outcome(header@),
{
    let t = trim_string(header);
    if t.as_str().is_empty() {
        return Ok(());
    }
    match read_cast_header_version(t.as_str()) {
        None => Err(CastError::InvalidHeader),
        Some(v) => if header_version_supported(v) {
            Ok(())
        } else {
            Err(CastError::UnsupportedVersion)
        },
    }
}

/// What a JSON value is, as far as a cast event goes.
#[derive(Clone, Copy, Debug, PartialEq, Eq, Structural)]
pub enum CastItemKind {
    Number,
    Text,
    Other,
}

/// One item of a cast event: what it is, and its text when it is a string.
#[derive(Clone, Debug)]
pub struct CastItem {
    pub kind: CastItemKind,
    pub text: String,
}

/// Cast items as plain values.
pub open spec fn items_view(v: Seq<CastItem>) -> Seq<(CastItemKind, Seq<char>)> {
    v.map_values(|i: CastItem| (i.kind, i.text@))
}

/// The items of a cast event line as `serde_json` reads it: `None` when the
/// line is not JSON, `Some(None)` when it is not an array, else each item:
/// a number, a string with its text, or anything else.
pub uninterp spec fn cast_event_items(line: Seq<char>) -> Option<Option<Seq<(CastItemKind, Seq<char>)>>>;

/// Reads a cast event line with `serde_json::from_str` into a JSON value and
/// tells its items apart.  The result is named by `cast_event_items`; JSON
/// parsing is not stated here.
#[verifier::external_body]
fn read_cast_event_items(line: &str) -> (r: Option<Option<Vec<CastItem>>>)
    ensures
        match r {
            None => cast_event_items(line@) is None,
            Some(None) => cast_event_items(line@) == Some(None::<Seq<(CastItemKind, Seq<char>)>>),
            Some(Some(v)) => cast_event_items(line@) == Some(Some(items_view(v@))),
        },
{
    match serde_json::from_str::<serde_json::Value>(line) {
        Err(_) => None,
        Ok(serde_json::Value::Array(items)) => Some(Some(items.into_iter().map(|item| match item {
            serde_json::Value::Number(_) => CastItem { kind: CastItemKind::Number, text: String::new() },
            serde_json::Value::String(t) => CastItem { kind: CastItemKind::Text, text: t },
            _ => CastItem { kind: CastItemKind::Other, text: String::new() },
        }).collect())),
        Ok(_) => Some(None),
    }
}

/// Whether `r` is what an event with these items gives: three items, a
/// number (the time), a string (the type) and a string (the data), checked
/// in that order; then the kind the type names, with the data.
pub open spec fn event_outcome(items: Option<Option<Seq<(CastItemKind, Seq<char>)>>>, r: Result<(CastEventKind, String), CastError>) -> bool {
    match items {
        None => r == Err::<(CastEventKind, String), CastError>(CastError::InvalidEventJson),
        Some(None) => r == Err::<(CastEventKind, String), CastError>(CastError::NotArray),
        Some(Some(it)) => if it.len() != 3 {
            r matches Err(CastError::WrongItemCount(n)) && n == it.len()
        } else if it[0].0 != CastItemKind::Number {
            r == Err::<(CastEventKind, String), CastError>(CastError::TimeNotNumber)
        } else if it[1].0 != CastItemKind::Text {
            r == Err::<(CastEventKind, String), CastError>(CastError::TypeNotString)
        } else if it[2].0 != CastItemKind::Text {
            r == Err::<(CastEventKind, String), CastError>(CastError::DataNotString)
        } else {
            match event_kind_of(it[1].1) {
                Some(k) => r matches Ok((k2, d)) && k2 == k && d@ == it[2].1,
                None => r matches Err(CastError::UnsupportedType(t)) && t@ == it[1].1,
            }
        },
    }
}

/// The kind and data of a cast event from its items (see `event_outcome`).
pub fn cast_event_from_items(items: Option<Option<Vec<CastItem>>>) -> (r: Result<(CastEventKind, String), CastError>)
    ensures
        event_outcome(
            match items {
                None => None,
                Some(None) => Some(None),
                Some(Some(v)) => Some(Some(items_view(v@))),
            },
            r,
        ),
{
    let it = match items {
        None => return Err(CastError::InvalidEventJson),
        Some(None) => return Err(CastError::NotArray),
        Some(Some(v)) => v,
    };
    if it.len() != 3 {
        return Err(CastError::WrongItemCount(it.len()));
    }
    if it[0].kind != CastItemKind::Number {
        return Err(CastError::TimeNotNumber);
    }
    if it[1].kind != CastItemKind::Text {
        return Err(CastError::TypeNotString);
    }
    if it[2].kind != CastItemKind::Text {
        return Err(CastError::DataNotString);
    }
    assert(items_view(it@)[1] == (it@[1].kind, it@[1].text@));
    assert(items_view(it@)[2] == (it@[2].kind, it@[2].text@));
    match cast_event_kind(it[1].text.as_str()) {
        Some(k) => {
            let mut data = String::new();
            push_str(&mut data, it[2].text.as_str());
            Ok((k, data))
        },
        None => {
            let mut t = String::new();
            push_str(&mut t, it[1].text.as_str());
            Err(CastError::UnsupportedType(t))
        },
    }
}

/// Reads one line of a cast's events: its kind and data, or why it cannot
/// be played (see `event_outcome` over `cast_event_items` of the line).
pub fn parse_cast_event(line: &str) -> (r: Result<(CastEventKind, String), CastError>)
    ensures
        event_outcome(cast_event_items(line@), r),
{
    let items = read_cast_event_items(line);
    cast_event_from_items(items)
}

/// What the player writes when the cast is over: a closing line, then the
/// codes that stop the cursor blinking and hide it.
pub const PLAYBACK_FINISHED: &'static str = "\r\n[Recorder] Playback finished.\r\n";

/// The codes that stop the cursor blinking and hide it.
pub const FREEZE_CURSOR: &'static str = "\x1b[?12l\x1b[?25l";

/// A request to play a cast: the file, and the playback speeds given (the
/// last one counts), as text.
#[derive(Clone, Debug, PartialEq, Eq)]
pub struct CastRequest {
    pub path: String,
    pub speeds: Vec<String>,
}

/// Why the command line of the player is wrong.
#[derive(Clone, Debug, PartialEq, Eq)]
pub enum CastArgsError {
    /// `--play-cast` without a path.
    MissingPath,
    /// `--speed` without a value.
    MissingSpeedValue,
    /// An argument the player does not know.
    UnknownArg(String),
}

impl CastArgsError {
    /// The message of the error.
    pub fn message(&self) -> (m: String)
        ensures
            m@ == match self {
                CastArgsError::MissingPath => "usage: termua --play-cast <path.cast> [--speed <n>]"@,
                CastArgsError::MissingSpeedValue => "--speed requires a value"@,
                CastArgsError::UnknownArg(a) => "unknown arg: "@ + a@,
            },
    {
        let mut m = String::new();
        match self {
            CastArgsError::MissingPath => push_str(&mut m, "usage: termua --play-cast <path.cast> [--speed <n>]"),
            CastArgsError::MissingSpeedValue => push_str(&mut m, "--speed requires a value"),
            CastArgsError::UnknownArg(a) => {
                push_str(&mut m, "unknown arg: ");
                push_str(&mut m, a.as_str());
            },
        }
        m
    }
}

/// The options after the path, read from `args[i..]`: the speeds given,
/// or the first error with the speeds given before it.
pub open spec fn scan_options(args: Seq<Seq<char>>, i: int, speeds: Seq<Seq<char>>) -> (Option<Seq<char>>, bool, Seq<Seq<char>>)
    decreases args.len() - i,
{
    if i < 0 || i >= args.len() {
        (None, false, speeds)
    } else if args[i] == "--speed"@ {
        if i + 1 < args.len() {
            scan_options(args, i + 2, speeds.push(args[i + 1]))
        } else {
            (None, true, speeds)
        }
    } else {
        (Some(args[i]), false, speeds)
    }
}

/// A copy of `s`.
fn copy_string(s: &String) -> (out: String)
    ensures
        out@ == s@,
{
    let mut out = String::new();
    push_str(&mut out, s.as_str());
    out
}

/// Reads the player's command line (`args`, without the program name): no
/// request unless it starts with `--play-cast`; then the path, then any
/// number of `--speed <n>`.  An error comes with the speeds given before it.
pub fn parse_play_cast_args(args: &Vec<String>) -> (r: Result<Option<CastRequest>, (CastArgsError, Vec<String>)>)
    ensures
        ({
            let a = views(args@);
            if a.len() == 0 || a[0] != "--play-cast"@ {
                r == Ok::<Option<CastRequest>, (CastArgsError, Vec<String>)>(None)
            } else if a.len() == 1 {
                r matches Err((CastArgsError::MissingPath, sp)) && sp@.len() == 0
            } else {
                let s = scan_options(a, 2, seq![]);
                match r {
                    Ok(Some(req)) => s.0 is None && !s.1 && req.path@ == a[1] && views(req.speeds@) == s.2,
                    Err((CastArgsError::MissingSpeedValue, sp)) => s.0 is None && s.1 && views(sp@) == s.2,
                    Err((CastArgsError::UnknownArg(x), sp)) => s.0 == Some(x@) && views(sp@) == s.2,
                    _ => false,
                }
            }
        }),
{
    let ghost a = views(args@);
    if args.len() == 0 || !str_eq(args[0].as_str(), "--play-cast") {
        proof {
            if args@.len() > 0 {
                assert(a[0] == args@[0]@);
            }
        }
        return Ok(None);
    }
    assert(a[0] == args@[0]@);
    if args.len() == 1 {
        return Err((CastArgsError::MissingPath, Vec::new()));
    }
    assert(a[1] == args@[1]@);
    let path = copy_string(&args[1]);
    let mut speeds: Vec<String> = Vec::new();
    let mut i: usize = 2;
    assert(views(speeds@) =~= Seq::<Seq<char>>::empty());
    while i < args.len()
        invariant
            2 <= i <= args@.len(),
            a == views(args@),
            a.len() >= 2,
            a[0] == "--play-cast"@,
            path@ == a[1],
            scan_options(a, i as int, views(speeds@)) == scan_options(a, 2, seq![]),
        decreases args@.len() - i,
    {
        assert(a[i as int] == args@[i as int]@);
        if str_eq(args[i].as_str(), "--speed") {
            if i + 1 < args.len() {
                assert(a[i + 1] == args@[i + 1]@);
                let ghost before = speeds@;
                speeds.push(copy_string(&args[i + 1]));
                assert(views(speeds@) =~= views(before).push(a[i + 1]));
                i += 2;
            } else {
                return Err((CastArgsError::MissingSpeedValue, speeds));
            }
        } else {
            return Err((CastArgsError::UnknownArg(copy_string(&args[i])), speeds));
        }
    }
    Ok(Some(CastRequest { path, speeds }))
}

/// The cast a terminal asks for through its environment: player mode must
/// be `1` and the path non-blank; a non-blank speed is passed on.
pub fn cast_request_from_env(mode: Option<&str>, path: Option<&str>, speed: Option<&str>) -> (r: Option<(String, Option<String>)>)
    ensures
        match (mode, path) {
            (Some(m), Some(p)) if m@ == "1"@ && trim(p@).len() > 0 => r matches Some((rp, rs)) && rp@ == p@
                && match speed {
                Some(s) if trim(s@).len() > 0 => rs matches Some(x) && x@ == s@,
                _ => rs is None,
            },
            _ => r is None,
        },
{
    match (mode, path) {
        (Some(m), Some(p)) => {
            if !str_eq(m, "1") {
                return None;
            }
            let t = trim_string(p);
            if t.as_str().is_empty() {
                return None;
            }
            let mut pp = String::new();
            push_str(&mut pp, p);
            let sp = match speed {
                Some(s) => {
                    let st = trim_string(s);
                    if st.as_str().is_empty() {
                        None
                    } else {
                        let mut x = String::new();
                        push_str(&mut x, s);
                        Some(x)
                    }
                },
                None => None,
            };
            Some((pp, sp))
        },
        _ => None,
    }
}

} // verus!
