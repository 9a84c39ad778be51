//! The lines of the server's log.
//!
//! A line names its kind in upper case, coloured by kind, then the message;
//! errors and debug lines also say where in the source they were logged.
use vstd::prelude::*;

use vstd::utf8::is_ascii_chars;

use crate::text::{ascii_chars, decimal, decimal_string, str_eq};

verus! {

/// The terminal colour code of a kind of log line.
pub open spec fn color_of(ltype: Seq<char>) -> Seq<char> {
    if ltype == "inf"@ {
        "34"@
    } else if ltype == "suc"@ {
        "32"@
    } else if ltype == "war"@ {
        "33"@
    } else if ltype == "err"@ {
        "31"@
    } else if ltype == "debug"@ {
        "5;31;43"@
    } else {
        "35"@
    }
}

/// Lines of this kind say where they were logged.
pub open spec fn wants_location(ltype: Seq<char>) -> bool {
    ltype == "err"@ || ltype == "debug"@
}

/// What `str::to_uppercase` makes of `s`.
pub uninterp spec fn uppercase(s: Seq<char>) -> Seq<char>;

/// The upper-case form of an ASCII character: `a`..`z` become `A`..`Z`.
pub open spec fn ascii_upper_char(c: char) -> char {
    if 'a' <= c <= 'z' {
        (((c as u32) - 32) as u32) as char
    } else {
        c
    }
}

/// The upper-case form of ASCII text.
pub open spec fn ascii_upper(s: Seq<char>) -> Seq<char> {
    s.map_values(|c: char| ascii_upper_char(c))
}

/// `str::to_uppercase`. The claim: the result is a function of the characters
/// alone, and on ASCII text it maps `a`..`z` to `A`..`Z` and keeps every other
/// character (Unicode's upper-case mapping of the ASCII range). What it makes
/// of other characters is left unsaid.
#[verifier::external_body]
fn to_uppercase(s: &str) -> (r: String)
    ensures
        r@ == uppercase(s@),
        is_ascii_chars(s@) ==> r@ == ascii_upper(s@),
{
    s.to_uppercase()
}

/// The text of a log line: `[`, the colour code, the kind as `upper`, the
/// message, and for errors and debug lines where it was logged (`ukwn` where
/// that is not known).
pub open spec fn log_text(ltype: Seq<char>, upper: Seq<char>, msg: Seq<char>, file: Option<Seq<char>>) -> Seq<char> {
    "[\x1b["@ + color_of(ltype) + "m"@ + upper + "\x1b[0m]: "@ + msg + if wants_location(ltype) {
        " ("@ + (match file {
            Some(f) => f,
            None => "ukwn"@,
        }) + ")"@
    } else {
        Seq::<char>::empty()
    }
}

/// The views of an optional string slice.
pub open spec fn opt_view(file: Option<&str>) -> Option<Seq<char>> {
    match file {
        Some(f) => Some(f@),
        None => None,
    }
}

/// The colour code of a kind of log line.
pub fn color(ltype: &str) -> (r: &'static str)
    ensures
        r@ == color_of(ltype@),
{
    if str_eq(ltype, "inf") {
        "34"
    } else if str_eq(ltype, "suc") {
        "32"
    } else if str_eq(ltype, "war") {
        "33"
    } else if str_eq(ltype, "err") {
        "31"
    } else if str_eq(ltype, "debug") {
        "5;31;43"
    } else {
        "35"
    }
}

/// Whether lines of this kind say where they were logged.
pub fn locates(ltype: &str) -> (r: bool)
    ensures
        r == wants_location(ltype@),
{
    str_eq(ltype, "err") || str_eq(ltype, "debug")
}

/// A log line of kind `ltype`, with the kind written as `upper`.
pub fn log_line(ltype: &str, upper: &str, msg: &str, file: Option<&str>) -> (r: String)
    ensures
        r@ == log_text(ltype@, upper@, msg@, opt_view(file)),
{
    let mut line = "[\x1b[".to_owned();
    line.append(color(ltype));
    line.append("m");
    line.append(upper);
    line.append("\x1b[0m]: ");
    line.append(msg);
    if locates(ltype) {
        line.append(" (");
        match file {
            Some(f) => line.append(f),
            None => line.append("ukwn"),
        }
        line.append(")");
    }
    assert(line@ =~= log_text(ltype@, upper@, msg@, opt_view(file)));
    line
}

/// A log line of kind `ltype`; `file` says where it was logged, where known.
pub fn log(ltype: &str, msg: &str, file: Option<&str>) -> (r: String)
    ensures
        r@ == log_text(ltype@, uppercase(ltype@), msg@, opt_view(file)),
        is_ascii_chars(ltype@) ==> r@ == log_text(ltype@, ascii_upper(ltype@), msg@, opt_view(file)),
{
    let upper = to_uppercase(ltype);
    log_line(ltype, upper.as_str(), msg, file)
}

/// Upper-casing a short ASCII kind gives the expected text.
proof fn lemma_ascii_upper(kind: Seq<char>, upper: Seq<char>)
    requires
        kind.len() == upper.len(),
        forall|i: int| 0 <= i < kind.len() ==> 'a' <= #[trigger] kind[i] <= 'z' && upper[i] as u32
            == kind[i] as u32 - 32,
    ensures
        is_ascii_chars(kind),
        ascii_upper(kind) == upper,
{
    assert forall|i: int| 0 <= i < kind.len() implies ascii_upper(kind)[i] == upper[i] by {
        assert('a' <= kind[i] <= 'z');
        let v: u32 = ((kind[i] as u32) - 32) as u32;
        vstd::utf8::char_u32_cast(upper[i], v);
    }
    assert(ascii_upper(kind) =~= upper);
}

/// Where a line was logged: the file's name, `:`, the line number.
pub fn file_location(file: &str, line: u32) -> (r: String)
    ensures
        r@ == file@ + ":"@ + ascii_chars(decimal(line as nat)),
{
    let mut r = file.to_owned();
    r.append(":");
    let n = decimal_string(line as u64);
    r.append(n.as_str());
    r
}

/// An information line.
pub fn linfo(msg: &str) -> (r: String)
    ensures
        r@ == log_text("inf"@, "INF"@, msg@, None),
{
    proof {
        reveal_strlit("inf");
        reveal_strlit("INF");
        lemma_ascii_upper("inf"@, "INF"@);
    }
    log("inf", msg, None)
}

/// A success line.
pub fn lsuc(msg: &str) -> (r: String)
    ensures
        r@ == log_text("suc"@, "SUC"@, msg@, None),
{
    proof {
        reveal_strlit("suc");
        reveal_strlit("SUC");
        lemma_ascii_upper("suc"@, "SUC"@);
    }
    log("suc", msg, None)
}

/// A warning line.
pub fn lwarn(msg: &str) -> (r: String)
    ensures
        r@ == log_text("war"@, "WAR"@, msg@, None),
{
    proof {
        reveal_strlit("war");
        reveal_strlit("WAR");
        lemma_ascii_upper("war"@, "WAR"@);
    }
    log("war", msg, None)
}

/// An error line; `file` says where it was logged, where known.
pub fn lerr(msg: &str, file: Option<&str>) -> (r: String)
    ensures
        r@ == log_text("err"@, "ERR"@, msg@, opt_view(file)),
{
    proof {
        reveal_strlit("err");
        reveal_strlit("ERR");
        lemma_ascii_upper("err"@, "ERR"@);
    }
    log("err", msg, file)
}

/// A debug line; `file` says where it was logged, where known.
pub fn ldebug(msg: &str, file: Option<&str>) -> (r: String)
    ensures
        r@ == log_text("debug"@, "DEBUG"@, msg@, opt_view(file)),
{
    proof {
        reveal_strlit("debug");
        reveal_strlit("DEBUG");
        lemma_ascii_upper("debug"@, "DEBUG"@);
    }
    log("debug", msg, file)
}

/// `s` ends with `t`.
pub open spec fn ends_with(s: Seq<char>, t: Seq<char>) -> bool {
    t.len() <= s.len() && s.skip(s.len() - t.len()) == t
}

/// Error and debug lines end with where they were logged, in brackets: the
/// location given, or `ukwn` where none is.
pub proof fn law_located_lines_end_with_their_location(
    ltype: Seq<char>,
    upper: Seq<char>,
    msg: Seq<char>,
    file: Option<Seq<char>>,
)
    requires
        ltype == "err"@ || ltype == "debug"@,
    ensures
        file matches Some(f) ==> ends_with(log_text(ltype, upper, msg, file), " ("@ + f + ")"@),
        file is None ==> ends_with(log_text(ltype, upper, msg, file), " (ukwn)"@),
{
    reveal_strlit("err");
    reveal_strlit("debug");
    reveal_strlit(" (ukwn)");
    reveal_strlit(" (");
    reveal_strlit(")");
    reveal_strlit("ukwn");
    let head = "[\x1b["@ + color_of(ltype) + "m"@ + upper + "\x1b[0m]: "@ + msg;
    let tail = " ("@ + (match file {
        Some(f) => f,
        None => "ukwn"@,
    }) + ")"@;
    assert(wants_location(ltype));
    assert(log_text(ltype, upper, msg, file) == head + tail);
    assert((head + tail).skip((head + tail).len() - tail.len()) =~= tail);
    assert(" ("@ + "ukwn"@ + ")"@ =~= " (ukwn)"@);
}

/// Lines of the other kinds end with the message, whatever location is given.
pub proof fn law_other_lines_end_with_the_message(
    ltype: Seq<char>,
    upper: Seq<char>,
    msg: Seq<char>,
    file: Option<Seq<char>>,
)
    requires
        ltype != "err"@,
        ltype != "debug"@,
    ensures
        ends_with(log_text(ltype, upper, msg, file), msg),
        log_text(ltype, upper, msg, file) == log_text(ltype, upper, msg, None),
{
    let head = "[\x1b["@ + color_of(ltype) + "m"@ + upper + "\x1b[0m]: "@;
    assert(!wants_location(ltype));
    assert(log_text(ltype, upper, msg, file) =~= head + msg);
    assert((head + msg).skip((head + msg).len() - msg.len()) =~= msg);
}

} // verus!
