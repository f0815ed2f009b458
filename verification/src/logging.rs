use vstd::prelude::*;
use vstd::std_specs::iter::IteratorSpec;

use crate::text::{decimal, push_char, push_decimal, push_str};

verus! {

/// Severity of a log message.
#[derive(Debug, Clone, Copy, PartialEq, Eq, Structural)]
pub enum LogLevel {
    Debug,
    Info,
    Warn,
    Error,
}

impl LogLevel {
    /// The level's name as it appears in log lines.
    pub open spec fn label(self) -> Seq<char> {
        match self {
            LogLevel::Debug => "DEBUG"@,
            LogLevel::Info => "INFO"@,
            LogLevel::Warn => "WARN"@,
            LogLevel::Error => "ERROR"@,
        }
    }

    pub fn as_str(self) -> (s: &'static str)
        ensures
            s@ == self.label(),
    {
        match self {
            LogLevel::Debug => "DEBUG",
            LogLevel::Info => "INFO",
            LogLevel::Warn => "WARN",
            LogLevel::Error => "ERROR",
        }
    }
}

/// The first line of a CSV log file.
pub open spec fn csv_header() -> Seq<char> {
    "simulation_start_ts,frame,level,fields"@
}

pub fn csv_header_line() -> (s: &'static str)
    ensures
        s@ == csv_header(),
{
    "simulation_start_ts,frame,level,fields"
}

/// A console log line: `[frame=F] message`.
pub open spec fn console_line_of(frame: u64, message: Seq<char>) -> Seq<char> {
    "[frame="@ + decimal(frame as nat) + "] "@ + message
}

/// A text-file log line:
/// `[simulation_start_ts=S] [frame=F] [level=L] message`.
pub open spec fn text_line_of(start: u64, frame: u64, level: LogLevel, message: Seq<char>) -> Seq<char> {
    "[simulation_start_ts="@ + decimal(start as nat) + "] [frame="@ + decimal(frame as nat)
        + "] [level="@ + level.label() + "] "@ + message
}

/// `message` with every comma replaced by a semicolon.
pub open spec fn without_commas(message: Seq<char>) -> Seq<char> {
    message.map_values(|c: char| if c == ',' { ';' } else { c })
}

/// A CSV log row: `S,F,L,message` with the message's commas turned into
/// semicolons.
pub open spec fn csv_line_of(start: u64, frame: u64, level: LogLevel, message: Seq<char>) -> Seq<char> {
    decimal(start as nat) + ","@ + decimal(frame as nat) + ","@ + level.label() + ","@
        + without_commas(message)
}

pub fn console_line(frame: u64, message: &str) -> (line: String)
    ensures
        line@ == console_line_of(frame, message@),
{
    let mut line = String::new();
    push_str(&mut line, "[frame=");
    push_decimal(&mut line, frame);
    push_str(&mut line, "] ");
    push_str(&mut line, message);
    proof {
        assert(line@ =~= console_line_of(frame, message@));
    }
    line
}

pub fn text_line(start: u64, frame: u64, level: LogLevel, message: &str) -> (line: String)
    ensures
        line@ == text_line_of(start, frame, level, message@),
{
    let mut line = String::new();
    push_str(&mut line, "[simulation_start_ts=");
    push_decimal(&mut line, start);
    push_str(&mut line, "] [frame=");
    push_decimal(&mut line, frame);
    push_str(&mut line, "] [level=");
    push_str(&mut line, level.as_str());
    push_str(&mut line, "] ");
    push_str(&mut line, message);
    proof {
        assert(line@ =~= text_line_of(start, frame, level, message@));
    }
    line
}

/// Appends `message` to `s` with its commas turned into semicolons.
fn push_without_commas(s: &mut String, message: &str)
    ensures
        final(s)@ == old(s)@ + without_commas(message@),
{
    let ghost start = s@;
    let ghost chars = message@;
    for c in it: message.chars()
        invariant
            it.seq() == chars,
            s@ == start + without_commas(chars.take(it.index())),
    {
        let ghost i = it.index();
        if c == ',' {
            push_char(s, ';');
        } else {
            push_char(s, c);
        }
        proof {
            assert(chars.take(i + 1) =~= chars.take(i).push(c));
            assert(without_commas(chars.take(i + 1)) =~= without_commas(chars.take(i)).push(
                if c == ',' { ';' } else { c },
            ));
        }
    }
    proof {
        assert(chars.take(chars.len() as int) =~= chars);
    }
}

pub fn csv_line(start: u64, frame: u64, level: LogLevel, message: &str) -> (line: String)
    ensures
        line@ == csv_line_of(start, frame, level, message@),
{
    let mut line = String::new();
    push_decimal(&mut line, start);
    push_str(&mut line, ",");
    push_decimal(&mut line, frame);
    push_str(&mut line, ",");
    push_str(&mut line, level.as_str());
    push_str(&mut line, ",");
    push_without_commas(&mut line, message);
    proof {
        assert(line@ =~= csv_line_of(start, frame, level, message@));
    }
    line
}

/// Law: the names the levels carry in log lines.
pub proof fn lemma_level_labels()
    ensures
        LogLevel::Debug.label() == seq!['D', 'E', 'B', 'U', 'G'],
        LogLevel::Info.label() == seq!['I', 'N', 'F', 'O'],
        LogLevel::Warn.label() == seq!['W', 'A', 'R', 'N'],
        LogLevel::Error.label() == seq!['E', 'R', 'R', 'O', 'R'],
{
    reveal_strlit("DEBUG");
    reveal_strlit("INFO");
    reveal_strlit("WARN");
    reveal_strlit("ERROR");
    assert(LogLevel::Debug.label() =~= seq!['D', 'E', 'B', 'U', 'G']);
    assert(LogLevel::Info.label() =~= seq!['I', 'N', 'F', 'O']);
    assert(LogLevel::Warn.label() =~= seq!['W', 'A', 'R', 'N']);
    assert(LogLevel::Error.label() =~= seq!['E', 'R', 'R', 'O', 'R']);
}

/// Law: different levels have different names.
pub proof fn lemma_level_labels_distinct(a: LogLevel, b: LogLevel)
    ensures
        a.label() == b.label() <==> a == b,
{
    lemma_level_labels();
    if a != b && a.label() == b.label() {
        let la = a.label();
        let lb = b.label();
        assert(la.len() == lb.len());
        assert(la[0] == lb[0]);
        assert(la[1] == lb[1]);
    }
}

proof fn lemma_concat_cancel(p: Seq<char>, a: Seq<char>, b: Seq<char>, r: Seq<char>)
    requires
        p + a + r == p + b + r,
    ensures
        a == b,
{
    assert((p + a + r).len() == (p + a).len() + r.len());
    assert((p + b + r).len() == (p + b).len() + r.len());
    assert((p + a).len() == p.len() + a.len());
    assert((p + b).len() == p.len() + b.len());
    assert(a.len() == b.len());
    assert forall|k: int| 0 <= k < a.len() implies a[k] == b[k] by {
        assert((p + a)[p.len() + k] == a[k]);
        assert((p + b)[p.len() + k] == b[k]);
        assert((p + a + r)[p.len() + k] == (p + a)[p.len() + k]);
        assert((p + b + r)[p.len() + k] == (p + b)[p.len() + k]);
    }
    assert(a =~= b);
}

/// Law: a text-file line is `[simulation_start_ts=S] [frame=F] [level=L] `
/// followed by the message, where `L` is the name of the level passed in.
pub proof fn lemma_text_line_layout(start: u64, frame: u64, level: LogLevel, message: Seq<char>)
    ensures
        text_line_of(start, frame, level, message) == "[simulation_start_ts="@ + decimal(start as nat)
            + "] [frame="@ + decimal(frame as nat) + "] [level="@ + level.label() + "] "@ + message,
        level == LogLevel::Debug ==> text_line_of(start, frame, level, message) == "[simulation_start_ts="@
            + decimal(start as nat) + "] [frame="@ + decimal(frame as nat) + "] [level="@
            + seq!['D', 'E', 'B', 'U', 'G'] + "] "@ + message,
        level == LogLevel::Info ==> text_line_of(start, frame, level, message) == "[simulation_start_ts="@
            + decimal(start as nat) + "] [frame="@ + decimal(frame as nat) + "] [level="@
            + seq!['I', 'N', 'F', 'O'] + "] "@ + message,
        level == LogLevel::Warn ==> text_line_of(start, frame, level, message) == "[simulation_start_ts="@
            + decimal(start as nat) + "] [frame="@ + decimal(frame as nat) + "] [level="@
            + seq!['W', 'A', 'R', 'N'] + "] "@ + message,
        level == LogLevel::Error ==> text_line_of(start, frame, level, message) == "[simulation_start_ts="@
            + decimal(start as nat) + "] [frame="@ + decimal(frame as nat) + "] [level="@
            + seq!['E', 'R', 'R', 'O', 'R'] + "] "@ + message,
{
    lemma_level_labels();
}

/// Law: the level of a text-file line can be read back from it: lines that
/// differ only in their level are different lines.
pub proof fn lemma_text_line_keeps_level(start: u64, frame: u64, a: LogLevel, b: LogLevel, message: Seq<char>)
    ensures
        text_line_of(start, frame, a, message) == text_line_of(start, frame, b, message) <==> a == b,
{
    let p = "[simulation_start_ts="@ + decimal(start as nat) + "] [frame="@ + decimal(frame as nat)
        + "] [level="@;
    let r = "] "@ + message;
    assert(text_line_of(start, frame, a, message) =~= p + a.label() + r);
    assert(text_line_of(start, frame, b, message) =~= p + b.label() + r);
    if text_line_of(start, frame, a, message) == text_line_of(start, frame, b, message) {
        lemma_concat_cancel(p, a.label(), b.label(), r);
        lemma_level_labels_distinct(a, b);
    }
}

/// Law: a CSV row is the start time, the frame, the level's name and the
/// message with commas turned into semicolons, separated by commas.
pub proof fn lemma_csv_line_layout(start: u64, frame: u64, level: LogLevel, message: Seq<char>)
    ensures
        csv_line_of(start, frame, level, message) == decimal(start as nat) + seq![','] + decimal(
            frame as nat,
        ) + seq![','] + level.label() + seq![','] + without_commas(message),
        without_commas(message).len() == message.len(),
        forall|i: int|
            0 <= i < message.len() ==> (#[trigger] without_commas(message)[i]) == (if message[i] == ',' {
                ';'
            } else {
                message[i]
            }),
{
    reveal_strlit(",");
    assert(","@ =~= seq![',']);
}

/// Law: the level of a CSV row can be read back from it: rows that differ
/// only in their level are different rows.
pub proof fn lemma_csv_line_keeps_level(start: u64, frame: u64, a: LogLevel, b: LogLevel, message: Seq<char>)
    ensures
        csv_line_of(start, frame, a, message) == csv_line_of(start, frame, b, message) <==> a == b,
{
    let p = decimal(start as nat) + ","@ + decimal(frame as nat) + ","@;
    let r = ","@ + without_commas(message);
    assert(csv_line_of(start, frame, a, message) =~= p + a.label() + r);
    assert(csv_line_of(start, frame, b, message) =~= p + b.label() + r);
    if csv_line_of(start, frame, a, message) == csv_line_of(start, frame, b, message) {
        lemma_concat_cancel(p, a.label(), b.label(), r);
        lemma_level_labels_distinct(a, b);
    }
}

/// Law: a console line is `[frame=F] ` followed by the message.
pub proof fn lemma_console_line_layout(frame: u64, message: Seq<char>)
    ensures
        console_line_of(frame, message) == seq!['[', 'f', 'r', 'a', 'm', 'e', '='] + decimal(
            frame as nat,
        ) + seq![']', ' '] + message,
{
    reveal_strlit("[frame=");
    reveal_strlit("] ");
    assert("[frame="@ =~= seq!['[', 'f', 'r', 'a', 'm', 'e', '=']);
    assert("] "@ =~= seq![']', ' ']);
}

} // verus!
