//! What a worker reports about an attempt, and the bounded buffer that keeps
//! the most recent reports for display.

use std::collections::VecDeque;
use vstd::prelude::*;

verus! {

/// Where a report goes.
#[derive(Clone, Copy, Debug, PartialEq, Eq, Structural)]
pub enum Sink {
    /// Reports about requests that succeeded.
    Output,
    /// Reports about requests that failed.
    Error,
}

/// One report of a worker.
#[derive(Debug)]
pub struct LogEvent {
    pub sink: Sink,
    pub message: String,
}

/// The decimal digit for a number below ten.
pub open spec fn digit(d: nat) -> char {
    if d == 0 {
        '0'
    } else if d == 1 {
        '1'
    } else if d == 2 {
        '2'
    } else if d == 3 {
        '3'
    } else if d == 4 {
        '4'
    } else if d == 5 {
        '5'
    } else if d == 6 {
        '6'
    } else if d == 7 {
        '7'
    } else if d == 8 {
        '8'
    } else {
        '9'
    }
}

/// The decimal digits of a number, most significant first, without leading
/// zeros.
pub open spec fn decimal(n: nat) -> Seq<char>
    decreases n,
{
    if n < 10 {
        seq![digit(n)]
    } else {
        decimal(n / 10).push(digit(n % 10))
    }
}

/// Report of a success, for a verbose run.
pub open spec fn status_message(status: Seq<char>) -> Seq<char> {
    "Status code: "@ + status
}

/// Report of a failure, for a run that is not verbose.
pub open spec fn brief_failure_message(index: nat) -> Seq<char> {
    "Failed Request Number: "@ + decimal(index) + " "@
}

/// Report of a failure, for a verbose run.
pub open spec fn detailed_failure_message(
    index: nat,
    worker: nat,
    url: Seq<char>,
    error: Seq<char>,
) -> Seq<char> {
    "Request failed at idx "@ + decimal(index) + ": "@ + error + "\nURL: "@ + url + "\nThread: "@
        + decimal(worker) + "\nError: "@ + error
}

/// The report that an attempt gives rise to, if any. `detail` is the status
/// of a success or the error of a failure, as text.
///
/// A success is reported only in a verbose run. A failure is always
/// reported, in full in a verbose run and in brief otherwise.
pub open spec fn report_of(
    verbose: bool,
    success: bool,
    index: nat,
    worker: nat,
    url: Seq<char>,
    detail: Seq<char>,
) -> Option<(Sink, Seq<char>)> {
    if success {
        if verbose {
            Some((Sink::Output, status_message(detail)))
        } else {
            None
        }
    } else {
        if verbose {
            Some((Sink::Error, detailed_failure_message(index, worker, url, detail)))
        } else {
            Some((Sink::Error, brief_failure_message(index)))
        }
    }
}

/// The text of one decimal digit.
fn digit_str(d: u32) -> (s: &'static str)
    requires
        d < 10,
    ensures
        s@ == seq![digit(d as nat)],
{
    proof {
        reveal_strlit("0");
        reveal_strlit("1");
        reveal_strlit("2");
        reveal_strlit("3");
        reveal_strlit("4");
        reveal_strlit("5");
        reveal_strlit("6");
        reveal_strlit("7");
        reveal_strlit("8");
        reveal_strlit("9");
    }
    let s = if d == 0 {
        "0"
    } else if d == 1 {
        "1"
    } else if d == 2 {
        "2"
    } else if d == 3 {
        "3"
    } else if d == 4 {
        "4"
    } else if d == 5 {
        "5"
    } else if d == 6 {
        "6"
    } else if d == 7 {
        "7"
    } else if d == 8 {
        "8"
    } else {
        "9"
    };
    assert(s@ =~= seq![digit(d as nat)]);
    s
}

/// Writes a number in decimal.
pub fn decimal_string(n: u32) -> (s: String)
    ensures
        s@ == decimal(n as nat),
    decreases n,
{
    if n < 10 {
        String::from_str(digit_str(n))
    } else {
        let mut s = decimal_string(n / 10);
        s.append(digit_str(n % 10));
        assert(s@ =~= decimal(n as nat));
        s
    }
}

/// Decides what to report about a finished attempt, and words the report.
/// An attempt is a success when a response arrived, whatever its status.
/// `detail` is the status of a success or the error of a failure, as text.
pub fn attempt_log(
    verbose: bool,
    success: bool,
    index: u32,
    worker: u32,
    url: &str,
    detail: &str,
) -> (event: Option<LogEvent>)
    ensures
        match event {
            Some(e) => report_of(verbose, success, index as nat, worker as nat, url@, detail@)
                == Some((e.sink, e.message@)),
            None => report_of(verbose, success, index as nat, worker as nat, url@, detail@)
                is None,
        },
{
    if success {
        if verbose {
            let message = String::from_str("Status code: ").concat(detail);
            Some(LogEvent { sink: Sink::Output, message })
        } else {
            None
        }
    } else {
        if verbose {
            let mut message = String::from_str("Request failed at idx ");
            message.append(decimal_string(index).as_str());
            message.append(": ");
            message.append(detail);
            message.append("\nURL: ");
            message.append(url);
            message.append("\nThread: ");
            message.append(decimal_string(worker).as_str());
            message.append("\nError: ");
            message.append(detail);
            Some(LogEvent { sink: Sink::Error, message })
        } else {
            let mut message = String::from_str("Failed Request Number: ");
            message.append(decimal_string(index).as_str());
            message.append(" ");
            Some(LogEvent { sink: Sink::Error, message })
        }
    }
}

/// Largest number of lines that a log buffer keeps.
pub const LOGS_MAX_CAPACITY: usize = 100000;

/// The line under which a report is kept: the name of its sink, then the
/// message.
pub open spec fn log_line(sink: Sink, message: Seq<char>) -> Seq<char> {
    match sink {
        Sink::Output => "OUTPUT: "@ + message,
        Sink::Error => "ERROR: "@ + message,
    }
}

/// The lines that stay after `line` has come in: all of them while there is
/// room, and all but the oldest once the buffer is full.
pub open spec fn lines_after_push(lines: Seq<Seq<char>>, line: Seq<char>) -> Seq<Seq<char>> {
    if lines.len() >= LOGS_MAX_CAPACITY {
        lines.drop_first().push(line)
    } else {
        lines.push(line)
    }
}

/// The most recent lines of a run, oldest first, never more than
/// `LOGS_MAX_CAPACITY` of them.
#[derive(Debug)]
pub struct LogBuffer {
    lines: VecDeque<String>,
}

impl View for LogBuffer {
    type V = Seq<Seq<char>>;

    closed spec fn view(&self) -> Seq<Seq<char>> {
        Seq::new(self.lines@.len(), |i: int| self.lines@[i]@)
    }
}

impl LogBuffer {
    /// An empty buffer.
    pub fn new() -> (buffer: LogBuffer)
        ensures
            buffer@ == Seq::<Seq<char>>::empty(),
    {
        let buffer = LogBuffer { lines: VecDeque::with_capacity(LOGS_MAX_CAPACITY) };
        assert(buffer@ =~= Seq::<Seq<char>>::empty());
        buffer
    }

    /// Number of lines in the buffer.
    pub fn len(&self) -> (n: usize)
        ensures
            n == self@.len(),
    {
        self.lines.len()
    }

    /// The line at position `i`, the oldest line being at position 0.
    pub fn get(&self, i: usize) -> (line: Option<&String>)
        ensures
            i < self@.len() ==> line is Some && line->0@ == self@[i as int],
            i >= self@.len() ==> line is None,
    {
        if i < self.lines.len() {
            Some(&self.lines[i])
        } else {
            None
        }
    }

    /// Removes every line.
    pub fn clear(&mut self)
        ensures
            final(self)@ == Seq::<Seq<char>>::empty(),
    {
        self.lines.clear();
        assert(self@ =~= Seq::<Seq<char>>::empty());
    }

    /// Takes in a report as one more line. A full buffer first drops its
    /// oldest line, so a buffer that was within its capacity stays within.
    pub fn push(&mut self, event: LogEvent)
        ensures
            final(self)@ == lines_after_push(old(self)@, log_line(event.sink, event.message@)),
            old(self)@.len() <= LOGS_MAX_CAPACITY ==> final(self)@.len() <= LOGS_MAX_CAPACITY,
    {
        let line = match event.sink {
            Sink::Output => String::from_str("OUTPUT: ").concat(event.message.as_str()),
            Sink::Error => String::from_str("ERROR: ").concat(event.message.as_str()),
        };
        if self.lines.len() >= LOGS_MAX_CAPACITY {
            self.lines.pop_front();
        }
        self.lines.push_back(line);
        assert(self@ =~= lines_after_push(old(self)@, log_line(event.sink, event.message@)));
    }
}

} // verus!
