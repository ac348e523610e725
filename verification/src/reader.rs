//! Classification of raw log lines into typed events, and an event reader
//! that walks the lines of one file in order.
//!
//! A line is classified in two phases. A line of at least 34 characters
//! whose first 33 characters form a valid RFC 3339 date-time is a
//! timestamped line: its payload (character 35 onward) is either one of
//! eight deny-listed boundary markers (producing no event) or begins with a
//! task marker, `PRE EXECUTE ` or `POST EXECUTE `. Any other line is an
//! event only when it is exactly `Pre-execute package <name>` or
//! `Container Name       : <name>`. A name capture is the rest of the line
//! after the pattern.

use vstd::prelude::*;
use vstd::string::StrSliceExecFns;
use vstd::string::StringExecFns;

use crate::text::{chars_vec, match_at, matches_at, range_eq, trim_bounds, trim_spec};
use crate::timestamp::{parse_rfc3339, rfc3339_timestamp, Timestamp};

verus! {

/// An event without a timestamp: a package start or a container name.
#[derive(Debug)]
pub struct LogEvent {
    pub value: String,
}

/// A timestamped task event.
#[derive(Debug)]
pub struct SsisEvent {
    pub value: String,
    pub time: Timestamp,
}

/// One typed event classified out of a raw log line.
#[derive(Debug)]
pub enum Event {
    PackageStarted(LogEvent),
    ContainerFinished(LogEvent),
    PreExecuteTask(SsisEvent),
    PostExecuteTask(SsisEvent),
}

/// The mathematical shape of an event: names as character sequences.
pub enum EventModel {
    PackageStarted { name: Seq<char> },
    ContainerFinished { name: Seq<char> },
    PreExecuteTask { name: Seq<char>, time: Timestamp },
    PostExecuteTask { name: Seq<char>, time: Timestamp },
}

pub open spec fn event_model(e: Event) -> EventModel {
    match e {
        Event::PackageStarted(le) => EventModel::PackageStarted { name: le.value@ },
        Event::ContainerFinished(le) => EventModel::ContainerFinished { name: le.value@ },
        Event::PreExecuteTask(se) => EventModel::PreExecuteTask {
            name: se.value@,
            time: se.time,
        },
        Event::PostExecuteTask(se) => EventModel::PostExecuteTask {
            name: se.value@,
            time: se.time,
        },
    }
}

pub open spec fn event_model_opt(r: Option<Event>) -> Option<EventModel> {
    match r {
        Some(e) => Some(event_model(e)),
        None => None,
    }
}

/// The eight boundary markers that are structural noise, never task events.
pub open spec fn is_denylisted(s: Seq<char>) -> bool {
    ||| s == "PRE EXECUTE Container Start"@
    ||| s == "POST EXECUTE Container Start"@
    ||| s == "PRE EXECUTE Container End"@
    ||| s == "POST EXECUTE Container End"@
    ||| s == "PRE EXECUTE Package Start"@
    ||| s == "POST EXECUTE Package Start"@
    ||| s == "PRE EXECUTE Package End"@
    ||| s == "POST EXECUTE Package End"@
}

/// The timestamp struct a parsed `(seconds, nanoseconds, offset)` triple
/// stands for.
pub open spec fn timestamp_of(v: (int, int, int)) -> Timestamp {
    Timestamp { secs: v.0 as i64, nanos: v.1 as u32, offset_secs: v.2 as i32 }
}

/// What `classify` yields on a given line.
///
/// On a timestamped line the task marker must stand exactly at the payload
/// start (character 35); a markerless line is an event only when the whole
/// line is the pattern followed by the name. Character 34, the separator
/// between timestamp and payload, is not validated: the fixed line format
/// guarantees it, and a line whose first 33 characters parse is trusted on
/// that one character — a deliberate choice.
pub open spec fn classify_model(line: Seq<char>) -> Option<EventModel> {
    if line.len() >= 34 && rfc3339_timestamp(line.subrange(0, 33)) is Some {
        let ts = timestamp_of(rfc3339_timestamp(line.subrange(0, 33))->Some_0);
        if is_denylisted(trim_spec(line.subrange(34, line.len() as int))) {
            None
        } else if match_at(line, "PRE EXECUTE "@, 34) {
            Some(
                EventModel::PreExecuteTask {
                    name: line.subrange(34 + "PRE EXECUTE "@.len() as int, line.len() as int),
                    time: ts,
                },
            )
        } else if match_at(line, "POST EXECUTE "@, 34) {
            Some(
                EventModel::PostExecuteTask {
                    name: line.subrange(34 + "POST EXECUTE "@.len() as int, line.len() as int),
                    time: ts,
                },
            )
        } else {
            None
        }
    } else {
        if match_at(line, "Pre-execute package "@, 0) {
            Some(
                EventModel::PackageStarted {
                    name: line.subrange("Pre-execute package "@.len() as int, line.len() as int),
                },
            )
        } else if match_at(line, "Container Name       : "@, 0) {
            Some(
                EventModel::ContainerFinished {
                    name: line.subrange(
                        "Container Name       : "@.len() as int,
                        line.len() as int,
                    ),
                },
            )
        } else {
            None
        }
    }
}

/// Deny-listed boundary payloads produce no event, even though a
/// syntactically valid timestamp precedes them.
pub proof fn lemma_denylisted_line_is_no_event(line: Seq<char>)
    requires
        line.len() >= 34,
        rfc3339_timestamp(line.subrange(0, 33)) is Some,
        is_denylisted(trim_spec(line.subrange(34, line.len() as int))),
    ensures
        classify_model(line) is None,
{
}

/// The rest of `line` from character `from`, as an owned string.
fn capture(line: &str, from: usize, to: usize) -> (r: String)
    requires
        from <= to,
        to == line@.len(),
    ensures
        r@ == line@.subrange(from as int, to as int),
{
    let sub = line.substring_char(from, to);
    String::from_str(sub)
}

/// Whether the characters `cs[a..b]` are one of the deny-listed markers.
fn is_denied(cs: &Vec<char>, a: usize, b: usize) -> (r: bool)
    requires
        a <= b <= cs@.len(),
    ensures
        r == is_denylisted(cs@.subrange(a as int, b as int)),
{
    let d1 = chars_vec("PRE EXECUTE Container Start");
    if range_eq(cs, a, b, &d1) {
        return true;
    }
    let d2 = chars_vec("POST EXECUTE Container Start");
    if range_eq(cs, a, b, &d2) {
        return true;
    }
    let d3 = chars_vec("PRE EXECUTE Container End");
    if range_eq(cs, a, b, &d3) {
        return true;
    }
    let d4 = chars_vec("POST EXECUTE Container End");
    if range_eq(cs, a, b, &d4) {
        return true;
    }
    let d5 = chars_vec("PRE EXECUTE Package Start");
    if range_eq(cs, a, b, &d5) {
        return true;
    }
    let d6 = chars_vec("POST EXECUTE Package Start");
    if range_eq(cs, a, b, &d6) {
        return true;
    }
    let d7 = chars_vec("PRE EXECUTE Package End");
    if range_eq(cs, a, b, &d7) {
        return true;
    }
    let d8 = chars_vec("POST EXECUTE Package End");
    if range_eq(cs, a, b, &d8) {
        return true;
    }
    false
}

/// Classifies one raw line into at most one typed event. Malformed input is
/// never an error: it simply yields no event.
pub fn classify(line: &str) -> (r: Option<Event>)
    ensures
        event_model_opt(r) == classify_model(line@),
{
    let cs = chars_vec(line);
    let n = cs.len();
    if n >= 34 {
        let ts_str = line.substring_char(0, 33);
        if let Some(ts) = parse_rfc3339(ts_str) {
            let (a, b) = trim_bounds(&cs, 34, n);
            proof {
                assert(cs@.subrange(34, n as int) =~= line@.subrange(34, line@.len() as int));
            }
            if is_denied(&cs, a, b) {
                return None;
            }
            let pre = chars_vec("PRE EXECUTE ");
            if matches_at(&cs, 34, &pre) {
                let name = capture(line, 34 + pre.len(), n);
                return Some(Event::PreExecuteTask(SsisEvent { value: name, time: ts }));
            }
            let post = chars_vec("POST EXECUTE ");
            if matches_at(&cs, 34, &post) {
                let name = capture(line, 34 + post.len(), n);
                return Some(Event::PostExecuteTask(SsisEvent { value: name, time: ts }));
            }
            return None;
        }
    }
    let pkg = chars_vec("Pre-execute package ");
    if matches_at(&cs, 0, &pkg) {
        let name = capture(line, pkg.len(), n);
        return Some(Event::PackageStarted(LogEvent { value: name }));
    }
    let cont = chars_vec("Container Name       : ");
    if matches_at(&cs, 0, &cont) {
        let name = capture(line, cont.len(), n);
        return Some(Event::ContainerFinished(LogEvent { value: name }));
    }
    None
}

/// The state of an event reader: the lines it walks and how far it has come.
pub struct ReaderModel {
    pub lines: Seq<String>,
    pub pos: int,
}

/// The first classifiable line at or after position `i`, with its event.
/// Every line is trimmed of surrounding whitespace before classification.
pub open spec fn first_event_from(lines: Seq<String>, i: int) -> Option<(int, EventModel)>
    decreases lines.len() - i,
{
    if i < 0 || i >= lines.len() {
        None
    } else {
        match classify_model(trim_spec(lines[i]@)) {
            Some(m) => Some((i, m)),
            None => first_event_from(lines, i + 1),
        }
    }
}

/// Walks the lines of one log file in order, yielding each line's event and
/// skipping lines that carry none.
pub struct EventReader {
    lines: Vec<String>,
    pos: usize,
}

impl View for EventReader {
    type V = ReaderModel;

    closed spec fn view(&self) -> ReaderModel {
        ReaderModel { lines: self.lines@, pos: self.pos as int }
    }
}

impl EventReader {
    /// Creates a new reader over the given lines.
    pub fn new(lines: Vec<String>) -> (r: EventReader)
        ensures
            r@.lines == lines@,
            r@.pos == 0,
    {
        EventReader { lines, pos: 0 }
    }

    /// The next event among the remaining lines, if any line yields one.
    pub fn next(&mut self) -> (r: Option<Event>)
        ensures
            final(self)@.lines == old(self)@.lines,
            match first_event_from(old(self)@.lines, old(self)@.pos) {
                Some(jm) => {
                    &&& r is Some
                    &&& event_model(r->Some_0) == jm.1
                    &&& final(self)@.pos == jm.0 + 1
                },
                None => r is None && final(self)@.pos == old(self)@.lines.len(),
            },
    {
        if self.pos >= self.lines.len() {
            self.pos = self.lines.len();
            return None;
        }
        loop
            invariant
                self.lines@ == old(self).lines@,
                old(self).pos <= self.pos,
                self.pos <= self.lines@.len(),
                first_event_from(self.lines@, old(self).pos as int) == first_event_from(
                    self.lines@,
                    self.pos as int,
                ),
            decreases self.lines@.len() - self.pos,
        {
            if self.pos >= self.lines.len() {
                return None;
            }
            let ghost p = self.pos as int;
            let line: &String = &self.lines[self.pos];
            let cs = chars_vec(line.as_str());
            let n = cs.len();
            let (a, b) = trim_bounds(&cs, 0, n);
            let trimmed = line.as_str().substring_char(a, b);
            proof {
                assert(cs@.subrange(0, n as int) =~= line@);
                assert(trimmed@ == trim_spec(self.lines@[p]@));
            }
            let ev = classify(trimmed);
            self.pos = self.pos + 1;
            if let Some(e) = ev {
                return Some(e);
            }
        }
    }
}

} // verus!
