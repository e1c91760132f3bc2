//! Work that goes on after its request was answered: what is told of its end.

use crate::json::{
    as_flag, as_integer, as_text, fields, flag_field, get, group_json_views, integer, integer_field, integer_num,
    lemma_get_put, no_fields, no_object, set_field, string, text_field, text_or_null, Entries, Fields, Json, Num,
    Number, Object, Tree,
};
use crate::message::Message;
use crate::text::{bytes_of, cat2, from_utf8_lossy, lossy_text};
use crate::time::{rfc3339, rfc3339_text, seconds_form, seconds_text, Timestamp};
use vstd::prelude::*;
use vstd::slice::slice_subrange;

verus! {

pub const BACKGROUND_TIMEOUT_MAX_SECS: u64 = 3600;

pub const MAX_EVENT_OUTPUT_BYTES: usize = 262_144;

/// The output that an event carries, and whether it was cut.
pub open spec fn event_output(s: Seq<char>) -> (Seq<char>, bool) {
    let raw = bytes_of(s);
    if raw.len() <= MAX_EVENT_OUTPUT_BYTES {
        (s, false)
    } else {
        (lossy_text(raw.take(MAX_EVENT_OUTPUT_BYTES as int)), true)
    }
}

pub fn truncate_output(text: &str) -> (r: (String, bool))
    ensures
        (r.0@, r.1) == event_output(text@),
{
    let raw = text.as_bytes();
    if raw.len() <= MAX_EVENT_OUTPUT_BYTES {
        return (text.to_owned(), false);
    }
    let head = slice_subrange(raw, 0, MAX_EVENT_OUTPUT_BYTES);
    assert(head@ =~= raw@.take(MAX_EVENT_OUTPUT_BYTES as int));
    (from_utf8_lossy(head), true)
}

/// The whole milliseconds from `a` to `b`, towards zero.
pub open spec fn millis_between(a: Timestamp, b: Timestamp) -> int {
    let nanos = (b.secs - a.secs) * 1_000_000_000 + (b.nanos - a.nanos);
    if nanos >= 0 {
        nanos / 1_000_000
    } else {
        -((-nanos) / 1_000_000)
    }
}

/// Milliseconds as seconds with two digits behind the point, halves rounded away
/// from zero.
pub open spec fn hundredths_form(millis: int) -> Seq<char> {
    if millis < 0 {
        "-"@ + seconds_form(((-millis + 5) / 10) as nat, 100, 2)
    } else {
        seconds_form(((millis + 5) / 10) as nat, 100, 2)
    }
}

/// Milliseconds as seconds with two digits behind the point.
pub fn hundredths_text(millis: i128) -> (r: String)
    requires
        -100_000_000_000_000_000_000 <= millis <= 100_000_000_000_000_000_000,
    ensures
        r@ == hundredths_form(millis as int),
{
    if millis < 0 {
        let units: u64 = ((-millis + 5) / 10) as u64;
        cat2("-", &seconds_text(units, 100, 2))
    } else {
        let units: u64 = ((millis + 5) / 10) as u64;
        seconds_text(units, 100, 2)
    }
}

fn whole_millis(a: Timestamp, b: Timestamp) -> (r: i128)
    requires
        a.dated(),
        b.dated(),
    ensures
        r == millis_between(a, b),
        -100_000_000_000_000_000_000 <= r <= 100_000_000_000_000_000_000,
{
    let nanos: i128 = (b.secs as i128 - a.secs as i128) * 1_000_000_000 + (b.nanos as i128 - a.nanos as i128);
    if nanos >= 0 {
        nanos / 1_000_000
    } else {
        -((-nanos) / 1_000_000)
    }
}

/// How a piece of work ended: status, exit code, output, error.
pub struct Ending {
    pub status: Seq<char>,
    pub exit_code: Option<i64>,
    pub output: Seq<char>,
    pub error: Option<Seq<char>>,
}

/// How work ended that was answered with `response`.
pub open spec fn ending(response: Message) -> Ending {
    match response {
        Message::Response { ok: true, result, .. } => {
            let o = match result {
                Some(o) => fields(o@),
                None => no_fields(),
            };
            let code = as_integer(get(o, "returncode"@));
            Ending {
                status: if as_flag(get(o, "timed_out"@)) == Some(true) {
                    "timeout"@
                } else if code == Some(0i64) {
                    "succeeded"@
                } else {
                    "failed"@
                },
                exit_code: code,
                output: match as_text(get(o, "output"@)) {
                    Some(s) => s,
                    None => ""@,
                },
                error: None,
            }
        },
        Message::Response { error: Some(e), .. } if e.message@.len() > 0 => Ending {
            status: "failed"@,
            exit_code: None,
            output: ""@,
            error: Some(e.message@),
        },
        _ => Ending { status: "failed"@, exit_code: None, output: ""@, error: Some("operation failed"@) },
    }
}

/// What the event of a completed job tells.
pub open spec fn completed_event(
    job_id: Seq<char>,
    op: Seq<char>,
    host: Seq<char>,
    end: Ending,
    started: Timestamp,
    finished: Timestamp,
) -> Fields {
    let (output, cut) = event_output(end.output);
    no_fields().with("job_id"@, Tree::Text(job_id)).with("tool"@, Tree::Text(op)).with("host"@, Tree::Text(host)).with(
        "status"@,
        Tree::Text(end.status),
    ).with(
        "exit_code"@,
        match end.exit_code {
            Some(n) => Tree::Number(integer_num(n)),
            None => Tree::Null,
        },
    ).with("started_at"@, Tree::Text(rfc3339_text(started.secs, started.nanos, false, false))).with(
        "finished_at"@,
        Tree::Text(rfc3339_text(finished.secs, finished.nanos, false, false)),
    ).with("duration_s"@, Tree::Number(Num::Float(hundredths_form(millis_between(started, finished))))).with(
        "output"@,
        Tree::Text(output),
    ).with("output_truncated"@, Tree::Bool(cut)).with("error"@, text_or_null(end.error))
}

/// What the event of a completed job tells.
pub fn build_completed_event_data(
    job_id: &str,
    op: &str,
    host: &str,
    dispatch_response: &Message,
    started_at: Timestamp,
    finished_at: Timestamp,
) -> (r: Object)
    requires
        started_at.dated(),
        finished_at.dated(),
    ensures
        fields(r@) == completed_event(job_id@, op@, host@, ending(*dispatch_response), started_at, finished_at),
{
    broadcast use group_json_views;

    let (status, exit_code, output, error) = match dispatch_response {
        Message::Response { ok, result, error, .. } => if *ok {
            let none = no_object();
            let o = match result {
                Some(o) => o,
                None => &none,
            };
            let code = integer_field(o, "returncode");
            let timed_out = match flag_field(o, "timed_out") {
                Some(t) => t,
                None => false,
            };
            let succeeded = match code {
                Some(n) => n == 0,
                None => false,
            };
            let status = if timed_out {
                "timeout"
            } else if succeeded {
                "succeeded"
            } else {
                "failed"
            };
            let output = match text_field(o, "output") {
                Some(s) => s.to_owned(),
                None => "".to_owned(),
            };
            (status, code, output, None)
        } else {
            let message = match error {
                Some(e) => if e.message.as_str().is_empty() {
                    "operation failed".to_owned()
                } else {
                    e.message.clone()
                },
                None => "operation failed".to_owned(),
            };
            ("failed", None, "".to_owned(), Some(message))
        },
        _ => ("failed", None, "".to_owned(), Some("operation failed".to_owned())),
    };
    let (kept, cut) = truncate_output(&output);
    let mut o = no_object();
    set_field(&mut o, "job_id", string(job_id));
    set_field(&mut o, "tool", string(op));
    set_field(&mut o, "host", string(host));
    set_field(&mut o, "status", string(status));
    set_field(
        &mut o,
        "exit_code",
        match exit_code {
            Some(n) => integer(n),
            None => Json::Null,
        },
    );
    set_field(&mut o, "started_at", Json::Text(rfc3339(started_at, false, false)));
    set_field(&mut o, "finished_at", Json::Text(rfc3339(finished_at, false, false)));
    set_field(
        &mut o,
        "duration_s",
        Json::Number(Number::Float(hundredths_text(whole_millis(started_at, finished_at)))),
    );
    set_field(&mut o, "output", Json::Text(kept));
    set_field(&mut o, "output_truncated", Json::Bool(cut));
    set_field(
        &mut o,
        "error",
        match error {
            Some(e) => Json::Text(e),
            None => Json::Null,
        },
    );
    o
}

/// A job has succeeded exactly where its operation ended with the exit code zero in time;
/// one that ran out of time is told as such.
pub proof fn jobs_end_as_their_operation(id: String, result: Object, error: Option<crate::message::ResponseError>)
    ensures
        ({
            let e = ending(Message::Response { id, ok: true, result: Some(result), error });
            let o = fields(result@);
            &&& e.status == "succeeded"@ <==> get(o, "returncode"@) == Some(Tree::Number(Num::Pos(0))) && get(o, "timed_out"@)
                != Some(Tree::Bool(true)) || get(o, "returncode"@) == Some(Tree::Number(Num::Neg(0i64))) && get(o, "timed_out"@)
                != Some(Tree::Bool(true))
            &&& e.status == "timeout"@ <==> get(o, "timed_out"@) == Some(Tree::Bool(true))
            &&& (get(o, "returncode"@) matches Some(Tree::Number(Num::Pos(n))) && n <= i64::MAX) ==> e.exit_code == Some(
                get(o, "returncode"@)->0->Number_0->Pos_0 as i64,
            )
            &&& get(o, "output"@) matches Some(Tree::Text(t)) ==> e.output == t
            &&& e.error is None
        }),
{
    reveal_strlit("succeeded");
    reveal_strlit("timeout");
    reveal_strlit("failed");
    assert("succeeded"@.len() == 9 && "timeout"@.len() == 7 && "failed"@.len() == 6);
}

/// A job whose operation was refused has failed, with the message of the refusal.
pub proof fn refused_jobs_fail(id: String, result: Option<Object>, error: crate::message::ResponseError)
    ensures
        ({
            let e = ending(Message::Response { id, ok: false, result, error: Some(error) });
            &&& e.status == "failed"@
            &&& e.exit_code is None
            &&& error.message@.len() > 0 ==> e.error == Some(error.message@)
            &&& error.message@.len() == 0 ==> e.error == Some("operation failed"@)
        }),
{
}

/// What is told of a job that ended holds which it was, how it ended, and when.
pub proof fn completed_jobs_are_told(
    job_id: Seq<char>,
    op: Seq<char>,
    host: Seq<char>,
    end: Ending,
    started: Timestamp,
    finished: Timestamp,
)
    ensures
        ({
            let r = completed_event(job_id, op, host, end, started, finished);
            &&& get(r, "job_id"@) == Some(Tree::Text(job_id))
            &&& get(r, "tool"@) == Some(Tree::Text(op))
            &&& get(r, "host"@) == Some(Tree::Text(host))
            &&& get(r, "status"@) == Some(Tree::Text(end.status))
            &&& get(r, "exit_code"@) == Some(
                match end.exit_code {
                    Some(n) => if n >= 0 {
                        Tree::Number(Num::Pos(n as u64))
                    } else {
                        Tree::Number(Num::Neg(n))
                    },
                    None => Tree::Null,
                },
            )
            &&& get(r, "started_at"@) == Some(Tree::Text(rfc3339_text(started.secs, started.nanos, false, false)))
            &&& get(r, "finished_at"@) == Some(Tree::Text(rfc3339_text(finished.secs, finished.nanos, false, false)))
            &&& get(r, "error"@) == match end.error {
                Some(e) => Some(Tree::Text(e)),
                None => Some(Tree::Null),
            }
            &&& bytes_of(end.output).len() <= 262_144 ==> get(r, "output"@) == Some(Tree::Text(end.output)) && get(
                r,
                "output_truncated"@,
            ) == Some(Tree::Bool(false))
            &&& bytes_of(end.output).len() > 262_144 ==> get(r, "output"@) == Some(
                Tree::Text(lossy_text(bytes_of(end.output).take(262_144))),
            ) && get(r, "output_truncated"@) == Some(Tree::Bool(true))
        }),
{
    broadcast use lemma_get_put;

    reveal_strlit("job_id");
    reveal_strlit("tool");
    reveal_strlit("host");
    reveal_strlit("status");
    reveal_strlit("exit_code");
    reveal_strlit("started_at");
    reveal_strlit("finished_at");
    reveal_strlit("duration_s");
    reveal_strlit("output");
    reveal_strlit("output_truncated");
    reveal_strlit("error");
    assert("job_id"@.len() == 6 && "tool"@.len() == 4 && "host"@.len() == 4 && "status"@.len() == 6
        && "exit_code"@.len() == 9 && "started_at"@.len() == 10 && "finished_at"@.len() == 11
        && "duration_s"@.len() == 10 && "output"@.len() == 6 && "output_truncated"@.len() == 16 && "error"@.len() == 5
        && "job_id"@[0] == 'j' && "status"@[0] == 's' && "output"@[0] == 'o' && "tool"@[0] == 't' && "host"@[0] == 'h'
        && "started_at"@[0] == 's' && "duration_s"@[0] == 'd');
}

/// The duration of a job is the time from its start to its end, to the millisecond.
pub proof fn durations_run_from_start_to_end(a: Timestamp, b: Timestamp)
    requires
        a.secs < b.secs || a.secs == b.secs && a.nanos <= b.nanos,
        a.nanos < 1_000_000_000,
        b.nanos < 1_000_000_000,
    ensures
        ({
            let nanos = (b.secs * 1_000_000_000 + b.nanos) - (a.secs * 1_000_000_000 + a.nanos);
            &&& millis_between(a, b) * 1_000_000 <= nanos < (millis_between(a, b) + 1) * 1_000_000
            &&& millis_between(a, b) >= 0
        }),
{
}

/// What a job printed is told whole where it fits, and otherwise cut, which is told.
pub proof fn long_outputs_are_cut(s: Seq<char>)
    ensures
        bytes_of(s).len() <= MAX_EVENT_OUTPUT_BYTES ==> event_output(s) == (s, false),
        bytes_of(s).len() > MAX_EVENT_OUTPUT_BYTES ==> event_output(s) == (
            lossy_text(bytes_of(s).take(MAX_EVENT_OUTPUT_BYTES as int)),
            true,
        ),
{
}

} // verus!
