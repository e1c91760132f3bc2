//! The record of what was done on a host: one JSON object to a line, the oldest
//! dropped when there are too many.

use crate::op::{names_are_distinct, op_name, Op};
use crate::digits::{padded, padded_text};
use crate::json::{
    copy_object, count, fields, get, group_json_views, integer, integer_num, lemma_get_put, no_fields, no_object,
    opt_string, put_then_get, set_field, string, text_or_null, Entries, Fields, Json, Num, Object, Tree,
};
use crate::text::{bytes_of, cat3, same};
use crate::time::{rfc3339, rfc3339_text, Timestamp};
use crate::wire::{carried, one_line, parsed_json, plain, printed_json, read_json, sound, write_json, MAX_DEPTH};
use vstd::prelude::*;
use vstd::slice::slice_subrange;

verus! {

pub const MAX_LINES: usize = 5000;

/// The number of lines beyond which the record is cut.
pub const TRIM_TRIGGER: usize = 5500;

/// After how many entries the length is looked at again.
pub const RETENTION_CHECK_EVERY: usize = 100;

/// How much of the record is read at a time, from its end.
pub const TAIL_BLOCK: usize = 65_536;

pub const DEFAULT_AUDIT_PATH: &'static str = "/var/lib/sentinelx/audit.jsonl";

/// Where the record is kept.
pub fn audit_path(variable: Option<String>) -> (r: String)
    ensures
        r@ == match variable {
            Some(p) => p@,
            None => DEFAULT_AUDIT_PATH@,
        },
{
    match variable {
        Some(p) => p,
        None => DEFAULT_AUDIT_PATH.to_owned(),
    }
}

/// When the length of the record was last looked at.
#[derive(Debug, Clone, Copy, PartialEq, Eq, Structural)]
pub struct RetentionState {
    pub checked_once: bool,
    pub writes_since_check: usize,
}

impl Default for RetentionState {
    fn default() -> (r: Self)
        ensures
            !r.checked_once,
            r.writes_since_check == 0,
    {
        RetentionState { checked_once: false, writes_since_check: 0 }
    }
}

impl RetentionState {
    pub open spec fn sound(self) -> bool {
        self.writes_since_check < RETENTION_CHECK_EVERY
    }

    /// Whether the length is to be looked at after an entry: after the first, and
    /// then after every hundredth.
    pub fn should_check_retention(&mut self) -> (r: bool)
        requires
            old(self).sound(),
        ensures
            final(self).sound(),
            final(self).checked_once,
            r == (!old(self).checked_once || old(self).writes_since_check + 1 >= RETENTION_CHECK_EVERY),
            final(self).writes_since_check == if r {
                0
            } else {
                old(self).writes_since_check + 1
            },
    {
        if !self.checked_once {
            self.checked_once = true;
            self.writes_since_check = 0;
            return true;
        }
        self.writes_since_check = self.writes_since_check + 1;
        if self.writes_since_check >= RETENTION_CHECK_EVERY {
            self.writes_since_check = 0;
            true
        } else {
            false
        }
    }
}

pub const NEWLINE: u8 = 10;

/// Where the first newline stands from `i` on, or the length.
pub open spec fn next_newline(b: Seq<u8>, i: int) -> int
    decreases b.len() - i,
{
    if i < 0 || i >= b.len() {
        b.len() as int
    } else if b[i] == NEWLINE {
        i
    } else {
        next_newline(b, i + 1)
    }
}

/// Where the lines begin that are left when `n` have been taken, from `i` on.
pub open spec fn after_lines(b: Seq<u8>, i: int, n: nat) -> int
    decreases n,
{
    if n == 0 {
        i
    } else {
        let k = next_newline(b, i);
        if k < b.len() {
            after_lines(b, k + 1, (n - 1) as nat)
        } else {
            b.len() as int
        }
    }
}

/// How many lines there are from `i` on; the last may lack its newline.
pub open spec fn line_total(b: Seq<u8>, i: int) -> nat
    decreases b.len() - i,
{
    if i < 0 || i >= b.len() {
        0
    } else {
        let k = next_newline(b, i);
        if i <= k < b.len() {
            1 + line_total(b, k + 1)
        } else {
            1
        }
    }
}

/// What stays of a record that is too long: its last lines.
pub open spec fn retained(b: Seq<u8>) -> Option<Seq<u8>> {
    let n = line_total(b, 0);
    if n <= TRIM_TRIGGER {
        None
    } else {
        Some(b.skip(after_lines(b, 0, (n - MAX_LINES) as nat)))
    }
}

proof fn lemma_newline_found(b: Seq<u8>, i: int)
    requires
        0 <= i <= b.len(),
    ensures
        i <= next_newline(b, i) <= b.len(),
        next_newline(b, i) < b.len() ==> b[next_newline(b, i)] == NEWLINE,
        forall|j: int| i <= j < next_newline(b, i) ==> #[trigger] b[j] != NEWLINE,
    decreases b.len() - i,
{
    if i < b.len() && b[i] != NEWLINE {
        lemma_newline_found(b, i + 1);
    }
}

proof fn lemma_line_total(b: Seq<u8>, i: int)
    requires
        0 <= i <= b.len(),
    ensures
        line_total(b, i) <= b.len() - i,
    decreases b.len() - i,
{
    if i < b.len() {
        lemma_newline_found(b, i);
        let k = next_newline(b, i);
        if k < b.len() {
            lemma_line_total(b, k + 1);
        }
    }
}

fn find_newline(b: &Vec<u8>, from: usize) -> (r: usize)
    requires
        from <= b@.len(),
    ensures
        r == next_newline(b@, from as int),
        from <= r <= b@.len(),
{
    let mut i: usize = from;
    while i < b.len()
        invariant
            from <= i <= b@.len(),
            next_newline(b@, i as int) == next_newline(b@, from as int),
        decreases b@.len() - i,
    {
        if b[i] == NEWLINE {
            return i;
        }
        i = i + 1;
    }
    i
}

/// What stays of the record; nothing where it is short enough.
pub fn maybe_trim(b: &Vec<u8>) -> (r: Option<Vec<u8>>)
    ensures
        match r {
            Some(v) => retained(b@) == Some(v@),
            None => retained(b@) is None,
        },
{
    let mut total: usize = 0;
    let mut i: usize = 0;
    let length = b.len();
    while i < length
        invariant
            i <= length,
            length == b@.len(),
            total + line_total(b@, i as int) == line_total(b@, 0),
            total <= i,
        decreases length - i,
    {
        let k = find_newline(b, i);
        total = total + 1;
        i = if k < length {
            k + 1
        } else {
            length
        };
    }
    if total <= TRIM_TRIGGER {
        return None;
    }
    let drop = total - MAX_LINES;
    let mut at: usize = 0;
    let mut n: usize = drop;
    while n > 0
        invariant
            at <= length,
            length == b@.len(),
            n <= drop,
            after_lines(b@, at as int, n as nat) == after_lines(b@, 0, drop as nat),
        decreases n,
    {
        let k = find_newline(b, at);
        if k < length {
            at = k + 1;
            n = n - 1;
        } else {
            at = length;
            proof {
                assert(after_lines(b@, length as int, (n - 1) as nat) == length) by {
                    lemma_after_end(b@, (n - 1) as nat);
                }
            }
            n = n - 1;
        }
    }
    let mut out: Vec<u8> = Vec::new();
    out.extend_from_slice(slice_subrange(b.as_slice(), at, length));
    assert(out@ =~= b@.skip(at as int));
    Some(out)
}

proof fn lemma_after_end(b: Seq<u8>, n: nat)
    ensures
        after_lines(b, b.len() as int, n) == b.len(),
{
}

/// What is recorded of an operation: which it was, when, and how it ended. What it was
/// asked to do is not recorded.
pub open spec fn entry_fields(
    op: Seq<char>,
    ok: bool,
    error: Option<Seq<char>>,
    duration_ms: u64,
    result_ok: Option<bool>,
    result_returncode: Option<i64>,
    now: Timestamp,
) -> Fields {
    let base = no_fields().with("timestamp"@, Tree::Text(rfc3339_text(now.secs, now.nanos, true, true))).with(
        "op"@,
        Tree::Text(op),
    ).with("ok"@, Tree::Bool(ok)).with("error"@, text_or_null(error)).with(
        "duration_ms"@,
        Tree::Number(Num::Pos(duration_ms)),
    );
    let first = match result_ok {
        Some(v) => base.with("result_ok"@, Tree::Bool(v)),
        None => base,
    };
    match result_returncode {
        Some(n) => first.with("result_returncode"@, Tree::Number(integer_num(n))),
        None => first,
    }
}

/// Whether an operation leaves a record: all but reading the record and pings.
pub open spec fn recorded_op(op: Seq<char>) -> bool {
    op != "read_audit"@ && op != "ping"@
}

/// What may stand in an entry.
pub open spec fn entry_keys() -> Seq<Seq<char>> {
    seq![
        "timestamp"@,
        "op"@,
        "ok"@,
        "error"@,
        "duration_ms"@,
        "result_ok"@,
        "result_returncode"@,
    ]
}

/// An entry holds nothing of what an operation was asked to do, neither the contents of
/// files nor the arguments of commands: its fields tell only which operation it was,
/// when, and how it ended.
pub proof fn entries_hold_no_payload(
    op: Seq<char>,
    ok: bool,
    error: Option<Seq<char>>,
    duration_ms: u64,
    result_ok: Option<bool>,
    result_returncode: Option<i64>,
    now: Timestamp,
    key: Seq<char>,
)
    requires
        !entry_keys().contains(key),
    ensures
        get(entry_fields(op, ok, error, duration_ms, result_ok, result_returncode, now), key) is None,
{
    let keys = entry_keys();
    assert(keys[0] == "timestamp"@ && keys[1] == "op"@ && keys[2] == "ok"@ && keys[3] == "error"@ && keys[4]
        == "duration_ms"@ && keys[5] == "result_ok"@ && keys[6] == "result_returncode"@);
    let a = no_fields();
    let at = Tree::Text(rfc3339_text(now.secs, now.nanos, true, true));
    let b = a.with("timestamp"@, at);
    let c = b.with("op"@, Tree::Text(op));
    let d = c.with("ok"@, Tree::Bool(ok));
    let e = d.with("error"@, text_or_null(error));
    let f = e.with("duration_ms"@, Tree::Number(Num::Pos(duration_ms)));
    put_then_get(a, "timestamp"@, at, key);
    put_then_get(b, "op"@, Tree::Text(op), key);
    put_then_get(c, "ok"@, Tree::Bool(ok), key);
    put_then_get(d, "error"@, text_or_null(error), key);
    put_then_get(e, "duration_ms"@, Tree::Number(Num::Pos(duration_ms)), key);
    let g = match result_ok {
        Some(v) => {
            put_then_get(f, "result_ok"@, Tree::Bool(v), key);
            f.with("result_ok"@, Tree::Bool(v))
        },
        None => f,
    };
    if let Some(n) = result_returncode {
        put_then_get(g, "result_returncode"@, Tree::Number(integer_num(n)), key);
    }
    assert(get(a, key) is None);
}

/// The entry for an operation; nothing for one that leaves no record.
pub fn entry(
    op: &str,
    dispatch_ok: bool,
    error: Option<&str>,
    duration_ms: u64,
    result_ok: Option<bool>,
    result_returncode: Option<i64>,
    now: Timestamp,
) -> (r: Option<Object>)
    ensures
        r is Some <==> recorded_op(op@),
        r matches Some(o) ==> fields(o@) == entry_fields(
            op@,
            dispatch_ok,
            match error {
                Some(e) => Some(e@),
                None => None,
            },
            duration_ms,
            result_ok,
            result_returncode,
            now,
        ),
{
    broadcast use group_json_views;

    if same(op, "read_audit") || same(op, "ping") {
        return None;
    }
    let mut o = no_object();
    set_field(&mut o, "timestamp", Json::Text(rfc3339(now, true, true)));
    set_field(&mut o, "op", string(op));
    set_field(&mut o, "ok", Json::Bool(dispatch_ok));
    set_field(&mut o, "error", opt_string(error));
    set_field(&mut o, "duration_ms", count(duration_ms));
    if let Some(v) = result_ok {
        set_field(&mut o, "result_ok", Json::Bool(v));
    }
    if let Some(n) = result_returncode {
        set_field(&mut o, "result_returncode", integer(n));
    }
    Some(o)
}

/// The line that an entry is in the record, with its newline.
pub fn entry_line(o: &Object) -> (r: Vec<u8>)
    ensures
        r@ == bytes_of(printed_json(carried(Tree::Object(fields(o@))))).push(NEWLINE),
        one_line(r@.drop_last()),
        plain(Tree::Object(fields(o@)), MAX_DEPTH as int) ==> parsed_json(r@.drop_last()) == sound(
            Tree::Object(fields(o@)),
        ),
{
    broadcast use group_json_views;

    let text = write_json(&Json::Object(copy_object(o)));
    let mut r: Vec<u8> = Vec::new();
    r.extend_from_slice(text.as_str().as_bytes());
    assert(r@ =~= bytes_of(text@));
    r.push(NEWLINE);
    assert(r@.drop_last() =~= bytes_of(text@));
    r
}

/// A name for a file that is written before it takes the record's place.
pub fn temporary_name(random: u64) -> (r: String)
    ensures
        r@ == ".audit-"@ + padded(random as nat, 16, 16) + ".tmp"@,
{
    cat3(".audit-", &padded_text(random, 16, 16), ".tmp")
}

/// How many newlines there are.
pub open spec fn newline_count(b: Seq<u8>) -> nat
    decreases b.len(),
{
    if b.len() == 0 {
        0
    } else {
        newline_count(b.drop_last()) + if b.last() == NEWLINE {
            1nat
        } else {
            0nat
        }
    }
}

/// How much to read next before `position`, when `buffer` is what was read so far:
/// a block, as long as there is more and not more newlines than lines are wanted.
pub fn next_block(position: u64, buffer: &Vec<u8>, limit: usize) -> (r: usize)
    ensures
        r == if position > 0 && newline_count(buffer@) <= limit {
            if position < TAIL_BLOCK {
                position as int
            } else {
                TAIL_BLOCK as int
            }
        } else {
            0
        },
{
    let mut n: usize = 0;
    let mut i: usize = 0;
    while i < buffer.len()
        invariant
            i <= buffer@.len(),
            n <= i,
            n == newline_count(buffer@.take(i as int)),
        decreases buffer@.len() - i,
    {
        assert(buffer@.take(i + 1).drop_last() =~= buffer@.take(i as int));
        if buffer[i] == NEWLINE {
            n = n + 1;
        }
        i = i + 1;
    }
    assert(buffer@.take(i as int) =~= buffer@);
    if position > 0 && n <= limit {
        if position < TAIL_BLOCK as u64 {
            position as usize
        } else {
            TAIL_BLOCK
        }
    } else {
        0
    }
}

/// The lines from `i` on that are not empty, without their newlines.
pub open spec fn full_lines(b: Seq<u8>, i: int) -> Seq<Seq<u8>>
    decreases b.len() - i,
{
    if i < 0 || i >= b.len() {
        Seq::empty()
    } else {
        let k = next_newline(b, i);
        if k == i {
            full_lines(b, i + 1)
        } else if i < k < b.len() {
            seq![b.subrange(i, k)] + full_lines(b, k + 1)
        } else {
            seq![b.skip(i)]
        }
    }
}

/// The last `n` of a list.
pub open spec fn last_of(lines: Seq<Seq<u8>>, n: int) -> Seq<Seq<u8>> {
    if lines.len() > n {
        lines.skip(lines.len() - n)
    } else {
        lines
    }
}

pub open spec fn byte_views(v: Seq<Vec<u8>>) -> Seq<Seq<u8>> {
    Seq::new(v.len(), |i: int| v[i]@)
}

/// The last `limit` lines that are not empty.
pub fn tail_lines(b: &Vec<u8>, limit: usize) -> (r: Vec<Vec<u8>>)
    ensures
        byte_views(r@) == last_of(full_lines(b@, 0), limit as int),
{
    let mut all: Vec<Vec<u8>> = Vec::new();
    let length = b.len();
    let mut i: usize = 0;
    assert(byte_views(all@) + full_lines(b@, 0) =~= full_lines(b@, 0));
    while i < length
        invariant
            i <= length,
            length == b@.len(),
            byte_views(all@) + full_lines(b@, i as int) == full_lines(b@, 0),
        decreases length - i,
    {
        let k = find_newline(b, i);
        let ghost before = byte_views(all@);
        if k > i {
            let mut line: Vec<u8> = Vec::new();
            line.extend_from_slice(slice_subrange(b.as_slice(), i, k));
            assert(line@ =~= b@.subrange(i as int, k as int));
            all.push(line);
            assert(byte_views(all@) =~= before.push(b@.subrange(i as int, k as int)));
            proof {
                if k < length {
                    assert(before + (seq![b@.subrange(i as int, k as int)] + full_lines(b@, k + 1)) =~= byte_views(all@)
                        + full_lines(b@, k + 1));
                } else {
                    assert(b@.subrange(i as int, k as int) =~= b@.skip(i as int));
                    assert(byte_views(all@) + full_lines(b@, length as int) =~= before + full_lines(b@, i as int));
                }
            }
        }
        i = if k < length {
            k + 1
        } else {
            length
        };
    }
    assert(byte_views(all@) =~= full_lines(b@, 0));
    if all.len() <= limit {
        return all;
    }
    let from = all.len() - limit;
    let mut r: Vec<Vec<u8>> = Vec::new();
    let mut n: usize = from;
    while n < all.len()
        invariant
            from <= n <= all@.len(),
            r@.len() == n - from,
            forall|j: int| 0 <= j < r@.len() ==> (#[trigger] r@[j])@ == all@[from + j]@,
        decreases all@.len() - n,
    {
        let mut line: Vec<u8> = Vec::new();
        line.extend_from_slice(all[n].as_slice());
        assert(line@ =~= all@[n as int]@);
        r.push(line);
        n = n + 1;
    }
    assert(byte_views(r@) =~= byte_views(all@).skip(from as int));
    r
}

/// The values in lines, from the last to the first; a line that is no JSON is left
/// out.
pub open spec fn newest_first(lines: Seq<Seq<u8>>) -> Seq<Tree>
    decreases lines.len(),
{
    if lines.len() == 0 {
        Seq::empty()
    } else {
        match parsed_json(lines.last()) {
            Ok(t) => seq![t] + newest_first(lines.drop_last()),
            Err(_) => newest_first(lines.drop_last()),
        }
    }
}

/// Between one and the most lines that are kept.
pub open spec fn line_limit(limit: usize) -> usize {
    if limit < 1 {
        1
    } else if limit > MAX_LINES {
        MAX_LINES
    } else {
        limit
    }
}

pub fn clamp_limit(limit: usize) -> (r: usize)
    ensures
        r == line_limit(limit),
{
    if limit < 1 {
        1
    } else if limit > MAX_LINES {
        MAX_LINES
    } else {
        limit
    }
}

/// The newest entries first, given what was read from the end of the record.
pub fn recent_entries(buffer: &Vec<u8>, limit: usize) -> (r: Vec<Json>)
    ensures
        crate::json::trees(r@) == newest_first(last_of(full_lines(buffer@, 0), line_limit(limit) as int)),
{
    let lines = tail_lines(buffer, clamp_limit(limit));
    let ghost all = byte_views(lines@);
    let mut r: Vec<Json> = Vec::new();
    let mut n: usize = lines.len();
    assert(all.take(n as int) =~= all);
    assert(crate::json::trees(r@) + newest_first(all) =~= newest_first(all));
    while n > 0
        invariant
            n <= lines@.len(),
            all == byte_views(lines@),
            crate::json::trees(r@) + newest_first(all.take(n as int)) == newest_first(all),
        decreases n,
    {
        let ghost before = crate::json::trees(r@);
        assert(all.take(n as int).drop_last() =~= all.take(n - 1));
        assert(all.take(n as int).last() == lines@[n - 1]@);
        match read_json(lines[n - 1].as_slice()) {
            Ok(v) => {
                r.push(v);
                assert(crate::json::trees(r@) =~= before.push(v@));
                assert(before + (seq![v@] + newest_first(all.take(n - 1))) =~= crate::json::trees(r@) + newest_first(
                    all.take(n - 1),
                ));
            },
            Err(_) => {},
        }
        n = n - 1;
    }
    assert(crate::json::trees(r@) + newest_first(all.take(0)) =~= crate::json::trees(r@));
    r
}

/// A record whose lines are all complete, without empty ones.
pub open spec fn whole_lines(b: Seq<u8>) -> bool {
    &&& b.len() > 0 ==> b[0] != NEWLINE && b.last() == NEWLINE
    &&& forall|i: int| 0 < i < b.len() && #[trigger] b[i] == NEWLINE ==> b[i - 1] != NEWLINE
}

proof fn lemma_next_newline_in(b: Seq<u8>, i: int, k: int)
    requires
        0 <= i <= k < b.len(),
        b[k] == NEWLINE,
        forall|j: int| i <= j < k ==> #[trigger] b[j] != NEWLINE,
    ensures
        next_newline(b, i) == k,
    decreases k - i,
{
    if i < k {
        assert(b[i] != NEWLINE);
        lemma_next_newline_in(b, i + 1, k);
    }
}

/// The lines behind a newline do not depend on what stands before it.
proof fn lemma_lines_of_end(b: Seq<u8>, p: int, i: int)
    requires
        0 <= p <= b.len(),
        0 <= i <= b.len() - p,
    ensures
        full_lines(b.skip(p), i) == full_lines(b, p + i),
    decreases b.len() - p - i,
{
    let end = b.skip(p);
    if i < end.len() {
        lemma_newline_found(end, i);
        lemma_newline_found(b, p + i);
        let k = next_newline(end, i);
        let m = next_newline(b, p + i);
        assert(m == p + k) by {
            if k < end.len() {
                assert(b[p + k] == end[k]);
                if m < p + k {
                    assert(end[m - p] == b[m]);
                }
            } else if m < b.len() {
                assert(end[m - p] == b[m]);
            }
        }
        if k == i {
            lemma_lines_of_end(b, p, i + 1);
        } else if k < end.len() {
            lemma_lines_of_end(b, p, k + 1);
            assert(end.subrange(i, k) =~= b.subrange(p + i, p + k));
        } else {
            assert(end.skip(i) =~= b.skip(p + i));
        }
    }
}

/// The lines of a record are those up to a newline and those behind it.
proof fn lemma_lines_split(b: Seq<u8>, i: int, k: int)
    requires
        0 <= i <= k < b.len(),
        b[k] == NEWLINE,
    ensures
        exists|head: Seq<Seq<u8>>| full_lines(b, i) == #[trigger] (head + full_lines(b, k + 1)),
    decreases b.len() - i,
{
    lemma_newline_found(b, i);
    let m = next_newline(b, i);
    assert(m <= k);
    let line = if m == i {
        Seq::empty()
    } else {
        seq![b.subrange(i, m)]
    };
    assert(full_lines(b, i) =~= line + full_lines(b, m + 1));
    if m == k {
        assert(full_lines(b, i) == line + full_lines(b, k + 1));
    } else {
        lemma_lines_split(b, m + 1, k);
        let head = choose|head: Seq<Seq<u8>>| full_lines(b, m + 1) == #[trigger] (head + full_lines(b, k + 1));
        assert(full_lines(b, i) =~= (line + head) + full_lines(b, k + 1));
    }
}

proof fn lemma_newlines_of_end(b: Seq<u8>, k: int)
    requires
        0 <= k <= b.len(),
    ensures
        newline_count(b) == newline_count(b.take(k)) + newline_count(b.skip(k)),
    decreases b.len() - k,
{
    if k == b.len() {
        assert(b.take(k) =~= b);
        assert(b.skip(k) =~= Seq::<u8>::empty());
    } else {
        lemma_newlines_of_end(b.drop_last(), k);
        assert(b.drop_last().take(k) =~= b.take(k));
        assert(b.drop_last().skip(k) =~= b.skip(k).drop_last());
    }
}

proof fn lemma_no_newlines(b: Seq<u8>)
    requires
        forall|j: int| 0 <= j < b.len() ==> #[trigger] b[j] != NEWLINE,
    ensures
        newline_count(b) == 0,
    decreases b.len(),
{
    if b.len() > 0 {
        lemma_no_newlines(b.drop_last());
    }
}

/// From the start of a line on there are as many lines as newlines.
proof fn lemma_lines_and_newlines(b: Seq<u8>, i: int)
    requires
        whole_lines(b),
        0 <= i <= b.len(),
        i < b.len() ==> b[i] != NEWLINE,
    ensures
        full_lines(b, i).len() == newline_count(b.skip(i)),
    decreases b.len() - i,
{
    let end = b.skip(i);
    if i < b.len() {
        lemma_newline_found(b, i);
        let k = next_newline(b, i);
        assert(k < b.len()) by {
            if k == b.len() {
                assert(b[b.len() - 1] != NEWLINE);
            }
        }
        if k + 1 < b.len() && b[k + 1] == NEWLINE {
            assert(b[k + 1 - 1] != NEWLINE);
        }
        lemma_lines_and_newlines(b, k + 1);
        let n = k + 1 - i;
        lemma_newlines_of_end(end, n);
        assert(end.skip(n) =~= b.skip(k + 1));
        let line = end.take(n);
        assert(line.drop_last() =~= b.subrange(i, k));
        lemma_no_newlines(line.drop_last());
        assert(line.last() == NEWLINE);
        assert(newline_count(line) == 1);
    } else {
        assert(end =~= Seq::<u8>::empty());
    }
}

proof fn lemma_last_of_end(head: Seq<Seq<u8>>, tail: Seq<Seq<u8>>, n: int)
    requires
        0 <= n <= tail.len(),
    ensures
        last_of(head + tail, n) == last_of(tail, n),
{
    assert(last_of(head + tail, n) =~= last_of(tail, n));
}

/// Reading stops, at `position`, when it has seen more newlines than lines are
/// wanted: the last lines of what was read are then the last of the whole record.
pub proof fn enough_is_read(b: Seq<u8>, position: int, limit: int)
    requires
        whole_lines(b),
        0 <= position <= b.len(),
        limit >= 0,
        position == 0 || newline_count(b.skip(position)) > limit,
    ensures
        last_of(full_lines(b.skip(position), 0), limit) == last_of(full_lines(b, 0), limit),
{
    let end = b.skip(position);
    if position == 0 {
        assert(end =~= b);
    } else {
        lemma_newline_found(end, 0);
        let q = next_newline(end, 0);
        if q == end.len() {
            lemma_no_newlines(end);
        }
        let k = position + q;
        assert(b[k] == end[q]);
        lemma_lines_split(b, 0, k);
        lemma_lines_split(end, 0, q);
        lemma_lines_of_end(b, position, q + 1);
        let tail = full_lines(b, k + 1);
        if k + 1 < b.len() && b[k + 1] == NEWLINE {
            assert(b[k + 1 - 1] != NEWLINE);
        }
        lemma_lines_and_newlines(b, k + 1);
        lemma_newlines_of_end(end, q + 1);
        assert(end.skip(q + 1) =~= b.skip(k + 1));
        let first = end.take(q + 1);
        assert(first.drop_last() =~= end.take(q));
        lemma_no_newlines(first.drop_last());
        let before = choose|head: Seq<Seq<u8>>| full_lines(b, 0) == #[trigger] (head + full_lines(b, k + 1));
        let partial = choose|head: Seq<Seq<u8>>| full_lines(end, 0) == #[trigger] (head + full_lines(end, q + 1));
        lemma_last_of_end(before, tail, limit);
        lemma_last_of_end(partial, tail, limit);
    }
}

/// What was recorded last is read first.
pub proof fn last_entry_is_read_first(b: Seq<u8>, line: Seq<u8>, t: Tree, limit: int)
    requires
        b.len() > 0 ==> b.last() == NEWLINE,
        one_line(line),
        parsed_json(line) == sound(t),
        limit >= 1,
    ensures
        newest_first(last_of(full_lines(b + line.push(NEWLINE), 0), limit)).len() > 0,
        newest_first(last_of(full_lines(b + line.push(NEWLINE), 0), limit))[0] == t,
{
    let all = b + line.push(NEWLINE);
    let n = b.len() as int;
    let end = n + line.len();
    assert forall|j: int| n <= j < end implies #[trigger] all[j] != NEWLINE by {
        assert(all[j] == line[j - n]);
    }
    lemma_next_newline_in(all, n, end);
    assert(all.subrange(n, end) =~= line);
    assert(full_lines(all, end + 1) =~= Seq::empty());
    assert(full_lines(all, n) =~= seq![line]);
    if n > 0 {
        assert(all[n - 1] == NEWLINE);
        lemma_lines_split(all, 0, n - 1);
        let head = choose|head: Seq<Seq<u8>>| full_lines(all, 0) == #[trigger] (head + full_lines(all, n));
        assert(full_lines(all, 0).last() == line);
    }
    let kept = last_of(full_lines(all, 0), limit);
    assert(kept.last() == line);
}

/// A record of complete lines stays one, with every entry and when it is cut.
pub proof fn record_stays_whole(b: Seq<u8>, line: Seq<u8>)
    requires
        whole_lines(b),
        one_line(line),
    ensures
        whole_lines(b + line.push(NEWLINE)),
        retained(b) matches Some(r) ==> whole_lines(r),
{
    let all = b + line.push(NEWLINE);
    let n = b.len() as int;
    assert forall|i: int| 0 < i < all.len() && #[trigger] all[i] == NEWLINE implies all[i - 1] != NEWLINE by {
        if i < n {
            assert(b[i] == NEWLINE);
        } else if i < n + line.len() {
            assert(line[i - n] != NEWLINE);
        } else {
            assert(all[i - 1] == line[i - 1 - n]);
        }
    }
    assert(all[0] == if n > 0 {
        b[0]
    } else {
        line[0]
    });
    if line_total(b, 0) > TRIM_TRIGGER {
        let drop = (line_total(b, 0) - MAX_LINES) as nat;
        let k = after_lines(b, 0, drop);
        lemma_after_lines(b, 0, drop);
        lemma_behind_newline(b, 0, drop);
        let r = b.skip(k);
        assert forall|i: int| 0 < i < r.len() && #[trigger] r[i] == NEWLINE implies r[i - 1] != NEWLINE by {
            assert(b[k + i] == NEWLINE);
        }
        if k < b.len() {
            assert(b[k - 1] == NEWLINE);
            assert(r[0] == b[k]);
        }
    }
}

/// Where lines begin, there was a newline before.
proof fn lemma_behind_newline(b: Seq<u8>, i: int, n: nat)
    requires
        0 <= i <= b.len(),
        n > 0,
    ensures
        0 < after_lines(b, i, n) < b.len() ==> b[after_lines(b, i, n) - 1] == NEWLINE,
        after_lines(b, i, n) > 0 || b.len() == 0,
    decreases n,
{
    reveal_with_fuel(after_lines, 2);
    lemma_newline_found(b, i);
    let k = next_newline(b, i);
    if k < b.len() && n > 1 {
        lemma_behind_newline(b, k + 1, (n - 1) as nat);
    }
}

/// What stays of a record that was cut is its end, and has no more lines than are
/// kept.
pub proof fn cut_record_is_the_end(b: Seq<u8>)
    requires
        line_total(b, 0) > TRIM_TRIGGER,
    ensures
        retained(b) matches Some(r) && exists|k: int| 0 <= k <= b.len() && r == #[trigger] b.skip(k),
        line_total(b, after_lines(b, 0, (line_total(b, 0) - MAX_LINES) as nat)) == MAX_LINES,
{
    let n = (line_total(b, 0) - MAX_LINES) as nat;
    lemma_after_lines(b, 0, n);
    assert(b.skip(after_lines(b, 0, n)) == retained(b)->0);
}

proof fn lemma_after_lines(b: Seq<u8>, i: int, n: nat)
    requires
        0 <= i <= b.len(),
        n <= line_total(b, i),
    ensures
        i <= after_lines(b, i, n) <= b.len(),
        line_total(b, after_lines(b, i, n)) == line_total(b, i) - n,
    decreases n,
{
    if n > 0 {
        lemma_newline_found(b, i);
        let k = next_newline(b, i);
        if k < b.len() {
            lemma_after_lines(b, k + 1, (n - 1) as nat);
        }
    }
}

/// An entry of the audit tells which operation it was, whether it went well, how long it
/// took and how it ended.
pub proof fn entries_are_told(
    op: Seq<char>,
    ok: bool,
    error: Option<Seq<char>>,
    duration_ms: u64,
    result_ok: Option<bool>,
    result_returncode: Option<i64>,
    now: Timestamp,
)
    ensures
        ({
            let r = entry_fields(op, ok, error, duration_ms, result_ok, result_returncode, now);
            &&& get(r, "timestamp"@) == Some(Tree::Text(rfc3339_text(now.secs, now.nanos, true, true)))
            &&& get(r, "op"@) == Some(Tree::Text(op))
            &&& get(r, "ok"@) == Some(Tree::Bool(ok))
            &&& get(r, "error"@) == match error {
                Some(e) => Some(Tree::Text(e)),
                None => Some(Tree::Null),
            }
            &&& get(r, "duration_ms"@) == Some(Tree::Number(Num::Pos(duration_ms)))
            &&& get(r, "result_ok"@) == match result_ok {
                Some(b) => Some(Tree::Bool(b)),
                None => None,
            }
            &&& get(r, "result_returncode"@) == match result_returncode {
                Some(n) => Some(
                    Tree::Number(
                        if n >= 0 {
                            Num::Pos(n as u64)
                        } else {
                            Num::Neg(n)
                        },
                    ),
                ),
                None => None,
            }
        }),
{
    broadcast use lemma_get_put;

    reveal_strlit("timestamp");
    reveal_strlit("op");
    reveal_strlit("ok");
    reveal_strlit("error");
    reveal_strlit("duration_ms");
    reveal_strlit("result_ok");
    reveal_strlit("result_returncode");
    assert("timestamp"@.len() == 9 && "op"@.len() == 2 && "ok"@.len() == 2 && "error"@.len() == 5
        && "duration_ms"@.len() == 11 && "result_ok"@.len() == 9 && "result_returncode"@.len() == 17
        && "timestamp"@[0] == 't' && "result_ok"@[0] == 'r' && "op"@[1] == 'p' && "ok"@[1] == 'k');
}

/// Entries come newest first, those that can be read: of two lines the later one is told
/// before the earlier.
pub proof fn newest_entries_come_first(lines: Seq<Seq<u8>>, line: Seq<u8>, t: Tree)
    requires
        parsed_json(line) matches Ok(u) && u == t,
    ensures
        newest_first(lines.push(line)) == seq![t] + newest_first(lines),
{
    assert(lines.push(line).drop_last() =~= lines);
}

/// Everything but what asks for the audit itself, or only whether the agent is there, is
/// recorded.
pub proof fn operations_are_recorded(op: Op)
    ensures
        recorded_op(op_name(op)) <==> op != Op::ReadAudit && op != Op::Ping,
{
    names_are_distinct(op, Op::ReadAudit);
    names_are_distinct(op, Op::Ping);
}

/// Of a record the last lines are read, as many as are asked for, at most as many as are
/// kept.
pub proof fn last_lines_are_read(lines: Seq<Seq<u8>>, n: int)
    requires
        n >= 0,
    ensures
        last_of(lines, n).len() <= n,
        lines.len() <= n ==> last_of(lines, n) == lines,
        lines.len() > n ==> last_of(lines, n) == lines.skip(lines.len() - n) && last_of(lines, n).len() == n,
        1 <= line_limit(n as usize) <= 5000,
        1 <= n <= 5000 ==> line_limit(n as usize) == n,
{
}

} // verus!
