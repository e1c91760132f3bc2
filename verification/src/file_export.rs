//! Sending files away in chunks, with a digest over what was sent in order.

use crate::coding::{absorbed, base64_text, encode_base64, feed, hex_digest, new_hasher, sha256, Hasher};
use crate::digits::{decimal, decimal_text, hex};
use crate::fileops::AccessFault;
use crate::handler_error::{fault, outcome, require_str, required_text, Fault, HandlerError, HandlerResult};
use crate::json::{
    as_count, as_integer, count, count_field, fields, get, integer_field, lemma_get_put, no_fields, no_object,
    set_field, string, Entries, Fields, Json, Num, Object, Tree,
};
use crate::message::TRANSFER_CHUNK_BYTES;
use crate::paths::{file_name, file_name_of};
use crate::policy::{resolved, Policy, Resolution};
use crate::text::{byte_len, bytes_of, cat2, cat3, cat5, debug_text, quoted, same};
use crate::time::Duration;
use crate::upload::all_hex;
use crate::ascii::{lowered, to_lower};
use vstd::prelude::*;

verus! {

/// How long a transfer that nobody goes on with is kept, in nanoseconds.
pub const SESSION_TTL: u128 = 3_600_000_000_000;

/// A file that is being sent.
pub struct ExportSession {
    pub path: String,
    pub size: u64,
    pub chunk_size: usize,
    pub num_chunks: u64,
    pub filename: String,
    /// When it began, on the clock that `now` comes from.
    pub created_at: Duration,
    pub hasher: Hasher,
    pub next_index: u64,
}

/// How many chunks a file has; one where it is empty.
pub open spec fn chunks_of(size: int, chunk_size: int) -> int {
    if size <= 0 {
        1
    } else {
        (size + chunk_size - 1) / chunk_size
    }
}

impl ExportSession {
    pub open spec fn sound(self) -> bool {
        &&& 0 < self.chunk_size <= TRANSFER_CHUNK_BYTES
        &&& self.num_chunks == chunks_of(self.size as int, self.chunk_size as int)
        &&& self.next_index <= self.num_chunks
    }
}

/// The name of a transfer.
pub open spec fn transfer_id_of(payload: Fields) -> Result<Seq<char>, Fault> {
    match required_text(payload, "transfer_id"@) {
        Err(f) => Err(f),
        Ok(id) => if bytes_of(id).len() == 32 && all_hex(id) {
            Ok(lowered(id))
        } else {
            Err(fault("invalid_payload"@, "transfer_id must be a 32-char hex string (16 bytes)"@))
        },
    }
}

pub open spec fn text_view(r: Result<String, HandlerError>) -> Result<Seq<char>, Fault> {
    match r {
        Ok(s) => Ok(s@),
        Err(e) => Err(e@),
    }
}

/// The name of the transfer that a request speaks of.
pub fn valid_transfer_id(payload: &Object) -> (r: Result<String, HandlerError>)
    ensures
        text_view(r) == transfer_id_of(fields(payload@)),
{
    let id = match require_str(payload, "transfer_id") {
        Ok(s) => s,
        Err(e) => return Err(e),
    };
    if byte_len(id) != 32 || !crate::upload::is_all_hex(id) {
        return Err(
            HandlerError::new("invalid_payload", "transfer_id must be a 32-char hex string (16 bytes)"),
        );
    }
    Ok(to_lower(id))
}

/// What is sent, and in which pieces.
pub struct ExportPlan {
    pub transfer_id: String,
    pub path: String,
    pub chunk_size: usize,
}

/// How large the chunks are.
pub open spec fn chunk_size_of(payload: Fields) -> usize {
    match as_count(get(payload, "chunk_size"@)) {
        Some(n) => if 0 < n <= TRANSFER_CHUNK_BYTES {
            n as usize
        } else {
            TRANSFER_CHUNK_BYTES
        },
        None => TRANSFER_CHUNK_BYTES,
    }
}

pub open spec fn export_plan_of(policy: Policy, payload: Fields, seen: Resolution) -> Result<
    (Seq<char>, Seq<char>, usize),
    Fault,
> {
    match transfer_id_of(payload) {
        Err(f) => Err(f),
        Ok(id) => match required_text(payload, "source_path"@) {
            Err(f) => Err(f),
            Ok(source) => match resolved(policy, source, false, seen) {
                None => Err(
                    fault(
                        "path_not_allowed"@,
                        "source_path "@ + debug_text(source) + " is outside file_ops paths"@,
                    ),
                ),
                Some(path) => Ok((id, path, chunk_size_of(payload))),
            },
        },
    }
}

/// What a request to send a file asks for. `seen` is what the file system says of
/// the path.
pub fn export_plan(policy: &Policy, payload: &Object, seen: &Resolution) -> (r: Result<ExportPlan, HandlerError>)
    ensures
        match r {
            Ok(p) => export_plan_of(*policy, fields(payload@), *seen) == Ok::<(Seq<char>, Seq<char>, usize), Fault>(
                (p.transfer_id@, p.path@, p.chunk_size),
            ) && 0 < p.chunk_size <= TRANSFER_CHUNK_BYTES,
            Err(e) => export_plan_of(*policy, fields(payload@), *seen) == Err::<(Seq<char>, Seq<char>, usize), Fault>(e@),
        },
{
    let transfer_id = match valid_transfer_id(payload) {
        Ok(s) => s,
        Err(e) => return Err(e),
    };
    let source = match require_str(payload, "source_path") {
        Ok(s) => s,
        Err(e) => return Err(e),
    };
    let chunk_size = match count_field(payload, "chunk_size") {
        Some(n) => if 0 < n && n <= TRANSFER_CHUNK_BYTES as u64 {
            n as usize
        } else {
            TRANSFER_CHUNK_BYTES
        },
        None => TRANSFER_CHUNK_BYTES,
    };
    match policy.resolve_path(source, false, seen) {
        Some(path) => Ok(ExportPlan { transfer_id, path, chunk_size }),
        None => Err(
            HandlerError::new(
                "path_not_allowed",
                &cat3("source_path ", &quoted(source), " is outside file_ops paths"),
            ),
        ),
    }
}

/// How it is told that a file cannot be looked at.
pub fn source_error(path: &str, kind: AccessFault, error: &str) -> (r: HandlerError)
    ensures
        r@ == match kind {
            AccessFault::NotFound => fault("not_found"@, "source file not found: "@ + path@),
            AccessFault::PermissionDenied => fault("permission_denied"@, "cannot stat source: "@ + path@),
            AccessFault::Other => fault("io_error"@, error@),
        },
{
    match kind {
        AccessFault::NotFound => HandlerError::new("not_found", &cat2("source file not found: ", path)),
        AccessFault::PermissionDenied => HandlerError::new("permission_denied", &cat2("cannot stat source: ", path)),
        AccessFault::Other => HandlerError::new("io_error", error),
    }
}

/// Whether a path names a file that can be sent.
pub fn check_source(path: &str, is_dir: bool, is_file: bool) -> (r: Result<(), HandlerError>)
    ensures
        match r {
            Ok(_) => !is_dir && is_file,
            Err(e) => !(!is_dir && is_file) && e@ == if is_dir {
                fault("is_directory"@, "source is a directory: "@ + path@)
            } else {
                fault("not_a_file"@, "source is not a regular file: "@ + path@)
            },
        },
{
    if is_dir {
        Err(HandlerError::new("is_directory", &cat2("source is a directory: ", path)))
    } else if !is_file {
        Err(HandlerError::new("not_a_file", &cat2("source is not a regular file: ", path)))
    } else {
        Ok(())
    }
}

/// Where the last session of this name stands, or -1.
pub open spec fn session_at(list: Seq<(String, ExportSession)>, id: Seq<char>) -> int
    decreases list.len(),
{
    if list.len() == 0 {
        -1
    } else if list.last().0@ == id {
        list.len() - 1
    } else {
        session_at(list.drop_last(), id)
    }
}

/// Files that are being sent, each under the name of its transfer.
pub struct ExportStore {
    pub sessions: Vec<(String, ExportSession)>,
}

impl ExportStore {
    pub open spec fn sound(self) -> bool {
        forall|i: int| 0 <= i < self.sessions@.len() ==> (#[trigger] self.sessions@[i]).1.sound()
    }

    /// The file that is sent under this name.
    pub open spec fn on(self, id: Seq<char>) -> Option<ExportSession> {
        let k = session_at(self.sessions@, id);
        if 0 <= k < self.sessions@.len() {
            Some(self.sessions@[k].1)
        } else {
            None
        }
    }

    pub fn new() -> (r: Self)
        ensures
            r.sound(),
            forall|k: Seq<char>| #[trigger] r.on(k) is None,
    {
        ExportStore { sessions: Vec::new() }
    }
}

/// A session that is not too old.
pub open spec fn fresh(s: ExportSession, now: Duration) -> bool {
    now.nanos - s.created_at.nanos <= SESSION_TTL
}

/// The sessions that stay at the time `now`, without those of this name.
pub open spec fn kept(list: Seq<(String, ExportSession)>, now: Duration, id: Seq<char>) -> Seq<(String, ExportSession)>
    decreases list.len(),
{
    if list.len() == 0 {
        Seq::empty()
    } else if fresh(list.last().1, now) && list.last().0@ != id {
        kept(list.drop_last(), now, id).push(list.last())
    } else {
        kept(list.drop_last(), now, id)
    }
}

proof fn lemma_session_at(list: Seq<(String, ExportSession)>, id: Seq<char>)
    ensures
        -1 <= session_at(list, id) < list.len(),
        session_at(list, id) >= 0 ==> list[session_at(list, id)].0@ == id,
    decreases list.len(),
{
    if list.len() > 0 && list.last().0@ != id {
        lemma_session_at(list.drop_last(), id);
    }
}

fn find_session(list: &Vec<(String, ExportSession)>, id: &str) -> (r: Option<usize>)
    ensures
        match r {
            Some(k) => session_at(list@, id@) == k && k < list@.len(),
            None => session_at(list@, id@) == -1,
        },
{
    let mut n: usize = list.len();
    assert(list@.take(n as int) =~= list@);
    while n > 0
        invariant
            n <= list@.len(),
            session_at(list@, id@) == session_at(list@.take(n as int), id@),
        decreases n,
    {
        assert(list@.take(n as int).drop_last() =~= list@.take(n - 1));
        assert(list@.take(n as int).last() == list@[n - 1]);
        if same(&list[n - 1].0, id) {
            return Some(n - 1);
        }
        n = n - 1;
    }
    None
}

fn keep_fresh(list: &mut Vec<(String, ExportSession)>, now: Duration, id: &str)
    ensures
        final(list)@ == kept(old(list)@, now, id@),
{
    let ghost all = list@;
    let total = list.len();
    let mut done: usize = 0;
    let mut i: usize = 0;
    assert(kept(all.take(0), now, id@) + all.skip(0) =~= all);
    while done < total
        invariant
            i <= done <= total,
            total == all.len(),
            i == kept(all.take(done as int), now, id@).len(),
            list@ == kept(all.take(done as int), now, id@) + all.skip(done as int),
        decreases total - done,
    {
        let ghost front = kept(all.take(done as int), now, id@);
        assert(all.take(done + 1).drop_last() =~= all.take(done as int));
        assert(all.take(done + 1).last() == all[done as int]);
        assert(list@[i as int] == all[done as int]);
        let young = if now.nanos >= list[i].1.created_at.nanos {
            now.nanos - list[i].1.created_at.nanos <= SESSION_TTL
        } else {
            true
        };
        if young && !same(&list[i].0, id) {
            assert(front.push(all[done as int]) + all.skip(done + 1) =~= front + all.skip(done as int));
            i = i + 1;
        } else {
            list.remove(i);
            assert(list@ =~= front + all.skip(done + 1));
        }
        done = done + 1;
    }
    assert(all.take(total as int) =~= all);
    assert(list@ =~= kept(all, now, id@));
}

proof fn lemma_kept_sound(list: Seq<(String, ExportSession)>, now: Duration, id: Seq<char>)
    requires
        forall|i: int| 0 <= i < list.len() ==> (#[trigger] list[i]).1.sound(),
    ensures
        forall|i: int| 0 <= i < kept(list, now, id).len() ==> (#[trigger] kept(list, now, id)[i]).1.sound(),
    decreases list.len(),
{
    if list.len() > 0 {
        let front = list.drop_last();
        assert forall|i: int| 0 <= i < front.len() implies (#[trigger] front[i]).1.sound() by {
            assert(list[i].1.sound());
        }
        lemma_kept_sound(front, now, id);
        let before = kept(front, now, id);
        let after = kept(list, now, id);
        assert forall|i: int| 0 <= i < after.len() implies (#[trigger] after[i]).1.sound() by {
            if i < before.len() {
                assert(before[i].1.sound());
            } else {
                assert(list[list.len() - 1].1.sound());
            }
        }
    }
}

proof fn lemma_chunks(size: u64, chunk_size: usize)
    requires
        0 < chunk_size,
    ensures
        1 <= chunks_of(size as int, chunk_size as int) <= u64::MAX,
        size > 0 ==> (chunks_of(size as int, chunk_size as int) - 1) * chunk_size < size,
        size > 0 ==> chunks_of(size as int, chunk_size as int) == (size - 1) / chunk_size as int + 1,
{
    if size > 0 {
        let s = size as int;
        let c = chunk_size as int;
        let n = chunks_of(s, c);
        vstd::arithmetic::div_mod::lemma_fundamental_div_mod(s + c - 1, c);
        vstd::arithmetic::div_mod::lemma_div_plus_one(s - 1, c);
        assert((s - 1 + c) / c == (s - 1) / c + 1);
        vstd::arithmetic::div_mod::lemma_fundamental_div_mod(s - 1, c);
        assert((n - 1) * c <= s - 1) by {
            vstd::arithmetic::mul::lemma_mul_is_commutative(n - 1, c);
        }
        vstd::arithmetic::div_mod::lemma_div_is_ordered_by_denominator(s - 1, 1, c);
        vstd::arithmetic::div_mod::lemma_div_pos_is_pos(s - 1, c);
        assert((s - 1) / 1 == s - 1);
    }
}

/// The name that is shown of a file.
pub open spec fn shown(path: Seq<char>) -> Seq<char> {
    match file_name(path) {
        Some(n) => n,
        None => "file"@,
    }
}

/// What is answered to the beginning of a transfer.
pub open spec fn init_fields(id: Seq<char>, path: Seq<char>, size: u64, chunk_size: usize) -> Fields {
    no_fields().with("transfer_id"@, Tree::Text(id)).with("filename"@, Tree::Text(shown(path))).with(
        "source_path"@,
        Tree::Text(path),
    ).with("size"@, Tree::Number(Num::Pos(size))).with("chunk_size"@, Tree::Number(Num::Pos(chunk_size as u64))).with(
        "num_chunks"@,
        Tree::Number(Num::Pos(chunks_of(size as int, chunk_size as int) as u64)),
    )
}

/// A piece of a file to read: where it begins and how long it is at most.
#[derive(Debug, PartialEq, Eq)]
pub struct ChunkRead {
    pub transfer_id: String,
    pub index: u64,
    pub path: String,
    pub offset: u64,
    pub length: usize,
    pub last: bool,
}

/// The chunk that a request asks for.
pub open spec fn index_of(payload: Fields) -> Result<u64, Fault> {
    match as_integer(get(payload, "chunk_index"@)) {
        None => Err(fault("invalid_payload"@, "chunk_index must be an int"@)),
        Some(n) => if n < 0 {
            Err(fault("invalid_payload"@, "chunk_index must be >= 0"@))
        } else {
            Ok(n as u64)
        },
    }
}

pub open spec fn no_session(id: Seq<char>) -> Fault {
    fault("not_found"@, "no export session for transfer_id "@ + id)
}

/// What is read of a file for a request, where `on` is the session of its transfer.
pub open spec fn chunk_read_of(id: Seq<char>, index: u64, on: Option<ExportSession>) -> Result<(u64, int, usize, bool), Fault> {
    match on {
        None => Err(no_session(id)),
        Some(s) => if index >= s.num_chunks {
            Err(
                fault(
                    "invalid_payload"@,
                    "chunk_index "@ + decimal(index as nat) + " out of range (num_chunks="@ + decimal(s.num_chunks as nat)
                        + ")"@,
                ),
            )
        } else {
            Ok((index, index * s.chunk_size, s.chunk_size, index + 1 >= s.num_chunks))
        },
    }
}

impl ExportStore {
    /// Begins a transfer. Those that nobody went on with are dropped.
    pub fn begin(&mut self, plan: ExportPlan, size: u64, now: Duration) -> (r: Object)
        requires
            old(self).sound(),
            0 < plan.chunk_size <= TRANSFER_CHUNK_BYTES,
        ensures
            final(self).sound(),
            fields(r@) == init_fields(plan.transfer_id@, plan.path@, size, plan.chunk_size),
            final(self).sessions@.len() > 0,
            final(self).sessions@.drop_last() == kept(old(self).sessions@, now, plan.transfer_id@),
            final(self).sessions@.last().0@ == plan.transfer_id@,
            ({
                let s = final(self).sessions@.last().1;
                &&& s.path@ == plan.path@
                &&& s.size == size
                &&& s.chunk_size == plan.chunk_size
                &&& s.filename@ == shown(plan.path@)
                &&& s.created_at == now
                &&& absorbed(s.hasher) == Seq::<u8>::empty()
                &&& s.next_index == 0
            }),
    {
        proof {
            lemma_chunks(size, plan.chunk_size);
        }
        let num_chunks: u64 = if size == 0 {
            1
        } else {
            (size - 1) / plan.chunk_size as u64 + 1
        };
        let filename = match file_name_of(&plan.path) {
            Some(n) => n,
            None => "file".to_owned(),
        };
        let mut o = no_object();
        set_field(&mut o, "transfer_id", string(&plan.transfer_id));
        set_field(&mut o, "filename", string(&filename));
        set_field(&mut o, "source_path", string(&plan.path));
        set_field(&mut o, "size", count(size));
        set_field(&mut o, "chunk_size", count(plan.chunk_size as u64));
        set_field(&mut o, "num_chunks", count(num_chunks));
        proof {
            lemma_kept_sound(self.sessions@, now, plan.transfer_id@);
        }
        keep_fresh(&mut self.sessions, now, &plan.transfer_id);
        let ghost before = self.sessions@;
        self.sessions.push(
            (
                plan.transfer_id,
                ExportSession {
                    path: plan.path,
                    size,
                    chunk_size: plan.chunk_size,
                    num_chunks,
                    filename,
                    created_at: now,
                    hasher: new_hasher(),
                    next_index: 0,
                },
            ),
        );
        assert(self.sessions@.drop_last() =~= before);
        o
    }

    /// What to read for a request.
    pub fn chunk_read(&self, payload: &Object) -> (r: Result<ChunkRead, HandlerError>)
        requires
            self.sound(),
        ensures
            ({
                let expected = match transfer_id_of(fields(payload@)) {
                    Err(f) => Err(f),
                    Ok(id) => match index_of(fields(payload@)) {
                        Err(f) => Err(f),
                        Ok(index) => chunk_read_of(id, index, self.on(id)),
                    },
                };
                match r {
                    Ok(c) => expected == Ok::<(u64, int, usize, bool), Fault>((c.index, c.offset as int, c.length, c.last))
                        && transfer_id_of(fields(payload@)) == Ok::<Seq<char>, Fault>(c.transfer_id@) && self.on(
                        c.transfer_id@,
                    ) is Some && c.path@ == self.on(c.transfer_id@)->0.path@,
                    Err(e) => expected == Err::<(u64, int, usize, bool), Fault>(e@),
                }
            }),
    {
        let id = match valid_transfer_id(payload) {
            Ok(s) => s,
            Err(e) => return Err(e),
        };
        let index = match integer_field(payload, "chunk_index") {
            Some(n) => n,
            None => return Err(HandlerError::new("invalid_payload", "chunk_index must be an int")),
        };
        if index < 0 {
            return Err(HandlerError::new("invalid_payload", "chunk_index must be >= 0"));
        }
        let index = index as u64;
        let k = match find_session(&self.sessions, &id) {
            Some(k) => k,
            None => return Err(
                HandlerError::new("not_found", &cat2("no export session for transfer_id ", &id)),
            ),
        };
        let s = &self.sessions[k].1;
        assert(self.sessions@[k as int].1.sound());
        if index >= s.num_chunks {
            return Err(
                HandlerError::new(
                    "invalid_payload",
                    &cat5(
                        "chunk_index ",
                        &decimal_text(index),
                        " out of range (num_chunks=",
                        &decimal_text(s.num_chunks),
                        ")",
                    ),
                ),
            );
        }
        proof {
            lemma_chunks(s.size, s.chunk_size);
            assert(index * s.chunk_size <= (s.num_chunks - 1) * s.chunk_size) by (nonlinear_arith)
                requires
                    0 <= index <= s.num_chunks - 1,
                    0 <= s.chunk_size,
            ;
            assert(s.size == 0 ==> index * s.chunk_size == 0) by (nonlinear_arith)
                requires
                    s.size == 0 ==> index == 0,
            ;
        }
        let offset = index * s.chunk_size as u64;
        let last = s.num_chunks - index <= 1;
        Ok(ChunkRead { transfer_id: id, index, path: s.path.clone(), offset, length: s.chunk_size, last })
    }

    /// Takes what was read for a chunk, and answers with it. The digest goes on only
    /// over chunks that come in their order.
    pub fn chunk_done(&mut self, read: &ChunkRead, data: &[u8]) -> (r: Object)
        requires
            old(self).sound(),
        ensures
            final(self).sound(),
            fields(r@) == chunk_fields(read.transfer_id@, read.index, data@, read.last),
            forall|k: Seq<char>|
                k != read.transfer_id@ ==> #[trigger] final(self).on(k) == old(self).on(k),
            match old(self).on(read.transfer_id@) {
                None => final(self).on(read.transfer_id@) is None,
                Some(s) => final(self).on(read.transfer_id@) matches Some(t) && advanced(s, t, read.index, data@),
            },
    {
        let mut o = no_object();
        set_field(&mut o, "transfer_id", string(&read.transfer_id));
        set_field(&mut o, "chunk_index", count(read.index));
        set_field(&mut o, "__binary_payload__", Json::Text(encode_base64(data)));
        set_field(&mut o, "bytes", count(data.len() as u64));
        set_field(&mut o, "eof", Json::Bool(read.last));
        if let Some(k) = find_session(&self.sessions, &read.transfer_id) {
            let ghost before = self.sessions@;
            assert(before[k as int].1.sound());
            let session = &mut self.sessions[k].1;
            if read.index == session.next_index && read.index < session.num_chunks {
                feed(&mut session.hasher, data);
                session.next_index = session.next_index + 1;
            }
            proof {
                let after = self.sessions@;
                assert(after.len() == before.len());
                assert forall|i: int| 0 <= i < after.len() implies (#[trigger] after[i]).1.sound() by {
                    assert(before[i].1.sound());
                }
                assert(after[k as int].0 == before[k as int].0);
                assert forall|id: Seq<char>| #[trigger] session_at(after, id) == session_at(before, id) by {
                    lemma_same_names(before, after, id);
                }
                lemma_session_at(before, read.transfer_id@);
                assert forall|id: Seq<char>| id != read.transfer_id@ implies #[trigger] self.on(id) == old(self).on(id) by {
                    lemma_session_at(before, id);
                    assert(session_at(after, id) == session_at(before, id));
                }
            }
        }
        o
    }
}

/// What a chunk makes of a session.
pub open spec fn advanced(s: ExportSession, t: ExportSession, index: u64, data: Seq<u8>) -> bool {
    &&& t.path == s.path
    &&& t.size == s.size
    &&& t.chunk_size == s.chunk_size
    &&& t.num_chunks == s.num_chunks
    &&& t.filename == s.filename
    &&& t.created_at == s.created_at
    &&& if index == s.next_index && index < s.num_chunks {
        t.next_index == s.next_index + 1 && absorbed(t.hasher) == absorbed(s.hasher) + data
    } else {
        t.next_index == s.next_index && t.hasher == s.hasher
    }
}

proof fn lemma_same_names(a: Seq<(String, ExportSession)>, b: Seq<(String, ExportSession)>, id: Seq<char>)
    requires
        a.len() == b.len(),
        forall|i: int| 0 <= i < a.len() ==> (#[trigger] a[i]).0@ == b[i].0@,
    ensures
        session_at(a, id) == session_at(b, id),
    decreases a.len(),
{
    if a.len() > 0 {
        assert(a[a.len() - 1].0@ == b[b.len() - 1].0@);
        assert forall|i: int| 0 <= i < a.drop_last().len() implies (#[trigger] a.drop_last()[i]).0@ == b.drop_last()[i].0@ by {
            assert(a[i].0@ == b[i].0@);
        }
        lemma_same_names(a.drop_last(), b.drop_last(), id);
    }
}

/// What is answered to the end of a transfer: the digest only where every chunk was
/// sent in order.
pub open spec fn end_fields(id: Seq<char>, s: ExportSession) -> Fields {
    let complete = s.next_index == s.num_chunks;
    no_fields().with("transfer_id"@, Tree::Text(id)).with("size"@, Tree::Number(Num::Pos(s.size))).with(
        "chunks_read"@,
        Tree::Number(Num::Pos(s.next_index)),
    ).with("num_chunks"@, Tree::Number(Num::Pos(s.num_chunks))).with(
        "sha256"@,
        if complete {
            Tree::Text(hex(sha256(absorbed(s.hasher))))
        } else {
            Tree::Null
        },
    ).with("sha256_complete"@, Tree::Bool(complete)).with("filename"@, Tree::Text(s.filename@))
}

pub open spec fn removed(list: Seq<(String, ExportSession)>, id: Seq<char>) -> Seq<(String, ExportSession)> {
    let k = session_at(list, id);
    if 0 <= k < list.len() {
        list.remove(k)
    } else {
        list
    }
}

impl ExportStore {
    /// Ends a transfer.
    pub fn end(&mut self, payload: &Object) -> (r: HandlerResult)
        requires
            old(self).sound(),
        ensures
            final(self).sound(),
            match transfer_id_of(fields(payload@)) {
                Err(f) => outcome(r) == Err::<Fields, Fault>(f) && final(self).sessions@ == old(self).sessions@,
                Ok(id) => final(self).sessions@ == removed(old(self).sessions@, id) && match old(self).on(id) {
                    None => outcome(r) == Err::<Fields, Fault>(no_session(id)),
                    Some(s) => outcome(r) == Ok::<Fields, Fault>(end_fields(id, s)),
                },
            },
    {
        let id = match valid_transfer_id(payload) {
            Ok(s) => s,
            Err(e) => return Err(e),
        };
        let k = match find_session(&self.sessions, &id) {
            Some(k) => k,
            None => return Err(
                HandlerError::new("not_found", &cat2("no export session for transfer_id ", &id)),
            ),
        };
        let ghost before = self.sessions@;
        let (_, s) = self.sessions.remove(k);
        proof {
            let after = self.sessions@;
            assert forall|i: int| 0 <= i < after.len() implies (#[trigger] after[i]).1.sound() by {
                let j = if i < k {
                    i
                } else {
                    i + 1
                };
                assert(before[j].1.sound());
                assert(after[i] == before[j]);
            }
        }
        let complete = s.next_index == s.num_chunks;
        let digest = if complete {
            Json::Text(hex_digest(&s.hasher))
        } else {
            Json::Null
        };
        let mut o = no_object();
        set_field(&mut o, "transfer_id", string(&id));
        set_field(&mut o, "size", count(s.size));
        set_field(&mut o, "chunks_read", count(s.next_index));
        set_field(&mut o, "num_chunks", count(s.num_chunks));
        set_field(&mut o, "sha256", digest);
        set_field(&mut o, "sha256_complete", Json::Bool(complete));
        set_field(&mut o, "filename", string(&s.filename));
        Ok(o)
    }
}

/// Pieces put together.
pub open spec fn together(pieces: Seq<Seq<u8>>) -> Seq<u8>
    decreases pieces.len(),
{
    if pieces.len() == 0 {
        Seq::empty()
    } else {
        together(pieces.drop_last()) + pieces.last()
    }
}

proof fn lemma_in_order(sessions: Seq<ExportSession>, pieces: Seq<Seq<u8>>, n: int)
    requires
        0 <= n <= pieces.len(),
        sessions.len() == pieces.len() + 1,
        pieces.len() <= sessions[0].num_chunks,
        sessions[0].next_index == 0,
        absorbed(sessions[0].hasher) == Seq::<u8>::empty(),
        forall|i: int| 0 <= i < pieces.len() ==> advanced(#[trigger] sessions[i], sessions[i + 1], i as u64, pieces[i]),
    ensures
        sessions[n].next_index == n,
        sessions[n].num_chunks == sessions[0].num_chunks,
        absorbed(sessions[n].hasher) == together(pieces.take(n)),
    decreases n,
{
    if n > 0 {
        lemma_in_order(sessions, pieces, n - 1);
        assert(advanced(sessions[n - 1], sessions[n - 1 + 1], (n - 1) as u64, pieces[n - 1]));
        assert(pieces.take(n).drop_last() =~= pieces.take(n - 1));
        assert(pieces.take(n).last() == pieces[n - 1]);
    } else {
        assert(pieces.take(0) =~= Seq::empty());
    }
}

/// A transfer whose chunks are all asked for in order ends with the digest of all
/// that was sent.
pub proof fn ordered_transfer_is_digested(sessions: Seq<ExportSession>, pieces: Seq<Seq<u8>>, id: Seq<char>)
    requires
        sessions.len() == pieces.len() + 1,
        pieces.len() == sessions[0].num_chunks,
        sessions[0].next_index == 0,
        absorbed(sessions[0].hasher) == Seq::<u8>::empty(),
        forall|i: int| 0 <= i < pieces.len() ==> advanced(#[trigger] sessions[i], sessions[i + 1], i as u64, pieces[i]),
    ensures
        get(end_fields(id, sessions.last()), "sha256"@) == Some(Tree::Text(hex(sha256(together(pieces))))),
        get(end_fields(id, sessions.last()), "sha256_complete"@) == Some(Tree::Bool(true)),
{
    broadcast use crate::json::lemma_get_put;

    let n = pieces.len() as int;
    lemma_in_order(sessions, pieces, n);
    assert(pieces.take(n) =~= pieces);
    reveal_strlit("sha256");
    reveal_strlit("sha256_complete");
    reveal_strlit("filename");
    assert("sha256"@.len() == 6 && "sha256_complete"@.len() == 15 && "filename"@.len() == 8);
}

/// The chunks of a file cover it: every byte lies in exactly one of them, and none
/// but the chunk of an empty file is empty.
pub proof fn chunks_cover_the_file(size: u64, chunk_size: usize, at: int)
    requires
        0 < chunk_size,
        0 <= at < size,
    ensures
        0 <= at / (chunk_size as int) < chunks_of(size as int, chunk_size as int),
        (at / (chunk_size as int)) * chunk_size <= at < (at / (chunk_size as int) + 1) * chunk_size,
        (chunks_of(size as int, chunk_size as int) - 1) * chunk_size < size <= chunks_of(size as int, chunk_size as int)
            * chunk_size,
{
    let s = size as int;
    let c = chunk_size as int;
    let n = chunks_of(s, c);
    lemma_chunks(size, chunk_size);
    vstd::arithmetic::div_mod::lemma_fundamental_div_mod(at, c);
    vstd::arithmetic::div_mod::lemma_fundamental_div_mod(s - 1, c);
    vstd::arithmetic::div_mod::lemma_div_is_ordered(at, s - 1, c);
    vstd::arithmetic::div_mod::lemma_div_pos_is_pos(at, c);
    assert((at / c) * c == c * (at / c)) by (nonlinear_arith);
    assert((at / c + 1) * c == c * (at / c) + c) by (nonlinear_arith);
    assert(n * c == c * ((s - 1) / c) + c) by (nonlinear_arith)
        requires
            n == (s - 1) / c + 1,
    ;
}

/// What is answered to a request for a chunk.
pub open spec fn chunk_fields(id: Seq<char>, index: u64, data: Seq<u8>, last: bool) -> Fields {
    no_fields().with("transfer_id"@, Tree::Text(id)).with("chunk_index"@, Tree::Number(Num::Pos(index))).with(
        "__binary_payload__"@,
        Tree::Text(base64_text(data)),
    ).with("bytes"@, Tree::Number(Num::Pos(data.len() as u64))).with("eof"@, Tree::Bool(last))
}

/// What is answered to a request for a chunk holds the chunk, and says whether it is the
/// last; what is answered to the beginning of a transfer holds the size of the file and of
/// its chunks.
pub proof fn transfers_are_told(id: Seq<char>, index: u64, data: Seq<u8>, last: bool, path: Seq<char>, size: u64, chunk: usize)
    ensures
        get(chunk_fields(id, index, data, last), "transfer_id"@) == Some(Tree::Text(id)),
        get(chunk_fields(id, index, data, last), "chunk_index"@) == Some(Tree::Number(Num::Pos(index))),
        get(chunk_fields(id, index, data, last), "__binary_payload__"@) == Some(Tree::Text(base64_text(data))),
        get(chunk_fields(id, index, data, last), "bytes"@) == Some(Tree::Number(Num::Pos(data.len() as u64))),
        get(chunk_fields(id, index, data, last), "eof"@) == Some(Tree::Bool(last)),
        get(init_fields(id, path, size, chunk), "transfer_id"@) == Some(Tree::Text(id)),
        get(init_fields(id, path, size, chunk), "source_path"@) == Some(Tree::Text(path)),
        get(init_fields(id, path, size, chunk), "size"@) == Some(Tree::Number(Num::Pos(size))),
        get(init_fields(id, path, size, chunk), "chunk_size"@) == Some(Tree::Number(Num::Pos(chunk as u64))),
        get(init_fields(id, path, size, chunk), "num_chunks"@) == Some(
            Tree::Number(Num::Pos(chunks_of(size as int, chunk as int) as u64)),
        ),
        file_name(path) matches Some(n) ==> get(init_fields(id, path, size, chunk), "filename"@) == Some(Tree::Text(n)),
{
    broadcast use lemma_get_put;

    reveal_strlit("transfer_id");
    reveal_strlit("chunk_index");
    reveal_strlit("__binary_payload__");
    reveal_strlit("bytes");
    reveal_strlit("eof");
    reveal_strlit("filename");
    reveal_strlit("source_path");
    reveal_strlit("size");
    reveal_strlit("chunk_size");
    reveal_strlit("num_chunks");
    assert("transfer_id"@.len() == 11 && "chunk_index"@.len() == 11 && "__binary_payload__"@.len() == 18
        && "bytes"@.len() == 5 && "eof"@.len() == 3 && "filename"@.len() == 8 && "source_path"@.len() == 11
        && "size"@.len() == 4 && "chunk_size"@.len() == 10 && "num_chunks"@.len() == 10 && "transfer_id"@[0] == 't'
        && "chunk_index"@[0] == 'c' && "source_path"@[0] == 's' && "chunk_size"@[0] == 'c' && "num_chunks"@[0] == 'n');
}

/// A chunk is read from where it lies in the file, and the last is told as such; one that
/// does not exist is refused.
pub proof fn chunks_are_read_in_place(id: Seq<char>, index: u64, s: ExportSession)
    ensures
        index < s.num_chunks ==> chunk_read_of(id, index, Some(s)) == Ok::<(u64, int, usize, bool), Fault>(
            (index, index * s.chunk_size, s.chunk_size, index == s.num_chunks - 1),
        ),
        index >= s.num_chunks ==> chunk_read_of(id, index, Some(s)) is Err,
        chunk_read_of(id, index, None) matches Err(f) && f.code == "not_found"@,
{
}

/// A transfer is of the file, and in chunks of the size, that were asked for, where the
/// policy lets the file be read.
pub proof fn transfers_are_as_asked_for(policy: Policy, payload: Fields, seen: Resolution)
    ensures
        export_plan_of(policy, payload, seen) matches Ok((id, path, chunk)) ==> {
            &&& get(payload, "transfer_id"@) matches Some(Tree::Text(given)) && lowered(given) == id && bytes_of(given).len()
                == 32
            &&& get(payload, "source_path"@) matches Some(Tree::Text(source)) && resolved(policy, source, false, seen) == Some(
                path,
            )
            &&& 0 < chunk <= TRANSFER_CHUNK_BYTES
            &&& (get(payload, "chunk_size"@) matches Some(Tree::Number(Num::Pos(n))) && 0 < n <= TRANSFER_CHUNK_BYTES)
                ==> chunk == get(payload, "chunk_size"@)->0->Number_0->Pos_0
        },
{
}

/// A transfer that ends early has no digest; what it tells of itself is what it was begun
/// with.
pub proof fn ended_transfers_are_told(id: Seq<char>, s: ExportSession)
    ensures
        get(end_fields(id, s), "transfer_id"@) == Some(Tree::Text(id)),
        get(end_fields(id, s), "size"@) == Some(Tree::Number(Num::Pos(s.size))),
        get(end_fields(id, s), "chunks_read"@) == Some(Tree::Number(Num::Pos(s.next_index))),
        get(end_fields(id, s), "num_chunks"@) == Some(Tree::Number(Num::Pos(s.num_chunks))),
        get(end_fields(id, s), "filename"@) == Some(Tree::Text(s.filename@)),
        s.next_index != s.num_chunks ==> get(end_fields(id, s), "sha256"@) == Some(Tree::Null) && get(
            end_fields(id, s),
            "sha256_complete"@,
        ) == Some(Tree::Bool(false)),
        s.next_index == s.num_chunks ==> get(end_fields(id, s), "sha256"@) == Some(
            Tree::Text(hex(sha256(absorbed(s.hasher)))),
        ) && get(end_fields(id, s), "sha256_complete"@) == Some(Tree::Bool(true)),
{
    broadcast use lemma_get_put;

    reveal_strlit("transfer_id");
    reveal_strlit("size");
    reveal_strlit("chunks_read");
    reveal_strlit("num_chunks");
    reveal_strlit("sha256");
    reveal_strlit("sha256_complete");
    reveal_strlit("filename");
    assert("transfer_id"@.len() == 11 && "size"@.len() == 4 && "chunks_read"@.len() == 11 && "num_chunks"@.len() == 10
        && "sha256"@.len() == 6 && "sha256_complete"@.len() == 15 && "filename"@.len() == 8
        && "transfer_id"@[0] == 't' && "chunks_read"@[0] == 'c');
}

/// A chunk counts towards a transfer only where it is the next one.
pub proof fn only_the_next_chunk_counts(s: ExportSession, t: ExportSession, index: u64, data: Seq<u8>)
    requires
        advanced(s, t, index, data),
        s.next_index <= s.num_chunks,
    ensures
        index != s.next_index ==> t.next_index == s.next_index && absorbed(t.hasher) == absorbed(s.hasher),
        index == s.next_index && index < s.num_chunks ==> t.next_index == s.next_index + 1 && absorbed(t.hasher) == absorbed(
            s.hasher,
        ) + data,
        t.num_chunks == s.num_chunks && t.size == s.size && t.path == s.path && t.chunk_size == s.chunk_size,
{
}

/// Transfers that nobody goes on with for an hour are dropped, and with a new one an older
/// one of the same name; the others stay.
pub proof fn stale_transfers_are_dropped(
    list: Seq<(String, ExportSession)>,
    now: Duration,
    id: Seq<char>,
    x: (String, ExportSession),
)
    ensures
        kept(list, now, id).contains(x) <==> list.contains(x) && x.0@ != id && now.nanos - x.1.created_at.nanos
            <= 3_600_000_000_000,
    decreases list.len(),
{
    if list.len() > 0 {
        let front = list.drop_last();
        stale_transfers_are_dropped(front, now, id, x);
        let all = kept(list, now, id);
        let some = kept(front, now, id);
        if all.contains(x) {
            let i = choose|i: int| 0 <= i < all.len() && all[i] == x;
            if i < some.len() {
                assert(some[i] == x);
                let j = choose|j: int| 0 <= j < front.len() && front[j] == x;
                assert(list[j] == x);
            } else {
                assert(list[list.len() - 1] == x);
            }
        }
        if list.contains(x) && x.0@ != id && fresh(x.1, now) {
            let j = choose|j: int| 0 <= j < list.len() && list[j] == x;
            if j < front.len() {
                assert(front[j] == x);
                let i = choose|i: int| 0 <= i < some.len() && some[i] == x;
                assert(all[i] == x);
            } else {
                assert(all[all.len() - 1] == x);
            }
        }
    }
}

/// A transfer is found by its name, and after it ended it is not.
pub proof fn ended_transfers_are_gone(list: Seq<(String, ExportSession)>, id: Seq<char>)
    ensures
        session_at(list, id) >= 0 ==> session_at(list, id) < list.len() && list[session_at(list, id)].0@ == id && removed(list, id)
            == list.remove(session_at(list, id)),
        session_at(list, id) < 0 ==> removed(list, id) == list && forall|i: int|
            0 <= i < list.len() ==> (#[trigger] list[i]).0@ != id,
    decreases list.len(),
{
    if list.len() > 0 && list.last().0@ != id {
        ended_transfers_are_gone(list.drop_last(), id);
        assert(forall|i: int| 0 <= i < list.len() - 1 ==> list.drop_last()[i] == #[trigger] list[i]);
    }
}

} // verus!
