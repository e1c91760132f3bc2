//! An HTTP reply, read line by line and block by block as its own headers demand.

use crate::ascii::{clipped, lowered, same_ignoring_case, take_chars};
use crate::digits::{
    decimal, decimal_is_read_back, decimal_text, digit_value, lemma_parsed, numeral, numerals_are_read_back, opt_int,
    parse_radix, parsed,
};
use crate::handler_error::{fault, Fault, HandlerError};
use crate::json::{Json, Tree};
use crate::text::{
    cat2, cat4, debug_text, from_utf8, from_utf8_lossy, lemma_first_index, lemma_first_index_is, lemma_trim_end_from,
    lemma_trim_start_from, lemma_word_end_is, lemma_words_skip, lines, lossy_text, once, pieces, quoted, rows, split,
    split_once, split_words, trim, trimmed, views, white, words,
};
use crate::wire::{parsed_json, read_json};
use vstd::prelude::*;

verus! {

/// The longest reply that is taken, in bytes.
pub const MAX_RESPONSE_BYTES: usize = 8_388_608;

/// The longest headers that are taken, in bytes.
pub const MAX_HEADER_BYTES: usize = 131_072;

/// How much of an error's body is repeated, in characters.
pub const ERROR_EXCERPT: usize = 200;

/// What is being read.
#[derive(Debug, Clone, Copy, PartialEq, Eq, Structural)]
pub enum Phase {
    Header,
    /// The line with the size of the next chunk.
    ChunkSize,
    /// A chunk of this size.
    Chunk(usize),
    /// The line break behind a chunk.
    ChunkEnd,
    /// The line behind the last chunk.
    Trailer,
    /// The body, of this size.
    Body(usize),
}

/// A reply as far as it was read.
pub struct HttpReader {
    pub phase: Phase,
    pub header: Vec<u8>,
    pub status: u16,
    pub body: Vec<u8>,
}

/// What comes next.
pub enum HttpNext {
    /// Read on, up to a line break or so many bytes.
    Read(HttpReader),
    Done(Result<Json, HandlerError>),
}

/// What to read for a phase: a line, or so many bytes.
pub open spec fn wanted(p: Phase) -> Option<usize> {
    match p {
        Phase::Header | Phase::ChunkSize | Phase::Trailer => None,
        Phase::Chunk(n) => Some(n),
        Phase::ChunkEnd => Some(2),
        Phase::Body(n) => Some(n),
    }
}

/// A reply as far as it was read.
pub struct Reply {
    pub phase: Phase,
    pub header: Seq<u8>,
    pub status: u16,
    pub body: Seq<u8>,
}

impl View for HttpReader {
    type V = Reply;

    open spec fn view(&self) -> Reply {
        Reply { phase: self.phase, header: self.header@, status: self.status, body: self.body@ }
    }
}

pub enum Step {
    Read(Reply),
    Done(Result<Tree, Fault>),
}

pub open spec fn step_of(n: HttpNext) -> Step {
    match n {
        HttpNext::Read(r) => Step::Read(r@),
        HttpNext::Done(Ok(v)) => Step::Done(Ok(v@)),
        HttpNext::Done(Err(e)) => Step::Done(Err(e@)),
    }
}

pub open spec fn bad(message: Seq<char>) -> Step {
    Step::Done(Err(fault("bad_response"@, message)))
}

pub open spec fn too_large(message: Seq<char>) -> Step {
    Step::Done(Err(fault("too_large"@, message)))
}

pub open spec fn ends_in(b: Seq<u8>, end: Seq<u8>) -> bool {
    b.len() >= end.len() && b.skip(b.len() - end.len()) == end
}

/// Headers are complete at an empty line.
pub open spec fn complete(header: Seq<u8>) -> bool {
    ends_in(header, seq![13u8, 10u8, 13u8, 10u8]) || ends_in(header, seq![10u8, 10u8])
}

/// The status in the first line of the headers.
pub open spec fn status_of(line: Seq<char>) -> Option<int> {
    if words(line).len() > 1 {
        parsed(words(line)[1], 10, u16::MAX as int)
    } else {
        None
    }
}

/// The length that the headers give, by the last header of that name up to the
/// `n`-th line.
pub open spec fn length_of(lines: Seq<Seq<char>>, n: int) -> Option<int>
    decreases n,
{
    if n <= 1 || n > lines.len() {
        None
    } else {
        match once(lines[n - 1], ':') {
            Some((name, value)) => if lowered(name) == lowered("content-length"@) {
                parsed(trimmed(value), 10, usize::MAX as int)
            } else {
                length_of(lines, n - 1)
            },
            None => length_of(lines, n - 1),
        }
    }
}

/// Whether a line says that the body comes in chunks.
pub open spec fn says_chunked(line: Seq<char>) -> bool {
    match once(line, ':') {
        Some((name, value)) => lowered(name) == lowered("transfer-encoding"@) && lowered(trimmed(value)) == lowered(
            "chunked"@,
        ),
        None => false,
    }
}

pub open spec fn is_chunked(lines: Seq<Seq<char>>) -> bool {
    exists|i: int| 1 <= i < lines.len() && says_chunked(#[trigger] lines[i])
}

/// What follows complete headers.
pub open spec fn after_header(header: Seq<u8>) -> Step {
    let lines = rows(lossy_text(header));
    let first = if lines.len() > 0 {
        lines[0]
    } else {
        ""@
    };
    match status_of(first) {
        None => bad("unparseable HTTP status: "@ + debug_text(first)),
        Some(status) => if is_chunked(lines) {
            Step::Read(Reply { phase: Phase::ChunkSize, header, status: status as u16, body: Seq::empty() })
        } else {
            let length = match length_of(lines, lines.len() as int) {
                Some(n) => n,
                None => 0,
            };
            if length > MAX_RESPONSE_BYTES {
                too_large("endpoint response exceeded the cap"@)
            } else if length == 0 {
                Step::Done(finished(status as u16, Seq::empty()))
            } else {
                Step::Read(
                    Reply { phase: Phase::Body(length as usize), header, status: status as u16, body: Seq::empty() },
                )
            }
        },
    }
}

/// What a complete reply gives.
pub open spec fn finished(status: u16, body: Seq<u8>) -> Result<Tree, Fault> {
    if status >= 400 {
        Err(
            fault(
                "endpoint_error"@,
                "endpoint answered HTTP "@ + decimal(status as nat) + ": "@ + clipped(
                    lossy_text(body),
                    ERROR_EXCERPT as int,
                ),
            ),
        )
    } else if body.len() == 0 {
        Ok(Tree::Null)
    } else {
        match parsed_json(body) {
            Ok(t) => Ok(t),
            Err(_) => Err(fault("bad_response"@, "endpoint did not return JSON"@)),
        }
    }
}

/// The size in the line before a chunk.
pub open spec fn chunk_size(line: Seq<u8>) -> Result<int, Seq<char>> {
    if !vstd::utf8::valid_utf8(line) {
        Err("stream did not contain valid UTF-8"@)
    } else {
        match parsed(pieces(trimmed(vstd::utf8::decode_utf8(line)), ';')[0], 16, usize::MAX as int) {
            Some(n) => Ok(n),
            None => Err("invalid chunk size"@),
        }
    }
}

/// What follows when `input` was read, or could not be.
pub open spec fn http_step(r: Reply, input: Result<Seq<u8>, Seq<char>>) -> Step {
    match (r.phase, input) {
        (Phase::Trailer, _) => Step::Done(finished(r.status, r.body)),
        (_, Err(e)) => bad(e),
        (Phase::Header, Ok(line)) => if line.len() == 0 {
            bad("endpoint closed before HTTP headers completed"@)
        } else {
            let header = r.header + line;
            if complete(header) {
                after_header(header)
            } else if header.len() > MAX_HEADER_BYTES {
                too_large("HTTP headers exceeded cap"@)
            } else {
                Step::Read(Reply { phase: Phase::Header, header, status: r.status, body: r.body })
            }
        },
        (Phase::ChunkSize, Ok(line)) => match chunk_size(line) {
            Err(e) => bad(e),
            Ok(n) => if n == 0 {
                Step::Read(Reply { phase: Phase::Trailer, ..r })
            } else if r.body.len() + n > MAX_RESPONSE_BYTES {
                too_large("endpoint response exceeded the cap"@)
            } else {
                Step::Read(Reply { phase: Phase::Chunk(n as usize), ..r })
            },
        },
        (Phase::Chunk(_), Ok(bytes)) => Step::Read(Reply { phase: Phase::ChunkEnd, body: r.body + bytes, ..r }),
        (Phase::ChunkEnd, Ok(_)) => Step::Read(Reply { phase: Phase::ChunkSize, ..r }),
        (Phase::Body(_), Ok(bytes)) => Step::Done(finished(r.status, r.body + bytes)),
    }
}

fn ends_with_bytes(b: &Vec<u8>, end: &Vec<u8>) -> (r: bool)
    ensures
        r == ends_in(b@, end@),
{
    if b.len() < end.len() {
        return false;
    }
    let at = b.len() - end.len();
    let mut i: usize = 0;
    while i < end.len()
        invariant
            i <= end@.len(),
            at + end@.len() == b@.len(),
            b@.len() <= usize::MAX,
            forall|j: int| 0 <= j < i ==> b@[at + j] == #[trigger] end@[j],
        decreases end@.len() - i,
    {
        assert(at + i < b@.len());
        if b[at + i] != end[i] {
            assert(b@.skip(at as int)[i as int] != end@[i as int]);
            return false;
        }
        i = i + 1;
    }
    assert(b@.skip(at as int) =~= end@);
    true
}

fn is_complete(header: &Vec<u8>) -> (r: bool)
    ensures
        r == complete(header@),
{
    let a: Vec<u8> = vec![13, 10, 13, 10];
    let b: Vec<u8> = vec![10, 10];
    assert(a@ =~= seq![13u8, 10u8, 13u8, 10u8]);
    assert(b@ =~= seq![10u8, 10u8]);
    ends_with_bytes(header, &a) || ends_with_bytes(header, &b)
}

fn finish(status: u16, body: &Vec<u8>) -> (r: HttpNext)
    ensures
        step_of(r) == Step::Done(finished(status, body@)),
{
    if status >= 400 {
        return HttpNext::Done(
            Err(
                HandlerError::new(
                    "endpoint_error",
                    &cat4(
                        "endpoint answered HTTP ",
                        &decimal_text(status as u64),
                        ": ",
                        &take_chars(&from_utf8_lossy(body.as_slice()), ERROR_EXCERPT),
                    ),
                ),
            ),
        );
    }
    if body.len() == 0 {
        return HttpNext::Done(Ok(Json::Null));
    }
    match read_json(body.as_slice()) {
        Ok(v) => HttpNext::Done(Ok(v)),
        Err(_) => HttpNext::Done(Err(HandlerError::new("bad_response", "endpoint did not return JSON"))),
    }
}

fn failed(code: &str, message: &str) -> (r: HttpNext)
    ensures
        step_of(r) == Step::Done(Err(fault(code@, message@))),
{
    HttpNext::Done(Err(HandlerError::new(code, message)))
}

fn begin_body(header: Vec<u8>) -> (r: HttpNext)
    ensures
        step_of(r) == after_header(header@),
{
    let all = lines(&from_utf8_lossy(header.as_slice()));
    let ghost ls = views(all@);
    let first = if all.len() > 0 {
        assert(ls[0] == all@[0]@);
        all[0].clone()
    } else {
        "".to_owned()
    };
    let w = split_words(&first);
    let status = if w.len() > 1 {
        assert(w@[1]@ == words(first@)[1]);
        parse_radix(&w[1], 10, 65535)
    } else {
        None
    };
    let status = match status {
        Some(s) => s as u16,
        None => return failed("bad_response", &cat2("unparseable HTTP status: ", &quoted(&first))),
    };
    let mut length: Option<u64> = None;
    let mut chunked = false;
    let mut i: usize = 1;
    while i < all.len()
        invariant
            1 <= i,
            i <= all@.len() || all@.len() == 0 || i == 1,
            ls == views(all@),
            opt_int(length) == length_of(
                ls,
                if i <= ls.len() {
                    i as int
                } else {
                    ls.len() as int
                },
            ),
            chunked == exists|j: int| 1 <= j < i && j < ls.len() && says_chunked(#[trigger] ls[j]),
        decreases all@.len() - i,
    {
        assert(ls[i as int] == all@[i as int]@);
        if let Some((name, value)) = split_once(&all[i], ':') {
            if same_ignoring_case(&name, "content-length") {
                length = parse_radix(&trim(&value), 10, usize::MAX as u64);
            }
            if same_ignoring_case(&name, "transfer-encoding") && same_ignoring_case(&trim(&value), "chunked") {
                assert(says_chunked(ls[i as int]));
                chunked = true;
            }
        }
        i = i + 1;
    }
    assert(chunked == is_chunked(ls));
    if chunked {
        return HttpNext::Read(HttpReader { phase: Phase::ChunkSize, header, status, body: Vec::new() });
    }
    let wanted: u64 = match length {
        Some(n) => n,
        None => 0,
    };
    if wanted > MAX_RESPONSE_BYTES as u64 {
        return failed("too_large", "endpoint response exceeded the cap");
    }
    let empty: Vec<u8> = Vec::new();
    if wanted == 0 {
        return finish(status, &empty);
    }
    HttpNext::Read(HttpReader { phase: Phase::Body(wanted as usize), header, status, body: empty })
}

impl HttpReader {
    /// Nothing was read yet.
    pub fn start() -> (r: Self)
        ensures
            r@ == (Reply { phase: Phase::Header, header: Seq::empty(), status: 0, body: Seq::empty() }),
    {
        HttpReader { phase: Phase::Header, header: Vec::new(), status: 0, body: Vec::new() }
    }

    /// How many bytes to read next; a line where there is no number.
    pub fn wants(&self) -> (r: Option<usize>)
        ensures
            r == wanted(self.phase),
    {
        match self.phase {
            Phase::Header | Phase::ChunkSize | Phase::Trailer => None,
            Phase::Chunk(n) => Some(n),
            Phase::ChunkEnd => Some(2),
            Phase::Body(n) => Some(n),
        }
    }

    /// Takes in what was read: a line with its break, or as many bytes as were
    /// asked for; or why nothing was.
    pub fn take(self, input: Result<Vec<u8>, String>) -> (r: HttpNext)
        ensures
            step_of(r) == http_step(
                self@,
                match input {
                    Ok(b) => Ok(b@),
                    Err(e) => Err(e@),
                },
            ),
    {
        match self.phase {
            Phase::Trailer => {
                return finish(self.status, &self.body);
            },
            _ => {},
        }
        let bytes = match input {
            Ok(b) => b,
            Err(e) => return failed("bad_response", &e),
        };
        match self.phase {
            Phase::Header => {
                if bytes.len() == 0 {
                    return failed("bad_response", "endpoint closed before HTTP headers completed");
                }
                let mut header = self.header;
                header.extend_from_slice(bytes.as_slice());
                assert(header@ =~= self.header@ + bytes@);
                if is_complete(&header) {
                    return begin_body(header);
                }
                if header.len() > MAX_HEADER_BYTES {
                    return failed("too_large", "HTTP headers exceeded cap");
                }
                HttpNext::Read(HttpReader { phase: Phase::Header, header, status: self.status, body: self.body })
            },
            Phase::ChunkSize => {
                let line = match from_utf8(bytes.as_slice()) {
                    Ok(line) => line,
                    Err(_) => return failed("bad_response", "stream did not contain valid UTF-8"),
                };
                let parts = split(&trim(&line), ';');
                assert(parts@[0]@ == views(parts@)[0]);
                match parse_radix(&parts[0], 16, usize::MAX as u64) {
                    None => failed("bad_response", "invalid chunk size"),
                    Some(n) => if n == 0 {
                        HttpNext::Read(
                            HttpReader { phase: Phase::Trailer, header: self.header, status: self.status, body: self.body },
                        )
                    } else if self.body.len() > MAX_RESPONSE_BYTES || n > (MAX_RESPONSE_BYTES - self.body.len()) as u64 {
                        failed("too_large", "endpoint response exceeded the cap")
                    } else {
                        HttpNext::Read(
                            HttpReader {
                                phase: Phase::Chunk(n as usize),
                                header: self.header,
                                status: self.status,
                                body: self.body,
                            },
                        )
                    },
                }
            },
            Phase::Chunk(_) => {
                let mut body = self.body;
                body.extend_from_slice(bytes.as_slice());
                assert(body@ =~= self.body@ + bytes@);
                HttpNext::Read(HttpReader { phase: Phase::ChunkEnd, header: self.header, status: self.status, body })
            },
            Phase::ChunkEnd => HttpNext::Read(
                HttpReader { phase: Phase::ChunkSize, header: self.header, status: self.status, body: self.body },
            ),
            Phase::Trailer => finish(self.status, &self.body),
            Phase::Body(_) => {
                let mut body = self.body;
                body.extend_from_slice(bytes.as_slice());
                assert(body@ =~= self.body@ + bytes@);
                finish(self.status, &body)
            },
        }
    }
}

proof fn lemma_length(lines: Seq<Seq<char>>, n: int)
    ensures
        length_of(lines, n) matches Some(v) ==> 0 <= v <= usize::MAX,
    decreases n,
{
    if 1 < n <= lines.len() {
        lemma_length(lines, n - 1);
        if let Some((name, value)) = once(lines[n - 1], ':') {
            lemma_parsed(trimmed(value), 10, usize::MAX as int);
        }
    }
}

/// However a reply comes, its body never grows beyond the cap: what is asked for
/// fits behind what is there.
pub proof fn reply_stays_within_the_cap(r: Reply, input: Result<Seq<u8>, Seq<char>>)
    requires
        r.body.len() <= MAX_RESPONSE_BYTES,
        r.phase matches Phase::Chunk(n) ==> r.body.len() + n <= MAX_RESPONSE_BYTES,
        input matches Ok(b) && wanted(r.phase) matches Some(n) ==> b.len() == n,
    ensures
        http_step(r, input) matches Step::Read(s) ==> s.body.len() <= MAX_RESPONSE_BYTES && (s.phase matches Phase::Chunk(n)
            ==> s.body.len() + n <= MAX_RESPONSE_BYTES) && (s.phase matches Phase::Body(n) ==> n <= MAX_RESPONSE_BYTES),
{
    if let Ok(b) = input {
        let lines = rows(lossy_text(r.header + b));
        lemma_length(lines, lines.len() as int);
        lemma_parsed(pieces(trimmed(vstd::utf8::decode_utf8(b)), ';')[0], 16, usize::MAX as int);
    }
}

/// An answer with a status of 400 or more is an error, with its status; another is the value
/// that its body holds.
pub proof fn statuses_are_told(status: u16, body: Seq<u8>)
    ensures
        status >= 400 ==> (finished(status, body) matches Err(f) && f.code == "endpoint_error"@ && f.message
            == "endpoint answered HTTP "@ + decimal(status as nat) + ": "@ + (if lossy_text(body).len() <= 200 {
            lossy_text(body)
        } else {
            lossy_text(body).take(200)
        })),
        status < 400 && body.len() > 0 ==> (parsed_json(body) matches Ok(t) ==> finished(status, body) == Ok::<Tree, Fault>(t)),
        status < 400 && body.len() > 0 && parsed_json(body) is Err ==> (finished(status, body) matches Err(f) && f.code
            == "bad_response"@),
        status < 400 && body.len() == 0 ==> finished(status, body) == Ok::<Tree, Fault>(Tree::Null),
{
}

/// The body is made of the chunks in the order in which they come, and nothing else.
pub proof fn chunks_are_put_together(header: Seq<u8>, status: u16, body: Seq<u8>, n: usize, bytes: Seq<u8>, line_break: Seq<u8>)
    ensures
        http_step(Reply { phase: Phase::Chunk(n), header, status, body }, Ok(bytes)) == Step::Read(
            Reply { phase: Phase::ChunkEnd, header, status, body: body + bytes },
        ),
        http_step(Reply { phase: Phase::ChunkEnd, header, status, body }, Ok(line_break)) == Step::Read(
            Reply { phase: Phase::ChunkSize, header, status, body },
        ),
        http_step(Reply { phase: Phase::Trailer, header, status, body }, Ok(line_break)) == Step::Done(finished(status, body)),
        wanted(Phase::Chunk(n)) == Some(n),
        wanted(Phase::Body(n)) == Some(n),
        wanted(Phase::ChunkEnd) == Some(2usize),
        body.len() == 0 ==> http_step(Reply { phase: Phase::Body(n), header, status, body }, Ok(bytes)) == Step::Done(
            finished(status, bytes),
        ),
{
    if body.len() == 0 {
        assert(body + bytes =~= bytes);
    }
}

/// The size of a chunk is read to the base of sixteen; the last one is empty, and one that
/// is too large is refused.
pub proof fn chunk_sizes_are_read(r: Reply, n: u32, line: Seq<u8>)
    requires
        r.phase is ChunkSize,
        vstd::utf8::valid_utf8(line),
        vstd::utf8::decode_utf8(line) == numeral(n as nat, 16) + seq!['\r', '\n'],
        r.body.len() <= MAX_RESPONSE_BYTES,
    ensures
        n == 0 ==> http_step(r, Ok(line)) == Step::Read(Reply { phase: Phase::Trailer, ..r }),
        n > 0 && r.body.len() + n <= 8_388_608 ==> http_step(r, Ok(line)) == Step::Read(
            Reply { phase: Phase::Chunk(n as usize), ..r },
        ),
        n > 0 && r.body.len() + n > 8_388_608 ==> (http_step(r, Ok(line)) matches Step::Done(Err(f)) && f.code == "too_large"@),
{
    let d = numeral(n as nat, 16);
    let s = d + seq!['\r', '\n'];
    lemma_sixteen_digits(n as nat);
    numerals_are_read_back(n as nat, 16, usize::MAX as int);
    assert(!white(s[0])) by {
        assert(digit_value(d[0], 16) >= 0);
    }
    lemma_trim_end_from(s, d.len() as int);
    assert(s.take(d.len() as int) =~= d);
    assert(trimmed(s) == d) by {
        assert(digit_value(d.last(), 16) >= 0);
    }
    assert(!d.contains(';')) by {
        if d.contains(';') {
            let i = choose|i: int| 0 <= i < d.len() && d[i] == ';';
            assert(digit_value(d[i], 16) >= 0);
        }
    }
    lemma_first_index(d, ';');
    assert(pieces(d, ';')[0] == d);
}

proof fn lemma_sixteen_digits(n: nat)
    ensures
        numeral(n, 16).len() > 0,
        forall|i: int| 0 <= i < numeral(n, 16).len() ==> digit_value(#[trigger] numeral(n, 16)[i], 16) >= 0,
    decreases n,
{
    if n >= 16 {
        lemma_sixteen_digits(n / 16);
    }
}

/// The status is the number behind the name of the protocol.
pub proof fn statuses_are_read(protocol: Seq<char>, code: u16, rest: Seq<char>)
    requires
        protocol.len() > 0,
        forall|i: int| 0 <= i < protocol.len() ==> !white(#[trigger] protocol[i]),
        rest.len() > 0 ==> white(rest[0]),
    ensures
        status_of(protocol + seq![' '] + (decimal(code as nat) + rest)) == Some(code as int),
{
    let d = decimal(code as nat);
    let line = protocol + seq![' '] + (d + rest);
    let n = protocol.len() as int;
    assert forall|i: int| 0 <= i < n implies !white(#[trigger] line[i]) by {
        assert(line[i] == protocol[i]);
    }
    lemma_word_end_is(line, n);
    assert(line.take(n) =~= protocol);
    let after = line.skip(n);
    assert(after =~= seq![' '] + (d + rest));
    assert(words(line) == seq![protocol] + words(after));
    lemma_words_skip(after, 1);
    let from = after.skip(1);
    assert(from =~= d + rest);
    decimal_is_read_back(code as u64);
    numerals_are_read_back(code as nat, 10, u16::MAX as int);
    assert forall|i: int| 0 <= i < d.len() implies !white(#[trigger] from[i]) by {
        assert(from[i] == d[i]);
        assert('0' <= d[i] <= '9');
    }
    if rest.len() > 0 {
        assert(from[d.len() as int] == rest[0]);
    }
    lemma_word_end_is(from, d.len() as int);
    assert(from.take(d.len() as int) =~= d);
    assert(words(from)[0] == d);
    assert(words(line)[1] == d);
}

/// The length of the body is the number behind the last header of that name, whatever the
/// case of the name.
pub proof fn lengths_are_read(lines: Seq<Seq<char>>, name: Seq<char>, length: u32)
    requires
        lines.len() > 0,
        !name.contains(':'),
        lowered(name) == lowered("content-length"@),
    ensures
        length_of(lines.push(name + seq![':'] + (seq![' '] + decimal(length as nat))), lines.len() as int + 1) == Some(
            length as int,
        ),
        length_of(lines, 1) is None,
{
    let d = decimal(length as nat);
    let value = seq![' '] + d;
    let line = name + seq![':'] + value;
    let all = lines.push(line);
    let n = name.len() as int;
    assert forall|i: int| 0 <= i < n implies line[i] != ':' by {
        assert(line[i] == name[i]);
        assert(name.contains(name[i]));
    }
    lemma_first_index_is(line, ':', n);
    assert(line.take(n) =~= name);
    assert(line.skip(n + 1) =~= value);
    decimal_is_read_back(length as u64);
    lemma_trim_start_from(value, 1);
    assert(value.skip(1) =~= d);
    assert('0' <= d[0] <= '9' && '0' <= d[d.len() - 1] <= '9');
    assert(trimmed(value) == d);
    numerals_are_read_back(length as nat, 10, usize::MAX as int);
    assert(all[lines.len() as int] == line);
}

/// A body comes in chunks where a header says so, whatever the case of the words; otherwise
/// it has the length that is told, and none where none is.
pub proof fn bodies_come_as_announced(header: Seq<u8>, lines: Seq<Seq<char>>, status: u16)
    requires
        rows(lossy_text(header)) == lines,
        lines.len() > 0,
        status_of(lines[0]) == Some(status as int),
    ensures
        is_chunked(lines) ==> after_header(header) == Step::Read(
            Reply { phase: Phase::ChunkSize, header, status, body: Seq::empty() },
        ),
        !is_chunked(lines) ==> (length_of(lines, lines.len() as int) matches Some(n) ==> {
            &&& 0 < n <= 8_388_608 ==> after_header(header) == Step::Read(
                Reply { phase: Phase::Body(n as usize), header, status, body: Seq::empty() },
            )
            &&& n > 8_388_608 ==> (after_header(header) matches Step::Done(Err(f)) && f.code == "too_large"@)
            &&& n == 0 ==> after_header(header) == Step::Done(finished(status, Seq::empty()))
        }),
        !is_chunked(lines) && length_of(lines, lines.len() as int) is None ==> after_header(header) == Step::Done(
            finished(status, Seq::empty()),
        ),
{
}

/// A header says so by its name and its value.
pub proof fn chunks_are_announced(name: Seq<char>, value: Seq<char>)
    requires
        !name.contains(':'),
    ensures
        says_chunked(name + seq![':'] + value) <==> lowered(name) == lowered("transfer-encoding"@) && lowered(trimmed(value))
            == lowered("chunked"@),
{
    let line = name + seq![':'] + value;
    let n = name.len() as int;
    assert forall|i: int| 0 <= i < n implies line[i] != ':' by {
        assert(line[i] == name[i]);
        assert(name.contains(name[i]));
    }
    lemma_first_index_is(line, ':', n);
    assert(line.take(n) =~= name);
    assert(line.skip(n + 1) =~= value);
}

/// The headers end at an empty line, and go on until then.
pub proof fn headers_end_at_an_empty_line(r: Reply, line: Seq<u8>, header: Seq<u8>)
    requires
        r.phase is Header,
    ensures
        complete(header + seq![13u8, 10u8, 13u8, 10u8]),
        complete(header + seq![10u8, 10u8]),
        header.len() > 0 && header.last() != 10 ==> !complete(header),
        line.len() > 0 && !complete(r.header + line) && r.header.len() + line.len() <= 131_072 ==> http_step(r, Ok(line))
            == Step::Read(Reply { phase: Phase::Header, header: r.header + line, status: r.status, body: r.body }),
        line.len() > 0 && complete(r.header + line) ==> http_step(r, Ok(line)) == after_header(r.header + line),
        line.len() == 0 ==> (http_step(r, Ok(line)) matches Step::Done(Err(f)) && f.code == "bad_response"@),
{
    let long = header + seq![13u8, 10u8, 13u8, 10u8];
    let short = header + seq![10u8, 10u8];
    assert(long.skip(long.len() - 4) =~= seq![13u8, 10u8, 13u8, 10u8]);
    assert(short.skip(short.len() - 2) =~= seq![10u8, 10u8]);
    if header.len() > 0 && header.last() != 10 {
        if header.len() >= 4 {
            assert(header.skip(header.len() - 4)[3] == header.last());
        }
        if header.len() >= 2 {
            assert(header.skip(header.len() - 2)[1] == header.last());
        }
    }
}

} // verus!
