//! Reading a range of lines of a file, as its bytes come.

use crate::patterns::byte_slice;
use crate::text::{byte_len, bytes_of, from_utf16_lossy, from_utf8_lossy, lossy_text, utf16_lossy_text};
use vstd::prelude::*;
use vstd::utf8::is_char_boundary;

verus! {

pub const NEWLINE: u16 = 10;

/// The mark that tells the order of bytes.
pub const BYTE_ORDER_MARK: u16 = 0xfeff;

/// Which lines are wanted, and how many units of text at most. Lines count from
/// one; without an end they go on to the last.
#[derive(Debug, Clone, Copy, PartialEq, Eq, Structural)]
pub struct LineRange {
    pub start: usize,
    pub end: Option<usize>,
    pub cap: usize,
}

/// How many line breaks there are.
pub open spec fn newlines(us: Seq<u16>) -> nat
    decreases us.len(),
{
    if us.len() == 0 {
        0
    } else {
        newlines(us.drop_last()) + if us.last() == NEWLINE {
            1nat
        } else {
            0nat
        }
    }
}

/// The line on which the unit behind `us` stands.
pub open spec fn line_after(us: Seq<u16>) -> int {
    if newlines(us) + 1 <= usize::MAX {
        newlines(us) as int + 1
    } else {
        usize::MAX as int
    }
}

/// The line that follows on `line`.
pub open spec fn next_line(line: int) -> int {
    if line < usize::MAX {
        line + 1
    } else {
        line
    }
}

impl LineRange {
    pub open spec fn holds(self, line: int) -> bool {
        line >= self.start && (self.end matches Some(e) ==> line <= e)
    }

    /// Whether the unit `u` behind `us` is wanted. A line break is, where the lines
    /// on both sides of it are.
    pub open spec fn wants(self, us: Seq<u16>, u: u16) -> bool {
        self.holds(line_after(us)) && (u == NEWLINE ==> self.holds(next_line(line_after(us))))
    }

    /// The units of `us` that are wanted.
    pub open spec fn wanted(self, us: Seq<u16>) -> Seq<u16>
        decreases us.len(),
    {
        if us.len() == 0 {
            Seq::empty()
        } else if self.wants(us.drop_last(), us.last()) {
            self.wanted(us.drop_last()).push(us.last())
        } else {
            self.wanted(us.drop_last())
        }
    }

    /// Whether no more than `us` is read where `u` comes next: there is no room
    /// for it, or the last wanted line ends with it.
    pub open spec fn ends_at(self, us: Seq<u16>, u: u16) -> bool {
        ||| self.overflows(us, u)
        ||| u == NEWLINE && (self.end matches Some(e) && line_after(us) >= e)
    }

    /// There is no room for a unit that is wanted.
    pub open spec fn overflows(self, us: Seq<u16>, u: u16) -> bool {
        self.wants(us, u) && self.wanted(us).len() >= self.cap
    }

    /// How many units of `us` are read.
    pub open spec fn read_of(self, us: Seq<u16>) -> int
        decreases us.len(),
    {
        if us.len() == 0 {
            0
        } else {
            let before = self.read_of(us.drop_last());
            if before < us.len() - 1 {
                before
            } else if self.ends_at(us.drop_last(), us.last()) {
                us.len() - 1
            } else {
                us.len() as int
            }
        }
    }

    /// The last wanted line of which `us` has something, or the line before the
    /// first.
    pub open spec fn last_line(self, us: Seq<u16>) -> int
        decreases us.len(),
    {
        if us.len() == 0 {
            if self.start > 0 {
                self.start - 1
            } else {
                0
            }
        } else if self.holds(line_after(us.drop_last())) {
            line_after(us.drop_last())
        } else {
            self.last_line(us.drop_last())
        }
    }
}

/// What is found in a text.
pub struct Lines {
    pub units: Seq<u16>,
    pub total: int,
    pub exact: bool,
    pub truncated: bool,
    pub last: int,
}

/// What is found in the text `us`: the wanted units, the lines that were counted,
/// whether those are all, whether something wanted had no room, and the last
/// wanted line.
pub open spec fn found_in(q: LineRange, us: Seq<u16>) -> Lines {
    let n = q.read_of(us);
    let stopped = n < us.len();
    Lines {
        units: q.wanted(us.take(n)),
        total: if us.len() == 0 {
            0
        } else if !stopped && us.last() == NEWLINE {
            line_after(us) - 1
        } else {
            line_after(us.take(n))
        },
        exact: !stopped,
        truncated: stopped && q.overflows(us.take(n), us[n]),
        last: q.last_line(
            us.take(
                if stopped {
                    n + 1
                } else {
                    n
                },
            ),
        ),
    }
}

proof fn lemma_read(q: LineRange, us: Seq<u16>)
    ensures
        0 <= q.read_of(us) <= us.len(),
    decreases us.len(),
{
    if us.len() > 0 {
        lemma_read(q, us.drop_last());
    }
}

/// A reading of lines as far as it came.
pub struct LineScan {
    pub range: LineRange,
    pub line: usize,
    pub last_selected: usize,
    pub saw_any: bool,
    pub last_was_newline: bool,
    pub truncated: bool,
    pub stopped: bool,
    pub out: Vec<u16>,
    pub seen: Ghost<Seq<u16>>,
}

impl LineScan {
    /// The state tells what is found in all that was seen.
    pub open spec fn tells(self) -> bool {
        let us = self.seen@;
        let q = self.range;
        let n = q.read_of(us);
        &&& self.stopped == (n < us.len())
        &&& self.line == line_after(us.take(n))
        &&& self.out@ == q.wanted(us.take(n))
        &&& self.saw_any == (us.len() > 0)
        &&& !self.stopped ==> self.last_was_newline == (us.len() > 0 && us.last() == NEWLINE)
        &&& self.truncated == (self.stopped && q.overflows(us.take(n), us[n]))
        &&& self.last_selected == q.last_line(
            us.take(
                if self.stopped {
                    n + 1
                } else {
                    n
                },
            ),
        )
    }

    pub fn new(range: LineRange) -> (r: Self)
        ensures
            r.range == range,
            r.seen@ == Seq::<u16>::empty(),
            r.tells(),
    {
        let r = LineScan {
            range,
            line: 1,
            last_selected: if range.start > 0 {
                range.start - 1
            } else {
                0
            },
            saw_any: false,
            last_was_newline: false,
            truncated: false,
            stopped: false,
            out: Vec::new(),
            seen: Ghost(Seq::empty()),
        };
        assert(r.seen@.take(0) =~= Seq::empty());
        r
    }

    fn holds(&self, line: usize) -> (r: bool)
        ensures
            r == self.range.holds(line as int),
    {
        line >= self.range.start && match self.range.end {
            Some(e) => line <= e,
            None => true,
        }
    }

    /// Takes in the next unit.
    pub fn take_unit(&mut self, u: u16)
        requires
            old(self).tells(),
        ensures
            final(self).tells(),
            final(self).range == old(self).range,
            final(self).seen@ == old(self).seen@.push(u),
    {
        let ghost us = self.seen@;
        let ghost q = self.range;
        let ghost n = q.read_of(us);
        let ghost more = us.push(u);
        proof {
            lemma_read(q, us);
            assert(more.drop_last() =~= us);
            assert(more.last() == u);
            self.seen@ = more;
        }
        if self.stopped {
            assert(more.take(n) =~= us.take(n));
            assert(more.take(n + 1) =~= us.take(n + 1));
            return;
        }
        assert(us.take(n) =~= us);
        assert(more.take(n + 1) =~= more);
        assert(more.take(n) =~= us);
        self.saw_any = true;
        self.last_was_newline = u == NEWLINE;
        let line = self.line;
        let selected = self.holds(line);
        let next = if line < usize::MAX {
            line + 1
        } else {
            line
        };
        let wanted = selected && (u != NEWLINE || self.holds(next));
        if selected {
            self.last_selected = line;
        }
        if wanted && self.out.len() >= self.range.cap {
            self.truncated = true;
            self.stopped = true;
            return;
        }
        let past = match self.range.end {
            Some(e) => line >= e,
            None => false,
        };
        if u == NEWLINE && past {
            self.stopped = true;
            return;
        }
        if wanted {
            self.out.push(u);
        }
        if u == NEWLINE {
            self.line = next;
        }
    }

    /// The lines that were counted.
    pub fn total_lines(&self) -> (r: usize)
        requires
            self.tells(),
        ensures
            r == found_in(self.range, self.seen@).total,
    {
        proof {
            lemma_read(self.range, self.seen@);
            assert(self.seen@.take(self.seen@.len() as int) =~= self.seen@);
        }
        if !self.saw_any {
            0
        } else if !self.stopped && self.last_was_newline {
            self.line - 1
        } else {
            self.line
        }
    }
}

/// The greatest place not behind `k` at which a character begins or the text ends.
pub open spec fn boundary_before(b: Seq<u8>, k: int) -> int
    decreases k,
{
    if k <= 0 || is_char_boundary(b, k) {
        k
    } else {
        boundary_before(b, k - 1)
    }
}

/// The bytes of a text cut to at most `cap`, between two characters.
pub open spec fn clipped_bytes(s: Seq<char>, cap: int) -> Seq<u8> {
    if bytes_of(s).len() <= cap {
        bytes_of(s)
    } else {
        bytes_of(s).take(boundary_before(bytes_of(s), cap))
    }
}

/// Cuts a text to at most `cap` bytes.
pub fn clip(text: String, cap: usize) -> (r: String)
    ensures
        bytes_of(r@) == clipped_bytes(text@, cap as int),
{
    if byte_len(&text) <= cap {
        return text;
    }
    let mut end: usize = cap;
    while end > 0 && !text.as_str().is_char_boundary(end)
        invariant
            end <= cap < bytes_of(text@).len(),
            boundary_before(bytes_of(text@), end as int) == boundary_before(bytes_of(text@), cap as int),
        decreases end,
    {
        end = end - 1;
    }
    proof {
        vstd::utf8::encode_utf8_valid_utf8(text@);
        vstd::utf8::is_char_boundary_start_end_of_seq(bytes_of(text@));
    }
    let r = byte_slice(&text, 0, end);
    assert(bytes_of(r@) =~= bytes_of(text@).take(end as int));
    r
}

/// What a reading of lines gives.
pub struct Scanned {
    pub content: String,
    pub total_lines: usize,
    pub total_exact: bool,
    pub truncated: bool,
    pub last: usize,
}

/// What a reading of the units `us` gives, where `decode` makes their text.
pub open spec fn scanned_as(r: Scanned, q: LineRange, us: Seq<u16>, text: Seq<char>) -> bool {
    let found = found_in(q, us);
    &&& bytes_of(r.content@) == clipped_bytes(text, q.cap as int)
    &&& r.total_lines == found.total
    &&& r.total_exact == found.exact
    &&& r.truncated == (found.truncated || bytes_of(text).len() > q.cap)
    &&& r.last == found.last
}

proof fn lemma_clip_shortens(s: Seq<char>, cap: int)
    requires
        0 <= cap,
    ensures
        clipped_bytes(s, cap).len() < bytes_of(s).len() <==> bytes_of(s).len() > cap,
{
    if bytes_of(s).len() > cap {
        lemma_boundary(bytes_of(s), cap);
    }
}

proof fn lemma_boundary(b: Seq<u8>, k: int)
    requires
        0 <= k,
    ensures
        0 <= boundary_before(b, k) <= k,
    decreases k,
{
    if k > 0 && !is_char_boundary(b, k) {
        lemma_boundary(b, k - 1);
    }
}

fn finish(scan: &LineScan, text: String) -> (r: Scanned)
    requires
        scan.tells(),
    ensures
        scanned_as(r, scan.range, scan.seen@, text@),
{
    let before = byte_len(&text);
    let ghost whole = text@;
    let content = clip(text, scan.range.cap);
    proof {
        lemma_clip_shortens(whole, scan.range.cap as int);
    }
    let shorter = byte_len(&content) < before;
    Scanned {
        total_lines: scan.total_lines(),
        total_exact: !scan.stopped,
        truncated: scan.truncated || shorter,
        last: scan.last_selected,
        content,
    }
}

/// Bytes as units.
pub open spec fn widened(bytes: Seq<u8>) -> Seq<u16> {
    Seq::new(bytes.len(), |i: int| bytes[i] as u16)
}

/// Units as bytes.
pub open spec fn narrowed(us: Seq<u16>) -> Seq<u8> {
    Seq::new(us.len(), |i: int| us[i] as u8)
}

/// The text that a range of lines of UTF-8 bytes holds.
pub open spec fn utf8_text(q: LineRange, bytes: Seq<u8>) -> Seq<char> {
    lossy_text(narrowed(found_in(q, widened(bytes)).units))
}

/// A reading of lines of UTF-8.
pub struct Utf8Scan {
    pub scan: LineScan,
    pub bytes: Ghost<Seq<u8>>,
}

impl Utf8Scan {
    pub open spec fn tells(self) -> bool {
        self.scan.tells() && self.scan.seen@ == widened(self.bytes@)
    }

    pub fn new(range: LineRange) -> (r: Self)
        ensures
            r.tells(),
            r.scan.range == range,
            r.bytes@ == Seq::<u8>::empty(),
    {
        let r = Utf8Scan { scan: LineScan::new(range), bytes: Ghost(Seq::empty()) };
        assert(widened(r.bytes@) =~= Seq::empty());
        r
    }

    /// Takes in the next bytes, and says whether the rest of the file matters.
    pub fn take_bytes(&mut self, chunk: &[u8]) -> (r: bool)
        requires
            old(self).tells(),
        ensures
            final(self).tells(),
            final(self).scan.range == old(self).scan.range,
            final(self).bytes@ == old(self).bytes@ + chunk@,
            r == !final(self).scan.stopped,
    {
        let ghost start = self.bytes@;
        let mut i: usize = 0;
        assert(start + chunk@.take(0) =~= start);
        while i < chunk.len()
            invariant
                i <= chunk@.len(),
                self.tells(),
                self.scan.range == old(self).scan.range,
                self.bytes@ == start + chunk@.take(i as int),
            decreases chunk@.len() - i,
        {
            let ghost before = self.bytes@;
            let u = chunk[i] as u16;
            self.scan.take_unit(u);
            proof {
                self.bytes@ = before.push(chunk@[i as int]);
                assert(widened(self.bytes@) =~= widened(before).push(u));
                assert(start + chunk@.take(i + 1) =~= before.push(chunk@[i as int]));
            }
            i = i + 1;
        }
        assert(chunk@.take(i as int) =~= chunk@);
        !self.scan.stopped
    }

    /// What was read.
    pub fn result(&self) -> (r: Scanned)
        requires
            self.tells(),
        ensures
            scanned_as(r, self.scan.range, widened(self.bytes@), utf8_text(self.scan.range, self.bytes@)),
    {
        let total = self.scan.out.len();
        let mut narrow: Vec<u8> = Vec::new();
        let mut i: usize = 0;
        while i < total
            invariant
                i <= total,
                total == self.scan.out@.len(),
                narrow@.len() == i,
                forall|j: int| 0 <= j < i ==> #[trigger] narrow@[j] == self.scan.out@[j] as u8,
            decreases total - i,
        {
            let unit = self.scan.out[i];
            narrow.push(#[verifier::truncate] (unit as u8));
            i = i + 1;
        }
        assert(narrow@ =~= narrowed(self.scan.out@));
        finish(&self.scan, from_utf8_lossy(narrow.as_slice()))
    }
}

/// Two bytes as a unit.
pub open spec fn unit_of(a: u8, b: u8, little_endian: bool) -> u16 {
    if little_endian {
        (a + 256 * b) as u16
    } else {
        (256 * a + b) as u16
    }
}

/// Bytes as units of UTF-16; a byte that is left over does not count.
pub open spec fn paired(bytes: Seq<u8>, little_endian: bool) -> Seq<u16> {
    Seq::new(bytes.len() / 2, |i: int| unit_of(bytes[2 * i], bytes[2 * i + 1], little_endian))
}

/// Units without the mark of order before them.
pub open spec fn unmarked(us: Seq<u16>) -> Seq<u16> {
    if us.len() > 0 && us[0] == BYTE_ORDER_MARK {
        us.skip(1)
    } else {
        us
    }
}

/// The text that a range of lines of UTF-16 bytes holds.
pub open spec fn utf16_text(q: LineRange, bytes: Seq<u8>, little_endian: bool) -> Seq<char> {
    utf16_lossy_text(found_in(q, unmarked(paired(bytes, little_endian))).units)
}

/// A reading of lines of UTF-16.
pub struct Utf16Scan {
    pub scan: LineScan,
    pub little_endian: bool,
    pub first_unit: bool,
    pub carry: Option<u8>,
    pub bytes: Ghost<Seq<u8>>,
}

impl Utf16Scan {
    pub open spec fn tells(self) -> bool {
        let us = paired(self.bytes@, self.little_endian);
        &&& self.scan.tells()
        &&& self.scan.seen@ == unmarked(us)
        &&& self.first_unit == (us.len() == 0)
        &&& match self.carry {
            Some(b) => self.bytes@.len() % 2 == 1 && self.bytes@.last() == b,
            None => self.bytes@.len() % 2 == 0,
        }
    }

    pub fn new(range: LineRange, little_endian: bool) -> (r: Self)
        ensures
            r.tells(),
            r.scan.range == range,
            r.little_endian == little_endian,
            r.bytes@ == Seq::<u8>::empty(),
    {
        let r = Utf16Scan {
            scan: LineScan::new(range),
            little_endian,
            first_unit: true,
            carry: None,
            bytes: Ghost(Seq::empty()),
        };
        assert(paired(r.bytes@, little_endian) =~= Seq::empty());
        r
    }

    fn take_byte(&mut self, b: u8)
        requires
            old(self).tells(),
        ensures
            final(self).tells(),
            final(self).scan.range == old(self).scan.range,
            final(self).little_endian == old(self).little_endian,
            final(self).bytes@ == old(self).bytes@.push(b),
    {
        let ghost before = self.bytes@;
        let ghost le = self.little_endian;
        let ghost us = paired(before, le);
        let ghost after = before.push(b);
        proof {
            self.bytes@ = after;
        }
        match self.carry {
            None => {
                self.carry = Some(b);
                assert(paired(after, le) =~= us);
            },
            Some(a) => {
                self.carry = None;
                let unit = if self.little_endian {
                    a as u16 + 256 * (b as u16)
                } else {
                    256 * (a as u16) + b as u16
                };
                proof {
                    assert(unit == unit_of(a, b, le));
                    assert(after[before.len() - 1] == a && after[before.len() as int] == b);
                    assert(before.len() == 2 * us.len() + 1);
                    assert(paired(after, le) =~= us.push(unit));
                }
                if self.first_unit && unit == BYTE_ORDER_MARK {
                    self.first_unit = false;
                    assert(us =~= Seq::empty());
                    assert(unmarked(us.push(unit)) =~= Seq::empty());
                } else {
                    self.first_unit = false;
                    self.scan.take_unit(unit);
                    assert(unmarked(us.push(unit)) =~= unmarked(us).push(unit));
                }
            },
        }
    }

    /// Takes in the next bytes, and says whether the rest of the file matters.
    pub fn take_bytes(&mut self, chunk: &[u8]) -> (r: bool)
        requires
            old(self).tells(),
        ensures
            final(self).tells(),
            final(self).scan.range == old(self).scan.range,
            final(self).little_endian == old(self).little_endian,
            final(self).bytes@ == old(self).bytes@ + chunk@,
            r == !final(self).scan.stopped,
    {
        let ghost start = self.bytes@;
        let mut i: usize = 0;
        assert(start + chunk@.take(0) =~= start);
        while i < chunk.len()
            invariant
                i <= chunk@.len(),
                self.tells(),
                self.scan.range == old(self).scan.range,
                self.little_endian == old(self).little_endian,
                self.bytes@ == start + chunk@.take(i as int),
            decreases chunk@.len() - i,
        {
            let ghost before = self.bytes@;
            self.take_byte(chunk[i]);
            assert(start + chunk@.take(i + 1) =~= before.push(chunk@[i as int]));
            i = i + 1;
        }
        assert(chunk@.take(i as int) =~= chunk@);
        !self.scan.stopped
    }

    /// What was read.
    pub fn result(&self) -> (r: Scanned)
        requires
            self.tells(),
        ensures
            scanned_as(
                r,
                self.scan.range,
                unmarked(paired(self.bytes@, self.little_endian)),
                utf16_text(self.scan.range, self.bytes@, self.little_endian),
            ),
    {
        finish(&self.scan, from_utf16_lossy(self.scan.out.as_slice()))
    }
}

/// Once the reading has stopped, what follows in the file changes nothing of what
/// is found.
pub proof fn stopped_reading_is_final(q: LineRange, us: Seq<u16>, rest: Seq<u16>)
    requires
        q.read_of(us) < us.len(),
    ensures
        found_in(q, us + rest) == found_in(q, us),
    decreases rest.len(),
{
    lemma_read(q, us);
    lemma_stays(q, us, rest);
    let n = q.read_of(us);
    assert((us + rest).take(n) =~= us.take(n));
    assert((us + rest).take(n + 1) =~= us.take(n + 1));
    assert((us + rest)[n] == us[n]);
}

proof fn lemma_stays(q: LineRange, us: Seq<u16>, rest: Seq<u16>)
    requires
        q.read_of(us) < us.len(),
    ensures
        q.read_of(us + rest) == q.read_of(us),
    decreases rest.len(),
{
    if rest.len() == 0 {
        assert(us + rest =~= us);
    } else {
        lemma_stays(q, us, rest.drop_last());
        assert((us + rest).drop_last() =~= us + rest.drop_last());
    }
}

proof fn lemma_all_wanted(q: LineRange, us: Seq<u16>)
    requires
        q.start <= 1,
        q.end is None,
    ensures
        q.wanted(us) == us,
    decreases us.len(),
{
    if us.len() > 0 {
        lemma_all_wanted(q, us.drop_last());
        assert(us.drop_last().push(us.last()) =~= us);
    }
}

proof fn lemma_all_read(q: LineRange, us: Seq<u16>)
    requires
        q.start <= 1,
        q.end is None,
        us.len() <= q.cap,
    ensures
        q.read_of(us) == us.len(),
    decreases us.len(),
{
    if us.len() > 0 {
        lemma_all_read(q, us.drop_last());
        lemma_all_wanted(q, us.drop_last());
    }
}

/// A file that fits, read from its first line without an end, is read whole: all
/// its units are found, nothing is cut, and the count of lines is exact.
pub proof fn whole_file_is_read(q: LineRange, us: Seq<u16>)
    requires
        q.start <= 1,
        q.end is None,
        us.len() <= q.cap,
    ensures
        found_in(q, us).units == us,
        found_in(q, us).exact,
        !found_in(q, us).truncated,
{
    lemma_all_read(q, us);
    lemma_all_wanted(q, us);
    assert(us.take(us.len() as int) =~= us);
}

proof fn lemma_newlines_add(a: Seq<u16>, b: Seq<u16>)
    ensures
        newlines(a + b) == newlines(a) + newlines(b),
    decreases b.len(),
{
    if b.len() == 0 {
        assert(a + b =~= a);
    } else {
        assert((a + b).drop_last() =~= a + b.drop_last());
        assert((a + b).last() == b.last());
        lemma_newlines_add(a, b.drop_last());
    }
}

proof fn lemma_newlines_grow(a: Seq<u16>, k: int)
    requires
        0 <= k <= a.len(),
    ensures
        newlines(a.take(k)) <= newlines(a),
{
    assert(a =~= a.take(k) + a.skip(k));
    lemma_newlines_add(a.take(k), a.skip(k));
}

/// Nothing is wanted before the first line that is asked for, and what is read is all
/// that was there.
proof fn lemma_before_the_range(q: LineRange, a: Seq<u16>)
    requires
        newlines(a) < q.start,
        newlines(a) + 1 < usize::MAX,
        a.len() > 0 ==> a.last() == NEWLINE,
        q.end matches Some(e) ==> q.start <= e,
    ensures
        q.wanted(a) == Seq::<u16>::empty(),
        q.read_of(a) == a.len(),
{
    lemma_before_the_range_to(q, a, a.len() as int);
    assert(a.take(a.len() as int) =~= a);
}

proof fn lemma_before_the_range_to(q: LineRange, a: Seq<u16>, k: int)
    requires
        0 <= k <= a.len(),
        newlines(a) < q.start,
        newlines(a) + 1 < usize::MAX,
        a.len() > 0 ==> a.last() == NEWLINE,
        q.end matches Some(e) ==> q.start <= e,
    ensures
        q.wanted(a.take(k)) == Seq::<u16>::empty(),
        q.read_of(a.take(k)) == k,
    decreases k,
{
    if k > 0 {
        lemma_before_the_range_to(q, a, k - 1);
        assert(a.take(k).drop_last() =~= a.take(k - 1));
        lemma_newlines_grow(a, k - 1);
        lemma_newlines_grow(a, k);
        // The last line break of what comes before is still to come, or is this one.
        if k < a.len() {
            assert(a =~= a.take(k) + a.skip(k));
            lemma_newlines_add(a.take(k), a.skip(k));
            assert(a.skip(k).last() == NEWLINE);
            assert(newlines(a.skip(k)) >= 1);
        }
        assert(newlines(a.take(k - 1)) + 1 < q.start || a.take(k).last() == NEWLINE);
        assert(line_after(a.take(k - 1)) < q.start);
    }
}

proof fn lemma_within_the_range(q: LineRange, a: Seq<u16>, b: Seq<u16>, k: int)
    requires
        0 <= k <= b.len() <= q.cap,
        q.start >= 1,
        newlines(a) == q.start - 1,
        a.len() > 0 ==> a.last() == NEWLINE,
        q.end matches Some(e) ==> newlines(b) + q.start == e,
        newlines(a) + newlines(b) + 2 < usize::MAX,
    ensures
        q.wanted(a + b.take(k)) == b.take(k),
        q.read_of(a + b.take(k)) == a.len() + k,
        newlines(a + b.take(k)) == newlines(a) + newlines(b.take(k)),
    decreases k,
{
    lemma_newlines_add(a, b.take(k));
    if k == 0 {
        assert(a + b.take(0) =~= a);
        assert(b.take(0) =~= Seq::empty());
        lemma_before_the_range(q, a);
    } else {
        lemma_within_the_range(q, a, b, k - 1);
        let us = a + b.take(k);
        assert(us.drop_last() =~= a + b.take(k - 1));
        assert(us.last() == b[k - 1]);
        lemma_newlines_grow(b, k);
        lemma_newlines_grow(b, k - 1);
        assert(b.take(k).drop_last() =~= b.take(k - 1));
        assert(q.wanted(us) =~= b.take(k));
    }
}

/// A request for lines gives these lines: what lies before them and behind them is left
/// out, and all of them is given where it is not too much.
pub proof fn asked_lines_are_given(q: LineRange, before: Seq<u16>, lines: Seq<u16>, behind: Seq<u16>)
    requires
        q.start >= 1,
        newlines(before) == q.start - 1,
        before.len() > 0 ==> before.last() == NEWLINE,
        q.end matches Some(e) && newlines(lines) + q.start == e,
        behind.len() > 0 ==> behind[0] == NEWLINE,
        lines.len() <= q.cap,
        newlines(before) + newlines(lines) + 2 < usize::MAX,
    ensures
        found_in(q, before + lines + behind).units == lines,
        !found_in(q, before + lines + behind).truncated,
{
    let us = before + lines + behind;
    let n = before.len() + lines.len() as int;
    lemma_within_the_range(q, before, lines, lines.len() as int);
    assert(lines.take(lines.len() as int) =~= lines);
    let head = before + lines;
    assert(us.take(n as int) =~= head);
    if behind.len() > 0 {
        assert(us.take(n + 1).drop_last() =~= head);
        assert(us.take(n + 1).last() == NEWLINE);
        assert(q.ends_at(head, NEWLINE));
        assert(q.read_of(us.take(n + 1)) == n);
        lemma_stopped_stays(q, us, n + 1);
        assert(us[n as int] == NEWLINE);
        assert(!q.overflows(head, NEWLINE));
    } else {
        assert(us =~= head);
    }
}

proof fn lemma_stopped_stays(q: LineRange, us: Seq<u16>, k: int)
    requires
        0 < k <= us.len(),
        q.read_of(us.take(k)) < k,
    ensures
        q.read_of(us) == q.read_of(us.take(k)),
    decreases us.len() - k,
{
    if k < us.len() {
        assert(us.take(k + 1).drop_last() =~= us.take(k));
        lemma_stopped_stays(q, us, k + 1);
    } else {
        assert(us.take(k) =~= us);
    }
}

/// A file that is too long is given as far as may be read, and that is told.
pub proof fn long_files_are_cut(q: LineRange, us: Seq<u16>)
    requires
        q.start <= 1,
        q.end is None,
        us.len() > q.cap,
    ensures
        found_in(q, us).units == us.take(q.cap as int),
        found_in(q, us).truncated,
        !found_in(q, us).exact,
{
    let n = q.cap as int;
    lemma_beginning_wanted(q, us, n);
    assert(us.take(n + 1).drop_last() =~= us.take(n));
    assert(q.overflows(us.take(n), us[n]));
    assert(us.take(n + 1).last() == us[n]);
    assert(q.read_of(us.take(n + 1)) == n);
    lemma_stopped_stays(q, us, n + 1);
}

proof fn lemma_beginning_wanted(q: LineRange, us: Seq<u16>, k: int)
    requires
        q.start <= 1,
        q.end is None,
        0 <= k <= us.len(),
        k <= q.cap,
    ensures
        q.wanted(us.take(k)) == us.take(k),
        q.read_of(us.take(k)) == k,
    decreases k,
{
    if k > 0 {
        lemma_beginning_wanted(q, us, k - 1);
        assert(us.take(k).drop_last() =~= us.take(k - 1));
        assert(us.take(k).last() == us[k - 1]);
        assert(q.wanted(us.take(k)) =~= us.take(k));
    } else {
        assert(us.take(0) =~= Seq::empty());
    }
}

/// A file that is read to its end has as many lines as line breaks, and one more where
/// something follows on the last.
pub proof fn lines_are_counted(q: LineRange, us: Seq<u16>)
    requires
        q.start <= 1,
        q.end is None,
        us.len() <= q.cap,
        newlines(us) + 1 < usize::MAX,
    ensures
        found_in(q, us).total == newlines(us) + if us.len() > 0 && us.last() != NEWLINE {
            1int
        } else {
            0int
        },
{
    lemma_beginning_wanted(q, us, us.len() as int);
    assert(us.take(us.len() as int) =~= us);
    if us.len() == 0 {
        assert(newlines(us) == 0);
    }
}

/// The units of UTF-16 are made of two bytes each, in the order that the mark tells, and
/// the mark itself is left out.
pub proof fn units_are_made_of_two_bytes(lows: Seq<u8>, highs: Seq<u8>, bytes: Seq<u8>, i: int)
    requires
        lows.len() == highs.len(),
        bytes.len() == 2 * lows.len(),
        0 <= i < lows.len(),
    ensures
        bytes[2 * i] == lows[i] && bytes[2 * i + 1] == highs[i] ==> paired(bytes, true)[i] == lows[i] + 256 * highs[i],
        bytes[2 * i] == highs[i] && bytes[2 * i + 1] == lows[i] ==> paired(bytes, false)[i] == lows[i] + 256 * highs[i],
        paired(bytes, true).len() == lows.len(),
        unmarked(seq![0xfeffu16] + paired(bytes, true)) == paired(bytes, true),
{
    assert((seq![0xfeffu16] + paired(bytes, true)).skip(1) =~= paired(bytes, true));
}

/// A text that is cut to a number of bytes stays a text: the longest beginning of it that
/// fits.
pub proof fn clipped_texts_are_beginnings(s: Seq<char>, cap: int)
    requires
        0 <= cap,
    ensures
        clipped_bytes(s, cap).len() <= cap,
        clipped_bytes(s, cap).is_prefix_of(bytes_of(s)),
        bytes_of(s).len() <= cap ==> clipped_bytes(s, cap) == bytes_of(s),
        vstd::utf8::valid_utf8(clipped_bytes(s, cap)),
        forall|k: int|
            clipped_bytes(s, cap).len() < k <= cap && k <= bytes_of(s).len() ==> !is_char_boundary(
                bytes_of(s),
                k,
            ),
{
    let b = bytes_of(s);
    vstd::utf8::encode_utf8_valid_utf8(s);
    vstd::utf8::is_char_boundary_start_end_of_seq(b);
    if b.len() > cap {
        lemma_boundary_before(b, cap);
        let k = boundary_before(b, cap);
        vstd::utf8::valid_utf8_split(b, k);
        assert(b.take(k) =~= b.subrange(0, k));
    }
}

proof fn lemma_boundary_before(b: Seq<u8>, k: int)
    requires
        vstd::utf8::valid_utf8(b),
        0 <= k <= b.len(),
    ensures
        0 <= boundary_before(b, k) <= k,
        is_char_boundary(b, boundary_before(b, k)),
        forall|i: int| boundary_before(b, k) < i <= k ==> !is_char_boundary(b, i),
    decreases k,
{
    vstd::utf8::is_char_boundary_start_end_of_seq(b);
    if k > 0 && !is_char_boundary(b, k) {
        lemma_boundary_before(b, k - 1);
    }
}

} // verus!
