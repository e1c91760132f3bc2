//! Completions that wait for delivery: where they are kept, in what form, which
//! of them are too many and which have become too old.

use crate::ascii::clipped;
use crate::digits::{padded, padded_text};
use crate::json::{
    as_fields, copy, field, get, group_json_views, lemma_get_put, no_fields, no_object, set_field, Entries, Fields,
    Json, Num, Number, Object, Tree,
};
use crate::order::{is_less, less};
use crate::paths::{extension, extension_of, join, joined, parent, parent_of};
use crate::text::{bytes_of, cat2, cat3, chars_of, slice_text};
use crate::time::{exact_micros, micros_form, seconds_text, seconds_to_nanos, text_nanos};
use crate::wire::{
    carried, parsed_json, plain, plain_field, plain_fields, printed_json, read_json, sound, write_json, MAX_DEPTH,
};
use vstd::prelude::*;

verus! {

/// How long a completion waits, in seconds.
pub const PENDING_TTL_SECS: u64 = 86_400;

pub const MAX_PENDING_FILES: usize = 500;

/// The longest name of a kept completion, in characters.
pub const MAX_NAME: usize = 64;

/// Where completions are kept: next to the uploads.
pub open spec fn pending_path(upload_base: Seq<char>) -> Seq<char> {
    joined(
        match parent(upload_base) {
            Some(p) => p,
            None => "."@,
        },
        "pending-results"@,
    )
}

pub fn pending_dir(upload_base: &str) -> (r: String)
    ensures
        r@ == pending_path(upload_base@),
{
    match parent_of(upload_base) {
        Some(p) => join(&p, "pending-results"),
        None => join(".", "pending-results"),
    }
}

/// Whether a character is a letter or a number.
pub uninterp spec fn alphanumeric(c: char) -> bool;

/// `char::is_alphanumeric` of std: of the ASCII characters, the letters and digits.
/// Which others are letters or numbers is Unicode's matter.
#[verifier::external_body]
pub(crate) fn is_alphanumeric(c: char) -> (r: bool)
    ensures
        r == alphanumeric(c),
        (c as u32) < 128 ==> r == ('0' <= c <= '9' || 'a' <= c <= 'z' || 'A' <= c <= 'Z'),
{
    c.is_alphanumeric()
}

/// A character that may stand in the name of a kept completion.
pub open spec fn nameable(c: char) -> bool {
    alphanumeric(c) || c == '-' || c == '_'
}

/// The characters of `s` that may stand in a name.
pub open spec fn nameable_part(s: Seq<char>) -> Seq<char>
    decreases s.len(),
{
    if s.len() == 0 {
        s
    } else if nameable(s.last()) {
        nameable_part(s.drop_last()).push(s.last())
    } else {
        nameable_part(s.drop_last())
    }
}

/// The name under which a job's completion is kept.
pub open spec fn kept_name(job_id: Seq<char>) -> Seq<char> {
    let part = clipped(nameable_part(job_id), MAX_NAME as int);
    if part.len() == 0 {
        "unnamed"@
    } else {
        part
    }
}

proof fn lemma_nameable_prefix(s: Seq<char>, n: int)
    requires
        0 <= n <= s.len(),
    ensures
        nameable_part(s.take(n)).len() <= nameable_part(s).len(),
        nameable_part(s).take(nameable_part(s.take(n)).len() as int) == nameable_part(s.take(n)),
    decreases s.len() - n,
{
    if n == s.len() {
        assert(s.take(n) =~= s);
        assert(nameable_part(s).take(nameable_part(s).len() as int) =~= nameable_part(s));
    } else {
        lemma_nameable_prefix(s, n + 1);
        assert(s.take(n + 1).drop_last() =~= s.take(n));
        let a = nameable_part(s.take(n));
        let b = nameable_part(s.take(n + 1));
        assert(b.take(a.len() as int) =~= a);
        assert(nameable_part(s).take(a.len() as int) =~= nameable_part(s).take(b.len() as int).take(a.len() as int));
    }
}

/// The name under which a job's completion is kept. It holds no separator and no
/// dot, so it stays within its directory.
pub fn safe_name(job_id: &str) -> (r: String)
    ensures
        r@ == kept_name(job_id@),
        forall|i: int| 0 <= i < r@.len() ==> #[trigger] r@[i] != '/' && r@[i] != '.',
        0 < r@.len() <= MAX_NAME,
{
    let chars = chars_of(job_id);
    let mut kept = String::new();
    let mut length: usize = 0;
    let mut i: usize = 0;
    let ghost all = nameable_part(chars@);
    while i < chars.len() && length < MAX_NAME
        invariant
            i <= chars@.len(),
            length <= MAX_NAME,
            length == kept@.len(),
            kept@ == nameable_part(chars@.take(i as int)),
            forall|j: int| 0 <= j < kept@.len() ==> #[trigger] kept@[j] != '/' && kept@[j] != '.',
        decreases chars@.len() - i,
    {
        assert(chars@.take(i + 1).drop_last() =~= chars@.take(i as int));
        let c = chars[i];
        if is_alphanumeric(c) || c == '-' || c == '_' {
            kept.push(c);
            length = length + 1;
        }
        i = i + 1;
    }
    proof {
        lemma_nameable_prefix(chars@, i as int);
        if i < chars@.len() {
            assert(all.take(length as int) == kept@);
            assert(clipped(all, MAX_NAME as int) =~= kept@);
        } else {
            assert(chars@.take(i as int) =~= chars@);
            assert(clipped(all, MAX_NAME as int) =~= kept@);
        }
    }
    if kept.as_str().is_empty() {
        proof {
            reveal_strlit("unnamed");
        }
        "unnamed".to_owned()
    } else {
        kept
    }
}

/// The file in which a job's completion is kept.
pub open spec fn pending_file(upload_base: Seq<char>, job_id: Seq<char>) -> Seq<char> {
    joined(pending_path(upload_base), kept_name(job_id) + ".json"@)
}

pub fn pending_file_path(upload_base: &str, job_id: &str) -> (r: String)
    ensures
        r@ == pending_file(upload_base@, job_id@),
{
    join(&pending_dir(upload_base), &cat2(&safe_name(job_id), ".json"))
}

/// A name for a file that is written before it takes its place.
pub fn temporary_name(random: u64) -> (r: String)
    ensures
        r@ == ".pending-"@ + padded(random as nat, 16, 16) + ".tmp"@,
{
    cat3(".pending-", &padded_text(random, 16, 16), ".tmp")
}

/// A completion as it is kept, `micros` microseconds after 1970.
pub open spec fn kept_form(event: Tree, micros: nat) -> Tree {
    Tree::Object(
        no_fields().with("at"@, Tree::Number(Num::Float(micros_form(micros)))).with("event"@, event),
    )
}

pub fn wrap_event(event: &Json, micros: u64) -> (r: Json)
    ensures
        r@ == kept_form(event@, micros as nat),
{
    broadcast use group_json_views;

    let mut o = no_object();
    set_field(&mut o, "at", Json::Number(Number::Float(seconds_text(micros, 1_000_000, 6))));
    set_field(&mut o, "event", copy(event));
    Json::Object(o)
}

/// What stands in a kept completion.
proof fn lemma_kept_form(event: Tree, micros: nat)
    ensures
        get(kept_form(event, micros)->Object_0, "event"@) == Some(event),
        get(kept_form(event, micros)->Object_0, "at"@) == Some(Tree::Number(Num::Float(micros_form(micros)))),
{
    reveal_strlit("at");
    reveal_strlit("event");
    assert("at"@.len() == 2);
    assert("event"@.len() == 5);
    let at = Tree::Number(Num::Float(micros_form(micros)));
    let one = no_fields().with("at"@, at);
    crate::json::put_then_get(no_fields(), "at"@, at, "at"@);
    crate::json::put_then_get(one, "event"@, event, "at"@);
    crate::json::put_then_get(one, "event"@, event, "event"@);
}

/// A kept completion is as plain as what it keeps.
proof fn lemma_kept_form_is_plain(event: Tree, micros: nat)
    requires
        exact_micros(micros),
        plain(event, MAX_DEPTH - 1),
    ensures
        plain(kept_form(event, micros), MAX_DEPTH as int),
{
    reveal_strlit("at");
    reveal_strlit("event");
    reveal(crate::json::put);
    assert("at"@[0] == 'a' && "event"@[0] == 'e');
    let at = Tree::Number(Num::Float(micros_form(micros)));
    let one = no_fields().with("at"@, at);
    let both = one.with("event"@, event);
    crate::json::put_keeps_order(no_fields(), "at"@, at);
    crate::json::put_keeps_order(one, "event"@, event);
    crate::json::lemma_position(no_fields(), "at"@);
    crate::json::lemma_slot(no_fields(), "at"@);
    assert(one =~= seq![("at"@, at)]);
    crate::json::lemma_position(one, "event"@);
    crate::json::lemma_slot(one, "event"@);
    assert(both.len() == 2);
    assert(plain(at, MAX_DEPTH - 1));
    assert forall|i: int| 0 <= i < both.len() implies plain_field(#[trigger] both[i], MAX_DEPTH - 1) by {}
    assert(plain_fields(both.drop_last().drop_last(), MAX_DEPTH - 1));
    assert(plain_fields(both.drop_last(), MAX_DEPTH - 1));
}

/// The text in which a completion is kept. It reads back as the completion where
/// that is a plain value.
pub fn kept_text(event: &Json, micros: u64) -> (r: String)
    ensures
        r@ == printed_json(carried(kept_form(event@, micros as nat))),
        exact_micros(micros as nat) && plain(event@, MAX_DEPTH - 1) ==> parsed_json(bytes_of(r@)) == sound(
            kept_form(event@, micros as nat),
        ),
{
    proof {
        if exact_micros(micros as nat) && plain(event@, MAX_DEPTH - 1) {
            lemma_kept_form_is_plain(event@, micros as nat);
        }
    }
    write_json(&wrap_event(event, micros))
}

/// A file that keeps a completion: when it was last written, in nanoseconds, and
/// its path.
pub type KeptFile = (u128, String);

/// `a` is older than `b`, or as old and first by path.
pub open spec fn older(a: (u128, Seq<char>), b: (u128, Seq<char>)) -> bool {
    a.0 < b.0 || (a.0 == b.0 && less(a.1, b.1))
}

pub open spec fn kept_views(files: Seq<KeptFile>) -> Seq<(u128, Seq<char>)> {
    Seq::new(files.len(), |i: int| (files[i].0, files[i].1@))
}

/// How many leading files do not come after `x`.
pub open spec fn age_rank(s: Seq<(u128, Seq<char>)>, x: (u128, Seq<char>)) -> int
    decreases s.len(),
{
    if s.len() == 0 || older(x, s[0]) {
        0
    } else {
        1 + age_rank(s.drop_first(), x)
    }
}

/// The files from the oldest to the newest, those that keep completions only.
pub open spec fn by_age(s: Seq<(u128, Seq<char>)>) -> Seq<(u128, Seq<char>)>
    decreases s.len(),
{
    if s.len() == 0 {
        s
    } else if extension(s.last().1) == Some("json"@) {
        by_age(s.drop_last()).insert(age_rank(by_age(s.drop_last()), s.last()), s.last())
    } else {
        by_age(s.drop_last())
    }
}

proof fn lemma_age_rank(s: Seq<(u128, Seq<char>)>, x: (u128, Seq<char>))
    ensures
        0 <= age_rank(s, x) <= s.len(),
        forall|i: int| 0 <= i < age_rank(s, x) ==> !older(x, #[trigger] s[i]),
        age_rank(s, x) < s.len() ==> older(x, s[age_rank(s, x)]),
    decreases s.len(),
{
    if s.len() > 0 && !older(x, s[0]) {
        let t = s.drop_first();
        lemma_age_rank(t, x);
        assert forall|i: int| 0 <= i < age_rank(s, x) implies !older(x, #[trigger] s[i]) by {
            if i > 0 {
                assert(!older(x, t[i - 1]));
            }
        }
        if age_rank(s, x) < s.len() {
            assert(older(x, t[age_rank(t, x)]));
        }
    }
}

proof fn lemma_older_transitive(a: (u128, Seq<char>), b: (u128, Seq<char>), c: (u128, Seq<char>))
    requires
        older(a, b),
        older(b, c),
    ensures
        older(a, c),
{
    if a.0 == b.0 && b.0 == c.0 {
        crate::order::lemma_less_transitive(a.1, b.1, c.1);
    }
}

proof fn lemma_older_irreflexive(a: (u128, Seq<char>))
    ensures
        !older(a, a),
{
    crate::order::lemma_less_irreflexive(a.1);
}

/// No file comes after an older one.
pub proof fn by_age_is_ascending(s: Seq<(u128, Seq<char>)>)
    ensures
        forall|i: int, j: int|
            0 <= i < j < by_age(s).len() ==> !older(#[trigger] by_age(s)[j], #[trigger] by_age(s)[i]),
    decreases s.len(),
{
    if s.len() > 0 {
        by_age_is_ascending(s.drop_last());
        let t = by_age(s.drop_last());
        let x = s.last();
        if extension(x.1) == Some("json"@) {
            lemma_age_rank(t, x);
            let k = age_rank(t, x);
            let r = by_age(s);
            assert forall|i: int, j: int| 0 <= i < j < r.len() implies !older(#[trigger] r[j], #[trigger] r[i]) by {
                let oi = if i < k {
                    i
                } else {
                    i - 1
                };
                let oj = if j < k {
                    j
                } else {
                    j - 1
                };
                if i != k && j != k {
                    assert(r[i] == t[oi] && r[j] == t[oj]);
                } else if j == k {
                    assert(r[i] == t[i]);
                } else {
                    assert(r[j] == t[oj]);
                    if older(t[oj], x) {
                        if oj > k {
                            lemma_older_transitive(t[oj], x, t[k]);
                        } else {
                            lemma_older_transitive(x, t[k], x);
                            lemma_older_irreflexive(x);
                        }
                    }
                }
            }
        }
    }
}

fn is_older(a: &KeptFile, b: &KeptFile) -> (r: bool)
    ensures
        r == older((a.0, a.1@), (b.0, b.1@)),
{
    a.0 < b.0 || (a.0 == b.0 && is_less(&a.1, &b.1))
}

/// The files that keep completions, from the oldest to the newest.
pub fn json_files(files: Vec<KeptFile>) -> (r: Vec<KeptFile>)
    ensures
        kept_views(r@) == by_age(kept_views(files@)),
{
    let mut r: Vec<KeptFile> = Vec::new();
    let ghost all = kept_views(files@);
    let mut i: usize = 0;
    assert(kept_views(r@) =~= by_age(all.take(0)));
    while i < files.len()
        invariant
            i <= files@.len(),
            all == kept_views(files@),
            kept_views(r@) == by_age(all.take(i as int)),
        decreases files@.len() - i,
    {
        let ghost now = all.take(i + 1);
        assert(now.drop_last() =~= all.take(i as int));
        assert(now.last() == all[i as int]);
        let kept = match extension_of(&files[i].1) {
            Some(e) => crate::text::same(&e, "json"),
            None => false,
        };
        if kept {
            let x: KeptFile = (files[i].0, files[i].1.clone());
            let ghost before = kept_views(r@);
            let mut k: usize = 0;
            assert(before.skip(0) =~= before);
            while k < r.len() && !is_older(&x, &r[k])
                invariant
                    k <= r@.len(),
                    before == kept_views(r@),
                    k + age_rank(before.skip(k as int), (x.0, x.1@)) == age_rank(before, (x.0, x.1@)),
                decreases r@.len() - k,
            {
                assert(before.skip(k as int)[0] == before[k as int]);
                assert(before.skip(k as int).drop_first() =~= before.skip(k + 1));
                k = k + 1;
            }
            proof {
                if k < r@.len() {
                    assert(before.skip(k as int)[0] == before[k as int]);
                }
            }
            r.insert(k, x);
            assert(kept_views(r@) =~= before.insert(k as int, (x.0, x.1@)));
        }
        i = i + 1;
    }
    assert(all.take(i as int) =~= all);
    r
}

/// The files that are too many: the oldest, as many as there are beyond `max`.
pub open spec fn too_many(files: Seq<(u128, Seq<char>)>, max: int) -> Seq<(u128, Seq<char>)> {
    let sorted = by_age(files);
    if sorted.len() > max {
        sorted.take(sorted.len() - max)
    } else {
        Seq::empty()
    }
}

/// The files to remove so that at most `max` completions are kept.
pub fn evicted(files: Vec<KeptFile>, max: usize) -> (r: Vec<String>)
    ensures
        crate::text::views(r@) == Seq::new(
            too_many(kept_views(files@), max as int).len(),
            |i: int| too_many(kept_views(files@), max as int)[i].1,
        ),
{
    let sorted = json_files(files);
    let remove = sorted.len().saturating_sub(max);
    let mut r: Vec<String> = Vec::new();
    let mut i: usize = 0;
    while i < remove
        invariant
            i <= remove <= sorted@.len(),
            r@.len() == i,
            forall|j: int| 0 <= j < i ==> (#[trigger] r@[j])@ == sorted@[j].1@,
        decreases remove - i,
    {
        r.push(sorted[i].1.clone());
        i = i + 1;
    }
    proof {
        let t = too_many(kept_views(files@), max as int);
        assert(t =~= kept_views(sorted@).take(remove as int));
        assert forall|j: int| 0 <= j < t.len() implies #[trigger] t[j].1 == r@[j]@ by {
            assert(kept_views(sorted@)[j] == (sorted@[j].0, sorted@[j].1@));
        }
        assert(crate::text::views(r@) =~= Seq::new(t.len(), |i: int| t[i].1));
    }
    r
}

/// Every file that is removed is no newer than any that stays, and at most `max`
/// stay.
pub proof fn eviction_keeps_the_newest(files: Seq<(u128, Seq<char>)>, max: int, i: int, j: int)
    requires
        max >= 0,
        0 <= i < too_many(files, max).len(),
        too_many(files, max).len() <= j < by_age(files).len(),
    ensures
        !older(by_age(files)[j], too_many(files, max)[i]),
        by_age(files).len() - too_many(files, max).len() <= max,
{
    by_age_is_ascending(files);
}

/// What becomes of a kept completion.
#[derive(Debug, PartialEq, Eq)]
pub enum Verdict {
    /// It is delivered.
    Deliver(Json),
    /// It is removed: damaged, or too old.
    Remove,
}

/// The time at which a completion was kept, in nanoseconds; a negative time with
/// its sign, nothing where it is beyond what can be told.
pub struct At {
    pub negative: bool,
    pub nanos: Option<int>,
}

pub open spec fn at_of(v: Option<Tree>) -> At {
    match v {
        Some(Tree::Number(Num::Pos(n))) => At { negative: false, nanos: Some(n * 1_000_000_000) },
        Some(Tree::Number(Num::Neg(n))) => if n >= 0 {
            At { negative: false, nanos: Some(n * 1_000_000_000) }
        } else {
            At { negative: true, nanos: Some(-n * 1_000_000_000) }
        },
        Some(Tree::Number(Num::Float(text))) => if text.len() > 0 && text[0] == '-' {
            At { negative: true, nanos: text_nanos(text.skip(1)) }
        } else {
            At { negative: false, nanos: text_nanos(text) }
        },
        _ => At { negative: false, nanos: Some(0) },
    }
}

/// More than the time to live has passed from `at` to `now`.
pub open spec fn expired(at: At, now: int) -> bool {
    let ttl = PENDING_TTL_SECS * 1_000_000_000;
    match at.nanos {
        Some(n) => if at.negative {
            now + n > ttl
        } else {
            now - n > ttl
        },
        None => at.negative,
    }
}

/// The time to live has not passed since `micros`, by more than a microsecond.
pub open spec fn in_time(micros: nat, now: int) -> bool {
    now + 1000 <= micros * 1000 + PENDING_TTL_SECS * 1_000_000_000
}

/// The time to live has passed since `micros`, by more than a microsecond.
pub open spec fn overdue(micros: nat, now: int) -> bool {
    now >= micros * 1000 + PENDING_TTL_SECS * 1_000_000_000 + 1000
}

/// Whether what was read is a completion that is still to be delivered.
pub open spec fn deliverable(data: Option<Tree>, now: int) -> Option<Tree> {
    match as_fields(data) {
        Some(o) => match get(o, "event"@) {
            Some(Tree::Object(e)) => if expired(at_of(get(o, "at"@)), now) {
                None
            } else {
                Some(Tree::Object(e))
            },
            _ => None,
        },
        None => None,
    }
}

fn is_expired(v: Option<&Json>, now: u128) -> (r: bool)
    requires
        now < 0x1_0000_0000_0000_0000_0000_0000,
    ensures
        r == expired(
            at_of(
                match v {
                    Some(j) => Some(j@),
                    None => None,
                },
            ),
            now as int,
        ),
        forall|micros: nat|
            exact_micros(micros) && v is Some && v->0@ == Tree::Number(Num::Float(#[trigger] micros_form(micros)))
                ==> (in_time(micros, now as int) ==> !r) && (overdue(micros, now as int) ==> r),
{
    broadcast use group_json_views;

    let ttl: u128 = PENDING_TTL_SECS as u128 * 1_000_000_000;
    let (negative, nanos): (bool, Option<u128>) = match v {
        Some(Json::Number(Number::Pos(n))) => (false, Some(*n as u128 * 1_000_000_000)),
        Some(Json::Number(Number::Neg(n))) => {
            let m: i128 = *n as i128;
            if m >= 0 {
                (false, Some(m as u128 * 1_000_000_000))
            } else {
                (true, Some((-m) as u128 * 1_000_000_000))
            }
        },
        Some(Json::Number(Number::Float(text))) => {
            let chars = chars_of(text);
            if chars.len() > 0 && chars[0] == '-' {
                let rest = slice_text(&chars, 1, chars.len());
                assert(rest@ =~= text@.skip(1));
                proof {
                    assert forall|micros: nat| text@ != #[trigger] micros_form(micros) by {
                        crate::digits::lemma_decimal_begins(micros / 1_000_000);
                        assert(micros_form(micros)[0] == crate::digits::decimal(micros / 1_000_000)[0]);
                    }
                }
                (true, seconds_to_nanos(&rest))
            } else {
                (false, seconds_to_nanos(text))
            }
        },
        _ => (false, Some(0)),
    };
    match nanos {
        Some(n) => if negative {
            n > ttl || now > ttl - n
        } else {
            now > n && now - n > ttl
        },
        None => negative,
    }
}

/// A completion kept at `micros` is delivered while there is time, and removed when
/// it is overdue.
pub open spec fn kept_well(r: Verdict, event: Fields, micros: nat, now: int) -> bool {
    &&& in_time(micros, now) ==> (r matches Verdict::Deliver(e) && e@ == Tree::Object(event))
    &&& overdue(micros, now) ==> r is Remove
}

/// What the text of a file is as JSON.
pub open spec fn text_tree(text: Option<&str>) -> Option<Tree> {
    match text {
        Some(text) => match parsed_json(bytes_of(text@)) {
            Ok(t) => Some(t),
            Err(_) => None,
        },
        None => None,
    }
}

/// What becomes of a kept completion: `data` is what was read from its file, and
/// `now` the time in nanoseconds.
pub fn judge(data: Option<&Json>, now: u128) -> (r: Verdict)
    requires
        now < 0x1_0000_0000_0000_0000_0000_0000,
    ensures
        match r {
            Verdict::Deliver(e) => deliverable(
                match data {
                    Some(j) => Some(j@),
                    None => None,
                },
                now as int,
            ) == Some(e@),
            Verdict::Remove => deliverable(
                match data {
                    Some(j) => Some(j@),
                    None => None,
                },
                now as int,
            ) is None,
        },
        forall|event: Fields, micros: nat|
            data is Some && data->0@ == #[trigger] kept_form(Tree::Object(event), micros) && exact_micros(micros)
                ==> kept_well(r, event, micros, now as int),
{
    broadcast use group_json_views;

    proof {
        if data is Some {
            assert forall|event: Fields, micros: nat|
                data->0@ == #[trigger] kept_form(Tree::Object(event), micros) implies {
                let o = data->0@->Object_0;
                get(o, "event"@) == Some(Tree::Object(event)) && get(o, "at"@) == Some(
                    Tree::Number(Num::Float(micros_form(micros))),
                )
            } by {
                lemma_kept_form(Tree::Object(event), micros);
            }
        }
    }

    let o = match data {
        Some(Json::Object(o)) => o,
        _ => return Verdict::Remove,
    };
    let event = match field(o, "event") {
        Some(Json::Object(e)) => Json::Object(crate::json::copy_object(e)),
        _ => return Verdict::Remove,
    };
    if is_expired(field(o, "at"), now) {
        Verdict::Remove
    } else {
        Verdict::Deliver(event)
    }
}

/// What becomes of a kept completion whose file holds `text`, where it could be
/// read. One that was kept as a plain value is delivered as it was until its time to
/// live has passed, and removed from then on.
pub fn judge_text(text: Option<&str>, now: u128) -> (r: Verdict)
    requires
        now < 0x1_0000_0000_0000_0000_0000_0000,
    ensures
        match r {
            Verdict::Deliver(e) => deliverable(text_tree(text), now as int) == Some(e@),
            Verdict::Remove => deliverable(text_tree(text), now as int) is None,
        },
        forall|event: Fields, micros: nat|
            text is Some && parsed_json(bytes_of(text->0@)) == sound(#[trigger] kept_form(Tree::Object(event), micros))
                && exact_micros(micros) ==> kept_well(r, event, micros, now as int),
{
    match text {
        Some(text) => match read_json(text.as_bytes()) {
            Ok(value) => judge(Some(&value), now),
            Err(_) => judge(None, now),
        },
        None => judge(None, now),
    }
}

/// A completion that was kept is delivered as it was, unless it is too old.
pub proof fn kept_completion_is_delivered(event: Fields, micros: nat, now: int)
    requires
        !expired(at_of(Some(Tree::Number(Num::Float(micros_form(micros))))), now),
    ensures
        deliverable(Some(kept_form(Tree::Object(event), micros)), now) == Some(Tree::Object(event)),
{
    lemma_kept_form(Tree::Object(event), micros);
}

/// A kept completion whose text is damaged, or that holds no event, is removed.
pub proof fn damaged_completion_is_removed(data: Option<Tree>, now: int)
    requires
        data matches Some(Tree::Object(o)) ==> !(get(o, "event"@) matches Some(Tree::Object(_))),
    ensures
        deliverable(data, now) is None,
{
}

/// A result that could not be delivered is kept under a name that is made of its job's name
/// alone, and that of a plain name is kept whole.
pub proof fn names_of_jobs_are_kept(job_id: Seq<char>)
    requires
        0 < job_id.len() <= 64,
        forall|i: int| 0 <= i < job_id.len() ==> nameable(#[trigger] job_id[i]),
    ensures
        kept_name(job_id) == job_id,
{
    lemma_nameable_stays(job_id);
}

proof fn lemma_nameable_stays(s: Seq<char>)
    requires
        forall|i: int| 0 <= i < s.len() ==> nameable(#[trigger] s[i]),
    ensures
        nameable_part(s) == s,
    decreases s.len(),
{
    if s.len() > 0 {
        let t = s.drop_last();
        assert forall|i: int| 0 <= i < t.len() implies nameable(#[trigger] t[i]) by {
            assert(t[i] == s[i]);
        }
        lemma_nameable_stays(t);
        assert(nameable(s[s.len() - 1]));
        assert(t.push(s.last()) =~= s);
    }
}

/// A result is delivered for a day after it was kept, and then removed.
pub proof fn results_are_kept_for_a_day(seconds: u64, now: int, event: Fields)
    ensures
        ({
            let data = Some(
                Tree::Object(
                    no_fields().with("at"@, Tree::Number(Num::Pos(seconds))).with("event"@, Tree::Object(event)),
                ),
            );
            &&& now <= (seconds + 86_400) * 1_000_000_000 ==> deliverable(data, now) == Some(Tree::Object(event))
            &&& now > (seconds + 86_400) * 1_000_000_000 ==> deliverable(data, now) is None
        }),
{
    broadcast use lemma_get_put;

    reveal_strlit("at");
    reveal_strlit("event");
    assert("at"@.len() == 2 && "event"@.len() == 5);
}

/// Where there are too many results, the oldest go, and only as many as are too many.
pub proof fn oldest_results_go_first(files: Seq<(u128, Seq<char>)>, max: int)
    requires
        max >= 0,
    ensures
        by_age(files).len() <= max ==> too_many(files, max).len() == 0,
        by_age(files).len() > max ==> too_many(files, max).len() == by_age(files).len() - max,
        too_many(files, max).is_prefix_of(by_age(files)),
        forall|i: int, j: int|
            0 <= i < j < by_age(files).len() ==> (#[trigger] by_age(files)[i]).0 <= (#[trigger] by_age(files)[j]).0,
{
    by_age_is_ascending(files);
}

/// A result is kept with the time at which that was.
pub proof fn kept_results_hold_the_event(event: Tree, micros: nat)
    ensures
        kept_form(event, micros) matches Tree::Object(o) && get(o, "event"@) == Some(event) && get(o, "at"@) == Some(
            Tree::Number(Num::Float(micros_form(micros))),
        ),
{
    broadcast use lemma_get_put;

    reveal_strlit("at");
    reveal_strlit("event");
    assert("at"@.len() == 2 && "event"@.len() == 5);
}

} // verus!
