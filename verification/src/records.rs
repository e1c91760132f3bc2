//! Records that end in a zero byte, as `git` prints them, and counts of names.

use crate::digits::{decimal, decimal_is_read_back, parse_u64, parsed};
use crate::order::{is_less, less};
use crate::text::{from_utf8_lossy, lemma_first_index, lemma_pieces_joined, lossy_text, pieces, same, split, views};
use vstd::prelude::*;

verus! {

/// Bytes between zero bytes.
pub open spec fn byte_records(b: Seq<u8>) -> Seq<Seq<u8>>
    decreases b.len(),
{
    if b.len() == 0 {
        seq![Seq::<u8>::empty()]
    } else {
        let p = byte_records(b.drop_last());
        if b.last() == 0 {
            p.push(Seq::<u8>::empty())
        } else {
            p.drop_last().push(p.last().push(b.last()))
        }
    }
}

/// The texts between zero bytes.
pub open spec fn record_texts(b: Seq<u8>) -> Seq<Seq<char>> {
    Seq::new(byte_records(b).len(), |i: int| lossy_text(byte_records(b)[i]))
}

proof fn lemma_records(b: Seq<u8>)
    ensures
        byte_records(b).len() > 0,
    decreases b.len(),
{
    if b.len() > 0 {
        lemma_records(b.drop_last());
    }
}

/// The texts between zero bytes.
pub fn split_records(raw: &[u8]) -> (r: Vec<String>)
    ensures
        views(r@) == record_texts(raw@),
        r@.len() > 0,
{
    let mut done: Vec<String> = Vec::new();
    let mut current: Vec<u8> = Vec::new();
    let ghost mut parts: Seq<Seq<u8>> = Seq::empty();
    let mut i: usize = 0;
    assert(parts.push(current@) =~= byte_records(raw@.take(0)));
    while i < raw.len()
        invariant
            i <= raw@.len(),
            byte_records(raw@.take(i as int)) == parts.push(current@),
            done@.len() == parts.len(),
            forall|j: int| 0 <= j < done@.len() ==> (#[trigger] done@[j])@ == lossy_text(parts[j]),
        decreases raw@.len() - i,
    {
        assert(raw@.take(i + 1).drop_last() =~= raw@.take(i as int));
        assert(raw@.take(i + 1).last() == raw@[i as int]);
        let ghost p = parts.push(current@);
        assert(p.drop_last() =~= parts);
        let b = raw[i];
        if b == 0 {
            done.push(from_utf8_lossy(current.as_slice()));
            proof {
                parts = p;
            }
            current = Vec::new();
            assert(current@ =~= Seq::<u8>::empty());
        } else {
            current.push(b);
        }
        i = i + 1;
    }
    assert(raw@.take(i as int) =~= raw@);
    done.push(from_utf8_lossy(current.as_slice()));
    assert(views(done@) =~= record_texts(raw@));
    done
}

/// The texts that are not empty.
pub open spec fn nonempty(texts: Seq<Seq<char>>) -> Seq<Seq<char>>
    decreases texts.len(),
{
    if texts.len() == 0 {
        Seq::empty()
    } else if texts.last().len() > 0 {
        nonempty(texts.drop_last()).push(texts.last())
    } else {
        nonempty(texts.drop_last())
    }
}

/// The paths that `git` prints with a zero behind each.
pub open spec fn listed_paths(raw: Seq<u8>) -> Seq<Seq<char>> {
    nonempty(pieces(lossy_text(raw), '\0'))
}

/// The paths that `git` prints with a zero behind each.
pub fn split_paths(raw: &[u8]) -> (r: Vec<String>)
    ensures
        views(r@) == listed_paths(raw@),
{
    let all = split(&from_utf8_lossy(raw), '\0');
    let ghost texts = views(all@);
    let mut out: Vec<String> = Vec::new();
    let mut i: usize = 0;
    assert(views(out@) =~= nonempty(texts.take(0)));
    while i < all.len()
        invariant
            i <= all@.len(),
            texts == views(all@),
            views(out@) == nonempty(texts.take(i as int)),
        decreases all@.len() - i,
    {
        assert(texts.take(i + 1).drop_last() =~= texts.take(i as int));
        assert(texts.take(i + 1).last() == all@[i as int]@);
        let ghost before = views(out@);
        if !all[i].as_str().is_empty() {
            out.push(all[i].clone());
            assert(views(out@) =~= before.push(texts[i as int]));
        }
        i = i + 1;
    }
    assert(texts.take(i as int) =~= texts);
    out
}

/// How often a name occurs.
pub open spec fn times(names: Seq<Seq<char>>, name: Seq<char>) -> nat
    decreases names.len(),
{
    if names.len() == 0 {
        0
    } else {
        times(names.drop_last(), name) + if names.last() == name {
            1nat
        } else {
            0nat
        }
    }
}

/// Each name once, in the order in which they first occur.
pub open spec fn distinct(names: Seq<Seq<char>>) -> Seq<Seq<char>>
    decreases names.len(),
{
    if names.len() == 0 {
        Seq::empty()
    } else if distinct(names.drop_last()).contains(names.last()) {
        distinct(names.drop_last())
    } else {
        distinct(names.drop_last()).push(names.last())
    }
}

/// Names with how often each occurs.
pub open spec fn tallied(names: Seq<Seq<char>>) -> Seq<(Seq<char>, nat)> {
    Seq::new(distinct(names).len(), |i: int| (distinct(names)[i], times(names, distinct(names)[i])))
}

/// The one that occurs more often comes first; among equals, the lesser name.
pub open spec fn before(a: (Seq<char>, nat), b: (Seq<char>, nat)) -> bool {
    a.1 > b.1 || (a.1 == b.1 && less(a.0, b.0))
}

/// How many of `s` do not come behind `x`.
pub open spec fn place(s: Seq<(Seq<char>, nat)>, x: (Seq<char>, nat)) -> int
    decreases s.len(),
{
    if s.len() == 0 || before(x, s[0]) {
        0
    } else {
        1 + place(s.drop_first(), x)
    }
}

/// Names by how often they occur.
pub open spec fn ranked(s: Seq<(Seq<char>, nat)>) -> Seq<(Seq<char>, nat)>
    decreases s.len(),
{
    if s.len() == 0 {
        Seq::empty()
    } else {
        let rest = ranked(s.drop_last());
        rest.insert(place(rest, s.last()), s.last())
    }
}

pub open spec fn count_views(s: Seq<(String, u64)>) -> Seq<(Seq<char>, nat)> {
    Seq::new(s.len(), |i: int| (s[i].0@, s[i].1 as nat))
}

proof fn lemma_place(s: Seq<(Seq<char>, nat)>, x: (Seq<char>, nat))
    ensures
        0 <= place(s, x) <= s.len(),
        forall|i: int| 0 <= i < place(s, x) ==> !before(x, #[trigger] s[i]),
        place(s, x) < s.len() ==> before(x, s[place(s, x)]),
    decreases s.len(),
{
    if s.len() > 0 && !before(x, s[0]) {
        lemma_place(s.drop_first(), x);
        assert forall|i: int| 0 <= i < place(s, x) implies !before(x, #[trigger] s[i]) by {
            if i > 0 {
                assert(s.drop_first()[i - 1] == s[i]);
            }
        }
    }
}

proof fn lemma_place_is(s: Seq<(Seq<char>, nat)>, x: (Seq<char>, nat), p: int)
    requires
        0 <= p <= s.len(),
        forall|i: int| 0 <= i < p ==> !before(x, #[trigger] s[i]),
        p < s.len() ==> before(x, s[p]),
    ensures
        place(s, x) == p,
    decreases s.len(),
{
    if p > 0 {
        assert(!before(x, s[0]));
        assert forall|i: int| 0 <= i < p - 1 implies !before(x, #[trigger] s.drop_first()[i]) by {
            assert(s[i + 1] == s.drop_first()[i]);
        }
        lemma_place_is(s.drop_first(), x, p - 1);
    }
}

proof fn lemma_times(names: Seq<Seq<char>>, name: Seq<char>)
    ensures
        times(names, name) <= names.len(),
        !names.contains(name) ==> times(names, name) == 0,
        distinct(names).contains(name) <==> names.contains(name),
    decreases names.len(),
{
    if names.len() > 0 {
        let front = names.drop_last();
        lemma_times(front, name);
        lemma_times(front, names.last());
        let d = distinct(front);
        if names.contains(name) {
            let i = choose|i: int| 0 <= i < names.len() && names[i] == name;
            if i < names.len() - 1 {
                assert(front[i] == name);
            }
        }
        if front.contains(name) {
            let i = choose|i: int| 0 <= i < front.len() && front[i] == name;
            assert(names[i] == name);
        }
        assert(names[names.len() - 1] == names.last());
        if d.contains(name) {
            let i = choose|i: int| 0 <= i < d.len() && d[i] == name;
            assert(distinct(names)[i] == name);
        }
        if !d.contains(names.last()) {
            assert(distinct(names)[d.len() as int] == names.last());
        }
        if distinct(names).contains(name) {
            let i = choose|i: int| 0 <= i < distinct(names).len() && distinct(names)[i] == name;
            if i < d.len() {
                assert(d[i] == name);
            }
        }
    }
}

proof fn lemma_distinct(names: Seq<Seq<char>>, i: int, j: int)
    requires
        0 <= i < j < distinct(names).len(),
    ensures
        distinct(names)[i] != distinct(names)[j],
    decreases names.len(),
{
    if names.len() > 0 {
        let d = distinct(names.drop_last());
        if j < d.len() {
            lemma_distinct(names.drop_last(), i, j);
        } else {
            assert(d[i] == distinct(names)[i]);
            assert(d.contains(d[i]));
        }
    }
}

/// Counts how often each name occurs.
pub fn tally(names: &Vec<String>) -> (r: Vec<(String, u64)>)
    ensures
        count_views(r@) == tallied(views(names@)),
{
    let ghost all = views(names@);
    let mut out: Vec<(String, u64)> = Vec::new();
    let total = names.len();
    let mut i: usize = 0;
    assert(count_views(out@) =~= tallied(all.take(0)));
    while i < total
        invariant
            i <= total,
            total == names@.len(),
            all == views(names@),
            count_views(out@) == tallied(all.take(i as int)),
        decreases total - i,
    {
        let ghost seen = all.take(i as int);
        let ghost next = all.take(i + 1);
        let ghost d = distinct(seen);
        assert(next.drop_last() =~= seen);
        assert(next.last() == names@[i as int]@);
        let ghost name = next.last();
        let ghost was = count_views(out@);
        let mut j: usize = 0;
        assert(was.len() == d.len());
        while j < out.len() && !same(&out[j].0, &names[i])
            invariant
                j <= out@.len(),
                i < names@.len(),
                name == names@[i as int]@,
                was == count_views(out@),
                forall|k: int| 0 <= k < j ==> (#[trigger] was[k]).0 != name,
            decreases out@.len() - j,
        {
            assert(was[j as int].0 == out@[j as int].0@);
            j = j + 1;
        }
        proof {
            lemma_times(seen, name);
            assert forall|k: int| 0 <= k < d.len() implies (#[trigger] was[k]).0 == d[k] by {}
        }
        if j < out.len() {
            assert(was[j as int].0 == out@[j as int].0@);
            assert(d[j as int] == name && d.contains(name));
            assert(was[j as int].1 == times(seen, name));
            out[j].1 = out[j].1 + 1;
            assert(count_views(out@) =~= tallied(next)) by {
                assert forall|k: int| 0 <= k < d.len() implies count_views(out@)[k] == #[trigger] tallied(next)[k] by {
                    if k != j {
                        if k < j {
                            lemma_distinct(seen, k, j as int);
                        } else {
                            lemma_distinct(seen, j as int, k);
                        }
                        assert(was[k] == tallied(seen)[k]);
                    }
                }
            }
        } else {
            assert(!d.contains(name)) by {
                if d.contains(name) {
                    let k = choose|k: int| 0 <= k < d.len() && d[k] == name;
                    assert(was[k].0 == name);
                }
            }
            out.push((names[i].clone(), 1));
            assert(count_views(out@) =~= tallied(next)) by {
                assert forall|k: int| 0 <= k < d.len() implies count_views(out@)[k] == #[trigger] tallied(next)[k] by {
                    assert(was[k] == tallied(seen)[k]);
                    assert(d.contains(d[k]));
                }
            }
        }
        i = i + 1;
    }
    assert(all.take(i as int) =~= all);
    out
}

fn comes_before(a: &(String, u64), b: &(String, u64)) -> (r: bool)
    ensures
        r == before((a.0@, a.1 as nat), (b.0@, b.1 as nat)),
{
    a.1 > b.1 || (a.1 == b.1 && is_less(&a.0, &b.0))
}

/// Puts names in order by how often they occur.
pub fn rank(list: Vec<(String, u64)>) -> (r: Vec<(String, u64)>)
    ensures
        count_views(r@) == ranked(count_views(list@)),
{
    let ghost all = count_views(list@);
    let mut rest = list;
    let total = rest.len();
    let mut out: Vec<(String, u64)> = Vec::new();
    let mut i: usize = 0;
    assert(count_views(out@) =~= ranked(all.take(0)));
    while i < total
        invariant
            i <= total,
            total == all.len(),
            rest@.len() == total,
            forall|j: int| i <= j < total ==> (#[trigger] rest@[j]) == list@[j],
            all == count_views(list@),
            count_views(out@) == ranked(all.take(i as int)),
        decreases total - i,
    {
        let ghost done = ranked(all.take(i as int));
        assert(all.take(i + 1).drop_last() =~= all.take(i as int));
        assert(all.take(i + 1).last() == all[i as int]);
        let mut entry = (String::new(), 0u64);
        std::mem::swap(&mut rest[i], &mut entry);
        let ghost x = (entry.0@, entry.1 as nat);
        assert(x == all[i as int]);
        let mut j: usize = 0;
        while j < out.len() && !comes_before(&entry, &out[j])
            invariant
                j <= out@.len(),
                x == (entry.0@, entry.1 as nat),
                done == count_views(out@),
                forall|k: int| 0 <= k < j ==> !before(x, #[trigger] done[k]),
            decreases out@.len() - j,
        {
            assert(done[j as int] == (out@[j as int].0@, out@[j as int].1 as nat));
            j = j + 1;
        }
        proof {
            if j < out@.len() {
                assert(done[j as int] == (out@[j as int].0@, out@[j as int].1 as nat));
            }
            lemma_place_is(done, x, j as int);
        }
        out.insert(j, entry);
        assert(count_views(out@) =~= done.insert(j as int, x));
        i = i + 1;
    }
    assert(all.take(i as int) =~= all);
    out
}

/// A sum in 64 bits.
pub open spec fn sum64(a: u64, b: u64) -> u64 {
    if a + b > u64::MAX {
        (a + b - 0x1_0000_0000_0000_0000) as u64
    } else {
        (a + b) as u64
    }
}

pub fn add64(a: u64, b: u64) -> (r: u64)
    ensures
        r == sum64(a, b),
{
    a.wrapping_add(b)
}

/// The number that a text is, or zero.
pub open spec fn number_of(text: Seq<char>) -> u64 {
    match parsed(text, 10, u64::MAX as int) {
        Some(n) => n as u64,
        None => 0,
    }
}

/// The changes in one record of `git diff --numstat`: insertions and deletions. A
/// strict reading skips what begins with neither a number nor a dash.
pub open spec fn stat_of(record: Seq<char>, strict: bool) -> Option<(u64, u64)> {
    let f = pieces(record, '\t');
    if f.len() >= 2 && (!strict || parsed(f[0], 10, u64::MAX as int) is Some || f[0] == "-"@) {
        Some((number_of(f[0]), number_of(f[1])))
    } else {
        None
    }
}

/// The files, insertions and deletions in the first `n` records.
pub open spec fn stats_of(records: Seq<Seq<char>>, strict: bool, n: int) -> (u64, u64, u64)
    decreases n,
{
    if n <= 0 || n > records.len() {
        (0, 0, 0)
    } else {
        let (files, ins, dels) = stats_of(records, strict, n - 1);
        match stat_of(records[n - 1], strict) {
            Some((a, b)) => (sum64(files, 1), sum64(ins, a), sum64(dels, b)),
            None => (files, ins, dels),
        }
    }
}

/// All files, insertions and deletions that `git diff --numstat -z` prints.
pub open spec fn numstat_of(raw: Seq<u8>, strict: bool) -> (u64, u64, u64) {
    stats_of(record_texts(raw), strict, record_texts(raw).len() as int)
}

fn number_in(text: &str) -> (r: u64)
    ensures
        r == number_of(text@),
{
    match parse_u64(text) {
        Some(n) => n,
        None => 0,
    }
}

fn read_stat(record: &str, strict: bool) -> (r: Option<(u64, u64)>)
    ensures
        r == stat_of(record@, strict),
{
    let f = split(record, '\t');
    let ghost known = pieces(record@, '\t');
    assert(known.len() == f@.len());
    if f.len() < 2 {
        return None;
    }
    assert(known[0] == f@[0]@ && known[1] == f@[1]@);
    if strict && parse_u64(&f[0]).is_none() && !same(&f[0], "-") {
        return None;
    }
    Some((number_in(&f[0]), number_in(&f[1])))
}

/// All files, insertions and deletions that `git diff --numstat -z` prints.
pub fn read_numstat(raw: &[u8], strict: bool) -> (r: (u64, u64, u64))
    ensures
        r == numstat_of(raw@, strict),
{
    let records = split_records(raw);
    let ghost all = record_texts(raw@);
    let mut files: u64 = 0;
    let mut ins: u64 = 0;
    let mut dels: u64 = 0;
    let mut i: usize = 0;
    while i < records.len()
        invariant
            i <= records@.len(),
            all == views(records@),
            (files, ins, dels) == stats_of(all, strict, i as int),
        decreases records@.len() - i,
    {
        assert(all[i as int] == records@[i as int]@);
        if let Some((a, b)) = read_stat(&records[i], strict) {
            files = add64(files, 1);
            ins = add64(ins, a);
            dels = add64(dels, b);
        }
        i = i + 1;
    }
    assert(all.len() == records@.len());
    (files, ins, dels)
}

/// In a ranking no name stands behind one that it should come before.
pub proof fn ranking_is_ordered(s: Seq<(Seq<char>, nat)>, i: int, j: int)
    requires
        0 <= i < j < ranked(s).len(),
    ensures
        !before(ranked(s)[j], ranked(s)[i]),
    decreases s.len(),
{
    if s.len() > 0 {
        let rest = ranked(s.drop_last());
        let x = s.last();
        let p = place(rest, x);
        lemma_place(rest, x);
        let r = ranked(s);
        let a = if i < p {
            i
        } else {
            i - 1
        };
        let b = if j < p {
            j
        } else {
            j - 1
        };
        if i != p && j != p {
            ranking_is_ordered(s.drop_last(), a, b);
        } else if j == p {
            assert(r[i] == rest[i]);
            assert(!before(x, rest[i]));
        } else {
            assert(before(x, rest[p]));
            if b > p {
                ranking_is_ordered(s.drop_last(), p, b);
            }
            crate::order::lemma_less_irreflexive(x.0);
            if before(rest[b], x) {
                if rest[b].1 == x.1 && x.1 == rest[p].1 {
                    crate::order::lemma_less_transitive(rest[b].0, x.0, rest[p].0);
                    if b == p {
                        crate::order::lemma_less_irreflexive(rest[p].0);
                    }
                }
            }
        }
    }
}

/// Records end where a zero byte stands: what follows on one begins another.
pub proof fn records_end_at_zero_bytes(a: Seq<u8>, b: Seq<u8>)
    requires
        !b.contains(0u8),
    ensures
        byte_records(b) == seq![b],
        byte_records(a.push(0u8) + b) == byte_records(a).push(b),
    decreases b.len(),
{
    if b.len() == 0 {
        assert(a.push(0u8) + b =~= a.push(0u8));
        assert(a.push(0u8).drop_last() =~= a);
        assert(b =~= Seq::empty());
    } else {
        let front = b.drop_last();
        assert(!front.contains(0u8)) by {
            if front.contains(0u8) {
                let i = choose|i: int| 0 <= i < front.len() && front[i] == 0u8;
                assert(b[i] == 0u8);
            }
        }
        assert(b.last() != 0u8) by {
            assert(b.contains(b[b.len() - 1]));
        }
        records_end_at_zero_bytes(a, front);
        let s = a.push(0u8) + b;
        assert(s.drop_last() =~= a.push(0u8) + front);
        assert(front.push(b.last()) =~= b);
        let p = byte_records(a).push(front);
        assert(p.drop_last() =~= byte_records(a));
        assert(byte_records(s) =~= byte_records(a).push(b));
        assert(seq![front].drop_last() =~= Seq::<Seq<u8>>::empty());
        assert(byte_records(b) =~= seq![b]);
    }
}

/// A tally has each name once, with how often it occurs.
pub proof fn tallies_count_names(names: Seq<Seq<char>>)
    ensures
        distinct(names).no_duplicates(),
        forall|name: Seq<char>| #[trigger] distinct(names).contains(name) <==> names.contains(name),
        forall|i: int|
            0 <= i < tallied(names).len() ==> (#[trigger] tallied(names)[i]).1 == names.to_multiset().count(
                tallied(names)[i].0,
            ) && tallied(names)[i].0 == distinct(names)[i],
    decreases names.len(),
{
    lemma_distinct_names(names);
    assert forall|i: int| 0 <= i < tallied(names).len() implies (#[trigger] tallied(names)[i]).1 == names.to_multiset().count(
        tallied(names)[i].0,
    ) && tallied(names)[i].0 == distinct(names)[i] by {
        lemma_times_counted(names, distinct(names)[i]);
    }
}

proof fn lemma_distinct_names(names: Seq<Seq<char>>)
    ensures
        distinct(names).no_duplicates(),
        forall|name: Seq<char>| #[trigger] distinct(names).contains(name) <==> names.contains(name),
    decreases names.len(),
{
    if names.len() > 0 {
        let front = names.drop_last();
        lemma_distinct_names(front);
        let all = distinct(names);
        let some = distinct(front);
        assert forall|name: Seq<char>| #[trigger] all.contains(name) <==> names.contains(name) by {
            if all.contains(name) {
                let i = choose|i: int| 0 <= i < all.len() && all[i] == name;
                if i < some.len() {
                    assert(some[i] == name);
                    assert(some.contains(name));
                    let j = choose|j: int| 0 <= j < front.len() && front[j] == name;
                    assert(names[j] == name);
                } else {
                    assert(names[names.len() - 1] == name);
                }
            }
            if names.contains(name) {
                let j = choose|j: int| 0 <= j < names.len() && names[j] == name;
                if j < front.len() {
                    assert(front[j] == name);
                    assert(some.contains(name));
                    let i = choose|i: int| 0 <= i < some.len() && some[i] == name;
                    assert(all[i] == name);
                } else if some.contains(name) {
                    let i = choose|i: int| 0 <= i < some.len() && some[i] == name;
                    assert(all[i] == name);
                } else {
                    assert(all[all.len() - 1] == name);
                }
            }
        }
    }
}

proof fn lemma_times_counted(names: Seq<Seq<char>>, name: Seq<char>)
    ensures
        times(names, name) == names.to_multiset().count(name),
    decreases names.len(),
{
    broadcast use vstd::seq_lib::group_to_multiset_ensures;

    if names.len() > 0 {
        lemma_times_counted(names.drop_last(), name);
        assert(names.drop_last().push(names.last()) =~= names);
    } else {
        assert(names.to_multiset().len() == 0);
    }
}

/// Ranking keeps what it ranks: the same counts, those of more before those of fewer.
pub proof fn ranking_keeps_the_counts(s: Seq<(Seq<char>, nat)>)
    ensures
        ranked(s).to_multiset() == s.to_multiset(),
        ranked(s).len() == s.len(),
        forall|i: int, j: int| 0 <= i < j < ranked(s).len() ==> (#[trigger] ranked(s)[i]).1 >= (#[trigger] ranked(s)[j]).1,
    decreases s.len(),
{
    broadcast use vstd::seq_lib::group_to_multiset_ensures;

    if s.len() > 0 {
        let front = s.drop_last();
        ranking_keeps_the_counts(front);
        let rest = ranked(front);
        lemma_place_within(rest, s.last());
        vstd::seq_lib::to_multiset_insert(rest, place(rest, s.last()), s.last());
        assert(front.push(s.last()) =~= s);
    }
    assert forall|i: int, j: int| 0 <= i < j < ranked(s).len() implies (#[trigger] ranked(s)[i]).1 >= (#[trigger] ranked(
        s,
    )[j]).1 by {
        ranking_is_ordered(s, i, j);
    }
}

proof fn lemma_place_within(s: Seq<(Seq<char>, nat)>, x: (Seq<char>, nat))
    ensures
        0 <= place(s, x) <= s.len(),
    decreases s.len(),
{
    if s.len() > 0 && !before(x, s[0]) {
        lemma_place_within(s.drop_first(), x);
    }
}

/// A record of changes counts one file, with the lines that were put in and taken out.
pub proof fn changed_lines_are_counted(inserted: u64, deleted: u64, name: Seq<char>, strict: bool)
    ensures
        stat_of(decimal(inserted as nat) + seq!['\t'] + decimal(deleted as nat) + seq!['\t'] + name, strict) == Some(
            (inserted, deleted),
        ),
{
    let a = decimal(inserted as nat);
    let b = decimal(deleted as nat);
    decimal_is_read_back(inserted);
    decimal_is_read_back(deleted);
    let s = a + seq!['\t'] + b + seq!['\t'] + name;
    assert(s =~= a + seq!['\t'] + (b + seq!['\t'] + name));
    lemma_pieces_joined(a, b + seq!['\t'] + name, '\t');
    lemma_pieces_joined(b, name, '\t');
    lemma_first_index(a, '\t');
    lemma_first_index(b, '\t');
    assert(pieces(a, '\t') =~= seq![a]);
    assert(pieces(b, '\t') =~= seq![b]);
    let f = pieces(s, '\t');
    assert(f[0] == a && f[1] == b);
}

/// Records of changes add up: each one counts a file and its lines to what came before.
pub proof fn changes_add_up(records: Seq<Seq<char>>, record: Seq<char>, strict: bool)
    ensures
        ({
            let (files, ins, dels) = stats_of(records, strict, records.len() as int);
            let all = stats_of(records.push(record), strict, records.len() as int + 1);
            match stat_of(record, strict) {
                Some((a, b)) => files < u64::MAX && ins + a <= u64::MAX && dels + b <= u64::MAX ==> all == (
                    (files + 1) as u64,
                    (ins + a) as u64,
                    (dels + b) as u64,
                ),
                None => all == (files, ins, dels),
            }
        }),
{
    lemma_stats_of_beginning(records, record, strict, records.len() as int);
}

proof fn lemma_stats_of_beginning(records: Seq<Seq<char>>, record: Seq<char>, strict: bool, n: int)
    requires
        0 <= n <= records.len(),
    ensures
        stats_of(records.push(record), strict, n) == stats_of(records, strict, n),
    decreases n,
{
    if n > 0 {
        lemma_stats_of_beginning(records, record, strict, n - 1);
        assert(records.push(record)[n - 1] == records[n - 1]);
    }
}

/// Empty texts are left out, and no others.
pub proof fn empty_texts_are_left_out(texts: Seq<Seq<char>>, x: Seq<char>)
    ensures
        nonempty(texts).contains(x) <==> texts.contains(x) && x.len() > 0,
    decreases texts.len(),
{
    if texts.len() > 0 {
        let front = texts.drop_last();
        empty_texts_are_left_out(front, x);
        let all = nonempty(texts);
        let some = nonempty(front);
        if all.contains(x) {
            let k = choose|k: int| 0 <= k < all.len() && all[k] == x;
            if k < some.len() {
                assert(some[k] == x);
                let i = choose|i: int| 0 <= i < front.len() && front[i] == x;
                assert(texts[i] == x);
            } else {
                assert(texts[texts.len() - 1] == x);
            }
        }
        if texts.contains(x) && x.len() > 0 {
            let i = choose|i: int| 0 <= i < texts.len() && texts[i] == x;
            if i < front.len() {
                assert(front[i] == x);
                let k = choose|k: int| 0 <= k < some.len() && some[k] == x;
                assert(all[k] == x);
            } else {
                assert(all[all.len() - 1] == x);
            }
        }
    }
}

} // verus!
