//! Paths as text, taken apart the way the host's file system does: empty parts
//! and `.` do not count, except for a `.` at the beginning of a relative path.

use crate::text::{
    cat2, cat3, chars_of, lemma_first_index, lemma_pieces_joined, opt_view, pieces, pieces_make_up_the_text, same,
    slice_text, split, text_of, views,
};
use vstd::prelude::*;

verus! {

/// A part of a path that counts.
pub open spec fn counts(part: Seq<char>) -> bool {
    part.len() > 0 && part != "."@
}

/// The parts that count.
pub open spec fn counted(parts: Seq<Seq<char>>) -> Seq<Seq<char>>
    decreases parts.len(),
{
    if parts.len() == 0 {
        Seq::empty()
    } else if counts(parts.last()) {
        counted(parts.drop_last()).push(parts.last())
    } else {
        counted(parts.drop_last())
    }
}

pub open spec fn absolute(p: Seq<char>) -> bool {
    p.len() > 0 && p[0] == '/'
}

/// The components of a path: `/` for the root, `.` for a leading dot, and names.
pub open spec fn components(p: Seq<char>) -> Seq<Seq<char>> {
    let parts = pieces(p, '/');
    (if absolute(p) {
        seq!["/"@]
    } else if parts[0] == "."@ {
        seq!["."@]
    } else {
        Seq::empty()
    }) + counted(parts)
}

/// `base` is `p` or one of the directories above it.
pub open spec fn under(p: Seq<char>, base: Seq<char>) -> bool {
    components(base).is_prefix_of(components(p))
}

/// Whether `..` is among the components.
pub open spec fn climbs(p: Seq<char>) -> bool {
    components(p).contains(".."@)
}

/// The last component, where it is a name.
pub open spec fn file_name(p: Seq<char>) -> Option<Seq<char>> {
    let c = components(p);
    if c.len() > 0 && c.last() != "/"@ && c.last() != "."@ && c.last() != ".."@ {
        Some(c.last())
    } else {
        None
    }
}

/// The least `m` from `n` on for which the first `m` characters have the
/// components `target`.
pub open spec fn shortest_from(p: Seq<char>, target: Seq<Seq<char>>, n: int) -> int
    decreases p.len() - n,
{
    if n >= p.len() || components(p.take(n)) == target {
        n
    } else {
        shortest_from(p, target, n + 1)
    }
}

/// The path without its last component.
pub open spec fn parent(p: Seq<char>) -> Option<Seq<char>> {
    let c = components(p);
    if c.len() == 0 || c.last() == "/"@ {
        None
    } else {
        Some(p.take(shortest_from(p, c.drop_last(), 0)))
    }
}

/// `base` followed by `p`; an absolute `p` stands for itself.
pub open spec fn joined(base: Seq<char>, p: Seq<char>) -> Seq<char> {
    if absolute(p) {
        p
    } else if base.len() > 0 && base.last() != '/' {
        base + "/"@ + p
    } else {
        base + p
    }
}

/// Where the last `.` stands, or -1.
pub open spec fn last_dot(s: Seq<char>) -> int
    decreases s.len(),
{
    if s.len() == 0 {
        -1
    } else if s.last() == '.' {
        s.len() - 1
    } else {
        last_dot(s.drop_last())
    }
}

/// What stands behind the last dot of a name that does not begin with it.
pub open spec fn extension(p: Seq<char>) -> Option<Seq<char>> {
    match file_name(p) {
        Some(name) => if last_dot(name) > 0 {
            Some(name.skip(last_dot(name) + 1))
        } else {
            None
        },
        None => None,
    }
}

pub fn is_absolute(p: &str) -> (r: bool)
    ensures
        r == absolute(p@),
{
    let chars = chars_of(p);
    chars.len() > 0 && chars[0] == '/'
}

fn counts_here(part: &str) -> (r: bool)
    ensures
        r == counts(part@),
{
    !part.is_empty() && !same(part, ".")
}

/// The components of a path.
pub fn components_of(p: &str) -> (r: Vec<String>)
    ensures
        views(r@) == components(p@),
{
    let parts = split(p, '/');
    let mut r: Vec<String> = Vec::new();
    let ghost mut lead: Seq<Seq<char>> = Seq::empty();
    if is_absolute(p) {
        r.push("/".to_owned());
        proof {
            lead = seq!["/"@];
        }
    } else if same(&parts[0], ".") {
        r.push(".".to_owned());
        proof {
            lead = seq!["."@];
        }
    }
    assert(views(r@) =~= lead + counted(views(parts@).take(0)));
    let mut i: usize = 0;
    while i < parts.len()
        invariant
            i <= parts@.len(),
            views(r@) == lead + counted(views(parts@).take(i as int)),
        decreases parts@.len() - i,
    {
        let ghost now = views(parts@).take(i + 1);
        assert(now.drop_last() =~= views(parts@).take(i as int));
        if counts_here(&parts[i]) {
            let ghost before = views(r@);
            r.push(parts[i].clone());
            assert(views(r@) =~= before.push(parts@[i as int]@));
            assert(views(r@) =~= lead + counted(now));
        }
        i = i + 1;
    }
    assert(views(parts@).take(i as int) =~= views(parts@));
    r
}

fn equal_lists(a: &Vec<String>, b: &Vec<String>, n: usize) -> (r: bool)
    requires
        n <= a@.len(),
        n <= b@.len(),
    ensures
        r == (views(a@).take(n as int) == views(b@).take(n as int)),
{
    let mut i: usize = 0;
    while i < n
        invariant
            i <= n,
            n <= a@.len(),
            n <= b@.len(),
            forall|j: int| 0 <= j < i ==> (#[trigger] a@[j])@ == b@[j]@,
        decreases n - i,
    {
        if !same(&a[i], &b[i]) {
            assert(views(a@).take(n as int)[i as int] != views(b@).take(n as int)[i as int]);
            return false;
        }
        i = i + 1;
    }
    assert(views(a@).take(n as int) =~= views(b@).take(n as int));
    true
}

/// Whether `base` is `p` or a directory above it.
pub fn is_under(p: &str, base: &str) -> (r: bool)
    ensures
        r == under(p@, base@),
{
    let a = components_of(p);
    let b = components_of(base);
    if b.len() > a.len() {
        return false;
    }
    let r = equal_lists(&a, &b, b.len());
    proof {
        let n = b@.len() as int;
        assert(views(b@).take(n) =~= views(b@));
        assert(views(a@).take(n) =~= views(a@).subrange(0, n));
    }
    r
}

/// Whether `..` is among the components.
pub fn has_parent_part(p: &str) -> (r: bool)
    ensures
        r == climbs(p@),
{
    crate::order::has(&components_of(p), "..")
}

/// The last component, where it is a name.
pub fn file_name_of(p: &str) -> (r: Option<String>)
    ensures
        opt_view(r) == file_name(p@),
{
    let c = components_of(p);
    if c.len() > 0 && !same(&c[c.len() - 1], "/") && !same(&c[c.len() - 1], ".") && !same(&c[c.len() - 1], "..") {
        Some(c[c.len() - 1].clone())
    } else {
        None
    }
}

/// The path without its last component.
pub fn parent_of(p: &str) -> (r: Option<String>)
    ensures
        opt_view(r) == parent(p@),
{
    let c = components_of(p);
    if c.len() == 0 || same(&c[c.len() - 1], "/") {
        return None;
    }
    let chars = chars_of(p);
    let ghost target = components(p@).drop_last();
    assert(views(c@).take(c@.len() - 1) =~= target);
    let mut n: usize = 0;
    let total = chars.len();
    while n < total
        invariant
            n <= total,
            total == chars@.len(),
            chars@ == p@,
            c@.len() > 0,
            views(c@).take(c@.len() - 1) == target,
            parent(p@) == Some(p@.take(shortest_from(p@, target, 0))),
            shortest_from(p@, target, n as int) == shortest_from(p@, target, 0),
        decreases total - n,
    {
        let head = slice_text(&chars, 0, n);
        assert(head@ =~= p@.take(n as int));
        let h = components_of(&head);
        if h.len() == c.len() - 1 && equal_lists(&h, &c, h.len()) {
            assert(views(h@).take(h@.len() as int) =~= views(h@));
            assert(components(p@.take(n as int)) == target);
            return Some(head);
        }
        proof {
            assert(views(h@).take(h@.len() as int) =~= views(h@));
            if views(h@) == target {
                assert(h@.len() == c@.len() - 1);
            }
        }
        n = n + 1;
    }
    let all = text_of(&chars);
    assert(p@.take(total as int) =~= p@);
    Some(all)
}

/// `base` followed by `p`.
pub fn join(base: &str, p: &str) -> (r: String)
    ensures
        r@ == joined(base@, p@),
{
    if is_absolute(p) {
        return p.to_owned();
    }
    let b = chars_of(base);
    if b.len() > 0 && b[b.len() - 1] != '/' {
        cat3(base, "/", p)
    } else {
        cat2(base, p)
    }
}

/// What stands behind the last dot of the file name.
pub fn extension_of(p: &str) -> (r: Option<String>)
    ensures
        opt_view(r) == extension(p@),
{
    let name = match file_name_of(p) {
        Some(name) => name,
        None => return None,
    };
    let chars = chars_of(&name);
    let mut n: usize = chars.len();
    assert(chars@.take(n as int) =~= chars@);
    while n > 0 && chars[n - 1] != '.'
        invariant
            n <= chars@.len(),
            chars@ == name@,
            last_dot(chars@.take(n as int)) == last_dot(name@),
        decreases n,
    {
        assert(chars@.take(n as int).drop_last() =~= chars@.take(n - 1));
        n = n - 1;
    }
    if n > 1 {
        let ext = slice_text(&chars, n, chars.len());
        assert(ext@ =~= name@.skip(n as int));
        Some(ext)
    } else {
        None
    }
}

proof fn lemma_counted_adds(a: Seq<Seq<char>>, b: Seq<Seq<char>>)
    ensures
        counted(a + b) == counted(a) + counted(b),
    decreases b.len(),
{
    if b.len() == 0 {
        assert(a + b =~= a);
        assert(counted(a) + counted(b) =~= counted(a));
    } else {
        assert((a + b).drop_last() =~= a + b.drop_last());
        assert((a + b).last() == b.last());
        lemma_counted_adds(a, b.drop_last());
        assert(counted(a + b) =~= counted(a) + counted(b));
    }
}

/// A plain name: one that is a part of a path by itself.
pub open spec fn plain_name(name: Seq<char>) -> bool {
    name.len() > 0 && name != "."@ && name != ".."@ && !name.contains('/')
}

/// A name that is put behind a path becomes its last part and leaves the others: the new
/// path lies under the old one and ends with the name.
pub proof fn joined_paths_lie_under(base: Seq<char>, name: Seq<char>)
    requires
        plain_name(name),
        base.len() > 0,
    ensures
        components(joined(base, name)) == components(base).push(name),
        under(joined(base, name), base),
        file_name(joined(base, name)) == Some(name),
{
    reveal_strlit("/");
    reveal_strlit(".");
    reveal_strlit("..");
    assert(!absolute(name)) by {
        if absolute(name) {
            assert(name[0] == '/');
        }
    }
    let p = joined(base, name);
    assert("/"@ =~= seq!['/']);
    lemma_first_index(name, '/');
    assert(pieces(name, '/') =~= seq![name]);
    assert(p[0] == base[0]);
    assert(counted(seq![name]) =~= seq![name]) by {
        assert(seq![name].drop_last() =~= Seq::empty());
        reveal_with_fuel(counted, 2);
    }
    if base.last() != '/' {
        assert(p =~= base + seq!['/'] + name);
        lemma_pieces_joined(base, name, '/');
        lemma_counted_adds(pieces(base, '/'), pieces(name, '/'));
        pieces_make_up_the_text(base, '/');
        assert(pieces(p, '/')[0] == pieces(base, '/')[0]);
    } else {
        let front = base.drop_last();
        assert(base =~= front + seq!['/'] + Seq::<char>::empty());
        assert(p =~= front + seq!['/'] + name);
        lemma_pieces_joined(front, Seq::empty(), '/');
        lemma_pieces_joined(front, name, '/');
        lemma_first_index(Seq::empty(), '/');
        assert(pieces(Seq::empty(), '/') =~= seq![Seq::<char>::empty()]);
        assert(counted(seq![Seq::<char>::empty()]) =~= Seq::empty()) by {
            assert(seq![Seq::<char>::empty()].drop_last() =~= Seq::empty());
            reveal_with_fuel(counted, 2);
        }
        lemma_counted_adds(pieces(front, '/'), pieces(name, '/'));
        lemma_counted_adds(pieces(front, '/'), pieces(Seq::empty(), '/'));
        pieces_make_up_the_text(front, '/');
        assert(pieces(p, '/')[0] == pieces(front, '/')[0]);
        assert(pieces(base, '/')[0] == pieces(front, '/')[0]);
        assert(counted(pieces(base, '/')) =~= counted(pieces(front, '/')));
    }
    assert(components(p) =~= components(base).push(name));
    assert(components(p).last() == name);
    if name == "/"@ {
        assert(name[0] == '/');
    }
}

/// What lies under a path lies under what that one lies under; every path lies under
/// itself, and an absolute one under the root.
pub proof fn lying_under_is_an_order(a: Seq<char>, b: Seq<char>, c: Seq<char>)
    ensures
        under(a, a),
        under(a, b) && under(b, c) ==> under(a, c),
        under(a, b) && under(b, a) ==> components(a) == components(b),
        a.len() > 0 && a[0] == '/' ==> under(a, "/"@),
{
    reveal_strlit("/");
    if under(a, b) && under(b, a) {
        assert(components(a) =~= components(b));
    }
    let root = "/"@;
    assert(root =~= Seq::<char>::empty() + seq!['/'] + Seq::<char>::empty());
    lemma_pieces_joined(Seq::empty(), Seq::empty(), '/');
    lemma_first_index(Seq::empty(), '/');
    let none = Seq::<char>::empty();
    assert(pieces(none, '/') =~= seq![none]);
    assert(counted(seq![none]) =~= Seq::empty()) by {
        assert(seq![none].drop_last() =~= Seq::empty());
        reveal_with_fuel(counted, 2);
    }
    lemma_counted_adds(seq![none], seq![none]);
    assert(components(root) =~= seq![root]);
}

/// A path climbs exactly where one of its parts names the directory above.
pub proof fn climbing_parts_are_seen(base: Seq<char>, rest: Seq<char>)
    ensures
        climbs(base + "/../"@ + rest),
        climbs(".."@),
        climbs("../"@ + rest),
        climbs(base + "/.."@),
{
    reveal_strlit("/../");
    reveal_strlit("..");
    reveal_strlit("../");
    reveal_strlit("/..");
    reveal_strlit(".");
    let up = ".."@;
    assert(up =~= seq!['.', '.']);
    lemma_up_counts(base, rest);
    assert(base + "/../"@ + rest =~= base + seq!['/'] + (up + seq!['/'] + rest));
    assert("../"@ + rest =~= up + seq!['/'] + rest);
    assert(base + "/.."@ =~= base + seq!['/'] + up);
}

proof fn lemma_up_counts(base: Seq<char>, rest: Seq<char>)
    ensures
        climbs(base + seq!['/'] + (".."@ + seq!['/'] + rest)),
        climbs(".."@ + seq!['/'] + rest),
        climbs(base + seq!['/'] + ".."@),
        climbs(".."@),
{
    reveal_strlit("..");
    reveal_strlit(".");
    let up = ".."@;
    lemma_first_index(up, '/');
    assert(pieces(up, '/') =~= seq![up]);
    assert(counted(seq![up]) =~= seq![up]) by {
        assert(seq![up].drop_last() =~= Seq::empty());
        reveal_with_fuel(counted, 2);
    }
    let tail = up + seq!['/'] + rest;
    lemma_pieces_joined(up, rest, '/');
    lemma_counted_adds(seq![up], pieces(rest, '/'));
    lemma_pieces_joined(base, tail, '/');
    lemma_counted_adds(pieces(base, '/'), pieces(tail, '/'));
    lemma_pieces_joined(base, up, '/');
    lemma_counted_adds(pieces(base, '/'), pieces(up, '/'));
    lemma_counted_holds(up, Seq::empty(), Seq::empty(), up);
    lemma_counted_holds(tail, Seq::empty(), counted(pieces(rest, '/')), up);
    let whole = base + seq!['/'] + tail;
    assert(counted(pieces(whole, '/')) =~= counted(pieces(base, '/')) + seq![up] + counted(pieces(rest, '/')));
    lemma_counted_holds(whole, counted(pieces(base, '/')), counted(pieces(rest, '/')), up);
    lemma_counted_holds(base + seq!['/'] + up, counted(pieces(base, '/')), Seq::empty(), up);
}

proof fn lemma_counted_holds(p: Seq<char>, before: Seq<Seq<char>>, after: Seq<Seq<char>>, part: Seq<char>)
    requires
        counted(pieces(p, '/')) == before + seq![part] + after,
    ensures
        components(p).contains(part),
{
    let c = components(p);
    let k = c.len() - counted(pieces(p, '/')).len() + before.len();
    assert(counted(pieces(p, '/'))[before.len() as int] == part);
    assert(c[k] == part);
}

/// Where the last dot of a text stands.
pub proof fn lemma_last_dot(s: Seq<char>, k: int)
    requires
        0 <= k < s.len(),
        s[k] == '.',
        forall|i: int| k < i < s.len() ==> s[i] != '.',
    ensures
        last_dot(s) == k,
    decreases s.len(),
{
    if k < s.len() - 1 {
        assert(s.last() != '.');
        lemma_last_dot(s.drop_last(), k);
    }
}

/// The extension of a file is what stands behind the last dot of its name.
pub proof fn extensions_stand_behind_the_last_dot(p: Seq<char>, stem: Seq<char>, end: Seq<char>)
    requires
        file_name(p) == Some(stem + seq!['.'] + end),
        stem.len() > 0,
        !end.contains('.'),
    ensures
        extension(p) == Some(end),
{
    let name = stem + seq!['.'] + end;
    assert forall|i: int| stem.len() < i < name.len() implies name[i] != '.' by {
        assert(name[i] == end[i - stem.len() - 1]);
        assert(end.contains(end[i - stem.len() - 1]));
    }
    lemma_last_dot(name, stem.len() as int);
    assert(name.skip(stem.len() as int + 1) =~= end);
}

} // verus!
