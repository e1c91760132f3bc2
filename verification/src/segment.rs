//! Shell commands taken apart at their separators, for the strict mode in which
//! every part must be allowed.

use crate::policy::{allowed_command, Policy};
use crate::text::{
    among, chars_of, opt_view, same, slice_text, split_words, str_views, trim, trim_end, trim_start, trimmed,
    views, white, words,
};
use vstd::prelude::*;

verus! {

/// Where the command is next cut from `i` on, and how many characters the
/// separator takes: `&&`, `||`, `;` or `|` outside quotes and not behind a
/// backslash. Nothing is cut at the end.
pub open spec fn next_cut(s: Seq<char>, i: int, quote: Option<char>) -> (int, int)
    decreases s.len() - i,
{
    if i < 0 || i >= s.len() {
        (s.len() as int, 0)
    } else {
        let c = s[i];
        let more = i + 1 < s.len();
        match quote {
            Some(q) => if c == '\\' && more {
                next_cut(s, i + 2, quote)
            } else if c == q {
                next_cut(s, i + 1, None)
            } else {
                next_cut(s, i + 1, quote)
            },
            None => if c == '\'' || c == '"' {
                next_cut(s, i + 1, Some(c))
            } else if c == '\\' && more {
                next_cut(s, i + 2, None)
            } else if more && (c == '&' || c == '|') && s[i + 1] == c {
                (i, 2)
            } else if c == ';' || c == '|' {
                (i, 1)
            } else {
                next_cut(s, i + 1, None)
            },
        }
    }
}

proof fn lemma_next_cut(s: Seq<char>, i: int, quote: Option<char>)
    requires
        0 <= i,
    ensures
        next_cut(s, i, quote).1 > 0 ==> i <= next_cut(s, i, quote).0 && next_cut(s, i, quote).0 + next_cut(s, i, quote).1
            <= s.len(),
        next_cut(s, i, quote).1 >= 0,
        next_cut(s, i, quote).1 == 0 ==> next_cut(s, i, quote).0 == s.len(),
    decreases s.len() - i,
{
    if i < s.len() {
        let c = s[i];
        lemma_next_cut(s, i + 1, quote);
        lemma_next_cut(s, i + 1, None);
        if i + 1 < s.len() {
            lemma_next_cut(s, i + 2, quote);
            lemma_next_cut(s, i + 2, None);
        }
        lemma_next_cut(s, i + 1, Some(c));
    }
}

/// The list with `piece`, trimmed, in front, unless it is blank.
pub open spec fn with_piece(piece: Seq<char>, rest: Seq<Seq<char>>) -> Seq<Seq<char>> {
    if trimmed(piece).len() > 0 {
        seq![trimmed(piece)] + rest
    } else {
        rest
    }
}

/// The parts of the command from `from` on between its cuts, trimmed, without
/// blank ones.
pub open spec fn segments(s: Seq<char>, from: int) -> Seq<Seq<char>>
    decreases s.len() - from,
{
    let cut = next_cut(s, from, None);
    if from < 0 || from > s.len() {
        Seq::empty()
    } else if cut.1 <= 0 || cut.0 < from || cut.0 + cut.1 > s.len() {
        with_piece(s.subrange(from, s.len() as int), Seq::empty())
    } else {
        with_piece(s.subrange(from, cut.0), segments(s, cut.0 + cut.1))
    }
}

fn find_cut(chars: &Vec<char>, from: usize) -> (r: (usize, usize))
    requires
        from <= chars@.len(),
    ensures
        r.0 == next_cut(chars@, from as int, None).0,
        r.1 == next_cut(chars@, from as int, None).1,
        from <= r.0,
        r.0 + r.1 <= chars@.len(),
{
    let total = chars.len();
    let mut i: usize = from;
    let mut quote: Option<char> = None;
    while i < total
        invariant
            from <= i,
            i <= total,
            total == chars@.len(),
            next_cut(chars@, i as int, quote) == next_cut(chars@, from as int, None),
        decreases total - i,
    {
        let c = chars[i];
        let more = i < total - 1;
        match quote {
            Some(q) => {
                if c == '\\' && more {
                    i = i + 2;
                } else {
                    if c == q {
                        quote = None;
                    }
                    i = i + 1;
                }
            },
            None => {
                if c == '\'' || c == '"' {
                    quote = Some(c);
                    i = i + 1;
                } else if c == '\\' && more {
                    i = i + 2;
                } else if more && (c == '&' || c == '|') && chars[i + 1] == c {
                    return (i, 2);
                } else if c == ';' || c == '|' {
                    return (i, 1);
                } else {
                    i = i + 1;
                }
            },
        }
    }
    (total, 0)
}

/// The parts of a command between its separators, trimmed, without blank ones.
pub fn split_top_level(command: &str) -> (r: Vec<String>)
    ensures
        views(r@) == segments(command@, 0),
{
    let chars = chars_of(command);
    let mut out: Vec<String> = Vec::new();
    let mut from: usize = 0;
    assert(views(out@) + segments(command@, 0) =~= segments(command@, 0));
    let total = chars.len();
    loop
        invariant
            from <= chars@.len(),
            total == chars@.len(),
            chars@ == command@,
            views(out@) + segments(command@, from as int) == segments(command@, 0),
        decreases chars@.len() - from,
    {
        let (at, width) = find_cut(&chars, from);
        let piece = trim(&slice_text(&chars, from, at));
        let ghost before = views(out@);
        let kept = !piece.as_str().is_empty();
        if kept {
            out.push(piece);
            assert(views(out@) =~= before.push(piece@));
        }
        if width == 0 {
            proof {
                lemma_next_cut(chars@, from as int, None);
                assert(segments(command@, from as int) =~= with_piece(
                    command@.subrange(from as int, command@.len() as int),
                    Seq::empty(),
                ));
                assert(views(out@) =~= before + segments(command@, from as int));
            }
            return out;
        }
        proof {
            let rest = segments(command@, at + width);
            assert(before + with_piece(command@.subrange(from as int, at as int), rest) =~= views(out@) + rest);
        }
        from = at + width;
    }
}

/// The sign of the first command substitution from `i` on: outside single quotes
/// and not behind a backslash.
pub open spec fn substitution(s: Seq<char>, i: int, quote: Option<char>) -> Option<Seq<char>>
    decreases s.len() - i,
{
    if i < 0 || i >= s.len() {
        None
    } else {
        let c = s[i];
        let more = i + 1 < s.len();
        if quote == Some('\'') {
            substitution(
                s,
                i + 1,
                if c == '\'' {
                    None
                } else {
                    quote
                },
            )
        } else if c == '\\' && more {
            substitution(s, i + 2, quote)
        } else if quote == Some('"') && c == '"' {
            substitution(s, i + 1, None)
        } else if quote != Some('"') && (c == '\'' || c == '"') {
            substitution(s, i + 1, Some(c))
        } else if c == '$' && more && s[i + 1] == '(' {
            Some("$("@)
        } else if c == '`' {
            Some("`"@)
        } else {
            substitution(s, i + 1, quote)
        }
    }
}

/// The sign of the first command substitution in a command.
pub fn has_substitution(command: &str) -> (r: Option<&'static str>)
    ensures
        match r {
            Some(sign) => substitution(command@, 0, None) == Some(sign@),
            None => substitution(command@, 0, None) is None,
        },
{
    let chars = chars_of(command);
    let total = chars.len();
    let mut i: usize = 0;
    let mut quote: Option<char> = None;
    while i < total
        invariant
            i <= total,
            total == chars@.len(),
            chars@ == command@,
            quote matches Some(q) ==> q == '\'' || q == '"',
            substitution(command@, i as int, quote) == substitution(command@, 0, None),
        decreases total - i,
    {
        let c = chars[i];
        let more = i < total - 1;
        let single = match quote {
            Some(q) => q == '\'',
            None => false,
        };
        let double = match quote {
            Some(q) => q == '"',
            None => false,
        };
        if single {
            if c == '\'' {
                quote = None;
            }
            i = i + 1;
        } else if c == '\\' && more {
            i = i + 2;
        } else if double && c == '"' {
            quote = None;
            i = i + 1;
        } else if !double && (c == '\'' || c == '"') {
            quote = Some(c);
            i = i + 1;
        } else if c == '$' && more && chars[i + 1] == '(' {
            return Some("$(");
        } else if c == '`' {
            return Some("`");
        } else {
            i = i + 1;
        }
    }
    None
}

/// The first word of a part, or nothing.
pub open spec fn leading_word(s: Seq<char>) -> Seq<char> {
    if words(s).len() > 0 {
        words(s)[0]
    } else {
        ""@
    }
}

/// The first word of `segment`.
pub fn first_word(segment: &str) -> (r: String)
    ensures
        r@ == leading_word(segment@),
{
    let w = split_words(segment);
    if w.len() > 0 {
        w[0].clone()
    } else {
        "".to_owned()
    }
}

/// Programs that only transform what they are fed.
pub open spec fn filters() -> Seq<Seq<char>> {
    seq![
        "head"@, "tail"@, "sort"@, "uniq"@, "wc"@, "cut"@, "tr"@, "grep"@, "egrep"@, "fgrep"@, "awk"@, "sed"@, "jq"@,
        "rg"@, "cat"@, "tee"@, "column"@, "rev"@, "tac"@, "nl"@, "fold"@, "paste"@, "join"@, "comm"@, "xxd"@, "base64"@,
        "md5sum"@, "sha256sum"@, "echo"@, "printf"@, "true"@, "false"@, "seq"@, "basename"@, "dirname"@, "realpath"@,
        "readlink"@, "date"@,
    ]
}

fn filter_names() -> (r: Vec<&'static str>)
    ensures
        str_views(r@) == filters(),
{
    let r = vec![
        "head", "tail", "sort", "uniq", "wc", "cut", "tr", "grep", "egrep", "fgrep", "awk", "sed", "jq", "rg", "cat", "tee",
        "column", "rev", "tac", "nl", "fold", "paste", "join", "comm", "xxd", "base64", "md5sum", "sha256sum", "echo",
        "printf", "true", "false", "seq", "basename", "dirname", "realpath", "readlink", "date",
    ];
    assert(str_views(r@) =~= filters());
    r
}

/// Whether the `i`-th part of a command may run: an allowed command, `cd`, or a
/// filter that is not the first.
pub open spec fn tolerated(allowed: Seq<Seq<char>>, segs: Seq<Seq<char>>, i: int) -> bool {
    ||| allowed_command(allowed, segs[i])
    ||| leading_word(segs[i]) == "cd"@
    ||| i > 0 && filters().contains(leading_word(segs[i]))
}

/// The first part from `i` on that may not run.
pub open spec fn first_refused(allowed: Seq<Seq<char>>, segs: Seq<Seq<char>>, i: int) -> Option<Seq<char>>
    decreases segs.len() - i,
{
    if i < 0 || i >= segs.len() {
        None
    } else if tolerated(allowed, segs, i) {
        first_refused(allowed, segs, i + 1)
    } else {
        Some(segs[i])
    }
}

/// The first part of a command that may not run under the policy.
pub fn unauthorised_segment(policy: &Policy, command: &str) -> (r: Option<String>)
    ensures
        opt_view(r) == first_refused(views(policy.allowed_commands@), segments(command@, 0), 0),
{
    let segs = split_top_level(command);
    let names = filter_names();
    let ghost allowed = views(policy.allowed_commands@);
    let mut i: usize = 0;
    while i < segs.len()
        invariant
            i <= segs@.len(),
            views(segs@) == segments(command@, 0),
            str_views(names@) == filters(),
            allowed == views(policy.allowed_commands@),
            first_refused(allowed, views(segs@), i as int) == first_refused(allowed, views(segs@), 0),
        decreases segs@.len() - i,
    {
        assert(views(segs@)[i as int] == segs@[i as int]@);
        let mut fine = policy.is_command_allowed(&segs[i]);
        if !fine {
            let word = first_word(&segs[i]);
            fine = same(&word, "cd") || (i > 0 && among(&word, &names));
        }
        if !fine {
            return Some(segs[i].clone());
        }
        i = i + 1;
    }
    None
}

/// A command without a refused part consists of parts that may each run.
pub proof fn accepted_parts_may_run(allowed: Seq<Seq<char>>, segs: Seq<Seq<char>>, from: int, i: int)
    requires
        0 <= from <= i < segs.len(),
        first_refused(allowed, segs, from) is None,
    ensures
        tolerated(allowed, segs, i),
    decreases segs.len() - from,
{
    if from < i {
        accepted_parts_may_run(allowed, segs, from + 1, i);
    }
}

/// Where a command is cut does not depend on what stands before.
proof fn lemma_cut_of_end(s: Seq<char>, k: int, i: int, quote: Option<char>)
    requires
        0 <= k <= s.len(),
        0 <= i,
    ensures
        next_cut(s.skip(k), i, quote).0 + k == next_cut(s, k + i, quote).0,
        next_cut(s.skip(k), i, quote).1 == next_cut(s, k + i, quote).1,
    decreases s.len() - k - i,
{
    let t = s.skip(k);
    if i < t.len() {
        let c = t[i];
        assert(c == s[k + i]);
        if i + 1 < t.len() {
            assert(t[i + 1] == s[k + i + 1]);
            lemma_cut_of_end(s, k, i + 2, quote);
        }
        lemma_cut_of_end(s, k, i + 1, quote);
        lemma_cut_of_end(s, k, i + 1, None);
        lemma_cut_of_end(s, k, i + 1, Some(c));
    }
}

/// What stands before the next cut is not cut.
proof fn lemma_uncut_before(s: Seq<char>, n: int, i: int, quote: Option<char>)
    requires
        0 <= n <= s.len(),
        0 <= i,
        next_cut(s, i, quote).1 == 0 || next_cut(s, i, quote).0 >= n,
    ensures
        next_cut(s.take(n), i, quote).1 == 0,
    decreases s.len() - i,
{
    let t = s.take(n);
    if i < n {
        let c = s[i];
        assert(t[i] == c);
        if i + 1 < n {
            assert(t[i + 1] == s[i + 1]);
        }
        let more = i + 1 < s.len();
        if c == '\\' && more {
            lemma_uncut_before(s, n, i + 2, quote);
            if i + 1 == n {
                assert(next_cut(t, n, quote).1 == 0 && next_cut(t, n, None).1 == 0);
            }
        } else if let Some(q) = quote {
            if c == q {
                lemma_uncut_before(s, n, i + 1, None);
            } else {
                lemma_uncut_before(s, n, i + 1, quote);
            }
        } else if c == '\'' || c == '"' {
            lemma_uncut_before(s, n, i + 1, Some(c));
        } else {
            assert(!(c == ';' || c == '|'));
            assert(!(more && c == '&' && s[i + 1] == c));
            lemma_uncut_before(s, n, i + 1, None);
        }
    }
}

/// A text without separators at its top level.
pub open spec fn uncut(s: Seq<char>) -> bool {
    next_cut(s, 0, None).1 == 0
}

proof fn lemma_trim_start_uncut(s: Seq<char>)
    requires
        uncut(s),
    ensures
        uncut(trim_start(s)),
    decreases s.len(),
{
    if s.len() > 0 && white(s[0]) {
        assert(next_cut(s, 0, None) == next_cut(s, 1, None));
        lemma_cut_of_end(s, 1, 0, None);
        assert(s.skip(1) =~= s.drop_first());
        lemma_trim_start_uncut(s.drop_first());
    }
}

proof fn lemma_trim_end_uncut(s: Seq<char>)
    requires
        uncut(s),
    ensures
        uncut(trim_end(s)),
    decreases s.len(),
{
    if s.len() > 0 && white(s.last()) {
        lemma_uncut_before(s, s.len() - 1, 0, None);
        assert(s.take(s.len() - 1) =~= s.drop_last());
        lemma_trim_end_uncut(s.drop_last());
    }
}

/// A trimmed piece without separators, split again, gives itself alone.
proof fn lemma_piece_alone(piece: Seq<char>)
    requires
        uncut(piece),
        trimmed(piece).len() > 0,
    ensures
        segments(trimmed(piece), 0) == seq![trimmed(piece)],
{
    lemma_trim_start_uncut(piece);
    lemma_trim_end_uncut(trim_start(piece));
    let t = trimmed(piece);
    lemma_next_cut(t, 0, None);
    assert(t.subrange(0, t.len() as int) =~= t);
    crate::text::lemma_trimmed_twice(piece);
    assert(segments(t, 0) =~= seq![t]);
}

proof fn lemma_parts_alone(command: Seq<char>, from: int, i: int)
    requires
        0 <= from <= command.len(),
        0 <= i < segments(command, from).len(),
    ensures
        segments(segments(command, from)[i], 0) == seq![segments(command, from)[i]],
    decreases command.len() - from,
{
    lemma_next_cut(command, from, None);
    let cut = next_cut(command, from, None);
    let end = command.skip(from);
    lemma_cut_of_end(command, from, 0, None);
    lemma_uncut_before(end, cut.0 - from, 0, None);
    let piece = command.subrange(from, cut.0);
    assert(end.take(cut.0 - from) =~= piece);
    let rest = if cut.1 == 0 {
        Seq::empty()
    } else {
        segments(command, cut.0 + cut.1)
    };
    assert(segments(command, from) == with_piece(piece, rest));
    if trimmed(piece).len() > 0 {
        lemma_piece_alone(piece);
        if i > 0 {
            assert(segments(command, from)[i] == rest[i - 1]);
            lemma_parts_alone(command, cut.0 + cut.1, i - 1);
        }
    } else {
        lemma_parts_alone(command, cut.0 + cut.1, i);
    }
}

/// No part of a command holds a separator of its own: split again, it gives itself
/// alone.
pub proof fn parts_are_not_split_further(command: Seq<char>, i: int)
    requires
        0 <= i < segments(command, 0).len(),
    ensures
        segments(segments(command, 0)[i], 0) == seq![segments(command, 0)[i]],
{
    lemma_parts_alone(command, 0, i);
}

/// A text without quotes and backslashes.
pub open spec fn unquoted(s: Seq<char>) -> bool {
    forall|i: int| 0 <= i < s.len() ==> #[trigger] s[i] != '\'' && s[i] != '"' && s[i] != '\\'
}

/// Up to a semicolon behind it, a text without quotes is cut as it is alone.
proof fn lemma_cut_of_start(a: Seq<char>, b: Seq<char>, i: int)
    requires
        unquoted(a),
        0 <= i <= a.len(),
    ensures
        next_cut(a + ";"@ + b, i, None) == if next_cut(a, i, None).1 > 0 {
            next_cut(a, i, None)
        } else {
            (a.len() as int, 1)
        },
    decreases a.len() - i,
{
    reveal_strlit(";");
    let s = a + ";"@ + b;
    if i < a.len() {
        let c = a[i];
        assert(s[i] == c);
        if i + 1 < a.len() {
            assert(s[i + 1] == a[i + 1]);
        } else {
            assert(s[i + 1] == ';');
        }
        lemma_cut_of_start(a, b, i + 1);
    } else {
        assert(s[i] == ';');
    }
}

proof fn lemma_segments_of_end(s: Seq<char>, k: int, from: int)
    requires
        0 <= k <= s.len(),
        0 <= from <= s.len() - k,
    ensures
        segments(s.skip(k), from) == segments(s, k + from),
    decreases s.len() - k - from,
{
    let t = s.skip(k);
    lemma_cut_of_end(s, k, from, None);
    lemma_next_cut(t, from, None);
    let cut = next_cut(t, from, None);
    assert(t.subrange(from, cut.0) =~= s.subrange(k + from, k + cut.0));
    if cut.1 > 0 {
        lemma_segments_of_end(s, k, cut.0 + cut.1);
    }
}

proof fn lemma_segments_joined(a: Seq<char>, b: Seq<char>, from: int)
    requires
        unquoted(a),
        0 <= from <= a.len(),
    ensures
        segments(a + ";"@ + b, from) == segments(a, from) + segments(b, 0),
    decreases a.len() - from,
{
    reveal_strlit(";");
    let s = a + ";"@ + b;
    lemma_cut_of_start(a, b, from);
    lemma_next_cut(a, from, None);
    let cut = next_cut(a, from, None);
    let n = a.len() as int;
    if cut.1 > 0 {
        assert(s.subrange(from, cut.0) =~= a.subrange(from, cut.0));
        lemma_segments_joined(a, b, cut.0 + cut.1);
    } else {
        assert(s.subrange(from, n) =~= a.subrange(from, n));
        assert(s.skip(n + 1) =~= b);
        lemma_segments_of_end(s, n + 1, 0);
    }
    assert(segments(s, from) =~= segments(a, from) + segments(b, 0));
}

/// The parts of two commands with a semicolon between them are those of the first, as
/// long as it has no quotes and backslashes, and then those of the second.
pub proof fn joined_commands_have_the_parts_of_both(a: Seq<char>, b: Seq<char>)
    requires
        unquoted(a),
    ensures
        segments(a + ";"@ + b, 0) == segments(a, 0) + segments(b, 0),
{
    lemma_segments_joined(a, b, 0);
}

/// A text without quotes, backslashes and signs of command substitution.
pub open spec fn harmless(s: Seq<char>) -> bool {
    forall|i: int| 0 <= i < s.len() ==> #[trigger] s[i] != '\'' && s[i] != '"' && s[i] != '\\' && s[i] != '$' && s[i] != '`'
}

proof fn lemma_substitution_behind(a: Seq<char>, rest: Seq<char>, i: int)
    requires
        harmless(a),
        0 <= i <= a.len(),
    ensures
        substitution(a + rest, i, None) == substitution(a + rest, a.len() as int, None),
    decreases a.len() - i,
{
    if i < a.len() {
        assert((a + rest)[i] == a[i]);
        lemma_substitution_behind(a, rest, i + 1);
    }
}

/// A command substitution behind plain text is found, with `$(` as with a backtick;
/// plain text alone has none.
pub proof fn substitutions_are_found(a: Seq<char>, rest: Seq<char>)
    requires
        harmless(a),
    ensures
        substitution(a + seq!['$', '('] + rest, 0, None) == Some("$("@),
        substitution(a + seq!['`'] + rest, 0, None) == Some("`"@),
        substitution(a + seq!['"', '$', '('] + rest, 0, None) == Some("$("@),
        substitution(a, 0, None) is None,
{
    let n = a.len() as int;
    let one = seq!['$', '('] + rest;
    let two = seq!['`'] + rest;
    let three = seq!['"', '$', '('] + rest;
    lemma_substitution_behind(a, one, 0);
    lemma_substitution_behind(a, two, 0);
    lemma_substitution_behind(a, three, 0);
    lemma_substitution_behind(a, Seq::empty(), 0);
    assert(a + seq!['$', '('] + rest =~= a + one);
    assert(a + seq!['`'] + rest =~= a + two);
    assert(a + seq!['"', '$', '('] + rest =~= a + three);
    assert(a + Seq::<char>::empty() =~= a);
    assert((a + one)[n] == '$' && (a + one)[n + 1] == '(');
    assert((a + two)[n] == '`');
    assert((a + three)[n] == '"' && (a + three)[n + 1] == '$' && (a + three)[n + 2] == '(');
    reveal_with_fuel(substitution, 3);
}

/// Single quotes keep a command substitution from being one.
pub proof fn single_quotes_hide_substitutions(a: Seq<char>, hidden: Seq<char>)
    requires
        harmless(a),
        !hidden.contains('\''),
    ensures
        substitution(a + seq!['\''] + hidden + seq!['\''], 0, None) is None,
{
    let rest = seq!['\''] + hidden + seq!['\''];
    let s = a + rest;
    assert(a + seq!['\''] + hidden + seq!['\''] =~= s);
    lemma_substitution_behind(a, rest, 0);
    assert(s[a.len() as int] == '\'');
    lemma_hidden(a, hidden, 0);
}

proof fn lemma_hidden(a: Seq<char>, hidden: Seq<char>, k: int)
    requires
        !hidden.contains('\''),
        0 <= k <= hidden.len(),
    ensures
        substitution(a + (seq!['\''] + hidden + seq!['\'']), a.len() + 1 + k, Some('\'')) is None,
    decreases hidden.len() - k,
{
    let s = a + (seq!['\''] + hidden + seq!['\'']);
    if k < hidden.len() {
        assert(s[a.len() + 1 + k] == hidden[k]);
        assert(hidden.contains(hidden[k]));
        lemma_hidden(a, hidden, k + 1);
    } else {
        assert(s[a.len() + 1 + k] == '\'');
        assert(substitution(s, s.len() as int, None) is None);
    }
}

/// Where no part of a command is refused, each of them begins with an allowed command,
/// changes the directory, or is a filter behind another part.
pub proof fn accepted_parts_are_allowed(allowed: Seq<Seq<char>>, segs: Seq<Seq<char>>, i: int)
    requires
        first_refused(allowed, segs, 0) is None,
        0 <= i < segs.len(),
    ensures
        ({
            ||| allowed_command(allowed, segs[i])
            ||| words(segs[i]).len() > 0 && words(segs[i])[0] == "cd"@
            ||| i > 0 && words(segs[i]).len() > 0 && filters().contains(words(segs[i])[0])
        }),
{
    accepted_parts_may_run(allowed, segs, 0, i);
    reveal_strlit("cd");
    reveal_strlit("");
    assert("cd"@.len() == 2 && ""@.len() == 0);
    lemma_filters();
}

/// The part that is refused is one of the command that may not run, and the first.
pub proof fn refused_part_may_not_run(allowed: Seq<Seq<char>>, segs: Seq<Seq<char>>, from: int)
    requires
        0 <= from,
    ensures
        first_refused(allowed, segs, from) matches Some(s) ==> segs.contains(s) && !allowed_command(allowed, s),
        0 <= from < segs.len() && !allowed_command(allowed, segs[from]) && !(words(segs[from]).len() > 0 && (words(
            segs[from],
        )[0] == "cd"@ || from > 0 && filters().contains(words(segs[from])[0]))) ==> first_refused(allowed, segs, from)
            == Some(segs[from]),
    decreases segs.len() - from,
{
    lemma_filters();
    reveal_strlit("cd");
    reveal_strlit("");
    assert("cd"@.len() == 2 && ""@.len() == 0);
    if from < segs.len() {
        refused_part_may_not_run(allowed, segs, from + 1);
        assert(segs.contains(segs[from]));
    }
}

/// No filter is empty, and none runs other programs.
proof fn lemma_filters()
    ensures
        !filters().contains(""@),
{
    reveal_strlit("");
    assert(""@.len() == 0);
    lemma_filters_are_plain(""@);
}

/// What changes files, gains privileges or runs other programs is no filter.
pub proof fn filters_only_filter()
    ensures
        !filters().contains("rm"@) && !filters().contains("mv"@) && !filters().contains("dd"@) && !filters().contains(
            "sh"@,
        ) && !filters().contains("bash"@) && !filters().contains("sudo"@) && !filters().contains("xargs"@)
            && !filters().contains("env"@) && !filters().contains("python3"@) && !filters().contains("curl"@)
            && !filters().contains("chmod"@) && !filters().contains("chown"@) && !filters().contains("kill"@),
{
    reveal_strlit("rm");
    reveal_strlit("mv");
    reveal_strlit("dd");
    reveal_strlit("sh");
    reveal_strlit("bash");
    reveal_strlit("sudo");
    reveal_strlit("xargs");
    reveal_strlit("env");
    reveal_strlit("python3");
    reveal_strlit("curl");
    reveal_strlit("chmod");
    reveal_strlit("chown");
    reveal_strlit("kill");
    lemma_filters_are_plain("rm"@);
    lemma_filters_are_plain("mv"@);
    lemma_filters_are_plain("dd"@);
    lemma_filters_are_plain("sh"@);
    lemma_filters_are_plain("bash"@);
    lemma_filters_are_plain("sudo"@);
    lemma_filters_are_plain("xargs"@);
    lemma_filters_are_plain("env"@);
    lemma_filters_are_plain("python3"@);
    lemma_filters_are_plain("curl"@);
    lemma_filters_are_plain("chmod"@);
    lemma_filters_are_plain("chown"@);
    lemma_filters_are_plain("kill"@);
}

/// The beginnings of the filters, by their lengths.
proof fn lemma_filters_are_plain(name: Seq<char>)
    ensures
        filters().contains(name) ==> name.len() >= 2,
        filters().contains(name) && name.len() == 2 ==> (name[0] == 'w' || name[0] == 't' || name[0] == 'j' || name[0] == 'r'
            && name[1] == 'g' || name[0] == 'n'),
        filters().contains(name) && name.len() == 3 ==> (name[0] == 'c' || name[0] == 'a' || name[0] == 's' || name[0] == 't'
            || name[0] == 'r' || name[0] == 'x'),
        filters().contains(name) && name.len() == 4 ==> (name[0] == 'h' || name[0] == 't' || name[0] == 's' && name[1] == 'o'
            || name[0] == 'u' || name[0] == 'g' || name[0] == 'f' || name[0] == 'j' || name[0] == 'c' && name[1] == 'o'
            || name[0] == 'e' || name[0] == 't' || name[0] == 'd'),
        filters().contains(name) && name.len() == 5 ==> (name[0] == 'e' || name[0] == 'f' || name[0] == 'p'),
        filters().contains(name) && name.len() == 7 ==> name[0] == 'd',
{
    reveal_strlit("head");
    reveal_strlit("tail");
    reveal_strlit("sort");
    reveal_strlit("uniq");
    reveal_strlit("wc");
    reveal_strlit("cut");
    reveal_strlit("tr");
    reveal_strlit("grep");
    reveal_strlit("egrep");
    reveal_strlit("fgrep");
    reveal_strlit("awk");
    reveal_strlit("sed");
    reveal_strlit("jq");
    reveal_strlit("rg");
    reveal_strlit("cat");
    reveal_strlit("tee");
    reveal_strlit("column");
    reveal_strlit("rev");
    reveal_strlit("tac");
    reveal_strlit("nl");
    reveal_strlit("fold");
    reveal_strlit("paste");
    reveal_strlit("join");
    reveal_strlit("comm");
    reveal_strlit("xxd");
    reveal_strlit("base64");
    reveal_strlit("md5sum");
    reveal_strlit("sha256sum");
    reveal_strlit("echo");
    reveal_strlit("printf");
    reveal_strlit("true");
    reveal_strlit("false");
    reveal_strlit("seq");
    reveal_strlit("basename");
    reveal_strlit("dirname");
    reveal_strlit("realpath");
    reveal_strlit("readlink");
    reveal_strlit("date");
    if filters().contains(name) {
        let i = choose|i: int| 0 <= i < filters().len() && filters()[i] == name;
        assert(filters().len() == 38);
        assert(filters()[0] == "head"@);
        assert(filters()[1] == "tail"@);
        assert(filters()[2] == "sort"@);
        assert(filters()[3] == "uniq"@);
        assert(filters()[4] == "wc"@);
        assert(filters()[5] == "cut"@);
        assert(filters()[6] == "tr"@);
        assert(filters()[7] == "grep"@);
        assert(filters()[8] == "egrep"@);
        assert(filters()[9] == "fgrep"@);
        assert(filters()[10] == "awk"@);
        assert(filters()[11] == "sed"@);
        assert(filters()[12] == "jq"@);
        assert(filters()[13] == "rg"@);
        assert(filters()[14] == "cat"@);
        assert(filters()[15] == "tee"@);
        assert(filters()[16] == "column"@);
        assert(filters()[17] == "rev"@);
        assert(filters()[18] == "tac"@);
        assert(filters()[19] == "nl"@);
        assert(filters()[20] == "fold"@);
        assert(filters()[21] == "paste"@);
        assert(filters()[22] == "join"@);
        assert(filters()[23] == "comm"@);
        assert(filters()[24] == "xxd"@);
        assert(filters()[25] == "base64"@);
        assert(filters()[26] == "md5sum"@);
        assert(filters()[27] == "sha256sum"@);
        assert(filters()[28] == "echo"@);
        assert(filters()[29] == "printf"@);
        assert(filters()[30] == "true"@);
        assert(filters()[31] == "false"@);
        assert(filters()[32] == "seq"@);
        assert(filters()[33] == "basename"@);
        assert(filters()[34] == "dirname"@);
        assert(filters()[35] == "realpath"@);
        assert(filters()[36] == "readlink"@);
        assert(filters()[37] == "date"@);
    }
}

} // verus!
