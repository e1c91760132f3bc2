//! A short account of a project: of its repository where it has one, else of its
//! directory.

use crate::ascii::{clipped, lowered, take_chars, to_lower};
use crate::digits::{decimal, decimal_is_read_back, parse_u64, parsed};
use crate::git_ops::GitFault;
use crate::handler_error::{fault, require_str, required_text, Fault, HandlerError};
use crate::json::{
    count, fields, get, group_json_views, lemma_get_put, lemma_object_view, no_fields, no_object, optional, set_field,
    string, strings, text_list, text_or_null, trees, Entries, Fields, Json, Num, Object, Tree,
};
use crate::paths::{last_dot, lemma_last_dot};
use crate::policy::{resolved, Policy, Resolution};
use crate::records::{
    add64, count_views, listed_paths, numstat_of, rank, ranked, read_numstat, record_texts, split_paths, split_records,
    sum64, tallied, tally,
};
use crate::text::{
    bytes_of, cat3, chars_of, contained, contains, debug_text, from_utf8_lossy, lemma_first_index, lemma_pieces_joined,
    lemma_word_end_is, lemma_words_skip, lines, lossy_text, once, opt_view, pieces, prefixed, quoted, rows, same,
    slice_text, split, split_once, split_words, starts_with, strip_prefix, stripped, trim, trimmed, views, white, words,
};
use vstd::prelude::*;

verus! {

pub const MAX_TOP_DIRS: usize = 40;

pub const MAX_EXTENSIONS: usize = 40;

pub const MAX_RECENT_COMMITS: usize = 10;

/// How many files of a directory are counted.
pub const MAX_FILES: u64 = 5000;

/// How much of a commit's subject is shown, in characters.
pub const SUBJECT_CHARS: usize = 120;

/// How much of a commit's name is shown, in characters.
pub const HEAD_CHARS: usize = 12;

/// A kind of files, by the end of a name.
pub open spec fn ending(name: Seq<char>) -> Seq<char> {
    let k = last_dot(name);
    if 0 <= k < name.len() - 1 && (name[0] != '.' || k > 0) {
        name.skip(k + 1)
    } else if name.len() > 0 && name[0] == '.' {
        "<dotfile>"@
    } else {
        "<none>"@
    }
}

/// A kind of files, by the end of a name.
pub fn extension(name: &str) -> (r: String)
    ensures
        r@ == ending(name@),
{
    let chars = chars_of(name);
    let mut n: usize = chars.len();
    assert(chars@.take(n as int) =~= chars@);
    while n > 0 && chars[n - 1] != '.'
        invariant
            n <= chars@.len(),
            chars@ == name@,
            last_dot(chars@.take(n as int)) == last_dot(name@),
        decreases n,
    {
        assert(chars@.take(n as int).drop_last() =~= chars@.take(n - 1));
        n = n - 1;
    }
    if n > 0 {
        assert(last_dot(chars@.take(n as int)) == n - 1);
        if n < chars.len() && (chars[0] != '.' || n > 1) {
            let r = slice_text(&chars, n, chars.len());
            assert(r@ =~= name@.skip(n as int));
            return r;
        }
    }
    if chars.len() > 0 && chars[0] == '.' {
        "<dotfile>".to_owned()
    } else {
        "<none>".to_owned()
    }
}

/// The directories at the top that paths lie in.
pub open spec fn heads(paths: Seq<Seq<char>>) -> Seq<Seq<char>>
    decreases paths.len(),
{
    if paths.len() == 0 {
        Seq::empty()
    } else {
        match once(paths.last(), '/') {
            Some((head, _)) => heads(paths.drop_last()).push(head),
            None => heads(paths.drop_last()),
        }
    }
}

/// The kind of a file, by its path.
pub open spec fn kind_of(path: Seq<char>) -> Seq<char> {
    lowered(ending(pieces(path, '/').last()))
}

/// The kinds of files.
pub open spec fn kinds(paths: Seq<Seq<char>>) -> Seq<Seq<char>> {
    Seq::new(paths.len(), |i: int| kind_of(paths[i]))
}

/// The first `n` names.
pub open spec fn first_names(list: Seq<(Seq<char>, nat)>, n: int) -> Seq<Seq<char>> {
    Seq::new(
        if list.len() < n {
            list.len()
        } else {
            n as nat
        },
        |i: int| list[i].0,
    )
}

/// The first `n` counts, each under its name.
pub open spec fn count_fields(list: Seq<(Seq<char>, nat)>, n: int) -> Fields
    decreases n,
{
    if n <= 0 || n > list.len() {
        no_fields()
    } else {
        count_fields(list, n - 1).with(list[n - 1].0, Tree::Number(Num::Pos(list[n - 1].1 as u64)))
    }
}

/// The commonest kinds with their counts.
pub open spec fn common_kinds(names: Seq<Seq<char>>) -> Fields {
    let list = ranked(tallied(names));
    count_fields(
        list,
        if list.len() < MAX_EXTENSIONS {
            list.len() as int
        } else {
            MAX_EXTENSIONS as int
        },
    )
}

fn count_object(list: &Vec<(String, u64)>) -> (r: Object)
    ensures
        fields(r@) == count_fields(
            count_views(list@),
            if list@.len() < MAX_EXTENSIONS {
                list@.len() as int
            } else {
                MAX_EXTENSIONS as int
            },
        ),
{
    let ghost all = count_views(list@);
    let total = if list.len() < MAX_EXTENSIONS {
        list.len()
    } else {
        MAX_EXTENSIONS
    };
    let mut o = no_object();
    let mut i: usize = 0;
    while i < total
        invariant
            i <= total <= list@.len(),
            all == count_views(list@),
            fields(o@) == count_fields(all, i as int),
        decreases total - i,
    {
        assert(all[i as int] == (list@[i as int].0@, list@[i as int].1 as nat));
        set_field(&mut o, &list[i].0, count(list[i].1));
        i = i + 1;
    }
    o
}

fn name_list(list: &Vec<(String, u64)>) -> (r: Vec<String>)
    ensures
        views(r@) == first_names(count_views(list@), MAX_TOP_DIRS as int),
{
    let total = if list.len() < MAX_TOP_DIRS {
        list.len()
    } else {
        MAX_TOP_DIRS
    };
    let mut out: Vec<String> = Vec::new();
    let mut i: usize = 0;
    while i < total
        invariant
            i <= total <= list@.len(),
            out@.len() == i,
            forall|j: int| 0 <= j < i ==> (#[trigger] out@[j])@ == list@[j].0@,
        decreases total - i,
    {
        out.push(list[i].0.clone());
        i = i + 1;
    }
    assert(views(out@) =~= first_names(count_views(list@), MAX_TOP_DIRS as int));
    out
}

fn head_list(paths: &Vec<String>) -> (r: Vec<String>)
    ensures
        views(r@) == heads(views(paths@)),
{
    let ghost all = views(paths@);
    let mut out: Vec<String> = Vec::new();
    let mut i: usize = 0;
    assert(views(out@) =~= heads(all.take(0)));
    while i < paths.len()
        invariant
            i <= paths@.len(),
            all == views(paths@),
            views(out@) == heads(all.take(i as int)),
        decreases paths@.len() - i,
    {
        assert(all.take(i + 1).drop_last() =~= all.take(i as int));
        assert(all.take(i + 1).last() == paths@[i as int]@);
        let ghost before = views(out@);
        if let Some((head, _)) = split_once(&paths[i], '/') {
            let ghost h = head@;
            out.push(head);
            assert(views(out@) =~= before.push(h));
        }
        i = i + 1;
    }
    assert(all.take(i as int) =~= all);
    out
}

fn kind_list(paths: &Vec<String>) -> (r: Vec<String>)
    ensures
        views(r@) == kinds(views(paths@)),
{
    let mut out: Vec<String> = Vec::new();
    let mut i: usize = 0;
    while i < paths.len()
        invariant
            i <= paths@.len(),
            out@.len() == i,
            forall|j: int| 0 <= j < i ==> (#[trigger] out@[j])@ == kind_of(paths@[j]@),
        decreases paths@.len() - i,
    {
        let parts = split(&paths[i], '/');
        let ghost known = pieces(paths@[i as int]@, '/');
        assert(known.len() == parts@.len());
        assert(known.last() == parts@[parts@.len() - 1]@);
        out.push(to_lower(&extension(&parts[parts.len() - 1])));
        i = i + 1;
    }
    assert(views(out@) =~= kinds(views(paths@)));
    out
}

/// What `git status` says of a repository.
pub struct RepoStatus {
    pub branch: Option<String>,
    pub detached: bool,
    pub head: Option<String>,
    pub ahead: u64,
    pub behind: u64,
    pub staged: u64,
    pub unstaged: u64,
    pub untracked: u64,
}

/// What a `RepoStatus` says.
pub struct Status {
    pub branch: Option<Seq<char>>,
    pub detached: bool,
    pub head: Option<Seq<char>>,
    pub ahead: int,
    pub behind: int,
    pub staged: int,
    pub unstaged: int,
    pub untracked: int,
}

impl View for RepoStatus {
    type V = Status;

    open spec fn view(&self) -> Status {
        Status {
            branch: opt_view(self.branch),
            detached: self.detached,
            head: opt_view(self.head),
            ahead: self.ahead as int,
            behind: self.behind as int,
            staged: self.staged as int,
            unstaged: self.unstaged as int,
            untracked: self.untracked as int,
        }
    }
}

pub open spec fn no_status() -> Status {
    Status {
        branch: None,
        detached: false,
        head: None,
        ahead: 0,
        behind: 0,
        staged: 0,
        unstaged: 0,
        untracked: 0,
    }
}

pub open spec fn count_in(text: Seq<char>) -> int {
    match parsed(text, 10, u64::MAX as int) {
        Some(n) => n,
        None => 0,
    }
}

/// How far a branch is ahead and behind, by the first `n` words.
pub open spec fn distances(w: Seq<Seq<char>>, n: int, ahead: int, behind: int) -> (int, int)
    decreases n,
{
    if n <= 0 || n > w.len() {
        (ahead, behind)
    } else {
        let (a, b) = distances(w, n - 1, ahead, behind);
        match stripped(w[n - 1], "+"@) {
            Some(v) => (count_in(v), b),
            None => match stripped(w[n - 1], "-"@) {
                Some(v) => (a, count_in(v)),
                None => (a, b),
            },
        }
    }
}

/// Whether the `k`-th mark of a changed file stands for a change.
pub open spec fn marked(line: Seq<char>, k: int) -> bool {
    let xy = bytes_of(
        if words(line).len() > 1 {
            words(line)[1]
        } else {
            ".."@
        },
    );
    k < xy.len() && xy[k] != 46
}

/// What a line of `git status --porcelain=v2 --branch` adds.
pub open spec fn with_line(s: Status, line: Seq<char>) -> Status {
    if prefixed(line, "# branch.head "@) {
        let value = trimmed(stripped(line, "# branch.head "@)->0);
        if value == "(detached)"@ {
            Status { detached: true, ..s }
        } else {
            Status { branch: Some(value), ..s }
        }
    } else if prefixed(line, "# branch.oid "@) {
        let value = trimmed(stripped(line, "# branch.oid "@)->0);
        if value != "(initial)"@ {
            Status { head: Some(clipped(value, HEAD_CHARS as int)), ..s }
        } else {
            s
        }
    } else if prefixed(line, "# branch.ab "@) {
        let w = words(stripped(line, "# branch.ab "@)->0);
        let (a, b) = distances(w, w.len() as int, s.ahead, s.behind);
        Status { ahead: a, behind: b, ..s }
    } else if prefixed(line, "1 "@) || prefixed(line, "2 "@) {
        Status {
            staged: s.staged + if marked(line, 0) {
                1int
            } else {
                0int
            },
            unstaged: s.unstaged + if marked(line, 1) {
                1int
            } else {
                0int
            },
            ..s
        }
    } else if prefixed(line, "? "@) {
        Status { untracked: s.untracked + 1, ..s }
    } else {
        s
    }
}

/// A line that another one, with the former name, belongs to.
pub open spec fn takes_two(line: Seq<char>) -> bool {
    !prefixed(line, "# branch.head "@) && !prefixed(line, "# branch.oid "@) && !prefixed(line, "# branch.ab "@) && prefixed(
        line,
        "2 "@,
    )
}

/// The status from the `i`-th line on.
pub open spec fn status_from(lines: Seq<Seq<char>>, i: int, s: Status) -> Status
    decreases lines.len() - i,
{
    if i < 0 || i >= lines.len() {
        s
    } else {
        let next = if takes_two(lines[i]) {
            i + 2
        } else {
            i + 1
        };
        if next >= lines.len() {
            with_line(s, lines[i])
        } else {
            status_from(lines, next, with_line(s, lines[i]))
        }
    }
}

/// What `git status` prints.
pub open spec fn status_of(raw: Seq<u8>) -> Status {
    status_from(record_texts(raw), 0, no_status())
}

fn read_count(text: &str) -> (r: u64)
    ensures
        r == count_in(text@),
{
    match parse_u64(text) {
        Some(n) => n,
        None => 0,
    }
}

fn read_distances(value: &str, ahead: u64, behind: u64) -> (r: (u64, u64))
    ensures
        (r.0 as int, r.1 as int) == distances(words(value@), words(value@).len() as int, ahead as int, behind as int),
{
    let w = split_words(value);
    let ghost all = words(value@);
    let mut a = ahead;
    let mut b = behind;
    let mut i: usize = 0;
    while i < w.len()
        invariant
            i <= w@.len(),
            all == views(w@),
            (a as int, b as int) == distances(all, i as int, ahead as int, behind as int),
        decreases w@.len() - i,
    {
        assert(all[i as int] == w@[i as int]@);
        match strip_prefix(&w[i], "+") {
            Some(v) => {
                a = read_count(&v);
            },
            None => match strip_prefix(&w[i], "-") {
                Some(v) => {
                    b = read_count(&v);
                },
                None => {},
            },
        }
        i = i + 1;
    }
    assert(all.len() == w@.len());
    (a, b)
}

fn has_mark(line: &str, k: usize) -> (r: bool)
    ensures
        r == marked(line@, k as int),
{
    let w = split_words(line);
    let xy = if w.len() > 1 {
        assert(w@[1]@ == words(line@)[1]);
        w[1].clone()
    } else {
        "..".to_owned()
    };
    let bytes = xy.as_str().as_bytes();
    k < bytes.len() && bytes[k] != 46
}

/// Reads what `git status` prints.
pub fn parse_status(raw: &[u8]) -> (r: RepoStatus)
    ensures
        r@ == status_of(raw@),
{
    let records = split_records(raw);
    let ghost all = record_texts(raw@);
    let total = records.len();
    let mut s = RepoStatus {
        branch: None,
        detached: false,
        head: None,
        ahead: 0,
        behind: 0,
        staged: 0,
        unstaged: 0,
        untracked: 0,
    };
    let mut i: usize = 0;
    loop
        invariant
            total == records@.len(),
            all == views(records@),
            status_from(all, i as int, s@) == status_of(raw@),
            s.staged <= i,
            s.unstaged <= i,
            s.untracked <= i,
            i < total,
        decreases total - i,
    {
        assert(all[i as int] == records@[i as int]@);
        let line = &records[i];
        let ghost old_status = s@;
        let mut step: usize = 1;
        if let Some(v) = strip_prefix(line, "# branch.head ") {
            let value = trim(&v);
            if same(&value, "(detached)") {
                s.detached = true;
            } else {
                s.branch = Some(value);
            }
        } else if let Some(v) = strip_prefix(line, "# branch.oid ") {
            let value = trim(&v);
            if !same(&value, "(initial)") {
                s.head = Some(take_chars(&value, HEAD_CHARS));
            }
        } else if let Some(v) = strip_prefix(line, "# branch.ab ") {
            let (a, b) = read_distances(&v, s.ahead, s.behind);
            s.ahead = a;
            s.behind = b;
        } else if starts_with(line, "1 ") || starts_with(line, "2 ") {
            if has_mark(line, 0) {
                s.staged = s.staged + 1;
            }
            if has_mark(line, 1) {
                s.unstaged = s.unstaged + 1;
            }
            if starts_with(line, "2 ") {
                step = 2;
            }
        } else if starts_with(line, "? ") {
            s.untracked = s.untracked + 1;
        }
        assert(s@ == with_line(old_status, all[i as int]));
        assert(step == if takes_two(all[i as int]) {
            2int
        } else {
            1int
        });
        if total - i <= step {
            return s;
        }
        i = i + step;
    }
}

/// A commit as it is told.
pub open spec fn commit_tree(f: Seq<Seq<char>>) -> Tree {
    Tree::Object(
        no_fields().with("hash"@, Tree::Text(f[0])).with("subject"@, Tree::Text(clipped(f[1], SUBJECT_CHARS as int))).with(
            "author"@,
            Tree::Text(f[2]),
        ).with("date"@, Tree::Text(f[3])),
    )
}

/// The commits in the lines of a log, at most so many.
pub open spec fn commits_in(lines: Seq<Seq<char>>, n: int) -> Seq<Tree>
    decreases n,
{
    if n <= 0 || n > lines.len() {
        Seq::empty()
    } else {
        let rest = commits_in(lines, n - 1);
        let f = pieces(lines[n - 1], '\x1f');
        if f.len() == 4 && rest.len() < MAX_RECENT_COMMITS {
            rest.push(commit_tree(f))
        } else {
            rest
        }
    }
}

fn read_commits(raw: &[u8]) -> (r: Vec<Json>)
    ensures
        trees(r@) == commits_in(rows(lossy_text(raw@)), rows(lossy_text(raw@)).len() as int),
{
    let all = lines(&from_utf8_lossy(raw));
    let ghost known = rows(lossy_text(raw@));
    let mut out: Vec<Json> = Vec::new();
    let mut i: usize = 0;
    assert(trees(out@) =~= Seq::empty());
    while i < all.len()
        invariant
            i <= all@.len(),
            known == views(all@),
            trees(out@) == commits_in(known, i as int),
        decreases all@.len() - i,
    {
        assert(known[i as int] == all@[i as int]@);
        let f = split(&all[i], '\x1f');
        let ghost parts = pieces(known[i as int], '\x1f');
        assert(parts.len() == f@.len());
        assert(trees(out@).len() == out@.len());
        if f.len() == 4 && out.len() < MAX_RECENT_COMMITS {
            assert(parts[0] == f@[0]@ && parts[1] == f@[1]@ && parts[2] == f@[2]@ && parts[3] == f@[3]@);
            let mut o = no_object();
            set_field(&mut o, "hash", string(&f[0]));
            set_field(&mut o, "subject", Json::Text(take_chars(&f[1], SUBJECT_CHARS)));
            set_field(&mut o, "author", string(&f[2]));
            set_field(&mut o, "date", string(&f[3]));
            let ghost before = trees(out@);
            proof {
                lemma_object_view(o);
            }
            out.push(Json::Object(o));
            assert(trees(out@) =~= before.push(commit_tree(parts)));
        }
        i = i + 1;
    }
    assert(known.len() == all@.len());
    out
}

/// How long `git` may take, in seconds.
pub const GIT_TIMEOUT_SECS: u64 = 10;

/// What `git` is asked about a repository.
#[derive(Debug, Clone, Copy, PartialEq, Eq, Structural)]
pub enum Question {
    Status,
    Unstaged,
    Staged,
    Files,
    Log,
}

/// The command that answers a question. None of them changes the repository.
pub open spec fn question_args(q: Question) -> Seq<Seq<char>> {
    match q {
        Question::Status => seq!["status"@, "--porcelain=v2"@, "--branch"@, "-z"@],
        Question::Unstaged => seq!["diff"@, "--no-ext-diff"@, "--numstat"@, "-z"@],
        Question::Staged => seq!["diff"@, "--cached"@, "--no-ext-diff"@, "--numstat"@, "-z"@],
        Question::Files => seq!["ls-files"@, "-z"@],
        Question::Log => seq![
            "log"@,
            "-10"@,
            "--no-color"@,
            "--pretty=format:%h%x1f%s%x1f%an%x1f%ad"@,
            "--date=short"@,
        ],
    }
}

/// The command that answers a question.
pub fn snapshot_args(q: Question) -> (r: Vec<String>)
    ensures
        views(r@) == question_args(q),
{
    let words: Vec<&str> = match q {
        Question::Status => vec!["status", "--porcelain=v2", "--branch", "-z"],
        Question::Unstaged => vec!["diff", "--no-ext-diff", "--numstat", "-z"],
        Question::Staged => vec!["diff", "--cached", "--no-ext-diff", "--numstat", "-z"],
        Question::Files => vec!["ls-files", "-z"],
        Question::Log => vec![
            "log",
            "-10",
            "--no-color",
            "--pretty=format:%h%x1f%s%x1f%an%x1f%ad",
            "--date=short",
        ],
    };
    let mut r: Vec<String> = Vec::new();
    let mut i: usize = 0;
    while i < words.len()
        invariant
            i <= words@.len(),
            r@.len() == i,
            forall|j: int| 0 <= j < i ==> (#[trigger] r@[j])@ == words@[j]@,
        decreases words@.len() - i,
    {
        r.push(words[i].to_owned());
        i = i + 1;
    }
    assert(views(r@) =~= question_args(q));
    r
}

/// How it is told that `git` could not be asked.
pub fn snapshot_failure(f: &GitFault) -> (r: HandlerError)
    ensures
        r@ == match *f {
            GitFault::TimedOut => fault("git_timeout"@, "git command timed out"@),
            GitFault::NoInput => fault("git_failed"@, "git stdin was unavailable"@),
            GitFault::NotStarted(e) => fault("git_failed"@, e@),
            GitFault::InputLost(e) => fault("git_failed"@, e@),
            GitFault::Lost(e) => fault("git_failed"@, e@),
        },
{
    match f {
        GitFault::TimedOut => HandlerError::new("git_timeout", "git command timed out"),
        GitFault::NoInput => HandlerError::new("git_failed", "git stdin was unavailable"),
        GitFault::NotStarted(e) => HandlerError::new("git_failed", e),
        GitFault::InputLost(e) => HandlerError::new("git_failed", e),
        GitFault::Lost(e) => HandlerError::new("git_failed", e),
    }
}

/// What `git` printed of a repository.
pub struct GitOutput {
    pub status: Vec<u8>,
    pub unstaged: Vec<u8>,
    pub staged: Vec<u8>,
    /// The tracked files, where `git` listed them.
    pub files: Option<Vec<u8>>,
    pub log: Vec<u8>,
}

/// The tracked files.
pub open spec fn files_of(g: GitOutput) -> Seq<Seq<char>> {
    match g.files {
        Some(raw) => listed_paths(raw@),
        None => Seq::empty(),
    }
}

pub open spec fn git_tree(s: Status) -> Tree {
    Tree::Object(
        no_fields().with("branch"@, text_or_null(s.branch)).with("detached"@, Tree::Bool(s.detached)).with(
            "head"@,
            text_or_null(s.head),
        ).with("ahead"@, Tree::Number(Num::Pos(s.ahead as u64))).with("behind"@, Tree::Number(Num::Pos(s.behind as u64))).with(
            "dirty"@,
            Tree::Bool(s.staged != 0 || s.unstaged != 0 || s.untracked != 0),
        ),
    )
}

pub open spec fn changes_tree(g: GitOutput) -> Tree {
    let s = status_of(g.status@);
    let (_, ui, ud) = numstat_of(g.unstaged@, false);
    let (_, si, sd) = numstat_of(g.staged@, false);
    Tree::Object(
        no_fields().with("staged"@, Tree::Number(Num::Pos(s.staged as u64))).with(
            "unstaged"@,
            Tree::Number(Num::Pos(s.unstaged as u64)),
        ).with("untracked"@, Tree::Number(Num::Pos(s.untracked as u64))).with(
            "insertions"@,
            Tree::Number(Num::Pos(sum64(ui, si))),
        ).with("deletions"@, Tree::Number(Num::Pos(sum64(ud, sd)))),
    )
}

pub open spec fn repository_tree(paths: Seq<Seq<char>>) -> Tree {
    Tree::Object(
        no_fields().with("tracked_files"@, Tree::Number(Num::Pos(paths.len() as u64))).with(
            "top_directories"@,
            text_list(first_names(ranked(tallied(heads(paths))), MAX_TOP_DIRS as int)),
        ).with("extensions"@, Tree::Object(common_kinds(kinds(paths)))),
    )
}

/// The account of a repository.
pub open spec fn repo_fields(root: Seq<char>, g: GitOutput) -> Fields {
    no_fields().with("ok"@, Tree::Bool(true)).with("version"@, Tree::Number(Num::Pos(1))).with("root"@, Tree::Text(root)).with(
        "kind"@,
        Tree::Text("git"@),
    ).with("git"@, git_tree(status_of(g.status@))).with("changes"@, changes_tree(g)).with(
        "repository"@,
        repository_tree(files_of(g)),
    ).with(
        "recent_commits"@,
        Tree::Array(commits_in(rows(lossy_text(g.log@)), rows(lossy_text(g.log@)).len() as int)),
    ).with(
        "truncated"@,
        Tree::Object(
            no_fields().with(
                "top_directories"@,
                Tree::Bool(ranked(tallied(heads(files_of(g)))).len() > MAX_TOP_DIRS),
            ).with("recent_commits"@, Tree::Bool(false)),
        ),
    )
}

fn describe_git(s: &RepoStatus) -> (r: Json)
    ensures
        r@ == git_tree(s@),
{
    broadcast use group_json_views;

    let mut o = no_object();
    set_field(&mut o, "branch", optional(&s.branch));
    set_field(&mut o, "detached", Json::Bool(s.detached));
    set_field(&mut o, "head", optional(&s.head));
    set_field(&mut o, "ahead", count(s.ahead));
    set_field(&mut o, "behind", count(s.behind));
    set_field(&mut o, "dirty", Json::Bool(s.staged != 0 || s.unstaged != 0 || s.untracked != 0));
    Json::Object(o)
}

fn describe_changes(s: &RepoStatus, g: &GitOutput) -> (r: Json)
    requires
        s@ == status_of(g.status@),
    ensures
        r@ == changes_tree(*g),
{
    broadcast use group_json_views;

    let (_, ui, ud) = read_numstat(g.unstaged.as_slice(), false);
    let (_, si, sd) = read_numstat(g.staged.as_slice(), false);
    let mut o = no_object();
    set_field(&mut o, "staged", count(s.staged));
    set_field(&mut o, "unstaged", count(s.unstaged));
    set_field(&mut o, "untracked", count(s.untracked));
    set_field(&mut o, "insertions", count(add64(ui, si)));
    set_field(&mut o, "deletions", count(add64(ud, sd)));
    Json::Object(o)
}

/// The account of a repository, from what `git` printed.
pub fn git_snapshot(root: &str, g: &GitOutput) -> (r: Object)
    ensures
        fields(r@) == repo_fields(root@, *g),
{
    broadcast use group_json_views;

    let status = parse_status(g.status.as_slice());
    let paths = match &g.files {
        Some(raw) => split_paths(raw.as_slice()),
        None => {
            let none: Vec<String> = Vec::new();
            assert(views(none@) =~= Seq::empty());
            none
        },
    };
    assert(views(paths@) == files_of(*g));
    assert(views(paths@).len() == paths@.len());
    let tops = rank(tally(&head_list(&paths)));
    let types = rank(tally(&kind_list(&paths)));
    assert(count_views(tops@).len() == tops@.len());
    assert(count_views(types@).len() == types@.len());
    let mut repository = no_object();
    set_field(&mut repository, "tracked_files", count(paths.len() as u64));
    set_field(&mut repository, "top_directories", strings(&name_list(&tops)));
    set_field(&mut repository, "extensions", Json::Object(count_object(&types)));
    let mut cut = no_object();
    set_field(&mut cut, "top_directories", Json::Bool(tops.len() > MAX_TOP_DIRS));
    set_field(&mut cut, "recent_commits", Json::Bool(false));
    let mut o = no_object();
    set_field(&mut o, "ok", Json::Bool(true));
    set_field(&mut o, "version", count(1));
    set_field(&mut o, "root", string(root));
    set_field(&mut o, "kind", string("git"));
    set_field(&mut o, "git", describe_git(&status));
    set_field(&mut o, "changes", describe_changes(&status, g));
    set_field(&mut o, "repository", Json::Object(repository));
    set_field(&mut o, "recent_commits", Json::Array(read_commits(g.log.as_slice())));
    set_field(&mut o, "truncated", Json::Object(cut));
    o
}

/// An entry of a directory.
pub struct DirEntry {
    pub name: String,
    pub is_dir: bool,
}

/// The count of a directory as far as it came.
pub struct DirCount {
    pub dirs: Seq<Seq<char>>,
    pub kinds: Seq<Seq<char>>,
    pub cut: bool,
}

/// The count of the first `n` entries. Hidden names do not count, and the count
/// ends where there are too many files.
pub open spec fn counted(entries: Seq<DirEntry>, n: int) -> DirCount
    decreases n,
{
    if n <= 0 || n > entries.len() {
        DirCount { dirs: Seq::empty(), kinds: Seq::empty(), cut: false }
    } else {
        let c = counted(entries, n - 1);
        let e = entries[n - 1];
        if c.cut || prefixed(e.name@, "."@) {
            c
        } else if e.is_dir {
            DirCount { dirs: c.dirs.push(e.name@), ..c }
        } else {
            DirCount {
                dirs: c.dirs,
                kinds: c.kinds.push(lowered(ending(e.name@))),
                cut: c.kinds.len() + 1 > MAX_FILES,
            }
        }
    }
}

/// The account of a directory.
pub open spec fn dir_fields(root: Seq<char>, entries: Seq<DirEntry>) -> Fields {
    let c = counted(entries, entries.len() as int);
    no_fields().with("ok"@, Tree::Bool(true)).with("version"@, Tree::Number(Num::Pos(1))).with("root"@, Tree::Text(root)).with(
        "kind"@,
        Tree::Text("directory"@),
    ).with(
        "repository"@,
        Tree::Object(
            no_fields().with(
                "top_directories"@,
                text_list(first_names(ranked(tallied(c.dirs)), MAX_TOP_DIRS as int)),
            ).with("extensions"@, Tree::Object(common_kinds(c.kinds))).with(
                "file_count"@,
                Tree::Number(Num::Pos(c.kinds.len() as u64)),
            ),
        ),
    ).with("truncated"@, Tree::Object(no_fields().with("file_count"@, Tree::Bool(c.cut))))
}

/// The account of a directory, from its entries.
pub fn directory_snapshot(root: &str, entries: &Vec<DirEntry>) -> (r: Object)
    ensures
        fields(r@) == dir_fields(root@, entries@),
{
    broadcast use group_json_views;

    let mut dirs: Vec<String> = Vec::new();
    let mut types: Vec<String> = Vec::new();
    let mut cut = false;
    let mut i: usize = 0;
    assert(views(dirs@) =~= Seq::empty() && views(types@) =~= Seq::empty());
    while i < entries.len()
        invariant
            i <= entries@.len(),
            (DirCount { dirs: views(dirs@), kinds: views(types@), cut }) == counted(entries@, i as int),
        decreases entries@.len() - i,
    {
        let ghost before_dirs = views(dirs@);
        let ghost before_types = views(types@);
        assert(before_types.len() == types@.len());
        if !cut && !starts_with(&entries[i].name, ".") {
            if entries[i].is_dir {
                dirs.push(entries[i].name.clone());
                assert(views(dirs@) =~= before_dirs.push(entries@[i as int].name@));
            } else {
                types.push(to_lower(&extension(&entries[i].name)));
                assert(views(types@) =~= before_types.push(lowered(ending(entries@[i as int].name@))));
                cut = types.len() as u64 > MAX_FILES;
            }
        }
        i = i + 1;
    }
    assert(views(types@).len() == types@.len());
    let files = types.len() as u64;
    let tops = rank(tally(&dirs));
    let common = rank(tally(&types));
    assert(count_views(common@).len() == common@.len());
    let mut repository = no_object();
    set_field(&mut repository, "top_directories", strings(&name_list(&tops)));
    set_field(&mut repository, "extensions", Json::Object(count_object(&common)));
    set_field(&mut repository, "file_count", count(files));
    let mut truncated = no_object();
    set_field(&mut truncated, "file_count", Json::Bool(cut));
    let mut o = no_object();
    set_field(&mut o, "ok", Json::Bool(true));
    set_field(&mut o, "version", count(1));
    set_field(&mut o, "root", string(root));
    set_field(&mut o, "kind", string("directory"));
    set_field(&mut o, "repository", Json::Object(repository));
    set_field(&mut o, "truncated", Json::Object(truncated));
    o
}

/// The directory that a request asks about.
pub open spec fn snapshot_root_of(policy: Policy, payload: Fields, seen: Resolution) -> Result<Seq<char>, Fault> {
    match required_text(payload, "path"@) {
        Err(f) => Err(f),
        Ok(requested) => match resolved(policy, requested, false, seen) {
            Some(p) => Ok(p),
            None => Err(
                fault("path_not_allowed"@, "path "@ + debug_text(requested) + " is outside file_ops paths"@),
            ),
        },
    }
}

/// The directory that a request asks about. `seen` is what the file system says of
/// it.
pub fn snapshot_root(policy: &Policy, payload: &Object, seen: &Resolution) -> (r: Result<String, HandlerError>)
    ensures
        (match r {
            Ok(s) => Ok(s@),
            Err(e) => Err(e@),
        }) == snapshot_root_of(*policy, fields(payload@), *seen),
{
    let requested = match require_str(payload, "path") {
        Ok(s) => s,
        Err(e) => return Err(e),
    };
    match policy.resolve_path(requested, false, seen) {
        Some(p) => Ok(p),
        None => Err(
            HandlerError::new(
                "path_not_allowed",
                &cat3("path ", &quoted(requested), " is outside file_ops paths"),
            ),
        ),
    }
}

/// Whether a path names a directory.
pub fn check_directory(present: bool, is_dir: bool) -> (r: Result<(), HandlerError>)
    ensures
        match r {
            Ok(_) => present && is_dir,
            Err(e) => !(present && is_dir) && e@ == if !present {
                fault("not_found"@, "path does not exist"@)
            } else {
                fault("is_file"@, "project_snapshot expects a directory"@)
            },
        },
{
    if !present {
        Err(HandlerError::new("not_found", "path does not exist"))
    } else if !is_dir {
        Err(HandlerError::new("is_file", "project_snapshot expects a directory"))
    } else {
        Ok(())
    }
}

/// The root of the repository that `git rev-parse --show-toplevel` found.
pub fn found_root(code: i32, stdout: &[u8]) -> (r: Option<String>)
    ensures
        opt_view(r) == if code == 0 && stdout@.len() > 0 {
            Some(trimmed(lossy_text(stdout@)))
        } else {
            None
        },
{
    if code == 0 && stdout.len() > 0 {
        Some(trim(&from_utf8_lossy(stdout)))
    } else {
        None
    }
}

/// What `git` says where it refuses a repository of somebody else.
pub open spec fn refuses_owner(stderr: Seq<u8>) -> bool {
    contained(lossy_text(stderr), "dubious ownership"@)
}

/// The account of a directory with a word on why `git` was of no use, where it says
/// so.
pub fn note_refusal(o: Object, stderr: &[u8]) -> (r: Object)
    ensures
        fields(r@) == if refuses_owner(stderr@) {
            fields(o@).with(
                "git_unavailable"@,
                Tree::Text("This is a git checkout, but git refuses it because of dubious ownership."@),
            )
        } else {
            fields(o@)
        },
{
    let mut o = o;
    if contains(&from_utf8_lossy(stderr), "dubious ownership") {
        set_field(
            &mut o,
            "git_unavailable",
            string("This is a git checkout, but git refuses it because of dubious ownership."),
        );
    }
    o
}

/// The second word of a record whose first is a single character.
proof fn lemma_second_word(first: char, second: Seq<char>, rest: Seq<char>)
    requires
        !white(first),
        second.len() > 0,
        forall|i: int| 0 <= i < second.len() ==> !white(#[trigger] second[i]),
    ensures
        ({
            let line = seq![first, ' '] + second + seq![' '] + rest;
            words(line).len() > 1 && words(line)[1] == second
        }),
{
    let line = seq![first, ' '] + second + seq![' '] + rest;
    lemma_word_end_is(line, 1);
    let one = line.skip(1);
    assert(one[0] == ' ');
    lemma_words_skip(one, 1);
    let two = one.skip(1);
    assert forall|i: int| 0 <= i < second.len() implies !white(#[trigger] two[i]) by {
        assert(two[i] == second[i]);
    }
    assert(two[second.len() as int] == ' ');
    lemma_word_end_is(two, second.len() as int);
    assert(two.take(second.len() as int) =~= second);
    assert(words(two)[0] == second);
    assert(words(line) =~= seq![line.take(1)] + words(two));
}

/// A record of a changed or renamed file counts as staged exactly where its first mark,
/// that of the index, stands for a change, and as unstaged exactly where its second
/// mark, that of the work tree, does. Nothing else is told by it.
pub proof fn marks_are_counted(s: Status, kind: char, index: char, tree: char, rest: Seq<char>)
    requires
        kind == '1' || kind == '2',
        '!' <= index <= '~',
        '!' <= tree <= '~',
    ensures
        with_line(s, seq![kind, ' ', index, tree, ' '] + rest) == (Status {
            staged: if index == '.' {
                s.staged
            } else {
                s.staged + 1
            },
            unstaged: if tree == '.' {
                s.unstaged
            } else {
                s.unstaged + 1
            },
            ..s
        }),
{
    let xy = seq![index, tree];
    let line = seq![kind, ' '] + xy + seq![' '] + rest;
    assert(seq![kind, ' ', index, tree, ' '] + rest =~= line);
    lemma_second_word(kind, xy, rest);
    vstd::utf8::is_ascii_chars_encode_utf8(xy);
    lemma_record_kinds(line);
    assert(line[0] == kind && line[1] == ' ');
    assert(line.take(2) =~= seq![kind, ' ']);
}

/// What a line begins with tells what it is about.
proof fn lemma_record_kinds(line: Seq<char>)
    requires
        line.len() >= 2,
    ensures
        prefixed(line, "1 "@) <==> line[0] == '1' && line[1] == ' ',
        prefixed(line, "2 "@) <==> line[0] == '2' && line[1] == ' ',
        prefixed(line, "? "@) <==> line[0] == '?' && line[1] == ' ',
        prefixed(line, "# branch.head "@) ==> line[0] == '#',
        prefixed(line, "# branch.oid "@) ==> line[0] == '#',
        prefixed(line, "# branch.ab "@) ==> line[0] == '#',
{
    reveal_strlit("1 ");
    reveal_strlit("2 ");
    reveal_strlit("? ");
    reveal_strlit("# branch.head ");
    reveal_strlit("# branch.oid ");
    reveal_strlit("# branch.ab ");
    assert(line.take(2) =~= seq![line[0], line[1]]);
    assert("1 "@ =~= seq!['1', ' ']);
    assert("2 "@ =~= seq!['2', ' ']);
    assert("? "@ =~= seq!['?', ' ']);
    assert(seq![line[0], line[1]][0] == line[0] && seq![line[0], line[1]][1] == line[1]);
    if prefixed(line, "# branch.head "@) {
        assert(line.take("# branch.head "@.len() as int)[0] == '#');
    }
    if prefixed(line, "# branch.oid "@) {
        assert(line.take("# branch.oid "@.len() as int)[0] == '#');
    }
    if prefixed(line, "# branch.ab "@) {
        assert(line.take("# branch.ab "@.len() as int)[0] == '#');
    }
}

/// A record of a file that git does not know counts as untracked, and as nothing else.
pub proof fn unknown_files_are_counted(s: Status, name: Seq<char>)
    ensures
        with_line(s, seq!['?', ' '] + name) == (Status { untracked: s.untracked + 1, ..s }),
{
    lemma_record_kinds(seq!['?', ' '] + name);
}

/// Records add up one after the other; what follows on a renamed file is its former
/// name, whatever that looks like.
pub proof fn records_add_up(lines: Seq<Seq<char>>, line: Seq<char>, former: Seq<char>, s: Status)
    requires
        forall|i: int| 0 <= i < lines.len() ==> !prefixed(#[trigger] lines[i], "2 "@),
    ensures
        status_from(lines.push(line), 0, s) == with_line(status_from(lines, 0, s), line),
        line.len() >= 2 && line[0] == '2' && line[1] == ' ' ==> status_from(lines.push(line).push(former), 0, s)
            == with_line(status_from(lines, 0, s), line),
{
    lemma_records_from(lines, line, former, 0, s);
}

proof fn lemma_records_from(lines: Seq<Seq<char>>, line: Seq<char>, former: Seq<char>, i: int, s: Status)
    requires
        0 <= i <= lines.len(),
        forall|j: int| 0 <= j < lines.len() ==> !prefixed(#[trigger] lines[j], "2 "@),
    ensures
        status_from(lines.push(line), i, s) == with_line(status_from(lines, i, s), line),
        line.len() >= 2 && line[0] == '2' && line[1] == ' ' ==> status_from(lines.push(line).push(former), i, s)
            == with_line(status_from(lines, i, s), line),
    decreases lines.len() - i,
{
    let all = lines.push(line);
    let more = all.push(former);
    if i < lines.len() {
        assert(all[i] == lines[i] && more[i] == lines[i]);
        assert(!takes_two(lines[i]));
        let next = with_line(s, lines[i]);
        lemma_records_from(lines, line, former, i + 1, next);
        if i + 1 == lines.len() {
            assert(status_from(lines, i + 1, next) == next);
        }
    } else {
        assert(all[i] == line && more[i] == line);
        if line.len() >= 2 && line[0] == '2' && line[1] == ' ' {
            lemma_record_kinds(line);
        }
    }
}

/// An account of a repository tells what git prints of it, each under its name.
pub proof fn repositories_are_told(root: Seq<char>, g: GitOutput)
    ensures
        get(repo_fields(root, g), "root"@) == Some(Tree::Text(root)),
        get(repo_fields(root, g), "kind"@) == Some(Tree::Text("git"@)),
        get(repo_fields(root, g), "ok"@) == Some(Tree::Bool(true)),
        get(repo_fields(root, g), "changes"@) matches Some(Tree::Object(c)) && {
            let s = status_of(g.status@);
            &&& get(c, "staged"@) == Some(Tree::Number(Num::Pos(s.staged as u64)))
            &&& get(c, "unstaged"@) == Some(Tree::Number(Num::Pos(s.unstaged as u64)))
            &&& get(c, "untracked"@) == Some(Tree::Number(Num::Pos(s.untracked as u64)))
        },
        get(repo_fields(root, g), "git"@) matches Some(Tree::Object(c)) && {
            let s = status_of(g.status@);
            &&& get(c, "branch"@) == match s.branch {
                Some(name) => Some(Tree::Text(name)),
                None => Some(Tree::Null),
            }
            &&& get(c, "head"@) == match s.head {
                Some(name) => Some(Tree::Text(name)),
                None => Some(Tree::Null),
            }
            &&& get(c, "detached"@) == Some(Tree::Bool(s.detached))
            &&& get(c, "ahead"@) == Some(Tree::Number(Num::Pos(s.ahead as u64)))
            &&& get(c, "behind"@) == Some(Tree::Number(Num::Pos(s.behind as u64)))
            &&& get(c, "dirty"@) == Some(Tree::Bool(!(s.staged == 0 && s.unstaged == 0 && s.untracked == 0)))
        },
        get(repo_fields(root, g), "repository"@) matches Some(Tree::Object(c)) && get(c, "tracked_files"@) == Some(
            Tree::Number(Num::Pos(files_of(g).len() as u64)),
        ),
{
    broadcast use lemma_get_put;

    reveal_strlit("ok");
    reveal_strlit("version");
    reveal_strlit("root");
    reveal_strlit("kind");
    reveal_strlit("git");
    reveal_strlit("changes");
    reveal_strlit("repository");
    reveal_strlit("recent_commits");
    reveal_strlit("truncated");
    reveal_strlit("staged");
    reveal_strlit("unstaged");
    reveal_strlit("untracked");
    reveal_strlit("insertions");
    reveal_strlit("deletions");
    reveal_strlit("branch");
    reveal_strlit("detached");
    reveal_strlit("head");
    reveal_strlit("ahead");
    reveal_strlit("behind");
    reveal_strlit("dirty");
    reveal_strlit("tracked_files");
    reveal_strlit("top_directories");
    reveal_strlit("extensions");
    assert("ok"@.len() == 2 && "version"@.len() == 7 && "root"@.len() == 4 && "kind"@.len() == 4 && "git"@.len() == 3
        && "changes"@.len() == 7 && "repository"@.len() == 10 && "recent_commits"@.len() == 14
        && "truncated"@.len() == 9 && "staged"@.len() == 6 && "unstaged"@.len() == 8 && "untracked"@.len() == 9
        && "insertions"@.len() == 10 && "deletions"@.len() == 9 && "branch"@.len() == 6 && "detached"@.len() == 8
        && "head"@.len() == 4 && "ahead"@.len() == 5 && "behind"@.len() == 6 && "dirty"@.len() == 5
        && "tracked_files"@.len() == 13 && "top_directories"@.len() == 15 && "extensions"@.len() == 10
        && "version"@[0] == 'v' && "changes"@[0] == 'c' && "root"@[0] == 'r' && "kind"@[0] == 'k' && "head"@[0] == 'h'
        && "repository"@[0] == 'r' && "insertions"@[0] == 'i' && "extensions"@[0] == 'e' && "truncated"@[0] == 't'
        && "untracked"@[0] == 'u' && "deletions"@[0] == 'd' && "staged"@[0] == 's' && "branch"@[0] == 'b'
        && "behind"@[0] == 'b' && "unstaged"@[0] == 'u' && "detached"@[0] == 'd' && "branch"@[1] == 'r'
        && "behind"@[1] == 'e' && "ahead"@[0] == 'a' && "dirty"@[0] == 'd');
}

/// The branch and the commit that git names are told: the commit by its first letters,
/// and no branch where there is none.
pub proof fn branches_are_told(s: Status, name: Seq<char>)
    requires
        name.len() > 0,
        forall|i: int| 0 <= i < name.len() ==> !white(#[trigger] name[i]),
    ensures
        with_line(s, "# branch.head "@ + name) == if name == "(detached)"@ {
            Status { detached: true, ..s }
        } else {
            Status { branch: Some(name), ..s }
        },
        with_line(s, "# branch.oid "@ + name) == if name == "(initial)"@ {
            s
        } else {
            Status {
                head: Some(
                    if name.len() <= HEAD_CHARS {
                        name
                    } else {
                        name.take(HEAD_CHARS as int)
                    },
                ),
                ..s
            }
        },
{
    let a = "# branch.head "@ + name;
    let b = "# branch.oid "@ + name;
    reveal_strlit("# branch.head ");
    reveal_strlit("# branch.oid ");
    assert(a.take("# branch.head "@.len() as int) =~= "# branch.head "@);
    assert(a.skip("# branch.head "@.len() as int) =~= name);
    assert(b.take("# branch.oid "@.len() as int) =~= "# branch.oid "@);
    assert(b.skip("# branch.oid "@.len() as int) =~= name);
    assert(b[9] == 'o');
    assert(!prefixed(b, "# branch.head "@)) by {
        if prefixed(b, "# branch.head "@) {
            assert(b.take("# branch.head "@.len() as int)[9] == 'h');
        }
    }
    assert(!white(name[0]) && !white(name.last()));
}

/// How far a branch is ahead of another and behind it is told as git counts it.
pub proof fn distances_are_told(s: Status, ahead: u64, behind: u64)
    ensures
        with_line(s, "# branch.ab +"@ + decimal(ahead as nat) + " -"@ + decimal(behind as nat)) == (Status {
            ahead: ahead as int,
            behind: behind as int,
            ..s
        }),
{
    let line = "# branch.ab +"@ + decimal(ahead as nat) + " -"@ + decimal(behind as nat);
    reveal_strlit("# branch.ab ");
    reveal_strlit("# branch.ab +");
    reveal_strlit("# branch.head ");
    reveal_strlit("# branch.oid ");
    reveal_strlit(" -");
    reveal_strlit("+");
    reveal_strlit("-");
    let one = seq!['+'] + decimal(ahead as nat);
    let two = seq!['-'] + decimal(behind as nat);
    let rest = one + seq![' '] + two;
    assert(line.take("# branch.ab "@.len() as int) =~= "# branch.ab "@);
    assert(line.skip("# branch.ab "@.len() as int) =~= rest);
    assert(line[9] == 'a');
    assert(!prefixed(line, "# branch.head "@)) by {
        if prefixed(line, "# branch.head "@) {
            assert(line.take("# branch.head "@.len() as int)[9] == 'h');
        }
    }
    assert(!prefixed(line, "# branch.oid "@)) by {
        if prefixed(line, "# branch.oid "@) {
            assert(line.take("# branch.oid "@.len() as int)[9] == 'o');
        }
    }
    decimal_is_read_back(ahead);
    decimal_is_read_back(behind);
    assert forall|i: int| 0 <= i < one.len() implies !white(#[trigger] one[i]) by {
        if i > 0 {
            assert(one[i] == decimal(ahead as nat)[i - 1]);
        }
    }
    assert forall|i: int| 0 <= i < two.len() implies !white(#[trigger] two[i]) by {
        if i > 0 {
            assert(two[i] == decimal(behind as nat)[i - 1]);
        }
    }
    assert forall|i: int| 0 <= i < one.len() implies !white(#[trigger] rest[i]) by {
        assert(rest[i] == one[i]);
    }
    lemma_word_end_is(rest, one.len() as int);
    assert(rest.take(one.len() as int) =~= one);
    let tail = rest.skip(one.len() as int);
    assert(tail[0] == ' ');
    lemma_words_skip(tail, 1);
    assert(tail.skip(1) =~= two);
    lemma_word_end_is(two, two.len() as int);
    assert(two.take(two.len() as int) =~= two);
    assert(two.skip(two.len() as int) =~= Seq::empty());
    let w = words(rest);
    assert(words(two) =~= seq![two]) by {
        assert(words(two.skip(two.len() as int)) =~= Seq::empty());
    }
    assert(w =~= seq![one, two]);
    assert("+"@ =~= seq!['+'] && "-"@ =~= seq!['-']);
    assert(one.take(1) =~= "+"@ && two.take(1) =~= "-"@);
    assert(one.skip(1) =~= decimal(ahead as nat) && two.skip(1) =~= decimal(behind as nat));
    assert(two.take(1)[0] == '-');
    reveal_with_fuel(distances, 3);
}

/// What is put in and taken out in all is what was staged and what was not.
pub proof fn changed_lines_are_told(root: Seq<char>, g: GitOutput)
    ensures
        get(repo_fields(root, g), "changes"@) matches Some(Tree::Object(c)) && {
            let (_, ui, ud) = numstat_of(g.unstaged@, false);
            let (_, si, sd) = numstat_of(g.staged@, false);
            &&& ui + si <= u64::MAX ==> get(c, "insertions"@) == Some(Tree::Number(Num::Pos((ui + si) as u64)))
            &&& ud + sd <= u64::MAX ==> get(c, "deletions"@) == Some(Tree::Number(Num::Pos((ud + sd) as u64)))
        },
{
    broadcast use lemma_get_put;

    reveal_strlit("ok");
    reveal_strlit("version");
    reveal_strlit("root");
    reveal_strlit("kind");
    reveal_strlit("git");
    reveal_strlit("changes");
    reveal_strlit("repository");
    reveal_strlit("recent_commits");
    reveal_strlit("truncated");
    reveal_strlit("staged");
    reveal_strlit("unstaged");
    reveal_strlit("untracked");
    reveal_strlit("insertions");
    reveal_strlit("deletions");
    assert("ok"@.len() == 2 && "version"@.len() == 7 && "root"@.len() == 4 && "kind"@.len() == 4 && "git"@.len() == 3
        && "changes"@.len() == 7 && "repository"@.len() == 10 && "recent_commits"@.len() == 14
        && "truncated"@.len() == 9 && "staged"@.len() == 6 && "unstaged"@.len() == 8 && "untracked"@.len() == 9
        && "insertions"@.len() == 10 && "deletions"@.len() == 9 && "version"@[0] == 'v' && "changes"@[0] == 'c'
        && "root"@[0] == 'r' && "kind"@[0] == 'k' && "repository"@[0] == 'r' && "insertions"@[0] == 'i'
        && "truncated"@[0] == 't' && "untracked"@[0] == 'u' && "deletions"@[0] == 'd');
}

/// A commit is told by its short name, its subject, its author and its date, as git prints
/// them.
pub proof fn commits_are_told(lines: Seq<Seq<char>>, hash: Seq<char>, subject: Seq<char>, author: Seq<char>, date: Seq<char>)
    requires
        !hash.contains('\x1f') && !subject.contains('\x1f') && !author.contains('\x1f') && !date.contains('\x1f'),
        commits_in(lines, lines.len() as int).len() < MAX_RECENT_COMMITS,
    ensures
        ({
            let line = hash + seq!['\x1f'] + (subject + seq!['\x1f'] + (author + seq!['\x1f'] + date));
            let all = commits_in(lines.push(line), lines.len() as int + 1);
            &&& all.len() == commits_in(lines, lines.len() as int).len() + 1
            &&& all.last() matches Tree::Object(c) && {
                &&& get(c, "hash"@) == Some(Tree::Text(hash))
                &&& get(c, "author"@) == Some(Tree::Text(author))
                &&& get(c, "date"@) == Some(Tree::Text(date))
                &&& subject.len() <= 120 ==> get(c, "subject"@) == Some(Tree::Text(subject))
                &&& subject.len() > 120 ==> get(c, "subject"@) == Some(Tree::Text(subject.take(120)))
            }
        }),
{
    broadcast use lemma_get_put;

    reveal_strlit("hash");
    reveal_strlit("subject");
    reveal_strlit("author");
    reveal_strlit("date");
    assert("hash"@.len() == 4 && "subject"@.len() == 7 && "author"@.len() == 6 && "date"@.len() == 4
        && "hash"@[0] == 'h' && "date"@[0] == 'd');
    let sep = '\x1f';
    let c = author + seq![sep] + date;
    let b = subject + seq![sep] + c;
    let line = hash + seq![sep] + b;
    lemma_pieces_joined(hash, b, sep);
    lemma_pieces_joined(subject, c, sep);
    lemma_pieces_joined(author, date, sep);
    lemma_first_index(hash, sep);
    lemma_first_index(subject, sep);
    lemma_first_index(author, sep);
    lemma_first_index(date, sep);
    assert(pieces(hash, sep) =~= seq![hash]);
    assert(pieces(subject, sep) =~= seq![subject]);
    assert(pieces(author, sep) =~= seq![author]);
    assert(pieces(date, sep) =~= seq![date]);
    assert(pieces(line, sep) =~= seq![hash, subject, author, date]);
    lemma_commits_of_beginning(lines, line, lines.len() as int);
    assert(lines.push(line)[lines.len() as int] == line);
}

proof fn lemma_commits_of_beginning(lines: Seq<Seq<char>>, line: Seq<char>, n: int)
    requires
        0 <= n <= lines.len(),
    ensures
        commits_in(lines.push(line), n) == commits_in(lines, n),
    decreases n,
{
    if n > 0 {
        lemma_commits_of_beginning(lines, line, n - 1);
        assert(lines.push(line)[n - 1] == lines[n - 1]);
    }
}

/// What is unstaged is asked of the work tree, what is staged of the index.
pub proof fn questions_are_told_apart()
    ensures
        question_args(Question::Staged).contains("--cached"@),
        !question_args(Question::Unstaged).contains("--cached"@),
        question_args(Question::Staged)[0] == "diff"@ && question_args(Question::Unstaged)[0] == "diff"@,
        question_args(Question::Status)[0] == "status"@ && question_args(Question::Status).contains("--porcelain=v2"@),
        question_args(Question::Files)[0] == "ls-files"@,
        question_args(Question::Log)[0] == "log"@,
{
    reveal_strlit("diff");
    reveal_strlit("--no-ext-diff");
    reveal_strlit("--numstat");
    reveal_strlit("-z");
    reveal_strlit("--cached");
    assert("diff"@.len() == 4 && "--no-ext-diff"@.len() == 13 && "--numstat"@.len() == 9 && "-z"@.len() == 2
        && "--cached"@.len() == 8);
    assert(question_args(Question::Staged)[1] == "--cached"@);
    assert(question_args(Question::Status)[1] == "--porcelain=v2"@);
}

/// Without its hidden names, a directory is told by its directories and its files.
pub proof fn directories_are_told(root: Seq<char>, entries: Seq<DirEntry>)
    ensures
        get(dir_fields(root, entries), "root"@) == Some(Tree::Text(root)),
        get(dir_fields(root, entries), "kind"@) == Some(Tree::Text("directory"@)),
        get(dir_fields(root, entries), "repository"@) matches Some(Tree::Object(r)) && get(r, "file_count"@) == Some(
            Tree::Number(Num::Pos(counted(entries, entries.len() as int).kinds.len() as u64)),
        ),
{
    broadcast use lemma_get_put;

    reveal_strlit("ok");
    reveal_strlit("version");
    reveal_strlit("root");
    reveal_strlit("kind");
    reveal_strlit("repository");
    reveal_strlit("truncated");
    reveal_strlit("top_directories");
    reveal_strlit("extensions");
    reveal_strlit("file_count");
    assert("ok"@.len() == 2 && "version"@.len() == 7 && "root"@.len() == 4 && "kind"@.len() == 4
        && "repository"@.len() == 10 && "truncated"@.len() == 9 && "top_directories"@.len() == 15
        && "extensions"@.len() == 10 && "file_count"@.len() == 10 && "root"@[0] == 'r' && "kind"@[0] == 'k'
        && "repository"@[0] == 'r' && "extensions"@[0] == 'e' && "file_count"@[0] == 'f');
}

/// An entry counts as a file or as a directory, as it is one; a hidden one does not count.
pub proof fn visible_entries_are_counted(entries: Seq<DirEntry>, e: DirEntry)
    requires
        !counted(entries, entries.len() as int).cut,
    ensures
        ({
            let c = counted(entries, entries.len() as int);
            let all = counted(entries.push(e), entries.len() as int + 1);
            let hidden = e.name@.len() > 0 && e.name@[0] == '.';
            &&& all.kinds.len() == c.kinds.len() + if hidden || e.is_dir {
                0int
            } else {
                1int
            }
            &&& all.dirs == if hidden || !e.is_dir {
                c.dirs
            } else {
                c.dirs.push(e.name@)
            }
        }),
{
    lemma_counted_of_beginning(entries, e, entries.len() as int);
    assert(entries.push(e)[entries.len() as int] == e);
    reveal_strlit(".");
    assert("."@ =~= seq!['.']);
    if e.name@.len() > 0 {
        assert(e.name@.take(1) =~= seq![e.name@[0]]);
        assert(e.name@.take(1)[0] == e.name@[0] && "."@[0] == '.');
    }
}

proof fn lemma_counted_of_beginning(entries: Seq<DirEntry>, e: DirEntry, n: int)
    requires
        0 <= n <= entries.len(),
    ensures
        counted(entries.push(e), n) == counted(entries, n),
    decreases n,
{
    if n > 0 {
        lemma_counted_of_beginning(entries, e, n - 1);
        assert(entries.push(e)[n - 1] == entries[n - 1]);
    }
}

/// The kind of a file is what stands behind the last dot of its name.
pub proof fn kinds_stand_behind_the_last_dot(stem: Seq<char>, end: Seq<char>)
    requires
        stem.len() > 0,
        stem[0] != '.',
        end.len() > 0,
        !end.contains('.'),
    ensures
        ending(stem + seq!['.'] + end) == end,
        ending(seq!['.'] + end) == "<dotfile>"@,
        ending(end) == "<none>"@,
{
    let name = stem + seq!['.'] + end;
    assert forall|i: int| stem.len() < i < name.len() implies name[i] != '.' by {
        assert(name[i] == end[i - stem.len() - 1]);
        assert(end.contains(end[i - stem.len() - 1]));
    }
    lemma_last_dot(name, stem.len() as int);
    assert(name.skip(stem.len() as int + 1) =~= end);
    let dot = seq!['.'] + end;
    assert forall|i: int| 0 < i < dot.len() implies dot[i] != '.' by {
        assert(dot[i] == end[i - 1]);
        assert(end.contains(end[i - 1]));
    }
    lemma_last_dot(dot, 0);
    lemma_no_dot(end);
    assert(end.contains(end[0]));
}

proof fn lemma_no_dot(s: Seq<char>)
    requires
        !s.contains('.'),
    ensures
        last_dot(s) == -1,
    decreases s.len(),
{
    if s.len() > 0 {
        assert(s.contains(s[s.len() - 1]));
        assert(!s.drop_last().contains('.')) by {
            if s.drop_last().contains('.') {
                let i = choose|i: int| 0 <= i < s.drop_last().len() && s.drop_last()[i] == '.';
                assert(s[i] == '.');
            }
        }
        lemma_no_dot(s.drop_last());
    }
}

/// Before anything was read a repository counts as clean, on no branch and not detached.
pub proof fn unread_repositories_are_clean()
    ensures
        ({
            let s = no_status();
            &&& s.branch is None && s.head is None && !s.detached
            &&& s.ahead == 0 && s.behind == 0
            &&& s.staged == 0 && s.unstaged == 0 && s.untracked == 0
        }),
{
}

} // verus!
