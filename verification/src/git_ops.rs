//! Work on repositories with `git`: what is run, and what its output means.

use crate::ascii::{clipped, take_chars};
use crate::digits::{decimal, decimal_text};
use crate::handler_error::{fault, outcome, require_str, required_text, Fault, HandlerError, HandlerResult};
use crate::json::{
    as_count, as_flag, as_text, count, count_field, field, fields, flag_field, get, group_json_views, lemma_get_put,
    no_fields, no_object, set_field, string, text_field, trees, Entries, Fields, Json, Num, Object, Tree,
};
use crate::paths::{absolute, climbs, has_parent_part, is_absolute, is_under, join, joined, parent, parent_of, under};
use crate::policy::{resolved, Policy, Resolution};
use crate::records::{numstat_of, read_numstat, record_texts, split_records};
use crate::text::{
    blank, byte_len, bytes_of, cat2, cat3, cat4, chars_of, contained, contains, debug_text, from_utf8_lossy, is_blank,
    lemma_first_index, lemma_first_index_is, lines, lossy_text, lowercase_text, once, opt_view, pieces, quoted, replace,
    replaced, rows, same, split, split_once, strip_prefix, stripped, to_lowercase, trim, trimmed, views, white,
};
use vstd::prelude::*;

verus! {

/// How long `git` may take on this machine, and over the network, in seconds.
pub const LOCAL_TIMEOUT_SECS: u64 = 15;

pub const NET_TIMEOUT_SECS: u64 = 50;

/// The largest patch that is applied, in bytes.
pub const MAX_PATCH: usize = 5_242_880;

/// The largest patch of one file that is shown, in bytes.
pub const MAX_DIFF_PATCH: u64 = 131_072;

/// How many references of a remote are told.
pub const MAX_REFS: usize = 200;

/// How much of what `git` says is told, in characters.
pub const SCRUB_CHARS: usize = 2000;

/// What `git` says, without the path of the repository.
pub open spec fn scrubbed(bytes: Seq<u8>, root: Seq<char>) -> Seq<char> {
    let short = replaced(lossy_text(bytes), root + "/"@, ""@);
    clipped(
        trimmed(
            if root.len() == 0 {
                short
            } else {
                replaced(short, root, ""@)
            },
        ),
        SCRUB_CHARS as int,
    )
}

/// What `git` says, without the path of the repository.
pub fn scrub(bytes: &[u8], root: &str) -> (r: String)
    ensures
        r@ == scrubbed(bytes@, root@),
{
    let inner = cat2(root, "/");
    proof {
        reveal_strlit("/");
        assert(inner@.len() > 0);
    }
    let (short, _) = replace(&from_utf8_lossy(bytes), &inner, "");
    let rest = if root.is_empty() {
        short
    } else {
        replace(&short, root, "").0
    };
    take_chars(&trim(&rest), SCRUB_CHARS)
}

/// The command line that runs `git` in a directory, without its file monitor.
pub fn git_argv(root: &str, args: &Vec<String>) -> (r: Vec<String>)
    ensures
        views(r@) == seq!["git"@, "-C"@, root@, "-c"@, "core.fsmonitor=false"@] + views(args@),
{
    let mut argv: Vec<String> = vec![
        "git".to_owned(),
        "-C".to_owned(),
        root.to_owned(),
        "-c".to_owned(),
        "core.fsmonitor=false".to_owned(),
    ];
    let ghost head = seq!["git"@, "-C"@, root@, "-c"@, "core.fsmonitor=false"@];
    assert(views(argv@) =~= head + views(args@).take(0));
    let mut i: usize = 0;
    while i < args.len()
        invariant
            i <= args@.len(),
            views(argv@) == head + views(args@).take(i as int),
        decreases args@.len() - i,
    {
        append(&mut argv, &args[i]);
        assert(views(args@)[i as int] == args@[i as int]@);
        assert(views(argv@) =~= head + views(args@).take(i + 1));
        i = i + 1;
    }
    assert(views(args@).take(i as int) =~= views(args@));
    argv
}

/// What `git` finds in its environment: it asks nothing, takes no locks that it can do
/// without, pages nothing, and reads no settings of the machine.
pub fn git_env() -> (r: Vec<(String, String)>)
    ensures
        r@.len() == 5,
        r@[0].0@ == "GIT_TERMINAL_PROMPT"@ && r@[0].1@ == "0"@,
        r@[1].0@ == "GIT_OPTIONAL_LOCKS"@ && r@[1].1@ == "0"@,
        r@[2].0@ == "GIT_PAGER"@ && r@[2].1@ == "cat"@,
        r@[3].0@ == "GIT_CONFIG_NOSYSTEM"@ && r@[3].1@ == "1"@,
        r@[4].0@ == "LC_ALL"@ && r@[4].1@ == "C"@,
{
    vec![
        ("GIT_TERMINAL_PROMPT".to_owned(), "0".to_owned()),
        ("GIT_OPTIONAL_LOCKS".to_owned(), "0".to_owned()),
        ("GIT_PAGER".to_owned(), "cat".to_owned()),
        ("GIT_CONFIG_NOSYSTEM".to_owned(), "1".to_owned()),
        ("LC_ALL".to_owned(), "C".to_owned()),
    ]
}

/// What keeps `git` from ending by itself.
pub enum GitFault {
    NotStarted(String),
    NoInput,
    InputLost(String),
    Lost(String),
    TimedOut,
}

pub open spec fn git_fault(f: GitFault, args: Seq<Seq<char>>) -> Fault {
    match f {
        GitFault::NotStarted(e) => fault("git_failed"@, "failed to start git: "@ + e@),
        GitFault::NoInput => fault("git_failed"@, "git stdin was unavailable"@),
        GitFault::InputLost(e) => fault("git_failed"@, "failed writing git stdin: "@ + e@),
        GitFault::Lost(e) => fault("git_failed"@, "git failed: "@ + e@),
        GitFault::TimedOut => fault(
            "git_timeout"@,
            "git "@ + (if args.len() > 0 {
                args[0]
            } else {
                "?"@
            }) + " timed out"@,
        ),
    }
}

/// A `git` that did not end by itself.
pub fn git_failure(f: &GitFault, args: &Vec<String>) -> (r: HandlerError)
    ensures
        r@ == git_fault(*f, views(args@)),
{
    match f {
        GitFault::NotStarted(e) => HandlerError::new("git_failed", &cat2("failed to start git: ", e)),
        GitFault::NoInput => HandlerError::new("git_failed", "git stdin was unavailable"),
        GitFault::InputLost(e) => HandlerError::new("git_failed", &cat2("failed writing git stdin: ", e)),
        GitFault::Lost(e) => HandlerError::new("git_failed", &cat2("git failed: ", e)),
        GitFault::TimedOut => {
            let first = if args.len() > 0 {
                args[0].clone()
            } else {
                "?".to_owned()
            };
            HandlerError::new("git_timeout", &cat3("git ", &first, " timed out"))
        },
    }
}

/// The command that finds the root of a repository.
pub fn toplevel_args() -> (r: Vec<String>)
    ensures
        views(r@) == seq!["rev-parse"@, "--show-toplevel"@],
{
    let v: Vec<String> = vec!["rev-parse".to_owned(), "--show-toplevel".to_owned()];
    assert(views(v@) =~= seq!["rev-parse"@, "--show-toplevel"@]);
    v
}

/// The operations on repositories.
#[derive(Debug, Clone, Copy, PartialEq, Eq, Structural)]
pub enum GitOp {
    Diff,
    ApplyPatch,
    LsRemote,
    Fetch,
    CloneRepo,
    Push,
}

pub open spec fn git_op_of(payload: Fields) -> Result<GitOp, Fault> {
    match as_text(get(payload, "operation"@)) {
        Some(s) => if s == "diff"@ {
            Ok(GitOp::Diff)
        } else if s == "apply_patch"@ {
            Ok(GitOp::ApplyPatch)
        } else if s == "ls_remote"@ {
            Ok(GitOp::LsRemote)
        } else if s == "fetch"@ {
            Ok(GitOp::Fetch)
        } else if s == "clone"@ {
            Ok(GitOp::CloneRepo)
        } else if s == "push"@ {
            Ok(GitOp::Push)
        } else {
            Err(unknown_operation("Some("@ + debug_text(s) + ")"@))
        },
        None => Err(unknown_operation("None"@)),
    }
}

pub open spec fn unknown_operation(got: Seq<char>) -> Fault {
    fault(
        "invalid_payload"@,
        "git operation must be diff, apply_patch, ls_remote, fetch, clone or push (got "@ + got + ")"@,
    )
}

/// The operation that a request names.
pub fn git_op(payload: &Object) -> (r: Result<GitOp, HandlerError>)
    ensures
        (match r {
            Ok(op) => Ok(op),
            Err(e) => Err(e@),
        }) == git_op_of(fields(payload@)),
{
    let got = match text_field(payload, "operation") {
        Some(s) => {
            if same(s, "diff") {
                return Ok(GitOp::Diff);
            }
            if same(s, "apply_patch") {
                return Ok(GitOp::ApplyPatch);
            }
            if same(s, "ls_remote") {
                return Ok(GitOp::LsRemote);
            }
            if same(s, "fetch") {
                return Ok(GitOp::Fetch);
            }
            if same(s, "clone") {
                return Ok(GitOp::CloneRepo);
            }
            if same(s, "push") {
                return Ok(GitOp::Push);
            }
            cat3("Some(", &quoted(s), ")")
        },
        None => "None".to_owned(),
    };
    Err(
        HandlerError::new(
            "invalid_payload",
            &cat3("git operation must be diff, apply_patch, ls_remote, fetch, clone or push (got ", &got, ")"),
        ),
    )
}

/// Where `git` is run to find a repository.
pub open spec fn git_start_of(policy: Policy, requested: Seq<char>, write: bool, seen: Resolution) -> Result<Seq<char>, Fault> {
    match resolved(policy, requested, write, seen) {
        Some(p) => Ok(p),
        None => Err(
            fault(
                "path_not_allowed"@,
                "git path "@ + debug_text(requested) + " is outside the file_ops allowlist"@,
            ),
        ),
    }
}

pub open spec fn text_view(r: Result<String, HandlerError>) -> Result<Seq<char>, Fault> {
    match r {
        Ok(s) => Ok(s@),
        Err(e) => Err(e@),
    }
}

/// Where `git` is run to find the repository of a path.
pub fn git_start(policy: &Policy, requested: &str, write: bool, seen: &Resolution) -> (r: Result<String, HandlerError>)
    ensures
        text_view(r) == git_start_of(*policy, requested@, write, *seen),
{
    match policy.resolve_path(requested, write, seen) {
        Some(p) => Ok(p),
        None => Err(
            HandlerError::new(
                "path_not_allowed",
                &cat3("git path ", &quoted(requested), " is outside the file_ops allowlist"),
            ),
        ),
    }
}

/// Whether a path can hold a repository.
pub fn check_start(requested: &str, present: bool, is_dir: bool) -> (r: Result<(), HandlerError>)
    ensures
        match r {
            Ok(_) => present && is_dir,
            Err(e) => !(present && is_dir) && e@ == if !present {
                fault("not_found"@, "path does not exist: "@ + debug_text(requested@))
            } else {
                fault("is_file"@, "git expects a directory or a path inside a repository"@)
            },
        },
{
    if !present {
        Err(HandlerError::new("not_found", &cat2("path does not exist: ", &quoted(requested))))
    } else if !is_dir {
        Err(HandlerError::new("is_file", "git expects a directory or a path inside a repository"))
    } else {
        Ok(())
    }
}

/// What `git rev-parse --show-toplevel` says of a path.
pub open spec fn toplevel_of(requested: Seq<char>, code: i32, stdout: Seq<u8>, stderr: Seq<u8>) -> Result<Seq<char>, Fault> {
    let text = lowercase_text(lossy_text(stderr));
    if code == 0 && stdout.len() > 0 {
        Ok(trimmed(lossy_text(stdout)))
    } else if contained(text, "dubious ownership"@) {
        Err(
            fault(
                "git_dubious_ownership"@,
                "git refuses this repository because of dubious ownership; fix ownership or configure safe.directory for the agent account"@,
            ),
        )
    } else if contained(text, "permission denied"@) && !contained(text, "publickey"@) {
        Err(fault("permission_denied"@, "the agent account cannot read this repository"@))
    } else {
        Err(
            fault(
                "not_a_git_repo"@,
                debug_text(requested)
                    + " is not inside a git repository; retrying the same path will not change that"@,
            ),
        )
    }
}

/// The root of the repository that `git rev-parse --show-toplevel` found.
pub fn toplevel(requested: &str, code: i32, stdout: &[u8], stderr: &[u8]) -> (r: Result<String, HandlerError>)
    ensures
        text_view(r) == toplevel_of(requested@, code, stdout@, stderr@),
{
    if code == 0 && stdout.len() > 0 {
        return Ok(trim(&from_utf8_lossy(stdout)));
    }
    let text = to_lowercase(&from_utf8_lossy(stderr));
    if contains(&text, "dubious ownership") {
        return Err(
            HandlerError::new(
                "git_dubious_ownership",
                "git refuses this repository because of dubious ownership; fix ownership or configure safe.directory for the agent account",
            ),
        );
    }
    if contains(&text, "permission denied") && !contains(&text, "publickey") {
        return Err(HandlerError::new("permission_denied", "the agent account cannot read this repository"));
    }
    Err(
        HandlerError::new(
            "not_a_git_repo",
            &cat2(
                &quoted(requested),
                " is not inside a git repository; retrying the same path will not change that",
            ),
        ),
    )
}

/// The root of a repository, where the policy opens it.
pub open spec fn git_root_of(policy: Policy, root: Seq<char>, write: bool, seen: Resolution) -> Result<Seq<char>, Fault> {
    match resolved(policy, root, write, seen) {
        Some(p) => Ok(p),
        None => Err(
            fault(
                "git_root_outside_allowlist"@,
                "repository root "@ + debug_text(root) + " lies outside the required file_ops boundary"@,
            ),
        ),
    }
}

/// The root of a repository, where the policy opens it.
pub fn git_root(policy: &Policy, root: &str, write: bool, seen: &Resolution) -> (r: Result<String, HandlerError>)
    ensures
        text_view(r) == git_root_of(*policy, root@, write, *seen),
{
    match policy.resolve_path(root, write, seen) {
        Some(p) => Ok(p),
        None => Err(
            HandlerError::new(
                "git_root_outside_allowlist",
                &cat3("repository root ", &quoted(root), " lies outside the required file_ops boundary"),
            ),
        ),
    }
}

/// What a letter of `git diff --name-status` stands for.
pub open spec fn status_word(letter: char) -> Seq<char> {
    if letter == 'A' {
        "added"@
    } else if letter == 'M' {
        "modified"@
    } else if letter == 'D' {
        "deleted"@
    } else if letter == 'R' {
        "renamed"@
    } else if letter == 'C' {
        "copied"@
    } else if letter == 'T' {
        "typechange"@
    } else if letter == 'U' {
        "unmerged"@
    } else {
        "changed"@
    }
}

pub fn status_name(letter: char) -> (r: &'static str)
    ensures
        r@ == status_word(letter),
{
    if letter == 'A' {
        "added"
    } else if letter == 'M' {
        "modified"
    } else if letter == 'D' {
        "deleted"
    } else if letter == 'R' {
        "renamed"
    } else if letter == 'C' {
        "copied"
    } else if letter == 'T' {
        "typechange"
    } else if letter == 'U' {
        "unmerged"
    } else {
        "changed"
    }
}

/// A file that changed.
#[derive(Debug, PartialEq, Eq)]
pub struct ChangedFile {
    pub path: String,
    pub status: String,
    pub old_path: Option<String>,
}

/// What a `ChangedFile` says.
pub type Changed = (Seq<char>, Seq<char>, Option<Seq<char>>);

pub open spec fn changed_views(list: Seq<ChangedFile>) -> Seq<Changed> {
    Seq::new(list.len(), |i: int| (list[i].path@, list[i].status@, opt_view(list[i].old_path)))
}

/// The changed files from the `i`-th record on.
pub open spec fn changed_from(records: Seq<Seq<char>>, i: int) -> Seq<Changed>
    decreases records.len() - i,
{
    if i < 0 || i >= records.len() {
        Seq::empty()
    } else if records[i].len() == 0 {
        changed_from(records, i + 1)
    } else {
        let letter = records[i][0];
        if letter == 'R' || letter == 'C' {
            if i + 2 >= records.len() {
                Seq::empty()
            } else {
                seq![(records[i + 2], status_word(letter), Some(records[i + 1]))] + changed_from(records, i + 3)
            }
        } else if i + 1 >= records.len() {
            Seq::empty()
        } else {
            seq![(records[i + 1], status_word(letter), None)] + changed_from(records, i + 2)
        }
    }
}

/// The changed files that `git diff --name-status -z` prints.
pub fn parse_name_status(raw: &[u8]) -> (r: Vec<ChangedFile>)
    ensures
        changed_views(r@) == changed_from(record_texts(raw@), 0),
{
    let records = split_records(raw);
    let ghost all = record_texts(raw@);
    let total = records.len();
    let mut out: Vec<ChangedFile> = Vec::new();
    let mut i: usize = 0;
    assert(changed_views(out@) + changed_from(all, 0) =~= changed_from(all, 0));
    while i < total
        invariant_except_break
            changed_views(out@) + changed_from(all, i as int) == changed_from(all, 0),
        invariant
            i <= total,
            total == records@.len(),
            all == views(records@),
        ensures
            changed_views(out@) == changed_from(all, 0),
        decreases total - i,
    {
        let ghost before = changed_views(out@);
        assert(all[i as int] == records@[i as int]@);
        let chars = chars_of(&records[i]);
        if chars.len() == 0 {
            i = i + 1;
            if i == total {
                assert(before + changed_from(all, i as int) =~= before);
            }
            continue ;
        }
        let letter = chars[0];
        if letter == 'R' || letter == 'C' {
            if total - i <= 2 {
                assert(before + Seq::<Changed>::empty() =~= before);
                break;
            }
            assert(all[i + 1] == records@[i + 1]@ && all[i + 2] == records@[i + 2]@);
            out.push(
                ChangedFile {
                    path: records[i + 2].clone(),
                    status: status_name(letter).to_owned(),
                    old_path: Some(records[i + 1].clone()),
                },
            );
            let ghost item = (all[i + 2], status_word(letter), Some(all[i + 1]));
            assert(changed_views(out@) =~= before.push(item));
            assert(before + (seq![item] + changed_from(all, i + 3)) =~= before.push(item) + changed_from(all, i + 3));
            i = i + 3;
        } else {
            if total - i <= 1 {
                assert(before + Seq::<Changed>::empty() =~= before);
                break;
            }
            assert(all[i + 1] == records@[i + 1]@);
            out.push(
                ChangedFile {
                    path: records[i + 1].clone(),
                    status: status_name(letter).to_owned(),
                    old_path: None,
                },
            );
            let ghost item: Changed = (all[i + 1], status_word(letter), None);
            assert(changed_views(out@) =~= before.push(item));
            assert(before + (seq![item] + changed_from(all, i + 2)) =~= before.push(item) + changed_from(all, i + 2));
            i = i + 2;
        }
        if i >= total {
            assert(changed_views(out@) + changed_from(all, i as int) =~= changed_views(out@));
        }
    }
    out
}

/// How changes are shown.
pub struct DiffPlan {
    pub base_ref: String,
    pub staged: bool,
    pub unstaged: bool,
    pub include_untracked: bool,
    pub context: u64,
    pub max_files: usize,
    pub max_patch: usize,
}

/// What a `DiffPlan` says.
pub struct Shown {
    pub base_ref: Seq<char>,
    pub staged: bool,
    pub unstaged: bool,
    pub include_untracked: bool,
    pub context: int,
    pub max_files: int,
    pub max_patch: int,
}

impl View for DiffPlan {
    type V = Shown;

    open spec fn view(&self) -> Shown {
        Shown {
            base_ref: self.base_ref@,
            staged: self.staged,
            unstaged: self.unstaged,
            include_untracked: self.include_untracked,
            context: self.context as int,
            max_files: self.max_files as int,
            max_patch: self.max_patch as int,
        }
    }
}

pub open spec fn count_within(v: Option<u64>, default: u64, low: u64, high: u64) -> int {
    let n = match v {
        Some(n) => n,
        None => default,
    };
    if n < low {
        low as int
    } else if n > high {
        high as int
    } else {
        n as int
    }
}

fn clamp_count(v: Option<u64>, default: u64, low: u64, high: u64) -> (r: u64)
    requires
        low <= high,
    ensures
        r == count_within(v, default, low, high),
        low <= r <= high,
{
    let n = match v {
        Some(n) => n,
        None => default,
    };
    if n < low {
        low
    } else if n > high {
        high
    } else {
        n
    }
}

/// How a request wants changes shown.
pub open spec fn shown_of(payload: Fields) -> Result<Shown, Fault> {
    let staged = as_flag(get(payload, "staged"@)) != Some(false);
    let unstaged = as_flag(get(payload, "unstaged"@)) != Some(false);
    if !staged && !unstaged {
        Err(fault("invalid_payload"@, "at least one of staged / unstaged must be true"@))
    } else {
        Ok(
            Shown {
                base_ref: match as_text(get(payload, "base_ref"@)) {
                    Some(s) => s,
                    None => "HEAD"@,
                },
                staged,
                unstaged,
                include_untracked: as_flag(get(payload, "include_untracked"@)) != Some(false),
                context: count_within(as_count(get(payload, "context_lines"@)), 3, 0, 10),
                max_files: count_within(as_count(get(payload, "max_files"@)), 50, 1, 50),
                max_patch: count_within(as_count(get(payload, "max_patch_bytes"@)), MAX_DIFF_PATCH, 1024, MAX_DIFF_PATCH),
            },
        )
    }
}

fn flag_or(payload: &Object, key: &str, default: bool) -> (r: bool)
    ensures
        r == match as_flag(get(fields(payload@), key@)) {
            Some(b) => b,
            None => default,
        },
{
    match flag_field(payload, key) {
        Some(b) => b,
        None => default,
    }
}

/// How a request wants changes shown.
pub fn diff_plan(payload: &Object) -> (r: Result<DiffPlan, HandlerError>)
    ensures
        (match r {
            Ok(p) => Ok(p@),
            Err(e) => Err(e@),
        }) == shown_of(fields(payload@)),
{
    let staged = flag_or(payload, "staged", true);
    let unstaged = flag_or(payload, "unstaged", true);
    if !staged && !unstaged {
        return Err(HandlerError::new("invalid_payload", "at least one of staged / unstaged must be true"));
    }
    let base_ref = match text_field(payload, "base_ref") {
        Some(s) => s.to_owned(),
        None => "HEAD".to_owned(),
    };
    let max_files = clamp_count(count_field(payload, "max_files"), 50, 1, 50) as usize;
    let max_patch = clamp_count(count_field(payload, "max_patch_bytes"), MAX_DIFF_PATCH, 1024, MAX_DIFF_PATCH) as usize;
    Ok(
        DiffPlan {
            base_ref,
            staged,
            unstaged,
            include_untracked: flag_or(payload, "include_untracked", true),
            context: clamp_count(count_field(payload, "context_lines"), 3, 0, 10),
            max_files,
            max_patch,
        },
    )
}

/// Which changes `git diff` compares.
pub open spec fn selector(p: Shown) -> Seq<Seq<char>> {
    if p.staged && p.unstaged {
        seq!["diff"@, p.base_ref]
    } else if p.staged {
        seq!["diff"@, "--cached"@, p.base_ref]
    } else {
        seq!["diff"@]
    }
}

fn selector_args(p: &DiffPlan) -> (r: Vec<String>)
    ensures
        views(r@) == selector(p@),
{
    if p.staged && p.unstaged {
        let v: Vec<String> = vec!["diff".to_owned(), p.base_ref.clone()];
        assert(views(v@) =~= selector(p@));
        v
    } else if p.staged {
        let v: Vec<String> = vec!["diff".to_owned(), "--cached".to_owned(), p.base_ref.clone()];
        assert(views(v@) =~= selector(p@));
        v
    } else {
        let v: Vec<String> = vec!["diff".to_owned()];
        assert(views(v@) =~= selector(p@));
        v
    }
}

fn append(list: &mut Vec<String>, text: &str)
    ensures
        views(final(list)@) == views(old(list)@).push(text@),
{
    list.push(text.to_owned());
    assert(views(list@) =~= views(old(list)@).push(text@));
}

/// The command that counts changes.
pub fn numstat_args(p: &DiffPlan) -> (r: Vec<String>)
    ensures
        views(r@) == selector(p@) + seq!["--no-ext-diff"@, "--numstat"@, "-z"@],
{
    let mut args = selector_args(p);
    append(&mut args, "--no-ext-diff");
    append(&mut args, "--numstat");
    append(&mut args, "-z");
    assert(views(args@) =~= selector(p@) + seq!["--no-ext-diff"@, "--numstat"@, "-z"@]);
    args
}

/// The command that names changed files.
pub fn names_args(p: &DiffPlan) -> (r: Vec<String>)
    ensures
        views(r@) == selector(p@) + seq!["--no-ext-diff"@, "--name-status"@, "-z"@],
{
    let mut args = selector_args(p);
    append(&mut args, "--no-ext-diff");
    append(&mut args, "--name-status");
    append(&mut args, "-z");
    assert(views(args@) =~= selector(p@) + seq!["--no-ext-diff"@, "--name-status"@, "-z"@]);
    args
}

/// The command that names files that are not tracked.
pub fn untracked_args() -> (r: Vec<String>)
    ensures
        views(r@) == seq!["ls-files"@, "--others"@, "--exclude-standard"@, "-z"@],
{
    let v: Vec<String> = vec![
        "ls-files".to_owned(),
        "--others".to_owned(),
        "--exclude-standard".to_owned(),
        "-z".to_owned(),
    ];
    assert(views(v@) =~= seq!["ls-files"@, "--others"@, "--exclude-standard"@, "-z"@]);
    v
}

/// The command that shows the changes of a file.
pub open spec fn patch_args_of(p: Shown, file: Changed) -> Seq<Seq<char>> {
    let head = selector(p) + seq!["--no-ext-diff"@, "--unified="@ + decimal(p.context as nat), "--"@];
    match file.2 {
        Some(old_path) => head.push(old_path).push(file.0),
        None => head.push(file.0),
    }
}

/// The command that shows the changes of a file.
pub fn patch_args(p: &DiffPlan, file: &ChangedFile) -> (r: Vec<String>)
    ensures
        views(r@) == patch_args_of(p@, (file.path@, file.status@, opt_view(file.old_path))),
{
    let mut args = selector_args(p);
    append(&mut args, "--no-ext-diff");
    append(&mut args, &cat2("--unified=", &decimal_text(p.context)));
    append(&mut args, "--");
    assert(views(args@) =~= selector(p@) + seq!["--no-ext-diff"@, "--unified="@ + decimal(p@.context as nat), "--"@]);
    if let Some(old_path) = &file.old_path {
        append(&mut args, old_path);
    }
    append(&mut args, &file.path);
    args
}

/// A changed file as it is told, with its patch where that is not too long.
pub open spec fn changed_tree(file: Changed, patch: Seq<u8>, max_patch: int) -> Tree {
    let o = no_fields().with("path"@, Tree::Text(file.0)).with("status"@, Tree::Text(file.1)).with(
        "patch"@,
        if patch.len() <= max_patch {
            Tree::Text(lossy_text(patch))
        } else {
            Tree::Null
        },
    );
    Tree::Object(
        match file.2 {
            Some(old_path) => o.with("old_path"@, Tree::Text(old_path)),
            None => o,
        },
    )
}

/// A file that is not tracked, as it is told.
pub open spec fn untracked_tree(path: Seq<char>) -> Tree {
    Tree::Object(
        no_fields().with("path"@, Tree::Text(path)).with("status"@, Tree::Text("untracked"@)).with(
            "insertions"@,
            Tree::Number(Num::Pos(0)),
        ).with("deletions"@, Tree::Number(Num::Pos(0))).with("binary"@, Tree::Bool(false)).with("patch"@, Tree::Null),
    )
}

fn describe_changed(file: &ChangedFile, patch: &Vec<u8>, max_patch: usize) -> (r: Json)
    ensures
        r@ == changed_tree((file.path@, file.status@, opt_view(file.old_path)), patch@, max_patch as int),
{
    broadcast use group_json_views;

    let shown = if patch.len() <= max_patch {
        Json::Text(from_utf8_lossy(patch.as_slice()))
    } else {
        Json::Null
    };
    let mut o = no_object();
    set_field(&mut o, "path", string(&file.path));
    set_field(&mut o, "status", string(&file.status));
    set_field(&mut o, "patch", shown);
    if let Some(old_path) = &file.old_path {
        set_field(&mut o, "old_path", string(old_path));
    }
    Json::Object(o)
}

fn describe_untracked(path: &str) -> (r: Json)
    ensures
        r@ == untracked_tree(path@),
{
    broadcast use group_json_views;

    let mut o = no_object();
    set_field(&mut o, "path", string(path));
    set_field(&mut o, "status", string("untracked"));
    set_field(&mut o, "insertions", count(0));
    set_field(&mut o, "deletions", count(0));
    set_field(&mut o, "binary", Json::Bool(false));
    set_field(&mut o, "patch", Json::Null);
    Json::Object(o)
}

/// What `git` printed of changes: counts, and each changed file with its patch, as
/// many of them as are shown.
pub struct DiffOutput {
    pub numstat: Vec<u8>,
    pub changed: Vec<ChangedFile>,
    pub patches: Vec<Vec<u8>>,
    pub untracked: Vec<String>,
}

/// How many changed files are shown.
pub open spec fn shown_count(changed: int, max_files: int) -> int {
    if changed < max_files {
        changed
    } else {
        max_files
    }
}

/// How many changed files are shown.
pub fn patches_wanted(p: &DiffPlan, changed: &Vec<ChangedFile>) -> (r: usize)
    ensures
        r == shown_count(changed@.len() as int, p@.max_files),
{
    if changed.len() < p.max_files {
        changed.len()
    } else {
        p.max_files
    }
}

/// The changed files that are shown, and those that are not tracked behind them, as
/// long as there is room.
pub open spec fn diff_entries(p: Shown, d: DiffOutput) -> Seq<Tree> {
    let n = shown_count(d.changed@.len() as int, p.max_files);
    let room = p.max_files - n;
    let extra = if d.untracked@.len() < room {
        d.untracked@.len() as int
    } else {
        room
    };
    Seq::new(
        n as nat,
        |i: int| changed_tree(changed_views(d.changed@)[i], d.patches@[i]@, p.max_patch),
    ) + Seq::new(extra as nat, |i: int| untracked_tree(d.untracked@[i]@))
}

/// A shown patch was too long.
pub open spec fn patch_cut(p: Shown, d: DiffOutput) -> bool {
    exists|i: int|
        0 <= i < shown_count(d.changed@.len() as int, p.max_files) && (#[trigger] d.patches@[i])@.len() > p.max_patch
}

/// What is answered of changes.
pub open spec fn diff_fields(root: Seq<char>, p: Shown, d: DiffOutput) -> Fields {
    let (files, ins, dels) = numstat_of(d.numstat@, true);
    no_fields().with("ok"@, Tree::Bool(true)).with("version"@, Tree::Number(Num::Pos(1))).with("root"@, Tree::Text(root)).with(
        "base_ref"@,
        Tree::Text(p.base_ref),
    ).with(
        "summary"@,
        Tree::Object(
            no_fields().with("files"@, Tree::Number(Num::Pos(files))).with("insertions"@, Tree::Number(Num::Pos(ins))).with(
                "deletions"@,
                Tree::Number(Num::Pos(dels)),
            ).with("untracked"@, Tree::Number(Num::Pos(d.untracked@.len() as u64))),
        ),
    ).with("files"@, Tree::Array(diff_entries(p, d))).with(
        "truncated"@,
        Tree::Object(
            no_fields().with(
                "files"@,
                Tree::Bool(d.changed@.len() + d.untracked@.len() > p.max_files),
            ).with("patch"@, Tree::Bool(patch_cut(p, d))),
        ),
    )
}

/// What is answered of changes, from what `git` printed.
pub fn diff_result(root: &str, p: &DiffPlan, d: &DiffOutput) -> (r: Object)
    requires
        d.patches@.len() == shown_count(d.changed@.len() as int, p@.max_files),
    ensures
        fields(r@) == diff_fields(root@, p@, *d),
{
    broadcast use group_json_views;

    let (files, ins, dels) = read_numstat(d.numstat.as_slice(), true);
    let shown = d.patches.len();
    let ghost first = Seq::new(
        shown as nat,
        |i: int| changed_tree(changed_views(d.changed@)[i], d.patches@[i]@, p@.max_patch),
    );
    let mut entries: Vec<Json> = Vec::new();
    let mut cut = false;
    let mut i: usize = 0;
    while i < shown
        invariant
            i <= shown,
            shown == d.patches@.len(),
            shown == shown_count(d.changed@.len() as int, p@.max_files),
            first == Seq::new(
                shown as nat,
                |i: int| changed_tree(changed_views(d.changed@)[i], d.patches@[i]@, p@.max_patch),
            ),
            trees(entries@) == first.take(i as int),
            cut == exists|j: int| 0 <= j < i && (#[trigger] d.patches@[j])@.len() > p@.max_patch,
        decreases shown - i,
    {
        let ghost before = trees(entries@);
        assert(changed_views(d.changed@)[i as int] == (
            d.changed@[i as int].path@,
            d.changed@[i as int].status@,
            opt_view(d.changed@[i as int].old_path),
        ));
        entries.push(describe_changed(&d.changed[i], &d.patches[i], p.max_patch));
        assert(trees(entries@) =~= before.push(first[i as int]));
        assert(first.take(i + 1) =~= first.take(i as int).push(first[i as int]));
        if d.patches[i].len() > p.max_patch {
            assert(d.patches@[i as int]@.len() > p@.max_patch);
            cut = true;
        }
        i = i + 1;
    }
    assert(first.take(shown as int) =~= first);
    let room = p.max_files - shown;
    let extra = if d.untracked.len() < room {
        d.untracked.len()
    } else {
        room
    };
    let ghost second = Seq::new(extra as nat, |i: int| untracked_tree(d.untracked@[i]@));
    let mut j: usize = 0;
    assert(first + second.take(0) =~= first);
    while j < extra
        invariant
            j <= extra <= d.untracked@.len(),
            second == Seq::new(extra as nat, |i: int| untracked_tree(d.untracked@[i]@)),
            trees(entries@) == first + second.take(j as int),
        decreases extra - j,
    {
        let ghost before = trees(entries@);
        entries.push(describe_untracked(&d.untracked[j]));
        assert(trees(entries@) =~= before.push(second[j as int]));
        assert(before.push(second[j as int]) =~= first + second.take(j + 1));
        j = j + 1;
    }
    assert(second.take(extra as int) =~= second);
    assert(trees(entries@) =~= diff_entries(p@, *d));
    let mut summary = no_object();
    set_field(&mut summary, "files", count(files));
    set_field(&mut summary, "insertions", count(ins));
    set_field(&mut summary, "deletions", count(dels));
    set_field(&mut summary, "untracked", count(d.untracked.len() as u64));
    let mut truncated = no_object();
    set_field(
        &mut truncated,
        "files",
        Json::Bool(d.changed.len() > p.max_files || d.untracked.len() > room),
    );
    set_field(&mut truncated, "patch", Json::Bool(cut));
    let mut o = no_object();
    set_field(&mut o, "ok", Json::Bool(true));
    set_field(&mut o, "version", count(1));
    set_field(&mut o, "root", string(root));
    set_field(&mut o, "base_ref", string(&p.base_ref));
    set_field(&mut o, "summary", Json::Object(summary));
    set_field(&mut o, "files", Json::Array(entries));
    set_field(&mut o, "truncated", Json::Object(truncated));
    o
}

/// The path that a line of a patch names.
pub open spec fn patch_target(line: Seq<char>) -> Option<Seq<char>> {
    let raw = match stripped(line, "--- "@) {
        Some(r) => Some(r),
        None => stripped(line, "+++ "@),
    };
    match raw {
        None => None,
        Some(r) => {
            let path = trimmed(pieces(r, '\t')[0]);
            if path == "/dev/null"@ || path.len() == 0 {
                None
            } else {
                match stripped(path, "a/"@) {
                    Some(rest) => Some(rest),
                    None => match stripped(path, "b/"@) {
                        Some(rest) => Some(rest),
                        None => Some(path),
                    },
                }
            }
        },
    }
}

/// The paths that lines name, each once.
pub open spec fn targets(lines: Seq<Seq<char>>) -> Seq<Seq<char>>
    decreases lines.len(),
{
    if lines.len() == 0 {
        Seq::empty()
    } else {
        let before = targets(lines.drop_last());
        match patch_target(lines.last()) {
            Some(p) => if before.contains(p) {
                before
            } else {
                before.push(p)
            },
            None => before,
        }
    }
}

fn line_target(line: &str) -> (r: Option<String>)
    ensures
        opt_view(r) == patch_target(line@),
{
    let raw = match strip_prefix(line, "--- ") {
        Some(r) => Some(r),
        None => strip_prefix(line, "+++ "),
    };
    let raw = match raw {
        Some(r) => r,
        None => {
            return None;
        },
    };
    let parts = split(&raw, '\t');
    assert(views(parts@)[0] == parts@[0]@);
    let path = trim(&parts[0]);
    if same(&path, "/dev/null") || path.as_str().is_empty() {
        return None;
    }
    match strip_prefix(&path, "a/") {
        Some(rest) => Some(rest),
        None => match strip_prefix(&path, "b/") {
            Some(rest) => Some(rest),
            None => Some(path),
        },
    }
}

/// The paths that a patch names, each once.
pub fn patch_paths(patch: &str) -> (r: Vec<String>)
    ensures
        views(r@) == targets(rows(patch@)),
{
    let all = lines(patch);
    let ghost texts = rows(patch@);
    let mut out: Vec<String> = Vec::new();
    let mut i: usize = 0;
    assert(views(out@) =~= targets(texts.take(0)));
    while i < all.len()
        invariant
            i <= all@.len(),
            texts == views(all@),
            views(out@) == targets(texts.take(i as int)),
        decreases all@.len() - i,
    {
        assert(texts.take(i + 1).drop_last() =~= texts.take(i as int));
        assert(texts.take(i + 1).last() == all@[i as int]@);
        if let Some(p) = line_target(&all[i]) {
            if !crate::order::has(&out, &p) {
                append(&mut out, &p);
            }
        }
        i = i + 1;
    }
    assert(texts.take(i as int) =~= texts);
    out
}

/// Why a path may not be patched, where that is so.
pub open spec fn patch_refusal(policy: Policy, root: Seq<char>, path: Seq<char>, seen: Resolution) -> Option<Fault> {
    if absolute(path) || climbs(path) {
        Some(fault("patch_unsafe_path"@, "unsafe patch path: "@ + debug_text(path)))
    } else {
        match resolved(policy, joined(root, path), true, seen) {
            None => Some(
                fault("path_not_allowed"@, "patch touches a path outside the rw allowlist: "@ + debug_text(path)),
            ),
            Some(p) => if !under(p, root) {
                Some(fault("patch_unsafe_path"@, "patch path escapes repository root: "@ + debug_text(path)))
            } else {
                None
            },
        }
    }
}

/// Why paths may not be patched: the first of them that may not.
pub open spec fn patch_refusals(
    policy: Policy,
    root: Seq<char>,
    paths: Seq<Seq<char>>,
    seen: Seq<Resolution>,
    i: int,
) -> Option<Fault>
    decreases paths.len() - i,
{
    if i < 0 || i >= paths.len() {
        None
    } else {
        match patch_refusal(policy, root, paths[i], seen[i]) {
            Some(f) => Some(f),
            None => patch_refusals(policy, root, paths, seen, i + 1),
        }
    }
}

/// Whether a patch keeps to the repository and to what may be written. `seen` holds,
/// for each path, what the file system says of it under `root`.
pub fn validate_patch_paths(policy: &Policy, root: &str, paths: &Vec<String>, seen: &Vec<Resolution>) -> (r: Result<
    (),
    HandlerError,
>)
    requires
        seen@.len() == paths@.len(),
    ensures
        (match r {
            Ok(_) => None,
            Err(e) => Some(e@),
        }) == patch_refusals(*policy, root@, views(paths@), seen@, 0),
{
    let mut i: usize = 0;
    while i < paths.len()
        invariant
            i <= paths@.len(),
            seen@.len() == paths@.len(),
            patch_refusals(*policy, root@, views(paths@), seen@, 0) == patch_refusals(
                *policy,
                root@,
                views(paths@),
                seen@,
                i as int,
            ),
        decreases paths@.len() - i,
    {
        let path = &paths[i];
        assert(views(paths@)[i as int] == path@);
        if is_absolute(path) || has_parent_part(path) {
            return Err(HandlerError::new("patch_unsafe_path", &cat2("unsafe patch path: ", &quoted(path))));
        }
        match policy.resolve_path(&join(root, path), true, &seen[i]) {
            None => {
                return Err(
                    HandlerError::new(
                        "path_not_allowed",
                        &cat2("patch touches a path outside the rw allowlist: ", &quoted(path)),
                    ),
                );
            },
            Some(p) => {
                if !is_under(&p, root) {
                    return Err(
                        HandlerError::new(
                            "patch_unsafe_path",
                            &cat2("patch path escapes repository root: ", &quoted(path)),
                        ),
                    );
                }
            },
        }
        i = i + 1;
    }
    Ok(())
}

/// An accepted patch names only paths that lie inside the repository and that the policy
/// opens for writing.
pub proof fn patched_paths_stay_inside(
    policy: Policy,
    root: Seq<char>,
    paths: Seq<Seq<char>>,
    seen: Seq<Resolution>,
    i: int,
)
    requires
        patch_refusals(policy, root, paths, seen, 0) is None,
        0 <= i < paths.len(),
    ensures
        !absolute(paths[i]),
        !climbs(paths[i]),
        resolved(policy, joined(root, paths[i]), true, seen[i]) is Some,
        under(resolved(policy, joined(root, paths[i]), true, seen[i])->0, root),
{
    lemma_no_refusal(policy, root, paths, seen, 0, i);
}

proof fn lemma_no_refusal(policy: Policy, root: Seq<char>, paths: Seq<Seq<char>>, seen: Seq<Resolution>, from: int, i: int)
    requires
        0 <= from <= i < paths.len(),
        patch_refusals(policy, root, paths, seen, from) is None,
    ensures
        patch_refusal(policy, root, paths[i], seen[i]) is None,
    decreases i - from,
{
    if from < i {
        lemma_no_refusal(policy, root, paths, seen, from + 1, i);
    }
}

/// A patch that is to be applied.
pub struct PatchPlan {
    pub requested: String,
    pub patch: String,
    pub dry_run: bool,
}

pub open spec fn patch_plan_of(payload: Fields) -> Result<(Seq<char>, Seq<char>, bool), Fault> {
    let at = match get(payload, "root"@) {
        Some(t) => Some(t),
        None => get(payload, "path"@),
    };
    match as_text(at) {
        None => Err(fault("invalid_payload"@, "apply_patch requires root or path"@)),
        Some(requested) => if blank(requested) {
            Err(fault("invalid_payload"@, "apply_patch requires root or path"@))
        } else {
            match required_text(payload, "patch"@) {
                Err(e) => Err(e),
                Ok(patch) => if bytes_of(patch).len() > MAX_PATCH {
                    Err(fault("invalid_payload"@, "patch exceeds 5 MiB ceiling"@))
                } else {
                    Ok((requested, patch, as_flag(get(payload, "dry_run"@)) == Some(true)))
                },
            }
        },
    }
}

/// The patch that a request wants applied.
pub fn patch_plan(payload: &Object) -> (r: Result<PatchPlan, HandlerError>)
    ensures
        (match r {
            Ok(p) => Ok((p.requested@, p.patch@, p.dry_run)),
            Err(e) => Err(e@),
        }) == patch_plan_of(fields(payload@)),
{
    broadcast use group_json_views;

    let at = match field(payload, "root") {
        Some(v) => Some(v),
        None => field(payload, "path"),
    };
    let requested = match at {
        Some(Json::Text(s)) => s,
        _ => {
            return Err(HandlerError::new("invalid_payload", "apply_patch requires root or path"));
        },
    };
    if is_blank(requested) {
        return Err(HandlerError::new("invalid_payload", "apply_patch requires root or path"));
    }
    let patch = match require_str(payload, "patch") {
        Ok(s) => s,
        Err(e) => {
            return Err(e);
        },
    };
    if byte_len(patch) > MAX_PATCH {
        return Err(HandlerError::new("invalid_payload", "patch exceeds 5 MiB ceiling"));
    }
    Ok(
        PatchPlan {
            requested: requested.clone(),
            patch: patch.to_owned(),
            dry_run: flag_or(payload, "dry_run", false),
        },
    )
}

/// A patch names the files that it changes.
pub fn check_patch_paths(paths: &Vec<String>) -> (r: Result<(), HandlerError>)
    ensures
        match r {
            Ok(_) => paths@.len() > 0,
            Err(e) => paths@.len() == 0 && e@ == fault(
                "invalid_payload"@,
                "could not find target paths in unified diff"@,
            ),
        },
{
    if paths.len() == 0 {
        Err(HandlerError::new("invalid_payload", "could not find target paths in unified diff"))
    } else {
        Ok(())
    }
}

/// How far the applying of a patch has come: the changes are counted, counted again
/// where the patch tells wrong numbers, tried, and made.
#[derive(Debug, Clone, Copy, PartialEq, Eq, Structural)]
pub enum PatchStage {
    Count,
    Recount,
    Try,
    Make,
}

/// The applying of a patch.
pub struct PatchRun {
    pub root: String,
    pub files: u64,
    pub dry_run: bool,
    pub stage: PatchStage,
    pub recounted: bool,
    pub insertions: u64,
    pub deletions: u64,
}

/// What a `PatchRun` says.
pub struct RunState {
    pub root: Seq<char>,
    pub files: u64,
    pub dry_run: bool,
    pub stage: PatchStage,
    pub recounted: bool,
    pub insertions: u64,
    pub deletions: u64,
}

impl View for PatchRun {
    type V = RunState;

    open spec fn view(&self) -> RunState {
        RunState {
            root: self.root@,
            files: self.files,
            dry_run: self.dry_run,
            stage: self.stage,
            recounted: self.recounted,
            insertions: self.insertions,
            deletions: self.deletions,
        }
    }
}

/// What comes behind a command.
pub enum PatchNext {
    Run,
    Done(HandlerResult),
}

pub open spec fn next_view(n: PatchNext) -> Option<Result<Fields, Fault>> {
    match n {
        PatchNext::Run => None,
        PatchNext::Done(r) => Some(outcome(r)),
    }
}

/// The command of a stage. It gets the patch as its input.
pub open spec fn stage_args(s: RunState) -> Seq<Seq<char>> {
    let recount = if s.recounted {
        seq!["--recount"@]
    } else {
        Seq::empty()
    };
    let tail = seq!["--no-3way"@, "-"@];
    match s.stage {
        PatchStage::Count => seq!["apply"@, "--numstat"@] + tail,
        PatchStage::Recount => seq!["apply"@, "--recount"@, "--numstat"@] + tail,
        PatchStage::Try => seq!["apply"@] + recount + seq!["--check"@] + tail,
        PatchStage::Make => seq!["apply"@] + recount + tail,
    }
}

/// What is answered of an applied patch.
pub open spec fn patched_fields(s: RunState) -> Fields {
    let o = no_fields().with("ok"@, Tree::Bool(true)).with("version"@, Tree::Number(Num::Pos(1))).with(
        "applied"@,
        Tree::Bool(!s.dry_run),
    ).with("dry_run"@, Tree::Bool(s.dry_run)).with("root"@, Tree::Text(s.root)).with(
        "summary"@,
        Tree::Object(
            no_fields().with("files"@, Tree::Number(Num::Pos(s.files))).with(
                "insertions"@,
                Tree::Number(Num::Pos(s.insertions)),
            ).with("deletions"@, Tree::Number(Num::Pos(s.deletions))),
        ),
    );
    if s.recounted {
        o.with("recounted"@, Tree::Bool(true))
    } else {
        o
    }
}

/// The state with what was counted.
pub open spec fn counted(s: RunState, stdout: Seq<u8>, recounted: bool) -> RunState {
    let (_, ins, dels) = numstat_of(stdout, true);
    RunState { stage: PatchStage::Try, recounted, insertions: ins, deletions: dels, ..s }
}

/// What follows from how the command of a stage ended.
pub open spec fn patch_step(s: RunState, code: i32, stdout: Seq<u8>, stderr: Seq<u8>) -> (
    RunState,
    Option<Result<Fields, Fault>>,
) {
    match s.stage {
        PatchStage::Count => if code != 0 && contained(lossy_text(stderr), "corrupt patch"@) {
            (RunState { stage: PatchStage::Recount, ..s }, None)
        } else {
            (counted(s, stdout, false), None)
        },
        PatchStage::Recount => (counted(s, stdout, code == 0), None),
        PatchStage::Try => if code != 0 {
            (s, Some(Err(fault("patch_does_not_apply"@, scrubbed(stderr, s.root)))))
        } else if s.dry_run {
            (s, Some(Ok(patched_fields(s))))
        } else {
            (RunState { stage: PatchStage::Make, ..s }, None)
        },
        PatchStage::Make => if code != 0 {
            (s, Some(Err(fault("patch_does_not_apply"@, scrubbed(stderr, s.root)))))
        } else {
            (s, Some(Ok(patched_fields(s))))
        },
    }
}

impl PatchRun {
    /// The applying of a patch that changes so many files.
    pub fn start(root: &str, files: usize, dry_run: bool) -> (r: Self)
        ensures
            r@ == (RunState {
                root: root@,
                files: files as u64,
                dry_run,
                stage: PatchStage::Count,
                recounted: false,
                insertions: 0,
                deletions: 0,
            }),
    {
        PatchRun {
            root: root.to_owned(),
            files: files as u64,
            dry_run,
            stage: PatchStage::Count,
            recounted: false,
            insertions: 0,
            deletions: 0,
        }
    }

    /// The command of the stage. It gets the patch as its input.
    pub fn args(&self) -> (r: Vec<String>)
        ensures
            views(r@) == stage_args(self@),
    {
        let mut args: Vec<String> = vec!["apply".to_owned()];
        assert(views(args@) =~= seq!["apply"@]);
        match self.stage {
            PatchStage::Count => {
                append(&mut args, "--numstat");
            },
            PatchStage::Recount => {
                append(&mut args, "--recount");
                append(&mut args, "--numstat");
            },
            PatchStage::Try => {
                if self.recounted {
                    append(&mut args, "--recount");
                }
                append(&mut args, "--check");
            },
            PatchStage::Make => {
                if self.recounted {
                    append(&mut args, "--recount");
                }
            },
        }
        append(&mut args, "--no-3way");
        append(&mut args, "-");
        assert(views(args@) =~= stage_args(self@));
        args
    }

    fn note_counts(&mut self, stdout: &[u8], recounted: bool)
        ensures
            final(self)@ == counted(old(self)@, stdout@, recounted),
    {
        let (_, ins, dels) = read_numstat(stdout, true);
        self.stage = PatchStage::Try;
        self.recounted = recounted;
        self.insertions = ins;
        self.deletions = dels;
    }

    fn answer(&self) -> (r: Object)
        ensures
            fields(r@) == patched_fields(self@),
    {
        broadcast use group_json_views;

        let mut summary = no_object();
        set_field(&mut summary, "files", count(self.files));
        set_field(&mut summary, "insertions", count(self.insertions));
        set_field(&mut summary, "deletions", count(self.deletions));
        let mut o = no_object();
        set_field(&mut o, "ok", Json::Bool(true));
        set_field(&mut o, "version", count(1));
        set_field(&mut o, "applied", Json::Bool(!self.dry_run));
        set_field(&mut o, "dry_run", Json::Bool(self.dry_run));
        set_field(&mut o, "root", string(&self.root));
        set_field(&mut o, "summary", Json::Object(summary));
        if self.recounted {
            set_field(&mut o, "recounted", Json::Bool(true));
        }
        o
    }

    /// Goes on from how the command of the stage ended.
    pub fn step(&mut self, code: i32, stdout: &[u8], stderr: &[u8]) -> (r: PatchNext)
        ensures
            (final(self)@, next_view(r)) == patch_step(old(self)@, code, stdout@, stderr@),
    {
        match self.stage {
            PatchStage::Count => {
                if code != 0 && contains(&from_utf8_lossy(stderr), "corrupt patch") {
                    self.stage = PatchStage::Recount;
                } else {
                    self.note_counts(stdout, false);
                }
                PatchNext::Run
            },
            PatchStage::Recount => {
                self.note_counts(stdout, code == 0);
                PatchNext::Run
            },
            PatchStage::Try => {
                if code != 0 {
                    PatchNext::Done(Err(HandlerError::new("patch_does_not_apply", &scrub(stderr, &self.root))))
                } else if self.dry_run {
                    PatchNext::Done(Ok(self.answer()))
                } else {
                    self.stage = PatchStage::Make;
                    PatchNext::Run
                }
            },
            PatchStage::Make => {
                if code != 0 {
                    PatchNext::Done(Err(HandlerError::new("patch_does_not_apply", &scrub(stderr, &self.root))))
                } else {
                    PatchNext::Done(Ok(self.answer()))
                }
            },
        }
    }
}

/// A trial never comes to the command that changes files.
pub proof fn trials_change_nothing(s: RunState, code: i32, stdout: Seq<u8>, stderr: Seq<u8>)
    requires
        s.dry_run,
        s.stage != PatchStage::Make,
    ensures
        patch_step(s, code, stdout, stderr).0.dry_run,
        patch_step(s, code, stdout, stderr).0.stage != PatchStage::Make,
{
}

/// A patch is made only once `git` has said that all of it applies.
pub proof fn patches_are_tried_first(s: RunState, code: i32, stdout: Seq<u8>, stderr: Seq<u8>)
    requires
        s.stage != PatchStage::Make,
        patch_step(s, code, stdout, stderr).0.stage == PatchStage::Make,
    ensures
        s.stage == PatchStage::Try,
        code == 0,
{
}

/// The remote that a request names.
pub open spec fn remote_of(payload: Fields) -> Seq<char> {
    match as_text(get(payload, "remote"@)) {
        Some(s) => s,
        None => "origin"@,
    }
}

fn remote_name(payload: &Object) -> (r: String)
    ensures
        r@ == remote_of(fields(payload@)),
{
    match text_field(payload, "remote") {
        Some(s) => s.to_owned(),
        None => "origin".to_owned(),
    }
}

/// The command that asks a remote for its references.
pub fn ls_remote_args(payload: &Object) -> (r: Vec<String>)
    ensures
        views(r@) == ls_remote_args_of(fields(payload@)),
{
    let mut args: Vec<String> = vec!["ls-remote".to_owned(), remote_name(payload)];
    assert(views(args@) =~= seq!["ls-remote"@, remote_of(fields(payload@))]);
    if let Some(p) = text_field(payload, "ref_pattern") {
        append(&mut args, p);
    }
    args
}

/// A reference as it is told.
pub open spec fn ref_tree(line: (Seq<char>, Seq<char>)) -> Tree {
    Tree::Object(
        no_fields().with("sha"@, Tree::Text(trimmed(line.0))).with("ref"@, Tree::Text(trimmed(line.1))),
    )
}

/// The references on lines.
pub open spec fn refs_on(lines: Seq<Seq<char>>) -> Seq<Tree>
    decreases lines.len(),
{
    if lines.len() == 0 {
        Seq::empty()
    } else {
        match once(lines.last(), '\t') {
            Some(pair) => refs_on(lines.drop_last()).push(ref_tree(pair)),
            None => refs_on(lines.drop_last()),
        }
    }
}

/// The references that are told.
pub open spec fn told_refs(all: Seq<Tree>) -> Seq<Tree> {
    if all.len() > MAX_REFS {
        all.take(MAX_REFS as int)
    } else {
        all
    }
}

fn read_refs(stdout: &[u8]) -> (r: Vec<Json>)
    ensures
        trees(r@) == told_refs(refs_on(rows(lossy_text(stdout@)))),
{
    let all = lines(&from_utf8_lossy(stdout));
    let ghost texts = views(all@);
    let mut out: Vec<Json> = Vec::new();
    let mut i: usize = 0;
    assert(trees(out@) =~= told_refs(refs_on(texts.take(0))));
    while i < all.len()
        invariant
            i <= all@.len(),
            texts == views(all@),
            trees(out@) == told_refs(refs_on(texts.take(i as int))),
        decreases all@.len() - i,
    {
        broadcast use group_json_views;

        assert(texts.take(i + 1).drop_last() =~= texts.take(i as int));
        assert(texts.take(i + 1).last() == all@[i as int]@);
        if let Some((sha, reference)) = split_once(&all[i], '\t') {
            let ghost found = refs_on(texts.take(i as int));
            let ghost item = ref_tree((sha@, reference@));
            if out.len() < MAX_REFS {
                let ghost before = trees(out@);
                let mut o = no_object();
                set_field(&mut o, "sha", string(&trim(&sha)));
                set_field(&mut o, "ref", string(&trim(&reference)));
                out.push(Json::Object(o));
                assert(trees(out@) =~= before.push(item));
            } else {
                assert(found.push(item).take(MAX_REFS as int) =~= told_refs(found));
            }
        }
        i = i + 1;
    }
    assert(texts.take(i as int) =~= texts);
    out
}

/// What is answered of the references of a remote.
pub open spec fn ls_remote_outcome(payload: Fields, root: Seq<char>, code: i32, stdout: Seq<u8>, stderr: Seq<u8>) -> Result<
    Fields,
    Fault,
> {
    if code != 0 {
        Err(fault("remote_failed"@, "git ls-remote failed: "@ + scrubbed(stderr, root)))
    } else {
        let refs = told_refs(refs_on(rows(lossy_text(stdout))));
        Ok(
            no_fields().with("ok"@, Tree::Bool(true)).with("version"@, Tree::Number(Num::Pos(1))).with(
                "operation"@,
                Tree::Text("ls_remote"@),
            ).with("remote"@, Tree::Text(remote_of(payload))).with("refs"@, Tree::Array(refs)).with(
                "count"@,
                Tree::Number(Num::Pos(refs.len() as u64)),
            ),
        )
    }
}

/// What is answered of the references of a remote.
pub fn ls_remote_result(payload: &Object, root: &str, code: i32, stdout: &[u8], stderr: &[u8]) -> (r:
    HandlerResult)
    ensures
        outcome(r) == ls_remote_outcome(fields(payload@), root@, code, stdout@, stderr@),
{
    broadcast use group_json_views;

    if code != 0 {
        return Err(
            HandlerError::new("remote_failed", &cat2("git ls-remote failed: ", &scrub(stderr, root))),
        );
    }
    let refs = read_refs(stdout);
    let n = refs.len() as u64;
    let mut o = no_object();
    set_field(&mut o, "ok", Json::Bool(true));
    set_field(&mut o, "version", count(1));
    set_field(&mut o, "operation", string("ls_remote"));
    set_field(&mut o, "remote", string(&remote_name(payload)));
    set_field(&mut o, "refs", Json::Array(refs));
    set_field(&mut o, "count", count(n));
    Ok(o)
}

/// The command that fetches from a remote.
pub fn fetch_args(payload: &Object) -> (r: Vec<String>)
    ensures
        views(r@) == fetch_args_of(fields(payload@)),
{
    let mut args: Vec<String> = vec!["fetch".to_owned(), "--prune".to_owned(), remote_name(payload)];
    assert(views(args@) =~= seq!["fetch"@, "--prune"@, remote_of(fields(payload@))]);
    if let Some(p) = text_field(payload, "ref") {
        append(&mut args, p);
    }
    args
}

/// What is answered of a fetch.
pub open spec fn fetch_outcome(payload: Fields, root: Seq<char>, code: i32, stderr: Seq<u8>) -> Result<Fields, Fault> {
    let said = scrubbed(stderr, root);
    if code != 0 {
        Err(fault("remote_failed"@, said))
    } else {
        Ok(
            no_fields().with("ok"@, Tree::Bool(true)).with("version"@, Tree::Number(Num::Pos(1))).with(
                "operation"@,
                Tree::Text("fetch"@),
            ).with("root"@, Tree::Text(root)).with("remote"@, Tree::Text(remote_of(payload))).with(
                "output"@,
                Tree::Text(said),
            ),
        )
    }
}

/// What is answered of a fetch.
pub fn fetch_result(payload: &Object, root: &str, code: i32, stderr: &[u8]) -> (r: HandlerResult)
    ensures
        outcome(r) == fetch_outcome(fields(payload@), root@, code, stderr@),
{
    broadcast use group_json_views;

    let said = scrub(stderr, root);
    if code != 0 {
        return Err(HandlerError::new("remote_failed", &said));
    }
    let mut o = no_object();
    set_field(&mut o, "ok", Json::Bool(true));
    set_field(&mut o, "version", count(1));
    set_field(&mut o, "operation", string("fetch"));
    set_field(&mut o, "root", string(root));
    set_field(&mut o, "remote", string(&remote_name(payload)));
    set_field(&mut o, "output", string(&said));
    Ok(o)
}

/// A clone: from where, to where, and the directory that `git` is run in.
pub struct ClonePlan {
    pub url: String,
    pub target: String,
    pub parent: String,
}

pub open spec fn clone_plan_of(policy: Policy, payload: Fields, seen: Resolution) -> Result<(Seq<char>, Seq<char>, Seq<char>), Fault> {
    match required_text(payload, "url"@) {
        Err(e) => Err(e),
        Ok(url) => match required_text(payload, "dest"@) {
            Err(e) => Err(e),
            Ok(dest) => match resolved(policy, dest, true, seen) {
                None => Err(fault("path_not_allowed"@, "clone destination must be under a file_ops rw path"@)),
                Some(target) => Ok(
                    (
                        url,
                        target,
                        match parent(target) {
                            Some(p) => p,
                            None => "."@,
                        },
                    ),
                ),
            },
        },
    }
}

/// What a request wants cloned.
pub fn clone_plan(policy: &Policy, payload: &Object, seen: &Resolution) -> (r: Result<ClonePlan, HandlerError>)
    ensures
        (match r {
            Ok(p) => Ok((p.url@, p.target@, p.parent@)),
            Err(e) => Err(e@),
        }) == clone_plan_of(*policy, fields(payload@), *seen),
{
    let url = match require_str(payload, "url") {
        Ok(s) => s,
        Err(e) => {
            return Err(e);
        },
    };
    let dest = match require_str(payload, "dest") {
        Ok(s) => s,
        Err(e) => {
            return Err(e);
        },
    };
    let target = match policy.resolve_path(dest, true, seen) {
        Some(t) => t,
        None => {
            return Err(
                HandlerError::new("path_not_allowed", "clone destination must be under a file_ops rw path"),
            );
        },
    };
    let above = match parent_of(&target) {
        Some(p) => p,
        None => ".".to_owned(),
    };
    Ok(ClonePlan { url: url.to_owned(), target, parent: above })
}

/// A clone goes into an empty directory, or one that is not there yet.
pub fn check_clone_dest(present: bool, empty: bool) -> (r: Result<(), HandlerError>)
    ensures
        match r {
            Ok(_) => !present || empty,
            Err(e) => present && !empty && e@ == fault(
                "dest_not_empty"@,
                "clone refuses to write into a non-empty destination"@,
            ),
        },
{
    if present && !empty {
        Err(HandlerError::new("dest_not_empty", "clone refuses to write into a non-empty destination"))
    } else {
        Ok(())
    }
}

/// The command that clones.
pub open spec fn clone_args_of(payload: Fields, url: Seq<char>, target: Seq<char>) -> Seq<Seq<char>> {
    let depth = match as_count(get(payload, "depth"@)) {
        Some(n) => seq!["--depth"@, decimal(count_within(Some(n), n, 1, 1000) as nat)],
        None => Seq::empty(),
    };
    let branch = match as_text(get(payload, "branch"@)) {
        Some(b) => seq!["--branch"@, b],
        None => Seq::empty(),
    };
    seq!["clone"@] + depth + branch + seq![url, target]
}

/// The command that clones.
pub fn clone_args(payload: &Object, plan: &ClonePlan) -> (r: Vec<String>)
    ensures
        views(r@) == clone_args_of(fields(payload@), plan.url@, plan.target@),
{
    let mut args: Vec<String> = vec!["clone".to_owned()];
    assert(views(args@) =~= seq!["clone"@]);
    if let Some(n) = count_field(payload, "depth") {
        append(&mut args, "--depth");
        append(&mut args, &decimal_text(clamp_count(Some(n), n, 1, 1000)));
    }
    if let Some(b) = text_field(payload, "branch") {
        append(&mut args, "--branch");
        append(&mut args, b);
    }
    append(&mut args, &plan.url);
    append(&mut args, &plan.target);
    assert(views(args@) =~= clone_args_of(fields(payload@), plan.url@, plan.target@));
    args
}

/// What is answered of a clone.
pub fn clone_result(plan: &ClonePlan, code: i32, stderr: &[u8]) -> (r: HandlerResult)
    ensures
        outcome(r) == if code != 0 {
            Err(fault("remote_failed"@, scrubbed(stderr@, plan.parent@)))
        } else {
            Ok(
                no_fields().with("ok"@, Tree::Bool(true)).with("version"@, Tree::Number(Num::Pos(1))).with(
                    "operation"@,
                    Tree::Text("clone"@),
                ).with("root"@, Tree::Text(plan.target@)).with("url"@, Tree::Text(plan.url@)),
            )
        },
{
    broadcast use group_json_views;

    if code != 0 {
        return Err(HandlerError::new("remote_failed", &scrub(stderr, &plan.parent)));
    }
    let mut o = no_object();
    set_field(&mut o, "ok", Json::Bool(true));
    set_field(&mut o, "version", count(1));
    set_field(&mut o, "operation", string("clone"));
    set_field(&mut o, "root", string(&plan.target));
    set_field(&mut o, "url", string(&plan.url));
    Ok(o)
}

/// A push. A forced one names what the remote is expected to hold.
pub struct PushPlan {
    pub remote: String,
    pub branch: String,
    pub forced: bool,
    pub expected: Option<String>,
}

/// What a `PushPlan` says.
pub struct Pushed {
    pub remote: Seq<char>,
    pub branch: Seq<char>,
    pub forced: bool,
    pub expected: Option<Seq<char>>,
}

impl View for PushPlan {
    type V = Pushed;

    open spec fn view(&self) -> Pushed {
        Pushed {
            remote: self.remote@,
            branch: self.branch@,
            forced: self.forced,
            expected: opt_view(self.expected),
        }
    }
}

pub open spec fn push_plan_of(payload: Fields) -> Result<Pushed, Fault> {
    match required_text(payload, "branch"@) {
        Err(e) => Err(e),
        Ok(branch) => {
            let forced = as_flag(get(payload, "force"@)) == Some(true);
            let expected = as_text(get(payload, "expected_remote_sha"@));
            if forced && expected is None {
                Err(fault("force_requires_lease"@, "forced push requires expected_remote_sha"@))
            } else {
                Ok(Pushed { remote: remote_of(payload), branch, forced, expected })
            }
        },
    }
}

/// What a request wants pushed.
pub fn push_plan(payload: &Object) -> (r: Result<PushPlan, HandlerError>)
    ensures
        (match r {
            Ok(p) => Ok(p@),
            Err(e) => Err(e@),
        }) == push_plan_of(fields(payload@)),
{
    let remote = remote_name(payload);
    let branch = match require_str(payload, "branch") {
        Ok(s) => s,
        Err(e) => {
            return Err(e);
        },
    };
    let forced = flag_or(payload, "force", false);
    let expected = match text_field(payload, "expected_remote_sha") {
        Some(s) => Some(s.to_owned()),
        None => None,
    };
    if forced && expected.is_none() {
        return Err(HandlerError::new("force_requires_lease", "forced push requires expected_remote_sha"));
    }
    Ok(PushPlan { remote, branch: branch.to_owned(), forced, expected })
}

/// The command that pushes.
pub open spec fn push_args_of(p: Pushed) -> Seq<Seq<char>> {
    match p.expected {
        Some(sha) if p.forced => seq![
            "push"@,
            "--force-with-lease="@ + p.branch + ":"@ + sha,
            p.remote,
            p.branch,
        ],
        _ => seq!["push"@, p.remote, p.branch],
    }
}

/// The command that pushes.
pub fn push_args(plan: &PushPlan) -> (r: Vec<String>)
    ensures
        views(r@) == push_args_of(plan@),
{
    let mut args: Vec<String> = vec!["push".to_owned()];
    assert(views(args@) =~= seq!["push"@]);
    if plan.forced {
        if let Some(sha) = &plan.expected {
            append(&mut args, &cat4("--force-with-lease=", &plan.branch, ":", sha));
        }
    }
    append(&mut args, &plan.remote);
    append(&mut args, &plan.branch);
    assert(views(args@) =~= push_args_of(plan@));
    args
}

/// A forced push overwrites a branch only where the remote holds what the request says
/// it holds.
pub proof fn forced_pushes_hold_a_lease(payload: Fields)
    requires
        push_plan_of(payload) is Ok,
        as_flag(get(payload, "force"@)) == Some(true),
    ensures
        as_text(get(payload, "expected_remote_sha"@)) is Some,
        push_args_of(push_plan_of(payload)->Ok_0)[1] == "--force-with-lease="@ + required_text(payload, "branch"@)->Ok_0
            + ":"@ + as_text(get(payload, "expected_remote_sha"@))->0,
{
}

/// What is answered of a push.
pub open spec fn push_outcome(p: Pushed, root: Seq<char>, code: i32, stderr: Seq<u8>) -> Result<Fields, Fault> {
    let said = scrubbed(stderr, root);
    if code != 0 {
        if contained(lowercase_text(said), "stale info"@) {
            Err(fault("lease_stale"@, "remote branch changed; force-with-lease refused the push"@))
        } else {
            Err(fault("remote_failed"@, said))
        }
    } else {
        Ok(
            no_fields().with("ok"@, Tree::Bool(true)).with("version"@, Tree::Number(Num::Pos(1))).with(
                "operation"@,
                Tree::Text("push"@),
            ).with("root"@, Tree::Text(root)).with("remote"@, Tree::Text(p.remote)).with(
                "branch"@,
                Tree::Text(p.branch),
            ).with("forced"@, Tree::Bool(p.forced)).with("output"@, Tree::Text(said)),
        )
    }
}

/// What is answered of a push.
pub fn push_result(plan: &PushPlan, root: &str, code: i32, stderr: &[u8]) -> (r: HandlerResult)
    ensures
        outcome(r) == push_outcome(plan@, root@, code, stderr@),
{
    broadcast use group_json_views;

    let said = scrub(stderr, root);
    if code != 0 {
        if contains(&to_lowercase(&said), "stale info") {
            return Err(
                HandlerError::new("lease_stale", "remote branch changed; force-with-lease refused the push"),
            );
        }
        return Err(HandlerError::new("remote_failed", &said));
    }
    let mut o = no_object();
    set_field(&mut o, "ok", Json::Bool(true));
    set_field(&mut o, "version", count(1));
    set_field(&mut o, "operation", string("push"));
    set_field(&mut o, "root", string(root));
    set_field(&mut o, "remote", string(&plan.remote));
    set_field(&mut o, "branch", string(&plan.branch));
    set_field(&mut o, "forced", Json::Bool(plan.forced));
    set_field(&mut o, "output", string(&said));
    Ok(o)
}

/// A changed file is told by its path and by what the letter of git stands for.
pub proof fn changed_files_are_told(letter: Seq<char>, path: Seq<char>, rest: Seq<Seq<char>>)
    requires
        letter.len() > 0,
        letter[0] != 'R' && letter[0] != 'C',
    ensures
        changed_from(seq![letter, path] + rest, 0) == seq![(path, status_word(letter[0]), None::<Seq<char>>)] + changed_from(
            rest,
            0,
        ),
        status_word('A') == "added"@ && status_word('M') == "modified"@ && status_word('D') == "deleted"@,
{
    let all = seq![letter, path] + rest;
    assert(all[0] == letter && all[1] == path);
    lemma_changed_behind(seq![letter, path], rest, 2);
}

/// A renamed or copied file is told by its new path, with its former one.
pub proof fn renamed_files_are_told(letter: Seq<char>, former: Seq<char>, path: Seq<char>, rest: Seq<Seq<char>>)
    requires
        letter.len() > 0,
        letter[0] == 'R' || letter[0] == 'C',
    ensures
        changed_from(seq![letter, former, path] + rest, 0) == seq![
            (
                path,
                if letter[0] == 'R' {
                    "renamed"@
                } else {
                    "copied"@
                },
                Some(former),
            ),
        ] + changed_from(rest, 0),
{
    let all = seq![letter, former, path] + rest;
    assert(all[0] == letter && all[1] == former && all[2] == path);
    lemma_changed_behind(seq![letter, former, path], rest, 3);
}

proof fn lemma_changed_behind(head: Seq<Seq<char>>, rest: Seq<Seq<char>>, i: int)
    requires
        head.len() <= i,
    ensures
        changed_from(head + rest, i) == changed_from(rest, i - head.len()),
    decreases head.len() + rest.len() - i,
{
    let all = head + rest;
    if i < all.len() {
        assert(all[i] == rest[i - head.len()]);
        lemma_changed_behind(head, rest, i + 1);
        if i + 1 < all.len() {
            assert(all[i + 1] == rest[i + 1 - head.len()]);
            lemma_changed_behind(head, rest, i + 2);
        }
        if i + 2 < all.len() {
            assert(all[i + 2] == rest[i + 2 - head.len()]);
            lemma_changed_behind(head, rest, i + 3);
        }
    }
}

/// A difference is shown from what was asked for, both changes that are staged and those
/// that are not unless one of them is turned off, and within its bounds.
pub proof fn differences_are_as_asked_for(payload: Fields)
    ensures
        shown_of(payload) matches Ok(p) ==> {
            &&& p.staged <==> get(payload, "staged"@) != Some(Tree::Bool(false))
            &&& p.unstaged <==> get(payload, "unstaged"@) != Some(Tree::Bool(false))
            &&& p.include_untracked <==> get(payload, "include_untracked"@) != Some(Tree::Bool(false))
            &&& p.staged || p.unstaged
            &&& get(payload, "base_ref"@) matches Some(Tree::Text(b)) ==> p.base_ref == b
            &&& get(payload, "base_ref"@) is None ==> p.base_ref == "HEAD"@
            &&& 0 <= p.context <= 10 && 1 <= p.max_files <= 50 && 1024 <= p.max_patch <= 131_072
            &&& get(payload, "context_lines"@) is None ==> p.context == 3
            &&& (get(payload, "context_lines"@) matches Some(Tree::Number(Num::Pos(n))) && n <= 10) ==> p.context == get(
                payload,
                "context_lines"@,
            )->0->Number_0->Pos_0
            &&& (get(payload, "max_files"@) matches Some(Tree::Number(Num::Pos(n))) && 1 <= n <= 50) ==> p.max_files == get(
                payload,
                "max_files"@,
            )->0->Number_0->Pos_0
            &&& (get(payload, "max_patch_bytes"@) matches Some(Tree::Number(Num::Pos(n))) && 1024 <= n <= 131_072)
                ==> p.max_patch == get(payload, "max_patch_bytes"@)->0->Number_0->Pos_0
        },
        get(payload, "staged"@) == Some(Tree::Bool(false)) && get(payload, "unstaged"@) == Some(Tree::Bool(false))
            ==> shown_of(payload) is Err,
{
}

/// What is staged is compared through the index, what is not against it, and both together
/// against the base; the patch of a file names the file, and its former name.
pub proof fn differences_are_asked_of_git(p: Shown, path: Seq<char>, status: Seq<char>, former: Seq<char>)
    ensures
        p.staged && p.unstaged ==> selector(p) == seq!["diff"@, p.base_ref],
        p.staged && !p.unstaged ==> selector(p) == seq!["diff"@, "--cached"@, p.base_ref],
        !p.staged ==> selector(p) == seq!["diff"@],
        patch_args_of(p, (path, status, None)).last() == path,
        patch_args_of(p, (path, status, Some(former))).last() == path,
        patch_args_of(p, (path, status, Some(former))).contains(former),
        patch_args_of(p, (path, status, None)).take(selector(p).len() as int) == selector(p),
        patch_args_of(p, (path, status, None)).contains("--unified="@ + decimal(p.context as nat)),
{
    let n = selector(p).len() as int;
    let a = patch_args_of(p, (path, status, None));
    let b = patch_args_of(p, (path, status, Some(former)));
    assert(b[b.len() - 2] == former);
    assert(a.take(n) =~= selector(p));
    assert(a[n + 1] == "--unified="@ + decimal(p.context as nat));
}

/// The answer to a request for a difference holds the files that changed, each with its
/// patch where that is not too long, and says what is left out.
pub proof fn differences_are_told(root: Seq<char>, p: Shown, d: DiffOutput)
    ensures
        ({
            let r = diff_fields(root, p, d);
            &&& get(r, "ok"@) == Some(Tree::Bool(true))
            &&& get(r, "root"@) == Some(Tree::Text(root))
            &&& get(r, "base_ref"@) == Some(Tree::Text(p.base_ref))
            &&& get(r, "summary"@) matches Some(Tree::Object(s)) && get(s, "files"@) == Some(
                Tree::Number(Num::Pos(numstat_of(d.numstat@, true).0)),
            ) && get(s, "insertions"@) == Some(Tree::Number(Num::Pos(numstat_of(d.numstat@, true).1))) && get(
                s,
                "deletions"@,
            ) == Some(Tree::Number(Num::Pos(numstat_of(d.numstat@, true).2))) && get(s, "untracked"@) == Some(
                Tree::Number(Num::Pos(d.untracked@.len() as u64)),
            )
            &&& get(r, "truncated"@) matches Some(Tree::Object(s)) && get(s, "files"@) == Some(
                Tree::Bool(d.changed@.len() + d.untracked@.len() > p.max_files),
            ) && get(s, "patch"@) == Some(
                Tree::Bool(
                    exists|i: int|
                        0 <= i < d.changed@.len() && i < p.max_files && (#[trigger] d.patches@[i])@.len() > p.max_patch,
                ),
            )
            &&& p.max_files >= 0 ==> (get(r, "files"@) matches Some(Tree::Array(items)) && items.len() <= p.max_files && (
            d.changed@.len() + d.untracked@.len() <= p.max_files ==> items.len() == d.changed@.len()
                + d.untracked@.len()) && (forall|i: int|
                0 <= i < d.changed@.len() && i < p.max_files ==> ((#[trigger] items[i]) matches Tree::Object(f) && get(
                    f,
                    "path"@,
                ) == Some(Tree::Text(d.changed@[i].path@)) && get(f, "status"@) == Some(Tree::Text(d.changed@[i].status@))
                    && (d.patches@[i]@.len() <= p.max_patch ==> get(f, "patch"@) == Some(
                    Tree::Text(lossy_text(d.patches@[i]@)),
                )) && (d.patches@[i]@.len() > p.max_patch ==> get(f, "patch"@) == Some(Tree::Null)))))
        }),
{
    broadcast use lemma_get_put;

    reveal_strlit("ok");
    reveal_strlit("version");
    reveal_strlit("root");
    reveal_strlit("base_ref");
    reveal_strlit("summary");
    reveal_strlit("files");
    reveal_strlit("insertions");
    reveal_strlit("deletions");
    reveal_strlit("untracked");
    reveal_strlit("truncated");
    reveal_strlit("patch");
    reveal_strlit("path");
    reveal_strlit("status");
    reveal_strlit("old_path");
    assert("ok"@.len() == 2 && "version"@.len() == 7 && "root"@.len() == 4 && "base_ref"@.len() == 8
        && "summary"@.len() == 7 && "files"@.len() == 5 && "insertions"@.len() == 10 && "deletions"@.len() == 9
        && "untracked"@.len() == 9 && "truncated"@.len() == 9 && "patch"@.len() == 5 && "path"@.len() == 4
        && "status"@.len() == 6 && "old_path"@.len() == 8 && "version"@[0] == 'v' && "summary"@[0] == 's'
        && "root"@[0] == 'r' && "path"@[0] == 'p' && "base_ref"@[0] == 'b' && "old_path"@[0] == 'o'
        && "files"@[0] == 'f' && "patch"@[0] == 'p' && "deletions"@[0] == 'd' && "untracked"@[0] == 'u'
        && "truncated"@[0] == 't');
    let items = diff_entries(p, d);
    assert forall|i: int| 0 <= i < d.changed@.len() && i < p.max_files implies ((#[trigger] items[i]) matches Tree::Object(f)
        && get(f, "path"@) == Some(Tree::Text(d.changed@[i].path@)) && get(f, "status"@) == Some(
        Tree::Text(d.changed@[i].status@),
    ) && (d.patches@[i]@.len() <= p.max_patch ==> get(f, "patch"@) == Some(Tree::Text(lossy_text(d.patches@[i]@))))
        && (d.patches@[i]@.len() > p.max_patch ==> get(f, "patch"@) == Some(Tree::Null))) by {
        assert(items[i] == changed_tree(changed_views(d.changed@)[i], d.patches@[i]@, p.max_patch));
    }
    let cut = exists|i: int|
        0 <= i < d.changed@.len() && i < p.max_files && (#[trigger] d.patches@[i])@.len() > p.max_patch;
    assert(patch_cut(p, d) == cut) by {
        if cut {
            let i = choose|i: int|
                0 <= i < d.changed@.len() && i < p.max_files && (#[trigger] d.patches@[i])@.len() > p.max_patch;
            assert(d.patches@[i]@.len() > p.max_patch);
        }
        if patch_cut(p, d) {
            let i = choose|i: int|
                0 <= i < shown_count(d.changed@.len() as int, p.max_files) && (#[trigger] d.patches@[i])@.len() > p.max_patch;
            assert(d.patches@[i]@.len() > p.max_patch);
        }
    }
}

/// A patch changes the files that its headers name, without the marks of the two sides.
pub proof fn patched_files_are_named(path: Seq<char>)
    requires
        path.len() > 0,
        forall|i: int| 0 <= i < path.len() ==> !white(#[trigger] path[i]),
    ensures
        patch_target("+++ b/"@ + path) == Some(path),
        patch_target("--- a/"@ + path) == Some(path),
        patch_target("--- /dev/null"@) is None,
        patch_target("+++ /dev/null"@) is None,
{
    reveal_strlit("+++ b/");
    reveal_strlit("--- a/");
    reveal_strlit("--- /dev/null");
    reveal_strlit("+++ /dev/null");
    reveal_strlit("/dev/null");
    reveal_strlit("--- ");
    reveal_strlit("+++ ");
    reveal_strlit("a/");
    reveal_strlit("b/");
    let plus = "+++ b/"@ + path;
    let minus = "--- a/"@ + path;
    let pb = seq!['b', '/'] + path;
    let ma = seq!['a', '/'] + path;
    assert(plus.take(4) =~= "+++ "@ && plus.skip(4) =~= pb);
    assert(minus.take(4) =~= "--- "@ && minus.skip(4) =~= ma);
    assert(plus.take(4)[0] == '+' && "--- "@[0] == '-');
    let none = "/dev/null"@;
    assert("--- /dev/null"@.take(4) =~= "--- "@ && "--- /dev/null"@.skip(4) =~= none);
    assert("+++ /dev/null"@.take(4) =~= "+++ "@ && "+++ /dev/null"@.skip(4) =~= none);
    assert("+++ /dev/null"@.take(4)[0] == '+');
    lemma_plain_piece(pb);
    lemma_plain_piece(ma);
    lemma_plain_piece(none);
    assert(pb.take(2) =~= "b/"@ && ma.take(2) =~= "a/"@);
    assert(pb.take(2)[0] == 'b' && "a/"@[0] == 'a' && pb[0] == 'b' && ma[0] == 'a' && none[0] == '/');
    assert(pb.skip(2) =~= path && ma.skip(2) =~= path);
}

proof fn lemma_plain_piece(s: Seq<char>)
    requires
        s.len() > 0,
        forall|i: int| 0 <= i < s.len() ==> !white(#[trigger] s[i]),
    ensures
        pieces(s, '\t') == seq![s],
        trimmed(s) == s,
{
    lemma_first_index(s, '\t');
    assert(!white(s[0]) && !white(s[s.len() - 1]));
    assert(pieces(s, '\t') =~= seq![s]);
}

/// A patch is tried before it is made, and only made where it is no trial; what is told of
/// it says which it was. A patch that does not apply changes nothing and is told as such.
pub proof fn patches_are_made_in_steps(s: RunState, code: i32, stdout: Seq<u8>, stderr: Seq<u8>)
    ensures
        s.stage == PatchStage::Try && code == 0 && s.dry_run ==> patch_step(s, code, stdout, stderr).1 == Some(
            Ok::<Fields, Fault>(patched_fields(s)),
        ),
        s.stage == PatchStage::Try && code == 0 && !s.dry_run ==> patch_step(s, code, stdout, stderr).1 is None && patch_step(
            s,
            code,
            stdout,
            stderr,
        ).0 == (RunState { stage: PatchStage::Make, ..s }),
        s.stage == PatchStage::Make && code == 0 ==> patch_step(s, code, stdout, stderr).1 == Some(
            Ok::<Fields, Fault>(patched_fields(s)),
        ),
        (s.stage == PatchStage::Try || s.stage == PatchStage::Make) && code != 0 ==> (patch_step(s, code, stdout, stderr).1
            matches Some(Err(f)) && f.code == "patch_does_not_apply"@),
        stage_args(RunState { stage: PatchStage::Try, ..s }).contains("--check"@),
        !stage_args(RunState { stage: PatchStage::Make, ..s }).contains("--check"@),
        !stage_args(RunState { stage: PatchStage::Make, ..s }).contains("--numstat"@),
        stage_args(RunState { stage: PatchStage::Count, ..s }).contains("--numstat"@),
        s.stage == PatchStage::Count && code == 0 ==> patch_step(s, code, stdout, stderr).0.insertions == numstat_of(
            stdout,
            true,
        ).1 && patch_step(s, code, stdout, stderr).0.deletions == numstat_of(stdout, true).2 && patch_step(
            s,
            code,
            stdout,
            stderr,
        ).0.stage == PatchStage::Try,
{
    reveal_strlit("apply");
    reveal_strlit("--check");
    reveal_strlit("--numstat");
    reveal_strlit("--no-3way");
    reveal_strlit("-");
    reveal_strlit("--recount");
    assert("apply"@.len() == 5 && "--check"@.len() == 7 && "--numstat"@.len() == 9 && "--no-3way"@.len() == 9
        && "-"@.len() == 1 && "--recount"@.len() == 9 && "--numstat"@[3] == 'u' && "--no-3way"@[3] == 'o'
        && "--numstat"@[2] == 'n' && "--recount"@[2] == 'r' && "--no-3way"@[2] == 'n');
    let t = stage_args(RunState { stage: PatchStage::Try, ..s });
    let k = if s.recounted {
        2int
    } else {
        1int
    };
    assert(t[k] == "--check"@);
    assert(stage_args(RunState { stage: PatchStage::Count, ..s })[1] == "--numstat"@);
}

/// What is told of a patch says whether it was made, and how much it changes.
pub proof fn patches_are_told(s: RunState)
    ensures
        ({
            let r = patched_fields(s);
            &&& get(r, "ok"@) == Some(Tree::Bool(true))
            &&& get(r, "applied"@) == Some(Tree::Bool(!s.dry_run))
            &&& get(r, "dry_run"@) == Some(Tree::Bool(s.dry_run))
            &&& get(r, "root"@) == Some(Tree::Text(s.root))
            &&& get(r, "summary"@) matches Some(Tree::Object(t)) && get(t, "files"@) == Some(
                Tree::Number(Num::Pos(s.files)),
            ) && get(t, "insertions"@) == Some(Tree::Number(Num::Pos(s.insertions))) && get(t, "deletions"@) == Some(
                Tree::Number(Num::Pos(s.deletions)),
            )
        }),
{
    broadcast use lemma_get_put;

    reveal_strlit("ok");
    reveal_strlit("version");
    reveal_strlit("applied");
    reveal_strlit("dry_run");
    reveal_strlit("root");
    reveal_strlit("summary");
    reveal_strlit("files");
    reveal_strlit("insertions");
    reveal_strlit("deletions");
    reveal_strlit("recounted");
    assert("ok"@.len() == 2 && "version"@.len() == 7 && "applied"@.len() == 7 && "dry_run"@.len() == 7
        && "root"@.len() == 4 && "summary"@.len() == 7 && "files"@.len() == 5 && "insertions"@.len() == 10
        && "deletions"@.len() == 9 && "recounted"@.len() == 9 && "version"@[0] == 'v' && "applied"@[0] == 'a'
        && "dry_run"@[0] == 'd' && "summary"@[0] == 's' && "deletions"@[0] == 'd' && "recounted"@[0] == 'r');
}

/// A request to apply a patch is of the directory and the patch that it names.
pub proof fn patches_are_as_asked_for(payload: Fields)
    ensures
        patch_plan_of(payload) matches Ok((requested, patch, dry_run)) ==> {
            &&& get(payload, "patch"@) == Some(Tree::Text(patch))
            &&& get(payload, "root"@) matches Some(t) ==> t == Tree::Text(requested)
            &&& get(payload, "root"@) is None ==> get(payload, "path"@) == Some(Tree::Text(requested))
            &&& dry_run <==> get(payload, "dry_run"@) == Some(Tree::Bool(true))
            &&& bytes_of(patch).len() <= 5_242_880
        },
{
}

/// A repository is told by the root that git names, and a failure by what git says: an
/// owner that is not trusted, files that may not be read, or no repository at all.
pub proof fn roots_are_as_git_names_them(requested: Seq<char>, code: i32, stdout: Seq<u8>, stderr: Seq<u8>)
    ensures
        code == 0 && stdout.len() > 0 ==> toplevel_of(requested, code, stdout, stderr) == Ok::<Seq<char>, Fault>(
            trimmed(lossy_text(stdout)),
        ),
        code != 0 && contained(lowercase_text(lossy_text(stderr)), "dubious ownership"@) ==> (toplevel_of(
            requested,
            code,
            stdout,
            stderr,
        ) matches Err(f) && f.code == "git_dubious_ownership"@),
        code != 0 && !contained(lowercase_text(lossy_text(stderr)), "dubious ownership"@) && !contained(
            lowercase_text(lossy_text(stderr)),
            "permission denied"@,
        ) ==> (toplevel_of(requested, code, stdout, stderr) matches Err(f) && f.code == "not_a_git_repo"@),
{
}

/// What is read of a remote is told as git prints it, line by line.
pub proof fn remote_refs_are_told(lines: Seq<Seq<char>>, sha: Seq<char>, name: Seq<char>)
    requires
        !sha.contains('\t'),
    ensures
        refs_on(lines.push(sha + seq!['\t'] + name)).len() == refs_on(lines).len() + 1,
        refs_on(lines.push(sha + seq!['\t'] + name)).last() matches Tree::Object(r) && get(r, "sha"@) == Some(
            Tree::Text(trimmed(sha)),
        ) && get(r, "ref"@) == Some(Tree::Text(trimmed(name))),
{
    broadcast use lemma_get_put;

    reveal_strlit("sha");
    reveal_strlit("ref");
    assert("sha"@.len() == 3 && "ref"@.len() == 3 && "sha"@[0] == 's' && "ref"@[0] == 'r');
    let line = sha + seq!['\t'] + name;
    let k = sha.len() as int;
    assert forall|i: int| 0 <= i < k implies line[i] != '\t' by {
        assert(line[i] == sha[i]);
        assert(sha.contains(sha[i]));
    }
    lemma_first_index_is(line, '\t', k);
    assert(line.take(k) =~= sha);
    assert(line.skip(k + 1) =~= name);
    assert(lines.push(line).drop_last() =~= lines);
}

/// A request to push or to fetch ends well exactly where git does, and names the remote and
/// the branch that it was for.
pub proof fn remotes_are_told(payload: Fields, p: Pushed, root: Seq<char>, code: i32, stdout: Seq<u8>, stderr: Seq<u8>)
    ensures
        push_outcome(p, root, code, stderr) is Ok <==> code == 0,
        fetch_outcome(payload, root, code, stderr) is Ok <==> code == 0,
        ls_remote_outcome(payload, root, code, stdout, stderr) is Ok <==> code == 0,
        push_outcome(p, root, code, stderr) matches Ok(r) ==> get(r, "remote"@) == Some(Tree::Text(p.remote)) && get(
            r,
            "branch"@,
        ) == Some(Tree::Text(p.branch)) && get(r, "forced"@) == Some(Tree::Bool(p.forced)) && get(r, "root"@) == Some(
            Tree::Text(root),
        ),
        fetch_outcome(payload, root, code, stderr) matches Ok(r) ==> get(r, "remote"@) == Some(Tree::Text(remote_of(payload)))
            && get(r, "root"@) == Some(Tree::Text(root)),
        code != 0 && contained(lowercase_text(scrubbed(stderr, root)), "stale info"@) ==> (push_outcome(p, root, code, stderr)
            matches Err(f) && f.code == "lease_stale"@),
        get(payload, "remote"@) matches Some(Tree::Text(name)) ==> remote_of(payload) == name,
        get(payload, "remote"@) is None ==> remote_of(payload) == "origin"@,
{
    broadcast use lemma_get_put;

    reveal_strlit("ok");
    reveal_strlit("version");
    reveal_strlit("operation");
    reveal_strlit("root");
    reveal_strlit("remote");
    reveal_strlit("branch");
    reveal_strlit("forced");
    reveal_strlit("output");
    assert("ok"@.len() == 2 && "version"@.len() == 7 && "operation"@.len() == 9 && "root"@.len() == 4
        && "remote"@.len() == 6 && "branch"@.len() == 6 && "forced"@.len() == 6 && "output"@.len() == 6
        && "remote"@[0] == 'r' && "branch"@[0] == 'b' && "forced"@[0] == 'f' && "output"@[0] == 'o');
}

/// A push goes to the remote and the branch that were asked for, and is forced only with a
/// lease on what the remote is expected to have.
pub proof fn pushes_are_as_asked_for(payload: Fields)
    ensures
        push_plan_of(payload) matches Ok(p) ==> {
            &&& get(payload, "branch"@) == Some(Tree::Text(p.branch))
            &&& p.remote == remote_of(payload)
            &&& p.forced <==> get(payload, "force"@) == Some(Tree::Bool(true))
            &&& push_args_of(p).last() == p.branch
            &&& push_args_of(p)[push_args_of(p).len() - 2] == p.remote
            &&& push_args_of(p)[0] == "push"@
            &&& !p.forced ==> push_args_of(p).len() == 3
            &&& p.forced ==> push_args_of(p).len() == 4
        },
{
}

/// A repository is cloned from the address and to the place that were asked for, and only
/// to one that may be written.
pub proof fn clones_are_as_asked_for(policy: Policy, payload: Fields, seen: Resolution)
    ensures
        clone_plan_of(policy, payload, seen) matches Ok((url, target, dir)) ==> {
            &&& get(payload, "url"@) == Some(Tree::Text(url))
            &&& get(payload, "dest"@) matches Some(Tree::Text(dest)) && resolved(policy, dest, true, seen) == Some(target)
            &&& clone_args_of(payload, url, target).last() == target
            &&& clone_args_of(payload, url, target)[clone_args_of(payload, url, target).len() - 2] == url
            &&& clone_args_of(payload, url, target)[0] == "clone"@
            &&& get(payload, "branch"@) matches Some(Tree::Text(b)) ==> clone_args_of(payload, url, target).contains(b)
        },
{
    if let Ok((url, target, dir)) = clone_plan_of(policy, payload, seen) {
        let a = clone_args_of(payload, url, target);
        if let Some(Tree::Text(b)) = get(payload, "branch"@) {
            assert(a[a.len() - 3] == b);
        }
    }
}

/// What git says is shown without the place of the repository, and not at length.
pub proof fn messages_are_short(bytes: Seq<u8>, root: Seq<char>)
    ensures
        scrubbed(bytes, root).len() <= 2000,
{
}

/// A request names one of the operations on repositories.
pub proof fn git_operations_are_told_apart(payload: Fields)
    ensures
        get(payload, "operation"@) == Some(Tree::Text("diff"@)) ==> git_op_of(payload) == Ok::<GitOp, Fault>(GitOp::Diff),
        get(payload, "operation"@) == Some(Tree::Text("apply_patch"@)) ==> git_op_of(payload) == Ok::<GitOp, Fault>(
            GitOp::ApplyPatch,
        ),
        get(payload, "operation"@) == Some(Tree::Text("ls_remote"@)) ==> git_op_of(payload) == Ok::<GitOp, Fault>(
            GitOp::LsRemote,
        ),
        get(payload, "operation"@) == Some(Tree::Text("fetch"@)) ==> git_op_of(payload) == Ok::<GitOp, Fault>(GitOp::Fetch),
        get(payload, "operation"@) == Some(Tree::Text("clone"@)) ==> git_op_of(payload) == Ok::<GitOp, Fault>(
            GitOp::CloneRepo,
        ),
        get(payload, "operation"@) == Some(Tree::Text("push"@)) ==> git_op_of(payload) == Ok::<GitOp, Fault>(GitOp::Push),
{
    reveal_strlit("diff");
    reveal_strlit("apply_patch");
    reveal_strlit("ls_remote");
    reveal_strlit("fetch");
    reveal_strlit("clone");
    reveal_strlit("push");
    assert("diff"@.len() == 4 && "apply_patch"@.len() == 11 && "ls_remote"@.len() == 9 && "fetch"@.len() == 5
        && "clone"@.len() == 5 && "push"@.len() == 4 && "diff"@[0] == 'd' && "push"@[0] == 'p' && "fetch"@[0] == 'f'
        && "clone"@[0] == 'c');
}

/// What git is asked about a remote.
pub open spec fn ls_remote_args_of(payload: Fields) -> Seq<Seq<char>> {
    let head = seq!["ls-remote"@, remote_of(payload)];
    match as_text(get(payload, "ref_pattern"@)) {
        Some(p) => head.push(p),
        None => head,
    }
}

/// What git is asked for to fetch.
pub open spec fn fetch_args_of(payload: Fields) -> Seq<Seq<char>> {
    let head = seq!["fetch"@, "--prune"@, remote_of(payload)];
    match as_text(get(payload, "ref"@)) {
        Some(p) => head.push(p),
        None => head,
    }
}

/// Git is asked about, and fetches from, the remote that was named, and what was asked for
/// of it alone where that was named.
pub proof fn remotes_are_asked(payload: Fields, name: Seq<char>)
    requires
        get(payload, "remote"@) == Some(Tree::Text(name)),
    ensures
        ls_remote_args_of(payload)[0] == "ls-remote"@ && ls_remote_args_of(payload)[1] == name,
        fetch_args_of(payload)[0] == "fetch"@ && fetch_args_of(payload)[2] == name,
        get(payload, "ref_pattern"@) matches Some(Tree::Text(p)) ==> ls_remote_args_of(payload).last() == p,
        get(payload, "ref"@) matches Some(Tree::Text(p)) ==> fetch_args_of(payload).last() == p,
        get(payload, "ref"@) is None ==> fetch_args_of(payload).len() == 3,
        get(payload, "ref_pattern"@) is None ==> ls_remote_args_of(payload).len() == 2,
{
}

/// A patch may touch a file only below the repository and where the policy lets it be written.
pub proof fn patched_files_may_be_written(policy: Policy, root: Seq<char>, path: Seq<char>, seen: Resolution)
    ensures
        patch_refusal(policy, root, path, seen) is None <==> !absolute(path) && !climbs(path) && (resolved(
            policy,
            joined(root, path),
            true,
            seen,
        ) matches Some(p) && under(p, root)),
        absolute(path) || climbs(path) ==> (patch_refusal(policy, root, path, seen) matches Some(f) && f.code
            == "patch_unsafe_path"@),
{
}

/// The files that a patch names are told once each, and all of them.
pub proof fn patched_files_are_told_once(lines: Seq<Seq<char>>, path: Seq<char>)
    ensures
        targets(lines).contains(path) <==> exists|i: int| 0 <= i < lines.len() && patch_target(#[trigger] lines[i]) == Some(path),
        targets(lines).no_duplicates(),
    decreases lines.len(),
{
    if lines.len() > 0 {
        let front = lines.drop_last();
        patched_files_are_told_once(front, path);
        let all = targets(lines);
        let some = targets(front);
        if all.contains(path) {
            let k = choose|k: int| 0 <= k < all.len() && all[k] == path;
            if k < some.len() {
                assert(some[k] == path);
                let i = choose|i: int| 0 <= i < front.len() && patch_target(#[trigger] front[i]) == Some(path);
                assert(lines[i] == front[i]);
            } else {
                assert(patch_target(lines[lines.len() - 1]) == Some(path));
            }
        }
        if exists|i: int| 0 <= i < lines.len() && patch_target(#[trigger] lines[i]) == Some(path) {
            let i = choose|i: int| 0 <= i < lines.len() && patch_target(#[trigger] lines[i]) == Some(path);
            if i < front.len() {
                assert(front[i] == lines[i]);
                let k = choose|k: int| 0 <= k < some.len() && some[k] == path;
                assert(all[k] == path);
            } else if !some.contains(path) {
                assert(all[all.len() - 1] == path);
            }
        }
    }
}

/// Git works where the policy opens the path, and nowhere else.
pub proof fn git_works_within_the_policy(policy: Policy, requested: Seq<char>, write: bool, seen: Resolution)
    ensures
        resolved(policy, requested, write, seen) matches Some(p) ==> git_start_of(policy, requested, write, seen) == Ok::<
            Seq<char>,
            Fault,
        >(p) && git_root_of(policy, requested, write, seen) == Ok::<Seq<char>, Fault>(p),
        resolved(policy, requested, write, seen) is None ==> (git_start_of(policy, requested, write, seen) matches Err(f) && f.code
            == "path_not_allowed"@) && (git_root_of(policy, requested, write, seen) matches Err(f) && f.code
            == "git_root_outside_allowlist"@),
{
}

} // verus!
