use sentinelx::git_ops::{
    check_clone_dest, check_patch_paths, check_start, clone_args, clone_plan, clone_result, diff_plan, diff_result,
    fetch_args, fetch_result, git_argv, git_env, git_failure, git_op, git_root, git_start, ls_remote_args, ls_remote_result,
    names_args, numstat_args, parse_name_status, patch_args, patch_paths, patch_plan, patches_wanted, push_args, push_plan,
    push_result, scrub, status_name, toplevel, toplevel_args, untracked_args, validate_patch_paths, ChangedFile, DiffOutput, GitFault,
    GitOp, PatchNext, PatchRun, PatchStage,
};
use sentinelx::json::{count_field, field, flag_field, has_field, into_object, list_field, object_field, text_field, Object};
use sentinelx::policy::{FileAccess, FileOpsPath, Policy, Resolution};
use sentinelx::project_snapshot::{
    check_directory, directory_snapshot, extension, found_root, git_snapshot, note_refusal, parse_status, snapshot_args,
    snapshot_failure, snapshot_root, DirEntry, GitOutput, Question,
};
use sentinelx::records::{rank, read_numstat, split_paths, split_records, tally};
use sentinelx::wire::{read_json, write_json};

fn object(text: &str) -> Object {
    into_object(read_json(text.as_bytes()).unwrap())
}

fn policy(access: FileAccess) -> Policy {
    Policy { file_ops_paths: vec![FileOpsPath { path: "/w".to_owned(), access }], ..Policy::default() }
}

fn seen(candidate: &str) -> Resolution {
    Resolution { candidate: Some(candidate.to_owned()), allowed: vec![Some("/w".to_owned())] }
}

fn code<T>(r: Result<T, sentinelx::handler_error::HandlerError>) -> String {
    match r {
        Ok(_) => "ok".to_owned(),
        Err(e) => e.code,
    }
}

#[test]
fn operations_are_named() {
    assert_eq!(git_op(&object(r#"{"operation":"clone"}"#)).ok(), Some(GitOp::CloneRepo));
    assert_eq!(git_op(&object(r#"{"operation":"apply_patch"}"#)).ok(), Some(GitOp::ApplyPatch));
    assert_eq!(
        git_op(&object(r#"{"operation":"rm"}"#)).err().unwrap().message,
        "git operation must be diff, apply_patch, ls_remote, fetch, clone or push (got Some(\"rm\"))"
    );
    assert!(git_op(&object("{}")).err().unwrap().message.ends_with("(got None)"));
}

#[test]
fn git_runs_apart_from_the_machine() {
    let argv = git_argv("/w", &vec!["status".to_owned()]);
    assert_eq!(argv, vec!["git", "-C", "/w", "-c", "core.fsmonitor=false", "status"]);
    assert!(git_env().contains(&("GIT_TERMINAL_PROMPT".to_owned(), "0".to_owned())));
    let args = vec!["fetch".to_owned()];
    assert_eq!(git_failure(&GitFault::TimedOut, &args).message, "git fetch timed out");
    assert_eq!(git_failure(&GitFault::NotStarted("e".to_owned()), &args).message, "failed to start git: e");
    assert_eq!(git_failure(&GitFault::NoInput, &args).code, "git_failed");
}

#[test]
fn roots_are_found_inside_the_policy() {
    let ro = policy(FileAccess::Read);
    assert_eq!(git_start(&ro, "/w/r", false, &seen("/w/r")).unwrap(), "/w/r");
    assert_eq!(code(git_start(&ro, "/w/r", true, &seen("/w/r"))), "path_not_allowed");
    assert_eq!(code(check_start("/w/r", false, false)), "not_found");
    assert_eq!(code(check_start("/w/r", true, false)), "is_file");
    assert_eq!(toplevel("/w/r", 0, b"/w/r\n", b"").unwrap(), "/w/r");
    assert_eq!(code(toplevel("/w/r", 128, b"", b"fatal: detected Dubious Ownership")), "git_dubious_ownership");
    assert_eq!(code(toplevel("/w/r", 128, b"", b"Permission denied")), "permission_denied");
    assert_eq!(code(toplevel("/w/r", 128, b"", b"Permission denied (publickey)")), "not_a_git_repo");
    assert_eq!(code(git_root(&ro, "/e", false, &seen("/e"))), "git_root_outside_allowlist");
}

#[test]
fn what_git_says_leaves_the_root_out() {
    assert_eq!(scrub(b" error: /w/r/src/a.rs in /w/r \n", "/w/r"), "error: src/a.rs in");
    assert_eq!(scrub("é".repeat(3000).as_bytes(), "/w").chars().count(), 2000);
}

#[test]
fn changed_files_are_read_with_their_old_names() {
    let files = parse_name_status(b"M\0a.rs\0R100\0old.rs\0new.rs\0A\0b\0D");
    assert_eq!(
        files,
        vec![
            ChangedFile { path: "a.rs".to_owned(), status: "modified".to_owned(), old_path: None },
            ChangedFile { path: "new.rs".to_owned(), status: "renamed".to_owned(), old_path: Some("old.rs".to_owned()) },
            ChangedFile { path: "b".to_owned(), status: "added".to_owned(), old_path: None },
        ]
    );
    assert_eq!(status_name('T'), "typechange");
    assert_eq!(status_name('?'), "changed");
}

#[test]
fn diffs_show_patches_within_their_room() {
    let plan = diff_plan(&object(r#"{"max_files":2,"max_patch_bytes":1,"context_lines":99}"#)).ok().unwrap();
    assert_eq!((plan.max_files, plan.max_patch, plan.context), (2, 1024, 10));
    assert_eq!(numstat_args(&plan), vec!["diff", "HEAD", "--no-ext-diff", "--numstat", "-z"]);
    assert_eq!(names_args(&plan)[3], "--name-status");
    assert_eq!(untracked_args()[0], "ls-files");
    let changed = parse_name_status(b"M\0a\0");
    assert_eq!(
        patch_args(&plan, &changed[0]),
        vec!["diff", "HEAD", "--no-ext-diff", "--unified=10", "--", "a"]
    );
    assert_eq!(patches_wanted(&plan, &changed), 1);
    let output = DiffOutput {
        numstat: b"3\t1\ta\0".to_vec(),
        changed,
        patches: vec![vec![b'x'; 1025]],
        untracked: vec!["u1".to_owned(), "u2".to_owned()],
    };
    let result = diff_result("/w", &plan, &output);
    assert_eq!(
        write_json(field(&result, "summary").unwrap()),
        r#"{"deletions":1,"files":1,"insertions":3,"untracked":2}"#
    );
    let files = list_field(&result, "files").unwrap();
    assert_eq!(files.len(), 2);
    assert_eq!(write_json(&files[0]), r#"{"patch":null,"path":"a","status":"modified"}"#);
    assert_eq!(write_json(field(&result, "truncated").unwrap()), r#"{"files":true,"patch":true}"#);
    assert_eq!(code(diff_plan(&object(r#"{"staged":false,"unstaged":false}"#))), "invalid_payload");
    let staged = diff_plan(&object(r#"{"unstaged":false,"base_ref":"main"}"#)).ok().unwrap();
    assert_eq!(&numstat_args(&staged)[..3], &["diff", "--cached", "main"]);
}

#[test]
fn patches_keep_to_the_repository() {
    let patch = "--- a/f.txt\n+++ b/f.txt\n@@\n--- /dev/null\n+++ b/new.txt\t2026\n";
    let paths = patch_paths(patch);
    assert_eq!(paths, vec!["f.txt", "new.txt"]);
    assert!(check_patch_paths(&paths).is_ok());
    assert_eq!(code(check_patch_paths(&Vec::new())), "invalid_payload");
    let rw = policy(FileAccess::ReadWrite);
    let at = |names: &[&str]| names.iter().map(|n| seen(n)).collect::<Vec<Resolution>>();
    assert!(validate_patch_paths(&rw, "/w/r", &paths, &at(&["/w/r/f.txt", "/w/r/new.txt"])).is_ok());
    assert_eq!(
        code(validate_patch_paths(&rw, "/w/r", &paths, &at(&["/w/r/f.txt", "/w/other"]))),
        "patch_unsafe_path"
    );
    assert_eq!(
        code(validate_patch_paths(&rw, "/w/r", &paths, &at(&["/etc/f", "/w/r/new.txt"]))),
        "path_not_allowed"
    );
    for bad in ["../x", "/etc/passwd"] {
        let one = vec![bad.to_owned()];
        assert_eq!(code(validate_patch_paths(&rw, "/w/r", &one, &at(&["/w/r/x"]))), "patch_unsafe_path");
    }
}

#[test]
fn wrong_hunk_counts_are_recounted_in_dry_run() {
    let patch = "--- a/f.txt\n+++ b/f.txt\n@@ -3,9 +3,9 @@ line2\n line3\n line4\n+INSERTED\n line5\n";
    let mut payload = object(r#"{"operation":"apply_patch","path":"/w/r","dry_run":true}"#);
    sentinelx::json::set_field(&mut payload, "patch", sentinelx::json::string(patch));
    let plan = patch_plan(&payload).ok().unwrap();
    assert!(plan.dry_run);
    let mut run = PatchRun::start("/w/r", patch_paths(&plan.patch).len(), plan.dry_run);
    assert_eq!(run.args(), vec!["apply", "--numstat", "--no-3way", "-"]);
    assert!(matches!(run.step(128, b"", b"error: corrupt patch at line 7"), PatchNext::Run));
    assert_eq!(run.args(), vec!["apply", "--recount", "--numstat", "--no-3way", "-"]);
    assert!(matches!(run.step(0, b"1\t0\tf.txt\0", b""), PatchNext::Run));
    assert_eq!(run.args(), vec!["apply", "--recount", "--check", "--no-3way", "-"]);
    match run.step(0, b"", b"") {
        PatchNext::Done(Ok(result)) => {
            assert_eq!(flag_field(&result, "recounted"), Some(true));
            assert_eq!(flag_field(&result, "applied"), Some(false));
        },
        _ => panic!("a trial ends here"),
    }
}

#[test]
fn patches_are_made_once_tried() {
    let mut run = PatchRun::start("/w/r", 1, false);
    assert!(matches!(run.step(0, b"2\t1\tf\0", b""), PatchNext::Run));
    assert!(matches!(run.step(0, b"", b""), PatchNext::Run));
    assert_eq!(run.stage, PatchStage::Make);
    assert_eq!(run.args(), vec!["apply", "--no-3way", "-"]);
    match run.step(0, b"", b"") {
        PatchNext::Done(Ok(result)) => {
            assert_eq!(flag_field(&result, "applied"), Some(true));
            assert!(!has_field(&result, "recounted"));
            assert_eq!(count_field(object_field(&result, "summary").unwrap(), "insertions"), Some(2));
        },
        _ => panic!("the patch is made"),
    }
    let mut bad = PatchRun::start("/w/r", 1, false);
    bad.step(0, b"", b"");
    match bad.step(1, b"", b"error: /w/r/f: no") {
        PatchNext::Done(Err(e)) => {
            assert_eq!((e.code.as_str(), e.message.as_str()), ("patch_does_not_apply", "error: f: no"));
        },
        _ => panic!("the patch does not apply"),
    }
}

#[test]
fn patches_have_a_place_and_a_ceiling() {
    assert_eq!(code(patch_plan(&object(r#"{"patch":"x"}"#))), "invalid_payload");
    assert_eq!(code(patch_plan(&object(r#"{"root":"/w"}"#))), "invalid_payload");
    assert_eq!(patch_plan(&object(r#"{"root":"/a","path":"/b","patch":"x"}"#)).ok().unwrap().requested, "/a");
    let mut payload = object(r#"{"path":"/w"}"#);
    sentinelx::json::set_field(&mut payload, "patch", sentinelx::json::string(&"x".repeat(5_242_881)));
    assert_eq!(patch_plan(&payload).err().unwrap().message, "patch exceeds 5 MiB ceiling");
}

#[test]
fn remotes_tell_their_references() {
    let payload = object(r#"{"ref_pattern":"main"}"#);
    assert_eq!(ls_remote_args(&payload), vec!["ls-remote", "origin", "main"]);
    let result = ls_remote_result(&payload, "/w", 0, b"abc\trefs/heads/main\nno tab\ndef \t refs/tags/v1\n", b"").unwrap();
    assert_eq!(count_field(&result, "count"), Some(2));
    assert_eq!(
        write_json(field(&result, "refs").unwrap()),
        r#"[{"ref":"refs/heads/main","sha":"abc"},{"ref":"refs/tags/v1","sha":"def"}]"#
    );
    let many: String = (0..300).map(|i| format!("s{i}\tr{i}\n")).collect();
    let result = ls_remote_result(&payload, "/w", 0, many.as_bytes(), b"").unwrap();
    assert_eq!(count_field(&result, "count"), Some(200));
    assert_eq!(code(ls_remote_result(&payload, "/w", 2, b"", b"no")), "remote_failed");
}

#[test]
fn fetches_and_clones_are_told() {
    assert_eq!(
        fetch_args(&object(r#"{"remote":"up","ref":"dev"}"#)),
        vec!["fetch", "--prune", "up", "dev"]
    );
    let done = fetch_result(&object("{}"), "/w", 0, b"From x\n").unwrap();
    assert_eq!(text_field(&done, "output"), Some("From x"));
    assert_eq!(code(fetch_result(&object("{}"), "/w", 1, b"no")), "remote_failed");

    let rw = policy(FileAccess::ReadWrite);
    let payload = object(r#"{"url":"https://x/r.git","dest":"/w/r","depth":5000,"branch":"b"}"#);
    let plan = clone_plan(&rw, &payload, &seen("/w/r")).ok().unwrap();
    assert_eq!(plan.parent, "/w");
    assert_eq!(
        clone_args(&payload, &plan),
        vec!["clone", "--depth", "1000", "--branch", "b", "https://x/r.git", "/w/r"]
    );
    assert_eq!(text_field(&clone_result(&plan, 0, b"").unwrap(), "root"), Some("/w/r"));
    assert_eq!(code(clone_result(&plan, 128, b"no")), "remote_failed");
    assert_eq!(code(check_clone_dest(true, false)), "dest_not_empty");
    assert!(check_clone_dest(true, true).is_ok() && check_clone_dest(false, false).is_ok());
    assert_eq!(code(clone_plan(&rw, &payload, &seen("/e/r"))), "path_not_allowed");
}

#[test]
fn force_push_without_lease_is_refused_before_network() {
    let error = push_plan(&object(r#"{"operation":"push","path":"/w/r","branch":"main","force":true}"#)).err().unwrap();
    assert_eq!(error.code, "force_requires_lease");
}

#[test]
fn forced_pushes_name_what_they_overwrite() {
    let forced = push_plan(&object(r#"{"branch":"main","force":true,"expected_remote_sha":"abc"}"#)).ok().unwrap();
    assert_eq!(push_args(&forced), vec!["push", "--force-with-lease=main:abc", "origin", "main"]);
    let plain = push_plan(&object(r#"{"branch":"main","expected_remote_sha":"abc"}"#)).ok().unwrap();
    assert_eq!(push_args(&plain), vec!["push", "origin", "main"]);
    assert_eq!(code(push_result(&forced, "/w", 1, b"! [rejected] (Stale Info)")), "lease_stale");
    assert_eq!(code(push_result(&forced, "/w", 1, b"denied")), "remote_failed");
    assert_eq!(flag_field(&push_result(&forced, "/w", 0, b"ok").unwrap(), "forced"), Some(true));
    assert_eq!(code(push_plan(&object("{}"))), "invalid_payload");
}

#[test]
fn plain_directory_gets_bounded_summary() {
    let entries = vec![
        DirEntry { name: "a.rs".to_owned(), is_dir: false },
        DirEntry { name: "src".to_owned(), is_dir: true },
    ];
    let result = directory_snapshot("/w", &entries);
    assert_eq!(text_field(&result, "kind"), Some("directory"));
    assert_eq!(count_field(object_field(&result, "repository").unwrap(), "file_count"), Some(1));
    assert!(check_directory(true, true).is_ok());
    assert!(check_directory(true, false).is_err() && check_directory(false, false).is_err());
}

#[test]
fn repositories_are_summed_up() {
    let status = b"# branch.oid 0123456789abcdef0123\0# branch.head main\0# branch.ab +2 -1\x001 M. N... x a\0? new\0";
    let parsed = parse_status(status);
    assert_eq!(parsed.branch.as_deref(), Some("main"));
    assert_eq!((parsed.ahead, parsed.behind), (2, 1));
    assert_eq!(parsed.untracked, 1);
    let output = GitOutput {
        status: status.to_vec(),
        unstaged: b"1\t2\ta\0".to_vec(),
        staged: Vec::new(),
        files: Some(b"src/a.rs\0src/b.rs\0README\0".to_vec()),
        log: Vec::new(),
    };
    let result = git_snapshot("/w", &output);
    assert_eq!(text_field(&result, "kind"), Some("git"));
    assert_eq!(found_root(0, b"/w\n").as_deref(), Some("/w"));
    assert_eq!(found_root(1, b"/w\n"), None);
    assert!(snapshot_root(&policy(FileAccess::Read), &object(r#"{"path":"/w"}"#), &seen("/w")).is_ok());
    assert!(snapshot_root(&policy(FileAccess::Read), &object(r#"{"path":"/e"}"#), &seen("/e")).is_err());
    assert!(!has_field(&note_refusal(object("{}"), b"fatal: not a git repository"), "git_unavailable"));
    assert!(has_field(&note_refusal(object("{}"), b"dubious ownership"), "git_unavailable"));
}

#[test]
fn questions_about_repositories_only_look() {
    assert_eq!(toplevel_args().join(" "), "rev-parse --show-toplevel");
    assert_eq!(snapshot_args(Question::Status).join(" "), "status --porcelain=v2 --branch -z");
    assert_eq!(snapshot_args(Question::Unstaged).join(" "), "diff --no-ext-diff --numstat -z");
    assert_eq!(snapshot_args(Question::Staged).join(" "), "diff --cached --no-ext-diff --numstat -z");
    assert_eq!(snapshot_args(Question::Files).join(" "), "ls-files -z");
    assert_eq!(
        snapshot_args(Question::Log).join(" "),
        "log -10 --no-color --pretty=format:%h%x1f%s%x1f%an%x1f%ad --date=short"
    );
    let late = snapshot_failure(&GitFault::TimedOut);
    assert_eq!((late.code.as_str(), late.message.as_str()), ("git_timeout", "git command timed out"));
    let lost = snapshot_failure(&GitFault::Lost("gone".to_owned()));
    assert_eq!((lost.code.as_str(), lost.message.as_str()), ("git_failed", "gone"));
}

#[test]
fn extensions_come_behind_the_last_dot() {
    assert_eq!(extension("a.tar.gz"), "gz");
    assert_eq!(extension("A.RS"), "RS");
    assert_eq!(extension(".bashrc"), "<dotfile>");
    assert_eq!(extension(".a.b"), "b");
    assert_eq!(extension("Makefile"), "<none>");
    assert_eq!(extension("a."), "<none>");
}

#[test]
fn records_end_at_zero_bytes() {
    assert_eq!(split_records(b"a\0b"), vec!["a", "b"]);
    assert_eq!(split_paths(b"a\0\0b\0"), vec!["a", "b"]);
    assert_eq!(read_numstat(b"1\t2\ta\0-\t-\tbin\0junk\0", true), (2, 1, 2));
    let names: Vec<String> = ["b", "a", "b"].iter().map(|n| (*n).to_owned()).collect();
    let counted = tally(&names);
    assert_eq!(rank(counted), vec![("b".to_owned(), 2), ("a".to_owned(), 1)]);
}
