//! How an edited file is checked before it is put in place, and how an edit is
//! shown.

use crate::handler_error::{fault, Fault, HandlerError};
use crate::json::{as_text, fields, get, text_field, Fields, Object, Tree};
use crate::text::{
    bytes_of, cat2, cat3, cat5, ends_with, from_utf8_lossy, lossy_text, opt_view, same, suffixed, trim, trimmed, views,
};
use crate::wire::{parsed_json, read_json};
use vstd::prelude::*;

verus! {

/// The words of a command line, where its quotes are balanced.
pub uninterp spec fn shell_words(text: Seq<char>) -> Option<Seq<Seq<char>>>;

/// What is wrong with a YAML document, where something is.
pub uninterp spec fn yaml_fault(text: Seq<char>) -> Option<Seq<char>>;

/// What is wrong with a TOML document, where something is.
pub uninterp spec fn toml_fault(text: Seq<char>) -> Option<Seq<char>>;

/// What becomes of a line.
#[derive(Debug, Clone, Copy, PartialEq, Eq, Structural)]
pub enum Change {
    Delete,
    Insert,
    Equal,
}

/// The lines of two texts, each with what becomes of it.
pub uninterp spec fn line_changes(old: Seq<char>, new: Seq<char>) -> Seq<(Change, Seq<char>)>;

pub open spec fn change_views(changes: Seq<(Change, String)>) -> Seq<(Change, Seq<char>)> {
    Seq::new(changes.len(), |i: int| (changes[i].0, changes[i].1@))
}

/// `shlex::split`: nothing where the text has an unbalanced quote or ends in a
/// backslash.
#[verifier::external_body]
pub(crate) fn split_shell(text: &str) -> (r: Option<Vec<String>>)
    ensures
        match r {
            Some(list) => shell_words(text@) == Some(views(list@)),
            None => shell_words(text@) is None,
        },
{
    shlex::split(text)
}

/// `yaml_serde::from_str` to a `yaml_serde::Value`: the error by its `to_string`,
/// where there is one.
#[verifier::external_body]
pub(crate) fn find_yaml_fault(text: &str) -> (r: Option<String>)
    ensures
        opt_view(r) == yaml_fault(text@),
{
    yaml_serde::from_str::<yaml_serde::Value>(text).err().map(|error| error.to_string())
}

/// `toml::from_str` to a `toml::Value`: the error by its `to_string`, where there
/// is one.
#[verifier::external_body]
pub(crate) fn find_toml_fault(text: &str) -> (r: Option<String>)
    ensures
        opt_view(r) == toml_fault(text@),
{
    toml::from_str::<toml::Value>(text).err().map(|error| error.to_string())
}

/// `similar::TextDiff::from_lines` and `iter_all_changes`: each line of the two
/// texts with its tag.
#[verifier::external_body]
pub(crate) fn compare_lines(old_text: &str, new_text: &str) -> (r: Vec<(Change, String)>)
    ensures
        change_views(r@) == line_changes(old_text@, new_text@),
{
    let diff = similar::TextDiff::from_lines(old_text, new_text);
    diff.iter_all_changes()
        .map(|change| match change.tag() {
            similar::ChangeTag::Delete => (Change::Delete, change.value().to_owned()),
            similar::ChangeTag::Insert => (Change::Insert, change.value().to_owned()),
            similar::ChangeTag::Equal => (Change::Equal, change.value().to_owned()),
        })
        .collect()
}

/// How a file is checked.
pub enum ValidatorPlan {
    /// It is not.
    Nothing,
    /// Its text is read as a document of this kind.
    Document(DocumentKind),
    /// This command is run.
    Command(Vec<String>),
}

#[derive(Debug, Clone, Copy, PartialEq, Eq, Structural)]
pub enum DocumentKind {
    Json,
    Yaml,
    Toml,
}

pub enum Checked {
    Nothing,
    Document(DocumentKind),
    Command(Seq<Seq<char>>),
}

pub open spec fn checked(r: Result<ValidatorPlan, HandlerError>) -> Result<Checked, Fault> {
    match r {
        Ok(ValidatorPlan::Nothing) => Ok(Checked::Nothing),
        Ok(ValidatorPlan::Document(k)) => Ok(Checked::Document(k)),
        Ok(ValidatorPlan::Command(argv)) => Ok(Checked::Command(views(argv@))),
        Err(e) => Err(e@),
    }
}

/// A command line with the file in place of `{file}`.
pub open spec fn with_file(parts: Seq<Seq<char>>, path: Seq<char>) -> Seq<Seq<char>> {
    Seq::new(
        parts.len(),
        |i: int|
            if parts[i] == "{file}"@ {
                path
            } else {
                parts[i]
            },
    )
}

/// How a request wants a file checked.
pub open spec fn check_of(payload: Fields, path: Seq<char>) -> Result<Checked, Fault> {
    match as_text(get(payload, "validator_preset"@)) {
        Some(preset) => Ok(
            if preset == "json"@ {
                Checked::Document(DocumentKind::Json)
            } else if preset == "yaml"@ {
                Checked::Document(DocumentKind::Yaml)
            } else if preset == "toml"@ {
                Checked::Document(DocumentKind::Toml)
            } else if preset == "python"@ {
                Checked::Command(seq!["python3"@, "-m"@, "py_compile"@, path])
            } else if preset == "sh"@ {
                Checked::Command(seq!["bash"@, "-n"@, path])
            } else if preset == "systemd"@ {
                Checked::Command(seq!["systemd-analyze"@, "verify"@, path])
            } else if preset == "nginx"@ {
                Checked::Command(seq!["sudo"@, "nginx"@, "-t"@, "-c"@, "/etc/nginx/nginx.conf"@])
            } else {
                Checked::Nothing
            },
        ),
        None => match as_text(get(payload, "validator"@)) {
            Some(custom) => match shell_words(custom) {
                None => Err(fault("invalid_payload"@, "validator has invalid shell quoting"@)),
                Some(parts) => Ok(
                    if parts.len() == 0 {
                        Checked::Nothing
                    } else {
                        Checked::Command(with_file(parts, path))
                    },
                ),
            },
            None => Ok(Checked::Nothing),
        },
    }
}

fn preset_command(preset: &str, path: &str) -> (r: ValidatorPlan)
    ensures
        ({
            let c = if preset@ == "python"@ {
                Checked::Command(seq!["python3"@, "-m"@, "py_compile"@, path@])
            } else if preset@ == "sh"@ {
                Checked::Command(seq!["bash"@, "-n"@, path@])
            } else if preset@ == "systemd"@ {
                Checked::Command(seq!["systemd-analyze"@, "verify"@, path@])
            } else if preset@ == "nginx"@ {
                Checked::Command(seq!["sudo"@, "nginx"@, "-t"@, "-c"@, "/etc/nginx/nginx.conf"@])
            } else {
                Checked::Nothing
            };
            checked(Ok(r)) == Ok::<Checked, Fault>(c)
        }),
{
    if same(preset, "python") {
        let argv: Vec<String> = vec!["python3".to_owned(), "-m".to_owned(), "py_compile".to_owned(), path.to_owned()];
        assert(views(argv@) =~= seq!["python3"@, "-m"@, "py_compile"@, path@]);
        return ValidatorPlan::Command(argv);
    }
    if same(preset, "sh") {
        let argv: Vec<String> = vec!["bash".to_owned(), "-n".to_owned(), path.to_owned()];
        assert(views(argv@) =~= seq!["bash"@, "-n"@, path@]);
        return ValidatorPlan::Command(argv);
    }
    if same(preset, "systemd") {
        let argv: Vec<String> = vec!["systemd-analyze".to_owned(), "verify".to_owned(), path.to_owned()];
        assert(views(argv@) =~= seq!["systemd-analyze"@, "verify"@, path@]);
        return ValidatorPlan::Command(argv);
    }
    if same(preset, "nginx") {
        let argv: Vec<String> = vec![
            "sudo".to_owned(),
            "nginx".to_owned(),
            "-t".to_owned(),
            "-c".to_owned(),
            "/etc/nginx/nginx.conf".to_owned(),
        ];
        assert(views(argv@) =~= seq!["sudo"@, "nginx"@, "-t"@, "-c"@, "/etc/nginx/nginx.conf"@]);
        return ValidatorPlan::Command(argv);
    }
    ValidatorPlan::Nothing
}

fn put_file(parts: &Vec<String>, path: &str) -> (r: Vec<String>)
    ensures
        views(r@) == with_file(views(parts@), path@),
{
    let mut out: Vec<String> = Vec::new();
    let mut i: usize = 0;
    while i < parts.len()
        invariant
            i <= parts@.len(),
            out@.len() == i,
            forall|j: int| 0 <= j < i ==> (#[trigger] out@[j])@ == with_file(views(parts@), path@)[j],
        decreases parts@.len() - i,
    {
        if same(&parts[i], "{file}") {
            out.push(path.to_owned());
        } else {
            out.push(parts[i].clone());
        }
        i = i + 1;
    }
    assert(views(out@) =~= with_file(views(parts@), path@));
    out
}

/// How a request wants the file at `path` checked.
pub fn validator_plan(payload: &Object, path: &str) -> (r: Result<ValidatorPlan, HandlerError>)
    ensures
        checked(r) == check_of(fields(payload@), path@),
{
    if let Some(preset) = text_field(payload, "validator_preset") {
        if same(preset, "json") {
            return Ok(ValidatorPlan::Document(DocumentKind::Json));
        }
        if same(preset, "yaml") {
            return Ok(ValidatorPlan::Document(DocumentKind::Yaml));
        }
        if same(preset, "toml") {
            return Ok(ValidatorPlan::Document(DocumentKind::Toml));
        }
        return Ok(preset_command(preset, path));
    }
    match text_field(payload, "validator") {
        Some(custom) => match split_shell(custom) {
            Some(parts) => {
                assert(views(parts@).len() == parts@.len());
                if parts.len() == 0 {
                    Ok(ValidatorPlan::Nothing)
                } else {
                    Ok(ValidatorPlan::Command(put_file(&parts, path)))
                }
            },
            None => Err(HandlerError::new("invalid_payload", "validator has invalid shell quoting")),
        },
        None => Ok(ValidatorPlan::Nothing),
    }
}

/// What is wrong with a document.
pub open spec fn document_fault(kind: DocumentKind, text: Seq<char>) -> Option<Seq<char>> {
    match kind {
        DocumentKind::Json => match parsed_json(bytes_of(text)) {
            Ok(_) => None,
            Err(e) => Some(e),
        },
        DocumentKind::Yaml => yaml_fault(text),
        DocumentKind::Toml => toml_fault(text),
    }
}

pub open spec fn kind_name(kind: DocumentKind) -> Seq<char> {
    match kind {
        DocumentKind::Json => "internal:json"@,
        DocumentKind::Yaml => "internal:yaml"@,
        DocumentKind::Toml => "internal:toml"@,
    }
}

/// Checks the text of the file at `path` as a document, and says how that was done.
pub fn check_document(kind: DocumentKind, text: &str, path: &str) -> (r: Result<Vec<String>, HandlerError>)
    ensures
        match r {
            Ok(said) => document_fault(kind, text@) is None && views(said@) == seq![kind_name(kind), path@],
            Err(e) => document_fault(kind, text@) matches Some(fault_text) && e@ == fault(
                "validation_failed"@,
                "validation failed: "@ + fault_text,
            ),
        },
{
    let (found, name) = match kind {
        DocumentKind::Json => (
            match read_json(text.as_bytes()) {
                Ok(_) => None,
                Err(e) => Some(e),
            },
            "internal:json",
        ),
        DocumentKind::Yaml => (find_yaml_fault(text), "internal:yaml"),
        DocumentKind::Toml => (find_toml_fault(text), "internal:toml"),
    };
    match found {
        Some(e) => Err(HandlerError::new("validation_failed", &cat2("validation failed: ", &e))),
        None => {
            let said: Vec<String> = vec![name.to_owned(), path.to_owned()];
            assert(views(said@) =~= seq![kind_name(kind), path@]);
            Ok(said)
        },
    }
}

/// What a command that found a fault says.
pub open spec fn command_fault(stdout: Seq<u8>, stderr: Seq<u8>) -> Fault {
    let first = trimmed(lossy_text(stdout));
    let second = trimmed(lossy_text(stderr));
    let message = if first.len() == 0 && second.len() == 0 {
        "validation failed"@
    } else if second.len() == 0 {
        "validation failed: "@ + first
    } else if first.len() == 0 {
        "validation failed: "@ + second
    } else {
        "validation failed: "@ + (first + " / "@ + second)
    };
    fault("validation_failed"@, message)
}

/// What a command that found a fault says.
pub fn validator_failure(stdout: &[u8], stderr: &[u8]) -> (r: HandlerError)
    ensures
        r@ == command_fault(stdout@, stderr@),
{
    let first = trim(&from_utf8_lossy(stdout));
    let second = trim(&from_utf8_lossy(stderr));
    let no_first = first.as_str().is_empty();
    let no_second = second.as_str().is_empty();
    if no_first && no_second {
        return HandlerError::new("validation_failed", "validation failed");
    }
    let tail = if no_second {
        first
    } else if no_first {
        second
    } else {
        cat3(&first, " / ", &second)
    };
    HandlerError::new("validation_failed", &cat2("validation failed: ", &tail))
}

/// A line of a diff.
pub open spec fn diff_line(change: Change, line: Seq<char>) -> Seq<char> {
    let mark = match change {
        Change::Delete => "-"@,
        Change::Insert => "+"@,
        Change::Equal => " "@,
    };
    if suffixed(line, "\n"@) {
        mark + line
    } else {
        mark + line + "\n"@
    }
}

/// The first `n` lines of a diff.
pub open spec fn diff_lines(changes: Seq<(Change, Seq<char>)>, n: int) -> Seq<char>
    decreases n,
{
    if n <= 0 || n > changes.len() {
        Seq::empty()
    } else {
        diff_lines(changes, n - 1) + diff_line(changes[n - 1].0, changes[n - 1].1)
    }
}

/// An edit as it is shown: all lines, each with its mark.
pub open spec fn diff_text(old_text: Seq<char>, new_text: Seq<char>, path: Seq<char>) -> Seq<char> {
    let changes = line_changes(old_text, new_text);
    "--- "@ + path + "\n+++ "@ + path + "\n"@ + diff_lines(changes, changes.len() as int)
}

/// Shows the lines that an edit of `path` deletes, inserts and keeps.
pub fn unified_diff(old_text: &str, new_text: &str, path: &str) -> (r: String)
    ensures
        r@ == diff_text(old_text@, new_text@, path@),
{
    let changes = compare_lines(old_text, new_text);
    let ghost all = change_views(changes@);
    let head = cat5("--- ", path, "\n+++ ", path, "\n");
    let mut body = String::new();
    let mut i: usize = 0;
    while i < changes.len()
        invariant
            i <= changes@.len(),
            all == change_views(changes@),
            body@ == diff_lines(all, i as int),
        decreases changes@.len() - i,
    {
        assert(all[i as int] == (changes@[i as int].0, changes@[i as int].1@));
        let mark = match changes[i].0 {
            Change::Delete => "-",
            Change::Insert => "+",
            Change::Equal => " ",
        };
        let line = if ends_with(&changes[i].1, "\n") {
            cat2(mark, &changes[i].1)
        } else {
            cat3(mark, &changes[i].1, "\n")
        };
        body = body.concat(&line);
        i = i + 1;
    }
    assert(all.len() == changes@.len());
    cat2(&head, &body)
}

/// What an edit is checked with is what was asked for: a preset before a command, and none
/// where none was named.
pub proof fn checks_are_as_asked_for(payload: Fields, path: Seq<char>)
    ensures
        get(payload, "validator_preset"@) is None && get(payload, "validator"@) is None ==> check_of(payload, path) == Ok::<
            Checked,
            Fault,
        >(Checked::Nothing),
        get(payload, "validator_preset"@) == Some(Tree::Text("json"@)) ==> check_of(payload, path) == Ok::<Checked, Fault>(
            Checked::Document(DocumentKind::Json),
        ),
        get(payload, "validator_preset"@) == Some(Tree::Text("yaml"@)) ==> check_of(payload, path) == Ok::<Checked, Fault>(
            Checked::Document(DocumentKind::Yaml),
        ),
        get(payload, "validator_preset"@) == Some(Tree::Text("toml"@)) ==> check_of(payload, path) == Ok::<Checked, Fault>(
            Checked::Document(DocumentKind::Toml),
        ),
        get(payload, "validator_preset"@) == Some(Tree::Text("python"@)) || get(payload, "validator_preset"@) == Some(
            Tree::Text("sh"@),
        ) || get(payload, "validator_preset"@) == Some(Tree::Text("systemd"@)) ==> (check_of(payload, path) matches Ok(
            Checked::Command(argv),
        ) && argv.len() >= 3 && argv.last() == path),
        get(payload, "validator_preset"@) == Some(Tree::Text("sh"@)) ==> (check_of(payload, path) matches Ok(
            Checked::Command(argv),
        ) && argv[0] == "bash"@ && argv[1] == "-n"@),
        get(payload, "validator_preset"@) == Some(Tree::Text("python"@)) ==> (check_of(payload, path) matches Ok(
            Checked::Command(argv),
        ) && argv[0] == "python3"@),
        get(payload, "validator_preset"@) == Some(Tree::Text("nginx"@)) ==> check_of(payload, path) == Ok::<Checked, Fault>(
            Checked::Command(seq!["sudo"@, "nginx"@, "-t"@, "-c"@, "/etc/nginx/nginx.conf"@]),
        ),
        get(payload, "validator_preset"@) == Some(Tree::Text("systemd"@)) ==> (check_of(payload, path) matches Ok(
            Checked::Command(argv),
        ) && argv[0] == "systemd-analyze"@),
{
    reveal_strlit("json");
    reveal_strlit("yaml");
    reveal_strlit("toml");
    reveal_strlit("python");
    reveal_strlit("sh");
    reveal_strlit("systemd");
    reveal_strlit("nginx");
    assert("json"@.len() == 4 && "yaml"@.len() == 4 && "toml"@.len() == 4 && "python"@.len() == 6 && "sh"@.len() == 2
        && "systemd"@.len() == 7 && "nginx"@.len() == 5 && "json"@[0] == 'j' && "yaml"@[0] == 'y' && "toml"@[0] == 't');
}

/// A command of one's own is run as it stands, with the path in the place of `{file}`.
pub proof fn commands_are_given_the_file(payload: Fields, custom: Seq<char>, parts: Seq<Seq<char>>, path: Seq<char>)
    requires
        get(payload, "validator_preset"@) is None,
        get(payload, "validator"@) == Some(Tree::Text(custom)),
        shell_words(custom) == Some(parts),
        parts.len() > 0,
    ensures
        check_of(payload, path) matches Ok(Checked::Command(argv)) && argv.len() == parts.len() && forall|i: int|
            0 <= i < parts.len() ==> #[trigger] argv[i] == (if parts[i] == "{file}"@ {
                path
            } else {
                parts[i]
            }),
{
}

/// A document of the kind passes exactly where it can be read as one.
pub proof fn documents_are_read(text: Seq<char>)
    ensures
        document_fault(DocumentKind::Json, text) is None <==> parsed_json(bytes_of(text)) is Ok,
        document_fault(DocumentKind::Yaml, text) == yaml_fault(text),
        document_fault(DocumentKind::Toml, text) == toml_fault(text),
{
}

/// A line of a difference is told with its mark: one that goes, one that comes, one that
/// stays.
pub proof fn changed_lines_are_marked(line: Seq<char>)
    ensures
        diff_line(Change::Delete, line + seq!['\n']) == seq!['-'] + line + seq!['\n'],
        diff_line(Change::Insert, line + seq!['\n']) == seq!['+'] + line + seq!['\n'],
        diff_line(Change::Equal, line + seq!['\n']) == seq![' '] + line + seq!['\n'],
        !line.contains('\n') ==> diff_line(Change::Delete, line) == seq!['-'] + line + seq!['\n'] && diff_line(
            Change::Insert,
            line,
        ) == seq!['+'] + line + seq!['\n'],
{
    reveal_strlit("-");
    reveal_strlit("+");
    reveal_strlit(" ");
    reveal_strlit("\n");
    assert("-"@ =~= seq!['-'] && "+"@ =~= seq!['+'] && " "@ =~= seq![' '] && "\n"@ =~= seq!['\n']);
    let ended = line + seq!['\n'];
    assert(ended.skip(ended.len() - 1) =~= seq!['\n']);
    assert(seq!['-'] + ended =~= seq!['-'] + line + seq!['\n']);
    assert(seq!['+'] + ended =~= seq!['+'] + line + seq!['\n']);
    assert(seq![' '] + ended =~= seq![' '] + line + seq!['\n']);
    if !line.contains('\n') && line.len() > 0 {
        assert(line.contains(line.last()));
        assert(line.skip(line.len() - 1)[0] == line.last());
    }
}

/// A difference tells its lines in order.
pub proof fn differences_are_told_in_order(changes: Seq<(Change, Seq<char>)>, n: int)
    requires
        0 < n <= changes.len(),
    ensures
        diff_lines(changes, n) == diff_lines(changes, n - 1) + diff_line(changes[n - 1].0, changes[n - 1].1),
        diff_lines(changes, 0).len() == 0,
{
}

/// A command that found a fault is told with what it printed, both of it where it printed to
/// both.
pub proof fn found_faults_are_told(stdout: Seq<u8>, stderr: Seq<u8>)
    ensures
        ({
            let first = trimmed(lossy_text(stdout));
            let second = trimmed(lossy_text(stderr));
            let f = command_fault(stdout, stderr);
            &&& f.code == "validation_failed"@
            &&& first.len() > 0 && second.len() == 0 ==> f.message == "validation failed: "@ + first
            &&& first.len() == 0 && second.len() > 0 ==> f.message == "validation failed: "@ + second
            &&& first.len() > 0 && second.len() > 0 ==> f.message == "validation failed: "@ + (first + " / "@ + second)
        }),
{
}

} // verus!
