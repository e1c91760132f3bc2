//! Running scripts: what a request asks for, the command that runs it, and what is
//! answered.

use crate::digits::{decimal, decimal_text, padded, padded_text};
use crate::handler_error::{fault, require_str, required_text, Fault, HandlerError};
use crate::jobs::BACKGROUND_TIMEOUT_MAX_SECS;
use crate::json::{
    as_count, as_flag, as_text, copy_object, count_field, field, fields, flag_field, get, group_json_views, integer,
    integer_num, lemma_get_put, lemma_views_known, no_fields, no_object, set_field, string, strings, text_field,
    text_list, text_or_null, trees, Entries, Fields, Json, Num, Number, Object, Tree,
};
use crate::paths::{file_name, file_name_of};
use crate::shell::{merged, merged_text};
use crate::staging::StagingFault;
use crate::text::{among, cat2, cat5, opt_view, prefixed, same, starts_with, str_views, views};
use vstd::prelude::*;

verus! {

pub const TIMEOUT_MIN: u64 = 1;

pub const TIMEOUT_MAX: u64 = 600;

/// The command that enters a directory and runs what follows.
pub const ENTER: &'static str = "cd \"$1\" || { echo \"sentinelx: cannot enter $1\" >&2; exit 126; }; shift; exec \"$@\"";

pub open spec fn interpreters() -> Seq<Seq<char>> {
    seq!["bash"@, "python3"@, "powershell"@, "pwsh"@]
}

/// The extension of a script's file.
pub open spec fn extension_for(interpreter: Seq<char>) -> Seq<char> {
    if interpreter == "bash"@ {
        "sh"@
    } else if interpreter == "python3"@ {
        "py"@
    } else if interpreter == "powershell"@ || interpreter == "pwsh"@ {
        "ps1"@
    } else {
        "txt"@
    }
}

/// The name of a script's file: the given one without its directories, unless it
/// is hidden.
pub open spec fn script_name(given: Option<Seq<char>>, extension: Seq<char>) -> Seq<char> {
    let default = "script."@ + extension;
    match given {
        Some(s) => match file_name(s) {
            Some(n) => if prefixed(n, "."@) {
                default
            } else {
                n
            },
            None => default,
        },
        None => default,
    }
}

/// The name of a script's file.
pub fn safe_filename(given: Option<&str>, extension: &str) -> (r: String)
    ensures
        r@ == script_name(
            match given {
                Some(s) => Some(s@),
                None => None,
            },
            extension@,
        ),
{
    match given {
        Some(s) => match file_name_of(s) {
            Some(n) => if starts_with(&n, ".") {
                cat2("script.", extension)
            } else {
                n
            },
            None => cat2("script.", extension),
        },
        None => cat2("script.", extension),
    }
}

pub open spec fn is_text(t: Tree) -> bool {
    t is Text
}

/// The arguments of a script.
pub open spec fn args_of(payload: Fields) -> Result<Seq<Seq<char>>, Fault> {
    match get(payload, "args"@) {
        None | Some(Tree::Null) => Ok(Seq::empty()),
        Some(Tree::Array(items)) => if forall|i: int| 0 <= i < items.len() ==> is_text(#[trigger] items[i]) {
            Ok(Seq::new(items.len(), |i: int| items[i]->Text_0))
        } else {
            Err(fault("invalid_payload"@, "'args' must be a list of strings"@))
        },
        _ => Err(fault("invalid_payload"@, "'args' must be a list of strings"@)),
    }
}

fn read_args(payload: &Object) -> (r: Result<Vec<String>, HandlerError>)
    ensures
        (match r {
            Ok(v) => Ok(views(v@)),
            Err(e) => Err(e@),
        }) == args_of(fields(payload@)),
{
    broadcast use group_json_views;

    let items = match field(payload, "args") {
        None | Some(Json::Null) => {
            let none: Vec<String> = Vec::new();
            assert(views(none@) =~= Seq::empty());
            return Ok(none);
        },
        Some(Json::Array(items)) => items,
        Some(_) => return Err(HandlerError::new("invalid_payload", "'args' must be a list of strings")),
    };
    let ghost all = trees(items@);
    let mut out: Vec<String> = Vec::new();
    let mut i: usize = 0;
    while i < items.len()
        invariant
            i <= items@.len(),
            all == trees(items@),
            get(fields(payload@), "args"@) == Some(Tree::Array(all)),
            out@.len() == i,
            forall|j: int| 0 <= j < i ==> is_text(#[trigger] all[j]) && out@[j]@ == all[j]->Text_0,
        decreases items@.len() - i,
    {
        proof {
            lemma_views_known(items@[i as int]);
        }
        assert(all[i as int] == items@[i as int]@);
        match &items[i] {
            Json::Text(s) => {
                out.push(s.clone());
            },
            _ => {
                assert(!is_text(all[i as int]));
                return Err(HandlerError::new("invalid_payload", "'args' must be a list of strings"));
            },
        }
        i = i + 1;
    }
    assert(views(out@) =~= Seq::new(all.len(), |i: int| all[i]->Text_0));
    Ok(out)
}

/// The variables of a script.
pub open spec fn env_of(payload: Fields) -> Result<Fields, Fault> {
    match get(payload, "env"@) {
        None | Some(Tree::Null) => Ok(no_fields()),
        Some(Tree::Object(o)) => if forall|i: int| 0 <= i < o.len() ==> is_text((#[trigger] o[i]).1) {
            Ok(o)
        } else {
            Err(fault("invalid_payload"@, "'env' must be dict[str, str]"@))
        },
        _ => Err(fault("invalid_payload"@, "'env' must be dict[str, str]"@)),
    }
}

fn read_env(payload: &Object) -> (r: Result<Object, HandlerError>)
    ensures
        (match r {
            Ok(o) => Ok(fields(o@)),
            Err(e) => Err(e@),
        }) == env_of(fields(payload@)),
{
    broadcast use group_json_views;

    let o = match field(payload, "env") {
        None | Some(Json::Null) => return Ok(no_object()),
        Some(Json::Object(o)) => o,
        Some(_) => return Err(HandlerError::new("invalid_payload", "'env' must be dict[str, str]")),
    };
    let ghost all = fields(o@);
    let mut i: usize = 0;
    while i < o.len()
        invariant
            i <= o@.len(),
            all == fields(o@),
            get(fields(payload@), "env"@) == Some(Tree::Object(all)),
            forall|j: int| 0 <= j < i ==> is_text((#[trigger] all[j]).1),
        decreases o@.len() - i,
    {
        proof {
            lemma_views_known(o@[i as int].1);
        }
        assert(all[i as int].1 == o@[i as int].1@);
        match &o[i].1 {
            Json::Text(_) => {},
            _ => {
                assert(!is_text(all[i as int].1));
                return Err(HandlerError::new("invalid_payload", "'env' must be dict[str, str]"));
            },
        }
        i = i + 1;
    }
    assert(all.len() == o@.len());
    Ok(copy_object(o))
}

/// A script that a request asks for.
pub struct ScriptPlan {
    pub interpreter: String,
    pub content: String,
    pub args: Vec<String>,
    pub env: Object,
    pub timeout: u64,
    pub sudo: bool,
    pub cleanup: bool,
    pub cwd: Option<String>,
    pub filename: String,
}

/// What a `ScriptPlan` says.
pub struct Script {
    pub interpreter: Seq<char>,
    pub content: Seq<char>,
    pub args: Seq<Seq<char>>,
    pub env: Fields,
    pub timeout: u64,
    pub sudo: bool,
    pub cleanup: bool,
    pub cwd: Option<Seq<char>>,
    pub filename: Seq<char>,
}

impl View for ScriptPlan {
    type V = Script;

    open spec fn view(&self) -> Script {
        Script {
            interpreter: self.interpreter@,
            content: self.content@,
            args: views(self.args@),
            env: fields(self.env@),
            timeout: self.timeout,
            sudo: self.sudo,
            cleanup: self.cleanup,
            cwd: opt_view(self.cwd),
            filename: self.filename@,
        }
    }
}

/// The longest time that a script may take, in seconds.
pub open spec fn longest(payload: Fields) -> u64 {
    if as_flag(get(payload, "background"@)) == Some(true) {
        BACKGROUND_TIMEOUT_MAX_SECS
    } else {
        TIMEOUT_MAX
    }
}

/// The time that a script may take, in seconds.
pub open spec fn timeout_of(payload: Fields) -> Result<u64, Fault> {
    let n = match as_count(get(payload, "timeout"@)) {
        Some(n) => n,
        None => 60u64,
    };
    if TIMEOUT_MIN <= n <= longest(payload) {
        Ok(n)
    } else {
        Err(
            fault(
                "invalid_payload"@,
                "timeout must be between "@ + decimal(TIMEOUT_MIN as nat) + " and "@ + decimal(longest(payload) as nat)
                    + " seconds"@,
            ),
        )
    }
}

/// The script that a payload asks for.
pub open spec fn script_of(payload: Fields) -> Result<Script, Fault> {
    match required_text(payload, "interpreter"@) {
        Err(f) => Err(f),
        Ok(interpreter) => if !interpreters().contains(interpreter) {
            Err(
                fault("invalid_payload"@, "interpreter must be one of: bash, python3, powershell, pwsh"@),
            )
        } else {
            match required_text(payload, "content"@) {
                Err(f) => Err(f),
                Ok(content) => match args_of(payload) {
                    Err(f) => Err(f),
                    Ok(args) => match env_of(payload) {
                        Err(f) => Err(f),
                        Ok(env) => match timeout_of(payload) {
                            Err(f) => Err(f),
                            Ok(timeout) => Ok(
                                Script {
                                    interpreter,
                                    content,
                                    args,
                                    env,
                                    timeout,
                                    sudo: as_flag(get(payload, "sudo"@)) == Some(true),
                                    cleanup: as_flag(get(payload, "cleanup"@)) != Some(false),
                                    cwd: as_text(get(payload, "cwd"@)),
                                    filename: script_name(
                                        as_text(get(payload, "filename"@)),
                                        extension_for(interpreter),
                                    ),
                                },
                            ),
                        },
                    },
                },
            }
        },
    }
}

fn extension_text(interpreter: &str) -> (r: &'static str)
    ensures
        r@ == extension_for(interpreter@),
{
    if same(interpreter, "bash") {
        "sh"
    } else if same(interpreter, "python3") {
        "py"
    } else if same(interpreter, "powershell") || same(interpreter, "pwsh") {
        "ps1"
    } else {
        "txt"
    }
}

fn read_timeout(payload: &Object) -> (r: Result<u64, HandlerError>)
    ensures
        (match r {
            Ok(n) => Ok(n),
            Err(e) => Err(e@),
        }) == timeout_of(fields(payload@)),
{
    let top = match flag_field(payload, "background") {
        Some(true) => BACKGROUND_TIMEOUT_MAX_SECS,
        _ => TIMEOUT_MAX,
    };
    let n = match count_field(payload, "timeout") {
        Some(n) => n,
        None => 60,
    };
    if TIMEOUT_MIN <= n && n <= top {
        Ok(n)
    } else {
        Err(
            HandlerError::new(
                "invalid_payload",
                &cat5(
                    "timeout must be between ",
                    &decimal_text(TIMEOUT_MIN),
                    " and ",
                    &decimal_text(top),
                    " seconds",
                ),
            ),
        )
    }
}

/// The script that a request asks for.
pub fn script_plan(payload: &Object) -> (r: Result<ScriptPlan, HandlerError>)
    ensures
        (match r {
            Ok(p) => Ok(p@),
            Err(e) => Err(e@),
        }) == script_of(fields(payload@)),
{
    let interpreter = match require_str(payload, "interpreter") {
        Ok(s) => s,
        Err(e) => return Err(e),
    };
    let names: Vec<&'static str> = vec!["bash", "python3", "powershell", "pwsh"];
    assert(str_views(names@) =~= interpreters());
    if !among(interpreter, &names) {
        return Err(
            HandlerError::new("invalid_payload", "interpreter must be one of: bash, python3, powershell, pwsh"),
        );
    }
    let content = match require_str(payload, "content") {
        Ok(s) => s,
        Err(e) => return Err(e),
    };
    let args = match read_args(payload) {
        Ok(v) => v,
        Err(e) => return Err(e),
    };
    let env = match read_env(payload) {
        Ok(o) => o,
        Err(e) => return Err(e),
    };
    let timeout = match read_timeout(payload) {
        Ok(n) => n,
        Err(e) => return Err(e),
    };
    let sudo = match flag_field(payload, "sudo") {
        Some(b) => b,
        None => false,
    };
    let cleanup = match flag_field(payload, "cleanup") {
        Some(b) => b,
        None => true,
    };
    let cwd = match text_field(payload, "cwd") {
        Some(s) => Some(s.to_owned()),
        None => None,
    };
    let filename = safe_filename(text_field(payload, "filename"), extension_text(interpreter));
    Ok(
        ScriptPlan {
            interpreter: interpreter.to_owned(),
            content: content.to_owned(),
            args,
            env,
            timeout,
            sudo,
            cleanup,
            cwd,
            filename,
        },
    )
}

/// The directory of a script.
pub fn workdir_name(random: u64) -> (r: String)
    ensures
        r@ == "script_job_"@ + padded(random as nat, 16, 16),
{
    cat2("script_job_", &padded_text(random, 16, 16))
}

/// How it is told that a script cannot be written.
pub fn staging_failure(kind: StagingFault, message: &str) -> (r: HandlerError)
    ensures
        r@ == fault(
            match kind {
                StagingFault::NoSpace => "no_space"@,
                StagingFault::PermissionDenied => "permission_denied"@,
                StagingFault::ReadOnly => "read_only_filesystem"@,
                StagingFault::Other => "staging_failed"@,
            },
            message@,
        ),
{
    let code = match kind {
        StagingFault::NoSpace => "no_space",
        StagingFault::PermissionDenied => "permission_denied",
        StagingFault::ReadOnly => "read_only_filesystem",
        StagingFault::Other => "staging_failed",
    };
    HandlerError::new(code, message)
}

/// A script that could not be started.
pub fn start_failure(missing: bool, error: &str) -> (r: HandlerError)
    ensures
        r@ == fault(
            if missing {
                "interpreter_missing"@
            } else {
                "io_error"@
            },
            "failed starting script: "@ + error@,
        ),
{
    let code = if missing {
        "interpreter_missing"
    } else {
        "io_error"
    };
    HandlerError::new(code, &cat2("failed starting script: ", error))
}

/// The command of an interpreter for a script.
pub open spec fn interpreter_command(interpreter: Seq<char>, script: Seq<char>) -> Seq<Seq<char>> {
    if interpreter == "bash"@ || interpreter == "python3"@ {
        seq![interpreter, script]
    } else if interpreter == "pwsh"@ || interpreter == "powershell"@ {
        seq![interpreter, "-NoProfile"@, "-NonInteractive"@, "-File"@, script]
    } else {
        Seq::empty()
    }
}

/// The command that runs a script, and the directory in which it is started. With
/// other privileges, the command itself enters the directory.
pub open spec fn command_of(
    interpreter: Seq<char>,
    script: Seq<char>,
    args: Seq<Seq<char>>,
    sudo: bool,
    cwd: Option<Seq<char>>,
) -> (Seq<Seq<char>>, Option<Seq<char>>) {
    let inner = interpreter_command(interpreter, script) + args;
    if !sudo {
        (inner, cwd)
    } else {
        match cwd {
            Some(dir) => (seq!["sudo"@, "sh"@, "-c"@, ENTER@, "sh"@, dir] + inner, None),
            None => (seq!["sudo"@] + inner, None),
        }
    }
}

fn interpreter_argv(interpreter: &str, script: &str) -> (r: Vec<String>)
    ensures
        views(r@) == interpreter_command(interpreter@, script@),
{
    if same(interpreter, "bash") || same(interpreter, "python3") {
        let argv: Vec<String> = vec![interpreter.to_owned(), script.to_owned()];
        assert(views(argv@) =~= interpreter_command(interpreter@, script@));
        argv
    } else if same(interpreter, "pwsh") || same(interpreter, "powershell") {
        let argv: Vec<String> = vec![
            interpreter.to_owned(),
            "-NoProfile".to_owned(),
            "-NonInteractive".to_owned(),
            "-File".to_owned(),
            script.to_owned(),
        ];
        assert(views(argv@) =~= interpreter_command(interpreter@, script@));
        argv
    } else {
        let argv: Vec<String> = Vec::new();
        assert(views(argv@) =~= interpreter_command(interpreter@, script@));
        argv
    }
}

fn extend(list: Vec<String>, more: &Vec<String>) -> (r: Vec<String>)
    ensures
        views(r@) == views(list@) + views(more@),
{
    let mut out = list;
    let ghost first = views(list@);
    let mut i: usize = 0;
    assert(views(more@).take(0) =~= Seq::empty());
    assert(views(out@) =~= first + views(more@).take(0));
    while i < more.len()
        invariant
            i <= more@.len(),
            views(out@) == first + views(more@).take(i as int),
        decreases more@.len() - i,
    {
        let ghost before = views(out@);
        out.push(more[i].clone());
        assert(views(out@) =~= before.push(more@[i as int]@));
        assert(views(more@).take(i + 1) =~= views(more@).take(i as int).push(more@[i as int]@));
        assert(views(out@) =~= first + views(more@).take(i + 1));
        i = i + 1;
    }
    assert(views(more@).take(i as int) =~= views(more@));
    out
}

/// The command that runs a script, and the directory in which it is started.
pub fn build_command(interpreter: &str, script: &str, args: &Vec<String>, sudo: bool, cwd: Option<&str>) -> (r: (
    Vec<String>,
    Option<String>,
))
    ensures
        ({
            let expected = command_of(
                interpreter@,
                script@,
                views(args@),
                sudo,
                match cwd {
                    Some(s) => Some(s@),
                    None => None,
                },
            );
            views(r.0@) == expected.0 && opt_view(r.1) == expected.1
        }),
{
    let inner = extend(interpreter_argv(interpreter, script), args);
    if !sudo {
        let dir = match cwd {
            Some(s) => Some(s.to_owned()),
            None => None,
        };
        return (inner, dir);
    }
    match cwd {
        Some(dir) => {
            let head: Vec<String> = vec![
                "sudo".to_owned(),
                "sh".to_owned(),
                "-c".to_owned(),
                ENTER.to_owned(),
                "sh".to_owned(),
                dir.to_owned(),
            ];
            assert(views(head@) =~= seq!["sudo"@, "sh"@, "-c"@, ENTER@, "sh"@, dir@]);
            (extend(head, &inner), None)
        },
        None => {
            let head: Vec<String> = vec!["sudo".to_owned()];
            assert(views(head@) =~= seq!["sudo"@]);
            (extend(head, &inner), None)
        },
    }
}

/// How a script ended.
pub enum ScriptEnd {
    Exited { code: Option<i32>, stdout: Vec<u8>, stderr: Vec<u8> },
    TimedOut,
}

/// What is answered to a script.
pub open spec fn script_fields(
    p: Script,
    command: Seq<Seq<char>>,
    end: ScriptEnd,
    duration: Seq<char>,
    script_path: Seq<char>,
    workdir: Seq<char>,
) -> Fields {
    let (output, returncode) = match end {
        ScriptEnd::Exited { code, stdout, stderr } => (
            merged(stdout@, stderr@),
            match code {
                Some(c) => c as i64,
                None => -1i64,
            },
        ),
        ScriptEnd::TimedOut => ("⏱️ Timeout"@, -1i64),
    };
    let o = no_fields().with("ok"@, Tree::Bool(returncode == 0)).with("interpreter"@, Tree::Text(p.interpreter)).with(
        "sudo"@,
        Tree::Bool(p.sudo),
    ).with("cwd"@, text_or_null(p.cwd)).with("cleanup"@, Tree::Bool(p.cleanup)).with("command"@, text_list(command)).with(
        "output"@,
        Tree::Text(output),
    ).with("duration"@, Tree::Number(Num::Float(duration))).with("returncode"@, Tree::Number(integer_num(returncode)));
    let o = if end is TimedOut {
        o.with("timed_out"@, Tree::Bool(true))
    } else {
        o
    };
    if p.cleanup {
        o
    } else {
        o.with("script_path"@, Tree::Text(script_path)).with("workdir"@, Tree::Text(workdir))
    }
}

/// What is answered to a script. `duration` is the time that it took, in seconds.
pub fn script_result(
    p: &ScriptPlan,
    command: &Vec<String>,
    end: &ScriptEnd,
    duration: &str,
    script_path: &str,
    workdir: &str,
) -> (r: Object)
    ensures
        fields(r@) == script_fields(p@, views(command@), *end, duration@, script_path@, workdir@),
{
    let (output, returncode, late) = match end {
        ScriptEnd::Exited { code, stdout, stderr } => {
            let rc: i64 = match code {
                Some(c) => *c as i64,
                None => -1,
            };
            (merged_text(stdout, stderr), rc, false)
        },
        ScriptEnd::TimedOut => ("⏱️ Timeout".to_owned(), -1, true),
    };
    let cwd = match &p.cwd {
        Some(s) => string(s),
        None => Json::Null,
    };
    let mut o = no_object();
    set_field(&mut o, "ok", Json::Bool(returncode == 0));
    set_field(&mut o, "interpreter", string(&p.interpreter));
    set_field(&mut o, "sudo", Json::Bool(p.sudo));
    set_field(&mut o, "cwd", cwd);
    set_field(&mut o, "cleanup", Json::Bool(p.cleanup));
    set_field(&mut o, "command", strings(command));
    set_field(&mut o, "output", Json::Text(output));
    set_field(&mut o, "duration", Json::Number(Number::Float(duration.to_owned())));
    set_field(&mut o, "returncode", integer(returncode));
    if late {
        set_field(&mut o, "timed_out", Json::Bool(true));
    }
    if !p.cleanup {
        set_field(&mut o, "script_path", string(script_path));
        set_field(&mut o, "workdir", string(workdir));
    }
    o
}

/// A script's arguments come last and unchanged, whatever is put before them.
pub proof fn arguments_come_last(
    interpreter: Seq<char>,
    script: Seq<char>,
    args: Seq<Seq<char>>,
    sudo: bool,
    cwd: Option<Seq<char>>,
)
    ensures
        ({
            let argv = command_of(interpreter, script, args, sudo, cwd).0;
            argv.len() >= args.len() && argv.skip(argv.len() - args.len()) == args
        }),
{
    let argv = command_of(interpreter, script, args, sudo, cwd).0;
    assert(argv.skip(argv.len() - args.len()) =~= args);
}

/// A script is run as it was sent: with its interpreter, its text, its arguments, its
/// environment, its directory, and as long as was asked for.
pub proof fn scripts_are_run_as_sent(payload: Fields)
    ensures
        script_of(payload) matches Ok(p) ==> {
            &&& get(payload, "interpreter"@) == Some(Tree::Text(p.interpreter))
            &&& p.interpreter == "bash"@ || p.interpreter == "python3"@ || p.interpreter == "powershell"@ || p.interpreter
                == "pwsh"@
            &&& get(payload, "content"@) == Some(Tree::Text(p.content))
            &&& get(payload, "args"@) matches Some(Tree::Array(items)) ==> items.len() == p.args.len() && forall|i: int|
                0 <= i < items.len() ==> items[i] == Tree::Text(#[trigger] p.args[i])
            &&& get(payload, "args"@) is None ==> p.args.len() == 0
            &&& get(payload, "env"@) matches Some(Tree::Object(o)) ==> p.env == o
            &&& get(payload, "env"@) is None ==> p.env.len() == 0
            &&& p.sudo <==> get(payload, "sudo"@) == Some(Tree::Bool(true))
            &&& p.cleanup <==> get(payload, "cleanup"@) != Some(Tree::Bool(false))
            &&& get(payload, "cwd"@) matches Some(Tree::Text(d)) ==> p.cwd == Some(d)
            &&& get(payload, "cwd"@) is None ==> p.cwd is None
            &&& get(payload, "timeout"@) matches Some(Tree::Number(Num::Pos(n))) ==> p.timeout == n
            &&& get(payload, "timeout"@) is None ==> p.timeout == 60
            &&& 1 <= p.timeout
            &&& get(payload, "background"@) is None ==> p.timeout <= 600
            &&& p.timeout <= 3600
        },
{
    if let Ok(p) = script_of(payload) {
        let i = choose|i: int| 0 <= i < interpreters().len() && interpreters()[i] == p.interpreter;
        assert(interpreters()[0] == "bash"@ && interpreters()[1] == "python3"@ && interpreters()[2] == "powershell"@
            && interpreters()[3] == "pwsh"@);
    }
}

/// The file of a script keeps the name that was sent, without the directories before it,
/// unless that is hidden; else its name tells the interpreter.
pub proof fn script_files_have_plain_names(given: Seq<char>, name: Seq<char>, extension: Seq<char>)
    ensures
        file_name(given) == Some(name) && name.len() > 0 && name[0] != '.' ==> script_name(Some(given), extension) == name,
        file_name(given) is None ==> script_name(Some(given), extension) == "script."@ + extension,
        file_name(given) == Some(name) && name.len() > 0 && name[0] == '.' ==> script_name(Some(given), extension)
            == "script."@ + extension,
        script_name(None, extension) == "script."@ + extension,
        extension_for("bash"@) == "sh"@,
        extension_for("python3"@) == "py"@,
        extension_for("pwsh"@) == "ps1"@,
        extension_for("powershell"@) == "ps1"@,
{
    reveal_strlit(".");
    assert("."@ =~= seq!['.']);
    if name.len() > 0 {
        assert(name.take(1) =~= seq![name[0]]);
        assert(name.take(1)[0] == name[0] && "."@[0] == '.');
    }
    reveal_strlit("bash");
    reveal_strlit("python3");
    reveal_strlit("pwsh");
    reveal_strlit("powershell");
    assert("bash"@.len() == 4 && "python3"@.len() == 7 && "pwsh"@.len() == 4 && "powershell"@.len() == 10
        && "bash"@[0] == 'b' && "pwsh"@[0] == 'p');
}

/// A script is run by its interpreter with its arguments, in its directory, and with other
/// privileges exactly where that was asked for.
pub proof fn scripts_are_run_by_their_interpreter(
    interpreter: Seq<char>,
    script: Seq<char>,
    args: Seq<Seq<char>>,
    cwd: Option<Seq<char>>,
)
    requires
        interpreter == "bash"@ || interpreter == "python3"@,
    ensures
        command_of(interpreter, script, args, false, cwd) == (seq![interpreter, script] + args, cwd),
        command_of(interpreter, script, args, true, None).0 == seq!["sudo"@, interpreter, script] + args,
        cwd matches Some(dir) ==> {
            let (argv, place) = command_of(interpreter, script, args, true, cwd);
            &&& place is None
            &&& argv[0] == "sudo"@
            &&& argv.contains(dir)
            &&& argv.skip(argv.len() - args.len() - 2) == seq![interpreter, script] + args
        },
{
    let inner = seq![interpreter, script] + args;
    assert(seq!["sudo"@] + inner =~= seq!["sudo"@, interpreter, script] + args);
    if let Some(dir) = cwd {
        let argv = command_of(interpreter, script, args, true, cwd).0;
        assert(argv[5] == dir);
        assert(argv.skip(argv.len() - args.len() - 2) =~= inner);
    }
}

/// The result of a script holds its exit code, and success exactly where that is zero; it
/// names the files of the script where they are kept.
pub proof fn scripts_are_told(
    p: Script,
    command: Seq<Seq<char>>,
    code: i32,
    stdout: Vec<u8>,
    stderr: Vec<u8>,
    duration: Seq<char>,
    script_path: Seq<char>,
    workdir: Seq<char>,
)
    ensures
        ({
            let end = ScriptEnd::Exited { code: Some(code), stdout, stderr };
            let r = script_fields(p, command, end, duration, script_path, workdir);
            &&& get(r, "ok"@) == Some(Tree::Bool(code == 0))
            &&& get(r, "returncode"@) == Some(
                Tree::Number(
                    if code >= 0 {
                        Num::Pos(code as u64)
                    } else {
                        Num::Neg(code as i64)
                    },
                ),
            )
            &&& get(r, "output"@) == get(
                crate::shell::shell_fields(
                    crate::shell::ShellOutcome::Exited { code: Some(code), stdout, stderr },
                    duration,
                ),
                "output"@,
            )
            &&& get(r, "timed_out"@) is None
            &&& get(r, "interpreter"@) == Some(Tree::Text(p.interpreter))
            &&& get(r, "duration"@) == Some(Tree::Number(Num::Float(duration)))
            &&& get(r, "sudo"@) == Some(Tree::Bool(p.sudo))
            &&& get(r, "cleanup"@) == Some(Tree::Bool(p.cleanup))
            &&& !p.cleanup ==> get(r, "script_path"@) == Some(Tree::Text(script_path)) && get(r, "workdir"@) == Some(
                Tree::Text(workdir),
            )
            &&& p.cleanup ==> get(r, "script_path"@) is None && get(r, "workdir"@) is None
        }),
        ({
            let r = script_fields(p, command, ScriptEnd::TimedOut, duration, script_path, workdir);
            &&& get(r, "ok"@) == Some(Tree::Bool(false))
            &&& get(r, "timed_out"@) == Some(Tree::Bool(true))
            &&& get(r, "returncode"@) == Some(Tree::Number(Num::Neg(-1i64)))
        }),
{
    broadcast use lemma_get_put;

    reveal_strlit("ok");
    reveal_strlit("interpreter");
    reveal_strlit("sudo");
    reveal_strlit("cwd");
    reveal_strlit("cleanup");
    reveal_strlit("command");
    reveal_strlit("output");
    reveal_strlit("duration");
    reveal_strlit("returncode");
    reveal_strlit("timed_out");
    reveal_strlit("script_path");
    reveal_strlit("workdir");
    assert("ok"@.len() == 2 && "interpreter"@.len() == 11 && "sudo"@.len() == 4 && "cwd"@.len() == 3
        && "cleanup"@.len() == 7 && "command"@.len() == 7 && "output"@.len() == 6 && "duration"@.len() == 8
        && "returncode"@.len() == 10 && "timed_out"@.len() == 9 && "script_path"@.len() == 11 && "workdir"@.len() == 7
        && "interpreter"@[0] == 'i' && "script_path"@[0] == 's' && "cleanup"@[1] == 'l' && "command"@[1] == 'o'
        && "cleanup"@[0] == 'c' && "workdir"@[0] == 'w' && "command"@[0] == 'c');
}

} // verus!
