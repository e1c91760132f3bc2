//! What a shell command gives.

use crate::json::{
    fields, get, integer, integer_num, lemma_get_put, no_fields, no_object, set_field, string, Entries, Fields, Json,
    Num, Number, Object, Tree,
};
use crate::text::{cat2, cat3, from_utf8_lossy, lossy_text, prefixed, suffixed, trim, trimmed};
use vstd::prelude::*;

verus! {

/// How a command ended.
pub enum ShellOutcome {
    /// It ended, with an exit code where no signal ended it.
    Exited { code: Option<i32>, stdout: Vec<u8>, stderr: Vec<u8> },
    /// It could not be started or waited for.
    Failed(String),
    TimedOut,
}

/// What a command wrote: its two outputs, trimmed, one after the other.
pub open spec fn merged(stdout: Seq<u8>, stderr: Seq<u8>) -> Seq<char> {
    let out = trimmed(lossy_text(stdout));
    let err = trimmed(lossy_text(stderr));
    if out.len() == 0 && err.len() == 0 {
        "⚠️ Sin salida"@
    } else if err.len() == 0 {
        out
    } else if out.len() == 0 {
        err
    } else {
        out + "\n"@ + err
    }
}

/// The result of a command: output, duration, exit code, and whether it ran out of
/// time.
pub open spec fn result_fields(output: Seq<char>, duration: Seq<char>, returncode: i64, timed_out: bool) -> Fields {
    let o = no_fields().with("output"@, Tree::Text(output)).with("duration"@, Tree::Number(Num::Float(duration))).with(
        "returncode"@,
        Tree::Number(integer_num(returncode)),
    );
    if timed_out {
        o.with("timed_out"@, Tree::Bool(true))
    } else {
        o
    }
}

pub open spec fn shell_fields(outcome: ShellOutcome, duration: Seq<char>) -> Fields {
    match outcome {
        ShellOutcome::Exited { code, stdout, stderr } => result_fields(
            merged(stdout@, stderr@),
            duration,
            match code {
                Some(c) => c as i64,
                None => -1i64,
            },
            false,
        ),
        ShellOutcome::Failed(e) => result_fields("❌ Error: "@ + e@, duration, -1i64, false),
        ShellOutcome::TimedOut => result_fields("⏱️ Timeout"@, duration, -1i64, true),
    }
}

fn result(output: &str, duration: &str, returncode: i64, timed_out: bool) -> (r: Object)
    ensures
        fields(r@) == result_fields(output@, duration@, returncode, timed_out),
{
    let mut o = no_object();
    set_field(&mut o, "output", string(output));
    set_field(&mut o, "duration", Json::Number(Number::Float(duration.to_owned())));
    set_field(&mut o, "returncode", integer(returncode));
    if timed_out {
        set_field(&mut o, "timed_out", Json::Bool(true));
    }
    o
}

/// What a command wrote, as one text.
pub fn merged_text(stdout: &Vec<u8>, stderr: &Vec<u8>) -> (r: String)
    ensures
        r@ == merged(stdout@, stderr@),
{
    let out = trim(&from_utf8_lossy(stdout.as_slice()));
    let err = trim(&from_utf8_lossy(stderr.as_slice()));
    if out.as_str().is_empty() && err.as_str().is_empty() {
        "⚠️ Sin salida".to_owned()
    } else if err.as_str().is_empty() {
        out
    } else if out.as_str().is_empty() {
        err
    } else {
        cat3(&out, "\n", &err)
    }
}

/// The result of a command; `duration` is its duration in seconds as a number is
/// printed.
pub fn shell_result(outcome: &ShellOutcome, duration: &str) -> (r: Object)
    ensures
        fields(r@) == shell_fields(*outcome, duration@),
{
    match outcome {
        ShellOutcome::Exited { code, stdout, stderr } => result(
            &merged_text(stdout, stderr),
            duration,
            match code {
                Some(c) => *c as i64,
                None => -1,
            },
            false,
        ),
        ShellOutcome::Failed(e) => result(&cat2("❌ Error: ", e), duration, -1, false),
        ShellOutcome::TimedOut => result("⏱️ Timeout", duration, -1, true),
    }
}

/// The variables in `env` that are texts.
pub open spec fn text_variables(env: Fields) -> Seq<(Seq<char>, Seq<char>)>
    decreases env.len(),
{
    if env.len() == 0 {
        Seq::empty()
    } else {
        match env.last().1 {
            Tree::Text(v) => text_variables(env.drop_last()).push((env.last().0, v)),
            _ => text_variables(env.drop_last()),
        }
    }
}

pub open spec fn pair_views(v: Seq<(String, String)>) -> Seq<(Seq<char>, Seq<char>)> {
    Seq::new(v.len(), |i: int| (v[i].0@, v[i].1@))
}

/// The variables that a command's environment gets.
pub fn shell_env(env: &Object) -> (r: Vec<(String, String)>)
    ensures
        pair_views(r@) == text_variables(fields(env@)),
{
    let mut r: Vec<(String, String)> = Vec::new();
    let ghost all = fields(env@);
    let mut i: usize = 0;
    assert(pair_views(r@) =~= text_variables(all.take(0)));
    while i < env.len()
        invariant
            i <= env@.len(),
            all == fields(env@),
            pair_views(r@) == text_variables(all.take(i as int)),
        decreases env@.len() - i,
    {
        let ghost now = all.take(i + 1);
        assert(now.drop_last() =~= all.take(i as int));
        assert(now.last() == all[i as int]);
        if let Json::Text(v) = &env[i].1 {
            let ghost before = pair_views(r@);
            r.push((env[i].0.clone(), v.clone()));
            assert(pair_views(r@) =~= before.push((env@[i as int].0@, v@)));
        }
        i = i + 1;
    }
    assert(all.take(i as int) =~= all);
    r
}

/// The result of a command that ended holds its exit code, whatever that is, and does
/// not say that it ran out of time.
pub proof fn exit_codes_are_told(code: i32, stdout: Vec<u8>, stderr: Vec<u8>, duration: Seq<char>)
    ensures
        ({
            let r = shell_fields(ShellOutcome::Exited { code: Some(code), stdout, stderr }, duration);
            &&& get(r, "returncode"@) == Some(
                Tree::Number(
                    if code >= 0 {
                        Num::Pos(code as u64)
                    } else {
                        Num::Neg(code as i64)
                    },
                ),
            )
            &&& get(r, "duration"@) == Some(Tree::Number(Num::Float(duration)))
            &&& get(r, "timed_out"@) is None
        }),
{
    broadcast use lemma_get_put;

    reveal_strlit("output");
    reveal_strlit("duration");
    reveal_strlit("returncode");
    reveal_strlit("timed_out");
    assert("output"@.len() == 6 && "duration"@.len() == 8 && "returncode"@.len() == 10 && "timed_out"@.len() == 9);
}

/// Where no exit code is known, the result holds one that no command ends with, and
/// only what ran out of time says so.
pub proof fn missing_exit_codes_are_told(outcome: ShellOutcome, duration: Seq<char>)
    requires
        outcome matches ShellOutcome::Exited { code, .. } ==> code is None,
    ensures
        get(shell_fields(outcome, duration), "returncode"@) == Some(Tree::Number(Num::Neg(-1i64))),
        get(shell_fields(outcome, duration), "timed_out"@) == if outcome is TimedOut {
            Some(Tree::Bool(true))
        } else {
            None
        },
        outcome matches ShellOutcome::Failed(e) ==> (get(shell_fields(outcome, duration), "output"@) matches Some(
            Tree::Text(t),
        ) && suffixed(t, e@)),
{
    broadcast use lemma_get_put;

    reveal_strlit("output");
    reveal_strlit("duration");
    reveal_strlit("returncode");
    reveal_strlit("timed_out");
    assert("output"@.len() == 6 && "duration"@.len() == 8 && "returncode"@.len() == 10 && "timed_out"@.len() == 9);
    if let ShellOutcome::Failed(e) = outcome {
        let t = "❌ Error: "@ + e@;
        assert(t.skip(t.len() - e@.len()) =~= e@);
    }
}

/// What a command writes to either of its outputs, as far as it is text, stands in the
/// result without the white space around it, the standard output first.
pub proof fn outputs_are_told(code: Option<i32>, stdout: Vec<u8>, stderr: Vec<u8>, duration: Seq<char>)
    ensures
        get(shell_fields(ShellOutcome::Exited { code, stdout, stderr }, duration), "output"@) matches Some(Tree::Text(t))
            && {
            let out = trimmed(lossy_text(stdout@));
            let err = trimmed(lossy_text(stderr@));
            &&& prefixed(t, out)
            &&& suffixed(t, err)
            &&& out.len() > 0 && err.len() > 0 ==> t == out.push('\n') + err
            &&& out.len() > 0 && err.len() == 0 ==> t == out
            &&& out.len() == 0 && err.len() > 0 ==> t == err
            &&& t.len() > 0
        },
{
    broadcast use lemma_get_put;

    reveal_strlit("output");
    reveal_strlit("duration");
    reveal_strlit("returncode");
    reveal_strlit("timed_out");
    assert("output"@.len() == 6 && "duration"@.len() == 8 && "returncode"@.len() == 10 && "timed_out"@.len() == 9);
    let out = trimmed(lossy_text(stdout@));
    let err = trimmed(lossy_text(stderr@));
    reveal_strlit("\n");
    reveal_strlit("⚠️ Sin salida");
    let t = merged(stdout@, stderr@);
    assert(t.take(out.len() as int) =~= out);
    assert(t.skip(t.len() - err.len()) =~= err);
    if out.len() > 0 && err.len() > 0 {
        assert(t =~= out.push('\n') + err);
    }
}

/// The environment of a command holds the variables that are texts, each with its
/// value, and no others.
pub proof fn text_variables_are_passed(env: Fields, name: Seq<char>, value: Seq<char>)
    ensures
        text_variables(env).contains((name, value)) <==> env.contains((name, Tree::Text(value))),
    decreases env.len(),
{
    if env.len() > 0 {
        text_variables_are_passed(env.drop_last(), name, value);
        let rest = text_variables(env.drop_last());
        let all = text_variables(env);
        if all.contains((name, value)) {
            let i = choose|i: int| 0 <= i < all.len() && all[i] == (name, value);
            if i < rest.len() {
                assert(rest[i] == all[i]);
                let j = choose|j: int| 0 <= j < env.drop_last().len() && env.drop_last()[j] == (name, Tree::Text(value));
                assert(env[j] == (name, Tree::Text(value)));
            } else {
                assert(env[env.len() - 1] == (name, Tree::Text(value)));
            }
        }
        if env.contains((name, Tree::Text(value))) {
            let j = choose|j: int| 0 <= j < env.len() && env[j] == (name, Tree::Text(value));
            if j < env.len() - 1 {
                assert(env.drop_last()[j] == env[j]);
                let i = choose|i: int| 0 <= i < rest.len() && rest[i] == (name, value);
                assert(all[i] == (name, value));
            } else {
                assert(all[all.len() - 1] == (name, value));
            }
        }
    }
}

} // verus!
