use sentinelx::json::{field, flag_field, into_object, text_field, Object};
use sentinelx::script::{
    build_command, safe_filename, script_plan, script_result, staging_failure, start_failure, workdir_name, ScriptEnd,
};
use sentinelx::staging::StagingFault;
use sentinelx::wire::{read_json, write_json};

fn object(text: &str) -> Object {
    into_object(read_json(text.as_bytes()).unwrap())
}

fn texts(list: &[&str]) -> Vec<String> {
    list.iter().map(|t| (*t).to_owned()).collect()
}

#[test]
fn bash_script_captures_output_and_exit_code() {
    let plan = script_plan(&object(r#"{"interpreter":"bash","content":"echo hi; exit 7"}"#)).ok().unwrap();
    let (argv, _) = build_command(&plan.interpreter, "/t/s.sh", &plan.args, plan.sudo, None);
    let end = ScriptEnd::Exited { code: Some(7), stdout: b"hi\n".to_vec(), stderr: Vec::new() };
    let result = script_result(&plan, &argv, &end, "0.01", "/t/s.sh", "/t");
    assert_eq!(write_json(field(&result, "returncode").unwrap()), "7");
    assert!(text_field(&result, "output").unwrap().contains("hi"));
}

#[test]
fn timed_out_scripts_say_so() {
    let plan = script_plan(&object(r#"{"interpreter":"bash","content":"sleep 10"}"#)).ok().unwrap();
    let result = script_result(&plan, &texts(&["bash"]), &ScriptEnd::TimedOut, "1.0", "/t/s", "/t");
    assert_eq!(flag_field(&result, "timed_out"), Some(true));
}

#[test]
fn script_names_are_plain() {
    assert_eq!(safe_filename(Some("run.sh"), "sh"), "run.sh");
    assert!(!safe_filename(Some("../../x"), "sh").contains('/'));
    assert!(safe_filename(None, "py").ends_with("py"));
    assert_ne!(workdir_name(1), workdir_name(2));
}

#[test]
fn arguments_come_behind_the_script() {
    let (argv, _) = build_command("bash", "/t/s.sh", &texts(&["a", "b c"]), false, None);
    assert_eq!(&argv[argv.len() - 3..], &["/t/s.sh", "a", "b c"]);
    let (argv, _) = build_command("bash", "/t/s.sh", &texts(&[]), true, Some("/srv"));
    assert_eq!(argv[0], "sudo");
}

#[test]
fn staging_failures_have_their_codes() {
    let code = |kind| staging_failure(kind, "e").code;
    assert_eq!(code(StagingFault::NoSpace), "no_space");
    assert_eq!(code(StagingFault::PermissionDenied), "permission_denied");
    assert_eq!(code(StagingFault::ReadOnly), "read_only_filesystem");
    assert_eq!(code(StagingFault::Other), "staging_failed");
    assert_ne!(start_failure(true, "e").code, start_failure(false, "e").code);
}

#[test]
fn scripts_need_a_known_interpreter_and_content() {
    assert!(script_plan(&object(r#"{"content":"x","interpreter":"nope"}"#)).is_err());
    assert!(script_plan(&object(r#"{"interpreter":"bash"}"#)).is_err());
}
