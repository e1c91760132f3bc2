use sentinelx::json::{into_object, Json, Object};
use sentinelx::policy::{
    FileAccess, FileOpsPath, Policy, PolicyError, RawFilePath, RawPolicy, RawService, Resolution, ServiceSpec,
};
use sentinelx::segment::{first_word, has_substitution, split_top_level, unauthorised_segment};
use sentinelx::wire::read_json;

fn seen(candidate: &str, allowed: &[&str]) -> Resolution {
    Resolution {
        candidate: Some(candidate.to_owned()),
        allowed: allowed.iter().map(|a| Some((*a).to_owned())).collect(),
    }
}

fn opened(path: &str, access: FileAccess) -> Policy {
    Policy { file_ops_paths: vec![FileOpsPath { path: path.to_owned(), access }], ..Policy::default() }
}

fn object(text: &str) -> Object {
    into_object(read_json(text.as_bytes()).unwrap())
}

#[test]
fn actual_core_fields_parse_with_official_defaults() {
    let raw = RawPolicy {
        allowed_commands: vec!["git".to_owned(), "sudo systemctl".to_owned()],
        timeout_default: 30,
        timeout_max: 3600,
        services: vec![(
            "nginx".to_owned(),
            RawService { actions: vec!["status".to_owned(), "restart".to_owned()], ..RawService::default() },
        )],
        paths: Some(vec![
            RawFilePath::Detailed { path: "/etc".to_owned(), access: Some("r".to_owned()) },
            RawFilePath::Detailed { path: "/srv/scratch".to_owned(), access: Some("rw".to_owned()) },
        ]),
        trusted_fetch_hosts: vec!["drop.pensa.ar".to_owned()],
        preferred_profile: Some("compact".to_owned()),
        upload_base: Some("/var/lib/sentinelx/uploads".to_owned()),
        ..RawPolicy::default()
    };
    let policy = Policy::from_raw(raw, None).unwrap();
    assert_eq!(policy.exec_timeout_default, 30);
    assert_eq!(policy.exec_timeout_max, 3600);
    assert!(policy.is_command_allowed("git status"));
    assert!(!policy.is_command_allowed("curl example.com"));
    assert!(policy.service_action_allowed("nginx", "restart"));
    assert_eq!(policy.preferred_profile.as_deref(), Some("compact"));
    assert_eq!(policy.file_ops_paths.len(), 2);
    assert_eq!(policy.file_ops_paths[1].access, FileAccess::ReadWrite);
    assert_eq!(policy.services[0].1.unit, "nginx");
}

#[test]
fn an_empty_file_gives_the_defaults() {
    let policy = Policy::from_raw(RawPolicy::default(), None).unwrap();
    assert_eq!(policy.exec_timeout_default, 60);
    assert_eq!(policy.exec_timeout_max, 600);
    assert_eq!(policy.upload_base, "/var/lib/sentinelx/uploads");
    assert_eq!(policy.file_url_timeout_seconds, 15);
    assert_eq!(policy.file_ops_max_read_bytes, 65_536);
    assert_eq!(policy.file_ops_max_list_entries, 1_000);
    assert_eq!(policy.file_ops_max_search_results, 200);
    assert!(!policy.exec_strict);
    assert!(policy.file_ops_paths.is_empty());
}

#[test]
fn known_typo_fails_loudly() {
    let raw = RawPolicy { unknown: vec!["allow".to_owned()], ..RawPolicy::default() };
    assert!(matches!(Policy::from_raw(raw, None), Err(PolicyError::KnownTypo { .. })));
    let other = RawPolicy { unknown: vec!["something_else".to_owned()], ..RawPolicy::default() };
    assert!(Policy::from_raw(other, None).is_ok());
}

#[test]
fn legacy_read_paths_stay_read_only() {
    let raw = RawPolicy { allowed_read_paths: Some(vec!["/tmp".to_owned()]), ..RawPolicy::default() };
    let policy = Policy::from_raw(raw, None).unwrap();
    assert_eq!(policy.file_ops_paths[0].access, FileAccess::Read);
}

#[test]
fn path_prefix_check_has_component_boundary() {
    let policy = opened("/d/allowed", FileAccess::ReadWrite);
    assert!(policy.resolve_path("/d/allowed/x", true, &seen("/d/allowed/x", &["/d/allowed"])).is_some());
    assert!(policy.resolve_path("/d/allowed-not", false, &seen("/d/allowed-not", &["/d/allowed"])).is_none());
}

#[test]
fn symlink_escape_is_resolved_before_allowlist_check() {
    let policy = opened("/d/allowed", FileAccess::ReadWrite);
    let escaped = seen("/d/outside/new.txt", &["/d/allowed"]);
    assert!(policy.resolve_path("/d/allowed/escape/new.txt", true, &escaped).is_none());
}

#[test]
fn reading_needs_less_than_writing() {
    let policy = opened("/etc", FileAccess::Read);
    let at = seen("/etc/hosts", &["/etc"]);
    assert_eq!(policy.resolve_path("/etc/hosts", false, &at).as_deref(), Some("/etc/hosts"));
    assert!(policy.resolve_path("/etc/hosts", true, &at).is_none());
    assert!(policy.resolve_path("", false, &at).is_none());
    let nowhere = Resolution { candidate: None, allowed: vec![Some("/etc".to_owned())] };
    assert!(policy.resolve_path("/etc/hosts", false, &nowhere).is_none());
    let unknown = Resolution { candidate: Some("/etc/hosts".to_owned()), allowed: vec![None] };
    assert!(policy.resolve_path("/etc/hosts", false, &unknown).is_none());
}

#[test]
fn summaries_count_what_the_policy_opens() {
    let mut policy = opened("/srv", FileAccess::ReadWrite);
    policy.allowed_commands = vec!["git".to_owned(), "make".to_owned()];
    policy.playbooks = vec![("p".to_owned(), Some(Json::Object(object("{}"))))];
    policy.services = vec![(
        "s".to_owned(),
        ServiceSpec {
            unit: "s.service".to_owned(),
            actions: vec!["status".to_owned()],
            requires_sudo: false,
            description: String::new(),
            domain: "system".to_owned(),
            backend: "service".to_owned(),
        },
    )];
    let summary = policy.config_summary();
    assert_eq!(summary.allowed_command_count, Some(2));
    assert_eq!(summary.file_ops_path_count, Some(1));
    assert_eq!(summary.file_ops_rw_count, Some(1));
    assert_eq!(summary.service_count, Some(1));
    assert_eq!(summary.playbook_count, Some(1));
    assert_eq!(summary.exec_timeout_default, Some(60));
    assert!(!policy.service_action_allowed("s", "restart"));
    assert!(!policy.service_action_allowed("t", "status"));
}

#[test]
fn commands_are_allowed_by_how_they_begin() {
    let policy = Policy {
        allowed_commands: vec!["git".to_owned(), "sudo systemctl".to_owned()],
        ..Policy::default()
    };
    assert!(policy.is_command_allowed("git"));
    assert!(policy.is_command_allowed("  git log"));
    assert!(!policy.is_command_allowed("gi"));
    assert!(!policy.is_command_allowed("   "));
    assert!(policy.is_command_allowed("sudo systemctl status x"));
    assert!(!policy.is_command_allowed("sudo rm -rf /"));
    assert!(!Policy::default().is_command_allowed("ls"));
}

#[test]
fn quoted_separators_are_data_not_structure() {
    assert_eq!(split_top_level("printf ';|&&' && echo done"), vec!["printf ';|&&'", "echo done"]);
}

#[test]
fn substitution_ignores_single_quotes_but_not_double_quotes() {
    assert_eq!(has_substitution("echo '$(id)'"), None);
    assert_eq!(has_substitution("echo \"$(id)\""), Some("$("));
    assert_eq!(has_substitution("echo `id`"), Some("`"));
}

#[test]
fn strict_segments_match_official_concessions() {
    let policy = Policy { allowed_commands: vec!["make".to_owned()], ..Policy::default() };
    assert_eq!(unauthorised_segment(&policy, "cd /tmp && make | head"), None);
    assert_eq!(unauthorised_segment(&policy, "make; curl bad"), Some("curl bad".to_owned()));
}

#[test]
fn segments_end_at_every_separator() {
    assert_eq!(split_top_level("a; b || c | d && e;;"), vec!["a", "b", "c", "d", "e"]);
    assert_eq!(split_top_level("echo a\\;b"), vec!["echo a\\;b"]);
    assert_eq!(first_word("  X=1 make all"), "X=1");
}

#[test]
fn parts_are_not_split_again_and_joined_commands_split_into_both() {
    let commands = ["a; b || c | d && e;;", "printf ';|&&' && echo done", " x | y ", "echo \"a;b\""];
    for command in commands {
        for part in split_top_level(command) {
            assert_eq!(split_top_level(&part), vec![part.clone()]);
        }
    }
    for a in commands {
        for b in commands {
            let mut both = split_top_level(a);
            both.extend(split_top_level(b));
            assert_eq!(split_top_level(&format!("{a};{b}")), both);
        }
    }
}

#[test]
fn odd_configurations_are_remarked_upon() {
    let raw = RawPolicy {
        unknown: vec!["colour".to_owned(), "shape".to_owned()],
        paths: Some(vec![
            RawFilePath::Path(" ".to_owned()),
            RawFilePath::Path("/w".to_owned()),
            RawFilePath::Detailed { path: String::new(), access: Some("rw".to_owned()) },
        ]),
        allowed_read_paths: Some(vec!["/r".to_owned()]),
        preferred_profile: Some("tiny".to_owned()),
        ..RawPolicy::default()
    };
    assert_eq!(
        raw.remarks(),
        vec![
            "policy contains unknown top-level keys: colour, shape",
            "file_ops has both paths and allowed_read_paths; using paths",
            "invalid empty file_ops path entry skipped",
            "invalid empty file_ops path entry skipped",
            "invalid agent.preferred_profile ignored: tiny",
            "policy loaded with no allowed_commands; exec is deny-all",
        ]
    );
    let plain = RawPolicy {
        allowed_commands: vec!["ls".to_owned()],
        paths: Some(Vec::new()),
        allowed_read_paths: Some(Vec::new()),
        preferred_profile: Some("full".to_owned()),
        ..RawPolicy::default()
    };
    assert!(plain.remarks().is_empty());
}
