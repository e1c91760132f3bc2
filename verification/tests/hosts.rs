use sentinelx::host::{
    cpu_model, distro, gather_host_info, hostname, kernel, loadavg, machine_type, mem_total_bytes, uptime_seconds, HostFiles,
    MachineFacts,
};
use sentinelx::identity::{identity_from, validate_token, Identity, IdentityError, RawIdentity};
use sentinelx::json::{field, into_object, Json};
use sentinelx::preflight::{Contact, PreflightResult};
use sentinelx::wire::read_json;

fn json(text: &str) -> Json {
    read_json(text.as_bytes()).unwrap()
}

fn no_facts() -> MachineFacts {
    MachineFacts {
        osrelease: None,
        version: None,
        dockerenv: false,
        cgroup: None,
        product_name: None,
        sys_vendor: None,
        cpuinfo: None,
    }
}

fn raw_identity(text: &str) -> RawIdentity {
    let o = into_object(json(text));
    let take = |key: &str| field(&o, key).map(sentinelx::json::copy);
    RawIdentity { host_id: take("host_id"), token: take("token"), hub: take("hub") }
}

fn identity(text: &str) -> Result<Identity, IdentityError> {
    identity_from(raw_identity(text), "/etc/identity.json")
}

#[test]
fn host_info_has_required_identity_fields() {
    let files = HostFiles {
        hostname: Some("box\n".to_owned()),
        hostname_variable: None,
        os_release: Some("NAME=x\nPRETTY_NAME=\"Debian 12\"\n".to_owned()),
        arch: "x86_64".to_owned(),
        cores: Some(8),
        meminfo: Some("MemTotal:  16 kB\n".to_owned()),
        machine: MachineFacts { osrelease: Some("6.1.0\n".to_owned()), ..no_facts() },
    };
    let host = gather_host_info("fixture".to_owned(), None, &files);
    assert_eq!(host.id, "fixture");
    assert!(!host.hostname.is_empty());
    assert!(!host.os.is_empty());
    assert_eq!(host.hostname, "box");
    assert_eq!(host.os, "Debian 12");
    assert_eq!(host.kernel.as_deref(), Some("6.1.0"));
    assert_eq!(host.cpu_cores, Some(8));
    assert_eq!(host.mem_total_bytes, Some(16_384));
    assert_eq!(host.machine_type.as_deref(), Some("physical"));
    assert_eq!(host.disk_total_bytes, None);
}

#[test]
fn uptime_and_loadavg_are_sane_on_linux_ci() {
    assert_eq!(uptime_seconds(Some("35.10 60.00\n")).as_deref(), Some("35.1"));
    let of = |text: &str| Some(text.to_owned());
    assert_eq!(loadavg(Some("0.50 1 2e1 1/2 99\n")), Some((of("0.5"), of("1.0"), of("20.0"))));
    assert_eq!(loadavg(Some("0.50 inf nan")), Some((of("0.5"), None, None)));
    assert_eq!(loadavg(Some("0.50 1 x")), None);
    assert_eq!(uptime_seconds(Some("soon")), None);
    assert_eq!(loadavg(Some("0.5 1")), None);
    assert_eq!(loadavg(None), None);
}

#[test]
fn names_fall_back_one_after_the_other() {
    assert_eq!(hostname(Some("a\n"), Some("b")), "a");
    assert_eq!(hostname(Some(" \n"), Some("b")), "b");
    assert_eq!(hostname(None, None), "unknown");
    assert_eq!(kernel(Some(" 6.1 \n")).as_deref(), Some("6.1"));
    assert_eq!(kernel(Some("\n")), None);
    assert_eq!(distro(Some("PRETTY_NAME=\"\"\nPRETTY_NAME=Arch\n")).as_deref(), Some("Arch"));
    assert_eq!(cpu_model(Some("processor : 0\nModel Name\t:  Fast \n")).as_deref(), Some("Fast"));
    assert_eq!(mem_total_bytes(Some("MemTotal: x kB\nMemTotal: 2 kB\n")), Some(2048));
    assert_eq!(mem_total_bytes(Some("MemTotal: 18446744073709551615 kB\n")), None);
}

#[test]
fn machines_are_told_apart() {
    let of = |facts: MachineFacts| machine_type(&facts).unwrap();
    assert_eq!(of(no_facts()), "physical");
    assert_eq!(of(MachineFacts { osrelease: Some("5.15-Microsoft".to_owned()), ..no_facts() }), "wsl");
    assert_eq!(of(MachineFacts { dockerenv: true, ..no_facts() }), "container");
    assert_eq!(of(MachineFacts { cgroup: Some("0::/KubePods/x".to_owned()), ..no_facts() }), "container");
    assert_eq!(of(MachineFacts { sys_vendor: Some("QEMU".to_owned()), ..no_facts() }), "vm");
    assert_eq!(of(MachineFacts { cpuinfo: Some("flags : hypervisor".to_owned()), ..no_facts() }), "vm");
}

#[test]
fn valid_identity_trims_scalar_fields() {
    let identity =
        identity(r#"{"host_id":" host_1 ","token":" aaa.bbb.ccc \n","hub":" https://hub.example "}"#).ok().unwrap();
    assert_eq!(identity.host_id, "host_1");
    assert_eq!(identity.hub, "https://hub.example");
    assert_eq!(identity.token.redacted(), "[redacted]");
    assert_eq!(identity.token.bearer_header(), Ok("Bearer aaa.bbb.ccc".to_owned()));
}

#[test]
fn malformed_tokens_fail_before_network_use() {
    for token in ["", "one.two", "one..three", "one two.three.four", "ą.b.c"] {
        let text = format!(r#"{{"host_id":"h","token":"{token}","hub":"https://hub"}}"#);
        assert!(identity(&text).is_err(), "{token:?}");
    }
}

#[test]
fn each_bad_token_has_its_own_error() {
    let of = |token: &str| validate_token(token, "/p").err().unwrap();
    assert!(matches!(of("  "), IdentityError::EmptyToken { .. }));
    assert!(matches!(of("ą.b.c"), IdentityError::NonAsciiToken { .. }));
    assert!(matches!(of("a b.c.d"), IdentityError::WhitespaceToken { .. }));
    assert!(matches!(of("a.b"), IdentityError::MalformedToken { .. }));
    assert_eq!(validate_token(" a.b.c ", "/p").ok().as_deref(), Some("a.b.c"));
}

#[test]
fn missing_required_field_is_explicit() {
    assert!(matches!(identity(r#"{"host_id":"h","token":"a.b.c"}"#), Err(IdentityError::MissingField("hub"))));
    assert!(matches!(identity(r#"{"token":"a.b.c","hub":"h"}"#), Err(IdentityError::MissingField("host_id"))));
}

#[test]
fn numbers_stand_for_their_text() {
    let identity = identity(r#"{"host_id":7,"token":"a.b.c","hub":"h"}"#).ok().unwrap();
    assert_eq!(identity.host_id, "7");
}

#[test]
fn silence_is_acceptance_and_anything_else_is_not() {
    let of = |contact| {
        let r = PreflightResult::of(contact);
        (r.ok, r.reason, r.detail)
    };
    let failed = |reason: &str, detail: &str| (false, reason.to_owned(), detail.to_owned());
    assert_eq!(of(Contact::Silence), (true, "accepted".to_owned(), String::new()));
    assert_eq!(of(Contact::InvalidUrl("u".to_owned())), failed("invalid_hub_url", "u"));
    assert_eq!(of(Contact::InvalidToken("t".to_owned())), failed("invalid_token_header", "t"));
    assert_eq!(of(Contact::ConnectTimedOut), failed("unreachable", "connection timed out"));
    assert_eq!(of(Contact::Unreachable("e".to_owned())), failed("unreachable", "e"));
    assert_eq!(of(Contact::Status("401 Unauthorized".to_owned())), failed("rejected_by_hub", "HTTP 401 Unauthorized"));
    assert_eq!(of(Contact::Failed("e".to_owned())), failed("error", "e"));
    assert_eq!(of(Contact::Ended), failed("closed", "hub closed before hello"));
    assert_eq!(of(Contact::Broken("e".to_owned())), failed("closed", "e"));
    assert_eq!(
        of(Contact::Text(Some(json(r#"{"code":"enrollment_rejected","message":"no"}"#)))),
        failed("enrollment_rejected", "no")
    );
    assert_eq!(of(Contact::Text(Some(json("{}")))), failed("rejected", ""));
    assert_eq!(of(Contact::Text(None)), failed("rejected", "hub sent data before hello"));
    assert_eq!(of(Contact::Close(Some((4401, "bad token".to_owned())))), failed("closed", "4401: bad token"));
    assert_eq!(of(Contact::Close(None)), failed("closed", ""));
    assert_eq!(of(Contact::Other), failed("rejected", "hub sent data before hello"));
}
