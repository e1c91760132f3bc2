//! What an agent tells of its policy and its host.

use crate::ascii::lowered;
use crate::dispatch::{capability_names, enabled_names, implemented, lemma_opaque_ref_apart, CoreDispatcher};
use crate::handler_error::{outcome, Fault, HandlerResult};
use crate::json::{
    copy, count, fields, get, group_json_views, has_field, lemma_get_put, lemma_object_view, lemma_position, lemma_slot,
    no_fields, no_object, optional, position, put, set_field, slot, string, strings, text_list, text_or_null, trees,
    Entries, Fields, Json, Num, Object, Tree,
};
use crate::message::{keys_within, lemma_put_keys};
use crate::order::{lemma_less_irreflexive, sort, sorted, strictly_ascending};
use crate::policy::{find_named, named_at, names, writable_count, FileAccess, FileOpsPath, Policy, ServiceSpec};
use crate::progressive_help::{capabilities_detail, detail_of, lemma_no_unknown};
use crate::text::{contained, contains, opt_view, prefixed, same, split_words, starts_with, views, words};
use vstd::prelude::*;

verus! {

pub const AGENT_NAME: &'static str = "sentinelx-cloud-core";

pub const UNUSABLE_DETAIL: &'static str = "This agent runs with NoNewPrivileges set, so sudo can never elevate regardless of sudoers. These entries are in the allowlist but will always fail. Either run the privileged step through a service action, or have the operator install the agent without that hardening -- not recommended -- or wrap the work in a setuid-free helper the agent can call directly.";

/// What is told of a host.
pub struct HostFacts {
    pub hostname: String,
    pub kernel: Option<String>,
    pub arch: String,
}

/// A command that needs `sudo`.
pub open spec fn wants_sudo(command: Seq<char>) -> bool {
    words(command).len() > 0 && (command == "sudo"@ || prefixed(command, "sudo "@) || contained(words(command)[0], "/sudo"@))
}

/// The commands that need `sudo`.
pub open spec fn sudo_commands(commands: Seq<Seq<char>>) -> Seq<Seq<char>>
    decreases commands.len(),
{
    if commands.len() == 0 {
        Seq::empty()
    } else if wants_sudo(commands.last()) {
        sudo_commands(commands.drop_last()).push(commands.last())
    } else {
        sudo_commands(commands.drop_last())
    }
}

/// What is told of commands that can never work.
pub open spec fn unusable_tree(commands: Seq<Seq<char>>, no_new_privileges: bool) -> Tree {
    let blocked = sudo_commands(commands);
    if !no_new_privileges || blocked.len() == 0 {
        Tree::Object(no_fields())
    } else {
        Tree::Object(
            no_fields().with("commands"@, text_list(blocked)).with("reason"@, Tree::Text("no_new_privileges"@)).with(
                "detail"@,
                Tree::Text(UNUSABLE_DETAIL@),
            ),
        )
    }
}

fn needs_sudo(command: &str) -> (r: bool)
    ensures
        r == wants_sudo(command@),
{
    let w = split_words(command);
    if w.len() == 0 {
        return false;
    }
    assert(w@[0]@ == words(command@)[0]);
    same(command, "sudo") || starts_with(command, "sudo ") || contains(&w[0], "/sudo")
}

/// The services, each under its name.
pub open spec fn services_fields(services: Seq<(String, ServiceSpec)>, n: int) -> Fields
    decreases n,
{
    if n <= 0 || n > services.len() {
        no_fields()
    } else {
        services_fields(services, n - 1).with(services[n - 1].0@, service_tree(services[n - 1].1))
    }
}

pub open spec fn service_tree(s: ServiceSpec) -> Tree {
    Tree::Object(
        no_fields().with("unit"@, Tree::Text(s.unit@)).with("backend"@, Tree::Text(s.backend@)).with(
            "actions"@,
            text_list(views(s.actions@)),
        ).with("requires_sudo"@, Tree::Bool(s.requires_sudo)).with("description"@, Tree::Text(s.description@)),
    )
}

fn describe_service(s: &ServiceSpec) -> (r: Json)
    ensures
        r@ == service_tree(*s),
{
    broadcast use group_json_views;

    let mut o = no_object();
    set_field(&mut o, "unit", string(&s.unit));
    set_field(&mut o, "backend", string(&s.backend));
    set_field(&mut o, "actions", strings(&s.actions));
    set_field(&mut o, "requires_sudo", Json::Bool(s.requires_sudo));
    set_field(&mut o, "description", string(&s.description));
    Json::Object(o)
}

fn describe_services(services: &Vec<(String, ServiceSpec)>) -> (r: Object)
    ensures
        fields(r@) == services_fields(services@, services@.len() as int),
{
    let mut o = no_object();
    let mut i: usize = 0;
    while i < services.len()
        invariant
            i <= services@.len(),
            fields(o@) == services_fields(services@, i as int),
        decreases services@.len() - i,
    {
        set_field(&mut o, &services[i].0, describe_service(&services[i].1));
        i = i + 1;
    }
    o
}

/// The pieces of configuration that have a form in JSON, each under its name.
pub open spec fn named_fields(list: Seq<(String, Option<Json>)>, n: int) -> Fields
    decreases n,
{
    if n <= 0 || n > list.len() {
        no_fields()
    } else {
        match list[n - 1].1 {
            Some(v) => named_fields(list, n - 1).with(list[n - 1].0@, v@),
            None => named_fields(list, n - 1),
        }
    }
}

fn gather_named(list: &Vec<(String, Option<Json>)>) -> (r: Object)
    ensures
        fields(r@) == named_fields(list@, list@.len() as int),
{
    let mut o = no_object();
    let mut i: usize = 0;
    while i < list.len()
        invariant
            i <= list@.len(),
            fields(o@) == named_fields(list@, i as int),
        decreases list@.len() - i,
    {
        if let Some(v) = &list[i].1 {
            set_field(&mut o, &list[i].0, copy(v));
        }
        i = i + 1;
    }
    o
}

pub open spec fn access_text(a: FileAccess) -> Seq<char> {
    match a {
        FileAccess::Read => "r"@,
        FileAccess::ReadWrite => "rw"@,
    }
}

pub open spec fn path_tree(p: FileOpsPath) -> Tree {
    Tree::Object(no_fields().with("path"@, Tree::Text(p.path@)).with("access"@, Tree::Text(access_text(p.access))))
}

/// The paths that are open to file operations.
pub open spec fn path_trees(paths: Seq<FileOpsPath>) -> Seq<Tree> {
    Seq::new(paths.len(), |i: int| path_tree(paths[i]))
}

/// The paths themselves; only those open for writing where `writable` says so.
pub open spec fn path_names(paths: Seq<FileOpsPath>, writable: bool) -> Seq<Seq<char>>
    decreases paths.len(),
{
    if paths.len() == 0 {
        Seq::empty()
    } else if !writable || paths.last().access == FileAccess::ReadWrite {
        path_names(paths.drop_last(), writable).push(paths.last().path@)
    } else {
        path_names(paths.drop_last(), writable)
    }
}

fn describe_paths(paths: &Vec<FileOpsPath>) -> (r: Vec<Json>)
    ensures
        trees(r@) == path_trees(paths@),
{
    let mut out: Vec<Json> = Vec::new();
    let mut i: usize = 0;
    while i < paths.len()
        invariant
            i <= paths@.len(),
            out@.len() == i,
            forall|j: int| 0 <= j < i ==> (#[trigger] out@[j])@ == path_tree(paths@[j]),
        decreases paths@.len() - i,
    {
        let mut o = no_object();
        set_field(&mut o, "path", string(&paths[i].path));
        let access = match paths[i].access {
            FileAccess::Read => "r",
            FileAccess::ReadWrite => "rw",
        };
        set_field(&mut o, "access", string(access));
        proof {
            lemma_object_view(o);
        }
        out.push(Json::Object(o));
        i = i + 1;
    }
    assert(trees(out@) =~= path_trees(paths@));
    out
}

/// The paths themselves; only those open for writing where `writable` says so.
pub fn list_paths(paths: &Vec<FileOpsPath>, writable: bool) -> (r: Vec<String>)
    ensures
        views(r@) == path_names(paths@, writable),
{
    let mut out: Vec<String> = Vec::new();
    let mut i: usize = 0;
    assert(views(out@) =~= path_names(paths@.take(0), writable));
    while i < paths.len()
        invariant
            i <= paths@.len(),
            views(out@) == path_names(paths@.take(i as int), writable),
        decreases paths@.len() - i,
    {
        assert(paths@.take(i + 1).drop_last() =~= paths@.take(i as int));
        let ghost before = views(out@);
        if !writable || paths[i].access == FileAccess::ReadWrite {
            out.push(paths[i].path.clone());
            assert(views(out@) =~= before.push(paths@[i as int].path@));
        }
        i = i + 1;
    }
    assert(paths@.take(i as int) =~= paths@);
    out
}

pub open spec fn host_tree_of(h: HostFacts, label: Option<String>) -> Tree {
    Tree::Object(
        no_fields().with("hostname"@, Tree::Text(h.hostname@)).with("label"@, text_or_null(opt_view(label))).with(
            "kernel"@,
            text_or_null(opt_view(h.kernel)),
        ).with("arch"@, Tree::Text(h.arch@)),
    )
}

fn describe_host(h: &HostFacts, label: &Option<String>) -> (r: Json)
    ensures
        r@ == host_tree_of(*h, *label),
{
    broadcast use group_json_views;

    let mut o = no_object();
    set_field(&mut o, "hostname", string(&h.hostname));
    set_field(&mut o, "label", optional(label));
    set_field(&mut o, "kernel", optional(&h.kernel));
    set_field(&mut o, "arch", string(&h.arch));
    Json::Object(o)
}

pub open spec fn limits_tree(p: Policy) -> Tree {
    Tree::Object(
        no_fields().with("exec_timeout_default"@, Tree::Number(Num::Pos(p.exec_timeout_default))).with(
            "exec_timeout_max"@,
            Tree::Number(Num::Pos(p.exec_timeout_max)),
        ),
    )
}

fn describe_limits(p: &Policy) -> (r: Json)
    ensures
        r@ == limits_tree(*p),
{
    broadcast use group_json_views;

    let mut o = no_object();
    set_field(&mut o, "exec_timeout_default", count(p.exec_timeout_default));
    set_field(&mut o, "exec_timeout_max", count(p.exec_timeout_max));
    Json::Object(o)
}

/// The limits of file operations, put into `o`.
pub open spec fn with_file_limits(o: Fields, p: Policy) -> Fields {
    o.with("max_read_bytes"@, Tree::Number(Num::Pos(p.file_ops_max_read_bytes as u64))).with(
        "max_list_entries"@,
        Tree::Number(Num::Pos(p.file_ops_max_list_entries as u64)),
    ).with("max_search_results"@, Tree::Number(Num::Pos(p.file_ops_max_search_results as u64)))
}

fn add_file_limits(o: &mut Object, p: &Policy)
    ensures
        fields(final(o)@) == with_file_limits(fields(old(o)@), *p),
{
    set_field(o, "max_read_bytes", count(p.file_ops_max_read_bytes as u64));
    set_field(o, "max_list_entries", count(p.file_ops_max_list_entries as u64));
    set_field(o, "max_search_results", count(p.file_ops_max_search_results as u64));
}

/// How many places are known, the configuration's own among them.
pub open spec fn location_count(p: Policy) -> u64 {
    if named_at(p.locations@, "config"@) < p.locations@.len() {
        p.locations@.len() as u64
    } else {
        (p.locations@.len() + 1) as u64
    }
}

pub fn count_locations(p: &Policy) -> (r: u64)
    requires
        p.locations@.len() < u64::MAX,
    ensures
        r == location_count(*p),
{
    if find_named(&p.locations, "config") < p.locations.len() {
        p.locations.len() as u64
    } else {
        p.locations.len() as u64 + 1
    }
}

pub open spec fn summary_tree(p: Policy) -> Tree {
    Tree::Object(
        no_fields().with("allowed_commands"@, Tree::Number(Num::Pos(p.allowed_commands@.len() as u64))).with(
            "services"@,
            Tree::Number(Num::Pos(p.services@.len() as u64)),
        ).with("locations"@, Tree::Number(Num::Pos(location_count(p)))).with(
            "playbooks"@,
            Tree::Number(Num::Pos(p.playbooks@.len() as u64)),
        ).with("file_ops_paths"@, Tree::Number(Num::Pos(p.file_ops_paths@.len() as u64))).with(
            "writable_paths"@,
            Tree::Number(Num::Pos(writable_count(p.file_ops_paths@) as u64)),
        ).with("trusted_fetch_hosts"@, Tree::Number(Num::Pos(p.trusted_fetch_hosts@.len() as u64))),
    )
}

/// How much is configured, as help and capabilities tell it.
pub fn policy_summary(p: &Policy) -> (r: Json)
    requires
        p.locations@.len() < u64::MAX,
    ensures
        r@ == summary_tree(*p),
{
    broadcast use group_json_views;

    let summary = p.config_summary();
    let writable = match summary.file_ops_rw_count {
        Some(n) => n,
        None => 0,
    };
    let mut o = no_object();
    set_field(&mut o, "allowed_commands", count(p.allowed_commands.len() as u64));
    set_field(&mut o, "services", count(p.services.len() as u64));
    set_field(&mut o, "locations", count(count_locations(p)));
    set_field(&mut o, "playbooks", count(p.playbooks.len() as u64));
    set_field(&mut o, "file_ops_paths", count(p.file_ops_paths.len() as u64));
    set_field(&mut o, "writable_paths", count(writable));
    set_field(&mut o, "trusted_fetch_hosts", count(p.trusted_fetch_hosts.len() as u64));
    Json::Object(o)
}

/// A list of fixed texts.
pub fn fixed_list(texts: &Vec<&'static str>) -> (r: Json)
    ensures
        r@ == text_list(crate::text::str_views(texts@)),
{
    let mut out: Vec<String> = Vec::new();
    let mut i: usize = 0;
    while i < texts.len()
        invariant
            i <= texts@.len(),
            out@.len() == i,
            forall|j: int| 0 <= j < i ==> (#[trigger] out@[j])@ == texts@[j]@,
        decreases texts@.len() - i,
    {
        out.push(texts[i].to_owned());
        i = i + 1;
    }
    assert(views(out@) =~= crate::text::str_views(texts@));
    strings(&out)
}

/// How help and capabilities are asked.
pub open spec fn contract_tree() -> Tree {
    Tree::Object(
        no_fields().with("help"@, text_list(seq!["topic"@, "path"@, "playbook"@, "offset"@, "limit"@])).with(
            "capabilities_detail"@,
            text_list(seq!["summary"@, "full"@]),
        ).with("max_page_limit"@, Tree::Number(Num::Pos(100))).with("legacy_empty_payload"@, Tree::Text("full"@)),
    )
}

fn describe_contract() -> (r: Json)
    ensures
        r@ == contract_tree(),
{
    broadcast use group_json_views;

    let help: Vec<&'static str> = vec!["topic", "path", "playbook", "offset", "limit"];
    assert(crate::text::str_views(help@) =~= seq!["topic"@, "path"@, "playbook"@, "offset"@, "limit"@]);
    let details: Vec<&'static str> = vec!["summary", "full"];
    assert(crate::text::str_views(details@) =~= seq!["summary"@, "full"@]);
    let mut o = no_object();
    set_field(&mut o, "help", fixed_list(&help));
    set_field(&mut o, "capabilities_detail", fixed_list(&details));
    set_field(&mut o, "max_page_limit", count(100));
    set_field(&mut o, "legacy_empty_payload", string("full"));
    Json::Object(o)
}

/// A request that leads on: an operation and one field of its payload.
pub open spec fn lead(op: Seq<char>, key: Seq<char>, value: Seq<char>) -> Tree {
    Tree::Object(
        no_fields().with("backend_operation"@, Tree::Text(op)).with(
            "payload"@,
            Tree::Object(no_fields().with(key, Tree::Text(value))),
        ),
    )
}

fn lead_to(op: &str, key: &str, value: &str) -> (r: Json)
    ensures
        r@ == lead(op@, key@, value@),
{
    broadcast use group_json_views;

    let mut payload = no_object();
    set_field(&mut payload, key, string(value));
    let mut o = no_object();
    set_field(&mut o, "backend_operation", string(op));
    set_field(&mut o, "payload", Json::Object(payload));
    Json::Object(o)
}

pub open spec fn next_tree() -> Tree {
    Tree::Object(
        no_fields().with("help_index"@, lead("help"@, "topic"@, "index"@)).with(
            "playbook"@,
            lead("help"@, "playbook"@, "<name>"@),
        ).with("full_capabilities"@, lead("capabilities"@, "detail"@, "full"@)),
    )
}

fn describe_next() -> (r: Json)
    ensures
        r@ == next_tree(),
{
    broadcast use group_json_views;

    let mut o = no_object();
    set_field(&mut o, "help_index", lead_to("help", "topic", "index"));
    set_field(&mut o, "playbook", lead_to("help", "playbook", "<name>"));
    set_field(&mut o, "full_capabilities", lead_to("capabilities", "detail", "full"));
    Json::Object(o)
}

/// The places that are known, the configuration's own among them.
pub open spec fn locations_fields(p: Policy, config_path: Seq<char>) -> Fields {
    let known = named_fields(p.locations@, p.locations@.len() as int);
    if get(known, "config"@) is Some {
        known
    } else {
        known.with(
            "config"@,
            Tree::Object(
                no_fields().with("path"@, Tree::Text(config_path)).with(
                    "description"@,
                    Tree::Text("The agent's active config.yaml."@),
                ),
            ),
        )
    }
}

pub open spec fn fetch_tree(p: Policy) -> Tree {
    Tree::Object(
        no_fields().with("trusted_fetch_hosts"@, text_list(views(p.trusted_fetch_hosts@))).with(
            "file_url_timeout_seconds"@,
            Tree::Number(Num::Pos(p.file_url_timeout_seconds)),
        ).with("scheme_allowed"@, text_list(seq!["https"@])).with("follow_redirects"@, Tree::Bool(false)),
    )
}

fn describe_fetch(p: &Policy) -> (r: Json)
    ensures
        r@ == fetch_tree(*p),
{
    broadcast use group_json_views;

    let schemes: Vec<&'static str> = vec!["https"];
    assert(crate::text::str_views(schemes@) =~= seq!["https"@]);
    let mut o = no_object();
    set_field(&mut o, "trusted_fetch_hosts", strings(&p.trusted_fetch_hosts));
    set_field(&mut o, "file_url_timeout_seconds", count(p.file_url_timeout_seconds));
    set_field(&mut o, "scheme_allowed", fixed_list(&schemes));
    set_field(&mut o, "follow_redirects", Json::Bool(false));
    Json::Object(o)
}

pub open spec fn file_ops_tree(p: Policy) -> Tree {
    Tree::Object(
        with_file_limits(
            no_fields().with("paths"@, Tree::Array(path_trees(p.file_ops_paths@))).with(
                "allowed_read_paths"@,
                text_list(path_names(p.file_ops_paths@, false)),
            ).with("writable_paths"@, text_list(path_names(p.file_ops_paths@, true))),
            p,
        ),
    )
}

fn describe_file_ops(p: &Policy) -> (r: Json)
    ensures
        r@ == file_ops_tree(*p),
{
    broadcast use group_json_views;

    let mut o = no_object();
    set_field(&mut o, "paths", Json::Array(describe_paths(&p.file_ops_paths)));
    set_field(&mut o, "allowed_read_paths", strings(&list_paths(&p.file_ops_paths, false)));
    set_field(&mut o, "writable_paths", strings(&list_paths(&p.file_ops_paths, true)));
    add_file_limits(&mut o, p);
    Json::Object(o)
}

/// What both forms of the capabilities tell first.
pub open spec fn capabilities_head(d: CoreDispatcher, host: HostFacts) -> Fields {
    no_fields().with("agent"@, Tree::Text(AGENT_NAME@)).with("version"@, Tree::Text(d.agent_version@)).with(
        "host"@,
        host_tree_of(host, d.policy.hostname_label),
    ).with("ops_supported"@, text_list(sorted(enabled_names(d.policy, implemented().len() as int))))
}

pub open spec fn short_capabilities(d: CoreDispatcher, host: HostFacts) -> Fields {
    capabilities_head(d, host).with("limits"@, limits_tree(d.policy)).with("upload_base"@, Tree::Text(d.policy.upload_base@)).with(
        "file_ops_limits"@,
        Tree::Object(with_file_limits(no_fields(), d.policy)),
    ).with("policy_summary"@, summary_tree(d.policy)).with("query_contract"@, contract_tree()).with("next"@, next_tree())
}

pub open spec fn full_capabilities(d: CoreDispatcher, host: HostFacts, no_new_privileges: bool) -> Fields {
    capabilities_head(d, host).with("allowed_commands"@, text_list(views(d.policy.allowed_commands@))).with(
        "disabled_ops"@,
        text_list(views(d.policy.disabled_ops@)),
    ).with("exec_strict"@, Tree::Bool(d.policy.exec_strict)).with(
        "unusable_commands"@,
        unusable_tree(views(d.policy.allowed_commands@), no_new_privileges),
    ).with(
        "services"@,
        Tree::Object(services_fields(d.policy.services@, d.policy.services@.len() as int)),
    ).with("locations"@, Tree::Object(locations_fields(d.policy, d.config_path@))).with(
        "playbooks"@,
        Tree::Object(named_fields(d.policy.playbooks@, d.policy.playbooks@.len() as int)),
    ).with("limits"@, limits_tree(d.policy)).with("fetch_policy"@, fetch_tree(d.policy)).with(
        "file_ops"@,
        file_ops_tree(d.policy),
    ).with("upload_base"@, Tree::Text(d.policy.upload_base@)).with("config_path"@, Tree::Text(d.config_path@))
}

/// What is told of the capabilities.
pub open spec fn capabilities_of(d: CoreDispatcher, payload: Fields, host: HostFacts, no_new_privileges: bool) -> Result<
    Fields,
    Fault,
> {
    match detail_of(payload) {
        Err(f) => Err(f),
        Ok(detail) => Ok(
            if detail == "summary"@ {
                short_capabilities(d, host)
            } else {
                full_capabilities(d, host, no_new_privileges)
            },
        ),
    }
}

impl CoreDispatcher {
    /// What is told of commands that can never work: those that need `sudo`, where
    /// no privileges can be gained.
    pub fn unusable_commands_for(allowed_commands: &Vec<String>, no_new_privileges: bool) -> (r: Json)
        ensures
            r@ == unusable_tree(views(allowed_commands@), no_new_privileges),
    {
        broadcast use group_json_views;

        if !no_new_privileges {
            return Json::Object(no_object());
        }
        let ghost all = views(allowed_commands@);
        let mut blocked: Vec<String> = Vec::new();
        let mut i: usize = 0;
        assert(views(blocked@) =~= sudo_commands(all.take(0)));
        while i < allowed_commands.len()
            invariant
                i <= allowed_commands@.len(),
                all == views(allowed_commands@),
                views(blocked@) == sudo_commands(all.take(i as int)),
            decreases allowed_commands@.len() - i,
        {
            assert(all.take(i + 1).drop_last() =~= all.take(i as int));
            assert(all.take(i + 1).last() == allowed_commands@[i as int]@);
            let ghost before = views(blocked@);
            if needs_sudo(&allowed_commands[i]) {
                blocked.push(allowed_commands[i].clone());
                assert(views(blocked@) =~= before.push(all[i as int]));
            }
            i = i + 1;
        }
        assert(all.take(i as int) =~= all);
        assert(views(blocked@).len() == blocked@.len());
        if blocked.len() == 0 {
            return Json::Object(no_object());
        }
        let mut o = no_object();
        set_field(&mut o, "commands", strings(&blocked));
        set_field(&mut o, "reason", string("no_new_privileges"));
        set_field(&mut o, "detail", string(UNUSABLE_DETAIL));
        Json::Object(o)
    }

    fn locations_object(&self) -> (r: Object)
        ensures
            fields(r@) == locations_fields(self.policy, self.config_path@),
    {
        broadcast use group_json_views;

        let mut known = gather_named(&self.policy.locations);
        if !has_field(&known, "config") {
            let mut o = no_object();
            set_field(&mut o, "path", string(&self.config_path));
            set_field(&mut o, "description", string("The agent's active config.yaml."));
            set_field(&mut known, "config", Json::Object(o));
        }
        known
    }

    fn head(&self, host: &HostFacts) -> (r: Object)
        ensures
            fields(r@) == capabilities_head(*self, *host),
    {
        let mut o = no_object();
        set_field(&mut o, "agent", string(AGENT_NAME));
        set_field(&mut o, "version", string(&self.agent_version));
        set_field(&mut o, "host", describe_host(host, &self.policy.hostname_label));
        set_field(&mut o, "ops_supported", strings(&sort(self.enabled_ops())));
        o
    }

    /// What the agent tells of its policy and its host: in short, or in full.
    pub fn capabilities_result(&self, payload: &Object, host: &HostFacts, no_new_privileges: bool) -> (r: HandlerResult)
        requires
            self.policy.locations@.len() < u64::MAX,
        ensures
            outcome(r) == capabilities_of(*self, fields(payload@), *host, no_new_privileges),
    {
        broadcast use group_json_views;

        let detail = match capabilities_detail(payload) {
            Ok(d) => d,
            Err(e) => return Err(e),
        };
        let mut o = self.head(host);
        if same(detail, "summary") {
            let mut limits = no_object();
            add_file_limits(&mut limits, &self.policy);
            set_field(&mut o, "limits", describe_limits(&self.policy));
            set_field(&mut o, "upload_base", string(&self.policy.upload_base));
            set_field(&mut o, "file_ops_limits", Json::Object(limits));
            set_field(&mut o, "policy_summary", policy_summary(&self.policy));
            set_field(&mut o, "query_contract", describe_contract());
            set_field(&mut o, "next", describe_next());
            return Ok(o);
        }
        set_field(&mut o, "allowed_commands", strings(&self.policy.allowed_commands));
        set_field(&mut o, "disabled_ops", strings(&self.policy.disabled_ops));
        set_field(&mut o, "exec_strict", Json::Bool(self.policy.exec_strict));
        set_field(
            &mut o,
            "unusable_commands",
            Self::unusable_commands_for(&self.policy.allowed_commands, no_new_privileges),
        );
        set_field(&mut o, "services", Json::Object(describe_services(&self.policy.services)));
        set_field(&mut o, "locations", Json::Object(self.locations_object()));
        set_field(&mut o, "playbooks", Json::Object(gather_named(&self.policy.playbooks)));
        set_field(&mut o, "limits", describe_limits(&self.policy));
        set_field(&mut o, "fetch_policy", describe_fetch(&self.policy));
        set_field(&mut o, "file_ops", describe_file_ops(&self.policy));
        set_field(&mut o, "upload_base", string(&self.policy.upload_base));
        set_field(&mut o, "config_path", string(&self.config_path));
        Ok(o)
    }
}

/// The keys of what is told differ: in their lengths, or else in their first letters.
proof fn lemma_capability_keys()
    ensures
        "ops_supported"@.len() == 13,
        "limits"@.len() == 6,
        "upload_base"@.len() == 11,
        "file_ops_limits"@.len() == 15,
        "policy_summary"@.len() == 14,
        "query_contract"@.len() == 14,
        "next"@.len() == 4,
        "allowed_commands"@.len() == 16,
        "disabled_ops"@.len() == 12,
        "exec_strict"@.len() == 11,
        "unusable_commands"@.len() == 17,
        "services"@.len() == 8,
        "locations"@.len() == 9,
        "playbooks"@.len() == 9,
        "fetch_policy"@.len() == 12,
        "file_ops"@.len() == 8,
        "config_path"@.len() == 11,
        "file_ops_paths"@.len() == 14,
        "writable_paths"@.len() == 14,
        "trusted_fetch_hosts"@.len() == 19,
        "paths"@.len() == 5,
        "allowed_read_paths"@.len() == 18,
        "max_read_bytes"@.len() == 14,
        "max_list_entries"@.len() == 16,
        "max_search_results"@.len() == 18,
        "file_url_timeout_seconds"@.len() == 24,
        "scheme_allowed"@.len() == 14,
        "follow_redirects"@.len() == 16,
        "policy_summary"@[0] == 'p',
        "query_contract"@[0] == 'q',
        "services"@[0] == 's',
        "locations"@[0] == 'l',
        "playbooks"@[0] == 'p',
        "file_ops"@[0] == 'f',
        "file_ops_paths"@[0] == 'f',
        "writable_paths"@[0] == 'w',
        "max_read_bytes"@[0] == 'm',
{
    reveal_strlit("ops_supported");
    reveal_strlit("limits");
    reveal_strlit("upload_base");
    reveal_strlit("file_ops_limits");
    reveal_strlit("policy_summary");
    reveal_strlit("query_contract");
    reveal_strlit("next");
    reveal_strlit("allowed_commands");
    reveal_strlit("disabled_ops");
    reveal_strlit("exec_strict");
    reveal_strlit("unusable_commands");
    reveal_strlit("services");
    reveal_strlit("locations");
    reveal_strlit("playbooks");
    reveal_strlit("fetch_policy");
    reveal_strlit("file_ops");
    reveal_strlit("config_path");
    reveal_strlit("file_ops_paths");
    reveal_strlit("writable_paths");
    reveal_strlit("trusted_fetch_hosts");
    reveal_strlit("paths");
    reveal_strlit("allowed_read_paths");
    reveal_strlit("max_read_bytes");
    reveal_strlit("max_list_entries");
    reveal_strlit("max_search_results");
    reveal_strlit("file_url_timeout_seconds");
    reveal_strlit("scheme_allowed");
    reveal_strlit("follow_redirects");
}

proof fn lemma_writable_names(paths: Seq<FileOpsPath>)
    ensures
        path_names(paths, true).len() == writable_count(paths),
    decreases paths.len(),
{
    if paths.len() > 0 {
        lemma_writable_names(paths.drop_last());
    }
}

proof fn lemma_services_counted(services: Seq<(String, ServiceSpec)>, n: int)
    requires
        strictly_ascending(names(services)),
        0 <= n <= services.len(),
    ensures
        services_fields(services, n).len() == n,
        forall|j: int| 0 <= j < n ==> exists|i: int|
            0 <= i < n && (#[trigger] services_fields(services, n)[j]).0 == names(services)[i],
    decreases n,
{
    if n > 0 {
        lemma_services_counted(services, n - 1);
        let front = services_fields(services, n - 1);
        let all = services_fields(services, n);
        let key = names(services)[n - 1];
        reveal(put);
        lemma_position(front, key);
        lemma_slot(front, key);
        if position(front, key) < front.len() {
            let j = position(front, key);
            let i = choose|i: int| 0 <= i < n - 1 && front[j].0 == names(services)[i];
            lemma_less_irreflexive(key);
        }
        let at = slot(front, key);
        assert forall|j: int| 0 <= j < n implies exists|i: int|
            0 <= i < n && (#[trigger] all[j]).0 == names(services)[i] by {
            if j == at {
                assert(all[j].0 == names(services)[n - 1]);
            } else {
                let k = if j < at { j } else { j - 1 };
                assert(all[j] == front[k]);
                let i = choose|i: int| 0 <= i < n - 1 && front[k].0 == names(services)[i];
                assert(all[j].0 == names(services)[i]);
            }
        }
    }
}

/// A number that says how many items a list has, or how many fields an object.
pub open spec fn counts(number: Option<Tree>, of: Option<Tree>) -> bool {
    match (number, of) {
        (Some(Tree::Number(Num::Pos(n))), Some(Tree::Array(items))) => n == items.len(),
        (Some(Tree::Number(Num::Pos(n))), Some(Tree::Object(o))) => n == o.len(),
        _ => false,
    }
}

/// What stands under a key of the object that stands under another.
pub open spec fn inner(o: Fields, outer: Seq<char>, key: Seq<char>) -> Option<Tree> {
    match get(o, outer) {
        Some(Tree::Object(p)) => get(p, key),
        _ => None,
    }
}

/// What is told in short and what is told in full are of one policy: they name the
/// same operations, those that the agent announces itself with, and the numbers in
/// short count what stands in full. The place of the configuration is always told.
pub proof fn short_and_full_agree(d: CoreDispatcher, host: HostFacts, no_new_privileges: bool)
    requires
        d.policy.well_formed(),
    ensures
        capabilities_of(d, no_fields(), host, no_new_privileges) matches Ok(full) && capabilities_of(
            d,
            no_fields().with("detail"@, Tree::Text("summary"@)),
            host,
            no_new_privileges,
        ) matches Ok(short) && {
            &&& capability_names(d.policy).last() == "opaque_ref"@
            &&& !capability_names(d.policy).drop_last().contains("opaque_ref"@)
            &&& get(full, "ops_supported"@) == Some(text_list(sorted(capability_names(d.policy).drop_last())))
            &&& get(short, "ops_supported"@) == get(full, "ops_supported"@)
            &&& counts(inner(short, "policy_summary"@, "allowed_commands"@), get(full, "allowed_commands"@))
            &&& counts(inner(short, "policy_summary"@, "services"@), get(full, "services"@))
            &&& counts(inner(short, "policy_summary"@, "file_ops_paths"@), inner(full, "file_ops"@, "paths"@))
            &&& counts(inner(short, "policy_summary"@, "writable_paths"@), inner(full, "file_ops"@, "writable_paths"@))
            &&& counts(
                inner(short, "policy_summary"@, "trusted_fetch_hosts"@),
                inner(full, "fetch_policy"@, "trusted_fetch_hosts"@),
            )
            &&& inner(full, "locations"@, "config"@) is Some
        },
{
    broadcast use {lemma_get_put, lemma_put_keys};

    let p = d.policy;
    lemma_capability_keys();
    let ask = no_fields().with("detail"@, Tree::Text("summary"@));
    let known = seq!["detail"@];
    assert(known[0] == "detail"@);
    assert(keys_within(no_fields(), known));
    lemma_no_unknown(no_fields(), known);
    lemma_no_unknown(ask, known);
    assert(get(no_fields(), "detail"@) is None);
    assert(get(ask, "detail"@) == Some(Tree::Text("summary"@)));
    assert("full"@.len() == 4 && "summary"@.len() == 7) by {
        reveal_strlit("full");
        reveal_strlit("summary");
    }
    assert(lowered("summary"@).len() != lowered("full"@).len());
    let full = full_capabilities(d, host, no_new_privileges);
    let short = short_capabilities(d, host);
    assert(capabilities_of(d, no_fields(), host, no_new_privileges) == Ok::<Fields, Fault>(full));
    assert(capabilities_of(d, ask, host, no_new_privileges) == Ok::<Fields, Fault>(short));
    let n = implemented().len() as int;
    lemma_opaque_ref_apart(p, n);
    assert(capability_names(p).drop_last() =~= enabled_names(p, n));
    lemma_writable_names(p.file_ops_paths@);
    lemma_services_counted(p.services@, p.services@.len() as int);
    assert(p.allowed_commands.len() <= u64::MAX && p.services.len() <= u64::MAX && p.file_ops_paths.len() <= u64::MAX
        && p.trusted_fetch_hosts.len() <= u64::MAX);
    assert(writable_count(p.file_ops_paths@) <= p.file_ops_paths@.len()) by {
        lemma_writable_within(p.file_ops_paths@);
    }
    assert(get(short, "policy_summary"@) == Some(summary_tree(p)));
    assert(get(full, "file_ops"@) == Some(file_ops_tree(p)));
    assert(get(full, "fetch_policy"@) == Some(fetch_tree(p)));
    assert(get(full, "locations"@) == Some(Tree::Object(locations_fields(p, d.config_path@))));
}

proof fn lemma_writable_within(paths: Seq<FileOpsPath>)
    ensures
        writable_count(paths) <= paths.len(),
    decreases paths.len(),
{
    if paths.len() > 0 {
        lemma_writable_within(paths.drop_last());
    }
}

/// The capabilities tell the policy as it is: the commands, what is switched off, the limits,
/// the paths and where files are put.
pub proof fn capabilities_tell_the_policy(d: CoreDispatcher, host: HostFacts, no_new_privileges: bool)
    ensures
        ({
            let r = full_capabilities(d, host, no_new_privileges);
            &&& get(r, "version"@) == Some(Tree::Text(d.agent_version@))
            &&& get(r, "allowed_commands"@) == Some(text_list(views(d.policy.allowed_commands@)))
            &&& get(r, "disabled_ops"@) == Some(text_list(views(d.policy.disabled_ops@)))
            &&& get(r, "exec_strict"@) == Some(Tree::Bool(d.policy.exec_strict))
            &&& get(r, "upload_base"@) == Some(Tree::Text(d.policy.upload_base@))
            &&& get(r, "config_path"@) == Some(Tree::Text(d.config_path@))
            &&& get(r, "limits"@) == Some(limits_tree(d.policy))
            &&& get(r, "file_ops"@) == Some(file_ops_tree(d.policy))
            &&& get(r, "fetch_policy"@) == Some(fetch_tree(d.policy))
        }),
{
    broadcast use lemma_get_put;

    reveal_strlit("agent");
    reveal_strlit("version");
    reveal_strlit("host");
    reveal_strlit("ops_supported");
    reveal_strlit("allowed_commands");
    reveal_strlit("disabled_ops");
    reveal_strlit("exec_strict");
    reveal_strlit("unusable_commands");
    reveal_strlit("services");
    reveal_strlit("locations");
    reveal_strlit("playbooks");
    reveal_strlit("limits");
    reveal_strlit("fetch_policy");
    reveal_strlit("file_ops");
    reveal_strlit("upload_base");
    reveal_strlit("config_path");
    assert("agent"@.len() == 5 && "version"@.len() == 7 && "host"@.len() == 4 && "ops_supported"@.len() == 13
        && "allowed_commands"@.len() == 16 && "disabled_ops"@.len() == 12 && "exec_strict"@.len() == 11
        && "unusable_commands"@.len() == 17 && "services"@.len() == 8 && "locations"@.len() == 9
        && "playbooks"@.len() == 9 && "limits"@.len() == 6 && "fetch_policy"@.len() == 12 && "file_ops"@.len() == 8
        && "upload_base"@.len() == 11 && "config_path"@.len() == 11 && "disabled_ops"@[0] == 'd'
        && "fetch_policy"@[0] == 'f' && "exec_strict"@[0] == 'e' && "upload_base"@[0] == 'u'
        && "config_path"@[0] == 'c' && "services"@[0] == 's' && "file_ops"@[0] == 'f' && "locations"@[0] == 'l'
        && "playbooks"@[0] == 'p');
}

/// The limits of the policy are told each under its name.
pub proof fn limits_are_told(p: Policy)
    ensures
        limits_tree(p) matches Tree::Object(o) && get(o, "exec_timeout_default"@) == Some(
            Tree::Number(Num::Pos(p.exec_timeout_default)),
        ) && get(o, "exec_timeout_max"@) == Some(Tree::Number(Num::Pos(p.exec_timeout_max))),
        file_ops_tree(p) matches Tree::Object(o) && {
            &&& get(o, "paths"@) == Some(Tree::Array(path_trees(p.file_ops_paths@)))
            &&& get(o, "allowed_read_paths"@) == Some(text_list(path_names(p.file_ops_paths@, false)))
            &&& get(o, "writable_paths"@) == Some(text_list(path_names(p.file_ops_paths@, true)))
            &&& get(o, "max_read_bytes"@) == Some(Tree::Number(Num::Pos(p.file_ops_max_read_bytes as u64)))
            &&& get(o, "max_list_entries"@) == Some(Tree::Number(Num::Pos(p.file_ops_max_list_entries as u64)))
            &&& get(o, "max_search_results"@) == Some(Tree::Number(Num::Pos(p.file_ops_max_search_results as u64)))
        },
        fetch_tree(p) matches Tree::Object(o) && get(o, "trusted_fetch_hosts"@) == Some(
            text_list(views(p.trusted_fetch_hosts@)),
        ) && get(o, "file_url_timeout_seconds"@) == Some(Tree::Number(Num::Pos(p.file_url_timeout_seconds))) && get(
            o,
            "follow_redirects"@,
        ) == Some(Tree::Bool(false)),
{
    broadcast use lemma_get_put;

    reveal_strlit("exec_timeout_default");
    reveal_strlit("exec_timeout_max");
    assert("exec_timeout_default"@.len() == 20 && "exec_timeout_max"@.len() == 16);
    reveal_strlit("paths");
    reveal_strlit("allowed_read_paths");
    reveal_strlit("writable_paths");
    reveal_strlit("max_read_bytes");
    reveal_strlit("max_list_entries");
    reveal_strlit("max_search_results");
    assert("paths"@.len() == 5 && "allowed_read_paths"@.len() == 18 && "writable_paths"@.len() == 14
        && "max_read_bytes"@.len() == 14 && "max_list_entries"@.len() == 16 && "max_search_results"@.len() == 18
        && "allowed_read_paths"@[0] == 'a' && "max_search_results"@[0] == 'm' && "writable_paths"@[0] == 'w'
        && "max_read_bytes"@[0] == 'm');
    reveal_strlit("trusted_fetch_hosts");
    reveal_strlit("file_url_timeout_seconds");
    reveal_strlit("scheme_allowed");
    reveal_strlit("follow_redirects");
    assert("trusted_fetch_hosts"@.len() == 19 && "file_url_timeout_seconds"@.len() == 24
        && "scheme_allowed"@.len() == 14 && "follow_redirects"@.len() == 16);
}

/// A path is told with the access to it, a service with its unit and its actions.
pub proof fn paths_and_services_are_told(p: FileOpsPath, s: ServiceSpec)
    ensures
        path_tree(p) matches Tree::Object(o) && get(o, "path"@) == Some(Tree::Text(p.path@)) && get(o, "access"@) == Some(
            Tree::Text(
                if p.access == FileAccess::ReadWrite {
                    "rw"@
                } else {
                    "r"@
                },
            ),
        ),
        service_tree(s) matches Tree::Object(o) && get(o, "unit"@) == Some(Tree::Text(s.unit@)) && get(o, "backend"@) == Some(
            Tree::Text(s.backend@),
        ) && get(o, "actions"@) == Some(text_list(views(s.actions@))) && get(o, "requires_sudo"@) == Some(
            Tree::Bool(s.requires_sudo),
        ) && get(o, "description"@) == Some(Tree::Text(s.description@)),
{
    broadcast use lemma_get_put;

    reveal_strlit("path");
    reveal_strlit("access");
    assert("path"@.len() == 4 && "access"@.len() == 6);
    reveal_strlit("unit");
    reveal_strlit("backend");
    reveal_strlit("actions");
    reveal_strlit("requires_sudo");
    reveal_strlit("description");
    assert("unit"@.len() == 4 && "backend"@.len() == 7 && "actions"@.len() == 7 && "requires_sudo"@.len() == 13
        && "description"@.len() == 11 && "backend"@[0] == 'b' && "actions"@[0] == 'a');
}

/// A path is among the writable ones exactly where it may be written to.
pub proof fn writable_paths_are_told(paths: Seq<FileOpsPath>, writable: bool, name: Seq<char>)
    ensures
        path_names(paths, writable).contains(name) <==> exists|i: int|
            0 <= i < paths.len() && (#[trigger] paths[i]).path@ == name && (writable ==> paths[i].access == FileAccess::ReadWrite),
    decreases paths.len(),
{
    if paths.len() > 0 {
        let front = paths.drop_last();
        writable_paths_are_told(front, writable, name);
        let all = path_names(paths, writable);
        let some = path_names(front, writable);
        if all.contains(name) {
            let k = choose|k: int| 0 <= k < all.len() && all[k] == name;
            if k < some.len() {
                assert(some[k] == name);
                let i = choose|i: int|
                    0 <= i < front.len() && (#[trigger] front[i]).path@ == name && (writable ==> front[i].access
                        == FileAccess::ReadWrite);
                assert(paths[i] == front[i]);
            } else {
                assert(paths[paths.len() - 1].path@ == name);
            }
        }
        if exists|i: int|
            0 <= i < paths.len() && (#[trigger] paths[i]).path@ == name && (writable ==> paths[i].access
                == FileAccess::ReadWrite) {
            let i = choose|i: int|
                0 <= i < paths.len() && (#[trigger] paths[i]).path@ == name && (writable ==> paths[i].access
                    == FileAccess::ReadWrite);
            if i < front.len() {
                assert(front[i] == paths[i]);
                let k = choose|k: int| 0 <= k < some.len() && some[k] == name;
                assert(all[k] == name);
            } else {
                assert(all[all.len() - 1] == name);
            }
        }
    }
}

/// A command cannot be used exactly where it needs privileges that the agent cannot get.
pub proof fn unusable_commands_are_told(commands: Seq<Seq<char>>, command: Seq<char>)
    ensures
        sudo_commands(commands).contains(command) <==> commands.contains(command) && wants_sudo(command),
        unusable_tree(commands, false) == Tree::Object(no_fields()),
    decreases commands.len(),
{
    if commands.len() > 0 {
        let front = commands.drop_last();
        unusable_commands_are_told(front, command);
        let all = sudo_commands(commands);
        let some = sudo_commands(front);
        if all.contains(command) {
            let k = choose|k: int| 0 <= k < all.len() && all[k] == command;
            if k < some.len() {
                assert(some[k] == command);
                let i = choose|i: int| 0 <= i < front.len() && front[i] == command;
                assert(commands[i] == command);
            } else {
                assert(commands[commands.len() - 1] == command);
            }
        }
        if commands.contains(command) && wants_sudo(command) {
            let i = choose|i: int| 0 <= i < commands.len() && commands[i] == command;
            if i < front.len() {
                assert(front[i] == command);
                let k = choose|k: int| 0 <= k < some.len() && some[k] == command;
                assert(all[k] == command);
            } else {
                assert(all[all.len() - 1] == command);
            }
        }
    }
}

/// Each service of the policy is told under its name.
pub proof fn services_are_told(services: Seq<(String, ServiceSpec)>, n: int, i: int)
    requires
        0 <= i < n <= services.len(),
        forall|j: int, k: int| 0 <= j < k < services.len() ==> (#[trigger] services[j]).0@ != (#[trigger] services[k]).0@,
    ensures
        get(services_fields(services, n), services[i].0@) == Some(service_tree(services[i].1)),
    decreases n,
{
    broadcast use lemma_get_put;

    if i < n - 1 {
        services_are_told(services, n - 1, i);
        assert(services[i].0@ != services[n - 1].0@);
    }
}

/// Where the configuration lies is told, as the policy describes it or by its path.
pub proof fn the_configuration_is_located(p: Policy, config_path: Seq<char>)
    ensures
        get(named_fields(p.locations@, p.locations@.len() as int), "config"@) is None ==> (get(
            locations_fields(p, config_path),
            "config"@,
        ) matches Some(Tree::Object(o)) && get(o, "path"@) == Some(Tree::Text(config_path))),
        get(named_fields(p.locations@, p.locations@.len() as int), "config"@) is Some ==> locations_fields(p, config_path)
            == named_fields(p.locations@, p.locations@.len() as int),
{
    broadcast use lemma_get_put;

    reveal_strlit("path");
    reveal_strlit("description");
    assert("path"@.len() == 4 && "description"@.len() == 11);
}

} // verus!
