//! What an agent tells of how it is used.

use crate::capabilities::{policy_summary, summary_tree, AGENT_NAME};
use crate::dispatch::CoreDispatcher;
use crate::handler_error::{outcome, HandlerResult};
use crate::json::{
    count, fields, get, group_json_views, lemma_get_put, no_fields, no_object, set_field, string, strings, text_list,
    text_or_null, Entries, Fields, Json, Num, Object, Tree,
};
use crate::op::{op_name, Op};
use crate::policy::{name_list, names, FileAccess, FileOpsPath, Policy};
use crate::progressive_help::{book_fields, help_selected, select_help_response};
use crate::text::{opt_view, str_views, views};
use vstd::prelude::*;

verus! {

pub const HELP_SUMMARY: &'static str = "SentinelX provides policy-gated, auditable remote host operations over an authenticated outbound connection. The host policy and OS permissions are independent gates.";

pub const GETTING_STARTED: &'static str = "Start with capabilities for the effective policy and state for current host status. If something is blocked, use the returned error to determine whether policy or OS permissions need attention.";

pub const NOTE_REMOTE: &'static str = "These changes need the operator's approval; apply them via SentinelX where a config path is available, or on the host.";

pub const NOTE_ON_HOST: &'static str = "This host cannot edit its own config remotely: edit is disabled or no writable path is configured. The steps below must be applied by the operator ON the host (edit config.yaml directly and reload the agent), not through SentinelX.";

/// Texts under their names.
pub open spec fn pair_fields(pairs: Seq<(Seq<char>, Seq<char>)>, n: int) -> Fields
    decreases n,
{
    if n <= 0 || n > pairs.len() {
        no_fields()
    } else {
        pair_fields(pairs, n - 1).with(pairs[n - 1].0, Tree::Text(pairs[n - 1].1))
    }
}

pub open spec fn pair_tree(pairs: Seq<(Seq<char>, Seq<char>)>) -> Tree {
    Tree::Object(pair_fields(pairs, pairs.len() as int))
}

pub open spec fn str_pairs(pairs: Seq<(&'static str, &'static str)>) -> Seq<(Seq<char>, Seq<char>)> {
    Seq::new(pairs.len(), |i: int| (pairs[i].0@, pairs[i].1@))
}

fn pair_object(pairs: &Vec<(&'static str, &'static str)>) -> (r: Object)
    ensures
        fields(r@) == pair_fields(str_pairs(pairs@), pairs@.len() as int),
{
    let ghost all = str_pairs(pairs@);
    let mut o = no_object();
    let mut i: usize = 0;
    while i < pairs.len()
        invariant
            i <= pairs@.len(),
            all == str_pairs(pairs@),
            fields(o@) == pair_fields(all, i as int),
        decreases pairs@.len() - i,
    {
        assert(all[i as int] == (pairs@[i as int].0@, pairs@[i as int].1@));
        set_field(&mut o, pairs[i].0, string(pairs[i].1));
        i = i + 1;
    }
    o
}

/// What is said of security.
pub open spec fn security_pairs() -> Seq<(Seq<char>, Seq<char>)> {
    seq![
        (
            "two_layers"@,
            "Every file/command/service action must pass both SentinelX policy and the agent OS account's permissions."@,
        ),
        (
            "allowlist_errors"@,
            "path_not_allowed, command_not_allowed and service_not_allowed mean the host policy refused the requested scope."@,
        ),
        (
            "permission_errors"@,
            "permission_denied means policy allowed the request but the operating-system account could not access the resource."@,
        ),
        (
            "sudo"@,
            "read/list/search never escalate; edit may use sudo when requested; move/copy/delete/chmod/chown never sudo."@,
        ),
        (
            "audit_transparency"@,
            "Operations are recorded in the host-local audit without storing file contents or command arguments."@,
        ),
    ]
}

fn security_model_section() -> (r: Json)
    ensures
        r@ == pair_tree(security_pairs()),
{
    broadcast use group_json_views;

    let pairs: Vec<(&'static str, &'static str)> = vec![
        (
            "two_layers",
            "Every file/command/service action must pass both SentinelX policy and the agent OS account's permissions.",
        ),
        (
            "allowlist_errors",
            "path_not_allowed, command_not_allowed and service_not_allowed mean the host policy refused the requested scope.",
        ),
        (
            "permission_errors",
            "permission_denied means policy allowed the request but the operating-system account could not access the resource.",
        ),
        (
            "sudo",
            "read/list/search never escalate; edit may use sudo when requested; move/copy/delete/chmod/chown never sudo.",
        ),
        (
            "audit_transparency",
            "Operations are recorded in the host-local audit without storing file contents or command arguments.",
        ),
    ];
    assert(str_pairs(pairs@) =~= security_pairs());
    Json::Object(pair_object(&pairs))
}

/// What is said of managing hosts.
pub open spec fn managing_pairs() -> Seq<(Seq<char>, Seq<char>)> {
    seq![
        (
            "add_a_host"@,
            "Install and enroll the SentinelX agent on the additional host; it joins the same account."@,
        ),
        (
            "update_this_agent"@,
            "Use the repository/installer maintenance path for the installed implementation, then restart the agent."@,
        ),
        (
            "targeting"@,
            "With multiple hosts, pass host_id on each operation or set a default host in the Hub integration."@,
        ),
    ]
}

fn managing_hosts_section() -> (r: Json)
    ensures
        r@ == pair_tree(managing_pairs()),
{
    broadcast use group_json_views;

    let pairs: Vec<(&'static str, &'static str)> = vec![
        (
            "add_a_host",
            "Install and enroll the SentinelX agent on the additional host; it joins the same account.",
        ),
        (
            "update_this_agent",
            "Use the repository/installer maintenance path for the installed implementation, then restart the agent.",
        ),
        (
            "targeting",
            "With multiple hosts, pass host_id on each operation or set a default host in the Hub integration.",
        ),
    ];
    assert(str_pairs(pairs@) =~= managing_pairs());
    Json::Object(pair_object(&pairs))
}

/// Where to find more.
pub open spec fn resource_pairs() -> Seq<(Seq<char>, Seq<char>)> {
    seq![
        (
            "dashboard"@,
            "https://mcp.sentinelx.app/dashboard"@,
        ),
        (
            "upstream"@,
            "https://github.com/pensados/sentinelx-cloud-core"@,
        ),
        (
            "compatibility_fork"@,
            "https://github.com/codeandsolder/sentinelO2-cloud-core"@,
        ),
        (
            "issues"@,
            "https://github.com/codeandsolder/sentinelO2-cloud-core/issues"@,
        ),
    ]
}

fn resources_section() -> (r: Json)
    ensures
        r@ == pair_tree(resource_pairs()),
{
    broadcast use group_json_views;

    let pairs: Vec<(&'static str, &'static str)> = vec![
        (
            "dashboard",
            "https://mcp.sentinelx.app/dashboard",
        ),
        (
            "upstream",
            "https://github.com/pensados/sentinelx-cloud-core",
        ),
        (
            "compatibility_fork",
            "https://github.com/codeandsolder/sentinelO2-cloud-core",
        ),
        (
            "issues",
            "https://github.com/codeandsolder/sentinelO2-cloud-core/issues",
        ),
    ];
    assert(str_pairs(pairs@) =~= resource_pairs());
    Json::Object(pair_object(&pairs))
}

/// What the project is.
pub open spec fn about_pairs() -> Seq<(Seq<char>, Seq<char>)> {
    seq![
        (
            "project"@,
            "SentinelO2 is a Rust compatibility reimplementation of the SentinelX host agent."@,
        ),
        (
            "scope"@,
            "Match the hosted SentinelX protocol and Linux feature set while fixing implementation bugs rather than reproducing them."@,
        ),
    ]
}

fn about_section() -> (r: Json)
    ensures
        r@ == pair_tree(about_pairs()),
{
    broadcast use group_json_views;

    let pairs: Vec<(&'static str, &'static str)> = vec![
        (
            "project",
            "SentinelO2 is a Rust compatibility reimplementation of the SentinelX host agent.",
        ),
        (
            "scope",
            "Match the hosted SentinelX protocol and Linux feature set while fixing implementation bugs rather than reproducing them.",
        ),
    ];
    assert(str_pairs(pairs@) =~= about_pairs());
    Json::Object(pair_object(&pairs))
}

/// How the policy is widened.
pub open spec fn access_pairs() -> Seq<(Seq<char>, Seq<char>)> {
    seq![
        (
            "read_or_write_directory"@,
            "Add an entry under file_ops.paths with access 'r' or 'rw' covering a parent directory, then reload the agent; or use the configured add_allowed_read_path playbook when available."@,
        ),
        (
            "command"@,
            "Add the command under allowed_commands, then reload; or use the configured add_allowed_command playbook when available."@,
        ),
        (
            "service"@,
            "Add the service and allowed actions under services, then reload; or use the configured add_service playbook when available."@,
        ),
        (
            "how_to_edit_config"@,
            "Config changes require operator approval: back up config.yaml, make the narrow change, validate it, then reload the agent."@,
        ),
    ]
}

/// What to keep in mind.
pub open spec fn operating_notes() -> Seq<Seq<char>> {
    seq![
        "Diagnose before mutating: prefer read/list/search and state first."@,
        "For structured edits, use dry_run plus diff before applying risky changes."@,
        "When an action is blocked, use the returned policy or permission error rather than guessing."@,
        "Keep rollback paths for destructive or service-affecting changes."@,
        "Use capabilities for exact policy detail and help for progressive orientation."@,
    ]
}

fn operating_notes_section() -> (r: Json)
    ensures
        r@ == text_list(operating_notes()),
{
    let texts: Vec<&'static str> = vec![
        "Diagnose before mutating: prefer read/list/search and state first.",
        "For structured edits, use dry_run plus diff before applying risky changes.",
        "When an action is blocked, use the returned policy or permission error rather than guessing.",
        "Keep rollback paths for destructive or service-affecting changes.",
        "Use capabilities for exact policy detail and help for progressive orientation.",
    ];
    assert(str_views(texts@) =~= operating_notes());
    crate::capabilities::fixed_list(&texts)
}

/// What can be asked for.
pub open spec fn examples() -> Seq<Seq<char>> {
    seq![
        "Diagnose why a service is failing and show the evidence before changing it."@,
        "Check disk usage and identify what is consuming space."@,
        "Review a bounded slice of a log for suspicious events."@,
        "Restart an allowlisted service and confirm it returned healthy."@,
        "Explain which policy entry is needed for a blocked operation."@,
    ]
}

fn examples_section() -> (r: Json)
    ensures
        r@ == text_list(examples()),
{
    let texts: Vec<&'static str> = vec![
        "Diagnose why a service is failing and show the evidence before changing it.",
        "Check disk usage and identify what is consuming space.",
        "Review a bounded slice of a log for suspicious events.",
        "Restart an allowlisted service and confirm it returned healthy.",
        "Explain which policy entry is needed for a blocked operation.",
    ];
    assert(str_views(texts@) =~= examples());
    crate::capabilities::fixed_list(&texts)
}

/// A path is open for writing.
pub open spec fn has_writable(paths: Seq<FileOpsPath>) -> bool {
    exists|i: int| 0 <= i < paths.len() && (#[trigger] paths[i]).access == FileAccess::ReadWrite
}

fn any_writable(paths: &Vec<FileOpsPath>) -> (r: bool)
    ensures
        r == has_writable(paths@),
{
    let mut i: usize = 0;
    while i < paths.len()
        invariant
            i <= paths@.len(),
            forall|j: int| 0 <= j < i ==> (#[trigger] paths@[j]).access != FileAccess::ReadWrite,
        decreases paths@.len() - i,
    {
        if paths[i].access == FileAccess::ReadWrite {
            return true;
        }
        i = i + 1;
    }
    false
}

/// None of the operations is switched off.
pub open spec fn all_live(policy: Policy, ops: Seq<Op>) -> bool {
    forall|i: int| 0 <= i < ops.len() ==> !views(policy.disabled_ops@).contains(op_name(#[trigger] ops[i]))
}

/// What can be used, with the condition under which it is told.
pub open spec fn ways(p: Policy) -> Seq<(bool, Seq<char>, Seq<char>)> {
    seq![
        (true, "capabilities"@, "full policy: allowed paths (r/rw), commands, services, playbooks, limits"@),
        (true, "state"@, "live host status (hostname, kernel, uptime, load)"@),
        (all_live(p, seq![Op::Read, Op::List, Op::Search]) && p.file_ops_paths@.len() > 0, "read / list / search"@, "inspect files under allowed paths"@),
        (all_live(p, seq![Op::Edit]), "edit"@, "structured file edits; sudo=true for rw-gated or privileged writes"@),
        (all_live(p, seq![Op::Move, Op::Copy, Op::Delete, Op::Chmod, Op::Chown]) && has_writable(p.file_ops_paths@), "move / copy / delete / chmod / chown"@, "mutate files under rw paths (never sudo)"@),
        (all_live(p, seq![Op::Exec]) && p.allowed_commands@.len() > 0, "exec"@, "run ONE allowlisted command (no pipes or redirects)"@),
        (all_live(p, seq![Op::ScriptRun]), "script_run"@, "run a multi-step bash/python script for complex tasks"@),
        (all_live(p, seq![Op::Service, Op::Restart]) && p.services@.len() > 0, "service / restart"@, "manage allowlisted services"@),
        (all_live(p, seq![Op::UploadFile, Op::UploadInit]), "upload_file / upload_init+chunk+complete"@, "get files onto the host"@),
        (all_live(p, seq![Op::ReadAudit]), "read_audit"@, "review this host's own recent operation log"@),
        (p.playbooks@.len() > 0, "playbooks"@, "guided multi-step recipes (see 'playbooks' in capabilities)"@),
    ]
}

/// The first `n` of the ways that are open.
pub open spec fn open_ways(ways: Seq<(bool, Seq<char>, Seq<char>)>, n: int) -> Fields
    decreases n,
{
    if n <= 0 || n > ways.len() {
        no_fields()
    } else if ways[n - 1].0 {
        open_ways(ways, n - 1).with(ways[n - 1].1, Tree::Text(ways[n - 1].2))
    } else {
        open_ways(ways, n - 1)
    }
}

/// What can be used under a policy.
pub open spec fn navigation_fields(p: Policy) -> Fields {
    open_ways(ways(p), ways(p).len() as int)
}

pub open spec fn way_views(list: Seq<(bool, &'static str, &'static str)>) -> Seq<(bool, Seq<char>, Seq<char>)> {
    Seq::new(list.len(), |i: int| (list[i].0, list[i].1@, list[i].2@))
}

fn gather_ways(list: &Vec<(bool, &'static str, &'static str)>) -> (r: Object)
    ensures
        fields(r@) == open_ways(way_views(list@), list@.len() as int),
{
    let ghost all = way_views(list@);
    let mut o = no_object();
    let mut i: usize = 0;
    while i < list.len()
        invariant
            i <= list@.len(),
            all == way_views(list@),
            fields(o@) == open_ways(all, i as int),
        decreases list@.len() - i,
    {
        assert(all[i as int] == (list@[i as int].0, list@[i as int].1@, list@[i as int].2@));
        if list[i].0 {
            set_field(&mut o, list[i].1, string(list[i].2));
        }
        i = i + 1;
    }
    o
}

/// How the policy is widened: from here, where its file can be written; else on
/// the host.
pub open spec fn access_fields(p: Policy) -> Fields {
    let note = if all_live(p, seq![Op::Edit]) && has_writable(p.file_ops_paths@) {
        NOTE_REMOTE@
    } else {
        NOTE_ON_HOST@
    };
    pair_fields(access_pairs(), access_pairs().len() as int).with("note"@, Tree::Text(note))
}

pub open spec fn playbooks_tree(p: Policy) -> Tree {
    Tree::Object(
        no_fields().with("what"@, Tree::Text("Named multi-step recipes declared by this host policy."@)).with(
            "names"@,
            text_list(names(p.playbooks@)),
        ).with("count"@, Tree::Number(Num::Pos(p.playbooks@.len() as u64))),
    )
}

fn playbooks_section(p: &Policy) -> (r: Json)
    ensures
        r@ == playbooks_tree(*p),
{
    broadcast use group_json_views;

    let mut o = no_object();
    set_field(&mut o, "what", string("Named multi-step recipes declared by this host policy."));
    set_field(&mut o, "names", strings(&name_list(&p.playbooks)));
    set_field(&mut o, "count", count(p.playbooks.len() as u64));
    Json::Object(o)
}

/// The whole help.
pub open spec fn full_help(d: CoreDispatcher) -> Fields {
    no_fields().with("agent"@, Tree::Text(AGENT_NAME@)).with("version"@, Tree::Text(d.agent_version@)).with(
        "host_label"@,
        text_or_null(opt_view(d.policy.hostname_label)),
    ).with("summary"@, Tree::Text(HELP_SUMMARY@)).with("security_model"@, pair_tree(security_pairs())).with(
        "operating_notes"@,
        text_list(operating_notes()),
    ).with("navigation"@, Tree::Object(navigation_fields(d.policy))).with(
        "extending_access"@,
        Tree::Object(access_fields(d.policy)),
    ).with("managing_hosts"@, pair_tree(managing_pairs())).with("playbooks"@, playbooks_tree(d.policy)).with(
        "policy"@,
        summary_tree(d.policy),
    ).with("examples"@, text_list(examples())).with("getting_started"@, Tree::Text(GETTING_STARTED@)).with(
        "resources"@,
        pair_tree(resource_pairs()),
    ).with("about"@, pair_tree(about_pairs()))
}

impl CoreDispatcher {
    /// Whether none of the operations is switched off.
    pub fn help_ops_live(&self, ops: &Vec<Op>) -> (r: bool)
        ensures
            r == all_live(self.policy, ops@),
    {
        let mut i: usize = 0;
        while i < ops.len()
            invariant
                i <= ops@.len(),
                forall|j: int| 0 <= j < i ==> !views(self.policy.disabled_ops@).contains(op_name(#[trigger] ops@[j])),
            decreases ops@.len() - i,
        {
            if crate::order::has(&self.policy.disabled_ops, ops[i].as_str()) {
                return false;
            }
            i = i + 1;
        }
        true
    }

    /// What can be used under the policy.
    pub fn help_navigation(&self) -> (r: Object)
        ensures
            fields(r@) == navigation_fields(self.policy),
    {
        let p = &self.policy;
        let readers: Vec<Op> = vec![Op::Read, Op::List, Op::Search];
        assert(readers@ =~= seq![Op::Read, Op::List, Op::Search]);
        let edit: Vec<Op> = vec![Op::Edit];
        assert(edit@ =~= seq![Op::Edit]);
        let movers: Vec<Op> = vec![Op::Move, Op::Copy, Op::Delete, Op::Chmod, Op::Chown];
        assert(movers@ =~= seq![Op::Move, Op::Copy, Op::Delete, Op::Chmod, Op::Chown]);
        let exec_op: Vec<Op> = vec![Op::Exec];
        assert(exec_op@ =~= seq![Op::Exec]);
        let script: Vec<Op> = vec![Op::ScriptRun];
        assert(script@ =~= seq![Op::ScriptRun]);
        let service: Vec<Op> = vec![Op::Service, Op::Restart];
        assert(service@ =~= seq![Op::Service, Op::Restart]);
        let upload: Vec<Op> = vec![Op::UploadFile, Op::UploadInit];
        assert(upload@ =~= seq![Op::UploadFile, Op::UploadInit]);
        let audit: Vec<Op> = vec![Op::ReadAudit];
        assert(audit@ =~= seq![Op::ReadAudit]);
        let list: Vec<(bool, &'static str, &'static str)> = vec![
            (true, "capabilities", "full policy: allowed paths (r/rw), commands, services, playbooks, limits"),
            (true, "state", "live host status (hostname, kernel, uptime, load)"),
            (self.help_ops_live(&readers) && p.file_ops_paths.len() > 0, "read / list / search", "inspect files under allowed paths"),
            (self.help_ops_live(&edit), "edit", "structured file edits; sudo=true for rw-gated or privileged writes"),
            (self.help_ops_live(&movers) && any_writable(&p.file_ops_paths), "move / copy / delete / chmod / chown", "mutate files under rw paths (never sudo)"),
            (self.help_ops_live(&exec_op) && p.allowed_commands.len() > 0, "exec", "run ONE allowlisted command (no pipes or redirects)"),
            (self.help_ops_live(&script), "script_run", "run a multi-step bash/python script for complex tasks"),
            (self.help_ops_live(&service) && p.services.len() > 0, "service / restart", "manage allowlisted services"),
            (self.help_ops_live(&upload), "upload_file / upload_init+chunk+complete", "get files onto the host"),
            (self.help_ops_live(&audit), "read_audit", "review this host's own recent operation log"),
            (p.playbooks.len() > 0, "playbooks", "guided multi-step recipes (see 'playbooks' in capabilities)"),
        ];
        assert(way_views(list@) =~= ways(self.policy));
        gather_ways(&list)
    }

    /// How the policy is widened.
    pub fn help_extending_access(&self) -> (r: Object)
        ensures
            fields(r@) == access_fields(self.policy),
    {
        let edit: Vec<Op> = vec![Op::Edit];
        assert(edit@ =~= seq![Op::Edit]);
        let pairs: Vec<(&'static str, &'static str)> = vec![
            (
                "read_or_write_directory",
                "Add an entry under file_ops.paths with access 'r' or 'rw' covering a parent directory, then reload the agent; or use the configured add_allowed_read_path playbook when available.",
            ),
            (
                "command",
                "Add the command under allowed_commands, then reload; or use the configured add_allowed_command playbook when available.",
            ),
            (
                "service",
                "Add the service and allowed actions under services, then reload; or use the configured add_service playbook when available.",
            ),
            (
                "how_to_edit_config",
                "Config changes require operator approval: back up config.yaml, make the narrow change, validate it, then reload the agent.",
            ),
        ];
        assert(str_pairs(pairs@) =~= access_pairs());
        let mut o = pair_object(&pairs);
        let note = if self.help_ops_live(&edit) && any_writable(&self.policy.file_ops_paths) {
            NOTE_REMOTE
        } else {
            NOTE_ON_HOST
        };
        set_field(&mut o, "note", string(note));
        o
    }

    fn full_help_object(&self) -> (r: Object)
        requires
            self.policy.locations@.len() < u64::MAX,
        ensures
            fields(r@) == full_help(*self),
    {
        broadcast use group_json_views;

        let label = match &self.policy.hostname_label {
            Some(l) => string(l),
            None => Json::Null,
        };
        let mut o = no_object();
        set_field(&mut o, "agent", string(AGENT_NAME));
        set_field(&mut o, "version", string(&self.agent_version));
        set_field(&mut o, "host_label", label);
        set_field(&mut o, "summary", string(HELP_SUMMARY));
        set_field(&mut o, "security_model", security_model_section());
        set_field(&mut o, "operating_notes", operating_notes_section());
        set_field(&mut o, "navigation", Json::Object(self.help_navigation()));
        set_field(&mut o, "extending_access", Json::Object(self.help_extending_access()));
        set_field(&mut o, "managing_hosts", managing_hosts_section());
        set_field(&mut o, "playbooks", playbooks_section(&self.policy));
        set_field(&mut o, "policy", policy_summary(&self.policy));
        set_field(&mut o, "examples", examples_section());
        set_field(&mut o, "getting_started", string(GETTING_STARTED));
        set_field(&mut o, "resources", resources_section());
        set_field(&mut o, "about", about_section());
        o
    }

    /// The help that a payload asks for.
    pub fn help(&self, payload: &Object) -> (r: HandlerResult)
        requires
            self.policy.locations@.len() < u64::MAX,
        ensures
            outcome(r) == help_selected(fields(payload@), full_help(*self), book_fields(self.policy.playbooks@)),
    {
        select_help_response(payload, self.full_help_object(), &self.policy.playbooks)
    }
}

proof fn lemma_ways_found(ways: Seq<(bool, Seq<char>, Seq<char>)>, n: int, i: int)
    requires
        0 <= i < ways.len(),
        0 <= n <= ways.len(),
        forall|j: int, k: int| 0 <= j < k < ways.len() ==> (#[trigger] ways[j]).1 != (#[trigger] ways[k]).1,
    ensures
        get(open_ways(ways, n), ways[i].1) == if i < n && ways[i].0 {
            Some(Tree::Text(ways[i].2))
        } else {
            None
        },
    decreases n,
{
    broadcast use lemma_get_put;

    if n > 0 {
        lemma_ways_found(ways, n - 1, i);
        if i < n - 1 {
            assert(ways[i].1 != ways[n - 1].1);
        } else if i > n - 1 {
            assert(ways[n - 1].1 != ways[i].1);
        }
    }
}

/// A way to use the agent is shown exactly where the policy leaves it open.
pub proof fn open_ways_are_shown(p: Policy)
    ensures
        ({
            let shown = navigation_fields(p);
            let disabled = views(p.disabled_ops@);
            &&& get(shown, "capabilities"@) is Some && get(shown, "state"@) is Some
            &&& get(shown, "edit"@) is Some <==> !disabled.contains("edit"@)
            &&& get(shown, "exec"@) is Some <==> !disabled.contains("exec"@) && p.allowed_commands@.len() > 0
            &&& get(shown, "script_run"@) is Some <==> !disabled.contains("script_run"@)
            &&& get(shown, "read_audit"@) is Some <==> !disabled.contains("read_audit"@)
            &&& get(shown, "playbooks"@) is Some <==> p.playbooks@.len() > 0
            &&& get(shown, "read / list / search"@) is Some <==> !disabled.contains("read"@) && !disabled.contains("list"@)
                && !disabled.contains("search"@) && p.file_ops_paths@.len() > 0
            &&& get(shown, "service / restart"@) is Some <==> !disabled.contains("service"@) && !disabled.contains("restart"@)
                && p.services@.len() > 0
            &&& get(shown, "move / copy / delete / chmod / chown"@) is Some ==> exists|i: int|
                0 <= i < p.file_ops_paths@.len() && (#[trigger] p.file_ops_paths@[i]).access == FileAccess::ReadWrite
        }),
{
    reveal_strlit("capabilities");
    reveal_strlit("state");
    reveal_strlit("read / list / search");
    reveal_strlit("edit");
    reveal_strlit("move / copy / delete / chmod / chown");
    reveal_strlit("exec");
    reveal_strlit("script_run");
    reveal_strlit("service / restart");
    reveal_strlit("upload_file / upload_init+chunk+complete");
    reveal_strlit("read_audit");
    reveal_strlit("playbooks");
    assert("capabilities"@.len() == 12 && "state"@.len() == 5 && "read / list / search"@.len() == 20
        && "edit"@.len() == 4 && "move / copy / delete / chmod / chown"@.len() == 36 && "exec"@.len() == 4
        && "script_run"@.len() == 10 && "service / restart"@.len() == 17
        && "upload_file / upload_init+chunk+complete"@.len() == 40 && "read_audit"@.len() == 10
        && "playbooks"@.len() == 9 && "edit"@[1] == 'd' && "exec"@[1] == 'x' && "script_run"@[0] == 's'
        && "read_audit"@[0] == 'r');
    let w = ways(p);
    let n = w.len() as int;
    assert(n == 11);
    lemma_ways_found(w, n, 0);
    lemma_ways_found(w, n, 1);
    lemma_ways_found(w, n, 2);
    lemma_ways_found(w, n, 3);
    lemma_ways_found(w, n, 4);
    lemma_ways_found(w, n, 5);
    lemma_ways_found(w, n, 6);
    lemma_ways_found(w, n, 7);
    lemma_ways_found(w, n, 9);
    lemma_ways_found(w, n, 10);
    assert(seq![Op::Edit][0] == Op::Edit);
    assert(seq![Op::Exec][0] == Op::Exec);
    assert(seq![Op::ScriptRun][0] == Op::ScriptRun);
    assert(seq![Op::ReadAudit][0] == Op::ReadAudit);
    let r = seq![Op::Read, Op::List, Op::Search];
    assert(r[0] == Op::Read && r[1] == Op::List && r[2] == Op::Search);
    let s = seq![Op::Service, Op::Restart];
    assert(s[0] == Op::Service && s[1] == Op::Restart);
}

/// Access can be extended remotely exactly where a file may be edited and a path written to.
pub proof fn extensions_are_told(p: Policy)
    ensures
        get(access_fields(p), "note"@) == Some(
            Tree::Text(
                if !views(p.disabled_ops@).contains("edit"@) && (exists|i: int|
                    0 <= i < p.file_ops_paths@.len() && (#[trigger] p.file_ops_paths@[i]).access == FileAccess::ReadWrite) {
                    NOTE_REMOTE@
                } else {
                    NOTE_ON_HOST@
                },
            ),
        ),
{
    broadcast use lemma_get_put;

    assert(seq![Op::Edit][0] == Op::Edit);
}

} // verus!
