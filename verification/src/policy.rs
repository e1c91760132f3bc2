//! What an agent may do on its host, as its configuration says.

use crate::json::Json;
use crate::message::ConfigSummary;
use crate::order::{is_less, join, joined, placing_keeps_strict_order, strictly_ascending};
use crate::paths::{is_under, under};
use crate::text::{
    blank, cat2, cat4, cat5, debug_text, is_blank, opt_view, prefixed, quoted, same, starts_with, trim, trimmed, views,
};
use vstd::prelude::*;

verus! {

#[derive(Debug, Clone, Copy, PartialEq, Eq, Structural)]
pub enum FileAccess {
    Read,
    ReadWrite,
}

/// A directory or file that is open to file operations.
#[derive(Debug, Clone, PartialEq, Eq)]
pub struct FileOpsPath {
    pub path: String,
    pub access: FileAccess,
}

/// A service that may be controlled.
#[derive(Debug, Clone, PartialEq, Eq)]
pub struct ServiceSpec {
    pub unit: String,
    pub actions: Vec<String>,
    pub requires_sudo: bool,
    pub description: String,
    pub domain: String,
    pub backend: String,
}

/// The names of named things.
pub open spec fn names<T>(list: Seq<(String, T)>) -> Seq<Seq<char>> {
    Seq::new(list.len(), |i: int| list[i].0@)
}

/// What an agent may do. A named piece of configuration is nothing where it has no
/// form in JSON.
#[derive(Debug, PartialEq, Eq)]
pub struct Policy {
    pub exec_strict: bool,
    pub disabled_ops: Vec<String>,
    pub allowed_commands: Vec<String>,
    pub services: Vec<(String, ServiceSpec)>,
    pub playbooks: Vec<(String, Option<Json>)>,
    pub hostname_label: Option<String>,
    pub preferred_profile: Option<String>,
    pub exec_timeout_default: u64,
    pub exec_timeout_max: u64,
    pub upload_base: String,
    pub trusted_fetch_hosts: Vec<String>,
    pub file_url_timeout_seconds: u64,
    pub file_ops_paths: Vec<FileOpsPath>,
    pub file_ops_max_read_bytes: usize,
    pub file_ops_max_list_entries: usize,
    pub file_ops_max_search_results: usize,
    pub local_apis: Vec<(String, Option<Json>)>,
    pub locations: Vec<(String, Option<Json>)>,
}

impl Policy {
    /// Names come in ascending order, each once.
    pub open spec fn well_formed(self) -> bool {
        &&& strictly_ascending(views(self.disabled_ops@))
        &&& strictly_ascending(names(self.services@))
        &&& strictly_ascending(names(self.playbooks@))
        &&& strictly_ascending(names(self.local_apis@))
        &&& strictly_ascending(names(self.locations@))
    }
}

pub const DEFAULT_EXEC_TIMEOUT: u64 = 60;

pub const DEFAULT_EXEC_TIMEOUT_MAX: u64 = 600;

pub const DEFAULT_UPLOAD_BASE: &'static str = "/var/lib/sentinelx/uploads";

pub const DEFAULT_FETCH_TIMEOUT: u64 = 15;

pub const DEFAULT_MAX_READ_BYTES: usize = 65_536;

pub const DEFAULT_MAX_LIST_ENTRIES: usize = 1_000;

pub const DEFAULT_MAX_SEARCH_RESULTS: usize = 200;

impl Default for Policy {
    fn default() -> (r: Self)
        ensures
            r.well_formed(),
            !r.exec_strict,
            r.disabled_ops@.len() == 0,
            r.allowed_commands@.len() == 0,
            r.services@.len() == 0,
            r.playbooks@.len() == 0,
            r.hostname_label is None,
            r.preferred_profile is None,
            r.exec_timeout_default == DEFAULT_EXEC_TIMEOUT,
            r.exec_timeout_max == DEFAULT_EXEC_TIMEOUT_MAX,
            r.upload_base@ == DEFAULT_UPLOAD_BASE@,
            r.trusted_fetch_hosts@.len() == 0,
            r.file_url_timeout_seconds == DEFAULT_FETCH_TIMEOUT,
            r.file_ops_paths@.len() == 0,
            r.file_ops_max_read_bytes == DEFAULT_MAX_READ_BYTES,
            r.file_ops_max_list_entries == DEFAULT_MAX_LIST_ENTRIES,
            r.file_ops_max_search_results == DEFAULT_MAX_SEARCH_RESULTS,
            r.local_apis@.len() == 0,
            r.locations@.len() == 0,
    {
        Policy {
            exec_strict: false,
            disabled_ops: Vec::new(),
            allowed_commands: Vec::new(),
            services: Vec::new(),
            playbooks: Vec::new(),
            hostname_label: None,
            preferred_profile: None,
            exec_timeout_default: DEFAULT_EXEC_TIMEOUT,
            exec_timeout_max: DEFAULT_EXEC_TIMEOUT_MAX,
            upload_base: DEFAULT_UPLOAD_BASE.to_owned(),
            trusted_fetch_hosts: Vec::new(),
            file_url_timeout_seconds: DEFAULT_FETCH_TIMEOUT,
            file_ops_paths: Vec::new(),
            file_ops_max_read_bytes: DEFAULT_MAX_READ_BYTES,
            file_ops_max_list_entries: DEFAULT_MAX_LIST_ENTRIES,
            file_ops_max_search_results: DEFAULT_MAX_SEARCH_RESULTS,
            local_apis: Vec::new(),
            locations: Vec::new(),
        }
    }
}

/// Why a configuration is not taken.
#[derive(Debug, PartialEq, Eq)]
pub enum PolicyError {
    Read { path: String, reason: String },
    Parse { path: String, reason: String },
    KnownTypo { key: String, suggestion: &'static str },
}

impl PolicyError {
    pub open spec fn text(self) -> Seq<char> {
        match self {
            PolicyError::Read { path, reason } => "could not read policy "@ + path@ + ": "@ + reason@,
            PolicyError::Parse { path, reason } => "could not parse policy "@ + path@ + ": "@ + reason@,
            PolicyError::KnownTypo { key, suggestion } => "config.yaml contains key "@ + debug_text(key@) + "; did you mean "@
                + debug_text(suggestion@) + "?"@,
        }
    }

    pub fn message(&self) -> (r: String)
        ensures
            r@ == self.text(),
    {
        match self {
            PolicyError::Read { path, reason } => cat4("could not read policy ", path, ": ", reason),
            PolicyError::Parse { path, reason } => cat4("could not parse policy ", path, ": ", reason),
            PolicyError::KnownTypo { key, suggestion } => cat5(
                "config.yaml contains key ",
                &quoted(key),
                "; did you mean ",
                &quoted(suggestion),
                "?",
            ),
        }
    }
}

/// A configuration as it was read; `unknown` holds the keys that are not part of
/// one.
#[derive(Debug, PartialEq, Eq)]
pub struct RawPolicy {
    pub hostname_label: Option<String>,
    pub preferred_profile: Option<String>,
    pub timeout_default: u64,
    pub timeout_max: u64,
    pub allowed_commands: Vec<String>,
    pub services: Vec<(String, RawService)>,
    pub locations: Vec<(String, Option<Json>)>,
    pub playbooks: Vec<(String, Option<Json>)>,
    pub upload_base: Option<String>,
    pub trusted_fetch_hosts: Vec<String>,
    pub file_url_timeout_seconds: u64,
    pub paths: Option<Vec<RawFilePath>>,
    pub allowed_read_paths: Option<Vec<String>>,
    pub max_read_bytes: usize,
    pub max_list_entries: usize,
    pub max_search_results: usize,
    pub local_apis: Vec<(String, Option<Json>)>,
    pub disabled_ops: Vec<String>,
    pub exec_strict: bool,
    pub unknown: Vec<String>,
}

impl RawPolicy {
    /// Names come in ascending order, each once.
    pub open spec fn well_formed(self) -> bool {
        &&& strictly_ascending(names(self.services@))
        &&& strictly_ascending(names(self.playbooks@))
        &&& strictly_ascending(names(self.local_apis@))
        &&& strictly_ascending(names(self.locations@))
    }
}

/// An entry of the file-operation paths: a path alone, or one with its access.
#[derive(Debug, PartialEq, Eq)]
pub enum RawFilePath {
    Path(String),
    Detailed { path: String, access: Option<String> },
}

#[derive(Debug, PartialEq, Eq)]
pub struct RawService {
    pub unit: Option<String>,
    pub actions: Vec<String>,
    pub requires_sudo: bool,
    pub description: String,
    pub domain: String,
    pub backend: String,
}

impl Default for RawService {
    fn default() -> (r: Self)
        ensures
            r.unit is None,
            r.actions@.len() == 0,
            r.requires_sudo,
            r.description@ == ""@,
            r.domain@ == "system"@,
            r.backend@ == "service"@,
    {
        RawService {
            unit: None,
            actions: Vec::new(),
            requires_sudo: true,
            description: "".to_owned(),
            domain: "system".to_owned(),
            backend: "service".to_owned(),
        }
    }
}

impl Default for RawPolicy {
    fn default() -> (r: Self)
        ensures
            r.well_formed(),
            r.hostname_label is None,
            r.preferred_profile is None,
            r.timeout_default == DEFAULT_EXEC_TIMEOUT,
            r.timeout_max == DEFAULT_EXEC_TIMEOUT_MAX,
            r.allowed_commands@.len() == 0,
            r.services@.len() == 0,
            r.locations@.len() == 0,
            r.playbooks@.len() == 0,
            r.upload_base is None,
            r.trusted_fetch_hosts@.len() == 0,
            r.file_url_timeout_seconds == DEFAULT_FETCH_TIMEOUT,
            r.paths is None,
            r.allowed_read_paths is None,
            r.max_read_bytes == DEFAULT_MAX_READ_BYTES,
            r.max_list_entries == DEFAULT_MAX_LIST_ENTRIES,
            r.max_search_results == DEFAULT_MAX_SEARCH_RESULTS,
            r.local_apis@.len() == 0,
            r.disabled_ops@.len() == 0,
            !r.exec_strict,
            r.unknown@.len() == 0,
    {
        RawPolicy {
            hostname_label: None,
            preferred_profile: None,
            timeout_default: DEFAULT_EXEC_TIMEOUT,
            timeout_max: DEFAULT_EXEC_TIMEOUT_MAX,
            allowed_commands: Vec::new(),
            services: Vec::new(),
            locations: Vec::new(),
            playbooks: Vec::new(),
            upload_base: None,
            trusted_fetch_hosts: Vec::new(),
            file_url_timeout_seconds: DEFAULT_FETCH_TIMEOUT,
            paths: None,
            allowed_read_paths: None,
            max_read_bytes: DEFAULT_MAX_READ_BYTES,
            max_list_entries: DEFAULT_MAX_LIST_ENTRIES,
            max_search_results: DEFAULT_MAX_SEARCH_RESULTS,
            local_apis: Vec::new(),
            disabled_ops: Vec::new(),
            exec_strict: false,
            unknown: Vec::new(),
        }
    }
}

/// Keys that are mistaken for others, with the key that is meant.
pub open spec fn typo_hints() -> Seq<(Seq<char>, Seq<char>)> {
    seq![
        ("allow"@, "allowed_commands"@),
        ("allowedCommands"@, "allowed_commands"@),
        ("commands"@, "allowed_commands"@),
        ("service"@, "services"@),
        ("location"@, "locations"@),
        ("playbook"@, "playbooks"@),
        ("hub"@, "hub_url"@),
    ]
}

/// The first hint from `n` on whose key is among `keys`.
pub open spec fn first_typo(keys: Seq<Seq<char>>, n: int) -> Option<(Seq<char>, Seq<char>)>
    decreases typo_hints().len() - n,
{
    if n < 0 || n >= typo_hints().len() {
        None
    } else if keys.contains(typo_hints()[n].0) {
        Some(typo_hints()[n])
    } else {
        first_typo(keys, n + 1)
    }
}

fn find_typo(keys: &Vec<String>) -> (r: Option<(&'static str, &'static str)>)
    ensures
        match r {
            Some(h) => first_typo(views(keys@), 0) == Some((h.0@, h.1@)),
            None => first_typo(views(keys@), 0) is None,
        },
{
    let hints: Vec<(&'static str, &'static str)> = vec![
        ("allow", "allowed_commands"),
        ("allowedCommands", "allowed_commands"),
        ("commands", "allowed_commands"),
        ("service", "services"),
        ("location", "locations"),
        ("playbook", "playbooks"),
        ("hub", "hub_url"),
    ];
    let mut n: usize = 0;
    while n < hints.len()
        invariant
            n <= hints@.len(),
            hints@.len() == typo_hints().len(),
            forall|i: int| 0 <= i < hints@.len() ==> #[trigger] typo_hints()[i] == (hints@[i].0@, hints@[i].1@),
            first_typo(views(keys@), n as int) == first_typo(views(keys@), 0),
        decreases hints@.len() - n,
    {
        assert(typo_hints()[n as int] == (hints@[n as int].0@, hints@[n as int].1@));
        if crate::order::has(keys, hints[n].0) {
            return Some(hints[n]);
        }
        n = n + 1;
    }
    None
}

/// What an entry of the paths opens; a blank path opens nothing.
pub open spec fn opened(entry: RawFilePath) -> Option<(Seq<char>, FileAccess)> {
    let (path, access) = match entry {
        RawFilePath::Path(path) => (path@, FileAccess::Read),
        RawFilePath::Detailed { path, access } => (
            path@,
            if opt_view(access) == Some("rw"@) {
                FileAccess::ReadWrite
            } else {
                FileAccess::Read
            },
        ),
    };
    if blank(path) {
        None
    } else {
        Some((path, access))
    }
}

pub open spec fn opened_by(entries: Seq<RawFilePath>) -> Seq<(Seq<char>, FileAccess)>
    decreases entries.len(),
{
    if entries.len() == 0 {
        Seq::empty()
    } else {
        match opened(entries.last()) {
            Some(p) => opened_by(entries.drop_last()).push(p),
            None => opened_by(entries.drop_last()),
        }
    }
}

/// What a list of paths opens for reading.
pub open spec fn readable(paths: Seq<Seq<char>>) -> Seq<(Seq<char>, FileAccess)>
    decreases paths.len(),
{
    if paths.len() == 0 {
        Seq::empty()
    } else if blank(paths.last()) {
        readable(paths.drop_last())
    } else {
        readable(paths.drop_last()).push((paths.last(), FileAccess::Read))
    }
}

/// The paths that a configuration opens: its `paths` where it has them, else what
/// it lists for reading.
pub open spec fn opened_paths(raw: RawPolicy) -> Seq<(Seq<char>, FileAccess)> {
    match raw.paths {
        Some(entries) => opened_by(entries@),
        None => match raw.allowed_read_paths {
            Some(paths) => readable(views(paths@)),
            None => Seq::empty(),
        },
    }
}

pub open spec fn path_views(paths: Seq<FileOpsPath>) -> Seq<(Seq<char>, FileAccess)> {
    Seq::new(paths.len(), |i: int| (paths[i].path@, paths[i].access))
}

fn open_entries(entries: Vec<RawFilePath>) -> (r: Vec<FileOpsPath>)
    ensures
        path_views(r@) == opened_by(entries@),
{
    let mut r: Vec<FileOpsPath> = Vec::new();
    let mut i: usize = 0;
    assert(path_views(r@) =~= opened_by(entries@.take(0)));
    while i < entries.len()
        invariant
            i <= entries@.len(),
            path_views(r@) == opened_by(entries@.take(i as int)),
        decreases entries@.len() - i,
    {
        let ghost now = entries@.take(i + 1);
        assert(now.drop_last() =~= entries@.take(i as int));
        assert(now.last() == entries@[i as int]);
        let (path, access) = match &entries[i] {
            RawFilePath::Path(path) => (path.clone(), FileAccess::Read),
            RawFilePath::Detailed { path, access } => {
                let rw = match access {
                    Some(a) => same(a, "rw"),
                    None => false,
                };
                (
                    path.clone(),
                    if rw {
                        FileAccess::ReadWrite
                    } else {
                        FileAccess::Read
                    },
                )
            },
        };
        if !is_blank(&path) {
            let ghost before = path_views(r@);
            r.push(FileOpsPath { path, access });
            assert(path_views(r@) =~= before.push((path@, access)));
        }
        i = i + 1;
    }
    assert(entries@.take(i as int) =~= entries@);
    r
}

fn open_for_reading(paths: Vec<String>) -> (r: Vec<FileOpsPath>)
    ensures
        path_views(r@) == readable(views(paths@)),
{
    let mut r: Vec<FileOpsPath> = Vec::new();
    let mut i: usize = 0;
    assert(path_views(r@) =~= readable(views(paths@).take(0)));
    while i < paths.len()
        invariant
            i <= paths@.len(),
            path_views(r@) == readable(views(paths@).take(i as int)),
        decreases paths@.len() - i,
    {
        let ghost now = views(paths@).take(i + 1);
        assert(now.drop_last() =~= views(paths@).take(i as int));
        if !is_blank(&paths[i]) {
            let ghost before = path_views(r@);
            r.push(FileOpsPath { path: paths[i].clone(), access: FileAccess::Read });
            assert(path_views(r@) =~= before.push((paths@[i as int]@, FileAccess::Read)));
        }
        i = i + 1;
    }
    assert(views(paths@).take(i as int) =~= views(paths@));
    r
}

/// `names` in ascending order, each once, with `x` among them.
pub open spec fn joined_by(names: Seq<Seq<char>>, x: Seq<char>) -> Seq<Seq<char>> {
    if names.contains(x) {
        names
    } else {
        crate::order::placed(names, x)
    }
}

/// The names in a list, trimmed, without blanks, in ascending order, each once.
pub open spec fn name_set(list: Seq<Seq<char>>) -> Seq<Seq<char>>
    decreases list.len(),
{
    if list.len() == 0 {
        Seq::empty()
    } else if blank(list.last()) {
        name_set(list.drop_last())
    } else {
        joined_by(name_set(list.drop_last()), trimmed(list.last()))
    }
}

/// A name is in the set exactly where it is one of the list, trimmed and not blank.
pub proof fn name_set_holds(list: Seq<Seq<char>>, x: Seq<char>)
    ensures
        name_set(list).contains(x) <==> exists|i: int|
            0 <= i < list.len() && !blank(list[i]) && trimmed(#[trigger] list[i]) == x,
    decreases list.len(),
{
    if list.len() > 0 {
        let rest = list.drop_last();
        name_set_holds(rest, x);
        let y = trimmed(list.last());
        let s = name_set(rest);
        if !blank(list.last()) && !s.contains(y) {
            crate::order::lemma_rank(s, y);
            let k = crate::order::rank(s, y);
            let p = crate::order::placed(s, y);
            assert(p[k] == y);
            if s.contains(x) {
                let i = choose|i: int| 0 <= i < s.len() && s[i] == x;
                assert(p[if i < k {
                    i
                } else {
                    i + 1
                }] == x);
            }
            if p.contains(x) && x != y {
                let i = choose|i: int| 0 <= i < p.len() && p[i] == x;
                assert(s[if i < k {
                    i
                } else {
                    i - 1
                }] == x);
            }
        }
        if name_set(list).contains(x) {
            if !blank(list.last()) && x == y {
                assert(list[list.len() - 1] == list.last());
            } else {
                let i = choose|i: int| 0 <= i < rest.len() && !blank(rest[i]) && trimmed(#[trigger] rest[i]) == x;
                assert(list[i] == rest[i]);
            }
        }
        if exists|i: int| 0 <= i < list.len() && !blank(list[i]) && trimmed(#[trigger] list[i]) == x {
            let i = choose|i: int| 0 <= i < list.len() && !blank(list[i]) && trimmed(#[trigger] list[i]) == x;
            if i < rest.len() {
                assert(rest[i] == list[i]);
            }
        }
    }
}

/// The set's names come in ascending order, each once.
pub proof fn name_set_is_ordered(list: Seq<Seq<char>>)
    ensures
        strictly_ascending(name_set(list)),
    decreases list.len(),
{
    if list.len() > 0 {
        name_set_is_ordered(list.drop_last());
        let s = name_set(list.drop_last());
        let x = trimmed(list.last());
        if !s.contains(x) {
            placing_keeps_strict_order(s, x);
        }
    }
}

fn gather_names(list: Vec<String>) -> (r: Vec<String>)
    ensures
        views(r@) == name_set(views(list@)),
{
    let mut r: Vec<String> = Vec::new();
    let mut i: usize = 0;
    assert(views(r@) =~= name_set(views(list@).take(0)));
    while i < list.len()
        invariant
            i <= list@.len(),
            views(r@) == name_set(views(list@).take(i as int)),
        decreases list@.len() - i,
    {
        let ghost now = views(list@).take(i + 1);
        assert(now.drop_last() =~= views(list@).take(i as int));
        let name = trim(&list[i]);
        if !name.as_str().is_empty() && !crate::order::has(&r, &name) {
            let ghost before = views(r@);
            let mut k: usize = 0;
            assert(before.skip(0) =~= before);
            while k < r.len() && !is_less(&name, &r[k])
                invariant
                    k <= r@.len(),
                    before == views(r@),
                    k + crate::order::rank(before.skip(k as int), name@) == crate::order::rank(before, name@),
                decreases r@.len() - k,
            {
                assert(before.skip(k as int)[0] == r@[k as int]@);
                assert(before.skip(k as int).drop_first() =~= before.skip(k + 1));
                k = k + 1;
            }
            proof {
                if k < r@.len() {
                    assert(before.skip(k as int)[0] == r@[k as int]@);
                }
            }
            r.insert(k, name);
            assert(views(r@) =~= crate::order::placed(before, name@));
        }
        i = i + 1;
    }
    assert(views(list@).take(i as int) =~= views(list@));
    r
}

/// The profile that a configuration prefers, where it names one.
pub open spec fn profile_of(raw: Option<Seq<char>>) -> Option<Seq<char>> {
    if raw == Some("compact"@) || raw == Some("full"@) {
        raw
    } else {
        None
    }
}

/// A service under its name; its unit is the name where none is given.
pub open spec fn service_like(name: Seq<char>, raw: RawService, s: (String, ServiceSpec)) -> bool {
    &&& s.0@ == name
    &&& s.1.unit@ == match raw.unit {
        Some(unit) => unit@,
        None => name,
    }
    &&& views(s.1.actions@) == views(raw.actions@)
    &&& s.1.requires_sudo == raw.requires_sudo
    &&& s.1.description@ == raw.description@
    &&& s.1.domain@ == raw.domain@
    &&& s.1.backend@ == raw.backend@
}

fn copy_services(raw: &Vec<(String, RawService)>) -> (r: Vec<(String, ServiceSpec)>)
    ensures
        r@.len() == raw@.len(),
        forall|i: int| 0 <= i < raw@.len() ==> service_like(raw@[i].0@, raw@[i].1, #[trigger] r@[i]),
{
    let mut r: Vec<(String, ServiceSpec)> = Vec::new();
    let mut i: usize = 0;
    while i < raw.len()
        invariant
            i <= raw@.len(),
            r@.len() == i,
            forall|j: int| 0 <= j < i ==> service_like(raw@[j].0@, raw@[j].1, #[trigger] r@[j]),
        decreases raw@.len() - i,
    {
        let (name, service) = &raw[i];
        let unit = match &service.unit {
            Some(unit) => unit.clone(),
            None => name.clone(),
        };
        r.push(
            (
                name.clone(),
                ServiceSpec {
                    unit,
                    actions: crate::text::copy_texts(&service.actions),
                    requires_sudo: service.requires_sudo,
                    description: service.description.clone(),
                    domain: service.domain.clone(),
                    backend: service.backend.clone(),
                },
            ),
        );
        i = i + 1;
    }
    r
}

/// The policy that a configuration is, `upload_base` being where uploads go.
pub open spec fn policy_like(raw: RawPolicy, upload_base: Seq<char>, p: Policy) -> bool {
    &&& p.exec_strict == raw.exec_strict
    &&& views(p.disabled_ops@) == name_set(views(raw.disabled_ops@))
    &&& p.allowed_commands == raw.allowed_commands
    &&& p.services@.len() == raw.services@.len()
    &&& forall|i: int|
        0 <= i < raw.services@.len() ==> service_like(raw.services@[i].0@, raw.services@[i].1, #[trigger] p.services@[i])
    &&& p.playbooks == raw.playbooks
    &&& p.hostname_label == raw.hostname_label
    &&& opt_view(p.preferred_profile) == profile_of(opt_view(raw.preferred_profile))
    &&& p.exec_timeout_default == raw.timeout_default
    &&& p.exec_timeout_max == raw.timeout_max
    &&& p.upload_base@ == upload_base
    &&& p.trusted_fetch_hosts == raw.trusted_fetch_hosts
    &&& p.file_url_timeout_seconds == raw.file_url_timeout_seconds
    &&& path_views(p.file_ops_paths@) == opened_paths(raw)
    &&& p.file_ops_max_read_bytes == raw.max_read_bytes
    &&& p.file_ops_max_list_entries == raw.max_list_entries
    &&& p.file_ops_max_search_results == raw.max_search_results
    &&& p.local_apis == raw.local_apis
    &&& p.locations == raw.locations
}

/// What the host's file system says of a path and of the paths of a policy: each
/// as an absolute path without links, or nothing where it cannot be resolved.
#[derive(Debug, PartialEq, Eq)]
pub struct Resolution {
    pub candidate: Option<String>,
    pub allowed: Vec<Option<String>>,
}

/// Whether the `i`-th path of the policy opens `candidate`.
pub open spec fn grants(p: Policy, i: int, candidate: Seq<char>, need_write: bool, seen: Resolution) -> bool {
    &&& 0 <= i < p.file_ops_paths@.len()
    &&& i < seen.allowed@.len()
    &&& !need_write || p.file_ops_paths@[i].access == FileAccess::ReadWrite
    &&& seen.allowed@[i] matches Some(base) && under(candidate, base@)
}

/// The path that may be used, where one of the policy's paths opens it.
pub open spec fn resolved(p: Policy, path: Seq<char>, need_write: bool, seen: Resolution) -> Option<Seq<char>> {
    match seen.candidate {
        Some(c) => if path.len() > 0 && exists|i: int| #[trigger] grants(p, i, c@, need_write, seen) {
            Some(c@)
        } else {
            None
        },
        None => None,
    }
}

/// How many of the paths are open for writing.
pub open spec fn writable_count(paths: Seq<FileOpsPath>) -> nat
    decreases paths.len(),
{
    if paths.len() == 0 {
        0
    } else {
        writable_count(paths.drop_last()) + if paths.last().access == FileAccess::ReadWrite {
            1nat
        } else {
            0nat
        }
    }
}

/// One of the allowed beginnings is that of the command.
pub open spec fn allowed_command(allowed: Seq<Seq<char>>, command: Seq<char>) -> bool {
    let c = trimmed(command);
    c.len() > 0 && exists|i: int| 0 <= i < allowed.len() && prefixed(c, #[trigger] allowed[i])
}

/// Where `name` first stands among named things, or their number.
pub open spec fn named_at<T>(list: Seq<(String, T)>, name: Seq<char>) -> int
    decreases list.len(),
{
    if list.len() == 0 || list[0].0@ == name {
        0
    } else {
        1 + named_at(list.drop_first(), name)
    }
}

proof fn lemma_named_at_is<T>(list: Seq<(String, T)>, name: Seq<char>, p: int)
    requires
        0 <= p <= list.len(),
        p < list.len() ==> list[p].0@ == name,
        forall|i: int| 0 <= i < p ==> #[trigger] list[i].0@ != name,
    ensures
        named_at(list, name) == p,
    decreases list.len(),
{
    if list.len() > 0 && p > 0 {
        assert(list[0].0@ != name);
        assert forall|i: int| 0 <= i < p - 1 implies #[trigger] list.drop_first()[i].0@ != name by {
            assert(list[i + 1].0@ != name);
        }
        lemma_named_at_is(list.drop_first(), name, p - 1);
    }
}

/// Where `name` first stands among named things, or their number.
pub fn find_named<T>(list: &Vec<(String, T)>, name: &str) -> (r: usize)
    ensures
        r == named_at(list@, name@),
        r <= list@.len(),
        r < list@.len() ==> list@[r as int].0@ == name@,
{
    let mut i: usize = 0;
    while i < list.len()
        invariant
            i <= list@.len(),
            forall|j: int| 0 <= j < i ==> #[trigger] list@[j].0@ != name@,
        decreases list@.len() - i,
    {
        if same(&list[i].0, name) {
            proof {
                lemma_named_at_is(list@, name@, i as int);
            }
            return i;
        }
        i = i + 1;
    }
    proof {
        lemma_named_at_is(list@, name@, i as int);
    }
    i
}

/// The names of named things.
pub fn name_list<T>(list: &Vec<(String, T)>) -> (r: Vec<String>)
    ensures
        views(r@) == names(list@),
{
    let mut r: Vec<String> = Vec::new();
    let mut i: usize = 0;
    while i < list.len()
        invariant
            i <= list@.len(),
            r@.len() == i,
            forall|j: int| 0 <= j < i ==> (#[trigger] r@[j])@ == list@[j].0@,
        decreases list@.len() - i,
    {
        r.push(list[i].0.clone());
        i = i + 1;
    }
    assert(views(r@) =~= names(list@));
    r
}

/// A remark for each of the paths that opens nothing.
pub open spec fn path_remarks(entries: Seq<RawFilePath>) -> Seq<Seq<char>>
    decreases entries.len(),
{
    if entries.len() == 0 {
        Seq::empty()
    } else if opened(entries.last()) is None {
        path_remarks(entries.drop_last()).push("invalid empty file_ops path entry skipped"@)
    } else {
        path_remarks(entries.drop_last())
    }
}

/// A remark where it is due.
pub open spec fn remark(due: bool, text: Seq<char>) -> Seq<Seq<char>> {
    if due {
        seq![text]
    } else {
        Seq::empty()
    }
}

/// What is odd about a configuration, though it is taken.
pub open spec fn remarks_on(raw: RawPolicy) -> Seq<Seq<char>> {
    remark(
        raw.unknown@.len() > 0,
        "policy contains unknown top-level keys: "@ + joined(views(raw.unknown@), ", "@),
    ) + match raw.paths {
        Some(entries) => remark(
            raw.allowed_read_paths matches Some(paths) && paths@.len() > 0,
            "file_ops has both paths and allowed_read_paths; using paths"@,
        ) + path_remarks(entries@),
        None => Seq::empty(),
    } + match opt_view(raw.preferred_profile) {
        Some(p) => remark(profile_of(Some(p)) is None, "invalid agent.preferred_profile ignored: "@ + p),
        None => Seq::empty(),
    } + remark(raw.allowed_commands@.len() == 0, "policy loaded with no allowed_commands; exec is deny-all"@)
}

fn add_remark(r: &mut Vec<String>, text: String)
    ensures
        views(final(r)@) == views(old(r)@) + seq![text@],
{
    r.push(text);
    assert(views(r@) =~= views(old(r)@) + seq![text@]);
}

fn add_path_remarks(r: &mut Vec<String>, entries: &Vec<RawFilePath>)
    ensures
        views(final(r)@) == views(old(r)@) + path_remarks(entries@),
{
    let ghost before = views(r@);
    let mut i: usize = 0;
    assert(views(r@) =~= before + path_remarks(entries@.take(0)));
    while i < entries.len()
        invariant
            i <= entries@.len(),
            views(r@) == before + path_remarks(entries@.take(i as int)),
        decreases entries@.len() - i,
    {
        assert(entries@.take(i + 1).drop_last() =~= entries@.take(i as int));
        let empty = match &entries[i] {
            RawFilePath::Path(path) => is_blank(path),
            RawFilePath::Detailed { path, .. } => is_blank(path),
        };
        if empty {
            add_remark(r, "invalid empty file_ops path entry skipped".to_owned());
            assert(views(r@) =~= before + path_remarks(entries@.take(i + 1)));
        }
        i = i + 1;
    }
    assert(entries@.take(i as int) =~= entries@);
}

impl RawPolicy {
    /// What is odd about the configuration, though it is taken.
    pub fn remarks(&self) -> (r: Vec<String>)
        ensures
            views(r@) == remarks_on(*self),
    {
        let mut r: Vec<String> = Vec::new();
        assert(views(r@) =~= Seq::empty());
        if self.unknown.len() > 0 {
            add_remark(&mut r, cat2("policy contains unknown top-level keys: ", &join(&self.unknown, ", ")));
        }
        if let Some(entries) = &self.paths {
            if let Some(paths) = &self.allowed_read_paths {
                if paths.len() > 0 {
                    add_remark(&mut r, "file_ops has both paths and allowed_read_paths; using paths".to_owned());
                }
            }
            add_path_remarks(&mut r, entries);
        }
        if let Some(p) = &self.preferred_profile {
            if !same(p, "compact") && !same(p, "full") {
                add_remark(&mut r, cat2("invalid agent.preferred_profile ignored: ", p));
            }
        }
        if self.allowed_commands.len() == 0 {
            add_remark(&mut r, "policy loaded with no allowed_commands; exec is deny-all".to_owned());
        }
        assert(views(r@) =~= remarks_on(*self));
        r
    }

    /// Where the configuration wants uploads.
    pub fn upload_base_path(&self) -> (r: String)
        ensures
            r@ == match self.upload_base {
                Some(p) => p@,
                None => DEFAULT_UPLOAD_BASE@,
            },
    {
        match &self.upload_base {
            Some(p) => p.clone(),
            None => DEFAULT_UPLOAD_BASE.to_owned(),
        }
    }
}

impl Policy {
    /// The policy that a configuration is. `canonical` is what the file system
    /// resolves the upload directory to, where it can. A key that is mistaken for
    /// another is refused.
    pub fn from_raw(raw: RawPolicy, canonical: Option<String>) -> (r: Result<Policy, PolicyError>)
        ensures
            match r {
                Ok(p) => first_typo(views(raw.unknown@), 0) is None && policy_like(
                    raw,
                    match canonical {
                        Some(c) => c@,
                        None => match raw.upload_base {
                            Some(b) => b@,
                            None => DEFAULT_UPLOAD_BASE@,
                        },
                    },
                    p,
                ) && (raw.well_formed() ==> p.well_formed()),
                Err(PolicyError::KnownTypo { key, suggestion }) => first_typo(views(raw.unknown@), 0) == Some(
                    (key@, suggestion@),
                ),
                Err(_) => false,
            },
    {
        if let Some((key, suggestion)) = find_typo(&raw.unknown) {
            return Err(PolicyError::KnownTypo { key: key.to_owned(), suggestion });
        }
        let services = copy_services(&raw.services);
        proof {
            name_set_is_ordered(views(raw.disabled_ops@));
            assert(names(services@) =~= names(raw.services@)) by {
                assert forall|i: int| 0 <= i < services@.len() implies names(services@)[i] == names(raw.services@)[i] by {
                    assert(service_like(raw.services@[i].0@, raw.services@[i].1, services@[i]));
                }
            }
        }
        let upload_base = match canonical {
            Some(c) => c,
            None => raw.upload_base_path(),
        };
        let file_ops_paths = match raw.paths {
            Some(entries) => open_entries(entries),
            None => match raw.allowed_read_paths {
                Some(paths) => open_for_reading(paths),
                None => {
                    let none: Vec<FileOpsPath> = Vec::new();
                    assert(path_views(none@) =~= Seq::empty());
                    none
                },
            },
        };
        let preferred_profile = match raw.preferred_profile {
            Some(p) => if same(&p, "compact") || same(&p, "full") {
                Some(p)
            } else {
                None
            },
            None => None,
        };
        Ok(
            Policy {
                exec_strict: raw.exec_strict,
                disabled_ops: gather_names(raw.disabled_ops),
                allowed_commands: raw.allowed_commands,
                services,
                playbooks: raw.playbooks,
                hostname_label: raw.hostname_label,
                preferred_profile,
                exec_timeout_default: raw.timeout_default,
                exec_timeout_max: raw.timeout_max,
                upload_base,
                trusted_fetch_hosts: raw.trusted_fetch_hosts,
                file_url_timeout_seconds: raw.file_url_timeout_seconds,
                file_ops_paths,
                file_ops_max_read_bytes: raw.max_read_bytes,
                file_ops_max_list_entries: raw.max_list_entries,
                file_ops_max_search_results: raw.max_search_results,
                local_apis: raw.local_apis,
                locations: raw.locations,
            },
        )
    }

    /// Whether a command begins with an allowed one.
    pub fn is_command_allowed(&self, command: &str) -> (r: bool)
        ensures
            r == allowed_command(views(self.allowed_commands@), command@),
    {
        let c = trim(command);
        if c.as_str().is_empty() {
            return false;
        }
        let mut i: usize = 0;
        while i < self.allowed_commands.len()
            invariant
                i <= self.allowed_commands@.len(),
                c@ == trimmed(command@),
                c@.len() > 0,
                forall|j: int| 0 <= j < i ==> !prefixed(c@, #[trigger] views(self.allowed_commands@)[j]),
            decreases self.allowed_commands@.len() - i,
        {
            if starts_with(&c, &self.allowed_commands[i]) {
                assert(prefixed(c@, views(self.allowed_commands@)[i as int]));
                return true;
            }
            i = i + 1;
        }
        false
    }

    /// Whether the service may be asked for the action.
    pub fn service_action_allowed(&self, service: &str, action: &str) -> (r: bool)
        ensures
            r == ({
                let k = named_at(self.services@, service@);
                k < self.services@.len() && views(self.services@[k].1.actions@).contains(action@)
            }),
    {
        let k = find_named(&self.services, service);
        k < self.services.len() && crate::order::has(&self.services[k].1.actions, action)
    }

    /// The path that may be used, given what the file system says of it: it lies
    /// at or under one of the policy's paths, one open for writing where that is
    /// needed.
    pub fn resolve_path(&self, path: &str, need_write: bool, seen: &Resolution) -> (r: Option<String>)
        ensures
            opt_view(r) == resolved(*self, path@, need_write, *seen),
    {
        if path.is_empty() {
            return None;
        }
        let candidate = match &seen.candidate {
            Some(c) => c,
            None => return None,
        };
        let mut i: usize = 0;
        while i < self.file_ops_paths.len() && i < seen.allowed.len()
            invariant
                i <= self.file_ops_paths@.len(),
                i <= seen.allowed@.len(),
                seen.candidate == Some(*candidate),
                path@.len() > 0,
                forall|j: int| 0 <= j < i ==> !#[trigger] grants(*self, j, candidate@, need_write, *seen),
            decreases self.file_ops_paths@.len() - i,
        {
            let open = !need_write || self.file_ops_paths[i].access == FileAccess::ReadWrite;
            if open {
                if let Some(base) = &seen.allowed[i] {
                    if is_under(candidate, base) {
                        assert(grants(*self, i as int, candidate@, need_write, *seen));
                        return Some(candidate.clone());
                    }
                }
            }
            assert(!grants(*self, i as int, candidate@, need_write, *seen));
            i = i + 1;
        }
        None
    }

    /// How much is configured.
    pub fn config_summary(&self) -> (r: ConfigSummary)
        ensures
            r.allowed_command_count == Some(self.allowed_commands@.len() as u64),
            r.file_ops_path_count == Some(self.file_ops_paths@.len() as u64),
            r.file_ops_rw_count == Some(writable_count(self.file_ops_paths@) as u64),
            r.service_count == Some(self.services@.len() as u64),
            r.playbook_count == Some(self.playbooks@.len() as u64),
            r.trusted_fetch_host_count == Some(self.trusted_fetch_hosts@.len() as u64),
            r.exec_timeout_default == Some(self.exec_timeout_default),
            r.exec_timeout_max == Some(self.exec_timeout_max),
    {
        let mut writable: usize = 0;
        let mut i: usize = 0;
        while i < self.file_ops_paths.len()
            invariant
                i <= self.file_ops_paths@.len(),
                writable == writable_count(self.file_ops_paths@.take(i as int)),
                writable <= i,
            decreases self.file_ops_paths@.len() - i,
        {
            let ghost now = self.file_ops_paths@.take(i + 1);
            assert(now.drop_last() =~= self.file_ops_paths@.take(i as int));
            if self.file_ops_paths[i].access == FileAccess::ReadWrite {
                writable = writable + 1;
            }
            i = i + 1;
        }
        assert(self.file_ops_paths@.take(i as int) =~= self.file_ops_paths@);
        ConfigSummary {
            allowed_command_count: Some(self.allowed_commands.len() as u64),
            file_ops_path_count: Some(self.file_ops_paths.len() as u64),
            file_ops_rw_count: Some(writable as u64),
            service_count: Some(self.services.len() as u64),
            playbook_count: Some(self.playbooks.len() as u64),
            trusted_fetch_host_count: Some(self.trusted_fetch_hosts.len() as u64),
            exec_timeout_default: Some(self.exec_timeout_default),
            exec_timeout_max: Some(self.exec_timeout_max),
        }
    }
}

/// Whatever the file system says, a path that may be written lies under a path of
/// the policy that is open for writing, and one that may be read under any.
pub proof fn resolved_is_under_a_path(p: Policy, path: Seq<char>, need_write: bool, seen: Resolution)
    ensures
        resolved(p, path, need_write, seen) matches Some(c) ==> exists|i: int|
            0 <= i < p.file_ops_paths@.len() && i < seen.allowed@.len() && (#[trigger] seen.allowed@[i]) is Some && under(
                c,
                seen.allowed@[i]->0@,
            ) && (need_write ==> p.file_ops_paths@[i].access == FileAccess::ReadWrite),
        resolved(p, path, true, seen) is Some ==> resolved(p, path, false, seen) == resolved(p, path, true, seen),
        p.file_ops_paths@.len() == 0 ==> resolved(p, path, need_write, seen) is None,
{
    if let Some(c) = resolved(p, path, need_write, seen) {
        let i = choose|i: int| #[trigger] grants(p, i, c, need_write, seen);
        assert(seen.allowed@[i] is Some);
    }
    if let Some(c) = resolved(p, path, true, seen) {
        let i = choose|i: int| #[trigger] grants(p, i, c, true, seen);
        assert(grants(p, i, c, false, seen));
    }
}

/// A policy is what the configuration says, each part from its own.
pub proof fn policies_are_as_configured(raw: RawPolicy, upload_base: Seq<char>, p: Policy)
    requires
        policy_like(raw, upload_base, p),
    ensures
        p.exec_strict == raw.exec_strict,
        p.exec_timeout_default == raw.timeout_default,
        p.exec_timeout_max == raw.timeout_max,
        p.file_url_timeout_seconds == raw.file_url_timeout_seconds,
        p.file_ops_max_read_bytes == raw.max_read_bytes,
        p.file_ops_max_list_entries == raw.max_list_entries,
        p.file_ops_max_search_results == raw.max_search_results,
        p.upload_base@ == upload_base,
        p.allowed_commands == raw.allowed_commands,
        p.trusted_fetch_hosts == raw.trusted_fetch_hosts,
        p.playbooks == raw.playbooks,
        p.local_apis == raw.local_apis,
        p.locations == raw.locations,
        p.hostname_label == raw.hostname_label,
        p.services@.len() == raw.services@.len(),
        forall|i: int|
            0 <= i < raw.services@.len() ==> {
                let (name, s) = #[trigger] p.services@[i];
                let given = raw.services@[i];
                &&& name@ == given.0@
                &&& views(s.actions@) == views(given.1.actions@)
                &&& s.requires_sudo == given.1.requires_sudo
                &&& s.backend@ == given.1.backend@
                &&& s.domain@ == given.1.domain@
                &&& s.description@ == given.1.description@
                &&& given.1.unit matches Some(u) ==> s.unit@ == u@
                &&& given.1.unit is None ==> s.unit@ == name@
            },
        forall|name: Seq<char>|
            #[trigger] views(p.disabled_ops@).contains(name) <==> exists|i: int|
                0 <= i < raw.disabled_ops@.len() && !blank(views(raw.disabled_ops@)[i]) && trimmed(
                    #[trigger] views(raw.disabled_ops@)[i],
                ) == name,
{
    assert forall|i: int| 0 <= i < raw.services@.len() implies ({
        let (name, s) = #[trigger] p.services@[i];
        let given = raw.services@[i];
        &&& name@ == given.0@
        &&& views(s.actions@) == views(given.1.actions@)
        &&& s.requires_sudo == given.1.requires_sudo
        &&& s.backend@ == given.1.backend@
        &&& s.domain@ == given.1.domain@
        &&& s.description@ == given.1.description@
        &&& given.1.unit matches Some(u) ==> s.unit@ == u@
        &&& given.1.unit is None ==> s.unit@ == name@
    }) by {
        assert(service_like(raw.services@[i].0@, raw.services@[i].1, p.services@[i]));
    }
    assert forall|name: Seq<char>| #[trigger] views(p.disabled_ops@).contains(name) <==> exists|i: int|
        0 <= i < raw.disabled_ops@.len() && !blank(views(raw.disabled_ops@)[i]) && trimmed(
            #[trigger] views(raw.disabled_ops@)[i],
        ) == name by {
        name_set_holds(views(raw.disabled_ops@), name);
    }
}

/// A path is open for reading alone, unless its access is given as `rw`; a blank one
/// opens nothing.
pub proof fn paths_are_opened_as_configured(path: String, access: Option<String>)
    ensures
        blank(path@) ==> opened(RawFilePath::Path(path)) is None && opened(RawFilePath::Detailed { path, access }) is None,
        !blank(path@) ==> opened(RawFilePath::Path(path)) == Some((path@, FileAccess::Read)),
        !blank(path@) && (access matches Some(a) && a@ == "rw"@) ==> opened(RawFilePath::Detailed { path, access }) == Some(
            (path@, FileAccess::ReadWrite),
        ),
        !blank(path@) && !(access matches Some(a) && a@ == "rw"@) ==> opened(RawFilePath::Detailed { path, access }) == Some(
            (path@, FileAccess::Read),
        ),
{
}

/// The paths that a policy opens are those of the configuration: the entries of its list
/// of paths, or else those of its list for reading, which opens none for writing.
pub proof fn opened_paths_are_configured(raw: RawPolicy, path: Seq<char>, access: FileAccess)
    ensures
        raw.paths matches Some(entries) ==> (opened_paths(raw).contains((path, access)) <==> exists|i: int|
            0 <= i < entries@.len() && opened(#[trigger] entries@[i]) == Some((path, access))),
        raw.paths is None ==> (raw.allowed_read_paths matches Some(list) ==> (opened_paths(raw).contains((path, access))
            <==> access == FileAccess::Read && !blank(path) && views(list@).contains(path))),
        raw.paths is None && raw.allowed_read_paths is None ==> opened_paths(raw).len() == 0,
{
    if let Some(entries) = raw.paths {
        lemma_opened_by(entries@, (path, access));
    } else if let Some(list) = raw.allowed_read_paths {
        lemma_readable(views(list@), path, access);
    }
}

proof fn lemma_opened_by(entries: Seq<RawFilePath>, x: (Seq<char>, FileAccess))
    ensures
        opened_by(entries).contains(x) <==> exists|i: int| 0 <= i < entries.len() && opened(#[trigger] entries[i]) == Some(x),
    decreases entries.len(),
{
    if entries.len() > 0 {
        let front = entries.drop_last();
        lemma_opened_by(front, x);
        let all = opened_by(entries);
        let some = opened_by(front);
        if all.contains(x) {
            let k = choose|k: int| 0 <= k < all.len() && all[k] == x;
            if k < some.len() {
                assert(some[k] == x);
                let i = choose|i: int| 0 <= i < front.len() && opened(#[trigger] front[i]) == Some(x);
                assert(opened(entries[i]) == Some(x));
            } else {
                assert(opened(entries[entries.len() - 1]) == Some(x));
            }
        }
        if exists|i: int| 0 <= i < entries.len() && opened(#[trigger] entries[i]) == Some(x) {
            let i = choose|i: int| 0 <= i < entries.len() && opened(#[trigger] entries[i]) == Some(x);
            if i < front.len() {
                assert(opened(front[i]) == Some(x));
                let k = choose|k: int| 0 <= k < some.len() && some[k] == x;
                assert(all[k] == x);
            } else {
                assert(all[all.len() - 1] == x);
            }
        }
    }
}

proof fn lemma_readable(paths: Seq<Seq<char>>, path: Seq<char>, access: FileAccess)
    ensures
        readable(paths).contains((path, access)) <==> access == FileAccess::Read && !blank(path) && paths.contains(path),
    decreases paths.len(),
{
    if paths.len() > 0 {
        let front = paths.drop_last();
        lemma_readable(front, path, access);
        let all = readable(paths);
        let some = readable(front);
        let x = (path, access);
        if all.contains(x) {
            let k = choose|k: int| 0 <= k < all.len() && all[k] == x;
            if k < some.len() {
                assert(some[k] == x);
                let i = choose|i: int| 0 <= i < front.len() && front[i] == path;
                assert(paths[i] == path);
            } else {
                assert(paths[paths.len() - 1] == path);
            }
        }
        if access == FileAccess::Read && !blank(path) && paths.contains(path) {
            let i = choose|i: int| 0 <= i < paths.len() && paths[i] == path;
            if i < front.len() {
                assert(front[i] == path);
                let k = choose|k: int| 0 <= k < some.len() && some[k] == x;
                assert(all[k] == x);
            } else {
                assert(all[all.len() - 1] == x);
            }
        }
    }
}

/// A path that lies under one of the policy's paths may be read, and written where that
/// one is open for writing.
pub proof fn open_paths_may_be_used(p: Policy, path: Seq<char>, candidate: String, seen: Resolution, i: int)
    requires
        path.len() > 0,
        seen.candidate == Some(candidate),
        0 <= i < p.file_ops_paths@.len(),
        i < seen.allowed@.len(),
        seen.allowed@[i] matches Some(base) && under(candidate@, base@),
    ensures
        resolved(p, path, false, seen) == Some(candidate@),
        p.file_ops_paths@[i].access == FileAccess::ReadWrite ==> resolved(p, path, true, seen) == Some(candidate@),
        (forall|k: int| 0 <= k < p.file_ops_paths@.len() ==> (#[trigger] p.file_ops_paths@[k]).access == FileAccess::Read)
            ==> resolved(p, path, true, seen) is None,
{
    assert(grants(p, i, candidate@, false, seen));
    if p.file_ops_paths@[i].access == FileAccess::ReadWrite {
        assert(grants(p, i, candidate@, true, seen));
    }
    if resolved(p, path, true, seen) is Some {
        let k = choose|k: int| #[trigger] grants(p, k, candidate@, true, seen);
        assert(p.file_ops_paths@[k].access == FileAccess::ReadWrite);
    }
}

/// A command may be run exactly where, without the white space around it, it begins with
/// an allowed one.
pub proof fn commands_begin_as_allowed(allowed: Seq<Seq<char>>, command: Seq<char>)
    ensures
        allowed_command(allowed, command) <==> !blank(command) && exists|i: int|
            0 <= i < allowed.len() && (#[trigger] allowed[i]).is_prefix_of(trimmed(command)),
        allowed.len() == 0 ==> !allowed_command(allowed, command),
{
    let c = trimmed(command);
    if exists|i: int| 0 <= i < allowed.len() && (#[trigger] allowed[i]).is_prefix_of(c) {
        let i = choose|i: int| 0 <= i < allowed.len() && (#[trigger] allowed[i]).is_prefix_of(c);
        assert(c.take(allowed[i].len() as int) =~= allowed[i]);
        assert(prefixed(c, allowed[i]));
    }
    if exists|i: int| 0 <= i < allowed.len() && prefixed(c, #[trigger] allowed[i]) {
        let i = choose|i: int| 0 <= i < allowed.len() && prefixed(c, #[trigger] allowed[i]);
        assert(allowed[i].is_prefix_of(c));
    }
}

/// A key that is mistaken for another is never taken.
pub proof fn mistaken_keys_are_refused(keys: Seq<Seq<char>>)
    ensures
        first_typo(keys, 0) is None <==> !keys.contains("allow"@) && !keys.contains("allowedCommands"@) && !keys.contains(
            "commands"@,
        ) && !keys.contains("service"@) && !keys.contains("location"@) && !keys.contains("playbook"@) && !keys.contains(
            "hub"@,
        ),
        first_typo(keys, 0) matches Some((key, meant)) ==> keys.contains(key),
{
    let h = typo_hints();
    assert(h.len() == 7 && h[0].0 == "allow"@ && h[1].0 == "allowedCommands"@ && h[2].0 == "commands"@ && h[3].0
        == "service"@ && h[4].0 == "location"@ && h[5].0 == "playbook"@ && h[6].0 == "hub"@);
    reveal_with_fuel(first_typo, 9);
}

/// What is found under a name has that name, and nothing before it has; what is not found
/// is not there.
pub proof fn names_are_found<T>(list: Seq<(String, T)>, name: Seq<char>)
    ensures
        0 <= named_at(list, name) <= list.len(),
        named_at(list, name) < list.len() ==> list[named_at(list, name)].0@ == name,
        forall|i: int| 0 <= i < named_at(list, name) ==> (#[trigger] list[i]).0@ != name,
    decreases list.len(),
{
    if list.len() > 0 && list[0].0@ != name {
        let rest = list.drop_first();
        names_are_found(rest, name);
        assert forall|i: int| 0 <= i < named_at(list, name) implies (#[trigger] list[i]).0@ != name by {
            if i > 0 {
                assert(list[i] == rest[i - 1]);
            }
        }
    }
}

} // verus!
