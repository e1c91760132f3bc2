//! What a Linux host tells of itself, read out of its own files.

use crate::ascii::{
    drop_leading, drop_trailing, lowered, same_ignoring_case, to_lower, without_leading, without_trailing,
};
use crate::digits::{decimal, decimal_is_read_back, opt_int, parse_u64, parsed};
use crate::message::{ConfigSummary, HostInfo};
use crate::text::{
    contained, contains, lemma_first_index_is, lemma_trim_end_from, lemma_trim_start_from, lemma_word_end_is,
    lemma_words_skip, lines, once, opt_view, rows, split_once, split_words, str_views, strip_prefix, stripped, trim,
    trimmed, views, white, words,
};
use crate::time::{finite, finite_text, form_of_number, number_form};
use vstd::prelude::*;

verus! {

/// The text of a file, trimmed, where there is any.
pub open spec fn trimmed_text(text: Option<Seq<char>>) -> Option<Seq<char>> {
    match text {
        Some(t) => if trimmed(t).len() > 0 {
            Some(trimmed(t))
        } else {
            None
        },
        None => None,
    }
}

pub fn read_trimmed(text: Option<&str>) -> (r: Option<String>)
    ensures
        opt_view(r) == trimmed_text(
            match text {
                Some(t) => Some(t@),
                None => None,
            },
        ),
{
    match text {
        Some(t) => {
            let s = trim(t);
            if s.as_str().is_empty() {
                None
            } else {
                Some(s)
            }
        },
        None => None,
    }
}

pub open spec fn opt_str(s: Option<&str>) -> Option<Seq<char>> {
    match s {
        Some(s) => Some(s@),
        None => None,
    }
}

/// The name of the host: what its kernel says, else the environment, else `unknown`.
pub fn hostname(kernel_file: Option<&str>, variable: Option<&str>) -> (r: String)
    ensures
        r@ == match trimmed_text(opt_str(kernel_file)) {
            Some(n) => n,
            None => match variable {
                Some(v) => v@,
                None => "unknown"@,
            },
        },
{
    match read_trimmed(kernel_file) {
        Some(n) => n,
        None => match variable {
            Some(v) => v.to_owned(),
            None => "unknown".to_owned(),
        },
    }
}

/// The kernel's release.
pub fn kernel(release_file: Option<&str>) -> (r: Option<String>)
    ensures
        opt_view(r) == trimmed_text(opt_str(release_file)),
{
    read_trimmed(release_file)
}

/// The name that a line of `os-release` gives, without its quotes.
pub open spec fn pretty_name(line: Seq<char>) -> Option<Seq<char>> {
    match stripped(line, "PRETTY_NAME="@) {
        Some(v) => {
            let name = without_trailing(without_leading(trimmed(v), '"'), '"');
            if name.len() > 0 {
                Some(name)
            } else {
                None
            }
        },
        None => None,
    }
}

/// The first name among lines, from `i` on.
pub open spec fn first_pretty_name(lines: Seq<Seq<char>>, i: int) -> Option<Seq<char>>
    decreases lines.len() - i,
{
    if i < 0 || i >= lines.len() {
        None
    } else {
        match pretty_name(lines[i]) {
            Some(n) => Some(n),
            None => first_pretty_name(lines, i + 1),
        }
    }
}

/// The distribution that `os-release` names.
pub fn distro(os_release: Option<&str>) -> (r: Option<String>)
    ensures
        opt_view(r) == match os_release {
            Some(t) => first_pretty_name(rows(t@), 0),
            None => None,
        },
{
    let text = match os_release {
        Some(t) => t,
        None => return None,
    };
    let all = lines(text);
    let mut i: usize = 0;
    while i < all.len()
        invariant
            i <= all@.len(),
            os_release == Some(text),
            views(all@) == rows(text@),
            first_pretty_name(views(all@), i as int) == first_pretty_name(views(all@), 0),
        decreases all@.len() - i,
    {
        assert(views(all@)[i as int] == all@[i as int]@);
        if let Some(v) = strip_prefix(&all[i], "PRETTY_NAME=") {
            let name = drop_trailing(&drop_leading(&trim(&v), '"'), '"');
            if !name.as_str().is_empty() {
                return Some(name);
            }
        }
        i = i + 1;
    }
    None
}

/// The processor that a line of `cpuinfo` names.
pub open spec fn model_name(line: Seq<char>) -> Option<Seq<char>> {
    match once(line, ':') {
        Some((key, value)) => if lowered(trimmed(key)) == lowered("model name"@) {
            Some(trimmed(value))
        } else {
            None
        },
        None => None,
    }
}

pub open spec fn first_model_name(lines: Seq<Seq<char>>, i: int) -> Option<Seq<char>>
    decreases lines.len() - i,
{
    if i < 0 || i >= lines.len() {
        None
    } else {
        match model_name(lines[i]) {
            Some(n) => Some(n),
            None => first_model_name(lines, i + 1),
        }
    }
}

/// The first processor that `cpuinfo` names.
pub fn cpu_model(cpuinfo: Option<&str>) -> (r: Option<String>)
    ensures
        opt_view(r) == match cpuinfo {
            Some(t) => first_model_name(rows(t@), 0),
            None => None,
        },
{
    let text = match cpuinfo {
        Some(t) => t,
        None => return None,
    };
    let all = lines(text);
    let mut i: usize = 0;
    while i < all.len()
        invariant
            i <= all@.len(),
            cpuinfo == Some(text),
            views(all@) == rows(text@),
            first_model_name(views(all@), i as int) == first_model_name(views(all@), 0),
        decreases all@.len() - i,
    {
        assert(views(all@)[i as int] == all@[i as int]@);
        if let Some((key, value)) = split_once(&all[i], ':') {
            if same_ignoring_case(&trim(&key), "model name") {
                return Some(trim(&value));
            }
        }
        i = i + 1;
    }
    None
}

/// The memory, in bytes, that a line of `meminfo` tells.
pub open spec fn memory_in(line: Seq<char>) -> Option<int> {
    match stripped(line, "MemTotal:"@) {
        Some(rest) => if words(rest).len() > 0 {
            match parsed(words(rest)[0], 10, u64::MAX as int) {
                Some(kb) => if kb * 1024 <= u64::MAX {
                    Some(kb * 1024)
                } else {
                    None
                },
                None => None,
            }
        } else {
            None
        },
        None => None,
    }
}

pub open spec fn first_memory(lines: Seq<Seq<char>>, i: int) -> Option<int>
    decreases lines.len() - i,
{
    if i < 0 || i >= lines.len() {
        None
    } else {
        match memory_in(lines[i]) {
            Some(n) => Some(n),
            None => first_memory(lines, i + 1),
        }
    }
}

/// The memory of the host in bytes.
pub fn mem_total_bytes(meminfo: Option<&str>) -> (r: Option<u64>)
    ensures
        opt_int(r) == match meminfo {
            Some(t) => first_memory(rows(t@), 0),
            None => None,
        },
{
    let text = match meminfo {
        Some(t) => t,
        None => return None,
    };
    let all = lines(text);
    let mut i: usize = 0;
    while i < all.len()
        invariant
            i <= all@.len(),
            meminfo == Some(text),
            views(all@) == rows(text@),
            first_memory(views(all@), i as int) == first_memory(views(all@), 0),
        decreases all@.len() - i,
    {
        assert(views(all@)[i as int] == all@[i as int]@);
        if let Some(rest) = strip_prefix(&all[i], "MemTotal:") {
            let w = split_words(&rest);
            if w.len() > 0 {
                assert(w@[0]@ == words(rest@)[0]);
                if let Some(kb) = parse_u64(&w[0]) {
                    if let Some(bytes) = kb.checked_mul(1024) {
                        return Some(bytes);
                    }
                }
            }
        }
        i = i + 1;
    }
    None
}

/// What tells a machine's kind: the texts of files of the kernel and of the
/// firmware, and whether a container left its mark.
pub struct MachineFacts {
    pub osrelease: Option<String>,
    pub version: Option<String>,
    pub dockerenv: bool,
    pub cgroup: Option<String>,
    pub product_name: Option<String>,
    pub sys_vendor: Option<String>,
    pub cpuinfo: Option<String>,
}

/// The text of a file, trimmed and in lower case; nothing where there is none.
pub open spec fn lowered_text(text: Option<String>) -> Seq<char> {
    match trimmed_text(opt_view(text)) {
        Some(t) => lowered(t),
        None => lowered(Seq::empty()),
    }
}

fn lower_text(text: &Option<String>) -> (r: String)
    ensures
        r@ == lowered_text(*text),
{
    let s = match text {
        Some(t) => read_trimmed(Some(t.as_str())),
        None => None,
    };
    match s {
        Some(t) => to_lower(&t),
        None => {
            let empty = String::new();
            to_lower(&empty)
        },
    }
}

/// The firmware's texts, with a space between them, in lower case.
pub open spec fn firmware_text(f: MachineFacts) -> Seq<char> {
    lowered(
        match (trimmed_text(opt_view(f.product_name)), trimmed_text(opt_view(f.sys_vendor))) {
            (Some(a), Some(b)) => a + " "@ + b,
            (Some(a), None) => a,
            (None, Some(b)) => b,
            (None, None) => Seq::empty(),
        },
    )
}

fn firmware(f: &MachineFacts) -> (r: String)
    ensures
        r@ == firmware_text(*f),
{
    let a = match &f.product_name {
        Some(t) => read_trimmed(Some(t.as_str())),
        None => None,
    };
    let b = match &f.sys_vendor {
        Some(t) => read_trimmed(Some(t.as_str())),
        None => None,
    };
    let text = match (a, b) {
        (Some(a), Some(b)) => crate::text::cat3(&a, " ", &b),
        (Some(a), None) => a,
        (None, Some(b)) => b,
        (None, None) => String::new(),
    };
    to_lower(&text)
}

/// One of the needles is in the text.
pub open spec fn any_in(text: Seq<char>, needles: Seq<Seq<char>>) -> bool {
    exists|i: int| 0 <= i < needles.len() && contained(text, #[trigger] needles[i])
}

fn contains_any(text: &str, needles: &Vec<&'static str>) -> (r: bool)
    ensures
        r == any_in(text@, str_views(needles@)),
{
    let mut i: usize = 0;
    while i < needles.len()
        invariant
            i <= needles@.len(),
            forall|j: int| 0 <= j < i ==> !contained(text@, #[trigger] str_views(needles@)[j]),
        decreases needles@.len() - i,
    {
        if contains(text, needles[i]) {
            assert(contained(text@, str_views(needles@)[i as int]));
            return true;
        }
        i = i + 1;
    }
    false
}

pub open spec fn container_marks() -> Seq<Seq<char>> {
    seq!["docker"@, "lxc"@, "kubepods"@, "containerd"@]
}

pub open spec fn virtual_marks() -> Seq<Seq<char>> {
    seq![
        "kvm"@, "vmware"@, "virtualbox"@, "qemu"@, "xen"@, "hyper-v"@, "amazon"@, "google"@, "digitalocean"@, "vultr"@,
        "openstack"@, "bochs"@,
    ]
}

/// The kind of a machine.
pub open spec fn machine_kind(f: MachineFacts) -> Seq<char> {
    if contained(lowered_text(f.osrelease), "microsoft"@) || contained(lowered_text(f.osrelease), "wsl"@) || contained(
        lowered_text(f.version),
        "microsoft"@,
    ) {
        "wsl"@
    } else if f.dockerenv || any_in(lowered_text(f.cgroup), container_marks()) {
        "container"@
    } else if any_in(firmware_text(f), virtual_marks()) || contained(lowered_text(f.cpuinfo), "hypervisor"@) {
        "vm"@
    } else {
        "physical"@
    }
}

/// The kind of a machine.
pub fn machine_type(facts: &MachineFacts) -> (r: Option<String>)
    ensures
        opt_view(r) == Some(machine_kind(*facts)),
{
    let osrelease = lower_text(&facts.osrelease);
    if contains(&osrelease, "microsoft") || contains(&osrelease, "wsl") || contains(
        &lower_text(&facts.version),
        "microsoft",
    ) {
        return Some("wsl".to_owned());
    }
    let marks: Vec<&'static str> = vec!["docker", "lxc", "kubepods", "containerd"];
    assert(str_views(marks@) =~= container_marks());
    if facts.dockerenv || contains_any(&lower_text(&facts.cgroup), &marks) {
        return Some("container".to_owned());
    }
    let marks: Vec<&'static str> = vec![
        "kvm", "vmware", "virtualbox", "qemu", "xen", "hyper-v", "amazon", "google", "digitalocean", "vultr", "openstack",
        "bochs",
    ];
    assert(str_views(marks@) =~= virtual_marks());
    if contains_any(&firmware(facts), &marks) || contains(&lower_text(&facts.cpuinfo), "hypervisor") {
        return Some("vm".to_owned());
    }
    Some("physical".to_owned())
}

/// What is read on a host to describe it.
pub struct HostFiles {
    pub hostname: Option<String>,
    pub hostname_variable: Option<String>,
    pub os_release: Option<String>,
    pub arch: String,
    pub cores: Option<u64>,
    pub meminfo: Option<String>,
    pub machine: MachineFacts,
}

fn as_opt_str(s: &Option<String>) -> (r: Option<&str>)
    ensures
        opt_str(r) == opt_view(*s),
{
    match s {
        Some(s) => Some(s.as_str()),
        None => None,
    }
}

pub open spec fn distro_of(text: Option<String>) -> Option<Seq<char>> {
    match text {
        Some(t) => first_pretty_name(rows(t@), 0),
        None => None,
    }
}

/// The description of a host, from what was read on it.
pub fn gather_host_info(host_id: String, config_summary: Option<ConfigSummary>, files: &HostFiles) -> (r: HostInfo)
    ensures
        r.id == host_id,
        r.hostname@ == match trimmed_text(opt_view(files.hostname)) {
            Some(n) => n,
            None => match files.hostname_variable {
                Some(v) => v@,
                None => "unknown"@,
            },
        },
        r.os@ == match distro_of(files.os_release) {
            Some(n) => n,
            None => "linux"@,
        },
        opt_view(r.kernel) == trimmed_text(opt_view(files.machine.osrelease)),
        opt_view(r.arch) == Some(files.arch@),
        opt_view(r.cpu_model) == match files.machine.cpuinfo {
            Some(t) => first_model_name(rows(t@), 0),
            None => None,
        },
        r.cpu_cores == files.cores,
        opt_int(r.mem_total_bytes) == match files.meminfo {
            Some(t) => first_memory(rows(t@), 0),
            None => None,
        },
        r.disk_total_bytes is None,
        opt_view(r.machine_type) == Some(machine_kind(files.machine)),
        opt_view(r.distro) == distro_of(files.os_release),
        r.config_summary == config_summary,
{
    let os = match distro(as_opt_str(&files.os_release)) {
        Some(n) => n,
        None => "linux".to_owned(),
    };
    HostInfo {
        id: host_id,
        hostname: hostname(as_opt_str(&files.hostname), as_opt_str(&files.hostname_variable)),
        os,
        kernel: kernel(as_opt_str(&files.machine.osrelease)),
        arch: Some(files.arch.clone()),
        cpu_model: cpu_model(as_opt_str(&files.machine.cpuinfo)),
        cpu_cores: files.cores,
        mem_total_bytes: mem_total_bytes(as_opt_str(&files.meminfo)),
        disk_total_bytes: None,
        machine_type: machine_type(&files.machine),
        distro: distro(as_opt_str(&files.os_release)),
        config_summary,
    }
}

/// The seconds that the host has been up, as a number is printed.
pub fn uptime_seconds(uptime: Option<&str>) -> (r: Option<String>)
    ensures
        opt_view(r) == match uptime {
            Some(t) => if words(t@).len() > 0 {
                finite_text(words(t@)[0])
            } else {
                None
            },
            None => None,
        },
{
    match uptime {
        Some(t) => {
            let w = split_words(t);
            if w.len() > 0 {
                assert(w@[0]@ == words(t@)[0]);
                finite(&w[0])
            } else {
                None
            }
        },
        None => None,
    }
}

/// The three load averages, where all three are numbers: as numbers are printed,
/// each where it is finite.
pub open spec fn load_of(text: Option<Seq<char>>) -> Option<(Option<Seq<char>>, Option<Seq<char>>, Option<Seq<char>>)> {
    match text {
        Some(t) => {
            let w = words(t);
            if w.len() >= 3 {
                match (number_form(w[0]), number_form(w[1]), number_form(w[2])) {
                    (Some(a), Some(b), Some(c)) => Some((a, b, c)),
                    _ => None,
                }
            } else {
                None
            }
        },
        None => None,
    }
}

pub fn loadavg(text: Option<&str>) -> (r: Option<(Option<String>, Option<String>, Option<String>)>)
    ensures
        match r {
            Some(l) => load_of(opt_str(text)) == Some((opt_view(l.0), opt_view(l.1), opt_view(l.2))),
            None => load_of(opt_str(text)) is None,
        },
{
    let t = match text {
        Some(t) => t,
        None => return None,
    };
    let w = split_words(t);
    if w.len() < 3 {
        return None;
    }
    assert(w@[0]@ == words(t@)[0] && w@[1]@ == words(t@)[1] && w@[2]@ == words(t@)[2]);
    match (form_of_number(&w[0]), form_of_number(&w[1]), form_of_number(&w[2])) {
        (Some(a), Some(b), Some(c)) => Some((a, b, c)),
        _ => None,
    }
}

/// The total memory is told in bytes, of which a kilobyte has 1024.
pub proof fn memory_is_told_in_bytes(kb: u32, gap: Seq<char>, rest: Seq<char>)
    requires
        forall|i: int| 0 <= i < gap.len() ==> white(#[trigger] gap[i]),
        rest.len() > 0 ==> white(rest[0]),
    ensures
        memory_in("MemTotal:"@ + (gap + decimal(kb as nat) + rest)) == Some(kb * 1024),
{
    let d = decimal(kb as nat);
    let tail = gap + d + rest;
    let line = "MemTotal:"@ + tail;
    assert(line.take("MemTotal:"@.len() as int) =~= "MemTotal:"@);
    assert(line.skip("MemTotal:"@.len() as int) =~= tail);
    decimal_is_read_back(kb as u64);
    lemma_words_skip(tail, gap.len() as int);
    let from = tail.skip(gap.len() as int);
    assert(from =~= d + rest);
    assert(!white(d[0])) by {
        assert('0' <= d[0] <= '9');
    }
    assert forall|i: int| 0 <= i < d.len() implies !white(#[trigger] from[i]) by {
        assert(from[i] == d[i]);
        assert('0' <= d[i] <= '9');
    }
    if rest.len() > 0 {
        assert(from[d.len() as int] == rest[0]);
    }
    lemma_word_end_is(from, d.len() as int);
    assert(from.take(d.len() as int) =~= d);
    assert(words(from)[0] == d);
}

/// The name of the distribution is told without its quotes.
pub proof fn distributions_are_named(name: Seq<char>)
    requires
        name.len() > 0,
        !name.contains('"'),
    ensures
        pretty_name("PRETTY_NAME="@ + seq!['"'] + name + seq!['"']) == Some(name),
{
    let value = seq!['"'] + name + seq!['"'];
    let line = "PRETTY_NAME="@ + seq!['"'] + name + seq!['"'];
    assert(line =~= "PRETTY_NAME="@ + value);
    assert(line.take("PRETTY_NAME="@.len() as int) =~= "PRETTY_NAME="@);
    assert(line.skip("PRETTY_NAME="@.len() as int) =~= value);
    assert(!white(value[0]) && !white(value.last()));
    assert(trimmed(value) == value);
    let inner = name + seq!['"'];
    assert(value.drop_first() =~= inner);
    assert(inner[0] == name[0] && name.contains(name[0]));
    reveal_with_fuel(without_leading, 3);
    assert(without_leading(value, '"') == inner);
    assert(inner.drop_last() =~= name);
    assert(name.contains(name.last()));
    reveal_with_fuel(without_trailing, 3);
}

/// The model of the processor is what stands behind the colon.
pub proof fn processors_are_named(model: Seq<char>)
    requires
        model.len() > 0,
        !white(model[0]),
        !white(model.last()),
    ensures
        model_name("model name\t: "@ + model) == Some(model),
{
    reveal_strlit("model name\t: ");
    reveal_strlit("model name");
    let head = "model name\t: "@;
    let line = head + model;
    lemma_first_index_is(line, ':', 11);
    let key = line.take(11);
    let value = line.skip(12);
    assert(value =~= seq![' '] + model);
    assert(key =~= "model name"@.push('\t'));
    lemma_trim_start_from(value, 1);
    assert(value.skip(1) =~= model);
    assert(trimmed(value) == model);
    assert(!white(key[0]));
    lemma_trim_end_from(key, 10);
    assert(key.take(10) =~= "model name"@);
    assert(trimmed(key) == "model name"@);
}

/// What kind of machine this is follows from its marks: a kernel of Microsoft, a container,
/// the firmware or the processor of a virtual machine, in this order, and nothing of it on a
/// physical one.
pub proof fn machines_are_told_apart(f: MachineFacts)
    ensures
        machine_kind(f) == "wsl"@ <==> contained(lowered_text(f.osrelease), "microsoft"@) || contained(
            lowered_text(f.osrelease),
            "wsl"@,
        ) || contained(lowered_text(f.version), "microsoft"@),
        machine_kind(f) != "wsl"@ && f.dockerenv ==> machine_kind(f) == "container"@,
        machine_kind(f) == "container"@ && !f.dockerenv ==> exists|m: Seq<char>|
            #[trigger] contained(lowered_text(f.cgroup), m) && (m == "docker"@ || m == "lxc"@ || m == "kubepods"@ || m
                == "containerd"@),
        machine_kind(f) == "physical"@ ==> !f.dockerenv && !contained(lowered_text(f.cpuinfo), "hypervisor"@) && !contained(
            firmware_text(f),
            "kvm"@,
        ) && !contained(firmware_text(f), "qemu"@) && !contained(firmware_text(f), "vmware"@) && !contained(
            firmware_text(f),
            "xen"@,
        ) && !contained(lowered_text(f.cgroup), "docker"@) && !contained(lowered_text(f.cgroup), "lxc"@),
        contained(lowered_text(f.cpuinfo), "hypervisor"@) ==> machine_kind(f) != "physical"@,
        machine_kind(f) == "wsl"@ || machine_kind(f) == "container"@ || machine_kind(f) == "vm"@ || machine_kind(f)
            == "physical"@,
{
    reveal_strlit("wsl");
    reveal_strlit("container");
    reveal_strlit("vm");
    reveal_strlit("physical");
    assert("wsl"@.len() == 3 && "container"@.len() == 9 && "vm"@.len() == 2 && "physical"@.len() == 8);
    let c = container_marks();
    let v = virtual_marks();
    if machine_kind(f) == "container"@ && !f.dockerenv {
        let i = choose|i: int| 0 <= i < c.len() && contained(lowered_text(f.cgroup), #[trigger] c[i]);
        assert(contained(lowered_text(f.cgroup), c[i]));
    }
    assert(c[0] == "docker"@ && c[1] == "lxc"@);
    assert(v[0] == "kvm"@ && v[1] == "vmware"@ && v[3] == "qemu"@ && v[4] == "xen"@);
}

/// The load of the machine is the first three numbers.
pub proof fn loads_are_told_in_order(text: Seq<char>)
    ensures
        load_of(Some(text)) matches Some((one, five, fifteen)) ==> words(text).len() >= 3 && number_form(words(text)[0]) == Some(
            one,
        ) && number_form(words(text)[1]) == Some(five) && number_form(words(text)[2]) == Some(fifteen),
{
}

/// The first line that tells a thing decides it.
pub proof fn first_lines_decide(line: Seq<char>, rest: Seq<Seq<char>>)
    ensures
        pretty_name(line) is Some ==> first_pretty_name(seq![line] + rest, 0) == pretty_name(line),
        model_name(line) is Some ==> first_model_name(seq![line] + rest, 0) == model_name(line),
        memory_in(line) is Some ==> first_memory(seq![line] + rest, 0) == memory_in(line),
{
    assert((seq![line] + rest)[0] == line);
}

} // verus!
