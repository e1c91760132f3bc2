//! Moving, copying and deleting files, and changing who may use them.

use crate::capabilities::{list_paths, path_names};
use crate::digits::{numeral, numeral_text, numerals_are_read_back, parse_radix, parsed};
use crate::handler_error::{fault, require_str, required_text, Fault, HandlerError};
use crate::json::{
    as_flag, as_text, fields, get, lemma_get_put, no_fields, no_object, optional, read_flag, set_field, string, strings,
    text_field, text_list, text_or_null, Entries, Fields, Json, Object, Tree,
};
use crate::paths::{file_name, file_name_of, join, joined, parent, parent_of};
use crate::policy::{resolved, Policy, Resolution};
use crate::text::{
    cat2, cat3, cat4, contained, contains, debug_text, from_utf8_lossy, lossy_text, lowercase_text, opt_view, prefixed,
    quoted, strip_prefix, to_lowercase, trim, trimmed,
};
use crate::time::{format_time, formatted_time, Timestamp};
use vstd::prelude::*;

verus! {

pub const BACKUP_LAYOUT: &'static str = "%Y%m%d-%H%M%S%.6f";

/// A path that may be changed.
pub open spec fn writable(policy: Policy, raw: Seq<char>, label: Seq<char>, seen: Resolution) -> Result<Seq<char>, Fault> {
    match resolved(policy, raw, true, seen) {
        Some(p) => Ok(p),
        None => Err(
            Fault {
                code: "path_not_allowed"@,
                message: label + " "@ + debug_text(raw) + " is outside the file_ops rw allowlist"@,
                details: no_fields().with("writable_paths"@, text_list(path_names(policy.file_ops_paths@, true))),
            },
        ),
    }
}

pub open spec fn text_view(r: Result<String, HandlerError>) -> Result<Seq<char>, Fault> {
    match r {
        Ok(s) => Ok(s@),
        Err(e) => Err(e@),
    }
}

fn resolve_rw(policy: &Policy, raw: &str, label: &str, seen: &Resolution) -> (r: Result<String, HandlerError>)
    ensures
        text_view(r) == writable(*policy, raw@, label@, *seen),
{
    match policy.resolve_path(raw, true, seen) {
        Some(p) => Ok(p),
        None => {
            let mut details = no_object();
            set_field(&mut details, "writable_paths", strings(&list_paths(&policy.file_ops_paths, true)));
            Err(
                HandlerError::with_details(
                    "path_not_allowed",
                    &cat4(label, " ", &quoted(raw), " is outside the file_ops rw allowlist"),
                    details,
                ),
            )
        },
    }
}

/// A move or a copy: the two paths as they are named and as they are, and whether a
/// file in the way is replaced.
pub struct PairPlan {
    pub src_raw: String,
    pub dst_raw: String,
    pub src: String,
    pub dst: String,
    pub overwrite: bool,
}

pub struct Pair {
    pub src_raw: Seq<char>,
    pub dst_raw: Seq<char>,
    pub src: Seq<char>,
    pub dst: Seq<char>,
    pub overwrite: bool,
}

impl View for PairPlan {
    type V = Pair;

    open spec fn view(&self) -> Pair {
        Pair {
            src_raw: self.src_raw@,
            dst_raw: self.dst_raw@,
            src: self.src@,
            dst: self.dst@,
            overwrite: self.overwrite,
        }
    }
}

/// A move or a copy that a payload asks for. Both ends must be open for writing.
pub open spec fn pair_of(policy: Policy, payload: Fields, seen_src: Resolution, seen_dst: Resolution) -> Result<Pair, Fault> {
    match required_text(payload, "src"@) {
        Err(f) => Err(f),
        Ok(src_raw) => match required_text(payload, "dst"@) {
            Err(f) => Err(f),
            Ok(dst_raw) => match writable(policy, src_raw, "src"@, seen_src) {
                Err(f) => Err(f),
                Ok(src) => match writable(policy, dst_raw, "dst"@, seen_dst) {
                    Err(f) => Err(f),
                    Ok(dst) => Ok(
                        Pair { src_raw, dst_raw, src, dst, overwrite: as_flag(get(payload, "overwrite"@)) == Some(true) },
                    ),
                },
            },
        },
    }
}

/// The move or the copy that a request asks for. What the file system says of the
/// two paths comes with it.
pub fn pair_plan(policy: &Policy, payload: &Object, seen_src: &Resolution, seen_dst: &Resolution) -> (r: Result<
    PairPlan,
    HandlerError,
>)
    ensures
        (match r {
            Ok(p) => Ok(p@),
            Err(e) => Err(e@),
        }) == pair_of(*policy, fields(payload@), *seen_src, *seen_dst),
{
    let src_raw = match require_str(payload, "src") {
        Ok(s) => s,
        Err(e) => return Err(e),
    };
    let dst_raw = match require_str(payload, "dst") {
        Ok(s) => s,
        Err(e) => return Err(e),
    };
    let src = match resolve_rw(policy, src_raw, "src", seen_src) {
        Ok(s) => s,
        Err(e) => return Err(e),
    };
    let dst = match resolve_rw(policy, dst_raw, "dst", seen_dst) {
        Ok(s) => s,
        Err(e) => return Err(e),
    };
    Ok(
        PairPlan {
            src_raw: src_raw.to_owned(),
            dst_raw: dst_raw.to_owned(),
            src,
            dst,
            overwrite: read_flag(payload, "overwrite"),
        },
    )
}

/// What stands in the way of a move or a copy.
pub open spec fn pair_fault(p: Pair, src_present: bool, dst_present: bool) -> Option<Fault> {
    if !src_present {
        Some(fault("not_found"@, "src does not exist: "@ + debug_text(p.src_raw)))
    } else if dst_present && !p.overwrite {
        Some(fault("exists"@, "dst already exists: "@ + debug_text(p.dst_raw)))
    } else {
        None
    }
}

/// Whether a move or a copy can be made, given which of the two paths is there.
pub fn check_pair(p: &PairPlan, src_present: bool, dst_present: bool) -> (r: Result<(), HandlerError>)
    ensures
        match r {
            Ok(_) => pair_fault(p@, src_present, dst_present) is None,
            Err(e) => pair_fault(p@, src_present, dst_present) == Some(e@),
        },
{
    if !src_present {
        return Err(HandlerError::new("not_found", &cat2("src does not exist: ", &quoted(&p.src_raw))));
    }
    if dst_present && !p.overwrite {
        return Err(HandlerError::new("exists", &cat2("dst already exists: ", &quoted(&p.dst_raw))));
    }
    Ok(())
}

/// A move that failed.
pub fn move_failure(denied: bool, error: &str) -> (r: HandlerError)
    ensures
        r@ == fault(
            if denied {
                "permission_denied"@
            } else {
                "move_failed"@
            },
            "move failed: "@ + error@,
        ),
{
    let code = if denied {
        "permission_denied"
    } else {
        "move_failed"
    };
    HandlerError::new(code, &cat2("move failed: ", error))
}

/// What is answered to a move.
pub fn move_result(p: &PairPlan) -> (r: Object)
    ensures
        fields(r@) == move_fields(p@),
{
    let mut o = no_object();
    set_field(&mut o, "ok", Json::Bool(true));
    set_field(&mut o, "op", string("move"));
    set_field(&mut o, "src", string(&p.src));
    set_field(&mut o, "dst", string(&p.dst));
    o
}

pub open spec fn tree_or_file(is_tree: bool) -> Seq<char> {
    if is_tree {
        "dir"@
    } else {
        "file"@
    }
}

fn kind_text(is_tree: bool) -> (r: &'static str)
    ensures
        r@ == tree_or_file(is_tree),
{
    if is_tree {
        "dir"
    } else {
        "file"
    }
}

/// What is answered to a copy, of a directory or of a file.
pub fn copy_result(p: &PairPlan, is_tree: bool) -> (r: Object)
    ensures
        fields(r@) == copy_fields(p@, is_tree),
{
    let mut o = no_object();
    set_field(&mut o, "ok", Json::Bool(true));
    set_field(&mut o, "op", string("copy"));
    set_field(&mut o, "src", string(&p.src));
    set_field(&mut o, "dst", string(&p.dst));
    set_field(&mut o, "kind", string(kind_text(is_tree)));
    o
}

/// A path that a payload names, and that is open for writing.
pub open spec fn target_of(policy: Policy, payload: Fields, seen: Resolution) -> Result<(Seq<char>, Seq<char>), Fault> {
    match required_text(payload, "path"@) {
        Err(f) => Err(f),
        Ok(raw) => match writable(policy, raw, "path"@, seen) {
            Err(f) => Err(f),
            Ok(path) => Ok((raw, path)),
        },
    }
}

pub open spec fn pair_text(r: Result<(String, String), HandlerError>) -> Result<(Seq<char>, Seq<char>), Fault> {
    match r {
        Ok((a, b)) => Ok((a@, b@)),
        Err(e) => Err(e@),
    }
}

/// The path that a request deletes, as it is named and as it is.
pub fn delete_target(policy: &Policy, payload: &Object, seen: &Resolution) -> (r: Result<(String, String), HandlerError>)
    ensures
        pair_text(r) == target_of(*policy, fields(payload@), *seen),
{
    let raw = match require_str(payload, "path") {
        Ok(s) => s,
        Err(e) => return Err(e),
    };
    match resolve_rw(policy, raw, "path", seen) {
        Ok(p) => Ok((raw.to_owned(), p)),
        Err(e) => Err(e),
    }
}

/// What stands in the way of deleting. A directory is only deleted where the
/// request says that it may be.
pub open spec fn delete_fault(payload: Fields, raw: Seq<char>, present: bool, is_symlink: bool, is_tree: bool) -> Option<Fault> {
    if !present && !is_symlink {
        Some(fault("not_found"@, "path does not exist: "@ + debug_text(raw)))
    } else if is_tree && as_flag(get(payload, "recursive"@)) != Some(true) {
        Some(
            fault("is_directory"@, debug_text(raw) + " is a directory; pass recursive=true to delete it"@),
        )
    } else {
        None
    }
}

/// Whether a path can be deleted, given what it is.
pub fn check_delete(payload: &Object, raw: &str, present: bool, is_symlink: bool, is_tree: bool) -> (r: Result<(), HandlerError>)
    ensures
        match r {
            Ok(_) => delete_fault(fields(payload@), raw@, present, is_symlink, is_tree) is None,
            Err(e) => delete_fault(fields(payload@), raw@, present, is_symlink, is_tree) == Some(e@),
        },
{
    if !present && !is_symlink {
        return Err(HandlerError::new("not_found", &cat2("path does not exist: ", &quoted(raw))));
    }
    if is_tree && !read_flag(payload, "recursive") {
        return Err(
            HandlerError::new(
                "is_directory",
                &cat2(&quoted(raw), " is a directory; pass recursive=true to delete it"),
            ),
        );
    }
    Ok(())
}

/// A path with another name at its end.
pub open spec fn renamed(path: Seq<char>, name: Seq<char>) -> Seq<char> {
    match file_name(path) {
        Some(_) => joined(
            match parent(path) {
                Some(p) => p,
                None => path,
            },
            name,
        ),
        None => joined(path, name),
    }
}

fn rename_last(path: &str, name: &str) -> (r: String)
    ensures
        r@ == renamed(path@, name@),
{
    match file_name_of(path) {
        Some(_) => match parent_of(path) {
            Some(p) => join(&p, name),
            None => join(path, name),
        },
        None => join(path, name),
    }
}

/// Where a file or a directory is kept before it is deleted.
pub open spec fn backup_of(path: Seq<char>, is_tree: bool, now: Timestamp) -> Seq<char> {
    let stamp = formatted_time(now.secs, now.nanos, BACKUP_LAYOUT@);
    let name = match file_name(path) {
        Some(n) => n,
        None => tree_or_file(is_tree),
    };
    renamed(
        path,
        if is_tree {
            name + ".bak."@ + stamp + ".tar.gz"@
        } else {
            name + ".bak."@ + stamp
        },
    )
}

/// Where what is deleted is kept: a copy beside it, packed for a directory.
pub fn backup_path(path: &str, is_tree: bool, now: Timestamp) -> (r: String)
    ensures
        r@ == backup_of(path@, is_tree, now),
{
    let stamp = format_time(now, BACKUP_LAYOUT);
    let name = match file_name_of(path) {
        Some(n) => n,
        None => kind_text(is_tree).to_owned(),
    };
    if is_tree {
        rename_last(path, &cat4(&name, ".bak.", &stamp, ".tar.gz"))
    } else {
        rename_last(path, &cat3(&name, ".bak.", &stamp))
    }
}

/// What is answered to deleting.
pub fn delete_result(path: &str, is_tree: bool, backup: &str) -> (r: Object)
    ensures
        fields(r@) == delete_fields(path@, is_tree, backup@),
{
    let mut o = no_object();
    set_field(&mut o, "ok", Json::Bool(true));
    set_field(&mut o, "op", string("delete"));
    set_field(&mut o, "path", string(path));
    set_field(&mut o, "kind", string(kind_text(is_tree)));
    set_field(&mut o, "backup", string(backup));
    o
}

/// A text without the marks of an octal number before it.
pub open spec fn unmarked(s: Seq<char>) -> Seq<char>
    decreases s.len(),
{
    if "0o"@.len() > 0 && prefixed(s, "0o"@) {
        unmarked(s.skip("0o"@.len() as int))
    } else {
        s
    }
}

fn strip_marks(s: &str) -> (r: String)
    ensures
        r@ == unmarked(s@),
{
    let mut rest = s.to_owned();
    loop
        invariant_except_break
            unmarked(rest@) == unmarked(s@),
        ensures
            rest@ == unmarked(s@),
        decreases rest@.len(),
    {
        proof {
            reveal_strlit("0o");
        }
        match strip_prefix(&rest, "0o") {
            Some(next) => {
                rest = next;
            },
            None => {
                break;
            },
        }
    }
    rest
}

/// The bits that an octal text writes.
pub open spec fn mode_of(text: Seq<char>) -> Result<int, Fault> {
    match parsed(unmarked(text), 8, u32::MAX as int) {
        Some(n) => Ok(n),
        None => Err(fault("invalid_payload"@, "mode must be octal: "@ + debug_text(text))),
    }
}

/// A change of what may be done with a file.
pub struct ModePlan {
    pub raw: String,
    pub path: String,
    pub mode: u32,
}

pub open spec fn mode_plan_of(policy: Policy, payload: Fields, seen: Resolution) -> Result<(Seq<char>, Seq<char>, int), Fault> {
    match required_text(payload, "path"@) {
        Err(f) => Err(f),
        Ok(raw) => match required_text(payload, "mode"@) {
            Err(f) => Err(f),
            Ok(text) => match mode_of(text) {
                Err(f) => Err(f),
                Ok(mode) => match writable(policy, raw, "path"@, seen) {
                    Err(f) => Err(f),
                    Ok(path) => Ok((raw, path, mode)),
                },
            },
        },
    }
}

/// The change that a request makes to what may be done with a file.
pub fn mode_plan(policy: &Policy, payload: &Object, seen: &Resolution) -> (r: Result<ModePlan, HandlerError>)
    ensures
        (match r {
            Ok(p) => Ok((p.raw@, p.path@, p.mode as int)),
            Err(e) => Err(e@),
        }) == mode_plan_of(*policy, fields(payload@), *seen),
{
    let raw = match require_str(payload, "path") {
        Ok(s) => s,
        Err(e) => return Err(e),
    };
    let text = match require_str(payload, "mode") {
        Ok(s) => s,
        Err(e) => return Err(e),
    };
    let mode = match parse_radix(&strip_marks(text), 8, u32::MAX as u64) {
        Some(n) => n as u32,
        None => return Err(HandlerError::new("invalid_payload", &cat2("mode must be octal: ", &quoted(text)))),
    };
    match resolve_rw(policy, raw, "path", seen) {
        Ok(path) => Ok(ModePlan { raw: raw.to_owned(), path, mode }),
        Err(e) => Err(e),
    }
}

/// Whether a path is there that a request changes.
pub fn check_present(raw: &str, present: bool) -> (r: Result<(), HandlerError>)
    ensures
        match r {
            Ok(_) => present,
            Err(e) => !present && e@ == fault("not_found"@, "path does not exist: "@ + debug_text(raw@)),
        },
{
    if present {
        Ok(())
    } else {
        Err(HandlerError::new("not_found", &cat2("path does not exist: ", &quoted(raw))))
    }
}

/// What is answered to a change of mode.
pub fn chmod_result(p: &ModePlan) -> (r: Object)
    ensures
        fields(r@) == chmod_fields(p.path@, p.mode),
{
    let mut o = no_object();
    set_field(&mut o, "ok", Json::Bool(true));
    set_field(&mut o, "op", string("chmod"));
    set_field(&mut o, "path", string(&p.path));
    set_field(&mut o, "mode", Json::Text(cat2("0o", &numeral_text(p.mode as u64, 8))));
    o
}

/// A change of who owns a file.
pub struct OwnerPlan {
    pub raw: String,
    pub path: String,
    pub owner: Option<String>,
    pub group: Option<String>,
    /// Owner and group as a command takes them.
    pub spec_text: String,
}

/// A text that is not empty.
pub open spec fn filled(payload: Fields, key: Seq<char>) -> Option<Seq<char>> {
    match as_text(get(payload, key)) {
        Some(s) => if s.len() > 0 {
            Some(s)
        } else {
            None
        },
        None => None,
    }
}

fn read_filled(payload: &Object, key: &str) -> (r: Option<String>)
    ensures
        opt_view(r) == filled(fields(payload@), key@),
{
    match text_field(payload, key) {
        Some(s) => if s.is_empty() {
            None
        } else {
            Some(s.to_owned())
        },
        None => None,
    }
}

/// Owner and group as a command takes them.
pub open spec fn ownership(owner: Option<Seq<char>>, group: Option<Seq<char>>) -> Seq<char> {
    match (owner, group) {
        (Some(o), Some(g)) => o + ":"@ + g,
        (Some(o), None) => o,
        (None, Some(g)) => ":"@ + g,
        (None, None) => ""@,
    }
}

pub open spec fn owner_plan_of(policy: Policy, payload: Fields, seen: Resolution) -> Result<
    (Seq<char>, Seq<char>, Option<Seq<char>>, Option<Seq<char>>),
    Fault,
> {
    let owner = filled(payload, "owner"@);
    let group = filled(payload, "group"@);
    match required_text(payload, "path"@) {
        Err(f) => Err(f),
        Ok(raw) => if owner is None && group is None {
            Err(fault("invalid_payload"@, "at least one of 'owner' or 'group' is required"@))
        } else {
            match writable(policy, raw, "path"@, seen) {
                Err(f) => Err(f),
                Ok(path) => Ok((raw, path, owner, group)),
            }
        },
    }
}

/// The change that a request makes to who owns a file.
pub fn owner_plan(policy: &Policy, payload: &Object, seen: &Resolution) -> (r: Result<OwnerPlan, HandlerError>)
    ensures
        (match r {
            Ok(p) => Ok((p.raw@, p.path@, opt_view(p.owner), opt_view(p.group))),
            Err(e) => Err(e@),
        }) == owner_plan_of(*policy, fields(payload@), *seen),
        r matches Ok(p) ==> p.spec_text@ == ownership(opt_view(p.owner), opt_view(p.group)),
{
    let raw = match require_str(payload, "path") {
        Ok(s) => s,
        Err(e) => return Err(e),
    };
    let owner = read_filled(payload, "owner");
    let group = read_filled(payload, "group");
    let spec_text = match (&owner, &group) {
        (Some(o), Some(g)) => cat3(o, ":", g),
        (Some(o), None) => o.clone(),
        (None, Some(g)) => cat2(":", g),
        (None, None) => return Err(
            HandlerError::new("invalid_payload", "at least one of 'owner' or 'group' is required"),
        ),
    };
    match resolve_rw(policy, raw, "path", seen) {
        Ok(path) => Ok(OwnerPlan { raw: raw.to_owned(), path, owner, group, spec_text }),
        Err(e) => Err(e),
    }
}

/// What a command says that could not change who owns a file.
pub open spec fn chown_fault(stderr: Seq<u8>) -> Fault {
    let message = trimmed(lossy_text(stderr));
    let low = lowercase_text(message);
    fault(
        if contained(low, "operation not permitted"@) || contained(low, "permission denied"@) {
            "permission_denied"@
        } else {
            "chown_failed"@
        },
        if message.len() == 0 {
            "chown failed"@
        } else {
            message
        },
    )
}

/// What a command says that could not change who owns a file.
pub fn chown_failure(stderr: &[u8]) -> (r: HandlerError)
    ensures
        r@ == chown_fault(stderr@),
{
    let message = trim(&from_utf8_lossy(stderr));
    let low = to_lowercase(&message);
    let code = if contains(&low, "operation not permitted") || contains(&low, "permission denied") {
        "permission_denied"
    } else {
        "chown_failed"
    };
    if message.as_str().is_empty() {
        HandlerError::new(code, "chown failed")
    } else {
        HandlerError::new(code, &message)
    }
}

/// What is answered to a change of owner.
pub fn chown_result(p: &OwnerPlan) -> (r: Object)
    ensures
        fields(r@) == chown_fields(p.path@, opt_view(p.owner), opt_view(p.group)),
{
    let mut o = no_object();
    set_field(&mut o, "ok", Json::Bool(true));
    set_field(&mut o, "op", string("chown"));
    set_field(&mut o, "path", string(&p.path));
    set_field(&mut o, "owner", optional(&p.owner));
    set_field(&mut o, "group", optional(&p.group));
    o
}

/// What is moved, copied, deleted or given another mode or owner is open for writing,
/// at both ends, and a directory is deleted only where the request says so.
pub proof fn changes_stay_in_writable_paths(policy: Policy, payload: Fields, seen: Resolution, seen_dst: Resolution)
    ensures
        pair_of(policy, payload, seen, seen_dst) matches Ok(p) ==> resolved(policy, p.src_raw, true, seen) == Some(p.src)
            && resolved(policy, p.dst_raw, true, seen_dst) == Some(p.dst),
        target_of(policy, payload, seen) matches Ok((raw, path)) ==> resolved(policy, raw, true, seen) == Some(path),
        mode_plan_of(policy, payload, seen) matches Ok((raw, path, _)) ==> resolved(policy, raw, true, seen) == Some(path),
        owner_plan_of(policy, payload, seen) matches Ok((raw, path, _, _)) ==> resolved(policy, raw, true, seen) == Some(
            path,
        ),
        forall|raw: Seq<char>, present: bool, is_symlink: bool|
            #[trigger] delete_fault(payload, raw, present, is_symlink, true) is None ==> as_flag(get(payload, "recursive"@))
                == Some(true),
{
}

/// What is answered to a move.
pub open spec fn move_fields(p: Pair) -> Fields {
    no_fields().with("ok"@, Tree::Bool(true)).with("op"@, Tree::Text("move"@)).with("src"@, Tree::Text(p.src)).with(
        "dst"@,
        Tree::Text(p.dst),
    )
}

/// What is answered to a copy.
pub open spec fn copy_fields(p: Pair, is_tree: bool) -> Fields {
    no_fields().with("ok"@, Tree::Bool(true)).with("op"@, Tree::Text("copy"@)).with("src"@, Tree::Text(p.src)).with(
        "dst"@,
        Tree::Text(p.dst),
    ).with("kind"@, Tree::Text(tree_or_file(is_tree)))
}

/// What is answered to a deletion.
pub open spec fn delete_fields(path: Seq<char>, is_tree: bool, backup: Seq<char>) -> Fields {
    no_fields().with("ok"@, Tree::Bool(true)).with("op"@, Tree::Text("delete"@)).with("path"@, Tree::Text(path)).with(
        "kind"@,
        Tree::Text(tree_or_file(is_tree)),
    ).with("backup"@, Tree::Text(backup))
}

/// What is answered to a change of mode.
pub open spec fn chmod_fields(path: Seq<char>, mode: u32) -> Fields {
    no_fields().with("ok"@, Tree::Bool(true)).with("op"@, Tree::Text("chmod"@)).with("path"@, Tree::Text(path)).with(
        "mode"@,
        Tree::Text("0o"@ + numeral(mode as nat, 8)),
    )
}

/// What is answered to a change of owner.
pub open spec fn chown_fields(path: Seq<char>, owner: Option<Seq<char>>, group: Option<Seq<char>>) -> Fields {
    no_fields().with("ok"@, Tree::Bool(true)).with("op"@, Tree::Text("chown"@)).with("path"@, Tree::Text(path)).with(
        "owner"@,
        text_or_null(owner),
    ).with("group"@, text_or_null(group))
}

/// What is answered to a change of files says what was done to which files.
pub proof fn changes_are_told(p: Pair, path: Seq<char>, is_tree: bool, backup: Seq<char>, mode: u32)
    ensures
        get(move_fields(p), "op"@) == Some(Tree::Text("move"@)),
        get(move_fields(p), "src"@) == Some(Tree::Text(p.src)),
        get(move_fields(p), "dst"@) == Some(Tree::Text(p.dst)),
        get(move_fields(p), "ok"@) == Some(Tree::Bool(true)),
        get(copy_fields(p, is_tree), "op"@) == Some(Tree::Text("copy"@)),
        get(copy_fields(p, is_tree), "src"@) == Some(Tree::Text(p.src)),
        get(copy_fields(p, is_tree), "dst"@) == Some(Tree::Text(p.dst)),
        get(copy_fields(p, is_tree), "ok"@) == Some(Tree::Bool(true)),
        get(copy_fields(p, true), "kind"@) == Some(Tree::Text("dir"@)),
        get(copy_fields(p, false), "kind"@) == Some(Tree::Text("file"@)),
        get(delete_fields(path, is_tree, backup), "op"@) == Some(Tree::Text("delete"@)),
        get(delete_fields(path, is_tree, backup), "path"@) == Some(Tree::Text(path)),
        get(delete_fields(path, is_tree, backup), "backup"@) == Some(Tree::Text(backup)),
        get(delete_fields(path, is_tree, backup), "ok"@) == Some(Tree::Bool(true)),
        get(delete_fields(path, true, backup), "kind"@) == Some(Tree::Text("dir"@)),
        get(delete_fields(path, false, backup), "kind"@) == Some(Tree::Text("file"@)),
        get(chmod_fields(path, mode), "op"@) == Some(Tree::Text("chmod"@)),
        get(chmod_fields(path, mode), "path"@) == Some(Tree::Text(path)),
        get(chmod_fields(path, mode), "ok"@) == Some(Tree::Bool(true)),
        get(chmod_fields(path, mode), "mode"@) matches Some(Tree::Text(t)) && mode_of(t) == Ok::<int, Fault>(mode as int),
{
    broadcast use lemma_get_put;

    reveal_strlit("ok");
    reveal_strlit("op");
    reveal_strlit("src");
    reveal_strlit("dst");
    reveal_strlit("kind");
    reveal_strlit("path");
    reveal_strlit("backup");
    reveal_strlit("mode");
    assert("ok"@.len() == 2 && "op"@.len() == 2 && "src"@.len() == 3 && "dst"@.len() == 3 && "kind"@.len() == 4
        && "path"@.len() == 4 && "backup"@.len() == 6 && "mode"@.len() == 4 && "ok"@[1] == 'k' && "op"@[1] == 'p'
        && "src"@[0] == 's' && "dst"@[0] == 'd' && "kind"@[0] == 'k' && "path"@[0] == 'p' && "mode"@[0] == 'm');
    octal_modes_are_read(mode);
}

/// What is answered to a change of owner names the owner and the group that were given.
pub proof fn owners_are_told(path: Seq<char>, owner: Option<Seq<char>>, group: Option<Seq<char>>)
    ensures
        get(chown_fields(path, owner, group), "op"@) == Some(Tree::Text("chown"@)),
        get(chown_fields(path, owner, group), "path"@) == Some(Tree::Text(path)),
        get(chown_fields(path, owner, group), "owner"@) == match owner {
            Some(o) => Some(Tree::Text(o)),
            None => Some(Tree::Null),
        },
        get(chown_fields(path, owner, group), "group"@) == match group {
            Some(g) => Some(Tree::Text(g)),
            None => Some(Tree::Null),
        },
{
    broadcast use lemma_get_put;

    reveal_strlit("ok");
    reveal_strlit("op");
    reveal_strlit("path");
    reveal_strlit("owner");
    reveal_strlit("group");
    assert("ok"@.len() == 2 && "op"@.len() == 2 && "path"@.len() == 4 && "owner"@.len() == 5 && "group"@.len() == 5
        && "ok"@[1] == 'k' && "op"@[1] == 'p' && "owner"@[0] == 'o' && "group"@[0] == 'g');
}

/// The mode of a file is read as an octal number, with or without its mark.
pub proof fn octal_modes_are_read(mode: u32)
    ensures
        mode_of("0o"@ + numeral(mode as nat, 8)) == Ok::<int, Fault>(mode as int),
        mode_of(numeral(mode as nat, 8)) == Ok::<int, Fault>(mode as int),
{
    reveal_strlit("0o");
    let n = numeral(mode as nat, 8);
    let s = "0o"@ + n;
    numerals_are_read_back(mode as nat, 8, u32::MAX as int);
    lemma_octal_begins(mode as nat);
    assert(s.take(2) =~= "0o"@);
    assert(s.skip(2) =~= n);
    assert(!prefixed(n, "0o"@)) by {
        if prefixed(n, "0o"@) {
            assert(n.take(2)[1] == 'o');
            assert(n[1] == 'o');
        }
    }
    reveal_with_fuel(unmarked, 2);
}

proof fn lemma_octal_begins(n: nat)
    ensures
        forall|i: int| 0 <= i < numeral(n, 8).len() ==> '0' <= #[trigger] numeral(n, 8)[i] <= '7',
    decreases n,
{
    if n >= 8 {
        lemma_octal_begins(n / 8);
        let t = numeral(n / 8, 8);
        assert forall|i: int| 0 <= i < numeral(n, 8).len() implies '0' <= #[trigger] numeral(n, 8)[i] <= '7' by {
            if i < t.len() {
                assert(numeral(n, 8)[i] == t[i]);
            }
        }
    }
}

/// A change of mode or owner is of the file, and to the mode, the owner and the group,
/// that the request names.
pub proof fn changes_are_as_asked_for(policy: Policy, payload: Fields, seen: Resolution)
    ensures
        mode_plan_of(policy, payload, seen) matches Ok((raw, path, mode)) ==> get(payload, "path"@) == Some(Tree::Text(raw))
            && (get(payload, "mode"@) matches Some(Tree::Text(t)) && mode_of(t) == Ok::<int, Fault>(mode)),
        owner_plan_of(policy, payload, seen) matches Ok((raw, path, owner, group)) ==> {
            &&& get(payload, "path"@) == Some(Tree::Text(raw))
            &&& owner matches Some(o) ==> get(payload, "owner"@) == Some(Tree::Text(o)) && o.len() > 0
            &&& group matches Some(g) ==> get(payload, "group"@) == Some(Tree::Text(g)) && g.len() > 0
            &&& owner is Some || group is Some
            &&& (get(payload, "owner"@) matches Some(Tree::Text(o)) && o.len() > 0) ==> owner is Some
            &&& (get(payload, "group"@) matches Some(Tree::Text(g)) && g.len() > 0) ==> group is Some
        },
        target_of(policy, payload, seen) matches Ok((raw, path)) ==> get(payload, "path"@) == Some(Tree::Text(raw)),
{
}

/// Owner and group are given to a command as it reads them: with a colon between them,
/// and one before a group alone.
pub proof fn owners_are_passed_on(owner: Seq<char>, group: Seq<char>)
    ensures
        ownership(Some(owner), Some(group)) == owner + seq![':'] + group,
        ownership(Some(owner), None) == owner,
        ownership(None, Some(group)) == seq![':'] + group,
{
    reveal_strlit(":");
    assert(":"@ =~= seq![':']);
}

/// A move or a copy is from the source to the target that the request names, and only
/// over something else where it says so.
pub proof fn pairs_are_as_asked_for(policy: Policy, payload: Fields, seen_src: Resolution, seen_dst: Resolution)
    ensures
        pair_of(policy, payload, seen_src, seen_dst) matches Ok(p) ==> {
            &&& get(payload, "src"@) == Some(Tree::Text(p.src_raw))
            &&& get(payload, "dst"@) == Some(Tree::Text(p.dst_raw))
            &&& resolved(policy, p.src_raw, true, seen_src) == Some(p.src)
            &&& resolved(policy, p.dst_raw, true, seen_dst) == Some(p.dst)
            &&& p.overwrite <==> get(payload, "overwrite"@) == Some(Tree::Bool(true))
            &&& pair_fault(p, false, false) matches Some(f) && f.code == "not_found"@
            &&& !p.overwrite ==> (pair_fault(p, true, true) matches Some(f) && f.code == "exists"@)
            &&& p.overwrite ==> pair_fault(p, true, true) is None
            &&& pair_fault(p, true, false) is None
        },
{
}

/// What is not there is not deleted, and a directory only where the request says so; a
/// link to nothing is there.
pub proof fn deletions_are_careful(payload: Fields, raw: Seq<char>)
    ensures
        delete_fault(payload, raw, false, false, false) matches Some(f) && f.code == "not_found"@,
        delete_fault(payload, raw, false, true, false) is None,
        delete_fault(payload, raw, true, false, false) is None,
        get(payload, "recursive"@) == Some(Tree::Bool(true)) ==> delete_fault(payload, raw, true, false, true) is None,
        get(payload, "recursive"@) is None ==> (delete_fault(payload, raw, true, false, true) matches Some(f) && f.code
            == "is_directory"@),
{
}

} // verus!
