//! The operations of the protocol and their names.

use crate::text::same;
use vstd::prelude::*;

verus! {

/// An operation that a request names.
#[derive(Debug, Clone, Copy, PartialEq, Eq, Hash, Structural)]
pub enum Op {
    Ping,
    Capabilities,
    Help,
    State,
    Exec,
    ScriptRun,
    Edit,
    EditUploadInit,
    EditUploadFile,
    EditUploadComplete,
    Restart,
    Service,
    UploadInit,
    UploadChunk,
    UploadComplete,
    UploadFile,
    Read,
    List,
    Search,
    ProjectSnapshot,
    ReadAudit,
    Move,
    Copy,
    Delete,
    Chmod,
    Chown,
    Git,
    FileExportInit,
    FileExportChunk,
    FileExportComplete,
    LocalApi,
}

/// The name of an operation on the wire.
pub open spec fn op_name(op: Op) -> Seq<char> {
    match op {
        Op::Ping => "ping"@,
        Op::Capabilities => "capabilities"@,
        Op::Help => "help"@,
        Op::State => "state"@,
        Op::Exec => "exec"@,
        Op::ScriptRun => "script_run"@,
        Op::Edit => "edit"@,
        Op::EditUploadInit => "edit_upload_init"@,
        Op::EditUploadFile => "edit_upload_file"@,
        Op::EditUploadComplete => "edit_upload_complete"@,
        Op::Restart => "restart"@,
        Op::Service => "service"@,
        Op::UploadInit => "upload_init"@,
        Op::UploadChunk => "upload_chunk"@,
        Op::UploadComplete => "upload_complete"@,
        Op::UploadFile => "upload_file"@,
        Op::Read => "read"@,
        Op::List => "list"@,
        Op::Search => "search"@,
        Op::ProjectSnapshot => "project_snapshot"@,
        Op::ReadAudit => "read_audit"@,
        Op::Move => "move"@,
        Op::Copy => "copy"@,
        Op::Delete => "delete"@,
        Op::Chmod => "chmod"@,
        Op::Chown => "chown"@,
        Op::Git => "git"@,
        Op::FileExportInit => "file_export_init"@,
        Op::FileExportChunk => "file_export_chunk"@,
        Op::FileExportComplete => "file_export_complete"@,
        Op::LocalApi => "local_api"@,
    }
}

/// Every operation, in the order of the protocol.
pub open spec fn all_ops() -> Seq<Op> {
    seq![
        Op::Ping,
        Op::Capabilities,
        Op::Help,
        Op::State,
        Op::Exec,
        Op::ScriptRun,
        Op::Edit,
        Op::EditUploadInit,
        Op::EditUploadFile,
        Op::EditUploadComplete,
        Op::Restart,
        Op::Service,
        Op::UploadInit,
        Op::UploadChunk,
        Op::UploadComplete,
        Op::UploadFile,
        Op::Read,
        Op::List,
        Op::Search,
        Op::ProjectSnapshot,
        Op::ReadAudit,
        Op::Move,
        Op::Copy,
        Op::Delete,
        Op::Chmod,
        Op::Chown,
        Op::Git,
        Op::FileExportInit,
        Op::FileExportChunk,
        Op::FileExportComplete,
        Op::LocalApi,
    ]
}

/// The first of `ops` that has the name `name`.
pub open spec fn named_in(ops: Seq<Op>, name: Seq<char>) -> Option<Op>
    decreases ops.len(),
{
    if ops.len() == 0 {
        None
    } else if op_name(ops[0]) == name {
        Some(ops[0])
    } else {
        named_in(ops.drop_first(), name)
    }
}

/// The operation with the name `name`.
pub open spec fn op_named(name: Seq<char>) -> Option<Op> {
    named_in(all_ops(), name)
}

proof fn lemma_named_in(ops: Seq<Op>, name: Seq<char>)
    ensures
        match named_in(ops, name) {
            Some(op) => ops.contains(op) && op_name(op) == name,
            None => forall|i: int| 0 <= i < ops.len() ==> op_name(#[trigger] ops[i]) != name,
        },
    decreases ops.len(),
{
    if ops.len() > 0 {
        let t = ops.drop_first();
        lemma_named_in(t, name);
        if op_name(ops[0]) == name {
            assert(ops.contains(ops[0]));
        } else {
            match named_in(t, name) {
                Some(op) => {
                    let i = choose|i: int| 0 <= i < t.len() && t[i] == op;
                    assert(ops[i + 1] == op);
                },
                None => {
                    assert forall|i: int| 0 <= i < ops.len() implies op_name(#[trigger] ops[i]) != name by {
                        if i > 0 {
                            assert(t[i - 1] == ops[i]);
                        }
                    }
                },
            }
        }
    }
}

/// What `op_named` finds has the name.
pub proof fn lemma_op_named(name: Seq<char>)
    ensures
        op_named(name) matches Some(op) ==> op_name(op) == name,
{
    lemma_named_in(all_ops(), name);
}

/// Every operation is listed.
pub proof fn lemma_all_ops_complete(op: Op)
    ensures
        all_ops().contains(op),
{
    let s = all_ops();
    match op {
        Op::Ping => {
            assert(s[0] == op);
        },
        Op::Capabilities => {
            assert(s[1] == op);
        },
        Op::Help => {
            assert(s[2] == op);
        },
        Op::State => {
            assert(s[3] == op);
        },
        Op::Exec => {
            assert(s[4] == op);
        },
        Op::ScriptRun => {
            assert(s[5] == op);
        },
        Op::Edit => {
            assert(s[6] == op);
        },
        Op::EditUploadInit => {
            assert(s[7] == op);
        },
        Op::EditUploadFile => {
            assert(s[8] == op);
        },
        Op::EditUploadComplete => {
            assert(s[9] == op);
        },
        Op::Restart => {
            assert(s[10] == op);
        },
        Op::Service => {
            assert(s[11] == op);
        },
        Op::UploadInit => {
            assert(s[12] == op);
        },
        Op::UploadChunk => {
            assert(s[13] == op);
        },
        Op::UploadComplete => {
            assert(s[14] == op);
        },
        Op::UploadFile => {
            assert(s[15] == op);
        },
        Op::Read => {
            assert(s[16] == op);
        },
        Op::List => {
            assert(s[17] == op);
        },
        Op::Search => {
            assert(s[18] == op);
        },
        Op::ProjectSnapshot => {
            assert(s[19] == op);
        },
        Op::ReadAudit => {
            assert(s[20] == op);
        },
        Op::Move => {
            assert(s[21] == op);
        },
        Op::Copy => {
            assert(s[22] == op);
        },
        Op::Delete => {
            assert(s[23] == op);
        },
        Op::Chmod => {
            assert(s[24] == op);
        },
        Op::Chown => {
            assert(s[25] == op);
        },
        Op::Git => {
            assert(s[26] == op);
        },
        Op::FileExportInit => {
            assert(s[27] == op);
        },
        Op::FileExportChunk => {
            assert(s[28] == op);
        },
        Op::FileExportComplete => {
            assert(s[29] == op);
        },
        Op::LocalApi => {
            assert(s[30] == op);
        },
    }
}

/// No two operations share a name, so a name leads back to its operation.
pub proof fn names_are_distinct(a: Op, b: Op)
    ensures
        op_name(a) == op_name(b) ==> a == b,
        op_named(op_name(a)) == Some(a),
{
    lemma_distinct(a, b);
    lemma_all_ops_complete(a);
    lemma_named_in(all_ops(), op_name(a));
    match op_named(op_name(a)) {
        Some(op) => {
            lemma_distinct(op, a);
        },
        None => {
            let i = choose|i: int| 0 <= i < all_ops().len() && all_ops()[i] == a;
            assert(op_name(all_ops()[i]) != op_name(a));
        },
    }
}

proof fn lemma_distinct(a: Op, b: Op)
    ensures
        op_name(a) == op_name(b) ==> a == b,
{
    reveal_strlit("ping");
    reveal_strlit("capabilities");
    reveal_strlit("help");
    reveal_strlit("state");
    reveal_strlit("exec");
    reveal_strlit("script_run");
    reveal_strlit("edit");
    reveal_strlit("edit_upload_init");
    reveal_strlit("edit_upload_file");
    reveal_strlit("edit_upload_complete");
    reveal_strlit("restart");
    reveal_strlit("service");
    reveal_strlit("upload_init");
    reveal_strlit("upload_chunk");
    reveal_strlit("upload_complete");
    reveal_strlit("upload_file");
    reveal_strlit("read");
    reveal_strlit("list");
    reveal_strlit("search");
    reveal_strlit("project_snapshot");
    reveal_strlit("read_audit");
    reveal_strlit("move");
    reveal_strlit("copy");
    reveal_strlit("delete");
    reveal_strlit("chmod");
    reveal_strlit("chown");
    reveal_strlit("git");
    reveal_strlit("file_export_init");
    reveal_strlit("file_export_chunk");
    reveal_strlit("file_export_complete");
    reveal_strlit("local_api");
    let n = op_name(a);
    let m = op_name(b);
    assert(n == m ==> n.len() == m.len() && forall|i: int| 0 <= i < n.len() ==> n[i] == m[i]);
    assert(n == m && n.len() > 0 ==> n[0] == m[0]);
    assert(n == m && n.len() > 1 ==> n[1] == m[1]);
    assert(n == m && n.len() > 2 ==> n[2] == m[2]);
    assert(n == m && n.len() > 7 ==> n[7] == m[7]);
    assert(n == m && n.len() > 12 ==> n[12] == m[12]);
}

impl Op {
    /// The name of the operation on the wire.
    pub fn as_str(self) -> (r: &'static str)
        ensures
            r@ == op_name(self),
    {
        match self {
            Op::Ping => "ping",
            Op::Capabilities => "capabilities",
            Op::Help => "help",
            Op::State => "state",
            Op::Exec => "exec",
            Op::ScriptRun => "script_run",
            Op::Edit => "edit",
            Op::EditUploadInit => "edit_upload_init",
            Op::EditUploadFile => "edit_upload_file",
            Op::EditUploadComplete => "edit_upload_complete",
            Op::Restart => "restart",
            Op::Service => "service",
            Op::UploadInit => "upload_init",
            Op::UploadChunk => "upload_chunk",
            Op::UploadComplete => "upload_complete",
            Op::UploadFile => "upload_file",
            Op::Read => "read",
            Op::List => "list",
            Op::Search => "search",
            Op::ProjectSnapshot => "project_snapshot",
            Op::ReadAudit => "read_audit",
            Op::Move => "move",
            Op::Copy => "copy",
            Op::Delete => "delete",
            Op::Chmod => "chmod",
            Op::Chown => "chown",
            Op::Git => "git",
            Op::FileExportInit => "file_export_init",
            Op::FileExportChunk => "file_export_chunk",
            Op::FileExportComplete => "file_export_complete",
            Op::LocalApi => "local_api",
        }
    }

    /// Every operation, in the order of the protocol.
    pub fn all() -> (r: Vec<Op>)
        ensures
            r@ == all_ops(),
    {
        let r = vec![
            Op::Ping,
            Op::Capabilities,
            Op::Help,
            Op::State,
            Op::Exec,
            Op::ScriptRun,
            Op::Edit,
            Op::EditUploadInit,
            Op::EditUploadFile,
            Op::EditUploadComplete,
            Op::Restart,
            Op::Service,
            Op::UploadInit,
            Op::UploadChunk,
            Op::UploadComplete,
            Op::UploadFile,
            Op::Read,
            Op::List,
            Op::Search,
            Op::ProjectSnapshot,
            Op::ReadAudit,
            Op::Move,
            Op::Copy,
            Op::Delete,
            Op::Chmod,
            Op::Chown,
            Op::Git,
            Op::FileExportInit,
            Op::FileExportChunk,
            Op::FileExportComplete,
            Op::LocalApi,
        ];
        assert(r@ =~= all_ops());
        r
    }

    /// The operation with the name `name`.
    pub fn from_name(name: &str) -> (r: Option<Op>)
        ensures
            r == op_named(name@),
    {
        let ops = Op::all();
        let mut i: usize = 0;
        assert(all_ops().skip(0) =~= all_ops());
        while i < ops.len()
            invariant
                i <= ops@.len(),
                ops@ == all_ops(),
                named_in(all_ops().skip(i as int), name@) == op_named(name@),
            decreases ops@.len() - i,
        {
            assert(all_ops().skip(i as int)[0] == ops@[i as int]);
            if same(ops[i].as_str(), name) {
                return Some(ops[i]);
            }
            assert(all_ops().skip(i as int).drop_first() =~= all_ops().skip(i + 1));
            i = i + 1;
        }
        None
    }
}

} // verus!
