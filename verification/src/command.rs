//! One shell command: deciding what a line asks for, and turning what
//! ZooKeeper answered into the text zkCli would print. The round trip to the
//! server in between is the caller's.
use vstd::prelude::*;
use crate::acl::{acl_views, acls_result, all_acl_lines, create_acl_views, create_acls, format_acls,
    parse_acls, trim_line_feeds, Acl, AclView};
use crate::args::{create_args_result, delete_args_result, parse_create_args, parse_delete_args,
    parse_set_args, set_args_result, tokenize, CreateArgs};
use crate::order::{ascending, sort_texts};
use crate::stat::{format_stat, is_stat_block, Stat};
use crate::text::{decimal_text, joined, lowered, push_count, text_is, texts, to_lower, words};

verus! {

pub const HELP: &'static str = r#"支持的 zkCli 命令：
  ls <path>                          列出子节点
  stat <path>                        查看节点状态
  get <path>                         查看节点数据和状态
  set [-v <version>] <path> <data>   设置节点数据
  create [-s] [-e] <path> [data] [acl]  创建节点（-s 顺序，-e 临时）
  delete [-v <version>] <path>       删除节点（有子节点时报错）
  deleteall <path> / rmr <path>      递归删除节点及全部子节点
  getAcl <path>                      查看节点 ACL
  setAcl <path> <scheme:id:perms>[,..]  整体替换节点 ACL，如 world:anyone:rwcda
  addauth <scheme> <auth>            追加认证信息，如 addauth digest user:pass
  whoami                             查看当前会话认证身份
  help                               显示本帮助
  history / clear / quit             由界面本地处理
说明：数据包含空格时直接连写即可，无需引号；acl 中 perms 为 rwcda 字母组合或 0-31 整数。"#;

// ---------------------------------------------------------------------------
// Errors from ZooKeeper
// ---------------------------------------------------------------------------

/// The kinds of ZooKeeper error the shell words itself; every other error
/// is shown with the client library's own message.
#[derive(Clone, Copy, Debug, PartialEq, Eq, Structural)]
pub enum ErrorKind {
    NoNode,
    NodeExists,
    NotEmpty,
    BadVersion,
    NoAuth,
    Other,
}

/// An error a ZooKeeper call ended with: its kind, and the message the
/// client library gives for it.
#[derive(Clone, Debug, PartialEq, Eq)]
pub struct ZkError {
    pub kind: ErrorKind,
    pub message: String,
}

/// How zkCli words an error of a call on `path`.
pub open spec fn cli_error(kind: ErrorKind, message: Seq<char>, path: Seq<char>) -> Seq<char> {
    match kind {
        ErrorKind::NoNode => "Node does not exist: "@ + path,
        ErrorKind::NodeExists => "Node already exists: "@ + path,
        ErrorKind::NotEmpty => "Node not empty: "@ + path,
        ErrorKind::BadVersion => "version No. is not valid: "@ + path,
        ErrorKind::NoAuth => "NO_AUTH:not authorized（权限不足）: "@ + path,
        ErrorKind::Other => message,
    }
}

/// Words an error of a call on `path` the way zkCli does.
pub fn zk_cli_error(error: ZkError, path: &str) -> (r: String)
    ensures
        r@ == cli_error(error.kind, error.message@, path@),
{
    let mut out = match error.kind {
        ErrorKind::NoNode => String::from_str("Node does not exist: "),
        ErrorKind::NodeExists => String::from_str("Node already exists: "),
        ErrorKind::NotEmpty => String::from_str("Node not empty: "),
        ErrorKind::BadVersion => String::from_str("version No. is not valid: "),
        ErrorKind::NoAuth => String::from_str("NO_AUTH:not authorized（权限不足）: "),
        ErrorKind::Other => {
            return error.message;
        },
    };
    out.append(path);
    out
}

// ---------------------------------------------------------------------------
// Node data as text
// ---------------------------------------------------------------------------

/// What `String::from_utf8_lossy` makes of some bytes.
pub uninterp spec fn lossy_text(bytes: Seq<u8>) -> Seq<char>;

/// Node data as text, through `String::from_utf8_lossy` (and `into_owned`).
/// Valid UTF-8 is decoded as it is; what replaces invalid sequences is named
/// and left unsaid.
#[verifier::external_body]
fn text_of_bytes(bytes: &[u8]) -> (r: String)
    ensures
        r@ == lossy_text(bytes@),
        vstd::utf8::valid_utf8(bytes@) ==> r@ == vstd::utf8::decode_utf8(bytes@),
{
    String::from_utf8_lossy(bytes).into_owned()
}

// ---------------------------------------------------------------------------
// Results
// ---------------------------------------------------------------------------

/// Whether a result holds the texts `s` says.
pub open spec fn result_is(r: Result<String, String>, s: Result<Seq<char>, Seq<char>>) -> bool {
    match (r, s) {
        (Ok(a), Ok(b)) => a@ == b,
        (Err(a), Err(b)) => a@ == b,
        _ => false,
    }
}

/// An authenticated identity of the session, as `whoami` lists it.
#[derive(Clone, Debug, PartialEq, Eq)]
pub struct AuthUser {
    pub scheme: String,
    pub user: String,
}

/// The kinds of node `create` makes.
#[derive(Clone, Copy, Debug, PartialEq, Eq, Structural)]
pub enum NodeMode {
    Persistent,
    PersistentSequential,
    Ephemeral,
    EphemeralSequential,
}

pub open spec fn mode_of(sequential: bool, ephemeral: bool) -> NodeMode {
    if sequential {
        if ephemeral { NodeMode::EphemeralSequential } else { NodeMode::PersistentSequential }
    } else {
        if ephemeral { NodeMode::Ephemeral } else { NodeMode::Persistent }
    }
}

/// The kind of node for the flags `-s` and `-e`.
pub fn node_mode(sequential: bool, ephemeral: bool) -> (m: NodeMode)
    ensures
        m == mode_of(sequential, ephemeral),
{
    match (sequential, ephemeral) {
        (false, false) => NodeMode::Persistent,
        (true, false) => NodeMode::PersistentSequential,
        (false, true) => NodeMode::Ephemeral,
        (true, true) => NodeMode::EphemeralSequential,
    }
}

// ---------------------------------------------------------------------------
// Turning an answer into output
// ---------------------------------------------------------------------------

/// `ls`: the children, in ascending order, as `[a, b, c]`.
pub open spec fn listing(children: Seq<Seq<char>>) -> Seq<char> {
    "["@ + joined(children, ", "@) + "]"@
}

/// Output of `ls`: the children sorted and listed as `[a, b]`, or the error worded as zkCli does.
pub fn finish_list(path: &str, reply: Result<Vec<String>, ZkError>) -> (r: Result<String, String>)
    ensures
        match reply {
            Err(e) => r is Err && r->Err_0@ == cli_error(e.kind, e.message@, path@),
            Ok(children) => r is Ok && exists|sorted: Seq<Seq<char>>|
                sorted.to_multiset() == texts(children@).to_multiset() && ascending(sorted)
                    && r->Ok_0@ == #[trigger] listing(sorted),
        },
{
    match reply {
        Err(e) => Err(zk_cli_error(e, path)),
        Ok(children) => {
            let sorted = sort_texts(children);
            let mut out = String::from_str("[");
            let inner = crate::text::join_range(sorted.as_slice(), 0, sorted.len(), ", ");
            out.append(inner.as_str());
            out.append("]");
            assert(texts(sorted@).subrange(0, sorted@.len() as int) == texts(sorted@));
            assert(out@ == listing(texts(sorted@)));
            Ok(out)
        },
    }
}

/// Output of `stat`: the status block; a node that is not there is an error.
pub fn finish_stat(path: &str, reply: Result<Option<Stat>, ZkError>) -> (r: Result<String, String>)
    ensures
        match reply {
            Err(e) => r is Err && r->Err_0@ == cli_error(e.kind, e.message@, path@),
            Ok(None) => r is Err && r->Err_0@ == "Node does not exist: "@ + path@,
            Ok(Some(stat)) => r is Ok && is_stat_block(stat, r->Ok_0@),
        },
{
    match reply {
        Err(e) => Err(zk_cli_error(e, path)),
        Ok(None) => {
            let mut out = String::from_str("Node does not exist: ");
            out.append(path);
            Err(out)
        },
        Ok(Some(stat)) => Ok(format_stat(&stat)),
    }
}

/// Output of `get`: the data as text, a line feed, and the status block.
pub fn finish_get(path: &str, reply: Result<(Vec<u8>, Stat), ZkError>) -> (r: Result<String, String>)
    ensures
        match reply {
            Err(e) => r is Err && r->Err_0@ == cli_error(e.kind, e.message@, path@),
            Ok((data, stat)) => r is Ok && exists|block: Seq<char>|
                is_stat_block(stat, block) && r->Ok_0@ == lossy_text(data@) + "\n"@ + block,
        },
{
    match reply {
        Err(e) => Err(zk_cli_error(e, path)),
        Ok((data, stat)) => {
            let mut out = text_of_bytes(data.as_slice());
            out.append("\n");
            let block = format_stat(&stat);
            out.append(block.as_str());
            assert(is_stat_block(stat, block@));
            Ok(out)
        },
    }
}

/// Output of `set`: the new status block.
pub fn finish_set(path: &str, reply: Result<Stat, ZkError>) -> (r: Result<String, String>)
    ensures
        match reply {
            Err(e) => r is Err && r->Err_0@ == cli_error(e.kind, e.message@, path@),
            Ok(stat) => r is Ok && is_stat_block(stat, r->Ok_0@),
        },
{
    match reply {
        Err(e) => Err(zk_cli_error(e, path)),
        Ok(stat) => Ok(format_stat(&stat)),
    }
}

/// What `create` prints: `Created <path>`, with the sequence number the
/// server appended when the node is sequential.
pub open spec fn created_text(path: Seq<char>, sequential: bool, sequence: Seq<char>) -> Seq<char> {
    "Created "@ + path + (if sequential { sequence } else { seq![] })
}

/// Output of `create`; `reply` holds the sequence number as the client
/// library prints it.
pub fn finish_create(path: &str, sequential: bool, reply: Result<String, ZkError>) -> (r: Result<
    String,
    String,
>)
    ensures
        match reply {
            Err(e) => r is Err && r->Err_0@ == cli_error(e.kind, e.message@, path@),
            Ok(sequence) => r is Ok && r->Ok_0@ == created_text(path@, sequential, sequence@),
        },
{
    match reply {
        Err(e) => Err(zk_cli_error(e, path)),
        Ok(sequence) => {
            let mut out = String::from_str("Created ");
            out.append(path);
            if sequential {
                out.append(sequence.as_str());
            }
            assert(out@ =~= created_text(path@, sequential, sequence@));
            Ok(out)
        },
    }
}

/// Output of `delete` and `setAcl`: nothing, or the error worded as zkCli does.
pub fn finish_update(path: &str, reply: Result<(), ZkError>) -> (r: Result<String, String>)
    ensures
        match reply {
            Err(e) => r is Err && r->Err_0@ == cli_error(e.kind, e.message@, path@),
            Ok(()) => r is Ok && r->Ok_0@.len() == 0,
        },
{
    match reply {
        Err(e) => Err(zk_cli_error(e, path)),
        Ok(()) => Ok(String::new()),
    }
}

/// Output of `deleteall`: how many nodes went; an error passes through.
pub fn finish_delete_tree(reply: Result<usize, String>) -> (r: Result<String, String>)
    ensures
        match reply {
            Err(e) => r is Err && r->Err_0@ == e@,
            Ok(n) => r is Ok && r->Ok_0@ == "已删除 "@ + decimal_text(n as int) + " 个节点"@,
        },
{
    match reply {
        Err(e) => Err(e),
        Ok(n) => {
            let mut out = String::from_str("已删除 ");
            push_count(&mut out, n);
            out.append(" 个节点");
            Ok(out)
        },
    }
}

/// Output of `getAcl`: the ACL as zkCli prints it.
pub fn finish_get_acl(path: &str, reply: Result<Vec<Acl>, ZkError>) -> (r: Result<String, String>)
    ensures
        match reply {
            Err(e) => r is Err && r->Err_0@ == cli_error(e.kind, e.message@, path@),
            Ok(acls) => r is Ok && r->Ok_0@ == trim_line_feeds(all_acl_lines(acl_views(acls@))),
        },
{
    match reply {
        Err(e) => Err(zk_cli_error(e, path)),
        Ok(acls) => Ok(format_acls(acls.as_slice())),
    }
}

/// Output of `addauth`: nothing, or the client library's message.
pub fn finish_add_auth(reply: Result<(), ZkError>) -> (r: Result<String, String>)
    ensures
        match reply {
            Err(e) => r is Err && r->Err_0@ == e.message@,
            Ok(()) => r is Ok && r->Ok_0@.len() == 0,
        },
{
    match reply {
        Err(e) => Err(e.message),
        Ok(()) => Ok(String::new()),
    }
}

/// `scheme:user` for each identity.
pub open spec fn user_lines(users: Seq<AuthUser>) -> Seq<Seq<char>> {
    users.map_values(|u: AuthUser| u.scheme@ + ":"@ + u.user@)
}

/// Output of `whoami`: each identity as `scheme:user` on a line of its own,
/// or `Not authenticated` when there is none.
pub fn finish_who_am_i(reply: Result<Vec<AuthUser>, ZkError>) -> (r: Result<String, String>)
    ensures
        match reply {
            Err(e) => r is Err && r->Err_0@ == e.message@,
            Ok(users) => r is Ok && r->Ok_0@ == (if users@.len() == 0 {
                "Not authenticated"@
            } else {
                joined(user_lines(users@), "\n"@)
            }),
        },
{
    match reply {
        Err(e) => Err(e.message),
        Ok(users) => {
            if users.len() == 0 {
                return Ok(String::from_str("Not authenticated"));
            }
            let mut lines: Vec<String> = Vec::new();
            let mut i: usize = 0;
            while i < users.len()
                invariant
                    i <= users.len(),
                    texts(lines@) == user_lines(users@.take(i as int)),
                decreases users.len() - i,
            {
                let mut line = users[i].scheme.clone();
                line.append(":");
                line.append(users[i].user.as_str());
                let ghost before = texts(lines@);
                lines.push(line);
                assert(texts(lines@) =~= before.push(line@));
                assert(user_lines(users@.take(i + 1)) =~= user_lines(users@.take(i as int)).push(line@));
                i += 1;
            }
            assert(users@.take(users.len() as int) == users@);
            let out = crate::text::join_range(lines.as_slice(), 0, lines.len(), "\n");
            assert(texts(lines@).subrange(0, lines@.len() as int) == texts(lines@));
            Ok(out)
        },
    }
}

// ---------------------------------------------------------------------------
// Deciding what a line asks for
// ---------------------------------------------------------------------------

pub const LS_USAGE: &'static str = "用法：ls <path>";

pub const STAT_USAGE: &'static str = "用法：stat <path>";

pub const GET_USAGE: &'static str = "用法：get <path>";

pub const DELETEALL_USAGE: &'static str = "用法：deleteall <path>";

pub const GETACL_USAGE: &'static str = "用法：getAcl <path>";

pub const SETACL_USAGE: &'static str = "用法：setAcl <path> <scheme:id:perms>[,..]";

pub const SETACL_SPACES: &'static str =
    "用法：setAcl <path> <scheme:id:perms>[,..]（多个条目用英文逗号分隔，不要有空格）";

pub const ADDAUTH_USAGE: &'static str = "用法：addauth <scheme> <auth>";

pub const ROOT_REFUSED: &'static str = "不能删除根节点";

pub const UNKNOWN_HEAD: &'static str = "未知命令：";

pub const UNKNOWN_TAIL: &'static str = "，输入 help 查看支持的命令";

pub const ROOT: &'static str = "/";

/// A call on the ZooKeeper session that a command needs.
pub enum Request {
    /// List the children of a node.
    ListChildren { path: String },
    /// Read a node's status, if the node is there.
    CheckStat { path: String },
    /// Read a node's data and status.
    GetData { path: String },
    /// Replace a node's data, if its version is `version` (when given).
    SetData { path: String, data: String, version: Option<i32> },
    /// Create a node of kind `mode` holding `data` under the ACL `acls`;
    /// `sequential` tells whether the server appends a sequence number.
    Create { path: String, data: String, sequential: bool, mode: NodeMode, acls: Vec<Acl> },
    /// Delete a node without children, if its version is `version` (when given).
    Delete { path: String, version: Option<i32> },
    /// Delete a node and everything below it.
    DeleteTree { path: String },
    /// Read a node's ACL.
    GetAcl { path: String },
    /// Replace a node's ACL.
    SetAcl { path: String, acls: Vec<Acl> },
    /// Add authentication to the session.
    AddAuth { scheme: String, auth: String },
    /// List the session's authenticated identities.
    WhoAmI,
}

/// What a command does: answer at once, or make a call first.
pub enum Step {
    Reply(Result<String, String>),
    Call(Request),
}

/// A request, as mathematical values.
pub enum RequestView {
    ListChildren { path: Seq<char> },
    CheckStat { path: Seq<char> },
    GetData { path: Seq<char> },
    SetData { path: Seq<char>, data: Seq<char>, version: Option<i32> },
    Create {
        path: Seq<char>,
        data: Seq<char>,
        sequential: bool,
        mode: NodeMode,
        acls: Seq<AclView>,
    },
    Delete { path: Seq<char>, version: Option<i32> },
    DeleteTree { path: Seq<char> },
    GetAcl { path: Seq<char> },
    SetAcl { path: Seq<char>, acls: Seq<AclView> },
    AddAuth { scheme: Seq<char>, auth: Seq<char> },
    WhoAmI,
}

/// A step, as mathematical values.
pub enum StepView {
    Reply(Result<Seq<char>, Seq<char>>),
    Call(RequestView),
}

impl View for Request {
    type V = RequestView;

    open spec fn view(&self) -> RequestView {
        match self {
            Request::ListChildren { path } => RequestView::ListChildren { path: path@ },
            Request::CheckStat { path } => RequestView::CheckStat { path: path@ },
            Request::GetData { path } => RequestView::GetData { path: path@ },
            Request::SetData { path, data, version } => RequestView::SetData {
                path: path@,
                data: data@,
                version: *version,
            },
            Request::Create { path, data, sequential, mode, acls } => RequestView::Create {
                path: path@,
                data: data@,
                sequential: *sequential,
                mode: *mode,
                acls: acl_views(acls@),
            },
            Request::Delete { path, version } => RequestView::Delete { path: path@, version: *version },
            Request::DeleteTree { path } => RequestView::DeleteTree { path: path@ },
            Request::GetAcl { path } => RequestView::GetAcl { path: path@ },
            Request::SetAcl { path, acls } => RequestView::SetAcl {
                path: path@,
                acls: acl_views(acls@),
            },
            Request::AddAuth { scheme, auth } => RequestView::AddAuth {
                scheme: scheme@,
                auth: auth@,
            },
            Request::WhoAmI => RequestView::WhoAmI,
        }
    }
}

impl View for Step {
    type V = StepView;

    open spec fn view(&self) -> StepView {
        match self {
            Step::Reply(Ok(s)) => StepView::Reply(Ok(s@)),
            Step::Reply(Err(s)) => StepView::Reply(Err(s@)),
            Step::Call(req) => StepView::Call(req@),
        }
    }
}

pub open spec fn reply_err(msg: Seq<char>) -> StepView {
    StepView::Reply(Err(msg))
}

/// What a command line asks for, given its words `t`. The command (the first
/// word) is matched without regard to ASCII case.
pub open spec fn plan_of_words(t: Seq<Seq<char>>) -> StepView {
    if t.len() == 0 {
        StepView::Reply(Ok(seq![]))
    } else {
        let cmd = lowered(t[0]);
        if cmd == "help"@ {
            StepView::Reply(Ok(HELP@))
        } else if cmd == "ls"@ {
            if t.len() < 2 { reply_err(LS_USAGE@) } else { StepView::Call(RequestView::ListChildren { path: t[1] }) }
        } else if cmd == "stat"@ {
            if t.len() < 2 { reply_err(STAT_USAGE@) } else { StepView::Call(RequestView::CheckStat { path: t[1] }) }
        } else if cmd == "get"@ {
            if t.len() < 2 { reply_err(GET_USAGE@) } else { StepView::Call(RequestView::GetData { path: t[1] }) }
        } else if cmd == "set"@ {
            match set_args_result(t) {
                Err(e) => reply_err(e),
                Ok((path, data, version)) => StepView::Call(RequestView::SetData { path, data, version }),
            }
        } else if cmd == "create"@ {
            match create_args_result(t) {
                Err(e) => reply_err(e),
                Ok(a) => StepView::Call(
                    RequestView::Create {
                        path: a.path,
                        data: a.data,
                        sequential: a.sequential,
                        mode: mode_of(a.sequential, a.ephemeral),
                        acls: create_acl_views(a.acl),
                    },
                ),
            }
        } else if cmd == "delete"@ {
            match delete_args_result(t) {
                Err(e) => reply_err(e),
                Ok((path, version)) => if path == ROOT@ {
                    reply_err(ROOT_REFUSED@)
                } else {
                    StepView::Call(RequestView::Delete { path, version })
                },
            }
        } else if cmd == "deleteall"@ || cmd == "rmr"@ {
            if t.len() < 2 {
                reply_err(DELETEALL_USAGE@)
            } else if t[1] == ROOT@ {
                reply_err(ROOT_REFUSED@)
            } else {
                StepView::Call(RequestView::DeleteTree { path: t[1] })
            }
        } else if cmd == "getacl"@ {
            if t.len() < 2 {
                reply_err(GETACL_USAGE@)
            } else {
                StepView::Call(RequestView::GetAcl { path: t[1] })
            }
        } else if cmd == "setacl"@ {
            if t.len() < 3 {
                reply_err(SETACL_USAGE@)
            } else if t.len() > 3 {
                reply_err(SETACL_SPACES@)
            } else {
                match acls_result(t[2]) {
                    Err(e) => reply_err(e),
                    Ok(v) => StepView::Call(RequestView::SetAcl { path: t[1], acls: v }),
                }
            }
        } else if cmd == "addauth"@ {
            if t.len() < 3 {
                reply_err(ADDAUTH_USAGE@)
            } else {
                StepView::Call(RequestView::AddAuth { scheme: t[1], auth: t[2] })
            }
        } else if cmd == "whoami"@ {
            StepView::Call(RequestView::WhoAmI)
        } else {
            reply_err(UNKNOWN_HEAD@ + cmd + UNKNOWN_TAIL@)
        }
    }
}

fn err_step(msg: &str) -> (s: Step)
    ensures
        s@ == reply_err(msg@),
{
    Step::Reply(Err(String::from_str(msg)))
}

/// Decides what a zkCli command line asks for: the output straight away
/// (help, a usage error, an unknown command, an empty line), or the call on
/// the session to make first.
pub fn plan_command(line: &str) -> (s: Step)
    ensures
        s@ == plan_of_words(words(line@)),
{
    let tokens = tokenize(line);
    let ghost t = texts(tokens@);
    if tokens.len() == 0 {
        return Step::Reply(Ok(String::new()));
    }
    let cmd = to_lower(tokens[0].as_str());
    let c = cmd.as_str();
    let n = tokens.len();
    if text_is(c, "help") {
        Step::Reply(Ok(String::from_str(HELP)))
    } else if text_is(c, "ls") {
        if n < 2 { err_step(LS_USAGE) } else { Step::Call(Request::ListChildren { path: tokens[1].clone() }) }
    } else if text_is(c, "stat") {
        if n < 2 { err_step(STAT_USAGE) } else { Step::Call(Request::CheckStat { path: tokens[1].clone() }) }
    } else if text_is(c, "get") {
        if n < 2 { err_step(GET_USAGE) } else { Step::Call(Request::GetData { path: tokens[1].clone() }) }
    } else if text_is(c, "set") {
        match parse_set_args(tokens.as_slice()) {
            Err(e) => Step::Reply(Err(e)),
            Ok((path, data, version)) => Step::Call(Request::SetData { path, data, version }),
        }
    } else if text_is(c, "create") {
        match parse_create_args(tokens.as_slice()) {
            Err(e) => Step::Reply(Err(e)),
            Ok(args) => {
                let CreateArgs { sequential, ephemeral, path, data, acl } = args;
                let mode = node_mode(sequential, ephemeral);
                let acls = create_acls(acl);
                Step::Call(Request::Create { path, data, sequential, mode, acls })
            },
        }
    } else if text_is(c, "delete") {
        match parse_delete_args(tokens.as_slice()) {
            Err(e) => Step::Reply(Err(e)),
            Ok((path, version)) => {
                if text_is(path.as_str(), ROOT) {
                    err_step(ROOT_REFUSED)
                } else {
                    Step::Call(Request::Delete { path, version })
                }
            },
        }
    } else if text_is(c, "deleteall") || text_is(c, "rmr") {
        if n < 2 {
            err_step(DELETEALL_USAGE)
        } else if text_is(tokens[1].as_str(), ROOT) {
            err_step(ROOT_REFUSED)
        } else {
            Step::Call(Request::DeleteTree { path: tokens[1].clone() })
        }
    } else if text_is(c, "getacl") {
        if n < 2 {
            err_step(GETACL_USAGE)
        } else {
            Step::Call(Request::GetAcl { path: tokens[1].clone() })
        }
    } else if text_is(c, "setacl") {
        if n < 3 {
            err_step(SETACL_USAGE)
        } else if n > 3 {
            err_step(SETACL_SPACES)
        } else {
            match parse_acls(tokens[2].as_str()) {
                Err(e) => Step::Reply(Err(e)),
                Ok(acls) => Step::Call(Request::SetAcl { path: tokens[1].clone(), acls }),
            }
        }
    } else if text_is(c, "addauth") {
        if n < 3 {
            err_step(ADDAUTH_USAGE)
        } else {
            Step::Call(Request::AddAuth { scheme: tokens[1].clone(), auth: tokens[2].clone() })
        }
    } else if text_is(c, "whoami") {
        Step::Call(Request::WhoAmI)
    } else {
        let mut msg = String::from_str(UNKNOWN_HEAD);
        msg.append(c);
        msg.append(UNKNOWN_TAIL);
        Step::Reply(Err(msg))
    }
}

// ---------------------------------------------------------------------------
// Laws
// ---------------------------------------------------------------------------

/// No command line leads to deleting the root node, alone or with what is below it.
pub proof fn law_root_is_never_deleted(t: Seq<Seq<char>>)
    ensures
        !(plan_of_words(t) matches StepView::Call(RequestView::Delete { path, .. }) && path == ROOT@),
        !(plan_of_words(t) matches StepView::Call(RequestView::DeleteTree { path }) && path == ROOT@),
{
}

proof fn lemma_lower_idempotent(c: char)
    ensures
        crate::text::ascii_lower(crate::text::ascii_lower(c)) == crate::text::ascii_lower(c),
{
    if 'A' <= c <= 'Z' {
        assert((c as int + 32) as char as int == c as int + 32);
    }
}

/// Commands are matched without regard to ASCII case: a line asks for the
/// same thing whatever the case of its command word.
pub proof fn law_command_case_does_not_matter(t: Seq<Seq<char>>)
    requires
        t.len() > 0,
    ensures
        plan_of_words(t.update(0, lowered(t[0]))) == plan_of_words(t),
{
    let u = t.update(0, lowered(t[0]));
    assert forall|i: int| 0 <= i < t[0].len() implies #[trigger] lowered(lowered(t[0]))[i] == lowered(
        t[0],
    )[i] by {
        lemma_lower_idempotent(t[0][i]);
    }
    assert(lowered(u[0]) =~= lowered(t[0]));
    assert(u.subrange(1, u.len() as int) =~= t.subrange(1, t.len() as int));
    assert forall|i: int| 1 <= i < t.len() implies u[i] == t[i] by {}
    assert(set_args_result(u) == set_args_result(t)) by {
        if t.len() >= 2 {
            assert(u.subrange(2, u.len() as int) =~= t.subrange(2, t.len() as int));
        }
        if t.len() >= 4 {
            assert(u.subrange(4, u.len() as int) =~= t.subrange(4, t.len() as int));
        }
    }
    assert(create_args_result(u) == create_args_result(t)) by {
        lemma_flags_end_same(t, u, 1);
        let idx = crate::args::flags_end(t, 1);
        if idx < t.len() {
            assert(u[idx] == t[idx]);
            assert(u.subrange(idx + 1, u.len() as int) =~= t.subrange(idx + 1, t.len() as int));
        }
        lemma_has_word_same(t, u, idx, crate::args::SEQUENTIAL_FLAG@);
        lemma_has_word_same(t, u, idx, crate::args::EPHEMERAL_FLAG@);
    }
    assert(delete_args_result(u) == delete_args_result(t));
}

proof fn lemma_flags_end_same(t: Seq<Seq<char>>, u: Seq<Seq<char>>, k: int)
    requires
        k >= 1,
        t.len() == u.len(),
        forall|i: int| 1 <= i < t.len() ==> u[i] == t[i],
    ensures
        crate::args::flags_end(u, k) == crate::args::flags_end(t, k),
        crate::args::flags_end(t, k) >= k,
        k <= t.len() ==> crate::args::flags_end(t, k) <= t.len(),
    decreases t.len() - k,
{
    if k < t.len() {
        lemma_flags_end_same(t, u, k + 1);
    }
}

proof fn lemma_has_word_same(t: Seq<Seq<char>>, u: Seq<Seq<char>>, idx: int, w: Seq<char>)
    requires
        idx <= t.len() || idx == 1,
        t.len() == u.len(),
        forall|i: int| 1 <= i < t.len() ==> u[i] == t[i],
    ensures
        crate::args::has_word(u, 1, idx, w) == crate::args::has_word(t, 1, idx, w),
{
    if crate::args::has_word(t, 1, idx, w) {
        let j = choose|j: int| 1 <= j < idx && t[j] == w;
        assert(u[j] == t[j]);
    }
    if crate::args::has_word(u, 1, idx, w) {
        let j = choose|j: int| 1 <= j < idx && u[j] == w;
        assert(u[j] == t[j]);
    }
}

} // verus!
