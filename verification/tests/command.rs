use zoopeek_shell::acl::Acl;
use zoopeek_shell::command::{
    finish_add_auth, finish_create, finish_delete_tree, finish_get, finish_get_acl, finish_list,
    finish_set, finish_stat, finish_update, finish_who_am_i, node_mode, plan_command, zk_cli_error,
    AuthUser, ErrorKind, NodeMode, Request, Step, ZkError, HELP,
};
use zoopeek_shell::perms::{PermFlag, Permission};
use zoopeek_shell::stat::{format_stat, format_time, stat_text, time_text, Stat};

fn err(kind: ErrorKind) -> ZkError {
    ZkError { kind, message: "library says no".to_string() }
}

fn sample_stat() -> Stat {
    Stat {
        czxid: 26,
        mzxid: 0,
        pzxid: -1,
        ctime: 0,
        mtime: 1700000000000,
        version: 3,
        cversion: -1,
        aversion: 0,
        ephemeral_owner: 0x1234abcd,
        data_length: 5,
        num_children: 2,
    }
}

fn reply_of(line: &str) -> Result<String, String> {
    match plan_command(line) {
        Step::Reply(r) => r,
        Step::Call(_) => panic!("expected an immediate reply for {line}"),
    }
}

fn call_of(line: &str) -> Request {
    match plan_command(line) {
        Step::Call(r) => r,
        Step::Reply(r) => panic!("expected a call for {line}, got {r:?}"),
    }
}

#[test]
fn stat_block_layout() {
    let s = sample_stat();
    let expected = format!(
        "cZxid = {:#x}\nctime = T1\nmZxid = {:#x}\nmtime = T2\npZxid = {:#x}\ncversion = {}\ndataVersion = {}\naclVersion = {}\nephemeralOwner = {:#x}\ndataLength = {}\nnumChildren = {}",
        s.czxid, s.mzxid, s.pzxid, s.cversion, s.version, s.aversion, s.ephemeral_owner, s.data_length, s.num_children
    );
    assert_eq!(stat_text(&s, "T1", "T2"), expected);
    assert!(stat_text(&s, "T1", "T2").contains("pZxid = 0xffffffffffffffff\n"));
    assert!(stat_text(&s, "T1", "T2").starts_with("cZxid = 0x1a\n"));
}

#[test]
fn stat_block_extremes() {
    let s = Stat {
        czxid: i64::MIN,
        mzxid: i64::MAX,
        pzxid: 0,
        ctime: 0,
        mtime: 0,
        version: i32::MIN,
        cversion: i32::MAX,
        aversion: -7,
        ephemeral_owner: -2,
        data_length: 0,
        num_children: 0,
    };
    let expected = format!(
        "cZxid = {:#x}\nctime = a\nmZxid = {:#x}\nmtime = b\npZxid = {:#x}\ncversion = {}\ndataVersion = {}\naclVersion = {}\nephemeralOwner = {:#x}\ndataLength = {}\nnumChildren = {}",
        s.czxid, s.mzxid, s.pzxid, s.cversion, s.version, s.aversion, s.ephemeral_owner, s.data_length, s.num_children
    );
    assert_eq!(stat_text(&s, "a", "b"), expected);
}

#[test]
fn times_out_of_range_show_as_numbers() {
    assert_eq!(format_time(i64::MAX), "9223372036854775807");
    assert_eq!(format_time(i64::MIN), "-9223372036854775808");
    assert_eq!(time_text(None, -5), "-5");
    assert_eq!(time_text(Some("local".to_string()), 5), "local");
}

#[test]
fn chrono_range_boundaries() {
    let first: i64 = -8334601228800000;
    let last: i64 = 8210266876799999;
    assert!(chrono::DateTime::from_timestamp_millis(first).is_some());
    assert!(chrono::DateTime::from_timestamp_millis(first - 1).is_none());
    assert!(chrono::DateTime::from_timestamp_millis(last).is_some());
    assert!(chrono::DateTime::from_timestamp_millis(last + 1).is_none());
    assert_eq!(format_time(last + 1), "8210266876800000");
    assert_eq!(format_time(first - 1), "-8334601228800001");
    assert_ne!(format_time(last), "8210266876799999");
}

#[test]
fn times_in_range_show_as_local_time() {
    let expected = chrono::DateTime::from_timestamp_millis(1700000000000)
        .unwrap()
        .with_timezone(&chrono::Local)
        .format("%a %b %d %H:%M:%S %Z %Y")
        .to_string();
    assert_eq!(format_time(1700000000000), expected);
    assert_ne!(format_time(0), "0");
    let block = format_stat(&sample_stat());
    assert!(block.contains(&format!("mtime = {expected}\n")));
}

#[test]
fn cli_errors_are_worded_like_zkcli() {
    assert_eq!(zk_cli_error(err(ErrorKind::NoNode), "/a"), "Node does not exist: /a");
    assert_eq!(zk_cli_error(err(ErrorKind::NodeExists), "/a"), "Node already exists: /a");
    assert_eq!(zk_cli_error(err(ErrorKind::NotEmpty), "/a"), "Node not empty: /a");
    assert_eq!(zk_cli_error(err(ErrorKind::BadVersion), "/a"), "version No. is not valid: /a");
    assert_eq!(zk_cli_error(err(ErrorKind::NoAuth), "/a"), "NO_AUTH:not authorized（权限不足）: /a");
    assert_eq!(zk_cli_error(err(ErrorKind::Other), "/a"), "library says no");
}

#[test]
fn listing_is_sorted() {
    let children = vec!["b".to_string(), "a10".to_string(), "a2".to_string(), "B".to_string(), "é".to_string(), "a".to_string()];
    let mut expected = children.clone();
    expected.sort();
    let out = finish_list("/x", Ok(children)).unwrap();
    assert_eq!(out, format!("[{}]", expected.join(", ")));
    assert_eq!(out, "[B, a, a10, a2, b, é]");
    assert_eq!(finish_list("/x", Ok(vec![])).unwrap(), "[]");
    assert_eq!(finish_list("/x", Err(err(ErrorKind::NoNode))).unwrap_err(), "Node does not exist: /x");
}

#[test]
fn stat_and_get_outputs() {
    assert_eq!(finish_stat("/x", Ok(None)).unwrap_err(), "Node does not exist: /x");
    let block = finish_stat("/x", Ok(Some(sample_stat()))).unwrap();
    assert!(block.starts_with("cZxid = 0x1a\nctime = "));
    assert!(block.ends_with("numChildren = 2"));
    assert_eq!(finish_stat("/x", Err(err(ErrorKind::NoAuth))).unwrap_err(), "NO_AUTH:not authorized（权限不足）: /x");
    let got = finish_get("/x", Ok(("hello world".as_bytes().to_vec(), sample_stat()))).unwrap();
    assert!(got.starts_with("hello world\ncZxid = 0x1a\n"));
    let got = finish_get("/x", Ok((vec![b'a', 0xff, b'b'], sample_stat()))).unwrap();
    assert!(got.starts_with("a\u{fffd}b\ncZxid"));
    let set = finish_set("/x", Ok(sample_stat())).unwrap();
    assert!(set.contains("dataVersion = 3\n"));
    assert_eq!(finish_set("/x", Err(err(ErrorKind::BadVersion))).unwrap_err(), "version No. is not valid: /x");
}

#[test]
fn create_delete_and_acl_outputs() {
    assert_eq!(finish_create("/seq-", true, Ok("0000000007".to_string())).unwrap(), "Created /seq-0000000007");
    assert_eq!(finish_create("/p", false, Ok("0000000007".to_string())).unwrap(), "Created /p");
    assert_eq!(finish_create("/p", false, Err(err(ErrorKind::NodeExists))).unwrap_err(), "Node already exists: /p");
    assert_eq!(finish_update("/p", Ok(())).unwrap(), "");
    assert_eq!(finish_update("/p", Err(err(ErrorKind::NotEmpty))).unwrap_err(), "Node not empty: /p");
    assert_eq!(finish_delete_tree(Ok(3)).unwrap(), "已删除 3 个节点");
    assert_eq!(finish_delete_tree(Err("boom".to_string())).unwrap_err(), "boom");
    let acls = vec![Acl::new(Permission::all(), "world", "anyone")];
    assert_eq!(finish_get_acl("/p", Ok(acls)).unwrap(), "'world,'anyone\n: cdrwa");
    assert_eq!(finish_add_auth(Ok(())).unwrap(), "");
    assert_eq!(finish_add_auth(Err(err(ErrorKind::NoAuth))).unwrap_err(), "library says no");
}

#[test]
fn who_am_i_output() {
    assert_eq!(finish_who_am_i(Ok(vec![])).unwrap(), "Not authenticated");
    let users = vec![
        AuthUser { scheme: "ip".to_string(), user: "127.0.0.1".to_string() },
        AuthUser { scheme: "digest".to_string(), user: "bob".to_string() },
    ];
    assert_eq!(finish_who_am_i(Ok(users)).unwrap(), "ip:127.0.0.1\ndigest:bob");
    assert_eq!(finish_who_am_i(Err(err(ErrorKind::Other))).unwrap_err(), "library says no");
}

#[test]
fn plan_immediate_replies() {
    assert_eq!(reply_of("").unwrap(), "");
    assert_eq!(reply_of("   ").unwrap(), "");
    assert_eq!(reply_of("help").unwrap(), HELP);
    assert_eq!(reply_of("HeLp extra").unwrap(), HELP);
    assert_eq!(reply_of("ls").unwrap_err(), "用法：ls <path>");
    assert_eq!(reply_of("stat").unwrap_err(), "用法：stat <path>");
    assert_eq!(reply_of("get").unwrap_err(), "用法：get <path>");
    assert_eq!(reply_of("set /a").unwrap_err(), "用法：set [-v <version>] <path> <data>");
    assert_eq!(reply_of("delete /").unwrap_err(), "不能删除根节点");
    assert_eq!(reply_of("deleteall /").unwrap_err(), "不能删除根节点");
    assert_eq!(reply_of("rmr /").unwrap_err(), "不能删除根节点");
    assert_eq!(reply_of("rmr").unwrap_err(), "用法：deleteall <path>");
    assert_eq!(reply_of("getAcl").unwrap_err(), "用法：getAcl <path>");
    assert_eq!(reply_of("setAcl /a").unwrap_err(), "用法：setAcl <path> <scheme:id:perms>[,..]");
    assert_eq!(
        reply_of("setAcl /a world:anyone:r, auth::r").unwrap_err(),
        "用法：setAcl <path> <scheme:id:perms>[,..]（多个条目用英文逗号分隔，不要有空格）"
    );
    assert_eq!(reply_of("setAcl /a world:anyone").unwrap_err(), "无效的 ACL 条目：world:anyone");
    assert_eq!(reply_of("addauth digest").unwrap_err(), "用法：addauth <scheme> <auth>");
    assert_eq!(reply_of("Bogus x").unwrap_err(), "未知命令：bogus，输入 help 查看支持的命令");
    assert_eq!(reply_of("create -x /a").unwrap_err(), "用法：create [-s] [-e] <path> [data] [acl]");
}

#[test]
fn plan_calls() {
    assert!(matches!(call_of("ls /a"), Request::ListChildren { path } if path == "/a"));
    assert!(matches!(call_of("STAT /a"), Request::CheckStat { path } if path == "/a"));
    assert!(matches!(call_of("get /a"), Request::GetData { path } if path == "/a"));
    assert!(matches!(
        call_of("set -v 4 /a x  y"),
        Request::SetData { path, data, version: Some(4) } if path == "/a" && data == "x y"
    ));
    match call_of("create -s -e /a d world:anyone:r") {
        Request::Create { path, data, sequential, mode, acls } => {
            assert_eq!((path.as_str(), data.as_str(), sequential, mode), ("/a", "d", true, NodeMode::EphemeralSequential));
            assert_eq!(acls, vec![Acl::new(Permission::of(PermFlag::Read), "world", "anyone")]);
        }
        _ => panic!("expected create"),
    }
    match call_of("create /b hello world") {
        Request::Create { path, data, sequential, mode, acls } => {
            assert_eq!((path.as_str(), data.as_str(), sequential, mode), ("/b", "hello world", false, NodeMode::Persistent));
            assert_eq!(acls, vec![Acl::new(Permission::all(), "world", "anyone")]);
        }
        _ => panic!("expected create"),
    }
    assert!(matches!(call_of("delete -v 2 /a"), Request::Delete { path, version: Some(2) } if path == "/a"));
    assert!(matches!(call_of("rmr /a"), Request::DeleteTree { path } if path == "/a"));
    assert!(matches!(call_of("deleteall /a"), Request::DeleteTree { path } if path == "/a"));
    assert!(matches!(call_of("getacl /a"), Request::GetAcl { path } if path == "/a"));
    assert!(matches!(
        call_of("setacl /a world:anyone:r,auth::rw"),
        Request::SetAcl { path, acls } if path == "/a" && acls.len() == 2
    ));
    assert!(matches!(
        call_of("addauth digest u:p"),
        Request::AddAuth { scheme, auth } if scheme == "digest" && auth == "u:p"
    ));
    assert!(matches!(call_of("WhoAmI"), Request::WhoAmI));
}

#[test]
fn node_modes() {
    assert_eq!(node_mode(false, false), NodeMode::Persistent);
    assert_eq!(node_mode(true, false), NodeMode::PersistentSequential);
    assert_eq!(node_mode(false, true), NodeMode::Ephemeral);
    assert_eq!(node_mode(true, true), NodeMode::EphemeralSequential);
}
