use zoopeek_shell::acl::{format_acls, parse_acls, Acl};
use zoopeek_shell::args::{parse_create_args, parse_delete_args, parse_i32, parse_set_args, tokenize, CreateArgs};
use zoopeek_shell::perms::{format_perms, parse_perms, PermFlag, Permission};

fn all() -> Permission {
    Permission::all()
}

fn read() -> Permission {
    Permission::of(PermFlag::Read)
}

#[test]
fn parse_perms_letters_and_int() {
    assert_eq!(parse_perms("rwcda").unwrap(), all());
    assert_eq!(parse_perms("r").unwrap(), read());
    assert_eq!(parse_perms("31").unwrap(), all());
    assert_eq!(parse_perms("5").unwrap(), read().union(Permission::of(PermFlag::Create)));
    assert!(parse_perms("32").is_err());
    assert!(parse_perms("x").is_err());
}

#[test]
fn format_perms_zkcli_order() {
    assert_eq!(format_perms(all()), "cdrwa");
    assert_eq!(format_perms(read()), "r");
    assert_eq!(format_perms(read().union(Permission::of(PermFlag::Write))), "rw");
}

#[test]
fn parse_acls_variants() {
    let acls = parse_acls("world:anyone:rwcda").unwrap();
    assert_eq!(acls.len(), 1);
    assert_eq!(acls[0].scheme(), "world");
    assert_eq!(acls[0].id(), "anyone");
    assert_eq!(acls[0].permission(), all());

    let acls = parse_acls("digest:u:p:r,world:anyone:r").unwrap();
    assert_eq!(acls.len(), 2);
    assert_eq!(acls[0].id(), "u:p");

    let acls = parse_acls("auth::rwcda").unwrap();
    assert_eq!(acls[0].scheme(), "auth");
    assert_eq!(acls[0].id(), "");

    assert!(parse_acls("world:anyone").is_err());
    assert!(parse_acls("world:anyone:99").is_err());
}

#[test]
fn parse_create_args_variants() {
    let tokens = tokenize("create /a");
    let args = parse_create_args(&tokens).unwrap();
    assert_eq!(args, CreateArgs { path: "/a".into(), ..Default::default() });

    let tokens = tokenize("create -s -e /a hello world");
    let args = parse_create_args(&tokens).unwrap();
    assert!(args.sequential && args.ephemeral);
    assert_eq!(args.data, "hello world");
    assert!(args.acl.is_none());

    let tokens = tokenize("create /a hello world world:anyone:r");
    let args = parse_create_args(&tokens).unwrap();
    assert_eq!(args.data, "hello world");
    assert_eq!(args.acl.unwrap().len(), 1);

    let tokens = tokenize("create /a world:anyone:r");
    let args = parse_create_args(&tokens).unwrap();
    assert_eq!(args.data, "world:anyone:r");
    assert!(args.acl.is_none());

    let tokens = tokenize("create -x /a");
    assert!(parse_create_args(&tokens).is_err());
}

#[test]
fn parse_set_and_delete_args() {
    let tokens = tokenize("set /a {\"k\":1}");
    let (path, data, version) = parse_set_args(&tokens).unwrap();
    assert_eq!((path.as_str(), data.as_str(), version), ("/a", "{\"k\":1}", None));

    let tokens = tokenize("set -v 3 /a v2");
    let (path, data, version) = parse_set_args(&tokens).unwrap();
    assert_eq!((path.as_str(), data.as_str(), version), ("/a", "v2", Some(3)));

    assert!(parse_set_args(&tokenize("set /a")).is_err());
    assert!(parse_set_args(&tokenize("set -v x /a v")).is_err());

    let (path, version) = parse_delete_args(&tokenize("delete /a")).unwrap();
    assert_eq!((path.as_str(), version), ("/a", None));
    let (path, version) = parse_delete_args(&tokenize("delete -v 2 /a")).unwrap();
    assert_eq!((path.as_str(), version), ("/a", Some(2)));
    assert!(parse_delete_args(&tokenize("delete")).is_err());
}

#[test]
fn tokenize_splits_on_every_kind_of_whitespace() {
    assert_eq!(tokenize("  ls\t/a \n"), vec!["ls".to_string(), "/a".to_string()]);
    assert_eq!(tokenize("a\u{3000}b\u{a0}c"), vec!["a".to_string(), "b".to_string(), "c".to_string()]);
    assert!(tokenize("").is_empty());
    assert!(tokenize(" \t\r\n").is_empty());
    assert_eq!(tokenize("节点 数据"), vec!["节点".to_string(), "数据".to_string()]);
}

#[test]
fn tokenize_reads_back_joined_words() {
    let words = vec!["set".to_string(), "/a".to_string(), "x:y".to_string()];
    assert_eq!(tokenize(&words.join(" ")), words);
}

#[test]
fn parse_i32_follows_str_parse() {
    assert_eq!(parse_i32("0"), Some(0));
    assert_eq!(parse_i32("+7"), Some(7));
    assert_eq!(parse_i32("-7"), Some(-7));
    assert_eq!(parse_i32("007"), Some(7));
    assert_eq!(parse_i32("2147483647"), Some(i32::MAX));
    assert_eq!(parse_i32("-2147483648"), Some(i32::MIN));
    assert_eq!(parse_i32("2147483648"), None);
    assert_eq!(parse_i32("-2147483649"), None);
    assert_eq!(parse_i32(""), None);
    assert_eq!(parse_i32("+"), None);
    assert_eq!(parse_i32("-"), None);
    assert_eq!(parse_i32("1a"), None);
    assert_eq!(parse_i32("+-1"), None);
    for s in ["12", "-3", "+4", "99999999999", "x", " 1"] {
        assert_eq!(parse_i32(s), s.parse::<i32>().ok());
    }
}

#[test]
fn version_text_reads_back() {
    for v in [0, 1, -1, 42, i32::MAX, i32::MIN] {
        assert_eq!(parse_i32(&v.to_string()), Some(v));
    }
}

#[test]
fn parse_perms_errors_name_the_input() {
    assert_eq!(parse_perms("32").unwrap_err(), "无效的 ACL 权限值：32");
    assert_eq!(parse_perms("").unwrap_err(), "无效的 ACL 权限值：");
    assert_eq!(parse_perms("99999999999").unwrap_err(), "无效的 ACL 权限值：99999999999");
    assert_eq!(parse_perms("rx").unwrap_err(), "无效的 ACL 权限字符：x（仅支持 rwcda）");
    assert_eq!(parse_perms("xy").unwrap_err(), "无效的 ACL 权限字符：x（仅支持 rwcda）");
    assert_eq!(parse_perms("0").unwrap(), Permission::none());
    assert_eq!(parse_perms("00031").unwrap(), all());
    assert_eq!(parse_perms("rr").unwrap(), read());
}

#[test]
fn perms_letters_and_numbers_agree() {
    for bits in 1u8..=31 {
        let by_number = parse_perms(&bits.to_string()).unwrap();
        let letters = format_perms(by_number);
        assert_eq!(parse_perms(&letters).unwrap(), by_number);
    }
    assert!(parse_perms(&format_perms(Permission::none())).is_err());
}

#[test]
fn permission_has_and_union() {
    let p = read().union(Permission::of(PermFlag::Admin));
    assert!(p.has(PermFlag::Read));
    assert!(p.has(PermFlag::Admin));
    assert!(!p.has(PermFlag::Write));
    assert_eq!(read().with(PermFlag::Delete), Permission { read: true, write: false, create: false, delete: true, admin: false });
}

#[test]
fn parse_acls_errors() {
    assert_eq!(parse_acls("world:anyone").unwrap_err(), "无效的 ACL 条目：world:anyone");
    assert_eq!(parse_acls("").unwrap_err(), "无效的 ACL 条目：");
    assert_eq!(parse_acls("auth:x").unwrap_err(), "无效的 ACL 条目：auth:x");
    assert_eq!(parse_acls("world:anyone:r,ip:1.2.3.4:q").unwrap_err(), "无效的 ACL 权限字符：q（仅支持 rwcda）");
    assert_eq!(parse_acls("world:anyone:r,").unwrap_err(), "无效的 ACL 条目：");
}

#[test]
fn parse_acls_schemes() {
    let acls = parse_acls("digest:u:h:cd").unwrap();
    assert_eq!(acls[0].scheme(), "digest");
    assert_eq!(acls[0].id(), "u:h");
    assert_eq!(
        acls[0].permission(),
        Permission::of(PermFlag::Create).union(Permission::of(PermFlag::Delete))
    );
    let acls = parse_acls("digest:u:3").unwrap();
    assert_eq!(acls[0].id(), "u");
    assert_eq!(acls[0].permission(), read().union(Permission::of(PermFlag::Write)));
    let acls = parse_acls("auth:someone:r:extra").unwrap();
    assert_eq!(acls[0].id(), "");
    let acls = parse_acls("ip:10.0.0.1:a:extra").unwrap();
    assert_eq!(acls[0].id(), "10.0.0.1");
    assert_eq!(acls[0].permission(), Permission::of(PermFlag::Admin));
}

#[test]
fn format_acls_like_get_acl() {
    let acls = vec![
        Acl::new(all(), "world", "anyone"),
        Acl::new(read(), "digest", "u:h"),
    ];
    assert_eq!(format_acls(&acls), "'world,'anyone\n: cdrwa\n'digest,'u:h\n: r");
    assert_eq!(format_acls(&[Acl::new(Permission::none(), "ip", "1.2.3.4")]), "'ip,'1.2.3.4\n: ");
    assert_eq!(format_acls(&[]), "");
}

#[test]
fn create_args_more() {
    let args = parse_create_args(&tokenize("create -e /a x y auth::rw")).unwrap();
    assert!(!args.sequential && args.ephemeral);
    assert_eq!(args.data, "x y");
    let acl = args.acl.unwrap();
    assert_eq!(acl[0].scheme(), "auth");
    assert!(parse_create_args(&tokenize("create")).is_err());
    assert!(parse_create_args(&tokenize("create -s")).is_err());
    assert_eq!(
        parse_create_args(&tokenize("create -s")).unwrap_err(),
        "用法：create [-s] [-e] <path> [data] [acl]"
    );
    let args = parse_create_args(&tokenize("create /a x bad:acl")).unwrap();
    assert_eq!(args.data, "x bad:acl");
    assert!(args.acl.is_none());
}

#[test]
fn set_and_delete_more() {
    let (path, data, version) = parse_set_args(&tokenize("set /a hello  big   world")).unwrap();
    assert_eq!((path.as_str(), data.as_str(), version), ("/a", "hello big world", None));
    assert_eq!(parse_set_args(&tokenize("set -v")).unwrap_err(), "用法：set [-v <version>] <path> <data>");
    assert!(parse_set_args(&tokenize("set -v 1 /a")).is_err());
    let empty_data = vec!["set".to_string(), "/a".to_string(), String::new()];
    let (_, data, _) = parse_set_args(&empty_data).unwrap();
    assert_eq!(data, "");
    assert_eq!(parse_delete_args(&tokenize("delete /a /b")).unwrap_err(), "用法：delete [-v <version>] <path>");
    assert!(parse_delete_args(&tokenize("delete -v 2 /a /b")).is_err());
    assert!(parse_delete_args(&tokenize("delete -v 2")).is_err());
    assert!(parse_delete_args(&tokenize("delete -v two /a")).is_err());
}

#[test]
fn joined_words_squeeze_the_line() {
    assert_eq!(tokenize("  ls \t  /a\n\n b ").join(" "), "ls /a b");
    assert_eq!(tokenize(" \u{3000} ").join(" "), "");
    let line = "set  /a   x";
    assert_eq!(tokenize(&tokenize(line).join(" ")), tokenize(line));
}

#[test]
fn acl_lists_concatenate() {
    let a = parse_acls("world:anyone:r").unwrap();
    let b = parse_acls("auth::rw,ip:1.2.3.4:a").unwrap();
    let both = parse_acls("world:anyone:r,auth::rw,ip:1.2.3.4:a").unwrap();
    assert_eq!(both, [a, b].concat());
    assert!(parse_acls("world:anyone:r,ip:1.2.3.4").is_err());
    assert!(parse_acls("ip:x,world:anyone:r").is_err());
}

#[test]
fn parse_perms_letters_in_any_order() {
    assert_eq!(parse_perms("adcwr").unwrap(), all());
    assert_eq!(parse_perms("aa").unwrap(), Permission::of(PermFlag::Admin));
    assert_eq!(parse_perms("r1w").unwrap_err(), "无效的 ACL 权限字符：1（仅支持 rwcda）");
}
