//! The command shell of a ZooKeeper browser: it reads zkCli-style command
//! lines, decides which call on the session each asks for, and prints the
//! answer the way zkCli prints it. The logic is verified against its
//! contracts; making the calls on the session is left to the caller.
pub mod acl;
pub mod args;
pub mod command;
pub mod order;
pub mod perms;
pub mod stat;
pub mod text;

pub use acl::{format_acls, parse_acls, Acl};
pub use args::{parse_create_args, parse_delete_args, parse_set_args, tokenize, CreateArgs};
pub use command::{plan_command, zk_cli_error, ErrorKind, Request, Step, ZkError, HELP};
pub use perms::{format_perms, parse_perms, PermFlag, Permission};
pub use stat::{format_stat, format_time, Stat};
