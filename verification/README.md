# zoopeek_shell

The command shell of a ZooKeeper browser, written in Verus. A line such as
`create -s /a hello world world:anyone:r` is split into words, read, and
turned either into an immediate answer (help, a usage error, an unknown
command) or into one call on the ZooKeeper session; the answer to that call
is then printed the way ZooKeeper's `zkCli` prints it.

Layout:

- `src/text.rs` - strings as character sequences: words, splitting, joining,
  decimal and hexadecimal numbers.
- `src/perms.rs` - the five rights, read as `rwcda` letters or a number 0-31.
- `src/acl.rs` - ACL notation `scheme:id:perms[,...]` and its `getAcl` output.
- `src/args.rs` - the command line and the arguments of `create`, `set`, `delete`.
- `src/order.rs` - the order of node names and a sort.
- `src/stat.rs` - the status block of a node.
- `src/command.rs` - what a line asks for (`plan_command`) and how each
  answer is printed (`finish_*`).
- `app/lib.rs` - `execute`, which makes the calls with `zookeeper-client`.

Each public function states its result in its contract. The one thing left
open is which time zone offset the local times in a status block are shown
at: the contract fixes the text as chrono's rendering of the instant at some
offset within a day, the machine's. The `law_*` proof functions state what
holds across functions.
