//! Access control lists: reading zkCli's `scheme:id:perms[,...]` notation and
//! printing a node's ACL the way zkCli's `getAcl` does.
use vstd::prelude::*;
use crate::perms::{format_perms, parse_perm_chars, perm_letters, perms_result, Permission};
use crate::text::{chars_of, joined, pieces, push_char, same_chars, split_chars, string_of, views};

verus! {

/// One ACL entry: the rights granted to the identity `id` under `scheme`.
/// ZooKeeper writes the entry that stands for "whoever is authenticated like
/// the creator" with scheme `auth` and an empty id.
#[derive(Clone, Debug, PartialEq, Eq)]
pub struct Acl {
    pub permission: Permission,
    pub scheme: String,
    pub id: String,
}

/// What an ACL entry holds, as mathematical values.
pub struct AclView {
    pub permission: Permission,
    pub scheme: Seq<char>,
    pub id: Seq<char>,
}

impl View for Acl {
    type V = AclView;

    open spec fn view(&self) -> AclView {
        AclView { permission: self.permission, scheme: self.scheme@, id: self.id@ }
    }
}

/// The views of a list of ACL entries.
pub open spec fn acl_views(v: Seq<Acl>) -> Seq<AclView> {
    v.map_values(|a: Acl| a@)
}

/// The text of the error for an entry that is not `scheme:id:perms`.
pub const BAD_ACL_ENTRY: &'static str = "无效的 ACL 条目：";

/// The text of the error for an empty list.
pub const EMPTY_ACL_LIST: &'static str = "ACL 列表不能为空";

pub const DIGEST_SCHEME: &'static str = "digest";

pub const AUTH_SCHEME: &'static str = "auth";

impl Acl {
    /// An entry granting `permission` to `id` under `scheme`.
    pub fn new(permission: Permission, scheme: &str, id: &str) -> (a: Acl)
        ensures
            a@ == (AclView { permission, scheme: scheme@, id: id@ }),
    {
        Acl { permission, scheme: String::from_str(scheme), id: String::from_str(id) }
    }

    /// The rights this entry grants.
    pub fn permission(&self) -> (p: Permission)
        ensures
            p == self.permission,
    {
        self.permission
    }

    /// The scheme of the identity.
    pub fn scheme(&self) -> (s: &str)
        ensures
            s@ == self.scheme@,
    {
        self.scheme.as_str()
    }

    /// The identity within its scheme.
    pub fn id(&self) -> (s: &str)
        ensures
            s@ == self.id@,
    {
        self.id.as_str()
    }
}

pub const WORLD_SCHEME: &'static str = "world";

pub const ANYONE_ID: &'static str = "anyone";

/// The ACL under which anyone has every right (ZooKeeper's `Acls::anyone_all`).
pub open spec fn anyone_all() -> Seq<AclView> {
    seq![AclView { permission: Permission::from_bits(31), scheme: WORLD_SCHEME@, id: ANYONE_ID@ }]
}

/// The ACL a new node gets: the one the command names, else `anyone_all`.
pub open spec fn create_acl_views(acl: Option<Seq<AclView>>) -> Seq<AclView> {
    match acl {
        Some(v) => v,
        None => anyone_all(),
    }
}

/// The ACL a new node gets: the one the command names, else anyone has every right.
pub fn create_acls(acl: Option<Vec<Acl>>) -> (r: Vec<Acl>)
    ensures
        acl_views(r@) == create_acl_views(
            match acl {
                Some(v) => Some(acl_views(v@)),
                None => None,
            },
        ),
{
    match acl {
        Some(v) => v,
        None => {
            let r = vec![Acl::new(Permission::all(), WORLD_SCHEME, ANYONE_ID)];
            assert(acl_views(r@) =~= anyone_all());
            r
        },
    }
}

/// Reading one entry. The first colon-separated piece is the scheme.
/// `digest` with at least four pieces takes `user:hash` as its id and the
/// fourth piece as rights; `auth` with at least two pieces has an empty id and
/// takes the third piece as rights (which must be there); any other entry with
/// at least three pieces takes the second piece as id and the third as
/// rights. Pieces after the rights are ignored.
pub open spec fn entry_acl(entry: Seq<char>) -> Result<AclView, Seq<char>> {
    let parts = pieces(entry, ':');
    let head = parts[0];
    let bad = BAD_ACL_ENTRY@ + entry;
    let chosen: Option<(Seq<char>, int)> = if head == DIGEST_SCHEME@ && parts.len() >= 4 {
        Some((parts[1] + seq![':'] + parts[2], 3))
    } else if head == AUTH_SCHEME@ && parts.len() >= 2 {
        Some((seq![], 2))
    } else if parts.len() >= 3 {
        Some((parts[1], 2))
    } else {
        None
    };
    match chosen {
        None => Err(bad),
        Some((id, idx)) => if parts.len() <= idx {
            Err(bad)
        } else {
            match perms_result(parts[idx]) {
                Err(e) => Err(e),
                Ok(p) => Ok(AclView { permission: p, scheme: head, id }),
            }
        },
    }
}

/// Reading entries in order; the first entry that fails decides the error.
pub open spec fn entries_acls(entries: Seq<Seq<char>>) -> Result<Seq<AclView>, Seq<char>>
    decreases entries.len(),
{
    if entries.len() == 0 {
        Ok(seq![])
    } else {
        match entries_acls(entries.drop_last()) {
            Err(e) => Err(e),
            Ok(v) => match entry_acl(entries.last()) {
                Err(e) => Err(e),
                Ok(a) => Ok(v.push(a)),
            },
        }
    }
}

/// What `parse_acls` gives for `text`: its comma-separated entries, read in order.
pub open spec fn acls_result(text: Seq<char>) -> Result<Seq<AclView>, Seq<char>> {
    match entries_acls(pieces(text, ',')) {
        Err(e) => Err(e),
        Ok(v) => if v.len() == 0 {
            Err(EMPTY_ACL_LIST@)
        } else {
            Ok(v)
        },
    }
}

/// Whether an ACL-list result matches its specification.
pub open spec fn acls_match(r: Result<Vec<Acl>, String>, s: Result<Seq<AclView>, Seq<char>>) -> bool {
    match (r, s) {
        (Ok(v), Ok(w)) => acl_views(v@) == w,
        (Err(e), Err(f)) => e@ == f,
        _ => false,
    }
}

/// `pieces` never returns an empty list.
pub proof fn lemma_pieces_nonempty(s: Seq<char>, sep: char)
    ensures
        pieces(s, sep).len() >= 1,
    decreases s.len(),
{
    if s.len() > 0 {
        lemma_pieces_nonempty(s.drop_last(), sep);
    }
}

fn acl_of_entry(entry: &Vec<char>) -> (r: Result<Acl, String>)
    ensures
        match (r, entry_acl(entry@)) {
            (Ok(a), Ok(b)) => a@ == b,
            (Err(e), Err(f)) => e@ == f,
            _ => false,
        },
{
    let parts = split_chars(entry, ':');
    proof {
        lemma_pieces_nonempty(entry@, ':');
    }
    let ghost ps = pieces(entry@, ':');
    assert(views(parts@) == ps);
    assert(parts@[0]@ == ps[0]);
    let digest = chars_of(DIGEST_SCHEME);
    let auth = chars_of(AUTH_SCHEME);
    let is_digest = same_chars(&parts[0], &digest);
    let is_auth = same_chars(&parts[0], &auth);
    let n = parts.len();
    let mut bad = String::from_str(BAD_ACL_ENTRY);
    let whole = string_of(entry, 0, entry.len());
    bad.append(whole.as_str());
    assert(entry@.subrange(0, entry@.len() as int) == entry@);
    let id: String;
    let idx: usize;
    if is_digest && n >= 4 {
        let mut s = string_of(&parts[1], 0, parts[1].len());
        push_char(&mut s, ':');
        let tail = string_of(&parts[2], 0, parts[2].len());
        s.append(tail.as_str());
        assert(parts@[1]@.subrange(0, parts@[1]@.len() as int) == ps[1]);
        assert(parts@[2]@.subrange(0, parts@[2]@.len() as int) == ps[2]);
        assert(s@ =~= ps[1] + seq![':'] + ps[2]);
        id = s;
        idx = 3;
    } else if is_auth && n >= 2 {
        id = String::new();
        idx = 2;
    } else if n >= 3 {
        id = string_of(&parts[1], 0, parts[1].len());
        assert(parts@[1]@.subrange(0, parts@[1]@.len() as int) == ps[1]);
        idx = 2;
    } else {
        return Err(bad);
    }
    if n <= idx {
        return Err(bad);
    }
    assert(parts@[idx as int]@ == ps[idx as int]);
    match parse_perm_chars(&parts[idx]) {
        Err(e) => Err(e),
        Ok(p) => {
            let scheme = string_of(&parts[0], 0, parts[0].len());
            assert(parts@[0]@.subrange(0, parts@[0]@.len() as int) == ps[0]);
            Ok(Acl { permission: p, scheme, id })
        },
    }
}

/// Reads zkCli's ACL notation `scheme:id:perms[,scheme:id:perms...]`.
/// A digest id has the form `user:hash` and so holds a colon of its own;
/// the `auth` scheme has no id.
pub fn parse_acls(text: &str) -> (r: Result<Vec<Acl>, String>)
    ensures
        acls_match(r, acls_result(text@)),
{
    let t = chars_of(text);
    let entries = split_chars(&t, ',');
    let ghost es = pieces(text@, ',');
    let mut acls: Vec<Acl> = Vec::new();
    let mut i: usize = 0;
    assert(es.take(0) =~= Seq::<Seq<char>>::empty());
    assert(acl_views(acls@) =~= Seq::<AclView>::empty());
    while i < entries.len()
        invariant
            i <= entries.len(),
            views(entries@) == es,
            es == pieces(text@, ','),
            entries_acls(es.take(i as int)) == Ok::<Seq<AclView>, Seq<char>>(acl_views(acls@)),
        decreases entries.len() - i,
    {
        assert(es.take(i + 1).drop_last() == es.take(i as int));
        assert(es.take(i + 1).last() == entries@[i as int]@);
        match acl_of_entry(&entries[i]) {
            Err(e) => {
                proof {
                    assert(entries_acls(es.take(i + 1)) == Err::<Seq<AclView>, Seq<char>>(e@));
                    lemma_entries_error_sticks(es, i as int + 1);
                    assert(entries_acls(es) == Err::<Seq<AclView>, Seq<char>>(e@));
                    assert(acls_result(text@) == Err::<Seq<AclView>, Seq<char>>(e@));
                }
                return Err(e);
            },
            Ok(a) => {
                let ghost before = acl_views(acls@);
                acls.push(a);
                assert(acl_views(acls@) =~= before.push(a@));
            },
        }
        i += 1;
    }
    assert(es.take(entries.len() as int) == es);
    if acls.len() == 0 {
        return Err(String::from_str(EMPTY_ACL_LIST));
    }
    Ok(acls)
}

/// Once reading a prefix of the entries fails, reading all of them fails the same way.
proof fn lemma_entries_error_sticks(es: Seq<Seq<char>>, k: int)
    requires
        0 <= k <= es.len(),
        entries_acls(es.take(k)) is Err,
    ensures
        entries_acls(es) == entries_acls(es.take(k)),
    decreases es.len() - k,
{
    if k < es.len() {
        assert(es.take(k + 1).drop_last() == es.take(k));
        lemma_entries_error_sticks(es, k + 1);
    } else {
        assert(es.take(k) == es);
    }
}

/// How `getAcl` shows one entry: `'scheme,'id` on one line, `: perms` on the next.
pub open spec fn acl_lines(a: AclView) -> Seq<char> {
    seq!['\''] + a.scheme + seq![',', '\''] + a.id + seq!['\n', ':', ' '] + perm_letters(a.permission)
        + seq!['\n']
}

pub open spec fn all_acl_lines(v: Seq<AclView>) -> Seq<char>
    decreases v.len(),
{
    if v.len() == 0 {
        seq![]
    } else {
        all_acl_lines(v.drop_last()) + acl_lines(v.last())
    }
}

/// `s` without the line feeds at its end.
pub open spec fn trim_line_feeds(s: Seq<char>) -> Seq<char>
    decreases s.len(),
{
    if s.len() > 0 && s.last() == '\n' {
        trim_line_feeds(s.drop_last())
    } else {
        s
    }
}

/// Removes the line feeds at the end of `s` (`trim_end_matches('\n')`).
pub fn trim_end_line_feeds(s: &String) -> (r: String)
    ensures
        r@ == trim_line_feeds(s@),
{
    let v = chars_of(s.as_str());
    let mut end = v.len();
    assert(v@.take(v.len() as int) == v@);
    while end > 0 && v[end - 1] == '\n'
        invariant
            end <= v.len(),
            trim_line_feeds(v@.take(end as int)) == trim_line_feeds(v@),
        decreases end,
    {
        assert(v@.take(end as int).drop_last() == v@.take(end - 1));
        end -= 1;
    }
    assert(v@.take(v.len() as int) == v@);
    string_of(&v, 0, end)
}

/// A node's ACL as zkCli's `getAcl` prints it.
pub fn format_acls(acls: &[Acl]) -> (s: String)
    ensures
        s@ == trim_line_feeds(all_acl_lines(acl_views(acls@))),
{
    let mut out = String::new();
    let mut i: usize = 0;
    while i < acls.len()
        invariant
            i <= acls.len(),
            out@ == all_acl_lines(acl_views(acls@.take(i as int))),
        decreases acls.len() - i,
    {
        let a = &acls[i];
        let ghost before = out@;
        push_char(&mut out, '\'');
        out.append(a.scheme.as_str());
        push_char(&mut out, ',');
        push_char(&mut out, '\'');
        out.append(a.id.as_str());
        push_char(&mut out, '\n');
        push_char(&mut out, ':');
        push_char(&mut out, ' ');
        let letters = format_perms(a.permission);
        out.append(letters.as_str());
        push_char(&mut out, '\n');
        assert(acl_views(acls@.take(i + 1)) =~= acl_views(acls@.take(i as int)).push(a@));
        assert(acl_views(acls@.take(i + 1)).drop_last() =~= acl_views(acls@.take(i as int)));
        assert(out@ =~= before + acl_lines(a@));
        assert(all_acl_lines(acl_views(acls@.take(i + 1))) == before + acl_lines(a@));
        i += 1;
    }
    assert(acls@.take(acls.len() as int) == acls@);
    trim_end_line_feeds(&out)
}

/// Splitting at a separator splits the two sides independently.
pub proof fn lemma_pieces_concat(a: Seq<char>, sep: char, b: Seq<char>)
    ensures
        pieces(a + seq![sep] + b, sep) == pieces(a, sep) + pieces(b, sep),
    decreases b.len(),
{
    let s = a + seq![sep] + b;
    lemma_pieces_nonempty(a, sep);
    if b.len() == 0 {
        assert(s == (a + seq![sep]));
        assert(s.drop_last() == a);
        assert(pieces(b, sep) == seq![Seq::<char>::empty()]);
        assert(pieces(s, sep) =~= pieces(a, sep) + pieces(b, sep));
    } else {
        let b0 = b.drop_last();
        lemma_pieces_concat(a, sep, b0);
        lemma_pieces_nonempty(b0, sep);
        assert(s.drop_last() == a + seq![sep] + b0);
        assert(s.last() == b.last());
        assert(pieces(s, sep) =~= pieces(a, sep) + pieces(b, sep));
    }
}

/// A string without the separator is a single piece.
pub proof fn lemma_pieces_single(a: Seq<char>, sep: char)
    requires
        !a.contains(sep),
    ensures
        pieces(a, sep) == seq![a],
    decreases a.len(),
{
    if a.len() > 0 {
        let a0 = a.drop_last();
        assert(!a0.contains(sep)) by {
            if a0.contains(sep) {
                let k = choose|k: int| 0 <= k < a0.len() && a0[k] == sep;
                assert(a[k] == sep);
            }
        }
        lemma_pieces_single(a0, sep);
        assert(a.last() != sep) by {
            assert(a[a.len() - 1] == a.last());
        }
        assert(a0.push(a.last()) =~= a);
        assert(pieces(a, sep) =~= seq![a]);
    } else {
        assert(a =~= Seq::<char>::empty());
    }
}

proof fn lemma_three_pieces(x: Seq<char>, y: Seq<char>, z: Seq<char>, sep: char)
    requires
        !x.contains(sep),
        !y.contains(sep),
        !z.contains(sep),
    ensures
        pieces(x + seq![sep] + y + seq![sep] + z, sep) == seq![x, y, z],
{
    lemma_pieces_concat(x + seq![sep] + y, sep, z);
    lemma_pieces_concat(x, sep, y);
    lemma_pieces_single(x, sep);
    lemma_pieces_single(y, sep);
    lemma_pieces_single(z, sep);
    assert(seq![x] + seq![y] + seq![z] =~= seq![x, y, z]);
}

proof fn lemma_no_sep_in_concat(a: Seq<char>, b: Seq<char>, sep: char, other: char)
    requires
        !a.contains(sep),
        !b.contains(sep),
        other != sep,
    ensures
        !(a + seq![other] + b).contains(sep),
{
    let s = a + seq![other] + b;
    if s.contains(sep) {
        let k = choose|k: int| 0 <= k < s.len() && s[k] == sep;
        if k < a.len() {
            assert(a[k] == sep);
        } else if k > a.len() {
            assert(b[k - a.len() - 1] == sep);
        }
    }
}

/// A list that is a single entry reads as that entry.
proof fn lemma_single_entry(entry: Seq<char>)
    requires
        !entry.contains(','),
    ensures
        acls_result(entry) == (match entry_acl(entry) {
            Err(e) => Err(e),
            Ok(a) => Ok(seq![a]),
        }),
{
    lemma_pieces_single(entry, ',');
    let es = seq![entry];
    assert(es.drop_last() =~= Seq::<Seq<char>>::empty());
    assert(entries_acls(es.drop_last()) == Ok::<Seq<AclView>, Seq<char>>(seq![]));
    assert(Seq::<AclView>::empty().push(entry_acl(entry)->Ok_0) =~= seq![entry_acl(entry)->Ok_0]);
}

/// The notation `scheme:id:perms` grants the rights `perms` to `id` under
/// `scheme`, for any scheme other than `auth` and any scheme, id and rights
/// text free of colons and commas whose rights text reads.
pub proof fn law_entry_reads_back(scheme: Seq<char>, id: Seq<char>, perms: Seq<char>)
    requires
        !scheme.contains(':') && !scheme.contains(','),
        !id.contains(':') && !id.contains(','),
        !perms.contains(':') && !perms.contains(','),
        scheme != AUTH_SCHEME@,
        perms_result(perms) is Ok,
    ensures
        acls_result(scheme + seq![':'] + id + seq![':'] + perms) == Ok::<Seq<AclView>, Seq<char>>(
            seq![AclView { permission: perms_result(perms)->Ok_0, scheme, id }],
        ),
{
    let entry = scheme + seq![':'] + id + seq![':'] + perms;
    lemma_three_pieces(scheme, id, perms, ':');
    lemma_no_sep_in_concat(scheme, id, ',', ':');
    lemma_no_sep_in_concat(scheme + seq![':'] + id, perms, ',', ':');
    lemma_single_entry(entry);
}

/// A digest entry `digest:user:hash:perms` grants `perms` to the id `user:hash`.
pub proof fn law_digest_id_keeps_its_colon(user: Seq<char>, hash: Seq<char>, perms: Seq<char>)
    requires
        !user.contains(':') && !user.contains(','),
        !hash.contains(':') && !hash.contains(','),
        !perms.contains(':') && !perms.contains(','),
        perms_result(perms) is Ok,
    ensures
        acls_result(DIGEST_SCHEME@ + seq![':'] + user + seq![':'] + hash + seq![':'] + perms) == Ok::<
            Seq<AclView>,
            Seq<char>,
        >(
            seq![
                AclView {
                    permission: perms_result(perms)->Ok_0,
                    scheme: DIGEST_SCHEME@,
                    id: user + seq![':'] + hash,
                },
            ],
        ),
{
    reveal_strlit("digest");
    let d = DIGEST_SCHEME@;
    assert(d =~= seq!['d', 'i', 'g', 'e', 's', 't']);
    assert(!d.contains(':') && !d.contains(',')) by {
        if d.contains(':') || d.contains(',') {
            let k = choose|k: int| 0 <= k < d.len() && (d[k] == ':' || d[k] == ',');
            assert(0 <= k < 6);
        }
    }
    let first = d + seq![':'] + user + seq![':'] + hash;
    let entry = first + seq![':'] + perms;
    lemma_three_pieces(d, user, hash, ':');
    lemma_pieces_concat(first, ':', perms);
    lemma_pieces_single(perms, ':');
    assert(pieces(entry, ':') =~= seq![d, user, hash, perms]);
    lemma_no_sep_in_concat(d, user, ',', ':');
    lemma_no_sep_in_concat(d + seq![':'] + user, hash, ',', ':');
    lemma_no_sep_in_concat(first, perms, ',', ':');
    lemma_single_entry(entry);
}

/// An `auth` entry `auth:x:perms` grants `perms` with an empty id, whatever `x` is.
pub proof fn law_auth_entry_has_no_id(x: Seq<char>, perms: Seq<char>)
    requires
        !x.contains(':') && !x.contains(','),
        !perms.contains(':') && !perms.contains(','),
        perms_result(perms) is Ok,
    ensures
        acls_result(AUTH_SCHEME@ + seq![':'] + x + seq![':'] + perms) == Ok::<Seq<AclView>, Seq<char>>(
            seq![AclView { permission: perms_result(perms)->Ok_0, scheme: AUTH_SCHEME@, id: seq![] }],
        ),
{
    reveal_strlit("auth");
    let a = AUTH_SCHEME@;
    assert(a =~= seq!['a', 'u', 't', 'h']);
    assert(!a.contains(':') && !a.contains(',')) by {
        if a.contains(':') || a.contains(',') {
            let k = choose|k: int| 0 <= k < a.len() && (a[k] == ':' || a[k] == ',');
            assert(0 <= k < 4);
        }
    }
    lemma_three_pieces(a, x, perms, ':');
    lemma_no_sep_in_concat(a, x, ',', ':');
    lemma_no_sep_in_concat(a + seq![':'] + x, perms, ',', ':');
    lemma_single_entry(a + seq![':'] + x + seq![':'] + perms);
}

/// A list that reads gives one entry per comma-separated piece, each read on its own, in order.
pub proof fn law_one_acl_per_entry(text: Seq<char>)
    requires
        acls_result(text) is Ok,
    ensures
        acls_result(text)->Ok_0.len() == pieces(text, ',').len(),
        acls_result(text)->Ok_0.len() >= 1,
        forall|i: int|
            0 <= i < pieces(text, ',').len() ==> entry_acl(#[trigger] pieces(text, ',')[i])
                == Ok::<AclView, Seq<char>>(acls_result(text)->Ok_0[i]),
{
    lemma_entries_each(pieces(text, ','));
    lemma_pieces_nonempty(text, ',');
}

proof fn lemma_entries_each(es: Seq<Seq<char>>)
    requires
        entries_acls(es) is Ok,
    ensures
        entries_acls(es)->Ok_0.len() == es.len(),
        forall|i: int|
            0 <= i < es.len() ==> entry_acl(#[trigger] es[i]) == Ok::<AclView, Seq<char>>(
                entries_acls(es)->Ok_0[i],
            ),
    decreases es.len(),
{
    if es.len() > 0 {
        let p = es.drop_last();
        lemma_entries_each(p);
        assert forall|i: int| 0 <= i < es.len() implies entry_acl(#[trigger] es[i]) == Ok::<
            AclView,
            Seq<char>,
        >(entries_acls(es)->Ok_0[i]) by {
            if i < es.len() - 1 {
                assert(es[i] == p[i]);
            }
        }
    }
}

proof fn lemma_entries_concat(x: Seq<Seq<char>>, y: Seq<Seq<char>>)
    ensures
        entries_acls(x + y) == (match entries_acls(x) {
            Err(e) => Err(e),
            Ok(v) => match entries_acls(y) {
                Err(e) => Err(e),
                Ok(w) => Ok(v + w),
            },
        }),
    decreases y.len(),
{
    if y.len() == 0 {
        assert(x + y =~= x);
        if let Ok(v) = entries_acls(x) {
            assert(v + Seq::<AclView>::empty() =~= v);
        }
    } else {
        let y0 = y.drop_last();
        lemma_entries_concat(x, y0);
        assert((x + y).drop_last() =~= x + y0);
        assert((x + y).last() == y.last());
        if let Ok(v) = entries_acls(x) {
            if let Ok(w0) = entries_acls(y0) {
                if let Ok(a) = entry_acl(y.last()) {
                    assert((v + w0).push(a) =~= v + w0.push(a));
                }
            }
        }
    }
}

/// A list never fails for being empty: it reads as its entries do.
proof fn lemma_acls_result_is_entries(text: Seq<char>)
    ensures
        acls_result(text) == entries_acls(pieces(text, ',')),
{
    lemma_pieces_nonempty(text, ',');
    if entries_acls(pieces(text, ',')) is Ok {
        lemma_entries_each(pieces(text, ','));
    }
}

/// Joining two lists with a comma reads as both lists, in order, or fails
/// with the first error; never as part of a list.
pub proof fn law_acl_lists_concatenate(a: Seq<char>, b: Seq<char>)
    ensures
        acls_result(a + seq![','] + b) == (match (acls_result(a), acls_result(b)) {
            (Err(e), _) => Err(e),
            (Ok(_), Err(e)) => Err(e),
            (Ok(x), Ok(y)) => Ok::<Seq<AclView>, Seq<char>>(x + y),
        }),
{
    lemma_pieces_concat(a, ',', b);
    lemma_entries_concat(pieces(a, ','), pieces(b, ','));
    lemma_acls_result_is_entries(a + seq![','] + b);
    lemma_acls_result_is_entries(a);
    lemma_acls_result_is_entries(b);
}

/// How `getAcl` shows one entry, without the final line feed.
pub open spec fn acl_text(a: AclView) -> Seq<char> {
    seq!['\''] + a.scheme + seq![',', '\''] + a.id + seq!['\n', ':', ' '] + perm_letters(a.permission)
}

pub open spec fn acl_texts(v: Seq<AclView>) -> Seq<Seq<char>> {
    v.map_values(|a: AclView| acl_text(a))
}

proof fn lemma_perm_letters_no_line_feed(p: Permission)
    ensures
        perm_letters(p).len() == 0 || perm_letters(p).last() != '\n',
{
    let s = perm_letters(p);
    if s.len() > 0 {
        assert forall|k: int| 0 <= k < s.len() implies s[k] != '\n' by {
            let c1: Seq<char> = if p.create { seq!['c'] } else { seq![] };
            let c2: Seq<char> = if p.delete { seq!['d'] } else { seq![] };
            let c3: Seq<char> = if p.read { seq!['r'] } else { seq![] };
            let c4: Seq<char> = if p.write { seq!['w'] } else { seq![] };
            let c5: Seq<char> = if p.admin { seq!['a'] } else { seq![] };
            assert(s == c1 + c2 + c3 + c4 + c5);
            let s4 = c1 + c2 + c3 + c4;
            let s3 = c1 + c2 + c3;
            let s2 = c1 + c2;
            if k >= s4.len() {
                assert(s[k] == c5[k - s4.len()]);
            } else {
                assert(s[k] == s4[k]);
                if k >= s3.len() {
                    assert(s4[k] == c4[k - s3.len()]);
                } else {
                    assert(s4[k] == s3[k]);
                    if k >= s2.len() {
                        assert(s3[k] == c3[k - s2.len()]);
                    } else {
                        assert(s3[k] == s2[k]);
                        if k >= c1.len() {
                            assert(s2[k] == c2[k - c1.len()]);
                        } else {
                            assert(s2[k] == c1[k]);
                        }
                    }
                }
            }
        }
        assert(s.last() == s[s.len() - 1]);
    }
}

proof fn lemma_acl_text_end(a: AclView)
    ensures
        acl_text(a).len() > 0,
        acl_text(a).last() != '\n',
        acl_lines(a) == acl_text(a) + seq!['\n'],
{
    lemma_perm_letters_no_line_feed(a.permission);
    let head = seq!['\''] + a.scheme + seq![',', '\''] + a.id + seq!['\n', ':', ' '];
    let l = perm_letters(a.permission);
    assert(acl_text(a) == head + l);
    if l.len() == 0 {
        assert(head + l =~= head);
        assert(head.last() == ' ');
    } else {
        assert((head + l).last() == l.last());
    }
    assert(acl_lines(a) =~= acl_text(a) + seq!['\n']);
}

proof fn lemma_joined_last(s: Seq<Seq<char>>, sep: Seq<char>)
    requires
        s.len() > 0,
        s.last().len() > 0,
    ensures
        joined(s, sep).len() > 0,
        joined(s, sep).last() == s.last().last(),
{
    if s.len() > 1 {
        let j = joined(s.drop_last(), sep) + sep + s.last();
        assert(j.last() == s.last().last());
    }
}

proof fn lemma_all_lines_joined(v: Seq<AclView>)
    requires
        v.len() > 0,
    ensures
        all_acl_lines(v) == joined(acl_texts(v), seq!['\n']) + seq!['\n'],
    decreases v.len(),
{
    let p = v.drop_last();
    lemma_acl_text_end(v.last());
    assert(acl_texts(v).drop_last() =~= acl_texts(p));
    assert(acl_texts(v).last() == acl_text(v.last()));
    if p.len() == 0 {
        assert(all_acl_lines(p) == Seq::<char>::empty());
        assert(all_acl_lines(v) =~= acl_lines(v.last()));
        assert(acl_texts(v)[0] == acl_text(v.last()));
    } else {
        lemma_all_lines_joined(p);
        assert(all_acl_lines(v) =~= joined(acl_texts(v), seq!['\n']) + seq!['\n']);
    }
}

/// `getAcl` output is the entries' two-line texts joined by single line
/// feeds, with none at the end; nothing at all for an empty ACL.
pub proof fn law_acl_output_is_joined_lines(v: Seq<AclView>)
    ensures
        trim_line_feeds(all_acl_lines(v)) == joined(acl_texts(v), seq!['\n']),
{
    if v.len() == 0 {
        assert(acl_texts(v) =~= Seq::<Seq<char>>::empty());
    } else {
        lemma_all_lines_joined(v);
        let j = joined(acl_texts(v), seq!['\n']);
        lemma_acl_text_end(v.last());
        assert(acl_texts(v).last() == acl_text(v.last()));
        lemma_joined_last(acl_texts(v), seq!['\n']);
        assert((j + seq!['\n']).drop_last() =~= j);
        assert((j + seq!['\n']).last() == '\n');
        assert(trim_line_feeds(j) == j);
    }
}

} // verus!
