//! The command line: splitting it into words, and reading the arguments of
//! `create`, `set` and `delete`.
use vstd::prelude::*;
use crate::acl::{acl_views, acls_result, parse_acls, Acl, AclView};
use crate::text::{
    all_digits, chars_of, digits_value, is_digit, is_space, join_range, joined, space, string_of,
    text_is, texts, words,
};

verus! {

pub const SET_USAGE: &'static str = "用法：set [-v <version>] <path> <data>";

pub const DELETE_USAGE: &'static str = "用法：delete [-v <version>] <path>";

pub const CREATE_USAGE: &'static str = "用法：create [-s] [-e] <path> [data] [acl]";

pub const VERSION_FLAG: &'static str = "-v";

pub const SEQUENTIAL_FLAG: &'static str = "-s";

pub const EPHEMERAL_FLAG: &'static str = "-e";

pub const SPACE: &'static str = " ";

// ---------------------------------------------------------------------------
// Words
// ---------------------------------------------------------------------------

/// Splits a command line into its words: the maximal runs of
/// non-whitespace characters (`str::split_whitespace`).
pub fn tokenize(line: &str) -> (r: Vec<String>)
    ensures
        texts(r@) == words(line@),
{
    let v = chars_of(line);
    let mut res: Vec<String> = Vec::new();
    let mut in_word = false;
    let mut start: usize = 0;
    let mut i: usize = 0;
    while i < v.len()
        invariant
            i <= v.len(),
            v@ == line@,
            !in_word ==> words(v@.take(i as int)) == texts(res@),
            !in_word ==> (i == 0 || is_space(v@[i - 1])),
            in_word ==> start < i,
            in_word ==> words(v@.take(i as int)) == texts(res@).push(
                v@.subrange(start as int, i as int),
            ),
            in_word ==> !is_space(v@[i - 1]),
        decreases v.len() - i,
    {
        let c = v[i];
        let ghost p = v@.take(i as int);
        assert(v@.take(i + 1).drop_last() == p);
        assert(v@.take(i + 1).last() == c);
        if space(c) {
            if in_word {
                let w = string_of(&v, start, i);
                let ghost before = texts(res@);
                res.push(w);
                assert(texts(res@) =~= before.push(w@));
                in_word = false;
            }
        } else {
            if in_word {
                assert(p.last() == v@[i - 1]);
                assert(v@.subrange(start as int, i + 1) == v@.subrange(start as int, i as int).push(c));
                assert(words(v@.take(i + 1)) =~= texts(res@).push(v@.subrange(start as int, i + 1)));
            } else {
                if i > 0 {
                    assert(p.last() == v@[i - 1]);
                }
                assert(v@.subrange(i as int, i + 1) =~= seq![c]);
                start = i;
                in_word = true;
            }
        }
        i += 1;
    }
    assert(v@.take(v.len() as int) == v@);
    if in_word {
        let w = string_of(&v, start, v.len());
        let ghost before = texts(res@);
        res.push(w);
        assert(texts(res@) =~= before.push(w@));
    }
    res
}

// ---------------------------------------------------------------------------
// Version numbers
// ---------------------------------------------------------------------------

/// What `str::parse::<i32>` gives: an optional `+` or `-`, then at least one
/// ASCII digit and nothing else, denoting a number in the range of `i32`.
pub open spec fn i32_parse(s: Seq<char>) -> Option<i32> {
    if s.len() == 0 {
        None
    } else {
        let signed = s[0] == '+' || s[0] == '-';
        let d = if signed {
            s.drop_first()
        } else {
            s
        };
        let v: int = if s[0] == '-' {
            -(digits_value(d) as int)
        } else {
            digits_value(d) as int
        };
        if (signed && d.len() == 0) || !all_digits(d) || v < i32::MIN || v > i32::MAX {
            None
        } else {
            Some(v as i32)
        }
    }
}

/// Reads a 32-bit integer the way `str::parse::<i32>` does.
pub fn parse_i32(s: &str) -> (r: Option<i32>)
    ensures
        r == i32_parse(s@),
{
    let v = chars_of(s);
    let n = v.len();
    if n == 0 {
        return None;
    }
    let signed = v[0] == '+' || v[0] == '-';
    let negative = v[0] == '-';
    let pos: usize = if signed {
        1
    } else {
        0
    };
    if signed && n == 1 {
        return None;
    }
    let ghost d = if signed {
        s@.drop_first()
    } else {
        s@
    };
    assert(d == v@.subrange(pos as int, n as int));
    // The magnitude, saturated just above 2^31 so that it cannot overflow.
    let cap: u64 = 2147483649;
    let mut acc: u64 = 0;
    let mut j: usize = pos;
    while j < n
        invariant
            pos <= j <= n == v.len(),
            cap == 2147483649,
            v@ == s@,
            n > 0,
            signed == (s@[0] == '+' || s@[0] == '-'),
            negative == (s@[0] == '-'),
            pos == (if signed { 1usize } else { 0usize }),
            d == v@.subrange(pos as int, n as int),
            !(signed && n == 1),
            all_digits(v@.subrange(pos as int, j as int)),
            digits_value(v@.subrange(pos as int, j as int)) < cap ==> acc == digits_value(
                v@.subrange(pos as int, j as int),
            ),
            digits_value(v@.subrange(pos as int, j as int)) >= cap ==> acc == cap,
        decreases n - j,
    {
        let c = v[j];
        let ghost pre = v@.subrange(pos as int, j as int);
        assert(v@.subrange(pos as int, j + 1) == pre.push(c));
        assert(v@.subrange(pos as int, j + 1).drop_last() == pre);
        if !('0' <= c && c <= '9') {
            assert(!all_digits(d)) by {
                assert(d[j - pos] == c);
            }
            return None;
        }
        assert(is_digit(c));
        let dv = c as u64 - '0' as u64;
        if acc >= cap {
            acc = cap;
        } else {
            acc = acc * 10 + dv;
            if acc >= cap {
                acc = cap;
            }
        }
        assert(all_digits(pre.push(c))) by {
            assert forall|k: int| 0 <= k < pre.len() + 1 implies is_digit(#[trigger] pre.push(c)[k]) by {
                if k < pre.len() {
                    assert(pre.push(c)[k] == pre[k]);
                }
            }
        }
        j += 1;
    }
    assert(v@.subrange(pos as int, n as int) == d);
    if negative {
        if acc <= 2147483648 {
            let m: i64 = acc as i64;
            Some((-m) as i32)
        } else {
            None
        }
    } else {
        if acc <= 2147483647 {
            Some(acc as i32)
        } else {
            None
        }
    }
}

// ---------------------------------------------------------------------------
// set [-v <version>] <path> <data...>
// ---------------------------------------------------------------------------

/// The arguments of `set` after the version, if any: the path at `idx` and
/// the data, which is every later word joined by single spaces.
pub open spec fn set_rest(t: Seq<Seq<char>>, idx: int, ver: Option<i32>) -> Result<
    (Seq<char>, Seq<char>, Option<i32>),
    Seq<char>,
> {
    if t.len() <= idx {
        Err(SET_USAGE@)
    } else {
        let data = joined(t.subrange(idx + 1, t.len() as int), SPACE@);
        if data.len() == 0 && t.len() <= idx + 1 {
            Err(SET_USAGE@)
        } else {
            Ok((t[idx], data, ver))
        }
    }
}

/// What `parse_set_args` gives for the words `t` (the first word is the command).
pub open spec fn set_args_result(t: Seq<Seq<char>>) -> Result<
    (Seq<char>, Seq<char>, Option<i32>),
    Seq<char>,
> {
    if t.len() > 1 && t[1] == VERSION_FLAG@ {
        if t.len() <= 2 {
            Err(SET_USAGE@)
        } else {
            match i32_parse(t[2]) {
                None => Err(SET_USAGE@),
                Some(v) => set_rest(t, 3, Some(v)),
            }
        }
    } else {
        set_rest(t, 1, None)
    }
}

/// Reads `set [-v <version>] <path> <data...>`; the data may span several words.
pub fn parse_set_args(tokens: &[String]) -> (r: Result<(String, String, Option<i32>), String>)
    ensures
        match (r, set_args_result(texts(tokens@))) {
            (Ok((p, d, v)), Ok((sp, sd, sv))) => p@ == sp && d@ == sd && v == sv,
            (Err(e), Err(f)) => e@ == f,
            _ => false,
        },
{
    let ghost t = texts(tokens@);
    let mut index: usize = 1;
    let mut version: Option<i32> = None;
    if tokens.len() > 1 && text_is(tokens[1].as_str(), VERSION_FLAG) {
        if tokens.len() <= 2 {
            return Err(String::from_str(SET_USAGE));
        }
        match parse_i32(tokens[2].as_str()) {
            None => {
                return Err(String::from_str(SET_USAGE));
            },
            Some(v) => {
                version = Some(v);
            },
        }
        index = 3;
    }
    if tokens.len() <= index {
        return Err(String::from_str(SET_USAGE));
    }
    let path = tokens[index].clone();
    let data = join_range(tokens, index + 1, tokens.len(), SPACE);
    if data.as_str().is_empty() && tokens.len() <= index + 1 {
        return Err(String::from_str(SET_USAGE));
    }
    Ok((path, data, version))
}

// ---------------------------------------------------------------------------
// delete [-v <version>] <path>
// ---------------------------------------------------------------------------

/// What `parse_delete_args` gives for the words `t` (the first word is the command).
pub open spec fn delete_args_result(t: Seq<Seq<char>>) -> Result<(Seq<char>, Option<i32>), Seq<char>> {
    if t.len() > 1 && t[1] == VERSION_FLAG@ {
        if t.len() <= 2 {
            Err(DELETE_USAGE@)
        } else {
            match i32_parse(t[2]) {
                None => Err(DELETE_USAGE@),
                Some(v) => if t.len() <= 3 || t.len() > 4 {
                    Err(DELETE_USAGE@)
                } else {
                    Ok((t[3], Some(v)))
                },
            }
        }
    } else {
        if t.len() <= 1 || t.len() > 2 {
            Err(DELETE_USAGE@)
        } else {
            Ok((t[1], None))
        }
    }
}

/// Reads `delete [-v <version>] <path>`; nothing may follow the path.
pub fn parse_delete_args(tokens: &[String]) -> (r: Result<(String, Option<i32>), String>)
    ensures
        match (r, delete_args_result(texts(tokens@))) {
            (Ok((p, v)), Ok((sp, sv))) => p@ == sp && v == sv,
            (Err(e), Err(f)) => e@ == f,
            _ => false,
        },
{
    if tokens.len() > 1 && text_is(tokens[1].as_str(), VERSION_FLAG) {
        if tokens.len() <= 2 {
            return Err(String::from_str(DELETE_USAGE));
        }
        let version = match parse_i32(tokens[2].as_str()) {
            None => {
                return Err(String::from_str(DELETE_USAGE));
            },
            Some(v) => v,
        };
        if tokens.len() <= 3 {
            return Err(String::from_str(DELETE_USAGE));
        }
        let path = tokens[3].clone();
        if tokens.len() > 4 {
            return Err(String::from_str(DELETE_USAGE));
        }
        Ok((path, Some(version)))
    } else {
        if tokens.len() <= 1 {
            return Err(String::from_str(DELETE_USAGE));
        }
        let path = tokens[1].clone();
        if tokens.len() > 2 {
            return Err(String::from_str(DELETE_USAGE));
        }
        Ok((path, None))
    }
}

// ---------------------------------------------------------------------------
// create [-s] [-e] <path> [data] [acl]
// ---------------------------------------------------------------------------

/// The arguments of `create`.
#[derive(Debug, PartialEq, Eq)]
pub struct CreateArgs {
    pub sequential: bool,
    pub ephemeral: bool,
    pub path: String,
    pub data: String,
    pub acl: Option<Vec<Acl>>,
}

/// The arguments of `create`, as mathematical values.
pub struct CreateArgsView {
    pub sequential: bool,
    pub ephemeral: bool,
    pub path: Seq<char>,
    pub data: Seq<char>,
    pub acl: Option<Seq<AclView>>,
}

impl View for CreateArgs {
    type V = CreateArgsView;

    open spec fn view(&self) -> CreateArgsView {
        CreateArgsView {
            sequential: self.sequential,
            ephemeral: self.ephemeral,
            path: self.path@,
            data: self.data@,
            acl: match self.acl {
                Some(v) => Some(acl_views(v@)),
                None => None,
            },
        }
    }
}

impl Default for CreateArgs {
    /// No flag, empty path and data, no ACL.
    fn default() -> (r: CreateArgs)
        ensures
            r@ == (CreateArgsView {
                sequential: false,
                ephemeral: false,
                path: seq![],
                data: seq![],
                acl: None,
            }),
    {
        CreateArgs {
            sequential: false,
            ephemeral: false,
            path: String::new(),
            data: String::new(),
            acl: None,
        }
    }
}

/// Whether a word is one of the flags of `create`.
pub open spec fn is_create_flag(w: Seq<char>) -> bool {
    w == SEQUENTIAL_FLAG@ || w == EPHEMERAL_FLAG@
}

/// The index of the first word at or after `k` that is not a flag of `create`.
pub open spec fn flags_end(t: Seq<Seq<char>>, k: int) -> int
    decreases t.len() - k,
{
    if 0 <= k < t.len() && is_create_flag(t[k]) {
        flags_end(t, k + 1)
    } else {
        k
    }
}

/// Whether `flag` is among the words `t[lo..hi]`.
pub open spec fn has_word(t: Seq<Seq<char>>, lo: int, hi: int, flag: Seq<char>) -> bool {
    exists|j: int| lo <= j < hi && t[j] == flag
}

/// What `parse_create_args` gives for the words `t` (the first word is the
/// command). Flags come first; the path must not start with `-`. Of the
/// words after the path, the last is taken as the ACL when there are at least
/// two and it reads as one; the others, joined by single spaces, are the data.
pub open spec fn create_args_result(t: Seq<Seq<char>>) -> Result<CreateArgsView, Seq<char>> {
    let idx = flags_end(t, 1);
    let sequential = has_word(t, 1, idx, SEQUENTIAL_FLAG@);
    let ephemeral = has_word(t, 1, idx, EPHEMERAL_FLAG@);
    if idx >= t.len() || (t[idx].len() > 0 && t[idx][0] == '-') {
        Err(CREATE_USAGE@)
    } else {
        let rest = t.subrange(idx + 1, t.len() as int);
        if rest.len() == 0 {
            Ok(CreateArgsView { sequential, ephemeral, path: t[idx], data: seq![], acl: None })
        } else if rest.len() >= 2 && acls_result(rest.last()) is Ok {
            Ok(
                CreateArgsView {
                    sequential,
                    ephemeral,
                    path: t[idx],
                    data: joined(rest.drop_last(), SPACE@),
                    acl: Some(acls_result(rest.last())->Ok_0),
                },
            )
        } else {
            Ok(
                CreateArgsView {
                    sequential,
                    ephemeral,
                    path: t[idx],
                    data: joined(rest, SPACE@),
                    acl: None,
                },
            )
        }
    }
}

fn create_flag(w: &str) -> (r: bool)
    ensures
        r == is_create_flag(w@),
{
    text_is(w, SEQUENTIAL_FLAG) || text_is(w, EPHEMERAL_FLAG)
}

/// Reads `create [-s] [-e] <path> [data] [acl]`. The data may hold spaces:
/// the last argument is the ACL when it reads as one and is not the only
/// argument after the path; the rest is the data.
pub fn parse_create_args(tokens: &[String]) -> (r: Result<CreateArgs, String>)
    ensures
        match (r, create_args_result(texts(tokens@))) {
            (Ok(a), Ok(b)) => a@ == b,
            (Err(e), Err(f)) => e@ == f,
            _ => false,
        },
{
    let ghost t = texts(tokens@);
    let mut sequential = false;
    let mut ephemeral = false;
    let mut index: usize = 1;
    while index < tokens.len() && create_flag(tokens[index].as_str())
        invariant
            1 <= index,
            index <= tokens.len() || index == 1,
            t == texts(tokens@),
            flags_end(t, 1) == flags_end(t, index as int),
            sequential == has_word(t, 1, index as int, SEQUENTIAL_FLAG@),
            ephemeral == has_word(t, 1, index as int, EPHEMERAL_FLAG@),
        decreases tokens.len() - index,
    {
        let ghost w = t[index as int];
        proof {
            reveal_strlit("-s");
            reveal_strlit("-e");
            assert(SEQUENTIAL_FLAG@[1] != EPHEMERAL_FLAG@[1]);
        }
        if text_is(tokens[index].as_str(), SEQUENTIAL_FLAG) {
            sequential = true;
        } else {
            ephemeral = true;
        }
        assert(has_word(t, 1, index + 1, SEQUENTIAL_FLAG@) == (has_word(t, 1, index as int, SEQUENTIAL_FLAG@)
            || w == SEQUENTIAL_FLAG@));
        assert(has_word(t, 1, index + 1, EPHEMERAL_FLAG@) == (has_word(t, 1, index as int, EPHEMERAL_FLAG@)
            || w == EPHEMERAL_FLAG@));
        index += 1;
    }
    assert(flags_end(t, 1) == index);
    if index >= tokens.len() {
        return Err(String::from_str(CREATE_USAGE));
    }
    let first = chars_of(tokens[index].as_str());
    if first.len() > 0 && first[0] == '-' {
        return Err(String::from_str(CREATE_USAGE));
    }
    let path = tokens[index].clone();
    let n = tokens.len();
    let ghost rest = t.subrange(index + 1, n as int);
    let after = index + 1;
    if after == n {
        return Ok(
            CreateArgs { sequential, ephemeral, path, data: String::new(), acl: None },
        );
    }
    assert(rest.last() == t[n - 1]);
    assert(rest.drop_last() == t.subrange(after as int, n - 1));
    if n - after >= 2 {
        match parse_acls(tokens[n - 1].as_str()) {
            Ok(acl) => {
                let data = join_range(tokens, after, n - 1, SPACE);
                return Ok(CreateArgs { sequential, ephemeral, path, data, acl: Some(acl) });
            },
            Err(_) => {},
        }
    }
    let data = join_range(tokens, after, n, SPACE);
    Ok(CreateArgs { sequential, ephemeral, path, data, acl: None })
}

// ---------------------------------------------------------------------------
// Laws
// ---------------------------------------------------------------------------

/// A word: at least one character, none of them whitespace.
pub open spec fn is_word(w: Seq<char>) -> bool {
    w.len() > 0 && forall|k: int| 0 <= k < w.len() ==> !is_space(#[trigger] w[k])
}

proof fn lemma_words_ends_in_word(s: Seq<char>)
    requires
        s.len() > 0,
        !is_space(s.last()),
    ensures
        words(s).len() > 0,
    decreases s.len(),
{
    let p = s.drop_last();
    if p.len() > 0 && !is_space(p.last()) {
        lemma_words_ends_in_word(p);
    }
}

/// Every word of a line is non-empty and holds no whitespace.
pub proof fn law_words_are_words(s: Seq<char>)
    ensures
        forall|i: int| 0 <= i < words(s).len() ==> is_word(#[trigger] words(s)[i]),
    decreases s.len(),
{
    if s.len() > 0 {
        let p = s.drop_last();
        let c = s.last();
        law_words_are_words(p);
        let w = words(p);
        if !is_space(c) {
            if p.len() > 0 && !is_space(p.last()) {
                lemma_words_ends_in_word(p);
                let l = w.last().push(c);
                assert(is_word(w.last()));
                assert(is_word(l)) by {
                    assert forall|k: int| 0 <= k < l.len() implies !is_space(#[trigger] l[k]) by {
                        if k < l.len() - 1 {
                            assert(l[k] == w.last()[k]);
                        }
                    }
                }
                assert forall|i: int| 0 <= i < words(s).len() implies is_word(#[trigger] words(s)[i]) by {
                    if i < w.len() - 1 {
                        assert(words(s)[i] == w[i]);
                    }
                }
            } else {
                assert(is_word(seq![c]));
                assert forall|i: int| 0 <= i < words(s).len() implies is_word(#[trigger] words(s)[i]) by {
                    if i < w.len() {
                        assert(words(s)[i] == w[i]);
                    }
                }
            }
        }
    }
}

/// Appending text after whitespace appends its words.
proof fn lemma_words_concat(x: Seq<char>, b: Seq<char>)
    requires
        x.len() == 0 || is_space(x.last()),
    ensures
        words(x + b) == words(x) + words(b),
    decreases b.len(),
{
    if b.len() == 0 {
        assert(x + b == x);
        assert(words(x) + words(b) =~= words(x));
    } else {
        let b0 = b.drop_last();
        let c = b.last();
        lemma_words_concat(x, b0);
        let p = x + b0;
        assert((x + b).drop_last() == p);
        assert((x + b).last() == c);
        if b0.len() > 0 {
            assert(p.last() == b0.last());
        }
        if !is_space(c) && b0.len() > 0 && !is_space(b0.last()) {
            lemma_words_ends_in_word(b0);
        }
        assert(words(x + b) =~= words(x) + words(b));
    }
}

/// A single word reads as itself.
proof fn lemma_words_of_word(w: Seq<char>)
    requires
        is_word(w),
    ensures
        words(w) == seq![w],
    decreases w.len(),
{
    let p = w.drop_last();
    assert(!is_space(w[w.len() - 1]));
    if p.len() == 0 {
        assert(words(p) == Seq::<Seq<char>>::empty());
        assert(seq![w.last()] =~= w);
    } else {
        assert(is_word(p)) by {
            assert forall|k: int| 0 <= k < p.len() implies !is_space(#[trigger] p[k]) by {
                assert(p[k] == w[k]);
            }
        }
        lemma_words_of_word(p);
        assert(!is_space(p[p.len() - 1]));
        assert(p.push(w.last()) =~= w);
    }
}

/// Splitting words that were joined by single spaces gives the words back.
pub proof fn law_words_of_joined(ws: Seq<Seq<char>>)
    requires
        forall|i: int| 0 <= i < ws.len() ==> is_word(#[trigger] ws[i]),
    ensures
        words(joined(ws, SPACE@)) == ws,
    decreases ws.len(),
{
    reveal_strlit(" ");
    assert(SPACE@ =~= seq![' ']);
    if ws.len() == 0 {
        assert(words(seq![]) == Seq::<Seq<char>>::empty());
    } else if ws.len() == 1 {
        lemma_words_of_word(ws[0]);
        assert(seq![ws[0]] =~= ws);
    } else {
        let dl = ws.drop_last();
        assert forall|i: int| 0 <= i < dl.len() implies is_word(#[trigger] dl[i]) by {
            assert(dl[i] == ws[i]);
        }
        law_words_of_joined(dl);
        let x = joined(dl, SPACE@) + SPACE@;
        assert(x.drop_last() == joined(dl, SPACE@));
        assert(x.last() == ' ');
        assert(words(x) == words(joined(dl, SPACE@)));
        lemma_words_concat(x, ws.last());
        lemma_words_of_word(ws.last());
        assert(dl + seq![ws.last()] =~= ws);
    }
}

/// Printing a version number and reading it back gives the same number.
pub proof fn law_version_reads_back(v: i32)
    ensures
        i32_parse(crate::text::decimal_text(v as int)) == Some(v),
{
    let s = crate::text::decimal_text(v as int);
    if v >= 0 {
        crate::perms::lemma_decimal_digits_value(v as nat);
        assert(is_digit(s[0]));
    } else {
        let m = (-(v as int)) as nat;
        crate::perms::lemma_decimal_digits_value(m);
        assert(s.drop_first() =~= crate::text::decimal_digits(m));
    }
}

/// A single argument after the path of `create` is always data, even when
/// it would read as an ACL: only with two or more arguments can the last one
/// be an ACL.
pub proof fn law_single_argument_is_data(t: Seq<Seq<char>>)
    requires
        create_args_result(t) is Ok,
        t.len() == flags_end(t, 1) + 2,
    ensures
        create_args_result(t)->Ok_0.acl is None,
        create_args_result(t)->Ok_0.data == t.last(),
{
    let idx = flags_end(t, 1);
    let rest = t.subrange(idx + 1, t.len() as int);
    assert(rest.len() == 1);
    assert(rest[0] == t.last());
}

/// `set <path> <data...>`: the data is the words after the path, joined by
/// single spaces, whatever they hold.
pub proof fn law_set_data_is_joined(path: Seq<char>, data: Seq<Seq<char>>, cmd: Seq<char>)
    requires
        path != VERSION_FLAG@,
        data.len() > 0,
    ensures
        set_args_result(seq![cmd, path] + data) == Ok::<(Seq<char>, Seq<char>, Option<i32>), Seq<char>>(
            (path, joined(data, SPACE@), None),
        ),
{
    let t = seq![cmd, path] + data;
    assert(t[1] == path);
    assert(t.subrange(2, t.len() as int) =~= data);
}

/// `s` with each maximal run of whitespace replaced by one space.
pub open spec fn collapse_runs(s: Seq<char>) -> Seq<char>
    decreases s.len(),
{
    if s.len() == 0 {
        seq![]
    } else {
        let p = s.drop_last();
        let c = s.last();
        if is_space(c) {
            if p.len() > 0 && is_space(p.last()) {
                collapse_runs(p)
            } else {
                collapse_runs(p).push(' ')
            }
        } else {
            collapse_runs(p).push(c)
        }
    }
}

/// `x` without the spaces at its end.
pub open spec fn strip_end_spaces(x: Seq<char>) -> Seq<char>
    decreases x.len(),
{
    if x.len() > 0 && x.last() == ' ' {
        strip_end_spaces(x.drop_last())
    } else {
        x
    }
}

/// `x` without the spaces at its start.
pub open spec fn strip_start_spaces(x: Seq<char>) -> Seq<char>
    decreases x.len(),
{
    if x.len() > 0 && x[0] == ' ' {
        strip_start_spaces(x.drop_first())
    } else {
        x
    }
}

/// A line with its whitespace runs collapsed to single spaces and its ends trimmed.
pub open spec fn squeezed(s: Seq<char>) -> Seq<char> {
    strip_start_spaces(strip_end_spaces(collapse_runs(s)))
}

spec fn front_space(s: Seq<char>) -> Seq<char> {
    if s.len() > 0 && is_space(s[0]) {
        seq![' ']
    } else {
        seq![]
    }
}

spec fn back_space(s: Seq<char>) -> Seq<char> {
    if words(s).len() > 0 && s.len() > 0 && is_space(s.last()) {
        seq![' ']
    } else {
        seq![]
    }
}

proof fn lemma_joined_push_last(w: Seq<Seq<char>>, sep: Seq<char>, c: char)
    requires
        w.len() > 0,
    ensures
        joined(w.update(w.len() - 1, w.last().push(c)), sep) == joined(w, sep).push(c),
{
    let u = w.update(w.len() - 1, w.last().push(c));
    if w.len() > 1 {
        assert(u.drop_last() =~= w.drop_last());
        assert(u.last() == w.last().push(c));
        assert(joined(u, sep) =~= joined(w, sep).push(c));
    } else {
        assert(u[0] == w[0].push(c));
    }
}

proof fn lemma_joined_push(w: Seq<Seq<char>>, sep: Seq<char>, x: Seq<char>)
    ensures
        joined(w.push(x), sep) == (if w.len() == 0 {
            x
        } else {
            joined(w, sep) + sep + x
        }),
{
    assert(w.push(x).drop_last() =~= w);
    if w.len() == 0 {
        assert(w.push(x)[0] == x);
    }
}

proof fn lemma_collapse_shape(s: Seq<char>)
    ensures
        collapse_runs(s) == front_space(s) + joined(words(s), seq![' ']) + back_space(s),
    decreases s.len(),
{
    let sp = seq![' '];
    if s.len() == 0 {
        assert(words(s) == Seq::<Seq<char>>::empty());
        assert(collapse_runs(s) =~= front_space(s) + joined(words(s), sp) + back_space(s));
    } else {
        let p = s.drop_last();
        let c = s.last();
        lemma_collapse_shape(p);
        let w = words(p);
        let j = joined(w, sp);
        if p.len() > 0 {
            assert(p[0] == s[0]);
        }
        if is_space(c) {
            if p.len() > 0 && is_space(p.last()) {
                assert(collapse_runs(s) =~= front_space(s) + joined(words(s), sp) + back_space(s));
            } else {
                if p.len() > 0 {
                    lemma_words_ends_in_word(p);
                }
                assert(collapse_runs(s) =~= front_space(s) + joined(words(s), sp) + back_space(s));
            }
        } else if p.len() > 0 && !is_space(p.last()) {
            lemma_words_ends_in_word(p);
            lemma_joined_push_last(w, sp, c);
            assert(collapse_runs(s) =~= front_space(s) + joined(words(s), sp) + back_space(s));
        } else {
            lemma_joined_push(w, sp, seq![c]);
            assert(collapse_runs(s) =~= front_space(s) + joined(words(s), sp) + back_space(s));
        }
    }
}

proof fn lemma_joined_ends(w: Seq<Seq<char>>, sep: Seq<char>)
    requires
        w.len() > 0,
        forall|i: int| 0 <= i < w.len() ==> is_word(#[trigger] w[i]),
    ensures
        joined(w, sep).len() > 0,
        joined(w, sep)[0] == w[0][0],
        joined(w, sep).last() == w.last().last(),
    decreases w.len(),
{
    assert(is_word(w[0]));
    assert(is_word(w[w.len() - 1]));
    if w.len() > 1 {
        let d = w.drop_last();
        assert forall|i: int| 0 <= i < d.len() implies is_word(#[trigger] d[i]) by {
            assert(d[i] == w[i]);
        }
        lemma_joined_ends(d, sep);
        let j = joined(d, sep) + sep + w.last();
        assert(j[0] == joined(d, sep)[0]);
        assert(j.last() == w.last().last());
    }
}

/// The words of a line, joined by single spaces, are the line with each
/// whitespace run collapsed to one space and its ends trimmed.
pub proof fn law_joined_words_are_squeezed_line(s: Seq<char>)
    ensures
        joined(words(s), SPACE@) == squeezed(s),
{
    reveal_strlit(" ");
    assert(SPACE@ =~= seq![' ']);
    let sp = seq![' '];
    lemma_collapse_shape(s);
    law_words_are_words(s);
    let w = words(s);
    let j = joined(w, sp);
    let f = front_space(s);
    let b = back_space(s);
    if w.len() == 0 {
        assert(j == Seq::<char>::empty());
        assert(b == Seq::<char>::empty());
        assert(f + j + b =~= f);
        if f.len() > 0 {
            assert(f.last() == ' ');
            assert(f.drop_last() =~= Seq::<char>::empty());
            assert(strip_end_spaces(f.drop_last()) == f.drop_last());
        }
        assert(strip_end_spaces(f) =~= Seq::<char>::empty());
    } else {
        lemma_joined_ends(w, sp);
        assert(w[0][0] == j[0]);
        assert(!is_space(j[0])) by {
            assert(is_word(w[0]));
        }
        assert(!is_space(j.last())) by {
            assert(is_word(w[w.len() - 1]));
            assert(w.last()[w.last().len() - 1] == w.last().last());
        }
        assert(is_space(' '));
        assert(j.last() != ' ');
        assert((f + j).last() == j.last());
        assert(strip_end_spaces(f + j) == f + j);
        if b.len() > 0 {
            assert((f + j + b).drop_last() =~= f + j);
            assert((f + j + b).last() == ' ');
        } else {
            assert(f + j + b =~= f + j);
        }
        assert((f + j).last() == j.last());
        assert(strip_end_spaces(f + j + b) == f + j);
        assert(j[0] != ' ');
        assert(strip_start_spaces(j) == j);
        if f.len() > 0 {
            assert((f + j).drop_first() =~= j);
            assert((f + j)[0] == ' ');
        } else {
            assert(f + j =~= j);
        }
        assert(strip_start_spaces(f + j) == j);
    }
}

/// Splitting the joined words of a line again gives the same words.
pub proof fn law_tokenize_is_idempotent(s: Seq<char>)
    ensures
        words(joined(words(s), SPACE@)) == words(s),
{
    law_words_are_words(s);
    law_words_of_joined(words(s));
}

} // verus!
